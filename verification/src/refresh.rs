//! The decisions of a refresh of the index: how each configured channel is
//! indexed, how the new memes are counted per channel name, and the report
//! that the `/memedex` command answers with.
use vstd::prelude::*;
use crate::decimal::{decimal_text, push_decimal};
use crate::index::{ChannelState, ChannelStates, ChannelStatus, state_lookup};
use crate::text::{push_char, push_str, string_of, text_eq};

verus! {

/// How a channel is indexed: forwards from the newest message seen so far, or
/// backwards from the newest message of the channel.
#[derive(Debug, Clone, Copy, PartialEq, Eq, Structural)]
pub enum IndexMode {
    Forwards(u64),
    Backwards,
}

/// How a channel in state `state` is indexed by a refresh: a channel that was
/// never indexed is indexed backwards, an indexed one forwards from its newest
/// known message, and one that is being indexed is left alone.
pub open spec fn mode_for_state(state: ChannelState) -> Option<IndexMode> {
    match state.status {
        ChannelStatus::NotIndexed => Some(IndexMode::Backwards),
        ChannelStatus::Indexing => None,
        ChannelStatus::Indexed => match state.current_message {
            Some(m) => Some(IndexMode::Forwards(m)),
            None => None,
        },
    }
}

impl IndexMode {
    /// How a refresh indexes a channel in state `state`; see
    /// [`mode_for_state`]. An indexed channel must know its newest message.
    pub fn for_state(state: &ChannelState) -> (r: Option<IndexMode>)
        requires
            state.status == ChannelStatus::Indexed ==> state.current_message is Some,
        ensures
            r == mode_for_state(*state),
    {
        match state.status {
            ChannelStatus::NotIndexed => Some(IndexMode::Backwards),
            ChannelStatus::Indexing => None,
            ChannelStatus::Indexed => match state.current_message {
                Some(m) => Some(IndexMode::Forwards(m)),
                None => None,
            },
        }
    }
}

/// What a refresh learnt of a configured channel from Discord.
#[derive(Debug, Clone, Copy, PartialEq, Eq, Structural)]
pub enum FetchedChannel {
    /// The channel could not be fetched.
    Unavailable,
    /// The channel is not a guild channel.
    NotGuild,
    /// A guild channel; `is_text` when it is a text channel.
    Guild { is_text: bool },
}

/// What a refresh does with a configured channel.
#[derive(Debug, Clone, Copy, PartialEq, Eq, Structural)]
pub enum ChannelPlan {
    /// The channel is skipped: it is unavailable, not a guild channel or not
    /// a text channel.
    Skip,
    /// The channel is being indexed already; no new memes are counted.
    AlreadyIndexing,
    /// The channel is indexed in the given mode.
    Index(IndexMode),
}

/// What a refresh does with channel `id`, given what Discord said of it and
/// the channel states taken when the refresh started.
pub open spec fn plan_of(states: Seq<(u64, ChannelState)>, id: u64, fetched: FetchedChannel) -> ChannelPlan {
    match fetched {
        FetchedChannel::Guild { is_text: true } => match mode_for_state(state_lookup(states, id)) {
            Some(mode) => ChannelPlan::Index(mode),
            None => ChannelPlan::AlreadyIndexing,
        },
        _ => ChannelPlan::Skip,
    }
}

/// What a refresh does with channel `id`; see [`plan_of`]. A text channel
/// recorded as indexed must know its newest message.
pub fn plan_channel(states: &ChannelStates, id: u64, fetched: FetchedChannel) -> (r: ChannelPlan)
    requires
        fetched == (FetchedChannel::Guild { is_text: true }) && state_lookup(states@, id).status
            == ChannelStatus::Indexed ==> state_lookup(states@, id).current_message is Some,
    ensures
        r == plan_of(states@, id, fetched),
{
    match fetched {
        FetchedChannel::Guild { is_text: true } => {
            let state = states.get_or_default(id);
            match IndexMode::for_state(&state) {
                Some(mode) => ChannelPlan::Index(mode),
                None => ChannelPlan::AlreadyIndexing,
            }
        },
        _ => ChannelPlan::Skip,
    }
}

/// The position of the last count for channel name `name`.
pub open spec fn name_position(s: Seq<(Seq<char>, usize)>, name: Seq<char>) -> Option<int>
    decreases s.len(),
{
    if s.len() == 0 {
        None
    } else if s.last().0 == name {
        Some(s.len() - 1)
    } else {
        name_position(s.drop_last(), name)
    }
}

proof fn lemma_name_position_bounds(s: Seq<(Seq<char>, usize)>, name: Seq<char>)
    ensures
        name_position(s, name) matches Some(i) ==> 0 <= i < s.len() && s[i].0 == name,
    decreases s.len(),
{
    if s.len() > 0 && s.last().0 != name {
        lemma_name_position_bounds(s.drop_last(), name);
    }
}

/// The count recorded for channel name `name`, zero when there is none.
pub open spec fn count_of(s: Seq<(Seq<char>, usize)>, name: Seq<char>) -> nat {
    match name_position(s, name) {
        Some(i) => s[i].1 as nat,
        None => 0,
    }
}

/// The counts after adding `n` new memes for channel name `name`: its count
/// grows by `n`, or a count of `n` is appended for a name not seen before.
pub open spec fn counts_added(s: Seq<(Seq<char>, usize)>, name: Seq<char>, n: usize) -> Seq<
    (Seq<char>, usize),
> {
    match name_position(s, name) {
        Some(i) => s.update(i, (name, (s[i].1 + n) as usize)),
        None => s.push((name, n)),
    }
}

/// A channel name with the Markdown characters `_`, `*`, `` ` `` and `~`
/// escaped by a backslash.
pub open spec fn escape_markdown_text(s: Seq<char>) -> Seq<char>
    decreases s.len(),
{
    if s.len() == 0 {
        Seq::empty()
    } else {
        escape_markdown_text(s.drop_last()) + escaped_char(s.last())
    }
}

/// One character of a channel name, escaped.
pub open spec fn escaped_char(c: char) -> Seq<char> {
    if c == '_' || c == '*' || c == '`' || c == '~' {
        seq!['\\', c]
    } else {
        seq![c]
    }
}

/// The report line of one channel: `\n<name>: <count> new meme`, with an `s`
/// unless exactly one meme was found.
pub open spec fn count_line(name: Seq<char>, count: usize) -> Seq<char> {
    "\n"@ + escape_markdown_text(name) + ": "@ + decimal_text(count as nat) + " new meme"@ + (if count
        != 1 {
        "s"@
    } else {
        Seq::empty()
    })
}

/// The report lines of all counts, in order.
pub open spec fn count_lines(s: Seq<(Seq<char>, usize)>) -> Seq<char>
    decreases s.len(),
{
    if s.len() == 0 {
        Seq::empty()
    } else {
        count_lines(s.drop_last()) + count_line(s.last().0, s.last().1)
    }
}

/// The report of a refresh.
pub open spec fn status_text_of(s: Seq<(Seq<char>, usize)>) -> Seq<char> {
    "Index updated:"@ + count_lines(s)
}

/// Escapes the Markdown characters of a channel name; see
/// [`escape_markdown_text`].
pub fn escape_markdown(s: &str) -> (r: String)
    ensures
        r@ == escape_markdown_text(s@),
{
    let n = s.unicode_len();
    let mut r = String::new();
    let mut i: usize = 0;
    while i < n
        invariant
            n == s@.len(),
            i <= n,
            r@ == escape_markdown_text(s@.take(i as int)),
        decreases n - i,
    {
        let c = s.get_char(i);
        if c == '_' || c == '*' || c == '`' || c == '~' {
            push_char(&mut r, '\\');
        }
        push_char(&mut r, c);
        assert(s@.take(i + 1).drop_last() =~= s@.take(i as int));
        assert(r@ =~= escape_markdown_text(s@.take(i + 1)));
        i = i + 1;
    }
    assert(s@.take(n as int) =~= s@);
    r
}

/// The number of new memes of each channel name found by a refresh, in the
/// order the names were first counted.
#[derive(Debug)]
pub struct MemeCounts {
    entries: Vec<(String, usize)>,
}

impl View for MemeCounts {
    type V = Seq<(Seq<char>, usize)>;

    closed spec fn view(&self) -> Seq<(Seq<char>, usize)> {
        self.entries@.map_values(|e: (String, usize)| (e.0@, e.1))
    }
}

impl MemeCounts {
    /// No counts yet.
    pub fn new() -> (r: MemeCounts)
        ensures
            r@ == Seq::<(Seq<char>, usize)>::empty(),
    {
        let r = MemeCounts { entries: Vec::new() };
        assert(r@ =~= Seq::<(Seq<char>, usize)>::empty());
        r
    }

    fn position(&self, name: &str) -> (r: Option<usize>)
        ensures
            match r {
                Some(i) => name_position(self@, name@) == Some(i as int),
                None => name_position(self@, name@) is None,
            },
            r matches Some(i) ==> i < self.entries@.len() && self@[i as int].0 == name@,
    {
        proof {
            lemma_name_position_bounds(self@, name@);
        }
        let ghost s = self@;
        let mut i = self.entries.len();
        assert(s.take(i as int) =~= s);
        while i > 0
            invariant
                i <= self.entries@.len(),
                s == self@,
                name_position(s, name@) == name_position(s.take(i as int), name@),
            decreases i,
        {
            assert(s.take(i as int).drop_last() =~= s.take(i - 1));
            if text_eq(self.entries[i - 1].0.as_str(), name) {
                return Some(i - 1);
            }
            i = i - 1;
        }
        None
    }

    /// The count of channel name `name`, zero when it has none.
    pub fn count_of(&self, name: &str) -> (r: usize)
        ensures
            r as nat == count_of(self@, name@),
    {
        match self.position(name) {
            Some(i) => self.entries[i].1,
            None => 0,
        }
    }

    /// Adds `count` new memes to the count of channel name `name`.
    pub fn add(&mut self, name: String, count: usize)
        requires
            count_of(old(self)@, name@) + count <= usize::MAX,
        ensures
            final(self)@ == counts_added(old(self)@, name@, count),
    {
        let ghost s = self@;
        match self.position(name.as_str()) {
            Some(i) => {
                let (n, c) = self.entries.remove(i);
                self.entries.insert(i, (n, c + count));
                assert(self@ =~= s.update(i as int, (name@, (s[i as int].1 + count) as usize)));
            },
            None => {
                self.entries.push((name, count));
                assert(self@ =~= s.push((name@, count)));
            },
        }
    }

    /// The report of the refresh; see [`status_text_of`].
    pub fn status_text(&self) -> (r: String)
        ensures
            r@ == status_text_of(self@),
    {
        let mut r = string_of("Index updated:");
        let ghost s = self@;
        let mut i: usize = 0;
        while i < self.entries.len()
            invariant
                s == self@,
                i <= self.entries@.len(),
                r@ == "Index updated:"@ + count_lines(s.take(i as int)),
            decreases self.entries@.len() - i,
        {
            let name = &self.entries[i].0;
            let count = self.entries[i].1;
            let ghost before = r@;
            push_str(&mut r, "\n");
            let escaped = escape_markdown(name.as_str());
            push_str(&mut r, escaped.as_str());
            push_str(&mut r, ": ");
            push_decimal(&mut r, count as u64);
            push_str(&mut r, " new meme");
            if count != 1 {
                push_str(&mut r, "s");
            }
            assert(r@ =~= before + count_line(name@, count));
            assert(s.take(i + 1).drop_last() =~= s.take(i as int));
            assert(s[i as int] == (name@, count));
            i = i + 1;
        }
        assert(s.take(i as int) =~= s);
        r
    }
}

proof fn lemma_name_position_same_names(
    s1: Seq<(Seq<char>, usize)>,
    s2: Seq<(Seq<char>, usize)>,
    name: Seq<char>,
)
    requires
        s1.len() == s2.len(),
        forall|i: int| 0 <= i < s1.len() ==> #[trigger] s1[i].0 == s2[i].0,
    ensures
        name_position(s1, name) == name_position(s2, name),
    decreases s1.len(),
{
    if s1.len() > 0 {
        assert(s1.last().0 == s2.last().0);
        lemma_name_position_same_names(s1.drop_last(), s2.drop_last(), name);
    }
}

/// Adding `n` memes for a channel name raises its count by `n` and leaves
/// the counts of all other names as they were.
pub proof fn lemma_counts_added(
    s: Seq<(Seq<char>, usize)>,
    name: Seq<char>,
    n: usize,
    other: Seq<char>,
)
    requires
        count_of(s, name) + n <= usize::MAX,
    ensures
        count_of(counts_added(s, name, n), name) == count_of(s, name) + n,
        other != name ==> count_of(counts_added(s, name, n), other) == count_of(s, other),
{
    lemma_name_position_bounds(s, name);
    lemma_name_position_bounds(s, other);
    let s2 = counts_added(s, name, n);
    match name_position(s, name) {
        Some(i) => {
            lemma_name_position_same_names(s2, s, name);
            lemma_name_position_same_names(s2, s, other);
            if other != name {
                lemma_name_position_bounds(s, other);
            }
        },
        None => {
            assert(s2.drop_last() =~= s);
        },
    }
}

/// Escaping works character by character: the escape of two texts put
/// together is the two escapes put together.
pub proof fn lemma_escape_markdown_concat(a: Seq<char>, b: Seq<char>)
    ensures
        escape_markdown_text(a + b) == escape_markdown_text(a) + escape_markdown_text(b),
    decreases b.len(),
{
    if b.len() == 0 {
        assert(a + b =~= a);
        assert(escape_markdown_text(a) + escape_markdown_text(b) =~= escape_markdown_text(a));
    } else {
        lemma_escape_markdown_concat(a, b.drop_last());
        assert((a + b).drop_last() =~= a + b.drop_last());
        assert((a + b).last() == b.last());
        assert(escape_markdown_text(a + b) =~= escape_markdown_text(a) + escape_markdown_text(b));
    }
}

/// One character is escaped by a backslash before it when it is `_`, `*`,
/// `` ` `` or `~` (which Markdown would read as formatting), and kept as it
/// is otherwise. With [`lemma_escape_markdown_concat`], every occurrence of
/// these characters in a channel name is escaped.
pub proof fn lemma_escape_markdown_char(c: char)
    ensures
        (c == '_' || c == '*' || c == '`' || c == '~') ==> escape_markdown_text(seq![c]) == seq![
            '\\',
            c,
        ],
        !(c == '_' || c == '*' || c == '`' || c == '~') ==> escape_markdown_text(seq![c]) == seq![
            c,
        ],
{
    let s = seq![c];
    assert(s.drop_last() =~= Seq::<char>::empty());
    assert(escape_markdown_text(Seq::<char>::empty()) =~= Seq::<char>::empty());
    assert(escape_markdown_text(s) =~= escape_markdown_text(s.drop_last()) + escaped_char(c));
}

/// The escape of a text is as long as the text and its escaped characters
/// together: one backslash is added per `_`, `*`, `` ` `` or `~`.
pub proof fn lemma_escape_markdown_len(s: Seq<char>)
    ensures
        escape_markdown_text(s).len() == s.len() + s.filter(
            |c: char| c == '_' || c == '*' || c == '`' || c == '~',
        ).len(),
    decreases s.len(),
{
    reveal(Seq::filter);
    if s.len() > 0 {
        lemma_escape_markdown_len(s.drop_last());
    }
}

} // verus!
