//! The meme index: for every guild and channel, the memes found so far and how
//! far the channel has been indexed; and the flat list of all memes that a
//! random meme is drawn from.
//!
//! Guilds and channels are kept in the order in which they were first seen;
//! looking one up finds its last entry.
use vstd::prelude::*;
use crate::meme::GreedMeme;
use rand::Rng;

verus! {

/// How far a channel has been indexed.
#[derive(Debug, Clone, Copy, PartialEq, Eq, Structural)]
pub enum ChannelStatus {
    NotIndexed,
    Indexing,
    Indexed,
}

impl Default for ChannelStatus {
    fn default() -> (r: Self)
        ensures
            r == ChannelStatus::NotIndexed,
    {
        ChannelStatus::NotIndexed
    }
}

/// The indexing state of a channel: its status and the newest message that
/// the last complete indexing run saw.
#[derive(Debug, Clone, Copy, PartialEq, Eq, Structural)]
pub struct ChannelState {
    pub current_message: Option<u64>,
    pub status: ChannelStatus,
}

/// The state of a channel that was never indexed.
pub open spec fn default_state() -> ChannelState {
    ChannelState { current_message: None, status: ChannelStatus::NotIndexed }
}

impl Default for ChannelState {
    fn default() -> (r: Self)
        ensures
            r == default_state(),
    {
        ChannelState { current_message: None, status: ChannelStatus::NotIndexed }
    }
}

/// The memes of a channel and its indexing state.
#[derive(Debug)]
pub struct ChannelIndex {
    pub memes: Vec<GreedMeme>,
    pub state: ChannelState,
}

/// What a channel's index holds.
pub struct ChannelView {
    pub memes: Seq<GreedMeme>,
    pub state: ChannelState,
}

impl View for ChannelIndex {
    type V = ChannelView;

    open spec fn view(&self) -> ChannelView {
        ChannelView { memes: self.memes@, state: self.state }
    }
}

/// The index of a channel that was never indexed.
pub open spec fn default_channel() -> ChannelView {
    ChannelView { memes: Seq::empty(), state: default_state() }
}

impl Default for ChannelIndex {
    fn default() -> (r: Self)
        ensures
            r@ == default_channel(),
    {
        ChannelIndex { memes: Vec::new(), state: ChannelState::default() }
    }
}

/// A meme together with the guild and the channel it was found in.
#[derive(Debug)]
pub struct IndexedMeme(pub u64, pub u64, pub GreedMeme);

impl Clone for IndexedMeme {
    fn clone(&self) -> (r: Self)
        ensures
            r == *self,
    {
        IndexedMeme(self.0, self.1, self.2.clone())
    }
}

impl IndexedMeme {
    pub fn guild_id(&self) -> (r: u64)
        ensures
            r == self.0,
    {
        self.0
    }

    pub fn channel_id(&self) -> (r: u64)
        ensures
            r == self.1,
    {
        self.1
    }

    pub fn message_id(&self) -> (r: u64)
        ensures
            r == self.2.message_id,
    {
        self.2.message_id
    }

    pub fn meme(&self) -> (r: &GreedMeme)
        ensures
            *r == self.2,
    {
        &self.2
    }
}

/// A channel of a guild in the index.
#[derive(Debug)]
pub struct ChannelEntry {
    pub channel_id: u64,
    pub index: ChannelIndex,
}

impl View for ChannelEntry {
    type V = (u64, ChannelView);

    open spec fn view(&self) -> (u64, ChannelView) {
        (self.channel_id, self.index@)
    }
}

/// A guild in the index, with its channels.
#[derive(Debug)]
pub struct GuildEntry {
    pub guild_id: u64,
    pub channels: Vec<ChannelEntry>,
}

/// The channels of a guild, in the order they were first seen.
pub type ChannelsView = Seq<(u64, ChannelView)>;

/// The guilds of an index, in the order they were first seen.
pub type GuildsView = Seq<(u64, ChannelsView)>;

pub open spec fn channels_view(channels: Seq<ChannelEntry>) -> ChannelsView {
    channels.map_values(|e: ChannelEntry| e@)
}

impl View for GuildEntry {
    type V = (u64, ChannelsView);

    open spec fn view(&self) -> (u64, ChannelsView) {
        (self.guild_id, channels_view(self.channels@))
    }
}

pub open spec fn guilds_view(guilds: Seq<GuildEntry>) -> GuildsView {
    guilds.map_values(|e: GuildEntry| e@)
}

/// A point in time: seconds and nanoseconds since the Unix epoch, in UTC.
#[derive(Debug, Clone, Copy, PartialEq, Eq, Structural)]
pub struct Timestamp {
    pub secs: i64,
    pub nanos: u32,
}

/// The position of the last entry with key `k`.
pub open spec fn key_position<V>(s: Seq<(u64, V)>, k: u64) -> Option<int>
    decreases s.len(),
{
    if s.len() == 0 {
        None
    } else if s.last().0 == k {
        Some(s.len() - 1)
    } else {
        key_position(s.drop_last(), k)
    }
}

/// The index of channel `c` of guild `g`, if the index holds it.
pub open spec fn channel_lookup(gs: GuildsView, g: u64, c: u64) -> Option<ChannelView> {
    match key_position(gs, g) {
        Some(i) => match key_position(gs[i].1, c) {
            Some(j) => Some(gs[i].1[j].1),
            None => None,
        },
        None => None,
    }
}

/// A change to the index of one channel.
pub enum ChannelUpdate {
    /// New memes found in the channel, appended after the known ones.
    AddMemes(Vec<GreedMeme>),
    /// A new indexing status.
    SetStatus(ChannelStatus),
    /// Indexing finished; the newest message seen is recorded.
    Finish(Option<u64>),
    /// The whole channel index is replaced (when the index is loaded).
    Replace(ChannelIndex),
}

/// A change to the index of one channel, as the contracts see it.
pub enum ChannelChange {
    AddMemes(Seq<GreedMeme>),
    SetStatus(ChannelStatus),
    Finish(Option<u64>),
    Replace(ChannelView),
}

impl View for ChannelUpdate {
    type V = ChannelChange;

    open spec fn view(&self) -> ChannelChange {
        match self {
            ChannelUpdate::AddMemes(memes) => ChannelChange::AddMemes(memes@),
            ChannelUpdate::SetStatus(status) => ChannelChange::SetStatus(*status),
            ChannelUpdate::Finish(newest) => ChannelChange::Finish(*newest),
            ChannelUpdate::Replace(ci) => ChannelChange::Replace(ci@),
        }
    }
}

/// What a channel's index becomes under a change.
pub open spec fn updated_channel(cv: ChannelView, u: ChannelChange) -> ChannelView {
    match u {
        ChannelChange::AddMemes(memes) => ChannelView { memes: cv.memes + memes, state: cv.state },
        ChannelChange::SetStatus(status) => ChannelView {
            memes: cv.memes,
            state: ChannelState { current_message: cv.state.current_message, status },
        },
        ChannelChange::Finish(newest) => ChannelView {
            memes: cv.memes,
            state: ChannelState { current_message: newest, status: ChannelStatus::Indexed },
        },
        ChannelChange::Replace(ci) => ci,
    }
}

/// The channels of a guild after updating channel `c`, which is appended
/// (starting from a never-indexed channel) when the guild does not hold it.
pub open spec fn updated_channels(cs: ChannelsView, c: u64, u: ChannelChange) -> ChannelsView {
    match key_position(cs, c) {
        Some(j) => cs.update(j, (c, updated_channel(cs[j].1, u))),
        None => cs.push((c, updated_channel(default_channel(), u))),
    }
}

/// The guilds after updating channel `c` of guild `g`; the guild is appended
/// when the index does not hold it.
pub open spec fn updated_guilds(gs: GuildsView, g: u64, c: u64, u: ChannelChange) -> GuildsView {
    match key_position(gs, g) {
        Some(i) => gs.update(i, (g, updated_channels(gs[i].1, c, u))),
        None => gs.push((g, updated_channels(Seq::empty(), c, u))),
    }
}

/// The memes of one channel, tagged with their guild and channel.
pub open spec fn tagged_memes(g: u64, c: u64, memes: Seq<GreedMeme>) -> Seq<IndexedMeme> {
    memes.map_values(|m: GreedMeme| IndexedMeme(g, c, m))
}

/// All memes of the channels of guild `g`, channel after channel.
pub open spec fn channels_memes(g: u64, cs: ChannelsView) -> Seq<IndexedMeme>
    decreases cs.len(),
{
    if cs.len() == 0 {
        Seq::empty()
    } else {
        channels_memes(g, cs.drop_last()) + tagged_memes(g, cs.last().0, cs.last().1.memes)
    }
}

/// All memes of the index, guild after guild.
pub open spec fn all_memes_of(gs: GuildsView) -> Seq<IndexedMeme>
    decreases gs.len(),
{
    if gs.len() == 0 {
        Seq::empty()
    } else {
        all_memes_of(gs.drop_last()) + channels_memes(gs.last().0, gs.last().1)
    }
}

/// The state of every channel, guild after guild, channel after channel.
pub open spec fn channel_states_of(gs: GuildsView) -> Seq<(u64, ChannelState)>
    decreases gs.len(),
{
    if gs.len() == 0 {
        Seq::empty()
    } else {
        channel_states_of(gs.drop_last()) + gs.last().1.map_values(
            |e: (u64, ChannelView)| (e.0, e.1.state),
        )
    }
}

/// A draw from `0..n` (`Rng::gen_range` of rand on the thread-local
/// generator). The contract claims only that the draw lies in the range; which
/// value comes out is chance.
#[verifier::external_body]
fn random_below(n: usize) -> (r: usize)
    requires
        n > 0,
    ensures
        r < n,
{
    rand::thread_rng().gen_range(0..n)
}

/// The channel states taken when a refresh starts.
#[derive(Debug)]
pub struct ChannelStates {
    entries: Vec<(u64, ChannelState)>,
}

impl View for ChannelStates {
    type V = Seq<(u64, ChannelState)>;

    closed spec fn view(&self) -> Seq<(u64, ChannelState)> {
        self.entries@
    }
}

/// The state of channel `c` among `states`: its last entry, or the state of a
/// never-indexed channel.
pub open spec fn state_lookup(states: Seq<(u64, ChannelState)>, c: u64) -> ChannelState {
    match key_position(states, c) {
        Some(i) => states[i].1,
        None => default_state(),
    }
}

impl ChannelStates {
    /// The state of channel `c`; see [`state_lookup`].
    pub fn get_or_default(&self, c: u64) -> (r: ChannelState)
        ensures
            r == state_lookup(self@, c),
    {
        let mut i = self.entries.len();
        assert(self.entries@.take(i as int) =~= self.entries@);
        while i > 0
            invariant
                i <= self.entries@.len(),
                key_position(self.entries@, c) == key_position(self.entries@.take(i as int), c),
            decreases i,
        {
            assert(self.entries@.take(i as int).drop_last() =~= self.entries@.take(i - 1));
            if self.entries[i - 1].0 == c {
                return self.entries[i - 1].1;
            }
            i = i - 1;
        }
        ChannelState::default()
    }
}

/// The meme index.
#[derive(Debug)]
pub struct Index {
    index: Vec<GuildEntry>,
    last_index: Option<Timestamp>,
    all_memes: Vec<IndexedMeme>,
}

fn guild_position(gs: &Vec<GuildEntry>, g: u64) -> (r: Option<usize>)
    ensures
        match r {
            Some(i) => key_position(guilds_view(gs@), g) == Some(i as int),
            None => key_position(guilds_view(gs@), g) is None,
        },
{
    let ghost s = guilds_view(gs@);
    let mut i = gs.len();
    assert(s.take(i as int) =~= s);
    while i > 0
        invariant
            i <= gs@.len(),
            s == guilds_view(gs@),
            key_position(s, g) == key_position(s.take(i as int), g),
        decreases i,
    {
        assert(s.take(i as int).drop_last() =~= s.take(i - 1));
        if gs[i - 1].guild_id == g {
            return Some(i - 1);
        }
        i = i - 1;
    }
    None
}

fn channel_position(cs: &Vec<ChannelEntry>, c: u64) -> (r: Option<usize>)
    ensures
        match r {
            Some(j) => key_position(channels_view(cs@), c) == Some(j as int),
            None => key_position(channels_view(cs@), c) is None,
        },
{
    let ghost s = channels_view(cs@);
    let mut i = cs.len();
    assert(s.take(i as int) =~= s);
    while i > 0
        invariant
            i <= cs@.len(),
            s == channels_view(cs@),
            key_position(s, c) == key_position(s.take(i as int), c),
        decreases i,
    {
        assert(s.take(i as int).drop_last() =~= s.take(i - 1));
        if cs[i - 1].channel_id == c {
            return Some(i - 1);
        }
        i = i - 1;
    }
    None
}

proof fn lemma_key_position_bounds<V>(s: Seq<(u64, V)>, k: u64)
    ensures
        key_position(s, k) matches Some(i) ==> 0 <= i < s.len() && s[i].0 == k,
        key_position(s, k) is None ==> forall|i: int| 0 <= i < s.len() ==> #[trigger] s[i].0 != k,
    decreases s.len(),
{
    if s.len() > 0 && s.last().0 != k {
        lemma_key_position_bounds(s.drop_last(), k);
        if key_position(s, k) is None {
            assert forall|i: int| 0 <= i < s.len() implies #[trigger] s[i].0 != k by {
                if i < s.len() - 1 {
                    assert(s[i] == s.drop_last()[i]);
                }
            }
        }
    }
}

fn apply_update(ci: &mut ChannelIndex, u: ChannelUpdate)
    ensures
        final(ci)@ == updated_channel(old(ci)@, u@),
{
    match u {
        ChannelUpdate::AddMemes(memes) => {
            let mut memes = memes;
            ci.memes.append(&mut memes);
        },
        ChannelUpdate::SetStatus(status) => {
            ci.state.status = status;
        },
        ChannelUpdate::Finish(newest) => {
            ci.state.current_message = newest;
            ci.state.status = ChannelStatus::Indexed;
        },
        ChannelUpdate::Replace(new_index) => {
            *ci = new_index;
        },
    }
}

fn update_in_guild(guild: &mut GuildEntry, c: u64, u: ChannelUpdate)
    ensures
        final(guild).guild_id == old(guild).guild_id,
        final(guild)@.1 == updated_channels(old(guild)@.1, c, u@),
{
    let ghost old_cs = channels_view(guild.channels@);
    match channel_position(&guild.channels, c) {
        Some(j) => {
            proof {
                lemma_key_position_bounds(old_cs, c);
            }
            let mut entry = guild.channels.remove(j);
            apply_update(&mut entry.index, u);
            guild.channels.insert(j, entry);
            assert(channels_view(guild.channels@) =~= old_cs.update(
                j as int,
                (c, updated_channel(old_cs[j as int].1, u@)),
            ));
        },
        None => {
            let mut index = ChannelIndex::default();
            apply_update(&mut index, u);
            guild.channels.push(ChannelEntry { channel_id: c, index });
            assert(channels_view(guild.channels@) =~= old_cs.push(
                (c, updated_channel(default_channel(), u@)),
            ));
        },
    }
}

impl Index {
    /// The guilds of the index, with their channels.
    pub closed spec fn guilds(&self) -> GuildsView {
        guilds_view(self.index@)
    }

    /// When the index was last refreshed.
    pub closed spec fn last_indexed(&self) -> Option<Timestamp> {
        self.last_index
    }

    /// The flat list of memes that random memes are drawn from.
    pub closed spec fn memes(&self) -> Seq<IndexedMeme> {
        self.all_memes@
    }

    /// An empty index that was never refreshed.
    pub fn new() -> (r: Index)
        ensures
            r.guilds() == Seq::<(u64, ChannelsView)>::empty(),
            r.last_indexed() is None,
            r.memes() == Seq::<IndexedMeme>::empty(),
            index_keys_distinct(r.guilds()),
    {
        let r = Index { index: Vec::new(), last_index: None, all_memes: Vec::new() };
        assert(r.guilds() =~= Seq::<(u64, ChannelsView)>::empty());
        r
    }

    /// The guilds of the index, with their channels.
    pub fn guild_entries(&self) -> (r: &Vec<GuildEntry>)
        ensures
            guilds_view(r@) == self.guilds(),
    {
        &self.index
    }

    /// Applies `u` to channel `c` of guild `g`, creating the guild and the
    /// channel when the index does not hold them yet.
    pub fn update_channel(&mut self, g: u64, c: u64, u: ChannelUpdate)
        ensures
            final(self).guilds() == updated_guilds(old(self).guilds(), g, c, u@),
            final(self).last_indexed() == old(self).last_indexed(),
            final(self).memes() == old(self).memes(),
            index_keys_distinct(old(self).guilds()) ==> index_keys_distinct(final(self).guilds()),
    {
        let ghost old_gs = guilds_view(self.index@);
        proof {
            if index_keys_distinct(old_gs) {
                lemma_update_keeps_keys_distinct(old_gs, g, c, u@);
            }
        }
        match guild_position(&self.index, g) {
            Some(i) => {
                proof {
                    lemma_key_position_bounds(old_gs, g);
                }
                let mut guild = self.index.remove(i);
                update_in_guild(&mut guild, c, u);
                self.index.insert(i, guild);
                assert(guilds_view(self.index@) =~= old_gs.update(
                    i as int,
                    (g, updated_channels(old_gs[i as int].1, c, u@)),
                ));
            },
            None => {
                let mut guild = GuildEntry { guild_id: g, channels: Vec::new() };
                assert(guild@.1 =~= Seq::<(u64, ChannelView)>::empty());
                update_in_guild(&mut guild, c, u);
                self.index.push(guild);
                assert(guilds_view(self.index@) =~= old_gs.push(
                    (g, updated_channels(Seq::empty(), c, u@)),
                ));
            },
        }
    }

    /// Adds memes found in channel `c` of guild `g` after the ones already
    /// known, creating the guild and channel when needed; returns how many
    /// memes were added.
    pub fn add_memes(&mut self, g: u64, c: u64, memes: Vec<GreedMeme>) -> (r: usize)
        ensures
            r == memes@.len(),
            final(self).guilds() == updated_guilds(
                old(self).guilds(),
                g,
                c,
                ChannelChange::AddMemes(memes@),
            ),
            final(self).last_indexed() == old(self).last_indexed(),
            final(self).memes() == old(self).memes(),
            index_keys_distinct(old(self).guilds()) ==> index_keys_distinct(final(self).guilds()),
    {
        let n = memes.len();
        self.update_channel(g, c, ChannelUpdate::AddMemes(memes));
        n
    }

    /// Rebuilds the flat list of memes from the channels: every meme of every
    /// channel, tagged with its guild and channel, guild after guild and
    /// channel after channel.
    pub fn rebuild_memory_index(&mut self)
        ensures
            final(self).memes() == all_memes_of(old(self).guilds()),
            final(self).guilds() == old(self).guilds(),
            final(self).last_indexed() == old(self).last_indexed(),
    {
        let ghost gs = guilds_view(self.index@);
        let mut all_memes: Vec<IndexedMeme> = Vec::new();
        let mut i: usize = 0;
        while i < self.index.len()
            invariant
                gs == guilds_view(self.index@),
                i <= self.index@.len(),
                all_memes@ == all_memes_of(gs.take(i as int)),
            decreases self.index@.len() - i,
        {
            let guild = &self.index[i];
            let g = guild.guild_id;
            let ghost cs = channels_view(guild.channels@);
            assert(gs[i as int] == (g, cs));
            let ghost before = all_memes@;
            let mut j: usize = 0;
            assert(cs.take(0) =~= Seq::<(u64, ChannelView)>::empty());
            assert(all_memes@ =~= before + channels_memes(g, cs.take(0)));
            while j < guild.channels.len()
                invariant
                    cs == channels_view(guild.channels@),
                    j <= guild.channels@.len(),
                    all_memes@ == before + channels_memes(g, cs.take(j as int)),
                decreases guild.channels@.len() - j,
            {
                let entry = &guild.channels[j];
                let c = entry.channel_id;
                assert(cs[j as int] == (c, entry.index@));
                let ghost mid = all_memes@;
                let mut k: usize = 0;
                while k < entry.index.memes.len()
                    invariant
                        j < guild.channels@.len(),
                        entry == guild.channels@[j as int],
                        k <= entry.index.memes@.len(),
                        all_memes@ == mid + tagged_memes(g, c, entry.index.memes@.take(k as int)),
                    decreases entry.index.memes@.len() - k,
                {
                    let meme = entry.index.memes[k].clone();
                    all_memes.push(IndexedMeme(g, c, meme));
                    assert(tagged_memes(g, c, entry.index.memes@.take(k + 1)) =~= tagged_memes(
                        g,
                        c,
                        entry.index.memes@.take(k as int),
                    ).push(IndexedMeme(g, c, entry.index.memes@[k as int])));
                    k = k + 1;
                }
                assert(entry.index.memes@.take(k as int) =~= entry.index.memes@);
                assert(cs.take(j + 1).drop_last() =~= cs.take(j as int));
                assert(all_memes@ =~= before + channels_memes(g, cs.take(j + 1)));
                j = j + 1;
            }
            assert(cs.take(j as int) =~= cs);
            assert(gs.take(i + 1).drop_last() =~= gs.take(i as int));
            assert(all_memes@ =~= all_memes_of(gs.take(i + 1)));
            i = i + 1;
        }
        assert(gs.take(i as int) =~= gs);
        self.all_memes = all_memes;
    }

    /// The meme at position `roll` of the flat list, if there is one.
    pub fn meme_for_roll(&self, roll: usize) -> (r: Option<&IndexedMeme>)
        ensures
            roll < self.memes().len() ==> r == Some(&self.memes()[roll as int]),
            roll >= self.memes().len() ==> r is None,
    {
        if roll < self.all_memes.len() {
            Some(&self.all_memes[roll])
        } else {
            None
        }
    }

    /// A random meme of the flat list, or `forced` when it is given (the
    /// meme that the test settings force); `None` when there is no meme.
    pub fn get_random_meme<'a>(&'a self, forced: Option<&'a IndexedMeme>) -> (r: Option<
        &'a IndexedMeme,
    >)
        ensures
            forced is Some ==> r == forced,
            forced is None ==> (r is None <==> self.memes().len() == 0),
            forced is None ==> (r matches Some(m) ==> exists|i: int|
                0 <= i < self.memes().len() && *m == #[trigger] self.memes()[i]),
    {
        if let Some(f) = forced {
            return Some(f);
        }
        if self.all_memes.len() == 0 {
            return None;
        }
        let roll = random_below(self.all_memes.len());
        let r = self.meme_for_roll(roll);
        assert(self.memes()[roll as int] == self.memes()[roll as int]);
        r
    }

    /// The state of every channel, guild after guild and channel after
    /// channel, as it is when a refresh starts.
    pub fn channel_states(&self) -> (r: ChannelStates)
        ensures
            r@ == channel_states_of(self.guilds()),
    {
        let ghost gs = guilds_view(self.index@);
        let mut entries: Vec<(u64, ChannelState)> = Vec::new();
        let mut i: usize = 0;
        while i < self.index.len()
            invariant
                gs == guilds_view(self.index@),
                i <= self.index@.len(),
                entries@ == channel_states_of(gs.take(i as int)),
            decreases self.index@.len() - i,
        {
            let guild = &self.index[i];
            let ghost cs = channels_view(guild.channels@);
            assert(gs[i as int].1 == cs);
            let ghost before = entries@;
            let mut j: usize = 0;
            while j < guild.channels.len()
                invariant
                    cs == channels_view(guild.channels@),
                    j <= guild.channels@.len(),
                    entries@ == before + cs.take(j as int).map_values(
                        |e: (u64, ChannelView)| (e.0, e.1.state),
                    ),
                decreases guild.channels@.len() - j,
            {
                let entry = &guild.channels[j];
                entries.push((entry.channel_id, entry.index.state));
                assert(cs.take(j + 1).map_values(|e: (u64, ChannelView)| (e.0, e.1.state))
                    =~= cs.take(j as int).map_values(|e: (u64, ChannelView)| (e.0, e.1.state)).push(
                    (entry.channel_id, entry.index.state),
                ));
                j = j + 1;
            }
            assert(cs.take(j as int) =~= cs);
            assert(gs.take(i + 1).drop_last() =~= gs.take(i as int));
            assert(entries@ =~= channel_states_of(gs.take(i + 1)));
            i = i + 1;
        }
        assert(gs.take(i as int) =~= gs);
        ChannelStates { entries }
    }

    /// Records when the index was refreshed.
    pub fn set_last_indexed(&mut self, at: Option<Timestamp>)
        ensures
            final(self).last_indexed() == at,
            final(self).guilds() == old(self).guilds(),
            final(self).memes() == old(self).memes(),
    {
        self.last_index = at;
    }

    /// When the index was last refreshed.
    pub fn get_last_indexed(&self) -> (r: &Option<Timestamp>)
        ensures
            *r == self.last_indexed(),
    {
        &self.last_index
    }

    /// The number of memes that random memes are drawn from.
    pub fn get_meme_count(&self) -> (r: usize)
        ensures
            r == self.memes().len(),
    {
        self.all_memes.len()
    }
}

/// Two sequences with the same keys at the same positions find a key at the
/// same position.
proof fn lemma_key_position_same_keys<V, W>(s1: Seq<(u64, V)>, s2: Seq<(u64, W)>, k: u64)
    requires
        s1.len() == s2.len(),
        forall|i: int| 0 <= i < s1.len() ==> #[trigger] s1[i].0 == s2[i].0,
    ensures
        key_position(s1, k) == key_position(s2, k),
    decreases s1.len(),
{
    if s1.len() > 0 {
        assert(s1.last().0 == s2.last().0);
        lemma_key_position_same_keys(s1.drop_last(), s2.drop_last(), k);
    }
}

proof fn lemma_key_position_push<V>(s: Seq<(u64, V)>, e: (u64, V), k: u64)
    ensures
        key_position(s.push(e), k) == (if e.0 == k {
            Some(s.len() as int)
        } else {
            key_position(s, k)
        }),
{
    assert(s.push(e).drop_last() =~= s);
}

proof fn lemma_key_position_update<V>(s: Seq<(u64, V)>, i: int, v: V, k: u64)
    requires
        0 <= i < s.len(),
    ensures
        key_position(s.update(i, (s[i].0, v)), k) == key_position(s, k),
{
    lemma_key_position_same_keys(s.update(i, (s[i].0, v)), s, k);
}

/// The channel that `c` finds among the channels of a guild after `c` was
/// updated: `c` itself is updated (from a never-indexed channel when the
/// guild did not hold it), every other channel is unchanged.
proof fn lemma_updated_channels_lookup(cs: ChannelsView, c: u64, u: ChannelChange, c2: u64)
    ensures
        ({
            let cs2 = updated_channels(cs, c, u);
            match key_position(cs2, c2) {
                Some(j2) => if c2 == c {
                    cs2[j2].1 == updated_channel(
                        match key_position(cs, c) {
                            Some(j) => cs[j].1,
                            None => default_channel(),
                        },
                        u,
                    )
                } else {
                    key_position(cs, c2) == Some(j2) && cs2[j2].1 == cs[j2].1
                },
                None => c2 != c && key_position(cs, c2) is None,
            }
        }),
{
    lemma_key_position_bounds(cs, c);
    lemma_key_position_bounds(cs, c2);
    match key_position(cs, c) {
        Some(j) => {
            lemma_key_position_update(cs, j, updated_channel(cs[j].1, u), c2);
            assert(cs[j].0 == c);
        },
        None => {
            lemma_key_position_push(cs, (c, updated_channel(default_channel(), u)), c2);
        },
    }
}

/// Updating channel `c` of guild `g` changes the index of that channel, and
/// of no other: a later lookup of `(g, c)` finds the update applied to what
/// the channel held (a never-indexed channel when the index did not hold
/// it), and every other guild and channel is found as before.
pub proof fn lemma_update_lookup(
    gs: GuildsView,
    g: u64,
    c: u64,
    u: ChannelChange,
    g2: u64,
    c2: u64,
)
    ensures
        channel_lookup(updated_guilds(gs, g, c, u), g2, c2) == (if g2 == g && c2 == c {
            Some(
                updated_channel(
                    match channel_lookup(gs, g, c) {
                        Some(cv) => cv,
                        None => default_channel(),
                    },
                    u,
                ),
            )
        } else {
            channel_lookup(gs, g2, c2)
        }),
{
    let gs2 = updated_guilds(gs, g, c, u);
    lemma_key_position_bounds(gs, g);
    lemma_key_position_bounds(gs, g2);
    match key_position(gs, g) {
        Some(i) => {
            assert(gs[i].0 == g);
            lemma_key_position_update(gs, i, updated_channels(gs[i].1, c, u), g2);
            lemma_updated_channels_lookup(gs[i].1, c, u, c2);
            if g2 != g {
                lemma_key_position_bounds(gs, g2);
            }
        },
        None => {
            lemma_key_position_push(gs, (g, updated_channels(Seq::empty(), c, u)), g2);
            lemma_updated_channels_lookup(Seq::empty(), c, u, c2);
        },
    }
}

/// After an indexing run ends with the newest message `n`, the next refresh
/// indexes the channel forwards from `n`.
pub proof fn lemma_finished_channel_continues_forwards(gs: GuildsView, g: u64, c: u64, n: u64)
    ensures
        channel_lookup(updated_guilds(gs, g, c, ChannelChange::Finish(Some(n))), g, c) matches Some(
            cv,
        ) && cv.state == (ChannelState {
            current_message: Some(n),
            status: ChannelStatus::Indexed,
        }) && crate::refresh::mode_for_state(cv.state) == Some(
            crate::refresh::IndexMode::Forwards(n),
        ),
{
    lemma_update_lookup(gs, g, c, ChannelChange::Finish(Some(n)), g, c);
}

/// A meme of the index: meme `k` of channel `j` of guild `i`, tagged with
/// the guild's and the channel's ids.
pub open spec fn is_meme_at(gs: GuildsView, x: IndexedMeme, i: int, j: int, k: int) -> bool {
    &&& 0 <= i < gs.len()
    &&& 0 <= j < gs[i].1.len()
    &&& 0 <= k < gs[i].1[j].1.memes.len()
    &&& x == IndexedMeme(gs[i].0, gs[i].1[j].0, gs[i].1[j].1.memes[k])
}

proof fn lemma_channels_memes_members(g: u64, cs: ChannelsView)
    ensures
        forall|x: IndexedMeme|
            #[trigger] channels_memes(g, cs).contains(x) <==> exists|j: int, k: int|
                0 <= j < cs.len() && 0 <= k < cs[j].1.memes.len() && x == IndexedMeme(
                    g,
                    cs[j].0,
                    cs[j].1.memes[k],
                ),
    decreases cs.len(),
{
    if cs.len() > 0 {
        let init = cs.drop_last();
        lemma_channels_memes_members(g, init);
        let last = cs.last();
        let t = tagged_memes(g, last.0, last.1.memes);
        let all = channels_memes(g, cs);
        assert(all == channels_memes(g, init) + t);
        assert forall|x: IndexedMeme| #[trigger] all.contains(x) implies exists|j: int, k: int|
            0 <= j < cs.len() && 0 <= k < cs[j].1.memes.len() && x == IndexedMeme(
                g,
                cs[j].0,
                cs[j].1.memes[k],
            ) by {
            let p = choose|p: int| 0 <= p < all.len() && all[p] == x;
            let n = channels_memes(g, init).len();
            if p < n {
                assert(channels_memes(g, init)[p] == x);
                assert(channels_memes(g, init).contains(x));
                let (j, k) = choose|j: int, k: int|
                    0 <= j < init.len() && 0 <= k < init[j].1.memes.len() && x == IndexedMeme(
                        g,
                        init[j].0,
                        init[j].1.memes[k],
                    );
                assert(init[j] == cs[j]);
            } else {
                assert(t[p - n] == x);
                assert(x == IndexedMeme(g, cs[cs.len() - 1].0, cs[cs.len() - 1].1.memes[p - n]));
            }
        }
        assert forall|x: IndexedMeme|
            (exists|j: int, k: int|
                0 <= j < cs.len() && 0 <= k < cs[j].1.memes.len() && x == IndexedMeme(
                    g,
                    cs[j].0,
                    cs[j].1.memes[k],
                )) implies #[trigger] all.contains(x) by {
            let (j, k) = choose|j: int, k: int|
                0 <= j < cs.len() && 0 <= k < cs[j].1.memes.len() && x == IndexedMeme(
                    g,
                    cs[j].0,
                    cs[j].1.memes[k],
                );
            let n = channels_memes(g, init).len();
            if j < cs.len() - 1 {
                assert(init[j] == cs[j]);
                assert(channels_memes(g, init).contains(x));
                let p = choose|p: int|
                    0 <= p < channels_memes(g, init).len() && channels_memes(g, init)[p] == x;
                assert(all[p] == x);
            } else {
                assert(t[k] == x);
                assert(all[n + k] == x);
            }
        }
    }
}

/// The memes that random memes are drawn from, once rebuilt, are exactly the
/// memes of all channels, each tagged with its guild and channel.
pub proof fn lemma_all_memes_members(gs: GuildsView)
    ensures
        forall|x: IndexedMeme|
            #[trigger] all_memes_of(gs).contains(x) <==> exists|i: int, j: int, k: int|
                is_meme_at(gs, x, i, j, k),
    decreases gs.len(),
{
    if gs.len() > 0 {
        let init = gs.drop_last();
        lemma_all_memes_members(init);
        let last = gs.last();
        lemma_channels_memes_members(last.0, last.1);
        let c = channels_memes(last.0, last.1);
        let all = all_memes_of(gs);
        assert(all == all_memes_of(init) + c);
        let n = all_memes_of(init).len();
        assert forall|x: IndexedMeme| #[trigger] all.contains(x) implies exists|
            i: int,
            j: int,
            k: int,
        | is_meme_at(gs, x, i, j, k) by {
            let p = choose|p: int| 0 <= p < all.len() && all[p] == x;
            if p < n {
                assert(all_memes_of(init)[p] == x);
                assert(all_memes_of(init).contains(x));
                let (i, j, k) = choose|i: int, j: int, k: int| is_meme_at(init, x, i, j, k);
                assert(init[i] == gs[i]);
                assert(is_meme_at(gs, x, i, j, k));
            } else {
                assert(c[p - n] == x);
                assert(c.contains(x));
                let (j, k) = choose|j: int, k: int|
                    0 <= j < last.1.len() && 0 <= k < last.1[j].1.memes.len() && x == IndexedMeme(
                        last.0,
                        last.1[j].0,
                        last.1[j].1.memes[k],
                    );
                assert(is_meme_at(gs, x, gs.len() - 1, j, k));
            }
        }
        assert forall|x: IndexedMeme|
            (exists|i: int, j: int, k: int| is_meme_at(gs, x, i, j, k)) implies #[trigger] all.contains(
            x,
        ) by {
            let (i, j, k) = choose|i: int, j: int, k: int| is_meme_at(gs, x, i, j, k);
            if i < gs.len() - 1 {
                assert(init[i] == gs[i]);
                assert(is_meme_at(init, x, i, j, k));
                assert(all_memes_of(init).contains(x));
                let p = choose|p: int| 0 <= p < all_memes_of(init).len() && all_memes_of(init)[p] == x;
                assert(all[p] == x);
            } else {
                assert(c.contains(x));
                let p = choose|p: int| 0 <= p < c.len() && c[p] == x;
                assert(all[n + p] == x);
            }
        }
    }
}

proof fn lemma_channels_memes_len_update(g: u64, cs: ChannelsView, j: int, e: (u64, ChannelView))
    requires
        0 <= j < cs.len(),
    ensures
        channels_memes(g, cs.update(j, e)).len() == channels_memes(g, cs).len() - cs[j].1.memes.len()
            + e.1.memes.len(),
    decreases cs.len(),
{
    let cs2 = cs.update(j, e);
    if j == cs.len() - 1 {
        assert(cs2.drop_last() =~= cs.drop_last());
    } else {
        assert(cs2.drop_last() =~= cs.drop_last().update(j, e));
        lemma_channels_memes_len_update(g, cs.drop_last(), j, e);
    }
}

proof fn lemma_all_memes_len_update(gs: GuildsView, i: int, e: (u64, ChannelsView))
    requires
        0 <= i < gs.len(),
        e.0 == gs[i].0,
    ensures
        all_memes_of(gs.update(i, e)).len() == all_memes_of(gs).len() - channels_memes(
            gs[i].0,
            gs[i].1,
        ).len() + channels_memes(e.0, e.1).len(),
    decreases gs.len(),
{
    let gs2 = gs.update(i, e);
    if i == gs.len() - 1 {
        assert(gs2.drop_last() =~= gs.drop_last());
    } else {
        assert(gs2.drop_last() =~= gs.drop_last().update(i, e));
        lemma_all_memes_len_update(gs.drop_last(), i, e);
    }
}

proof fn lemma_updated_channels_memes_len(g: u64, cs: ChannelsView, c: u64, ms: Seq<GreedMeme>)
    ensures
        channels_memes(g, updated_channels(cs, c, ChannelChange::AddMemes(ms))).len()
            == channels_memes(g, cs).len() + ms.len(),
{
    lemma_key_position_bounds(cs, c);
    match key_position(cs, c) {
        Some(j) => {
            lemma_channels_memes_len_update(
                g,
                cs,
                j,
                (c, updated_channel(cs[j].1, ChannelChange::AddMemes(ms))),
            );
        },
        None => {
            let e = (c, updated_channel(default_channel(), ChannelChange::AddMemes(ms)));
            assert(cs.push(e).drop_last() =~= cs);
        },
    }
}

/// Adding `ms` to a channel adds exactly `ms.len()` memes to the memes that
/// random memes are drawn from (once rebuilt): what a refresh reports as new
/// memes is what the pool grows by.
pub proof fn lemma_add_memes_grows_pool(gs: GuildsView, g: u64, c: u64, ms: Seq<GreedMeme>)
    ensures
        all_memes_of(updated_guilds(gs, g, c, ChannelChange::AddMemes(ms))).len() == all_memes_of(
            gs,
        ).len() + ms.len(),
{
    lemma_key_position_bounds(gs, g);
    match key_position(gs, g) {
        Some(i) => {
            lemma_updated_channels_memes_len(g, gs[i].1, c, ms);
            lemma_all_memes_len_update(
                gs,
                i,
                (g, updated_channels(gs[i].1, c, ChannelChange::AddMemes(ms))),
            );
        },
        None => {
            let e = (g, updated_channels(Seq::empty(), c, ChannelChange::AddMemes(ms)));
            assert(gs.push(e).drop_last() =~= gs);
            lemma_updated_channels_memes_len(g, Seq::empty(), c, ms);
        },
    }
}

/// No key occurs twice.
pub open spec fn keys_distinct<V>(s: Seq<(u64, V)>) -> bool {
    forall|i: int, j: int| 0 <= i < j < s.len() ==> #[trigger] s[i].0 != #[trigger] s[j].0
}

/// The index holds no guild twice, and no guild holds a channel twice.
pub open spec fn index_keys_distinct(gs: GuildsView) -> bool {
    &&& keys_distinct(gs)
    &&& forall|i: int| 0 <= i < gs.len() ==> keys_distinct(#[trigger] gs[i].1)
}

proof fn lemma_updated_channels_keys_distinct(cs: ChannelsView, c: u64, u: ChannelChange)
    requires
        keys_distinct(cs),
    ensures
        keys_distinct(updated_channels(cs, c, u)),
{
    lemma_key_position_bounds(cs, c);
    let cs2 = updated_channels(cs, c, u);
    assert forall|i: int, j: int| 0 <= i < j < cs2.len() implies #[trigger] cs2[i].0 != #[trigger] cs2[j].0 by {
        if j < cs.len() {
            assert(cs2[i].0 == cs[i].0 && cs2[j].0 == cs[j].0);
        }
    }
}

/// Updating a channel never makes the index hold a guild or a channel twice.
pub proof fn lemma_update_keeps_keys_distinct(gs: GuildsView, g: u64, c: u64, u: ChannelChange)
    requires
        index_keys_distinct(gs),
    ensures
        index_keys_distinct(updated_guilds(gs, g, c, u)),
{
    lemma_key_position_bounds(gs, g);
    let gs2 = updated_guilds(gs, g, c, u);
    match key_position(gs, g) {
        Some(i) => {
            lemma_updated_channels_keys_distinct(gs[i].1, c, u);
        },
        None => {
            lemma_updated_channels_keys_distinct(Seq::empty(), c, u);
        },
    }
    assert forall|i: int, j: int| 0 <= i < j < gs2.len() implies #[trigger] gs2[i].0 != #[trigger] gs2[j].0 by {
        if j < gs.len() {
            assert(gs2[i].0 == gs[i].0 && gs2[j].0 == gs[j].0);
        }
    }
    assert forall|i: int| 0 <= i < gs2.len() implies keys_distinct(#[trigger] gs2[i].1) by {
        if i < gs.len() && key_position(gs, g) != Some(i) {
            assert(gs2[i] == gs[i]);
        }
    }
}

proof fn lemma_key_position_concat<V>(a: Seq<(u64, V)>, b: Seq<(u64, V)>, k: u64)
    ensures
        key_position(a + b, k) == (match key_position(b, k) {
            Some(j) => Some(a.len() + j),
            None => key_position(a, k),
        }),
    decreases b.len(),
{
    if b.len() == 0 {
        assert(a + b =~= a);
    } else {
        assert((a + b).drop_last() =~= a + b.drop_last());
        lemma_key_position_concat(a, b.drop_last(), k);
    }
}

/// Channel `c` is a channel of guild `g` only.
pub open spec fn channel_only_in(gs: GuildsView, g: u64, c: u64) -> bool {
    forall|i: int, j: int|
        0 <= i < gs.len() && 0 <= j < gs[i].1.len() && #[trigger] gs[i].1[j].0 == c ==> gs[i].0 == g
}

proof fn lemma_states_without_channel(gs: GuildsView, c: u64)
    requires
        forall|i: int, j: int|
            0 <= i < gs.len() && 0 <= j < gs[i].1.len() ==> #[trigger] gs[i].1[j].0 != c,
    ensures
        key_position(channel_states_of(gs), c) is None,
    decreases gs.len(),
{
    if gs.len() > 0 {
        let init = gs.drop_last();
        assert forall|i: int, j: int| 0 <= i < init.len() && 0 <= j < init[i].1.len() implies #[trigger] init[i].1[j].0 != c by {
            assert(init[i] == gs[i]);
        }
        lemma_states_without_channel(init, c);
        let last = gs.last();
        let m = last.1.map_values(|e: (u64, ChannelView)| (e.0, e.1.state));
        lemma_key_position_concat(channel_states_of(init), m, c);
        lemma_key_position_bounds(m, c);
        if key_position(m, c) is Some {
            let j = key_position(m, c)->0;
            assert(gs[gs.len() - 1].1[j].0 == c);
        }
    }
}

/// The state that a refresh sees for channel `c` is the state stored for `c`
/// in its guild `g`, when `c` belongs to no other guild and the index holds
/// no guild or channel twice (as updating channels keeps it): a refresh
/// resumes every channel from where its last indexing run stopped.
pub proof fn lemma_refresh_sees_stored_state(gs: GuildsView, g: u64, c: u64)
    requires
        index_keys_distinct(gs),
        channel_only_in(gs, g, c),
    ensures
        state_lookup(channel_states_of(gs), c) == (match channel_lookup(gs, g, c) {
            Some(cv) => cv.state,
            None => default_state(),
        }),
    decreases gs.len(),
{
    if gs.len() == 0 {
        return;
    }
    let init = gs.drop_last();
    let last = gs.last();
    let m = last.1.map_values(|e: (u64, ChannelView)| (e.0, e.1.state));
    assert(channel_states_of(gs) == channel_states_of(init) + m);
    lemma_key_position_concat(channel_states_of(init), m, c);
    lemma_key_position_same_keys(m, last.1, c);
    lemma_key_position_bounds(last.1, c);
    lemma_key_position_bounds(gs, g);
    assert(index_keys_distinct(init)) by {
        assert forall|i: int| 0 <= i < init.len() implies keys_distinct(#[trigger] init[i].1) by {
            assert(init[i] == gs[i]);
        }
    }
    assert(channel_only_in(init, g, c)) by {
        assert forall|i: int, j: int|
            0 <= i < init.len() && 0 <= j < init[i].1.len() && #[trigger] init[i].1[j].0 == c implies init[i].0 == g by {
            assert(init[i] == gs[i]);
        }
    }
    let a = channel_states_of(init);
    if last.0 == g {
        assert(key_position(gs, g) == Some(gs.len() - 1));
        if key_position(last.1, c) is Some {
            let j = key_position(last.1, c)->0;
            assert(key_position(channel_states_of(gs), c) == Some(a.len() + j));
            assert(channel_states_of(gs)[a.len() + j] == m[j]);
            assert(m[j].1 == last.1[j].1.state);
        }
        if key_position(last.1, c) is None {
            assert forall|i: int, j: int| 0 <= i < init.len() && 0 <= j < init[i].1.len() implies #[trigger] init[i].1[j].0 != c by {
                assert(init[i] == gs[i]);
                if init[i].1[j].0 == c {
                    assert(gs[i].0 == g);
                    assert(gs[i].0 != gs[gs.len() - 1].0);
                }
            }
            lemma_states_without_channel(init, c);
        }
    } else {
        assert(init.push(last) =~= gs);
        lemma_key_position_push(init, last, g);
        if key_position(last.1, c) is Some {
            let j = key_position(last.1, c)->0;
            assert(gs[gs.len() - 1].1[j].0 == c);
        }
        lemma_refresh_sees_stored_state(init, g, c);
        assert(key_position(channel_states_of(gs), c) == key_position(a, c));
        if key_position(a, c) is Some {
            let p = key_position(a, c)->0;
            lemma_key_position_bounds(a, c);
            assert(channel_states_of(gs)[p] == a[p]);
        }
        if key_position(init, g) is Some {
            let i = key_position(init, g)->0;
            lemma_key_position_bounds(init, g);
            assert(init[i] == gs[i]);
        }
    }
}

} // verus!
