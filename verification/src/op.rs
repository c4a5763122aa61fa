//! The original post ("sauce") of a meme: the ids that the sauce button of a
//! reposted meme carries, and the links built from them.
use vstd::prelude::*;
use crate::decimal::{
    decimal_text, digit_of, lemma_decimal_text_digits, lemma_parse_decimal_text, parse_u64,
    parse_u64_spec, push_decimal,
};
use crate::text::{
    lemma_split_fields_head, lemma_split_fields_single, push_char, push_str, split_fields,
    split_text, string_of,
};

verus! {

/// The guild, channel and message ids of the message a meme was posted in.
#[derive(Debug)]
pub struct EncodedOP {
    guild_id: u64,
    channel_id: u64,
    message_id: u64,
}

impl View for EncodedOP {
    type V = (u64, u64, u64);

    closed spec fn view(&self) -> (u64, u64, u64) {
        (self.guild_id, self.channel_id, self.message_id)
    }
}

/// The prefix of every sauce button id.
pub open spec fn op_prefix() -> Seq<char> {
    seq!['o', 'p']
}

/// The ids that a sauce button id `s` carries: the second, third and fourth
/// `_`-separated fields, each a `u64` in decimal; the first field is skipped
/// and fields after the fourth are ignored.
pub open spec fn op_from_text(s: Seq<char>) -> Option<(u64, u64, u64)> {
    let f = split_fields(s, '_');
    if f.len() >= 4 {
        match (parse_u64_spec(f[1]), parse_u64_spec(f[2]), parse_u64_spec(f[3])) {
            (Some(g), Some(c), Some(m)) => Some((g, c, m)),
            _ => None,
        }
    } else {
        None
    }
}

/// The id of the sauce button of a meme: `op_<guild>_<channel>_<message>`.
pub open spec fn op_custom_id_text(guild_id: u64, channel_id: u64, message_id: u64) -> Seq<
    char,
> {
    op_prefix() + seq!['_'] + decimal_text(guild_id as nat) + seq!['_'] + decimal_text(
        channel_id as nat,
    ) + seq!['_'] + decimal_text(message_id as nat)
}

/// The web link to the channel `channel_id` of guild `guild_id`.
pub open spec fn channel_link_text(guild_id: u64, channel_id: u64) -> Seq<char> {
    "https://discord.com/channels/"@ + decimal_text(guild_id as nat) + "/"@ + decimal_text(
        channel_id as nat,
    )
}

/// The web link to a message.
pub open spec fn message_link_text(guild_id: u64, channel_id: u64, message_id: u64) -> Seq<char> {
    channel_link_text(guild_id, channel_id) + "/"@ + decimal_text(message_id as nat)
}

impl EncodedOP {
    /// The original post with the given ids.
    pub fn new(guild_id: u64, channel_id: u64, message_id: u64) -> (r: EncodedOP)
        ensures
            r@ == (guild_id, channel_id, message_id),
    {
        EncodedOP { guild_id, channel_id, message_id }
    }

    pub fn guild_id(&self) -> (r: u64)
        ensures
            r == self@.0,
    {
        self.guild_id
    }

    pub fn channel_id(&self) -> (r: u64)
        ensures
            r == self@.1,
    {
        self.channel_id
    }

    pub fn message_id(&self) -> (r: u64)
        ensures
            r == self@.2,
    {
        self.message_id
    }

    /// `https://discord.com/channels/<guild>/<channel>/<message>`
    pub fn message_link(&self) -> (r: String)
        ensures
            r@ == message_link_text(self@.0, self@.1, self@.2),
    {
        let mut r = self.channel_link();
        push_str(&mut r, "/");
        push_decimal(&mut r, self.message_id);
        r
    }

    /// `https://discord.com/channels/<guild>/<channel>`
    pub fn channel_link(&self) -> (r: String)
        ensures
            r@ == channel_link_text(self@.0, self@.1),
    {
        let mut r = string_of("https://discord.com/channels/");
        push_decimal(&mut r, self.guild_id);
        push_str(&mut r, "/");
        push_decimal(&mut r, self.channel_id);
        r
    }

    /// Reads the ids out of a sauce button id; see [`op_from_text`].
    pub fn from_str(s: &str) -> (r: Result<EncodedOP, ()>)
        ensures
            r is Err <==> op_from_text(s@) is None,
            r matches Ok(op) ==> op_from_text(s@) == Some(op@),
    {
        let fields = split_text(s, '_');
        if fields.len() < 4 {
            return Err(());
        }
        let guild_id = parse_u64(fields[1].as_str());
        let channel_id = parse_u64(fields[2].as_str());
        let message_id = parse_u64(fields[3].as_str());
        match (guild_id, channel_id, message_id) {
            (Some(guild_id), Some(channel_id), Some(message_id)) => Ok(
                EncodedOP { guild_id, channel_id, message_id },
            ),
            _ => Err(()),
        }
    }
}

/// What the bot does next while it answers a sauce button.
#[derive(Debug)]
pub enum SauceStep {
    /// Fetch the channel with this id.
    FetchChannel(u64),
    /// Fetch the message with this id from the fetched channel.
    FetchMessage(u64),
    /// Answer with the links to the message and to its channel.
    Respond { message_link: String, channel_link: String },
    /// Answer with [`sauce_error_text`] and log this text.
    Fail(String),
}

/// What fetching the channel of a sauce button gave.
#[derive(Debug)]
pub enum ChannelFetch {
    /// A channel of a guild.
    Guild,
    /// A channel that belongs to no guild.
    NotGuild,
    /// The fetch failed, for the reason given.
    Failed(String),
}

/// What fetching the message of a sauce button gave.
#[derive(Debug)]
pub enum MessageFetch {
    Found,
    /// The fetch failed, for the reason given.
    Failed(String),
}

/// What the user is told when the original post cannot be shown.
pub open spec fn sauce_error_text() -> Seq<char> {
    "Failed to retreive OP information"@
}

/// The answer to a sauce button when the original post cannot be shown; see
/// [`sauce_error_text`].
pub fn sauce_error() -> (r: String)
    ensures
        r@ == sauce_error_text(),
{
    string_of("Failed to retreive OP information")
}

/// The step fails, logging `text`.
pub open spec fn fails_with(step: SauceStep, text: Seq<char>) -> bool {
    step matches SauceStep::Fail(t) && t@ == text
}

impl EncodedOP {
    /// The first step of answering the sauce button: fetch the channel, or
    /// fail when its id is zero (a valid `u64`, but no channel id), logging
    /// the failed conversion to a non-zero id.
    pub fn sauce_start(&self) -> (r: SauceStep)
        ensures
            self@.1 == 0 ==> fails_with(
                r,
                "Encoded channel id was zero: out of range integral type conversion attempted"@,
            ),
            self@.1 != 0 ==> r == SauceStep::FetchChannel(self@.1),
    {
        if self.channel_id == 0 {
            SauceStep::Fail(
                string_of(
                    "Encoded channel id was zero: out of range integral type conversion attempted",
                ),
            )
        } else {
            SauceStep::FetchChannel(self.channel_id)
        }
    }

    /// The step after the channel was fetched: fetch the message from a
    /// guild channel (or fail when its id is zero), else fail with the
    /// reason.
    pub fn sauce_after_channel(&self, fetched: ChannelFetch) -> (r: SauceStep)
        ensures
            fetched matches ChannelFetch::Guild ==> (if self@.2 == 0 {
                fails_with(r, "Encoded message id was zero"@)
            } else {
                r == SauceStep::FetchMessage(self@.2)
            }),
            fetched matches ChannelFetch::NotGuild ==> fails_with(
                r,
                "Attempted to retreive OP information from a non guild channel"@,
            ),
            fetched matches ChannelFetch::Failed(err) ==> fails_with(
                r,
                "Failed to get channel for OP information: "@ + err@,
            ),
    {
        match fetched {
            ChannelFetch::Guild => {
                if self.message_id == 0 {
                    SauceStep::Fail(string_of("Encoded message id was zero"))
                } else {
                    SauceStep::FetchMessage(self.message_id)
                }
            },
            ChannelFetch::NotGuild => SauceStep::Fail(
                string_of("Attempted to retreive OP information from a non guild channel"),
            ),
            ChannelFetch::Failed(err) => {
                let mut t = string_of("Failed to get channel for OP information: ");
                push_str(&mut t, err.as_str());
                SauceStep::Fail(t)
            },
        }
    }

    /// The step after the message was fetched: answer with the links, or fail
    /// with the reason.
    pub fn sauce_after_message(&self, fetched: MessageFetch) -> (r: SauceStep)
        ensures
            fetched matches MessageFetch::Found ==> r matches SauceStep::Respond {
                message_link,
                channel_link,
            } && message_link@ == message_link_text(self@.0, self@.1, self@.2) && channel_link@
                == channel_link_text(self@.0, self@.1),
            fetched matches MessageFetch::Failed(err) ==> fails_with(
                r,
                "Failed to get message for OP information: "@ + err@,
            ),
    {
        match fetched {
            MessageFetch::Found => SauceStep::Respond {
                message_link: self.message_link(),
                channel_link: self.channel_link(),
            },
            MessageFetch::Failed(err) => {
                let mut t = string_of("Failed to get message for OP information: ");
                push_str(&mut t, err.as_str());
                SauceStep::Fail(t)
            },
        }
    }
}

/// The id of the sauce button of a meme; see [`op_custom_id_text`].
pub fn op_custom_id(guild_id: u64, channel_id: u64, message_id: u64) -> (r: String)
    ensures
        r@ == op_custom_id_text(guild_id, channel_id, message_id),
{
    let mut r = String::new();
    push_char(&mut r, 'o');
    push_char(&mut r, 'p');
    push_char(&mut r, '_');
    push_decimal(&mut r, guild_id);
    push_char(&mut r, '_');
    push_decimal(&mut r, channel_id);
    push_char(&mut r, '_');
    push_decimal(&mut r, message_id);
    assert(r@ =~= op_custom_id_text(guild_id, channel_id, message_id));
    r
}

proof fn lemma_decimal_text_no_underscore(n: nat)
    ensures
        !decimal_text(n).contains('_'),
{
    lemma_decimal_text_digits(n);
    let t = decimal_text(n);
    if t.contains('_') {
        let i = choose|i: int| 0 <= i < t.len() && t[i] == '_';
        assert(digit_of(t[i]) is Some);
    }
}

/// The ids written into a sauce button id are read back unchanged: the sauce
/// button of a meme leads to the message the meme was posted in.
pub proof fn lemma_op_custom_id_round_trip(guild_id: u64, channel_id: u64, message_id: u64)
    ensures
        op_from_text(op_custom_id_text(guild_id, channel_id, message_id)) == Some(
            (guild_id, channel_id, message_id),
        ),
{
    let g = decimal_text(guild_id as nat);
    let c = decimal_text(channel_id as nat);
    let m = decimal_text(message_id as nat);
    lemma_decimal_text_no_underscore(guild_id as nat);
    lemma_decimal_text_no_underscore(channel_id as nat);
    lemma_decimal_text_no_underscore(message_id as nat);
    lemma_parse_decimal_text(guild_id);
    lemma_parse_decimal_text(channel_id);
    lemma_parse_decimal_text(message_id);
    let sep = seq!['_'];
    let t3 = m;
    let t2 = c + sep + m;
    let t1 = g + sep + t2;
    let t0 = op_prefix() + sep + t1;
    assert(op_custom_id_text(guild_id, channel_id, message_id) =~= t0);
    assert(!op_prefix().contains('_')) by {
        if op_prefix().contains('_') {
            let i = choose|i: int| 0 <= i < op_prefix().len() && op_prefix()[i] == '_';
            assert(false);
        }
    }
    lemma_split_fields_single(t3, '_');
    lemma_split_fields_head(c, '_', t3);
    lemma_split_fields_head(g, '_', t2);
    lemma_split_fields_head(op_prefix(), '_', t1);
    let f = split_fields(t0, '_');
    assert(f =~= seq![op_prefix(), g, c, m]);
}

proof fn lemma_decimal_text_no_slash(n: nat)
    ensures
        !decimal_text(n).contains('/'),
{
    lemma_decimal_text_digits(n);
    let t = decimal_text(n);
    if t.contains('/') {
        let i = choose|i: int| 0 <= i < t.len() && t[i] == '/';
        assert(digit_of(t[i]) is Some);
    }
}

proof fn lemma_no_slash_literals()
    ensures
        !"https:"@.contains('/'),
        !"discord.com"@.contains('/'),
        !"channels"@.contains('/'),
{
    reveal_strlit("https:");
    reveal_strlit("discord.com");
    reveal_strlit("channels");
    let h0 = "https:"@;
    let h2 = "discord.com"@;
    let h3 = "channels"@;
    if h0.contains('/') {
        let i = choose|i: int| 0 <= i < h0.len() && h0[i] == '/';
        assert(false);
    }
    if h2.contains('/') {
        let i = choose|i: int| 0 <= i < h2.len() && h2[i] == '/';
        assert(false);
    }
    if h3.contains('/') {
        let i = choose|i: int| 0 <= i < h3.len() && h3[i] == '/';
        assert(false);
    }
}

/// The fields of a Discord channels link: the four of its prefix, then those
/// of what follows it.
proof fn lemma_split_channels_prefix(x: Seq<char>)
    ensures
        split_fields("https://discord.com/channels/"@ + x, '/') == seq![
            "https:"@,
            Seq::<char>::empty(),
            "discord.com"@,
            "channels"@,
        ] + split_fields(x, '/'),
{
    reveal_strlit("https://discord.com/channels/");
    reveal_strlit("https:");
    reveal_strlit("discord.com");
    reveal_strlit("channels");
    lemma_no_slash_literals();
    let sl = seq!['/'];
    let h0 = "https:"@;
    let h1 = Seq::<char>::empty();
    let h2 = "discord.com"@;
    let h3 = "channels"@;
    let x3 = h3 + sl + x;
    let x2 = h2 + sl + x3;
    let x1 = h1 + sl + x2;
    let x0 = h0 + sl + x1;
    assert("https://discord.com/channels/"@ + x =~= x0);
    lemma_split_fields_head(h3, '/', x);
    lemma_split_fields_head(h2, '/', x3);
    lemma_split_fields_head(h1, '/', x2);
    lemma_split_fields_head(h0, '/', x1);
    assert(split_fields(x0, '/') =~= seq![h0, h1, h2, h3] + split_fields(x, '/'));
}

/// The links to an original post lead to it: split at `/`, the message link
/// is `https:`, an empty field, `discord.com`, `channels`, then fields that
/// read back (as `u64`s in decimal) to exactly the guild, channel and message
/// ids, for every id; the channel link is the same without the message
/// field, and the message link is the channel link, `/` and that field.
pub proof fn lemma_links_lead_to_post(guild_id: u64, channel_id: u64, message_id: u64)
    ensures
        ({
            let f = split_fields(message_link_text(guild_id, channel_id, message_id), '/');
            &&& f.len() == 7
            &&& f[0] == "https:"@
            &&& f[1] == Seq::<char>::empty()
            &&& f[2] == "discord.com"@
            &&& f[3] == "channels"@
            &&& parse_u64_spec(f[4]) == Some(guild_id)
            &&& parse_u64_spec(f[5]) == Some(channel_id)
            &&& parse_u64_spec(f[6]) == Some(message_id)
        }),
        ({
            let f = split_fields(channel_link_text(guild_id, channel_id), '/');
            &&& f.len() == 6
            &&& f[0] == "https:"@
            &&& f[1] == Seq::<char>::empty()
            &&& f[2] == "discord.com"@
            &&& f[3] == "channels"@
            &&& parse_u64_spec(f[4]) == Some(guild_id)
            &&& parse_u64_spec(f[5]) == Some(channel_id)
        }),
        message_link_text(guild_id, channel_id, message_id) == channel_link_text(guild_id, channel_id)
            + seq!['/'] + split_fields(message_link_text(guild_id, channel_id, message_id), '/')[6],
{
    reveal_strlit("/");
    let g = decimal_text(guild_id as nat);
    let c = decimal_text(channel_id as nat);
    let m = decimal_text(message_id as nat);
    lemma_decimal_text_no_slash(guild_id as nat);
    lemma_decimal_text_no_slash(channel_id as nat);
    lemma_decimal_text_no_slash(message_id as nat);
    lemma_parse_decimal_text(guild_id);
    lemma_parse_decimal_text(channel_id);
    lemma_parse_decimal_text(message_id);
    let sl = seq!['/'];
    let pre = "https://discord.com/channels/"@;
    let mx = g + sl + (c + sl + m);
    let cx = g + sl + c;
    assert(message_link_text(guild_id, channel_id, message_id) =~= pre + mx);
    assert(channel_link_text(guild_id, channel_id) =~= pre + cx);
    lemma_split_channels_prefix(mx);
    lemma_split_channels_prefix(cx);
    lemma_split_fields_single(m, '/');
    lemma_split_fields_head(c, '/', m);
    lemma_split_fields_head(g, '/', c + sl + m);
    lemma_split_fields_single(c, '/');
    lemma_split_fields_head(g, '/', c);
    assert(split_fields(mx, '/') =~= seq![g, c, m]);
    assert(split_fields(cx, '/') =~= seq![g, c]);
    let fm = split_fields(pre + mx, '/');
    let fc = split_fields(pre + cx, '/');
    assert(fm[6] == m);
    assert(fc[4] == g && fc[5] == c);
    assert(fm[4] == g && fm[5] == c);
}

} // verus!
