//! The configuration of the bot, read from the values of its environment
//! variables.
use vstd::prelude::*;
use crate::decimal::{parse_nonzero_u64, parse_nonzero_u64_spec};
use crate::index::IndexedMeme;
use crate::meme::{GreedMeme, MemeType};
use crate::text::{push_str, split_fields, split_text, string_of};

verus! {

/// A segment of the `TEST_FORCE_MEME` setting.
#[derive(Debug, Clone, Copy, PartialEq, Eq, Structural)]
pub enum Segment {
    GuildId,
    ChannelId,
    MessageId,
    AttachmentUrl,
}

/// Why the `TEST_FORCE_MEME` setting cannot be read.
#[derive(Debug, Clone, Copy, PartialEq, Eq, Structural)]
pub enum ForceMemeError {
    /// The setting has fewer segments.
    Missing(Segment),
    /// The segment is not a non-zero `u64`.
    Invalid(Segment),
}

/// The name of a segment.
pub open spec fn segment_name(seg: Segment) -> Seq<char> {
    match seg {
        Segment::GuildId => "guild_id"@,
        Segment::ChannelId => "channel_id"@,
        Segment::MessageId => "message_id"@,
        Segment::AttachmentUrl => "attachment_url"@,
    }
}

fn segment_str(seg: Segment) -> (r: &'static str)
    ensures
        r@ == segment_name(seg),
{
    match seg {
        Segment::GuildId => "guild_id",
        Segment::ChannelId => "channel_id",
        Segment::MessageId => "message_id",
        Segment::AttachmentUrl => "attachment_url",
    }
}

/// The text of an error about the `TEST_FORCE_MEME` setting.
pub open spec fn force_meme_error_text(e: ForceMemeError) -> Seq<char> {
    match e {
        ForceMemeError::Missing(seg) => "missing "@ + segment_name(seg)
            + " segment of TEST_FORCE_MEME=<guild_id>,<channel_id>,<message_id>,<attachment_url>"@,
        ForceMemeError::Invalid(seg) => segment_name(seg) + " segment is not a valid NonZeroU64"@,
    }
}

impl ForceMemeError {
    /// The text of the error; see [`force_meme_error_text`].
    pub fn message(&self) -> (r: String)
        ensures
            r@ == force_meme_error_text(*self),
    {
        match self {
            ForceMemeError::Missing(seg) => {
                let mut r = string_of("missing ");
                push_str(&mut r, segment_str(*seg));
                push_str(
                    &mut r,
                    " segment of TEST_FORCE_MEME=<guild_id>,<channel_id>,<message_id>,<attachment_url>",
                );
                r
            },
            ForceMemeError::Invalid(seg) => {
                let mut r = string_of(segment_str(*seg));
                push_str(&mut r, " segment is not a valid NonZeroU64");
                r
            },
        }
    }
}

/// The ids and the link of the meme that `TEST_FORCE_MEME=<guild_id>,
/// <channel_id>,<message_id>,<attachment_url>` forces: the segments are read
/// in order, each id must be a non-zero `u64`, the link is the fourth segment
/// as it stands and segments after it are ignored. The first segment that is
/// missing or not valid is the error.
pub open spec fn force_meme_of(s: Seq<char>) -> Result<(u64, u64, u64, Seq<char>), ForceMemeError> {
    let f = split_fields(s, ',');
    if f.len() < 1 {
        Err(ForceMemeError::Missing(Segment::GuildId))
    } else if parse_nonzero_u64_spec(f[0]) is None {
        Err(ForceMemeError::Invalid(Segment::GuildId))
    } else if f.len() < 2 {
        Err(ForceMemeError::Missing(Segment::ChannelId))
    } else if parse_nonzero_u64_spec(f[1]) is None {
        Err(ForceMemeError::Invalid(Segment::ChannelId))
    } else if f.len() < 3 {
        Err(ForceMemeError::Missing(Segment::MessageId))
    } else if parse_nonzero_u64_spec(f[2]) is None {
        Err(ForceMemeError::Invalid(Segment::MessageId))
    } else if f.len() < 4 {
        Err(ForceMemeError::Missing(Segment::AttachmentUrl))
    } else {
        Ok(
            (
                parse_nonzero_u64_spec(f[0])->0,
                parse_nonzero_u64_spec(f[1])->0,
                parse_nonzero_u64_spec(f[2])->0,
                f[3],
            ),
        )
    }
}

/// Settings for testing the bot.
#[derive(Debug)]
pub struct TestSettings {
    /// The meme that `/greed` reposts instead of a random one.
    pub force_meme: Option<IndexedMeme>,
}

impl TestSettings {
    /// The text of a missing-segment error.
    pub fn missing_segment(seg: Segment) -> (r: String)
        ensures
            r@ == force_meme_error_text(ForceMemeError::Missing(seg)),
    {
        ForceMemeError::Missing(seg).message()
    }

    /// The test settings for the value of `TEST_FORCE_MEME`: none when the
    /// variable is not set, else the meme (an attachment) that it forces. A
    /// value that [`force_meme_of`] refuses has no test settings: see
    /// [`read_force_meme`], which tells why.
    pub fn try_from_env(force_meme: Option<&str>) -> (r: Option<TestSettings>)
        requires
            force_meme matches Some(s) ==> force_meme_of(s@) is Ok,
        ensures
            force_meme is None <==> r is None,
            force_meme matches Some(s) ==> (force_meme_of(s@) matches Ok((g, c, m, url)) ==> r matches Some(t)
                && t.force_meme matches Some(meme) && meme.0 == g && meme.1 == c
                && meme.2.message_id == m && meme.2.url@ == url
                && meme.2.meme_type == MemeType::DiscordAttachment),
    {
        match force_meme {
            None => None,
            Some(s) => match read_force_meme(s) {
                Ok(meme) => Some(TestSettings { force_meme: Some(meme) }),
                Err(_) => {
                    proof {
                        assert(false);
                    }
                    None
                },
            },
        }
    }
}

/// The meme that a value of `TEST_FORCE_MEME` forces (an attachment), or the
/// error of [`force_meme_of`].
pub fn read_force_meme(s: &str) -> (r: Result<IndexedMeme, ForceMemeError>)
    ensures
        match force_meme_of(s@) {
            Err(e) => r == Err::<IndexedMeme, ForceMemeError>(e),
            Ok((g, c, m, url)) => r matches Ok(meme) && meme.0 == g && meme.1 == c
                && meme.2.message_id == m && meme.2.url@ == url
                && meme.2.meme_type == MemeType::DiscordAttachment,
        },
{
    let f = split_text(s, ',');
    if f.len() < 1 {
        return Err(ForceMemeError::Missing(Segment::GuildId));
    }
    let guild_id = match parse_nonzero_u64(f[0].as_str()) {
        Some(g) => g,
        None => {
            return Err(ForceMemeError::Invalid(Segment::GuildId));
        },
    };
    if f.len() < 2 {
        return Err(ForceMemeError::Missing(Segment::ChannelId));
    }
    let channel_id = match parse_nonzero_u64(f[1].as_str()) {
        Some(c) => c,
        None => {
            return Err(ForceMemeError::Invalid(Segment::ChannelId));
        },
    };
    if f.len() < 3 {
        return Err(ForceMemeError::Missing(Segment::MessageId));
    }
    let message_id = match parse_nonzero_u64(f[2].as_str()) {
        Some(m) => m,
        None => {
            return Err(ForceMemeError::Invalid(Segment::MessageId));
        },
    };
    if f.len() < 4 {
        return Err(ForceMemeError::Missing(Segment::AttachmentUrl));
    }
    let url = f[3].clone();
    Ok(
        IndexedMeme(
            guild_id,
            channel_id,
            GreedMeme { meme_type: MemeType::DiscordAttachment, message_id, url },
        ),
    )
}

/// The channel ids of `CHANNEL_IDS`: comma-separated, each a non-zero `u64`;
/// `None` when one of them is not.
pub open spec fn channel_ids_of(s: Seq<char>) -> Option<Seq<u64>> {
    let f = split_fields(s, ',');
    if forall|i: int| 0 <= i < f.len() ==> #[trigger] parse_nonzero_u64_spec(f[i]) is Some {
        Some(Seq::new(f.len(), |i: int| parse_nonzero_u64_spec(f[i])->0))
    } else {
        None
    }
}

/// The channel ids of `CHANNEL_IDS`; see [`channel_ids_of`].
pub fn parse_channel_ids(s: &str) -> (r: Option<Vec<u64>>)
    ensures
        match r {
            Some(v) => channel_ids_of(s@) == Some(v@),
            None => channel_ids_of(s@) is None,
        },
{
    let f = split_text(s, ',');
    let ghost fs = split_fields(s@, ',');
    let mut ids: Vec<u64> = Vec::new();
    let mut i: usize = 0;
    while i < f.len()
        invariant
            fs == split_fields(s@, ','),
            f@.len() == fs.len(),
            forall|k: int| 0 <= k < f@.len() ==> #[trigger] f@[k]@ == fs[k],
            i <= f@.len(),
            ids@.len() == i,
            forall|k: int|
                0 <= k < i ==> parse_nonzero_u64_spec(fs[k]) == Some(#[trigger] ids@[k]),
        decreases f@.len() - i,
    {
        match parse_nonzero_u64(f[i].as_str()) {
            Some(id) => {
                ids.push(id);
            },
            None => {
                assert(parse_nonzero_u64_spec(fs[i as int]) is None);
                return None;
            },
        }
        i = i + 1;
    }
    assert forall|k: int| 0 <= k < fs.len() implies #[trigger] parse_nonzero_u64_spec(fs[k]) is Some by {
        assert(parse_nonzero_u64_spec(fs[k]) == Some(ids@[k]));
    }
    assert(ids@ =~= Seq::new(fs.len(), |k: int| parse_nonzero_u64_spec(fs[k])->0));
    Some(ids)
}

/// The configuration of the bot.
#[derive(Debug)]
pub struct BotConfig {
    pub token: String,
    pub data_folder: String,
    pub channel_ids: Vec<u64>,
    pub test_settings: Option<TestSettings>,
}

impl BotConfig {
    /// The configuration from the values of `DISCORD_TOKEN`, `DATA_FOLDER`,
    /// `CHANNEL_IDS` and (if set) `TEST_FORCE_MEME`. The channel ids must be
    /// non-zero `u64`s (see [`parse_channel_ids`]) and `TEST_FORCE_MEME`, when
    /// set, readable (see [`read_force_meme`]): a configuration with either
    /// broken is refused before this point.
    pub fn from_vars(
        token: String,
        data_folder: String,
        channel_ids: &str,
        force_meme: Option<&str>,
    ) -> (r: BotConfig)
        requires
            channel_ids_of(channel_ids@) is Some,
            force_meme matches Some(s) ==> force_meme_of(s@) is Ok,
        ensures
            r.token == token,
            r.data_folder == data_folder,
            channel_ids_of(channel_ids@) == Some(r.channel_ids@),
            force_meme is None <==> r.test_settings is None,
            force_meme matches Some(s) ==> (force_meme_of(s@) matches Ok((g, ch, m, url))
                ==> r.test_settings matches Some(t) && t.force_meme matches Some(meme) && meme.0
                == g && meme.1 == ch && meme.2.message_id == m && meme.2.url@ == url
                && meme.2.meme_type == MemeType::DiscordAttachment),
    {
        let ids = match parse_channel_ids(channel_ids) {
            Some(ids) => ids,
            None => {
                proof {
                    assert(false);
                }
                Vec::new()
            },
        };
        let test_settings = TestSettings::try_from_env(force_meme);
        BotConfig { token, data_folder, channel_ids: ids, test_settings }
    }

    /// The meme that the test settings force, if any.
    pub fn forced_meme(&self) -> (r: Option<&IndexedMeme>)
        ensures
            r == (match &self.test_settings {
                Some(t) => match &t.force_meme {
                    Some(m) => Some(m),
                    None => None,
                },
                None => None,
            }),
    {
        match &self.test_settings {
            Some(t) => match &t.force_meme {
                Some(m) => Some(m),
                None => None,
            },
            None => None,
        }
    }
}

} // verus!
