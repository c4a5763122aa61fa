//! The commands of the bot: their names, which command an interaction asks
//! for, and the texts that the commands answer with.
use vstd::prelude::*;
use crate::decimal::{decimal_text, push_decimal};
use crate::index::Timestamp;
use crate::op::{EncodedOP, lemma_op_custom_id_round_trip, op_custom_id_text, op_from_text};
use crate::text::{has_prefix, push_str, starts_with, string_of, text_eq};

verus! {

/// The three global commands.
#[derive(Debug, Clone, Copy, PartialEq, Eq, Structural)]
pub enum CommandKind {
    /// Repost a random meme.
    Greed,
    /// Refresh the meme index.
    Memedex,
    /// Print information about the bot.
    Info,
}

/// The name of a command; a nightly (debug) build registers its commands with
/// a `nightly_` prefix.
pub open spec fn command_name_text(kind: CommandKind, nightly: bool) -> Seq<char> {
    match kind {
        CommandKind::Greed => if nightly {
            "nightly_greed"@
        } else {
            "greed"@
        },
        CommandKind::Memedex => if nightly {
            "nightly_memedex"@
        } else {
            "memedex"@
        },
        CommandKind::Info => if nightly {
            "nightly_info"@
        } else {
            "info"@
        },
    }
}

/// The name of a command; see [`command_name_text`].
pub fn command_name(kind: CommandKind, nightly: bool) -> (r: &'static str)
    ensures
        r@ == command_name_text(kind, nightly),
{
    match kind {
        CommandKind::Greed => if nightly {
            "nightly_greed"
        } else {
            "greed"
        },
        CommandKind::Memedex => if nightly {
            "nightly_memedex"
        } else {
            "memedex"
        },
        CommandKind::Info => if nightly {
            "nightly_info"
        } else {
            "info"
        },
    }
}

/// What an interaction asks for.
#[derive(Debug)]
pub enum Route {
    Command(CommandKind),
    /// The sauce button of a meme, with the ids it carries.
    Op(EncodedOP),
    Unknown,
}

/// What an interaction asks for, as the contracts see it.
pub enum RouteView {
    Command(CommandKind),
    Op((u64, u64, u64)),
    Unknown,
}

impl View for Route {
    type V = RouteView;

    open spec fn view(&self) -> RouteView {
        match self {
            Route::Command(kind) => RouteView::Command(*kind),
            Route::Op(op) => RouteView::Op(op@),
            Route::Unknown => RouteView::Unknown,
        }
    }
}

/// What the command text `cmd` asks for: a command by its exact name, the
/// sauce button when the text starts with `op_` and carries three ids, and
/// nothing known otherwise.
pub open spec fn route_of(cmd: Seq<char>, nightly: bool) -> RouteView {
    if cmd == command_name_text(CommandKind::Greed, nightly) {
        RouteView::Command(CommandKind::Greed)
    } else if cmd == command_name_text(CommandKind::Memedex, nightly) {
        RouteView::Command(CommandKind::Memedex)
    } else if cmd == command_name_text(CommandKind::Info, nightly) {
        RouteView::Command(CommandKind::Info)
    } else if has_prefix(cmd, "op_"@) {
        match op_from_text(cmd) {
            Some(ids) => RouteView::Op(ids),
            None => RouteView::Unknown,
        }
    } else {
        RouteView::Unknown
    }
}

/// What the command text `cmd` asks for; see [`route_of`].
pub fn route_command(cmd: &str, nightly: bool) -> (r: Route)
    ensures
        r@ == route_of(cmd@, nightly),
{
    if text_eq(cmd, command_name(CommandKind::Greed, nightly)) {
        Route::Command(CommandKind::Greed)
    } else if text_eq(cmd, command_name(CommandKind::Memedex, nightly)) {
        Route::Command(CommandKind::Memedex)
    } else if text_eq(cmd, command_name(CommandKind::Info, nightly)) {
        Route::Command(CommandKind::Info)
    } else if starts_with(cmd, "op_") {
        match EncodedOP::from_str(cmd) {
            Ok(op) => Route::Op(op),
            Err(()) => Route::Unknown,
        }
    } else {
        Route::Unknown
    }
}

/// The message that reposts a meme: `Triggered by <@user>` and the meme's
/// link on the next line.
pub open spec fn triggered_by_text(user_id: u64, url: Seq<char>) -> Seq<char> {
    "Triggered by <@"@ + decimal_text(user_id as nat) + ">\n"@ + url
}

/// The message that reposts a meme; see [`triggered_by_text`].
pub fn triggered_by_message(user_id: u64, url: &str) -> (r: String)
    ensures
        r@ == triggered_by_text(user_id, url@),
{
    let mut r = string_of("Triggered by <@");
    push_decimal(&mut r, user_id);
    push_str(&mut r, ">\n");
    push_str(&mut r, url);
    r
}

/// The answer to `/greed` when there is no meme to repost.
pub open spec fn no_meme_text(nightly: bool) -> Seq<char> {
    "Failed to retreive a meme (have you ran `/"@ + command_name_text(CommandKind::Memedex, nightly)
        + "` yet?)"@
}

/// The answer to `/greed` when there is no meme to repost; see
/// [`no_meme_text`].
pub fn no_meme_message(nightly: bool) -> (r: String)
    ensures
        r@ == no_meme_text(nightly),
{
    let mut r = string_of("Failed to retreive a meme (have you ran `/");
    push_str(&mut r, command_name(CommandKind::Memedex, nightly));
    push_str(&mut r, "` yet?)");
    r
}

/// What chrono writes for the UTC time `secs` seconds and `nanos`
/// nanoseconds after the Unix epoch in the format `fmt`, if chrono can
/// represent that time.
pub uninterp spec fn formatted_time(secs: i64, nanos: u32, fmt: Seq<char>) -> Option<Seq<char>>;

/// `chrono::DateTime::from_timestamp` followed by `format(fmt).to_string()`
/// of the time as a naive UTC date and time. chrono only reports a bad
/// format item when the value is written, and `to_string` turns that into a
/// panic, so the format is held to the one of the last refresh's time, whose
/// items (month, day, year, hour, minute, second) chrono always writes. The
/// contract claims that the result is a function of the time and the format;
/// what chrono writes for each format item is not stated.
#[verifier::external_body]
fn format_time(at: Timestamp, fmt: &str) -> (r: Option<String>)
    requires
        fmt@ == last_indexed_format(),
    ensures
        match r {
            Some(s) => formatted_time(at.secs, at.nanos, fmt@) == Some(s@),
            None => formatted_time(at.secs, at.nanos, fmt@) is None,
        },
{
    chrono::DateTime::from_timestamp(at.secs, at.nanos).map(
        |d| d.naive_utc().format(fmt).to_string(),
    )
}

/// What humantime writes for a duration of `secs` seconds and `nanos`
/// nanoseconds.
pub uninterp spec fn duration_text(secs: u64, nanos: u32) -> Seq<char>;

/// `humantime::format_duration(..).to_string()` of the duration. The contract
/// claims that the result is a function of the duration; humantime's
/// documentation keeps the exact composition of the text open.
#[verifier::external_body]
fn format_duration(secs: u64, nanos: u32) -> (r: String)
    requires
        nanos < 1_000_000_000,
    ensures
        r@ == duration_text(secs, nanos),
{
    humantime::format_duration(std::time::Duration::new(secs, nanos)).to_string()
}

/// The format of the time of the last refresh.
pub open spec fn last_indexed_format() -> Seq<char> {
    "%m-%d-%Y %H:%M:%S"@
}

/// The time of the last refresh as `/info` shows it: `never` when there was
/// none (or chrono cannot represent it).
pub open spec fn last_indexed_text(at: Option<Timestamp>) -> Seq<char> {
    match at {
        Some(t) => match formatted_time(t.secs, t.nanos, last_indexed_format()) {
            Some(s) => s,
            None => "never"@,
        },
        None => "never"@,
    }
}

/// The uptime as `/info` shows it: `unknown` when it could not be measured.
pub open spec fn uptime_text(uptime: Option<(u64, u32)>) -> Seq<char> {
    match uptime {
        Some((secs, nanos)) => duration_text(secs, nanos),
        None => "unknown"@,
    }
}

/// The answer to `/info`: version, time of the last refresh, number of memes
/// and uptime, in a code block.
pub open spec fn info_text(
    version: Seq<char>,
    last_indexed: Option<Timestamp>,
    meme_count: usize,
    uptime: Option<(u64, u32)>,
) -> Seq<char> {
    "```\nVersion: "@ + version + "\nLast indexed at: "@ + last_indexed_text(last_indexed)
        + "\nMemes indexed: "@ + decimal_text(meme_count as nat) + "\nUptime: "@ + uptime_text(
        uptime,
    ) + "\n```"@
}

/// The answer to `/info`; see [`info_text`]. The uptime's nanoseconds are
/// below one second.
pub fn info_message(
    version: &str,
    last_indexed: Option<Timestamp>,
    meme_count: usize,
    uptime: Option<(u64, u32)>,
) -> (r: String)
    requires
        uptime matches Some((_, nanos)) ==> nanos < 1_000_000_000,
    ensures
        r@ == info_text(version@, last_indexed, meme_count, uptime),
{
    let last = match last_indexed {
        Some(t) => match format_time(t, "%m-%d-%Y %H:%M:%S") {
            Some(s) => s,
            None => string_of("never"),
        },
        None => string_of("never"),
    };
    let up = match uptime {
        Some((secs, nanos)) => format_duration(secs, nanos),
        None => string_of("unknown"),
    };
    let mut r = string_of("```\nVersion: ");
    push_str(&mut r, version);
    push_str(&mut r, "\nLast indexed at: ");
    push_str(&mut r, last.as_str());
    push_str(&mut r, "\nMemes indexed: ");
    push_decimal(&mut r, meme_count as u64);
    push_str(&mut r, "\nUptime: ");
    push_str(&mut r, up.as_str());
    push_str(&mut r, "\n```");
    r
}

/// The sauce button of a reposted meme asks for the original post of that
/// meme: its id routes to the ids it was made from.
pub proof fn lemma_sauce_button_routes_to_op(
    guild_id: u64,
    channel_id: u64,
    message_id: u64,
    nightly: bool,
)
    ensures
        route_of(op_custom_id_text(guild_id, channel_id, message_id), nightly) == RouteView::Op(
            (guild_id, channel_id, message_id),
        ),
{
    let t = op_custom_id_text(guild_id, channel_id, message_id);
    reveal_strlit("greed");
    reveal_strlit("nightly_greed");
    reveal_strlit("memedex");
    reveal_strlit("nightly_memedex");
    reveal_strlit("info");
    reveal_strlit("nightly_info");
    reveal_strlit("op_");
    assert(t[0] == 'o' && t[1] == 'p' && t[2] == '_');
    assert(t != command_name_text(CommandKind::Greed, nightly)) by {
        assert(command_name_text(CommandKind::Greed, nightly)[0] != 'o');
    }
    assert(t != command_name_text(CommandKind::Memedex, nightly)) by {
        assert(command_name_text(CommandKind::Memedex, nightly)[0] != 'o');
    }
    assert(t != command_name_text(CommandKind::Info, nightly)) by {
        assert(command_name_text(CommandKind::Info, nightly)[1] != 'p');
    }
    assert(t.take(3) =~= "op_"@);
    lemma_op_custom_id_round_trip(guild_id, channel_id, message_id);
}

/// The "I'm feeling Greedy" button, whose id is the name of `/greed`, asks
/// for `/greed` again.
pub proof fn lemma_greedy_button_routes_to_greed(nightly: bool)
    ensures
        route_of(command_name_text(CommandKind::Greed, nightly), nightly) == RouteView::Command(
            CommandKind::Greed,
        ),
{
}

/// Every command is reached by the name it is registered under: in either
/// build flavour, the name of `/greed`, `/memedex` or `/info` routes to that
/// command.
pub proof fn lemma_command_names_route_to_commands(kind: CommandKind, nightly: bool)
    ensures
        route_of(command_name_text(kind, nightly), nightly) == RouteView::Command(kind),
{
    reveal_strlit("greed");
    reveal_strlit("nightly_greed");
    reveal_strlit("memedex");
    reveal_strlit("nightly_memedex");
    reveal_strlit("info");
    reveal_strlit("nightly_info");
    let g = command_name_text(CommandKind::Greed, nightly);
    let m = command_name_text(CommandKind::Memedex, nightly);
    let i = command_name_text(CommandKind::Info, nightly);
    if nightly {
        assert(g[8] == 'g' && m[8] == 'm' && i[8] == 'i');
    } else {
        assert(g[0] == 'g' && m[0] == 'm' && i[0] == 'i');
    }
    assert(g != m && g != i && m != i);
}

} // verus!
