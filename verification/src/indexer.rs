//! Indexing one channel: the decisions of the run that pages through a
//! channel's messages and adds its memes to the index.
//!
//! The application fetches the pages; this state machine says which page to
//! fetch next, reads the memes out of each page into the index, and closes the
//! run.
use vstd::prelude::*;
use crate::index::{ChannelChange, ChannelStatus, ChannelUpdate, Index, updated_guilds};
use crate::meme::{GreedMeme, Message, is_meme_message, meme_of_message};
use crate::refresh::IndexMode;

verus! {

/// The number of messages asked for per page.
pub const PAGE_SIZE: u8 = 100;

/// The page of messages to fetch next.
#[derive(Debug, Clone, Copy, PartialEq, Eq, Structural)]
pub enum MessageQuery {
    /// The newest messages of the channel.
    Latest,
    /// The messages before the given one.
    Before(u64),
    /// The messages after the given one.
    After(u64),
}

/// What to do next in an indexing run.
#[derive(Debug, Clone, Copy, PartialEq, Eq, Structural)]
pub enum IndexerStep {
    Fetch(MessageQuery),
    Finish,
}

/// The memes of a page of messages, in the order of the messages: one for
/// each message that is a meme.
pub open spec fn memes_parsed(msgs: Seq<Message>, memes: Seq<GreedMeme>) -> bool
    decreases msgs.len(),
{
    if msgs.len() == 0 {
        memes.len() == 0
    } else if is_meme_message(msgs.last()) {
        &&& memes.len() > 0
        &&& meme_of_message(msgs.last(), memes.last())
        &&& memes_parsed(msgs.drop_last(), memes.drop_last())
    } else {
        memes_parsed(msgs.drop_last(), memes)
    }
}

/// The memes of a page of messages; see [`memes_parsed`].
pub fn parse_memes(msgs: &Vec<Message>) -> (r: Vec<GreedMeme>)
    ensures
        memes_parsed(msgs@, r@),
{
    let mut r: Vec<GreedMeme> = Vec::new();
    let mut i: usize = 0;
    while i < msgs.len()
        invariant
            i <= msgs@.len(),
            memes_parsed(msgs@.take(i as int), r@),
        decreases msgs@.len() - i,
    {
        let ghost before = r@;
        match GreedMeme::parse(&msgs[i]) {
            Some(meme) => {
                r.push(meme);
                assert(r@.drop_last() =~= before);
            },
            None => {},
        }
        assert(msgs@.take(i + 1).drop_last() =~= msgs@.take(i as int));
        assert(msgs@.take(i + 1).last() == msgs@[i as int]);
        i = i + 1;
    }
    assert(msgs@.take(i as int) =~= msgs@);
    r
}

/// The page that follows the cursor `current` in mode `mode`.
pub open spec fn query_for(mode: IndexMode, current: Option<u64>) -> MessageQuery {
    match mode {
        IndexMode::Backwards => match current {
            Some(id) => MessageQuery::Before(id),
            None => MessageQuery::Latest,
        },
        IndexMode::Forwards(_) => MessageQuery::After(current.unwrap_or(0)),
    }
}

/// The state of an indexing run.
pub struct IndexerView {
    pub guild_id: u64,
    pub channel_id: u64,
    pub mode: IndexMode,
    /// The newest message seen; it becomes the channel's cursor at the end.
    pub newest_message: Option<u64>,
    /// The message that the next page starts from.
    pub current_message: Option<u64>,
    /// The number of pages asked for so far.
    pub batch: u64,
    /// The number of memes found so far.
    pub memes_found: usize,
    /// The number of pages after which the run stops, if any.
    pub batch_limit: Option<u64>,
}

/// An indexing run of one channel.
pub struct ChannelIndexer {
    guild_id: u64,
    channel_id: u64,
    mode: IndexMode,
    newest_message: Option<u64>,
    current_message: Option<u64>,
    batch: u64,
    memes_found: usize,
    batch_limit: Option<u64>,
}

impl View for ChannelIndexer {
    type V = IndexerView;

    closed spec fn view(&self) -> IndexerView {
        IndexerView {
            guild_id: self.guild_id,
            channel_id: self.channel_id,
            mode: self.mode,
            newest_message: self.newest_message,
            current_message: self.current_message,
            batch: self.batch,
            memes_found: self.memes_found,
            batch_limit: self.batch_limit,
        }
    }
}

impl ChannelIndexer {
    /// A run in forwards mode always has a message to continue from.
    pub open spec fn wf(&self) -> bool {
        self@.mode is Forwards ==> self@.current_message is Some
    }

    /// Starts indexing channel `channel_id` of guild `guild_id` in mode `mode`
    /// and marks the channel as being indexed. Forwards, the run starts from
    /// the given message; backwards, from the newest message of the channel.
    /// With `batch_limit`, the run stops after that many pages.
    pub fn start(
        index: &mut Index,
        guild_id: u64,
        channel_id: u64,
        mode: IndexMode,
        batch_limit: Option<u64>,
    ) -> (r: ChannelIndexer)
        ensures
            r.wf(),
            r@.guild_id == guild_id,
            r@.channel_id == channel_id,
            r@.mode == mode,
            r@.newest_message == (match mode {
                IndexMode::Forwards(id) => Some(id),
                IndexMode::Backwards => None::<u64>,
            }),
            r@.current_message == r@.newest_message,
            r@.batch == 0,
            r@.memes_found == 0,
            r@.batch_limit == batch_limit,
            final(index).guilds() == updated_guilds(
                old(index).guilds(),
                guild_id,
                channel_id,
                ChannelChange::SetStatus(ChannelStatus::Indexing),
            ),
            final(index).memes() == old(index).memes(),
            final(index).last_indexed() == old(index).last_indexed(),
    {
        let newest_message = match mode {
            IndexMode::Backwards => None,
            IndexMode::Forwards(id) => Some(id),
        };
        index.update_channel(
            guild_id,
            channel_id,
            ChannelUpdate::SetStatus(ChannelStatus::Indexing),
        );
        ChannelIndexer {
            guild_id,
            channel_id,
            mode,
            newest_message,
            current_message: newest_message,
            batch: 0,
            memes_found: 0,
            batch_limit,
        }
    }

    /// Counts the next page and says what to do: finish when the page limit
    /// is passed, else fetch the page after the cursor.
    pub fn next_step(&mut self) -> (r: IndexerStep)
        requires
            old(self).wf(),
        ensures
            final(self).wf(),
            final(self)@.batch == (if old(self)@.batch < u64::MAX {
                old(self)@.batch + 1
            } else {
                old(self)@.batch as int
            }),
            final(self)@.guild_id == old(self)@.guild_id,
            final(self)@.channel_id == old(self)@.channel_id,
            final(self)@.mode == old(self)@.mode,
            final(self)@.newest_message == old(self)@.newest_message,
            final(self)@.current_message == old(self)@.current_message,
            final(self)@.memes_found == old(self)@.memes_found,
            final(self)@.batch_limit == old(self)@.batch_limit,
            r == (match final(self)@.batch_limit {
                Some(limit) => if final(self)@.batch > limit {
                    IndexerStep::Finish
                } else {
                    IndexerStep::Fetch(query_for(final(self)@.mode, final(self)@.current_message))
                },
                None => IndexerStep::Fetch(
                    query_for(final(self)@.mode, final(self)@.current_message),
                ),
            }),
    {
        self.batch = self.batch.saturating_add(1);
        if let Some(limit) = self.batch_limit {
            if self.batch > limit {
                return IndexerStep::Finish;
            }
        }
        let query = match self.mode {
            IndexMode::Backwards => match self.current_message {
                Some(id) => MessageQuery::Before(id),
                None => MessageQuery::Latest,
            },
            IndexMode::Forwards(_) => match self.current_message {
                Some(id) => MessageQuery::After(id),
                None => MessageQuery::After(0),
            },
        };
        IndexerStep::Fetch(query)
    }

    /// Takes a fetched page (newest message first). An empty page ends the
    /// run (`None`). Otherwise the cursors move: backwards, the first page's
    /// first message is the newest one and the page's last message is where
    /// the next page starts; forwards, the page's first message is both. The
    /// memes of the page are added to the channel's index and their number is
    /// returned.
    pub fn on_messages(&mut self, index: &mut Index, messages: &Vec<Message>) -> (r: Option<
        usize,
    >)
        requires
            old(self).wf(),
        ensures
            final(self).wf(),
            messages@.len() == 0 ==> r is None && final(self)@ == old(self)@ && final(index).guilds()
                == old(index).guilds(),
            messages@.len() > 0 ==> {
                &&& r matches Some(n) && exists|memes: Seq<GreedMeme>|
                    {
                        &&& memes_parsed(messages@, memes)
                        &&& n == memes.len()
                        &&& final(index).guilds() == updated_guilds(
                            old(index).guilds(),
                            old(self)@.guild_id,
                            old(self)@.channel_id,
                            ChannelChange::AddMemes(memes),
                        )
                    }
                &&& final(self)@.memes_found == (if old(self)@.memes_found + r->0 <= usize::MAX {
                    old(self)@.memes_found + r->0
                } else {
                    usize::MAX as int
                })
                &&& final(self)@.newest_message == (match old(self)@.mode {
                    IndexMode::Backwards => if old(self)@.newest_message is None {
                        Some(messages@[0].id)
                    } else {
                        old(self)@.newest_message
                    },
                    IndexMode::Forwards(_) => Some(messages@[0].id),
                })
                &&& final(self)@.current_message == (match old(self)@.mode {
                    IndexMode::Backwards => Some(messages@.last().id),
                    IndexMode::Forwards(_) => Some(messages@[0].id),
                })
                &&& final(self)@.guild_id == old(self)@.guild_id
                &&& final(self)@.channel_id == old(self)@.channel_id
                &&& final(self)@.mode == old(self)@.mode
                &&& final(self)@.batch == old(self)@.batch
                &&& final(self)@.batch_limit == old(self)@.batch_limit
            },
            final(index).memes() == old(index).memes(),
            final(index).last_indexed() == old(index).last_indexed(),
    {
        if messages.len() == 0 {
            return None;
        }
        let first = messages[0].id;
        let last = messages[messages.len() - 1].id;
        match self.mode {
            IndexMode::Backwards => {
                if self.newest_message.is_none() {
                    self.newest_message = Some(first);
                }
                self.current_message = Some(last);
            },
            IndexMode::Forwards(_) => {
                self.newest_message = Some(first);
                self.current_message = Some(first);
            },
        }
        let memes = parse_memes(messages);
        let ghost parsed = memes@;
        let count = index.add_memes(self.guild_id, self.channel_id, memes);
        self.memes_found = self.memes_found.saturating_add(count);
        assert(memes_parsed(messages@, parsed) && count == parsed.len());
        Some(count)
    }

    /// Ends the run: the channel's cursor becomes the newest message seen and
    /// the channel is indexed. Returns the number of memes found.
    pub fn finish(self, index: &mut Index) -> (r: usize)
        ensures
            r == self@.memes_found,
            final(index).guilds() == updated_guilds(
                old(index).guilds(),
                self@.guild_id,
                self@.channel_id,
                ChannelChange::Finish(self@.newest_message),
            ),
            final(index).memes() == old(index).memes(),
            final(index).last_indexed() == old(index).last_indexed(),
    {
        index.update_channel(
            self.guild_id,
            self.channel_id,
            ChannelUpdate::Finish(self.newest_message),
        );
        self.memes_found
    }

    pub fn guild_id(&self) -> (r: u64)
        ensures
            r == self@.guild_id,
    {
        self.guild_id
    }

    pub fn channel_id(&self) -> (r: u64)
        ensures
            r == self@.channel_id,
    {
        self.channel_id
    }

    pub fn batch(&self) -> (r: u64)
        ensures
            r == self@.batch,
    {
        self.batch
    }
}

} // verus!
