//! The decision logic of the Bot of Greed, a Discord bot that reposts random
//! memes from an index of meme channels.
//!
//! The library holds everything the bot decides or computes: the meme index and
//! the way it is refreshed, the parsing of the "sauce" button identifiers and of
//! the configuration, the classification of attachments, and the texts that the
//! bot sends. Talking to Discord, the file system and the clock is left to the
//! application around it.
pub mod text;
pub mod decimal;
pub mod op;
pub mod meme;
pub mod index;
pub mod refresh;
pub mod indexer;
pub mod interactor;
pub mod command;
pub mod config;
pub mod emoji;
