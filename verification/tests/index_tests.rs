use botofgreed::index::{
    ChannelIndex, ChannelState, ChannelStatus, ChannelUpdate, Index, IndexedMeme, Timestamp,
};
use botofgreed::meme::{GreedMeme, MemeType};

fn meme(id: u64) -> GreedMeme {
    GreedMeme { message_id: id, url: format!("https://cdn/{}", id), meme_type: MemeType::DiscordAttachment }
}

#[test]
fn new_index_is_empty() {
    let index = Index::new();
    assert_eq!(index.get_meme_count(), 0);
    assert!(index.get_last_indexed().is_none());
    assert!(index.guild_entries().is_empty());
    assert!(index.get_random_meme(None).is_none());
}

#[test]
fn add_memes_returns_count_and_creates_entries() {
    let mut index = Index::new();
    assert_eq!(index.add_memes(1, 10, vec![meme(100), meme(101)]), 2);
    assert_eq!(index.add_memes(1, 10, vec![meme(102)]), 1);
    assert_eq!(index.add_memes(2, 20, vec![]), 0);
    let guilds = index.guild_entries();
    assert_eq!(guilds.len(), 2);
    assert_eq!(guilds[0].guild_id, 1);
    assert_eq!(guilds[0].channels.len(), 1);
    assert_eq!(guilds[0].channels[0].index.memes.len(), 3);
    assert_eq!(guilds[0].channels[0].index.memes[2].message_id, 102);
    assert_eq!(guilds[1].channels[0].channel_id, 20);
    assert_eq!(guilds[1].channels[0].index.state, ChannelState::default());
    // the flat list is only rebuilt on demand
    assert_eq!(index.get_meme_count(), 0);
}

#[test]
fn rebuild_flattens_guild_after_guild() {
    let mut index = Index::new();
    index.add_memes(1, 10, vec![meme(1), meme(2)]);
    index.add_memes(2, 20, vec![meme(3)]);
    index.add_memes(1, 11, vec![meme(4)]);
    index.rebuild_memory_index();
    assert_eq!(index.get_meme_count(), 4);
    let ids: Vec<(u64, u64, u64)> = (0..4)
        .map(|i| {
            let m = index.meme_for_roll(i).unwrap();
            (m.guild_id(), m.channel_id(), m.message_id())
        })
        .collect();
    assert_eq!(ids, vec![(1, 10, 1), (1, 10, 2), (1, 11, 4), (2, 20, 3)]);
    assert!(index.meme_for_roll(4).is_none());
}

#[test]
fn random_meme_comes_from_the_pool() {
    let mut index = Index::new();
    index.add_memes(1, 10, vec![meme(1), meme(2), meme(3)]);
    index.rebuild_memory_index();
    for _ in 0..50 {
        let m = index.get_random_meme(None).unwrap();
        assert!((1..=3).contains(&m.message_id()));
        assert_eq!(m.meme().url, format!("https://cdn/{}", m.message_id()));
    }
}

#[test]
fn forced_meme_wins() {
    let mut index = Index::new();
    index.add_memes(1, 10, vec![meme(1)]);
    index.rebuild_memory_index();
    let forced = IndexedMeme(5, 6, meme(7));
    let m = index.get_random_meme(Some(&forced)).unwrap();
    assert_eq!((m.guild_id(), m.channel_id(), m.message_id()), (5, 6, 7));
    let empty = Index::new();
    assert!(empty.get_random_meme(Some(&forced)).is_some());
}

#[test]
fn status_updates_and_finish() {
    let mut index = Index::new();
    index.update_channel(1, 10, ChannelUpdate::SetStatus(ChannelStatus::Indexing));
    let states = index.channel_states();
    assert_eq!(states.get_or_default(10).status, ChannelStatus::Indexing);
    assert_eq!(states.get_or_default(10).current_message, None);
    index.update_channel(1, 10, ChannelUpdate::Finish(Some(99)));
    let states = index.channel_states();
    assert_eq!(
        states.get_or_default(10),
        ChannelState { current_message: Some(99), status: ChannelStatus::Indexed }
    );
    assert_eq!(states.get_or_default(11), ChannelState::default());
}

#[test]
fn replace_loads_a_channel() {
    let mut index = Index::new();
    index.update_channel(
        3,
        30,
        ChannelUpdate::Replace(ChannelIndex {
            memes: vec![meme(1)],
            state: ChannelState { current_message: Some(5), status: ChannelStatus::Indexed },
        }),
    );
    index.rebuild_memory_index();
    assert_eq!(index.get_meme_count(), 1);
    assert_eq!(index.channel_states().get_or_default(30).current_message, Some(5));
}

#[test]
fn last_indexed_is_recorded() {
    let mut index = Index::new();
    let at = Timestamp { secs: 1_700_000_000, nanos: 5 };
    index.set_last_indexed(Some(at));
    assert_eq!(*index.get_last_indexed(), Some(at));
}

#[test]
fn channel_states_last_entry_wins() {
    let mut index = Index::new();
    index.update_channel(1, 10, ChannelUpdate::Finish(Some(1)));
    index.update_channel(2, 10, ChannelUpdate::Finish(Some(2)));
    assert_eq!(index.channel_states().get_or_default(10).current_message, Some(2));
}

#[test]
fn defaults() {
    assert_eq!(ChannelStatus::default(), ChannelStatus::NotIndexed);
    let ci = ChannelIndex::default();
    assert!(ci.memes.is_empty());
    assert_eq!(ci.state.status, ChannelStatus::NotIndexed);
}
