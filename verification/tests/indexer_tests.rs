use botofgreed::index::{ChannelStatus, Index};
use botofgreed::indexer::{parse_memes, ChannelIndexer, IndexerStep, MessageQuery};
use botofgreed::meme::{Attachment, Message};
use botofgreed::refresh::IndexMode;

fn msg(id: u64, is_meme: bool) -> Message {
    Message {
        id,
        author_bot: false,
        regular: true,
        attachments: vec![Attachment {
            url: format!("u{}", id),
            filename: if is_meme { "a.png".to_string() } else { "a.txt".to_string() },
            content_type: None,
        }],
    }
}

#[test]
fn parse_memes_keeps_order() {
    let memes = parse_memes(&vec![msg(3, true), msg(2, false), msg(1, true)]);
    let ids: Vec<u64> = memes.iter().map(|m| m.message_id).collect();
    assert_eq!(ids, vec![3, 1]);
}

#[test]
fn backwards_run() {
    let mut index = Index::new();
    let mut run = ChannelIndexer::start(&mut index, 1, 10, IndexMode::Backwards, None);
    assert_eq!(index.channel_states().get_or_default(10).status, ChannelStatus::Indexing);
    assert_eq!(run.next_step(), IndexerStep::Fetch(MessageQuery::Latest));
    assert_eq!(run.on_messages(&mut index, &vec![msg(30, true), msg(20, false), msg(10, true)]), Some(2));
    assert_eq!(run.next_step(), IndexerStep::Fetch(MessageQuery::Before(10)));
    assert_eq!(run.on_messages(&mut index, &vec![msg(5, true)]), Some(1));
    assert_eq!(run.next_step(), IndexerStep::Fetch(MessageQuery::Before(5)));
    assert_eq!(run.on_messages(&mut index, &vec![]), None);
    assert_eq!(run.batch(), 3);
    assert_eq!(run.finish(&mut index), 3);
    let state = index.channel_states().get_or_default(10);
    assert_eq!(state.status, ChannelStatus::Indexed);
    assert_eq!(state.current_message, Some(30));
    index.rebuild_memory_index();
    assert_eq!(index.get_meme_count(), 3);
}

#[test]
fn forwards_run() {
    let mut index = Index::new();
    let mut run = ChannelIndexer::start(&mut index, 1, 10, IndexMode::Forwards(50), None);
    assert_eq!(run.next_step(), IndexerStep::Fetch(MessageQuery::After(50)));
    assert_eq!(run.on_messages(&mut index, &vec![msg(60, true), msg(55, true)]), Some(2));
    assert_eq!(run.next_step(), IndexerStep::Fetch(MessageQuery::After(60)));
    assert_eq!(run.on_messages(&mut index, &vec![]), None);
    assert_eq!(run.finish(&mut index), 2);
    assert_eq!(index.channel_states().get_or_default(10).current_message, Some(60));
}

#[test]
fn empty_backwards_run_leaves_no_cursor() {
    let mut index = Index::new();
    let mut run = ChannelIndexer::start(&mut index, 1, 10, IndexMode::Backwards, None);
    assert_eq!(run.next_step(), IndexerStep::Fetch(MessageQuery::Latest));
    assert_eq!(run.on_messages(&mut index, &vec![]), None);
    assert_eq!(run.finish(&mut index), 0);
    let state = index.channel_states().get_or_default(10);
    assert_eq!(state.status, ChannelStatus::Indexed);
    assert_eq!(state.current_message, None);
}

#[test]
fn batch_limit_stops_the_run() {
    let mut index = Index::new();
    let mut run = ChannelIndexer::start(&mut index, 1, 10, IndexMode::Backwards, Some(2));
    assert!(matches!(run.next_step(), IndexerStep::Fetch(_)));
    run.on_messages(&mut index, &vec![msg(9, true)]);
    assert!(matches!(run.next_step(), IndexerStep::Fetch(_)));
    run.on_messages(&mut index, &vec![msg(8, true)]);
    assert_eq!(run.next_step(), IndexerStep::Finish);
    assert_eq!(run.finish(&mut index), 2);
}

#[test]
fn failed_fetch_retries_same_page() {
    let mut index = Index::new();
    let mut run = ChannelIndexer::start(&mut index, 1, 10, IndexMode::Forwards(7), None);
    assert_eq!(run.next_step(), IndexerStep::Fetch(MessageQuery::After(7)));
    // the fetch failed: nothing is handed to the run
    assert_eq!(run.next_step(), IndexerStep::Fetch(MessageQuery::After(7)));
    assert_eq!(run.batch(), 2);
}
