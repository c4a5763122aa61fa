use botofgreed::index::{ChannelState, ChannelStatus, ChannelUpdate, Index};
use botofgreed::refresh::{escape_markdown, plan_channel, ChannelPlan, FetchedChannel, IndexMode, MemeCounts};

#[test]
fn mode_per_status() {
    let s = |current, status| ChannelState { current_message: current, status };
    assert_eq!(IndexMode::for_state(&s(None, ChannelStatus::NotIndexed)), Some(IndexMode::Backwards));
    assert_eq!(IndexMode::for_state(&s(Some(4), ChannelStatus::NotIndexed)), Some(IndexMode::Backwards));
    assert_eq!(IndexMode::for_state(&s(Some(4), ChannelStatus::Indexing)), None);
    assert_eq!(IndexMode::for_state(&s(Some(4), ChannelStatus::Indexed)), Some(IndexMode::Forwards(4)));
}

#[test]
fn plan_channel_decisions() {
    let mut index = Index::new();
    index.update_channel(1, 10, ChannelUpdate::Finish(Some(77)));
    index.update_channel(1, 11, ChannelUpdate::SetStatus(ChannelStatus::Indexing));
    let states = index.channel_states();
    let text = FetchedChannel::Guild { is_text: true };
    assert_eq!(plan_channel(&states, 10, text), ChannelPlan::Index(IndexMode::Forwards(77)));
    assert_eq!(plan_channel(&states, 11, text), ChannelPlan::AlreadyIndexing);
    assert_eq!(plan_channel(&states, 12, text), ChannelPlan::Index(IndexMode::Backwards));
    assert_eq!(plan_channel(&states, 10, FetchedChannel::Guild { is_text: false }), ChannelPlan::Skip);
    assert_eq!(plan_channel(&states, 10, FetchedChannel::NotGuild), ChannelPlan::Skip);
    assert_eq!(plan_channel(&states, 10, FetchedChannel::Unavailable), ChannelPlan::Skip);
}

#[test]
fn escape_markdown_characters() {
    assert_eq!(escape_markdown("my_memes*`~x"), "my\\_memes\\*\\`\\~x");
    assert_eq!(escape_markdown("plain"), "plain");
    assert_eq!(escape_markdown(""), "");
}

#[test]
fn meme_counts_accumulate_per_name() {
    let mut counts = MemeCounts::new();
    counts.add("memes".to_string(), 2);
    counts.add("other".to_string(), 0);
    counts.add("memes".to_string(), 3);
    assert_eq!(counts.count_of("memes"), 5);
    assert_eq!(counts.count_of("other"), 0);
    assert_eq!(counts.count_of("missing"), 0);
}

#[test]
fn status_text_report() {
    let mut counts = MemeCounts::new();
    assert_eq!(counts.status_text(), "Index updated:");
    counts.add("my_memes".to_string(), 1);
    counts.add("other".to_string(), 2);
    counts.add("none".to_string(), 0);
    assert_eq!(
        counts.status_text(),
        "Index updated:\nmy\\_memes: 1 new meme\nother: 2 new memes\nnone: 0 new memes"
    );
}
