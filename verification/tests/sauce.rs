use botofgreed::op::{op_custom_id, sauce_error, ChannelFetch, EncodedOP, MessageFetch, SauceStep};

#[test]
fn message_and_channel_links() {
    let op = EncodedOP::new(10, 20, 30);
    assert_eq!(op.message_link(), "https://discord.com/channels/10/20/30");
    assert_eq!(op.channel_link(), "https://discord.com/channels/10/20");
}

#[test]
fn from_str_reads_three_ids() {
    let op = EncodedOP::from_str("op_1_2_3").unwrap();
    assert_eq!((op.guild_id(), op.channel_id(), op.message_id()), (1, 2, 3));
}

#[test]
fn from_str_ignores_first_and_extra_fields() {
    let op = EncodedOP::from_str("xy_4_5_6_7").unwrap();
    assert_eq!((op.guild_id(), op.channel_id(), op.message_id()), (4, 5, 6));
    let op = EncodedOP::from_str("op_+4_0_6").unwrap();
    assert_eq!((op.guild_id(), op.channel_id(), op.message_id()), (4, 0, 6));
}

#[test]
fn from_str_rejects_missing_or_bad_ids() {
    assert!(EncodedOP::from_str("op_1_2").is_err());
    assert!(EncodedOP::from_str("op").is_err());
    assert!(EncodedOP::from_str("op_a_2_3").is_err());
    assert!(EncodedOP::from_str("op_1__3").is_err());
    assert!(EncodedOP::from_str("op_1_2_18446744073709551616").is_err());
    assert!(EncodedOP::from_str("op_-1_2_3").is_err());
}

#[test]
fn custom_id_round_trip() {
    assert_eq!(op_custom_id(11, 22, 33), "op_11_22_33");
    let id = op_custom_id(u64::MAX, 1, 1043928374651);
    let op = EncodedOP::from_str(&id).unwrap();
    assert_eq!((op.guild_id(), op.channel_id(), op.message_id()), (u64::MAX, 1, 1043928374651));
}

#[test]
fn sauce_steps_to_the_links() {
    let op = EncodedOP::new(1, 2, 3);
    assert!(matches!(op.sauce_start(), SauceStep::FetchChannel(2)));
    assert!(matches!(op.sauce_after_channel(ChannelFetch::Guild), SauceStep::FetchMessage(3)));
    match op.sauce_after_message(MessageFetch::Found) {
        SauceStep::Respond { message_link, channel_link } => {
            assert_eq!(message_link, "https://discord.com/channels/1/2/3");
            assert_eq!(channel_link, "https://discord.com/channels/1/2");
        }
        other => panic!("unexpected step {other:?}"),
    }
}

fn failure(step: SauceStep) -> String {
    match step {
        SauceStep::Fail(text) => text,
        other => panic!("unexpected step {other:?}"),
    }
}

#[test]
fn sauce_failures() {
    assert_eq!(sauce_error(), "Failed to retreive OP information");
    assert_eq!(
        failure(EncodedOP::new(1, 0, 3).sauce_start()),
        "Encoded channel id was zero: out of range integral type conversion attempted"
    );
    let zero = std::num::NonZeroU64::try_from(0u64).unwrap_err();
    assert_eq!(
        failure(EncodedOP::new(1, 0, 3).sauce_start()),
        format!("Encoded channel id was zero: {zero}")
    );
    assert_eq!(
        failure(EncodedOP::new(1, 2, 0).sauce_after_channel(ChannelFetch::Guild)),
        "Encoded message id was zero"
    );
    let op = EncodedOP::new(1, 2, 3);
    assert_eq!(
        failure(op.sauce_after_channel(ChannelFetch::NotGuild)),
        "Attempted to retreive OP information from a non guild channel"
    );
    assert_eq!(
        failure(op.sauce_after_channel(ChannelFetch::Failed("Unknown Channel".to_string()))),
        "Failed to get channel for OP information: Unknown Channel"
    );
    assert_eq!(
        failure(op.sauce_after_message(MessageFetch::Failed("Unknown Message".to_string()))),
        "Failed to get message for OP information: Unknown Message"
    );
}
