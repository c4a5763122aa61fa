use botofgreed::config::{
    parse_channel_ids, read_force_meme, BotConfig, ForceMemeError, Segment, TestSettings,
};
use botofgreed::meme::MemeType;

#[test]
fn no_force_meme_variable() {
    assert!(TestSettings::try_from_env(None).is_none());
}

#[test]
fn force_meme_is_read() {
    let t = TestSettings::try_from_env(Some("1,2,3,https://cdn/a.png")).unwrap();
    let m = t.force_meme.unwrap();
    assert_eq!((m.guild_id(), m.channel_id(), m.message_id()), (1, 2, 3));
    assert_eq!(m.meme().url, "https://cdn/a.png");
    assert_eq!(m.meme().meme_type, MemeType::DiscordAttachment);
}

#[test]
fn force_meme_url_is_fourth_segment_only() {
    let t = TestSettings::try_from_env(Some("1,2,3,u,v")).unwrap();
    assert_eq!(t.force_meme.unwrap().meme().url, "u");
}

#[test]
fn force_meme_errors() {
    let err = |s: &str| read_force_meme(s).unwrap_err();
    assert_eq!(err(""), ForceMemeError::Invalid(Segment::GuildId));
    assert_eq!(err("0,2,3,u"), ForceMemeError::Invalid(Segment::GuildId));
    assert_eq!(err("1"), ForceMemeError::Missing(Segment::ChannelId));
    assert_eq!(err("1,x"), ForceMemeError::Invalid(Segment::ChannelId));
    assert_eq!(err("1,2"), ForceMemeError::Missing(Segment::MessageId));
    assert_eq!(err("1,2,0"), ForceMemeError::Invalid(Segment::MessageId));
    assert_eq!(err("1,2,3"), ForceMemeError::Missing(Segment::AttachmentUrl));
}

#[test]
fn force_meme_error_messages() {
    assert_eq!(
        TestSettings::missing_segment(Segment::GuildId),
        "missing guild_id segment of TEST_FORCE_MEME=<guild_id>,<channel_id>,<message_id>,<attachment_url>"
    );
    assert_eq!(
        ForceMemeError::Missing(Segment::AttachmentUrl).message(),
        "missing attachment_url segment of TEST_FORCE_MEME=<guild_id>,<channel_id>,<message_id>,<attachment_url>"
    );
    assert_eq!(
        ForceMemeError::Invalid(Segment::ChannelId).message(),
        "channel_id segment is not a valid NonZeroU64"
    );
}

#[test]
fn channel_ids_are_parsed() {
    assert_eq!(parse_channel_ids("1"), Some(vec![1]));
    assert_eq!(parse_channel_ids("1,22,333"), Some(vec![1, 22, 333]));
    assert_eq!(parse_channel_ids(""), None);
    assert_eq!(parse_channel_ids("1,,2"), None);
    assert_eq!(parse_channel_ids("1,0"), None);
    assert_eq!(parse_channel_ids("1, 2"), None);
}

#[test]
fn config_from_variables() {
    let c = BotConfig::from_vars("tok".to_string(), "/data".to_string(), "5,6", None);
    assert_eq!(c.token, "tok");
    assert_eq!(c.data_folder, "/data");
    assert_eq!(c.channel_ids, vec![5, 6]);
    assert!(c.test_settings.is_none());
    assert!(c.forced_meme().is_none());

    let c = BotConfig::from_vars("t".to_string(), "d".to_string(), "5,5", Some("1,2,3,u"));
    assert_eq!(c.channel_ids, vec![5, 5]);
    assert_eq!(c.forced_meme().unwrap().message_id(), 3);
}

#[test]
fn forced_meme_is_read_alone() {
    let m = read_force_meme("7,8,9,https://cdn/b.gif").unwrap();
    assert_eq!((m.guild_id(), m.channel_id(), m.message_id()), (7, 8, 9));
    assert_eq!(m.meme().url, "https://cdn/b.gif");
}
