use botofgreed::command::{
    command_name, info_message, no_meme_message, route_command, triggered_by_message, CommandKind,
    Route,
};
use botofgreed::index::Timestamp;
use botofgreed::op::op_custom_id;

#[test]
fn command_names() {
    assert_eq!(command_name(CommandKind::Greed, false), "greed");
    assert_eq!(command_name(CommandKind::Memedex, false), "memedex");
    assert_eq!(command_name(CommandKind::Info, false), "info");
    assert_eq!(command_name(CommandKind::Greed, true), "nightly_greed");
    assert_eq!(command_name(CommandKind::Memedex, true), "nightly_memedex");
    assert_eq!(command_name(CommandKind::Info, true), "nightly_info");
}

#[test]
fn route_commands_by_name() {
    assert!(matches!(route_command("greed", false), Route::Command(CommandKind::Greed)));
    assert!(matches!(route_command("memedex", false), Route::Command(CommandKind::Memedex)));
    assert!(matches!(route_command("info", false), Route::Command(CommandKind::Info)));
    assert!(matches!(route_command("nightly_info", true), Route::Command(CommandKind::Info)));
    assert!(matches!(route_command("greed", true), Route::Unknown));
    assert!(matches!(route_command("GREED", false), Route::Unknown));
    assert!(matches!(route_command("", false), Route::Unknown));
}

#[test]
fn route_sauce_buttons() {
    match route_command(&op_custom_id(1, 2, 3), false) {
        Route::Op(op) => assert_eq!((op.guild_id(), op.channel_id(), op.message_id()), (1, 2, 3)),
        other => panic!("unexpected route {:?}", other),
    }
    assert!(matches!(route_command("op_1_2", false), Route::Unknown));
    assert!(matches!(route_command("op_x_2_3", false), Route::Unknown));
    // only texts starting with `op_` are sauce buttons
    assert!(matches!(route_command("xx_1_2_3", false), Route::Unknown));
}

#[test]
fn greed_texts() {
    assert_eq!(triggered_by_message(42, "https://cdn/x.png"), "Triggered by <@42>\nhttps://cdn/x.png");
    assert_eq!(
        no_meme_message(false),
        "Failed to retreive a meme (have you ran `/memedex` yet?)"
    );
    assert_eq!(
        no_meme_message(true),
        "Failed to retreive a meme (have you ran `/nightly_memedex` yet?)"
    );
}

#[test]
fn info_text_without_data() {
    assert_eq!(
        info_message("1.2.3", None, 5, None),
        "```\nVersion: 1.2.3\nLast indexed at: never\nMemes indexed: 5\nUptime: unknown\n```"
    );
}

#[test]
fn info_text_with_time_and_uptime() {
    let at = Timestamp { secs: 1431648000, nanos: 0 };
    assert_eq!(
        info_message("0.1.0", Some(at), 0, Some((9420, 0))),
        "```\nVersion: 0.1.0\nLast indexed at: 05-15-2015 00:00:00\nMemes indexed: 0\nUptime: 2h 37m\n```"
    );
    assert_eq!(
        info_message("v", None, 1, Some((0, 32_000_000))),
        "```\nVersion: v\nLast indexed at: never\nMemes indexed: 1\nUptime: 32ms\n```"
    );
}

#[test]
fn info_text_with_unrepresentable_time() {
    let at = Timestamp { secs: i64::MAX, nanos: 0 };
    assert!(info_message("v", Some(at), 0, None).contains("Last indexed at: never"));
}
