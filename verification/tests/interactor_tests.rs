use botofgreed::interactor::{CommandInteraction, ComponentInteraction, Interactor, User};

#[test]
fn user_and_command_text() {
    let cmd = Interactor::Command(Box::new(CommandInteraction { name: "greed".to_string(), user: User { id: 7 } }));
    assert_eq!(cmd.user().id, 7);
    assert_eq!(cmd.command_text(), "greed");
    let button = Interactor::Message(Box::new(ComponentInteraction {
        custom_id: "op_1_2_3".to_string(),
        user: User { id: 8 },
    }));
    assert_eq!(button.user().id, 8);
    assert_eq!(button.command_text(), "op_1_2_3");
}
