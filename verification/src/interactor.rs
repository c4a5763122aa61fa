//! The interactions the bot answers: slash commands and button presses.
use vstd::prelude::*;

verus! {

/// A Discord user, as far as the bot needs one.
#[derive(Debug, Clone, Copy, PartialEq, Eq, Structural)]
pub struct User {
    pub id: u64,
}

/// A slash command: its name and who issued it.
#[derive(Debug)]
pub struct CommandInteraction {
    pub name: String,
    pub user: User,
}

/// A button press: the button's id and who pressed it.
#[derive(Debug)]
pub struct ComponentInteraction {
    pub custom_id: String,
    pub user: User,
}

/// An interaction to answer.
#[derive(Debug)]
pub enum Interactor {
    Command(Box<CommandInteraction>),
    Message(Box<ComponentInteraction>),
}

impl Interactor {
    /// The user who issued the command or pressed the button.
    pub fn user(&self) -> (r: &User)
        ensures
            *r == (match self {
                Interactor::Command(aci) => aci.user,
                Interactor::Message(mci) => mci.user,
            }),
    {
        match self {
            Interactor::Command(aci) => &aci.user,
            Interactor::Message(mci) => &mci.user,
        }
    }

    /// The text that selects what to do: the command's name or the button's
    /// id.
    pub fn command_text(&self) -> (r: &String)
        ensures
            r@ == (match self {
                Interactor::Command(aci) => aci.name@,
                Interactor::Message(mci) => mci.custom_id@,
            }),
    {
        match self {
            Interactor::Command(aci) => &aci.name,
            Interactor::Message(mci) => &mci.custom_id,
        }
    }
}

} // verus!
