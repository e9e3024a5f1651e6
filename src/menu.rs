//! The options of the game's menus.
use vstd::prelude::*;

verus! {

/// The entries of the main menu.
#[derive(Clone, Copy, PartialEq, Eq, Structural, Debug)]
pub enum MainMenuOptions {
    NewGame,
    Statistics,
    Quit,
}

impl MainMenuOptions {
    /// The entries in the order the menu lists them.
    pub open spec fn listed() -> Seq<MainMenuOptions> {
        seq![MainMenuOptions::NewGame, MainMenuOptions::Statistics, MainMenuOptions::Quit]
    }

    pub open spec fn text(self) -> &'static str {
        match self {
            MainMenuOptions::NewGame => "New Game",
            MainMenuOptions::Statistics => "Statistics",
            MainMenuOptions::Quit => "Quit",
        }
    }

    /// All entries, in menu order.
    pub fn iter() -> (r: Vec<MainMenuOptions>)
        ensures
            r@ == MainMenuOptions::listed(),
    {
        let r = vec![MainMenuOptions::NewGame, MainMenuOptions::Statistics, MainMenuOptions::Quit];
        assert(r@ == MainMenuOptions::listed());
        r
    }

    /// The text shown for this entry.
    pub fn label(&self) -> (r: &'static str)
        ensures
            r == self.text(),
    {
        match self {
            MainMenuOptions::NewGame => "New Game",
            MainMenuOptions::Statistics => "Statistics",
            MainMenuOptions::Quit => "Quit",
        }
    }
}

/// The entries of the new-game menu.
#[derive(Clone, Copy, PartialEq, Eq, Structural, Debug)]
pub enum NewGameMenuOptions {
    PlayComputer,
    JoinGame,
    HostGame,
    Back,
}

impl NewGameMenuOptions {
    /// The entries in the order the menu lists them.
    pub open spec fn listed() -> Seq<NewGameMenuOptions> {
        seq![
            NewGameMenuOptions::PlayComputer,
            NewGameMenuOptions::JoinGame,
            NewGameMenuOptions::HostGame,
            NewGameMenuOptions::Back,
        ]
    }

    pub open spec fn text(self) -> &'static str {
        match self {
            NewGameMenuOptions::PlayComputer => "Player against Computer",
            NewGameMenuOptions::JoinGame => "Join Game",
            NewGameMenuOptions::HostGame => "Host Game",
            NewGameMenuOptions::Back => "Back",
        }
    }

    /// All entries, in menu order.
    pub fn iter() -> (r: Vec<NewGameMenuOptions>)
        ensures
            r@ == NewGameMenuOptions::listed(),
    {
        let r = vec![
            NewGameMenuOptions::PlayComputer,
            NewGameMenuOptions::JoinGame,
            NewGameMenuOptions::HostGame,
            NewGameMenuOptions::Back,
        ];
        assert(r@ == NewGameMenuOptions::listed());
        r
    }

    /// The text shown for this entry.
    pub fn label(&self) -> (r: &'static str)
        ensures
            r == self.text(),
    {
        match self {
            NewGameMenuOptions::PlayComputer => "Player against Computer",
            NewGameMenuOptions::JoinGame => "Join Game",
            NewGameMenuOptions::HostGame => "Host Game",
            NewGameMenuOptions::Back => "Back",
        }
    }
}

} // verus!
