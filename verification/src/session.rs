//! An editing session: the save game that is open, the error and the notice
//! that are shown, and what the events from the worker do to them.
//!
//! The session does not look into a save game or into a head morph: both are
//! carried as they come. Time is counted in milliseconds.

use vstd::prelude::*;

verus! {

/// For how long a notice is shown, in milliseconds.
pub const NOTIFICATION_TIME: u64 = 1500;

/// The games and editions that a save game can come from.
#[derive(Clone, Copy, Debug, PartialEq, Eq, Structural)]
pub enum Game {
    MassEffect1,
    MassEffect1Le,
    MassEffect2,
    MassEffect2Le,
    MassEffect3,
}

/// The colour themes, one for each game.
#[derive(Clone, Copy, Debug, PartialEq, Eq, Structural)]
pub enum Theme {
    MassEffect1,
    MassEffect2,
    MassEffect3,
}

/// An open save game: its game, the file it came from, and the save itself.
pub struct SaveGame<S> {
    pub game: Game,
    pub file_path: String,
    pub save_game: S,
}

/// The head morph of a character, where it has one.
pub struct HasHeadMorph<M> {
    pub has_head_morph: bool,
    pub head_morph: Option<M>,
}

/// The record of a save game that holds the character's head morph.
#[derive(Clone, Copy, Debug, PartialEq, Eq, Structural)]
pub enum MorphPlace {
    /// The player record of the save data, in the remastered first game.
    SaveDataPlayer,
    /// The appearance of the player, in the later games.
    PlayerAppearance,
}

/// What the worker tells the session.
pub enum UiEvent<S, M> {
    /// Something failed: the messages of the error and of its causes,
    /// outermost first.
    Error(Vec<String>),
    /// Something is worth a notice.
    Notification(&'static str),
    /// A save game was opened.
    OpenedSave(SaveGame<S>),
    /// A head morph was read from a file.
    ImportedHeadMorph(Box<M>),
}

/// A notice and the time at which it goes away.
#[derive(Clone, Copy, Debug)]
pub struct NotificationState {
    pub string: &'static str,
    pub close_time: u64,
}

/// What the session shows.
pub struct State<S> {
    pub save_game: Option<SaveGame<S>>,
    pub error: Option<Vec<String>>,
    pub notification: Option<NotificationState>,
}

/// A head morph to be put into the open save game, and the record to put it
/// into.
pub struct MorphImport<M> {
    pub place: MorphPlace,
    pub head_morph: HasHeadMorph<M>,
}

/// The record that holds the head morph in a save game of the given game, or
/// nothing for the first game, which keeps none.
pub open spec fn morph_place(game: Game) -> Option<MorphPlace> {
    match game {
        Game::MassEffect1 => None,
        Game::MassEffect1Le => Some(MorphPlace::SaveDataPlayer),
        Game::MassEffect2 => Some(MorphPlace::PlayerAppearance),
        Game::MassEffect2Le => Some(MorphPlace::PlayerAppearance),
        Game::MassEffect3 => Some(MorphPlace::PlayerAppearance),
    }
}

/// The record that holds the head morph in the open save game, where one is
/// open and keeps a head morph.
pub open spec fn morph_place_of(game: Option<Game>) -> Option<MorphPlace> {
    match game {
        Some(game) => morph_place(game),
        None => None,
    }
}

/// The time at which a notice raised at `now` goes away.
pub open spec fn closing_time(now: u64) -> u64 {
    if now + NOTIFICATION_TIME > u64::MAX {
        u64::MAX
    } else {
        (now + NOTIFICATION_TIME) as u64
    }
}

/// The theme that an open save game is shown in; the third game's theme
/// where none is open.
pub open spec fn theme_for(game: Option<Game>) -> Theme {
    match game {
        None => Theme::MassEffect3,
        Some(Game::MassEffect1) => Theme::MassEffect1,
        Some(Game::MassEffect1Le) => Theme::MassEffect1,
        Some(Game::MassEffect2) => Theme::MassEffect2,
        Some(Game::MassEffect2Le) => Theme::MassEffect2,
        Some(Game::MassEffect3) => Theme::MassEffect3,
    }
}

impl<S> State<S> {
    /// A session without a save game, an error or a notice.
    pub fn new() -> (state: State<S>)
        ensures
            state.save_game is None,
            state.error is None,
            state.notification is None,
    {
        State { save_game: None, error: None, notification: None }
    }

    /// The game of the open save game, where one is open.
    pub open spec fn game(&self) -> Option<Game> {
        match self.save_game {
            Some(save) => Some(save.game),
            None => None,
        }
    }

    /// Takes in an event at the time `now`. An error and a notice are shown,
    /// a notice for [`NOTIFICATION_TIME`]; an opened save game takes the
    /// place of the one that was open. A head morph is handed back together
    /// with the record of the open save game that it goes into; it can only
    /// come while a save game that keeps a head morph is open.
    pub fn handle<M>(&mut self, event: UiEvent<S, M>, now: u64) -> (import: Option<MorphImport<M>>)
        requires
            event is ImportedHeadMorph ==> morph_place_of(old(self).game()) is Some,
        ensures
            match event {
                UiEvent::Error(messages) => {
                    &&& import is None
                    &&& *final(self) == (State { error: Some(messages), ..*old(self) })
                },
                UiEvent::Notification(string) => {
                    &&& import is None
                    &&& *final(self) == (State {
                        notification: Some(
                            NotificationState { string, close_time: closing_time(now) },
                        ),
                        ..*old(self)
                    })
                },
                UiEvent::OpenedSave(save) => {
                    &&& import is None
                    &&& *final(self) == (State { save_game: Some(save), ..*old(self) })
                },
                UiEvent::ImportedHeadMorph(head_morph) => {
                    &&& *final(self) == *old(self)
                    &&& import matches Some(found)
                    &&& Some(found.place) == morph_place_of(old(self).game())
                    &&& found.head_morph == (HasHeadMorph {
                        has_head_morph: true,
                        head_morph: Some(*head_morph),
                    })
                },
            },
    {
        match event {
            UiEvent::Error(messages) => {
                self.error = Some(messages);
                None
            },
            UiEvent::Notification(string) => {
                let close_time = if now > u64::MAX - NOTIFICATION_TIME {
                    u64::MAX
                } else {
                    now + NOTIFICATION_TIME
                };
                self.notification = Some(NotificationState { string, close_time });
                None
            },
            UiEvent::OpenedSave(save) => {
                self.save_game = Some(save);
                None
            },
            UiEvent::ImportedHeadMorph(head_morph) => {
                let game = match &self.save_game {
                    Some(save) => save.game,
                    None => Game::MassEffect1,
                };
                let place = match game {
                    Game::MassEffect1Le => MorphPlace::SaveDataPlayer,
                    _ => MorphPlace::PlayerAppearance,
                };
                Some(
                    MorphImport {
                        place,
                        head_morph: HasHeadMorph {
                            has_head_morph: true,
                            head_morph: Some(*head_morph),
                        },
                    },
                )
            },
        }
    }

    /// Takes the error away, once it was read.
    pub fn dismiss_error(&mut self)
        ensures
            *final(self) == (State { error: None, ..*old(self) }),
    {
        self.error = None;
    }

    /// Takes the notice away once its time is over.
    pub fn expire_notification(&mut self, now: u64)
        ensures
            *final(self) == (State {
                notification: match old(self).notification {
                    Some(notice) if notice.close_time < now => None,
                    other => other,
                },
                ..*old(self)
            }),
    {
        let over = match &self.notification {
            Some(notice) => notice.close_time < now,
            None => false,
        };
        if over {
            self.notification = None;
        }
    }

    /// The theme that the session is shown in.
    pub fn theme(&self) -> (theme: Theme)
        ensures
            theme == theme_for(self.game()),
    {
        match &self.save_game {
            None => Theme::MassEffect3,
            Some(save) => match save.game {
                Game::MassEffect1 | Game::MassEffect1Le => Theme::MassEffect1,
                Game::MassEffect2 | Game::MassEffect2Le => Theme::MassEffect2,
                Game::MassEffect3 => Theme::MassEffect3,
            },
        }
    }
}

/// What the save dialog says of the files of a game.
pub open spec fn save_description(game: Game) -> Seq<char> {
    match game {
        Game::MassEffect1 => "Mass Effect 1 Save (*.MassEffectSave)"@,
        Game::MassEffect1Le => "Mass Effect 1 Legendary Save (*.pcsav)"@,
        Game::MassEffect2 => "Mass Effect 2 Save (*.pcsav)"@,
        Game::MassEffect2Le => "Mass Effect 2 Save (*.pcsav)"@,
        Game::MassEffect3 => "Mass Effect 3 Save (*.pcsav)"@,
    }
}

/// The pattern of the names of the files of a game.
pub open spec fn save_extension(game: Game) -> Seq<char> {
    match game {
        Game::MassEffect1 => "*.MassEffectSave"@,
        _ => "*.pcsav"@,
    }
}

/// The kinds of file that a save game of a game is written as: what the
/// dialog says of them, and the pattern of their names.
pub struct SaveFilter {
    pub description: &'static str,
    pub extension: &'static str,
}

/// What the save dialog offers for a save game of the given game.
pub fn save_filter(game: Game) -> (filter: SaveFilter)
    ensures
        filter.description@ == save_description(game),
        filter.extension@ == save_extension(game),
{
    match game {
        Game::MassEffect1 => SaveFilter {
            description: "Mass Effect 1 Save (*.MassEffectSave)",
            extension: "*.MassEffectSave",
        },
        Game::MassEffect1Le => SaveFilter {
            description: "Mass Effect 1 Legendary Save (*.pcsav)",
            extension: "*.pcsav",
        },
        Game::MassEffect2 | Game::MassEffect2Le => SaveFilter {
            description: "Mass Effect 2 Save (*.pcsav)",
            extension: "*.pcsav",
        },
        Game::MassEffect3 => SaveFilter {
            description: "Mass Effect 3 Save (*.pcsav)",
            extension: "*.pcsav",
        },
    }
}

} // verus!
