//! Games as a list shows them: no more than which game it is and when it
//! started.

use crate::timestamp::Timestamp;
use uuid::Uuid;
use vstd::prelude::*;

verus! {

/// A game in a list of games.
#[derive(Clone, Copy, Debug)]
pub struct GamePreview {
    game_id: Uuid,
    start_time: Timestamp,
}

/// What the preview of a persisted game is made of.
pub struct LoadGamePreviewParameters {
    pub game_id: Uuid,
    pub start_time: Timestamp,
}

/// A list of games.
pub struct Schedule {
    game_previews: Vec<GamePreview>,
}

impl View for GamePreview {
    type V = (Uuid, Timestamp);

    closed spec fn view(&self) -> (Uuid, Timestamp) {
        (self.game_id, self.start_time)
    }
}

impl View for Schedule {
    type V = Seq<GamePreview>;

    closed spec fn view(&self) -> Seq<GamePreview> {
        self.game_previews@
    }
}

impl GamePreview {
    /// The preview of the persisted game that `parameters` describe.
    pub fn load(parameters: LoadGamePreviewParameters) -> (preview: GamePreview)
        ensures
            preview@ == (parameters.game_id, parameters.start_time),
    {
        let LoadGamePreviewParameters { game_id, start_time } = parameters;
        GamePreview { game_id, start_time }
    }

    pub fn new(game_id: Uuid, start_time: Timestamp) -> (preview: GamePreview)
        ensures
            preview@ == (game_id, start_time),
    {
        GamePreview { game_id, start_time }
    }

    pub fn game_id(&self) -> (game_id: Uuid)
        ensures
            game_id == self@.0,
    {
        self.game_id
    }

    pub fn start_time(&self) -> (start_time: Timestamp)
        ensures
            start_time == self@.1,
    {
        self.start_time
    }
}

impl Schedule {
    pub fn game_previews(&self) -> (game_previews: &[GamePreview])
        ensures
            game_previews@ == self@,
    {
        self.game_previews.as_slice()
    }

    pub fn into_game_previews(self) -> (game_previews: Vec<GamePreview>)
        ensures
            game_previews@ == self@,
    {
        self.game_previews
    }

    pub fn new(game_previews: Vec<GamePreview>) -> (schedule: Schedule)
        ensures
            schedule@ == game_previews@,
    {
        Schedule { game_previews }
    }
}

} // verus!
