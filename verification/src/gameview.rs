//! A session of play: the level that is being played and the game on it,
//! the reaction to what the player enters, and the picture of the grid.

use vstd::prelude::*;
use crate::gamemodel::GameModel;
use crate::geometry::Action;
use crate::geometry::Vec2;
use crate::level::glyph;
use crate::level::glyph_of;
use crate::level::level_rows;
use crate::level::rows_of;
use crate::level::well_formed;
use crate::level::LevelError;
use crate::rules::board_ok;
use crate::rules::initial_state;
use crate::rules::kind_at;
use crate::rules::GameState;
use crate::theorems::lemma_kind_at_next;

verus! {

/// What the player entered: one of the four arrow keys, a character, or
/// anything else.
#[derive(Clone, Copy, Debug, PartialEq, Eq, Hash, Structural)]
pub enum Event {
    Up,
    Down,
    Left,
    Right,
    Char(char),
    Other,
}

/// How a session took an event.
#[derive(Clone, Copy, Debug, PartialEq, Eq, Hash, Structural)]
pub enum EventResult {
    /// The event means nothing to the game.
    Ignored,
    /// The event was a move, and the game has applied it; `won` tells
    /// whether the level is won now.
    Consumed { won: bool },
    /// The player asks to start the level again: load it once more.
    Restart,
}

/// The move that an event asks for: an arrow key, or one of the letters
/// `w`, `a`, `s`, `d`.
pub open spec fn action_of(event: Event) -> Option<Action> {
    match event {
        Event::Up => Some(Action::Up),
        Event::Down => Some(Action::Down),
        Event::Left => Some(Action::Left),
        Event::Right => Some(Action::Right),
        Event::Char(c) => if c == 'w' {
            Some(Action::Up)
        } else if c == 's' {
            Some(Action::Down)
        } else if c == 'a' {
            Some(Action::Left)
        } else if c == 'd' {
            Some(Action::Right)
        } else {
            None
        },
        Event::Other => None,
    }
}

/// Whether an event asks to start the level again: the letter `r`.
pub open spec fn asks_restart(event: Event) -> bool {
    event == Event::Char('r')
}

/// The picture of a state: for each cell of the grid, the character of its
/// tile and of the entity on it.
pub open spec fn picture_of(state: GameState) -> Seq<Seq<char>> {
    Seq::new(
        state.tiles.len(),
        |y: int|
            Seq::new(
                state.tiles[y].len(),
                |x: int|
                    glyph_of(
                        state.tiles[y][x],
                        kind_at(state.objects, Vec2 { x: x as usize, y: y as usize }),
                    ),
            ),
    )
}

/// A level in play: its identifier and the game on it.
pub struct GameView {
    level_id: usize,
    model: GameModel,
}

impl GameView {
    /// The identifier of the level in play.
    pub closed spec fn level(&self) -> usize {
        self.level_id
    }

    /// The state of the game in play.
    pub closed spec fn game(&self) -> GameState {
        self.model@
    }

    /// Starts a session on level `level_id`. `text` is the text of that
    /// level, or `None` where there is no level of that identifier.
    pub fn new(level_id: usize, text: Option<&str>) -> (started: Result<GameView, LevelError>)
        ensures
            match text {
                None => started == Err::<GameView, LevelError>(LevelError::LevelNotFound),
                Some(t) => if well_formed(level_rows(t@)) {
                    &&& started is Ok
                    &&& started.unwrap().level() == level_id
                    &&& started.unwrap().game() == initial_state(level_rows(t@))
                    &&& started.unwrap().game().valid()
                } else {
                    started == Err::<GameView, LevelError>(LevelError::MalformedLevel)
                },
            },
    {
        match text {
            None => Err(LevelError::LevelNotFound),
            Some(t) => match GameModel::new(t) {
                Ok(model) => Ok(GameView { level_id, model }),
                Err(e) => Err(e),
            },
        }
    }

    /// Goes over to level `level_id`, or starts it again. `text` is the
    /// text of that level, or `None` where there is no such level. Where
    /// the level cannot be loaded the session stays as it is.
    pub fn load_level(&mut self, level_id: usize, text: Option<&str>) -> (loaded: Result<
        (),
        LevelError,
    >)
        ensures
            match text {
                None => loaded == Err::<(), LevelError>(LevelError::LevelNotFound),
                Some(t) => if well_formed(level_rows(t@)) {
                    loaded is Ok
                } else {
                    loaded == Err::<(), LevelError>(LevelError::MalformedLevel)
                },
            },
            loaded is Ok ==> final(self).level() == level_id && final(self).game() == initial_state(
                level_rows(text.unwrap()@),
            ),
            loaded is Err ==> final(self).level() == old(self).level() && final(self).game() == old(
                self,
            ).game(),
            final(self).game().valid(),
    {
        proof {
            use_type_invariant(&self.model);
        }
        match text {
            None => Err(LevelError::LevelNotFound),
            Some(t) => match GameModel::new(t) {
                Ok(model) => {
                    self.level_id = level_id;
                    self.model = model;
                    Ok(())
                },
                Err(e) => Err(e),
            },
        }
    }

    /// The identifier of the level in play.
    pub fn get_level(&self) -> (level_id: usize)
        ensures
            level_id == self.level(),
    {
        self.level_id
    }

    /// The game in play.
    pub fn model(&self) -> (model: &GameModel)
        ensures
            model@ == self.game(),
    {
        &self.model
    }

    /// Draws the grid: one row of characters for each row of tiles, each
    /// cell showing its tile, or the entity that stands on it.
    pub fn draw(&self) -> (picture: Vec<Vec<char>>)
        ensures
            rows_of(picture@) == picture_of(self.game()),
    {
        let tilemap = self.model.tilemap();
        let objects = self.model.objects();
        let ghost tiles = self.game().tiles;
        let mut picture: Vec<Vec<char>> = Vec::new();
        for y in 0..tilemap.len()
            invariant
                rows_of(tilemap@) == tiles,
                picture@.len() == y,
                forall|v: int|
                    0 <= v < y ==> (#[trigger] picture@[v])@.len() == tiles[v].len(),
                forall|v: int, u: int|
                    0 <= v < y && 0 <= u < tiles[v].len() ==> #[trigger] picture@[v]@[u]
                        == glyph_of(tiles[v][u], None),
        {
            let row = &tilemap[y];
            let mut line: Vec<char> = Vec::new();
            for x in 0..row.len()
                invariant
                    line@.len() == x,
                    forall|u: int| 0 <= u < x ==> #[trigger] line@[u] == glyph_of(row@[u], None),
            {
                line.push(glyph(row[x], None));
            }
            picture.push(line);
        }
        for i in 0..objects.len()
            invariant
                rows_of(tilemap@) == tiles,
                board_ok(tiles, objects@),
                picture@.len() == tiles.len(),
                forall|v: int|
                    0 <= v < tiles.len() ==> (#[trigger] picture@[v])@.len() == tiles[v].len(),
                forall|v: int, u: int|
                    0 <= v < tiles.len() && 0 <= u < tiles[v].len() ==> #[trigger] picture@[v]@[u]
                        == glyph_of(
                        tiles[v][u],
                        kind_at(objects@.take(i as int), Vec2 { x: u as usize, y: v as usize }),
                    ),
        {
            let object = objects[i];
            let tile = tilemap[object.pos.y][object.pos.x];
            picture[object.pos.y][object.pos.x] = glyph(tile, Some(object.kind));
            proof {
                assert forall|pos: Vec2| #[trigger]
                    kind_at(objects@.take(i + 1), pos) == (if object.pos == pos {
                        Some(object.kind)
                    } else {
                        kind_at(objects@.take(i as int), pos)
                    }) by {
                    lemma_kind_at_next(tiles, objects@, i as int, pos);
                }
                assert forall|v: int, u: int|
                    0 <= v < tiles.len() && 0 <= u < tiles[v].len() implies #[trigger] picture@[v]@[u]
                    == glyph_of(
                    tiles[v][u],
                    kind_at(objects@.take(i + 1), Vec2 { x: u as usize, y: v as usize }),
                ) by {
                    assert(tiles[v].len() == tilemap@[v].len());
                    assert(tiles.len() == tilemap.len());
                }
            }
        }
        assert(objects@.take(objects@.len() as int) == objects@);
        assert forall|v: int| 0 <= v < tiles.len() implies rows_of(picture@)[v] == picture_of(
            self.game(),
        )[v] by {}
        picture
    }

    /// Takes an event. A move is applied to the game and answered with
    /// whether the level is won. A request to restart is handed back: the
    /// level's text has to be fetched and loaded anew. Anything else is
    /// ignored.
    pub fn on_event(&mut self, event: Event) -> (result: EventResult)
        ensures
            final(self).level() == old(self).level(),
            final(self).game().valid(),
            match action_of(event) {
                Some(action) => {
                    &&& final(self).game() == old(self).game().step(action)
                    &&& result == (EventResult::Consumed { won: final(self).game().won() })
                },
                None => {
                    &&& final(self).game() == old(self).game()
                    &&& result == if asks_restart(event) {
                        EventResult::Restart
                    } else {
                        EventResult::Ignored
                    }
                },
            },
    {
        proof {
            use_type_invariant(&self.model);
        }
        let action = match event {
            Event::Up | Event::Char('w') => Action::Up,
            Event::Down | Event::Char('s') => Action::Down,
            Event::Left | Event::Char('a') => Action::Left,
            Event::Right | Event::Char('d') => Action::Right,
            Event::Char('r') => {
                return EventResult::Restart;
            },
            _ => {
                return EventResult::Ignored;
            },
        };
        self.model.do_action(action);
        EventResult::Consumed { won: self.model.has_won() }
    }
}

} // verus!
