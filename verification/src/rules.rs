//! The rules of the game, stated over mathematical values: what a move
//! does to the entities, what an undo restores, when the level is won, and
//! which states can arise at all.

use vstd::prelude::*;
use crate::geometry::Action;
use crate::geometry::Vec2;
use crate::level::objects_of;
use crate::level::tiles_of;
use crate::level::Object;
use crate::level::ObjectKind;
use crate::level::Tile;

verus! {

/// The tile at a position, or `None` where the position lies outside the
/// grid. Rows may differ in length: each row ends where its text ended.
pub open spec fn tile_at(tiles: Seq<Seq<Tile>>, pos: Vec2) -> Option<Tile> {
    if pos.y < tiles.len() && pos.x < tiles[pos.y as int].len() {
        Some(tiles[pos.y as int][pos.x as int])
    } else {
        None
    }
}

/// Whether an entity may stand at a position: it lies inside the grid and
/// its tile is no wall.
pub open spec fn open_at(tiles: Seq<Seq<Tile>>, pos: Vec2) -> bool {
    tile_at(tiles, pos) == Some(Tile::Floor) || tile_at(tiles, pos) == Some(Tile::Goal)
}

/// Whether some entity stands at a position.
pub open spec fn occupied(objects: Seq<Object>, pos: Vec2) -> bool {
    exists|i: int| 0 <= i < objects.len() && (#[trigger] objects[i]).pos == pos
}

/// The index of an entity that stands at a position. Where positions are
/// unique (see `board_ok`) there is exactly one.
pub open spec fn occupant(objects: Seq<Object>, pos: Vec2) -> int {
    choose|i: int| 0 <= i < objects.len() && (#[trigger] objects[i]).pos == pos
}

/// The kind of the entity that stands at a position, if one does.
pub open spec fn kind_at(objects: Seq<Object>, pos: Vec2) -> Option<ObjectKind> {
    if occupied(objects, pos) {
        Some(objects[occupant(objects, pos)].kind)
    } else {
        None
    }
}

/// Whether entity `i`, moving in direction `a`, runs into another entity
/// that it may push: `i` is a player, and its destination is open and
/// occupied. A box never pushes.
pub open spec fn pushes(tiles: Seq<Seq<Tile>>, objects: Seq<Object>, i: int, a: Action) -> bool {
    let pos = objects[i].pos;
    &&& objects[i].kind == ObjectKind::Player
    &&& pos.can_step(a)
    &&& open_at(tiles, pos.stepped(a))
    &&& occupied(objects, pos.stepped(a))
}

/// The entities that a move of entity `i` in direction `a` tries to
/// relocate, in order: `i` itself, then the entity that it pushes, then the
/// one that this one pushes, and so on.
pub open spec fn chain(tiles: Seq<Seq<Tile>>, objects: Seq<Object>, i: int, a: Action) -> Seq<int>
    decreases objects[i].pos.room(a),
{
    if pushes(tiles, objects, i, a) {
        seq![i] + chain(tiles, objects, occupant(objects, objects[i].pos.stepped(a)), a)
    } else {
        seq![i]
    }
}

/// Whether the move of entity `i` in direction `a` succeeds: its
/// destination is open, and is either free or held by an entity that `i`
/// may push and whose own move succeeds.
pub open spec fn can_move(tiles: Seq<Seq<Tile>>, objects: Seq<Object>, i: int, a: Action) -> bool
    decreases objects[i].pos.room(a),
{
    let pos = objects[i].pos;
    &&& pos.can_step(a)
    &&& open_at(tiles, pos.stepped(a))
    &&& (occupied(objects, pos.stepped(a)) ==> {
        &&& objects[i].kind == ObjectKind::Player
        &&& can_move(tiles, objects, occupant(objects, pos.stepped(a)), a)
    })
}

/// The entities after each of `movers` has gone one step in direction `a`.
pub open spec fn shift(objects: Seq<Object>, movers: Seq<int>, a: Action) -> Seq<Object> {
    Seq::new(
        objects.len(),
        |k: int|
            if movers.contains(k) {
                Object { pos: objects[k].pos.stepped(a), kind: objects[k].kind }
            } else {
                objects[k]
            },
    )
}

/// The undo frame of a move: the position of each entity that the move
/// visited, as it was before the move.
pub open spec fn frame_of(objects: Seq<Object>, visited: Seq<int>) -> Map<usize, Vec2> {
    Map::new(|k: usize| visited.contains(k as int), |k: usize| objects[k as int].pos)
}

/// The entities after each position that a frame recorded has been put back.
pub open spec fn restore(objects: Seq<Object>, frame: Map<usize, Vec2>) -> Seq<Object> {
    Seq::new(
        objects.len(),
        |k: int|
            if frame.contains_key(k as usize) {
                Object { pos: frame[k as usize], kind: objects[k].kind }
            } else {
                objects[k]
            },
    )
}

/// Whether `i` is the first player among the entities.
pub open spec fn is_first_player(objects: Seq<Object>, i: int) -> bool {
    &&& 0 <= i < objects.len()
    &&& objects[i].kind == ObjectKind::Player
    &&& forall|j: int| 0 <= j < i ==> (#[trigger] objects[j]).kind != ObjectKind::Player
}

/// The index of the entity under control: the first player, if there is one.
pub open spec fn first_player(objects: Seq<Object>) -> Option<int> {
    if exists|i: int| is_first_player(objects, i) {
        Some(choose|i: int| is_first_player(objects, i))
    } else {
        None
    }
}

/// Entities and grid fit together: every entity stands on an open tile of
/// the grid, and no two entities share a position.
pub open spec fn board_ok(tiles: Seq<Seq<Tile>>, objects: Seq<Object>) -> bool {
    &&& objects.len() <= usize::MAX
    &&& forall|i: int| 0 <= i < objects.len() ==> open_at(tiles, (#[trigger] objects[i]).pos)
    &&& forall|i: int, j: int|
        0 <= i < j < objects.len() ==> (#[trigger] objects[i]).pos != (#[trigger] objects[j]).pos
}

/// Every frame of an undo history leads back to a board that is in order.
pub open spec fn history_ok(
    tiles: Seq<Seq<Tile>>,
    objects: Seq<Object>,
    history: Seq<Map<usize, Vec2>>,
) -> bool
    decreases history.len(),
{
    history.len() > 0 ==> {
        let before = restore(objects, history.last());
        &&& board_ok(tiles, before)
        &&& history_ok(tiles, before, history.drop_last())
    }
}

/// A state of the game: the grid, the entities, and the undo history with
/// its most recent frame last.
#[verifier::ext_equal]
pub struct GameState {
    pub tiles: Seq<Seq<Tile>>,
    pub objects: Seq<Object>,
    pub history: Seq<Map<usize, Vec2>>,
}

impl GameState {
    /// The states that play can reach: the board is in order now, and was
    /// at every point that the history can lead back to.
    pub open spec fn valid(self) -> bool {
        &&& board_ok(self.tiles, self.objects)
        &&& history_ok(self.tiles, self.objects, self.history)
    }

    /// The state after the player was asked to move in direction `a`.
    ///
    /// A frame is added to the history in any case. With no player among
    /// the entities the frame is empty and nothing moves. Otherwise the
    /// frame records the chain of entities that the move visits, and they
    /// all go one step if the move succeeds, and none does if it fails.
    pub open spec fn step(self, a: Action) -> GameState {
        match first_player(self.objects) {
            None => GameState {
                tiles: self.tiles,
                objects: self.objects,
                history: self.history.push(Map::empty()),
            },
            Some(p) => {
                let visited = chain(self.tiles, self.objects, p, a);
                GameState {
                    tiles: self.tiles,
                    objects: if can_move(self.tiles, self.objects, p, a) {
                        shift(self.objects, visited, a)
                    } else {
                        self.objects
                    },
                    history: self.history.push(frame_of(self.objects, visited)),
                }
            },
        }
    }

    /// The state after the most recent frame was taken off the history and
    /// its positions put back. With an empty history, the state itself.
    pub open spec fn undo(self) -> GameState {
        if self.history.len() == 0 {
            self
        } else {
            GameState {
                tiles: self.tiles,
                objects: restore(self.objects, self.history.last()),
                history: self.history.drop_last(),
            }
        }
    }

    /// Whether the level is won: every box stands on a goal.
    pub open spec fn won(self) -> bool {
        forall|i: int|
            0 <= i < self.objects.len() && (#[trigger] self.objects[i]).kind == ObjectKind::Box
                ==> tile_at(self.tiles, self.objects[i].pos) == Some(Tile::Goal)
    }
}

/// The state in which a level starts: its grid and entities as loaded, and
/// an empty history.
pub open spec fn initial_state(rows: Seq<Seq<char>>) -> GameState {
    GameState { tiles: tiles_of(rows), objects: objects_of(rows), history: Seq::empty() }
}

/// One request of a player to the game.
#[derive(Clone, Copy, Debug, PartialEq, Eq, Hash, Structural)]
pub enum Command {
    /// Move in a direction.
    Move(Action),
    /// Take back the most recent move.
    Undo,
}

impl GameState {
    /// The state after one command.
    pub open spec fn run(self, command: Command) -> GameState {
        match command {
            Command::Move(a) => self.step(a),
            Command::Undo => self.undo(),
        }
    }

    /// The state after a series of commands, first to last.
    pub open spec fn run_all(self, commands: Seq<Command>) -> GameState
        decreases commands.len(),
    {
        if commands.len() == 0 {
            self
        } else {
            self.run_all(commands.drop_last()).run(commands.last())
        }
    }

    /// The state after a series of moves, first to last.
    pub open spec fn step_all(self, actions: Seq<Action>) -> GameState
        decreases actions.len(),
    {
        if actions.len() == 0 {
            self
        } else {
            self.step_all(actions.drop_last()).step(actions.last())
        }
    }

    /// The state after `n` undos in a row.
    pub open spec fn undo_times(self, n: nat) -> GameState
        decreases n,
    {
        if n == 0 {
            self
        } else {
            self.undo().undo_times((n - 1) as nat)
        }
    }
}

} // verus!
