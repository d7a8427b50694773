//! The game engine: it owns the grid, the entities and the undo history,
//! applies moves, takes them back, and tells when the level is won.

use std::collections::HashMap;
use vstd::prelude::*;
use crate::geometry::Action;
use crate::geometry::Vec2;
use crate::level::level_rows;
use crate::level::load;
use crate::level::objects_of;
use crate::level::rows_of;
use crate::level::well_formed;
use crate::level::LevelError;
use crate::level::Object;
use crate::level::ObjectKind;
use crate::level::Tile;
use crate::rules::board_ok;
use crate::rules::can_move;
use crate::rules::chain;
use crate::rules::first_player;
use crate::rules::frame_of;
use crate::rules::initial_state;
use crate::rules::occupied;
use crate::rules::restore;
use crate::rules::shift;
use crate::rules::tile_at;
use crate::rules::GameState;
use crate::theorems::lemma_chain_shape;
use crate::theorems::lemma_frame_push;
use crate::theorems::lemma_no_objects;
use crate::theorems::lemma_shift_next;
use crate::theorems::lemma_first_player_unique;
use crate::theorems::lemma_no_player;
use crate::theorems::lemma_occupant_unique;
use crate::theorems::theorem_level_board_ok;
use crate::theorems::theorem_step;
use crate::theorems::theorem_undo;

verus! {

broadcast use vstd::std_specs::hash::group_hash_axioms;

/// The frames that a stack of undo maps holds, oldest first.
pub open spec fn frames_of(stack: Seq<HashMap<usize, Vec2>>) -> Seq<Map<usize, Vec2>> {
    Seq::new(stack.len(), |i: int| stack[i]@)
}

/// A game in progress on one level.
///
/// Its fields are private and every value of the type is a valid state of
/// the game (see `GameState::valid`): the entities stand inside the grid,
/// none on a wall and no two at one place, and so they did at every point
/// that the undo history leads back to.
pub struct GameModel {
    tilemap: Vec<Vec<Tile>>,
    objects: Vec<Object>,
    undo_states: Vec<HashMap<usize, Vec2>>,
}

impl View for GameModel {
    type V = GameState;

    closed spec fn view(&self) -> GameState {
        GameState {
            tiles: rows_of(self.tilemap@),
            objects: self.objects@,
            history: frames_of(self.undo_states@),
        }
    }
}

/// Looks up the tile at a position of the grid.
fn tile_of(tilemap: &Vec<Vec<Tile>>, pos: Vec2) -> (tile: Option<Tile>)
    ensures
        tile == tile_at(rows_of(tilemap@), pos),
{
    if pos.y < tilemap.len() {
        let row = &tilemap[pos.y];
        if pos.x < row.len() {
            Some(row[pos.x])
        } else {
            None
        }
    } else {
        None
    }
}

/// Finds the first entity that stands at a position.
fn occupant_of(objects: &Vec<Object>, pos: Vec2) -> (found: Option<usize>)
    ensures
        found is Some <==> occupied(objects@, pos),
        found matches Some(j) ==> j < objects.len() && objects[j as int].pos == pos,
{
    let mut j: usize = 0;
    while j < objects.len()
        invariant
            j <= objects.len(),
            forall|k: int| 0 <= k < j ==> (#[trigger] objects[k]).pos != pos,
        decreases objects.len() - j,
    {
        if objects[j].pos == pos {
            return Some(j);
        }
        j += 1;
    }
    None
}

/// Finds the entity under control: the first player.
fn player_of(objects: &Vec<Object>) -> (found: Option<usize>)
    ensures
        match found {
            Some(p) => first_player(objects@) == Some(p as int) && p < objects.len(),
            None => first_player(objects@) is None,
        },
{
    let mut i: usize = 0;
    while i < objects.len()
        invariant
            i <= objects.len(),
            forall|k: int| 0 <= k < i ==> (#[trigger] objects[k]).kind != ObjectKind::Player,
        decreases objects.len() - i,
    {
        if objects[i].kind == ObjectKind::Player {
            proof {
                lemma_first_player_unique(objects@, i as int);
            }
            return Some(i);
        }
        i += 1;
    }
    proof {
        lemma_no_player(objects@);
    }
    None
}

/// Resolves the move of one entity in direction `action`, pushes included.
///
/// Walks along the chain of entities that the move visits and notes where
/// each of them stood. If the last of them can go on, every entity of the
/// chain goes one step; otherwise none does. Returns whether they moved,
/// and the undo frame of the move.
fn move_object(
    tilemap: &Vec<Vec<Tile>>,
    objects: &mut Vec<Object>,
    object_index: usize,
    action: Action,
) -> (outcome: (bool, HashMap<usize, Vec2>))
    requires
        board_ok(rows_of(tilemap@), old(objects)@),
        object_index < old(objects).len(),
    ensures
        outcome.0 == can_move(rows_of(tilemap@), old(objects)@, object_index as int, action),
        outcome.1@ == frame_of(
            old(objects)@,
            chain(rows_of(tilemap@), old(objects)@, object_index as int, action),
        ),
        final(objects)@ == (if outcome.0 {
            shift(
                old(objects)@,
                chain(rows_of(tilemap@), old(objects)@, object_index as int, action),
                action,
            )
        } else {
            old(objects)@
        }),
{
    let ghost tiles = rows_of(tilemap@);
    let ghost before = objects@;
    let ghost whole = chain(tiles, before, object_index as int, action);
    let ghost mut seen: Seq<int> = Seq::empty();
    let mut frame: HashMap<usize, Vec2> = HashMap::new();
    let mut movers: Vec<(usize, Vec2)> = Vec::new();
    let mut current = object_index;
    let mut moved = false;
    loop
        invariant_except_break
            !moved,
            seen + chain(tiles, before, current as int, action) == whole,
            frame@ == frame_of(before, seen),
            can_move(tiles, before, current as int, action) == can_move(
                tiles,
                before,
                object_index as int,
                action,
            ),
            movers@.len() == seen.len(),
            forall|k: int|
                0 <= k < movers@.len() ==> (#[trigger] movers@[k]).0 == seen[k] && movers@[k].1
                    == before[seen[k]].pos.stepped(action),
        invariant
            tiles == rows_of(tilemap@),
            objects@ == before,
            board_ok(tiles, before),
            current < objects.len(),
            whole == chain(tiles, before, object_index as int, action),
        ensures
            frame@ == frame_of(before, whole),
            moved == can_move(tiles, before, object_index as int, action),
            moved ==> movers@.len() == whole.len(),
            moved ==> forall|k: int|
                0 <= k < movers@.len() ==> (#[trigger] movers@[k]).0 == whole[k] && movers@[k].1
                    == before[whole[k]].pos.stepped(action),
        decreases objects[current as int].pos.room(action),
    {
        let here = objects[current].pos;
        frame.insert(current, here);
        proof {
            lemma_frame_push(before, seen, current as int);
            assert(seen.push(current as int) + chain(tiles, before, current as int, action).drop_first()
                == whole);
            seen = seen.push(current as int);
        }
        let next = match here.step(action) {
            Some(next) => next,
            None => {
                break ;
            },
        };
        match tile_of(tilemap, next) {
            Some(Tile::Floor) | Some(Tile::Goal) => {},
            _ => {
                break ;
            },
        }
        match occupant_of(objects, next) {
            None => {
                movers.push((current, next));
                moved = true;
                break ;
            },
            Some(j) => {
                if objects[current].kind == ObjectKind::Box {
                    break ;
                }
                proof {
                    lemma_occupant_unique(tiles, before, j as int);
                }
                movers.push((current, next));
                current = j;
            },
        }
    }
    if moved {
        for k in 0..movers.len()
            invariant
                objects@.len() == before.len(),
                movers@.len() == whole.len(),
                whole == chain(tiles, before, object_index as int, action),
                object_index < before.len(),
                forall|m: int|
                    0 <= m < movers@.len() ==> (#[trigger] movers@[m]).0 == whole[m]
                        && movers@[m].1 == before[whole[m]].pos.stepped(action),
                objects@ == shift(before, whole.take(k as int), action),
        {
            let (i, destination) = movers[k];
            proof {
                lemma_chain_shape(tiles, before, object_index as int, action);
                lemma_shift_next(before, whole, k as int, action);
            }
            objects[i].pos = destination;
        }
        assert(whole.take(whole.len() as int) == whole);
    }
    (moved, frame)
}

impl GameModel {
    /// Holds of every value of the type: its state is a valid one.
    #[verifier::type_invariant]
    pub open spec fn inv(self) -> bool {
        self@.valid()
    }

    /// Starts a game on the level that `text` describes.
    ///
    /// Succeeds exactly if the text is well formed (see `load`); the game
    /// then starts in the level's initial state, with an empty history.
    pub fn new(text: &str) -> (started: Result<GameModel, LevelError>)
        ensures
            match started {
                Ok(model) => {
                    &&& well_formed(level_rows(text@))
                    &&& model@ == initial_state(level_rows(text@))
                    &&& model@.valid()
                },
                Err(e) => e == LevelError::MalformedLevel && !well_formed(level_rows(text@)),
            },
    {
        match load(text) {
            Ok(level) => {
                proof {
                    let rows = level_rows(text@);
                    assert(level.tiles().len() == level.tilemap.len());
                    assert forall|y: int| 0 <= y < rows.len() implies (#[trigger] rows[y]).len()
                        <= usize::MAX by {
                        assert(level.tiles()[y].len() == level.tilemap@[y].len());
                    }
                    assert(objects_of(rows).len() == level.objects.len());
                    theorem_level_board_ok(rows);
                }
                let model = GameModel {
                    tilemap: level.tilemap,
                    objects: level.objects,
                    undo_states: Vec::new(),
                };
                Ok(model)
            },
            Err(e) => Err(e),
        }
    }

    /// The size of the grid: `x` is the length of its longest row, `y` the
    /// number of its rows.
    pub fn get_level_extents(&self) -> (extents: Vec2)
        ensures
            extents.y == self@.tiles.len(),
            forall|y: int| 0 <= y < self@.tiles.len() ==> (#[trigger] self@.tiles[y]).len() <= extents.x,
            self@.tiles.len() == 0 ==> extents.x == 0,
            self@.tiles.len() > 0 ==> exists|y: int|
                0 <= y < self@.tiles.len() && (#[trigger] self@.tiles[y]).len() == extents.x,
    {
        let mut width: usize = 0;
        let ghost mut widest: int = 0;
        for y in 0..self.tilemap.len()
            invariant
                forall|v: int| 0 <= v < y ==> (#[trigger] self.tilemap@[v])@.len() <= width,
                y == 0 ==> width == 0 && widest == 0,
                y > 0 ==> 0 <= widest < y && self.tilemap@[widest]@.len() == width,
        {
            if self.tilemap[y].len() > width {
                width = self.tilemap[y].len();
                proof {
                    widest = y as int;
                }
            }
        }
        proof {
            if self@.tiles.len() > 0 {
                assert(self@.tiles[widest] == self.tilemap@[widest]@);
            }
        }
        Vec2 { x: width, y: self.tilemap.len() }
    }

    /// Asks the player to move in direction `action`.
    ///
    /// The first player among the entities moves one step if the way is
    /// open, pushing what stands before it; see `GameState::step` for the
    /// rules. A blocked move changes no position. Either way the history
    /// grows by one frame, so that one `undo` takes this call back.
    pub fn do_action(&mut self, action: Action)
        ensures
            final(self)@ == old(self)@.step(action),
            final(self)@.valid(),
    {
        let ghost state = self@;
        proof {
            use_type_invariant(&*self);
            theorem_step(state, action);
            lemma_no_objects(state.tiles, state.history);
            lemma_no_objects(state.tiles, Seq::empty());
        }
        let mut objects: Vec<Object> = Vec::new();
        let mut undo_states: Vec<HashMap<usize, Vec2>> = Vec::new();
        std::mem::swap(&mut objects, &mut self.objects);
        std::mem::swap(&mut undo_states, &mut self.undo_states);
        let frame = match player_of(&objects) {
            None => HashMap::new(),
            Some(p) => {
                let (_, frame) = move_object(&self.tilemap, &mut objects, p, action);
                frame
            },
        };
        proof {
            assert(frames_of(undo_states@.push(frame)) == state.history.push(frame@));
            lemma_no_objects(state.tiles, state.history.push(frame@));
        }
        undo_states.push(frame);
        self.undo_states = undo_states;
        self.objects = objects;
    }

    /// Takes back the most recent call of `do_action`: every entity that
    /// it visited stands again where it stood before, and the frame leaves
    /// the history. With an empty history nothing changes.
    pub fn undo(&mut self)
        ensures
            final(self)@ == old(self)@.undo(),
            final(self)@.valid(),
    {
        let ghost state = self@;
        proof {
            use_type_invariant(&*self);
            theorem_undo(state);
            lemma_no_objects(state.tiles, state.history);
            lemma_no_objects(state.tiles, state.history.drop_last());
            lemma_no_objects(state.tiles, Seq::empty());
        }
        if self.undo_states.len() == 0 {
            return ;
        }
        let mut objects: Vec<Object> = Vec::new();
        let mut undo_states: Vec<HashMap<usize, Vec2>> = Vec::new();
        std::mem::swap(&mut objects, &mut self.objects);
        std::mem::swap(&mut undo_states, &mut self.undo_states);
        assert(frames_of(undo_states@.drop_last()) == state.history.drop_last());
        let popped = undo_states.pop();
        self.undo_states = undo_states;
        if let Some(frame) = popped {
            let count = objects.len();
            for i in 0..count
                invariant
                    count == state.objects.len(),
                    objects@.len() == state.objects.len(),
                    forall|k: int|
                        0 <= k < i ==> (#[trigger] objects@[k]) == restore(state.objects, frame@)[k],
                    forall|k: int| i <= k < objects@.len() ==> (#[trigger] objects@[k]) == state.objects[k],
            {
                match frame.get(&i) {
                    Some(position) => {
                        objects[i].pos = *position;
                    },
                    None => {},
                }
            }
            assert(objects@ == restore(state.objects, frame@));
        }
        self.objects = objects;
    }

    /// Whether the level is won: every box stands on a goal. A level
    /// without boxes is won from the start.
    pub fn has_won(&self) -> (won: bool)
        ensures
            won == self@.won(),
    {
        for i in 0..self.objects.len()
            invariant
                forall|k: int|
                    0 <= k < i && (#[trigger] self.objects@[k]).kind == ObjectKind::Box ==> tile_at(
                        rows_of(self.tilemap@),
                        self.objects@[k].pos,
                    ) == Some(Tile::Goal),
        {
            if self.objects[i].kind == ObjectKind::Box {
                match tile_of(&self.tilemap, self.objects[i].pos) {
                    Some(Tile::Goal) => {},
                    _ => {
                        return false;
                    },
                }
            }
        }
        true
    }

    /// The tile grid, row by row. Rows may differ in length.
    pub fn tilemap(&self) -> (tilemap: &Vec<Vec<Tile>>)
        ensures
            rows_of(tilemap@) == self@.tiles,
            self@.valid(),
    {
        proof {
            use_type_invariant(&*self);
        }
        &self.tilemap
    }

    /// The entities, in the order of the level's text.
    pub fn objects(&self) -> (objects: &Vec<Object>)
        ensures
            objects@ == self@.objects,
            self@.valid(),
    {
        proof {
            use_type_invariant(&*self);
        }
        &self.objects
    }
}

} // verus!
