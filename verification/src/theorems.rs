//! What follows from the rules: facts about push chains, and the
//! properties of play that hold in every state and for every move.

use vstd::prelude::*;
use crate::geometry::Action;
use crate::geometry::Vec2;
use crate::level::cell_of;
use crate::level::lines_of;
use crate::level::objects_of;
use crate::level::row_objects;
use crate::level::strip_cr;
use crate::level::tiles_of;
use crate::level::Object;
use crate::level::ObjectKind;
use crate::level::Tile;
use crate::rules::board_ok;
use crate::rules::can_move;
use crate::rules::chain;
use crate::rules::first_player;
use crate::rules::frame_of;
use crate::rules::history_ok;
use crate::rules::is_first_player;
use crate::rules::kind_at;
use crate::rules::occupant;
use crate::rules::occupied;
use crate::rules::open_at;
use crate::rules::pushes;
use crate::rules::restore;
use crate::rules::shift;
use crate::rules::tile_at;
use crate::rules::Command;
use crate::rules::GameState;

verus! {

/// On a board in order, the entity at a position is determined.
pub proof fn lemma_occupant_unique(tiles: Seq<Seq<Tile>>, objects: Seq<Object>, j: int)
    requires
        board_ok(tiles, objects),
        0 <= j < objects.len(),
    ensures
        occupied(objects, objects[j].pos),
        occupant(objects, objects[j].pos) == j,
{
    let pos = objects[j].pos;
    let k = occupant(objects, pos);
    assert(0 <= k < objects.len() && objects[k].pos == pos);
    if k < j {
        assert(objects[k].pos != objects[j].pos);
    } else if j < k {
        assert(objects[j].pos != objects[k].pos);
    }
}

/// The first entities of a board in order are a board in order.
pub proof fn lemma_board_prefix(tiles: Seq<Seq<Tile>>, objects: Seq<Object>, n: int)
    requires
        board_ok(tiles, objects),
        0 <= n <= objects.len(),
    ensures
        board_ok(tiles, objects.take(n)),
{
    let first = objects.take(n);
    assert forall|i: int| 0 <= i < first.len() implies open_at(tiles, (#[trigger] first[i]).pos) by {
        assert(first[i] == objects[i]);
    }
    assert forall|i: int, j: int| 0 <= i < j < first.len() implies (#[trigger] first[i]).pos != (
    #[trigger] first[j]).pos by {
        assert(first[i] == objects[i]);
        assert(first[j] == objects[j]);
    }
}

/// What stands at a position among the first `i + 1` entities: entity `i`
/// if that is its position, else what stands there among the first `i`.
pub proof fn lemma_kind_at_next(tiles: Seq<Seq<Tile>>, objects: Seq<Object>, i: int, pos: Vec2)
    requires
        board_ok(tiles, objects),
        0 <= i < objects.len(),
    ensures
        kind_at(objects.take(i + 1), pos) == (if objects[i].pos == pos {
            Some(objects[i].kind)
        } else {
            kind_at(objects.take(i), pos)
        }),
        kind_at(objects.take(0), pos) is None,
{
    let shorter = objects.take(i);
    let longer = objects.take(i + 1);
    lemma_board_prefix(tiles, objects, i + 1);
    assert(longer[i] == objects[i]);
    if objects[i].pos == pos {
        lemma_occupant_unique(tiles, longer, i);
    } else if occupied(shorter, pos) {
        let k = occupant(shorter, pos);
        assert(longer[k] == shorter[k]);
        lemma_occupant_unique(tiles, longer, k);
    } else if occupied(longer, pos) {
        let k = occupant(longer, pos);
        assert(shorter[k] == longer[k]);
    }
}

/// The first player is determined.
pub proof fn lemma_first_player_unique(objects: Seq<Object>, i: int)
    requires
        is_first_player(objects, i),
    ensures
        first_player(objects) == Some(i),
{
    let k = choose|k: int| is_first_player(objects, k);
    if k < i {
        assert(objects[k].kind != ObjectKind::Player);
    } else if i < k {
        assert(objects[i].kind != ObjectKind::Player);
    }
}

/// With no player among the entities there is no first player.
pub proof fn lemma_no_player(objects: Seq<Object>)
    requires
        forall|i: int| 0 <= i < objects.len() ==> (#[trigger] objects[i]).kind != ObjectKind::Player,
    ensures
        first_player(objects) is None,
{
    if exists|i: int| is_first_player(objects, i) {
        let k = choose|k: int| is_first_player(objects, k);
        assert(objects[k].kind != ObjectKind::Player);
    }
}

/// Member `m` of the chain `c` is a player that pushes member `m + 1`,
/// which stands one step further in direction `a`.
pub open spec fn chain_link(
    tiles: Seq<Seq<Tile>>,
    objects: Seq<Object>,
    c: Seq<int>,
    m: int,
    a: Action,
) -> bool {
    &&& pushes(tiles, objects, c[m], a)
    &&& objects[c[m + 1]].pos == objects[c[m]].pos.stepped(a)
}

/// The shape of a push chain that starts at entity `i`: it begins with `i`;
/// each member but the last is a player that pushes the next, which stands
/// one step further; the last pushes nothing; and the move of `i` succeeds
/// exactly if the move of the last member does.
pub proof fn lemma_chain_shape(tiles: Seq<Seq<Tile>>, objects: Seq<Object>, i: int, a: Action)
    requires
        0 <= i < objects.len(),
    ensures
        ({
            let c = chain(tiles, objects, i, a);
            &&& c.len() >= 1
            &&& c[0] == i
            &&& forall|m: int| 0 <= m < c.len() ==> 0 <= #[trigger] c[m] < objects.len()
            &&& forall|m: int|
                0 <= m < c.len() - 1 ==> #[trigger] chain_link(tiles, objects, c, m, a)
            &&& !pushes(tiles, objects, c.last(), a)
            &&& can_move(tiles, objects, i, a) == can_move(tiles, objects, c.last(), a)
            &&& forall|m: int|
                0 <= m < c.len() ==> objects[#[trigger] c[m]].pos.room(a) + m
                    == objects[i].pos.room(a)
        }),
    decreases objects[i].pos.room(a),
{
    let c = chain(tiles, objects, i, a);
    if pushes(tiles, objects, i, a) {
        let next = objects[i].pos.stepped(a);
        let j = occupant(objects, next);
        assert(0 <= j < objects.len() && objects[j].pos == next);
        lemma_chain_shape(tiles, objects, j, a);
        let rest = chain(tiles, objects, j, a);
        assert(c == seq![i] + rest);
        assert(c[0] == i);
        assert forall|m: int| 0 <= m < c.len() implies 0 <= #[trigger] c[m] < objects.len() by {
            if m > 0 {
                assert(c[m] == rest[m - 1]);
            }
        }
        assert forall|m: int| 0 <= m < c.len() - 1 implies #[trigger] chain_link(
            tiles,
            objects,
            c,
            m,
            a,
        ) by {
            assert(c[m + 1] == rest[m]);
            if m > 0 {
                assert(c[m] == rest[m - 1]);
                assert(chain_link(tiles, objects, rest, m - 1, a));
            }
        }
        assert(c.last() == rest.last());
        assert forall|m: int| 0 <= m < c.len() implies objects[#[trigger] c[m]].pos.room(a) + m
            == objects[i].pos.room(a) by {
            if m > 0 {
                assert(c[m] == rest[m - 1]);
            }
        }
    } else {
        assert(c == seq![i]);
    }
}

/// The move of the last member of a chain succeeds exactly if its
/// destination is open and free.
pub proof fn lemma_chain_end(tiles: Seq<Seq<Tile>>, objects: Seq<Object>, i: int, a: Action)
    requires
        0 <= i < objects.len(),
    ensures
        ({
            let last = chain(tiles, objects, i, a).last();
            let pos = objects[last].pos;
            can_move(tiles, objects, i, a) <==> pos.can_step(a) && open_at(tiles, pos.stepped(a))
                && !occupied(objects, pos.stepped(a))
        }),
{
    lemma_chain_shape(tiles, objects, i, a);
}

/// The frame of a chain grows by one entry with each entity visited.
pub proof fn lemma_frame_push(objects: Seq<Object>, visited: Seq<int>, i: int)
    requires
        0 <= i <= usize::MAX,
    ensures
        frame_of(objects, visited.push(i)) == frame_of(objects, visited).insert(
            i as usize,
            objects[i].pos,
        ),
{
    let longer = visited.push(i);
    assert forall|k: usize| longer.contains(k as int) <==> (k == i || visited.contains(k as int)) by {
        if visited.contains(k as int) {
            let m = choose|m: int| 0 <= m < visited.len() && visited[m] == k as int;
            assert(longer[m] == k as int);
        }
        if k == i {
            assert(longer[visited.len() as int] == i);
        }
    }
    assert(frame_of(objects, longer) =~= frame_of(objects, visited).insert(
        i as usize,
        objects[i].pos,
    ));
}

/// Moving the entities of a chain one after the other: with one more
/// member moved, exactly that member has gone one step further.
pub proof fn lemma_shift_next(objects: Seq<Object>, c: Seq<int>, k: int, a: Action)
    requires
        0 <= k < c.len(),
        0 <= c[k] < objects.len(),
    ensures
        shift(objects, c.take(k + 1), a) == shift(objects, c.take(k), a).update(
            c[k],
            Object { pos: objects[c[k]].pos.stepped(a), kind: objects[c[k]].kind },
        ),
        shift(objects, c.take(0), a) == objects,
{
    let shorter = c.take(k);
    let longer = c.take(k + 1);
    assert forall|j: int| longer.contains(j) <==> (j == c[k] || shorter.contains(j)) by {
        if shorter.contains(j) {
            let m = choose|m: int| 0 <= m < shorter.len() && shorter[m] == j;
            assert(longer[m] == j);
        }
        if j == c[k] {
            assert(longer[k] == j);
        }
        if longer.contains(j) {
            let m = choose|m: int| 0 <= m < longer.len() && longer[m] == j;
            if m < k {
                assert(shorter[m] == j);
            }
        }
    }
    assert(shift(objects, longer, a) =~= shift(objects, shorter, a).update(
        c[k],
        Object { pos: objects[c[k]].pos.stepped(a), kind: objects[c[k]].kind },
    ));
    assert(shift(objects, c.take(0), a) =~= objects);
}

/// With no entities, every history is in order.
pub proof fn lemma_no_objects(tiles: Seq<Seq<Tile>>, history: Seq<Map<usize, Vec2>>)
    ensures
        board_ok(tiles, Seq::<Object>::empty()),
        history_ok(tiles, Seq::<Object>::empty(), history),
    decreases history.len(),
{
    if history.len() > 0 {
        assert(restore(Seq::<Object>::empty(), history.last()) =~= Seq::<Object>::empty());
        lemma_no_objects(tiles, history.drop_last());
    }
}

/// Putting back the frame of a move undoes the move, whether the chain
/// went one step or stayed.
pub proof fn lemma_restore_frame(
    tiles: Seq<Seq<Tile>>,
    objects: Seq<Object>,
    i: int,
    a: Action,
)
    requires
        objects.len() <= usize::MAX,
        0 <= i < objects.len(),
    ensures
        ({
            let visited = chain(tiles, objects, i, a);
            let frame = frame_of(objects, visited);
            &&& restore(shift(objects, visited, a), frame) == objects
            &&& restore(objects, frame) == objects
        }),
{
    let visited = chain(tiles, objects, i, a);
    let frame = frame_of(objects, visited);
    assert forall|k: int| 0 <= k < objects.len() implies (frame.contains_key(k as usize)
        <==> visited.contains(k)) && (frame.contains_key(k as usize) ==> frame[k as usize]
        == objects[k].pos) by {
        assert((k as usize) as int == k);
    }
    assert(restore(shift(objects, visited, a), frame) =~= objects);
    assert(restore(objects, frame) =~= objects);
}

/// A successful move leaves the board in order: the members of the chain
/// each take the place of the next, and the last takes a free, open cell.
pub proof fn lemma_shift_board_ok(
    tiles: Seq<Seq<Tile>>,
    objects: Seq<Object>,
    i: int,
    a: Action,
)
    requires
        board_ok(tiles, objects),
        0 <= i < objects.len(),
        can_move(tiles, objects, i, a),
    ensures
        board_ok(tiles, shift(objects, chain(tiles, objects, i, a), a)),
{
    let c = chain(tiles, objects, i, a);
    let after = shift(objects, c, a);
    lemma_chain_shape(tiles, objects, i, a);
    lemma_chain_end(tiles, objects, i, a);
    assert forall|k: int| 0 <= k < after.len() implies open_at(tiles, (#[trigger] after[k]).pos) by {
        if c.contains(k) {
            let m = choose|m: int| 0 <= m < c.len() && c[m] == k;
            lemma_mover_lands(tiles, objects, i, a, m);
        } else {
            assert(open_at(tiles, objects[k].pos));
        }
    }
    assert forall|k: int, l: int| 0 <= k < l < after.len() implies (#[trigger] after[k]).pos != (
    #[trigger] after[l]).pos by {
        lemma_apart(tiles, objects, i, a, k, l);
        lemma_apart(tiles, objects, i, a, l, k);
    }
}

/// In a successful move, each member of the chain goes to an open cell.
proof fn lemma_mover_lands(
    tiles: Seq<Seq<Tile>>,
    objects: Seq<Object>,
    i: int,
    a: Action,
    m: int,
)
    requires
        board_ok(tiles, objects),
        0 <= i < objects.len(),
        can_move(tiles, objects, i, a),
        0 <= m < chain(tiles, objects, i, a).len(),
    ensures
        objects[chain(tiles, objects, i, a)[m]].pos.can_step(a),
        open_at(tiles, objects[chain(tiles, objects, i, a)[m]].pos.stepped(a)),
{
    let c = chain(tiles, objects, i, a);
    lemma_chain_shape(tiles, objects, i, a);
    lemma_chain_end(tiles, objects, i, a);
    if m < c.len() - 1 {
        assert(chain_link(tiles, objects, c, m, a));
    }
}

/// After a successful move, two different entities stand apart.
proof fn lemma_apart(
    tiles: Seq<Seq<Tile>>,
    objects: Seq<Object>,
    i: int,
    a: Action,
    k: int,
    l: int,
)
    requires
        board_ok(tiles, objects),
        0 <= i < objects.len(),
        can_move(tiles, objects, i, a),
        0 <= k < objects.len(),
        0 <= l < objects.len(),
        k != l,
    ensures
        shift(objects, chain(tiles, objects, i, a), a)[k].pos != shift(
            objects,
            chain(tiles, objects, i, a),
            a,
        )[l].pos,
{
    let c = chain(tiles, objects, i, a);
    let after = shift(objects, c, a);
    lemma_chain_shape(tiles, objects, i, a);
    lemma_chain_end(tiles, objects, i, a);
    let free = objects[c.last()].pos.stepped(a);
    assert(objects[k].pos != objects[l].pos) by {
        if k < l {
            assert(objects[k].pos != objects[l].pos);
        } else {
            assert(objects[l].pos != objects[k].pos);
        }
    }
    if c.contains(k) && c.contains(l) {
        let m = choose|m: int| 0 <= m < c.len() && c[m] == k;
        let n = choose|n: int| 0 <= n < c.len() && c[n] == l;
        assert(objects[c[m]].pos.room(a) + m == objects[i].pos.room(a));
        assert(objects[c[n]].pos.room(a) + n == objects[i].pos.room(a));
        assert(m < c.len() - 1 ==> chain_link(tiles, objects, c, m, a));
        assert(n < c.len() - 1 ==> chain_link(tiles, objects, c, n, a));
        assert(objects[k].pos.can_step(a));
        assert(objects[l].pos.can_step(a));
    } else if c.contains(k) {
        lemma_mover_apart(tiles, objects, i, a, k, l);
    } else if c.contains(l) {
        lemma_mover_apart(tiles, objects, i, a, l, k);
    }
}

/// After a successful move, an entity that moved stands apart from one
/// that did not.
proof fn lemma_mover_apart(
    tiles: Seq<Seq<Tile>>,
    objects: Seq<Object>,
    i: int,
    a: Action,
    k: int,
    l: int,
)
    requires
        board_ok(tiles, objects),
        0 <= i < objects.len(),
        can_move(tiles, objects, i, a),
        0 <= k < objects.len(),
        0 <= l < objects.len(),
        chain(tiles, objects, i, a).contains(k),
        !chain(tiles, objects, i, a).contains(l),
    ensures
        objects[k].pos.stepped(a) != objects[l].pos,
{
    let c = chain(tiles, objects, i, a);
    lemma_chain_shape(tiles, objects, i, a);
    lemma_chain_end(tiles, objects, i, a);
    let m = choose|m: int| 0 <= m < c.len() && c[m] == k;
    if m < c.len() - 1 {
        let next = c[m + 1];
        assert(chain_link(tiles, objects, c, m, a));
        assert(objects[next].pos == objects[k].pos.stepped(a));
        assert(c.contains(next));
        if next < l {
            assert(objects[next].pos != objects[l].pos);
        } else {
            assert(objects[l].pos != objects[next].pos);
        }
    } else {
        assert(!occupied(objects, objects[k].pos.stepped(a)));
        if objects[l].pos == objects[k].pos.stepped(a) {
            assert(occupied(objects, objects[k].pos.stepped(a)));
        }
    }
}

/// A text has at least one line.
pub proof fn lemma_lines_exist(text: Seq<char>)
    ensures
        lines_of(text).len() >= 1,
    decreases text.len(),
{
    if text.len() > 0 {
        lemma_lines_exist(text.drop_last());
    }
}

/// A text without a line feed is one line.
pub proof fn theorem_single_line(text: Seq<char>)
    requires
        forall|i: int| 0 <= i < text.len() ==> text[i] != '\n',
    ensures
        lines_of(text) == seq![text],
    decreases text.len(),
{
    if text.len() > 0 {
        let shorter = text.drop_last();
        assert forall|i: int| 0 <= i < shorter.len() implies shorter[i] != '\n' by {
            assert(shorter[i] == text[i]);
        }
        theorem_single_line(shorter);
        assert(lines_of(shorter).last() == shorter);
        assert(shorter.push(text.last()) == text);
        assert(lines_of(text) == seq![text]);
    } else {
        assert(text == Seq::<char>::empty());
    }
}

/// A line feed parts a text in two: the lines of the whole are the lines
/// of what stands before the line feed, the last of them without the
/// carriage return at its end, and then the lines of what stands after.
pub proof fn theorem_lines_concat(head: Seq<char>, tail: Seq<char>)
    ensures
        lines_of(head + seq!['\n'] + tail) == lines_of(head).drop_last().push(
            strip_cr(lines_of(head).last()),
        ) + lines_of(tail),
    decreases tail.len(),
{
    let text = head + seq!['\n'] + tail;
    let closed = lines_of(head).drop_last().push(strip_cr(lines_of(head).last()));
    if tail.len() == 0 {
        assert(text.drop_last() == head);
        assert(text.last() == '\n');
        assert(lines_of(tail) == seq![Seq::<char>::empty()]);
        assert(lines_of(text) == closed + lines_of(tail));
    } else {
        let shorter = tail.drop_last();
        theorem_lines_concat(head, shorter);
        lemma_lines_exist(shorter);
        assert(text.drop_last() == head + seq!['\n'] + shorter);
        assert(text.last() == tail.last());
        let before = lines_of(text.drop_last());
        assert(before == closed + lines_of(shorter));
        assert(before.last() == lines_of(shorter).last());
        assert(before.drop_last() == closed + lines_of(shorter).drop_last());
        assert(lines_of(text) == closed + lines_of(tail));
    }
}

/// Each character of a row that stands for an entity gives an entity of
/// the row, of that kind and at that place.
pub proof fn lemma_row_objects_complete(row: Seq<char>, y: int, x: int)
    requires
        0 <= x < row.len(),
        cell_of(row[x]) is Some,
        cell_of(row[x]).unwrap().1 is Some,
    ensures
        row_objects(row, y).contains(
            Object {
                pos: Vec2 { x: x as usize, y: y as usize },
                kind: cell_of(row[x]).unwrap().1.unwrap(),
            },
        ),
    decreases row.len(),
{
    let wanted = Object {
        pos: Vec2 { x: x as usize, y: y as usize },
        kind: cell_of(row[x]).unwrap().1.unwrap(),
    };
    let before = row_objects(row.drop_last(), y);
    if x == row.len() - 1 {
        assert(row_objects(row, y) == before.push(wanted));
        assert(row_objects(row, y)[before.len() as int] == wanted);
    } else {
        assert(row.drop_last()[x] == row[x]);
        lemma_row_objects_complete(row.drop_last(), y, x);
        let k = choose|k: int| 0 <= k < before.len() && before[k] == wanted;
        assert(row_objects(row, y)[k] == wanted);
    }
}

/// Each character of a level that stands for an entity gives an entity of
/// the level, of that kind and at that place.
pub proof fn theorem_entities_loaded(rows: Seq<Seq<char>>, y: int, x: int)
    requires
        0 <= y < rows.len(),
        0 <= x < rows[y].len(),
        cell_of(rows[y][x]) is Some,
        cell_of(rows[y][x]).unwrap().1 is Some,
    ensures
        objects_of(rows).contains(
            Object {
                pos: Vec2 { x: x as usize, y: y as usize },
                kind: cell_of(rows[y][x]).unwrap().1.unwrap(),
            },
        ),
    decreases rows.len(),
{
    let wanted = Object {
        pos: Vec2 { x: x as usize, y: y as usize },
        kind: cell_of(rows[y][x]).unwrap().1.unwrap(),
    };
    let before = objects_of(rows.drop_last());
    let last = row_objects(rows.last(), rows.len() - 1);
    if y == rows.len() - 1 {
        lemma_row_objects_complete(rows.last(), y, x);
        let k = choose|k: int| 0 <= k < last.len() && last[k] == wanted;
        assert(objects_of(rows)[before.len() + k] == wanted);
    } else {
        assert(rows.drop_last()[y] == rows[y]);
        theorem_entities_loaded(rows.drop_last(), y, x);
        let k = choose|k: int| 0 <= k < before.len() && before[k] == wanted;
        assert(objects_of(rows)[k] == wanted);
    }
}

/// Each entity of a row comes from a character of that row that stands for
/// an entity of its kind, and stands where that character is.
pub proof fn lemma_row_objects(row: Seq<char>, y: int, k: int)
    requires
        row.len() <= usize::MAX,
        0 <= y <= usize::MAX,
        0 <= k < row_objects(row, y).len(),
    ensures
        ({
            let o = row_objects(row, y)[k];
            &&& o.pos.y == y
            &&& o.pos.x < row.len()
            &&& cell_of(row[o.pos.x as int]) is Some
            &&& cell_of(row[o.pos.x as int]).unwrap().1 == Some(o.kind)
        }),
    decreases row.len(),
{
    if row.len() > 0 {
        let before = row_objects(row.drop_last(), y);
        if k < before.len() {
            lemma_row_objects(row.drop_last(), y, k);
        }
    }
}

/// The entities of a row stand from left to right.
pub proof fn lemma_row_objects_sorted(row: Seq<char>, y: int, k: int, l: int)
    requires
        row.len() <= usize::MAX,
        0 <= y <= usize::MAX,
        0 <= k < l < row_objects(row, y).len(),
    ensures
        row_objects(row, y)[k].pos.x < row_objects(row, y)[l].pos.x,
    decreases row.len(),
{
    if row.len() > 0 {
        let before = row_objects(row.drop_last(), y);
        if l < before.len() {
            lemma_row_objects_sorted(row.drop_last(), y, k, l);
        } else {
            lemma_row_objects(row.drop_last(), y, k);
        }
    }
}

/// Each entity of a level comes from a character of the text that stands
/// for an entity of its kind, and stands where that character is.
pub proof fn lemma_objects_of(rows: Seq<Seq<char>>, k: int)
    requires
        rows.len() <= usize::MAX,
        forall|y: int| 0 <= y < rows.len() ==> (#[trigger] rows[y]).len() <= usize::MAX,
        0 <= k < objects_of(rows).len(),
    ensures
        ({
            let o = objects_of(rows)[k];
            &&& o.pos.y < rows.len()
            &&& o.pos.x < rows[o.pos.y as int].len()
            &&& cell_of(rows[o.pos.y as int][o.pos.x as int]) is Some
            &&& cell_of(rows[o.pos.y as int][o.pos.x as int]).unwrap().1 == Some(o.kind)
        }),
    decreases rows.len(),
{
    if rows.len() > 0 {
        let before = objects_of(rows.drop_last());
        if k < before.len() {
            lemma_objects_of(rows.drop_last(), k);
        } else {
            lemma_row_objects(rows.last(), rows.len() - 1, k - before.len());
        }
    }
}

/// The entities of a level stand in the order of the text: an earlier
/// entity stands in a row above, or in the same row further left.
pub proof fn lemma_objects_sorted(rows: Seq<Seq<char>>, k: int, l: int)
    requires
        rows.len() <= usize::MAX,
        forall|y: int| 0 <= y < rows.len() ==> (#[trigger] rows[y]).len() <= usize::MAX,
        0 <= k < l < objects_of(rows).len(),
    ensures
        ({
            let first = objects_of(rows)[k].pos;
            let second = objects_of(rows)[l].pos;
            first.y < second.y || (first.y == second.y && first.x < second.x)
        }),
    decreases rows.len(),
{
    if rows.len() > 0 {
        let before = objects_of(rows.drop_last());
        if l < before.len() {
            lemma_objects_sorted(rows.drop_last(), k, l);
        } else if k < before.len() {
            lemma_objects_of(rows.drop_last(), k);
            lemma_row_objects(rows.last(), rows.len() - 1, l - before.len());
        } else {
            lemma_row_objects(rows.last(), rows.len() - 1, k - before.len());
            lemma_row_objects(rows.last(), rows.len() - 1, l - before.len());
            lemma_row_objects_sorted(rows.last(), rows.len() - 1, k - before.len(), l - before.len());
        }
    }
}

/// A level as loaded is a board in order: each entity starts inside the
/// grid, on floor or on a goal, and no two start at the same place.
pub proof fn theorem_level_board_ok(rows: Seq<Seq<char>>)
    requires
        rows.len() <= usize::MAX,
        forall|y: int| 0 <= y < rows.len() ==> (#[trigger] rows[y]).len() <= usize::MAX,
        objects_of(rows).len() <= usize::MAX,
    ensures
        board_ok(tiles_of(rows), objects_of(rows)),
{
    let tiles = tiles_of(rows);
    let objects = objects_of(rows);
    assert forall|i: int| 0 <= i < objects.len() implies open_at(tiles, (#[trigger] objects[i]).pos) by {
        lemma_objects_of(rows, i);
    }
    assert forall|i: int, j: int| 0 <= i < j < objects.len() implies (#[trigger] objects[i]).pos != (
    #[trigger] objects[j]).pos by {
        lemma_objects_sorted(rows, i, j);
    }
}

/// A move keeps a state valid, and an undo right after it gives the state
/// before the move, history included.
pub proof fn theorem_step(s: GameState, a: Action)
    requires
        s.valid(),
    ensures
        s.step(a).valid(),
        s.step(a).undo() == s,
        s.step(a).tiles == s.tiles,
        s.step(a).objects.len() == s.objects.len(),
        forall|i: int|
            0 <= i < s.objects.len() ==> (#[trigger] s.step(a).objects[i]).kind
                == s.objects[i].kind,
{
    let after = s.step(a);
    assert(after.history.drop_last() =~= s.history);
    match first_player(s.objects) {
        None => {
            assert(restore(s.objects, Map::<usize, Vec2>::empty()) =~= s.objects);
        },
        Some(p) => {
            assert(is_first_player(s.objects, p));
            lemma_restore_frame(s.tiles, s.objects, p, a);
            if can_move(s.tiles, s.objects, p, a) {
                lemma_shift_board_ok(s.tiles, s.objects, p, a);
            }
        },
    }
    assert(restore(after.objects, after.history.last()) == s.objects);
    assert(after.undo() =~= s);
}

/// An undo keeps a state valid.
pub proof fn theorem_undo(s: GameState)
    requires
        s.valid(),
    ensures
        s.undo().valid(),
        s.undo().tiles == s.tiles,
        s.undo().objects.len() == s.objects.len(),
        forall|i: int|
            0 <= i < s.objects.len() ==> (#[trigger] s.undo().objects[i]).kind
                == s.objects[i].kind,
{
}

/// After any series of moves, successful or blocked, followed by as many
/// undos, the state is the one before the series: every entity is back
/// where it was, and the history is what it was.
pub proof fn theorem_undo_round_trip(s: GameState, actions: Seq<Action>)
    requires
        s.valid(),
    ensures
        s.step_all(actions).valid(),
        s.step_all(actions).undo_times(actions.len()) == s,
    decreases actions.len(),
{
    if actions.len() > 0 {
        let before = s.step_all(actions.drop_last());
        theorem_undo_round_trip(s, actions.drop_last());
        theorem_step(before, actions.last());
        assert(s.step_all(actions).undo() == before);
    }
}

/// After any series of moves and undos from a valid state, the state is
/// valid; so no two entities share a position, and every entity stands
/// inside the grid on a tile that is no wall.
pub proof fn theorem_play_keeps_valid(s: GameState, commands: Seq<Command>)
    requires
        s.valid(),
    ensures
        s.run_all(commands).valid(),
        s.run_all(commands).tiles == s.tiles,
        s.run_all(commands).objects.len() == s.objects.len(),
        forall|i: int, j: int|
            0 <= i < j < s.objects.len() ==> (#[trigger] s.run_all(commands).objects[i]).pos != (
            #[trigger] s.run_all(commands).objects[j]).pos,
        forall|i: int|
            0 <= i < s.objects.len() ==> open_at(
                s.tiles,
                (#[trigger] s.run_all(commands).objects[i]).pos,
            ),
    decreases commands.len(),
{
    if commands.len() > 0 {
        let before = s.run_all(commands.drop_last());
        theorem_play_keeps_valid(s, commands.drop_last());
        match commands.last() {
            Command::Move(a) => theorem_step(before, a),
            Command::Undo => theorem_undo(before),
        }
    }
}

/// Nothing goes through a wall: if the move would take the player, or an
/// entity that it pushes, onto a wall, then no entity changes its position.
pub proof fn theorem_wall_blocks(s: GameState, a: Action, i: int)
    requires
        s.valid(),
        first_player(s.objects) is Some,
        chain(s.tiles, s.objects, first_player(s.objects).unwrap(), a).contains(i),
        s.objects[i].pos.can_step(a),
        tile_at(s.tiles, s.objects[i].pos.stepped(a)) == Some(Tile::Wall),
    ensures
        s.step(a).objects == s.objects,
{
    lemma_blocked(s, a, i);
}

/// The edge of the grid stops a move as a wall does: if the move would
/// take the player, or an entity that it pushes, outside the grid, then no
/// entity changes its position.
pub proof fn theorem_edge_blocks(s: GameState, a: Action, i: int)
    requires
        s.valid(),
        first_player(s.objects) is Some,
        chain(s.tiles, s.objects, first_player(s.objects).unwrap(), a).contains(i),
        !s.objects[i].pos.can_step(a) || tile_at(s.tiles, s.objects[i].pos.stepped(a)) is None,
    ensures
        s.step(a).objects == s.objects,
{
    lemma_blocked(s, a, i);
}

/// A box pushes nothing: if the move would take a box to a cell where
/// another entity stands, then no entity changes its position.
pub proof fn theorem_box_cannot_push(s: GameState, a: Action, i: int)
    requires
        s.valid(),
        first_player(s.objects) is Some,
        chain(s.tiles, s.objects, first_player(s.objects).unwrap(), a).contains(i),
        s.objects[i].kind == ObjectKind::Box,
        s.objects[i].pos.can_step(a),
        occupied(s.objects, s.objects[i].pos.stepped(a)),
    ensures
        s.step(a).objects == s.objects,
{
    let p = first_player(s.objects).unwrap();
    let c = chain(s.tiles, s.objects, p, a);
    assert(is_first_player(s.objects, p));
    lemma_chain_shape(s.tiles, s.objects, p, a);
    lemma_chain_end(s.tiles, s.objects, p, a);
    let m = choose|m: int| 0 <= m < c.len() && c[m] == i;
    if m < c.len() - 1 {
        assert(chain_link(s.tiles, s.objects, c, m, a));
    }
}

/// A player with a line of boxes before it, and an open, free cell beyond
/// the last of them, moves one step and takes every box of the line one
/// step along; no other entity moves. Since a box pushes nothing, the line
/// holds one box at most.
pub proof fn theorem_chain_push(s: GameState, a: Action, boxes: Seq<int>)
    requires
        s.valid(),
        first_player(s.objects) is Some,
        boxes.len() <= 1,
        ({
            let start = s.objects[first_player(s.objects).unwrap()].pos;
            &&& start.can_reach(a, boxes.len() + 1)
            &&& forall|k: int|
                0 <= k < boxes.len() ==> {
                    &&& 0 <= #[trigger] boxes[k] < s.objects.len()
                    &&& s.objects[boxes[k]].kind == ObjectKind::Box
                    &&& s.objects[boxes[k]].pos == start.ahead(a, (k + 1) as nat)
                }
            &&& open_at(s.tiles, start.ahead(a, boxes.len() + 1))
            &&& !occupied(s.objects, start.ahead(a, boxes.len() + 1))
        }),
    ensures
        ({
            let p = first_player(s.objects).unwrap();
            let after = s.step(a).objects;
            &&& after.len() == s.objects.len()
            &&& after[p] == Object { pos: s.objects[p].pos.stepped(a), kind: s.objects[p].kind }
            &&& forall|k: int|
                0 <= k < boxes.len() ==> after[#[trigger] boxes[k]] == Object {
                    pos: s.objects[boxes[k]].pos.stepped(a),
                    kind: ObjectKind::Box,
                }
            &&& forall|j: int|
                0 <= j < s.objects.len() && j != p && !boxes.contains(j) ==> #[trigger] after[j]
                    == s.objects[j]
        }),
{
    let p = first_player(s.objects).unwrap();
    let start = s.objects[p].pos;
    let c = chain(s.tiles, s.objects, p, a);
    assert(is_first_player(s.objects, p));
    reveal_with_fuel(Vec2::ahead, 3);
    reveal_with_fuel(Vec2::can_reach, 3);
    if boxes.len() == 0 {
        assert(c == seq![p]);
        assert(c[0] == p);
        assert(c.contains(p));
        assert forall|j: int| 0 <= j < s.objects.len() && j != p implies !c.contains(j) by {}
    } else {
        let b = boxes[0];
        assert(boxes.contains(b));
        lemma_occupant_unique(s.tiles, s.objects, b);
        assert(open_at(s.tiles, s.objects[b].pos));
        assert(pushes(s.tiles, s.objects, p, a));
        assert(!pushes(s.tiles, s.objects, b, a));
        assert(chain(s.tiles, s.objects, b, a) == seq![b]);
        assert(c == seq![p, b]);
        assert(can_move(s.tiles, s.objects, b, a));
        assert(c[0] == p && c[1] == b);
        assert(c.contains(p));
        assert(c.contains(b));
        assert forall|j: int| 0 <= j < s.objects.len() && j != p && !boxes.contains(j) implies !c.contains(
            j,
        ) by {}
    }
}

/// A member of the chain whose destination is not open stops the move.
proof fn lemma_blocked(s: GameState, a: Action, i: int)
    requires
        s.valid(),
        first_player(s.objects) is Some,
        chain(s.tiles, s.objects, first_player(s.objects).unwrap(), a).contains(i),
        !s.objects[i].pos.can_step(a) || !open_at(s.tiles, s.objects[i].pos.stepped(a)),
    ensures
        s.step(a).objects == s.objects,
{
    let p = first_player(s.objects).unwrap();
    let c = chain(s.tiles, s.objects, p, a);
    assert(is_first_player(s.objects, p));
    lemma_chain_shape(s.tiles, s.objects, p, a);
    lemma_chain_end(s.tiles, s.objects, p, a);
    let m = choose|m: int| 0 <= m < c.len() && c[m] == i;
    if m < c.len() - 1 {
        assert(chain_link(s.tiles, s.objects, c, m, a));
    }
}

/// A level without boxes is won.
pub proof fn theorem_won_without_boxes(s: GameState)
    requires
        forall|i: int|
            0 <= i < s.objects.len() ==> (#[trigger] s.objects[i]).kind != ObjectKind::Box,
    ensures
        s.won(),
{
}

} // verus!
