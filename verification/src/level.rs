//! The level loader: from the text of a level to its tile grid and its
//! entities.
//!
//! A level is plain text, one line per grid row. Each character stands for
//! one cell: its tile and, for some characters, the entity that starts on it.

use vstd::prelude::*;
use crate::geometry::Vec2;

verus! {

/// What a cell of the grid is made of. Tiles never change once loaded.
#[derive(Clone, Copy, Debug, PartialEq, Eq, Hash, Structural)]
pub enum Tile {
    Floor,
    Goal,
    Wall,
}

/// The two kinds of entity: the agent under control, and the crates it pushes.
#[derive(Clone, Copy, Debug, PartialEq, Eq, Hash, Structural)]
pub enum ObjectKind {
    Player,
    Box,
}

/// An entity on the grid. Its kind is fixed; its position changes with moves.
#[derive(Clone, Copy, Debug, PartialEq, Eq, Hash, Structural)]
pub struct Object {
    pub pos: Vec2,
    pub kind: ObjectKind,
}

/// Why a level could not be loaded.
#[derive(Clone, Copy, Debug, PartialEq, Eq, Hash, Structural)]
pub enum LevelError {
    /// There is no level under the requested identifier.
    LevelNotFound,
    /// The level's text holds an unknown character, or no row at all.
    MalformedLevel,
}

/// The meaning of a character of a level: the tile of its cell and the kind
/// of the entity that starts there, if any. `None` for every other character.
pub open spec fn cell_of(c: char) -> Option<(Tile, Option<ObjectKind>)> {
    if c == ' ' {
        Some((Tile::Floor, None))
    } else if c == '@' {
        Some((Tile::Floor, Some(ObjectKind::Player)))
    } else if c == '$' {
        Some((Tile::Floor, Some(ObjectKind::Box)))
    } else if c == '.' {
        Some((Tile::Goal, None))
    } else if c == '+' {
        Some((Tile::Goal, Some(ObjectKind::Player)))
    } else if c == '*' {
        Some((Tile::Goal, Some(ObjectKind::Box)))
    } else if c == '#' {
        Some((Tile::Wall, None))
    } else {
        None
    }
}

/// The character that shows a cell: a tile with the entity standing on it.
/// Nothing stands on a wall, so a wall always shows as a wall.
pub open spec fn glyph_of(tile: Tile, occupant: Option<ObjectKind>) -> char {
    match (tile, occupant) {
        (Tile::Floor, None) => ' ',
        (Tile::Floor, Some(ObjectKind::Player)) => '@',
        (Tile::Floor, Some(ObjectKind::Box)) => '$',
        (Tile::Goal, None) => '.',
        (Tile::Goal, Some(ObjectKind::Player)) => '+',
        (Tile::Goal, Some(ObjectKind::Box)) => '*',
        (Tile::Wall, _) => '#',
    }
}

/// Reads one character of a level.
pub fn parse_cell(c: char) -> (cell: Option<(Tile, Option<ObjectKind>)>)
    ensures
        cell == cell_of(c),
{
    match c {
        ' ' => Some((Tile::Floor, None)),
        '@' => Some((Tile::Floor, Some(ObjectKind::Player))),
        '$' => Some((Tile::Floor, Some(ObjectKind::Box))),
        '.' => Some((Tile::Goal, None)),
        '+' => Some((Tile::Goal, Some(ObjectKind::Player))),
        '*' => Some((Tile::Goal, Some(ObjectKind::Box))),
        '#' => Some((Tile::Wall, None)),
        _ => None,
    }
}

/// Picks the character that shows a tile and the entity on it.
pub fn glyph(tile: Tile, occupant: Option<ObjectKind>) -> (c: char)
    ensures
        c == glyph_of(tile, occupant),
{
    match tile {
        Tile::Floor => match occupant {
            None => ' ',
            Some(ObjectKind::Player) => '@',
            Some(ObjectKind::Box) => '$',
        },
        Tile::Goal => match occupant {
            None => '.',
            Some(ObjectKind::Player) => '+',
            Some(ObjectKind::Box) => '*',
        },
        Tile::Wall => '#',
    }
}

/// Showing a cell and reading the character back gives the cell again,
/// for every cell that can exist: any tile alone, or an entity on a tile
/// that is not a wall.
pub proof fn lemma_glyph_round_trip(tile: Tile, occupant: Option<ObjectKind>)
    requires
        tile == Tile::Wall ==> occupant is None,
    ensures
        cell_of(glyph_of(tile, occupant)) == Some((tile, occupant)),
{
}

/// Every character that a level may hold is the glyph of the cell it stands
/// for.
pub proof fn lemma_cell_round_trip(c: char)
    requires
        cell_of(c) is Some,
    ensures
        glyph_of(cell_of(c).unwrap().0, cell_of(c).unwrap().1) == c,
        cell_of(c).unwrap().0 == Tile::Wall ==> cell_of(c).unwrap().1 is None,
{
}

/// The rows that a vector of vectors holds.
pub open spec fn rows_of<T>(v: Seq<Vec<T>>) -> Seq<Seq<T>> {
    Seq::new(v.len(), |i: int| v[i]@)
}

/// A line without the carriage return at its end, if it has one.
pub open spec fn strip_cr(line: Seq<char>) -> Seq<char> {
    if line.len() > 0 && line.last() == '\r' {
        line.drop_last()
    } else {
        line
    }
}

/// The lines of a text. A line feed ends a line, and a carriage return
/// right before it belongs to the line's end too. What follows the last
/// line feed is the last line, which is empty where the text ends in a
/// line feed; so there is always at least one line.
pub open spec fn lines_of(text: Seq<char>) -> Seq<Seq<char>>
    decreases text.len(),
{
    if text.len() == 0 {
        seq![Seq::empty()]
    } else {
        let before = lines_of(text.drop_last());
        if text.last() == '\n' {
            before.drop_last().push(strip_cr(before.last())).push(Seq::empty())
        } else {
            before.drop_last().push(before.last().push(text.last()))
        }
    }
}

/// Rows without the empty rows at their end.
pub open spec fn trim_rows(rows: Seq<Seq<char>>) -> Seq<Seq<char>>
    decreases rows.len(),
{
    if rows.len() > 0 && rows.last().len() == 0 {
        trim_rows(rows.drop_last())
    } else {
        rows
    }
}

/// The rows of the grid that a level's text describes: its lines, without
/// the empty lines at the end of the text. Other rows stay as they are,
/// each with its own length.
pub open spec fn level_rows(text: Seq<char>) -> Seq<Seq<char>> {
    trim_rows(lines_of(text))
}

/// Whether rows describe a level: there is at least one row, and every
/// character stands for a cell.
pub open spec fn well_formed(rows: Seq<Seq<char>>) -> bool {
    &&& rows.len() > 0
    &&& forall|y: int, x: int|
        0 <= y < rows.len() && 0 <= x < rows[y].len() ==> cell_of(#[trigger] rows[y][x]) is Some
}

/// The tiles of one row.
pub open spec fn row_tiles(row: Seq<char>) -> Seq<Tile> {
    Seq::new(row.len(), |x: int| cell_of(row[x]).unwrap().0)
}

/// The tile grid of a level, row by row.
pub open spec fn tiles_of(rows: Seq<Seq<char>>) -> Seq<Seq<Tile>> {
    Seq::new(rows.len(), |y: int| row_tiles(rows[y]))
}

/// The entities that start in row `y`, from left to right.
pub open spec fn row_objects(row: Seq<char>, y: int) -> Seq<Object>
    decreases row.len(),
{
    if row.len() == 0 {
        Seq::empty()
    } else {
        let before = row_objects(row.drop_last(), y);
        match cell_of(row.last()) {
            Some((_, Some(kind))) => before.push(
                Object { pos: Vec2 { x: (row.len() - 1) as usize, y: y as usize }, kind },
            ),
            _ => before,
        }
    }
}

/// The entities of a level in the order of the text: row by row from the
/// top, and from left to right within a row.
pub open spec fn objects_of(rows: Seq<Seq<char>>) -> Seq<Object>
    decreases rows.len(),
{
    if rows.len() == 0 {
        Seq::empty()
    } else {
        objects_of(rows.drop_last()) + row_objects(rows.last(), rows.len() - 1)
    }
}

/// A level as loaded: its tile grid and its entities.
pub struct Level {
    pub tilemap: Vec<Vec<Tile>>,
    pub objects: Vec<Object>,
}

impl Level {
    /// The tile grid as rows of tiles.
    pub open spec fn tiles(&self) -> Seq<Seq<Tile>> {
        rows_of(self.tilemap@)
    }
}

/// Splits a text into its lines.
pub fn split_lines(text: &str) -> (rows: Vec<Vec<char>>)
    ensures
        rows_of(rows@) == lines_of(text@),
{
    let mut rows: Vec<Vec<char>> = Vec::new();
    let mut line: Vec<char> = Vec::new();
    for c in it: text.chars()
        invariant
            it.seq() == text@,
            rows_of(rows@).push(line@) == lines_of(text@.take(it.index() as int)),
    {
        assert(text@.take(it.index() + 1).drop_last() == text@.take(it.index() as int));
        if c == '\n' {
            let n = line.len();
            if n > 0 && line[n - 1] == '\r' {
                line.pop();
            }
            rows.push(line);
            line = Vec::new();
        } else {
            line.push(c);
        }
    }
    assert(text@.take(text@.len() as int) == text@);
    rows.push(line);
    rows
}

/// Loads a level from its text.
///
/// The text is well formed if it has at least one row once the empty lines
/// at its end are left out, and holds no character without a meaning. Then
/// the level has the tile of each character at the character's place, and
/// one entity for each character that stands for one. Any other text is
/// refused as malformed.
pub fn load(text: &str) -> (loaded: Result<Level, LevelError>)
    ensures
        match loaded {
            Ok(level) => {
                &&& well_formed(level_rows(text@))
                &&& level.tiles() == tiles_of(level_rows(text@))
                &&& level.objects@ == objects_of(level_rows(text@))
            },
            Err(e) => e == LevelError::MalformedLevel && !well_formed(level_rows(text@)),
        },
{
    let mut rows = split_lines(text);
    while rows.len() > 0 && rows[rows.len() - 1].len() == 0
        invariant
            trim_rows(rows_of(rows@)) == level_rows(text@),
        decreases rows.len(),
    {
        let ghost earlier = rows_of(rows@);
        rows.pop();
        assert(rows_of(rows@) == earlier.drop_last());
    }
    let ghost rs = rows_of(rows@);
    if rows.len() == 0 {
        return Err(LevelError::MalformedLevel);
    }
    let mut tilemap: Vec<Vec<Tile>> = Vec::new();
    let mut objects: Vec<Object> = Vec::new();
    for y in 0..rows.len()
        invariant
            rs == rows_of(rows@),
            rs == level_rows(text@),
            rows_of(tilemap@) == tiles_of(rs.take(y as int)),
            objects@ == objects_of(rs.take(y as int)),
            forall|v: int, u: int|
                0 <= v < y && 0 <= u < rs[v].len() ==> cell_of(#[trigger] rs[v][u]) is Some,
    {
        let row = &rows[y];
        let mut tiles: Vec<Tile> = Vec::new();
        for x in 0..row.len()
            invariant
                rs == level_rows(text@),
                row@ == rs[y as int],
                0 <= y < rs.len(),
                tiles@ == row_tiles(row@.take(x as int)),
                objects@ == objects_of(rs.take(y as int)) + row_objects(row@.take(x as int), y as int),
                forall|u: int| 0 <= u < x ==> cell_of(#[trigger] row@[u]) is Some,
        {
            assert(row@.take(x + 1).drop_last() == row@.take(x as int));
            match parse_cell(row[x]) {
                None => {
                    return Err(LevelError::MalformedLevel);
                },
                Some((tile, occupant)) => {
                    tiles.push(tile);
                    match occupant {
                        Some(kind) => {
                            objects.push(Object { pos: Vec2 { x, y }, kind });
                        },
                        None => {},
                    }
                },
            }
        }
        assert(row@.take(row@.len() as int) == row@);
        assert(rs.take(y + 1).drop_last() == rs.take(y as int));
        let ghost earlier = rows_of(tilemap@);
        tilemap.push(tiles);
        assert(rows_of(tilemap@) == earlier.push(row_tiles(rs[y as int])));
    }
    assert(rs.take(rs.len() as int) == rs);
    Ok(Level { tilemap, objects })
}

} // verus!
