//! The board of the maze game: its text format, the player's moves, and the lamps.

use vstd::prelude::*;
use vstd::string::*;

verus! {

/// One cell of a maze.
#[derive(Clone, Copy, Debug, PartialEq, Eq, Structural)]
pub enum MazeEntry {
    /// Free ground; `true` where a lamp stands on it.
    Empty(bool),
    Wall,
    Start,
    End,
}

/// Why a maze cannot be read, or a move not made.
#[derive(Clone, Copy, Debug, PartialEq, Eq, Structural)]
pub enum MazeError {
    /// A row holds something that is no cell, or is not made of cells parted by single
    /// spaces.
    InvalidEntry,
    /// No cell is the start.
    NoStart,
    /// No cell is the end.
    NoEnd,
    /// The text is longer than a cell index can count.
    TooLarge,
    /// The move goes further than to a neighbouring cell.
    TooFar,
    /// The move ends in a wall.
    Wall,
}

/// A place on the board, by row and column.
#[derive(Clone, Copy, Debug, PartialEq, Eq, Structural)]
pub struct MazeIndex {
    pub row: isize,
    pub col: isize,
}

/// What a lamp marks.
#[derive(Clone, Copy, Debug, PartialEq, Eq, Structural)]
pub enum LightKind {
    /// The blue light over the start.
    Start,
    /// The cyan light over the end.
    End,
    /// The white light of a lamp on free ground.
    Lamp,
}

/// A lamp of the maze. The lamp at place `i` of a maze's list casts its shadows into
/// depth map [`FIRST_DEPTH_MAP`]` + i`.
#[derive(Clone, Copy, Debug, PartialEq, Eq, Structural)]
pub struct LightSpot {
    pub at: MazeIndex,
    pub kind: LightKind,
}

/// The depth map of the first lamp.
pub const FIRST_DEPTH_MAP: i32 = 2;

/// A maze with the player in it.
#[derive(Debug)]
pub struct Maze {
    maze: Vec<Vec<MazeEntry>>,
    player: MazeIndex,
    lights: Vec<LightSpot>,
}

/// The lines read so far, the line being read, and whether there is one being read.
pub struct LineScan {
    pub done: Seq<Seq<char>>,
    pub current: Seq<char>,
    pub open: bool,
}

/// A line without the carriage return that ended it, if one did.
pub open spec fn strip_cr(line: Seq<char>) -> Seq<char> {
    if line.len() > 0 && line.last() == '\r' {
        line.drop_last()
    } else {
        line
    }
}

/// Reading a text character by character: a line feed ends the line being read.
pub open spec fn scan_lines(s: Seq<char>) -> LineScan
    decreases s.len(),
{
    if s.len() == 0 {
        LineScan { done: Seq::empty(), current: Seq::empty(), open: false }
    } else {
        let before = scan_lines(s.drop_last());
        if s.last() == '\n' {
            LineScan { done: before.done.push(strip_cr(before.current)), current: Seq::empty(), open: false }
        } else {
            LineScan { done: before.done, current: before.current.push(s.last()), open: true }
        }
    }
}

/// The lines of a text. A line ends with a line feed, or with a carriage return and a
/// line feed, and the last line needs no ending; the endings belong to no line.
pub open spec fn lines(s: Seq<char>) -> Seq<Seq<char>> {
    let scan = scan_lines(s);
    if scan.open {
        scan.done.push(scan.current)
    } else {
        scan.done
    }
}

/// The cell that a character stands for.
pub open spec fn from_symbol(c: char) -> Option<MazeEntry> {
    if c == '_' {
        Some(MazeEntry::Empty(false))
    } else if c == '|' {
        Some(MazeEntry::Wall)
    } else if c == 'L' {
        Some(MazeEntry::Empty(true))
    } else if c == 'S' {
        Some(MazeEntry::Start)
    } else if c == 'E' {
        Some(MazeEntry::End)
    } else {
        None
    }
}

/// A line is a row of the board where it holds cells parted by single spaces: a cell at
/// every even place, a space at every odd one, and a cell at the end.
pub open spec fn row_is_valid(line: Seq<char>) -> bool {
    &&& line.len() % 2 == 1
    &&& forall|i: int|
        0 <= i < line.len() ==> if i % 2 == 0 {
            from_symbol(#[trigger] line[i]) is Some
        } else {
            line[i] == ' '
        }
}

/// The cells of a valid line.
pub open spec fn row_of(line: Seq<char>) -> Seq<MazeEntry> {
    Seq::new(((line.len() + 1) / 2) as nat, |c: int| from_symbol(line[2 * c]).unwrap())
}

/// Every line of the text is a row of the board.
pub open spec fn text_is_valid(s: Seq<char>) -> bool {
    forall|r: int| 0 <= r < lines(s).len() ==> row_is_valid(#[trigger] lines(s)[r])
}

/// The board that a valid text describes.
pub open spec fn grid_of(s: Seq<char>) -> Seq<Seq<MazeEntry>> {
    Seq::new(lines(s).len(), |r: int| row_of(lines(s)[r]))
}

/// The last start among the first `upto` cells of a row.
pub open spec fn row_start(row: Seq<MazeEntry>, upto: int) -> Option<int>
    decreases upto,
{
    if upto <= 0 {
        None
    } else if row[upto - 1] == MazeEntry::Start {
        Some(upto - 1)
    } else {
        row_start(row, upto - 1)
    }
}

/// The last start among the first `upto` rows, reading each row from the left.
pub open spec fn grid_start(grid: Seq<Seq<MazeEntry>>, upto: int) -> Option<MazeIndex>
    decreases upto,
{
    if upto <= 0 {
        None
    } else {
        match row_start(grid[upto - 1], grid[upto - 1].len() as int) {
            Some(c) => Some(MazeIndex { row: (upto - 1) as isize, col: c as isize }),
            None => grid_start(grid, upto - 1),
        }
    }
}

/// Whether an end is among the first `upto` cells of a row.
pub open spec fn row_has_end(row: Seq<MazeEntry>, upto: int) -> bool
    decreases upto,
{
    upto > 0 && (row[upto - 1] == MazeEntry::End || row_has_end(row, upto - 1))
}

/// Whether an end is among the first `upto` rows.
pub open spec fn grid_has_end(grid: Seq<Seq<MazeEntry>>, upto: int) -> bool
    decreases upto,
{
    upto > 0 && (row_has_end(grid[upto - 1], grid[upto - 1].len() as int) || grid_has_end(
        grid,
        upto - 1,
    ))
}

/// The lamp that a cell carries.
pub open spec fn light_kind(entry: MazeEntry) -> Option<LightKind> {
    match entry {
        MazeEntry::Start => Some(LightKind::Start),
        MazeEntry::End => Some(LightKind::End),
        MazeEntry::Empty(true) => Some(LightKind::Lamp),
        _ => None,
    }
}

/// The lamps on the first `upto` cells of row `r`, from the left.
pub open spec fn row_lights(row: Seq<MazeEntry>, r: int, upto: int) -> Seq<LightSpot>
    decreases upto,
{
    if upto <= 0 {
        Seq::empty()
    } else {
        let before = row_lights(row, r, upto - 1);
        match light_kind(row[upto - 1]) {
            Some(kind) => before.push(
                LightSpot { at: MazeIndex { row: r as isize, col: (upto - 1) as isize }, kind },
            ),
            None => before,
        }
    }
}

/// The lamps on the first `upto` rows, row by row from the top.
pub open spec fn grid_lights(grid: Seq<Seq<MazeEntry>>, upto: int) -> Seq<LightSpot>
    decreases upto,
{
    if upto <= 0 {
        Seq::empty()
    } else {
        grid_lights(grid, upto - 1) + row_lights(grid[upto - 1], upto - 1, grid[upto - 1].len() as int)
    }
}

/// What is drawn for the cell at `index`: `P` where the player stands, the cell's own
/// character elsewhere.
pub open spec fn drawn_cell(entry: MazeEntry, index: MazeIndex, player: MazeIndex) -> char {
    if index == player {
        'P'
    } else {
        entry.symbol()
    }
}

/// The first `upto` cells of row `r` as drawn, a space before each but the first.
pub open spec fn drawn_row(row: Seq<MazeEntry>, r: int, player: MazeIndex, upto: int) -> Seq<char>
    decreases upto,
{
    if upto <= 0 {
        Seq::empty()
    } else {
        let cell = drawn_cell(row[upto - 1], MazeIndex { row: r as isize, col: (upto - 1) as isize }, player);
        if upto == 1 {
            seq![cell]
        } else {
            drawn_row(row, r, player, upto - 1).push(' ').push(cell)
        }
    }
}

/// The first `upto` rows as drawn, each ended by a line feed.
pub open spec fn drawn(grid: Seq<Seq<MazeEntry>>, player: MazeIndex, upto: int) -> Seq<char>
    decreases upto,
{
    if upto <= 0 {
        Seq::empty()
    } else {
        drawn(grid, player, upto - 1) + drawn_row(
            grid[upto - 1],
            upto - 1,
            player,
            grid[upto - 1].len() as int,
        ).push('\n')
    }
}

impl MazeEntry {
    /// The character that stands for the cell in the text of a maze.
    pub open spec fn spec_symbol(&self) -> char {
        match self {
            MazeEntry::Empty(false) => '_',
            MazeEntry::Wall => '|',
            MazeEntry::Empty(true) => 'L',
            MazeEntry::Start => 'S',
            MazeEntry::End => 'E',
        }
    }

    /// The character that stands for the cell in the text of a maze.
    #[verifier::when_used_as_spec(spec_symbol)]
    pub fn symbol(&self) -> (c: char)
        ensures
            c == self.spec_symbol(),
    {
        match self {
            MazeEntry::Empty(false) => '_',
            MazeEntry::Wall => '|',
            MazeEntry::Empty(true) => 'L',
            MazeEntry::Start => 'S',
            MazeEntry::End => 'E',
        }
    }

    /// The cell that a character stands for, if it stands for one.
    pub fn from_char(c: char) -> (e: Option<MazeEntry>)
        ensures
            e == from_symbol(c),
    {
        if c == '_' {
            Some(MazeEntry::Empty(false))
        } else if c == '|' {
            Some(MazeEntry::Wall)
        } else if c == 'L' {
            Some(MazeEntry::Empty(true))
        } else if c == 'S' {
            Some(MazeEntry::Start)
        } else if c == 'E' {
            Some(MazeEntry::End)
        } else {
            None
        }
    }

    /// Reads a cell: the text must be the one character that stands for it.
    pub fn from_str(value: &str) -> (r: Result<MazeEntry, MazeError>)
        ensures
            r == if value@.len() == 1 && from_symbol(value@[0]) is Some {
                Ok::<MazeEntry, MazeError>(from_symbol(value@[0]).unwrap())
            } else {
                Err::<MazeEntry, MazeError>(MazeError::InvalidEntry)
            },
    {
        if value.unicode_len() != 1 {
            return Err(MazeError::InvalidEntry);
        }
        match Self::from_char(value.get_char(0)) {
            Some(e) => Ok(e),
            None => Err(MazeError::InvalidEntry),
        }
    }

    /// A cell is read back from the character it is written as.
    pub proof fn lemma_symbol_round_trip(self)
        ensures
            from_symbol(self.symbol()) == Some(self),
    {
    }
}

impl MazeIndex {
    /// The place in the given row and column.
    pub fn new(row: isize, col: isize) -> (index: Self)
        ensures
            index.row == row,
            index.col == col,
    {
        Self { row, col }
    }
}

/// The lines of a text, each as its own vector.
fn split_lines(chars: &Vec<char>) -> (rows: Vec<Vec<char>>)
    ensures
        rows@.len() == lines(chars@).len(),
        forall|r: int| 0 <= r < rows@.len() ==> (#[trigger] rows@[r])@ == lines(chars@)[r],
        rows@.len() <= chars@.len(),
        forall|r: int| 0 <= r < rows@.len() ==> (#[trigger] rows@[r])@.len() <= chars@.len(),
{
    let mut done: Vec<Vec<char>> = Vec::new();
    let mut current: Vec<char> = Vec::new();
    let mut open = false;
    let mut i: usize = 0;
    while i < chars.len()
        invariant
            i <= chars.len(),
            done@.len() == scan_lines(chars@.take(i as int)).done.len(),
            forall|r: int|
                0 <= r < done@.len() ==> (#[trigger] done@[r])@ == scan_lines(chars@.take(i as int)).done[r],
            current@ == scan_lines(chars@.take(i as int)).current,
            open == scan_lines(chars@.take(i as int)).open,
            open ==> current@.len() > 0,
            done@.len() + current@.len() <= i,
            forall|r: int| 0 <= r < done@.len() ==> (#[trigger] done@[r])@.len() <= i,
        decreases chars.len() - i,
    {
        proof {
            assert(chars@.take(i + 1).drop_last() == chars@.take(i as int));
        }
        let c = chars[i];
        if c == '\n' {
            let n = current.len();
            if n > 0 && current[n - 1] == '\r' {
                current.pop();
            }
            done.push(current);
            current = Vec::new();
            open = false;
        } else {
            current.push(c);
            open = true;
        }
        i += 1;
    }
    proof {
        assert(chars@.take(i as int) == chars@);
    }
    if open {
        done.push(current);
    }
    done
}

/// The cells of a line, where the line is a row of the board.
fn parse_row(line: &Vec<char>) -> (r: Option<Vec<MazeEntry>>)
    ensures
        r is Some <==> row_is_valid(line@),
        r matches Some(row) ==> row@ == row_of(line@),
{
    if line.len() % 2 == 0 {
        return None;
    }
    let mut row: Vec<MazeEntry> = Vec::new();
    let mut i: usize = 0;
    while i < line.len()
        invariant
            i <= line.len(),
            line.len() % 2 == 1,
            row@.len() == (i + 1) / 2,
            forall|k: int|
                0 <= k < i ==> if k % 2 == 0 {
                    from_symbol(#[trigger] line@[k]) is Some
                } else {
                    line@[k] == ' '
                },
            forall|c: int| 0 <= c < row@.len() ==> #[trigger] row@[c] == from_symbol(line@[2 * c]).unwrap(),
        decreases line.len() - i,
    {
        let c = line[i];
        if i % 2 == 0 {
            match MazeEntry::from_char(c) {
                Some(e) => {
                    row.push(e);
                },
                None => {
                    return None;
                },
            }
        } else if c != ' ' {
            return None;
        }
        i += 1;
    }
    proof {
        assert(row@ =~= row_of(line@));
    }
    Some(row)
}

/// The characters of a string, in a vector.
fn chars_of(s: &str) -> (chars: Vec<char>)
    ensures
        chars@ == s@,
{
    let n = s.unicode_len();
    let mut chars: Vec<char> = Vec::new();
    let mut i: usize = 0;
    while i < n
        invariant
            i <= n,
            n == s@.len(),
            chars@ == s@.take(i as int),
        decreases n - i,
    {
        chars.push(s.get_char(i));
        proof {
            assert(s@.take(i + 1) == s@.take(i as int).push(s@[i as int]));
        }
        i += 1;
    }
    proof {
        assert(s@.take(n as int) == s@);
    }
    chars
}

/// `String::from_iter` over the characters of a vector: the string that holds exactly
/// these characters, in this order.
#[verifier::external_body]
fn string_of(chars: &Vec<char>) -> (s: String)
    ensures
        s@ == chars@,
{
    String::from_iter(chars.iter())
}

impl Maze {
    /// The board, row by row.
    pub closed spec fn grid(&self) -> Seq<Seq<MazeEntry>> {
        Seq::new(self.maze@.len(), |r: int| self.maze@[r]@)
    }

    /// Where the player stands.
    pub closed spec fn player(&self) -> MazeIndex {
        self.player
    }

    /// The lamps, in the order of the board.
    pub closed spec fn lights(&self) -> Seq<LightSpot> {
        self.lights@
    }

    #[verifier::type_invariant]
    spec fn rows_can_be_indexed(self) -> bool {
        &&& self.maze@.len() <= isize::MAX
        &&& forall|r: int| 0 <= r < self.maze@.len() ==> (#[trigger] self.maze@[r])@.len() <= isize::MAX
    }

    /// Whether `index` names a cell of the board.
    pub open spec fn contains(&self, index: MazeIndex) -> bool {
        0 <= index.row < self.grid().len() && 0 <= index.col < self.grid()[index.row as int].len()
    }

    /// What reading a maze from a text comes to.
    ///
    /// The text is refused where it is longer than an index can count, then where a line
    /// is no row of cells, then where no cell is the start, then where none is the end.
    /// Otherwise the maze has the board of the text; the player stands on the start
    /// (the last one, should there be several), and every start, end and lamp cell
    /// carries a lamp.
    pub open spec fn reads_as(s: Seq<char>, r: Result<Maze, MazeError>) -> bool {
        if s.len() > isize::MAX {
            r matches Err(e) && e == MazeError::TooLarge
        } else if !text_is_valid(s) {
            r matches Err(e) && e == MazeError::InvalidEntry
        } else if grid_start(grid_of(s), grid_of(s).len() as int) is None {
            r matches Err(e) && e == MazeError::NoStart
        } else if !grid_has_end(grid_of(s), grid_of(s).len() as int) {
            r matches Err(e) && e == MazeError::NoEnd
        } else {
            &&& r matches Ok(m)
            &&& m.grid() == grid_of(s)
            &&& Some(m.player()) == grid_start(grid_of(s), grid_of(s).len() as int)
            &&& m.lights() == grid_lights(grid_of(s), grid_of(s).len() as int)
        }
    }

    /// Reads a maze from its text.
    pub fn from_str(s: &str) -> (r: Result<Maze, MazeError>)
        ensures
            Self::reads_as(s@, r),
    {
        let chars = chars_of(s);
        Self::from_chars(&chars)
    }

    /// Reads a maze from the characters of its text.
    pub fn from_chars(chars: &Vec<char>) -> (r: Result<Maze, MazeError>)
        ensures
            Self::reads_as(chars@, r),
    {
        if chars.len() > isize::MAX as usize {
            return Err(MazeError::TooLarge);
        }
        let text = split_lines(chars);
        let mut maze: Vec<Vec<MazeEntry>> = Vec::new();
        let mut r: usize = 0;
        while r < text.len()
            invariant
                r <= text.len(),
                chars@.len() <= isize::MAX,
                text@.len() == lines(chars@).len(),
                forall|k: int| 0 <= k < text@.len() ==> (#[trigger] text@[k])@ == lines(chars@)[k],
                forall|k: int| 0 <= k < text@.len() ==> (#[trigger] text@[k])@.len() <= chars@.len(),
                maze@.len() == r,
                forall|k: int| 0 <= k < r ==> row_is_valid(#[trigger] lines(chars@)[k]),
                forall|k: int| 0 <= k < r ==> (#[trigger] maze@[k])@ == row_of(lines(chars@)[k]),
            decreases text.len() - r,
        {
            match parse_row(&text[r]) {
                Some(row) => {
                    maze.push(row);
                },
                None => {
                    assert(!row_is_valid(lines(chars@)[r as int]));
                    return Err(MazeError::InvalidEntry);
                },
            }
            r += 1;
        }
        let ghost grid = Seq::new(maze@.len(), |k: int| maze@[k]@);
        proof {
            assert(grid =~= grid_of(chars@));
            assert forall|k: int| 0 <= k < maze@.len() implies (#[trigger] maze@[k])@.len()
                <= isize::MAX by {
                assert(text@[k]@.len() <= chars@.len());
                assert(maze@[k]@ == row_of(lines(chars@)[k]));
            }
        }
        let mut start: Option<MazeIndex> = None;
        let mut has_end = false;
        let mut lights: Vec<LightSpot> = Vec::new();
        let mut ri: usize = 0;
        while ri < maze.len()
            invariant
                ri <= maze.len(),
                maze@.len() <= isize::MAX,
                forall|k: int| 0 <= k < maze@.len() ==> (#[trigger] maze@[k])@.len() <= isize::MAX,
                grid == Seq::new(maze@.len(), |k: int| maze@[k]@),
                start == grid_start(grid, ri as int),
                has_end == grid_has_end(grid, ri as int),
                lights@ == grid_lights(grid, ri as int),
            decreases maze.len() - ri,
        {
            let row = &maze[ri];
            let ghost before = lights@;
            let mut row_started: Option<MazeIndex> = None;
            let mut row_ended = false;
            let mut ci: usize = 0;
            while ci < row.len()
                invariant
                    ci <= row.len(),
                    ri < maze.len(),
                    maze@.len() <= isize::MAX,
                    row@.len() <= isize::MAX,
                    row@ == grid[ri as int],
                    row_started == match row_start(row@, ci as int) {
                        Some(c) => Some(MazeIndex { row: ri as isize, col: c as isize }),
                        None => None,
                    },
                    row_ended == row_has_end(row@, ci as int),
                    lights@ == before + row_lights(row@, ri as int, ci as int),
                decreases row.len() - ci,
            {
                let at = MazeIndex::new(ri as isize, ci as isize);
                match row[ci] {
                    MazeEntry::Start => {
                        row_started = Some(at);
                        lights.push(LightSpot { at, kind: LightKind::Start });
                    },
                    MazeEntry::End => {
                        row_ended = true;
                        lights.push(LightSpot { at, kind: LightKind::End });
                    },
                    MazeEntry::Empty(true) => {
                        lights.push(LightSpot { at, kind: LightKind::Lamp });
                    },
                    _ => {},
                }
                ci += 1;
            }
            if row_started.is_some() {
                start = row_started;
            }
            has_end = has_end || row_ended;
            ri += 1;
        }
        match start {
            None => Err(MazeError::NoStart),
            Some(player) => {
                if !has_end {
                    Err(MazeError::NoEnd)
                } else {
                    Ok(Maze { maze, player, lights })
                }
            },
        }
    }

    /// Where the player stands.
    pub fn get_player_loc(&self) -> (at: MazeIndex)
        ensures
            at == self.player(),
    {
        self.player
    }

    /// The rows of the board.
    pub fn iter(&self) -> (rows: &Vec<Vec<MazeEntry>>)
        ensures
            rows@.len() == self.grid().len(),
            forall|r: int| 0 <= r < rows@.len() ==> (#[trigger] rows@[r])@ == self.grid()[r],
    {
        &self.maze
    }

    /// The lamps, in the order of the board.
    pub fn get_lights(&self) -> (lights: &Vec<LightSpot>)
        ensures
            lights@ == self.lights(),
    {
        &self.lights
    }

    /// The cell at `index`.
    pub fn index(&self, index: MazeIndex) -> (entry: &MazeEntry)
        requires
            self.contains(index),
        ensures
            *entry == self.grid()[index.row as int][index.col as int],
    {
        &self.maze[index.row as usize][index.col as usize]
    }

    /// Puts the player on a cell, whatever the cell is.
    pub fn move_player_to(&mut self, new_loc: MazeIndex)
        ensures
            final(self).player() == new_loc,
            final(self).grid() == old(self).grid(),
            final(self).lights() == old(self).lights(),
    {
        proof {
            use_type_invariant(&*self);
        }
        self.player = new_loc;
    }

    /// Whether the cell `dy` rows and `dx` columns from `index` is on the board.
    pub open spec fn contains_neighbour(&self, index: MazeIndex, dx: isize, dy: isize) -> bool {
        &&& 0 <= index.row + dy < self.grid().len()
        &&& 0 <= index.col + dx < self.grid()[index.row + dy].len()
    }

    /// Moves the player by `dx` columns and `dy` rows. A move of more than one cell
    /// either way is refused, and so is a move into a wall; both leave the player where
    /// it stood. The cell moved to must be on the board.
    pub fn move_player(&mut self, dx: isize, dy: isize) -> (r: Result<(), MazeError>)
        requires
            -1 <= dx <= 1 && -1 <= dy <= 1 ==> old(self).contains_neighbour(old(self).player(), dx, dy),
        ensures
            final(self).grid() == old(self).grid(),
            final(self).lights() == old(self).lights(),
            !(-1 <= dx <= 1 && -1 <= dy <= 1) ==> r == Err::<(), MazeError>(MazeError::TooFar)
                && final(self).player() == old(self).player(),
            -1 <= dx <= 1 && -1 <= dy <= 1 ==> ({
                let row = old(self).player().row + dy;
                let col = old(self).player().col + dx;
                let after = final(self).player();
                if old(self).grid()[row][col] == MazeEntry::Wall {
                    r == Err::<(), MazeError>(MazeError::Wall) && after == old(self).player()
                } else {
                    r == Ok::<(), MazeError>(()) && after.row == row && after.col == col
                }
            }),
    {
        proof {
            use_type_invariant(&*self);
        }
        if dx < -1 || dx > 1 || dy < -1 || dy > 1 {
            return Err(MazeError::TooFar);
        }
        let new_cords = MazeIndex::new(self.player.row + dy, self.player.col + dx);
        match self.maze[new_cords.row as usize][new_cords.col as usize] {
            MazeEntry::Wall => Err(MazeError::Wall),
            _ => {
                self.player = new_cords;
                Ok(())
            },
        }
    }

    /// The board as it is drawn: a row per line, a space between the cells, and `P` for
    /// the player.
    pub fn render(&self) -> (out: Vec<char>)
        ensures
            out@ == drawn(self.grid(), self.player(), self.grid().len() as int),
    {
        proof {
            use_type_invariant(self);
        }
        let mut out: Vec<char> = Vec::new();
        let mut ri: usize = 0;
        while ri < self.maze.len()
            invariant
                ri <= self.maze.len(),
                self.maze@.len() <= isize::MAX,
                forall|r: int|
                    0 <= r < self.maze@.len() ==> (#[trigger] self.maze@[r])@.len() <= isize::MAX,
                out@ == drawn(self.grid(), self.player(), ri as int),
            decreases self.maze.len() - ri,
        {
            let row = &self.maze[ri];
            let ghost before = out@;
            let mut ci: usize = 0;
            while ci < row.len()
                invariant
                    ci <= row.len(),
                    ri < self.maze.len(),
                    self.maze@.len() <= isize::MAX,
                    row@.len() <= isize::MAX,
                    row@ == self.grid()[ri as int],
                    out@ == before + drawn_row(row@, ri as int, self.player(), ci as int),
                decreases row.len() - ci,
            {
                let at = MazeIndex::new(ri as isize, ci as isize);
                let c = if at == self.player {
                    'P'
                } else {
                    row[ci].symbol()
                };
                if ci != 0 {
                    out.push(' ');
                }
                out.push(c);
                ci += 1;
            }
            out.push('\n');
            ri += 1;
        }
        out
    }

    /// The board as it is drawn, as a string.
    pub fn to_string(&self) -> (s: String)
        ensures
            s@ == drawn(self.grid(), self.player(), self.grid().len() as int),
    {
        let out = self.render();
        string_of(&out)
    }
}

/// Where a row has a start, `row_start` names one, and no start comes after it.
proof fn lemma_row_start(row: Seq<MazeEntry>, upto: int)
    requires
        0 <= upto <= row.len(),
    ensures
        row_start(row, upto) matches Some(c) ==> 0 <= c < upto && row[c] == MazeEntry::Start && forall|
            k: int,
        | c < k < upto ==> row[k] != MazeEntry::Start,
        row_start(row, upto) is None ==> forall|k: int| 0 <= k < upto ==> row[k] != MazeEntry::Start,
    decreases upto,
{
    if upto > 0 && row[upto - 1] != MazeEntry::Start {
        lemma_row_start(row, upto - 1);
    }
}

impl Maze {
    /// The player starts on a start cell, and on the last one in reading order: no cell
    /// after it in its row and no cell of a later row is a start. Without a start cell
    /// there is no place to start from.
    pub proof fn lemma_start_is_the_last_start(grid: Seq<Seq<MazeEntry>>, upto: int)
        requires
            0 <= upto <= grid.len() <= isize::MAX,
            forall|r: int| 0 <= r < grid.len() ==> (#[trigger] grid[r]).len() <= isize::MAX,
        ensures
            grid_start(grid, upto) matches Some(at) ==> {
                &&& 0 <= at.row < upto
                &&& 0 <= at.col < grid[at.row as int].len()
                &&& grid[at.row as int][at.col as int] == MazeEntry::Start
                &&& forall|c: int|
                    at.col < c < grid[at.row as int].len() ==> grid[at.row as int][c] != MazeEntry::Start
                &&& forall|r: int, c: int|
                    at.row < r < upto && 0 <= c < grid[r].len() ==> grid[r][c] != MazeEntry::Start
            },
            grid_start(grid, upto) is None ==> forall|r: int, c: int|
                0 <= r < upto && 0 <= c < grid[r].len() ==> grid[r][c] != MazeEntry::Start,
        decreases upto,
    {
        if upto > 0 {
            let row = grid[upto - 1];
            lemma_row_start(row, row.len() as int);
            if row_start(row, row.len() as int) is None {
                Self::lemma_start_is_the_last_start(grid, upto - 1);
            }
        }
    }
}

} // verus!
