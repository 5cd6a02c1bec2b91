//! The Rubik's cube as a board of stickers: which stickers move on which turn.

use rand::Rng;
use vstd::prelude::*;

verus! {

/// The colour of a sticker.
#[derive(Clone, Copy, Debug, PartialEq, Eq, Structural)]
pub enum Colors {
    RED,
    BLUE,
    GREEN,
    YELLOW,
    WHITE,
    GREY,
    EMPTY,
}

/// Why a turn cannot be made.
#[derive(Clone, Copy, Debug, PartialEq, Eq, Structural)]
pub enum CubeError {
    /// Only the planes 0 to 8 can be turned, and only the faces 0 to 5 exist.
    UnsupportedFace,
}

/// The twelve stickers around a plane of the cube: four faces, and on each a row or a
/// column of three, in the order in which a turn hands the stickers on. The last number
/// of each entry names the texture the face is drawn with while the plane turns.
#[derive(Clone, Copy, Debug)]
pub struct ShadowPlane {
    //       face  ,  y    , x
    pub plane: [(usize, [(usize, usize); 3], usize); 4],
}

impl ShadowPlane {
    /// The plane with the given number: 0 to 5 are the outer layers behind the faces of
    /// the same number, 6 to 8 the three middle layers.
    pub open spec fn table(value: usize) -> ShadowPlane {
        if value == 0 {
            ShadowPlane {
                plane: [
                    (3, [(2, 2), (2, 1), (2, 0)], 9),
                    (2, [(2, 2), (2, 1), (2, 0)], 9),
                    (1, [(2, 0), (2, 1), (2, 2)], 9),
                    (4, [(2, 0), (2, 1), (2, 2)], 9),
                ],
            }
        } else if value == 1 {
            ShadowPlane {
                plane: [
                    (0, [(0, 2), (0, 1), (0, 0)], 9),
                    (2, [(2, 0), (1, 0), (0, 0)], 9),
                    (5, [(0, 0), (0, 1), (0, 2)], 9),
                    (4, [(0, 0), (1, 0), (2, 0)], 9),
                ],
            }
        } else if value == 2 {
            ShadowPlane {
                plane: [
                    (0, [(0, 0), (1, 0), (2, 0)], 9),
                    (3, [(2, 0), (1, 0), (0, 0)], 9),
                    (5, [(2, 0), (1, 0), (0, 0)], 9),
                    (1, [(0, 0), (1, 0), (2, 0)], 9),
                ],
            }
        } else if value == 3 {
            ShadowPlane {
                plane: [
                    (0, [(2, 0), (2, 1), (2, 2)], 9),
                    (4, [(2, 2), (1, 2), (0, 2)], 9),
                    (5, [(2, 2), (2, 1), (2, 0)], 9),
                    (2, [(0, 2), (1, 2), (2, 2)], 9),
                ],
            }
        } else if value == 4 {
            ShadowPlane {
                plane: [
                    (0, [(0, 2), (1, 2), (2, 2)], 9),
                    (1, [(0, 2), (1, 2), (2, 2)], 9),
                    (5, [(2, 2), (1, 2), (0, 2)], 9),
                    (3, [(2, 2), (1, 2), (0, 2)], 9),
                ],
            }
        } else if value == 5 {
            ShadowPlane {
                plane: [
                    (3, [(0, 0), (0, 1), (0, 2)], 9),
                    (4, [(0, 2), (0, 1), (0, 0)], 9),
                    (1, [(0, 2), (0, 1), (0, 0)], 9),
                    (2, [(0, 0), (0, 1), (0, 2)], 9),
                ],
            }
        } else if value == 6 {
            ShadowPlane {
                plane: [
                    (0, [(1, 0), (1, 1), (1, 2)], 10),
                    (2, [(0, 1), (1, 1), (2, 1)], 12),
                    (5, [(1, 2), (1, 1), (1, 0)], 9),
                    (4, [(2, 1), (1, 1), (0, 1)], 11),
                ],
            }
        } else if value == 7 {
            ShadowPlane {
                plane: [
                    (3, [(1, 0), (1, 1), (1, 2)], 10),
                    (4, [(1, 0), (1, 1), (1, 2)], 10),
                    (1, [(1, 2), (1, 1), (1, 0)], 10),
                    (2, [(1, 2), (1, 1), (1, 0)], 10),
                ],
            }
        } else {
            ShadowPlane {
                plane: [
                    (3, [(0, 1), (1, 1), (2, 1)], 11),
                    (5, [(0, 1), (1, 1), (2, 1)], 11),
                    (1, [(0, 1), (1, 1), (2, 1)], 12),
                    (0, [(0, 1), (1, 1), (2, 1)], 12),
                ],
            }
        }
    }

    /// The sticker at place `k` of the round, as face, row and column.
    pub open spec fn cell(&self, k: int) -> (usize, usize, usize) {
        (self.plane[k / 3].0, self.plane[k / 3].1[k % 3].0, self.plane[k / 3].1[k % 3].1)
    }

    /// Every sticker of the round is a sticker of the cube.
    pub open spec fn in_range(&self) -> bool {
        forall|k: int|
            0 <= k < 12 ==> (#[trigger] self.cell(k)).0 < 6 && self.cell(k).1 < 3 && self.cell(k).2 < 3
    }

    /// The plane with the given number, which must be one of 0 to 8.
    pub fn try_from(value: usize) -> (r: Result<Self, CubeError>)
        ensures
            value > 8 ==> r == Err::<Self, CubeError>(CubeError::UnsupportedFace),
            value <= 8 ==> r == Ok::<Self, CubeError>(Self::table(value)),
            r matches Ok(p) ==> p.in_range(),
    {
        let plane = match value {
            0 => [
                (3, [(2, 2), (2, 1), (2, 0)], 9),
                (2, [(2, 2), (2, 1), (2, 0)], 9),
                (1, [(2, 0), (2, 1), (2, 2)], 9),
                (4, [(2, 0), (2, 1), (2, 2)], 9),
            ],
            1 => [
                (0, [(0, 2), (0, 1), (0, 0)], 9),
                (2, [(2, 0), (1, 0), (0, 0)], 9),
                (5, [(0, 0), (0, 1), (0, 2)], 9),
                (4, [(0, 0), (1, 0), (2, 0)], 9),
            ],
            2 => [
                (0, [(0, 0), (1, 0), (2, 0)], 9),
                (3, [(2, 0), (1, 0), (0, 0)], 9),
                (5, [(2, 0), (1, 0), (0, 0)], 9),
                (1, [(0, 0), (1, 0), (2, 0)], 9),
            ],
            3 => [
                (0, [(2, 0), (2, 1), (2, 2)], 9),
                (4, [(2, 2), (1, 2), (0, 2)], 9),
                (5, [(2, 2), (2, 1), (2, 0)], 9),
                (2, [(0, 2), (1, 2), (2, 2)], 9),
            ],
            4 => [
                (0, [(0, 2), (1, 2), (2, 2)], 9),
                (1, [(0, 2), (1, 2), (2, 2)], 9),
                (5, [(2, 2), (1, 2), (0, 2)], 9),
                (3, [(2, 2), (1, 2), (0, 2)], 9),
            ],
            5 => [
                (3, [(0, 0), (0, 1), (0, 2)], 9),
                (4, [(0, 2), (0, 1), (0, 0)], 9),
                (1, [(0, 2), (0, 1), (0, 0)], 9),
                (2, [(0, 0), (0, 1), (0, 2)], 9),
            ],
            6 => [
                (0, [(1, 0), (1, 1), (1, 2)], 10),
                (2, [(0, 1), (1, 1), (2, 1)], 12),
                (5, [(1, 2), (1, 1), (1, 0)], 9),
                (4, [(2, 1), (1, 1), (0, 1)], 11),
            ],
            7 => [
                (3, [(1, 0), (1, 1), (1, 2)], 10),
                (4, [(1, 0), (1, 1), (1, 2)], 10),
                (1, [(1, 2), (1, 1), (1, 0)], 10),
                (2, [(1, 2), (1, 1), (1, 0)], 10),
            ],
            8 => [
                (3, [(0, 1), (1, 1), (2, 1)], 11),
                (5, [(0, 1), (1, 1), (2, 1)], 11),
                (1, [(0, 1), (1, 1), (2, 1)], 12),
                (0, [(0, 1), (1, 1), (2, 1)], 12),
            ],
            _ => {
                return Err(CubeError::UnsupportedFace);
            },
        };
        let p = ShadowPlane { plane };
        proof {
            assert(p.plane =~= Self::table(value).plane);
            Self::lemma_table_in_range(value);
        }
        Ok(p)
    }

    /// Every plane of the table runs over stickers of the cube.
    pub proof fn lemma_table_in_range(value: usize)
        ensures
            Self::table(value).in_range(),
    {
        let p = Self::table(value);
        assert forall|k: int| 0 <= k < 12 implies (#[trigger] p.cell(k)).0 < 6 && p.cell(k).1 < 3
            && p.cell(k).2 < 3 by {
            assert(0 <= k / 3 < 4 && 0 <= k % 3 < 3);
        }
    }
}

/// One face of the cube: three rows of three stickers.
#[derive(Clone, Copy, Debug)]
pub struct Face {
    faces: [[Colors; 3]; 3],
}

/// The cube: six faces of nine stickers.
#[derive(Clone, Copy, Debug)]
pub struct RubiksCube {
    blocks: [Face; 6],
}

/// The place of a sticker among the fifty-four, counting face by face and row by row.
pub open spec fn flat(cell: (usize, usize, usize)) -> int {
    cell.0 * 9 + cell.1 * 3 + cell.2
}

/// The last of the first `upto` places of a round at which the sticker `i` stands.
pub open spec fn place(cells: Seq<int>, i: int, upto: int) -> Option<int>
    decreases upto,
{
    if upto <= 0 {
        None
    } else if cells[upto - 1] == i {
        Some(upto - 1)
    } else {
        place(cells, i, upto - 1)
    }
}

/// The stickers after the first `upto` places of a round were handed their new colour:
/// the place `k` of the round gets what stood `shift` places further on.
pub open spec fn cycled_upto(s: Seq<Colors>, cells: Seq<int>, shift: int, upto: int) -> Seq<Colors> {
    Seq::new(
        s.len(),
        |i: int|
            match place(cells, i, upto) {
                Some(k) => s[cells[(k + shift) % (cells.len() as int)]],
                None => s[i],
            },
    )
}

/// The stickers after a round was handed on by `shift` places; stickers that are not
/// on the round stay.
pub open spec fn cycled(s: Seq<Colors>, cells: Seq<int>, shift: int) -> Seq<Colors> {
    cycled_upto(s, cells, shift, cells.len() as int)
}

/// The eight outer stickers of a face, clockwise from the top left corner.
pub open spec fn ring_cell(k: int) -> (usize, usize) {
    if k == 0 {
        (0, 0)
    } else if k == 1 {
        (0, 1)
    } else if k == 2 {
        (0, 2)
    } else if k == 3 {
        (1, 2)
    } else if k == 4 {
        (2, 2)
    } else if k == 5 {
        (2, 1)
    } else if k == 6 {
        (2, 0)
    } else {
        (1, 0)
    }
}

/// The round of the outer stickers of a face.
pub open spec fn ring(face: usize) -> Seq<int> {
    Seq::new(8, |k: int| flat((face, ring_cell(k).0, ring_cell(k).1)))
}

impl ShadowPlane {
    /// The round of the plane, as places among the fifty-four stickers.
    pub open spec fn cells(&self) -> Seq<int> {
        Seq::new(12, |k: int| flat(self.cell(k)))
    }
}

/// Whether the stickers of a face itself go round clockwise when its plane is turned
/// clockwise: on three of the faces rows and columns are laid out mirrored.
pub open spec fn spins_clockwise(face: usize, is_clockwise: bool) -> bool {
    if face == 2 || face == 5 || face == 3 {
        !is_clockwise
    } else {
        is_clockwise
    }
}

/// The stickers after a quarter turn of a plane. The twelve stickers around the plane
/// move on by three places; where the plane is an outer layer, the eight outer stickers
/// of its face move on by two.
pub open spec fn turned(s: Seq<Colors>, face: usize, is_clockwise: bool) -> Seq<Colors> {
    let around = cycled(s, ShadowPlane::table(face).cells(), if is_clockwise { 9 } else { 3 });
    if face < 6 {
        cycled(around, ring(face), if spins_clockwise(face, is_clockwise) { 6 } else { 2 })
    } else {
        around
    }
}

impl View for RubiksCube {
    type V = Seq<Colors>;

    closed spec fn view(&self) -> Seq<Colors> {
        Seq::new(54, |i: int| self.blocks[i / 9].faces[(i % 9) / 3][i % 3])
    }
}

impl RubiksCube {
    /// The cube with the given faces.
    pub fn from_faces(faces: [[[Colors; 3]; 3]; 6]) -> (cube: Self)
        ensures
            cube@.len() == 54,
            forall|f: int, y: int, x: int|
                0 <= f < 6 && 0 <= y < 3 && 0 <= x < 3 ==> cube@[f * 9 + y * 3 + x]
                    == #[trigger] faces[f][y][x],
    {
        let cube = Self {
            blocks: [
                Face { faces: faces[0] },
                Face { faces: faces[1] },
                Face { faces: faces[2] },
                Face { faces: faces[3] },
                Face { faces: faces[4] },
                Face { faces: faces[5] },
            ],
        };
        proof {
            assert forall|f: int, y: int, x: int| 0 <= f < 6 && 0 <= y < 3 && 0 <= x < 3 implies cube@[f
                * 9 + y * 3 + x] == #[trigger] faces[f][y][x] by {
                let i = f * 9 + y * 3 + x;
                assert(i / 9 == f && (i % 9) / 3 == y && i % 3 == x);
            }
        }
        cube
    }

    /// The colour of the sticker in row `y` and column `x` of a face.
    pub fn sticker(&self, face: usize, y: usize, x: usize) -> (c: Colors)
        requires
            face < 6,
            y < 3,
            x < 3,
        ensures
            c == self@[flat((face, y, x))],
    {
        proof {
            let i = flat((face, y, x));
            assert(i / 9 == face && (i % 9) / 3 == y && i % 3 == x);
        }
        self.blocks[face].faces[y][x]
    }

    fn set_sticker(&mut self, face: usize, y: usize, x: usize, c: Colors)
        requires
            face < 6,
            y < 3,
            x < 3,
        ensures
            final(self)@ == old(self)@.update(flat((face, y, x)), c),
    {
        self.blocks[face].faces[y][x] = c;
        proof {
            let target = flat((face, y, x));
            assert(target / 9 == face && (target % 9) / 3 == y && target % 3 == x);
            assert forall|i: int| 0 <= i < 54 implies self@[i] == old(self)@.update(target, c)[i] by {
                if i != target {
                    assert(i / 9 != face || (i % 9) / 3 != y || i % 3 != x);
                }
            }
            assert(self@ =~= old(self)@.update(target, c));
        }
    }

    /// Hands the stickers of a round on by `shift` places.
    fn cycle(&mut self, cells: &Vec<(usize, usize, usize)>, shift: usize)
        requires
            0 < cells.len() <= 12,
            shift < cells.len(),
            forall|k: int|
                0 <= k < cells.len() ==> (#[trigger] cells[k]).0 < 6 && cells[k].1 < 3 && cells[k].2 < 3,
        ensures
            final(self)@ == cycled(old(self)@, cells@.map_values(|c: (usize, usize, usize)| flat(c)), shift as int),
    {
        let n = cells.len();
        let ghost at = cells@.map_values(|c: (usize, usize, usize)| flat(c));
        let ghost start = self@;
        let mut shadow: Vec<Colors> = Vec::new();
        let mut k: usize = 0;
        while k < n
            invariant
                k <= n,
                n == cells.len(),
                self@ == start,
                at == cells@.map_values(|c: (usize, usize, usize)| flat(c)),
                forall|j: int|
                    0 <= j < cells.len() ==> (#[trigger] cells[j]).0 < 6 && cells[j].1 < 3 && cells[j].2 < 3,
                shadow@.len() == k,
                forall|j: int| 0 <= j < k ==> shadow@[j] == start[#[trigger] at[j]],
            decreases n - k,
        {
            let (f, y, x) = cells[k];
            shadow.push(self.sticker(f, y, x));
            k += 1;
        }
        let mut k: usize = 0;
        while k < n
            invariant
                k <= n,
                n == cells.len(),
                0 < n <= 12,
                shift < n,
                start.len() == 54,
                at == cells@.map_values(|c: (usize, usize, usize)| flat(c)),
                forall|j: int|
                    0 <= j < cells.len() ==> (#[trigger] cells[j]).0 < 6 && cells[j].1 < 3 && cells[j].2 < 3,
                shadow@.len() == n,
                forall|j: int| 0 <= j < n ==> shadow@[j] == start[#[trigger] at[j]],
                self@ == cycled_upto(start, at, shift as int, k as int),
            decreases n - k,
        {
            let (f, y, x) = cells[k];
            let from = (k + shift) % n;
            self.set_sticker(f, y, x, shadow[from]);
            proof {
                assert(at[k as int] == flat(cells[k as int]));
                assert(self@ =~= cycled_upto(start, at, shift as int, k + 1));
            }
            k += 1;
        }
    }

    /// Turns a plane of the cube by a quarter. The planes are numbered 0 to 8; any other
    /// number is refused and leaves the cube as it is.
    pub fn rotate(&mut self, face: usize, is_clockwise: bool) -> (r: Result<(), CubeError>)
        ensures
            face > 8 ==> r == Err::<(), CubeError>(CubeError::UnsupportedFace) && final(self)@ == old(self)@,
            face <= 8 ==> r == Ok::<(), CubeError>(()) && final(self)@ == turned(
                old(self)@,
                face,
                is_clockwise,
            ),
    {
        let plane = match ShadowPlane::try_from(face) {
            Ok(plane) => plane,
            Err(e) => {
                return Err(e);
            },
        };
        let mut around: Vec<(usize, usize, usize)> = Vec::new();
        let mut k: usize = 0;
        while k < 12
            invariant
                k <= 12,
                plane.in_range(),
                around@.len() == k,
                forall|j: int| 0 <= j < k ==> #[trigger] around@[j] == plane.cell(j),
            decreases 12 - k,
        {
            let entry = plane.plane[k / 3];
            let at = entry.1[k % 3];
            around.push((entry.0, at.0, at.1));
            k += 1;
        }
        proof {
            assert forall|j: int| 0 <= j < 12 implies (#[trigger] around@[j]).0 < 6 && around@[j].1 < 3
                && around@[j].2 < 3 by {
                assert(around@[j] == plane.cell(j));
            }
            assert(around@.map_values(|c: (usize, usize, usize)| flat(c)) =~= plane.cells());
        }
        self.cycle(&around, if is_clockwise { 9 } else { 3 });
        if face < 6 {
            let spin = match face {
                2 | 5 | 3 => !is_clockwise,
                _ => is_clockwise,
            };
            let face_cords: [(usize, usize); 8] = [
                (0, 0),
                (0, 1),
                (0, 2),
                (1, 2),
                (2, 2),
                (2, 1),
                (2, 0),
                (1, 0),
            ];
            let mut edge: Vec<(usize, usize, usize)> = Vec::new();
            let mut k: usize = 0;
            while k < 8
                invariant
                    k <= 8,
                    face < 6,
                    edge@.len() == k,
                    forall|j: int| 0 <= j < 8 ==> #[trigger] face_cords[j] == ring_cell(j),
                    forall|j: int|
                        0 <= j < k ==> #[trigger] edge@[j] == (face, ring_cell(j).0, ring_cell(j).1),
                decreases 8 - k,
            {
                edge.push((face, face_cords[k].0, face_cords[k].1));
                k += 1;
            }
            proof {
                assert(edge@.map_values(|c: (usize, usize, usize)| flat(c)) =~= ring(face));
            }
            self.cycle(&edge, if spin { 6 } else { 2 });
        }
        Ok(())
    }

    /// The cube with every face in one colour.
    pub fn solved() -> (cube: Self)
        ensures
            cube@ == solved_stickers(),
    {
        let faces = [
            [[Colors::RED, Colors::RED, Colors::RED], [Colors::RED, Colors::RED, Colors::RED], [Colors::RED, Colors::RED, Colors::RED]],
            [[Colors::GREY, Colors::GREY, Colors::GREY], [Colors::GREY, Colors::GREY, Colors::GREY], [Colors::GREY, Colors::GREY, Colors::GREY]],
            [[Colors::BLUE, Colors::BLUE, Colors::BLUE], [Colors::BLUE, Colors::BLUE, Colors::BLUE], [Colors::BLUE, Colors::BLUE, Colors::BLUE]],
            [[Colors::WHITE, Colors::WHITE, Colors::WHITE], [Colors::WHITE, Colors::WHITE, Colors::WHITE], [Colors::WHITE, Colors::WHITE, Colors::WHITE]],
            [[Colors::GREEN, Colors::GREEN, Colors::GREEN], [Colors::GREEN, Colors::GREEN, Colors::GREEN], [Colors::GREEN, Colors::GREEN, Colors::GREEN]],
            [[Colors::YELLOW, Colors::YELLOW, Colors::YELLOW], [Colors::YELLOW, Colors::YELLOW, Colors::YELLOW], [Colors::YELLOW, Colors::YELLOW, Colors::YELLOW]],
        ];
        let cube = Self::from_faces(faces);
        proof {
            assert forall|i: int| 0 <= i < 54 implies cube@[i] == solved_stickers()[i] by {
                let f = i / 9;
                let y = (i % 9) / 3;
                let x = i % 3;
                assert(i == f * 9 + y * 3 + x);
                assert(cube@[f * 9 + y * 3 + x] == faces[f][y][x]);
            }
            assert(cube@ =~= solved_stickers());
        }
        cube
    }

    /// A cube that was solved and then shuffled.
    pub fn new() -> (cube: Self)
        ensures
            shuffled_from(solved_stickers(), cube@),
    {
        let mut cube = Self::solved();
        cube.shuffle();
        cube
    }

    /// Makes between fifty and a hundred quarter turns, each of a plane and in a
    /// direction drawn at random.
    pub fn shuffle(&mut self)
        ensures
            shuffled_from(old(self)@, final(self)@),
    {
        let turns = random_in(50, 100);
        let ghost start = self@;
        let ghost mut moves: Seq<(usize, bool)> = Seq::empty();
        let mut i: usize = 0;
        while i < turns
            invariant
                i <= turns,
                moves.len() == i,
                forall|k: int| 0 <= k < moves.len() ==> (#[trigger] moves[k]).0 <= 8,
                self@ == played(start, moves),
            decreases turns - i,
        {
            let face = random_in(0, 8);
            let is_clockwise = random_flag();
            let _ = self.rotate(face, is_clockwise);
            proof {
                let longer = moves.push((face, is_clockwise));
                assert(longer.drop_last() == moves);
                moves = longer;
            }
            i += 1;
        }
    }

    /// The six faces.
    pub fn iter(&self) -> (faces: &[Face; 6])
        ensures
            forall|f: int, y: int, x: int|
                0 <= f < 6 && 0 <= y < 3 && 0 <= x < 3 ==> self@[f * 9 + y * 3 + x]
                    == #[trigger] faces[f].rows()[y][x],
    {
        proof {
            assert forall|f: int, y: int, x: int| 0 <= f < 6 && 0 <= y < 3 && 0 <= x < 3 implies self@[f
                * 9 + y * 3 + x] == #[trigger] self.blocks[f].rows()[y][x] by {
                let i = f * 9 + y * 3 + x;
                assert(i / 9 == f && (i % 9) / 3 == y && i % 3 == x);
            }
        }
        &self.blocks
    }
}

impl Face {
    /// The three rows of the face.
    pub closed spec fn rows(&self) -> [[Colors; 3]; 3] {
        self.faces
    }

    /// The three rows of the face.
    pub fn iter(&self) -> (rows: &[[Colors; 3]; 3])
        ensures
            *rows == self.rows(),
    {
        &self.faces
    }
}

/// The axis about which a plane turns.
#[derive(Clone, Copy, Debug, PartialEq, Eq, Structural)]
pub enum Axis {
    X,
    Y,
    Z,
}

/// How a plane is shown while it turns: about which axis, and whether the angle, which
/// is the progress of the turn times a quarter circle, is taken negative.
#[derive(Clone, Copy, Debug, PartialEq, Eq, Structural)]
pub struct Turn {
    pub axis: Axis,
    pub negative: bool,
}

/// The axis of a plane: the planes 1, 3 and 6 turn about z, the planes 0, 5 and 7
/// about y, the planes 2, 4 and 8 about x.
pub open spec fn axis_of(face: usize) -> Axis {
    if face == 3 || face == 1 || face == 6 {
        Axis::Z
    } else if face == 0 || face == 5 || face == 7 {
        Axis::Y
    } else {
        Axis::X
    }
}

/// Whether the angle of a turn is negative. Three things each reverse it: that the plane
/// is one of 3, 4, 5 and 7, that the turn is not clockwise, and that the axis is y.
pub open spec fn angle_is_negative(face: usize, is_clockwise: bool) -> bool {
    let mirrored = face == 5 || face == 7 || face == 4 || face == 3;
    let about_y = axis_of(face) == Axis::Y;
    (mirrored != !is_clockwise) != about_y
}

impl RubiksCube {
    /// How the plane `face` is shown while it turns. Only the planes 0 to 8 turn.
    pub fn get_face_rotate(face: usize, is_clockwise: bool) -> (r: Result<Turn, CubeError>)
        ensures
            face > 8 ==> r == Err::<Turn, CubeError>(CubeError::UnsupportedFace),
            face <= 8 ==> r == Ok::<Turn, CubeError>(
                (Turn { axis: axis_of(face), negative: angle_is_negative(face, is_clockwise) }),
            ),
    {
        let mut negative = match face {
            5 | 7 | 4 | 3 => true,
            _ => false,
        };
        if !is_clockwise {
            negative = !negative;
        }
        match face {
            3 | 1 | 6 => Ok(Turn { axis: Axis::Z, negative }),
            0 | 5 | 7 => Ok(Turn { axis: Axis::Y, negative: !negative }),
            2 | 4 | 8 => Ok(Turn { axis: Axis::X, negative }),
            _ => Err(CubeError::UnsupportedFace),
        }
    }

    /// How a sticker of `face` is shown while the plane `rotating_face` turns: the turn, and
    /// whether it goes about the centre of the cube (as the middle layers do) instead of
    /// about the centre of the turning face. Planes above 8 and faces above 5 are refused.
    pub fn get_rotate_matrix(rotating_face: usize, face: usize, is_clockwise: bool) -> (r: Result<
        (Turn, bool),
        CubeError,
    >)
        ensures
            rotating_face >= 9 || face >= 6 ==> r == Err::<(Turn, bool), CubeError>(
                CubeError::UnsupportedFace,
            ),
            rotating_face < 9 && face < 6 ==> r == Ok::<(Turn, bool), CubeError>(
                (
                    Turn {
                        axis: axis_of(rotating_face),
                        negative: angle_is_negative(rotating_face, is_clockwise),
                    },
                    rotating_face >= 6,
                ),
            ),
    {
        if rotating_face >= 9 || face >= 6 {
            return Err(CubeError::UnsupportedFace);
        }
        match Self::get_face_rotate(rotating_face, is_clockwise) {
            Ok(turn) => Ok((turn, rotating_face >= 6)),
            Err(e) => Err(e),
        }
    }
}

/// The colour of a face of the solved cube.
pub open spec fn solved_color(face: int) -> Colors {
    if face == 0 {
        Colors::RED
    } else if face == 1 {
        Colors::GREY
    } else if face == 2 {
        Colors::BLUE
    } else if face == 3 {
        Colors::WHITE
    } else if face == 4 {
        Colors::GREEN
    } else {
        Colors::YELLOW
    }
}

/// The stickers of the solved cube.
pub open spec fn solved_stickers() -> Seq<Colors> {
    Seq::new(54, |i: int| solved_color(i / 9))
}

/// The stickers after a sequence of quarter turns, each given by its plane and by
/// whether it goes clockwise.
pub open spec fn played(s: Seq<Colors>, moves: Seq<(usize, bool)>) -> Seq<Colors>
    decreases moves.len(),
{
    if moves.len() == 0 {
        s
    } else {
        turned(played(s, moves.drop_last()), moves.last().0, moves.last().1)
    }
}

/// `after` comes from `before` by fifty to a hundred quarter turns of planes of the cube.
pub open spec fn shuffled_from(before: Seq<Colors>, after: Seq<Colors>) -> bool {
    exists|moves: Seq<(usize, bool)>|
        50 <= moves.len() <= 100 && (forall|k: int| 0 <= k < moves.len() ==> (#[trigger] moves[k]).0 <= 8)
            && after == #[trigger] played(before, moves)
}

/// `Rng::gen_range` of the rand crate, on the generator of the running thread and over
/// the range from `low` to `high`, both included. The number it returns lies in the
/// range; it panics on an empty range, which the precondition keeps away.
#[verifier::external_body]
fn random_in(low: usize, high: usize) -> (n: usize)
    requires
        low <= high,
    ensures
        low <= n <= high,
{
    rand::thread_rng().gen_range(low..=high)
}

/// `Rng::gen_ratio` of the rand crate, on the generator of the running thread, with one
/// chance in two. Nothing is known of the outcome.
#[verifier::external_body]
fn random_flag() -> bool {
    rand::thread_rng().gen_ratio(1, 2)
}

/// No sticker stands at two places of the round, and every place is a sticker of the
/// cube.
pub open spec fn is_round(cells: Seq<int>) -> bool {
    &&& cells.len() > 0
    &&& forall|k: int| 0 <= k < cells.len() ==> 0 <= #[trigger] cells[k] < 54
    &&& forall|j: int, k: int| 0 <= j < k < cells.len() ==> cells[j] != cells[k]
}

/// Two rounds that share no sticker.
pub open spec fn apart(one: Seq<int>, other: Seq<int>) -> bool {
    forall|j: int, k: int| 0 <= j < one.len() && 0 <= k < other.len() ==> one[j] != other[k]
}

/// What `place` finds is a place of the sticker, and it finds one wherever there is one.
proof fn lemma_place(cells: Seq<int>, i: int, upto: int)
    requires
        0 <= upto <= cells.len(),
    ensures
        place(cells, i, upto) matches Some(k) ==> 0 <= k < upto && cells[k] == i,
        place(cells, i, upto) is None ==> forall|k: int| 0 <= k < upto ==> cells[k] != i,
    decreases upto,
{
    if upto > 0 && cells[upto - 1] != i {
        lemma_place(cells, i, upto - 1);
    }
}

/// On a round every sticker is found at its own place.
proof fn lemma_place_on_round(cells: Seq<int>, m: int)
    requires
        is_round(cells),
        0 <= m < cells.len(),
    ensures
        place(cells, cells[m], cells.len() as int) == Some(m),
{
    lemma_place(cells, cells[m], cells.len() as int);
}

/// Handing a round on by `a` places and then by `b` places, where `a` and `b` add up to
/// a whole round, leaves every sticker where it was.
proof fn lemma_cycle_back(s: Seq<Colors>, cells: Seq<int>, a: int, b: int)
    requires
        s.len() == 54,
        is_round(cells),
        0 <= a,
        0 <= b,
        forall|k: int|
            0 <= k < cells.len() ==> 0 <= #[trigger] ((k + b) % (cells.len() as int)) < cells.len() && ((k
                + b) % (cells.len() as int) + a) % (cells.len() as int) == k,
    ensures
        cycled(cycled(s, cells, a), cells, b) == s,
{
    let n = cells.len() as int;
    let once = cycled(s, cells, a);
    let twice = cycled(once, cells, b);
    assert forall|i: int| 0 <= i < 54 implies twice[i] == s[i] by {
        lemma_place(cells, i, n);
        match place(cells, i, n) {
            Some(k) => {
                let via = (k + b) % n;
                lemma_place_on_round(cells, via);
            },
            None => {},
        }
    }
    assert(twice =~= s);
}

/// Two rounds that share no sticker can be handed on in either order.
proof fn lemma_cycles_commute(s: Seq<Colors>, one: Seq<int>, a: int, other: Seq<int>, b: int)
    requires
        s.len() == 54,
        is_round(one),
        is_round(other),
        apart(one, other),
        forall|k: int| 0 <= k < one.len() ==> 0 <= #[trigger] ((k + a) % (one.len() as int)) < one.len(),
        forall|k: int|
            0 <= k < other.len() ==> 0 <= #[trigger] ((k + b) % (other.len() as int)) < other.len(),
    ensures
        cycled(cycled(s, one, a), other, b) == cycled(cycled(s, other, b), one, a),
{
    let left = cycled(cycled(s, one, a), other, b);
    let right = cycled(cycled(s, other, b), one, a);
    assert forall|i: int| 0 <= i < 54 implies left[i] == right[i] by {
        lemma_place(one, i, one.len() as int);
        lemma_place(other, i, other.len() as int);
        match place(other, i, other.len() as int) {
            Some(k) => {
                let via = (k + b) % (other.len() as int);
                lemma_place(one, other[via], one.len() as int);
            },
            None => {},
        }
        match place(one, i, one.len() as int) {
            Some(k) => {
                let via = (k + a) % (one.len() as int);
                lemma_place(other, one[via], other.len() as int);
            },
            None => {},
        }
    }
    assert(left =~= right);
}

impl ShadowPlane {
    /// The four faces of the round differ, none of them is `own`, and the three stickers
    /// on each of them differ.
    pub open spec fn laid_around(&self, own: usize) -> bool {
        let p = self.plane;
        &&& p[0].0 != p[1].0 && p[0].0 != p[2].0 && p[0].0 != p[3].0
        &&& p[1].0 != p[2].0 && p[1].0 != p[3].0 && p[2].0 != p[3].0
        &&& p[0].0 != own && p[1].0 != own && p[2].0 != own && p[3].0 != own
        &&& p[0].1[0] != p[0].1[1] && p[0].1[0] != p[0].1[2] && p[0].1[1] != p[0].1[2]
        &&& p[1].1[0] != p[1].1[1] && p[1].1[0] != p[1].1[2] && p[1].1[1] != p[1].1[2]
        &&& p[2].1[0] != p[2].1[1] && p[2].1[0] != p[2].1[2] && p[2].1[1] != p[2].1[2]
        &&& p[3].1[0] != p[3].1[1] && p[3].1[0] != p[3].1[2] && p[3].1[1] != p[3].1[2]
    }

    /// The stickers around a plane form a round, which keeps off the face of the plane
    /// itself.
    proof fn lemma_round(self, own: usize)
        requires
            self.in_range(),
            self.laid_around(own),
            own < 9,
        ensures
            is_round(self.cells()),
            own < 6 ==> apart(self.cells(), ring(own)),
    {
        let cells = self.cells();
        assert forall|k: int| 0 <= k < 12 implies 0 <= #[trigger] cells[k] < 54 by {
            assert(self.cell(k).0 < 6);
        }
        assert forall|j: int, k: int| 0 <= j < k < 12 implies cells[j] != cells[k] by {
            assert(self.cell(j).0 < 6 && self.cell(k).0 < 6);
            assert(0 <= j / 3 < 4 && 0 <= k / 3 < 4 && 0 <= j % 3 < 3 && 0 <= k % 3 < 3);
            if j / 3 == k / 3 {
                assert(j % 3 != k % 3);
                assert(self.plane[j / 3].1[j % 3] != self.plane[k / 3].1[k % 3]);
            } else {
                assert(self.plane[j / 3].0 != self.plane[k / 3].0);
            }
        }
        if own < 6 {
            assert forall|j: int, k: int| 0 <= j < 12 && 0 <= k < 8 implies cells[j] != ring(own)[k] by {
                assert(self.cell(j).0 < 6);
                assert(0 <= j / 3 < 4);
                assert(self.plane[j / 3].0 != own);
            }
        }
    }
}

/// The outer stickers of a face form a round.
proof fn lemma_ring_is_round(face: usize)
    requires
        face < 6,
    ensures
        is_round(ring(face)),
{
}

impl RubiksCube {
    /// A quarter turn of a plane and the quarter turn back leave the cube as it was.
    pub proof fn lemma_turn_back(s: Seq<Colors>, face: usize, is_clockwise: bool)
        requires
            s.len() == 54,
            face <= 8,
        ensures
            turned(turned(s, face, is_clockwise), face, !is_clockwise) == s,
    {
        let plane = ShadowPlane::table(face);
        let around = plane.cells();
        let a: int = if is_clockwise { 9 } else { 3 };
        let back: int = 12 - a;
        ShadowPlane::lemma_table_in_range(face);
        assert(plane.laid_around(face));
        plane.lemma_round(face);
        if face < 6 {
            let edge = ring(face);
            let r: int = if spins_clockwise(face, is_clockwise) { 6 } else { 2 };
            let r_back: int = 8 - r;
            lemma_ring_is_round(face);
            let first = cycled(s, around, a);
            lemma_cycles_commute(first, around, back, edge, r);
            lemma_cycle_back(s, around, a, back);
            lemma_cycle_back(s, edge, r, r_back);
            assert(cycled(cycled(first, edge, r), around, back) == cycled(s, edge, r));
            assert(turned(s, face, is_clockwise) == cycled(first, edge, r));
        } else {
            lemma_cycle_back(s, around, a, back);
        }
    }
}

} // verus!
