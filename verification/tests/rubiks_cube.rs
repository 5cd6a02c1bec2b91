use graphics_exercises::rubiks_cube::{Axis, Colors, CubeError, RubiksCube, ShadowPlane, Turn};

fn stickers(cube: &RubiksCube) -> Vec<Colors> {
    let mut all = Vec::new();
    for face in 0..6 {
        for y in 0..3 {
            for x in 0..3 {
                all.push(cube.sticker(face, y, x));
            }
        }
    }
    all
}

fn count(cube: &RubiksCube, colour: Colors) -> usize {
    stickers(cube).into_iter().filter(|c| *c == colour).count()
}

/// The turn as the queue of twelve stickers makes it.
fn turn_by_queue(cube: &RubiksCube, face: usize, mut is_clockwise: bool) -> Vec<Colors> {
    let mut s = stickers(cube);
    let at = |f: usize, y: usize, x: usize| f * 9 + y * 3 + x;
    let plane = ShadowPlane::try_from(face).unwrap();
    let mut shadow: std::collections::VecDeque<Colors> = plane
        .plane
        .iter()
        .flat_map(|(f, cords, _)| cords.map(|(y, x)| s[at(*f, y, x)]))
        .collect();
    if is_clockwise {
        shadow.rotate_right(3);
    } else {
        shadow.rotate_left(3);
    }
    for (f, cords, _) in plane.plane.iter() {
        for (y, x) in cords.iter().cloned() {
            s[at(*f, y, x)] = shadow.pop_front().unwrap();
        }
    }
    if face < 6 {
        is_clockwise = match face {
            2 | 5 | 3 => !is_clockwise,
            _ => is_clockwise,
        };
        let ring = [(0, 0), (0, 1), (0, 2), (1, 2), (2, 2), (2, 1), (2, 0), (1usize, 0usize)];
        let mut edge: Vec<Colors> = ring.iter().map(|&(y, x)| s[at(face, y, x)]).collect();
        if is_clockwise {
            edge.rotate_right(2);
        } else {
            edge.rotate_left(2);
        }
        for ((y, x), colour) in ring.into_iter().zip(edge.into_iter()) {
            s[at(face, y, x)] = colour;
        }
    }
    s
}

#[test]
fn the_solved_cube_has_one_colour_on_each_face() {
    let cube = RubiksCube::solved();
    let colours = [
        Colors::RED,
        Colors::GREY,
        Colors::BLUE,
        Colors::WHITE,
        Colors::GREEN,
        Colors::YELLOW,
    ];
    for (face, colour) in colours.iter().enumerate() {
        for y in 0..3 {
            for x in 0..3 {
                assert_eq!(cube.sticker(face, y, x), *colour);
            }
        }
        assert_eq!(cube.iter()[face].iter()[1][2], *colour);
    }
    assert_eq!(count(&cube, Colors::EMPTY), 0);
}

#[test]
fn a_turn_moves_the_stickers_around_the_plane() {
    let mut cube = RubiksCube::solved();
    assert_eq!(cube.rotate(0, true), Ok(()));
    // The bottom rows of the four faces around plane 0 have moved on by one face.
    for x in 0..3 {
        assert_eq!(cube.sticker(3, 2, x), Colors::GREEN);
        assert_eq!(cube.sticker(2, 2, x), Colors::WHITE);
        assert_eq!(cube.sticker(1, 2, x), Colors::BLUE);
        assert_eq!(cube.sticker(4, 2, x), Colors::GREY);
        assert_eq!(cube.sticker(3, 0, x), Colors::WHITE);
        assert_eq!(cube.sticker(0, 1, x), Colors::RED);
    }
}

#[test]
fn every_turn_is_the_turn_of_the_queue() {
    let mut cube = RubiksCube::solved();
    let moves = [
        (0, true),
        (4, false),
        (7, true),
        (2, true),
        (8, false),
        (5, true),
        (1, false),
        (3, true),
        (6, false),
        (6, true),
        (3, false),
        (0, false),
        (2, false),
        (8, true),
    ];
    for (face, is_clockwise) in moves {
        let expected = turn_by_queue(&cube, face, is_clockwise);
        assert_eq!(cube.rotate(face, is_clockwise), Ok(()));
        assert_eq!(stickers(&cube), expected, "plane {face}");
    }
}

#[test]
fn a_turn_back_undoes_a_turn() {
    let mut cube = RubiksCube::solved();
    cube.rotate(3, true).unwrap();
    cube.rotate(7, false).unwrap();
    let before = stickers(&cube);
    for face in 0..9 {
        for is_clockwise in [true, false] {
            cube.rotate(face, is_clockwise).unwrap();
            assert_ne!(stickers(&cube), before);
            cube.rotate(face, !is_clockwise).unwrap();
            assert_eq!(stickers(&cube), before);
        }
    }
}

#[test]
fn four_turns_are_none() {
    let mut cube = RubiksCube::solved();
    cube.rotate(1, true).unwrap();
    let before = stickers(&cube);
    for face in 0..9 {
        for _ in 0..4 {
            cube.rotate(face, true).unwrap();
        }
        assert_eq!(stickers(&cube), before);
    }
}

#[test]
fn only_nine_planes_turn() {
    let mut cube = RubiksCube::solved();
    assert_eq!(cube.rotate(9, true), Err(CubeError::UnsupportedFace));
    assert_eq!(cube.rotate(usize::MAX, false), Err(CubeError::UnsupportedFace));
    assert_eq!(stickers(&cube), stickers(&RubiksCube::solved()));
    assert_eq!(ShadowPlane::try_from(9).err(), Some(CubeError::UnsupportedFace));
    assert!(ShadowPlane::try_from(8).is_ok());
}

#[test]
fn the_table_of_planes() {
    let p = ShadowPlane::try_from(0).unwrap();
    assert_eq!(p.plane[0], (3, [(2, 2), (2, 1), (2, 0)], 9));
    assert_eq!(p.plane[3], (4, [(2, 0), (2, 1), (2, 2)], 9));
    let p = ShadowPlane::try_from(6).unwrap();
    assert_eq!(p.plane[1], (2, [(0, 1), (1, 1), (2, 1)], 12));
    let p = ShadowPlane::try_from(8).unwrap();
    assert_eq!(p.plane[2], (1, [(0, 1), (1, 1), (2, 1)], 12));
}

#[test]
fn shuffling_keeps_nine_stickers_of_each_colour() {
    let mut cube = RubiksCube::new();
    cube.shuffle();
    for colour in [
        Colors::RED,
        Colors::GREY,
        Colors::BLUE,
        Colors::WHITE,
        Colors::GREEN,
        Colors::YELLOW,
    ] {
        assert_eq!(count(&cube, colour), 9);
    }
}

#[test]
fn a_cube_is_made_from_its_faces() {
    let mut faces = [[[Colors::EMPTY; 3]; 3]; 6];
    faces[2][1][0] = Colors::RED;
    faces[5][2][2] = Colors::BLUE;
    let cube = RubiksCube::from_faces(faces);
    assert_eq!(cube.sticker(2, 1, 0), Colors::RED);
    assert_eq!(cube.sticker(5, 2, 2), Colors::BLUE);
    assert_eq!(cube.sticker(0, 0, 0), Colors::EMPTY);
    assert_eq!(count(&cube, Colors::EMPTY), 52);
}

#[test]
fn how_a_turning_plane_is_shown() {
    let turn = |axis, negative| Ok(Turn { axis, negative });
    assert_eq!(RubiksCube::get_face_rotate(1, true), turn(Axis::Z, false));
    assert_eq!(RubiksCube::get_face_rotate(1, false), turn(Axis::Z, true));
    assert_eq!(RubiksCube::get_face_rotate(3, true), turn(Axis::Z, true));
    assert_eq!(RubiksCube::get_face_rotate(6, true), turn(Axis::Z, false));
    assert_eq!(RubiksCube::get_face_rotate(0, true), turn(Axis::Y, true));
    assert_eq!(RubiksCube::get_face_rotate(5, true), turn(Axis::Y, false));
    assert_eq!(RubiksCube::get_face_rotate(7, false), turn(Axis::Y, true));
    assert_eq!(RubiksCube::get_face_rotate(2, true), turn(Axis::X, false));
    assert_eq!(RubiksCube::get_face_rotate(4, true), turn(Axis::X, true));
    assert_eq!(RubiksCube::get_face_rotate(8, false), turn(Axis::X, true));
    assert_eq!(RubiksCube::get_face_rotate(9, true), Err(CubeError::UnsupportedFace));
    assert_eq!(
        RubiksCube::get_rotate_matrix(2, 5, true),
        Ok((Turn { axis: Axis::X, negative: false }, false))
    );
    assert_eq!(
        RubiksCube::get_rotate_matrix(7, 0, true),
        Ok((Turn { axis: Axis::Y, negative: false }, true))
    );
    assert_eq!(RubiksCube::get_rotate_matrix(9, 0, true), Err(CubeError::UnsupportedFace));
    assert_eq!(RubiksCube::get_rotate_matrix(0, 6, true), Err(CubeError::UnsupportedFace));
}
