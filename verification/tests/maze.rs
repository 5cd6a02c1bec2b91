use graphics_exercises::maze::{LightKind, LightSpot, Maze, MazeEntry, MazeError, MazeIndex, FIRST_DEPTH_MAP};

const BOARD: &str = "| | | | |\n| S _ L |\n| _ | E |\n| | | | |\n";

#[test]
fn a_cell_is_read_from_its_character() {
    assert_eq!(MazeEntry::from_str("_"), Ok(MazeEntry::Empty(false)));
    assert_eq!(MazeEntry::from_str("|"), Ok(MazeEntry::Wall));
    assert_eq!(MazeEntry::from_str("L"), Ok(MazeEntry::Empty(true)));
    assert_eq!(MazeEntry::from_str("S"), Ok(MazeEntry::Start));
    assert_eq!(MazeEntry::from_str("E"), Ok(MazeEntry::End));
    assert_eq!(MazeEntry::from_str("P"), Err(MazeError::InvalidEntry));
    assert_eq!(MazeEntry::from_str(""), Err(MazeError::InvalidEntry));
    assert_eq!(MazeEntry::from_str("SE"), Err(MazeError::InvalidEntry));
}

#[test]
fn a_cell_is_written_as_its_character() {
    for e in [
        MazeEntry::Empty(false),
        MazeEntry::Empty(true),
        MazeEntry::Wall,
        MazeEntry::Start,
        MazeEntry::End,
    ] {
        assert_eq!(MazeEntry::from_char(e.symbol()), Some(e));
    }
    assert_eq!(MazeEntry::Empty(true).symbol(), 'L');
    assert_eq!(MazeEntry::from_char(' '), None);
}

#[test]
fn a_maze_is_read_from_its_text() {
    let maze = Maze::from_str(BOARD).unwrap();
    assert_eq!(maze.get_player_loc(), MazeIndex::new(1, 1));
    let rows = maze.iter();
    assert_eq!(rows.len(), 4);
    assert_eq!(
        rows[1],
        vec![
            MazeEntry::Wall,
            MazeEntry::Start,
            MazeEntry::Empty(false),
            MazeEntry::Empty(true),
            MazeEntry::Wall
        ]
    );
    assert_eq!(*maze.index(MazeIndex::new(2, 3)), MazeEntry::End);
    assert_eq!(
        *maze.get_lights(),
        vec![
            LightSpot { at: MazeIndex::new(1, 1), kind: LightKind::Start },
            LightSpot { at: MazeIndex::new(1, 3), kind: LightKind::Lamp },
            LightSpot { at: MazeIndex::new(2, 3), kind: LightKind::End },
        ]
    );
    assert_eq!(FIRST_DEPTH_MAP, 2);
}

#[test]
fn line_endings_are_those_of_text_files() {
    let plain = Maze::from_str("S E").unwrap();
    assert_eq!(plain.iter().len(), 1);
    let windows = Maze::from_str("S _\r\n_ E\r\n").unwrap();
    assert_eq!(windows.iter().len(), 2);
    assert_eq!(windows.iter()[1], vec![MazeEntry::Empty(false), MazeEntry::End]);
    // A carriage return that no line feed follows belongs to the line.
    assert_eq!(Maze::from_str("S E\r").err(), Some(MazeError::InvalidEntry));
    // An empty line is no row.
    assert_eq!(Maze::from_str("S E\n\n").err(), Some(MazeError::InvalidEntry));
}

#[test]
fn a_text_that_is_no_maze_is_refused() {
    assert_eq!(Maze::from_str("").err(), Some(MazeError::NoStart));
    assert_eq!(Maze::from_str("_ E").err(), Some(MazeError::NoStart));
    assert_eq!(Maze::from_str("S _").err(), Some(MazeError::NoEnd));
    assert_eq!(Maze::from_str("S X E").err(), Some(MazeError::InvalidEntry));
    assert_eq!(Maze::from_str("S  E").err(), Some(MazeError::InvalidEntry));
    assert_eq!(Maze::from_str("S E ").err(), Some(MazeError::InvalidEntry));
    assert_eq!(Maze::from_str("SE").err(), Some(MazeError::InvalidEntry));
    // A bad row is reported before a missing start.
    assert_eq!(Maze::from_str("_ _\n_ x").err(), Some(MazeError::InvalidEntry));
}

#[test]
fn the_last_start_is_where_the_player_stands() {
    let maze = Maze::from_str("S _ S\n_ E _").unwrap();
    assert_eq!(maze.get_player_loc(), MazeIndex::new(0, 2));
    let maze = Maze::from_str("S _ S\nS E _").unwrap();
    assert_eq!(maze.get_player_loc(), MazeIndex::new(1, 0));
    assert_eq!(maze.get_lights().len(), 4);
}

#[test]
fn the_player_moves_by_one_cell_and_not_into_walls() {
    let mut maze = Maze::from_str(BOARD).unwrap();
    assert_eq!(maze.move_player(1, 0), Ok(()));
    assert_eq!(maze.get_player_loc(), MazeIndex::new(1, 2));
    assert_eq!(maze.move_player(0, 1), Err(MazeError::Wall));
    assert_eq!(maze.get_player_loc(), MazeIndex::new(1, 2));
    assert_eq!(maze.move_player(1, 1), Ok(()));
    assert_eq!(maze.get_player_loc(), MazeIndex::new(2, 3));
    assert_eq!(maze.move_player(2, 0), Err(MazeError::TooFar));
    assert_eq!(maze.move_player(0, -2), Err(MazeError::TooFar));
    assert_eq!(maze.move_player(0, 0), Ok(()));
    assert_eq!(maze.get_player_loc(), MazeIndex::new(2, 3));
    maze.move_player_to(MazeIndex::new(1, 1));
    assert_eq!(maze.get_player_loc(), MazeIndex::new(1, 1));
}

#[test]
fn the_maze_is_drawn_with_the_player_in_it() {
    let mut maze = Maze::from_str(BOARD).unwrap();
    assert_eq!(
        maze.to_string(),
        "| | | | |\n| P _ L |\n| _ | E |\n| | | | |\n"
    );
    maze.move_player(1, 0).unwrap();
    assert_eq!(
        maze.to_string(),
        "| | | | |\n| S P L |\n| _ | E |\n| | | | |\n"
    );
    let drawn: String = maze.render().into_iter().collect();
    assert_eq!(drawn, maze.to_string());
}

#[test]
fn reading_from_characters_is_reading_from_text() {
    let chars: Vec<char> = BOARD.chars().collect();
    let a = Maze::from_chars(&chars).unwrap();
    let b = Maze::from_str(BOARD).unwrap();
    assert_eq!(a.iter(), b.iter());
    assert_eq!(a.get_player_loc(), b.get_player_loc());
    assert_eq!(a.get_lights(), b.get_lights());
}
