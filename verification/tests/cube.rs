use cube::algorithm::{Algorithm, MoveBase};
use cube::cube::{Color, Cube};
use cube::permutation::Permutation;

#[test]
fn a_new_cube_is_solved() {
    assert_eq!(Cube::new().state, Permutation::id());
}

#[test]
fn executing_leaves_the_cube_and_gives_a_new_one() {
    let cube = Cube::new();
    let alg = Algorithm::from_str("R U").unwrap();
    let turned = cube.execute(&alg);
    assert_eq!(cube.state, Permutation::id());
    assert_eq!(turned.state, Permutation::r() + Permutation::u());
}

#[test]
fn executing_in_place_changes_the_cube() {
    let mut cube = Cube::new();
    cube.execute_mut(&Algorithm::from_str("R U").unwrap());
    cube.execute_mut(&Algorithm::from_str("U' R'").unwrap());
    assert_eq!(cube.state, Permutation::id());
    cube.execute_mut(&Algorithm::from_str("F").unwrap());
    assert_eq!(cube.state, Permutation::f());
}

fn letter(color: Color) -> char {
    match color {
        Color::Blank => '.',
        Color::White => 'W',
        Color::Green => 'G',
        Color::Red => 'R',
        Color::Blue => 'B',
        Color::Orange => 'O',
        Color::Yellow => 'Y',
    }
}

fn scrambled(text: &str) -> Cube {
    Cube::new().execute(&Algorithm::from_str(text).unwrap())
}

fn face(cube: &Cube, face: MoveBase) -> String {
    cube.stickers(face).iter().map(|c| letter(*c)).collect()
}

fn net(cube: &Cube) -> Vec<String> {
    cube.rows()
        .iter()
        .map(|row| row.iter().map(|c| letter(*c)).collect())
        .collect()
}

#[test]
fn a_solved_cube_shows_one_colour_on_each_face() {
    let cube = Cube::new();
    assert_eq!(face(&cube, MoveBase::U), "WWWWWWWWW");
    assert_eq!(face(&cube, MoveBase::D), "YYYYYYYYY");
    assert_eq!(face(&cube, MoveBase::L), "OOOOOOOOO");
    assert_eq!(face(&cube, MoveBase::R), "RRRRRRRRR");
    assert_eq!(face(&cube, MoveBase::F), "GGGGGGGGG");
    assert_eq!(face(&cube, MoveBase::B), "BBBBBBBBB");
}

#[test]
fn a_turn_carries_stickers_to_the_next_face() {
    let cube = scrambled("R");
    assert_eq!(face(&cube, MoveBase::U), "WWGWWGWWG");
    assert_eq!(face(&cube, MoveBase::D), "YYBYYBYYB");
    assert_eq!(face(&cube, MoveBase::L), "OOOOOOOOO");
    assert_eq!(face(&cube, MoveBase::R), "RRRRRRRRR");
    assert_eq!(face(&cube, MoveBase::F), "GGYGGYGGY");
    assert_eq!(face(&cube, MoveBase::B), "WBBWBBWBB");
    let cube = scrambled("F");
    assert_eq!(face(&cube, MoveBase::U), "WWWWWWOOO");
    assert_eq!(face(&cube, MoveBase::D), "RRRYYYYYY");
    assert_eq!(face(&cube, MoveBase::L), "OOYOOYOOY");
    assert_eq!(face(&cube, MoveBase::R), "WRRWRRWRR");
    let cube = scrambled("U");
    assert_eq!(face(&cube, MoveBase::L), "GGGOOOOOO");
    assert_eq!(face(&cube, MoveBase::R), "BBBRRRRRR");
    assert_eq!(face(&cube, MoveBase::F), "RRRGGGGGG");
    assert_eq!(face(&cube, MoveBase::B), "OOOBBBBBB");
}

#[test]
fn twists_and_flips_turn_the_colours_of_a_piece() {
    let cube = scrambled("R U F' L2 D B'");
    assert_eq!(face(&cube, MoveBase::U), "WGGYWWYRR");
    assert_eq!(face(&cube, MoveBase::D), "WWWYYOGRB");
    assert_eq!(face(&cube, MoveBase::L), "BOOBOOOBR");
    assert_eq!(face(&cube, MoveBase::R), "BBYYRWOGW");
    assert_eq!(face(&cube, MoveBase::F), "BYYBGGGGG");
    assert_eq!(face(&cube, MoveBase::B), "RRROBROWY");
}

#[test]
fn the_net_unfolds_the_cube_in_nine_rows() {
    assert_eq!(
        net(&Cube::new()),
        [
            "...WWW",
            "...WWW",
            "...WWW",
            "OOOGGGRRRBBB",
            "OOOGGGRRRBBB",
            "OOOGGGRRRBBB",
            "...YYY",
            "...YYY",
            "...YYY",
        ]
    );
    assert_eq!(
        net(&scrambled("R U F' L2 D B'")),
        [
            "...WGG",
            "...YWW",
            "...YRR",
            "BOOBYYBBYRRR",
            "BOOBGGYRWOBR",
            "OBRGGGOGWOWY",
            "...WWW",
            "...YYO",
            "...GRB",
        ]
    );
}

#[test]
fn a_colour_is_a_cell_with_a_background() {
    assert_eq!(Color::Blank.to_string(), "\x1b[0m  \x1b[0m");
    assert_eq!(Color::White.to_string(), "\x1b[107m  \x1b[0m");
    assert_eq!(Color::Green.to_string(), "\x1b[102m  \x1b[0m");
    assert_eq!(Color::Red.to_string(), "\x1b[101m  \x1b[0m");
    assert_eq!(Color::Blue.to_string(), "\x1b[104m  \x1b[0m");
    assert_eq!(Color::Orange.to_string(), "\x1b[105m  \x1b[0m");
    assert_eq!(Color::Yellow.to_string(), "\x1b[103m  \x1b[0m");
}

#[test]
fn the_rendering_joins_the_cells_of_each_row_line_by_line() {
    let text = Cube::new().render();
    let lines: Vec<&str> = text.split('\n').collect();
    assert_eq!(lines.len(), 9);
    let pad = "\x1b[0m  \x1b[0m".repeat(3);
    assert_eq!(lines[0], format!("{}{}", pad, "\x1b[107m  \x1b[0m".repeat(3)));
    assert_eq!(
        lines[4],
        format!(
            "{}{}{}{}",
            "\x1b[105m  \x1b[0m".repeat(3),
            "\x1b[102m  \x1b[0m".repeat(3),
            "\x1b[101m  \x1b[0m".repeat(3),
            "\x1b[104m  \x1b[0m".repeat(3)
        )
    );
    assert_eq!(lines[8], format!("{}{}", pad, "\x1b[103m  \x1b[0m".repeat(3)));
    assert!(!text.ends_with('\n'));
}
