use cube::algorithm::{Algorithm, Move, MoveBase, Turn};
use cube::permutation::Permutation;

#[test]
fn alg_and_inverse_makes_id() {
    let alg = Algorithm::from_str("R U L' D B D2 F L").unwrap();
    let inv = alg.inverse();
    assert_eq!(inv.execute(alg.execute(Permutation::id())), Permutation::id());
}

#[test]
fn alg_and_non_inverse_makes_not_id() {
    let mut alg = Algorithm::from_str("R U L' D B D2 F L").unwrap();
    let inv = alg.inverse();
    alg.pop();
    assert_ne!(inv.execute(alg.execute(Permutation::id())), Permutation::id());
}

#[test]
fn superflip() {
    let superflip1 =
        Algorithm::from_str("U R2 F B R B2 R U2 L B2 R U' D' R2 F R' L B2 U2 F2").unwrap();
    let superflip2 =
        Algorithm::from_str("R' U2 B L' F U' B D F U D' L D2 F' R B' D F' U' B' U D'").unwrap();
    assert_eq!(
        superflip1.execute(Permutation::id()),
        superflip2.execute(Permutation::id())
    );
}

fn mv(face: MoveBase, turn: Turn) -> Move {
    Move { face, turn }
}

#[test]
fn superflip_flips_every_edge_in_place() {
    let alg = Algorithm::from_str("U R2 F B R B2 R U2 L B2 R U' D' R2 F R' L B2 U2 F2").unwrap();
    let state = alg.execute(Permutation::id());
    assert_eq!(state.cp, Permutation::id().cp);
    assert_eq!(state.co, [0; 8]);
    assert_eq!(state.ep, Permutation::id().ep);
    assert_eq!(state.eo, [1; 12]);
}

#[test]
fn a_token_is_a_face_letter_with_an_optional_modifier() {
    assert_eq!(Move::from_str("U"), Ok(mv(MoveBase::U, Turn::Clockwise)));
    assert_eq!(Move::from_str("D2"), Ok(mv(MoveBase::D, Turn::Half)));
    assert_eq!(Move::from_str("L'"), Ok(mv(MoveBase::L, Turn::Counter)));
    assert_eq!(Move::from_str("R"), Ok(mv(MoveBase::R, Turn::Clockwise)));
    assert_eq!(Move::from_str("F2"), Ok(mv(MoveBase::F, Turn::Half)));
    assert_eq!(Move::from_str("B'"), Ok(mv(MoveBase::B, Turn::Counter)));
}

#[test]
fn a_token_that_names_no_move_is_rejected() {
    for bad in [
        "", "X", "u", "2", "'", "U3", "U22", "U''", "U'2", "U2'", "UU", "U 2", " U", "M", "x2",
    ] {
        assert_eq!(Move::from_str(bad), Err("Could not parse move"), "{bad:?}");
    }
}

#[test]
fn a_face_is_read_from_its_letter_alone() {
    assert_eq!(MoveBase::from_str("U"), Ok(MoveBase::U));
    assert_eq!(MoveBase::from_str("B"), Ok(MoveBase::B));
    assert_eq!(MoveBase::from_str("U2"), Err("Could not parse move"));
    assert_eq!(MoveBase::from_str(""), Err("Could not parse move"));
    assert_eq!(MoveBase::from_str("Q"), Err("Could not parse move"));
    assert_eq!(MoveBase::from_char('L'), Some(MoveBase::L));
    assert_eq!(MoveBase::from_char('l'), None);
}

#[test]
fn tokens_are_separated_by_any_white_space() {
    let alg = Algorithm::from_str("  R\tU2\n\nL'\u{a0}D \u{2003}B\u{3000}").unwrap();
    assert_eq!(alg.to_string(), "R U2 L' D B");
    assert_eq!(alg.len(), 5);
    assert_eq!(Algorithm::from_str("").unwrap().len(), 0);
    assert_eq!(Algorithm::from_str(" \t\r\n").unwrap().len(), 0);
}

#[test]
fn one_bad_token_fails_the_whole_text() {
    assert_eq!(Algorithm::from_str("R U X D").err(), Some("Could not parse move"));
    assert_eq!(Algorithm::from_str("R U2' D").err(), Some("Could not parse move"));
    assert_eq!(Algorithm::from_str("RU").err(), Some("Could not parse move"));
    assert_eq!(Algorithm::from_str("R,U").err(), Some("Could not parse move"));
    assert_eq!(Algorithm::from_str("R U\u{200b}D").err(), Some("Could not parse move"));
}

#[test]
fn notation_round_trips() {
    let text = "R U L' D B D2 F L";
    assert_eq!(Algorithm::from_str(text).unwrap().to_string(), text);
    assert_eq!(Algorithm::new().to_string(), "");
    for mov in Move::moves_list() {
        assert_eq!(Move::from_str(&mov.to_string()), Ok(mov));
    }
}

#[test]
fn the_catalog_lists_eighteen_moves_face_by_face() {
    let names: Vec<String> = Move::moves_list().iter().map(|m| m.to_string()).collect();
    assert_eq!(
        names.join(" "),
        "U U2 U' D D2 D' L L2 L' R R2 R' F F2 F' B B2 B'"
    );
}

#[test]
fn a_move_is_its_generator_to_the_power_of_its_turn() {
    let r = Permutation::r();
    assert_eq!(mv(MoveBase::R, Turn::Clockwise).permutation(), r);
    assert_eq!(mv(MoveBase::R, Turn::Half).permutation(), r + r);
    assert_eq!(mv(MoveBase::R, Turn::Counter).permutation(), -r);
    assert_eq!(Turn::Clockwise.power(), 1);
    assert_eq!(Turn::Half.power(), 2);
    assert_eq!(Turn::Counter.power(), -1);
    assert_eq!(MoveBase::F.permutation(), Permutation::f());
    assert_eq!(MoveBase::F.to_string(), "F");
}

#[test]
fn executing_a_move_composes_it_from_the_right() {
    let state = Permutation::f() + Permutation::u();
    let mov = mv(MoveBase::L, Turn::Counter);
    assert_eq!(mov.execute(state), state + -Permutation::l());
    assert_ne!(mov.execute(state), -Permutation::l() + state);
}

#[test]
fn the_inverse_of_a_move_undoes_it() {
    for mov in Move::moves_list() {
        let inv = mov.inverse();
        assert_eq!(inv.face, mov.face);
        assert_eq!(inv.execute(mov.execute(Permutation::id())), Permutation::id());
        assert_eq!(inv.permutation(), -mov.permutation());
    }
    assert_eq!(mv(MoveBase::U, Turn::Half).inverse().turn, Turn::Half);
    assert_eq!(mv(MoveBase::U, Turn::Clockwise).inverse().turn, Turn::Counter);
    assert_eq!(mv(MoveBase::U, Turn::Counter).inverse().turn, Turn::Clockwise);
}

#[test]
fn moves_are_classified_by_face_and_turn() {
    let names = |keep: fn(Move) -> bool| -> String {
        Move::moves_list()
            .into_iter()
            .filter(|m| keep(*m))
            .map(|m| m.to_string())
            .collect::<Vec<String>>()
            .join(" ")
    };
    assert_eq!(
        names(Move::keeps_eo),
        "U U2 U' D D2 D' L L2 L' R R2 R' F2 B2"
    );
    assert_eq!(names(Move::keeps_domino), "U U2 U' D D2 D' L2 R2 F2 B2");
    assert_eq!(names(Move::is_halfturn), "U2 D2 L2 R2 F2 B2");
    let u = mv(MoveBase::U, Turn::Clockwise);
    assert!(u.is_similar(mv(MoveBase::U, Turn::Half)));
    assert!(u.is_similar(u));
    assert!(!u.is_similar(mv(MoveBase::D, Turn::Clockwise)));
}

#[test]
fn an_algorithm_is_a_stack_of_moves() {
    let mut alg = Algorithm::new();
    assert_eq!(alg.last(), None);
    assert_eq!(alg.pop(), None);
    let r = mv(MoveBase::R, Turn::Clockwise);
    let u2 = mv(MoveBase::U, Turn::Half);
    alg.push(r);
    alg.push(u2);
    assert_eq!(alg.last(), Some(u2));
    assert_eq!(alg.to_string(), "R U2");
    assert_eq!(alg.pop(), Some(u2));
    assert_eq!(alg.last(), Some(r));
    assert_eq!(alg.len(), 1);
    alg.reset();
    assert_eq!(alg.len(), 0);
    assert_eq!(alg.to_string(), "");
}

#[test]
fn append_keeps_the_order_and_chains() {
    let mut alg = Algorithm::from_str("R U").unwrap();
    let second = Algorithm::from_str("F' D2").unwrap();
    let third = Algorithm::from_str("L").unwrap();
    alg.append(&second).append(&third);
    assert_eq!(alg.to_string(), "R U F' D2 L");
    assert_eq!(second.to_string(), "F' D2");
}

#[test]
fn the_inverse_reverses_the_order_and_inverts_each_move() {
    let alg = Algorithm::from_str("R U L' D B D2 F L").unwrap();
    assert_eq!(alg.inverse().to_string(), "L' F' D2 B' D' L U' R'");
    assert_eq!(alg.inverse().inverse().to_string(), alg.to_string());
    let start = Permutation::b() + Permutation::d();
    assert_eq!(alg.inverse().execute(alg.execute(start)), start);
}

#[test]
fn executing_folds_the_moves_in_order() {
    let alg = Algorithm::from_str("R U F2").unwrap();
    let f = Permutation::f();
    assert_eq!(
        alg.execute(Permutation::id()),
        Permutation::r() + Permutation::u() + (f + f)
    );
    let start = Permutation::l();
    assert_eq!(
        alg.execute(start),
        start + Permutation::r() + Permutation::u() + f + f
    );
    assert_eq!(Algorithm::new().execute(start), start);
}
