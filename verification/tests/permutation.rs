use cube::permutation::{CornerLoc, EdgeLoc, Permutation};

#[test]
fn id_plus_id_is_id() {
    assert_eq!(Permutation::id() + Permutation::id(), Permutation::id());
}

#[test]
fn four_u_is_id() {
    assert_eq!(
        Permutation::u() + Permutation::u() + Permutation::u() + Permutation::u(),
        Permutation::id()
    );
}

#[test]
fn u_plus_u_inv_is_id() {
    assert_eq!(Permutation::u() + -Permutation::u(), Permutation::id());
}

#[test]
fn three_u_is_u_inv() {
    assert_eq!(
        Permutation::u() + Permutation::u() + Permutation::u(),
        -Permutation::u()
    );
}

fn generators() -> Vec<Permutation> {
    vec![
        Permutation::u(),
        Permutation::d(),
        Permutation::l(),
        Permutation::r(),
        Permutation::f(),
        Permutation::b(),
    ]
}

#[test]
fn identity_is_neutral_on_both_sides() {
    for g in generators() {
        let x = g + Permutation::f() + g;
        assert_eq!(x + Permutation::id(), x);
        assert_eq!(Permutation::id() + x, x);
    }
}

#[test]
fn inverse_cancels_on_both_sides() {
    for g in generators() {
        let x = g + Permutation::r() + Permutation::f();
        assert_eq!(x + -x, Permutation::id());
        assert_eq!(-x + x, Permutation::id());
    }
}

#[test]
fn every_quarter_turn_has_order_four() {
    for g in generators() {
        assert_eq!(g + g + g + g, Permutation::id());
        assert_eq!(g + g + g, -g);
        assert_ne!(g + g, Permutation::id());
    }
}

#[test]
fn composition_is_associative_and_not_commutative() {
    let (r, u, f) = (Permutation::r(), Permutation::u(), Permutation::f());
    assert_eq!((r + u) + f, r + (u + f));
    assert_ne!(r + u, u + r);
}

#[test]
fn composition_applies_the_right_operand_first() {
    let x = Permutation::r() + Permutation::u();
    assert_eq!(x.cp, [0, 4, 1, 2, 7, 5, 6, 3]);
    assert_eq!(x.co, [1, 2, 0, 0, 1, 0, 0, 2]);
    assert_eq!(x.ep, [3, 5, 1, 2, 0, 8, 6, 7, 4, 9, 10, 11]);
    assert_eq!(x.eo, [0; 12]);
    let y = Permutation::f() + Permutation::r();
    assert_eq!(y.cp, [0, 5, 2, 1, 7, 4, 6, 3]);
    assert_eq!(y.co, [1, 2, 0, 2, 1, 1, 0, 2]);
    assert_eq!(y.ep, [1, 6, 2, 3, 0, 8, 9, 7, 4, 5, 10, 11]);
    assert_eq!(y.eo, [1, 1, 0, 0, 0, 0, 1, 0, 0, 1, 0, 0]);
}

#[test]
fn inverse_reverses_corner_twists() {
    let inv = -Permutation::r();
    assert_eq!(inv.cp, [3, 1, 2, 7, 0, 5, 6, 4]);
    assert_eq!(inv.co, [2, 0, 0, 1, 1, 0, 0, 2]);
    assert_eq!(inv.ep, [4, 1, 2, 3, 8, 0, 6, 7, 5, 9, 10, 11]);
    let inv = -Permutation::f();
    assert_eq!(inv.cp, [4, 0, 2, 3, 5, 1, 6, 7]);
    assert_eq!(inv.co, [1, 2, 0, 0, 2, 1, 0, 0]);
    assert_eq!(inv.eo, [0, 1, 0, 0, 0, 1, 1, 0, 0, 1, 0, 0]);
    assert_eq!(inv.ep, [0, 5, 2, 3, 4, 9, 1, 7, 8, 6, 10, 11]);
}

#[test]
fn powers_repeat_and_invert() {
    let r = Permutation::r();
    assert_eq!(r * 0, Permutation::id());
    assert_eq!(r * 1, r);
    assert_eq!(r * 2, r + r);
    assert_eq!(r * -1, -r);
    assert_eq!(r * -2, -(r + r));
    assert_eq!(r * 4, Permutation::id());
    assert_eq!(r * 7, -r);
    assert_eq!(r * -3, r);
}

#[test]
fn slots_are_numbered_in_table_order() {
    assert_eq!(CornerLoc::from_usize(0), Ok(CornerLoc::UFR));
    assert_eq!(CornerLoc::from_usize(7), Ok(CornerLoc::DBR));
    assert_eq!(CornerLoc::from_usize(8), Err("Nonexistent corner index"));
    assert_eq!(EdgeLoc::from_usize(4), Ok(EdgeLoc::BR));
    assert_eq!(EdgeLoc::from_usize(11), Ok(EdgeLoc::DB));
    assert_eq!(EdgeLoc::from_usize(12), Err("Nonexistent edge index"));
    for n in 0..8 {
        assert_eq!(CornerLoc::from_usize(n).unwrap().index(), n);
    }
    for n in 0..12 {
        assert_eq!(EdgeLoc::from_usize(n).unwrap().index(), n);
    }
}

#[test]
fn half_turn_classes_split_the_slots() {
    let corners: Vec<usize> = (0..8)
        .map(|n| CornerLoc::from_usize(n).unwrap().ht_class())
        .collect();
    assert_eq!(corners, vec![0, 1, 0, 1, 1, 0, 1, 0]);
    let edges: Vec<usize> = (0..12)
        .map(|n| EdgeLoc::from_usize(n).unwrap().ht_class())
        .collect();
    assert_eq!(edges, vec![0, 1, 0, 1, 2, 2, 2, 2, 0, 1, 0, 1]);
}

#[test]
fn slot_lookup_gives_orientation_and_home() {
    let r = Permutation::r();
    assert_eq!(r.corner_op(CornerLoc::UFR), Ok((2, CornerLoc::DFR)));
    assert_eq!(r.corner_op(CornerLoc::UFL), Ok((0, CornerLoc::UFL)));
    assert_eq!(r.edge_op(EdgeLoc::UR), Ok((0, EdgeLoc::FR)));
    let f = Permutation::f();
    assert_eq!(f.edge_op(EdgeLoc::UF), Ok((1, EdgeLoc::FL)));
}

#[test]
fn slot_lookup_rejects_an_entry_out_of_range() {
    let mut broken = Permutation::id();
    broken.cp[3] = 8;
    broken.ep[0] = 12;
    assert_eq!(
        broken.corner_op(CornerLoc::UBR),
        Err("Nonexistent corner index")
    );
    assert_eq!(broken.edge_op(EdgeLoc::UR), Err("Nonexistent edge index"));
    assert_eq!(broken.corner_op(CornerLoc::UFR), Ok((0, CornerLoc::UFR)));
}

#[test]
fn the_invariant_can_be_checked() {
    assert!(Permutation::id().is_wf());
    assert!((Permutation::r() + Permutation::f() + -Permutation::u()).is_wf());
    let mut twice = Permutation::id();
    twice.cp[1] = 0;
    assert!(!twice.is_wf());
    let mut far = Permutation::id();
    far.ep[11] = 12;
    assert!(!far.is_wf());
    let mut twisted = Permutation::id();
    twisted.co[7] = 3;
    assert!(!twisted.is_wf());
    let mut flipped = Permutation::id();
    flipped.eo[0] = 2;
    assert!(!flipped.is_wf());
    let mut swapped = Permutation::id();
    swapped.ep.swap(0, 1);
    assert!(swapped.is_wf());
}

#[test]
fn a_state_is_made_only_from_tables_that_meet_the_invariant() {
    let r = Permutation::r();
    assert_eq!(Permutation::new(r.co, r.eo, r.cp, r.ep), Some(r));
    assert_eq!(
        Permutation::new([0; 8], [0; 12], [0, 1, 2, 3, 4, 5, 6, 6], r.ep),
        None
    );
    assert_eq!(
        Permutation::new([0, 0, 0, 0, 0, 0, 0, 3], [0; 12], r.cp, r.ep),
        None
    );
    assert_eq!(
        Permutation::new(r.co, r.eo, r.cp, [0, 1, 2, 3, 4, 5, 6, 7, 8, 9, 10, 12]),
        None
    );
}
