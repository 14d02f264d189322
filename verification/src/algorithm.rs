//! Face turns and sequences of them, with their notation.
//!
//! A [`Move`] is one of the eighteen generators of the cube group: a face and
//! how far it is turned. An [`Algorithm`] is a sequence of moves; executing it
//! composes the moves' effects onto a state, one after the other.

use crate::permutation::{
    is_generator, lemma_associative, lemma_compose_wf, lemma_identity, lemma_inverse,
    lemma_inverse_from_product, lemma_inverse_wf, lemma_quarter_turn_order, Permutation,
};
use vstd::prelude::*;

verus! {

/// The six faces.
#[derive(Copy, Clone, Debug, PartialEq, Eq, Structural)]
pub enum MoveBase {
    U,
    D,
    L,
    R,
    F,
    B,
}

/// How far a face is turned: a quarter turn clockwise, a half turn, or a
/// quarter turn counterclockwise.
#[derive(Copy, Clone, Debug, PartialEq, Eq, Structural)]
pub enum Turn {
    Clockwise,
    Half,
    Counter,
}

/// One face turn.
#[derive(Copy, Clone, Debug, PartialEq, Eq, Structural)]
pub struct Move {
    pub face: MoveBase,
    pub turn: Turn,
}

impl MoveBase {
    /// The letter that names the face.
    pub open spec fn letter(self) -> char {
        match self {
            MoveBase::U => 'U',
            MoveBase::D => 'D',
            MoveBase::L => 'L',
            MoveBase::R => 'R',
            MoveBase::F => 'F',
            MoveBase::B => 'B',
        }
    }

    /// The face that a letter names, if any.
    pub open spec fn from_letter(c: char) -> Option<MoveBase> {
        if c == 'U' {
            Some(MoveBase::U)
        } else if c == 'D' {
            Some(MoveBase::D)
        } else if c == 'L' {
            Some(MoveBase::L)
        } else if c == 'R' {
            Some(MoveBase::R)
        } else if c == 'F' {
            Some(MoveBase::F)
        } else if c == 'B' {
            Some(MoveBase::B)
        } else {
            None
        }
    }

    /// The generator of the face: its clockwise quarter turn.
    pub open spec fn spec_permutation(self) -> Permutation {
        match self {
            MoveBase::U => Permutation::u(),
            MoveBase::D => Permutation::d(),
            MoveBase::L => Permutation::l(),
            MoveBase::R => Permutation::r(),
            MoveBase::F => Permutation::f(),
            MoveBase::B => Permutation::b(),
        }
    }

    /// Position of the face in the catalog of moves.
    pub open spec fn rank(self) -> int {
        match self {
            MoveBase::U => 0,
            MoveBase::D => 1,
            MoveBase::L => 2,
            MoveBase::R => 3,
            MoveBase::F => 4,
            MoveBase::B => 5,
        }
    }

    /// The generator of the face: its clockwise quarter turn.
    #[verifier::when_used_as_spec(spec_permutation)]
    pub fn permutation(self) -> (res: Permutation)
        ensures
            res == self.spec_permutation(),
            res.wf(),
    {
        match self {
            MoveBase::U => Permutation::u(),
            MoveBase::D => Permutation::d(),
            MoveBase::L => Permutation::l(),
            MoveBase::R => Permutation::r(),
            MoveBase::F => Permutation::f(),
            MoveBase::B => Permutation::b(),
        }
    }

    /// The face that the single character `c` names.
    pub fn from_char(c: char) -> (res: Option<MoveBase>)
        ensures
            res == Self::from_letter(c),
    {
        if c == 'U' {
            Some(MoveBase::U)
        } else if c == 'D' {
            Some(MoveBase::D)
        } else if c == 'L' {
            Some(MoveBase::L)
        } else if c == 'R' {
            Some(MoveBase::R)
        } else if c == 'F' {
            Some(MoveBase::F)
        } else if c == 'B' {
            Some(MoveBase::B)
        } else {
            None
        }
    }

    /// Reads a face from its one-letter name.
    pub fn from_str(name: &str) -> (res: Result<MoveBase, &'static str>)
        ensures
            res is Ok <==> name@.len() == 1 && Self::from_letter(name@[0]) is Some,
            res matches Ok(face) ==> name@ == seq![face.letter()],
            res matches Err(msg) ==> msg@ == "Could not parse move"@,
    {
        let chars = chars_of(name);
        if chars.len() == 1 {
            match MoveBase::from_char(chars[0]) {
                Some(face) => {
                    assert(name@ =~= seq![face.letter()]);
                    Ok(face)
                },
                None => Err("Could not parse move"),
            }
        } else {
            Err("Could not parse move")
        }
    }

    /// The one-letter name of the face.
    pub fn to_string(self) -> (res: String)
        ensures
            res@ == seq![self.letter()],
    {
        proof {
            reveal_strlit("U");
            reveal_strlit("D");
            reveal_strlit("L");
            reveal_strlit("R");
            reveal_strlit("F");
            reveal_strlit("B");
        }
        let name = match self {
            MoveBase::U => "U",
            MoveBase::D => "D",
            MoveBase::L => "L",
            MoveBase::R => "R",
            MoveBase::F => "F",
            MoveBase::B => "B",
        };
        assert(name@ =~= seq![self.letter()]);
        String::from_str(name)
    }
}

impl Turn {
    /// The exponent of the turn: 1, 2 or −1.
    pub open spec fn exponent(self) -> int {
        match self {
            Turn::Clockwise => 1,
            Turn::Half => 2,
            Turn::Counter => -1,
        }
    }

    /// What follows the face letter in notation.
    pub open spec fn suffix(self) -> Seq<char> {
        match self {
            Turn::Clockwise => seq![],
            Turn::Half => seq!['2'],
            Turn::Counter => seq!['\''],
        }
    }

    /// Position of the turn among the three turns of a face in the catalog.
    pub open spec fn rank(self) -> int {
        match self {
            Turn::Clockwise => 0,
            Turn::Half => 1,
            Turn::Counter => 2,
        }
    }

    /// The turn that undoes this one.
    pub open spec fn spec_inverse(self) -> Turn {
        match self {
            Turn::Clockwise => Turn::Counter,
            Turn::Half => Turn::Half,
            Turn::Counter => Turn::Clockwise,
        }
    }

    /// The exponent of the turn: 1, 2 or −1.
    pub fn power(self) -> (res: isize)
        ensures
            res == self.exponent(),
    {
        match self {
            Turn::Clockwise => 1,
            Turn::Half => 2,
            Turn::Counter => -1,
        }
    }

    /// The turn that undoes this one.
    #[verifier::when_used_as_spec(spec_inverse)]
    pub fn inverse(self) -> (res: Turn)
        ensures
            res == self.spec_inverse(),
    {
        match self {
            Turn::Clockwise => Turn::Counter,
            Turn::Half => Turn::Half,
            Turn::Counter => Turn::Clockwise,
        }
    }
}

impl Move {
    /// The effect of the move on the solved cube: the generator of its face
    /// raised to the power of its turn.
    pub open spec fn spec_permutation(self) -> Permutation {
        self.face.permutation().pow(self.turn.exponent())
    }

    /// The move that undoes this one: the same face, turned back.
    pub open spec fn spec_inverse(self) -> Move {
        Move { face: self.face, turn: self.turn.inverse() }
    }

    /// Both moves turn the same face.
    pub open spec fn spec_is_similar(self, other: Move) -> bool {
        self.face == other.face
    }

    /// False only of the quarter turns of F and B.
    pub open spec fn spec_keeps_eo(self) -> bool {
        !((self.face == MoveBase::F || self.face == MoveBase::B) && self.turn != Turn::Half)
    }

    /// True of the half turns and of every turn of U and D.
    pub open spec fn spec_keeps_domino(self) -> bool {
        self.turn == Turn::Half || self.face == MoveBase::U || self.face == MoveBase::D
    }

    /// The move is a half turn.
    pub open spec fn spec_is_halfturn(self) -> bool {
        self.turn == Turn::Half
    }

    /// The move in notation: the face letter, then nothing, `2` or `'`.
    pub open spec fn notation(self) -> Seq<char> {
        seq![self.face.letter()] + self.turn.suffix()
    }

    /// The move that a token of notation names, if it names one.
    pub open spec fn parse(token: Seq<char>) -> Option<Move> {
        if token.len() == 0 || token.len() > 2 {
            None
        } else {
            match MoveBase::from_letter(token[0]) {
                None => None,
                Some(face) => if token.len() == 1 {
                    Some(Move { face, turn: Turn::Clockwise })
                } else if token[1] == '2' {
                    Some(Move { face, turn: Turn::Half })
                } else if token[1] == '\'' {
                    Some(Move { face, turn: Turn::Counter })
                } else {
                    None
                },
            }
        }
    }

    /// The eighteen moves: face by face, and for each face the quarter
    /// turn, the half turn and the counter turn.
    pub open spec fn catalog() -> Seq<Move> {
        seq![
            Move { face: MoveBase::U, turn: Turn::Clockwise },
            Move { face: MoveBase::U, turn: Turn::Half },
            Move { face: MoveBase::U, turn: Turn::Counter },
            Move { face: MoveBase::D, turn: Turn::Clockwise },
            Move { face: MoveBase::D, turn: Turn::Half },
            Move { face: MoveBase::D, turn: Turn::Counter },
            Move { face: MoveBase::L, turn: Turn::Clockwise },
            Move { face: MoveBase::L, turn: Turn::Half },
            Move { face: MoveBase::L, turn: Turn::Counter },
            Move { face: MoveBase::R, turn: Turn::Clockwise },
            Move { face: MoveBase::R, turn: Turn::Half },
            Move { face: MoveBase::R, turn: Turn::Counter },
            Move { face: MoveBase::F, turn: Turn::Clockwise },
            Move { face: MoveBase::F, turn: Turn::Half },
            Move { face: MoveBase::F, turn: Turn::Counter },
            Move { face: MoveBase::B, turn: Turn::Clockwise },
            Move { face: MoveBase::B, turn: Turn::Half },
            Move { face: MoveBase::B, turn: Turn::Counter },
        ]
    }

    /// The eighteen moves, in catalog order.
    pub fn moves_list() -> (res: Vec<Move>)
        ensures
            res@ == Self::catalog(),
    {
        let res = vec![
            Move { face: MoveBase::U, turn: Turn::Clockwise },
            Move { face: MoveBase::U, turn: Turn::Half },
            Move { face: MoveBase::U, turn: Turn::Counter },
            Move { face: MoveBase::D, turn: Turn::Clockwise },
            Move { face: MoveBase::D, turn: Turn::Half },
            Move { face: MoveBase::D, turn: Turn::Counter },
            Move { face: MoveBase::L, turn: Turn::Clockwise },
            Move { face: MoveBase::L, turn: Turn::Half },
            Move { face: MoveBase::L, turn: Turn::Counter },
            Move { face: MoveBase::R, turn: Turn::Clockwise },
            Move { face: MoveBase::R, turn: Turn::Half },
            Move { face: MoveBase::R, turn: Turn::Counter },
            Move { face: MoveBase::F, turn: Turn::Clockwise },
            Move { face: MoveBase::F, turn: Turn::Half },
            Move { face: MoveBase::F, turn: Turn::Counter },
            Move { face: MoveBase::B, turn: Turn::Clockwise },
            Move { face: MoveBase::B, turn: Turn::Half },
            Move { face: MoveBase::B, turn: Turn::Counter },
        ];
        assert(res@ =~= Self::catalog());
        res
    }

    /// Reads a move from one token of notation.
    pub fn from_str(name: &str) -> (res: Result<Move, &'static str>)
        ensures
            res is Ok <==> Self::parse(name@) is Some,
            res matches Ok(mov) ==> Self::parse(name@) == Some(mov),
            res matches Err(msg) ==> msg@ == "Could not parse move"@,
    {
        let chars = chars_of(name);
        assert(chars@.subrange(0, chars@.len() as int) =~= name@);
        match parse_token(&chars, 0, chars.len()) {
            Some(mov) => Ok(mov),
            None => Err("Could not parse move"),
        }
    }

    /// The move that undoes this one.
    #[verifier::when_used_as_spec(spec_inverse)]
    pub fn inverse(self) -> (res: Move)
        ensures
            res == self.spec_inverse(),
            res.permutation() == self.permutation().inverse(),
    {
        proof {
            lemma_move_inverse(self);
        }
        Move { face: self.face, turn: self.turn.inverse() }
    }

    /// Whether both moves turn the same face.
    #[verifier::when_used_as_spec(spec_is_similar)]
    pub fn is_similar(self, other: Move) -> (res: bool)
        ensures
            res == self.spec_is_similar(other),
    {
        self.face == other.face
    }

    /// Whether the move leaves every edge's flip as it is on a cube whose
    /// edges are all unflipped.
    #[verifier::when_used_as_spec(spec_keeps_eo)]
    pub fn keeps_eo(self) -> (res: bool)
        ensures
            res == self.spec_keeps_eo(),
    {
        !((self.face == MoveBase::F || self.face == MoveBase::B) && self.turn != Turn::Half)
    }

    /// Whether the move stays inside the domino group.
    #[verifier::when_used_as_spec(spec_keeps_domino)]
    pub fn keeps_domino(self) -> (res: bool)
        ensures
            res == self.spec_keeps_domino(),
    {
        self.turn == Turn::Half || self.face == MoveBase::U || self.face == MoveBase::D
    }

    /// Whether the move is a half turn.
    #[verifier::when_used_as_spec(spec_is_halfturn)]
    pub fn is_halfturn(self) -> (res: bool)
        ensures
            res == self.spec_is_halfturn(),
    {
        self.turn == Turn::Half
    }

    /// The state reached from `perm` by making this move.
    pub fn execute(self, perm: Permutation) -> (res: Permutation)
        requires
            perm.wf(),
        ensures
            res == perm.compose(self.permutation()),
            res.wf(),
    {
        perm + self.permutation()
    }

    /// The move in notation.
    pub fn to_string(self) -> (res: String)
        ensures
            res@ == self.notation(),
    {
        proof {
            reveal_strlit("");
            reveal_strlit("2");
            reveal_strlit("'");
        }
        let suffix = match self.turn {
            Turn::Clockwise => "",
            Turn::Half => "2",
            Turn::Counter => "'",
        };
        assert(suffix@ =~= self.turn.suffix());
        self.face.to_string().concat(suffix)
    }

    /// The effect of the move on the solved cube.
    #[verifier::when_used_as_spec(spec_permutation)]
    pub fn permutation(self) -> (res: Permutation)
        ensures
            res == self.spec_permutation(),
            res.wf(),
    {
        self.face.permutation() * self.turn.power()
    }
}

/// Reads the move that the characters from `start` up to `end` name.
fn parse_token(chars: &Vec<char>, start: usize, end: usize) -> (res: Option<Move>)
    requires
        start <= end <= chars.len(),
    ensures
        res == Move::parse(chars@.subrange(start as int, end as int)),
{
    if end - start == 0 || end - start > 2 {
        return None;
    }
    let ghost token = chars@.subrange(start as int, end as int);
    assert(token[0] == chars[start as int]);
    match MoveBase::from_char(chars[start]) {
        None => None,
        Some(face) => {
            if end - start == 1 {
                Some(Move { face, turn: Turn::Clockwise })
            } else {
                assert(token[1] == chars[start + 1]);
                let modifier = chars[start + 1];
                if modifier == '2' {
                    Some(Move { face, turn: Turn::Half })
                } else if modifier == '\'' {
                    Some(Move { face, turn: Turn::Counter })
                } else {
                    None
                }
            }
        },
    }
}

/// The white space that separates tokens: the characters with the
/// Unicode property `White_Space`.
pub open spec fn is_whitespace(c: char) -> bool {
    ||| '\u{9}' <= c <= '\u{D}'
    ||| c == ' '
    ||| c == '\u{85}'
    ||| c == '\u{A0}'
    ||| c == '\u{1680}'
    ||| '\u{2000}' <= c <= '\u{200A}'
    ||| c == '\u{2028}'
    ||| c == '\u{2029}'
    ||| c == '\u{202F}'
    ||| c == '\u{205F}'
    ||| c == '\u{3000}'
}

/// Length of the token at the start of `text`: of its longest prefix
/// without white space.
pub open spec fn token_len(text: Seq<char>) -> nat
    decreases text.len(),
{
    if text.len() == 0 || is_whitespace(text[0]) {
        0
    } else {
        1 + token_len(text.drop_first())
    }
}

/// A token is no longer than the text it starts.
pub proof fn lemma_token_len_bound(text: Seq<char>)
    ensures
        token_len(text) <= text.len(),
    decreases text.len(),
{
    if text.len() > 0 && !is_whitespace(text[0]) {
        lemma_token_len_bound(text.drop_first());
    }
}

/// The moves that a text in notation names: its tokens, separated by white
/// space, each read as a move. There is none if any token names no move.
pub open spec fn parse_notation(text: Seq<char>) -> Option<Seq<Move>>
    decreases text.len(),
{
    if text.len() == 0 {
        Some(seq![])
    } else if is_whitespace(text[0]) {
        parse_notation(text.drop_first())
    } else {
        let n = token_len(text) as int;
        proof {
            lemma_token_len_bound(text);
        }
        match (Move::parse(text.take(n)), parse_notation(text.skip(n))) {
            (Some(mov), Some(rest)) => Some(seq![mov] + rest),
            _ => None,
        }
    }
}

/// The moves in notation, joined by single spaces.
pub open spec fn notation_of(moves: Seq<Move>) -> Seq<char>
    decreases moves.len(),
{
    if moves.len() == 0 {
        seq![]
    } else if moves.len() == 1 {
        moves[0].notation()
    } else {
        notation_of(moves.drop_last()) + seq![' '] + moves.last().notation()
    }
}

/// The state reached from `state` by making the moves in order: each
/// move's effect is composed onto the state from the right.
pub open spec fn run(moves: Seq<Move>, state: Permutation) -> Permutation
    decreases moves.len(),
{
    if moves.len() == 0 {
        state
    } else {
        run(moves.drop_first(), state.compose(moves[0].permutation()))
    }
}

/// The moves that undo `moves`: in reverse order, each one inverted.
pub open spec fn undo(moves: Seq<Move>) -> Seq<Move> {
    Seq::new(moves.len(), |i: int| moves[moves.len() - 1 - i].inverse())
}

/// A sequence of moves.
pub struct Algorithm {
    moves: Vec<Move>,
}

impl View for Algorithm {
    type V = Seq<Move>;

    closed spec fn view(&self) -> Seq<Move> {
        self.moves@
    }
}

impl Algorithm {
    /// The empty sequence.
    pub fn new() -> (res: Algorithm)
        ensures
            res@ == Seq::<Move>::empty(),
    {
        Algorithm { moves: Vec::new() }
    }

    /// Reads a sequence of moves from notation: tokens separated by white
    /// space. One token that names no move fails the whole text.
    pub fn from_str(algorithm: &str) -> (res: Result<Algorithm, &'static str>)
        ensures
            res is Ok <==> parse_notation(algorithm@) is Some,
            res matches Ok(alg) ==> parse_notation(algorithm@) == Some(alg@),
            res matches Err(msg) ==> msg@ == "Could not parse move"@,
    {
        let chars = chars_of(algorithm);
        let n = chars.len();
        let mut moves: Vec<Move> = Vec::new();
        let mut i: usize = 0;
        assert(chars@.skip(0) =~= chars@);
        assert forall|rest: Seq<Move>| moves@ + rest =~= rest by {}
        while i < n
            invariant
                n == chars.len(),
                chars@ == algorithm@,
                i <= n,
                parse_notation(chars@) == match parse_notation(chars@.skip(i as int)) {
                    Some(rest) => Some(moves@ + rest),
                    None => None,
                },
            decreases n - i,
        {
            let ghost rest = chars@.skip(i as int);
            assert(rest[0] == chars[i as int]);
            if is_space(chars[i]) {
                assert(rest.drop_first() =~= chars@.skip(i + 1));
                i += 1;
            } else {
                let mut j: usize = i + 1;
                assert(rest.skip(1) =~= chars@.skip(j as int));
                while j < n && !is_space(chars[j])
                    invariant
                        i < j <= n,
                        n == chars.len(),
                        token_len(chars@.skip(i as int)) == (j - i) + token_len(
                            chars@.skip(j as int),
                        ),
                    decreases n - j,
                {
                    assert(chars@.skip(j as int).drop_first() =~= chars@.skip(j + 1));
                    j += 1;
                }
                assert(token_len(rest) == j - i);
                assert(rest.take(j - i) =~= chars@.subrange(i as int, j as int));
                assert(rest.skip(j - i) =~= chars@.skip(j as int));
                match parse_token(&chars, i, j) {
                    Some(mov) => {
                        assert forall|rest: Seq<Move>|
                            moves@ + (seq![mov] + rest) =~= moves@.push(mov) + rest by {}
                        moves.push(mov);
                        i = j;
                    },
                    None => {
                        return Err("Could not parse move");
                    },
                }
            }
        }
        assert(chars@.skip(n as int) =~= seq![]);
        assert(moves@ + Seq::<Move>::empty() =~= moves@);
        Ok(Algorithm { moves })
    }

    /// Empties the sequence.
    pub fn reset(&mut self)
        ensures
            final(self)@ == Seq::<Move>::empty(),
    {
        self.moves.clear();
    }

    /// Adds a move at the end.
    pub fn push(&mut self, mov: Move)
        ensures
            final(self)@ == old(self)@.push(mov),
    {
        self.moves.push(mov);
    }

    /// Takes the last move off, if there is one.
    pub fn pop(&mut self) -> (res: Option<Move>)
        ensures
            old(self)@.len() == 0 ==> res is None && final(self)@ == old(self)@,
            old(self)@.len() > 0 ==> res == Some(old(self)@.last()) && final(self)@ == old(
                self,
            )@.drop_last(),
    {
        self.moves.pop()
    }

    /// Adds the moves of `other` at the end, in order, and hands `self`
    /// back for more.
    pub fn append(&mut self, other: &Algorithm) -> (res: &mut Algorithm)
        ensures
            res@ == old(self)@ + other@,
            *final(self) == *final(res),
    {
        let mut i: usize = 0;
        while i < other.moves.len()
            invariant
                i <= other.moves.len(),
                self@ == old(self)@ + other@.take(i as int),
            decreases other.moves.len() - i,
        {
            self.push(other.moves[i]);
            i += 1;
        }
        self
    }

    /// The last move, if there is one.
    pub fn last(&self) -> (res: Option<Move>)
        ensures
            self@.len() == 0 ==> res is None,
            self@.len() > 0 ==> res == Some(self@.last()),
    {
        if self.moves.len() == 0 {
            None
        } else {
            Some(self.moves[self.moves.len() - 1])
        }
    }

    /// The number of moves.
    pub fn len(&self) -> (res: usize)
        ensures
            res == self@.len(),
    {
        self.moves.len()
    }

    /// The state reached from `perm` by making the moves in order.
    pub fn execute(&self, perm: Permutation) -> (res: Permutation)
        requires
            perm.wf(),
        ensures
            res == run(self@, perm),
            res.wf(),
    {
        let mut res = perm;
        let mut i: usize = 0;
        assert(self@.skip(0) =~= self@);
        while i < self.moves.len()
            invariant
                i <= self.moves.len(),
                res.wf(),
                run(self@, perm) == run(self@.skip(i as int), res),
            decreases self.moves.len() - i,
        {
            assert(self@.skip(i as int).drop_first() =~= self@.skip(i + 1));
            res = self.moves[i].execute(res);
            i += 1;
        }
        res
    }

    /// The sequence that undoes this one: run after this one, from any
    /// state, it leads back to that state.
    pub fn inverse(&self) -> (res: Algorithm)
        ensures
            res@ == undo(self@),
            forall|state: Permutation|
                state.wf() ==> run(res@, #[trigger] run(self@, state)) == state,
    {
        let n = self.moves.len();
        let mut moves: Vec<Move> = Vec::new();
        let mut i: usize = 0;
        while i < n
            invariant
                n == self.moves.len(),
                i <= n,
                moves@ == undo(self@).take(i as int),
            decreases n - i,
        {
            moves.push(self.moves[n - 1 - i].inverse());
            i += 1;
            assert(moves@ =~= undo(self@).take(i as int));
        }
        proof {
            assert(moves@ =~= undo(self@));
            assert forall|state: Permutation| state.wf() implies run(
                moves@,
                #[trigger] run(self@, state),
            ) == state by {
                lemma_undo_round_trip(self@, state);
            }
        }
        Algorithm { moves }
    }

    /// The sequence in notation: its moves, joined by single spaces.
    pub fn to_string(&self) -> (res: String)
        ensures
            res@ == notation_of(self@),
    {
        let mut text = String::new();
        let mut i: usize = 0;
        while i < self.moves.len()
            invariant
                i <= self.moves.len(),
                text@ == notation_of(self@.take(i as int)),
            decreases self.moves.len() - i,
        {
            proof {
                reveal_strlit(" ");
                assert(self@.take(i + 1).drop_last() =~= self@.take(i as int));
            }
            if i > 0 {
                text.append(" ");
            }
            let word = self.moves[i].to_string();
            text.append(word.as_str());
            i += 1;
        }
        assert(self@.take(self@.len() as int) =~= self@);
        text
    }
}

/// Whether `c` separates tokens.
fn is_space(c: char) -> (res: bool)
    ensures
        res == is_whitespace(c),
{
    ('\u{9}' <= c && c <= '\u{D}') || c == ' ' || c == '\u{85}' || c == '\u{A0}' || c
        == '\u{1680}' || ('\u{2000}' <= c && c <= '\u{200A}') || c == '\u{2028}' || c
        == '\u{2029}' || c == '\u{202F}' || c == '\u{205F}' || c == '\u{3000}'
}

/// The characters of `text`, in order.
fn chars_of(text: &str) -> (chars: Vec<char>)
    ensures
        chars@ == text@,
{
    broadcast use vstd::string::group_string_axioms;

    let mut chars: Vec<char> = Vec::new();
    let letters = text.chars();
    for c in it: letters
        invariant
            it.seq() == text@,
            chars@ == text@.take(it.index() as int),
    {
        chars.push(c);
    }
    assert(text@.take(text@.len() as int) == text@);
    chars
}

/// The catalog holds each of the eighteen moves once, at the place that
/// its face and its turn give it.
pub proof fn lemma_catalog(mov: Move)
    ensures
        Move::catalog().len() == 18,
        Move::catalog().no_duplicates(),
        Move::catalog()[3 * mov.face.rank() + mov.turn.rank()] == mov,
        Move::catalog().contains(mov),
{
    let all = Move::catalog();
    assert forall|i: int| 0 <= i < 18 implies 3 * (#[trigger] all[i]).face.rank()
        + all[i].turn.rank() == i by {
        if i < 6 {
            if i < 3 {
            } else {
            }
        } else if i < 12 {
            if i < 9 {
            } else {
            }
        } else {
            if i < 15 {
            } else {
            }
        }
    }
}

/// The effect of a move, written out: a quarter turn is the generator of
/// its face, a half turn the generator twice, a counter turn its inverse.
pub proof fn lemma_move_permutation(mov: Move)
    ensures
        mov.permutation().wf(),
        mov.turn == Turn::Clockwise ==> mov.permutation() == mov.face.permutation(),
        mov.turn == Turn::Half ==> mov.permutation() == mov.face.permutation().compose(
            mov.face.permutation(),
        ),
        mov.turn == Turn::Counter ==> mov.permutation() == mov.face.permutation().inverse(),
{
    let g = mov.face.permutation();
    assert(g.wf());
    lemma_identity(g);
    lemma_compose_wf(g, g);
    lemma_inverse_wf(g);
    reveal_with_fuel(Permutation::repeat, 3);
}

/// The inverse of a move has the inverse effect.
pub proof fn lemma_move_inverse(mov: Move)
    ensures
        mov.inverse().permutation() == mov.permutation().inverse(),
{
    let g = mov.face.permutation();
    assert(is_generator(g));
    lemma_move_permutation(mov);
    lemma_move_permutation(mov.inverse());
    match mov.turn {
        Turn::Clockwise => {},
        Turn::Half => {
            let h = g.compose(g);
            lemma_quarter_turn_order(g);
            lemma_compose_wf(g, g);
            lemma_associative(h, g, g);
            lemma_inverse_from_product(h, h);
        },
        Turn::Counter => {
            lemma_inverse(g);
            lemma_inverse_wf(g);
            lemma_inverse_from_product(g, g.inverse());
        },
    }
}

/// Running keeps a state well-formed.
pub proof fn lemma_run_wf(moves: Seq<Move>, state: Permutation)
    requires
        state.wf(),
    ensures
        run(moves, state).wf(),
    decreases moves.len(),
{
    if moves.len() > 0 {
        lemma_move_permutation(moves[0]);
        lemma_compose_wf(state, moves[0].permutation());
        lemma_run_wf(moves.drop_first(), state.compose(moves[0].permutation()));
    }
}

/// Running one sequence after another is running their concatenation.
pub proof fn lemma_run_concat(first: Seq<Move>, second: Seq<Move>, state: Permutation)
    ensures
        run(first + second, state) == run(second, run(first, state)),
    decreases first.len(),
{
    if first.len() == 0 {
        assert(first + second =~= second);
    } else {
        assert((first + second).drop_first() =~= first.drop_first() + second);
        lemma_run_concat(first.drop_first(), second, state.compose(first[0].permutation()));
    }
}

/// Round trip: running a sequence and then the sequence that undoes it
/// leads back to the state one started from.
pub proof fn lemma_undo_round_trip(moves: Seq<Move>, state: Permutation)
    requires
        state.wf(),
    ensures
        run(undo(moves), run(moves, state)) == state,
    decreases moves.len(),
{
    if moves.len() == 0 {
        assert(undo(moves) =~= moves);
    } else {
        let first = moves[0];
        let rest = moves.drop_first();
        let p = first.permutation();
        let next = state.compose(p);
        lemma_move_permutation(first);
        lemma_compose_wf(state, p);
        lemma_undo_round_trip(rest, next);
        assert(undo(moves) =~= undo(rest) + seq![first.inverse()]);
        lemma_run_concat(undo(rest), seq![first.inverse()], run(moves, state));
        assert(run(seq![first.inverse()], next) == next.compose(first.inverse().permutation())) by {
            assert(seq![first.inverse()].drop_first() =~= Seq::<Move>::empty());
            reveal_with_fuel(run, 2);
        }
        lemma_move_inverse(first);
        lemma_inverse_wf(p);
        lemma_associative(state, p, p.inverse());
        lemma_inverse(p);
        lemma_identity(state);
    }
}

/// A move is read back from its own notation.
pub proof fn lemma_move_round_trip(mov: Move)
    ensures
        Move::parse(mov.notation()) == Some(mov),
        1 <= mov.notation().len() <= 2,
        forall|i: int|
            0 <= i < mov.notation().len() ==> !is_whitespace(#[trigger] mov.notation()[i]),
{
}

/// A move written before the end of the text, or before white space, is
/// one token.
proof fn lemma_token_of_move(mov: Move, tail: Seq<char>)
    requires
        tail.len() == 0 || is_whitespace(tail[0]),
    ensures
        token_len(mov.notation() + tail) == mov.notation().len(),
{
    let word = mov.notation();
    let text = word + tail;
    lemma_move_round_trip(mov);
    assert(text[0] == word[0]);
    if word.len() == 1 {
        assert(text.drop_first() =~= tail);
    } else {
        assert(text.drop_first()[0] == word[1]);
        assert(text.drop_first().drop_first() =~= tail);
    }
    reveal_with_fuel(token_len, 3);
}

/// Several moves in notation are the first move, a space, and the rest.
proof fn lemma_notation_unfold(moves: Seq<Move>)
    requires
        moves.len() >= 2,
    ensures
        notation_of(moves) == moves[0].notation() + seq![' '] + notation_of(moves.drop_first()),
    decreases moves.len(),
{
    let front = moves.drop_last();
    let back = moves.drop_first();
    if moves.len() == 2 {
        assert(front =~= seq![moves[0]]);
        assert(back =~= seq![moves[1]]);
        reveal_with_fuel(notation_of, 2);
    } else {
        lemma_notation_unfold(front);
        assert(front.drop_first() =~= back.drop_last());
        assert(notation_of(moves) =~= moves[0].notation() + seq![' '] + notation_of(back));
    }
}

/// Round trip of the notation: reading what was written gives the moves
/// back.
pub proof fn lemma_notation_round_trip(moves: Seq<Move>)
    ensures
        parse_notation(notation_of(moves)) == Some(moves),
    decreases moves.len(),
{
    if moves.len() > 0 {
        let first = moves[0];
        let word = first.notation();
        let rest = moves.drop_first();
        let text = notation_of(moves);
        lemma_move_round_trip(first);
        let tail: Seq<char> = if moves.len() == 1 {
            seq![]
        } else {
            seq![' '] + notation_of(rest)
        };
        assert(text =~= word + tail) by {
            if moves.len() >= 2 {
                lemma_notation_unfold(moves);
            }
        }
        lemma_token_of_move(first, tail);
        let n = word.len() as int;
        assert(text[0] == word[0]);
        assert(text.take(n) =~= word);
        assert(text.skip(n) =~= tail);
        lemma_notation_round_trip(rest);
        assert(parse_notation(tail) == Some(rest)) by {
            if moves.len() >= 2 {
                assert(tail[0] == ' ');
                assert(tail.drop_first() =~= notation_of(rest));
            } else {
                assert(rest =~= Seq::<Move>::empty());
            }
        }
        assert(!is_whitespace(text[0]));
        assert(seq![first] + rest =~= moves);
    } else {
        assert(moves =~= Seq::<Move>::empty());
    }
}

} // verus!
