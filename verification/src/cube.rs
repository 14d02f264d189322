//! The cube as a value that algorithms act on.

use crate::algorithm::{run, Algorithm, MoveBase};
use crate::permutation::{CornerLoc, EdgeLoc, Permutation};
use vstd::prelude::*;

verus! {

/// The colours of the stickers, and the blank that fills the corners of
/// the unfolded cube.
#[derive(Clone, Copy, Debug, PartialEq, Eq, Structural)]
pub enum Color {
    Blank,
    White,
    Green,
    Red,
    Blue,
    Orange,
    Yellow,
}

impl Color {
    /// The cell of a terminal that shows the colour: two spaces on a
    /// background set and reset by escape sequences.
    pub open spec fn text(self) -> Seq<char> {
        match self {
            Color::Blank => "\x1b[0m  \x1b[0m"@,
            Color::White => "\x1b[107m  \x1b[0m"@,
            Color::Green => "\x1b[102m  \x1b[0m"@,
            Color::Red => "\x1b[101m  \x1b[0m"@,
            Color::Blue => "\x1b[104m  \x1b[0m"@,
            Color::Orange => "\x1b[105m  \x1b[0m"@,
            Color::Yellow => "\x1b[103m  \x1b[0m"@,
        }
    }

    /// The cell of a terminal that shows the colour.
    pub fn to_string(self) -> (res: String)
        ensures
            res@ == self.text(),
    {
        String::from_str(
            match self {
                Color::Blank => "\x1b[0m  \x1b[0m",
                Color::White => "\x1b[107m  \x1b[0m",
                Color::Green => "\x1b[102m  \x1b[0m",
                Color::Red => "\x1b[101m  \x1b[0m",
                Color::Blue => "\x1b[104m  \x1b[0m",
                Color::Orange => "\x1b[105m  \x1b[0m",
                Color::Yellow => "\x1b[103m  \x1b[0m",
            },
        )
    }
}

/// The colours of the corner piece whose home is slot `piece`: first the
/// one that faces up or down, then the other two clockwise.
pub open spec fn corner_colors(piece: int) -> Seq<Color> {
    if piece == 0 {
        seq![Color::White, Color::Red, Color::Green]
    } else if piece == 1 {
        seq![Color::White, Color::Green, Color::Orange]
    } else if piece == 2 {
        seq![Color::White, Color::Orange, Color::Blue]
    } else if piece == 3 {
        seq![Color::White, Color::Blue, Color::Red]
    } else if piece == 4 {
        seq![Color::Yellow, Color::Green, Color::Red]
    } else if piece == 5 {
        seq![Color::Yellow, Color::Orange, Color::Green]
    } else if piece == 6 {
        seq![Color::Yellow, Color::Blue, Color::Orange]
    } else {
        seq![Color::Yellow, Color::Red, Color::Blue]
    }
}

/// The colours of the edge piece whose home is slot `piece`: first the
/// one that faces up or down, or front or back in the belt, then the other.
pub open spec fn edge_colors(piece: int) -> Seq<Color> {
    if piece == 0 {
        seq![Color::White, Color::Red]
    } else if piece == 1 {
        seq![Color::White, Color::Green]
    } else if piece == 2 {
        seq![Color::White, Color::Orange]
    } else if piece == 3 {
        seq![Color::White, Color::Blue]
    } else if piece == 4 {
        seq![Color::Blue, Color::Red]
    } else if piece == 5 {
        seq![Color::Green, Color::Red]
    } else if piece == 6 {
        seq![Color::Green, Color::Orange]
    } else if piece == 7 {
        seq![Color::Blue, Color::Orange]
    } else if piece == 8 {
        seq![Color::Yellow, Color::Red]
    } else if piece == 9 {
        seq![Color::Yellow, Color::Green]
    } else if piece == 10 {
        seq![Color::Yellow, Color::Orange]
    } else {
        seq![Color::Yellow, Color::Blue]
    }
}

/// The cells of a row of colours, one after the other.
pub open spec fn row_text(row: Seq<Color>) -> Seq<char>
    decreases row.len(),
{
    if row.len() == 0 {
        seq![]
    } else {
        row_text(row.drop_last()) + row.last().text()
    }
}

/// The rows as text, one line each.
pub open spec fn rows_text(rows: Seq<Seq<Color>>) -> Seq<char>
    decreases rows.len(),
{
    if rows.len() == 0 {
        seq![]
    } else if rows.len() == 1 {
        row_text(rows[0])
    } else {
        rows_text(rows.drop_last()) + seq!['\n'] + row_text(rows.last())
    }
}

/// A cube in some state.
#[derive(Debug)]
pub struct Cube {
    pub state: Permutation,
}

impl Cube {
    /// The colour that shows on side `side` of the corner in `slot`. Side 0
    /// faces up or down; a twist turns the colours of the piece clockwise.
    pub open spec fn corner_sticker(self, slot: CornerLoc, side: int) -> Color {
        let piece = self.state.cp[slot.position()] as int;
        let twist = self.state.co[slot.position()] as int;
        corner_colors(piece)[(side + 3 - twist) % 3]
    }

    /// The colour that shows on side `side` of the edge in `slot`; a flip
    /// exchanges the two colours of the piece.
    pub open spec fn edge_sticker(self, slot: EdgeLoc, side: int) -> Color {
        let piece = self.state.ep[slot.position()] as int;
        let flip = self.state.eo[slot.position()] as int;
        edge_colors(piece)[(side + flip) % 2]
    }

    /// The nine stickers of a face, row by row, as the face shows in the
    /// unfolded cube.
    pub open spec fn face(self, face: MoveBase) -> Seq<Color> {
        match face {
            MoveBase::U => seq![
                self.corner_sticker(CornerLoc::UBL, 0),
                self.edge_sticker(EdgeLoc::UB, 0),
                self.corner_sticker(CornerLoc::UBR, 0),
                self.edge_sticker(EdgeLoc::UL, 0),
                Color::White,
                self.edge_sticker(EdgeLoc::UR, 0),
                self.corner_sticker(CornerLoc::UFL, 0),
                self.edge_sticker(EdgeLoc::UF, 0),
                self.corner_sticker(CornerLoc::UFR, 0),
            ],
            MoveBase::D => seq![
                self.corner_sticker(CornerLoc::DFL, 0),
                self.edge_sticker(EdgeLoc::DF, 0),
                self.corner_sticker(CornerLoc::DFR, 0),
                self.edge_sticker(EdgeLoc::DL, 0),
                Color::Yellow,
                self.edge_sticker(EdgeLoc::DR, 0),
                self.corner_sticker(CornerLoc::DBL, 0),
                self.edge_sticker(EdgeLoc::DB, 0),
                self.corner_sticker(CornerLoc::DBR, 0),
            ],
            MoveBase::L => seq![
                self.corner_sticker(CornerLoc::UBL, 1),
                self.edge_sticker(EdgeLoc::UL, 1),
                self.corner_sticker(CornerLoc::UFL, 2),
                self.edge_sticker(EdgeLoc::BL, 1),
                Color::Orange,
                self.edge_sticker(EdgeLoc::FL, 1),
                self.corner_sticker(CornerLoc::DBL, 2),
                self.edge_sticker(EdgeLoc::DL, 1),
                self.corner_sticker(CornerLoc::DFL, 1),
            ],
            MoveBase::R => seq![
                self.corner_sticker(CornerLoc::UFR, 1),
                self.edge_sticker(EdgeLoc::UR, 1),
                self.corner_sticker(CornerLoc::UBR, 2),
                self.edge_sticker(EdgeLoc::FR, 1),
                Color::Red,
                self.edge_sticker(EdgeLoc::BR, 1),
                self.corner_sticker(CornerLoc::DFR, 2),
                self.edge_sticker(EdgeLoc::DR, 1),
                self.corner_sticker(CornerLoc::DBR, 1),
            ],
            MoveBase::F => seq![
                self.corner_sticker(CornerLoc::UFL, 1),
                self.edge_sticker(EdgeLoc::UF, 1),
                self.corner_sticker(CornerLoc::UFR, 2),
                self.edge_sticker(EdgeLoc::FL, 0),
                Color::Green,
                self.edge_sticker(EdgeLoc::FR, 0),
                self.corner_sticker(CornerLoc::DFL, 2),
                self.edge_sticker(EdgeLoc::DF, 1),
                self.corner_sticker(CornerLoc::DFR, 1),
            ],
            MoveBase::B => seq![
                self.corner_sticker(CornerLoc::UBR, 1),
                self.edge_sticker(EdgeLoc::UB, 1),
                self.corner_sticker(CornerLoc::UBL, 2),
                self.edge_sticker(EdgeLoc::BR, 0),
                Color::Blue,
                self.edge_sticker(EdgeLoc::BL, 0),
                self.corner_sticker(CornerLoc::DBR, 2),
                self.edge_sticker(EdgeLoc::DB, 1),
                self.corner_sticker(CornerLoc::DBL, 1),
            ],
        }
    }

    /// Row `row` of the unfolded cube: of its nine rows the first three
    /// show U and the last three D, each after three blanks, and the
    /// middle three show L, F, R and B side by side.
    pub open spec fn net_row(self, row: int) -> Seq<Color> {
        let blank = seq![Color::Blank, Color::Blank, Color::Blank];
        let at = 3 * (row % 3);
        if row < 3 {
            blank + self.face(MoveBase::U).subrange(at, at + 3)
        } else if row < 6 {
            self.face(MoveBase::L).subrange(at, at + 3) + self.face(MoveBase::F).subrange(
                at,
                at + 3,
            ) + self.face(MoveBase::R).subrange(at, at + 3) + self.face(MoveBase::B).subrange(
                at,
                at + 3,
            )
        } else {
            blank + self.face(MoveBase::D).subrange(at, at + 3)
        }
    }

    /// The unfolded cube: its nine rows.
    pub open spec fn net(self) -> Seq<Seq<Color>> {
        Seq::new(9, |row: int| self.net_row(row))
    }

    /// A solved cube.
    pub fn new() -> (res: Cube)
        ensures
            res.state == Permutation::id(),
            res.state.wf(),
    {
        Cube { state: Permutation::id() }
    }

    /// The cube that results from making the moves of `alg` on this one.
    pub fn execute(&self, alg: &Algorithm) -> (res: Cube)
        requires
            self.state.wf(),
        ensures
            res.state == run(alg@, self.state),
            res.state.wf(),
    {
        Cube { state: alg.execute(self.state) }
    }

    /// Makes the moves of `alg` on this cube.
    pub fn execute_mut(&mut self, alg: &Algorithm)
        requires
            old(self).state.wf(),
        ensures
            final(self).state == run(alg@, old(self).state),
            final(self).state.wf(),
    {
        self.state = alg.execute(self.state);
    }
}

impl Cube {
    /// The three colours that the corner in `slot` shows, by side.
    fn corner(&self, slot: CornerLoc) -> (res: [Color; 3])
        requires
            self.state.wf(),
        ensures
            forall|side: int| 0 <= side < 3 ==> res[side] == self.corner_sticker(slot, side),
    {
        let at = slot.index();
        let twist = self.state.co[at];
        let c: [Color; 3] = match self.state.cp[at] {
            0 => [Color::White, Color::Red, Color::Green],
            1 => [Color::White, Color::Green, Color::Orange],
            2 => [Color::White, Color::Orange, Color::Blue],
            3 => [Color::White, Color::Blue, Color::Red],
            4 => [Color::Yellow, Color::Green, Color::Red],
            5 => [Color::Yellow, Color::Orange, Color::Green],
            6 => [Color::Yellow, Color::Blue, Color::Orange],
            _ => [Color::Yellow, Color::Red, Color::Blue],
        };
        assert(c@ =~= corner_colors(self.state.cp[at as int] as int));
        if twist == 0 {
            [c[0], c[1], c[2]]
        } else if twist == 1 {
            [c[2], c[0], c[1]]
        } else {
            [c[1], c[2], c[0]]
        }
    }

    /// The two colours that the edge in `slot` shows, by side.
    fn edge(&self, slot: EdgeLoc) -> (res: [Color; 2])
        requires
            self.state.wf(),
        ensures
            forall|side: int| 0 <= side < 2 ==> res[side] == self.edge_sticker(slot, side),
    {
        let at = slot.index();
        let flip = self.state.eo[at];
        let e: [Color; 2] = match self.state.ep[at] {
            0 => [Color::White, Color::Red],
            1 => [Color::White, Color::Green],
            2 => [Color::White, Color::Orange],
            3 => [Color::White, Color::Blue],
            4 => [Color::Blue, Color::Red],
            5 => [Color::Green, Color::Red],
            6 => [Color::Green, Color::Orange],
            7 => [Color::Blue, Color::Orange],
            8 => [Color::Yellow, Color::Red],
            9 => [Color::Yellow, Color::Green],
            10 => [Color::Yellow, Color::Orange],
            _ => [Color::Yellow, Color::Blue],
        };
        assert(e@ =~= edge_colors(self.state.ep[at as int] as int));
        if flip == 0 {
            [e[0], e[1]]
        } else {
            [e[1], e[0]]
        }
    }

    /// The nine stickers of a face, row by row.
    pub fn stickers(&self, face: MoveBase) -> (res: [Color; 9])
        requires
            self.state.wf(),
        ensures
            res@ == self.face(face),
    {
        let res = match face {
            MoveBase::U => [
                self.corner(CornerLoc::UBL)[0],
                self.edge(EdgeLoc::UB)[0],
                self.corner(CornerLoc::UBR)[0],
                self.edge(EdgeLoc::UL)[0],
                Color::White,
                self.edge(EdgeLoc::UR)[0],
                self.corner(CornerLoc::UFL)[0],
                self.edge(EdgeLoc::UF)[0],
                self.corner(CornerLoc::UFR)[0],
            ],
            MoveBase::D => [
                self.corner(CornerLoc::DFL)[0],
                self.edge(EdgeLoc::DF)[0],
                self.corner(CornerLoc::DFR)[0],
                self.edge(EdgeLoc::DL)[0],
                Color::Yellow,
                self.edge(EdgeLoc::DR)[0],
                self.corner(CornerLoc::DBL)[0],
                self.edge(EdgeLoc::DB)[0],
                self.corner(CornerLoc::DBR)[0],
            ],
            MoveBase::L => [
                self.corner(CornerLoc::UBL)[1],
                self.edge(EdgeLoc::UL)[1],
                self.corner(CornerLoc::UFL)[2],
                self.edge(EdgeLoc::BL)[1],
                Color::Orange,
                self.edge(EdgeLoc::FL)[1],
                self.corner(CornerLoc::DBL)[2],
                self.edge(EdgeLoc::DL)[1],
                self.corner(CornerLoc::DFL)[1],
            ],
            MoveBase::R => [
                self.corner(CornerLoc::UFR)[1],
                self.edge(EdgeLoc::UR)[1],
                self.corner(CornerLoc::UBR)[2],
                self.edge(EdgeLoc::FR)[1],
                Color::Red,
                self.edge(EdgeLoc::BR)[1],
                self.corner(CornerLoc::DFR)[2],
                self.edge(EdgeLoc::DR)[1],
                self.corner(CornerLoc::DBR)[1],
            ],
            MoveBase::F => [
                self.corner(CornerLoc::UFL)[1],
                self.edge(EdgeLoc::UF)[1],
                self.corner(CornerLoc::UFR)[2],
                self.edge(EdgeLoc::FL)[0],
                Color::Green,
                self.edge(EdgeLoc::FR)[0],
                self.corner(CornerLoc::DFL)[2],
                self.edge(EdgeLoc::DF)[1],
                self.corner(CornerLoc::DFR)[1],
            ],
            MoveBase::B => [
                self.corner(CornerLoc::UBR)[1],
                self.edge(EdgeLoc::UB)[1],
                self.corner(CornerLoc::UBL)[2],
                self.edge(EdgeLoc::BR)[0],
                Color::Blue,
                self.edge(EdgeLoc::BL)[0],
                self.corner(CornerLoc::DBR)[2],
                self.edge(EdgeLoc::DB)[1],
                self.corner(CornerLoc::DBL)[1],
            ],
        };
        assert(res@ =~= self.face(face));
        res
    }

    /// The unfolded cube, row by row.
    pub fn rows(&self) -> (res: Vec<Vec<Color>>)
        requires
            self.state.wf(),
        ensures
            res@.len() == 9,
            forall|row: int| 0 <= row < 9 ==> (#[trigger] res@[row])@ == self.net_row(row),
    {
        let u = self.stickers(MoveBase::U);
        let d = self.stickers(MoveBase::D);
        let l = self.stickers(MoveBase::L);
        let r = self.stickers(MoveBase::R);
        let f = self.stickers(MoveBase::F);
        let b = self.stickers(MoveBase::B);
        let mut rows: Vec<Vec<Color>> = Vec::new();
        for row in 0..9
            invariant
                u@ == self.face(MoveBase::U),
                d@ == self.face(MoveBase::D),
                l@ == self.face(MoveBase::L),
                r@ == self.face(MoveBase::R),
                f@ == self.face(MoveBase::F),
                b@ == self.face(MoveBase::B),
                rows@.len() == row,
                forall|k: int| 0 <= k < row ==> (#[trigger] rows@[k])@ == self.net_row(k),
        {
            let at = 3 * (row % 3);
            let cells: Vec<Color> = if row < 3 {
                vec![Color::Blank, Color::Blank, Color::Blank, u[at], u[at + 1], u[at + 2]]
            } else if row < 6 {
                vec![
                    l[at],
                    l[at + 1],
                    l[at + 2],
                    f[at],
                    f[at + 1],
                    f[at + 2],
                    r[at],
                    r[at + 1],
                    r[at + 2],
                    b[at],
                    b[at + 1],
                    b[at + 2],
                ]
            } else {
                vec![Color::Blank, Color::Blank, Color::Blank, d[at], d[at + 1], d[at + 2]]
            };
            assert(cells@ =~= self.net_row(row as int));
            rows.push(cells);
        }
        rows
    }

    /// The unfolded cube as text for a terminal: nine lines of coloured
    /// cells.
    pub fn render(&self) -> (res: String)
        requires
            self.state.wf(),
        ensures
            res@ == rows_text(self.net()),
    {
        let rows = self.rows();
        let ghost net = self.net();
        let mut text = String::new();
        for row in 0..9
            invariant
                rows@.len() == 9,
                net == self.net(),
                forall|k: int| 0 <= k < 9 ==> (#[trigger] rows@[k])@ == net[k],
                text@ == rows_text(net.take(row as int)),
        {
            if row > 0 {
                proof {
                    reveal_strlit("\n");
                }
                text.append("\n");
            }
            let cells = &rows[row];
            let ghost start = text@;
            for at in 0..cells.len()
                invariant
                    cells@ == net[row as int],
                    text@ == start + row_text(cells@.take(at as int)),
            {
                proof {
                    assert(cells@.take(at + 1).drop_last() =~= cells@.take(at as int));
                }
                let cell = cells[at].to_string();
                text.append(cell.as_str());
            }
            proof {
                assert(cells@.take(cells@.len() as int) =~= cells@);
                assert(net.take(row + 1).drop_last() =~= net.take(row as int));
            }
        }
        assert(net.take(9) =~= net);
        text
    }
}

} // verus!
