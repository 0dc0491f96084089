//! The lines of a page.

use vstd::prelude::*;
use vstd::string::*;

verus! {

broadcast use vstd::group_vstd_default;

/// How a piece of text stands out.
#[derive(Debug, Clone, Copy, PartialEq, Eq, Structural)]
pub enum Tone {
    Plain,
    Strong,
    /// The name of the program, and of what is in focus.
    Title,
    /// The step or the choice that is taken.
    Current,
    /// A value that can be turned.
    Value,
    /// A step that is done.
    Done,
    Faint,
    Dim,
    Hint,
    Notice,
    Warning,
    /// How much a filter shows.
    Count,
}

/// A piece of text.
#[derive(Debug, PartialEq, Eq)]
pub struct Piece {
    pub text: String,
    pub tone: Tone,
}

#[verifier::ext_equal]
pub struct PieceView {
    pub text: Seq<char>,
    pub tone: Tone,
}

impl DeepView for Piece {
    type V = PieceView;

    open spec fn deep_view(&self) -> PieceView {
        PieceView { text: self.text@, tone: self.tone }
    }
}

/// A line of one piece.
pub open spec fn line(text: Seq<char>, tone: Tone) -> Seq<PieceView> {
    seq![PieceView { text, tone }]
}

/// A plain line.
pub open spec fn plain(text: Seq<char>) -> Seq<PieceView> {
    line(text, Tone::Plain)
}

/// An empty line.
pub open spec fn gap() -> Seq<PieceView> {
    plain(Seq::empty())
}

/// Adds a piece to a line.
pub fn add_piece(pieces: &mut Vec<Piece>, text: String, tone: Tone)
    ensures
        final(pieces).deep_view() == old(pieces).deep_view().push(
            (PieceView { text: text@, tone }),
        ),
{
    let ghost before = pieces.deep_view();
    pieces.push(Piece { text, tone });
    assert(pieces.deep_view() =~= before.push(PieceView { text: text@, tone }));
}

/// Adds a line of pieces to a page.
pub fn add_pieces(lines: &mut Vec<Vec<Piece>>, pieces: Vec<Piece>)
    ensures
        final(lines).deep_view() == old(lines).deep_view().push(pieces.deep_view()),
{
    let ghost before = lines.deep_view();
    lines.push(pieces);
    assert(lines.deep_view() =~= before.push(pieces.deep_view()));
}

/// Adds a line of one piece to a page.
pub fn add_line(lines: &mut Vec<Vec<Piece>>, text: String, tone: Tone)
    ensures
        final(lines).deep_view() == old(lines).deep_view().push(line(text@, tone)),
{
    let mut pieces: Vec<Piece> = Vec::new();
    add_piece(&mut pieces, text, tone);
    assert(pieces.deep_view() =~= line(text@, tone));
    add_pieces(lines, pieces);
}

/// Adds an empty line to a page.
pub fn add_gap(lines: &mut Vec<Vec<Piece>>)
    ensures
        final(lines).deep_view() == old(lines).deep_view().push(gap()),
{
    let empty = String::new();
    assert(empty@ =~= Seq::<char>::empty());
    add_line(lines, empty, Tone::Plain);
}

} // verus!
