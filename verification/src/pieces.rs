//! Piece catalog and board occupancy.
//!
//! A board snapshot is nothing more than the sequence of all piece records;
//! occupancy of a square is a pure function of that sequence, so the spec
//! functions here are the single source of truth every other module builds on.

use vstd::prelude::*;

verus! {

/// The two sides of a chess match.
#[derive(Clone, Copy, PartialEq, Eq, Structural, Debug)]
pub enum PieceColor {
    White,
    Black,
}

impl PieceColor {
    /// The other side.
    pub open spec fn spec_opposite(self) -> PieceColor {
        match self {
            PieceColor::White => PieceColor::Black,
            PieceColor::Black => PieceColor::White,
        }
    }

    /// Returns the other side.
    #[verifier::when_used_as_spec(spec_opposite)]
    pub fn opposite(self) -> (r: PieceColor)
        ensures
            r == self.spec_opposite(),
    {
        match self {
            PieceColor::White => PieceColor::Black,
            PieceColor::Black => PieceColor::White,
        }
    }
}

/// The six kinds of chess pieces.
#[derive(Clone, Copy, PartialEq, Eq, Structural, Debug)]
pub enum PieceType {
    King,
    Queen,
    Bishop,
    Knight,
    Rook,
    Pawn,
}

/// One physical piece. The record is created once at match setup and keeps
/// its identity for the whole match: a move changes `x` and `y`, a capture
/// clears `alive`, and nothing is ever recreated.
#[derive(Clone, Copy, PartialEq, Eq, Structural, Debug)]
pub struct Piece {
    pub color: PieceColor,
    pub piece_type: PieceType,
    pub x: u8,
    pub y: u8,
    pub alive: bool,
}

/// `p` is a live piece standing on square (x, y).
pub open spec fn piece_covers(p: Piece, x: int, y: int) -> bool {
    p.alive && p.x == x && p.y == y
}

/// Some live piece of the snapshot stands on square (x, y).
pub open spec fn square_occupied(pieces: Seq<Piece>, x: int, y: int) -> bool {
    exists|k: int| 0 <= k < pieces.len() && piece_covers(#[trigger] pieces[k], x, y)
}

/// Some live piece of color `c` stands on square (x, y).
pub open spec fn square_occupied_by(pieces: Seq<Piece>, x: int, y: int, c: PieceColor) -> bool {
    exists|k: int|
        0 <= k < pieces.len() && piece_covers(#[trigger] pieces[k], x, y) && pieces[k].color == c
}

/// A square occupied by a piece of some color is occupied.
pub proof fn lemma_occupied_by_implies_occupied(
    pieces: Seq<Piece>,
    x: int,
    y: int,
    c: PieceColor,
)
    requires
        square_occupied_by(pieces, x, y, c),
    ensures
        square_occupied(pieces, x, y),
{
    let k = choose|k: int|
        0 <= k < pieces.len() && piece_covers(#[trigger] pieces[k], x, y) && pieces[k].color == c;
    assert(piece_covers(pieces[k], x, y));
}

/// Number of live pieces of a snapshot.
pub open spec fn live_count(pieces: Seq<Piece>) -> nat
    decreases pieces.len(),
{
    if pieces.len() == 0 {
        0
    } else {
        live_count(pieces.drop_last()) + if pieces.last().alive {
            1nat
        } else {
            0nat
        }
    }
}

/// Snapshots with pointwise equal alive flags have the same live count.
pub proof fn lemma_live_count_same_alive(s1: Seq<Piece>, s2: Seq<Piece>)
    requires
        s1.len() == s2.len(),
        forall|i: int| 0 <= i < s1.len() ==> s1[i].alive == (#[trigger] s2[i]).alive,
    ensures
        live_count(s1) == live_count(s2),
    decreases s1.len(),
{
    if s1.len() > 0 {
        assert forall|i: int| 0 <= i < s1.drop_last().len() implies s1.drop_last()[i].alive == (
        #[trigger] s2.drop_last()[i]).alive by {
            assert(s1[i].alive == s2[i].alive);
        }
        lemma_live_count_same_alive(s1.drop_last(), s2.drop_last());
        assert(s1.last().alive == s2.last().alive);
    }
}

/// Clearing the alive flag of exactly one live record lowers the live
/// count by exactly one.
pub proof fn lemma_live_count_one_taken(s1: Seq<Piece>, s2: Seq<Piece>, t: int)
    requires
        s1.len() == s2.len(),
        0 <= t < s1.len(),
        s1[t].alive,
        !s2[t].alive,
        forall|i: int| 0 <= i < s1.len() && i != t ==> s1[i].alive == (#[trigger] s2[i]).alive,
    ensures
        live_count(s1) == live_count(s2) + 1,
    decreases s1.len(),
{
    if t == s1.len() - 1 {
        assert forall|i: int| 0 <= i < s1.drop_last().len() implies s1.drop_last()[i].alive == (
        #[trigger] s2.drop_last()[i]).alive by {
            assert(s1[i].alive == s2[i].alive);
        }
        lemma_live_count_same_alive(s1.drop_last(), s2.drop_last());
    } else {
        assert forall|i: int| 0 <= i < s1.drop_last().len() && i != t implies s1.drop_last()[i].alive
            == (#[trigger] s2.drop_last()[i]).alive by {
            assert(s1[i].alive == s2[i].alive);
        }
        lemma_live_count_one_taken(s1.drop_last(), s2.drop_last(), t);
        assert(s1.last().alive == s2.last().alive);
    }
}

/// Answers whether any live piece stands on (x, y).
pub fn square_has_piece(pieces: &Vec<Piece>, x: u8, y: u8) -> (r: bool)
    ensures
        r == square_occupied(pieces@, x as int, y as int),
{
    let mut i: usize = 0;
    while i < pieces.len()
        invariant
            i <= pieces@.len(),
            forall|k: int| 0 <= k < i ==> !piece_covers(#[trigger] pieces@[k], x as int, y as int),
        decreases pieces@.len() - i,
    {
        let p = pieces[i];
        if p.alive && p.x == x && p.y == y {
            assert(piece_covers(pieces@[i as int], x as int, y as int));
            return true;
        }
        i = i + 1;
    }
    false
}

/// Answers whether a live piece of color `c` stands on (x, y).
pub fn square_has_color(pieces: &Vec<Piece>, x: u8, y: u8, c: PieceColor) -> (r: bool)
    ensures
        r == square_occupied_by(pieces@, x as int, y as int, c),
{
    match find_live_piece(pieces, x, y, c) {
        Some(k) => {
            assert(piece_covers(pieces@[k as int], x as int, y as int));
            true
        },
        None => false,
    }
}

/// Finds the live piece of color `c` standing on (x, y), if one does.
pub fn find_live_piece(pieces: &Vec<Piece>, x: u8, y: u8, c: PieceColor) -> (r: Option<usize>)
    ensures
        match r {
            Some(k) => k < pieces@.len() && piece_covers(pieces@[k as int], x as int, y as int)
                && pieces@[k as int].color == c,
            None => !square_occupied_by(pieces@, x as int, y as int, c),
        },
{
    let mut i: usize = 0;
    while i < pieces.len()
        invariant
            i <= pieces@.len(),
            forall|k: int|
                0 <= k < i ==> !(piece_covers(#[trigger] pieces@[k], x as int, y as int)
                    && pieces@[k].color == c),
        decreases pieces@.len() - i,
    {
        let p = pieces[i];
        if p.alive && p.x == x && p.y == y && p.color == c {
            return Some(i);
        }
        i = i + 1;
    }
    None
}

} // verus!
