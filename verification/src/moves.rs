//! Move legality engine.
//!
//! `move_allowed` is the mathematical statement of the movement rules:
//! per-type shape, path clearance for the sliding pieces, and the common
//! rule that a destination held by a piece of the mover's own color is
//! never legal. `Piece::is_move_valid` is the executable decision
//! procedure, proved to return exactly `move_allowed`.

use vstd::prelude::*;
use crate::pieces::{Piece, PieceColor, PieceType, square_occupied, square_occupied_by,
    square_has_piece, square_has_color};

verus! {

/// Magnitude of a coordinate delta.
pub open spec fn delta_abs(d: int) -> int {
    if d < 0 {
        -d
    } else {
        d
    }
}

/// Rook-like shape: purely horizontal or purely vertical, nonzero.
pub open spec fn straight_shape(dx: int, dy: int) -> bool {
    (dx == 0) != (dy == 0)
}

/// Bishop-like shape: as many files as ranks, nonzero.
pub open spec fn diagonal_shape(dx: int, dy: int) -> bool {
    dx != 0 && delta_abs(dx) == delta_abs(dy)
}

/// Knight shape: one of the eight (1, 2) / (2, 1) jumps.
pub open spec fn knight_shape(dx: int, dy: int) -> bool {
    (delta_abs(dx) == 1 && delta_abs(dy) == 2) || (delta_abs(dx) == 2 && delta_abs(dy) == 1)
}

/// King shape: one step in any direction.
pub open spec fn king_shape(dx: int, dy: int) -> bool {
    delta_abs(dx) <= 1 && delta_abs(dy) <= 1 && !(dx == 0 && dy == 0)
}

/// For a straight (horizontal or vertical) move, every square strictly
/// between origin and destination is free.
pub open spec fn straight_path_clear(
    pieces: Seq<Piece>,
    x0: int,
    y0: int,
    x1: int,
    y1: int,
) -> bool {
    if x0 == x1 {
        forall|y: int| y0 < y < y1 || y1 < y < y0 ==> !(#[trigger] square_occupied(pieces, x0, y))
    } else {
        forall|x: int| x0 < x < x1 || x1 < x < x0 ==> !(#[trigger] square_occupied(pieces, x, y0))
    }
}

/// The y coordinate at which the diagonal from (x0, y0) to (x1, y1)
/// crosses the file x.
pub open spec fn diag_y(x0: int, y0: int, x1: int, y1: int, x: int) -> int {
    if (x1 > x0) == (y1 > y0) {
        y0 + (x - x0)
    } else {
        y0 - (x - x0)
    }
}

/// For a diagonal move, every square strictly between origin and
/// destination is free.
pub open spec fn diagonal_path_clear(
    pieces: Seq<Piece>,
    x0: int,
    y0: int,
    x1: int,
    y1: int,
) -> bool {
    forall|x: int|
        x0 < x < x1 || x1 < x < x0 ==> !(#[trigger] square_occupied(
            pieces,
            x,
            diag_y(x0, y0, x1, y1, x),
        ))
}

/// Pawn policy: one square straight ahead onto a free square, or one
/// square diagonally ahead onto an opposing piece. White moves toward
/// increasing x, Black toward decreasing x; there is no two-square
/// advance, no en passant and no promotion.
pub open spec fn pawn_move_allowed(p: Piece, nx: int, ny: int, pieces: Seq<Piece>) -> bool {
    let dir: int = if p.color == PieceColor::White {
        1
    } else {
        -1
    };
    let dx = nx - p.x;
    let dy = ny - p.y;
    ||| (dx == dir && dy == 0 && !square_occupied(pieces, nx, ny))
    ||| (dx == dir && delta_abs(dy) == 1 && square_occupied_by(
        pieces,
        nx,
        ny,
        p.color.spec_opposite(),
    ))
}

/// The per-type movement rule, path clearance included.
pub open spec fn shape_allowed(p: Piece, nx: int, ny: int, pieces: Seq<Piece>) -> bool {
    let dx = nx - p.x;
    let dy = ny - p.y;
    match p.piece_type {
        PieceType::King => king_shape(dx, dy),
        PieceType::Queen => (straight_shape(dx, dy) && straight_path_clear(
            pieces,
            p.x as int,
            p.y as int,
            nx,
            ny,
        )) || (diagonal_shape(dx, dy) && diagonal_path_clear(
            pieces,
            p.x as int,
            p.y as int,
            nx,
            ny,
        )),
        PieceType::Rook => straight_shape(dx, dy) && straight_path_clear(
            pieces,
            p.x as int,
            p.y as int,
            nx,
            ny,
        ),
        PieceType::Bishop => diagonal_shape(dx, dy) && diagonal_path_clear(
            pieces,
            p.x as int,
            p.y as int,
            nx,
            ny,
        ),
        PieceType::Knight => knight_shape(dx, dy),
        PieceType::Pawn => pawn_move_allowed(p, nx, ny, pieces),
    }
}

/// The legality predicate: the destination is on the board, is not held
/// by a piece of the mover's own color, and the per-type rule admits it.
pub open spec fn move_allowed(p: Piece, nx: int, ny: int, pieces: Seq<Piece>) -> bool {
    &&& 0 <= nx < 8 && 0 <= ny < 8
    &&& !square_occupied_by(pieces, nx, ny, p.color)
    &&& shape_allowed(p, nx, ny, pieces)
}

/// A square strictly between the two ends of a straight or diagonal
/// segment: the squares a sliding move passes over.
pub open spec fn strictly_between(x0: int, y0: int, x1: int, y1: int, bx: int, by: int) -> bool {
    ||| (x0 == x1 && bx == x0 && (y0 < by < y1 || y1 < by < y0))
    ||| (y0 == y1 && by == y0 && (x0 < bx < x1 || x1 < bx < x0))
    ||| (diagonal_shape(x1 - x0, y1 - y0) && (x0 < bx < x1 || x1 < bx < x0) && by == diag_y(
        x0,
        y0,
        x1,
        y1,
        bx,
    ))
}

/// Legality is a pure function of the piece, the destination and the
/// snapshot: two results computed from identical inputs are equal. With
/// the postcondition of `Piece::is_move_valid`, repeated calls with
/// identical arguments always return the same answer.
pub proof fn lemma_move_valid_deterministic(
    p: Piece,
    nx: int,
    ny: int,
    pieces: Seq<Piece>,
    r1: bool,
    r2: bool,
)
    requires
        r1 == move_allowed(p, nx, ny, pieces),
        r2 == move_allowed(p, nx, ny, pieces),
    ensures
        r1 == r2,
{
}

/// No piece, of any type, may legally move onto a square held by a piece
/// of its own color.
pub proof fn lemma_same_color_destination_illegal(
    p: Piece,
    nx: int,
    ny: int,
    pieces: Seq<Piece>,
)
    requires
        square_occupied_by(pieces, nx, ny, p.color),
    ensures
        !move_allowed(p, nx, ny, pieces),
{
}

/// Knight legality never depends on pieces standing between origin and
/// destination: any two snapshots that agree on whether the mover's own
/// color holds the destination agree on every knight move.
pub proof fn lemma_knight_ignores_blockers(
    p: Piece,
    nx: int,
    ny: int,
    s1: Seq<Piece>,
    s2: Seq<Piece>,
)
    requires
        p.piece_type == PieceType::Knight,
        square_occupied_by(s1, nx, ny, p.color) == square_occupied_by(s2, nx, ny, p.color),
    ensures
        move_allowed(p, nx, ny, s1) == move_allowed(p, nx, ny, s2),
{
}

/// A Rook, Bishop or Queen move is illegal whenever any square strictly
/// between origin and destination is occupied, regardless of what stands
/// on the destination itself.
pub proof fn lemma_blocked_slider_illegal(
    p: Piece,
    nx: int,
    ny: int,
    pieces: Seq<Piece>,
    bx: int,
    by: int,
)
    requires
        p.piece_type == PieceType::Rook || p.piece_type == PieceType::Bishop || p.piece_type
            == PieceType::Queen,
        strictly_between(p.x as int, p.y as int, nx, ny, bx, by),
        square_occupied(pieces, bx, by),
    ensures
        !move_allowed(p, nx, ny, pieces),
{
    let x0 = p.x as int;
    let y0 = p.y as int;
    let dx = nx - x0;
    let dy = ny - y0;
    if x0 == nx && bx == x0 && (y0 < by < ny || ny < by < y0) {
        assert(square_occupied(pieces, x0, by));
        assert(!straight_path_clear(pieces, x0, y0, nx, ny));
        assert(!diagonal_shape(dx, dy));
    } else if y0 == ny && by == y0 && (x0 < bx < nx || nx < bx < x0) {
        assert(square_occupied(pieces, bx, y0));
        assert(!straight_path_clear(pieces, x0, y0, nx, ny));
        assert(!diagonal_shape(dx, dy));
    } else {
        assert(diagonal_shape(dx, dy) && by == diag_y(x0, y0, nx, ny, bx));
        assert(square_occupied(pieces, bx, diag_y(x0, y0, nx, ny, bx)));
        assert(!diagonal_path_clear(pieces, x0, y0, nx, ny));
        assert(!straight_shape(dx, dy));
    }
}

/// A pawn may never move straight ahead onto an occupied square, whoever
/// holds it.
pub proof fn lemma_pawn_forward_blocked(p: Piece, nx: int, ny: int, pieces: Seq<Piece>)
    requires
        p.piece_type == PieceType::Pawn,
        ny == p.y,
        square_occupied(pieces, nx, ny),
    ensures
        !move_allowed(p, nx, ny, pieces),
{
}

/// A pawn may never move diagonally onto an empty square: the diagonal
/// step exists only as a capture.
pub proof fn lemma_pawn_diagonal_needs_capture(p: Piece, nx: int, ny: int, pieces: Seq<Piece>)
    requires
        p.piece_type == PieceType::Pawn,
        ny != p.y,
        !square_occupied(pieces, nx, ny),
    ensures
        !move_allowed(p, nx, ny, pieces),
{
    if square_occupied_by(pieces, nx, ny, p.color.spec_opposite()) {
        crate::pieces::lemma_occupied_by_implies_occupied(
            pieces,
            nx,
            ny,
            p.color.spec_opposite(),
        );
    }
}

/// Walks the squares strictly between the ends of a straight segment and
/// reports whether all of them are free.
fn straight_path_is_clear(pieces: &Vec<Piece>, x0: u8, y0: u8, x1: u8, y1: u8) -> (r: bool)
    requires
        x0 == x1 || y0 == y1,
    ensures
        r == straight_path_clear(pieces@, x0 as int, y0 as int, x1 as int, y1 as int),
{
    if x0 == x1 {
        let lo: u8 = if y0 < y1 {
            y0
        } else {
            y1
        };
        let hi: u8 = if y0 < y1 {
            y1
        } else {
            y0
        };
        let mut y: u16 = lo as u16 + 1;
        while y < hi as u16
            invariant
                (lo as u16) < y,
                y <= 256,
                lo == if y0 < y1 { y0 } else { y1 },
                hi == if y0 < y1 { y1 } else { y0 },
                x0 == x1,
                forall|yy: int|
                    lo < yy < y ==> !(#[trigger] square_occupied(pieces@, x0 as int, yy)),
            decreases hi as int - y,
        {
            if square_has_piece(pieces, x0, y as u8) {
                assert(square_occupied(pieces@, x0 as int, y as int));
                return false;
            }
            y = y + 1;
        }
        true
    } else {
        let lo: u8 = if x0 < x1 {
            x0
        } else {
            x1
        };
        let hi: u8 = if x0 < x1 {
            x1
        } else {
            x0
        };
        let mut x: u16 = lo as u16 + 1;
        while x < hi as u16
            invariant
                (lo as u16) < x,
                x <= 256,
                lo == if x0 < x1 { x0 } else { x1 },
                hi == if x0 < x1 { x1 } else { x0 },
                x0 != x1,
                y0 == y1,
                forall|xx: int|
                    lo < xx < x ==> !(#[trigger] square_occupied(pieces@, xx, y0 as int)),
            decreases hi as int - x,
        {
            if square_has_piece(pieces, x as u8, y0) {
                assert(square_occupied(pieces@, x as int, y0 as int));
                return false;
            }
            x = x + 1;
        }
        true
    }
}

/// Walks the squares strictly between the ends of a diagonal segment and
/// reports whether all of them are free.
fn diagonal_path_is_clear(pieces: &Vec<Piece>, x0: u8, y0: u8, x1: u8, y1: u8) -> (r: bool)
    requires
        x0 != x1,
        delta_abs(x1 as int - x0 as int) == delta_abs(y1 as int - y0 as int),
    ensures
        r == diagonal_path_clear(pieces@, x0 as int, y0 as int, x1 as int, y1 as int),
{
    let lo: u8 = if x0 < x1 {
        x0
    } else {
        x1
    };
    let hi: u8 = if x0 < x1 {
        x1
    } else {
        x0
    };
    let up: bool = (x1 > x0) == (y1 > y0);
    let mut x: u16 = lo as u16 + 1;
    while x < hi as u16
        invariant
            (lo as u16) < x,
            x <= 256,
            lo == if x0 < x1 { x0 } else { x1 },
            hi == if x0 < x1 { x1 } else { x0 },
            x0 != x1,
            delta_abs(x1 as int - x0 as int) == delta_abs(y1 as int - y0 as int),
            up == ((x1 > x0) == (y1 > y0)),
            forall|xx: int|
                lo < xx < x ==> !(#[trigger] square_occupied(
                    pieces@,
                    xx,
                    diag_y(x0 as int, y0 as int, x1 as int, y1 as int, xx),
                )),
        decreases hi as int - x,
    {
        let yy: i32 = if up {
            y0 as i32 + (x as i32 - x0 as i32)
        } else {
            y0 as i32 - (x as i32 - x0 as i32)
        };
        assert(yy == diag_y(x0 as int, y0 as int, x1 as int, y1 as int, x as int));
        assert(0 <= yy < 256);
        if square_has_piece(pieces, x as u8, yy as u8) {
            assert(square_occupied(
                pieces@,
                x as int,
                diag_y(x0 as int, y0 as int, x1 as int, y1 as int, x as int),
            ));
            return false;
        }
        x = x + 1;
    }
    true
}

impl Piece {
    /// Decides whether moving this piece to `new_position` would be legal
    /// on the given snapshot of all piece records. Pure: the result is
    /// exactly `move_allowed`, a function of the arguments alone, and
    /// nothing is mutated. Destinations off the board are illegal
    /// unconditionally.
    pub fn is_move_valid(&self, new_position: (u8, u8), pieces: &Vec<Piece>) -> (r: bool)
        ensures
            r == move_allowed(*self, new_position.0 as int, new_position.1 as int, pieces@),
    {
        let (nx, ny) = new_position;
        if nx >= 8 || ny >= 8 {
            return false;
        }
        if square_has_color(pieces, nx, ny, self.color) {
            return false;
        }
        let dx: i32 = nx as i32 - self.x as i32;
        let dy: i32 = ny as i32 - self.y as i32;
        let adx: i32 = if dx < 0 {
            -dx
        } else {
            dx
        };
        let ady: i32 = if dy < 0 {
            -dy
        } else {
            dy
        };
        match self.piece_type {
            PieceType::King => adx <= 1 && ady <= 1 && !(dx == 0 && dy == 0),
            PieceType::Queen => {
                if (dx == 0) != (dy == 0) {
                    straight_path_is_clear(pieces, self.x, self.y, nx, ny)
                } else if dx != 0 && adx == ady {
                    diagonal_path_is_clear(pieces, self.x, self.y, nx, ny)
                } else {
                    false
                }
            },
            PieceType::Rook => {
                if (dx == 0) != (dy == 0) {
                    straight_path_is_clear(pieces, self.x, self.y, nx, ny)
                } else {
                    false
                }
            },
            PieceType::Bishop => {
                if dx != 0 && adx == ady {
                    diagonal_path_is_clear(pieces, self.x, self.y, nx, ny)
                } else {
                    false
                }
            },
            PieceType::Knight => (adx == 1 && ady == 2) || (adx == 2 && ady == 1),
            PieceType::Pawn => {
                let dir: i32 = if self.color == PieceColor::White {
                    1
                } else {
                    -1
                };
                if dx == dir && dy == 0 {
                    !square_has_piece(pieces, nx, ny)
                } else if dx == dir && ady == 1 {
                    square_has_color(pieces, nx, ny, self.color.opposite())
                } else {
                    false
                }
            },
        }
    }
}

} // verus!
