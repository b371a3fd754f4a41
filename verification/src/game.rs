//! Turn & selection state machine, move commit and match outcome.
//!
//! One `GameState` value owns the whole match: the piece records, the side
//! to move, the transient selection and the transient hover mark. The sole
//! mutating entry point during play is `handle_square_clicked`, which maps
//! the previous state and one click to the next state: it selects a piece,
//! marks a square, or treats the click as a destination, committing a legal
//! move atomically (position update, capture, turn change, outcome check)
//! and aborting an illegal one without touching board or turn.

use vstd::prelude::*;
use crate::board::{PlayerTurn, Square};
use crate::pieces::{Piece, PieceColor, PieceType, piece_covers, square_occupied,
    square_occupied_by, find_live_piece, live_count, lemma_live_count_same_alive,
    lemma_live_count_one_taken};
use crate::moves::move_allowed;

verus! {

/// What the state machine holds between clicks.
#[derive(Clone, Copy, PartialEq, Eq, Structural, Debug)]
pub enum SelectionState {
    /// Nothing selected.
    Idle,
    /// The square (x, y) is marked; no piece is held.
    SquareSelected { x: u8, y: u8 },
    /// The piece with index `piece`, standing on (x, y) and belonging to
    /// the side on move, awaits a destination click.
    PieceSelected { x: u8, y: u8, piece: usize },
    /// A king was captured. `winner` is the side whose king survives;
    /// every further click is ignored.
    GameOver { winner: PieceColor },
}

/// The authoritative game state of one match.
pub struct GameState {
    /// Every piece record of the match, captured ones included.
    pub pieces: Vec<Piece>,
    /// The side on move.
    pub turn: PlayerTurn,
    /// The selection the last processed click left behind.
    pub selection: SelectionState,
    /// The square the pointer last passed over; purely cosmetic and
    /// never consulted by the rules.
    pub hovered: Option<Square>,
}

/// The board invariant: every piece record stays on the board and no two
/// live pieces share a square.
pub open spec fn pieces_wf(pieces: Seq<Piece>) -> bool {
    &&& forall|k: int| 0 <= k < pieces.len() ==> (#[trigger] pieces[k]).x < 8 && pieces[k].y < 8
    &&& forall|j: int, k: int|
        0 <= j < pieces.len() && 0 <= k < pieces.len() && j != k && (#[trigger] pieces[j]).alive
            && (#[trigger] pieces[k]).alive ==> !(pieces[j].x == pieces[k].x && pieces[j].y
            == pieces[k].y)
}

/// On a well-formed board, two live pieces on the same square have the
/// same index.
pub proof fn lemma_live_index_unique(pieces: Seq<Piece>, j: int, k: int)
    requires
        pieces_wf(pieces),
        0 <= j < pieces.len(),
        0 <= k < pieces.len(),
        pieces[j].alive,
        pieces[k].alive,
        pieces[j].x == pieces[k].x,
        pieces[j].y == pieces[k].y,
    ensures
        j == k,
{
}

/// The selection reached when a click on (x, y) arrives while no piece is
/// held: the live piece of the side on move standing there becomes
/// selected; an empty or opposing square is merely marked; a click off
/// the board clears everything.
pub open spec fn select_transition(
    pieces: Seq<Piece>,
    turn: PieceColor,
    x: int,
    y: int,
) -> SelectionState {
    if !(0 <= x < 8 && 0 <= y < 8) {
        SelectionState::Idle
    } else if square_occupied_by(pieces, x, y, turn) {
        SelectionState::PieceSelected {
            x: x as u8,
            y: y as u8,
            piece: (choose|k: int|
                0 <= k < pieces.len() && piece_covers(#[trigger] pieces[k], x, y) && pieces[k].color
                    == turn) as usize,
        }
    } else {
        SelectionState::SquareSelected { x: x as u8, y: y as u8 }
    }
}

/// The board after the record at index `m` moves to (nx, ny): the mover
/// stands on the destination, a live opposing piece that stood there is no
/// longer alive, and every other record is untouched.
pub open spec fn after_move(pieces: Seq<Piece>, m: int, nx: int, ny: int) -> Seq<Piece> {
    Seq::new(
        pieces.len(),
        |j: int|
            if j == m {
                Piece { x: nx as u8, y: ny as u8, ..pieces[m] }
            } else if piece_covers(pieces[j], nx, ny) && pieces[j].color != pieces[m].color {
                Piece { alive: false, ..pieces[j] }
            } else {
                pieces[j]
            },
    )
}

/// A live opposing king stands on the destination of the record at index
/// `m`: committing this move ends the match.
pub open spec fn king_taken(pieces: Seq<Piece>, m: int, nx: int, ny: int) -> bool {
    exists|j: int|
        0 <= j < pieces.len() && piece_covers(#[trigger] pieces[j], nx, ny) && pieces[j].color
            != pieces[m].color && pieces[j].piece_type == PieceType::King
}

/// A click on (x, y) commits a move: a piece is held and its rule admits
/// the clicked destination.
pub open spec fn move_commits(pre: GameState, x: int, y: int) -> bool {
    pre.selection matches SelectionState::PieceSelected { piece: m, .. } && move_allowed(
        pre.pieces@[m as int],
        x,
        y,
        pre.pieces@,
    )
}

/// The piece records after a click on (x, y): they change only when the
/// click commits a legal move of a held piece.
pub open spec fn post_pieces(pre: GameState, x: int, y: int) -> Seq<Piece> {
    match pre.selection {
        SelectionState::PieceSelected { piece: m, .. } => if move_allowed(
            pre.pieces@[m as int],
            x,
            y,
            pre.pieces@,
        ) {
            after_move(pre.pieces@, m as int, x, y)
        } else {
            pre.pieces@
        },
        _ => pre.pieces@,
    }
}

/// The side on move after a click on (x, y): it flips exactly when the
/// click commits a legal move, and never otherwise.
pub open spec fn post_turn(pre: GameState, x: int, y: int) -> PieceColor {
    if move_commits(pre, x, y) {
        pre.turn.0.spec_opposite()
    } else {
        pre.turn.0
    }
}

/// The selection after a click on (x, y). A finished match stays
/// finished; a destination click always drops the held piece, reaching
/// `GameOver` when the committed move captures a king, `Idle` otherwise
/// (legal or not); with no piece held, `select_transition` decides.
pub open spec fn post_selection(pre: GameState, x: int, y: int) -> SelectionState {
    match pre.selection {
        SelectionState::GameOver { .. } => pre.selection,
        SelectionState::PieceSelected { piece: m, .. } => if move_allowed(
            pre.pieces@[m as int],
            x,
            y,
            pre.pieces@,
        ) {
            if king_taken(pre.pieces@, m as int, x, y) {
                SelectionState::GameOver { winner: pre.pieces@[m as int].color }
            } else {
                SelectionState::Idle
            }
        } else {
            SelectionState::Idle
        },
        _ => select_transition(pre.pieces@, pre.turn.0, x, y),
    }
}

/// The piece type standing on file y of a home rank in the conventional
/// starting position.
pub open spec fn back_rank_type(y: int) -> PieceType {
    if y == 0 || y == 7 {
        PieceType::Rook
    } else if y == 1 || y == 6 {
        PieceType::Knight
    } else if y == 2 || y == 5 {
        PieceType::Bishop
    } else if y == 3 {
        PieceType::Queen
    } else {
        PieceType::King
    }
}

/// Record i of the conventional starting position: White's home rank on
/// x = 0 and pawns on x = 1, Black's home rank on x = 7 and pawns on
/// x = 6, sixteen pieces per side.
pub open spec fn starting_piece(i: int) -> Piece {
    if i < 8 {
        Piece { color: PieceColor::White, piece_type: back_rank_type(i), x: 0, y: i as u8, alive: true }
    } else if i < 16 {
        Piece { color: PieceColor::White, piece_type: PieceType::Pawn, x: 1, y: (i - 8) as u8, alive: true }
    } else if i < 24 {
        Piece {
            color: PieceColor::Black,
            piece_type: back_rank_type(i - 16),
            x: 7,
            y: (i - 16) as u8,
            alive: true,
        }
    } else {
        Piece { color: PieceColor::Black, piece_type: PieceType::Pawn, x: 6, y: (i - 24) as u8, alive: true }
    }
}

/// The thirty-two records of the conventional starting position.
pub open spec fn starting_pieces() -> Seq<Piece> {
    Seq::new(32, |i: int| starting_piece(i))
}

/// The starting position is a well-formed board.
pub proof fn lemma_starting_pieces_wf()
    ensures
        pieces_wf(starting_pieces()),
{
    assert forall|j: int, k: int|
        0 <= j < starting_pieces().len() && 0 <= k < starting_pieces().len() && j != k
            && (#[trigger] starting_pieces()[j]).alive && (#[trigger] starting_pieces()[k]).alive
        implies !(starting_pieces()[j].x == starting_pieces()[k].x && starting_pieces()[j].y
        == starting_pieces()[k].y) by {
        assert(starting_pieces()[j] == starting_piece(j));
        assert(starting_pieces()[k] == starting_piece(k));
    }
}

/// Executable counterpart of `back_rank_type`.
fn back_rank_piece_type(y: u8) -> (r: PieceType)
    ensures
        r == back_rank_type(y as int),
{
    if y == 0 || y == 7 {
        PieceType::Rook
    } else if y == 1 || y == 6 {
        PieceType::Knight
    } else if y == 2 || y == 5 {
        PieceType::Bishop
    } else if y == 3 {
        PieceType::Queen
    } else {
        PieceType::King
    }
}

/// The turn alternates exactly once per committed legal move — to the
/// opposite color — and never changes on an illegal or aborted attempt.
pub proof fn lemma_turn_alternates_iff_commit(pre: GameState, x: int, y: int)
    ensures
        move_commits(pre, x, y) ==> post_turn(pre, x, y) == pre.turn.0.spec_opposite()
            && post_turn(pre, x, y) != pre.turn.0,
        !move_commits(pre, x, y) ==> post_turn(pre, x, y) == pre.turn.0,
{
}

/// After a committed legal move, exactly one of two things holds: no
/// piece stood on the destination and the live count is unchanged, or an
/// opposing piece stood there, exactly that record is no longer alive
/// afterwards, and the live count drops by exactly one. And whenever the
/// captured piece was a King, the machine's next state declares the
/// mover's color the winner.
pub proof fn lemma_commit_outcome(pre: GameState, x: int, y: int)
    requires
        pre.wf(),
        move_commits(pre, x, y),
    ensures
        pre.selection matches SelectionState::PieceSelected { piece: m, .. } ==> ({
            let ops = pre.pieces@;
            let post = after_move(ops, m as int, x, y);
            &&& !square_occupied(ops, x, y) ==> live_count(post) == live_count(ops) && (forall|
                j: int,
            | 0 <= j < ops.len() ==> (#[trigger] post[j]).alive == ops[j].alive)
            &&& square_occupied(ops, x, y) ==> (exists|j: int|
                0 <= j < ops.len() && j != m && piece_covers(#[trigger] ops[j], x, y) && ops[j].color
                    == ops[m as int].color.spec_opposite() && !post[j].alive) && live_count(post)
                + 1 == live_count(ops)
            &&& king_taken(ops, m as int, x, y) ==> post_selection(pre, x, y) == (
            SelectionState::GameOver { winner: ops[m as int].color })
        }),
{
    match pre.selection {
        SelectionState::PieceSelected { x: _, y: _, piece: m } => {
            let ops = pre.pieces@;
            let mi = m as int;
            let post = after_move(ops, mi, x, y);
            let p = ops[mi];
            assert(move_allowed(p, x, y, ops));
            // the mover never stands on its own destination: every shape
            // rules out the zero step
            assert(!piece_covers(p, x, y));
            assert(p.color.spec_opposite() != p.color);
            if !square_occupied(ops, x, y) {
                assert forall|j: int| 0 <= j < ops.len() implies (#[trigger] post[j]).alive
                    == ops[j].alive by {
                    if j != mi && piece_covers(ops[j], x, y) {
                        assert(square_occupied(ops, x, y));
                    }
                }
                lemma_live_count_same_alive(ops, post);
            } else {
                let w = choose|j: int| 0 <= j < ops.len() && piece_covers(#[trigger] ops[j], x, y);
                assert(piece_covers(ops[w], x, y));
                assert(w != mi);
                if ops[w].color == p.color {
                    assert(square_occupied_by(ops, x, y, p.color));
                }
                assert(ops[w].color == p.color.spec_opposite());
                assert(!post[w].alive);
                assert forall|i: int| 0 <= i < ops.len() && i != w implies ops[i].alive == (
                #[trigger] post[i]).alive by {
                    if i != mi && piece_covers(ops[i], x, y) && ops[i].color != p.color {
                        lemma_live_index_unique(ops, i, w);
                    }
                }
                lemma_live_count_one_taken(ops, post, w);
            }
        },
        _ => {},
    }
}

impl GameState {
    /// Well-formedness: the board invariant, plus a selection that refers
    /// to real, current state.
    pub open spec fn wf(self) -> bool {
        &&& pieces_wf(self.pieces@)
        &&& match self.selection {
            SelectionState::Idle => true,
            SelectionState::SquareSelected { x, y } => x < 8 && y < 8,
            SelectionState::PieceSelected { x, y, piece } => {
                &&& x < 8 && y < 8
                &&& (piece as int) < self.pieces@.len()
                &&& piece_covers(self.pieces@[piece as int], x as int, y as int)
                &&& self.pieces@[piece as int].color == self.turn.0
            },
            SelectionState::GameOver { .. } => true,
        }
    }

    /// A fresh state: no pieces yet, White to move, nothing selected.
    pub fn new() -> (r: GameState)
        ensures
            r.pieces@.len() == 0,
            r.turn.0 == PieceColor::White,
            r.selection == SelectionState::Idle,
            r.hovered is None,
            r.wf(),
    {
        GameState {
            pieces: Vec::new(),
            turn: PlayerTurn(PieceColor::White),
            selection: SelectionState::Idle,
            hovered: None,
        }
    }

    /// Populates the sixteen-plus-sixteen starting pieces at their
    /// conventional ranks and files, hands the move to White and clears
    /// the selection: everything a match start needs, in one call.
    pub fn initialize_standard_position(&mut self)
        ensures
            final(self).pieces@ == starting_pieces(),
            final(self).turn.0 == PieceColor::White,
            final(self).selection == SelectionState::Idle,
            final(self).hovered == old(self).hovered,
            final(self).wf(),
    {
        let mut ps: Vec<Piece> = Vec::new();
        let mut y: u8 = 0;
        while y < 8
            invariant
                y <= 8,
                ps@.len() == y,
                forall|i: int| 0 <= i < y ==> #[trigger] ps@[i] == starting_piece(i),
            decreases 8 - y,
        {
            ps.push(
                Piece {
                    color: PieceColor::White,
                    piece_type: back_rank_piece_type(y),
                    x: 0,
                    y,
                    alive: true,
                },
            );
            y = y + 1;
        }
        y = 0;
        while y < 8
            invariant
                y <= 8,
                ps@.len() == 8 + y,
                forall|i: int| 0 <= i < 8 + y ==> #[trigger] ps@[i] == starting_piece(i),
            decreases 8 - y,
        {
            ps.push(
                Piece { color: PieceColor::White, piece_type: PieceType::Pawn, x: 1, y, alive: true },
            );
            y = y + 1;
        }
        y = 0;
        while y < 8
            invariant
                y <= 8,
                ps@.len() == 16 + y,
                forall|i: int| 0 <= i < 16 + y ==> #[trigger] ps@[i] == starting_piece(i),
            decreases 8 - y,
        {
            ps.push(
                Piece {
                    color: PieceColor::Black,
                    piece_type: back_rank_piece_type(y),
                    x: 7,
                    y,
                    alive: true,
                },
            );
            y = y + 1;
        }
        y = 0;
        while y < 8
            invariant
                y <= 8,
                ps@.len() == 24 + y,
                forall|i: int| 0 <= i < 24 + y ==> #[trigger] ps@[i] == starting_piece(i),
            decreases 8 - y,
        {
            ps.push(
                Piece { color: PieceColor::Black, piece_type: PieceType::Pawn, x: 6, y, alive: true },
            );
            y = y + 1;
        }
        proof {
            assert(ps@ =~= starting_pieces());
            lemma_starting_pieces_wf();
        }
        self.pieces = ps;
        self.turn = PlayerTurn(PieceColor::White);
        self.selection = SelectionState::Idle;
    }

    /// Processes one "square (x, y) clicked" event, the sole external
    /// stimulus of the state machine, and fires exactly once per event.
    ///
    /// With no piece held, the click selects a piece of the side on move
    /// or merely marks the square, and never touches board or turn. With
    /// a piece held, the click is its destination: a legal one commits
    /// atomically (position update, capture, turn change, outcome check),
    /// an illegal one — a square off the board included — changes nothing
    /// but the selection, which in either case is dropped. A finished
    /// match ignores every click.
    pub fn handle_square_clicked(&mut self, x: u8, y: u8)
        requires
            old(self).wf(),
        ensures
            final(self).wf(),
            final(self).pieces@ == post_pieces(*old(self), x as int, y as int),
            final(self).turn.0 == post_turn(*old(self), x as int, y as int),
            final(self).selection == post_selection(*old(self), x as int, y as int),
            final(self).hovered == old(self).hovered,
    {
        match self.selection {
            SelectionState::GameOver { winner: _ } => {},
            SelectionState::PieceSelected { x: _, y: _, piece: m } => {
                let p = self.pieces[m];
                if p.is_move_valid((x, y), &self.pieces) {
                    let captured = find_live_piece(&self.pieces, x, y, p.color.opposite());
                    let mut king_down = false;
                    match captured {
                        Some(ci) => {
                            let mut cp = self.pieces[ci];
                            king_down = cp.piece_type == PieceType::King;
                            cp.alive = false;
                            proof {
                                assert(p.color.spec_opposite() != p.color);
                            }
                            self.pieces[ci] = cp;
                        },
                        None => {},
                    }
                    let mut mp = self.pieces[m];
                    mp.x = x;
                    mp.y = y;
                    self.pieces[m] = mp;
                    proof {
                        let ops = old(self).pieces@;
                        let nps = self.pieces@;
                        let mi = m as int;
                        let nx = x as int;
                        let ny = y as int;
                        assert(p == ops[mi]);
                        assert(p.color.spec_opposite() != p.color);
                        // the new records are exactly `after_move`
                        assert forall|j: int| 0 <= j < nps.len() implies nps[j] == after_move(
                            ops,
                            mi,
                            nx,
                            ny,
                        )[j] by {
                            if j != mi {
                                match captured {
                                    Some(ci) => {
                                        if j != ci && piece_covers(ops[j], nx, ny) && ops[j].color
                                            != p.color {
                                            lemma_live_index_unique(ops, j, ci as int);
                                        }
                                    },
                                    None => {
                                        if piece_covers(ops[j], nx, ny) && ops[j].color != p.color {
                                            assert(ops[j].color == p.color.spec_opposite());
                                            assert(square_occupied_by(
                                                ops,
                                                nx,
                                                ny,
                                                p.color.spec_opposite(),
                                            ));
                                        }
                                    },
                                }
                            }
                        }
                        assert(nps =~= after_move(ops, mi, nx, ny));
                        // the captured-king flag is exactly `king_taken`
                        match captured {
                            Some(ci) => {
                                if king_down {
                                    assert(king_taken(ops, mi, nx, ny)) by {
                                        assert(piece_covers(ops[ci as int], nx, ny));
                                    }
                                } else {
                                    assert forall|j: int|
                                        0 <= j < ops.len() && piece_covers(
                                            #[trigger] ops[j],
                                            nx,
                                            ny,
                                        ) && ops[j].color != p.color implies ops[j].piece_type
                                        != PieceType::King by {
                                        lemma_live_index_unique(ops, j, ci as int);
                                    }
                                }
                            },
                            None => {
                                assert forall|j: int|
                                    0 <= j < ops.len() && piece_covers(#[trigger] ops[j], nx, ny)
                                    implies ops[j].color == p.color by {
                                    if ops[j].color != p.color {
                                        assert(ops[j].color == p.color.spec_opposite());
                                        assert(square_occupied_by(
                                            ops,
                                            nx,
                                            ny,
                                            p.color.spec_opposite(),
                                        ));
                                    }
                                }
                                assert(!king_taken(ops, mi, nx, ny));
                            },
                        }
                        // the new board is well-formed
                        assert forall|j: int, k: int|
                            0 <= j < nps.len() && 0 <= k < nps.len() && j != k && (#[trigger] nps[j]).alive
                                && (#[trigger] nps[k]).alive implies !(nps[j].x == nps[k].x
                            && nps[j].y == nps[k].y) by {
                            if nps[j].x == nps[k].x && nps[j].y == nps[k].y {
                                if j == mi || k == mi {
                                    let o = if j == mi {
                                        k
                                    } else {
                                        j
                                    };
                                    // the other piece would be a live piece
                                    // on the destination that survived the
                                    // capture: impossible either way
                                    assert(piece_covers(ops[o], nx, ny));
                                    if ops[o].color == p.color {
                                        assert(square_occupied_by(ops, nx, ny, p.color));
                                    } else {
                                        assert(ops[o].color == p.color.spec_opposite());
                                        assert(square_occupied_by(
                                            ops,
                                            nx,
                                            ny,
                                            p.color.spec_opposite(),
                                        ));
                                        let ci = choose|c: int|
                                            0 <= c < ops.len() && piece_covers(
                                                #[trigger] ops[c],
                                                nx,
                                                ny,
                                            ) && ops[c].color == p.color.spec_opposite();
                                        lemma_live_index_unique(ops, o, ci);
                                        assert(!nps[o].alive);
                                    }
                                } else {
                                    lemma_live_index_unique(ops, j, k);
                                }
                            }
                        }
                    }
                    self.turn.change();
                    self.selection = if king_down {
                        SelectionState::GameOver { winner: p.color }
                    } else {
                        SelectionState::Idle
                    };
                } else {
                    self.selection = SelectionState::Idle;
                }
            },
            _ => {
                if x < 8 && y < 8 {
                    match find_live_piece(&self.pieces, x, y, self.turn.0) {
                        Some(k) => {
                            proof {
                                let ops = self.pieces@;
                                let t = self.turn.0;
                                assert(piece_covers(ops[k as int], x as int, y as int));
                                assert(square_occupied_by(ops, x as int, y as int, t));
                                let c = choose|j: int|
                                    0 <= j < ops.len() && piece_covers(
                                        #[trigger] ops[j],
                                        x as int,
                                        y as int,
                                    ) && ops[j].color == t;
                                lemma_live_index_unique(ops, k as int, c);
                            }
                            self.selection = SelectionState::PieceSelected { x, y, piece: k };
                        },
                        None => {
                            self.selection = SelectionState::SquareSelected { x, y };
                        },
                    }
                } else {
                    self.selection = SelectionState::Idle;
                }
            },
        }
    }

    /// The side on move.
    pub fn current_turn(&self) -> (r: PieceColor)
        ensures
            r == self.turn.0,
    {
        self.turn.0
    }

    /// Whether (x, y) is the currently marked square, either alone or as
    /// the square of the held piece.
    pub fn is_square_selected(&self, x: u8, y: u8) -> (r: bool)
        ensures
            r == (match self.selection {
                SelectionState::SquareSelected { x: sx, y: sy } => sx == x && sy == y,
                SelectionState::PieceSelected { x: sx, y: sy, .. } => sx == x && sy == y,
                _ => false,
            }),
    {
        match self.selection {
            SelectionState::SquareSelected { x: sx, y: sy } => sx == x && sy == y,
            SelectionState::PieceSelected { x: sx, y: sy, piece: _ } => sx == x && sy == y,
            _ => false,
        }
    }

    /// Whether (x, y) is the square the pointer last passed over.
    pub fn is_square_hovered(&self, x: u8, y: u8) -> (r: bool)
        ensures
            r == (self.hovered matches Some(s) && s.x == x && s.y == y),
    {
        match self.hovered {
            Some(s) => s.x == x && s.y == y,
            None => false,
        }
    }

    /// Records the square the pointer passed over. Hover is tracked
    /// alongside the selection but never gates legality, and this call
    /// touches nothing else.
    pub fn set_hovered(&mut self, x: u8, y: u8)
        ensures
            final(self).hovered == Some(Square { x, y }),
            final(self).pieces == old(self).pieces,
            final(self).turn == old(self).turn,
            final(self).selection == old(self).selection,
    {
        self.hovered = Some(Square { x, y });
    }

    /// All live pieces, in record order.
    pub fn live_pieces(&self) -> (r: Vec<Piece>)
        ensures
            r@ == self.pieces@.filter(|p: Piece| p.alive),
    {
        let mut out: Vec<Piece> = Vec::new();
        let mut i: usize = 0;
        proof {
            reveal_with_fuel(Seq::filter, 2);
            assert(self.pieces@.take(0) =~= Seq::<Piece>::empty());
        }
        while i < self.pieces.len()
            invariant
                i <= self.pieces@.len(),
                out@ == self.pieces@.take(i as int).filter(|p: Piece| p.alive),
            decreases self.pieces@.len() - i,
        {
            let p = self.pieces[i];
            proof {
                reveal_with_fuel(Seq::filter, 2);
                assert(self.pieces@.take(i + 1).drop_last() =~= self.pieces@.take(i as int));
                assert(self.pieces@.take(i + 1).last() == p);
            }
            if p.alive {
                out.push(p);
            }
            i = i + 1;
        }
        proof {
            assert(self.pieces@.take(self.pieces@.len() as int) =~= self.pieces@);
        }
        out
    }

    /// The live piece standing on (x, y), if any.
    pub fn occupant_at(&self, x: u8, y: u8) -> (r: Option<Piece>)
        ensures
            match r {
                Some(p) => p.alive && p.x == x && p.y == y && self.pieces@.contains(p),
                None => !square_occupied(self.pieces@, x as int, y as int),
            },
            square_occupied(self.pieces@, x as int, y as int) ==> r is Some,
    {
        let mut i: usize = 0;
        while i < self.pieces.len()
            invariant
                i <= self.pieces@.len(),
                forall|k: int|
                    0 <= k < i ==> !piece_covers(#[trigger] self.pieces@[k], x as int, y as int),
            decreases self.pieces@.len() - i,
        {
            let p = self.pieces[i];
            if p.alive && p.x == x && p.y == y {
                assert(self.pieces@.contains(p)) by {
                    assert(self.pieces@[i as int] == p);
                }
                return Some(p);
            }
            i = i + 1;
        }
        None
    }

    /// The outcome: the winning side once a king has been captured,
    /// nothing while the match is still running.
    pub fn is_game_over(&self) -> (r: Option<PieceColor>)
        ensures
            r == (match self.selection {
                SelectionState::GameOver { winner } => Some(winner),
                _ => None::<PieceColor>,
            }),
    {
        match self.selection {
            SelectionState::GameOver { winner } => Some(winner),
            _ => None,
        }
    }
}

} // verus!
