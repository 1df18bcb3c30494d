use vstd::prelude::*;

use crate::model::{mv_ok, Mv, Status};

verus! {

// The rules engine (legal move enumeration, move application, terminal
// detection) and the position's text encoding live in the `chess` crate; the
// clock lives in `std::time`.  Everything the search and the evaluator learn
// of them passes through the declarations and wrappers of this module, whose
// contracts name what the outside calls return.

#[verifier::external_type_specification]
#[verifier::external_body]
pub struct ExBoard(chess::Board);

#[verifier::external_type_specification]
#[verifier::external_body]
pub struct ExInstant(std::time::Instant);

/// The position's canonical text encoding (its FEN bytes), a function of the
/// board value alone.
pub uninterp spec fn spec_fen(b: chess::Board) -> Seq<u8>;

/// What the rules engine reports of the position: ongoing, stalemate, or the
/// side to move checkmated.  A function of the board value alone.
pub uninterp spec fn spec_status(b: chess::Board) -> Status;

/// The legal moves of the position, in the rules engine's enumeration order,
/// a function of the board value alone.
pub uninterp spec fn spec_legal(b: chess::Board) -> Seq<Mv>;

/// The position reached by playing a legal move, a function of board and
/// move alone.
pub uninterp spec fn spec_apply(b: chess::Board, m: Mv) -> chess::Board;

/// Whether the rules engine lets the side to move claim a draw in this
/// position when it carries no game history.
pub uninterp spec fn spec_claimable(b: chess::Board) -> bool;

/// What the rules engine's position parser makes of a text encoding: a board
/// for a well-formed one, nothing otherwise.
pub uninterp spec fn spec_parse_board(s: Seq<char>) -> Option<chess::Board>;

/// Relies on chess::Board::from_str, which parses a position encoding and
/// fails on malformed input.
#[verifier::external_body]
pub(crate) fn board_from_fen(s: &str) -> (r: Option<chess::Board>)
    ensures
        r == spec_parse_board(s@),
{
    <chess::Board as std::str::FromStr>::from_str(s).ok()
}

/// Relies on chess::Board's Display impl, which prints the position's FEN
/// encoding.
#[verifier::external_body]
pub(crate) fn board_fen(b: &chess::Board) -> (r: Vec<u8>)
    ensures
        r@ == spec_fen(*b),
{
    b.to_string().into_bytes()
}

/// Relies on chess::Board::status, which reports ongoing, stalemate, or
/// checkmate of the side to move, and decides between them by whether any
/// legal move exists.
#[verifier::external_body]
pub(crate) fn board_status(b: &chess::Board) -> (r: Status)
    ensures
        r == spec_status(*b),
        (r == Status::Ongoing) == (spec_legal(*b).len() > 0),
{
    match b.status() {
        chess::BoardStatus::Ongoing => Status::Ongoing,
        chess::BoardStatus::Stalemate => Status::Stalemate,
        chess::BoardStatus::Checkmate => Status::Checkmate,
    }
}

/// Relies on chess::MoveGen::new_legal, which enumerates exactly the legal
/// moves, each with source and destination square below 64 and a promotion
/// that is only ever a knight, bishop, rook or queen.
#[verifier::external_body]
pub(crate) fn legal_moves(b: &chess::Board) -> (r: Vec<Mv>)
    ensures
        r@ == spec_legal(*b),
        forall|i: int| 0 <= i < r@.len() ==> mv_ok(#[trigger] r@[i]),
{
    chess::MoveGen::new_legal(b).map(|m| Mv {
        from: m.get_source().to_index() as u8,
        to: m.get_dest().to_index() as u8,
        promo: match m.get_promotion() {
            None => 0,
            Some(chess::Piece::Pawn) => 1, Some(chess::Piece::Knight) => 2,
            Some(chess::Piece::Bishop) => 3, Some(chess::Piece::Rook) => 4,
            Some(chess::Piece::Queen) => 5, Some(chess::Piece::King) => 6,
        },
    }).collect()
}

/// Relies on chess::Board::make_move_new, which applies a legal move and
/// returns the resulting position (it may panic on an illegal one, so the
/// move must come from the position's legal-move list).  It always hands
/// the turn to the opponent, and the encoding records the side to move, so
/// the resulting position's encoding differs from the input's.
#[verifier::external_body]
pub(crate) fn apply_move(b: &chess::Board, m: &Mv) -> (r: chess::Board)
    requires
        spec_legal(*b).contains(*m),
    ensures
        r == spec_apply(*b, *m),
        spec_fen(r) != spec_fen(*b),
{
    let from = chess::Square::make_square(
        chess::Rank::from_index((m.from >> 3) as usize),
        chess::File::from_index((m.from & 7) as usize),
    );
    let to = chess::Square::make_square(
        chess::Rank::from_index((m.to >> 3) as usize),
        chess::File::from_index((m.to & 7) as usize),
    );
    let promo = match m.promo {
        2 => Some(chess::Piece::Knight), 3 => Some(chess::Piece::Bishop),
        4 => Some(chess::Piece::Rook), 5 => Some(chess::Piece::Queen),
        _ => None,
    };
    b.make_move_new(chess::ChessMove::new(from, to, promo))
}

/// Relies on chess::Game::new_with_board and chess::Game::can_declare_draw:
/// whether a game holding just this position lets the mover claim a draw.
#[verifier::external_body]
pub(crate) fn claimable_draw(b: &chess::Board) -> (r: bool)
    ensures
        r == spec_claimable(*b),
{
    chess::Game::new_with_board(*b).can_declare_draw()
}

/// Relies on std::time::Instant::now.  Nothing is promised of the clock.
#[verifier::external_body]
pub(crate) fn instant_now() -> (r: std::time::Instant) {
    std::time::Instant::now()
}

/// Relies on std::time::Instant::elapsed.  Nothing is promised of the clock.
#[verifier::external_body]
pub(crate) fn instant_elapsed(t: &std::time::Instant) -> (r: std::time::Duration) {
    t.elapsed()
}

/// Relies on std::time::Duration::as_millis.  Nothing is promised of the
/// measured time.
#[verifier::external_body]
pub(crate) fn duration_millis(d: &std::time::Duration) -> (r: u128) {
    d.as_millis()
}

/// Relies on String::from_utf8: ASCII bytes form valid UTF-8, and the
/// resulting string holds exactly those bytes as characters.
#[verifier::external_body]
pub(crate) fn ascii_string(v: Vec<u8>) -> (r: String)
    requires
        forall|i: int| 0 <= i < v@.len() ==> v@[i] < 128,
    ensures
        r@ == v@.map_values(|b: u8| b as char),
{
    String::from_utf8(v).unwrap_or_default()
}

} // verus!
