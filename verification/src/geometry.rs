//! The geometry of the chess board, as specification functions.
//!
//! A square is an integer in `0..64`: rank times eight plus file, with file A
//! and rank 1 both numbered zero. Everything here is ghost code; the
//! executable parts of the crate state their contracts in these terms.

use vstd::prelude::*;

verus! {

/// True for the 64 squares of the board.
pub open spec fn on_board(sq: int) -> bool {
    0 <= sq < 64
}

/// The set of all 64 squares.
pub open spec fn all_squares() -> Set<int> {
    Set::new(|sq: int| on_board(sq))
}

/// The rank of a square, 0 for rank 1 up to 7 for rank 8.
pub open spec fn rank_of(sq: int) -> int {
    sq / 8
}

/// The file of a square, 0 for file A up to 7 for file H.
pub open spec fn file_of(sq: int) -> int {
    sq % 8
}

/// The distance between two coordinates.
pub open spec fn distance(a: int, b: int) -> int {
    if a <= b {
        b - a
    } else {
        a - b
    }
}

/// `to` is one knight's jump away from `from`: two steps along one axis and
/// one along the other, both squares on the board.
pub open spec fn knight_step(from: int, to: int) -> bool {
    let dr = distance(rank_of(from), rank_of(to));
    let df = distance(file_of(from), file_of(to));
    on_board(from) && on_board(to) && ((dr == 1 && df == 2) || (dr == 2 && df == 1))
}

/// `to` is one of the up to eight neighbours of `from`.
pub open spec fn king_step(from: int, to: int) -> bool {
    &&& on_board(from)
    &&& on_board(to)
    &&& from != to
    &&& distance(rank_of(from), rank_of(to)) <= 1
    &&& distance(file_of(from), file_of(to)) <= 1
}

/// `to` lies on the file of `from`, on a higher rank.
pub open spec fn north_of(from: int, to: int) -> bool {
    on_board(from) && on_board(to) && file_of(to) == file_of(from) && rank_of(to) > rank_of(from)
}

/// `to` lies on the file of `from`, on a lower rank.
pub open spec fn south_of(from: int, to: int) -> bool {
    on_board(from) && on_board(to) && file_of(to) == file_of(from) && rank_of(to) < rank_of(from)
}

/// `to` lies on the rank of `from`, on a higher file.
pub open spec fn east_of(from: int, to: int) -> bool {
    on_board(from) && on_board(to) && rank_of(to) == rank_of(from) && file_of(to) > file_of(from)
}

/// `to` lies on the rank of `from`, on a lower file.
pub open spec fn west_of(from: int, to: int) -> bool {
    on_board(from) && on_board(to) && rank_of(to) == rank_of(from) && file_of(to) < file_of(from)
}

/// `to` lies on the diagonal that leaves `from` towards higher ranks (`up`)
/// or lower ranks, and towards higher files (`right`) or lower files.
pub open spec fn diagonal_of(from: int, to: int, up: bool, right: bool) -> bool {
    let dr = rank_of(to) - rank_of(from);
    let df = file_of(to) - file_of(from);
    &&& on_board(from)
    &&& on_board(to)
    &&& if up {
        dr > 0
    } else {
        dr < 0
    }
    &&& if up == right {
        df == dr
    } else {
        df == -dr
    }
}

/// Two different squares on one rank or one file.
pub open spec fn rook_line(a: int, b: int) -> bool {
    on_board(a) && on_board(b) && a != b && (rank_of(a) == rank_of(b) || file_of(a) == file_of(b))
}

/// Two different squares on one diagonal, of either slope.
pub open spec fn bishop_line(a: int, b: int) -> bool {
    &&& on_board(a)
    &&& on_board(b)
    &&& a != b
    &&& (rank_of(a) - file_of(a) == rank_of(b) - file_of(b) || rank_of(a) + file_of(a) == rank_of(b)
        + file_of(b))
}

/// `s` lies strictly inside the straight segment from `a` to `b`, where the
/// segment runs along a file, a rank or a diagonal. False of every `s` when
/// `a` and `b` share no such line.
pub open spec fn strictly_between(a: int, b: int, s: int) -> bool {
    let (ra, fa) = (rank_of(a), file_of(a));
    let (rb, fb) = (rank_of(b), file_of(b));
    let (rs, fs) = (rank_of(s), file_of(s));
    ||| (fa == fb && fs == fa && (ra < rs < rb || rb < rs < ra))
    ||| (ra == rb && rs == ra && (fa < fs < fb || fb < fs < fa))
    ||| (ra - fa == rb - fb && rs - fs == ra - fa && (ra < rs < rb || rb < rs < ra))
    ||| (ra + fa == rb + fb && rs + fs == ra + fa && (ra < rs < rb || rb < rs < ra))
}

/// No square strictly between `a` and `b` belongs to `occupied`.
pub open spec fn path_clear(occupied: Set<int>, a: int, b: int) -> bool {
    forall|s: int| on_board(s) && #[trigger] strictly_between(a, b, s) ==> !occupied.contains(s)
}

/// The squares a knight on `from` attacks.
pub open spec fn knight_targets(from: int) -> Set<int> {
    Set::new(|to: int| knight_step(from, to))
}

/// The squares a king on `from` attacks.
pub open spec fn king_targets(from: int) -> Set<int> {
    Set::new(|to: int| king_step(from, to))
}

/// The squares a rook on `from` reaches along ranks and files: every square
/// in line with it that no occupied square separates from it. The nearest
/// occupied square in each direction is itself a target.
pub open spec fn rook_targets(occupied: Set<int>, from: int) -> Set<int> {
    Set::new(|to: int| rook_line(from, to) && path_clear(occupied, from, to))
}

/// The squares a bishop on `from` reaches along the diagonals, in the same
/// sense as `rook_targets`.
pub open spec fn bishop_targets(occupied: Set<int>, from: int) -> Set<int> {
    Set::new(|to: int| bishop_line(from, to) && path_clear(occupied, from, to))
}

/// The squares a queen on `from` reaches: those of a rook and of a bishop.
pub open spec fn queen_targets(occupied: Set<int>, from: int) -> Set<int> {
    rook_targets(occupied, from).union(bishop_targets(occupied, from))
}

/// Every square of `squares`, moved by `delta`.
pub open spec fn shifted(squares: Set<int>, delta: int) -> Set<int> {
    Set::new(|to: int| squares.contains(to - delta))
}

/// Of `targets`, the squares open to a move: the empty ones and those that
/// hold an enemy piece.
pub open spec fn open_to(targets: Set<int>, occupied: Set<int>, enemy: Set<int>) -> Set<int> {
    Set::new(|to: int| targets.contains(to) && (occupied.contains(to) ==> enemy.contains(to)))
}

/// The squares of one diagonal direction that a slider on `from` reaches.
pub open spec fn diagonal_targets(occupied: Set<int>, from: int, up: bool, right: bool) -> Set<
    int,
> {
    Set::new(|to: int| diagonal_of(from, to, up, right) && path_clear(occupied, from, to))
}

/// The squares of `ray` up to and including its nearest occupied square.
/// The ray is walked from its origin: towards higher indices if `ascending`,
/// towards lower ones if not.
pub open spec fn up_to_blocker(ray: Set<int>, occupied: Set<int>, ascending: bool) -> Set<int> {
    Set::new(
        |to: int|
            ray.contains(to) && forall|blocker: int|
                ray.contains(blocker) && occupied.contains(blocker) ==> if ascending {
                    to <= blocker
                } else {
                    blocker <= to
                },
    )
}

} // verus!
