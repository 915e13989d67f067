//! Lemmas on the lines of rooks and bishops: how a walk along a ray or a
//! diagonal, square by square from the origin, relates to the targets that
//! `geometry` defines by clear paths.

use vstd::prelude::*;
use crate::geometry::{
    bishop_line,
    bishop_targets,
    diagonal_of,
    diagonal_targets,
    east_of,
    file_of,
    north_of,
    on_board,
    path_clear,
    rank_of,
    rook_line,
    rook_targets,
    south_of,
    strictly_between,
    up_to_blocker,
    west_of,
};

verus! {

/// A square is its rank and its file.
pub proof fn lemma_square_coordinates(sq: int)
    ensures
        sq == 8 * rank_of(sq) + file_of(sq),
        0 <= file_of(sq) < 8,
        on_board(sq) ==> 0 <= rank_of(sq) < 8,
{
}

/// The squares north of `from`.
pub open spec fn north_ray(from: int) -> Set<int> {
    Set::new(|to: int| north_of(from, to))
}

/// The squares south of `from`.
pub open spec fn south_ray(from: int) -> Set<int> {
    Set::new(|to: int| south_of(from, to))
}

/// The squares east of `from`.
pub open spec fn east_ray(from: int) -> Set<int> {
    Set::new(|to: int| east_of(from, to))
}

/// The squares west of `from`.
pub open spec fn west_ray(from: int) -> Set<int> {
    Set::new(|to: int| west_of(from, to))
}

/// On the north ray, "up to the nearest occupied square" and "with a clear
/// path from the origin" are the same squares.
pub proof fn lemma_north_reach(occupied: Set<int>, from: int)
    requires
        on_board(from),
    ensures
        up_to_blocker(north_ray(from), occupied, true) == Set::new(
            |to: int| north_of(from, to) && path_clear(occupied, from, to),
        ),
{
    let ray = north_ray(from);
    assert forall|to: int|
        up_to_blocker(ray, occupied, true).contains(to) == (north_of(from, to) && path_clear(
            occupied,
            from,
            to,
        )) by {
        lemma_square_coordinates(to);
        if north_of(from, to) {
            assert(ray.contains(to));
            if up_to_blocker(ray, occupied, true).contains(to) {
                assert forall|s: int| on_board(s) && #[trigger] strictly_between(
                    from,
                    to,
                    s,
                ) implies !occupied.contains(s) by {
                    lemma_square_coordinates(s);
                    assert(ray.contains(s));
                }
            }
            if path_clear(occupied, from, to) {
                assert forall|blocker: int|
                    ray.contains(blocker) && occupied.contains(blocker) implies to <= blocker by {
                    lemma_square_coordinates(blocker);
                    if blocker < to {
                        assert(strictly_between(from, to, blocker));
                    }
                }
            }
        }
    }
    assert(up_to_blocker(ray, occupied, true) =~= Set::new(
        |to: int| north_of(from, to) && path_clear(occupied, from, to),
    ));
}

/// The same on the south ray, which is walked towards lower indices.
pub proof fn lemma_south_reach(occupied: Set<int>, from: int)
    requires
        on_board(from),
    ensures
        up_to_blocker(south_ray(from), occupied, false) == Set::new(
            |to: int| south_of(from, to) && path_clear(occupied, from, to),
        ),
{
    let ray = south_ray(from);
    assert forall|to: int|
        up_to_blocker(ray, occupied, false).contains(to) == (south_of(from, to) && path_clear(
            occupied,
            from,
            to,
        )) by {
        lemma_square_coordinates(to);
        if south_of(from, to) {
            assert(ray.contains(to));
            if up_to_blocker(ray, occupied, false).contains(to) {
                assert forall|s: int| on_board(s) && #[trigger] strictly_between(
                    from,
                    to,
                    s,
                ) implies !occupied.contains(s) by {
                    lemma_square_coordinates(s);
                    assert(ray.contains(s));
                }
            }
            if path_clear(occupied, from, to) {
                assert forall|blocker: int|
                    ray.contains(blocker) && occupied.contains(blocker) implies blocker <= to by {
                    lemma_square_coordinates(blocker);
                    if to < blocker {
                        assert(strictly_between(from, to, blocker));
                    }
                }
            }
        }
    }
    assert(up_to_blocker(ray, occupied, false) =~= Set::new(
        |to: int| south_of(from, to) && path_clear(occupied, from, to),
    ));
}

/// The same on the east ray.
pub proof fn lemma_east_reach(occupied: Set<int>, from: int)
    requires
        on_board(from),
    ensures
        up_to_blocker(east_ray(from), occupied, true) == Set::new(
            |to: int| east_of(from, to) && path_clear(occupied, from, to),
        ),
{
    let ray = east_ray(from);
    assert forall|to: int|
        up_to_blocker(ray, occupied, true).contains(to) == (east_of(from, to) && path_clear(
            occupied,
            from,
            to,
        )) by {
        lemma_square_coordinates(to);
        if east_of(from, to) {
            assert(ray.contains(to));
            if up_to_blocker(ray, occupied, true).contains(to) {
                assert forall|s: int| on_board(s) && #[trigger] strictly_between(
                    from,
                    to,
                    s,
                ) implies !occupied.contains(s) by {
                    lemma_square_coordinates(s);
                    assert(ray.contains(s));
                }
            }
            if path_clear(occupied, from, to) {
                assert forall|blocker: int|
                    ray.contains(blocker) && occupied.contains(blocker) implies to <= blocker by {
                    lemma_square_coordinates(blocker);
                    if blocker < to {
                        assert(strictly_between(from, to, blocker));
                    }
                }
            }
        }
    }
    assert(up_to_blocker(ray, occupied, true) =~= Set::new(
        |to: int| east_of(from, to) && path_clear(occupied, from, to),
    ));
}

/// The same on the west ray, which is walked towards lower indices.
pub proof fn lemma_west_reach(occupied: Set<int>, from: int)
    requires
        on_board(from),
    ensures
        up_to_blocker(west_ray(from), occupied, false) == Set::new(
            |to: int| west_of(from, to) && path_clear(occupied, from, to),
        ),
{
    let ray = west_ray(from);
    assert forall|to: int|
        up_to_blocker(ray, occupied, false).contains(to) == (west_of(from, to) && path_clear(
            occupied,
            from,
            to,
        )) by {
        lemma_square_coordinates(to);
        if west_of(from, to) {
            assert(ray.contains(to));
            if up_to_blocker(ray, occupied, false).contains(to) {
                assert forall|s: int| on_board(s) && #[trigger] strictly_between(
                    from,
                    to,
                    s,
                ) implies !occupied.contains(s) by {
                    lemma_square_coordinates(s);
                    assert(ray.contains(s));
                }
            }
            if path_clear(occupied, from, to) {
                assert forall|blocker: int|
                    ray.contains(blocker) && occupied.contains(blocker) implies blocker <= to by {
                    lemma_square_coordinates(blocker);
                    if to < blocker {
                        assert(strictly_between(from, to, blocker));
                    }
                }
            }
        }
    }
    assert(up_to_blocker(ray, occupied, false) =~= Set::new(
        |to: int| west_of(from, to) && path_clear(occupied, from, to),
    ));
}

/// A rook's targets are what the four rays reach, each walked from the
/// rook outwards up to its nearest occupied square.
pub proof fn lemma_rook_reach(occupied: Set<int>, from: int)
    requires
        on_board(from),
    ensures
        rook_targets(occupied, from) == up_to_blocker(north_ray(from), occupied, true).union(
            up_to_blocker(south_ray(from), occupied, false),
        ).union(up_to_blocker(east_ray(from), occupied, true)).union(
            up_to_blocker(west_ray(from), occupied, false),
        ),
{
    lemma_north_reach(occupied, from);
    lemma_south_reach(occupied, from);
    lemma_east_reach(occupied, from);
    lemma_west_reach(occupied, from);
    assert forall|to: int|
        rook_line(from, to) == (north_of(from, to) || south_of(from, to) || east_of(from, to)
            || west_of(from, to)) by {
        lemma_square_coordinates(from);
        lemma_square_coordinates(to);
    }
    assert(rook_targets(occupied, from) =~= up_to_blocker(north_ray(from), occupied, true).union(
        up_to_blocker(south_ray(from), occupied, false),
    ).union(up_to_blocker(east_ray(from), occupied, true)).union(
        up_to_blocker(west_ray(from), occupied, false),
    ));
}

/// A bishop's targets are those of its four diagonal directions.
pub proof fn lemma_bishop_reach(occupied: Set<int>, from: int)
    requires
        on_board(from),
    ensures
        bishop_targets(occupied, from) == diagonal_targets(occupied, from, true, true).union(
            diagonal_targets(occupied, from, false, true),
        ).union(diagonal_targets(occupied, from, false, false)).union(
            diagonal_targets(occupied, from, true, false),
        ),
{
    assert forall|to: int|
        bishop_line(from, to) == (diagonal_of(from, to, true, true) || diagonal_of(
            from,
            to,
            false,
            true,
        ) || diagonal_of(from, to, false, false) || diagonal_of(from, to, true, false)) by {
        lemma_square_coordinates(from);
        lemma_square_coordinates(to);
    }
    assert(bishop_targets(occupied, from) =~= diagonal_targets(occupied, from, true, true).union(
        diagonal_targets(occupied, from, false, true),
    ).union(diagonal_targets(occupied, from, false, false)).union(
        diagonal_targets(occupied, from, true, false),
    ));
}

/// On a diagonal that leaves `from`, `s` is no further from `from` than
/// `current`: its rank is no further.
pub open spec fn no_further(s: int, current: int, up: bool) -> bool {
    if up {
        rank_of(s) <= rank_of(current)
    } else {
        rank_of(s) >= rank_of(current)
    }
}

/// The squares of a diagonal from `from` up to `current`, both ends apart
/// from `from` itself included.
pub open spec fn diagonal_up_to(from: int, current: int, up: bool, right: bool) -> Set<int> {
    Set::new(|s: int| diagonal_of(from, s, up, right) && no_further(s, current, up))
}

/// The square one step along a diagonal from `current`, by rank and file.
pub open spec fn diagonal_next(current: int, up: bool, right: bool) -> (int, int) {
    (
        rank_of(current) + if up {
            1int
        } else {
            -1int
        },
        file_of(current) + if right {
            1int
        } else {
            -1int
        },
    )
}

/// A walk along a diagonal has come to `current`. The step to the next
/// square, if that is on the board, covers that square and nothing else.
pub proof fn lemma_diagonal_grows(from: int, current: int, next: int, up: bool, right: bool)
    requires
        on_board(from),
        on_board(current),
        current == from || diagonal_of(from, current, up, right),
        0 <= diagonal_next(current, up, right).0 < 8,
        0 <= diagonal_next(current, up, right).1 < 8,
        next == 8 * diagonal_next(current, up, right).0 + diagonal_next(current, up, right).1,
    ensures
        on_board(next),
        diagonal_of(from, next, up, right),
        diagonal_up_to(from, next, up, right) == diagonal_up_to(from, current, up, right).insert(
            next,
        ),
        forall|to: int|
            diagonal_of(from, to, up, right) && !no_further(to, next, up) ==> strictly_between(
                from,
                to,
                next,
            ),
        forall|s: int| #[trigger]
            strictly_between(from, next, s) && on_board(s) ==> diagonal_up_to(
                from,
                current,
                up,
                right,
            ).contains(s),
{
    lemma_square_coordinates(from);
    lemma_square_coordinates(current);
    lemma_square_coordinates(next);
    assert(rank_of(next) == diagonal_next(current, up, right).0);
    assert(file_of(next) == diagonal_next(current, up, right).1);
    assert forall|s: int|
        diagonal_up_to(from, next, up, right).contains(s) == diagonal_up_to(
            from,
            current,
            up,
            right,
        ).insert(next).contains(s) by {
        lemma_square_coordinates(s);
    }
    assert(diagonal_up_to(from, next, up, right) =~= diagonal_up_to(
        from,
        current,
        up,
        right,
    ).insert(next));
    assert forall|to: int|
        diagonal_of(from, to, up, right) && !no_further(to, next, up) implies strictly_between(
            from,
            to,
            next,
        ) by {
        lemma_square_coordinates(to);
    }
    assert forall|s: int| #[trigger] strictly_between(from, next, s) && on_board(
        s,
    ) implies diagonal_up_to(from, current, up, right).contains(s) by {
        lemma_square_coordinates(s);
    }
}

/// Where the next step along a diagonal would leave the board, the walk has
/// covered the whole diagonal.
pub proof fn lemma_diagonal_ends(from: int, current: int, up: bool, right: bool)
    requires
        on_board(from),
        on_board(current),
        current == from || diagonal_of(from, current, up, right),
        !(0 <= diagonal_next(current, up, right).0 < 8 && 0 <= diagonal_next(
            current,
            up,
            right,
        ).1 < 8),
    ensures
        forall|to: int| diagonal_of(from, to, up, right) ==> no_further(to, current, up),
{
    lemma_square_coordinates(from);
    lemma_square_coordinates(current);
    assert forall|to: int| diagonal_of(from, to, up, right) implies no_further(
        to,
        current,
        up,
    ) by {
        lemma_square_coordinates(to);
    }
}

/// The squares strictly between `from` and a square of its diagonal lie on
/// that diagonal, nearer to `from`.
pub proof fn lemma_diagonal_between(from: int, to: int, s: int, up: bool, right: bool)
    requires
        diagonal_of(from, to, up, right),
        on_board(s),
        strictly_between(from, to, s),
    ensures
        diagonal_of(from, s, up, right),
        no_further(s, to, up),
        rank_of(s) != rank_of(to),
{
    lemma_square_coordinates(from);
    lemma_square_coordinates(to);
    lemma_square_coordinates(s);
}

} // verus!
