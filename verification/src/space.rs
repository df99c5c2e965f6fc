//! Room behind a cell: a flood fill over open cells that stops as soon as it
//! has found as many cells as the snake is long.

use vstd::prelude::*;
use vstd::set_lib::*;
use crate::geometry::Coord;
use crate::occupancy::{list_has_spot, on_board, open_cell, valid_move};
use crate::snapshot::{Battlesnake, Board, BoardView};

verus! {

/// Step `i` of a walk leads to an adjacent cell.
pub open spec fn one_step(walk: Seq<Coord>, i: int) -> bool {
    walk[i].adjacent(walk[i + 1])
}

/// A walk is a non-empty sequence of open cells outside `avoid` in which each
/// cell is one step away from the one before it.
pub open spec fn is_walk(board: BoardView, avoid: Set<Coord>, walk: Seq<Coord>) -> bool {
    &&& walk.len() > 0
    &&& forall|i: int|
        0 <= i < walk.len() ==> open_cell(board, #[trigger] walk[i]) && !avoid.contains(walk[i])
    &&& forall|i: int| 0 <= i < walk.len() - 1 ==> #[trigger] one_step(walk, i)
}

/// Some walk leads from `from` to `to`.
pub open spec fn reaches(board: BoardView, avoid: Set<Coord>, from: Coord, to: Coord) -> bool {
    exists|walk: Seq<Coord>|
        #[trigger] is_walk(board, avoid, walk) && walk.first() == from && walk.last() == to
}

/// The cells that a walk from `from` reaches. The set is empty where `from`
/// itself is not open or lies in `avoid`.
pub open spec fn reachable_cells(board: BoardView, avoid: Set<Coord>, from: Coord) -> Set<Coord> {
    Set::new(|cell: Coord| reaches(board, avoid, from, cell))
}

/// The open cells connected to `from`, `from` included.
pub open spec fn room_at(board: BoardView, from: Coord) -> Set<Coord> {
    reachable_cells(board, Set::empty(), from)
}

/// An open cell outside `avoid` reaches itself.
pub proof fn lemma_reaches_itself(board: BoardView, avoid: Set<Coord>, cell: Coord)
    requires
        open_cell(board, cell),
        !avoid.contains(cell),
    ensures
        reaches(board, avoid, cell, cell),
{
    let walk = seq![cell];
    assert(is_walk(board, avoid, walk));
    assert(walk.first() == cell && walk.last() == cell);
}

/// A walk goes on to any open neighbour outside `avoid`.
pub proof fn lemma_reaches_neighbour(
    board: BoardView,
    avoid: Set<Coord>,
    from: Coord,
    cell: Coord,
    next: Coord,
)
    requires
        reaches(board, avoid, from, cell),
        cell.adjacent(next),
        open_cell(board, next),
        !avoid.contains(next),
    ensures
        reaches(board, avoid, from, next),
{
    let walk = choose|walk: Seq<Coord>|
        #[trigger] is_walk(board, avoid, walk) && walk.first() == from && walk.last() == cell;
    let longer = walk.push(next);
    assert forall|i: int| 0 <= i < longer.len() - 1 implies #[trigger] one_step(longer, i) by {
        if i < walk.len() - 1 {
            assert(one_step(walk, i));
        }
    }
    assert(is_walk(board, avoid, longer));
    assert(longer.first() == from && longer.last() == next);
}

/// A set covers `from`'s reachable cells when it holds `from`, if open and
/// outside `avoid`, and with each of its cells outside `avoid` every open
/// neighbour of that cell.
pub open spec fn closed_from(
    board: BoardView,
    avoid: Set<Coord>,
    from: Coord,
    cells: Set<Coord>,
) -> bool {
    &&& open_cell(board, from) && !avoid.contains(from) ==> cells.contains(from)
    &&& forall|cell: Coord, next: Coord|
        cells.contains(cell) && !avoid.contains(cell) && #[trigger] cell.adjacent(next)
            && open_cell(board, next) && !avoid.contains(next) ==> cells.contains(next)
}

/// A closed set holds every cell of a walk that starts at `from`.
proof fn lemma_closed_holds_walk(
    board: BoardView,
    avoid: Set<Coord>,
    from: Coord,
    cells: Set<Coord>,
    walk: Seq<Coord>,
    k: int,
)
    requires
        closed_from(board, avoid, from, cells),
        is_walk(board, avoid, walk),
        walk.first() == from,
        0 <= k < walk.len(),
    ensures
        cells.contains(walk[k]),
    decreases k,
{
    if k > 0 {
        lemma_closed_holds_walk(board, avoid, from, cells, walk, k - 1);
        assert(one_step(walk, k - 1));
        assert(walk[k - 1].adjacent(walk[k]));
    }
}

/// A closed set holds every cell that `from` reaches.
pub proof fn lemma_closed_holds_reachable(
    board: BoardView,
    avoid: Set<Coord>,
    from: Coord,
    cells: Set<Coord>,
)
    requires
        closed_from(board, avoid, from, cells),
    ensures
        reachable_cells(board, avoid, from).subset_of(cells),
{
    assert forall|cell: Coord| reaches(board, avoid, from, cell) implies cells.contains(cell) by {
        let walk = choose|walk: Seq<Coord>|
            #[trigger] is_walk(board, avoid, walk) && walk.first() == from && walk.last() == cell;
        lemma_closed_holds_walk(board, avoid, from, cells, walk, walk.len() - 1);
    }
}

/// There are finitely many cells, so every set of cells is finite.
pub proof fn lemma_cells_are_finite(cells: Set<Coord>)
    ensures
        cells.finite(),
{
    let codes = Set::<i64>::full();
    <i64 as FiniteFull>::full_properties();
    let decode = |n: i64|
        Coord { x: (n / 0x1_0000_0000) as i32, y: (n % 0x1_0000_0000 - 0x8000_0000) as i32 };
    codes.lemma_map_finite(decode);
    assert forall|cell: Coord| cells.contains(cell) implies codes.map(decode).contains(cell) by {
        let n = (cell.x * 0x1_0000_0000 + (cell.y + 0x8000_0000)) as i64;
        assert(codes.contains(n));
        assert(decode(n) == cell);
    }
    lemma_len_subset(cells, codes.map(decode));
}

/// The neighbours of a cell within the range of the coordinates, in the order
/// in which the fill stacks them: below, above, left, right.
pub open spec fn steps_from(cell: Coord) -> Seq<Coord> {
    let below = if cell.y > i32::MIN {
        seq![cell.shifted(0, -1)]
    } else {
        seq![]
    };
    let above = if cell.y < i32::MAX {
        seq![cell.shifted(0, 1)]
    } else {
        seq![]
    };
    let left = if cell.x > i32::MIN {
        seq![cell.shifted(-1, 0)]
    } else {
        seq![]
    };
    let right = if cell.x < i32::MAX {
        seq![cell.shifted(1, 0)]
    } else {
        seq![]
    };
    below + above + left + right
}

/// The depth-first fill. The last cell of `pending` is taken next: where it
/// is open and not yet found, it is found and its neighbours become pending,
/// the right one last and so taken first. The fill ends when nothing is
/// pending or `cap` cells are found.
pub open spec fn flood(
    board: BoardView,
    cap: int,
    found: Seq<Coord>,
    pending: Seq<Coord>,
) -> Seq<Coord>
    decreases cap - found.len(), pending.len(),
{
    if pending.len() == 0 || found.len() >= cap {
        found
    } else {
        let cell = pending.last();
        if !found.contains(cell) && open_cell(board, cell) {
            flood(board, cap, found.push(cell), pending.drop_last() + steps_from(cell))
        } else {
            flood(board, cap, found, pending.drop_last())
        }
    }
}

/// `found` continues `given` with distinct cells, each of which a walk from
/// `from` reaches without entering a cell of `given`.
pub open spec fn grown_from(
    board: BoardView,
    given: Seq<Coord>,
    from: Coord,
    found: Seq<Coord>,
) -> bool {
    &&& given.is_prefix_of(found)
    &&& forall|i: int|
        given.len() <= i < found.len() ==> reaches(board, given.to_set(), from, #[trigger] found[i])
    &&& forall|i: int, j: int| given.len() <= i < j < found.len() ==> found[i] != found[j]
}

/// Every pending cell is the start or a neighbour of a newly found cell.
spec fn pending_from(given: Seq<Coord>, from: Coord, found: Seq<Coord>, pending: Seq<Coord>) -> bool {
    forall|k: int|
        0 <= k < pending.len() ==> (#[trigger] pending[k]) == from || exists|i: int|
            given.len() <= i < found.len() && #[trigger] found[i].adjacent(pending[k])
}

/// The start and every open neighbour of a newly found cell are found or
/// pending.
spec fn closed_but_pending(
    board: BoardView,
    given: Seq<Coord>,
    from: Coord,
    found: Seq<Coord>,
    pending: Seq<Coord>,
) -> bool {
    &&& open_cell(board, from) ==> found.contains(from) || pending.contains(from)
    &&& forall|i: int, next: Coord|
        given.len() <= i < found.len() && #[trigger] found[i].adjacent(next) && open_cell(
            board,
            next,
        ) ==> found.contains(next) || pending.contains(next)
}

/// What a list holds, every list that continues it holds too.
proof fn lemma_prefix_keeps(shorter: Seq<Coord>, longer: Seq<Coord>, cell: Coord)
    requires
        shorter.is_prefix_of(longer),
        shorter.contains(cell),
    ensures
        longer.contains(cell),
{
    let k = choose|k: int| 0 <= k < shorter.len() && shorter[k] == cell;
    assert(longer.subrange(0, shorter.len() as int)[k] == longer[k]);
}

/// A list without its last cell still holds every other cell.
proof fn lemma_drop_last_keeps(cells: Seq<Coord>, cell: Coord)
    requires
        cells.len() > 0,
        cells.contains(cell),
        cell != cells.last(),
    ensures
        cells.drop_last().contains(cell),
{
    let k = choose|k: int| 0 <= k < cells.len() && cells[k] == cell;
    assert(cells.drop_last()[k] == cell);
}

/// Puts the neighbours of `cell` on the stack, the right one on top.
fn push_neighbours(pending: &mut Vec<Coord>, cell: &Coord)
    ensures
        final(pending)@ == old(pending)@ + steps_from(*cell),
        old(pending)@.is_prefix_of(final(pending)@),
        forall|k: int|
            old(pending)@.len() <= k < final(pending)@.len() ==> cell.adjacent(
                #[trigger] final(pending)@[k],
            ),
        forall|next: Coord| #[trigger] cell.adjacent(next) ==> final(pending)@.contains(next),
{
    let ghost before = pending@;
    if cell.y > i32::MIN {
        pending.push(cell.down());
    }
    if cell.y < i32::MAX {
        pending.push(cell.up());
    }
    if cell.x > i32::MIN {
        pending.push(cell.left());
    }
    if cell.x < i32::MAX {
        pending.push(cell.right());
    }
    proof {
        let after = pending@;
        assert(before =~= after.subrange(0, before.len() as int));
        let n0 = before.len() as int;
        let n1 = if cell.y > i32::MIN { n0 + 1 } else { n0 };
        let n2 = if cell.y < i32::MAX { n1 + 1 } else { n1 };
        let n3 = if cell.x > i32::MIN { n2 + 1 } else { n2 };
        assert forall|next: Coord| #[trigger] cell.adjacent(next) implies after.contains(next) by {
            if next.x == cell.x && next.y == cell.y - 1 {
                assert(after[n0] == next);
            } else if next.x == cell.x && next.y == cell.y + 1 {
                assert(after[n1] == next);
            } else if next.y == cell.y && next.x == cell.x - 1 {
                assert(after[n2] == next);
            } else {
                assert(after[n3] == next);
            }
        }
    }
}

/// Continues the flood fill `available_spaces` from `spot`, depth first: the
/// right neighbour of a cell is explored before the left one, then the one
/// above and the one below. A cell is added when it is open and not yet in
/// the list, and the search ends once the list holds `my_length` cells.
///
/// The result is that of `flood`. The cells added are distinct and connected
/// to `spot` by open cells outside the given list. Where the result stays
/// shorter than `my_length`, it holds every such cell.
pub fn check_spot_for_space(
    spot: &Coord,
    board: &Board,
    my_length: i32,
    available_spaces: Vec<Coord>,
) -> (r: Vec<Coord>)
    ensures
        r@ == flood(board@, my_length as int, available_spaces@, seq![*spot]),
        grown_from(board@, available_spaces@, *spot, r@),
        r.len() == available_spaces.len() || r.len() <= my_length,
        r.len() < my_length ==> reachable_cells(
            board@,
            available_spaces@.to_set(),
            *spot,
        ).subset_of(r@.to_set()),
{
    let ghost given = available_spaces@;
    let ghost avoid = given.to_set();
    let mut found = available_spaces;
    let mut pending: Vec<Coord> = Vec::new();
    pending.push(*spot);
    assert(pending@ =~= seq![*spot]);
    assert(pending@[0] == *spot);
    while pending.len() > 0 && my_length > 0 && found.len() < my_length as usize
        invariant
            avoid == given.to_set(),
            flood(board@, my_length as int, found@, pending@) == flood(
                board@,
                my_length as int,
                given,
                seq![*spot],
            ),
            grown_from(board@, given, *spot, found@),
            found.len() == given.len() || found.len() <= my_length,
            pending_from(given, *spot, found@, pending@),
            closed_but_pending(board@, given, *spot, found@, pending@),
        decreases my_length - found.len(), pending.len(),
    {
        let ghost found0 = found@;
        let ghost pending0 = pending@;
        let cell = pending.pop().unwrap();
        let ghost pending1 = pending@;
        assert(cell == pending0.last() && pending1 == pending0.drop_last());
        if !list_has_spot(found.as_slice(), &cell) && valid_move(&cell, board) {
            proof {
                assert(!avoid.contains(cell)) by {
                    if given.contains(cell) {
                        lemma_prefix_keeps(given, found0, cell);
                    }
                }
                if cell == *spot {
                    lemma_reaches_itself(board@, avoid, cell);
                } else {
                    let i = choose|i: int|
                        given.len() <= i < found0.len() && #[trigger] found0[i].adjacent(cell);
                    lemma_reaches_neighbour(board@, avoid, *spot, found0[i], cell);
                }
            }
            found.push(cell);
            push_neighbours(&mut pending, &cell);
            proof {
                let found1 = found@;
                let pending2 = pending@;
                let last = found0.len() as int;
                assert(found1[last] == cell);
                assert(given =~= found1.subrange(0, given.len() as int)) by {
                    assert(given =~= found0.subrange(0, given.len() as int));
                }
                assert forall|i: int| given.len() <= i < found1.len() implies reaches(
                    board@,
                    avoid,
                    *spot,
                    #[trigger] found1[i],
                ) by {
                    if i < last {
                        assert(found1[i] == found0[i]);
                    }
                }
                assert forall|i: int, j: int| given.len() <= i < j < found1.len() implies found1[i]
                    != found1[j] by {
                    assert(found1[i] == found0[i]);
                    if j < last {
                        assert(found1[j] == found0[j]);
                    }
                }
                assert forall|k: int| 0 <= k < pending2.len() implies (#[trigger] pending2[k])
                    == *spot || exists|i: int|
                    given.len() <= i < found1.len() && #[trigger] found1[i].adjacent(
                        pending2[k],
                    ) by {
                    if k < pending1.len() {
                        assert(pending2.subrange(0, pending1.len() as int)[k] == pending2[k]);
                        assert(pending2[k] == pending0[k]);
                        if pending0[k] != *spot {
                            let i = choose|i: int|
                                given.len() <= i < found0.len() && #[trigger] found0[i].adjacent(
                                    pending0[k],
                                );
                            assert(found1[i].adjacent(pending2[k]));
                        }
                    } else {
                        assert(found1[last].adjacent(pending2[k]));
                    }
                }
                assert(found1.contains(cell));
                assert forall|next: Coord|
                    found0.contains(next) || pending0.contains(next) implies found1.contains(next)
                    || pending2.contains(next) by {
                    if found0.contains(next) {
                        lemma_prefix_keeps(found0, found1, next);
                    } else if next != cell {
                        lemma_drop_last_keeps(pending0, next);
                        lemma_prefix_keeps(pending1, pending2, next);
                    }
                }
                assert forall|i: int, next: Coord|
                    given.len() <= i < found1.len() && #[trigger] found1[i].adjacent(next)
                        && open_cell(board@, next) implies found1.contains(next)
                    || pending2.contains(next) by {
                    if i < last {
                        assert(found1[i] == found0[i]);
                        assert(found0.contains(next) || pending0.contains(next));
                    }
                }
            }
        } else {
            proof {
                assert forall|k: int| 0 <= k < pending1.len() implies (#[trigger] pending1[k])
                    == *spot || exists|i: int|
                    given.len() <= i < found0.len() && #[trigger] found0[i].adjacent(
                        pending1[k],
                    ) by {
                    assert(pending1[k] == pending0[k]);
                }
                assert forall|next: Coord|
                    open_cell(board@, next) && (found0.contains(next) || pending0.contains(
                        next,
                    )) implies found0.contains(next) || pending1.contains(next) by {
                    if !found0.contains(next) {
                        lemma_drop_last_keeps(pending0, next);
                    }
                }
            }
        }
    }
    proof {
        if found.len() < my_length {
            let cells = found@.to_set();
            assert(pending@.len() == 0);
            assert forall|cell: Coord, next: Coord|
                cells.contains(cell) && !avoid.contains(cell) && #[trigger] cell.adjacent(next)
                    && open_cell(board@, next) && !avoid.contains(next) implies cells.contains(
                next,
            ) by {
                let i = choose|i: int| 0 <= i < found@.len() && found@[i] == cell;
                if i < given.len() {
                    assert(found@.subrange(0, given.len() as int)[i] == found@[i]);
                    assert(given.contains(cell));
                }
                assert(found@[i].adjacent(next));
            }
            lemma_closed_holds_reachable(board@, avoid, *spot, cells);
        }
    }
    found
}

/// The number of open cells connected to `from`, counted no further than
/// `cap`.
pub open spec fn capped_room(board: BoardView, from: Coord, cap: int) -> int {
    let room = room_at(board, from).len() as int;
    if cap <= 0 {
        0
    } else if room < cap {
        room
    } else {
        cap
    }
}

/// The count of room never exceeds a cap that is not negative, and never
/// exceeds the number of open cells connected to `from`.
pub proof fn lemma_capped_room_bounds(board: BoardView, from: Coord, cap: int)
    requires
        cap >= 0,
    ensures
        room_at(board, from).finite(),
        capped_room(board, from, cap) <= cap,
        capped_room(board, from, cap) <= room_at(board, from).len(),
{
    lemma_cells_are_finite(room_at(board, from));
}

/// A walk that starts on the board never leaves it.
proof fn lemma_walk_stays_on_board(board: BoardView, walk: Seq<Coord>, k: int)
    requires
        is_walk(board, Set::empty(), walk),
        on_board(board, walk.first()),
        0 <= k < walk.len(),
    ensures
        on_board(board, walk[k]),
    decreases k,
{
    if k > 0 {
        lemma_walk_stays_on_board(board, walk, k - 1);
        assert(one_step(walk, k - 1));
        assert(open_cell(board, walk[k]));
    }
}

/// The wall shuts the board in: from a cell on the board only open cells on
/// the board are reached.
pub proof fn lemma_room_stays_on_board(board: BoardView, from: Coord, cell: Coord)
    requires
        on_board(board, from),
        room_at(board, from).contains(cell),
    ensures
        on_board(board, cell),
        open_cell(board, cell),
{
    let walk = choose|walk: Seq<Coord>|
        #[trigger] is_walk(board, Set::empty(), walk) && walk.first() == from && walk.last()
            == cell;
    lemma_walk_stays_on_board(board, walk, walk.len() - 1);
}

/// Behind a wall cell or a cell that a snake covers there is no room.
pub proof fn lemma_no_room_at_closed_cell(board: BoardView, from: Coord, cap: int)
    requires
        !open_cell(board, from),
    ensures
        room_at(board, from) == Set::<Coord>::empty(),
        capped_room(board, from, cap) == 0,
{
    assert forall|cell: Coord| !room_at(board, from).contains(cell) by {
        if reaches(board, Set::empty(), from, cell) {
            let walk = choose|walk: Seq<Coord>|
                #[trigger] is_walk(board, Set::empty(), walk) && walk.first() == from
                    && walk.last() == cell;
            assert(open_cell(board, walk[0]));
        }
    }
    assert(room_at(board, from) =~= Set::<Coord>::empty());
}

/// The number of open cells connected to `spot`, counted no further than the
/// length of `me`: whether the snake finds room for its whole body there.
pub fn remaining_space(spot: &Coord, board: &Board, me: &Battlesnake) -> (r: i32)
    ensures
        r == capped_room(board@, *spot, me@.length),
{
    let nothing: Vec<Coord> = Vec::new();
    let available_spaces = check_spot_for_space(spot, board, me.length, nothing);
    proof {
        let found = available_spaces@;
        let room = room_at(board@, *spot);
        assert(nothing@.to_set() =~= Set::<Coord>::empty());
        assert(found.to_set().subset_of(room)) by {
            assert forall|cell: Coord| found.contains(cell) implies room.contains(cell) by {
                let i = choose|i: int| 0 <= i < found.len() && found[i] == cell;
                assert(reaches(board@, Set::empty(), *spot, found[i]));
            }
        }
        found.unique_seq_to_set();
        lemma_cells_are_finite(room);
        lemma_len_subset(found.to_set(), room);
        if found.len() < me.length {
            assert(found.to_set() =~= room);
        }
    }
    available_spaces.len() as i32
}

} // verus!
