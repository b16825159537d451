//! The match resolver: once per tick, the connected component around each
//! freshly landed piece is computed against the board as it stood at the
//! start of the pass; components at or above the clear threshold are
//! cleared, and every cell at or above the lowest cleared row of each
//! affected column is detached from the board so its owner can resume
//! falling and re-settle through the normal pipeline.

use vstd::prelude::*;
use crate::board::Board;
use crate::board::Cell;
use crate::board::spec_cell_owner;
use crate::conn::colored_at;
use crate::conn::connected;
use crate::grid::GridPosition;
use crate::piece::PieceColor;

verus! {

/// The color of the piece occupying the seed cell; meaningful only when
/// that cell is occupied.
pub open spec fn spec_seed_color(b: Board, seed: GridPosition) -> PieceColor {
    match b.cell(seed.row as int, seed.col as int) {
        Cell::Occupied { color, .. } => color,
        Cell::Empty => PieceColor::Red,
    }
}

/// The position belongs to the connected component around the seed: the
/// seed cell is occupied and a same-color path joins them.
pub open spec fn spec_in_component(b: Board, seed: GridPosition, q: GridPosition) -> bool {
    &&& b.cell(seed.row as int, seed.col as int) is Occupied
    &&& connected(b, spec_seed_color(b, seed), seed, q)
}

/// The number of cells in the connected component around the seed.
pub open spec fn spec_component_size(b: Board, seed: GridPosition) -> nat {
    Set::new(|q: GridPosition| spec_in_component(b, seed, q)).len()
}

/// The cell at (r, c) is cleared directly by this resolution pass: it
/// belongs to the component of one of the landed seeds, and that component
/// reaches the clear threshold.
pub open spec fn spec_qualifying(
    b: Board,
    landed: Seq<GridPosition>,
    threshold: int,
    r: int,
    c: int,
) -> bool {
    exists|i: int, q: GridPosition|
        0 <= i < landed.len()
            && #[trigger] spec_in_component(b, landed[i], q)
            && spec_component_size(b, landed[i]) >= threshold
            && q.row == r && q.col == c
}

/// The cell at (r, c) is emptied by this resolution pass: some cell at or
/// below it in the same column is cleared directly, so either it is itself
/// cleared or it sits above a clearing and is detached to fall again.
pub open spec fn spec_swept(
    b: Board,
    landed: Seq<GridPosition>,
    threshold: int,
    r: int,
    c: int,
) -> bool {
    exists|r2: int| 0 <= r2 <= r && #[trigger] spec_qualifying(b, landed, threshold, r2, c)
}

/// Membership of (r, c) in a qualifying entry of an explicit component
/// list, looking only at entries lexicographically before (bi, bj).
pub open spec fn spec_cleared_upto(
    comps: Seq<Vec<GridPosition>>,
    threshold: int,
    bi: int,
    bj: int,
    r: int,
    c: int,
) -> bool {
    exists|i: int, j: int|
        0 <= i < comps.len() && 0 <= j < comps[i]@.len()
            && comps[i]@.len() >= threshold
            && (i < bi || (i == bi && j < bj))
            && #[trigger] comps[i]@[j].row == r && comps[i]@[j].col == c
}

/// Membership of (r, c) in some component of the list that reaches the
/// threshold.
pub open spec fn spec_cleared_member(
    comps: Seq<Vec<GridPosition>>,
    threshold: int,
    r: int,
    c: int,
) -> bool {
    spec_cleared_upto(comps, threshold, comps.len() as int, 0, r, c)
}

/// The handle belongs to a piece whose cell is cleared directly by the
/// component list: some qualifying member cell is occupied by it.
pub open spec fn spec_owner_of_cleared(
    b: Board,
    comps: Seq<Vec<GridPosition>>,
    threshold: int,
    o: u64,
) -> bool {
    exists|r: int, c: int|
        spec_cleared_member(comps, threshold, r, c)
            && b.spec_valid(r, c)
            && (#[trigger] b.cell(r, c)) is Occupied
            && spec_cell_owner(b.cell(r, c)) == o
}

/// The list records the handle at that cell: some entry carries this owner
/// and this position.
pub open spec fn spec_listed_at(l: Seq<(u64, GridPosition)>, o: u64, r: int, c: int) -> bool {
    exists|k: int|
        0 <= k < l.len() && (#[trigger] l[k]).0 == o && l[k].1.row == r && l[k].1.col == c
}

/// The handle belongs to a piece standing on a cell that this resolution
/// pass clears directly.
pub open spec fn spec_owner_of_qualifying(
    b: Board,
    landed: Seq<GridPosition>,
    threshold: int,
    o: u64,
) -> bool {
    exists|r: int, c: int|
        spec_qualifying(b, landed, threshold, r, c)
            && b.spec_valid(r, c)
            && (#[trigger] b.cell(r, c)) is Occupied
            && spec_cell_owner(b.cell(r, c)) == o
}

/// A component list entry describes the seed exactly: membership coincides
/// with the seed's connected component, the length with its size, and every
/// member is a valid position.
pub open spec fn spec_comp_matches(b: Board, seed: GridPosition, comp: Vec<GridPosition>) -> bool {
    &&& forall|q: GridPosition|
        #[trigger] comp@.contains(q) <==> spec_in_component(b, seed, q)
    &&& comp@.len() == spec_component_size(b, seed)
    &&& forall|j: int|
        0 <= j < comp@.len() ==> b.spec_valid(
            #[trigger] comp@[j].row as int,
            comp@[j].col as int,
        )
}

/// Advancing the scan one entry inside a component adds exactly that
/// entry's cell (when the component qualifies) to the cleared-so-far set.
proof fn lemma_upto_step(
    comps: Seq<Vec<GridPosition>>,
    threshold: int,
    i: int,
    j: int,
    jn: int,
)
    requires
        0 <= i < comps.len(),
        0 <= j < comps[i]@.len(),
        jn == j + 1,
    ensures
        forall|r: int, c: int|
            #[trigger] spec_cleared_upto(comps, threshold, i, jn, r, c)
                <==> (spec_cleared_upto(comps, threshold, i, j, r, c)
                    || (comps[i]@.len() >= threshold
                        && comps[i]@[j].row == r && comps[i]@[j].col == c)),
{
    assert forall|r: int, c: int|
        #[trigger] spec_cleared_upto(comps, threshold, i, jn, r, c)
            <==> (spec_cleared_upto(comps, threshold, i, j, r, c)
                || (comps[i]@.len() >= threshold
                    && comps[i]@[j].row == r && comps[i]@[j].col == c)) by {
        if spec_cleared_upto(comps, threshold, i, jn, r, c) {
            let (i2, j2) = choose|i2: int, j2: int|
                0 <= i2 < comps.len() && 0 <= j2 < comps[i2]@.len()
                    && comps[i2]@.len() >= threshold
                    && (i2 < i || (i2 == i && j2 < jn))
                    && comps[i2]@[j2].row == r && comps[i2]@[j2].col == c;
            if i2 < i || (i2 == i && j2 < j) {
                assert(spec_cleared_upto(comps, threshold, i, j, r, c));
            }
        }
        if spec_cleared_upto(comps, threshold, i, j, r, c) {
            let (i2, j2) = choose|i2: int, j2: int|
                0 <= i2 < comps.len() && 0 <= j2 < comps[i2]@.len()
                    && comps[i2]@.len() >= threshold
                    && (i2 < i || (i2 == i && j2 < j))
                    && comps[i2]@[j2].row == r && comps[i2]@[j2].col == c;
            assert(i2 < i || (i2 == i && j2 < jn));
            assert(spec_cleared_upto(comps, threshold, i, jn, r, c));
        }
        if comps[i]@.len() >= threshold && comps[i]@[j].row == r && comps[i]@[j].col == c {
            assert(spec_cleared_upto(comps, threshold, i, jn, r, c));
        }
    }
}

/// Moving the scan to the head of the next component changes nothing: the
/// cleared-so-far set is that of the previous component scanned to its end.
proof fn lemma_upto_advance(comps: Seq<Vec<GridPosition>>, threshold: int, i: int, inx: int)
    requires
        0 <= i < comps.len(),
        inx == i + 1,
    ensures
        forall|r: int, c: int|
            #[trigger] spec_cleared_upto(comps, threshold, inx, 0, r, c)
                <==> spec_cleared_upto(comps, threshold, i, comps[i]@.len() as int, r, c),
{
    assert forall|r: int, c: int|
        #[trigger] spec_cleared_upto(comps, threshold, inx, 0, r, c)
            <==> spec_cleared_upto(comps, threshold, i, comps[i]@.len() as int, r, c) by {
        if spec_cleared_upto(comps, threshold, inx, 0, r, c) {
            let (i2, j2) = choose|i2: int, j2: int|
                0 <= i2 < comps.len() && 0 <= j2 < comps[i2]@.len()
                    && comps[i2]@.len() >= threshold
                    && (i2 < inx || (i2 == inx && j2 < 0))
                    && comps[i2]@[j2].row == r && comps[i2]@[j2].col == c;
            assert(i2 < i || (i2 == i && j2 < comps[i]@.len()));
            assert(spec_cleared_upto(comps, threshold, i, comps[i]@.len() as int, r, c));
        }
        if spec_cleared_upto(comps, threshold, i, comps[i]@.len() as int, r, c) {
            let (i2, j2) = choose|i2: int, j2: int|
                0 <= i2 < comps.len() && 0 <= j2 < comps[i2]@.len()
                    && comps[i2]@.len() >= threshold
                    && (i2 < i || (i2 == i && j2 < comps[i]@.len()))
                    && comps[i2]@[j2].row == r && comps[i2]@[j2].col == c;
            assert(i2 < inx);
            assert(spec_cleared_upto(comps, threshold, inx, 0, r, c));
        }
    }
}

/// A component below the threshold contributes nothing when scanned past.
proof fn lemma_upto_skip(comps: Seq<Vec<GridPosition>>, threshold: int, i: int, inx: int)
    requires
        0 <= i < comps.len(),
        comps[i]@.len() < threshold,
        inx == i + 1,
    ensures
        forall|r: int, c: int|
            #[trigger] spec_cleared_upto(comps, threshold, inx, 0, r, c)
                <==> spec_cleared_upto(comps, threshold, i, 0, r, c),
{
    assert forall|r: int, c: int|
        #[trigger] spec_cleared_upto(comps, threshold, inx, 0, r, c)
            <==> spec_cleared_upto(comps, threshold, i, 0, r, c) by {
        if spec_cleared_upto(comps, threshold, inx, 0, r, c) {
            let (i2, j2) = choose|i2: int, j2: int|
                0 <= i2 < comps.len() && 0 <= j2 < comps[i2]@.len()
                    && comps[i2]@.len() >= threshold
                    && (i2 < inx || (i2 == inx && j2 < 0))
                    && comps[i2]@[j2].row == r && comps[i2]@[j2].col == c;
            assert(i2 != i);
            assert(spec_cleared_upto(comps, threshold, i, 0, r, c));
        }
        if spec_cleared_upto(comps, threshold, i, 0, r, c) {
            let (i2, j2) = choose|i2: int, j2: int|
                0 <= i2 < comps.len() && 0 <= j2 < comps[i2]@.len()
                    && comps[i2]@.len() >= threshold
                    && (i2 < i || (i2 == i && j2 < 0))
                    && comps[i2]@[j2].row == r && comps[i2]@[j2].col == c;
            assert(spec_cleared_upto(comps, threshold, inx, 0, r, c));
        }
    }
}

/// Clear every member cell of each component that reaches the threshold,
/// collecting the owner of each cleared occupied cell and, per column, the
/// lowest row index that was cleared (the board height where none was).
pub fn clear_components(
    board: &mut Board,
    comps: &Vec<Vec<GridPosition>>,
    threshold: usize,
) -> (out: (Vec<u64>, Vec<i64>))
    requires
        old(board).wf(),
        forall|i: int, j: int|
            0 <= i < comps@.len() && 0 <= j < comps@[i]@.len()
                ==> old(board).spec_valid(
                    #[trigger] comps@[i]@[j].row as int,
                    comps@[i]@[j].col as int,
                ),
    ensures
        final(board).wf(),
        old(board).same_config(*final(board)),
        forall|r: int, c: int|
            old(board).spec_valid(r, c)
                ==> final(board).cell(r, c) == (if spec_cleared_member(
                    comps@,
                    threshold as int,
                    r,
                    c,
                ) {
                    Cell::Empty
                } else {
                    old(board).cell(r, c)
                }),
        out.1@.len() == old(board).width,
        forall|c: int| 0 <= c < out.1@.len() ==> 0 <= #[trigger] out.1@[c] <= old(board).height,
        forall|r: int, c: int|
            #[trigger] spec_cleared_member(comps@, threshold as int, r, c)
                && 0 <= c < out.1@.len()
                ==> out.1@[c] <= r,
        forall|c: int|
            0 <= c < out.1@.len()
                ==> #[trigger] out.1@[c] == old(board).height
                    || spec_cleared_member(comps@, threshold as int, out.1@[c] as int, c),
        forall|r: int, c: int|
            spec_cleared_member(comps@, threshold as int, r, c)
                && old(board).spec_valid(r, c)
                && (#[trigger] old(board).cell(r, c)) is Occupied
                ==> out.0@.contains(spec_cell_owner(old(board).cell(r, c))),
        forall|k: int|
            #![trigger out.0@[k]]
            0 <= k < out.0@.len()
                ==> spec_owner_of_cleared(*old(board), comps@, threshold as int, out.0@[k]),
{
    broadcast use vstd::seq_lib::lemma_seq_contains_after_push;

    let ghost b0 = *board;
    let ghost mut opos: Seq<(int, int)> = Seq::empty();
    let mut owners: Vec<u64> = Vec::new();
    let mut min_rows: Vec<i64> = Vec::new();
    let h: i64 = board.height as i64;
    while min_rows.len() < board.width
        invariant
            board.wf(),
            h == board.height,
            min_rows@.len() <= board.width,
            forall|c: int| 0 <= c < min_rows@.len() ==> #[trigger] min_rows@[c] == h,
        decreases board.width - min_rows@.len(),
    {
        min_rows.push(h);
    }

    let mut i: usize = 0;
    while i < comps.len()
        invariant
            board.wf(),
            b0.same_config(*board),
            b0 == *old(board),
            h == board.height,
            i <= comps@.len(),
            forall|ii: int, j: int|
                0 <= ii < comps@.len() && 0 <= j < comps@[ii]@.len()
                    ==> b0.spec_valid(
                        #[trigger] comps@[ii]@[j].row as int,
                        comps@[ii]@[j].col as int,
                    ),
            forall|r: int, c: int|
                b0.spec_valid(r, c)
                    ==> board.cell(r, c) == (if spec_cleared_upto(
                        comps@,
                        threshold as int,
                        i as int,
                        0,
                        r,
                        c,
                    ) {
                        Cell::Empty
                    } else {
                        b0.cell(r, c)
                    }),
            min_rows@.len() == board.width,
            forall|c: int| 0 <= c < min_rows@.len() ==> 0 <= #[trigger] min_rows@[c] <= h,
            forall|r: int, c: int|
                #[trigger] spec_cleared_upto(comps@, threshold as int, i as int, 0, r, c)
                    && 0 <= c < min_rows@.len()
                    ==> min_rows@[c] <= r,
            forall|c: int|
                0 <= c < min_rows@.len()
                    ==> #[trigger] min_rows@[c] == h
                        || spec_cleared_upto(
                            comps@,
                            threshold as int,
                            i as int,
                            0,
                            min_rows@[c] as int,
                            c,
                        ),
            forall|r: int, c: int|
                spec_cleared_upto(comps@, threshold as int, i as int, 0, r, c)
                    && b0.spec_valid(r, c)
                    && (#[trigger] b0.cell(r, c)) is Occupied
                    ==> owners@.contains(spec_cell_owner(b0.cell(r, c))),
            owners@.len() == opos.len(),
            forall|k: int|
                #![trigger opos[k]]
                0 <= k < opos.len()
                    ==> {
                        let rc = opos[k];
                        &&& spec_cleared_upto(comps@, threshold as int, i as int, 0, rc.0, rc.1)
                        &&& b0.spec_valid(rc.0, rc.1)
                        &&& b0.cell(rc.0, rc.1) is Occupied
                        &&& spec_cell_owner(b0.cell(rc.0, rc.1)) == owners@[k]
                    },
        decreases comps@.len() - i,
    {
        let comp = &comps[i];
        if comp.len() >= threshold {
            let mut j: usize = 0;
            while j < comp.len()
                invariant
                    board.wf(),
                    b0.same_config(*board),
                    h == board.height,
                    i < comps@.len(),
                    comp == comps@[i as int],
                    comp@.len() >= threshold,
                    j <= comp@.len(),
                    forall|ii: int, jj: int|
                        0 <= ii < comps@.len() && 0 <= jj < comps@[ii]@.len()
                            ==> b0.spec_valid(
                                #[trigger] comps@[ii]@[jj].row as int,
                                comps@[ii]@[jj].col as int,
                            ),
                    forall|r: int, c: int|
                        b0.spec_valid(r, c)
                            ==> board.cell(r, c) == (if spec_cleared_upto(
                                comps@,
                                threshold as int,
                                i as int,
                                j as int,
                                r,
                                c,
                            ) {
                                Cell::Empty
                            } else {
                                b0.cell(r, c)
                            }),
                    min_rows@.len() == board.width,
                    forall|c: int| 0 <= c < min_rows@.len() ==> 0 <= #[trigger] min_rows@[c] <= h,
                    forall|r: int, c: int|
                        #[trigger] spec_cleared_upto(comps@, threshold as int, i as int, j as int, r, c)
                            && 0 <= c < min_rows@.len()
                            ==> min_rows@[c] <= r,
                    forall|c: int|
                        0 <= c < min_rows@.len()
                            ==> #[trigger] min_rows@[c] == h
                                || spec_cleared_upto(
                                    comps@,
                                    threshold as int,
                                    i as int,
                                    j as int,
                                    min_rows@[c] as int,
                                    c,
                                ),
                    forall|r: int, c: int|
                        spec_cleared_upto(comps@, threshold as int, i as int, j as int, r, c)
                            && b0.spec_valid(r, c)
                            && (#[trigger] b0.cell(r, c)) is Occupied
                            ==> owners@.contains(spec_cell_owner(b0.cell(r, c))),
                    owners@.len() == opos.len(),
                    forall|k: int|
                        #![trigger opos[k]]
                        0 <= k < opos.len()
                            ==> {
                                let rc = opos[k];
                                &&& spec_cleared_upto(
                                    comps@,
                                    threshold as int,
                                    i as int,
                                    j as int,
                                    rc.0,
                                    rc.1,
                                )
                                &&& b0.spec_valid(rc.0, rc.1)
                                &&& b0.cell(rc.0, rc.1) is Occupied
                                &&& spec_cell_owner(b0.cell(rc.0, rc.1)) == owners@[k]
                            },
                decreases comp@.len() - j,
            {
                let position = comp[j];
                let ghost pr = position.row as int;
                let ghost pc = position.col as int;
                let ghost j0 = j as int;
                let ghost owners0 = owners@;
                match board.cell_at(position) {
                    Cell::Occupied { owner, .. } => {
                        proof {
                            assert(!spec_cleared_upto(
                                comps@, threshold as int, i as int, j as int, pr, pc));
                            assert(b0.cell(pr, pc) is Occupied);
                            assert(spec_cell_owner(b0.cell(pr, pc)) == owner);
                        }
                        let ghost len0 = owners@.len();
                        owners.push(owner);
                        proof {
                            opos = opos.push((pr, pc));
                            assert(owners@[len0 as int] == owner);
                            assert(owners@.contains(owner));
                            assert(opos[len0 as int] == (pr, pc));
                            assert forall|o: u64| owners0.contains(o)
                                implies #[trigger] owners@.contains(o) by {
                                vstd::seq_lib::lemma_seq_contains_after_push(
                                    owners0, owner, o);
                            }
                        }
                    },
                    Cell::Empty => {
                        proof {
                            let ghost cell0 = b0.cell(pr, pc);
                            if !spec_cleared_upto(
                                comps@, threshold as int, i as int, j as int, pr, pc) {
                                assert(board.cell(pr, pc) is Empty);
                                assert(cell0 is Empty);
                            } else {
                                assert(b0.spec_valid(pr, pc));
                            }
                        }
                    },
                }
                board.place_cell(position, Cell::Empty);
                let col_idx: usize = position.col() as usize;
                if position.row() < min_rows[col_idx] {
                    min_rows.set(col_idx, position.row());
                }
                j = j + 1;
                proof {
                    lemma_upto_step(comps@, threshold as int, i as int, j0, j as int);
                    assert(spec_cleared_upto(
                        comps@,
                        threshold as int,
                        i as int,
                        j as int,
                        pr,
                        pc,
                    ));
                    assert forall|r: int, c: int|
                        spec_cleared_upto(comps@, threshold as int, i as int, j as int, r, c)
                            && b0.spec_valid(r, c)
                            && (#[trigger] b0.cell(r, c)) is Occupied
                            implies owners@.contains(spec_cell_owner(b0.cell(r, c))) by {
                        if spec_cleared_upto(comps@, threshold as int, i as int, j0, r, c) {
                            assert(owners0.contains(spec_cell_owner(b0.cell(r, c))));
                            assert(owners@.contains(spec_cell_owner(b0.cell(r, c))));
                        } else {
                            assert(r == pr && c == pc);
                        }
                    }
                }
            }
        }
        let ghost i0 = i as int;
        i = i + 1;
        proof {
            if comps@[i0]@.len() >= threshold as int {
                lemma_upto_advance(comps@, threshold as int, i0, i as int);
            } else {
                lemma_upto_skip(comps@, threshold as int, i0, i as int);
            }
        }
    }
    proof {
        assert forall|k: int|
            #![trigger owners@[k]]
            0 <= k < owners@.len() implies spec_owner_of_cleared(
            *old(board),
            comps@,
            threshold as int,
            owners@[k],
        ) by {
            let rc = opos[k];
            assert(spec_cleared_member(comps@, threshold as int, rc.0, rc.1));
            assert(old(board).spec_valid(rc.0, rc.1));
            assert(old(board).cell(rc.0, rc.1) is Occupied);
            assert(spec_cell_owner(old(board).cell(rc.0, rc.1)) == owners@[k]);
        }
    }
    (owners, min_rows)
}

/// Detach from the board every occupied cell at or above the given lowest
/// cleared row of its column, reporting each cell's owner and position so
/// the simulation can set it falling again.
pub fn drop_above(board: &mut Board, min_rows: &Vec<i64>) -> (dislodged: Vec<(u64, GridPosition)>)
    requires
        old(board).wf(),
        min_rows@.len() == old(board).width,
        forall|c: int| 0 <= c < min_rows@.len() ==> 0 <= #[trigger] min_rows@[c] <= old(
            board,
        ).height,
    ensures
        final(board).wf(),
        old(board).same_config(*final(board)),
        forall|r: int, c: int|
            old(board).spec_valid(r, c)
                ==> final(board).cell(r, c) == (if r >= min_rows@[c] {
                    Cell::Empty
                } else {
                    old(board).cell(r, c)
                }),
        forall|r: int, c: int|
            old(board).spec_valid(r, c) && r >= min_rows@[c]
                && (#[trigger] old(board).cell(r, c)) is Occupied
                ==> spec_listed_at(
                    dislodged@,
                    spec_cell_owner(old(board).cell(r, c)),
                    r,
                    c,
                ),
        forall|k: int|
            0 <= k < dislodged@.len()
                ==> {
                    let r = #[trigger] dislodged@[k].1.row as int;
                    let c = dislodged@[k].1.col as int;
                    &&& old(board).spec_valid(r, c)
                    &&& r >= min_rows@[c]
                    &&& old(board).cell(r, c) matches Cell::Occupied { owner, .. }
                        && owner == dislodged@[k].0
                },
{
    let ghost b0 = *board;
    let ghost mut gm: Map<(int, int), int> = Map::empty();
    let mut dislodged: Vec<(u64, GridPosition)> = Vec::new();
    let mut c: usize = 0;
    while c < board.width
        invariant
            board.wf(),
            b0.same_config(*board),
            b0 == *old(board),
            c <= board.width,
            min_rows@.len() == board.width,
            forall|cc: int| 0 <= cc < min_rows@.len() ==> 0 <= #[trigger] min_rows@[cc]
                <= board.height,
            forall|r: int, cc: int|
                b0.spec_valid(r, cc)
                    ==> board.cell(r, cc) == (if cc < c && r >= min_rows@[cc] {
                        Cell::Empty
                    } else {
                        b0.cell(r, cc)
                    }),
            forall|r: int, cc: int|
                b0.spec_valid(r, cc) && cc < c && r >= min_rows@[cc]
                    && (#[trigger] b0.cell(r, cc)) is Occupied
                    ==> {
                        let k = gm[(r, cc)];
                        &&& gm.dom().contains((r, cc))
                        &&& 0 <= k < dislodged@.len()
                        &&& dislodged@[k].0 == spec_cell_owner(b0.cell(r, cc))
                        &&& dislodged@[k].1.row == r && dislodged@[k].1.col == cc
                    },
            forall|k: int|
                0 <= k < dislodged@.len()
                    ==> {
                        let r = #[trigger] dislodged@[k].1.row as int;
                        let cc = dislodged@[k].1.col as int;
                        &&& b0.spec_valid(r, cc)
                        &&& cc < c
                        &&& r >= min_rows@[cc]
                        &&& b0.cell(r, cc) matches Cell::Occupied { owner, .. }
                            && owner == dislodged@[k].0
                    },
        decreases board.width - c,
    {
        let start_i64: i64 = min_rows[c];
        let mut r: usize = start_i64 as usize;
        while r < board.height
            invariant
                board.wf(),
                b0.same_config(*board),
                c < board.width,
                min_rows@.len() == board.width,
                forall|cc: int| 0 <= cc < min_rows@.len() ==> 0 <= #[trigger] min_rows@[cc]
                    <= board.height,
                start_i64 == min_rows@[c as int],
                start_i64 as usize <= r <= board.height,
                r >= min_rows@[c as int],
                forall|rr: int, cc: int|
                    b0.spec_valid(rr, cc)
                        ==> board.cell(rr, cc) == (if (cc < c && rr >= min_rows@[cc]) || (cc
                            == c && min_rows@[cc] <= rr < r) {
                            Cell::Empty
                        } else {
                            b0.cell(rr, cc)
                        }),
                forall|rr: int, cc: int|
                    b0.spec_valid(rr, cc)
                        && ((cc < c && rr >= min_rows@[cc]) || (cc == c && min_rows@[cc] <= rr
                            < r))
                        && (#[trigger] b0.cell(rr, cc)) is Occupied
                        ==> {
                            let k = gm[(rr, cc)];
                            &&& gm.dom().contains((rr, cc))
                            &&& 0 <= k < dislodged@.len()
                            &&& dislodged@[k].0 == spec_cell_owner(b0.cell(rr, cc))
                            &&& dislodged@[k].1.row == rr && dislodged@[k].1.col == cc
                        },
                forall|k: int|
                    0 <= k < dislodged@.len()
                        ==> {
                            let rr = #[trigger] dislodged@[k].1.row as int;
                            let cc = dislodged@[k].1.col as int;
                            &&& b0.spec_valid(rr, cc)
                            &&& (cc < c || (cc == c && rr < r))
                            &&& rr >= min_rows@[cc]
                            &&& b0.cell(rr, cc) matches Cell::Occupied { owner, .. }
                                && owner == dislodged@[k].0
                        },
            decreases board.height - r,
        {
            let position = GridPosition::new(r as i64, c as i64);
            match board.cell_at(position) {
                Cell::Occupied { owner, .. } => {
                    proof {
                        assert(b0.spec_valid(r as int, c as int));
                        assert(b0.cell(r as int, c as int) is Occupied);
                        assert(spec_cell_owner(b0.cell(r as int, c as int)) == owner);
                    }
                    let ghost len0 = dislodged@.len();
                    let ghost d0 = dislodged@;
                    dislodged.push((owner, position));
                    board.place_cell(position, Cell::Empty);
                    proof {
                        gm = gm.insert((r as int, c as int), len0 as int);
                        assert(gm[(r as int, c as int)] == len0 as int);
                        assert(dislodged@[len0 as int].0 == owner);
                        assert(dislodged@[len0 as int].1 == position);
                        assert(forall|k: int| 0 <= k < len0
                            ==> #[trigger] dislodged@[k] == d0[k]);
                    }
                },
                Cell::Empty => {
                    proof {
                        assert(b0.spec_valid(r as int, c as int));
                        assert(board.cell(r as int, c as int) is Empty);
                        assert(b0.cell(r as int, c as int) is Empty);
                    }
                },
            }
            r = r + 1;
        }
        c = c + 1;
    }
    proof {
        assert forall|r: int, c: int|
            old(board).spec_valid(r, c) && r >= min_rows@[c]
                && (#[trigger] old(board).cell(r, c)) is Occupied
                implies spec_listed_at(
            dislodged@,
            spec_cell_owner(old(board).cell(r, c)),
            r,
            c,
        ) by {
            let k = gm[(r, c)];
            assert(0 <= k < dislodged@.len());
            assert(dislodged@[k].0 == spec_cell_owner(old(board).cell(r, c)));
            assert(dislodged@[k].1.row == r && dislodged@[k].1.col == c);
        }
    }
    dislodged
}

/// One full match-resolution pass, batched against the board as it stands:
/// compute the connected component around every landed position, clear the
/// components that reach the threshold, and detach every cell sitting at or
/// above the lowest cleared row of its column. A cell ends empty exactly
/// when some cell at or below it in its column is cleared directly. The
/// first result lists the owners of directly cleared cells (to despawn);
/// the second lists owner and position of every detached cell above a
/// clearing (to set falling again).
#[verifier::rlimit(100)]
pub fn resolve_matches(
    board: &mut Board,
    landed: &Vec<GridPosition>,
    threshold: usize,
) -> (out: (Vec<u64>, Vec<(u64, GridPosition)>))
    requires
        old(board).wf(),
        forall|i: int|
            0 <= i < landed@.len() ==> old(board).spec_valid(
                #[trigger] landed@[i].row as int,
                landed@[i].col as int,
            ),
    ensures
        final(board).wf(),
        old(board).same_config(*final(board)),
        forall|r: int, c: int|
            old(board).spec_valid(r, c)
                ==> final(board).cell(r, c) == (if spec_swept(
                    *old(board),
                    landed@,
                    threshold as int,
                    r,
                    c,
                ) {
                    Cell::Empty
                } else {
                    old(board).cell(r, c)
                }),
        forall|r: int, c: int|
            #[trigger] spec_qualifying(*old(board), landed@, threshold as int, r, c)
                && old(board).spec_valid(r, c)
                && old(board).cell(r, c) is Occupied
                ==> out.0@.contains(spec_cell_owner(old(board).cell(r, c))),
        forall|k: int|
            #![trigger out.0@[k]]
            0 <= k < out.0@.len()
                ==> spec_owner_of_qualifying(*old(board), landed@, threshold as int, out.0@[k]),
        forall|r: int, c: int|
            old(board).spec_valid(r, c)
                && spec_swept(*old(board), landed@, threshold as int, r, c)
                && !spec_qualifying(*old(board), landed@, threshold as int, r, c)
                && (#[trigger] old(board).cell(r, c)) is Occupied
                ==> spec_listed_at(out.1@, spec_cell_owner(old(board).cell(r, c)), r, c),
        forall|k: int|
            #![trigger out.1@[k]]
            0 <= k < out.1@.len()
                ==> {
                    let r = out.1@[k].1.row as int;
                    let c = out.1@[k].1.col as int;
                    &&& old(board).spec_valid(r, c)
                    &&& spec_swept(*old(board), landed@, threshold as int, r, c)
                    &&& !spec_qualifying(*old(board), landed@, threshold as int, r, c)
                    &&& old(board).cell(r, c) is Occupied
                    &&& spec_cell_owner(old(board).cell(r, c)) == out.1@[k].0
                },
{
    let ghost b0 = *board;
    let ghost th = threshold as int;

    let mut comps: Vec<Vec<GridPosition>> = Vec::new();
    let mut i: usize = 0;
    while i < landed.len()
        invariant
            board.wf(),
            *board == b0,
            b0 == *old(board),
            i <= landed@.len(),
            comps@.len() == i,
            forall|ii: int|
                0 <= ii < landed@.len() ==> b0.spec_valid(
                    #[trigger] landed@[ii].row as int,
                    landed@[ii].col as int,
                ),
            forall|ii: int|
                0 <= ii < i ==> spec_comp_matches(b0, landed@[ii], #[trigger] comps@[ii]),
        decreases landed@.len() - i,
    {
        let seed = landed[i];
        let comp = board.find_conn_comp(seed);
        proof {
            lemma_comp_matches(b0, seed, comp);
        }
        comps.push(comp);
        i = i + 1;
    }

    proof {
        assert forall|r: int, c: int|
            #[trigger] spec_cleared_member(comps@, th, r, c)
                implies spec_qualifying(b0, landed@, th, r, c) by {
            let (i2, j2) = choose|i2: int, j2: int|
                0 <= i2 < comps@.len() && 0 <= j2 < comps@[i2]@.len()
                    && comps@[i2]@.len() >= th
                    && (i2 < comps@.len() || (i2 == comps@.len() && j2 < 0))
                    && comps@[i2]@[j2].row == r && comps@[i2]@[j2].col == c;
            let q = comps@[i2]@[j2];
            assert(comps@[i2]@.contains(q));
            assert(spec_in_component(b0, landed@[i2], q));
            assert(spec_component_size(b0, landed@[i2]) >= th);
        }
        assert forall|r: int, c: int|
            #[trigger] spec_qualifying(b0, landed@, th, r, c)
                implies spec_cleared_member(comps@, th, r, c) by {
            let (i2, q) = choose|i2: int, q: GridPosition|
                0 <= i2 < landed@.len()
                    && #[trigger] spec_in_component(b0, landed@[i2], q)
                    && spec_component_size(b0, landed@[i2]) >= th
                    && q.row == r && q.col == c;
            assert(comps@[i2]@.contains(q));
            let j2 = choose|j2: int| 0 <= j2 < comps@[i2]@.len() && comps@[i2]@[j2] == q;
            assert(comps@[i2]@.len() >= th);
            assert(spec_cleared_upto(comps@, th, comps@.len() as int, 0, r, c));
        }
    }

    let clear_out = clear_components(board, &comps, threshold);
    let owners = clear_out.0;
    let min_rows = clear_out.1;
    let ghost bmid = *board;

    proof {
        assert forall|r: int, c: int|
            b0.spec_valid(r, c) implies ((r >= min_rows@[c]) <==> spec_swept(
            b0,
            landed@,
            th,
            r,
            c,
        )) by {
            if spec_swept(b0, landed@, th, r, c) {
                let r2 = choose|r2: int|
                    0 <= r2 <= r && #[trigger] spec_qualifying(b0, landed@, th, r2, c);
                assert(spec_cleared_member(comps@, th, r2, c));
                assert(min_rows@[c] <= r2);
            }
            if r >= min_rows@[c] {
                assert(min_rows@[c] < b0.height);
                assert(spec_cleared_member(comps@, th, min_rows@[c] as int, c));
                assert(spec_qualifying(b0, landed@, th, min_rows@[c] as int, c));
                assert(0 <= min_rows@[c] <= r);
                assert(spec_swept(b0, landed@, th, r, c));
            }
        }
    }

    let dislodged = drop_above(board, &min_rows);

    proof {
        // final cells: swept exactly
        assert forall|r: int, c: int|
            b0.spec_valid(r, c) implies board.cell(r, c) == (if spec_swept(
            b0,
            landed@,
            th,
            r,
            c,
        ) {
            Cell::Empty
        } else {
            b0.cell(r, c)
        }) by {
            if !spec_swept(b0, landed@, th, r, c) {
                assert(!spec_cleared_member(comps@, th, r, c));
            }
        }
        // owners list, converse direction
        assert forall|k: int|
            #![trigger owners@[k]]
            0 <= k < owners@.len() implies spec_owner_of_qualifying(
            b0,
            landed@,
            th,
            owners@[k],
        ) by {
            assert(spec_owner_of_cleared(b0, comps@, th, owners@[k]));
            let (r, c) = choose|r: int, c: int|
                spec_cleared_member(comps@, th, r, c)
                    && b0.spec_valid(r, c)
                    && (#[trigger] b0.cell(r, c)) is Occupied
                    && spec_cell_owner(b0.cell(r, c)) == owners@[k];
            assert(spec_qualifying(b0, landed@, th, r, c));
        }
        // dislodged, forward direction
        assert forall|r: int, c: int|
            b0.spec_valid(r, c)
                && spec_swept(b0, landed@, th, r, c)
                && !spec_qualifying(b0, landed@, th, r, c)
                && (#[trigger] b0.cell(r, c)) is Occupied
                implies spec_listed_at(dislodged@, spec_cell_owner(b0.cell(r, c)), r, c) by {
            assert(!spec_cleared_member(comps@, th, r, c));
            assert(bmid.cell(r, c) == b0.cell(r, c));
            assert(r >= min_rows@[c]);
        }
        // dislodged, converse direction
        assert forall|k: int|
            #![trigger dislodged@[k]]
            0 <= k < dislodged@.len() implies {
            let r = dislodged@[k].1.row as int;
            let c = dislodged@[k].1.col as int;
            &&& b0.spec_valid(r, c)
            &&& spec_swept(b0, landed@, th, r, c)
            &&& !spec_qualifying(b0, landed@, th, r, c)
            &&& b0.cell(r, c) is Occupied
            &&& spec_cell_owner(b0.cell(r, c)) == dislodged@[k].0
        } by {
            let r = dislodged@[k].1.row as int;
            let c = dislodged@[k].1.col as int;
            assert(bmid.spec_valid(r, c));
            assert(r >= min_rows@[c]);
            assert(bmid.cell(r, c) is Occupied);
            assert(!spec_cleared_member(comps@, th, r, c));
            assert(bmid.cell(r, c) == b0.cell(r, c));
            assert(!spec_qualifying(b0, landed@, th, r, c));
        }
    }
    (owners, dislodged)
}

/// The component list that the flood fill returns for a seed describes the
/// seed's connected component exactly.
proof fn lemma_comp_matches(b: Board, seed: GridPosition, comp: Vec<GridPosition>)
    requires
        b.wf(),
        b.spec_valid(seed.row as int, seed.col as int),
        b.cell(seed.row as int, seed.col as int) is Empty ==> comp@.len() == 0,
        forall|color: PieceColor|
            colored_at(b, color, seed) ==> {
                &&& comp@.len() >= 1
                &&& comp@[0] == seed
                &&& forall|i: int| 0 <= i < comp@.len()
                    ==> colored_at(b, color, #[trigger] comp@[i])
                        && connected(b, color, seed, comp@[i])
                &&& forall|i: int, j: int| 0 <= i < j < comp@.len()
                    ==> comp@[i] != comp@[j]
                &&& forall|q: GridPosition|
                    #[trigger] connected(b, color, seed, q)
                        ==> comp@.contains(q)
            },
    ensures
        spec_comp_matches(b, seed, comp),
{
    let size_set = Set::new(|q: GridPosition| spec_in_component(b, seed, q));
    match b.cell(seed.row as int, seed.col as int) {
        Cell::Empty => {
            assert forall|q: GridPosition| !(#[trigger] comp@.contains(q)) by {}
            assert forall|q: GridPosition| !(#[trigger] spec_in_component(b, seed, q)) by {}
            assert(size_set =~= Set::<GridPosition>::empty());
            assert(size_set.len() == 0);
        },
        Cell::Occupied { color, .. } => {
            assert(color == spec_seed_color(b, seed));
            assert(colored_at(b, color, seed));
            assert forall|q: GridPosition|
                #[trigger] comp@.contains(q) <==> spec_in_component(b, seed, q) by {
                if comp@.contains(q) {
                    let i = choose|i: int| 0 <= i < comp@.len() && comp@[i] == q;
                    assert(connected(b, color, seed, comp@[i]));
                }
                if spec_in_component(b, seed, q) {
                    assert(connected(b, color, seed, q));
                }
            }
            assert(comp@.no_duplicates());
            comp@.unique_seq_to_set();
            assert(size_set =~= comp@.to_set());
            assert forall|i: int| 0 <= i < comp@.len() implies b.spec_valid(
                #[trigger] comp@[i].row as int,
                comp@[i].col as int,
            ) by {
                assert(colored_at(b, color, comp@[i]));
            }
        },
    }
}

} // verus!
