//! Connected components: the maximal set of same-colored, 4-directionally
//! adjacent occupied cells around a seed position, computed on demand by a
//! flood fill and never persisted.

use vstd::prelude::*;
use crate::board::Board;
use crate::board::Cell;
use crate::grid::GridPosition;
use crate::grid::adjacent;
use crate::grid::get_adjacent;
use crate::piece::PieceColor;

verus! {

/// The position is on the board and holds a piece of the given color.
pub open spec fn colored_at(b: Board, color: PieceColor, p: GridPosition) -> bool {
    &&& b.spec_valid(p.row as int, p.col as int)
    &&& match b.cell(p.row as int, p.col as int) {
        Cell::Empty => false,
        Cell::Occupied { color: c, .. } => c == color,
    }
}

/// A nonempty chain of positions, every one holding the given color, each
/// consecutive two edge-adjacent.
pub open spec fn is_color_path(b: Board, color: PieceColor, path: Seq<GridPosition>) -> bool {
    &&& path.len() > 0
    &&& forall|i: int| 0 <= i < path.len() ==> colored_at(b, color, #[trigger] path[i])
    &&& forall|i: int| 0 <= i < path.len() - 1 ==> adjacent(#[trigger] path[i], path[i + 1])
}

/// Two positions lie in one connected component of cells of the given
/// color: some color path leads from the first to the second.
pub open spec fn connected(b: Board, color: PieceColor, p: GridPosition, q: GridPosition) -> bool {
    exists|path: Seq<GridPosition>|
        is_color_path(b, color, path) && path.first() == p && path.last() == q
}

/// A colored cell is connected to itself.
pub proof fn lemma_connected_refl(b: Board, color: PieceColor, p: GridPosition)
    requires
        colored_at(b, color, p),
    ensures
        connected(b, color, p, p),
{
    let path = seq![p];
    assert(is_color_path(b, color, path));
    assert(path.first() == p && path.last() == p);
}

/// Extending a color path by one adjacent colored cell keeps it connected.
pub proof fn lemma_connected_step(
    b: Board,
    color: PieceColor,
    p: GridPosition,
    q: GridPosition,
    r: GridPosition,
)
    requires
        connected(b, color, p, q),
        adjacent(q, r),
        colored_at(b, color, r),
    ensures
        connected(b, color, p, r),
{
    let path = choose|path: Seq<GridPosition>|
        is_color_path(b, color, path) && path.first() == p && path.last() == q;
    let ext = path.push(r);
    assert forall|i: int| 0 <= i < ext.len() implies colored_at(b, color, #[trigger] ext[i]) by {
        if i < path.len() {
            assert(ext[i] == path[i]);
        }
    }
    assert forall|i: int| 0 <= i < ext.len() - 1 implies adjacent(#[trigger] ext[i], ext[i + 1]) by {
        if i < path.len() - 1 {
            assert(ext[i] == path[i] && ext[i + 1] == path[i + 1]);
        } else {
            assert(ext[i] == path.last() && ext[i + 1] == r);
        }
    }
    assert(is_color_path(b, color, ext));
    assert(ext.first() == p && ext.last() == r);
}

/// Every color path starting in a set that is closed under colored
/// adjacency ends in that set.
proof fn lemma_path_in_closed_seq(
    b: Board,
    color: PieceColor,
    path: Seq<GridPosition>,
    comp: Seq<GridPosition>,
)
    requires
        is_color_path(b, color, path),
        comp.contains(path.first()),
        forall|m: GridPosition, n: GridPosition|
            comp.contains(m) && #[trigger] adjacent(m, n) && colored_at(b, color, n)
                ==> comp.contains(n),
    ensures
        comp.contains(path.last()),
    decreases path.len(),
{
    if path.len() == 1 {
        assert(path.last() == path.first());
    } else {
        assert(adjacent(path[0], path[1]));
        assert(colored_at(b, color, path[1]));
        assert(comp.contains(path[1]));
        let rest = path.subrange(1, path.len() as int);
        assert forall|i: int| 0 <= i < rest.len() implies
            colored_at(b, color, #[trigger] rest[i]) by {
            assert(rest[i] == path[i + 1]);
        }
        assert forall|i: int| 0 <= i < rest.len() - 1 implies
            adjacent(#[trigger] rest[i], rest[i + 1]) by {
            assert(rest[i] == path[i + 1] && rest[i + 1] == path[i + 2]);
        }
        assert(is_color_path(b, color, rest));
        assert(rest.first() == path[1]);
        assert(rest.last() == path.last());
        lemma_path_in_closed_seq(b, color, rest, comp);
    }
}

/// How many entries of a mark vector are still unset.
spec fn count_false(s: Seq<bool>) -> nat
    decreases s.len(),
{
    if s.len() == 0 {
        0
    } else {
        count_false(s.drop_last()) + if s.last() {
            0nat
        } else {
            1nat
        }
    }
}

/// Setting an unset mark lowers the unset count by exactly one.
proof fn lemma_count_false_set_true(s: Seq<bool>, i: int)
    requires
        0 <= i < s.len(),
        !s[i],
    ensures
        count_false(s.update(i, true)) + 1 == count_false(s),
    decreases s.len(),
{
    let t = s.update(i, true);
    if i == s.len() - 1 {
        assert(t.drop_last() =~= s.drop_last());
    } else {
        assert(t.drop_last() =~= s.drop_last().update(i, true));
        lemma_count_false_set_true(s.drop_last(), i);
    }
}

/// The mark a position carries in the flood fill's seen vector.
spec fn marked(b: Board, seen: Seq<bool>, p: GridPosition) -> bool {
    &&& b.spec_valid(p.row as int, p.col as int)
    &&& seen[p.row as int * b.width + p.col as int]
}

impl Board {
    /// The backing index of a valid position.
    fn cell_index(&self, position: GridPosition) -> (idx: usize)
        requires
            self.wf(),
            self.spec_valid(position.row as int, position.col as int),
        ensures
            idx == position.row as int * self.width + position.col as int,
            idx < self.width * self.height,
    {
        proof {
            self.lemma_valid_index_bound(position.row as int, position.col as int);
        }
        let n: usize = self.data.len();
        let idx: usize = (position.row() as usize) * self.width + (position.col() as usize);
        proof {
            assert(idx < n);
        }
        idx
    }

    /// The backing index of a valid position fits in the data vector.
    proof fn lemma_valid_index_bound(self, r: int, c: int)
        requires
            self.wf(),
            self.spec_valid(r, c),
        ensures
            0 <= r * self.width + c < self.width * self.height,
    {
        assert(0 <= r * self.width + c < self.width * self.height) by (nonlinear_arith)
            requires
                0 <= r < self.height,
                0 <= c < self.width,
        ;
    }

    /// Distinct valid positions carry distinct backing indices.
    proof fn lemma_valid_index_distinct(self, p: GridPosition, q: GridPosition)
        requires
            self.wf(),
            self.spec_valid(p.row as int, p.col as int),
            self.spec_valid(q.row as int, q.col as int),
            p != q,
        ensures
            p.row as int * self.width + p.col != q.row as int * self.width + q.col,
    {
        assert(p.row as int * self.width + p.col != q.row as int * self.width + q.col)
            by (nonlinear_arith)
            requires
                0 <= (p.row as int) < self.height,
                0 <= (p.col as int) < self.width,
                0 <= (q.row as int) < self.height,
                0 <= (q.col as int) < self.width,
                !(p.row == q.row && p.col == q.col),
        ;
    }

    /// Whether the position carries a mark in the flood fill's seen vector.
    fn is_marked(&self, seen: &Vec<bool>, p: GridPosition) -> (m: bool)
        requires
            self.wf(),
            self.spec_valid(p.row as int, p.col as int),
            seen@.len() == self.width * self.height,
        ensures
            m == marked(*self, seen@, p),
    {
        let idx = self.cell_index(p);
        seen[idx]
    }

    /// Mark a not-yet-marked valid position and queue it on the frontier.
    fn mark_and_push(
        &self,
        n: GridPosition,
        seen: &mut Vec<bool>,
        frontier: &mut Vec<GridPosition>,
    )
        requires
            self.wf(),
            self.spec_valid(n.row as int, n.col as int),
            old(seen)@.len() == self.width * self.height,
            !marked(*self, old(seen)@, n),
        ensures
            final(seen)@.len() == old(seen)@.len(),
            final(frontier)@ == old(frontier)@.push(n),
            forall|q: GridPosition|
                #[trigger] marked(*self, final(seen)@, q)
                    <==> (marked(*self, old(seen)@, q) || q == n),
            forall|q: GridPosition|
                #[trigger] final(frontier)@.contains(q)
                    <==> (old(frontier)@.contains(q) || q == n),
            count_false(final(seen)@) + 1 == count_false(old(seen)@),
    {
        let idx = self.cell_index(n);
        proof {
            lemma_count_false_set_true(seen@, idx as int);
        }
        seen.set(idx, true);
        frontier.push(n);
        proof {
            assert forall|q: GridPosition|
                #[trigger] marked(*self, seen@, q)
                    <==> (marked(*self, old(seen)@, q) || q == n) by {
                if self.spec_valid(q.row as int, q.col as int) {
                    self.lemma_valid_index_bound(q.row as int, q.col as int);
                    if q != n {
                        self.lemma_valid_index_distinct(q, n);
                    }
                }
            }
            assert forall|q: GridPosition|
                #[trigger] frontier@.contains(q)
                    <==> (old(frontier)@.contains(q) || q == n) by {
                vstd::seq_lib::lemma_seq_contains_after_push(old(frontier)@, n, q);
            }
        }
    }

    /// The connected component around a seed position: empty if the seed
    /// cell is unoccupied, otherwise exactly the maximal set of same-colored
    /// cells reachable from the seed by 4-directional adjacency, the seed
    /// first, no cell listed twice.
    #[verifier::rlimit(100)]
    pub fn find_conn_comp(&self, initial_position: GridPosition) -> (comp: Vec<GridPosition>)
        requires
            self.wf(),
            self.spec_valid(initial_position.row as int, initial_position.col as int),
        ensures
            self.cell(initial_position.row as int, initial_position.col as int) is Empty
                ==> comp@.len() == 0,
            forall|color: PieceColor|
                colored_at(*self, color, initial_position) ==> {
                    &&& comp@.len() >= 1
                    &&& comp@[0] == initial_position
                    &&& forall|i: int| 0 <= i < comp@.len()
                        ==> colored_at(*self, color, #[trigger] comp@[i])
                            && connected(*self, color, initial_position, comp@[i])
                    &&& forall|i: int, j: int| 0 <= i < j < comp@.len()
                        ==> comp@[i] != comp@[j]
                    &&& forall|q: GridPosition|
                        #[trigger] connected(*self, color, initial_position, q)
                            ==> comp@.contains(q)
                },
    {
        broadcast use vstd::seq_lib::lemma_seq_contains_after_push;

        let seed = initial_position;
        let initial_color = match self.cell_at(seed) {
            Cell::Empty => {
                return Vec::new();
            },
            Cell::Occupied { color, .. } => color,
        };

        let total: usize = self.data.len();
        let mut seen: Vec<bool> = Vec::new();
        while seen.len() < total
            invariant
                seen@.len() <= total,
                forall|i: int| 0 <= i < seen@.len() ==> !(#[trigger] seen@[i]),
            decreases total - seen@.len(),
        {
            seen.push(false);
        }

        let mut comp: Vec<GridPosition> = Vec::new();
        comp.push(seed);
        let mut frontier: Vec<GridPosition> = Vec::new();

        proof {
            assert forall|q: GridPosition| !(#[trigger] marked(*self, seen@, q)) by {
                if self.spec_valid(q.row as int, q.col as int) {
                    self.lemma_valid_index_bound(q.row as int, q.col as int);
                }
            }
        }
        let seed_idx = self.cell_index(seed);
        seen.set(seed_idx, true);
        proof {
            lemma_connected_refl(*self, initial_color, seed);
            assert forall|q: GridPosition| #[trigger] marked(*self, seen@, q)
                implies q == seed by {
                if self.spec_valid(q.row as int, q.col as int) {
                    self.lemma_valid_index_bound(q.row as int, q.col as int);
                    if q != seed {
                        self.lemma_valid_index_distinct(q, seed);
                    }
                }
            }
        }

        let adj = get_adjacent(seed);
        let mut k: usize = 0;
        while k < 4
            invariant
                self.wf(),
                colored_at(*self, initial_color, seed),
                connected(*self, initial_color, seed, seed),
                adj@.len() == 4,
                forall|i: int| 0 <= i < 4 ==> adjacent(seed, #[trigger] adj@[i]),
                adj@[0].row == seed.row + 1 && adj@[0].col == seed.col,
                adj@[1].row == seed.row - 1 && adj@[1].col == seed.col,
                adj@[2].row == seed.row && adj@[2].col == seed.col + 1,
                adj@[3].row == seed.row && adj@[3].col == seed.col - 1,
                k <= 4,
                seen@.len() == self.width * self.height,
                comp@.len() == 1 && comp@[0] == seed,
                marked(*self, seen@, seed),
                forall|i: int| 0 <= i < frontier@.len()
                    ==> marked(*self, seen@, #[trigger] frontier@[i]),
                forall|i: int| 0 <= i < frontier@.len()
                    ==> adjacent(seed, #[trigger] frontier@[i]),
                forall|i: int, j: int| 0 <= i < j < frontier@.len()
                    ==> frontier@[i] != frontier@[j],
                forall|i: int| 0 <= i < frontier@.len() ==> #[trigger] frontier@[i] != seed,
                forall|q: GridPosition| #[trigger] marked(*self, seen@, q)
                    ==> q == seed || frontier@.contains(q),
                forall|i: int| 0 <= i < k
                    ==> self.spec_valid(adj@[i].row as int, adj@[i].col as int)
                        ==> marked(*self, seen@, #[trigger] adj@[i]),
            decreases 4 - k,
        {
            let n = adj[k];
            if self.is_valid(n) {
                if !self.is_marked(&seen, n) {
                    self.mark_and_push(n, &mut seen, &mut frontier);
                }
            }
            k = k + 1;
        }

        while frontier.len() > 0
            invariant
                self.wf(),
                colored_at(*self, initial_color, seed),
                seen@.len() == self.width * self.height,
                comp@.len() >= 1,
                comp@[0] == seed,
                forall|i: int| 0 <= i < comp@.len()
                    ==> colored_at(*self, initial_color, #[trigger] comp@[i]),
                forall|i: int| 0 <= i < comp@.len()
                    ==> connected(*self, initial_color, seed, #[trigger] comp@[i]),
                forall|i: int| 0 <= i < comp@.len()
                    ==> marked(*self, seen@, #[trigger] comp@[i]),
                forall|i: int, j: int| 0 <= i < j < comp@.len()
                    ==> comp@[i] != comp@[j],
                forall|i: int| 0 <= i < frontier@.len()
                    ==> marked(*self, seen@, #[trigger] frontier@[i]),
                forall|i: int| 0 <= i < frontier@.len()
                    ==> exists|q: GridPosition|
                        connected(*self, initial_color, seed, q)
                            && adjacent(q, #[trigger] frontier@[i]),
                forall|i: int, j: int| 0 <= i < j < frontier@.len()
                    ==> frontier@[i] != frontier@[j],
                forall|i: int, j: int| 0 <= i < comp@.len() && 0 <= j < frontier@.len()
                    ==> comp@[i] != frontier@[j],
                forall|q: GridPosition|
                    #[trigger] marked(*self, seen@, q) && colored_at(*self, initial_color, q)
                        ==> comp@.contains(q) || frontier@.contains(q),
                forall|i: int, n: GridPosition|
                    0 <= i < comp@.len() && #[trigger] adjacent(comp@[i], n)
                        && colored_at(*self, initial_color, n)
                        ==> marked(*self, seen@, n),
            decreases count_false(seen@), frontier@.len(),
        {
            let ghost seen0 = seen@;
            let ghost frontier0 = frontier@;
            let ghost comp0 = comp@;
            let p = frontier.pop().unwrap();
            let cell = self.cell_at(p);
            let is_match = match cell {
                Cell::Occupied { color, .. } => {
                    let m: bool = color == initial_color;
                    m
                },
                Cell::Empty => false,
            };
            proof {
                assert(p == frontier0[frontier0.len() - 1]);
                assert(frontier@ == frontier0.drop_last());
                assert forall|q: GridPosition| #[trigger] frontier0.contains(q) && q != p
                    implies frontier@.contains(q) by {
                    let i = choose|i: int| 0 <= i < frontier0.len() && frontier0[i] == q;
                    assert(frontier@[i] == q);
                }
            }
            if is_match {
                proof {
                    assert(colored_at(*self, initial_color, p));
                    let q = choose|q: GridPosition|
                        connected(*self, initial_color, seed, q) && adjacent(q, p);
                    lemma_connected_step(*self, initial_color, seed, q, p);
                    assert(connected(*self, initial_color, seed, p));
                }
                comp.push(p);
                proof {
                    assert(comp@ == comp0.push(p));
                    assert forall|q: GridPosition|
                        #[trigger] comp@.contains(q)
                            <==> (comp0.contains(q) || q == p) by {
                        vstd::seq_lib::lemma_seq_contains_after_push(comp0, p, q);
                    }
                    assert forall|q: GridPosition|
                        #[trigger] marked(*self, seen@, q)
                            && colored_at(*self, initial_color, q)
                            implies comp@.contains(q) || frontier@.contains(q) by {
                        if q == p {
                            assert(comp@.contains(q));
                        } else {
                            assert(comp0.contains(q) || frontier0.contains(q));
                        }
                    }
                }
                let adj = get_adjacent(p);
                let mut k: usize = 0;
                while k < 4
                    invariant
                        self.wf(),
                        colored_at(*self, initial_color, seed),
                        colored_at(*self, initial_color, p),
                        connected(*self, initial_color, seed, p),
                        adj@.len() == 4,
                        forall|i: int| 0 <= i < 4 ==> adjacent(p, #[trigger] adj@[i]),
                        adj@[0].row == p.row + 1 && adj@[0].col == p.col,
                        adj@[1].row == p.row - 1 && adj@[1].col == p.col,
                        adj@[2].row == p.row && adj@[2].col == p.col + 1,
                        adj@[3].row == p.row && adj@[3].col == p.col - 1,
                        k <= 4,
                        seen@.len() == self.width * self.height,
                        count_false(seen@) <= count_false(seen0),
                        frontier@.len() >= frontier0.len() - 1,
                        frontier@.len() > frontier0.len() - 1
                            ==> count_false(seen@) < count_false(seen0),
                        comp@.len() >= 2,
                        comp@[0] == seed,
                        comp@.last() == p,
                        forall|i: int| 0 <= i < comp@.len()
                            ==> colored_at(*self, initial_color, #[trigger] comp@[i]),
                        forall|i: int| 0 <= i < comp@.len()
                            ==> connected(*self, initial_color, seed, #[trigger] comp@[i]),
                        forall|i: int| 0 <= i < comp@.len()
                            ==> marked(*self, seen@, #[trigger] comp@[i]),
                        forall|i: int, j: int| 0 <= i < j < comp@.len()
                            ==> comp@[i] != comp@[j],
                        forall|i: int| 0 <= i < frontier@.len()
                            ==> marked(*self, seen@, #[trigger] frontier@[i]),
                        forall|i: int| 0 <= i < frontier@.len()
                            ==> exists|q: GridPosition|
                                connected(*self, initial_color, seed, q)
                                    && adjacent(q, #[trigger] frontier@[i]),
                        forall|i: int, j: int| 0 <= i < j < frontier@.len()
                            ==> frontier@[i] != frontier@[j],
                        forall|i: int, j: int|
                            0 <= i < comp@.len() && 0 <= j < frontier@.len()
                                ==> comp@[i] != frontier@[j],
                        forall|q: GridPosition|
                            #[trigger] marked(*self, seen@, q)
                                && colored_at(*self, initial_color, q)
                                ==> comp@.contains(q) || frontier@.contains(q),
                        forall|i: int, n: GridPosition|
                            0 <= i < comp@.len() - 1 && #[trigger] adjacent(comp@[i], n)
                                && colored_at(*self, initial_color, n)
                                ==> marked(*self, seen@, n),
                        forall|i: int| 0 <= i < k
                            ==> self.spec_valid(adj@[i].row as int, adj@[i].col as int)
                                ==> marked(*self, seen@, #[trigger] adj@[i]),
                    decreases 4 - k,
                {
                    let n = adj[k];
                    if self.is_valid(n) {
                        if !self.is_marked(&seen, n) {
                            self.mark_and_push(n, &mut seen, &mut frontier);
                        }
                    }
                    k = k + 1;
                }
                proof {
                    assert forall|i: int, n: GridPosition|
                        0 <= i < comp@.len() && #[trigger] adjacent(comp@[i], n)
                            && colored_at(*self, initial_color, n)
                            implies marked(*self, seen@, n) by {
                        if i == comp@.len() - 1 {
                            assert(comp@[i] == p);
                            assert(n == adj@[0] || n == adj@[1] || n == adj@[2]
                                || n == adj@[3]);
                        }
                    }
                }
            }
        }

        proof {
            assert forall|q: GridPosition|
                #[trigger] connected(*self, initial_color, seed, q)
                    implies comp@.contains(q) by {
                let path = choose|path: Seq<GridPosition>|
                    is_color_path(*self, initial_color, path)
                        && path.first() == seed && path.last() == q;
                assert(comp@[0] == seed);
                assert(comp@.contains(seed));
                assert forall|m: GridPosition, n: GridPosition|
                    comp@.contains(m) && #[trigger] adjacent(m, n)
                        && colored_at(*self, initial_color, n)
                        implies comp@.contains(n) by {
                    let i = choose|i: int| 0 <= i < comp@.len() && comp@[i] == m;
                    assert(marked(*self, seen@, n));
                }
                lemma_path_in_closed_seq(*self, initial_color, path, comp@);
            }
        }
        comp
    }
}

} // verus!
