//! Disclosure: counting the mines around a cell, and the cascade that opens
//! a region of cells without mines around them together with its border.

use vstd::prelude::*;
use vstd::seq_lib::lemma_seq_concat_contains_all_elements;
use crate::board::{lemma_positions_finite, put, Board, Grid};
use crate::cell::CellKind;
use crate::pos::Pos;

verus! {

impl Board {
    /// The number of neighbours of `pos` that hold a mine, with or without
    /// a flag.
    pub open spec fn mine_neighbors(&self, pos: Pos) -> nat {
        self.neighbors(pos).filter(self.mine_test()).len()
    }

    /// The test for a mine at a position.
    pub open spec fn mine_test(&self) -> spec_fn(Pos) -> bool {
        |q: Pos| self.cell(q) is Mine
    }

    /// Whether the cell at `pos` can be disclosed: it is on the board,
    /// closed, without a mine and without a flag.
    pub open spec fn fresh(&self, pos: Pos) -> bool {
        self.in_bounds(pos) && self.cell(pos) == (CellKind::Closed { flagged: false })
    }

    /// Whether disclosing the cell at `pos` goes on to its neighbours: it
    /// can be disclosed and has no mine around it.
    pub open spec fn spreads(&self, pos: Pos) -> bool {
        self.fresh(pos) && self.mine_neighbors(pos) == 0
    }

    /// Whether a cascade can run along `path`: every cell on it can be
    /// disclosed, and each but the last has no mine around it and is
    /// adjacent to the next.
    pub open spec fn trail(&self, path: Seq<Pos>) -> bool {
        &&& path.len() > 0
        &&& forall|i: int| 0 <= i < path.len() ==> self.fresh(#[trigger] path[i])
        &&& forall|i: int|
            0 <= i < path.len() - 1 ==> self.spreads(#[trigger] path[i]) && path[i].adjacent(
                path[i + 1],
            )
    }

    /// Whether disclosing `from` opens `to`.
    pub open spec fn cascades(&self, from: Pos, to: Pos) -> bool {
        exists|path: Seq<Pos>| #[trigger] self.trail(path) && path[0] == from && path.last() == to
    }

    /// Whether disclosing one of `seeds` opens `to`.
    pub open spec fn reached(&self, seeds: Seq<Pos>, to: Pos) -> bool {
        exists|i: int| 0 <= i < seeds.len() && #[trigger] self.cascades(seeds[i], to)
    }

    /// The board after disclosing `seeds`: every cell that a cascade from
    /// one of them reaches is open and shows the number of mines around it,
    /// and every other cell is as it was.
    pub open spec fn disclosed(&self, seeds: Seq<Pos>) -> Grid {
        Seq::new(
            self.height as nat,
            |i: int|
                Seq::new(
                    self.width as nat,
                    |j: int|
                        {
                            let p = Pos { row: i as u8, col: j as u8 };
                            if self.reached(seeds, p) {
                                CellKind::Open { neighbor_mines: self.mine_neighbors(p) as u8 }
                            } else {
                                self.cell(p)
                            }
                        },
                ),
        )
    }

    /// The positions of the cells that can be disclosed.
    pub open spec fn fresh_cells(&self) -> Set<Pos> {
        Set::new(|p: Pos| self.fresh(p))
    }

    /// A cell that can be disclosed is opened by its own disclosure.
    pub proof fn lemma_cascades_self(&self, pos: Pos)
        requires
            self.fresh(pos),
        ensures
            self.cascades(pos, pos),
    {
        let path = seq![pos];
        assert(self.trail(path));
        assert(path[0] == pos && path.last() == pos);
    }

    /// A cascade that has reached a cell without mines around it goes on to
    /// each adjacent cell that can be disclosed.
    pub proof fn lemma_cascades_step(&self, from: Pos, mid: Pos, to: Pos)
        requires
            self.cascades(from, mid),
            self.spreads(mid),
            mid.adjacent(to),
            self.fresh(to),
        ensures
            self.cascades(from, to),
    {
        let path = choose|path: Seq<Pos>| #[trigger]
            self.trail(path) && path[0] == from && path.last() == mid;
        let longer = path.push(to);
        assert forall|i: int| 0 <= i < longer.len() implies self.fresh(#[trigger] longer[i]) by {
            if i < path.len() {
                assert(longer[i] == path[i]);
            }
        }
        assert forall|i: int| 0 <= i < longer.len() - 1 implies self.spreads(#[trigger] longer[i])
            && longer[i].adjacent(longer[i + 1]) by {
            if i < path.len() - 1 {
                assert(longer[i] == path[i]);
                assert(longer[i + 1] == path[i + 1]);
            } else {
                assert(longer[i] == mid);
                assert(longer[i + 1] == to);
            }
        }
        assert(self.trail(longer));
        assert(longer[0] == path[0]);
        assert(longer.last() == to);
    }

    /// A cascade opens nothing but cells that can be disclosed.
    pub proof fn lemma_cascades_fresh(&self, from: Pos, to: Pos)
        requires
            self.cascades(from, to),
        ensures
            self.fresh(from),
            self.fresh(to),
    {
        let path = choose|path: Seq<Pos>| #[trigger]
            self.trail(path) && path[0] == from && path.last() == to;
        assert(self.fresh(path[0]));
        assert(self.fresh(path[path.len() - 1]));
    }
}

/// Filtering by two tests that agree on every element gives the same.
proof fn lemma_filter_agree<A>(s: Seq<A>, f: spec_fn(A) -> bool, g: spec_fn(A) -> bool)
    requires
        forall|i: int| 0 <= i < s.len() ==> f(#[trigger] s[i]) == g(s[i]),
    ensures
        s.filter(f) == s.filter(g),
    decreases s.len(),
{
    reveal(Seq::filter);
    if s.len() > 0 {
        let t = s.drop_last();
        assert forall|i: int| 0 <= i < t.len() implies f(#[trigger] t[i]) == g(t[i]) by {
            assert(t[i] == s[i]);
        }
        lemma_filter_agree(t, f, g);
        assert(f(s[s.len() - 1]) == g(s[s.len() - 1]));
    }
}

/// Filtering a sequence without duplicates gives a sequence without
/// duplicates.
proof fn lemma_filter_distinct<A>(s: Seq<A>, f: spec_fn(A) -> bool)
    requires
        s.no_duplicates(),
    ensures
        s.filter(f).no_duplicates(),
    decreases s.len(),
{
    reveal(Seq::filter);
    if s.len() > 0 {
        let rest = s.drop_last();
        let last = s.last();
        lemma_filter_distinct(rest, f);
        if f(last) {
            let kept = rest.filter(f);
            assert forall|i: int| 0 <= i < kept.len() implies #[trigger] kept[i] != last by {
                assert(kept.contains(kept[i]));
                rest.lemma_filter_contains_rev(f, kept[i]);
                let j = choose|j: int| 0 <= j < rest.len() && rest[j] == kept[i];
                assert(s[j] == kept[i]);
            }
        }
    }
}

impl Board {
    /// The positions around `pos` that hold a mine.
    pub open spec fn mines_near(&self, pos: Pos) -> Set<Pos> {
        Set::new(|q: Pos| self.in_bounds(q) && pos.adjacent(q) && self.cell(q) is Mine)
    }

    /// The count of mines around a cell is the number of adjacent cells on
    /// the board that hold a mine.
    pub proof fn lemma_mine_neighbors_counts(&self, pos: Pos)
        ensures
            self.mine_neighbors(pos) == self.mines_near(pos).len(),
    {
        let around = self.neighbors(pos);
        let hits = around.filter(self.mine_test());
        self.lemma_neighbors_distinct(pos);
        lemma_filter_distinct(around, self.mine_test());
        hits.unique_seq_to_set();
        assert forall|q: Pos| hits.to_set().contains(q) <==> self.mines_near(pos).contains(q) by {
            self.lemma_neighbors_contains(pos, q);
            if hits.contains(q) {
                around.lemma_filter_contains_rev(self.mine_test(), q);
                let i = choose|i: int| 0 <= i < hits.len() && hits[i] == q;
                around.lemma_filter_pred(self.mine_test(), i);
            }
            if self.mines_near(pos).contains(q) {
                let i = choose|i: int| 0 <= i < around.len() && around[i] == q;
                around.lemma_filter_contains(self.mine_test(), i);
            }
        }
        assert(hits.to_set() =~= self.mines_near(pos));
    }

    /// The number of mines around a cell depends only on where the mines
    /// are: two boards of one size with mines in the same places count the
    /// same.
    pub proof fn lemma_mine_neighbors_frame(&self, other: Board, pos: Pos)
        requires
            self.height == other.height,
            self.width == other.width,
            forall|q: Pos|
                #![trigger self.cell(q)]
                self.in_bounds(q) ==> (self.cell(q) is Mine <==> other.cell(q) is Mine),
        ensures
            self.mine_neighbors(pos) == other.mine_neighbors(pos),
    {
        let around = self.neighbors(pos);
        assert(around =~= other.neighbors(pos));
        assert forall|i: int| 0 <= i < around.len() implies (self.mine_test())(#[trigger] around[i])
            == (other.mine_test())(around[i]) by {
            let q = around[i];
            assert(around.contains(q));
            self.lemma_neighbors_contains(pos, q);
            assert(self.cell(q) is Mine <==> other.cell(q) is Mine);
        }
        lemma_filter_agree(around, self.mine_test(), other.mine_test());
    }

    /// The number of mines around `pos`.
    pub fn mines_around(&self, pos: Pos) -> (n: u8)
        requires
            self.wf(),
        ensures
            n == self.mine_neighbors(pos),
            n <= 8,
    {
        let around = self.iter_neighbors(pos);
        proof {
            self.lemma_neighbors_len(pos);
        }
        let mut n: u8 = 0;
        let mut i: usize = 0;
        while i < around.len()
            invariant
                self.wf(),
                around@ == self.neighbors(pos),
                around@.len() <= 8,
                i <= around@.len(),
                n <= i,
                n == around@.take(i as int).filter(self.mine_test()).len(),
            decreases around@.len() - i,
        {
            let q = around[i];
            proof {
                assert(around@.contains(q));
                self.lemma_neighbors_contains(pos, q);
                around@.lemma_take_succ_push(i as int);
                around@.take(i as int).lemma_filter_len_push(self.mine_test(), q);
            }
            let hit = match self.get(q) {
                Some(kind) => kind.is_mine(),
                None => false,
            };
            if hit {
                n += 1;
            }
            i += 1;
        }
        proof {
            around@.lemma_take_len();
        }
        n
    }

    /// Puts the neighbours of `pos` on the work list of a cascade if there
    /// is no mine around `pos`.
    pub fn open_empty_neighbors(&self, pos: Pos, neighboring_mines: u8, work: &mut Vec<Pos>)
        ensures
            final(work)@ == old(work)@ + (if neighboring_mines == 0 {
                self.neighbors(pos)
            } else {
                Seq::empty()
            }),
    {
        if neighboring_mines != 0 {
            assert(work@ =~= old(work)@ + Seq::<Pos>::empty());
            return;
        }
        let mut around = self.iter_neighbors(pos);
        work.append(&mut around);
    }
}

impl Board {
    /// In a cascade that began on `self` and has come to `cur`, the cell at
    /// `p` is as it was, or the cascade has reached and opened it.
    spec fn kept_or_opened(&self, seeds: Seq<Pos>, cur: Board, p: Pos) -> bool {
        ||| cur.cell(p) == self.cell(p)
        ||| {
            &&& self.reached(seeds, p)
            &&& cur.cell(p) == (CellKind::Open { neighbor_mines: self.mine_neighbors(p) as u8 })
        }
    }

    /// What holds while a cascade from `seeds` that began on `self` has come
    /// to `cur` with the positions in `work` still to visit: nothing but
    /// reached cells has been opened, everything on the list that may be
    /// opened is reached, and whatever the opened cells lead on to is open
    /// or listed.
    spec fn flooding(&self, seeds: Seq<Pos>, cur: Board, work: Seq<Pos>) -> bool {
        &&& self.wf()
        &&& cur.wf()
        &&& cur.height == self.height
        &&& cur.width == self.width
        &&& forall|p: Pos| self.in_bounds(p) ==> #[trigger] self.kept_or_opened(seeds, cur, p)
        &&& forall|i: int|
            0 <= i < work.len() && self.fresh(#[trigger] work[i]) ==> self.reached(seeds, work[i])
        &&& forall|i: int|
            0 <= i < seeds.len() && self.fresh(#[trigger] seeds[i]) ==> !cur.fresh(seeds[i])
                || work.contains(seeds[i])
        &&& forall|p: Pos, q: Pos|
            #[trigger] p.adjacent(q) && self.spreads(p) && !cur.fresh(p) && self.fresh(q)
                ==> !cur.fresh(q) || work.contains(q)
    }

    /// A cascade opens each of its seeds that can be disclosed.
    pub proof fn lemma_reached_seed(&self, seeds: Seq<Pos>, i: int)
        requires
            0 <= i < seeds.len(),
            self.fresh(seeds[i]),
        ensures
            self.reached(seeds, seeds[i]),
    {
        self.lemma_cascades_self(seeds[i]);
    }

    /// A cascade that has reached a cell without mines around it goes on to
    /// each adjacent cell that can be disclosed.
    pub proof fn lemma_reached_step(&self, seeds: Seq<Pos>, mid: Pos, to: Pos)
        requires
            self.reached(seeds, mid),
            self.spreads(mid),
            mid.adjacent(to),
            self.fresh(to),
        ensures
            self.reached(seeds, to),
    {
        let i = choose|i: int| 0 <= i < seeds.len() && #[trigger] self.cascades(seeds[i], mid);
        self.lemma_cascades_step(seeds[i], mid, to);
    }

    /// A cascade opens nothing but cells that can be disclosed.
    pub proof fn lemma_reached_fresh(&self, seeds: Seq<Pos>, to: Pos)
        requires
            self.reached(seeds, to),
        ensures
            self.fresh(to),
    {
        let i = choose|i: int| 0 <= i < seeds.len() && #[trigger] self.cascades(seeds[i], to);
        self.lemma_cascades_fresh(seeds[i], to);
    }

    /// A cascade begins with the board as it is and the seeds to visit.
    proof fn lemma_flood_start(&self, seeds: Seq<Pos>)
        requires
            self.wf(),
        ensures
            self.flooding(seeds, *self, seeds),
    {
        assert forall|i: int| 0 <= i < seeds.len() && self.fresh(#[trigger] seeds[i]) implies self.reached(
            seeds,
            seeds[i],
        ) by {
            self.lemma_reached_seed(seeds, i);
        }
    }

    /// A position taken from the end of the list that cannot be opened now
    /// is dropped.
    proof fn lemma_flood_skip(&self, seeds: Seq<Pos>, cur: Board, work: Seq<Pos>)
        requires
            self.flooding(seeds, cur, work),
            work.len() > 0,
            !cur.fresh(work.last()),
        ensures
            self.flooding(seeds, cur, work.drop_last()),
    {
        let rest = work.drop_last();
        let pos = work.last();
        assert forall|x: Pos| work.contains(x) && x != pos implies rest.contains(x) by {
            let i = choose|i: int| 0 <= i < work.len() && work[i] == x;
            assert(rest[i] == x);
        }
        assert forall|i: int| 0 <= i < rest.len() && self.fresh(#[trigger] rest[i]) implies self.reached(
            seeds,
            rest[i],
        ) by {
            assert(rest[i] == work[i]);
        }
    }

    /// A position taken from the end of the list that can be opened is
    /// opened with the number of mines around it, and its neighbours join
    /// the list if that number is zero.
    proof fn lemma_flood_open(&self, seeds: Seq<Pos>, cur: Board, work: Seq<Pos>, next: Board)
        requires
            self.flooding(seeds, cur, work),
            work.len() > 0,
            cur.fresh(work.last()),
            next.height == cur.height,
            next.width == cur.width,
            next@ == put(
                cur@,
                work.last(),
                CellKind::Open { neighbor_mines: cur.mine_neighbors(work.last()) as u8 },
            ),
        ensures
            cur.mine_neighbors(work.last()) <= 8,
            self.flooding(
                seeds,
                next,
                work.drop_last() + (if cur.mine_neighbors(work.last()) == 0 {
                    self.neighbors(work.last())
                } else {
                    Seq::empty()
                }),
            ),
            next.fresh_cells() == cur.fresh_cells().remove(work.last()),
    {
        let pos = work.last();
        let rest = work.drop_last();
        let count = cur.mine_neighbors(pos);
        let extra = if count == 0 {
            self.neighbors(pos)
        } else {
            Seq::empty()
        };
        let list = rest + extra;
        let opened = CellKind::Open { neighbor_mines: count as u8 };

        // The mines are where they were, so the count is that of the start.
        assert forall|q: Pos| #![trigger cur.cell(q)] cur.in_bounds(q) implies (cur.cell(q) is Mine
            <==> self.cell(q) is Mine) by {
            assert(self.kept_or_opened(seeds, cur, q));
            if cur.cell(q) != self.cell(q) {
                self.lemma_reached_fresh(seeds, q);
            }
        }
        cur.lemma_mine_neighbors_frame(*self, pos);
        self.lemma_neighbors_len(pos);
        cur.neighbors(pos).lemma_filter_len(cur.mine_test());
        assert(cur.neighbors(pos) =~= self.neighbors(pos));
        assert(count <= 8);

        // The position was on the list and can be opened, so it is reached.
        assert(self.kept_or_opened(seeds, cur, pos));
        assert(self.fresh(pos));
        assert(work[work.len() - 1] == pos);
        assert(self.reached(seeds, pos));

        // The new board differs from the old one at `pos` only.
        assert forall|p: Pos| self.in_bounds(p) implies #[trigger] next.cell(p) == (if p == pos {
            opened
        } else {
            cur.cell(p)
        }) by {}
        assert(next.wf()) by {
            assert forall|p: Pos| next.holds(p) implies (#[trigger] next.cell(p)).wf() by {
                if p != pos {
                    assert(cur.holds(p));
                    assert(next.cell(p) == cur.cell(p));
                }
            }
        }
        assert forall|p: Pos| self.in_bounds(p) implies #[trigger] self.kept_or_opened(
            seeds,
            next,
            p,
        ) by {
            assert(self.kept_or_opened(seeds, cur, p));
        }
        assert forall|p: Pos| !cur.fresh(p) implies !next.fresh(p) by {
            if next.in_bounds(p) {
                assert(next.cell(p) == (if p == pos {
                    opened
                } else {
                    cur.cell(p)
                }));
            }
        }
        assert(!next.fresh(pos));

        assert forall|x: Pos| work.contains(x) && x != pos implies list.contains(x) by {
            let i = choose|i: int| 0 <= i < work.len() && work[i] == x;
            assert(rest[i] == x);
            assert(list[i] == x);
        }
        assert forall|i: int| 0 <= i < list.len() && self.fresh(#[trigger] list[i]) implies self.reached(
            seeds,
            list[i],
        ) by {
            if i < rest.len() {
                assert(list[i] == work[i]);
            } else {
                let q = list[i];
                assert(q == extra[i - rest.len()]);
                assert(self.neighbors(pos).contains(q));
                self.lemma_neighbors_contains(pos, q);
                self.lemma_reached_step(seeds, pos, q);
            }
        }
        assert forall|p: Pos, q: Pos|
            #[trigger] p.adjacent(q) && self.spreads(p) && !next.fresh(p) && self.fresh(
                q,
            ) implies !next.fresh(q) || list.contains(q) by {
            if p == pos {
                self.lemma_neighbors_contains(pos, q);
                lemma_seq_concat_contains_all_elements(rest, extra, q);
            } else {
                assert(next.cell(p) == cur.cell(p));
                assert(!cur.fresh(p));
                if cur.fresh(q) && q != pos {
                    assert(work.contains(q));
                }
            }
        }
        assert(next.fresh_cells() =~= cur.fresh_cells().remove(pos)) by {
            assert forall|p: Pos| next.fresh(p) <==> (cur.fresh(p) && p != pos) by {
                if next.in_bounds(p) {
                    assert(next.cell(p) == (if p == pos {
                        opened
                    } else {
                        cur.cell(p)
                    }));
                }
            }
        }
    }

    /// Along a trail that starts at an opened cell, every cell is opened
    /// once nothing is left to visit.
    proof fn lemma_flood_trail(&self, seeds: Seq<Pos>, cur: Board, path: Seq<Pos>, k: int)
        requires
            self.flooding(seeds, cur, Seq::empty()),
            self.trail(path),
            !cur.fresh(path[0]),
            0 <= k < path.len(),
        ensures
            !cur.fresh(path[k]),
        decreases k,
    {
        if k > 0 {
            self.lemma_flood_trail(seeds, cur, path, k - 1);
            let p = path[k - 1];
            let q = path[k];
            assert(self.spreads(p) && p.adjacent(q));
            assert(self.fresh(q));
            assert(!Seq::<Pos>::empty().contains(q));
        }
    }

    /// Once nothing is left to visit, the board is the one that the
    /// cascade's definition gives.
    proof fn lemma_flood_done(&self, seeds: Seq<Pos>, cur: Board)
        requires
            self.flooding(seeds, cur, Seq::empty()),
        ensures
            cur@ == self.disclosed(seeds),
    {
        let goal = self.disclosed(seeds);
        assert forall|i: int, j: int| 0 <= i < cur@.len() && 0 <= j < cur@[i].len() implies cur@[i][j]
            == goal[i][j] by {
            let p = Pos { row: i as u8, col: j as u8 };
            assert(self.in_bounds(p));
            assert(self.kept_or_opened(seeds, cur, p));
            assert(cur.cell(p) == cur@[i][j]);
            if self.reached(seeds, p) {
                let s = choose|s: int| 0 <= s < seeds.len() && #[trigger] self.cascades(seeds[s], p);
                let path = choose|path: Seq<Pos>| #[trigger]
                    self.trail(path) && path[0] == seeds[s] && path.last() == p;
                assert(self.fresh(path[0]));
                assert(!Seq::<Pos>::empty().contains(seeds[s]));
                self.lemma_flood_trail(seeds, cur, path, path.len() - 1);
                assert(self.fresh(path[path.len() - 1]));
            }
        }
        assert forall|i: int| 0 <= i < cur@.len() implies #[trigger] cur@[i] =~= goal[i] by {}
        assert(cur@ =~= goal);
    }

    /// Disclosing `seeds` opens each of them that can be disclosed and
    /// shows the number of mines around it.
    pub proof fn lemma_disclosed_seed(&self, seeds: Seq<Pos>, i: int)
        requires
            0 <= i < seeds.len(),
            self.fresh(seeds[i]),
        ensures
            self.disclosed(seeds)[seeds[i].row as int][seeds[i].col as int] == (CellKind::Open {
                neighbor_mines: self.mine_neighbors(seeds[i]) as u8,
            }),
    {
        self.lemma_reached_seed(seeds, i);
    }

    /// A disclosure neither places nor removes a mine.
    pub proof fn lemma_disclosed_mines(&self, seeds: Seq<Pos>, after: Board)
        requires
            after.height == self.height,
            after.width == self.width,
            after@ == self.disclosed(seeds),
        ensures
            forall|q: Pos|
                #![trigger after.cell(q)]
                self.in_bounds(q) ==> (after.cell(q) is Mine <==> self.cell(q) is Mine),
            after.mines() == self.mines(),
    {
        assert forall|q: Pos| #![trigger after.cell(q)] self.in_bounds(q) implies (after.cell(q) is Mine
            <==> self.cell(q) is Mine) by {
            if self.reached(seeds, q) {
                self.lemma_reached_fresh(seeds, q);
            }
        }
        assert(after.mines() =~= self.mines());
    }

    /// A cell that a cascade opens is one of its seeds, or lies next to a
    /// cell without mines around it that the cascade opens too.
    pub proof fn lemma_reached_cause(&self, seeds: Seq<Pos>, to: Pos)
        requires
            self.reached(seeds, to),
        ensures
            seeds.contains(to) || exists|mid: Pos|
                #[trigger] mid.adjacent(to) && self.reached(seeds, mid) && self.spreads(mid),
    {
        let i = choose|i: int| 0 <= i < seeds.len() && #[trigger] self.cascades(seeds[i], to);
        let path = choose|path: Seq<Pos>| #[trigger]
            self.trail(path) && path[0] == seeds[i] && path.last() == to;
        if path.len() == 1 {
            assert(seeds[i] == to);
        } else {
            let shorter = path.drop_last();
            let mid = shorter.last();
            assert(mid == path[path.len() - 2]);
            assert forall|k: int| 0 <= k < shorter.len() implies self.fresh(#[trigger] shorter[k]) by {
                assert(shorter[k] == path[k]);
            }
            assert forall|k: int| 0 <= k < shorter.len() - 1 implies self.spreads(#[trigger] shorter[k])
                && shorter[k].adjacent(shorter[k + 1]) by {
                assert(shorter[k] == path[k]);
                assert(shorter[k + 1] == path[k + 1]);
            }
            assert(self.trail(shorter));
            assert(shorter[0] == seeds[i]);
            assert(self.cascades(seeds[i], mid));
            assert(self.spreads(path[path.len() - 2]) && path[path.len() - 2].adjacent(
                path[path.len() - 2 + 1],
            ));
            assert(mid.adjacent(to) && self.reached(seeds, mid) && self.spreads(mid));
        }
    }

    /// Once a cascade has reached a cell on a trail, it reaches every cell
    /// further along.
    proof fn lemma_reached_along(&self, seeds: Seq<Pos>, path: Seq<Pos>, k: int, j: int)
        requires
            self.trail(path),
            0 <= k <= j < path.len(),
            self.reached(seeds, path[k]),
        ensures
            self.reached(seeds, path[j]),
        decreases j - k,
    {
        if k < j {
            self.lemma_reached_along(seeds, path, k, j - 1);
            assert(self.spreads(path[j - 1]) && path[j - 1].adjacent(path[j - 1 + 1]));
            self.lemma_reached_step(seeds, path[j - 1], path[j]);
        }
    }

    /// Disclosing some seeds and then some more gives the board that
    /// disclosing all of them at once gives.
    pub proof fn lemma_disclosed_in_turn(&self, first: Seq<Pos>, then: Seq<Pos>, mid: Board, end: Board)
        requires
            self.wf(),
            mid.height == self.height,
            mid.width == self.width,
            mid@ == self.disclosed(first),
            end@ == mid.disclosed(then),
        ensures
            end@ == self.disclosed(first + then),
    {
        let all = first + then;
        self.lemma_disclosed_mines(first, mid);
        assert forall|p: Pos| self.in_bounds(p) implies #[trigger] mid.cell(p) == (if self.reached(
            first,
            p,
        ) {
            CellKind::Open { neighbor_mines: self.mine_neighbors(p) as u8 }
        } else {
            self.cell(p)
        }) by {}
        assert forall|p: Pos| #[trigger] mid.fresh(p) <==> self.fresh(p) && !self.reached(first, p) by {
            if self.in_bounds(p) {
                assert(mid.cell(p) == (if self.reached(first, p) {
                    CellKind::Open { neighbor_mines: self.mine_neighbors(p) as u8 }
                } else {
                    self.cell(p)
                }));
            }
        }
        assert forall|p: Pos| #[trigger] mid.mine_neighbors(p) == self.mine_neighbors(p) by {
            mid.lemma_mine_neighbors_frame(*self, p);
        }
        assert forall|p: Pos| self.in_bounds(p) implies (self.reached(all, p) <==> self.reached(first, p)
            || mid.reached(then, p)) by {
            if self.reached(first, p) {
                let i = choose|i: int| 0 <= i < first.len() && #[trigger] self.cascades(first[i], p);
                assert(all[i] == first[i]);
                assert(self.cascades(all[i], p));
            }
            if mid.reached(then, p) {
                let i = choose|i: int| 0 <= i < then.len() && #[trigger] mid.cascades(then[i], p);
                let path = choose|path: Seq<Pos>| #[trigger]
                    mid.trail(path) && path[0] == then[i] && path.last() == p;
                assert forall|k: int| 0 <= k < path.len() implies self.fresh(#[trigger] path[k]) by {
                    assert(mid.fresh(path[k]));
                }
                assert forall|k: int| 0 <= k < path.len() - 1 implies self.spreads(#[trigger] path[k])
                    && path[k].adjacent(path[k + 1]) by {
                    assert(mid.spreads(path[k]));
                    assert(mid.fresh(path[k]));
                    assert(mid.mine_neighbors(path[k]) == self.mine_neighbors(path[k]));
                }
                assert(self.trail(path));
                assert(all[first.len() + i] == then[i]);
                assert(self.cascades(all[first.len() + i], p));
            }
            if self.reached(all, p) && !self.reached(first, p) {
                let i = choose|i: int| 0 <= i < all.len() && #[trigger] self.cascades(all[i], p);
                let path = choose|path: Seq<Pos>| #[trigger]
                    self.trail(path) && path[0] == all[i] && path.last() == p;
                assert forall|k: int| 0 <= k < path.len() implies !self.reached(
                    first,
                    #[trigger] path[k],
                ) by {
                    if self.reached(first, path[k]) {
                        self.lemma_reached_along(first, path, k, path.len() - 1);
                    }
                }
                if i < first.len() {
                    assert(all[i] == first[i]);
                    assert(self.fresh(path[0]));
                    self.lemma_reached_seed(first, i);
                    assert(false);
                }
                let n = i - first.len();
                assert(all[i] == then[n]);
                assert forall|k: int| 0 <= k < path.len() implies mid.fresh(#[trigger] path[k]) by {
                    assert(self.fresh(path[k]));
                }
                assert forall|k: int| 0 <= k < path.len() - 1 implies mid.spreads(#[trigger] path[k])
                    && path[k].adjacent(path[k + 1]) by {
                    assert(self.spreads(path[k]));
                    assert(mid.fresh(path[k]));
                    assert(mid.mine_neighbors(path[k]) == self.mine_neighbors(path[k]));
                }
                assert(mid.trail(path));
                assert(mid.cascades(then[n], p));
            }
        }
        let goal = self.disclosed(all);
        assert(end@.len() == goal.len());
        assert forall|i: int| 0 <= i < end@.len() implies #[trigger] end@[i] =~= goal[i] by {
            assert(end@[i].len() == goal[i].len());
            assert forall|j: int| 0 <= j < end@[i].len() implies end@[i][j] == goal[i][j] by {
                let p = Pos { row: i as u8, col: j as u8 };
                assert(self.in_bounds(p));
                assert(mid.cell(p) == (if self.reached(first, p) {
                    CellKind::Open { neighbor_mines: self.mine_neighbors(p) as u8 }
                } else {
                    self.cell(p)
                }));
                assert(mid.mine_neighbors(p) == self.mine_neighbors(p));
                assert(self.reached(all, p) <==> self.reached(first, p) || mid.reached(then, p));
                if mid.reached(then, p) {
                    mid.lemma_reached_fresh(then, p);
                }
            }
        }
        assert(end@ =~= goal);
    }

    /// A disclosure leaves every cell as it was that is open, flagged or
    /// holds a mine.
    pub proof fn lemma_disclosed_keeps(&self, seeds: Seq<Pos>, after: Board, p: Pos)
        requires
            after.height == self.height,
            after.width == self.width,
            after@ == self.disclosed(seeds),
            self.in_bounds(p),
            !self.fresh(p),
        ensures
            after.cell(p) == self.cell(p),
    {
        if self.reached(seeds, p) {
            self.lemma_reached_fresh(seeds, p);
        }
    }

    /// Discloses `seeds`: opens every cell that a cascade from one of them
    /// reaches, each with the number of mines around it, and leaves every
    /// other cell as it was.
    pub fn disclose(&mut self, seeds: Vec<Pos>)
        requires
            old(self).wf(),
        ensures
            final(self).wf(),
            final(self).height == old(self).height,
            final(self).width == old(self).width,
            final(self)@ == old(self).disclosed(seeds@),
    {
        let ghost start = *self;
        let ghost origin = seeds@;
        let mut work = seeds;
        proof {
            start.lemma_flood_start(origin);
        }
        while work.len() > 0
            invariant
                start.flooding(origin, *self, work@),
            decreases self.fresh_cells().len(), work@.len(),
        {
            let ghost before = *self;
            let ghost pending = work@;
            let pos = work.pop().unwrap();
            let fresh = match self.get(pos) {
                Some(CellKind::Closed { flagged }) => !*flagged,
                _ => false,
            };
            if fresh {
                let count = self.mines_around(pos);
                let _ = self.set(pos, CellKind::new_open(count));
                self.open_empty_neighbors(pos, count, &mut work);
                proof {
                    start.lemma_flood_open(origin, before, pending, *self);
                    lemma_positions_finite(before.fresh_cells());
                    assert(before.fresh_cells().contains(pos));
                    assert(self.neighbors(pos) =~= start.neighbors(pos));
                }
            } else {
                proof {
                    start.lemma_flood_skip(origin, before, pending);
                }
            }
        }
        proof {
            assert(work@ =~= Seq::empty());
            start.lemma_flood_done(origin, *self);
        }
    }
}

} // verus!
