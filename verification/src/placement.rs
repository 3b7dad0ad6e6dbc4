//! Placing the mines: which cells may get one, and the random choice among
//! them.

use rand::Rng;
use vstd::prelude::*;
use crate::board::{lemma_positions_finite, put, Board};
use crate::cell::CellKind;
use crate::game::{GameState, Minesweeper};
use crate::pos::Pos;

verus! {

/// Draws an index below `len` with `rand::Rng::gen_range` on the range
/// `0..len`, from the generator that `rand::thread_rng` hands out.
/// `gen_range` panics on an empty range, so `len` must not be zero. Nothing
/// is claimed of the index drawn but that it lies in the range: two draws
/// from one range may differ. The generator itself panics if the operating
/// system gives it no seed.
#[verifier::external_body]
fn random_index(len: usize) -> (index: usize)
    requires
        len > 0,
    ensures
        index < len,
{
    rand::thread_rng().gen_range(0..len)
}

/// Taking one element out of a sequence without duplicates leaves a
/// sequence without duplicates that holds the other elements and no more.
proof fn lemma_remove_distinct<A>(s: Seq<A>, i: int)
    requires
        0 <= i < s.len(),
        s.no_duplicates(),
    ensures
        s.remove(i).len() == s.len() - 1,
        s.remove(i).no_duplicates(),
        !s.remove(i).contains(s[i]),
        forall|j: int| 0 <= j < s.remove(i).len() ==> s.contains(#[trigger] s.remove(i)[j]),
{
    let t = s.remove(i);
    s.remove_ensures(i);
    assert forall|j: int| 0 <= j < t.len() implies s.contains(#[trigger] t[j]) && t[j] != s[i] by {
        if j < i {
            assert(t[j] == s[j]);
        } else {
            assert(t[j] == s[j + 1]);
        }
    }
    assert forall|a: int, b: int| 0 <= a < t.len() && 0 <= b < t.len() && a != b implies t[a]
        != t[b] by {
        let a0 = if a < i {
            a
        } else {
            a + 1
        };
        let b0 = if b < i {
            b
        } else {
            b + 1
        };
        assert(t[a] == s[a0]);
        assert(t[b] == s[b0]);
    }
}

impl Board {
    /// Whether a mine may be placed at `p` when the first disclosure is at
    /// `start_pos`: the position is on the board and is not `start_pos`.
    pub open spec fn may_hold_mine(&self, start_pos: Option<Pos>, p: Pos) -> bool {
        self.in_bounds(p) && start_pos != Some(p)
    }

    /// The number of cells that may get a mine.
    pub open spec fn free_count(&self, start_pos: Option<Pos>) -> int {
        self.height * self.width - (if start_pos is Some && self.in_bounds(start_pos->0) {
            1int
        } else {
            0int
        })
    }

    /// Whether `chosen` is a choice of `count` cells that may get a mine.
    pub open spec fn may_plant(&self, start_pos: Option<Pos>, count: nat, chosen: Set<Pos>) -> bool {
        &&& chosen.finite()
        &&& chosen.len() == count
        &&& forall|p: Pos| chosen.contains(p) ==> self.may_hold_mine(start_pos, p)
    }

    /// Whether `after` is `self` with a mine without a flag in each cell of
    /// `chosen` and every other cell as it was.
    pub open spec fn planted(&self, chosen: Set<Pos>, after: Board) -> bool {
        &&& after.wf()
        &&& after.height == self.height
        &&& after.width == self.width
        &&& forall|p: Pos|
            self.in_bounds(p) ==> #[trigger] after.cell(p) == (if chosen.contains(p) {
                CellKind::Mine { flagged: false }
            } else {
                self.cell(p)
            })
    }

    /// After mines are placed, the mines on the board are those that were
    /// there and those that were placed.
    pub proof fn lemma_planted_mines(&self, start_pos: Option<Pos>, count: nat, chosen: Set<Pos>, after: Board)
        requires
            self.may_plant(start_pos, count, chosen),
            self.planted(chosen, after),
        ensures
            after.mines() == self.mines().union(chosen),
            self.mines().is_empty() ==> after.mines().len() == count,
    {
        assert forall|p: Pos| after.mines().contains(p) <==> self.mines().union(chosen).contains(p) by {
            if self.in_bounds(p) {
                assert(after.cell(p) == (if chosen.contains(p) {
                    CellKind::Mine { flagged: false }
                } else {
                    self.cell(p)
                }));
            }
        }
        assert(after.mines() =~= self.mines().union(chosen));
        if self.mines().is_empty() {
            assert(after.mines() =~= chosen);
        }
    }

    /// The positions that may get a mine, in the order of `positions`.
    pub fn allowable_mine_pos(&self, start_pos: Option<Pos>) -> (r: Vec<Pos>)
        ensures
            r@.no_duplicates(),
            forall|p: Pos| #[trigger] r@.contains(p) <==> self.may_hold_mine(start_pos, p),
            r@.len() == self.free_count(start_pos),
    {
        let all = self.iter_pos();
        let mut out: Vec<Pos> = Vec::new();
        let mut i: usize = 0;
        proof {
            self.lemma_positions();
        }
        while i < all.len()
            invariant
                all@ == self.positions(),
                i <= all@.len(),
                forall|j: int|
                    0 <= j < out@.len() ==> self.may_hold_mine(start_pos, #[trigger] out@[j])
                        && self.index_of(out@[j]) < i,
                forall|a: int, b: int|
                    0 <= a < b < out@.len() ==> self.index_of(#[trigger] out@[a]) < self.index_of(
                        #[trigger] out@[b],
                    ),
                forall|k: int|
                    0 <= k < i && self.may_hold_mine(start_pos, #[trigger] all@[k]) ==> out@.contains(
                        all@[k],
                    ),
                out@.len() == i - (if start_pos is Some && self.in_bounds(start_pos->0)
                    && self.index_of(start_pos->0) < i {
                    1int
                } else {
                    0int
                }),
            decreases all@.len() - i,
        {
            let pos = all[i];
            let keep = match start_pos {
                Some(start) => start != pos,
                None => true,
            };
            proof {
                self.lemma_positions();
                assert(self.index_of(all@[i as int]) == i);
            }
            let ghost before = out@;
            if keep {
                out.push(pos);
                proof {
                    assert forall|k: int|
                        0 <= k < i + 1 && self.may_hold_mine(
                            start_pos,
                            #[trigger] all@[k],
                        ) implies out@.contains(all@[k]) by {
                        if k < i {
                            let j = choose|j: int| 0 <= j < before.len() && before[j] == all@[k];
                            assert(out@[j] == all@[k]);
                        } else {
                            assert(out@[before.len() as int] == pos);
                        }
                    }
                }
            }
            i += 1;
        }
        proof {
            self.lemma_positions();
            assert forall|p: Pos| self.may_hold_mine(start_pos, p) implies #[trigger] out@.contains(
                p,
            ) by {
                assert(all@[self.index_of(p)] == p);
            }
        }
        out
    }
}

impl Minesweeper {
    /// Takes the position at `index` out of `candidates` and puts a mine
    /// without a flag there. Says whether the position was on the board; if
    /// it was not, the board is as it was.
    pub fn place_mine(&mut self, candidates: &mut Vec<Pos>, index: usize) -> (placed: bool)
        requires
            index < old(candidates)@.len(),
        ensures
            final(candidates)@ == old(candidates)@.remove(index as int),
            final(self).mine_count == old(self).mine_count,
            final(self).state == old(self).state,
            final(self).board.height == old(self).board.height,
            final(self).board.width == old(self).board.width,
            placed == old(self).board.holds(old(candidates)@[index as int]),
            final(self).board@ == (if placed {
                put(old(self).board@, old(candidates)@[index as int], CellKind::Mine { flagged: false })
            } else {
                old(self).board@
            }),
            old(self).board.wf() ==> final(self).board.wf(),
    {
        let mine_pos = candidates.remove(index);
        self.board.set(mine_pos, CellKind::Mine { flagged: false }).is_ok()
    }

    /// Whether the board has room for the mines when the first disclosure
    /// is at `start_pos`.
    pub fn can_create_mines(&self, start_pos: Option<Pos>) -> (r: bool)
        ensures
            r == (self.mine_count <= self.board.free_count(start_pos)),
    {
        let height = self.board.height;
        let width = self.board.width;
        assert(0 <= height * width <= 255 * 255) by (nonlinear_arith)
            requires
                0 <= height <= 255,
                0 <= width <= 255,
        ;
        let cells: u32 = height as u32 * width as u32;
        let spared: u32 = match start_pos {
            Some(p) => if p.row < height && p.col < width {
                1
            } else {
                0
            },
            None => 0,
        };
        assert(spared == 1 ==> cells >= 1) by (nonlinear_arith)
            requires
                cells == height * width,
                spared == 1 ==> height >= 1 && width >= 1,
        ;
        self.mine_count as u64 <= (cells - spared) as u64
    }

    /// Places `mine_count` mines in distinct cells chosen at random among
    /// those that may get one, which leaves out `start_pos`, and starts the
    /// game. The other cells stay as they were.
    pub fn create_mines(&mut self, start_pos: Option<Pos>)
        requires
            old(self).board.wf(),
            old(self).mine_count <= old(self).board.free_count(start_pos),
        ensures
            final(self).state is Playing,
            final(self).mine_count == old(self).mine_count,
            exists|chosen: Set<Pos>|
                old(self).board.may_plant(start_pos, old(self).mine_count as nat, chosen)
                    && #[trigger] old(self).board.planted(chosen, final(self).board),
            old(self).board.mines().is_empty() ==> final(self).board.mines().len()
                == old(self).mine_count,
            start_pos is Some && old(self).board.in_bounds(start_pos->0) ==> final(self).board.cell(
                start_pos->0,
            ) == old(self).board.cell(start_pos->0),
            start_pos is Some && !old(self).board.mines().contains(start_pos->0)
                ==> !final(self).board.mines().contains(start_pos->0),
            final(self).board.wf(),
            final(self).board.height == old(self).board.height,
            final(self).board.width == old(self).board.width,
    {
        let ghost start = self.board;
        let ghost mut chosen: Set<Pos> = Set::empty();
        let mut allowable_mine_pos = self.board.allowable_mine_pos(start_pos);
        let mut mines_created: usize = 0;
        proof {
            assert forall|j: int| 0 <= j < allowable_mine_pos@.len() implies start.may_hold_mine(
                start_pos,
                #[trigger] allowable_mine_pos@[j],
            ) by {
                assert(allowable_mine_pos@.contains(allowable_mine_pos@[j]));
            }
        }
        while mines_created < self.mine_count
            invariant
                start.wf(),
                mines_created <= self.mine_count,
                self.mine_count == old(self).mine_count,
                self.state == old(self).state,
                allowable_mine_pos@.no_duplicates(),
                forall|j: int|
                    0 <= j < allowable_mine_pos@.len() ==> start.may_hold_mine(
                        start_pos,
                        #[trigger] allowable_mine_pos@[j],
                    ) && !chosen.contains(allowable_mine_pos@[j]),
                allowable_mine_pos@.len() + mines_created == start.free_count(start_pos),
                self.mine_count <= start.free_count(start_pos),
                start.may_plant(start_pos, mines_created as nat, chosen),
                start.planted(chosen, self.board),
            decreases self.mine_count - mines_created,
        {
            let index = random_index(allowable_mine_pos.len());
            let ghost candidates = allowable_mine_pos@;
            let ghost mine_pos = candidates[index as int];
            let ghost before = self.board;
            proof {
                lemma_remove_distinct(candidates, index as int);
            }
            if self.place_mine(&mut allowable_mine_pos, index) {
                proof {
                    chosen = chosen.insert(mine_pos);
                    assert forall|p: Pos| start.in_bounds(p) implies #[trigger] self.board.cell(p) == (
                    if chosen.contains(p) {
                        CellKind::Mine { flagged: false }
                    } else {
                        start.cell(p)
                    }) by {
                        assert(before.cell(p) == (if chosen.remove(mine_pos).contains(p) {
                            CellKind::Mine { flagged: false }
                        } else {
                            start.cell(p)
                        }));
                    }
                    assert forall|j: int| 0 <= j < allowable_mine_pos@.len() implies start.may_hold_mine(
                        start_pos,
                        #[trigger] allowable_mine_pos@[j],
                    ) && !chosen.contains(allowable_mine_pos@[j]) by {
                        let c = allowable_mine_pos@[j];
                        assert(candidates.contains(c));
                        let k = choose|k: int| 0 <= k < candidates.len() && candidates[k] == c;
                        assert(start.may_hold_mine(start_pos, candidates[k]));
                    }
                }
                mines_created += 1;
            }
        }
        self.state = GameState::Playing;
        proof {
            assert(start.planted(chosen, self.board));
            start.lemma_planted_mines(start_pos, mines_created as nat, chosen, self.board);
            if start_pos is Some && start.in_bounds(start_pos->0) {
                assert(!chosen.contains(start_pos->0));
            }
        }
    }
}

} // verus!
