use crate::cell::Cell;
use crate::world::{World, render_text};
use vstd::prelude::*;

verus! {

/// The index a pending transition targets: the row-major index of its
/// recorded position.
pub open spec fn change_index(w: World, ch: (Cell, u32, u32)) -> int {
    w.spec_index_of(ch.1 as int, ch.2 as int)
}

/// A pending transition is sound for a world snapshot: its position is in
/// bounds, its new state is what the rule assigns that position judged
/// against the snapshot, and it is an actual change of state.
pub open spec fn change_ok(w: World, ch: (Cell, u32, u32)) -> bool {
    &&& ch.1 < w.height
    &&& ch.2 < w.width
    &&& ch.0 == w.next_cell(change_index(w, ch))
    &&& ch.0 != w.cells@[change_index(w, ch)]
}

/// Some not-yet-applied transition (at list position `from` or later)
/// targets index `i`.
pub open spec fn has_pending(w: World, chs: Seq<(Cell, u32, u32)>, from: int, i: int) -> bool {
    exists|j: int| from <= j < chs.len() && change_index(w, #[trigger] chs[j]) == i
}

/// The game of life instance: a world together with a generation counter.
#[derive(Clone, Debug, PartialEq, Eq)]
pub struct Game {
    pub turn: u32,
    pub world: World,
}

impl Game {
    /// Instantiates a new `Game` at generation zero with every cell dead.
    pub fn new(width: u32, height: u32) -> (r: Game)
        requires
            width >= 1,
            height >= 1,
            width * height <= u32::MAX,
        ensures
            r.turn == 0,
            r.world.wf(),
            r.world.width == width,
            r.world.height == height,
            forall|i: int| 0 <= i < r.world.cells@.len() ==> r.world.cells@[i] is Dead,
    {
        Game { turn: 0, world: World::new(width, height) }
    }

    /// Convert neighbour indexes to the cells stored there.
    fn neighbours_to_cell(&self, neighbours: [usize; 8]) -> (r: Vec<Cell>)
        requires
            forall|k: int| 0 <= k < 8 ==> (neighbours@[k] as int) < self.world.cells@.len(),
        ensures
            r@.len() == 8,
            forall|k: int| 0 <= k < 8 ==> r@[k] == self.world.cells@[neighbours@[k] as int],
    {
        let mut r: Vec<Cell> = Vec::new();
        let mut k: usize = 0;
        while k < 8
            invariant
                forall|j: int| 0 <= j < 8 ==> (neighbours@[j] as int) < self.world.cells@.len(),
                k <= 8,
                r@.len() == k,
                forall|j: int| 0 <= j < k ==> r@[j] == self.world.cells@[neighbours@[j] as int],
            decreases 8 - k,
        {
            let idx = neighbours[k];
            r.push(self.world.cells[idx]);
            k = k + 1;
        }
        r
    }

    /// Play turn: advance the world by exactly one generation and count it.
    ///
    /// Every transition is judged against the world as it stood when the
    /// call began; the recorded transitions are applied only after the whole
    /// world has been scanned, so no decision ever observes a state already
    /// mutated within the same call.
    #[verifier::loop_isolation(false)]
    #[verifier::rlimit(100)]
    pub fn tick(&mut self)
        requires
            old(self).world.wf(),
        ensures
            final(self).world.wf(),
            final(self).world.width == old(self).world.width,
            final(self).world.height == old(self).world.height,
            final(self).world.cells@.len() == old(self).world.cells@.len(),
            forall|i: int|
                0 <= i < old(self).world.cells@.len() ==> final(self).world.cells@[i] == old(
                    self,
                ).world.next_cell(i),
            old(self).turn < u32::MAX ==> final(self).turn == old(self).turn + 1,
            old(self).turn == u32::MAX ==> final(self).turn == 0,
    {
        self.turn = self.turn.wrapping_add(1);
        let ghost turn_now = self.turn;
        let ghost g = self.world;
        let mut changes: Vec<(Cell, u32, u32)> = Vec::new();

        // iterate current alive cells
        let alive = self.world.alive_cells();
        let mut p: usize = 0;
        while p < alive.len()
            invariant
                p <= alive@.len(),
                forall|j: int| 0 <= j < changes@.len() ==> change_ok(g, #[trigger] changes@[j]),
                forall|j: int|
                    0 <= j < changes@.len() ==> exists|q: int|
                        0 <= q < p && change_index(g, #[trigger] changes@[j]) == alive@[q],
                forall|j1: int, j2: int|
                    0 <= j1 < j2 < changes@.len() ==> change_index(g, changes@[j1]) != change_index(
                        g,
                        changes@[j2],
                    ),
                forall|q: int|
                    0 <= q < p && g.next_cell(#[trigger] alive@[q] as int) != g.cells@[alive@[q] as int]
                        ==> has_pending(g, changes@, 0, alive@[q] as int),
            decreases alive@.len() - p,
        {
            let idx = alive[p];
            let (row, column) = self.world.row_and_column(idx);
            let ns = self.world.neighbours(row, column);
            let neighbour_cells = self.neighbours_to_cell(ns);
            proof {
                assert(neighbour_cells@ =~= g.neighbour_cells(row as int, column as int));
            }
            let alive_neighbours = crate::world::count_alive_in(&neighbour_cells);
            let ghost chs0 = changes@;
            if !(2 <= alive_neighbours && alive_neighbours <= 3) {
                changes.push((Cell::Dead, row, column));
                proof {
                    assert(change_index(g, changes@[chs0.len() as int]) == idx);
                    assert forall|j: int| 0 <= j < changes@.len() implies exists|q: int|
                        0 <= q < p + 1 && change_index(g, #[trigger] changes@[j]) == alive@[q] by {
                        if j < chs0.len() {
                            let q = choose|q: int|
                                0 <= q < p && change_index(g, chs0[j]) == alive@[q];
                            assert(change_index(g, changes@[j]) == alive@[q]);
                        } else {
                            assert(change_index(g, changes@[j]) == alive@[p as int]);
                        }
                    }
                    assert forall|j1: int, j2: int|
                        0 <= j1 < j2 < changes@.len() implies change_index(g, changes@[j1])
                        != change_index(g, changes@[j2]) by {
                        if j2 < chs0.len() {
                        } else {
                            let q = choose|q: int|
                                0 <= q < p && change_index(g, chs0[j1]) == alive@[q];
                            assert(alive@[q] < alive@[p as int]);
                        }
                    }
                    assert forall|q: int|
                        0 <= q < p + 1 && g.next_cell(#[trigger] alive@[q] as int)
                            != g.cells@[alive@[q] as int] implies has_pending(
                        g,
                        changes@,
                        0,
                        alive@[q] as int,
                    ) by {
                        if q < p {
                            let j = choose|j: int|
                                0 <= j < chs0.len() && change_index(g, chs0[j]) == alive@[q] as int;
                            assert(change_index(g, changes@[j]) == alive@[q] as int);
                        } else {
                            assert(change_index(g, changes@[chs0.len() as int]) == alive@[q] as int);
                        }
                    }
                }
            } else {
                proof {
                    assert(g.next_cell(idx as int) == g.cells@[idx as int]);
                }
            }
            p = p + 1;
        }

        // iterate current dead cells
        let dead = self.world.dead_cells();
        let mut d: usize = 0;
        while d < dead.len()
            invariant
                d <= dead@.len(),
                forall|j: int| 0 <= j < changes@.len() ==> change_ok(g, #[trigger] changes@[j]),
                forall|j: int|
                    0 <= j < changes@.len() ==> g.cells@[change_index(
                        g,
                        #[trigger] changes@[j],
                    )] is Alive || exists|q: int|
                        0 <= q < d && change_index(g, changes@[j]) == dead@[q],
                forall|j1: int, j2: int|
                    0 <= j1 < j2 < changes@.len() ==> change_index(g, changes@[j1]) != change_index(
                        g,
                        changes@[j2],
                    ),
                forall|q: int|
                    0 <= q < alive@.len() && g.next_cell(#[trigger] alive@[q] as int)
                        != g.cells@[alive@[q] as int] ==> has_pending(g, changes@, 0, alive@[q] as int),
                forall|q: int|
                    0 <= q < d && g.next_cell(#[trigger] dead@[q] as int) != g.cells@[dead@[q] as int]
                        ==> has_pending(g, changes@, 0, dead@[q] as int),
            decreases dead@.len() - d,
        {
            let idx = dead[d];
            let (row, column) = self.world.row_and_column(idx);
            let ns = self.world.neighbours(row, column);
            let neighbour_cells = self.neighbours_to_cell(ns);
            proof {
                assert(neighbour_cells@ =~= g.neighbour_cells(row as int, column as int));
            }
            let alive_neighbours = crate::world::count_alive_in(&neighbour_cells);
            let ghost chs0 = changes@;
            if alive_neighbours == 3 {
                changes.push((Cell::Alive, row, column));
                proof {
                    assert(change_index(g, changes@[chs0.len() as int]) == idx);
                    assert forall|j: int| 0 <= j < changes@.len() implies g.cells@[change_index(
                        g,
                        #[trigger] changes@[j],
                    )] is Alive || exists|q: int|
                        0 <= q < d + 1 && change_index(g, changes@[j]) == dead@[q] by {
                        if j < chs0.len() {
                            if !(g.cells@[change_index(g, chs0[j])] is Alive) {
                                let q = choose|q: int|
                                    0 <= q < d && change_index(g, chs0[j]) == dead@[q];
                                assert(change_index(g, changes@[j]) == dead@[q]);
                            }
                        } else {
                            assert(change_index(g, changes@[j]) == dead@[d as int]);
                        }
                    }
                    assert forall|j1: int, j2: int|
                        0 <= j1 < j2 < changes@.len() implies change_index(g, changes@[j1])
                        != change_index(g, changes@[j2]) by {
                        if j2 < chs0.len() {
                        } else {
                            assert(change_index(g, changes@[j2]) == dead@[d as int]);
                            assert(g.cells@[dead@[d as int] as int] is Dead);
                            if !(g.cells@[change_index(g, chs0[j1])] is Alive) {
                                let q = choose|q: int|
                                    0 <= q < d && change_index(g, chs0[j1]) == dead@[q];
                                assert(dead@[q] < dead@[d as int]);
                            }
                        }
                    }
                    assert forall|q: int|
                        0 <= q < alive@.len() && g.next_cell(#[trigger] alive@[q] as int)
                            != g.cells@[alive@[q] as int] implies has_pending(
                        g,
                        changes@,
                        0,
                        alive@[q] as int,
                    ) by {
                        let j = choose|j: int|
                            0 <= j < chs0.len() && change_index(g, chs0[j]) == alive@[q] as int;
                        assert(change_index(g, changes@[j]) == alive@[q] as int);
                    }
                    assert forall|q: int|
                        0 <= q < d + 1 && g.next_cell(#[trigger] dead@[q] as int)
                            != g.cells@[dead@[q] as int] implies has_pending(
                        g,
                        changes@,
                        0,
                        dead@[q] as int,
                    ) by {
                        if q < d {
                            let j = choose|j: int|
                                0 <= j < chs0.len() && change_index(g, chs0[j]) == dead@[q] as int;
                            assert(change_index(g, changes@[j]) == dead@[q] as int);
                        } else {
                            assert(change_index(g, changes@[chs0.len() as int]) == dead@[q] as int);
                        }
                    }
                }
            } else {
                proof {
                    assert(g.next_cell(idx as int) == g.cells@[idx as int]);
                }
            }
            d = d + 1;
        }

        proof {
            assert forall|i: int|
                0 <= i < g.cells@.len() && g.next_cell(i) != g.cells@[i] implies has_pending(
                g,
                changes@,
                0,
                i,
            ) by {
                if g.cells@[i] is Alive {
                    let q = choose|q: int| 0 <= q < alive@.len() && alive@[q] == i;
                    assert(g.next_cell(alive@[q] as int) != g.cells@[alive@[q] as int]);
                } else {
                    let q = choose|q: int| 0 <= q < dead@.len() && dead@[q] == i;
                    assert(g.next_cell(dead@[q] as int) != g.cells@[dead@[q] as int]);
                }
            }
        }

        // put alive and dead
        let ghost chs = changes@;
        let mut m: usize = 0;
        while m < changes.len()
            invariant
                m <= chs.len(),
                self.turn == turn_now,
                self.world.wf(),
                self.world.width == g.width,
                self.world.height == g.height,
                self.world.cells@.len() == g.cells@.len(),
                forall|i: int|
                    0 <= i < g.cells@.len() && has_pending(g, chs, m as int, i)
                        ==> self.world.cells@[i] == g.cells@[i],
                forall|i: int|
                    0 <= i < g.cells@.len() && !has_pending(g, chs, m as int, i)
                        ==> self.world.cells@[i] == g.next_cell(i),
            decreases chs.len() - m,
        {
            let (state, row, column) = changes[m];
            let ghost before = self.world.cells@;
            let ghost target = change_index(g, chs[m as int]);
            proof {
                crate::world::lemma_index_roundtrip(g, row as int, column as int);
            }
            self.world.write_cell(state, row, column);
            proof {
                assert(self.world.cells@ == before.update(target, state));
                assert forall|i: int|
                    0 <= i < g.cells@.len() && has_pending(g, chs, m + 1, i)
                        implies self.world.cells@[i] == g.cells@[i] by {
                    let j = choose|j: int|
                        m + 1 <= j < chs.len() && change_index(g, chs[j]) == i;
                    assert(change_index(g, chs[j]) != target);
                    assert(has_pending(g, chs, m as int, i));
                }
                assert forall|i: int|
                    0 <= i < g.cells@.len() && !has_pending(g, chs, m + 1, i)
                        implies self.world.cells@[i] == g.next_cell(i) by {
                    if i == target {
                        assert(self.world.cells@[i] == state);
                        assert(state == g.next_cell(target));
                    } else {
                        if has_pending(g, chs, m as int, i) {
                            let j = choose|j: int|
                                m <= j < chs.len() && change_index(g, chs[j]) == i;
                            assert(j == m);
                            assert(false);
                        }
                    }
                }
            }
            m = m + 1;
        }
    }

    /// Render world.
    pub fn render(&self) -> (r: String)
        requires
            self.world.wf(),
        ensures
            r@ == render_text(self.world.cells@, self.world.width as int, self.world.height as int),
    {
        self.world.render()
    }
}

} // verus!
