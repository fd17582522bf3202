use vstd::prelude::*;
use crate::configuration::{Configuration, Move};
use crate::lattice::lemma_floor_unique;
use crate::stack::{above, ahead, behind, below, left, right};
use crate::vector3::Site;

verus! {

impl Configuration {
    /// The point at the distance `t` from the corner on the axis of the
    /// smaller shift.
    spec fn on_axis(self, t: int) -> Site {
        if self.lattice.along_y() {
            (t, 0, 0)
        } else {
            (0, t, 0)
        }
    }

    /// All that a tiling holds is normalized: every candidate is the
    /// representative of its class, and so is every stored column.
    pub proof fn lemma_state_normalized(self)
        requires
            self.inv(),
        ensures
            forall|p: Site| #[trigger] self.addable.contains(p) ==> self.normalize(p) == p,
            forall|p: Site| #[trigger] self.removable.contains(p) ==> self.normalize(p) == p,
            forall|c: (int, int)| #[trigger]
                self.heights.contains_key(c) ==> self.lattice.normalize2(c) == c,
    {
    }

    /// The candidates are what the predicates say: the representative of a
    /// point is a candidate for adding exactly where a box can be put at the
    /// point, and a candidate for removal exactly where the box at the point
    /// can be taken away. Excluded are the periods under which every point
    /// is a wall, where the corner stays a candidate though no box can be
    /// put.
    pub proof fn lemma_candidates_match(self, p: Site)
        requires
            self.inv(),
            !self.lattice.degenerate(),
        ensures
            self.addable.contains(self.normalize(p)) <==> self.can_add(p),
            self.removable.contains(self.normalize(p)) <==> self.can_remove(p),
    {
        self.lattice.lemma_normalize_idempotent(p);
        self.lattice.lemma_candidate_by_class(self.heights, p, self.normalize(p));
    }

    /// A candidate for removal is a box that can be taken away, under any
    /// periods.
    pub proof fn lemma_candidates_match_removable(self, p: Site)
        requires
            self.inv(),
            self.removable.contains(p),
        ensures
            !self.lattice.degenerate(),
            self.can_remove(p),
    {
    }

    /// At no point can a box both be put and be taken away.
    pub proof fn lemma_candidates_exclusive(self, p: Site)
        ensures
            !(self.can_add(p) && self.can_remove(p)),
    {
    }

    /// Putting a box at `p` and taking the box at the representative of `p`
    /// away restores the heights and both sets of candidates. Excluded are
    /// the points whose box can be taken away at the start: there no box is
    /// put, and the second step takes one.
    pub proof fn lemma_add_then_remove(self, p: Site)
        requires
            self.inv(),
            !self.can_remove(p),
        ensures
            self.add_box(p).remove_box(self.normalize(p)).heights =~= self.heights,
            self.add_box(p).remove_box(self.normalize(p)).addable =~= self.addable,
            self.add_box(p).remove_box(self.normalize(p)).removable =~= self.removable,
            self.add_box(p).remove_box(self.normalize(p)) == self,
    {
        let n = self.normalize(p);
        let mid = self.add_box(p);
        let end = mid.remove_box(n);
        self.lattice.lemma_normalize_idempotent(p);
        self.lattice.lemma_candidate_by_class(self.heights, p, n);
        if self.can_add(p) {
            self.lemma_add_box_inv(p);
            mid.lemma_remove_box_inv(n);
            self.lattice.lemma_addable_on_top(self.heights, p);
            self.lattice.lemma_unit_step_leaves_class(left(p), (1, 0, 0));
            self.lattice.lemma_unit_step_leaves_class(behind(p), (0, 1, 0));
            self.lattice.lemma_unit_step_leaves_class(below(p), (0, 0, 1));
            assert(right(left(p)) == p && ahead(behind(p)) == p && above(below(p)) == p);
            assert(mid.removable.contains(n));
            assert(mid.can_remove(n));
            assert(end.heights =~= self.heights);
            assert forall|q: Site| end.addable.contains(q) <==> self.addable.contains(q) by {
                if end.addable.contains(q) || self.addable.contains(q) {
                    assert(self.lattice.normalized(q));
                    assert(end.can_add(q) == self.can_add(q));
                }
            }
            assert forall|q: Site| end.removable.contains(q) <==> self.removable.contains(q) by {
                if end.removable.contains(q) || self.removable.contains(q) {
                    assert(self.lattice.normalized(q));
                    assert(end.can_remove(q) == self.can_remove(q));
                }
            }
            assert(end.addable =~= self.addable);
            assert(end.removable =~= self.removable);
            assert(end.lattice == self.lattice);
            assert(end.draw_distance == self.draw_distance);
        } else {
            assert(mid == self);
            assert(!self.can_remove(n));
        }
    }

    /// Whatever moves are made, in whatever order and at whatever points,
    /// the invariant holds after them.
    pub proof fn lemma_run_inv(self, moves: Seq<Move>)
        requires
            self.inv(),
        ensures
            self.run(moves).inv(),
        decreases moves.len(),
    {
        if moves.len() > 0 {
            self.lemma_run_inv(moves.drop_last());
            let before = self.run(moves.drop_last());
            match moves.last() {
                Move::Add(p) => before.lemma_add_box_inv(p),
                Move::Remove(p) => before.lemma_remove_box_inv(p),
            }
        }
    }

    /// Making one more move after a run is a run that is one move longer.
    pub proof fn lemma_run_push(self, moves: Seq<Move>, m: Move)
        ensures
            self.run(moves.push(m)) == self.run(moves).apply(m),
            self.draws(moves.push(m)) == (self.draws(moves) && self.run(moves).offers(m)),
    {
        assert(moves.push(m).drop_last() =~= moves);
    }

    /// Where the points of the axis from the corner up to `t` hold boxes and
    /// the point at `t` holds none, a box can be put there.
    proof fn lemma_gap_is_candidate(self, t: int)
        requires
            self.inv(),
            !self.lattice.degenerate(),
            0 <= t,
            t > 0 ==> self.is_box(self.on_axis(t - 1)),
            !self.is_box(self.on_axis(t)),
        ensures
            self.lattice.normalized(self.on_axis(t)),
            self.can_add(self.on_axis(t)),
    {
        let l = self.lattice;
        let g = self.on_axis(t);
        if l.periodic() {
            l.lemma_domain_is_normalized(g);
            l.lemma_normalize_vertical(g, -1);
            lemma_floor_unique(0, l.z_height, 0);
            let span = if l.along_y() {
                l.y_shift
            } else {
                l.x_shift
            };
            lemma_floor_unique(-1, span, -1);
            assert((-1) * l.x_shift == -l.x_shift) by (nonlinear_arith);
            assert((-1) * l.y_shift == -l.y_shift) by (nonlinear_arith);
            assert((-1) * l.z_height == -l.z_height) by (nonlinear_arith);
            assert((-0int) * l.x_shift == 0) by (nonlinear_arith);
            assert((-0int) * l.y_shift == 0) by (nonlinear_arith);
            if l.along_y() {
                l.lemma_domain_is_normalized(left(g));
                assert(l.normalize(behind(g)) == (t + l.x_shift, span - 1, -l.z_height));
            } else {
                l.lemma_domain_is_normalized(behind(g));
                assert(l.normalize(left(g)) == (span - 1, t + l.y_shift, -l.z_height));
            }
        }
    }

    /// From `t` on, the axis holds a point where a box can be put, if all
    /// points before `t` hold boxes.
    proof fn lemma_axis_has_candidate(self, t: int) -> (g: int)
        requires
            self.inv(),
            self.representable(),
            !self.lattice.degenerate(),
            0 <= t <= 0x8000_0000,
            t > 0 ==> self.is_box(self.on_axis(t - 1)),
        ensures
            self.addable.contains(self.on_axis(g)),
        decreases 0x8000_0000 - t,
    {
        let p = self.on_axis(t);
        if self.is_box(p) {
            self.lattice.lemma_box_is_stored(self.heights, p);
            if self.lattice.periodic() {
                self.lattice.lemma_domain_is_normalized(p);
            }
            self.lemma_axis_has_candidate(t + 1)
        } else {
            self.lemma_gap_is_candidate(t);
            t
        }
    }

    /// There is always a place where a box can be put: the set of
    /// candidates for adding is never empty.
    pub proof fn lemma_addable_nonempty(self)
        requires
            self.inv(),
            self.representable(),
        ensures
            exists|p: Site| self.addable.contains(p),
            !self.addable.is_empty(),
    {
        if self.lattice.degenerate() {
            assert(self.addable.contains((0int, 0int, 0int)));
        } else {
            let g = self.lemma_axis_has_candidate(0);
            assert(self.addable.contains(self.on_axis(g)));
        }
    }
}

} // verus!
