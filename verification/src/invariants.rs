use vstd::prelude::*;
use crate::configuration::Configuration;
use crate::lattice::{lemma_corner, lemma_floor_unique, Lattice};
use crate::stack::{above, ahead, behind, below, left, right};
use crate::vector2::Column;
use crate::vector3::Site;

verus! {

impl Lattice {
    /// In the empty tiling a box can be put at the corner and nowhere else.
    pub proof fn lemma_first_candidate(self, q: Site)
        requires
            self.valid(),
            !self.degenerate(),
            self.normalized(q),
        ensures
            self.can_add(Map::<Column, int>::empty(), q) <==> q == (0int, 0int, 0int),
            !self.is_box(Map::<Column, int>::empty(), q),
    {
        let none = Map::<Column, int>::empty();
        if self.is_box(none, q) {
            self.lemma_box_is_stored(none, q);
        }
        if self.is_box(none, left(q)) {
            self.lemma_box_is_stored(none, left(q));
        }
        if self.is_box(none, behind(q)) {
            self.lemma_box_is_stored(none, behind(q));
        }
        if self.is_box(none, below(q)) {
            self.lemma_box_is_stored(none, below(q));
        }
        if self.periodic() {
            self.lemma_normalize_in_domain(q);
            self.lemma_normalize_vertical(q, -1);
            if self.along_y() {
                let d = self.y_shift;
                lemma_corner(q.0, q.2, self.x_shift, self.z_height);
                self.lemma_domain_is_normalized(left(q));
                if q.1 >= 1 {
                    self.lemma_domain_is_normalized(behind(q));
                } else {
                    lemma_floor_unique(-1, d, -1);
                    assert((-1) * d == -d) by (nonlinear_arith);
                    assert((-1) * self.x_shift == -self.x_shift) by (nonlinear_arith);
                    assert((-1) * self.z_height == -self.z_height) by (nonlinear_arith);
                    assert(self.normalize(behind(q)) == (
                        q.0 + self.x_shift,
                        d - 1,
                        q.2 - self.z_height,
                    ));
                }
            } else {
                let d = self.x_shift;
                lemma_corner(q.1, q.2, self.y_shift, self.z_height);
                self.lemma_domain_is_normalized(behind(q));
                if q.0 >= 1 {
                    self.lemma_domain_is_normalized(left(q));
                } else {
                    lemma_floor_unique(-1, d, -1);
                    assert((-1) * d == -d) by (nonlinear_arith);
                    assert((-1) * self.y_shift == -self.y_shift) by (nonlinear_arith);
                    assert((-1) * self.z_height == -self.z_height) by (nonlinear_arith);
                    assert(self.normalize(left(q)) == (
                        d - 1,
                        q.1 + self.y_shift,
                        q.2 - self.z_height,
                    ));
                }
            }
        }
    }
}

impl Configuration {
    /// The empty tiling satisfies the invariant.
    pub proof fn lemma_initial_inv(lattice: Lattice, draw_distance: (int, int, int))
        requires
            lattice.valid(),
        ensures
            Configuration::initial(lattice, draw_distance).inv(),
    {
        let first = Configuration::initial(lattice, draw_distance);
        if lattice.periodic() {
            lattice.lemma_domain_is_normalized((0, 0, 0));
        }
        assert(first.members_normalized());
        if !lattice.degenerate() {
            assert forall|q: Site| first.lattice.normalized(q) implies (
            #[trigger] first.addable.contains(q) <==> first.can_add(q)) by {
                lattice.lemma_first_candidate(q);
            }
            assert forall|q: Site| first.lattice.normalized(q) implies (
            #[trigger] first.removable.contains(q) <==> first.can_remove(q)) by {
                lattice.lemma_first_candidate(q);
            }
            assert forall|q: Site| #[trigger] first.is_box(q) implies !first.lattice.capped(q)
                && first.is_wall_or_box(left(q)) && first.is_wall_or_box(behind(q))
                && first.is_wall_or_box(below(q)) by {
                lattice.lemma_box_is_stored(first.heights, q);
            }
        }
    }

    /// The invariant does not depend on the window that is drawn.
    pub proof fn lemma_inv_without_window(self, draw_distance: (int, int, int))
        requires
            self.inv(),
        ensures
            (Configuration { draw_distance, ..self }).inv(),
    {
        let other = Configuration { draw_distance, ..self };
        if !self.lattice.degenerate() {
            assert forall|q: Site| other.lattice.normalized(q) implies (
            #[trigger] other.addable.contains(q) <==> other.can_add(q)) by {
                assert(self.addable.contains(q) <==> self.can_add(q));
            }
            assert forall|q: Site| other.lattice.normalized(q) implies (
            #[trigger] other.removable.contains(q) <==> other.can_remove(q)) by {
                assert(self.removable.contains(q) <==> self.can_remove(q));
            }
            assert forall|q: Site| #[trigger] other.is_box(q) implies !other.lattice.capped(q)
                && other.is_wall_or_box(left(q)) && other.is_wall_or_box(behind(q))
                && other.is_wall_or_box(below(q)) by {
                assert(self.is_box(q));
            }
        }
    }

    /// What `add_box` does to the boxes, seen from one place `q`.
    proof fn lemma_grown_at(self, p: Site, q: Site)
        requires
            self.inv(),
            self.can_add(p),
        ensures
            self.raised(p).is_wall(q) == self.is_wall(q),
            self.raised(p).is_box(q) == (self.is_box(q) || self.normalize(q) == self.normalize(p)),
            self.is_wall_or_box(q) ==> self.raised(p).is_wall_or_box(q),
    {
        self.lattice.lemma_boxes_after_raise(self.heights, p, q);
    }

    /// What `remove_box` does to the boxes, seen from one place `q`.
    proof fn lemma_shrunk_at(self, p: Site, q: Site)
        requires
            self.inv(),
            self.can_remove(p),
        ensures
            self.lowered(p).is_wall(q) == self.is_wall(q),
            self.lowered(p).is_box(q) == (self.is_box(q) && self.normalize(q) != self.normalize(
                p,
            )),
            !self.is_wall_or_box(q) ==> !self.lowered(p).is_wall_or_box(q),
    {
        self.lattice.lemma_boxes_after_lower(self.heights, p, q);
    }

    /// A place whose neighbour behind it, in the direction `d`, is of the
    /// class of `p` is of the class of the neighbour of `p` in front.
    proof fn lemma_step_between_classes(self, a: Site, b: Site, d: Site)
        requires
            self.lattice.valid(),
            self.normalize(a) == self.normalize(b),
        ensures
            self.normalize((a.0 + d.0, a.1 + d.1, a.2 + d.2)) == self.normalize(
                (b.0 + d.0, b.1 + d.1, b.2 + d.2),
            ),
    {
        self.lattice.lemma_normalize_offset(a, b, d);
    }

    /// After a box is put at `p`, the representative `q` is a candidate for
    /// adding exactly where a box can be put at it.
    proof fn lemma_add_box_addable(self, p: Site, q: Site)
        requires
            self.inv(),
            self.can_add(p),
            self.lattice.normalized(q),
        ensures
            self.add_box(p).addable.contains(q) <==> self.add_box(p).can_add(q),
    {
        let after = self.add_box(p);
        let grown = self.raised(p);
        let n = self.normalize(p);
        self.lattice.lemma_addable_on_top(self.heights, p);
        self.lattice.lemma_normalize_idempotent(p);
        assert(after.heights == grown.heights);
        assert(after.can_add(q) == grown.can_add(q));
        self.lemma_grown_at(p, q);
        self.lemma_grown_at(p, left(q));
        self.lemma_grown_at(p, behind(q));
        self.lemma_grown_at(p, below(q));
        if self.normalize(right(p)) == q {
            self.lattice.lemma_candidate_by_class(grown.heights, right(p), q);
        }
        if self.normalize(ahead(p)) == q {
            self.lattice.lemma_candidate_by_class(grown.heights, ahead(p), q);
        }
        if self.normalize(above(p)) == q {
            self.lattice.lemma_candidate_by_class(grown.heights, above(p), q);
        }
        if self.normalize(left(q)) == n {
            self.lemma_step_between_classes(left(q), p, (1, 0, 0));
        }
        if self.normalize(behind(q)) == n {
            self.lemma_step_between_classes(behind(q), p, (0, 1, 0));
        }
        if self.normalize(below(q)) == n {
            self.lemma_step_between_classes(below(q), p, (0, 0, 1));
        }
    }

    /// After a box is put at `p`, the representative `q` is a candidate for
    /// removal exactly where the box at it can be taken away.
    proof fn lemma_add_box_removable(self, p: Site, q: Site)
        requires
            self.inv(),
            self.can_add(p),
            self.lattice.normalized(q),
        ensures
            self.add_box(p).removable.contains(q) <==> self.add_box(p).can_remove(q),
    {
        let after = self.add_box(p);
        let grown = self.raised(p);
        let n = self.normalize(p);
        self.lattice.lemma_addable_on_top(self.heights, p);
        self.lattice.lemma_normalize_idempotent(p);
        assert(after.heights == grown.heights);
        assert(after.can_remove(q) == grown.can_remove(q));
        self.lemma_grown_at(p, q);
        self.lemma_grown_at(p, right(q));
        self.lemma_grown_at(p, ahead(q));
        self.lemma_grown_at(p, above(q));
        if self.normalize(left(p)) == q {
            self.lattice.lemma_candidate_by_class(grown.heights, left(p), q);
        }
        if self.normalize(behind(p)) == q {
            self.lattice.lemma_candidate_by_class(grown.heights, behind(p), q);
        }
        if self.normalize(below(p)) == q {
            self.lattice.lemma_candidate_by_class(grown.heights, below(p), q);
        }
        if self.normalize(right(q)) == n {
            self.lemma_step_between_classes(right(q), p, (-1, 0, 0));
        }
        if self.normalize(ahead(q)) == n {
            self.lemma_step_between_classes(ahead(q), p, (0, -1, 0));
        }
        if self.normalize(above(q)) == n {
            self.lemma_step_between_classes(above(q), p, (0, 0, -1));
        }
        if q == n {
            // The new box has nothing in front of it: a box there would rest
            // on the place that was empty.
            self.lattice.lemma_unit_step_leaves_class(n, (1, 0, 0));
            self.lattice.lemma_unit_step_leaves_class(n, (0, 1, 0));
            self.lattice.lemma_unit_step_leaves_class(n, (0, 0, 1));
            self.lattice.lemma_filled_by_class(self.heights, p, n);
            assert(left(right(n)) == n);
            assert(behind(ahead(n)) == n);
            assert(below(above(n)) == n);
            assert(!self.is_box(right(n)));
            assert(!self.is_box(ahead(n)));
            assert(!self.is_box(above(n)));
        }
    }

    /// After a box is put at `p`, a box at `q` still rests on filled places.
    proof fn lemma_add_box_staircase(self, p: Site, q: Site)
        requires
            self.inv(),
            self.can_add(p),
            self.add_box(p).is_box(q),
        ensures
            !self.lattice.capped(q),
            self.add_box(p).is_wall_or_box(left(q)),
            self.add_box(p).is_wall_or_box(behind(q)),
            self.add_box(p).is_wall_or_box(below(q)),
    {
        let after = self.add_box(p);
        let grown = self.raised(p);
        assert(after.heights == grown.heights);
        self.lattice.lemma_addable_on_top(self.heights, p);
        self.lemma_grown_at(p, q);
        self.lemma_grown_at(p, left(q));
        self.lemma_grown_at(p, behind(q));
        self.lemma_grown_at(p, below(q));
        self.lemma_grown_at(p, left(p));
        self.lemma_grown_at(p, behind(p));
        self.lemma_grown_at(p, below(p));
        if self.normalize(q) == self.normalize(p) {
            self.lemma_step_between_classes(q, p, (-1, 0, 0));
            self.lemma_step_between_classes(q, p, (0, -1, 0));
            self.lemma_step_between_classes(q, p, (0, 0, -1));
            self.lattice.lemma_filled_by_class(grown.heights, left(q), left(p));
            self.lattice.lemma_filled_by_class(grown.heights, behind(q), behind(p));
            self.lattice.lemma_filled_by_class(grown.heights, below(q), below(p));
        }
    }

    /// Putting a box keeps the invariant: the candidates are all normalized
    /// and are again exactly the places where a box can be put or taken.
    pub proof fn lemma_add_box_inv(self, p: Site)
        requires
            self.inv(),
        ensures
            self.add_box(p).inv(),
    {
        if self.can_add(p) {
            let after = self.add_box(p);
            self.lattice.lemma_addable_on_top(self.heights, p);
            self.lattice.lemma_raise_valid(self.heights, p);
            self.lattice.lemma_normalize_idempotent(p);
            self.lattice.lemma_normalize_idempotent(right(p));
            self.lattice.lemma_normalize_idempotent(ahead(p));
            self.lattice.lemma_normalize_idempotent(above(p));
            assert(after.members_normalized());
            assert forall|q: Site| after.lattice.normalized(q) implies (
            #[trigger] after.addable.contains(q) <==> after.can_add(q)) by {
                self.lemma_add_box_addable(p, q);
            }
            assert forall|q: Site| after.lattice.normalized(q) implies (
            #[trigger] after.removable.contains(q) <==> after.can_remove(q)) by {
                self.lemma_add_box_removable(p, q);
            }
            assert forall|q: Site| #[trigger] after.is_box(q) implies !after.lattice.capped(q)
                && after.is_wall_or_box(left(q)) && after.is_wall_or_box(behind(q))
                && after.is_wall_or_box(below(q)) by {
                self.lemma_add_box_staircase(p, q);
            }
        }
    }

    /// After the box at `p` is taken away, the representative `q` is a
    /// candidate for adding exactly where a box can be put at it.
    proof fn lemma_remove_box_addable(self, p: Site, q: Site)
        requires
            self.inv(),
            self.can_remove(p),
            self.lattice.normalized(q),
        ensures
            self.remove_box(p).addable.contains(q) <==> self.remove_box(p).can_add(q),
    {
        let after = self.remove_box(p);
        let shrunk = self.lowered(p);
        let n = self.normalize(p);
        self.lattice.lemma_removable_on_top(self.heights, p);
        self.lattice.lemma_normalize_idempotent(p);
        assert(after.heights == shrunk.heights);
        assert(after.can_add(q) == shrunk.can_add(q));
        self.lemma_shrunk_at(p, q);
        self.lemma_shrunk_at(p, left(q));
        self.lemma_shrunk_at(p, behind(q));
        self.lemma_shrunk_at(p, below(q));
        if self.normalize(right(p)) == q {
            self.lattice.lemma_candidate_by_class(shrunk.heights, right(p), q);
        }
        if self.normalize(ahead(p)) == q {
            self.lattice.lemma_candidate_by_class(shrunk.heights, ahead(p), q);
        }
        if self.normalize(above(p)) == q {
            self.lattice.lemma_candidate_by_class(shrunk.heights, above(p), q);
        }
        if self.normalize(left(q)) == n {
            self.lemma_step_between_classes(left(q), p, (1, 0, 0));
        }
        if self.normalize(behind(q)) == n {
            self.lemma_step_between_classes(behind(q), p, (0, 1, 0));
        }
        if self.normalize(below(q)) == n {
            self.lemma_step_between_classes(below(q), p, (0, 0, 1));
        }
        if q == n {
            // The place of the box that was taken is empty now, and what it
            // rested on is still there.
            self.lattice.lemma_filled_by_class(self.heights, p, n);
            self.lattice.lemma_unit_step_leaves_class(left(n), (1, 0, 0));
            self.lattice.lemma_unit_step_leaves_class(behind(n), (0, 1, 0));
            self.lattice.lemma_unit_step_leaves_class(below(n), (0, 0, 1));
            assert(right(left(n)) == n);
            assert(ahead(behind(n)) == n);
            assert(above(below(n)) == n);
            assert(self.is_box(n));
        }
    }

    /// After the box at `p` is taken away, the representative `q` is a
    /// candidate for removal exactly where the box at it can be taken away.
    proof fn lemma_remove_box_removable(self, p: Site, q: Site)
        requires
            self.inv(),
            self.can_remove(p),
            self.lattice.normalized(q),
        ensures
            self.remove_box(p).removable.contains(q) <==> self.remove_box(p).can_remove(q),
    {
        let after = self.remove_box(p);
        let shrunk = self.lowered(p);
        let n = self.normalize(p);
        self.lattice.lemma_removable_on_top(self.heights, p);
        self.lattice.lemma_normalize_idempotent(p);
        assert(after.heights == shrunk.heights);
        assert(after.can_remove(q) == shrunk.can_remove(q));
        self.lemma_shrunk_at(p, q);
        self.lemma_shrunk_at(p, right(q));
        self.lemma_shrunk_at(p, ahead(q));
        self.lemma_shrunk_at(p, above(q));
        if self.normalize(left(p)) == q {
            self.lattice.lemma_candidate_by_class(shrunk.heights, left(p), q);
        }
        if self.normalize(behind(p)) == q {
            self.lattice.lemma_candidate_by_class(shrunk.heights, behind(p), q);
        }
        if self.normalize(below(p)) == q {
            self.lattice.lemma_candidate_by_class(shrunk.heights, below(p), q);
        }
        if self.normalize(right(q)) == n {
            self.lemma_step_between_classes(right(q), p, (-1, 0, 0));
        }
        if self.normalize(ahead(q)) == n {
            self.lemma_step_between_classes(ahead(q), p, (0, -1, 0));
        }
        if self.normalize(above(q)) == n {
            self.lemma_step_between_classes(above(q), p, (0, 0, -1));
        }
    }

    /// After the box at `p` is taken away, a box at `q` still lies under the
    /// cap and rests on filled places.
    proof fn lemma_remove_box_staircase(self, p: Site, q: Site)
        requires
            self.inv(),
            self.can_remove(p),
            self.remove_box(p).is_box(q),
        ensures
            !self.lattice.capped(q),
            self.remove_box(p).is_wall_or_box(left(q)),
            self.remove_box(p).is_wall_or_box(behind(q)),
            self.remove_box(p).is_wall_or_box(below(q)),
    {
        let after = self.remove_box(p);
        let shrunk = self.lowered(p);
        let n = self.normalize(p);
        assert(after.heights == shrunk.heights);
        self.lattice.lemma_removable_on_top(self.heights, p);
        self.lemma_shrunk_at(p, q);
        self.lemma_shrunk_at(p, left(q));
        self.lemma_shrunk_at(p, behind(q));
        self.lemma_shrunk_at(p, below(q));
        if self.normalize(left(q)) == n {
            self.lemma_step_between_classes(left(q), p, (1, 0, 0));
            self.lattice.lemma_filled_by_class(self.heights, q, right(p));
        }
        if self.normalize(behind(q)) == n {
            self.lemma_step_between_classes(behind(q), p, (0, 1, 0));
            self.lattice.lemma_filled_by_class(self.heights, q, ahead(p));
        }
        if self.normalize(below(q)) == n {
            self.lemma_step_between_classes(below(q), p, (0, 0, 1));
            self.lattice.lemma_filled_by_class(self.heights, q, above(p));
        }
    }

    /// Taking a box away keeps the invariant: the candidates are all
    /// normalized and are again exactly the places where a box can be put or
    /// taken.
    pub proof fn lemma_remove_box_inv(self, p: Site)
        requires
            self.inv(),
        ensures
            self.remove_box(p).inv(),
    {
        if self.can_remove(p) {
            let after = self.remove_box(p);
            self.lattice.lemma_removable_on_top(self.heights, p);
            self.lattice.lemma_lower_valid(self.heights, p);
            self.lattice.lemma_normalize_idempotent(p);
            self.lattice.lemma_normalize_idempotent(left(p));
            self.lattice.lemma_normalize_idempotent(behind(p));
            self.lattice.lemma_normalize_idempotent(below(p));
            assert(after.members_normalized());
            assert forall|q: Site| after.lattice.normalized(q) implies (
            #[trigger] after.addable.contains(q) <==> after.can_add(q)) by {
                self.lemma_remove_box_addable(p, q);
            }
            assert forall|q: Site| after.lattice.normalized(q) implies (
            #[trigger] after.removable.contains(q) <==> after.can_remove(q)) by {
                self.lemma_remove_box_removable(p, q);
            }
            assert forall|q: Site| #[trigger] after.is_box(q) implies !after.lattice.capped(q)
                && after.is_wall_or_box(left(q)) && after.is_wall_or_box(behind(q))
                && after.is_wall_or_box(below(q)) by {
                self.lemma_remove_box_staircase(p, q);
            }
        }
    }
}

} // verus!
