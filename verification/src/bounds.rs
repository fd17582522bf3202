use vstd::prelude::*;
use crate::box_map::{lemma_total_boxes_insert, lemma_total_boxes_remove, total_boxes};
use crate::configuration::Configuration;
use crate::lattice::{lemma_floor_unique, Lattice};
use crate::stack::{behind, below, left};
use crate::vector2::{column_fits, coord_fits, Column};
use crate::vector3::{site_fits, site_within, Site};

verus! {

impl Lattice {
    /// Whether the periods can be held by 32-bit integers.
    pub open spec fn fits(self) -> bool {
        coord_fits(self.x_shift) && coord_fits(self.y_shift) && coord_fits(self.z_height)
    }

    /// The representative of a neighbour of a representative lies at most
    /// one stride further out.
    pub proof fn lemma_neighbour_within(self, n: Site, d: Site, b: int)
        requires
            self.valid(),
            self.normalized(n),
            site_within(n, b),
            d == (1int, 0int, 0int) || d == (0int, 1int, 0int) || d == (0int, 0int, 1int) || d == (
                -1int,
                0int,
                0int,
            ) || d == (0int, -1int, 0int) || d == (0int, 0int, -1int),
        ensures
            site_within(self.normalize((n.0 + d.0, n.1 + d.1, n.2 + d.2)), b + self.stride()),
    {
        let m = (n.0 + d.0, n.1 + d.1, n.2 + d.2);
        if self.periodic() {
            self.lemma_normalize_in_domain(n);
            let span = if self.along_y() {
                self.y_shift
            } else {
                self.x_shift
            };
            let c = if self.along_y() {
                m.1
            } else {
                m.0
            };
            let s = self.shift(m);
            if c < 0 {
                lemma_floor_unique(c, span, -1);
            } else if c < span {
                lemma_floor_unique(c, span, 0);
            } else {
                lemma_floor_unique(c, span, 1);
            }
            assert(s * self.x_shift == if s == 0 {
                0
            } else if s == 1 {
                self.x_shift
            } else {
                -self.x_shift
            }) by (nonlinear_arith)
                requires
                    s == 0 || s == 1 || s == -1,
            ;
            assert(s * self.y_shift == if s == 0 {
                0
            } else if s == 1 {
                self.y_shift
            } else {
                -self.y_shift
            }) by (nonlinear_arith)
                requires
                    s == 0 || s == 1 || s == -1,
            ;
            assert(s * self.z_height == if s == 0 {
                0
            } else if s == 1 {
                self.z_height
            } else {
                -self.z_height
            }) by (nonlinear_arith)
                requires
                    s == 0 || s == 1 || s == -1,
            ;
        }
    }
}

impl Configuration {
    /// The number of boxes of the tiling, one period counted once.
    pub open spec fn box_count(self) -> int {
        total_boxes(self.heights)
    }

    /// Whether the state can be held in 32-bit coordinates: the periods, the
    /// candidates, the stored columns with their heights, and the topmost
    /// box of each column.
    pub open spec fn representable(self) -> bool {
        &&& self.lattice.fits()
        &&& self.heights.dom().finite()
        &&& forall|p: Site| #[trigger] self.addable.contains(p) ==> site_fits(p)
        &&& forall|p: Site| #[trigger] self.removable.contains(p) ==> site_fits(p)
        &&& forall|c: Column| #[trigger]
            self.heights.contains_key(c) ==> column_fits(c) && self.heights[c] <= i32::MAX
                && self.lattice.effective_height(self.heights, c) <= i32::MAX
    }

    /// Whether every candidate lies within `b` of the origin in each
    /// coordinate.
    pub open spec fn bounded_by(self, b: int) -> bool {
        &&& forall|p: Site| #[trigger] self.addable.contains(p) ==> site_within(p, b)
        &&& forall|p: Site| #[trigger] self.removable.contains(p) ==> site_within(p, b)
    }

    /// A bound on the candidates holds of every larger bound too.
    pub proof fn lemma_bounded_by_more(self, b: int, c: int)
        requires
            self.bounded_by(b),
            b <= c,
        ensures
            self.bounded_by(c),
    {
    }

    /// Putting a box moves the candidates at most one stride further out.
    pub proof fn lemma_add_box_bounded(self, p: Site, b: int)
        requires
            self.inv(),
            self.bounded_by(b),
        ensures
            self.add_box(p).bounded_by(b + self.lattice.stride()),
    {
        if self.can_add(p) {
            let n = self.normalize(p);
            self.lattice.lemma_normalize_idempotent(p);
            self.lattice.lemma_candidate_by_class(self.heights, p, n);
            self.lattice.lemma_addable_on_top(self.heights, p);
            assert(self.addable.contains(n));
            self.lattice.lemma_neighbour_within(n, (1, 0, 0), b);
            self.lattice.lemma_neighbour_within(n, (0, 1, 0), b);
            self.lattice.lemma_neighbour_within(n, (0, 0, 1), b);
            self.lattice.lemma_normalize_offset(p, n, (1, 0, 0));
            self.lattice.lemma_normalize_offset(p, n, (0, 1, 0));
            self.lattice.lemma_normalize_offset(p, n, (0, 0, 1));
        }
    }

    /// Taking a box away moves the candidates at most one stride further
    /// out.
    pub proof fn lemma_remove_box_bounded(self, p: Site, b: int)
        requires
            self.inv(),
            self.bounded_by(b),
        ensures
            self.remove_box(p).bounded_by(b + self.lattice.stride()),
    {
        if self.can_remove(p) {
            let n = self.normalize(p);
            self.lattice.lemma_normalize_idempotent(p);
            self.lattice.lemma_candidate_by_class(self.heights, p, n);
            self.lattice.lemma_removable_on_top(self.heights, p);
            assert(self.removable.contains(n));
            self.lattice.lemma_neighbour_within(n, (-1, 0, 0), b);
            self.lattice.lemma_neighbour_within(n, (0, -1, 0), b);
            self.lattice.lemma_neighbour_within(n, (0, 0, -1), b);
            self.lattice.lemma_normalize_offset(p, n, (-1, 0, 0));
            self.lattice.lemma_normalize_offset(p, n, (0, -1, 0));
            self.lattice.lemma_normalize_offset(p, n, (0, 0, -1));
        }
    }

    /// Where the candidates leave a stride of room, the state after a box is
    /// put can still be held in 32-bit coordinates; and it holds one box
    /// more if one could be put.
    pub proof fn lemma_add_box_representable(self, p: Site, b: int)
        requires
            self.inv(),
            self.representable(),
            self.bounded_by(b),
            b + self.lattice.stride() <= i32::MAX,
        ensures
            self.add_box(p).representable(),
            self.add_box(p).box_count() == self.box_count() + (if self.can_add(p) {
                1int
            } else {
                0int
            }),
    {
        if self.can_add(p) {
            let n = self.normalize(p);
            self.lemma_add_box_bounded(p, b);
            self.lattice.lemma_normalize_idempotent(p);
            self.lattice.lemma_candidate_by_class(self.heights, p, n);
            self.lattice.lemma_addable_on_top(self.heights, p);
            assert(self.addable.contains(n));
            lemma_total_boxes_insert(
                self.heights,
                (n.0, n.1),
                crate::box_map::height_at(self.heights, (n.0, n.1)) + 1,
            );
            let after = self.add_box(p);
            assert forall|q: Site| #[trigger] after.addable.contains(q) implies site_fits(q) by {
                assert(site_within(q, b + self.lattice.stride()));
            }
        }
    }

    /// The state after a box is taken away can always be held in 32-bit
    /// coordinates; and it holds one box less if one could be taken.
    pub proof fn lemma_remove_box_representable(self, p: Site)
        requires
            self.inv(),
            self.representable(),
        ensures
            self.remove_box(p).representable(),
            self.remove_box(p).box_count() == self.box_count() - (if self.can_remove(p) {
                1int
            } else {
                0int
            }),
    {
        if self.can_remove(p) {
            let n = self.normalize(p);
            let c = (n.0, n.1);
            self.lattice.lemma_normalize_idempotent(p);
            self.lattice.lemma_candidate_by_class(self.heights, p, n);
            self.lattice.lemma_removable_on_top(self.heights, p);
            assert(self.removable.contains(n));
            lemma_total_boxes_insert(
                self.heights,
                c,
                crate::box_map::height_at(self.heights, c) - 1,
            );
            lemma_total_boxes_remove(self.heights, c);
            let after = self.remove_box(p);
            let shrunk = self.lowered(p);
            self.lemma_box_fits(left(p));
            self.lemma_box_fits(behind(p));
            self.lemma_box_fits(below(p));
            self.lattice.lemma_boxes_after_lower(self.heights, p, left(p));
            self.lattice.lemma_boxes_after_lower(self.heights, p, behind(p));
            self.lattice.lemma_boxes_after_lower(self.heights, p, below(p));
        }
    }

    /// The representative of a box can be held in 32-bit coordinates.
    pub proof fn lemma_box_fits(self, p: Site)
        requires
            self.lattice.valid(),
            self.representable(),
        ensures
            self.is_box(p) ==> site_fits(self.normalize(p)),
    {
        if self.is_box(p) {
            self.lattice.lemma_box_is_stored(self.heights, p);
            let n = self.normalize(p);
            assert(self.heights.contains_key((n.0, n.1)));
            if self.lattice.periodic() {
                if self.lattice.along_y() {
                    crate::lattice::lemma_level_below(
                        n.0,
                        n.2,
                        self.lattice.x_shift,
                        self.lattice.z_height,
                    );
                } else {
                    crate::lattice::lemma_level_below(
                        n.1,
                        n.2,
                        self.lattice.y_shift,
                        self.lattice.z_height,
                    );
                }
            }
        }
    }
}

} // verus!
