use vstd::prelude::*;
use crate::box_map::{height_at, lower, raise};
use crate::lattice::{lemma_floor_bounds, lemma_level_at_floor, lemma_level_below, Lattice};
use crate::vector2::Column;
use crate::vector3::Site;

verus! {

/// The neighbour of `p` one step down the x axis.
pub open spec fn left(p: Site) -> Site {
    (p.0 - 1, p.1, p.2)
}

/// The neighbour of `p` one step down the y axis.
pub open spec fn behind(p: Site) -> Site {
    (p.0, p.1 - 1, p.2)
}

/// The neighbour of `p` one step down the z axis.
pub open spec fn below(p: Site) -> Site {
    (p.0, p.1, p.2 - 1)
}

/// The neighbour of `p` one step up the x axis.
pub open spec fn right(p: Site) -> Site {
    (p.0 + 1, p.1, p.2)
}

/// The neighbour of `p` one step up the y axis.
pub open spec fn ahead(p: Site) -> Site {
    (p.0, p.1 + 1, p.2)
}

/// The neighbour of `p` one step up the z axis.
pub open spec fn above(p: Site) -> Site {
    (p.0, p.1, p.2 + 1)
}

/// Every stored column is a representative and holds at least one box.
pub open spec fn heights_valid(lattice: Lattice, heights: Map<Column, int>) -> bool {
    forall|c: Column| #[trigger]
        heights.contains_key(c) ==> 0 <= heights[c] && lattice.normalize2(c) == c
}

impl Lattice {
    /// The z coordinate of the topmost box of the normalized column `c`; one
    /// less than that of the floor where the column holds no box.
    pub open spec fn effective_height(self, heights: Map<Column, int>, c: Column) -> int {
        height_at(heights, c) + self.floor_level(c)
    }

    /// Whether a box lies at `p`.
    pub open spec fn is_box(self, heights: Map<Column, int>, p: Site) -> bool {
        let n = self.normalize(p);
        !self.is_wall(p) && self.effective_height(heights, (n.0, n.1)) >= n.2
    }

    /// Whether `p` is filled, by a wall or by a box.
    pub open spec fn is_wall_or_box(self, heights: Map<Column, int>, p: Site) -> bool {
        self.is_wall(p) || self.is_box(heights, p)
    }

    /// Whether `p` lies above the cap on heights. There is one only where no
    /// points are identified and `z_height` is positive.
    pub open spec fn capped(self, p: Site) -> bool {
        !self.periodic() && self.z_height > 0 && p.2 > self.z_height - 1
    }

    /// Whether a box can be put at `p`: the place is empty and under the cap,
    /// and the three neighbours behind it are filled.
    pub open spec fn can_add(self, heights: Map<Column, int>, p: Site) -> bool {
        &&& !self.capped(p)
        &&& !self.is_wall_or_box(heights, p)
        &&& self.is_wall_or_box(heights, left(p))
        &&& self.is_wall_or_box(heights, behind(p))
        &&& self.is_wall_or_box(heights, below(p))
    }

    /// Whether the box at `p` can be taken away: there is one, and none at
    /// the three neighbours in front of it.
    pub open spec fn can_remove(self, heights: Map<Column, int>, p: Site) -> bool {
        &&& self.is_box(heights, p)
        &&& !self.is_box(heights, right(p))
        &&& !self.is_box(heights, ahead(p))
        &&& !self.is_box(heights, above(p))
    }

    /// Whether a point is a wall or a box depends on its class alone.
    pub proof fn lemma_filled_by_class(self, heights: Map<Column, int>, a: Site, b: Site)
        requires
            self.valid(),
            self.normalize(a) == self.normalize(b),
        ensures
            self.is_wall(a) == self.is_wall(b),
            self.is_box(heights, a) == self.is_box(heights, b),
            self.is_wall_or_box(heights, a) == self.is_wall_or_box(heights, b),
    {
    }

    /// Whether a box can be put at a point, or taken from it, depends on the
    /// class of the point alone.
    pub proof fn lemma_candidate_by_class(self, heights: Map<Column, int>, a: Site, b: Site)
        requires
            self.valid(),
            self.normalize(a) == self.normalize(b),
        ensures
            self.can_add(heights, a) == self.can_add(heights, b),
            self.can_remove(heights, a) == self.can_remove(heights, b),
    {
        self.lemma_filled_by_class(heights, a, b);
        self.lemma_normalize_offset(a, b, (-1, 0, 0));
        self.lemma_normalize_offset(a, b, (0, -1, 0));
        self.lemma_normalize_offset(a, b, (0, 0, -1));
        self.lemma_normalize_offset(a, b, (1, 0, 0));
        self.lemma_normalize_offset(a, b, (0, 1, 0));
        self.lemma_normalize_offset(a, b, (0, 0, 1));
        self.lemma_filled_by_class(heights, left(a), left(b));
        self.lemma_filled_by_class(heights, behind(a), behind(b));
        self.lemma_filled_by_class(heights, below(a), below(b));
        self.lemma_filled_by_class(heights, right(a), right(b));
        self.lemma_filled_by_class(heights, ahead(a), ahead(b));
        self.lemma_filled_by_class(heights, above(a), above(b));
    }

    /// A step along z does not change the column of the representative.
    pub proof fn lemma_normalize_vertical(self, p: Site, dz: int)
        requires
            self.valid(),
        ensures
            self.normalize((p.0, p.1, p.2 + dz)) == ({
                let n = self.normalize(p);
                (n.0, n.1, n.2 + dz)
            }),
    {
    }

    /// Above a point that is no wall there is no wall.
    pub proof fn lemma_no_wall_above(self, p: Site)
        requires
            self.valid(),
            !self.is_wall(p),
        ensures
            !self.is_wall(above(p)),
    {
        if self.periodic() {
            let n = self.normalize(p);
            self.lemma_normalize_vertical(p, 1);
            let rise = self.z_height;
            let skew = if self.along_y() {
                self.x_shift
            } else {
                self.y_shift
            };
            let q = n.2 / rise;
            let q1 = (n.2 + 1) / rise;
            lemma_floor_bounds(n.2, rise);
            lemma_floor_bounds(n.2 + 1, rise);
            assert(q <= q1) by (nonlinear_arith)
                requires
                    q * rise <= n.2,
                    n.2 + 1 < q1 * rise + rise,
                    rise > 0,
            ;
            assert((-q1) * skew <= (-q) * skew) by (nonlinear_arith)
                requires
                    q <= q1,
                    skew >= 0,
            ;
        }
    }

    /// Where no box is stored, there is no box.
    pub proof fn lemma_box_is_stored(self, heights: Map<Column, int>, p: Site)
        requires
            self.valid(),
            self.is_box(heights, p),
        ensures
            heights.contains_key((self.normalize(p).0, self.normalize(p).1)),
            !self.degenerate(),
    {
        let n = self.normalize(p);
        if self.periodic() {
            if self.along_y() {
                lemma_level_below(n.0, n.2, self.x_shift, self.z_height);
            } else {
                lemma_level_below(n.1, n.2, self.y_shift, self.z_height);
            }
        }
    }

    /// A place where a box can be put lies just above the top of its column.
    pub proof fn lemma_addable_on_top(self, heights: Map<Column, int>, p: Site)
        requires
            self.valid(),
            heights_valid(self, heights),
            self.can_add(heights, p),
        ensures
            self.effective_height(heights, (self.normalize(p).0, self.normalize(p).1))
                == self.normalize(p).2 - 1,
            !self.is_wall(p),
            !self.degenerate(),
            0 <= self.floor_level((self.normalize(p).0, self.normalize(p).1)) <= self.normalize(
                p,
            ).2,
    {
        let n = self.normalize(p);
        self.lemma_normalize_vertical(p, -1);
        if self.periodic() {
            let skew = if self.along_y() {
                self.x_shift
            } else {
                self.y_shift
            };
            let free = if self.along_y() {
                n.0
            } else {
                n.1
            };
            lemma_level_below(free, n.2, skew, self.z_height);
            if self.is_wall(below(p)) {
                lemma_level_at_floor(free, n.2, skew, self.z_height);
            }
        }
    }

    /// A box that can be taken away is the topmost of its column.
    pub proof fn lemma_removable_on_top(self, heights: Map<Column, int>, p: Site)
        requires
            self.valid(),
            heights_valid(self, heights),
            self.can_remove(heights, p),
        ensures
            self.effective_height(heights, (self.normalize(p).0, self.normalize(p).1))
                == self.normalize(p).2,
            heights.contains_key((self.normalize(p).0, self.normalize(p).1)),
            !self.is_wall(p),
            !self.degenerate(),
            0 <= self.floor_level((self.normalize(p).0, self.normalize(p).1)) <= self.normalize(
                p,
            ).2,
    {
        let n = self.normalize(p);
        self.lemma_normalize_vertical(p, 1);
        self.lemma_no_wall_above(p);
        self.lemma_box_is_stored(heights, p);
        if self.periodic() {
            let skew = if self.along_y() {
                self.x_shift
            } else {
                self.y_shift
            };
            let free = if self.along_y() {
                n.0
            } else {
                n.1
            };
            lemma_level_below(free, n.2, skew, self.z_height);
        }
    }

    /// Putting a box at `p` fills the class of `p` and changes no other
    /// place.
    pub proof fn lemma_boxes_after_raise(self, heights: Map<Column, int>, p: Site, q: Site)
        requires
            self.valid(),
            heights_valid(self, heights),
            self.can_add(heights, p),
        ensures
            self.is_box(raise(heights, (self.normalize(p).0, self.normalize(p).1)), q) == (
            self.is_box(heights, q) || self.normalize(q) == self.normalize(p)),
            self.is_wall_or_box(heights, q) ==> self.is_wall_or_box(
                raise(heights, (self.normalize(p).0, self.normalize(p).1)),
                q,
            ),
    {
        self.lemma_addable_on_top(heights, p);
        self.lemma_normalize_idempotent(p);
        self.lemma_normalize_idempotent(q);
        self.lemma_filled_by_class(heights, p, self.normalize(p));
        self.lemma_filled_by_class(heights, q, self.normalize(q));
    }

    /// Taking the box at `p` away empties the class of `p` and changes no
    /// other place.
    pub proof fn lemma_boxes_after_lower(self, heights: Map<Column, int>, p: Site, q: Site)
        requires
            self.valid(),
            heights_valid(self, heights),
            self.can_remove(heights, p),
        ensures
            self.is_box(lower(heights, (self.normalize(p).0, self.normalize(p).1)), q) == (
            self.is_box(heights, q) && self.normalize(q) != self.normalize(p)),
    {
        self.lemma_removable_on_top(heights, p);
        self.lemma_normalize_idempotent(p);
        self.lemma_normalize_idempotent(q);
        self.lemma_filled_by_class(heights, p, self.normalize(p));
        self.lemma_filled_by_class(heights, q, self.normalize(q));
    }

    /// The column of a representative is a representative.
    pub proof fn lemma_column_of_normalized(self, p: Site)
        requires
            self.valid(),
            self.normalized(p),
        ensures
            self.normalize2((p.0, p.1)) == (p.0, p.1),
            self.normalized((p.0, p.1, 0)),
    {
        if self.periodic() {
            self.lemma_normalize_in_domain(p);
            self.lemma_domain_is_normalized((p.0, p.1, 0));
        }
    }

    /// The heights stay valid when a box is put where one can be put.
    pub proof fn lemma_raise_valid(self, heights: Map<Column, int>, p: Site)
        requires
            self.valid(),
            heights_valid(self, heights),
            self.can_add(heights, p),
        ensures
            heights_valid(self, raise(heights, (self.normalize(p).0, self.normalize(p).1))),
    {
        self.lemma_normalize_idempotent(p);
        self.lemma_column_of_normalized(self.normalize(p));
    }

    /// The heights stay valid when a box is taken that can be taken.
    pub proof fn lemma_lower_valid(self, heights: Map<Column, int>, p: Site)
        requires
            self.valid(),
            heights_valid(self, heights),
            self.can_remove(heights, p),
        ensures
            heights_valid(self, lower(heights, (self.normalize(p).0, self.normalize(p).1))),
    {
        self.lemma_removable_on_top(heights, p);
    }
}

} // verus!
