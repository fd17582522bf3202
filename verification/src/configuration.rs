use vstd::prelude::*;
use crate::lattice::Lattice;
use crate::box_map::{lower, raise};
use crate::stack::{above, ahead, behind, below, heights_valid, left, right};
use crate::vector2::Column;
use crate::vector3::Site;

verus! {

/// `s` with `p` added where `wanted` holds.
pub open spec fn with_if(s: Set<Site>, wanted: bool, p: Site) -> Set<Site> {
    if wanted {
        s.insert(p)
    } else {
        s
    }
}

/// `s` with `p` taken out where `unwanted` holds.
pub open spec fn without_if(s: Set<Site>, unwanted: bool, p: Site) -> Set<Site> {
    if unwanted {
        s.remove(p)
    } else {
        s
    }
}

/// One change of a tiling: an attempt to put a box at a point, or to take
/// the box at a point away.
pub enum Move {
    Add(Site),
    Remove(Site),
}

/// The state of a tiling: its periods, the window that is drawn, the heights
/// of its columns, and the two sets of candidates.
pub struct Configuration {
    pub lattice: Lattice,
    pub draw_distance: (int, int, int),
    pub heights: Map<Column, int>,
    pub addable: Set<Site>,
    pub removable: Set<Site>,
}

impl Configuration {
    /// The empty tiling: no box, the corner as the one place where a box can
    /// be put, and no box to take away.
    pub open spec fn initial(lattice: Lattice, draw_distance: (int, int, int)) -> Configuration {
        Configuration {
            lattice,
            draw_distance,
            heights: Map::empty(),
            addable: set![(0int, 0int, 0int)],
            removable: Set::empty(),
        }
    }

    /// The representative of `p`.
    pub open spec fn normalize(self, p: Site) -> Site {
        self.lattice.normalize(p)
    }

    /// Whether `p` lies in a back wall.
    pub open spec fn is_wall(self, p: Site) -> bool {
        self.lattice.is_wall(p)
    }

    /// Whether a box lies at `p`.
    pub open spec fn is_box(self, p: Site) -> bool {
        self.lattice.is_box(self.heights, p)
    }

    /// Whether `p` is filled, by a wall or by a box.
    pub open spec fn is_wall_or_box(self, p: Site) -> bool {
        self.lattice.is_wall_or_box(self.heights, p)
    }

    /// Whether a box can be put at `p`.
    pub open spec fn can_add(self, p: Site) -> bool {
        self.lattice.can_add(self.heights, p)
    }

    /// Whether the box at `p` can be taken away.
    pub open spec fn can_remove(self, p: Site) -> bool {
        self.lattice.can_remove(self.heights, p)
    }

    /// The heights with one box more on the column of `p`.
    pub open spec fn raised(self, p: Site) -> Configuration {
        let n = self.normalize(p);
        Configuration { heights: raise(self.heights, (n.0, n.1)), ..self }
    }

    /// The heights with one box less on the column of `p`.
    pub open spec fn lowered(self, p: Site) -> Configuration {
        let n = self.normalize(p);
        Configuration { heights: lower(self.heights, (n.0, n.1)), ..self }
    }

    /// The state after an attempt to put a box at `p`. Where none can be put
    /// nothing changes. Otherwise the column of `p` grows by one; `p` can be
    /// taken away and no longer be added; each neighbour in front of `p`
    /// becomes a candidate if a box can now be put there; each neighbour
    /// behind `p` is no longer one to take away unless it still can be.
    pub open spec fn add_box(self, p: Site) -> Configuration {
        if !self.can_add(p) {
            self
        } else {
            let n = self.normalize(p);
            let grown = self.raised(p);
            let a0 = self.addable.remove(n);
            let a1 = with_if(a0, grown.can_add(right(p)), self.normalize(right(p)));
            let a2 = with_if(a1, grown.can_add(ahead(p)), self.normalize(ahead(p)));
            let a3 = with_if(a2, grown.can_add(above(p)), self.normalize(above(p)));
            let r0 = self.removable.insert(n);
            let r1 = without_if(r0, !grown.can_remove(left(p)), self.normalize(left(p)));
            let r2 = without_if(r1, !grown.can_remove(behind(p)), self.normalize(behind(p)));
            let r3 = without_if(r2, !grown.can_remove(below(p)), self.normalize(below(p)));
            Configuration { addable: a3, removable: r3, ..grown }
        }
    }

    /// The state after an attempt to take the box at `p` away. Where that
    /// cannot be done nothing changes. Otherwise the column of `p` shrinks by
    /// one; `p` can be added and no longer be taken away; each neighbour in
    /// front of `p` is no longer a candidate unless a box can still be put
    /// there; each neighbour behind `p` becomes one to take away if it now
    /// can be.
    pub open spec fn remove_box(self, p: Site) -> Configuration {
        if !self.can_remove(p) {
            self
        } else {
            let n = self.normalize(p);
            let shrunk = self.lowered(p);
            let r0 = self.removable.remove(n);
            let a0 = self.addable.insert(n);
            let a1 = without_if(a0, !shrunk.can_add(right(p)), self.normalize(right(p)));
            let a2 = without_if(a1, !shrunk.can_add(ahead(p)), self.normalize(ahead(p)));
            let a3 = without_if(a2, !shrunk.can_add(above(p)), self.normalize(above(p)));
            let r1 = with_if(r0, shrunk.can_remove(left(p)), self.normalize(left(p)));
            let r2 = with_if(r1, shrunk.can_remove(behind(p)), self.normalize(behind(p)));
            let r3 = with_if(r2, shrunk.can_remove(below(p)), self.normalize(below(p)));
            Configuration { addable: a3, removable: r3, ..shrunk }
        }
    }

    /// The state after the move `m`.
    pub open spec fn apply(self, m: Move) -> Configuration {
        match m {
            Move::Add(p) => self.add_box(p),
            Move::Remove(p) => self.remove_box(p),
        }
    }

    /// The state after the moves of `moves`, made one after the other.
    pub open spec fn run(self, moves: Seq<Move>) -> Configuration
        decreases moves.len(),
    {
        if moves.len() == 0 {
            self
        } else {
            self.run(moves.drop_last()).apply(moves.last())
        }
    }

    /// Whether the move `m` is made at a candidate for it.
    pub open spec fn offers(self, m: Move) -> bool {
        match m {
            Move::Add(p) => self.addable.contains(p),
            Move::Remove(p) => self.removable.contains(p),
        }
    }

    /// Whether each move of `moves` is made at a point that is a candidate
    /// for it when the move is made.
    pub open spec fn draws(self, moves: Seq<Move>) -> bool
        decreases moves.len(),
    {
        if moves.len() == 0 {
            true
        } else {
            self.draws(moves.drop_last()) && self.run(moves.drop_last()).offers(moves.last())
        }
    }

    /// Every candidate is the representative of its class.
    pub open spec fn members_normalized(self) -> bool {
        &&& forall|p: Site| #[trigger] self.addable.contains(p) ==> self.lattice.normalized(p)
        &&& forall|p: Site| #[trigger] self.removable.contains(p) ==> self.lattice.normalized(p)
    }

    /// The two sets hold the representatives at which a box can be put, and
    /// those from which one can be taken.
    pub open spec fn consistent(self) -> bool {
        &&& forall|p: Site|
            self.lattice.normalized(p) ==> (#[trigger] self.addable.contains(p) <==> self.can_add(
                p,
            ))
        &&& forall|p: Site|
            self.lattice.normalized(p) ==> (#[trigger] self.removable.contains(p)
                <==> self.can_remove(p))
    }

    /// Every box lies under the cap and rests on filled places: its three
    /// neighbours behind are walls or boxes.
    pub open spec fn staircase(self) -> bool {
        forall|p: Site| #[trigger]
            self.is_box(p) ==> !self.lattice.capped(p) && self.is_wall_or_box(left(p))
                && self.is_wall_or_box(behind(p)) && self.is_wall_or_box(below(p))
    }

    /// The invariant of a tiling. Where every point is a wall the tiling
    /// stays as it began.
    pub open spec fn inv(self) -> bool {
        &&& self.lattice.valid()
        &&& heights_valid(self.lattice, self.heights)
        &&& self.members_normalized()
        &&& self.lattice.degenerate() ==> self == Configuration::initial(
            self.lattice,
            self.draw_distance,
        )
        &&& !self.lattice.degenerate() ==> self.consistent() && self.staircase()
    }
}

} // verus!
