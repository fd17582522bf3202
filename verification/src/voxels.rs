use vstd::prelude::*;
use crate::configuration::Configuration;
use crate::lattice::lemma_floor_unique;
use crate::stack::{above, ahead, right};
use crate::tiling::PeriodicLozengeTiling;
use crate::vector3::{Site, Vector3};

verus! {

/// What a voxel is asked to be: part of a back wall, or a box.
#[derive(Debug, Clone, Copy, PartialEq, Eq, Structural)]
pub enum VoxelKind {
    Wall,
    Box,
}

/// The part of the lattice that is drawn: the points from each lower bound
/// up to, but without, the upper bound.
pub struct Window {
    pub x_min: int,
    pub x_max: int,
    pub y_min: int,
    pub y_max: int,
    pub z_min: int,
    pub z_max: int,
}

/// The bounds of the window, as the enumeration holds them.
pub struct VoxelBoundaries {
    pub x_min: i64,
    pub x_max: i64,
    pub y_min: i64,
    pub y_max: i64,
    pub z_min: i64,
    pub z_max: i64,
}

impl View for VoxelBoundaries {
    type V = Window;

    open spec fn view(&self) -> Window {
        Window {
            x_min: self.x_min as int,
            x_max: self.x_max as int,
            y_min: self.y_min as int,
            y_max: self.y_max as int,
            z_min: self.z_min as int,
            z_max: self.z_max as int,
        }
    }
}

/// Whether `a` comes before `b` in the order of the enumeration: x first,
/// then y, then z.
pub open spec fn lex_less(a: Site, b: Site) -> bool {
    a.0 < b.0 || (a.0 == b.0 && (a.1 < b.1 || (a.1 == b.1 && a.2 < b.2)))
}

/// Whether `p` occurs in `voxels`.
pub open spec fn listed(voxels: Seq<Vector3>, p: Site) -> bool {
    exists|i: int| 0 <= i < voxels.len() && #[trigger] voxels[i]@ == p
}

/// Whether `voxels` runs in the order of the enumeration, strictly.
pub open spec fn in_order(voxels: Seq<Vector3>) -> bool {
    forall|i: int, j: int|
        0 <= i < j < voxels.len() ==> lex_less(#[trigger] voxels[i]@, #[trigger] voxels[j]@)
}

/// A set of voxels has one listing in order: two lists in order that hold
/// the same voxels are the same list.
pub proof fn lemma_listing_unique(a: Seq<Vector3>, b: Seq<Vector3>)
    requires
        in_order(a),
        in_order(b),
        forall|p: Site| listed(a, p) <==> listed(b, p),
    ensures
        a == b,
    decreases a.len(),
{
    if a.len() == 0 {
        if b.len() > 0 {
            assert(listed(b, b[0]@));
        }
        assert(a =~= b);
    } else {
        let x = a.last();
        assert(listed(a, a[a.len() - 1]@));
        let j = choose|j: int| 0 <= j < b.len() && #[trigger] b[j]@ == x@;
        let y = b.last();
        assert(listed(b, b[b.len() - 1]@));
        let i = choose|i: int| 0 <= i < a.len() && #[trigger] a[i]@ == y@;
        // neither last voxel comes before the other
        assert(j == b.len() - 1) by {
            if j < b.len() - 1 {
                assert(lex_less(b[j]@, b[b.len() - 1]@));
                if i < a.len() - 1 {
                    assert(lex_less(a[i]@, a[a.len() - 1]@));
                }
            }
        }
        assert(x@ == y@);
        assert(x == y);
        let a0 = a.drop_last();
        let b0 = b.drop_last();
        assert forall|p: Site| listed(a0, p) <==> listed(b0, p) by {
            if listed(a0, p) {
                let k = choose|k: int| 0 <= k < a0.len() && #[trigger] a0[k]@ == p;
                assert(a[k]@ == p);
                assert(lex_less(a[k]@, a[a.len() - 1]@));
                assert(listed(a, p));
                let l = choose|l: int| 0 <= l < b.len() && #[trigger] b[l]@ == p;
                assert(l < b.len() - 1);
                assert(b0[l]@ == p);
            }
            if listed(b0, p) {
                let k = choose|k: int| 0 <= k < b0.len() && #[trigger] b0[k]@ == p;
                assert(b[k]@ == p);
                assert(lex_less(b[k]@, b[b.len() - 1]@));
                assert(listed(b, p));
                let l = choose|l: int| 0 <= l < a.len() && #[trigger] a[l]@ == p;
                assert(l < a.len() - 1);
                assert(a0[l]@ == p);
            }
        }
        assert(in_order(a0)) by {
            assert forall|k: int, l: int| 0 <= k < l < a0.len() implies lex_less(
                #[trigger] a0[k]@,
                #[trigger] a0[l]@,
            ) by {
                assert(lex_less(a[k]@, a[l]@));
            }
        }
        assert(in_order(b0)) by {
            assert forall|k: int, l: int| 0 <= k < l < b0.len() implies lex_less(
                #[trigger] b0[k]@,
                #[trigger] b0[l]@,
            ) by {
                assert(lex_less(b[k]@, b[l]@));
            }
        }
        lemma_listing_unique(a0, b0);
        assert(a =~= a0.push(x));
        assert(b =~= b0.push(y));
    }
}

impl Configuration {
    /// The window that is drawn. Along an axis without a period it starts
    /// one step behind the corner, where the wall is.
    pub open spec fn window(self) -> Window {
        Window {
            x_min: if self.lattice.x_shift == 0 {
                -1
            } else {
                -self.draw_distance.0
            },
            x_max: self.draw_distance.0,
            y_min: if self.lattice.y_shift == 0 {
                -1
            } else {
                -self.draw_distance.1
            },
            y_max: self.draw_distance.1,
            z_min: if self.lattice.z_height == 0 {
                -1
            } else {
                -self.draw_distance.2
            },
            z_max: self.draw_distance.2,
        }
    }

    /// Whether `p` is of the kind asked for.
    pub open spec fn matches(self, kind: VoxelKind, p: Site) -> bool {
        match kind {
            VoxelKind::Wall => self.is_wall(p),
            VoxelKind::Box => self.is_box(p),
        }
    }

    /// Whether `p` lies in the window.
    pub open spec fn in_window(self, p: Site) -> bool {
        let w = self.window();
        w.x_min <= p.0 < w.x_max && w.y_min <= p.1 < w.y_max && w.z_min <= p.2 < w.z_max
    }

    /// Whether `p` lies on one of the six faces of the window.
    pub open spec fn on_edge(self, p: Site) -> bool {
        let w = self.window();
        p.0 == w.x_min || p.1 == w.y_min || p.2 == w.z_min || p.0 == w.x_max - 1 || p.1 == w.y_max
            - 1 || p.2 == w.z_max - 1
    }

    /// Whether `p` can be seen: it is of the kind asked for, and it lies on
    /// a face of the window where those count, or one of its three
    /// neighbours in front is not of the kind.
    pub open spec fn shown(self, kind: VoxelKind, include_edges: bool, p: Site) -> bool {
        self.matches(kind, p) && ((include_edges && self.on_edge(p)) || !self.matches(
            kind,
            right(p),
        ) || !self.matches(kind, ahead(p)) || !self.matches(kind, above(p)))
    }

    /// Whether the enumeration leaves the column of `p` at `p`: `p` is of
    /// the kind asked for and the point above it is not.
    pub open spec fn ends_column(self, kind: VoxelKind, p: Site) -> bool {
        self.matches(kind, p) && !self.matches(kind, above(p))
    }

    /// Whether the enumeration gets as far as `p` in the column of `p`: it
    /// has not left the column further down.
    pub open spec fn reached(self, kind: VoxelKind, p: Site) -> bool {
        forall|z: int|
            self.window().z_min <= z < p.2 ==> !#[trigger] self.ends_column(kind, (p.0, p.1, z))
    }

    /// Whether `p` is one of the voxels that are handed out.
    pub open spec fn emitted(self, kind: VoxelKind, include_edges: bool, p: Site) -> bool {
        self.in_window(p) && self.shown(kind, include_edges, p) && self.reached(kind, p)
    }

    /// Whether `voxels` holds, in order, exactly the voxels handed out that
    /// come before `cursor`.
    pub open spec fn listed_up_to(
        self,
        kind: VoxelKind,
        include_edges: bool,
        voxels: Seq<Vector3>,
        cursor: Site,
    ) -> bool {
        &&& in_order(voxels)
        &&& forall|i: int|
            0 <= i < voxels.len() ==> self.emitted(kind, include_edges, #[trigger] voxels[i]@)
                && lex_less(voxels[i]@, cursor)
        &&& forall|p: Site| #[trigger]
            self.emitted(kind, include_edges, p) && lex_less(p, cursor) ==> listed(voxels, p)
    }

    /// Unless every point is a wall, the wall under the corner can be seen
    /// wherever the window reaches at least one step along each axis.
    pub proof fn lemma_wall_under_corner_emitted(self)
        requires
            self.lattice.valid(),
            !self.lattice.degenerate(),
            self.draw_distance.0 >= 1,
            self.draw_distance.1 >= 1,
            self.draw_distance.2 >= 1,
        ensures
            self.emitted(VoxelKind::Wall, false, (0int, 0int, -1int)),
    {
        let l = self.lattice;
        let p = (0int, 0int, -1int);
        if l.periodic() {
            l.lemma_domain_is_normalized((0, 0, 0));
            l.lemma_normalize_vertical((0, 0, 0), -1);
            lemma_floor_unique(0, l.z_height, 0);
            assert((-0int) * l.x_shift == 0) by (nonlinear_arith);
            assert((-0int) * l.y_shift == 0) by (nonlinear_arith);
            assert forall|z: int| z < 0 implies l.is_wall((0int, 0int, z)) by {
                l.lemma_normalize_vertical((0, 0, 0), z);
            }
        }
        assert(above(p) == (0int, 0int, 0int));
        assert(self.is_wall(p));
        assert(!self.is_wall(above(p)));
        assert forall|z: int| self.window().z_min <= z < p.2 implies !#[trigger] self.ends_column(
            VoxelKind::Wall,
            (p.0, p.1, z),
        ) by {
            assert(above((p.0, p.1, z)) == (0int, 0int, z + 1));
            assert(self.is_wall((0int, 0int, z + 1)));
        }
    }
}

impl PeriodicLozengeTiling {
    /// The bounds of the window that is drawn.
    pub fn get_voxel_boundaries(&self) -> (bounds: VoxelBoundaries)
        ensures
            bounds@ == self@.window(),
            -0x8000_0000 <= bounds.x_max <= 0x7fff_ffff,
            -0x8000_0000 <= bounds.y_max <= 0x7fff_ffff,
            -0x8000_0000 <= bounds.z_max <= 0x7fff_ffff,
            -0x7fff_ffff <= bounds.x_min <= 0x8000_0000,
            -0x7fff_ffff <= bounds.y_min <= 0x8000_0000,
            -0x7fff_ffff <= bounds.z_min <= 0x8000_0000,
    {
        let draw_distance = self.draw_distance();
        let periods = self.periods();
        VoxelBoundaries {
            x_min: if periods.x_shift == 0 {
                -1
            } else {
                -(draw_distance.x as i64)
            },
            x_max: draw_distance.x as i64,
            y_min: if periods.y_shift == 0 {
                -1
            } else {
                -(draw_distance.y as i64)
            },
            y_max: draw_distance.y as i64,
            z_min: if periods.z_height == 0 {
                -1
            } else {
                -(draw_distance.z as i64)
            },
            z_max: draw_distance.z as i64,
        }
    }

    /// Whether the point `(x, y, z)` is of the kind asked for.
    fn matches_wide(&self, kind: VoxelKind, x: i64, y: i64, z: i64) -> (r: bool)
        requires
            self.wf(),
            crate::tiling::coord_near(x as int),
            crate::tiling::coord_near(y as int),
            crate::tiling::coord_near(z as int),
        ensures
            r == self@.matches(kind, (x as int, y as int, z as int)),
    {
        proof {
            self.lemma_wf();
        }
        match kind {
            VoxelKind::Wall => self.is_wall_wide(x, y, z),
            VoxelKind::Box => self.is_box_wide(x, y, z),
        }
    }

    /// The voxels of `kind` in the window that can be seen, in the order of
    /// x, then y, then z. Each column is left at the first voxel of the kind
    /// with none of the kind above it.
    pub fn get_voxels(&self, kind: VoxelKind, include_edges: bool) -> (voxels: Vec<Vector3>)
        requires
            self.wf(),
        ensures
            in_order(voxels@),
            forall|p: Site| listed(voxels@, p) <==> self@.emitted(kind, include_edges, p),
    {
        let mut voxels: Vec<Vector3> = Vec::new();
        let bounds = self.get_voxel_boundaries();
        let ghost state = self@;
        let ghost w = state.window();

        let mut x = bounds.x_min;
        while x < bounds.x_max
            invariant
                self.wf(),
                state == self@,
                w == state.window(),
                bounds@ == w,
                -0x8000_0000 <= bounds.x_max <= 0x7fff_ffff,
                -0x8000_0000 <= bounds.y_max <= 0x7fff_ffff,
                -0x8000_0000 <= bounds.z_max <= 0x7fff_ffff,
                -0x7fff_ffff <= bounds.x_min <= 0x8000_0000,
                -0x7fff_ffff <= bounds.y_min <= 0x8000_0000,
                -0x7fff_ffff <= bounds.z_min <= 0x8000_0000,
                bounds.x_min <= x,
                x <= bounds.x_max || x == bounds.x_min,
                state.listed_up_to(kind, include_edges, voxels@, (x as int, w.y_min, w.z_min)),
            decreases bounds.x_max - x,
        {
            let mut y = bounds.y_min;
            while y < bounds.y_max
                invariant
                    self.wf(),
                    state == self@,
                    w == state.window(),
                    bounds@ == w,
                    -0x8000_0000 <= bounds.x_max <= 0x7fff_ffff,
                    -0x8000_0000 <= bounds.y_max <= 0x7fff_ffff,
                    -0x8000_0000 <= bounds.z_max <= 0x7fff_ffff,
                    -0x7fff_ffff <= bounds.x_min <= 0x8000_0000,
                    -0x7fff_ffff <= bounds.y_min <= 0x8000_0000,
                    -0x7fff_ffff <= bounds.z_min <= 0x8000_0000,
                    bounds.x_min <= x < bounds.x_max,
                    bounds.y_min <= y,
                    y <= bounds.y_max || y == bounds.y_min,
                    state.listed_up_to(kind, include_edges, voxels@, (x as int, y as int, w.z_min)),
                decreases bounds.y_max - y,
            {
                let mut z = bounds.z_min;
                let mut column_open = true;
                let ghost mut end: int = 0;
                while z < bounds.z_max && column_open
                    invariant
                        self.wf(),
                        state == self@,
                        w == state.window(),
                        bounds@ == w,
                        -0x8000_0000 <= bounds.x_max <= 0x7fff_ffff,
                        -0x8000_0000 <= bounds.y_max <= 0x7fff_ffff,
                        -0x8000_0000 <= bounds.z_max <= 0x7fff_ffff,
                        -0x7fff_ffff <= bounds.x_min <= 0x8000_0000,
                        -0x7fff_ffff <= bounds.y_min <= 0x8000_0000,
                        -0x7fff_ffff <= bounds.z_min <= 0x8000_0000,
                        bounds.x_min <= x < bounds.x_max,
                        bounds.y_min <= y < bounds.y_max,
                        bounds.z_min <= z,
                        z <= bounds.z_max || z == bounds.z_min,
                        state.listed_up_to(
                            kind,
                            include_edges,
                            voxels@,
                            (x as int, y as int, z as int),
                        ),
                        column_open ==> state.reached(kind, (x as int, y as int, z as int)),
                        !column_open ==> w.z_min <= end < z && state.ends_column(
                            kind,
                            (x as int, y as int, end),
                        ),
                    decreases bounds.z_max - z,
                {
                    let ghost p = (x as int, y as int, z as int);
                    let ghost before = voxels@;
                    let mut pushed = false;
                    if self.matches_wide(kind, x, y, z) {
                        let box_to_left = self.matches_wide(kind, x + 1, y, z);
                        let box_to_right = self.matches_wide(kind, x, y + 1, z);
                        let box_above = self.matches_wide(kind, x, y, z + 1);
                        if include_edges && (x == bounds.x_min || y == bounds.y_min || z
                            == bounds.z_min || x == bounds.x_max - 1 || y == bounds.y_max - 1 || z
                            == bounds.z_max - 1) || !box_to_left || !box_to_right || !box_above {
                            voxels.push(Vector3(x as i32, y as i32, z as i32));
                            pushed = true;
                            if !box_above {
                                column_open = false;
                                proof {
                                    end = z as int;
                                }
                            }
                        }
                    }
                    proof {
                        let next = (x as int, y as int, z + 1);
                        assert(pushed <==> state.emitted(kind, include_edges, p));
                        if pushed {
                            assert(voxels@ == before.push(Vector3(x as i32, y as i32, z as i32)));
                            assert(voxels@[before.len() as int]@ == p);
                            assert forall|q: Site| listed(before, q) implies listed(voxels@, q) by {
                                let i = choose|i: int|
                                    0 <= i < before.len() && #[trigger] before[i]@ == q;
                                assert(voxels@[i]@ == q);
                            }
                        }
                        assert forall|q: Site| #[trigger]
                            state.emitted(kind, include_edges, q) && lex_less(
                                q,
                                next,
                            ) implies listed(voxels@, q) by {
                            if q != p {
                                assert(lex_less(q, p));
                            }
                        }
                        if column_open {
                            assert forall|z1: int| w.z_min <= z1 < next.2 implies !#[trigger] state.ends_column(
                            kind, (next.0, next.1, z1)) by {
                                if z1 == z {
                                    assert(above(p) == (x as int, y as int, z + 1));
                                }
                            }
                        }
                    }
                    z = z + 1;
                }
                proof {
                    let here = (x as int, y as int, z as int);
                    let next = (x as int, y + 1, w.z_min);
                    assert forall|q: Site| #[trigger]
                        state.emitted(kind, include_edges, q) && lex_less(q, next) implies listed(
                        voxels@,
                        q,
                    ) by {
                        if !lex_less(q, here) {
                            if !column_open {
                                assert(state.ends_column(kind, (q.0, q.1, end)));
                            }
                        }
                    }
                }
                y = y + 1;
            }
            proof {
                let next = (x + 1, w.y_min, w.z_min);
                assert forall|q: Site| #[trigger]
                    state.emitted(kind, include_edges, q) && lex_less(q, next) implies listed(
                    voxels@,
                    q,
                ) by {
                    assert(lex_less(q, (x as int, y as int, w.z_min)));
                }
            }
            x = x + 1;
        }
        proof {
            assert forall|p: Site| listed(voxels@, p) <==> state.emitted(
                kind,
                include_edges,
                p,
            ) by {
                if state.emitted(kind, include_edges, p) {
                    assert(lex_less(p, (x as int, w.y_min, w.z_min)));
                }
            }
        }
        voxels
    }

    /// The voxels of the back walls that can be seen.
    pub fn get_wall_voxels(&self) -> (voxels: Vec<Vector3>)
        requires
            self.wf(),
        ensures
            in_order(voxels@),
            forall|p: Site| listed(voxels@, p) <==> self@.emitted(VoxelKind::Wall, false, p),
            !self@.lattice.degenerate() && self@.draw_distance.0 >= 1 && self@.draw_distance.1 >= 1
                && self@.draw_distance.2 >= 1 ==> voxels@.len() > 0,
    {
        let voxels = self.get_voxels(VoxelKind::Wall, false);
        proof {
            self.lemma_wf();
            if !self@.lattice.degenerate() && self@.draw_distance.0 >= 1 && self@.draw_distance.1
                >= 1 && self@.draw_distance.2 >= 1 {
                self@.lemma_wall_under_corner_emitted();
                assert(listed(voxels@, (0int, 0int, -1int)));
            }
        }
        voxels
    }

    /// The boxes that can be seen, those on the faces of the window
    /// included.
    pub fn get_box_voxels(&self) -> (voxels: Vec<Vector3>)
        requires
            self.wf(),
        ensures
            in_order(voxels@),
            forall|p: Site| listed(voxels@, p) <==> self@.emitted(VoxelKind::Box, true, p),
    {
        self.get_voxels(VoxelKind::Box, true)
    }
}

} // verus!
