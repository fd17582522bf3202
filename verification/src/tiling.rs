use vstd::prelude::*;
use crate::box_map::{BoxMap, FLOOR_HEIGHT};
use crate::configuration::{Configuration, Move};
use crate::lattice::{lemma_floor_bounds, lemma_level_below, Lattice};
use crate::stack::{above, ahead, behind, below, left, right};
use crate::vector2::Vector2;
use crate::vector3::{site_fits, site_within, Site, Vector3};
use crate::vector3_set::Vector3Set;

verus! {

/// How far the window that is drawn reaches along each axis.
#[derive(Debug)]
pub struct DrawDistance {
    pub x: i32,
    pub y: i32,
    pub z: i32,
}

impl View for DrawDistance {
    type V = (int, int, int);

    open spec fn view(&self) -> (int, int, int) {
        (self.x as int, self.y as int, self.z as int)
    }
}

/// The periods of a tiling.
#[derive(Debug)]
pub struct LozengeTilingPeriods {
    pub x_shift: i32,
    pub y_shift: i32,
    pub z_height: i32,
}

impl View for LozengeTilingPeriods {
    type V = Lattice;

    open spec fn view(&self) -> Lattice {
        Lattice {
            x_shift: self.x_shift as int,
            y_shift: self.y_shift as int,
            z_height: self.z_height as int,
        }
    }
}

/// Whether `c` lies at most two steps outside the range of a coordinate:
/// the range in which the neighbours of neighbours of lattice points lie.
pub open spec fn coord_near(c: int) -> bool {
    -0x8000_0002 <= c <= 0x8000_0001
}

/// Whether `c` is a value that a coordinate of a representative of such a
/// point can take.
pub open spec fn coord_wide(c: int) -> bool {
    -0x4000_0002_0000_0000 <= c <= 0x4000_0002_0000_0000
}

/// The number of rounds that a loop from `0` up to `iterations` makes.
pub open spec fn count_of(iterations: i32) -> int {
    if iterations > 0 {
        iterations as int
    } else {
        0
    }
}

/// Whether every move of `moves` is an attempt to put a box.
pub open spec fn all_adds(moves: Seq<Move>) -> bool {
    forall|i: int| 0 <= i < moves.len() ==> #[trigger] moves[i] is Add
}

/// The quotient of `a` by `d`, rounded down.
fn floor_div(a: i64, d: i64) -> (q: i64)
    requires
        d > 0,
        coord_near(a as int),
    ensures
        q == a as int / d as int,
        coord_near(q as int),
{
    proof {
        lemma_floor_bounds(a as int, d as int);
        let k = a as int / d as int;
        assert(-0x8000_0002 <= k <= 0x8000_0001) by (nonlinear_arith)
            requires
                k * d <= a < k * d + d,
                d > 0,
                -0x8000_0002 <= a <= 0x8000_0001,
        ;
    }
    a.checked_div_euclid(d).unwrap()
}

/// A random tiling of the plane by lozenges, held as a stack of boxes in
/// the corner of a room, under optional periodic boundary conditions.
#[derive(Debug)]
pub struct PeriodicLozengeTiling {
    data: BoxMap,
    draw_distance: DrawDistance,
    periods: LozengeTilingPeriods,
    addable_boxes: Vector3Set,
    removable_boxes: Vector3Set,
}

impl View for PeriodicLozengeTiling {
    type V = Configuration;

    /// The state that the engine holds.
    closed spec fn view(&self) -> Configuration {
        Configuration {
            lattice: self.periods@,
            draw_distance: self.draw_distance@,
            heights: self.data@,
            addable: self.addable_boxes@,
            removable: self.removable_boxes@,
        }
    }
}

impl PeriodicLozengeTiling {
    /// The parts are well formed: no period is negative, and a reset brings
    /// the candidates back to those of the empty tiling.
    pub closed spec fn wf(&self) -> bool {
        &&& self.periods@.valid()
        &&& self.data.wf()
        &&& self.addable_boxes.wf()
        &&& self.removable_boxes.wf()
        &&& self.addable_boxes.initial() == set![(0int, 0int, 0int)]
        &&& self.removable_boxes.initial() == Set::<Site>::empty()
    }

    /// The invariant of the engine: that of the state it holds, which fits
    /// in 32-bit coordinates.
    pub open spec fn inv(&self) -> bool {
        &&& self.wf()
        &&& self@.inv()
        &&& self@.representable()
    }

    /// A well-formed engine holds valid periods, and all that it holds but
    /// the tops of its columns fits in 32-bit coordinates.
    pub proof fn lemma_wf(&self)
        requires
            self.wf(),
        ensures
            self@.lattice.valid(),
            self@.lattice.fits(),
            self@.heights.dom().finite(),
            forall|p: Site| #[trigger] self@.addable.contains(p) ==> site_fits(p),
            forall|p: Site| #[trigger] self@.removable.contains(p) ==> site_fits(p),
            forall|c: (int, int)| #[trigger]
                self@.heights.contains_key(c) ==> crate::vector2::column_fits(c) && 0
                    <= self@.heights[c] <= i32::MAX,
    {
        self.addable_boxes.lemma_members_fit();
        self.removable_boxes.lemma_members_fit();
    }

    /// The empty tiling with the given periods, none of them negative, and
    /// the given window.
    pub fn new(
        periods_x_shift: i32,
        periods_y_shift: i32,
        periods_z_height: i32,
        draw_distance_x: i32,
        draw_distance_y: i32,
        draw_distance_z: i32,
    ) -> (r: PeriodicLozengeTiling)
        requires
            0 <= periods_x_shift,
            0 <= periods_y_shift,
            0 <= periods_z_height,
        ensures
            r.inv(),
            r@ == Configuration::initial(
                (Lattice {
                    x_shift: periods_x_shift as int,
                    y_shift: periods_y_shift as int,
                    z_height: periods_z_height as int,
                }),
                (draw_distance_x as int, draw_distance_y as int, draw_distance_z as int),
            ),
    {
        let mut corner: Vec<Vector3> = Vec::new();
        corner.push(Vector3(0, 0, 0));
        let r = PeriodicLozengeTiling {
            data: BoxMap::new(),
            draw_distance: DrawDistance {
                x: draw_distance_x,
                y: draw_distance_y,
                z: draw_distance_z,
            },
            periods: LozengeTilingPeriods {
                x_shift: periods_x_shift,
                y_shift: periods_y_shift,
                z_height: periods_z_height,
            },
            addable_boxes: Vector3Set::new(Some(corner)),
            removable_boxes: Vector3Set::new(None),
        };
        proof {
            assert(corner@[0]@ == (0int, 0int, 0int));
            assert(r.addable_boxes@ =~= set![(0int, 0int, 0int)]);
            Configuration::lemma_initial_inv(r.periods@, r.draw_distance@);
        }
        r
    }

    /// Takes every box away: the state is that of a new engine with the
    /// same periods and window.
    pub fn reset(&mut self)
        requires
            old(self).wf(),
        ensures
            final(self).inv(),
            final(self)@ == Configuration::initial(old(self)@.lattice, old(self)@.draw_distance),
    {
        self.data.clear();
        self.addable_boxes.reset();
        self.removable_boxes.reset();
        proof {
            Configuration::lemma_initial_inv(self.periods@, self.draw_distance@);
        }
    }

    /// Takes new periods, none of them negative, and resets.
    pub fn set_periods(&mut self, x_shift: i32, y_shift: i32, z_height: i32)
        requires
            old(self).wf(),
            0 <= x_shift,
            0 <= y_shift,
            0 <= z_height,
        ensures
            final(self).inv(),
            final(self)@ == Configuration::initial(
                (Lattice {
                    x_shift: x_shift as int,
                    y_shift: y_shift as int,
                    z_height: z_height as int,
                }),
                old(self)@.draw_distance,
            ),
    {
        self.periods.x_shift = x_shift;
        self.periods.y_shift = y_shift;
        self.periods.z_height = z_height;
        self.reset();
    }

    /// Takes a new window. The boxes stay.
    pub fn set_draw_distance(&mut self, x: i32, y: i32, z: i32)
        requires
            old(self).inv(),
        ensures
            final(self).inv(),
            final(self)@ == (Configuration {
                draw_distance: (x as int, y as int, z as int),
                ..old(self)@
            }),
    {
        self.draw_distance.x = x;
        self.draw_distance.y = y;
        self.draw_distance.z = z;
        proof {
            old(self)@.lemma_inv_without_window((x as int, y as int, z as int));
        }
    }

    /// The periods.
    pub fn periods(&self) -> (r: &LozengeTilingPeriods)
        ensures
            r@ == self@.lattice,
    {
        &self.periods
    }

    /// How far the window that is drawn reaches.
    pub fn draw_distance(&self) -> (r: &DrawDistance)
        ensures
            r@ == self@.draw_distance,
    {
        &self.draw_distance
    }

    /// The representative of the point `(x, y, z)`, which may lie up to two
    /// steps outside the range of a `Vector3`.
    fn normalize_wide(&self, x: i64, y: i64, z: i64) -> (n: (i64, i64, i64))
        requires
            self.periods@.valid(),
            coord_near(x as int),
            coord_near(y as int),
            coord_near(z as int),
        ensures
            (n.0 as int, n.1 as int, n.2 as int) == self.periods@.normalize(
                (x as int, y as int, z as int),
            ),
            coord_wide(n.0 as int),
            coord_wide(n.1 as int),
            coord_wide(n.2 as int),
    {
        let x_shift = self.periods.x_shift as i64;
        let y_shift = self.periods.y_shift as i64;
        let z_height = self.periods.z_height as i64;

        if x_shift == 0 && y_shift == 0 {
            return (x, y, z);
        }
        let shift = if y_shift >= x_shift {
            floor_div(y, y_shift)
        } else {
            floor_div(x, x_shift)
        };
        proof {
            assert(-0x4000_0000_8000_0000 <= shift * x_shift <= 0x4000_0000_8000_0000)
                by (nonlinear_arith)
                requires
                    -0x8000_0002 <= shift <= 0x8000_0001,
                    0 <= x_shift <= 0x7fff_ffff,
            ;
            assert(-0x4000_0000_8000_0000 <= shift * y_shift <= 0x4000_0000_8000_0000)
                by (nonlinear_arith)
                requires
                    -0x8000_0002 <= shift <= 0x8000_0001,
                    0 <= y_shift <= 0x7fff_ffff,
            ;
            assert(-0x4000_0000_8000_0000 <= shift * z_height <= 0x4000_0000_8000_0000)
                by (nonlinear_arith)
                requires
                    -0x8000_0002 <= shift <= 0x8000_0001,
                    0 <= z_height <= 0x7fff_ffff,
            ;
        }
        (x - shift * x_shift, y - shift * y_shift, z + shift * z_height)
    }

    /// The representative of `vector`.
    pub fn normalize3(&self, vector: &Vector3) -> (n: Vector3)
        requires
            self.wf(),
            site_fits(self@.normalize(vector@)),
        ensures
            n@ == self@.normalize(vector@),
    {
        let n = self.normalize_wide(vector.0 as i64, vector.1 as i64, vector.2 as i64);
        Vector3(n.0 as i32, n.1 as i32, n.2 as i32)
    }

    /// The representative of the column `vector`.
    pub fn normalize2(&self, vector: &Vector2) -> (n: Vector2)
        requires
            self.wf(),
            site_fits(self@.normalize((vector@.0, vector@.1, 0))),
        ensures
            n@ == self@.lattice.normalize2(vector@),
    {
        let n = self.normalize3(&Vector3(vector.0, vector.1, 0));
        Vector2(n.0, n.1)
    }

    /// Whether the point `(x, y, z)` lies in a back wall.
    pub(crate) fn is_wall_wide(&self, x: i64, y: i64, z: i64) -> (r: bool)
        requires
            self@.lattice.valid(),
            coord_near(x as int),
            coord_near(y as int),
            coord_near(z as int),
        ensures
            r == self@.is_wall((x as int, y as int, z as int)),
    {
        let x_shift = self.periods.x_shift;
        let y_shift = self.periods.y_shift;
        let z_height = self.periods.z_height;

        if x_shift == 0 && y_shift == 0 {
            return x < 0 || y < 0 || z < 0;
        }
        let (nx, ny, nz) = self.normalize_wide(x, y, z);
        if nz < 0 || z_height == 0 {
            return true;
        }
        let levels = nz / (z_height as i64);
        proof {
            lemma_floor_bounds(nz as int, z_height as int);
            assert(0 <= nz as int / z_height as int <= nz) by (nonlinear_arith)
                requires
                    (nz as int / z_height as int) * z_height <= nz < (nz as int / z_height as int)
                        * z_height + z_height,
                    z_height > 0,
                    nz >= 0,
            ;
            assert(0 <= levels * x_shift <= 0x4000_0002_0000_0000 * 0x8000_0000)
                by (nonlinear_arith)
                requires
                    0 <= levels <= 0x4000_0002_0000_0000,
                    0 <= x_shift <= 0x7fff_ffff,
            ;
            assert(0 <= levels * y_shift <= 0x4000_0002_0000_0000 * 0x8000_0000)
                by (nonlinear_arith)
                requires
                    0 <= levels <= 0x4000_0002_0000_0000,
                    0 <= y_shift <= 0x7fff_ffff,
            ;
            assert((-(levels as int)) * x_shift == -(levels * x_shift)) by (nonlinear_arith);
            assert((-(levels as int)) * y_shift == -(levels * y_shift)) by (nonlinear_arith);
        }
        if y_shift >= x_shift {
            (nx as i128) < -((levels as i128) * (x_shift as i128))
        } else {
            (ny as i128) < -((levels as i128) * (y_shift as i128))
        }
    }

    /// The z coordinate of the topmost box of the normalized column
    /// `(nx, ny)`.
    fn get_height(&self, nx: i64, ny: i64) -> (h: i128)
        requires
            self.wf(),
            coord_wide(nx as int),
            coord_wide(ny as int),
            self.periods@.along_y() ==> nx >= 0 || self.periods.x_shift > 0,
            !self.periods@.along_y() ==> ny >= 0 || self.periods.y_shift > 0,
        ensures
            h == self.periods@.effective_height(self.data@, (nx as int, ny as int)),
    {
        let x_shift = self.periods.x_shift;
        let y_shift = self.periods.y_shift;
        let z_height = self.periods.z_height;

        let saved_height: i32 = if -0x8000_0000 <= nx && nx <= 0x7fff_ffff && -0x8000_0000 <= ny
            && ny <= 0x7fff_ffff {
            *self.data.get(&Vector2(nx as i32, ny as i32))
        } else {
            FLOOR_HEIGHT
        };
        let free = if y_shift >= x_shift {
            nx
        } else {
            ny
        };
        let skew = if y_shift >= x_shift {
            x_shift
        } else {
            y_shift
        };
        if free >= 0 {
            saved_height as i128
        } else {
            let periods_away = (-free - 1) / (skew as i64) + 1;
            proof {
                lemma_floor_bounds(-free - 1, skew as int);
                let j = (-free - 1) / (skew as int);
                assert(0 <= j <= -free - 1) by (nonlinear_arith)
                    requires
                        j * skew <= -free - 1 < j * skew + skew,
                        skew > 0,
                        -free - 1 >= 0,
                ;
                assert(0 <= z_height * periods_away <= 0x8000_0000 * 0x4000_0002_0000_0000)
                    by (nonlinear_arith)
                    requires
                        0 <= periods_away <= 0x4000_0002_0000_0000,
                        0 <= z_height <= 0x7fff_ffff,
                ;
            }
            saved_height as i128 + (z_height as i128) * (periods_away as i128)
        }
    }

    /// Whether a box lies at the point `(x, y, z)`.
    pub(crate) fn is_box_wide(&self, x: i64, y: i64, z: i64) -> (r: bool)
        requires
            self.wf(),
            coord_near(x as int),
            coord_near(y as int),
            coord_near(z as int),
        ensures
            r == self@.is_box((x as int, y as int, z as int)),
    {
        if self.is_wall_wide(x, y, z) {
            return false;
        }
        let (nx, ny, nz) = self.normalize_wide(x, y, z);
        proof {
            let l = self.periods@;
            if l.periodic() {
                if l.along_y() {
                    lemma_level_below(nx as int, nz as int, l.x_shift, l.z_height);
                } else {
                    lemma_level_below(ny as int, nz as int, l.y_shift, l.z_height);
                }
            }
        }
        self.get_height(nx, ny) >= nz as i128
    }

    /// Whether the point `(x, y, z)` is filled.
    fn is_wall_or_box_wide(&self, x: i64, y: i64, z: i64) -> (r: bool)
        requires
            self.wf(),
            coord_near(x as int),
            coord_near(y as int),
            coord_near(z as int),
        ensures
            r == self@.is_wall_or_box((x as int, y as int, z as int)),
    {
        self.is_wall_wide(x, y, z) || self.is_box_wide(x, y, z)
    }

    /// Whether a box can be put at the point `(x, y, z)`.
    fn can_add_wide(&self, x: i64, y: i64, z: i64) -> (r: bool)
        requires
            self.wf(),
            -0x8000_0001 <= x <= 0x8000_0000,
            -0x8000_0001 <= y <= 0x8000_0000,
            -0x8000_0001 <= z <= 0x8000_0000,
        ensures
            r == self@.can_add((x as int, y as int, z as int)),
    {
        let x_shift = self.periods.x_shift;
        let y_shift = self.periods.y_shift;
        let z_height = self.periods.z_height;

        if x_shift == 0 && y_shift == 0 && z_height > 0 && z > z_height as i64 - 1 {
            return false;
        }
        !self.is_wall_or_box_wide(x, y, z) && self.is_wall_or_box_wide(x - 1, y, z)
            && self.is_wall_or_box_wide(x, y - 1, z) && self.is_wall_or_box_wide(x, y, z - 1)
    }

    /// Whether the box at the point `(x, y, z)` can be taken away.
    fn can_remove_wide(&self, x: i64, y: i64, z: i64) -> (r: bool)
        requires
            self.wf(),
            -0x8000_0001 <= x <= 0x8000_0000,
            -0x8000_0001 <= y <= 0x8000_0000,
            -0x8000_0001 <= z <= 0x8000_0000,
        ensures
            r == self@.can_remove((x as int, y as int, z as int)),
    {
        self.is_box_wide(x, y, z) && !self.is_box_wide(x + 1, y, z) && !self.is_box_wide(
            x,
            y + 1,
            z,
        ) && !self.is_box_wide(x, y, z + 1)
    }

    /// Whether `vector` lies in a back wall.
    pub fn is_wall(&self, vector: &Vector3) -> (r: bool)
        requires
            self.wf(),
        ensures
            r == self@.is_wall(vector@),
    {
        self.is_wall_wide(vector.0 as i64, vector.1 as i64, vector.2 as i64)
    }

    /// Whether a box lies at `vector`.
    pub fn is_box(&self, vector: &Vector3) -> (r: bool)
        requires
            self.wf(),
        ensures
            r == self@.is_box(vector@),
    {
        self.is_box_wide(vector.0 as i64, vector.1 as i64, vector.2 as i64)
    }

    /// Whether `vector` is filled, by a wall or by a box.
    pub fn is_wall_or_box(&self, vector: &Vector3) -> (r: bool)
        requires
            self.wf(),
        ensures
            r == self@.is_wall_or_box(vector@),
    {
        self.is_wall(vector) || self.is_box(vector)
    }

    /// Whether a box can be put at `vector`.
    pub fn can_add_box(&self, vector: &Vector3) -> (r: bool)
        requires
            self.wf(),
        ensures
            r == self@.can_add(vector@),
    {
        self.can_add_wide(vector.0 as i64, vector.1 as i64, vector.2 as i64)
    }

    /// Whether the box at `vector` can be taken away.
    pub fn can_remove_box(&self, vector: &Vector3) -> (r: bool)
        requires
            self.wf(),
        ensures
            r == self@.can_remove(vector@),
    {
        self.can_remove_wide(vector.0 as i64, vector.1 as i64, vector.2 as i64)
    }

    /// Puts one box on the normalized column `vector`.
    fn increment_height(&mut self, vector: &Vector2)
        requires
            old(self).wf(),
            old(self)@.lattice.normalized((vector@.0, vector@.1, 0)),
            old(self).data.height(vector@) < i32::MAX,
        ensures
            final(self).wf(),
            final(self)@ == (Configuration {
                heights: crate::box_map::raise(old(self)@.heights, vector@),
                ..old(self)@
            }),
    {
        let column = self.normalize2(vector);
        self.data.increment(&column);
    }

    /// Takes the topmost box from the normalized column `vector`.
    fn decrement_height(&mut self, vector: &Vector2)
        requires
            old(self).wf(),
            old(self)@.lattice.normalized((vector@.0, vector@.1, 0)),
            old(self)@.heights.contains_key(vector@),
        ensures
            final(self).wf(),
            final(self)@ == (Configuration {
                heights: crate::box_map::lower(old(self)@.heights, vector@),
                ..old(self)@
            }),
    {
        let column = self.normalize2(vector);
        self.data.decrement(&column);
    }

    /// Makes the representative of `(x, y, z)` a candidate for adding.
    fn add_addable_box(&mut self, x: i64, y: i64, z: i64)
        requires
            old(self).wf(),
            coord_near(x as int),
            coord_near(y as int),
            coord_near(z as int),
            site_fits(old(self)@.normalize((x as int, y as int, z as int))),
        ensures
            final(self).wf(),
            final(self)@ == (Configuration {
                addable: old(self)@.addable.insert(
                    old(self)@.normalize((x as int, y as int, z as int)),
                ),
                ..old(self)@
            }),
    {
        let n = self.normalize_wide(x, y, z);
        self.addable_boxes.insert(Vector3(n.0 as i32, n.1 as i32, n.2 as i32));
    }

    /// Makes the representative of `(x, y, z)` no candidate for adding.
    fn remove_addable_box(&mut self, x: i64, y: i64, z: i64)
        requires
            old(self).wf(),
            coord_near(x as int),
            coord_near(y as int),
            coord_near(z as int),
        ensures
            final(self).wf(),
            final(self)@ == (Configuration {
                addable: old(self)@.addable.remove(
                    old(self)@.normalize((x as int, y as int, z as int)),
                ),
                ..old(self)@
            }),
    {
        let n = self.normalize_wide(x, y, z);
        if -0x8000_0000 <= n.0 && n.0 <= 0x7fff_ffff && -0x8000_0000 <= n.1 && n.1 <= 0x7fff_ffff
            && -0x8000_0000 <= n.2 && n.2 <= 0x7fff_ffff {
            self.addable_boxes.remove(&Vector3(n.0 as i32, n.1 as i32, n.2 as i32));
        } else {
            proof {
                self.lemma_wf();
                assert(self@.addable.remove((n.0 as int, n.1 as int, n.2 as int))
                    =~= self@.addable);
            }
        }
    }

    /// Makes the representative of `(x, y, z)` a candidate for removal.
    fn add_removable_box(&mut self, x: i64, y: i64, z: i64)
        requires
            old(self).wf(),
            coord_near(x as int),
            coord_near(y as int),
            coord_near(z as int),
            site_fits(old(self)@.normalize((x as int, y as int, z as int))),
        ensures
            final(self).wf(),
            final(self)@ == (Configuration {
                removable: old(self)@.removable.insert(
                    old(self)@.normalize((x as int, y as int, z as int)),
                ),
                ..old(self)@
            }),
    {
        let n = self.normalize_wide(x, y, z);
        self.removable_boxes.insert(Vector3(n.0 as i32, n.1 as i32, n.2 as i32));
    }

    /// Makes the representative of `(x, y, z)` no candidate for removal.
    fn remove_removable_box(&mut self, x: i64, y: i64, z: i64)
        requires
            old(self).wf(),
            coord_near(x as int),
            coord_near(y as int),
            coord_near(z as int),
        ensures
            final(self).wf(),
            final(self)@ == (Configuration {
                removable: old(self)@.removable.remove(
                    old(self)@.normalize((x as int, y as int, z as int)),
                ),
                ..old(self)@
            }),
    {
        let n = self.normalize_wide(x, y, z);
        if -0x8000_0000 <= n.0 && n.0 <= 0x7fff_ffff && -0x8000_0000 <= n.1 && n.1 <= 0x7fff_ffff
            && -0x8000_0000 <= n.2 && n.2 <= 0x7fff_ffff {
            self.removable_boxes.remove(&Vector3(n.0 as i32, n.1 as i32, n.2 as i32));
        } else {
            proof {
                self.lemma_wf();
                assert(self@.removable.remove((n.0 as int, n.1 as int, n.2 as int))
                    =~= self@.removable);
            }
        }
    }

    /// Puts a box at `vector` if one can be put there, and brings the
    /// candidates up to date. The new candidates must fit in 32-bit
    /// coordinates; they do where the old ones leave a stride of room (see
    /// [`Configuration::lemma_add_box_representable`]).
    pub fn add_box(&mut self, vector: Vector3)
        requires
            old(self).inv(),
            old(self)@.add_box(vector@).representable(),
        ensures
            final(self).inv(),
            final(self)@ == old(self)@.add_box(vector@),
    {
        if self.can_add_box(&vector) {
            let x = vector.0 as i64;
            let y = vector.1 as i64;
            let z = vector.2 as i64;
            let ghost p = vector@;
            let ghost start = self@;
            let ghost grown = start.raised(p);
            let ghost after = start.add_box(p);
            proof {
                assert(grown.can_add(right(p)) ==> after.addable.contains(
                    start.normalize(right(p)),
                ));
                assert(grown.can_add(ahead(p)) ==> after.addable.contains(
                    start.normalize(ahead(p)),
                ));
                assert(grown.can_add(above(p)) ==> after.addable.contains(
                    start.normalize(above(p)),
                ));
                start.lemma_candidates_match(p);
                start.lattice.lemma_addable_on_top(start.heights, p);
                start.lattice.lemma_normalize_idempotent(p);
                start.lattice.lemma_column_of_normalized(start.normalize(p));
                start.lemma_add_box_inv(p);
            }
            let n = self.normalize3(&vector);
            self.increment_height(&Vector2(n.0, n.1));
            self.remove_addable_box(x, y, z);
            self.add_removable_box(x, y, z);
            assert(self@.heights == grown.heights);

            if self.can_add_wide(x + 1, y, z) {
                self.add_addable_box(x + 1, y, z);
            }
            if self.can_add_wide(x, y + 1, z) {
                self.add_addable_box(x, y + 1, z);
            }
            if self.can_add_wide(x, y, z + 1) {
                self.add_addable_box(x, y, z + 1);
            }
            if !self.can_remove_wide(x - 1, y, z) {
                self.remove_removable_box(x - 1, y, z);
            }
            if !self.can_remove_wide(x, y - 1, z) {
                self.remove_removable_box(x, y - 1, z);
            }
            if !self.can_remove_wide(x, y, z - 1) {
                self.remove_removable_box(x, y, z - 1);
            }
            assert(self@ == start.add_box(p));
        }
    }

    /// Takes the box at `vector` away if it can be taken, and brings the
    /// candidates up to date.
    pub fn remove_box(&mut self, vector: Vector3)
        requires
            old(self).inv(),
        ensures
            final(self).inv(),
            final(self)@ == old(self)@.remove_box(vector@),
    {
        if self.can_remove_box(&vector) {
            let x = vector.0 as i64;
            let y = vector.1 as i64;
            let z = vector.2 as i64;
            let ghost p = vector@;
            let ghost start = self@;
            let ghost shrunk = start.lowered(p);
            let ghost after = start.remove_box(p);
            proof {
                assert(shrunk.can_remove(left(p)) ==> after.removable.contains(
                    start.normalize(left(p)),
                ));
                assert(shrunk.can_remove(behind(p)) ==> after.removable.contains(
                    start.normalize(behind(p)),
                ));
                assert(shrunk.can_remove(below(p)) ==> after.removable.contains(
                    start.normalize(below(p)),
                ));
                start.lemma_candidates_match(p);
                start.lattice.lemma_removable_on_top(start.heights, p);
                start.lattice.lemma_normalize_idempotent(p);
                start.lattice.lemma_column_of_normalized(start.normalize(p));
                start.lemma_remove_box_inv(p);
                start.lemma_remove_box_representable(p);
            }
            let n = self.normalize3(&vector);
            self.decrement_height(&Vector2(n.0, n.1));
            self.remove_removable_box(x, y, z);
            self.add_addable_box(x, y, z);
            assert(self@.heights == shrunk.heights);

            if !self.can_add_wide(x + 1, y, z) {
                self.remove_addable_box(x + 1, y, z);
            }
            if !self.can_add_wide(x, y + 1, z) {
                self.remove_addable_box(x, y + 1, z);
            }
            if !self.can_add_wide(x, y, z + 1) {
                self.remove_addable_box(x, y, z + 1);
            }
            if self.can_remove_wide(x - 1, y, z) {
                self.add_removable_box(x - 1, y, z);
            }
            if self.can_remove_wide(x, y - 1, z) {
                self.add_removable_box(x, y - 1, z);
            }
            if self.can_remove_wide(x, y, z - 1) {
                self.add_removable_box(x, y, z - 1);
            }
            assert(self@ == start.remove_box(p));
        }
    }

    /// A place where a box can be put, drawn at random.
    fn get_random_addable_box(&mut self) -> (r: Option<Vector3>)
        requires
            old(self).wf(),
        ensures
            final(self).wf(),
            final(self)@ == old(self)@,
            r is None <==> old(self)@.addable.is_empty(),
            r is Some ==> old(self)@.addable.contains(r->0@),
    {
        self.addable_boxes.get_random()
    }

    /// A box that can be taken away, drawn at random.
    fn get_random_removable_box(&mut self) -> (r: Option<Vector3>)
        requires
            old(self).wf(),
        ensures
            final(self).wf(),
            final(self)@ == old(self)@,
            r is None <==> old(self)@.removable.is_empty(),
            r is Some ==> old(self)@.removable.contains(r->0@),
    {
        self.removable_boxes.get_random()
    }

    /// Whether `vector` is held as a place where a box can be put.
    pub fn is_addable(&self, vector: &Vector3) -> (r: bool)
        requires
            self.wf(),
        ensures
            r == self@.addable.contains(vector@),
    {
        self.addable_boxes.contains(vector)
    }

    /// Whether `vector` is held as a box that can be taken away.
    pub fn is_removable(&self, vector: &Vector3) -> (r: bool)
        requires
            self.wf(),
        ensures
            r == self@.removable.contains(vector@),
    {
        self.removable_boxes.contains(vector)
    }

    /// Whether every candidate lies within `bound` of the origin in each
    /// coordinate.
    pub fn fits_within(&self, bound: i32) -> (r: bool)
        requires
            self.wf(),
        ensures
            r == self@.bounded_by(bound as int),
    {
        let addable_within = self.addable_boxes.all_within(bound);
        let removable_within = self.removable_boxes.all_within(bound);
        proof {
            assert(self@.addable == self.addable_boxes@);
            assert(self@.removable == self.removable_boxes@);
            if addable_within && removable_within {
                assert(self@.bounded_by(bound as int));
            }
            if self@.bounded_by(bound as int) {
                assert forall|p: Site| #[trigger] self.addable_boxes@.contains(p) implies site_within(
                    p,
                    bound as int,
                ) by {
                    assert(self@.addable.contains(p));
                }
                assert forall|p: Site| #[trigger]
                    self.removable_boxes@.contains(p) implies site_within(p, bound as int) by {
                    assert(self@.removable.contains(p));
                }
            }
        }
        addable_within && removable_within
    }

    /// The largest distance that one step to a neighbour can cover in one
    /// coordinate: the largest period, and at least `1`.
    pub fn stride(&self) -> (r: i32)
        requires
            self.wf(),
        ensures
            r == self@.lattice.stride(),
            r >= 1,
    {
        let a = if self.periods.x_shift >= self.periods.y_shift {
            self.periods.x_shift
        } else {
            self.periods.y_shift
        };
        let b = if a >= self.periods.z_height {
            a
        } else {
            self.periods.z_height
        };
        if b >= 1 {
            b
        } else {
            1
        }
    }

    /// The number of places where a box can be put.
    pub fn addable_boxes_count(&self) -> (n: usize)
        requires
            self.wf(),
        ensures
            n == self@.addable.len(),
    {
        self.addable_boxes.len()
    }

    /// The number of boxes that can be taken away.
    pub fn removable_boxes_count(&self) -> (n: usize)
        requires
            self.wf(),
        ensures
            n == self@.removable.len(),
    {
        self.removable_boxes.len()
    }

    /// Puts a box at a place drawn at random from the places where one can
    /// be put. There always is such a place. The candidates must leave a
    /// stride of room within the range of an `i32`, which
    /// [`Self::fits_within`] tests.
    pub fn add_random_box(&mut self)
        requires
            old(self).inv(),
            old(self)@.bounded_by(i32::MAX - old(self)@.lattice.stride()),
        ensures
            final(self).inv(),
            exists|p: Site|
                old(self)@.addable.contains(p) && final(self)@ == #[trigger] old(self)@.add_box(p),
            final(self)@.lattice == old(self)@.lattice,
            final(self)@.draw_distance == old(self)@.draw_distance,
            final(self)@.box_count() == old(self)@.box_count() + (if old(
                self,
            )@.lattice.degenerate() {
                0int
            } else {
                1int
            }),
            forall|b: int|
                #![trigger final(self)@.bounded_by(b)]
                old(self)@.bounded_by(b - old(self)@.lattice.stride()) ==> final(self)@.bounded_by(
                    b,
                ),
    {
        let ghost start = self@;
        proof {
            start.lemma_addable_nonempty();
        }
        if let Some(box_position) = self.get_random_addable_box() {
            proof {
                let p = box_position@;
                start.lemma_add_box_representable(p, i32::MAX - start.lattice.stride());
                if !start.lattice.degenerate() {
                    start.lemma_candidates_match(p);
                }
                assert forall|b: int|
                    #![trigger start.add_box(p).bounded_by(b)]
                    start.bounded_by(b - start.lattice.stride()) implies start.add_box(
                    p,
                ).bounded_by(b) by {
                    start.lemma_add_box_bounded(p, b - start.lattice.stride());
                }
            }
            self.add_box(box_position);
        }
    }

    /// Takes a box away that is drawn at random from those that can be
    /// taken. Where there is none, nothing changes.
    pub fn remove_random_box(&mut self)
        requires
            old(self).inv(),
        ensures
            final(self).inv(),
            old(self)@.removable.is_empty() ==> final(self)@ == old(self)@,
            !old(self)@.removable.is_empty() ==> exists|p: Site|
                old(self)@.removable.contains(p) && final(self)@ == #[trigger] old(
                    self,
                )@.remove_box(p),
            final(self)@.lattice == old(self)@.lattice,
            final(self)@.draw_distance == old(self)@.draw_distance,
            final(self)@.box_count() == old(self)@.box_count() - (if old(
                self,
            )@.removable.is_empty() {
                0int
            } else {
                1int
            }),
            forall|b: int|
                #![trigger final(self)@.bounded_by(b)]
                old(self)@.bounded_by(b - old(self)@.lattice.stride()) ==> final(self)@.bounded_by(
                    b,
                ),
    {
        let ghost start = self@;
        if let Some(box_position) = self.get_random_removable_box() {
            proof {
                let p = box_position@;
                start.lemma_remove_box_representable(p);
                start.lemma_candidates_match_removable(p);
                assert forall|b: int|
                    #![trigger start.remove_box(p).bounded_by(b)]
                    start.bounded_by(b - start.lattice.stride()) implies start.remove_box(
                    p,
                ).bounded_by(b) by {
                    start.lemma_remove_box_bounded(p, b - start.lattice.stride());
                }
            }
            self.remove_box(box_position);
        } else {
            proof {
                assert forall|b: int|
                    #![trigger start.bounded_by(b)]
                    start.bounded_by(b - start.lattice.stride()) implies start.bounded_by(b) by {
                    start.lemma_bounded_by_more(b - start.lattice.stride(), b);
                }
            }
        }
    }

    /// Puts `iterations` boxes, each at a place drawn at random from the
    /// places where one can be put at that time. The candidates must leave a
    /// stride of room for each box within the range of an `i32`.
    pub fn generate_by_adding_only(&mut self, iterations: i32)
        requires
            old(self).inv(),
            iterations > 0 ==> old(self)@.bounded_by(
                i32::MAX - iterations * old(self)@.lattice.stride(),
            ),
        ensures
            final(self).inv(),
            exists|moves: Seq<Move>|
                moves.len() == count_of(iterations) && all_adds(moves) && old(self)@.draws(moves)
                    && final(self)@ == #[trigger] old(self)@.run(moves),
            final(self)@.lattice == old(self)@.lattice,
            final(self)@.draw_distance == old(self)@.draw_distance,
            final(self)@.box_count() == old(self)@.box_count() + (if old(
                self,
            )@.lattice.degenerate() {
                0int
            } else {
                count_of(iterations)
            }),
            forall|b: int|
                #![trigger final(self)@.bounded_by(b)]
                old(self)@.bounded_by(b - count_of(iterations) * old(self)@.lattice.stride())
                    ==> final(self)@.bounded_by(b),
    {
        let ghost start = self@;
        let ghost stride = start.lattice.stride();
        let ghost mut moves: Seq<Move> = Seq::empty();
        let mut i: i32 = 0;
        proof {
            assert(stride >= 1);
            assert(0 * stride == 0) by (nonlinear_arith);
        }
        while i < iterations
            invariant
                0 <= i,
                iterations > 0 ==> i <= iterations,
                iterations <= 0 ==> i == 0,
                self.inv(),
                stride == start.lattice.stride(),
                stride >= 1,
                self@.lattice == start.lattice,
                self@.draw_distance == start.draw_distance,
                iterations > 0 ==> start.bounded_by(i32::MAX - iterations * stride),
                moves.len() == i,
                all_adds(moves),
                start.draws(moves),
                self@ == start.run(moves),
                self@.box_count() == start.box_count() + (if start.lattice.degenerate() {
                    0int
                } else {
                    i as int
                }),
                forall|b: int|
                    #![trigger self@.bounded_by(b)]
                    start.bounded_by(b - i * stride) ==> self@.bounded_by(b),
            decreases iterations - i,
        {
            let ghost before = self@;
            proof {
                assert(i32::MAX - iterations * stride <= i32::MAX - stride - i * stride)
                    by (nonlinear_arith)
                    requires
                        0 <= i < iterations,
                        stride >= 1,
                ;
                start.lemma_bounded_by_more(
                    i32::MAX - iterations * stride,
                    i32::MAX - stride - i * stride,
                );
                assert(before.bounded_by(i32::MAX - stride));
            }
            self.add_random_box();
            proof {
                let p = choose|p: Site|
                    before.addable.contains(p) && self@ == #[trigger] before.add_box(p);
                start.lemma_run_push(moves, Move::Add(p));
                moves = moves.push(Move::Add(p));
                assert((i + 1) * stride == i * stride + stride) by (nonlinear_arith);
                assert forall|b: int|
                    #![trigger self@.bounded_by(b)]
                    start.bounded_by(b - (i + 1) * stride) implies self@.bounded_by(b) by {
                    assert(before.bounded_by(b - stride));
                }
            }
            i = i + 1;
        }
    }

    /// One step of the Markov chain, once it is decided which of the two
    /// clocks rang first: with `add` a box is put at random, else one is
    /// taken away at random, if there is one to take. To put a box the
    /// candidates must leave a stride of room within the range of an `i32`.
    pub fn markov_step(&mut self, add: bool)
        requires
            old(self).inv(),
            add ==> old(self)@.bounded_by(i32::MAX - old(self)@.lattice.stride()),
        ensures
            final(self).inv(),
            add ==> exists|p: Site|
                old(self)@.addable.contains(p) && final(self)@ == #[trigger] old(self)@.add_box(p),
            !add && old(self)@.removable.is_empty() ==> final(self)@ == old(self)@,
            !add && !old(self)@.removable.is_empty() ==> exists|p: Site|
                old(self)@.removable.contains(p) && final(self)@ == #[trigger] old(
                    self,
                )@.remove_box(p),
            final(self)@.lattice == old(self)@.lattice,
            final(self)@.draw_distance == old(self)@.draw_distance,
            final(self)@.box_count() == old(self)@.box_count() + (if add {
                if old(self)@.lattice.degenerate() {
                    0int
                } else {
                    1int
                }
            } else {
                if old(self)@.removable.is_empty() {
                    0int
                } else {
                    -1int
                }
            }),
            forall|b: int|
                #![trigger final(self)@.bounded_by(b)]
                old(self)@.bounded_by(b - old(self)@.lattice.stride()) ==> final(self)@.bounded_by(
                    b,
                ),
    {
        if add {
            self.add_random_box();
        } else {
            self.remove_random_box();
        }
    }

    /// The number of boxes, one period counted once; nothing where it is
    /// more than an `i32` holds.
    pub fn checked_period_box_count(&self) -> (r: Option<i32>)
        requires
            self.inv(),
        ensures
            match r {
                Some(n) => n == self@.box_count(),
                None => self@.box_count() > i32::MAX,
            },
    {
        self.data.checked_box_count()
    }

    /// The number of boxes, one period counted once. It must be a number
    /// that an `i32` holds; [`Self::checked_period_box_count`] asks for
    /// nothing.
    pub fn get_period_box_count(&self) -> (n: i32)
        requires
            self.inv(),
            self@.box_count() <= i32::MAX,
        ensures
            n == self@.box_count(),
    {
        self.data.box_count()
    }
}

} // verus!
