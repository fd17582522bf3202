use vstd::prelude::*;
use vstd::arithmetic::div_mod::{
    lemma_fundamental_div_mod, lemma_fundamental_div_mod_converse_div, lemma_mod_bound,
};
use crate::vector2::Column;
use crate::vector3::Site;

verus! {

/// The quotient of a division by a positive number lies just under the
/// dividend.
pub proof fn lemma_floor_bounds(a: int, d: int)
    requires
        d > 0,
    ensures
        (a / d) * d <= a < (a / d) * d + d,
{
    lemma_fundamental_div_mod(a, d);
    lemma_mod_bound(a, d);
    assert((a / d) * d == d * (a / d)) by (nonlinear_arith);
}

/// The quotient of a division by a positive number is the only integer that
/// lies just under the dividend.
pub proof fn lemma_floor_unique(a: int, d: int, k: int)
    requires
        d > 0,
        k * d <= a < k * d + d,
    ensures
        a / d == k,
{
    let r = a - k * d;
    assert(a == k * d + r);
    lemma_fundamental_div_mod_converse_div(a, d, k, r);
}

/// Adding a multiple of the divisor adds the multiplier to the quotient.
pub proof fn lemma_floor_shift(a: int, d: int, k: int)
    requires
        d > 0,
    ensures
        (a + k * d) / d == a / d + k,
{
    lemma_floor_bounds(a, d);
    assert((a / d + k) * d == (a / d) * d + k * d) by (nonlinear_arith);
    lemma_floor_unique(a + k * d, d, a / d + k);
}

/// Whether the point at `free` along the axis of the smaller shift and at
/// the height `z` is a wall, where one period moves a point by `skew` along
/// that axis and by `rise` in height.
pub open spec fn wall_at(free: int, z: int, skew: int, rise: int) -> bool {
    z < 0 || rise == 0 || free < -(z / rise) * skew
}

/// The height of the floor at `free` along the axis of the smaller shift.
pub open spec fn level_at(free: int, skew: int, rise: int) -> int {
    if free >= 0 {
        0
    } else {
        rise * ((-free - 1) / skew + 1)
    }
}

/// Where a point is no wall, the floor under it is not above it.
pub proof fn lemma_level_below(free: int, z: int, skew: int, rise: int)
    requires
        skew >= 0,
        rise > 0,
        !wall_at(free, z, skew, rise),
    ensures
        0 <= level_at(free, skew, rise) <= z,
        free < 0 ==> skew > 0,
{
    let q = z / rise;
    lemma_floor_bounds(z, rise);
    assert(q >= 0) by (nonlinear_arith)
        requires
            q * rise + rise > z,
            z >= 0,
            rise > 0,
    ;
    assert(q * skew >= 0) by (nonlinear_arith)
        requires
            q >= 0,
            skew >= 0,
    ;
    assert((-q) * skew == -(q * skew)) by (nonlinear_arith);
    if free < 0 {
        assert(skew > 0) by (nonlinear_arith)
            requires
                skew >= 0,
                free >= -(q * skew),
                free < 0,
        ;
        let j = (-free - 1) / skew;
        lemma_floor_bounds(-free - 1, skew);
        assert(j + 1 <= q) by (nonlinear_arith)
            requires
                j * skew <= -free - 1,
                -free <= q * skew,
                skew > 0,
        ;
        assert(j >= 0) by (nonlinear_arith)
            requires
                j * skew + skew > -free - 1,
                -free - 1 >= 0,
                skew > 0,
        ;
        assert(0 <= rise * (j + 1) <= z) by (nonlinear_arith)
            requires
                0 <= j + 1 <= q,
                q * rise <= z,
                rise > 0,
        ;
    }
}

/// Where a point is no wall and the point under it is one, the point lies
/// on the floor.
pub proof fn lemma_level_at_floor(free: int, z: int, skew: int, rise: int)
    requires
        skew >= 0,
        rise > 0,
        !wall_at(free, z, skew, rise),
        wall_at(free, z - 1, skew, rise),
    ensures
        level_at(free, skew, rise) == z,
{
    let q = z / rise;
    lemma_floor_bounds(z, rise);
    assert((-q) * skew == -(q * skew)) by (nonlinear_arith);
    if z == 0 {
        lemma_floor_unique(0, rise, 0);
        assert(0 * skew == 0) by (nonlinear_arith);
    } else {
        let q1 = (z - 1) / rise;
        lemma_floor_bounds(z - 1, rise);
        assert((-q1) * skew == -(q1 * skew)) by (nonlinear_arith);
        assert(q1 <= q <= q1 + 1) by (nonlinear_arith)
            requires
                q * rise <= z < q * rise + rise,
                q1 * rise <= z - 1 < q1 * rise + rise,
                rise > 0,
        ;
        assert(q1 >= 0) by (nonlinear_arith)
            requires
                q1 * rise + rise > z - 1,
                z - 1 >= 0,
                rise > 0,
        ;
        assert(q == q1 + 1 && skew > 0 && q1 * skew >= 0) by (nonlinear_arith)
            requires
                q1 <= q <= q1 + 1,
                q1 >= 0,
                skew >= 0,
                free < -(q1 * skew),
                free >= -(q * skew),
        ;
        assert(q * rise == z) by (nonlinear_arith)
            requires
                q == q1 + 1,
                q * rise <= z,
                z - 1 < q1 * rise + rise,
        ;
        assert(q * skew == q1 * skew + skew) by (nonlinear_arith)
            requires
                q == q1 + 1,
        ;
        assert(q1 * skew <= -free - 1 < q1 * skew + skew);
        lemma_floor_unique(-free - 1, skew, q1);
        assert(rise * (q1 + 1) == q * rise) by (nonlinear_arith)
            requires
                q == q1 + 1,
        ;
    }
}

/// In the empty tiling the corner is the one place that is no wall while the
/// places behind it are walls: the place before it along the axis of the
/// smaller shift, the place under it, and the place one period back.
pub proof fn lemma_corner(free: int, z: int, skew: int, rise: int)
    requires
        skew >= 0,
        rise > 0,
    ensures
        (!wall_at(free, z, skew, rise) && wall_at(free - 1, z, skew, rise) && wall_at(
            free,
            z - 1,
            skew,
            rise,
        ) && wall_at(free + skew, z - rise, skew, rise)) <==> (free == 0 && z == 0),
{
    lemma_floor_unique(0, rise, 0);
    assert((-0int) * skew == 0) by (nonlinear_arith);
    if !wall_at(free, z, skew, rise) && wall_at(free - 1, z, skew, rise) && wall_at(
        free,
        z - 1,
        skew,
        rise,
    ) && wall_at(free + skew, z - rise, skew, rise) {
        let q = z / rise;
        lemma_floor_bounds(z, rise);
        lemma_floor_shift(z, rise, -1);
        assert(z + (-1) * rise == z - rise) by (nonlinear_arith);
        assert((z - rise) / rise == q - 1);
        assert((-(q - 1)) * skew == (-q) * skew + skew) by (nonlinear_arith);
        assert(z < rise);
        lemma_floor_unique(z, rise, 0);
        assert(free == 0);
        if z >= 1 {
            lemma_floor_unique(z - 1, rise, 0);
        }
    }
}

/// The periods of a tiling: a lattice point and the point that lies
/// `x_shift` further along x, `y_shift` further along y and `z_height` lower
/// stand for the same place. With both shifts `0` no two points do.
pub struct Lattice {
    pub x_shift: int,
    pub y_shift: int,
    pub z_height: int,
}

impl Lattice {
    /// No period is negative.
    pub open spec fn valid(self) -> bool {
        0 <= self.x_shift && 0 <= self.y_shift && 0 <= self.z_height
    }

    /// Whether points are identified at all.
    pub open spec fn periodic(self) -> bool {
        !(self.x_shift == 0 && self.y_shift == 0)
    }

    /// Whether the y axis is the one along which a point is brought into the
    /// fundamental domain: it is the axis of the larger shift.
    pub open spec fn along_y(self) -> bool {
        self.y_shift >= self.x_shift
    }

    /// Points are identified, but at no difference of height: every point is
    /// then a wall.
    pub open spec fn degenerate(self) -> bool {
        self.periodic() && self.z_height == 0
    }

    /// The point `k` periods away from `p`.
    pub open spec fn moved_by(self, p: Site, k: int) -> Site {
        (p.0 + k * self.x_shift, p.1 + k * self.y_shift, p.2 - k * self.z_height)
    }

    /// The number of periods between `p` and its representative.
    pub open spec fn shift(self, p: Site) -> int {
        if self.along_y() {
            p.1 / self.y_shift
        } else {
            p.0 / self.x_shift
        }
    }

    /// The representative of `p` in the fundamental domain.
    pub open spec fn normalize(self, p: Site) -> Site {
        if !self.periodic() {
            p
        } else {
            let shift = self.shift(p);
            (
                p.0 - shift * self.x_shift,
                p.1 - shift * self.y_shift,
                p.2 + shift * self.z_height,
            )
        }
    }

    /// The representative of a column.
    pub open spec fn normalize2(self, c: Column) -> Column {
        let n = self.normalize((c.0, c.1, 0));
        (n.0, n.1)
    }

    /// Whether `p` is its own representative.
    pub open spec fn normalized(self, p: Site) -> bool {
        self.normalize(p) == p
    }

    /// Whether `p` lies in one of the three back walls of the empty octant,
    /// or in a copy of one.
    pub open spec fn is_wall(self, p: Site) -> bool {
        if !self.periodic() {
            p.0 < 0 || p.1 < 0 || p.2 < 0
        } else {
            let n = self.normalize(p);
            if self.along_y() {
                wall_at(n.0, n.2, self.x_shift, self.z_height)
            } else {
                wall_at(n.1, n.2, self.y_shift, self.z_height)
            }
        }
    }

    /// The height at which the floor lies under the normalized column `c`:
    /// what has to be added to a stored height to get the z coordinate of
    /// the topmost box.
    pub open spec fn floor_level(self, c: Column) -> int {
        if self.along_y() {
            level_at(c.0, self.x_shift, self.z_height)
        } else {
            level_at(c.1, self.y_shift, self.z_height)
        }
    }

    /// The largest distance that a step to a neighbour can cover in one
    /// coordinate, once the neighbour is brought into the fundamental domain.
    pub open spec fn stride(self) -> int {
        let a = if self.x_shift >= self.y_shift {
            self.x_shift
        } else {
            self.y_shift
        };
        let b = if a >= self.z_height {
            a
        } else {
            self.z_height
        };
        if b >= 1 {
            b
        } else {
            1
        }
    }

    /// The representative lies in the fundamental domain: its coordinate
    /// along the axis of the larger shift is less than that shift, and not
    /// negative.
    pub proof fn lemma_normalize_in_domain(self, p: Site)
        requires
            self.valid(),
            self.periodic(),
        ensures
            self.along_y() ==> 0 <= self.normalize(p).1 < self.y_shift,
            !self.along_y() ==> 0 <= self.normalize(p).0 < self.x_shift,
            self.normalize(p) == self.moved_by(p, -self.shift(p)),
    {
        let s = self.shift(p);
        if self.along_y() {
            lemma_floor_bounds(p.1, self.y_shift);
        } else {
            lemma_floor_bounds(p.0, self.x_shift);
        }
        assert((-s) * self.x_shift == -(s * self.x_shift)) by (nonlinear_arith);
        assert((-s) * self.y_shift == -(s * self.y_shift)) by (nonlinear_arith);
        assert((-s) * self.z_height == -(s * self.z_height)) by (nonlinear_arith);
    }

    /// A point of the fundamental domain is its own representative.
    pub proof fn lemma_domain_is_normalized(self, p: Site)
        requires
            self.valid(),
            self.periodic(),
            self.along_y() ==> 0 <= p.1 < self.y_shift,
            !self.along_y() ==> 0 <= p.0 < self.x_shift,
        ensures
            self.shift(p) == 0,
            self.normalized(p),
    {
        if self.along_y() {
            lemma_floor_unique(p.1, self.y_shift, 0);
        } else {
            lemma_floor_unique(p.0, self.x_shift, 0);
        }
    }

    /// Taking the representative twice is taking it once.
    pub proof fn lemma_normalize_idempotent(self, p: Site)
        requires
            self.valid(),
        ensures
            self.normalized(self.normalize(p)),
    {
        if self.periodic() {
            self.lemma_normalize_in_domain(p);
            self.lemma_domain_is_normalized(self.normalize(p));
        }
    }

    /// Points that lie whole periods apart have the same representative.
    pub proof fn lemma_normalize_moved(self, p: Site, k: int)
        requires
            self.valid(),
            self.periodic(),
        ensures
            self.shift(self.moved_by(p, k)) == self.shift(p) + k,
            self.normalize(self.moved_by(p, k)) == self.normalize(p),
    {
        let q = self.moved_by(p, k);
        let s = self.shift(p);
        if self.along_y() {
            lemma_floor_shift(p.1, self.y_shift, k);
        } else {
            lemma_floor_shift(p.0, self.x_shift, k);
        }
        assert((s + k) * self.x_shift == s * self.x_shift + k * self.x_shift)
            by (nonlinear_arith);
        assert((s + k) * self.y_shift == s * self.y_shift + k * self.y_shift)
            by (nonlinear_arith);
        assert((s + k) * self.z_height == s * self.z_height + k * self.z_height)
            by (nonlinear_arith);
    }

    /// Points with the same representative lie whole periods apart.
    pub proof fn lemma_same_class(self, a: Site, b: Site)
        requires
            self.valid(),
            self.periodic(),
            self.normalize(a) == self.normalize(b),
        ensures
            a == self.moved_by(b, self.shift(a) - self.shift(b)),
    {
        let sa = self.shift(a);
        let sb = self.shift(b);
        assert((sa - sb) * self.x_shift == sa * self.x_shift - sb * self.x_shift)
            by (nonlinear_arith);
        assert((sa - sb) * self.y_shift == sa * self.y_shift - sb * self.y_shift)
            by (nonlinear_arith);
        assert((sa - sb) * self.z_height == sa * self.z_height - sb * self.z_height)
            by (nonlinear_arith);
    }

    /// Moving two points of one class by the same offset gives two points of
    /// one class.
    pub proof fn lemma_normalize_offset(self, a: Site, b: Site, d: Site)
        requires
            self.valid(),
            self.normalize(a) == self.normalize(b),
        ensures
            self.normalize((a.0 + d.0, a.1 + d.1, a.2 + d.2)) == self.normalize(
                (b.0 + d.0, b.1 + d.1, b.2 + d.2),
            ),
    {
        if self.periodic() {
            let k = self.shift(a) - self.shift(b);
            self.lemma_same_class(a, b);
            let b1 = (b.0 + d.0, b.1 + d.1, b.2 + d.2);
            self.lemma_normalize_moved(b1, k);
        }
    }

    /// A step of one unit along an axis leaves the class, unless every point
    /// is a wall.
    pub proof fn lemma_unit_step_leaves_class(self, p: Site, d: Site)
        requires
            self.valid(),
            !self.degenerate(),
            d == (1int, 0int, 0int) || d == (0int, 1int, 0int) || d == (0int, 0int, 1int),
        ensures
            self.normalize((p.0 + d.0, p.1 + d.1, p.2 + d.2)) != self.normalize(p),
    {
        if self.periodic() {
            let q = (p.0 + d.0, p.1 + d.1, p.2 + d.2);
            if self.normalize(q) == self.normalize(p) {
                let k = self.shift(q) - self.shift(p);
                self.lemma_same_class(q, p);
                assert(d.0 == k * self.x_shift);
                assert(d.1 == k * self.y_shift);
                assert(d.2 == -(k * self.z_height));
                assert(false) by (nonlinear_arith)
                    requires
                        d.0 == k * self.x_shift,
                        d.1 == k * self.y_shift,
                        d.2 == -(k * self.z_height),
                        self.z_height > 0,
                        self.x_shift >= 0,
                        self.y_shift >= 0,
                        self.x_shift > 0 || self.y_shift > 0,
                        d == (1int, 0int, 0int) || d == (0int, 1int, 0int) || d == (
                            0int,
                            0int,
                            1int,
                        ),
                ;
            }
        }
    }
}

} // verus!
