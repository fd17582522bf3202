use vstd::prelude::*;
use crate::vector2::{coord_fits, COORD_OFFSET};

verus! {

/// A lattice point as a triple of mathematical integers.
pub type Site = (int, int, int);

/// The number of values a coordinate can take, as a `u128`.
pub const SITE_SPAN: u128 = 0x1_0000_0000;

/// One more than the largest key of a site.
pub const SITE_KEY_END: u128 = 0x1_0000_0000_0000_0000_0000_0000;

/// Whether all three coordinates of `p` can be held by a [`Vector3`].
pub open spec fn site_fits(p: Site) -> bool {
    coord_fits(p.0) && coord_fits(p.1) && coord_fits(p.2)
}

/// Whether every coordinate of `p` lies within `b` of `0`.
pub open spec fn site_within(p: Site, b: int) -> bool {
    -b <= p.0 <= b && -b <= p.1 <= b && -b <= p.2 <= b
}

/// The integer that stands for the site `p` where a site is used as a key:
/// the three coordinates, shifted to be non-negative, as the three digits of
/// a number in base `2^32`.
pub open spec fn site_key(p: Site) -> int {
    ((p.0 + 0x8000_0000) * 0x1_0000_0000 + (p.1 + 0x8000_0000)) * 0x1_0000_0000 + (p.2
        + 0x8000_0000)
}

/// The site that the key `k` stands for.
pub open spec fn key_site(k: int) -> Site {
    (
        k / 0x1_0000_0000_0000_0000 - 0x8000_0000,
        (k / 0x1_0000_0000) % 0x1_0000_0000 - 0x8000_0000,
        k % 0x1_0000_0000 - 0x8000_0000,
    )
}

/// Whether `k` is the key of a site that fits.
pub open spec fn is_site_key(k: int) -> bool {
    0 <= k < 0x1_0000_0000_0000_0000_0000_0000
}

/// Decoding the key of a site that fits gives the site back.
pub proof fn lemma_site_key_round_trip(p: Site)
    requires
        site_fits(p),
    ensures
        is_site_key(site_key(p)),
        key_site(site_key(p)) == p,
{
}

/// Every key below `2^96` is the key of exactly one site that fits.
pub proof fn lemma_key_site_round_trip(k: int)
    requires
        is_site_key(k),
    ensures
        site_fits(key_site(k)),
        site_key(key_site(k)) == k,
{
}

/// A point of the lattice: its x, y and z coordinates.
#[derive(Debug, Hash, Eq, PartialEq, Clone, Copy, Structural)]
pub struct Vector3(pub i32, pub i32, pub i32);

impl View for Vector3 {
    type V = Site;

    open spec fn view(&self) -> Site {
        (self.0 as int, self.1 as int, self.2 as int)
    }
}

impl Vector3 {
    /// The key of this site.
    pub fn key(&self) -> (k: u128)
        ensures
            k == site_key(self@),
            is_site_key(k as int),
    {
        let a: u128 = (self.0 as i64 + COORD_OFFSET) as u128;
        let b: u128 = (self.1 as i64 + COORD_OFFSET) as u128;
        let c: u128 = (self.2 as i64 + COORD_OFFSET) as u128;
        (a * SITE_SPAN + b) * SITE_SPAN + c
    }

    /// The site with the key `k`.
    pub fn from_key(k: u128) -> (v: Vector3)
        requires
            is_site_key(k as int),
        ensures
            v@ == key_site(k as int),
            site_key(v@) == k,
    {
        let a: u128 = k / (SITE_SPAN * SITE_SPAN);
        let b: u128 = (k / SITE_SPAN) % SITE_SPAN;
        let c: u128 = k % SITE_SPAN;
        Vector3(
            (a as i64 - COORD_OFFSET) as i32,
            (b as i64 - COORD_OFFSET) as i32,
            (c as i64 - COORD_OFFSET) as i32,
        )
    }
}

} // verus!
