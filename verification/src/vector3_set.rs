use vstd::prelude::*;
use rand::rngs::ThreadRng;
use rand::seq::IteratorRandom;
use std::collections::HashSet;
use vstd::std_specs::hash::spec_hash_keys_iter;
use vstd::std_specs::iter::IteratorSpec;
use crate::vector3::{
    is_site_key, key_site, lemma_key_site_round_trip, lemma_site_key_round_trip, site_fits,
    site_key, site_within, Site, Vector3,
};

verus! {

/// `rand::rngs::ThreadRng`, the random number generator of the current
/// thread. Nothing is known of a value of it.
#[verifier::external_type_specification]
#[verifier::external_body]
pub struct ExThreadRng(ThreadRng);

/// `rand::thread_rng`: a handle to the generator of the current thread.
#[verifier::external_body]
fn thread_rng() -> ThreadRng {
    rand::thread_rng()
}

/// `rand::seq::IteratorRandom::choose` on the keys of a `HashSet`: one of
/// the keys, or nothing if and only if there is no key. Which key comes is
/// left to the generator.
#[verifier::external_body]
fn choose_key(keys: &HashSet<u128>, rng: &mut ThreadRng) -> (r: Option<u128>)
    ensures
        r is None <==> keys@.is_empty(),
        r is Some ==> keys@.contains(r->0),
{
    keys.iter().choose(rng).copied()
}

/// `Clone::clone` of a `HashSet`: a set with the same keys.
#[verifier::external_body]
fn clone_keys(keys: &HashSet<u128>) -> (r: HashSet<u128>)
    ensures
        r@ == keys@,
{
    keys.clone()
}

/// The sites that occur in `v`.
pub open spec fn sites_of(v: Seq<Vector3>) -> Set<Site> {
    Set::new(|p: Site| exists|i: int| 0 <= i < v.len() && #[trigger] v[i]@ == p)
}

/// The sites that the keys in `keys` stand for.
spec fn sites_of_keys(keys: Set<u128>) -> Set<Site> {
    keys.map(|k: u128| key_site(k as int))
}

/// Whether every key in `keys` stands for a site.
spec fn keys_valid(keys: Set<u128>) -> bool {
    keys.finite() && forall|k: u128| keys.contains(k) ==> is_site_key(k as int)
}

/// Valid keys and the sites they stand for correspond one to one.
proof fn lemma_sites_of_keys(keys: Set<u128>)
    requires
        keys_valid(keys),
    ensures
        sites_of_keys(keys).finite(),
        sites_of_keys(keys).len() == keys.len(),
        forall|p: Site| #[trigger]
            sites_of_keys(keys).contains(p) <==> site_fits(p) && keys.contains(site_key(p) as u128),
{
    let f = |k: u128| key_site(k as int);
    assert(vstd::relations::injective_on(f, keys)) by {
        assert forall|k1: u128, k2: u128|
            keys.contains(k1) && keys.contains(k2) && #[trigger] f(k1) == #[trigger] f(
                k2,
            ) implies k1 == k2 by {
            lemma_key_site_round_trip(k1 as int);
            lemma_key_site_round_trip(k2 as int);
        }
    }
    vstd::set_lib::lemma_map_size(keys, sites_of_keys(keys), f);
    assert forall|p: Site| #[trigger]
        sites_of_keys(keys).contains(p) <==> site_fits(p) && keys.contains(
            site_key(p) as u128,
        ) by {
        if sites_of_keys(keys).contains(p) {
            let k = choose|k: u128| keys.contains(k) && f(k) == p;
            lemma_key_site_round_trip(k as int);
        }
        if site_fits(p) && keys.contains(site_key(p) as u128) {
            lemma_site_key_round_trip(p);
            assert(f(site_key(p) as u128) == p);
        }
    }
}

/// A set of lattice sites with a snapshot of its first members, to which it
/// can be reset, and a random draw from its members.
#[derive(Debug)]
pub struct Vector3Set {
    initial_data: HashSet<u128>,
    data: HashSet<u128>,
    rng: ThreadRng,
}

impl View for Vector3Set {
    type V = Set<Site>;

    /// The members.
    closed spec fn view(&self) -> Set<Site> {
        sites_of_keys(self.data@)
    }
}

impl Vector3Set {
    /// The members that the set was made with.
    pub closed spec fn initial(&self) -> Set<Site> {
        sites_of_keys(self.initial_data@)
    }

    /// The invariant of the set: every key held stands for a site.
    pub closed spec fn wf(&self) -> bool {
        keys_valid(self.data@) && keys_valid(self.initial_data@)
    }

    /// A set holds finitely many sites, and each can be held by a
    /// [`Vector3`].
    pub proof fn lemma_members_fit(&self)
        requires
            self.wf(),
        ensures
            self@.finite(),
            self.initial().finite(),
            forall|p: Site| self@.contains(p) ==> site_fits(p),
            forall|p: Site| self.initial().contains(p) ==> site_fits(p),
    {
        lemma_sites_of_keys(self.data@);
        lemma_sites_of_keys(self.initial_data@);
    }

    /// The set of the sites in `data`, or the empty set; these are also the
    /// members after a reset.
    pub fn new(data: Option<Vec<Vector3>>) -> (r: Vector3Set)
        ensures
            r.wf(),
            r@ == r.initial(),
            r@ == (match data {
                Some(v) => sites_of(v@),
                None => Set::<Site>::empty(),
            }),
    {
        broadcast use vstd::std_specs::hash::group_hash_axioms;

        let mut initial_data: HashSet<u128> = HashSet::new();
        let ghost listed: Seq<Vector3> = if data is Some {
            data->0@
        } else {
            Seq::<Vector3>::empty()
        };
        if let Some(items) = &data {
            let mut i: usize = 0;
            while i < items.len()
                invariant
                    0 <= i <= items@.len(),
                    items@ == listed,
                    keys_valid(initial_data@),
                    forall|k: u128| #[trigger]
                        initial_data@.contains(k) <==> exists|j: int|
                            0 <= j < i && site_key(#[trigger] listed[j]@) == k,
                decreases items@.len() - i,
            {
                let k = items[i].key();
                initial_data.insert(k);
                i = i + 1;
            }
        }
        let r = Vector3Set { data: clone_keys(&initial_data), initial_data, rng: thread_rng() };
        proof {
            lemma_sites_of_keys(r.data@);
            let expected = if data is Some {
                sites_of(listed)
            } else {
                Set::<Site>::empty()
            };
            assert forall|p: Site| r@.contains(p) <==> expected.contains(p) by {
                if r@.contains(p) {
                    let j = choose|j: int|
                        0 <= j < listed.len() && site_key(#[trigger] listed[j]@) == site_key(p);
                    lemma_site_key_round_trip(listed[j]@);
                    lemma_site_key_round_trip(p);
                }
                if expected.contains(p) {
                    let j = choose|j: int| 0 <= j < listed.len() && #[trigger] listed[j]@ == p;
                    lemma_site_key_round_trip(listed[j]@);
                }
            }
            assert(r@ =~= expected);
        }
        r
    }

    /// Makes `vector` a member.
    pub fn insert(&mut self, vector: Vector3)
        requires
            old(self).wf(),
        ensures
            final(self).wf(),
            final(self)@ == old(self)@.insert(vector@),
            final(self).initial() == old(self).initial(),
    {
        broadcast use vstd::std_specs::hash::group_hash_axioms;

        self.data.insert(vector.key());
        proof {
            lemma_sites_of_keys(old(self).data@);
            lemma_sites_of_keys(self.data@);
            lemma_site_key_round_trip(vector@);
            assert forall|p: Site| self@.contains(p) <==> old(self)@.insert(vector@).contains(
                p,
            ) by {
                if site_fits(p) {
                    lemma_site_key_round_trip(p);
                }
            }
            assert(self@ =~= old(self)@.insert(vector@));
        }
    }

    /// Makes `vector` no member.
    pub fn remove(&mut self, vector: &Vector3)
        requires
            old(self).wf(),
        ensures
            final(self).wf(),
            final(self)@ == old(self)@.remove(vector@),
            final(self).initial() == old(self).initial(),
    {
        broadcast use vstd::std_specs::hash::group_hash_axioms;

        let k = vector.key();
        self.data.remove(&k);
        proof {
            lemma_sites_of_keys(old(self).data@);
            lemma_sites_of_keys(self.data@);
            lemma_site_key_round_trip(vector@);
            assert forall|p: Site| self@.contains(p) <==> old(self)@.remove(vector@).contains(
                p,
            ) by {
                if site_fits(p) {
                    lemma_site_key_round_trip(p);
                }
            }
            assert(self@ =~= old(self)@.remove(vector@));
        }
    }

    /// Whether `vector` is a member.
    pub fn contains(&self, vector: &Vector3) -> (r: bool)
        requires
            self.wf(),
        ensures
            r == self@.contains(vector@),
    {
        broadcast use vstd::std_specs::hash::group_hash_axioms;

        proof {
            lemma_sites_of_keys(self.data@);
        }
        let k = vector.key();
        self.data.contains(&k)
    }

    /// Whether every member lies within `bound` of the origin in each
    /// coordinate.
    pub fn all_within(&self, bound: i32) -> (r: bool)
        requires
            self.wf(),
        ensures
            r == (forall|p: Site| #[trigger] self@.contains(p) ==> site_within(p, bound as int)),
    {
        broadcast use vstd::std_specs::hash::group_hash_axioms;

        let ghost keys = spec_hash_keys_iter(&self.data).remaining();
        proof {
            let all = keys.unref();
            lemma_sites_of_keys(self.data@);
            assert(all.to_set() == self.data@);
            assert forall|i: int| 0 <= i < keys.len() implies self.data@.contains(
                *#[trigger] keys[i],
            ) by {
                assert(all[i] == *keys[i]);
                assert(all.contains(all[i]));
                assert(all.to_set().contains(all[i]));
            }
            assert forall|p: Site| self@.contains(p) implies exists|i: int|
                0 <= i < keys.len() && key_site(*#[trigger] keys[i] as int) == p by {
                let k = site_key(p) as u128;
                lemma_site_key_round_trip(p);
                assert(all.to_set().contains(k));
                assert(all.contains(k));
                let i = choose|i: int| 0 <= i < all.len() && all[i] == k;
                assert(*keys[i] == k);
            }
            assert forall|i: int| 0 <= i < keys.len() implies self@.contains(
                key_site(*#[trigger] keys[i] as int),
            ) by {
                lemma_key_site_round_trip(*keys[i] as int);
            }
        }
        let low: i64 = -(bound as i64);
        let high: i64 = bound as i64;
        let mut r = true;
        for k in it: self.data.iter()
            invariant
                it.seq() == keys,
                low == -(bound as int),
                high == bound as int,
                keys_valid(self.data@),
                forall|i: int| 0 <= i < keys.len() ==> self.data@.contains(*#[trigger] keys[i]),
                forall|i: int|
                    0 <= i < keys.len() ==> self@.contains(key_site(*#[trigger] keys[i] as int)),
                forall|p: Site|
                    self@.contains(p) ==> exists|i: int|
                        0 <= i < keys.len() && key_site(*#[trigger] keys[i] as int) == p,
                r == (forall|i: int|
                    0 <= i < it.index() ==> site_within(
                        key_site(*#[trigger] keys[i] as int),
                        bound as int,
                    )),
        {
            let v = Vector3::from_key(*k);
            let x = v.0 as i64;
            let y = v.1 as i64;
            let z = v.2 as i64;
            r = r && low <= x && x <= high && low <= y && y <= high && low <= z && z <= high;
        }
        r
    }

    /// The number of members.
    pub fn len(&self) -> (n: usize)
        requires
            self.wf(),
        ensures
            n == self@.len(),
    {
        broadcast use vstd::std_specs::hash::group_hash_axioms;

        proof {
            lemma_sites_of_keys(self.data@);
        }
        self.data.len()
    }

    /// Brings back the members that the set was made with.
    pub fn reset(&mut self)
        requires
            old(self).wf(),
        ensures
            final(self).wf(),
            final(self)@ == old(self).initial(),
            final(self).initial() == old(self).initial(),
    {
        self.data = clone_keys(&self.initial_data);
    }

    /// A member drawn at random, or nothing from the empty set. The set
    /// stays as it is.
    pub fn get_random(&mut self) -> (r: Option<Vector3>)
        requires
            old(self).wf(),
        ensures
            final(self).wf(),
            final(self)@ == old(self)@,
            final(self).initial() == old(self).initial(),
            r is None <==> old(self)@.is_empty(),
            r is Some ==> old(self)@.contains(r->0@),
    {
        proof {
            lemma_sites_of_keys(self.data@);
        }
        match choose_key(&self.data, &mut self.rng) {
            Some(k) => {
                proof {
                    lemma_key_site_round_trip(k as int);
                }
                Some(Vector3::from_key(k))
            },
            None => {
                proof {
                    if !self@.is_empty() {
                        let p = choose|p: Site| self@.contains(p);
                        assert(self.data@.contains(site_key(p) as u128));
                    }
                }
                None
            },
        }
    }
}

} // verus!
