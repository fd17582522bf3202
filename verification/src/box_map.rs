use vstd::prelude::*;
use rustc_hash::{FxBuildHasher, FxHashMap};
use crate::vector2::{
    column_fits, column_key, key_column, lemma_column_key_round_trip,
    lemma_key_column_round_trip, Column, Vector2,
};

verus! {

/// The height of a column on which no box stands. A column of height `0`
/// holds one box.
pub const FLOOR_HEIGHT: i32 = -1;

/// `rustc_hash::FxBuildHasher`, the hasher factory of an `FxHashMap`. Nothing
/// is known of a value of it.
#[verifier::external_type_specification]
#[verifier::external_body]
pub struct ExFxBuildHasher(FxBuildHasher);

/// `HashMap::get` on a `rustc_hash::FxHashMap` with integer keys: the value
/// stored under `k`, if there is one.
#[verifier::external_body]
fn fx_get(m: &FxHashMap<u64, i32>, k: u64) -> (r: Option<&i32>)
    ensures
        r == (if m@.contains_key(k) {
            Some(&m@[k])
        } else {
            None::<&i32>
        }),
{
    m.get(&k)
}

/// `HashMap::insert` on a `rustc_hash::FxHashMap` with integer keys: `v` is
/// stored under `k`, in place of what was stored there, and no other entry
/// changes.
#[verifier::external_body]
fn fx_insert(m: &mut FxHashMap<u64, i32>, k: u64, v: i32)
    ensures
        final(m)@ == old(m)@.insert(k, v),
{
    m.insert(k, v);
}

/// `HashMap::remove` on a `rustc_hash::FxHashMap` with integer keys: the
/// entry under `k` is gone, and no other entry changes.
#[verifier::external_body]
fn fx_remove(m: &mut FxHashMap<u64, i32>, k: u64)
    ensures
        final(m)@ == old(m)@.remove(k),
{
    m.remove(&k);
}

/// `HashMap::iter` on a `rustc_hash::FxHashMap` with integer keys, collected:
/// every entry of the map once, in an order that is not stated.
#[verifier::external_body]
fn fx_entries(m: &FxHashMap<u64, i32>) -> (v: Vec<(u64, i32)>)
    ensures
        forall|i: int| 0 <= i < v@.len() ==> #[trigger] m@.contains_pair(v@[i].0, v@[i].1),
        forall|i: int, j: int| 0 <= i < j < v@.len() ==> v@[i].0 != v@[j].0,
        forall|k: u64| #[trigger]
            m@.contains_key(k) ==> exists|i: int| 0 <= i < v@.len() && v@[i].0 == k,
{
    m.iter().map(|(k, h)| (*k, *h)).collect()
}

/// The height of the column `c` in `m`: what is stored, or `-1` where
/// nothing is.
pub open spec fn height_at(m: Map<Column, int>, c: Column) -> int {
    if m.contains_key(c) {
        m[c]
    } else {
        -1
    }
}

/// The heights after one more box is put on the column `c`.
pub open spec fn raise(heights: Map<Column, int>, c: Column) -> Map<Column, int> {
    heights.insert(c, height_at(heights, c) + 1)
}

/// The heights after the topmost box is taken from the column `c`. A column
/// that held one box is stored no longer.
pub open spec fn lower(heights: Map<Column, int>, c: Column) -> Map<Column, int> {
    if height_at(heights, c) == 0 {
        heights.remove(c)
    } else {
        heights.insert(c, height_at(heights, c) - 1)
    }
}

/// One change of a field of heights: a box put on a column, or the topmost
/// box taken from one.
pub enum HeightChange {
    Up(Column),
    Down(Column),
}

/// The heights after the change `change`.
pub open spec fn changed(heights: Map<Column, int>, change: HeightChange) -> Map<Column, int> {
    match change {
        HeightChange::Up(c) => raise(heights, c),
        HeightChange::Down(c) => lower(heights, c),
    }
}

/// The heights after the changes of `changes`, made one after the other.
pub open spec fn replayed(heights: Map<Column, int>, changes: Seq<HeightChange>) -> Map<
    Column,
    int,
>
    decreases changes.len(),
{
    if changes.len() == 0 {
        heights
    } else {
        changed(replayed(heights, changes.drop_last()), changes.last())
    }
}

/// Whether each box that `changes` takes is there when it is taken.
pub open spec fn permitted(heights: Map<Column, int>, changes: Seq<HeightChange>) -> bool
    decreases changes.len(),
{
    if changes.len() == 0 {
        true
    } else {
        &&& permitted(heights, changes.drop_last())
        &&& changes.last() matches HeightChange::Down(c) ==> replayed(
            heights,
            changes.drop_last(),
        ).contains_key(c)
    }
}

/// The number of boxes that `changes` puts on the column `c`, less the
/// number that it takes from it.
pub open spec fn net_change(changes: Seq<HeightChange>, c: Column) -> int
    decreases changes.len(),
{
    if changes.len() == 0 {
        0
    } else {
        net_change(changes.drop_last(), c) + (match changes.last() {
            HeightChange::Up(d) => if d == c {
                1int
            } else {
                0int
            },
            HeightChange::Down(d) => if d == c {
                -1int
            } else {
                0int
            },
        })
    }
}

/// Starting from the empty field, the height of a column is the number of
/// boxes put on it, less the number taken from it, less one; and no stored
/// height is negative.
pub proof fn lemma_height_is_net_change(changes: Seq<HeightChange>, c: Column)
    requires
        permitted(Map::<Column, int>::empty(), changes),
    ensures
        height_at(replayed(Map::<Column, int>::empty(), changes), c) == net_change(changes, c)
            - 1,
        replayed(Map::<Column, int>::empty(), changes).contains_key(c) ==> 0 <= replayed(
            Map::<Column, int>::empty(),
            changes,
        )[c],
    decreases changes.len(),
{
    if changes.len() > 0 {
        lemma_height_is_net_change(changes.drop_last(), c);
        match changes.last() {
            HeightChange::Up(d) => {
                lemma_height_is_net_change(changes.drop_last(), d);
            },
            HeightChange::Down(d) => {
                lemma_height_is_net_change(changes.drop_last(), d);
            },
        }
    }
}

/// The number of boxes that the columns of `m` hold: a column of height `h`
/// holds `h + 1`.
pub open spec fn total_boxes(m: Map<Column, int>) -> int
    decreases m.dom().len(),
    when m.dom().finite()
{
    if m.dom().len() == 0 {
        0
    } else {
        let c = m.dom().choose();
        m[c] + 1 + total_boxes(m.remove(c))
    }
}

/// The boxes of `m` as lattice points: one for each level from `0` to the
/// height of each stored column.
pub open spec fn box_set(m: Map<Column, int>) -> Set<(int, int, int)> {
    Set::new(|b: (int, int, int)| m.contains_key((b.0, b.1)) && 0 <= b.2 <= m[(b.0, b.1)])
}

/// The sum may be taken in any order: any stored column can be split off.
pub proof fn lemma_total_boxes_split(m: Map<Column, int>, c: Column)
    requires
        m.dom().finite(),
        m.contains_key(c),
    ensures
        total_boxes(m) == m[c] + 1 + total_boxes(m.remove(c)),
    decreases m.dom().len(),
{
    let c0 = m.dom().choose();
    assert(m.dom().contains(c));
    assert(m.dom().len() != 0) by {
        if m.dom().len() == 0 {
            assert(m.dom() =~= Set::empty());
        }
    }
    if c0 != c {
        let m0 = m.remove(c0);
        let m1 = m.remove(c);
        lemma_total_boxes_split(m0, c);
        lemma_total_boxes_split(m1, c0);
        assert(m0.remove(c) =~= m1.remove(c0));
    }
}

/// With heights that are not negative, the count is not negative.
pub proof fn lemma_total_boxes_nonnegative(m: Map<Column, int>)
    requires
        m.dom().finite(),
        forall|c: Column| m.contains_key(c) ==> 0 <= #[trigger] m[c],
    ensures
        0 <= total_boxes(m),
    decreases m.dom().len(),
{
    if m.dom().len() != 0 {
        let c = m.dom().choose();
        lemma_total_boxes_nonnegative(m.remove(c));
    }
}

/// Storing `h` for the column `c` changes the count by the boxes of that
/// column alone.
pub proof fn lemma_total_boxes_insert(m: Map<Column, int>, c: Column, h: int)
    requires
        m.dom().finite(),
    ensures
        total_boxes(m.insert(c, h)) == total_boxes(m) + h - height_at(m, c),
{
    let m1 = m.insert(c, h);
    lemma_total_boxes_split(m1, c);
    assert(m1.remove(c) =~= m.remove(c));
    if m.contains_key(c) {
        lemma_total_boxes_split(m, c);
    } else {
        assert(m.remove(c) =~= m);
    }
}

/// Dropping the column `c` takes its boxes from the count.
pub proof fn lemma_total_boxes_remove(m: Map<Column, int>, c: Column)
    requires
        m.dom().finite(),
    ensures
        total_boxes(m.remove(c)) == total_boxes(m) - (height_at(m, c) + 1),
{
    if m.contains_key(c) {
        lemma_total_boxes_split(m, c);
    } else {
        assert(m.remove(c) =~= m);
    }
}

/// The boxes of one column of height `h`.
pub open spec fn column_boxes(c: Column, h: int) -> Set<(int, int, int)> {
    Set::new(|b: (int, int, int)| b.0 == c.0 && b.1 == c.1 && 0 <= b.2 <= h)
}

/// A column of height `h` holds `h + 1` boxes.
pub proof fn lemma_column_boxes_size(c: Column, h: int)
    requires
        -1 <= h,
    ensures
        column_boxes(c, h).finite(),
        column_boxes(c, h).len() == h + 1,
    decreases h + 1,
{
    if h == -1 {
        assert(column_boxes(c, h) =~= Set::empty());
    } else {
        lemma_column_boxes_size(c, h - 1);
        assert(column_boxes(c, h) =~= column_boxes(c, h - 1).insert((c.0, c.1, h)));
    }
}

/// The count of boxes is the number of pairs of a stored column and a level
/// from `0` up to its height.
pub proof fn lemma_total_boxes_is_size(m: Map<Column, int>)
    requires
        m.dom().finite(),
        forall|c: Column| m.contains_key(c) ==> 0 <= #[trigger] m[c],
    ensures
        box_set(m).finite(),
        box_set(m).len() == total_boxes(m),
    decreases m.dom().len(),
{
    if m.dom().len() == 0 {
        assert(m.dom() =~= Set::empty());
        assert(box_set(m) =~= Set::empty());
    } else {
        let c = m.dom().choose();
        let rest = m.remove(c);
        lemma_total_boxes_is_size(rest);
        lemma_column_boxes_size(c, m[c]);
        assert(box_set(m) =~= box_set(rest) + column_boxes(c, m[c]));
        assert(box_set(rest).disjoint(column_boxes(c, m[c])));
        vstd::set_lib::lemma_set_disjoint_lens(box_set(rest), column_boxes(c, m[c]));
    }
}

/// A sparse field of column heights over the lattice. A column that is not
/// stored has the height [`FLOOR_HEIGHT`]; a stored column has a height of
/// at least `0`.
#[derive(Debug)]
pub struct BoxMap {
    data: FxHashMap<u64, i32>,
}

impl View for BoxMap {
    type V = Map<Column, int>;

    /// The stored columns with their heights.
    closed spec fn view(&self) -> Map<Column, int> {
        Map::new(
            |c: Column| column_fits(c) && self.data@.contains_key(column_key(c) as u64),
            |c: Column| self.data@[column_key(c) as u64] as int,
        )
    }
}

impl BoxMap {
    /// The invariant of the field: finitely many columns are stored, each at
    /// a position that a [`Vector2`] can hold, and each with a height from
    /// `0` up.
    pub open spec fn wf(&self) -> bool {
        &&& self@.dom().finite()
        &&& forall|c: Column| #[trigger]
            self@.contains_key(c) ==> column_fits(c) && 0 <= self@[c] <= i32::MAX
    }

    /// The height of the column `c`.
    pub open spec fn height(&self, c: Column) -> int {
        height_at(self@, c)
    }

    /// A key is stored exactly where its column is, with the same height.
    proof fn lemma_view_of_key(&self, k: u64)
        ensures
            self.data@.contains_key(k) <==> self@.contains_key(key_column(k as int)),
            self.data@.contains_key(k) ==> self@[key_column(k as int)] == self.data@[k],
    {
        lemma_key_column_round_trip(k as int);
    }

    /// The field with no column stored.
    pub fn new() -> (r: BoxMap)
        ensures
            r@ == Map::<Column, int>::empty(),
            r.wf(),
    {
        let r = BoxMap { data: FxHashMap::default() };
        assert(r@ =~= Map::<Column, int>::empty());
        r
    }

    /// The height of the column at `position`.
    pub fn get(&self, position: &Vector2) -> (h: &i32)
        ensures
            *h == self.height(position@),
    {
        proof {
            lemma_column_key_round_trip(position@);
        }
        match fx_get(&self.data, position.key()) {
            Some(h) => h,
            None => &FLOOR_HEIGHT,
        }
    }

    /// Puts one box on the column at `position`.
    pub fn increment(&mut self, position: &Vector2)
        requires
            old(self).wf(),
            old(self).height(position@) < i32::MAX,
        ensures
            final(self).wf(),
            final(self)@ == raise(old(self)@, position@),
            final(self).height(position@) == old(self).height(position@) + 1,
            total_boxes(final(self)@) == total_boxes(old(self)@) + 1,
    {
        let k = position.key();
        let h: i32 = *self.get(position);
        proof {
            lemma_column_key_round_trip(position@);
            lemma_total_boxes_insert(self@, position@, h + 1);
        }
        fx_insert(&mut self.data, k, h + 1);
        proof {
            let after = old(self)@.insert(position@, h + 1);
            assert forall|c: Column| self@.contains_key(c) <==> after.contains_key(c) by {
                if column_fits(c) {
                    lemma_column_key_round_trip(c);
                }
            }
            assert forall|c: Column| self@.contains_key(c) implies self@[c] == after[c] by {
                lemma_column_key_round_trip(c);
            }
            assert(self@ =~= after);
        }
    }

    /// Takes the topmost box from the column at `position`, which must hold
    /// one.
    pub fn decrement(&mut self, position: &Vector2)
        requires
            old(self).wf(),
            old(self)@.contains_key(position@),
        ensures
            final(self).wf(),
            final(self)@ == lower(old(self)@, position@),
            final(self).height(position@) == old(self).height(position@) - 1,
            total_boxes(final(self)@) == total_boxes(old(self)@) - 1,
    {
        let k = position.key();
        let h: i32 = *self.get(position);
        proof {
            lemma_column_key_round_trip(position@);
            lemma_total_boxes_insert(self@, position@, h - 1);
            lemma_total_boxes_remove(self@, position@);
        }
        if h - 1 == FLOOR_HEIGHT {
            fx_remove(&mut self.data, k);
        } else {
            fx_insert(&mut self.data, k, h - 1);
        }
        proof {
            let after = if h == 0 {
                old(self)@.remove(position@)
            } else {
                old(self)@.insert(position@, h - 1)
            };
            assert forall|c: Column| self@.contains_key(c) <==> after.contains_key(c) by {
                if column_fits(c) {
                    lemma_column_key_round_trip(c);
                }
            }
            assert forall|c: Column| self@.contains_key(c) implies self@[c] == after[c] by {
                lemma_column_key_round_trip(c);
            }
            assert(self@ =~= after);
        }
    }

    /// The number of boxes, or nothing where it is more than an `i32` holds.
    pub fn checked_box_count(&self) -> (r: Option<i32>)
        requires
            self.wf(),
        ensures
            match r {
                Some(n) => n == total_boxes(self@),
                None => total_boxes(self@) > i32::MAX,
            },
    {
        let entries = fx_entries(&self.data);
        let mut n: i32 = 0;
        let ghost mut rest: Map<Column, int> = self@;
        let mut i: usize = 0;
        proof {
            assert forall|j: int| 0 <= j < entries@.len() implies #[trigger] rest.contains_key(
                key_column(entries@[j].0 as int),
            ) by {
                assert(self.data@.contains_pair(entries@[j].0, entries@[j].1));
                self.lemma_view_of_key(entries@[j].0);
            }
            assert forall|c: Column| #[trigger] rest.contains_key(c) implies exists|j: int|
                0 <= j < entries@.len() && entries@[j].0 == column_key(c) by {
                lemma_column_key_round_trip(c);
                assert(self.data@.contains_key(column_key(c) as u64));
            }
            lemma_total_boxes_nonnegative(rest);
        }
        while i < entries.len()
            invariant
                self.wf(),
                0 <= i <= entries@.len(),
                rest.dom().finite(),
                rest.submap_of(self@),
                n + total_boxes(rest) == total_boxes(self@),
                0 <= total_boxes(rest),
                0 <= n,
                forall|j: int|
                    i <= j < entries@.len() ==> #[trigger] rest.contains_key(
                        key_column(entries@[j].0 as int),
                    ),
                forall|c: Column| #[trigger]
                    rest.contains_key(c) ==> exists|j: int|
                        i <= j < entries@.len() && entries@[j].0 == column_key(c),
                forall|j: int|
                    0 <= j < entries@.len() ==> #[trigger] self.data@.contains_pair(
                        entries@[j].0,
                        entries@[j].1,
                    ),
                forall|j: int, l: int|
                    0 <= j < l < entries@.len() ==> entries@[j].0 != entries@[l].0,
            decreases entries@.len() - i,
        {
            let (k, h) = entries[i];
            proof {
                let c = key_column(k as int);
                assert(self.data@.contains_pair(entries@[i as int].0, entries@[i as int].1));
                self.lemma_view_of_key(k);
                lemma_key_column_round_trip(k as int);
                assert(rest.contains_key(c));
                assert(rest[c] == h);
                lemma_total_boxes_split(rest, c);
                let next = rest.remove(c);
                assert forall|c1: Column| next.contains_key(c1) implies 0 <= #[trigger] next[c1] by {
                    assert(self@.contains_key(c1));
                }
                lemma_total_boxes_nonnegative(next);
                assert forall|j: int| i + 1 <= j < entries@.len() implies #[trigger] next.contains_key(
                    key_column(entries@[j].0 as int),
                ) by {
                    lemma_key_column_round_trip(entries@[j].0 as int);
                    assert(entries@[i as int].0 != entries@[j].0);
                }
                assert forall|c1: Column| #[trigger] next.contains_key(c1) implies exists|j: int|
                    i + 1 <= j < entries@.len() && entries@[j].0 == column_key(c1) by {
                    let j = choose|j: int| i <= j < entries@.len() && entries@[j].0 == column_key(c1);
                    assert(self@.contains_key(c1));
                    lemma_column_key_round_trip(c1);
                    assert(j != i);
                }
                rest = next;
            }
            let sum: i64 = n as i64 + (h as i64 + 1);
            if sum > i32::MAX as i64 {
                return None;
            }
            n = sum as i32;
            i = i + 1;
        }
        proof {
            assert(rest.dom() =~= Set::<Column>::empty());
        }
        Some(n)
    }

    /// The number of boxes, which must be one that an `i32` holds.
    pub fn box_count(&self) -> (n: i32)
        requires
            self.wf(),
            total_boxes(self@) <= i32::MAX,
        ensures
            n == total_boxes(self@),
    {
        self.checked_box_count().unwrap()
    }

    /// Takes every box away.
    pub fn clear(&mut self)
        ensures
            final(self)@ == Map::<Column, int>::empty(),
            final(self).wf(),
    {
        self.data.clear();
        assert(self@ =~= Map::<Column, int>::empty());
    }
}

} // verus!
