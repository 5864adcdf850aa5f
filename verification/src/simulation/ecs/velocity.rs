//! Velocity built up from independent sources, each owned by whatever
//! system contributes it (movement, knock-back, ...).

use smallvec::SmallVec;
use vstd::prelude::*;
use crate::common::fixed::{Fixed, Vec2F, Vec3F, fits_i64, mul_bits};
use crate::common::time::{Time, nano_bits};

verus! {

pub type SourceID = u32;

/// The top bit of a source's `meta`: set once the source is destroyed and its
/// slot may be reused.
pub const DESTROYED_BIT: u32 = 0x8000_0000;

/// A contribution of value `val`, tagged with an id and a destroyed flag.
#[derive(Clone, Copy, Debug)]
pub struct Source<T> {
    /// The id in the low 31 bits, the destroyed flag in the top bit.
    pub meta: SourceID,
    pub val: T,
}

/// The source has not been destroyed.
pub open spec fn is_live<T>(s: Source<T>) -> bool {
    s.meta < DESTROYED_BIT
}

/// The id of the source: its `meta` without the destroyed flag.
pub open spec fn source_id<T>(s: Source<T>) -> u32 {
    (s.meta % DESTROYED_BIT) as u32
}

impl<T> Source<T> {
    /// Whether the source has been destroyed, so that its slot is free for
    /// reuse (its destroyed flag is set).
    pub fn is_free(&self) -> (b: bool)
        ensures
            b == !is_live(*self),
    {
        let m = self.meta;
        proof {
            assert((m & (1u32 << 31u32)) != 0 <==> m >= 0x8000_0000) by (bit_vector);
        }
        (self.meta & (1 << 31)) != 0
    }

    /// Marks the source destroyed, so that its slot can be reused.
    pub fn set_free(&mut self)
        ensures
            final(self).meta == (if is_live(*old(self)) {
                old(self).meta + DESTROYED_BIT
            } else {
                old(self).meta as int
            }),
            final(self).val == old(self).val,
    {
        let m = self.meta;
        proof {
            assert(m < 0x8000_0000 ==> (m | (1u32 << 31u32)) == m + 0x8000_0000) by (bit_vector);
            assert(m >= 0x8000_0000 ==> (m | (1u32 << 31u32)) == m) by (bit_vector);
        }
        self.meta |= 1 << 31
    }

    pub fn id(&self) -> (i: SourceID)
        ensures
            i == source_id(*self),
    {
        let m = self.meta;
        proof {
            assert((m & !(1u32 << 31u32)) == m % 0x8000_0000) by (bit_vector);
        }
        self.meta & !(1 << 31)
    }

    pub fn new(id: SourceID, val: T) -> (s: Self)
        ensures
            s.meta == id,
            s.val == val,
    {
        Source { val, meta: id }
    }
}


/// The sources a velocity is built from, held inline for up to eight of them
/// in a `SmallVec`.
#[verifier::external_body]
#[derive(Debug)]
pub struct SourceList {
    items: SmallVec<[Source<Vec3F>; 8]>,
}

/// The sources held by a source list, in order.
pub uninterp spec fn source_items(list: SourceList) -> Seq<Source<Vec3F>>;

impl Clone for SourceList {
    /// A list holding copies of the same sources. Calls `SmallVec::clone`,
    /// which clones each item; the items are `Copy`.
    #[verifier::external_body]
    fn clone(&self) -> (list: Self)
        ensures
            source_items(list) == source_items(*self),
    {
        SourceList { items: self.items.clone() }
    }
}

impl SourceList {
    /// An empty list. Calls `SmallVec::new`.
    #[verifier::external_body]
    pub fn new() -> (list: SourceList)
        ensures
            source_items(list) == Seq::<Source<Vec3F>>::empty(),
    {
        SourceList { items: SmallVec::new() }
    }

    /// The number of sources held. Calls `SmallVec::len`.
    #[verifier::external_body]
    pub fn len(&self) -> (n: usize)
        ensures
            n == source_items(*self).len(),
    {
        self.items.len()
    }

    /// A copy of the source at position `i`. Indexes the `SmallVec`, which
    /// panics out of bounds.
    #[verifier::external_body]
    pub fn get(&self, i: usize) -> (s: Source<Vec3F>)
        requires
            i < source_items(*self).len(),
        ensures
            s == source_items(*self)[i as int],
    {
        self.items[i]
    }

    /// The source at position `i`, to be changed in place. Indexes the
    /// `SmallVec` mutably, which panics out of bounds.
    #[verifier::external_body]
    pub fn get_mut(&mut self, i: usize) -> (s: &mut Source<Vec3F>)
        requires
            i < source_items(*old(self)).len(),
        ensures
            *s == source_items(*old(self))[i as int],
            source_items(*final(self)) == source_items(*old(self)).update(i as int, *final(s)),
    {
        &mut self.items[i]
    }

    /// Appends `s`. Calls `SmallVec::push`, which moves the items to the heap
    /// once the inline room is used up.
    #[verifier::external_body]
    pub fn push(&mut self, s: Source<Vec3F>)
        ensures
            source_items(*final(self)) == source_items(*old(self)).push(s),
    {
        self.items.push(s)
    }
}

/// The zero vector.
pub open spec fn zero3() -> Vec3F {
    Vec3F { x: Fixed { bits: 0 }, y: Fixed { bits: 0 }, z: Fixed { bits: 0 } }
}

/// Component `c` (0, 1 or 2) of `v`, as raw bits.
pub open spec fn component(v: Vec3F, c: int) -> int {
    if c == 0 {
        v.x.bits as int
    } else if c == 1 {
        v.y.bits as int
    } else {
        v.z.bits as int
    }
}

/// The sum of component `c` over all sources of `s`, live or destroyed.
pub open spec fn component_sum(s: Seq<Source<Vec3F>>, c: int) -> int
    decreases s.len(),
{
    if s.len() == 0 {
        0
    } else {
        component_sum(s.drop_last(), c) + component(s.last().val, c)
    }
}

/// Summing the sources in order never leaves the range of the raw bits.
pub open spec fn sums_fit(s: Seq<Source<Vec3F>>) -> bool {
    forall|k: int, c: int|
        0 <= k <= s.len() && 0 <= c < 3 ==> fits_i64(#[trigger] component_sum(s.take(k), c))
}

/// `i` is the first position of `s` holding a destroyed source.
pub open spec fn first_destroyed_at(s: Seq<Source<Vec3F>>, i: int) -> bool {
    &&& 0 <= i < s.len()
    &&& !is_live(s[i])
    &&& forall|j: int| 0 <= j < i ==> is_live(#[trigger] s[j])
}

/// The source is live and has id `id`.
pub open spec fn matches_id(s: Source<Vec3F>, id: SourceID) -> bool {
    source_id(s) == id && is_live(s)
}

/// `i` is the first position of `s` holding a live source with id `id`.
pub open spec fn first_match_at(s: Seq<Source<Vec3F>>, id: SourceID, i: int) -> bool {
    &&& 0 <= i < s.len()
    &&& matches_id(s[i], id)
    &&& forall|j: int| 0 <= j < i ==> !matches_id(#[trigger] s[j], id)
}

/// Some live source has id `id`.
pub open spec fn has_match(s: Seq<Source<Vec3F>>, id: SourceID) -> bool {
    exists|i: int| 0 <= i < s.len() && matches_id(#[trigger] s[i], id)
}

/// Some source is destroyed.
pub open spec fn has_destroyed(s: Seq<Source<Vec3F>>) -> bool {
    exists|i: int| first_destroyed_at(s, i)
}

/// The first position holding a destroyed source.
pub open spec fn first_destroyed(s: Seq<Source<Vec3F>>) -> int {
    choose|i: int| first_destroyed_at(s, i)
}

/// The first position holding a live source with id `id`.
pub open spec fn first_match(s: Seq<Source<Vec3F>>, id: SourceID) -> int {
    choose|i: int| first_match_at(s, id, i)
}

/// `s` with `fresh` put in the slot of the first destroyed source, or
/// appended when every source is live.
pub open spec fn placed(s: Seq<Source<Vec3F>>, fresh: Source<Vec3F>) -> Seq<Source<Vec3F>> {
    if has_destroyed(s) {
        s.update(first_destroyed(s), fresh)
    } else {
        s.push(fresh)
    }
}

/// `s` with the value of the first live source with id `id` set to `v`; `s`
/// itself when there is none.
pub open spec fn set_value(s: Seq<Source<Vec3F>>, id: SourceID, v: Vec3F) -> Seq<Source<Vec3F>> {
    if has_match(s, id) {
        s.update(first_match(s, id), Source { meta: s[first_match(s, id)].meta, val: v })
    } else {
        s
    }
}

/// Setting the value `v` changes the first live source with id `id`.
pub open spec fn changes_value(s: Seq<Source<Vec3F>>, id: SourceID, v: Vec3F) -> bool {
    has_match(s, id) && s[first_match(s, id)].val != v
}

/// The position of the first destroyed source, whose slot can be reused.
pub fn find_destroyed(list: &SourceList) -> (r: Option<usize>)
    ensures
        match r {
            Some(i) => first_destroyed_at(source_items(*list), i as int) && has_destroyed(
                source_items(*list),
            ) && first_destroyed(source_items(*list)) == i,
            None => !has_destroyed(source_items(*list)),
        },
{
    let n = list.len();
    let mut i: usize = 0;
    while i < n
        invariant
            n == source_items(*list).len(),
            0 <= i <= n,
            forall|j: int| 0 <= j < i ==> is_live(#[trigger] source_items(*list)[j]),
        decreases n - i,
    {
        if list.get(i).is_free() {
            proof {
                let s = source_items(*list);
                assert(first_destroyed_at(s, i as int));
                lemma_first_destroyed_unique(s, i as int, first_destroyed(s));
            }
            return Some(i);
        }
        i += 1;
    }
    proof {
        let s = source_items(*list);
        if has_destroyed(s) {
            let j = choose|j: int| first_destroyed_at(s, j);
            assert(is_live(s[j]));
        }
    }
    None
}

/// The position of the first live source with id `id`.
pub fn find_live(list: &SourceList, id: SourceID) -> (r: Option<usize>)
    ensures
        match r {
            Some(i) => first_match_at(source_items(*list), id, i as int) && has_match(
                source_items(*list),
                id,
            ) && first_match(source_items(*list), id) == i,
            None => !has_match(source_items(*list), id),
        },
{
    let n = list.len();
    let mut i: usize = 0;
    while i < n
        invariant
            n == source_items(*list).len(),
            0 <= i <= n,
            forall|j: int| 0 <= j < i ==> !matches_id(#[trigger] source_items(*list)[j], id),
        decreases n - i,
    {
        let src = list.get(i);
        if src.id() == id && !src.is_free() {
            proof {
                let s = source_items(*list);
                assert(first_match_at(s, id, i as int));
                lemma_first_match_unique(s, id, i as int, first_match(s, id));
                assert(matches_id(s[i as int], id));
            }
            return Some(i);
        }
        i += 1;
    }
    None
}

/// The first position holding a destroyed source is unique.
pub proof fn lemma_first_destroyed_unique(s: Seq<Source<Vec3F>>, i: int, j: int)
    requires
        first_destroyed_at(s, i),
        first_destroyed_at(s, j),
    ensures
        i == j,
{
    if i < j {
        assert(is_live(s[i]));
    } else if j < i {
        assert(is_live(s[j]));
    }
}

proof fn lemma_match_has_first(s: Seq<Source<Vec3F>>, id: SourceID, i: int)
    requires
        0 <= i < s.len(),
        matches_id(s[i], id),
    ensures
        exists|j: int| first_match_at(s, id, j),
    decreases i,
{
    if exists|j: int| 0 <= j < i && matches_id(#[trigger] s[j], id) {
        let j = choose|j: int| 0 <= j < i && matches_id(#[trigger] s[j], id);
        lemma_match_has_first(s, id, j);
    } else {
        assert(first_match_at(s, id, i));
    }
}

/// Where some live source has id `id`, `first_match` is the first position
/// holding one: every source before it is destroyed or has another id.
pub proof fn lemma_first_match_found(s: Seq<Source<Vec3F>>, id: SourceID)
    requires
        has_match(s, id),
    ensures
        first_match_at(s, id, first_match(s, id)),
{
    let i = choose|i: int| 0 <= i < s.len() && matches_id(#[trigger] s[i], id);
    lemma_match_has_first(s, id, i);
}

/// The first position holding a live source with a given id is unique.
pub proof fn lemma_first_match_unique(s: Seq<Source<Vec3F>>, id: SourceID, i: int, j: int)
    requires
        first_match_at(s, id, i),
        first_match_at(s, id, j),
    ensures
        i == j,
{
    if i < j {
        assert(!matches_id(s[i], id));
    } else if j < i {
        assert(!matches_id(s[j], id));
    }
}

/// The sum, component by component, of every source's value.
pub fn sum_sources(list: &SourceList) -> (v: Vec3F)
    requires
        sums_fit(source_items(*list)),
    ensures
        forall|c: int| 0 <= c < 3 ==> #[trigger] component(v, c) == component_sum(source_items(*list), c),
{
    let ghost items = source_items(*list);
    let n = list.len();
    let mut val = Vec3F::zero();
    let mut i: usize = 0;
    proof {
        assert(items.take(0) =~= Seq::<Source<Vec3F>>::empty());
    }
    while i < n
        invariant
            n == items.len(),
            items == source_items(*list),
            sums_fit(items),
            0 <= i <= n,
            forall|c: int| 0 <= c < 3 ==> #[trigger] component(val, c) == component_sum(items.take(i as int), c),
        decreases n - i,
    {
        let src = list.get(i);
        proof {
            let t = items.take(i + 1);
            assert(t.drop_last() =~= items.take(i as int));
            assert(t.last() == src);
            assert(fits_i64(component_sum(t, 0)));
            assert(fits_i64(component_sum(t, 1)));
            assert(fits_i64(component_sum(t, 2)));
            assert(component(val, 0) == component_sum(items.take(i as int), 0));
            assert(component(val, 1) == component_sum(items.take(i as int), 1));
            assert(component(val, 2) == component_sum(items.take(i as int), 2));
        }
        val = Vec3F::new(val.x.add(src.val.x), val.y.add(src.val.y), val.z.add(src.val.z));
        i += 1;
        proof {
            assert(component(val, 0) == component_sum(items.take(i as int), 0));
            assert(component(val, 1) == component_sum(items.take(i as int), 1));
            assert(component(val, 2) == component_sum(items.take(i as int), 2));
        }
    }
    proof {
        assert(items.take(n as int) =~= items);
    }
    val
}

/// The sum of the sources' values, where summing them in order stays within
/// the range of the raw bits; `None` where it does not.
pub fn checked_sum_sources(list: &SourceList) -> (r: Option<Vec3F>)
    ensures
        r is Some <==> sums_fit(source_items(*list)),
        r matches Some(v) ==> v == source_total(source_items(*list)),
{
    let ghost items = source_items(*list);
    let n = list.len();
    let mut x: i64 = 0;
    let mut y: i64 = 0;
    let mut z: i64 = 0;
    let mut i: usize = 0;
    proof {
        assert(items.take(0) =~= Seq::<Source<Vec3F>>::empty());
    }
    while i < n
        invariant
            n == items.len(),
            items == source_items(*list),
            0 <= i <= n,
            x == component_sum(items.take(i as int), 0),
            y == component_sum(items.take(i as int), 1),
            z == component_sum(items.take(i as int), 2),
            forall|k: int, c: int|
                0 <= k <= i && 0 <= c < 3 ==> fits_i64(#[trigger] component_sum(items.take(k), c)),
        decreases n - i,
    {
        let src = list.get(i);
        let ghost t = items.take(i + 1);
        proof {
            assert(t.drop_last() =~= items.take(i as int));
            assert(t.last() == src);
            assert(component_sum(t, 0) == x + src.val.x.bits);
            assert(component_sum(t, 1) == y + src.val.y.bits);
            assert(component_sum(t, 2) == z + src.val.z.bits);
        }
        match (x.checked_add(src.val.x.bits), y.checked_add(src.val.y.bits), z.checked_add(src.val.z.bits)) {
            (Some(nx), Some(ny), Some(nz)) => {
                x = nx;
                y = ny;
                z = nz;
            },
            _ => {
                proof {
                    let c: int = if !fits_i64(component_sum(t, 0)) {
                        0
                    } else if !fits_i64(component_sum(t, 1)) {
                        1
                    } else {
                        2
                    };
                    assert(!fits_i64(component_sum(items.take(i + 1), c)));
                }
                return None;
            },
        }
        i += 1;
    }
    proof {
        assert(items.take(n as int) =~= items);
        assert(sums_fit(items)) by {
            assert forall|k: int, c: int|
                0 <= k <= items.len() && 0 <= c < 3 implies fits_i64(#[trigger] component_sum(items.take(k), c)) by {
            }
        }
    }
    Some(Vec3F::new(Fixed::from_bits(x), Fixed::from_bits(y), Fixed::from_bits(z)))
}

/// A velocity made of a cached total and the sources it is the sum of.
#[derive(Debug)]
pub struct Velocity {
    /// The total of the sources, as of the last re-evaluation.
    pub cached: Vec3F,
    /// So few per entity that a linear scan beats anything cleverer.
    pub sources: SourceList,
    pub next_src_id: SourceID,
    /// A source changed since `cached` was last computed.
    pub dirty: bool,
}

impl Clone for Velocity {
    fn clone(&self) -> (v: Self)
        ensures
            v.cached == self.cached,
            source_items(v.sources) == source_items(self.sources),
            v.next_src_id == self.next_src_id,
            v.dirty == self.dirty,
    {
        Velocity {
            cached: self.cached,
            sources: self.sources.clone(),
            next_src_id: self.next_src_id,
            dirty: self.dirty,
        }
    }
}

impl Velocity {
    /// The linear part of the cached velocity.
    pub fn linear(&self) -> (v: Vec2F)
        ensures
            v.x == self.cached.x && v.y == self.cached.y,
    {
        Vec2F::new(self.cached.x, self.cached.y)
    }

    /// The angular part of the cached velocity.
    pub fn angular(&self) -> (a: Fixed)
        ensures
            a == self.cached.z,
    {
        self.cached.z
    }

    /// Adds a source of zero value under a new id, reusing the slot of the
    /// first destroyed source if there is one.
    pub fn new_source(&mut self) -> (id: SourceID)
        requires
            old(self).next_src_id < u32::MAX,
        ensures
            id == old(self).next_src_id,
            final(self).next_src_id == old(self).next_src_id + 1,
            final(self).cached == old(self).cached,
            final(self).dirty == old(self).dirty,
            source_items(final(self).sources) == placed(
                source_items(old(self).sources),
                Source { meta: id, val: zero3() },
            ),
            // the new source starts at zero, in the first destroyed slot or
            // after every other source, which all stay as they were
            ({
                let s = source_items(old(self).sources);
                let f = source_items(final(self).sources);
                let pos = if has_destroyed(s) {
                    first_destroyed(s)
                } else {
                    s.len() as int
                };
                &&& has_destroyed(s) ==> first_destroyed_at(s, pos)
                &&& f.len() == (if has_destroyed(s) {
                    s.len() as int
                } else {
                    s.len() + 1int
                })
                &&& f[pos].meta == id
                &&& f[pos].val.x.bits == 0 && f[pos].val.y.bits == 0 && f[pos].val.z.bits == 0
                &&& forall|j: int| 0 <= j < s.len() && j != pos ==> #[trigger] f[j] == s[j]
            }),
    {
        let id = self.next_src_id;
        let src = Source::new(id, Vec3F::zero());
        match find_destroyed(&self.sources) {
            Some(idx) => {
                let slot = self.sources.get_mut(idx);
                *slot = src;
            },
            None => {
                self.sources.push(src);
            },
        }
        self.next_src_id += 1;
        id
    }

    /// The first live source with id `id`, to be changed in place.
    pub fn get_source_mut(&mut self, id: SourceID) -> (r: Option<&mut Source<Vec3F>>)
        ensures
            final(self).cached == old(self).cached,
            final(self).next_src_id == old(self).next_src_id,
            final(self).dirty == old(self).dirty,
            match r {
                Some(src) => {
                    let s = source_items(old(self).sources);
                    &&& has_match(s, id)
                    &&& *src == s[first_match(s, id)]
                    &&& source_items(final(self).sources) == s.update(first_match(s, id), *final(src))
                },
                None => !has_match(source_items(old(self).sources), id) && source_items(
                    final(self).sources,
                ) == source_items(old(self).sources),
            },
    {
        match find_live(&self.sources, id) {
            Some(i) => Some(self.sources.get_mut(i)),
            None => None,
        }
    }

    /// Sets the value of the first live source with id `src` to the linear
    /// part `lin` and angular part `ang`, marking the velocity dirty if that
    /// changes the value. Returns whether such a source exists.
    pub fn set_source(&mut self, src: SourceID, lin: Vec2F, ang: Fixed) -> (found: bool)
        ensures
            final(self).cached == old(self).cached,
            final(self).next_src_id == old(self).next_src_id,
            found == has_match(source_items(old(self).sources), src),
            source_items(final(self).sources) == set_value(
                source_items(old(self).sources),
                src,
                Vec3F { x: lin.x, y: lin.y, z: ang },
            ),
            final(self).dirty == (old(self).dirty || changes_value(
                source_items(old(self).sources),
                src,
                Vec3F { x: lin.x, y: lin.y, z: ang },
            )),
            // the source found now holds all three parts of the new value
            ({
                let s = source_items(old(self).sources);
                has_match(s, src) ==> {
                    let v = source_items(final(self).sources)[first_match(s, src)].val;
                    v.x == lin.x && v.y == lin.y && v.z == ang
                }
            }),
            // the velocity turns dirty exactly when one of the three parts changed
            ({
                let s = source_items(old(self).sources);
                let o = s[first_match(s, src)].val;
                final(self).dirty == (old(self).dirty || (has_match(s, src) && (o.x != lin.x || o.y
                    != lin.y || o.z != ang)))
            }),
            // a cache that was up to date stays so unless marked dirty
            (!old(self).dirty ==> old(self).cached == source_total(source_items(old(self).sources)))
                ==> (!final(self).dirty ==> final(self).cached == source_total(
                source_items(final(self).sources),
            )),
    {
        let ghost s = source_items(self.sources);
        let mut dirty = self.dirty;
        let new_val = Vec3F::new(lin.x, lin.y, ang);
        let old_val = self.get_source_mut(src);
        let res = match old_val {
            Some(old) => {
                if old.val != new_val {
                    dirty = true;
                    old.val = new_val;
                }
                true
            },
            None => false,
        };
        self.dirty = dirty;
        proof {
            if has_match(s, src) {
                lemma_first_match_found(s, src);
            }
            if has_match(s, src) && !changes_value(s, src, new_val) {
                let i = first_match(s, src);
                assert(s[i].val == new_val);
                assert(Source { meta: s[i].meta, val: new_val } == s[i]);
                assert(set_value(s, src, new_val) =~= s);
            }
        }
        res
    }

    pub fn new() -> (v: Velocity)
        ensures
            v.cached == zero3(),
            source_items(v.sources) == Seq::<Source<Vec3F>>::empty(),
            !v.dirty,
            v.next_src_id == 0,
    {
        Velocity { cached: Vec3F::zero(), sources: SourceList::new(), dirty: false, next_src_id: 0 }
    }
}

/// The sum of the sources' values, as a vector.
pub open spec fn source_total(s: Seq<Source<Vec3F>>) -> Vec3F {
    Vec3F {
        x: Fixed { bits: component_sum(s, 0) as i64 },
        y: Fixed { bits: component_sum(s, 1) as i64 },
        z: Fixed { bits: component_sum(s, 2) as i64 },
    }
}

/// The velocity's total once re-evaluated: the sum of its sources if one of
/// them changed, the cached total otherwise.
pub open spec fn current_total(vel: Velocity) -> Vec3F {
    if vel.dirty {
        source_total(source_items(vel.sources))
    } else {
        vel.cached
    }
}

/// The raw bits of `dt` in seconds, as `Time::sec` computes them.
pub open spec fn sec_bits(dt: Time) -> int {
    nano_bits(dt.nanos()) / 1_000_000_000
}

/// Moving at `v` for `dt` stays within the range of fixed-point numbers.
pub open spec fn displacement_fits(v: Vec3F, dt: Time) -> bool {
    &&& fits_i64(mul_bits(v.x.bits as int, sec_bits(dt)))
    &&& fits_i64(mul_bits(v.y.bits as int, sec_bits(dt)))
}

/// One entity's step of the velocity system: re-evaluates the cached total
/// when a source changed, then gives how far the entity moves in `dt`.
pub fn apply_velocity_to(vel: &mut Velocity, dt: Time) -> (d: Vec2F)
    requires
        old(vel).dirty ==> sums_fit(source_items(old(vel).sources)),
        dt.nanos() < 0x8000_0000,
        displacement_fits(current_total(*old(vel)), dt),
    ensures
        final(vel).cached == current_total(*old(vel)),
        // with an up-to-date cache before, the cache is the sum of the sources after
        (!old(vel).dirty ==> old(vel).cached == source_total(source_items(old(vel).sources)))
            ==> final(vel).cached == source_total(source_items(final(vel).sources)),
        !final(vel).dirty,
        source_items(final(vel).sources) == source_items(old(vel).sources),
        final(vel).next_src_id == old(vel).next_src_id,
        d.x.bits == mul_bits(final(vel).cached.x.bits as int, sec_bits(dt)),
        d.y.bits == mul_bits(final(vel).cached.y.bits as int, sec_bits(dt)),
        dt.nanos() == 0 ==> d.x.bits == 0 && d.y.bits == 0,
{
    // only re-evaluate if a source changed
    if vel.dirty {
        let total = sum_sources(&vel.sources);
        proof {
            assert(component(total, 0) == component_sum(source_items(vel.sources), 0));
            assert(component(total, 1) == component_sum(source_items(vel.sources), 1));
            assert(component(total, 2) == component_sum(source_items(vel.sources), 2));
        }
        vel.cached = total;
        vel.dirty = false;
    }
    let step = dt.sec();
    let lin = vel.linear();
    proof {
        if dt.nanos() == 0 {
            assert(sec_bits(dt) == 0);
            assert(lin.x.bits as int * 0 == 0);
            assert(lin.y.bits as int * 0 == 0);
        }
    }
    Vec2F::new(lin.x.mul(step), lin.y.mul(step))
}

/// Destroying a source keeps its id: it stops being live, and nothing finds
/// it by id any more.
pub proof fn lemma_set_free_keeps_id<T>(before: Source<T>, after: Source<T>)
    requires
        after.meta == (if is_live(before) {
            before.meta + DESTROYED_BIT
        } else {
            before.meta as int
        }),
    ensures
        !is_live(after),
        source_id(after) == source_id(before),
{
}

/// A new source is found again by its id: when no live source holds `id`
/// yet, setting the value of `id` right after placing a fresh source with
/// that id sets the fresh source, wherever it was placed.
pub proof fn lemma_new_source_found(s: Seq<Source<Vec3F>>, id: SourceID, v: Vec3F)
    requires
        id < DESTROYED_BIT,
        !has_match(s, id),
    ensures
        ({
            let fresh = Source { meta: id, val: zero3() };
            let p = placed(s, fresh);
            let pos = if has_destroyed(s) {
                first_destroyed(s)
            } else {
                s.len() as int
            };
            &&& has_match(p, id)
            &&& first_match(p, id) == pos
            &&& set_value(p, id, v) == p.update(pos, Source { meta: id, val: v })
        }),
{
    let fresh = Source { meta: id, val: zero3() };
    let p = placed(s, fresh);
    let pos = if has_destroyed(s) {
        first_destroyed(s)
    } else {
        s.len() as int
    };
    if has_destroyed(s) {
        let i = choose|i: int| first_destroyed_at(s, i);
        lemma_first_destroyed_unique(s, i, first_destroyed(s));
    }
    assert(p[pos] == fresh);
    assert(matches_id(p[pos], id));
    assert forall|j: int| 0 <= j < pos implies !matches_id(#[trigger] p[j], id) by {
        assert(p[j] == s[j]);
        if matches_id(s[j], id) {
            assert(has_match(s, id));
        }
    }
    assert(first_match_at(p, id, pos));
    lemma_first_match_unique(p, id, pos, first_match(p, id));
}

} // verus!
