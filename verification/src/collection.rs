use crate::arena::Allocator;
use crate::err::Error;
use vstd::arithmetic::div_mod::{
    lemma_fundamental_div_mod, lemma_fundamental_div_mod_converse, lemma_mod_bound,
};
use vstd::pervasive::VecAdditionalExecFns;
use vstd::prelude::*;

verus! {

broadcast use vstd::layout::layout_of_primitives;

/// A fixed-capacity, non-growable sequence. Its element storage is owned, but
/// its byte budget (`capacity * size_of::<T>()`) is accounted against the
/// arena it was created from, so an arena's free space shrinks exactly as it
/// would with in-place storage.
pub struct Array<T> {
    storage: Vec<T>,
    capacity: usize,
}

impl<T> View for Array<T> {
    type V = Seq<T>;

    closed spec fn view(&self) -> Seq<T> {
        self.storage@
    }
}

impl<T> Array<T> {
    /// The fixed capacity, in elements.
    pub closed spec fn spec_cap(&self) -> int {
        self.capacity as int
    }

    /// The initialized prefix never exceeds the capacity.
    pub open spec fn wf(&self) -> bool {
        self@.len() <= self.spec_cap()
    }

    /// An array with no storage at all, as an all-zero slot of a map holds.
    pub fn null() -> (r: Array<T>)
        ensures
            r.wf(),
            r@ =~= Seq::<T>::empty(),
            r.spec_cap() == 0,
    {
        Array { storage: Vec::new(), capacity: 0 }
    }

    /// Carves `capacity * size_of::<T>()` bytes from the arena. Fails with
    /// `Error::Allocation` when that product overflows or exceeds the arena's
    /// free space, leaving the arena untouched.
    pub fn new(capacity: usize, allocator: &mut Allocator) -> (r: Result<Array<T>, Error>)
        requires
            old(allocator).wf(),
        ensures
            final(allocator).wf(),
            final(allocator).spec_base() == old(allocator).spec_base(),
            final(allocator).spec_cap() == old(allocator).spec_cap(),
            capacity * vstd::layout::size_of::<T>() > usize::MAX || capacity
                * vstd::layout::size_of::<T>() > old(allocator).spec_free() ==> r == Err::<
                Array<T>,
                Error,
            >(Error::Allocation) && final(allocator).spec_end() == old(allocator).spec_end(),
            capacity * vstd::layout::size_of::<T>() <= usize::MAX && capacity
                * vstd::layout::size_of::<T>() <= old(allocator).spec_free() ==> r is Ok
                && r.unwrap().wf()
                && r.unwrap()@ =~= Seq::<T>::empty()
                && r.unwrap().spec_cap() == capacity
                && final(allocator).spec_end() == old(allocator).spec_end() + capacity
                * vstd::layout::size_of::<T>(),
    {
        match capacity.checked_mul(core::mem::size_of::<T>()) {
            None => Err(Error::Allocation),
            Some(size) => {
                let _handle = allocator.reserve(size)?;
                Ok(Array { storage: Vec::new(), capacity })
            },
        }
    }

    /// Appends one element. Fails with `Error::OutOfBounds`, changing nothing,
    /// exactly when the array is full: from empty, a `push` succeeds once per
    /// unit of capacity and no more.
    pub fn push(&mut self, item: T) -> (r: Result<(), Error>)
        requires
            old(self).wf(),
        ensures
            final(self).wf(),
            final(self).spec_cap() == old(self).spec_cap(),
            old(self)@.len() >= old(self).spec_cap() ==> r == Err::<(), Error>(Error::OutOfBounds)
                && final(self)@ == old(self)@,
            old(self)@.len() < old(self).spec_cap() ==> r == Ok::<(), Error>(()) && final(self)@
                == old(self)@.push(item),
    {
        if self.storage.len() >= self.capacity {
            Err(Error::OutOfBounds)
        } else {
            self.storage.push(item);
            Ok(())
        }
    }

    /// Removes and returns the last element, or nothing when empty.
    pub fn pop(&mut self) -> (r: Option<T>)
        requires
            old(self).wf(),
        ensures
            final(self).wf(),
            final(self).spec_cap() == old(self).spec_cap(),
            old(self)@.len() == 0 ==> r is None && final(self)@ == old(self)@,
            old(self)@.len() > 0 ==> r == Some(old(self)@.last()) && final(self)@
                == old(self)@.drop_last(),
    {
        self.storage.pop()
    }

    /// Number of initialized elements.
    pub fn len(&self) -> (r: usize)
        ensures
            r == self@.len(),
    {
        self.storage.len()
    }

    /// The fixed capacity.
    pub fn cap(&self) -> (r: usize)
        ensures
            r == self.spec_cap(),
    {
        self.capacity
    }

    /// Whether the array has no storage (capacity zero), as the all-zero
    /// slots of a freshly built map do.
    pub fn is_null(&self) -> (r: bool)
        ensures
            r == (self.spec_cap() == 0),
    {
        self.capacity == 0
    }

    /// Writes `item` at `index` inside the initialized prefix. Fails with
    /// `Error::OutOfBounds`, changing nothing, when `index` is not below the
    /// capacity. Writing between the initialized prefix and the capacity
    /// would touch storage that does not yet hold a value, so callers keep
    /// `index` inside the prefix.
    pub fn insert(&mut self, index: usize, item: T) -> (r: Result<(), Error>)
        requires
            old(self).wf(),
            index < old(self).spec_cap() ==> index < old(self)@.len(),
        ensures
            final(self).wf(),
            final(self).spec_cap() == old(self).spec_cap(),
            index >= old(self).spec_cap() ==> r == Err::<(), Error>(Error::OutOfBounds)
                && final(self)@ == old(self)@,
            index < old(self).spec_cap() ==> r == Ok::<(), Error>(())
                && final(self)@ == old(self)@.update(index as int, item),
    {
        if index >= self.capacity {
            Err(Error::OutOfBounds)
        } else {
            self.storage.set(index, item);
            Ok(())
        }
    }

    /// Borrows the element at `index` inside the initialized prefix.
    pub fn index(&self, index: usize) -> (r: &T)
        requires
            index < self@.len(),
        ensures
            *r == self@[index as int],
    {
        &self.storage[index]
    }

    /// The initialized prefix, for read-only iteration.
    pub fn slice(&self) -> (r: &[T])
        ensures
            r@ == self@,
    {
        self.storage.as_slice()
    }
}

impl<T: Copy> Array<T> {
    /// Reads the element at `index` by copy. Fails with `Error::OutOfBounds`
    /// when `index` lies outside the initialized prefix; unlike a raw-storage
    /// view, reading between the prefix and the capacity is rejected rather
    /// than allowed to yield storage that holds no value.
    pub fn at(&self, index: usize) -> (r: Result<T, Error>)
        ensures
            index < self@.len() ==> r == Ok::<T, Error>(self@[index as int]),
            index >= self@.len() ==> r == Err::<T, Error>(Error::OutOfBounds),
    {
        if index < self.storage.len() {
            Ok(self.storage[index])
        } else {
            Err(Error::OutOfBounds)
        }
    }

    /// Appends every element of `dst`. Fails with `Error::OutOfBounds`,
    /// changing nothing, exactly when the result would exceed the capacity.
    pub fn copy(&mut self, dst: &[T]) -> (r: Result<(), Error>)
        requires
            old(self).wf(),
        ensures
            final(self).wf(),
            final(self).spec_cap() == old(self).spec_cap(),
            old(self)@.len() + dst@.len() > old(self).spec_cap() ==> r == Err::<(), Error>(
                Error::OutOfBounds,
            ) && final(self)@ == old(self)@,
            old(self)@.len() + dst@.len() <= old(self).spec_cap() ==> r == Ok::<(), Error>(())
                && final(self)@ == old(self)@ + dst@,
    {
        if dst.len() > self.capacity - self.storage.len() {
            Err(Error::OutOfBounds)
        } else {
            let mut i: usize = 0;
            while i < dst.len()
                invariant
                    i <= dst@.len(),
                    self@.len() == old(self)@.len() + i,
                    self@ == old(self)@ + dst@.subrange(0, i as int),
                    self.spec_cap() == old(self).spec_cap(),
                    old(self)@.len() + dst@.len() <= self.spec_cap(),
                decreases dst@.len() - i,
            {
                self.storage.push(dst[i]);
                proof {
                    assert(self@ == old(self)@ + dst@.subrange(0, i + 1)) by {
                        assert(dst@.subrange(0, i + 1) == dst@.subrange(0, i as int).push(
                            dst@[i as int],
                        ));
                    }
                }
                i = i + 1;
            }
            proof {
                assert(dst@.subrange(0, dst@.len() as int) == dst@);
            }
            Ok(())
        }
    }

    /// Appends every element of `items`, exactly as [`Array::copy`] does.
    pub fn append_slice(&mut self, items: &[T]) -> (r: Result<(), Error>)
        requires
            old(self).wf(),
        ensures
            final(self).wf(),
            final(self).spec_cap() == old(self).spec_cap(),
            old(self)@.len() + items@.len() > old(self).spec_cap() ==> r == Err::<(), Error>(
                Error::OutOfBounds,
            ) && final(self)@ == old(self)@,
            old(self)@.len() + items@.len() <= old(self).spec_cap() ==> r == Ok::<(), Error>(())
                && final(self)@ == old(self)@ + items@,
    {
        self.copy(items)
    }
}

impl Array<u8> {
    /// Fills the whole capacity with zero bytes, so that the initialized
    /// prefix covers every slot.
    pub fn zero(&mut self)
        ensures
            final(self).wf(),
            final(self).spec_cap() == old(self).spec_cap(),
            final(self)@ =~= Seq::new(old(self).spec_cap() as nat, |i: int| 0u8),
    {
        self.storage.clear();
        let mut i: usize = 0;
        while i < self.capacity
            invariant
                i <= self.spec_cap(),
                self.spec_cap() == old(self).spec_cap(),
                self@ =~= Seq::new(i as nat, |j: int| 0u8),
            decreases self.spec_cap() - i,
        {
            self.storage.push(0u8);
            i = i + 1;
        }
    }

    /// Whether the initialized prefixes hold the same bytes.
    pub fn eq(&self, other: &Array<u8>) -> (r: bool)
        ensures
            r == (self@ == other@),
    {
        let len = self.storage.len();
        if len != other.storage.len() {
            proof {
                assert(self@.len() != other@.len());
            }
            false
        } else {
            let mut i: usize = 0;
            while i < len
                invariant
                    i <= len,
                    len == self@.len(),
                    len == other@.len(),
                    forall|j: int| 0 <= j < i ==> self@[j] == other@[j],
                decreases len - i,
            {
                if self.storage[i] != other.storage[i] {
                    return false;
                }
                i = i + 1;
            }
            proof {
                assert(self@ =~= other@);
            }
            true
        }
    }

    /// Appends the decimal digits of `value`, least significant first and as
    /// raw digit values, without reversal; a caller that wants readable text
    /// reverses (and offsets) them itself. Fails with `Error::OutOfBounds`
    /// when the digits do not fit, leaving the digits that did fit appended.
    pub fn parse(&mut self, value: usize) -> (r: Result<(), Error>)
        requires
            old(self).wf(),
        ensures
            final(self).wf(),
            final(self).spec_cap() == old(self).spec_cap(),
            old(self)@.len() + spec_digits_rev(value as nat).len() <= old(self).spec_cap() ==> r
                == Ok::<(), Error>(()) && final(self)@ == old(self)@ + spec_digits_rev(
                value as nat,
            ),
            old(self)@.len() + spec_digits_rev(value as nat).len() > old(self).spec_cap() ==> r
                == Err::<(), Error>(Error::OutOfBounds) && final(self)@ == old(self)@
                + spec_digits_rev(value as nat).take(
                old(self).spec_cap() - old(self)@.len(),
            ),
    {
        let mut n = value;
        while n > 0
            invariant
                self.wf(),
                self.spec_cap() == old(self).spec_cap(),
                old(self)@ + spec_digits_rev(value as nat) == self@ + spec_digits_rev(n as nat),
                self@.len() >= old(self)@.len(),
            decreases n,
        {
            let rest = n % 10;
            n = n / 10;
            proof {
                assert(spec_digits_rev((10 * (n as nat) + rest as nat) as nat) == seq![
                    rest as u8,
                ] + spec_digits_rev(n as nat));
                assert(self@.push(rest as u8) + spec_digits_rev(n as nat) == self@ + (seq![
                    rest as u8,
                ] + spec_digits_rev(n as nat)));
            }
            match self.push(rest as u8) {
                Ok(_) => {},
                Err(e) => {
                    proof {
                        assert(self@.len() == self.spec_cap());
                        assert(old(self)@ + spec_digits_rev(value as nat) == self@ + (seq![
                            rest as u8,
                        ] + spec_digits_rev(n as nat)));
                        assert(spec_digits_rev(value as nat).len() == self@.len() - old(
                            self,
                        )@.len() + 1 + spec_digits_rev(n as nat).len());
                        assert forall|i: int| 0 <= i < self@.len() implies self@[i] == (old(
                            self,
                        )@ + spec_digits_rev(value as nat))[i] by {
                            assert(self@[i] == (self@ + (seq![rest as u8] + spec_digits_rev(
                                n as nat,
                            )))[i]);
                        }
                        assert(self@ =~= old(self)@ + spec_digits_rev(value as nat).take(
                            self.spec_cap() - old(self)@.len(),
                        ));
                    }
                    return Err(e);
                },
            }
        }
        proof {
            assert(spec_digits_rev(0) =~= Seq::<u8>::empty());
            assert(old(self)@ + spec_digits_rev(value as nat) =~= self@);
        }
        Ok(())
    }
}

/// The decimal digits of `n`, least significant first, as raw values `0..=9`;
/// zero has no digits at all.
pub open spec fn spec_digits_rev(n: nat) -> Seq<u8>
    decreases n,
{
    if n == 0 {
        Seq::empty()
    } else {
        seq![(n % 10) as u8] + spec_digits_rev(n / 10)
    }
}

/// The decimal digits of `n` as readable text: ASCII bytes, most significant
/// first; zero has no digits at all, as [`spec_digits_rev`] has none either.
pub open spec fn spec_dec_digits(n: nat) -> Seq<u8>
    decreases n,
{
    if n == 0 {
        Seq::empty()
    } else {
        spec_dec_digits(n / 10) + seq![(48 + n % 10) as u8]
    }
}

/// Every raw digit is below ten.
pub proof fn lemma_digits_rev_bounded(n: nat)
    ensures
        forall|i: int|
            0 <= i < spec_digits_rev(n).len() ==> (#[trigger] spec_digits_rev(n)[i]) < 10,
    decreases n,
{
    if n > 0 {
        lemma_digits_rev_bounded(n / 10);
        assert forall|i: int|
            0 <= i < spec_digits_rev(n).len() implies (#[trigger] spec_digits_rev(n)[i])
            < 10 by {
            if i > 0 {
                assert(spec_digits_rev(n)[i] == spec_digits_rev(n / 10)[i - 1]);
            }
        }
    }
}

/// The readable digits are the raw digits reversed and offset into ASCII.
pub proof fn lemma_dec_digits_reverse(n: nat)
    ensures
        spec_dec_digits(n).len() == spec_digits_rev(n).len(),
        forall|k: int|
            0 <= k < spec_dec_digits(n).len() ==> (#[trigger] spec_dec_digits(n)[k])
                == spec_digits_rev(n)[spec_digits_rev(n).len() - 1 - k] + 48,
    decreases n,
{
    if n > 0 {
        lemma_dec_digits_reverse(n / 10);
        lemma_digits_rev_bounded(n);
        let len = spec_dec_digits(n).len() as int;
        assert forall|k: int|
            0 <= k < len implies (#[trigger] spec_dec_digits(n)[k]) == spec_digits_rev(
            n,
        )[spec_digits_rev(n).len() - 1 - k] + 48 by {
            if k < len - 1 {
                assert(spec_dec_digits(n)[k] == spec_dec_digits(n / 10)[k]);
                assert(spec_digits_rev(n)[len - 1 - k] == spec_digits_rev(n / 10)[len - 2 - k]);
            } else {
                assert(spec_dec_digits(n)[k] == (48 + n % 10) as u8);
                assert(spec_digits_rev(n)[0] == (n % 10) as u8);
            }
        }
    }
}


/// Capability set every map key must expose: a hash, an equality test, and a
/// distinguished "zero" state that marks an empty slot of the table.
pub trait Hash: Sized {
    /// What `eq` decides.
    spec fn eq_spec(&self, other: &Self) -> bool;

    /// Whether this value marks an empty slot.
    spec fn is_zero_spec(&self) -> bool;

    /// What `hash` computes.
    spec fn hash_spec(&self) -> usize;

    fn hash(&self) -> (r: usize)
        ensures
            r == self.hash_spec(),
    ;

    fn eq(&self, other: &Self) -> (r: bool)
        ensures
            r == self.eq_spec(other),
    ;

    fn is_zero(&self) -> (r: bool)
        ensures
            r == self.is_zero_spec(),
    ;

    /// Builds a value in the zero state, for pre-filling a table.
    fn zero() -> (r: Self)
        ensures
            r.is_zero_spec(),
    ;

    /// Every value equals itself under `eq_spec`.
    proof fn lemma_eq_reflexive(&self)
        ensures
            self.eq_spec(self),
    ;
}

/// The slot visited by the `i`th step of a linear probe that starts at `pos`
/// in a table of `cap` slots.
pub open spec fn probe(cap: int, pos: int, i: int) -> int {
    (pos + i) % cap
}

/// The probe distance from `pos` to slot `s`: the unique `i` in `[0, cap)`
/// with `probe(cap, pos, i) == s`.
pub open spec fn probe_distance(cap: int, pos: int, s: int) -> int {
    if s >= pos {
        s - pos
    } else {
        s - pos + cap
    }
}

/// The least probe step at or after `i` that lands on an empty slot, if any.
pub open spec fn first_empty_at<K: Hash>(slots: Seq<K>, pos: int, i: int) -> Option<int>
    decreases slots.len() - i,
{
    if i < 0 || i >= slots.len() {
        None
    } else if slots[probe(slots.len() as int, pos, i)].is_zero_spec() {
        Some(i)
    } else {
        first_empty_at(slots, pos, i + 1)
    }
}

/// The least probe step from `pos` that lands on an empty slot, if any.
pub open spec fn first_empty<K: Hash>(slots: Seq<K>, pos: int) -> Option<int> {
    first_empty_at(slots, pos, 0)
}

/// The slot where the probe from `pos`, stepping from `i`, finds a key equal
/// to `key`; `None` as soon as an empty slot is reached, since an insertion
/// never skips an empty slot it could have filled.
pub open spec fn find_key_at<K: Hash>(slots: Seq<K>, key: K, pos: int, i: int) -> Option<int>
    decreases slots.len() - i,
{
    if i < 0 || i >= slots.len() {
        None
    } else {
        let idx = probe(slots.len() as int, pos, i);
        if slots[idx].is_zero_spec() {
            None
        } else if slots[idx].eq_spec(&key) {
            Some(idx)
        } else {
            find_key_at(slots, key, pos, i + 1)
        }
    }
}

/// Where a probe for `key` starts.
pub open spec fn probe_start<K: Hash>(slots: Seq<K>, key: K) -> int {
    (key.hash_spec() as int) % (slots.len() as int)
}

/// What a lookup of `key` yields on a table whose slots hold `slots` and
/// whose value array holds `vals`.
pub open spec fn spec_lookup<K: Hash, V>(slots: Seq<K>, vals: Seq<Option<V>>, key: K) -> Option<
    V,
> {
    match find_key_at(slots, key, probe_start(slots, key), 0) {
        Some(idx) => vals[idx],
        None => None,
    }
}

/// The two parallel arrays describe a consistent table: equal positive
/// length, and every occupied key slot has a stored value.
pub open spec fn table_wf<K: Hash, V>(slots: Seq<K>, vals: Seq<Option<V>>) -> bool {
    &&& slots.len() == vals.len()
    &&& slots.len() > 0
    &&& forall|i: int|
        0 <= i < slots.len() && !(#[trigger] slots[i]).is_zero_spec() ==> vals[i] is Some
}

/// How many slots of the table are empty.
pub open spec fn count_empty<K: Hash>(slots: Seq<K>) -> nat
    decreases slots.len(),
{
    if slots.len() == 0 {
        0
    } else {
        count_empty(slots.drop_last()) + if slots.last().is_zero_spec() {
            1nat
        } else {
            0nat
        }
    }
}

/// A fixed-capacity, open-addressing hash table over two parallel arrays,
/// linear-probed, with the key's zero state as the empty-slot sentinel.
/// There is no deletion, so no tombstones exist; the table is populated once
/// and then read.
pub struct HashMap<K, V> {
    keys: Array<K>,
    values: Array<Option<V>>,
}

impl<K: Hash, V> HashMap<K, V> {
    /// The keys stored in the table's slots, empties included.
    pub closed spec fn slots(&self) -> Seq<K> {
        self.keys@
    }

    /// The values stored beside the keys; `None` under every empty slot.
    pub closed spec fn vals(&self) -> Seq<Option<V>> {
        self.values@
    }

    /// The fixed number of slots.
    pub open spec fn spec_capacity(&self) -> int {
        self.slots().len() as int
    }

    /// The arrays are full-length, consistent, and non-empty.
    pub closed spec fn wf(&self) -> bool {
        &&& self.keys.wf()
        &&& self.values.wf()
        &&& self.keys@.len() == self.keys.spec_cap()
        &&& self.values@.len() == self.values.spec_cap()
        &&& table_wf(self.keys@, self.values@)
    }

    /// The well-formed table is consistent in the sense of [`table_wf`].
    pub proof fn lemma_wf_table(&self)
        requires
            self.wf(),
        ensures
            table_wf(self.slots(), self.vals()),
    {
    }

    /// Builds a table of `capacity` slots, all empty, charging both backing
    /// arrays to the arena. Fails with `Error::Allocation` exactly when a
    /// charge overflows or exceeds the arena's free space; a failure on the
    /// second array leaves the first array's charge carved out.
    pub fn new(capacity: usize, allocator: &mut Allocator) -> (r: Result<HashMap<K, V>, Error>)
        requires
            capacity > 0,
            old(allocator).wf(),
        ensures
            final(allocator).wf(),
            final(allocator).spec_base() == old(allocator).spec_base(),
            final(allocator).spec_cap() == old(allocator).spec_cap(),
            ({
                let ck = capacity * vstd::layout::size_of::<K>();
                let cv = capacity * vstd::layout::size_of::<Option<V>>();
                &&& (ck > usize::MAX || ck > old(allocator).spec_free()) ==> r == Err::<
                    HashMap<K, V>,
                    Error,
                >(Error::Allocation) && final(allocator).spec_end() == old(allocator).spec_end()
                &&& (ck <= usize::MAX && ck <= old(allocator).spec_free() && (cv > usize::MAX
                    || cv > old(allocator).spec_free() - ck)) ==> r == Err::<
                    HashMap<K, V>,
                    Error,
                >(Error::Allocation) && final(allocator).spec_end() == old(allocator).spec_end()
                    + ck
                &&& (ck <= usize::MAX && cv <= usize::MAX && ck + cv <= old(allocator).spec_free()) ==> r is Ok && r.unwrap().wf() && r.unwrap().spec_capacity()
                    == capacity && r.unwrap().vals().len() == capacity && final(allocator).spec_end() == old(allocator).spec_end() + ck + cv && (forall|i: int|
                    0 <= i < capacity ==> (#[trigger] r.unwrap().slots()[i]).is_zero_spec())
                    && (forall|i: int| 0 <= i < capacity ==> r.unwrap().vals()[i] is None)
            }),
    {
        let mut keys: Array<K> = Array::new(capacity, allocator)?;
        let mut values: Array<Option<V>> = Array::new(capacity, allocator)?;
        let mut i: usize = 0;
        while i < capacity
            invariant
                i <= capacity,
                keys.wf(),
                keys.spec_cap() == capacity,
                keys@.len() == i,
                forall|j: int| 0 <= j < i ==> (#[trigger] keys@[j]).is_zero_spec(),
            decreases capacity - i,
        {
            let _ = keys.push(K::zero());
            i = i + 1;
        }
        let mut j: usize = 0;
        while j < capacity
            invariant
                j <= capacity,
                values.wf(),
                values.spec_cap() == capacity,
                values@.len() == j,
                forall|t: int| 0 <= t < j ==> values@[t] is None,
            decreases capacity - j,
        {
            let _ = values.push(None);
            j = j + 1;
        }
        Ok(HashMap { keys, values })
    }

    /// The slot `(pos + i) % len`, computed without overflow.
    fn index_of(pos: usize, i: usize, len: usize) -> (r: usize)
        requires
            pos < len,
            i < len,
        ensures
            r == probe(len as int, pos as int, i as int),
            r < len,
    {
        if i >= len - pos {
            let r = i - (len - pos);
            proof {
                lemma_fundamental_div_mod_converse(
                    pos as int + i as int,
                    len as int,
                    1,
                    r as int,
                );
            }
            r
        } else {
            let r = pos + i;
            proof {
                lemma_fundamental_div_mod_converse(
                    pos as int + i as int,
                    len as int,
                    0,
                    r as int,
                );
            }
            r
        }
    }

    /// Walks the probe sequence from `pos` and reports the first empty step.
    fn probe_first_empty(&self, pos: usize) -> (r: Option<usize>)
        requires
            self.wf(),
            pos < self.slots().len(),
        ensures
            match first_empty(self.slots(), pos as int) {
                Some(i) => 0 <= i < self.slots().len() && r == Some(i as usize),
                None => r is None,
            },
    {
        let len = self.keys.len();
        let mut i: usize = 0;
        while i < len
            invariant
                self.wf(),
                pos < len,
                len == self.slots().len(),
                i <= len,
                first_empty(self.slots(), pos as int) == first_empty_at(
                    self.slots(),
                    pos as int,
                    i as int,
                ),
            decreases len - i,
        {
            let idx = Self::index_of(pos, i, len);
            if self.keys.index(idx).is_zero() {
                return Some(i);
            }
            i = i + 1;
        }
        None
    }

    /// Computes `pos = hash(key) % capacity` and probes forward for the first
    /// empty slot; writes the pair there. Fails with `Error::OutOfBounds`,
    /// changing nothing, when no empty slot exists or when the empty slot
    /// found is the one straight before `pos`: the wrap-detection test fires
    /// one slot early, so the table must keep at least one slot of headroom
    /// and can never be filled to its last slot.
    pub fn insert(&mut self, key: K, value: V) -> (r: Result<(), Error>)
        requires
            old(self).wf(),
        ensures
            final(self).wf(),
            final(self).spec_capacity() == old(self).spec_capacity(),
            old(self).vals().len() == old(self).spec_capacity(),
            final(self).vals().len() == old(self).vals().len(),
            ({
                let cap = old(self).spec_capacity();
                let pos = probe_start(old(self).slots(), key);
                0 <= pos < cap && match first_empty(old(self).slots(), pos) {
                    None => r == Err::<(), Error>(Error::OutOfBounds) && final(self).slots()
                        == old(self).slots() && final(self).vals() == old(self).vals(),
                    Some(i) => {
                        if i == cap - 1 {
                            r == Err::<(), Error>(Error::OutOfBounds) && final(self).slots()
                                == old(self).slots() && final(self).vals() == old(self).vals()
                        } else {
                            r == Ok::<(), Error>(()) && 0 <= probe(cap, pos, i) < cap
                                && final(self).slots() == old(self).slots().update(
                                probe(cap, pos, i),
                                key,
                            ) && final(self).vals() == old(self).vals().update(
                                probe(cap, pos, i),
                                Some(value),
                            )
                        }
                    },
                }
            }),
    {
        let len = self.keys.len();
        let hash = key.hash();
        let pos = hash % len;
        proof {
            lemma_mod_bound(hash as int, len as int);
        }
        match self.probe_first_empty(pos) {
            None => Err(Error::OutOfBounds),
            Some(i) => {
                if i == len - 1 {
                    Err(Error::OutOfBounds)
                } else {
                    let idx = Self::index_of(pos, i, len);
                    let _ = self.keys.insert(idx, key);
                    let _ = self.values.insert(idx, Some(value));
                    Ok(())
                }
            },
        }
    }
}

impl<K: Hash, V: Copy> HashMap<K, V> {
    /// Walks the probe sequence for `key` and reports the slot that holds an
    /// equal key, stopping at the first empty slot.
    fn probe_find(&self, key: &K, pos: usize) -> (r: Option<usize>)
        requires
            self.wf(),
            pos < self.slots().len(),
        ensures
            match find_key_at(self.slots(), *key, pos as int, 0) {
                Some(idx) => 0 <= idx < self.slots().len() && r == Some(idx as usize),
                None => r is None,
            },
    {
        let len = self.keys.len();
        let mut i: usize = 0;
        while i < len
            invariant
                self.wf(),
                pos < len,
                len == self.slots().len(),
                i <= len,
                find_key_at(self.slots(), *key, pos as int, 0) == find_key_at(
                    self.slots(),
                    *key,
                    pos as int,
                    i as int,
                ),
            decreases len - i,
        {
            let idx = Self::index_of(pos, i, len);
            let at = self.keys.index(idx);
            if at.is_zero() {
                return None;
            }
            if at.eq(key) {
                return Some(idx);
            }
            i = i + 1;
        }
        None
    }

    /// Probes the same sequence an insertion would and returns the stored
    /// value, by copy, on exact key equality; returns nothing as soon as an
    /// empty slot is met, since a key can only live before the first empty
    /// slot of its probe path.
    pub fn get(&mut self, key: &K) -> (r: Option<V>)
        requires
            old(self).wf(),
        ensures
            *final(self) == *old(self),
            old(self).vals().len() == old(self).slots().len(),
            r == spec_lookup(old(self).slots(), old(self).vals(), *key),
    {
        let len = self.keys.len();
        let hash = key.hash();
        let pos = hash % len;
        proof {
            lemma_mod_bound(hash as int, len as int);
        }
        match self.probe_find(key, pos) {
            None => None,
            Some(idx) => *self.values.index(idx),
        }
    }
}


/// Two distinct probe steps land on distinct slots: within one wrap of the
/// table, the probe sequence visits every slot at most once.
pub proof fn lemma_probe_injective(cap: int, pos: int, i: int, j: int)
    requires
        0 < cap,
        0 <= pos < cap,
        0 <= i < cap,
        0 <= j < cap,
        i != j,
    ensures
        probe(cap, pos, i) != probe(cap, pos, j),
{
    lemma_fundamental_div_mod(pos + i, cap);
    lemma_fundamental_div_mod(pos + j, cap);
    lemma_mod_bound(pos + i, cap);
    lemma_mod_bound(pos + j, cap);
    if probe(cap, pos, i) == probe(cap, pos, j) {
        let qi = (pos + i) / cap;
        let qj = (pos + j) / cap;
        assert(j - i == cap * (qj - qi)) by (nonlinear_arith)
            requires
                pos + i == cap * qi + (pos + i) % cap,
                pos + j == cap * qj + (pos + j) % cap,
                (pos + i) % cap == (pos + j) % cap,
        ;
        if qj - qi >= 1 {
            assert(cap * (qj - qi) >= cap) by (nonlinear_arith)
                requires
                    cap > 0,
                    qj - qi >= 1,
            ;
        }
        if qj - qi <= -1 {
            assert(cap * (qj - qi) <= -cap) by (nonlinear_arith)
                requires
                    cap > 0,
                    qj - qi <= -1,
            ;
        }
    }
}

/// The probe from `pos` reaches slot `s` at step `probe_distance(cap, pos, s)`,
/// which lies within one wrap.
pub proof fn lemma_probe_distance(cap: int, pos: int, s: int)
    requires
        0 < cap,
        0 <= pos < cap,
        0 <= s < cap,
    ensures
        0 <= probe_distance(cap, pos, s) < cap,
        probe(cap, pos, probe_distance(cap, pos, s)) == s,
{
    let d = probe_distance(cap, pos, s);
    if s >= pos {
        lemma_fundamental_div_mod_converse(pos + d, cap, 0, s);
    } else {
        lemma_fundamental_div_mod_converse(pos + d, cap, 1, s);
    }
}

/// What [`first_empty_at`] reports: the step found is the least one at or
/// after `i` that lands on an empty slot, and `None` means every remaining
/// step lands on an occupied slot.
pub proof fn lemma_first_empty_at_props<K: Hash>(slots: Seq<K>, pos: int, i: int)
    requires
        0 <= i <= slots.len(),
    ensures
        match first_empty_at(slots, pos, i) {
            Some(k) => i <= k < slots.len() && slots[probe(
                slots.len() as int,
                pos,
                k,
            )].is_zero_spec() && (forall|j: int|
                i <= j < k ==> !slots[#[trigger] probe(slots.len() as int, pos, j)].is_zero_spec()),
            None => forall|j: int|
                i <= j < slots.len() ==> !slots[#[trigger] probe(
                    slots.len() as int,
                    pos,
                    j,
                )].is_zero_spec(),
        },
    decreases slots.len() - i,
{
    if i < slots.len() {
        if !slots[probe(slots.len() as int, pos, i)].is_zero_spec() {
            lemma_first_empty_at_props::<K>(slots, pos, i + 1);
        }
    }
}

/// When some step `j` lands on an empty slot, the probe finds an empty slot
/// no later than `j`.
pub proof fn lemma_first_empty_found<K: Hash>(slots: Seq<K>, pos: int, i: int, j: int)
    requires
        0 <= i <= j < slots.len(),
        slots[probe(slots.len() as int, pos, j)].is_zero_spec(),
    ensures
        match first_empty_at(slots, pos, i) {
            Some(k) => i <= k <= j,
            None => false,
        },
    decreases j - i,
{
    if !slots[probe(slots.len() as int, pos, i)].is_zero_spec() {
        lemma_first_empty_found::<K>(slots, pos, i + 1, j);
    }
}

/// A found key occupies a real slot: [`find_key_at`] only ever reports a
/// non-empty slot whose key equals the one sought.
pub proof fn lemma_find_only_occupied<K: Hash>(slots: Seq<K>, key: K, pos: int, i: int)
    requires
        0 <= i <= slots.len(),
    ensures
        match find_key_at(slots, key, pos, i) {
            Some(idx) => 0 <= idx < slots.len() && !slots[idx].is_zero_spec()
                && slots[idx].eq_spec(&key),
            None => true,
        },
    decreases slots.len() - i,
{
    if i < slots.len() {
        let cap = slots.len() as int;
        lemma_mod_bound(pos + i, cap);
        if !slots[probe(cap, pos, i)].is_zero_spec() && !slots[probe(cap, pos, i)].eq_spec(
            &key,
        ) {
            lemma_find_only_occupied::<K>(slots, key, pos, i + 1);
        }
    }
}

/// Looking up a key that no occupied slot equals yields nothing: the table
/// reports no false positives.
pub proof fn lemma_absent_key_lookup_none<K: Hash, V>(
    slots: Seq<K>,
    vals: Seq<Option<V>>,
    key: K,
)
    requires
        table_wf(slots, vals),
        forall|t: int|
            0 <= t < slots.len() && !(#[trigger] slots[t]).is_zero_spec() ==> !slots[t].eq_spec(
                &key,
            ),
    ensures
        spec_lookup(slots, vals, key) is None,
{
    lemma_find_only_occupied(slots, key, probe_start(slots, key), 0);
}

/// While the table keeps two empty slots, an insertion probing from any
/// start succeeds: the first empty step comes before the wrap-detection
/// step `capacity - 1` that the insertion rejects.
pub proof fn lemma_headroom_insert_succeeds<K: Hash>(slots: Seq<K>, pos: int, e1: int, e2: int)
    requires
        slots.len() > 0,
        0 <= pos < slots.len(),
        0 <= e1 < slots.len(),
        0 <= e2 < slots.len(),
        e1 != e2,
        slots[e1].is_zero_spec(),
        slots[e2].is_zero_spec(),
    ensures
        match first_empty(slots, pos) {
            Some(i) => 0 <= i < slots.len() - 1,
            None => false,
        },
{
    let cap = slots.len() as int;
    let d1 = probe_distance(cap, pos, e1);
    let d2 = probe_distance(cap, pos, e2);
    lemma_probe_distance(cap, pos, e1);
    lemma_probe_distance(cap, pos, e2);
    let m = if d1 <= d2 {
        d1
    } else {
        d2
    };
    assert(m <= cap - 2);
    lemma_first_empty_found::<K>(slots, pos, 0, m);
}

/// There is an empty slot wherever the count says so.
pub proof fn lemma_count_empty_nonzero<K: Hash>(slots: Seq<K>)
    requires
        count_empty(slots) >= 1,
    ensures
        exists|i: int| 0 <= i < slots.len() && (#[trigger] slots[i]).is_zero_spec(),
    decreases slots.len(),
{
    if slots.len() > 0 {
        if slots.last().is_zero_spec() {
            assert(slots[slots.len() - 1].is_zero_spec());
        } else {
            lemma_count_empty_nonzero::<K>(slots.drop_last());
            let i = choose|i: int|
                0 <= i < slots.drop_last().len() && (#[trigger] slots.drop_last()[i]).is_zero_spec();
            assert(slots[i].is_zero_spec());
        }
    }
}

/// A count of two or more empty slots names two distinct ones.
pub proof fn lemma_count_empty_two<K: Hash>(slots: Seq<K>)
    requires
        count_empty(slots) >= 2,
    ensures
        exists|i: int, j: int|
            0 <= i < j < slots.len() && (#[trigger] slots[i]).is_zero_spec() && (
            #[trigger] slots[j]).is_zero_spec(),
    decreases slots.len(),
{
    if slots.len() > 0 {
        if slots.last().is_zero_spec() {
            lemma_count_empty_nonzero::<K>(slots.drop_last());
            let i = choose|i: int|
                0 <= i < slots.drop_last().len() && (#[trigger] slots.drop_last()[i]).is_zero_spec();
            assert(slots[i].is_zero_spec() && slots[slots.len() - 1].is_zero_spec());
            assert(0 <= i < slots.len() - 1 < slots.len());
        } else {
            lemma_count_empty_two::<K>(slots.drop_last());
            let (i, j) = choose|i: int, j: int|
                0 <= i < j < slots.drop_last().len() && (#[trigger] slots.drop_last()[i]).is_zero_spec()
                    && (#[trigger] slots.drop_last()[j]).is_zero_spec();
            assert(slots[i].is_zero_spec() && slots[j].is_zero_spec());
        }
    }
}

/// Writing a non-zero key into an empty slot takes exactly one empty slot
/// away.
pub proof fn lemma_count_empty_update<K: Hash>(slots: Seq<K>, idx: int, key: K)
    requires
        0 <= idx < slots.len(),
        slots[idx].is_zero_spec(),
        !key.is_zero_spec(),
    ensures
        count_empty(slots.update(idx, key)) == count_empty(slots) - 1,
    decreases slots.len(),
{
    let updated = slots.update(idx, key);
    if idx == slots.len() - 1 {
        assert(updated.drop_last() =~= slots.drop_last());
    } else {
        assert(updated.drop_last() =~= slots.drop_last().update(idx, key));
        lemma_count_empty_update::<K>(slots.drop_last(), idx, key);
    }
}

/// The capacity margin of the table: while at least two slots are still
/// empty, an insertion probing from any start succeeds. A table filled from
/// empty with distinct non-zero keys keeps that margin until it holds
/// `capacity - 1` entries, since each success takes exactly one empty slot
/// (see [`lemma_count_empty_update`]); so the first `capacity - 1`
/// insertions all succeed.
pub proof fn lemma_margin_insert_succeeds<K: Hash>(slots: Seq<K>, pos: int)
    requires
        slots.len() > 0,
        0 <= pos < slots.len(),
        count_empty(slots) >= 2,
    ensures
        match first_empty(slots, pos) {
            Some(i) => 0 <= i < slots.len() - 1,
            None => false,
        },
{
    lemma_count_empty_two::<K>(slots);
    let (e1, e2) = choose|i: int, j: int|
        0 <= i < j < slots.len() && (#[trigger] slots[i]).is_zero_spec() && (
        #[trigger] slots[j]).is_zero_spec();
    lemma_headroom_insert_succeeds::<K>(slots, pos, e1, e2);
}

/// Helper for the round-trip law: once `key` itself sits at probe step
/// `istar` and every earlier step holds an occupied, different key, the
/// probe for `key` finds exactly that slot.
proof fn lemma_find_reaches_insert_slot<K: Hash>(slots2: Seq<K>, key: K, pos: int, t: int, istar: int)
    requires
        slots2.len() > 0,
        0 <= pos < slots2.len(),
        0 <= t <= istar < slots2.len(),
        !key.is_zero_spec(),
        slots2[probe(slots2.len() as int, pos, istar)] == key,
        key.eq_spec(&key),
        forall|j: int|
            t <= j < istar ==> !slots2[#[trigger] probe(slots2.len() as int, pos, j)].is_zero_spec()
                && !slots2[probe(slots2.len() as int, pos, j)].eq_spec(&key),
    ensures
        find_key_at(slots2, key, pos, t) == Some(probe(slots2.len() as int, pos, istar)),
    decreases istar - t,
{
    let cap = slots2.len() as int;
    lemma_mod_bound(pos + t, cap);
    if t < istar {
        lemma_find_reaches_insert_slot::<K>(slots2, key, pos, t + 1, istar);
    }
}

/// The round-trip law of the table. Inserting a non-zero key that no
/// occupied slot already equals, into a table with room on the key's probe
/// path, and then looking the key up, yields exactly the value inserted.
/// The pre- and post-states here are the ones [`HashMap::insert`] promises.
pub proof fn lemma_insert_then_get<K: Hash, V>(
    slots: Seq<K>,
    vals: Seq<Option<V>>,
    key: K,
    value: V,
)
    requires
        table_wf(slots, vals),
        !key.is_zero_spec(),
        forall|t: int|
            0 <= t < slots.len() && !(#[trigger] slots[t]).is_zero_spec() ==> !slots[t].eq_spec(
                &key,
            ),
        match first_empty(slots, probe_start(slots, key)) {
            Some(i) => i < slots.len() - 1,
            None => false,
        },
    ensures
        ({
            let cap = slots.len() as int;
            let pos = probe_start(slots, key);
            let idx = probe(cap, pos, first_empty(slots, pos).unwrap());
            spec_lookup(slots.update(idx, key), vals.update(idx, Some(value)), key) == Some(
                value,
            )
        }),
{
    let cap = slots.len() as int;
    let pos = probe_start(slots, key);
    lemma_mod_bound(key.hash_spec() as int, cap);
    lemma_first_empty_at_props::<K>(slots, pos, 0);
    let istar = first_empty(slots, pos).unwrap();
    let idx = probe(cap, pos, istar);
    lemma_mod_bound(pos + istar, cap);
    let slots2 = slots.update(idx, key);
    assert(probe_start(slots2, key) == pos);
    assert forall|j: int| 0 <= j < istar implies !slots2[#[trigger] probe(
        cap,
        pos,
        j,
    )].is_zero_spec() && !slots2[probe(cap, pos, j)].eq_spec(&key) by {
        lemma_probe_injective(cap, pos, j, istar);
        lemma_mod_bound(pos + j, cap);
    }
    key.lemma_eq_reflexive();
    lemma_find_reaches_insert_slot::<K>(slots2, key, pos, 0, istar);
}

} // verus!
