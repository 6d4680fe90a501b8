//! A map from addresses to values, kept in address order.
use crate::address::Address;
use vstd::prelude::*;

verus! {

/// The keys rise strictly.
pub open spec fn rising<V>(s: Seq<(Address, V)>) -> bool {
    forall|i: int, j: int| 0 <= i < j < s.len() ==> (#[trigger] s[i]).0.0 < (#[trigger] s[j]).0.0
}

/// How many keys of `s` lie below `key`. Where the keys rise these are the
/// first ones.
pub open spec fn keys_below<V>(s: Seq<(Address, V)>, key: int) -> int
    decreases s.len(),
{
    if s.len() == 0 {
        0
    } else if s.last().0.0 < key {
        s.len() as int
    } else {
        keys_below(s.drop_last(), key)
    }
}

/// `s` after `key` has been given `value`: in place where it had a value,
/// at its place in the order where it had none.
pub open spec fn put<V>(s: Seq<(Address, V)>, key: Address, value: V) -> Seq<(Address, V)> {
    let k = keys_below(s, key.0 as int);
    if has_key(s, key) {
        s.update(k, (key, value))
    } else {
        s.insert(k, (key, value))
    }
}

/// Whether `key` is a key of `s`.
pub open spec fn has_key<V>(s: Seq<(Address, V)>, key: Address) -> bool {
    exists|i: int| 0 <= i < s.len() && (#[trigger] s[i]).0 == key
}

pub proof fn keys_below_bounds<V>(s: Seq<(Address, V)>, key: int)
    requires
        rising(s),
    ensures
        0 <= keys_below(s, key) <= s.len(),
        forall|i: int| 0 <= i < keys_below(s, key) ==> (#[trigger] s[i]).0.0 < key,
        forall|i: int| keys_below(s, key) <= i < s.len() ==> (#[trigger] s[i]).0.0 >= key,
    decreases s.len(),
{
    if s.len() == 0 {
    } else if s.last().0.0 < key {
        assert forall|i: int| 0 <= i < s.len() implies (#[trigger] s[i]).0.0 < key by {
            if i < s.len() - 1 {
                assert(s[i].0.0 < s[s.len() - 1].0.0);
            }
        }
    } else {
        let t = s.drop_last();
        assert(rising(t));
        keys_below_bounds(t, key);
        assert forall|i: int| keys_below(s, key) <= i < s.len() implies (#[trigger] s[i]).0.0
            >= key by {
            if i < t.len() {
                assert(t[i] == s[i]);
            }
        }
        assert forall|i: int| 0 <= i < keys_below(s, key) implies (#[trigger] s[i]).0.0 < key by {
            assert(t[i] == s[i]);
        }
    }
}

/// Where the keys rise, `key` can only stand at position `keys_below`.
pub proof fn key_position<V>(s: Seq<(Address, V)>, key: Address)
    requires
        rising(s),
    ensures
        has_key(s, key) <==> (keys_below(s, key.0 as int) < s.len() && s[keys_below(
            s,
            key.0 as int,
        )].0 == key),
        forall|i: int|
            0 <= i < s.len() && (#[trigger] s[i]).0 == key ==> i == keys_below(s, key.0 as int),
{
    keys_below_bounds(s, key.0 as int);
    let k = keys_below(s, key.0 as int);
    assert forall|i: int| 0 <= i < s.len() && (#[trigger] s[i]).0 == key implies i == k by {
        if i < k {
            assert(s[i].0.0 < key.0);
        } else if i > k {
            assert(s[k].0.0 >= key.0);
            assert(s[k].0.0 < s[i].0.0);
        }
    }
    if k < s.len() && s[k].0 == key {
        assert(has_key(s, key));
    }
}

/// Two sequences hold the same keys at the same places.
pub open spec fn same_keys<V, W>(s: Seq<(Address, V)>, t: Seq<(Address, W)>) -> bool {
    &&& s.len() == t.len()
    &&& forall|i: int| 0 <= i < s.len() ==> (#[trigger] s[i]).0 == (#[trigger] t[i]).0
}

/// What is said of the keys alone holds of both sequences or of neither.
pub proof fn same_keys_agree<V, W>(s: Seq<(Address, V)>, t: Seq<(Address, W)>, key: Address)
    requires
        same_keys(s, t),
    ensures
        rising(s) == rising(t),
        has_key(s, key) == has_key(t, key),
        keys_below(s, key.0 as int) == keys_below(t, key.0 as int),
    decreases s.len(),
{
    if rising(s) {
        assert forall|i: int, j: int| 0 <= i < j < t.len() implies (#[trigger] t[i]).0.0 < (
        #[trigger] t[j]).0.0 by {
            assert(s[i].0.0 < s[j].0.0);
        }
    }
    if rising(t) {
        assert forall|i: int, j: int| 0 <= i < j < s.len() implies (#[trigger] s[i]).0.0 < (
        #[trigger] s[j]).0.0 by {
            assert(t[i].0.0 < t[j].0.0);
        }
    }
    if has_key(s, key) {
        let i = choose|i: int| 0 <= i < s.len() && (#[trigger] s[i]).0 == key;
        assert(t[i].0 == key);
    }
    if has_key(t, key) {
        let i = choose|i: int| 0 <= i < t.len() && (#[trigger] t[i]).0 == key;
        assert(s[i].0 == key);
    }
    if s.len() > 0 {
        assert(s[s.len() - 1].0 == t[s.len() - 1].0);
        let s1 = s.drop_last();
        let t1 = t.drop_last();
        assert forall|i: int| 0 <= i < s1.len() implies (#[trigger] s1[i]).0 == (#[trigger] t1[i]).0 by {
            assert(s1[i] == s[i]);
            assert(t1[i] == t[i]);
        }
        same_keys_agree(s1, t1, key);
    }
}

/// A map from addresses to values, in address order.
pub struct AddressMap<V> {
    entries: Vec<(Address, V)>,
}

impl<V> View for AddressMap<V> {
    type V = Seq<(Address, V)>;

    closed spec fn view(&self) -> Seq<(Address, V)> {
        self.entries@
    }
}

impl<V> AddressMap<V> {
    /// No key occurs twice and the keys are in address order.
    pub open spec fn wf(&self) -> bool {
        rising(self@)
    }

    /// Whether `key` has a value.
    pub open spec fn contains(&self, key: Address) -> bool {
        has_key(self@, key)
    }

    pub fn new() -> (m: AddressMap<V>)
        ensures
            m@ == Seq::<(Address, V)>::empty(),
            m.wf(),
    {
        AddressMap { entries: Vec::new() }
    }

    /// The number of keys.
    pub fn len(&self) -> (n: usize)
        ensures
            n == self@.len(),
    {
        self.entries.len()
    }

    /// The `i`-th key, in address order, with its value.
    pub fn entry(&self, i: usize) -> (e: &(Address, V))
        requires
            i < self@.len(),
        ensures
            *e == self@[i as int],
    {
        &self.entries[i]
    }

    /// The number of keys below `key`: the position at which `key` stands or
    /// would stand.
    pub fn rank(&self, key: Address) -> (k: usize)
        requires
            self.wf(),
        ensures
            k == keys_below(self@, key.0 as int),
            k <= self@.len(),
    {
        let mut k: usize = 0;
        while k < self.entries.len() && self.entries[k].0.0 < key.0
            invariant
                k <= self.entries@.len(),
                forall|i: int| 0 <= i < k ==> (#[trigger] self.entries@[i]).0.0 < key.0,
            decreases self.entries@.len() - k,
        {
            k += 1;
        }
        proof {
            keys_below_bounds(self@, key.0 as int);
            let r = keys_below(self@, key.0 as int);
            if r < k {
                assert(self@[r].0.0 < key.0);
            }
            if k < r {
                assert(self@[k as int].0.0 < key.0);
            }
        }
        k
    }

    /// The position of `key`, if it has a value.
    pub fn position(&self, key: Address) -> (r: Option<usize>)
        requires
            self.wf(),
        ensures
            r is Some <==> self.contains(key),
            r is Some ==> r->Some_0 < self@.len() && self@[r->Some_0 as int].0 == key
                && r->Some_0 == keys_below(self@, key.0 as int),
    {
        let k = self.rank(key);
        proof {
            key_position(self@, key);
        }
        if k < self.entries.len() && self.entries[k].0.0 == key.0 {
            Some(k)
        } else {
            None
        }
    }

    pub fn contains_key(&self, key: Address) -> (b: bool)
        requires
            self.wf(),
        ensures
            b == self.contains(key),
    {
        self.position(key).is_some()
    }

    /// The value of `key`.
    pub fn get(&self, key: Address) -> (r: Option<&V>)
        requires
            self.wf(),
        ensures
            r is Some <==> self.contains(key),
            r is Some ==> keys_below(self@, key.0 as int) < self@.len() && *r->Some_0
                == self@[keys_below(self@, key.0 as int)].1,
    {
        match self.position(key) {
            Some(i) => Some(&self.entries[i].1),
            None => None,
        }
    }

    /// The value of `key`, to be changed in place.
    pub fn get_mut(&mut self, key: Address) -> (r: Option<&mut V>)
        requires
            old(self).wf(),
        ensures
            final(self).wf(),
            r is Some <==> old(self).contains(key),
            match r {
                Some(v) => {
                    let i = keys_below(old(self)@, key.0 as int);
                    0 <= i < old(self)@.len() && old(self)@[i].0 == key && *v == old(self)@[i].1
                        && final(self)@ == old(self)@.update(i, (key, *final(v)))
                },
                None => final(self)@ == old(self)@,
            },
    {
        match self.position(key) {
            Some(i) => Some(&mut self.entries[i].1),
            None => None,
        }
    }

    /// Gives `key` the value `value` and returns the value it had.
    pub fn insert(&mut self, key: Address, value: V) -> (previous: Option<V>)
        requires
            old(self).wf(),
        ensures
            final(self).wf(),
            final(self).contains(key),
            final(self)@ == put(old(self)@, key, value),
            previous is Some <==> old(self).contains(key),
            ({
                let k = keys_below(old(self)@, key.0 as int);
                match previous {
                    Some(p) => k < old(self)@.len() && p == old(self)@[k].1 && final(self)@ == old(
                        self,
                    )@.update(k, (key, value)),
                    None => final(self)@ == old(self)@.insert(k, (key, value)),
                }
            }),
    {
        let ghost s = self.entries@;
        let k = self.rank(key);
        proof {
            key_position(s, key);
            keys_below_bounds(s, key.0 as int);
        }
        if k < self.entries.len() && self.entries[k].0.0 == key.0 {
            let old_entry = self.entries.remove(k);
            self.entries.insert(k, (key, value));
            proof {
                let t = s.update(k as int, (key, value));
                assert(self.entries@ =~= t);
                assert forall|i: int, j: int| 0 <= i < j < t.len() implies (#[trigger] t[i]).0.0 < (
                #[trigger] t[j]).0.0 by {
                    assert(s[i].0.0 < s[j].0.0);
                }
                assert(t[k as int].0 == key);
            }
            Some(old_entry.1)
        } else {
            self.entries.insert(k, (key, value));
            proof {
                let t = s.insert(k as int, (key, value));
                assert forall|i: int, j: int| 0 <= i < j < t.len() implies (#[trigger] t[i]).0.0 < (
                #[trigger] t[j]).0.0 by {
                    let a = if i < k { i } else { i - 1 };
                    let b = if j < k { j } else { j - 1 };
                    if i != k {
                        assert(t[i] == s[a]);
                    }
                    if j != k {
                        assert(t[j] == s[b]);
                    }
                }
                assert(t[k as int].0 == key);
            }
            None
        }
    }
}

} // verus!
