//! A map from text keys to text values with no key twice, and the limited
//! insertion that the key-value store and CSS custom properties share.
use vstd::prelude::*;
use crate::text::chars_of;
use crate::text::starts_with;
use vstd::string::StringSliceAdditionalSpecFns;

verus! {

broadcast use vstd::string::group_string_axioms;

/// The model of a list of entries.
pub open spec fn entries_view(e: Seq<(String, String)>) -> Seq<(Seq<char>, Seq<char>)> {
    e.map_values(|p: (String, String)| (p.0@, p.1@))
}

/// No key occurs twice.
pub open spec fn keys_distinct(ev: Seq<(Seq<char>, Seq<char>)>) -> bool {
    forall|i: int, j: int| 0 <= i < ev.len() && 0 <= j < ev.len() && i != j ==> ev[i].0 != ev[j].0
}

/// The map that a list of entries with distinct keys stands for.
pub open spec fn map_of(ev: Seq<(Seq<char>, Seq<char>)>) -> Map<Seq<char>, Seq<char>>
    decreases ev.len(),
{
    if ev.len() == 0 {
        Map::empty()
    } else {
        map_of(ev.drop_last()).insert(ev.last().0, ev.last().1)
    }
}

/// UTF-8 length of a text, as `str::len` reports it.
pub open spec fn byte_len(s: Seq<char>) -> int {
    (vstd::utf8::encode_utf8(s).len() as usize) as int
}

/// The entries with `k` set to `v`: an entry with key `k` keeps its place
/// and takes the value, else the pair goes last.
pub open spec fn entries_insert(ev: Seq<(Seq<char>, Seq<char>)>, k: Seq<char>, v: Seq<char>) -> Seq<
    (Seq<char>, Seq<char>),
> {
    if exists|i: int| 0 <= i < ev.len() && ev[i].0 == k {
        let i = choose|i: int| 0 <= i < ev.len() && ev[i].0 == k;
        ev.update(i, (k, v))
    } else {
        ev.push((k, v))
    }
}

/// Whether setting `key` to a value of `value_bytes` bytes keeps entries
/// `ev` within the limits: the key exists or there are fewer than
/// `max_keys` entries, the value has at most `max_value` bytes, and all
/// values together, this one added, at most `max_total`.
pub open spec fn limits_ok(
    ev: Seq<(Seq<char>, Seq<char>)>,
    key: Seq<char>,
    value_bytes: int,
    max_keys: int,
    max_value: int,
    max_total: int,
) -> bool {
    &&& map_of(ev).contains_key(key) || ev.len() < max_keys
    &&& value_bytes <= max_value
    &&& values_bytes(ev) + value_bytes <= max_total
}

/// Total UTF-8 length of the values.
pub open spec fn values_bytes(ev: Seq<(Seq<char>, Seq<char>)>) -> int
    decreases ev.len(),
{
    if ev.len() == 0 {
        0
    } else {
        values_bytes(ev.drop_last()) + byte_len(ev.last().1)
    }
}

proof fn lemma_map_of_domain(ev: Seq<(Seq<char>, Seq<char>)>, k: Seq<char>)
    ensures
        map_of(ev).contains_key(k) <==> exists|i: int| 0 <= i < ev.len() && ev[i].0 == k,
    decreases ev.len(),
{
    if ev.len() > 0 {
        lemma_map_of_domain(ev.drop_last(), k);
        if map_of(ev).contains_key(k) {
            if ev.last().0 == k {
                assert(ev[ev.len() - 1].0 == k);
            } else {
                let i = choose|i: int| 0 <= i < ev.drop_last().len() && ev.drop_last()[i].0 == k;
                assert(ev[i].0 == k);
            }
        }
        if exists|i: int| 0 <= i < ev.len() && ev[i].0 == k {
            let i = choose|i: int| 0 <= i < ev.len() && ev[i].0 == k;
            if i < ev.len() - 1 {
                assert(ev.drop_last()[i].0 == k);
            }
        }
    }
}

pub proof fn lemma_map_of_value(ev: Seq<(Seq<char>, Seq<char>)>, i: int)
    requires
        keys_distinct(ev),
        0 <= i < ev.len(),
    ensures
        map_of(ev).contains_key(ev[i].0),
        map_of(ev)[ev[i].0] == ev[i].1,
    decreases ev.len(),
{
    if i < ev.len() - 1 {
        assert(keys_distinct(ev.drop_last()));
        assert(ev.drop_last()[i] == ev[i]);
        lemma_map_of_value(ev.drop_last(), i);
        assert(ev.last().0 != ev[i].0);
    }
}

/// Every value of the map that entries stand for is the value of one of
/// them.
pub proof fn lemma_map_of_values(ev: Seq<(Seq<char>, Seq<char>)>, k: Seq<char>)
    ensures
        map_of(ev).contains_key(k) ==> exists|i: int|
            0 <= i < ev.len() && ev[i].0 == k && ev[i].1 == map_of(ev)[k],
    decreases ev.len(),
{
    if ev.len() > 0 {
        lemma_map_of_values(ev.drop_last(), k);
        if map_of(ev).contains_key(k) {
            if ev.last().0 == k {
                assert(ev[ev.len() - 1].0 == k);
            } else {
                let i = choose|i: int|
                    0 <= i < ev.drop_last().len() && ev.drop_last()[i].0 == k && ev.drop_last()[i].1
                        == map_of(ev.drop_last())[k];
                assert(ev[i] == ev.drop_last()[i]);
            }
        }
    }
}

proof fn lemma_map_of_update(ev: Seq<(Seq<char>, Seq<char>)>, i: int, v: Seq<char>)
    requires
        keys_distinct(ev),
        0 <= i < ev.len(),
    ensures
        map_of(ev.update(i, (ev[i].0, v))) == map_of(ev).insert(ev[i].0, v),
        keys_distinct(ev.update(i, (ev[i].0, v))),
    decreases ev.len(),
{
    let ev2 = ev.update(i, (ev[i].0, v));
    if i == ev.len() - 1 {
        assert(ev2.drop_last() == ev.drop_last());
        assert(map_of(ev2) =~= map_of(ev).insert(ev[i].0, v));
    } else {
        assert(keys_distinct(ev.drop_last()));
        assert(ev2.drop_last() == ev.drop_last().update(i, (ev[i].0, v)));
        lemma_map_of_update(ev.drop_last(), i, v);
        assert(ev.last().0 != ev[i].0);
        assert(map_of(ev2) =~= map_of(ev).insert(ev[i].0, v));
    }
}

proof fn lemma_map_of_remove(ev: Seq<(Seq<char>, Seq<char>)>, i: int)
    requires
        keys_distinct(ev),
        0 <= i < ev.len(),
    ensures
        map_of(ev.remove(i)) == map_of(ev).remove(ev[i].0),
        keys_distinct(ev.remove(i)),
    decreases ev.len(),
{
    let k = ev[i].0;
    if i == ev.len() - 1 {
        assert(ev.remove(i) == ev.drop_last());
        lemma_map_of_domain(ev.drop_last(), k);
        assert(!map_of(ev.drop_last()).contains_key(k));
        assert(map_of(ev.remove(i)) =~= map_of(ev).remove(k));
    } else {
        assert(keys_distinct(ev.drop_last()));
        assert(ev.remove(i).drop_last() == ev.drop_last().remove(i));
        lemma_map_of_remove(ev.drop_last(), i);
        assert(ev.remove(i).last() == ev.last());
        assert(ev.last().0 != k);
        assert(map_of(ev.remove(i)) =~= map_of(ev).remove(k));
    }
}

proof fn lemma_values_bytes_nonneg(ev: Seq<(Seq<char>, Seq<char>)>)
    ensures
        values_bytes(ev) >= 0,
    decreases ev.len(),
{
    if ev.len() > 0 {
        lemma_values_bytes_nonneg(ev.drop_last());
    }
}

proof fn lemma_values_bytes_remove(ev: Seq<(Seq<char>, Seq<char>)>, i: int)
    requires
        0 <= i < ev.len(),
    ensures
        values_bytes(ev.remove(i)) == values_bytes(ev) - byte_len(ev[i].1),
    decreases ev.len(),
{
    if i == ev.len() - 1 {
        assert(ev.remove(i) == ev.drop_last());
    } else {
        assert(ev.remove(i).drop_last() == ev.drop_last().remove(i));
        assert(ev.remove(i).last() == ev.last());
        assert(ev.drop_last()[i] == ev[i]);
        lemma_values_bytes_remove(ev.drop_last(), i);
    }
}

/// A map from text keys to text values, kept as a list of entries in
/// which no key occurs twice.
pub struct TextMap {
    entries: Vec<(String, String)>,
}

impl TextMap {
    /// The entries, in the order they were first added.
    pub closed spec fn entries(&self) -> Seq<(Seq<char>, Seq<char>)> {
        entries_view(self.entries@)
    }

    /// The map of keys to values.
    pub open spec fn view(&self) -> Map<Seq<char>, Seq<char>> {
        map_of(self.entries())
    }

    /// Total UTF-8 length of the values.
    pub open spec fn total_bytes(&self) -> int {
        values_bytes(self.entries())
    }

    /// No key occurs twice.
    pub open spec fn wf(&self) -> bool {
        keys_distinct(self.entries())
    }

    /// The empty map.
    pub fn new() -> (r: Self)
        ensures
            r.wf(),
            r.view() == Map::<Seq<char>, Seq<char>>::empty(),
            r.entries().len() == 0,
    {
        let r = TextMap { entries: Vec::new() };
        assert(r.entries() =~= Seq::empty());
        r
    }

    /// A map with the same entries.
    pub fn copy(&self) -> (r: Self)
        requires
            self.wf(),
        ensures
            r.wf(),
            r.entries() == self.entries(),
    {
        TextMap { entries: self.entries_vec() }
    }

    /// A copy of the entries.
    pub fn entries_vec(&self) -> (r: Vec<(String, String)>)
        ensures
            entries_view(r@) == self.entries(),
    {
        let mut out: Vec<(String, String)> = Vec::new();
        let mut i: usize = 0;
        while i < self.entries.len()
            invariant
                i <= self.entries@.len(),
                entries_view(out@) == self.entries().subrange(0, i as int),
            decreases self.entries@.len() - i,
        {
            let k = self.entries[i].0.clone();
            let v = self.entries[i].1.clone();
            let ghost before = entries_view(out@);
            out.push((k, v));
            assert(entries_view(out@) =~= before.push((k@, v@)));
            assert(self.entries().subrange(0, i + 1) =~= self.entries().subrange(0, i as int).push(
                self.entries()[i as int],
            ));
            i = i + 1;
        }
        assert(self.entries().subrange(0, self.entries@.len() as int) =~= self.entries());
        out
    }

    /// The number of keys.
    pub fn len(&self) -> (n: usize)
        requires
            self.wf(),
        ensures
            n == self.entries().len(),
            n == self.view().dom().len(),
    {
        proof {
            self.lemma_len();
        }
        self.entries.len()
    }

    /// The number of keys is the number of entries.
    pub proof fn lemma_len(&self)
        requires
            self.wf(),
        ensures
            self.view().dom().len() == self.entries().len(),
            self.view().dom().finite(),
    {
        lemma_map_len(self.entries());
    }

    /// Position of `key` among the entries.
    pub fn find(&self, key: &str) -> (r: Option<usize>)
        requires
            self.wf(),
        ensures
            match r {
                Some(i) => i < self.entries().len() && self.entries()[i as int].0 == key@
                    && self.view().contains_key(key@) && self.view()[key@] == self.entries()[i as int].1,
                None => !self.view().contains_key(key@),
            },
    {
        let k: String = key.to_owned();
        let mut i: usize = 0;
        while i < self.entries.len()
            invariant
                self.wf(),
                i <= self.entries@.len(),
                k@ == key@,
                forall|j: int| 0 <= j < i ==> self.entries()[j].0 != key@,
            decreases self.entries@.len() - i,
        {
            if self.entries[i].0 == k {
                proof {
                    lemma_map_of_value(self.entries(), i as int);
                }
                return Some(i);
            }
            i = i + 1;
        }
        proof {
            lemma_map_of_domain(self.entries(), key@);
        }
        None
    }

    /// The value of `key`.
    pub fn get(&self, key: &str) -> (r: Option<&String>)
        requires
            self.wf(),
        ensures
            match r {
                Some(v) => self.view().contains_key(key@) && self.view()[key@] == v@,
                None => !self.view().contains_key(key@),
            },
    {
        match self.find(key) {
            Some(i) => Some(&self.entries[i].1),
            None => None,
        }
    }

    /// Whether `key` has a value.
    pub fn contains_key(&self, key: &str) -> (b: bool)
        requires
            self.wf(),
        ensures
            b == self.view().contains_key(key@),
    {
        self.find(key).is_some()
    }

    /// Total UTF-8 length of the values, saturating at `usize::MAX`.
    pub fn total_value_bytes(&self) -> (t: usize)
        ensures
            t == (if self.total_bytes() <= usize::MAX {
                self.total_bytes()
            } else {
                usize::MAX as int
            }),
    {
        let mut t: usize = 0;
        let mut i: usize = 0;
        let mut saturated = false;
        while i < self.entries.len()
            invariant
                i <= self.entries@.len(),
                !saturated ==> t == values_bytes(self.entries().subrange(0, i as int)),
                saturated ==> t == usize::MAX && values_bytes(self.entries().subrange(0, i as int))
                    > usize::MAX,
            decreases self.entries@.len() - i,
        {
            let vs = self.entries[i].1.as_str();
            let l = vs.len();
            assert(self.entries()[i as int].1 == self.entries@[i as int].1@);
            assert(vs@ == self.entries@[i as int].1@);
            assert(l == byte_len(self.entries()[i as int].1));
            assert(self.entries().subrange(0, i + 1).drop_last() == self.entries().subrange(
                0,
                i as int,
            ));
            assert(self.entries().subrange(0, i + 1).last().1 == self.entries@[i as int].1@);
            if saturated || l > usize::MAX - t {
                proof {
                    lemma_values_bytes_nonneg(self.entries().subrange(0, i as int));
                }
                saturated = true;
                t = usize::MAX;
            } else {
                t = t + l;
            }
            i = i + 1;
        }
        assert(self.entries().subrange(0, self.entries@.len() as int) == self.entries());
        t
    }

    /// Sets `key` to `value`: an existing key keeps its place, a new key goes
    /// last.
    pub fn insert(&mut self, key: String, value: String)
        requires
            old(self).wf(),
        ensures
            final(self).wf(),
            final(self).view() == old(self).view().insert(key@, value@),
            old(self).view().contains_key(key@) ==> final(self).entries().len() == old(
                self,
            ).entries().len(),
            !old(self).view().contains_key(key@) ==> final(self).entries().len() == old(
                self,
            ).entries().len() + 1,
            final(self).total_bytes() == old(self).total_bytes() - (if old(self).view().contains_key(
                key@,
            ) {
                byte_len(old(self).view()[key@])
            } else {
                0
            }) + byte_len(value@),
            final(self).entries() == entries_insert(old(self).entries(), key@, value@),
    {
        match self.find(key.as_str()) {
            Some(i) => {
                let ghost ev = self.entries();
                proof {
                    lemma_map_of_update(ev, i as int, value@);
                    lemma_values_bytes_update(ev, i as int, value@);
                    let j = choose|j: int| 0 <= j < ev.len() && ev[j].0 == key@;
                    assert(j == i as int) by {
                        if j != i as int {
                            assert(keys_distinct(ev));
                        }
                    }
                }
                let k = self.entries[i].0.clone();
                self.entries.set(i, (k, value));
                assert(self.entries() =~= ev.update(i as int, (ev[i as int].0, value@)));
            },
            None => {
                let ghost ev = self.entries();
                proof {
                    lemma_map_of_domain(ev, key@);
                }
                self.entries.push((key, value));
                assert(self.entries() =~= ev.push((key@, value@)));
                assert(self.entries().drop_last() == ev);
                assert(!exists|i: int| 0 <= i < ev.len() && ev[i].0 == key@);
            },
        }
    }

    /// Whether setting `key` to a value of `value_bytes` bytes stays within
    /// the limits: the key exists or there are fewer than `max_keys` keys,
    /// the value has at most `max_value` bytes, and all values together,
    /// this one added, at most `max_total`.
    pub open spec fn within_limits(
        &self,
        key: Seq<char>,
        value_bytes: int,
        max_keys: int,
        max_value: int,
        max_total: int,
    ) -> bool {
        limits_ok(self.entries(), key, value_bytes, max_keys, max_value, max_total)
    }

    /// Sets `key` to `value` when that stays within the limits (see
    /// `within_limits`); says whether it did.
    pub fn insert_limited(
        &mut self,
        key: String,
        value: String,
        max_keys: usize,
        max_value: usize,
        max_total: usize,
    ) -> (b: bool)
        requires
            old(self).wf(),
            max_total < usize::MAX,
        ensures
            final(self).wf(),
            b == old(self).within_limits(
                key@,
                byte_len(value@),
                max_keys as int,
                max_value as int,
                max_total as int,
            ),
            b ==> final(self).view() == old(self).view().insert(key@, value@),
            b ==> final(self).entries() == entries_insert(old(self).entries(), key@, value@),
            b ==> final(self).total_bytes() <= max_total,
            b ==> (final(self).entries().len() <= old(self).entries().len()
                || final(self).entries().len() <= max_keys),
            !b ==> final(self).view() == old(self).view(),
            !b ==> final(self).entries() == old(self).entries(),
    {
        let vlen = value.as_str().len();
        assert(vlen == byte_len(value@));
        assert(self.entries@.len() == self.entries().len());
        if self.entries.len() >= max_keys && !self.contains_key(key.as_str()) {
            return false;
        }
        if vlen > max_value {
            return false;
        }
        let total = self.total_value_bytes();
        if vlen > max_total || total > max_total - vlen {
            return false;
        }
        self.insert(key, value);
        true
    }

    /// Removes `key`; says whether it was there.
    pub fn remove(&mut self, key: &str) -> (b: bool)
        requires
            old(self).wf(),
        ensures
            final(self).wf(),
            b == old(self).view().contains_key(key@),
            final(self).view() == old(self).view().remove(key@),
            final(self).entries().len() <= old(self).entries().len(),
            final(self).total_bytes() <= old(self).total_bytes(),
    {
        match self.find(key) {
            Some(i) => {
                let ghost ev = self.entries();
                proof {
                    lemma_map_of_remove(ev, i as int);
                    lemma_values_bytes_remove(ev, i as int);
                }
                self.entries.remove(i);
                assert(self.entries() =~= ev.remove(i as int));
                true
            },
            None => {
                assert(old(self).view().remove(key@) =~= old(self).view());
                false
            },
        }
    }

    /// Whether some key starts with `prefix`.
    pub fn has_prefix(&self, prefix: &str) -> (b: bool)
        requires
            self.wf(),
        ensures
            b == exists|k: Seq<char>| self.view().contains_key(k) && starts_with(k, prefix@),
    {
        let p = chars_of(prefix);
        let mut i: usize = 0;
        while i < self.entries.len()
            invariant
                i <= self.entries@.len(),
                p@ == prefix@,
                forall|j: int| 0 <= j < i ==> !starts_with(#[trigger] self.entries()[j].0, prefix@),
            decreases self.entries@.len() - i,
        {
            let k = chars_of(self.entries[i].0.as_str());
            if seq_starts_with(&k, &p) {
                proof {
                    assert(self.entries()[i as int].0 == k@);
                    lemma_map_of_domain(self.entries(), k@);
                    assert(self.view().contains_key(k@) && starts_with(k@, prefix@));
                }
                return true;
            }
            i = i + 1;
        }
        proof {
            assert forall|k: Seq<char>| self.view().contains_key(k) implies !starts_with(
                k,
                prefix@,
            ) by {
                lemma_map_of_domain(self.entries(), k);
            }
        }
        false
    }

    /// Removes every key that starts with `prefix`; says whether any was
    /// there.
    pub fn remove_by_prefix(&mut self, prefix: &str) -> (b: bool)
        requires
            old(self).wf(),
        ensures
            final(self).wf(),
            b == exists|k: Seq<char>| old(self).view().contains_key(k) && starts_with(k, prefix@),
            final(self).view() == old(self).view().restrict(
                old(self).view().dom().filter(|k: Seq<char>| !starts_with(k, prefix@)),
            ),
            final(self).entries().len() <= old(self).entries().len(),
            final(self).total_bytes() <= old(self).total_bytes(),
    {
        let p = chars_of(prefix);
        let ghost m0 = self.view();
        let mut removed = false;
        let mut i: usize = 0;
        while i < self.entries.len()
            invariant
                self.wf(),
                i <= self.entries@.len(),
                p@ == prefix@,
                self.entries().len() <= old(self).entries().len(),
                self.total_bytes() <= old(self).total_bytes(),
                forall|j: int| 0 <= j < i ==> !starts_with(#[trigger] self.entries()[j].0, prefix@),
                forall|k: Seq<char>| #[trigger]
                    self.view().contains_key(k) ==> m0.contains_key(k) && self.view()[k] == m0[k],
                forall|k: Seq<char>|
                    m0.contains_key(k) && !starts_with(k, prefix@) ==> #[trigger] self.view().contains_key(k),
                removed == exists|k: Seq<char>|
                    m0.contains_key(k) && starts_with(k, prefix@) && !#[trigger] self.view().contains_key(k),
            decreases self.entries@.len() - i,
        {
            let k = chars_of(self.entries[i].0.as_str());
            if seq_starts_with(&k, &p) {
                let ghost ev = self.entries();
                let ghost m = self.view();
                proof {
                    assert(ev[i as int].0 == k@);
                    lemma_map_of_remove(ev, i as int);
                    lemma_map_of_value(ev, i as int);
                    lemma_values_bytes_remove(ev, i as int);
                }
                self.entries.remove(i);
                assert(self.entries() =~= ev.remove(i as int));
                assert(self.view() == m.remove(k@));
                assert(m0.contains_key(k@) && starts_with(k@, prefix@) && !self.view().contains_key(k@));
                removed = true;
                assert forall|j: int| 0 <= j < i implies !starts_with(
                    #[trigger] self.entries()[j].0,
                    prefix@,
                ) by {
                    assert(self.entries()[j] == ev[j]);
                }
            } else {
                i = i + 1;
            }
        }
        proof {
            assert forall|kk: Seq<char>| self.view().contains_key(kk) implies !starts_with(
                kk,
                prefix@,
            ) by {
                lemma_map_of_domain(self.entries(), kk);
            }
            assert(self.view() =~= m0.restrict(
                m0.dom().filter(|k: Seq<char>| !starts_with(k, prefix@)),
            ));
        }
        removed
    }
}

/// Whether `v` begins with `p`.
pub fn seq_starts_with(v: &[char], p: &[char]) -> (b: bool)
    ensures
        b == starts_with(v@, p@),
{
    if p.len() > v.len() {
        return false;
    }
    let mut i: usize = 0;
    while i < p.len()
        invariant
            p@.len() <= v@.len(),
            i <= p@.len(),
            v@.subrange(0, i as int) == p@.subrange(0, i as int),
        decreases p@.len() - i,
    {
        if v[i] != p[i] {
            assert(v@.subrange(0, p@.len() as int)[i as int] == v@[i as int]);
            return false;
        }
        assert(v@.subrange(0, i + 1) == v@.subrange(0, i as int).push(v@[i as int]));
        assert(p@.subrange(0, i + 1) == p@.subrange(0, i as int).push(p@[i as int]));
        i = i + 1;
    }
    assert(p@.subrange(0, p@.len() as int) == p@);
    true
}

proof fn lemma_values_bytes_update(ev: Seq<(Seq<char>, Seq<char>)>, i: int, v: Seq<char>)
    requires
        keys_distinct(ev),
        0 <= i < ev.len(),
    ensures
        values_bytes(ev.update(i, (ev[i].0, v))) == values_bytes(ev) - byte_len(ev[i].1)
            + byte_len(v),
        map_of(ev)[ev[i].0] == ev[i].1,
    decreases ev.len(),
{
    lemma_map_of_value(ev, i);
    let ev2 = ev.update(i, (ev[i].0, v));
    if i == ev.len() - 1 {
        assert(ev2.drop_last() == ev.drop_last());
    } else {
        assert(keys_distinct(ev.drop_last()));
        assert(ev2.drop_last() == ev.drop_last().update(i, (ev[i].0, v)));
        lemma_values_bytes_update(ev.drop_last(), i, v);
    }
}

proof fn lemma_map_len(ev: Seq<(Seq<char>, Seq<char>)>)
    requires
        keys_distinct(ev),
    ensures
        map_of(ev).dom().finite(),
        map_of(ev).dom().len() == ev.len(),
    decreases ev.len(),
{
    if ev.len() > 0 {
        assert(keys_distinct(ev.drop_last()));
        lemma_map_len(ev.drop_last());
        lemma_map_of_domain(ev.drop_last(), ev.last().0);
        if map_of(ev.drop_last()).contains_key(ev.last().0) {
            let i = choose|i: int| 0 <= i < ev.drop_last().len() && ev.drop_last()[i].0 == ev.last().0;
            assert(ev[i].0 == ev[ev.len() - 1].0);
        }
    }
}

} // verus!
