//! Persistent key-value storage: the in-memory map with its size limits,
//! the file text it is loaded from and written as, and when to write it.
use vstd::prelude::*;
use crate::kv::TextMap;
use crate::kv::byte_len;
use crate::kv::entries_view;
use crate::kv::map_of;
use crate::json::JsonValue;
use crate::json::json_object_entries;
use crate::json::json_pretty_object;
use crate::json::parse_json_object;
use crate::json::pretty_json_object;
use crate::json::json_is_normal;
use crate::json::values_normal;
use crate::json::shallow_values;
use crate::json::shallow_entries;
use crate::json::json_quoted;
use crate::json::json_string_content;
use crate::kv::lemma_map_of_values;
use crate::text::starts_with;
use crate::text::chars_of;
use crate::text::starts_with_lit;
use crate::text::string_from_chars;
use crate::text::copy_range;

verus! {

/// At most this many keys.
pub const MAX_KEYS: usize = 10_000;

/// At most this many bytes of JSON text per value.
pub const MAX_VALUE_SIZE: usize = 1_048_576;

/// At most this many bytes of JSON text for all values together.
pub const MAX_TOTAL_SIZE: usize = 52_428_800;

/// Writes are held back until this many milliseconds have passed since the
/// last one.
pub const DEBOUNCE_MILLIS: u64 = 1000;

/// Key-value storage backed by a JSON file.
pub struct Storage {
    path: String,
    data: TextMap,
    dirty: bool,
}

/// The map that file text loads as: its members when it is a JSON object,
/// else nothing.
pub open spec fn loaded_map(contents: Option<Seq<char>>) -> Map<Seq<char>, Seq<char>> {
    match contents {
        Some(t) => match json_object_entries(t) {
            Some(ev) => map_of(ev),
            None => Map::empty(),
        },
        None => Map::empty(),
    }
}

impl Storage {
    #[verifier::type_invariant]
    spec fn inv(self) -> bool {
        self.data.wf() && values_normal(self.data.view())
    }

    /// The stored values (as JSON text) by key.
    pub closed spec fn view(&self) -> Map<Seq<char>, Seq<char>> {
        self.data.view()
    }

    /// The entries, in the order in which they were first added.
    pub closed spec fn entries_seq(&self) -> Seq<(Seq<char>, Seq<char>)> {
        self.data.entries()
    }

    /// The store is within its size limits: at most `MAX_KEYS` keys and
    /// `MAX_TOTAL_SIZE` bytes of values.
    pub closed spec fn within_size_limits(&self) -> bool {
        self.data.entries().len() <= MAX_KEYS && self.data.total_bytes() <= MAX_TOTAL_SIZE
    }

    /// Whether there are changes not yet written.
    pub closed spec fn dirty(&self) -> bool {
        self.dirty
    }

    /// The file path.
    pub closed spec fn path_view(&self) -> Seq<char> {
        self.path@
    }

    /// Whether setting `key` to a value of `value_bytes` bytes of JSON text
    /// is accepted: there is room for the key, the value is at most
    /// `MAX_VALUE_SIZE` bytes, and all values together stay within
    /// `MAX_TOTAL_SIZE`.
    pub closed spec fn accepts(&self, key: Seq<char>, value_bytes: int) -> bool {
        self.data.within_limits(
            key,
            value_bytes,
            MAX_KEYS as int,
            MAX_VALUE_SIZE as int,
            MAX_TOTAL_SIZE as int,
        )
    }

    /// A store for the file at `path`, loaded from `contents`, the file's
    /// text (`None` when there is no file). Text that is not a JSON object
    /// loads as an empty store.
    pub fn new(path: &str, contents: Option<&str>) -> (s: Storage)
        ensures
            s.view() == loaded_map(
                match contents {
                    Some(t) => Some(t@),
                    None => None,
                },
            ),
            !s.dirty(),
            s.path_view() == path@,
    {
        let mut data = TextMap::new();
        assert(data.view() =~= Map::<Seq<char>, Seq<char>>::empty());
        match contents {
            Some(t) => match parse_json_object(t) {
                Some(entries) => {
                    let ghost ev = entries_view(entries@);
                    let mut i: usize = 0;
                    while i < entries.len()
                        invariant
                            data.wf(),
                            ev == entries_view(entries@),
                            crate::kv::keys_distinct(ev),
                            i <= entries@.len(),
                            data.view() == map_of(ev.subrange(0, i as int)),
                        decreases entries@.len() - i,
                    {
                        let k = entries[i].0.clone();
                        let v = entries[i].1.clone();
                        data.insert(k, v);
                        assert(ev.subrange(0, i + 1).drop_last() == ev.subrange(0, i as int));
                        i = i + 1;
                    }
                    assert(ev.subrange(0, ev.len() as int) == ev);
                    assert forall|k: Seq<char>| data.view().contains_key(k) implies json_is_normal(
                        #[trigger] data.view()[k],
                    ) by {
                        lemma_map_of_values(ev, k);
                        let i = choose|i: int|
                            0 <= i < ev.len() && ev[i].0 == k && ev[i].1 == map_of(ev)[k];
                        assert(ev[i].1 == entries@[i].1@);
                    }
                },
                None => {},
            },
            None => {},
        }
        Storage { path: path.to_owned(), data, dirty: false }
    }

    /// The value of `key`.
    pub fn get(&self, key: &str) -> (r: Option<JsonValue>)
        ensures
            match r {
                Some(v) => self.view().contains_key(key@) && self.view()[key@] == v.view(),
                None => !self.view().contains_key(key@),
            },
    {
        proof {
            use_type_invariant(self);
        }
        match self.data.get(key) {
            Some(t) => Some(JsonValue::from_normal_text(t.clone())),
            None => None,
        }
    }

    /// Sets `key` to `value` when the limits allow it (see `accepts`);
    /// otherwise nothing changes.
    pub fn set(&mut self, key: String, value: JsonValue)
        ensures
            old(self).accepts(key@, byte_len(value.view())) ==> final(self).view() == old(
                self,
            ).view().insert(key@, value.view()) && final(self).dirty(),
            !old(self).accepts(key@, byte_len(value.view())) ==> final(self).view() == old(
                self,
            ).view() && final(self).dirty() == old(self).dirty(),
            final(self).path_view() == old(self).path_view(),
            old(self).within_size_limits() ==> final(self).within_size_limits(),
    {
        proof {
            use_type_invariant(&*self);
        }
        let text = value.into_text();
        let mut data = TextMap::new();
        std::mem::swap(&mut data, &mut self.data);
        let changed = data.insert_limited(key, text, MAX_KEYS, MAX_VALUE_SIZE, MAX_TOTAL_SIZE);
        self.data = data;
        if changed {
            self.dirty = true;
        }
    }

    /// Removes `key`.
    pub fn remove(&mut self, key: &str)
        ensures
            final(self).view() == old(self).view().remove(key@),
            final(self).dirty() == (old(self).dirty() || old(self).view().contains_key(key@)),
            final(self).path_view() == old(self).path_view(),
            old(self).within_size_limits() ==> final(self).within_size_limits(),
    {
        proof {
            use_type_invariant(&*self);
        }
        let mut data = TextMap::new();
        std::mem::swap(&mut data, &mut self.data);
        let changed = data.remove(key);
        self.data = data;
        if changed {
            self.dirty = true;
        }
    }

    /// Removes every key that starts with `prefix`.
    pub fn remove_by_prefix(&mut self, prefix: &str)
        ensures
            final(self).view() == old(self).view().restrict(
                old(self).view().dom().filter(|k: Seq<char>| !starts_with(k, prefix@)),
            ),
            final(self).dirty() == (old(self).dirty() || exists|k: Seq<char>|
                old(self).view().contains_key(k) && starts_with(k, prefix@)),
            final(self).path_view() == old(self).path_view(),
            old(self).within_size_limits() ==> final(self).within_size_limits(),
    {
        proof {
            use_type_invariant(&*self);
        }
        let mut data = TextMap::new();
        std::mem::swap(&mut data, &mut self.data);
        let changed = data.remove_by_prefix(prefix);
        self.data = data;
        if changed {
            self.dirty = true;
        }
    }

    /// Whether some key starts with `prefix`.
    pub fn has_prefix(&self, prefix: &str) -> (b: bool)
        ensures
            b == exists|k: Seq<char>| self.view().contains_key(k) && starts_with(k, prefix@),
    {
        proof {
            use_type_invariant(self);
        }
        self.data.has_prefix(prefix)
    }

    /// The number of keys.
    pub fn len(&self) -> (n: usize)
        ensures
            n == self.view().dom().len(),
    {
        proof {
            use_type_invariant(self);
        }
        self.data.len()
    }

    /// Whether there are changes not yet written.
    pub fn is_dirty(&self) -> (b: bool)
        ensures
            b == self.dirty(),
    {
        self.dirty
    }

    /// The file path.
    pub fn path(&self) -> (p: &str)
        ensures
            p@ == self.path_view(),
    {
        self.path.as_str()
    }

    /// Whether a write is due now, `elapsed_millis` after the last one:
    /// when there are unwritten changes and the debounce time has passed.
    pub fn flush_due(&self, elapsed_millis: u64) -> (b: bool)
        ensures
            b == (self.dirty() && elapsed_millis >= DEBOUNCE_MILLIS),
    {
        self.dirty && elapsed_millis >= DEBOUNCE_MILLIS
    }

    /// The text to write to the file: the stored object pretty-printed, or
    /// `None` when there is nothing unwritten. When no value nests too deep
    /// for the file to be read again (see `shallow_value`), the file text
    /// loads as the stored map.
    pub fn flush_text(&self) -> (r: Option<String>)
        ensures
            match r {
                Some(t) => self.dirty() && t@ == json_pretty_object(self.entries_seq()) && (
                shallow_values(self.view()) ==> loaded_map(Some(t@)) == self.view()),
                None => !self.dirty(),
            },
    {
        proof {
            use_type_invariant(self);
        }
        if !self.dirty {
            return None;
        }
        let entries = self.data.entries_vec();
        proof {
            let ev = self.data.entries();
            if shallow_values(self.view()) {
                assert forall|i: int| 0 <= i < ev.len() implies crate::json::shallow_value(
                    #[trigger] ev[i].1,
                ) by {
                    crate::kv::lemma_map_of_value(ev, i);
                }
                assert(shallow_entries(ev));
            }
        }
        Some(pretty_json_object(&entries))
    }

    /// Records that the stored object has been written.
    pub fn mark_flushed(&mut self)
        ensures
            final(self).view() == old(self).view(),
            !final(self).dirty(),
            final(self).path_view() == old(self).path_view(),
    {
        proof {
            use_type_invariant(&*self);
        }
        self.dirty = false;
    }

    /// The stored keys with their values, in the order in which they were
    /// first added.
    pub fn entries(&self) -> (r: Vec<(String, JsonValue)>)
        ensures
            r@.len() == self.entries_seq().len(),
            forall|i: int|
                0 <= i < r@.len() ==> (#[trigger] r@[i]).0@ == self.entries_seq()[i].0 && r@[i].1.view()
                    == self.entries_seq()[i].1,
    {
        proof {
            use_type_invariant(self);
        }
        let all = self.data.entries_vec();
        let ghost ev = entries_view(all@);
        let mut out: Vec<(String, JsonValue)> = Vec::new();
        let mut i: usize = 0;
        while i < all.len()
            invariant
                i <= all@.len(),
                ev == entries_view(all@),
                ev == self.entries_seq(),
                self.data.wf(),
                values_normal(self.data.view()),
                self.data.view() == map_of(self.entries_seq()),
                out@.len() == i,
                forall|j: int|
                    0 <= j < i ==> (#[trigger] out@[j]).0@ == ev[j].0 && out@[j].1.view() == ev[j].1,
            decreases all@.len() - i,
        {
            proof {
                crate::kv::lemma_map_of_value(ev, i as int);
                assert(ev[i as int] == (all@[i as int].0@, all@[i as int].1@));
            }
            let k = all[i].0.clone();
            let v = JsonValue::from_normal_text(all[i].1.clone());
            out.push((k, v));
            i = i + 1;
        }
        out
    }
}

/// A change to the store.
#[derive(Debug, PartialEq, Eq)]
pub enum StoreOp {
    /// Remove every key that starts with this prefix.
    RemovePrefix(String),
    /// Set this key to this value.
    Insert(String, JsonValue),
    /// Remove this key.
    Remove(String),
}

/// A store change as plain values: its kind (0 remove by prefix, 1 set,
/// 2 remove), its key or prefix, and the value's JSON text for a set.
pub open spec fn op_view(op: StoreOp) -> (int, Seq<char>, Seq<char>) {
    match op {
        StoreOp::RemovePrefix(p) => (0, p@, Seq::empty()),
        StoreOp::Insert(k, v) => (1, k@, v.view()),
        StoreOp::Remove(k) => (2, k@, Seq::empty()),
    }
}

impl Storage {
    /// Applies `op`, as `remove_by_prefix`, `set` or `remove` does.
    pub fn apply(&mut self, op: StoreOp)
        ensures
            match op {
                StoreOp::RemovePrefix(p) => final(self).view() == old(self).view().restrict(
                    old(self).view().dom().filter(|k: Seq<char>| !starts_with(k, p@)),
                ),
                StoreOp::Insert(k, v) => if old(self).accepts(k@, byte_len(v.view())) {
                    final(self).view() == old(self).view().insert(k@, v.view())
                } else {
                    final(self).view() == old(self).view()
                },
                StoreOp::Remove(k) => final(self).view() == old(self).view().remove(k@),
            },
            final(self).path_view() == old(self).path_view(),
            old(self).within_size_limits() ==> final(self).within_size_limits(),
    {
        match op {
            StoreOp::RemovePrefix(p) => self.remove_by_prefix(p.as_str()),
            StoreOp::Insert(k, v) => self.set(k, v),
            StoreOp::Remove(k) => self.remove(k.as_str()),
        }
    }
}

/// Whether the script's `localStorage` is written back into the store on
/// frame `frame_count`: once a second, that is every `fps` frames.
pub fn local_storage_sync_due(frame_count: u64, fps: u32) -> (b: bool)
    requires
        fps > 0,
    ensures
        b == (frame_count % (fps as u64) == 0),
{
    frame_count % (fps as u64) == 0
}

/// A change the script made to a `localStorage` key since the last sync:
/// `action` 1 for set (with the key's current value, when it could be
/// read), -1 for removed; other actions change nothing.
pub struct LocalChange {
    pub key: String,
    pub action: i32,
    pub value: Option<String>,
}

/// The store key of a `localStorage` key: the key behind the prefix `ls:`,
/// which keeps it apart from the runtime's own keys.
pub open spec fn local_key(k: Seq<char>) -> Seq<char> {
    "ls:"@ + k
}

/// The store changes one `localStorage` change makes: a set stores the value
/// as a JSON string, a removal removes the key.
pub open spec fn change_ops(c: LocalChange) -> Seq<(int, Seq<char>, Seq<char>)> {
    if c.action == 1 {
        match c.value {
            Some(v) => seq![(1, local_key(c.key@), json_quoted(v@))],
            None => Seq::empty(),
        }
    } else if c.action == -1 {
        seq![(2, local_key(c.key@), Seq::<char>::empty())]
    } else {
        Seq::empty()
    }
}

/// The store changes of a sequence of `localStorage` changes, in order.
pub open spec fn changes_ops(cs: Seq<LocalChange>) -> Seq<(int, Seq<char>, Seq<char>)>
    decreases cs.len(),
{
    if cs.len() == 0 {
        Seq::empty()
    } else {
        changes_ops(cs.drop_last()) + change_ops(cs.last())
    }
}

/// The store changes of a `localStorage` sync: when the script cleared its
/// storage, first every `ls:` key goes; then each change in order.
pub open spec fn local_sync_ops(clear: bool, cs: Seq<LocalChange>) -> Seq<(int, Seq<char>, Seq<char>)> {
    if clear {
        seq![(0int, "ls:"@, Seq::<char>::empty())] + changes_ops(cs)
    } else {
        changes_ops(cs)
    }
}

/// The store changes that write the script's `localStorage` back (see
/// `local_sync_ops`), or `None` when nothing was cleared or changed, so that
/// the store is left alone.
pub fn local_storage_ops(clear: bool, changes: &Vec<LocalChange>) -> (r: Option<Vec<StoreOp>>)
    ensures
        r is None <==> (!clear && changes@.len() == 0),
        r matches Some(ops) ==> ops@.map_values(|o: StoreOp| op_view(o)) == local_sync_ops(
            clear,
            changes@,
        ),
{
    if !clear && changes.len() == 0 {
        return None;
    }
    let mut ops: Vec<StoreOp> = Vec::new();
    if clear {
        ops.push(StoreOp::RemovePrefix("ls:".to_owned()));
    }
    let ghost head: Seq<(int, Seq<char>, Seq<char>)> = if clear {
        seq![(0int, "ls:"@, Seq::<char>::empty())]
    } else {
        Seq::empty()
    };
    assert(ops@.map_values(|o: StoreOp| op_view(o)) =~= head + changes_ops(changes@.take(0)));
    let mut i: usize = 0;
    while i < changes.len()
        invariant
            i <= changes@.len(),
            ops@.map_values(|o: StoreOp| op_view(o)) == head + changes_ops(changes@.take(i as int)),
        decreases changes@.len() - i,
    {
        let c = &changes[i];
        let ghost before = ops@;
        let mut key = "ls:".to_owned();
        key.append(c.key.as_str());
        if c.action == 1 {
            match &c.value {
                Some(v) => ops.push(StoreOp::Insert(key, JsonValue::string(v.as_str()))),
                None => {},
            }
        } else if c.action == -1 {
            ops.push(StoreOp::Remove(key));
        }
        proof {
            let t = changes@.take(i + 1);
            assert(t.drop_last() =~= changes@.take(i as int));
            assert(t.last() == changes@[i as int]);
            assert(ops@.map_values(|o: StoreOp| op_view(o)) =~= before.map_values(
                |o: StoreOp| op_view(o),
            ) + change_ops(changes@[i as int]));
        }
        i = i + 1;
    }
    assert(changes@.take(changes@.len() as int) =~= changes@);
    Some(ops)
}

/// What a script starts with, restored from the store.
#[derive(Debug, PartialEq, Eq)]
pub enum Restore {
    /// A `localStorage` key and its text.
    Local(String, String),
    /// A `dazzle.storage` key and its value.
    Dazzle(String, JsonValue),
}

/// The model of a restored item.
pub enum RestoreV {
    Local(Seq<char>, Seq<char>),
    Dazzle(Seq<char>, Seq<char>),
}

/// The model of restored items.
pub open spec fn restore_view(r: Seq<Restore>) -> Seq<RestoreV> {
    r.map_values(
        |x: Restore|
            match x {
                Restore::Local(k, v) => RestoreV::Local(k@, v@),
                Restore::Dazzle(k, v) => RestoreV::Dazzle(k@, v.view()),
            },
    )
}

/// Some key of the map carries the prefix `ls:` or `dz:`.
pub open spec fn has_prefixed(m: Map<Seq<char>, Seq<char>>) -> bool {
    exists|k: Seq<char>| m.contains_key(k) && (starts_with(k, "ls:"@) || starts_with(k, "dz:"@))
}

/// What one entry restores: a `dz:` key goes to `dazzle.storage`; an `ls:`
/// key goes to `localStorage` when its value is a JSON string; a key
/// without prefix, kept from the older layout, is taken only when no key
/// has a prefix: a string goes to `localStorage`, any other value to
/// `dazzle.storage`.
pub open spec fn restore_entry(k: Seq<char>, v: Seq<char>, prefixed: bool) -> Seq<RestoreV> {
    if starts_with(k, "dz:"@) {
        seq![RestoreV::Dazzle(k.subrange(3, k.len() as int), v)]
    } else if starts_with(k, "ls:"@) {
        match json_string_content(v) {
            Some(c) => seq![RestoreV::Local(k.subrange(3, k.len() as int), c)],
            None => Seq::empty(),
        }
    } else if !prefixed {
        match json_string_content(v) {
            Some(c) => seq![RestoreV::Local(k, c)],
            None => seq![RestoreV::Dazzle(k, v)],
        }
    } else {
        Seq::empty()
    }
}

/// What the entries restore, in entry order (see `restore_entry`).
pub open spec fn restore_of(ev: Seq<(Seq<char>, Seq<char>)>, prefixed: bool) -> Seq<RestoreV>
    decreases ev.len(),
{
    if ev.len() == 0 {
        Seq::empty()
    } else {
        restore_of(ev.drop_last(), prefixed) + restore_entry(ev.last().0, ev.last().1, prefixed)
    }
}

/// What a script starts with, restored from the store (see `restore_of`).
pub fn restore_plan(store: &Storage) -> (r: Vec<Restore>)
    ensures
        restore_view(r@) == restore_of(store.entries_seq(), has_prefixed(store.view())),
{
    let prefixed = store.has_prefix("ls:") || store.has_prefix("dz:");
    assert(prefixed == has_prefixed(store.view()));
    let entries = store.entries();
    let ghost ev = store.entries_seq();
    let mut out: Vec<Restore> = Vec::new();
    let mut i: usize = 0;
    assert(restore_view(out@) =~= restore_of(ev.take(0), prefixed));
    while i < entries.len()
        invariant
            i <= entries@.len(),
            entries@.len() == ev.len(),
            ev == store.entries_seq(),
            forall|j: int|
                0 <= j < entries@.len() ==> (#[trigger] entries@[j]).0@ == ev[j].0 && entries@[j].1.view()
                    == ev[j].1,
            restore_view(out@) == restore_of(ev.take(i as int), prefixed),
        decreases entries@.len() - i,
    {
        let key = &entries[i].0;
        let value = &entries[i].1;
        let k = chars_of(key.as_str());
        let n = k.len();
        let ghost before = restore_view(out@);
        proof {
            reveal_strlit("dz:");
            reveal_strlit("ls:");
        }
        if starts_with_lit(&k, "dz:") {
            out.push(Restore::Dazzle(string_from_chars(&copy_range(&k, 3, n)), value.clone()));
        } else if starts_with_lit(&k, "ls:") {
            match value.as_string() {
                Some(c) => out.push(Restore::Local(string_from_chars(&copy_range(&k, 3, n)), c)),
                None => {},
            }
        } else if !prefixed {
            match value.as_string() {
                Some(c) => out.push(Restore::Local(key.clone(), c)),
                None => out.push(Restore::Dazzle(key.clone(), value.clone())),
            }
        }
        proof {
            let t = ev.take(i + 1);
            assert(t.drop_last() =~= ev.take(i as int));
            assert(t.last() == ev[i as int]);
            assert(restore_view(out@) =~= before + restore_entry(ev[i as int].0, ev[i as int].1, prefixed));
        }
        i = i + 1;
    }
    assert(ev.take(ev.len() as int) =~= ev);
    out
}

/// The line of script that restores one item: a `dazzle.storage` item sets
/// its key, written as a JSON string, to its value; a `localStorage` item
/// sets its key to its text, both written as JSON strings.
pub open spec fn restore_line(x: RestoreV) -> Seq<char> {
    match x {
        RestoreV::Dazzle(k, v) => "dazzle.storage._data["@ + json_quoted(k) + "] = "@ + v + ";\n"@,
        RestoreV::Local(k, c) => "globalThis.__dz_localstorage_data["@ + json_quoted(k) + "] = "@
            + json_quoted(c) + ";\n"@,
    }
}

/// The lines that restore the items of one kind (`local` for
/// `localStorage`, else `dazzle.storage`), in order.
pub open spec fn restore_lines(r: Seq<RestoreV>, local: bool) -> Seq<char>
    decreases r.len(),
{
    if r.len() == 0 {
        Seq::empty()
    } else {
        restore_lines(r.drop_last(), local) + if (r.last() is Local) == local {
            restore_line(r.last())
        } else {
            Seq::empty()
        }
    }
}

/// The script that defines `dazzle.storage`.
pub open spec fn storage_prelude() -> Seq<char> {
    "globalThis.dazzle = globalThis.dazzle || {};\nglobalThis.dazzle.storage = {\n_data: {},\nget: function(key) { return this._data[key]; },\nset: function(key, value) { this._data[key] = value; },\n};\n"@
}

/// The two scripts that restore `plan`: the first defines `dazzle.storage`
/// and fills it, the second fills `localStorage` (empty when there is
/// nothing to fill).
pub fn restore_scripts(plan: &Vec<Restore>) -> (r: (String, String))
    ensures
        r.0@ == storage_prelude() + restore_lines(restore_view(plan@), false),
        r.1@ == restore_lines(restore_view(plan@), true),
{
    let mut dz = "globalThis.dazzle = globalThis.dazzle || {};\nglobalThis.dazzle.storage = {\n_data: {},\nget: function(key) { return this._data[key]; },\nset: function(key, value) { this._data[key] = value; },\n};\n".to_owned();
    let mut ls = String::new();
    let ghost rv = restore_view(plan@);
    let mut i: usize = 0;
    while i < plan.len()
        invariant
            i <= plan@.len(),
            rv == restore_view(plan@),
            rv.len() == plan@.len(),
            dz@ == storage_prelude() + restore_lines(rv.take(i as int), false),
            ls@ == restore_lines(rv.take(i as int), true),
        decreases plan@.len() - i,
    {
        proof {
            let t = rv.take(i + 1);
            assert(t.drop_last() =~= rv.take(i as int));
            assert(t.last() == rv[i as int]);
        }
        match &plan[i] {
            Restore::Dazzle(k, v) => {
                let q = JsonValue::string(k.as_str());
                let ghost before = dz@;
                dz.append("dazzle.storage._data[");
                dz.append(q.as_text());
                dz.append("] = ");
                dz.append(v.as_text());
                dz.append(";\n");
                assert(dz@ =~= before + restore_line(rv[i as int]));
            },
            Restore::Local(k, c) => {
                let q = JsonValue::string(k.as_str());
                let qc = JsonValue::string(c.as_str());
                let ghost before = ls@;
                ls.append("globalThis.__dz_localstorage_data[");
                ls.append(q.as_text());
                ls.append("] = ");
                ls.append(qc.as_text());
                ls.append(";\n");
                assert(ls@ =~= before + restore_line(rv[i as int]));
            },
        }
        i = i + 1;
    }
    assert(rv.take(rv.len() as int) =~= rv);
    (dz, ls)
}

/// A `localStorage` value that the sync writes into the store comes back to
/// the script as the same text.
pub proof fn law_local_value_restored(k: Seq<char>, v: Seq<char>, prefixed: bool)
    requires
        json_string_content(json_quoted(v)) == Some(v),
    ensures
        restore_entry(local_key(k), json_quoted(v), prefixed) == seq![RestoreV::Local(k, v)],
{
    reveal_strlit("ls:");
    reveal_strlit("dz:");
    let lk = local_key(k);
    assert(lk.subrange(0, 3) =~= "ls:"@);
    assert(starts_with(lk, "ls:"@));
    assert(lk.subrange(3, lk.len() as int) =~= k);
    assert(!starts_with(lk, "dz:"@)) by {
        assert(lk[1] == 's');
        if starts_with(lk, "dz:"@) {
            assert(lk.subrange(0, 3)[1] == lk[1]);
        }
    }
}

/// A store entry that the sync wrote for a `localStorage` value is restored
/// to the script: whatever else the store holds, the restored items hold
/// that key with the same text.
pub proof fn law_local_entry_restored(
    ev: Seq<(Seq<char>, Seq<char>)>,
    prefixed: bool,
    i: int,
    k: Seq<char>,
    v: Seq<char>,
)
    requires
        0 <= i < ev.len(),
        ev[i] == (local_key(k), json_quoted(v)),
        json_string_content(json_quoted(v)) == Some(v),
    ensures
        restore_of(ev, prefixed).contains(RestoreV::Local(k, v)),
    decreases ev.len(),
{
    let rest = restore_of(ev.drop_last(), prefixed);
    let last = restore_entry(ev.last().0, ev.last().1, prefixed);
    assert(restore_of(ev, prefixed) == rest + last);
    if i == ev.len() - 1 {
        law_local_value_restored(k, v, prefixed);
        assert((rest + last)[rest.len() as int] == RestoreV::Local(k, v));
    } else {
        assert(ev.drop_last()[i] == ev[i]);
        law_local_entry_restored(ev.drop_last(), prefixed, i, k, v);
        let j = choose|j: int| 0 <= j < rest.len() && rest[j] == RestoreV::Local(k, v);
        assert((rest + last)[j] == rest[j]);
    }
}

/// After keys with a prefix are removed, no key with that prefix is left:
/// `has_prefix` then answers no.
pub proof fn law_prefix_removed(before: Map<Seq<char>, Seq<char>>, prefix: Seq<char>)
    ensures
        !exists|k: Seq<char>|
            before.restrict(before.dom().filter(|k: Seq<char>| !starts_with(k, prefix))).contains_key(k)
                && starts_with(k, prefix),
{
}

/// A value that `set` takes is what `get` reads for its key afterwards, and
/// every other key reads as before.
pub proof fn law_get_after_set(before: Map<Seq<char>, Seq<char>>, key: Seq<char>, value: Seq<char>, other: Seq<char>)
    ensures
        before.insert(key, value).contains_key(key),
        before.insert(key, value)[key] == value,
        other != key ==> (before.insert(key, value).contains_key(other) == before.contains_key(other)),
        other != key && before.contains_key(other) ==> before.insert(key, value)[other] == before[other],
{
}

/// A removed key reads as absent, and every other key reads as before.
pub proof fn law_get_after_remove(before: Map<Seq<char>, Seq<char>>, key: Seq<char>, other: Seq<char>)
    ensures
        !before.remove(key).contains_key(key),
        other != key ==> (before.remove(key).contains_key(other) == before.contains_key(other)),
        other != key && before.contains_key(other) ==> before.remove(key)[other] == before[other],
{
}

} // verus!
