//! The buffer of console messages a script logs: each call's arguments
//! joined by spaces, kept while the buffer stays within its caps.
use vstd::prelude::*;
use crate::kv::byte_len;

verus! {

/// At most this many messages are kept.
pub const MAX_CONSOLE_ENTRIES: usize = 10_000;

/// At most this many bytes of message text are kept, all messages together.
pub const MAX_CONSOLE_BYTES: usize = 10_485_760;

/// The bytes of the texts of `es`.
pub open spec fn texts_bytes(es: Seq<(Seq<char>, Seq<char>)>) -> int
    decreases es.len(),
{
    if es.len() == 0 {
        0
    } else {
        texts_bytes(es.drop_last()) + byte_len(es.last().1)
    }
}

/// The arguments of a console call joined by single spaces.
pub open spec fn joined_args(parts: Seq<Seq<char>>) -> Seq<char>
    decreases parts.len(),
{
    if parts.len() == 0 {
        Seq::empty()
    } else if parts.len() == 1 {
        parts[0]
    } else {
        joined_args(parts.drop_last()) + " "@ + parts.last()
    }
}

/// The messages after logging `text` at `level`: it is kept at the end
/// unless `MAX_CONSOLE_ENTRIES` messages are kept already or the texts
/// would pass `MAX_CONSOLE_BYTES`, in which case nothing changes.
pub open spec fn logged(es: Seq<(Seq<char>, Seq<char>)>, level: Seq<char>, text: Seq<char>) -> Seq<
    (Seq<char>, Seq<char>),
> {
    if es.len() >= MAX_CONSOLE_ENTRIES || texts_bytes(es) + byte_len(text) > MAX_CONSOLE_BYTES {
        es
    } else {
        es.push((level, text))
    }
}

/// The views of a list of strings.
pub open spec fn texts_view(v: Seq<String>) -> Seq<Seq<char>> {
    v.map_values(|x: String| x@)
}

/// A console message: its level (`log`, `warn`, `error`, ...) and text.
#[derive(Debug, PartialEq, Eq)]
pub struct ConsoleMessage {
    pub level: String,
    pub text: String,
}

/// The messages a script has logged and not yet handed out.
pub struct ConsoleBuffer {
    entries: Vec<ConsoleMessage>,
    bytes: usize,
}

/// The model of messages: level and text of each.
pub open spec fn messages_view(v: Seq<ConsoleMessage>) -> Seq<(Seq<char>, Seq<char>)> {
    v.map_values(|m: ConsoleMessage| (m.level@, m.text@))
}

/// The arguments joined by single spaces (see `joined_args`).
pub fn join_args(parts: &Vec<String>) -> (r: String)
    ensures
        r@ == joined_args(texts_view(parts@)),
{
    let ghost pv = texts_view(parts@);
    let mut r = String::new();
    let mut i: usize = 0;
    while i < parts.len()
        invariant
            i <= parts@.len(),
            pv == texts_view(parts@),
            pv.len() == parts@.len(),
            r@ == joined_args(pv.take(i as int)),
        decreases parts@.len() - i,
    {
        proof {
            let t = pv.take(i + 1);
            assert(t.drop_last() =~= pv.take(i as int));
            assert(t.last() == parts@[i as int]@);
            if i == 0 {
                assert(t.len() == 1);
            }
        }
        if i > 0 {
            r.append(" ");
        }
        r.append(parts[i].as_str());
        proof {
            if i == 0 {
                assert(r@ =~= parts@[0]@);
            }
        }
        i = i + 1;
    }
    assert(pv.take(pv.len() as int) =~= pv);
    r
}

impl ConsoleBuffer {
    #[verifier::type_invariant]
    spec fn inv(self) -> bool {
        &&& self.bytes == texts_bytes(messages_view(self.entries@))
        &&& self.bytes <= MAX_CONSOLE_BYTES
    }

    /// The kept messages, oldest first.
    pub closed spec fn view(&self) -> Seq<(Seq<char>, Seq<char>)> {
        messages_view(self.entries@)
    }

    /// An empty buffer.
    pub fn new() -> (r: Self)
        ensures
            r.view() == Seq::<(Seq<char>, Seq<char>)>::empty(),
    {
        let r = ConsoleBuffer { entries: Vec::new(), bytes: 0 };
        assert(messages_view(r.entries@) =~= Seq::<(Seq<char>, Seq<char>)>::empty());
        r
    }

    /// The number of kept messages.
    pub fn len(&self) -> (n: usize)
        ensures
            n == self.view().len(),
    {
        self.entries.len()
    }

    /// Logs `text` at `level` (see `logged`).
    fn push(&mut self, level: String, text: String)
        ensures
            final(self).view() == logged(old(self).view(), level@, text@),
    {
        proof {
            use_type_invariant(&*self);
        }
        let n = text.as_str().len();
        if self.entries.len() >= MAX_CONSOLE_ENTRIES || n > MAX_CONSOLE_BYTES - self.bytes {
            return;
        }
        let nb = self.bytes + n;
        let mut taken = ConsoleBuffer::new();
        std::mem::swap(&mut taken, self);
        proof {
            use_type_invariant(&taken);
        }
        let ghost before = taken.entries@;
        let mut entries = taken.entries;
        entries.push(ConsoleMessage { level, text });
        proof {
            let mv = messages_view(entries@);
            assert(mv.drop_last() =~= messages_view(before));
            assert(texts_bytes(mv) == texts_bytes(messages_view(before)) + byte_len(mv.last().1));
        }
        *self = ConsoleBuffer { entries, bytes: nb };
    }

    /// Logs a console call at `level`: its arguments joined by spaces.
    pub fn log(&mut self, level: String, args: &Vec<String>)
        ensures
            final(self).view() == logged(old(self).view(), level@, joined_args(texts_view(args@))),
    {
        let text = join_args(args);
        self.push(level, text);
    }

    /// Logs a failed `console.assert`: at level `error`, `Assertion failed:`
    /// and the arguments after the condition, joined by spaces.
    pub fn assert_failed(&mut self, args: &Vec<String>)
        ensures
            final(self).view() == logged(
                old(self).view(),
                "error"@,
                joined_args(seq!["Assertion failed:"@] + texts_view(args@)),
            ),
    {
        let mut parts: Vec<String> = Vec::new();
        parts.push("Assertion failed:".to_owned());
        let mut i: usize = 0;
        while i < args.len()
            invariant
                i <= args@.len(),
                texts_view(parts@) == seq!["Assertion failed:"@] + texts_view(args@).take(i as int),
            decreases args@.len() - i,
        {
            let ghost before = texts_view(parts@);
            parts.push(args[i].clone());
            assert(texts_view(parts@) =~= before.push(args@[i as int]@));
            assert(texts_view(args@).take(i + 1) =~= texts_view(args@).take(i as int).push(args@[i as int]@));
            assert(texts_view(parts@) =~= seq!["Assertion failed:"@] + texts_view(args@).take(i + 1));
            i = i + 1;
        }
        assert(texts_view(args@).take(args@.len() as int) =~= texts_view(args@));
        let text = join_args(&parts);
        self.push("error".to_owned(), text);
    }

    /// Hands out the kept messages, oldest first, and empties the buffer.
    pub fn drain(&mut self) -> (r: Vec<ConsoleMessage>)
        ensures
            messages_view(r@) == old(self).view(),
            final(self).view() == Seq::<(Seq<char>, Seq<char>)>::empty(),
    {
        let mut taken = ConsoleBuffer::new();
        std::mem::swap(&mut taken, self);
        taken.entries
    }
}

} // verus!
