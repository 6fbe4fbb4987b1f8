//! Decisions around the runtime's background network work: which fetch and
//! WebSocket requests may start, which responses are too large, what an
//! incoming WebSocket frame becomes, and which sockets a script may still
//! write to. The threads, sockets and HTTP clients themselves live with the
//! caller, which hands each outcome back as a plain value.
use vstd::prelude::*;
use crate::text::string_from_chars;
use crate::kv::byte_len;
use crate::net::lossy_utf8;
use crate::net::utf8_lossy;

verus! {

/// The most background threads (fetches and WebSocket connections) at once.
pub const MAX_BACKGROUND_THREADS: usize = 32;

/// The largest response body a network fetch hands to the script: 50 MiB.
pub const MAX_RESPONSE_SIZE: usize = 52_428_800;

/// The largest incoming WebSocket message delivered to the script: 16 MiB.
pub const MAX_WS_MSG_SIZE: usize = 16_777_216;

/// The close code of a connection that ended normally.
pub const CLOSE_NORMAL: u16 = 1000;

/// The character of a decimal digit.
pub open spec fn digit_char(d: int) -> char {
    (48 + d) as char
}

/// The decimal digits of `n`, most significant first, without leading
/// zeros (`"0"` for zero).
pub open spec fn decimal(n: nat) -> Seq<char>
    decreases n,
{
    if n < 10 {
        seq![digit_char(n as int)]
    } else {
        decimal(n / 10).push(digit_char((n % 10) as int))
    }
}

fn push_decimal(n: u64, out: &mut Vec<char>)
    ensures
        final(out)@ == old(out)@ + decimal(n as nat),
    decreases n,
{
    if n >= 10 {
        push_decimal(n / 10, out);
    }
    let d: u8 = (n % 10) as u8;
    out.push((48u8 + d) as char);
    proof {
        assert(decimal(n as nat) == if n < 10 {
            seq![digit_char(n as int)]
        } else {
            decimal((n / 10) as nat).push(digit_char((n % 10) as int))
        });
    }
}

/// The decimal text of `n`.
pub(crate) fn decimal_string(n: u64) -> (s: String)
    ensures
        s@ == decimal(n as nat),
{
    let mut v: Vec<char> = Vec::new();
    push_decimal(n, &mut v);
    assert(v@ == Seq::<char>::empty() + decimal(n as nat));
    assert(Seq::<char>::empty() + decimal(n as nat) =~= decimal(n as nat));
    string_from_chars(&v)
}

/// The refusal of a response whose declared length exceeds the cap.
pub open spec fn declared_too_large(n: nat) -> Seq<char> {
    "Response too large: "@ + decimal(n) + " bytes (max "@ + decimal(MAX_RESPONSE_SIZE as nat)
        + ")"@
}

/// The refusal of a response body longer than the cap.
pub open spec fn body_too_large(n: nat) -> Seq<char> {
    "Response body too large: "@ + decimal(n) + " bytes (max "@ + decimal(
        MAX_RESPONSE_SIZE as nat,
    ) + ")"@
}

/// Checks the `Content-Length` of a response, when it has one, against
/// `MAX_RESPONSE_SIZE`, before its body is read.
pub fn check_content_length(content_length: Option<u64>) -> (r: Result<(), String>)
    ensures
        r is Err <==> (content_length matches Some(n) && n > MAX_RESPONSE_SIZE),
        r matches Err(m) ==> m@ == declared_too_large(content_length.unwrap() as nat),
{
    match content_length {
        Some(n) => {
            if n > MAX_RESPONSE_SIZE as u64 {
                let mut m = "Response too large: ".to_owned();
                m.append(decimal_string(n).as_str());
                m.append(" bytes (max ");
                m.append(decimal_string(MAX_RESPONSE_SIZE as u64).as_str());
                m.append(")");
                Err(m)
            } else {
                Ok(())
            }
        },
        None => Ok(()),
    }
}

/// Checks the length in bytes of a response body that was read against
/// `MAX_RESPONSE_SIZE`.
pub fn check_body_length(len: usize) -> (r: Result<(), String>)
    ensures
        r is Err <==> len > MAX_RESPONSE_SIZE,
        r matches Err(m) ==> m@ == body_too_large(len as nat),
{
    if len > MAX_RESPONSE_SIZE {
        let mut m = "Response body too large: ".to_owned();
        m.append(decimal_string(len as u64).as_str());
        m.append(" bytes (max ");
        m.append(decimal_string(MAX_RESPONSE_SIZE as u64).as_str());
        m.append(")");
        Err(m)
    } else {
        Ok(())
    }
}

/// Whether `v` holds `id`.
fn holds_id(v: &Vec<u32>, id: u32) -> (b: bool)
    ensures
        b == v@.contains(id),
{
    let mut i: usize = 0;
    while i < v.len()
        invariant
            i <= v@.len(),
            forall|j: int| 0 <= j < i ==> v@[j] != id,
        decreases v@.len() - i,
    {
        if v[i] == id {
            assert(v@[i as int] == id);
            return true;
        }
        i = i + 1;
    }
    false
}

/// `v` without `id`.
fn without_id(v: &Vec<u32>, id: u32) -> (r: Vec<u32>)
    ensures
        forall|x: u32| r@.contains(x) <==> (v@.contains(x) && x != id),
{
    let mut r: Vec<u32> = Vec::new();
    let mut i: usize = 0;
    while i < v.len()
        invariant
            i <= v@.len(),
            forall|x: u32| r@.contains(x) <==> (v@.subrange(0, i as int).contains(x) && x != id),
        decreases v@.len() - i,
    {
        let x = v[i];
        let ghost old_r = r@;
        if x != id {
            r.push(x);
        }
        assert forall|y: u32| r@.contains(y) <==> (v@.subrange(0, i + 1).contains(y) && y != id) by {
            let s0 = v@.subrange(0, i as int);
            let s1 = v@.subrange(0, i + 1);
            assert(s1 == s0.push(x));
            if r@.contains(y) {
                let k = choose|k: int| 0 <= k < r@.len() && r@[k] == y;
                if k < old_r.len() {
                    assert(old_r[k] == y);
                    assert(old_r.contains(y));
                    let j = choose|j: int| 0 <= j < s0.len() && s0[j] == y;
                    assert(s1[j] == y);
                } else {
                    assert(y == x && x != id);
                    assert(s1[i as int] == y);
                }
            }
            if s1.contains(y) && y != id {
                let j = choose|j: int| 0 <= j < s1.len() && s1[j] == y;
                if j < i {
                    assert(s0[j] == y);
                    assert(s0.contains(y));
                    assert(old_r.contains(y));
                    let k = choose|k: int| 0 <= k < old_r.len() && old_r[k] == y;
                    assert(r@[k] == y);
                } else {
                    assert(y == x);
                    assert(r@[r@.len() - 1] == y);
                }
            }
        }
        i = i + 1;
    }
    assert(v@.subrange(0, v@.len() as int) == v@);
    r
}

/// `v` with `id` added, unless it is there already.
fn with_id(v: &mut Vec<u32>, id: u32)
    ensures
        forall|x: u32| final(v)@.contains(x) <==> (old(v)@.contains(x) || x == id),
{
    if !holds_id(v, id) {
        let ghost before = v@;
        v.push(id);
        assert forall|x: u32| v@.contains(x) <==> (before.contains(x) || x == id) by {
            if v@.contains(x) {
                let k = choose|k: int| 0 <= k < v@.len() && v@[k] == x;
                if k < before.len() {
                    assert(before[k] == x);
                }
            }
            if before.contains(x) {
                let k = choose|k: int| 0 <= k < before.len() && before[k] == x;
                assert(v@[k] == x);
            }
            if x == id {
                assert(v@[v@.len() - 1] == x);
            }
        }
    }
}

/// The set of ids that `v` holds.
pub open spec fn id_set(v: Seq<u32>) -> Set<u32> {
    Set::new(|x: u32| v.contains(x))
}

/// Why a network fetch may not start, if it may not: its host is private or
/// internal, or all background threads are busy.
pub open spec fn fetch_refusal(host_allowed: bool, active_threads: int) -> Option<Seq<char>> {
    if !host_allowed {
        Some("Blocked: private/internal network address"@)
    } else if active_threads >= MAX_BACKGROUND_THREADS {
        Some("Too many concurrent network requests"@)
    } else {
        None
    }
}

/// Why a WebSocket connection may not open, if it may not (its URL was
/// checked before its host was resolved): its host is private or internal,
/// or all background threads are busy.
pub open spec fn socket_refusal(host_allowed: bool, active_threads: int) -> Option<Seq<char>> {
    if !host_allowed {
        Some("WebSocket connections to private/internal hosts are blocked"@)
    } else if active_threads >= MAX_BACKGROUND_THREADS {
        Some("Too many concurrent connections"@)
    } else {
        None
    }
}

/// The network requests in flight: fetches whose result is awaited,
/// WebSocket connections the script opened, and those of them whose
/// connection still takes outgoing messages.
pub struct NetState {
    fetch_ids: Vec<u32>,
    socket_ids: Vec<u32>,
    writable_ids: Vec<u32>,
}

impl NetState {
    /// Fetches whose result is awaited.
    pub closed spec fn pending_fetches(&self) -> Set<u32> {
        id_set(self.fetch_ids@)
    }

    /// WebSocket connections opened and not closed by the script.
    pub closed spec fn open_sockets(&self) -> Set<u32> {
        id_set(self.socket_ids@)
    }

    /// WebSocket connections that still take outgoing messages.
    pub closed spec fn writable_sockets(&self) -> Set<u32> {
        id_set(self.writable_ids@)
    }

    /// A message the script sends on socket `id` goes out.
    pub open spec fn sendable(&self, id: u32) -> bool {
        self.open_sockets().contains(id) && self.writable_sockets().contains(id)
    }

    /// Nothing in flight.
    pub fn new() -> (s: NetState)
        ensures
            s.pending_fetches() == Set::<u32>::empty(),
            s.open_sockets() == Set::<u32>::empty(),
            s.writable_sockets() == Set::<u32>::empty(),
    {
        let s = NetState { fetch_ids: Vec::new(), socket_ids: Vec::new(), writable_ids: Vec::new() };
        assert(s.pending_fetches() =~= Set::<u32>::empty());
        assert(s.open_sockets() =~= Set::<u32>::empty());
        assert(s.writable_sockets() =~= Set::<u32>::empty());
        s
    }

    /// Decides whether network fetch `id` may start, given whether its host
    /// resolved to a public address and how many background threads run;
    /// when it may, its result is awaited from then on.
    pub fn admit_fetch(&mut self, id: u32, host_allowed: bool, active_threads: usize) -> (r: Result<
        (),
        String,
    >)
        ensures
            match r {
                Ok(()) => fetch_refusal(host_allowed, active_threads as int) is None
                    && final(self).pending_fetches() == old(self).pending_fetches().insert(id),
                Err(m) => fetch_refusal(host_allowed, active_threads as int) == Some(m@)
                    && final(self).pending_fetches() == old(self).pending_fetches(),
            },
            final(self).open_sockets() == old(self).open_sockets(),
            final(self).writable_sockets() == old(self).writable_sockets(),
    {
        if !host_allowed {
            return Err("Blocked: private/internal network address".to_owned());
        }
        if active_threads >= MAX_BACKGROUND_THREADS {
            return Err("Too many concurrent network requests".to_owned());
        }
        with_id(&mut self.fetch_ids, id);
        assert(self.pending_fetches() =~= old(self).pending_fetches().insert(id));
        Ok(())
    }

    /// Takes the result of fetch `id`: whether it was awaited (a result for
    /// any other id is ignored); it is awaited no longer.
    pub fn finish_fetch(&mut self, id: u32) -> (b: bool)
        ensures
            b == old(self).pending_fetches().contains(id),
            final(self).pending_fetches() == old(self).pending_fetches().remove(id),
            final(self).open_sockets() == old(self).open_sockets(),
            final(self).writable_sockets() == old(self).writable_sockets(),
    {
        let b = holds_id(&self.fetch_ids, id);
        self.fetch_ids = without_id(&self.fetch_ids, id);
        assert(self.pending_fetches() =~= old(self).pending_fetches().remove(id));
        b
    }

    /// Decides whether WebSocket connection `id` may open, given whether its
    /// host resolved to a public address and how many background threads
    /// run; when it may, it is open and takes outgoing messages.
    pub fn admit_socket(&mut self, id: u32, host_allowed: bool, active_threads: usize) -> (r:
        Result<(), String>)
        ensures
            match r {
                Ok(()) => socket_refusal(host_allowed, active_threads as int) is None
                    && final(self).open_sockets() == old(self).open_sockets().insert(id)
                    && final(self).writable_sockets() == old(self).writable_sockets().insert(id),
                Err(m) => socket_refusal(host_allowed, active_threads as int) == Some(m@)
                    && final(self).open_sockets() == old(self).open_sockets()
                    && final(self).writable_sockets() == old(self).writable_sockets(),
            },
            final(self).pending_fetches() == old(self).pending_fetches(),
    {
        if !host_allowed {
            return Err("WebSocket connections to private/internal hosts are blocked".to_owned());
        }
        if active_threads >= MAX_BACKGROUND_THREADS {
            return Err("Too many concurrent connections".to_owned());
        }
        with_id(&mut self.socket_ids, id);
        with_id(&mut self.writable_ids, id);
        assert(self.open_sockets() =~= old(self).open_sockets().insert(id));
        assert(self.writable_sockets() =~= old(self).writable_sockets().insert(id));
        Ok(())
    }

    /// Connection `id` reported that it closed: it takes no more outgoing
    /// messages.
    pub fn socket_closed(&mut self, id: u32)
        ensures
            final(self).writable_sockets() == old(self).writable_sockets().remove(id),
            final(self).open_sockets() == old(self).open_sockets(),
            final(self).pending_fetches() == old(self).pending_fetches(),
            !final(self).sendable(id),
    {
        self.writable_ids = without_id(&self.writable_ids, id);
        assert(self.writable_sockets() =~= old(self).writable_sockets().remove(id));
    }

    /// The script closed connection `id`: it is neither open nor takes
    /// outgoing messages.
    pub fn close_socket(&mut self, id: u32)
        ensures
            final(self).open_sockets() == old(self).open_sockets().remove(id),
            final(self).writable_sockets() == old(self).writable_sockets().remove(id),
            final(self).pending_fetches() == old(self).pending_fetches(),
            !final(self).sendable(id),
    {
        self.socket_ids = without_id(&self.socket_ids, id);
        self.writable_ids = without_id(&self.writable_ids, id);
        assert(self.open_sockets() =~= old(self).open_sockets().remove(id));
        assert(self.writable_sockets() =~= old(self).writable_sockets().remove(id));
    }

    /// Whether a message the script sends on connection `id` goes out.
    pub fn may_send(&self, id: u32) -> (b: bool)
        ensures
            b == self.sendable(id),
    {
        holds_id(&self.socket_ids, id) && holds_id(&self.writable_ids, id)
    }
}

/// A frame read from a WebSocket connection.
#[derive(Debug, PartialEq, Eq)]
pub enum WsFrame {
    /// A text message.
    Text(String),
    /// A binary message.
    Binary(Vec<u8>),
    /// The peer closed the connection, with a close code and reason if it
    /// sent them.
    Close(Option<(u16, String)>),
    /// A ping with its payload.
    Ping(Vec<u8>),
    /// A pong with its payload.
    Pong(Vec<u8>),
}

/// What a connection does with a frame it read.
#[derive(Debug, PartialEq, Eq)]
pub enum FrameAction {
    /// Hand this message to the script.
    Deliver(String),
    /// The connection closed cleanly with this code and reason.
    Closed { code: u16, reason: String },
    /// Answer with a pong carrying this payload.
    Reply(Vec<u8>),
    /// Nothing: a pong, or a message over `MAX_WS_MSG_SIZE` bytes, which is
    /// dropped.
    Ignore,
}

/// Decides what a connection does with a frame: messages up to
/// `MAX_WS_MSG_SIZE` bytes go to the script (binary ones decoded as UTF-8,
/// invalid sequences replaced), larger ones are dropped; a close frame ends
/// the connection cleanly (code 1000 and no reason when the frame has none);
/// a ping is answered with its payload; a pong is ignored.
pub fn on_frame(frame: WsFrame) -> (r: FrameAction)
    ensures
        match frame {
            WsFrame::Text(t) => if byte_len(t@) <= MAX_WS_MSG_SIZE {
                r matches FrameAction::Deliver(d) && d@ == t@
            } else {
                r is Ignore
            },
            WsFrame::Binary(b) => if b@.len() <= MAX_WS_MSG_SIZE {
                r matches FrameAction::Deliver(d) && d@ == lossy_utf8(b@)
            } else {
                r is Ignore
            },
            WsFrame::Close(None) => r matches FrameAction::Closed { code, reason } && code
                == CLOSE_NORMAL && reason@.len() == 0,
            WsFrame::Close(Some((c, why))) => r matches FrameAction::Closed { code, reason } && code
                == c && reason@ == why@,
            WsFrame::Ping(p) => r matches FrameAction::Reply(q) && q@ == p@,
            WsFrame::Pong(_) => r is Ignore,
        },
{
    match frame {
        WsFrame::Text(t) => {
            if t.as_str().len() <= MAX_WS_MSG_SIZE {
                FrameAction::Deliver(t)
            } else {
                FrameAction::Ignore
            }
        },
        WsFrame::Binary(b) => {
            if b.len() <= MAX_WS_MSG_SIZE {
                FrameAction::Deliver(utf8_lossy(b.as_slice()))
            } else {
                FrameAction::Ignore
            }
        },
        WsFrame::Close(None) => FrameAction::Closed { code: CLOSE_NORMAL, reason: String::new() },
        WsFrame::Close(Some((c, why))) => FrameAction::Closed { code: c, reason: why },
        WsFrame::Ping(p) => FrameAction::Reply(p),
        WsFrame::Pong(_) => FrameAction::Ignore,
    }
}

} // verus!
