//! The per-connection protocol engine: handshake, framing, payload ingestion
//! with integrity check, hash acknowledgement, the one-byte pushback queue,
//! and event dispatch.
//!
//! Events are recorded in an outbound queue that the owner drains with
//! `take_events`; the one decision callback of the protocol — whether an
//! announced file transfer is accepted — is the size bound set with
//! `set_file_incoming_limit`, judged against each transfer's announced
//! length.

use vstd::prelude::*;

use crate::digest::{digest_of, hash_frame, sha256};
use crate::text::{decode_lossy, lossy_chars};
use crate::transport::Transport;
use crate::wire::{
    dec_digits, handshake, scan_len, transfer_name, ScanLen, INSTR_FILE, INSTR_HASH, INSTR_MSG,
    LEN_SCAN_CAP, MAX_MSG_LEN,
};
use vstd::string::{StrSliceExecFns, StringSliceAdditionalSpecFns};
use vstd::utf8::{decode_utf8, valid_utf8};

verus! {

/// Why an engine operation failed.
#[derive(Clone, Copy, Debug, PartialEq, Eq, Structural)]
pub enum TalkError {
    /// The transport could not serve a read or a write.
    Io,
    /// The peer closed the stream where an instruction byte was expected.
    NotConnected,
    /// The peer's handshake did not match the expected literal.
    Protocol,
    /// `expect_hash` met something other than a hash frame.
    NoHash,
    /// The buffered bytes do not yet hold what the operation needs; feed
    /// more and retry.
    Pending,
}

/// An event fired by an engine operation, in firing order.
#[derive(Debug, PartialEq, Eq)]
pub enum Event {
    /// The first `close` that shut the connection down.
    ChatClose,
    /// A complete message payload, lossily decoded.
    MsgNew(String),
    /// A file payload was fully drained; `data` is its exact content.
    FileComplete { name: Vec<u8>, data: Vec<u8> },
    /// The hash trailer the peer appended to a file transfer.
    FileHashByPeer { name: Vec<u8>, digest: Vec<u8> },
    /// The engine's own digest of a received file.
    FileOurHash { name: Vec<u8>, digest: Vec<u8> },
    /// The engine finished hashing an outbound payload.
    HashOfSent(Vec<u8>),
    /// `expect_hash` consumed a hash frame.
    HashRcvd(Vec<u8>),
    /// An inbound message announced more than the permitted size.
    PayloadTooLarge(u64),
    /// An unknown instruction byte.
    InvalidInstr(u8),
}

/// The mathematical form of an event.
pub enum Ev {
    ChatClose,
    MsgNew(Seq<char>),
    FileComplete { name: Seq<u8>, data: Seq<u8> },
    FileHashByPeer { name: Seq<u8>, digest: Seq<u8> },
    FileOurHash { name: Seq<u8>, digest: Seq<u8> },
    HashOfSent(Seq<u8>),
    HashRcvd(Seq<u8>),
    PayloadTooLarge(nat),
    InvalidInstr(u8),
}

impl View for Event {
    type V = Ev;

    open spec fn view(&self) -> Ev {
        match self {
            Event::ChatClose => Ev::ChatClose,
            Event::MsgNew(s) => Ev::MsgNew(s@),
            Event::FileComplete { name, data } => Ev::FileComplete {
                name: name@,
                data: data@,
            },
            Event::FileHashByPeer { name, digest } => Ev::FileHashByPeer {
                name: name@,
                digest: digest@,
            },
            Event::FileOurHash { name, digest } => Ev::FileOurHash {
                name: name@,
                digest: digest@,
            },
            Event::HashOfSent(d) => Ev::HashOfSent(d@),
            Event::HashRcvd(d) => Ev::HashRcvd(d@),
            Event::PayloadTooLarge(n) => Ev::PayloadTooLarge(*n as nat),
            Event::InvalidInstr(b) => Ev::InvalidInstr(*b),
        }
    }
}

/// The mathematical state of an engine: its own fields and the transport's.
#[verifier::ext_equal]
pub struct EngView {
    /// The pushback queue, at most one byte deep.
    pub queue: Option<u8>,
    /// Whether `close` has run.
    pub closed: bool,
    /// The largest announced size accepted for a file transfer, if any is
    /// accepted at all.
    pub file_limit: Option<u64>,
    /// Whether the transport is still up.
    pub up: bool,
    /// Whether the peer has closed its sending half.
    pub peer_eof: bool,
    /// Whether the transport read half is in non-blocking mode.
    pub nonblocking: bool,
    /// Bytes received and not yet consumed.
    pub avail: Seq<u8>,
    /// Bytes written towards the peer.
    pub sent: Seq<u8>,
    /// Events fired so far and not yet drained.
    pub events: Seq<Ev>,
}

/// What `close` does: the first call fires `ChatClose` and shuts the
/// transport down; later calls change nothing.
pub open spec fn close_step(st: EngView) -> EngView {
    if st.closed {
        st
    } else {
        EngView { closed: true, up: false, events: st.events.push(Ev::ChatClose), ..st }
    }
}

/// What `perform_handshake` does: writes the 8-byte literal.
pub open spec fn perform_handshake_step(st: EngView) -> EngView {
    if st.up {
        EngView { sent: st.sent + handshake(), ..st }
    } else {
        st
    }
}

pub open spec fn perform_handshake_res(st: EngView) -> Result<(), TalkError> {
    if st.up {
        Ok(())
    } else {
        Err(TalkError::Io)
    }
}

/// What `expect_handshake` does: consumes exactly 8 bytes when it can.
pub open spec fn expect_handshake_step(st: EngView) -> EngView {
    if st.up && st.avail.len() >= 8 {
        EngView { avail: st.avail.skip(8), ..st }
    } else {
        st
    }
}

pub open spec fn expect_handshake_res(st: EngView) -> Result<(), TalkError> {
    if !st.up || st.avail.len() < 8 {
        Err(TalkError::Io)
    } else if st.avail.take(8) == handshake() {
        Ok(())
    } else {
        Err(TalkError::Protocol)
    }
}

/// What `send` does: writes a message frame for `payload` and fires
/// `HashOfSent` with the payload's digest.
pub open spec fn send_step(st: EngView, payload: Seq<u8>) -> EngView {
    if st.up {
        EngView {
            sent: st.sent + crate::wire::msg_frame(payload),
            events: st.events.push(Ev::HashOfSent(digest_of(payload))),
            ..st
        }
    } else {
        st
    }
}

pub open spec fn send_res(st: EngView) -> Result<(), TalkError> {
    if st.up {
        Ok(())
    } else {
        Err(TalkError::Io)
    }
}

/// What `send_stream` does: writes a file-frame header announcing `len`,
/// the payload, and a trailing hash frame, and fires `HashOfSent`.
/// The announced `len` is the caller's claim and need not match the data.
pub open spec fn send_stream_step(st: EngView, payload: Seq<u8>, len: u64) -> EngView {
    if st.up {
        EngView {
            sent: st.sent + crate::wire::file_header(len as nat) + payload + hash_frame(payload),
            events: st.events.push(Ev::HashOfSent(digest_of(payload))),
            ..st
        }
    } else {
        st
    }
}

/// What `expect_hash` does: a whole hash frame is consumed and fires
/// `HashRcvd`; a stray non-hash byte goes into the pushback queue; a frame
/// whose bytes have not all arrived yet is left untouched for a retry.
pub open spec fn expect_hash_step(st: EngView) -> EngView {
    let st1 = EngView { nonblocking: false, ..st };
    if !st.up || st.avail.len() == 0 {
        st1
    } else if st.avail[0] != INSTR_HASH {
        EngView { avail: st.avail.skip(1), queue: Some(st.avail[0]), ..st1 }
    } else if st.avail.len() >= 33 {
        EngView {
            avail: st.avail.skip(33),
            events: st.events.push(Ev::HashRcvd(st.avail.subrange(1, 33))),
            ..st1
        }
    } else {
        st1
    }
}

pub open spec fn expect_hash_res(st: EngView) -> Result<(), TalkError> {
    if !st.up {
        Err(TalkError::Io)
    } else if st.avail.len() == 0 {
        if st.peer_eof {
            Err(TalkError::NotConnected)
        } else {
            Err(TalkError::Pending)
        }
    } else if st.avail[0] != INSTR_HASH {
        Err(TalkError::NoHash)
    } else if st.avail.len() >= 33 {
        Ok(())
    } else if st.peer_eof {
        Err(TalkError::Io)
    } else {
        Err(TalkError::Pending)
    }
}

/// Whether a transfer announcing `n` bytes is accepted: only when an accept
/// bound is set and `n` does not exceed it. With no bound set — the default —
/// every transfer is rejected.
pub open spec fn file_accepted(st: EngView, n: nat) -> bool {
    match st.file_limit {
        Some(m) => n <= m as nat,
        None => false,
    }
}

/// The instruction byte `read_once` would act on: the queued byte if one is
/// waiting, else the first buffered byte.
pub open spec fn instr_of(st: EngView) -> Option<u8> {
    match st.queue {
        Some(b) => Some(b),
        None => if st.avail.len() > 0 {
            Some(st.avail[0])
        } else {
            None
        },
    }
}

/// The bytes of the frame after its instruction byte.
pub open spec fn frame_bytes(st: EngView, from_queue: bool) -> Seq<u8> {
    if from_queue {
        st.avail
    } else {
        st.avail.skip(1)
    }
}

/// The state once the instruction byte is committed: the queue is emptied,
/// or the byte leaves the stream.
pub open spec fn commit_instr(st: EngView, from_queue: bool) -> EngView {
    if from_queue {
        EngView { queue: None, ..st }
    } else {
        EngView { avail: st.avail.skip(1), ..st }
    }
}

/// The message tail once its header scanned to `n`: `stb` is the state with
/// the header committed and blocking mode set, `rest` what follows the
/// header, `st` the untouched starting state for the not-yet case.
pub open spec fn msg_fin_step(st: EngView, stb: EngView, rest: Seq<u8>, n: nat) -> EngView {
    if n > MAX_MSG_LEN as nat {
        EngView {
            avail: rest,
            events: stb.events.push(Ev::PayloadTooLarge(n)),
            sent: stb.sent + hash_frame(Seq::<u8>::empty()),
            ..stb
        }
    } else if rest.len() >= n {
        let data = rest.take(n as int);
        EngView {
            avail: rest.skip(n as int),
            events: stb.events.push(Ev::MsgNew(lossy_chars(data))),
            sent: stb.sent + hash_frame(data),
            ..stb
        }
    } else {
        st
    }
}

/// The file tail once its header scanned to `n`. A rejected transfer is not
/// drained; an accepted one is recorded whole under the name
/// `transfer_<ns>`, its hash trailer read when buffered — only a peer that
/// is gone excuses a missing trailer.
pub open spec fn file_fin_step(st: EngView, stb: EngView, rest: Seq<u8>, n: nat, ns: nat) -> EngView {
    if !file_accepted(st, n) {
        EngView { avail: rest, sent: stb.sent + hash_frame(Seq::<u8>::empty()), ..stb }
    } else if rest.len() >= n {
        let name = transfer_name(ns);
        let data = rest.take(n as int);
        let a1 = rest.skip(n as int);
        if a1.len() >= 33 {
            let ev1 = stb.events.push(Ev::FileComplete { name, data });
            let ev2 = if a1[0] == INSTR_HASH {
                ev1.push(Ev::FileHashByPeer { name, digest: a1.subrange(1, 33) })
            } else {
                ev1
            };
            EngView {
                avail: a1.skip(33),
                events: ev2.push(Ev::FileOurHash { name, digest: digest_of(data) }),
                sent: stb.sent + hash_frame(data),
                ..stb
            }
        } else if st.peer_eof {
            EngView {
                avail: a1,
                events: stb.events.push(Ev::FileComplete { name, data }).push(
                    Ev::FileOurHash { name, digest: digest_of(data) },
                ),
                sent: stb.sent + hash_frame(data),
                ..stb
            }
        } else {
            st
        }
    } else {
        st
    }
}

/// Processing of the instruction byte `b` in state `st`, with the transport
/// up. A frame is consumed whole or not at all: while its bytes are still
/// underway — length prefix, payload, or hash trailer incomplete, with the
/// peer still sending — nothing changes, and the caller retries once more
/// bytes were fed.
pub open spec fn dispatch_step(st: EngView, b: u8, from_queue: bool, ns: nat) -> EngView {
    let stc = commit_instr(st, from_queue);
    let fa = frame_bytes(st, from_queue);
    if b != INSTR_MSG && b != INSTR_FILE {
        EngView { events: stc.events.push(Ev::InvalidInstr(b)), ..stc }
    } else {
        let stb = EngView { nonblocking: false, ..stc };
        match scan_len(fa) {
            ScanLen::Bad { used } => EngView {
                avail: fa.skip(used),
                sent: stb.sent + hash_frame(Seq::<u8>::empty()),
                ..stb
            },
            ScanLen::More => st,
            ScanLen::Fin { value: n, used } => {
                if b == INSTR_MSG {
                    msg_fin_step(st, stb, fa.skip(used), n)
                } else {
                    file_fin_step(st, stb, fa.skip(used), n, ns)
                }
            },
        }
    }
}

pub open spec fn dispatch_res(st: EngView, b: u8, from_queue: bool) -> Result<bool, TalkError> {
    let fa = frame_bytes(st, from_queue);
    if b != INSTR_MSG && b != INSTR_FILE {
        Ok(false)
    } else {
        match scan_len(fa) {
            ScanLen::Bad { .. } => Ok(true),
            ScanLen::More => if st.peer_eof {
                Err(TalkError::Io)
            } else {
                Ok(false)
            },
            ScanLen::Fin { value: n, used } => {
                let rest = fa.skip(used);
                if b == INSTR_MSG {
                    if n > MAX_MSG_LEN as nat {
                        Ok(true)
                    } else if rest.len() >= n {
                        Ok(true)
                    } else if st.peer_eof {
                        Err(TalkError::Io)
                    } else {
                        Ok(false)
                    }
                } else {
                    if !file_accepted(st, n) {
                        Ok(true)
                    } else if rest.len() >= n {
                        if rest.skip(n as int).len() >= 33 || st.peer_eof {
                            Ok(true)
                        } else {
                            Ok(false)
                        }
                    } else if st.peer_eof {
                        Err(TalkError::Io)
                    } else {
                        Ok(false)
                    }
                }
            },
        }
    }
}

/// What `read_once` does, as a function of the starting state and the
/// nanosecond timestamp `ns` that names a received file.
pub open spec fn read_step(st: EngView, ns: nat) -> EngView {
    if !st.up {
        st
    } else {
        match st.queue {
            Some(b) => dispatch_step(st, b, true, ns),
            None => {
                if st.avail.len() == 0 {
                    st
                } else {
                    dispatch_step(st, st.avail[0], false, ns)
                }
            },
        }
    }
}

pub open spec fn read_res(st: EngView) -> Result<bool, TalkError> {
    if !st.up {
        Err(TalkError::Io)
    } else {
        match st.queue {
            Some(b) => dispatch_res(st, b, true),
            None => {
                if st.avail.len() == 0 {
                    if st.peer_eof {
                        Err(TalkError::NotConnected)
                    } else {
                        Ok(false)
                    }
                } else {
                    dispatch_res(st, st.avail[0], false)
                }
            },
        }
    }
}

/// What `read_maybe` does: one `read_once` in non-blocking mode, with
/// blocking mode restored afterwards.
pub open spec fn read_maybe_step(st: EngView, ns: nat) -> EngView {
    EngView { nonblocking: false, ..read_step(EngView { nonblocking: true, ..st }, ns) }
}

pub open spec fn read_maybe_res(st: EngView) -> Result<bool, TalkError> {
    read_res(EngView { nonblocking: true, ..st })
}

/// The message payload that `read_once` would decode from state `st`, if
/// its message branch completes there.
pub open spec fn msg_payload_of(st: EngView) -> Option<Seq<u8>> {
    if st.up && instr_of(st) == Some(INSTR_MSG) {
        let fa = frame_bytes(st, st.queue is Some);
        match scan_len(fa) {
            ScanLen::Fin { value, used } => {
                let rest = fa.skip(used);
                if value <= MAX_MSG_LEN as nat && rest.len() >= value {
                    Some(rest.take(value as int))
                } else {
                    None
                }
            },
            ScanLen::Bad { .. } => None,
            ScanLen::More => None,
        }
    } else {
        None
    }
}

/// One *talkers* peer connection: the engine around a transport.
pub struct Talker {
    t: Transport,
    queue: Option<u8>,
    closed: bool,
    file_limit: Option<u64>,
    events: Vec<Event>,
}

impl View for Talker {
    type V = EngView;

    closed spec fn view(&self) -> EngView {
        EngView {
            queue: self.queue,
            closed: self.closed,
            file_limit: self.file_limit,
            up: self.t.is_up(),
            peer_eof: self.t.peer_closed(),
            nonblocking: self.t.is_nonblocking(),
            avail: self.t.avail(),
            sent: self.t.sent(),
            events: self.events@.map_values(|e: Event| e@),
        }
    }
}

/// Relies on `std::time::SystemTime::now`: nanoseconds since the Unix epoch.
/// Nothing is promised of the value; contracts quantify over it.
#[verifier::external_body]
fn now_nanos() -> u128 {
    match std::time::SystemTime::now().duration_since(std::time::UNIX_EPOCH) {
        Ok(d) => d.as_nanos(),
        Err(_) => 0,
    }
}

/// Writes a hash frame for `data`: `=` followed by the 32 digest bytes.
fn write_hash_frame(t: &mut Transport, data: &Vec<u8>) -> (ok: bool)
    requires
        old(t).wf(),
    ensures
        final(t).wf(),
        ok == old(t).is_up(),
        final(t).avail() == old(t).avail(),
        final(t).is_up() == old(t).is_up(),
        final(t).is_nonblocking() == old(t).is_nonblocking(),
        final(t).peer_closed() == old(t).peer_closed(),
        old(t).is_up() ==> final(t).sent() == old(t).sent() + hash_frame(data@),
        !old(t).is_up() ==> final(t).sent() == old(t).sent(),
{
    let mut hf: Vec<u8> = Vec::new();
    hf.push(INSTR_HASH);
    let mut dg = sha256(data);
    hf.append(&mut dg);
    proof {
        assert(hf@ =~= hash_frame(data@));
    }
    t.write_all(&hf)
}

/// Outcome of the executable length scanner: the value and the bytes it
/// spans, a hard abort and the bytes it spans, or too few bytes to decide.
enum LenScan {
    Fin(u64, usize),
    Bad(usize),
    More,
}

/// Scans a length prefix in the buffered bytes after offset `off`, exactly
/// as `scan_len` describes, consuming nothing.
fn peek_length(t: &Transport, off: usize) -> (r: LenScan)
    requires
        t.wf(),
        off as int <= t.avail().len(),
    ensures
        match scan_len(t.avail().skip(off as int)) {
            ScanLen::Fin { value, used } => r == LenScan::Fin(value as u64, used as usize)
                && value < crate::wire::pow10(16) && 0 <= used <= 16 && off + used <= t.avail().len(),
            ScanLen::Bad { used } => r == LenScan::Bad(used as usize) && 0 <= used <= 16 && off
                + used <= t.avail().len(),
            ScanLen::More => r is More,
        },
{
    let ghost s = t.avail().skip(off as int);
    let mut acc: u64 = 0;
    let mut i: usize = 0;
    proof {
        crate::wire::lemma_pow10_16();
        t.lemma_avail_fits();
    }
    loop
        invariant
            t.wf(),
            off as int <= t.avail().len(),
            t.avail().len() <= usize::MAX,
            s == t.avail().skip(off as int),
            i <= LEN_SCAN_CAP,
            i as int <= s.len(),
            scan_len(s) == crate::wire::scan_len_rec(s, i as int, acc as nat),
            (acc as nat) < crate::wire::pow10(i as nat),
            crate::wire::pow10(16) == 10000000000000000,
        decreases LEN_SCAN_CAP - i,
    {
        if i >= LEN_SCAN_CAP {
            return LenScan::Bad(i);
        }
        match t.peek(off + i) {
            None => {
                return LenScan::More;
            },
            Some(b) => {
                proof {
                    assert(t.avail()[off + i] == s[i as int]);
                }
                if b == 10 || b == 32 {
                    proof {
                        crate::wire::lemma_pow10_mono(i as nat, 16);
                    }
                    return LenScan::Fin(acc, i + 1);
                } else if 48 <= b && b <= 57 {
                    proof {
                        crate::wire::lemma_pow10_mono(i as nat, 15);
                        assert(crate::wire::pow10((i + 1) as nat) == 10 * crate::wire::pow10(
                            i as nat,
                        ));
                    }
                    acc = acc * 10 + ((b - 48) as u64);
                    i = i + 1;
                } else {
                    return LenScan::Bad(i + 1);
                }
            },
        }
    }
}

/// The name a received file is recorded under: `transfer_` and the
/// nanosecond timestamp in decimal.
fn make_transfer_name(ns: u128) -> (r: Vec<u8>)
    ensures
        r@ == transfer_name(ns as nat),
{
    let mut name: Vec<u8> = Vec::new();
    name.push(116);
    name.push(114);
    name.push(97);
    name.push(110);
    name.push(115);
    name.push(102);
    name.push(101);
    name.push(114);
    name.push(95);
    let mut dec = crate::wire::to_decimal(ns);
    name.append(&mut dec);
    proof {
        assert(name@ =~= transfer_name(ns as nat));
    }
    name
}

impl Talker {
    pub closed spec fn wf(self) -> bool {
        self.t.wf()
    }

    /// Constructs an engine around `t`: not closed, empty pushback queue,
    /// no events, and every file transfer rejected.
    pub fn new(t: Transport) -> (r: Talker)
        requires
            t.wf(),
        ensures
            r.wf(),
            r@ == (EngView {
                queue: None,
                closed: false,
                file_limit: None,
                up: t.is_up(),
                peer_eof: t.peer_closed(),
                nonblocking: t.is_nonblocking(),
                avail: t.avail(),
                sent: t.sent(),
                events: Seq::<Ev>::empty(),
            }),
    {
        let r = Talker { t, queue: None, closed: false, file_limit: None, events: Vec::new() };
        proof {
            assert(r@.events =~= Seq::<Ev>::empty());
            assert(r@ =~= (EngView {
                queue: None,
                closed: false,
                file_limit: None,
                up: r.t.is_up(),
                peer_eof: r.t.peer_closed(),
                nonblocking: r.t.is_nonblocking(),
                avail: r.t.avail(),
                sent: r.t.sent(),
                events: Seq::<Ev>::empty(),
            }));
        }
        r
    }

    /// Chooses which announced file transfers are accepted: any whose
    /// announced size is at most `limit`, or — with `None` — none at all.
    pub fn set_file_incoming_limit(&mut self, limit: Option<u64>)
        requires
            old(self).wf(),
        ensures
            final(self).wf(),
            final(self)@ == (EngView { file_limit: limit, ..old(self)@ }),
    {
        self.file_limit = limit;
        proof {
            assert(self@ =~= (EngView { file_limit: limit, ..old(self)@ }));
        }
    }

    /// Drains the events fired so far, in firing order.
    pub fn take_events(&mut self) -> (r: Vec<Event>)
        requires
            old(self).wf(),
        ensures
            final(self).wf(),
            r@.map_values(|e: Event| e@) == old(self)@.events,
            final(self)@ == (EngView { events: Seq::<Ev>::empty(), ..old(self)@ }),
    {
        let mut out: Vec<Event> = Vec::new();
        core::mem::swap(&mut self.events, &mut out);
        proof {
            assert(self.events@.map_values(|e: Event| e@) =~= Seq::<Ev>::empty());
            assert(self@ =~= (EngView { events: Seq::<Ev>::empty(), ..old(self)@ }));
        }
        out
    }

    /// Makes bytes received from the peer available to the engine. The
    /// owner's pump calls this with whatever the socket delivered.
    pub fn feed(&mut self, bytes: &Vec<u8>)
        requires
            old(self).wf(),
        ensures
            final(self).wf(),
            final(self)@ == (EngView { avail: old(self)@.avail + bytes@, ..old(self)@ }),
    {
        self.t.feed(bytes);
        proof {
            assert(self@ =~= (EngView { avail: old(self)@.avail + bytes@, ..old(self)@ }));
        }
    }

    /// Drains the bytes the engine has written for the peer. The owner's
    /// pump sends them over the socket.
    pub fn take_outgoing(&mut self) -> (r: Vec<u8>)
        requires
            old(self).wf(),
        ensures
            final(self).wf(),
            r@ == old(self)@.sent,
            final(self)@ == (EngView { sent: Seq::<u8>::empty(), ..old(self)@ }),
    {
        let r = self.t.take_sent();
        proof {
            assert(self@ =~= (EngView { sent: Seq::<u8>::empty(), ..old(self)@ }));
        }
        r
    }

    /// Records that the peer has closed its sending half: once the buffered
    /// bytes are consumed, reads report the lost connection.
    pub fn set_peer_eof(&mut self)
        requires
            old(self).wf(),
        ensures
            final(self).wf(),
            final(self)@ == (EngView { peer_eof: true, ..old(self)@ }),
    {
        self.t.set_peer_eof();
        proof {
            assert(self@ =~= (EngView { peer_eof: true, ..old(self)@ }));
        }
    }

    fn push_event(&mut self, e: Event)
        requires
            old(self).wf(),
        ensures
            final(self).wf(),
            final(self)@ == (EngView { events: old(self)@.events.push(e@), ..old(self)@ }),
    {
        self.events.push(e);
        proof {
            assert(self.events@.map_values(|ev: Event| ev@) =~= old(self).events@.map_values(
                |ev: Event| ev@,
            ).push(e@));
            assert(self@ =~= (EngView { events: old(self)@.events.push(e@), ..old(self)@ }));
        }
    }

    /// Shuts the connection down. The first call fires `ChatClose` and closes
    /// the transport; any further call changes nothing. Always succeeds.
    pub fn close(&mut self) -> (r: Result<(), TalkError>)
        requires
            old(self).wf(),
        ensures
            final(self).wf(),
            r is Ok,
            final(self)@ == close_step(old(self)@),
    {
        if self.closed {
            proof {
                assert(self@ =~= close_step(old(self)@));
            }
            return Ok(());
        }
        self.push_event(Event::ChatClose);
        self.closed = true;
        self.t.shutdown();
        proof {
            assert(self@ =~= close_step(old(self)@));
        }
        Ok(())
    }

    /// Writes our half of the handshake: the literal `/talkers`.
    pub fn perform_handshake(&mut self) -> (r: Result<(), TalkError>)
        requires
            old(self).wf(),
        ensures
            final(self).wf(),
            final(self)@ == perform_handshake_step(old(self)@),
            r == perform_handshake_res(old(self)@),
    {
        let mut hs: Vec<u8> = Vec::new();
        hs.push(47);
        hs.push(116);
        hs.push(97);
        hs.push(108);
        hs.push(107);
        hs.push(101);
        hs.push(114);
        hs.push(115);
        proof {
            assert(hs@ =~= handshake());
        }
        if self.t.write_all(&hs) {
            proof {
                assert(self@ =~= perform_handshake_step(old(self)@));
            }
            Ok(())
        } else {
            proof {
                assert(self@ =~= perform_handshake_step(old(self)@));
            }
            Err(TalkError::Io)
        }
    }

    /// Reads exactly 8 bytes and succeeds iff they are the literal
    /// `/talkers`; a mismatch is a protocol error, a short read an I/O error.
    pub fn expect_handshake(&mut self) -> (r: Result<(), TalkError>)
        requires
            old(self).wf(),
        ensures
            final(self).wf(),
            final(self)@ == expect_handshake_step(old(self)@),
            r == expect_handshake_res(old(self)@),
    {
        match self.t.read_exact(8) {
            None => {
                proof {
                    assert(self@ =~= expect_handshake_step(old(self)@));
                }
                Err(TalkError::Io)
            },
            Some(buf) => {
                proof {
                    assert(self@ =~= expect_handshake_step(old(self)@));
                }
                let ok = buf[0] == 47 && buf[1] == 116 && buf[2] == 97 && buf[3] == 108 && buf[4]
                    == 107 && buf[5] == 101 && buf[6] == 114 && buf[7] == 115;
                if ok {
                    proof {
                        assert(buf@ =~= handshake());
                    }
                    Ok(())
                } else {
                    proof {
                        assert(buf@ != handshake());
                    }
                    Err(TalkError::Protocol)
                }
            },
        }
    }

    /// Emits a message frame for `msg` and fires `HashOfSent` with the
    /// digest of its bytes. Does not wait for the peer's acknowledgement;
    /// callers pair it with `expect_hash`.
    pub fn send(&mut self, msg: &str) -> (r: Result<(), TalkError>)
        requires
            old(self).wf(),
        ensures
            final(self).wf(),
            final(self)@ == send_step(old(self)@, msg.spec_bytes()),
            r == send_res(old(self)@),
    {
        let bytes: Vec<u8> = msg.as_bytes_vec();
        let mut header: Vec<u8> = Vec::new();
        header.push(INSTR_MSG);
        let mut dec = crate::wire::to_decimal(bytes.len() as u128);
        header.append(&mut dec);
        header.push(10);
        proof {
            assert(header@ =~= seq![INSTR_MSG] + dec_digits(bytes@.len()) + seq![10u8]);
        }
        if !self.t.write_all(&header) {
            proof {
                assert(self@ =~= send_step(old(self)@, msg.spec_bytes()));
            }
            return Err(TalkError::Io);
        }
        let ok = self.t.write_all(&bytes);
        proof {
            assert(ok);
        }
        let dg = sha256(&bytes);
        self.push_event(Event::HashOfSent(dg));
        proof {
            assert(self@.sent =~= old(self)@.sent + crate::wire::msg_frame(msg.spec_bytes()));
            assert(self@ =~= send_step(old(self)@, msg.spec_bytes()));
        }
        Ok(())
    }

    /// Emits a file frame: a header announcing `len`, the bytes of `data`,
    /// and a trailing hash frame over those bytes, then fires `HashOfSent`.
    /// `len` is the caller's claim; it is the caller's duty to make it agree
    /// with the data, and a mismatch leaves the receiver waiting.
    pub fn send_stream(&mut self, data: &Vec<u8>, len: u64) -> (r: Result<(), TalkError>)
        requires
            old(self).wf(),
        ensures
            final(self).wf(),
            final(self)@ == send_stream_step(old(self)@, data@, len),
            r == send_res(old(self)@),
    {
        let mut header: Vec<u8> = Vec::new();
        header.push(INSTR_FILE);
        let mut dec = crate::wire::to_decimal(len as u128);
        header.append(&mut dec);
        header.push(10);
        proof {
            assert(header@ =~= crate::wire::file_header(len as nat));
        }
        if !self.t.write_all(&header) {
            proof {
                assert(self@ =~= send_stream_step(old(self)@, data@, len));
            }
            return Err(TalkError::Io);
        }
        let ok = self.t.write_all(data);
        proof {
            assert(ok);
        }
        let ok2 = write_hash_frame(&mut self.t, data);
        proof {
            assert(ok2);
        }
        let dg = sha256(data);
        self.push_event(Event::HashOfSent(dg));
        proof {
            assert(self@.sent =~= old(self)@.sent + crate::wire::file_header(len as nat) + data@
                + hash_frame(data@));
            assert(self@ =~= send_stream_step(old(self)@, data@, len));
        }
        Ok(())
    }

    /// Waits for the peer's acknowledgement. A whole hash frame is consumed
    /// and fires `HashRcvd`; any other byte goes into the pushback queue —
    /// the sole writer of that queue — and the call reports that no hash
    /// came. A hash frame whose bytes have not all arrived is left in place
    /// and reported as pending, unless the peer is gone.
    pub fn expect_hash(&mut self) -> (r: Result<(), TalkError>)
        requires
            old(self).wf(),
        ensures
            final(self).wf(),
            final(self)@ == expect_hash_step(old(self)@),
            r == expect_hash_res(old(self)@),
    {
        self.t.set_nonblocking(false);
        if !self.t.up() {
            proof {
                assert(self@ =~= expect_hash_step(old(self)@));
            }
            return Err(TalkError::Io);
        }
        match self.t.peek(0) {
            None => {
                proof {
                    assert(self@ =~= expect_hash_step(old(self)@));
                }
                if self.t.at_eof() {
                    Err(TalkError::NotConnected)
                } else {
                    Err(TalkError::Pending)
                }
            },
            Some(b) => {
                if b != INSTR_HASH {
                    self.t.consume(1);
                    self.queue = Some(b);
                    proof {
                        assert(self@ =~= expect_hash_step(old(self)@));
                    }
                    Err(TalkError::NoHash)
                } else if self.t.buffered() >= 33 {
                    self.t.consume(1);
                    let dg = match self.t.read_exact(32) {
                        Some(d) => d,
                        None => {
                            proof {
                                assert(false);
                            }
                            Vec::new()
                        },
                    };
                    proof {
                        assert(dg@ =~= old(self)@.avail.subrange(1, 33));
                    }
                    self.push_event(Event::HashRcvd(dg));
                    proof {
                        assert(self@.avail =~= old(self)@.avail.skip(33));
                        assert(self@ =~= expect_hash_step(old(self)@));
                    }
                    Ok(())
                } else {
                    proof {
                        assert(self@ =~= expect_hash_step(old(self)@));
                    }
                    if self.t.at_eof() {
                        Err(TalkError::Io)
                    } else {
                        Err(TalkError::Pending)
                    }
                }
            },
        }
    }

    /// Consumes one instruction byte — from the pushback queue if it holds
    /// one, else from the stream — and processes its frame whole, as
    /// `read_step` and `read_res` say: a message or file frame is ingested
    /// and answered with a hash frame over whatever payload was drained; an
    /// unknown byte fires `InvalidInstr`. A frame whose bytes have not all
    /// arrived is left untouched and the call returns `Ok(false)`, so the
    /// next call — after more bytes were fed — picks it up whole; only with
    /// the peer gone does the truncated frame surface an I/O error. A
    /// message payload that is valid UTF-8 is decoded to exactly the
    /// characters it encodes.
    pub fn read_once(&mut self) -> (r: Result<bool, TalkError>)
        requires
            old(self).wf(),
        ensures
            final(self).wf(),
            r == read_res(old(self)@),
            exists|ns: nat| final(self)@ == read_step(old(self)@, ns),
            (match msg_payload_of(old(self)@) {
                Some(p) => valid_utf8(p) ==> lossy_chars(p) == decode_utf8(p),
                None => true,
            }),
    {
        let ghost st_pre = self@;
        if !self.t.up() {
            proof {
                assert(self@ =~= read_step(st_pre, 0));
            }
            return Err(TalkError::Io);
        }
        let instr: u8;
        let from_queue: bool;
        match self.queue {
            Some(b) => {
                instr = b;
                from_queue = true;
            },
            None => {
                match self.t.peek(0) {
                    Some(b) => {
                        instr = b;
                        from_queue = false;
                    },
                    None => {
                        proof {
                            assert(self@ =~= read_step(st_pre, 0));
                        }
                        if self.t.at_eof() {
                            return Err(TalkError::NotConnected);
                        }
                        return Ok(false);
                    },
                }
            },
        }
        let off: usize = if from_queue {
            0
        } else {
            1
        };
        let ghost fa = frame_bytes(st_pre, from_queue);
        proof {
            assert(fa =~= self.t.avail().skip(off as int));
        }
        if instr != INSTR_MSG && instr != INSTR_FILE {
            if from_queue {
                self.queue = None;
            } else {
                self.t.consume(1);
            }
            self.push_event(Event::InvalidInstr(instr));
            proof {
                assert(self@ =~= dispatch_step(st_pre, instr, from_queue, 0));
                assert(self@ =~= read_step(st_pre, 0));
                assert(msg_payload_of(st_pre) is None);
            }
            return Ok(false);
        }
        match peek_length(&self.t, off) {
            LenScan::More => {
                proof {
                    assert(self@ =~= read_step(st_pre, 0));
                    assert(msg_payload_of(st_pre) is None);
                }
                if self.t.at_eof() {
                    return Err(TalkError::Io);
                }
                return Ok(false);
            },
            LenScan::Bad(used) => {
                if from_queue {
                    self.queue = None;
                } else {
                    self.t.consume(1);
                }
                self.t.set_nonblocking(false);
                self.t.consume(used);
                let empty: Vec<u8> = Vec::new();
                let ok = write_hash_frame(&mut self.t, &empty);
                proof {
                    assert(ok);
                    assert(self@ =~= dispatch_step(st_pre, instr, from_queue, 0));
                    assert(self@ =~= read_step(st_pre, 0));
                    assert(msg_payload_of(st_pre) is None);
                }
                return Ok(true);
            },
            LenScan::Fin(n, used) => {
                proof {
                    crate::wire::lemma_pow10_16();
                    self.t.lemma_avail_fits();
                }
                if instr == INSTR_MSG {
                    if n > MAX_MSG_LEN {
                        if from_queue {
                            self.queue = None;
                        } else {
                            self.t.consume(1);
                        }
                        self.t.set_nonblocking(false);
                        self.t.consume(used);
                        self.push_event(Event::PayloadTooLarge(n));
                        let empty: Vec<u8> = Vec::new();
                        let ok = write_hash_frame(&mut self.t, &empty);
                        proof {
                            assert(ok);
                            assert(self@ =~= dispatch_step(st_pre, instr, from_queue, 0));
                            assert(self@ =~= read_step(st_pre, 0));
                            assert(msg_payload_of(st_pre) is None);
                        }
                        return Ok(true);
                    }
                    let have = self.t.buffered();
                    if ((have - off) - used) as u64 >= n {
                        if from_queue {
                            self.queue = None;
                        } else {
                            self.t.consume(1);
                        }
                        self.t.set_nonblocking(false);
                        self.t.consume(used);
                        let data = match self.t.read_exact(n as usize) {
                            Some(d) => d,
                            None => {
                                proof {
                                    assert(false);
                                }
                                Vec::new()
                            },
                        };
                        let text = decode_lossy(&data);
                        self.push_event(Event::MsgNew(text));
                        let ok = write_hash_frame(&mut self.t, &data);
                        proof {
                            assert(ok);
                            assert(self@ =~= dispatch_step(st_pre, instr, from_queue, 0));
                            assert(self@ =~= read_step(st_pre, 0));
                            assert(msg_payload_of(st_pre) == Some(data@));
                        }
                        return Ok(true);
                    }
                    proof {
                        assert(self@ =~= read_step(st_pre, 0));
                        assert(msg_payload_of(st_pre) is None);
                    }
                    if self.t.at_eof() {
                        return Err(TalkError::Io);
                    }
                    return Ok(false);
                }
                let accepted = match self.file_limit {
                    Some(m) => n <= m,
                    None => false,
                };
                if !accepted {
                    if from_queue {
                        self.queue = None;
                    } else {
                        self.t.consume(1);
                    }
                    self.t.set_nonblocking(false);
                    self.t.consume(used);
                    let empty: Vec<u8> = Vec::new();
                    let ok = write_hash_frame(&mut self.t, &empty);
                    proof {
                        assert(ok);
                        assert(self@ =~= dispatch_step(st_pre, instr, from_queue, 0));
                        assert(self@ =~= read_step(st_pre, 0));
                        assert(msg_payload_of(st_pre) is None);
                    }
                    return Ok(true);
                }
                let have = self.t.buffered();
                let rem: usize = (have - off) - used;
                if n <= (usize::MAX as u64) && rem >= (n as usize) {
                    let trailer_here = rem - (n as usize) >= 33;
                    if trailer_here || self.t.at_eof() {
                        let ns = now_nanos();
                        if from_queue {
                            self.queue = None;
                        } else {
                            self.t.consume(1);
                        }
                        self.t.set_nonblocking(false);
                        self.t.consume(used);
                        let data = match self.t.read_exact(n as usize) {
                            Some(d) => d,
                            None => {
                                proof {
                                    assert(false);
                                }
                                Vec::new()
                            },
                        };
                        let dg = sha256(&data);
                        if trailer_here {
                            let ghost a1 = fa.skip(used as int).skip(n as int);
                            let trailer = match self.t.read_exact(33) {
                                Some(t) => t,
                                None => {
                                    proof {
                                        assert(false);
                                    }
                                    Vec::new()
                                },
                            };
                            let ok = write_hash_frame(&mut self.t, &data);
                            proof {
                                assert(ok);
                            }
                            let name1 = make_transfer_name(ns);
                            self.push_event(Event::FileComplete { name: name1, data });
                            if trailer[0] == INSTR_HASH {
                                let mut dgp: Vec<u8> = Vec::new();
                                let mut j: usize = 1;
                                while j < 33
                                    invariant
                                        1 <= j <= 33,
                                        trailer@.len() == 33,
                                        dgp@ == trailer@.subrange(1, j as int),
                                    decreases 33 - j,
                                {
                                    dgp.push(trailer[j]);
                                    proof {
                                        assert(dgp@ =~= trailer@.subrange(1, j + 1));
                                    }
                                    j = j + 1;
                                }
                                proof {
                                    assert(trailer@ =~= a1.take(33));
                                    assert(dgp@ =~= a1.subrange(1, 33));
                                }
                                let name2 = make_transfer_name(ns);
                                self.push_event(
                                    Event::FileHashByPeer { name: name2, digest: dgp },
                                );
                            }
                            let name3 = make_transfer_name(ns);
                            self.push_event(Event::FileOurHash { name: name3, digest: dg });
                            proof {
                                assert(self@ =~= dispatch_step(st_pre, instr, from_queue, ns as nat));
                                assert(self@ =~= read_step(st_pre, ns as nat));
                                assert(msg_payload_of(st_pre) is None);
                            }
                            return Ok(true);
                        }
                        // the peer is gone: no trailer will come; finish without it
                        let ok = write_hash_frame(&mut self.t, &data);
                        proof {
                            assert(ok);
                        }
                        let name1 = make_transfer_name(ns);
                        self.push_event(Event::FileComplete { name: name1, data });
                        let name3 = make_transfer_name(ns);
                        self.push_event(Event::FileOurHash { name: name3, digest: dg });
                        proof {
                            assert(self@ =~= dispatch_step(st_pre, instr, from_queue, ns as nat));
                            assert(self@ =~= read_step(st_pre, ns as nat));
                            assert(msg_payload_of(st_pre) is None);
                        }
                        return Ok(true);
                    }
                    proof {
                        assert(self@ =~= read_step(st_pre, 0));
                        assert(msg_payload_of(st_pre) is None);
                    }
                    return Ok(false);
                }
                proof {
                    assert(self@ =~= read_step(st_pre, 0));
                    assert(msg_payload_of(st_pre) is None);
                }
                if self.t.at_eof() {
                    return Err(TalkError::Io);
                }
                return Ok(false);
            },
        }
    }

    /// Polls: switches the transport to non-blocking, runs `read_once`, and
    /// restores blocking mode. Returns `Ok(false)` promptly when no
    /// instruction byte is waiting.
    pub fn read_maybe(&mut self) -> (r: Result<bool, TalkError>)
        requires
            old(self).wf(),
        ensures
            final(self).wf(),
            r == read_maybe_res(old(self)@),
            exists|ns: nat| final(self)@ == read_maybe_step(old(self)@, ns),
            (match msg_payload_of(EngView { nonblocking: true, ..old(self)@ }) {
                Some(p) => valid_utf8(p) ==> lossy_chars(p) == decode_utf8(p),
                None => true,
            }),
    {
        let ghost stnb = EngView { nonblocking: true, ..old(self)@ };
        self.t.set_nonblocking(true);
        proof {
            assert(self@ =~= stnb);
        }
        let r = self.read_once();
        let ghost mid = self@;
        self.t.set_nonblocking(false);
        proof {
            let ns = choose|ns: nat| mid == read_step(stnb, ns);
            assert(mid == read_step(stnb, ns));
            assert(self@ =~= read_maybe_step(old(self)@, ns));
        }
        r
    }
}

} // verus!
