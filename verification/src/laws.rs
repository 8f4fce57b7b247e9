//! The protocol's laws, stated over the same step functions that the
//! engine's contracts use, and proved once for all states.

use vstd::prelude::*;

use crate::digest::{digest_of, hash_frame};
use crate::talker::{
    close_step, dispatch_step, expect_hash_res, expect_hash_step, expect_handshake_res,
    expect_handshake_step, file_accepted, instr_of, perform_handshake_res, perform_handshake_step,
    read_res, read_step, send_res, send_step, EngView, Ev, TalkError,
};
use crate::wire::{
    dec_digits, file_header, handshake, is_digit, lemma_pow10_15, lemma_scan_all_digits_aborts,
    lemma_scan_of_length, msg_frame, pow10, scan_len, transfer_name, ScanLen, INSTR_HASH,
    INSTR_MSG, MAX_MSG_LEN,
};

verus! {

/// Handshake symmetry: `perform_handshake` writes exactly the 8-byte
/// literal, and `expect_handshake` accepts exactly it — so two engines that
/// exchange their handshakes in either order both succeed.
pub proof fn lemma_handshake_symmetry(a: EngView, b: EngView, rest: Seq<u8>)
    requires
        a.up,
        b.up,
        b.avail == handshake() + rest,
    ensures
        perform_handshake_res(a) is Ok,
        perform_handshake_step(a).sent == a.sent + handshake(),
        expect_handshake_res(b) is Ok,
        expect_handshake_step(b).avail == rest,
{
    assert(b.avail.take(8) =~= handshake());
    assert(b.avail.skip(8) =~= rest);
}

/// Round trip of a message: `read_once` on exactly what `send` put on the
/// wire — for a payload within the size bound — fires `MsgNew` with the
/// lossy decoding of the payload, answers with the payload's hash frame,
/// and consumes exactly the frame.
pub proof fn lemma_msg_roundtrip(st: EngView, payload: Seq<u8>, rest: Seq<u8>, ns: nat)
    requires
        st.queue is None,
        st.up,
        st.avail == msg_frame(payload) + rest,
        payload.len() <= MAX_MSG_LEN as nat,
    ensures
        read_res(st) == Ok::<bool, TalkError>(true),
        read_step(st, ns).events == st.events.push(Ev::MsgNew(crate::text::lossy_chars(payload))),
        read_step(st, ns).sent == st.sent + hash_frame(payload),
        read_step(st, ns).avail == rest,
        read_step(st, ns).queue is None,
{
    lemma_pow10_15();
    let l = dec_digits(payload.len()).len() as int;
    assert(st.avail[0] == INSTR_MSG);
    let a0 = st.avail.skip(1);
    assert(a0 =~= dec_digits(payload.len()) + seq![10u8] + (payload + rest));
    lemma_scan_of_length(payload.len(), 10u8, payload + rest);
    assert(scan_len(a0) == (ScanLen::Fin { value: payload.len(), used: l + 1 }));
    let a2 = a0.skip(l + 1);
    assert(a2 =~= payload + rest);
    assert(a2.take(payload.len() as int) =~= payload);
    assert(a2.skip(payload.len() as int) =~= rest);
}

/// Hash law: the digest that `send` fires in `HashOfSent` is the digest of
/// the payload, the hash frame the receiver answers with carries that same
/// digest, and `expect_hash` on that frame fires it in `HashRcvd`.
pub proof fn lemma_hash_law(sender: EngView, payload: Seq<u8>, rest: Seq<u8>)
    requires
        sender.up,
        sender.avail == hash_frame(payload) + rest,
    ensures
        send_res(sender) is Ok,
        send_step(sender, payload).events == sender.events.push(
            Ev::HashOfSent(digest_of(payload)),
        ),
        expect_hash_res(sender) is Ok,
        expect_hash_step(sender).events == sender.events.push(Ev::HashRcvd(digest_of(payload))),
        expect_hash_step(sender).avail == rest,
{
    assert(sender.avail[0] == INSTR_HASH);
    assert(sender.avail.len() == 33 + rest.len());
    assert(sender.avail.subrange(1, 33) =~= digest_of(payload));
    assert(sender.avail.skip(33) =~= rest);
}

/// File integrity: `read_once` on exactly what `send_stream` put on the
/// wire — a header announcing the true length, the payload, its hash
/// trailer — with transfers accepted, records the file content exactly, and
/// both `FileHashByPeer` and `FileOurHash` carry the payload's digest.
pub proof fn lemma_file_roundtrip(st: EngView, payload: Seq<u8>, rest: Seq<u8>, ns: nat)
    requires
        st.queue is None,
        st.up,
        file_accepted(st, payload.len()),
        st.avail == file_header(payload.len()) + payload + hash_frame(payload) + rest,
        payload.len() < pow10(15),
    ensures
        read_res(st) == Ok::<bool, TalkError>(true),
        read_step(st, ns).events == st.events.push(
            Ev::FileComplete { name: transfer_name(ns), data: payload },
        ).push(Ev::FileHashByPeer { name: transfer_name(ns), digest: digest_of(payload) }).push(
            Ev::FileOurHash { name: transfer_name(ns), digest: digest_of(payload) },
        ),
        read_step(st, ns).sent == st.sent + hash_frame(payload),
        read_step(st, ns).avail == rest,
{
    let l = dec_digits(payload.len()).len() as int;
    assert(st.avail[0] == crate::wire::INSTR_FILE);
    let a0 = st.avail.skip(1);
    assert(a0 =~= dec_digits(payload.len()) + seq![10u8] + (payload + (hash_frame(payload)
        + rest)));
    lemma_scan_of_length(payload.len(), 10u8, payload + (hash_frame(payload) + rest));
    assert(scan_len(a0) == (ScanLen::Fin { value: payload.len(), used: l + 1 }));
    let a2 = a0.skip(l + 1);
    assert(a2 =~= payload + (hash_frame(payload) + rest));
    assert(a2.take(payload.len() as int) =~= payload);
    let a3 = a2.skip(payload.len() as int);
    assert(a3 =~= hash_frame(payload) + rest);
    assert(a3.len() >= 33);
    assert(a3[0] == INSTR_HASH);
    assert(a3.subrange(1, 33) =~= digest_of(payload));
    assert(a3.skip(33) =~= rest);
}

/// The pushback queue is one deep: a non-hash byte met by `expect_hash` is
/// queued, and it — not the stream — is exactly the instruction the next
/// `read_once` processes.
pub proof fn lemma_queue_one_deep(st: EngView, ns: nat)
    requires
        st.up,
        st.avail.len() > 0,
        st.avail[0] != INSTR_HASH,
    ensures
        expect_hash_res(st) == Err::<(), TalkError>(TalkError::NoHash),
        expect_hash_step(st).queue == Some(st.avail[0]),
        read_step(expect_hash_step(st), ns) == dispatch_step(
            expect_hash_step(st),
            st.avail[0],
            true,
            ns,
        ),
{
}

/// Close is idempotent: it always succeeds, a second close changes nothing,
/// `ChatClose` fires at most once, and any later `send` fails with an I/O
/// error.
pub proof fn lemma_close_idempotent(st: EngView)
    ensures
        close_step(close_step(st)) == close_step(st),
        close_step(st).closed,
        !st.closed ==> close_step(st).events == st.events.push(Ev::ChatClose),
        st.closed ==> close_step(st).events == st.events,
        !st.closed ==> send_res(close_step(st)) == Err::<(), TalkError>(TalkError::Io),
{
}

/// Frame atomicity, the waiting half: when `read_once` reports that nothing
/// was processed and an instruction byte is absent or well-formed, the state
/// is untouched — a frame whose bytes are still underway is picked up whole
/// by the retry after more bytes were fed.
pub proof fn lemma_partial_frame_untouched(st: EngView, ns: nat)
    requires
        read_res(st) == Ok::<bool, TalkError>(false),
        match instr_of(st) {
            Some(b) => b == INSTR_MSG || b == crate::wire::INSTR_FILE,
            None => true,
        },
    ensures
        read_step(st, ns) == st,
{
}

/// Frame atomicity, the failing half: when `read_once` fails — the
/// transport down, the peer gone at an instruction boundary, or a frame
/// truncated by the peer's disconnect — the error propagates and the state
/// is untouched.
pub proof fn lemma_failed_read_changes_nothing(st: EngView, ns: nat)
    requires
        read_res(st) is Err,
    ensures
        read_step(st, ns) == st,
{
}

/// The length parser's cap: a prefix of nothing but ASCII digits through
/// its first 16 bytes never yields a length — with 16 digits in view the
/// scan is hard-aborted, and with fewer it waits for more; either way no
/// payload is touched.
pub proof fn lemma_length_scan_cap(s: Seq<u8>)
    requires
        forall|j: int| 0 <= j < 16 && j < s.len() ==> is_digit(#[trigger] s[j]),
    ensures
        !(scan_len(s) is Fin),
        s.len() >= 16 ==> scan_len(s) == (ScanLen::Bad { used: 16 }),
{
    lemma_scan_all_digits_aborts(s, 0, 0);
}

} // verus!
