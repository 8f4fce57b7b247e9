//! The wire grammar: instruction bytes, ASCII decimal lengths, frames, and the
//! length scanner with its 16-character cap.

use vstd::prelude::*;

verus! {

/// Instruction byte announcing a message frame (`!`).
pub const INSTR_MSG: u8 = 0x21;

/// Instruction byte announcing a file frame (`#`).
pub const INSTR_FILE: u8 = 0x23;

/// Instruction byte announcing a hash frame (`=`).
pub const INSTR_HASH: u8 = 0x3D;

/// Largest inbound message payload, in bytes.
pub const MAX_MSG_LEN: u64 = 1048576;

/// Hard cap on bytes read while scanning a length, terminator included.
pub const LEN_SCAN_CAP: usize = 16;

pub open spec fn pow10(k: nat) -> nat
    decreases k,
{
    if k == 0 {
        1
    } else {
        10 * pow10((k - 1) as nat)
    }
}

pub proof fn lemma_pow10_pos(k: nat)
    ensures
        pow10(k) >= 1,
    decreases k,
{
    if k > 0 {
        lemma_pow10_pos((k - 1) as nat);
    }
}

pub proof fn lemma_pow10_mono(a: nat, b: nat)
    requires
        a <= b,
    ensures
        pow10(a) <= pow10(b),
    decreases b,
{
    if a < b {
        lemma_pow10_mono(a, (b - 1) as nat);
        lemma_pow10_pos((b - 1) as nat);
    }
}

pub proof fn lemma_pow10_15()
    ensures
        pow10(15) == 1000000000000000,
{
    reveal_with_fuel(pow10, 16);
}

pub proof fn lemma_pow10_16()
    ensures
        pow10(16) == 10000000000000000,
{
    reveal_with_fuel(pow10, 17);
}

pub open spec fn is_digit(b: u8) -> bool {
    48 <= b <= 57
}

pub open spec fn is_terminator(b: u8) -> bool {
    b == 10 || b == 32
}

/// The ASCII decimal rendering of `n`, most significant digit first.
pub open spec fn dec_digits(n: nat) -> Seq<u8>
    decreases n,
{
    if n < 10 {
        seq![(48 + n) as u8]
    } else {
        dec_digits(n / 10).push((48 + n % 10) as u8)
    }
}

pub proof fn lemma_dec_digits_len(n: nat, k: nat)
    requires
        n < pow10(k),
        k >= 1,
    ensures
        1 <= dec_digits(n).len() <= k,
    decreases n,
{
    if n >= 10 {
        assert(pow10(k) == 10 * pow10((k - 1) as nat));
        lemma_dec_digits_len(n / 10, (k - 1) as nat);
    }
}

/// The 8-byte handshake literal `/talkers`.
pub open spec fn handshake() -> Seq<u8> {
    seq![47u8, 116u8, 97u8, 108u8, 107u8, 101u8, 114u8, 115u8]
}

/// The wire form of a message frame: `!`, decimal length, newline, payload.
pub open spec fn msg_frame(payload: Seq<u8>) -> Seq<u8> {
    seq![INSTR_MSG] + dec_digits(payload.len()) + seq![10u8] + payload
}

/// The wire form of a file-frame header: `#`, decimal length, newline.
/// The announced length is the caller's claim; the payload follows separately.
pub open spec fn file_header(len: nat) -> Seq<u8> {
    seq![INSTR_FILE] + dec_digits(len) + seq![10u8]
}

/// The name under which a received file is recorded: `transfer_` followed by
/// a nanosecond timestamp in decimal.
pub open spec fn transfer_name(ns: nat) -> Seq<u8> {
    seq![116u8, 114u8, 97u8, 110u8, 115u8, 102u8, 101u8, 114u8, 95u8] + dec_digits(ns)
}

/// Outcome of scanning a length prefix: the parsed value and the bytes it
/// spans; a hard abort (a bad byte, or the 16-byte cap) and the bytes it
/// spans; or `More` — the buffered bytes ran out before either, so nothing
/// can be decided until more arrive.
pub enum ScanLen {
    Fin { value: nat, used: int },
    Bad { used: int },
    More,
}

/// One step of the length scanner, at position `i` with accumulator `acc`.
/// At most 16 bytes are ever examined, the terminator included.
pub open spec fn scan_len_rec(s: Seq<u8>, i: int, acc: nat) -> ScanLen
    recommends
        0 <= i <= 16,
    decreases 16 - i,
{
    if i >= 16 {
        ScanLen::Bad { used: i }
    } else if i >= s.len() {
        ScanLen::More
    } else if is_terminator(s[i]) {
        ScanLen::Fin { value: acc, used: i + 1 }
    } else if is_digit(s[i]) {
        scan_len_rec(s, i + 1, (acc * 10 + (s[i] - 48)) as nat)
    } else {
        ScanLen::Bad { used: i + 1 }
    }
}

/// What scanning a length prefix off the front of `s` yields.
pub open spec fn scan_len(s: Seq<u8>) -> ScanLen {
    scan_len_rec(s, 0, 0)
}

/// Scanning a run of decimal digits folds their value into the accumulator.
pub proof fn lemma_scan_digits(s: Seq<u8>, i: int, acc: nat, n: nat)
    requires
        0 <= i,
        i + dec_digits(n).len() <= 16,
        i + dec_digits(n).len() <= s.len(),
        s.subrange(i, i + dec_digits(n).len() as int) == dec_digits(n),
    ensures
        scan_len_rec(s, i, acc) == scan_len_rec(
            s,
            i + dec_digits(n).len() as int,
            (acc * pow10(dec_digits(n).len()) + n) as nat,
        ),
    decreases n,
{
    if n < 10 {
        assert(s[i] == dec_digits(n)[0]);
        assert(s[i] == (48 + n) as u8);
        assert(scan_len_rec(s, i, acc) == scan_len_rec(s, i + 1, (acc * 10 + n) as nat));
        assert(pow10(0) == 1);
        assert(pow10(1) == 10);
    } else {
        let d = dec_digits(n);
        let dp = dec_digits(n / 10);
        let lp = dp.len() as int;
        assert(d == dp.push((48 + n % 10) as u8));
        assert forall|j: int| 0 <= j < lp implies s.subrange(i, i + lp)[j] == dp[j] by {
            assert(s[i + j] == s.subrange(i, i + d.len() as int)[j]);
            assert(d[j] == dp[j]);
        }
        assert(s.subrange(i, i + lp) =~= dp);
        lemma_scan_digits(s, i, acc, n / 10);
        let acc1 = (acc * pow10(dp.len()) + n / 10) as nat;
        assert(s[i + lp] == s.subrange(i, i + d.len() as int)[lp]);
        assert(s[i + lp] == (48 + n % 10) as u8);
        assert(scan_len_rec(s, i + lp, acc1) == scan_len_rec(
            s,
            i + lp + 1,
            (acc1 * 10 + n % 10) as nat,
        ));
        assert(pow10(d.len()) == 10 * pow10(dp.len()));
        assert((acc * pow10(dp.len()) + n / 10) * 10 + n % 10 == acc * (10 * pow10(dp.len())) + (
        (n / 10) * 10 + n % 10)) by (nonlinear_arith);
        assert((n / 10) * 10 + n % 10 == n);
    }
}

/// A well-formed length prefix — up to 15 digits and a terminator — scans to
/// its value, consuming the digits and the terminator and nothing more.
pub proof fn lemma_scan_of_length(n: nat, term: u8, rest: Seq<u8>)
    requires
        n < pow10(15),
        is_terminator(term),
    ensures
        scan_len(dec_digits(n) + seq![term] + rest) == (ScanLen::Fin {
            value: n,
            used: dec_digits(n).len() as int + 1,
        }),
{
    let s = dec_digits(n) + seq![term] + rest;
    let l = dec_digits(n).len() as int;
    lemma_dec_digits_len(n, 15);
    assert(s.subrange(0, l) =~= dec_digits(n));
    lemma_scan_digits(s, 0, 0, n);
    assert(0 * pow10(dec_digits(n).len()) + n == n);
    assert(s[l] == term);
    assert(scan_len_rec(s, l, n) == (ScanLen::Fin { value: n, used: l + 1 }));
}

/// The scanner's cap: a run of nothing but digits never yields a length —
/// once 16 digit bytes are in view the scan is hard-aborted.
pub proof fn lemma_scan_all_digits_aborts(s: Seq<u8>, i: int, acc: nat)
    requires
        0 <= i <= 16,
        forall|j: int| i <= j < 16 && j < s.len() ==> is_digit(#[trigger] s[j]),
    ensures
        !(scan_len_rec(s, i, acc) is Fin),
        s.len() >= 16 ==> scan_len_rec(s, i, acc) == (ScanLen::Bad { used: 16 }),
    decreases 16 - i,
{
    if i < 16 && i < s.len() {
        lemma_scan_all_digits_aborts(s, i + 1, (acc * 10 + (s[i] - 48)) as nat);
    }
}

/// Renders `n` in ASCII decimal, most significant digit first.
pub fn to_decimal(n: u128) -> (r: Vec<u8>)
    ensures
        r@ == dec_digits(n as nat),
{
    // Digits are collected least significant first, then reversed.
    let mut rev: Vec<u8> = Vec::new();
    let d0: u8 = (n % 10) as u8;
    rev.push(48 + d0);
    let mut m: u128 = n / 10;
    proof {
        assert(rev@.reverse() =~= seq![(48 + (n as nat) % 10) as u8]);
        if n >= 10 {
            assert(dec_digits(n as nat) =~= dec_digits((n as nat) / 10) + rev@.reverse());
        } else {
            assert(dec_digits(n as nat) =~= rev@.reverse());
        }
    }
    while m > 0
        invariant
            m > 0 ==> dec_digits(n as nat) == dec_digits(m as nat) + rev@.reverse(),
            m == 0 ==> dec_digits(n as nat) == rev@.reverse(),
        decreases m,
    {
        let ghost old_m = m as nat;
        let ghost old_rev = rev@;
        let d: u8 = (m % 10) as u8;
        rev.push(48 + d);
        m = m / 10;
        proof {
            assert(rev@.reverse() =~= seq![(48 + old_m % 10) as u8] + old_rev.reverse());
            if old_m >= 10 {
                assert(dec_digits(old_m) == dec_digits(old_m / 10).push((48 + old_m % 10) as u8));
                assert(dec_digits(m as nat) + rev@.reverse() =~= dec_digits(old_m)
                    + old_rev.reverse());
            } else {
                assert(dec_digits(old_m) =~= seq![(48 + old_m) as u8]);
                assert(rev@.reverse() =~= dec_digits(old_m) + old_rev.reverse());
            }
        }
    }
    let mut r: Vec<u8> = Vec::new();
    let mut i: usize = rev.len();
    while i > 0
        invariant
            i <= rev@.len(),
            r@ == rev@.reverse().take(rev@.len() - i),
        decreases i,
    {
        i = i - 1;
        r.push(rev[i]);
        proof {
            assert(rev@.reverse()[rev@.len() - 1 - i] == rev@[i as int]);
            assert(r@ =~= rev@.reverse().take(rev@.len() - i));
        }
    }
    proof {
        assert(r@ =~= rev@.reverse());
    }
    r
}

} // verus!
