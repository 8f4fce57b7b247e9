//! Parsing of the shell's `<id> <rest>` command arguments: a decimal chat id
//! followed by the offset at which the rest of the line starts.

use vstd::prelude::*;

use vstd::string::StrSliceExecFns;

verus! {

/// The Unicode whitespace characters, as `char::is_whitespace` reports them.
pub open spec fn is_space_char(c: char) -> bool {
    (9 <= c as u32 && c as u32 <= 13) || c as u32 == 32 || c as u32 == 133 || c as u32 == 160
        || c as u32 == 0x1680 || (0x2000 <= c as u32 && c as u32 <= 0x200A) || c as u32 == 0x2028
        || c as u32 == 0x2029 || c as u32 == 0x202F || c as u32 == 0x205F || c as u32 == 0x3000
}

pub open spec fn is_digit_char(c: char) -> bool {
    48 <= c as u32 <= 57
}

/// The first index at or after `i` holding a character that is not
/// whitespace; the length if there is none.
pub open spec fn trim_start_idx(s: Seq<char>, i: int) -> int
    recommends
        0 <= i <= s.len(),
    decreases s.len() - i,
{
    if i < 0 || i >= s.len() {
        s.len() as int
    } else if is_space_char(s[i]) {
        trim_start_idx(s, i + 1)
    } else {
        i
    }
}

/// The end of `s` once trailing whitespace before `j` is dropped.
pub open spec fn trim_end_idx(s: Seq<char>, j: int) -> int
    recommends
        0 <= j <= s.len(),
    decreases j,
{
    if j <= 0 {
        0
    } else if is_space_char(s[j - 1]) {
        trim_end_idx(s, j - 1)
    } else {
        j
    }
}

/// The first index at or after `i` holding a space; the length if none.
pub open spec fn token_end(s: Seq<char>, i: int) -> int
    recommends
        0 <= i <= s.len(),
    decreases s.len() - i,
{
    if i < 0 || i >= s.len() {
        s.len() as int
    } else if s[i] as u32 == 32 {
        i
    } else {
        token_end(s, i + 1)
    }
}

/// `s` with whitespace removed from both ends, as `str::trim` leaves it.
pub open spec fn trimmed(s: Seq<char>) -> Seq<char> {
    if trim_start_idx(s, 0) < trim_end_idx(s, s.len() as int) {
        s.subrange(trim_start_idx(s, 0), trim_end_idx(s, s.len() as int))
    } else {
        Seq::<char>::empty()
    }
}

/// The first space-separated token of the trimmed line.
pub open spec fn first_token(s: Seq<char>) -> Seq<char> {
    trimmed(s).take(token_end(trimmed(s), 0))
}

/// The token with one optional leading `+` stripped, as `usize::from_str`
/// allows it.
pub open spec fn digits_of(t: Seq<char>) -> Seq<char> {
    if t.len() > 0 && t[0] as u32 == 43 {
        t.skip(1)
    } else {
        t
    }
}

pub open spec fn all_digit_chars(s: Seq<char>) -> bool {
    forall|i: int| 0 <= i < s.len() ==> is_digit_char(#[trigger] s[i])
}

/// The value of a run of decimal digit characters, most significant first.
pub open spec fn dec_value_chars(t: Seq<char>) -> nat
    decreases t.len(),
{
    if t.len() == 0 {
        0
    } else {
        (dec_value_chars(t.drop_last()) * 10 + (t.last() as u32 - 48)) as nat
    }
}

/// What `try_parse` yields on the characters of a command line: the first
/// space-separated token of the trimmed line must parse as a `usize` — one
/// or more decimal digits after an optional `+` — and the result pairs that
/// value with the offset one past the token.
pub open spec fn parsed_command(s: Seq<char>) -> Option<(nat, nat)> {
    if digits_of(first_token(s)).len() > 0 && all_digit_chars(digits_of(first_token(s)))
        && dec_value_chars(digits_of(first_token(s))) <= usize::MAX as nat && first_token(s).len()
        + 1 <= usize::MAX as nat {
        Some((dec_value_chars(digits_of(first_token(s))), (first_token(s).len() + 1) as nat))
    } else {
        None
    }
}

fn is_space(c: char) -> (r: bool)
    ensures
        r == is_space_char(c),
{
    let u = c as u32;
    (9 <= u && u <= 13) || u == 32 || u == 133 || u == 160 || u == 0x1680 || (0x2000 <= u && u
        <= 0x200A) || u == 0x2028 || u == 0x2029 || u == 0x202F || u == 0x205F || u == 0x3000
}

/// Reads a chat id off the front of a command line: the id and the offset
/// just past it, or nothing if the first token is not a number.
pub fn try_parse(buf: &str) -> (r: Option<(usize, usize)>)
    ensures
        r is Some ==> parsed_command(buf@) == Some((r.unwrap().0 as nat, r.unwrap().1 as nat)),
        r is None ==> parsed_command(buf@) is None,
{
    let n: usize = buf.unicode_len();
    let mut a: usize = 0;
    while a < n && is_space(buf.get_char(a))
        invariant
            n as int == buf@.len(),
            a <= n,
            trim_start_idx(buf@, 0) == trim_start_idx(buf@, a as int),
        decreases n - a,
    {
        a = a + 1;
    }
    proof {
        assert(trim_start_idx(buf@, 0) == a as int);
    }
    let mut e: usize = n;
    while e > a && is_space(buf.get_char(e - 1))
        invariant
            n as int == buf@.len(),
            a <= e <= n,
            trim_end_idx(buf@, buf@.len() as int) == trim_end_idx(buf@, e as int),
        decreases e,
    {
        e = e - 1;
    }
    if a >= e {
        // nothing but whitespace: no token
        proof {
            lemma_trim_end_le(buf@, e as int);
            assert(trimmed(buf@) =~= Seq::<char>::empty());
            assert(first_token(buf@) =~= Seq::<char>::empty());
            assert(digits_of(first_token(buf@)) =~= Seq::<char>::empty());
        }
        return None;
    }
    proof {
        assert(!is_space_char(buf@[e - 1]));
        assert(trim_end_idx(buf@, buf@.len() as int) == e as int);
        if is_space_char(buf@[a as int]) {
            lemma_trim_start_ge(buf@, a as int + 1);
            assert(false);
        }
    }
    let ghost t = buf@.subrange(a as int, e as int);
    proof {
        assert(trimmed(buf@) == t);
    }
    // one optional leading plus sign, as `usize::from_str` takes it
    let start: usize = if (buf.get_char(a) as u32) == 43 {
        a + 1
    } else {
        a
    };
    let mut i: usize = start;
    let mut val: usize = 0;
    while i < e && (buf.get_char(i) as u32) != 32
        invariant
            n as int == buf@.len(),
            a <= start <= i <= e <= n,
            start <= a + 1,
            a < e,
            start == a + 1 ==> buf@[a as int] as u32 == 43,
            start == a ==> buf@[a as int] as u32 != 43,
            trim_start_idx(buf@, 0) == a as int,
            trim_end_idx(buf@, buf@.len() as int) == e as int,
            t == buf@.subrange(a as int, e as int),
            trimmed(buf@) == t,
            token_end(t, 0) == token_end(t, i - a),
            forall|j: int| start - a <= j < i - a ==> is_digit_char(#[trigger] t[j]),
            dec_value_chars(t.subrange(start - a, i - a)) == val as nat,
        decreases e - i,
    {
        let c = buf.get_char(i);
        let u = c as u32;
        proof {
            assert(t[i - a] == buf@[i as int]);
            lemma_token_end_le(t, i - a + 1);
            assert(token_end(t, 0) > i - a);
        }
        if u < 48 || u > 57 {
            // a non-digit inside the token: not a number
            proof {
                lemma_token_end_le(t, 0);
                let k = token_end(t, 0);
                let tok = t.take(k);
                assert(buf@.subrange(
                    trim_start_idx(buf@, 0),
                    trim_end_idx(buf@, buf@.len() as int),
                ) == t);
                assert(first_token(buf@) == tok);
                let d = digits_of(tok);
                assert(0 <= i - start < d.len());
                assert(d[i - start] == t[i - a]);
                assert(!is_digit_char(d[i - start]));
            }
            return None;
        }
        proof {
            lemma_dec_value_chars_snoc(t, start - a, i - a);
        }
        let dv = (u - 48) as usize;
        let v10 = match val.checked_mul(10) {
            Some(v) => v,
            None => {
                proof {
                    overflow_means_no_parse(
                        buf@,
                        t,
                        a as int,
                        start as int,
                        e as int,
                        i as int,
                        val as nat,
                    );
                }
                return None;
            },
        };
        let sum = match v10.checked_add(dv) {
            Some(v) => v,
            None => {
                proof {
                    overflow_means_no_parse(
                        buf@,
                        t,
                        a as int,
                        start as int,
                        e as int,
                        i as int,
                        val as nat,
                    );
                }
                return None;
            },
        };
        val = sum;
        i = i + 1;
    }
    proof {
        lemma_token_end_le(t, 0);
        if i < e {
            assert(t[i - a] == buf@[i as int]);
        }
        assert(token_end(t, 0) == i - a);
        assert(buf@.subrange(trim_start_idx(buf@, 0), trim_end_idx(buf@, buf@.len() as int)) == t);
        assert(first_token(buf@) == t.take(i - a));
    }
    if i == start {
        // no digits at all (an empty token or a bare sign)
        proof {
            if start == a + 1 {
                assert(first_token(buf@)[0] == t[0]);
                assert(digits_of(first_token(buf@)) =~= t.take(i - a).skip(1));
            } else {
                if i == a {
                    assert(buf@[a as int] as u32 == 32);
                    assert(false);
                }
            }
            assert(digits_of(first_token(buf@)).len() == 0);
        }
        return None;
    }
    proof {
        if start == a + 1 {
            assert(first_token(buf@)[0] == t[0]);
            assert(digits_of(first_token(buf@)) =~= t.take(i - a).skip(1));
            assert(t.take(i - a).skip(1) =~= t.subrange(start - a, i - a));
        } else {
            assert(digits_of(first_token(buf@)) =~= t.subrange(start - a, i - a));
        }
        assert(all_digit_chars(digits_of(first_token(buf@))));
    }
    if i - a < usize::MAX {
        Some((val, i - a + 1))
    } else {
        // a token this long cannot carry its offset in a usize
        proof {
            assert(first_token(buf@).len() + 1 > usize::MAX as nat);
        }
        None
    }
}

/// Appending one digit multiplies the value by ten and adds it.
proof fn lemma_dec_value_chars_snoc(t: Seq<char>, s: int, i: int)
    requires
        0 <= s <= i < t.len(),
    ensures
        dec_value_chars(t.subrange(s, i + 1)) == (dec_value_chars(t.subrange(s, i)) * 10 + (
        t[i] as u32 - 48)) as nat,
{
    assert(t.subrange(s, i + 1).drop_last() =~= t.subrange(s, i));
    assert(t.subrange(s, i + 1).last() == t[i]);
}

/// A digit string's value only grows as digits are appended.
proof fn lemma_dec_value_chars_prefix(t: Seq<char>, i: int)
    requires
        0 <= i <= t.len(),
        all_digit_chars(t),
    ensures
        dec_value_chars(t.take(i)) <= dec_value_chars(t),
    decreases t.len() - i,
{
    if i < t.len() {
        assert(t.take(i + 1).drop_last() =~= t.take(i));
        assert(t.take(i + 1).last() == t[i]);
        lemma_dec_value_chars_prefix(t, i + 1);
    } else {
        assert(t.take(i) =~= t);
    }
}

/// If one more digit overflows a `usize`, the whole token's value cannot
/// fit one either, whatever follows.
proof fn overflow_means_no_parse(b: Seq<char>, t: Seq<char>, a: int, s: int, e: int, i: int, val: nat)
    requires
        0 <= a <= s <= i < e <= b.len(),
        s <= a + 1,
        t == b.subrange(a, e),
        trimmed(b) == t,
        s == a + 1 ==> t[0] as u32 == 43,
        s == a ==> t[0] as u32 != 43,
        token_end(t, 0) > i - a,
        forall|j: int| s - a <= j <= i - a ==> is_digit_char(#[trigger] t[j]),
        dec_value_chars(t.subrange(s - a, i - a)) == val,
        val * 10 + (t[i - a] as u32 - 48) > usize::MAX,
    ensures
        parsed_command(b) is None,
{
    let k = token_end(t, 0);
    let tok = first_token(b);
    lemma_token_end_le(t, 0);
    assert(tok == t.take(k));
    let d = digits_of(tok);
    if s == a + 1 {
        assert(tok[0] == t[0]);
        assert(d =~= tok.skip(1));
    } else {
        assert(d =~= tok);
    }
    if all_digit_chars(d) && dec_value_chars(d) <= usize::MAX as nat {
        assert(i - s + 1 <= d.len());
        assert(d.take(i - s) =~= t.subrange(s - a, i - a));
        assert(d.take(i - s + 1) =~= t.subrange(s - a, i - a + 1));
        lemma_dec_value_chars_snoc(t, s - a, i - a);
        assert(d[i - s] == t[i - a]);
        assert(dec_value_chars(d.take(i - s + 1)) == (val * 10 + (t[i - a] as u32 - 48)) as nat);
        lemma_dec_value_chars_prefix(d, i - s + 1);
        assert(dec_value_chars(d) >= val * 10 + (t[i - a] as u32 - 48));
        assert(false);
    }
}

/// `trim_start_idx` never looks backwards.
proof fn lemma_trim_start_ge(s: Seq<char>, i: int)
    requires
        0 <= i <= s.len(),
    ensures
        i <= trim_start_idx(s, i) <= s.len(),
    decreases s.len() - i,
{
    if i < s.len() && is_space_char(s[i]) {
        lemma_trim_start_ge(s, i + 1);
    }
}

/// `trim_end_idx` never grows its bound.
proof fn lemma_trim_end_le(s: Seq<char>, j: int)
    requires
        0 <= j,
    ensures
        0 <= trim_end_idx(s, j) <= j,
    decreases j,
{
    if j > 0 && is_space_char(s[j - 1]) {
        lemma_trim_end_le(s, j - 1);
    }
}

/// `token_end` never passes the length.
proof fn lemma_token_end_le(s: Seq<char>, i: int)
    requires
        0 <= i <= s.len(),
    ensures
        i <= token_end(s, i) <= s.len(),
    decreases s.len() - i,
{
    if i < s.len() && s[i] as u32 != 32 {
        lemma_token_end_le(s, i + 1);
    }
}

} // verus!
