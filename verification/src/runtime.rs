//! The value conversions of the runtime library that compiled programs
//! call: between `i32`, `bool` and their text, with a success flag where a
//! text may not hold a value.
//!
//! The runtime hands strings over as bytes with a length; here they are
//! `&str`, and a string ends at its first NUL as the C functions read it.

use vstd::prelude::*;
use crate::text::{decimal, digit_char, push_decimal, push_str, string_of, chars_of};

verus! {

/// An `i32` and whether it was read (1) or not (0).
#[derive(Debug, Clone, Copy, PartialEq, Eq, Structural)]
pub struct KI32Bool {
    pub val: i32,
    pub ok: i32,
}

/// A `bool` (1 or 0) and whether it was read (1) or not (0).
#[derive(Debug, Clone, Copy, PartialEq, Eq, Structural)]
pub struct KBoolBool {
    pub val: i32,
    pub ok: i32,
}

/// The text of an `i32`: its decimal digits, after `-` when negative.
pub open spec fn i32_text(n: i32) -> Seq<char> {
    if n < 0 {
        "-"@ + decimal((-n) as nat)
    } else {
        decimal(n as nat)
    }
}

/// `str(n)` for an `i32`.
pub fn k_str_i32(n: i32) -> (r: String)
    ensures
        r@ == i32_text(n),
{
    if n < 0 {
        let m: i64 = -(n as i64);
        let mut s = string_of("-");
        push_decimal(&mut s, m as usize);
        s
    } else {
        let mut s = String::new();
        push_decimal(&mut s, n as usize);
        s
    }
}

/// `str(b)` for a `bool` passed as an integer (any non-zero is true).
pub fn k_str_bool(b: i32) -> (r: String)
    ensures
        r@ == (if b != 0 { "true"@ } else { "false"@ }),
{
    if b != 0 {
        string_of("true")
    } else {
        string_of("false")
    }
}

/// The characters a C function sees: those before the first NUL.
pub open spec fn c_text(cs: Seq<char>) -> Seq<char>
    decreases cs.len(),
{
    if cs.len() == 0 {
        cs
    } else if cs[0] == '\0' {
        Seq::empty()
    } else {
        seq![cs[0]] + c_text(cs.drop_first())
    }
}

/// The position of the first NUL, or the length.
fn c_len(cs: &Vec<char>) -> (r: usize)
    ensures
        r <= cs@.len(),
        c_text(cs@) == cs@.subrange(0, r as int),
{
    let mut i: usize = 0;
    assert(cs@.subrange(0, cs@.len() as int) =~= cs@);
    assert(cs@.subrange(0, 0) + c_text(cs@.subrange(0, cs@.len() as int)) =~= c_text(cs@));
    while i < cs.len() && cs[i] != '\0'
        invariant
            i <= cs@.len(),
            c_text(cs@) == cs@.subrange(0, i as int) + c_text(cs@.subrange(i as int, cs@.len() as int)),
        decreases cs@.len() - i,
    {
        let ghost rest = cs@.subrange(i as int, cs@.len() as int);
        assert(rest.drop_first() =~= cs@.subrange(i + 1, cs@.len() as int));
        assert(cs@.subrange(0, i + 1) =~= cs@.subrange(0, i as int) + seq![cs@[i as int]]);
        i += 1;
    }
    assert(c_text(cs@.subrange(i as int, cs@.len() as int)) =~= Seq::<char>::empty());
    assert(c_text(cs@) =~= cs@.subrange(0, i as int));
    i
}

/// `bool(s)`: `true` and `false` are read, anything else is not.
pub fn k_bool_str(s: &str) -> (r: KBoolBool)
    ensures
        r == (if c_text(s@) == "true"@ {
            KBoolBool { val: 1, ok: 1 }
        } else if c_text(s@) == "false"@ {
            KBoolBool { val: 0, ok: 1 }
        } else {
            KBoolBool { val: 0, ok: 0 }
        }),
{
    let cs = chars_of(s);
    let n = c_len(&cs);
    let t = crate::text::string_from_chars(&cs, 0, n);
    if crate::text::text_eq(t.as_str(), "true") {
        KBoolBool { val: 1, ok: 1 }
    } else if crate::text::text_eq(t.as_str(), "false") {
        KBoolBool { val: 0, ok: 1 }
    } else {
        KBoolBool { val: 0, ok: 0 }
    }
}

/// The blanks `strtol` skips before a number.
pub open spec fn is_c_space(c: char) -> bool {
    c == ' ' || c == '\t' || c == '\n' || c == '\x0b' || c == '\x0c' || c == '\r'
}

/// The blanks allowed after the number.
pub open spec fn is_tail_space(c: char) -> bool {
    c == ' ' || c == '\t' || c == '\n' || c == '\r'
}

pub open spec fn is_dec(c: char) -> bool {
    '0' <= c && c <= '9'
}

/// The first position from `i` on that holds no leading blank.
pub open spec fn skip_c_space(t: Seq<char>, i: nat) -> nat
    decreases t.len() - i,
{
    if i < t.len() && is_c_space(t[i as int]) {
        skip_c_space(t, i + 1)
    } else {
        i
    }
}

/// The end of the run of digits from `i`.
pub open spec fn digits_to(t: Seq<char>, i: nat) -> nat
    decreases t.len() - i,
{
    if i < t.len() && is_dec(t[i as int]) {
        digits_to(t, i + 1)
    } else {
        i
    }
}

/// The value of a run of decimal digits.
pub open spec fn digits_val(d: Seq<char>) -> nat
    decreases d.len(),
{
    if d.len() == 0 {
        0
    } else {
        digits_val(d.drop_last()) * 10 + (d.last() as nat - '0' as nat) as nat
    }
}

/// The `i32` a text holds as `i32(s)` reads it: blanks, an optional sign,
/// at least one digit, then only blanks; none when the value does not fit.
pub open spec fn c_i32(cs: Seq<char>) -> Option<int> {
    let t = c_text(cs);
    let i = skip_c_space(t, 0);
    let signed = i < t.len() && (t[i as int] == '-' || t[i as int] == '+');
    let neg = i < t.len() && t[i as int] == '-';
    let j = if signed { i + 1 } else { i };
    let k = digits_to(t, j);
    let v = if neg { -digits_val(t.subrange(j as int, k as int)) } else { digits_val(t.subrange(j as int, k as int)) as int };
    if k == j {
        None
    } else if exists|m: int| k <= m < t.len() && !is_tail_space(#[trigger] t[m]) {
        None
    } else if i32::MIN <= v && v <= i32::MAX {
        Some(v)
    } else {
        None
    }
}

proof fn lemma_skip(t: Seq<char>, i: nat)
    ensures
        i <= skip_c_space(t, i),
        i <= t.len() ==> skip_c_space(t, i) <= t.len(),
    decreases t.len() - i,
{
    if i < t.len() && is_c_space(t[i as int]) {
        lemma_skip(t, i + 1);
    }
}

proof fn lemma_digits_to(t: Seq<char>, i: nat)
    ensures
        i <= digits_to(t, i),
        i <= t.len() ==> digits_to(t, i) <= t.len(),
    decreases t.len() - i,
{
    if i < t.len() && is_dec(t[i as int]) {
        lemma_digits_to(t, i + 1);
    }
}

/// `i32(s)`: the value and 1 when the text holds an `i32`, else 0 and 0.
#[verifier::loop_isolation(false)]
pub fn k_i32_str(s: &str) -> (r: KI32Bool)
    ensures
        r == (match c_i32(s@) {
            Some(v) => KI32Bool { val: v as i32, ok: 1 },
            None => KI32Bool { val: 0, ok: 0 },
        }),
{
    let all = chars_of(s);
    let n = c_len(&all);
    let ghost t = s@.subrange(0, n as int);
    let mut i: usize = 0;
    proof {
        lemma_skip(t, 0);
    }
    while i < n && (all[i] == ' ' || all[i] == '\t' || all[i] == '\n' || all[i] == '\x0b' || all[i] == '\x0c' || all[i] == '\r')
        invariant
            all@ == s@,
            n <= all@.len(),
            t == s@.subrange(0, n as int),
            i <= n,
            skip_c_space(t, 0) == skip_c_space(t, i as nat),
        decreases n - i,
    {
        i += 1;
    }
    let neg = i < n && all[i] == '-';
    let signed = i < n && (all[i] == '-' || all[i] == '+');
    let j = if signed { i + 1 } else { i };
    let mut k: usize = j;
    let mut acc: u64 = 0;
    let mut big = false;
    proof {
        lemma_digits_to(t, j as nat);
        assert(t.subrange(j as int, j as int) =~= Seq::<char>::empty());
    }
    while k < n && '0' <= all[k] && all[k] <= '9'
        invariant
            all@ == s@,
            n <= all@.len(),
            t == s@.subrange(0, n as int),
            j <= k <= n,
            digits_to(t, j as nat) == digits_to(t, k as nat),
            !big ==> acc == digits_val(t.subrange(j as int, k as int)),
            !big ==> acc <= 0x8000_0000,
            big ==> digits_val(t.subrange(j as int, k as int)) > 0x8000_0000,
        decreases n - k,
    {
        let d = (all[k] as u32 - '0' as u32) as u64;
        let ghost before = t.subrange(j as int, k as int);
        assert(t.subrange(j as int, k + 1).drop_last() =~= before);
        assert(t.subrange(j as int, k + 1).last() == all@[k as int]);
        if !big {
            acc = acc * 10 + d;
            if acc > 0x8000_0000 {
                big = true;
            }
        } else {
            assert(digits_val(t.subrange(j as int, k + 1)) >= digits_val(before));
        }
        k += 1;
    }
    if k == j {
        return KI32Bool { val: 0, ok: 0 };
    }
    let mut m: usize = k;
    while m < n
        invariant
            all@ == s@,
            n <= all@.len(),
            t == s@.subrange(0, n as int),
            k <= m <= n,
            forall|q: int| k <= q < m ==> is_tail_space(#[trigger] t[q]),
        decreases n - m,
    {
        let c = all[m];
        if !(c == ' ' || c == '\t' || c == '\n' || c == '\r') {
            assert(!is_tail_space(t[m as int]));
            return KI32Bool { val: 0, ok: 0 };
        }
        m += 1;
    }
    if big {
        return KI32Bool { val: 0, ok: 0 };
    }
    if neg {
        let v: i64 = -(acc as i64);
        KI32Bool { val: v as i32, ok: 1 }
    } else {
        if acc > 0x7fff_ffff {
            return KI32Bool { val: 0, ok: 0 };
        }
        KI32Bool { val: acc as i32, ok: 1 }
    }
}

// ── Round trips ─────────────────────────────────────────────────────────

proof fn lemma_digit_char(d: nat)
    requires
        d < 10,
    ensures
        is_dec(digit_char(d)),
        digit_char(d) as nat - '0' as nat == d,
        digit_char(d) != '\0',
{
}

/// The decimal text of `m` is a non-empty run of digits worth `m`.
proof fn lemma_decimal(m: nat)
    ensures
        decimal(m).len() >= 1,
        forall|i: int| 0 <= i < decimal(m).len() ==> is_dec(#[trigger] decimal(m)[i]),
        digits_val(decimal(m)) == m,
    decreases m,
{
    if m < 10 {
        lemma_digit_char(m);
        assert(decimal(m).drop_last() =~= Seq::<char>::empty());
        assert(decimal(m).last() == digit_char(m));
        assert(digits_val(Seq::<char>::empty()) == 0);
        assert(digits_val(decimal(m)) == digits_val(decimal(m).drop_last()) * 10 + (decimal(m).last() as nat
            - '0' as nat) as nat);
    } else {
        lemma_decimal(m / 10);
        lemma_digit_char(m % 10);
        let s = decimal(m / 10);
        assert(decimal(m) == s.push(digit_char(m % 10)));
        assert(decimal(m).drop_last() =~= s);
        assert forall|i: int| 0 <= i < decimal(m).len() implies is_dec(#[trigger] decimal(m)[i]) by {
            if i < s.len() {
                assert(decimal(m)[i] == s[i]);
            }
        }
        assert(m == (m / 10) * 10 + m % 10);
        assert(decimal(m).last() == digit_char(m % 10));
        assert(digits_val(decimal(m)) == digits_val(s) * 10 + (digit_char(m % 10) as nat - '0' as nat) as nat);
    }
}

/// Text without a NUL is read whole by the C functions.
proof fn lemma_c_text_whole(cs: Seq<char>)
    requires
        forall|i: int| 0 <= i < cs.len() ==> cs[i] != '\0',
    ensures
        c_text(cs) == cs,
    decreases cs.len(),
{
    if cs.len() > 0 {
        lemma_c_text_whole(cs.drop_first());
        assert(seq![cs[0]] + cs.drop_first() =~= cs);
    }
}

/// A run of digits reaching the end of the text ends there.
proof fn lemma_digits_to_end(t: Seq<char>, j: nat)
    requires
        j <= t.len(),
        forall|i: int| j <= i < t.len() ==> is_dec(#[trigger] t[i]),
    ensures
        digits_to(t, j) == t.len(),
    decreases t.len() - j,
{
    if j < t.len() {
        lemma_digits_to_end(t, j + 1);
    }
}

/// Reading back the text of an `i32` gives the `i32`: `i32(str(n)) == n`.
pub proof fn law_int_text_round_trip(n: i32)
    ensures
        c_i32(i32_text(n)) == Some(n as int),
{
    let m: nat = if n < 0 { (-n) as nat } else { n as nat };
    lemma_decimal(m);
    let d = decimal(m);
    let t = i32_text(n);
    reveal_strlit("-");
    if n < 0 {
        assert(t == seq!['-'] + d);
        assert(t.subrange(1, t.len() as int) =~= d);
    } else {
        assert(t == d);
        assert(t.subrange(0, t.len() as int) =~= d);
    }
    assert forall|i: int| 0 <= i < t.len() implies t[i] != '\0' by {
        if n < 0 && i > 0 {
            assert(t[i] == d[i - 1]);
        }
    }
    lemma_c_text_whole(t);
    let j: nat = if n < 0 { 1 } else { 0 };
    assert forall|i: int| j <= i < t.len() implies is_dec(#[trigger] t[i]) by {
        if n < 0 {
            assert(t[i] == d[i - 1]);
        }
    }
    lemma_digits_to_end(t, j);
    assert(skip_c_space(t, 0) == 0);
}

/// Reading back the text of a boolean gives the boolean:
/// `bool(str(b)) == b`, with every non-zero `b` read as true.
pub proof fn law_bool_text_round_trip(b: i32)
    ensures
        ({
            let t: Seq<char> = if b != 0 { "true"@ } else { "false"@ };
            &&& c_text(t) == t
            &&& (c_text(t) == "true"@) == (b != 0)
            &&& (c_text(t) == "false"@) == (b == 0)
        }),
{
    reveal_strlit("true");
    reveal_strlit("false");
    if b != 0 {
        lemma_c_text_whole("true"@);
    } else {
        lemma_c_text_whole("false"@);
    }
}

} // verus!
