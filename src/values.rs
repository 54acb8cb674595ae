//! Conversion of single field values to typed values.

use vstd::prelude::*;
use vstd::string::StrSliceExecFns;
use crate::errors::{kind_model, ErrorKind, KindModel, TypedResponseError};

verus! {

pub open spec fn is_digit(c: char) -> bool {
    '0' <= c && c <= '9'
}

pub open spec fn digit_of(c: char) -> nat {
    (c as int - '0' as int) as nat
}

pub open spec fn all_digits(s: Seq<char>) -> bool {
    forall|i: int| 0 <= i < s.len() ==> is_digit(#[trigger] s[i])
}

/// The number that a string of decimal digits denotes.
pub open spec fn digits_value(s: Seq<char>) -> nat
    decreases s.len(),
{
    if s.len() == 0 {
        0
    } else {
        digits_value(s.drop_last()) * 10 + digit_of(s.last())
    }
}

/// A non-empty string of decimal digits.
pub open spec fn is_decimal(s: Seq<char>) -> bool {
    s.len() > 0 && all_digits(s)
}

proof fn lemma_digits_value_prefix(t: Seq<char>, k: int)
    requires
        0 <= k <= t.len(),
        all_digits(t),
    ensures
        digits_value(t) >= digits_value(t.take(k)),
    decreases t.len(),
{
    if k < t.len() {
        let u = t.drop_last();
        assert(all_digits(u)) by {
            assert forall|i: int| 0 <= i < u.len() implies is_digit(#[trigger] u[i]) by {
                assert(u[i] == t[i]);
            }
        }
        lemma_digits_value_prefix(u, k);
        assert(u.take(k) =~= t.take(k));
    } else {
        assert(t.take(k) =~= t);
    }
}

/// The value of the digits `s[from..to]`, or `None` where it exceeds `u64::MAX`.
pub(crate) fn digits_u64(s: &str, from: usize, to: usize) -> (r: Option<u64>)
    requires
        from <= to <= s@.len(),
        all_digits(s@.subrange(from as int, to as int)),
    ensures
        r matches Some(n) ==> n as nat == digits_value(s@.subrange(from as int, to as int)),
        r is None ==> digits_value(s@.subrange(from as int, to as int)) > u64::MAX,
{
    let ghost t = s@.subrange(from as int, to as int);
    let mut acc: u64 = 0;
    let mut i: usize = from;
    assert(s@.subrange(from as int, from as int) =~= Seq::<char>::empty());
    while i < to
        invariant
            from <= i <= to <= s@.len(),
            t == s@.subrange(from as int, to as int),
            all_digits(t),
            acc as nat == digits_value(s@.subrange(from as int, i as int)),
        decreases to - i,
    {
        let c = s.get_char(i);
        assert(c == t[i - from]);
        let d: u64 = (c as u32 - '0' as u32) as u64;
        let ghost next = s@.subrange(from as int, i as int + 1);
        assert(next.drop_last() =~= s@.subrange(from as int, i as int));
        assert(next.last() == c);
        assert(next =~= t.take(i - from + 1));
        if acc > (u64::MAX - d) / 10 {
            proof {
                assert(acc * 10 + d > u64::MAX) by (nonlinear_arith)
                    requires
                        acc > (u64::MAX - d) / 10,
                        d <= 9,
                ;
                lemma_digits_value_prefix(t, i - from + 1);
            }
            return None;
        }
        proof {
            assert(acc * 10 + d <= u64::MAX) by (nonlinear_arith)
                requires
                    acc <= (u64::MAX - d) / 10,
                    d <= 9,
            ;
        }
        acc = acc * 10 + d;
        i = i + 1;
    }
    assert(s@.subrange(from as int, i as int) =~= t);
    Some(acc)
}

/// Where every position of `s[from..to]` holds a digit.
pub(crate) fn check_digits(s: &str, from: usize, to: usize) -> (r: bool)
    requires
        from <= to <= s@.len(),
    ensures
        r == all_digits(s@.subrange(from as int, to as int)),
{
    let mut i: usize = from;
    while i < to
        invariant
            from <= i <= to <= s@.len(),
            all_digits(s@.subrange(from as int, i as int)),
        decreases to - i,
    {
        let c = s.get_char(i);
        if !('0' <= c && c <= '9') {
            assert(s@.subrange(from as int, to as int)[i - from] == c);
            return false;
        }
        assert forall|j: int| 0 <= j < i + 1 - from implies is_digit(
            #[trigger] s@.subrange(from as int, i as int + 1)[j],
        ) by {
            if j < i - from {
                assert(s@.subrange(from as int, i as int + 1)[j] == s@.subrange(from as int, i as int)[j]);
            }
        }
        i = i + 1;
    }
    true
}

/// Parse an unsigned decimal integer no greater than `max`.
///
/// Accepts exactly the non-empty strings of decimal digits whose value is at most `max`;
/// anything else is `MalformedInteger` for `field`.
pub fn parse_integer(v: String, field: &'static str, max: u64) -> (r: Result<u64, TypedResponseError>)
    ensures
        match r {
            Ok(n) => is_decimal(v@) && digits_value(v@) <= max && n as nat == digits_value(v@),
            Err(e) => !(is_decimal(v@) && digits_value(v@) <= max) && e.field == field
                && e.kind is MalformedInteger,
        },
{
    let s = v.as_str();
    let n = s.unicode_len();
    assert(s@.subrange(0, n as int) =~= s@);
    if n == 0 || !check_digits(s, 0, n) {
        return Err(TypedResponseError { field, kind: ErrorKind::MalformedInteger });
    }
    match digits_u64(s, 0, n) {
        Some(x) => {
            if x <= max {
                Ok(x)
            } else {
                Err(TypedResponseError { field, kind: ErrorKind::MalformedInteger })
            }
        },
        None => Err(TypedResponseError { field, kind: ErrorKind::MalformedInteger }),
    }
}


/// Whether `s` and `w` hold the same characters.
pub(crate) fn same_text(s: &str, w: &str) -> (r: bool)
    ensures
        r == (s@ == w@),
{
    let n = s.unicode_len();
    if n != w.unicode_len() {
        return false;
    }
    let mut i: usize = 0;
    while i < n
        invariant
            n == s@.len() == w@.len(),
            i <= n,
            s@.take(i as int) =~= w@.take(i as int),
        decreases n - i,
    {
        if s.get_char(i) != w.get_char(i) {
            return false;
        }
        assert(s@.take(i as int + 1) =~= s@.take(i as int).push(s@[i as int]));
        assert(w@.take(i as int + 1) =~= w@.take(i as int).push(w@[i as int]));
        i = i + 1;
    }
    assert(s@.take(n as int) =~= s@);
    assert(w@.take(n as int) =~= w@);
    true
}

/// What a boolean field holds: `"0"` is false, `"1"` is true, nothing else is valid.
pub open spec fn bool_value(s: Seq<char>) -> Option<bool> {
    if s == "0"@ {
        Some(false)
    } else if s == "1"@ {
        Some(true)
    } else {
        None
    }
}

/// Parse a boolean field.
pub fn parse_bool(v: String, field: &'static str) -> (r: Result<bool, TypedResponseError>)
    ensures
        match r {
            Ok(b) => bool_value(v@) == Some(b),
            Err(e) => bool_value(v@) is None && e.field == field
                && e.kind == ErrorKind::InvalidValue(v),
        },
{
    if same_text(v.as_str(), "0") {
        Ok(false)
    } else if same_text(v.as_str(), "1") {
        Ok(true)
    } else {
        Err(TypedResponseError { field, kind: ErrorKind::InvalidValue(v) })
    }
}


/// A span of time: whole seconds and the nanoseconds beyond them.
#[derive(Clone, Copy, Debug, PartialEq, Eq, Structural)]
pub struct Duration {
    pub secs: u64,
    pub nanos: u32,
}

impl Duration {
    /// Whether the nanoseconds stay below one second.
    pub open spec fn wf(&self) -> bool {
        self.nanos < 1_000_000_000
    }

    /// The duration of `secs` seconds and `nanos` nanoseconds.
    pub fn new(secs: u64, nanos: u32) -> (r: Duration)
        requires
            nanos < 1_000_000_000,
        ensures
            r.secs == secs,
            r.nanos == nanos,
            r.wf(),
    {
        Duration { secs, nanos }
    }

    /// The empty duration.
    pub fn zero() -> (r: Duration)
        ensures
            r.secs == 0,
            r.nanos == 0,
            r.wf(),
    {
        Duration { secs: 0, nanos: 0 }
    }

    /// Whole seconds.
    pub fn as_secs(&self) -> (r: u64)
        ensures
            r == self.secs,
    {
        self.secs
    }

    /// Nanoseconds beyond the whole seconds.
    pub fn subsec_nanos(&self) -> (r: u32)
        ensures
            r == self.nanos,
    {
        self.nanos
    }
}

pub open spec fn pow10(n: nat) -> nat
    decreases n,
{
    if n == 0 {
        1
    } else {
        10 * pow10((n - 1) as nat)
    }
}

proof fn lemma_digits_value_bound(t: Seq<char>)
    requires
        all_digits(t),
    ensures
        digits_value(t) < pow10(t.len()),
    decreases t.len(),
{
    if t.len() > 0 {
        let u = t.drop_last();
        assert(all_digits(u)) by {
            assert forall|i: int| 0 <= i < u.len() implies is_digit(#[trigger] u[i]) by {
                assert(u[i] == t[i]);
            }
        }
        lemma_digits_value_bound(u);
        assert(is_digit(t[t.len() - 1]));
    }
}

/// Position of the first `c` in `s`, or `s.len()` where there is none.
pub open spec fn index_of_char(s: Seq<char>, c: char) -> int
    decreases s.len(),
{
    if s.len() == 0 {
        0
    } else {
        let k = index_of_char(s.drop_last(), c);
        if k < s.len() - 1 {
            k
        } else if s.last() == c {
            s.len() - 1
        } else {
            s.len() as int
        }
    }
}

proof fn lemma_index_of_char_prefix(s: Seq<char>, c: char, n: int)
    requires
        0 <= n <= s.len(),
        index_of_char(s.take(n), c) < n,
    ensures
        index_of_char(s, c) == index_of_char(s.take(n), c),
    decreases s.len() - n,
{
    if n < s.len() {
        assert(s.take(n + 1).drop_last() =~= s.take(n));
        lemma_index_of_char_prefix(s, c, n + 1);
    } else {
        assert(s.take(n) =~= s);
    }
}

/// Position of the first `c` in `s`, or the length of `s` where there is none.
pub(crate) fn find_char(s: &str, c: char) -> (r: usize)
    ensures
        r == index_of_char(s@, c),
        r <= s@.len(),
{
    let n = s.unicode_len();
    let mut i: usize = 0;
    while i < n && s.get_char(i) != c
        invariant
            i <= n == s@.len(),
            index_of_char(s@.take(i as int), c) == i,
        decreases n - i,
    {
        assert(s@.take(i as int + 1).drop_last() =~= s@.take(i as int));
        assert(s@.take(i as int + 1).last() == s@[i as int]);
        i = i + 1;
    }
    proof {
        if i == n {
            assert(s@.take(i as int) =~= s@);
        } else {
            assert(s@.take(i as int + 1).drop_last() =~= s@.take(i as int));
            assert(s@.take(i as int + 1).last() == s@[i as int]);
            lemma_index_of_char_prefix(s@, c, i as int + 1);
        }
    }
    i
}

/// Length of the sign that opens a number, 0 or 1.
pub open spec fn sign_len(s: Seq<char>) -> int {
    if s.len() > 0 && (s[0] == '+' || s[0] == '-') {
        1
    } else {
        0
    }
}

/// A number written with a leading minus.
pub open spec fn is_negative(s: Seq<char>) -> bool {
    s.len() > 0 && s[0] == '-'
}

/// The number without its sign.
pub open spec fn unsigned_part(s: Seq<char>) -> Seq<char> {
    s.skip(sign_len(s))
}

/// The digits before the decimal point.
pub open spec fn whole_part(s: Seq<char>) -> Seq<char> {
    let b = unsigned_part(s);
    b.take(index_of_char(b, '.'))
}

/// The digits after the decimal point, empty where there is no point.
pub open spec fn fraction_part(s: Seq<char>) -> Seq<char> {
    let b = unsigned_part(s);
    let k = index_of_char(b, '.');
    if k < b.len() {
        b.skip(k + 1)
    } else {
        Seq::empty()
    }
}

/// Decimal notation: an optional sign, digits, optionally a point and more digits,
/// with at least one digit in all.
pub open spec fn is_decimal_number(s: Seq<char>) -> bool {
    all_digits(whole_part(s)) && all_digits(fraction_part(s)) && whole_part(s).len()
        + fraction_part(s).len() > 0
}

pub open spec fn all_zeros(s: Seq<char>) -> bool {
    forall|i: int| 0 <= i < s.len() ==> #[trigger] s[i] == '0'
}

/// A fraction above 0.999999999: nine nines, then some digit that is not zero.
pub open spec fn exceeds_nanos(f: Seq<char>) -> bool {
    &&& f.len() > 9
    &&& forall|i: int| 0 <= i < 9 ==> #[trigger] f[i] == '9'
    &&& !all_zeros(f.skip(9))
}

/// A decimal number that is not below zero and not above the largest duration,
/// `u64::MAX` seconds and 999999999 nanoseconds.
pub open spec fn is_valid_duration(s: Seq<char>) -> bool {
    &&& is_decimal_number(s)
    &&& (is_negative(s) ==> all_zeros(whole_part(s)) && all_zeros(fraction_part(s)))
    &&& digits_value(whole_part(s)) <= u64::MAX
    &&& !(digits_value(whole_part(s)) == u64::MAX && exceeds_nanos(fraction_part(s)))
}

/// `b` spells the word whose lower-case letters are `lo` and upper-case letters `up`,
/// each letter in either case.
pub open spec fn word_match(b: Seq<char>, lo: Seq<char>, up: Seq<char>) -> bool {
    b.len() == lo.len() && forall|i: int| 0 <= i < b.len() ==> (#[trigger] b[i] == lo[i] || b[i] == up[i])
}

/// The words that stand for a number that is not finite, with an optional sign:
/// `nan`, `inf` and `infinity` in any case.
pub open spec fn is_special_float(s: Seq<char>) -> bool {
    let b = unsigned_part(s);
    word_match(b, "nan"@, "NAN"@) || word_match(b, "inf"@, "INF"@) || word_match(
        b,
        "infinity"@,
        "INFINITY"@,
    )
}

/// The error kind of a duration that does not parse: a number out of range, finite or
/// not, is `InvalidValue` of the text; anything else is `MalformedFloat`.
pub open spec fn duration_error_kind(s: Seq<char>) -> KindModel {
    if is_duration_syntax(s) || is_special_float(s) {
        KindModel::InvalidValue(s)
    } else {
        KindModel::MalformedFloat
    }
}

/// Whether every position of `s[from..to]` holds `c`.
pub(crate) fn all_char(s: &str, from: usize, to: usize, c: char) -> (r: bool)
    requires
        from <= to <= s@.len(),
    ensures
        r == (forall|i: int| from <= i < to ==> s@[i] == c),
{
    let mut i: usize = from;
    while i < to
        invariant
            from <= i <= to <= s@.len(),
            forall|j: int| from <= j < i ==> s@[j] == c,
        decreases to - i,
    {
        if s.get_char(i) != c {
            return false;
        }
        i = i + 1;
    }
    true
}

/// Whether `s` from `from` on spells the word `lo` / `up` in any mix of cases.
fn word_matches(s: &str, from: usize, lo: &str, up: &str) -> (r: bool)
    requires
        from <= s@.len(),
        lo@.len() == up@.len(),
    ensures
        r == word_match(s@.skip(from as int), lo@, up@),
{
    let n = s.unicode_len();
    let w = lo.unicode_len();
    if n - from != w {
        return false;
    }
    let mut i: usize = 0;
    while i < w
        invariant
            n == s@.len(),
            w == lo@.len() == up@.len(),
            n - from == w,
            i <= w,
            forall|j: int| 0 <= j < i ==> (s@[from + j] == lo@[j] || s@[from + j] == up@[j]),
        decreases w - i,
    {
        let c = s.get_char(from + i);
        if c != lo.get_char(i) && c != up.get_char(i) {
            assert(s@.skip(from as int)[i as int] == c);
            return false;
        }
        i = i + 1;
    }
    assert forall|j: int| 0 <= j < w implies (#[trigger] s@.skip(from as int)[j] == lo@[j] || s@.skip(
        from as int,
    )[j] == up@[j]) by {
        assert(s@.skip(from as int)[j] == s@[from + j]);
    }
    true
}

/// Whether the text from `from` on is one of the words for a number that is not finite.
fn special_float_word(s: &str, from: usize) -> (r: bool)
    requires
        from <= s@.len(),
    ensures
        r == (word_match(s@.skip(from as int), "nan"@, "NAN"@) || word_match(
            s@.skip(from as int),
            "inf"@,
            "INF"@,
        ) || word_match(s@.skip(from as int), "infinity"@, "INFINITY"@)),
{
    proof {
        reveal_strlit("nan");
        reveal_strlit("NAN");
        reveal_strlit("inf");
        reveal_strlit("INF");
        reveal_strlit("infinity");
        reveal_strlit("INFINITY");
    }
    word_matches(s, from, "nan", "NAN") || word_matches(s, from, "inf", "INF") || word_matches(
        s,
        from,
        "infinity",
        "INFINITY",
    )
}

pub open spec fn min9(n: nat) -> nat {
    if n < 9 {
        n
    } else {
        9
    }
}

/// Nanoseconds denoted by the fraction digits, truncated after the ninth.
pub open spec fn fraction_nanos(f: Seq<char>) -> nat {
    digits_value(f.take(min9(f.len()) as int)) * pow10((9 - min9(f.len())) as nat)
}

/// Parse a duration written as a decimal number without an exponent.
fn parse_decimal_duration(field: &'static str, value: String) -> (r: Result<Duration, TypedResponseError>)
    ensures
        match r {
            Ok(d) => {
                &&& is_valid_duration(value@)
                &&& d.wf()
                &&& d.secs == digits_value(whole_part(value@))
                &&& d.nanos == fraction_nanos(fraction_part(value@))
            },
            Err(e) => {
                &&& !is_valid_duration(value@)
                &&& e.field == field
                &&& (is_decimal_number(value@) || is_special_float(value@)) ==> e.kind
                    == ErrorKind::InvalidValue(value)
                &&& !(is_decimal_number(value@) || is_special_float(value@)) ==> e.kind
                    is MalformedFloat
            },
        },
{
    let s = value.as_str();
    let n = s.unicode_len();
    let ghost sv = s@;
    let mut start: usize = 0;
    let mut negative = false;
    if n > 0 {
        let c = s.get_char(0);
        if c == '+' || c == '-' {
            start = 1;
            negative = c == '-';
        }
    }
    let ghost b = unsigned_part(sv);
    assert(b =~= sv.subrange(start as int, n as int));
    // find the decimal point
    let mut dot: usize = start;
    while dot < n && s.get_char(dot) != '.'
        invariant
            start <= dot <= n == sv.len(),
            sv == s@,
            b == sv.subrange(start as int, n as int),
            index_of_char(b.take(dot - start), '.') == dot - start,
        decreases n - dot,
    {
        assert(b.take(dot - start + 1).drop_last() =~= b.take(dot - start));
        assert(b.take(dot - start + 1).last() == sv[dot as int]);
        dot = dot + 1;
    }
    proof {
        if dot == n {
            assert(b.take(dot - start) =~= b);
        } else {
            assert(b.take(dot - start + 1).drop_last() =~= b.take(dot - start));
            assert(b.take(dot - start + 1).last() == sv[dot as int]);
            lemma_index_of_char_prefix(b, '.', dot - start + 1);
        }
    }
    let ghost k = index_of_char(b, '.');
    assert(k == dot - start);
    let frac_start: usize = if dot < n { dot + 1 } else { n };
    assert(whole_part(sv) =~= sv.subrange(start as int, dot as int));
    assert(fraction_part(sv) =~= sv.subrange(frac_start as int, n as int));
    if !check_digits(s, start, dot) || !check_digits(s, frac_start, n) || (dot - start) + (n
        - frac_start) == 0 {
        assert(unsigned_part(sv) =~= sv.skip(start as int));
        if special_float_word(s, start) {
            return Err(TypedResponseError { field, kind: ErrorKind::InvalidValue(value) });
        }
        return Err(TypedResponseError { field, kind: ErrorKind::MalformedFloat });
    }
    if negative {
        let mut i: usize = start;
        while i < n
            invariant
                start <= i <= n == sv.len(),
                sv == s@,
                sv == value@,
                is_negative(sv),
                is_decimal_number(sv),
                whole_part(sv) == sv.subrange(start as int, dot as int),
                fraction_part(sv) == sv.subrange(frac_start as int, n as int),
                dot < n ==> frac_start == dot + 1,
                dot == n ==> frac_start == n,
                start <= dot <= n,
                forall|j: int| start <= j < i && j != dot ==> sv[j] == '0',
            decreases n - i,
        {
            if i != dot && s.get_char(i) != '0' {
                proof {
                    if i < dot {
                        assert(whole_part(sv)[i - start] == sv[i as int]);
                        assert(!all_zeros(whole_part(sv)));
                    } else {
                        assert(frac_start <= i);
                        assert(fraction_part(sv)[i - frac_start] == sv[i as int]);
                        assert(!all_zeros(fraction_part(sv)));
                    }
                }
                return Err(TypedResponseError { field, kind: ErrorKind::InvalidValue(value) });
            }
            i = i + 1;
        }
        assert(all_zeros(whole_part(sv))) by {
            assert forall|j: int| 0 <= j < whole_part(sv).len() implies #[trigger] whole_part(sv)[j] == '0' by {
                assert(whole_part(sv)[j] == sv[j + start]);
            }
        }
        assert(all_zeros(fraction_part(sv))) by {
            assert forall|j: int| 0 <= j < fraction_part(sv).len() implies #[trigger] fraction_part(sv)[j] == '0' by {
                assert(fraction_part(sv)[j] == sv[j + frac_start]);
            }
        }
    }
    let secs = match digits_u64(s, start, dot) {
        Some(x) => x,
        None => {
            return Err(TypedResponseError { field, kind: ErrorKind::InvalidValue(value) });
        },
    };
    let ghost f = fraction_part(sv);
    if secs == u64::MAX && n - frac_start > 9 && all_char(s, frac_start, frac_start + 9, '9')
        && !all_char(s, frac_start + 9, n, '0') {
        proof {
            assert forall|i: int| 0 <= i < 9 implies #[trigger] f[i] == '9' by {
                assert(f[i] == sv[frac_start + i]);
            }
            assert(!all_zeros(f.skip(9))) by {
                let i = choose|i: int| frac_start + 9 <= i < n && sv[i] != '0';
                assert(f.skip(9)[i - frac_start - 9] == sv[i]);
            }
        }
        return Err(TypedResponseError { field, kind: ErrorKind::InvalidValue(value) });
    }
    proof {
        if secs == u64::MAX && exceeds_nanos(f) {
            assert forall|i: int| frac_start <= i < frac_start + 9 implies sv[i] == '9' by {
                assert(f[i - frac_start] == sv[i]);
            }
            assert forall|j: int| 0 <= j < f.skip(9).len() implies #[trigger] f.skip(9)[j]
                == '0' by {
                assert(f.skip(9)[j] == sv[frac_start + 9 + j]);
            }
        }
    }
    let m: usize = if n - frac_start < 9 { n - frac_start } else { 9 };
    assert(f.take(m as int) =~= sv.subrange(frac_start as int, (frac_start + m) as int));
    assert(all_digits(f.take(m as int))) by {
        assert forall|j: int| 0 <= j < m implies is_digit(#[trigger] f.take(m as int)[j]) by {
            assert(f.take(m as int)[j] == f[j]);
        }
    }
    let head = match digits_u64(s, frac_start, frac_start + m) {
        Some(x) => x,
        None => {
            proof {
                lemma_digits_value_bound(f.take(m as int));
                lemma_pow10_mono(m as nat, 9);
                reveal_with_fuel(pow10, 10);
            }
            return Err(TypedResponseError { field, kind: ErrorKind::MalformedFloat });
        },
    };
    proof {
        lemma_digits_value_bound(f.take(m as int));
    }
    let mut nanos: u64 = head;
    let mut j: usize = m;
    assert(pow10((j - m) as nat) == 1) by {
        assert((j - m) as nat == 0);
        reveal_with_fuel(pow10, 1);
    }
    assert(nanos == head * pow10((j - m) as nat)) by (nonlinear_arith)
        requires
            nanos == head,
            pow10((j - m) as nat) == 1,
    ;
    while j < 9
        invariant
            m <= j <= 9,
            head < pow10(m as nat),
            nanos == head * pow10((j - m) as nat),
            nanos < pow10(j as nat),
        decreases 9 - j,
    {
        proof {
            assert(pow10((j + 1 - m) as nat) == 10 * pow10((j - m) as nat));
            assert(pow10((j + 1) as nat) == 10 * pow10(j as nat));
            assert(pow10(j as nat) <= 100_000_000) by {
                lemma_pow10_mono(j as nat, 8);
                reveal_with_fuel(pow10, 9);
            }
            assert(nanos * 10 == head * pow10((j + 1 - m) as nat)) by (nonlinear_arith)
                requires
                    nanos == head * pow10((j - m) as nat),
                    pow10((j + 1 - m) as nat) == 10 * pow10((j - m) as nat),
            ;
        }
        nanos = nanos * 10;
        j = j + 1;
    }
    assert(pow10(9) == 1_000_000_000) by {
        reveal_with_fuel(pow10, 10);
    }
    Ok(Duration { secs, nanos: nanos as u32 })
}

proof fn lemma_pow10_mono(a: nat, b: nat)
    requires
        a <= b,
    ensures
        pow10(a) <= pow10(b),
    decreases b,
{
    if a < b {
        lemma_pow10_mono(a, (b - 1) as nat);
    }
}


/// `k` zero digits.
pub open spec fn zeros(k: int) -> Seq<char> {
    Seq::new(k as nat, |i: int| '0')
}

/// Position of the first `e` or `E`, or the length where there is none.
pub open spec fn exponent_index(s: Seq<char>) -> int {
    let a = index_of_char(s, 'e');
    let b = index_of_char(s, 'E');
    if a < b {
        a
    } else {
        b
    }
}

pub open spec fn has_exponent(s: Seq<char>) -> bool {
    exponent_index(s) < s.len()
}

/// The number before the exponent, sign included.
pub open spec fn mantissa(s: Seq<char>) -> Seq<char> {
    s.take(exponent_index(s))
}

/// The text after `e` or `E`.
pub open spec fn exponent_text(s: Seq<char>) -> Seq<char> {
    s.skip(exponent_index(s) + 1)
}

/// The exponent: an optional sign and decimal digits; a magnitude beyond `u64::MAX`
/// counts as `u64::MAX`, which moves the point beyond any digit that matters just the same.
pub open spec fn exponent_value(x: Seq<char>) -> int {
    let m = digits_value(x.skip(sign_len(x)));
    let c = if m > u64::MAX {
        u64::MAX as int
    } else {
        m as int
    };
    if is_negative(x) {
        -c
    } else {
        c
    }
}

pub open spec fn clamp(p: int, lo: int, hi: int) -> int {
    if p < lo {
        lo
    } else if p > hi {
        hi
    } else {
        p
    }
}

/// Where the point lands after the exponent moves it, counted in digits of the mantissa.
/// It is kept between 9 places before the first digit and 21 after the last: past those
/// bounds the truncated nanoseconds stay zero and the value stays above the largest
/// duration (or zero), so the reading does not change.
pub open spec fn shift(s: Seq<char>) -> int {
    let m = mantissa(s);
    clamp(
        whole_part(m).len() + exponent_value(exponent_text(s)),
        -9,
        (whole_part(m).len() + fraction_part(m).len() + 21) as int,
    )
}

/// The digits `d` with the point placed after `p` of them (before the first where `p` is
/// negative), written as a plain decimal with the given sign.
pub open spec fn place_point(d: Seq<char>, negative: bool, p: int) -> Seq<char> {
    let i = if p <= 0 {
        Seq::empty()
    } else if p <= d.len() {
        d.take(p)
    } else {
        d + zeros(p - d.len())
    };
    let f = if p <= 0 {
        zeros(-p) + d
    } else if p <= d.len() {
        d.skip(p)
    } else {
        Seq::empty()
    };
    (if negative {
        seq!['-']
    } else {
        Seq::empty()
    }) + i + seq!['.'] + f
}

/// A number with an exponent, written again as a plain decimal with the point moved.
pub open spec fn normalized(s: Seq<char>) -> Seq<char> {
    place_point(whole_part(mantissa(s)) + fraction_part(mantissa(s)), is_negative(s), shift(s))
}

/// The plain decimal that a duration's text stands for.
pub open spec fn duration_text(s: Seq<char>) -> Seq<char> {
    if has_exponent(s) {
        normalized(s)
    } else {
        s
    }
}

/// Decimal notation with an optional exponent: `e` or `E`, an optional sign, digits.
pub open spec fn is_duration_syntax(s: Seq<char>) -> bool {
    if has_exponent(s) {
        is_decimal_number(mantissa(s)) && is_decimal(
            exponent_text(s).skip(sign_len(exponent_text(s))),
        )
    } else {
        is_decimal_number(s)
    }
}

/// A duration's text that parses: the number it stands for is not below zero and not
/// above the largest duration.
pub open spec fn duration_ok(s: Seq<char>) -> bool {
    is_duration_syntax(s) && is_valid_duration(duration_text(s))
}

/// Append `k` zero digits.
fn push_zeros(out: &mut String, k: usize)
    ensures
        final(out)@ == old(out)@ + zeros(k as int),
{
    let mut i: usize = 0;
    while i < k
        invariant
            i <= k,
            out@ == old(out)@ + zeros(i as int),
        decreases k - i,
    {
        proof {
            reveal_strlit("0");
        }
        out.append("0");
        assert(out@ =~= old(out)@ + zeros(i as int + 1));
        i = i + 1;
    }
}

/// The digits before and after the point of a decimal number, where it is one.
fn decimal_parts(m: &str) -> (r: Option<(String, String)>)
    ensures
        match r {
            Some((w, f)) => is_decimal_number(m@) && w@ == whole_part(m@) && f@ == fraction_part(m@),
            None => !is_decimal_number(m@),
        },
{
    let n = m.unicode_len();
    let mut start: usize = 0;
    if n > 0 {
        let c = m.get_char(0);
        if c == '+' || c == '-' {
            start = 1;
        }
    }
    let b = m.substring_char(start, n);
    assert(b@ =~= unsigned_part(m@));
    let k = find_char(b, '.');
    let bl = b.unicode_len();
    let w = String::from_str(b.substring_char(0, k));
    let f = if k < bl {
        String::from_str(b.substring_char(k + 1, bl))
    } else {
        String::new()
    };
    assert(w@ =~= whole_part(m@));
    assert(f@ =~= fraction_part(m@));
    let wn = w.as_str().unicode_len();
    let fl = f.as_str().unicode_len();
    assert(w@.subrange(0, wn as int) =~= w@);
    assert(f@.subrange(0, fl as int) =~= f@);
    if !check_digits(w.as_str(), 0, wn) || !check_digits(f.as_str(), 0, fl) || (wn == 0 && fl
        == 0) {
        return None;
    }
    Some((w, f))
}

/// Write the digits `d` with the point after `p` of them.
#[verifier::rlimit(40)]
fn point_placed(d: &str, negative: bool, p: i128) -> (out: String)
    requires
        -9 <= p <= d@.len() + 21,
    ensures
        out@ == place_point(d@, negative, p as int),
{
    let dl = d.unicode_len();
    let mut out = String::new();
    if negative {
        proof {
            reveal_strlit("-");
        }
        out.append("-");
    }
    let ghost pre = out@;
    let ghost dd = d@;
    let ghost i_part = if p <= 0 {
        Seq::<char>::empty()
    } else if p <= dd.len() {
        dd.take(p as int)
    } else {
        dd + zeros(p - dd.len())
    };
    let ghost f_part = if p <= 0 {
        zeros(-p) + dd
    } else if p <= dd.len() {
        dd.skip(p as int)
    } else {
        Seq::<char>::empty()
    };
    if p > 0 {
        if p <= dl as i128 {
            let pu = p as usize;
            out.append(d.substring_char(0, pu));
        } else {
            out.append(d);
            push_zeros(&mut out, (p - dl as i128) as usize);
        }
    }
    assert(out@ =~= pre + i_part);
    proof {
        reveal_strlit(".");
    }
    out.append(".");
    let ghost mid = out@;
    if p <= 0 {
        push_zeros(&mut out, (0 - p) as usize);
        out.append(d);
    } else if p <= dl as i128 {
        let pu = p as usize;
        out.append(d.substring_char(pu, dl));
    }
    assert(out@ =~= mid + f_part);
    assert(out@ =~= place_point(d@, negative, p as int));
    out
}

/// Parse a duration given in seconds as a decimal number, with an optional exponent.
///
/// Accepts exactly the numbers that are not below zero and that do not exceed the largest
/// duration; a reading is exact, truncated to whole nanoseconds. A number out of range,
/// and `nan` or `inf`, is `InvalidValue`; other text is `MalformedFloat`.
pub fn parse_duration(field: &'static str, value: String) -> (r: Result<Duration, TypedResponseError>)
    ensures
        match r {
            Ok(d) => {
                &&& duration_ok(value@)
                &&& d.wf()
                &&& d.secs == digits_value(whole_part(duration_text(value@)))
                &&& d.nanos == fraction_nanos(fraction_part(duration_text(value@)))
            },
            Err(e) => {
                &&& !duration_ok(value@)
                &&& e.field == field
                &&& kind_model(e.kind) == duration_error_kind(value@)
            },
        },
{
    let s = value.as_str();
    let n = s.unicode_len();
    let e1 = find_char(s, 'e');
    let e2 = find_char(s, 'E');
    let ei = if e1 < e2 { e1 } else { e2 };
    if ei == n {
        return parse_decimal_duration(field, value);
    }
    let ghost sv = s@;
    let m = s.substring_char(0, ei);
    let x = s.substring_char(ei + 1, n);
    assert(m@ =~= mantissa(sv));
    assert(x@ =~= exponent_text(sv));
    let mut start: usize = 0;
    let mut negative = false;
    if n > 0 {
        let c = s.get_char(0);
        if c == '+' || c == '-' {
            start = 1;
            negative = c == '-';
        }
    }
    let xl = x.unicode_len();
    let mut xs: usize = 0;
    if xl > 0 {
        let c = x.get_char(0);
        if c == '+' || c == '-' {
            xs = 1;
        }
    }
    let parts = decimal_parts(m);
    assert(x@.subrange(xs as int, xl as int) =~= x@.skip(sign_len(x@)));
    if parts.is_none() || xs == xl || !check_digits(x, xs, xl) {
        assert(unsigned_part(sv) =~= sv.skip(start as int));
        if special_float_word(s, start) {
            return Err(TypedResponseError { field, kind: ErrorKind::InvalidValue(value) });
        }
        return Err(TypedResponseError { field, kind: ErrorKind::MalformedFloat });
    }
    let (w, f) = match parts {
        Some(p) => p,
        None => return Err(TypedResponseError { field, kind: ErrorKind::MalformedFloat }),
    };
    let ev: u64 = match digits_u64(x, xs, xl) {
        Some(v) => v,
        None => u64::MAX,
    };
    let wl = w.as_str().unicode_len();
    let mut d = w;
    d.append(f.as_str());
    let dl = d.as_str().unicode_len();
    let xneg = xl > 0 && x.get_char(0) == '-';
    let raw: i128 = if xneg {
        wl as i128 - ev as i128
    } else {
        wl as i128 + ev as i128
    };
    let hi: i128 = dl as i128 + 21;
    let p: i128 = if raw < -9 {
        -9
    } else if raw > hi {
        hi
    } else {
        raw
    };
    assert(p == shift(sv));
    assert(d@ == whole_part(mantissa(sv)) + fraction_part(mantissa(sv)));
    let out = point_placed(d.as_str(), negative, p);
    assert(out@ == normalized(sv));
    match parse_decimal_duration(field, out) {
        Ok(v) => Ok(v),
        Err(_) => Err(TypedResponseError { field, kind: ErrorKind::InvalidValue(value) }),
    }
}

} // verus!
