//! Character-level text handling shared by the forms, the identifier parser and the pages.
//!
//! Every string operation the library needs is specified here over the string's characters
//! (`s@`), so the other modules can state their contracts over `Seq<char>`.

use vstd::prelude::*;
use vstd::string::*;

verus! {

// ---------------------------------------------------------------------------------------------
// Specifications
// ---------------------------------------------------------------------------------------------

/// `char::is_whitespace`: the Unicode White_Space property.
pub open spec fn is_ws(c: char) -> bool {
    let u = c as u32;
    (0x09 <= u && u <= 0x0D) || u == 0x20 || u == 0x85 || u == 0xA0 || u == 0x1680 || (0x2000 <= u
        && u <= 0x200A) || u == 0x2028 || u == 0x2029 || u == 0x202F || u == 0x205F || u == 0x3000
}

/// `char::is_ascii_digit`
pub open spec fn is_digit(c: char) -> bool {
    48 <= (c as u32) && (c as u32) <= 57
}

/// The value of an ASCII digit.
pub open spec fn digit_value(c: char) -> int {
    (c as u32) - 48
}

/// The ASCII digit for a value below ten.
pub open spec fn digit_char(d: int) -> char {
    ((d + 48) as u32) as char
}

/// Every character is an ASCII digit.
pub open spec fn all_digits(s: Seq<char>) -> bool {
    forall|i: int| 0 <= i < s.len() ==> is_digit(#[trigger] s[i])
}

/// `s` with its leading whitespace removed (`str::trim_start`).
pub open spec fn trim_start_seq(s: Seq<char>) -> Seq<char>
    decreases s.len(),
{
    if s.len() > 0 && is_ws(s[0]) {
        trim_start_seq(s.drop_first())
    } else {
        s
    }
}

/// `s` with its trailing whitespace removed (`str::trim_end`).
pub open spec fn trim_end_seq(s: Seq<char>) -> Seq<char>
    decreases s.len(),
{
    if s.len() > 0 && is_ws(s.last()) {
        trim_end_seq(s.drop_last())
    } else {
        s
    }
}

/// `s` with leading and trailing whitespace removed (`str::trim`).
pub open spec fn trim_seq(s: Seq<char>) -> Seq<char> {
    trim_end_seq(trim_start_seq(s))
}

/// `p` is a prefix of `s`.
pub open spec fn has_prefix(s: Seq<char>, p: Seq<char>) -> bool {
    p.len() <= s.len() && s.subrange(0, p.len() as int) == p
}

/// `p` is a suffix of `s`.
pub open spec fn has_suffix(s: Seq<char>, p: Seq<char>) -> bool {
    p.len() <= s.len() && s.subrange(s.len() - p.len(), s.len() as int) == p
}

/// The natural number that a non-empty run of ASCII digits spells in decimal.
pub open spec fn digits_value(s: Seq<char>) -> int
    decreases s.len(),
{
    if s.len() == 0 {
        0
    } else {
        digits_value(s.drop_last()) * 10 + digit_value(s.last())
    }
}

/// What `str::parse::<i64>` makes of `s`: an optional sign, then one or more ASCII digits, with
/// the value in range.
pub open spec fn parse_i64_seq(s: Seq<char>) -> Option<int> {
    let negative = s.len() > 0 && s[0] == '-';
    let body = if s.len() > 0 && (s[0] == '-' || s[0] == '+') {
        s.drop_first()
    } else {
        s
    };
    if body.len() == 0 || !all_digits(body) {
        None
    } else {
        let v = if negative {
            -digits_value(body)
        } else {
            digits_value(body)
        };
        if i64::MIN <= v && v <= i64::MAX {
            Some(v)
        } else {
            None
        }
    }
}

/// The decimal digits of a natural number, without leading zeros.
pub open spec fn decimal_nat(n: nat) -> Seq<char>
    decreases n,
{
    if n < 10 {
        seq![digit_char(n as int)]
    } else {
        decimal_nat(n / 10).push(digit_char((n % 10) as int))
    }
}

/// An integer in decimal, as `i64::to_string` writes it.
pub open spec fn decimal(n: int) -> Seq<char> {
    if n < 0 {
        seq!['-'] + decimal_nat((-n) as nat)
    } else {
        decimal_nat(n as nat)
    }
}

/// `char::to_ascii_uppercase`
pub open spec fn ascii_upper(c: char) -> char {
    if 97 <= (c as u32) && (c as u32) <= 122 {
        ((c as u32) - 32) as char
    } else {
        c
    }
}

/// `str::to_ascii_uppercase`
pub open spec fn ascii_upper_seq(s: Seq<char>) -> Seq<char> {
    s.map_values(|c: char| ascii_upper(c))
}

/// `char::eq_ignore_ascii_case`
pub open spec fn eq_ignore_case(a: char, b: char) -> bool {
    ascii_upper(a) == ascii_upper(b)
}

/// `s` without the characters `p` holds, in order (`Iterator::filter`).
pub open spec fn remove_chars(s: Seq<char>, p: spec_fn(char) -> bool) -> Seq<char> {
    s.filter(|c: char| !p(c))
}

/// The words of `s`, as `str::split_whitespace` finds them: maximal runs of non-whitespace.
pub open spec fn words(s: Seq<char>) -> Seq<Seq<char>>
    decreases s.len(),
{
    let t = trim_start_seq(s);
    if t.len() == 0 {
        seq![]
    } else {
        let n = word_len(t);
        proof {
            lemma_trim_start_is_suffix(s);
            lemma_word_len(t);
        }
        seq![t.take(n)] + words(t.skip(n))
    }
}

pub proof fn lemma_word_len(s: Seq<char>)
    ensures
        0 <= word_len(s) <= s.len(),
        s.len() > 0 && !is_ws(s[0]) ==> word_len(s) >= 1,
        forall|i: int| 0 <= i < word_len(s) ==> !is_ws(#[trigger] s[i]),
        word_len(s) < s.len() ==> is_ws(s[word_len(s)]),
    decreases s.len(),
{
    if s.len() > 0 && !is_ws(s[0]) {
        lemma_word_len(s.drop_first());
        assert forall|i: int| 0 <= i < word_len(s) implies !is_ws(#[trigger] s[i]) by {
            if i > 0 {
                assert(s[i] == s.drop_first()[i - 1]);
            }
        }
        if word_len(s) < s.len() {
            assert(s[word_len(s)] == s.drop_first()[word_len(s) - 1]);
        }
    }
}

/// The length of the run of non-whitespace characters at the start of `s`.
pub open spec fn word_len(s: Seq<char>) -> int
    decreases s.len(),
{
    if s.len() == 0 || is_ws(s[0]) {
        0
    } else {
        1 + word_len(s.drop_first())
    }
}

/// Words joined with a separator between each pair (`[&str]::join`).
pub open spec fn join(parts: Seq<Seq<char>>, sep: Seq<char>) -> Seq<char>
    decreases parts.len(),
{
    if parts.len() == 0 {
        seq![]
    } else if parts.len() == 1 {
        parts[0]
    } else {
        join(parts.drop_last(), sep) + sep + parts.last()
    }
}

// ---------------------------------------------------------------------------------------------
// Lemmas
// ---------------------------------------------------------------------------------------------

pub proof fn lemma_trim_start_is_suffix(s: Seq<char>)
    ensures
        trim_start_seq(s).len() <= s.len(),
        trim_start_seq(s) == s.skip(s.len() - trim_start_seq(s).len()),
        forall|i: int| 0 <= i < s.len() - trim_start_seq(s).len() ==> is_ws(#[trigger] s[i]),
        trim_start_seq(s).len() > 0 ==> !is_ws(trim_start_seq(s)[0]),
    decreases s.len(),
{
    if s.len() > 0 && is_ws(s[0]) {
        lemma_trim_start_is_suffix(s.drop_first());
        assert forall|i: int| 0 <= i < s.len() - trim_start_seq(s).len() implies is_ws(#[trigger] s[i]) by {
            if i > 0 {
                assert(s[i] == s.drop_first()[i - 1]);
            }
        }
        assert(s.drop_first().skip(s.drop_first().len() - trim_start_seq(s).len()) =~= s.skip(
            s.len() - trim_start_seq(s).len(),
        ));
    } else {
        assert(s.skip(0) =~= s);
    }
}

pub proof fn lemma_trim_end_is_prefix(s: Seq<char>)
    ensures
        trim_end_seq(s).len() <= s.len(),
        trim_end_seq(s) == s.take(trim_end_seq(s).len() as int),
        forall|i: int| trim_end_seq(s).len() <= i < s.len() ==> is_ws(#[trigger] s[i]),
        trim_end_seq(s).len() > 0 ==> !is_ws(trim_end_seq(s).last()),
    decreases s.len(),
{
    if s.len() > 0 && is_ws(s.last()) {
        lemma_trim_end_is_prefix(s.drop_last());
        assert forall|i: int| trim_end_seq(s).len() <= i < s.len() implies is_ws(#[trigger] s[i]) by {
            if i < s.len() - 1 {
                assert(s[i] == s.drop_last()[i]);
            }
        }
        assert(s.drop_last().take(trim_end_seq(s).len() as int) =~= s.take(
            trim_end_seq(s).len() as int,
        ));
    } else {
        assert(s.take(s.len() as int) =~= s);
    }
}

/// Trimming the start of `s` skips exactly the leading whitespace: the first `k` characters are
/// whitespace and the next one is not (or there is none).
pub proof fn lemma_trim_start_char(s: Seq<char>, k: int)
    requires
        0 <= k <= s.len(),
        forall|i: int| 0 <= i < k ==> is_ws(#[trigger] s[i]),
        k == s.len() || !is_ws(s[k]),
    ensures
        trim_start_seq(s) == s.skip(k),
    decreases k,
{
    if k > 0 {
        assert forall|i: int| 0 <= i < k - 1 implies is_ws(#[trigger] s.drop_first()[i]) by {
            assert(s.drop_first()[i] == s[i + 1]);
        }
        lemma_trim_start_char(s.drop_first(), k - 1);
        assert(s.drop_first().skip(k - 1) =~= s.skip(k));
    } else {
        assert(s.skip(0) =~= s);
    }
}

/// Trimming the end of `s` keeps exactly the first `k` characters when the rest is whitespace and
/// character `k - 1` is not.
pub proof fn lemma_trim_end_char(s: Seq<char>, k: int)
    requires
        0 <= k <= s.len(),
        forall|i: int| k <= i < s.len() ==> is_ws(#[trigger] s[i]),
        k == 0 || !is_ws(s[k - 1]),
    ensures
        trim_end_seq(s) == s.take(k),
    decreases s.len() - k,
{
    if k < s.len() {
        assert forall|i: int| k <= i < s.drop_last().len() implies is_ws(#[trigger] s.drop_last()[i]) by {
            assert(s.drop_last()[i] == s[i]);
        }
        lemma_trim_end_char(s.drop_last(), k);
        assert(s.drop_last().take(k) =~= s.take(k));
    } else {
        assert(s.take(k) =~= s);
    }
}

proof fn lemma_decimal_nat_len(n: nat)
    ensures
        decimal_nat(n).len() >= 1,
        all_digits(decimal_nat(n)),
    decreases n,
{
    if n >= 10 {
        lemma_decimal_nat_len(n / 10);
        let s = decimal_nat(n);
        assert forall|i: int| 0 <= i < s.len() implies is_digit(#[trigger] s[i]) by {
            if i < s.len() - 1 {
                assert(s[i] == decimal_nat(n / 10)[i]);
            }
        }
    }
}

/// A decimal is a run of ASCII digits, except for the sign of a negative number.
pub proof fn lemma_decimal_digits(n: int)
    ensures
        n >= 0 ==> all_digits(decimal(n)) && decimal(n).len() >= 1,
        n < 0 ==> decimal(n)[0] == '-' && all_digits(decimal(n).drop_first()) && decimal(n).len()
            >= 2,
{
    if n >= 0 {
        lemma_decimal_nat_len(n as nat);
    } else {
        lemma_decimal_nat_len((-n) as nat);
        assert(decimal(n).drop_first() =~= decimal_nat((-n) as nat));
    }
}

// ---------------------------------------------------------------------------------------------
// Strings built character by character
// ---------------------------------------------------------------------------------------------

/// `String::push`
#[verifier::external_body]
pub fn push_char(s: &mut String, c: char)
    ensures
        final(s)@ == old(s)@.push(c),
{
    s.push(c);
}

/// `s` with `t` appended, by vstd's `append` for `String`.
pub fn push_str(s: &mut String, t: &str)
    ensures
        final(s)@ == old(s)@ + t@,
{
    s.append(t);
}

/// A string holding exactly these characters.
pub fn string_of(v: &Vec<char>) -> (s: String)
    ensures
        s@ == v@,
{
    let mut s = String::new();
    let mut i: usize = 0;
    while i < v.len()
        invariant
            i <= v.len(),
            s@ == v@.take(i as int),
        decreases v.len() - i,
    {
        push_char(&mut s, v[i]);
        assert(v@.take(i + 1) =~= v@.take(i as int).push(v@[i as int]));
        i = i + 1;
    }
    assert(v@.take(v.len() as int) =~= v@);
    s
}

/// The characters of a string, in order.
pub fn chars_of(s: &str) -> (v: Vec<char>)
    ensures
        v@ == s@,
{
    let mut v: Vec<char> = Vec::new();
    for c in it: s.chars()
        invariant
            v@ == it.seq().take(it.index() as int),
    {
        v.push(c);
    }
    v
}

/// A copy of a string slice.
pub fn owned(s: &str) -> (r: String)
    ensures
        r@ == s@,
{
    s.to_owned()
}

/// The concatenation of two strings.
pub fn concat(a: &str, b: &str) -> (r: String)
    ensures
        r@ == a@ + b@,
{
    let mut r = a.to_owned();
    push_str(&mut r, b);
    r
}

/// Do the two strings hold the same characters?
pub fn str_eq(a: &str, b: &str) -> (r: bool)
    ensures
        r == (a@ == b@),
{
    let x = chars_of(a);
    let y = chars_of(b);
    if x.len() != y.len() {
        return false;
    }
    let mut i: usize = 0;
    while i < x.len()
        invariant
            x@ == a@,
            y@ == b@,
            x.len() == y.len(),
            i <= x.len(),
            x@.take(i as int) == y@.take(i as int),
        decreases x.len() - i,
    {
        if x[i] != y[i] {
            assert(x@[i as int] != y@[i as int]);
            return false;
        }
        assert(x@.take(i + 1) =~= x@.take(i as int).push(x@[i as int]));
        assert(y@.take(i + 1) =~= y@.take(i as int).push(y@[i as int]));
        i = i + 1;
    }
    assert(x@.take(x.len() as int) =~= x@);
    assert(y@.take(y.len() as int) =~= y@);
    true
}

/// Is the string empty?
pub fn is_empty(s: &str) -> (r: bool)
    ensures
        r == (s@.len() == 0),
{
    s.is_empty()
}

// ---------------------------------------------------------------------------------------------
// Character classes
// ---------------------------------------------------------------------------------------------

/// `char::is_whitespace`
pub fn is_whitespace(c: char) -> (r: bool)
    ensures
        r == is_ws(c),
{
    let u = c as u32;
    (0x09 <= u && u <= 0x0D) || u == 0x20 || u == 0x85 || u == 0xA0 || u == 0x1680 || (0x2000 <= u
        && u <= 0x200A) || u == 0x2028 || u == 0x2029 || u == 0x202F || u == 0x205F || u == 0x3000
}

/// `char::is_ascii_digit`
pub fn is_ascii_digit(c: char) -> (r: bool)
    ensures
        r == is_digit(c),
{
    let u = c as u32;
    48 <= u && u <= 57
}

/// `char::to_ascii_uppercase`
pub fn to_ascii_upper(c: char) -> (r: char)
    ensures
        r == ascii_upper(c),
{
    let u = c as u32;
    if 97 <= u && u <= 122 {
        proof {
            assert(65 <= u - 32 <= 90);
        }
        char_from_ascii(u - 32)
    } else {
        c
    }
}

/// The character of an ASCII code.
pub fn char_from_ascii(u: u32) -> (c: char)
    requires
        u < 128,
    ensures
        c == u as char,
        c as u32 == u,
{
    let b = u as u8;
    b as char
}

/// The ASCII digit for a value below ten.
pub fn digit_to_char(d: u64) -> (c: char)
    requires
        d < 10,
    ensures
        c == digit_char(d as int),
        is_digit(c),
        digit_value(c) == d,
{
    char_from_ascii((d + 48) as u32)
}

// ---------------------------------------------------------------------------------------------
// Trimming
// ---------------------------------------------------------------------------------------------

/// How many whitespace characters `v` starts with.
pub fn leading_ws(v: &Vec<char>) -> (k: usize)
    ensures
        k <= v.len(),
        trim_start_seq(v@) == v@.skip(k as int),
        forall|i: int| 0 <= i < k ==> is_ws(#[trigger] v@[i]),
        k == v.len() || !is_ws(v@[k as int]),
{
    let mut k: usize = 0;
    while k < v.len() && is_whitespace(v[k])
        invariant
            k <= v.len(),
            forall|i: int| 0 <= i < k ==> is_ws(#[trigger] v@[i]),
        decreases v.len() - k,
    {
        k = k + 1;
    }
    proof {
        lemma_trim_start_char(v@, k as int);
    }
    k
}

/// The length `v` keeps once its trailing whitespace is removed.
pub fn kept_before_trailing_ws(v: &Vec<char>) -> (k: usize)
    ensures
        k <= v.len(),
        trim_end_seq(v@) == v@.take(k as int),
{
    let mut k: usize = v.len();
    while k > 0 && is_whitespace(v[k - 1])
        invariant
            k <= v.len(),
            forall|i: int| k <= i < v.len() ==> is_ws(#[trigger] v@[i]),
        decreases k,
    {
        k = k - 1;
    }
    proof {
        lemma_trim_end_char(v@, k as int);
    }
    k
}

/// The characters of `v` from `start` up to `end`.
pub fn slice_chars(v: &Vec<char>, start: usize, end: usize) -> (r: Vec<char>)
    requires
        start <= end <= v.len(),
    ensures
        r@ == v@.subrange(start as int, end as int),
{
    let mut r: Vec<char> = Vec::new();
    let mut i = start;
    while i < end
        invariant
            start <= i <= end <= v.len(),
            r@ == v@.subrange(start as int, i as int),
        decreases end - i,
    {
        r.push(v[i]);
        assert(v@.subrange(start as int, i + 1) =~= v@.subrange(start as int, i as int).push(
            v@[i as int],
        ));
        i = i + 1;
    }
    r
}

/// `str::trim_start` over characters.
pub fn trim_start_chars(v: &Vec<char>) -> (r: Vec<char>)
    ensures
        r@ == trim_start_seq(v@),
{
    let k = leading_ws(v);
    let r = slice_chars(v, k, v.len());
    assert(r@ =~= v@.skip(k as int));
    r
}

/// `str::trim` over characters.
pub fn trim_chars(v: &Vec<char>) -> (r: Vec<char>)
    ensures
        r@ == trim_seq(v@),
{
    let t = trim_start_chars(v);
    let k = kept_before_trailing_ws(&t);
    let r = slice_chars(&t, 0, k);
    assert(r@ =~= t@.take(k as int));
    r
}

/// `str::trim`, as an owned string.
pub fn trim(s: &str) -> (r: String)
    ensures
        r@ == trim_seq(s@),
{
    let v = chars_of(s);
    let t = trim_chars(&v);
    string_of(&t)
}

// ---------------------------------------------------------------------------------------------
// Numbers
// ---------------------------------------------------------------------------------------------

proof fn lemma_digits_value_push(s: Seq<char>, c: char)
    ensures
        digits_value(s.push(c)) == digits_value(s) * 10 + digit_value(c),
{
    assert(s.push(c).drop_last() =~= s);
}

proof fn lemma_digits_value_nonneg(s: Seq<char>)
    requires
        all_digits(s),
    ensures
        digits_value(s) >= 0,
    decreases s.len(),
{
    if s.len() > 0 {
        lemma_digits_value_nonneg(s.drop_last());
    }
}

proof fn lemma_digits_value_monotone(s: Seq<char>, i: int)
    requires
        all_digits(s),
        0 <= i <= s.len(),
    ensures
        digits_value(s.take(i)) <= digits_value(s),
    decreases s.len() - i,
{
    if i < s.len() {
        lemma_digits_value_monotone(s, i + 1);
        assert(s.take(i + 1).drop_last() =~= s.take(i));
        assert(all_digits(s.take(i)));
        lemma_digits_value_nonneg(s.take(i));
    } else {
        assert(s.take(i) =~= s);
    }
}

/// What `str::parse::<i64>` makes of the string.
pub fn parse_i64(s: &str) -> (r: Option<i64>)
    ensures
        r matches Some(v) ==> parse_i64_seq(s@) == Some(v as int),
        r is None ==> parse_i64_seq(s@) is None,
{
    let v = chars_of(s);
    if v.len() == 0 {
        return None;
    }
    let negative = v[0] == '-';
    let start: usize = if v[0] == '-' || v[0] == '+' {
        1
    } else {
        0
    };
    let ghost body = v@.skip(start as int);
    proof {
        if v@[0] == '-' || v@[0] == '+' {
            assert(body =~= v@.drop_first());
        } else {
            assert(body =~= v@);
        }
    }
    if start == v.len() {
        assert(body.len() == 0);
        return None;
    }
    // The magnitude, bounded by what an i64 can hold (its minimum is one more than its maximum)
    let limit: u64 = if negative {
        9223372036854775808
    } else {
        9223372036854775807
    };
    let mut acc: u64 = 0;
    let mut i = start;
    while i < v.len()
        invariant
            start <= i <= v.len(),
            start <= 1,
            v.len() > 0,
            v@ == s@,
            negative == (v@[0] == '-'),
            start == 1 <==> (v@[0] == '-' || v@[0] == '+'),
            body == v@.skip(start as int),
            body == (if v@[0] == '-' || v@[0] == '+' { v@.drop_first() } else { v@ }),
            limit == (if negative { 9223372036854775808u64 } else { 9223372036854775807u64 }),
            acc <= limit,
            all_digits(v@.subrange(start as int, i as int)),
            acc == digits_value(v@.subrange(start as int, i as int)),
        decreases v.len() - i,
    {
        let c = v[i];
        if !is_ascii_digit(c) {
            assert(body[i - start] == c);
            assert(!all_digits(body));
            return None;
        }
        assert(48 <= c as u32 <= 57);
        let d = (c as u32 - 48) as u64;
        assert(d <= 9);
        proof {
            lemma_digits_value_push(v@.subrange(start as int, i as int), c);
            assert(v@.subrange(start as int, i + 1) =~= v@.subrange(start as int, i as int).push(
                c,
            ));
        }
        if acc > (limit - d) / 10 {
            proof {
                // The digits so far already overflow, and more digits only make it larger
                assert(acc * 10 + d > limit) by (nonlinear_arith)
                    requires
                        acc > (limit - d) / 10,
                        d <= 9,
                        limit >= 9,
                ;
                let rest = v@.subrange(start as int, v.len() as int);
                if all_digits(body) {
                    assert(body =~= rest);
                    assert(rest.take(i + 1 - start) =~= v@.subrange(start as int, i + 1));
                    lemma_digits_value_monotone(rest, i + 1 - start);
                }
            }
            return None;
        }
        proof {
            assert(acc * 10 + d <= limit) by (nonlinear_arith)
                requires
                    acc <= (limit - d) / 10,
                    d <= 9,
                    limit >= 9,
            ;
        }
        acc = acc * 10 + d;
        i = i + 1;
    }
    assert(v@.subrange(start as int, v.len() as int) =~= body);
    if negative {
        if acc == 9223372036854775808 {
            Some(i64::MIN)
        } else {
            Some(-(acc as i64))
        }
    } else {
        Some(acc as i64)
    }
}

/// What `str::parse::<i64>` makes of the string, with surrounding whitespace ignored.
pub fn parse_trimmed_i64(s: &str) -> (r: Option<i64>)
    ensures
        r matches Some(v) ==> parse_i64_seq(trim_seq(s@)) == Some(v as int),
        r is None ==> parse_i64_seq(trim_seq(s@)) is None,
{
    let t = trim(s);
    parse_i64(t.as_str())
}

proof fn lemma_decimal_nat_step(q: nat)
    requires
        q >= 10,
    ensures
        decimal_nat(q) == decimal_nat(q / 10).push(digit_char((q % 10) as int)),
{
}

/// The decimal digits of a natural number.
pub fn decimal_u64(n: u64) -> (r: Vec<char>)
    ensures
        r@ == decimal_nat(n as nat),
{
    let mut out: Vec<char> = Vec::new();
    let mut q = n;
    loop
        invariant
            decimal_nat(n as nat) == decimal_nat(q as nat) + out@,
        decreases q,
    {
        let d = digit_to_char(q % 10);
        let ghost old_out = out@;
        out.insert(0, d);
        assert(out@ =~= seq![d] + old_out);
        if q < 10 {
            assert(decimal_nat(q as nat) =~= seq![d]);
            assert(decimal_nat(n as nat) =~= out@);
            return out;
        }
        proof {
            lemma_decimal_nat_step(q as nat);
            assert(decimal_nat(q as nat) + old_out =~= decimal_nat((q / 10) as nat) + out@);
        }
        q = q / 10;
    }
}

/// An integer in decimal (`i64::to_string`).
pub fn decimal_i64(n: i64) -> (r: String)
    ensures
        r@ == decimal(n as int),
{
    if n < 0 {
        let m: u64 = if n == i64::MIN {
            9223372036854775808
        } else {
            (-n) as u64
        };
        let digits = decimal_u64(m);
        let mut r = String::new();
        push_char(&mut r, '-');
        let d = string_of(&digits);
        push_str(&mut r, d.as_str());
        r
    } else {
        let digits = decimal_u64(n as u64);
        string_of(&digits)
    }
}

/// A count in decimal (`usize::to_string`).
pub fn decimal_usize(n: usize) -> (r: String)
    ensures
        r@ == decimal(n as int),
{
    let digits = decimal_u64(n as u64);
    string_of(&digits)
}

} // verus!

verus! {

/// `word_len` is the length of the run of non-whitespace characters at the start.
pub proof fn lemma_word_len_char(s: Seq<char>, m: int)
    requires
        0 <= m <= s.len(),
        forall|i: int| 0 <= i < m ==> !is_ws(#[trigger] s[i]),
        m == s.len() || is_ws(s[m]),
    ensures
        word_len(s) == m,
    decreases m,
{
    if m > 0 {
        assert forall|i: int| 0 <= i < m - 1 implies !is_ws(#[trigger] s.drop_first()[i]) by {
            assert(s.drop_first()[i] == s[i + 1]);
        }
        if m < s.len() {
            assert(s.drop_first()[m - 1] == s[m]);
        }
        lemma_word_len_char(s.drop_first(), m - 1);
    }
}

/// The position after the whitespace that starts at `k`.
fn skip_ws_from(v: &Vec<char>, k: usize) -> (r: usize)
    requires
        k <= v.len(),
    ensures
        k <= r <= v.len(),
        trim_start_seq(v@.skip(k as int)) == v@.skip(r as int),
{
    let mut r = k;
    while r < v.len() && is_whitespace(v[r])
        invariant
            k <= r <= v.len(),
            forall|i: int| k <= i < r ==> is_ws(#[trigger] v@[i]),
        decreases v.len() - r,
    {
        r = r + 1;
    }
    proof {
        let s = v@.skip(k as int);
        assert forall|i: int| 0 <= i < r - k implies is_ws(#[trigger] s[i]) by {
            assert(s[i] == v@[k + i]);
        }
        if r < v.len() {
            assert(s[r - k] == v@[r as int]);
        }
        lemma_trim_start_char(s, r - k);
        assert(s.skip(r - k) =~= v@.skip(r as int));
    }
    r
}

/// The words of a string, as `str::split_whitespace` finds them.
pub fn split_whitespace(s: &str) -> (r: Vec<String>)
    ensures
        r@.map_values(|w: String| w@) == words(s@),
{
    let v = chars_of(s);
    let mut r: Vec<String> = Vec::new();
    let mut k: usize = 0;
    assert(v@.skip(0) =~= v@);
    assert(r@.map_values(|w: String| w@) + words(v@.skip(0)) =~= words(v@));
    while k < v.len()
        invariant
            v@ == s@,
            k <= v.len(),
            words(v@) == r@.map_values(|w: String| w@) + words(v@.skip(k as int)),
        decreases v.len() - k,
    {
        let start = skip_ws_from(&v, k);
        let ghost t = v@.skip(start as int);
        if start == v.len() {
            assert(t.len() == 0);
            assert(words(v@.skip(k as int)) =~= Seq::<Seq<char>>::empty());
            assert(v@.skip(v.len() as int) =~= Seq::<char>::empty());
            assert(words(v@.skip(v.len() as int)) =~= Seq::<Seq<char>>::empty());
            k = v.len();
            assert(words(v@) =~= r@.map_values(|w: String| w@) + words(v@.skip(k as int)));
        } else {
            let mut end = start;
            while end < v.len() && !is_whitespace(v[end])
                invariant
                    start <= end <= v.len(),
                    forall|i: int| start <= i < end ==> !is_ws(#[trigger] v@[i]),
                decreases v.len() - end,
            {
                end = end + 1;
            }
            proof {
                assert forall|i: int| 0 <= i < end - start implies !is_ws(#[trigger] t[i]) by {
                    assert(t[i] == v@[start + i]);
                }
                if end < v.len() {
                    assert(t[end - start] == v@[end as int]);
                }
                lemma_word_len_char(t, end - start);
                assert(t.take(end - start) =~= v@.subrange(start as int, end as int));
                assert(t.skip(end - start) =~= v@.skip(end as int));
            }
            let word = slice_chars(&v, start, end);
            let ghost before = r@;
            r.push(string_of(&word));
            proof {
                assert(r@.map_values(|w: String| w@) =~= before.map_values(|w: String| w@).push(
                    v@.subrange(start as int, end as int),
                ));
                assert(words(v@.skip(k as int)) =~= seq![v@.subrange(start as int, end as int)]
                    + words(v@.skip(end as int)));
                assert(words(v@) =~= r@.map_values(|w: String| w@) + words(v@.skip(end as int)));
            }
            k = end;
        }
    }
    assert(v@.skip(v.len() as int) =~= Seq::<char>::empty());
    assert(words(v@.skip(v.len() as int)) =~= Seq::<Seq<char>>::empty());
    assert(r@.map_values(|w: String| w@) =~= words(v@));
    r
}

/// Strings joined with a separator between each pair (`[String]::join`).
pub fn join_strings(parts: &Vec<String>, sep: &str) -> (r: String)
    ensures
        r@ == join(parts@.map_values(|w: String| w@), sep@),
{
    let ghost views = parts@.map_values(|w: String| w@);
    let mut r = String::new();
    let mut i: usize = 0;
    while i < parts.len()
        invariant
            i <= parts.len(),
            views == parts@.map_values(|w: String| w@),
            r@ == join(views.take(i as int), sep@),
        decreases parts.len() - i,
    {
        if i > 0 {
            push_str(&mut r, sep);
        }
        push_str(&mut r, parts[i].as_str());
        proof {
            assert(views.take(i + 1).drop_last() =~= views.take(i as int));
            if i == 0 {
                assert(r@ =~= views.take(1)[0]);
            }
        }
        i = i + 1;
    }
    assert(views.take(parts.len() as int) =~= views);
    r
}

} // verus!

verus! {

/// The length of the run of ASCII digits at the start of `s`.
pub open spec fn digit_run_len(s: Seq<char>) -> int
    decreases s.len(),
{
    if s.len() == 0 || !is_digit(s[0]) {
        0
    } else {
        1 + digit_run_len(s.drop_first())
    }
}

pub proof fn lemma_digit_run_len(s: Seq<char>, m: int)
    requires
        0 <= m <= s.len(),
        forall|i: int| 0 <= i < m ==> is_digit(#[trigger] s[i]),
        m == s.len() || !is_digit(s[m]),
    ensures
        digit_run_len(s) == m,
    decreases m,
{
    if m > 0 {
        assert forall|i: int| 0 <= i < m - 1 implies is_digit(#[trigger] s.drop_first()[i]) by {
            assert(s.drop_first()[i] == s[i + 1]);
        }
        if m < s.len() {
            assert(s.drop_first()[m - 1] == s[m]);
        }
        lemma_digit_run_len(s.drop_first(), m - 1);
    }
}

pub proof fn lemma_digit_run_len_bound(s: Seq<char>)
    ensures
        0 <= digit_run_len(s) <= s.len(),
    decreases s.len(),
{
    if s.len() > 0 && is_digit(s[0]) {
        lemma_digit_run_len_bound(s.drop_first());
    }
}

/// What `str::parse::<usize>` makes of `s`: an optional plus sign, then one or more ASCII
/// digits, with the value in range.
pub open spec fn parse_usize_seq(s: Seq<char>) -> Option<int> {
    let body = if s.len() > 0 && s[0] == '+' {
        s.drop_first()
    } else {
        s
    };
    if body.len() == 0 || !all_digits(body) {
        None
    } else if digits_value(body) <= usize::MAX {
        Some(digits_value(body))
    } else {
        None
    }
}

/// What `str::parse::<usize>` makes of the string.
pub fn parse_usize(s: &str) -> (r: Option<usize>)
    ensures
        r matches Some(v) ==> parse_usize_seq(s@) == Some(v as int),
        r is None ==> parse_usize_seq(s@) is None,
{
    let v = chars_of(s);
    let start: usize = if v.len() > 0 && v[0] == '+' {
        1
    } else {
        0
    };
    let ghost body = v@.skip(start as int);
    proof {
        if v@.len() > 0 && v@[0] == '+' {
            assert(body =~= v@.drop_first());
        } else {
            assert(body =~= v@);
        }
    }
    if start == v.len() {
        assert(body.len() == 0);
        return None;
    }
    let mut acc: usize = 0;
    let mut i = start;
    while i < v.len()
        invariant
            start <= i <= v.len(),
            start <= 1,
            v@ == s@,
            start == 1 <==> (v@.len() > 0 && v@[0] == '+'),
            body == v@.skip(start as int),
            body == (if v@.len() > 0 && v@[0] == '+' { v@.drop_first() } else { v@ }),
            all_digits(v@.subrange(start as int, i as int)),
            acc == digits_value(v@.subrange(start as int, i as int)),
        decreases v.len() - i,
    {
        let c = v[i];
        if !is_ascii_digit(c) {
            assert(body[i - start] == c);
            assert(!all_digits(body));
            return None;
        }
        assert(48 <= c as u32 <= 57);
        let d = (c as u32 - 48) as usize;
        assert(d <= 9);
        proof {
            lemma_digits_value_push(v@.subrange(start as int, i as int), c);
            assert(v@.subrange(start as int, i + 1) =~= v@.subrange(start as int, i as int).push(
                c,
            ));
        }
        if acc > (usize::MAX - d) / 10 {
            proof {
                assert(acc * 10 + d > usize::MAX) by (nonlinear_arith)
                    requires
                        acc > (usize::MAX - d) / 10,
                        d <= 9,
                ;
                let rest = v@.subrange(start as int, v.len() as int);
                if all_digits(body) {
                    assert(body =~= rest);
                    assert(rest.take(i + 1 - start) =~= v@.subrange(start as int, i + 1));
                    lemma_digits_value_monotone(rest, i + 1 - start);
                }
            }
            return None;
        }
        proof {
            assert(acc * 10 + d <= usize::MAX) by (nonlinear_arith)
                requires
                    acc <= (usize::MAX - d) / 10,
                    d <= 9,
            ;
        }
        acc = acc * 10 + d;
        i = i + 1;
    }
    assert(v@.subrange(start as int, v.len() as int) =~= body);
    Some(acc)
}


/// The decimal digits of a natural number spell it.
proof fn lemma_digits_value_decimal_nat(n: nat)
    ensures
        digits_value(decimal_nat(n)) == n,
    decreases n,
{
    if n < 10 {
        let s = decimal_nat(n);
        assert(s == seq![digit_char(n as int)]);
        assert(s.drop_last() =~= Seq::<char>::empty());
        assert(s.last() == digit_char(n as int));
        assert(digit_value(digit_char(n as int)) == n);
        assert(digits_value(s) == digits_value(s.drop_last()) * 10 + digit_value(s.last()));
    } else {
        lemma_decimal_nat_step(n);
        lemma_digits_value_decimal_nat(n / 10);
        lemma_digits_value_push(decimal_nat(n / 10), digit_char((n % 10) as int));
        assert(digit_value(digit_char((n % 10) as int)) == n % 10);
        assert((n / 10) * 10 + n % 10 == n);
    }
}

/// An integer written in decimal reads back as itself, surrounding whitespace or not: what
/// `i64::to_string` writes, `str::parse::<i64>` reads.
pub proof fn lemma_decimal_reads_back(n: int)
    requires
        i64::MIN <= n <= i64::MAX,
    ensures
        parse_i64_seq(trim_seq(decimal(n))) == Some(n),
{
    let s = decimal(n);
    lemma_decimal_digits(n);
    assert forall|i: int| 0 <= i < s.len() implies !is_ws(#[trigger] s[i]) by {
        if n < 0 && i > 0 {
            assert(s[i] == s.drop_first()[i - 1]);
        }
    }
    lemma_trim_start_char(s, 0);
    assert(s.skip(0) =~= s);
    lemma_trim_end_char(s, s.len() as int);
    assert(s.take(s.len() as int) =~= s);
    assert(trim_seq(s) == s);
    if n >= 0 {
        lemma_digits_value_decimal_nat(n as nat);
    } else {
        lemma_digits_value_decimal_nat((-n) as nat);
        assert(s.drop_first() =~= decimal_nat((-n) as nat));
    }
}

} // verus!
