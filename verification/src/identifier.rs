//! The identifiers printed on a publication, and their canonical forms.

use vstd::prelude::*;

use crate::text::{
    all_digits, lemma_trim_end_char, lemma_trim_start_char, ascii_upper, chars_of, concat, digit_value, eq_ignore_case, is_ascii_digit, is_digit,
    is_empty, is_whitespace, is_ws, owned, slice_chars, str_eq, string_of, to_ascii_upper, trim,
    trim_seq,
};

verus! {

/// The kinds of identifier printed on a publication
#[derive(Debug, Clone, Copy, PartialEq, Eq, Structural)]
pub enum Kind {
    Isbn,
    Ismn,
    PublisherNumber,
    PlateNumber,
}

impl Kind {
    /// The name a kind is stored and posted under.
    pub open spec fn name(self) -> Seq<char> {
        match self {
            Kind::Isbn => "isbn"@,
            Kind::Ismn => "ismn"@,
            Kind::PublisherNumber => "publisher_number"@,
            Kind::PlateNumber => "plate_number"@,
        }
    }

    pub fn as_str(self) -> (r: &'static str)
        ensures
            r@ == self.name(),
    {
        match self {
            Kind::Isbn => "isbn",
            Kind::Ismn => "ismn",
            Kind::PublisherNumber => "publisher_number",
            Kind::PlateNumber => "plate_number",
        }
    }

    /// The kind a name stands for, if any.
    pub open spec fn named(s: Seq<char>) -> Option<Kind> {
        if s == "isbn"@ {
            Some(Kind::Isbn)
        } else if s == "ismn"@ {
            Some(Kind::Ismn)
        } else if s == "publisher_number"@ {
            Some(Kind::PublisherNumber)
        } else if s == "plate_number"@ {
            Some(Kind::PlateNumber)
        } else {
            None
        }
    }

    /// Read a kind from its name; anything else is refused with a message naming it.
    pub fn from_name(s: &str) -> (r: Result<Kind, String>)
        ensures
            r matches Ok(kind) ==> Kind::named(s@) == Some(kind),
            r matches Err(message) ==> Kind::named(s@) is None && message@ == "unknown identifier kind: "@
                + s@,
    {
        if str_eq(s, "isbn") {
            Ok(Kind::Isbn)
        } else if str_eq(s, "ismn") {
            Ok(Kind::Ismn)
        } else if str_eq(s, "publisher_number") {
            Ok(Kind::PublisherNumber)
        } else if str_eq(s, "plate_number") {
            Ok(Kind::PlateNumber)
        } else {
            Err(concat("unknown identifier kind: ", s))
        }
    }
}

/// Each kind's name reads back as that kind.
pub proof fn lemma_kind_name_roundtrip(kind: Kind)
    ensures
        Kind::named(kind.name()) == Some(kind),
{
    reveal_strlit("isbn");
    reveal_strlit("ismn");
    reveal_strlit("publisher_number");
    reveal_strlit("plate_number");
    match kind {
        Kind::Isbn => {},
        Kind::Ismn => {
            assert("ismn"@ != "isbn"@) by {
                assert("ismn"@[2] != "isbn"@[2]);
            }
        },
        Kind::PublisherNumber => {
            assert("publisher_number"@.len() != "isbn"@.len());
            assert("publisher_number"@.len() != "ismn"@.len());
        },
        Kind::PlateNumber => {
            assert("plate_number"@.len() != "isbn"@.len());
            assert("plate_number"@.len() != "ismn"@.len());
            assert("plate_number"@[1] != "publisher_number"@[1]);
        },
    }
}

impl core::str::FromStr for Kind {
    type Err = String;

    fn from_str(s: &str) -> Result<Self, Self::Err> {
        Kind::from_name(s)
    }
}

// The error carries only the kind, so a form can say which identifier failed but not why.
#[derive(Debug, Clone, Copy, PartialEq, Eq, Structural)]
pub enum Error {
    /// Bad check digit, wrong length, unexpected characters, or empty.
    Invalid(Kind),
    /// The ISBN validates but its range is unknown to the embedded range table.
    OutOfDate,
}

impl Error {
    /// The message a form shows for this error.
    pub open spec fn text(self) -> Seq<char> {
        match self {
            Error::Invalid(Kind::Isbn) => "invalid ISBN"@,
            Error::Invalid(Kind::Ismn) => "invalid ISMN"@,
            Error::Invalid(Kind::PublisherNumber) => "invalid publisher number"@,
            Error::Invalid(Kind::PlateNumber) => "invalid plate number"@,
            Error::OutOfDate => "scorarium's ISBN ranges are out of date"@,
        }
    }

    /// The message a form shows for this error (what `Display` would write).
    pub fn message(&self) -> (r: String)
        ensures
            r@ == self.text(),
    {
        match self {
            Error::Invalid(Kind::Isbn) => owned("invalid ISBN"),
            Error::Invalid(Kind::Ismn) => owned("invalid ISMN"),
            Error::Invalid(Kind::PublisherNumber) => owned("invalid publisher number"),
            Error::Invalid(Kind::PlateNumber) => owned("invalid plate number"),
            Error::OutOfDate => owned("scorarium's ISBN ranges are out of date"),
        }
    }
}

/// An identifier in canonical form
#[derive(Debug, PartialEq, Eq)]
pub struct Normalized(String);

impl View for Normalized {
    type V = Seq<char>;

    closed spec fn view(&self) -> Seq<char> {
        self.0@
    }
}

impl Clone for Normalized {
    fn clone(&self) -> (r: Self)
        ensures
            r@ == self@,
    {
        Normalized(self.0.clone())
    }
}

impl Normalized {
    pub fn as_str(&self) -> (r: &str)
        ensures
            r@ == self@,
    {
        self.0.as_str()
    }
}

// ---------------------------------------------------------------------------------------------
// The ISBN crate
// ---------------------------------------------------------------------------------------------

/// What `str::parse::<isbn::Isbn>` makes of a string, carried to ISBN-13 (`Isbn13::from` for an
/// ISBN-10) and written out as its thirteen digits; None when the parse fails.
pub uninterp spec fn isbn13_digits(value: Seq<char>) -> Option<Seq<char>>;

/// The hyphenated form `isbn::Isbn13::hyphenate` gives the ISBN-13 with these digits, or None
/// when it fails.
pub uninterp spec fn isbn13_hyphenated(digits: Seq<char>) -> Option<Seq<char>>;

/// Whether `isbn::Isbn13::hyphenate` fails for these digits because the embedded range table
/// does not know the registration group or range (`UndefinedRange` or `InvalidGroup`).
pub uninterp spec fn isbn13_range_unknown(digits: Seq<char>) -> bool;

/// The characters of an ISBN as typed, without the hyphens and spaces that the `isbn` crate's
/// parser skips.
pub open spec fn isbn_marks(value: Seq<char>) -> Seq<char> {
    value.filter(|c: char| c != '-' && c != ' ')
}

/// The sum of the first `n` digits of an ISBN-10, the digit at `i` weighted by `10 - i`.
pub open spec fn isbn10_sum(m: Seq<char>, n: int) -> int
    decreases n,
{
    if n <= 0 {
        0
    } else {
        isbn10_sum(m, n - 1) + digit_value(m[n - 1]) * (11 - n)
    }
}

/// The value of an ISBN-10's check mark: its digit, or ten for an X in either case.
pub open spec fn isbn10_mark_value(c: char) -> int {
    if c == 'X' || c == 'x' {
        10
    } else {
        digit_value(c)
    }
}

/// A valid ISBN-10: nine digits, then a check mark (a digit or an X) whose value is what makes
/// the weighted sum of all ten a multiple of eleven.
pub open spec fn valid_isbn10(m: Seq<char>) -> bool {
    &&& m.len() == 10
    &&& all_digits(m.take(9))
    &&& (is_digit(m[9]) || m[9] == 'X' || m[9] == 'x')
    &&& isbn10_mark_value(m[9]) == if isbn10_sum(m, 9) % 11 == 0 {
        0
    } else {
        11 - isbn10_sum(m, 9) % 11
    }
}

/// A valid ISBN-13: thirteen digits whose EAN-13 weighted sum is a multiple of ten.
pub open spec fn valid_isbn13(m: Seq<char>) -> bool {
    &&& m.len() == 13
    &&& all_digits(m)
    &&& weighted_sum(m) % 10 == 0
}

/// The characters of `s` other than hyphens.
pub open spec fn without_hyphens(s: Seq<char>) -> Seq<char> {
    s.filter(|c: char| c != '-')
}

/// Digits with hyphens between them: it starts and ends with a digit, and holds nothing but
/// digits and hyphens.
pub open spec fn hyphenated_digits(s: Seq<char>) -> bool {
    &&& s.len() > 0
    &&& is_digit(s[0])
    &&& is_digit(s.last())
    &&& forall|i: int| 0 <= i < s.len() ==> is_digit(#[trigger] s[i]) || s[i] == '-'
}

/// Parses an ISBN with the `isbn` crate (`str::parse::<isbn::Isbn>`), converts an ISBN-10 to
/// ISBN-13 with `isbn::Isbn13::from`, and writes the result with its `Display`. The contract
/// claims that the result is what `isbn13_digits` names, and what the crate's source shows of
/// it: the parser skips hyphens and spaces, and accepts the rest when it is a valid ISBN-13 or a
/// valid ISBN-10 (check digits by `Isbn13::calculate_check_digit` and
/// `Isbn10::calculate_check_digit`); an ISBN-13 comes back as its digits, an ISBN-10 as 978 and
/// its first nine digits followed by a new check digit; either way thirteen ASCII digits whose
/// EAN-13 weighted sum is a multiple of ten.
#[verifier::external_body]
fn parse_isbn13(value: &str) -> (r: Option<String>)
    ensures
        r is Some <==> valid_isbn13(isbn_marks(value@)) || valid_isbn10(isbn_marks(value@)),
        r matches Some(d) ==> isbn13_digits(value@) == Some(d@) && d@.len() == 13 && all_digits(
            d@,
        ) && weighted_sum(d@) % 10 == 0,
        r matches Some(d) ==> valid_isbn13(isbn_marks(value@)) ==> d@ == isbn_marks(value@),
        r matches Some(d) ==> valid_isbn10(isbn_marks(value@)) ==> d@.take(3) == seq!['9', '7', '8']
            && d@.subrange(3, 12) == isbn_marks(value@).take(9),
        r is None ==> isbn13_digits(value@) is None,
{
    match value.parse::<isbn::Isbn>() {
        Ok(isbn::Isbn::_10(isbn10)) => Some(isbn::Isbn13::from(isbn10).to_string()),
        Ok(isbn::Isbn::_13(isbn13)) => Some(isbn13.to_string()),
        Err(_) => None,
    }
}

/// Hyphenates an ISBN-13 given as its thirteen digits with `isbn::Isbn13::hyphenate`, after
/// reading the digits with `str::parse::<isbn::Isbn13>`. The contract claims the result is what
/// `isbn13_hyphenated` names, and that an unknown range (`UndefinedRange`, `InvalidGroup`) is
/// reported as `OutOfDate` and anything else as an invalid ISBN. As the crate's `hyphenate_with`
/// and its parser show, the hyphenated form is the digits with hyphens between them, and
/// `str::parse::<isbn::Isbn>` reads it back as the same thirteen digits.
#[verifier::external_body]
fn hyphenate_isbn13(digits: &str) -> (r: Result<String, Error>)
    requires
        digits@.len() == 13,
        all_digits(digits@),
    ensures
        r matches Ok(h) ==> isbn13_hyphenated(digits@) == Some(h@) && without_hyphens(h@)
            == digits@ && hyphenated_digits(h@) && isbn13_digits(h@) == Some(digits@),
        r is Err ==> isbn13_hyphenated(digits@) is None,
        r matches Err(e) ==> (e == Error::OutOfDate && isbn13_range_unknown(digits@)) || (e
            == Error::Invalid(Kind::Isbn) && !isbn13_range_unknown(digits@)),
{
    let isbn13 = match digits.parse::<isbn::Isbn13>() {
        Ok(isbn13) => isbn13,
        Err(_) => return Err(Error::Invalid(Kind::Isbn)),
    };
    match isbn13.hyphenate() {
        Ok(hyphenated) => Ok(hyphenated.to_string()),
        Err(isbn::IsbnError::UndefinedRange | isbn::IsbnError::InvalidGroup) => Err(
            Error::OutOfDate,
        ),
        Err(_) => Err(Error::Invalid(Kind::Isbn)),
    }
}

/// `str::to_uppercase`: the Unicode uppercase mapping of every character.
pub uninterp spec fn uppercased(s: Seq<char>) -> Seq<char>;

/// `str::to_uppercase`; the contract claims only that the result is what `uppercased` names.
#[verifier::external_body]
fn to_uppercase(s: &str) -> (r: String)
    ensures
        r@ == uppercased(s@),
{
    s.to_uppercase()
}

// ---------------------------------------------------------------------------------------------
// Specification of normalization
// ---------------------------------------------------------------------------------------------

/// `s` without its leading characters that satisfy `p` (`str::trim_start_matches`).
pub open spec fn skip_while(s: Seq<char>, p: spec_fn(char) -> bool) -> Seq<char>
    decreases s.len(),
{
    if s.len() > 0 && p(s[0]) {
        skip_while(s.drop_first(), p)
    } else {
        s
    }
}

pub open spec fn dash_or_ws(c: char) -> bool {
    c == '-' || is_ws(c)
}

pub open spec fn colon_or_ws(c: char) -> bool {
    c == ':' || is_ws(c)
}

/// `rest` without a leading "13" or "10" that names the form rather than starting the number.
pub open spec fn skip_form_name(rest: Seq<char>) -> Seq<char> {
    if rest.len() >= 2 && rest[0] == '1' && (rest[1] == '3' || rest[1] == '0') {
        let after = rest.skip(2);
        if after.len() > 0 && is_digit(after[0]) {
            rest
        } else {
            after
        }
    } else {
        rest
    }
}

/// The value with the label it is printed with dropped: "ISBN", then dashes and spaces, then
/// an optional "13" or "10" naming the form, then colons and spaces.
pub open spec fn strip_label_seq(value: Seq<char>, label: Seq<char>) -> Seq<char> {
    let v = trim_seq(value);
    if label.len() <= v.len() && (forall|i: int|
        0 <= i < label.len() ==> eq_ignore_case(#[trigger] v[i], label[i])) {
        let rest = skip_while(v.skip(label.len() as int), |c: char| dash_or_ws(c));
        skip_while(skip_form_name(rest), |c: char| colon_or_ws(c))
    } else {
        v
    }
}

/// What normalizing a stripped ISBN gives.
pub open spec fn isbn_outcome(value: Seq<char>) -> Result<Seq<char>, Error> {
    match isbn13_digits(value) {
        None => Err(Error::Invalid(Kind::Isbn)),
        Some(digits) => match isbn13_hyphenated(digits) {
            Some(h) => Ok(h),
            None => if isbn13_range_unknown(digits) {
                Err(Error::OutOfDate)
            } else {
                Err(Error::Invalid(Kind::Isbn))
            },
        },
    }
}

/// The characters an ISMN is compacted to: separators dropped, letters in ASCII uppercase.
pub open spec fn ismn_compact(s: Seq<char>) -> Seq<char>
    decreases s.len(),
{
    if s.len() == 0 {
        seq![]
    } else {
        let rest = ismn_compact(s.drop_last());
        let c = s.last();
        if c == '-' || c == ' ' {
            rest
        } else {
            rest.push(ascii_upper(c))
        }
    }
}

/// The compacted ISMN with the pre-2008 leading M spelled out as 9790.
pub open spec fn ismn_digits(s: Seq<char>) -> Seq<char> {
    let c = ismn_compact(s);
    if c.len() > 0 && c[0] == 'M' {
        seq!['9', '7', '9', '0'] + c.drop_first()
    } else {
        c
    }
}

/// The EAN-13 weighted digit sum: weight 1 at even positions, 3 at odd ones.
pub open spec fn weighted_sum(d: Seq<char>) -> int
    decreases d.len(),
{
    if d.len() == 0 {
        0
    } else {
        weighted_sum(d.drop_last()) + digit_value(d.last()) * (if (d.len() - 1) % 2 == 0 {
            1int
        } else {
            3int
        })
    }
}

/// The registrant's length, from the first digit after 979-0.
pub open spec fn registrant_len(c: char) -> int {
    if c == '0' {
        3
    } else if c == '1' || c == '2' || c == '3' {
        4
    } else if c == '4' || c == '5' || c == '6' {
        5
    } else if c == '7' || c == '8' {
        6
    } else {
        7
    }
}

/// What normalizing a stripped ISMN gives.
pub open spec fn ismn_outcome(value: Seq<char>) -> Result<Seq<char>, Error> {
    let d = ismn_digits(value);
    if d.len() != 13 || !(d[0] == '9' && d[1] == '7' && d[2] == '9' && d[3] == '0') || !all_digits(
        d,
    ) || weighted_sum(d) % 10 != 0 {
        Err(Error::Invalid(Kind::Ismn))
    } else {
        let body = d.subrange(4, 12);
        let n = registrant_len(body[0]);
        Ok(seq!['9', '7', '9', '-', '0', '-'] + body.take(n) + seq!['-'] + body.skip(n) + seq!['-']
            + d.subrange(12, 13))
    }
}

/// What `normalize` gives for a kind and a value as typed.
pub open spec fn normalized(kind: Kind, value: Seq<char>) -> Result<Seq<char>, Error> {
    match kind {
        Kind::Isbn => isbn_outcome(strip_label_seq(value, "ISBN"@)),
        Kind::Ismn => ismn_outcome(strip_label_seq(value, "ISMN"@)),
        _ => {
            let t = trim_seq(value);
            if t.len() == 0 {
                Err(Error::Invalid(kind))
            } else {
                Ok(uppercased(t))
            }
        },
    }
}

// ---------------------------------------------------------------------------------------------
// Normalization
// ---------------------------------------------------------------------------------------------

/// Validate an identifier as typed or printed and put it in canonical form.
///
/// ISBNs become hyphenated ISBN-13 (ISBN-10 is converted), ISMNs the hyphenated `979-0` form,
/// and publisher and plate numbers are trimmed and uppercased.
pub fn normalize(kind: Kind, value: &str) -> (r: Result<Normalized, Error>)
    ensures
        r matches Ok(n) ==> normalized(kind, value@) == Ok::<Seq<char>, Error>(n@),
        r matches Err(e) ==> normalized(kind, value@) == Err::<Seq<char>, Error>(e),
        // A canonical ISBN or ISMN reads back as itself
        kind == Kind::Isbn || kind == Kind::Ismn ==> (r matches Ok(n) ==> normalized(kind, n@)
            == Ok::<Seq<char>, Error>(n@)),
        // A canonical publisher or plate number reads back as itself exactly when uppercasing
        // it, trimmed, leaves it as it is
        kind != Kind::Isbn && kind != Kind::Ismn ==> (r matches Ok(n) ==> (normalized(kind, n@)
            == Ok::<Seq<char>, Error>(n@) <==> trim_seq(n@).len() > 0 && uppercased(
            trim_seq(n@),
        ) == n@)),
        // An ISBN is refused unless, its label aside, it is a valid ISBN-13 or ISBN-10
        kind == Kind::Isbn && !(valid_isbn13(isbn_marks(strip_label_seq(value@, "ISBN"@)))
            || valid_isbn10(isbn_marks(strip_label_seq(value@, "ISBN"@)))) ==> r == Err::<
            Normalized,
            Error,
        >(Error::Invalid(Kind::Isbn)),
{
    proof {
        lemma_ismn_canonical(value@);
    }
    match kind {
        Kind::Isbn => {
            let stripped = strip_label(value, "ISBN");
            normalize_isbn(stripped.as_str())
        },
        Kind::Ismn => {
            let stripped = strip_label(value, "ISMN");
            normalize_ismn(stripped.as_str())
        },
        Kind::PublisherNumber | Kind::PlateNumber => {
            let value = trim(value);
            if is_empty(value.as_str()) {
                return Err(Error::Invalid(kind));
            }
            Ok(Normalized(to_uppercase(value.as_str())))
        },
    }
}

/// How many leading characters of `v`, from `start`, are dashes or whitespace.
fn skip_dash_or_ws(v: &Vec<char>, start: usize) -> (k: usize)
    requires
        start <= v.len(),
    ensures
        start <= k <= v.len(),
        skip_while(v@.skip(start as int), |c: char| dash_or_ws(c)) == v@.skip(k as int),
{
    let mut k = start;
    while k < v.len() && (v[k] == '-' || is_whitespace(v[k]))
        invariant
            start <= k <= v.len(),
            skip_while(v@.skip(start as int), |c: char| dash_or_ws(c)) == skip_while(
                v@.skip(k as int),
                |c: char| dash_or_ws(c),
            ),
        decreases v.len() - k,
    {
        assert(v@.skip(k as int).drop_first() =~= v@.skip(k + 1));
        k = k + 1;
    }
    k
}

/// How many leading characters of `v`, from `start`, are colons or whitespace.
fn skip_colon_or_ws(v: &Vec<char>, start: usize) -> (k: usize)
    requires
        start <= v.len(),
    ensures
        start <= k <= v.len(),
        skip_while(v@.skip(start as int), |c: char| colon_or_ws(c)) == v@.skip(k as int),
{
    let mut k = start;
    while k < v.len() && (v[k] == ':' || is_whitespace(v[k]))
        invariant
            start <= k <= v.len(),
            skip_while(v@.skip(start as int), |c: char| colon_or_ws(c)) == skip_while(
                v@.skip(k as int),
                |c: char| colon_or_ws(c),
            ),
        decreases v.len() - k,
    {
        assert(v@.skip(k as int).drop_first() =~= v@.skip(k + 1));
        k = k + 1;
    }
    k
}

/// Drop the label a number is printed with, so "ISBN 978-...", "ISBN-13: 978-...", "ISBN 10: 0-...",
/// and "ISMN M-..." can be typed as they appear on the page.
pub fn strip_label(value: &str, label: &str) -> (r: String)
    ensures
        r@ == strip_label_seq(value@, label@),
{
    let t = trim(value);
    let v = chars_of(t.as_str());
    let l = chars_of(label);
    if v.len() < l.len() {
        return t;
    }
    let mut i: usize = 0;
    while i < l.len()
        invariant
            v@ == trim_seq(value@),
            t@ == v@,
            l@ == label@,
            l.len() <= v.len(),
            i <= l.len(),
            forall|j: int| 0 <= j < i ==> eq_ignore_case(#[trigger] v@[j], l@[j]),
        decreases l.len() - i,
    {
        if to_ascii_upper(v[i]) != to_ascii_upper(l[i]) {
            assert(!eq_ignore_case(v@[i as int], label@[i as int]));
            assert(!(forall|j: int|
                0 <= j < label@.len() ==> eq_ignore_case(#[trigger] trim_seq(value@)[j], label@[j])));
            return t;
        }
        i = i + 1;
    }
    // "ISBN-13", "ISBN 13", and "ISBN13" all name the form. A digit right after the 13 or 10
    // means it is the number itself: an unhyphenated ISBN-10 in group 1 can begin with either.
    let a = skip_dash_or_ws(&v, l.len());
    let ghost rest = v@.skip(a as int);
    let b: usize = if a < v.len() && v.len() - a >= 2 && v[a] == '1' && (v[a + 1] == '3' || v[a + 1] == '0') {
        if v.len() - a > 2 && is_ascii_digit(v[a + 2]) {
            a
        } else {
            a + 2
        }
    } else {
        a
    };
    assert(skip_form_name(rest) =~= v@.skip(b as int));
    let c = skip_colon_or_ws(&v, b);
    let r = slice_chars(&v, c, v.len());
    assert(r@ =~= v@.skip(c as int));
    string_of(&r)
}

fn normalize_isbn(value: &str) -> (r: Result<Normalized, Error>)
    ensures
        r matches Ok(n) ==> isbn_outcome(value@) == Ok::<Seq<char>, Error>(n@),
        r matches Err(e) ==> isbn_outcome(value@) == Err::<Seq<char>, Error>(e),
        r matches Ok(n) ==> normalized(Kind::Isbn, n@) == Ok::<Seq<char>, Error>(n@),
        !(valid_isbn13(isbn_marks(value@)) || valid_isbn10(isbn_marks(value@))) ==> r == Err::<
            Normalized,
            Error,
        >(Error::Invalid(Kind::Isbn)),
{
    let digits = match parse_isbn13(value) {
        Some(digits) => digits,
        None => return Err(Error::Invalid(Kind::Isbn)),
    };
    match hyphenate_isbn13(digits.as_str()) {
        Ok(hyphenated) => {
            proof {
                lemma_strip_label_keeps_digits(hyphenated@, "ISBN"@);
            }
            Ok(Normalized(hyphenated))
        },
        Err(e) => Err(e),
    }
}

/// The compacted characters of an ISMN as typed.
fn compact_ismn(v: &Vec<char>) -> (r: Vec<char>)
    ensures
        r@ == ismn_compact(v@),
{
    let mut r: Vec<char> = Vec::new();
    let mut i: usize = 0;
    while i < v.len()
        invariant
            i <= v.len(),
            r@ == ismn_compact(v@.take(i as int)),
        decreases v.len() - i,
    {
        let c = v[i];
        assert(v@.take(i + 1).drop_last() =~= v@.take(i as int));
        if c != '-' && c != ' ' {
            r.push(to_ascii_upper(c));
        }
        i = i + 1;
    }
    assert(v@.take(v.len() as int) =~= v@);
    r
}

proof fn lemma_weighted_sum_bound(d: Seq<char>)
    requires
        all_digits(d),
    ensures
        0 <= weighted_sum(d) <= 27 * d.len(),
    decreases d.len(),
{
    if d.len() > 0 {
        assert(all_digits(d.drop_last())) by {
            assert forall|i: int| 0 <= i < d.drop_last().len() implies is_digit(
                #[trigger] d.drop_last()[i],
            ) by {
                assert(d.drop_last()[i] == d[i]);
            }
        }
        lemma_weighted_sum_bound(d.drop_last());
        assert(is_digit(d[d.len() - 1]));
    }
}

fn normalize_ismn(value: &str) -> (r: Result<Normalized, Error>)
    ensures
        r matches Ok(n) ==> ismn_outcome(value@) == Ok::<Seq<char>, Error>(n@),
        r matches Err(e) ==> ismn_outcome(value@) == Err::<Seq<char>, Error>(e),
{
    let invalid = Error::Invalid(Kind::Ismn);
    let v = chars_of(value);
    let compact = compact_ismn(&v);
    // The pre-2008 ten-character form spells the 979-0 prefix as a letter M
    let digits: Vec<char> = if compact.len() > 0 && compact[0] == 'M' {
        let mut d = vec!['9', '7', '9', '0'];
        let mut i: usize = 1;
        while i < compact.len()
            invariant
                1 <= i <= compact.len(),
                d@ == seq!['9', '7', '9', '0'] + compact@.subrange(1, i as int),
            decreases compact.len() - i,
        {
            d.push(compact[i]);
            assert(compact@.subrange(1, i + 1) =~= compact@.subrange(1, i as int).push(
                compact@[i as int],
            ));
            i = i + 1;
        }
        assert(compact@.subrange(1, compact.len() as int) =~= compact@.drop_first());
        d
    } else {
        compact
    };
    assert(digits@ == ismn_digits(value@));
    if digits.len() != 13 || !(digits[0] == '9' && digits[1] == '7' && digits[2] == '9'
        && digits[3] == '0') {
        assert(ismn_outcome(value@) == Err::<Seq<char>, Error>(invalid));
        return Err(invalid);
    }
    let mut i: usize = 0;
    while i < 13
        invariant
            digits.len() == 13,
            digits@ == ismn_digits(value@),
            invalid == Error::Invalid(Kind::Ismn),
            i <= 13,
            forall|j: int| 0 <= j < i ==> is_digit(#[trigger] digits@[j]),
        decreases 13 - i,
    {
        if !is_ascii_digit(digits[i]) {
            assert(!all_digits(digits@));
            return Err(invalid);
        }
        i = i + 1;
    }
    assert(all_digits(digits@));
    let mut checksum: u32 = 0;
    let mut i: usize = 0;
    while i < 13
        invariant
            digits.len() == 13,
            all_digits(digits@),
            i <= 13,
            checksum == weighted_sum(digits@.take(i as int)),
        decreases 13 - i,
    {
        proof {
            assert(digits@.take(i + 1).drop_last() =~= digits@.take(i as int));
            assert(all_digits(digits@.take(i as int)));
            lemma_weighted_sum_bound(digits@.take(i as int));
            assert(is_digit(digits@[i as int]));
            assert(48 <= digits@[i as int] as u32 <= 57);
            assert(checksum <= 27 * i);
        }
        let d = (digits[i] as u32) - 48;
        let weight: u32 = if i % 2 == 0 {
            1
        } else {
            3
        };
        checksum = checksum + d * weight;
        i = i + 1;
    }
    assert(digits@.take(13) =~= digits@);
    if checksum % 10 != 0 {
        return Err(invalid);
    }
    let first = digits[4];
    let registrant_len: usize = if first == '0' {
        3
    } else if first == '1' || first == '2' || first == '3' {
        4
    } else if first == '4' || first == '5' || first == '6' {
        5
    } else if first == '7' || first == '8' {
        6
    } else {
        7
    };
    let mut out: Vec<char> = vec!['9', '7', '9', '-', '0', '-'];
    let mut i: usize = 4;
    while i < 12
        invariant
            digits.len() == 13,
            4 <= i <= 12,
            registrant_len <= 7,
            out@ == seq!['9', '7', '9', '-', '0', '-'] + digits@.subrange(
                4,
                if i <= 4 + registrant_len {
                    i as int
                } else {
                    4 + registrant_len
                },
            ) + (if i <= 4 + registrant_len {
                Seq::<char>::empty()
            } else {
                seq!['-'] + digits@.subrange(4 + registrant_len, i as int)
            }),
        decreases 12 - i,
    {
        let ghost before = out@;
        if i == 4 + registrant_len {
            out.push('-');
        }
        out.push(digits[i]);
        proof {
            if i < 4 + registrant_len {
                assert(digits@.subrange(4, i + 1) =~= digits@.subrange(4, i as int).push(
                    digits@[i as int],
                ));
            } else if i == 4 + registrant_len {
                assert(digits@.subrange(4 + registrant_len, i + 1) =~= seq![digits@[i as int]]);
            } else {
                assert(digits@.subrange(4 + registrant_len, i + 1) =~= digits@.subrange(
                    4 + registrant_len,
                    i as int,
                ).push(digits@[i as int]));
            }
        }
        i = i + 1;
    }
    out.push('-');
    out.push(digits[12]);
    proof {
        let body = digits@.subrange(4, 12);
        let n = registrant_len as int;
        assert(body[0] == digits@[4]);
        assert(body.take(n) =~= digits@.subrange(4, 4 + n));
        assert(body.skip(n) =~= digits@.subrange(4 + n, 12));
        assert(digits@.subrange(12, 13) =~= seq![digits@[12]]);
        assert(out@ =~= seq!['9', '7', '9', '-', '0', '-'] + body.take(n) + seq!['-'] + body.skip(n)
            + seq!['-'] + digits@.subrange(12, 13));
    }
    Ok(Normalized(string_of(&out)))
}


// ---------------------------------------------------------------------------------------------
// Canonical ISMNs
// ---------------------------------------------------------------------------------------------

proof fn lemma_ismn_compact_append(a: Seq<char>, b: Seq<char>)
    ensures
        ismn_compact(a + b) == ismn_compact(a) + ismn_compact(b),
    decreases b.len(),
{
    if b.len() == 0 {
        assert(a + b =~= a);
        assert(ismn_compact(a) + ismn_compact(b) =~= ismn_compact(a));
    } else {
        assert((a + b).drop_last() =~= a + b.drop_last());
        assert((a + b).last() == b.last());
        lemma_ismn_compact_append(a, b.drop_last());
        let c = b.last();
        if !(c == '-' || c == ' ') {
            assert(ismn_compact(a) + ismn_compact(b.drop_last()).push(ascii_upper(c)) =~= (
            ismn_compact(a) + ismn_compact(b.drop_last())).push(ascii_upper(c)));
        }
    }
}

proof fn lemma_ismn_compact_digits(d: Seq<char>)
    requires
        all_digits(d),
    ensures
        ismn_compact(d) == d,
    decreases d.len(),
{
    if d.len() > 0 {
        assert(all_digits(d.drop_last()));
        lemma_ismn_compact_digits(d.drop_last());
        assert(is_digit(d.last()));
        assert(d.drop_last().push(d.last()) =~= d);
    }
}

/// The canonical ISMN `n` has a registrant of `k` digits: `k` digits after "979-0-", a
/// hyphen, then digits up to the hyphen before the check digit.
pub open spec fn registrant_of_len(n: Seq<char>, k: int) -> bool {
    &&& 0 < k < 9
    &&& all_digits(n.subrange(6, 6 + k))
    &&& n[6 + k] == '-'
    &&& all_digits(n.subrange(7 + k, 15))
}

/// The shape of a canonical ISMN, and where its registrant ends: a registrant that starts with 0
/// has three digits, with 1 to 3 four, with 4 to 6 five, with 7 or 8 six, and with 9 seven.
pub proof fn lemma_ismn_registrant_ranges(value: Seq<char>)
    ensures
        normalized(Kind::Ismn, value) matches Ok(n) ==> {
            &&& n.len() == 17
            &&& n.take(6) == seq!['9', '7', '9', '-', '0', '-']
            &&& n[15] == '-'
            &&& is_digit(n[16])
            &&& (n[6] == '0' ==> registrant_of_len(n, 3))
            &&& (n[6] == '1' || n[6] == '2' || n[6] == '3' ==> registrant_of_len(n, 4))
            &&& (n[6] == '4' || n[6] == '5' || n[6] == '6' ==> registrant_of_len(n, 5))
            &&& (n[6] == '7' || n[6] == '8' ==> registrant_of_len(n, 6))
            &&& (n[6] == '9' ==> registrant_of_len(n, 7))
        },
{
    if let Ok(h) = normalized(Kind::Ismn, value) {
        let d = ismn_digits(strip_label_seq(value, "ISMN"@));
        let body = d.subrange(4, 12);
        let k = registrant_len(body[0]);
        let head = body.take(k);
        let tail = body.skip(k);
        let pre = seq!['9', '7', '9', '-', '0', '-'];
        assert(h == pre + head + seq!['-'] + tail + seq!['-'] + d.subrange(12, 13));
        assert(h.len() == 17);
        assert forall|i: int| 0 <= i < 6 implies #[trigger] h[i] == pre[i] by {}
        assert(h.take(6) =~= pre);
        assert(h[6] == body[0]);
        assert(h[15] == '-');
        assert(h[16] == d[12]);
        assert(h[6 + k] == '-');
        assert forall|i: int| 0 <= i < k implies #[trigger] h.subrange(6, 6 + k)[i] == d[4 + i] by {
            assert(h[6 + i] == head[i]);
        }
        assert forall|i: int| 0 <= i < 8 - k implies #[trigger] h.subrange(7 + k, 15)[i] == d[4 + k
            + i] by {
            assert(h[7 + k + i] == tail[i]);
        }
        assert(all_digits(h.subrange(6, 6 + k))) by {
            assert forall|i: int| 0 <= i < k implies is_digit(#[trigger] h.subrange(6, 6 + k)[i]) by {
                assert(h.subrange(6, 6 + k)[i] == d[4 + i]);
            }
        }
        assert(all_digits(h.subrange(7 + k, 15))) by {
            assert forall|i: int| 0 <= i < 8 - k implies is_digit(
                #[trigger] h.subrange(7 + k, 15)[i],
            ) by {
                assert(h.subrange(7 + k, 15)[i] == d[4 + k + i]);
            }
        }
    }
}

/// A canonical ISMN reads back as itself: normalizing what normalizing gave changes nothing.
pub proof fn lemma_ismn_canonical(value: Seq<char>)
    ensures
        normalized(Kind::Ismn, value) matches Ok(h) ==> normalized(Kind::Ismn, h) == Ok::<
            Seq<char>,
            Error,
        >(h),
{
    if let Ok(h) = normalized(Kind::Ismn, value) {
        let d = ismn_digits(strip_label_seq(value, "ISMN"@));
        let body = d.subrange(4, 12);
        let n = registrant_len(body[0]);
        let head = body.take(n);
        let tail = body.skip(n);
        let check = d.subrange(12, 13);
        assert(h == seq!['9', '7', '9', '-', '0', '-'] + head + seq!['-'] + tail + seq!['-']
            + check);
        assert(all_digits(head) && all_digits(tail) && all_digits(check)) by {
            assert forall|i: int| 0 <= i < head.len() implies is_digit(#[trigger] head[i]) by {
                assert(head[i] == d[4 + i]);
            }
            assert forall|i: int| 0 <= i < tail.len() implies is_digit(#[trigger] tail[i]) by {
                assert(tail[i] == d[4 + n + i]);
            }
            assert(check[0] == d[12]);
        }
        // Trimming changes nothing: h starts and ends with a digit
        assert(h[0] == '9');
        assert(h[h.len() - 1] == d[12]);
        lemma_trim_start_char(h, 0);
        assert(h.skip(0) =~= h);
        lemma_trim_end_char(h, h.len() as int);
        assert(h.take(h.len() as int) =~= h);
        assert(trim_seq(h) == h);
        // Nor does the label: h starts with a digit, not an I
        reveal_strlit("ISMN");
        assert(!eq_ignore_case(h[0], "ISMN"@[0]));
        assert(strip_label_seq(h, "ISMN"@) == h);
        // Compacting drops the hyphens and gives back the digits
        let p1 = seq!['9', '7', '9'];
        let p2 = seq!['0'];
        let dash = seq!['-'];
        assert(h =~= p1 + dash + p2 + dash + head + dash + tail + dash + check);
        lemma_ismn_compact_append(p1 + dash + p2 + dash + head + dash + tail + dash, check);
        lemma_ismn_compact_append(p1 + dash + p2 + dash + head + dash + tail, dash);
        lemma_ismn_compact_append(p1 + dash + p2 + dash + head + dash, tail);
        lemma_ismn_compact_append(p1 + dash + p2 + dash + head, dash);
        lemma_ismn_compact_append(p1 + dash + p2 + dash, head);
        lemma_ismn_compact_append(p1 + dash + p2, dash);
        lemma_ismn_compact_append(p1 + dash, p2);
        lemma_ismn_compact_append(p1, dash);
        lemma_ismn_compact_digits(p1);
        lemma_ismn_compact_digits(p2);
        lemma_ismn_compact_digits(head);
        lemma_ismn_compact_digits(tail);
        lemma_ismn_compact_digits(check);
        assert(ismn_compact(dash) =~= Seq::<char>::empty()) by {
            let e = Seq::<char>::empty();
            assert(dash.drop_last() =~= e);
            assert(ismn_compact(e) =~= e);
            assert(dash.last() == '-');
            assert(ismn_compact(dash) == ismn_compact(dash.drop_last()));
        }
        assert(ismn_compact(h) =~= p1 + p2 + head + tail + check);
        assert(p1 + p2 + head + tail + check =~= d) by {
            assert(head + tail =~= body);
        }
        assert(ismn_digits(h) == d);
    }
}


/// Digits with hyphens between them carry no label and no whitespace to strip.
proof fn lemma_strip_label_keeps_digits(h: Seq<char>, label: Seq<char>)
    requires
        hyphenated_digits(h),
        label == "ISBN"@ || label == "ISMN"@,
    ensures
        strip_label_seq(h, label) == h,
{
    reveal_strlit("ISBN");
    reveal_strlit("ISMN");
    lemma_trim_start_char(h, 0);
    assert(h.skip(0) =~= h);
    assert(!is_ws(h.last()));
    lemma_trim_end_char(h, h.len() as int);
    assert(h.take(h.len() as int) =~= h);
    assert(trim_seq(h) == h);
    assert(!eq_ignore_case(h[0], label[0]));
}

} // verus!
