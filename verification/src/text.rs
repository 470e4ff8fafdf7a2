//! Text as sequences of characters: conversion, trimming, decimal numbers and joining.
use vstd::prelude::*;

verus! {

/// `String::push` appends one character.
pub assume_specification[ std::string::String::push ](s: &mut std::string::String, c: char)
    ensures
        final(s)@ == old(s)@.push(c),
;

/// `String::push_str` appends a text.
pub assume_specification[ std::string::String::push_str ](s: &mut std::string::String, t: &str)
    ensures
        final(s)@ == old(s)@ + t@,
;

/// `==` on `str` compares the characters of the two texts.
pub assume_specification[ <str as PartialEq>::eq ](a: &str, b: &str) -> (r: bool)
    ensures
        r == (a@ == b@),
;

/// Whether a character has the Unicode property `White_Space`.
pub open spec fn is_white(c: char) -> bool {
    let u = c as int;
    ||| 0x9 <= u <= 0xd
    ||| u == 0x20
    ||| u == 0x85
    ||| u == 0xa0
    ||| u == 0x1680
    ||| 0x2000 <= u <= 0x200a
    ||| u == 0x2028
    ||| u == 0x2029
    ||| u == 0x202f
    ||| u == 0x205f
    ||| u == 0x3000
}

/// Whether a character has the Unicode property `White_Space`.
pub fn char_is_white(c: char) -> (r: bool)
    ensures
        r == is_white(c),
{
    let u: u32 = c as u32;
    (0x9 <= u && u <= 0xd) || u == 0x20 || u == 0x85 || u == 0xa0 || u == 0x1680 || (0x2000 <= u
        && u <= 0x200a) || u == 0x2028 || u == 0x2029 || u == 0x202f || u == 0x205f || u == 0x3000
}

/// The text in lower case, by the Unicode tables.
pub uninterp spec fn lowercase(s: Seq<char>) -> Seq<char>;

/// `str::to_lowercase`: a function of the text alone.
#[verifier::external_body]
pub(crate) fn to_lower(s: &str) -> (r: String)
    ensures
        r@ == lowercase(s@),
{
    s.to_lowercase()
}

/// The text in upper case, by the Unicode tables.
pub uninterp spec fn uppercase(s: Seq<char>) -> Seq<char>;

/// `str::to_uppercase`: a function of the text alone.
#[verifier::external_body]
pub(crate) fn to_upper(s: &str) -> (r: String)
    ensures
        r@ == uppercase(s@),
{
    s.to_uppercase()
}

/// The text as Rust's `Debug` writes it: in double quotes, with escapes.
pub uninterp spec fn debugged(s: Seq<char>) -> Seq<char>;

/// `Debug` for `str`: a function of the text alone.
#[verifier::external_body]
pub(crate) fn show_debug(s: &str) -> (r: String)
    ensures
        r@ == debugged(s@),
{
    format!("{s:?}")
}

/// The views of a sequence of strings.
pub open spec fn texts(v: Seq<String>) -> Seq<Seq<char>> {
    v.map_values(|s: String| s@)
}

pub proof fn lemma_texts_push(v: Seq<String>, s: String)
    ensures
        texts(v.push(s)) == texts(v).push(s@),
{
    assert(texts(v.push(s)) =~= texts(v).push(s@));
}

/// Whether two texts are the same.
pub fn str_eq(a: &str, b: &str) -> (r: bool)
    ensures
        r == (a@ == b@),
{
    *a == *b
}

/// Whether a text is among the strings.
pub fn contains_text(v: &[String], s: &str) -> (r: bool)
    ensures
        r == texts(v@).contains(s@),
{
    let mut i: usize = 0;
    while i < v.len()
        invariant
            i <= v@.len(),
            forall|k: int| 0 <= k < i ==> (#[trigger] texts(v@)[k]) != s@,
        decreases v@.len() - i,
    {
        if str_eq(v[i].as_str(), s) {
            proof {
                assert(texts(v@)[i as int] == s@);
            }
            return true;
        }
        i += 1;
    }
    false
}

/// The characters of a text.
pub fn chars_of(s: &str) -> (v: Vec<char>)
    ensures
        v@ == s@,
{
    let mut v: Vec<char> = Vec::new();
    for c in it: s.chars()
        invariant
            v@ == it.seq().take(it.index()),
            it.seq() == s@,
    {
        proof {
            assert(it.seq().take(it.index() + 1) =~= it.seq().take(it.index()).push(c));
        }
        v.push(c);
    }
    proof {
        assert(s@.take(s@.len() as int) =~= s@);
    }
    v
}

/// The characters `v[from..to]` as a text.
pub fn slice_text(v: &[char], from: usize, to: usize) -> (s: String)
    requires
        from <= to <= v@.len(),
    ensures
        s@ == v@.subrange(from as int, to as int),
{
    let mut s = String::new();
    let mut i: usize = from;
    proof {
        assert(v@.subrange(from as int, from as int) =~= Seq::<char>::empty());
    }
    while i < to
        invariant
            from <= i <= to <= v@.len(),
            s@ == v@.subrange(from as int, i as int),
        decreases to - i,
    {
        proof {
            assert(v@.subrange(from as int, i + 1) =~= v@.subrange(from as int, i as int).push(
                v@[i as int],
            ));
        }
        s.push(v[i]);
        i += 1;
    }
    s
}

/// A text from its characters.
pub fn text_of(v: &[char]) -> (s: String)
    ensures
        s@ == v@,
{
    let s = slice_text(v, 0, v.len());
    proof {
        assert(v@.subrange(0, v@.len() as int) =~= v@);
    }
    s
}

/// The concatenation of three texts.
pub fn cat3(a: &str, b: &str, c: &str) -> (s: String)
    ensures
        s@ == a@ + b@ + c@,
{
    let mut s = a.to_owned();
    s.push_str(b);
    s.push_str(c);
    s
}

// ---------------------------------------------------------------------------
// Joining
// ---------------------------------------------------------------------------

/// The parts one after another, with `sep` between neighbours.
pub open spec fn joined(parts: Seq<Seq<char>>, sep: Seq<char>) -> Seq<char>
    decreases parts.len(),
{
    if parts.len() == 0 {
        seq![]
    } else if parts.len() == 1 {
        parts[0]
    } else {
        joined(parts.drop_last(), sep) + sep + parts.last()
    }
}

/// The parts one after another, with `sep` between neighbours.
pub fn join(parts: &[String], sep: &str) -> (s: String)
    ensures
        s@ == joined(texts(parts@), sep@),
{
    let mut s = String::new();
    let mut i: usize = 0;
    while i < parts.len()
        invariant
            i <= parts@.len(),
            s@ == joined(texts(parts@).take(i as int), sep@),
        decreases parts@.len() - i,
    {
        proof {
            let t = texts(parts@);
            assert(t.take(i + 1).drop_last() =~= t.take(i as int));
            assert(t.take(i + 1).last() == parts@[i as int]@);
            if i == 0 {
                assert(t.take(1)[0] == parts@[0]@);
            }
        }
        if i > 0 {
            s.push_str(sep);
        }
        s.push_str(parts[i].as_str());
        i += 1;
    }
    proof {
        let t = texts(parts@);
        assert(t.take(t.len() as int) =~= t);
    }
    s
}

// ---------------------------------------------------------------------------
// Trimming
// ---------------------------------------------------------------------------

/// The text without white space at its start.
pub open spec fn trimmed_start(s: Seq<char>) -> Seq<char>
    decreases s.len(),
{
    if s.len() > 0 && is_white(s[0]) {
        trimmed_start(s.skip(1))
    } else {
        s
    }
}

/// The text without white space at its end.
pub open spec fn trimmed_end(s: Seq<char>) -> Seq<char>
    decreases s.len(),
{
    if s.len() > 0 && is_white(s.last()) {
        trimmed_end(s.drop_last())
    } else {
        s
    }
}

/// The text without white space at either end.
pub open spec fn trimmed(s: Seq<char>) -> Seq<char> {
    trimmed_end(trimmed_start(s))
}

/// A text that neither starts nor ends with white space is its own trimmed form.
pub proof fn lemma_trimmed_bare(s: Seq<char>)
    requires
        s.len() == 0 || (!is_white(s[0]) && !is_white(s.last())),
    ensures
        trimmed(s) == s,
{
}

/// The characters of `s` without white space at either end.
pub fn trim_chars(s: &str) -> (v: Vec<char>)
    ensures
        v@ == trimmed(s@),
{
    let all = chars_of(s);
    let mut from: usize = 0;
    proof {
        assert(all@.skip(0) =~= all@);
    }
    while from < all.len() && char_is_white(all[from])
        invariant
            from <= all@.len(),
            trimmed_start(all@) == trimmed_start(all@.skip(from as int)),
        decreases all@.len() - from,
    {
        proof {
            assert(all@.skip(from as int).skip(1) =~= all@.skip(from + 1));
        }
        from += 1;
    }
    let ghost t = all@.skip(from as int);
    let mut to: usize = all.len();
    proof {
        assert(t.take(to - from) =~= t);
    }
    while to > from && char_is_white(all[to - 1])
        invariant
            from <= to <= all@.len(),
            t == all@.skip(from as int),
            trimmed_end(t) == trimmed_end(t.take(to - from)),
        decreases to,
    {
        proof {
            assert(t.take(to - from).drop_last() =~= t.take(to - 1 - from));
            assert(t.take(to - from).last() == all@[to - 1]);
        }
        to -= 1;
    }
    let mut v: Vec<char> = Vec::new();
    let mut i: usize = from;
    while i < to
        invariant
            from <= i <= to <= all@.len(),
            t == all@.skip(from as int),
            v@ == t.take(i - from),
        decreases to - i,
    {
        proof {
            assert(t.take(i + 1 - from) =~= t.take(i - from).push(all@[i as int]));
        }
        v.push(all[i]);
        i += 1;
    }
    v
}

/// `s` without white space at either end.
pub fn trim(s: &str) -> (r: String)
    ensures
        r@ == trimmed(s@),
{
    let v = trim_chars(s);
    text_of(&v)
}

// ---------------------------------------------------------------------------
// Decimal numbers
// ---------------------------------------------------------------------------

pub open spec fn is_digit(c: char) -> bool {
    '0' <= c && c <= '9'
}

pub open spec fn digit_value(c: char) -> nat {
    (c as int - '0' as int) as nat
}

pub open spec fn digit_char(d: nat) -> char {
    ('0' as int + d) as char
}

/// The decimal digits of a natural number, most significant first.
pub open spec fn nat_text(n: nat) -> Seq<char>
    decreases n,
{
    if n < 10 {
        seq![digit_char(n)]
    } else {
        nat_text(n / 10).push(digit_char(n % 10))
    }
}

/// The decimal form of an integer: digits, with a leading minus when negative.
pub open spec fn int_text(i: int) -> Seq<char> {
    if i < 0 {
        seq!['-'] + nat_text((-i) as nat)
    } else {
        nat_text(i as nat)
    }
}

pub open spec fn all_digits(s: Seq<char>) -> bool {
    forall|i: int| 0 <= i < s.len() ==> is_digit(#[trigger] s[i])
}

/// The value of a sequence of decimal digits.
pub open spec fn digits_value(s: Seq<char>) -> nat
    decreases s.len(),
{
    if s.len() == 0 {
        0
    } else {
        digits_value(s.drop_last()) * 10 + digit_value(s.last())
    }
}

/// The natural number that a non-empty sequence of digits stands for.
pub open spec fn parsed_nat(s: Seq<char>) -> Option<nat> {
    if s.len() > 0 && all_digits(s) {
        Some(digits_value(s))
    } else {
        None
    }
}

/// The number that a text stands for: digits with an optional leading plus, within
/// the range of `usize`.
pub open spec fn parsed_usize(s: Seq<char>) -> Option<usize> {
    let d = if s.len() > 0 && s[0] == '+' {
        s.skip(1)
    } else {
        s
    };
    match parsed_nat(d) {
        Some(n) => if n <= usize::MAX {
            Some(n as usize)
        } else {
            None
        },
        None => None,
    }
}

/// The number that a text stands for: digits with an optional leading sign, within the
/// range of `i64`.
pub open spec fn parsed_i64(s: Seq<char>) -> Option<i64> {
    if s.len() > 0 && s[0] == '-' {
        match parsed_nat(s.skip(1)) {
            Some(n) => if n <= -(i64::MIN as int) {
                Some((-(n as int)) as i64)
            } else {
                None
            },
            None => None,
        }
    } else {
        let d = if s.len() > 0 && s[0] == '+' {
            s.skip(1)
        } else {
            s
        };
        match parsed_nat(d) {
            Some(n) => if n <= i64::MAX {
                Some(n as i64)
            } else {
                None
            },
            None => None,
        }
    }
}

proof fn lemma_digits_value_grows(s: Seq<char>, k: int)
    requires
        0 <= k <= s.len(),
    ensures
        digits_value(s.take(k)) <= digits_value(s),
    decreases s.len(),
{
    if k == s.len() {
        assert(s.take(k) =~= s);
    } else {
        lemma_digits_value_grows(s.drop_last(), k);
        assert(s.drop_last().take(k) =~= s.take(k));
    }
}

fn parse_digits(v: &[char], from: usize, limit: u64) -> (r: Option<u64>)
    requires
        from <= v@.len(),
    ensures
        match r {
            Some(n) => parsed_nat(v@.skip(from as int)) == Some(n as nat) && n <= limit,
            None => match parsed_nat(v@.skip(from as int)) {
                Some(n) => n > limit,
                None => true,
            },
        },
{
    let ghost d = v@.skip(from as int);
    if from == v.len() {
        return None;
    }
    let mut n: u64 = 0;
    let mut i: usize = from;
    while i < v.len()
        invariant
            from <= i <= v@.len(),
            d == v@.skip(from as int),
            n <= limit,
            n == digits_value(d.take(i - from)),
            forall|k: int| 0 <= k < i - from ==> is_digit(#[trigger] d[k]),
        decreases v@.len() - i,
    {
        let c = v[i];
        if c < '0' || c > '9' {
            proof {
                assert(!is_digit(d[i - from]));
            }
            return None;
        }
        let x: u64 = (c as u32 - '0' as u32) as u64;
        proof {
            assert(d.take(i + 1 - from).drop_last() =~= d.take(i - from));
            assert(d.take(i + 1 - from).last() == c);
            assert(digits_value(d.take(i + 1 - from)) == n * 10 + x);
            lemma_digits_value_grows(d, i + 1 - from);
        }
        if n > limit / 10 {
            return None;
        }
        let m: u64 = n * 10;
        if x > limit - m {
            return None;
        }
        n = m + x;
        i += 1;
    }
    proof {
        assert(d.take(d.len() as int) =~= d);
    }
    Some(n)
}

/// Reads a number as `str::parse::<usize>` does: digits with an optional leading plus.
pub fn parse_usize(s: &str) -> (r: Option<usize>)
    ensures
        r == parsed_usize(s@),
{
    let v = chars_of(s);
    let from: usize = if v.len() > 0 && v[0] == '+' {
        1
    } else {
        0
    };
    proof {
        assert(v@.skip(0) =~= v@);
    }
    match parse_digits(&v, from, usize::MAX as u64) {
        Some(n) => Some(n as usize),
        None => None,
    }
}

/// Reads a number as `str::parse::<i64>` does: digits with an optional leading sign.
pub fn parse_i64(s: &str) -> (r: Option<i64>)
    ensures
        r == parsed_i64(s@),
{
    let v = chars_of(s);
    parse_i64_chars(&v)
}

/// [`parse_i64`] on characters.
pub fn parse_i64_chars(v: &[char]) -> (r: Option<i64>)
    ensures
        r == parsed_i64(v@),
{
    proof {
        assert(v@.skip(0) =~= v@);
    }
    if v.len() > 0 && v[0] == '-' {
        match parse_digits(v, 1, 0x8000_0000_0000_0000u64) {
            Some(n) => if n == 0x8000_0000_0000_0000u64 {
                Some(i64::MIN)
            } else {
                Some(-(n as i64))
            },
            None => None,
        }
    } else {
        let from: usize = if v.len() > 0 && v[0] == '+' {
            1
        } else {
            0
        };
        match parse_digits(v, from, i64::MAX as u64) {
            Some(n) => Some(n as i64),
            None => None,
        }
    }
}

fn push_digits(s: &mut String, n: u128)
    ensures
        final(s)@ == old(s)@ + nat_text(n as nat),
    decreases n,
{
    if n >= 10 {
        push_digits(s, n / 10);
    }
    let d: u8 = (n % 10) as u8;
    let c: char = (48u8 + d) as char;
    proof {
        assert(c == digit_char((n % 10) as nat));
    }
    s.push(c);
    proof {
        if n >= 10 {
            assert(old(s)@ + nat_text(n as nat) =~= (old(s)@ + nat_text((n / 10) as nat)).push(c));
        } else {
            assert(old(s)@ + nat_text(n as nat) =~= old(s)@.push(c));
        }
    }
}

/// The decimal form of a natural number.
pub fn show_u64(n: u64) -> (s: String)
    ensures
        s@ == nat_text(n as nat),
{
    show_u128(n as u128)
}

/// The decimal form of a natural number.
pub fn show_u128(n: u128) -> (s: String)
    ensures
        s@ == nat_text(n as nat),
{
    let mut s = String::new();
    push_digits(&mut s, n);
    proof {
        assert(Seq::<char>::empty() + nat_text(n as nat) =~= nat_text(n as nat));
    }
    s
}

/// The decimal form of a natural number.
pub fn show_usize(n: usize) -> (s: String)
    ensures
        s@ == nat_text(n as nat),
{
    show_u64(n as u64)
}

/// The decimal form of an integer.
pub fn show_i64(i: i64) -> (s: String)
    ensures
        s@ == int_text(i as int),
{
    let mut s = String::new();
    if i < 0 {
        s.push('-');
        let m: u128 = (-(i as i128)) as u128;
        push_digits(&mut s, m);
        proof {
            assert(seq!['-'] =~= Seq::<char>::empty().push('-'));
        }
    } else {
        push_digits(&mut s, i as u128);
        proof {
            assert(Seq::<char>::empty() + nat_text(i as nat) =~= nat_text(i as nat));
        }
    }
    s
}

/// The decimal form of a natural number is one or more digits that stand for it.
pub proof fn lemma_nat_text_digits(n: nat)
    ensures
        nat_text(n).len() > 0,
        all_digits(nat_text(n)),
        digits_value(nat_text(n)) == n,
    decreases n,
{
    if n < 10 {
        let t = nat_text(n);
        assert(t.drop_last() =~= Seq::<char>::empty());
        assert(digits_value(t.drop_last()) == 0);
        assert(digit_value(t.last()) == n);
    } else {
        lemma_nat_text_digits(n / 10);
        let t = nat_text(n);
        assert(t.drop_last() =~= nat_text(n / 10));
        assert(digit_value(t.last()) == n % 10);
    }
}

/// Reading back the decimal form of an `i64` gives the number.
pub proof fn law_show_parse_i64(i: i64)
    ensures
        parsed_i64(int_text(i as int)) == Some(i),
{
    if i < 0 {
        let t = int_text(i as int);
        lemma_nat_text_digits((-(i as int)) as nat);
        assert(t.skip(1) =~= nat_text((-(i as int)) as nat));
    } else {
        let t = nat_text(i as nat);
        lemma_nat_text_digits(i as nat);
        assert(is_digit(t[0]));
    }
}

/// Reading back the decimal form of a `usize` gives the number.
pub proof fn law_show_parse_usize(n: usize)
    ensures
        parsed_usize(nat_text(n as nat)) == Some(n),
{
    lemma_nat_text_digits(n as nat);
    assert(is_digit(nat_text(n as nat)[0]));
}

// ---------------------------------------------------------------------------
// ASCII case
// ---------------------------------------------------------------------------

pub open spec fn ascii_lower(c: char) -> char {
    if 'A' <= c && c <= 'Z' {
        (c as int + 32) as char
    } else {
        c
    }
}

/// Whether two texts agree up to the case of ASCII letters.
pub open spec fn ascii_same(a: Seq<char>, b: Seq<char>) -> bool {
    &&& a.len() == b.len()
    &&& forall|i: int| 0 <= i < a.len() ==> ascii_lower(#[trigger] a[i]) == ascii_lower(b[i])
}

fn lower_ascii(c: char) -> (r: char)
    ensures
        r == ascii_lower(c),
{
    if 'A' <= c && c <= 'Z' {
        (c as u8 + 32u8) as char
    } else {
        c
    }
}

/// Whether two texts agree up to the case of ASCII letters.
pub fn eq_ignore_ascii_case(a: &[char], b: &str) -> (r: bool)
    ensures
        r == ascii_same(a@, b@),
{
    let w = chars_of(b);
    if a.len() != w.len() {
        return false;
    }
    let mut i: usize = 0;
    while i < a.len()
        invariant
            i <= a@.len() == w@.len(),
            w@ == b@,
            forall|k: int| 0 <= k < i ==> ascii_lower(#[trigger] a@[k]) == ascii_lower(b@[k]),
        decreases a@.len() - i,
    {
        if lower_ascii(a[i]) != lower_ascii(w[i]) {
            return false;
        }
        i += 1;
    }
    true
}

/// The position of the first `c` at or after `from`, or the length of the text.
pub open spec fn find_from(s: Seq<char>, c: char, from: int) -> int
    decreases s.len() - from,
{
    if from < 0 || from >= s.len() {
        s.len() as int
    } else if s[from] == c {
        from
    } else {
        find_from(s, c, from + 1)
    }
}

/// The position of the first `c` at or after `from`, or the length of the text.
pub fn find_char(v: &[char], c: char, from: usize) -> (r: usize)
    requires
        from <= v@.len(),
    ensures
        r == find_from(v@, c, from as int),
        from <= r <= v@.len(),
        r < v@.len() ==> v@[r as int] == c,
        forall|k: int| from <= k < r ==> v@[k] != c,
{
    let mut i: usize = from;
    while i < v.len() && v[i] != c
        invariant
            from <= i <= v@.len(),
            find_from(v@, c, from as int) == find_from(v@, c, i as int),
            forall|k: int| from <= k < i ==> v@[k] != c,
        decreases v@.len() - i,
    {
        i += 1;
    }
    i
}

// ---------------------------------------------------------------------------
// Splitting
// ---------------------------------------------------------------------------

/// The pieces between the separators, one more than there are separators.
pub open spec fn split_from(s: Seq<char>, sep: char, from: int) -> Seq<Seq<char>>
    decreases s.len() - from,
    via split_from_decreases
{
    if from < 0 || from > s.len() {
        seq![]
    } else {
        let k = find_from(s, sep, from);
        if k >= s.len() {
            seq![s.subrange(from, s.len() as int)]
        } else {
            seq![s.subrange(from, k)] + split_from(s, sep, k + 1)
        }
    }
}

proof fn lemma_find_from_bound(s: Seq<char>, c: char, from: int)
    requires
        0 <= from <= s.len(),
    ensures
        from <= find_from(s, c, from) <= s.len(),
    decreases s.len() - from,
{
    if from < s.len() && s[from] != c {
        lemma_find_from_bound(s, c, from + 1);
    }
}

#[via_fn]
proof fn split_from_decreases(s: Seq<char>, sep: char, from: int) {
    if 0 <= from <= s.len() {
        lemma_find_from_bound(s, sep, from);
    }
}

/// The pieces between the separators.
pub open spec fn split_on(s: Seq<char>, sep: char) -> Seq<Seq<char>> {
    split_from(s, sep, 0)
}

/// The pieces between the separators.
pub fn split(v: &[char], sep: char) -> (r: Vec<String>)
    ensures
        texts(r@) == split_on(v@, sep),
{
    let mut r: Vec<String> = Vec::new();
    let mut from: usize = 0;
    proof {
        assert(texts(r@) + split_from(v@, sep, 0) =~= split_on(v@, sep));
    }
    loop
        invariant
            from <= v@.len(),
            texts(r@) + split_from(v@, sep, from as int) == split_on(v@, sep),
        decreases v@.len() - from,
    {
        let k = find_char(v, sep, from);
        let piece = slice_text(v, from, k);
        let ghost before = r@;
        proof {
            lemma_texts_push(before, piece);
        }
        r.push(piece);
        if k >= v.len() {
            proof {
                assert(texts(before) + seq![piece@] =~= texts(r@));
            }
            return r;
        }
        proof {
            assert(texts(before) + (seq![piece@] + split_from(v@, sep, k + 1)) =~= texts(r@)
                + split_from(v@, sep, k + 1));
        }
        from = k + 1;
    }
}

proof fn lemma_find_shifted(s: Seq<char>, c: char, from: int, i: int)
    requires
        0 <= from,
        0 <= i,
        from + i <= s.len(),
    ensures
        find_from(s, c, from + i) == from + find_from(s.skip(from), c, i),
    decreases s.len() - from - i,
{
    if from + i < s.len() && s[from + i] != c {
        lemma_find_shifted(s, c, from, i + 1);
    }
}

proof fn lemma_split_shifted(s: Seq<char>, sep: char, from: int, i: int)
    requires
        0 <= from,
        0 <= i,
        from + i <= s.len(),
    ensures
        split_from(s, sep, from + i) == split_from(s.skip(from), sep, i),
    decreases s.len() - from - i,
{
    let t = s.skip(from);
    lemma_find_shifted(s, sep, from, i);
    lemma_find_from_bound(t, sep, i);
    let k = find_from(t, sep, i);
    if k >= t.len() {
        assert(s.subrange(from + i, s.len() as int) =~= t.subrange(i, t.len() as int));
    } else {
        assert(s.subrange(from + i, from + k) =~= t.subrange(i, k));
        lemma_split_shifted(s, sep, from, k + 1);
    }
}

proof fn lemma_split_joined_from(a: Seq<char>, b: Seq<char>, sep: char, from: int)
    requires
        0 <= from <= a.len(),
    ensures
        split_from(a.push(sep) + b, sep, from) == split_from(a, sep, from) + split_on(b, sep),
    decreases a.len() - from,
{
    let s = a.push(sep) + b;
    lemma_find_from(a, sep, from);
    lemma_find_from(s, sep, from);
    let k = find_from(a, sep, from);
    let n = find_from(s, sep, from);
    assert forall|j: int| from <= j < a.len() implies s[j] == a[j] by {}
    assert(s[a.len() as int] == sep);
    assert(n == k);
    assert(s.subrange(from, n) =~= a.subrange(from, k));
    if k < a.len() {
        lemma_split_joined_from(a, b, sep, k + 1);
        assert(seq![a.subrange(from, k)] + (split_from(a, sep, k + 1) + split_on(b, sep)) =~= (seq![
            a.subrange(from, k),
        ] + split_from(a, sep, k + 1)) + split_on(b, sep));
    } else {
        let end = a.len() as int + 1;
        lemma_split_shifted(s, sep, end, 0);
        assert(s.skip(end) =~= b);
    }
}

/// Two texts with a separator between them have the pieces of both.
pub proof fn lemma_split_joined(a: Seq<char>, b: Seq<char>, sep: char)
    ensures
        split_on(a.push(sep) + b, sep) == split_on(a, sep) + split_on(b, sep),
{
    lemma_split_joined_from(a, b, sep, 0);
}

/// Every piece is free of separators, and the last one is what follows the last separator.
pub proof fn lemma_split_pieces(s: Seq<char>, sep: char, from: int)
    requires
        0 <= from <= s.len(),
    ensures
        split_from(s, sep, from).len() > 0,
        forall|k: int, j: int|
            0 <= k < split_from(s, sep, from).len() && 0 <= j < split_from(s, sep, from)[k].len()
                ==> #[trigger] split_from(s, sep, from)[k][j] != sep,
        forall|k: int|
            from <= k < s.len() && #[trigger] s[k] == sep && (forall|j: int|
                k < j < s.len() ==> s[j] != sep) ==> split_from(s, sep, from).last() == s.subrange(
                k + 1,
                s.len() as int,
            ),
        (forall|j: int| from <= j < s.len() ==> s[j] != sep) ==> split_from(s, sep, from) == seq![
            s.subrange(from, s.len() as int),
        ],
    decreases s.len() - from,
{
    lemma_find_from(s, sep, from);
    let k = find_from(s, sep, from);
    if k < s.len() {
        lemma_split_pieces(s, sep, k + 1);
        let rest = split_from(s, sep, k + 1);
        let all = split_from(s, sep, from);
        assert(all == seq![s.subrange(from, k)] + rest);
        assert forall|a: int, j: int| 0 <= a < all.len() && 0 <= j < all[a].len() implies
            #[trigger] all[a][j] != sep by {
            if a > 0 {
                assert(all[a] == rest[a - 1]);
                assert(rest[a - 1][j] != sep);
            }
        }
        assert(all.last() == rest.last());
        assert forall|a: int|
            from <= a < s.len() && #[trigger] s[a] == sep && (forall|j: int|
                a < j < s.len() ==> s[j] != sep) implies all.last() == s.subrange(
            a + 1,
            s.len() as int,
        ) by {
            if a == k {
                assert(rest == seq![s.subrange(k + 1, s.len() as int)]);
            } else {
                assert(a > k);
                assert(s[a] == sep);
            }
        }
    }
}

proof fn lemma_find_from(s: Seq<char>, c: char, from: int)
    requires
        0 <= from <= s.len(),
    ensures
        from <= find_from(s, c, from) <= s.len(),
        find_from(s, c, from) < s.len() ==> s[find_from(s, c, from)] == c,
        forall|j: int| from <= j < find_from(s, c, from) ==> s[j] != c,
    decreases s.len() - from,
{
    if from < s.len() && s[from] != c {
        lemma_find_from(s, c, from + 1);
    }
}

// ---------------------------------------------------------------------------
// Order
// ---------------------------------------------------------------------------

/// Whether a text comes before another or is the same: character by character, and a text
/// that ends comes first.
pub open spec fn text_le(a: Seq<char>, b: Seq<char>) -> bool
    decreases a.len(),
{
    if a.len() == 0 {
        true
    } else if b.len() == 0 {
        false
    } else if a[0] != b[0] {
        a[0] < b[0]
    } else {
        text_le(a.skip(1), b.skip(1))
    }
}

/// Whether a text comes before another or is the same.
pub fn text_not_after(a: &str, b: &str) -> (r: bool)
    ensures
        r == text_le(a@, b@),
{
    let x = chars_of(a);
    let y = chars_of(b);
    let mut i: usize = 0;
    proof {
        assert(x@.skip(0) =~= x@);
        assert(y@.skip(0) =~= y@);
    }
    while i < x.len() && i < y.len()
        invariant
            i <= x@.len(),
            i <= y@.len(),
            x@ == a@,
            y@ == b@,
            text_le(a@, b@) == text_le(x@.skip(i as int), y@.skip(i as int)),
        decreases x@.len() - i,
    {
        if x[i] != y[i] {
            return x[i] < y[i];
        }
        proof {
            assert(x@.skip(i as int).skip(1) =~= x@.skip(i + 1));
            assert(y@.skip(i as int).skip(1) =~= y@.skip(i + 1));
        }
        i += 1;
    }
    i >= x.len()
}

/// Any two texts are ordered, and only a text itself comes both before and after it.
pub proof fn law_text_order(a: Seq<char>, b: Seq<char>, c: Seq<char>)
    ensures
        text_le(a, b) || text_le(b, a),
        text_le(a, b) && text_le(b, a) ==> a == b,
        text_le(a, b) && text_le(b, c) ==> text_le(a, c),
    decreases a.len(),
{
    if a.len() > 0 && b.len() > 0 {
        if c.len() > 0 {
            law_text_order(a.skip(1), b.skip(1), c.skip(1));
        } else {
            law_text_order(a.skip(1), b.skip(1), c);
        }
        if text_le(a, b) && text_le(b, a) {
            assert(a =~= seq![a[0]] + a.skip(1));
            assert(b =~= seq![b[0]] + b.skip(1));
        }
    } else if a.len() == 0 && b.len() == 0 {
        assert(a =~= b);
    }
}

} // verus!
