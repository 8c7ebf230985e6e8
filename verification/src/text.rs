//! Text as sequences of characters: the helpers that every parser and every writer of the
//! crate is built from.

use vstd::prelude::*;
use vstd::slice::slice_subrange;
use vstd::utf8::{encode_scalar, encode_utf8};

verus! {

/// `String::push` appends one character.
pub assume_specification[ String::push ](s: &mut String, c: char)
    ensures
        final(s)@ == old(s)@.push(c),
;

/// `str`'s `==` holds exactly of equal texts.
pub assume_specification[ <str as PartialEq<str>>::eq ](a: &str, b: &str) -> (r: bool)
    ensures
        r == (a@ == b@),
;

/// The views of a sequence's items.
pub open spec fn views<T: View>(v: Seq<T>) -> Seq<T::V> {
    Seq::new(v.len(), |i: int| v[i]@)
}

pub broadcast proof fn views_push<T: View>(v: Seq<T>, x: T)
    ensures
        #[trigger] views(v.push(x)) == views(v).push(x@),
{
    assert(views(v.push(x)) =~= views(v).push(x@));
}

pub broadcast proof fn views_empty<T: View>(v: Seq<T>)
    requires
        v.len() == 0,
    ensures
        #[trigger] views(v) == Seq::<T::V>::empty(),
{
    assert(views(v) =~= Seq::<T::V>::empty());
}

/// Whether two texts are equal.
pub fn same(a: &str, b: &str) -> (r: bool)
    ensures
        r == (a@ == b@),
{
    *a == *b
}

/// The characters of a text.
pub fn chars_of(s: &str) -> (r: Vec<char>)
    ensures
        r@ == s@,
{
    let mut out: Vec<char> = Vec::new();
    for c in it: s.chars()
        invariant
            it.seq() == s@,
            out@ == s@.take(it.index() as int),
    {
        out.push(c);
        assert(out@ =~= s@.take(it.index() as int + 1));
    }
    assert(s@.take(s@.len() as int) =~= s@);
    out
}

/// The text made of some characters.
pub fn string_of(v: &[char]) -> (r: String)
    ensures
        r@ == v@,
{
    let mut out = String::new();
    let mut i: usize = 0;
    while i < v.len()
        invariant
            i <= v@.len(),
            out@ == v@.take(i as int),
        decreases v@.len() - i,
    {
        out.push(v[i]);
        i += 1;
        assert(v@.take(i as int) =~= v@.take(i as int - 1).push(v@[i as int - 1]));
    }
    assert(v@.take(v@.len() as int) =~= v@);
    out
}

/// A copy of some characters.
pub fn copy_of(v: &[char]) -> (r: Vec<char>)
    ensures
        r@ == v@,
{
    let mut out: Vec<char> = Vec::new();
    let mut i: usize = 0;
    while i < v.len()
        invariant
            i <= v@.len(),
            out@ == v@.take(i as int),
        decreases v@.len() - i,
    {
        out.push(v[i]);
        i += 1;
        assert(v@.take(i as int) =~= v@.take(i as int - 1).push(v@[i as int - 1]));
    }
    assert(v@.take(v@.len() as int) =~= v@);
    out
}

/// The characters of `s` from `from` up to `to`.
pub fn part(s: &[char], from: usize, to: usize) -> (r: &[char])
    requires
        from <= to <= s@.len(),
    ensures
        r@ == s@.subrange(from as int, to as int),
{
    slice_subrange(s, from, to)
}

/// Whether two runs of characters are equal.
pub fn same_chars(a: &[char], b: &[char]) -> (r: bool)
    ensures
        r == (a@ == b@),
{
    if a.len() != b.len() {
        return false;
    }
    let mut i: usize = 0;
    while i < a.len()
        invariant
            i <= a@.len(),
            a@.len() == b@.len(),
            forall|j: int| 0 <= j < i ==> a@[j] == b@[j],
        decreases a@.len() - i,
    {
        if a[i] != b[i] {
            return false;
        }
        i += 1;
    }
    assert(a@ =~= b@);
    true
}

/// Two texts, one after the other.
pub fn joined(a: &str, b: &str) -> (r: String)
    ensures
        r@ == a@ + b@,
{
    let mut out = a.to_owned();
    out.append(b);
    out
}

// Character classes.

pub open spec fn is_digit_spec(c: char) -> bool {
    '0' <= c && c <= '9'
}

/// Whether `c` is an ASCII decimal digit.
#[verifier::when_used_as_spec(is_digit_spec)]
pub fn is_digit(c: char) -> (r: bool)
    ensures
        r == is_digit_spec(c),
{
    '0' <= c && c <= '9'
}

pub open spec fn is_letter_spec(c: char) -> bool {
    ('a' <= c && c <= 'z') || ('A' <= c && c <= 'Z')
}

/// Whether `c` is an ASCII letter.
#[verifier::when_used_as_spec(is_letter_spec)]
pub fn is_letter(c: char) -> (r: bool)
    ensures
        r == is_letter_spec(c),
{
    ('a' <= c && c <= 'z') || ('A' <= c && c <= 'Z')
}

pub open spec fn is_white_spec(c: char) -> bool {
    let n = c as u32;
    (9 <= n && n <= 13) || n == 32 || n == 0x85 || n == 0xA0 || n == 0x1680 || (0x2000 <= n && n
        <= 0x200A) || n == 0x2028 || n == 0x2029 || n == 0x202F || n == 0x205F || n == 0x3000
}

/// Whether `c` has the Unicode property `White_Space`.
#[verifier::when_used_as_spec(is_white_spec)]
pub fn is_white(c: char) -> (r: bool)
    ensures
        r == is_white_spec(c),
{
    let n: u32 = c as u32;
    (9 <= n && n <= 13) || n == 32 || n == 0x85 || n == 0xA0 || n == 0x1680 || (0x2000 <= n && n
        <= 0x200A) || n == 0x2028 || n == 0x2029 || n == 0x202F || n == 0x205F || n == 0x3000
}

pub open spec fn lower_spec(c: char) -> char {
    if 'A' <= c && c <= 'Z' {
        ((c as u8) + 32) as u8 as char
    } else {
        c
    }
}

/// The lower-case form of an ASCII letter; any other character as it is.
#[verifier::when_used_as_spec(lower_spec)]
pub fn lower(c: char) -> (r: char)
    ensures
        r == lower_spec(c),
{
    if 'A' <= c && c <= 'Z' {
        ((c as u8) + 32) as char
    } else {
        c
    }
}

pub open spec fn lowered(s: Seq<char>) -> Seq<char> {
    Seq::new(s.len(), |i: int| lower_spec(s[i]))
}

/// Whether two texts are equal once ASCII case is set aside.
pub fn same_ignoring_case(a: &str, b: &str) -> (r: bool)
    ensures
        r == (lowered(a@) == lowered(b@)),
{
    let x = chars_of(a);
    let y = chars_of(b);
    if x.len() != y.len() {
        assert(lowered(a@).len() != lowered(b@).len());
        return false;
    }
    let mut i: usize = 0;
    while i < x.len()
        invariant
            i <= x@.len(),
            x@ == a@,
            y@ == b@,
            x@.len() == y@.len(),
            forall|j: int| 0 <= j < i ==> lower_spec(#[trigger] x@[j]) == lower_spec(y@[j]),
        decreases x@.len() - i,
    {
        if lower(x[i]) != lower(y[i]) {
            assert(lowered(a@)[i as int] != lowered(b@)[i as int]);
            return false;
        }
        i += 1;
    }
    assert(lowered(a@) =~= lowered(b@));
    true
}

/// A text with its ASCII letters in lower case.
pub fn to_lower(s: &str) -> (r: String)
    ensures
        r@ == lowered(s@),
{
    let v = chars_of(s);
    let mut out = String::new();
    let mut i: usize = 0;
    while i < v.len()
        invariant
            i <= v@.len(),
            v@ == s@,
            out@ == lowered(s@).take(i as int),
        decreases v@.len() - i,
    {
        out.push(lower(v[i]));
        i += 1;
        assert(lowered(s@).take(i as int) =~= lowered(s@).take(i as int - 1).push(
            lowered(s@)[i as int - 1],
        ));
    }
    assert(lowered(s@).take(s@.len() as int) =~= lowered(s@));
    out
}

/// `c` is an ASCII character.
pub open spec fn is_ascii_char(c: char) -> bool {
    (c as u32) < 128
}

pub open spec fn upper_spec(c: char) -> char {
    if 'a' <= c && c <= 'z' {
        ((c as u8) - 32) as u8 as char
    } else {
        c
    }
}

/// The upper-case form of an ASCII letter; any other character as it is.
#[verifier::when_used_as_spec(upper_spec)]
pub fn upper(c: char) -> (r: char)
    ensures
        r == upper_spec(c),
{
    if 'a' <= c && c <= 'z' {
        ((c as u8) - 32) as char
    } else {
        c
    }
}

/// A text with its ASCII letters in upper case.
pub open spec fn raised(s: Seq<char>) -> Seq<char> {
    Seq::new(s.len(), |i: int| upper_spec(s[i]))
}

/// A text with its ASCII letters in upper case.
pub fn to_upper(s: &str) -> (r: String)
    ensures
        r@ == raised(s@),
{
    let v = chars_of(s);
    let mut out = String::new();
    let mut i: usize = 0;
    while i < v.len()
        invariant
            i <= v@.len(),
            v@ == s@,
            out@ == raised(s@).take(i as int),
        decreases v@.len() - i,
    {
        out.push(upper(v[i]));
        i += 1;
        assert(raised(s@).take(i as int) =~= raised(s@).take(i as int - 1).push(
            raised(s@)[i as int - 1],
        ));
    }
    assert(raised(s@).take(s@.len() as int) =~= raised(s@));
    out
}

/// A text in upper case, by the rules of Unicode.
pub uninterp spec fn uppercased(s: Seq<char>) -> Seq<char>;

/// `str::to_uppercase`. Of a text in ASCII it raises each letter and leaves the rest.
#[verifier::external_body]
pub(crate) fn to_uppercase(s: &str) -> (r: String)
    ensures
        r@ == uppercased(s@),
        (forall|i: int| 0 <= i < s@.len() ==> is_ascii_char(#[trigger] s@[i])) ==> r@ == raised(s@),
{
    s.to_uppercase()
}

/// A text between quotation marks, with what would not show there escaped.
pub uninterp spec fn quoted(s: Seq<char>) -> Seq<char>;

/// `str`'s `Debug`.
#[verifier::external_body]
pub(crate) fn quote(s: &str) -> (r: String)
    ensures
        r@ == quoted(s@),
{
    format!("{s:?}")
}

// Order.

/// `a` comes before `b`, or is `b`, by the characters from left to right.
pub open spec fn ordered(a: Seq<char>, b: Seq<char>) -> bool
    decreases a.len(),
{
    if a.len() == 0 {
        true
    } else if b.len() == 0 {
        false
    } else if a[0] != b[0] {
        a[0] < b[0]
    } else {
        ordered(a.skip(1), b.skip(1))
    }
}

/// Of two texts one comes before the other.
pub proof fn ordered_either_way(a: Seq<char>, b: Seq<char>)
    ensures
        ordered(a, b) || ordered(b, a),
    decreases a.len(),
{
    if a.len() > 0 && b.len() > 0 && a[0] == b[0] {
        ordered_either_way(a.skip(1), b.skip(1));
    }
}

pub proof fn ordered_chains(a: Seq<char>, b: Seq<char>, c: Seq<char>)
    requires
        ordered(a, b),
        ordered(b, c),
    ensures
        ordered(a, c),
    decreases a.len(),
{
    if a.len() > 0 && b.len() > 0 && c.len() > 0 && a[0] == b[0] && b[0] == c[0] {
        ordered_chains(a.skip(1), b.skip(1), c.skip(1));
    }
}

/// Whether `a` comes before `b`, or is `b`.
pub fn in_order(a: &str, b: &str) -> (r: bool)
    ensures
        r == ordered(a@, b@),
{
    let x = chars_of(a);
    let y = chars_of(b);
    let mut i: usize = 0;
    assert(a@.skip(0) =~= a@);
    assert(b@.skip(0) =~= b@);
    while i < x.len()
        invariant
            x@ == a@,
            y@ == b@,
            i <= x@.len(),
            i <= y@.len(),
            ordered(a@, b@) == ordered(a@.skip(i as int), b@.skip(i as int)),
        decreases x@.len() - i,
    {
        if i >= y.len() {
            return false;
        }
        if x[i] != y[i] {
            return x[i] < y[i];
        }
        assert(a@.skip(i as int).skip(1) =~= a@.skip(i as int + 1));
        assert(b@.skip(i as int).skip(1) =~= b@.skip(i as int + 1));
        i += 1;
    }
    true
}

/// Each text of `v` comes before the next, or is the same.
pub open spec fn sorted(v: Seq<Seq<char>>) -> bool {
    forall|i: int, j: int| 0 <= i <= j < v.len() ==> ordered(#[trigger] v[i], #[trigger] v[j])
}

// Trimming.

/// `s` without the white space that it begins with.
pub open spec fn trimmed_start(s: Seq<char>) -> Seq<char>
    decreases s.len(),
{
    if s.len() > 0 && is_white_spec(s[0]) {
        trimmed_start(s.skip(1))
    } else {
        s
    }
}

/// `s` without the white space that it ends in.
pub open spec fn trimmed_end(s: Seq<char>) -> Seq<char>
    decreases s.len(),
{
    if s.len() > 0 && is_white_spec(s.last()) {
        trimmed_end(s.drop_last())
    } else {
        s
    }
}

/// `s` without the white space round it.
pub open spec fn trimmed(s: Seq<char>) -> Seq<char> {
    trimmed_end(trimmed_start(s))
}

/// `s` without the white space round it.
pub fn trim(s: &str) -> (r: String)
    ensures
        r@ == trimmed(s@),
{
    let v = chars_of(s);
    let mut i: usize = 0;
    assert(s@.skip(0) =~= s@);
    while i < v.len() && is_white(v[i])
        invariant
            i <= v@.len(),
            v@ == s@,
            trimmed_start(s@) == trimmed_start(s@.skip(i as int)),
        decreases v@.len() - i,
    {
        assert(s@.skip(i as int).skip(1) =~= s@.skip(i as int + 1));
        i += 1;
    }
    let ghost rest = s@.skip(i as int);
    let mut n: usize = v.len();
    assert(rest =~= s@.subrange(i as int, n as int));
    while n > i && is_white(v[n - 1])
        invariant
            i <= n <= v@.len(),
            v@ == s@,
            trimmed_end(rest) == trimmed_end(s@.subrange(i as int, n as int)),
        decreases n,
    {
        let ghost held = s@.subrange(i as int, n as int);
        assert(held.drop_last() =~= s@.subrange(i as int, n as int - 1));
        n -= 1;
    }
    string_of(part(v.as_slice(), i, n))
}

// Searching.

/// `pat` stands in `s` at `i`.
pub open spec fn stands_at(s: Seq<char>, pat: Seq<char>, i: int) -> bool {
    0 <= i && i + pat.len() <= s.len() && s.subrange(i, i + pat.len()) == pat
}

/// The first place at or after `from` where `pat` stands in `s`; the length of `s` where there
/// is none.
pub open spec fn first_match(s: Seq<char>, pat: Seq<char>, from: int) -> int
    decreases s.len() - from,
{
    if from >= s.len() {
        s.len() as int
    } else if stands_at(s, pat, from) {
        from
    } else {
        first_match(s, pat, from + 1)
    }
}

pub proof fn first_match_bounds(s: Seq<char>, pat: Seq<char>, from: int)
    requires
        0 <= from <= s.len(),
    ensures
        from <= first_match(s, pat, from) <= s.len(),
        first_match(s, pat, from) < s.len() ==> stands_at(s, pat, first_match(s, pat, from)),
        forall|j: int|
            from <= j < first_match(s, pat, from) ==> !#[trigger] stands_at(s, pat, j),
    decreases s.len() - from,
{
    if from < s.len() && !stands_at(s, pat, from) {
        first_match_bounds(s, pat, from + 1);
    }
}

pub fn stands_here(s: &[char], pat: &[char], at: usize) -> (r: bool)
    requires
        at <= s@.len(),
    ensures
        r == stands_at(s@, pat@, at as int),
{
    if s.len() - at < pat.len() {
        return false;
    }
    same_chars(part(s, at, at + pat.len()), pat)
}

/// The first place at or after `from` where `pat` stands in `s`, or the length of `s`.
pub fn find(s: &[char], pat: &[char], from: usize) -> (r: usize)
    requires
        from <= s@.len(),
    ensures
        r as int == first_match(s@, pat@, from as int),
        from <= r <= s@.len(),
{
    let mut at: usize = from;
    while at < s.len()
        invariant
            from <= at <= s@.len(),
            first_match(s@, pat@, from as int) == first_match(s@, pat@, at as int),
        decreases s@.len() - at,
    {
        if stands_here(s, pat, at) {
            return at;
        }
        at += 1;
    }
    s.len()
}

/// `c` occurs in `s`.
pub open spec fn occurs(s: Seq<char>, c: char) -> bool {
    exists|i: int| 0 <= i < s.len() && s[i] == c
}

/// Whether `c` occurs in `s`.
pub fn holds(s: &[char], c: char) -> (r: bool)
    ensures
        r == occurs(s@, c),
{
    let mut i: usize = 0;
    while i < s.len()
        invariant
            i <= s@.len(),
            forall|j: int| 0 <= j < i ==> s@[j] != c,
        decreases s@.len() - i,
    {
        if s[i] == c {
            return true;
        }
        i += 1;
    }
    false
}

/// `pat` occurs in `s`.
pub open spec fn has_text(s: Seq<char>, pat: Seq<char>) -> bool {
    exists|i: int| #[trigger] stands_at(s, pat, i)
}

/// Whether `pat` occurs in `s`.
pub fn contains(s: &str, pat: &str) -> (r: bool)
    requires
        pat@.len() > 0,
    ensures
        r == has_text(s@, pat@),
{
    let v = chars_of(s);
    let p = chars_of(pat);
    let at = find(v.as_slice(), p.as_slice(), 0);
    proof {
        first_match_bounds(s@, pat@, 0);
    }
    at < v.len()
}

/// `s` begins with `pat`.
pub open spec fn begins(s: Seq<char>, pat: Seq<char>) -> bool {
    stands_at(s, pat, 0)
}

/// `s` ends with `pat`.
pub open spec fn ends(s: Seq<char>, pat: Seq<char>) -> bool {
    stands_at(s, pat, s.len() - pat.len())
}

/// Whether `s` begins with `pat`.
pub fn begins_with(s: &str, pat: &str) -> (r: bool)
    ensures
        r == begins(s@, pat@),
{
    let v = chars_of(s);
    let p = chars_of(pat);
    stands_here(v.as_slice(), p.as_slice(), 0)
}

/// The parts of `s` between the places where `pat` stands, found from left to right.
pub open spec fn split_on(s: Seq<char>, pat: Seq<char>) -> Seq<Seq<char>>
    decreases s.len(),
    via split_on_shrinks
{
    let at = first_match(s, pat, 0);
    if pat.len() > 0 && at < s.len() {
        seq![s.take(at)] + split_on(s.skip(at + pat.len()), pat)
    } else {
        seq![s]
    }
}

#[via_fn]
proof fn split_on_shrinks(s: Seq<char>, pat: Seq<char>) {
    first_match_bounds(s, pat, 0);
}

/// Splitting loses no character but those of the separator.
pub proof fn split_keeps(s: Seq<char>, pat: Seq<char>, c: char)
    requires
        occurs(s, c),
        !occurs(pat, c),
    ensures
        exists|k: int| 0 <= k < split_on(s, pat).len() && occurs(#[trigger] split_on(s, pat)[k], c),
    decreases s.len(),
{
    let at = first_match(s, pat, 0);
    first_match_bounds(s, pat, 0);
    let parts = split_on(s, pat);
    if pat.len() > 0 && at < s.len() {
        let head = s.take(at);
        let tail = s.skip(at + pat.len());
        let i = choose|i: int| 0 <= i < s.len() && s[i] == c;
        assert(parts[0] == head);
        if i < at {
            assert(head[i] == c);
            assert(occurs(parts[0], c));
        } else if i < at + pat.len() {
            assert(s.subrange(at, at + pat.len())[i - at] == c);
            assert(occurs(pat, c));
        } else {
            assert(tail[i - at - pat.len()] == c);
            split_keeps(tail, pat, c);
            let k = choose|k: int|
                0 <= k < split_on(tail, pat).len() && occurs(#[trigger] split_on(tail, pat)[k], c);
            assert(parts[k + 1] == split_on(tail, pat)[k]);
        }
    } else {
        assert(parts[0] == s);
    }
}

/// The parts of `s` between the places where `pat` stands.
pub fn split(s: &[char], pat: &[char]) -> (r: Vec<Vec<char>>)
    requires
        pat@.len() > 0,
    ensures
        views(r@) == split_on(s@, pat@),
        r@.len() > 0,
{
    broadcast use views_push, views_empty;

    let mut out: Vec<Vec<char>> = Vec::new();
    let mut from: usize = 0;
    assert(s@.skip(0) =~= s@);
    assert(views(out@) + split_on(s@, pat@) =~= split_on(s@, pat@));
    loop
        invariant
            pat@.len() > 0,
            from <= s@.len(),
            views(out@) + split_on(s@.skip(from as int), pat@) == split_on(s@, pat@),
        decreases s@.len() - from,
    {
        let rest = part(s, from, s.len());
        assert(rest@ =~= s@.skip(from as int));
        let at = find(rest, pat, 0);
        proof {
            first_match_bounds(rest@, pat@, 0);
        }
        if at == rest.len() {
            let ghost before = views(out@);
            out.push(copy_of(rest));
            assert(views(out@) =~= before + split_on(rest@, pat@));
            return out;
        }
        let ghost before = views(out@);
        out.push(copy_of(part(rest, 0, at)));
        proof {
            assert(rest@.subrange(0, at as int) =~= rest@.take(at as int));
            assert(rest@.skip(at + pat@.len()) =~= s@.skip(from + at + pat@.len()));
            assert(before + split_on(rest@, pat@) =~= views(out@) + split_on(
                s@.skip(from + at + pat@.len()),
                pat@,
            ));
        }
        from = from + at + pat.len();
    }
}

// Numbers.

/// The digit that stands for `n`.
pub open spec fn digit(n: nat) -> char {
    (48 + n) as u8 as char
}

/// `n` in decimal.
pub open spec fn decimal(n: nat) -> Seq<char>
    decreases n,
{
    if n < 10 {
        seq![digit(n)]
    } else {
        decimal(n / 10).push(digit(n % 10))
    }
}

/// `n` in decimal.
pub fn decimal_chars(n: u128) -> (r: Vec<char>)
    ensures
        r@ == decimal(n as nat),
    decreases n,
{
    if n < 10 {
        let mut out: Vec<char> = Vec::new();
        out.push((48 + n as u8) as char);
        assert(out@ =~= decimal(n as nat));
        out
    } else {
        let mut out = decimal_chars(n / 10);
        out.push((48 + (n % 10) as u8) as char);
        out
    }
}

/// `n` in decimal.
pub fn decimal_text(n: u64) -> (r: String)
    ensures
        r@ == decimal(n as nat),
{
    string_of(decimal_chars(n as u128).as_slice())
}

/// Every character of `s` is a decimal digit.
pub open spec fn all_digits(s: Seq<char>) -> bool {
    forall|i: int| 0 <= i < s.len() ==> is_digit_spec(#[trigger] s[i])
}

/// What a run of decimal digits is worth.
pub open spec fn value(s: Seq<char>) -> nat
    decreases s.len(),
{
    if s.len() == 0 {
        0
    } else {
        value(s.drop_last()) * 10 + (s.last() as nat - 48) as nat
    }
}

pub proof fn value_grows(s: Seq<char>, i: int)
    requires
        0 <= i <= s.len(),
    ensures
        value(s.take(i)) <= value(s),
    decreases s.len() - i,
{
    if i < s.len() {
        value_grows(s, i + 1);
        assert(s.take(i + 1).drop_last() =~= s.take(i));
    } else {
        assert(s.take(i) =~= s);
    }
}

/// The number that a nonempty run of decimal digits writes, if it is at most `max`.
pub open spec fn number(s: Seq<char>, max: nat) -> Option<nat> {
    if s.len() > 0 && all_digits(s) && value(s) <= max {
        Some(value(s))
    } else {
        None
    }
}

/// The number that a nonempty run of decimal digits writes, if it is at most `max`.
pub fn parse_number(s: &[char], max: u64) -> (r: Option<u64>)
    ensures
        match r {
            Some(n) => number(s@, max as nat) == Some(n as nat),
            None => number(s@, max as nat) is None,
        },
{
    if s.len() == 0 {
        return None;
    }
    let mut n: u64 = 0;
    let mut i: usize = 0;
    while i < s.len()
        invariant
            i <= s@.len(),
            s@.len() > 0,
            n as nat == value(s@.take(i as int)),
            n <= max,
            forall|j: int| 0 <= j < i ==> is_digit_spec(#[trigger] s@[j]),
        decreases s@.len() - i,
    {
        if !is_digit(s[i]) {
            return None;
        }
        let d: u64 = s[i] as u64 - 48;
        proof {
            assert(s@.take(i as int + 1).drop_last() =~= s@.take(i as int));
            assert(value(s@.take(i as int + 1)) == n * 10 + d);
            value_grows(s@, i as int + 1);
        }
        if d > max || n > max / 10 || n * 10 > max - d {
            assert(n * 10 + d > max);
            return None;
        }
        n = n * 10 + d;
        i += 1;
    }
    assert(s@.take(i as int) =~= s@);
    Some(n)
}

/// A number reads back from its digits.
pub proof fn decimal_reads_back(n: nat)
    ensures
        value(decimal(n)) == n,
        all_digits(decimal(n)),
        decimal(n).len() > 0,
    decreases n,
{
    if n < 10 {
        assert(decimal(n).drop_last() =~= Seq::<char>::empty());
        assert(decimal(n).last() == digit(n));
        assert(value(decimal(n).drop_last()) == 0);
    } else {
        decimal_reads_back(n / 10);
        assert(decimal(n).drop_last() =~= decimal(n / 10));
        assert(decimal(n).last() == digit(n % 10));
        assert(n == (n / 10) * 10 + n % 10);
    }
}

/// The text `base`, or, from one on, `base` and a number.
pub open spec fn suffixed(base: Seq<char>, k: nat) -> Seq<char> {
    if k == 0 {
        base
    } else {
        base + "_"@ + decimal(k)
    }
}

proof fn suffixes_differ(base: Seq<char>, a: nat, b: nat)
    requires
        suffixed(base, a) == suffixed(base, b),
    ensures
        a == b,
{
    reveal_strlit("_");
    let n = base.len() as int;
    if a > 0 && b > 0 {
        assert(suffixed(base, a).skip(n + 1) =~= decimal(a));
        assert(suffixed(base, b).skip(n + 1) =~= decimal(b));
        decimal_reads_back(a);
        decimal_reads_back(b);
    } else if a > 0 {
        assert(suffixed(base, a).len() > n);
    } else if b > 0 {
        assert(suffixed(base, b).len() > n);
    }
}

/// The first number, from `k` on, whose suffix makes of `base` a text that is not in `taken`.
pub open spec fn free_suffix(taken: Seq<Seq<char>>, base: Seq<char>, k: nat) -> nat
    decreases taken.len() + 1 - k,
{
    if k <= taken.len() && taken.contains(suffixed(base, k)) {
        free_suffix(taken, base, k + 1)
    } else {
        k
    }
}

/// `base` with the first suffix that makes it new.
pub open spec fn fresh(taken: Seq<Seq<char>>, base: Seq<char>) -> Seq<char> {
    suffixed(base, free_suffix(taken, base, 0))
}

pub proof fn free_suffix_bounds(taken: Seq<Seq<char>>, base: Seq<char>, k: nat)
    requires
        k <= taken.len() + 1,
    ensures
        k <= free_suffix(taken, base, k) <= taken.len() + 1,
        forall|i: nat|
            k <= i < free_suffix(taken, base, k) ==> taken.contains(#[trigger] suffixed(base, i)),
        free_suffix(taken, base, k) <= taken.len() ==> !taken.contains(
            suffixed(base, free_suffix(taken, base, k)),
        ),
    decreases taken.len() + 1 - k,
{
    if k <= taken.len() && taken.contains(suffixed(base, k)) {
        free_suffix_bounds(taken, base, k + 1);
    }
}

/// A fresh text is not among the taken ones.
pub proof fn fresh_is_new(taken: Seq<Seq<char>>, base: Seq<char>)
    ensures
        !taken.contains(fresh(taken, base)),
        free_suffix(taken, base, 0) <= taken.len(),
{
    free_suffix_bounds(taken, base, 0);
    if free_suffix(taken, base, 0) > taken.len() {
        let tried = Seq::new((taken.len() + 1) as nat, |i: int| suffixed(base, i as nat));
        assert(tried.no_duplicates()) by {
            assert forall|i: int, j: int| 0 <= i < j < tried.len() implies tried[i] != tried[j] by {
                if tried[i] == tried[j] {
                    suffixes_differ(base, i as nat, j as nat);
                }
            }
        }
        tried.unique_seq_to_set();
        taken.lemma_cardinality_of_set();
        assert(tried.to_set().subset_of(taken.to_set())) by {
            assert forall|s: Seq<char>| tried.to_set().contains(s) implies taken.to_set().contains(
                s,
            ) by {
                let i = choose|i: int| 0 <= i < tried.len() && tried[i] == s;
                assert(taken.contains(suffixed(base, i as nat)));
            }
        }
        vstd::set_lib::lemma_len_subset(tried.to_set(), taken.to_set());
    }
}

/// Whether `s` is one of `v`.
pub fn is_among(v: &Vec<String>, s: &str) -> (r: bool)
    ensures
        r == views(v@).contains(s@),
{
    let mut i: usize = 0;
    while i < v.len()
        invariant
            i <= v@.len(),
            forall|j: int| 0 <= j < i ==> (#[trigger] v@[j])@ != s@,
        decreases v@.len() - i,
    {
        if same(v[i].as_str(), s) {
            assert(views(v@)[i as int] == s@);
            return true;
        }
        i += 1;
    }
    assert forall|j: int| 0 <= j < views(v@).len() implies views(v@)[j] != s@ by {
        assert(views(v@)[j] == v@[j]@);
    }
    false
}

/// Some texts, with a separator between two.
pub open spec fn joined_by(v: Seq<Seq<char>>, separator: Seq<char>) -> Seq<char>
    decreases v.len(),
{
    if v.len() == 0 {
        ""@
    } else if v.len() == 1 {
        v[0]
    } else {
        joined_by(v.drop_last(), separator) + separator + v.last()
    }
}

/// The first of some texts stands before the others.
pub proof fn joined_from_the_front(first: Seq<char>, rest: Seq<Seq<char>>, separator: Seq<char>)
    requires
        rest.len() > 0,
    ensures
        joined_by(seq![first] + rest, separator) == first + separator + joined_by(rest, separator),
    decreases rest.len(),
{
    let all = seq![first] + rest;
    if rest.len() == 1 {
        assert(all.drop_last() =~= seq![first]);
        assert(joined_by(seq![first], separator) == first);
        assert(all.last() == rest[0]);
    } else {
        joined_from_the_front(first, rest.drop_last(), separator);
        assert(all.drop_last() =~= seq![first] + rest.drop_last());
        assert(all.last() == rest.last());
        assert(joined_by(all, separator) =~= first + separator + joined_by(rest, separator));
    }
}

/// Some texts, with a separator between two.
pub fn join(v: &Vec<String>, separator: &str) -> (r: String)
    ensures
        r@ == joined_by(views(v@), separator@),
{
    let ghost all = views(v@);
    let mut out = "".to_owned();
    let mut i: usize = 0;
    assert(all.take(0) =~= Seq::<Seq<char>>::empty());
    while i < v.len()
        invariant
            i <= v@.len(),
            all == views(v@),
            out@ == joined_by(all.take(i as int), separator@),
        decreases v@.len() - i,
    {
        assert(all.take(i as int + 1).drop_last() =~= all.take(i as int));
        assert(all[i as int] == v@[i as int]@);
        if i == 0 {
            out = v[i].clone();
        } else {
            out = joined(joined(out.as_str(), separator).as_str(), v[i].as_str());
        }
        i += 1;
    }
    assert(all.take(i as int) =~= all);
    out
}

// Bytes.

/// The bytes of two texts are those of the one, then those of the other.
pub proof fn bytes_join(a: Seq<char>, b: Seq<char>)
    ensures
        encode_utf8(a + b) == encode_utf8(a) + encode_utf8(b),
    decreases a.len(),
{
    if a.len() == 0 {
        assert(a + b =~= b);
        assert(encode_utf8(a) + encode_utf8(b) =~= encode_utf8(b));
    } else {
        assert((a + b).drop_first() =~= a.drop_first() + b);
        bytes_join(a.drop_first(), b);
        assert(encode_utf8(a + b) =~= encode_utf8(a) + encode_utf8(b));
    }
}

/// Lower case takes as many bytes.
pub proof fn lowered_keeps_bytes(s: Seq<char>)
    ensures
        encode_utf8(lowered(s)).len() == encode_utf8(s).len(),
    decreases s.len(),
{
    if s.len() > 0 {
        assert(lowered(s).drop_first() =~= lowered(s.drop_first()));
        lowered_keeps_bytes(s.drop_first());
        let c = s[0];
        assert(lowered(s)[0] == lower_spec(c));
        assert(encode_scalar(lower_spec(c) as u32).len() == encode_scalar(c as u32).len());
    }
}

// What is done with texts.

/// A text is put in lower or in upper case letter by letter, and nothing but the letters of the
/// alphabet changes.
pub proof fn letters_have_two_cases(s: Seq<char>, i: int, k: int)
    requires
        0 <= i < s.len(),
        0 <= k < 26,
    ensures
        lowered(s).len() == s.len(),
        raised(s).len() == s.len(),
        s[i] == "ABCDEFGHIJKLMNOPQRSTUVWXYZ"@[k] ==> lowered(s)[i]
            == "abcdefghijklmnopqrstuvwxyz"@[k] && raised(s)[i] == s[i],
        s[i] == "abcdefghijklmnopqrstuvwxyz"@[k] ==> raised(s)[i]
            == "ABCDEFGHIJKLMNOPQRSTUVWXYZ"@[k] && lowered(s)[i] == s[i],
        !is_letter_spec(s[i]) ==> lowered(s)[i] == s[i] && raised(s)[i] == s[i],
        is_letter_spec(s[i]) <==> "ABCDEFGHIJKLMNOPQRSTUVWXYZ"@.contains(s[i])
            || "abcdefghijklmnopqrstuvwxyz"@.contains(s[i]),
{
    reveal_strlit("ABCDEFGHIJKLMNOPQRSTUVWXYZ");
    reveal_strlit("abcdefghijklmnopqrstuvwxyz");
    let large = "ABCDEFGHIJKLMNOPQRSTUVWXYZ"@;
    let small = "abcdefghijklmnopqrstuvwxyz"@;
    assert(forall|j: int| 0 <= j < 26 ==> #[trigger] large[j] as u8 == 65 + j && small[j] as u8 == 97
        + j);
    assert(forall|j: int| 0 <= j < 26 ==> 'A' <= #[trigger] large[j] <= 'Z');
    assert(forall|j: int| 0 <= j < 26 ==> 'a' <= #[trigger] small[j] <= 'z');
    if 'A' <= s[i] <= 'Z' {
        assert(large[s[i] as int - 65] == s[i]);
    }
    if 'a' <= s[i] <= 'z' {
        assert(small[s[i] as int - 97] == s[i]);
    }
}

/// Of two texts that begin alike, the one whose next character comes first comes first, and a text
/// comes before those that go on after it.
pub proof fn the_first_difference_tells(
    before: Seq<char>,
    a: char,
    b: char,
    x: Seq<char>,
    y: Seq<char>,
)
    ensures
        a != b ==> (ordered(before + seq![a] + x, before + seq![b] + y) <==> a < b),
        ordered(before, before + x),
        !ordered(before + seq![a] + x, before),
    decreases before.len(),
{
    let s = before + seq![a] + x;
    let t = before + seq![b] + y;
    if before.len() == 0 {
        assert(s[0] == a && t[0] == b);
    } else {
        the_first_difference_tells(before.skip(1), a, b, x, y);
        assert(s[0] == before[0] && t[0] == before[0] && (before + x)[0] == before[0]);
        assert(s.skip(1) =~= before.skip(1) + seq![a] + x);
        assert(t.skip(1) =~= before.skip(1) + seq![b] + y);
        assert((before + x).skip(1) =~= before.skip(1) + x);
    }
}

/// A text begins with another where it is that one with something after it, and ends in it where
/// something stands before it.
pub proof fn texts_begin_and_end(s: Seq<char>, pat: Seq<char>, other: Seq<char>)
    ensures
        begins(pat + other, pat),
        ends(other + pat, pat),
        begins(s, pat) ==> s == pat + s.skip(pat.len() as int),
        ends(s, pat) ==> s == s.take(s.len() - pat.len()) + pat,
{
    let n = pat.len() as int;
    assert((pat + other).subrange(0, n) =~= pat);
    assert((other + pat).subrange(other.len() as int, other.len() + n) =~= pat);
    if begins(s, pat) {
        assert(s =~= s.subrange(0, n) + s.skip(n));
    }
    if ends(s, pat) {
        assert(s =~= s.take(s.len() - n) + s.subrange(s.len() - n, s.len() as int));
    }
}

/// The parts of a text are what stands between its separators: none holds one, and with the
/// separator between each two they are the text again.
pub proof fn parts_stand_between_separators(s: Seq<char>, pat: Seq<char>)
    requires
        pat.len() > 0,
    ensures
        split_on(s, pat).len() > 0,
        joined_by(split_on(s, pat), pat) == s,
        forall|k: int|
            0 <= k < split_on(s, pat).len() ==> !has_text(#[trigger] split_on(s, pat)[k], pat),
    decreases s.len(),
{
    let at = first_match(s, pat, 0);
    first_match_bounds(s, pat, 0);
    let parts = split_on(s, pat);
    if at < s.len() {
        let head = s.take(at);
        let tail = s.skip(at + pat.len());
        parts_stand_between_separators(tail, pat);
        joined_from_the_front(head, split_on(tail, pat), pat);
        assert(s =~= head + s.subrange(at, at + pat.len()) + tail);
        assert forall|k: int| 0 <= k < parts.len() implies !has_text(#[trigger] parts[k], pat) by {
            if k > 0 {
                assert(parts[k] == split_on(tail, pat)[k - 1]);
            } else if has_text(head, pat) {
                let i = choose|i: int| #[trigger] stands_at(head, pat, i);
                assert(s.subrange(i, i + pat.len()) =~= head.subrange(i, i + pat.len()));
                assert(stands_at(s, pat, i));
            }
        }
    } else {
        if has_text(s, pat) {
            let i = choose|i: int| #[trigger] stands_at(s, pat, i);
            assert(i < s.len());
        }
    }
}

/// A fresh text is the one that was asked for where that is free, and otherwise that one with an
/// underscore and the first number, from one on, with which it is.
pub proof fn fresh_texts_are_numbered(taken: Seq<Seq<char>>, base: Seq<char>, k: nat)
    ensures
        !taken.contains(fresh(taken, base)),
        !taken.contains(base) ==> fresh(taken, base) == base,
        taken.contains(base) && k > 0 && !taken.contains(base + "_"@ + decimal(k)) && (forall|j: nat|
            0 < j < k ==> taken.contains(base + "_"@ + #[trigger] decimal(j))) ==> fresh(taken, base)
            == base + "_"@ + decimal(k),
{
    fresh_is_new(taken, base);
    free_suffix_bounds(taken, base, 0);
    let found = free_suffix(taken, base, 0);
    assert(suffixed(base, 0) == base);
    if !taken.contains(base) && found > 0 {
        assert(taken.contains(suffixed(base, 0)));
    }
    if taken.contains(base) && k > 0 && !taken.contains(base + "_"@ + decimal(k)) && (forall|j: nat|
        0 < j < k ==> taken.contains(base + "_"@ + #[trigger] decimal(j))) {
        if found > k {
            assert(taken.contains(suffixed(base, k)));
        }
        if 0 < found < k {
            assert(taken.contains(base + "_"@ + decimal(found)));
        }
    }
}

} // verus!
