//! Parenthesised expansion: `a(b,c)d` stands for `abd` and `acd`, `(1..5)` for the numbers from
//! one to five, and a run between two tildes stands for itself.

use vstd::prelude::*;

use crate::text::{
    all_digits, chars_of, copy_of, decimal, decimal_chars, decimal_reads_back, first_match,
    first_match_bounds, holds, is_digit, is_digit_spec, is_letter, is_letter_spec, joined,
    joined_by, joined_from_the_front, number, occurs, parse_number, part, split, split_keeps,
    split_on, stands_at, string_of, value, views, views_empty, views_push,
};

verus! {

/// The most values that one pattern expands to.
pub const MAX_EXPANSION: usize = 10_000;

/// How deep groups nest before a group is taken as plain text.
pub const MAX_DEPTH: usize = 32;

// Ranges.

/// `s` without its underscores.
pub open spec fn ungrouped(s: Seq<char>) -> Seq<char>
    decreases s.len(),
{
    if s.len() == 0 {
        s
    } else if s.last() == '_' {
        ungrouped(s.drop_last())
    } else {
        ungrouped(s.drop_last()).push(s.last())
    }
}

/// `s` without its tildes.
pub open spec fn untilded(s: Seq<char>) -> Seq<char>
    decreases s.len(),
{
    if s.len() == 0 {
        s
    } else if s.last() == '~' {
        untilded(s.drop_last())
    } else {
        untilded(s.drop_last()).push(s.last())
    }
}

/// What a range runs over.
pub enum RangeModel {
    /// From `lo` to `hi` by `step`, each written in at least `width` digits.
    Numeric { lo: nat, hi: nat, step: nat, width: nat },
    /// From one letter to another.
    Alpha { from: char, to: char },
}

pub open spec fn is_numeral(s: Seq<char>) -> bool {
    s.len() > 0 && forall|i: int| 0 <= i < s.len() ==> is_digit_spec(#[trigger] s[i]) || s[i] == '_'
}

/// The number that a numeral writes, underscores aside.
pub open spec fn numeral(s: Seq<char>) -> Option<nat> {
    number(ungrouped(s), i64::MAX as nat)
}

pub open spec fn is_padded(raw: Seq<char>) -> bool {
    ungrouped(raw).len() > 1 && ungrouped(raw)[0] == '0'
}

pub open spec fn wider(a: nat, b: nat) -> nat {
    if a >= b {
        a
    } else {
        b
    }
}

pub open spec fn one_letter(s: Seq<char>) -> bool {
    s.len() == 1 && is_letter_spec(s[0])
}

/// The range that `s` writes, if it writes one: two letters, or two numerals and an optional
/// positive step, with two dots between them.
pub open spec fn range_of(s: Seq<char>) -> Option<RangeModel> {
    let parts = split_on(s, seq!['.', '.']);
    if parts.len() == 2 && one_letter(parts[0]) && one_letter(parts[1]) {
        Some(RangeModel::Alpha { from: parts[0][0], to: parts[1][0] })
    } else if parts.len() != 2 && parts.len() != 3 {
        None
    } else if exists|i: int| 0 <= i < parts.len() && !is_numeral(#[trigger] parts[i]) {
        None
    } else {
        let step = if parts.len() == 3 {
            numeral(parts[2])
        } else {
            Some(1nat)
        };
        match (numeral(parts[0]), numeral(parts[1]), step) {
            (Some(lo), Some(hi), Some(step)) if step > 0 => Some(
                RangeModel::Numeric {
                    lo,
                    hi,
                    step,
                    width: if is_padded(parts[0]) {
                        wider(ungrouped(parts[0]).len(), ungrouped(parts[1]).len())
                    } else {
                        0
                    },
                },
            ),
            _ => None,
        }
    }
}

/// A range that is plain enough to be asked of a column: two numerals, neither zero-padded, in
/// steps of one.
pub open spec fn plain_range(s: Seq<char>) -> Option<(nat, nat)> {
    let parts = split_on(s, seq!['.', '.']);
    match range_of(s) {
        Some(RangeModel::Numeric { lo, hi, step, .. }) if step == 1 && !is_padded(parts[0])
            && !is_padded(parts[1]) => Some((lo, hi)),
        _ => None,
    }
}

enum Range {
    Numeric { lo: i64, hi: i64, step: i64, width: usize, plain: bool },
    Alpha { from: char, to: char },
}

impl Range {
    spec fn model(self) -> RangeModel {
        match self {
            Range::Numeric { lo, hi, step, width, .. } => RangeModel::Numeric {
                lo: lo as nat,
                hi: hi as nat,
                step: step as nat,
                width: width as nat,
            },
            Range::Alpha { from, to } => RangeModel::Alpha { from, to },
        }
    }
}

/// `s` without its underscores.
fn without_underscores(s: &[char]) -> (r: Vec<char>)
    ensures
        r@ == ungrouped(s@),
{
    let mut out: Vec<char> = Vec::new();
    let mut i: usize = 0;
    assert(s@.take(0) =~= Seq::<char>::empty());
    assert(out@ =~= ungrouped(s@.take(0)));
    while i < s.len()
        invariant
            i <= s@.len(),
            out@ == ungrouped(s@.take(i as int)),
        decreases s@.len() - i,
    {
        assert(s@.take(i as int + 1).drop_last() =~= s@.take(i as int));
        if s[i] != '_' {
            out.push(s[i]);
        }
        i += 1;
    }
    assert(s@.take(i as int) =~= s@);
    out
}

/// `s` without its tildes, as the one value it stands for.
fn expand_leaf(s: &[char]) -> (r: Vec<String>)
    ensures
        views(r@) == leaf(s@),
{
    broadcast use views_push, views_empty;

    let mut out: Vec<char> = Vec::new();
    let mut i: usize = 0;
    assert(s@.take(0) =~= Seq::<char>::empty());
    assert(out@ =~= untilded(s@.take(0)));
    while i < s.len()
        invariant
            i <= s@.len(),
            out@ == untilded(s@.take(i as int)),
        decreases s@.len() - i,
    {
        assert(s@.take(i as int + 1).drop_last() =~= s@.take(i as int));
        if s[i] != '~' {
            out.push(s[i]);
        }
        i += 1;
    }
    assert(s@.take(i as int) =~= s@);
    let mut all: Vec<String> = Vec::new();
    all.push(string_of(out.as_slice()));
    assert(views(all@) =~= leaf(s@));
    all
}

fn padded(raw: &[char]) -> (r: bool)
    ensures
        r == is_padded(raw@),
{
    let digits = without_underscores(raw);
    digits.len() > 1 && digits[0] == '0'
}

fn all_numeral(s: &[char]) -> (r: bool)
    ensures
        r == is_numeral(s@),
{
    let mut i: usize = 0;
    while i < s.len()
        invariant
            i <= s@.len(),
            forall|j: int| 0 <= j < i ==> is_digit_spec(#[trigger] s@[j]) || s@[j] == '_',
        decreases s@.len() - i,
    {
        if !is_digit(s[i]) && s[i] != '_' {
            return false;
        }
        i += 1;
    }
    s.len() > 0
}

fn single_letter(s: &[char]) -> (r: bool)
    ensures
        r == one_letter(s@),
{
    s.len() == 1 && is_letter(s[0])
}

fn parse_numeral(s: &[char]) -> (r: Option<i64>)
    ensures
        match r {
            Some(n) => n >= 0 && numeral(s@) == Some(n as nat),
            None => numeral(s@) is None,
        },
{
    match parse_number(without_underscores(s).as_slice(), i64::MAX as u64) {
        Some(n) => Some(n as i64),
        None => None,
    }
}

fn parse_range(s: &[char]) -> (r: Option<Range>)
    ensures
        match r {
            Some(range) => range_of(s@) == Some(range.model()) && (match range {
                Range::Numeric { lo, hi, step, plain, .. } => lo >= 0 && hi >= 0 && step > 0
                    && plain == (plain_range(s@) is Some),
                Range::Alpha { from, to } => is_letter_spec(from) && is_letter_spec(to),
            }),
            None => range_of(s@) is None,
        },
{
    let dots: [char; 2] = ['.', '.'];
    assert(dots@ =~= seq!['.', '.']);
    let parts = split(s, &dots);
    let ghost model = split_on(s@, seq!['.', '.']);
    assert(forall|i: int| 0 <= i < parts@.len() ==> #[trigger] model[i] == parts@[i]@);
    if parts.len() == 2 && single_letter(parts[0].as_slice()) && single_letter(
        parts[1].as_slice(),
    ) {
        return Some(Range::Alpha { from: parts[0][0], to: parts[1][0] });
    }
    if parts.len() != 2 && parts.len() != 3 {
        return None;
    }
    let mut i: usize = 0;
    while i < parts.len()
        invariant
            i <= parts@.len(),
            model == views(parts@),
            model == split_on(s@, seq!['.', '.']),
            parts@.len() == 2 || parts@.len() == 3,
            !(parts@.len() == 2 && one_letter(model[0]) && one_letter(model[1])),
            forall|j: int| 0 <= j < i ==> is_numeral(#[trigger] model[j]),
        decreases parts@.len() - i,
    {
        if !all_numeral(parts[i].as_slice()) {
            assert(!is_numeral(model[i as int]));
            return None;
        }
        i += 1;
    }
    let step: Option<i64> = if parts.len() == 3 {
        parse_numeral(parts[2].as_slice())
    } else {
        Some(1)
    };
    let lo = parse_numeral(parts[0].as_slice());
    let hi = parse_numeral(parts[1].as_slice());
    match (lo, hi, step) {
        (Some(lo), Some(hi), Some(step)) => {
            if step <= 0 {
                return None;
            }
            let first = padded(parts[0].as_slice());
            let second = padded(parts[1].as_slice());
            let a = without_underscores(parts[0].as_slice());
            let b = without_underscores(parts[1].as_slice());
            let width: usize = if first {
                if a.len() >= b.len() {
                    a.len()
                } else {
                    b.len()
                }
            } else {
                0
            };
            Some(Range::Numeric { lo, hi, step, width, plain: step == 1 && !first && !second })
        },
        _ => None,
    }
}

// Groups.

/// Position `i` of `s` lies between two tildes.
pub open spec fn quoted(s: Seq<char>, i: int) -> bool
    decreases i,
{
    if i <= 0 {
        false
    } else {
        quoted(s, i - 1) != (s[i - 1] == '~')
    }
}

/// How many groups are open just before position `i` of `s`.
pub open spec fn depth_at(s: Seq<char>, i: int) -> nat
    decreases i,
{
    if i <= 0 {
        0
    } else {
        let before = depth_at(s, i - 1);
        if quoted(s, i - 1) {
            before
        } else if s[i - 1] == '(' {
            before + 1
        } else if s[i - 1] == ')' && before > 0 {
            (before - 1) as nat
        } else {
            before
        }
    }
}

/// A group that lies in no other opens at `i`.
pub open spec fn opens(s: Seq<char>, i: int) -> bool {
    s[i] == '(' && !quoted(s, i) && depth_at(s, i) == 0
}

/// A group that lies in no other closes at `i`.
pub open spec fn closes(s: Seq<char>, i: int) -> bool {
    s[i] == ')' && !quoted(s, i) && depth_at(s, i) == 1
}

/// A comma that lies in no group stands at `i`.
pub open spec fn cuts(s: Seq<char>, i: int) -> bool {
    s[i] == ',' && !quoted(s, i) && depth_at(s, i) == 0
}

pub open spec fn next_open(s: Seq<char>, from: int) -> int
    decreases s.len() - from,
{
    if from >= s.len() {
        s.len() as int
    } else if opens(s, from) {
        from
    } else {
        next_open(s, from + 1)
    }
}

pub open spec fn next_close(s: Seq<char>, from: int) -> int
    decreases s.len() - from,
{
    if from >= s.len() {
        s.len() as int
    } else if closes(s, from) {
        from
    } else {
        next_close(s, from + 1)
    }
}

pub open spec fn next_cut(s: Seq<char>, from: int) -> int
    decreases s.len() - from,
{
    if from >= s.len() {
        s.len() as int
    } else if cuts(s, from) {
        from
    } else {
        next_cut(s, from + 1)
    }
}

/// The first group of `s`: where it opens and where it closes.
pub open spec fn group_of(s: Seq<char>) -> Option<(int, int)> {
    if next_close(s, 0) < s.len() {
        Some((next_open(s, 0), next_close(s, 0)))
    } else {
        None
    }
}

/// The parts of `s` between the commas that lie in no group, from `from` on.
pub open spec fn parts_from(s: Seq<char>, from: int) -> Seq<Seq<char>>
    decreases s.len() - from,
    via parts_from_shrinks
{
    if from < 0 || from > s.len() {
        Seq::empty()
    } else {
        let at = next_cut(s, from);
        if at < s.len() {
            seq![s.subrange(from, at)] + parts_from(s, at + 1)
        } else {
            seq![s.skip(from)]
        }
    }
}

#[via_fn]
proof fn parts_from_shrinks(s: Seq<char>, from: int) {
    if 0 <= from <= s.len() {
        next_cut_bounds(s, from);
    }
}

pub proof fn next_cut_bounds(s: Seq<char>, from: int)
    requires
        0 <= from <= s.len(),
    ensures
        from <= next_cut(s, from) <= s.len(),
        next_cut(s, from) < s.len() ==> cuts(s, next_cut(s, from)),
        forall|j: int| from <= j < next_cut(s, from) ==> !#[trigger] cuts(s, j),
    decreases s.len() - from,
{
    if from < s.len() && !cuts(s, from) {
        next_cut_bounds(s, from + 1);
    }
}

pub proof fn next_open_bounds(s: Seq<char>, from: int)
    requires
        0 <= from <= s.len(),
    ensures
        from <= next_open(s, from) <= s.len(),
        next_open(s, from) < s.len() ==> opens(s, next_open(s, from)),
        forall|j: int| from <= j < next_open(s, from) ==> !#[trigger] opens(s, j),
    decreases s.len() - from,
{
    if from < s.len() && !opens(s, from) {
        next_open_bounds(s, from + 1);
    }
}

pub proof fn next_close_bounds(s: Seq<char>, from: int)
    requires
        0 <= from <= s.len(),
    ensures
        from <= next_close(s, from) <= s.len(),
        next_close(s, from) < s.len() ==> closes(s, next_close(s, from)),
        forall|j: int| from <= j < next_close(s, from) ==> !#[trigger] closes(s, j),
    decreases s.len() - from,
{
    if from < s.len() && !closes(s, from) {
        next_close_bounds(s, from + 1);
    }
}

/// No group is open before the first one opens.
proof fn no_group_before(s: Seq<char>, i: int)
    requires
        0 <= i <= next_open(s, 0),
    ensures
        depth_at(s, i) == 0,
    decreases i,
{
    next_open_bounds(s, 0);
    if i > 0 {
        no_group_before(s, i - 1);
        assert(!opens(s, i - 1));
    }
}

/// The first group opens before it closes.
pub proof fn group_bounds(s: Seq<char>)
    ensures
        group_of(s) matches Some((open, close)) ==> 0 <= open < close < s.len(),
{
    next_open_bounds(s, 0);
    next_close_bounds(s, 0);
    let close = next_close(s, 0);
    if close < s.len() && close <= next_open(s, 0) {
        no_group_before(s, close);
    }
}

fn find_group(s: &[char]) -> (r: Option<(usize, usize)>)
    ensures
        match r {
            Some((open, close)) => open < close < s@.len() && group_of(s@) == Some(
                (open as int, close as int),
            ),
            None => group_of(s@) is None,
        },
{
    let mut depth: usize = 0;
    let mut in_tilde = false;
    let mut open: usize = 0;
    let mut opened = false;
    let mut at: usize = 0;
    while at < s.len()
        invariant
            at <= s@.len(),
            depth <= at,
            depth as nat == depth_at(s@, at as int),
            in_tilde == quoted(s@, at as int),
            next_close(s@, 0) == next_close(s@, at as int),
            !opened ==> depth == 0 && next_open(s@, 0) == next_open(s@, at as int),
            opened ==> depth > 0 && open as int == next_open(s@, 0),
            open <= at,
        decreases s@.len() - at,
    {
        let c = s[at];
        if c == '~' {
            in_tilde = !in_tilde;
        } else if c == '(' && !in_tilde {
            if depth == 0 {
                open = at;
                opened = true;
            }
            depth += 1;
        } else if c == ')' && !in_tilde && depth > 0 {
            depth -= 1;
            if depth == 0 {
                proof {
                    group_bounds(s@);
                }
                return Some((open, at));
            }
        }
        at += 1;
    }
    None
}

/// A text that begins where no group is open and no tilde is, and ends before the next cut, is read
/// by itself as it is read there.
proof fn reads_alike(s: Seq<char>, from: int, to: int, i: int)
    requires
        0 <= from <= to <= s.len(),
        !quoted(s, from),
        depth_at(s, from) == 0,
        0 <= i <= to - from,
    ensures
        quoted(s.subrange(from, to), i) == quoted(s, from + i),
        depth_at(s.subrange(from, to), i) == depth_at(s, from + i),
    decreases i,
{
    if i > 0 {
        reads_alike(s, from, to, i - 1);
        assert(s.subrange(from, to)[i - 1] == s[from + i - 1]);
    }
}

proof fn never_cut(t: Seq<char>, from: int)
    requires
        0 <= from <= t.len(),
        forall|i: int| from <= i < t.len() ==> !#[trigger] cuts(t, i),
    ensures
        next_cut(t, from) == t.len(),
    decreases t.len() - from,
{
    if from < t.len() {
        assert(!cuts(t, from));
        never_cut(t, from + 1);
    }
}

proof fn parts_make_the_rest(s: Seq<char>, from: int)
    requires
        0 <= from <= s.len(),
        !quoted(s, from),
        depth_at(s, from) == 0,
    ensures
        parts_from(s, from).len() >= 1,
        joined_by(parts_from(s, from), seq![',']) == s.skip(from),
        forall|k: int|
            0 <= k < parts_from(s, from).len() ==> parts_from(
                #[trigger] parts_from(s, from)[k],
                0,
            ) == seq![parts_from(s, from)[k]],
    decreases s.len() - from,
{
    next_cut_bounds(s, from);
    let at = next_cut(s, from);
    let t = s.subrange(from, at);
    let parts = parts_from(s, from);
    assert forall|i: int| 0 <= i < t.len() implies !#[trigger] cuts(t, i) by {
        reads_alike(s, from, at, i);
        assert(!cuts(s, from + i));
    }
    never_cut(t, 0);
    assert(t.skip(0) =~= t);
    assert(parts_from(t, 0) == seq![t]);
    if at < s.len() {
        let rest = parts_from(s, at + 1);
        parts_make_the_rest(s, at + 1);
        joined_from_the_front(t, rest, seq![',']);
        assert(t + seq![','] + s.skip(at + 1) =~= s.skip(from));
        assert forall|k: int| 0 <= k < parts.len() implies parts_from(#[trigger] parts[k], 0)
            == seq![parts[k]] by {
            if k > 0 {
                assert(parts[k] == rest[k - 1]);
            }
        }
    } else {
        assert(t =~= s.skip(from));
    }
}

/// A text is cut at the commas that lie in no group and between no tildes, and at no other: its
/// parts with commas between them are the text, and none of them is cut again.
pub proof fn parts_make_the_text(s: Seq<char>)
    ensures
        parts_from(s, 0).len() >= 1,
        joined_by(parts_from(s, 0), seq![',']) == s,
        forall|k: int|
            0 <= k < parts_from(s, 0).len() ==> parts_from(#[trigger] parts_from(s, 0)[k], 0)
                == seq![parts_from(s, 0)[k]],
{
    parts_make_the_rest(s, 0);
    assert(s.skip(0) =~= s);
}

/// The parts of a text between the commas that lie in no group and between no tildes. With commas
/// between them they are the text, and none of them is cut again.
pub fn split_top_level(s: &[char]) -> (r: Vec<Vec<char>>)
    ensures
        views(r@) == parts_from(s@, 0),
        r@.len() > 0,
        joined_by(views(r@), seq![',']) == s@,
        forall|k: int|
            0 <= k < r@.len() ==> parts_from(#[trigger] views(r@)[k], 0) == seq![views(r@)[k]],
{
    broadcast use views_push, views_empty;

    let mut parts: Vec<Vec<char>> = Vec::new();
    let mut depth: usize = 0;
    let mut in_tilde = false;
    let mut from: usize = 0;
    let mut at: usize = 0;
    assert(views(parts@) + parts_from(s@, 0) =~= parts_from(s@, 0));
    while at < s.len()
        invariant
            from <= at <= s@.len(),
            depth <= at,
            depth as nat == depth_at(s@, at as int),
            in_tilde == quoted(s@, at as int),
            next_cut(s@, from as int) == next_cut(s@, at as int),
            views(parts@) + parts_from(s@, from as int) == parts_from(s@, 0),
        decreases s@.len() - at,
    {
        let c = s[at];
        if c == '~' {
            in_tilde = !in_tilde;
        } else if c == '(' && !in_tilde {
            depth += 1;
        } else if c == ')' && !in_tilde {
            if depth > 0 {
                depth -= 1;
            }
        } else if c == ',' && depth == 0 && !in_tilde {
            let ghost before = views(parts@);
            parts.push(copy_of(part(s, from, at)));
            proof {
                next_cut_bounds(s@, from as int);
                assert(next_cut(s@, from as int) == at);
                assert(before + parts_from(s@, from as int) =~= views(parts@) + parts_from(
                    s@,
                    at + 1,
                ));
            }
            from = at + 1;
        }
        at += 1;
    }
    let ghost before = views(parts@);
    parts.push(copy_of(part(s, from, s.len())));
    assert(s@.subrange(from as int, s@.len() as int) =~= s@.skip(from as int));
    assert(views(parts@) =~= before + parts_from(s@, from as int));
    proof {
        parts_make_the_text(s@);
    }
    parts
}

// Expansion.

/// The one value that plain text stands for.
pub open spec fn leaf(s: Seq<char>) -> Seq<Seq<char>> {
    seq![untilded(s)]
}

pub open spec fn least(a: nat, b: nat) -> nat {
    if a <= b {
        a
    } else {
        b
    }
}

pub open spec fn distance(a: nat, b: nat) -> nat {
    if a <= b {
        (b - a) as nat
    } else {
        (a - b) as nat
    }
}

/// `i` steps from `from` towards `to`.
pub open spec fn toward(from: nat, to: nat, step: nat, i: int) -> int {
    if from <= to {
        from + i * step
    } else {
        from - i * step
    }
}

/// `n` in decimal, with zeros before it up to `width` digits.
pub open spec fn zero_padded(n: nat, width: nat) -> Seq<char> {
    let short = if decimal(n).len() < width {
        (width - decimal(n).len()) as nat
    } else {
        0
    };
    Seq::new(short, |i: int| '0') + decimal(n)
}

/// How many values a range has.
pub open spec fn range_size(range: RangeModel) -> nat {
    match range {
        RangeModel::Numeric { lo, hi, step, .. } => distance(lo, hi) / step + 1,
        RangeModel::Alpha { from, to } => distance(from as nat, to as nat) + 1,
    }
}

/// The value of a range at place `i`.
pub open spec fn range_value(range: RangeModel, i: int) -> Seq<char> {
    match range {
        RangeModel::Numeric { lo, hi, step, width } => zero_padded(
            toward(lo, hi, step, i) as nat,
            width,
        ),
        RangeModel::Alpha { from, to } => seq![
            toward(from as nat, to as nat, 1, i) as u8 as char,
        ],
    }
}

/// The values that text outside any group stands for: those of the range that it writes, at most
/// `MAX_EXPANSION`, or the text itself.
pub open spec fn literal(s: Seq<char>) -> Seq<Seq<char>> {
    match range_of(s) {
        Some(range) => Seq::new(
            least(range_size(range), MAX_EXPANSION as nat),
            |i: int| range_value(range, i),
        ),
        None => leaf(s),
    }
}

pub open spec fn nothing() -> Seq<Seq<char>> {
    seq![Seq::<char>::empty()]
}

/// Each value of `left` followed by each value of `right`, at most `MAX_EXPANSION` of them.
pub open spec fn crossed(left: Seq<Seq<char>>, right: Seq<Seq<char>>) -> Seq<Seq<char>> {
    if left == nothing() {
        right
    } else if right == nothing() {
        left
    } else {
        Seq::new(
            least(left.len() * right.len(), MAX_EXPANSION as nat),
            |k: int| left[k / right.len() as int] + right[k % right.len() as int],
        )
    }
}

/// The values of `s`, which lies in `depth` groups. Text outside any group of `s` may write a
/// range where `ranged` says so.
pub open spec fn expanded(s: Seq<char>, ranged: bool, depth: nat) -> Seq<Seq<char>>
    decreases MAX_DEPTH - depth, 2nat, 0nat,
{
    if depth >= MAX_DEPTH {
        leaf(s)
    } else {
        chained(nothing(), s, ranged, depth)
    }
}

/// The values `done`, each followed by each value of `rest`.
pub open spec fn chained(
    done: Seq<Seq<char>>,
    rest: Seq<char>,
    ranged: bool,
    depth: nat,
) -> Seq<Seq<char>>
    decreases MAX_DEPTH - depth, 1nat, rest.len(),
    via chained_shrinks
{
    if depth >= MAX_DEPTH {
        Seq::empty()
    } else {
        match group_of(rest) {
            None => crossed(
                done,
                if ranged {
                    literal(rest)
                } else {
                    leaf(rest)
                },
            ),
            Some((open, close)) => {
                let parts = parts_from(rest.subrange(open + 1, close), 0);
                chained(
                    crossed(
                        crossed(done, literal(rest.take(open))),
                        gathered(Seq::empty(), parts, parts.len() == 1, depth + 1),
                    ),
                    rest.skip(close + 1),
                    true,
                    depth,
                )
            },
        }
    }
}

/// The values `group`, then those of each of `parts`, until there are `MAX_EXPANSION` or more.
pub open spec fn gathered(
    group: Seq<Seq<char>>,
    parts: Seq<Seq<char>>,
    ranged: bool,
    depth: nat,
) -> Seq<Seq<char>>
    decreases MAX_DEPTH - depth, 3nat, parts.len(),
{
    if parts.len() == 0 || group.len() >= MAX_EXPANSION {
        group
    } else {
        gathered(group + expanded(parts[0], ranged, depth), parts.skip(1), ranged, depth)
    }
}

#[via_fn]
proof fn chained_shrinks(done: Seq<Seq<char>>, rest: Seq<char>, ranged: bool, depth: nat) {
    group_bounds(rest);
}

/// The values that a pattern stands for.
pub open spec fn expansion(pattern: Seq<char>) -> Seq<Seq<char>> {
    let all = expanded(pattern, true, 0);
    all.take(least(all.len(), MAX_EXPANSION as nat) as int)
}

fn zero_padded_text(n: u64, width: usize) -> (r: String)
    ensures
        r@ == zero_padded(n as nat, width as nat),
{
    let digits = decimal_chars(n as u128);
    let mut out: Vec<char> = Vec::new();
    if digits.len() < width {
        let pad: usize = width - digits.len();
        while out.len() < pad
            invariant
                out@.len() <= pad,
                forall|i: int| 0 <= i < out@.len() ==> out@[i] == '0',
            decreases pad - out@.len(),
        {
            out.push('0');
        }
    }
    let ghost zeros = out@;
    let mut i: usize = 0;
    while i < digits.len()
        invariant
            i <= digits@.len(),
            out@ == zeros + digits@.take(i as int),
        decreases digits@.len() - i,
    {
        out.push(digits[i]);
        i += 1;
        assert(zeros + digits@.take(i as int) =~= (zeros + digits@.take(i as int - 1)).push(
            digits@[i as int - 1],
        ));
    }
    assert(out@ =~= zero_padded(n as nat, width as nat));
    string_of(out.as_slice())
}

proof fn one_step_more(lo: nat, hi: nat, step: nat, i: int)
    requires
        step > 0,
        i >= 0,
    ensures
        toward(lo, hi, step, i + 1) == if lo <= hi {
            toward(lo, hi, step, i) + step
        } else {
            toward(lo, hi, step, i) - step
        },
        (i <= distance(lo, hi) / step) == (i * step <= distance(lo, hi)),
{
    let d = distance(lo, hi) as int;
    let q = d / step as int;
    assert((i + 1) * step == i * step + step) by (nonlinear_arith);
    vstd::arithmetic::div_mod::lemma_fundamental_div_mod(d, step as int);
    vstd::arithmetic::div_mod::lemma_mod_bound(d, step as int);
    if i <= q {
        assert(i * step <= q * step) by (nonlinear_arith)
            requires
                i <= q,
                step > 0,
        ;
        assert(step as int * q == q * step) by (nonlinear_arith);
    } else {
        assert(i * step >= (q + 1) * step) by (nonlinear_arith)
            requires
                i >= q + 1,
                step > 0,
        ;
        assert((q + 1) * step == q * step + step) by (nonlinear_arith);
        assert(step as int * q == q * step) by (nonlinear_arith);
    }
}

fn expand_numeric(lo: i64, hi: i64, step: i64, width: usize) -> (r: Vec<String>)
    requires
        lo >= 0,
        hi >= 0,
        step > 0,
    ensures
        ({
            let range = RangeModel::Numeric {
                lo: lo as nat,
                hi: hi as nat,
                step: step as nat,
                width: width as nat,
            };
            views(r@) == Seq::new(
                least(range_size(range), MAX_EXPANSION as nat),
                |i: int| range_value(range, i),
            )
        }),
{
    broadcast use views_push, views_empty;

    let ghost range = RangeModel::Numeric {
        lo: lo as nat,
        hi: hi as nat,
        step: step as nat,
        width: width as nat,
    };
    let mut out: Vec<String> = Vec::new();
    let mut n: i64 = lo;
    let mut more = true;
    assert(0 * step == 0);
    while more && ((lo <= hi && n <= hi) || (lo > hi && n >= hi)) && out.len() < MAX_EXPANSION
        invariant
            lo >= 0,
            hi >= 0,
            step > 0,
            range == (RangeModel::Numeric {
                lo: lo as nat,
                hi: hi as nat,
                step: step as nat,
                width: width as nat,
            }),
            out@.len() <= MAX_EXPANSION,
            out@.len() <= range_size(range),
            more ==> n == toward(lo as nat, hi as nat, step as nat, out@.len() as int),
            !more ==> out@.len() == range_size(range),
            forall|i: int|
                0 <= i < out@.len() ==> #[trigger] out@[i]@ == range_value(range, i),
        decreases MAX_EXPANSION - out@.len(),
    {
        proof {
            one_step_more(lo as nat, hi as nat, step as nat, out@.len() as int);
            one_step_more(lo as nat, hi as nat, step as nat, out@.len() as int + 1);
        }
        out.push(zero_padded_text(n as u64, width));
        let next = if lo <= hi {
            n.checked_add(step)
        } else {
            n.checked_sub(step)
        };
        match next {
            Some(next) => {
                n = next;
            },
            None => {
                more = false;
            },
        }
    }
    proof {
        one_step_more(lo as nat, hi as nat, step as nat, out@.len() as int);
    }
    assert(views(out@) =~= Seq::new(
        least(range_size(range), MAX_EXPANSION as nat),
        |i: int| range_value(range, i),
    ));
    out
}

fn expand_alpha(from: char, to: char) -> (r: Vec<String>)
    requires
        is_letter_spec(from),
        is_letter_spec(to),
    ensures
        views(r@) == Seq::new(
            range_size(RangeModel::Alpha { from, to }),
            |i: int| range_value(RangeModel::Alpha { from, to }, i),
        ),
{
    let a: u8 = from as u8;
    let b: u8 = to as u8;
    let size: u8 = if a <= b {
        b - a
    } else {
        a - b
    };
    let mut out: Vec<String> = Vec::new();
    let mut i: u8 = 0;
    while i <= size
        invariant
            is_letter_spec(from),
            is_letter_spec(to),
            a == from as u8,
            b == to as u8,
            size as nat == distance(from as nat, to as nat),
            size < 128,
            i <= size + 1,
            out@.len() == i,
            forall|j: int|
                0 <= j < i ==> #[trigger] out@[j]@ == range_value(
                    RangeModel::Alpha { from, to },
                    j,
                ),
        decreases size + 1 - i,
    {
        let c: u8 = if a <= b {
            a + i
        } else {
            a - i
        };
        let mut one = String::new();
        one.push(c as char);
        assert(one@ =~= range_value(RangeModel::Alpha { from, to }, i as int));
        out.push(one);
        i += 1;
    }
    assert(views(out@) =~= Seq::new(
        range_size(RangeModel::Alpha { from, to }),
        |i: int| range_value(RangeModel::Alpha { from, to }, i),
    ));
    out
}

fn expand_literal(s: &[char]) -> (r: Vec<String>)
    ensures
        views(r@) == literal(s@),
{
    match parse_range(s) {
        Some(Range::Numeric { lo, hi, step, width, .. }) => expand_numeric(lo, hi, step, width),
        Some(Range::Alpha { from, to }) => expand_alpha(from, to),
        None => expand_leaf(s),
    }
}

fn is_nothing(v: &Vec<String>) -> (r: bool)
    ensures
        r == (views(v@) == nothing()),
{
    if v.len() == 1 && v[0].as_str().is_empty() {
        assert(v@[0]@ =~= Seq::<char>::empty());
        assert(views(v@) =~= nothing());
        true
    } else {
        proof {
            if views(v@) == nothing() {
                assert(views(v@).len() == 1);
                assert(views(v@)[0] == Seq::<char>::empty());
            }
        }
        false
    }
}

fn cross(left: Vec<String>, right: Vec<String>) -> (r: Vec<String>)
    ensures
        views(r@) == crossed(views(left@), views(right@)),
{
    broadcast use views_push, views_empty;

    if is_nothing(&left) {
        return right;
    }
    if is_nothing(&right) {
        return left;
    }
    let ghost l = views(left@);
    let ghost r = views(right@);
    let ghost n = r.len() as int;
    let mut out: Vec<String> = Vec::new();
    let mut i: usize = 0;
    while i < left.len() && out.len() < MAX_EXPANSION
        invariant
            l == views(left@),
            r == views(right@),
            n == r.len(),
            i <= left@.len(),
            out@.len() <= MAX_EXPANSION,
            out@.len() <= l.len() * n,
            out@.len() == MAX_EXPANSION || out@.len() == i * n,
            forall|k: int|
                0 <= k < out@.len() ==> #[trigger] out@[k]@ == l[k / n] + r[k % n],
        decreases left@.len() - i,
    {
        let mut j: usize = 0;
        assert(i * n + n <= l.len() * n) by (nonlinear_arith)
            requires
                0 <= i < l.len(),
                n >= 0,
        ;
        while j < right.len() && out.len() < MAX_EXPANSION
            invariant
                l == views(left@),
                r == views(right@),
                n == r.len(),
                i < left@.len(),
                j <= right@.len(),
                i * n + n <= l.len() * n,
                out@.len() <= MAX_EXPANSION,
                out@.len() == i * n + j,
                forall|k: int|
                    0 <= k < out@.len() ==> #[trigger] out@[k]@ == l[k / n] + r[k % n],
            decreases right@.len() - j,
        {
            proof {
                vstd::arithmetic::div_mod::lemma_fundamental_div_mod_converse(
                    i * n + j,
                    n,
                    i as int,
                    j as int,
                );
            }
            out.push(joined(left[i].as_str(), right[j].as_str()));
            j += 1;
        }
        i += 1;
        assert(i * n == (i - 1) * n + n) by (nonlinear_arith);
    }
    assert(views(out@) =~= crossed(l, r));
    out
}

fn expand_inner(s: &[char], allow_range: bool, depth: usize) -> (r: Vec<String>)
    requires
        depth <= MAX_DEPTH,
    ensures
        views(r@) == expanded(s@, allow_range, depth as nat),
    decreases MAX_DEPTH - depth,
{
    broadcast use views_push, views_empty;

    if depth >= MAX_DEPTH {
        return expand_leaf(s);
    }
    let mut done: Vec<String> = Vec::new();
    done.push(String::new());
    assert(views(done@) =~= nothing());
    let mut from: usize = 0;
    let mut ranged = allow_range;
    assert(s@.skip(0) =~= s@);
    loop
        invariant
            depth < MAX_DEPTH,
            from <= s@.len(),
            chained(views(done@), s@.skip(from as int), ranged, depth as nat) == expanded(
                s@,
                allow_range,
                depth as nat,
            ),
        decreases s@.len() - from,
    {
        let rest = part(s, from, s.len());
        assert(rest@ =~= s@.skip(from as int));
        match find_group(rest) {
            None => {
                let tail = if ranged {
                    expand_literal(rest)
                } else {
                    expand_leaf(rest)
                };
                return cross(done, tail);
            },
            Some((open, close)) => {
                let inside = part(rest, open + 1, close);
                let parts = split_top_level(inside);
                let allow_child = parts.len() == 1;
                let mut group: Vec<String> = Vec::new();
                let mut i: usize = 0;
                assert(views(parts@).skip(0) =~= views(parts@));
                while i < parts.len() && group.len() < MAX_EXPANSION
                    invariant
                        depth < MAX_DEPTH,
                        i <= parts@.len(),
                        gathered(
                            views(group@),
                            views(parts@).skip(i as int),
                            allow_child,
                            depth as nat + 1,
                        ) == gathered(
                            Seq::empty(),
                            views(parts@),
                            allow_child,
                            depth as nat + 1,
                        ),
                    decreases parts@.len() - i,
                {
                    let ghost before = group@;
                    let mut more = expand_inner(parts[i].as_slice(), allow_child, depth + 1);
                    let ghost added = more@;
                    group.append(&mut more);
                    proof {
                        assert(views(group@) =~= views(before) + views(added));
                        assert(views(parts@).skip(i as int).skip(1) =~= views(parts@).skip(
                            i as int + 1,
                        ));
                    }
                    i += 1;
                }
                let head = expand_literal(part(rest, 0, open));
                assert(rest@.subrange(0, open as int) =~= rest@.take(open as int));
                done = cross(cross(done, head), group);
                assert(rest@.skip(close as int + 1) =~= s@.skip(from + close + 1));
                from = from + close + 1;
                ranged = true;
            },
        }
    }
}

/// The values that a pattern stands for, at most `MAX_EXPANSION` of them.
pub fn expand(pattern: &str) -> (r: Vec<String>)
    ensures
        views(r@) == expansion(pattern@),
{
    let chars = chars_of(pattern);
    let mut out = expand_inner(chars.as_slice(), true, 0);
    let ghost all = out@;
    out.truncate(MAX_EXPANSION);
    assert(views(out@) =~= expansion(pattern@));
    out
}

// Counting.

pub open spec fn capped(n: nat) -> nat {
    least(n, usize::MAX as nat)
}

/// How many values text outside any group stands for.
pub open spec fn literal_count(s: Seq<char>) -> nat {
    match range_of(s) {
        Some(range) => capped(range_size(range)),
        None => 1,
    }
}

/// How many values `s` stands for, `usize::MAX` standing for any larger number.
pub open spec fn counted(s: Seq<char>, ranged: bool, depth: nat) -> nat
    decreases MAX_DEPTH - depth, 2nat, 0nat,
{
    if depth >= MAX_DEPTH {
        1
    } else {
        multiplied(1, s, ranged, depth)
    }
}

/// `total` times the number of values of `rest`.
pub open spec fn multiplied(total: nat, rest: Seq<char>, ranged: bool, depth: nat) -> nat
    decreases MAX_DEPTH - depth, 1nat, rest.len(),
    via multiplied_shrinks
{
    if depth >= MAX_DEPTH {
        0
    } else {
        match group_of(rest) {
            None => capped(
                total * (if ranged {
                    literal_count(rest)
                } else {
                    1
                }),
            ),
            Some((open, close)) => {
                let parts = parts_from(rest.subrange(open + 1, close), 0);
                multiplied(
                    capped(
                        capped(total * literal_count(rest.take(open))) * summed(
                            0,
                            parts,
                            parts.len() == 1,
                            depth + 1,
                        ),
                    ),
                    rest.skip(close + 1),
                    true,
                    depth,
                )
            },
        }
    }
}

/// `sum` and the numbers of values of each of `parts`.
pub open spec fn summed(sum: nat, parts: Seq<Seq<char>>, ranged: bool, depth: nat) -> nat
    decreases MAX_DEPTH - depth, 3nat, parts.len(),
{
    if parts.len() == 0 {
        sum
    } else {
        summed(capped(sum + counted(parts[0], ranged, depth)), parts.skip(1), ranged, depth)
    }
}

#[via_fn]
proof fn multiplied_shrinks(total: nat, rest: Seq<char>, ranged: bool, depth: nat) {
    group_bounds(rest);
}

fn capped_product(a: usize, b: usize) -> (r: usize)
    ensures
        r as nat == capped(a as nat * b as nat),
{
    match a.checked_mul(b) {
        Some(n) => n,
        None => usize::MAX,
    }
}

fn count_literal(s: &[char]) -> (r: usize)
    ensures
        r as nat == literal_count(s@),
{
    match parse_range(s) {
        Some(Range::Numeric { lo, hi, step, .. }) => {
            let apart: u64 = if lo <= hi {
                (hi - lo) as u64
            } else {
                (lo - hi) as u64
            };
            let steps: u64 = apart / step as u64;
            if steps >= usize::MAX as u64 {
                usize::MAX
            } else {
                steps as usize + 1
            }
        },
        Some(Range::Alpha { from, to }) => {
            let a: u8 = from as u8;
            let b: u8 = to as u8;
            if a <= b {
                (b - a) as usize + 1
            } else {
                (a - b) as usize + 1
            }
        },
        None => 1,
    }
}

fn count_inner(s: &[char], allow_range: bool, depth: usize) -> (r: usize)
    requires
        depth <= MAX_DEPTH,
    ensures
        r as nat == counted(s@, allow_range, depth as nat),
    decreases MAX_DEPTH - depth,
{
    if depth >= MAX_DEPTH {
        return 1;
    }
    let mut total: usize = 1;
    let mut from: usize = 0;
    let mut ranged = allow_range;
    assert(s@.skip(0) =~= s@);
    loop
        invariant
            depth < MAX_DEPTH,
            from <= s@.len(),
            multiplied(total as nat, s@.skip(from as int), ranged, depth as nat) == counted(
                s@,
                allow_range,
                depth as nat,
            ),
        decreases s@.len() - from,
    {
        let rest = part(s, from, s.len());
        assert(rest@ =~= s@.skip(from as int));
        match find_group(rest) {
            None => {
                let tail: usize = if ranged {
                    count_literal(rest)
                } else {
                    1
                };
                return capped_product(total, tail);
            },
            Some((open, close)) => {
                let inside = part(rest, open + 1, close);
                let parts = split_top_level(inside);
                let allow_child = parts.len() == 1;
                let mut group: usize = 0;
                let mut i: usize = 0;
                assert(views(parts@).skip(0) =~= views(parts@));
                while i < parts.len()
                    invariant
                        depth < MAX_DEPTH,
                        i <= parts@.len(),
                        summed(
                            group as nat,
                            views(parts@).skip(i as int),
                            allow_child,
                            depth as nat + 1,
                        ) == summed(0, views(parts@), allow_child, depth as nat + 1),
                    decreases parts@.len() - i,
                {
                    group =
                    group.saturating_add(count_inner(parts[i].as_slice(), allow_child, depth + 1));
                    assert(views(parts@).skip(i as int).skip(1) =~= views(parts@).skip(
                        i as int + 1,
                    ));
                    i += 1;
                }
                let head = count_literal(part(rest, 0, open));
                assert(rest@.subrange(0, open as int) =~= rest@.take(open as int));
                total = capped_product(capped_product(total, head), group);
                assert(rest@.skip(close as int + 1) =~= s@.skip(from + close + 1));
                from = from + close + 1;
                ranged = true;
            },
        }
    }
}

/// How many values a pattern stands for before any are dropped, without building them;
/// `usize::MAX` stands for any larger number.
pub fn count(pattern: &str) -> (r: usize)
    ensures
        r as nat == counted(pattern@, true, 0),
{
    let chars = chars_of(pattern);
    count_inner(chars.as_slice(), true, 0)
}

/// What a pattern that is one plain range in parentheses runs from and to, the smaller first.
pub open spec fn integer_range(pattern: Seq<char>) -> Option<(nat, nat)> {
    let n = pattern.len();
    let inner = pattern.subrange(1, n - 1);
    if n < 2 || pattern[0] != '(' || pattern[n - 1] != ')' {
        None
    } else if occurs(inner, ',') || occurs(inner, '~') || occurs(inner, '(') {
        None
    } else {
        match plain_range(inner) {
            Some((lo, hi)) => Some((least(lo, hi), wider(lo, hi))),
            None => None,
        }
    }
}

/// The ends of the range that a pattern is, where it is nothing but one range of integers in
/// steps of one with no zero-padded end.
pub fn as_integer_range(pattern: &str) -> (r: Option<(i64, i64)>)
    ensures
        match r {
            Some((lo, hi)) => 0 <= lo <= hi && integer_range(pattern@) == Some(
                (lo as nat, hi as nat),
            ),
            None => integer_range(pattern@) is None,
        },
{
    let chars = chars_of(pattern);
    let n = chars.len();
    if n < 2 || chars[0] != '(' || chars[n - 1] != ')' {
        return None;
    }
    let inner = part(chars.as_slice(), 1, n - 1);
    if holds(inner, ',') || holds(inner, '~') || holds(inner, '(') {
        return None;
    }
    match parse_range(inner) {
        Some(Range::Numeric { lo, hi, plain, .. }) => {
            if plain {
                if lo <= hi {
                    Some((lo, hi))
                } else {
                    Some((hi, lo))
                }
            } else {
                None
            }
        },
        _ => None,
    }
}

// What the two have in common.

/// `len` values were built of `count`: all of them, or at least `MAX_EXPANSION`.
spec fn tallies(len: nat, count: nat) -> bool {
    if count < MAX_EXPANSION {
        len == count
    } else {
        len >= MAX_EXPANSION
    }
}

proof fn crossed_tallies(
    left: Seq<Seq<char>>,
    right: Seq<Seq<char>>,
    left_count: nat,
    right_count: nat,
)
    requires
        tallies(left.len(), left_count),
        tallies(right.len(), right_count),
        0 < left_count <= usize::MAX,
        0 < right_count <= usize::MAX,
    ensures
        tallies(crossed(left, right).len(), capped(left_count * right_count)),
        0 < capped(left_count * right_count),
{
    let (l, r, a, b) = (left.len(), right.len(), left_count, right_count);
    let m = MAX_EXPANSION as nat;
    assert(a * b >= a && a * b >= b) by (nonlinear_arith)
        requires
            a > 0,
            b > 0,
    ;
    if left == nothing() {
        assert(a == 1);
        assert(a * b == b) by (nonlinear_arith)
            requires
                a == 1,
        ;
    } else if right == nothing() {
        assert(b == 1);
        assert(a * b == a) by (nonlinear_arith)
            requires
                b == 1,
        ;
    } else {
        if a < m && b < m {
            assert(l * r == a * b);
        } else {
            assert(l * r >= l && l * r >= r) by (nonlinear_arith)
                requires
                    l > 0,
                    r > 0,
            ;
        }
    }
}

proof fn literal_tallies(s: Seq<char>)
    ensures
        tallies(literal(s).len(), literal_count(s)),
        0 < literal_count(s) <= usize::MAX,
{
}

proof fn expanded_tallies(s: Seq<char>, ranged: bool, depth: nat)
    ensures
        tallies(expanded(s, ranged, depth).len(), counted(s, ranged, depth)),
        0 < counted(s, ranged, depth) <= usize::MAX,
    decreases MAX_DEPTH - depth, 2nat, 0nat,
{
    if depth < MAX_DEPTH {
        chained_tallies(nothing(), 1, s, ranged, depth);
    }
}

proof fn chained_tallies(
    done: Seq<Seq<char>>,
    total: nat,
    rest: Seq<char>,
    ranged: bool,
    depth: nat,
)
    requires
        tallies(done.len(), total),
        0 < total <= usize::MAX,
        depth < MAX_DEPTH,
    ensures
        tallies(
            chained(done, rest, ranged, depth).len(),
            multiplied(total, rest, ranged, depth),
        ),
        0 < multiplied(total, rest, ranged, depth) <= usize::MAX,
    decreases MAX_DEPTH - depth, 1nat, rest.len(),
{
    match group_of(rest) {
        None => {
            literal_tallies(rest);
            if ranged {
                crossed_tallies(done, literal(rest), total, literal_count(rest));
            } else {
                crossed_tallies(done, leaf(rest), total, 1);
            }
        },
        Some((open, close)) => {
            group_bounds(rest);
            let parts = parts_from(rest.subrange(open + 1, close), 0);
            next_cut_bounds(rest.subrange(open + 1, close), 0);
            let head = rest.take(open);
            let one = parts.len() == 1;
            let group = gathered(Seq::empty(), parts, one, depth + 1);
            let sum = summed(0, parts, one, depth + 1);
            literal_tallies(head);
            crossed_tallies(done, literal(head), total, literal_count(head));
            gathered_tallies(Seq::empty(), 0, parts, one, depth + 1);
            let so_far = crossed(done, literal(head));
            let so_many = capped(total * literal_count(head));
            crossed_tallies(so_far, group, so_many, sum);
            chained_tallies(
                crossed(so_far, group),
                capped(so_many * sum),
                rest.skip(close + 1),
                true,
                depth,
            );
        },
    }
}

proof fn gathered_tallies(
    group: Seq<Seq<char>>,
    sum: nat,
    parts: Seq<Seq<char>>,
    ranged: bool,
    depth: nat,
)
    requires
        tallies(group.len(), sum),
        sum <= usize::MAX,
    ensures
        tallies(gathered(group, parts, ranged, depth).len(), summed(sum, parts, ranged, depth)),
        sum <= summed(sum, parts, ranged, depth) <= usize::MAX,
        parts.len() > 0 ==> summed(sum, parts, ranged, depth) > 0,
    decreases MAX_DEPTH - depth, 3nat, parts.len(),
{
    if parts.len() > 0 {
        let next = expanded(parts[0], ranged, depth);
        let more = counted(parts[0], ranged, depth);
        expanded_tallies(parts[0], ranged, depth);
        if group.len() >= MAX_EXPANSION {
            gathered_tallies(group, capped(sum + more), parts.skip(1), ranged, depth);
        } else {
            gathered_tallies(group + next, capped(sum + more), parts.skip(1), ranged, depth);
        }
    }
}

/// Counting a pattern tells how many values expanding it gives: as many as counted, or
/// `MAX_EXPANSION` where there are more. There is always at least one.
pub proof fn count_tells_expansion(pattern: Seq<char>)
    ensures
        expansion(pattern).len() == least(counted(pattern, true, 0), MAX_EXPANSION as nat),
        0 < expansion(pattern).len() <= MAX_EXPANSION,
{
    expanded_tallies(pattern, true, 0);
}

proof fn no_tilde_no_quote(s: Seq<char>, i: int)
    requires
        0 <= i <= s.len(),
        !occurs(s, '~'),
    ensures
        !quoted(s, i),
    decreases i,
{
    if i > 0 {
        no_tilde_no_quote(s, i - 1);
        assert(s[i - 1] != '~');
    }
}

proof fn range_holds_no_parenthesis(s: Seq<char>)
    requires
        plain_range(s) is Some,
    ensures
        !occurs(s, ')'),
{
    let dots = seq!['.', '.'];
    if occurs(s, ')') {
        assert(!occurs(dots, ')'));
        split_keeps(s, dots, ')');
        let parts = split_on(s, dots);
        let k = choose|k: int| 0 <= k < parts.len() && occurs(#[trigger] parts[k], ')');
        let i = choose|i: int| 0 <= i < parts[k].len() && parts[k][i] == ')';
        assert(is_numeral(parts[k]));
        assert(is_digit_spec(parts[k][i]) || parts[k][i] == '_');
    }
}

/// One pair of parentheses round `inner` is one group.
proof fn wrapped_is_one_group(s: Seq<char>, i: int)
    requires
        s.len() >= 2,
        s[0] == '(',
        s.last() == ')',
        !occurs(s.subrange(1, s.len() - 1), '('),
        !occurs(s.subrange(1, s.len() - 1), ')'),
        !occurs(s.subrange(1, s.len() - 1), '~'),
        1 <= i <= s.len() - 1,
    ensures
        depth_at(s, i) == 1,
        !quoted(s, i),
        next_open(s, 0) == 0,
        next_close(s, i) == s.len() - 1,
    decreases s.len() - i,
{
    let inner = s.subrange(1, s.len() - 1);
    assert(!occurs(s, '~')) by {
        if occurs(s, '~') {
            let j = choose|j: int| 0 <= j < s.len() && s[j] == '~';
            assert(inner[j - 1] == '~');
        }
    }
    no_tilde_no_quote(s, i);
    assert(quoted(s, 0) == false);
    assert(depth_at(s, 0) == 0);
    wrapped_depth(s, i);
    if i < s.len() - 1 {
        wrapped_is_one_group(s, i + 1);
        assert(s[i] == inner[i - 1]);
        assert(!closes(s, i));
    } else {
        assert(closes(s, i));
    }
}

proof fn wrapped_depth(s: Seq<char>, i: int)
    requires
        s.len() >= 2,
        s[0] == '(',
        !occurs(s.subrange(1, s.len() - 1), '('),
        !occurs(s.subrange(1, s.len() - 1), ')'),
        !occurs(s, '~'),
        1 <= i <= s.len() - 1,
    ensures
        depth_at(s, i) == 1,
    decreases i,
{
    let inner = s.subrange(1, s.len() - 1);
    no_tilde_no_quote(s, i - 1);
    if i > 1 {
        wrapped_depth(s, i - 1);
        assert(s[i - 1] == inner[i - 2]);
    } else {
        assert(depth_at(s, 0) == 0);
    }
}

proof fn no_parenthesis_no_group(s: Seq<char>, i: int)
    requires
        0 <= i <= s.len(),
        !occurs(s, ')'),
    ensures
        next_close(s, i) == s.len(),
    decreases s.len() - i,
{
    if i < s.len() {
        assert(s[i] != ')');
        no_parenthesis_no_group(s, i + 1);
    }
}

proof fn no_comma_no_cut(s: Seq<char>, i: int)
    requires
        0 <= i <= s.len(),
        !occurs(s, ','),
    ensures
        next_cut(s, i) == s.len(),
    decreases s.len() - i,
{
    if i < s.len() {
        assert(s[i] != ',');
        no_comma_no_cut(s, i + 1);
    }
}

proof fn empty_is_nothing()
    ensures
        literal(Seq::empty()) == nothing(),
        group_of(Seq::empty()) is None,
{
    let none = Seq::<char>::empty();
    let parts = split_on(none, seq!['.', '.']);
    assert(parts.len() == 1);
    assert(leaf(none) =~= nothing());
}

/// A pattern that is an integer range stands for the integers from one end to the other, each
/// once and in order, as far as `MAX_EXPANSION` allows, and counts as so many: asking whether a
/// number lies between the ends is asking whether it is one of the values.
pub proof fn integer_range_is_its_expansion(pattern: Seq<char>)
    requires
        integer_range(pattern) is Some,
    ensures
        ({
            let (lo, hi) = integer_range(pattern)->0;
            let values = expansion(pattern);
            &&& counted(pattern, true, 0) == capped((hi - lo + 1) as nat)
            &&& values.len() == least((hi - lo + 1) as nat, MAX_EXPANSION as nat)
            &&& (forall|i: int| 0 <= i < values.len() ==> #[trigger] values[i] == decimal((lo + i) as nat))
                || (forall|i: int| 0 <= i < values.len() ==> #[trigger] values[i] == decimal((hi - i) as nat))
        }),
{
    let s = pattern;
    let inner = s.subrange(1, s.len() - 1);
    range_holds_no_parenthesis(inner);
    wrapped_is_one_group(s, 1);
    assert(!closes(s, 0));
    assert(next_close(s, 0) == s.len() - 1);
    assert(group_of(s) == Some((0int, s.len() - 1)));
    let parts = parts_from(inner, 0);
    no_comma_no_cut(inner, 0);
    assert(inner.skip(0) =~= inner);
    assert(parts =~= seq![inner]);
    no_parenthesis_no_group(inner, 0);
    assert(group_of(inner) is None);
    let all = literal(inner);
    assert(expanded(inner, true, 1) == chained(nothing(), inner, true, 1));
    assert(chained(nothing(), inner, true, 1) == crossed(nothing(), all));
    let group = gathered(Seq::empty(), parts, true, 1);
    assert(parts.skip(1) =~= Seq::<Seq<char>>::empty());
    assert(Seq::<Seq<char>>::empty() + all =~= all);
    assert(gathered(all, Seq::empty(), true, 1) == all);
    assert(group == all);
    empty_is_nothing();
    assert(s.take(0) =~= Seq::<char>::empty());
    assert(s.skip(s.len() as int) =~= Seq::<char>::empty());
    assert(chained(all, Seq::empty(), true, 0) == crossed(all, nothing()));
    assert(crossed(all, nothing()) == all);
    assert(expanded(s, true, 0) == all);
    assert(expansion(s) =~= all);
    let (a, b) = plain_range(inner)->0;
    let range = range_of(inner)->0;
    let none = Seq::<char>::empty();
    let n = literal_count(inner);
    assert(n == capped(distance(a, b) + 1));
    assert(literal_count(none) == 1) by {
        assert(split_on(none, seq!['.', '.']).len() == 1);
    }
    assert(counted(inner, true, 1) == multiplied(1, inner, true, 1));
    assert(multiplied(1, inner, true, 1) == capped(1 * n));
    assert(summed(0, parts, true, 1) == summed(capped(n), parts.skip(1), true, 1));
    assert(summed(0, parts, true, 1) == n);
    assert(capped(capped(1 * 1) * n) == n);
    assert(multiplied(n, none, true, 0) == capped(n * 1));
    assert(counted(s, true, 0) == n);
    assert(all.len() == least(distance(a, b) + 1, MAX_EXPANSION as nat));
    assert forall|i: int| 0 <= i < all.len() implies #[trigger] all[i] == decimal(
        toward(a, b, 1, i) as nat,
    ) by {
        assert(range_value(range, i) =~= decimal(toward(a, b, 1, i) as nat));
    }
}

proof fn nothing_closes(s: Seq<char>, i: int)
    requires
        0 <= i <= s.len(),
        forall|j: int| 0 <= j < s.len() && !quoted(s, j) ==> #[trigger] s[j] != '(',
    ensures
        depth_at(s, i) == 0,
        next_close(s, i) == s.len(),
    decreases s.len() - i,
{
    no_depth(s, i);
    if i < s.len() {
        nothing_closes(s, i + 1);
    }
}

proof fn no_depth(s: Seq<char>, i: int)
    requires
        0 <= i <= s.len(),
        forall|j: int| 0 <= j < s.len() && !quoted(s, j) ==> #[trigger] s[j] != '(',
    ensures
        depth_at(s, i) == 0,
    decreases i,
{
    if i > 0 {
        no_depth(s, i - 1);
        if !quoted(s, i - 1) {
            assert(s[i - 1] != '(');
        }
    }
}

proof fn no_group_is_a_literal(s: Seq<char>)
    requires
        forall|j: int| 0 <= j < s.len() && !quoted(s, j) ==> #[trigger] s[j] != '(',
        range_of(s) is None,
    ensures
        expansion(s) == leaf(s),
{
    nothing_closes(s, 0);
    assert(group_of(s) is None);
    assert(expanded(s, true, 0) == crossed(nothing(), leaf(s)));
    assert(expansion(s) =~= leaf(s));
}

proof fn nothing_to_drop(s: Seq<char>)
    requires
        !occurs(s, '~'),
    ensures
        untilded(s) == s,
    decreases s.len(),
{
    if s.len() > 0 {
        assert(s.last() != '~') by {
            assert(s[s.len() - 1] == s.last());
        }
        assert(!occurs(s.drop_last(), '~')) by {
            if occurs(s.drop_last(), '~') {
                let i = choose|i: int| 0 <= i < s.drop_last().len() && s.drop_last()[i] == '~';
                assert(s[i] == '~');
            }
        }
        nothing_to_drop(s.drop_last());
        assert(untilded(s) =~= s);
    }
}

/// Text with no group, no tilde and no range in it stands for itself.
pub proof fn plain_text_stands_for_itself(s: Seq<char>)
    requires
        !occurs(s, '('),
        !occurs(s, '~'),
        range_of(s) is None,
    ensures
        expansion(s) == seq![s],
        counted(s, true, 0) == 1,
{
    assert forall|j: int| 0 <= j < s.len() && !quoted(s, j) implies #[trigger] s[j] != '(' by {}
    no_group_is_a_literal(s);
    nothing_to_drop(s);
    count_tells_expansion(s);
}

proof fn quoted_between(s: Seq<char>, i: int)
    requires
        s.len() >= 2,
        s[0] == '~',
        !occurs(s.subrange(1, s.len() - 1), '~'),
        0 <= i <= s.len() - 1,
    ensures
        quoted(s, i) == (i > 0),
    decreases i,
{
    if i > 0 {
        quoted_between(s, i - 1);
        if i - 1 > 0 {
            assert(s.subrange(1, s.len() - 1)[i - 2] == s[i - 1]);
        }
    }
}

/// Text between two tildes stands for itself, whatever it holds besides tildes: commas,
/// parentheses and ranges in it mean nothing.
pub proof fn tildes_quote(s: Seq<char>)
    requires
        !occurs(s, '~'),
    ensures
        expansion(seq!['~'] + s + seq!['~']) == seq![s],
{
    let t = seq!['~'] + s + seq!['~'];
    let n = t.len() as int;
    assert(t.subrange(1, n - 1) =~= s);
    assert forall|j: int| 0 <= j < n && !quoted(t, j) implies #[trigger] t[j] != '(' by {
        quoted_between(t, j);
    }
    let dots = seq!['.', '.'];
    let parts = split_on(t, dots);
    assert(!is_numeral(parts[0]) && !one_letter(parts[0])) by {
        first_match_bounds(t, dots, 0);
        assert(!stands_at(t, dots, 0)) by {
            if stands_at(t, dots, 0) {
                assert(t.subrange(0, 2)[0] == '.');
            }
        }
        assert(parts[0].len() > 0 && parts[0][0] == '~');
        assert(!is_digit_spec(parts[0][0]) && parts[0][0] != '_');
    }
    assert(range_of(t) is None);
    no_group_is_a_literal(t);
    assert(t.drop_last() =~= seq!['~'] + s);
    assert(untilded(t) == untilded(seq!['~'] + s));
    tilde_dropped_first(s);
}

/// None of some values holds a tilde.
pub open spec fn without_tildes(values: Seq<Seq<char>>) -> bool {
    forall|i: int| 0 <= i < values.len() ==> !occurs(#[trigger] values[i], '~')
}

proof fn untilded_holds_none(s: Seq<char>)
    ensures
        !occurs(untilded(s), '~'),
    decreases s.len(),
{
    if s.len() > 0 {
        let before = untilded(s.drop_last());
        untilded_holds_none(s.drop_last());
        if s.last() != '~' {
            let after = before.push(s.last());
            assert forall|i: int| 0 <= i < after.len() implies after[i] != '~' by {
                if i < before.len() {
                    assert(before[i] == after[i]);
                }
            }
        }
    }
}

proof fn literal_holds_none(s: Seq<char>)
    ensures
        without_tildes(literal(s)),
{
    untilded_holds_none(s);
    match range_of(s) {
        Some(range) => {
            let values = literal(s);
            assert forall|i: int| 0 <= i < values.len() implies !occurs(
                #[trigger] values[i],
                '~',
            ) by {
                match range {
                    RangeModel::Numeric { lo, hi, step, width } => {
                        let n = toward(lo, hi, step, i) as nat;
                        decimal_reads_back(n);
                        let text = zero_padded(n, width);
                        assert forall|j: int| 0 <= j < text.len() implies text[j] != '~' by {
                            let zeros = text.len() - decimal(n).len();
                            if j >= zeros {
                                assert(text[j] == decimal(n)[j - zeros]);
                                assert(is_digit_spec(decimal(n)[j - zeros]));
                            }
                        }
                    },
                    RangeModel::Alpha { from, to } => {
                        assert(0 <= i <= distance(from as nat, to as nat));
                        let c = toward(from as nat, to as nat, 1, i);
                        assert(c == from as int + i || c == from as int - i);
                        assert(65 <= c <= 122);
                        assert((c as u8 as char) as int == c);
                        assert(values[i] =~= seq![c as u8 as char]);
                    },
                }
            }
        },
        None => {},
    }
}

proof fn crossed_holds_none(left: Seq<Seq<char>>, right: Seq<Seq<char>>)
    requires
        without_tildes(left),
        without_tildes(right),
    ensures
        without_tildes(crossed(left, right)),
{
    let all = crossed(left, right);
    if left != nothing() && right != nothing() {
        let r = right.len() as int;
        assert forall|k: int| 0 <= k < all.len() implies !occurs(#[trigger] all[k], '~') by {
            assert(left.len() * right.len() > 0);
            assert(r > 0) by (nonlinear_arith)
                requires
                    left.len() * right.len() > 0,
                    r == right.len(),
            ;
            vstd::arithmetic::div_mod::lemma_fundamental_div_mod(k, r);
            vstd::arithmetic::div_mod::lemma_mod_bound(k, r);
            let q = k / r;
            let m = k % r;
            assert(0 <= q < left.len()) by (nonlinear_arith)
                requires
                    k == r * q + m,
                    0 <= m < r,
                    0 <= k < left.len() * r,
            ;
            let text = left[q] + right[m];
            assert(all[k] == text);
            assert forall|j: int| 0 <= j < text.len() implies text[j] != '~' by {
                if j < left[q].len() {
                    assert(text[j] == left[q][j]);
                } else {
                    assert(text[j] == right[m][j - left[q].len()]);
                }
            }
        }
    }
}

proof fn expanded_holds_none(s: Seq<char>, ranged: bool, depth: nat)
    ensures
        without_tildes(expanded(s, ranged, depth)),
    decreases MAX_DEPTH - depth, 2nat, 0nat,
{
    untilded_holds_none(s);
    if depth < MAX_DEPTH {
        chained_holds_none(nothing(), s, ranged, depth);
    }
}

proof fn chained_holds_none(done: Seq<Seq<char>>, rest: Seq<char>, ranged: bool, depth: nat)
    requires
        without_tildes(done),
        depth < MAX_DEPTH,
    ensures
        without_tildes(chained(done, rest, ranged, depth)),
    decreases MAX_DEPTH - depth, 1nat, rest.len(),
{
    match group_of(rest) {
        None => {
            untilded_holds_none(rest);
            literal_holds_none(rest);
            crossed_holds_none(
                done,
                if ranged {
                    literal(rest)
                } else {
                    leaf(rest)
                },
            );
        },
        Some((open, close)) => {
            group_bounds(rest);
            let parts = parts_from(rest.subrange(open + 1, close), 0);
            let group = gathered(Seq::empty(), parts, parts.len() == 1, depth + 1);
            let so_far = crossed(done, literal(rest.take(open)));
            literal_holds_none(rest.take(open));
            crossed_holds_none(done, literal(rest.take(open)));
            gathered_holds_none(Seq::empty(), parts, parts.len() == 1, depth + 1);
            crossed_holds_none(so_far, group);
            chained_holds_none(crossed(so_far, group), rest.skip(close + 1), true, depth);
        },
    }
}

proof fn gathered_holds_none(
    group: Seq<Seq<char>>,
    parts: Seq<Seq<char>>,
    ranged: bool,
    depth: nat,
)
    requires
        without_tildes(group),
    ensures
        without_tildes(gathered(group, parts, ranged, depth)),
    decreases MAX_DEPTH - depth, 3nat, parts.len(),
{
    if parts.len() > 0 && group.len() < MAX_EXPANSION {
        let next = expanded(parts[0], ranged, depth);
        expanded_holds_none(parts[0], ranged, depth);
        assert forall|i: int| 0 <= i < (group + next).len() implies !occurs(
            #[trigger] (group + next)[i],
            '~',
        ) by {
            if i < group.len() {
                assert((group + next)[i] == group[i]);
            } else {
                assert((group + next)[i] == next[i - group.len()]);
            }
        }
        gathered_holds_none(group + next, parts.skip(1), ranged, depth);
    }
}

/// Tildes quote and are never kept: no value of any pattern holds one.
pub proof fn no_value_holds_a_tilde(pattern: Seq<char>)
    ensures
        without_tildes(expansion(pattern)),
{
    expanded_holds_none(pattern, true, 0);
    let all = expanded(pattern, true, 0);
    let values = expansion(pattern);
    assert forall|i: int| 0 <= i < values.len() implies !occurs(#[trigger] values[i], '~') by {
        assert(values[i] == all[i]);
    }
}

proof fn tilde_dropped_first(s: Seq<char>)
    requires
        !occurs(s, '~'),
    ensures
        untilded(seq!['~'] + s) == s,
    decreases s.len(),
{
    let t = seq!['~'] + s;
    if s.len() == 0 {
        assert(t.last() == '~');
        assert(t.drop_last() =~= s);
        assert(untilded(s) == s);
        assert(untilded(t) == untilded(t.drop_last()));
    } else {
        assert(t.last() == s.last());
        assert(s[s.len() - 1] == s.last());
        assert(t.drop_last() =~= seq!['~'] + s.drop_last());
        assert(!occurs(s.drop_last(), '~')) by {
            if occurs(s.drop_last(), '~') {
                let i = choose|i: int| 0 <= i < s.drop_last().len() && s.drop_last()[i] == '~';
                assert(s[i] == '~');
            }
        }
        tilde_dropped_first(s.drop_last());
        assert(untilded(t) =~= s);
    }
}

// What patterns are for.

/// Text without parentheses, commas and tildes.
pub open spec fn is_unmarked(s: Seq<char>) -> bool {
    !occurs(s, '(') && !occurs(s, ')') && !occurs(s, ',') && !occurs(s, '~')
}

/// `body` in parentheses, between two texts.
pub open spec fn grouped(pre: Seq<char>, body: Seq<char>, post: Seq<char>) -> Seq<char> {
    pre + seq!['('] + body + seq![')'] + post
}

proof fn group_depth(pre: Seq<char>, body: Seq<char>, post: Seq<char>, i: int)
    requires
        !occurs(pre, '(') && !occurs(pre, ')') && !occurs(pre, '~'),
        !occurs(body, '(') && !occurs(body, ')') && !occurs(body, '~'),
        !occurs(post, '~'),
        0 <= i <= pre.len() + 1 + body.len(),
    ensures
        !quoted(grouped(pre, body, post), i),
        depth_at(grouped(pre, body, post), i) == if i <= pre.len() {
            0nat
        } else {
            1
        },
    decreases i,
{
    let s = grouped(pre, body, post);
    assert(!occurs(s, '~')) by {
        if occurs(s, '~') {
            let j = choose|j: int| 0 <= j < s.len() && s[j] == '~';
            if j < pre.len() {
                assert(pre[j] == '~');
            } else if pre.len() < j && j <= pre.len() + body.len() {
                assert(body[j - pre.len() - 1] == '~');
            } else if j > pre.len() + body.len() + 1 {
                assert(post[j - pre.len() - body.len() - 2] == '~');
            }
        }
    }
    no_tilde_no_quote(s, i);
    if i > 0 {
        group_depth(pre, body, post, i - 1);
        if i <= pre.len() {
            assert(s[i - 1] == pre[i - 1]);
        } else if i > pre.len() + 1 {
            assert(s[i - 1] == body[i - pre.len() - 2]);
        }
    }
}

proof fn group_is_found(pre: Seq<char>, body: Seq<char>, post: Seq<char>)
    requires
        !occurs(pre, '(') && !occurs(pre, ')') && !occurs(pre, '~'),
        !occurs(body, '(') && !occurs(body, ')') && !occurs(body, '~'),
        !occurs(post, '~'),
    ensures
        ({
            let s = grouped(pre, body, post);
            let open = pre.len() as int;
            let close = pre.len() + 1 + body.len() as int;
            &&& group_of(s) == Some((open, close))
            &&& s.take(open) == pre
            &&& s.subrange(open + 1, close) == body
            &&& s.skip(close + 1) == post
        }),
{
    let s = grouped(pre, body, post);
    let open = pre.len() as int;
    let close = pre.len() + 1 + body.len() as int;
    group_depth(pre, body, post, open);
    group_depth(pre, body, post, close);
    next_open_bounds(s, 0);
    next_close_bounds(s, 0);
    assert(s[open] == '(');
    assert(opens(s, open));
    assert(s[close] == ')');
    assert(closes(s, close));
    if next_open(s, 0) < open {
        assert(pre[next_open(s, 0)] == '(');
    }
    let at = next_close(s, 0);
    if at < close {
        if at < open {
            assert(pre[at] == ')');
        } else if at > open {
            assert(body[at - open - 1] == ')');
        }
    }
    assert(s.take(open) =~= pre);
    assert(s.subrange(open + 1, close) =~= body);
    assert(s.skip(close + 1) =~= post);
}

proof fn crossed_with_one_before(p: Seq<char>, values: Seq<Seq<char>>)
    requires
        values.len() <= MAX_EXPANSION,
    ensures
        crossed(seq![p], values) == Seq::new(values.len(), |i: int| p + values[i]),
{
    let want = Seq::new(values.len(), |i: int| p + values[i]);
    let all = crossed(seq![p], values);
    if seq![p] == nothing() {
        assert(seq![p][0] == nothing()[0]);
        assert forall|i: int| 0 <= i < values.len() implies values[i] == #[trigger] want[i] by {
            assert(p + values[i] =~= values[i]);
        }
        assert(values =~= want);
    } else if values == nothing() {
        assert(p + values[0] =~= p);
        assert(all =~= want);
    } else {
        let one = seq![p];
        assert(one.len() * values.len() == values.len()) by (nonlinear_arith)
            requires
                one.len() == 1,
        ;
        assert forall|k: int| 0 <= k < values.len() implies #[trigger] all[k] == want[k] by {
            assert(k / values.len() as int == 0) by (nonlinear_arith)
                requires
                    0 <= k < values.len(),
            ;
            assert(k % values.len() as int == k) by (nonlinear_arith)
                requires
                    0 <= k < values.len(),
            ;
        }
        assert(all =~= want);
    }
}

proof fn crossed_with_one_after(values: Seq<Seq<char>>, p: Seq<char>)
    requires
        values.len() <= MAX_EXPANSION,
    ensures
        crossed(values, seq![p]) == Seq::new(values.len(), |i: int| values[i] + p),
{
    let want = Seq::new(values.len(), |i: int| values[i] + p);
    let all = crossed(values, seq![p]);
    if values == nothing() {
        assert(values[0] + p =~= p);
        assert(all =~= want);
    } else if seq![p] == nothing() {
        assert(seq![p][0] == nothing()[0]);
        assert forall|i: int| 0 <= i < values.len() implies values[i] == #[trigger] want[i] by {
            assert(values[i] + p =~= values[i]);
        }
        assert(values =~= want);
    } else {
        let one = seq![p];
        assert(values.len() * one.len() == values.len()) by (nonlinear_arith)
            requires
                one.len() == 1,
        ;
        assert forall|k: int| 0 <= k < values.len() implies #[trigger] all[k] == want[k] by {
            assert(one.len() as int == 1);
            assert(k / 1 == k && k % 1 == 0);
        }
        assert(all =~= want);
    }
}

/// A text stands for itself where it is read as a literal.
pub open spec fn is_plain(s: Seq<char>) -> bool {
    !occurs(s, '(') && !occurs(s, ')') && !occurs(s, '~') && range_of(s) is None
}

proof fn plain_literal(s: Seq<char>)
    requires
        is_plain(s),
    ensures
        literal(s) == seq![s],
        leaf(s) == seq![s],
{
    nothing_to_drop(s);
}

/// One group between two plain texts stands for its values, each between the two.
proof fn group_between_texts(pre: Seq<char>, body: Seq<char>, post: Seq<char>)
    requires
        is_plain(pre),
        is_plain(post),
        !occurs(body, '(') && !occurs(body, ')') && !occurs(body, '~'),
        gathered(
            Seq::empty(),
            parts_from(body, 0),
            parts_from(body, 0).len() == 1,
            1,
        ).len() <= MAX_EXPANSION,
    ensures
        ({
            let values = gathered(
                Seq::empty(),
                parts_from(body, 0),
                parts_from(body, 0).len() == 1,
                1,
            );
            expansion(grouped(pre, body, post)) == Seq::new(
                values.len(),
                |i: int| pre + values[i] + post,
            )
        }),
{
    let s = grouped(pre, body, post);
    let parts = parts_from(body, 0);
    let values = gathered(Seq::empty(), parts, parts.len() == 1, 1);
    group_is_found(pre, body, post);
    plain_literal(pre);
    plain_literal(post);
    no_parenthesis_no_group(post, 0);
    assert(group_of(post) is None);
    assert(crossed(nothing(), literal(pre)) == seq![pre]);
    crossed_with_one_before(pre, values);
    let before = Seq::new(values.len(), |i: int| pre + values[i]);
    assert(expanded(s, true, 0) == chained(nothing(), s, true, 0));
    assert(chained(nothing(), s, true, 0) == chained(crossed(seq![pre], values), post, true, 0));
    assert(chained(before, post, true, 0) == crossed(before, literal(post)));
    crossed_with_one_after(before, post);
    let want = Seq::new(values.len(), |i: int| pre + values[i] + post);
    assert(crossed(before, seq![post]) =~= want);
    assert(expansion(s) =~= want);
}

proof fn parts_shift(s: Seq<char>, by: int, from: int)
    requires
        !occurs(s, '(') && !occurs(s, ')') && !occurs(s, '~'),
        0 <= by <= s.len(),
        0 <= from <= s.len() - by,
    ensures
        parts_from(s, by + from) == parts_from(s.skip(by), from),
        next_cut(s, by + from) == by + next_cut(s.skip(by), from),
    decreases s.len() - by - from, 1nat,
{
    let t = s.skip(by);
    cut_shift(s, by, from);
    next_cut_bounds(t, from);
    next_cut_bounds(s, by + from);
    let at = next_cut(t, from);
    if at < t.len() {
        parts_shift(s, by, at + 1);
        assert(s.subrange(by + from, by + at) =~= t.subrange(from, at));
    } else {
        assert(s.skip(by + from) =~= t.skip(from));
    }
}

proof fn unmarked_cuts(s: Seq<char>, i: int)
    requires
        !occurs(s, '(') && !occurs(s, ')') && !occurs(s, '~'),
        0 <= i < s.len(),
    ensures
        cuts(s, i) == (s[i] == ','),
{
    no_tilde_no_quote(s, i);
    assert forall|j: int| 0 <= j < s.len() && !quoted(s, j) implies #[trigger] s[j] != '(' by {}
    no_depth(s, i);
}

proof fn cut_shift(s: Seq<char>, by: int, from: int)
    requires
        !occurs(s, '(') && !occurs(s, ')') && !occurs(s, '~'),
        0 <= by <= s.len(),
        0 <= from <= s.len() - by,
    ensures
        next_cut(s, by + from) == by + next_cut(s.skip(by), from),
    decreases s.len() - by - from, 0nat,
{
    let t = s.skip(by);
    assert forall|c: char| !occurs(s, c) implies !#[trigger] occurs(t, c) by {
        if occurs(t, c) {
            let j = choose|j: int| 0 <= j < t.len() && t[j] == c;
            assert(s[by + j] == c);
        }
    }
    if from < t.len() {
        unmarked_cuts(s, by + from);
        unmarked_cuts(t, from);
        assert(t[from] == s[by + from]);
        if !cuts(t, from) {
            cut_shift(s, by, from + 1);
        }
    }
}

proof fn list_is_cut(items: Seq<Seq<char>>)
    requires
        items.len() > 0,
        forall|i: int| 0 <= i < items.len() ==> is_unmarked(#[trigger] items[i]),
    ensures
        parts_from(joined_by(items, seq![',']), 0) == items,
        !occurs(joined_by(items, seq![',']), '('),
        !occurs(joined_by(items, seq![',']), ')'),
        !occurs(joined_by(items, seq![',']), '~'),
    decreases items.len(),
{
    let first = items[0];
    let s = joined_by(items, seq![',']);
    if items.len() == 1 {
        no_comma_no_cut(first, 0);
        assert(first.skip(0) =~= first);
        assert(items =~= seq![first]);
    } else {
        let rest = items.skip(1);
        assert forall|i: int| 0 <= i < rest.len() implies is_unmarked(#[trigger] rest[i]) by {
            assert(rest[i] == items[i + 1]);
        }
        list_is_cut(rest);
        let tail = joined_by(rest, seq![',']);
        assert(items =~= seq![first] + rest);
        joined_from_the_front(first, rest, seq![',']);
        assert(s == first + seq![','] + tail);
        assert forall|c: char| c != ',' && !occurs(first, c) && !occurs(tail, c) implies
            !#[trigger] occurs(s, c) by {
            if occurs(s, c) {
                let j = choose|j: int| 0 <= j < s.len() && s[j] == c;
                if j < first.len() {
                    assert(first[j] == c);
                } else if j > first.len() {
                    assert(tail[j - first.len() - 1] == c);
                }
            }
        }
        let n = first.len() as int;
        assert(s[n] == ',');
        unmarked_cuts(s, n);
        next_cut_bounds(s, 0);
        let at = next_cut(s, 0);
        if at < n {
            unmarked_cuts(s, at);
            assert(first[at] == ',');
        }
        assert(at == n);
        assert(s.subrange(0, n) =~= first);
        assert(s.skip(n + 1) =~= tail);
        parts_shift(s, n + 1, 0);
        assert(parts_from(s, 0) =~= items);
    }
}

proof fn items_are_gathered(group: Seq<Seq<char>>, items: Seq<Seq<char>>, depth: nat)
    requires
        depth < MAX_DEPTH,
        group.len() + items.len() <= MAX_EXPANSION,
        forall|i: int| 0 <= i < items.len() ==> is_unmarked(#[trigger] items[i]),
    ensures
        gathered(group, items, false, depth) == group + items,
    decreases items.len(),
{
    if items.len() == 0 {
        assert(group + items =~= group);
    } else {
        let first = items[0];
        let rest = items.skip(1);
        assert(is_unmarked(first));
        no_parenthesis_no_group(first, 0);
        nothing_to_drop(first);
        assert(expanded(first, false, depth) == chained(nothing(), first, false, depth));
        assert(chained(nothing(), first, false, depth) == crossed(nothing(), leaf(first)));
        assert(expanded(first, false, depth) == seq![first]);
        assert forall|i: int| 0 <= i < rest.len() implies is_unmarked(#[trigger] rest[i]) by {
            assert(rest[i] == items[i + 1]);
        }
        items_are_gathered(group + seq![first], rest, depth);
        assert(group + seq![first] + rest =~= group + items);
    }
}

/// A list in parentheses stands for each of its items, in their order, between the texts before and
/// after it: `file-(a,b).txt` for `file-a.txt` and `file-b.txt`.
pub proof fn list_stands_for_its_items(
    pre: Seq<char>,
    items: Seq<Seq<char>>,
    post: Seq<char>,
)
    requires
        is_plain(pre),
        is_plain(post),
        2 <= items.len() <= 10_000,
        forall|i: int| 0 <= i < items.len() ==> is_unmarked(#[trigger] items[i]),
    ensures
        expansion(pre + seq!['('] + joined_by(items, seq![',']) + seq![')'] + post) == Seq::new(
            items.len(),
            |i: int| pre + items[i] + post,
        ),
        counted(pre + seq!['('] + joined_by(items, seq![',']) + seq![')'] + post, true, 0)
            >= items.len(),
{
    list_is_cut(items);
    items_are_gathered(Seq::empty(), items, 1);
    assert(Seq::<Seq<char>>::empty() + items =~= items);
    let body = joined_by(items, seq![',']);
    group_between_texts(pre, body, post);
    count_tells_expansion(grouped(pre, body, post));
}

proof fn crossed_values(left: Seq<Seq<char>>, right: Seq<Seq<char>>, i: int, j: int)
    requires
        left.len() >= 2,
        right.len() >= 2,
        left.len() * right.len() <= MAX_EXPANSION,
        0 <= i < left.len(),
        0 <= j < right.len(),
    ensures
        crossed(left, right).len() == left.len() * right.len(),
        0 <= i * right.len() + j < left.len() * right.len(),
        crossed(left, right)[i * right.len() + j] == left[i] + right[j],
{
    let n = right.len() as int;
    let k = i * n + j;
    assert(0 <= k < left.len() * n && k / n == i && k % n == j) by {
        vstd::arithmetic::div_mod::lemma_fundamental_div_mod_converse(k, n, i, j);
        assert(0 <= i * n) by (nonlinear_arith)
            requires
                0 <= i,
                0 <= n,
        ;
        assert(i * n + n <= left.len() * n) by (nonlinear_arith)
            requires
                i + 1 <= left.len(),
                0 <= n,
        ;
    }
}

/// Two lists in one pattern stand for each item of the first with each item of the second, the
/// second changing faster: `(a,b)-(1,2)` for `a-1`, `a-2`, `b-1` and `b-2`.
pub proof fn lists_are_combined(
    pre: Seq<char>,
    first: Seq<Seq<char>>,
    mid: Seq<char>,
    second: Seq<Seq<char>>,
    post: Seq<char>,
    i: int,
    j: int,
)
    requires
        is_plain(pre),
        is_plain(mid),
        is_plain(post),
        first.len() >= 2,
        second.len() >= 2,
        first.len() * second.len() <= 10_000,
        forall|k: int| 0 <= k < first.len() ==> is_unmarked(#[trigger] first[k]),
        forall|k: int| 0 <= k < second.len() ==> is_unmarked(#[trigger] second[k]),
        0 <= i < first.len(),
        0 <= j < second.len(),
    ensures
        ({
            let all = expansion(
                pre + seq!['('] + joined_by(first, seq![',']) + seq![')'] + (mid + seq!['('] + joined_by(
                    second,
                    seq![','],
                ) + seq![')'] + post),
            );
            &&& all.len() == first.len() * second.len()
            &&& 0 <= i * second.len() + j < all.len()
            &&& all[i * second.len() + j] == pre + first[i] + mid + second[j] + post
        }),
{
    let n = second.len() as int;
    assert(first.len() <= 10_000 && second.len() <= 10_000) by (nonlinear_arith)
        requires
            first.len() >= 2,
            second.len() >= 2,
            first.len() * second.len() <= 10_000,
    ;
    list_is_cut(first);
    list_is_cut(second);
    items_are_gathered(Seq::empty(), first, 1);
    items_are_gathered(Seq::empty(), second, 1);
    assert(Seq::<Seq<char>>::empty() + first =~= first);
    assert(Seq::<Seq<char>>::empty() + second =~= second);
    let body = joined_by(first, seq![',']);
    let other = joined_by(second, seq![',']);
    let rest = grouped(mid, other, post);
    let s = grouped(pre, body, rest);
    assert(!occurs(rest, '~'));
    group_is_found(pre, body, rest);
    group_is_found(mid, other, post);
    plain_literal(pre);
    plain_literal(mid);
    plain_literal(post);
    no_parenthesis_no_group(post, 0);
    assert(group_of(post) is None);
    assert(crossed(nothing(), literal(pre)) == seq![pre]);
    crossed_with_one_before(pre, first);
    let left = Seq::new(first.len(), |k: int| pre + first[k]);
    assert(chained(nothing(), s, true, 0) == chained(crossed(seq![pre], first), rest, true, 0));
    crossed_with_one_after(left, mid);
    let middle = Seq::new(left.len(), |k: int| left[k] + mid);
    let both = crossed(middle, second);
    assert(chained(left, rest, true, 0) == chained(both, post, true, 0));
    assert(chained(both, post, true, 0) == crossed(both, literal(post)));
    crossed_values(middle, second, i, j);
    crossed_with_one_after(both, post);
    let all = Seq::new(both.len(), |k: int| both[k] + post);
    assert(expanded(s, true, 0) == all);
    assert(expansion(s) =~= all);
    assert(all[i * n + j] == pre + first[i] + mid + second[j] + post);
}

/// A list of an item and of a text round another list.
pub open spec fn list_in_list(
    item: Seq<char>,
    mid: Seq<char>,
    inner: Seq<char>,
    tail: Seq<char>,
) -> Seq<char> {
    grouped(item + seq![','] + mid, inner, tail)
}

proof fn depth_in_list(
    pre: Seq<char>,
    item: Seq<char>,
    mid: Seq<char>,
    inner: Seq<char>,
    tail: Seq<char>,
    post: Seq<char>,
    i: int,
)
    requires
        !occurs(pre, '(') && !occurs(pre, ')') && !occurs(pre, '~'),
        is_unmarked(item),
        is_unmarked(mid),
        is_unmarked(tail),
        !occurs(inner, '(') && !occurs(inner, ')') && !occurs(inner, '~'),
        !occurs(post, '~'),
        0 <= i <= pre.len() + 1 + list_in_list(item, mid, inner, tail).len(),
    ensures
        ({
            let s = grouped(pre, list_in_list(item, mid, inner, tail), post);
            let open = pre.len() + 1 + item.len() + 1 + mid.len();
            let close = open + 1 + inner.len();
            &&& !quoted(s, i)
            &&& depth_at(s, i) == if i <= pre.len() {
                0nat
            } else if i <= open {
                1
            } else if i <= close {
                2
            } else {
                1
            }
        }),
    decreases i,
{
    let body = list_in_list(item, mid, inner, tail);
    let s = grouped(pre, body, post);
    let n = pre.len() as int;
    let comma = n + 1 + item.len();
    let open = comma + 1 + mid.len();
    let close = open + 1 + inner.len();
    if i > 0 {
        depth_in_list(pre, item, mid, inner, tail, post, i - 1);
        let k = i - 1;
        assert(s[k] != '~' && (s[k] == '(' <==> k == n || k == open) && (s[k] == ')' <==> k
            == close)) by {
            if k < n {
                assert(s[k] == pre[k]);
            } else if n < k && k < comma {
                assert(s[k] == item[k - n - 1]);
            } else if comma < k && k < open {
                assert(s[k] == mid[k - comma - 1]);
            } else if open < k && k < close {
                assert(s[k] == inner[k - open - 1]);
            } else if close < k {
                assert(s[k] == tail[k - close - 1]);
            }
        }
    }
}

proof fn list_in_list_is_found(
    pre: Seq<char>,
    item: Seq<char>,
    mid: Seq<char>,
    inner: Seq<char>,
    tail: Seq<char>,
    post: Seq<char>,
)
    requires
        !occurs(pre, '(') && !occurs(pre, ')') && !occurs(pre, '~'),
        is_unmarked(item),
        is_unmarked(mid),
        is_unmarked(tail),
        !occurs(inner, '(') && !occurs(inner, ')') && !occurs(inner, '~'),
        !occurs(post, '~'),
    ensures
        ({
            let body = list_in_list(item, mid, inner, tail);
            let s = grouped(pre, body, post);
            let open = pre.len() as int;
            let close = pre.len() + 1 + body.len() as int;
            &&& group_of(s) == Some((open, close))
            &&& s.take(open) == pre
            &&& s.subrange(open + 1, close) == body
            &&& s.skip(close + 1) == post
        }),
{
    let body = list_in_list(item, mid, inner, tail);
    let s = grouped(pre, body, post);
    let open = pre.len() as int;
    let close = pre.len() + 1 + body.len() as int;
    depth_in_list(pre, item, mid, inner, tail, post, open);
    depth_in_list(pre, item, mid, inner, tail, post, close);
    next_open_bounds(s, 0);
    next_close_bounds(s, 0);
    assert(opens(s, open));
    assert(closes(s, close));
    if next_open(s, 0) < open {
        assert(pre[next_open(s, 0)] == '(');
    }
    let at = next_close(s, 0);
    if at < close {
        depth_in_list(pre, item, mid, inner, tail, post, at);
        let comma = open + 1 + item.len();
        let second = comma + 1 + mid.len();
        let end = second + 1 + inner.len();
        if open < at && at < comma {
            assert(s[at] == item[at - open - 1]);
        } else if comma < at && at < second {
            assert(s[at] == mid[at - comma - 1]);
        } else if end < at {
            assert(s[at] == tail[at - end - 1]);
        }
    }
    assert(s.take(open) =~= pre);
    assert(s.subrange(open + 1, close) =~= body);
    assert(s.skip(close + 1) =~= post);
}

proof fn depth_of_inner(head: Seq<char>, inner: Seq<char>, tail: Seq<char>, i: int)
    requires
        !occurs(head, '(') && !occurs(head, ')') && !occurs(head, '~'),
        !occurs(inner, '(') && !occurs(inner, ')') && !occurs(inner, '~'),
        !occurs(tail, '(') && !occurs(tail, ')') && !occurs(tail, '~'),
        0 <= i <= grouped(head, inner, tail).len(),
    ensures
        ({
            let s = grouped(head, inner, tail);
            let close = head.len() + 1 + inner.len();
            &&& !quoted(s, i)
            &&& depth_at(s, i) == if head.len() < i <= close {
                1nat
            } else {
                0
            }
        }),
    decreases i,
{
    let s = grouped(head, inner, tail);
    let close = head.len() + 1 + inner.len();
    if i <= close {
        group_depth(head, inner, tail, i);
    } else {
        depth_of_inner(head, inner, tail, i - 1);
        if i - 1 == close {
            assert(s[i - 1] == ')');
        } else {
            assert(s[i - 1] == tail[i - 1 - close - 1]);
        }
    }
}

proof fn list_in_list_is_cut(
    item: Seq<char>,
    mid: Seq<char>,
    inner: Seq<char>,
    tail: Seq<char>,
)
    requires
        is_unmarked(item),
        is_unmarked(mid),
        is_unmarked(tail),
        !occurs(inner, '(') && !occurs(inner, ')') && !occurs(inner, '~'),
    ensures
        parts_from(list_in_list(item, mid, inner, tail), 0) == seq![
            item,
            grouped(mid, inner, tail),
        ],
{
    let head = item + seq![','] + mid;
    let s = grouped(head, inner, tail);
    let n = item.len() as int;
    assert forall|c: char|
        c != ',' && !occurs(item, c) && !occurs(mid, c) implies !#[trigger] occurs(head, c) by {
        if occurs(head, c) {
            let j = choose|j: int| 0 <= j < head.len() && head[j] == c;
            if j < n {
                assert(item[j] == c);
            } else if j > n {
                assert(mid[j - n - 1] == c);
            }
        }
    }
    assert(s[n] == ',');
    assert forall|i: int| 0 <= i < s.len() implies #[trigger] cuts(s, i) == (i == n) by {
        depth_of_inner(head, inner, tail, i);
        if i < n {
            assert(s[i] == item[i]);
        } else if n < i && i < head.len() {
            assert(s[i] == mid[i - n - 1]);
        } else if i > head.len() + 1 + inner.len() {
            assert(s[i] == tail[i - head.len() - inner.len() - 2]);
        }
    }
    next_cut_bounds(s, 0);
    assert(cuts(s, n));
    assert(next_cut(s, 0) == n);
    next_cut_bounds(s, n + 1);
    assert(next_cut(s, n + 1) == s.len());
    assert(s.subrange(0, n) =~= item);
    assert(s.skip(n + 1) =~= grouped(mid, inner, tail));
    assert(parts_from(s, n + 1) == seq![s.skip(n + 1)]);
    assert(parts_from(s, 0) =~= seq![item, grouped(mid, inner, tail)]);
}

/// A list may lie in a list, between texts of its own: `(a,b-(c,d))` stands for `a`, `b-c` and
/// `b-d`, in this order.
pub proof fn lists_lie_in_lists(
    pre: Seq<char>,
    item: Seq<char>,
    mid: Seq<char>,
    items: Seq<Seq<char>>,
    tail: Seq<char>,
    post: Seq<char>,
    i: int,
)
    requires
        is_plain(pre),
        is_plain(post),
        is_plain(mid) && is_unmarked(mid),
        is_plain(tail) && is_unmarked(tail),
        is_unmarked(item),
        2 <= items.len() < 10_000,
        forall|k: int| 0 <= k < items.len() ==> is_unmarked(#[trigger] items[k]),
        0 <= i < items.len(),
    ensures
        ({
            let all = expansion(
                pre + seq!['('] + (item + seq![','] + mid + seq!['('] + joined_by(items, seq![','])
                    + seq![')'] + tail) + seq![')'] + post,
            );
            &&& all.len() == items.len() + 1
            &&& all[0] == pre + item + post
            &&& all[i + 1] == pre + (mid + items[i] + tail) + post
        }),
{
    let inner = joined_by(items, seq![',']);
    let body = list_in_list(item, mid, inner, tail);
    let s = grouped(pre, body, post);
    let second = grouped(mid, inner, tail);
    list_is_cut(items);
    items_are_gathered(Seq::empty(), items, 2);
    assert(Seq::<Seq<char>>::empty() + items =~= items);
    list_in_list_is_found(pre, item, mid, inner, tail, post);
    list_in_list_is_cut(item, mid, inner, tail);
    plain_literal(pre);
    plain_literal(post);
    plain_literal(mid);
    plain_literal(tail);
    no_parenthesis_no_group(post, 0);
    no_parenthesis_no_group(tail, 0);
    no_parenthesis_no_group(item, 0);
    nothing_to_drop(item);
    group_is_found(mid, inner, tail);
    assert(group_of(tail) is None && group_of(item) is None && group_of(post) is None);
    // The item by itself, and the list inside.
    assert(expanded(item, false, 1) == chained(nothing(), item, false, 1));
    assert(chained(nothing(), item, false, 1) == crossed(nothing(), leaf(item)));
    assert(expanded(item, false, 1) == seq![item]);
    assert(crossed(nothing(), literal(mid)) == seq![mid]);
    crossed_with_one_before(mid, items);
    let before = Seq::new(items.len(), |k: int| mid + items[k]);
    assert(chained(nothing(), second, false, 1) == chained(
        crossed(seq![mid], items),
        tail,
        true,
        1,
    ));
    assert(chained(before, tail, true, 1) == crossed(before, literal(tail)));
    crossed_with_one_after(before, tail);
    let inside = Seq::new(items.len(), |k: int| mid + items[k] + tail);
    assert(crossed(before, seq![tail]) =~= inside);
    assert(expanded(second, false, 1) == inside);
    // The two together.
    let parts = seq![item, second];
    assert(parts.skip(1) =~= seq![second]);
    assert(parts.skip(1)[0] == second);
    assert(parts.skip(1).skip(1) =~= Seq::<Seq<char>>::empty());
    let none = Seq::<Seq<char>>::empty();
    let values = seq![item] + inside;
    assert(none + seq![item] =~= seq![item]);
    assert(gathered(values, parts.skip(1).skip(1), false, 1) == values);
    assert(gathered(seq![item], parts.skip(1), false, 1) == gathered(
        seq![item] + inside,
        parts.skip(1).skip(1),
        false,
        1,
    ));
    assert(gathered(none, parts, false, 1) == gathered(none + seq![item], parts.skip(1), false, 1));
    assert(gathered(none, parts, false, 1) == values);
    // Between the texts outside.
    assert(crossed(nothing(), literal(pre)) == seq![pre]);
    crossed_with_one_before(pre, values);
    let left = Seq::new(values.len(), |k: int| pre + values[k]);
    assert(expanded(s, true, 0) == chained(nothing(), s, true, 0));
    assert(chained(nothing(), s, true, 0) == chained(crossed(seq![pre], values), post, true, 0));
    assert(chained(left, post, true, 0) == crossed(left, literal(post)));
    crossed_with_one_after(left, post);
    let all = Seq::new(left.len(), |k: int| left[k] + post);
    assert(expansion(s) =~= all);
    assert(values[0] == item && values[i + 1] == inside[i]);
}

proof fn numeral_is_plain(a: Seq<char>)
    requires
        all_digits(a),
    ensures
        ungrouped(a) == a,
        !occurs(a, '.') && is_unmarked(a),
    decreases a.len(),
{
    if a.len() > 0 {
        assert(is_digit_spec(a[a.len() - 1]));
        assert forall|i: int| 0 <= i < a.drop_last().len() implies is_digit_spec(
            #[trigger] a.drop_last()[i],
        ) by {
            assert(a.drop_last()[i] == a[i]);
        }
        numeral_is_plain(a.drop_last());
        assert(ungrouped(a) =~= a);
    }
    assert forall|i: int| 0 <= i < a.len() implies is_digit_spec(a[i]) by {}
}

proof fn cut_at_dots(a: Seq<char>, rest: Seq<char>)
    requires
        !occurs(a, '.'),
    ensures
        split_on(a + seq!['.', '.'] + rest, seq!['.', '.']) == seq![a] + split_on(
            rest,
            seq!['.', '.'],
        ),
        split_on(a, seq!['.', '.']) == seq![a],
{
    let dots = seq!['.', '.'];
    let s = a + dots + rest;
    let n = a.len() as int;
    first_match_bounds(s, dots, 0);
    first_match_bounds(a, dots, 0);
    let at = first_match(s, dots, 0);
    assert(s.subrange(n, n + 2) =~= dots);
    assert(stands_at(s, dots, n));
    if at < n {
        assert(s.subrange(at, at + 2)[0] == '.');
        assert(a[at] == '.');
    }
    assert(at == n);
    assert(s.take(n) =~= a);
    assert(s.skip(n + 2) =~= rest);
    let own = first_match(a, dots, 0);
    if own < a.len() {
        assert(a.subrange(own, own + 2)[0] == '.');
        assert(a[own] == '.');
    }
}

/// A range in digits: from `a` to `b` in steps of `c`, or of one where `c` is empty.
pub open spec fn range_text(a: Seq<char>, b: Seq<char>, c: Seq<char>) -> Seq<char> {
    if c.len() == 0 {
        a + seq!['.', '.'] + b
    } else {
        a + seq!['.', '.'] + b + seq!['.', '.'] + c
    }
}

/// Two ends and a step that a range may have.
pub open spec fn range_ends(a: Seq<char>, b: Seq<char>, c: Seq<char>) -> bool {
    &&& all_digits(a) && all_digits(b) && all_digits(c)
    &&& a.len() > 0 && b.len() > 0
    &&& value(a) <= i64::MAX && value(b) <= i64::MAX && value(c) <= i64::MAX
    &&& c.len() > 0 ==> value(c) > 0
}

/// The step that a range runs in.
pub open spec fn range_step(c: Seq<char>) -> int {
    if c.len() == 0 {
        1
    } else {
        value(c) as int
    }
}

proof fn range_is_read(a: Seq<char>, b: Seq<char>, c: Seq<char>)
    requires
        range_ends(a, b, c),
    ensures
        range_of(range_text(a, b, c)) == Some(
            RangeModel::Numeric {
                lo: value(a),
                hi: value(b),
                step: range_step(c) as nat,
                width: if a.len() > 1 && a[0] == '0' {
                    wider(a.len(), b.len())
                } else {
                    0
                },
            },
        ),
        is_unmarked(range_text(a, b, c)),
{
    let dots = seq!['.', '.'];
    let s = range_text(a, b, c);
    numeral_is_plain(a);
    numeral_is_plain(b);
    numeral_is_plain(c);
    cut_at_dots(b, c);
    cut_at_dots(c, c);
    if c.len() == 0 {
        cut_at_dots(a, b);
        assert(split_on(s, dots) =~= seq![a, b]);
    } else {
        cut_at_dots(a, b + dots + c);
        assert(s =~= a + dots + (b + dots + c));
        assert(split_on(s, dots) =~= seq![a, b, c]);
    }
    let parts = split_on(s, dots);
    assert(parts[0] == a && parts[1] == b);
    assert(is_digit_spec(a[0]));
    assert(!one_letter(a));
    assert(is_numeral(a) && is_numeral(b));
    if c.len() > 0 {
        assert(parts[2] == c);
        assert(is_numeral(c));
    }
    assert forall|m: char| m == '(' || m == ')' || m == ',' || m == '~' implies !#[trigger] occurs(
        s,
        m,
    ) by {
        if occurs(s, m) {
            let j = choose|j: int| 0 <= j < s.len() && s[j] == m;
            let x = a.len() as int;
            let y = x + 2 + b.len();
            if j < x {
                assert(a[j] == m);
            } else if x + 2 <= j && j < y {
                assert(b[j - x - 2] == m);
            } else if y + 2 <= j {
                assert(c[j - y - 2] == m);
            }
        }
    }
}

proof fn range_alone(a: Seq<char>, b: Seq<char>, c: Seq<char>)
    requires
        range_ends(a, b, c),
    ensures
        expansion(seq!['('] + range_text(a, b, c) + seq![')']) == literal(range_text(a, b, c)),
{
    let body = range_text(a, b, c);
    let none = Seq::<char>::empty();
    range_is_read(a, b, c);
    no_comma_no_cut(body, 0);
    assert(body.skip(0) =~= body);
    let parts = parts_from(body, 0);
    assert(parts =~= seq![body]);
    no_parenthesis_no_group(body, 0);
    let all = literal(body);
    assert(expanded(body, true, 1) == chained(nothing(), body, true, 1));
    assert(chained(nothing(), body, true, 1) == crossed(nothing(), all));
    assert(parts.skip(1) =~= Seq::<Seq<char>>::empty());
    assert(Seq::<Seq<char>>::empty() + all =~= all);
    assert(gathered(all, Seq::empty(), true, 1) == all);
    assert(gathered(Seq::empty(), parts, true, 1) == all);
    assert(split_on(none, seq!['.', '.']).len() == 1);
    assert(is_plain(none));
    group_between_texts(none, body, none);
    let s = seq!['('] + body + seq![')'];
    assert(grouped(none, body, none) =~= s);
    assert forall|i: int| 0 <= i < all.len() implies none + #[trigger] all[i] + none == all[i] by {
        assert(none + all[i] + none =~= all[i]);
    }
    assert(expansion(s) =~= all);
}

proof fn zeros_are_worth_nothing(k: nat, t: Seq<char>)
    requires
        all_digits(t),
    ensures
        value(Seq::new(k, |i: int| '0') + t) == value(t),
        all_digits(Seq::new(k, |i: int| '0') + t),
    decreases t.len(), k,
{
    let zeros = Seq::new(k, |i: int| '0');
    let s = zeros + t;
    if t.len() > 0 {
        assert(s.drop_last() =~= zeros + t.drop_last());
        assert(s.last() == t.last());
        assert forall|i: int| 0 <= i < t.drop_last().len() implies is_digit_spec(
            #[trigger] t.drop_last()[i],
        ) by {
            assert(t.drop_last()[i] == t[i]);
        }
        zeros_are_worth_nothing(k, t.drop_last());
    } else if k > 0 {
        assert(s.drop_last() =~= Seq::new((k - 1) as nat, |i: int| '0') + t);
        assert(s.last() == '0');
        zeros_are_worth_nothing((k - 1) as nat, t);
    }
}

/// A range of numbers, up or down, in steps: the values are numbers in digits that begin at the
/// first end and go on by the step, and they stop only where the next would lie past the other end,
/// which is one of them where a step reaches it. They are as wide as the wider end where the first
/// begins with a zero, and written plainly where it does not.
pub proof fn range_runs_from_end_to_end(a: Seq<char>, b: Seq<char>, c: Seq<char>)
    requires
        range_ends(a, b, c),
        value(b) - value(a) < 10_000 * range_step(c),
        value(a) - value(b) < 10_000 * range_step(c),
    ensures
        ({
            let values = expansion(seq!['('] + range_text(a, b, c) + seq![')']);
            let (lo, hi, step) = (value(a) as int, value(b) as int, range_step(c));
            let k = values.len();
            &&& k > 0
            &&& lo <= hi ==> lo + (k - 1) * step <= hi < lo + k * step
            &&& lo > hi ==> lo - (k - 1) * step >= hi > lo - k * step
            &&& forall|i: int|
                0 <= i < k ==> {
                    &&& all_digits(#[trigger] values[i])
                    &&& value(values[i]) == if lo <= hi {
                        lo + i * step
                    } else {
                        lo - i * step
                    }
                    &&& a.len() > 1 && a[0] == '0' ==> values[i].len() >= a.len()
                        && values[i].len() >= b.len()
                    &&& !(a.len() > 1 && a[0] == '0') ==> values[i] == decimal(value(values[i]))
                }
        }),
{
    let s = seq!['('] + range_text(a, b, c) + seq![')'];
    let values = expansion(s);
    let (lo, hi, step) = (value(a), value(b), range_step(c) as nat);
    let d = distance(lo, hi);
    range_is_read(a, b, c);
    range_alone(a, b, c);
    let size = d / step + 1;
    vstd::arithmetic::div_mod::lemma_fundamental_div_mod(d as int, step as int);
    vstd::arithmetic::div_mod::lemma_mod_bound(d as int, step as int);
    let q = (d / step) as int;
    assert(step as int * q == q * step) by (nonlinear_arith);
    assert(q < 10_000) by (nonlinear_arith)
        requires
            d < 10_000 * step,
            d >= q * step,
            step > 0,
    ;
    assert(values.len() == size);
    let k = values.len() as int;
    assert((k - 1) * step == q * step);
    assert(k * step == q * step + step) by (nonlinear_arith)
        requires
            k == q + 1,
    ;
    let width = if a.len() > 1 && a[0] == '0' {
        wider(a.len(), b.len())
    } else {
        0
    };
    assert forall|i: int| 0 <= i < k implies ({
        &&& all_digits(#[trigger] values[i])
        &&& value(values[i]) == if lo <= hi {
            lo + i * step
        } else {
            lo - i * step
        }
        &&& a.len() > 1 && a[0] == '0' ==> values[i].len() >= a.len() && values[i].len() >= b.len()
        &&& !(a.len() > 1 && a[0] == '0') ==> values[i] == decimal(value(values[i]))
    }) by {
        assert(i * step <= q * step) by (nonlinear_arith)
            requires
                0 <= i <= q,
                step > 0,
        ;
        assert(i * step >= 0) by (nonlinear_arith)
            requires
                0 <= i,
                step > 0,
        ;
        let n = toward(lo, hi, step, i) as nat;
        assert(values[i] == zero_padded(n, width));
        decimal_reads_back(n);
        let short = if decimal(n).len() < width {
            (width - decimal(n).len()) as nat
        } else {
            0
        };
        zeros_are_worth_nothing(short, decimal(n));
        if width == 0 {
            assert(values[i] =~= decimal(n));
        }
    }
}

/// A number in digits is one of the values of a range exactly where it lies between the ends, both
/// included, and so many whole steps from the first.
pub proof fn range_holds_what_its_steps_reach(a: Seq<char>, b: Seq<char>, c: Seq<char>, n: nat)
    requires
        range_ends(a, b, c),
        a.len() == 1 || a[0] != '0',
        value(b) - value(a) < 10_000 * range_step(c),
        value(a) - value(b) < 10_000 * range_step(c),
    ensures
        expansion(seq!['('] + range_text(a, b, c) + seq![')']).contains(decimal(n)) <==> {
            &&& value(a) <= n <= value(b) || value(b) <= n <= value(a)
            &&& (n - value(a)) % range_step(c) == 0
        },
{
    let values = expansion(seq!['('] + range_text(a, b, c) + seq![')']);
    let (lo, hi, step) = (value(a) as int, value(b) as int, range_step(c));
    let k = values.len() as int;
    range_runs_from_end_to_end(a, b, c);
    decimal_reads_back(n);
    if values.contains(decimal(n)) {
        let i = choose|i: int| 0 <= i < k && values[i] == decimal(n);
        assert(n == if lo <= hi {
            lo + i * step
        } else {
            lo - i * step
        });
        assert(0 <= i * step <= (k - 1) * step) by (nonlinear_arith)
            requires
                0 <= i <= k - 1,
                step > 0,
        ;
        if lo <= hi {
            vstd::arithmetic::div_mod::lemma_mod_multiples_basic(i, step);
        } else {
            vstd::arithmetic::div_mod::lemma_mod_multiples_basic(-i, step);
            assert(-i * step == -(i * step)) by (nonlinear_arith);
        }
    }
    if (lo <= n <= hi || hi <= n <= lo) && (n - lo) % step == 0 {
        let away = n - lo;
        vstd::arithmetic::div_mod::lemma_fundamental_div_mod(away, step);
        let m = away / step;
        assert(away == step * m);
        let i = if lo <= hi {
            m
        } else {
            -m
        };
        assert(i * step == if lo <= hi {
            away
        } else {
            -away
        }) by (nonlinear_arith)
            requires
                away == step * m,
                i == if lo <= hi {
                    m
                } else {
                    -m
                },
        ;
        assert(0 <= i < k) by (nonlinear_arith)
            requires
                0 <= i * step,
                i * step < k * step,
                step > 0,
        ;
        assert(value(values[i]) == n);
        assert(values[i] == decimal(n));
    }
}

/// A range of numbers in parentheses is asked of a column by its two ends exactly where it runs in
/// steps of one and neither end begins with a zero that it does not need.
pub proof fn plain_ranges_are_known_by_their_ends(a: Seq<char>, b: Seq<char>, c: Seq<char>)
    requires
        range_ends(a, b, c),
    ensures
        integer_range(seq!['('] + range_text(a, b, c) + seq![')']) == (if range_step(c) == 1 && (
        a.len() == 1 || a[0] != '0') && (b.len() == 1 || b[0] != '0') {
            if value(a) <= value(b) {
                Some((value(a), value(b)))
            } else {
                Some((value(b), value(a)))
            }
        } else {
            None
        }),
{
    let body = range_text(a, b, c);
    let s = seq!['('] + body + seq![')'];
    let dots = seq!['.', '.'];
    range_is_read(a, b, c);
    assert(s.subrange(1, s.len() - 1) =~= body);
    numeral_is_plain(a);
    numeral_is_plain(b);
    numeral_is_plain(c);
    cut_at_dots(b, c);
    cut_at_dots(c, c);
    if c.len() == 0 {
        cut_at_dots(a, b);
        assert(split_on(body, dots) =~= seq![a, b]);
    } else {
        cut_at_dots(a, b + dots + c);
        assert(body =~= a + dots + (b + dots + c));
        assert(split_on(body, dots) =~= seq![a, b, c]);
    }
    assert(split_on(body, dots)[0] == a && split_on(body, dots)[1] == b);
}

/// Two letters with two dots between them stand for the letters from one to the other, in their
/// order in the alphabet's code.
pub proof fn letters_run_from_one_to_the_other(from: char, to: char)
    requires
        is_letter_spec(from),
        is_letter_spec(to),
    ensures
        ({
            let values = expansion(seq!['(', from, '.', '.', to, ')']);
            &&& values.len() == if from <= to {
                to as int - from as int + 1
            } else {
                from as int - to as int + 1
            }
            &&& forall|i: int|
                0 <= i < values.len() ==> (#[trigger] values[i]).len() == 1 && values[i][0] as int
                    == if from <= to {
                    from as int + i
                } else {
                    from as int - i
                }
        }),
{
    let dots = seq!['.', '.'];
    let body = seq![from] + dots + seq![to];
    let none = Seq::<char>::empty();
    assert(!occurs(seq![from], '.')) by {
        assert(seq![from][0] != '.');
    }
    assert(!occurs(seq![to], '.')) by {
        assert(seq![to][0] != '.');
    }
    cut_at_dots(seq![from], seq![to]);
    cut_at_dots(seq![to], none);
    let pieces = split_on(body, dots);
    assert(pieces =~= seq![seq![from], seq![to]]);
    assert(pieces[0] == seq![from] && pieces[1] == seq![to]);
    assert(one_letter(pieces[0]) && one_letter(pieces[1]));
    assert(range_of(body) == Some(RangeModel::Alpha { from, to }));
    assert forall|m: char| m == '(' || m == ')' || m == ',' || m == '~' implies !#[trigger] occurs(
        body,
        m,
    ) by {
        if occurs(body, m) {
            let j = choose|j: int| 0 <= j < body.len() && body[j] == m;
            assert(j == 0 || j == 1 || j == 2 || j == 3);
        }
    }
    no_comma_no_cut(body, 0);
    assert(body.skip(0) =~= body);
    let parts = parts_from(body, 0);
    assert(parts =~= seq![body]);
    no_parenthesis_no_group(body, 0);
    let all = literal(body);
    assert(expanded(body, true, 1) == chained(nothing(), body, true, 1));
    assert(chained(nothing(), body, true, 1) == crossed(nothing(), all));
    assert(parts.skip(1) =~= Seq::<Seq<char>>::empty());
    assert(Seq::<Seq<char>>::empty() + all =~= all);
    assert(gathered(all, Seq::empty(), true, 1) == all);
    assert(gathered(Seq::empty(), parts, true, 1) == all);
    assert(split_on(none, dots).len() == 1);
    assert(is_plain(none));
    group_between_texts(none, body, none);
    let s = seq!['(', from, '.', '.', to, ')'];
    assert(grouped(none, body, none) =~= s);
    assert forall|i: int| 0 <= i < all.len() implies none + #[trigger] all[i] + none == all[i] by {
        assert(none + all[i] + none =~= all[i]);
    }
    assert(expansion(s) =~= all);
    assert forall|i: int| 0 <= i < all.len() implies (#[trigger] all[i]).len() == 1 && all[i][0] as int
        == if from <= to {
        from as int + i
    } else {
        from as int - i
    } by {
        let n = toward(from as nat, to as nat, 1, i);
        assert(65 <= n <= 122);
        assert((n as u8 as char) as int == n);
    }
}

// The table function.

/// The table function `parexp(pattern)`, one row for each value of its pattern.
pub struct Parexp;

/// What a call of the table function is bound to: the values it hands out.
pub struct ParexpBind {
    pub values: Vec<String>,
}

/// How far a call of the table function has come.
pub struct ParexpInit {
    pub cursor: usize,
}

/// The rows that a chunk of `capacity` rows takes from `start` on, of `len` in all: the first
/// and the one after the last.
pub open spec fn chunk(start: int, capacity: int, len: int) -> Option<(int, int)> {
    if start >= len {
        None
    } else if start + capacity <= len {
        Some((start, start + capacity))
    } else {
        Some((start, len))
    }
}

impl Parexp {
    /// Binds a call to its pattern.
    pub fn bind(pattern: &str) -> (r: ParexpBind)
        ensures
            views(r.values@) == expansion(pattern@),
    {
        ParexpBind { values: expand(pattern) }
    }

    /// A call that has handed out nothing yet.
    pub fn init() -> (r: ParexpInit)
        ensures
            r.cursor == 0,
    {
        ParexpInit { cursor: 0 }
    }

    /// Moves on by a chunk of `capacity` rows and tells which rows it holds: the first and the
    /// one after the last, or nothing at the end.
    pub fn func(bind: &ParexpBind, init: &mut ParexpInit, capacity: usize) -> (r: Option<
        (usize, usize),
    >)
        ensures
            match r {
                Some((from, to)) => chunk(
                    old(init).cursor as int,
                    capacity as int,
                    bind.values@.len() as int,
                ) == Some((from as int, to as int)),
                None => chunk(
                    old(init).cursor as int,
                    capacity as int,
                    bind.values@.len() as int,
                ) is None,
            },
            final(init).cursor as int == if old(init).cursor + capacity <= usize::MAX {
                old(init).cursor + capacity
            } else {
                old(init).cursor + capacity - usize::MAX - 1
            },
    {
        let start = init.cursor;
        init.cursor = start.wrapping_add(capacity);
        let len = bind.values.len();
        if start >= len {
            return None;
        }
        if capacity <= len - start {
            Some((start, start + capacity))
        } else {
            Some((start, len))
        }
    }
}

/// Chunk after chunk, every row is handed out once: row `i` in the chunk at `i / capacity` and
/// in no other.
pub proof fn every_row_once(len: nat, capacity: nat, i: nat, n: nat)
    requires
        capacity > 0,
        i < len,
    ensures
        (chunk((n * capacity) as int, capacity as int, len as int) matches Some((from, to)) && from <= i
            < to) <==> n == i / capacity,
{
    let q = (i / capacity) as int;
    let c = capacity as int;
    vstd::arithmetic::div_mod::lemma_fundamental_div_mod(i as int, c);
    vstd::arithmetic::div_mod::lemma_mod_bound(i as int, c);
    assert(c * q == q * c) by (nonlinear_arith);
    assert(q * c <= i < q * c + c);
    if n < q {
        assert(n * c + c <= q * c) by (nonlinear_arith)
            requires
                n + 1 <= q,
                c > 0,
        ;
    } else if n > q {
        assert(n * c >= q * c + c) by (nonlinear_arith)
            requires
                n >= q + 1,
                c > 0,
        ;
    }
}

} // verus!
