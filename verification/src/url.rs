//! Reading a request from its path.

use std::sync::Arc;
use vstd::prelude::*;

use crate::dataset::{is_source, looks_like_source};
use crate::encodings::{encoding_of, resolve_encoding, UTF8};
use crate::formats::{
    asked, asked_of, ends_in, format_of, longest_ends, longest_offered, Format, OutputDef,
};
use crate::grammar::{
    action_at, action_at_bounds, answers, filter_at, filter_at_bounds, is_reserved, is_token,
    is_token_char, option_at, option_of, reserved, takes, token, ActionDef, Declared, Grammar,
    OptModel, Param, SegmentDef,
};
use crate::parexp::{depth_at, quoted, MAX_DEPTH};
use crate::text::{
    chars_of, decimal, decimal_text, holds, is_digit, is_letter, is_letter_spec, joined, lower_spec,
    lowered, occurs, part, same, string_of, to_lower, views, views_empty, views_push,
};

verus! {

/// The encoding that a source is read in where a request names none.
pub const DEFAULT_ENCODING: &'static str = UTF8;

/// The most filters that a request may have.
pub const MAX_FILTERS: usize = 50;

/// The most actions that a request may have.
pub const MAX_ACTIONS: usize = 10;

/// The most options that an action may have.
pub const MAX_OPTIONS: usize = 20;

/// A filter or an option, under its canonical name, with its parameters.
#[derive(Debug, Clone, PartialEq)]
pub struct Segment {
    pub name: String,
    pub params: Vec<String>,
}

/// What a segment is.
pub struct SegmentModel {
    pub name: Seq<char>,
    pub params: Seq<Seq<char>>,
}

impl View for Segment {
    type V = SegmentModel;

    open spec fn view(&self) -> SegmentModel {
        SegmentModel { name: self.name@, params: views(self.params@) }
    }
}

/// An action, under its canonical name, with its options.
#[derive(Debug, Clone, PartialEq)]
pub struct Action {
    pub name: String,
    pub segments: Vec<Segment>,
}

/// What an action is.
pub struct ActionModel {
    pub name: Seq<char>,
    pub segments: Seq<SegmentModel>,
}

impl View for Action {
    type V = ActionModel;

    open spec fn view(&self) -> ActionModel {
        ActionModel { name: self.name@, segments: views(self.segments@) }
    }
}

/// A request. Its format is there where its extension is one that every grammar has.
#[derive(Debug, Clone, PartialEq)]
pub struct ParsedUrl {
    pub dataset: String,
    pub path: Option<String>,
    pub encoding: String,
    pub filters: Vec<Segment>,
    pub actions: Vec<Action>,
    pub format: Option<Format>,
    pub extension: &'static str,
}

/// What a request is.
pub struct ParsedModel {
    pub dataset: Seq<char>,
    pub path: Option<Seq<char>>,
    pub encoding: Seq<char>,
    pub filters: Seq<SegmentModel>,
    pub actions: Seq<ActionModel>,
    pub format: Option<Format>,
    pub extension: Seq<char>,
}

impl View for ParsedUrl {
    type V = ParsedModel;

    open spec fn view(&self) -> ParsedModel {
        ParsedModel {
            dataset: self.dataset@,
            path: match self.path {
                Some(path) => Some(path@),
                None => None,
            },
            encoding: self.encoding@,
            filters: views(self.filters@),
            actions: views(self.actions@),
            format: self.format,
            extension: self.extension@,
        }
    }
}

/// Why a path is not a request.
#[derive(Debug, PartialEq)]
pub enum ParseError<S = String> {
    Empty,
    EmptyOptionValue(S),
    EmptySourceValue,
    InvalidName(S),
    InvalidPath(S),
    MisplacedOption(S),
    MissingOutputSegment,
    MissingSourcePrefix,
    RepeatedOption(S),
    UnknownFormat(S),
    UnknownOption(S),
    UnknownSource(S),
    UnknownAction(S),
    ActionWithoutOptions(S),
    MisplacedAction(S),
    TooManyActions,
    TooManyOptions,
    MalformedEncoding(S),
    MisplacedSourceOption(S),
    OptionTakesOneValue(S),
    WrongParameterCount(S),
    TooManyFilters,
    UnbalancedValue(S),
    ValueTooDeep(S),
}

impl ParseError {
    pub open spec fn model(self) -> ParseError<Seq<char>> {
        match self {
            ParseError::Empty => ParseError::Empty,
            ParseError::EmptyOptionValue(s) => ParseError::EmptyOptionValue(s@),
            ParseError::EmptySourceValue => ParseError::EmptySourceValue,
            ParseError::InvalidName(s) => ParseError::InvalidName(s@),
            ParseError::InvalidPath(s) => ParseError::InvalidPath(s@),
            ParseError::MisplacedOption(s) => ParseError::MisplacedOption(s@),
            ParseError::MissingOutputSegment => ParseError::MissingOutputSegment,
            ParseError::MissingSourcePrefix => ParseError::MissingSourcePrefix,
            ParseError::RepeatedOption(s) => ParseError::RepeatedOption(s@),
            ParseError::UnknownFormat(s) => ParseError::UnknownFormat(s@),
            ParseError::UnknownOption(s) => ParseError::UnknownOption(s@),
            ParseError::UnknownSource(s) => ParseError::UnknownSource(s@),
            ParseError::UnknownAction(s) => ParseError::UnknownAction(s@),
            ParseError::ActionWithoutOptions(s) => ParseError::ActionWithoutOptions(s@),
            ParseError::MisplacedAction(s) => ParseError::MisplacedAction(s@),
            ParseError::TooManyActions => ParseError::TooManyActions,
            ParseError::TooManyOptions => ParseError::TooManyOptions,
            ParseError::MalformedEncoding(s) => ParseError::MalformedEncoding(s@),
            ParseError::MisplacedSourceOption(s) => ParseError::MisplacedSourceOption(s@),
            ParseError::OptionTakesOneValue(s) => ParseError::OptionTakesOneValue(s@),
            ParseError::WrongParameterCount(s) => ParseError::WrongParameterCount(s@),
            ParseError::TooManyFilters => ParseError::TooManyFilters,
            ParseError::UnbalancedValue(s) => ParseError::UnbalancedValue(s@),
            ParseError::ValueTooDeep(s) => ParseError::ValueTooDeep(s@),
        }
    }
}

// Names and paths.

/// `c` may stand in a path inside an archive.
pub open spec fn is_path_char(c: char) -> bool {
    is_token_char(c) || c == '/' || c == '~' || c == '(' || c == ')'
}

/// `s` may be a path inside an archive.
pub open spec fn valid_path(s: Seq<char>) -> bool {
    s.len() > 0 && forall|i: int| 0 <= i < s.len() ==> is_path_char(#[trigger] s[i])
}

/// Whether `s` may be a path inside an archive.
pub fn is_valid_path(s: &str) -> (r: bool)
    ensures
        r == valid_path(s@),
{
    let v = chars_of(s);
    let mut i: usize = 0;
    while i < v.len()
        invariant
            i <= v@.len(),
            v@ == s@,
            forall|j: int| 0 <= j < i ==> is_path_char(#[trigger] v@[j]),
        decreases v@.len() - i,
    {
        let c = v[i];
        if !(is_letter(c) || is_digit(c) || c == '_' || c == '-' || c == '.' || c == '/' || c == '~'
            || c == '(' || c == ')') {
            return false;
        }
        i += 1;
    }
    v.len() > 0
}

/// Whether `s` may be the name of a dataset: letters, digits, dots, dashes and underscores.
pub fn is_valid_name(s: &str) -> (r: bool)
    ensures
        r == is_token(s@),
{
    token(s)
}

// Values.

/// How many more groups have been opened than closed before position `i` of `s`.
pub open spec fn balance(s: Seq<char>, i: int) -> int
    decreases i,
{
    if i <= 0 {
        0
    } else {
        let before = balance(s, i - 1);
        if quoted(s, i - 1) {
            before
        } else if s[i - 1] == '(' {
            before + 1
        } else if s[i - 1] == ')' {
            before - 1
        } else {
            before
        }
    }
}

/// The first position after `i` at which more groups have been closed than opened, or more are
/// open than may be; past the end where there is none.
pub open spec fn out_of_bounds(s: Seq<char>, i: int) -> int
    decreases s.len() - i,
{
    if i >= s.len() {
        s.len() as int + 1
    } else if balance(s, i + 1) < 0 || balance(s, i + 1) > MAX_DEPTH {
        i + 1
    } else {
        out_of_bounds(s, i + 1)
    }
}

/// What is wrong with a value: a group or a tilde without its counterpart, or groups too deep.
pub open spec fn value_fault(s: Seq<char>) -> Option<ParseError<Seq<char>>> {
    let at = out_of_bounds(s, 0);
    if at <= s.len() && balance(s, at) < 0 {
        Some(ParseError::UnbalancedValue(s))
    } else if at <= s.len() {
        Some(ParseError::ValueTooDeep(s))
    } else if balance(s, s.len() as int) == 0 && !quoted(s, s.len() as int) {
        None
    } else {
        Some(ParseError::UnbalancedValue(s))
    }
}

fn validate_value(value: &str) -> (r: Result<(), ParseError>)
    ensures
        match (r, value_fault(value@)) {
            (Err(e), Some(want)) => e.model() == want,
            (Ok(_), None) => true,
            _ => false,
        },
{
    let v = chars_of(value);
    let mut depth: i32 = 0;
    let mut in_tilde = false;
    let mut i: usize = 0;
    while i < v.len()
        invariant
            i <= v@.len(),
            v@ == value@,
            0 <= depth <= MAX_DEPTH,
            depth as int == balance(v@, i as int),
            in_tilde == quoted(v@, i as int),
            out_of_bounds(v@, 0) == out_of_bounds(v@, i as int),
        decreases v@.len() - i,
    {
        let c = v[i];
        if c == '~' {
            in_tilde = !in_tilde;
        } else if c == '(' && !in_tilde {
            depth += 1;
        } else if c == ')' && !in_tilde {
            depth -= 1;
        }
        if depth < 0 {
            return Err(ParseError::UnbalancedValue(value.to_owned()));
        }
        if depth as usize > MAX_DEPTH {
            return Err(ParseError::ValueTooDeep(value.to_owned()));
        }
        i += 1;
    }
    if depth == 0 && !in_tilde {
        Ok(())
    } else {
        Err(ParseError::UnbalancedValue(value.to_owned()))
    }
}

/// A value that is no fault is read alike by the parser and by the expansion: no group closes
/// that did not open.
pub proof fn sound_value_has_matching_groups(s: Seq<char>, i: int)
    requires
        value_fault(s) is None,
        0 <= i <= s.len(),
    ensures
        depth_at(s, i) == balance(s, i),
        depth_at(s, i) <= MAX_DEPTH,
    decreases i,
{
    if i > 0 {
        sound_value_has_matching_groups(s, i - 1);
        in_bounds(s, 0, i);
    }
}

proof fn in_bounds(s: Seq<char>, from: int, i: int)
    requires
        0 <= from < i <= s.len(),
        out_of_bounds(s, from) > s.len(),
    ensures
        0 <= balance(s, i) <= MAX_DEPTH,
    decreases i - from,
{
    if from + 1 < i {
        in_bounds(s, from + 1, i);
    }
}

// Scanning.

/// The first position, from `from` on, of one of `stops`; the end where there is none.
pub open spec fn stop_at(s: Seq<char>, stops: Seq<char>, from: int) -> int
    decreases s.len() - from,
{
    if from >= s.len() {
        s.len() as int
    } else if occurs(stops, s[from]) {
        from
    } else {
        stop_at(s, stops, from + 1)
    }
}

pub proof fn stop_at_bounds(s: Seq<char>, stops: Seq<char>, from: int)
    requires
        0 <= from <= s.len(),
    ensures
        from <= stop_at(s, stops, from) <= s.len(),
        stop_at(s, stops, from) < s.len() ==> occurs(stops, s[stop_at(s, stops, from)]),
        forall|i: int| from <= i < stop_at(s, stops, from) ==> !occurs(stops, #[trigger] s[i]),
    decreases s.len() - from,
{
    if from < s.len() && !occurs(stops, s[from]) {
        stop_at_bounds(s, stops, from + 1);
    }
}

/// What ends a name.
pub open spec fn name_stops() -> Seq<char> {
    seq![':', ',', '/']
}

/// The name that `s` begins with.
pub open spec fn name_of(s: Seq<char>) -> Seq<char> {
    s.take(stop_at(s, name_stops(), 0))
}

/// `s` after the name that it begins with.
pub open spec fn after_name(s: Seq<char>) -> Seq<char> {
    s.skip(stop_at(s, name_stops(), 0))
}

/// A value ends at `i`: outside any group and any pair of tildes.
pub open spec fn ends_value(s: Seq<char>, i: int) -> bool {
    occurs(name_stops(), s[i]) && !quoted(s, i) && depth_at(s, i) == 0
}

/// The first position, from `from` on, at which a value ends.
pub open spec fn value_end(s: Seq<char>, from: int) -> int
    decreases s.len() - from,
{
    if from >= s.len() {
        s.len() as int
    } else if ends_value(s, from) {
        from
    } else {
        value_end(s, from + 1)
    }
}

pub proof fn value_end_bounds(s: Seq<char>, from: int)
    requires
        0 <= from <= s.len(),
    ensures
        from <= value_end(s, from) <= s.len(),
        value_end(s, from) < s.len() ==> ends_value(s, value_end(s, from)),
    decreases s.len() - from,
{
    if from < s.len() && !ends_value(s, from) {
        value_end_bounds(s, from + 1);
    }
}

/// `s` begins with `c`.
pub open spec fn leads(s: Seq<char>, c: char) -> bool {
    s.len() > 0 && s[0] == c
}

/// The values that `s` begins with, each after a colon.
pub open spec fn params_of(s: Seq<char>) -> Seq<Seq<char>>
    decreases s.len(),
    via params_of_shrinks
{
    if leads(s, ':') {
        let rest = s.skip(1);
        let end = value_end(rest, 0);
        seq![rest.take(end)] + params_of(rest.skip(end))
    } else {
        Seq::empty()
    }
}

#[via_fn]
proof fn params_of_shrinks(s: Seq<char>) {
    if leads(s, ':') {
        value_end_bounds(s.skip(1), 0);
    }
}

/// `s` after the values that it begins with.
pub open spec fn after_params(s: Seq<char>) -> Seq<char>
    decreases s.len(),
    via after_params_shrinks
{
    if leads(s, ':') {
        let rest = s.skip(1);
        after_params(rest.skip(value_end(rest, 0)))
    } else {
        s
    }
}

#[via_fn]
proof fn after_params_shrinks(s: Seq<char>) {
    if leads(s, ':') {
        value_end_bounds(s.skip(1), 0);
    }
}

pub proof fn after_params_shorter(s: Seq<char>)
    ensures
        after_params(s).len() <= s.len(),
    decreases s.len(),
{
    if leads(s, ':') {
        let rest = s.skip(1);
        value_end_bounds(rest, 0);
        after_params_shorter(rest.skip(value_end(rest, 0)));
    }
}

struct Scan {
    text: Vec<char>,
    at: usize,
}

impl Scan {
    spec fn wf(self) -> bool {
        self.at <= self.text@.len()
    }

    spec fn rest(self) -> Seq<char> {
        self.text@.skip(self.at as int)
    }

    fn leads(&self, c: char) -> (r: bool)
        requires
            self.wf(),
        ensures
            r == leads(self.rest(), c),
    {
        self.at < self.text.len() && self.text[self.at] == c
    }

    fn eat(&mut self, c: char) -> (r: bool)
        requires
            old(self).wf(),
        ensures
            final(self).wf(),
            final(self).text == old(self).text,
            r == leads(old(self).rest(), c),
            final(self).rest() == if r {
                old(self).rest().skip(1)
            } else {
                old(self).rest()
            },
    {
        if self.leads(c) {
            assert(self.at < self.text.len());
            self.at += 1;
            assert(self.rest() =~= old(self).rest().skip(1));
            return true;
        }
        false
    }

    fn advance(&mut self, by: usize)
        requires
            old(self).wf(),
            by <= old(self).rest().len(),
        ensures
            final(self).wf(),
            final(self).text == old(self).text,
            final(self).rest() == old(self).rest().skip(by as int),
    {
        assert(self.at + by <= self.text.len());
        self.at += by;
        assert(self.rest() =~= old(self).rest().skip(by as int));
    }

    fn take_until(&mut self, stops: &[char]) -> (r: String)
        requires
            old(self).wf(),
        ensures
            final(self).wf(),
            final(self).text == old(self).text,
            r@ == old(self).rest().take(stop_at(old(self).rest(), stops@, 0)),
            final(self).rest() == old(self).rest().skip(stop_at(old(self).rest(), stops@, 0)),
    {
        let ghost before = self.rest();
        let from = self.at;
        while self.at < self.text.len() && !holds(stops, self.text[self.at])
            invariant
                self.wf(),
                self.text == old(self).text,
                from == old(self).at,
                from <= self.at,
                before == old(self).rest(),
                before == self.text@.skip(from as int),
                stop_at(before, stops@, 0) == stop_at(before, stops@, self.at - from),
            decreases self.text@.len() - self.at,
        {
            self.at += 1;
        }
        let r = string_of(part(self.text.as_slice(), from, self.at));
        assert(r@ =~= before.take(self.at - from));
        assert(self.rest() =~= before.skip(self.at - from));
        r
    }

    fn take_value(&mut self) -> (r: String)
        requires
            old(self).wf(),
        ensures
            final(self).wf(),
            final(self).text == old(self).text,
            r@ == old(self).rest().take(value_end(old(self).rest(), 0)),
            final(self).rest() == old(self).rest().skip(value_end(old(self).rest(), 0)),
    {
        let ghost before = self.rest();
        let from = self.at;
        let mut depth: usize = 0;
        let mut in_tilde = false;
        let mut more = true;
        let stops: [char; 3] = [':', ',', '/'];
        assert(stops@ =~= name_stops());
        while more && self.at < self.text.len()
            invariant
                self.wf(),
                self.text == old(self).text,
                from == old(self).at,
                from <= self.at,
                before == old(self).rest(),
                before == self.text@.skip(from as int),
                stops@ == name_stops(),
                depth <= self.at - from,
                depth as nat == depth_at(before, self.at - from),
                in_tilde == quoted(before, self.at - from),
                value_end(before, 0) == value_end(before, self.at - from),
                !more ==> self.at < self.text@.len() && ends_value(before, self.at - from),
            decreases self.text@.len() - self.at + (if more {
                1int
            } else {
                0
            }),
        {
            let c = self.text[self.at];
            assert(c == before[self.at - from]);
            if depth == 0 && !in_tilde && holds(&stops, c) {
                more = false;
            } else {
                if c == '~' {
                    in_tilde = !in_tilde;
                } else if c == '(' && !in_tilde {
                    depth += 1;
                } else if c == ')' && !in_tilde && depth > 0 {
                    depth -= 1;
                }
                self.at += 1;
            }
        }
        let r = string_of(part(self.text.as_slice(), from, self.at));
        assert(r@ =~= before.take(self.at - from));
        assert(self.rest() =~= before.skip(self.at - from));
        r
    }
}

fn take_name(scan: &mut Scan) -> (r: String)
    requires
        old(scan).wf(),
    ensures
        final(scan).wf(),
        final(scan).text == old(scan).text,
        r@ == name_of(old(scan).rest()),
        final(scan).rest() == after_name(old(scan).rest()),
{
    let stops: [char; 3] = [':', ',', '/'];
    assert(stops@ =~= name_stops());
    scan.take_until(&stops)
}

fn read_params(scan: &mut Scan) -> (r: Vec<String>)
    requires
        old(scan).wf(),
    ensures
        final(scan).wf(),
        final(scan).text == old(scan).text,
        views(r@) == params_of(old(scan).rest()),
        final(scan).rest() == after_params(old(scan).rest()),
{
    broadcast use views_push, views_empty;

    let ghost start = scan.rest();
    let mut params: Vec<String> = Vec::new();
    assert(views(params@) + params_of(start) =~= params_of(start));
    while scan.eat(':')
        invariant
            scan.wf(),
            scan.text == old(scan).text,
            views(params@) + params_of(scan.rest()) == params_of(start),
            after_params(scan.rest()) == after_params(start),
        decreases scan.rest().len(),
    {
        let ghost rest = scan.rest();
        let ghost before = views(params@);
        let value = scan.take_value();
        proof {
            value_end_bounds(rest, 0);
        }
        params.push(value);
        assert(before + (seq![value@] + params_of(scan.rest())) =~= views(params@) + params_of(
            scan.rest(),
        ));
    }
    assert(views(params@) + Seq::<Seq<char>>::empty() =~= views(params@));
    params
}

// Filters and options.

/// One of `params` is empty.
pub open spec fn any_empty(params: Seq<Seq<char>>) -> bool {
    exists|i: int| 0 <= i < params.len() && (#[trigger] params[i]).len() == 0
}

/// What is wrong with the first of `params`, from `from` on, with which anything is.
pub open spec fn values_fault(params: Seq<Seq<char>>, from: int) -> Option<ParseError<Seq<char>>>
    decreases params.len() - from,
{
    if from >= params.len() {
        None
    } else if value_fault(params[from]) is Some {
        value_fault(params[from])
    } else {
        values_fault(params, from + 1)
    }
}

fn has_empty(params: &Vec<String>) -> (r: bool)
    ensures
        r == any_empty(views(params@)),
{
    let ghost all = views(params@);
    let mut i: usize = 0;
    while i < params.len()
        invariant
            i <= params@.len(),
            all == views(params@),
            forall|j: int| 0 <= j < i ==> (#[trigger] all[j]).len() > 0,
        decreases params@.len() - i,
    {
        assert(all[i as int] == params@[i as int]@);
        if params[i].as_str().is_empty() {
            return true;
        }
        i += 1;
    }
    false
}

fn validate_all(params: &Vec<String>) -> (r: Result<(), ParseError>)
    ensures
        match (r, values_fault(views(params@), 0)) {
            (Err(e), Some(want)) => e.model() == want,
            (Ok(_), None) => true,
            _ => false,
        },
{
    let ghost all = views(params@);
    let mut i: usize = 0;
    while i < params.len()
        invariant
            i <= params@.len(),
            all == views(params@),
            values_fault(all, 0) == values_fault(all, i as int),
        decreases params@.len() - i,
    {
        assert(all[i as int] == params@[i as int]@);
        match validate_value(params[i].as_str()) {
            Ok(_) => {},
            Err(e) => {
                return Err(e);
            },
        }
        i += 1;
    }
    Ok(())
}

/// A filter or an option written as `key` with `params`, where its definition is called `name`
/// and takes `shapes`.
pub open spec fn segment_of(
    key: Seq<char>,
    params: Seq<Seq<char>>,
    name: Seq<char>,
    shapes: Seq<Seq<Param>>,
) -> Result<SegmentModel, ParseError<Seq<char>>> {
    if any_empty(params) || (params.len() == 0 && !takes(shapes, 0)) {
        Err(ParseError::EmptyOptionValue(key))
    } else if values_fault(params, 0) is Some {
        Err(values_fault(params, 0)->0)
    } else if !takes(shapes, params.len()) {
        Err(ParseError::WrongParameterCount(key))
    } else {
        Ok(SegmentModel { name, params })
    }
}

fn finish_segment<D: Declared>(key: &str, params: Vec<String>, def: &D) -> (r: Result<
    Segment,
    ParseError,
>)
    ensures
        match (
            r,
            segment_of(key@, views(params@), def.declared_name(), def.declared_shapes()),
        ) {
            (Ok(segment), Ok(want)) => segment@ == want,
            (Err(e), Err(want)) => e.model() == want,
            _ => false,
        },
{
    if has_empty(&params) || (params.len() == 0 && !def.accepts(0)) {
        return Err(ParseError::EmptyOptionValue(key.to_owned()));
    }
    match validate_all(&params) {
        Ok(_) => {},
        Err(e) => {
            return Err(e);
        },
    }
    if !def.accepts(params.len()) {
        return Err(ParseError::WrongParameterCount(key.to_owned()));
    }
    Ok(Segment { name: def.canonical().to_owned(), params })
}

/// The encoding and the filters that `s` gives, each after a comma, on top of those given before
/// it, and what comes after them. The encoding may be given once, before any filter.
pub open spec fn options_of(
    s: Seq<char>,
    filters: Seq<SegmentDef>,
    encoding: Option<Seq<char>>,
    given: Seq<SegmentModel>,
) -> Result<(Option<Seq<char>>, Seq<SegmentModel>, Seq<char>), ParseError<Seq<char>>>
    decreases s.len(),
    via options_of_shrinks
{
    if !leads(s, ',') {
        Ok((encoding, given, s))
    } else {
        let key = name_of(s.skip(1));
        let params = params_of(after_name(s.skip(1)));
        let rest = after_params(after_name(s.skip(1)));
        let at = filter_at(filters, key, 0);
        if is_reserved(key) {
            if params.len() == 0 || any_empty(params) {
                Err(ParseError::EmptyOptionValue(key))
            } else if values_fault(params, 0) is Some {
                Err(values_fault(params, 0)->0)
            } else if params.len() != 1 {
                Err(ParseError::OptionTakesOneValue(key))
            } else if given.len() > 0 {
                Err(ParseError::MisplacedSourceOption(key))
            } else if encoding is Some {
                Err(ParseError::RepeatedOption(key))
            } else {
                options_of(rest, filters, Some(params[0]), given)
            }
        } else if at >= filters.len() {
            Err(ParseError::UnknownOption(key))
        } else {
            match segment_of(key, params, filters[at].name@, views(filters[at].shapes@)) {
                Err(e) => Err(e),
                Ok(segment) => if given.len() == MAX_FILTERS {
                    Err(ParseError::TooManyFilters)
                } else {
                    options_of(rest, filters, encoding, given.push(segment))
                },
            }
        }
    }
}

#[via_fn]
proof fn options_of_shrinks(
    s: Seq<char>,
    filters: Seq<SegmentDef>,
    encoding: Option<Seq<char>>,
    given: Seq<SegmentModel>,
) {
    if leads(s, ',') {
        stop_at_bounds(s.skip(1), name_stops(), 0);
        after_params_shorter(after_name(s.skip(1)));
    }
}

fn read_options(scan: &mut Scan, grammar: &Grammar) -> (r: Result<
    (Option<String>, Vec<Segment>),
    ParseError,
>)
    requires
        old(scan).wf(),
    ensures
        final(scan).wf(),
        match (r, options_of(old(scan).rest(), grammar.filters@, None, Seq::empty())) {
            (Ok((encoding, filters)), Ok((want, given, rest))) => {
                &&& match (encoding, want) {
                    (Some(label), Some(want)) => label@ == want,
                    (None, None) => true,
                    _ => false,
                }
                &&& views(filters@) == given
                &&& final(scan).rest() == rest
            },
            (Err(e), Err(want)) => e.model() == want,
            _ => false,
        },
{
    broadcast use views_push, views_empty;

    let ghost start = scan.rest();
    let mut encoding: Option<String> = None;
    let mut filters: Vec<Segment> = Vec::new();
    loop
        invariant
            scan.wf(),
            start == old(scan).rest(),
            filters@.len() <= MAX_FILTERS,
            options_of(start, grammar.filters@, None, Seq::empty()) == options_of(
                scan.rest(),
                grammar.filters@,
                match encoding {
                    Some(label) => Some(label@),
                    None => None,
                },
                views(filters@),
            ),
        decreases scan.rest().len(),
    {
        let ghost before = scan.rest();
        if !scan.eat(',') {
            return Ok((encoding, filters));
        }
        let key = take_name(scan);
        let ghost named = scan.rest();
        let spec = grammar.filter_for(key.as_str());
        let kept = reserved(key.as_str());
        if spec.is_none() && !kept {
            return Err(ParseError::UnknownOption(key));
        }
        let params = read_params(scan);
        proof {
            stop_at_bounds(before.skip(1), name_stops(), 0);
            after_params_shorter(named);
        }
        if kept {
            if params.len() == 0 || has_empty(&params) {
                return Err(ParseError::EmptyOptionValue(key));
            }
            match validate_all(&params) {
                Ok(_) => {},
                Err(e) => {
                    return Err(e);
                },
            }
            if params.len() != 1 {
                return Err(ParseError::OptionTakesOneValue(key));
            }
            if filters.len() > 0 {
                return Err(ParseError::MisplacedSourceOption(key));
            }
            if encoding.is_some() {
                return Err(ParseError::RepeatedOption(key));
            }
            assert(views(params@)[0] == params@[0]@);
            encoding = Some(params[0].clone());
        } else {
            match spec {
                Some(def) => {
                    match finish_segment(key.as_str(), params, def) {
                        Ok(segment) => {
                            if filters.len() == MAX_FILTERS {
                                return Err(ParseError::TooManyFilters);
                            }
                            let ghost given = views(filters@);
                            filters.push(segment);
                            assert(views(filters@) == given.push(segment@));
                        },
                        Err(e) => {
                            return Err(e);
                        },
                    }
                },
                None => {},
            }
        }
    }
}

/// One of `given` is called `name`.
pub open spec fn is_given(given: Seq<SegmentModel>, name: Seq<char>) -> bool {
    exists|i: int| 0 <= i < given.len() && (#[trigger] given[i]).name == name
}

/// The options that `s` gives to an action called `action`, after those given before it, and what
/// comes after them. No option may be given twice.
pub open spec fn action_options(
    s: Seq<char>,
    action: Seq<char>,
    options: Seq<OptModel>,
    given: Seq<SegmentModel>,
) -> Result<(Seq<SegmentModel>, Seq<char>), ParseError<Seq<char>>>
    decreases s.len(),
    via action_options_shrinks
{
    let key = name_of(s);
    let params = params_of(after_name(s));
    let rest = after_params(after_name(s));
    if key.len() == 0 {
        Err(ParseError::ActionWithoutOptions(action))
    } else {
        match option_of(options, key) {
            None => Err(ParseError::UnknownOption(key)),
            Some(option) => match segment_of(key, params, option.name, option.shapes) {
                Err(e) => Err(e),
                Ok(segment) => if is_given(given, segment.name) {
                    Err(ParseError::RepeatedOption(segment.name))
                } else if given.len() == MAX_OPTIONS {
                    Err(ParseError::TooManyOptions)
                } else if leads(rest, ',') {
                    action_options(rest.skip(1), action, options, given.push(segment))
                } else {
                    Ok((given.push(segment), rest))
                },
            },
        }
    }
}

#[via_fn]
proof fn action_options_shrinks(
    s: Seq<char>,
    action: Seq<char>,
    options: Seq<OptModel>,
    given: Seq<SegmentModel>,
) {
    stop_at_bounds(s, name_stops(), 0);
    after_params_shorter(after_name(s));
}

fn given_already(given: &Vec<Segment>, name: &str) -> (r: bool)
    ensures
        r == is_given(views(given@), name@),
{
    let ghost all = views(given@);
    let mut i: usize = 0;
    while i < given.len()
        invariant
            i <= given@.len(),
            all == views(given@),
            forall|j: int| 0 <= j < i ==> (#[trigger] all[j]).name != name@,
        decreases given@.len() - i,
    {
        assert(all[i as int] == given@[i as int]@);
        if same(given[i].name.as_str(), name) {
            return true;
        }
        i += 1;
    }
    false
}

fn read_action_segments(scan: &mut Scan, def: &ActionDef) -> (r: Result<Vec<Segment>, ParseError>)
    requires
        old(scan).wf(),
    ensures
        final(scan).wf(),
        match (
            r,
            action_options(
                old(scan).rest(),
                def.action.spec_name(),
                def.action.spec_options(),
                Seq::empty(),
            ),
        ) {
            (Ok(segments), Ok((given, rest))) => views(segments@) == given && final(scan).rest()
                == rest,
            (Err(e), Err(want)) => e.model() == want,
            _ => false,
        },
{
    broadcast use views_push, views_empty;

    let ghost start = scan.rest();
    let ghost action = def.action.spec_name();
    let ghost options = def.action.spec_options();
    let mut out: Vec<Segment> = Vec::new();
    loop
        invariant
            scan.wf(),
            start == old(scan).rest(),
            action == def.action.spec_name(),
            options == def.action.spec_options(),
            out@.len() <= MAX_OPTIONS,
            action_options(start, action, options, Seq::empty()) == action_options(
                scan.rest(),
                action,
                options,
                views(out@),
            ),
        decreases scan.rest().len(),
    {
        proof {
            stop_at_bounds(scan.rest(), name_stops(), 0);
            after_params_shorter(after_name(scan.rest()));
        }
        let key = take_name(scan);
        if key.as_str().is_empty() {
            return Err(ParseError::ActionWithoutOptions(def.canonical().to_owned()));
        }
        let option = match def.option(key.as_str()) {
            Some(option) => option,
            None => {
                return Err(ParseError::UnknownOption(key));
            },
        };
        let params = read_params(scan);
        let segment = match finish_segment(key.as_str(), params, &option) {
            Ok(segment) => segment,
            Err(e) => {
                return Err(e);
            },
        };
        if given_already(&out, segment.name.as_str()) {
            return Err(ParseError::RepeatedOption(segment.name));
        }
        if out.len() == MAX_OPTIONS {
            return Err(ParseError::TooManyOptions);
        }
        let ghost sofar = views(out@);
        out.push(segment);
        assert(views(out@) == sofar.push(segment@));
        if !scan.eat(',') {
            return Ok(out);
        }
    }
}

// Actions.

/// The word that follows the marker `/@` at `at`.
pub open spec fn marked(s: Seq<char>, at: int) -> Seq<char> {
    let rest = s.skip(at + 2);
    rest.take(stop_at(rest, seq!['/'], 0))
}

/// A registered action is marked at `i`.
pub open spec fn marks(s: Seq<char>, actions: Seq<ActionDef>, i: int) -> bool {
    i + 1 < s.len() && s[i] == '/' && s[i + 1] == '@' && action_at(actions, marked(s, i), 0)
        < actions.len()
}

/// The first position, from `from` on, at which a registered action is marked; the end where there
/// is none.
pub open spec fn marker_at(s: Seq<char>, actions: Seq<ActionDef>, from: int) -> int
    decreases s.len() - from,
{
    if from >= s.len() {
        s.len() as int
    } else if marks(s, actions, from) {
        from
    } else {
        marker_at(s, actions, from + 1)
    }
}

proof fn marker_at_bounds(s: Seq<char>, actions: Seq<ActionDef>, from: int)
    requires
        0 <= from <= s.len(),
    ensures
        from <= marker_at(s, actions, from) <= s.len(),
        marker_at(s, actions, from) < s.len() ==> marks(s, actions, marker_at(s, actions, from)),
    decreases s.len() - from,
{
    if from < s.len() && !marks(s, actions, from) {
        marker_at_bounds(s, actions, from + 1);
    }
}

/// The word from `at` up to the next slash.
fn word_from(s: &[char], at: usize) -> (r: String)
    requires
        at <= s@.len(),
    ensures
        r@ == s@.skip(at as int).take(stop_at(s@.skip(at as int), seq!['/'], 0)),
{
    let ghost rest = s@.skip(at as int);
    let mut end: usize = at;
    while end < s.len() && s[end] != '/'
        invariant
            at <= end <= s@.len(),
            rest == s@.skip(at as int),
            stop_at(rest, seq!['/'], 0) == stop_at(rest, seq!['/'], end - at),
        decreases s@.len() - end,
    {
        assert(rest[end - at] == s@[end as int]);
        end += 1;
    }
    proof {
        if end < s@.len() {
            assert(rest[end - at] == s@[end as int]);
            assert(seq!['/'][0] == '/');
        }
    }
    let r = string_of(part(s, at, end));
    assert(r@ =~= rest.take(end - at));
    r
}

fn find_marker(s: &[char], grammar: &Grammar) -> (r: usize)
    ensures
        r as int == marker_at(s@, grammar.actions@, 0),
        r <= s@.len(),
{
    let mut i: usize = 0;
    while i < s.len()
        invariant
            i <= s@.len(),
            marker_at(s@, grammar.actions@, 0) == marker_at(s@, grammar.actions@, i as int),
        decreases s@.len() - i,
    {
        if s[i] == '/' && s.len() - i > 1 && s[i + 1] == '@' {
            let word = word_from(s, i + 2);
            if grammar.action_for(word.as_str()).is_some() {
                return i;
            }
        }
        i += 1;
    }
    i
}

/// `s` begins with an action: a marker, a word and a slash.
pub open spec fn leads_action(s: Seq<char>) -> bool {
    let rest = s.skip(2);
    let end = stop_at(rest, seq!['/'], 0);
    s.len() >= 2 && s[0] == '/' && s[1] == '@' && 0 < end < rest.len()
}

proof fn action_options_shorter(
    s: Seq<char>,
    action: Seq<char>,
    options: Seq<OptModel>,
    given: Seq<SegmentModel>,
)
    ensures
        action_options(s, action, options, given) matches Ok((_, rest)) ==> rest.len() <= s.len(),
    decreases s.len(),
{
    stop_at_bounds(s, name_stops(), 0);
    after_params_shorter(after_name(s));
    let rest = after_params(after_name(s));
    if name_of(s).len() > 0 && leads(rest, ',') {
        match option_of(options, name_of(s)) {
            Some(option) => match segment_of(
                name_of(s),
                params_of(after_name(s)),
                option.name,
                option.shapes,
            ) {
                Ok(segment) => action_options_shorter(
                    rest.skip(1),
                    action,
                    options,
                    given.push(segment),
                ),
                Err(e) => {},
            },
            None => {},
        }
    }
}

/// The actions that `s` gives, after those given before it, and what comes after them.
pub open spec fn actions_of(s: Seq<char>, actions: Seq<ActionDef>, given: Seq<ActionModel>) -> Result<
    (Seq<ActionModel>, Seq<char>),
    ParseError<Seq<char>>,
>
    decreases s.len(),
    via actions_of_shrinks
{
    if !leads_action(s) {
        Ok((given, s))
    } else {
        let word = marked(s, 0);
        let at = action_at(actions, word, 0);
        if at >= actions.len() {
            Err(ParseError::UnknownAction(word))
        } else {
            let name = actions[at].action.spec_name();
            match action_options(
                s.skip(word.len() as int + 3),
                name,
                actions[at].action.spec_options(),
                Seq::empty(),
            ) {
                Err(e) => Err(e),
                Ok((segments, rest)) => if given.len() == MAX_ACTIONS {
                    Err(ParseError::TooManyActions)
                } else {
                    actions_of(rest, actions, given.push(ActionModel { name, segments }))
                },
            }
        }
    }
}

#[via_fn]
proof fn actions_of_shrinks(s: Seq<char>, actions: Seq<ActionDef>, given: Seq<ActionModel>) {
    if leads_action(s) {
        let word = marked(s, 0);
        let at = action_at(actions, word, 0);
        stop_at_bounds(s.skip(2), seq!['/'], 0);
        action_options_shorter(
            s.skip(word.len() as int + 3),
            actions[at].action.spec_name(),
            actions[at].action.spec_options(),
            Seq::empty(),
        );
    }
}

fn read_actions(scan: &mut Scan, grammar: &Grammar) -> (r: Result<Vec<Action>, ParseError>)
    requires
        old(scan).wf(),
    ensures
        final(scan).wf(),
        match (r, actions_of(old(scan).rest(), grammar.actions@, Seq::empty())) {
            (Ok(actions), Ok((given, rest))) => views(actions@) == given && final(scan).rest()
                == rest,
            (Err(e), Err(want)) => e.model() == want,
            _ => false,
        },
{
    broadcast use views_push, views_empty;

    let ghost start = scan.rest();
    let mut actions: Vec<Action> = Vec::new();
    loop
        invariant
            scan.wf(),
            start == old(scan).rest(),
            actions@.len() <= MAX_ACTIONS,
            actions_of(start, grammar.actions@, Seq::empty()) == actions_of(
                scan.rest(),
                grammar.actions@,
                views(actions@),
            ),
        decreases scan.rest().len(),
    {
        let ghost before = scan.rest();
        let name = match scan.action_name() {
            Some(name) => name,
            None => {
                return Ok(actions);
            },
        };
        let def = match grammar.action_for(name.as_str()) {
            Some(def) => def,
            None => {
                return Err(ParseError::UnknownAction(name));
            },
        };
        let len = name.as_str().unicode_len();
        proof {
            stop_at_bounds(before.skip(2), seq!['/'], 0);
            assert(name@.len() == stop_at(before.skip(2), seq!['/'], 0));
            assert(scan.text.len() >= before.len());
            action_options_shorter(
                before.skip(len + 3),
                def.action.spec_name(),
                def.action.spec_options(),
                Seq::empty(),
            );
        }
        scan.advance(len + 3);
        let segments = match read_action_segments(scan, def) {
            Ok(segments) => segments,
            Err(e) => {
                return Err(e);
            },
        };
        if actions.len() == MAX_ACTIONS {
            return Err(ParseError::TooManyActions);
        }
        let ghost given = views(actions@);
        let action = Action { name: def.canonical().to_owned(), segments };
        actions.push(action);
        assert(views(actions@) == given.push(action@));
    }
}

impl Scan {
    /// The name of the action that comes next, if one does.
    fn action_name(&self) -> (r: Option<String>)
        requires
            self.wf(),
        ensures
            match r {
                Some(name) => leads_action(self.rest()) && name@ == marked(self.rest(), 0),
                None => !leads_action(self.rest()),
            },
    {
        let n = self.text.len();
        if n - self.at < 2 || self.text[self.at] != '/' || self.text[self.at + 1] != '@' {
            return None;
        }
        assert(self.text@.skip(self.at as int + 2) =~= self.rest().skip(2));
        let word = word_from(self.text.as_slice(), self.at + 2);
        let len = word.as_str().unicode_len();
        proof {
            stop_at_bounds(self.rest().skip(2), seq!['/'], 0);
        }
        if len > 0 && len < n - self.at - 2 {
            Some(word)
        } else {
            None
        }
    }
}

// Paths inside an archive.

/// Where the last part of `path` ends, from the one that begins at `from` on, that names a file
/// that can be read; `best` where there is none.
pub open spec fn readable_end(path: Seq<char>, from: int, best: Option<int>) -> Option<int>
    decreases path.len() - from,
    via readable_end_shrinks
{
    if from < 0 || from > path.len() {
        best
    } else {
        let end = stop_at(path, seq!['/'], from);
        let found = if is_source(path.subrange(from, end)) {
            Some(end)
        } else {
            best
        };
        if end < path.len() {
            readable_end(path, end + 1, found)
        } else {
            found
        }
    }
}

#[via_fn]
proof fn readable_end_shrinks(path: Seq<char>, from: int, best: Option<int>) {
    if 0 <= from <= path.len() {
        stop_at_bounds(path, seq!['/'], from);
    }
}

/// `path` without the name of a download after it: up to the last part that names a file that can
/// be read, or all of it where none does.
pub open spec fn without_filename(path: Seq<char>) -> Seq<char> {
    match readable_end(path, 0, None) {
        Some(end) => path.take(end),
        None => path,
    }
}

/// A part of `path` begins at `from` and ends at `to`: there is no slash in it, and one or the end of
/// the path on each side.
pub open spec fn is_part(path: Seq<char>, from: int, to: int) -> bool {
    &&& 0 <= from <= to <= path.len()
    &&& from == 0 || path[from - 1] == '/'
    &&& to == path.len() || path[to] == '/'
    &&& forall|i: int| from <= i < to ==> #[trigger] path[i] != '/'
}

/// A part of `path` that ends at `to` names a file that can be read.
pub open spec fn readable_part(path: Seq<char>, from: int, to: int) -> bool {
    is_part(path, from, to) && is_source(path.subrange(from, to))
}

proof fn readable_end_is_the_last(path: Seq<char>, from: int, best: Option<int>)
    requires
        0 <= from <= path.len(),
        from == 0 || path[from - 1] == '/',
    ensures
        ({
            let r = readable_end(path, from, best);
            ||| r == best && forall|b: int, e: int|
                from <= b ==> !#[trigger] readable_part(path, b, e)
            ||| r is Some && (exists|b: int| from <= b && #[trigger] readable_part(path, b, r->0))
                && forall|b: int, e: int|
                from <= b && #[trigger] readable_part(path, b, e) ==> e <= r->0
        }),
    decreases path.len() - from,
{
    let slash = seq!['/'];
    stop_at_bounds(path, slash, from);
    let end = stop_at(path, slash, from);
    assert forall|i: int| from <= i < end implies #[trigger] path[i] != '/' by {
        assert(!occurs(slash, path[i]));
        assert(slash[0] == '/');
    }
    if end < path.len() {
        assert(occurs(slash, path[end]));
    }
    assert(is_part(path, from, end));
    let found = if is_source(path.subrange(from, end)) {
        Some(end)
    } else {
        best
    };
    let r = readable_end(path, from, best);
    assert forall|b: int, e: int| from <= b && #[trigger] is_part(path, b, e) implies (b == from
        && e == end) || end < b by {
        if b == from {
            if e < end {
                assert(path[e] != '/');
            } else if e > end {
                assert(path[end] == '/');
            }
        } else if b <= end {
            assert(path[b - 1] != '/');
        }
    }
    if end < path.len() {
        readable_end_is_the_last(path, end + 1, found);
        assert(r == readable_end(path, end + 1, found));
        if forall|b: int, e: int| end + 1 <= b ==> !#[trigger] readable_part(path, b, e) {
            if is_source(path.subrange(from, end)) {
                assert(readable_part(path, from, end));
            }
        }
    } else if is_source(path.subrange(from, end)) {
        assert(readable_part(path, from, end));
    }
}

/// What is left of a path is the path up to the end of its last part that names a file that can be
/// read, or all of it where none does; nothing more is taken off when it is done again.
pub proof fn filename_is_taken_off_once(path: Seq<char>)
    ensures
        ({
            let left = without_filename(path);
            ||| left == path && forall|b: int, e: int| !#[trigger] readable_part(path, b, e)
            ||| exists|b: int, e: int| #[trigger]
                readable_part(path, b, e) && left == path.take(e) && forall|c: int, f: int|
                    #[trigger] readable_part(path, c, f) ==> f <= e
        }),
        without_filename(without_filename(path)) == without_filename(path),
{
    readable_end_is_the_last(path, 0, None);
    match readable_end(path, 0, None) {
        Some(end) => {
            let b = choose|b: int| 0 <= b && #[trigger] readable_part(path, b, end);
            let left = path.take(end);
            assert(left.subrange(b, end) =~= path.subrange(b, end));
            assert(readable_part(left, b, end));
            readable_end_is_the_last(left, 0, None);
            let again = readable_end(left, 0, None);
            assert(again == Some(end));
            assert(left.take(end) =~= left);
        },
        None => {},
    }
}

/// How much of a path is left without the name of a download after it: up to its last part that
/// names a file that can be read, or all of it. Of what is left nothing more is taken off.
pub fn trim_filename(path: &[char]) -> (r: usize)
    ensures
        r <= path@.len(),
        path@.take(r as int) == without_filename(path@),
        without_filename(path@.take(r as int)) == path@.take(r as int),
{
    let total: usize = path.len();
    let mut at: usize = 0;
    let mut readable: Option<usize> = None;
    loop
        invariant
            at <= total,
            total == path@.len(),
            readable matches Some(end) ==> end <= path@.len(),
            readable_end(path@, 0, None) == readable_end(
                path@,
                at as int,
                match readable {
                    Some(end) => Some(end as int),
                    None => None,
                },
            ),
        decreases path@.len() - at,
    {
        let word = word_from(path, at);
        let len = word.as_str().unicode_len();
        proof {
            stop_at_skip(path@, seq!['/'], at as int, at as int);
            stop_at_bounds(path@, seq!['/'], at as int);
            assert(word@ =~= path@.subrange(at as int, at + len));
        }
        let end: usize = at + len;
        if looks_like_source(word.as_str()) {
            readable = Some(end);
        }
        if end < total {
            at = end + 1;
        } else {
            proof {
                filename_is_taken_off_once(path@);
            }
            return match readable {
                Some(end) => end,
                None => {
                    assert(path@.take(path@.len() as int) =~= path@);
                    total
                },
            };
        }
    }
}

/// Scanning from the middle of a text finds what scanning its rest finds.
proof fn stop_at_skip(s: Seq<char>, stops: Seq<char>, by: int, from: int)
    requires
        0 <= by <= from <= s.len(),
    ensures
        stop_at(s, stops, from) == by + stop_at(s.skip(by), stops, from - by),
    decreases s.len() - from,
{
    if from < s.len() {
        assert(s.skip(by)[from - by] == s[from]);
        if !occurs(stops, s[from]) {
            stop_at_skip(s, stops, by, from + 1);
        }
    }
}

/// The path inside an archive that `s` begins with, after a colon, and what comes after it.
pub open spec fn subpath_of(s: Seq<char>, actions: Seq<ActionDef>) -> Result<
    (Option<Seq<char>>, Seq<char>),
    ParseError<Seq<char>>,
> {
    let rest = s.skip(1);
    let value = rest.take(stop_at(rest, seq![','], 0));
    let bounded = value.take(marker_at(value, actions, 0));
    let path = without_filename(bounded);
    if !leads(s, ':') {
        Ok((None, s))
    } else if bounded.len() == 0 {
        Err(ParseError::EmptySourceValue)
    } else if !valid_path(path) {
        Err(ParseError::InvalidPath(path))
    } else {
        Ok((Some(path), rest.skip(path.len() as int)))
    }
}

fn read_subpath(scan: &mut Scan, grammar: &Grammar) -> (r: Result<Option<String>, ParseError>)
    requires
        old(scan).wf(),
    ensures
        final(scan).wf(),
        final(scan).text == old(scan).text,
        match (r, subpath_of(old(scan).rest(), grammar.actions@)) {
            (Ok(path), Ok((want, rest))) => {
                &&& match (path, want) {
                    (Some(path), Some(want)) => path@ == want,
                    (None, None) => true,
                    _ => false,
                }
                &&& final(scan).rest() == rest
            },
            (Err(e), Err(want)) => e.model() == want,
            _ => false,
        },
{
    if !scan.eat(':') {
        return Ok(None);
    }
    let ghost rest = scan.rest();
    let from = scan.at;
    let stops: [char; 1] = [','];
    assert(stops@ =~= seq![',']);
    let value = scan.take_until(&stops);
    let chars = chars_of(value.as_str());
    let marker = find_marker(chars.as_slice(), grammar);
    if marker == 0 {
        return Err(ParseError::EmptySourceValue);
    }
    let bounded = part(chars.as_slice(), 0, marker);
    assert(bounded@ =~= value@.take(marker as int));
    let len = trim_filename(bounded);
    let path = string_of(part(bounded, 0, len));
    assert(path@ =~= without_filename(bounded@));
    proof {
        stop_at_bounds(rest, seq![','], 0);
        assert(scan.text.len() >= from + len);
    }
    if !is_valid_path(path.as_str()) {
        return Err(ParseError::InvalidPath(path));
    }
    scan.at = from + len;
    assert(scan.rest() =~= rest.skip(path@.len() as int));
    Ok(Some(path))
}

/// What is wrong with the name of a download, if `s` is one after a slash: it names an action, or
/// holds one, or holds an option.
pub open spec fn tail_fault(s: Seq<char>, actions: Seq<ActionDef>) -> Option<ParseError<Seq<char>>> {
    let name = s.skip(1);
    let bare = action_at(actions, name.skip(1), 0);
    let marker = marker_at(name, actions, 0);
    if !leads(s, '/') {
        None
    } else if leads(name, '@') && bare < actions.len() {
        Some(ParseError::ActionWithoutOptions(actions[bare].action.spec_name()))
    } else if marker < name.len() {
        Some(
            ParseError::MisplacedAction(
                actions[action_at(actions, marked(name, marker), 0)].action.spec_name(),
            ),
        )
    } else if occurs(name, ',') || occurs(name, ':') {
        Some(ParseError::MisplacedOption(name))
    } else {
        None
    }
}

fn check_tail(scan: &Scan, grammar: &Grammar) -> (r: Result<(), ParseError>)
    requires
        scan.wf(),
    ensures
        match (r, tail_fault(scan.rest(), grammar.actions@)) {
            (Err(e), Some(want)) => e.model() == want,
            (Ok(_), None) => true,
            _ => false,
        },
{
    if !scan.leads('/') {
        return Ok(());
    }
    assert(scan.at < scan.text.len());
    let name = part(scan.text.as_slice(), scan.at + 1, scan.text.len());
    assert(name@ =~= scan.rest().skip(1));
    if name.len() > 0 && name[0] == '@' {
        let bare = string_of(part(name, 1, name.len()));
        assert(bare@ =~= name@.skip(1));
        match grammar.action_for(bare.as_str()) {
            Some(def) => {
                return Err(ParseError::ActionWithoutOptions(def.canonical().to_owned()));
            },
            None => {},
        }
    }
    let marker = find_marker(name, grammar);
    if marker < name.len() {
        proof {
            marker_at_bounds(name@, grammar.actions@, 0);
        }
        let word = word_from(name, marker + 2);
        match grammar.action_for(word.as_str()) {
            Some(def) => {
                return Err(ParseError::MisplacedAction(def.canonical().to_owned()));
            },
            None => {},
        }
    }
    if holds(name, ',') || holds(name, ':') {
        return Err(ParseError::MisplacedOption(string_of(name)));
    }
    Ok(())
}

// Requests.

/// `s` without the slashes that it begins with.
pub open spec fn without_slashes(s: Seq<char>) -> Seq<char>
    decreases s.len(),
{
    if leads(s, '/') {
        without_slashes(s.skip(1))
    } else {
        s
    }
}

/// `s` after its last dot.
pub open spec fn after_last_dot(s: Seq<char>) -> Seq<char>
    decreases s.len(),
{
    if s.len() == 0 || s.last() == '.' {
        Seq::empty()
    } else {
        after_last_dot(s.drop_last()).push(s.last())
    }
}

/// What a path says before its extension: the source, the filters and the actions.
pub open spec fn request_of(
    s: Seq<char>,
    extension: Seq<char>,
    format: Option<Format>,
    filters: Seq<SegmentDef>,
    actions: Seq<ActionDef>,
) -> Result<ParsedModel, ParseError<Seq<char>>> {
    let kind = s.skip(1).take(stop_at(s.skip(1), seq![':'], 0));
    let rest = s.skip(1).skip(stop_at(s.skip(1), seq![':'], 0));
    if !leads(s, '@') {
        Err(ParseError::MissingSourcePrefix)
    } else if kind != "dataset"@ && kind != "ds"@ {
        Err(ParseError::UnknownSource(kind))
    } else if !leads(rest, ':') {
        Err(ParseError::EmptySourceValue)
    } else {
        dataset_of(rest.skip(1), extension, format, filters, actions)
    }
}

/// What a path says after the kind of its source: the name of the dataset, the path inside an
/// archive, the encoding and the filters, the actions, and the name of the download.
pub open spec fn dataset_of(
    s: Seq<char>,
    extension: Seq<char>,
    format: Option<Format>,
    filters: Seq<SegmentDef>,
    actions: Seq<ActionDef>,
) -> Result<ParsedModel, ParseError<Seq<char>>> {
    let name = name_of(s);
    if name.len() == 0 {
        Err(ParseError::EmptySourceValue)
    } else if !is_token(name) {
        Err(ParseError::InvalidName(name))
    } else {
        match subpath_of(after_name(s), actions) {
            Err(e) => Err(e),
            Ok((path, rest)) => match options_of(rest, filters, None, Seq::empty()) {
                Err(e) => Err(e),
                Ok((label, given, rest)) => match actions_of(rest, actions, Seq::empty()) {
                    Err(e) => Err(e),
                    Ok((done, rest)) => if tail_fault(rest, actions) is Some {
                        Err(tail_fault(rest, actions)->0)
                    } else if label is Some && encoding_of(label->0) is None {
                        Err(ParseError::MalformedEncoding(label->0))
                    } else {
                        Ok(
                            ParsedModel {
                                dataset: name,
                                path,
                                encoding: match label {
                                    Some(label) => encoding_of(label)->0,
                                    None => "UTF-8"@,
                                },
                                filters: given,
                                actions: done,
                                format,
                                extension,
                            },
                        )
                    },
                },
            },
        }
    }
}

/// The request that a path makes of a grammar with these filters, actions and outputs.
pub open spec fn parsed_of(
    url: Seq<char>,
    filters: Seq<SegmentDef>,
    actions: Seq<ActionDef>,
    outputs: Seq<Arc<OutputDef>>,
) -> Result<ParsedModel, ParseError<Seq<char>>> {
    let path = without_slashes(url);
    if path.len() == 0 {
        Err(ParseError::Empty)
    } else {
        match asked_of(path, outputs) {
            Some((source, extension, format)) => request_of(
                source,
                extension,
                format,
                filters,
                actions,
            ),
            None => Err(
                if occurs(path, '.') {
                    ParseError::UnknownFormat(lowered(after_last_dot(path)))
                } else {
                    ParseError::MissingOutputSegment
                },
            ),
        }
    }
}

/// `url` without the slashes that it begins with.
pub fn trim_slashes(url: &str) -> (r: String)
    ensures
        r@ == without_slashes(url@),
{
    let v = chars_of(url);
    let mut i: usize = 0;
    assert(url@.skip(0) =~= url@);
    while i < v.len() && v[i] == '/'
        invariant
            i <= v@.len(),
            v@ == url@,
            without_slashes(url@) == without_slashes(url@.skip(i as int)),
        decreases v@.len() - i,
    {
        assert(url@.skip(i as int).skip(1) =~= url@.skip(i as int + 1));
        i += 1;
    }
    let r = string_of(part(v.as_slice(), i, v.len()));
    assert(r@ =~= url@.skip(i as int));
    r
}

fn last_dot_rest(path: &str) -> (r: Option<String>)
    ensures
        match r {
            Some(ext) => occurs(path@, '.') && ext@ == after_last_dot(path@),
            None => !occurs(path@, '.'),
        },
{
    let v = chars_of(path);
    if !holds(v.as_slice(), '.') {
        return None;
    }
    let mut i: usize = v.len();
    assert(path@.take(path@.len() as int) =~= path@);
    assert(path@.skip(path@.len() as int) =~= Seq::<char>::empty());
    assert(after_last_dot(path@) =~= after_last_dot(path@) + path@.skip(path@.len() as int));
    while i > 0 && v[i - 1] != '.'
        invariant
            i <= v@.len(),
            v@ == path@,
            after_last_dot(path@) == after_last_dot(path@.take(i as int)) + path@.skip(i as int),
        decreases i,
    {
        let ghost head = path@.take(i as int);
        assert(head.drop_last() =~= path@.take(i as int - 1));
        assert(after_last_dot(head) + path@.skip(i as int) =~= after_last_dot(
            path@.take(i as int - 1),
        ) + path@.skip(i as int - 1));
        i -= 1;
    }
    let r = string_of(part(v.as_slice(), i, v.len()));
    assert(r@ =~= path@.skip(i as int));
    assert(after_last_dot(path@.take(i as int)) =~= Seq::<char>::empty());
    assert(r@ =~= after_last_dot(path@));
    Some(r)
}

/// Reads a request from a path, by what a grammar lets it say.
pub fn parse(url: &str, grammar: &Grammar) -> (r: Result<ParsedUrl, ParseError>)
    ensures
        match (r, parsed_of(url@, grammar.filters@, grammar.actions@, grammar.outputs@)) {
            (Ok(parsed), Ok(want)) => parsed@ == want,
            (Err(e), Err(want)) => e.model() == want,
            _ => false,
        },
{
    let url = trim_slashes(url);
    if url.as_str().is_empty() {
        return Err(ParseError::Empty);
    }
    let (source, extension, format) = match asked(url.as_str(), grammar) {
        Some(split) => split,
        None => {
            return Err(
                match last_dot_rest(url.as_str()) {
                    Some(ext) => ParseError::UnknownFormat(to_lower(ext.as_str())),
                    None => ParseError::MissingOutputSegment,
                },
            );
        },
    };
    let mut scan = Scan { text: chars_of(source.as_str()), at: 0 };
    assert(scan.rest() =~= source@);
    if !scan.eat('@') {
        return Err(ParseError::MissingSourcePrefix);
    }
    let stops: [char; 1] = [':'];
    assert(stops@ =~= seq![':']);
    let kind = scan.take_until(&stops);
    if !same(kind.as_str(), "dataset") && !same(kind.as_str(), "ds") {
        return Err(ParseError::UnknownSource(kind));
    }
    if !scan.eat(':') {
        return Err(ParseError::EmptySourceValue);
    }
    let name = take_name(&mut scan);
    if name.as_str().is_empty() {
        return Err(ParseError::EmptySourceValue);
    }
    if !is_valid_name(name.as_str()) {
        return Err(ParseError::InvalidName(name));
    }
    let path = match read_subpath(&mut scan, grammar) {
        Ok(path) => path,
        Err(e) => {
            return Err(e);
        },
    };
    let (label, filters) = match read_options(&mut scan, grammar) {
        Ok(read) => read,
        Err(e) => {
            return Err(e);
        },
    };
    let actions = match read_actions(&mut scan, grammar) {
        Ok(actions) => actions,
        Err(e) => {
            return Err(e);
        },
    };
    match check_tail(&scan, grammar) {
        Ok(_) => {},
        Err(e) => {
            return Err(e);
        },
    }
    let encoding = match label {
        Some(label) => match resolve_encoding(label.as_str()) {
            Some(encoding) => encoding,
            None => {
                return Err(ParseError::MalformedEncoding(label));
            },
        },
        None => DEFAULT_ENCODING.to_owned(),
    };
    Ok(ParsedUrl { dataset: name, path, encoding, filters, actions, format, extension })
}

/// What went wrong, in words.
pub open spec fn message_of(e: ParseError<Seq<char>>) -> Seq<char> {
    match e {
        ParseError::Empty => "empty path"@,
        ParseError::EmptySourceValue => "source value is empty"@,
        ParseError::MissingOutputSegment => "missing .<format> suffix"@,
        ParseError::MissingSourcePrefix => "path must start with @"@,
        ParseError::EmptyOptionValue(s) => "option has no value: "@ + s,
        ParseError::InvalidName(s) => "invalid name: "@ + s,
        ParseError::InvalidPath(s) => "path has characters that are not allowed: "@ + s,
        ParseError::MisplacedOption(s) => "options must come before the output name: "@ + s,
        ParseError::RepeatedOption(s) => "option given more than once: "@ + s,
        ParseError::UnknownFormat(s) => "unknown format: "@ + s,
        ParseError::UnknownOption(s) => "unknown option: "@ + s,
        ParseError::UnknownSource(s) => "unknown source type: "@ + s,
        ParseError::MalformedEncoding(s) => "encoding has characters that are not allowed: "@ + s,
        ParseError::MisplacedSourceOption(s) => "source options must come before any filter: "@ + s,
        ParseError::OptionTakesOneValue(s) => "option takes exactly one value: "@ + s,
        ParseError::WrongParameterCount(s) => "filter has the wrong number of parameters: "@ + s,
        ParseError::UnknownAction(s) => "unknown action: "@ + s,
        ParseError::ActionWithoutOptions(s) => "action has no options: "@ + s,
        ParseError::MisplacedAction(s) => "actions must come before the output name: "@ + s,
        ParseError::UnbalancedValue(s) => "value has unbalanced ~ or (): "@ + s,
        ParseError::TooManyFilters => "at most "@ + decimal(MAX_FILTERS as nat) + " filters are allowed"@,
        ParseError::TooManyActions => "at most "@ + decimal(MAX_ACTIONS as nat) + " actions are allowed"@,
        ParseError::TooManyOptions => "at most "@ + decimal(MAX_OPTIONS as nat) + " options are allowed"@,
        ParseError::ValueTooDeep(s) => "value nests groups more than "@ + decimal(MAX_DEPTH as nat)
            + " deep: "@ + s,
    }
}

fn at_most(n: usize, what: &str) -> (r: String)
    ensures
        r@ == "at most "@ + decimal(n as nat) + what@,
{
    joined(joined("at most ", decimal_text(n as u64).as_str()).as_str(), what)
}

impl ParseError {
    /// What went wrong, in words.
    pub fn message(&self) -> (r: String)
        ensures
            r@ == message_of(self.model()),
    {
        match self {
            ParseError::Empty => "empty path".to_owned(),
            ParseError::EmptySourceValue => "source value is empty".to_owned(),
            ParseError::MissingOutputSegment => "missing .<format> suffix".to_owned(),
            ParseError::MissingSourcePrefix => "path must start with @".to_owned(),
            ParseError::EmptyOptionValue(s) => joined("option has no value: ", s.as_str()),
            ParseError::InvalidName(s) => joined("invalid name: ", s.as_str()),
            ParseError::InvalidPath(s) => joined("path has characters that are not allowed: ", s.as_str()),
            ParseError::MisplacedOption(s) => joined("options must come before the output name: ", s.as_str()),
            ParseError::RepeatedOption(s) => joined("option given more than once: ", s.as_str()),
            ParseError::UnknownFormat(s) => joined("unknown format: ", s.as_str()),
            ParseError::UnknownOption(s) => joined("unknown option: ", s.as_str()),
            ParseError::UnknownSource(s) => joined("unknown source type: ", s.as_str()),
            ParseError::MalformedEncoding(s) => joined("encoding has characters that are not allowed: ", s.as_str()),
            ParseError::MisplacedSourceOption(s) => joined("source options must come before any filter: ", s.as_str()),
            ParseError::OptionTakesOneValue(s) => joined("option takes exactly one value: ", s.as_str()),
            ParseError::WrongParameterCount(s) => joined("filter has the wrong number of parameters: ", s.as_str()),
            ParseError::UnknownAction(s) => joined("unknown action: ", s.as_str()),
            ParseError::ActionWithoutOptions(s) => joined("action has no options: ", s.as_str()),
            ParseError::MisplacedAction(s) => joined("actions must come before the output name: ", s.as_str()),
            ParseError::UnbalancedValue(s) => joined("value has unbalanced ~ or (): ", s.as_str()),
            ParseError::TooManyFilters => at_most(MAX_FILTERS, " filters are allowed"),
            ParseError::TooManyActions => at_most(MAX_ACTIONS, " actions are allowed"),
            ParseError::TooManyOptions => at_most(MAX_OPTIONS, " options are allowed"),
            ParseError::ValueTooDeep(s) => {
                let limit = joined(
                    "value nests groups more than ",
                    decimal_text(MAX_DEPTH as u64).as_str(),
                );
                joined(joined(limit.as_str(), " deep: ").as_str(), s.as_str())
            },
        }
    }
}

// What every request keeps to.

/// A segment under its canonical name, with as many parameters as it takes, none of them empty or
/// faulty.
pub open spec fn is_allowed(
    segment: SegmentModel,
    name: Seq<char>,
    shapes: Seq<Seq<Param>>,
) -> bool {
    &&& segment.name == name
    &&& takes(shapes, segment.params.len())
    &&& !any_empty(segment.params)
    &&& forall|i: int|
        0 <= i < segment.params.len() ==> value_fault(#[trigger] segment.params[i]) is None
}

/// A filter that is registered.
pub open spec fn filter_allowed(filters: Seq<SegmentDef>, segment: SegmentModel) -> bool {
    exists|j: int|
        0 <= j < filters.len() && is_allowed(
            segment,
            (#[trigger] filters[j]).name@,
            views(filters[j].shapes@),
        )
}

/// An option that an action has.
pub open spec fn option_allowed(options: Seq<OptModel>, segment: SegmentModel) -> bool {
    exists|j: int|
        0 <= j < options.len() && is_allowed(
            segment,
            (#[trigger] options[j]).name,
            options[j].shapes,
        )
}

/// Options that an action has, no more than it may have and none twice.
pub open spec fn options_allowed(options: Seq<OptModel>, given: Seq<SegmentModel>) -> bool {
    &&& given.len() <= MAX_OPTIONS
    &&& forall|i: int| 0 <= i < given.len() ==> option_allowed(options, #[trigger] given[i])
    &&& forall|i: int, j: int|
        0 <= i < j < given.len() ==> (#[trigger] given[i]).name != (#[trigger] given[j]).name
}

/// An action that is registered, with at least one option.
pub open spec fn action_allowed(actions: Seq<ActionDef>, action: ActionModel) -> bool {
    exists|j: int|
        0 <= j < actions.len() && action.name == (#[trigger] actions[j]).action.spec_name()
            && action.segments.len() > 0 && options_allowed(
            actions[j].action.spec_options(),
            action.segments,
        )
}

proof fn values_sound(params: Seq<Seq<char>>, from: int, i: int)
    requires
        0 <= from <= i < params.len(),
        values_fault(params, from) is None,
    ensures
        value_fault(params[i]) is None,
    decreases i - from,
{
    if from < i {
        values_sound(params, from + 1, i);
    }
}

proof fn segment_is_allowed(
    key: Seq<char>,
    params: Seq<Seq<char>>,
    name: Seq<char>,
    shapes: Seq<Seq<Param>>,
)
    ensures
        segment_of(key, params, name, shapes) matches Ok(segment) ==> is_allowed(
            segment,
            name,
            shapes,
        ),
{
    if segment_of(key, params, name, shapes) is Ok {
        assert forall|i: int| 0 <= i < params.len() implies value_fault(
            #[trigger] params[i],
        ) is None by {
            values_sound(params, 0, i);
        }
    }
}

proof fn options_are_allowed(
    s: Seq<char>,
    filters: Seq<SegmentDef>,
    encoding: Option<Seq<char>>,
    given: Seq<SegmentModel>,
)
    requires
        given.len() <= MAX_FILTERS,
        forall|i: int| 0 <= i < given.len() ==> filter_allowed(filters, #[trigger] given[i]),
    ensures
        options_of(s, filters, encoding, given) matches Ok((_, all, _)) ==> all.len()
            <= MAX_FILTERS && forall|i: int|
            0 <= i < all.len() ==> filter_allowed(filters, #[trigger] all[i]),
    decreases s.len(),
{
    if leads(s, ',') {
        let key = name_of(s.skip(1));
        let params = params_of(after_name(s.skip(1)));
        let rest = after_params(after_name(s.skip(1)));
        let at = filter_at(filters, key, 0);
        stop_at_bounds(s.skip(1), name_stops(), 0);
        after_params_shorter(after_name(s.skip(1)));
        if is_reserved(key) {
            options_are_allowed(rest, filters, Some(params[0]), given);
        } else if at < filters.len() {
            filter_at_bounds(filters, key, 0);
            let name = filters[at].name@;
            let shapes = views(filters[at].shapes@);
            segment_is_allowed(key, params, name, shapes);
            match segment_of(key, params, name, shapes) {
                Ok(segment) => if given.len() < MAX_FILTERS {
                    assert(filter_allowed(filters, segment));
                    options_are_allowed(rest, filters, encoding, given.push(segment));
                },
                Err(e) => {},
            }
        }
    }
}

proof fn option_of_bounds(options: Seq<OptModel>, name: Seq<char>, from: int)
    requires
        0 <= from <= options.len(),
    ensures
        from <= option_at(options, name, from) <= options.len(),
    decreases options.len() - from,
{
    if from < options.len() && !answers(options[from].name, options[from].short, name) {
        option_of_bounds(options, name, from + 1);
    }
}

proof fn action_options_are_allowed(
    s: Seq<char>,
    action: Seq<char>,
    options: Seq<OptModel>,
    given: Seq<SegmentModel>,
)
    requires
        options_allowed(options, given),
    ensures
        action_options(s, action, options, given) matches Ok((all, _)) ==> all.len() > 0
            && options_allowed(options, all),
    decreases s.len(),
{
    let key = name_of(s);
    let params = params_of(after_name(s));
    let rest = after_params(after_name(s));
    stop_at_bounds(s, name_stops(), 0);
    after_params_shorter(after_name(s));
    if key.len() > 0 {
        option_of_bounds(options, key, 0);
        match option_of(options, key) {
            Some(option) => {
                segment_is_allowed(key, params, option.name, option.shapes);
                match segment_of(key, params, option.name, option.shapes) {
                    Ok(segment) => if !is_given(given, segment.name) && given.len()
                        < MAX_OPTIONS {
                        assert(options[option_at(options, key, 0)] == option);
                        assert(option_allowed(options, segment));
                        let all = given.push(segment);
                        assert(options_allowed(options, all));
                        if leads(rest, ',') {
                            action_options_are_allowed(rest.skip(1), action, options, all);
                        }
                    },
                    Err(e) => {},
                }
            },
            None => {},
        }
    }
}

proof fn actions_are_allowed(s: Seq<char>, actions: Seq<ActionDef>, given: Seq<ActionModel>)
    requires
        given.len() <= MAX_ACTIONS,
        forall|i: int| 0 <= i < given.len() ==> action_allowed(actions, #[trigger] given[i]),
    ensures
        actions_of(s, actions, given) matches Ok((all, _)) ==> all.len() <= MAX_ACTIONS && forall|
            i: int,
        |
            0 <= i < all.len() ==> action_allowed(actions, #[trigger] all[i]),
    decreases s.len(),
{
    if leads_action(s) {
        let word = marked(s, 0);
        let at = action_at(actions, word, 0);
        stop_at_bounds(s.skip(2), seq!['/'], 0);
        if at < actions.len() {
            action_at_bounds(actions, word, 0);
            let name = actions[at].action.spec_name();
            let options = actions[at].action.spec_options();
            let body = s.skip(word.len() as int + 3);
            action_options_shorter(body, name, options, Seq::empty());
            action_options_are_allowed(body, name, options, Seq::empty());
            match action_options(body, name, options, Seq::empty()) {
                Ok((segments, rest)) => if given.len() < MAX_ACTIONS {
                    let next = ActionModel { name, segments };
                    assert(action_allowed(actions, next));
                    actions_are_allowed(rest, actions, given.push(next));
                },
                Err(e) => {},
            }
        }
    }
}

/// A path that is a request names a dataset by a plain name, a path in an archive by plain
/// characters, no more filters, actions and options than there may be, only such as are
/// registered, under their canonical names, with as many parameters as they take, and no option
/// of an action twice.
pub proof fn parsed_request_is_allowed(
    url: Seq<char>,
    filters: Seq<SegmentDef>,
    actions: Seq<ActionDef>,
    outputs: Seq<Arc<OutputDef>>,
)
    requires
        parsed_of(url, filters, actions, outputs) is Ok,
    ensures
        ({
            let p = parsed_of(url, filters, actions, outputs)->Ok_0;
            &&& is_token(p.dataset)
            &&& p.path matches Some(path) ==> valid_path(path)
            &&& p.filters.len() <= MAX_FILTERS
            &&& forall|i: int|
                0 <= i < p.filters.len() ==> filter_allowed(filters, #[trigger] p.filters[i])
            &&& p.actions.len() <= MAX_ACTIONS
            &&& forall|i: int|
                0 <= i < p.actions.len() ==> action_allowed(actions, #[trigger] p.actions[i])
        }),
{
    let (source, _, _) = asked_of(without_slashes(url), outputs)->0;
    let after = source.skip(1);
    let s = after.skip(stop_at(after, seq![':'], 0)).skip(1);
    let (_, rest) = subpath_of(after_name(s), actions)->Ok_0;
    options_are_allowed(rest, filters, None, Seq::empty());
    let (_, _, rest) = options_of(rest, filters, None, Seq::empty())->Ok_0;
    actions_are_allowed(rest, actions, Seq::empty());
}

proof fn prefix_ends_in(prefix: Seq<char>, t: Seq<char>, ext: Seq<char>)
    requires
        !occurs(prefix, '.'),
    ensures
        ends_in(prefix + t, ext) == ends_in(t, ext),
{
    let s = prefix + t;
    let n = s.len() - ext.len();
    assert(lowered(s) =~= lowered(prefix) + lowered(t));
    if ends_in(s, ext) {
        if n - 1 < prefix.len() {
            assert(lowered(s)[n - 1] == lower_spec(prefix[n - 1]));
            assert(prefix[n - 1] == '.');
        }
        assert(lowered(t).skip(n - prefix.len()) =~= lowered(s).skip(n));
    }
    if ends_in(t, ext) {
        assert(lowered(s).skip(n) =~= lowered(t).skip(n - prefix.len()));
    }
}

proof fn prefix_last_dot(prefix: Seq<char>, t: Seq<char>)
    requires
        !occurs(prefix, '.'),
        occurs(t, '.'),
    ensures
        after_last_dot(prefix + t) == after_last_dot(t),
    decreases t.len(),
{
    let s = prefix + t;
    assert(s.last() == t.last());
    assert(s.drop_last() =~= prefix + t.drop_last());
    if t.last() != '.' {
        let i = choose|i: int| 0 <= i < t.len() && t[i] == '.';
        assert(t.drop_last()[i] == '.');
        prefix_last_dot(prefix, t.drop_last());
    }
}

/// The short prefix means what the long one does.
pub proof fn short_prefix_means_the_same(
    t: Seq<char>,
    filters: Seq<SegmentDef>,
    actions: Seq<ActionDef>,
    outputs: Seq<Arc<OutputDef>>,
)
    ensures
        parsed_of("@ds:"@ + t, filters, actions, outputs) == parsed_of(
            "@dataset:"@ + t,
            filters,
            actions,
            outputs,
        ),
{
    reveal_strlit("@ds:");
    reveal_strlit("@dataset:");
    reveal_strlit("ds");
    reveal_strlit("dataset");
    assert("@ds:"@ =~= seq!['@'] + "ds"@ + seq![':']);
    assert("@dataset:"@ =~= seq!['@'] + "dataset"@ + seq![':']);
    prefixed(t, "@ds:"@, "ds"@, filters, actions, outputs);
    prefixed(t, "@dataset:"@, "dataset"@, filters, actions, outputs);
}

/// What comes of a path after the prefix of its source, whichever of the two it is.
pub open spec fn after_prefix(
    t: Seq<char>,
    filters: Seq<SegmentDef>,
    actions: Seq<ActionDef>,
    outputs: Seq<Arc<OutputDef>>,
) -> Result<ParsedModel, ParseError<Seq<char>>> {
    match asked_of(t, outputs) {
        Some((source, extension, format)) => dataset_of(
            source,
            extension,
            format,
            filters,
            actions,
        ),
        None => Err(
            if occurs(t, '.') {
                ParseError::UnknownFormat(lowered(after_last_dot(t)))
            } else {
                ParseError::MissingOutputSegment
            },
        ),
    }
}

/// A prefix without a dot does not change which extension a path ends in.
proof fn prefix_longest(prefix: Seq<char>, t: Seq<char>, outputs: Seq<Arc<OutputDef>>, n: int)
    requires
        !occurs(prefix, '.'),
        n <= prefix.len() + t.len(),
    ensures
        longest_offered(outputs, prefix + t, n) == longest_offered(
            outputs,
            t,
            if n <= t.len() {
                n
            } else {
                t.len() as int
            },
        ),
    decreases n + 1,
{
    let s = prefix + t;
    if n >= 0 {
        let here = lowered(s).skip(s.len() - n);
        prefix_ends_in(prefix, t, here);
        if n <= t.len() {
            assert(lowered(t).skip(t.len() - n) =~= here);
        }
        prefix_longest(prefix, t, outputs, n - 1);
    }
}

proof fn prefixed(
    t: Seq<char>,
    prefix: Seq<char>,
    kind: Seq<char>,
    filters: Seq<SegmentDef>,
    actions: Seq<ActionDef>,
    outputs: Seq<Arc<OutputDef>>,
)
    requires
        prefix == seq!['@'] + kind + seq![':'],
        kind == "ds"@ || kind == "dataset"@,
        forall|i: int| 0 <= i < kind.len() ==> is_letter_spec(#[trigger] kind[i]),
    ensures
        parsed_of(prefix + t, filters, actions, outputs) == after_prefix(t, filters, actions, outputs),
{
    reveal_strlit("geojson");
    reveal_strlit("json");
    let s = prefix + t;
    assert(!occurs(prefix, '.')) by {
        if occurs(prefix, '.') {
            let i = choose|i: int| 0 <= i < prefix.len() && prefix[i] == '.';
            assert(is_letter_spec(kind[i - 1]));
        }
    }
    assert(s[0] == '@');
    assert(without_slashes(s) == s);
    prefix_ends_in(prefix, t, "geojson"@);
    prefix_ends_in(prefix, t, "json"@);
    prefix_longest(prefix, t, outputs, s.len() as int);
    assert(match format_of(t) {
        Some((source, extension, format)) => format_of(s) == Some(
            (prefix + source, extension, format),
        ),
        None => format_of(s) is None,
    }) by {
        assert(s.take(s.len() - 8) =~= prefix + t.take(t.len() - 8) || !ends_in(t, "geojson"@));
        assert(s.take(s.len() - 5) =~= prefix + t.take(t.len() - 5) || !ends_in(t, "json"@));
    }
    match asked_of(t, outputs) {
        Some((source, extension, format)) => {
            let whole = prefix + source;
            assert(asked_of(s, outputs) == Some((whole, extension, format))) by {
                longest_ends(outputs, t, t.len() as int);
                match longest_offered(outputs, t, t.len() as int) {
                    Some(ext) => {
                        assert(s.take(s.len() - ext.len() - 1) =~= prefix + t.take(
                            t.len() - ext.len() - 1,
                        ));
                    },
                    None => {},
                }
            }
            let rest = whole.skip(1);
            assert(rest =~= kind + seq![':'] + source);
            colon_after(rest, kind.len() as int, 0);
            assert(rest.take(kind.len() as int) =~= kind);
            assert(rest.skip(kind.len() as int).skip(1) =~= source);
        },
        None => {
            if occurs(t, '.') {
                let i = choose|i: int| 0 <= i < t.len() && t[i] == '.';
                assert(s[prefix.len() + i] == '.');
                prefix_last_dot(prefix, t);
            } else {
                assert forall|i: int| 0 <= i < s.len() implies s[i] != '.' by {
                    if i < prefix.len() {
                        assert(prefix[i] == s[i]);
                    } else {
                        assert(t[i - prefix.len()] == s[i]);
                    }
                }
            }
        },
    }
}

proof fn colon_after(s: Seq<char>, n: int, from: int)
    requires
        0 <= from <= n < s.len(),
        s[n] == ':',
        forall|i: int| 0 <= i < n ==> #[trigger] s[i] != ':',
    ensures
        stop_at(s, seq![':'], from) == n,
    decreases n - from,
{
    let stops = seq![':'];
    assert(stops[0] == ':');
    if from < n {
        assert(!occurs(stops, s[from]));
        colon_after(s, n, from + 1);
    } else {
        assert(occurs(stops, s[from]));
    }
}

} // verus!
