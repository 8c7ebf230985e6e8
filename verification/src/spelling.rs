//! How a request is spelled, and that it is read as it is spelled.
//!
//! `spelled` writes the parts of a request down, one after the other. The laws here tell that
//! reading what is written gives the parts back, under their canonical names, and what is refused.

use std::sync::Arc;
use vstd::prelude::*;

use crate::dataset::is_source;
use crate::encodings::encoding_of;
use crate::formats::{
    ends_in, format_of, geojson_alone_offers_the_formats, is_geojson, Format, OutputDef,
};
use crate::grammar::{
    action_at, action_at_bounds, answers, filter_at, is_token, option_at, option_of, takes,
    ActionDef, OptModel, SegmentDef,
};
use crate::parexp::{depth_at, quoted};
use crate::text::{lowered, occurs, views};
use crate::url::{
    action_allowed, action_options, actions_of, after_last_dot, after_name, after_params, any_empty,
    balance, dataset_of, ends_value, filename_is_taken_off_once, is_given, is_path_char, leads,
    leads_action, marked, marker_at, marks, name_of, name_stops, options_of, out_of_bounds,
    params_of, parsed_of, parsed_request_is_allowed, readable_part, segment_of,
    sound_value_has_matching_groups, stop_at, subpath_of, tail_fault, valid_path, value_end,
    value_fault, values_fault, without_filename, without_slashes, ActionModel, ParsedModel,
    ParseError, SegmentModel,
};

verus! {

/// A word without any sign that a request gives a meaning to.
pub open spec fn is_word(s: Seq<char>) -> bool {
    s.len() > 0 && forall|i: int|
        0 <= i < s.len() ==> {
            let c = #[trigger] s[i];
            c != ':' && c != ',' && c != '/' && c != '~' && c != '(' && c != ')'
        }
}

/// Parameters, each after a colon.
pub open spec fn spell_params(params: Seq<Seq<char>>) -> Seq<char>
    decreases params.len(),
{
    if params.len() == 0 {
        Seq::empty()
    } else {
        seq![':'] + (params[0] + spell_params(params.skip(1)))
    }
}

/// Filters, each after a comma.
pub open spec fn spell_filters(segments: Seq<SegmentModel>) -> Seq<char>
    decreases segments.len(),
{
    if segments.len() == 0 {
        Seq::empty()
    } else {
        seq![','] + (segments[0].name + (spell_params(segments[0].params) + spell_filters(
            segments.skip(1),
        )))
    }
}

/// The options of an action, with a comma between two.
pub open spec fn spell_options(segments: Seq<SegmentModel>) -> Seq<char> {
    segments[0].name + (spell_params(segments[0].params) + spell_filters(segments.skip(1)))
}

/// Actions, each after a slash and a sign, with a slash before its options.
pub open spec fn spell_actions(actions: Seq<ActionModel>) -> Seq<char>
    decreases actions.len(),
{
    if actions.len() == 0 {
        Seq::empty()
    } else {
        seq!['/', '@'] + (actions[0].name + (seq!['/'] + (spell_options(actions[0].segments)
            + spell_actions(actions.skip(1)))))
    }
}

/// Nothing, or something after a sign that ends a word.
pub open spec fn is_over(t: Seq<char>) -> bool {
    t.len() == 0 || t[0] == ':' || t[0] == ',' || t[0] == '/'
}

proof fn word_then(w: Seq<char>, t: Seq<char>, stops: Seq<char>, i: int)
    requires
        0 <= i <= w.len(),
        forall|j: int| 0 <= j < w.len() ==> !occurs(stops, #[trigger] w[j]),
        t.len() == 0 || occurs(stops, t[0]),
    ensures
        stop_at(w + t, stops, i) == w.len(),
        (w + t).take(w.len() as int) == w,
        (w + t).skip(w.len() as int) == t,
    decreases w.len() - i,
{
    let s = w + t;
    if i < w.len() {
        assert(s[i] == w[i]);
        word_then(w, t, stops, i + 1);
    } else if t.len() > 0 {
        assert(s[i] == t[0]);
    }
    assert(s.take(w.len() as int) =~= w);
    assert(s.skip(w.len() as int) =~= t);
}

proof fn stops_are_these(c: char)
    ensures
        occurs(name_stops(), c) <==> c == ':' || c == ',' || c == '/',
        occurs(seq!['/'], c) <==> c == '/',
        occurs(seq![':'], c) <==> c == ':',
        occurs(seq![','], c) <==> c == ',',
{
    let all = name_stops();
    assert(all[0] == ':' && all[1] == ',' && all[2] == '/' && all.len() == 3);
    assert(seq!['/'][0] == '/' && seq![':'][0] == ':' && seq![','][0] == ',');
}

proof fn name_then(w: Seq<char>, t: Seq<char>)
    requires
        is_word(w),
        is_over(t),
    ensures
        name_of(w + t) == w,
        after_name(w + t) == t,
{
    assert forall|j: int| 0 <= j < w.len() implies !occurs(name_stops(), #[trigger] w[j]) by {
        stops_are_these(w[j]);
    }
    if t.len() > 0 {
        stops_are_these(t[0]);
    }
    word_then(w, t, name_stops(), 0);
}

proof fn word_is_flat(w: Seq<char>, t: Seq<char>, i: int)
    requires
        is_word(w),
        0 <= i <= w.len(),
    ensures
        !quoted(w + t, i),
        depth_at(w + t, i) == 0,
        !quoted(w, i),
        balance(w, i) == 0,
    decreases i,
{
    if i > 0 {
        word_is_flat(w, t, i - 1);
        assert((w + t)[i - 1] == w[i - 1]);
    }
}

// Values.

/// Between two tildes just before place `i`.
pub open spec fn is_hushed(s: Seq<char>, i: int) -> bool {
    s.take(i).filter(|c: char| c == '~').len() % 2 == 1
}

proof fn hushed_is_quoted(s: Seq<char>, i: int)
    requires
        0 <= i <= s.len(),
    ensures
        is_hushed(s, i) == quoted(s, i),
    decreases i,
{
    reveal(Seq::filter);
    if i > 0 {
        hushed_is_quoted(s, i - 1);
        assert(s.take(i).drop_last() =~= s.take(i - 1));
        assert(s.take(i).last() == s[i - 1]);
    }
}

/// How many more groups are open than closed just before place `i`, tildes quoting.
pub open spec fn level_at(s: Seq<char>, i: int) -> int
    decreases i,
{
    if i <= 0 {
        0
    } else if !is_hushed(s, i - 1) && s[i - 1] == '(' {
        level_at(s, i - 1) + 1
    } else if !is_hushed(s, i - 1) && s[i - 1] == ')' {
        level_at(s, i - 1) - 1
    } else {
        level_at(s, i - 1)
    }
}

proof fn level_is_balance(s: Seq<char>, i: int)
    requires
        0 <= i <= s.len(),
    ensures
        level_at(s, i) == balance(s, i),
    decreases i,
{
    if i > 0 {
        level_is_balance(s, i - 1);
        hushed_is_quoted(s, i - 1);
    }
}

proof fn first_out_of_bounds(s: Seq<char>, from: int)
    requires
        0 <= from <= s.len(),
    ensures
        ({
            let at = out_of_bounds(s, from);
            &&& from < at <= s.len() + 1
            &&& at <= s.len() ==> balance(s, at) < 0 || balance(s, at) > 32
            &&& forall|i: int| from < i < at && i <= s.len() ==> 0 <= #[trigger] balance(s, i) <= 32
        }),
    decreases s.len() - from,
{
    if from < s.len() && !(balance(s, from + 1) < 0 || balance(s, from + 1) > 32) {
        first_out_of_bounds(s, from + 1);
    }
}

/// A value is sound exactly where no group closes that did not open, every group and every tilde has
/// its counterpart, and no more than thirty-two groups lie in each other. What is not is refused:
/// as too deep where that comes first, else as unbalanced.
pub proof fn values_are_balanced(s: Seq<char>)
    ensures
        value_fault(s) is None <==> (forall|i: int|
            0 <= i <= s.len() ==> 0 <= #[trigger] level_at(s, i) <= 32) && level_at(
            s,
            s.len() as int,
        ) == 0 && !is_hushed(s, s.len() as int),
        value_fault(s) matches Some(e) ==> e == ParseError::UnbalancedValue(s) || e
            == ParseError::ValueTooDeep(s),
        value_fault(s) == Some(ParseError::ValueTooDeep(s)) <==> exists|k: int|
            0 <= k <= s.len() && #[trigger] level_at(s, k) > 32 && forall|i: int|
                0 <= i < k ==> 0 <= #[trigger] level_at(s, i) <= 32,
{
    let n = s.len() as int;
    let at = out_of_bounds(s, 0);
    first_out_of_bounds(s, 0);
    hushed_is_quoted(s, n);
    assert forall|i: int| 0 <= i <= n implies #[trigger] level_at(s, i) == balance(s, i) by {
        level_is_balance(s, i);
    }
    assert(level_at(s, 0) == 0);
    if at <= n {
        assert(level_at(s, at) < 0 || level_at(s, at) > 32);
        assert forall|i: int| 0 <= i < at implies 0 <= #[trigger] level_at(s, i) <= 32 by {
            if i > 0 {
                assert(0 <= balance(s, i) <= 32);
            }
        }
    } else {
        assert forall|i: int| 0 <= i <= n implies 0 <= #[trigger] level_at(s, i) <= 32 by {
            if i > 0 {
                assert(0 <= balance(s, i) <= 32);
            }
        }
    }
    if exists|k: int|
        0 <= k <= n && #[trigger] level_at(s, k) > 32 && forall|i: int|
            0 <= i < k ==> 0 <= #[trigger] level_at(s, i) <= 32 {
        let k = choose|k: int|
            0 <= k <= n && #[trigger] level_at(s, k) > 32 && forall|i: int|
                0 <= i < k ==> 0 <= #[trigger] level_at(s, i) <= 32;
        assert(at <= n);
        if at < k {
            assert(0 <= level_at(s, at) <= 32);
        }
        assert(at == k);
    }
}

/// A value that a parameter may have: not empty, sound, and without a sign that would end it outside
/// its groups and tildes.
pub open spec fn is_value(w: Seq<char>) -> bool {
    &&& w.len() > 0
    &&& value_fault(w) is None
    &&& forall|i: int|
        0 <= i < w.len() && (w[i] == ':' || w[i] == ',' || w[i] == '/') ==> is_hushed(w, i)
            || #[trigger] level_at(w, i) > 0
}

proof fn word_is_value(w: Seq<char>)
    requires
        is_word(w),
    ensures
        is_value(w),
{
    word_in_bounds(w, 0);
    word_is_flat(w, Seq::empty(), w.len() as int);
}

proof fn prefix_is_read_alike(w: Seq<char>, t: Seq<char>, i: int)
    requires
        0 <= i <= w.len(),
    ensures
        quoted(w + t, i) == quoted(w, i),
        depth_at(w + t, i) == depth_at(w, i),
    decreases i,
{
    if i > 0 {
        prefix_is_read_alike(w, t, i - 1);
        assert((w + t)[i - 1] == w[i - 1]);
    }
}

proof fn value_then(w: Seq<char>, t: Seq<char>, i: int)
    requires
        is_value(w),
        is_over(t),
        0 <= i <= w.len(),
    ensures
        value_end(w + t, i) == w.len(),
        (w + t).take(w.len() as int) == w,
        (w + t).skip(w.len() as int) == t,
    decreases w.len() - i,
{
    let s = w + t;
    prefix_is_read_alike(w, t, i);
    sound_value_has_matching_groups(w, i);
    level_is_balance(w, i);
    hushed_is_quoted(w, i);
    if i < w.len() {
        assert(s[i] == w[i]);
        stops_are_these(s[i]);
        if occurs(name_stops(), s[i]) {
            assert(is_hushed(w, i) || level_at(w, i) > 0);
        }
        assert(!ends_value(s, i));
        value_then(w, t, i + 1);
    } else if t.len() > 0 {
        assert(s[i] == t[0]);
        stops_are_these(s[i]);
        assert(ends_value(s, i));
    }
    assert(s.take(w.len() as int) =~= w);
    assert(s.skip(w.len() as int) =~= t);
}

proof fn params_then(params: Seq<Seq<char>>, t: Seq<char>)
    requires
        forall|i: int| 0 <= i < params.len() ==> is_value(#[trigger] params[i]),
        is_over(t),
        !leads(t, ':'),
    ensures
        params_of(spell_params(params) + t) == params,
        after_params(spell_params(params) + t) == t,
        is_over(spell_params(params) + t),
    decreases params.len(),
{
    let s = spell_params(params) + t;
    if params.len() == 0 {
        assert(s =~= t);
        assert(params =~= Seq::empty());
    } else {
        let rest = params.skip(1);
        let tail = spell_params(rest) + t;
        assert forall|i: int| 0 <= i < rest.len() implies is_value(#[trigger] rest[i]) by {
            assert(rest[i] == params[i + 1]);
        }
        params_then(rest, t);
        assert(s.skip(1) =~= params[0] + tail);
        value_then(params[0], tail, 0);
        assert(params =~= seq![params[0]] + rest);
    }
}

proof fn word_in_bounds(w: Seq<char>, i: int)
    requires
        is_word(w),
        0 <= i <= w.len(),
    ensures
        out_of_bounds(w, i) == w.len() + 1,
    decreases w.len() - i,
{
    if i < w.len() {
        word_is_flat(w, Seq::empty(), i + 1);
        word_in_bounds(w, i + 1);
    }
}

proof fn values_are_no_fault(params: Seq<Seq<char>>, from: int)
    requires
        forall|i: int| 0 <= i < params.len() ==> is_value(#[trigger] params[i]),
        0 <= from <= params.len(),
    ensures
        values_fault(params, from) is None,
        !any_empty(params),
    decreases params.len() - from,
{
    if from < params.len() {
        assert(is_value(params[from]));
        values_are_no_fault(params, from + 1);
    }
}

/// A filter that is asked for as `asked` means `meant`: it is the first that answers to the name,
/// takes so many parameters, and goes by its canonical name from then on.
pub open spec fn means(filters: Seq<SegmentDef>, asked: SegmentModel, meant: SegmentModel) -> bool {
    &&& is_word(asked.name)
    &&& asked.name != "enc"@ && asked.name != "encoding"@
    &&& asked.params == meant.params
    &&& forall|i: int| 0 <= i < asked.params.len() ==> is_value(#[trigger] asked.params[i])
    &&& exists|at: int|
        0 <= at < filters.len() && (asked.name == (#[trigger] filters[at]).name@ || (
        filters[at].short@.len() > 0 && asked.name == filters[at].short@)) && meant.name
            == filters[at].name@ && (exists|k: int|
            0 <= k < filters[at].shapes@.len() && (#[trigger] filters[at].shapes@[k])@.len()
                == asked.params.len()) && forall|j: int|
            0 <= j < at ==> asked.name != (#[trigger] filters[j]).name@ && asked.name
                != filters[j].short@
}

proof fn filter_is_found(filters: Seq<SegmentDef>, asked: SegmentModel, meant: SegmentModel)
    requires
        means(filters, asked, meant),
    ensures
        ({
            let at = filter_at(filters, asked.name, 0);
            &&& 0 <= at < filters.len()
            &&& segment_of(
                asked.name,
                asked.params,
                filters[at].name@,
                views(filters[at].shapes@),
            ) == Ok::<_, ParseError<Seq<char>>>(meant)
        }),
{
    let at = choose|at: int|
        0 <= at < filters.len() && (asked.name == (#[trigger] filters[at]).name@ || (
        filters[at].short@.len() > 0 && asked.name == filters[at].short@)) && meant.name
            == filters[at].name@ && (exists|k: int|
            0 <= k < filters[at].shapes@.len() && (#[trigger] filters[at].shapes@[k])@.len()
                == asked.params.len()) && forall|j: int|
            0 <= j < at ==> asked.name != (#[trigger] filters[j]).name@ && asked.name
                != filters[j].short@;
    first_filter(filters, asked.name, 0, at);
    values_are_no_fault(asked.params, 0);
    let shapes = views(filters[at].shapes@);
    let k = choose|k: int|
        0 <= k < filters[at].shapes@.len() && (#[trigger] filters[at].shapes@[k])@.len()
            == asked.params.len();
    assert(shapes[k].len() == asked.params.len());
    assert(takes(shapes, asked.params.len()));
}

proof fn first_filter(filters: Seq<SegmentDef>, name: Seq<char>, from: int, at: int)
    requires
        0 <= from <= at < filters.len(),
        answers(filters[at].name@, filters[at].short@, name),
        forall|j: int|
            from <= j < at ==> name != (#[trigger] filters[j]).name@ && name != filters[j].short@,
    ensures
        filter_at(filters, name, from) == at,
    decreases at - from,
{
    if from < at {
        assert(name != filters[from].name@);
        first_filter(filters, name, from + 1, at);
    }
}

proof fn filters_then(
    asked: Seq<SegmentModel>,
    meant: Seq<SegmentModel>,
    t: Seq<char>,
    filters: Seq<SegmentDef>,
    encoding: Option<Seq<char>>,
    given: Seq<SegmentModel>,
)
    requires
        asked.len() == meant.len(),
        given.len() + asked.len() <= 50,
        forall|i: int| 0 <= i < asked.len() ==> means(filters, #[trigger] asked[i], meant[i]),
        t.len() == 0 || t[0] == '/',
    ensures
        options_of(spell_filters(asked) + t, filters, encoding, given) == Ok::<
            _,
            ParseError<Seq<char>>,
        >((encoding, given + meant, t)),
        is_over(spell_filters(asked) + t),
        !leads(spell_filters(asked) + t, ':'),
    decreases asked.len(),
{
    let s = spell_filters(asked) + t;
    if asked.len() == 0 {
        assert(s =~= t);
        assert(given + meant =~= given);
    } else {
        let first = asked[0];
        let rest = asked.skip(1);
        let later = meant.skip(1);
        let tail = spell_filters(rest) + t;
        assert(means(filters, first, meant[0]));
        assert forall|i: int| 0 <= i < rest.len() implies means(
            filters,
            #[trigger] rest[i],
            later[i],
        ) by {
            assert(rest[i] == asked[i + 1] && later[i] == meant[i + 1]);
        }
        filters_then(rest, later, t, filters, encoding, given.push(meant[0]));
        assert(given.push(meant[0]) + later =~= given + meant);
        let values = spell_params(first.params) + tail;
        assert(s.skip(1) =~= first.name + values);
        params_then(first.params, tail);
        name_then(first.name, values);
        filter_is_found(filters, first, meant[0]);
        assert(s[0] == ',');
    }
}

/// An option that is asked for as `asked` means `meant`.
pub open spec fn option_means(options: Seq<OptModel>, asked: SegmentModel, meant: SegmentModel) -> bool {
    &&& is_word(asked.name)
    &&& asked.params == meant.params
    &&& forall|i: int| 0 <= i < asked.params.len() ==> is_value(#[trigger] asked.params[i])
    &&& exists|at: int|
        0 <= at < options.len() && (asked.name == (#[trigger] options[at]).name || (
        options[at].short.len() > 0 && asked.name == options[at].short)) && meant.name
            == options[at].name && (exists|k: int|
            0 <= k < options[at].shapes.len() && (#[trigger] options[at].shapes[k]).len()
                == asked.params.len()) && forall|j: int|
            0 <= j < at ==> asked.name != (#[trigger] options[j]).name && asked.name
                != options[j].short
}

proof fn first_option(options: Seq<OptModel>, name: Seq<char>, from: int, at: int)
    requires
        0 <= from <= at < options.len(),
        answers(options[at].name, options[at].short, name),
        forall|j: int|
            from <= j < at ==> name != (#[trigger] options[j]).name && name != options[j].short,
    ensures
        option_at(options, name, from) == at,
    decreases at - from,
{
    if from < at {
        assert(name != options[from].name);
        first_option(options, name, from + 1, at);
    }
}

proof fn options_then(
    asked: Seq<SegmentModel>,
    meant: Seq<SegmentModel>,
    t: Seq<char>,
    action: Seq<char>,
    options: Seq<OptModel>,
    given: Seq<SegmentModel>,
)
    requires
        asked.len() == meant.len(),
        asked.len() > 0,
        given.len() + asked.len() <= 20,
        forall|i: int| 0 <= i < asked.len() ==> option_means(options, #[trigger] asked[i], meant[i]),
        forall|i: int, j: int|
            0 <= i < given.len() && 0 <= j < meant.len() ==> (#[trigger] given[i]).name != (
            #[trigger] meant[j]).name,
        forall|i: int, j: int|
            0 <= i < j < meant.len() ==> (#[trigger] meant[i]).name != (#[trigger] meant[j]).name,
        t.len() == 0 || t[0] == '/',
    ensures
        action_options(spell_options(asked) + t, action, options, given) == Ok::<
            _,
            ParseError<Seq<char>>,
        >((given + meant, t)),
    decreases asked.len(),
{
    let first = asked[0];
    let rest = asked.skip(1);
    let later = meant.skip(1);
    let tail = spell_filters(rest) + t;
    let values = spell_params(first.params) + tail;
    let s = spell_options(asked) + t;
    assert(option_means(options, first, meant[0]));
    assert(s =~= first.name + values);
    if rest.len() > 0 {
        assert(tail[0] == ',');
    } else {
        assert(tail =~= t);
    }
    params_then(first.params, tail);
    name_then(first.name, values);
    let at = choose|at: int|
        0 <= at < options.len() && (first.name == (#[trigger] options[at]).name || (
        options[at].short.len() > 0 && first.name == options[at].short)) && meant[0].name
            == options[at].name && (exists|k: int|
            0 <= k < options[at].shapes.len() && (#[trigger] options[at].shapes[k]).len()
                == first.params.len()) && forall|j: int|
            0 <= j < at ==> first.name != (#[trigger] options[j]).name && first.name
                != options[j].short;
    first_option(options, first.name, 0, at);
    values_are_no_fault(first.params, 0);
    assert(takes(options[at].shapes, first.params.len()));
    assert(segment_of(first.name, first.params, options[at].name, options[at].shapes) == Ok::<
        _,
        ParseError<Seq<char>>,
    >(meant[0]));
    assert(!is_given(given, meant[0].name)) by {
        if is_given(given, meant[0].name) {
            let i = choose|i: int| 0 <= i < given.len() && (#[trigger] given[i]).name
                == meant[0].name;
            assert(given[i].name != meant[0].name);
        }
    }
    if rest.len() == 0 {
        assert(given.push(meant[0]) =~= given + meant);
        assert(!leads(t, ','));
    } else {
        assert forall|i: int| 0 <= i < rest.len() implies option_means(
            options,
            #[trigger] rest[i],
            later[i],
        ) by {
            assert(rest[i] == asked[i + 1] && later[i] == meant[i + 1]);
        }
        let so_far = given.push(meant[0]);
        assert forall|i: int, j: int| 0 <= i < so_far.len() && 0 <= j < later.len() implies (
        #[trigger] so_far[i]).name != (#[trigger] later[j]).name by {
            assert(later[j] == meant[j + 1]);
            if i < given.len() {
                assert(so_far[i] == given[i]);
            } else {
                assert(so_far[i] == meant[0]);
            }
        }
        assert forall|i: int, j: int| 0 <= i < j < later.len() implies (#[trigger] later[i]).name
            != (#[trigger] later[j]).name by {
            assert(later[i] == meant[i + 1] && later[j] == meant[j + 1]);
        }
        options_then(rest, later, t, action, options, so_far);
        assert(tail.skip(1) =~= spell_options(rest) + t);
        assert(so_far + later =~= given + meant);
    }
}

/// An action that is asked for as `asked` means `meant`.
pub open spec fn action_means(actions: Seq<ActionDef>, asked: ActionModel, meant: ActionModel) -> bool {
    &&& is_word(asked.name)
    &&& 0 < asked.segments.len() <= 20
    &&& asked.segments.len() == meant.segments.len()
    &&& forall|i: int, j: int|
        0 <= i < j < meant.segments.len() ==> (#[trigger] meant.segments[i]).name != (
        #[trigger] meant.segments[j]).name
    &&& exists|at: int|
        0 <= at < actions.len() && (asked.name == (#[trigger] actions[at]).action.spec_name() || (
        actions[at].action.spec_short().len() > 0 && asked.name
            == actions[at].action.spec_short())) && meant.name == actions[at].action.spec_name() && (
        forall|i: int|
            0 <= i < asked.segments.len() ==> option_means(
                actions[at].action.spec_options(),
                #[trigger] asked.segments[i],
                meant.segments[i],
            )) && forall|j: int|
            0 <= j < at ==> asked.name != (#[trigger] actions[j]).action.spec_name() && asked.name
                != actions[j].action.spec_short()
}

proof fn first_action(actions: Seq<ActionDef>, name: Seq<char>, from: int, at: int)
    requires
        0 <= from <= at < actions.len(),
        answers(actions[at].action.spec_name(), actions[at].action.spec_short(), name),
        forall|j: int|
            from <= j < at ==> name != (#[trigger] actions[j]).action.spec_name() && name
                != actions[j].action.spec_short(),
    ensures
        action_at(actions, name, from) == at,
    decreases at - from,
{
    if from < at {
        assert(name != actions[from].action.spec_name());
        first_action(actions, name, from + 1, at);
    }
}

/// Nothing, or a slash and a word that is no action: the name of a download.
pub open spec fn is_download(t: Seq<char>) -> bool {
    t.len() == 0 || (t[0] == '/' && is_word(t.skip(1)) && t[1] != '@')
}

proof fn actions_then(
    asked: Seq<ActionModel>,
    meant: Seq<ActionModel>,
    t: Seq<char>,
    actions: Seq<ActionDef>,
    given: Seq<ActionModel>,
)
    requires
        asked.len() == meant.len(),
        given.len() + asked.len() <= 10,
        forall|i: int| 0 <= i < asked.len() ==> action_means(actions, #[trigger] asked[i], meant[i]),
        is_download(t),
    ensures
        actions_of(spell_actions(asked) + t, actions, given) == Ok::<_, ParseError<Seq<char>>>(
            (given + meant, t),
        ),
        spell_actions(asked) + t == Seq::<char>::empty() || (spell_actions(asked) + t)[0] == '/',
    decreases asked.len(),
{
    let s = spell_actions(asked) + t;
    if asked.len() == 0 {
        assert(s =~= t);
        assert(given + meant =~= given);
        if t.len() > 0 {
            assert(t.skip(1)[0] == t[1]);
        } else {
            assert(s =~= Seq::empty());
        }
        assert(!leads_action(t));
    } else {
        let first = asked[0];
        let rest = asked.skip(1);
        let later = meant.skip(1);
        let tail = spell_actions(rest) + t;
        assert(action_means(actions, first, meant[0]));
        assert forall|i: int| 0 <= i < rest.len() implies action_means(
            actions,
            #[trigger] rest[i],
            later[i],
        ) by {
            assert(rest[i] == asked[i + 1] && later[i] == meant[i + 1]);
        }
        actions_then(rest, later, t, actions, given.push(meant[0]));
        assert(given.push(meant[0]) + later =~= given + meant);
        let options = spell_options(first.segments) + tail;
        let after = seq!['/'] + options;
        assert(s =~= seq!['/', '@'] + (first.name + after));
        assert(s.skip(2) =~= first.name + after);
        assert forall|j: int| 0 <= j < first.name.len() implies !occurs(
            seq!['/'],
            #[trigger] first.name[j],
        ) by {
            stops_are_these(first.name[j]);
        }
        stops_are_these('/');
        word_then(first.name, after, seq!['/'], 0);
        assert(marked(s, 0) == first.name);
        assert(leads_action(s));
        let at = choose|at: int|
            0 <= at < actions.len() && (first.name == (#[trigger] actions[at]).action.spec_name()
                || (actions[at].action.spec_short().len() > 0 && first.name
                == actions[at].action.spec_short())) && meant[0].name
                == actions[at].action.spec_name() && (forall|i: int|
                0 <= i < first.segments.len() ==> option_means(
                    actions[at].action.spec_options(),
                    #[trigger] first.segments[i],
                    meant[0].segments[i],
                )) && forall|j: int|
                0 <= j < at ==> first.name != (#[trigger] actions[j]).action.spec_name()
                    && first.name != actions[j].action.spec_short();
        first_action(actions, first.name, 0, at);
        assert(s.skip(first.name.len() as int + 3) =~= options);
        options_then(
            first.segments,
            meant[0].segments,
            tail,
            meant[0].name,
            actions[at].action.spec_options(),
            Seq::empty(),
        );
        assert(Seq::<SegmentModel>::empty() + meant[0].segments =~= meant[0].segments);
        assert(meant[0] == ActionModel { name: meant[0].name, segments: meant[0].segments });
    }
}

/// A request as it is spelled: the dataset, the encoding where one is given, the filters, the
/// actions, and the name of the download where there is one.
pub open spec fn spelled(
    dataset: Seq<char>,
    label: Option<Seq<char>>,
    filters: Seq<SegmentModel>,
    actions: Seq<ActionModel>,
    download: Seq<char>,
    extension: Seq<char>,
) -> Seq<char> {
    let given = match label {
        Some(label) => seq![',', 'e', 'n', 'c', ':'] + label,
        None => Seq::empty(),
    };
    "@dataset:"@ + (dataset + (given + (spell_filters(filters) + (spell_actions(actions)
        + download)))) + seq!['.'] + extension
}

proof fn suffix_is_cut(source: Seq<char>, extension: Seq<char>)
    requires
        extension == "geojson"@ || extension == "json"@,
    ensures
        format_of(source + seq!['.'] + extension) == Some(
            (
                source,
                extension,
                if extension == "geojson"@ {
                    Format::GeoJson
                } else {
                    Format::Json
                },
            ),
        ),
{
    reveal_strlit("geojson");
    reveal_strlit("json");
    let path = source + seq!['.'] + extension;
    let lower = lowered(path);
    let n = path.len() - extension.len();
    assert(lowered(extension) =~= extension);
    assert(lower.skip(n) =~= lowered(extension));
    assert(path[n - 1] == '.');
    assert(lower[n - 1] == '.');
    assert(ends_in(path, extension));
    assert(path.take(n - 1) =~= source);
    if extension == "json"@ && ends_in(path, "geojson"@) {
        let m = path.len() - 7;
        assert(lower.skip(m)[2] == "geojson"@[2]);
        assert(lower[m + 2] == 'o');
        assert(m + 2 == n - 1);
    }
}

/// A request is read as it is spelled: its dataset, its encoding, each of its filters with its
/// parameters, each of its actions with its options, and its format, all in their order and under
/// their canonical names.
pub proof fn requests_are_read_as_they_are_spelled(
    dataset: Seq<char>,
    label: Option<Seq<char>>,
    asked_filters: Seq<SegmentModel>,
    meant_filters: Seq<SegmentModel>,
    asked_actions: Seq<ActionModel>,
    meant_actions: Seq<ActionModel>,
    download: Seq<char>,
    extension: Seq<char>,
    filters: Seq<SegmentDef>,
    actions: Seq<ActionDef>,
    outputs: Seq<Arc<OutputDef>>,
)
    requires
        is_token(dataset),
        label matches Some(label) ==> is_word(label) && encoding_of(label) is Some,
        asked_filters.len() == meant_filters.len() <= 50,
        forall|i: int|
            0 <= i < asked_filters.len() ==> means(
                filters,
                #[trigger] asked_filters[i],
                meant_filters[i],
            ),
        asked_actions.len() == meant_actions.len() <= 10,
        forall|i: int|
            0 <= i < asked_actions.len() ==> action_means(
                actions,
                #[trigger] asked_actions[i],
                meant_actions[i],
            ),
        is_download(download),
        extension == "geojson"@ || extension == "json"@,
        outputs.len() == 1,
        is_geojson(*outputs[0]),
    ensures
        parsed_of(
            spelled(dataset, label, asked_filters, asked_actions, download, extension),
            filters,
            actions,
            outputs,
        ) == Ok::<_, ParseError<Seq<char>>>(
            ParsedModel {
                dataset,
                path: None,
                encoding: match label {
                    Some(label) => encoding_of(label)->0,
                    None => "UTF-8"@,
                },
                filters: meant_filters,
                actions: meant_actions,
                format: Some(
                    if extension == "geojson"@ {
                        Format::GeoJson
                    } else {
                        Format::Json
                    },
                ),
                extension,
            },
        ),
{
    let none = Seq::<char>::empty();
    let t = spell_actions(asked_actions) + download;
    let after = spell_filters(asked_filters) + t;
    let given = match label {
        Some(label) => seq![',', 'e', 'n', 'c', ':'] + label,
        None => none,
    };
    let rest = given + after;
    let body = dataset + rest;
    let source = "@dataset:"@ + body;
    let url = spelled(dataset, label, asked_filters, asked_actions, download, extension);
    assert(url == source + seq!['.'] + extension);
    reveal_strlit("@dataset:");
    reveal_strlit("dataset");
    assert(url[0] == '@');
    assert(without_slashes(url) == url);
    suffix_is_cut(source, extension);
    geojson_alone_offers_the_formats(outputs, url);
    let kind = "dataset"@;
    assert(source.skip(1) =~= kind + (seq![':'] + body));
    assert forall|j: int| 0 <= j < kind.len() implies !occurs(seq![':'], #[trigger] kind[j]) by {
        stops_are_these(kind[j]);
    }
    stops_are_these(':');
    word_then(kind, seq![':'] + body, seq![':'], 0);
    assert((seq![':'] + body).skip(1) =~= body);
    actions_then(asked_actions, meant_actions, download, actions, Seq::empty());
    assert(Seq::<ActionModel>::empty() + meant_actions =~= meant_actions);
    let encoding: Option<Seq<char>> = label;
    filters_then(asked_filters, meant_filters, t, filters, encoding, Seq::empty());
    assert(Seq::<SegmentModel>::empty() + meant_filters =~= meant_filters);
    assert(is_word(dataset)) by {
        assert forall|i: int| 0 <= i < dataset.len() implies ({
            let c = #[trigger] dataset[i];
            c != ':' && c != ',' && c != '/' && c != '~' && c != '(' && c != ')'
        }) by {}
    }
    match label {
        Some(label) => {
            let params = seq![label];
            let key = seq!['e', 'n', 'c'];
            reveal_strlit("enc");
            assert(key =~= "enc"@);
            assert(params.skip(1) =~= Seq::<Seq<char>>::empty());
            assert(spell_params(params.skip(1)) =~= none);
            assert(spell_params(params) =~= seq![':'] + label);
            word_is_value(label);
            params_then(params, after);
            values_are_no_fault(params, 0);
            let values = spell_params(params) + after;
            assert(rest.skip(1) =~= key + values);
            assert(is_word(key));
            name_then(key, values);
            assert(rest[0] == ',');
            assert(options_of(rest, filters, None, Seq::empty()) == options_of(
                after,
                filters,
                Some(label),
                Seq::empty(),
            ));
        },
        None => {
            assert(rest =~= after);
        },
    }
    assert(is_over(rest) && !leads(rest, ':'));
    name_then(dataset, rest);
    if download.len() > 0 {
        let name = download.skip(1);
        no_marker(name, actions, 0);
        assert(name[0] == download[1]);
        assert(!occurs(name, ',') && !occurs(name, ':'));
    }
    assert(tail_fault(download, actions) is None);
}

proof fn no_marker(name: Seq<char>, actions: Seq<ActionDef>, from: int)
    requires
        is_word(name),
        0 <= from <= name.len(),
    ensures
        marker_at(name, actions, from) == name.len(),
    decreases name.len() - from,
{
    if from < name.len() {
        assert(name[from] != '/');
        no_marker(name, actions, from + 1);
    }
}

// What is refused.

proof fn filters_step(
    asked: Seq<SegmentModel>,
    meant: Seq<SegmentModel>,
    u: Seq<char>,
    filters: Seq<SegmentDef>,
    encoding: Option<Seq<char>>,
    given: Seq<SegmentModel>,
)
    requires
        asked.len() == meant.len(),
        given.len() + asked.len() <= 50,
        forall|i: int| 0 <= i < asked.len() ==> means(filters, #[trigger] asked[i], meant[i]),
        is_over(u),
        !leads(u, ':'),
    ensures
        options_of(spell_filters(asked) + u, filters, encoding, given) == options_of(
            u,
            filters,
            encoding,
            given + meant,
        ),
        is_over(spell_filters(asked) + u),
        !leads(spell_filters(asked) + u, ':'),
    decreases asked.len(),
{
    let s = spell_filters(asked) + u;
    if asked.len() == 0 {
        assert(s =~= u);
        assert(given + meant =~= given);
    } else {
        let first = asked[0];
        let rest = asked.skip(1);
        let later = meant.skip(1);
        let tail = spell_filters(rest) + u;
        assert(means(filters, first, meant[0]));
        assert forall|i: int| 0 <= i < rest.len() implies means(
            filters,
            #[trigger] rest[i],
            later[i],
        ) by {
            assert(rest[i] == asked[i + 1] && later[i] == meant[i + 1]);
        }
        filters_step(rest, later, u, filters, encoding, given.push(meant[0]));
        assert(given.push(meant[0]) + later =~= given + meant);
        let values = spell_params(first.params) + tail;
        assert(s.skip(1) =~= first.name + values);
        params_then(first.params, tail);
        name_then(first.name, values);
        filter_is_found(filters, first, meant[0]);
        assert(s[0] == ',');
    }
}

/// A request for a dataset: what is asked of it, and the extension.
pub open spec fn asked_of_dataset(
    dataset: Seq<char>,
    body: Seq<char>,
    extension: Seq<char>,
) -> Seq<char> {
    "@dataset:"@ + (dataset + body) + seq!['.'] + extension
}

proof fn dataset_is_reached(
    dataset: Seq<char>,
    body: Seq<char>,
    extension: Seq<char>,
    filters: Seq<SegmentDef>,
    actions: Seq<ActionDef>,
    outputs: Seq<Arc<OutputDef>>,
)
    requires
        extension == "geojson"@ || extension == "json"@,
        outputs.len() == 1,
        is_geojson(*outputs[0]),
    ensures
        parsed_of(asked_of_dataset(dataset, body, extension), filters, actions, outputs)
            == dataset_of(
            dataset + body,
            extension,
            Some(
                if extension == "geojson"@ {
                    Format::GeoJson
                } else {
                    Format::Json
                },
            ),
            filters,
            actions,
        ),
{
    let all = dataset + body;
    let source = "@dataset:"@ + all;
    let url = asked_of_dataset(dataset, body, extension);
    reveal_strlit("@dataset:");
    reveal_strlit("dataset");
    assert(url[0] == '@');
    assert(without_slashes(url) == url);
    suffix_is_cut(source, extension);
    geojson_alone_offers_the_formats(outputs, url);
    let kind = "dataset"@;
    assert(source.skip(1) =~= kind + (seq![':'] + all));
    assert forall|j: int| 0 <= j < kind.len() implies !occurs(seq![':'], #[trigger] kind[j]) by {
        stops_are_these(kind[j]);
    }
    stops_are_these(':');
    word_then(kind, seq![':'] + all, seq![':'], 0);
    assert((seq![':'] + all).skip(1) =~= all);
}

proof fn token_is_word(s: Seq<char>)
    requires
        is_token(s),
    ensures
        is_word(s),
{
    assert forall|i: int| 0 <= i < s.len() implies ({
        let c = #[trigger] s[i];
        c != ':' && c != ',' && c != '/' && c != '~' && c != '(' && c != ')'
    }) by {}
}

/// Nothing answers to a name.
pub open spec fn is_unknown_filter(filters: Seq<SegmentDef>, name: Seq<char>) -> bool {
    forall|i: int|
        0 <= i < filters.len() ==> name != (#[trigger] filters[i]).name@ && name
            != filters[i].short@
}

proof fn no_filter(filters: Seq<SegmentDef>, name: Seq<char>, from: int)
    requires
        0 <= from <= filters.len(),
        is_unknown_filter(filters, name),
    ensures
        filter_at(filters, name, from) == filters.len(),
    decreases filters.len() - from,
{
    if from < filters.len() {
        assert(name != filters[from].name@);
        no_filter(filters, name, from + 1);
    }
}

/// After any filters that are in order, a name that no filter answers to is refused, and so is a
/// filter beyond the fiftieth, one with another number of parameters than it takes, one with an empty
/// parameter, and an encoding.
pub proof fn filters_out_of_order_are_refused(
    dataset: Seq<char>,
    asked: Seq<SegmentModel>,
    meant: Seq<SegmentModel>,
    next: SegmentModel,
    at: int,
    t: Seq<char>,
    extension: Seq<char>,
    filters: Seq<SegmentDef>,
    actions: Seq<ActionDef>,
    outputs: Seq<Arc<OutputDef>>,
)
    requires
        is_token(dataset),
        asked.len() == meant.len() <= 50,
        forall|i: int| 0 <= i < asked.len() ==> means(filters, #[trigger] asked[i], meant[i]),
        is_word(next.name),
        forall|i: int| 0 <= i < next.params.len() ==> is_value(#[trigger] next.params[i]),
        t.len() == 0 || t[0] == ',' || t[0] == '/',
        extension == "geojson"@ || extension == "json"@,
        outputs.len() == 1,
        is_geojson(*outputs[0]),
    ensures
        ({
            let text = spell_filters(asked) + (seq![','] + (next.name + (spell_params(next.params)
                + t)));
            let r = parsed_of(asked_of_dataset(dataset, text, extension), filters, actions, outputs);
            let encoding = next.name == "enc"@ || next.name == "encoding"@;
            &&& !encoding && is_unknown_filter(filters, next.name) ==> r == Err::<ParsedModel, _>(
                ParseError::UnknownOption(next.name),
            )
            &&& !encoding && asked.len() == 50 && (exists|m: SegmentModel| means(filters, next, m))
                ==> r == Err::<ParsedModel, ParseError<Seq<char>>>(ParseError::TooManyFilters)
            &&& !encoding && next.params.len() > 0 && 0 <= at < filters.len() && (next.name
                == filters[at].name@ || (filters[at].short@.len() > 0 && next.name
                == filters[at].short@)) && (forall|j: int|
                0 <= j < at ==> next.name != (#[trigger] filters[j]).name@ && next.name
                    != filters[j].short@) && (forall|k: int|
                0 <= k < filters[at].shapes@.len() ==> (#[trigger] filters[at].shapes@[k])@.len()
                    != next.params.len()) ==> r == Err::<ParsedModel, _>(
                ParseError::WrongParameterCount(next.name),
            )
            &&& encoding && next.params.len() == 0 ==> r == Err::<ParsedModel, _>(
                ParseError::EmptyOptionValue(next.name),
            )
            &&& encoding && next.params.len() > 1 ==> r == Err::<ParsedModel, _>(
                ParseError::OptionTakesOneValue(next.name),
            )
            &&& encoding && next.params.len() == 1 && asked.len() > 0 ==> r == Err::<
                ParsedModel,
                _,
            >(ParseError::MisplacedSourceOption(next.name))
        }),
{
    let values = spell_params(next.params) + t;
    let u = seq![','] + (next.name + values);
    let text = spell_filters(asked) + u;
    dataset_is_reached(dataset, text, extension, filters, actions, outputs);
    token_is_word(dataset);
    filters_step(asked, meant, u, filters, None, Seq::empty());
    assert(Seq::<SegmentModel>::empty() + meant =~= meant);
    name_then(dataset, text);
    params_then(next.params, t);
    assert(u.skip(1) =~= next.name + values);
    name_then(next.name, values);
    values_are_no_fault(next.params, 0);
    let encoding = next.name == "enc"@ || next.name == "encoding"@;
    if !encoding && is_unknown_filter(filters, next.name) {
        no_filter(filters, next.name, 0);
    }
    if exists|m: SegmentModel| means(filters, next, m) {
        let m = choose|m: SegmentModel| means(filters, next, m);
        filter_is_found(filters, next, m);
    }
    if 0 <= at < filters.len() && (next.name == filters[at].name@ || (filters[at].short@.len() > 0
        && next.name == filters[at].short@)) && (forall|j: int|
        0 <= j < at ==> next.name != (#[trigger] filters[j]).name@ && next.name
            != filters[j].short@) {
        first_filter(filters, next.name, 0, at);
        if forall|k: int|
            0 <= k < filters[at].shapes@.len() ==> (#[trigger] filters[at].shapes@[k])@.len()
                != next.params.len() {
            let shapes = views(filters[at].shapes@);
            assert(!takes(shapes, next.params.len())) by {
                if takes(shapes, next.params.len()) {
                    let k = choose|k: int|
                        0 <= k < shapes.len() && (#[trigger] shapes[k]).len() == next.params.len();
                    assert(shapes[k] == filters[at].shapes@[k]@);
                }
            }
        }
    }
}

/// After a dataset and filters that are in order, an action that none is called is refused, and so is
/// an option that the action has not.
pub proof fn unknown_actions_are_refused(
    dataset: Seq<char>,
    asked: Seq<SegmentModel>,
    meant: Seq<SegmentModel>,
    word: Seq<char>,
    at: int,
    key: Seq<char>,
    rest: Seq<char>,
    extension: Seq<char>,
    filters: Seq<SegmentDef>,
    actions: Seq<ActionDef>,
    outputs: Seq<Arc<OutputDef>>,
)
    requires
        is_token(dataset),
        asked.len() == meant.len() <= 50,
        forall|i: int| 0 <= i < asked.len() ==> means(filters, #[trigger] asked[i], meant[i]),
        is_word(word),
        is_word(key),
        is_over(rest),
        extension == "geojson"@ || extension == "json"@,
        outputs.len() == 1,
        is_geojson(*outputs[0]),
    ensures
        ({
            let text = spell_filters(asked) + (seq!['/', '@'] + (word + (seq!['/'] + (key + rest))));
            let r = parsed_of(asked_of_dataset(dataset, text, extension), filters, actions, outputs);
            &&& (forall|i: int|
                0 <= i < actions.len() ==> word != (#[trigger] actions[i]).action.spec_name()
                    && word != actions[i].action.spec_short()) ==> r == Err::<ParsedModel, _>(
                ParseError::UnknownAction(word),
            )
            &&& 0 <= at < actions.len() && word == actions[at].action.spec_name() && (forall|j: int|
                0 <= j < at ==> word != (#[trigger] actions[j]).action.spec_name() && word
                    != actions[j].action.spec_short()) && (forall|k: int|
                0 <= k < actions[at].action.spec_options().len() ==> key != (
                #[trigger] actions[at].action.spec_options()[k]).name && key
                    != actions[at].action.spec_options()[k].short) ==> r == Err::<ParsedModel, _>(
                ParseError::UnknownOption(key),
            )
        }),
{
    let options = key + rest;
    let after = seq!['/'] + options;
    let t = seq!['/', '@'] + (word + after);
    let text = spell_filters(asked) + t;
    dataset_is_reached(dataset, text, extension, filters, actions, outputs);
    token_is_word(dataset);
    filters_then(asked, meant, t, filters, None, Seq::empty());
    assert(Seq::<SegmentModel>::empty() + meant =~= meant);
    name_then(dataset, text);
    assert(t.skip(2) =~= word + after);
    assert forall|j: int| 0 <= j < word.len() implies !occurs(seq!['/'], #[trigger] word[j]) by {
        stops_are_these(word[j]);
    }
    stops_are_these('/');
    word_then(word, after, seq!['/'], 0);
    assert(marked(t, 0) == word);
    assert(leads_action(t));
    assert(t.skip(word.len() as int + 3) =~= options);
    name_then(key, rest);
    if forall|i: int|
        0 <= i < actions.len() ==> word != (#[trigger] actions[i]).action.spec_name() && word
            != actions[i].action.spec_short() {
        action_at_bounds(actions, word, 0);
        let found = action_at(actions, word, 0);
        if found < actions.len() {
            assert(word != actions[found].action.spec_name());
        }
    }
    if 0 <= at < actions.len() && word == actions[at].action.spec_name() && (forall|j: int|
        0 <= j < at ==> word != (#[trigger] actions[j]).action.spec_name() && word
            != actions[j].action.spec_short()) {
        first_action(actions, word, 0, at);
        let known = actions[at].action.spec_options();
        if forall|k: int|
            0 <= k < known.len() ==> key != (#[trigger] known[k]).name && key != known[k].short {
            no_option(known, key, 0);
        }
    }
}

proof fn no_option(options: Seq<OptModel>, name: Seq<char>, from: int)
    requires
        0 <= from <= options.len(),
        forall|k: int|
            0 <= k < options.len() ==> name != (#[trigger] options[k]).name && name
                != options[k].short,
    ensures
        option_at(options, name, from) == options.len(),
    decreases options.len() - from,
{
    if from < options.len() {
        assert(name != options[from].name);
        no_option(options, name, from + 1);
    }
}

/// A name of a dataset with any other sign than letters, digits, dots, dashes and underscores is
/// refused, and so is none.
pub proof fn datasets_have_plain_names(
    name: Seq<char>,
    k: int,
    t: Seq<char>,
    extension: Seq<char>,
    filters: Seq<SegmentDef>,
    actions: Seq<ActionDef>,
    outputs: Seq<Arc<OutputDef>>,
)
    requires
        is_over(t),
        extension == "geojson"@ || extension == "json"@,
        outputs.len() == 1,
        is_geojson(*outputs[0]),
    ensures
        is_word(name) && 0 <= k < name.len() && !(('a' <= name[k] <= 'z') || ('A' <= name[k]
            <= 'Z') || ('0' <= name[k] <= '9') || name[k] == '.' || name[k] == '-' || name[k] == '_')
            ==> parsed_of(asked_of_dataset(name, t, extension), filters, actions, outputs)
            == Err::<ParsedModel, _>(ParseError::InvalidName(name)),
        parsed_of(asked_of_dataset(Seq::empty(), t, extension), filters, actions, outputs)
            == Err::<ParsedModel, ParseError<Seq<char>>>(ParseError::EmptySourceValue),
        is_token(name) ==> forall|i: int|
            0 <= i < name.len() ==> ({
                let c = #[trigger] name[i];
                ('a' <= c <= 'z') || ('A' <= c <= 'Z') || ('0' <= c <= '9') || c == '.' || c == '-'
                    || c == '_'
            }),
{
    dataset_is_reached(name, t, extension, filters, actions, outputs);
    let none = Seq::<char>::empty();
    dataset_is_reached(none, t, extension, filters, actions, outputs);
    if is_word(name) {
        name_then(name, t);
        if 0 <= k < name.len() && is_token(name) {
            assert(name[k] == name[k]);
        }
    }
    assert(none + t =~= t);
    if t.len() > 0 {
        stops_are_these(t[0]);
    }
    assert(stop_at(t, name_stops(), 0) == 0);
    assert(t.take(0) =~= none);
    if is_token(name) {
        assert forall|i: int| 0 <= i < name.len() implies ({
            let c = #[trigger] name[i];
            ('a' <= c <= 'z') || ('A' <= c <= 'Z') || ('0' <= c <= '9') || c == '.' || c == '-' || c
                == '_'
        }) by {}
    }
}

/// A path that does not begin with the sign of a source, or names another kind of source, is
/// refused; and so is one without an extension, with an unknown one, or with nothing in it.
pub proof fn other_sources_are_refused(
    kind: Seq<char>,
    rest: Seq<char>,
    source: Seq<char>,
    extension: Seq<char>,
    filters: Seq<SegmentDef>,
    actions: Seq<ActionDef>,
    outputs: Seq<Arc<OutputDef>>,
)
    requires
        extension == "geojson"@ || extension == "json"@,
        outputs.len() == 1,
        is_geojson(*outputs[0]),
    ensures
        !occurs(kind, ':') && kind != "dataset"@ && kind != "ds"@ ==> parsed_of(
            (seq!['@'] + (kind + (seq![':'] + rest))) + seq!['.'] + extension,
            filters,
            actions,
            outputs,
        ) == Err::<ParsedModel, _>(ParseError::UnknownSource(kind)),
        source.len() > 0 && source[0] != '@' && source[0] != '/' ==> parsed_of(
            source + seq!['.'] + extension,
            filters,
            actions,
            outputs,
        ) == Err::<ParsedModel, ParseError<Seq<char>>>(ParseError::MissingSourcePrefix),
        parsed_of(Seq::empty(), filters, actions, outputs) == Err::<
            ParsedModel,
            ParseError<Seq<char>>,
        >(ParseError::Empty),
        source.len() > 0 && source[0] != '/' && !occurs(source, '.') ==> parsed_of(
            source,
            filters,
            actions,
            outputs,
        ) == Err::<ParsedModel, ParseError<Seq<char>>>(ParseError::MissingOutputSegment),
{
    let body = seq!['@'] + (kind + (seq![':'] + rest));
    let url = body + seq!['.'] + extension;
    suffix_is_cut(body, extension);
    suffix_is_cut(source, extension);
    assert(url[0] == '@');
    assert(without_slashes(url) == url);
    geojson_alone_offers_the_formats(outputs, url);
    if !occurs(kind, ':') {
        assert(body.skip(1) =~= kind + (seq![':'] + rest));
        assert forall|j: int| 0 <= j < kind.len() implies !occurs(
            seq![':'],
            #[trigger] kind[j],
        ) by {
            stops_are_these(kind[j]);
        }
        stops_are_these(':');
        word_then(kind, seq![':'] + rest, seq![':'], 0);
    }
    if source.len() > 0 && source[0] != '/' {
        let other = source + seq!['.'] + extension;
        assert(other[0] == source[0]);
        assert(without_slashes(other) == other);
        geojson_alone_offers_the_formats(outputs, other);
        assert(without_slashes(source) == source);
        geojson_alone_offers_the_formats(outputs, source);
        if !occurs(source, '.') {
            reveal_strlit("geojson");
            reveal_strlit("json");
            let lower = lowered(source);
            let n = source.len();
            assert forall|i: int| 0 <= i < n implies #[trigger] lower[i] != '.' by {
                assert(source[i] != '.');
            }
        }
    }
}

// Paths inside an archive.

proof fn no_marker_in_path(path: Seq<char>, actions: Seq<ActionDef>, from: int)
    requires
        !occurs(path, '@'),
        0 <= from <= path.len(),
    ensures
        marker_at(path, actions, from) == path.len(),
    decreases path.len() - from,
{
    if from < path.len() {
        if from + 1 < path.len() {
            assert(path[from + 1] != '@');
        }
        no_marker_in_path(path, actions, from + 1);
    }
}

/// A path whose last part, from `from` on, names a file that can be read.
pub open spec fn is_file_path(path: Seq<char>, from: int) -> bool {
    &&& valid_path(path)
    &&& 0 <= from < path.len()
    &&& from == 0 || path[from - 1] == '/'
    &&& forall|i: int| from <= i < path.len() ==> #[trigger] path[i] != '/'
    &&& is_source(path.skip(from))
}

proof fn file_path_is_kept(path: Seq<char>, from: int)
    requires
        is_file_path(path, from),
    ensures
        without_filename(path) == path,
{
    filename_is_taken_off_once(path);
    let n = path.len() as int;
    assert(path.subrange(from, n) =~= path.skip(from));
    assert(readable_part(path, from, n));
    assert(path.take(n) =~= path);
}

/// A path inside an archive that ends in a file that can be read is read as it is spelled, before
/// any filters.
pub proof fn paths_are_read_as_they_are_spelled(
    dataset: Seq<char>,
    path: Seq<char>,
    from: int,
    asked: Seq<SegmentModel>,
    meant: Seq<SegmentModel>,
    extension: Seq<char>,
    filters: Seq<SegmentDef>,
    actions: Seq<ActionDef>,
    outputs: Seq<Arc<OutputDef>>,
)
    requires
        is_token(dataset),
        is_file_path(path, from),
        asked.len() == meant.len() <= 50,
        forall|i: int| 0 <= i < asked.len() ==> means(filters, #[trigger] asked[i], meant[i]),
        extension == "geojson"@ || extension == "json"@,
        outputs.len() == 1,
        is_geojson(*outputs[0]),
    ensures
        parsed_of(
            asked_of_dataset(dataset, seq![':'] + (path + spell_filters(asked)), extension),
            filters,
            actions,
            outputs,
        ) matches Ok(parsed) && parsed.dataset == dataset && parsed.path == Some(path)
            && parsed.filters == meant && parsed.actions.len() == 0 && parsed.encoding == "UTF-8"@,
{
    let none = Seq::<char>::empty();
    let after = spell_filters(asked) + none;
    assert(after =~= spell_filters(asked));
    let body = seq![':'] + (path + after);
    dataset_is_reached(dataset, body, extension, filters, actions, outputs);
    token_is_word(dataset);
    name_then(dataset, body);
    filters_then(asked, meant, none, filters, None, Seq::empty());
    assert(Seq::<SegmentModel>::empty() + meant =~= meant);
    assert(body.skip(1) =~= path + after);
    assert forall|j: int| 0 <= j < path.len() implies !occurs(seq![','], #[trigger] path[j]) by {
        stops_are_these(path[j]);
    }
    if after.len() > 0 {
        assert(after[0] == ',');
        stops_are_these(after[0]);
    }
    word_then(path, after, seq![','], 0);
    assert(!occurs(path, '@')) by {
        if occurs(path, '@') {
            let i = choose|i: int| 0 <= i < path.len() && path[i] == '@';
            assert(is_path_char(path[i]));
        }
    }
    no_marker_in_path(path, actions, 0);
    assert(path.take(path.len() as int) =~= path);
    file_path_is_kept(path, from);
    assert(subpath_of(body, actions) == Ok::<_, ParseError<Seq<char>>>((Some(path), after)));
    assert(!leads_action(none));
    assert(actions_of(none, actions, Seq::empty()) == Ok::<_, ParseError<Seq<char>>>(
        (Seq::<ActionModel>::empty(), none),
    ));
    assert(tail_fault(none, actions) is None);
}

/// A request never has more than fifty filters and ten actions, and no action more than twenty
/// options, none of them twice.
pub proof fn requests_keep_within_their_limits(
    url: Seq<char>,
    filters: Seq<SegmentDef>,
    actions: Seq<ActionDef>,
    outputs: Seq<Arc<OutputDef>>,
)
    ensures
        parsed_of(url, filters, actions, outputs) matches Ok(p) ==> {
            &&& p.filters.len() <= 50
            &&& p.actions.len() <= 10
            &&& forall|i: int|
                0 <= i < p.actions.len() ==> 0 < (#[trigger] p.actions[i]).segments.len() <= 20
            &&& forall|i: int, j: int, k: int|
                0 <= i < p.actions.len() && 0 <= j < k < p.actions[i].segments.len() ==> (
                #[trigger] p.actions[i].segments[j]).name != (
                #[trigger] p.actions[i].segments[k]).name
        },
{
    if parsed_of(url, filters, actions, outputs) is Ok {
        parsed_request_is_allowed(url, filters, actions, outputs);
        let p = parsed_of(url, filters, actions, outputs)->Ok_0;
        assert forall|i: int| 0 <= i < p.actions.len() implies 0 < (
        #[trigger] p.actions[i]).segments.len() <= 20 by {
            assert(action_allowed(actions, p.actions[i]));
        }
        assert forall|i: int, j: int, k: int|
            0 <= i < p.actions.len() && 0 <= j < k < p.actions[i].segments.len() implies (
        #[trigger] p.actions[i].segments[j]).name != (#[trigger] p.actions[i].segments[k]).name by {
            assert(action_allowed(actions, p.actions[i]));
        }
    }
}

// What is refused of actions and downloads.

proof fn option_is_found(options: Seq<OptModel>, asked: SegmentModel, meant: SegmentModel)
    requires
        option_means(options, asked, meant),
    ensures
        option_of(options, asked.name) is Some,
        segment_of(
            asked.name,
            asked.params,
            option_of(options, asked.name)->0.name,
            option_of(options, asked.name)->0.shapes,
        ) == Ok::<_, ParseError<Seq<char>>>(meant),
{
    let at = choose|at: int|
        0 <= at < options.len() && (asked.name == (#[trigger] options[at]).name || (
        options[at].short.len() > 0 && asked.name == options[at].short)) && meant.name
            == options[at].name && (exists|k: int|
            0 <= k < options[at].shapes.len() && (#[trigger] options[at].shapes[k]).len()
                == asked.params.len()) && forall|j: int|
            0 <= j < at ==> asked.name != (#[trigger] options[j]).name && asked.name
                != options[j].short;
    first_option(options, asked.name, 0, at);
    values_are_no_fault(asked.params, 0);
    assert(takes(options[at].shapes, asked.params.len()));
}

proof fn options_step(
    asked: Seq<SegmentModel>,
    meant: Seq<SegmentModel>,
    v: Seq<char>,
    action: Seq<char>,
    options: Seq<OptModel>,
    given: Seq<SegmentModel>,
)
    requires
        asked.len() == meant.len(),
        asked.len() > 0,
        given.len() + asked.len() <= 20,
        forall|i: int| 0 <= i < asked.len() ==> option_means(options, #[trigger] asked[i], meant[i]),
        forall|i: int, j: int|
            0 <= i < given.len() && 0 <= j < meant.len() ==> (#[trigger] given[i]).name != (
            #[trigger] meant[j]).name,
        forall|i: int, j: int|
            0 <= i < j < meant.len() ==> (#[trigger] meant[i]).name != (#[trigger] meant[j]).name,
    ensures
        action_options(spell_options(asked) + (seq![','] + v), action, options, given)
            == action_options(v, action, options, given + meant),
    decreases asked.len(),
{
    let t = seq![','] + v;
    let first = asked[0];
    let rest = asked.skip(1);
    let later = meant.skip(1);
    let tail = spell_filters(rest) + t;
    let values = spell_params(first.params) + tail;
    let s = spell_options(asked) + t;
    assert(option_means(options, first, meant[0]));
    assert(s =~= first.name + values);
    if rest.len() == 0 {
        assert(tail =~= t);
    }
    assert(tail[0] == ',');
    params_then(first.params, tail);
    name_then(first.name, values);
    option_is_found(options, first, meant[0]);
    assert(!is_given(given, meant[0].name)) by {
        if is_given(given, meant[0].name) {
            let i = choose|i: int| 0 <= i < given.len() && (#[trigger] given[i]).name
                == meant[0].name;
            assert(given[i].name != meant[0].name);
        }
    }
    let so_far = given.push(meant[0]);
    if rest.len() == 0 {
        assert(so_far =~= given + meant);
        assert(tail.skip(1) =~= v);
    } else {
        assert forall|i: int| 0 <= i < rest.len() implies option_means(
            options,
            #[trigger] rest[i],
            later[i],
        ) by {
            assert(rest[i] == asked[i + 1] && later[i] == meant[i + 1]);
        }
        assert forall|i: int, j: int| 0 <= i < so_far.len() && 0 <= j < later.len() implies (
        #[trigger] so_far[i]).name != (#[trigger] later[j]).name by {
            assert(later[j] == meant[j + 1]);
            if i < given.len() {
                assert(so_far[i] == given[i]);
            } else {
                assert(so_far[i] == meant[0]);
            }
        }
        assert forall|i: int, j: int| 0 <= i < j < later.len() implies (#[trigger] later[i]).name
            != (#[trigger] later[j]).name by {
            assert(later[i] == meant[i + 1] && later[j] == meant[j + 1]);
        }
        options_step(rest, later, v, action, options, so_far);
        assert(tail.skip(1) =~= spell_options(rest) + t);
        assert(so_far + later =~= given + meant);
    }
}

proof fn action_is_marked(word: Seq<char>, options: Seq<char>)
    requires
        is_word(word),
    ensures
        ({
            let t = seq!['/', '@'] + (word + (seq!['/'] + options));
            &&& leads_action(t)
            &&& marked(t, 0) == word
            &&& t.skip(word.len() as int + 3) == options
        }),
{
    let after = seq!['/'] + options;
    let t = seq!['/', '@'] + (word + after);
    assert(t.skip(2) =~= word + after);
    assert forall|j: int| 0 <= j < word.len() implies !occurs(seq!['/'], #[trigger] word[j]) by {
        stops_are_these(word[j]);
    }
    stops_are_these('/');
    word_then(word, after, seq!['/'], 0);
    assert(t.skip(word.len() as int + 3) =~= options);
}

proof fn actions_step(
    asked: Seq<ActionModel>,
    meant: Seq<ActionModel>,
    u: Seq<char>,
    actions: Seq<ActionDef>,
    given: Seq<ActionModel>,
)
    requires
        asked.len() == meant.len(),
        given.len() + asked.len() <= 10,
        forall|i: int| 0 <= i < asked.len() ==> action_means(actions, #[trigger] asked[i], meant[i]),
        u.len() == 0 || u[0] == '/',
    ensures
        actions_of(spell_actions(asked) + u, actions, given) == actions_of(
            u,
            actions,
            given + meant,
        ),
        (spell_actions(asked) + u).len() == 0 || (spell_actions(asked) + u)[0] == '/',
    decreases asked.len(),
{
    let s = spell_actions(asked) + u;
    if asked.len() == 0 {
        assert(s =~= u);
        assert(given + meant =~= given);
    } else {
        let first = asked[0];
        let rest = asked.skip(1);
        let later = meant.skip(1);
        let tail = spell_actions(rest) + u;
        assert(action_means(actions, first, meant[0]));
        assert forall|i: int| 0 <= i < rest.len() implies action_means(
            actions,
            #[trigger] rest[i],
            later[i],
        ) by {
            assert(rest[i] == asked[i + 1] && later[i] == meant[i + 1]);
        }
        actions_step(rest, later, u, actions, given.push(meant[0]));
        assert(given.push(meant[0]) + later =~= given + meant);
        let options = spell_options(first.segments) + tail;
        assert(s =~= seq!['/', '@'] + (first.name + (seq!['/'] + options)));
        action_is_marked(first.name, options);
        let at = choose|at: int|
            0 <= at < actions.len() && (first.name == (#[trigger] actions[at]).action.spec_name()
                || (actions[at].action.spec_short().len() > 0 && first.name
                == actions[at].action.spec_short())) && meant[0].name
                == actions[at].action.spec_name() && (forall|i: int|
                0 <= i < first.segments.len() ==> option_means(
                    actions[at].action.spec_options(),
                    #[trigger] first.segments[i],
                    meant[0].segments[i],
                )) && forall|j: int|
                0 <= j < at ==> first.name != (#[trigger] actions[j]).action.spec_name()
                    && first.name != actions[j].action.spec_short();
        first_action(actions, first.name, 0, at);
        options_then(
            first.segments,
            meant[0].segments,
            tail,
            meant[0].name,
            actions[at].action.spec_options(),
            Seq::empty(),
        );
        assert(Seq::<SegmentModel>::empty() + meant[0].segments =~= meant[0].segments);
        assert(meant[0] == ActionModel { name: meant[0].name, segments: meant[0].segments });
    }
}

/// A request with filters and actions, and what follows them.
pub open spec fn asked_with(
    dataset: Seq<char>,
    asked: Seq<SegmentModel>,
    done: Seq<ActionModel>,
    tail: Seq<char>,
    extension: Seq<char>,
) -> Seq<char> {
    asked_of_dataset(dataset, spell_filters(asked) + (spell_actions(done) + tail), extension)
}

/// The filters and the actions are in order, and these are what they mean.
pub open spec fn all_in_order(
    dataset: Seq<char>,
    asked: Seq<SegmentModel>,
    meant: Seq<SegmentModel>,
    asked_actions: Seq<ActionModel>,
    meant_actions: Seq<ActionModel>,
    filters: Seq<SegmentDef>,
    actions: Seq<ActionDef>,
) -> bool {
    &&& is_token(dataset)
    &&& asked.len() == meant.len() <= 50
    &&& forall|i: int| 0 <= i < asked.len() ==> means(filters, #[trigger] asked[i], meant[i])
    &&& asked_actions.len() == meant_actions.len() <= 10
    &&& forall|i: int|
        0 <= i < asked_actions.len() ==> action_means(
            actions,
            #[trigger] asked_actions[i],
            meant_actions[i],
        )
}

proof fn tail_is_reached(
    dataset: Seq<char>,
    asked: Seq<SegmentModel>,
    meant: Seq<SegmentModel>,
    asked_actions: Seq<ActionModel>,
    meant_actions: Seq<ActionModel>,
    tail: Seq<char>,
    extension: Seq<char>,
    filters: Seq<SegmentDef>,
    actions: Seq<ActionDef>,
    outputs: Seq<Arc<OutputDef>>,
)
    requires
        all_in_order(dataset, asked, meant, asked_actions, meant_actions, filters, actions),
        tail.len() > 0,
        tail[0] == '/',
        extension == "geojson"@ || extension == "json"@,
        outputs.len() == 1,
        is_geojson(*outputs[0]),
    ensures
        ({
            let r = parsed_of(
                asked_with(dataset, asked, asked_actions, tail, extension),
                filters,
                actions,
                outputs,
            );
            match actions_of(tail, actions, meant_actions) {
                Err(e) => r == Err::<ParsedModel, _>(e),
                Ok((_, rest)) => tail_fault(rest, actions) matches Some(e) ==> r == Err::<
                    ParsedModel,
                    _,
                >(e),
            }
        }),
{
    let t = spell_actions(asked_actions) + tail;
    let text = spell_filters(asked) + t;
    dataset_is_reached(dataset, text, extension, filters, actions, outputs);
    token_is_word(dataset);
    actions_step(asked_actions, meant_actions, tail, actions, Seq::empty());
    assert(Seq::<ActionModel>::empty() + meant_actions =~= meant_actions);
    filters_then(asked, meant, t, filters, None, Seq::empty());
    assert(Seq::<SegmentModel>::empty() + meant =~= meant);
    name_then(dataset, text);
}

/// After filters and actions that are in order, a download whose name holds a comma or a colon is
/// refused as an option that comes too late, and an action that is named as a download is refused
/// for want of options.
pub proof fn options_do_not_follow_the_download(
    dataset: Seq<char>,
    asked: Seq<SegmentModel>,
    meant: Seq<SegmentModel>,
    asked_actions: Seq<ActionModel>,
    meant_actions: Seq<ActionModel>,
    name: Seq<char>,
    word: Seq<char>,
    at: int,
    extension: Seq<char>,
    filters: Seq<SegmentDef>,
    actions: Seq<ActionDef>,
    outputs: Seq<Arc<OutputDef>>,
)
    requires
        all_in_order(dataset, asked, meant, asked_actions, meant_actions, filters, actions),
        !occurs(name, '@'),
        occurs(name, ',') || occurs(name, ':'),
        is_word(word),
        0 <= at < actions.len(),
        word == actions[at].action.spec_name() || (actions[at].action.spec_short().len() > 0 && word
            == actions[at].action.spec_short()),
        forall|j: int|
            0 <= j < at ==> word != (#[trigger] actions[j]).action.spec_name() && word
                != actions[j].action.spec_short(),
        extension == "geojson"@ || extension == "json"@,
        outputs.len() == 1,
        is_geojson(*outputs[0]),
    ensures
        parsed_of(
            asked_with(dataset, asked, asked_actions, seq!['/'] + name, extension),
            filters,
            actions,
            outputs,
        ) == Err::<ParsedModel, _>(ParseError::MisplacedOption(name)),
        parsed_of(
            asked_with(dataset, asked, asked_actions, seq!['/', '@'] + word, extension),
            filters,
            actions,
            outputs,
        ) == Err::<ParsedModel, _>(
            ParseError::ActionWithoutOptions(actions[at].action.spec_name()),
        ),
{
    let t = seq!['/'] + name;
    tail_is_reached(
        dataset,
        asked,
        meant,
        asked_actions,
        meant_actions,
        t,
        extension,
        filters,
        actions,
        outputs,
    );
    assert(t.skip(1) =~= name);
    assert(t[1] == name[0]);
    assert(name[0] != '@');
    no_marker_in_path(name, actions, 0);
    let u = seq!['/', '@'] + word;
    tail_is_reached(
        dataset,
        asked,
        meant,
        asked_actions,
        meant_actions,
        u,
        extension,
        filters,
        actions,
        outputs,
    );
    assert(u.skip(2) =~= word);
    assert(u.skip(1).skip(1) =~= word);
    assert(u.skip(1)[0] == '@');
    assert forall|j: int| 0 <= j < word.len() implies !occurs(seq!['/'], #[trigger] word[j]) by {
        stops_are_these(word[j]);
    }
    let none = Seq::<char>::empty();
    word_then(word, none, seq!['/'], 0);
    assert(word + none =~= word);
    assert(!leads_action(u));
    first_action(actions, word, 0, at);
}

/// After actions that are in order, an option that is given again to one action is refused, under
/// its canonical name, and so is one beyond the twentieth, an action without any, and an action
/// beyond the tenth.
pub proof fn actions_out_of_order_are_refused(
    dataset: Seq<char>,
    asked: Seq<SegmentModel>,
    meant: Seq<SegmentModel>,
    asked_actions: Seq<ActionModel>,
    meant_actions: Seq<ActionModel>,
    word: Seq<char>,
    at: int,
    given: Seq<SegmentModel>,
    known: Seq<SegmentModel>,
    next: SegmentModel,
    meant_next: SegmentModel,
    t: Seq<char>,
    extension: Seq<char>,
    filters: Seq<SegmentDef>,
    actions: Seq<ActionDef>,
    outputs: Seq<Arc<OutputDef>>,
)
    requires
        all_in_order(dataset, asked, meant, asked_actions, meant_actions, filters, actions),
        is_word(word),
        0 <= at < actions.len(),
        word == actions[at].action.spec_name() || (actions[at].action.spec_short().len() > 0 && word
            == actions[at].action.spec_short()),
        forall|j: int|
            0 <= j < at ==> word != (#[trigger] actions[j]).action.spec_name() && word
                != actions[j].action.spec_short(),
        0 < given.len() == known.len() <= 20,
        forall|i: int|
            0 <= i < given.len() ==> option_means(
                actions[at].action.spec_options(),
                #[trigger] given[i],
                known[i],
            ),
        forall|i: int, j: int|
            0 <= i < j < known.len() ==> (#[trigger] known[i]).name != (#[trigger] known[j]).name,
        option_means(actions[at].action.spec_options(), next, meant_next),
        t.len() == 0 || t[0] == ',' || t[0] == '/',
        extension == "geojson"@ || extension == "json"@,
        outputs.len() == 1,
        is_geojson(*outputs[0]),
    ensures
        ({
            let head = seq!['/', '@'] + (word + (seq!['/'] + (spell_options(given) + (seq![',']
                + (next.name + (spell_params(next.params) + t))))));
            let r = parsed_of(
                asked_with(dataset, asked, asked_actions, head, extension),
                filters,
                actions,
                outputs,
            );
            let again = exists|i: int|
                0 <= i < known.len() && (#[trigger] known[i]).name == meant_next.name;
            &&& again ==> r == Err::<ParsedModel, _>(ParseError::RepeatedOption(meant_next.name))
            &&& !again && given.len() == 20 ==> r == Err::<ParsedModel, ParseError<Seq<char>>>(
                ParseError::TooManyOptions,
            )
        }),
        parsed_of(
            asked_with(
                dataset,
                asked,
                asked_actions,
                seq!['/', '@'] + (word + (seq!['/'] + t)),
                extension,
            ),
            filters,
            actions,
            outputs,
        ) == Err::<ParsedModel, _>(
            ParseError::ActionWithoutOptions(actions[at].action.spec_name()),
        ),
        asked_actions.len() == 10 && !(t.len() > 0 && t[0] == ',') ==> parsed_of(
            asked_with(
                dataset,
                asked,
                asked_actions,
                seq!['/', '@'] + (word + (seq!['/'] + (spell_options(given) + t))),
                extension,
            ),
            filters,
            actions,
            outputs,
        ) == Err::<ParsedModel, ParseError<Seq<char>>>(ParseError::TooManyActions),
{
    let name = actions[at].action.spec_name();
    let options = actions[at].action.spec_options();
    let none = Seq::<SegmentModel>::empty();
    first_action(actions, word, 0, at);
    let values = spell_params(next.params) + t;
    let v = next.name + values;
    let text = spell_options(given) + (seq![','] + v);
    let head = seq!['/', '@'] + (word + (seq!['/'] + text));
    action_is_marked(word, text);
    tail_is_reached(
        dataset,
        asked,
        meant,
        asked_actions,
        meant_actions,
        head,
        extension,
        filters,
        actions,
        outputs,
    );
    options_step(given, known, v, name, options, none);
    assert(none + known =~= known);
    params_then(next.params, t);
    name_then(next.name, values);
    option_is_found(options, next, meant_next);
    let bare = seq!['/', '@'] + (word + (seq!['/'] + t));
    action_is_marked(word, t);
    tail_is_reached(
        dataset,
        asked,
        meant,
        asked_actions,
        meant_actions,
        bare,
        extension,
        filters,
        actions,
        outputs,
    );
    if t.len() > 0 {
        stops_are_these(t[0]);
    }
    assert(stop_at(t, name_stops(), 0) == 0);
    assert(name_of(t) =~= Seq::empty());
    if asked_actions.len() == 10 && !(t.len() > 0 && t[0] == ',') {
        let whole = spell_options(given) + t;
        let last = seq!['/', '@'] + (word + (seq!['/'] + whole));
        action_is_marked(word, whole);
        tail_is_reached(
            dataset,
            asked,
            meant,
            asked_actions,
            meant_actions,
            last,
            extension,
            filters,
            actions,
            outputs,
        );
        options_then(given, known, t, name, options, none);
    }
}

/// An encoding is given once: a second one is refused, and so is one that is no label of any.
pub proof fn encodings_are_given_once(
    dataset: Seq<char>,
    label: Seq<char>,
    key: Seq<char>,
    other: Seq<char>,
    asked: Seq<SegmentModel>,
    meant: Seq<SegmentModel>,
    extension: Seq<char>,
    filters: Seq<SegmentDef>,
    actions: Seq<ActionDef>,
    outputs: Seq<Arc<OutputDef>>,
)
    requires
        is_token(dataset),
        is_word(label),
        is_word(other),
        key == "enc"@ || key == "encoding"@,
        asked.len() == meant.len() <= 50,
        forall|i: int| 0 <= i < asked.len() ==> means(filters, #[trigger] asked[i], meant[i]),
        extension == "geojson"@ || extension == "json"@,
        outputs.len() == 1,
        is_geojson(*outputs[0]),
    ensures
        parsed_of(
            asked_of_dataset(
                dataset,
                seq![','] + (key + (seq![':'] + (label + (seq![','] + (key + (seq![':'] + (other
                    + spell_filters(asked)))))))),
                extension,
            ),
            filters,
            actions,
            outputs,
        ) == Err::<ParsedModel, _>(ParseError::RepeatedOption(key)),
        encoding_of(label) is None ==> parsed_of(
            asked_of_dataset(
                dataset,
                seq![','] + (key + (seq![':'] + (label + spell_filters(asked)))),
                extension,
            ),
            filters,
            actions,
            outputs,
        ) == Err::<ParsedModel, _>(ParseError::MalformedEncoding(label)),
{
    let none = Seq::<char>::empty();
    let nothing = Seq::<SegmentModel>::empty();
    let t = spell_filters(asked);
    token_is_word(dataset);
    filters_then(asked, meant, none, filters, Some(label), nothing);
    assert(t + none =~= t);
    assert(nothing + meant =~= meant);
    encoding_then(key, label, t, filters, None);
    let one = seq![','] + (key + (seq![':'] + (label + t)));
    dataset_is_reached(dataset, one, extension, filters, actions, outputs);
    name_then(dataset, one);
    assert(actions_of(none, actions, Seq::empty()) == Ok::<_, ParseError<Seq<char>>>(
        (Seq::<ActionModel>::empty(), none),
    ));
    let second = seq![','] + (key + (seq![':'] + (other + t)));
    let both = seq![','] + (key + (seq![':'] + (label + second)));
    assert(both =~= seq![','] + (key + (seq![':'] + (label + (seq![','] + (key + (seq![':'] + (other
        + t))))))));
    encoding_then(key, label, second, filters, None);
    encoding_then(key, other, t, filters, Some(label));
    dataset_is_reached(dataset, both, extension, filters, actions, outputs);
    name_then(dataset, both);
}

proof fn encoding_then(
    key: Seq<char>,
    label: Seq<char>,
    t: Seq<char>,
    filters: Seq<SegmentDef>,
    before: Option<Seq<char>>,
)
    requires
        is_word(label),
        key == "enc"@ || key == "encoding"@,
        t.len() == 0 || t[0] == ',' || t[0] == '/',
    ensures
        options_of(
            seq![','] + (key + (seq![':'] + (label + t))),
            filters,
            before,
            Seq::empty(),
        ) == match before {
            Some(_) => Err(ParseError::RepeatedOption(key)),
            None => options_of(t, filters, Some(label), Seq::empty()),
        },
{
    let none = Seq::<char>::empty();
    let params = seq![label];
    let s = seq![','] + (key + (seq![':'] + (label + t)));
    reveal_strlit("enc");
    reveal_strlit("encoding");
    assert(params.skip(1) =~= Seq::<Seq<char>>::empty());
    assert(spell_params(params.skip(1)) =~= none);
    assert(spell_params(params) =~= seq![':'] + label);
    word_is_value(label);
    params_then(params, t);
    values_are_no_fault(params, 0);
    let values = spell_params(params) + t;
    assert(values =~= seq![':'] + (label + t));
    assert(s.skip(1) =~= key + values);
    assert(is_word(key));
    name_then(key, values);
    assert(s[0] == ',');
}

/// A path inside an archive may have letters, digits, dots, dashes, underscores, slashes, tildes and
/// parentheses, and no other sign: one with another is refused, and so is none.
pub proof fn paths_have_plain_signs(
    dataset: Seq<char>,
    path: Seq<char>,
    from: int,
    k: int,
    u: Seq<char>,
    extension: Seq<char>,
    filters: Seq<SegmentDef>,
    actions: Seq<ActionDef>,
    outputs: Seq<Arc<OutputDef>>,
)
    requires
        is_token(dataset),
        u.len() == 0 || u[0] == ',',
        !occurs(path, ',') && !occurs(path, '@'),
        0 <= from < path.len(),
        from == 0 || path[from - 1] == '/',
        forall|i: int| from <= i < path.len() ==> #[trigger] path[i] != '/',
        is_source(path.skip(from)),
        0 <= k < path.len(),
        extension == "geojson"@ || extension == "json"@,
        outputs.len() == 1,
        is_geojson(*outputs[0]),
    ensures
        valid_path(path) <==> forall|i: int|
            0 <= i < path.len() ==> ({
                let c = #[trigger] path[i];
                ('a' <= c <= 'z') || ('A' <= c <= 'Z') || ('0' <= c <= '9') || c == '.' || c == '-'
                    || c == '_' || c == '/' || c == '~' || c == '(' || c == ')'
            }),
        !(('a' <= path[k] <= 'z') || ('A' <= path[k] <= 'Z') || ('0' <= path[k] <= '9') || path[k]
            == '.' || path[k] == '-' || path[k] == '_' || path[k] == '/' || path[k] == '~' || path[k]
            == '(' || path[k] == ')') ==> parsed_of(
            asked_of_dataset(dataset, seq![':'] + (path + u), extension),
            filters,
            actions,
            outputs,
        ) == Err::<ParsedModel, _>(ParseError::InvalidPath(path)),
        parsed_of(
            asked_of_dataset(dataset, seq![':'] + u, extension),
            filters,
            actions,
            outputs,
        ) == Err::<ParsedModel, ParseError<Seq<char>>>(ParseError::EmptySourceValue),
{
    let none = Seq::<char>::empty();
    token_is_word(dataset);
    if valid_path(path) {
        assert forall|i: int| 0 <= i < path.len() implies ({
            let c = #[trigger] path[i];
            ('a' <= c <= 'z') || ('A' <= c <= 'Z') || ('0' <= c <= '9') || c == '.' || c == '-' || c
                == '_' || c == '/' || c == '~' || c == '(' || c == ')'
        }) by {
            assert(is_path_char(path[i]));
        }
    }
    let body = seq![':'] + (path + u);
    dataset_is_reached(dataset, body, extension, filters, actions, outputs);
    name_then(dataset, body);
    assert(body.skip(1) =~= path + u);
    assert forall|j: int| 0 <= j < path.len() implies !occurs(seq![','], #[trigger] path[j]) by {
        stops_are_these(path[j]);
    }
    if u.len() > 0 {
        stops_are_these(u[0]);
    }
    word_then(path, u, seq![','], 0);
    no_marker_in_path(path, actions, 0);
    let n = path.len() as int;
    assert(path.take(n) =~= path);
    filename_is_taken_off_once(path);
    assert(path.subrange(from, n) =~= path.skip(from));
    assert(readable_part(path, from, n));
    let bare = seq![':'] + u;
    dataset_is_reached(dataset, bare, extension, filters, actions, outputs);
    name_then(dataset, bare);
    assert(bare.skip(1) =~= none + u);
    word_then(none, u, seq![','], 0);
    assert(none.take(0) =~= none);
}

/// A path that ends in a dot and another extension is refused for that extension, in lower case.
pub proof fn other_formats_are_refused(
    source: Seq<char>,
    extension: Seq<char>,
    filters: Seq<SegmentDef>,
    actions: Seq<ActionDef>,
    outputs: Seq<Arc<OutputDef>>,
)
    requires
        source.len() > 0,
        source[0] != '/',
        !occurs(extension, '.'),
        lowered(extension) != "geojson"@,
        lowered(extension) != "json"@,
        outputs.len() == 1,
        is_geojson(*outputs[0]),
    ensures
        parsed_of(source + seq!['.'] + extension, filters, actions, outputs) == Err::<
            ParsedModel,
            _,
        >(ParseError::UnknownFormat(lowered(extension))),
{
    let url = source + seq!['.'] + extension;
    reveal_strlit("geojson");
    reveal_strlit("json");
    assert(url[0] == source[0]);
    assert(without_slashes(url) == url);
    geojson_alone_offers_the_formats(outputs, url);
    let dot = source.len() as int;
    assert(url[dot] == '.');
    assert(!ends_in(url, "geojson"@)) by {
        not_this_ending(source, extension, "geojson"@);
    }
    assert(!ends_in(url, "json"@)) by {
        not_this_ending(source, extension, "json"@);
    }
    last_dot(source + seq!['.'], extension);
    assert(occurs(url, '.'));
}

proof fn not_this_ending(source: Seq<char>, extension: Seq<char>, ext: Seq<char>)
    requires
        !occurs(extension, '.'),
        lowered(extension) != ext,
        forall|i: int| 0 <= i < ext.len() ==> #[trigger] ext[i] != '.',
    ensures
        !ends_in(source + seq!['.'] + extension, ext),
{
    let url = source + seq!['.'] + extension;
    let lower = lowered(url);
    let dot = source.len() as int;
    let n = lower.len() - ext.len();
    if ends_in(url, ext) {
        assert(lower[dot] == '.');
        assert forall|i: int| dot < i < url.len() implies #[trigger] lower[i] != '.' by {
            assert(url[i] == extension[i - dot - 1]);
        }
        if n - 1 < dot {
            assert(lower.skip(n)[dot - n] == lower[dot]);
        }
        assert(n - 1 == dot);
        assert(lowered(extension) =~= lower.skip(n));
    }
}

proof fn last_dot(head: Seq<char>, extension: Seq<char>)
    requires
        head.len() > 0,
        head.last() == '.',
        !occurs(extension, '.'),
    ensures
        after_last_dot(head + extension) == extension,
    decreases extension.len(),
{
    let s = head + extension;
    if extension.len() == 0 {
        assert(s =~= head);
        assert(after_last_dot(s) =~= extension);
    } else {
        let few = extension.drop_last();
        assert(!occurs(few, '.')) by {
            if occurs(few, '.') {
                let i = choose|i: int| 0 <= i < few.len() && few[i] == '.';
                assert(extension[i] == '.');
            }
        }
        last_dot(head, few);
        assert(s.drop_last() =~= head + few);
        assert(s.last() == extension.last());
        assert(few.push(extension.last()) =~= extension);
    }
}

/// After a download an action comes too late, and is refused under its canonical name.
pub proof fn actions_do_not_follow_the_download(
    dataset: Seq<char>,
    asked: Seq<SegmentModel>,
    meant: Seq<SegmentModel>,
    asked_actions: Seq<ActionModel>,
    meant_actions: Seq<ActionModel>,
    name: Seq<char>,
    word: Seq<char>,
    at: int,
    t: Seq<char>,
    extension: Seq<char>,
    filters: Seq<SegmentDef>,
    actions: Seq<ActionDef>,
    outputs: Seq<Arc<OutputDef>>,
)
    requires
        all_in_order(dataset, asked, meant, asked_actions, meant_actions, filters, actions),
        name.len() > 0,
        !occurs(name, '@'),
        is_word(word),
        0 <= at < actions.len(),
        word == actions[at].action.spec_name() || (actions[at].action.spec_short().len() > 0 && word
            == actions[at].action.spec_short()),
        forall|j: int|
            0 <= j < at ==> word != (#[trigger] actions[j]).action.spec_name() && word
                != actions[j].action.spec_short(),
        t.len() == 0 || t[0] == '/',
        extension == "geojson"@ || extension == "json"@,
        outputs.len() == 1,
        is_geojson(*outputs[0]),
    ensures
        parsed_of(
            asked_with(
                dataset,
                asked,
                asked_actions,
                seq!['/'] + (name + (seq!['/', '@'] + (word + t))),
                extension,
            ),
            filters,
            actions,
            outputs,
        ) == Err::<ParsedModel, _>(ParseError::MisplacedAction(actions[at].action.spec_name())),
{
    let all = name + (seq!['/', '@'] + (word + t));
    let tail = seq!['/'] + all;
    tail_is_reached(
        dataset,
        asked,
        meant,
        asked_actions,
        meant_actions,
        tail,
        extension,
        filters,
        actions,
        outputs,
    );
    assert(tail.skip(1) =~= all);
    assert(name[0] != '@');
    assert(tail[1] == name[0] && all[0] == name[0]);
    let n = name.len() as int;
    assert(all[n] == '/' && all[n + 1] == '@');
    assert(all.skip(n + 2) =~= word + t);
    assert forall|j: int| 0 <= j < word.len() implies !occurs(seq!['/'], #[trigger] word[j]) by {
        stops_are_these(word[j]);
    }
    stops_are_these('/');
    word_then(word, t, seq!['/'], 0);
    assert(marked(all, n) == word);
    first_action(actions, word, 0, at);
    marker_after(name, seq!['/', '@'] + (word + t), actions, 0);
}

proof fn marker_after(name: Seq<char>, t: Seq<char>, actions: Seq<ActionDef>, from: int)
    requires
        !occurs(name, '@'),
        t.len() > 0,
        t[0] == '/',
        marks(name + t, actions, name.len() as int),
        0 <= from <= name.len(),
    ensures
        marker_at(name + t, actions, from) == name.len(),
    decreases name.len() - from,
{
    let all = name + t;
    if from < name.len() {
        if from + 1 < name.len() {
            assert(all[from + 1] == name[from + 1]);
        } else {
            assert(all[from + 1] == t[0]);
        }
        marker_after(name, t, actions, from + 1);
    }
}

} // verus!
