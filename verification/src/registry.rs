//! What may be registered in a grammar, and what the built-in one has, each told without the
//! definitions that the functions themselves go by.

use std::sync::Arc;
use vstd::prelude::*;

use crate::formats::OutputDef;
use crate::grammar::{
    action_at, action_at_bounds, action_fault, answers, boolean_of, claimed_at, conflict_at,
    core_filters, extension_fault, extensions_fault, filter_at, filter_at_bounds, filter_fault,
    geometry_types, is_built_in, is_filter, is_token, is_token_char, option_at, option_fault,
    options_fault, output_fault, pair_fault, repeats_arity, scannable, shape_at, shape_at_takes,
    shown_list, takes, Action, ActionDef, Boolean, Column, DeclarationFault, FromParam,
    GeometryType, Grammar, Operator, OptModel, Param, SegmentDef, Token, Value,
};
use crate::process::Process;
use crate::sql::{misfit_at, segment_fault, segments_fault, PlanError};
use crate::text::{lowered, occurs, raised, views};
use crate::url::SegmentModel;

verus! {

/// A name that a request can spell: not empty, and without a sign that ends a name.
pub open spec fn can_be_spelled(name: Seq<char>) -> bool {
    name.len() > 0 && forall|i: int|
        0 <= i < name.len() ==> #[trigger] name[i] != ':' && name[i] != ',' && name[i] != '/'
}

/// A name and a short one that can be declared together: the short one may be none, and is not the
/// name again.
pub open spec fn can_be_declared(name: Seq<char>, short: Seq<char>) -> bool {
    can_be_spelled(name) && (short.len() == 0 || (can_be_spelled(short) && short != name))
}

proof fn spelled_is_scannable(name: Seq<char>)
    ensures
        scannable(name) <==> can_be_spelled(name),
{
    if scannable(name) {
        assert forall|i: int| 0 <= i < name.len() implies #[trigger] name[i] != ':' && name[i] != ','
            && name[i] != '/' by {
            assert(!occurs(name, ':') && !occurs(name, ',') && !occurs(name, '/'));
        }
    }
}

proof fn pair_is_declared(name: Seq<char>, short: Seq<char>)
    ensures
        pair_fault(name, short) is None <==> can_be_declared(name, short),
{
    spelled_is_scannable(name);
    spelled_is_scannable(short);
}

/// No filter is called `name`, by its name or its short one.
pub open spec fn is_free_filter(filters: Seq<SegmentDef>, name: Seq<char>) -> bool {
    forall|i: int|
        0 <= i < filters.len() ==> (#[trigger] filters[i]).name@ != name && filters[i].short@
            != name
}

/// A filter can be registered exactly where it has a shape, and no empty one, its names can be
/// declared, and neither is kept for the encoding or taken by another filter.
pub proof fn filters_can_be_registered_once(
    filters: Seq<SegmentDef>,
    name: Seq<char>,
    short: Seq<char>,
    shapes: Seq<Seq<Param>>,
)
    ensures
        filter_fault(filters, name, short, shapes) is None <==> {
            &&& shapes.len() > 0
            &&& forall|k: int| 0 <= k < shapes.len() ==> (#[trigger] shapes[k]).len() > 0
            &&& can_be_declared(name, short)
            &&& name != "enc"@ && name != "encoding"@ && short != "enc"@ && short != "encoding"@
            &&& is_free_filter(filters, name)
            &&& short.len() > 0 ==> is_free_filter(filters, short)
        },
{
    pair_is_declared(name, short);
    reveal_strlit("enc");
    reveal_strlit("encoding");
    free_filter(filters, name);
    free_filter(filters, short);
    if takes(shapes, 0) {
        let k = choose|k: int| 0 <= k < shapes.len() && (#[trigger] shapes[k]).len() == 0;
        assert(shapes[k].len() == 0);
    }
    if exists|k: int| 0 <= k < shapes.len() && (#[trigger] shapes[k]).len() == 0 {
        assert(takes(shapes, 0));
    }
}

proof fn free_filter(filters: Seq<SegmentDef>, name: Seq<char>)
    ensures
        name.len() > 0 ==> (filter_at(filters, name, 0) >= filters.len() <==> is_free_filter(
            filters,
            name,
        )),
{
    filter_at_bounds(filters, name, 0);
    let at = filter_at(filters, name, 0);
    if name.len() > 0 {
        if at < filters.len() {
            assert(answers(filters[at].name@, filters[at].short@, name));
        } else {
            assert forall|i: int| 0 <= i < filters.len() implies (#[trigger] filters[i]).name@ != name
                && filters[i].short@ != name by {
                assert(!answers(filters[i].name@, filters[i].short@, name));
            }
        }
    }
}

/// No action is called `name`, by its name or its short one.
pub open spec fn is_free_action(actions: Seq<ActionDef>, name: Seq<char>) -> bool {
    forall|i: int|
        0 <= i < actions.len() ==> (#[trigger] actions[i]).action.spec_name() != name
            && actions[i].action.spec_short() != name
}

proof fn free_action(actions: Seq<ActionDef>, name: Seq<char>)
    ensures
        name.len() > 0 ==> (action_at(actions, name, 0) >= actions.len() <==> is_free_action(
            actions,
            name,
        )),
{
    action_at_bounds(actions, name, 0);
    let at = action_at(actions, name, 0);
    if name.len() > 0 {
        if at < actions.len() {
            assert(answers(actions[at].action.spec_name(), actions[at].action.spec_short(), name));
        } else {
            assert forall|i: int| 0 <= i < actions.len() implies (
            #[trigger] actions[i]).action.spec_name() != name && actions[i].action.spec_short()
                != name by {
                assert(!answers(
                    actions[i].action.spec_name(),
                    actions[i].action.spec_short(),
                    name,
                ));
            }
        }
    }
}

/// An option of an action that is in order: its names can be declared and are not those of an option
/// before it, and it has shapes, no two of as many parameters.
pub open spec fn is_option_in_order(options: Seq<OptModel>, at: int) -> bool {
    let option = options[at];
    &&& can_be_declared(option.name, option.short)
    &&& option.shapes.len() > 0
    &&& forall|i: int|
        0 <= i < at ==> (#[trigger] options[i]).name != option.name && options[i].short
            != option.name && (option.short.len() > 0 ==> options[i].name != option.short
            && options[i].short != option.short)
    &&& forall|i: int, j: int|
        0 <= i < j < option.shapes.len() ==> (#[trigger] option.shapes[i]).len() != (
        #[trigger] option.shapes[j]).len()
}

proof fn conflict_is_first(options: Seq<OptModel>, option: OptModel, limit: int, from: int)
    requires
        0 <= from <= limit <= options.len(),
    ensures
        ({
            let at = conflict_at(options, option, limit, from);
            &&& from <= at <= limit
            &&& at < limit ==> answers(options[at].name, options[at].short, option.name) || (
            option.short.len() > 0 && answers(options[at].name, options[at].short, option.short))
            &&& forall|i: int|
                from <= i < at ==> !answers(
                    (#[trigger] options[i]).name,
                    options[i].short,
                    option.name,
                ) && !(option.short.len() > 0 && answers(
                    options[i].name,
                    options[i].short,
                    option.short,
                ))
        }),
    decreases limit - from,
{
    if from < limit && !(answers(options[from].name, options[from].short, option.name) || (
    option.short.len() > 0 && answers(options[from].name, options[from].short, option.short))) {
        conflict_is_first(options, option, limit, from + 1);
    }
}

proof fn option_is_in_order(options: Seq<OptModel>, at: int)
    requires
        0 <= at < options.len(),
    ensures
        option_fault(options, at) is None <==> is_option_in_order(options, at),
{
    let option = options[at];
    pair_is_declared(option.name, option.short);
    conflict_is_first(options, option, at, 0);
    let conflict = conflict_at(options, option, at, 0);
    if is_option_in_order(options, at) {
        if conflict < at {
            assert(options[conflict].name != option.name);
        }
        if repeats_arity(option.shapes) {
            let (i, j) = choose|i: int, j: int|
                0 <= i < j < option.shapes.len() && (#[trigger] option.shapes[i]).len() == (
                #[trigger] option.shapes[j]).len();
            assert(option.shapes[i].len() != option.shapes[j].len());
        }
    }
    if option_fault(options, at) is None {
        assert forall|i: int| 0 <= i < at implies (#[trigger] options[i]).name != option.name
            && options[i].short != option.name && (option.short.len() > 0 ==> options[i].name
            != option.short && options[i].short != option.short) by {
            assert(!answers(options[i].name, options[i].short, option.name));
            assert(option.name.len() > 0);
        }
    }
}

proof fn options_are_in_order(options: Seq<OptModel>, from: int)
    requires
        0 <= from <= options.len(),
    ensures
        options_fault(options, from) is None <==> forall|at: int|
            from <= at < options.len() ==> #[trigger] is_option_in_order(options, at),
    decreases options.len() - from,
{
    if from < options.len() {
        option_is_in_order(options, from);
        options_are_in_order(options, from + 1);
        if forall|at: int|
            from <= at < options.len() ==> #[trigger] is_option_in_order(options, at) {
            assert(is_option_in_order(options, from));
        }
    }
}

/// An action can be registered exactly where its names can be declared and are not taken by another
/// action, and it has options, each of them in order.
pub proof fn actions_can_be_registered_once(
    actions: Seq<ActionDef>,
    name: Seq<char>,
    short: Seq<char>,
    options: Seq<OptModel>,
)
    ensures
        action_fault(actions, name, short, options) is None <==> {
            &&& can_be_declared(name, short)
            &&& options.len() > 0
            &&& forall|at: int|
                0 <= at < options.len() ==> #[trigger] is_option_in_order(options, at)
            &&& is_free_action(actions, name)
            &&& short.len() > 0 ==> is_free_action(actions, short)
        },
{
    pair_is_declared(name, short);
    options_are_in_order(options, 0);
    free_action(actions, name);
    free_action(actions, short);
}

/// An extension of an output that is in order: it can be spelled, no dot stands at either end of it,
/// it is in lower case and is not given twice, and no other output has it unless that is allowed.
pub open spec fn is_extension_in_order(
    outputs: Seq<Arc<OutputDef>>,
    exts: Seq<Seq<char>>,
    overrides: bool,
    at: int,
) -> bool {
    let ext = exts[at];
    &&& can_be_spelled(ext)
    &&& ext[0] != '.' && ext.last() != '.'
    &&& forall|i: int| 0 <= i < ext.len() ==> !('A' <= #[trigger] ext[i] <= 'Z')
    &&& forall|i: int| 0 <= i < at ==> #[trigger] exts[i] != ext
    &&& overrides || forall|i: int|
        0 <= i < outputs.len() ==> !(#[trigger] outputs[i]).output.spec_extensions().contains(ext)
}

proof fn claimed_is_first(outputs: Seq<Arc<OutputDef>>, ext: Seq<char>, from: int)
    requires
        0 <= from <= outputs.len(),
    ensures
        from <= claimed_at(outputs, ext, from) <= outputs.len(),
        claimed_at(outputs, ext, from) < outputs.len() ==> outputs[claimed_at(
            outputs,
            ext,
            from,
        )].output.spec_extensions().contains(ext),
        forall|i: int|
            from <= i < claimed_at(outputs, ext, from) ==> !(
            #[trigger] outputs[i]).output.spec_extensions().contains(ext),
    decreases outputs.len() - from,
{
    if from < outputs.len() && !outputs[from].output.spec_extensions().contains(ext) {
        claimed_is_first(outputs, ext, from + 1);
    }
}

proof fn extensions_are_in_order(
    outputs: Seq<Arc<OutputDef>>,
    exts: Seq<Seq<char>>,
    overrides: bool,
    from: int,
)
    requires
        0 <= from <= exts.len(),
    ensures
        extensions_fault(outputs, exts, overrides, from) is None <==> forall|at: int|
            from <= at < exts.len() ==> #[trigger] is_extension_in_order(
                outputs,
                exts,
                overrides,
                at,
            ),
    decreases exts.len() - from,
{
    if from < exts.len() {
        let ext = exts[from];
        extensions_are_in_order(outputs, exts, overrides, from + 1);
        spelled_is_scannable(ext);
        claimed_is_first(outputs, ext, 0);
        let before = exts.take(from);
        assert(before.contains(ext) <==> exists|i: int| 0 <= i < from && #[trigger] exts[i] == ext)
            by {
            if before.contains(ext) {
                let i = choose|i: int| 0 <= i < before.len() && before[i] == ext;
                assert(exts[i] == ext);
            }
            if exists|i: int| 0 <= i < from && #[trigger] exts[i] == ext {
                let i = choose|i: int| 0 <= i < from && #[trigger] exts[i] == ext;
                assert(before[i] == ext);
            }
        }
        assert(extension_fault(outputs, exts, overrides, from) is None <==> is_extension_in_order(
            outputs,
            exts,
            overrides,
            from,
        ));
        if forall|at: int|
            from <= at < exts.len() ==> #[trigger] is_extension_in_order(
                outputs,
                exts,
                overrides,
                at,
            ) {
            assert(is_extension_in_order(outputs, exts, overrides, from));
        }
    }
}

/// An output can be registered exactly where it has extensions, each of them in order.
pub proof fn outputs_can_be_registered_once(outputs: Seq<Arc<OutputDef>>, def: OutputDef)
    ensures
        output_fault(outputs, def) is None <==> {
            let exts = def.output.spec_extensions();
            &&& exts.len() > 0
            &&& forall|at: int|
                0 <= at < exts.len() ==> #[trigger] is_extension_in_order(
                    outputs,
                    exts,
                    def.output.spec_framing().overrides,
                    at,
                )
        },
{
    extensions_are_in_order(
        outputs,
        def.output.spec_extensions(),
        def.output.spec_framing().overrides,
        0,
    );
}

// What a fault says.

/// What is said to be wrong with two names is.
pub open spec fn is_true_of_names(
    fault: DeclarationFault<Seq<char>>,
    name: Seq<char>,
    short: Seq<char>,
) -> bool {
    match fault {
        DeclarationFault::Unscannable(n) => !can_be_spelled(n) && (n == name || (n == short
            && n.len() > 0)),
        DeclarationFault::ShortRepeatsName(n) => n == short && n == name,
        _ => false,
    }
}

proof fn pair_fault_is_true(name: Seq<char>, short: Seq<char>)
    ensures
        pair_fault(name, short) matches Some(fault) ==> is_true_of_names(fault, name, short),
{
    spelled_is_scannable(name);
    spelled_is_scannable(short);
}

/// What is said to be wrong with a filter is: it has no shape, or an empty one, or the name that is
/// told cannot be spelled, is the other one again, is kept for the encoding or is taken.
pub proof fn faults_of_filters_are_true(
    filters: Seq<SegmentDef>,
    name: Seq<char>,
    short: Seq<char>,
    shapes: Seq<Seq<Param>>,
)
    ensures
        filter_fault(filters, name, short, shapes) matches Some(fault) ==> match fault {
            DeclarationFault::NoShape => shapes.len() == 0,
            DeclarationFault::EmptyShape => exists|k: int|
                0 <= k < shapes.len() && (#[trigger] shapes[k]).len() == 0,
            DeclarationFault::Reserved(n) => (n == name || n == short) && (n == "enc"@ || n
                == "encoding"@),
            DeclarationFault::FilterTaken(n) => (n == name || n == short) && !is_free_filter(
                filters,
                n,
            ),
            _ => is_true_of_names(fault, name, short),
        },
        shapes.len() == 0 ==> filter_fault(filters, name, short, shapes) == Some(
            DeclarationFault::<Seq<char>>::NoShape,
        ),
{
    pair_fault_is_true(name, short);
    free_filter(filters, name);
    free_filter(filters, short);
}

proof fn option_fault_is_true(options: Seq<OptModel>, at: int)
    requires
        0 <= at < options.len(),
    ensures
        option_fault(options, at) matches Some(fault) ==> is_true_of_option(fault, options, at),
{
    let option = options[at];
    pair_fault_is_true(option.name, option.short);
    conflict_is_first(options, option, at, 0);
}

/// What is said to be wrong with an option is: its names, or that it has no shape, is called as one
/// before it, or has two shapes of as many parameters.
pub open spec fn is_true_of_option(
    fault: DeclarationFault<Seq<char>>,
    options: Seq<OptModel>,
    at: int,
) -> bool {
    let own = options[at];
    match fault {
        DeclarationFault::OptionWithoutShape(n) => n == own.name && own.shapes.len() == 0,
        DeclarationFault::OptionTaken { option, earlier } => option == own.name && exists|i: int|
            0 <= i < at && (#[trigger] options[i]).name == earlier && (is_named(
                options[i],
                own.name,
            ) || (own.short.len() > 0 && is_named(options[i], own.short))),
        DeclarationFault::SameArity(n) => n == own.name && exists|i: int, j: int|
            0 <= i < j < own.shapes.len() && (#[trigger] own.shapes[i]).len() == (
            #[trigger] own.shapes[j]).len(),
        _ => is_true_of_names(fault, own.name, own.short),
    }
}

/// An option is called `name`.
pub open spec fn is_named(option: OptModel, name: Seq<char>) -> bool {
    option.name == name || (option.short.len() > 0 && option.short == name)
}

proof fn options_fault_is_true(options: Seq<OptModel>, from: int)
    requires
        0 <= from <= options.len(),
    ensures
        options_fault(options, from) matches Some(fault) ==> exists|at: int|
            from <= at < options.len() && #[trigger] is_true_of_option(fault, options, at),
    decreases options.len() - from,
{
    if from < options.len() {
        option_fault_is_true(options, from);
        options_fault_is_true(options, from + 1);
        match option_fault(options, from) {
            Some(fault) => {
                assert(is_true_of_option(fault, options, from));
            },
            None => {},
        }
    }
}

/// What is said to be wrong with an action is: its names, that it has no options, that an option of
/// it is at fault, or that the name that is told is taken.
pub proof fn faults_of_actions_are_true(
    actions: Seq<ActionDef>,
    name: Seq<char>,
    short: Seq<char>,
    options: Seq<OptModel>,
)
    ensures
        action_fault(actions, name, short, options) matches Some(fault) ==> match fault {
            DeclarationFault::NoOptions(n) => n == name && options.len() == 0,
            DeclarationFault::ActionTaken(n) => (n == name || n == short) && !is_free_action(
                actions,
                n,
            ),
            _ => is_true_of_names(fault, name, short) || exists|at: int|
                0 <= at < options.len() && #[trigger] is_true_of_option(fault, options, at),
        },
{
    pair_fault_is_true(name, short);
    options_fault_is_true(options, 0);
    free_action(actions, name);
    free_action(actions, short);
}

/// What is said to be wrong with an extension is.
pub open spec fn is_true_of_extension(
    fault: DeclarationFault<Seq<char>>,
    outputs: Seq<Arc<OutputDef>>,
    exts: Seq<Seq<char>>,
    overrides: bool,
    at: int,
) -> bool {
    let ext = exts[at];
    match fault {
        DeclarationFault::Unscannable(n) => n == ext && !can_be_spelled(ext),
        DeclarationFault::MisplacedDot(n) => n == ext && (ext[0] == '.' || ext.last() == '.'),
        DeclarationFault::NotLowercase(n) => n == ext && exists|i: int|
            0 <= i < ext.len() && 'A' <= #[trigger] ext[i] <= 'Z',
        DeclarationFault::RepeatedExtension(n) => n == ext && exists|i: int|
            0 <= i < at && #[trigger] exts[i] == ext,
        DeclarationFault::Claimed { extension, by } => extension == ext && !overrides && exists|
            i: int,
        |
            0 <= i < outputs.len() && (#[trigger] outputs[i]).output.spec_extensions().contains(ext)
                && by == shown_list(outputs[i].output.spec_extensions()),
        _ => false,
    }
}

proof fn extensions_fault_is_true(
    outputs: Seq<Arc<OutputDef>>,
    exts: Seq<Seq<char>>,
    overrides: bool,
    from: int,
)
    requires
        0 <= from <= exts.len(),
    ensures
        extensions_fault(outputs, exts, overrides, from) matches Some(fault) ==> exists|at: int|
            from <= at < exts.len() && #[trigger] is_true_of_extension(
                fault,
                outputs,
                exts,
                overrides,
                at,
            ),
    decreases exts.len() - from,
{
    if from < exts.len() {
        let ext = exts[from];
        spelled_is_scannable(ext);
        claimed_is_first(outputs, ext, 0);
        extensions_fault_is_true(outputs, exts, overrides, from + 1);
        match extension_fault(outputs, exts, overrides, from) {
            Some(fault) => {
                if exts.take(from).contains(ext) {
                    let i = choose|i: int|
                        0 <= i < exts.take(from).len() && exts.take(from)[i] == ext;
                    assert(exts[i] == ext);
                }
                assert(is_true_of_extension(fault, outputs, exts, overrides, from));
            },
            None => {},
        }
    }
}

/// What is said to be wrong with an output is: it has no extension, or the one that is told is at
/// fault.
pub proof fn faults_of_outputs_are_true(outputs: Seq<Arc<OutputDef>>, def: OutputDef)
    ensures
        output_fault(outputs, def) matches Some(fault) ==> {
            let exts = def.output.spec_extensions();
            ||| fault is NoExtension && exts.len() == 0
            ||| exists|at: int|
                0 <= at < exts.len() && #[trigger] is_true_of_extension(
                    fault,
                    outputs,
                    exts,
                    def.output.spec_framing().overrides,
                    at,
                )
        },
{
    extensions_fault_is_true(
        outputs,
        def.output.spec_extensions(),
        def.output.spec_framing().overrides,
        0,
    );
}

/// The filters of the built-in grammar, by name: how many parameters each takes at least and at
/// most.
pub open spec fn built_in_filters() -> Seq<(Seq<char>, nat, nat)> {
    seq![
        ("id"@, 1, 2),
        ("prop"@, 2, 3),
        ("type"@, 1, 1),
        ("valid"@, 1, 1),
        ("empty"@, 1, 1),
        ("simple"@, 1, 1),
        ("closed"@, 1, 1),
    ]
}

/// The built-in grammar has these filters, in their order and under no short names, no actions, and
/// one output.
pub proof fn the_built_in_grammar_has_these_filters(g: Grammar, n: nat)
    requires
        is_built_in(g),
    ensures
        g.filters@.len() == 7,
        g.actions@.len() == 0,
        g.outputs@.len() == 1,
        forall|i: int|
            0 <= i < 7 ==> (#[trigger] g.filters@[i]).name@ == built_in_filters()[i].0
                && g.filters@[i].short@.len() == 0 && (takes(views(g.filters@[i].shapes@), n)
                <==> built_in_filters()[i].1 <= n <= built_in_filters()[i].2),
{
    reveal_strlit("");
    let all = core_filters();
    let want = built_in_filters();
    assert(all[0].1.len() == 2 && all[0].1[0].len() == 1 && all[0].1[1].len() == 2);
    assert(all[1].1.len() == 2 && all[1].1[0].len() == 2 && all[1].1[1].len() == 3);
    assert(all[2].1.len() == 1 && all[2].1[0].len() == 1);
    assert(all[3].1.len() == 1 && all[3].1[0].len() == 1);
    assert(all[4].1.len() == 1 && all[4].1[0].len() == 1);
    assert(all[5].1.len() == 1 && all[5].1[0].len() == 1);
    assert(all[6].1.len() == 1 && all[6].1[0].len() == 1);
    assert forall|i: int| 0 <= i < 7 implies (#[trigger] g.filters@[i]).name@ == want[i].0
        && g.filters@[i].short@.len() == 0 && (takes(views(g.filters@[i].shapes@), n) <==> want[i].1
        <= n <= want[i].2) by {
        assert(is_filter(g.filters@[i], all[i].0, ""@, all[i].1));
        assert(all[i].0 == want[i].0);
        let shapes = all[i].1;
        if want[i].1 <= n <= want[i].2 {
            assert(shapes[n - want[i].1].len() == n);
        }
    }
}

/// What a parameter must be: a token has nothing but letters, digits, dots, dashes and underscores;
/// a boolean is `true`, `1`, `false` or `0`, in either case; and any other is not empty.
pub proof fn parameters_are_what_they_must_be(raw: Seq<char>)
    ensures
        Param::Column.fits(raw) <==> raw.len() > 0,
        Param::Operator.fits(raw) <==> raw.len() > 0,
        Param::Value.fits(raw) <==> raw.len() > 0,
        Param::Token.fits(raw) <==> raw.len() > 0 && forall|i: int|
            0 <= i < raw.len() ==> ({
                let c = #[trigger] raw[i];
                ('a' <= c <= 'z') || ('A' <= c <= 'Z') || ('0' <= c <= '9') || c == '.' || c == '-'
                    || c == '_'
            }),
        Param::Boolean.fits(raw) <==> lowered(raw) == "true"@ || lowered(raw) == "1"@ || lowered(raw)
            == "false"@ || lowered(raw) == "0"@,
        Param::GeometryType.fits(raw) <==> raised(raw) == "POINT"@ || raised(raw) == "LINESTRING"@
            || raised(raw) == "POLYGON"@ || raised(raw) == "MULTIPOINT"@ || raised(raw)
            == "MULTILINESTRING"@ || raised(raw) == "MULTIPOLYGON"@ || raised(raw)
            == "GEOMETRYCOLLECTION"@,
{
    let types = geometry_types();
    assert(types[0] == "POINT"@ && types[1] == "LINESTRING"@ && types[2] == "POLYGON"@);
    assert(types[3] == "MULTIPOINT"@ && types[4] == "MULTILINESTRING"@);
    assert(types[5] == "MULTIPOLYGON"@ && types[6] == "GEOMETRYCOLLECTION"@ && types.len() == 7);
    if is_token(raw) {
        assert forall|i: int| 0 <= i < raw.len() implies ({
            let c = #[trigger] raw[i];
            ('a' <= c <= 'z') || ('A' <= c <= 'Z') || ('0' <= c <= '9') || c == '.' || c == '-' || c
                == '_'
        }) by {
            assert(is_token_char(raw[i]));
        }
    }
}

/// A parameter of a built-in filter is what stands in its place: a column first for `prop`, an
/// operator before the last, a value last; a type for `type`; and true or false for the others.
pub proof fn built_in_filters_take_these_parameters(g: Grammar, i: int, k: int, j: int)
    requires
        is_built_in(g),
        0 <= i < 7,
        0 <= k < g.filters@[i].shapes@.len(),
        0 <= j < g.filters@[i].shapes@[k]@.len(),
    ensures
        ({
            let name = g.filters@[i].name@;
            let param = g.filters@[i].shapes@[k]@[j];
            let n = g.filters@[i].shapes@[k]@.len();
            if name == "id"@ || name == "prop"@ {
                param == if name == "prop"@ && j == 0 {
                    Param::Column
                } else if j == n - 1 {
                    Param::Value
                } else {
                    Param::Operator
                }
            } else if name == "type"@ {
                param == Param::GeometryType
            } else {
                param == Param::Boolean
            }
        }),
{
    let all = core_filters();
    let def = g.filters@[i];
    assert(is_filter(def, all[i].0, ""@, all[i].1));
    assert(views(def.shapes@)[k] == def.shapes@[k]@);
    reveal_strlit("id");
    reveal_strlit("prop");
    reveal_strlit("type");
    reveal_strlit("valid");
    reveal_strlit("empty");
    reveal_strlit("simple");
    reveal_strlit("closed");
    assert("id"@.len() == 2 && "prop"@.len() == 4 && "type"@.len() == 4 && "prop"@[0] == 'p'
        && "type"@[0] == 't');
    assert("valid"@.len() == 5 && "empty"@.len() == 5 && "simple"@.len() == 6 && "closed"@.len()
        == 6);
    assert(all[0].1[0] == seq![Param::Value] && all[0].1[1] == seq![Param::Operator, Param::Value]);
    assert(all[1].1[0] == seq![Param::Column, Param::Value]);
    assert(all[1].1[1] == seq![Param::Column, Param::Operator, Param::Value]);
    let shapes = views(def.shapes@);
    assert(shapes.len() == def.shapes@.len());
    if i == 0 {
        assert(shapes.len() == 2);
        assert(k == 0 || k == 1);
    } else if i == 1 {
        assert(shapes.len() == 2);
        assert(k == 0 || k == 1);
    } else {
        let want = if i == 2 {
            Param::GeometryType
        } else {
            Param::Boolean
        };
        assert(all[i].1 == seq![seq![want]]);
        assert(k == 0);
        assert(shapes[k] == seq![want]);
        assert(j == 0);
    }
}

/// Each reader of a parameter is of its own kind, and reads what that kind must be.
pub proof fn readers_are_of_their_kind(raw: Seq<char>)
    ensures
        Column::spec_kind() == Param::Column,
        Operator::spec_kind() == Param::Operator,
        Value::spec_kind() == Param::Value,
        Token::spec_kind() == Param::Token,
        Boolean::spec_kind() == Param::Boolean,
        GeometryType::spec_kind() == Param::GeometryType,
        Column::reads(raw) <==> raw.len() > 0,
        Operator::reads(raw) <==> raw.len() > 0,
        Value::reads(raw) <==> raw.len() > 0,
        boolean_of(raw) == if lowered(raw) == "true"@ || lowered(raw) == "1"@ {
            Some(true)
        } else if lowered(raw) == "false"@ || lowered(raw) == "0"@ {
            Some(false)
        } else {
            None
        },
{
}

// What an action takes.

/// A name stands for an option: it is the option's name, or its short one.
pub open spec fn is_called(option: OptModel, name: Seq<char>) -> bool {
    name.len() > 0 && (option.name == name || option.short == name)
}

/// Each of some parameters is what it must be.
pub open spec fn all_fit(shape: Seq<Param>, params: Seq<Seq<char>>) -> bool {
    shape.len() == params.len() && forall|j: int|
        0 <= j < params.len() ==> (#[trigger] shape[j]).fits(params[j])
}

proof fn misfit_is_first(shape: Seq<Param>, params: Seq<Seq<char>>, from: int)
    requires
        0 <= from <= params.len(),
    ensures
        from <= misfit_at(shape, params, from) <= params.len(),
        misfit_at(shape, params, from) < params.len() ==> !shape[misfit_at(
            shape,
            params,
            from,
        )].fits(params[misfit_at(shape, params, from)]),
        forall|j: int|
            from <= j < misfit_at(shape, params, from) ==> (#[trigger] shape[j]).fits(params[j]),
    decreases params.len() - from,
{
    if from < params.len() && shape[from].fits(params[from]) {
        misfit_is_first(shape, params, from + 1);
    }
}

proof fn option_is_first(options: Seq<OptModel>, name: Seq<char>, from: int)
    requires
        0 <= from <= options.len(),
    ensures
        from <= option_at(options, name, from) <= options.len(),
        option_at(options, name, from) < options.len() ==> answers(
            options[option_at(options, name, from)].name,
            options[option_at(options, name, from)].short,
            name,
        ),
        forall|i: int|
            from <= i < option_at(options, name, from) ==> !answers(
                (#[trigger] options[i]).name,
                options[i].short,
                name,
            ),
    decreases options.len() - from,
{
    if from < options.len() && !answers(options[from].name, options[from].short, name) {
        option_is_first(options, name, from + 1);
    }
}

/// An option is refused for its name where the action has none of that name; for the number of its
/// parameters where the option has no shape of as many; for a parameter, the first, that is not what
/// its shape asks for in that place; and is taken otherwise.
pub proof fn options_are_taken_as_declared(
    options: Seq<OptModel>,
    action: Seq<char>,
    segment: SegmentModel,
    i: int,
    k: int,
)
    requires
        forall|at: int| 0 <= at < options.len() ==> #[trigger] is_option_in_order(options, at),
        0 <= i < options.len(),
        is_called(options[i], segment.name),
    ensures
        takes(options[i].shapes, segment.params.len()) || segment_fault(options, action, segment)
            == Some(
            PlanError::WrongArity { option: segment.name, got: segment.params.len() as usize },
        ),
        0 <= k < options[i].shapes.len() && options[i].shapes[k].len() == segment.params.len()
            ==> match segment_fault(options, action, segment) {
            None => all_fit(options[i].shapes[k], segment.params),
            Some(PlanError::Param(e)) => exists|at: int|
                0 <= at < segment.params.len() && e.at == at as usize && e.expected
                    == options[i].shapes[k][at] && e.got == segment.params[at] && !(
                #[trigger] options[i].shapes[k][at]).fits(segment.params[at]) && all_fit(
                    options[i].shapes[k].take(at),
                    segment.params.take(at),
                ),
            _ => false,
        },
{
    let name = segment.name;
    let n = segment.params.len();
    option_is_first(options, name, 0);
    let at = option_at(options, name, 0);
    assert(is_option_in_order(options, i));
    assert(answers(options[i].name, options[i].short, name));
    assert(at <= i);
    assert(is_option_in_order(options, at));
    if at < i {
        assert(options[at].name != options[i].name);
    }
    let shapes = options[i].shapes;
    shape_at_takes(shapes, n, 0);
    let first = shape_at(shapes, n, 0);
    if 0 <= k < shapes.len() && shapes[k].len() == n {
        assert(first == k) by {
            if first < k {
                assert(shapes[first].len() != shapes[k].len());
            }
        }
        let shape = shapes[k];
        misfit_is_first(shape, segment.params, 0);
        let bad = misfit_at(shape, segment.params, 0);
        if bad < n {
            assert(!(shape[bad]).fits(segment.params[bad]));
            assert forall|j: int| 0 <= j < bad implies (#[trigger] shape.take(bad)[j]).fits(
                segment.params.take(bad)[j],
            ) by {
                assert(shape[j].fits(segment.params[j]));
            }
            assert(all_fit(shape.take(bad), segment.params.take(bad)));
        }
    }
}

/// An option whose name no option has is refused for it.
pub proof fn unknown_options_are_refused(
    options: Seq<OptModel>,
    action: Seq<char>,
    segment: SegmentModel,
)
    requires
        forall|i: int| 0 <= i < options.len() ==> !is_called(#[trigger] options[i], segment.name),
        segment.name.len() > 0,
    ensures
        segment_fault(options, action, segment) == Some(
            PlanError::UnknownOption { option: segment.name, action },
        ),
{
    option_is_first(options, segment.name, 0);
}

/// The first option that is refused is the one that is reported, and where none is, all are taken.
pub proof fn the_first_refused_option_is_reported(
    options: Seq<OptModel>,
    action: Seq<char>,
    segments: Seq<SegmentModel>,
    at: int,
)
    requires
        0 <= at <= segments.len(),
        forall|i: int|
            0 <= i < at ==> segment_fault(options, action, #[trigger] segments[i]) is None,
        at < segments.len() ==> segment_fault(options, action, segments[at]) is Some,
    ensures
        segments_fault(options, action, segments, 0) == if at < segments.len() {
            segment_fault(options, action, segments[at])
        } else {
            None
        },
{
    reported_from(options, action, segments, 0, at);
}

proof fn reported_from(
    options: Seq<OptModel>,
    action: Seq<char>,
    segments: Seq<SegmentModel>,
    from: int,
    at: int,
)
    requires
        0 <= from <= at <= segments.len(),
        forall|i: int|
            0 <= i < at ==> segment_fault(options, action, #[trigger] segments[i]) is None,
        at < segments.len() ==> segment_fault(options, action, segments[at]) is Some,
    ensures
        segments_fault(options, action, segments, from) == if at < segments.len() {
            segment_fault(options, action, segments[at])
        } else {
            None
        },
    decreases at - from,
{
    if from < at {
        assert(segment_fault(options, action, segments[from]) is None);
        reported_from(options, action, segments, from + 1, at);
    }
}

/// The action `process`, or `p`, takes `reproject`, or `r`, with a code or with an authority and a
/// code, each a token, and nothing else.
pub proof fn processes_take_reprojections(action: Seq<char>, segment: SegmentModel)
    ensures
        Process.spec_name() == "process"@,
        Process.spec_short() == "p"@,
        segment.name.len() > 0 ==> (segment_fault(Process.spec_options(), action, segment) is None
            <==> {
            &&& segment.name == "reproject"@ || segment.name == "r"@
            &&& segment.params.len() == 1 || segment.params.len() == 2
            &&& forall|j: int|
                0 <= j < segment.params.len() ==> Param::Token.fits(#[trigger] segment.params[j])
        }),
{
    reveal_strlit("reproject");
    reveal_strlit("r");
    let options = Process.spec_options();
    let shapes = options[0].shapes;
    let n = segment.params.len();
    assert(options.len() == 1);
    assert(shapes.len() == 2 && shapes[0].len() == 1 && shapes[1].len() == 2);
    assert(shapes[0][0] == Param::Token && shapes[1][0] == Param::Token && shapes[1][1]
        == Param::Token);
    assert(can_be_declared(options[0].name, options[0].short)) by {
        assert("reproject"@.len() != "r"@.len());
    }
    assert(is_option_in_order(options, 0));
    if segment.name.len() > 0 {
        if is_called(options[0], segment.name) {
            let k = n - 1;
            options_are_taken_as_declared(options, action, segment, 0, k);
            if 1 <= n <= 2 {
                assert(shapes[k].len() == n);
                if segment_fault(options, action, segment) is None {
                    assert forall|j: int| 0 <= j < n implies Param::Token.fits(
                        #[trigger] segment.params[j],
                    ) by {
                        assert(shapes[k][j].fits(segment.params[j]));
                    }
                }
            }
        } else {
            unknown_options_are_refused(options, action, segment);
        }
    }
}

} // verus!
