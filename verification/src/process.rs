//! The action `process`: what can be done to the rows of any dataset.

use vstd::prelude::*;

use crate::formats::is_geojson;
use crate::grammar::{
    action_at, action_fault, are_core, opt, option_fault, options_fault, repeats_arity, Action,
    ActionDef, Grammar, Opt, OptModel, Param, StageCtx,
};
use crate::sql::{PipelineModel, PlanError};
use crate::text::{
    decimal, decimal_text, joined, quote, quoted, same, to_uppercase, uppercased, views,
};
use crate::url::{Segment, SegmentModel};

verus! {

/// Reprojects the rows of a dataset.
pub struct Process;

/// The reference system that the parameters of `reproject` name, in upper case: a code of the
/// EPSG, or an authority and a code.
pub open spec fn target_of(params: Seq<Seq<char>>) -> Option<Seq<char>> {
    if params.len() == 1 {
        Some("EPSG:"@ + uppercased(params[0]))
    } else if params.len() == 2 {
        Some(uppercased(params[0]) + ":"@ + uppercased(params[1]))
    } else {
        None
    }
}

fn target_crs(params: &Vec<String>) -> (r: Option<String>)
    ensures
        match (r, target_of(views(params@))) {
            (Some(target), Some(want)) => target@ == want,
            (None, None) => true,
            _ => false,
        },
{
    let ghost all = views(params@);
    if params.len() == 1 {
        assert(all[0] == params@[0]@);
        Some(joined("EPSG:", to_uppercase(params[0].as_str()).as_str()))
    } else if params.len() == 2 {
        assert(all[0] == params@[0]@ && all[1] == params@[1]@);
        let authority = joined(to_uppercase(params[0].as_str()).as_str(), ":");
        Some(joined(authority.as_str(), to_uppercase(params[1].as_str()).as_str()))
    } else {
        None
    }
}

/// The pipeline after one option.
pub open spec fn processed_by(p: PipelineModel, step: Seq<char>, segment: SegmentModel) -> Result<
    PipelineModel,
    PlanError<Seq<char>>,
> {
    if segment.name != "reproject"@ {
        Err(PlanError::Message("option "@ + quoted(segment.name) + " is not handled"@))
    } else {
        match target_of(segment.params) {
            None => Err(
                PlanError::Message(
                    "reproject takes one or two parameters, got "@ + decimal(segment.params.len()),
                ),
            ),
            Some(target) => Ok(
                PipelineModel { crs: target, ..p.replaced(step, p.moved(target)) },
            ),
        }
    }
}

/// The pipeline after some options, one after the other.
pub open spec fn processed(p: PipelineModel, step: Seq<char>, segments: Seq<SegmentModel>) -> Result<
    PipelineModel,
    PlanError<Seq<char>>,
>
    decreases segments.len(),
{
    if segments.len() == 0 {
        Ok(p)
    } else {
        match processed_by(p, step, segments[0]) {
            Err(e) => Err(e),
            Ok(next) => processed(next, step, segments.skip(1)),
        }
    }
}

/// The options of the action.
pub open spec fn process_options() -> Seq<OptModel> {
    seq![
        OptModel {
            name: "reproject"@,
            short: "r"@,
            shapes: seq![seq![Param::Token], seq![Param::Token, Param::Token]],
        },
    ]
}

impl Action for Process {
    open spec fn spec_name(&self) -> Seq<char> {
        "process"@
    }

    open spec fn spec_short(&self) -> Seq<char> {
        "p"@
    }

    open spec fn spec_options(&self) -> Seq<OptModel> {
        process_options()
    }

    open spec fn ran(
        &self,
        p: PipelineModel,
        step: Seq<char>,
        table: Seq<char>,
        segments: Seq<SegmentModel>,
    ) -> Result<PipelineModel, PlanError<Seq<char>>> {
        processed(p, step, segments)
    }

    fn name(&self) -> &'static str {
        "process"
    }

    fn short(&self) -> &'static str {
        "p"
    }

    fn options(&self) -> Vec<Opt> {
        let one: Vec<Param> = vec![Param::Token];
        let two: Vec<Param> = vec![Param::Token, Param::Token];
        assert(one@ =~= seq![Param::Token]);
        assert(two@ =~= seq![Param::Token, Param::Token]);
        let shapes: Vec<Vec<Param>> = vec![one, two];
        assert(views(shapes@) =~= seq![seq![Param::Token], seq![Param::Token, Param::Token]]);
        let r = vec![opt("reproject", "r", shapes)];
        assert(views(r@) =~= process_options());
        r
    }

    fn run(&self, ctx: &mut StageCtx<'_>, segments: &[Segment]) -> Result<(), PlanError> {
        let ghost all = views(segments@);
        let ghost start = ctx.pipeline.model();
        let ghost step = ctx.action@;
        let mut i: usize = 0;
        assert(all.skip(0) =~= all);
        while i < segments.len()
            invariant
                i <= segments@.len(),
                all == views(segments@),
                start == old(ctx).pipeline.model(),
                step == old(ctx).action@,
                *final(ctx.pipeline) == *final(old(ctx).pipeline),
                ctx.action == old(ctx).action,
                ctx.tables == old(ctx).tables,
                ctx.pipeline.wf(),
                processed(start, step, all) == processed(
                    ctx.pipeline.model(),
                    step,
                    all.skip(i as int),
                ),
            decreases segments@.len() - i,
        {
            let segment = &segments[i];
            assert(all.skip(i as int)[0] == segment@);
            assert(all.skip(i as int).skip(1) =~= all.skip(i as int + 1));
            if !same(segment.name.as_str(), "reproject") {
                let named = joined("option ", quote(segment.name.as_str()).as_str());
                return Err(PlanError::Message(joined(named.as_str(), " is not handled")));
            }
            let target = match target_crs(&segment.params) {
                Some(target) => target,
                None => {
                    return Err(
                        PlanError::Message(
                            joined(
                                "reproject takes one or two parameters, got ",
                                decimal_text(segment.params.len() as u64).as_str(),
                            ),
                        ),
                    );
                },
            };
            let geometry = ctx.transform(target.as_str());
            ctx.replace_geometry(geometry);
            ctx.set_crs(target.as_str());
            i += 1;
        }
        Ok(())
    }
}

/// `def` is the action.
pub open spec fn is_process(def: ActionDef) -> bool {
    &&& def.action.spec_name() == Process.spec_name()
    &&& def.action.spec_short() == Process.spec_short()
    &&& def.action.spec_options() == Process.spec_options()
    &&& forall|p: PipelineModel, step: Seq<char>, table: Seq<char>, segments: Seq<SegmentModel>|
        #[trigger]
        def.action.ran(p, step, table, segments) == Process.ran(p, step, table, segments)
}

/// The action as a grammar holds it.
pub fn process() -> (r: ActionDef)
    ensures
        is_process(r),
{
    let r = ActionDef { action: Box::new(Process) };
    assert(r.action.spec_name() == Process.spec_name());
    assert(r.action.spec_short() == Process.spec_short());
    assert(r.action.spec_options() == Process.spec_options());
    assert forall|
        p: PipelineModel,
        step: Seq<char>,
        table: Seq<char>,
        segments: Seq<SegmentModel>,
    | #[trigger]
        r.action.ran(p, step, table, segments) == Process.ran(p, step, table, segments) by {}
    r
}

/// The action can be registered wherever its two names are free.
pub proof fn process_has_no_fault(actions: Seq<ActionDef>)
    requires
        action_at(actions, "process"@, 0) >= actions.len(),
        action_at(actions, "p"@, 0) >= actions.len(),
    ensures
        action_fault(actions, Process.spec_name(), Process.spec_short(), Process.spec_options())
            is None,
{
    reveal_strlit("process");
    reveal_strlit("p");
    reveal_strlit("reproject");
    reveal_strlit("r");
    let options = process_options();
    let shapes = options[0].shapes;
    assert(shapes[0].len() == 1 && shapes[1].len() == 2);
    assert(!repeats_arity(shapes));
    assert(option_fault(options, 0) is None);
    assert(options_fault(options, 1) is None);
}

/// The built-in grammar with the action.
pub fn grammar() -> (r: Grammar)
    ensures
        are_core(r.filters@, 7),
        r.actions@.len() == 1,
        is_process(r.actions@[0]),
        r.outputs@.len() == 1,
        is_geojson(*r.outputs@[0]),
{
    let mut r = Grammar::built_in();
    proof {
        process_has_no_fault(r.actions@);
    }
    r.register_action(process());
    r
}

/// A second option reads the reference system that the first one set: what is done to it starts
/// from there.
pub proof fn options_follow_each_other(
    p: PipelineModel,
    step: Seq<char>,
    first: SegmentModel,
    second: SegmentModel,
)
    requires
        processed_by(p, step, first) is Ok,
    ensures
        Some(processed_by(p, step, first)->Ok_0.crs) == target_of(first.params),
        processed(p, step, seq![first, second]) == processed_by(
            processed_by(p, step, first)->Ok_0,
            step,
            second,
        ),
{
    let both = seq![first, second];
    let next = processed_by(p, step, first)->Ok_0;
    assert(both.skip(1) =~= seq![second]);
    assert(both.skip(1)[0] == second);
    assert(both.skip(1).skip(1) =~= Seq::<SegmentModel>::empty());
    reveal_with_fuel(processed, 3);
}

} // verus!
