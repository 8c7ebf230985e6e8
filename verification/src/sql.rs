//! The pipeline: a request becomes a row of named steps, each reading the one before it, and
//! side tables that a step may read besides.

use std::sync::Arc;
use vstd::prelude::*;

use crate::ast::{
    call1, call2, cast, column, ctes_sound, declares, each_sound, everything, in_quotes, raw, says,
    select_from, slots_sound, template2, text, Cte, CteModel, Relation, RelationModel, Select,
    SelectModel, Sql, SqlExpr,
};
use crate::backend::{duckdb_ops, has_ops, Backend, Dialect, DuckDb, UnknownOp};
use crate::filters::{
    columns_are_sound, condition, conditions, core_condition, core_conditions, core_writable,
    filter_message, means_the_core, named_filters_are_core, writable, FilterCtx, FilterError,
};
use crate::formats::{claim, output_at, Format};
use crate::grammar::{
    action_at, option_of, param_message, shape_at, takes, ActionDef, Grammar, OptModel, Param,
    ParamError, StageCtx,
};
use crate::query::{fields, geometry_column, geometry_of, read_all, whole_source};
use crate::sea::{render_with, written_with};
use crate::text::{
    decimal, decimal_text, free_suffix, free_suffix_bounds, fresh, fresh_is_new,
    fresh_texts_are_numbered, is_among, joined, lowered, quote, quoted, same, suffixed, views,
};
use crate::url::{Action, ActionModel, ParsedModel, ParsedUrl, Segment, SegmentModel};

verus! {

/// The reference system that GeoJSON is written in.
pub const WGS84: &'static str = "EPSG:4326";

/// Why a request cannot be turned into SQL.
#[derive(Debug, PartialEq)]
pub enum PlanError<S = String> {
    /// The source has no geometry column.
    NoGeometry,
    Filter(FilterError<S>),
    Param(ParamError<S>),
    Operation(UnknownOp<S>),
    /// The grammar has no action of this name.
    UnknownAction(S),
    /// An action has no option of this name.
    UnknownOption { option: S, action: S },
    /// An option does not take this many parameters.
    WrongArity { option: S, got: usize },
    /// No output is written under this extension.
    UnknownOutput(S),
    /// Anything else, in words.
    Message(S),
}

impl PlanError {
    pub open spec fn model(self) -> PlanError<Seq<char>> {
        match self {
            PlanError::NoGeometry => PlanError::NoGeometry,
            PlanError::Filter(e) => PlanError::Filter(e.model()),
            PlanError::Param(e) => PlanError::Param(e.model()),
            PlanError::Operation(e) => PlanError::Operation(e.model()),
            PlanError::UnknownAction(name) => PlanError::UnknownAction(name@),
            PlanError::UnknownOption { option, action } => PlanError::UnknownOption {
                option: option@,
                action: action@,
            },
            PlanError::WrongArity { option, got } => PlanError::WrongArity { option: option@, got },
            PlanError::UnknownOutput(name) => PlanError::UnknownOutput(name@),
            PlanError::Message(text) => PlanError::Message(text@),
        }
    }
}

/// What went wrong, in words.
pub open spec fn plan_message(e: PlanError<Seq<char>>) -> Seq<char> {
    match e {
        PlanError::NoGeometry => "source has no geometry column"@,
        PlanError::Filter(e) => filter_message(e),
        PlanError::Param(e) => param_message(e),
        PlanError::Operation(e) => "this backend has no operation named "@ + quoted(e.0),
        PlanError::UnknownAction(name) => "action "@ + quoted(name)
            + " is not registered in this grammar"@,
        PlanError::UnknownOption { option, action } => "option "@ + quoted(option)
            + " is not registered on "@ + quoted(action),
        PlanError::WrongArity { option, got } => "option "@ + quoted(option) + " does not take "@
            + decimal(got as nat) + " parameters"@,
        PlanError::UnknownOutput(name) => "no output is written as "@ + quoted(name),
        PlanError::Message(text) => text,
    }
}

impl PlanError {
    /// What went wrong, in words.
    pub fn message(&self) -> (r: String)
        ensures
            r@ == plan_message(self.model()),
    {
        match self {
            PlanError::NoGeometry => "source has no geometry column".to_owned(),
            PlanError::Filter(e) => e.message(),
            PlanError::Param(e) => e.message(),
            PlanError::Operation(e) => e.message(),
            PlanError::UnknownAction(name) => {
                let named = joined("action ", quote(name.as_str()).as_str());
                joined(named.as_str(), " is not registered in this grammar")
            },
            PlanError::UnknownOption { option, action } => {
                let named = joined("option ", quote(option.as_str()).as_str());
                let missing = joined(named.as_str(), " is not registered on ");
                joined(missing.as_str(), quote(action.as_str()).as_str())
            },
            PlanError::WrongArity { option, got } => {
                let named = joined("option ", quote(option.as_str()).as_str());
                let counted = joined(
                    joined(named.as_str(), " does not take ").as_str(),
                    decimal_text(*got as u64).as_str(),
                );
                joined(counted.as_str(), " parameters")
            },
            PlanError::UnknownOutput(name) => joined(
                "no output is written as ",
                quote(name.as_str()).as_str(),
            ),
            PlanError::Message(text) => text.clone(),
        }
    }
}

/// A side table: who asked for it, under which name, over which relation, and what it is called.
struct Side {
    action: String,
    name: String,
    over: String,
    alias: String,
}

/// What a side table is.
pub struct SideModel {
    pub action: Seq<char>,
    pub name: Seq<char>,
    pub over: Seq<char>,
    pub alias: Seq<char>,
}

/// A request on its way to SQL.
pub struct Pipeline {
    ctes: Vec<Cte>,
    names: Vec<String>,
    input: String,
    steps: usize,
    geometry: String,
    side: Vec<Side>,
    crs: String,
    backend: Arc<Backend>,
}

/// What a pipeline is: what it declares, the relation to read next, how many steps it has, the
/// geometry column, the side tables, the reference system of the geometry, and the database.
pub struct PipelineModel {
    pub ctes: Seq<CteModel>,
    pub input: Seq<char>,
    pub steps: nat,
    pub geometry: Seq<char>,
    pub side: Seq<SideModel>,
    pub crs: Seq<char>,
    pub backend: Backend,
}

/// The names that are declared.
pub open spec fn cte_names(ctes: Seq<CteModel>) -> Seq<Seq<char>> {
    Seq::new(ctes.len(), |i: int| ctes[i].name)
}

/// Where the side table `name` of `action` over `over` stands, `side.len()` where it does not.
pub open spec fn side_at(
    side: Seq<SideModel>,
    action: Seq<char>,
    name: Seq<char>,
    over: Seq<char>,
    from: int,
) -> int
    decreases side.len() - from,
{
    if from >= side.len() {
        side.len() as int
    } else if side[from].action == action && side[from].name == name && side[from].over == over {
        from
    } else {
        side_at(side, action, name, over, from + 1)
    }
}

proof fn side_at_bounds(
    side: Seq<SideModel>,
    action: Seq<char>,
    name: Seq<char>,
    over: Seq<char>,
    from: int,
)
    requires
        0 <= from <= side.len(),
    ensures
        from <= side_at(side, action, name, over, from) <= side.len(),
        ({
            let at = side_at(side, action, name, over, from);
            at < side.len() ==> side[at].action == action && side[at].name == name && side[at].over
                == over
        }),
    decreases side.len() - from,
{
    if from < side.len() && !(side[from].action == action && side[from].name == name
        && side[from].over == over) {
        side_at_bounds(side, action, name, over, from + 1);
    }
}

proof fn side_at_push(
    side: Seq<SideModel>,
    next: SideModel,
    action: Seq<char>,
    name: Seq<char>,
    over: Seq<char>,
    from: int,
)
    requires
        0 <= from <= side.len(),
        side_at(side, action, name, over, from) == side.len(),
        next.action == action && next.name == name && next.over == over,
    ensures
        side_at(side.push(next), action, name, over, from) == side.len(),
    decreases side.len() - from,
{
    let after = side.push(next);
    if from < side.len() {
        assert(after[from] == side[from]);
        side_at_bounds(side, action, name, over, from + 1);
        side_at_push(side, next, action, name, over, from + 1);
    } else {
        assert(after[from] == next);
    }
}

impl PipelineModel {
    /// Something is declared, everything declared can be written out and has its own name, the
    /// relation to read next is declared, every side table is declared and stands over a declared
    /// relation, and no two side tables are called the same.
    pub open spec fn wf(self) -> bool {
        &&& self.steps < self.ctes.len()
        &&& ctes_sound(self.ctes)
        &&& cte_names(self.ctes).no_duplicates()
        &&& cte_names(self.ctes).contains(self.input)
        &&& forall|i: int|
            0 <= i < self.side.len() ==> cte_names(self.ctes).contains(
                (#[trigger] self.side[i]).over,
            ) && cte_names(self.ctes).contains(self.side[i].alias)
        &&& forall|i: int, j: int|
            0 <= i < j < self.side.len() ==> (#[trigger] self.side[i]).alias != (
            #[trigger] self.side[j]).alias
        &&& self.backend.wf()
    }

    /// The name of the next step.
    pub open spec fn next_step(self, action: Seq<char>) -> Seq<char> {
        fresh(cte_names(self.ctes), action + "_"@ + decimal(self.steps + 1))
    }

    /// One step further: `select` is declared and is what the next step reads.
    pub open spec fn stepped(self, action: Seq<char>, select: SelectModel) -> PipelineModel {
        let name = self.next_step(action);
        PipelineModel {
            ctes: self.ctes.push(CteModel { name, query: select }),
            input: name,
            steps: self.steps + 1,
            ..self
        }
    }

    /// What the side table `name` of `action` over the relation to read next is called.
    pub open spec fn table(self, action: Seq<char>, name: Seq<char>) -> Option<Seq<char>> {
        let at = side_at(self.side, action, name, self.input, 0);
        if at < self.side.len() {
            Some(self.side[at].alias)
        } else {
            None
        }
    }

    /// The name of a new side table.
    pub open spec fn next_table(self, action: Seq<char>, name: Seq<char>) -> Seq<char> {
        fresh(cte_names(self.ctes), action + "_"@ + name)
    }

    /// With a new side table over the relation to read next, which stays what it is.
    pub open spec fn tabled(
        self,
        action: Seq<char>,
        name: Seq<char>,
        select: SelectModel,
    ) -> PipelineModel {
        let alias = self.next_table(action, name);
        PipelineModel {
            ctes: self.ctes.push(CteModel { name: alias, query: select }),
            side: self.side.push(SideModel { action, name, over: self.input, alias }),
            ..self
        }
    }
}

proof fn declared_name_is_new(p: PipelineModel, name: Seq<char>, query: SelectModel)
    requires
        p.wf(),
        query.sound(),
        !cte_names(p.ctes).contains(name),
    ensures
        ({
            let after = p.ctes.push(CteModel { name, query });
            &&& ctes_sound(after)
            &&& cte_names(after) == cte_names(p.ctes).push(name)
            &&& cte_names(after).no_duplicates()
            &&& forall|s: Seq<char>| #[trigger]
                cte_names(p.ctes).contains(s) ==> cte_names(after).contains(s)
            &&& cte_names(after).contains(name)
        }),
{
    let before = cte_names(p.ctes);
    let after = p.ctes.push(CteModel { name, query });
    assert(cte_names(after) =~= before.push(name));
    assert forall|s: Seq<char>| #[trigger] before.contains(s) implies cte_names(after).contains(
        s,
    ) by {
        let i = choose|i: int| 0 <= i < before.len() && before[i] == s;
        assert(cte_names(after)[i] == s);
    }
    assert(cte_names(after)[before.len() as int] == name);
}

/// A step keeps the pipeline well formed, and reaches past every side table: none that was built
/// over an earlier relation is found from then on.
pub proof fn step_leaves_side_tables_behind(
    p: PipelineModel,
    action: Seq<char>,
    select: SelectModel,
)
    requires
        p.wf(),
        select.sound(),
    ensures
        p.stepped(action, select).wf(),
        forall|a: Seq<char>, n: Seq<char>| #[trigger]
            p.stepped(action, select).table(a, n) is None,
{
    let name = p.next_step(action);
    fresh_is_new(cte_names(p.ctes), action + "_"@ + decimal(p.steps + 1));
    declared_name_is_new(p, name, select);
    let after = p.stepped(action, select);
    assert forall|a: Seq<char>, n: Seq<char>| #[trigger] after.table(a, n) is None by {
        side_at_bounds(after.side, a, n, name, 0);
    }
}

/// A new side table keeps the pipeline well formed, is found under its name as long as the next
/// step reads the same relation, and does not change what that relation is. What it is called
/// nothing else is called: no step and no other side table.
pub proof fn side_table_is_found(
    p: PipelineModel,
    action: Seq<char>,
    name: Seq<char>,
    select: SelectModel,
)
    requires
        p.wf(),
        select.sound(),
        p.table(action, name) is None,
    ensures
        p.tabled(action, name, select).wf(),
        p.tabled(action, name, select).table(action, name) == Some(p.next_table(action, name)),
        p.tabled(action, name, select).input == p.input,
        p.tabled(action, name, select).steps == p.steps,
        !cte_names(p.ctes).contains(p.next_table(action, name)),
        forall|i: int|
            0 <= i < p.side.len() ==> (#[trigger] p.side[i]).alias != p.next_table(action, name),
{
    fresh_is_new(cte_names(p.ctes), action + "_"@ + name);
    let alias = p.next_table(action, name);
    declared_name_is_new(p, alias, select);
    side_at_bounds(p.side, action, name, p.input, 0);
    side_at_push(
        p.side,
        SideModel { action, name, over: p.input, alias },
        action,
        name,
        p.input,
        0,
    );
}

impl Side {
    spec fn model(self) -> SideModel {
        SideModel {
            action: self.action@,
            name: self.name@,
            over: self.over@,
            alias: self.alias@,
        }
    }
}

/// The name `base`, or the first `base_1`, `base_2` and so on that is not taken.
fn fresh_name(taken: &Vec<String>, base: String) -> (r: String)
    ensures
        r@ == fresh(views(taken@), base@),
{
    let mut k: u64 = 0;
    let mut name = base.clone();
    let ghost all = views(taken@);
    proof {
        fresh_is_new(all, base@);
        assert(taken.len() == all.len());
    }
    while is_among(taken, name.as_str())
        invariant
            all == views(taken@),
            name@ == suffixed(base@, k as nat),
            free_suffix(all, base@, 0) == free_suffix(all, base@, k as nat),
            free_suffix(all, base@, 0) <= all.len() <= usize::MAX,
            k <= free_suffix(all, base@, 0),
        decreases all.len() + 1 - k,
    {
        proof {
            free_suffix_bounds(all, base@, k as nat + 1);
        }
        k += 1;
        name = joined(joined(base.as_str(), "_").as_str(), decimal_text(k).as_str());
    }
    name
}

impl Pipeline {
    pub closed spec fn model(self) -> PipelineModel {
        PipelineModel {
            ctes: declares(self.ctes@),
            input: self.input@,
            steps: self.steps as nat,
            geometry: self.geometry@,
            side: Seq::new(self.side@.len(), |i: int| self.side@[i].model()),
            crs: self.crs@,
            backend: *self.backend,
        }
    }

    /// The names are those of the declarations.
    pub closed spec fn names_kept(self) -> bool {
        views(self.names@) == cte_names(declares(self.ctes@))
    }

    /// The pipeline is well formed.
    pub open spec fn wf(self) -> bool {
        self.names_kept() && self.model().wf()
    }

    fn declare(&mut self, name: String, query: Select)
        requires
            old(self).names_kept(),
        ensures
            final(self).names_kept(),
            final(self).model() == (PipelineModel {
                ctes: old(self).model().ctes.push(
                    CteModel { name: name@, query: query.model() },
                ),
                ..old(self).model()
            }),
            final(self).side == old(self).side,
            final(self).input == old(self).input,
            final(self).steps == old(self).steps,
    {
        self.names.push(name.clone());
        let cte = Cte { name, query };
        self.ctes.push(cte);
        proof {
            let before = old(self).model();
            assert(self.model().ctes =~= before.ctes.push(cte.model()));
            assert(self.model().side =~= before.side);
            assert(views(old(self).names@).len() == cte_names(before.ctes).len());
            assert(views(self.names@) =~= cte_names(self.model().ctes)) by {
                assert forall|i: int| 0 <= i < self.names@.len() implies views(self.names@)[i]
                    == cte_names(self.model().ctes)[i] by {
                    if i < old(self).names@.len() {
                        assert(views(old(self).names@)[i] == cte_names(before.ctes)[i]);
                    }
                }
            }
        }
    }

    /// Declares `select` as the next step of `action`, which from then on is what is read.
    pub fn step_for(&mut self, action: &str, select: Select)
        requires
            old(self).wf(),
            select.model().sound(),
        ensures
            final(self).wf(),
            final(self).model() == old(self).model().stepped(action@, select.model()),
    {
        proof {
            step_leaves_side_tables_behind(self.model(), action@, select.model());
        }
        assert(self.steps < self.ctes.len());
        let count: usize = self.steps + 1;
        let base = joined(joined(action, "_").as_str(), decimal_text(count as u64).as_str());
        let name = fresh_name(&self.names, base);
        self.declare(name.clone(), select);
        self.input = name;
        self.steps = count;
        assert(self.model().side =~= old(self).model().side);
    }

    /// Declares `select` as the next step, which from then on is what is read.
    pub fn step(&mut self, select: Select)
        requires
            old(self).wf(),
            select.model().sound(),
        ensures
            final(self).wf(),
            final(self).model() == old(self).model().stepped("step"@, select.model()),
    {
        self.step_for("step", select);
    }

    /// What the side table `name` of `action` over the relation to read next is called.
    pub fn cte_of(&self, action: &str, name: &str) -> (r: Option<String>)
        ensures
            match r {
                Some(alias) => self.model().table(action@, name@) == Some(alias@),
                None => self.model().table(action@, name@) is None,
            },
    {
        let ghost side = self.model().side;
        let mut i: usize = 0;
        while i < self.side.len()
            invariant
                i <= self.side@.len(),
                side == self.model().side,
                side_at(side, action@, name@, self.model().input, 0) == side_at(
                    side,
                    action@,
                    name@,
                    self.model().input,
                    i as int,
                ),
            decreases self.side@.len() - i,
        {
            assert(side[i as int] == self.side@[i as int].model());
            let held = &self.side[i];
            if same(held.action.as_str(), action) && same(held.name.as_str(), name) && same(
                held.over.as_str(),
                self.input.as_str(),
            ) {
                return Some(held.alias.clone());
            }
            i += 1;
        }
        None
    }

    /// What the side table `name` over the relation to read next is called.
    pub fn cte(&self, name: &str) -> (r: Option<String>)
        ensures
            match r {
                Some(alias) => self.model().table("x"@, name@) == Some(alias@),
                None => self.model().table("x"@, name@) is None,
            },
    {
        self.cte_of("x", name)
    }

    /// Has the side table `name` of `action` over the relation to read next, building it with
    /// `build` from that relation's name where there is none yet, and tells what it is called.
    pub fn cte_once_for<F: FnOnce(&str) -> Select>(
        &mut self,
        action: &str,
        name: &str,
        build: F,
    ) -> (r: String)
        requires
            old(self).wf(),
            old(self).model().table(action@, name@) is None ==> {
                &&& forall|from: &str|
                    from@ == old(self).model().input ==> call_requires(build, (from,))
                &&& forall|from: &str, select: Select|
                    from@ == old(self).model().input && #[trigger] call_ensures(
                        build,
                        (from,),
                        select,
                    ) ==> select.model().sound()
            },
        ensures
            final(self).wf(),
            match old(self).model().table(action@, name@) {
                Some(alias) => r@ == alias && final(self).model() == old(self).model(),
                None => r@ == old(self).model().next_table(action@, name@) && exists|
                    from: &str,
                    select: Select,
                | #[trigger]
                    call_ensures(build, (from,), select) && from@ == old(self).model().input
                        && final(self).model() == old(self).model().tabled(
                        action@,
                        name@,
                        select.model(),
                    ),
            },
    {
        match self.cte_of(action, name) {
            Some(alias) => alias,
            None => {
                let base = joined(joined(action, "_").as_str(), name);
                let alias = fresh_name(&self.names, base);
                let select = build(self.input.as_str());
                proof {
                    side_table_is_found(self.model(), action@, name@, select.model());
                }
                self.declare(alias.clone(), select);
                let held = Side {
                    action: action.to_owned(),
                    name: name.to_owned(),
                    over: self.input.clone(),
                    alias: alias.clone(),
                };
                self.side.push(held);
                assert(self.model().side =~= old(self).model().side.push(held.model()));
                assert(self.model() == old(self).model().tabled(action@, name@, select.model()));
                alias
            },
        }
    }

    /// Has the side table `name` over the relation to read next, building it with `build` from
    /// that relation's name where there is none yet, and tells what it is called.
    pub fn cte_once<F: FnOnce(&str) -> Select>(&mut self, name: &str, build: F) -> (r: String)
        requires
            old(self).wf(),
            old(self).model().table("x"@, name@) is None ==> {
                &&& forall|from: &str|
                    from@ == old(self).model().input ==> call_requires(build, (from,))
                &&& forall|from: &str, select: Select|
                    from@ == old(self).model().input && #[trigger] call_ensures(
                        build,
                        (from,),
                        select,
                    ) ==> select.model().sound()
            },
        ensures
            final(self).wf(),
            match old(self).model().table("x"@, name@) {
                Some(alias) => r@ == alias && final(self).model() == old(self).model(),
                None => r@ == old(self).model().next_table("x"@, name@) && exists|
                    from: &str,
                    select: Select,
                | #[trigger]
                    call_ensures(build, (from,), select) && from@ == old(self).model().input
                        && final(self).model() == old(self).model().tabled(
                        "x"@,
                        name@,
                        select.model(),
                    ),
            },
    {
        self.cte_once_for("x", name, build)
    }

    /// The geometry column.
    pub fn geometry(&self) -> (r: &str)
        ensures
            r@ == self.model().geometry,
    {
        self.geometry.as_str()
    }

    /// The relation to read next.
    pub fn input(&self) -> (r: String)
        ensures
            r@ == self.model().input,
    {
        self.input.clone()
    }

    /// The reference system of the geometry.
    pub fn crs(&self) -> (r: &str)
        ensures
            r@ == self.model().crs,
    {
        self.crs.as_str()
    }

    /// The database.
    pub fn backend(&self) -> (r: &Backend)
        ensures
            *r == self.model().backend,
    {
        &self.backend
    }
}

// Reference systems.

/// `crs` is a name of the reference system of GeoJSON, spelled as sources spell it.
pub open spec fn is_wgs84(crs: Seq<char>) -> bool {
    crs == "EPSG:4326"@ || crs == "OGC:CRS84"@ || crs == "CRS84"@ || crs == "crs84"@
}

/// Whether `crs` is a name of the reference system of GeoJSON.
pub fn wgs84(crs: &str) -> (r: bool)
    ensures
        r == is_wgs84(crs@),
{
    same(crs, WGS84) || same(crs, "OGC:CRS84") || same(crs, "CRS84") || same(crs, "crs84")
}

/// Two names stand for one reference system.
pub open spec fn is_same_crs(a: Seq<char>, b: Seq<char>) -> bool {
    a == b || (is_wgs84(a) && is_wgs84(b))
}

fn same_crs(a: &str, b: &str) -> (r: bool)
    ensures
        r == is_same_crs(a@, b@),
{
    same(a, b) || (wgs84(a) && wgs84(b))
}

// The steps of a request.

/// A select of everything in `input`, with `geometry` in place of the geometry column.
pub open spec fn replacing(input: Seq<char>, column: Seq<char>, geometry: Sql) -> SelectModel {
    select_from(
        Sql::Template("* REPLACE ($1 AS $2)"@, seq![geometry, Sql::Column(column)]),
        RelationModel::Table(input),
        None,
    )
}

impl PipelineModel {
    /// A pipeline that reads a source.
    pub open spec fn reading(
        source: Seq<char>,
        encoding: Seq<char>,
        geometry: Seq<char>,
        crs: Seq<char>,
        backend: Backend,
    ) -> PipelineModel {
        PipelineModel {
            ctes: seq![CteModel { name: "source"@, query: whole_source(source, encoding) }],
            input: "source"@,
            steps: 0,
            geometry,
            side: Seq::empty(),
            crs,
            backend,
        }
    }

    /// The geometry in another reference system: as it is where that is the one it has.
    pub open spec fn moved(self, target: Seq<char>) -> Sql {
        let geometry = Sql::Column(self.geometry);
        if is_same_crs(self.crs, target) {
            geometry
        } else {
            self.backend.dialect.dialect.transformed(geometry, self.crs, target)
        }
    }

    /// One step further, with `geometry` in place of the geometry column.
    pub open spec fn replaced(self, action: Seq<char>, geometry: Sql) -> PipelineModel {
        self.stepped(action, replacing(self.input, self.geometry, geometry))
    }

    /// With the geometry in the reference system of GeoJSON, where the format asks for that and
    /// `crs` is another.
    pub open spec fn reprojected(self, crs: Option<Seq<char>>, format: Format) -> PipelineModel {
        match crs {
            Some(from) if format.wants_wgs84() && !is_wgs84(from) => self.replaced(
                "step"@,
                Sql::Call(
                    "ST_Transform"@,
                    seq![
                        Sql::Column(self.geometry),
                        Sql::Text(from),
                        Sql::Text("EPSG:4326"@),
                        Sql::Raw("always_xy := true"@),
                    ],
                ),
            ),
            _ => self,
        }
    }

    /// The text that declares everything and ends in `select`.
    pub open spec fn text(self, select: SelectModel) -> Seq<char> {
        written_with(self.ctes, select)
    }

    /// With the geometry as GeoJSON.
    pub open spec fn encoded(self) -> PipelineModel {
        self.replaced("step"@, Sql::Call("ST_AsGeoJSON"@, seq![Sql::Column(self.geometry)]))
    }
}

/// A select of one GeoJSON feature for each row of `input`.
pub open spec fn features(input: Seq<char>, geometry: Seq<char>) -> SelectModel {
    select_from(
        Sql::Cast(
            Box::new(
                Sql::Call(
                    "json_object"@,
                    seq![
                        Sql::Text("type"@),
                        Sql::Text("Feature"@),
                        Sql::Text("properties"@),
                        Sql::Call(
                            "json_merge_patch"@,
                            seq![
                                Sql::Call("to_json"@, seq![Sql::Column(input)]),
                                Sql::Call(
                                    "json_object"@,
                                    seq![Sql::Text(geometry), Sql::Raw("NULL"@)],
                                ),
                            ],
                        ),
                        Sql::Text("geometry"@),
                        Sql::Cast(Box::new(Sql::Column(geometry)), "JSON"@),
                    ],
                ),
            ),
            "VARCHAR"@,
        ),
        RelationModel::Table(input),
        None,
    )
}

proof fn replace_sound()
    ensures
        slots_sound("* REPLACE ($1 AS $2)"@, 2),
{
    reveal_strlit("* REPLACE ($1 AS $2)");
    reveal_with_fuel(in_quotes, 20);
}

/// A select of one GeoJSON feature for each row of `input`.
pub fn feature_select(input: &str, geometry: &str) -> (r: Select)
    ensures
        r.model() == features(input@, geometry@),
        r.model().sound(),
{
    let properties = call2(
        "json_merge_patch",
        call1("to_json", column(input)),
        call2("json_object", text(geometry), raw("NULL")),
    );
    let json = cast(column(geometry), "JSON");
    let args = vec![
        text("type"),
        text("Feature"),
        text("properties"),
        properties,
        text("geometry"),
        json,
    ];
    proof {
        let want = seq![
            Sql::Text("type"@),
            Sql::Text("Feature"@),
            Sql::Text("properties"@),
            properties.model(),
            Sql::Text("geometry"@),
            json.model(),
        ];
        assert(says(args@) =~= want);
        assert(Sql::Text("type"@).sound());
        assert(Sql::Text("Feature"@).sound());
        assert(Sql::Text("properties"@).sound());
        assert(Sql::Text("geometry"@).sound());
        assert(each_sound(want));
        assert(Sql::Call("json_object"@, want).sound());
    }
    let object = SqlExpr::Call("json_object".to_owned(), args);
    Select::from(
        cast(object, "VARCHAR"),
        Relation::Table(input.to_owned()),
    )
}

impl Pipeline {
    /// A pipeline that reads a source, whose geometry is in the reference system of GeoJSON.
    pub fn source(source: &str, encoding: &str, columns: &[(String, String)]) -> (r: Result<
        Pipeline,
        PlanError,
    >)
        ensures
            match (r, geometry_column(fields(columns@))) {
                (Ok(p), Some(geometry)) => p.wf() && p.model() == PipelineModel::reading(
                    source@,
                    encoding@,
                    geometry,
                    "EPSG:4326"@,
                    p.model().backend,
                ) && is_duckdb(p.model().backend),
                (Err(e), None) => e is NoGeometry,
                _ => false,
            },
    {
        let geometry = match geometry_of(columns) {
            Some(name) => name.to_owned(),
            None => {
                return Err(PlanError::NoGeometry);
            },
        };
        let cte = Cte { name: "source".to_owned(), query: read_all(source, encoding) };
        let r = Pipeline {
            ctes: vec![cte],
            names: vec!["source".to_owned()],
            input: "source".to_owned(),
            steps: 0,
            geometry,
            side: Vec::new(),
            crs: WGS84.to_owned(),
            backend: Arc::new(Backend::default()),
        };
        proof {
            let m = r.model();
            assert(m.ctes =~= seq![
                CteModel { name: "source"@, query: whole_source(source@, encoding@) },
            ]);
            assert(m.side =~= Seq::<SideModel>::empty());
            assert(views(r.names@) =~= cte_names(m.ctes));
            assert(cte_names(m.ctes)[0] == "source"@);
        }
        Ok(r)
    }

    /// The pipeline with its geometry in `crs`, where that is known.
    pub fn with_crs(self, crs: Option<&str>) -> (r: Pipeline)
        ensures
            r.names_kept() == self.names_kept(),
            r.model() == (PipelineModel {
                crs: match crs {
                    Some(name) => name@,
                    None => self.model().crs,
                },
                ..self.model()
            }),
    {
        let mut r = self;
        match crs {
            Some(name) => {
                r.crs = name.to_owned();
            },
            None => {},
        }
        r
    }

    /// The pipeline on another database.
    pub fn with_backend(self, backend: Arc<Backend>) -> (r: Pipeline)
        ensures
            r.names_kept() == self.names_kept(),
            r.model() == (PipelineModel { backend: *backend, ..self.model() }),
    {
        let mut r = self;
        r.backend = backend;
        r
    }

    /// Says that the geometry is in `crs` from now on.
    pub fn set_crs(&mut self, crs: &str)
        ensures
            final(self).names_kept() == old(self).names_kept(),
            final(self).model() == (PipelineModel { crs: crs@, ..old(self).model() }),
    {
        self.crs = crs.to_owned();
    }

    /// The geometry column.
    pub fn geom(&self) -> (r: SqlExpr)
        ensures
            r.model() == Sql::Column(self.model().geometry),
            r.model().sound(),
    {
        SqlExpr::Column(self.geometry.clone())
    }

    /// The geometry in another reference system: as it is where that is the one it has.
    pub fn transform(&self, target: &str) -> (r: SqlExpr)
        ensures
            r.model() == self.model().moved(target@),
            r.model().sound(),
    {
        if same_crs(self.crs.as_str(), target) {
            self.geom()
        } else {
            self.backend.dialect.dialect.transform(self.geom(), self.crs.as_str(), target)
        }
    }

    /// Declares a step of `action` with `geometry` in place of the geometry column.
    pub fn replace_geometry(&mut self, action: &str, geometry: SqlExpr)
        requires
            old(self).wf(),
            geometry.model().sound(),
        ensures
            final(self).wf(),
            final(self).model() == old(self).model().replaced(action@, geometry.model()),
    {
        proof {
            replace_sound();
        }
        let column = template2("* REPLACE ($1 AS $2)", geometry, self.geom());
        let select = Select::from(column, Relation::Table(self.input.clone()));
        self.step_for(action, select);
    }

    /// Brings the geometry into the reference system of GeoJSON where the format asks for that
    /// and `crs` says that it is in another.
    pub fn reproject(&mut self, crs: Option<&str>, format: Format)
        requires
            old(self).wf(),
        ensures
            final(self).wf(),
            final(self).model() == old(self).model().reprojected(
                match crs {
                    Some(from) => Some(from@),
                    None => None,
                },
                format,
            ),
    {
        match crs {
            Some(from) => {
                if format.requires_wgs84() && !wgs84(from) {
                    let args = vec![
                        self.geom(),
                        text(from),
                        text("EPSG:4326"),
                        raw("always_xy := true"),
                    ];
                    proof {
                        let want = seq![
                            Sql::Column(self.model().geometry),
                            Sql::Text(from@),
                            Sql::Text("EPSG:4326"@),
                            Sql::Raw("always_xy := true"@),
                        ];
                        assert(says(args@) =~= want);
                        assert(Sql::Column(self.model().geometry).sound());
                        assert(Sql::Text(from@).sound());
                        assert(Sql::Text("EPSG:4326"@).sound());
                        assert(Sql::Raw("always_xy := true"@).sound());
                        assert(each_sound(want));
                        assert(Sql::Call("ST_Transform"@, want).sound());
                    }
                    let geometry = SqlExpr::Call("ST_Transform".to_owned(), args);
                    self.replace_geometry("step", geometry);
                }
            },
            None => {},
        }
    }

    /// The SQL that declares everything and ends in `select`.
    pub fn finish_with(self, select: Select) -> (r: String)
        requires
            self.wf(),
            select.model().sound(),
        ensures
            r@ == self.model().text(select.model()),
    {
        render_with(&self.ctes, &select)
    }

    /// The SQL of a GeoJSON feature for each row.
    pub fn finish(self, format: Format) -> (r: String)
        requires
            self.wf(),
        ensures
            r@ == ({
                let done = self.model().encoded();
                done.text(features(done.input, done.geometry))
            }),
    {
        let mut done = self;
        let encoded = call1("ST_AsGeoJSON", done.geom());
        done.replace_geometry("step", encoded);
        match format {
            Format::GeoJson | Format::Json => {
                let select = feature_select(done.input.as_str(), done.geometry.as_str());
                done.finish_with(select)
            },
        }
    }

    /// The SQL of the rows as they are.
    pub fn finish_raw(self) -> (r: String)
        requires
            self.wf(),
        ensures
            r@ == self.model().text(everything(self.model().input)),
    {
        let select = Select::all(self.input.as_str());
        self.finish_with(select)
    }
}

/// The backend is DuckDB with the operations that it comes with.
pub open spec fn is_duckdb(backend: Backend) -> bool {
    &&& backend.wf()
    &&& has_ops(backend.vocabulary.ops@, duckdb_ops())
    &&& forall|g: Sql, from: Seq<char>, to: Seq<char>| #[trigger]
        backend.dialect.dialect.transformed(g, from, to) == DuckDb.transformed(g, from, to)
    &&& forall|g: Sql| #[trigger] backend.dialect.dialect.encoded(g) == DuckDb.encoded(g)
}

// Requests.

impl PipelineModel {
    /// With those rows alone that meet a condition, if there is one.
    pub open spec fn narrowed(self, condition: Option<Sql>) -> PipelineModel {
        match condition {
            Some(e) => self.stepped(
                "step"@,
                SelectModel { filter: Some(e), ..everything(self.input) },
            ),
            None => self,
        }
    }
}

impl Pipeline {
    fn narrow(&mut self, condition: Option<SqlExpr>)
        requires
            old(self).wf(),
            condition matches Some(e) ==> e.model().sound(),
        ensures
            final(self).wf(),
            final(self).model() == old(self).model().narrowed(
                match condition {
                    Some(e) => Some(e.model()),
                    None => None,
                },
            ),
    {
        match condition {
            Some(e) => {
                let select = Select::all(self.input.as_str()).keeping(e);
                self.step(select);
            },
            None => {},
        }
    }

    /// Keeps the rows that meet core filters, in one step; where there are no filters, adds none.
    pub fn filter(&mut self, filters: &[Segment], columns: &[(String, String)]) -> (r: Result<
        (),
        PlanError,
    >)
        requires
            old(self).wf(),
            core_writable(views(filters@), old(self).model().geometry, fields(columns@)),
        ensures
            final(self).wf(),
            match (
                r,
                core_conditions(
                    views(filters@),
                    old(self).model().geometry,
                    fields(columns@),
                    None,
                ),
            ) {
                (Ok(_), Ok(condition)) => final(self).model() == old(self).model().narrowed(
                    condition,
                ),
                (Err(e), Err(want)) => e.model() == PlanError::Filter(want) && final(self).model()
                    == old(self).model(),
                _ => false,
            },
    {
        match core_condition(filters, columns, self.geometry.as_str()) {
            Ok(condition) => {
                self.narrow(condition);
                Ok(())
            },
            Err(e) => Err(PlanError::Filter(e)),
        }
    }

    /// Keeps the rows that meet the filters of a grammar, in one step; where there are no filters,
    /// adds none.
    pub fn filter_by(
        &mut self,
        grammar: &Grammar,
        filters: &[Segment],
        columns: &[(String, String)],
    ) -> (r: Result<(), PlanError>)
        requires
            old(self).wf(),
            writable(
                grammar.filters@,
                old(self).model(),
                fields(columns@),
                views(filters@),
            ),
        ensures
            match (
                r,
                conditions(
                    grammar.filters@,
                    old(self).model(),
                    fields(columns@),
                    views(filters@),
                    None,
                ),
            ) {
                (Ok(_), Ok((p, condition))) => final(self).wf() && final(self).model()
                    == p.narrowed(condition),
                (Err(e), Err(want)) => e.model() == want,
                _ => false,
            },
    {
        let made = {
            let mut ctx = FilterCtx::new(self, columns);
            condition(grammar, &mut ctx, filters)
        };
        match made {
            Ok(condition) => {
                self.narrow(condition);
                Ok(())
            },
            Err(e) => Err(e),
        }
    }
}

/// Reads a source, filters it, brings its geometry into the reference system of GeoJSON where that
/// is known to be needed, and writes a feature for each row.
pub open spec fn built(
    source: Seq<char>,
    encoding: Seq<char>,
    filters: Seq<SegmentModel>,
    format: Format,
    columns: Seq<(Seq<char>, Seq<char>)>,
    crs: Option<Seq<char>>,
    backend: Backend,
) -> Result<Seq<char>, PlanError<Seq<char>>> {
    match geometry_column(columns) {
        None => Err(PlanError::NoGeometry),
        Some(geometry) => match core_conditions(filters, geometry, columns, None) {
            Err(e) => Err(PlanError::Filter(e)),
            Ok(condition) => {
                let done = PipelineModel::reading(
                    source,
                    encoding,
                    geometry,
                    "EPSG:4326"@,
                    backend,
                ).narrowed(condition).reprojected(crs, format).encoded();
                Ok(done.text(features(done.input, done.geometry)))
            },
        },
    }
}

/// What is built does not depend on the database.
pub proof fn built_on_any_backend(
    source: Seq<char>,
    encoding: Seq<char>,
    filters: Seq<SegmentModel>,
    format: Format,
    columns: Seq<(Seq<char>, Seq<char>)>,
    crs: Option<Seq<char>>,
    a: Backend,
    b: Backend,
)
    ensures
        built(source, encoding, filters, format, columns, crs, a) == built(
            source,
            encoding,
            filters,
            format,
            columns,
            crs,
            b,
        ),
{
}

/// The text that a reference system is known by, if it is known.
pub open spec fn known(crs: Option<&str>) -> Option<Seq<char>> {
    match crs {
        Some(name) => Some(name@),
        None => None,
    }
}

/// A result is the text or the error that it should be.
pub open spec fn agrees(r: Result<String, PlanError>, want: Result<Seq<char>, PlanError<Seq<char>>>) -> bool {
    match (r, want) {
        (Ok(sql), Ok(want)) => sql@ == want,
        (Err(e), Err(want)) => e.model() == want,
        _ => false,
    }
}

/// The SQL that reads a source, filters it and writes a feature for each row.
pub fn build_sql(
    source: &str,
    encoding: &str,
    filters: &[Segment],
    format: Format,
    columns: &[(String, String)],
    crs: Option<&str>,
) -> (r: Result<String, PlanError>)
    requires
        geometry_column(fields(columns@)) matches Some(geometry) ==> core_writable(
            views(filters@),
            geometry,
            fields(columns@),
        ),
    ensures
        forall|backend: Backend|
            agrees(
                r,
                #[trigger] built(
                    source@,
                    encoding@,
                    views(filters@),
                    format,
                    fields(columns@),
                    known(crs),
                    backend,
                ),
            ),
{
    let mut pipeline = match Pipeline::source(source, encoding, columns) {
        Ok(pipeline) => pipeline,
        Err(e) => {
            return Err(e);
        },
    };
    proof {
        let own = pipeline.model().backend;
        assert forall|backend: Backend| true implies #[trigger] built(
            source@,
            encoding@,
            views(filters@),
            format,
            fields(columns@),
            known(crs),
            backend,
        ) == built(
            source@,
            encoding@,
            views(filters@),
            format,
            fields(columns@),
            known(crs),
            own,
        ) by {
            built_on_any_backend(
                source@,
                encoding@,
                views(filters@),
                format,
                fields(columns@),
                known(crs),
                backend,
                own,
            );
        }
    }
    match pipeline.filter(filters, columns) {
        Ok(_) => {},
        Err(e) => {
            return Err(e);
        },
    }
    pipeline.reproject(crs, format);
    Ok(pipeline.finish(format))
}

// Actions.

/// Where the first of `params` stands that is not what it must be, `params.len()` where all are.
pub open spec fn misfit_at(shape: Seq<Param>, params: Seq<Seq<char>>, from: int) -> int
    decreases params.len() - from,
{
    if from >= params.len() {
        params.len() as int
    } else if !shape[from].fits(params[from]) {
        from
    } else {
        misfit_at(shape, params, from + 1)
    }
}

/// What is wrong with a segment of an action that has these options.
pub open spec fn segment_fault(
    options: Seq<OptModel>,
    action: Seq<char>,
    segment: SegmentModel,
) -> Option<PlanError<Seq<char>>> {
    let n = segment.params.len();
    match option_of(options, segment.name) {
        None => Some(PlanError::UnknownOption { option: segment.name, action }),
        Some(option) => {
            let shape = option.shapes[shape_at(option.shapes, n, 0)];
            let at = misfit_at(shape, segment.params, 0);
            if !takes(option.shapes, n) {
                Some(PlanError::WrongArity { option: segment.name, got: n as usize })
            } else if at < n {
                Some(
                    PlanError::Param(
                        ParamError {
                            at: at as usize,
                            expected: shape[at],
                            got: segment.params[at],
                        },
                    ),
                )
            } else {
                None
            }
        },
    }
}

/// What is wrong with the first segment, from `from` on, with which anything is.
pub open spec fn segments_fault(
    options: Seq<OptModel>,
    action: Seq<char>,
    segments: Seq<SegmentModel>,
    from: int,
) -> Option<PlanError<Seq<char>>>
    decreases segments.len() - from,
{
    if from >= segments.len() {
        None
    } else if segment_fault(options, action, segments[from]) is Some {
        segment_fault(options, action, segments[from])
    } else {
        segments_fault(options, action, segments, from + 1)
    }
}

fn check_segment(def: &ActionDef, action: &str, segment: &Segment) -> (r: Option<PlanError>)
    ensures
        match (r, segment_fault(def.action.spec_options(), action@, segment@)) {
            (Some(e), Some(want)) => e.model() == want,
            (None, None) => true,
            _ => false,
        },
{
    let option = match def.option(segment.name.as_str()) {
        Some(option) => option,
        None => {
            return Some(
                PlanError::UnknownOption {
                    option: segment.name.clone(),
                    action: action.to_owned(),
                },
            );
        },
    };
    let n = segment.params.len();
    let shape = match option.shape_for(n) {
        Some(shape) => shape,
        None => {
            return Some(PlanError::WrongArity { option: segment.name.clone(), got: n });
        },
    };
    let ghost params = views(segment.params@);
    let mut i: usize = 0;
    while i < n
        invariant
            i <= n == segment.params@.len() == shape@.len(),
            params == views(segment.params@),
            segment@.params == params,
            option_of(def.action.spec_options(), segment@.name) == Some(option@),
            takes(option@.shapes, n as nat),
            shape@ == option@.shapes[shape_at(option@.shapes, n as nat, 0)],
            misfit_at(shape@, params, 0) == misfit_at(shape@, params, i as int),
        decreases n - i,
    {
        assert(params[i as int] == segment.params@[i as int]@);
        if !shape[i].accepts(segment.params[i].as_str()) {
            return Some(
                PlanError::Param(
                    ParamError { at: i, expected: shape[i], got: segment.params[i].clone() },
                ),
            );
        }
        i += 1;
    }
    None
}

fn check_segments(def: &ActionDef, action: &Action) -> (r: Option<PlanError>)
    ensures
        match (
            r,
            segments_fault(def.action.spec_options(), action@.name, action@.segments, 0),
        ) {
            (Some(e), Some(want)) => e.model() == want,
            (None, None) => true,
            _ => false,
        },
{
    let ghost options = def.action.spec_options();
    let ghost segments = views(action.segments@);
    let mut i: usize = 0;
    while i < action.segments.len()
        invariant
            i <= action.segments@.len(),
            options == def.action.spec_options(),
            segments == views(action.segments@),
            segments_fault(options, action@.name, segments, 0) == segments_fault(
                options,
                action@.name,
                segments,
                i as int,
            ),
        decreases action.segments@.len() - i,
    {
        assert(segments[i as int] == action.segments@[i as int]@);
        let fault = check_segment(def, action.name.as_str(), &action.segments[i]);
        if fault.is_some() {
            return fault;
        }
        i += 1;
    }
    None
}

/// The pipeline after the actions of a request. Their steps and side tables go under the name of
/// each action where `named` says so, else under no name of their own.
pub open spec fn acted(
    actions: Seq<ActionDef>,
    p: PipelineModel,
    asked: Seq<ActionModel>,
    named: bool,
) -> Result<PipelineModel, PlanError<Seq<char>>>
    decreases asked.len(),
{
    if asked.len() == 0 {
        Ok(p)
    } else {
        let next = asked[0];
        let at = action_at(actions, next.name, 0);
        if at >= actions.len() {
            Err(PlanError::UnknownAction(next.name))
        } else {
            let action = actions[at].action;
            let step = if named {
                action.spec_name()
            } else {
                "step"@
            };
            let table = if named {
                action.spec_name()
            } else {
                "x"@
            };
            let fault = segments_fault(action.spec_options(), next.name, next.segments, 0);
            if fault is Some {
                Err(fault->0)
            } else {
                match action.ran(p, step, table, next.segments) {
                    Err(e) => Err(e),
                    Ok(done) => acted(actions, done, asked.skip(1), named),
                }
            }
        }
    }
}

impl Pipeline {
    /// Puts the steps of a request's actions on the pipeline.
    fn act(&mut self, grammar: &Grammar, asked: &Vec<Action>, named: bool) -> (r: Result<
        (),
        PlanError,
    >)
        requires
            old(self).wf(),
        ensures
            match (r, acted(grammar.actions@, old(self).model(), views(asked@), named)) {
                (Ok(_), Ok(done)) => final(self).wf() && final(self).model() == done,
                (Err(e), Err(want)) => e.model() == want,
                _ => false,
            },
    {
        let ghost all = views(asked@);
        let ghost start = self.model();
        let mut i: usize = 0;
        assert(all.skip(0) =~= all);
        while i < asked.len()
            invariant
                i <= asked@.len(),
                all == views(asked@),
                start == old(self).model(),
                self.wf(),
                acted(grammar.actions@, start, all, named) == acted(
                    grammar.actions@,
                    self.model(),
                    all.skip(i as int),
                    named,
                ),
            decreases asked@.len() - i,
        {
            let action = &asked[i];
            assert(all.skip(i as int)[0] == action@);
            assert(all.skip(i as int).skip(1) =~= all.skip(i as int + 1));
            let def = match grammar.action_for(action.name.as_str()) {
                Some(def) => def,
                None => {
                    return Err(PlanError::UnknownAction(action.name.clone()));
                },
            };
            match check_segments(def, action) {
                Some(e) => {
                    return Err(e);
                },
                None => {},
            }
            let ran = {
                let mut ctx = if named {
                    StageCtx::new(self, def.canonical())
                } else {
                    StageCtx::unnamed(self)
                };
                def.action.run(&mut ctx, action.segments.as_slice())
            };
            match ran {
                Ok(_) => {},
                Err(e) => {
                    return Err(e);
                },
            }
            i += 1;
        }
        Ok(())
    }
}

/// The SQL of a request: its source, filtered, brought into the reference system of GeoJSON, and
/// then a feature for each row, or, where the request has actions, the rows that they leave. The
/// extension must be one that every grammar has.
pub open spec fn planned(
    grammar: Grammar,
    parsed: ParsedModel,
    source: Seq<char>,
    columns: Seq<(Seq<char>, Seq<char>)>,
    crs: Option<Seq<char>>,
    backend: Backend,
) -> Result<Seq<char>, PlanError<Seq<char>>> {
    match geometry_column(columns) {
        None => Err(PlanError::NoGeometry),
        Some(geometry) => {
            let start = PipelineModel::reading(
                source,
                parsed.encoding,
                geometry,
                "EPSG:4326"@,
                backend,
            );
            match conditions(grammar.filters@, start, columns, parsed.filters, None) {
                Err(e) => Err(e),
                Ok((p, condition)) => match parsed.format {
                    None => Err(PlanError::UnknownOutput(parsed.extension)),
                    Some(format) => {
                        let ready = p.narrowed(condition).reprojected(crs, format);
                        if parsed.actions.len() == 0 {
                            let done = ready.encoded();
                            Ok(done.text(features(done.input, done.geometry)))
                        } else {
                            match acted(grammar.actions@, ready, parsed.actions, false) {
                                Err(e) => Err(e),
                                Ok(done) => Ok(done.text(everything(done.input))),
                            }
                        }
                    },
                },
            }
        },
    }
}

/// The SQL of a request: its source, filtered, brought into the reference system of GeoJSON, and
/// then a feature for each row, or, where the request has actions, the rows that they leave. The
/// extension must be one that every grammar has.
pub fn plan(
    grammar: &Grammar,
    parsed: &ParsedUrl,
    source: &str,
    columns: &[(String, String)],
    crs: Option<&str>,
) -> (r: Result<String, PlanError>)
    requires
        geometry_column(fields(columns@)) matches Some(geometry) ==> forall|backend: Backend|
            #[trigger] is_duckdb(backend) ==> writable(
                grammar.filters@,
                PipelineModel::reading(
                    source@,
                    parsed@.encoding,
                    geometry,
                    "EPSG:4326"@,
                    backend,
                ),
                fields(columns@),
                parsed@.filters,
            ),
    ensures
        geometry_column(fields(columns@)) is None ==> r == Err::<String, PlanError>(
            PlanError::NoGeometry,
        ),
        geometry_column(fields(columns@)) is Some ==> exists|backend: Backend| #[trigger]
            is_duckdb(backend) && agrees(
                r,
                planned(*grammar, parsed@, source@, fields(columns@), known(crs), backend),
            ),
{
    let mut pipeline = match Pipeline::source(source, parsed.encoding.as_str(), columns) {
        Ok(pipeline) => pipeline,
        Err(e) => {
            return Err(e);
        },
    };
    let ghost backend = pipeline.model().backend;
    assert(is_duckdb(backend));
    match pipeline.filter_by(grammar, parsed.filters.as_slice(), columns) {
        Ok(_) => {},
        Err(e) => {
            return Err(e);
        },
    }
    let format = match parsed.format {
        Some(format) => format,
        None => {
            return Err(PlanError::UnknownOutput(parsed.extension.to_owned()));
        },
    };
    pipeline.reproject(crs, format);
    if parsed.actions.len() == 0 {
        return Ok(pipeline.finish(format));
    }
    match pipeline.act(grammar, &parsed.actions, false) {
        Ok(_) => {},
        Err(e) => {
            return Err(e);
        },
    }
    Ok(pipeline.finish_raw())
}

/// A request without actions, each of whose filters means the core one, is the feature pipeline:
/// what is built of its source, its filters and its format, on any database.
pub proof fn without_actions_features_are_built(
    grammar: Grammar,
    parsed: ParsedModel,
    format: Format,
    source: Seq<char>,
    columns: Seq<(Seq<char>, Seq<char>)>,
    crs: Option<Seq<char>>,
    on: Backend,
    backend: Backend,
)
    requires
        parsed.format == Some(format),
        forall|i: int|
            0 <= i < parsed.filters.len() ==> means_the_core(
                grammar.filters@,
                (#[trigger] parsed.filters[i]).name,
            ),
        parsed.actions.len() == 0,
    ensures
        planned(grammar, parsed, source, columns, crs, on) == built(
            source,
            parsed.encoding,
            parsed.filters,
            format,
            columns,
            crs,
            backend,
        ),
{
    match geometry_column(columns) {
        None => {},
        Some(geometry) => {
            let start = PipelineModel::reading(
                source,
                parsed.encoding,
                geometry,
                "EPSG:4326"@,
                on,
            );
            named_filters_are_core(grammar.filters@, start, columns, parsed.filters, None);
            built_on_any_backend(
                source,
                parsed.encoding,
                parsed.filters,
                format,
                columns,
                crs,
                on,
                backend,
            );
        },
    }
}

/// Nothing is done to a source whose reference system is not known or is that of GeoJSON already,
/// under any of its names; any other takes one step, which leaves the geometry column where it is.
pub proof fn reprojected_only_from_elsewhere(
    p: PipelineModel,
    crs: Option<Seq<char>>,
    format: Format,
)
    ensures
        match crs {
            Some(from) if !is_wgs84(from) => {
                let after = p.reprojected(crs, format);
                &&& after.steps == p.steps + 1
                &&& after.ctes.len() == p.ctes.len() + 1
                &&& after.geometry == p.geometry
            },
            _ => p.reprojected(crs, format) == p,
        },
{
}

/// The SQL of a request on a database: its source in the reference system that it is in, filtered,
/// what its actions leave of it, and then the rows of the output that its extension asks for, in
/// the reference system that the output needs.
pub open spec fn planned_on(
    grammar: Grammar,
    parsed: ParsedModel,
    source: Seq<char>,
    columns: Seq<(Seq<char>, Seq<char>)>,
    crs: Option<Seq<char>>,
    backend: Backend,
) -> Result<Seq<char>, PlanError<Seq<char>>> {
    match geometry_column(columns) {
        None => Err(PlanError::NoGeometry),
        Some(geometry) => {
            let start = PipelineModel::reading(
                source,
                parsed.encoding,
                geometry,
                match crs {
                    Some(name) => name,
                    None => "EPSG:4326"@,
                },
                backend,
            );
            match conditions(grammar.filters@, start, columns, parsed.filters, None) {
                Err(e) => Err(e),
                Ok((p, condition)) => match acted(
                    grammar.actions@,
                    p.narrowed(condition),
                    parsed.actions,
                    true,
                ) {
                    Err(e) => Err(e),
                    Ok(done) => match output_at(
                        grammar.outputs@,
                        lowered(parsed.extension),
                        Some(parsed),
                        grammar.outputs@.len() as int,
                    ) {
                        None => Err(PlanError::UnknownOutput(parsed.extension)),
                        Some(at) => {
                            let output = grammar.outputs@[at].output;
                            let ready = if output.spec_framing().requires_wgs84 && !is_wgs84(
                                done.crs,
                            ) {
                                done.lonlat("output"@)
                            } else {
                                done
                            };
                            match output.selects(ready, "output"@, parsed) {
                                Err(e) => Err(e),
                                Ok((last, select)) => Ok(last.text(select)),
                            }
                        },
                    },
                },
            }
        },
    }
}

impl PipelineModel {
    /// With the geometry in the reference system of GeoJSON.
    pub open spec fn lonlat(self, action: Seq<char>) -> PipelineModel {
        PipelineModel { crs: "EPSG:4326"@, ..self.replaced(action, self.moved("EPSG:4326"@)) }
    }
}

/// What the filters of a request make of its source on a database can be written out.
pub open spec fn plannable_on(
    grammar: Grammar,
    parsed: ParsedModel,
    source: Seq<char>,
    columns: Seq<(Seq<char>, Seq<char>)>,
    crs: Option<Seq<char>>,
    backend: Backend,
) -> bool {
    geometry_column(columns) matches Some(geometry) ==> writable(
        grammar.filters@,
        PipelineModel::reading(
            source,
            parsed.encoding,
            geometry,
            match crs {
                Some(name) => name,
                None => "EPSG:4326"@,
            },
            backend,
        ),
        columns,
        parsed.filters,
    )
}

/// Whether what the filters of a request make of its source on a database can be written out.
pub fn is_plannable_on(
    grammar: &Grammar,
    parsed: &ParsedUrl,
    source: &str,
    columns: &[(String, String)],
    crs: Option<&str>,
    backend: Arc<Backend>,
) -> (r: bool)
    requires
        backend.wf(),
    ensures
        r == plannable_on(*grammar, parsed@, source@, fields(columns@), known(crs), *backend),
{
    if columns_are_sound(columns) {
        return true;
    }
    let mut pipeline = match Pipeline::source(source, parsed.encoding.as_str(), columns) {
        Ok(pipeline) => pipeline.with_crs(crs).with_backend(backend),
        Err(_) => {
            return true;
        },
    };
    let made = {
        let mut ctx = FilterCtx::new(&mut pipeline, columns);
        condition(grammar, &mut ctx, parsed.filters.as_slice())
    };
    match made {
        Ok(Some(e)) => e.is_sound(),
        _ => true,
    }
}

/// The SQL of a request on a database: its source in the reference system that it is in, filtered,
/// what its actions leave of it, and then the rows of the output that its extension asks for, in
/// the reference system that the output needs.
pub fn plan_on(
    grammar: &Grammar,
    parsed: &ParsedUrl,
    source: &str,
    columns: &[(String, String)],
    crs: Option<&str>,
    backend: Arc<Backend>,
) -> (r: Result<String, PlanError>)
    requires
        plannable_on(*grammar, parsed@, source@, fields(columns@), known(crs), *backend),
        backend.wf(),
    ensures
        agrees(
            r,
            planned_on(*grammar, parsed@, source@, fields(columns@), known(crs), *backend),
        ),
{
    let mut pipeline = match Pipeline::source(source, parsed.encoding.as_str(), columns) {
        Ok(pipeline) => pipeline.with_crs(crs).with_backend(backend),
        Err(e) => {
            return Err(e);
        },
    };
    match pipeline.filter_by(grammar, parsed.filters.as_slice(), columns) {
        Ok(_) => {},
        Err(e) => {
            return Err(e);
        },
    }
    match pipeline.act(grammar, &parsed.actions, true) {
        Ok(_) => {},
        Err(e) => {
            return Err(e);
        },
    }
    let def = match claim(parsed.extension, parsed, grammar) {
        Some(def) => def,
        None => {
            return Err(PlanError::UnknownOutput(parsed.extension.to_owned()));
        },
    };
    if def.output.requires_wgs84() && !wgs84(pipeline.crs()) {
        let geometry = pipeline.transform(WGS84);
        pipeline.replace_geometry("output", geometry);
        pipeline.set_crs(WGS84);
    }
    let made = {
        let mut ctx = StageCtx::new(&mut pipeline, "output");
        def.output.rows(&mut ctx, parsed)
    };
    match made {
        Ok(select) => Ok(pipeline.finish_with(select)),
        Err(e) => Err(e),
    }
}

// What a pipeline is for.

/// The same table, column, reference system and database.
pub open spec fn same_but_for_tables(a: PipelineModel, b: PipelineModel) -> bool {
    a.geometry == b.geometry && a.crs == b.crs && a.backend == b.backend
}

/// A step declares what it selects after all that is declared, which stays as it is, and is read
/// next. It is named after its action and its number among the steps, and if that is taken with a
/// number more.
pub proof fn steps_are_declared_in_turn(p: PipelineModel, action: Seq<char>, select: SelectModel)
    requires
        p.wf(),
    ensures
        ({
            let after = p.stepped(action, select);
            let n = p.ctes.len() as int;
            let own = action + seq!['_'] + decimal(p.steps + 1);
            &&& after.ctes.len() == n + 1
            &&& forall|i: int| 0 <= i < n ==> #[trigger] after.ctes[i] == p.ctes[i]
            &&& after.ctes[n].query == select
            &&& after.ctes[n].name == after.input
            &&& forall|i: int| 0 <= i < n ==> (#[trigger] p.ctes[i]).name != after.input
            &&& (forall|i: int| 0 <= i < n ==> (#[trigger] p.ctes[i]).name != own) ==> after.input
                == own
            &&& after.steps == p.steps + 1
            &&& after.side == p.side
            &&& same_but_for_tables(after, p)
        }),
{
    reveal_strlit("_");
    assert("_"@ =~= seq!['_']);
    let names = cte_names(p.ctes);
    let own = action + seq!['_'] + decimal(p.steps + 1);
    let after = p.stepped(action, select);
    fresh_texts_are_numbered(names, own, 1);
    assert forall|i: int| 0 <= i < p.ctes.len() implies (#[trigger] p.ctes[i]).name
        != after.input by {
        assert(names[i] == p.ctes[i].name);
    }
    if forall|i: int| 0 <= i < p.ctes.len() ==> (#[trigger] p.ctes[i]).name != own {
        if names.contains(own) {
            let i = choose|i: int| 0 <= i < names.len() && names[i] == own;
            assert(p.ctes[i].name != own);
        }
    }
}

/// A side table is declared after all that is declared, which stays as it is, under a new name by
/// which it is found from then on; what is read next is what was.
pub proof fn side_tables_stand_beside(
    p: PipelineModel,
    action: Seq<char>,
    name: Seq<char>,
    select: SelectModel,
)
    requires
        p.wf(),
        p.table(action, name) is None,
    ensures
        ({
            let after = p.tabled(action, name, select);
            let n = p.ctes.len() as int;
            let own = action + seq!['_'] + name;
            &&& after.ctes.len() == n + 1
            &&& forall|i: int| 0 <= i < n ==> #[trigger] after.ctes[i] == p.ctes[i]
            &&& after.ctes[n].query == select
            &&& after.table(action, name) == Some(after.ctes[n].name)
            &&& forall|i: int| 0 <= i < n ==> (#[trigger] p.ctes[i]).name != after.ctes[n].name
            &&& (forall|i: int| 0 <= i < n ==> (#[trigger] p.ctes[i]).name != own)
                ==> after.ctes[n].name == own
            &&& after.input == p.input
            &&& after.steps == p.steps
            &&& same_but_for_tables(after, p)
        }),
{
    reveal_strlit("_");
    assert("_"@ =~= seq!['_']);
    let names = cte_names(p.ctes);
    let own = action + seq!['_'] + name;
    let after = p.tabled(action, name, select);
    let alias = p.next_table(action, name);
    fresh_texts_are_numbered(names, own, 1);
    side_at_bounds(p.side, action, name, p.input, 0);
    side_at_push(
        p.side,
        SideModel { action, name, over: p.input, alias },
        action,
        name,
        p.input,
        0,
    );
    assert forall|i: int| 0 <= i < p.ctes.len() implies (#[trigger] p.ctes[i]).name != alias by {
        assert(names[i] == p.ctes[i].name);
    }
    if forall|i: int| 0 <= i < p.ctes.len() ==> (#[trigger] p.ctes[i]).name != own {
        if names.contains(own) {
            let i = choose|i: int| 0 <= i < names.len() && names[i] == own;
            assert(p.ctes[i].name != own);
        }
    }
}

/// A pipeline begins with the whole source, under a name of its own and as the relation to read.
pub proof fn pipelines_begin_with_their_source(
    source: Seq<char>,
    encoding: Seq<char>,
    geometry: Seq<char>,
    crs: Seq<char>,
    backend: Backend,
)
    ensures
        ({
            let p = PipelineModel::reading(source, encoding, geometry, crs, backend);
            &&& p.ctes.len() == 1
            &&& p.ctes[0].name == "source"@
            &&& p.ctes[0].query == whole_source(source, encoding)
            &&& p.input == "source"@
            &&& p.steps == 0
            &&& p.side.len() == 0
            &&& p.geometry == geometry
            &&& p.crs == crs
            &&& p.backend == backend
        }),
{
}

} // verus!
