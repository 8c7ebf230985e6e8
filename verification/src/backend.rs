//! What a database must be able to say: a dialect for the few things that every request needs,
//! and a vocabulary of named operations on top of it.

use vstd::prelude::*;

use crate::ast::{call1, each_sound, says, slots_sound, template1, Sql, SqlExpr};
use crate::text::{
    in_order, joined, ordered, ordered_chains, ordered_either_way, quote, quoted, same, sorted,
    to_uppercase, uppercased, views,
};

verus! {

/// An operation: from arguments to the expression that applies it.
pub trait SqlFn: Send + Sync {
    /// How many arguments the operation needs at least.
    open spec fn arity(&self) -> nat {
        arbitrary()
    }

    /// The expression that applies the operation to `args`.
    open spec fn applied(&self, args: Seq<Sql>) -> Sql {
        arbitrary()
    }

    /// Applies the operation.
    fn build(&self, args: Vec<SqlExpr>) -> (r: SqlExpr)
        requires
            args@.len() >= self.arity(),
        ensures
            r.model() == self.applied(says(args@)),
            each_sound(says(args@)) ==> r.model().sound(),
    ;
}

/// An operation under its name.
pub struct SqlOp {
    pub name: &'static str,
    pub op: Box<dyn SqlFn>,
}

/// The operations that a backend has, each name once.
pub struct Vocabulary {
    pub ops: Vec<SqlOp>,
}

/// A name for which the backend has no operation.
#[derive(Debug, PartialEq, Eq)]
pub struct UnknownOp<S = String>(pub S);

impl UnknownOp {
    pub open spec fn model(self) -> UnknownOp<Seq<char>> {
        UnknownOp(self.0@)
    }

    /// What went wrong, in words.
    pub fn message(&self) -> (r: String)
        ensures
            r@ == "this backend has no operation named "@ + quoted(self.0@),
    {
        joined("this backend has no operation named ", quote(self.0.as_str()).as_str())
    }
}

/// The names of some operations.
pub open spec fn op_names(ops: Seq<SqlOp>) -> Seq<Seq<char>> {
    Seq::new(ops.len(), |i: int| ops[i].name@)
}

/// Where the operation `name` stands, `ops.len()` where it does not.
pub open spec fn op_at(ops: Seq<SqlOp>, name: Seq<char>, from: int) -> int
    decreases ops.len() - from,
{
    if from >= ops.len() {
        ops.len() as int
    } else if ops[from].name@ == name {
        from
    } else {
        op_at(ops, name, from + 1)
    }
}

proof fn op_at_bounds(ops: Seq<SqlOp>, name: Seq<char>, from: int)
    requires
        0 <= from <= ops.len(),
    ensures
        from <= op_at(ops, name, from) <= ops.len(),
        op_at(ops, name, from) < ops.len() ==> ops[op_at(ops, name, from)].name@ == name,
        forall|i: int|
            from <= i < op_at(ops, name, from) ==> (#[trigger] ops[i]).name@ != name,
    decreases ops.len() - from,
{
    if from < ops.len() && ops[from].name@ != name {
        op_at_bounds(ops, name, from + 1);
    }
}

proof fn op_found(ops: Seq<SqlOp>, name: Seq<char>, at: int)
    requires
        0 <= at < ops.len(),
        ops[at].name@ == name,
        op_names(ops).no_duplicates(),
    ensures
        op_at(ops, name, 0) == at,
{
    op_at_bounds(ops, name, 0);
    let found = op_at(ops, name, 0);
    if found < at {
        assert(op_names(ops)[found] == op_names(ops)[at]);
    }
}

/// A name stands for the same operation in two vocabularies, or for none in both.
pub open spec fn stands_for_the_same(a: Vocabulary, b: Vocabulary, name: Seq<char>) -> bool {
    a.knows(name) == b.knows(name) && (a.knows(name) ==> a.op(name) == b.op(name))
}

/// An operation that is put into a vocabulary is found under its name, and every other name stands
/// for what it stood for.
proof fn others_are_kept(before: Vocabulary, after: Vocabulary, op: SqlOp)
    requires
        before.wf(),
        after.wf(),
        after.ops@ == if before.knows(op.name@) {
            before.ops@.update(op_at(before.ops@, op.name@, 0), op)
        } else {
            before.ops@.push(op)
        },
    ensures
        after.knows(op.name@),
        after.op(op.name@) == op,
        forall|name: Seq<char>|
            name != op.name@ ==> #[trigger] stands_for_the_same(before, after, name),
{
    let at = op_at(before.ops@, op.name@, 0);
    op_at_bounds(before.ops@, op.name@, 0);
    assert(after.ops@[at] == op);
    op_found(after.ops@, op.name@, at);
    assert forall|name: Seq<char>| name != op.name@ implies #[trigger] stands_for_the_same(
        before,
        after,
        name,
    ) by {
        op_at_bounds(before.ops@, name, 0);
        op_at_bounds(after.ops@, name, 0);
        let old_at = op_at(before.ops@, name, 0);
        let new_at = op_at(after.ops@, name, 0);
        if before.knows(name) {
            assert(after.ops@[old_at] == before.ops@[old_at]);
            op_found(after.ops@, name, old_at);
        } else if after.knows(name) {
            assert(after.ops@[new_at] == before.ops@[new_at]);
        }
    }
}

impl Vocabulary {
    /// No name stands twice.
    pub open spec fn wf(self) -> bool {
        op_names(self.ops@).no_duplicates()
    }

    /// There is an operation `name`.
    pub open spec fn knows(self, name: Seq<char>) -> bool {
        op_at(self.ops@, name, 0) < self.ops@.len()
    }

    /// The operation `name`.
    pub open spec fn op(self, name: Seq<char>) -> SqlOp {
        self.ops@[op_at(self.ops@, name, 0)]
    }

    fn find(&self, name: &str) -> (r: usize)
        ensures
            r as int == op_at(self.ops@, name@, 0),
            r <= self.ops@.len(),
    {
        let mut i: usize = 0;
        while i < self.ops.len()
            invariant
                i <= self.ops@.len(),
                op_at(self.ops@, name@, 0) == op_at(self.ops@, name@, i as int),
            decreases self.ops@.len() - i,
        {
            if same(self.ops[i].name, name) {
                return i;
            }
            i += 1;
        }
        i
    }

    /// Adds an operation, whose name must be new.
    pub fn register(&mut self, op: SqlOp) -> (r: &mut Self)
        requires
            old(self).wf(),
            !old(self).knows(op.name@),
        ensures
            *final(self) == *final(r),
            r.wf(),
            r.ops@ == old(self).ops@.push(op),
            r.knows(op.name@),
            r.op(op.name@) == op,
            forall|name: Seq<char>|
                name != op.name@ ==> #[trigger] stands_for_the_same(
                    *old(self),
                    *r,
                    name,
                ),
    {
        proof {
            op_at_bounds(self.ops@, op.name@, 0);
        }
        self.ops.push(op);
        proof {
            let before = op_names(old(self).ops@);
            let after = op_names(self.ops@);
            assert forall|i: int, j: int| 0 <= i < j < after.len() implies after[i] != after[j] by {
                assert(after[i] == before[i]);
                assert(old(self).ops@[i].name@ != op.name@);
                if j < before.len() {
                    assert(after[j] == before[j]);
                }
            }
            others_are_kept(*old(self), *self, op);
        }
        self
    }

    /// Puts an operation in the place of the one of its name, or adds it.
    pub fn replace(&mut self, op: SqlOp) -> (r: &mut Self)
        requires
            old(self).wf(),
        ensures
            *final(self) == *final(r),
            r.wf(),
            r.ops@ == if old(self).knows(op.name@) {
                old(self).ops@.update(op_at(old(self).ops@, op.name@, 0), op)
            } else {
                old(self).ops@.push(op)
            },
            r.knows(op.name@),
            r.op(op.name@) == op,
            forall|name: Seq<char>|
                name != op.name@ ==> #[trigger] stands_for_the_same(
                    *old(self),
                    *r,
                    name,
                ),
    {
        let ghost given = op;
        let at = self.find(op.name);
        if at < self.ops.len() {
            let ghost name = op.name@;
            proof {
                op_at_bounds(self.ops@, name, 0);
            }
            self.ops.set(at, op);
            proof {
                assert(op_names(self.ops@) =~= op_names(old(self).ops@));
                others_are_kept(*old(self), *self, given);
            }
        } else {
            self.register(op);
        }
        self
    }

    /// Whether there is an operation `name`.
    pub fn has(&self, name: &str) -> (r: bool)
        ensures
            r == self.knows(name@),
    {
        self.find(name) < self.ops.len()
    }

    /// The operation `name` applied to arguments.
    pub fn call(&self, name: &str, args: Vec<SqlExpr>) -> (r: Result<SqlExpr, UnknownOp>)
        requires
            self.knows(name@) ==> args@.len() >= self.op(name@).op.arity(),
        ensures
            r is Ok <==> self.knows(name@),
            match r {
                Ok(e) => e.model() == self.op(name@).op.applied(says(args@)) && (each_sound(
                    says(args@),
                ) ==> e.model().sound()),
                Err(e) => e.0@ == name@,
            },
    {
        let at = self.find(name);
        if at < self.ops.len() {
            Ok(self.ops[at].op.build(args))
        } else {
            Err(UnknownOp(name.to_owned()))
        }
    }

    /// The names of the operations, in order.
    pub fn names(&self) -> (r: Vec<&'static str>)
        ensures
            sorted(views(r@)),
            views(r@).to_multiset() == op_names(self.ops@).to_multiset(),
    {
        let mut out: Vec<&'static str> = Vec::new();
        let ghost all = op_names(self.ops@);
        let mut i: usize = 0;
        assert(views(out@) =~= all.take(0));
        while i < self.ops.len()
            invariant
                i <= self.ops@.len(),
                all == op_names(self.ops@),
                sorted(views(out@)),
                views(out@).to_multiset() == all.take(i as int).to_multiset(),
            decreases self.ops@.len() - i,
        {
            let name = self.ops[i].name;
            let mut at: usize = out.len();
            while at > 0 && !in_order(out[at - 1], name)
                invariant
                    at <= out@.len(),
                    sorted(views(out@)),
                    forall|k: int| at <= k < out@.len() ==> ordered(name@, #[trigger] views(out@)[k]),
                decreases at,
            {
                proof {
                    ordered_either_way(out@[at as int - 1]@, name@);
                    assert(views(out@)[at as int - 1] == out@[at as int - 1]@);
                }
                at -= 1;
            }
            let ghost before = views(out@);
            out.insert(at, name);
            proof {
                let after = views(out@);
                assert(after =~= before.insert(at as int, name@));
                assert forall|j: int, k: int| 0 <= j <= k < after.len() implies ordered(
                    #[trigger] after[j],
                    #[trigger] after[k],
                ) by {
                    if at > 0 {
                        assert(ordered(before[at as int - 1], name@));
                    }
                    if j < at && k == at {
                        ordered_chains(before[j], before[at as int - 1], name@);
                    } else if j == at && k > at {
                        assert(ordered(name@, before[k - 1]));
                    } else if j == at && k == at {
                        ordered_either_way(name@, name@);
                    } else if j < at && k > at {
                        assert(ordered(before[j], before[k - 1]));
                    } else if j > at {
                        assert(ordered(before[j - 1], before[k - 1]));
                    } else {
                        assert(ordered(before[j], before[k]));
                    }
                }
                before.to_multiset_ensures();
                all.take(i as int).to_multiset_ensures();
                vstd::seq_lib::to_multiset_insert(before, at as int, name@);
                assert(all.take(i as int + 1) =~= all.take(i as int).push(all[i as int]));
                assert(all[i as int] == name@);
            }
            i += 1;
        }
        assert(all.take(i as int) =~= all);
        out
    }
}

impl Default for Vocabulary {
    /// No operation at all.
    fn default() -> (r: Vocabulary)
        ensures
            r.ops@.len() == 0,
            r.wf(),
    {
        Vocabulary { ops: Vec::new() }
    }
}

/// How a database spells what every request needs.
pub trait Dialect: Send + Sync {
    /// A geometry moved from one reference system to another.
    open spec fn transformed(&self, geometry: Sql, from: Seq<char>, to: Seq<char>) -> Sql {
        arbitrary()
    }

    /// A geometry as GeoJSON.
    open spec fn encoded(&self, geometry: Sql) -> Sql {
        arbitrary()
    }

    /// `v` is the vocabulary that the database comes with.
    open spec fn speaks(&self, v: Vocabulary) -> bool {
        arbitrary()
    }

    /// A geometry moved from one reference system to another.
    fn transform(&self, geometry: SqlExpr, from: &str, to: &str) -> (r: SqlExpr)
        ensures
            r.model() == self.transformed(geometry.model(), from@, to@),
            geometry.model().sound() ==> r.model().sound(),
    ;

    /// A geometry as GeoJSON.
    fn as_geojson(&self, geometry: SqlExpr) -> (r: SqlExpr)
        ensures
            r.model() == self.encoded(geometry.model()),
            geometry.model().sound() ==> r.model().sound(),
    ;

    /// The operations that the database comes with.
    fn vocabulary(&self) -> (r: Vocabulary)
        ensures
            self.speaks(r),
            r.wf(),
    ;
}

/// An operation of DuckDB with its spatial extension.
pub enum DuckDbOp {
    /// A function of one argument.
    One(&'static str),
    /// The area of all geometries together, in square metres.
    AreaMeters,
    /// The coordinates of a geometry, as GeoJSON writes them.
    GeojsonCoordinates,
    /// A JSON array.
    Array,
    /// A JSON object.
    Object,
    /// A value as text.
    AsText,
}

proof fn coordinates_sound()
    ensures
        slots_sound("json_extract(CAST($1 AS JSON), '$.coordinates')"@, 1),
{
    reveal_strlit("json_extract(CAST($1 AS JSON), '$.coordinates')");
    reveal_with_fuel(crate::ast::in_quotes, 40);
}

impl SqlFn for DuckDbOp {
    open spec fn arity(&self) -> nat {
        match self {
            DuckDbOp::Array | DuckDbOp::Object => 0,
            _ => 1,
        }
    }

    open spec fn applied(&self, args: Seq<Sql>) -> Sql {
        match self {
            DuckDbOp::One(function) => Sql::Call(function@, seq![args[0]]),
            DuckDbOp::AreaMeters => Sql::Call(
                "SUM"@,
                seq![Sql::Call("ST_Area_Spheroid"@, seq![args[0]])],
            ),
            DuckDbOp::GeojsonCoordinates => Sql::Template(
                "json_extract(CAST($1 AS JSON), '$.coordinates')"@,
                seq![Sql::Call("ST_AsGeoJSON"@, seq![args[0]])],
            ),
            DuckDbOp::Array => Sql::Call("json_array"@, args),
            DuckDbOp::Object => Sql::Call("json_object"@, args),
            DuckDbOp::AsText => Sql::Cast(Box::new(args[0]), "VARCHAR"@),
        }
    }

    fn build(&self, args: Vec<SqlExpr>) -> SqlExpr {
        let mut args = args;
        let ghost all = says(args@);
        match self {
            DuckDbOp::Array => SqlExpr::Call("json_array".to_owned(), args),
            DuckDbOp::Object => SqlExpr::Call("json_object".to_owned(), args),
            _ => {
                let first = args.remove(0);
                assert(first.model() == all[0]);
                match self {
                    DuckDbOp::One(function) => call1(function, first),
                    DuckDbOp::AreaMeters => call1("SUM", call1("ST_Area_Spheroid", first)),
                    DuckDbOp::GeojsonCoordinates => {
                        proof {
                            coordinates_sound();
                        }
                        template1(
                            "json_extract(CAST($1 AS JSON), '$.coordinates')",
                            call1("ST_AsGeoJSON", first),
                        )
                    },
                    _ => SqlExpr::Cast(Box::new(first), "VARCHAR".to_owned()),
                }
            },
        }
    }
}

/// DuckDB with its spatial extension.
pub struct DuckDb;

/// The operations that DuckDB comes with, under their names.
pub open spec fn duckdb_ops() -> Seq<(Seq<char>, DuckDbOp)> {
    seq![
        ("extent_agg"@, DuckDbOp::One("ST_Extent_Agg")),
        ("x"@, DuckDbOp::One("ST_X")),
        ("y"@, DuckDbOp::One("ST_Y")),
        ("x_min"@, DuckDbOp::One("ST_XMin")),
        ("y_min"@, DuckDbOp::One("ST_YMin")),
        ("x_max"@, DuckDbOp::One("ST_XMax")),
        ("y_max"@, DuckDbOp::One("ST_YMax")),
        ("area_meters"@, DuckDbOp::AreaMeters),
        ("geojson_coordinates"@, DuckDbOp::GeojsonCoordinates),
        ("array"@, DuckDbOp::Array),
        ("object"@, DuckDbOp::Object),
        ("as_text"@, DuckDbOp::AsText),
    ]
}

/// No two operations of DuckDB have one name.
proof fn duckdb_names_distinct()
    ensures
        forall|i: int, j: int|
            0 <= i < j < duckdb_ops().len() ==> (#[trigger] duckdb_ops()[i]).0 != (
            #[trigger] duckdb_ops()[j]).0,
{
    reveal_strlit("extent_agg");
    reveal_strlit("x");
    reveal_strlit("y");
    reveal_strlit("x_min");
    reveal_strlit("y_min");
    reveal_strlit("x_max");
    reveal_strlit("y_max");
    reveal_strlit("area_meters");
    reveal_strlit("geojson_coordinates");
    reveal_strlit("array");
    reveal_strlit("object");
    reveal_strlit("as_text");
    assert("extent_agg"@.len() == 10);
    assert("x"@.len() == 1);
    assert("y"@.len() == 1);
    assert("x_min"@.len() == 5);
    assert("y_min"@.len() == 5);
    assert("x_max"@.len() == 5);
    assert("y_max"@.len() == 5);
    assert("area_meters"@.len() == 11);
    assert("geojson_coordinates"@.len() == 19);
    assert("array"@.len() == 5);
    assert("object"@.len() == 6);
    assert("as_text"@.len() == 7);
    assert("x"@[0] != "y"@[0]);
    assert("x_min"@[0] != "y_min"@[0]);
    assert("x_min"@[3] != "x_max"@[3]);
    assert("x_min"@[0] != "y_max"@[0]);
    assert("x_min"@[0] != "array"@[0]);
    assert("y_min"@[0] != "x_max"@[0]);
    assert("y_min"@[3] != "y_max"@[3]);
    assert("y_min"@[0] != "array"@[0]);
    assert("x_max"@[0] != "y_max"@[0]);
    assert("x_max"@[0] != "array"@[0]);
    assert("y_max"@[0] != "array"@[0]);
}

/// `v` has the operations `ops`, in their order.
pub open spec fn has_ops(v: Seq<SqlOp>, ops: Seq<(Seq<char>, DuckDbOp)>) -> bool {
    &&& v.len() == ops.len()
    &&& forall|i: int|
        0 <= i < ops.len() ==> (#[trigger] v[i]).name@ == ops[i].0 && v[i].op.arity()
            == ops[i].1.arity()
    &&& forall|i: int, args: Seq<Sql>|
        0 <= i < ops.len() ==> #[trigger] v[i].op.applied(args) == ops[i].1.applied(args)
}

/// An operation of DuckDB under its name.
pub fn duckdb_op(name: &'static str, op: DuckDbOp) -> (r: SqlOp)
    ensures
        r.name == name,
        r.op.arity() == op.arity(),
        forall|args: Seq<Sql>| #[trigger] r.op.applied(args) == op.applied(args),
{
    let r = SqlOp { name, op: Box::new(op) };
    assert(r.op.arity() == op.arity());
    assert forall|args: Seq<Sql>| #[trigger] r.op.applied(args) == op.applied(args) by {}
    r
}

/// One more operation of DuckDB.
fn add_op(v: &mut Vocabulary, name: &'static str, op: DuckDbOp, ops: Ghost<Seq<(Seq<char>, DuckDbOp)>>)
    requires
        old(v).wf(),
        has_ops(old(v).ops@, ops@),
        forall|i: int| 0 <= i < ops@.len() ==> (#[trigger] ops@[i]).0 != name@,
    ensures
        final(v).wf(),
        has_ops(final(v).ops@, ops@.push((name@, op))),
{
    proof {
        op_at_bounds(v.ops@, name@, 0);
    }
    v.register(duckdb_op(name, op));
}

impl Dialect for DuckDb {
    open spec fn transformed(&self, geometry: Sql, from: Seq<char>, to: Seq<char>) -> Sql {
        Sql::Call(
            "ST_Transform"@,
            seq![
                geometry,
                Sql::Text(uppercased(from)),
                Sql::Text(uppercased(to)),
                Sql::Raw("always_xy := true"@),
            ],
        )
    }

    open spec fn encoded(&self, geometry: Sql) -> Sql {
        Sql::Call("ST_AsGeoJSON"@, seq![geometry])
    }

    open spec fn speaks(&self, v: Vocabulary) -> bool {
        has_ops(v.ops@, duckdb_ops())
    }

    fn transform(&self, geometry: SqlExpr, from: &str, to: &str) -> SqlExpr {
        let args = vec![
            geometry,
            SqlExpr::Text(to_uppercase(from)),
            SqlExpr::Text(to_uppercase(to)),
            SqlExpr::Raw("always_xy := true".to_owned()),
        ];
        assert(says(args@) =~= seq![
            geometry.model(),
            Sql::Text(uppercased(from@)),
            Sql::Text(uppercased(to@)),
            Sql::Raw("always_xy := true"@),
        ]);
        assert(Sql::Text(uppercased(from@)).sound());
        assert(Sql::Text(uppercased(to@)).sound());
        assert(Sql::Raw("always_xy := true"@).sound());
        assert(geometry.model().sound() ==> each_sound(says(args@)));
        SqlExpr::Call("ST_Transform".to_owned(), args)
    }

    fn as_geojson(&self, geometry: SqlExpr) -> SqlExpr {
        call1("ST_AsGeoJSON", geometry)
    }

    fn vocabulary(&self) -> Vocabulary {
        let mut v = Vocabulary::default();
        let ghost ops = duckdb_ops();
        proof {
            duckdb_names_distinct();
        }
        add_op(&mut v, "extent_agg", DuckDbOp::One("ST_Extent_Agg"), Ghost(ops.take(0)));
        assert(ops.take(1) =~= ops.take(0).push(ops[0]));
        add_op(&mut v, "x", DuckDbOp::One("ST_X"), Ghost(ops.take(1)));
        assert(ops.take(2) =~= ops.take(1).push(ops[1]));
        add_op(&mut v, "y", DuckDbOp::One("ST_Y"), Ghost(ops.take(2)));
        assert(ops.take(3) =~= ops.take(2).push(ops[2]));
        add_op(&mut v, "x_min", DuckDbOp::One("ST_XMin"), Ghost(ops.take(3)));
        assert(ops.take(4) =~= ops.take(3).push(ops[3]));
        add_op(&mut v, "y_min", DuckDbOp::One("ST_YMin"), Ghost(ops.take(4)));
        assert(ops.take(5) =~= ops.take(4).push(ops[4]));
        add_op(&mut v, "x_max", DuckDbOp::One("ST_XMax"), Ghost(ops.take(5)));
        assert(ops.take(6) =~= ops.take(5).push(ops[5]));
        add_op(&mut v, "y_max", DuckDbOp::One("ST_YMax"), Ghost(ops.take(6)));
        assert(ops.take(7) =~= ops.take(6).push(ops[6]));
        add_op(&mut v, "area_meters", DuckDbOp::AreaMeters, Ghost(ops.take(7)));
        assert(ops.take(8) =~= ops.take(7).push(ops[7]));
        add_op(&mut v, "geojson_coordinates", DuckDbOp::GeojsonCoordinates, Ghost(ops.take(8)));
        assert(ops.take(9) =~= ops.take(8).push(ops[8]));
        add_op(&mut v, "array", DuckDbOp::Array, Ghost(ops.take(9)));
        assert(ops.take(10) =~= ops.take(9).push(ops[9]));
        add_op(&mut v, "object", DuckDbOp::Object, Ghost(ops.take(10)));
        assert(ops.take(11) =~= ops.take(10).push(ops[10]));
        add_op(&mut v, "as_text", DuckDbOp::AsText, Ghost(ops.take(11)));
        assert(ops.take(12) =~= ops.take(11).push(ops[11]));
        assert(ops.take(12) =~= ops);
        v
    }
}

/// A dialect to build a backend on.
pub struct DialectDef {
    pub dialect: Box<dyn Dialect>,
}

/// A database to ask: its dialect and the operations that it has.
pub struct Backend {
    pub dialect: DialectDef,
    pub vocabulary: Vocabulary,
}

impl Backend {
    pub open spec fn wf(self) -> bool {
        self.vocabulary.wf()
    }

    /// A backend with the operations that its dialect comes with.
    pub fn new(dialect: DialectDef) -> (r: Backend)
        ensures
            r.wf(),
            r.dialect == dialect,
            dialect.dialect.speaks(r.vocabulary),
    {
        let vocabulary = dialect.dialect.vocabulary();
        Backend { dialect, vocabulary }
    }

    /// The backend with its vocabulary as `with` leaves it.
    pub fn extend<F: FnOnce(&mut Vocabulary)>(self, with: F) -> (r: Backend)
        requires
            forall|v: &mut Vocabulary| *v == self.vocabulary ==> call_requires(with, (v,)),
        ensures
            r.dialect == self.dialect,
            exists|v: &mut Vocabulary| *v == self.vocabulary && *final(v) == r.vocabulary && #[trigger] call_ensures(with, (v,), ()),
    {
        let mut vocabulary = self.vocabulary;
        with(&mut vocabulary);
        Backend { dialect: self.dialect, vocabulary }
    }

    /// The dialect.
    pub fn dialect(&self) -> (r: &DialectDef)
        ensures
            *r == self.dialect,
    {
        &self.dialect
    }

    /// The operation `name` applied to arguments.
    pub fn call(&self, name: &str, args: Vec<SqlExpr>) -> (r: Result<SqlExpr, UnknownOp>)
        requires
            self.vocabulary.knows(name@) ==> args@.len() >= self.vocabulary.op(name@).op.arity(),
        ensures
            r is Ok <==> self.vocabulary.knows(name@),
            match r {
                Ok(e) => e.model() == self.vocabulary.op(name@).op.applied(says(args@))
                    && (each_sound(says(args@)) ==> e.model().sound()),
                Err(e) => e.0@ == name@,
            },
    {
        self.vocabulary.call(name, args)
    }

    /// Whether there is an operation `name`.
    pub fn has(&self, name: &str) -> (r: bool)
        ensures
            r == self.vocabulary.knows(name@),
    {
        self.vocabulary.has(name)
    }

    /// The names of the operations, in order.
    pub fn operations(&self) -> (r: Vec<&'static str>)
        ensures
            sorted(views(r@)),
            views(r@).to_multiset() == op_names(self.vocabulary.ops@).to_multiset(),
    {
        self.vocabulary.names()
    }
}

impl Default for Backend {
    /// DuckDB.
    fn default() -> (r: Backend)
        ensures
            r.wf(),
            has_ops(r.vocabulary.ops@, duckdb_ops()),
            forall|g: Sql, from: Seq<char>, to: Seq<char>| #[trigger]
                r.dialect.dialect.transformed(g, from, to) == DuckDb.transformed(g, from, to),
            forall|g: Sql| #[trigger] r.dialect.dialect.encoded(g) == DuckDb.encoded(g),
    {
        let dialect = DialectDef { dialect: Box::new(DuckDb) };
        Backend::new(dialect)
    }
}

// What DuckDB can say.

/// The operation `name`, applied to `args`, is `said`.
pub open spec fn says_by_name(v: Vocabulary, name: Seq<char>, args: Seq<Sql>, said: Sql) -> bool {
    v.knows(name) && v.op(name).op.applied(args) == said
}

proof fn named_at(v: Vocabulary, at: int)
    requires
        v.wf(),
        has_ops(v.ops@, duckdb_ops()),
        0 <= at < duckdb_ops().len(),
    ensures
        v.knows(duckdb_ops()[at].0),
        v.op(duckdb_ops()[at].0).op.arity() == duckdb_ops()[at].1.arity(),
        forall|args: Seq<Sql>| #[trigger]
            v.op(duckdb_ops()[at].0).op.applied(args) == duckdb_ops()[at].1.applied(args),
{
    op_found(v.ops@, duckdb_ops()[at].0, at);
}

/// What DuckDB is asked for by name: of a geometry its place, its bounds, its area and its
/// coordinates, each by the function of the spatial extension that tells it.
pub proof fn duckdb_measures_geometries(v: Vocabulary, geometry: Sql)
    requires
        v.wf(),
        DuckDb.speaks(v),
    ensures
        says_by_name(v, "x"@, seq![geometry], Sql::Call("ST_X"@, seq![geometry])),
        says_by_name(v, "y"@, seq![geometry], Sql::Call("ST_Y"@, seq![geometry])),
        says_by_name(v, "x_min"@, seq![geometry], Sql::Call("ST_XMin"@, seq![geometry])),
        says_by_name(v, "y_min"@, seq![geometry], Sql::Call("ST_YMin"@, seq![geometry])),
        says_by_name(v, "x_max"@, seq![geometry], Sql::Call("ST_XMax"@, seq![geometry])),
        says_by_name(v, "y_max"@, seq![geometry], Sql::Call("ST_YMax"@, seq![geometry])),
        says_by_name(
            v,
            "extent_agg"@,
            seq![geometry],
            Sql::Call("ST_Extent_Agg"@, seq![geometry]),
        ),
        says_by_name(
            v,
            "area_meters"@,
            seq![geometry],
            Sql::Call("SUM"@, seq![Sql::Call("ST_Area_Spheroid"@, seq![geometry])]),
        ),
        says_by_name(
            v,
            "geojson_coordinates"@,
            seq![geometry],
            Sql::Template(
                "json_extract(CAST($1 AS JSON), '$.coordinates')"@,
                seq![Sql::Call("ST_AsGeoJSON"@, seq![geometry])],
            ),
        ),
{
    let args = seq![geometry];
    let ops = duckdb_ops();
    assert(args[0] == geometry);
    assert(ops[0].0 == "extent_agg"@ && ops[1].0 == "x"@ && ops[2].0 == "y"@);
    assert(ops[3].0 == "x_min"@ && ops[4].0 == "y_min"@ && ops[5].0 == "x_max"@);
    assert(ops[6].0 == "y_max"@ && ops[7].0 == "area_meters"@);
    assert(ops[8].0 == "geojson_coordinates"@);
    named_at(v, 0);
    named_at(v, 1);
    named_at(v, 2);
    named_at(v, 3);
    named_at(v, 4);
    named_at(v, 5);
    named_at(v, 6);
    named_at(v, 7);
    named_at(v, 8);
}

/// Values become a JSON array or a JSON object of all of them, in their order, and a value becomes
/// text by a cast.
pub proof fn duckdb_puts_values_together(v: Vocabulary, value: Sql, values: Seq<Sql>)
    requires
        v.wf(),
        DuckDb.speaks(v),
    ensures
        says_by_name(v, "array"@, values, Sql::Call("json_array"@, values)),
        v.op("array"@).op.arity() == 0,
        says_by_name(v, "object"@, values, Sql::Call("json_object"@, values)),
        v.op("object"@).op.arity() == 0,
        says_by_name(v, "as_text"@, seq![value], Sql::Cast(Box::new(value), "VARCHAR"@)),
{
    let args = seq![value];
    let ops = duckdb_ops();
    assert(args[0] == value);
    assert(ops[9].0 == "array"@ && ops[10].0 == "object"@ && ops[11].0 == "as_text"@);
    named_at(v, 9);
    named_at(v, 10);
    named_at(v, 11);
}

/// There are twelve operations, and an operation that is not among them is not known.
pub proof fn duckdb_knows_no_other_name(v: Vocabulary, name: Seq<char>)
    requires
        v.wf(),
        DuckDb.speaks(v),
    ensures
        v.ops@.len() == 12,
        v.knows(name) <==> name == "x"@ || name == "y"@ || name == "x_min"@ || name == "y_min"@
            || name == "x_max"@ || name == "y_max"@ || name == "extent_agg"@ || name
            == "area_meters"@ || name == "geojson_coordinates"@ || name == "array"@ || name
            == "object"@ || name == "as_text"@,
{
    duckdb_measures_geometries(v, arbitrary());
    duckdb_puts_values_together(v, arbitrary(), Seq::empty());
    op_at_bounds(v.ops@, name, 0);
    let at = op_at(v.ops@, name, 0);
    if v.knows(name) {
        assert(v.ops@[at].name@ == duckdb_ops()[at].0);
    }
}

/// A geometry is moved from the first reference system to the second, with the axes in the order of
/// `x` and then `y` whatever the systems say, and is written as GeoJSON by the one function for it.
pub proof fn duckdb_moves_and_writes_geometries(geometry: Sql, from: Seq<char>, to: Seq<char>)
    ensures
        ({
            let moved = DuckDb.transformed(geometry, from, to);
            &&& moved is Call
            &&& moved->Call_0 == "ST_Transform"@
            &&& moved->Call_1.len() == 4
            &&& moved->Call_1[0] == geometry
            &&& moved->Call_1[1] == Sql::Text(uppercased(from))
            &&& moved->Call_1[2] == Sql::Text(uppercased(to))
            &&& moved->Call_1[3] == Sql::Raw("always_xy := true"@)
        }),
        DuckDb.encoded(geometry) is Call,
        DuckDb.encoded(geometry)->Call_0 == "ST_AsGeoJSON"@,
        DuckDb.encoded(geometry)->Call_1 == seq![geometry],
{
}

} // verus!
