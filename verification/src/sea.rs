//! Writing SQL out, through `sea_query`.
//!
//! Each function that is not proved here makes one call into `sea_query` and says no more of it
//! than that its result is a function of the arguments, to which it gives a name. `written`
//! says, over those names, what the text of a whole statement is.

use sea_query::{
    Alias, BinOper, CommonTableExpression, Expr, ExprTrait, Func, LikeExpr, PostgresQueryBuilder,
    Query, SelectExpr, SelectStatement, SubQueryStatement, WithClause,
};
use vstd::prelude::*;

use crate::ast::{
    ctes_sound, declares, says, Cte, CteModel, Infix, Relation, RelationModel, Select,
    SelectedModel, SelectModel, Sql, SqlExpr,
};
use crate::text::views;

verus! {

/// `sea_query::Expr`.
#[verifier::external_type_specification]
#[verifier::external_body]
pub struct ExExpr(sea_query::Expr);

/// `sea_query::SelectExpr`.
#[verifier::external_type_specification]
#[verifier::external_body]
pub struct ExSelectExpr(sea_query::SelectExpr);

/// `sea_query::SelectStatement`.
#[verifier::external_type_specification]
#[verifier::external_body]
pub struct ExSelectStatement(sea_query::SelectStatement);

/// `sea_query::CommonTableExpression`.
#[verifier::external_type_specification]
#[verifier::external_body]
pub struct ExCommonTableExpression(sea_query::CommonTableExpression);

/// `sea_query::WithClause`.
#[verifier::external_type_specification]
#[verifier::external_body]
pub struct ExWithClause(sea_query::WithClause);

pub uninterp spec fn sea_column(name: Seq<char>) -> sea_query::Expr;

/// `Expr::col` on an `Alias`: the column of that name.
#[verifier::external_body]
fn column(name: &str) -> (r: Expr)
    ensures
        r == sea_column(name@),
{
    Expr::col(Alias::new(name))
}

pub uninterp spec fn sea_qualified(table: Seq<char>, name: Seq<char>) -> sea_query::Expr;

/// `Expr::col` on a pair of `Alias`es: the column of a relation.
#[verifier::external_body]
fn qualified(table: &str, name: &str) -> (r: Expr)
    ensures
        r == sea_qualified(table@, name@),
{
    Expr::col((Alias::new(table), Alias::new(name)))
}

pub uninterp spec fn sea_text(value: Seq<char>) -> sea_query::Expr;

/// `Expr::val` on a text.
#[verifier::external_body]
fn text(value: &str) -> (r: Expr)
    ensures
        r == sea_text(value@),
{
    Expr::val(value)
}

pub uninterp spec fn sea_integer(value: i64) -> sea_query::Expr;

/// `Expr::val` on an integer.
#[verifier::external_body]
fn integer(value: i64) -> (r: Expr)
    ensures
        r == sea_integer(value),
{
    Expr::val(value)
}

pub uninterp spec fn sea_flag(value: bool) -> sea_query::Expr;

/// `Expr::val` on a boolean.
#[verifier::external_body]
fn flag(value: bool) -> (r: Expr)
    ensures
        r == sea_flag(value),
{
    Expr::val(value)
}

pub uninterp spec fn sea_raw(sql: Seq<char>) -> sea_query::Expr;

/// `Expr::cust`: SQL as it stands.
#[verifier::external_body]
fn raw(sql: &String) -> (r: Expr)
    ensures
        r == sea_raw(sql@),
{
    Expr::cust(sql.clone())
}

pub uninterp spec fn sea_template(sql: Seq<char>, args: Seq<sea_query::Expr>) -> sea_query::Expr;

/// `Expr::cust_with_exprs`: SQL with slots and what goes into them.
#[verifier::external_body]
fn template(sql: &String, args: Vec<Expr>) -> (r: Expr)
    ensures
        r == sea_template(sql@, args@),
{
    Expr::cust_with_exprs(sql.clone(), args)
}

pub uninterp spec fn sea_call(name: Seq<char>, args: Seq<sea_query::Expr>) -> sea_query::Expr;

/// `Func::cust` with `FunctionCall::args`: a function applied to arguments.
#[verifier::external_body]
fn call(name: &str, args: Vec<Expr>) -> (r: Expr)
    ensures
        r == sea_call(name@, args@),
{
    Expr::from(Func::cust(Alias::new(name)).args(args))
}

pub uninterp spec fn sea_lower(e: sea_query::Expr) -> sea_query::Expr;

/// `Func::lower`.
#[verifier::external_body]
fn lower(e: Expr) -> (r: Expr)
    ensures
        r == sea_lower(e),
{
    Expr::from(Func::lower(e))
}

pub uninterp spec fn sea_coalesce(args: Seq<sea_query::Expr>) -> sea_query::Expr;

/// `Func::coalesce`.
#[verifier::external_body]
fn coalesce(args: Vec<Expr>) -> (r: Expr)
    ensures
        r == sea_coalesce(args@),
{
    Expr::from(Func::coalesce(args))
}

pub uninterp spec fn sea_cast(e: sea_query::Expr, kind: Seq<char>) -> sea_query::Expr;

/// `Func::cast_as` on an `Alias`.
#[verifier::external_body]
fn cast(e: Expr, kind: &str) -> (r: Expr)
    ensures
        r == sea_cast(e, kind@),
{
    Expr::from(Func::cast_as(e, Alias::new(kind)))
}

pub uninterp spec fn sea_case(when: sea_query::Expr, result: sea_query::Expr) -> sea_query::Expr;

/// `Expr::case` with no other branch.
#[verifier::external_body]
fn case(when: Expr, result: Expr) -> (r: Expr)
    ensures
        r == sea_case(when, result),
{
    Expr::case(when, result).into()
}

pub uninterp spec fn sea_negated(e: sea_query::Expr) -> sea_query::Expr;

/// `ExprTrait::not`.
#[verifier::external_body]
fn negated(e: Expr) -> (r: Expr)
    ensures
        r == sea_negated(e),
{
    e.not()
}

pub uninterp spec fn sea_is_null(e: sea_query::Expr) -> sea_query::Expr;

/// `ExprTrait::is_null`.
#[verifier::external_body]
fn is_null(e: Expr) -> (r: Expr)
    ensures
        r == sea_is_null(e),
{
    e.is_null()
}

pub uninterp spec fn sea_is_not_null(e: sea_query::Expr) -> sea_query::Expr;

/// `ExprTrait::is_not_null`.
#[verifier::external_body]
fn is_not_null(e: Expr) -> (r: Expr)
    ensures
        r == sea_is_not_null(e),
{
    e.is_not_null()
}

pub uninterp spec fn sea_between(e: sea_query::Expr, lo: i64, hi: i64) -> sea_query::Expr;

/// `ExprTrait::between` on two integers.
#[verifier::external_body]
fn between(e: Expr, lo: i64, hi: i64) -> (r: Expr)
    ensures
        r == sea_between(e, lo, hi),
{
    e.between(lo, hi)
}

pub uninterp spec fn sea_among(e: sea_query::Expr, values: Seq<Seq<char>>) -> sea_query::Expr;

/// `ExprTrait::is_in` on texts.
#[verifier::external_body]
fn among(e: Expr, values: &Vec<String>) -> (r: Expr)
    ensures
        r == sea_among(e, views(values@)),
{
    e.is_in(values.clone())
}

pub uninterp spec fn sea_like(
    e: sea_query::Expr,
    pattern: Seq<char>,
    escape: char,
) -> sea_query::Expr;

/// `ExprTrait::like` with a pattern in which a character escapes the one after it.
#[verifier::external_body]
fn like(e: Expr, pattern: &String, escape: char) -> (r: Expr)
    ensures
        r == sea_like(e, pattern@, escape),
{
    e.like(LikeExpr::new(pattern.clone()).escape(escape))
}

pub uninterp spec fn sea_within(
    e: sea_query::Expr,
    query: sea_query::SelectStatement,
) -> sea_query::Expr;

/// `ExprTrait::in_subquery`.
#[verifier::external_body]
fn within(e: Expr, query: SelectStatement) -> (r: Expr)
    ensures
        r == sea_within(e, query),
{
    e.in_subquery(query)
}

pub uninterp spec fn sea_subquery(query: sea_query::SelectStatement) -> sea_query::Expr;

/// `Expr::SubQuery` with no operator: the value of a select.
#[verifier::external_body]
fn subquery(query: SelectStatement) -> (r: Expr)
    ensures
        r == sea_subquery(query),
{
    Expr::SubQuery(None, Box::new(SubQueryStatement::SelectStatement(query)))
}

pub uninterp spec fn sea_infix(
    l: sea_query::Expr,
    op: Infix,
    r: sea_query::Expr,
) -> sea_query::Expr;

/// `ExprTrait::binary`, with the operator that `op` stands for.
#[verifier::external_body]
fn infix(l: Expr, op: Infix, r: Expr) -> (e: Expr)
    ensures
        e == sea_infix(l, op, r),
{
    match op {
        Infix::And => l.binary(BinOper::And, r),
        Infix::Equal => l.binary(BinOper::Equal, r),
        Infix::Greater => l.binary(BinOper::GreaterThan, r),
        Infix::GreaterOrEqual => l.binary(BinOper::GreaterThanOrEqual, r),
        Infix::Less => l.binary(BinOper::SmallerThan, r),
        Infix::LessOrEqual => l.binary(BinOper::SmallerThanOrEqual, r),
    }
}

pub uninterp spec fn sea_selected(e: sea_query::Expr) -> sea_query::SelectExpr;

/// `SelectExpr::from`: an expression under no alias.
#[verifier::external_body]
fn selected(e: Expr) -> (r: SelectExpr)
    ensures
        r == sea_selected(e),
{
    SelectExpr::from(e)
}

pub uninterp spec fn sea_selected_as(e: sea_query::Expr, alias: Seq<char>) -> sea_query::SelectExpr;

/// `SelectExpr` with an alias.
#[verifier::external_body]
fn selected_as(e: Expr, alias: &str) -> (r: SelectExpr)
    ensures
        r == sea_selected_as(e, alias@),
{
    SelectExpr { expr: e, alias: Some(Alias::new(alias).into()), window: None }
}

pub uninterp spec fn sea_select(columns: Seq<sea_query::SelectExpr>) -> sea_query::SelectStatement;

/// `SelectStatement::exprs` on a new select.
#[verifier::external_body]
fn select(columns: Vec<SelectExpr>) -> (r: SelectStatement)
    ensures
        r == sea_select(columns@),
{
    Query::select().exprs(columns).take()
}

pub uninterp spec fn sea_from_table(
    select: sea_query::SelectStatement,
    name: Seq<char>,
) -> sea_query::SelectStatement;

/// `SelectStatement::from` on an `Alias`.
#[verifier::external_body]
fn from_table(select: SelectStatement, name: &str) -> (r: SelectStatement)
    ensures
        r == sea_from_table(select, name@),
{
    let mut select = select;
    select.from(Alias::new(name));
    select
}

pub uninterp spec fn sea_from_function(
    select: sea_query::SelectStatement,
    name: Seq<char>,
    args: Seq<sea_query::Expr>,
    alias: Seq<char>,
) -> sea_query::SelectStatement;

/// `SelectStatement::from_function`: a table function under an alias.
#[verifier::external_body]
fn from_function(select: SelectStatement, name: &str, args: Vec<Expr>, alias: &str) -> (r:
    SelectStatement)
    ensures
        r == sea_from_function(select, name@, args@, alias@),
{
    let mut select = select;
    select.from_function(Func::cust(Alias::new(name)).args(args), Alias::new(alias));
    select
}

pub uninterp spec fn sea_from_query(
    select: sea_query::SelectStatement,
    query: sea_query::SelectStatement,
    alias: Seq<char>,
) -> sea_query::SelectStatement;

/// `SelectStatement::from_subquery`.
#[verifier::external_body]
fn from_query(select: SelectStatement, query: SelectStatement, alias: &str) -> (r: SelectStatement)
    ensures
        r == sea_from_query(select, query, alias@),
{
    let mut select = select;
    select.from_subquery(query, Alias::new(alias));
    select
}

pub uninterp spec fn sea_filtered(
    select: sea_query::SelectStatement,
    filter: sea_query::Expr,
) -> sea_query::SelectStatement;

/// `SelectStatement::and_where`.
#[verifier::external_body]
fn filtered(select: SelectStatement, filter: Expr) -> (r: SelectStatement)
    ensures
        r == sea_filtered(select, filter),
{
    let mut select = select;
    select.and_where(filter);
    select
}

pub uninterp spec fn sea_limited(
    select: sea_query::SelectStatement,
    limit: u64,
) -> sea_query::SelectStatement;

/// `SelectStatement::limit`.
#[verifier::external_body]
fn limited(select: SelectStatement, limit: u64) -> (r: SelectStatement)
    ensures
        r == sea_limited(select, limit),
{
    let mut select = select;
    select.limit(limit);
    select
}

pub uninterp spec fn sea_declaration(
    name: Seq<char>,
    query: sea_query::SelectStatement,
) -> sea_query::CommonTableExpression;

/// `CommonTableExpression` with `query` and `table_name`.
#[verifier::external_body]
fn declaration(name: &str, query: SelectStatement) -> (r: CommonTableExpression)
    ensures
        r == sea_declaration(name@, query),
{
    CommonTableExpression::new().query(query).table_name(Alias::new(name)).to_owned()
}

pub uninterp spec fn sea_clause(first: sea_query::CommonTableExpression) -> sea_query::WithClause;

/// `WithClause::from` a first declaration.
#[verifier::external_body]
fn clause(first: CommonTableExpression) -> (r: WithClause)
    ensures
        r == sea_clause(first),
{
    WithClause::from(first)
}

pub uninterp spec fn sea_declared(
    clause: sea_query::WithClause,
    next: sea_query::CommonTableExpression,
) -> sea_query::WithClause;

/// `WithClause::cte`: one more declaration.
#[verifier::external_body]
fn declared(clause: WithClause, next: CommonTableExpression) -> (r: WithClause)
    ensures
        r == sea_declared(clause, next),
{
    let mut clause = clause;
    clause.cte(next);
    clause
}

/// The expression that `e` becomes.
pub open spec fn expr_of(e: Sql) -> sea_query::Expr
    decreases e,
{
    match e {
        Sql::Column(name) => sea_column(name),
        Sql::Qualified(table, name) => sea_qualified(table, name),
        Sql::Text(value) => sea_text(value),
        Sql::Integer(n) => sea_integer(n as i64),
        Sql::Flag(b) => sea_flag(b),
        Sql::Raw(sql) => sea_raw(sql),
        Sql::Template(sql, args) => sea_template(sql, exprs_of(args)),
        Sql::Call(name, args) => sea_call(name, exprs_of(args)),
        Sql::Lower(e) => sea_lower(expr_of(*e)),
        Sql::Coalesce(args) => sea_coalesce(exprs_of(args)),
        Sql::Cast(e, kind) => sea_cast(expr_of(*e), kind),
        Sql::Case(when, result) => sea_case(expr_of(*when), expr_of(*result)),
        Sql::Not(e) => sea_negated(expr_of(*e)),
        Sql::Binary(l, op, r) => sea_infix(expr_of(*l), op, expr_of(*r)),
        Sql::IsNull(e) => sea_is_null(expr_of(*e)),
        Sql::IsNotNull(e) => sea_is_not_null(expr_of(*e)),
        Sql::Between(e, lo, hi) => sea_between(expr_of(*e), lo as i64, hi as i64),
        Sql::Among(e, values) => sea_among(expr_of(*e), values),
        Sql::Like(e, pattern) => sea_like(expr_of(*e), pattern, '\\'),
        Sql::Within(e, query) => sea_within(expr_of(*e), select_of(*query)),
        Sql::Query(query) => sea_subquery(select_of(*query)),
    }
}

/// The expressions that `args` become.
pub open spec fn exprs_of(args: Seq<Sql>) -> Seq<sea_query::Expr>
    decreases args,
{
    Seq::new(
        args.len(),
        |i: int|
            if 0 <= i < args.len() {
                expr_of(args[i])
            } else {
                arbitrary()
            },
    )
}

pub open spec fn selected_of(c: SelectedModel) -> sea_query::SelectExpr
    decreases c,
{
    match c.alias {
        Some(alias) => sea_selected_as(expr_of(c.expr), alias),
        None => sea_selected(expr_of(c.expr)),
    }
}

/// The columns that `columns` become.
pub open spec fn columns_of(columns: Seq<SelectedModel>) -> Seq<sea_query::SelectExpr>
    decreases columns,
{
    Seq::new(
        columns.len(),
        |i: int|
            if 0 <= i < columns.len() {
                selected_of(columns[i])
            } else {
                arbitrary()
            },
    )
}

/// The select that also reads from `relation`.
pub open spec fn reading(
    select: sea_query::SelectStatement,
    relation: RelationModel,
) -> sea_query::SelectStatement
    decreases relation,
{
    match relation {
        RelationModel::Table(name) => sea_from_table(select, name),
        RelationModel::Function(name, args, alias) => sea_from_function(
            select,
            name,
            exprs_of(args),
            alias,
        ),
        RelationModel::Query(query, alias) => sea_from_query(select, select_of(*query), alias),
    }
}

/// The select that also reads from each of `from`, up to `n`.
pub open spec fn reading_all(
    select: sea_query::SelectStatement,
    from: Seq<RelationModel>,
    n: nat,
) -> sea_query::SelectStatement
    decreases from, n,
{
    if n == 0 || n > from.len() {
        select
    } else {
        reading(reading_all(select, from, (n - 1) as nat), from[n - 1])
    }
}

/// The select that `s` becomes.
pub open spec fn select_of(s: SelectModel) -> sea_query::SelectStatement
    decreases s,
{
    let read = reading_all(sea_select(columns_of(s.columns)), s.from, s.from.len());
    let kept = match s.filter {
        Some(filter) => sea_filtered(read, expr_of(filter)),
        None => read,
    };
    match s.limit {
        Some(n) => sea_limited(kept, n as u64),
        None => kept,
    }
}

pub open spec fn declaration_of(c: CteModel) -> sea_query::CommonTableExpression {
    sea_declaration(c.name, select_of(c.query))
}

/// The clause that declares each of `ctes`.
pub open spec fn clause_of(ctes: Seq<CteModel>) -> sea_query::WithClause
    recommends
        ctes.len() > 0,
    decreases ctes.len(),
{
    if ctes.len() <= 1 {
        sea_clause(declaration_of(ctes[0]))
    } else {
        sea_declared(clause_of(ctes.drop_last()), declaration_of(ctes.last()))
    }
}

pub uninterp spec fn sea_written(select: sea_query::SelectStatement) -> Seq<char>;

/// `SelectStatement::to_string` for PostgreSQL. It panics where a template asks for an argument
/// that it was not given, so the select must be one whose templates are sound.
#[verifier::external_body]
fn write(select: SelectStatement) -> (r: String)
    requires
        exists|s: SelectModel| s.sound() && select == #[trigger] select_of(s),
    ensures
        r@ == sea_written(select),
{
    select.to_string(PostgresQueryBuilder)
}

pub uninterp spec fn sea_written_with(
    select: sea_query::SelectStatement,
    clause: sea_query::WithClause,
) -> Seq<char>;

/// `SelectStatement::with` and `WithQuery::to_string` for PostgreSQL. It panics where a template
/// asks for an argument that it was not given, so the select and the declarations must be ones
/// whose templates are sound.
#[verifier::external_body]
fn write_with(select: SelectStatement, clause: WithClause) -> (r: String)
    requires
        exists|s: SelectModel| s.sound() && select == #[trigger] select_of(s),
        exists|c: Seq<CteModel>|
            c.len() > 0 && ctes_sound(c) && clause == #[trigger] clause_of(c),
    ensures
        r@ == sea_written_with(select, clause),
{
    select.with(clause).to_string(PostgresQueryBuilder)
}

/// The text of a select.
pub open spec fn written(s: SelectModel) -> Seq<char> {
    sea_written(select_of(s))
}

/// The text of a select before which `ctes` are declared.
pub open spec fn written_with(ctes: Seq<CteModel>, s: SelectModel) -> Seq<char> {
    sea_written_with(select_of(s), clause_of(ctes))
}

fn exprs(args: &Vec<SqlExpr>) -> (r: Vec<Expr>)
    ensures
        r@ == exprs_of(says(args@)),
    decreases args,
{
    let mut out: Vec<Expr> = Vec::new();
    let mut i: usize = 0;
    while i < args.len()
        invariant
            i <= args@.len(),
            out@.len() == i,
            forall|j: int| 0 <= j < i ==> #[trigger] out@[j] == expr_of(args@[j].model()),
        decreases args@.len() - i,
    {
        out.push(expr(&args[i]));
        i += 1;
    }
    assert(out@ =~= exprs_of(says(args@)));
    out
}

fn expr(e: &SqlExpr) -> (r: Expr)
    ensures
        r == expr_of(e.model()),
    decreases e,
{
    match e {
        SqlExpr::Column(name) => column(name.as_str()),
        SqlExpr::Qualified(table, name) => qualified(table.as_str(), name.as_str()),
        SqlExpr::Text(value) => text(value.as_str()),
        SqlExpr::Integer(n) => integer(*n),
        SqlExpr::Flag(b) => flag(*b),
        SqlExpr::Raw(sql) => raw(sql),
        SqlExpr::Template(sql, args) => template(sql, exprs(args)),
        SqlExpr::Call(name, args) => call(name.as_str(), exprs(args)),
        SqlExpr::Lower(e) => lower(expr(e)),
        SqlExpr::Coalesce(args) => coalesce(exprs(args)),
        SqlExpr::Cast(e, kind) => cast(expr(e), kind.as_str()),
        SqlExpr::Case(when, result) => case(expr(when), expr(result)),
        SqlExpr::Not(e) => negated(expr(e)),
        SqlExpr::Binary(l, op, r) => infix(expr(l), *op, expr(r)),
        SqlExpr::IsNull(e) => is_null(expr(e)),
        SqlExpr::IsNotNull(e) => is_not_null(expr(e)),
        SqlExpr::Between(e, lo, hi) => between(expr(e), *lo, *hi),
        SqlExpr::Among(e, values) => among(expr(e), values),
        SqlExpr::Like(e, pattern) => like(expr(e), pattern, '\\'),
        SqlExpr::Within(e, query) => within(expr(e), statement(query)),
        SqlExpr::Query(query) => subquery(statement(query)),
    }
}

fn statement(s: &Select) -> (r: SelectStatement)
    ensures
        r == select_of(s.model()),
    decreases s,
{
    let ghost m = s.model();
    let mut columns: Vec<SelectExpr> = Vec::new();
    let mut i: usize = 0;
    while i < s.columns.len()
        invariant
            i <= s.columns@.len(),
            m == s.model(),
            columns@.len() == i,
            forall|j: int| 0 <= j < i ==> #[trigger] columns@[j] == selected_of(m.columns[j]),
        decreases s.columns@.len() - i,
    {
        let e = expr(&s.columns[i].expr);
        match &s.columns[i].alias {
            Some(alias) => columns.push(selected_as(e, alias.as_str())),
            None => columns.push(selected(e)),
        }
        i += 1;
    }
    assert(columns@ =~= columns_of(m.columns));
    let ghost start = sea_select(columns@);
    let mut out = select(columns);
    let mut k: usize = 0;
    while k < s.from.len()
        invariant
            k <= s.from@.len(),
            m == s.model(),
            out == reading_all(start, m.from, k as nat),
        decreases s.from@.len() - k,
    {
        let ghost before = out;
        match &s.from[k] {
            Relation::Table(name) => {
                out = from_table(out, name.as_str());
            },
            Relation::Function(name, args, alias) => {
                out = from_function(out, name.as_str(), exprs(args), alias.as_str());
            },
            Relation::Query(query, alias) => {
                out = from_query(out, statement(query), alias.as_str());
            },
        }
        assert(m.from[k as int] == s.from@[k as int].model());
        assert(out == reading(before, m.from[k as int]));
        k += 1;
    }
    match &s.filter {
        Some(filter) => {
            out = filtered(out, expr(filter));
        },
        None => {},
    }
    match s.limit {
        Some(n) => {
            out = limited(out, n);
        },
        None => {},
    }
    out
}

/// A select written out.
pub fn render(s: &Select) -> (r: String)
    requires
        s.model().sound(),
    ensures
        r@ == written(s.model()),
{
    write(statement(s))
}

/// A select written out after the declarations that it needs.
pub fn render_with(ctes: &Vec<Cte>, s: &Select) -> (r: String)
    requires
        ctes@.len() > 0,
        ctes_sound(declares(ctes@)),
        s.model().sound(),
    ensures
        r@ == written_with(declares(ctes@), s.model()),
{
    let ghost m = declares(ctes@);
    let mut all = clause(declaration(ctes[0].name.as_str(), statement(&ctes[0].query)));
    let mut i: usize = 1;
    assert(m.take(1)[0] == m[0]);
    while i < ctes.len()
        invariant
            1 <= i <= ctes@.len(),
            m == declares(ctes@),
            all == clause_of(m.take(i as int)),
        decreases ctes@.len() - i,
    {
        all = declared(all, declaration(ctes[i].name.as_str(), statement(&ctes[i].query)));
        assert(m.take(i as int + 1).drop_last() =~= m.take(i as int));
        i += 1;
    }
    assert(m.take(m.len() as int) =~= m);
    write_with(statement(s), all)
}

// What becomes of a statement.

/// An expression becomes what `sea_query` makes of the same thing said of what its parts become,
/// each part in its place: no two kinds of expression become one, and nothing is left out.
pub proof fn expressions_are_made_of_their_parts(
    e: Sql,
    other: Sql,
    args: Seq<Sql>,
    name: Seq<char>,
    more: Seq<char>,
    values: Seq<Seq<char>>,
    op: Infix,
    query: SelectModel,
    lo: i64,
    hi: i64,
    b: bool,
)
    ensures
        exprs_of(args).len() == args.len(),
        forall|i: int| 0 <= i < args.len() ==> #[trigger] exprs_of(args)[i] == expr_of(args[i]),
        expr_of(Sql::Column(name)) == sea_column(name),
        expr_of(Sql::Qualified(name, more)) == sea_qualified(name, more),
        expr_of(Sql::Text(name)) == sea_text(name),
        expr_of(Sql::Integer(lo as int)) == sea_integer(lo),
        expr_of(Sql::Flag(b)) == sea_flag(b),
        expr_of(Sql::Raw(name)) == sea_raw(name),
        expr_of(Sql::Template(name, args)) == sea_template(name, exprs_of(args)),
        expr_of(Sql::Call(name, args)) == sea_call(name, exprs_of(args)),
        expr_of(Sql::Coalesce(args)) == sea_coalesce(exprs_of(args)),
        expr_of(Sql::Lower(Box::new(e))) == sea_lower(expr_of(e)),
        expr_of(Sql::Cast(Box::new(e), name)) == sea_cast(expr_of(e), name),
        expr_of(Sql::Case(Box::new(e), Box::new(other))) == sea_case(expr_of(e), expr_of(other)),
        expr_of(Sql::Not(Box::new(e))) == sea_negated(expr_of(e)),
        expr_of(Sql::Binary(Box::new(e), op, Box::new(other))) == sea_infix(
            expr_of(e),
            op,
            expr_of(other),
        ),
        expr_of(Sql::IsNull(Box::new(e))) == sea_is_null(expr_of(e)),
        expr_of(Sql::IsNotNull(Box::new(e))) == sea_is_not_null(expr_of(e)),
        expr_of(Sql::Between(Box::new(e), lo as int, hi as int)) == sea_between(expr_of(e), lo, hi),
        expr_of(Sql::Among(Box::new(e), values)) == sea_among(expr_of(e), values),
        expr_of(Sql::Like(Box::new(e), name)) == sea_like(expr_of(e), name, '\\'),
        expr_of(Sql::Within(Box::new(e), Box::new(query))) == sea_within(
            expr_of(e),
            select_of(query),
        ),
        expr_of(Sql::Query(Box::new(query))) == sea_subquery(select_of(query)),
{
}

/// A select becomes one of its columns, in their order and under their names, that reads from each
/// of its relations in turn, and only then keeps what its condition keeps and no more than its
/// limit.
pub proof fn selects_are_made_of_their_parts(
    columns: Seq<SelectedModel>,
    from: Seq<RelationModel>,
    last: RelationModel,
    filter: Sql,
    limit: u64,
)
    ensures
        columns_of(columns).len() == columns.len(),
        forall|i: int|
            0 <= i < columns.len() ==> #[trigger] columns_of(columns)[i] == match columns[i].alias {
                Some(alias) => sea_selected_as(expr_of(columns[i].expr), alias),
                None => sea_selected(expr_of(columns[i].expr)),
            },
        ({
            let bare = SelectModel { columns, from, filter: None, limit: None };
            let more = SelectModel { from: from.push(last), ..bare };
            &&& from.len() == 0 ==> select_of(bare) == sea_select(columns_of(columns))
            &&& select_of(more) == match last {
                RelationModel::Table(name) => sea_from_table(select_of(bare), name),
                RelationModel::Function(name, args, alias) => sea_from_function(
                    select_of(bare),
                    name,
                    exprs_of(args),
                    alias,
                ),
                RelationModel::Query(query, alias) => sea_from_query(
                    select_of(bare),
                    select_of(*query),
                    alias,
                ),
            }
            &&& select_of(SelectModel { filter: Some(filter), ..bare }) == sea_filtered(
                select_of(bare),
                expr_of(filter),
            )
            &&& select_of(SelectModel { limit: Some(limit as nat), ..bare }) == sea_limited(
                select_of(bare),
                limit,
            )
            &&& select_of(
                SelectModel { filter: Some(filter), limit: Some(limit as nat), ..bare },
            ) == sea_limited(sea_filtered(select_of(bare), expr_of(filter)), limit)
        }),
{
    let first = sea_select(columns_of(columns));
    let more = from.push(last);
    reads_the_same(first, from, more, from.len());
    assert(reading_all(first, more, more.len()) == reading(
        reading_all(first, more, from.len()),
        more[from.len() as int],
    ));
}

proof fn reads_the_same(
    select: sea_query::SelectStatement,
    from: Seq<RelationModel>,
    more: Seq<RelationModel>,
    n: nat,
)
    requires
        n <= from.len() <= more.len(),
        forall|i: int| 0 <= i < from.len() ==> #[trigger] more[i] == from[i],
    ensures
        reading_all(select, from, n) == reading_all(select, more, n),
    decreases n,
{
    if n > 0 {
        reads_the_same(select, from, more, (n - 1) as nat);
    }
}

/// Declarations are made one after the other, each of its name and its query.
pub proof fn declarations_are_made_in_turn(first: CteModel, ctes: Seq<CteModel>, last: CteModel)
    ensures
        clause_of(seq![first]) == sea_clause(sea_declaration(first.name, select_of(first.query))),
        ctes.len() > 0 ==> clause_of(ctes.push(last)) == sea_declared(
            clause_of(ctes),
            sea_declaration(last.name, select_of(last.query)),
        ),
{
    assert(ctes.push(last).drop_last() =~= ctes);
}

/// The text of a statement is that of its select, with its declarations where it has any.
pub proof fn statements_are_written_out(s: SelectModel, ctes: Seq<CteModel>)
    ensures
        written(s) == sea_written(select_of(s)),
        written_with(ctes, s) == sea_written_with(select_of(s), clause_of(ctes)),
{
}

} // verus!
