//! SQL as the crate builds it: expressions, selects and the statement they end up in, each with
//! the mathematical value that contracts speak of.

use vstd::prelude::*;

use crate::text::{chars_of, is_digit, is_digit_spec, is_letter, is_letter_spec, views};

verus! {

/// An operator between two expressions.
#[derive(Debug, Clone, Copy, PartialEq, Eq, Structural)]
pub enum Infix {
    And,
    Equal,
    Greater,
    GreaterOrEqual,
    Less,
    LessOrEqual,
}

/// An expression.
#[derive(Debug)]
pub enum SqlExpr {
    /// A column.
    Column(String),
    /// A column of a named relation.
    Qualified(String, String),
    /// A quoted text.
    Text(String),
    /// An integer.
    Integer(i64),
    /// A boolean.
    Flag(bool),
    /// SQL as it stands.
    Raw(String),
    /// SQL with numbered slots, `$1` and so on, for other expressions.
    Template(String, Vec<SqlExpr>),
    /// A function applied to arguments.
    Call(String, Vec<SqlExpr>),
    /// A text in lower case.
    Lower(Box<SqlExpr>),
    /// The first argument that is not null.
    Coalesce(Vec<SqlExpr>),
    /// A value as another type.
    Cast(Box<SqlExpr>, String),
    /// The second expression where the first holds, else null.
    Case(Box<SqlExpr>, Box<SqlExpr>),
    Not(Box<SqlExpr>),
    Binary(Box<SqlExpr>, Infix, Box<SqlExpr>),
    IsNull(Box<SqlExpr>),
    IsNotNull(Box<SqlExpr>),
    /// Between two integers, both included.
    Between(Box<SqlExpr>, i64, i64),
    /// One of some texts.
    Among(Box<SqlExpr>, Vec<String>),
    /// A text that fits a pattern, in which a backslash takes the next character as it is.
    Like(Box<SqlExpr>, String),
    /// One of the values that a select yields.
    Within(Box<SqlExpr>, Box<Select>),
    /// The value that a select yields.
    Query(Box<Select>),
}

/// One thing that a select yields.
#[derive(Debug)]
pub struct Selected {
    pub expr: SqlExpr,
    pub alias: Option<String>,
}

/// Something that a select reads from.
#[derive(Debug)]
pub enum Relation {
    /// A table.
    Table(String),
    /// A table function applied to arguments, under an alias.
    Function(String, Vec<SqlExpr>, String),
    /// A select, under an alias.
    Query(Box<Select>, String),
}

/// A select.
#[derive(Debug)]
pub struct Select {
    pub columns: Vec<Selected>,
    pub from: Vec<Relation>,
    pub filter: Option<Box<SqlExpr>>,
    pub limit: Option<u64>,
}

/// A select under a name, which the statement declares before its body.
#[derive(Debug)]
pub struct Cte {
    pub name: String,
    pub query: Select,
}

/// What an expression says.
pub enum Sql {
    Column(Seq<char>),
    Qualified(Seq<char>, Seq<char>),
    Text(Seq<char>),
    Integer(int),
    Flag(bool),
    Raw(Seq<char>),
    Template(Seq<char>, Seq<Sql>),
    Call(Seq<char>, Seq<Sql>),
    Lower(Box<Sql>),
    Coalesce(Seq<Sql>),
    Cast(Box<Sql>, Seq<char>),
    Case(Box<Sql>, Box<Sql>),
    Not(Box<Sql>),
    Binary(Box<Sql>, Infix, Box<Sql>),
    IsNull(Box<Sql>),
    IsNotNull(Box<Sql>),
    Between(Box<Sql>, int, int),
    Among(Box<Sql>, Seq<Seq<char>>),
    Like(Box<Sql>, Seq<char>),
    Within(Box<Sql>, Box<SelectModel>),
    Query(Box<SelectModel>),
}

pub struct SelectedModel {
    pub expr: Sql,
    pub alias: Option<Seq<char>>,
}

pub enum RelationModel {
    Table(Seq<char>),
    Function(Seq<char>, Seq<Sql>, Seq<char>),
    Query(Box<SelectModel>, Seq<char>),
}

/// What a select says.
pub struct SelectModel {
    pub columns: Seq<SelectedModel>,
    pub from: Seq<RelationModel>,
    pub filter: Option<Sql>,
    pub limit: Option<nat>,
}

pub struct CteModel {
    pub name: Seq<char>,
    pub query: SelectModel,
}

impl SqlExpr {
    pub open spec fn model(self) -> Sql
        decreases self,
    {
        match self {
            SqlExpr::Column(name) => Sql::Column(name@),
            SqlExpr::Qualified(table, name) => Sql::Qualified(table@, name@),
            SqlExpr::Text(value) => Sql::Text(value@),
            SqlExpr::Integer(n) => Sql::Integer(n as int),
            SqlExpr::Flag(b) => Sql::Flag(b),
            SqlExpr::Raw(sql) => Sql::Raw(sql@),
            SqlExpr::Template(sql, args) => Sql::Template(
                sql@,
                says(args@),
            ),
            SqlExpr::Call(name, args) => Sql::Call(
                name@,
                says(args@),
            ),
            SqlExpr::Lower(e) => Sql::Lower(Box::new(e.model())),
            SqlExpr::Coalesce(args) => Sql::Coalesce(
                says(args@),
            ),
            SqlExpr::Cast(e, kind) => Sql::Cast(Box::new(e.model()), kind@),
            SqlExpr::Case(when, result) => Sql::Case(
                Box::new(when.model()),
                Box::new(result.model()),
            ),
            SqlExpr::Not(e) => Sql::Not(Box::new(e.model())),
            SqlExpr::Binary(l, op, r) => Sql::Binary(
                Box::new(l.model()),
                op,
                Box::new(r.model()),
            ),
            SqlExpr::IsNull(e) => Sql::IsNull(Box::new(e.model())),
            SqlExpr::IsNotNull(e) => Sql::IsNotNull(Box::new(e.model())),
            SqlExpr::Between(e, lo, hi) => Sql::Between(Box::new(e.model()), lo as int, hi as int),
            SqlExpr::Among(e, values) => Sql::Among(Box::new(e.model()), views(values@)),
            SqlExpr::Like(e, pattern) => Sql::Like(Box::new(e.model()), pattern@),
            SqlExpr::Within(e, query) => Sql::Within(
                Box::new(e.model()),
                Box::new(query.model()),
            ),
            SqlExpr::Query(query) => Sql::Query(Box::new(query.model())),
        }
    }
}

impl Selected {
    pub open spec fn model(self) -> SelectedModel
        decreases self,
    {
        SelectedModel {
            expr: self.expr.model(),
            alias: match self.alias {
                Some(alias) => Some(alias@),
                None => None,
            },
        }
    }
}

impl Relation {
    pub open spec fn model(self) -> RelationModel
        decreases self,
    {
        match self {
            Relation::Table(name) => RelationModel::Table(name@),
            Relation::Function(name, args, alias) => RelationModel::Function(
                name@,
                says(args@),
                alias@,
            ),
            Relation::Query(query, alias) => RelationModel::Query(Box::new(query.model()), alias@),
        }
    }
}

impl Select {
    pub open spec fn model(self) -> SelectModel
        decreases self,
    {
        SelectModel {
            columns: Seq::new(
                self.columns@.len(),
                |i: int|
                    if 0 <= i < self.columns@.len() {
                        self.columns@[i].model()
                    } else {
                        arbitrary()
                    },
            ),
            from: Seq::new(
                self.from@.len(),
                |i: int|
                    if 0 <= i < self.from@.len() {
                        self.from@[i].model()
                    } else {
                        arbitrary()
                    },
            ),
            filter: match self.filter {
                Some(filter) => Some(filter.model()),
                None => None,
            },
            limit: match self.limit {
                Some(n) => Some(n as nat),
                None => None,
            },
        }
    }
}

impl Cte {
    pub open spec fn model(self) -> CteModel {
        CteModel { name: self.name@, query: self.query.model() }
    }
}

/// What some expressions say.
pub open spec fn says(v: Seq<SqlExpr>) -> Seq<Sql>
    decreases v,
{
    Seq::new(
        v.len(),
        |i: int|
            if 0 <= i < v.len() {
                v[i].model()
            } else {
                arbitrary()
            },
    )
}

/// What some declarations say.
pub open spec fn declares(v: Seq<Cte>) -> Seq<CteModel> {
    Seq::new(v.len(), |i: int| v[i].model())
}

// Which statements can be written out.

/// Position `i` of a template lies between two quotes.
pub open spec fn in_quotes(t: Seq<char>, i: int) -> bool
    decreases i,
{
    if i <= 0 {
        false
    } else {
        in_quotes(t, i - 1) != (t[i - 1] == '\'')
    }
}

/// `c` cannot belong to the number of a slot that stands before it.
pub open spec fn ends_slot(c: char) -> bool {
    (c as u32) < 128 && !is_digit_spec(c) && !is_letter_spec(c) && c != '_' && c != '$'
}

/// A slot for one of `n` arguments stands at `i`.
pub open spec fn slot_at(t: Seq<char>, i: int, n: nat) -> bool {
    &&& i + 1 < t.len()
    &&& '1' <= t[i + 1] <= '9'
    &&& t[i + 1] as nat - '0' as nat <= n
    &&& i + 2 < t.len() ==> ends_slot(t[i + 2])
}

/// Nothing at `i` opens a quotation other than one between single quotes, or a comment.
pub open spec fn plain_at(t: Seq<char>, i: int) -> bool {
    &&& t[i] != '"' && t[i] != '`' && t[i] != '['
    &&& i + 1 < t.len() ==> !(t[i] == '-' && t[i + 1] == '-') && !(t[i] == '/' && t[i + 1] == '*')
        && !((t[i] == 'e' || t[i] == 'E') && t[i + 1] == '\'')
}

/// Every `$` of a template outside its quotations is a slot for one of its `n` arguments.
pub open spec fn slots_sound(t: Seq<char>, n: nat) -> bool {
    forall|i: int| 0 <= i < t.len() ==> #[trigger] sound_at(t, i, n)
}

/// Nothing at `i` opens another quotation or a comment, and a `$` there outside the quotations is a
/// slot for one of `n` arguments.
pub open spec fn sound_at(t: Seq<char>, i: int, n: nat) -> bool {
    plain_at(t, i) && (t[i] == '$' && !in_quotes(t, i) ==> slot_at(t, i, n))
}

/// Whether every `$` of a template outside its quotations is a slot for one of its `n` arguments.
pub fn slots_are_sound(t: &str, n: usize) -> (r: bool)
    ensures
        r == slots_sound(t@, n as nat),
{
    let v = chars_of(t);
    let len = v.len();
    let mut quoted = false;
    let mut i: usize = 0;
    while i < len
        invariant
            i <= len == v@.len(),
            v@ == t@,
            quoted == in_quotes(t@, i as int),
            forall|j: int| 0 <= j < i ==> #[trigger] sound_at(t@, j, n as nat),
        decreases len - i,
    {
        let c = v[i];
        let next = if i + 1 < len {
            v[i + 1]
        } else {
            ' '
        };
        let plain = c != '"' && c != '`' && c != '[' && !(c == '-' && next == '-') && !(c == '/'
            && next == '*') && !((c == 'e' || c == 'E') && next == '\'');
        assert(plain == plain_at(t@, i as int));
        if !plain {
            assert(!sound_at(t@, i as int, n as nat));
            return false;
        }
        if c == '$' && !quoted {
            let closed = len - i <= 2 || ends_number(v[i + 2]);
            let slot = '1' <= next && next <= '9' && (next as u8 - 48) as usize <= n && closed;
            assert(slot == slot_at(t@, i as int, n as nat));
            if !slot {
                assert(!sound_at(t@, i as int, n as nat));
                return false;
            }
        }
        assert(sound_at(t@, i as int, n as nat));
        if c == '\'' {
            quoted = !quoted;
        }
        i += 1;
    }
    true
}

fn ends_number(c: char) -> (r: bool)
    ensures
        r == ends_slot(c),
{
    (c as u32) < 128 && !is_digit(c) && !is_letter(c) && c != '_' && c != '$'
}

impl Sql {
    /// Every template in the expression has the arguments that it asks for.
    pub open spec fn sound(self) -> bool
        decreases self,
    {
        match self {
            Sql::Template(sql, args) => slots_sound(sql, args.len()) && each_sound(args),
            Sql::Call(_, args) => each_sound(args),
            Sql::Coalesce(args) => each_sound(args),
            Sql::Lower(e) => e.sound(),
            Sql::Cast(e, _) => e.sound(),
            Sql::Case(when, result) => when.sound() && result.sound(),
            Sql::Not(e) => e.sound(),
            Sql::Binary(l, _, r) => l.sound() && r.sound(),
            Sql::IsNull(e) => e.sound(),
            Sql::IsNotNull(e) => e.sound(),
            Sql::Between(e, _, _) => e.sound(),
            Sql::Among(e, _) => e.sound(),
            Sql::Like(e, _) => e.sound(),
            Sql::Within(e, query) => e.sound() && query.sound(),
            Sql::Query(query) => query.sound(),
            _ => true,
        }
    }
}

/// Every template in the expressions has the arguments that it asks for.
pub open spec fn each_sound(all: Seq<Sql>) -> bool
    decreases all,
{
    forall|i: int| 0 <= i < all.len() ==> (#[trigger] all[i]).sound()
}

impl RelationModel {
    pub open spec fn sound(self) -> bool
        decreases self,
    {
        match self {
            RelationModel::Table(_) => true,
            RelationModel::Function(_, args, _) => each_sound(args),
            RelationModel::Query(query, _) => query.sound(),
        }
    }
}

impl SelectModel {
    pub open spec fn sound(self) -> bool
        decreases self,
    {
        &&& forall|i: int| 0 <= i < self.columns.len() ==> (#[trigger] self.columns[i]).expr.sound()
        &&& forall|i: int| 0 <= i < self.from.len() ==> (#[trigger] self.from[i]).sound()
        &&& match self.filter {
            Some(filter) => filter.sound(),
            None => true,
        }
    }
}

/// Every declaration can be written out.
pub open spec fn ctes_sound(ctes: Seq<CteModel>) -> bool {
    forall|i: int| 0 <= i < ctes.len() ==> (#[trigger] ctes[i]).query.sound()
}

fn all_are_sound(args: &Vec<SqlExpr>) -> (r: bool)
    ensures
        r == each_sound(says(args@)),
    decreases args,
{
    let ghost all = says(args@);
    let mut i: usize = 0;
    while i < args.len()
        invariant
            i <= args@.len(),
            all == says(args@),
            forall|j: int| 0 <= j < i ==> (#[trigger] all[j]).sound(),
        decreases args@.len() - i,
    {
        assert(all[i as int] == args@[i as int].model());
        if !args[i].is_sound() {
            return false;
        }
        i += 1;
    }
    true
}

impl SqlExpr {
    /// Whether every template in the expression has the arguments that it asks for.
    pub fn is_sound(&self) -> (r: bool)
        ensures
            r == self.model().sound(),
        decreases self,
    {
        match self {
            SqlExpr::Template(sql, args) => {
                assert(says(args@).len() == args.len());
                slots_are_sound(sql.as_str(), args.len()) && all_are_sound(args)
            },
            SqlExpr::Call(_, args) => all_are_sound(args),
            SqlExpr::Coalesce(args) => all_are_sound(args),
            SqlExpr::Lower(e) => e.is_sound(),
            SqlExpr::Cast(e, _) => e.is_sound(),
            SqlExpr::Case(when, result) => when.is_sound() && result.is_sound(),
            SqlExpr::Not(e) => e.is_sound(),
            SqlExpr::Binary(l, _, r) => l.is_sound() && r.is_sound(),
            SqlExpr::IsNull(e) => e.is_sound(),
            SqlExpr::IsNotNull(e) => e.is_sound(),
            SqlExpr::Between(e, _, _) => e.is_sound(),
            SqlExpr::Among(e, _) => e.is_sound(),
            SqlExpr::Like(e, _) => e.is_sound(),
            SqlExpr::Within(e, query) => e.is_sound() && query.is_sound(),
            SqlExpr::Query(query) => query.is_sound(),
            SqlExpr::Column(_) | SqlExpr::Qualified(_, _) | SqlExpr::Text(_) | SqlExpr::Integer(_)
            | SqlExpr::Flag(_) | SqlExpr::Raw(_) => true,
        }
    }
}

impl Relation {
    /// Whether every template in the relation has the arguments that it asks for.
    pub fn is_sound(&self) -> (r: bool)
        ensures
            r == self.model().sound(),
        decreases self,
    {
        match self {
            Relation::Table(_) => true,
            Relation::Function(_, args, _) => all_are_sound(args),
            Relation::Query(query, _) => query.is_sound(),
        }
    }
}

impl Select {
    /// Whether every template in the select has the arguments that it asks for.
    pub fn is_sound(&self) -> (r: bool)
        ensures
            r == self.model().sound(),
        decreases self,
    {
        let ghost m = self.model();
        let mut i: usize = 0;
        while i < self.columns.len()
            invariant
                i <= self.columns@.len(),
                m == self.model(),
                forall|j: int| 0 <= j < i ==> (#[trigger] m.columns[j]).expr.sound(),
            decreases self.columns@.len() - i,
        {
            assert(m.columns[i as int].expr == self.columns@[i as int].expr.model());
            if !self.columns[i].expr.is_sound() {
                return false;
            }
            i += 1;
        }
        let mut k: usize = 0;
        while k < self.from.len()
            invariant
                k <= self.from@.len(),
                m == self.model(),
                forall|j: int|
                    0 <= j < m.columns.len() ==> (#[trigger] m.columns[j]).expr.sound(),
                forall|j: int| 0 <= j < k ==> (#[trigger] m.from[j]).sound(),
            decreases self.from@.len() - k,
        {
            assert(m.from[k as int] == self.from@[k as int].model());
            if !self.from[k].is_sound() {
                return false;
            }
            k += 1;
        }
        match &self.filter {
            Some(filter) => filter.is_sound(),
            None => true,
        }
    }
}

// Building expressions.

/// A column.
pub fn column(name: &str) -> (r: SqlExpr)
    ensures
        r.model() == Sql::Column(name@),
        r.model().sound(),
{
    SqlExpr::Column(name.to_owned())
}

/// A quoted text.
pub fn text(value: &str) -> (r: SqlExpr)
    ensures
        r.model() == Sql::Text(value@),
        r.model().sound(),
{
    SqlExpr::Text(value.to_owned())
}

/// SQL as it stands.
pub fn raw(sql: &str) -> (r: SqlExpr)
    ensures
        r.model() == Sql::Raw(sql@),
        r.model().sound(),
{
    SqlExpr::Raw(sql.to_owned())
}

/// A value as another type.
pub fn cast(e: SqlExpr, kind: &str) -> (r: SqlExpr)
    ensures
        r.model() == Sql::Cast(Box::new(e.model()), kind@),
        e.model().sound() ==> r.model().sound(),
{
    SqlExpr::Cast(Box::new(e), kind.to_owned())
}

/// A text in lower case.
pub fn lower(e: SqlExpr) -> (r: SqlExpr)
    ensures
        r.model() == Sql::Lower(Box::new(e.model())),
        e.model().sound() ==> r.model().sound(),
{
    SqlExpr::Lower(Box::new(e))
}

/// The opposite.
pub fn not(e: SqlExpr) -> (r: SqlExpr)
    ensures
        r.model() == Sql::Not(Box::new(e.model())),
        e.model().sound() ==> r.model().sound(),
{
    SqlExpr::Not(Box::new(e))
}

/// Two expressions with an operator between them.
pub fn infix(l: SqlExpr, op: Infix, right: SqlExpr) -> (r: SqlExpr)
    ensures
        r.model() == Sql::Binary(Box::new(l.model()), op, Box::new(right.model())),
        l.model().sound() && right.model().sound() ==> r.model().sound(),
{
    SqlExpr::Binary(Box::new(l), op, Box::new(right))
}

/// A boolean.
pub fn flag(value: bool) -> (r: SqlExpr)
    ensures
        r.model() == Sql::Flag(value),
        r.model().sound(),
{
    SqlExpr::Flag(value)
}

/// One of some texts.
pub fn among(e: SqlExpr, values: Vec<String>) -> (r: SqlExpr)
    ensures
        r.model() == Sql::Among(Box::new(e.model()), views(values@)),
        e.model().sound() ==> r.model().sound(),
{
    SqlExpr::Among(Box::new(e), values)
}

/// The second expression where the first holds, else null.
pub fn case(test: SqlExpr, result: SqlExpr) -> (r: SqlExpr)
    ensures
        r.model() == Sql::Case(Box::new(test.model()), Box::new(result.model())),
        test.model().sound() && result.model().sound() ==> r.model().sound(),
{
    SqlExpr::Case(Box::new(test), Box::new(result))
}

/// `name` applied to one argument.
pub fn call1(name: &str, a: SqlExpr) -> (r: SqlExpr)
    ensures
        r.model() == Sql::Call(name@, seq![a.model()]),
        a.model().sound() ==> r.model().sound(),
{
    let args = vec![a];
    assert(says(args@) =~= seq![a.model()]);
    assert(a.model().sound() ==> each_sound(says(args@)));
    SqlExpr::Call(name.to_owned(), args)
}

/// `name` applied to two arguments.
pub fn call2(name: &str, a: SqlExpr, b: SqlExpr) -> (r: SqlExpr)
    ensures
        r.model() == Sql::Call(name@, seq![a.model(), b.model()]),
        a.model().sound() && b.model().sound() ==> r.model().sound(),
{
    let args = vec![a, b];
    assert(says(args@) =~= seq![a.model(), b.model()]);
    assert(a.model().sound() && b.model().sound() ==> each_sound(says(args@)));
    SqlExpr::Call(name.to_owned(), args)
}

/// SQL with one slot.
pub fn template1(sql: &str, a: SqlExpr) -> (r: SqlExpr)
    ensures
        r.model() == Sql::Template(sql@, seq![a.model()]),
        a.model().sound() && slots_sound(sql@, 1) ==> r.model().sound(),
{
    let args = vec![a];
    assert(says(args@) =~= seq![a.model()]);
    assert(a.model().sound() ==> each_sound(says(args@)));
    SqlExpr::Template(sql.to_owned(), args)
}

/// SQL with two slots.
pub fn template2(sql: &str, a: SqlExpr, b: SqlExpr) -> (r: SqlExpr)
    ensures
        r.model() == Sql::Template(sql@, seq![a.model(), b.model()]),
        a.model().sound() && b.model().sound() && slots_sound(sql@, 2) ==> r.model().sound(),
{
    let args = vec![a, b];
    assert(says(args@) =~= seq![a.model(), b.model()]);
    assert(a.model().sound() && b.model().sound() ==> each_sound(says(args@)));
    SqlExpr::Template(sql.to_owned(), args)
}

/// What a select of one unnamed column from one relation says.
pub open spec fn select_from(column: Sql, from: RelationModel, filter: Option<Sql>) -> SelectModel {
    SelectModel {
        columns: seq![SelectedModel { expr: column, alias: None }],
        from: seq![from],
        filter,
        limit: None,
    }
}

impl Select {
    /// A select of one unnamed column from one relation.
    pub fn from(column: SqlExpr, from: Relation) -> (r: Select)
        ensures
            r.model() == select_from(column.model(), from.model(), None),
            column.model().sound() && from.model().sound() ==> r.model().sound(),
    {
        let r = Select {
            columns: vec![Selected { expr: column, alias: None }],
            from: vec![from],
            filter: None,
            limit: None,
        };
        assert(r.model().columns =~= seq![SelectedModel { expr: column.model(), alias: None }]);
        assert(r.model().from =~= seq![from.model()]);
        r
    }

    /// The same select, of those rows alone for which `filter` holds.
    pub fn keeping(self, filter: SqlExpr) -> (r: Select)
        ensures
            r.model() == (SelectModel { filter: Some(filter.model()), ..self.model() }),
            self.model().sound() && filter.model().sound() ==> r.model().sound(),
    {
        let r = Select {
            columns: self.columns,
            from: self.from,
            filter: Some(Box::new(filter)),
            limit: self.limit,
        };
        assert(r.model().columns =~= self.model().columns);
        assert(r.model().from =~= self.model().from);
        r
    }

    /// Everything that a table holds.
    pub fn all(table: &str) -> (r: Select)
        ensures
            r.model() == everything(table@),
            r.model().sound(),
    {
        Select::from(SqlExpr::Raw("*".to_owned()), Relation::Table(table.to_owned()))
    }
}

/// What a select of everything that a table holds says.
pub open spec fn everything(table: Seq<char>) -> SelectModel {
    select_from(Sql::Raw("*"@), RelationModel::Table(table), None)
}

} // verus!
