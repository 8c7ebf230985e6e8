//! What a condition means: which rows of a table it keeps, and what a filter is for.
//!
//! `says_of` reads a condition as the database does, over a row of which it is known what stands in
//! its cells and what the database's functions say of its geometry. The laws after it tell, in terms
//! of the row alone, which rows each filter keeps.

use vstd::prelude::*;

use crate::ast::{Infix, RelationModel, SelectModel, Sql};
use crate::filters::{
    a_value_is_taken_as_it_is, among_values, anchored, chained, column_at, compared, conditions,
    core_conditions, escaped, id_candidates, id_column, is_like, is_number, member_of, members,
    named_at, not_number_at, numeric_kind_of, operated, try_cast, CoreFilter, FilterError, FilterFn,
};
use crate::grammar::{answers, filter_at, filter_at_bounds, geometry_types, SegmentDef};
use crate::parexp::{
    count_tells_expansion, counted, expansion, integer_range, plain_text_stands_for_itself,
};
use crate::sql::{PipelineModel, PlanError};
use crate::text::{
    begins, ends, first_match, first_match_bounds, has_text, lowered, occurs, ordered, raised,
    stands_at, value,
};
use crate::url::SegmentModel;

verus! {

// Rows.

/// A decimal number: so many of so small parts, `10` to the power of `places` of which make one.
pub struct Amount {
    pub parts: int,
    pub places: nat,
}

/// Ten to a power.
pub open spec fn ten_to(n: nat) -> int
    decreases n,
{
    if n == 0 {
        1
    } else {
        10 * ten_to((n - 1) as nat)
    }
}

impl Amount {
    /// One number is smaller than another.
    pub open spec fn below(self, other: Amount) -> bool {
        self.parts * ten_to(other.places) < other.parts * ten_to(self.places)
    }

    /// Two numbers are the same.
    pub open spec fn equals(self, other: Amount) -> bool {
        self.parts * ten_to(other.places) == other.parts * ten_to(self.places)
    }

    /// A whole number.
    pub open spec fn whole(n: int) -> Amount {
        Amount { parts: n, places: 0 }
    }
}

/// The digits of a text, without its dot.
pub open spec fn digits_of(t: Seq<char>) -> Seq<char> {
    t.filter(|c: char| '0' <= c <= '9')
}

/// How many characters stand after the dot of a text.
pub open spec fn places_of(t: Seq<char>) -> nat {
    if t.contains('.') {
        (t.len() - 1 - t.index_of('.')) as nat
    } else {
        0
    }
}

/// The number that a text writes.
pub open spec fn amount_of(t: Seq<char>) -> Amount {
    let parts = value(digits_of(t)) as int;
    Amount {
        parts: if t.len() > 0 && t[0] == '-' {
            -parts
        } else {
            parts
        },
        places: places_of(t),
    }
}

/// What stands in a cell.
pub enum Cell {
    Null,
    /// A number, and the text that it becomes as text.
    Number(Amount, Seq<char>),
    Text(Seq<char>),
    Flag(bool),
}

impl Cell {
    /// What the cell becomes as text.
    pub open spec fn text(self) -> Option<Seq<char>> {
        match self {
            Cell::Number(_, text) => Some(text),
            Cell::Text(text) => Some(text),
            _ => None,
        }
    }
}

/// A row: what stands under each column, what the functions of the database say of its geometry
/// columns, and how the database lowers a text.
pub struct Row {
    pub cells: spec_fn(Seq<char>) -> Cell,
    pub geometry: spec_fn(Seq<char>, Seq<char>) -> Cell,
    pub lower: spec_fn(Seq<char>) -> Seq<char>,
}

// Conditions.

/// What an operator says of two cells: nothing where one is null or they do not compare.
pub open spec fn relates(l: Cell, op: Infix, r: Cell) -> Option<bool> {
    match (l, r) {
        (Cell::Number(a, _), Cell::Number(b, _)) => match op {
            Infix::Equal => Some(a.equals(b)),
            Infix::Greater => Some(b.below(a)),
            Infix::GreaterOrEqual => Some(!a.below(b)),
            Infix::Less => Some(a.below(b)),
            Infix::LessOrEqual => Some(!b.below(a)),
            Infix::And => None,
        },
        (Cell::Text(a), Cell::Text(b)) => match op {
            Infix::Equal => Some(a == b),
            Infix::Greater => Some(!ordered(a, b)),
            Infix::GreaterOrEqual => Some(ordered(b, a)),
            Infix::Less => Some(!ordered(b, a)),
            Infix::LessOrEqual => Some(ordered(a, b)),
            Infix::And => None,
        },
        (Cell::Flag(a), Cell::Flag(b)) => match op {
            Infix::Equal => Some(a == b),
            Infix::And => Some(a && b),
            _ => None,
        },
        // what is false stays false whatever the other is
        (Cell::Flag(false), _) | (_, Cell::Flag(false)) => if op == Infix::And {
            Some(false)
        } else {
            None
        },
        _ => None,
    }
}

/// What may be said or not, as a cell.
pub open spec fn flag(said: Option<bool>) -> Cell {
    match said {
        Some(b) => Cell::Flag(b),
        None => Cell::Null,
    }
}

/// What a value that the table function hands out becomes where the select reads it as a number, or
/// as it is.
pub open spec fn handed_out(column: Sql, v: Seq<char>) -> Cell {
    match column {
        Sql::Column(name) => if name == "v"@ {
            Cell::Text(v)
        } else {
            Cell::Null
        },
        Sql::Template(t, args) => if begins(t, "TRY_CAST($1 AS "@) && ends(t, ")"@) && args
            == seq![Sql::Column("v"@)] && is_number(v) {
            Cell::Number(amount_of(v), v)
        } else {
            Cell::Null
        },
        _ => Cell::Null,
    }
}

/// A select keeps a value that the table function hands out.
pub open spec fn passes(filter: Option<Sql>, v: Seq<char>) -> bool {
    match filter {
        None => true,
        Some(Sql::IsNotNull(column)) => !(handed_out(*column, v) is Null),
        Some(Sql::IsNull(column)) => handed_out(*column, v) is Null,
        Some(_) => false,
    }
}

/// A cell is one of the values that a select yields of the table function's.
pub open spec fn is_within(l: Cell, query: SelectModel) -> Option<bool> {
    if l is Null || query.columns.len() != 1 || query.from.len() != 1 || query.limit is Some {
        None
    } else {
        match query.from[0] {
            RelationModel::Function(name, args, _) => match args {
                _ if name == "parexp"@ && args.len() == 1 && args[0] is Text => Some(
                    exists|i: int|
                        0 <= i < expansion(args[0]->Text_0).len() && passes(
                            query.filter,
                            expansion(args[0]->Text_0)[i],
                        ) && relates(
                            l,
                            Infix::Equal,
                            handed_out(
                                query.columns[0].expr,
                                #[trigger] expansion(args[0]->Text_0)[i],
                            ),
                        ) == Some(true),
                ),
                _ => None,
            },
            _ => None,
        }
    }
}

/// What an expression says of a row.
pub open spec fn says_of(e: Sql, row: Row) -> Cell
    decreases e,
{
    match e {
        Sql::Column(name) => (row.cells)(name),
        Sql::Text(t) => Cell::Text(t),
        Sql::Raw(t) => if is_number(t) {
            Cell::Number(amount_of(t), t)
        } else {
            Cell::Null
        },
        Sql::Flag(b) => Cell::Flag(b),
        Sql::Cast(inner, kind) => match says_of(*inner, row).text() {
            Some(t) if kind == "VARCHAR"@ => Cell::Text(t),
            _ => Cell::Null,
        },
        Sql::Lower(inner) => match says_of(*inner, row) {
            Cell::Text(t) => Cell::Text((row.lower)(t)),
            _ => Cell::Null,
        },
        Sql::Call(function, args) => if args.len() == 1 && args[0] is Column {
            (row.geometry)(function, args[0]->Column_0)
        } else {
            Cell::Null
        },
        Sql::Case(when, result) => if says_of(*when, row) == Cell::Flag(true) {
            says_of(*result, row)
        } else {
            Cell::Null
        },
        Sql::Not(inner) => match says_of(*inner, row) {
            Cell::Flag(b) => Cell::Flag(!b),
            _ => Cell::Null,
        },
        Sql::IsNull(inner) => Cell::Flag(says_of(*inner, row) is Null),
        Sql::IsNotNull(inner) => Cell::Flag(!(says_of(*inner, row) is Null)),
        Sql::Binary(l, op, r) => flag(relates(says_of(*l, row), op, says_of(*r, row))),
        Sql::Between(inner, lo, hi) => match says_of(*inner, row) {
            Cell::Number(a, _) => Cell::Flag(
                !a.below(Amount::whole(lo)) && !Amount::whole(hi).below(a),
            ),
            _ => Cell::Null,
        },
        Sql::Among(inner, texts) => match says_of(*inner, row) {
            Cell::Text(t) => Cell::Flag(texts.contains(t)),
            _ => Cell::Null,
        },
        Sql::Like(inner, pattern) => match says_of(*inner, row) {
            Cell::Text(t) => Cell::Flag(is_like(pattern, t)),
            _ => Cell::Null,
        },
        Sql::Within(inner, query) => flag(is_within(says_of(*inner, row), *query)),
        Sql::Template(t, args) => if t == "LOWER($1) LIKE LOWER($2) ESCAPE '\\'"@ && args.len()
            == 2 {
            match (says_of(args[0], row), says_of(args[1], row)) {
                (Cell::Text(a), Cell::Text(b)) => Cell::Flag(
                    is_like((row.lower)(b), (row.lower)(a)),
                ),
                _ => Cell::Null,
            }
        } else {
            Cell::Null
        },
        _ => Cell::Null,
    }
}

/// A condition keeps a row.
pub open spec fn keeps(e: Sql, row: Row) -> bool {
    says_of(e, row) == Cell::Flag(true)
}

// Which columns hold numbers.

/// The types whose columns hold numbers.
pub open spec fn number_types() -> Seq<Seq<char>> {
    seq![
        "TINYINT"@,
        "SMALLINT"@,
        "INTEGER"@,
        "BIGINT"@,
        "HUGEINT"@,
        "UTINYINT"@,
        "USMALLINT"@,
        "UINTEGER"@,
        "UBIGINT"@,
        "UHUGEINT"@,
        "DECIMAL"@,
        "NUMERIC"@,
        "FLOAT"@,
        "DOUBLE"@,
        "REAL"@,
    ]
}

/// A column of this type holds numbers: it is one of the types of numbers, by itself or with
/// something in parentheses after it.
pub open spec fn holds_numbers(kind: Seq<char>) -> bool {
    exists|i: int|
        0 <= i < number_types().len() && ({
            let base = #[trigger] number_types()[i];
            ||| kind == base
            ||| kind == base.push('(')
            ||| begins(kind, base.push('(')) && kind.last() == ')'
        })
}

proof fn base_is_found(kind: Seq<char>, base: Seq<char>)
    requires
        !occurs(base, '('),
        kind == base || begins(kind, base.push('(')),
    ensures
        first_match(kind, "("@, 0) == base.len(),
        kind.take(base.len() as int) == base,
{
    reveal_strlit("(");
    first_match_bounds(kind, "("@, 0);
    let at = first_match(kind, "("@, 0);
    let n = base.len() as int;
    assert("("@ =~= seq!['(']);
    if kind == base {
        if at < kind.len() {
            assert(kind.subrange(at, at + 1)[0] == '(');
            assert(base[at] == '(');
        }
        assert(kind.take(n) =~= base);
    } else {
        assert(kind.subrange(0, n + 1) == base.push('('));
        assert(kind.subrange(0, n + 1)[n] == '(');
        assert(kind.subrange(n, n + 1) =~= seq!['(']);
        assert(stands_at(kind, "("@, n));
        if at < n {
            assert(kind.subrange(at, at + 1)[0] == '(');
            assert(kind.subrange(0, n + 1)[at] == base[at]);
            assert(base[at] == '(');
        }
        assert(kind.take(n) =~= kind.subrange(0, n + 1).take(n));
        assert(base.push('(').take(n) =~= base);
    }
}

proof fn types_are_plain()
    ensures
        forall|i: int| 0 <= i < number_types().len() ==> !occurs(#[trigger] number_types()[i], '('),
        forall|i: int| 0 <= i < number_types().len() ==> (#[trigger] number_types()[i]).len() > 0,
{
    reveal_strlit("TINYINT");
    reveal_strlit("SMALLINT");
    reveal_strlit("INTEGER");
    reveal_strlit("BIGINT");
    reveal_strlit("HUGEINT");
    reveal_strlit("UTINYINT");
    reveal_strlit("USMALLINT");
    reveal_strlit("UINTEGER");
    reveal_strlit("UBIGINT");
    reveal_strlit("UHUGEINT");
    reveal_strlit("DECIMAL");
    reveal_strlit("NUMERIC");
    reveal_strlit("FLOAT");
    reveal_strlit("DOUBLE");
    reveal_strlit("REAL");
}

/// A column is compared by value exactly where its type is one of the types of numbers.
pub proof fn numbers_are_told_by_their_type(kind: Seq<char>)
    ensures
        numeric_kind_of(kind) is Some <==> holds_numbers(kind),
{
    types_are_plain();
    reveal_strlit("(");
    first_match_bounds(kind, "("@, 0);
    let at = first_match(kind, "("@, 0);
    let name = kind.take(at);
    let all = number_types();
    assert("("@ =~= seq!['(']);
    assert(all[0] == "TINYINT"@);
    assert(all[1] == "SMALLINT"@);
    assert(all[2] == "INTEGER"@);
    assert(all[3] == "BIGINT"@);
    assert(all[4] == "HUGEINT"@);
    assert(all[5] == "UTINYINT"@);
    assert(all[6] == "USMALLINT"@);
    assert(all[7] == "UINTEGER"@);
    assert(all[8] == "UBIGINT"@);
    assert(all[9] == "UHUGEINT"@);
    assert(all[10] == "DECIMAL"@);
    assert(all[11] == "NUMERIC"@);
    assert(all[12] == "FLOAT"@);
    assert(all[13] == "DOUBLE"@);
    assert(all[14] == "REAL"@);
    if holds_numbers(kind) {
        let i = choose|i: int|
            0 <= i < all.len() && ({
                let base = #[trigger] all[i];
                ||| kind == base
                ||| kind == base.push('(')
                ||| begins(kind, base.push('(')) && kind.last() == ')'
            });
        let base = all[i];
        if kind == base.push('(') {
            assert(kind.subrange(0, kind.len() as int) =~= kind);
            assert(begins(kind, base.push('(')));
        }
        base_is_found(kind, base);
        assert(name == base);
    }
    if numeric_kind_of(kind) is Some {
        assert(all.contains(name));
        let i = choose|i: int| 0 <= i < all.len() && all[i] == name;
        if at == kind.len() {
            assert(name =~= kind);
        } else {
            assert(kind.subrange(at, at + 1)[0] == '(');
            assert(kind.subrange(0, at + 1) =~= name.push('('));
            assert(begins(kind, name.push('(')));
            if at + 1 == kind.len() {
                assert(kind =~= name.push('('));
            }
        }
        assert(all[i] == name);
    }
}

// Comparisons.

proof fn operators_are_these()
    ensures
        "null"@.len() == 4 && "null"@[0] == 'n' && "null"@[1] == 'u' && "null"@[2] == 'l',
        "notnull"@.len() == 7 && "notnull"@[0] == 'n' && "notnull"@[1] == 'o' && "notnull"@[2] == 't',
        "eq"@.len() == 2 && "eq"@[0] == 'e' && "eq"@[1] == 'q',
        "in"@.len() == 2 && "in"@[0] == 'i' && "in"@[1] == 'n',
        "ne"@.len() == 2 && "ne"@[0] == 'n' && "ne"@[1] == 'e',
        "nin"@.len() == 3 && "nin"@[0] == 'n' && "nin"@[1] == 'i' && "nin"@[2] == 'n',
        "ieq"@.len() == 3 && "ieq"@[0] == 'i' && "ieq"@[1] == 'e' && "ieq"@[2] == 'q',
        "gt"@.len() == 2 && "gt"@[0] == 'g' && "gt"@[1] == 't',
        "gte"@.len() == 3 && "gte"@[0] == 'g' && "gte"@[1] == 't' && "gte"@[2] == 'e',
        "lt"@.len() == 2 && "lt"@[0] == 'l' && "lt"@[1] == 't',
        "lte"@.len() == 3 && "lte"@[0] == 'l' && "lte"@[1] == 't' && "lte"@[2] == 'e',
        "sw"@.len() == 2 && "sw"@[0] == 's' && "sw"@[1] == 'w',
        "ew"@.len() == 2 && "ew"@[0] == 'e' && "ew"@[1] == 'w',
        "ct"@.len() == 2 && "ct"@[0] == 'c' && "ct"@[1] == 't',
        "isw"@.len() == 3 && "isw"@[0] == 'i' && "isw"@[1] == 's' && "isw"@[2] == 'w',
        "iew"@.len() == 3 && "iew"@[0] == 'i' && "iew"@[1] == 'e' && "iew"@[2] == 'w',
        "ict"@.len() == 3 && "ict"@[0] == 'i' && "ict"@[1] == 'c' && "ict"@[2] == 't',
{
    reveal_strlit("null");
    reveal_strlit("notnull");
    reveal_strlit("eq");
    reveal_strlit("in");
    reveal_strlit("ne");
    reveal_strlit("nin");
    reveal_strlit("ieq");
    reveal_strlit("gt");
    reveal_strlit("gte");
    reveal_strlit("lt");
    reveal_strlit("lte");
    reveal_strlit("sw");
    reveal_strlit("ew");
    reveal_strlit("ct");
    reveal_strlit("isw");
    reveal_strlit("iew");
    reveal_strlit("ict");
}

/// A number stands for itself.
proof fn number_stands_for_itself(v: Seq<char>)
    requires
        is_number(v),
    ensures
        expansion(v) == seq![v],
        counted(v, true, 0) == 1,
        integer_range(v) is None,
        v.len() > 0,
{
    let body = if v.len() > 0 && v[0] == '-' {
        v.skip(1)
    } else {
        v
    };
    let off = v.len() - body.len();
    let dots = seq!['.', '.'];
    assert forall|i: int| 0 <= i < v.len() implies ('0' <= #[trigger] v[i] <= '9' || v[i] == '.' || v[i]
        == '-') by {
        if i >= off {
            assert(body[i - off] == v[i]);
        }
    }
    first_match_bounds(v, dots, 0);
    let at = first_match(v, dots, 0);
    if at < v.len() {
        assert(v.subrange(at, at + 2)[0] == '.' && v.subrange(at, at + 2)[1] == '.');
        assert(v[at] == '.' && v[at + 1] == '.');
        assert(at >= off);
        assert(body[at - off] == '.' && body[at + 1 - off] == '.');
    }
    let i = choose|i: int| 0 <= i < body.len() && '0' <= #[trigger] body[i] <= '9';
    assert(v.len() > 0);
    plain_text_stands_for_itself(v);
}

proof fn with_operator(
    column: (Seq<char>, Seq<char>),
    operator: Seq<char>,
    v: Seq<char>,
    filter: Seq<char>,
)
    ensures
        compared(column, seq![operator, v], filter) == operated(
            Sql::Column(column.0),
            column.1,
            operator,
            v,
        ),
{
    let params = seq![operator, v];
    assert(params[0] == operator && params[1] == v && params.len() == 2);
}

proof fn between_says(l: Sql, op: Infix, r: Sql, row: Row)
    ensures
        says_of(Sql::Binary(Box::new(l), op, Box::new(r)), row) == flag(
            relates(says_of(l, row), op, says_of(r, row)),
        ),
{
}

proof fn one_number(column: (Seq<char>, Seq<char>), v: Seq<char>)
    requires
        holds_numbers(column.1),
        is_number(v),
    ensures
        among_values(Sql::Column(column.0), column.1, v) == Ok::<_, FilterError<Seq<char>>>(
            Sql::Binary(
                Box::new(Sql::Column(column.0)),
                Infix::Equal,
                Box::new(Sql::Raw(v)),
            ),
        ),
{
    numbers_are_told_by_their_type(column.1);
    number_stands_for_itself(v);
    let values = expansion(v);
    assert(values[0] == v && values.len() == 1);
    reveal_with_fuel(not_number_at, 2);
    assert(not_number_at(values, 0) == 1);
}

/// A column that holds numbers is compared by value: each operator keeps the rows whose number
/// stands to the given one as its name says, and what is no number is refused.
pub proof fn numbers_are_compared_by_value(
    column: (Seq<char>, Seq<char>),
    row: Row,
    x: Amount,
    written: Seq<char>,
    v: Seq<char>,
    filter: Seq<char>,
)
    requires
        holds_numbers(column.1),
        (row.cells)(column.0) == Cell::Number(x, written),
        is_number(v),
    ensures
        compared(column, seq!["gt"@, v], filter) matches Ok(e) && (keeps(e, row) <==> amount_of(
            v,
        ).below(x)),
        compared(column, seq!["gte"@, v], filter) matches Ok(e) && (keeps(e, row)
            <==> !x.below(amount_of(v))),
        compared(column, seq!["lt"@, v], filter) matches Ok(e) && (keeps(e, row) <==> x.below(
            amount_of(v),
        )),
        compared(column, seq!["lte"@, v], filter) matches Ok(e) && (keeps(e, row)
            <==> !amount_of(v).below(x)),
        compared(column, seq!["eq"@, v], filter) matches Ok(e) && (keeps(e, row) <==> x.equals(
            amount_of(v),
        )),
        compared(column, seq!["ne"@, v], filter) matches Ok(e) && (keeps(e, row)
            <==> !x.equals(amount_of(v))),
{
    operators_are_these();
    numbers_are_told_by_their_type(column.1);
    number_stands_for_itself(v);
    let own = Sql::Column(column.0);
    let given = Sql::Raw(v);
    with_operator(column, "gt"@, v, filter);
    with_operator(column, "gte"@, v, filter);
    with_operator(column, "lt"@, v, filter);
    with_operator(column, "lte"@, v, filter);
    with_operator(column, "eq"@, v, filter);
    with_operator(column, "ne"@, v, filter);
    one_number(column, v);
    assert(expansion(v)[0] == v);
    between_says(own, Infix::Greater, given, row);
    between_says(own, Infix::GreaterOrEqual, given, row);
    between_says(own, Infix::Less, given, row);
    between_says(own, Infix::LessOrEqual, given, row);
    between_says(own, Infix::Equal, given, row);
    let equal = Sql::Binary(Box::new(own), Infix::Equal, Box::new(given));
    assert(says_of(Sql::Not(Box::new(equal)), row) == (match says_of(equal, row) {
        Cell::Flag(b) => Cell::Flag(!b),
        _ => Cell::Null,
    }));
}

proof fn as_text_says(inner: Sql, row: Row)
    ensures
        says_of(Sql::Cast(Box::new(inner), "VARCHAR"@), row) == (match says_of(inner, row).text() {
            Some(t) => Cell::Text(t),
            None => Cell::Null,
        }),
{
}

proof fn opposite_says(e: Sql, row: Row)
    ensures
        says_of(Sql::Not(Box::new(e)), row) == (match says_of(e, row) {
            Cell::Flag(b) => Cell::Flag(!b),
            _ => Cell::Null,
        }),
{
}

proof fn like_says(inner: Sql, pattern: Seq<char>, row: Row)
    ensures
        says_of(Sql::Like(Box::new(inner), pattern), row) == (match says_of(inner, row) {
            Cell::Text(t) => Cell::Flag(is_like(pattern, t)),
            _ => Cell::Null,
        }),
{
}

proof fn lower_says(inner: Sql, row: Row)
    ensures
        says_of(Sql::Lower(Box::new(inner)), row) == (match says_of(inner, row) {
            Cell::Text(t) => Cell::Text((row.lower)(t)),
            _ => Cell::Null,
        }),
{
}

/// A column of any other type is compared by its text with the one value that a pattern stands
/// for: each operator keeps the rows whose text stands to it as its name says.
pub proof fn texts_are_compared_in_order(
    column: (Seq<char>, Seq<char>),
    row: Row,
    t: Seq<char>,
    pattern: Seq<char>,
    w: Seq<char>,
    filter: Seq<char>,
)
    requires
        !holds_numbers(column.1),
        (row.cells)(column.0).text() == Some(t),
        counted(pattern, true, 0) == 1,
        expansion(pattern) == seq![w],
    ensures
        compared(column, seq!["gt"@, pattern], filter) matches Ok(e) && (keeps(e, row)
            <==> !ordered(t, w)),
        compared(column, seq!["gte"@, pattern], filter) matches Ok(e) && (keeps(e, row)
            <==> ordered(w, t)),
        compared(column, seq!["lt"@, pattern], filter) matches Ok(e) && (keeps(e, row)
            <==> !ordered(w, t)),
        compared(column, seq!["lte"@, pattern], filter) matches Ok(e) && (keeps(e, row)
            <==> ordered(t, w)),
        compared(column, seq!["eq"@, pattern], filter) matches Ok(e) && (keeps(e, row) <==> t == w),
        compared(column, seq!["ne"@, pattern], filter) matches Ok(e) && (keeps(e, row) <==> t != w),
{
    operators_are_these();
    numbers_are_told_by_their_type(column.1);
    let own = Sql::Column(column.0);
    let text = Sql::Cast(Box::new(own), "VARCHAR"@);
    let given = Sql::Text(w);
    with_operator(column, "gt"@, pattern, filter);
    with_operator(column, "gte"@, pattern, filter);
    with_operator(column, "lt"@, pattern, filter);
    with_operator(column, "lte"@, pattern, filter);
    with_operator(column, "eq"@, pattern, filter);
    with_operator(column, "ne"@, pattern, filter);
    assert(expansion(pattern)[0] == w && expansion(pattern).len() == 1);
    as_text_says(own, row);
    between_says(text, Infix::Greater, given, row);
    between_says(text, Infix::GreaterOrEqual, given, row);
    between_says(text, Infix::Less, given, row);
    between_says(text, Infix::LessOrEqual, given, row);
    between_says(text, Infix::Equal, given, row);
    let equal = Sql::Binary(Box::new(text), Infix::Equal, Box::new(given));
    assert(among_values(own, column.1, pattern) == Ok::<_, FilterError<Seq<char>>>(equal));
    opposite_says(equal, row);
}

/// The database lowers a text character by character, and neither makes nor changes a sign that a
/// pattern gives a meaning to.
pub open spec fn lowers_by_character(lower: spec_fn(Seq<char>) -> Seq<char>) -> bool {
    exists|f: spec_fn(char) -> char| #[trigger] lowers_by(lower, f)
}

/// The database lowers each character by `f`.
pub open spec fn lowers_by(lower: spec_fn(Seq<char>) -> Seq<char>, f: spec_fn(char) -> char) -> bool {
    &&& forall|s: Seq<char>| #[trigger] lower(s) == s.map_values(f)
    &&& f('%') == '%' && f('_') == '_' && f('\\') == '\\'
    &&& forall|c: char|
        (#[trigger] f(c) == '%' || f(c) == '_' || f(c) == '\\') ==> f(c) == c
}

proof fn escaped_then_lowered(v: Seq<char>, f: spec_fn(char) -> char)
    requires
        f('\\') == '\\',
        forall|c: char| (#[trigger] f(c) == '%' || f(c) == '_' || f(c) == '\\') ==> f(c) == c,
        f('%') == '%' && f('_') == '_',
    ensures
        escaped(v).map_values(f) == escaped(v.map_values(f)),
    decreases v.len(),
{
    if v.len() == 0 {
        assert(escaped(v).map_values(f) =~= escaped(v.map_values(f)));
    } else {
        escaped_then_lowered(v.drop_last(), f);
        let m = v.map_values(f);
        assert(m.drop_last() =~= v.drop_last().map_values(f));
        assert(m.last() == f(v.last()));
        assert(escaped(v).map_values(f) =~= escaped(m));
    }
}

/// `sw`, `ew` and `ct` keep the rows whose text begins with the value, ends with it or holds it,
/// whatever characters it has; `ieq`, `isw`, `iew` and `ict` do so in either case.
pub proof fn texts_are_searched_as_they_are(
    column: (Seq<char>, Seq<char>),
    row: Row,
    t: Seq<char>,
    pattern: Seq<char>,
    w: Seq<char>,
    filter: Seq<char>,
)
    requires
        (row.cells)(column.0).text() == Some(t),
        counted(pattern, true, 0) == 1,
        expansion(pattern) == seq![w],
    ensures
        compared(column, seq!["sw"@, pattern], filter) matches Ok(e) && (keeps(e, row)
            <==> begins(t, w)),
        compared(column, seq!["ew"@, pattern], filter) matches Ok(e) && (keeps(e, row) <==> ends(
            t,
            w,
        )),
        compared(column, seq!["ct"@, pattern], filter) matches Ok(e) && (keeps(e, row)
            <==> has_text(t, w)),
        compared(column, seq!["ieq"@, pattern], filter) matches Ok(e) && (keeps(e, row)
            <==> (row.lower)(t) == (row.lower)(w)),
        lowers_by_character(row.lower) ==> {
            &&& compared(column, seq!["isw"@, pattern], filter) matches Ok(e) && (keeps(e, row)
                <==> begins((row.lower)(t), (row.lower)(w)))
            &&& compared(column, seq!["iew"@, pattern], filter) matches Ok(e) && (keeps(e, row)
                <==> ends((row.lower)(t), (row.lower)(w)))
            &&& compared(column, seq!["ict"@, pattern], filter) matches Ok(e) && (keeps(e, row)
                <==> has_text((row.lower)(t), (row.lower)(w)))
        },
{
    operators_are_these();
    let own = Sql::Column(column.0);
    let text = Sql::Cast(Box::new(own), "VARCHAR"@);
    as_text_says(own, row);
    assert(expansion(pattern)[0] == w && expansion(pattern).len() == 1);
    with_operator(column, "sw"@, pattern, filter);
    with_operator(column, "ew"@, pattern, filter);
    with_operator(column, "ct"@, pattern, filter);
    with_operator(column, "ieq"@, pattern, filter);
    a_value_is_taken_as_it_is(w, t);
    like_says(text, anchored("sw"@, w), row);
    like_says(text, anchored("ew"@, w), row);
    like_says(text, anchored("ct"@, w), row);
    lower_says(text, row);
    lower_says(Sql::Text(w), row);
    between_says(
        Sql::Lower(Box::new(text)),
        Infix::Equal,
        Sql::Lower(Box::new(Sql::Text(w))),
        row,
    );
    if lowers_by_character(row.lower) {
        let f = choose|f: spec_fn(char) -> char| #[trigger] lowers_by(row.lower, f);
        searched_in_either_case(column, row, t, pattern, w, filter, "isw"@, "sw"@, f);
        searched_in_either_case(column, row, t, pattern, w, filter, "iew"@, "ew"@, f);
        searched_in_either_case(column, row, t, pattern, w, filter, "ict"@, "ct"@, f);
        a_value_is_taken_as_it_is((row.lower)(w), (row.lower)(t));
    }
}

proof fn searched_in_either_case(
    column: (Seq<char>, Seq<char>),
    row: Row,
    t: Seq<char>,
    pattern: Seq<char>,
    w: Seq<char>,
    filter: Seq<char>,
    operator: Seq<char>,
    inner: Seq<char>,
    f: spec_fn(char) -> char,
)
    requires
        (row.cells)(column.0).text() == Some(t),
        counted(pattern, true, 0) == 1,
        expansion(pattern) == seq![w],
        lowers_by(row.lower, f),
        operator == "isw"@ && inner == "sw"@ || operator == "iew"@ && inner == "ew"@ || operator
            == "ict"@ && inner == "ct"@,
    ensures
        compared(column, seq![operator, pattern], filter) matches Ok(e) && (keeps(e, row)
            <==> is_like(anchored(inner, (row.lower)(w)), (row.lower)(t))),
{
    operators_are_these();
    let own = Sql::Column(column.0);
    let text = Sql::Cast(Box::new(own), "VARCHAR"@);
    as_text_says(own, row);
    with_operator(column, operator, pattern, filter);
    assert(expansion(pattern)[0] == w && expansion(pattern).len() == 1);
    assert(operator.skip(1) =~= inner);
    escaped_then_lowered(w, f);
    assert((row.lower)(anchored(inner, w)) =~= anchored(inner, (row.lower)(w)));
    let args = seq![text, Sql::Text(anchored(inner, w))];
    let e = Sql::Template("LOWER($1) LIKE LOWER($2) ESCAPE '\\'"@, args);
    assert(args[0] == text && args[1] == Sql::Text(anchored(inner, w)) && args.len() == 2);
    assert(says_of(args[0], row) == Cell::Text(t));
    assert(says_of(args[1], row) == Cell::Text(anchored(inner, w)));
    assert(says_of(e, row) == Cell::Flag(
        is_like((row.lower)(anchored(inner, w)), (row.lower)(t)),
    ));
}

proof fn column_says(name: Seq<char>, row: Row)
    ensures
        says_of(Sql::Column(name), row) == (row.cells)(name),
        says_of(Sql::IsNull(Box::new(Sql::Column(name))), row) == Cell::Flag(
            (row.cells)(name) is Null,
        ),
        says_of(Sql::IsNotNull(Box::new(Sql::Column(name))), row) == Cell::Flag(
            !((row.cells)(name) is Null),
        ),
{
    reveal_with_fuel(says_of, 2);
}

proof fn range_says(inner: Sql, lo: int, hi: int, row: Row)
    ensures
        says_of(Sql::Between(Box::new(inner), lo, hi), row) == (match says_of(inner, row) {
            Cell::Number(a, _) => Cell::Flag(
                !a.below(Amount::whole(lo)) && !Amount::whole(hi).below(a),
            ),
            _ => Cell::Null,
        }),
{
}

proof fn within_says(inner: Sql, query: SelectModel, row: Row)
    ensures
        says_of(Sql::Within(Box::new(inner), Box::new(query)), row) == flag(
            is_within(says_of(inner, row), query),
        ),
{
}

/// A column that holds no numbers is one of the values of a pattern exactly where its text is, as
/// far as there are no more than ten thousand of them; more are refused.
pub proof fn texts_are_looked_up_in_lists(
    column: (Seq<char>, Seq<char>),
    row: Row,
    t: Seq<char>,
    pattern: Seq<char>,
    filter: Seq<char>,
)
    requires
        !holds_numbers(column.1),
        (row.cells)(column.0).text() == Some(t),
    ensures
        counted(pattern, true, 0) <= 10_000 ==> {
            &&& compared(column, seq!["in"@, pattern], filter) matches Ok(e) && (keeps(e, row)
                <==> expansion(pattern).contains(t))
            &&& compared(column, seq!["nin"@, pattern], filter) matches Ok(e) && (keeps(e, row)
                <==> !expansion(pattern).contains(t))
        },
        counted(pattern, true, 0) > 10_000 ==> compared(column, seq!["in"@, pattern], filter)
            == Err::<Sql, _>(FilterError::ExpansionTooLarge(pattern)) && compared(
            column,
            seq!["nin"@, pattern],
            filter,
        ) == Err::<Sql, _>(FilterError::ExpansionTooLarge(pattern)),
{
    operators_are_these();
    numbers_are_told_by_their_type(column.1);
    count_tells_expansion(pattern);
    let own = Sql::Column(column.0);
    let text = Sql::Cast(Box::new(own), "VARCHAR"@);
    let values = expansion(pattern);
    with_operator(column, "in"@, pattern, filter);
    with_operator(column, "nin"@, pattern, filter);
    as_text_says(own, row);
    if counted(pattern, true, 0) <= 10_000 {
        let e = among_values(own, column.1, pattern)->Ok_0;
        opposite_says(e, row);
        if values.len() == 1 {
            between_says(text, Infix::Equal, Sql::Text(values[0]), row);
            if values.contains(t) {
                assert(values[0] == t);
            }
        } else {
            let query = members(column.1, pattern);
            within_says(text, query, row);
            assert(e == Sql::Within(Box::new(text), Box::new(query)));
            assert(query.columns[0].expr == Sql::Column("v"@));
            assert(query.from[0] == RelationModel::Function(
                "parexp"@,
                seq![Sql::Text(pattern)],
                "expanded"@,
            ));
            assert(seq![Sql::Text(pattern)][0] == Sql::Text(pattern));
            if values.contains(t) {
                let i = choose|i: int| 0 <= i < values.len() && values[i] == t;
                assert(handed_out(query.columns[0].expr, values[i]) == Cell::Text(t));
                assert(passes(query.filter, values[i]));
            }
            assert(is_within(Cell::Text(t), query) == Some(values.contains(t)));
        }
    }
}

proof fn read_as_a_number(kind: Seq<char>, v: Seq<char>)
    requires
        is_number(v),
        holds_numbers(kind),
    ensures
        handed_out(member_of(kind), v) == Cell::Number(amount_of(v), v),
{
    numbers_are_told_by_their_type(kind);
    let t = try_cast(kind);
    let head = "TRY_CAST($1 AS "@;
    let tail = ")"@;
    reveal_strlit(")");
    assert(t.subrange(0, head.len() as int) =~= head);
    assert(t.subrange(t.len() - 1, t.len() as int) =~= tail);
    assert(seq![Sql::Column("v"@)] =~= seq![Sql::Column("v"@)]);
}

/// A column that holds numbers is one of the values of a pattern exactly where its number is, and
/// in a plain range exactly where it lies between the ends, both included. A value that is no
/// number is refused, and so are more than ten thousand of them.
pub proof fn numbers_are_looked_up_in_lists(
    column: (Seq<char>, Seq<char>),
    row: Row,
    x: Amount,
    written: Seq<char>,
    pattern: Seq<char>,
    filter: Seq<char>,
)
    requires
        holds_numbers(column.1),
        (row.cells)(column.0) == Cell::Number(x, written),
    ensures
        match integer_range(pattern) {
            Some((lo, hi)) => {
                &&& compared(column, seq!["in"@, pattern], filter) matches Ok(e) && (keeps(e, row)
                    <==> !x.below(Amount::whole(lo as int)) && !Amount::whole(hi as int).below(x))
                &&& compared(column, seq!["nin"@, pattern], filter) matches Ok(e) && (keeps(e, row)
                    <==> x.below(Amount::whole(lo as int)) || Amount::whole(hi as int).below(x))
            },
            None => if counted(pattern, true, 0) > 10_000 {
                compared(column, seq!["in"@, pattern], filter) == Err::<Sql, _>(
                    FilterError::ExpansionTooLarge(pattern),
                )
            } else if forall|i: int|
                0 <= i < expansion(pattern).len() ==> is_number(#[trigger] expansion(pattern)[i]) {
                &&& compared(column, seq!["in"@, pattern], filter) matches Ok(e) && (keeps(e, row)
                    <==> exists|i: int|
                    0 <= i < expansion(pattern).len() && x.equals(
                        amount_of(#[trigger] expansion(pattern)[i]),
                    ))
                &&& compared(column, seq!["nin"@, pattern], filter) matches Ok(e) && (keeps(e, row)
                    <==> forall|i: int|
                    0 <= i < expansion(pattern).len() ==> !x.equals(
                        amount_of(#[trigger] expansion(pattern)[i]),
                    ))
            } else {
                compared(column, seq!["in"@, pattern], filter) matches Err(
                    FilterError::NotANumber(v),
                ) && expansion(pattern).contains(v) && !is_number(v)
            },
        },
{
    operators_are_these();
    numbers_are_told_by_their_type(column.1);
    count_tells_expansion(pattern);
    let own = Sql::Column(column.0);
    let values = expansion(pattern);
    with_operator(column, "in"@, pattern, filter);
    with_operator(column, "nin"@, pattern, filter);
    first_that_is_none(values, 0);
    let bad = not_number_at(values, 0);
    match integer_range(pattern) {
        Some((lo, hi)) => {
            let e = Sql::Between(Box::new(own), lo as int, hi as int);
            opposite_says(e, row);
            column_says(column.0, row);
            range_says(own, lo as int, hi as int, row);
        },
        None => if counted(pattern, true, 0) <= 10_000 && bad == values.len() {
            let e = among_values(own, column.1, pattern)->Ok_0;
            opposite_says(e, row);
            if values.len() == 1 {
                between_says(own, Infix::Equal, Sql::Raw(values[0]), row);
                assert(is_number(values[0]));
            } else {
                let query = members(column.1, pattern);
                within_says(own, query, row);
                assert(e == Sql::Within(Box::new(own), Box::new(query)));
                assert(query.columns[0].expr == member_of(column.1));
                assert(query.from[0] == RelationModel::Function(
                    "parexp"@,
                    seq![Sql::Text(pattern)],
                    "expanded"@,
                ));
                assert(seq![Sql::Text(pattern)][0] == Sql::Text(pattern));
                assert forall|i: int| 0 <= i < values.len() implies handed_out(
                    member_of(column.1),
                    #[trigger] values[i],
                ) == Cell::Number(amount_of(values[i]), values[i]) && passes(
                    query.filter,
                    values[i],
                ) by {
                    read_as_a_number(column.1, values[i]);
                }
                let cell = Cell::Number(x, written);
                if exists|i: int|
                    0 <= i < values.len() && x.equals(amount_of(#[trigger] values[i])) {
                    let i = choose|i: int|
                        0 <= i < values.len() && x.equals(amount_of(#[trigger] values[i]));
                    assert(relates(
                        cell,
                        Infix::Equal,
                        handed_out(query.columns[0].expr, values[i]),
                    ) == Some(true));
                }
            }
        },
    }
}

proof fn first_that_is_none(values: Seq<Seq<char>>, from: int)
    requires
        0 <= from <= values.len(),
    ensures
        from <= not_number_at(values, from) <= values.len(),
        not_number_at(values, from) < values.len() ==> !is_number(
            values[not_number_at(values, from)],
        ),
        forall|i: int|
            from <= i < not_number_at(values, from) ==> is_number(#[trigger] values[i]),
    decreases values.len() - from,
{
    if from < values.len() && is_number(values[from]) {
        first_that_is_none(values, from + 1);
    }
}

/// `null` keeps the rows whose cell is null and `notnull` those whose cell is not; no other operator
/// keeps a row whose cell is null.
pub proof fn nulls_are_kept_only_where_asked_for(
    column: (Seq<char>, Seq<char>),
    row: Row,
    operator: Seq<char>,
    pattern: Seq<char>,
    filter: Seq<char>,
)
    ensures
        compared(column, seq!["null"@], filter) matches Ok(e) && (keeps(e, row) <==> (row.cells)(
            column.0,
        ) is Null),
        compared(column, seq!["notnull"@], filter) matches Ok(e) && (keeps(e, row)
            <==> !((row.cells)(column.0) is Null)),
        (row.cells)(column.0) is Null && operator != "null"@ ==> (compared(
            column,
            seq![operator, pattern],
            filter,
        ) matches Ok(e) ==> !keeps(e, row)),
{
    operators_are_these();
    assert(seq!["null"@][0] == "null"@ && seq!["notnull"@][0] == "notnull"@);
    column_says(column.0, row);
    if (row.cells)(column.0) is Null && operator != "null"@ {
        with_operator(column, operator, pattern, filter);
        match operated(Sql::Column(column.0), column.1, operator, pattern) {
            Ok(e) => {
                nothing_is_said_of_null(column, row, operator, pattern, e);
            },
            Err(_) => {},
        }
    }
}

proof fn nothing_is_said_of_null(
    column: (Seq<char>, Seq<char>),
    row: Row,
    operator: Seq<char>,
    pattern: Seq<char>,
    e: Sql,
)
    requires
        (row.cells)(column.0) is Null,
        operator != "null"@,
        operated(Sql::Column(column.0), column.1, operator, pattern) == Ok::<_, FilterError<
            Seq<char>,
        >>(e),
    ensures
        !keeps(e, row),
{
    let own = Sql::Column(column.0);
    let text = Sql::Cast(Box::new(own), "VARCHAR"@);
    column_says(column.0, row);
    as_text_says(own, row);
    lower_says(text, row);
    if operator == "notnull"@ {
    } else if operator == "eq"@ || operator == "in"@ {
        nothing_is_in_a_list(column, row, pattern, e);
    } else if operator == "ne"@ || operator == "nin"@ {
        let inner = among_values(own, column.1, pattern)->Ok_0;
        nothing_is_in_a_list(column, row, pattern, inner);
        opposite_says(inner, row);
    } else {
        match e {
            Sql::Binary(l, op, r) => {
                between_says(*l, op, *r, row);
            },
            Sql::Like(inner, p) => {
                like_says(*inner, p, row);
            },
            Sql::Template(t, args) => {
                assert(args[0] == text);
            },
            _ => {},
        }
    }
}

proof fn nothing_is_in_a_list(
    column: (Seq<char>, Seq<char>),
    row: Row,
    pattern: Seq<char>,
    e: Sql,
)
    requires
        (row.cells)(column.0) is Null,
        among_values(Sql::Column(column.0), column.1, pattern) == Ok::<_, FilterError<Seq<char>>>(
            e,
        ),
    ensures
        says_of(e, row) is Null,
{
    let own = Sql::Column(column.0);
    column_says(column.0, row);
    as_text_says(own, row);
    match e {
        Sql::Between(inner, lo, hi) => {
            range_says(*inner, lo, hi, row);
        },
        Sql::Binary(l, op, r) => {
            between_says(*l, op, *r, row);
            column_says(column.0, row);
        },
        Sql::Within(inner, query) => {
            within_says(*inner, *query, row);
        },
        _ => {},
    }
}

/// An operator is one of seventeen; any other is refused, and so are no parameters and more than
/// two.
pub proof fn other_operators_are_refused(
    column: (Seq<char>, Seq<char>),
    params: Seq<Seq<char>>,
    filter: Seq<char>,
)
    ensures
        params.len() == 0 || params.len() > 2 ==> compared(column, params, filter) == Err::<Sql, _>(
            FilterError::BadParams(filter),
        ),
        params.len() == 2 && !operator_names().contains(params[0]) ==> compared(
            column,
            params,
            filter,
        ) == Err::<Sql, _>(FilterError::UnknownOperator(params[0])),
        params.len() == 2 && operator_names().contains(params[0]) ==> !(compared(
            column,
            params,
            filter,
        ) matches Err(FilterError::UnknownOperator(_))),
{
    operators_are_these();
    let all = operator_names();
    assert(all[0] == "null"@);
    assert(all[1] == "notnull"@);
    assert(all[2] == "eq"@);
    assert(all[3] == "in"@);
    assert(all[4] == "ne"@);
    assert(all[5] == "nin"@);
    assert(all[6] == "ieq"@);
    assert(all[7] == "gt"@);
    assert(all[8] == "gte"@);
    assert(all[9] == "lt"@);
    assert(all[10] == "lte"@);
    assert(all[11] == "sw"@);
    assert(all[12] == "ew"@);
    assert(all[13] == "ct"@);
    assert(all[14] == "isw"@);
    assert(all[15] == "iew"@);
    assert(all[16] == "ict"@);
    if params.len() == 2 {
        assert(params =~= seq![params[0], params[1]]);
        with_operator(column, params[0], params[1], filter);
        if all.contains(params[0]) {
            let i = choose|i: int| 0 <= i < all.len() && all[i] == params[0];
        }
    }
}

/// The operators.
pub open spec fn operator_names() -> Seq<Seq<char>> {
    seq![
        "null"@,
        "notnull"@,
        "eq"@,
        "in"@,
        "ne"@,
        "nin"@,
        "ieq"@,
        "gt"@,
        "gte"@,
        "lt"@,
        "lte"@,
        "sw"@,
        "ew"@,
        "ct"@,
        "isw"@,
        "iew"@,
        "ict"@,
    ]
}

// Filters.

proof fn filters_are_these()
    ensures
        "id"@.len() == 2 && "id"@[0] == 'i',
        "prop"@.len() == 4 && "prop"@[0] == 'p',
        "type"@.len() == 4 && "type"@[0] == 't',
        "valid"@.len() == 5 && "valid"@[0] == 'v',
        "empty"@.len() == 5 && "empty"@[0] == 'e',
        "simple"@.len() == 6 && "simple"@[0] == 's',
        "closed"@.len() == 6 && "closed"@[0] == 'c',
{
    reveal_strlit("id");
    reveal_strlit("prop");
    reveal_strlit("type");
    reveal_strlit("valid");
    reveal_strlit("empty");
    reveal_strlit("simple");
    reveal_strlit("closed");
}

/// The condition that one filter makes by itself.
pub open spec fn made_by(
    name: Seq<char>,
    params: Seq<Seq<char>>,
    geometry: Seq<char>,
    columns: Seq<(Seq<char>, Seq<char>)>,
) -> Result<Option<Sql>, FilterError<Seq<char>>> {
    core_conditions(seq![SegmentModel { name, params }], geometry, columns, None)
}

proof fn one_filter(
    filter: CoreFilter,
    name: Seq<char>,
    params: Seq<Seq<char>>,
    geometry: Seq<char>,
    columns: Seq<(Seq<char>, Seq<char>)>,
)
    requires
        CoreFilter::spec_named(name) == Some(filter),
    ensures
        made_by(name, params, geometry, columns) == (match filter.holds(
            geometry,
            columns,
            params,
        ) {
            Ok(e) => Ok(Some(e)),
            Err(e) => Err(e),
        }),
{
    let all = seq![SegmentModel { name, params }];
    assert(all[0] == SegmentModel { name, params });
    assert(all.skip(1) =~= Seq::<SegmentModel>::empty());
    reveal_with_fuel(core_conditions, 2);
}

proof fn function_says(function: Seq<char>, geometry: Seq<char>, row: Row)
    ensures
        says_of(Sql::Call(function, seq![Sql::Column(geometry)]), row) == (row.geometry)(
            function,
            geometry,
        ),
{
    let args = seq![Sql::Column(geometry)];
    assert(args[0] == Sql::Column(geometry) && args.len() == 1);
}

/// A word writes a boolean: `true` or `1`, `false` or `0`, in either case.
pub open spec fn writes(word: Seq<char>, b: bool) -> bool {
    if b {
        lowered(word) == "true"@ || lowered(word) == "1"@
    } else {
        lowered(word) == "false"@ || lowered(word) == "0"@
    }
}

/// `valid`, `empty` and `simple` keep the rows of whose geometry the database says so, or does not
/// where that is asked; `closed` keeps only lines among them.
pub proof fn geometries_are_judged_by_the_database(
    geometry: Seq<char>,
    columns: Seq<(Seq<char>, Seq<char>)>,
    row: Row,
    word: Seq<char>,
    b: bool,
)
    requires
        writes(word, b),
    ensures
        made_by("valid"@, seq![word], geometry, columns) matches Ok(Some(e)) && (keeps(e, row)
            <==> (row.geometry)("ST_IsValid"@, geometry) == Cell::Flag(b)),
        made_by("empty"@, seq![word], geometry, columns) matches Ok(Some(e)) && (keeps(e, row)
            <==> (row.geometry)("ST_IsEmpty"@, geometry) == Cell::Flag(b)),
        made_by("simple"@, seq![word], geometry, columns) matches Ok(Some(e)) && (keeps(e, row)
            <==> (row.geometry)("ST_IsSimple"@, geometry) == Cell::Flag(b)),
        made_by("closed"@, seq![word], geometry, columns) matches Ok(Some(e)) && (keeps(e, row)
            <==> (row.geometry)("ST_IsClosed"@, geometry) == Cell::Flag(b) && ((row.geometry)(
            "ST_GeometryType"@,
            geometry,
        ).text() == Some("LINESTRING"@) || (row.geometry)("ST_GeometryType"@, geometry).text()
            == Some("MULTILINESTRING"@))),
{
    filters_are_these();
    booleans_are_these();
    let params = seq![word];
    assert(params[0] == word && params.len() == 1);
    one_filter(CoreFilter::Valid, "valid"@, params, geometry, columns);
    one_filter(CoreFilter::Empty, "empty"@, params, geometry, columns);
    one_filter(CoreFilter::Simple, "simple"@, params, geometry, columns);
    one_filter(CoreFilter::Closed, "closed"@, params, geometry, columns);
    function_says("ST_IsValid"@, geometry, row);
    function_says("ST_IsEmpty"@, geometry, row);
    function_says("ST_IsSimple"@, geometry, row);
    function_says("ST_IsClosed"@, geometry, row);
    function_says("ST_GeometryType"@, geometry, row);
    let own = seq![Sql::Column(geometry)];
    between_says(Sql::Call("ST_IsValid"@, own), Infix::Equal, Sql::Flag(b), row);
    between_says(Sql::Call("ST_IsEmpty"@, own), Infix::Equal, Sql::Flag(b), row);
    between_says(Sql::Call("ST_IsSimple"@, own), Infix::Equal, Sql::Flag(b), row);
    let kind = Sql::Cast(Box::new(Sql::Call("ST_GeometryType"@, own)), "VARCHAR"@);
    as_text_says(Sql::Call("ST_GeometryType"@, own), row);
    let lines = seq!["LINESTRING"@, "MULTILINESTRING"@];
    assert(lines[0] == "LINESTRING"@ && lines[1] == "MULTILINESTRING"@);
    let linear = Sql::Among(Box::new(kind), lines);
    assert(says_of(linear, row) == (match says_of(kind, row) {
        Cell::Text(t) => Cell::Flag(lines.contains(t)),
        _ => Cell::Null,
    }));
    let closed = Sql::Case(Box::new(linear), Box::new(Sql::Call("ST_IsClosed"@, own)));
    assert(says_of(closed, row) == if says_of(linear, row) == Cell::Flag(true) {
        says_of(Sql::Call("ST_IsClosed"@, own), row)
    } else {
        Cell::Null
    });
    between_says(closed, Infix::Equal, Sql::Flag(b), row);
}

proof fn booleans_are_these()
    ensures
        "true"@.len() == 4,
        "false"@.len() == 5,
        "1"@.len() == 1 && "1"@[0] == '1',
        "0"@.len() == 1 && "0"@[0] == '0',
{
    reveal_strlit("true");
    reveal_strlit("false");
    reveal_strlit("1");
    reveal_strlit("0");
}

/// What writes no boolean is refused by each of these filters, and so is any number of parameters
/// but one.
pub proof fn other_judgements_are_refused(
    geometry: Seq<char>,
    columns: Seq<(Seq<char>, Seq<char>)>,
    name: Seq<char>,
    params: Seq<Seq<char>>,
)
    requires
        name == "valid"@ || name == "empty"@ || name == "simple"@ || name == "closed"@,
    ensures
        params.len() != 1 ==> made_by(name, params, geometry, columns) == Err::<Option<Sql>, _>(
            FilterError::BadParams(name),
        ),
        params.len() == 1 && !writes(params[0], true) && !writes(params[0], false) ==> made_by(
            name,
            params,
            geometry,
            columns,
        ) == Err::<Option<Sql>, _>(FilterError::NotABoolean(params[0])),
{
    filters_are_these();
    if name == "valid"@ {
        one_filter(CoreFilter::Valid, name, params, geometry, columns);
    } else if name == "empty"@ {
        one_filter(CoreFilter::Empty, name, params, geometry, columns);
    } else if name == "simple"@ {
        one_filter(CoreFilter::Simple, name, params, geometry, columns);
    } else {
        one_filter(CoreFilter::Closed, name, params, geometry, columns);
    }
}

/// The names of the types of geometries.
pub open spec fn type_names() -> Seq<Seq<char>> {
    seq![
        "POINT"@,
        "LINESTRING"@,
        "POLYGON"@,
        "MULTIPOINT"@,
        "MULTILINESTRING"@,
        "MULTIPOLYGON"@,
        "GEOMETRYCOLLECTION"@,
    ]
}

/// `type` keeps the rows whose geometry is of the type that is named, in either case; a name of none
/// is refused.
pub proof fn geometries_are_told_by_their_type(
    geometry: Seq<char>,
    columns: Seq<(Seq<char>, Seq<char>)>,
    row: Row,
    word: Seq<char>,
)
    ensures
        if type_names().contains(raised(word)) {
            made_by("type"@, seq![word], geometry, columns) matches Ok(Some(e)) && (keeps(e, row)
                <==> (row.geometry)("ST_GeometryType"@, geometry).text() == Some(raised(word)))
        } else {
            made_by("type"@, seq![word], geometry, columns) == Err::<Option<Sql>, _>(
                FilterError::UnknownGeometryType(word),
            )
        },
{
    filters_are_these();
    let params = seq![word];
    assert(params[0] == word && params.len() == 1);
    one_filter(CoreFilter::Type, "type"@, params, geometry, columns);
    assert(type_names() =~= geometry_types());
    let own = seq![Sql::Column(geometry)];
    function_says("ST_GeometryType"@, geometry, row);
    let kind = Sql::Cast(Box::new(Sql::Call("ST_GeometryType"@, own)), "VARCHAR"@);
    as_text_says(Sql::Call("ST_GeometryType"@, own), row);
    between_says(kind, Infix::Equal, Sql::Text(raised(word)), row);
}

/// The names that a column of ids may have, the likeliest first.
pub open spec fn id_names() -> Seq<Seq<char>> {
    seq!["id"@, "fid"@, "gid"@, "objectid"@]
}

/// `id` compares the first column that has, in either case, the likeliest of these names that any
/// column has; where none has any of them it is refused.
pub proof fn ids_are_found_by_name(
    geometry: Seq<char>,
    columns: Seq<(Seq<char>, Seq<char>)>,
    params: Seq<Seq<char>>,
    j: int,
    k: int,
)
    ensures
        0 <= j < 4 && 0 <= k < columns.len() && lowered(columns[k].0) == id_names()[j] && (forall|
            i: int,
        |
            0 <= i < k ==> lowered((#[trigger] columns[i]).0) != id_names()[j]) && (forall|
            h: int,
            i: int,
        |
            0 <= h < j && 0 <= i < columns.len() ==> lowered((#[trigger] columns[i]).0)
                != #[trigger] id_names()[h]) ==> made_by("id"@, params, geometry, columns) == (
        match compared(columns[k], params, "id"@) {
            Ok(e) => Ok(Some(e)),
            Err(e) => Err(e),
        }),
        (forall|i: int|
            0 <= i < columns.len() ==> !id_names().contains(lowered((#[trigger] columns[i]).0)))
            ==> made_by("id"@, params, geometry, columns) == Err::<
            Option<Sql>,
            FilterError<Seq<char>>,
        >(FilterError::NoIdColumn),
{
    filters_are_these();
    one_filter(CoreFilter::Id, "id"@, params, geometry, columns);
    reveal_strlit("id");
    reveal_strlit("fid");
    reveal_strlit("gid");
    reveal_strlit("objectid");
    let all = id_candidates();
    assert(all =~= id_names());
    assert forall|h: int| 0 <= h < 4 implies lowered(#[trigger] all[h]) == all[h] by {
        assert(lowered(all[h]) =~= all[h]);
    }
    assert(all[0] == "id"@ && all[1] == "fid"@ && all[2] == "gid"@ && all[3] == "objectid"@);
    first_named(columns, all[0], 0);
    first_named(columns, all[1], 0);
    first_named(columns, all[2], 0);
    first_named(columns, all[3], 0);
    let one = all.skip(1);
    let two = one.skip(1);
    let three = two.skip(1);
    let four = three.skip(1);
    assert(one[0] == all[1] && two[0] == all[2] && three[0] == all[3] && four.len() == 0);
    reveal_with_fuel(id_column, 5);
    if forall|i: int|
        0 <= i < columns.len() ==> !id_names().contains(lowered((#[trigger] columns[i]).0)) {
        assert forall|h: int| 0 <= h < 4 implies named_at(columns, #[trigger] all[h], 0)
            == columns.len() by {
            first_named(columns, all[h], 0);
            let at = named_at(columns, all[h], 0);
            if at < columns.len() {
                assert(id_names()[h] == lowered(columns[at].0));
                assert(id_names().contains(lowered(columns[at].0)));
            }
        }
    }
}

proof fn first_named(columns: Seq<(Seq<char>, Seq<char>)>, name: Seq<char>, from: int)
    requires
        0 <= from <= columns.len(),
    ensures
        from <= named_at(columns, name, from) <= columns.len(),
        named_at(columns, name, from) < columns.len() ==> lowered(
            columns[named_at(columns, name, from)].0,
        ) == lowered(name),
        forall|i: int|
            from <= i < named_at(columns, name, from) ==> lowered((#[trigger] columns[i]).0)
                != lowered(name),
    decreases columns.len() - from,
{
    if from < columns.len() && lowered(columns[from].0) != lowered(name) {
        first_named(columns, name, from + 1);
    }
}

/// `prop` compares the first column of the name that is given, as it is spelled; a name that no
/// column has is refused.
pub proof fn properties_are_found_by_name(
    geometry: Seq<char>,
    columns: Seq<(Seq<char>, Seq<char>)>,
    name: Seq<char>,
    rest: Seq<Seq<char>>,
    k: int,
)
    ensures
        0 <= k < columns.len() && columns[k].0 == name && (forall|i: int|
            0 <= i < k ==> (#[trigger] columns[i]).0 != name) ==> made_by(
            "prop"@,
            seq![name] + rest,
            geometry,
            columns,
        ) == (match compared(columns[k], rest, "prop"@) {
            Ok(e) => Ok(Some(e)),
            Err(e) => Err(e),
        }),
        (forall|i: int| 0 <= i < columns.len() ==> (#[trigger] columns[i]).0 != name) ==> made_by(
            "prop"@,
            seq![name] + rest,
            geometry,
            columns,
        ) == Err::<Option<Sql>, _>(FilterError::UnknownColumn(name)),
        made_by("prop"@, Seq::empty(), geometry, columns) == Err::<Option<Sql>, _>(
            FilterError::BadParams("prop"@),
        ),
{
    filters_are_these();
    let params = seq![name] + rest;
    one_filter(CoreFilter::Prop, "prop"@, params, geometry, columns);
    one_filter(CoreFilter::Prop, "prop"@, Seq::empty(), geometry, columns);
    assert(params[0] == name);
    assert(params.skip(1) =~= rest);
    first_spelled(columns, name, 0);
}

proof fn first_spelled(columns: Seq<(Seq<char>, Seq<char>)>, name: Seq<char>, from: int)
    requires
        0 <= from <= columns.len(),
    ensures
        from <= column_at(columns, name, from) <= columns.len(),
        column_at(columns, name, from) < columns.len() ==> columns[column_at(
            columns,
            name,
            from,
        )].0 == name,
        forall|i: int|
            from <= i < column_at(columns, name, from) ==> (#[trigger] columns[i]).0 != name,
    decreases columns.len() - from,
{
    if from < columns.len() && columns[from].0 != name {
        first_spelled(columns, name, from + 1);
    }
}

/// One filter by itself keeps a row.
pub open spec fn filter_keeps(
    segment: SegmentModel,
    geometry: Seq<char>,
    columns: Seq<(Seq<char>, Seq<char>)>,
    row: Row,
) -> bool {
    made_by(segment.name, segment.params, geometry, columns) matches Ok(Some(e)) && keeps(e, row)
}

/// A row is kept exactly where every one of the filters keeps it, and what is asked before them
/// does; filters that make no condition are none.
pub proof fn every_filter_must_keep_a_row(
    segments: Seq<SegmentModel>,
    geometry: Seq<char>,
    columns: Seq<(Seq<char>, Seq<char>)>,
    combined: Option<Sql>,
    row: Row,
)
    ensures
        core_conditions(segments, geometry, columns, combined) matches Ok(Some(e)) ==> (keeps(
            e,
            row,
        ) <==> (combined matches Some(c) ==> keeps(c, row)) && forall|i: int|
            0 <= i < segments.len() ==> filter_keeps(#[trigger] segments[i], geometry, columns, row)),
        core_conditions(segments, geometry, columns, combined) matches Ok(None) ==> segments.len()
            == 0 && combined is None,
    decreases segments.len(),
{
    if segments.len() > 0 {
        let first = segments[0];
        let rest = segments.skip(1);
        match CoreFilter::spec_named(first.name) {
            Some(filter) => {
                one_filter(filter, first.name, first.params, geometry, columns);
                match filter.holds(geometry, columns, first.params) {
                    Ok(next) => {
                        let so_far = chained(combined, next);
                        every_filter_must_keep_a_row(rest, geometry, columns, Some(so_far), row);
                        match combined {
                            Some(before) => {
                                between_says(before, Infix::And, next, row);
                                assert(keeps(so_far, row) <==> keeps(before, row) && keeps(
                                    next,
                                    row,
                                ));
                            },
                            None => {},
                        }
                        assert(filter_keeps(first, geometry, columns, row) == keeps(next, row));
                        assert forall|i: int| 0 <= i < rest.len() implies #[trigger] rest[i]
                            == segments[i + 1] by {}
                        if forall|i: int|
                            0 <= i < segments.len() ==> filter_keeps(
                                #[trigger] segments[i],
                                geometry,
                                columns,
                                row,
                            ) {
                            assert(filter_keeps(segments[0], geometry, columns, row));
                            assert forall|i: int| 0 <= i < rest.len() implies filter_keeps(
                                #[trigger] rest[i],
                                geometry,
                                columns,
                                row,
                            ) by {
                                assert(filter_keeps(segments[i + 1], geometry, columns, row));
                            }
                        }
                        if filter_keeps(first, geometry, columns, row) && (forall|i: int|
                            0 <= i < rest.len() ==> filter_keeps(
                                #[trigger] rest[i],
                                geometry,
                                columns,
                                row,
                            )) {
                            assert forall|i: int| 0 <= i < segments.len() implies filter_keeps(
                                #[trigger] segments[i],
                                geometry,
                                columns,
                                row,
                            ) by {
                                if i > 0 {
                                    assert(filter_keeps(rest[i - 1], geometry, columns, row));
                                }
                            }
                        }
                    },
                    Err(_) => {},
                }
            },
            None => {},
        }
    }
}

/// Filters are met together exactly where each of them is met by itself, and the first that is not
/// is the one that is reported.
pub proof fn the_first_unmet_filter_is_reported(
    segments: Seq<SegmentModel>,
    geometry: Seq<char>,
    columns: Seq<(Seq<char>, Seq<char>)>,
    combined: Option<Sql>,
    at: int,
)
    requires
        0 <= at <= segments.len(),
        forall|i: int|
            0 <= i < at ==> made_by(
                (#[trigger] segments[i]).name,
                segments[i].params,
                geometry,
                columns,
            ) is Ok,
    ensures
        at == segments.len() ==> core_conditions(segments, geometry, columns, combined) is Ok,
        at < segments.len() ==> (made_by(
            segments[at].name,
            segments[at].params,
            geometry,
            columns,
        ) matches Err(e) ==> core_conditions(segments, geometry, columns, combined) == Err::<
            Option<Sql>,
            _,
        >(e)),
    decreases segments.len(),
{
    if segments.len() > 0 {
        let first = segments[0];
        let rest = segments.skip(1);
        let alone = seq![SegmentModel { name: first.name, params: first.params }];
        assert(alone.skip(1) =~= Seq::<SegmentModel>::empty());
        assert(alone[0].name == first.name && alone[0].params == first.params);
        reveal_with_fuel(core_conditions, 2);
        if at > 0 {
            assert(made_by(first.name, first.params, geometry, columns) is Ok);
            let filter = CoreFilter::spec_named(first.name)->0;
            let next = filter.holds(geometry, columns, first.params)->Ok_0;
            assert forall|i: int| 0 <= i < at - 1 implies made_by(
                (#[trigger] rest[i]).name,
                rest[i].params,
                geometry,
                columns,
            ) is Ok by {
                assert(rest[i] == segments[i + 1]);
            }
            the_first_unmet_filter_is_reported(
                rest,
                geometry,
                columns,
                Some(chained(combined, next)),
                at - 1,
            );
            if at < segments.len() {
                assert(rest[at - 1] == segments[at]);
            }
        }
    }
}

/// A filter is one of seven; any other is refused.
pub proof fn other_filters_are_refused(
    name: Seq<char>,
    params: Seq<Seq<char>>,
    geometry: Seq<char>,
    columns: Seq<(Seq<char>, Seq<char>)>,
)
    requires
        name != "id"@ && name != "prop"@ && name != "type"@ && name != "valid"@ && name != "empty"@
            && name != "simple"@ && name != "closed"@,
    ensures
        made_by(name, params, geometry, columns) == Err::<Option<Sql>, _>(
            FilterError::UnknownFilter(name),
        ),
{
    let alone = seq![SegmentModel { name, params }];
    assert(alone[0].name == name);
}

/// What a column is compared with is one value: a pattern that stands for more is refused, and for a
/// column of numbers so is what is no number.
pub proof fn one_value_is_compared(
    column: (Seq<char>, Seq<char>),
    operator: Seq<char>,
    pattern: Seq<char>,
    filter: Seq<char>,
)
    ensures
        (operator == "ieq"@ || operator == "gt"@ || operator == "gte"@ || operator == "lt"@ || operator
            == "lte"@ || operator == "sw"@ || operator == "ew"@ || operator == "ct"@ || operator
            == "isw"@ || operator == "iew"@ || operator == "ict"@) && counted(pattern, true, 0) != 1
            ==> compared(column, seq![operator, pattern], filter) == Err::<Sql, _>(
            FilterError::NotOneValue(pattern),
        ),
        (operator == "gt"@ || operator == "gte"@ || operator == "lt"@ || operator == "lte"@)
            && counted(pattern, true, 0) == 1 && holds_numbers(column.1) && !is_number(
            expansion(pattern)[0],
        ) ==> compared(column, seq![operator, pattern], filter) == Err::<Sql, _>(
            FilterError::NotANumber(expansion(pattern)[0]),
        ),
{
    operators_are_these();
    numbers_are_told_by_their_type(column.1);
    with_operator(column, operator, pattern, filter);
}

// Filters of any grammar.

/// Each of some filters keeps a row, by the rule of the first filter of the grammar that answers to
/// its name, and on the pipeline that the filters before it leave.
pub open spec fn rules_keep(
    filters: Seq<SegmentDef>,
    p: PipelineModel,
    columns: Seq<(Seq<char>, Seq<char>)>,
    segments: Seq<SegmentModel>,
    row: Row,
) -> bool
    decreases segments.len(),
{
    segments.len() == 0 || exists|at: int|
        0 <= at < filters.len() && is_first_called(filters, segments[0].name, at) && (
        #[trigger] filters[at].condition.rule.kept(p, columns, segments[0].params) matches Ok((next, e))
            && keeps(e, row) && rules_keep(filters, next, columns, segments.skip(1), row))
}

/// The filter at `at` is the first that is called `name`, by its name or its short one.
pub open spec fn is_first_called(filters: Seq<SegmentDef>, name: Seq<char>, at: int) -> bool {
    &&& filters[at].name@ == name || (filters[at].short@.len() > 0 && filters[at].short@ == name)
    &&& forall|i: int|
        0 <= i < at ==> (#[trigger] filters[i]).name@ != name && (filters[i].short@.len() == 0
            || filters[i].short@ != name)
}

proof fn first_called(filters: Seq<SegmentDef>, name: Seq<char>, at: int)
    requires
        0 <= at < filters.len(),
    ensures
        is_first_called(filters, name, at) <==> filter_at(filters, name, 0) == at,
{
    filter_at_bounds(filters, name, 0);
    let found = filter_at(filters, name, 0);
    if is_first_called(filters, name, at) {
        if found < at {
            assert(filters[found].name@ != name);
        }
        if found > at {
            assert(!answers(filters[at].name@, filters[at].short@, name));
        }
    }
    if found == at {
        assert forall|i: int| 0 <= i < at implies (#[trigger] filters[i]).name@ != name && (
        filters[i].short@.len() == 0 || filters[i].short@ != name) by {
            assert(!answers(filters[i].name@, filters[i].short@, name));
        }
    }
}

/// Whatever filters a grammar has, a row is kept exactly where the rule of every filter that is
/// asked for keeps it, and what is asked before them does; a filter that the grammar has not is
/// reported.
pub proof fn every_rule_must_keep_a_row(
    filters: Seq<SegmentDef>,
    p: PipelineModel,
    columns: Seq<(Seq<char>, Seq<char>)>,
    segments: Seq<SegmentModel>,
    combined: Option<Sql>,
    row: Row,
)
    ensures
        conditions(filters, p, columns, segments, combined) matches Ok((_, Some(e))) ==> (keeps(
            e,
            row,
        ) <==> (combined matches Some(c) ==> keeps(c, row)) && rules_keep(
            filters,
            p,
            columns,
            segments,
            row,
        )),
        conditions(filters, p, columns, segments, combined) matches Ok((_, None)) ==> segments.len()
            == 0 && combined is None,
        segments.len() > 0 && (forall|i: int|
            0 <= i < filters.len() ==> (#[trigger] filters[i]).name@ != segments[0].name
                && filters[i].short@ != segments[0].name) ==> conditions(
            filters,
            p,
            columns,
            segments,
            combined,
        ) == Err::<(PipelineModel, Option<Sql>), _>(
            PlanError::Filter(FilterError::UnknownFilter(segments[0].name)),
        ),
    decreases segments.len(),
{
    if segments.len() > 0 {
        let first = segments[0];
        let rest = segments.skip(1);
        filter_at_bounds(filters, first.name, 0);
        let at = filter_at(filters, first.name, 0);
        if forall|i: int|
            0 <= i < filters.len() ==> (#[trigger] filters[i]).name@ != first.name
                && filters[i].short@ != first.name {
            if at < filters.len() {
                assert(filters[at].name@ != first.name);
            }
        }
        if at < filters.len() {
            first_called(filters, first.name, at);
            match filters[at].condition.rule.kept(p, columns, first.params) {
                Ok((next, e)) => {
                    let so_far = chained(combined, e);
                    every_rule_must_keep_a_row(filters, next, columns, rest, Some(so_far), row);
                    match combined {
                        Some(before) => {
                            between_says(before, Infix::And, e, row);
                            assert(keeps(so_far, row) <==> keeps(before, row) && keeps(e, row));
                        },
                        None => {},
                    }
                    if rules_keep(filters, p, columns, segments, row) {
                        let k = choose|k: int|
                            0 <= k < filters.len() && is_first_called(filters, first.name, k) && (
                            #[trigger] filters[k].condition.rule.kept(
                                p,
                                columns,
                                first.params,
                            ) matches Ok((next, e)) && keeps(e, row) && rules_keep(
                                filters,
                                next,
                                columns,
                                rest,
                                row,
                            ));
                        first_called(filters, first.name, k);
                        assert(k == at);
                    }
                    if keeps(e, row) && rules_keep(filters, next, columns, rest, row) {
                        assert(filters[at].condition.rule.kept(p, columns, first.params) == Ok::<
                            _,
                            PlanError<Seq<char>>,
                        >((next, e)));
                        assert(rules_keep(filters, p, columns, segments, row));
                    }
                },
                Err(e) => {},
            }
        }
    }
}

} // verus!
