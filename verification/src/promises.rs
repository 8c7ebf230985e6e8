//! What a request is refused with, how it is signed, and how settings and sources are read, each told
//! without the definitions that the functions themselves go by.

use std::sync::Arc;
use vstd::prelude::*;
use vstd::utf8::encode_utf8;

use crate::answers::the_last_output_meant_for_it_is_asked;
use crate::auth::{
    auth_of, base64url, base64url_read, hex_bytes, hex_value, hmac_sha256, is_hex, AuthError,
    AuthModel,
};
use crate::dataset::{shown_names, Source};
use crate::encodings::{alias_of, aliases, encoding_of, is_label_char};
use crate::filters::{filter_message, is_number, unsigned, FilterError};
use crate::formats::{output_at, Format, GeoJson, Output, OutputDef};
use crate::grammar::{ActionDef, SegmentDef};
use crate::handler::{disposition_of, rendered, status_of, FailureModel};
use crate::is_enabled;
use crate::parexp::{count_tells_expansion, counted, expansion, MAX_DEPTH};
use crate::query::{
    bytes_of, columns_of, copying, doubled, doubled_text_is_read_back, geometry_at, geometry_column,
    hex_digit, hexadecimal, is_memory_limit, is_thread_count, literal, memory_setting, option_list,
    response_dir, threads_setting, unit_at, ChunksModel, DEFAULT_EXPORT_LIMIT,
};
use crate::render::feature_collection;
use crate::routes::redacted;
use crate::sql::{plan_message, PlanError};
use crate::text::{
    all_digits, begins, decimal, decimal_reads_back, first_match, first_match_bounds, has_text,
    is_digit_spec, is_letter_spec, is_white_spec, joined_by, lowered, occurs, raised, stands_at,
    trimmed, trimmed_end, trimmed_start,
};
use crate::url::{parsed_of, without_slashes, ParsedModel};

verus! {

// Answers.

/// What a failure says that is told by its text alone.
pub open spec fn told_by(e: FailureModel) -> Seq<char> {
    match e {
        FailureModel::Plan(e) => plan_message(e),
        FailureModel::Refused(_, message) => message,
        FailureModel::Reported(causes) => joined_by(causes, seq![';', ' ']),
    }
}

/// A source without a geometry, or without the ids that are asked for, cannot be processed; a filter
/// that cannot be met is the client's fault. Any other failure is told by its text: a geometry that
/// could not be processed, a source that could not be opened, one that could not be read in its
/// encoding, or else nothing but that the query failed.
pub proof fn failures_have_their_status(e: FailureModel, encoding: Seq<char>)
    ensures
        match e {
            FailureModel::Plan(PlanError::NoGeometry) => status_of(e, encoding) == (
                422u16,
                "source has no geometry column"@,
            ),
            FailureModel::Plan(PlanError::Filter(f)) => status_of(e, encoding) == (
                if f == FilterError::<Seq<char>>::NoIdColumn {
                    422u16
                } else {
                    400u16
                },
                filter_message(f),
            ),
            _ => {
                let text = told_by(e);
                let geometry = has_text(text, "TopologyException"@) || has_text(
                    text,
                    "IllegalArgumentException"@,
                ) || has_text(text, "AssertionFailedException"@);
                let opened = !has_text(text, "Could not open GDAL dataset"@);
                let read = !has_text(text, "Invalid Input Error"@);
                &&& geometry ==> status_of(e, encoding) == (
                    422u16,
                    "source geometry could not be processed"@,
                )
                &&& !geometry && !opened ==> status_of(e, encoding) == (
                    422u16,
                    "source could not be opened as a geospatial dataset"@,
                )
                &&& !geometry && opened && !read ==> status_of(e, encoding) == (
                    422u16,
                    "source could not be read with encoding "@ + encoding,
                )
                &&& !geometry && opened && read ==> status_of(e, encoding) == (
                    500u16,
                    "query failed"@,
                )
            },
        },
{
    reveal_strlit("; ");
    assert("; "@ =~= seq![';', ' ']);
}

/// An answer is called after its dataset and its extension, in quotes.
pub proof fn answers_are_called_after_their_dataset(dataset: Seq<char>, extension: Seq<char>)
    ensures
        ({
            let said = disposition_of(dataset, extension);
            let file = dataset + seq!['.'] + extension;
            &&& begins(said, "inline; filename="@)
            &&& said.skip("inline; filename="@.len() as int) == seq!['"'] + file + seq!['"']
        }),
{
    reveal_strlit("inline; filename=\"");
    reveal_strlit("inline; filename=");
    reveal_strlit(".");
    reveal_strlit("\"");
    let said = disposition_of(dataset, extension);
    let head = "inline; filename="@;
    let file = dataset + seq!['.'] + extension;
    assert(said =~= head + (seq!['"'] + file + seq!['"']));
    assert(said.subrange(0, head.len() as int) =~= head);
    assert(said.skip(head.len() as int) =~= seq!['"'] + file + seq!['"']);
}

/// The rows of GeoJSON stand between the two ends of a collection of features, with a comma between
/// two.
pub proof fn features_make_a_collection()
    ensures
        feature_collection().content_type == "application/geo+json"@,
        feature_collection().header == "{\"type\":\"FeatureCollection\",\"features\":["@,
        feature_collection().separator == ","@,
        feature_collection().footer == "]}"@,
{
}

/// A signature is not logged, and the rest of the path is.
pub proof fn signatures_are_not_logged(signature: Seq<char>, rest: Seq<char>)
    requires
        signature.len() > 0,
        !occurs(signature, '/'),
    ensures
        redacted(seq!['/'] + signature + seq!['/'] + rest) == "/<redacted>/"@ + rest,
{
    let path = seq!['/'] + signature + seq!['/'] + rest;
    let inner = signature + seq!['/'] + rest;
    assert(path.skip(1) =~= inner);
    assert(inner[0] == signature[0] && signature[0] != '/');
    one_slash_is_led(path, inner);
    reveal_strlit("/");
    assert("/"@ =~= seq!['/']);
    let n = signature.len() as int;
    let at = first_match(inner, "/"@, 0);
    assert(at == n) by {
        first_match_bounds(inner, "/"@, 0);
        assert(inner.subrange(n, n + 1) =~= seq!['/']);
        assert(stands_at(inner, "/"@, n));
        if at < n {
            assert(inner.subrange(at, at + 1)[0] == '/');
            assert(signature[at] == '/');
        }
    }
    assert(inner.skip(n + 1) =~= rest);
}

proof fn one_slash_is_led(path: Seq<char>, inner: Seq<char>)
    requires
        path.len() > 0,
        path[0] == '/',
        path.skip(1) == inner,
        inner.len() > 0,
        inner[0] != '/',
    ensures
        without_slashes(path) == inner,
{
    assert(without_slashes(inner) == inner);
}

// Signatures.

/// With a key, the signature of a path is the code of the path's bytes, in base64, and what lets a
/// path pass is what reads as that code, and nothing else but what stands for no signature where
/// that is allowed.
pub proof fn paths_are_signed_byte_for_byte(auth: AuthModel, key: Seq<u8>, path: Seq<char>)
    requires
        auth.key == Some(key),
    ensures
        auth.signature(path) == Some(base64url(hmac_sha256(key, encode_utf8(path)))),
        forall|signature: Seq<char>| #[trigger]
            auth.passes(signature, path) <==> if signature == "insecure"@ {
                auth.allow_insecure
            } else {
                base64url_read(signature) == Some(hmac_sha256(key, encode_utf8(path)))
            },
{
}

// Encodings.

/// Other names of encodings are known in either case; a label that is none of them stands for itself
/// where it has nothing but letters, digits, dashes, dots, colons and underscores.
pub proof fn encodings_go_by_their_labels(label: Seq<char>)
    ensures
        lowered(label) == "utf-8"@ ==> encoding_of(label) == Some("UTF-8"@),
        lowered(label) == "latin1"@ || lowered(label) == "iso-8859-1"@ || lowered(label)
            == "csisolatin1"@ ==> encoding_of(label) == Some("ISO-8859-1"@),
        lowered(label) != "utf-8"@ && lowered(label) != "latin1"@ && lowered(label)
            != "iso-8859-1"@ && lowered(label) != "csisolatin1"@ ==> encoding_of(label) == (if label.len()
            > 0 && (forall|i: int|
            0 <= i < label.len() ==> ({
                let c = #[trigger] label[i];
                ('a' <= c <= 'z') || ('A' <= c <= 'Z') || ('0' <= c <= '9') || c == '-' || c == '_'
                    || c == '.' || c == ':'
            })) {
            Some(label)
        } else {
            None
        }),
{
    reveal_strlit("utf-8");
    reveal_strlit("latin1");
    reveal_strlit("iso-8859-1");
    reveal_strlit("csISOLatin1");
    reveal_strlit("csisolatin1");
    let all = aliases();
    assert(lowered("utf-8"@) =~= "utf-8"@);
    assert(lowered("latin1"@) =~= "latin1"@);
    assert(lowered("iso-8859-1"@) =~= "iso-8859-1"@);
    assert(lowered("csISOLatin1"@) =~= "csisolatin1"@);
    assert("utf-8"@.len() == 5 && "latin1"@.len() == 6 && "iso-8859-1"@.len() == 10);
    assert("csisolatin1"@.len() == 11);
    reveal_with_fuel(alias_of, 5);
    assert(all[0].0 == "utf-8"@ && all[1].0 == "latin1"@ && all[2].0 == "iso-8859-1"@);
    assert(all[3].0 == "csISOLatin1"@ && all.len() == 4);
    if forall|i: int| 0 <= i < label.len() ==> is_label_char(#[trigger] label[i]) {
        assert forall|i: int| 0 <= i < label.len() implies ({
            let c = #[trigger] label[i];
            ('a' <= c <= 'z') || ('A' <= c <= 'Z') || ('0' <= c <= '9') || c == '-' || c == '_' || c
                == '.' || c == ':'
        }) by {
            assert(is_label_char(label[i]));
        }
    }
}

// Settings.

/// Nothing but white space.
pub open spec fn is_blank(s: Seq<char>) -> bool {
    forall|i: int| 0 <= i < s.len() ==> is_white_spec(#[trigger] s[i])
}

proof fn trimmed_in_front(a: Seq<char>, t: Seq<char>)
    requires
        is_blank(a),
        t.len() > 0,
        !is_white_spec(t[0]),
    ensures
        trimmed_start(a + t) == t,
    decreases a.len(),
{
    let s = a + t;
    if a.len() == 0 {
        assert(s =~= t);
    } else {
        assert(is_white_spec(a[0]));
        assert(s[0] == a[0]);
        assert(s.skip(1) =~= a.skip(1) + t);
        assert forall|i: int| 0 <= i < a.skip(1).len() implies is_white_spec(
            #[trigger] a.skip(1)[i],
        ) by {
            assert(a.skip(1)[i] == a[i + 1]);
        }
        trimmed_in_front(a.skip(1), t);
    }
}

proof fn trimmed_behind(t: Seq<char>, b: Seq<char>)
    requires
        is_blank(b),
        t.len() > 0,
        !is_white_spec(t.last()),
    ensures
        trimmed_end(t + b) == t,
    decreases b.len(),
{
    let s = t + b;
    if b.len() == 0 {
        assert(s =~= t);
    } else {
        assert(is_white_spec(b[b.len() - 1]));
        assert(s.last() == b[b.len() - 1]);
        assert(s.drop_last() =~= t + b.drop_last());
        assert forall|i: int| 0 <= i < b.drop_last().len() implies is_white_spec(
            #[trigger] b.drop_last()[i],
        ) by {
            assert(b.drop_last()[i] == b[i]);
        }
        trimmed_behind(t, b.drop_last());
    }
}

/// White space round a text does not count.
pub proof fn white_space_round_a_text_does_not_count(a: Seq<char>, t: Seq<char>, b: Seq<char>)
    requires
        is_blank(a),
        is_blank(b),
        t.len() > 0,
        !is_white_spec(t[0]),
        !is_white_spec(t.last()),
    ensures
        trimmed(a + t + b) == t,
        is_enabled(a + t + b) <==> t == "true"@ || t == "1"@,
{
    assert(a + t + b =~= a + (t + b));
    assert((t + b)[0] == t[0]);
    trimmed_in_front(a, t + b);
    trimmed_behind(t, b);
    trimmed_in_front(a, t);
    assert(trimmed_end(a + (t + b)) == a + t) by {
        assert(a + (t + b) =~= (a + t) + b);
        assert((a + t).last() == t.last());
        trimmed_behind(a + t, b);
    }
}

proof fn unit_begins(n: Seq<char>, u: Seq<char>, percent: bool, i: int)
    requires
        n.len() > 0,
        !is_letter_spec(n.last()),
        n.last() != '%',
        forall|j: int|
            0 <= j < u.len() ==> is_letter_spec(#[trigger] u[j]) || (percent && u[j] == '%'),
        n.len() <= i <= n.len() + u.len(),
    ensures
        unit_at(n + u, percent, i) == n.len(),
        (n + u).take(n.len() as int) == n,
        (n + u).skip(n.len() as int) == u,
    decreases i,
{
    let s = n + u;
    if i > n.len() {
        assert(s[i - 1] == u[i - 1 - n.len()]);
        unit_begins(n, u, percent, i - 1);
    } else {
        assert(s[i - 1] == n.last());
    }
    assert(s.take(n.len() as int) =~= n);
    assert(s.skip(n.len() as int) =~= u);
}

/// A number of bytes is a number above none and a unit, in either case: none or `B`, or one of the
/// units of a thousand and twenty-four, of that squared, or of that cubed. It is what the two come
/// to, as far as that can be counted.
pub proof fn bytes_are_counted_in_units(n: nat, unit: Seq<char>)
    requires
        n <= u64::MAX,
        forall|j: int| 0 <= j < unit.len() ==> is_letter_spec(#[trigger] unit[j]),
    ensures
        ({
            let u = raised(unit);
            let scale: int = if u == ""@ || u == "B"@ {
                1
            } else if u == "KB"@ || u == "KIB"@ {
                1_024
            } else if u == "MB"@ || u == "MIB"@ {
                1_048_576
            } else if u == "GB"@ || u == "GIB"@ {
                1_073_741_824
            } else {
                0
            };
            bytes_of(decimal(n) + unit) == if n > 0 && scale > 0 && n * scale <= u64::MAX {
                Some((n * scale) as nat)
            } else {
                None
            }
        }),
{
    decimal_reads_back(n);
    let d = decimal(n);
    assert(is_digit_spec(d[d.len() - 1]));
    assert(is_digit_spec(d[0]));
    unit_begins(d, unit, false, d.len() as int + unit.len());
}

/// A limit of memory is a number, with or without a fraction, and a unit, a percent sign or nothing.
pub proof fn memory_is_counted_in_units(n: nat, m: nat, unit: Seq<char>)
    requires
        forall|j: int| 0 <= j < unit.len() ==> is_letter_spec(#[trigger] unit[j]) || unit[j] == '%',
    ensures
        ({
            let u = raised(unit);
            let known = u == ""@ || u == "%"@ || u == "KB"@ || u == "MB"@ || u == "GB"@ || u
                == "TB"@ || u == "KIB"@ || u == "MIB"@ || u == "GIB"@ || u == "TIB"@;
            &&& is_memory_limit(decimal(n) + unit) <==> known
            &&& is_memory_limit(decimal(n) + seq!['.'] + decimal(m) + unit) <==> known
            &&& !is_memory_limit(seq!['-'] + decimal(n) + unit)
        }),
{
    decimal_reads_back(n);
    decimal_reads_back(m);
    let d = decimal(n);
    let f = d + seq!['.'] + decimal(m);
    assert(is_digit_spec(d[d.len() - 1]) && is_digit_spec(d[0]));
    let e = decimal(m);
    assert(is_digit_spec(e[e.len() - 1]));
    assert(f.last() == e.last());
    unit_begins(d, unit, true, d.len() as int + unit.len());
    unit_begins(f, unit, true, f.len() as int + unit.len());
    digits_are_numbers(d, e);
    let minus = seq!['-'] + d;
    assert(minus.last() == d.last());
    unit_begins(minus, unit, true, minus.len() as int + unit.len());
    assert(minus[0] == '-');
    assert(f[0] == d[0]);
}

/// A number is digits, with a dot among them or not and with a minus sign before them or not.
pub proof fn digits_are_numbers(d: Seq<char>, e: Seq<char>)
    requires
        all_digits(d),
        all_digits(e),
        d.len() > 0,
    ensures
        is_number(d),
        is_number(d + seq!['.'] + e),
        is_number(seq!['-'] + d),
        is_number(seq!['-'] + d + seq!['.'] + e),
        !is_number(Seq::empty()),
{
    let f = d + seq!['.'] + e;
    let less = seq!['-'] + d;
    let both = seq!['-'] + d + seq!['.'] + e;
    fraction_is_number(d, e);
    assert(is_digit_spec(d[0]));
    assert(d[0] != '-' && f[0] != '-');
    assert(unsigned(d) == d);
    assert(unsigned(f) == f);
    assert(less[0] == '-' && both[0] == '-');
    assert(less.skip(1) =~= d);
    assert(both.skip(1) =~= f);
    assert(unsigned(less) == d);
    assert(unsigned(both) == f);
    assert forall|i: int, j: int| 0 <= i < j < d.len() implies !(#[trigger] d[i] == '.'
        && #[trigger] d[j] == '.') by {
        assert(is_digit_spec(d[i]));
    }
}

proof fn fraction_is_number(d: Seq<char>, e: Seq<char>)
    requires
        all_digits(d),
        all_digits(e),
        d.len() > 0,
    ensures
        ({
            let f = d + seq!['.'] + e;
            &&& is_digit_spec(f[0])
            &&& forall|i: int| 0 <= i < f.len() ==> is_digit_spec(#[trigger] f[i]) || f[i] == '.'
            &&& forall|i: int, j: int|
                0 <= i < j < f.len() ==> !(#[trigger] f[i] == '.' && #[trigger] f[j] == '.')
        }),
{
    let f = d + seq!['.'] + e;
    let n = d.len() as int;
    assert forall|i: int| 0 <= i < f.len() implies (is_digit_spec(#[trigger] f[i]) <==> i != n) && (
    f[i] == '.' <==> i == n) by {
        if i < n {
            assert(f[i] == d[i]);
        } else if i > n {
            assert(f[i] == e[i - n - 1]);
        }
    }
}

/// What is a number has nothing but digits, at most one dot, and a minus sign at most at its
/// beginning.
pub proof fn numbers_are_digits(v: Seq<char>)
    requires
        is_number(v),
    ensures
        exists|i: int| 0 <= i < v.len() && '0' <= #[trigger] v[i] <= '9',
        forall|i: int|
            0 <= i < v.len() ==> ('0' <= #[trigger] v[i] <= '9' || v[i] == '.' || (v[i] == '-' && i
                == 0)),
        forall|i: int, j: int|
            0 <= i < j < v.len() ==> !(#[trigger] v[i] == '.' && #[trigger] v[j] == '.'),
{
    let off: int = if v.len() > 0 && v[0] == '-' {
        1
    } else {
        0
    };
    let body = if off == 1 {
        v.skip(1)
    } else {
        v
    };
    assert forall|i: int| off <= i < v.len() implies #[trigger] v[i] == body[i - off] by {}
    let i = choose|i: int| 0 <= i < body.len() && is_digit_spec(#[trigger] body[i]);
    assert('0' <= v[i + off] <= '9');
    assert forall|i: int| 0 <= i < v.len() implies ('0' <= #[trigger] v[i] <= '9' || v[i] == '.' || (
    v[i] == '-' && i == 0)) by {
        if i >= off {
            assert(v[i] == body[i - off]);
        }
    }
    assert forall|i: int, j: int| 0 <= i < j < v.len() implies !(#[trigger] v[i] == '.'
        && #[trigger] v[j] == '.') by {
        if i >= off {
            assert(v[i] == body[i - off] && v[j] == body[j - off]);
        }
    }
}

/// A number of threads is one from one to sixty-five thousand five hundred and thirty-five.
pub proof fn threads_are_counted(n: nat)
    ensures
        is_thread_count(decimal(n)) <==> 1 <= n <= 65_535,
{
    decimal_reads_back(n);
    assert(is_digit_spec(decimal(n)[0]));
}

/// What a database is told of its limits, for those settings that can be used.
pub proof fn limits_are_told_as_they_are_set(memory: Seq<char>, threads: Seq<char>)
    ensures
        is_memory_limit(trimmed(memory)) ==> memory_setting(Some(memory)) == "SET memory_limit = "@
            + seq!['\''] + trimmed(memory) + seq!['\'', ';'],
        !is_memory_limit(trimmed(memory)) ==> memory_setting(Some(memory)).len() == 0,
        memory_setting(None).len() == 0,
        is_thread_count(trimmed(threads)) ==> threads_setting(Some(threads)) == "SET threads = "@
            + trimmed(threads) + seq![';'],
        !is_thread_count(trimmed(threads)) ==> threads_setting(Some(threads)).len() == 0,
        threads_setting(None).len() == 0,
{
    reveal_strlit("SET memory_limit = '");
    reveal_strlit("SET memory_limit = ");
    reveal_strlit("';");
    reveal_strlit(";");
    reveal_strlit("");
    assert("SET memory_limit = '"@ =~= "SET memory_limit = "@ + seq!['\'']);
    assert("';"@ =~= seq!['\'', ';']);
    assert(";"@ =~= seq![';']);
    let v = trimmed(memory);
    assert("SET memory_limit = '"@ + v + "';"@ =~= "SET memory_limit = "@ + seq!['\''] + v + seq![
        '\'',
        ';',
    ]);
}

// Sources.

/// The geometry of a source is in its first column whose type begins with `GEOMETRY`; a source
/// without such a column has none.
pub proof fn geometries_are_told_by_the_type_of_their_column(
    columns: Seq<(Seq<char>, Seq<char>)>,
    k: int,
)
    ensures
        0 <= k < columns.len() && begins(columns[k].1, "GEOMETRY"@) && (forall|i: int|
            0 <= i < k ==> !begins((#[trigger] columns[i]).1, "GEOMETRY"@)) ==> geometry_column(
            columns,
        ) == Some(columns[k].0),
        (forall|i: int|
            0 <= i < columns.len() ==> !begins((#[trigger] columns[i]).1, "GEOMETRY"@))
            ==> geometry_column(columns) is None,
{
    first_geometry(columns, 0);
}

proof fn first_geometry(columns: Seq<(Seq<char>, Seq<char>)>, from: int)
    requires
        0 <= from <= columns.len(),
    ensures
        from <= geometry_at(columns, from) <= columns.len(),
        geometry_at(columns, from) < columns.len() ==> begins(
            columns[geometry_at(columns, from)].1,
            "GEOMETRY"@,
        ),
        forall|i: int|
            from <= i < geometry_at(columns, from) ==> !begins(
                (#[trigger] columns[i]).1,
                "GEOMETRY"@,
            ),
    decreases columns.len() - from,
{
    if from < columns.len() && !begins(columns[from].1, "GEOMETRY"@) {
        first_geometry(columns, from + 1);
    }
}

/// The columns of a source are the rows of its description that have a name and a type, in their
/// order.
pub proof fn columns_are_the_described_ones(rows: Seq<(Option<Seq<char>>, Option<Seq<char>>)>)
    ensures
        columns_of(rows) == rows.filter(
            |row: (Option<Seq<char>>, Option<Seq<char>>)| row.0 is Some && row.1 is Some,
        ).map_values(|row: (Option<Seq<char>>, Option<Seq<char>>)| (row.0->0, row.1->0)),
    decreases rows.len(),
{
    reveal(Seq::filter);
    let whole = |row: (Option<Seq<char>>, Option<Seq<char>>)| row.0 is Some && row.1 is Some;
    let both = |row: (Option<Seq<char>>, Option<Seq<char>>)| (row.0->0, row.1->0);
    if rows.len() == 0 {
        assert(columns_of(rows) =~= rows.filter(whole).map_values(both));
    } else {
        columns_are_the_described_ones(rows.drop_last());
        assert(columns_of(rows) =~= rows.filter(whole).map_values(both));
    }
}

// Responses.

/// A chunk is sent as soon as sixty-four times a thousand and twenty-four bytes are gathered, with a
/// separator before each row but the first, and not before.
pub proof fn chunks_are_sent_when_full(held: ChunksModel, row: Seq<char>)
    ensures
        ({
            let all = if held.first {
                held.buf + row
            } else {
                held.buf + held.separator + row
            };
            let (next, chunk) = held.after(Some(row));
            &&& encode_utf8(all).len() >= 65_536 ==> chunk == Some(all) && next.buf.len() == 0
            &&& encode_utf8(all).len() < 65_536 ==> chunk is None && next.buf == all
            &&& !next.first && next.separator == held.separator
        }),
        held.after(None) == (held, None::<Seq<char>>),
{
    reveal_strlit("");
}

/// What is copied to a file is the whole query; the file and the layer are given between quotes, and
/// read back as they are whatever characters they have; the driver is named; and options are given
/// only where there are some.
pub proof fn files_are_written_where_they_are_asked_for(
    inner: Seq<char>,
    file: Seq<char>,
    driver: Seq<char>,
    options: Seq<Seq<char>>,
    layer: Seq<char>,
)
    ensures
        ({
            let copy = copying(inner, file, driver, options, layer);
            let head = "COPY ("@ + inner + ") TO "@ + seq!['\''];
            let middle = " WITH (FORMAT GDAL, DRIVER "@ + seq!['\''] + driver + seq!['\'']
                + ", LAYER_NAME "@ + seq!['\''];
            &&& begins(copy, head)
            &&& literal(copy.skip(head.len() as int)) matches Some((asked, rest)) && asked == file
                && begins(rest, middle) && (literal(rest.skip(middle.len() as int)) matches Some(
                (named, tail),
            ) && named == layer && tail == if options.len() == 0 {
                seq![')']
            } else {
                ", LAYER_CREATION_OPTIONS ("@ + option_list(options) + seq![')', ')']
            })
        }),
{
    reveal_strlit(") TO '");
    reveal_strlit(") TO ");
    reveal_strlit("' WITH (FORMAT GDAL, DRIVER '");
    reveal_strlit(" WITH (FORMAT GDAL, DRIVER ");
    reveal_strlit("', LAYER_NAME '");
    reveal_strlit(", LAYER_NAME ");
    reveal_strlit("'");
    reveal_strlit(")");
    reveal_strlit(", LAYER_CREATION_OPTIONS (");
    let quote = seq!['\''];
    let copy = copying(inner, file, driver, options, layer);
    let head = "COPY ("@ + inner + ") TO "@ + quote;
    let middle = " WITH (FORMAT GDAL, DRIVER "@ + quote + driver + quote + ", LAYER_NAME "@ + quote;
    let tail = if options.len() == 0 {
        seq![')']
    } else {
        ", LAYER_CREATION_OPTIONS ("@ + option_list(options) + seq![')', ')']
    };
    assert(") TO '"@ =~= ") TO "@ + quote);
    assert("' WITH (FORMAT GDAL, DRIVER '"@ =~= quote + " WITH (FORMAT GDAL, DRIVER "@ + quote);
    assert("', LAYER_NAME '"@ =~= quote + ", LAYER_NAME "@ + quote);
    assert("'"@ =~= quote);
    assert(")"@ =~= seq![')']);
    let rest = middle + (doubled(layer) + quote + tail);
    assert(copy =~= head + (doubled(file) + quote + rest));
    assert(copy.subrange(0, head.len() as int) =~= head);
    assert(copy.skip(head.len() as int) =~= doubled(file) + quote + rest);
    assert(rest[0] == ' ');
    doubled_text_is_read_back(file, rest);
    assert(rest.subrange(0, middle.len() as int) =~= middle);
    assert(rest.skip(middle.len() as int) =~= doubled(layer) + quote + tail);
    assert(tail[0] != '\'');
    doubled_text_is_read_back(layer, tail);
}

// Keys.

/// The two digits that write a byte in hexadecimal.
pub open spec fn byte_digits(digits: Seq<char>, b: u8) -> Seq<char> {
    seq![digits[b as int / 16], digits[b as int % 16]]
}

/// The bytes of a key, each in two digits.
pub open spec fn key_digits(digits: Seq<char>, key: Seq<u8>) -> Seq<char>
    decreases key.len(),
{
    if key.len() == 0 {
        Seq::empty()
    } else {
        key_digits(digits, key.drop_last()) + byte_digits(digits, key.last())
    }
}

proof fn digits_have_values(n: int)
    requires
        0 <= n < 16,
    ensures
        hex_value("0123456789abcdef"@[n]) == Some(n),
        hex_value("0123456789ABCDEF"@[n]) == Some(n),
        !is_white_spec("0123456789abcdef"@[n]),
        !is_white_spec("0123456789ABCDEF"@[n]),
{
    reveal_strlit("0123456789abcdef");
    reveal_strlit("0123456789ABCDEF");
}

proof fn key_is_read(digits: Seq<char>, key: Seq<u8>)
    requires
        digits == "0123456789abcdef"@ || digits == "0123456789ABCDEF"@,
    ensures
        key_digits(digits, key).len() == 2 * key.len(),
        is_hex(key_digits(digits, key)),
        hex_bytes(key_digits(digits, key)) == key,
        forall|i: int|
            0 <= i < key_digits(digits, key).len() ==> !is_white_spec(
                #[trigger] key_digits(digits, key)[i],
            ),
    decreases key.len(),
{
    let text = key_digits(digits, key);
    if key.len() == 0 {
        assert(hex_bytes(text) =~= key);
    } else {
        let few = key.drop_last();
        let before = key_digits(digits, few);
        let last = byte_digits(digits, key.last());
        key_is_read(digits, few);
        let b = key.last() as int;
        digits_have_values(b / 16);
        digits_have_values(b % 16);
        assert(text =~= before + last);
        assert forall|i: int| 0 <= i < text.len() implies hex_value(#[trigger] text[i]) is Some
            && !is_white_spec(text[i]) by {
            if i < before.len() {
                assert(text[i] == before[i]);
            } else {
                assert(text[i] == last[i - before.len()]);
            }
        }
        assert forall|i: int| 0 <= i < key.len() implies #[trigger] hex_bytes(text)[i] == key[i] by {
            if i < few.len() {
                assert(text[2 * i] == before[2 * i] && text[2 * i + 1] == before[2 * i + 1]);
                assert(hex_bytes(before)[i] == few[i]);
            } else {
                assert(text[2 * i] == last[0] && text[2 * i + 1] == last[1]);
                assert(b / 16 * 16 + b % 16 == b);
            }
        }
        assert(hex_bytes(text) =~= key);
    }
}

/// A key is written in hexadecimal digits, in either case and with white space round it or not.
pub proof fn keys_are_read_in_hexadecimal(
    digits: Seq<char>,
    key: Seq<u8>,
    a: Seq<char>,
    b: Seq<char>,
    allow: bool,
)
    requires
        digits == "0123456789abcdef"@ || digits == "0123456789ABCDEF"@,
        key.len() > 0,
        is_blank(a),
        is_blank(b),
    ensures
        auth_of(Some(a + key_digits(digits, key) + b), allow) == Ok::<_, AuthError>(
            AuthModel { key: Some(key), allow_insecure: allow },
        ),
{
    let text = key_digits(digits, key);
    key_is_read(digits, key);
    assert(!is_white_spec(text[0]) && !is_white_spec(text[text.len() - 1]));
    white_space_round_a_text_does_not_count(a, text, b);
}

/// A key with any other sign in it, or with a digit too few, is refused; and without a key unsigned
/// requests must be allowed.
pub proof fn other_keys_are_refused(text: Seq<char>, k: int, allow: bool)
    requires
        0 <= k < text.len(),
        !is_white_spec(text[0]),
        !is_white_spec(text.last()),
        text.len() % 2 == 1 || !(('0' <= text[k] <= '9') || ('a' <= text[k] <= 'f') || ('A'
            <= text[k] <= 'F')),
    ensures
        auth_of(Some(text), allow) == Err::<AuthModel, _>(AuthError::NotHex),
        auth_of(None, false) == Err::<AuthModel, _>(AuthError::Unconfigured),
        auth_of(None, true) == Ok::<_, AuthError>(AuthModel { key: None, allow_insecure: true }),
{
    let none = Seq::<char>::empty();
    white_space_round_a_text_does_not_count(none, text, none);
    assert(none + text + none =~= text);
    if is_hex(text) {
        assert(hex_value(text[k]) is Some);
    }
}

// Limits.

/// Where no setting says otherwise a response has two gibibytes at most; a pattern stands for ten
/// thousand values at most and nests thirty-two groups at most.
pub proof fn limits_are_these(pattern: Seq<char>)
    ensures
        DEFAULT_EXPORT_LIMIT == 2_147_483_648,
        expansion(pattern).len() <= 10_000,
        counted(pattern, true, 0) < 10_000 ==> expansion(pattern).len() == counted(pattern, true, 0),
        counted(pattern, true, 0) >= 10_000 ==> expansion(pattern).len() == 10_000,
        MAX_DEPTH == 32,
{
    count_tells_expansion(pattern);
}

/// Of the paths of an archive no more than twenty are shown, the first.
pub proof fn few_paths_are_shown(found: Seq<(Source, Seq<char>)>, i: int)
    ensures
        found.len() <= 20 ==> shown_names(found).len() == found.len(),
        found.len() > 20 ==> shown_names(found).len() == 20,
        0 <= i < found.len() && i < 20 ==> shown_names(found)[i] == found[i].1,
{
}

// Requests and outputs.

/// Slashes before a request do not count.
pub proof fn slashes_before_a_request_do_not_count(
    url: Seq<char>,
    filters: Seq<SegmentDef>,
    actions: Seq<ActionDef>,
    outputs: Seq<Arc<OutputDef>>,
)
    ensures
        parsed_of(seq!['/'] + url, filters, actions, outputs) == parsed_of(
            url,
            filters,
            actions,
            outputs,
        ),
{
    assert((seq!['/'] + url).skip(1) =~= url);
}

/// GeoJSON is asked for by two extensions, is meant for every request, and has its geometries in
/// longitude and latitude, its features between the two ends of a collection, and no extension of
/// another output.
pub proof fn geojson_is_what_it_says(parsed: ParsedModel)
    ensures
        GeoJson.spec_extensions().len() == 2,
        GeoJson.spec_extensions()[0] == "geojson"@,
        GeoJson.spec_extensions()[1] == "json"@,
        GeoJson.spec_content_type() == "application/geo+json"@,
        GeoJson.spec_applies(parsed),
        GeoJson.spec_framing().header == "{\"type\":\"FeatureCollection\",\"features\":["@,
        GeoJson.spec_framing().separator == ","@,
        GeoJson.spec_framing().footer == "]}"@,
        GeoJson.spec_framing().requires_wgs84,
        !GeoJson.spec_framing().overrides,
        Format::GeoJson.wants_wgs84(),
        Format::Json.wants_wgs84(),
{
}

/// An answer is framed by the output registered last that has its extension and is meant for the
/// request; where there is none, as a collection of features if the extension is of a format that
/// every grammar has, and not at all otherwise.
pub proof fn answers_are_framed_by_their_output(
    outputs: Seq<Arc<OutputDef>>,
    parsed: ParsedModel,
    at: int,
)
    requires
        -1 <= at < outputs.len(),
        at >= 0 ==> outputs[at].output.spec_extensions().contains(lowered(parsed.extension))
            && outputs[at].output.spec_applies(parsed),
        forall|i: int|
            at < i < outputs.len() ==> !((#[trigger] outputs[i]).output.spec_extensions().contains(
                lowered(parsed.extension),
            ) && outputs[i].output.spec_applies(parsed)),
    ensures
        at < 0 && parsed.format is None ==> rendered(outputs, parsed) is None,
        at < 0 && parsed.format is Some ==> rendered(outputs, parsed) == Some(feature_collection()),
        at >= 0 ==> {
            let framed = rendered(outputs, parsed);
            let output = outputs[at].output;
            &&& framed is Some
            &&& framed->0.content_type == output.spec_content_type()
            &&& framed->0.header == output.spec_framing().header
            &&& framed->0.separator == output.spec_framing().separator
            &&& framed->0.footer == output.spec_framing().footer
        },
{
    let ext = lowered(parsed.extension);
    the_last_output_meant_for_it_is_asked(outputs, ext, parsed);
    match output_at(outputs, ext, Some(parsed), outputs.len() as int) {
        Some(found) => {
            assert(found == at) by {
                if found > at {
                    assert(outputs[found].output.spec_applies(parsed));
                }
                if found < at {
                    assert(outputs[at].output.spec_applies(parsed));
                }
            }
        },
        None => {
            if at >= 0 {
                assert(outputs[at].output.spec_applies(parsed));
            }
        },
    }
}

/// A response is written to a directory of its own: it is called after the process and a number that
/// is drawn for it, the one in decimal and the other in hexadecimal digits.
pub proof fn temporary_directories_are_called_after_their_process(
    process: nat,
    nonce: nat,
    d: int,
)
    requires
        0 <= d < 16,
    ensures
        response_dir(process, nonce) == "duckxy-"@ + decimal(process) + "-"@ + hexadecimal(nonce),
        hexadecimal(d as nat) == seq!["0123456789abcdef"@[d]],
        nonce > 0 ==> hexadecimal((nonce * 16 + d) as nat) == hexadecimal(nonce).push(
            "0123456789abcdef"@[d],
        ),
{
    reveal_strlit("0123456789abcdef");
    let n = (nonce * 16 + d) as nat;
    assert(n / 16 == nonce && n % 16 == d as nat);
    assert(hex_digit(d as nat) == "0123456789abcdef"@[d]);
}

} // verus!
