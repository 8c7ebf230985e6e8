//! What a fault is told as: each in its own words, and with the name, the value or the number that
//! it is about.

use vstd::prelude::*;

use crate::auth::{auth_message, AuthError};
use crate::backend::UnknownOp;
use crate::dataset::{resolve_message, ResolveFault};
use crate::filters::{filter_message, FilterError};
use crate::grammar::{fault_message, listed, shown_list, DeclarationFault, Param, ParamError};
use crate::sql::{plan_message, PlanError};
use crate::text::{decimal, joined_by, quoted};
use crate::url::{message_of, ParseError};

verus! {

/// A message ends in what it is about, after words of its own.
pub open spec fn tells_of(message: Seq<char>, words: Seq<char>, about: Seq<char>) -> bool {
    message == words + about
}

/// A message has what it is about in quotes, between words of its own.
pub open spec fn tells_in_quotes(
    message: Seq<char>,
    words: Seq<char>,
    about: Seq<char>,
    more: Seq<char>,
) -> bool {
    message == words + quoted(about) + more
}

proof fn limits_in_digits()
    ensures
        decimal(10) == "10"@,
        decimal(20) == "20"@,
        decimal(32) == "32"@,
        decimal(50) == "50"@,
        decimal(10_000) == "10000"@,
{
    reveal_strlit("10");
    reveal_strlit("20");
    reveal_strlit("32");
    reveal_strlit("50");
    reveal_strlit("10000");
    reveal_with_fuel(decimal, 6);
    assert(decimal(10) =~= "10"@);
    assert(decimal(20) =~= "20"@);
    assert(decimal(32) =~= "32"@);
    assert(decimal(50) =~= "50"@);
    assert(decimal(10_000) =~= "10000"@);
}

/// A request that cannot be read is told why, with the part of it that is at fault, and with the
/// limit where it is past one.
pub proof fn unreadable_requests_are_told_why(s: Seq<char>)
    ensures
        message_of(ParseError::Empty) == "empty path"@,
        message_of(ParseError::EmptySourceValue) == "source value is empty"@,
        message_of(ParseError::MissingOutputSegment) == "missing .<format> suffix"@,
        message_of(ParseError::MissingSourcePrefix) == "path must start with @"@,
        tells_of(message_of(ParseError::EmptyOptionValue(s)), "option has no value: "@, s),
        tells_of(message_of(ParseError::InvalidName(s)), "invalid name: "@, s),
        tells_of(
            message_of(ParseError::InvalidPath(s)),
            "path has characters that are not allowed: "@,
            s,
        ),
        tells_of(
            message_of(ParseError::MisplacedOption(s)),
            "options must come before the output name: "@,
            s,
        ),
        tells_of(message_of(ParseError::RepeatedOption(s)), "option given more than once: "@, s),
        tells_of(message_of(ParseError::UnknownFormat(s)), "unknown format: "@, s),
        tells_of(message_of(ParseError::UnknownOption(s)), "unknown option: "@, s),
        tells_of(message_of(ParseError::UnknownSource(s)), "unknown source type: "@, s),
        tells_of(
            message_of(ParseError::MalformedEncoding(s)),
            "encoding has characters that are not allowed: "@,
            s,
        ),
        tells_of(
            message_of(ParseError::MisplacedSourceOption(s)),
            "source options must come before any filter: "@,
            s,
        ),
        tells_of(
            message_of(ParseError::OptionTakesOneValue(s)),
            "option takes exactly one value: "@,
            s,
        ),
        tells_of(
            message_of(ParseError::WrongParameterCount(s)),
            "filter has the wrong number of parameters: "@,
            s,
        ),
        tells_of(message_of(ParseError::UnknownAction(s)), "unknown action: "@, s),
        tells_of(message_of(ParseError::ActionWithoutOptions(s)), "action has no options: "@, s),
        tells_of(
            message_of(ParseError::MisplacedAction(s)),
            "actions must come before the output name: "@,
            s,
        ),
        tells_of(message_of(ParseError::UnbalancedValue(s)), "value has unbalanced ~ or (): "@, s),
        tells_of(
            message_of(ParseError::ValueTooDeep(s)),
            "value nests groups more than 32 deep: "@,
            s,
        ),
        message_of(ParseError::TooManyFilters) == "at most 50 filters are allowed"@,
        message_of(ParseError::TooManyActions) == "at most 10 actions are allowed"@,
        message_of(ParseError::TooManyOptions) == "at most 20 options are allowed"@,
{
    limits_in_digits();
    reveal_strlit("10");
    reveal_strlit("20");
    reveal_strlit("32");
    reveal_strlit("50");
    reveal_strlit("at most ");
    reveal_strlit(" filters are allowed");
    reveal_strlit(" actions are allowed");
    reveal_strlit(" options are allowed");
    reveal_strlit("at most 50 filters are allowed");
    reveal_strlit("at most 10 actions are allowed");
    reveal_strlit("at most 20 options are allowed");
    reveal_strlit("value nests groups more than ");
    reveal_strlit(" deep: ");
    reveal_strlit("value nests groups more than 32 deep: ");
    assert("at most "@ + "50"@ + " filters are allowed"@ =~= "at most 50 filters are allowed"@);
    assert("at most "@ + "10"@ + " actions are allowed"@ =~= "at most 10 actions are allowed"@);
    assert("at most "@ + "20"@ + " options are allowed"@ =~= "at most 20 options are allowed"@);
    assert("value nests groups more than "@ + "32"@ + " deep: "@
        =~= "value nests groups more than 32 deep: "@);
}

/// A filter that cannot be met is told why, with the name or the value that it is about.
pub proof fn unmet_filters_are_told_why(s: Seq<char>)
    ensures
        filter_message(FilterError::NoIdColumn)
            == "source has no id column, expected one of: id, fid, gid, objectid"@,
        tells_of(filter_message(FilterError::UnknownFilter(s)), "unknown filter: "@, s),
        tells_of(
            filter_message(FilterError::BadParams(s)),
            "filter has the wrong number of parameters: "@,
            s,
        ),
        tells_of(
            filter_message(FilterError::ExpansionTooLarge(s)),
            "pattern expands past the limit of 10000 values: "@,
            s,
        ),
        tells_of(filter_message(FilterError::UnknownColumn(s)), "source has no column: "@, s),
        tells_of(filter_message(FilterError::UnknownOperator(s)), "unknown property operator: "@, s),
        tells_of(
            filter_message(FilterError::NotANumber(s)),
            "a numeric column needs a numeric value: "@,
            s,
        ),
        tells_of(
            filter_message(FilterError::NotOneValue(s)),
            "this operator takes a single value, not a pattern: "@,
            s,
        ),
        tells_of(
            filter_message(FilterError::NotABoolean(s)),
            "this filter takes true or false: "@,
            s,
        ),
        filter_message(FilterError::UnknownGeometryType(s)) == "unknown geometry type: "@ + s
            + ", expected one of: POINT, LINESTRING, POLYGON, MULTIPOINT, MULTILINESTRING, MULTIPOLYGON, GEOMETRYCOLLECTION"@,
{
    limits_in_digits();
    reveal_strlit("10000");
    reveal_strlit("pattern expands past the limit of ");
    reveal_strlit(" values: ");
    reveal_strlit("pattern expands past the limit of 10000 values: ");
    assert("pattern expands past the limit of "@ + "10000"@ + " values: "@
        =~= "pattern expands past the limit of 10000 values: "@);
}

/// A request that cannot be planned is told why, with the names that it is about in quotes; a
/// parameter is counted from one.
pub proof fn unplanned_requests_are_told_why(
    s: Seq<char>,
    t: Seq<char>,
    n: usize,
    p: Param,
    f: FilterError<Seq<char>>,
)
    ensures
        plan_message(PlanError::NoGeometry) == "source has no geometry column"@,
        plan_message(PlanError::Filter(f)) == filter_message(f),
        plan_message(PlanError::Message(s)) == s,
        tells_in_quotes(
            plan_message(PlanError::Operation(UnknownOp(s))),
            "this backend has no operation named "@,
            s,
            Seq::empty(),
        ),
        tells_in_quotes(
            plan_message(PlanError::UnknownAction(s)),
            "action "@,
            s,
            " is not registered in this grammar"@,
        ),
        tells_in_quotes(
            plan_message(PlanError::UnknownOption { option: s, action: t }),
            "option "@,
            s,
            " is not registered on "@ + quoted(t),
        ),
        tells_in_quotes(
            plan_message(PlanError::WrongArity { option: s, got: n }),
            "option "@,
            s,
            " does not take "@ + decimal(n as nat) + " parameters"@,
        ),
        tells_in_quotes(
            plan_message(PlanError::UnknownOutput(s)),
            "no output is written as "@,
            s,
            Seq::empty(),
        ),
        plan_message(PlanError::Param(ParamError { at: n, expected: p, got: s })) == "parameter "@
            + decimal(n as nat + 1) + " expected "@ + (match p {
            Param::Column => "a column name"@,
            Param::Operator => "an operator"@,
            Param::Value => "a value"@,
            Param::Token => "letters, digits, dot, dash or underscore"@,
            Param::Boolean => "true or false"@,
            Param::GeometryType => "a geometry type"@,
        }) + ", got "@ + quoted(s),
{
    let none = Seq::<char>::empty();
    let first = "this backend has no operation named "@ + quoted(s);
    assert(first + none =~= first);
    let second = "no output is written as "@ + quoted(s);
    assert(second + none =~= second);
    let third = "option "@ + quoted(s);
    assert(third + " is not registered on "@ + quoted(t) =~= third + (" is not registered on "@
        + quoted(t)));
    assert(third + " does not take "@ + decimal(n as nat) + " parameters"@ =~= third
        + (" does not take "@ + decimal(n as nat) + " parameters"@));
}

/// A dataset that cannot be found or read is told of by its name; where a path inside it is not
/// there, those that are follow, with a comma between two.
pub proof fn unfound_datasets_are_told_why(s: Seq<char>, names: Seq<Seq<char>>)
    ensures
        tells_of(resolve_message(ResolveFault::NotFound(s)), "dataset not found: "@, s),
        tells_of(resolve_message(ResolveFault::InvalidRoot(s)), "data root is not a directory: "@, s),
        tells_of(
            resolve_message(ResolveFault::EmptyArchive(s)),
            s,
            " contains nothing duckxy can read"@,
        ),
        tells_of(resolve_message(ResolveFault::UnreadableArchive(s)), s, " could not be read"@),
        tells_of(
            resolve_message(ResolveFault::NotAnArchive(s)),
            s,
            " is not an archive, so it has no paths to select"@,
        ),
        tells_of(
            resolve_message(ResolveFault::PathNotFound { path: s, candidates: names }),
            "no such path in archive: "@ + s + ". available: "@,
            joined_by(names, ", "@),
        ),
        auth_message(AuthError::NotHex)
            == "DUCKXY_KEY must be hex-encoded bytes; generate one with: openssl rand -hex 32"@,
        auth_message(AuthError::Unconfigured)
            == "set DUCKXY_KEY, or set DUCKXY_ALLOW_INSECURE=true to run unsigned"@,
{
}

/// A declaration that cannot be registered is told why, with the name or the extension that it is
/// about in quotes.
pub proof fn faulty_declarations_are_told_why(s: Seq<char>, t: Seq<char>)
    ensures
        fault_message(DeclarationFault::NoShape) == "a filter needs at least one shape"@,
        fault_message(DeclarationFault::EmptyShape)
            == "a filter shape needs at least one parameter"@,
        fault_message(DeclarationFault::NoExtension) == "an output needs at least one extension"@,
        tells_in_quotes(
            fault_message(DeclarationFault::Unscannable(s)),
            "name "@,
            s,
            " can never be parsed from a url"@,
        ),
        tells_in_quotes(
            fault_message(DeclarationFault::ShortRepeatsName(s)),
            "short name "@,
            s,
            " repeats the canonical name"@,
        ),
        tells_in_quotes(
            fault_message(DeclarationFault::Reserved(s)),
            "filter name "@,
            s,
            " is reserved for the source encoding"@,
        ),
        tells_in_quotes(
            fault_message(DeclarationFault::FilterTaken(s)),
            "filter "@,
            s,
            " is already registered"@,
        ),
        tells_in_quotes(
            fault_message(DeclarationFault::NoOptions(s)),
            "action "@,
            s,
            " has no options"@,
        ),
        tells_in_quotes(
            fault_message(DeclarationFault::OptionWithoutShape(s)),
            "option "@,
            s,
            " needs at least one shape"@,
        ),
        tells_in_quotes(
            fault_message(DeclarationFault::OptionTaken { option: s, earlier: t }),
            "option "@,
            s,
            " is already registered on this action as "@ + quoted(t),
        ),
        tells_in_quotes(
            fault_message(DeclarationFault::SameArity(s)),
            "option "@,
            s,
            " registered two shapes of the same arity"@,
        ),
        tells_in_quotes(
            fault_message(DeclarationFault::ActionTaken(s)),
            "action "@,
            s,
            " is already registered"@,
        ),
        tells_in_quotes(
            fault_message(DeclarationFault::MisplacedDot(s)),
            "extension "@,
            s,
            " can never be parsed from a url"@,
        ),
        tells_in_quotes(
            fault_message(DeclarationFault::NotLowercase(s)),
            "extension "@,
            s,
            " must be lowercase; lookup lowercases the url, so an uppercase registration can never match"@,
        ),
        tells_in_quotes(
            fault_message(DeclarationFault::RepeatedExtension(s)),
            "extension "@,
            s,
            " is repeated in its own registration"@,
        ),
        tells_in_quotes(
            fault_message(DeclarationFault::Claimed { extension: s, by: t }),
            "extension "@,
            s,
            " is already claimed by an output for "@ + t
                + "; an output sharing an extension must declare overrides() and gate itself with applies()"@,
        ),
{
    let option = "option "@ + quoted(s);
    assert(option + " is already registered on this action as "@ + quoted(t) =~= option
        + (" is already registered on this action as "@ + quoted(t)));
    let extension = "extension "@ + quoted(s);
    assert(extension + " is already claimed by an output for "@ + t
        + "; an output sharing an extension must declare overrides() and gate itself with applies()"@
        =~= extension + (" is already claimed by an output for "@ + t
        + "; an output sharing an extension must declare overrides() and gate itself with applies()"@));
}

/// A list is shown in brackets, each of its texts in quotes and with a comma between two.
pub proof fn lists_are_shown_in_brackets(first: Seq<char>, v: Seq<Seq<char>>, last: Seq<char>)
    ensures
        shown_list(Seq::empty()) == seq!['[', ']'],
        shown_list(seq![first]) == seq!['['] + quoted(first) + seq![']'],
        v.len() > 0 ==> listed(v.push(last)) == listed(v) + seq![',', ' '] + quoted(last),
        shown_list(v) == seq!['['] + listed(v) + seq![']'],
{
    reveal_strlit("[");
    reveal_strlit("]");
    reveal_strlit("");
    reveal_strlit(", ");
    assert("["@ =~= seq!['[']);
    assert("]"@ =~= seq![']']);
    assert(", "@ =~= seq![',', ' ']);
    assert(shown_list(Seq::empty()) =~= seq!['[', ']']);
    assert(v.push(last).drop_last() =~= v);
}

} // verus!
