//! Answering a request: what it asks for, and with which status it fails.

use std::sync::Arc;
use vstd::prelude::*;

use crate::auth::SignedPath;
use crate::filters::{filter_message, FilterError};
use crate::formats::{
    claim, geojson_alone_offers_the_formats, is_geojson, longest_ends, output_at, OutputDef,
};
use crate::grammar::Grammar;
use crate::render::{feature_collection, render_of, Render, RenderModel};
use crate::sql::{plan_message, PlanError};
use crate::text::{contains, has_text, join, joined, joined_by, lowered, views};
use crate::url::{message_of, parse, parsed_of, without_slashes, ParsedModel, ParsedUrl, ParseError};
use crate::Fault;

verus! {

/// Why a query has no answer.
#[derive(Debug, PartialEq)]
pub enum Failure {
    /// There is no SQL for it.
    Plan(PlanError),
    /// It was refused with a status.
    Refused(Fault),
    /// The database failed, for these causes.
    Reported(Vec<String>),
}

/// What such a failure is.
pub enum FailureModel {
    Plan(PlanError<Seq<char>>),
    Refused(nat, Seq<char>),
    Reported(Seq<Seq<char>>),
}

impl View for Failure {
    type V = FailureModel;

    open spec fn view(&self) -> FailureModel {
        match self {
            Failure::Plan(e) => FailureModel::Plan(e.model()),
            Failure::Refused(fault) => FailureModel::Refused(fault.status as nat, fault.message@),
            Failure::Reported(causes) => FailureModel::Reported(views(causes@)),
        }
    }
}

/// What the causes of a failure say together.
pub open spec fn reported(e: FailureModel) -> Seq<char> {
    match e {
        FailureModel::Plan(e) => plan_message(e),
        FailureModel::Refused(_, message) => message,
        FailureModel::Reported(causes) => joined_by(causes, "; "@),
    }
}

/// A text tells of a geometry that could not be processed.
pub open spec fn tells_of_geometry(text: Seq<char>) -> bool {
    has_text(text, "TopologyException"@) || has_text(text, "IllegalArgumentException"@) || has_text(
        text,
        "AssertionFailedException"@,
    )
}

/// The status and the message that a failure of the database is answered with: one that the source
/// is to blame for, or one that says nothing.
pub open spec fn status_of_report(text: Seq<char>, encoding: Seq<char>) -> (u16, Seq<char>) {
    if tells_of_geometry(text) {
        (422, "source geometry could not be processed"@)
    } else if has_text(text, "Could not open GDAL dataset"@) {
        (422, "source could not be opened as a geospatial dataset"@)
    } else if has_text(text, "Invalid Input Error"@) {
        (422, "source could not be read with encoding "@ + encoding)
    } else {
        (500, "query failed"@)
    }
}

/// The status and the message that a failure is answered with.
pub open spec fn status_of(e: FailureModel, encoding: Seq<char>) -> (u16, Seq<char>) {
    match e {
        FailureModel::Plan(PlanError::NoGeometry) => (422, "source has no geometry column"@),
        FailureModel::Plan(PlanError::Filter(e)) => (
            if e is NoIdColumn {
                422
            } else {
                400
            },
            filter_message(e),
        ),
        _ => status_of_report(reported(e), encoding),
    }
}

fn report_status(text: &str, encoding: &str) -> (r: (u16, String))
    ensures
        (r.0, r.1@) == status_of_report(text@, encoding@),
{
    proof {
        reveal_strlit("TopologyException");
        reveal_strlit("IllegalArgumentException");
        reveal_strlit("AssertionFailedException");
        reveal_strlit("Could not open GDAL dataset");
        reveal_strlit("Invalid Input Error");
    }
    if contains(text, "TopologyException") || contains(text, "IllegalArgumentException")
        || contains(text, "AssertionFailedException") {
        return (422, "source geometry could not be processed".to_owned());
    }
    if contains(text, "Could not open GDAL dataset") {
        return (422, "source could not be opened as a geospatial dataset".to_owned());
    }
    if contains(text, "Invalid Input Error") {
        return (422, joined("source could not be read with encoding ", encoding));
    }
    (500, "query failed".to_owned())
}

/// The status and the message that a failure is answered with.
pub fn error_status(e: &Failure, encoding: &str) -> (r: (u16, String))
    ensures
        (r.0, r.1@) == status_of(e@, encoding@),
{
    match e {
        Failure::Plan(plan) => match plan {
            PlanError::NoGeometry => (422, "source has no geometry column".to_owned()),
            PlanError::Filter(filter) => {
                let status: u16 = match filter {
                    FilterError::NoIdColumn => 422,
                    _ => 400,
                };
                (status, filter.message())
            },
            _ => report_status(plan.message().as_str(), encoding),
        },
        Failure::Refused(fault) => report_status(fault.message.as_str(), encoding),
        Failure::Reported(causes) => report_status(join(causes, "; ").as_str(), encoding),
    }
}

/// A failure that is neither a missing geometry nor a filter that cannot be met never shows what it
/// says: the message is one of four that hold nothing of it.
pub proof fn reports_are_not_shown(e: FailureModel, encoding: Seq<char>)
    requires
        e matches FailureModel::Plan(plan) ==> !(plan is NoGeometry) && !(plan is Filter),
    ensures
        ({
            let (status, message) = status_of(e, encoding);
            ||| (status, message) == (422u16, "source geometry could not be processed"@)
            ||| (status, message) == (422u16, "source could not be opened as a geospatial dataset"@)
            ||| (status, message) == (422u16, "source could not be read with encoding "@ + encoding)
            ||| (status, message) == (500u16, "query failed"@)
        }),
{
}

/// What a request asks for, and how it is answered.
pub struct Serve {
    pub parsed: ParsedUrl,
    pub render: Render,
    pub disposition: String,
}

/// How an answer says what it is called: after its dataset, whatever the request calls it.
pub open spec fn disposition_of(dataset: Seq<char>, extension: Seq<char>) -> Seq<char> {
    "inline; filename=\""@ + dataset + "."@ + extension + "\""@
}

/// What stands round the rows of an answer: what the output says that claims the extension, or,
/// where none does, what the format says that every grammar has.
pub open spec fn rendered(outputs: Seq<Arc<OutputDef>>, parsed: ParsedModel) -> Option<RenderModel> {
    match output_at(outputs, lowered(parsed.extension), Some(parsed), outputs.len() as int) {
        Some(at) => Some(render_of(*outputs[at])),
        None => if parsed.format is Some {
            Some(feature_collection())
        } else {
            None
        },
    }
}

/// What a request asks for, or the status and message that it is refused with. An extension that no
/// output claims for the request is refused as one that is not known.
pub fn dataset(path: &SignedPath, grammar: &Grammar) -> (r: Result<Serve, Fault>)
    ensures
        match (
            r,
            parsed_of(path.0@, grammar.filters@, grammar.actions@, grammar.outputs@),
        ) {
            (Ok(serve), Ok(want)) => {
                &&& serve.parsed@ == want
                &&& serve.disposition@ == disposition_of(want.dataset, want.extension)
                &&& rendered(grammar.outputs@, want) == Some(serve.render@)
            },
            (Err(fault), Ok(want)) => {
                &&& rendered(grammar.outputs@, want) is None
                &&& fault.status == 400
                &&& fault.message@ == message_of(ParseError::UnknownFormat(want.extension))
            },
            (Err(fault), Err(want)) => fault.status == 400 && fault.message@ == message_of(want),
            (Ok(_), Err(_)) => false,
        },
{
    let parsed = match parse(path.0.as_str(), grammar) {
        Ok(parsed) => parsed,
        Err(e) => {
            return Err(Fault { status: 400, message: e.message() });
        },
    };
    let render = match claim(parsed.extension, &parsed, grammar) {
        Some(def) => Render::of_output(&def),
        None => match parsed.format {
            Some(format) => Render::of(format),
            None => {
                let unknown = ParseError::UnknownFormat(parsed.extension.to_owned());
                return Err(Fault { status: 400, message: unknown.message() });
            },
        },
    };
    let named = joined("inline; filename=\"", parsed.dataset.as_str());
    let download = joined(joined(named.as_str(), ".").as_str(), parsed.extension);
    let disposition = joined(download.as_str(), "\"");
    Ok(Serve { parsed, render, disposition })
}

/// What a grammar answers whose only output is GeoJSON is always a collection of features.
pub proof fn geojson_answers_are_features(url: Seq<char>, grammar: Grammar)
    requires
        grammar.outputs@.len() == 1,
        is_geojson(*grammar.outputs@[0]),
        parsed_of(url, grammar.filters@, grammar.actions@, grammar.outputs@) is Ok,
    ensures
        rendered(
            grammar.outputs@,
            parsed_of(url, grammar.filters@, grammar.actions@, grammar.outputs@)->Ok_0,
        ) == Some(feature_collection()),
{
    let outputs = grammar.outputs@;
    let path = without_slashes(url);
    longest_ends(outputs, path, path.len() as int);
    geojson_alone_offers_the_formats(outputs, path);
    let parsed = parsed_of(url, grammar.filters@, grammar.actions@, outputs)->Ok_0;
    assert(parsed.format is Some);
    assert(render_of(*outputs[0]) == feature_collection());
    assert(output_at(outputs, lowered(parsed.extension), Some(parsed), 0) is None);
}

/// How an answer ends.
#[derive(Debug, PartialEq, Eq)]
pub enum Ending {
    /// With what stands after the rows.
    Footer,
    /// Before it began, with a status and a message.
    Status(u16, String),
    /// In the middle, without a word.
    Cut,
}

/// How an answer ends once its query has: the status is told before the first byte, so a failure
/// changes it only as long as the answer has not begun.
pub fn ending(begun: bool, failure: Option<&Failure>, encoding: &str) -> (r: Ending)
    ensures
        match (failure, begun) {
            (None, _) => r is Footer,
            (Some(_), true) => r is Cut,
            (Some(e), false) => r matches Ending::Status(status, message) && (status, message@)
                == status_of(e@, encoding@),
        },
{
    match failure {
        None => Ending::Footer,
        Some(e) => {
            if begun {
                Ending::Cut
            } else {
                let (status, message) = error_status(e, encoding);
                Ending::Status(status, message)
            }
        },
    }
}

} // verus!
