//! How an answer comes about: what the database is asked for on the way to it, what follows what,
//! and what the client gets, told over whole runs.

use vstd::prelude::*;

use crate::ast::{RelationModel, SelectModel, Sql};
use crate::query::{
    crs_select, describing, geometry_column, says_invalidated, whole_source, ActionModel,
    DescribedModel, EventModel, ExportActionModel, ExportEventModel, ExportModel, ExportStage,
    ResolvedModel, RunModel, SourcesModel, Stage,
};
use crate::sea::written;
use crate::sql::PlanError;
use crate::text::{has_text, stands_at};

verus! {

// What the database is asked for.

/// A select that reads one table function, and that under no condition.
pub open spec fn reads_one(
    s: SelectModel,
    function: Seq<char>,
    args: Seq<Sql>,
    alias: Seq<char>,
) -> bool {
    &&& s.from.len() == 1
    &&& s.from[0] == RelationModel::Function(function, args, alias)
    &&& s.filter is None
    &&& s.limit is None
}

/// A source is read whole, by the function of the spatial extension that reads files, which is
/// handed the source and the encoding of its texts.
pub proof fn sources_are_read_in_their_encoding(source: Seq<char>, encoding: Seq<char>)
    ensures
        ({
            let read = whole_source(source, encoding);
            let options = Sql::Template(
                "open_options=list_value($1)"@,
                seq![Sql::Text("ENCODING="@ + encoding)],
            );
            &&& reads_one(read, "ST_Read"@, seq![Sql::Text(source), options], "src"@)
            &&& read.columns.len() == 1
            &&& read.columns[0].expr == Sql::Raw("*"@)
            &&& read.columns[0].alias is None
        }),
        describing(source, encoding) == "SELECT column_name, column_type FROM (DESCRIBE "@ + written(
            whole_source(source, encoding),
        ) + ")"@,
{
}

/// The reference system of a source is asked for once: it is the authority and the code that the
/// first geometry of its layers has, with a colon between them, or the definition where either of
/// them is empty.
pub proof fn reference_systems_are_asked_for_by_authority(source: Seq<char>)
    ensures
        ({
            let s = crs_select(source);
            let or_null = |name: Seq<char>| Sql::Call("nullif"@, seq![Sql::Raw(name), Sql::Text(""@)]);
            &&& s.columns.len() == 1
            &&& s.columns[0].expr == Sql::Coalesce(
                seq![
                    Sql::Template(
                        "$1 || ':' || $2"@,
                        seq![or_null("crs.auth_name"@), or_null("crs.auth_code"@)],
                    ),
                    or_null("crs.wkt"@),
                ],
            )
            &&& s.filter is None
            &&& s.limit == Some(1nat)
            &&& s.from.len() == 1
            &&& s.from[0] is Query
            &&& s.from[0]->Query_1 == "meta_crs"@
            &&& reads_one(*s.from[0]->Query_0, "ST_Read_Meta"@, seq![Sql::Text(source)], "meta"@)
            &&& s.from[0]->Query_0.columns.len() == 1
            &&& s.from[0]->Query_0.columns[0].expr == Sql::Raw(
                "unnest(layers).geometry_fields[1].crs"@,
            )
            &&& s.from[0]->Query_0.columns[0].alias == Some("crs"@)
        }),
{
}

/// A database is given up where a cause of an error holds one of three texts, wherever it stands in
/// that cause and whatever the other causes say.
pub proof fn databases_are_given_up_for_their_errors(
    causes: Seq<Seq<char>>,
    at: int,
    before: Seq<char>,
    after: Seq<char>,
)
    requires
        0 <= at < causes.len(),
    ensures
        causes[at] == before + "database has been invalidated"@ + after ==> says_invalidated(causes),
        causes[at] == before + "FATAL Error"@ + after ==> says_invalidated(causes),
        causes[at] == before + "INTERNAL Error"@ + after ==> says_invalidated(causes),
{
    assert forall|word: Seq<char>| causes[at] == before + word + after implies #[trigger] has_text(
        causes[at],
        word,
    ) by {
        let i = before.len() as int;
        assert(causes[at].subrange(i, i + word.len()) =~= word);
        assert(stands_at(causes[at], word, i));
    }
    assert(causes[at] == before + "database has been invalidated"@ + after ==> has_text(
        causes[at],
        "database has been invalidated"@,
    ));
    assert(causes[at] == before + "FATAL Error"@ + after ==> has_text(causes[at], "FATAL Error"@));
    assert(causes[at] == before + "INTERNAL Error"@ + after ==> has_text(
        causes[at],
        "INTERNAL Error"@,
    ));
}

/// A database is kept where no cause holds any of the three texts.
pub proof fn databases_are_kept_for_other_errors(causes: Seq<Seq<char>>)
    requires
        forall|i: int, before: Seq<char>, word: Seq<char>, after: Seq<char>|
            0 <= i < causes.len() && (word == "database has been invalidated"@ || word
                == "FATAL Error"@ || word == "INTERNAL Error"@) ==> #[trigger] causes[i]
                != #[trigger] (before + word + after),
    ensures
        !says_invalidated(causes),
{
    if says_invalidated(causes) {
        let i = choose|i: int|
            0 <= i < causes.len() && (has_text(
                #[trigger] causes[i],
                "database has been invalidated"@,
            ) || has_text(causes[i], "FATAL Error"@) || has_text(causes[i], "INTERNAL Error"@));
        let word = if has_text(causes[i], "database has been invalidated"@) {
            "database has been invalidated"@
        } else if has_text(causes[i], "FATAL Error"@) {
            "FATAL Error"@
        } else {
            "INTERNAL Error"@
        };
        assert(has_text(causes[i], word));
        let k = choose|k: int| #[trigger] stands_at(causes[i], word, k);
        let before = causes[i].take(k);
        let after = causes[i].skip(k + word.len());
        assert(causes[i] =~= before + word + after) by {
            assert forall|j: int| 0 <= j < word.len() implies causes[i][k + j] == word[j] by {
                assert(causes[i].subrange(k, k + word.len())[j] == word[j]);
            }
        }
    }
}

// What follows what.

/// The source with its columns and its reference system.
pub open spec fn found_out(
    held: ResolvedModel,
    columns: Seq<(Seq<char>, Seq<char>)>,
    crs: Option<Seq<char>>,
) -> DescribedModel {
    DescribedModel {
        raw: held.raw,
        source: held.source,
        encoding: held.encoding,
        columns,
        crs,
    }
}

/// Two states know the same of the sources.
pub open spec fn same_sources(a: SourcesModel, b: SourcesModel) -> bool {
    a.asked == b.asked && a.columns == b.columns && a.described == b.described
}

/// The event is what an action is answered with.
pub open spec fn is_reply(action: ActionModel, event: EventModel) -> bool {
    match action {
        ActionModel::Describe(_) => event is Described,
        ActionModel::ReadCrs(_) => event is CrsRead,
        ActionModel::Plan => event is Planned,
        ActionModel::Prepare(_) => event is Prepared,
        ActionModel::BeReady | ActionModel::Fetch => event is Row || event is NoMoreRows,
        ActionModel::Send(_) => event is Sent,
        ActionModel::Stop | ActionModel::Fail(_) => false,
    }
}

/// A query waits for the reply to what it asked for last, and for nothing else: once it has stopped
/// or failed, for nothing at all.
pub proof fn queries_wait_for_replies(held: RunModel, event: EventModel, reply: EventModel)
    requires
        held.wf(),
        held.expects(event),
    ensures
        held.next(event).0.wf(),
        held.next(event).0.expects(reply) <==> is_reply(held.next(event).1, reply),
{
}

/// The sources of a query are described one after the other, each by its own name and in its own
/// encoding, and each before its reference system is asked for; the query is planned after the last.
pub proof fn queries_describe_their_sources(held: RunModel, event: EventModel)
    requires
        held.wf(),
        held.expects(event),
    ensures
        ({
            let (next, action) = held.next(event);
            let asked = held.sources.asked;
            let n = held.sources.described.len() as int;
            &&& next.sources.asked == asked
            &&& event is Started ==> action == ActionModel::Describe(
                describing(asked[n].source, asked[n].encoding),
            ) && same_sources(next.sources, held.sources)
            &&& event is Described ==> {
                &&& next.sources.described == held.sources.described
                &&& action == if geometry_column(next.sources.columns) is None {
                    ActionModel::Fail(PlanError::NoGeometry)
                } else {
                    ActionModel::ReadCrs(written(crs_select(asked[n].source)))
                }
            }
            &&& event matches EventModel::CrsRead(crs) ==> {
                &&& next.sources.described == held.sources.described.push(
                    found_out(asked[n], held.sources.columns, crs),
                )
                &&& action == if n + 1 == asked.len() {
                    ActionModel::Plan
                } else {
                    ActionModel::Describe(describing(asked[n + 1].source, asked[n + 1].encoding))
                }
            }
        }),
{
}

/// A query is prepared as it was planned, is ready once it is prepared, and is read on until there
/// are no more rows or the client wants no more: it stops for no other reason, and fails only for
/// want of a geometry or of a plan.
pub proof fn queries_go_on_to_their_end(held: RunModel, event: EventModel)
    requires
        held.wf(),
        held.expects(event),
    ensures
        ({
            let (next, action) = held.next(event);
            &&& event matches EventModel::Planned(Ok(sql)) ==> action == ActionModel::Prepare(sql)
            &&& event matches EventModel::Planned(Err(e)) ==> action == ActionModel::Fail(e)
            &&& action == ActionModel::BeReady <==> event is Prepared
            &&& event is Row ==> action is Fetch || action is Send
            &&& event is NoMoreRows ==> action is Stop || action is Send
            &&& event == EventModel::Sent(false) ==> action == ActionModel::Stop
            &&& event == EventModel::Sent(true) ==> action == if held.stage == Stage::Closing {
                ActionModel::Stop
            } else {
                ActionModel::Fetch
            }
            &&& next.stage == Stage::Closing <==> event is NoMoreRows && action is Send
            &&& action is Fail ==> event is Described || event is Planned
        }),
{
}

// Responses that are written to a file first.

/// Where a response stands after some events, and what was to be done after each of them.
pub open spec fn exported(start: ExportModel, events: Seq<ExportEventModel>) -> (
    ExportModel,
    Seq<ExportActionModel>,
)
    decreases events.len(),
{
    if events.len() == 0 {
        (start, Seq::empty())
    } else {
        let (held, done) = exported(start, events.drop_last());
        let (next, action) = held.next(events.last());
        (next, done.push(action))
    }
}

/// Each event comes where the response stands then.
pub open spec fn exported_in_turn(start: ExportModel, events: Seq<ExportEventModel>) -> bool
    decreases events.len(),
{
    events.len() == 0 || (exported_in_turn(start, events.drop_last()) && exported(
        start,
        events.drop_last(),
    ).0.expects(events.last()))
}

/// The bytes that were read of the file.
pub open spec fn bytes_read(events: Seq<ExportEventModel>) -> Seq<u8>
    decreases events.len(),
{
    if events.len() == 0 {
        Seq::empty()
    } else {
        match events.last() {
            ExportEventModel::Read(bytes) => bytes_read(events.drop_last()) + bytes,
            _ => bytes_read(events.drop_last()),
        }
    }
}

/// The bytes that were sent.
pub open spec fn bytes_sent(actions: Seq<ExportActionModel>) -> Seq<u8>
    decreases actions.len(),
{
    if actions.len() == 0 {
        Seq::empty()
    } else {
        match actions.last() {
            ExportActionModel::Send(bytes) => bytes_sent(actions.drop_last()) + bytes,
            _ => bytes_sent(actions.drop_last()),
        }
    }
}

/// A file within the limit was written to its end.
pub open spec fn is_written(events: Seq<ExportEventModel>, limit: nat) -> bool {
    exists|i: int|
        0 <= i < events.len() && (#[trigger] events[i] matches ExportEventModel::Copied {
            stopped,
            failed,
            size,
        } && !stopped && !failed && size <= limit)
}

/// What was written is one file.
pub open spec fn is_one_file(events: Seq<ExportEventModel>) -> bool {
    exists|i: int| 0 <= i < events.len() && #[trigger] events[i] == ExportEventModel::Looked(false)
}

proof fn facts_stay(events: Seq<ExportEventModel>, limit: nat)
    requires
        events.len() > 0,
    ensures
        is_written(events.drop_last(), limit) ==> is_written(events, limit),
        is_one_file(events.drop_last()) ==> is_one_file(events),
{
    let before = events.drop_last();
    if is_written(before, limit) {
        let i = choose|i: int|
            0 <= i < before.len() && (#[trigger] before[i] matches ExportEventModel::Copied {
                stopped,
                failed,
                size,
            } && !stopped && !failed && size <= limit);
        assert(events[i] == before[i]);
    }
    if is_one_file(before) {
        let i = choose|i: int|
            0 <= i < before.len() && #[trigger] before[i] == ExportEventModel::Looked(false);
        assert(events[i] == before[i]);
    }
}

proof fn stages_tell(start: ExportModel, events: Seq<ExportEventModel>)
    requires
        start.stage == ExportStage::Starting,
        exported_in_turn(start, events),
    ensures
        ({
            let (held, actions) = exported(start, events);
            &&& held.limit == start.limit
            &&& actions.len() == events.len()
            &&& bytes_sent(actions) == bytes_read(events)
            &&& match held.stage {
                ExportStage::Looking => is_written(events, start.limit),
                ExportStage::Reading | ExportStage::Sending => is_written(events, start.limit)
                    && is_one_file(events),
                _ => true,
            }
            &&& bytes_sent(actions).len() > 0 ==> is_written(events, start.limit) && is_one_file(
                events,
            )
        }),
    decreases events.len(),
{
    if events.len() > 0 {
        let before = events.drop_last();
        stages_tell(start, before);
        facts_stay(events, start.limit);
        let (held, done) = exported(start, before);
        let (next, action) = held.next(events.last());
        let actions = done.push(action);
        assert(actions.drop_last() =~= done);
        let last = events.len() - 1;
        assert(events[last] == events.last());
        match events.last() {
            ExportEventModel::Read(bytes) => {
                assert(bytes_sent(actions) =~= bytes_read(events));
            },
            _ => {},
        }
    }
}

/// Over a whole run, the bytes that are sent are those that were read of the file, one after the
/// other; and none are sent before a file within the limit was written to its end, and was seen to
/// be one file.
pub proof fn files_are_sent_as_they_are_read(start: ExportModel, events: Seq<ExportEventModel>)
    requires
        start.stage == ExportStage::Starting,
        exported_in_turn(start, events),
    ensures
        ({
            let actions = exported(start, events).1;
            &&& bytes_sent(actions) == bytes_read(events)
            &&& bytes_sent(actions).len() > 0 ==> is_written(events, start.limit) && is_one_file(
                events,
            )
        }),
{
    stages_tell(start, events);
}

/// The event is what an action is answered with.
pub open spec fn is_file_reply(action: ExportActionModel, event: ExportEventModel) -> bool {
    match action {
        ExportActionModel::Describe(_) => event is Described,
        ExportActionModel::ReadCrs(_) => event is CrsRead,
        ExportActionModel::Plan => event is Planned,
        ExportActionModel::Copy(_) => event is Copied,
        ExportActionModel::Look => event is Looked,
        ExportActionModel::BeReady | ExportActionModel::Read => event is Read,
        ExportActionModel::Send(_) => event is Sent,
        _ => false,
    }
}

/// A response waits for the reply to what it asked for last, and for nothing else: once it has
/// stopped or failed, for nothing at all.
pub proof fn responses_wait_for_replies(
    held: ExportModel,
    event: ExportEventModel,
    reply: ExportEventModel,
)
    requires
        held.wf(),
        held.expects(event),
    ensures
        held.next(event).0.wf(),
        held.next(event).0.expects(reply) <==> is_file_reply(held.next(event).1, reply),
{
}

/// The sources of a response are described one after the other, each by its own name and in its own
/// encoding, and each before its reference system is asked for; the response is planned after the
/// last.
pub proof fn responses_describe_their_sources(held: ExportModel, event: ExportEventModel)
    requires
        held.wf(),
        held.expects(event),
    ensures
        ({
            let (next, action) = held.next(event);
            let asked = held.sources.asked;
            let n = held.sources.described.len() as int;
            &&& next.sources.asked == asked
            &&& event is Started ==> action == ExportActionModel::Describe(
                describing(asked[n].source, asked[n].encoding),
            ) && same_sources(next.sources, held.sources)
            &&& event is Described ==> {
                &&& next.sources.described == held.sources.described
                &&& action == if geometry_column(next.sources.columns) is None {
                    ExportActionModel::Fail(PlanError::NoGeometry)
                } else {
                    ExportActionModel::ReadCrs(written(crs_select(asked[n].source)))
                }
            }
            &&& event matches ExportEventModel::CrsRead(crs) ==> {
                &&& next.sources.described == held.sources.described.push(
                    found_out(asked[n], held.sources.columns, crs),
                )
                &&& action == if n + 1 == asked.len() {
                    ExportActionModel::Plan
                } else {
                    ExportActionModel::Describe(
                        describing(asked[n + 1].source, asked[n + 1].encoding),
                    )
                }
            }
        }),
{
}

/// A response is ready exactly once what was written is seen to be one file; it is read to its end,
/// or until the client wants no more; and it fails where the database could not write it, where it
/// passed the limit, with a status of its own, and where it is several files.
pub proof fn responses_are_ready_once_they_are_written(held: ExportModel, event: ExportEventModel)
    requires
        held.wf(),
        held.expects(event),
    ensures
        ({
            let action = held.next(event).1;
            &&& action == ExportActionModel::BeReady <==> event == ExportEventModel::Looked(false)
            &&& action is FailSeveral <==> event == ExportEventModel::Looked(true)
            &&& event matches ExportEventModel::Planned(Ok(_)) ==> action is Copy
            &&& event matches ExportEventModel::Planned(Err(e)) ==> action
                == ExportActionModel::Fail(e)
            &&& action is Look <==> (event matches ExportEventModel::Copied {
                stopped,
                failed,
                size,
            } && !stopped && !failed && size <= held.limit)
            &&& action is FailDatabase <==> (event matches ExportEventModel::Copied {
                stopped,
                failed,
                ..
            } && !stopped && failed)
            &&& action is FailLarge <==> (event matches ExportEventModel::Copied {
                stopped,
                failed,
                size,
            } && (stopped || (!failed && size > held.limit)))
            &&& action matches ExportActionModel::FailLarge(status, _) ==> status == 413
            &&& action is Stop <==> event == ExportEventModel::Sent(false) || (
            event matches ExportEventModel::Read(bytes) && bytes.len() == 0)
            &&& event == ExportEventModel::Sent(true) ==> action == ExportActionModel::Read
            &&& action is Fail ==> event is Described || event is Planned
        }),
{
}

} // verus!
