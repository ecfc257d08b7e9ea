//! The lines that go to a campaign's drivers and come from them: one JSON value each.

use vstd::prelude::*;

use serde_json::Value;

use crate::campaign::{
    DriverCommand, DriverCommandModel, DriverRequest, DriverRequestModel, PROTOCOL_VERSION,
};
use crate::ledger::{
    credentials_after, event_fault, persisted, record_driver_event, redacted, Credentials,
    DriverEvent, EventError, EventModel, FieldModel, FieldValue, Ledger, Summary,
};
use crate::ordered::in_order;
use crate::text::{decimal, decimal_text};

verus! {

// Reading.

/// What a line holds.
#[derive(Debug, PartialEq, Eq)]
pub enum DriverLine {
    /// An object, with its fields.
    Fields(Vec<(String, FieldValue)>),
    /// Anything else, as it is written.
    Bare(String),
}

pub enum LineModel {
    Fields(Seq<(Seq<char>, FieldModel)>),
    Bare(Seq<char>),
}

/// The names and values of fields.
pub open spec fn field_views(fields: Seq<(String, FieldValue)>) -> Seq<(Seq<char>, FieldModel)> {
    Seq::new(fields.len(), |i: int| (fields[i].0@, fields[i].1@))
}

impl View for DriverLine {
    type V = LineModel;

    open spec fn view(&self) -> LineModel {
        match self {
            DriverLine::Fields(fields) => LineModel::Fields(field_views(fields@)),
            DriverLine::Bare(text) => LineModel::Bare(text@),
        }
    }
}

/// What was read of a line, or the words with which it is refused.
pub open spec fn line_read(found: Result<DriverLine, String>) -> Result<LineModel, Seq<char>> {
    match found {
        Ok(line) => Ok(line@),
        Err(words) => Err(words@),
    }
}

/// The JSON value in a text, or the words with which the text is refused.
pub uninterp spec fn json_value(text: Seq<char>) -> Result<LineModel, Seq<char>>;

/// Calls `from_str` of serde_json: the value that a text writes. Texts and truth
/// values of an object stand for themselves; any other value is kept as serde_json
/// writes it. All of it depends on the text alone, and has a name.
#[verifier::external_body]
fn parse_json(text: &str) -> (found: Result<DriverLine, String>)
    ensures
        line_read(found) == json_value(text@),
{
    match serde_json::from_str::<Value>(text) {
        Err(error) => Err(error.to_string()),
        Ok(Value::Object(fields)) => Ok(DriverLine::Fields(fields.into_iter().map(|(name, value)| match value {
            Value::String(text) => (name, FieldValue::Text(text)),
            Value::Bool(flag) => (name, FieldValue::Flag(flag)),
            other => (name, FieldValue::Other(other.to_string())),
        }).collect())),
        Ok(other) => Ok(DriverLine::Bare(other.to_string())),
    }
}

/// What a driver reported: an event, or a value that is none.
#[derive(Debug, PartialEq, Eq)]
pub struct DriverReport {
    pub event: DriverEvent,
    /// The value, as it is written, where it is no object. The event has no fields then.
    pub bare: Option<String>,
}

#[verifier::ext_equal]
pub struct ReportModel {
    pub event: EventModel,
    pub bare: Option<Seq<char>>,
}

impl View for DriverReport {
    type V = ReportModel;

    open spec fn view(&self) -> ReportModel {
        ReportModel { event: self.event@, bare: crate::text::optional(self.bare) }
    }
}

/// The event that fields make up. A name that comes again counts anew.
pub open spec fn fields_event(fields: Seq<(Seq<char>, FieldModel)>) -> EventModel
    decreases fields.len(),
{
    if fields.len() == 0 {
        EventModel::empty()
    } else {
        fields_event(fields.drop_last()).insert(fields.last().0, fields.last().1)
    }
}

/// What a line reports; nothing where it is not JSON.
pub open spec fn reported(line: Result<LineModel, Seq<char>>) -> Option<ReportModel> {
    match line {
        Err(_) => None,
        Ok(LineModel::Fields(fields)) => Some(
            ReportModel { event: fields_event(fields), bare: None },
        ),
        Ok(LineModel::Bare(text)) => Some(
            ReportModel { event: EventModel::empty(), bare: Some(text) },
        ),
    }
}

/// What a line reports, given what was read of it.
pub fn report_of(line: Result<DriverLine, String>) -> (report: Option<DriverReport>)
    ensures
        crate::text::optional(report) == reported(line_read(line)),
        report matches Some(report) ==> report.event.wf(),
{
    match line {
        Err(_) => None,
        Ok(DriverLine::Bare(text)) => Some(
            DriverReport { event: DriverEvent::new(), bare: Some(text) },
        ),
        Ok(DriverLine::Fields(fields)) => {
            let ghost all = field_views(fields@);
            let mut event = DriverEvent::new();
            let mut left = fields;
            let ghost mut done: int = 0;
            assert(all.take(0) =~= Seq::empty());
            while left.len() > 0
                invariant
                    event.wf(),
                    0 <= done <= all.len(),
                    field_views(left@) == all.skip(done),
                    event@ == fields_event(all.take(done)),
                decreases left@.len(),
            {
                let ghost was = left@;
                let (name, value) = left.remove(0);
                event.set(name.as_str(), value);
                proof {
                    assert(field_views(was).len() == all.len() - done);
                    assert(all.skip(done)[0] == all[done]);
                    assert(field_views(was)[0] == (was[0].0@, was[0].1@));
                    assert(field_views(left@) =~= field_views(was).skip(1));
                    assert(all.skip(done).skip(1) =~= all.skip(done + 1));
                    assert(all.take(done + 1).drop_last() =~= all.take(done));
                    done = done + 1;
                }
            }
            assert(all.take(done) =~= all);
            Some(DriverReport { event, bare: None })
        },
    }
}

/// Reads a line of a driver: what it reports, or nothing where it is not JSON.
pub fn read_driver_line(line: &str) -> (report: Option<DriverReport>)
    ensures
        crate::text::optional(report) == reported(json_value(line@)),
        report matches Some(report) ==> report.event.wf(),
{
    report_of(parse_json(line))
}

// Writing.

/// A text as a JSON value.
pub uninterp spec fn json_text(text: Seq<char>) -> Seq<char>;

/// Calls `to_string` of serde_json's text value: the text in quotes, escaped. It depends
/// on the text alone, and has a name.
#[verifier::external_body]
fn write_json_text(text: &str) -> (written: String)
    ensures
        written@ == json_text(text@),
{
    Value::from(text).to_string()
}

/// A value as JSON.
pub open spec fn value_text(value: FieldModel) -> Seq<char> {
    match value {
        FieldModel::Text(text) => json_text(text),
        FieldModel::Flag(flag) => if flag {
            "true"@
        } else {
            "false"@
        },
        FieldModel::Other(raw) => raw,
    }
}

/// The named fields of an event as JSON, with commas between them.
pub open spec fn fields_text(event: EventModel, names: Seq<Seq<char>>) -> Seq<char>
    decreases names.len(),
{
    if names.len() == 0 {
        Seq::empty()
    } else {
        let name = names.last();
        let before = if names.len() == 1 {
            Seq::empty()
        } else {
            fields_text(event, names.drop_last()) + ","@
        };
        before + json_text(name) + ":"@ + value_text(event[name])
    }
}

/// An event as a JSON object, its fields in order.
pub open spec fn event_text(event: EventModel) -> Seq<char> {
    "{"@ + fields_text(event, in_order::<String>(event.dom())) + "}"@
}

/// Writes an event as a JSON object.
pub fn write_event(event: &DriverEvent) -> (text: String)
    requires
        event.wf(),
    ensures
        text@ == event_text(event@),
{
    proof {
        event.lemma_names();
    }
    let ghost names = event.names();
    let count: usize = event.len();
    let mut text = "{".to_owned();
    let mut i: usize = 0;
    assert(names.take(0) =~= Seq::empty());
    assert(text@ =~= "{"@ + fields_text(event@, names.take(0)));
    while i < count
        invariant
            event.wf(),
            names == event.names(),
            count == names.len(),
            i <= count,
            text@ == "{"@ + fields_text(event@, names.take(i as int)),
        decreases count - i,
    {
        let ghost before = text@;
        if i > 0 {
            text.append(",");
        }
        let (name, value) = event.field(i);
        let written = write_json_text(name);
        text.append(written.as_str());
        text.append(":");
        match value {
            FieldValue::Text(value) => {
                let written = write_json_text(value.as_str());
                text.append(written.as_str());
            },
            FieldValue::Flag(flag) => {
                if *flag {
                    text.append("true");
                } else {
                    text.append("false");
                }
            },
            FieldValue::Other(raw) => {
                text.append(raw.as_str());
            },
        }
        proof {
            let next = names.take(i + 1);
            assert(next.drop_last() =~= names.take(i as int));
            assert(next.last() == name@);
            assert(text@ =~= "{"@ + fields_text(event@, next));
        }
        i = i + 1;
    }
    assert(names.take(i as int) =~= names);
    text.append("}");
    text
}

// Commands.

/// The fields of a command.
pub open spec fn command_event(command: DriverCommandModel) -> EventModel {
    let common = EventModel::empty().insert(
        "schema_version"@,
        FieldModel::Other(decimal(PROTOCOL_VERSION as nat)),
    ).insert("correlation_id"@, FieldModel::Text(command.correlation_id)).insert(
        "participant_id"@,
        FieldModel::Text(command.participant_id),
    );
    match command.request {
        DriverRequestModel::Register { space_key, display_name, server_mute, server_deaf } =>
            spec_fields(
            common.insert("kind"@, FieldModel::Text("register"@)),
            space_key,
            display_name,
            server_mute,
            server_deaf,
        ),
        DriverRequestModel::SetSpec { space_key, display_name, server_mute, server_deaf } =>
            spec_fields(
            common.insert("kind"@, FieldModel::Text("set_spec"@)),
            space_key,
            display_name,
            server_mute,
            server_deaf,
        ),
        DriverRequestModel::Release => common.insert("kind"@, FieldModel::Text("release"@)),
    }
}

/// The fields of a spec, behind others.
pub open spec fn spec_fields(
    event: EventModel,
    space_key: Seq<char>,
    display_name: Seq<char>,
    server_mute: bool,
    server_deaf: bool,
) -> EventModel {
    event.insert("space_key"@, FieldModel::Text(space_key)).insert(
        "display_name"@,
        FieldModel::Text(display_name),
    ).insert("server_mute"@, FieldModel::Flag(server_mute)).insert(
        "server_deaf"@,
        FieldModel::Flag(server_deaf),
    )
}

fn set_spec(
    event: &mut DriverEvent,
    space_key: &String,
    display_name: &String,
    server_mute: bool,
    server_deaf: bool,
)
    requires
        old(event).wf(),
    ensures
        final(event).wf(),
        final(event)@ == spec_fields(
            old(event)@,
            space_key@,
            display_name@,
            server_mute,
            server_deaf,
        ),
{
    event.set("space_key", FieldValue::Text(space_key.clone()));
    event.set("display_name", FieldValue::Text(display_name.clone()));
    event.set("server_mute", FieldValue::Flag(server_mute));
    event.set("server_deaf", FieldValue::Flag(server_deaf));
}

/// The line of a command.
pub fn command_line(command: &DriverCommand) -> (line: String)
    ensures
        line@ == event_text(command_event(command@)),
{
    let mut event = DriverEvent::new();
    event.set("schema_version", FieldValue::Other(decimal_text(PROTOCOL_VERSION as u64)));
    event.set("correlation_id", FieldValue::Text(command.correlation_id.clone()));
    event.set("participant_id", FieldValue::Text(command.participant_id.clone()));
    match &command.request {
        DriverRequest::Register { space_key, display_name, server_mute, server_deaf } => {
            event.set("kind", FieldValue::Text("register".to_owned()));
            set_spec(&mut event, space_key, display_name, *server_mute, *server_deaf);
        },
        DriverRequest::SetSpec { space_key, display_name, server_mute, server_deaf } => {
            event.set("kind", FieldValue::Text("set_spec".to_owned()));
            set_spec(&mut event, space_key, display_name, *server_mute, *server_deaf);
        },
        DriverRequest::Release => {
            event.set("kind", FieldValue::Text("release".to_owned()));
        },
    }
    write_event(&event)
}

/// The line that ends a driver.
pub fn shutdown_line() -> (line: String)
    ensures
        line@ == event_text(
            EventModel::empty().insert(
                "schema_version"@,
                FieldModel::Other(decimal(PROTOCOL_VERSION as nat)),
            ).insert("kind"@, FieldModel::Text("shutdown"@)).insert(
                "correlation_id"@,
                FieldModel::Text("shutdown"@),
            ),
        ),
{
    let mut event = DriverEvent::new();
    event.set("schema_version", FieldValue::Other(decimal_text(PROTOCOL_VERSION as u64)));
    event.set("kind", FieldValue::Text("shutdown".to_owned()));
    event.set("correlation_id", FieldValue::Text("shutdown".to_owned()));
    write_event(&event)
}

// Recording.

/// A report as it is written down. Only an event is stamped.
pub open spec fn written_report(report: ReportModel, stamp: Seq<char>) -> Seq<char> {
    match report.bare {
        Some(text) => text,
        None => event_text(persisted(report.event, stamp)),
    }
}

/// Enters a report everywhere, and gives the line in which it is written down.
pub fn record_report(
    report: DriverReport,
    credentials: &mut Credentials,
    summary: &mut Summary,
    ledger: &mut Ledger,
    stamp: &str,
) -> (result: Result<String, EventError>)
    requires
        report.event.wf(),
        old(credentials).wf(),
        old(ledger).wf(),
    ensures
        final(credentials).wf(),
        final(ledger).wf(),
        final(summary)@ == old(summary)@.recorded(
            report.event@,
            credentials_after(old(credentials)@, report.event@).dom().len(),
        ),
        match event_fault(report.event@) {
            Some(fault) => {
                &&& result == Err::<String, EventError>(fault)
                &&& final(credentials)@ == old(credentials)@
                &&& final(ledger)@ == old(ledger)@
            },
            None => {
                &&& result matches Ok(line) && line@ == written_report(report@, stamp@)
                &&& final(credentials)@ == credentials_after(old(credentials)@, report.event@)
                &&& final(ledger)@ == old(ledger)@.recorded(redacted(report.event@))
            },
        },
{
    let mut event = report.event;
    match record_driver_event(&mut event, credentials, summary, ledger, stamp) {
        Err(error) => Err(error),
        Ok(()) => match report.bare {
            Some(text) => Ok(text),
            None => Ok(write_event(&event)),
        },
    }
}

/// The line of a command tells its driver all of it: the participant, the correlation,
/// what is asked, and for a spec the Space, the name and each flag as what it is.
pub proof fn a_command_line_tells_the_command(command: DriverCommandModel)
    ensures
        ({
            let event = command_event(command);
            &&& event.dom().contains("participant_id"@)
            &&& event["participant_id"@] == FieldModel::Text(command.participant_id)
            &&& event["correlation_id"@] == FieldModel::Text(command.correlation_id)
            &&& match command.request {
                DriverRequestModel::Register { space_key, display_name, server_mute, server_deaf } => {
                    &&& event["kind"@] == FieldModel::Text("register"@)
                    &&& event["space_key"@] == FieldModel::Text(space_key)
                    &&& event["display_name"@] == FieldModel::Text(display_name)
                    &&& event["server_mute"@] == FieldModel::Flag(server_mute)
                    &&& event["server_deaf"@] == FieldModel::Flag(server_deaf)
                },
                DriverRequestModel::SetSpec { space_key, display_name, server_mute, server_deaf } => {
                    &&& event["kind"@] == FieldModel::Text("set_spec"@)
                    &&& event["space_key"@] == FieldModel::Text(space_key)
                    &&& event["display_name"@] == FieldModel::Text(display_name)
                    &&& event["server_mute"@] == FieldModel::Flag(server_mute)
                    &&& event["server_deaf"@] == FieldModel::Flag(server_deaf)
                },
                DriverRequestModel::Release => {
                    &&& event["kind"@] == FieldModel::Text("release"@)
                    &&& !event.dom().contains("space_key"@)
                },
            }
        }),
{
    reveal_strlit("schema_version");
    reveal_strlit("participant_id");
    reveal_strlit("correlation_id");
    reveal_strlit("kind");
    reveal_strlit("space_key");
    reveal_strlit("display_name");
    reveal_strlit("server_mute");
    reveal_strlit("server_deaf");
    assert("schema_version"@.len() == 14 && "schema_version"@[0] == 's');
    assert("participant_id"@.len() == 14 && "participant_id"@[0] == 'p');
    assert("correlation_id"@.len() == 14 && "correlation_id"@[0] == 'c');
    assert("kind"@.len() == 4);
    assert("space_key"@.len() == 9);
    assert("display_name"@.len() == 12);
    assert("server_mute"@.len() == 11 && "server_mute"@[7] == 'm');
    assert("server_deaf"@.len() == 11 && "server_deaf"@[7] == 'd');
}

/// A line is reported with the fields that stand in it, the last of each name; a line
/// that is no object is kept as it stands, and one that is not JSON is not reported.
pub proof fn a_line_is_reported_with_its_fields(
    fields: Seq<(Seq<char>, FieldModel)>,
    text: Seq<char>,
    error: Seq<char>,
    name: Seq<char>,
    i: int,
)
    requires
        0 <= i < fields.len(),
        fields[i].0 == name,
        forall|k: int| i < k < fields.len() ==> (#[trigger] fields[k]).0 != name,
    ensures
        ({
            let found = reported(Ok(LineModel::Fields(fields)));
            &&& found matches Some(report) && report.bare is None && report.event.dom().contains(
                name,
            ) && report.event[name] == fields[i].1
            &&& reported(Ok(LineModel::Bare(text))) matches Some(report) && report.bare == Some(text)
                && report.event.dom() == Set::<Seq<char>>::empty()
            &&& reported(Err(error)) is None
        }),
    decreases fields.len(),
{
    assert(EventModel::empty().dom() =~= Set::<Seq<char>>::empty());
    let n = fields.len() - 1;
    assert(fields.last() == fields[n]);
    if i < n {
        let fewer = fields.drop_last();
        assert(fields[n].0 != name);
        a_line_is_reported_with_its_fields(fewer, text, error, name, i);
    }
}

} // verus!
