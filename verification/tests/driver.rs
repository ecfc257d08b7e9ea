//! The lines of a campaign's drivers.

use mumble_spaces::campaign::{DriverCommand, DriverRequest};
use mumble_spaces::driver_wire::{
    command_line, read_driver_line, record_report, report_of, shutdown_line, write_event,
    DriverLine,
};
use mumble_spaces::ledger::{Credentials, DriverEvent, EventError, FieldValue, Ledger, Summary};

#[test]
fn a_line_is_read_field_by_field() {
    let line = r#"{"kind":"owned","connected":true,"n":[1, 2.50],"participant_id":"p\u0031"}"#;
    let report = read_driver_line(line).expect("an object");
    assert_eq!(report.bare, None);
    assert_eq!(report.event.len(), 4);
    assert_eq!(report.event.text("kind"), Some("owned"));
    assert_eq!(report.event.text("participant_id"), Some("p1"));
    assert!(report.event.flag("connected"));
    assert_eq!(report.event.get("n"), Some(&FieldValue::Other("[1,2.5]".to_owned())));
}

#[test]
fn a_value_that_is_no_object_is_kept_as_it_is() {
    let report = read_driver_line(" [true, null] ").expect("a value");
    assert_eq!(report.bare.as_deref(), Some("[true,null]"));
    assert_eq!(report.event.len(), 0);
    assert_eq!(read_driver_line("not JSON"), None);
    assert_eq!(read_driver_line("{\"kind\":"), None);
    assert_eq!(read_driver_line(""), None);
}

#[test]
fn the_last_field_of_a_name_counts() {
    let report = report_of(Ok(DriverLine::Fields(vec![
        ("kind".to_owned(), FieldValue::Flag(true)),
        ("kind".to_owned(), FieldValue::Text("error".to_owned())),
    ])))
    .expect("an event");
    assert_eq!(report.event.text("kind"), Some("error"));
    assert_eq!(report.event.len(), 1);
    assert_eq!(report_of(Err("no".to_owned())), None);
}

#[test]
fn an_event_is_written_in_the_order_of_its_names() {
    let mut event = DriverEvent::new();
    assert_eq!(write_event(&event), "{}");
    event.set("b", FieldValue::Flag(false));
    event.set("a", FieldValue::Text("say \"hi\"\n".to_owned()));
    event.set("c", FieldValue::Other("[1,2]".to_owned()));
    let text = write_event(&event);
    assert_eq!(text, r#"{"a":"say \"hi\"\n","b":false,"c":[1,2]}"#);
    assert_eq!(read_driver_line(&text).expect("an object").event, event);
    let value: serde_json::Value = serde_json::from_str(&text).expect("JSON");
    assert_eq!(value.to_string(), text);
}

#[test]
fn commands_are_written_as_objects() {
    let mut command = DriverCommand {
        controller: 0,
        correlation_id: "spec-p1".to_owned(),
        participant_id: "p1".to_owned(),
        request: DriverRequest::SetSpec {
            space_key: "lobby".to_owned(),
            display_name: "P 1".to_owned(),
            server_mute: true,
            server_deaf: false,
        },
    };
    assert_eq!(
        command_line(&command),
        r#"{"correlation_id":"spec-p1","display_name":"P 1","kind":"set_spec","participant_id":"p1","schema_version":1,"server_deaf":false,"server_mute":true,"space_key":"lobby"}"#
    );
    command.request = DriverRequest::Release;
    assert_eq!(
        command_line(&command),
        r#"{"correlation_id":"spec-p1","kind":"release","participant_id":"p1","schema_version":1}"#
    );
    assert_eq!(
        shutdown_line(),
        r#"{"correlation_id":"shutdown","kind":"shutdown","schema_version":1}"#
    );
}

#[test]
fn a_credential_in_a_line_is_never_written_down() {
    let mut credentials = Credentials::new();
    let mut summary = Summary::new("steady", 1, 1);
    let mut ledger = Ledger::new();
    let line = r#"{"kind":"credential","participant_id":"p1","credential":"secret-token"}"#;
    let report = read_driver_line(line).expect("an object");
    let written = record_report(report, &mut credentials, &mut summary, &mut ledger, "12")
        .expect("a credential");
    assert_eq!(
        written,
        r#"{"coordinator_unix_nanos":"12","kind":"credential_rotated","participant_id":"p1"}"#
    );
    assert_eq!(credentials.get("p1"), Some("secret-token"));

    let report = read_driver_line("17").expect("a value");
    let written = record_report(report, &mut credentials, &mut summary, &mut ledger, "13");
    assert_eq!(written, Ok("17".to_owned()));
    assert_eq!(summary.driver_events, 2);

    let report = read_driver_line(r#"{"kind":"credential"}"#).expect("an object");
    assert_eq!(
        record_report(report, &mut credentials, &mut summary, &mut ledger, "14"),
        Err(EventError::NoParticipant)
    );
}
