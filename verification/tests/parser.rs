use agendum_core::ics::{parse_ics_content, parse_ics_content_with_diagnostics};

#[test]
fn parse_reports_skipped_events_without_uid_and_unescapes_fields() {
    let ics = "BEGIN:VCALENDAR\r\n\
VERSION:2.0\r\n\
BEGIN:VEVENT\r\n\
UID:evt-1\r\n\
SUMMARY:CM Algo\r\n\
DESCRIPTION:L1\\nGroupe A\r\n\
LOCATION:Salle\\, B12\r\n\
DTSTART:20250101T080000\r\n\
DTEND:20250101T100000\r\n\
END:VEVENT\r\n\
BEGIN:VEVENT\r\n\
SUMMARY:No UID\r\n\
DTSTART:20250101T110000\r\n\
DTEND:20250101T120000\r\n\
END:VEVENT\r\n\
END:VCALENDAR\r\n";

    let parsed = parse_ics_content_with_diagnostics(ics);

    assert_eq!(parsed.diagnostics.calendars_parsed, 1);
    assert_eq!(parsed.diagnostics.parser_errors, 0);
    assert_eq!(parsed.diagnostics.skipped_events_without_uid, 1);
    assert_eq!(parsed.events.len(), 1);

    let event = &parsed.events[0];
    assert_eq!(event.uid, "evt-1");
    assert_eq!(event.summary, "CM Algo");
    assert!(event.description.starts_with("L1"));
    assert!(event.description.contains('\n'));
    assert!(event.description.ends_with("Groupe A"));
    assert_eq!(event.location, "Salle, B12");
}

#[test]
fn parse_reports_parser_errors_for_malformed_ics() {
    let malformed = "BEGIN:VCALENDAR\r\n\
BEGIN:VEVENT\r\n\
UID:evt-1\r\n\
SUMMARY:Broken\r\n\
DTSTART:20250101T080000\r\n";

    let parsed = parse_ics_content_with_diagnostics(malformed);

    assert!(parsed.diagnostics.parser_errors >= 1);
    assert!(parsed.events.is_empty());
    assert!(!parsed.diagnostics.parser_error_messages.is_empty());
}

#[test]
fn folded_lines_are_unfolded_into_one_field() {
    let mut ics = String::new();
    ics.push_str("BEGIN:VCALENDAR\r\n");
    ics.push_str("BEGIN:VEVENT\r\n");
    ics.push_str("UID:evt-2\r\n");
    ics.push_str("SUMMARY:CM Algo\r\n");
    ics.push_str(" rithmique\r\n");
    ics.push_str("DTSTART:20250101T080000\r\n");
    ics.push_str("DTEND:20250101T100000\r\n");
    ics.push_str("END:VEVENT\r\n");
    ics.push_str("END:VCALENDAR\r\n");

    let events = parse_ics_content(&ics);
    assert_eq!(events.len(), 1);
    assert_eq!(events[0].summary, "CM Algorithmique");
}

#[test]
fn events_survive_a_trailing_malformed_calendar() {
    let ics = "BEGIN:VCALENDAR\r\n\
BEGIN:VEVENT\r\n\
UID:evt-3\r\n\
SUMMARY:CM Algo\r\n\
END:VEVENT\r\n\
END:VCALENDAR\r\n\
BEGIN:VCALENDAR\r\n\
BEGIN:VEVENT\r\n\
UID:evt-4\r\n";

    let parsed = parse_ics_content_with_diagnostics(ics);
    assert_eq!(parsed.diagnostics.calendars_parsed, 1);
    assert!(parsed.diagnostics.parser_errors >= 1);
    assert_eq!(parsed.events.len(), 1);
    assert_eq!(parsed.events[0].uid, "evt-3");
}
