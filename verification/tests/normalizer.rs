use agendum_core::{normalize, RawEvent};

fn make_event(summary: &str, start: &str, end: &str) -> RawEvent {
    RawEvent {
        summary: summary.to_string(),
        start: start.to_string(),
        end: end.to_string(),
        uid: "uid".to_string(),
        description: "".to_string(),
        location: "".to_string(),
    }
}

fn hours(minutes: i64) -> f32 {
    minutes as f32 / 60.0
}

#[test]
fn test_heuristics_and_duration() {
    // 08:00 to 10:00 -> 2 hours
    let e1 = make_event("CM PRORES", "20250101T080000", "20250101T100000");
    let e2 = make_event("IPD TP Cla 1", "20250101T100000Z", "20250101T113000Z"); // 1.5 hours
    let e3 = make_event(
        "TD Standard résidentiel",
        "20250101T140000",
        "20250101T170000",
    ); // 3 hours
    let e4 = make_event(
        "Réunion pédagogique Responsables formation",
        "20250101T090000",
        "20250101T094500",
    ); // 0.75 hours
    let e5 = make_event("Autre chose", "20250101T120000", "20250101T120000"); // 0 hours

    let events = vec![e1, e2, e3, e4, e5];
    let normalized = normalize(events, 0);

    assert_eq!(normalized[0].type_, "CM");
    assert_eq!(normalized[0].subject, "PRORES");
    assert_eq!(hours(normalized[0].duration_minutes), 2.0);
    assert_eq!(normalized[0].start_iso, "2025-01-01T08:00:00");
    assert_eq!(normalized[0].end_iso, "2025-01-01T10:00:00");

    assert_eq!(normalized[1].type_, "TP");
    assert_eq!(normalized[1].subject, "IPD");
    assert_eq!(hours(normalized[1].duration_minutes), 1.5);
    // With test offset fixed to UTC, the local times match UTC inputs
    assert_eq!(normalized[1].start_iso, "2025-01-01T10:00:00");
    assert_eq!(normalized[1].end_iso, "2025-01-01T11:30:00");

    assert_eq!(normalized[2].type_, "TD");
    assert_eq!(normalized[2].subject, "Standard résidentiel");
    assert_eq!(hours(normalized[2].duration_minutes), 3.0);

    assert_eq!(normalized[3].type_, "RÉUNION"); // Uppercase logic
    assert_eq!(normalized[3].subject, "pédagogique Responsables formation");
    assert_eq!(hours(normalized[3].duration_minutes), 0.75);

    assert_eq!(normalized[4].type_, "AUTRE");
    assert_eq!(normalized[4].subject, "Autre chose");
    assert_eq!(hours(normalized[4].duration_minutes), 0.0);
}

#[test]
fn test_additional_patterns() {
    let e1 = make_event("PPAR TD", "20250102T080000", "20250102T093000");
    let e2 = make_event(
        "BDL2 TD - Coworking space - PNRB",
        "20250103T100000",
        "20250103T120000",
    );
    let e3 = make_event(
        "Réunion pédagogique Responsables formation",
        "20250104T070000",
        "20250104T083000",
    );
    let e4 = make_event("MODX TP3.1", "20250105T070000", "20250105T083000");
    let e5 = make_event("CC1 MODX", "20250106T070000", "20250106T083000");

    let normalized = normalize(vec![e1, e2, e3, e4, e5], 0);

    assert_eq!(normalized[0].type_, "TD");
    assert_eq!(normalized[0].subject, "PPAR");

    assert_eq!(normalized[1].type_, "TD");
    assert_eq!(normalized[1].subject, "BDL2");

    assert!(normalized[2].type_.contains("RÉUNION") || normalized[2].type_.contains("REUNION"));
    assert!(normalized[2].subject.to_lowercase().contains("pédagogique"));

    assert_eq!(normalized[3].type_, "TP");
    assert_eq!(normalized[3].subject, "MODX");

    assert_eq!(normalized[4].type_, "CC");
    assert_eq!(normalized[4].subject, "MODX");
}

#[test]
fn test_project_and_reunion_suffix_preserved_for_natural_language_titles() {
    let e1 = make_event(
        "Présentation projet",
        "20250107T080000",
        "20250107T100000",
    );
    let e2 = make_event("IPD Projet", "20250107T100000", "20250107T120000");
    let e3 = make_event(
        "Présentation réunion",
        "20250107T130000",
        "20250107T140000",
    );
    let e4 = make_event("IPD Réunion", "20250107T140000", "20250107T150000");

    let normalized = normalize(vec![e1, e2, e3, e4], 0);

    assert_eq!(normalized[0].type_, "PROJET");
    assert_eq!(normalized[0].subject, "Présentation projet");

    assert_eq!(normalized[1].type_, "PROJET");
    assert_eq!(normalized[1].subject, "IPD");

    assert!(
        normalized[2].type_.contains("RÉUNION") || normalized[2].type_.contains("REUNION")
    );
    assert_eq!(normalized[2].subject, "Présentation réunion");

    assert!(
        normalized[3].type_.contains("RÉUNION") || normalized[3].type_.contains("REUNION")
    );
    assert_eq!(normalized[3].subject, "IPD");
}

#[test]
fn test_strip_trailing_dates_only_when_valid() {
    let e1 = make_event(
        "Conseil des études 11/12/25",
        "20250108T080000",
        "20250108T090000",
    );
    let e2 = make_event(
        "Conseil des études 31/02/25",
        "20250108T100000",
        "20250108T110000",
    );
    let e3 = make_event(
        "Présentation projet 11/12/25",
        "20250108T120000",
        "20250108T130000",
    );
    let e4 = make_event(
        "Présentation projet 45/12/25",
        "20250108T140000",
        "20250108T150000",
    );

    let normalized = normalize(vec![e1, e2, e3, e4], 0);

    assert_eq!(normalized[0].type_, "AUTRE");
    assert_eq!(normalized[0].subject, "Conseil des études");

    assert_eq!(normalized[1].type_, "AUTRE");
    assert_eq!(normalized[1].subject, "Conseil des études 31/02/25");

    assert_eq!(normalized[2].type_, "PROJET");
    assert_eq!(normalized[2].subject, "Présentation projet");

    assert_eq!(normalized[3].type_, "PROJET");
    assert_eq!(normalized[3].subject, "Présentation projet 45/12/25");
}

#[test]
fn test_metadata_extraction() {
    let mut e1 = make_event("CM Algo", "20250101T080000", "20250101T100000");
    e1.description = "DUPONT Jean\nM1 Informatique Groupe A\nModifié le: 01/01/2025".to_string();

    let mut e2 = make_event("TD Maths", "20250101T100000", "20250101T120000");
    e2.description = "MARTINPaul\nL3 MIAGE".to_string();

    let normalized = normalize(vec![e1, e2], 0);

    assert_eq!(normalized[0].teachers, vec!["DUPONT Jean"]);
    assert_eq!(normalized[0].promos, vec!["M1 Informatique Groupe A"]);
    assert!(!normalized[0]
        .cleaned_description
        .to_lowercase()
        .contains("modifié le"));

    assert_eq!(normalized[1].teachers, vec!["MARTIN Paul"]);
    assert_eq!(normalized[1].promos, vec!["L3 MIAGE"]);
}

#[test]
fn test_metadata_fallback_when_description_missing() {
    let e = make_event("CM Algo", "20250101T080000", "20250101T100000");
    let normalized = normalize(vec![e], 0);

    assert_eq!(normalized[0].teachers, vec!["—"]);
    assert!(normalized[0].promos.is_empty());
    assert!(normalized[0].cleaned_description.is_empty());
}

#[test]
fn output_has_one_record_per_event_in_order() {
    let e1 = make_event("CM PRORES", "20250101T080000", "20250101T100000");
    let e2 = make_event("Autre chose", "20250101T120000", "20250101T130000");
    let e3 = make_event("PPAR TD", "20250102T080000", "20250102T093000");
    let normalized = normalize(vec![e1, e2, e3], 0);
    assert_eq!(normalized.len(), 3);
    assert_eq!(normalized[0].raw.summary, "CM PRORES");
    assert_eq!(normalized[1].raw.summary, "Autre chose");
    assert_eq!(normalized[2].raw.summary, "PPAR TD");
}

#[test]
fn type_and_teachers_are_never_empty() {
    let mut events = Vec::new();
    for (summary, desc) in [
        ("", ""),
        ("   ", "\n\n"),
        ("zzz", "...."),
        ("CM", "Salle 101"),
    ] {
        let mut e = make_event(summary, "bad", "bad");
        e.description = desc.to_string();
        events.push(e);
    }
    for n in normalize(events, 0) {
        assert!(!n.type_.is_empty());
        assert!(!n.teachers.is_empty());
    }
}

#[test]
fn duration_is_zero_when_either_timestamp_fails() {
    let e1 = make_event("CM Algo", "20250101T080000", "nonsense");
    let e2 = make_event("CM Algo", "nonsense", "20250101T100000");
    let normalized = normalize(vec![e1, e2], 0);
    assert_eq!(normalized[0].duration_minutes, 0);
    assert_eq!(normalized[0].start_iso, "20250101T080000");
    assert_eq!(normalized[0].end_iso, "nonsense");
    assert_eq!(normalized[1].duration_minutes, 0);
    assert_eq!(normalized[1].start_iso, "nonsense");
}

#[test]
fn cleaning_an_already_cleaned_description_is_stable() {
    let mut e1 = make_event("CM Algo", "20250101T080000", "20250101T100000");
    e1.description = "DUPONT Jean\nM1 Informatique Groupe A\nModifié le: 01/01/2025".to_string();
    let first = normalize(vec![e1], 0);
    let cleaned_once = first[0].cleaned_description.clone();

    let mut e2 = make_event("CM Algo", "20250101T080000", "20250101T100000");
    e2.description = cleaned_once.clone();
    let second = normalize(vec![e2], 0);
    assert_eq!(second[0].cleaned_description, cleaned_once);
}

#[test]
fn explicit_offset_timestamps_are_converted() {
    // 09:00 at +01:00 is 08:00 UTC; the reference offset is UTC.
    let e = make_event("CM Algo", "20250101T090000+0100", "20250101T110000+0100");
    let normalized = normalize(vec![e], 0);
    assert_eq!(normalized[0].start_iso, "2025-01-01T08:00:00");
    assert_eq!(normalized[0].end_iso, "2025-01-01T10:00:00");
    assert_eq!(normalized[0].duration_minutes, 120);
}

#[test]
fn strong_promo_candidates_are_all_kept_sorted() {
    let mut e = make_event("CM Algo", "20250101T080000", "20250101T100000");
    e.description = "M2 Informatique Groupe B\nM1 Informatique Groupe A".to_string();
    let normalized = normalize(vec![e], 0);
    assert_eq!(
        normalized[0].promos,
        vec!["M1 Informatique Groupe A", "M2 Informatique Groupe B"]
    );
}

#[test]
fn teachers_are_deduplicated_and_sorted() {
    let mut e = make_event("CM Algo", "20250101T080000", "20250101T100000");
    e.description = "MARTIN Paul; DUPONT Jean; MARTIN Paul".to_string();
    let normalized = normalize(vec![e], 0);
    assert_eq!(normalized[0].teachers, vec!["DUPONT Jean", "MARTIN Paul"]);
}
