//! Timetable event normalization: turns raw calendar events (free-text
//! summary/description fields plus raw date-time strings) into structured
//! records with a course type, subject, teacher names, cohort tags, a cleaned
//! description, and timezone-adjusted timestamps.
//!
//! The normalizer is a pure function over a list of raw events: every event
//! in yields exactly one record out, in order, and each record's fields are
//! pinned down by specification functions over the raw text.

use vstd::prelude::*;

pub mod chars;
pub mod text;
pub mod datetime;
pub mod summary;
pub mod names;
pub mod description;
pub mod ics;

use crate::text::{spec_trim, trim, chars_of, string_of};
use crate::summary::spec_classify;
use crate::description::spec_extract;
use crate::datetime::{spec_parse_stamp, parse_stamp, spec_duration_minutes, duration_minutes,
    spec_format_iso, format_iso};

verus! {

/// One calendar component as the decoder hands it over: free text and raw
/// date-time strings.
#[derive(Clone, Debug)]
pub struct RawEvent {
    pub uid: String,
    pub summary: String,
    pub description: String,
    pub location: String,
    pub start: String,
    pub end: String,
}

/// The text of a raw event, field by field.
pub struct RawEventView {
    pub uid: Seq<char>,
    pub summary: Seq<char>,
    pub description: Seq<char>,
    pub location: Seq<char>,
    pub start: Seq<char>,
    pub end: Seq<char>,
}

impl View for RawEvent {
    type V = RawEventView;

    open spec fn view(&self) -> RawEventView {
        RawEventView {
            uid: self.uid@,
            summary: self.summary@,
            description: self.description@,
            location: self.location@,
            start: self.start@,
            end: self.end@,
        }
    }
}

/// A field-for-field copy whose text reads the same.
pub fn clone_raw_event(e: &RawEvent) -> (r: RawEvent)
    ensures
        r@ == e@,
{
    RawEvent {
        uid: e.uid.clone(),
        summary: e.summary.clone(),
        description: e.description.clone(),
        location: e.location.clone(),
        start: e.start.clone(),
        end: e.end.clone(),
    }
}

/// One normalized record: the raw event kept verbatim, the classified type
/// and subject, local ISO timestamps, the duration in whole minutes, and the
/// extracted teacher and cohort lists.
#[derive(Clone, Debug)]
pub struct NormalizedEvent {
    pub raw: RawEvent,
    pub subject: String,
    pub type_: String,
    pub start_iso: String,
    pub end_iso: String,
    pub duration_minutes: i64,
    pub teachers: Vec<String>,
    pub promos: Vec<String>,
    pub cleaned_description: String,
}

pub struct NormalizedEventView {
    pub raw: RawEventView,
    pub subject: Seq<char>,
    pub type_: Seq<char>,
    pub start_iso: Seq<char>,
    pub end_iso: Seq<char>,
    pub duration_minutes: int,
    pub teachers: Seq<Seq<char>>,
    pub promos: Seq<Seq<char>>,
    pub cleaned_description: Seq<char>,
}

impl View for NormalizedEvent {
    type V = NormalizedEventView;

    open spec fn view(&self) -> NormalizedEventView {
        NormalizedEventView {
            raw: self.raw@,
            subject: self.subject@,
            type_: self.type_@,
            start_iso: self.start_iso@,
            end_iso: self.end_iso@,
            duration_minutes: self.duration_minutes as int,
            teachers: self.teachers@.map_values(|s: String| s@),
            promos: self.promos@.map_values(|s: String| s@),
            cleaned_description: self.cleaned_description@,
        }
    }
}

/// The normalized record of one raw event at the reference offset `off`
/// (seconds east of UTC): the summary trimmed and classified, teachers and
/// promos extracted from the description, and the timestamps parsed,
/// converted and rendered, or passed through raw when either fails.
pub open spec fn spec_normalize_event(r: RawEventView, off: int) -> NormalizedEventView {
    let cls = spec_classify(spec_trim(r.summary));
    let ext = spec_extract(r.description);
    let sp = spec_parse_stamp(r.start, off);
    let ep = spec_parse_stamp(r.end, off);
    NormalizedEventView {
        raw: r,
        subject: cls.1,
        type_: cls.0,
        start_iso: if sp is Some && ep is Some {
            spec_format_iso(sp->0.wall)
        } else {
            r.start
        },
        end_iso: if sp is Some && ep is Some {
            spec_format_iso(ep->0.wall)
        } else {
            r.end
        },
        duration_minutes: if sp is Some && ep is Some {
            spec_duration_minutes(sp->0.instant as int, ep->0.instant as int)
        } else {
            0
        },
        teachers: ext.0,
        promos: ext.1,
        cleaned_description: ext.2,
    }
}

/// Turns a list of character vectors into strings.
fn strings_of(v: Vec<Vec<char>>) -> (r: Vec<String>)
    ensures
        r@.map_values(|s: String| s@) == v@.map_values(|e: Vec<char>| e@),
{
    let mut r: Vec<String> = Vec::new();
    let mut i: usize = 0;
    while i < v.len()
        invariant
            i <= v@.len(),
            r@.map_values(|s: String| s@) == v@.subrange(0, i as int).map_values(
                |e: Vec<char>| e@,
            ),
        decreases v@.len() - i,
    {
        let ghost pre = r@.map_values(|s: String| s@);
        let sstr = string_of(&v[i]);
        let ghost sv = sstr@;
        r.push(sstr);
        proof {
            assert(r@.map_values(|s: String| s@) =~= pre.push(sv));
            assert(pre.push(sv) =~= v@.subrange(0, i + 1 as int).map_values(
                |e: Vec<char>| e@,
            ));
        }
        i += 1;
    }
    assert(v@.subrange(0, v@.len() as int) =~= v@);
    r
}

/// Normalizes one raw event at the given reference offset.
pub fn normalize_event(raw: RawEvent, offset_seconds: i32) -> (r: NormalizedEvent)
    requires
        -86400 < offset_seconds < 86400,
    ensures
        r@ == spec_normalize_event(raw@, offset_seconds as int),
{
    let sumv = chars_of(raw.summary.as_str());
    let st = trim(&sumv);
    let cls = summary::classify_summary(&st);
    let type_ = string_of(&cls.0);
    let subject = string_of(&cls.1);
    let descv = chars_of(raw.description.as_str());
    let ext = description::extract_teachers_and_promos(&descv);
    let teachers = strings_of(ext.0);
    let promos = strings_of(ext.1);
    let cleaned_description = string_of(&ext.2);
    let startv = chars_of(raw.start.as_str());
    let endv = chars_of(raw.end.as_str());
    let sp = parse_stamp(&startv, offset_seconds);
    let ep = parse_stamp(&endv, offset_seconds);
    let mut duration_minutes_v: i64 = 0;
    let mut start_iso: String = raw.start.clone();
    let mut end_iso: String = raw.end.clone();
    match (sp, ep) {
        (Some(s), Some(e)) => {
            duration_minutes_v = duration_minutes(s.instant, e.instant);
            start_iso = string_of(&format_iso(s.wall));
            end_iso = string_of(&format_iso(e.wall));
        },
        _ => {},
    }
    NormalizedEvent {
        raw,
        subject,
        type_,
        start_iso,
        end_iso,
        duration_minutes: duration_minutes_v,
        teachers,
        promos,
        cleaned_description,
    }
}

/// Normalizes a batch of raw events at the given reference offset: one
/// record per event, in order, each pinned by [`spec_normalize_event`].
pub fn normalize(events: Vec<RawEvent>, offset_seconds: i32) -> (r: Vec<NormalizedEvent>)
    requires
        -86400 < offset_seconds < 86400,
    ensures
        r@.len() == events@.len(),
        forall|i: int| 0 <= i < events@.len() ==> #[trigger] r@[i]@ == spec_normalize_event(
            events@[i]@,
            offset_seconds as int,
        ),
{
    let mut r: Vec<NormalizedEvent> = Vec::new();
    let mut i: usize = 0;
    let n = events.len();
    while i < n
        invariant
            i <= n,
            n == events@.len(),
            r@.len() == i,
            -86400 < offset_seconds < 86400,
            forall|j: int| 0 <= j < i ==> #[trigger] r@[j]@ == spec_normalize_event(
                events@[j]@,
                offset_seconds as int,
            ),
        decreases n - i,
    {
        let ev = clone_raw_event(&events[i]);
        r.push(normalize_event(ev, offset_seconds));
        i += 1;
    }
    r
}


/// Decodes calendar content and normalizes every decoded event at the given
/// reference offset.
pub fn parse_and_normalize(content: &str, offset_seconds: i32) -> (r: Vec<NormalizedEvent>)
    requires
        -86400 < offset_seconds < 86400,
    ensures
        r@.len() == ics::spec_decode(content@).events.len(),
        forall|i: int| 0 <= i < r@.len() ==> #[trigger] r@[i]@ == spec_normalize_event(
            ics::spec_decode(content@).events[i],
            offset_seconds as int,
        ),
{
    let parsed = ics::parse_ics_content(content);
    let ghost pv = parsed@.map_values(|e: RawEvent| e@);
    let r = normalize(parsed, offset_seconds);
    proof {
        assert forall|i: int| 0 <= i < r@.len() implies #[trigger] r@[i]@
            == spec_normalize_event(
            ics::spec_decode(content@).events[i],
            offset_seconds as int,
        ) by {
            assert(pv[i] == parsed@[i]@);
        }
    }
    r
}

/// Decodes calendar content, normalizes the events, and keeps the decoder
/// diagnostics alongside.
pub struct DetailedOutput {
    pub events: Vec<NormalizedEvent>,
    pub diagnostics: ics::ParseDiagnostics,
}

pub fn parse_and_normalize_detailed(content: &str, offset_seconds: i32) -> (r:
    DetailedOutput)
    requires
        -86400 < offset_seconds < 86400,
    ensures
        r.events@.len() == ics::spec_decode(content@).events.len(),
        forall|i: int| 0 <= i < r.events@.len() ==> #[trigger] r.events@[i]@
            == spec_normalize_event(
            ics::spec_decode(content@).events[i],
            offset_seconds as int,
        ),
        r.diagnostics.calendars_parsed == ics::spec_decode(content@).calendars,
        r.diagnostics.parser_errors == ics::spec_decode(content@).errors,
        r.diagnostics.skipped_events_without_uid == ics::spec_decode(content@).skipped,
{
    let parsed = ics::parse_ics_content_with_diagnostics(content);
    let ghost pv = parsed.events@.map_values(|e: RawEvent| e@);
    let events = normalize(parsed.events, offset_seconds);
    proof {
        assert forall|i: int| 0 <= i < events@.len() implies #[trigger] events@[i]@
            == spec_normalize_event(
            ics::spec_decode(content@).events[i],
            offset_seconds as int,
        ) by {
            assert(pv[i] == parsed.events@[i]@);
        }
    }
    DetailedOutput { events, diagnostics: parsed.diagnostics }
}

/// Every normalized event carries a nonempty type code and a nonempty
/// teacher list: the classifier falls back to its sentinel code and the
/// extractor to its sentinel name.
pub proof fn lemma_type_and_teachers_nonempty(r: RawEventView, off: int)
    ensures
        spec_normalize_event(r, off).type_.len() > 0,
        spec_normalize_event(r, off).teachers.len() > 0,
{
    let st = spec_trim(r.summary);
    summary::lemma_type_nonempty(st);
    let ext = spec_extract(r.description);
    assert(ext.0.len() > 0);
}

/// Duration is symmetric to timestamp parse success: when both timestamps
/// parse, the duration is the minute difference of the two instants; when
/// either fails, it is zero.
pub proof fn lemma_duration_parse_symmetry(r: RawEventView, off: int)
    ensures
        (spec_parse_stamp(r.start, off) is Some && spec_parse_stamp(r.end, off) is Some)
            ==> spec_normalize_event(r, off).duration_minutes == spec_duration_minutes(
            spec_parse_stamp(r.start, off)->0.instant as int,
            spec_parse_stamp(r.end, off)->0.instant as int,
        ),
        (spec_parse_stamp(r.start, off) is None || spec_parse_stamp(r.end, off) is None)
            ==> spec_normalize_event(r, off).duration_minutes == 0 && spec_normalize_event(
            r,
            off,
        ).start_iso == r.start && spec_normalize_event(r, off).end_iso == r.end,
{
}

/// Trailing-date stripping fires only on calendar-valid dates: where the
/// trailing expression does not name a real calendar day, or no trailing
/// date expression is found, the whitespace-normalized subject is returned
/// unchanged.
pub proof fn lemma_trailing_date_only_when_valid(subject: Seq<char>)
    ensures
        ({
            let compact = text::spec_collapse_ws(spec_trim(subject));
            match summary::spec_date_scan(compact, 0) {
                Option::None => summary::spec_strip_trailing_date(subject) == compact,
                Option::Some(p) => {
                    let t = summary::spec_tail_date(compact, p)->0;
                    !summary::spec_valid_trailing_date(t.0, t.1, t.2, t.3)
                        ==> summary::spec_strip_trailing_date(subject) == compact
                },
            }
        }),
{
}


/// The teacher and promo lists of every normalized event are strictly
/// sorted alphabetically, so each holds no duplicates.
pub proof fn lemma_event_lists_sorted(r: RawEventView, off: int)
    ensures
        text::strictly_sorted(spec_normalize_event(r, off).teachers),
        text::strictly_sorted(spec_normalize_event(r, off).promos),
{
    description::lemma_extract_lists_sorted(r.description);
}

} // verus!
