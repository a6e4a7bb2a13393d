//! A line-oriented decoder for the calendar exchange format: physical lines
//! are unfolded, `BEGIN`/`END` component delimiters tracked, and the six
//! event fields collected, with backslash escapes decoded and diagnostics
//! counted. A calendar left open at the end of input is reported as a parse
//! error and contributes no events.

use vstd::prelude::*;
use crate::chars::{is_blank, blank_char};
use crate::text::{chars_of, string_of, subvec};
use crate::description::{replace2, replace2_from, spec_raw_lines, raw_lines, char_find,
    char_find_exec};
use crate::names::eq_str;
use crate::{RawEvent, RawEventView};

verus! {

/// Counters and sampled messages from one decoding run.
#[derive(Clone, Debug)]
pub struct ParseDiagnostics {
    pub calendars_parsed: u32,
    pub parser_errors: u32,
    pub skipped_events_without_uid: u32,
    pub parser_error_messages: Vec<String>,
}

/// The decoded events together with the diagnostics.
#[derive(Clone, Debug)]
pub struct ParseOutput {
    pub events: Vec<RawEvent>,
    pub diagnostics: ParseDiagnostics,
}

/// Decoding of the backslash escapes for line breaks, commas, semicolons
/// and backslashes, applied in that order.
pub open spec fn spec_unescape(s: Seq<char>) -> Seq<char> {
    let a = replace2_from(s, 0, '\\', 'n', '\n');
    let b = replace2_from(a, 0, '\\', 'N', '\n');
    let c = replace2_from(b, 0, '\\', ',', ',');
    let d = replace2_from(c, 0, '\\', ';', ';');
    replace2_from(d, 0, '\\', '\\', '\\')
}

/// Decodes the backslash escapes of a field value.
pub fn unescape_ics(v: &Vec<char>) -> (r: Vec<char>)
    ensures
        r@ == spec_unescape(v@),
{
    let a = replace2(v, '\\', 'n', '\n');
    let b = replace2(&a, '\\', 'N', '\n');
    let c = replace2(&b, '\\', ',', ',');
    let d = replace2(&c, '\\', ';', ';');
    replace2(&d, '\\', '\\', '\\')
}

/// A physical line with a trailing carriage return dropped.
pub open spec fn strip_cr(l: Seq<char>) -> Seq<char> {
    if l.len() > 0 && l[l.len() - 1] == '\r' {
        l.subrange(0, l.len() - 1)
    } else {
        l
    }
}

/// The logical lines: physical lines folded onto the previous line when they
/// begin with a blank, the blank itself dropped.
pub open spec fn unfold_fold(segs: Seq<Seq<char>>, j: int, done: Seq<Seq<char>>) -> Seq<
    Seq<char>,
>
    decreases segs.len() - j when 0 <= j
{
    if j >= segs.len() {
        done
    } else {
        let l = strip_cr(segs[j]);
        if l.len() > 0 && is_blank(l[0]) && done.len() > 0 {
            unfold_fold(
                segs,
                j + 1,
                done.update(done.len() - 1, done[done.len() - 1] + l.subrange(1, l.len() as int)),
            )
        } else {
            unfold_fold(segs, j + 1, done.push(l))
        }
    }
}

pub open spec fn spec_logical_lines(content: Seq<char>) -> Seq<Seq<char>> {
    unfold_fold(spec_raw_lines(content), 0, Seq::empty())
}

/// Splits content into logical lines.
fn logical_lines(content: &Vec<char>) -> (r: Vec<Vec<char>>)
    ensures
        r@.map_values(|l: Vec<char>| l@) == spec_logical_lines(content@),
{
    let segs = raw_lines(content);
    let ghost ss = segs@.map_values(|l: Vec<char>| l@);
    let mut done: Vec<Vec<char>> = Vec::new();
    assert(done@.map_values(|l: Vec<char>| l@) =~= Seq::<Seq<char>>::empty());
    let mut j: usize = 0;
    while j < segs.len()
        invariant
            j <= segs@.len(),
            ss == segs@.map_values(|l: Vec<char>| l@),
            unfold_fold(ss, j as int, done@.map_values(|l: Vec<char>| l@)) == unfold_fold(
                ss,
                0,
                Seq::empty(),
            ),
        decreases segs@.len() - j,
    {
        assert(ss[j as int] == segs@.map_values(|l: Vec<char>| l@)[j as int]);
        let ghost d0 = done@.map_values(|l: Vec<char>| l@);
        let seg = &segs[j];
        let mut l: Vec<char>;
        if seg.len() > 0 && seg[seg.len() - 1] == '\r' {
            l = subvec(seg, 0, seg.len() - 1);
        } else {
            l = subvec(seg, 0, seg.len());
            assert(l@ =~= seg@);
        }
        assert(l@ == strip_cr(ss[j as int]));
        if l.len() > 0 && blank_char(l[0]) && done.len() > 0 {
            let last = done.len() - 1;
            let mut tail = subvec(&l, 1, l.len());
            let mut merged = done.remove(last);
            let ghost m0 = merged@;
            let mut k: usize = 0;
            while k < tail.len()
                invariant
                    k <= tail@.len(),
                    merged@ == m0 + tail@.subrange(0, k as int),
                decreases tail@.len() - k,
            {
                merged.push(tail[k]);
                assert(merged@ =~= m0 + tail@.subrange(0, k + 1 as int));
                k += 1;
            }
            assert(tail@.subrange(0, tail@.len() as int) =~= tail@);
            done.push(merged);
            proof {
                assert(done@.map_values(|x: Vec<char>| x@) =~= d0.update(
                    d0.len() - 1,
                    d0[d0.len() - 1] + strip_cr(ss[j as int]).subrange(
                        1,
                        strip_cr(ss[j as int]).len() as int,
                    ),
                ));
            }
        } else {
            done.push(l);
            assert(done@.map_values(|x: Vec<char>| x@) =~= d0.push(strip_cr(ss[j as int])));
        }
        j += 1;
    }
    done
}

/// The decoder state: which component is open, the fields gathered for the
/// current event, the events and skip count of the current calendar, and the
/// committed output with its diagnostics.
pub struct DecodeState {
    pub in_cal: bool,
    pub in_event: bool,
    pub uid: Seq<char>,
    pub summary: Seq<char>,
    pub description: Seq<char>,
    pub location: Seq<char>,
    pub start: Seq<char>,
    pub end: Seq<char>,
    pub cal_events: Seq<RawEventView>,
    pub cal_skipped: int,
    pub skipped: int,
    pub events: Seq<RawEventView>,
    pub calendars: int,
    pub errors: int,
    pub msgs: Seq<Seq<char>>,
}

/// A counter stepped without wrapping.
pub open spec fn bump(x: int) -> int {
    if x < 0xffff_ffff {
        x + 1
    } else {
        x
    }
}

pub open spec fn init_state() -> DecodeState {
    DecodeState {
        in_cal: false,
        in_event: false,
        uid: Seq::empty(),
        summary: Seq::empty(),
        description: Seq::empty(),
        location: Seq::empty(),
        start: Seq::empty(),
        end: Seq::empty(),
        cal_events: Seq::empty(),
        cal_skipped: 0,
        skipped: 0,
        events: Seq::empty(),
        calendars: 0,
        errors: 0,
        msgs: Seq::empty(),
    }
}

/// An error recorded in the state: the counter stepped and the message
/// sampled while fewer than five are held.
pub open spec fn note_error(st: DecodeState, msg: Seq<char>) -> DecodeState {
    DecodeState {
        errors: bump(st.errors),
        msgs: if st.msgs.len() < 5 {
            st.msgs.push(msg)
        } else {
            st.msgs
        },
        ..st
    }
}

pub open spec fn cur_event(st: DecodeState) -> RawEventView {
    RawEventView {
        uid: st.uid,
        summary: st.summary,
        description: st.description,
        location: st.location,
        start: st.start,
        end: st.end,
    }
}

pub open spec fn clear_fields(st: DecodeState) -> DecodeState {
    DecodeState {
        uid: Seq::empty(),
        summary: Seq::empty(),
        description: Seq::empty(),
        location: Seq::empty(),
        start: Seq::empty(),
        end: Seq::empty(),
        ..st
    }
}

/// One logical line applied to the decoder state.
pub open spec fn spec_step(st: DecodeState, l: Seq<char>) -> DecodeState {
    if l.len() == 0 {
        st
    } else {
        let c = char_find(l, 0, ':');
        if c >= l.len() {
            note_error(st, "content line without a value separator"@)
        } else {
            let semi = char_find(l, 0, ';');
            let nm_end = if semi < c {
                semi
            } else {
                c
            };
            let name = l.subrange(0, nm_end);
            let value = l.subrange(c + 1, l.len() as int);
            if name == "BEGIN"@ {
                if value == "VCALENDAR"@ {
                    if !st.in_cal && !st.in_event {
                        DecodeState {
                            in_cal: true,
                            cal_events: Seq::empty(),
                            cal_skipped: 0,
                            ..st
                        }
                    } else {
                        note_error(st, "misplaced component delimiter"@)
                    }
                } else if value == "VEVENT"@ {
                    if st.in_cal && !st.in_event {
                        clear_fields(DecodeState { in_event: true, ..st })
                    } else {
                        note_error(st, "misplaced component delimiter"@)
                    }
                } else {
                    st
                }
            } else if name == "END"@ {
                if value == "VCALENDAR"@ {
                    if st.in_cal && !st.in_event {
                        DecodeState {
                            in_cal: false,
                            events: st.events + st.cal_events,
                            calendars: bump(st.calendars),
                            cal_events: Seq::empty(),
                            skipped: if st.cal_skipped <= 0xffff_ffff - st.skipped {
                                st.skipped + st.cal_skipped
                            } else {
                                0xffff_ffff
                            },
                            cal_skipped: 0,
                            ..st
                        }
                    } else {
                        note_error(st, "misplaced component delimiter"@)
                    }
                } else if value == "VEVENT"@ {
                    if st.in_event {
                        if st.uid.len() > 0 {
                            DecodeState {
                                in_event: false,
                                cal_events: st.cal_events.push(cur_event(st)),
                                ..st
                            }
                        } else {
                            DecodeState {
                                in_event: false,
                                cal_skipped: bump(st.cal_skipped),
                                ..st
                            }
                        }
                    } else {
                        note_error(st, "misplaced component delimiter"@)
                    }
                } else {
                    st
                }
            } else if st.in_event {
                if name == "UID"@ {
                    DecodeState { uid: value, ..st }
                } else if name == "SUMMARY"@ {
                    DecodeState { summary: spec_unescape(value), ..st }
                } else if name == "DESCRIPTION"@ {
                    DecodeState { description: spec_unescape(value), ..st }
                } else if name == "LOCATION"@ {
                    DecodeState { location: spec_unescape(value), ..st }
                } else if name == "DTSTART"@ {
                    DecodeState { start: value, ..st }
                } else if name == "DTEND"@ {
                    DecodeState { end: value, ..st }
                } else {
                    st
                }
            } else {
                st
            }
        }
    }
}

pub open spec fn fold_lines(lines: Seq<Seq<char>>, j: int, st: DecodeState) -> DecodeState
    decreases lines.len() - j when 0 <= j
{
    if j >= lines.len() {
        st
    } else {
        fold_lines(lines, j + 1, spec_step(st, lines[j]))
    }
}

/// End of input: a component still open is a parse error and its events are
/// dropped.
pub open spec fn spec_finish(st: DecodeState) -> DecodeState {
    if st.in_cal || st.in_event {
        note_error(st, "unterminated component"@)
    } else {
        st
    }
}

/// The decoder over whole content.
pub open spec fn spec_decode(content: Seq<char>) -> DecodeState {
    spec_finish(fold_lines(spec_logical_lines(content), 0, init_state()))
}

/// The exec decoder state mirroring [`DecodeState`].
struct Machine {
    in_cal: bool,
    in_event: bool,
    uid: Vec<char>,
    summary: Vec<char>,
    description: Vec<char>,
    location: Vec<char>,
    start: Vec<char>,
    end: Vec<char>,
    cal_events: Vec<RawEvent>,
    cal_skipped: u32,
    skipped: u32,
    events: Vec<RawEvent>,
    calendars: u32,
    errors: u32,
    msgs: Vec<String>,
}

impl View for Machine {
    type V = DecodeState;

    closed spec fn view(&self) -> DecodeState {
        DecodeState {
            in_cal: self.in_cal,
            in_event: self.in_event,
            uid: self.uid@,
            summary: self.summary@,
            description: self.description@,
            location: self.location@,
            start: self.start@,
            end: self.end@,
            cal_events: self.cal_events@.map_values(|e: RawEvent| e@),
            cal_skipped: self.cal_skipped as int,
            skipped: self.skipped as int,
            events: self.events@.map_values(|e: RawEvent| e@),
            calendars: self.calendars as int,
            errors: self.errors as int,
            msgs: self.msgs@.map_values(|m: String| m@),
        }
    }
}

fn machine_error(m: &mut Machine, msg: &str)
    ensures
        final(m)@ == note_error(old(m)@, msg@),
{
    let ghost pre = m@.msgs;
    if m.errors < 0xffff_ffff {
        m.errors = m.errors + 1;
    }
    if m.msgs.len() < 5 {
        m.msgs.push(string_of(&chars_of(msg)));
        assert(m@.msgs =~= pre.push(msg@));
    }
}

fn step(m: Machine, l: &Vec<char>) -> (r: Machine)
    ensures
        r@ == spec_step(m@, l@),
{
    let ghost st0 = m@;
    let mut m = m;
    let n = l.len();
    if n == 0 {
        return m;
    }
    let c = char_find_exec(l, 0, ':');
    if c >= n {
        machine_error(&mut m, "content line without a value separator");
        return m;
    }
    let semi = char_find_exec(l, 0, ';');
    let nm_end = if semi < c {
        semi
    } else {
        c
    };
    let name = subvec(l, 0, nm_end);
    let value = subvec(l, c + 1, n);
    if eq_str(&name, "BEGIN") {
        if eq_str(&value, "VCALENDAR") {
            if !m.in_cal && !m.in_event {
                m.in_cal = true;
                m.cal_events = Vec::new();
                m.cal_skipped = 0;
                assert(m@.cal_events =~= Seq::<RawEventView>::empty());
            } else {
                machine_error(&mut m, "misplaced component delimiter");
            }
        } else if eq_str(&value, "VEVENT") {
            if m.in_cal && !m.in_event {
                m.in_event = true;
                m.uid = Vec::new();
                m.summary = Vec::new();
                m.description = Vec::new();
                m.location = Vec::new();
                m.start = Vec::new();
                m.end = Vec::new();
                assert(m@.uid =~= Seq::<char>::empty());
                assert(m@.summary =~= Seq::<char>::empty());
                assert(m@.description =~= Seq::<char>::empty());
                assert(m@.location =~= Seq::<char>::empty());
                assert(m@.start =~= Seq::<char>::empty());
                assert(m@.end =~= Seq::<char>::empty());
            } else {
                machine_error(&mut m, "misplaced component delimiter");
            }
        }
    } else if eq_str(&name, "END") {
        if eq_str(&value, "VCALENDAR") {
            if m.in_cal && !m.in_event {
                let ghost ev0 = m@.events;
                let ghost cal0 = m@.cal_events;
                m.in_cal = false;
                let mut moved = m.cal_events;
                m.cal_events = Vec::new();
                let mut k: usize = 0;
                while k < moved.len()
                    invariant
                        k <= moved@.len(),
                        moved@.map_values(|e: RawEvent| e@) == cal0,
                        m.events@.map_values(|e: RawEvent| e@) == ev0 + cal0.subrange(
                            0,
                            k as int,
                        ),
                        m.in_cal == false,
                        m.in_event == st0.in_event,
                        m.uid@ == st0.uid,
                        m.summary@ == st0.summary,
                        m.description@ == st0.description,
                        m.location@ == st0.location,
                        m.start@ == st0.start,
                        m.end@ == st0.end,
                        m.cal_events@ =~= Seq::<RawEvent>::empty(),
                        m.cal_skipped as int == st0.cal_skipped,
                        m.skipped as int == st0.skipped,
                        m.calendars as int == st0.calendars,
                        m.errors as int == st0.errors,
                        m.msgs@.map_values(|x: String| x@) == st0.msgs,
                    decreases moved@.len() - k,
                {
                    assert(cal0[k as int] == moved@.map_values(|e: RawEvent| e@)[k as int]);
                    let ev = crate::clone_raw_event(&moved[k]);
                    let ghost em0 = m.events@.map_values(|e: RawEvent| e@);
                    m.events.push(ev);
                    proof {
                        assert(m.events@.map_values(|e: RawEvent| e@) =~= em0.push(
                            cal0[k as int],
                        ));
                        assert(em0.push(cal0[k as int]) =~= ev0 + cal0.subrange(
                            0,
                            k + 1 as int,
                        ));
                    }
                    k += 1;
                }
                assert(cal0.subrange(0, cal0.len() as int) =~= cal0);
                if m.calendars < 0xffff_ffff {
                    m.calendars = m.calendars + 1;
                }
                if m.cal_skipped <= 0xffff_ffff - m.skipped {
                    m.skipped = m.skipped + m.cal_skipped;
                } else {
                    m.skipped = 0xffff_ffff;
                }
                m.cal_skipped = 0;
                assert(m@.cal_events =~= Seq::<RawEventView>::empty());
            } else {
                machine_error(&mut m, "misplaced component delimiter");
            }
        } else if eq_str(&value, "VEVENT") {
            if m.in_event {
                m.in_event = false;
                if m.uid.len() > 0 {
                    let ghost cal0 = m@.cal_events;
                    let ev = RawEvent {
                        uid: string_of(&m.uid),
                        summary: string_of(&m.summary),
                        description: string_of(&m.description),
                        location: string_of(&m.location),
                        start: string_of(&m.start),
                        end: string_of(&m.end),
                    };
                    assert(ev@ == cur_event(st0));
                    m.cal_events.push(ev);
                    assert(m@.cal_events =~= cal0.push(cur_event(st0)));
                } else {
                    if m.cal_skipped < 0xffff_ffff {
                        m.cal_skipped = m.cal_skipped + 1;
                    }
                }
            } else {
                machine_error(&mut m, "misplaced component delimiter");
            }
        }
    } else if m.in_event {
        if eq_str(&name, "UID") {
            m.uid = value;
        } else if eq_str(&name, "SUMMARY") {
            m.summary = unescape_ics(&value);
        } else if eq_str(&name, "DESCRIPTION") {
            m.description = unescape_ics(&value);
        } else if eq_str(&name, "LOCATION") {
            m.location = unescape_ics(&value);
        } else if eq_str(&name, "DTSTART") {
            m.start = value;
        } else if eq_str(&name, "DTEND") {
            m.end = value;
        }
    }
    m
}

/// Decodes calendar content into raw events and diagnostics, as
/// [`spec_decode`] describes.
pub fn parse_ics_content_with_diagnostics(content: &str) -> (r: ParseOutput)
    ensures
        r.events@.map_values(|e: RawEvent| e@) == spec_decode(content@).events,
        r.diagnostics.calendars_parsed == spec_decode(content@).calendars,
        r.diagnostics.parser_errors == spec_decode(content@).errors,
        r.diagnostics.skipped_events_without_uid == spec_decode(content@).skipped,
        r.diagnostics.parser_error_messages@.map_values(|m: String| m@) == spec_decode(
            content@,
        ).msgs,
{
    let cv = chars_of(content);
    let lines = logical_lines(&cv);
    let ghost lspec = spec_logical_lines(cv@);
    let mut m = Machine {
        in_cal: false,
        in_event: false,
        uid: Vec::new(),
        summary: Vec::new(),
        description: Vec::new(),
        location: Vec::new(),
        start: Vec::new(),
        end: Vec::new(),
        cal_events: Vec::new(),
        cal_skipped: 0,
        skipped: 0,
        events: Vec::new(),
        calendars: 0,
        errors: 0,
        msgs: Vec::new(),
    };
    assert(m@ =~= init_state()) by {
        assert(m@.uid =~= Seq::<char>::empty());
        assert(m@.summary =~= Seq::<char>::empty());
        assert(m@.description =~= Seq::<char>::empty());
        assert(m@.location =~= Seq::<char>::empty());
        assert(m@.start =~= Seq::<char>::empty());
        assert(m@.end =~= Seq::<char>::empty());
        assert(m@.cal_events =~= Seq::<RawEventView>::empty());
        assert(m@.events =~= Seq::<RawEventView>::empty());
        assert(m@.msgs =~= Seq::<Seq<char>>::empty());
    }
    let mut j: usize = 0;
    let nl = lines.len();
    while j < nl
        invariant
            j <= nl,
            nl == lines@.len(),
            lines@.map_values(|l: Vec<char>| l@) == lspec,
            fold_lines(lspec, j as int, m@) == fold_lines(lspec, 0, init_state()),
        decreases nl - j,
    {
        assert(lspec[j as int] == lines@.map_values(|l: Vec<char>| l@)[j as int]);
        m = step(m, &lines[j]);
        j += 1;
    }
    if m.in_cal || m.in_event {
        machine_error(&mut m, "unterminated component");
    }
    assert(m@ == spec_decode(cv@));
    ParseOutput {
        events: m.events,
        diagnostics: ParseDiagnostics {
            calendars_parsed: m.calendars,
            parser_errors: m.errors,
            skipped_events_without_uid: m.skipped,
            parser_error_messages: m.msgs,
        },
    }
}

/// Decodes calendar content into its raw events.
pub fn parse_ics_content(content: &str) -> (r: Vec<RawEvent>)
    ensures
        r@.map_values(|e: RawEvent| e@) == spec_decode(content@).events,
{
    parse_ics_content_with_diagnostics(content).events
}

} // verus!
