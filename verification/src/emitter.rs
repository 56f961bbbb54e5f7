//! The Calendar Emitter: maps the filtered workout sequence to one
//! all-day calendar event per workout on consecutive dates, and the
//! pipeline entry point that strings every stage together.
//!
//! The calendar and date values come from outside crates and are opaque
//! here; what the contracts say of them goes through a few named
//! projections: a date's day ordinal, an event's fields, a calendar's
//! entries and display name.

use vstd::prelude::*;
use vstd::utf8::{valid_utf8, decode_utf8};
use vstd::string::StringExecFns;
use icalendar::Component;
use icalendar::EventLike;
use crate::errors::PlanError;
use crate::workout::{Workout, WorkoutView, build_spec, create_workouts, parse_day};
use crate::segmenter::{segment, segment_spec};
use crate::selector::{select, select_spec};
use crate::decoder::{deobfuscation, b64_decoding};

verus! {

#[verifier::external_type_specification]
#[verifier::external_body]
pub struct ExNaiveDate(chrono::NaiveDate);

#[verifier::external_type_specification]
#[verifier::external_body]
pub struct ExCalendar(icalendar::Calendar);

#[verifier::external_type_specification]
#[verifier::external_body]
pub struct ExEvent(icalendar::Event);

#[verifier::external_type_specification]
#[verifier::external_body]
pub struct ExCalendarComponent(icalendar::CalendarComponent);

/// A date's position in chrono's day count (`Datelike::num_days_from_ce`):
/// consecutive dates have consecutive ordinals.
pub uninterp spec fn day_ordinal(d: chrono::NaiveDate) -> int;

/// What an event holds of the fields this library sets: its `SUMMARY`,
/// its `DESCRIPTION`, and the day ordinal of its all-day date.
pub uninterp spec fn event_parts(e: icalendar::Event) -> (
    Option<Seq<char>>,
    Option<Seq<char>>,
    Option<int>,
);

/// The events a calendar holds, in order, each as its [`event_parts`].
pub uninterp spec fn calendar_entries(c: icalendar::Calendar) -> Seq<
    (Option<Seq<char>>, Option<Seq<char>>, Option<int>),
>;

/// The calendar's display name (its `NAME`/`X-WR-CALNAME` properties),
/// where one was set.
pub uninterp spec fn calendar_display_name(c: icalendar::Calendar) -> Option<Seq<char>>;

/// Whether the date `n` days after `d` still lies in the date library's
/// supported range: exactly the inputs on which
/// `NaiveDate::checked_add_days` succeeds, which depends on `d` and `n`
/// alone.
pub uninterp spec fn date_plus_in_range(d: chrono::NaiveDate, n: u64) -> bool;

/// Relies on `NaiveDate::checked_add_days`: it succeeds exactly where
/// the result stays in chrono's supported date range — the condition
/// `date_plus_in_range` names — and on success the result lies exactly
/// `n` days after `d`.
#[verifier::external_body]
fn date_plus_days(d: &chrono::NaiveDate, n: u64) -> (r: Option<chrono::NaiveDate>)
    ensures
        r is Some <==> date_plus_in_range(*d, n),
        r matches Some(d2) ==> day_ordinal(d2) == day_ordinal(*d) + n,
{
    d.checked_add_days(chrono::Days::new(n))
}

/// Relies on `Calendar::new`: a fresh calendar holds no components and
/// no display name.
#[verifier::external_body]
fn calendar_new() -> (r: icalendar::Calendar)
    ensures
        calendar_entries(r) == Seq::<(Option<Seq<char>>, Option<Seq<char>>, Option<int>)>::empty(),
        calendar_display_name(r) is None,
{
    icalendar::Calendar::new()
}

/// Relies on `Calendar::name`: it appends the display name properties
/// and leaves the component list alone. The calendar must not carry a
/// name yet: `name` appends rather than replaces, and an earlier name
/// property would keep shadowing the new one.
#[verifier::external_body]
fn calendar_set_name(c: &mut icalendar::Calendar, name: &str)
    requires
        calendar_display_name(*old(c)) is None,
    ensures
        calendar_entries(*final(c)) == calendar_entries(*old(c)),
        calendar_display_name(*final(c)) == Some(name@),
{
    c.name(name);
}

/// Relies on `Calendar::push`: it appends the event to the calendar's
/// component list and touches nothing else.
#[verifier::external_body]
fn calendar_push_event(c: &mut icalendar::Calendar, e: icalendar::Event)
    ensures
        calendar_entries(*final(c)) == calendar_entries(*old(c)).push(event_parts(e)),
        calendar_display_name(*final(c)) == calendar_display_name(*old(c)),
{
    c.push(e);
}

/// Relies on `Event::new`: a fresh event has none of its fields set.
#[verifier::external_body]
fn event_new() -> (r: icalendar::Event)
    ensures
        event_parts(r) == (None::<Seq<char>>, None::<Seq<char>>, None::<int>),
{
    icalendar::Event::new()
}

/// Relies on `Component::summary`: it sets the event's `SUMMARY` and
/// leaves the other fields alone.
#[verifier::external_body]
fn event_set_summary(e: &mut icalendar::Event, text: &str)
    ensures
        event_parts(*final(e)) == (
            Some(text@),
            event_parts(*old(e)).1,
            event_parts(*old(e)).2,
        ),
{
    e.summary(text);
}

/// Relies on `Component::description`: it sets the event's `DESCRIPTION`
/// and leaves the other fields alone.
#[verifier::external_body]
fn event_set_description(e: &mut icalendar::Event, text: &str)
    ensures
        event_parts(*final(e)) == (
            event_parts(*old(e)).0,
            Some(text@),
            event_parts(*old(e)).2,
        ),
{
    e.description(text);
}

/// Relies on `Component::all_day`: it sets the event's start and end to
/// the given date, date only, and leaves the text fields alone.
#[verifier::external_body]
fn event_set_all_day(e: &mut icalendar::Event, d: &chrono::NaiveDate)
    ensures
        event_parts(*final(e)) == (
            event_parts(*old(e)).0,
            event_parts(*old(e)).1,
            Some(day_ordinal(*d)),
        ),
{
    e.all_day(*d);
}

/// The entry the emitter owes for workout `w` on day ordinal `ord`:
/// summary is the title, description the title followed immediately by
/// the body, with no separator.
pub open spec fn event_entry(w: WorkoutView, ord: int) -> (
    Option<Seq<char>>,
    Option<Seq<char>>,
    Option<int>,
) {
    (Some(w.title), Some(w.title + w.body), Some(ord))
}

/// The calendar entries the emitter owes: one per workout, in order, on
/// consecutive day ordinals from `anchor` on.
pub open spec fn emitted_entries(ws: Seq<WorkoutView>, anchor: int) -> Seq<
    (Option<Seq<char>>, Option<Seq<char>>, Option<int>),
> {
    Seq::new(ws.len(), |i: int| event_entry(ws[i], anchor + i))
}

/// Maps each workout to one all-day event, dated consecutively from
/// `workout_date`, in sequence order. It succeeds whenever every
/// assigned date stays in the date library's range, and fails, with the
/// date-range error alone, exactly where some assigned date does not.
pub fn create_workout_calendar(workout_date: chrono::NaiveDate, workouts: Vec<Workout>) -> (r:
    Result<icalendar::Calendar, PlanError>)
    ensures
        r matches Ok(c) ==> calendar_entries(c) == emitted_entries(
            workouts.deep_view(),
            day_ordinal(workout_date),
        ) && calendar_display_name(c) == Some("FitmacherFormel"@),
        (forall|i: u64| i < workouts@.len() ==> date_plus_in_range(workout_date, i)) ==> r is Ok,
        r matches Err(e) ==> e == PlanError::DateOutOfRange && exists|i: u64|
            i < workouts@.len() && !date_plus_in_range(workout_date, i),
{
    let ghost dv = workouts.deep_view();
    let ghost anchor = day_ordinal(workout_date);
    let mut cal = calendar_new();
    calendar_set_name(&mut cal, "FitmacherFormel");
    let n = workouts.len();
    proof {
        assert(dv.len() == n);
        assert(calendar_entries(cal) =~= emitted_entries(dv.take(0), anchor));
    }
    let mut i: usize = 0;
    while i < n
        invariant
            i <= n,
            n == workouts@.len(),
            dv == workouts.deep_view(),
            dv.len() == n,
            anchor == day_ordinal(workout_date),
            calendar_display_name(cal) == Some("FitmacherFormel"@),
            calendar_entries(cal) == emitted_entries(dv.take(i as int), anchor),
        decreases n - i,
    {
        let date_i = match date_plus_days(&workout_date, i as u64) {
            Some(d) => d,
            None => {
                proof {
                    assert(!date_plus_in_range(workout_date, i as u64));
                }
                return Err(PlanError::DateOutOfRange);
            },
        };
        let w = &workouts[i];
        let mut desc: String = w.title.clone();
        desc.append(w.body.as_str());
        let mut ev = event_new();
        event_set_summary(&mut ev, w.title.as_str());
        event_set_description(&mut ev, desc.as_str());
        event_set_all_day(&mut ev, &date_i);
        proof {
            assert(w@ == dv[i as int]);
            assert(event_parts(ev) == event_entry(dv[i as int], anchor + i));
        }
        calendar_push_event(&mut cal, ev);
        proof {
            assert(calendar_entries(cal) =~= emitted_entries(dv.take(i + 1), anchor));
        }
        i = i + 1;
    }
    proof {
        assert(dv.take(n as int) =~= dv);
    }
    Ok(cal)
}

/// The record stream a document text owes: the built pairing of its
/// chunk sequence.
pub open spec fn pipeline_records(text: Seq<char>) -> Result<Seq<WorkoutView>, Seq<char>> {
    build_spec(segment_spec(text))
}

/// The Segmenter's output always pairs cleanly: every chunk it hands the
/// Record Builder at an even position is a marker line, whose day prefix
/// always parses. So the records of any document text build with no
/// failure, one record per chunk pair, `(len + 1) / 2` in all.
pub proof fn lemma_pipeline_records_total(text: Seq<char>)
    ensures
        pipeline_records(text) matches Ok(ws) && ws.len() == (segment_spec(text).len() + 1) / 2,
{
    crate::segmenter::lemma_even_chunks_are_markers(text);
    let chunks = segment_spec(text);
    assert forall|k: int| 0 <= k < chunks.len() && k % 2 == 0 implies (#[trigger] parse_day(
        chunks[k],
    )) is Some by {
        crate::workout::lemma_marker_chunk_parses(chunks[k]);
    }
    crate::workout::lemma_build_pairs_cleanly(chunks);
}

/// The whole pipeline: decodes the obfuscated document, splits it at the
/// day markers, pairs the chunks into workout records, keeps the records
/// with day ordinal at least `first_workout`, and emits the calendar.
pub fn create_calendar_from_input(encoded: &str, workout_date: chrono::NaiveDate, first_workout: u8)
    -> (r: Result<icalendar::Calendar, PlanError>)
    ensures
        ({
            let dec = b64_decoding(encoded@);
            match r {
                Ok(c) => {
                    &&& dec matches Some(bytes)
                    &&& valid_utf8(bytes)
                    &&& pipeline_records(decode_utf8(bytes)) matches Ok(ws)
                    &&& calendar_entries(c) == emitted_entries(
                        select_spec(ws, first_workout),
                        day_ordinal(workout_date),
                    )
                    &&& calendar_display_name(c) == Some("FitmacherFormel"@)
                },
                Err(PlanError::DecodeError) => dec is None,
                Err(PlanError::EncodingError) => {
                    &&& dec matches Some(bytes)
                    &&& !valid_utf8(bytes)
                },
                Err(PlanError::MalformedWorkoutTitle(bad)) => {
                    &&& dec matches Some(bytes)
                    &&& valid_utf8(bytes)
                    &&& pipeline_records(decode_utf8(bytes)) matches Err(t)
                    &&& bad@ == t
                },
                Err(PlanError::DateOutOfRange) => {
                    &&& dec matches Some(bytes)
                    &&& valid_utf8(bytes)
                    &&& pipeline_records(decode_utf8(bytes)) matches Ok(ws)
                    &&& exists|i: u64|
                        i < select_spec(ws, first_workout).len() && !date_plus_in_range(
                            workout_date,
                            i,
                        )
                },
            }
        }),
        ({
            let dec = b64_decoding(encoded@);
            ({
                &&& dec matches Some(bytes)
                &&& valid_utf8(bytes)
                &&& pipeline_records(decode_utf8(bytes)) matches Ok(ws)
                &&& forall|i: u64|
                    i < select_spec(ws, first_workout).len() ==> date_plus_in_range(
                        workout_date,
                        i,
                    )
            }) ==> r is Ok
        }),
{
    let text = match deobfuscation(encoded) {
        Ok(t) => t,
        Err(e) => {
            return Err(e);
        },
    };
    let chunks = segment(text.as_str());
    let workouts = match create_workouts(chunks) {
        Ok(w) => w,
        Err(e) => {
            return Err(e);
        },
    };
    let selected = select(workouts, first_workout);
    create_workout_calendar(workout_date, selected)
}

} // verus!
