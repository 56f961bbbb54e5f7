//! Workout records: parsing the day ordinal out of a title line, building
//! one record from a (title, body) pair, and pairing a whole chunk
//! sequence into the ordered record stream.

use vstd::prelude::*;
use vstd::string::StrSliceExecFns;
use crate::errors::PlanError;
use crate::text::{
    is_digit, digit_value, char_is_digit, find_char_from, find_char, trim_end_spec, trim_end,
};

verus! {

/// One parsed record: the marker line, the content that followed it with
/// trailing whitespace removed, and the day ordinal parsed from the line.
#[derive(Debug, Clone)]
pub struct Workout {
    pub title: String,
    pub body: String,
    pub day: u8,
}

/// The mathematical value of a [`Workout`].
pub struct WorkoutView {
    pub title: Seq<char>,
    pub body: Seq<char>,
    pub day: u8,
}

impl View for Workout {
    type V = WorkoutView;

    open spec fn view(&self) -> WorkoutView {
        WorkoutView { title: self.title@, body: self.body@, day: self.day }
    }
}

impl DeepView for Workout {
    type V = WorkoutView;

    open spec fn deep_view(&self) -> WorkoutView {
        self.view()
    }
}

/// The part of a title before its first `.`, or the whole title where it
/// has none: the day ordinal is read from this prefix.
pub open spec fn day_prefix(title: Seq<char>) -> Seq<char> {
    match find_char_from(title, 0, '.') {
        Some(i) => title.subrange(0, i),
        None => title,
    }
}

pub open spec fn all_digits(s: Seq<char>) -> bool {
    forall|k: int| 0 <= k < s.len() ==> is_digit(#[trigger] s[k])
}

/// The value of a string of decimal digits, most significant first.
pub open spec fn digits_value(s: Seq<char>) -> int
    decreases s.len(),
{
    if s.len() == 0 {
        0
    } else {
        digits_value(s.drop_last()) * 10 + digit_value(s.last())
    }
}

/// The day ordinal a title yields: its prefix before the first `.` must be
/// one or more decimal digits whose value fits the day range; anything
/// else is a malformed title.
pub open spec fn parse_day(title: Seq<char>) -> Option<u8> {
    let p = day_prefix(title);
    if p.len() > 0 && all_digits(p) && digits_value(p) <= 255 {
        Some(digits_value(p) as u8)
    } else {
        None
    }
}

pub proof fn lemma_digits_value_nonneg(s: Seq<char>)
    requires
        all_digits(s),
    ensures
        digits_value(s) >= 0,
    decreases s.len(),
{
    if s.len() > 0 {
        assert(all_digits(s.drop_last())) by {
            assert(forall|k: int|
                0 <= k < s.len() - 1 ==> #[trigger] s.drop_last()[k] == s[k]);
        }
        lemma_digits_value_nonneg(s.drop_last());
    }
}

/// The day ordinal of a title, as [`parse_day`] states it.
pub fn title_day(title: &str) -> (r: Option<u8>)
    ensures
        r == parse_day(title@),
{
    let n: usize = title.unicode_len();
    let end: usize = match find_char(title, n, 0, '.') {
        Some(i) => i,
        None => n,
    };
    proof {
        if find_char_from(title@, 0, '.') is Some {
            crate::text::lemma_find_char_from_bounds(title@, 0, '.');
        } else {
            assert(title@.subrange(0, n as int) =~= title@);
        }
        assert(day_prefix(title@) == title@.subrange(0, end as int));
    }
    let ghost pfx = title@.subrange(0, end as int);
    if end == 0 {
        return None;
    }
    let mut i: usize = 0;
    let mut val: u32 = 0;
    while i < end
        invariant
            i <= end,
            end <= n,
            n == title@.len(),
            pfx == title@.subrange(0, end as int),
            day_prefix(title@) == pfx,
            pfx.len() == end,
            all_digits(pfx.subrange(0, i as int)),
            if digits_value(pfx.subrange(0, i as int)) <= 255 {
                val == digits_value(pfx.subrange(0, i as int))
            } else {
                val == 256
            },
            val <= 256,
        decreases end - i,
    {
        let c = title.get_char(i);
        proof {
            assert(pfx[i as int] == title@[i as int]);
        }
        if !char_is_digit(c) {
            proof {
                assert(!is_digit(pfx[i as int]));
                assert(!all_digits(pfx));
            }
            return None;
        }
        let ghost prev = pfx.subrange(0, i as int);
        proof {
            let cur = pfx.subrange(0, i + 1);
            assert(cur.drop_last() =~= prev);
            assert(cur.last() == pfx[i as int]);
            assert(forall|k: int| 0 <= k < i ==> #[trigger] cur[k] == prev[k]);
            lemma_digits_value_nonneg(prev);
        }
        val = val * 10 + (c as u32 - 48);
        if val > 255 {
            val = 256;
        }
        i = i + 1;
    }
    proof {
        assert(pfx.subrange(0, end as int) =~= pfx);
    }
    if val <= 255 {
        Some(val as u8)
    } else {
        None
    }
}

impl Workout {
    /// Builds one record from a title and a body: the body's trailing
    /// whitespace is stripped, and the title must yield a day ordinal,
    /// else the record is refused as a malformed title.
    pub fn new(title: String, body: String) -> (r: Result<Workout, PlanError>)
        ensures
            match parse_day(title@) {
                Some(d) => r matches Ok(w) && w@ == (WorkoutView {
                    title: title@,
                    body: trim_end_spec(body@),
                    day: d,
                }),
                None => r matches Err(e) && (e matches PlanError::MalformedWorkoutTitle(t)
                    && t@ == title@),
            },
    {
        match title_day(title.as_str()) {
            Some(d) => Ok(Workout { body: trim_end(body.as_str()), title, day: d }),
            None => Err(PlanError::MalformedWorkoutTitle(title)),
        }
    }
}

/// Pairs a chunk sequence two at a time into records: even positions are
/// titles, odd positions bodies, and a trailing unpaired title gets an
/// empty body. The first title that yields no day ordinal fails the
/// whole build, carrying the offending title text.
pub open spec fn build_spec(chunks: Seq<Seq<char>>) -> Result<Seq<WorkoutView>, Seq<char>>
    decreases chunks.len(),
{
    if chunks.len() == 0 {
        Ok(Seq::empty())
    } else {
        let title = chunks[0];
        let body = if chunks.len() >= 2 {
            chunks[1]
        } else {
            Seq::empty()
        };
        let rest = if chunks.len() >= 2 {
            chunks.skip(2)
        } else {
            Seq::<Seq<char>>::empty()
        };
        match parse_day(title) {
            None => Err(title),
            Some(d) => match build_spec(rest) {
                Err(t) => Err(t),
                Ok(ws) => Ok(seq![WorkoutView { title, body: trim_end_spec(body), day: d }] + ws),
            },
        }
    }
}

/// Builds the record stream from the chunk sequence, pairing it as
/// [`build_spec`] states; the first malformed title aborts the build.
pub fn create_workouts(chunks: Vec<String>) -> (r: Result<Vec<Workout>, PlanError>)
    ensures
        match build_spec(chunks.deep_view()) {
            Ok(ws) => r matches Ok(v) && v.deep_view() == ws,
            Err(t) => r matches Err(e) && (e matches PlanError::MalformedWorkoutTitle(s) && s@
                == t),
        },
{
    let ghost dv = chunks.deep_view();
    let n = chunks.len();
    let mut out: Vec<Workout> = Vec::new();
    proof {
        assert(dv.len() == n);
        assert(dv.skip(0) =~= dv);
        assert(out.deep_view() =~= Seq::<WorkoutView>::empty());
        match build_spec(dv) {
            Ok(all) => {
                assert(out.deep_view() + all =~= all);
            },
            Err(_) => {},
        }
    }
    let mut i: usize = 0;
    while i < n
        invariant
            i <= n,
            n == chunks@.len(),
            dv == chunks.deep_view(),
            dv.len() == n,
            ({
                let rem = dv.skip(i as int);
                match build_spec(rem) {
                    Ok(rest) => build_spec(dv) matches Ok(all) && all == out.deep_view() + rest,
                    Err(t) => build_spec(dv) matches Err(t2) && t2 == t,
                }
            }),
        decreases n - i,
    {
        let title: String = chunks[i].clone();
        let body: String = if i + 1 < n {
            chunks[i + 1].clone()
        } else {
            String::new()
        };
        let ghost rem = dv.skip(i as int);
        proof {
            assert(rem[0] == dv[i as int]);
            assert(title@ == dv[i as int]);
            if i + 1 < n {
                assert(rem[1] == dv[i + 1]);
                assert(body@ == dv[i + 1]);
            }
        }
        match Workout::new(title, body) {
            Ok(w) => {
                let ghost pre = out.deep_view();
                out.push(w);
                proof {
                    assert(out.deep_view() =~= pre.push(w@));
                    let rest2 = if rem.len() >= 2 {
                        rem.skip(2)
                    } else {
                        Seq::<Seq<char>>::empty()
                    };
                    if i + 2 <= n {
                        assert(rest2 =~= dv.skip(i + 2));
                    } else {
                        assert(rest2 =~= dv.skip(n as int));
                    }
                    match build_spec(rest2) {
                        Ok(ws2) => {
                            assert(build_spec(rem) == Ok::<Seq<WorkoutView>, Seq<char>>(
                                seq![w@] + ws2,
                            ));
                            assert(pre + (seq![w@] + ws2) =~= pre.push(w@) + ws2);
                        },
                        Err(t) => {
                            assert(build_spec(rem) == Err::<Seq<WorkoutView>, Seq<char>>(t));
                        },
                    }
                }
            },
            Err(e) => {
                proof {
                    assert(build_spec(rem) == Err::<Seq<WorkoutView>, Seq<char>>(rem[0]));
                }
                return Err(e);
            },
        }
        i = if n - i >= 2 {
            i + 2
        } else {
            n
        };
    }
    proof {
        assert(dv.skip(n as int) =~= Seq::<Seq<char>>::empty());
        match build_spec(dv) {
            Ok(all) => {
                assert(out.deep_view() + Seq::<WorkoutView>::empty() =~= out.deep_view());
            },
            Err(t) => {},
        }
    }
    Ok(out)
}

/// A well-formed chunk sequence pairs cleanly: where every title chunk
/// (the even positions) yields a day ordinal, the build succeeds, with
/// one record per pair, `(len + 1) / 2` in all.
pub proof fn lemma_build_pairs_cleanly(chunks: Seq<Seq<char>>)
    requires
        forall|k: int|
            0 <= k < chunks.len() && k % 2 == 0 ==> (#[trigger] parse_day(chunks[k])) is Some,
    ensures
        build_spec(chunks) matches Ok(ws) && ws.len() == (chunks.len() + 1) / 2,
    decreases chunks.len(),
{
    if chunks.len() > 0 {
        let rest = if chunks.len() >= 2 {
            chunks.skip(2)
        } else {
            Seq::<Seq<char>>::empty()
        };
        assert(parse_day(chunks[0]) is Some);
        assert forall|k: int| 0 <= k < rest.len() && k % 2 == 0 implies (#[trigger] parse_day(
            rest[k],
        )) is Some by {
            assert(rest[k] == chunks[k + 2]);
            assert((k + 2) % 2 == 0);
        }
        lemma_build_pairs_cleanly(rest);
    }
}

/// Where the build succeeds, record `i` carries exactly title chunk
/// `2 * i` and the day ordinal parsed from it.
pub proof fn lemma_build_indexes(chunks: Seq<Seq<char>>)
    ensures
        build_spec(chunks) matches Ok(ws) ==> ws.len() == (chunks.len() + 1) / 2 && forall|i: int|
            0 <= i < ws.len() ==> (#[trigger] ws[i]).title == chunks[2 * i] && parse_day(
                chunks[2 * i],
            ) == Some(ws[i].day),
    decreases chunks.len(),
{
    if chunks.len() > 0 {
        let rest = if chunks.len() >= 2 {
            chunks.skip(2)
        } else {
            Seq::<Seq<char>>::empty()
        };
        lemma_build_indexes(rest);
        match build_spec(chunks) {
            Ok(ws) => {
                let rws = build_spec(rest)->Ok_0;
                assert forall|i: int|
                    0 <= i < ws.len() implies (#[trigger] ws[i]).title == chunks[2 * i]
                    && parse_day(chunks[2 * i]) == Some(ws[i].day) by {
                    if i > 0 {
                        assert(ws[i] == rws[i - 1]);
                        assert(rest[2 * (i - 1)] == chunks[2 * i]);
                    }
                }
            },
            Err(_) => {},
        }
    }
}

/// A marker chunk always yields a day ordinal: its prefix before the
/// first `.` is one or two decimal digits, whose value is at most 99.
pub proof fn lemma_marker_chunk_parses(m: Seq<char>)
    requires
        crate::segmenter::marker_chunk(m),
    ensures
        parse_day(m) is Some,
{
    assert(m[0] != '.');
    if m[1] == '.' {
        assert(find_char_from(m, 1, '.') == Some(1int));
        assert(find_char_from(m, 0, '.') == Some(1int));
        let p = day_prefix(m);
        assert(p == m.subrange(0, 1));
        assert(p[0] == m[0]);
        assert(all_digits(p));
        assert(p.drop_last() =~= Seq::<char>::empty());
        assert(digits_value(Seq::<char>::empty()) == 0);
        assert(p.last() == m[0]);
        assert(digits_value(p) == digit_value(m[0]));
    } else {
        assert(m[1] != '.');
        assert(find_char_from(m, 2, '.') == Some(2int));
        assert(find_char_from(m, 1, '.') == Some(2int));
        assert(find_char_from(m, 0, '.') == Some(2int));
        let p = day_prefix(m);
        assert(p == m.subrange(0, 2));
        assert(p[0] == m[0] && p[1] == m[1]);
        assert(all_digits(p));
        assert(p.drop_last() =~= m.subrange(0, 1));
        assert(m.subrange(0, 1).drop_last() =~= Seq::<char>::empty());
        assert(digits_value(Seq::<char>::empty()) == 0);
        assert(m.subrange(0, 1).last() == m[0]);
        assert(digits_value(m.subrange(0, 1)) == digit_value(m[0]));
        assert(p.last() == m[1]);
        assert(digits_value(p) == digit_value(m[0]) * 10 + digit_value(m[1]));
    }
}

/// Day ordinals strictly increase across the built record stream when the
/// day numbers of the title chunks increase in document order.
pub proof fn lemma_days_strictly_increase(chunks: Seq<Seq<char>>, ws: Seq<WorkoutView>)
    requires
        build_spec(chunks) == Ok::<Seq<WorkoutView>, Seq<char>>(ws),
        forall|a: int, b: int|
            #![trigger chunks[2 * a], chunks[2 * b]]
            0 <= a < b && 2 * b < chunks.len() ==> parse_day(chunks[2 * a])->Some_0 < parse_day(
                chunks[2 * b],
            )->Some_0,
    ensures
        forall|i: int, j: int|
            0 <= i < j < ws.len() ==> (#[trigger] ws[i]).day < (#[trigger] ws[j]).day,
{
    lemma_build_indexes(chunks);
    assert forall|i: int, j: int| 0 <= i < j < ws.len() implies (#[trigger] ws[i]).day < (
    #[trigger] ws[j]).day by {
        assert(ws[i].title == chunks[2 * i]);
        assert(ws[j].title == chunks[2 * j]);
        assert(parse_day(chunks[2 * i]) == Some(ws[i].day));
        assert(parse_day(chunks[2 * j]) == Some(ws[j].day));
        assert(2 * j < chunks.len());
    }
}

} // verus!
