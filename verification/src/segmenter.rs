//! Boundary detection: scanning the document for day markers and
//! splitting it into the alternating marker / filler chunk sequence.
//!
//! A day marker is one or two decimal digits, the text `. TAG`, and the
//! rest of its line. The scan takes all non-overlapping matches from left
//! to right; text before the first marker is discarded, text between two
//! markers (where there is any) becomes a filler chunk, and so does the
//! text after the last marker's line.

use vstd::prelude::*;
use vstd::string::StrSliceExecFns;
use crate::text::{is_digit, char_is_digit, find_char_from, find_char};

verus! {

/// The literal `. TAG` stands at position `i`.
pub open spec fn marker_tail(text: Seq<char>, i: int) -> bool {
    &&& i + 5 <= text.len()
    &&& text[i] == '.'
    &&& text[i + 1] == ' '
    &&& text[i + 2] == 'T'
    &&& text[i + 3] == 'A'
    &&& text[i + 4] == 'G'
}

/// A day marker begins at position `i`: one or two decimal digits, then
/// the literal `. TAG`.
pub open spec fn marker_start(text: Seq<char>, i: int) -> bool {
    &&& 0 <= i < text.len()
    &&& is_digit(text[i])
    &&& (marker_tail(text, i + 1) || (is_digit(text[i + 1]) && marker_tail(text, i + 2)))
}

/// The position of the first day marker at or after `pos`.
pub open spec fn find_marker_from(text: Seq<char>, pos: int) -> Option<int>
    decreases text.len() - pos,
{
    if pos < 0 || pos >= text.len() {
        None
    } else if marker_start(text, pos) {
        Some(pos)
    } else {
        find_marker_from(text, pos + 1)
    }
}

pub proof fn lemma_find_marker_from_bounds(text: Seq<char>, pos: int)
    ensures
        find_marker_from(text, pos) matches Some(i) ==> pos <= i < text.len() && marker_start(
            text,
            i,
        ),
    decreases text.len() - pos,
{
    if 0 <= pos < text.len() && !marker_start(text, pos) {
        lemma_find_marker_from_bounds(text, pos + 1);
    }
}

/// The end of the line that `pos` stands on: the position of the next
/// newline, or the end of the text.
pub open spec fn line_end_from(text: Seq<char>, pos: int) -> int {
    match find_char_from(text, pos, '\n') {
        Some(i) => i,
        None => text.len() as int,
    }
}

pub proof fn lemma_line_end_bounds(text: Seq<char>, pos: int)
    requires
        0 <= pos <= text.len(),
    ensures
        pos <= line_end_from(text, pos) <= text.len(),
{
    crate::text::lemma_find_char_from_bounds(text, pos, '\n');
}

fn marker_tail_at(text: &str, n: usize, j: usize) -> (r: bool)
    requires
        n == text@.len(),
    ensures
        r == marker_tail(text@, j as int),
{
    if n < 5 || j > n - 5 {
        return false;
    }
    text.get_char(j) == '.' && text.get_char(j + 1) == ' ' && text.get_char(j + 2) == 'T'
        && text.get_char(j + 3) == 'A' && text.get_char(j + 4) == 'G'
}

fn marker_at(text: &str, n: usize, i: usize) -> (r: bool)
    requires
        n == text@.len(),
        i < n,
    ensures
        r == marker_start(text@, i as int),
{
    if !char_is_digit(text.get_char(i)) {
        return false;
    }
    if marker_tail_at(text, n, i + 1) {
        return true;
    }
    if i + 1 < n && char_is_digit(text.get_char(i + 1)) {
        marker_tail_at(text, n, i + 2)
    } else {
        proof {
            if i + 1 >= n {
                assert(!marker_tail(text@, i + 2));
            }
        }
        false
    }
}

fn find_marker(text: &str, n: usize, from: usize) -> (r: Option<usize>)
    requires
        n == text@.len(),
        from <= n,
    ensures
        match r {
            Some(i) => find_marker_from(text@, from as int) == Some(i as int),
            None => find_marker_from(text@, from as int) is None,
        },
{
    let mut i: usize = from;
    while i < n
        invariant
            from <= i <= n,
            n == text@.len(),
            find_marker_from(text@, from as int) == find_marker_from(text@, i as int),
        decreases n - i,
    {
        if marker_at(text, n, i) {
            return Some(i);
        }
        i = i + 1;
    }
    None
}

/// The chunk sequence from a marker at `i` to the end of the text: the
/// marker's line, then the filler up to the next marker (where there is
/// any text between), and so on.
pub open spec fn segments_from(text: Seq<char>, i: int) -> Seq<Seq<char>>
    recommends
        marker_start(text, i),
    decreases text.len() - i
        when marker_start(text, i)
        via segments_from_decreases
{
    let e = line_end_from(text, i);
    let marker = text.subrange(i, e);
    match find_marker_from(text, e) {
        None => if e == text.len() {
            seq![marker]
        } else {
            seq![marker, text.subrange(e, text.len() as int)]
        },
        Some(j) => if j == e {
            seq![marker] + segments_from(text, j)
        } else {
            seq![marker, text.subrange(e, j)] + segments_from(text, j)
        },
    }
}

#[via_fn]
proof fn segments_from_decreases(text: Seq<char>, i: int) {
    let e = line_end_from(text, i);
    lemma_line_end_bounds(text, i);
    crate::text::lemma_find_char_from_bounds(text, i, '\n');
    assert(text[i] != '\n');
    lemma_find_marker_from_bounds(text, e);
}

/// The Segmenter's whole output: nothing where the text has no day
/// marker, else the chunk sequence from the first marker on. Text before
/// the first marker is discarded.
pub open spec fn segment_spec(text: Seq<char>) -> Seq<Seq<char>> {
    match find_marker_from(text, 0) {
        None => Seq::empty(),
        Some(i) => segments_from(text, i),
    }
}

/// A chunk that is a whole marker line: it begins with one or two
/// decimal digits and then the `.` of the `. TAG` literal.
pub open spec fn marker_chunk(m: Seq<char>) -> bool {
    &&& m.len() >= 2
    &&& is_digit(m[0])
    &&& (m[1] == '.' || (is_digit(m[1]) && m.len() >= 3 && m[2] == '.'))
}

/// The slice a marker match yields — the marker's whole line — is a
/// marker chunk.
proof fn lemma_marker_slice(text: Seq<char>, i: int)
    requires
        marker_start(text, i),
    ensures
        ({
            let e = line_end_from(text, i);
            i + 2 <= e <= text.len() && marker_chunk(text.subrange(i, e))
        }),
{
    let e = line_end_from(text, i);
    crate::text::lemma_find_char_from_bounds(text, i, '\n');
    assert(text[i] != '\n');
    if marker_tail(text, i + 1) {
        assert(text[i + 1] != '\n');
        assert(i + 2 <= e <= text.len());
    } else {
        assert(text[i + 1] != '\n');
        assert(text[i + 2] != '\n');
        assert(i + 3 <= e <= text.len());
    }
}

/// Every even-position chunk of the sequence from a marker on is a
/// marker chunk: between two markers the filler that begins at the
/// earlier marker's newline is never empty, so markers and fillers
/// alternate strictly.
proof fn lemma_segments_even_chunks(text: Seq<char>, i: int)
    requires
        marker_start(text, i),
    ensures
        forall|k: int|
            0 <= k < segments_from(text, i).len() && k % 2 == 0 ==> marker_chunk(
                #[trigger] segments_from(text, i)[k],
            ),
    decreases text.len() - i,
{
    let e = line_end_from(text, i);
    let segs = segments_from(text, i);
    lemma_marker_slice(text, i);
    lemma_find_marker_from_bounds(text, e);
    match find_marker_from(text, e) {
        None => {},
        Some(j) => {
            crate::text::lemma_find_char_from_bounds(text, i, '\n');
            assert(e < text.len());
            assert(text[e] == '\n');
            assert(text[j] != '\n');
            assert(j > e);
            lemma_segments_even_chunks(text, j);
            let rest = segments_from(text, j);
            assert forall|k: int| 0 <= k < segs.len() && k % 2 == 0 implies marker_chunk(
                segs[k],
            ) by {
                if k >= 2 {
                    assert(segs[k] == rest[k - 2]);
                    assert((k - 2) % 2 == 0);
                }
            }
        },
    }
}

/// Every even-position chunk the Segmenter produces is a marker chunk.
pub proof fn lemma_even_chunks_are_markers(text: Seq<char>)
    ensures
        forall|k: int|
            0 <= k < segment_spec(text).len() && k % 2 == 0 ==> marker_chunk(
                #[trigger] segment_spec(text)[k],
            ),
{
    lemma_find_marker_from_bounds(text, 0);
    match find_marker_from(text, 0) {
        None => {},
        Some(i) => {
            lemma_segments_even_chunks(text, i);
        },
    }
}

/// Splits the document at its day markers, as [`segment_spec`] states.
pub fn segment(text: &str) -> (r: Vec<String>)
    ensures
        r.deep_view() == segment_spec(text@),
{
    let n: usize = text.unicode_len();
    let mut out: Vec<String> = Vec::new();
    let first = find_marker(text, n, 0);
    let mut cur: usize;
    match first {
        None => {
            proof {
                assert(out.deep_view() =~= Seq::<Seq<char>>::empty());
            }
            return out;
        },
        Some(s) => {
            cur = s;
        },
    }
    proof {
        lemma_find_marker_from_bounds(text@, 0);
        assert(out.deep_view() + segments_from(text@, cur as int) =~= segments_from(
            text@,
            cur as int,
        ));
    }
    loop
        invariant
            cur < n,
            n == text@.len(),
            marker_start(text@, cur as int),
            segment_spec(text@) == out.deep_view() + segments_from(text@, cur as int),
        decreases n - cur,
    {
        let e: usize = match find_char(text, n, cur, '\n') {
            Some(p) => p,
            None => n,
        };
        proof {
            crate::text::lemma_find_char_from_bounds(text@, cur as int, '\n');
            assert(e == line_end_from(text@, cur as int));
            assert(text@[cur as int] != '\n');
            assert(find_char_from(text@, cur as int, '\n') == find_char_from(
                text@,
                cur + 1,
                '\n',
            ));
            crate::text::lemma_find_char_from_bounds(text@, cur + 1, '\n');
            assert(cur < e <= n);
        }
        let ghost pre = out.deep_view();
        let ghost segs = segments_from(text@, cur as int);
        let marker: String = text.substring_char(cur, e).to_owned();
        out.push(marker);
        let next = find_marker(text, n, e);
        proof {
            lemma_find_marker_from_bounds(text@, e as int);
        }
        match next {
            None => {
                if e < n {
                    let filler: String = text.substring_char(e, n).to_owned();
                    out.push(filler);
                    proof {
                        assert(segs =~= seq![
                            text@.subrange(cur as int, e as int),
                            text@.subrange(e as int, n as int),
                        ]);
                        assert(out.deep_view() =~= pre + segs);
                    }
                } else {
                    proof {
                        assert(segs =~= seq![text@.subrange(cur as int, e as int)]);
                        assert(out.deep_view() =~= pre + segs);
                    }
                }
                return out;
            },
            Some(j) => {
                if j > e {
                    let filler: String = text.substring_char(e, j).to_owned();
                    out.push(filler);
                    proof {
                        assert(segs == seq![
                            text@.subrange(cur as int, e as int),
                            text@.subrange(e as int, j as int),
                        ] + segments_from(text@, j as int));
                        assert(out.deep_view() =~= (pre + seq![
                            text@.subrange(cur as int, e as int),
                            text@.subrange(e as int, j as int),
                        ]));
                        assert((pre + seq![
                            text@.subrange(cur as int, e as int),
                            text@.subrange(e as int, j as int),
                        ]) + segments_from(text@, j as int) =~= pre + segs);
                    }
                } else {
                    proof {
                        assert(segs == seq![text@.subrange(cur as int, e as int)]
                            + segments_from(text@, j as int));
                        assert(out.deep_view() =~= pre + seq![
                            text@.subrange(cur as int, e as int),
                        ]);
                        assert((pre + seq![text@.subrange(cur as int, e as int)])
                            + segments_from(text@, j as int) =~= pre + segs);
                    }
                }
                cur = j;
            },
        }
    }
}

} // verus!
