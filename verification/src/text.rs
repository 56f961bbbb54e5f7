//! Character classes and small text utilities the pipeline rests on:
//! decimal digits, whitespace, finding a character, and trimming
//! trailing whitespace.

use vstd::prelude::*;
use vstd::string::StrSliceExecFns;

verus! {

/// The decimal digits `0` through `9`.
pub open spec fn is_digit(c: char) -> bool {
    48 <= c as u32 && c as u32 <= 57
}

/// The numeric value of a decimal digit.
pub open spec fn digit_value(c: char) -> int
    recommends
        is_digit(c),
{
    c as u32 - 48
}

/// Exactly the characters of Unicode's White_Space property, the set that
/// `char::is_whitespace` recognizes.
pub open spec fn is_wspace(c: char) -> bool {
    let u = c as u32;
    (9 <= u && u <= 13) || u == 32 || u == 0x85 || u == 0xA0 || u == 0x1680 || (0x2000 <= u && u
        <= 0x200A) || u == 0x2028 || u == 0x2029 || u == 0x202F || u == 0x205F || u == 0x3000
}

pub fn char_is_digit(c: char) -> (r: bool)
    ensures
        r == is_digit(c),
{
    let u: u32 = c as u32;
    48 <= u && u <= 57
}

pub fn char_is_wspace(c: char) -> (r: bool)
    ensures
        r == is_wspace(c),
{
    let u: u32 = c as u32;
    (9 <= u && u <= 13) || u == 32 || u == 0x85 || u == 0xA0 || u == 0x1680 || (0x2000 <= u && u
        <= 0x200A) || u == 0x2028 || u == 0x2029 || u == 0x202F || u == 0x205F || u == 0x3000
}

/// The position of the first occurrence of `c` in `s` at or after `pos`.
pub open spec fn find_char_from(s: Seq<char>, pos: int, c: char) -> Option<int>
    decreases s.len() - pos,
{
    if pos < 0 || pos >= s.len() {
        None
    } else if s[pos] == c {
        Some(pos)
    } else {
        find_char_from(s, pos + 1, c)
    }
}

pub proof fn lemma_find_char_from_bounds(s: Seq<char>, pos: int, c: char)
    requires
        0 <= pos,
    ensures
        find_char_from(s, pos, c) matches Some(i) ==> pos <= i < s.len() && s[i] == c && (forall|
            k: int,
        |
            pos <= k < i ==> s[k] != c),
        find_char_from(s, pos, c) is None ==> forall|k: int| pos <= k < s.len() ==> s[k] != c,
    decreases s.len() - pos,
{
    if pos < s.len() && s[pos] != c {
        lemma_find_char_from_bounds(s, pos + 1, c);
    }
}

pub fn find_char(s: &str, n: usize, from: usize, c: char) -> (r: Option<usize>)
    requires
        n == s@.len(),
        from <= n,
    ensures
        match r {
            Some(i) => find_char_from(s@, from as int, c) == Some(i as int),
            None => find_char_from(s@, from as int, c) is None,
        },
{
    let mut i: usize = from;
    while i < n
        invariant
            from <= i <= n,
            n == s@.len(),
            find_char_from(s@, from as int, c) == find_char_from(s@, i as int, c),
        decreases n - i,
    {
        if s.get_char(i) == c {
            return Some(i);
        }
        i = i + 1;
    }
    None
}

/// `s` with its maximal run of trailing whitespace removed.
pub open spec fn trim_end_spec(s: Seq<char>) -> Seq<char>
    decreases s.len(),
{
    if s.len() > 0 && is_wspace(s.last()) {
        trim_end_spec(s.drop_last())
    } else {
        s
    }
}

pub fn trim_end(s: &str) -> (r: String)
    ensures
        r@ == trim_end_spec(s@),
{
    let n: usize = s.unicode_len();
    let mut end: usize = n;
    proof {
        assert(s@.subrange(0, n as int) =~= s@);
    }
    while end > 0 && char_is_wspace(s.get_char(end - 1))
        invariant
            end <= n,
            n == s@.len(),
            trim_end_spec(s@) == trim_end_spec(s@.subrange(0, end as int)),
        decreases end,
    {
        proof {
            let sub = s@.subrange(0, end as int);
            assert(sub.last() == s@[end - 1]);
            assert(sub.drop_last() =~= s@.subrange(0, end - 1));
        }
        end = end - 1;
    }
    proof {
        let sub = s@.subrange(0, end as int);
        if end > 0 {
            assert(sub.last() == s@[end - 1]);
            assert(trim_end_spec(sub) == sub);
        } else {
            assert(sub =~= Seq::<char>::empty());
        }
    }
    s.substring_char(0, end).to_owned()
}

} // verus!
