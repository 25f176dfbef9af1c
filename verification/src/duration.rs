//! The segments of a duration literal such as `1h30m` or `500ms`.
//!
//! A duration is written as one or more segments, each a number followed by
//! a unit: `ms` (milliseconds), `s` (seconds), `m` (minutes), `h` (hours),
//! `d` (days) or `w` (weeks). Splitting a literal into its segments and
//! looking up each unit is done here; the numbers themselves may have a
//! fractional part, so their value is computed by the evaluator.

use vstd::prelude::*;

use crate::unicode::{char_is_alphabetic, chars_of, is_alphabetic, string_of_range};

verus! {

/// One segment of a duration literal: its number as written, its unit as
/// written, and the length of one unit in milliseconds (none for an unknown unit).
pub struct DurationSegment {
    pub number: String,
    pub unit: String,
    pub unit_ms: Option<u64>,
}

/// The view of a [`DurationSegment`].
pub struct SegmentView {
    pub number: Seq<char>,
    pub unit: Seq<char>,
    pub unit_ms: Option<nat>,
}

impl View for DurationSegment {
    type V = SegmentView;

    open spec fn view(&self) -> SegmentView {
        SegmentView {
            number: self.number@,
            unit: self.unit@,
            unit_ms: match self.unit_ms {
                Some(k) => Some(k as nat),
                None => None,
            },
        }
    }
}

/// The index of the first character at or after `i` whose being alphabetic
/// differs from `alphabetic` (or the end of `s`).
pub open spec fn skip_run(s: Seq<char>, i: int, alphabetic: bool) -> int
    decreases s.len() - i,
{
    if 0 <= i < s.len() && char_is_alphabetic(s[i]) == alphabetic {
        skip_run(s, i + 1, alphabetic)
    } else {
        i
    }
}

/// The length in milliseconds of the duration unit `unit`, if it is one.
pub open spec fn unit_length(unit: Seq<char>) -> Option<nat> {
    if unit == seq!['m', 's'] {
        Some(1)
    } else if unit == seq!['s'] {
        Some(1000)
    } else if unit == seq!['m'] {
        Some(60000)
    } else if unit == seq!['h'] {
        Some(3600000)
    } else if unit == seq!['d'] {
        Some(86400000)
    } else if unit == seq!['w'] {
        Some(604800000)
    } else {
        None
    }
}

/// A run never ends before it starts, and a run which starts on a matching
/// character ends after it.
pub proof fn lemma_skip_run(s: Seq<char>, i: int, alphabetic: bool)
    requires
        0 <= i <= s.len(),
    ensures
        i <= skip_run(s, i, alphabetic) <= s.len(),
        i < s.len() && char_is_alphabetic(s[i]) == alphabetic ==> i < skip_run(s, i, alphabetic),
        forall|k: int| i <= k < skip_run(s, i, alphabetic) ==> char_is_alphabetic(#[trigger] s[k]) == alphabetic,
    decreases s.len() - i,
{
    if i < s.len() && char_is_alphabetic(s[i]) == alphabetic {
        lemma_skip_run(s, i + 1, alphabetic);
    }
}

/// The segments of the literal `s` from index `i` on: the number runs up to
/// the first alphabetic character, and the unit from there up to the next
/// character which is not alphabetic.
pub open spec fn segments(s: Seq<char>, i: int) -> Seq<SegmentView>
    decreases s.len() - i,
{
    if i < 0 || i >= s.len() {
        Seq::empty()
    } else {
        let n = skip_run(s, i, false);
        let u = skip_run(s, n, true);
        proof {
            lemma_skip_run(s, i, false);
            lemma_skip_run(s, n, true);
        }
        seq![SegmentView { number: s.subrange(i, n), unit: s.subrange(n, u), unit_ms: unit_length(s.subrange(n, u)) }]
            + segments(s, u)
    }
}

/// The end of the run of characters from `i` on whose being alphabetic is `alphabetic`.
fn run_end(chars: &Vec<char>, i: usize, alphabetic: bool) -> (e: usize)
    requires
        i <= chars.len(),
    ensures
        e == skip_run(chars@, i as int, alphabetic),
{
    let mut e = i;
    while e < chars.len() && is_alphabetic(chars[e]) == alphabetic
        invariant
            i <= e <= chars.len(),
            skip_run(chars@, i as int, alphabetic) == skip_run(chars@, e as int, alphabetic),
        decreases chars.len() - e,
    {
        e += 1;
    }
    e
}

/// The length in milliseconds of the unit `unit`, if it is one (see [`unit_length`]).
fn unit_ms(unit: &Vec<char>) -> (r: Option<u64>)
    ensures
        match r {
            Some(k) => unit_length(unit@) == Some(k as nat),
            None => unit_length(unit@) is None,
        },
{
    if unit.len() == 2 && unit[0] == 'm' && unit[1] == 's' {
        proof {
            assert(unit@ =~= seq!['m', 's']);
        }
        return Some(1);
    }
    if unit.len() == 1 {
        let c = unit[0];
        proof {
            assert(unit@ =~= seq![c]);
        }
        if c == 's' {
            return Some(1000);
        } else if c == 'm' {
            return Some(60000);
        } else if c == 'h' {
            return Some(3600000);
        } else if c == 'd' {
            return Some(86400000);
        } else if c == 'w' {
            return Some(604800000);
        }
    }
    proof {
        if unit.len() != 2 {
            assert(unit@.len() != seq!['m', 's'].len());
        } else {
            assert(!(unit@ =~= seq!['m', 's']) ==> unit@ != seq!['m', 's']);
        }
    }
    None
}

/// The segments of the duration literal `lexeme` (see [`segments`]).
pub fn duration_segments(lexeme: &str) -> (r: Vec<DurationSegment>)
    ensures
        r@.map_values(|g: DurationSegment| g@) == segments(lexeme@, 0),
{
    let chars = chars_of(lexeme);
    let mut out: Vec<DurationSegment> = Vec::new();
    let mut i: usize = 0;
    while i < chars.len()
        invariant
            0 <= i <= chars.len(),
            chars@ == lexeme@,
            segments(chars@, 0) == out@.map_values(|g: DurationSegment| g@) + segments(chars@, i as int),
        decreases chars.len() - i,
    {
        let n = run_end(&chars, i, false);
        proof {
            lemma_skip_run(chars@, i as int, false);
        }
        let u = run_end(&chars, n, true);
        proof {
            lemma_skip_run(chars@, n as int, true);
        }
        let number = string_of_range(&chars, i, n);
        let unit = string_of_range(&chars, n, u);
        let unit_chars = chars_of(unit.as_str());
        let ms = unit_ms(&unit_chars);
        let segment = DurationSegment { number, unit, unit_ms: ms };
        let ghost before = out@;
        let ghost sv = segment@;
        out.push(segment);
        proof {
            assert(out@.map_values(|g: DurationSegment| g@) =~= before.map_values(|g: DurationSegment| g@).push(sv));
            assert(segments(chars@, i as int) == seq![sv] + segments(chars@, u as int));
            vstd::seq_lib::lemma_concat_associative(before.map_values(|g: DurationSegment| g@), seq![sv], segments(chars@, u as int));
        }
        i = u;
    }
    proof {
        assert(segments(chars@, i as int) =~= Seq::<SegmentView>::empty());
        assert(out@.map_values(|g: DurationSegment| g@) + Seq::<SegmentView>::empty() =~= out@.map_values(|g: DurationSegment| g@));
    }
    out
}

} // verus!
