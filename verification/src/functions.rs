//! The built-in functions which every filter may call, by name and arity.
//!
//! A call such as `trim(name)` is checked against these signatures when the
//! filter is parsed: the name must be known and the number of arguments must
//! match. What the functions compute from their arguments happens when a
//! filter is evaluated; the string work of `trim` is defined here.

use vstd::prelude::*;

use crate::parser::FunctionSignature;
use crate::unicode::{char_is_whitespace, chars_of, is_whitespace, string_of_range};

verus! {

/// The `trim(string)` function: removes leading and trailing whitespace from a
/// string, leaving the interior untouched.
#[allow(non_camel_case_types)]
pub struct trim;

/// The `now()` function: the current UTC time, read afresh on every evaluation.
#[allow(non_camel_case_types)]
pub struct now;

/// The `ago(duration)` function: the point in time exactly `duration` before
/// the current UTC time.
pub struct Ago;

/// The `datetime(string)` function: parses an ISO 8601 / RFC 3339 string into
/// an absolute point in time.
#[allow(non_camel_case_types)]
pub struct datetime;

impl trim {
    /// The name used to call this function.
    pub fn name(&self) -> (r: &'static str)
        ensures
            r@ == "trim"@,
    {
        "trim"
    }

    /// The number of arguments this function takes.
    pub fn arity(&self) -> (r: usize)
        ensures
            r == 1,
    {
        1
    }
}

impl now {
    /// The name used to call this function.
    pub fn name(&self) -> (r: &'static str)
        ensures
            r@ == "now"@,
    {
        "now"
    }

    /// The number of arguments this function takes.
    pub fn arity(&self) -> (r: usize)
        ensures
            r == 0,
    {
        0
    }
}

impl Ago {
    /// The name used to call this function.
    pub fn name(&self) -> (r: &'static str)
        ensures
            r@ == "ago"@,
    {
        "ago"
    }

    /// The number of arguments this function takes.
    pub fn arity(&self) -> (r: usize)
        ensures
            r == 1,
    {
        1
    }
}

impl datetime {
    /// The name used to call this function.
    pub fn name(&self) -> (r: &'static str)
        ensures
            r@ == "datetime"@,
    {
        "datetime"
    }

    /// The number of arguments this function takes.
    pub fn arity(&self) -> (r: usize)
        ensures
            r == 1,
    {
        1
    }
}

/// The signatures of the built-in functions, in the order in which calls are
/// resolved: `trim/1`, `now/0`, `ago/1` and `datetime/1`.
pub open spec fn base_signatures() -> Seq<(Seq<char>, nat)> {
    seq![("trim"@, 1nat), ("now"@, 0nat), ("ago"@, 1nat), ("datetime"@, 1nat)]
}

/// The signature of a function with the given name and arity.
fn signature(name: &str, arity: usize) -> (f: FunctionSignature)
    ensures
        f.name@ == name@,
        f.arity == arity,
{
    FunctionSignature { name: name.to_owned(), arity }
}

/// The signatures of the built-in functions (see [`base_signatures`]).
pub fn base_functions() -> (r: Vec<FunctionSignature>)
    ensures
        r@.map_values(|f: FunctionSignature| (f.name@, f.arity as nat)) == base_signatures(),
{
    let mut r: Vec<FunctionSignature> = Vec::new();
    r.push(signature(trim.name(), trim.arity()));
    r.push(signature(now.name(), now.arity()));
    r.push(signature(Ago.name(), Ago.arity()));
    r.push(signature(datetime.name(), datetime.arity()));
    assert(r@.map_values(|f: FunctionSignature| (f.name@, f.arity as nat)) =~= base_signatures());
    r
}

/// `s` without its leading whitespace.
pub open spec fn trim_start(s: Seq<char>) -> Seq<char>
    decreases s.len(),
{
    if s.len() > 0 && char_is_whitespace(s[0]) {
        trim_start(s.drop_first())
    } else {
        s
    }
}

/// `s` without its trailing whitespace.
pub open spec fn trim_end(s: Seq<char>) -> Seq<char>
    decreases s.len(),
{
    if s.len() > 0 && char_is_whitespace(s.last()) {
        trim_end(s.drop_last())
    } else {
        s
    }
}

/// `s` without its leading and trailing whitespace.
pub open spec fn trimmed(s: Seq<char>) -> Seq<char> {
    trim_end(trim_start(s))
}

/// The string `s` without its leading and trailing whitespace, which is what
/// `trim` gives for a string argument.
pub fn trim_text(s: &str) -> (r: String)
    ensures
        r@ == trimmed(s@),
{
    let chars = chars_of(s);
    let mut start: usize = 0;
    proof {
        assert(chars@.skip(0) =~= chars@);
    }
    while start < chars.len() && is_whitespace(chars[start])
        invariant
            0 <= start <= chars.len(),
            trim_start(chars@) == trim_start(chars@.skip(start as int)),
        decreases chars.len() - start,
    {
        proof {
            assert(chars@.skip(start as int).drop_first() =~= chars@.skip(start + 1));
        }
        start += 1;
    }
    proof {
        assert(trim_start(chars@.skip(start as int)) == chars@.skip(start as int));
        assert(chars@.skip(start as int) =~= chars@.subrange(start as int, chars.len() as int));
    }
    let mut end: usize = chars.len();
    while end > start && is_whitespace(chars[end - 1])
        invariant
            0 <= start <= end <= chars.len(),
            trim_start(chars@) == chars@.subrange(start as int, chars.len() as int),
            trimmed(chars@) == trim_end(chars@.subrange(start as int, end as int)),
        decreases end - start,
    {
        proof {
            assert(chars@.subrange(start as int, end as int).drop_last() =~= chars@.subrange(start as int, end - 1));
        }
        end -= 1;
    }
    proof {
        assert(trim_end(chars@.subrange(start as int, end as int)) == chars@.subrange(start as int, end as int));
    }
    string_of_range(&chars, start, end)
}

/// Where `trim_start` cuts `s`: everything before the returned index is
/// whitespace, and the character at it (if any) is not.
proof fn lemma_trim_start_cut(s: Seq<char>) -> (a: int)
    ensures
        0 <= a <= s.len(),
        trim_start(s) == s.skip(a),
        forall|k: int| 0 <= k < a ==> char_is_whitespace(#[trigger] s[k]),
        a < s.len() ==> !char_is_whitespace(s[a]),
    decreases s.len(),
{
    if s.len() > 0 && char_is_whitespace(s[0]) {
        let a1 = lemma_trim_start_cut(s.drop_first());
        assert(s.drop_first().skip(a1) =~= s.skip(a1 + 1));
        assert forall|k: int| 0 <= k < a1 + 1 implies char_is_whitespace(#[trigger] s[k]) by {
            if k > 0 {
                assert(s[k] == s.drop_first()[k - 1]);
            }
        }
        a1 + 1
    } else {
        assert(s.skip(0) =~= s);
        0
    }
}

/// Where `trim_end` cuts `s`: everything from the returned index on is
/// whitespace, and the character before it (if any) is not.
proof fn lemma_trim_end_cut(s: Seq<char>) -> (b: int)
    ensures
        0 <= b <= s.len(),
        trim_end(s) == s.take(b),
        forall|k: int| b <= k < s.len() ==> char_is_whitespace(#[trigger] s[k]),
        b > 0 ==> !char_is_whitespace(s[b - 1]),
    decreases s.len(),
{
    if s.len() > 0 && char_is_whitespace(s.last()) {
        let b1 = lemma_trim_end_cut(s.drop_last());
        assert(s.drop_last().take(b1) =~= s.take(b1));
        assert forall|k: int| b1 <= k < s.len() implies char_is_whitespace(#[trigger] s[k]) by {
            if k < s.len() - 1 {
                assert(s[k] == s.drop_last()[k]);
            }
        }
        b1
    } else {
        assert(s.take(s.len() as int) =~= s);
        s.len() as int
    }
}

/// `trim` removes exactly the whitespace at both ends: what it leaves is a
/// contiguous part of the string, everything cut off before and after it is
/// whitespace, and what is left neither starts nor ends with whitespace.
pub proof fn trim_removes_only_outer_whitespace(s: Seq<char>) -> (cut: (int, int))
    ensures
        0 <= cut.0 <= cut.1 <= s.len(),
        trimmed(s) == s.subrange(cut.0, cut.1),
        forall|k: int| 0 <= k < cut.0 ==> char_is_whitespace(#[trigger] s[k]),
        forall|k: int| cut.1 <= k < s.len() ==> char_is_whitespace(#[trigger] s[k]),
        trimmed(s).len() > 0 ==> !char_is_whitespace(trimmed(s)[0]) && !char_is_whitespace(trimmed(s).last()),
{
    let a = lemma_trim_start_cut(s);
    let t = s.skip(a);
    let b = lemma_trim_end_cut(t);
    assert(t.take(b) =~= s.subrange(a, a + b));
    assert forall|k: int| a + b <= k < s.len() implies char_is_whitespace(#[trigger] s[k]) by {
        assert(s[k] == t[k - a]);
    }
    if b > 0 {
        assert(trimmed(s)[0] == s[a]);
        assert(trimmed(s).last() == t[b - 1]);
    }
    (a, a + b)
}

/// Trimming twice gives what trimming once gives.
pub proof fn trim_is_idempotent(s: Seq<char>)
    ensures
        trimmed(trimmed(s)) == trimmed(s),
{
    let t = trimmed(s);
    trim_removes_only_outer_whitespace(s);
    let a = lemma_trim_start_cut(t);
    if t.len() > 0 {
        assert(a == 0);
    }
    assert(t.skip(a) =~= t);
    let b = lemma_trim_end_cut(t);
    if t.len() > 0 {
        assert(b == t.len());
    }
    assert(t.take(b) =~= t);
}

} // verus!
