//! Case-insensitivity rules for the filter language.
//!
//! All of the language's case-insensitive string operations (`==`,
//! `contains`, `startswith`, `endswith`, and the `like` glob operator) fold
//! case in exactly the same way: each character is mapped through a
//! lowercase → uppercase → lowercase round-trip. Characters whose mappings
//! expand fold to several characters (`ß` folds to `ss`), and all Greek sigma
//! forms fold to `σ`.

use vstd::prelude::*;

use crate::unicode::{
    append_chars, char_lowercase, char_uppercase, chars_of, lemma_map_flatten_step, lowercase_of,
    uppercase_of,
};

verus! {

/// Lowercase form of every character of `s`, concatenated.
pub open spec fn lower_all(s: Seq<char>) -> Seq<char> {
    s.map_values(|w: char| char_lowercase(w)).flatten()
}

/// The lowercase form of the uppercase form of `u`.
pub open spec fn upper_then_lower(u: char) -> Seq<char> {
    lower_all(char_uppercase(u))
}

/// The case-folded form of a single character: lowercase, then uppercase,
/// then lowercase again, each step applied to every character the previous
/// one produced.
pub open spec fn fold_char(c: char) -> Seq<char> {
    char_lowercase(c).map_values(|u: char| upper_then_lower(u)).flatten()
}

/// The case-folded form of a character sequence: the folds of its characters, concatenated.
pub open spec fn fold_seq(s: Seq<char>) -> Seq<char> {
    s.map_values(|c: char| fold_char(c)).flatten()
}

/// The reversed fold of each character, taken over the characters in reverse order.
pub open spec fn fold_seq_rev(s: Seq<char>) -> Seq<char> {
    s.reverse().map_values(|c: char| fold_char(c).reverse()).flatten()
}

/// `needle` occurs in `haystack` starting at some position (possibly at its end).
pub open spec fn occurs_in(haystack: Seq<char>, needle: Seq<char>) -> bool {
    exists|i: int| 0 <= i <= haystack.len() && #[trigger] needle.is_prefix_of(haystack.skip(i))
}

/// The lowercase form of every character of `s`.
fn lowercase_all(s: &Vec<char>) -> (r: Vec<char>)
    ensures
        r@ == lower_all(s@),
{
    let mut out: Vec<char> = Vec::new();
    let mut j: usize = 0;
    while j < s.len()
        invariant
            0 <= j <= s.len(),
            out@ == s@.take(j as int).map_values(|w: char| char_lowercase(w)).flatten(),
        decreases s.len() - j,
    {
        let low = lowercase_of(s[j]);
        append_chars(&mut out, &low);
        proof {
            lemma_map_flatten_step(s@, |w: char| char_lowercase(w), j as int);
        }
        j += 1;
    }
    proof {
        assert(s@.take(s.len() as int) == s@);
    }
    out
}

/// The case-folded form of a single character (see the module documentation).
/// Folded forms may span several characters: `ß` folds to `ss`.
pub fn casefold_char(c: char) -> (r: Vec<char>)
    ensures
        r@ == fold_char(c),
{
    let lower = lowercase_of(c);
    let mut out: Vec<char> = Vec::new();
    let mut i: usize = 0;
    while i < lower.len()
        invariant
            0 <= i <= lower.len(),
            out@ == lower@.take(i as int).map_values(|u: char| upper_then_lower(u)).flatten(),
        decreases lower.len() - i,
    {
        let upper = uppercase_of(lower[i]);
        let part = lowercase_all(&upper);
        append_chars(&mut out, &part);
        proof {
            lemma_map_flatten_step(lower@, |u: char| upper_then_lower(u), i as int);
        }
        i += 1;
    }
    proof {
        assert(lower@.take(lower.len() as int) == lower@);
    }
    out
}

/// The case-folded characters of a character sequence.
pub fn casefold_chars(s: &Vec<char>) -> (r: Vec<char>)
    ensures
        r@ == fold_seq(s@),
{
    let mut out: Vec<char> = Vec::new();
    let mut i: usize = 0;
    while i < s.len()
        invariant
            0 <= i <= s.len(),
            out@ == s@.take(i as int).map_values(|c: char| fold_char(c)).flatten(),
        decreases s.len() - i,
    {
        let part = casefold_char(s[i]);
        append_chars(&mut out, &part);
        proof {
            lemma_map_flatten_step(s@, |c: char| fold_char(c), i as int);
        }
        i += 1;
    }
    proof {
        assert(s@.take(s.len() as int) == s@);
    }
    out
}

/// The case-folded characters of a string.
pub fn casefold(s: &str) -> (r: Vec<char>)
    ensures
        r@ == fold_seq(s@),
{
    let chars = chars_of(s);
    casefold_chars(&chars)
}

/// Reversal distributes over concatenation, swapping the operands.
pub proof fn lemma_reverse_add<A>(a: Seq<A>, b: Seq<A>)
    ensures
        (a + b).reverse() == b.reverse() + a.reverse(),
{
    assert((a + b).reverse() =~= b.reverse() + a.reverse());
}

/// Reversing a concatenation of pieces is concatenating the reversed pieces in reverse order.
pub proof fn lemma_flatten_reverse(s: Seq<char>)
    ensures
        fold_seq(s).reverse() == fold_seq_rev(s),
    decreases s.len(),
{
    if s.len() == 0 {
        assert(fold_seq(s) =~= Seq::<char>::empty());
        assert(fold_seq_rev(s) =~= Seq::<char>::empty());
    } else {
        let f = |c: char| fold_char(c);
        let g = |c: char| fold_char(c).reverse();
        let init = s.drop_last();
        lemma_flatten_reverse(init);
        assert(s.map_values(f) == init.map_values(f).push(fold_char(s.last())));
        init.map_values(f).lemma_flatten_push(fold_char(s.last()));
        lemma_reverse_add(fold_seq(init), fold_char(s.last()));
        assert(s.reverse() =~= seq![s.last()] + init.reverse());
        assert(s.reverse().map_values(g) =~= seq![fold_char(s.last()).reverse()] + init.reverse().map_values(g));
        vstd::seq_lib::lemma_flatten_concat(seq![fold_char(s.last()).reverse()], init.reverse().map_values(g));
        seq![fold_char(s.last()).reverse()].lemma_flatten_singleton();
    }
}

/// The case-folded characters of a string in reverse order: each character of
/// the string, from last to first, contributes its fold reversed. This equals
/// the reverse of [`casefold`].
pub fn casefold_rev(s: &str) -> (r: Vec<char>)
    ensures
        r@ == fold_seq_rev(s@),
        r@ == fold_seq(s@).reverse(),
{
    let chars = chars_of(s);
    let mut out: Vec<char> = Vec::new();
    let mut i: usize = chars.len();
    let ghost rev = chars@.reverse();
    while i > 0
        invariant
            0 <= i <= chars.len(),
            rev == chars@.reverse(),
            out@ == rev.take(chars.len() - i).map_values(|c: char| fold_char(c).reverse()).flatten(),
        decreases i,
    {
        i -= 1;
        let part = casefold_char(chars[i]);
        let mut reversed: Vec<char> = Vec::new();
        let mut k: usize = part.len();
        while k > 0
            invariant
                0 <= k <= part.len(),
                reversed@ == part@.reverse().take(part.len() - k),
            decreases k,
        {
            k -= 1;
            reversed.push(part[k]);
            proof {
                assert(part@.reverse().take(part.len() - k) =~= part@.reverse().take(
                    part.len() - k - 1,
                ).push(part@[k as int]));
            }
        }
        proof {
            assert(part@.reverse().take(part.len() as int) == part@.reverse());
        }
        append_chars(&mut out, &reversed);
        proof {
            assert(rev[chars.len() - 1 - i] == chars@[i as int]);
            lemma_map_flatten_step(rev, |c: char| fold_char(c).reverse(), chars.len() - 1 - i);
        }
    }
    proof {
        assert(rev.take(chars.len() as int) == rev);
        lemma_flatten_reverse(s@);
    }
    out
}

/// Whether `prefix` is a prefix of `haystack` from position `start` onwards,
/// comparing the two character sequences element-wise.
pub(crate) fn is_char_prefix(haystack: &Vec<char>, start: usize, prefix: &Vec<char>) -> (r: bool)
    requires
        start <= haystack.len(),
    ensures
        r == prefix@.is_prefix_of(haystack@.skip(start as int)),
{
    if prefix.len() > haystack.len() - start {
        return false;
    }
    let mut i: usize = 0;
    while i < prefix.len()
        invariant
            0 <= i <= prefix.len(),
            prefix.len() <= haystack.len() - start,
            forall|j: int| 0 <= j < i ==> prefix@[j] == haystack@[start + j],
        decreases prefix.len() - i,
    {
        if haystack[start + i] != prefix[i] {
            proof {
                assert(haystack@.skip(start as int).subrange(0, prefix.len() as int)[i as int]
                    != prefix@[i as int]);
            }
            return false;
        }
        i += 1;
    }
    proof {
        assert(prefix@ =~= haystack@.skip(start as int).subrange(0, prefix.len() as int));
    }
    true
}

/// Whether two strings are equal under the language's case folding rules.
/// This powers the `==` and `!=` operators for strings.
pub fn caseless_eq(a: &str, b: &str) -> (r: bool)
    ensures
        r == (fold_seq(a@) == fold_seq(b@)),
{
    let fa = casefold(a);
    let fb = casefold(b);
    if fa.len() != fb.len() {
        return false;
    }
    let r = is_char_prefix(&fa, 0, &fb);
    proof {
        assert(fa@.skip(0) == fa@);
        if r {
            assert(fb@ =~= fa@);
        }
    }
    r
}

/// Whether `needle` occurs in `haystack`, trying each start position from the left.
fn occurs(h: &Vec<char>, n: &Vec<char>) -> (r: bool)
    ensures
        r == occurs_in(h@, n@),
{
    let mut start: usize = 0;
    loop
        invariant
            0 <= start <= h.len(),
            forall|i: int| 0 <= i < start ==> !(#[trigger] n@.is_prefix_of(h@.skip(i))),
        decreases h.len() - start,
    {
        if is_char_prefix(h, start, n) {
            return true;
        }
        if start == h.len() {
            proof {
                assert forall|i: int| 0 <= i <= h@.len() implies !(#[trigger] n@.is_prefix_of(
                    h@.skip(i),
                )) by {
                    if i == start {
                    }
                }
            }
            return false;
        }
        start += 1;
    }
}

/// Whether the case-folded `needle` appears anywhere within the case-folded `haystack`.
pub fn caseless_contains(haystack: &str, needle: &str) -> (r: bool)
    ensures
        r == occurs_in(fold_seq(haystack@), fold_seq(needle@)),
{
    occurs(&casefold(haystack), &casefold(needle))
}

/// Whether `needle` appears within `haystack` exactly as written. This powers
/// the `contains_cs` operator for strings.
pub fn exact_contains(haystack: &str, needle: &str) -> (r: bool)
    ensures
        r == occurs_in(haystack@, needle@),
{
    occurs(&chars_of(haystack), &chars_of(needle))
}

/// Whether `haystack` starts with `needle` exactly as written. This powers
/// the `startswith_cs` operator for strings.
pub fn exact_starts_with(haystack: &str, needle: &str) -> (r: bool)
    ensures
        r == needle@.is_prefix_of(haystack@),
{
    let h = chars_of(haystack);
    let n = chars_of(needle);
    let r = is_char_prefix(&h, 0, &n);
    proof {
        assert(h@.skip(0) == h@);
    }
    r
}

/// Whether `haystack` ends with `needle` exactly as written. This powers the
/// `endswith_cs` operator for strings.
pub fn exact_ends_with(haystack: &str, needle: &str) -> (r: bool)
    ensures
        r == needle@.is_suffix_of(haystack@),
{
    let h = chars_of(haystack);
    let n = chars_of(needle);
    if n.len() > h.len() {
        return false;
    }
    let start = h.len() - n.len();
    let r = is_char_prefix(&h, start, &n);
    proof {
        assert(h@.skip(start as int) =~= h@.subrange(start as int, h@.len() as int));
    }
    r
}

/// Whether the case-folded `haystack` starts with the case-folded `needle`.
pub fn caseless_starts_with(haystack: &str, needle: &str) -> (r: bool)
    ensures
        r == fold_seq(needle@).is_prefix_of(fold_seq(haystack@)),
{
    let h = casefold(haystack);
    let n = casefold(needle);
    let r = is_char_prefix(&h, 0, &n);
    proof {
        assert(h@.skip(0) == h@);
    }
    r
}

/// A sequence is a suffix of another exactly when its reverse is a prefix of the other's reverse.
pub proof fn lemma_suffix_reverse_prefix(needle: Seq<char>, haystack: Seq<char>)
    ensures
        needle.is_suffix_of(haystack) == needle.reverse().is_prefix_of(haystack.reverse()),
{
    if needle.is_suffix_of(haystack) {
        assert(needle.reverse() =~= haystack.reverse().subrange(0, needle.len() as int));
    }
    if needle.reverse().is_prefix_of(haystack.reverse()) {
        assert forall|j: int| 0 <= j < needle.len() implies needle[j] == haystack.subrange(
            (haystack.len() - needle.len()) as int,
            haystack.len() as int,
        )[j] by {
            let k = needle.len() - 1 - j;
            assert(needle.reverse()[k] == haystack.reverse().subrange(0, needle.len() as int)[k]);
        }
        assert(needle =~= haystack.subrange(
            (haystack.len() - needle.len()) as int,
            haystack.len() as int,
        ));
    }
}

/// Whether the case-folded `haystack` ends with the case-folded `needle`,
/// compared from the end by walking both folds in reverse.
pub fn caseless_ends_with(haystack: &str, needle: &str) -> (r: bool)
    ensures
        r == fold_seq(needle@).is_suffix_of(fold_seq(haystack@)),
{
    let h = casefold_rev(haystack);
    let n = casefold_rev(needle);
    let r = is_char_prefix(&h, 0, &n);
    proof {
        assert(h@.skip(0) == h@);
        lemma_suffix_reverse_prefix(fold_seq(needle@), fold_seq(haystack@));
    }
    r
}


/// Case-insensitive equality is an equivalence: every string equals itself,
/// the order of the operands does not matter, and strings equal to a common
/// string are equal to each other.
pub proof fn caseless_eq_is_an_equivalence(a: Seq<char>, b: Seq<char>, c: Seq<char>)
    ensures
        fold_seq(a) == fold_seq(a),
        (fold_seq(a) == fold_seq(b)) == (fold_seq(b) == fold_seq(a)),
        fold_seq(a) == fold_seq(b) && fold_seq(b) == fold_seq(c) ==> fold_seq(a) == fold_seq(c),
{
}

/// Every string contains the empty string, starts with it and ends with it,
/// case-insensitively.
pub proof fn empty_needle_always_matches(haystack: Seq<char>)
    ensures
        occurs_in(fold_seq(haystack), fold_seq(Seq::empty())),
        fold_seq(Seq::empty()).is_prefix_of(fold_seq(haystack)),
        fold_seq(Seq::empty()).is_suffix_of(fold_seq(haystack)),
{
    let e = Seq::<char>::empty();
    assert(e.map_values(|c: char| fold_char(c)) =~= Seq::<Seq<char>>::empty());
    assert(fold_seq(e) =~= e);
    assert(e.is_prefix_of(fold_seq(haystack).skip(0)));
    assert(fold_seq(haystack).subrange(fold_seq(haystack).len() as int, fold_seq(haystack).len() as int) =~= e);
}

/// A string which starts with a needle (case-insensitively) also contains it.
pub proof fn starts_with_implies_contains(haystack: Seq<char>, needle: Seq<char>)
    requires
        fold_seq(needle).is_prefix_of(fold_seq(haystack)),
    ensures
        occurs_in(fold_seq(haystack), fold_seq(needle)),
{
    assert(fold_seq(haystack).skip(0) =~= fold_seq(haystack));
    assert(fold_seq(needle).is_prefix_of(fold_seq(haystack).skip(0)));
}

/// A string which ends with a needle (case-insensitively) also contains it.
pub proof fn ends_with_implies_contains(haystack: Seq<char>, needle: Seq<char>)
    requires
        fold_seq(needle).is_suffix_of(fold_seq(haystack)),
    ensures
        occurs_in(fold_seq(haystack), fold_seq(needle)),
{
    let h = fold_seq(haystack);
    let n = fold_seq(needle);
    let i = h.len() - n.len();
    assert(h.skip(i).subrange(0, n.len() as int) =~= h.subrange(i, h.len() as int));
    assert(n.is_prefix_of(h.skip(i)));
}

/// Case folding works character by character: the fold of two strings
/// written one after the other is the two folds one after the other.
pub proof fn fold_of_concatenation(a: Seq<char>, b: Seq<char>)
    ensures
        fold_seq(a + b) == fold_seq(a) + fold_seq(b),
{
    let f = |c: char| fold_char(c);
    assert((a + b).map_values(f) =~= a.map_values(f) + b.map_values(f));
    vstd::seq_lib::lemma_flatten_concat(a.map_values(f), b.map_values(f));
}

/// A needle found in a string (case-insensitively) is still found when more
/// text is written before or after that string.
pub proof fn contains_survives_extension(before: Seq<char>, haystack: Seq<char>, after: Seq<char>, needle: Seq<char>)
    requires
        occurs_in(fold_seq(haystack), fold_seq(needle)),
    ensures
        occurs_in(fold_seq(before + haystack + after), fold_seq(needle)),
{
    fold_of_concatenation(before, haystack);
    fold_of_concatenation(before + haystack, after);
    let h = fold_seq(haystack);
    let n = fold_seq(needle);
    let whole = fold_seq(before + haystack + after);
    let i = choose|i: int| 0 <= i <= h.len() && #[trigger] n.is_prefix_of(h.skip(i));
    let k = fold_seq(before).len() + i;
    assert(whole =~= fold_seq(before) + h + fold_seq(after));
    assert(whole.skip(k).subrange(0, n.len() as int) =~= h.skip(i).subrange(0, n.len() as int));
    assert(n.is_prefix_of(whole.skip(k)));
}

/// Strings which match exactly also match case-insensitively: equal strings
/// are equal under case folding, and a needle found, at the start or at the
/// end of a string as written is found there after folding too.
pub proof fn exact_matches_are_caseless_matches(haystack: Seq<char>, needle: Seq<char>)
    ensures
        haystack == needle ==> fold_seq(haystack) == fold_seq(needle),
        occurs_in(haystack, needle) ==> occurs_in(fold_seq(haystack), fold_seq(needle)),
        needle.is_prefix_of(haystack) ==> fold_seq(needle).is_prefix_of(fold_seq(haystack)),
        needle.is_suffix_of(haystack) ==> fold_seq(needle).is_suffix_of(fold_seq(haystack)),
{
    if occurs_in(haystack, needle) {
        let i = choose|i: int| 0 <= i <= haystack.len() && #[trigger] needle.is_prefix_of(haystack.skip(i));
        let before = haystack.take(i);
        let after = haystack.skip(i + needle.len());
        assert(haystack =~= before + needle + after);
        assert(needle =~= Seq::<char>::empty() + needle + Seq::<char>::empty());
        empty_needle_always_matches(needle);
        assert(occurs_in(fold_seq(needle), fold_seq(needle))) by {
            assert(fold_seq(needle).skip(0) =~= fold_seq(needle));
            assert(fold_seq(needle).is_prefix_of(fold_seq(needle).skip(0)));
        }
        contains_survives_extension(before, needle, after, needle);
    }
    if needle.is_prefix_of(haystack) {
        let after = haystack.skip(needle.len() as int);
        assert(haystack =~= needle + after);
        fold_of_concatenation(needle, after);
        assert(fold_seq(haystack).subrange(0, fold_seq(needle).len() as int) =~= fold_seq(needle));
    }
    if needle.is_suffix_of(haystack) {
        let before = haystack.take(haystack.len() - needle.len());
        assert(haystack =~= before + needle);
        fold_of_concatenation(before, needle);
        let fh = fold_seq(haystack);
        assert(fh.subrange(fh.len() - fold_seq(needle).len(), fh.len() as int) =~= fold_seq(needle));
    }
}

} // verus!
