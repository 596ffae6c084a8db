//! Character-sequence helpers: first occurrence of a character, substring
//! containment, splitting on commas, and thin layers over the std case
//! folding and trimming that the query and load pipelines use.

use vstd::prelude::*;
use vstd::string::StrSliceExecFns;
use vstd::string::StringExecFns;

verus! {

/// Index of the first occurrence of `c` in `s`, or `-1` when `c` does not
/// occur.
pub open spec fn first_occ(s: Seq<char>, c: char) -> int
    decreases s.len(),
{
    if s.len() == 0 {
        -1
    } else if s[0] == c {
        0
    } else if first_occ(s.skip(1), c) < 0 {
        -1
    } else {
        first_occ(s.skip(1), c) + 1
    }
}

/// `first_occ` returns `-1` exactly when `c` is absent, and otherwise the
/// least index holding `c`.
pub proof fn lemma_first_occ(s: Seq<char>, c: char)
    ensures
        first_occ(s, c) == -1 <==> (forall|i: int| 0 <= i < s.len() ==> s[i] != c),
        first_occ(s, c) != -1 ==> 0 <= first_occ(s, c) < s.len() && s[first_occ(s, c)] == c && (
        forall|i: int| 0 <= i < first_occ(s, c) ==> s[i] != c),
    decreases s.len(),
{
    if s.len() == 0 {
    } else if s[0] == c {
    } else {
        lemma_first_occ(s.skip(1), c);
        assert(forall|i: int| 1 <= i < s.len() ==> s[i] == s.skip(1)[i - 1]);
        if first_occ(s.skip(1), c) < 0 {
            assert(forall|i: int| 0 <= i < s.len() ==> s[i] != c);
        } else {
            let r = first_occ(s.skip(1), c);
            assert(s[r + 1] == s.skip(1)[r]);
        }
    }
}

/// True when `needle` occurs in `hay` as a contiguous run of characters.
pub open spec fn contains_sub(hay: Seq<char>, needle: Seq<char>) -> bool {
    exists|i: int|
        0 <= i && i + needle.len() <= hay.len() && #[trigger] hay.subrange(i, i + needle.len())
            == needle
}

/// What `str::to_lowercase` returns for a given character sequence.
pub uninterp spec fn lower_of(s: Seq<char>) -> Seq<char>;

/// Relies on `str::to_lowercase`: the lowercased form depends on the
/// characters alone.
#[verifier::external_body]
pub(crate) fn lowercase(s: &str) -> (r: String)
    ensures
        r@ == lower_of(s@),
{
    s.to_lowercase()
}

/// What `str::trim` returns for a given character sequence: the input
/// without leading and trailing whitespace.
pub uninterp spec fn trim_of(s: Seq<char>) -> Seq<char>;

/// Relies on `str::trim`: the trimmed form depends on the characters alone.
#[verifier::external_body]
pub(crate) fn trim_ws(s: &str) -> (r: &str)
    ensures
        r@ == trim_of(s@),
{
    s.trim()
}

/// Relies on `str::contains`, which is true exactly when the pattern
/// matches a sub-slice of the string.
#[verifier::external_body]
pub(crate) fn contains_str(hay: &str, needle: &str) -> (r: bool)
    ensures
        r == contains_sub(hay@, needle@),
{
    hay.contains(needle)
}

/// The pieces of `s` between its commas, in order; a string without a
/// comma is one piece, and `n` commas bound `n + 1` pieces.
pub open spec fn spec_split(s: Seq<char>) -> Seq<Seq<char>>
    decreases s.len(),
{
    let d = first_occ(s, ',');
    if d < 0 || d >= s.len() {
        seq![s]
    } else {
        seq![s.subrange(0, d)].add(spec_split(s.subrange(d + 1, s.len() as int)))
    }
}

/// Splits `s` at each comma, keeping empty pieces.
pub fn split_commas(s: &str) -> (parts: Vec<String>)
    ensures
        parts.deep_view() == spec_split(s@),
    decreases s@.len(),
{
    let n = s.unicode_len();
    let mut i: usize = 0;
    let mut comma: usize = n;
    while i < n
        invariant_except_break
            comma == n,
        invariant
            n == s@.len(),
            i <= n,
            comma <= n,
            forall|j: int| 0 <= j < i ==> s@[j] != ',',
        ensures
            comma == n ==> forall|j: int| 0 <= j < n ==> s@[j] != ',',
            comma < n ==> s@[comma as int] == ',' && (forall|j: int| 0 <= j < comma ==> s@[j] != ','),
        decreases n - i,
    {
        if s.get_char(i) == ',' {
            comma = i;
            break ;
        }
        i += 1;
    }
    proof {
        lemma_first_occ(s@, ',');
    }
    if comma == n {
        let mut parts: Vec<String> = Vec::new();
        parts.push(String::from_str(s));
        assert(parts.deep_view() =~= spec_split(s@));
        parts
    } else {
        assert(s@[comma as int] == ',');
        assert(first_occ(s@, ',') == comma as int);
        let head = String::from_str(s.substring_char(0, comma));
        let rest = s.substring_char(comma + 1, n);
        let mut tail = split_commas(rest);
        let mut parts: Vec<String> = Vec::new();
        parts.push(head);
        parts.append(&mut tail);
        assert(parts.deep_view() =~= spec_split(s@));
        parts
    }
}

} // verus!
