//! Contracts for the calls this library makes into other crates and into
//! parts of std that have no specification of their own.
use vstd::prelude::*;

use crate::search::RegexPattern;

verus! {

#[verifier::external_type_specification]
#[verifier::external_body]
pub struct ExRegex(regex::Regex);

#[verifier::external_type_specification]
#[verifier::external_body]
pub struct ExRegexError(regex::Error);

/// Whether `regex::Regex::new` accepts a pattern.
pub uninterp spec fn regex_compiles(pattern: Seq<char>) -> bool;

/// Whether a regex compiled from `pattern` finds a match somewhere in `text`.
pub uninterp spec fn regex_finds(pattern: Seq<char>, text: Seq<char>) -> bool;

/// Relies on `regex::Regex::new`: whether a pattern compiles is decided by
/// the pattern alone.
#[verifier::external_body]
pub(crate) fn compile_regex(pattern: &str) -> (r: Result<regex::Regex, regex::Error>)
    ensures
        r is Ok <==> regex_compiles(pattern@),
{
    regex::Regex::new(pattern)
}

/// Relies on `regex::Regex::is_match`: a regex compiled from a pattern
/// matches a text or not, depending on the two alone. A `RegexPattern` is
/// only ever built by compiling its own source text.
#[verifier::external_body]
pub(crate) fn regex_is_match(p: &RegexPattern, text: &str) -> (r: bool)
    ensures
        r == regex_finds(p@, text@),
{
    p.re.is_match(text)
}

/// `needle` occurs as a contiguous run within `text`.
pub open spec fn is_infix(needle: Seq<char>, text: Seq<char>) -> bool {
    exists|i: int|
        0 <= i && i + needle.len() <= text.len() && #[trigger] text.subrange(i, i + needle.len())
            == needle
}

/// Relies on `str::contains` with a `&str` pattern: true when the pattern
/// matches a sub-slice of the text.
#[verifier::external_body]
pub(crate) fn str_contains(text: &str, needle: &str) -> (r: bool)
    ensures
        r == is_infix(needle@, text@),
{
    text.contains(needle)
}

} // verus!

verus! {

/// No two edges share a left or a right vertex.
pub open spec fn is_matching(m: Seq<(isize, isize)>) -> bool {
    forall|i: int, j: int| 0 <= i < j < m.len() ==> m[i].0 != m[j].0 && m[i].1 != m[j].1
}

/// Every edge of `m` is one of `edges`.
pub open spec fn edges_within(m: Seq<(isize, isize)>, edges: Seq<(isize, isize)>) -> bool {
    forall|i: int| 0 <= i < m.len() ==> edges.contains(#[trigger] m[i])
}

/// Relies on `hopcroft_karp::matching`: a maximum-cardinality matching of a
/// bipartite graph given as edges from left to right vertices. The crate
/// panics where a vertex is on both sides, which the negative left and
/// positive right vertices rule out.
#[verifier::external_body]
pub(crate) fn max_matching(edges: &Vec<(isize, isize)>) -> (r: Vec<(isize, isize)>)
    requires
        forall|i: int| 0 <= i < edges@.len() ==> (#[trigger] edges@[i]).0 < 0 && edges@[i].1 > 0,
    ensures
        edges_within(r@, edges@),
        is_matching(r@),
        forall|m: Seq<(isize, isize)>|
            edges_within(m, edges@) && is_matching(m) ==> m.len() <= r@.len(),
{
    hopcroft_karp::matching(edges)
}

/// A strictly increasing list of `k` indices below `n`.
pub open spec fn is_combination(c: Seq<usize>, n: nat, k: nat) -> bool {
    &&& c.len() == k
    &&& forall|i: int| 0 <= i < c.len() ==> c[i] < n
    &&& forall|i: int, j: int| 0 <= i < j < c.len() ==> c[i] < c[j]
}

/// Relies on `itertools::Itertools::combinations` over `0..n`: every
/// `k`-element combination of the indices, each once, as an increasing list.
#[verifier::external_body]
pub(crate) fn index_combinations(n: usize, k: usize) -> (r: Vec<Vec<usize>>)
    ensures
        forall|i: int| 0 <= i < r@.len() ==> is_combination((#[trigger] r@[i])@, n as nat, k as nat),
        forall|c: Seq<usize>|
            is_combination(c, n as nat, k as nat) ==> exists|i: int|
                0 <= i < r@.len() && (#[trigger] r@[i])@ == c,
        forall|i: int, j: int| 0 <= i < j < r@.len() ==> (#[trigger] r@[i])@ != (#[trigger] r@[j])@,
{
    itertools::Itertools::combinations(0..n, k).collect()
}

/// `t` takes its `j`-th item from the `j`-th list.
pub open spec fn in_product(t: Seq<usize>, lists: Seq<Vec<usize>>) -> bool {
    &&& t.len() == lists.len()
    &&& forall|j: int| 0 <= j < lists.len() ==> lists[j]@.contains(#[trigger] t[j])
}

/// The product of the lengths of the first `n` lists.
pub open spec fn product_len(lists: Seq<Vec<usize>>, n: nat) -> nat
    decreases n,
{
    if n == 0 {
        1
    } else {
        product_len(lists, (n - 1) as nat) * lists[n - 1]@.len()
    }
}

/// Relies on `itertools::Itertools::multi_cartesian_product`: every list
/// that takes its `i`-th item from the `i`-th input list, each once, so as
/// many as the product of the lengths; a single empty list where there are
/// no input lists.
#[verifier::external_body]
pub(crate) fn cartesian_product(lists: Vec<Vec<usize>>) -> (r: Vec<Vec<usize>>)
    ensures
        forall|i: int| 0 <= i < r@.len() ==> in_product((#[trigger] r@[i])@, lists@),
        forall|t: Seq<usize>|
            #[trigger] in_product(t, lists@) ==> exists|i: int| 0 <= i < r@.len() && (#[trigger] r@[i])@ == t,
        r@.len() == product_len(lists@, lists@.len()),
{
    itertools::Itertools::multi_cartesian_product(lists.into_iter()).collect()
}

} // verus!
