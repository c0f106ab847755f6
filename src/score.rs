//! Ranking catalog entries against typed text for interactive narrowing.
use vstd::prelude::*;

use crate::task_args::str_eq;
use crate::text::{occurs, occurs_exec, starts, starts_with};

verus! {

/// Separates the match tiers: a positional tiebreak is always below it.
pub const TIER: u128 = 0x1_0000_0000_0000_0000;

/// Text in lower case, as `str::to_lowercase` folds it.
pub uninterp spec fn lower_of(s: Seq<char>) -> Seq<char>;

/// Relies on `str::to_lowercase`: the folded text depends on the text alone,
/// and empty text stays empty.
#[verifier::external_body]
fn lowercase(s: &str) -> (r: String)
    ensures
        r@ == lower_of(s@),
        s@.len() == 0 ==> r@.len() == 0,
{
    s.to_lowercase()
}

/// Rank of a candidate at `position` of `total` for already folded text:
/// with no input every candidate matches in catalog order; otherwise an
/// exact match outranks a prefix match, which outranks a substring match,
/// and within a tier an earlier candidate outranks a later one.
pub open spec fn rank(input: Seq<char>, candidate: Seq<char>, position: int, total: int) -> Option<u128> {
    let tiebreak = total - position;
    if input.len() == 0 {
        Some(tiebreak as u128)
    } else if candidate == input {
        Some((3 * TIER + tiebreak) as u128)
    } else if starts(candidate, input) {
        Some((2 * TIER + tiebreak) as u128)
    } else if occurs(candidate, input) {
        Some((TIER + tiebreak) as u128)
    } else {
        None
    }
}

/// The rank of `candidate` for `input`, both already in lower case.
pub fn score_folded(input: &str, candidate: &str, position: usize, total_count: usize) -> (r: Option<u128>)
    requires
        position < total_count,
    ensures
        r == rank(input@, candidate@, position as int, total_count as int),
{
    let tiebreak = (total_count - position) as u128;
    if input.unicode_len() == 0 {
        Some(tiebreak)
    } else if str_eq(candidate, input) {
        Some(3 * TIER + tiebreak)
    } else if starts_with(candidate, input) {
        Some(2 * TIER + tiebreak)
    } else if occurs_exec(candidate, input) {
        Some(TIER + tiebreak)
    } else {
        None
    }
}

/// The rank of `candidate_name` for `input`, compared without regard to case;
/// `None` excludes the candidate.
pub fn score(input: &str, candidate_name: &str, position: usize, total_count: usize) -> (r: Option<u128>)
    requires
        position < total_count,
    ensures
        r == rank(lower_of(input@), lower_of(candidate_name@), position as int, total_count as int),
        input@.len() == 0 ==> r == Some((total_count - position) as u128),
{
    let a = lowercase(input);
    let b = lowercase(candidate_name);
    score_folded(a.as_str(), b.as_str(), position, total_count)
}

/// Ranks order by tier first: an exact match outranks every prefix match,
/// and a prefix match every substring match, whatever their positions.
pub proof fn lemma_tiers_dominate(input: Seq<char>, a: Seq<char>, b: Seq<char>, pa: int, pb: int, total: int)
    requires
        input.len() > 0,
        0 <= pa < total,
        0 <= pb < total,
        total <= usize::MAX,
        rank(input, a, pa, total) is Some,
        rank(input, b, pb, total) is Some,
        a == input,
        b != input,
    ensures
        rank(input, a, pa, total)->0 > rank(input, b, pb, total)->0,
{
}

} // verus!
