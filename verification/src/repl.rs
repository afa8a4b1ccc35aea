//! Fuzzy matching of user input against a list of known names, by
//! case-insensitive Damerau-Levenshtein distance.

use crate::manager::{lower_of, lowercase};
use vstd::prelude::*;

verus! {

/// What `strsim::damerau_levenshtein` returns; it depends on the two
/// character sequences alone.
pub uninterp spec fn dl_of(a: Seq<char>, b: Seq<char>) -> nat;

/// Relies on strsim::damerau_levenshtein: the edit distance between
/// the two strings, counting insertions, deletions, substitutions and
/// transpositions.
#[verifier::external_body]
fn damerau_levenshtein(a: &str, b: &str) -> (r: usize)
    ensures
        r as nat == dl_of(a@, b@),
{
    strsim::damerau_levenshtein(a, b)
}

/// The case-insensitive distance from the input to option `i`.
pub open spec fn match_score(input: Seq<char>, options: Seq<&str>, i: int) -> nat {
    dl_of(lower_of(input), lower_of(options[i]@))
}

/// Option `i` scores strictly better than every other option.
pub open spec fn unique_best_match(input: Seq<char>, options: Seq<&str>, i: int) -> bool {
    &&& 0 <= i < options.len()
    &&& forall|j: int|
        0 <= j < options.len() && j != i ==> match_score(input, options, i) < #[trigger] match_score(
            input,
            options,
            j,
        )
}

/// Finds the option closest to the input, case-insensitively; `None`
/// when no single option scores strictly best.
pub fn find_closest<'b>(input: &str, options: &Vec<&'b str>) -> (r: Option<(usize, &'b str)>)
    ensures
        r is Some <==> exists|i: int| unique_best_match(input@, options@, i),
        r matches Some(p) ==> exists|i: int|
            {
                &&& #[trigger] unique_best_match(input@, options@, i)
                &&& p.1 == options@[i]
                &&& p.0 as nat == match_score(input@, options@, i)
            },
{
    let lowered: String = lowercase(input);
    let mut best_idx: usize = 0;
    let mut best_score: usize = 0;
    let mut tied: bool = false;
    let mut i: usize = 0;
    while i < options.len()
        invariant
            0 <= i <= options.len(),
            lowered@ == lower_of(input@),
            i > 0 ==> {
                &&& 0 <= best_idx < i
                &&& best_score as nat == match_score(input@, options@, best_idx as int)
                &&& forall|j: int|
                    0 <= j < i && j != best_idx ==> best_score as nat <= #[trigger] match_score(
                        input@,
                        options@,
                        j,
                    )
                &&& tied == exists|j: int|
                    0 <= j < i && j != best_idx && best_score as nat == #[trigger] match_score(
                        input@,
                        options@,
                        j,
                    )
            },
        decreases options.len() - i,
    {
        let lowered_option: String = lowercase(options[i]);
        let score: usize = damerau_levenshtein(lowered.as_str(), lowered_option.as_str());
        if i == 0 {
            best_idx = 0;
            best_score = score;
            tied = false;
        } else if score < best_score {
            best_idx = i;
            best_score = score;
            tied = false;
        } else if score == best_score {
            tied = true;
        }
        i = i + 1;
    }
    if options.len() == 0 {
        proof {
            assert(forall|i: int| !unique_best_match(input@, options@, i));
        }
        return None;
    }
    if tied {
        proof {
            let other = choose|j: int|
                0 <= j < options@.len() && j != best_idx && best_score as nat == #[trigger] match_score(
                    input@,
                    options@,
                    j,
                );
            assert forall|i: int| !unique_best_match(input@, options@, i) by {
                if 0 <= i < options@.len() {
                    if i == best_idx as int {
                        assert(!(match_score(input@, options@, i) < match_score(
                            input@,
                            options@,
                            other,
                        )));
                    } else {
                        assert(!(match_score(input@, options@, i) < match_score(
                            input@,
                            options@,
                            best_idx as int,
                        )));
                    }
                }
            }
        }
        None
    } else {
        proof {
            assert(unique_best_match(input@, options@, best_idx as int)) by {
                assert forall|j: int|
                    0 <= j < options@.len() && j != best_idx as int implies match_score(
                    input@,
                    options@,
                    best_idx as int,
                ) < #[trigger] match_score(input@, options@, j) by {
                    assert(best_score as nat <= match_score(input@, options@, j));
                    assert(best_score as nat != match_score(input@, options@, j));
                }
            }
        }
        Some((best_score, options[best_idx]))
    }
}

} // verus!
