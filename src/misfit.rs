use vstd::prelude::*;
use crate::freq_map::{lemma_map_of_entry, FrequencyMap};
use crate::order::lex_lt;
use crate::text::views;

verus! {

/// The words of `previous` that `current` lacks, in strictly ascending codepoint-lexicographic
/// order (so each once). Words present in both, whatever their counts, are not listed.
pub fn misfits(previous: &FrequencyMap, current: &FrequencyMap) -> (r: Vec<String>)
    requires
        previous.wf(),
        current.wf(),
    ensures
        forall|i: int|
            0 <= i < r@.len() ==> previous@.contains_key(#[trigger] r@[i]@) && !current@.contains_key(
                r@[i]@,
            ),
        forall|w: Seq<char>|
            previous@.contains_key(w) && !current@.contains_key(w) ==> #[trigger] views(
                r@,
            ).contains(w),
        forall|i: int, j: int| 0 <= i < j < r@.len() ==> lex_lt(#[trigger] r@[i]@, #[trigger] r@[j]@),
{
    let ghost s = previous.listing();
    let mut v: Vec<String> = Vec::new();
    let n = previous.len();
    let mut i: usize = 0;
    while i < n
        invariant
            previous.wf(),
            current.wf(),
            s == previous.listing(),
            n == s.len(),
            i <= n,
            forall|k: int|
                0 <= k < v@.len() ==> previous@.contains_key(#[trigger] v@[k]@)
                    && !current@.contains_key(v@[k]@) && exists|j: int|
                    0 <= j < i && #[trigger] s[j].0 == v@[k]@,
            forall|k: int, l: int|
                0 <= k < l < v@.len() ==> lex_lt(#[trigger] v@[k]@, #[trigger] v@[l]@),
            forall|j: int|
                0 <= j < i && !current@.contains_key(#[trigger] s[j].0) ==> views(v@).contains(
                    s[j].0,
                ),
        decreases n - i,
    {
        let (w, _) = previous.entry_at(i);
        proof {
            lemma_map_of_entry(s, i as int);
        }
        if !current.contains_key(w) {
            let ghost before = v@;
            v.push(w.clone());
            proof {
                assert(views(v@) =~= views(before).push(w@));
                assert(views(v@)[before.len() as int] == w@);
                assert forall|k: int| 0 <= k < before.len() implies lex_lt(
                    #[trigger] v@[k]@,
                    w@,
                ) by {
                    assert(v@[k] == before[k]);
                    let j = choose|j: int| 0 <= j < i && #[trigger] s[j].0 == before[k]@;
                }
                assert forall|j: int|
                    0 <= j < i && !current@.contains_key(#[trigger] s[j].0) implies views(
                        v@,
                    ).contains(s[j].0) by {
                    let k = choose|k: int|
                        0 <= k < views(before).len() && views(before)[k] == s[j].0;
                    assert(views(v@)[k] == views(before)[k]);
                }
                assert forall|k: int| #![trigger v@[k]] 0 <= k < v@.len() implies exists|j: int|
                    0 <= j < i + 1 && #[trigger] s[j].0 == v@[k]@ by {
                    if k < before.len() {
                        assert(v@[k] == before[k]);
                        let j = choose|j: int| 0 <= j < i && #[trigger] s[j].0 == before[k]@;
                        assert(s[j].0 == v@[k]@);
                    } else {
                        assert(s[i as int].0 == v@[k]@);
                    }
                }
            }
        }
        i = i + 1;
    }
    proof {
        assert forall|w: Seq<char>|
            previous@.contains_key(w) && !current@.contains_key(w) implies #[trigger] views(
                v@,
            ).contains(w) by {
            let j = choose|j: int| 0 <= j < s.len() && #[trigger] s[j].0 == w;
        }
    }
    v
}

} // verus!
