//! Lookups by approximate name.

use vstd::prelude::*;
use crate::card::CardSet;
use crate::fuzzy::{fuzzy_best, is_best, sim_scores, similarity_spec, FuzzyRes, Score};

verus! {

/// The sigil names of a set, in the order of its descriptions.
pub open spec fn desc_keys(d: Seq<(String, String)>) -> Seq<String> {
    d.map_values(|p: (String, String)| p.0)
}

/// The sigil whose name is most similar to `sigil_name`, by its position in
/// the set's descriptions; `None` when no name reaches a similarity of one
/// half.
pub fn sigil_search<C, E>(set: &CardSet<C, E>, sigil_name: &str) -> (r: Option<FuzzyRes>)
    ensures
        r is None <==> forall|k: int|
            0 <= k < set.sigils_description@.len() ==> !(Score { num: 1, den: 2 }).le(
                #[trigger] similarity_spec(sigil_name@, set.sigils_description@[k].0@),
            ),
        r matches Some(b) ==> is_best(sim_scores(sigil_name@, desc_keys(set.sigils_description@)), b) && (Score {
            num: 1,
            den: 2,
        }).le(b.rank),
{
    let mut keys: Vec<String> = Vec::new();
    let mut i: usize = 0;
    while i < set.sigils_description.len()
        invariant
            i <= set.sigils_description@.len(),
            keys@ == desc_keys(set.sigils_description@.subrange(0, i as int)),
        decreases set.sigils_description@.len() - i,
    {
        keys.push(set.sigils_description[i].0.clone());
        i += 1;
        assert(keys@ =~= desc_keys(set.sigils_description@.subrange(0, i as int)));
    }
    assert(set.sigils_description@.subrange(0, i as int) =~= set.sigils_description@);
    let r = fuzzy_best(sigil_name, &keys, Score { num: 1, den: 2 });
    assert(forall|k: int| 0 <= k < keys@.len() ==> #[trigger] keys@[k] == set.sigils_description@[k].0);
    assert forall|k: int| 0 <= k < keys@.len() implies #[trigger] similarity_spec(
        sigil_name@,
        set.sigils_description@[k].0@,
    ) == sim_scores(sigil_name@, keys@)[k] by {
        assert(keys@[k] == set.sigils_description@[k].0);
    }
    r
}

} // verus!
