//! Sets of texts.

use vstd::prelude::*;

use crate::ordered::SortedMap;
use crate::text::views;

verus! {

/// A set of texts: the keys of a map that maps them to nothing.
pub type TextSet = SortedMap<String, ()>;

/// Adds a text to a set; whether it is new there.
pub fn add_text(set: &mut TextSet, text: &str) -> (added: bool)
    requires
        old(set).wf(),
    ensures
        final(set).wf(),
        final(set)@.dom() == old(set)@.dom().insert(text@),
        added == !old(set)@.dom().contains(text@),
{
    let ghost before = *set;
    let previous = set.insert(text.to_owned(), ());
    assert(set@.dom() =~= before@.dom().insert(text@));
    previous.is_none()
}

/// The texts of a list, as a set, and how many there are.
pub fn text_set(texts: &Vec<String>) -> (set: TextSet)
    ensures
        set.wf(),
        set@.dom() == views(texts@).to_set(),
        set@.dom().finite(),
{
    let mut set: TextSet = SortedMap::new();
    let ghost all = views(texts@);
    let mut i: usize = 0;
    while i < texts.len()
        invariant
            all == views(texts@),
            i <= texts@.len(),
            set.wf(),
            set@.dom() == all.take(i as int).to_set(),
        decreases texts@.len() - i,
    {
        let ghost before = set@.dom();
        add_text(&mut set, texts[i].as_str());
        proof {
            let longer = all.take(i + 1);
            assert(longer =~= all.take(i as int).push(all[i as int]));
            all.take(i as int).lemma_push_to_set_commute(all[i as int]);
        }
        i = i + 1;
    }
    proof {
        assert(all.take(i as int) =~= all);
        vstd::seq_lib::seq_to_set_is_finite(all);
    }
    set
}

/// Whether no text of a list is repeated.
pub fn distinct_texts(texts: &Vec<String>) -> (distinct: bool)
    ensures
        distinct == views(texts@).no_duplicates(),
{
    let mut seen: TextSet = SortedMap::new();
    let ghost all = views(texts@);
    let mut i: usize = 0;
    while i < texts.len()
        invariant
            all == views(texts@),
            i <= texts@.len(),
            seen.wf(),
            seen@.dom() == all.take(i as int).to_set(),
            all.take(i as int).no_duplicates(),
        decreases texts@.len() - i,
    {
        let ghost earlier = all.take(i as int);
        let added = add_text(&mut seen, texts[i].as_str());
        proof {
            assert(earlier.to_set().contains(all[i as int]) == earlier.contains(all[i as int]));
            assert(all.take(i + 1) =~= earlier.push(all[i as int]));
            earlier.lemma_push_to_set_commute(all[i as int]);
            if !added {
                let k = choose|k: int| 0 <= k < earlier.len() && earlier[k] == all[i as int];
                assert(all[k] == all[i as int]);
            } else {
                let longer = earlier.push(all[i as int]);
                assert forall|a: int, b: int|
                    0 <= a < longer.len() && 0 <= b < longer.len() && a != b implies longer[a]
                    != longer[b] by {
                    if a < i {
                        assert(earlier.contains(earlier[a]));
                    }
                    if b < i {
                        assert(earlier.contains(earlier[b]));
                    }
                }
            }
        }
        if !added {
            return false;
        }
        i = i + 1;
    }
    assert(all.take(i as int) =~= all);
    true
}

} // verus!
