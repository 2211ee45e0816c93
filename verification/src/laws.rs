//! General laws of the merged view.
//!
//! These hold for every aggregate and every key; together with the lookup
//! contracts of [`crate::configset::ConfigSet`] they pin down how merge
//! order decides what a lookup answers.

use vstd::prelude::*;

use crate::configset::{contains_key, int_lookup, lookup, ConfigSetView, EntryView};

verus! {

/// The most recently merged source wins. Looking a key up in `earlier`
/// followed by `later` answers as `later` alone whenever `later` defines
/// the key, and as `earlier` alone otherwise — whatever values earlier
/// sources gave the key. The integer reading of the merged value follows
/// the same rule.
pub proof fn lemma_merge_precedence(earlier: Seq<EntryView>, later: Seq<EntryView>, key: Seq<char>)
    ensures
        lookup(earlier + later, key) == if contains_key(later, key) {
            lookup(later, key)
        } else {
            lookup(earlier, key)
        },
        int_lookup(earlier + later, key) == if contains_key(later, key) {
            int_lookup(later, key)
        } else {
            int_lookup(earlier, key)
        },
    decreases later.len(),
{
    if later.len() == 0 {
        assert(earlier + later =~= earlier);
        assert(!contains_key(later, key));
    } else {
        let all = earlier + later;
        assert(all.last() == later.last());
        if later.last().key == key {
            assert(later[later.len() - 1].key == key);
            assert(contains_key(later, key));
        } else {
            assert(all.drop_last() =~= earlier + later.drop_last());
            lemma_merge_precedence(earlier, later.drop_last(), key);
            if contains_key(later.drop_last(), key) {
                let w = choose|i: int|
                    0 <= i < later.drop_last().len() && later.drop_last()[i].key == key;
                assert(later[w].key == key);
                assert(contains_key(later, key));
            }
            if contains_key(later, key) {
                let w = choose|i: int| 0 <= i < later.len() && later[i].key == key;
                assert(w < later.len() - 1);
                assert(later.drop_last()[w].key == key);
                assert(contains_key(later.drop_last(), key));
            }
        }
    }
}

/// A lookup finds a value exactly for the keys that some merged source
/// defined: a key never merged is absent, never an error and never a
/// default value.
pub proof fn lemma_found_iff_defined(entries: Seq<EntryView>, key: Seq<char>)
    ensures
        lookup(entries, key) is Some <==> contains_key(entries, key),
    decreases entries.len(),
{
    if entries.len() == 0 {
    } else if entries.last().key == key {
        assert(entries[entries.len() - 1].key == key);
        assert(contains_key(entries, key));
    } else {
        lemma_found_iff_defined(entries.drop_last(), key);
        if contains_key(entries.drop_last(), key) {
            let w = choose|i: int|
                0 <= i < entries.drop_last().len() && entries.drop_last()[i].key == key;
            assert(entries[w].key == key);
            assert(contains_key(entries, key));
        }
        if contains_key(entries, key) {
            let w = choose|i: int| 0 <= i < entries.len() && entries[i].key == key;
            assert(w < entries.len() - 1);
            assert(entries.drop_last()[w].key == key);
            assert(contains_key(entries.drop_last(), key));
        }
    }
}

/// Merge order across instances is all that matters: two separately
/// constructed aggregates whose merged entries are equal — as they are
/// after adding the same sources in the same order, by the contract of
/// [`crate::configset::ConfigSet::add_files`] — answer every lookup alike.
pub proof fn lemma_equal_merges_agree(a: ConfigSetView, b: ConfigSetView, key: Seq<char>)
    requires
        a.entries == b.entries,
    ensures
        lookup(a.entries, key) == lookup(b.entries, key),
{
}

} // verus!
