//! What holds of every structural diff.

use vstd::prelude::*;
use crate::json::{EntryModel, JsonModel};
use crate::json::parsed;
use crate::json_diff::{
    added_entries, compare, compare_elements, compare_old_entries, element_path, field_path,
    first_index, json_diff, ChangeModel,
};

verus! {

/// The first entry with a key stands at or before any entry with this key.
pub proof fn lemma_first_index_bound(entries: Seq<EntryModel>, i: int)
    requires
        0 <= i < entries.len(),
    ensures
        0 <= first_index(entries, entries[i].key) <= i,
        entries[first_index(entries, entries[i].key)].key == entries[i].key,
    decreases i,
{
    if entries[0].key != entries[i].key {
        let rest = entries.skip(1);
        assert(rest[i - 1] == entries[i]);
        lemma_first_index_bound(rest, i - 1);
        assert(rest[first_index(rest, entries[i].key)] == entries[first_index(
            rest,
            entries[i].key,
        ) + 1]);
    }
}

/// A value compared with itself shows no difference.
pub proof fn lemma_compare_with_itself(path: Seq<char>, v: JsonModel)
    ensures
        compare(path, v, v) == Seq::<ChangeModel>::empty(),
    decreases v, 0nat,
{
    match v {
        JsonModel::Array(items) => {
            lemma_elements_with_themselves(path, items, items.len());
        },
        JsonModel::Object(entries) => {
            lemma_entries_with_themselves(path, entries, entries.len());
            lemma_nothing_added(path, entries, entries.len());
            assert(Seq::<ChangeModel>::empty() + Seq::<ChangeModel>::empty() == Seq::<
                ChangeModel,
            >::empty());
        },
        _ => {},
    }
}

proof fn lemma_elements_with_themselves(path: Seq<char>, items: Seq<JsonModel>, n: nat)
    requires
        n <= items.len(),
    ensures
        compare_elements(path, items, items, n) == Seq::<ChangeModel>::empty(),
    decreases items, n,
{
    if n > 0 {
        let i = (n - 1) as nat;
        lemma_elements_with_themselves(path, items, i);
        lemma_compare_with_itself(element_path(path, i), items[i as int]);
        assert(Seq::<ChangeModel>::empty() + Seq::<ChangeModel>::empty() == Seq::<
            ChangeModel,
        >::empty());
    }
}

proof fn lemma_entries_with_themselves(path: Seq<char>, entries: Seq<EntryModel>, n: nat)
    requires
        n <= entries.len(),
    ensures
        compare_old_entries(path, entries, entries, n) == Seq::<ChangeModel>::empty(),
    decreases entries, n,
{
    if n > 0 {
        let i = (n - 1) as int;
        lemma_entries_with_themselves(path, entries, (n - 1) as nat);
        lemma_first_index_bound(entries, i);
        if first_index(entries, entries[i].key) == i {
            lemma_compare_with_itself(
                field_path(path, entries[i].key),
                entries[i].value,
            );
        }
        assert(Seq::<ChangeModel>::empty() + Seq::<ChangeModel>::empty() == Seq::<
            ChangeModel,
        >::empty());
    }
}

proof fn lemma_nothing_added(path: Seq<char>, entries: Seq<EntryModel>, n: nat)
    requires
        n <= entries.len(),
    ensures
        added_entries(path, entries, entries, n) == Seq::<ChangeModel>::empty(),
    decreases n,
{
    if n > 0 {
        lemma_nothing_added(path, entries, (n - 1) as nat);
        lemma_first_index_bound(entries, n - 1);
        assert(Seq::<ChangeModel>::empty() + Seq::<ChangeModel>::empty() == Seq::<
            ChangeModel,
        >::empty());
    }
}

/// A text that holds a value, compared with itself, shows no difference.
pub proof fn lemma_json_diff_of_equal_texts(x: Seq<char>)
    requires
        parsed(x) is Ok,
    ensures
        json_diff(x, x) == Ok::<Seq<ChangeModel>, Seq<char>>(Seq::empty()),
{
    lemma_compare_with_itself(Seq::empty(), parsed(x)->Ok_0);
}

} // verus!
