//! Structural diff of two JSON values: the trees are walked in lock-step and
//! every difference is reported with the path that leads to it.

use vstd::prelude::*;
use crate::json::{
    entry_models, lemma_view_of_containers, models, parse_json, parsed, EntryModel, JsonError,
    JsonModel, JsonValue,
};
use crate::text::{decimal, from_chars, push_all, push_decimal, to_chars};
use crate::text_diff::DiffConfig;

verus! {

/// One difference between two values. The path of the root is empty; a field
/// adds `.name` (or `name` at the root), an element adds `[index]`.
#[derive(Debug, Clone, PartialEq)]
pub enum JsonChange {
    /// Present only in the new value.
    Added { path: String, value: JsonValue },
    /// Present only in the old value.
    Removed { path: String, value: JsonValue },
    /// Same kind of value, different content.
    Modified { path: String, old_value: JsonValue, new_value: JsonValue },
    /// Different kinds of value.
    TypeChanged { path: String, old_value: JsonValue, new_value: JsonValue },
}

/// The mathematical value of a `JsonChange`.
pub enum ChangeModel {
    Added { path: Seq<char>, value: JsonModel },
    Removed { path: Seq<char>, value: JsonModel },
    Modified { path: Seq<char>, old_value: JsonModel, new_value: JsonModel },
    TypeChanged { path: Seq<char>, old_value: JsonModel, new_value: JsonModel },
}

impl View for JsonChange {
    type V = ChangeModel;

    open spec fn view(&self) -> ChangeModel {
        match *self {
            JsonChange::Added { path, value } => ChangeModel::Added { path: path@, value: value@ },
            JsonChange::Removed { path, value } => ChangeModel::Removed {
                path: path@,
                value: value@,
            },
            JsonChange::Modified { path, old_value, new_value } => ChangeModel::Modified {
                path: path@,
                old_value: old_value@,
                new_value: new_value@,
            },
            JsonChange::TypeChanged { path, old_value, new_value } => ChangeModel::TypeChanged {
                path: path@,
                old_value: old_value@,
                new_value: new_value@,
            },
        }
    }
}

/// The views of a sequence of changes.
pub open spec fn change_models(v: Seq<JsonChange>) -> Seq<ChangeModel> {
    v.map_values(|c: JsonChange| c@)
}

/// The path of field `key` below `path`.
pub open spec fn field_path(path: Seq<char>, key: Seq<char>) -> Seq<char> {
    if path.len() == 0 {
        key
    } else {
        path + seq!['.'] + key
    }
}

/// The path of element `index` below `path`.
pub open spec fn element_path(path: Seq<char>, index: nat) -> Seq<char> {
    path + seq!['['] + decimal(index) + seq![']']
}

/// The index of the first entry with the given key, or the number of entries
/// when there is none.
pub open spec fn first_index(entries: Seq<EntryModel>, key: Seq<char>) -> int
    decreases entries.len(),
{
    if entries.len() == 0 {
        0
    } else if entries[0].key == key {
        0
    } else {
        1 + first_index(entries.skip(1), key)
    }
}

/// The differences between `old` and `new`, both found at `path`.
pub open spec fn compare(path: Seq<char>, old: JsonModel, new: JsonModel) -> Seq<ChangeModel>
    decreases old, 0nat,
{
    match (old, new) {
        (JsonModel::Null, JsonModel::Null) => Seq::empty(),
        (JsonModel::Bool(a), JsonModel::Bool(b)) => if a != b {
            seq![ChangeModel::Modified { path, old_value: old, new_value: new }]
        } else {
            Seq::empty()
        },
        (JsonModel::Number(a), JsonModel::Number(b)) => if a != b {
            seq![ChangeModel::Modified { path, old_value: old, new_value: new }]
        } else {
            Seq::empty()
        },
        (JsonModel::String(a), JsonModel::String(b)) => if a != b {
            seq![ChangeModel::Modified { path, old_value: old, new_value: new }]
        } else {
            Seq::empty()
        },
        (JsonModel::Array(olds), JsonModel::Array(news)) => compare_elements(
            path,
            olds,
            news,
            if olds.len() >= news.len() {
                olds.len()
            } else {
                news.len()
            },
        ),
        (JsonModel::Object(olds), JsonModel::Object(news)) => compare_old_entries(
            path,
            olds,
            news,
            olds.len(),
        ) + added_entries(path, olds, news, news.len()),
        _ => seq![ChangeModel::TypeChanged { path, old_value: old, new_value: new }],
    }
}

/// The differences found at the first `n` positions of two arrays: where both
/// have an element the two are compared, an element of only one of them is
/// removed or added.
pub open spec fn compare_elements(
    path: Seq<char>,
    olds: Seq<JsonModel>,
    news: Seq<JsonModel>,
    n: nat,
) -> Seq<ChangeModel>
    decreases olds, n,
{
    if n == 0 {
        Seq::empty()
    } else {
        let i = (n - 1) as nat;
        let here = element_path(path, i);
        compare_elements(path, olds, news, i) + if i < olds.len() && i < news.len() {
            compare(here, olds[i as int], news[i as int])
        } else if i < olds.len() {
            seq![ChangeModel::Removed { path: here, value: olds[i as int] }]
        } else if i < news.len() {
            seq![ChangeModel::Added { path: here, value: news[i as int] }]
        } else {
            Seq::empty()
        }
    }
}

/// The differences found for the keys of the first `n` entries of the old
/// object. A key is looked at where it first occurs; on both sides its value
/// is that of the first entry with this key.
pub open spec fn compare_old_entries(
    path: Seq<char>,
    olds: Seq<EntryModel>,
    news: Seq<EntryModel>,
    n: nat,
) -> Seq<ChangeModel>
    decreases olds, n,
{
    if n == 0 || n > olds.len() {
        Seq::empty()
    } else {
        let i = (n - 1) as int;
        let key = olds[i].key;
        let here = field_path(path, key);
        let j = first_index(news, key);
        compare_old_entries(path, olds, news, (n - 1) as nat) + if first_index(olds, key) != i {
            Seq::empty()
        } else if 0 <= j < news.len() {
            compare(here, olds[i].value, news[j].value)
        } else {
            seq![ChangeModel::Removed { path: here, value: olds[i].value }]
        }
    }
}

/// The additions for the keys of the first `n` entries of the new object that
/// the old object does not have.
pub open spec fn added_entries(
    path: Seq<char>,
    olds: Seq<EntryModel>,
    news: Seq<EntryModel>,
    n: nat,
) -> Seq<ChangeModel>
    decreases n,
{
    if n == 0 || n > news.len() {
        Seq::empty()
    } else {
        let j = (n - 1) as int;
        let key = news[j].key;
        added_entries(path, olds, news, (n - 1) as nat) + if first_index(news, key) == j
            && first_index(olds, key) >= olds.len() {
            seq![ChangeModel::Added { path: field_path(path, key), value: news[j].value }]
        } else {
            Seq::empty()
        }
    }
}

/// How many entries of `s` are additions.
pub open spec fn count_added(s: Seq<ChangeModel>) -> nat
    decreases s.len(),
{
    if s.len() == 0 {
        0
    } else {
        count_added(s.drop_last()) + if s.last() is Added { 1nat } else { 0nat }
    }
}

/// How many entries of `s` are removals.
pub open spec fn count_removed(s: Seq<ChangeModel>) -> nat
    decreases s.len(),
{
    if s.len() == 0 {
        0
    } else {
        count_removed(s.drop_last()) + if s.last() is Removed { 1nat } else { 0nat }
    }
}

/// How many entries of `s` are modifications or changes of type.
pub open spec fn count_modified(s: Seq<ChangeModel>) -> nat
    decreases s.len(),
{
    if s.len() == 0 {
        0
    } else {
        count_modified(s.drop_last()) + if s.last() is Modified || s.last() is TypeChanged {
            1nat
        } else {
            0nat
        }
    }
}

/// The outcome of a structural diff.
#[derive(Debug, Clone, PartialEq)]
pub struct JsonDiffResult {
    /// The differences found.
    pub changes: Vec<JsonChange>,
}

impl JsonDiffResult {
    /// The differences as a mathematical sequence.
    pub open spec fn report(&self) -> Seq<ChangeModel> {
        change_models(self.changes@)
    }

    /// Whether the two values differ.
    pub fn has_changes(&self) -> (r: bool)
        ensures
            r == (self.report().len() > 0),
    {
        self.changes.len() > 0
    }

    /// The number of additions.
    pub fn additions(&self) -> (r: usize)
        ensures
            r == count_added(self.report()),
    {
        let mut n: usize = 0;
        let mut i: usize = 0;
        assert(self.report().take(0) == Seq::<ChangeModel>::empty());
        while i < self.changes.len()
            invariant
                i <= self.changes.len(),
                n <= i,
                n == count_added(self.report().take(i as int)),
            decreases self.changes.len() - i,
        {
            assert(self.report().take(i + 1).drop_last() == self.report().take(i as int));
            match &self.changes[i] {
                JsonChange::Added { .. } => {
                    n += 1;
                },
                _ => {},
            }
            i += 1;
        }
        assert(self.report().take(i as int) == self.report());
        n
    }

    /// The number of removals.
    pub fn deletions(&self) -> (r: usize)
        ensures
            r == count_removed(self.report()),
    {
        let mut n: usize = 0;
        let mut i: usize = 0;
        assert(self.report().take(0) == Seq::<ChangeModel>::empty());
        while i < self.changes.len()
            invariant
                i <= self.changes.len(),
                n <= i,
                n == count_removed(self.report().take(i as int)),
            decreases self.changes.len() - i,
        {
            assert(self.report().take(i + 1).drop_last() == self.report().take(i as int));
            match &self.changes[i] {
                JsonChange::Removed { .. } => {
                    n += 1;
                },
                _ => {},
            }
            i += 1;
        }
        assert(self.report().take(i as int) == self.report());
        n
    }

    /// The number of modifications, changes of type included.
    pub fn modifications(&self) -> (r: usize)
        ensures
            r == count_modified(self.report()),
    {
        let mut n: usize = 0;
        let mut i: usize = 0;
        assert(self.report().take(0) == Seq::<ChangeModel>::empty());
        while i < self.changes.len()
            invariant
                i <= self.changes.len(),
                n <= i,
                n == count_modified(self.report().take(i as int)),
            decreases self.changes.len() - i,
        {
            assert(self.report().take(i + 1).drop_last() == self.report().take(i as int));
            match &self.changes[i] {
                JsonChange::Modified { .. } => {
                    n += 1;
                },
                JsonChange::TypeChanged { .. } => {
                    n += 1;
                },
                _ => {},
            }
            i += 1;
        }
        assert(self.report().take(i as int) == self.report());
        n
    }
}

/// The index of the first entry with the given key, or the number of entries.
fn find_key(entries: &Vec<(String, JsonValue)>, key: &String) -> (r: usize)
    ensures
        r == first_index(entry_models(entries@), key@),
        r <= entries.len(),
{
    let ghost all = entry_models(entries@);
    let mut i: usize = 0;
    assert(all.skip(0) == all);
    while i < entries.len()
        invariant
            i <= entries.len(),
            all == entry_models(entries@),
            first_index(all, key@) == i + first_index(all.skip(i as int), key@),
        decreases entries.len() - i,
    {
        assert(all.skip(i as int)[0] == all[i as int]);
        if entries[i].0 == *key {
            return i;
        }
        assert(all.skip(i as int).skip(1) == all.skip(i + 1));
        i += 1;
    }
    assert(all.skip(i as int).len() == 0);
    i
}

/// The path of field `key` below `path`.
fn child_field(path: &Vec<char>, key: &String) -> (r: Vec<char>)
    ensures
        r@ == field_path(path@, key@),
{
    let k = to_chars(key.as_str());
    if path.len() == 0 {
        k
    } else {
        let mut r: Vec<char> = Vec::new();
        push_all(&mut r, path);
        r.push('.');
        push_all(&mut r, &k);
        assert(r@ == path@ + seq!['.'] + key@);
        r
    }
}

/// The path of element `index` below `path`.
fn child_element(path: &Vec<char>, index: usize) -> (r: Vec<char>)
    ensures
        r@ == element_path(path@, index as nat),
{
    let mut r: Vec<char> = Vec::new();
    push_all(&mut r, path);
    r.push('[');
    push_decimal(&mut r, index as u128);
    r.push(']');
    assert(r@ == path@ + seq!['['] + decimal(index as nat) + seq![']']);
    r
}

/// Appends a `Modified` entry.
fn push_modified(changes: &mut Vec<JsonChange>, path: &Vec<char>, was: &JsonValue, now: &JsonValue)
    ensures
        change_models(final(changes)@) == change_models(old(changes)@).push(
            ChangeModel::Modified { path: path@, old_value: was@, new_value: now@ },
        ),
{
    let c = JsonChange::Modified {
        path: from_chars(path),
        old_value: was.duplicate(),
        new_value: now.duplicate(),
    };
    changes.push(c);
    assert(change_models(changes@) =~= change_models(old(changes)@).push(c@));
}

/// Appends the differences between `was` and `now`, both found at `path`.
fn compare_at(path: &Vec<char>, was: &JsonValue, now: &JsonValue, changes: &mut Vec<JsonChange>)
    ensures
        change_models(final(changes)@) == change_models(old(changes)@) + compare(
            path@,
            was@,
            now@,
        ),
    decreases was,
{
    let ghost before = change_models(changes@);
    match (was, now) {
        (JsonValue::Null, JsonValue::Null) => {
            assert(before + Seq::<ChangeModel>::empty() == before);
        },
        (JsonValue::Bool(a), JsonValue::Bool(b)) => {
            if *a != *b {
                push_modified(changes, path, was, now);
                assert(before.push(compare(path@, was@, now@)[0]) == before + compare(
                    path@,
                    was@,
                    now@,
                ));
            } else {
                assert(before + Seq::<ChangeModel>::empty() == before);
            }
        },
        (JsonValue::Number(a), JsonValue::Number(b)) => {
            if *a != *b {
                push_modified(changes, path, was, now);
                assert(before.push(compare(path@, was@, now@)[0]) == before + compare(
                    path@,
                    was@,
                    now@,
                ));
            } else {
                assert(before + Seq::<ChangeModel>::empty() == before);
            }
        },
        (JsonValue::String(a), JsonValue::String(b)) => {
            if *a != *b {
                push_modified(changes, path, was, now);
                assert(before.push(compare(path@, was@, now@)[0]) == before + compare(
                    path@,
                    was@,
                    now@,
                ));
            } else {
                assert(before + Seq::<ChangeModel>::empty() == before);
            }
        },
        (JsonValue::Array(old_items), JsonValue::Array(new_items)) => {
            proof {
                lemma_view_of_containers(*was);
                lemma_view_of_containers(*now);
            }
            let ghost olds = models(old_items@);
            let ghost news = models(new_items@);
            let max_len: usize = if old_items.len() >= new_items.len() {
                old_items.len()
            } else {
                new_items.len()
            };
            let mut i: usize = 0;
            assert(before + compare_elements(path@, olds, news, 0) == before);
            while i < max_len
                invariant
                    i <= max_len,
                    max_len >= old_items.len(),
                    max_len >= new_items.len(),
                    max_len == old_items.len() || max_len == new_items.len(),
                    *was == JsonValue::Array(*old_items),
                    olds == models(old_items@),
                    news == models(new_items@),
                    change_models(changes@) == before + compare_elements(
                        path@,
                        olds,
                        news,
                        i as nat,
                    ),
                decreases max_len - i,
            {
                let here = child_element(path, i);
                let ghost so_far = change_models(changes@);
                let ghost done = compare_elements(path@, olds, news, i as nat);
                if i < old_items.len() && i < new_items.len() {
                    assert(decreases_to!(*was => was->Array_0));
                    assert(decreases_to!(old_items => old_items[i as int]));
                    compare_at(&here, &old_items[i], &new_items[i], changes);
                    assert(before + done + compare(here@, olds[i as int], news[i as int]) == before
                        + (done + compare(here@, olds[i as int], news[i as int])));
                } else if i < old_items.len() {
                    let c = JsonChange::Removed {
                        path: from_chars(&here),
                        value: old_items[i].duplicate(),
                    };
                    changes.push(c);
                    assert(change_models(changes@) =~= so_far.push(c@));
                    assert(so_far.push(c@) == before + (done + seq![c@]));
                } else {
                    let c = JsonChange::Added {
                        path: from_chars(&here),
                        value: new_items[i].duplicate(),
                    };
                    changes.push(c);
                    assert(change_models(changes@) =~= so_far.push(c@));
                    assert(so_far.push(c@) == before + (done + seq![c@]));
                }
                i += 1;
            }
        },
        (JsonValue::Object(old_entries), JsonValue::Object(new_entries)) => {
            proof {
                lemma_view_of_containers(*was);
                lemma_view_of_containers(*now);
            }
            let ghost olds = entry_models(old_entries@);
            let ghost news = entry_models(new_entries@);
            let mut i: usize = 0;
            assert(before + compare_old_entries(path@, olds, news, 0) == before);
            while i < old_entries.len()
                invariant
                    i <= old_entries.len(),
                    *was == JsonValue::Object(*old_entries),
                    olds == entry_models(old_entries@),
                    news == entry_models(new_entries@),
                    change_models(changes@) == before + compare_old_entries(
                        path@,
                        olds,
                        news,
                        i as nat,
                    ),
                decreases old_entries.len() - i,
            {
                let ghost so_far = change_models(changes@);
                let ghost done = compare_old_entries(path@, olds, news, i as nat);
                let key = &old_entries[i].0;
                assert(olds[i as int].key == key@);
                if find_key(old_entries, key) == i {
                    let here = child_field(path, key);
                    let j = find_key(new_entries, key);
                    if j < new_entries.len() {
                        assert(decreases_to!(*was => was->Object_0));
                        assert(decreases_to!(old_entries => old_entries[i as int]));
                        assert(decreases_to!(old_entries[i as int] => old_entries[i as int].1));
                        compare_at(&here, &old_entries[i].1, &new_entries[j].1, changes);
                        assert(before + done + compare(
                            here@,
                            olds[i as int].value,
                            news[j as int].value,
                        ) == before + (done + compare(
                            here@,
                            olds[i as int].value,
                            news[j as int].value,
                        )));
                    } else {
                        let c = JsonChange::Removed {
                            path: from_chars(&here),
                            value: old_entries[i].1.duplicate(),
                        };
                        changes.push(c);
                        assert(change_models(changes@) =~= so_far.push(c@));
                        assert(so_far.push(c@) == before + (done + seq![c@]));
                    }
                } else {
                    assert(before + (done + Seq::<ChangeModel>::empty()) == so_far);
                }
                i += 1;
            }
            let ghost middle = change_models(changes@);
            let mut j: usize = 0;
            assert(middle + added_entries(path@, olds, news, 0) == middle);
            while j < new_entries.len()
                invariant
                    j <= new_entries.len(),
                    olds == entry_models(old_entries@),
                    news == entry_models(new_entries@),
                    change_models(changes@) == middle + added_entries(path@, olds, news, j as nat),
                decreases new_entries.len() - j,
            {
                let ghost so_far = change_models(changes@);
                let ghost done = added_entries(path@, olds, news, j as nat);
                let key = &new_entries[j].0;
                assert(news[j as int].key == key@);
                if find_key(new_entries, key) == j && find_key(old_entries, key)
                    >= old_entries.len() {
                    let here = child_field(path, key);
                    let c = JsonChange::Added {
                        path: from_chars(&here),
                        value: new_entries[j].1.duplicate(),
                    };
                    changes.push(c);
                    assert(change_models(changes@) =~= so_far.push(c@));
                    assert(so_far.push(c@) == middle + (done + seq![c@]));
                } else {
                    assert(middle + (done + Seq::<ChangeModel>::empty()) == so_far);
                }
                j += 1;
            }
            assert(before + compare_old_entries(path@, olds, news, olds.len()) + added_entries(
                path@,
                olds,
                news,
                news.len(),
            ) == before + (compare_old_entries(path@, olds, news, olds.len()) + added_entries(
                path@,
                olds,
                news,
                news.len(),
            )));
        },
        _ => {
            let c = JsonChange::TypeChanged {
                path: from_chars(path),
                old_value: was.duplicate(),
                new_value: now.duplicate(),
            };
            changes.push(c);
            assert(change_models(changes@) =~= before.push(c@));
            assert(before.push(c@) == before + seq![c@]);
        },
    }
}

/// Appends to `changes` the differences between the old value `was` and the
/// new value `now`, both found at `path`.
pub fn compare_json_values(
    path: &str,
    was: &JsonValue,
    now: &JsonValue,
    changes: &mut Vec<JsonChange>,
)
    ensures
        change_models(final(changes)@) == change_models(old(changes)@) + compare(
            path@,
            was@,
            now@,
        ),
{
    let p = to_chars(path);
    compare_at(&p, was, now, changes);
}

/// What `diff_json` gives for two texts: the diagnostic of the old text if it
/// does not parse, else that of the new text if that does not parse, else the
/// differences between the two values from the root.
pub open spec fn json_diff(old: Seq<char>, new: Seq<char>) -> Result<Seq<ChangeModel>, Seq<char>> {
    match parsed(old) {
        Err(message) => Err(message),
        Ok(old_value) => match parsed(new) {
            Err(message) => Err(message),
            Ok(new_value) => Ok(compare(Seq::empty(), old_value, new_value)),
        },
    }
}

/// Parses two texts and compares the values they hold.
pub fn diff_json(old: &str, new: &str, config: &DiffConfig) -> (r: Result<
    JsonDiffResult,
    JsonError,
>)
    ensures
        match r {
            Ok(result) => json_diff(old@, new@) == Ok::<Seq<ChangeModel>, Seq<char>>(
                result.report(),
            ),
            Err(e) => json_diff(old@, new@) == Err::<Seq<ChangeModel>, Seq<char>>(e.message@),
        },
{
    let old_value = match parse_json(old) {
        Ok(v) => v,
        Err(e) => {
            return Err(e);
        },
    };
    let new_value = match parse_json(new) {
        Ok(v) => v,
        Err(e) => {
            return Err(e);
        },
    };
    let mut changes: Vec<JsonChange> = Vec::new();
    let root: Vec<char> = Vec::new();
    compare_at(&root, &old_value, &new_value, &mut changes);
    assert(change_models(Seq::<JsonChange>::empty()) + compare(root@, old_value@, new_value@)
        == compare(Seq::empty(), old_value@, new_value@));
    Ok(JsonDiffResult { changes })
}

} // verus!
