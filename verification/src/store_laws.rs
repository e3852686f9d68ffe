//! What holds of the store whatever it is asked: the order of a listing, and
//! what a snapshot gives once it is stored.

use vstd::prelude::*;
use vstd::seq_lib::to_multiset_build;
use crate::envelope::{envelope, read_outcome};
use crate::envelope_laws::{lemma_round_trip, storable, MAX_NAME_LENGTH};
use crate::snapshot::{
    lemma_valid_name, name_check, Baseline, Details, Failure, SnapshotConfig, MAX_CONTENT_SIZE,
};
use crate::snapshot_laws::{differ_at, lemma_hash_of_changed_byte};
use crate::store::{
    check_outcome, create_outcome, found, insert_by_name, listing, sorted_by_name, text_le,
    update_outcome, FileModel, Verdict,
};

verus! {

// ---------------------------------------------------------------------------
// The order of names
// ---------------------------------------------------------------------------

/// Every text comes before or with itself.
pub proof fn lemma_text_le_reflexive(a: Seq<char>)
    ensures
        text_le(a, a),
    decreases a.len(),
{
    if a.len() > 0 {
        lemma_text_le_reflexive(a.skip(1));
    }
}

/// Of two texts one comes before or with the other.
pub proof fn lemma_text_le_total(a: Seq<char>, b: Seq<char>)
    ensures
        text_le(a, b) || text_le(b, a),
    decreases a.len(),
{
    if a.len() > 0 && b.len() > 0 && a[0] == b[0] {
        lemma_text_le_total(a.skip(1), b.skip(1));
    }
}

/// What comes before or with a text that comes before or with a third comes
/// before or with the third.
pub proof fn lemma_text_le_transitive(a: Seq<char>, b: Seq<char>, c: Seq<char>)
    requires
        text_le(a, b),
        text_le(b, c),
    ensures
        text_le(a, c),
    decreases a.len(),
{
    if a.len() > 0 && b.len() > 0 && c.len() > 0 && a[0] == b[0] && b[0] == c[0] {
        lemma_text_le_transitive(a.skip(1), b.skip(1), c.skip(1));
    }
}

/// Texts that come before or with each other are the same text.
pub proof fn lemma_text_le_antisymmetric(a: Seq<char>, b: Seq<char>)
    requires
        text_le(a, b),
        text_le(b, a),
    ensures
        a == b,
    decreases a.len(),
{
    if a.len() > 0 && b.len() > 0 {
        lemma_text_le_antisymmetric(a.skip(1), b.skip(1));
        assert(a =~= seq![a[0]] + a.skip(1));
        assert(b =~= seq![b[0]] + b.skip(1));
    } else {
        assert(a =~= b);
    }
}

/// Whether the names never go down along the sequence.
pub open spec fn ordered(s: Seq<Details>) -> bool {
    forall|i: int, j: int|
        0 <= i < j < s.len() ==> text_le(#[trigger] s[i].name, #[trigger] s[j].name)
}

proof fn lemma_insert_ordered(sorted: Seq<Details>, d: Details)
    requires
        ordered(sorted),
    ensures
        ordered(insert_by_name(sorted, d)),
        insert_by_name(sorted, d).len() == sorted.len() + 1,
        insert_by_name(sorted, d).to_multiset() == sorted.to_multiset().insert(d),
        forall|k: int|
            0 <= k < insert_by_name(sorted, d).len() ==> #[trigger] insert_by_name(sorted, d)[k]
                == d || sorted.contains(insert_by_name(sorted, d)[k]),
    decreases sorted.len(),
{
    let r = insert_by_name(sorted, d);
    if sorted.len() == 0 {
        assert(r =~= Seq::<Details>::empty().push(d));
        to_multiset_build(Seq::<Details>::empty(), d);
        assert(sorted =~= Seq::<Details>::empty());
    } else if text_le(sorted.last().name, d.name) {
        to_multiset_build(sorted, d);
        assert forall|i: int, j: int| 0 <= i < j < r.len() implies text_le(
            #[trigger] r[i].name,
            #[trigger] r[j].name,
        ) by {
            if j == sorted.len() {
                if i < sorted.len() - 1 {
                    assert(text_le(sorted[i].name, sorted[sorted.len() - 1].name));
                    lemma_text_le_transitive(sorted[i].name, sorted.last().name, d.name);
                }
            }
        }
        assert forall|k: int| 0 <= k < r.len() implies #[trigger] r[k] == d || sorted.contains(
            r[k],
        ) by {
            if k < sorted.len() {
                assert(sorted[k] == r[k]);
            }
        }
    } else {
        let head = sorted.drop_last();
        let last = sorted.last();
        assert forall|i: int, j: int| 0 <= i < j < head.len() implies text_le(
            #[trigger] head[i].name,
            #[trigger] head[j].name,
        ) by {
            assert(head[i] == sorted[i]);
            assert(head[j] == sorted[j]);
        }
        lemma_insert_ordered(head, d);
        let inner = insert_by_name(head, d);
        assert(r == inner.push(last));
        lemma_text_le_total(last.name, d.name);
        assert forall|i: int, j: int| 0 <= i < j < r.len() implies text_le(
            #[trigger] r[i].name,
            #[trigger] r[j].name,
        ) by {
            if j == inner.len() {
                assert(r[i] == inner[i]);
                if inner[i] == d {
                } else {
                    assert(head.contains(inner[i]));
                    let k = choose|k: int| 0 <= k < head.len() && head[k] == inner[i];
                    assert(sorted[k] == head[k]);
                    assert(text_le(sorted[k].name, sorted[sorted.len() - 1].name));
                }
            } else {
                assert(r[i] == inner[i]);
                assert(r[j] == inner[j]);
            }
        }
        to_multiset_build(inner, last);
        to_multiset_build(head, last);
        assert(sorted =~= head.push(last));
        assert(head.to_multiset().insert(d).insert(last) =~= head.to_multiset().insert(
            last,
        ).insert(d));
        assert forall|k: int| 0 <= k < r.len() implies #[trigger] r[k] == d || sorted.contains(
            r[k],
        ) by {
            if k < inner.len() {
                assert(r[k] == inner[k]);
                if inner[k] != d {
                    let t = choose|t: int| 0 <= t < head.len() && head[t] == inner[k];
                    assert(sorted[t] == head[t]);
                }
            } else {
                assert(sorted[sorted.len() - 1] == r[k]);
            }
        }
    }
}

/// Sorting by name gives the same entries, each as often as before, with
/// names that never go down.
pub proof fn lemma_sorted_by_name(s: Seq<Details>)
    ensures
        ordered(sorted_by_name(s)),
        sorted_by_name(s).len() == s.len(),
        sorted_by_name(s).to_multiset() == s.to_multiset(),
    decreases s.len(),
{
    if s.len() > 0 {
        lemma_sorted_by_name(s.drop_last());
        lemma_insert_ordered(sorted_by_name(s.drop_last()), s.last());
        to_multiset_build(s.drop_last(), s.last());
        assert(s =~= s.drop_last().push(s.last()));
    } else {
        assert(s =~= Seq::<Details>::empty());
    }
}

/// A listing is in the order of the names.
pub proof fn lemma_listing_ordered(files: Seq<FileModel>)
    ensures
        ordered(listing(files)),
{
    lemma_sorted_by_name(found(files, files.len()));
}

// ---------------------------------------------------------------------------
// From absent to present
// ---------------------------------------------------------------------------

/// What `create` makes can be stored, where the name fits into a header line
/// and the content is within the limit; read back or checked against its own
/// content, it is found again and matches.
pub proof fn lemma_present_after_create(
    name: Seq<char>,
    content: Seq<u8>,
    config: SnapshotConfig,
    now: u64,
)
    requires
        name_check(name) is Ok,
        name.len() <= MAX_NAME_LENGTH,
        content.len() <= MAX_CONTENT_SIZE,
    ensures
        create_outcome(name, content, config.file_type, now) matches Ok(b) && storable(b)
            && read_outcome(name, Some(envelope(b))) == Ok::<Baseline, Failure>(b)
            && check_outcome(name, Some(envelope(b)), content, config) == Ok::<Verdict, Failure>(
            Verdict::Match,
        ),
{
    lemma_valid_name(name);
    let b = create_outcome(name, content, config.file_type, now)->Ok_0;
    lemma_round_trip(name, b);
}

/// What `update` makes of a stored snapshot keeps its time of creation, and
/// can be stored and is found again like a new one.
pub proof fn lemma_present_after_update(
    name: Seq<char>,
    content: Seq<u8>,
    config: SnapshotConfig,
    before: Baseline,
    now: u64,
)
    requires
        name_check(name) is Ok,
        name.len() <= MAX_NAME_LENGTH,
        content.len() <= MAX_CONTENT_SIZE,
        storable(before),
    ensures
        update_outcome(name, content, config.file_type, Some(envelope(before)), now) matches Ok(
            b,
        ) && storable(b) && b.details.created_at == before.details.created_at
            && b.details.updated_at == now && b.content == content && read_outcome(
            name,
            Some(envelope(b)),
        ) == Ok::<Baseline, Failure>(b),
{
    lemma_valid_name(name);
    lemma_round_trip(name, before);
    let b = update_outcome(name, content, config.file_type, Some(envelope(before)), now)->Ok_0;
    lemma_round_trip(name, b);
}

/// A stored snapshot never matches content that differs from its own in one
/// byte.
pub proof fn lemma_changed_byte_is_no_match(
    name: Seq<char>,
    b: Baseline,
    actual: Seq<u8>,
    k: int,
    config: SnapshotConfig,
)
    requires
        name_check(name) is Ok,
        storable(b),
        differ_at(b.content, actual, k),
    ensures
        check_outcome(name, Some(envelope(b)), actual, config) != Ok::<Verdict, Failure>(
            Verdict::Match,
        ),
{
    lemma_round_trip(name, b);
    lemma_hash_of_changed_byte(b.content, actual, k);
}

/// In update mode a check of a snapshot that can be read never fails and
/// never reports a mismatch: the content matches, or it is to replace the
/// snapshot, whether or not a diff of the two could be made.
pub proof fn lemma_update_mode_replaces(
    name: Seq<char>,
    file: Option<Seq<u8>>,
    actual: Seq<u8>,
    config: SnapshotConfig,
)
    requires
        config.update_mode,
        read_outcome(name, file) is Ok,
    ensures
        check_outcome(name, file, actual, config) == Ok::<Verdict, Failure>(Verdict::Match)
            || check_outcome(name, file, actual, config) == Ok::<Verdict, Failure>(
            Verdict::Updated { old_snapshot: read_outcome(name, file)->Ok_0, new_content: actual },
        ),
{
}

/// Without a file there is nothing to check against, whatever the content.
pub proof fn lemma_absent_is_not_found(name: Seq<char>, actual: Seq<u8>, config: SnapshotConfig)
    requires
        name_check(name) is Ok,
    ensures
        read_outcome(name, None) == Err::<Baseline, Failure>(Failure::NotFound(name)),
        check_outcome(name, None, actual, config) == Err::<Verdict, Failure>(
            Failure::NotFound(name),
        ),
{
}

/// An invalid name is refused by every operation before anything else is
/// looked at.
pub proof fn lemma_invalid_name_is_refused(
    name: Seq<char>,
    content: Seq<u8>,
    file: Option<Seq<u8>>,
    config: SnapshotConfig,
    now: u64,
)
    requires
        name_check(name) matches Err(f),
    ensures
        create_outcome(name, content, config.file_type, now) == Err::<Baseline, Failure>(
            name_check(name)->Err_0,
        ),
        update_outcome(name, content, config.file_type, file, now) == Err::<Baseline, Failure>(
            name_check(name)->Err_0,
        ),
        read_outcome(name, file) == Err::<Baseline, Failure>(name_check(name)->Err_0),
        check_outcome(name, file, content, config) == Err::<Verdict, Failure>(
            name_check(name)->Err_0,
        ),
        name_check(name)->Err_0 is InvalidName,
{
}

} // verus!
