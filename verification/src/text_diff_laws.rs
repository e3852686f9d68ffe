//! What holds of every text diff: each entry names a line that stands where
//! the entry says, the numbering of the script, the counts of its entries,
//! and how the diff of `(a, b)` relates to that of `(b, a)`.

use vstd::prelude::*;
use crate::text::lines_of;
use crate::text_diff::{
    aligned, common_subsequence, count_added, count_removed, count_unchanged, edit_script,
    is_partner, keep_near, lcs_indices, lcs_len, lcs_walk, lemma_lcs_indices_common,
    lemma_lcs_len_symmetric, merge_from, near_change, near_change_before, text_diff, with_context,
    LineEdit,
};

verus! {

/// The old line number of an entry, if it has one.
pub open spec fn old_number(e: LineEdit) -> Option<int> {
    match e {
        LineEdit::Unchanged { old_line_num, .. } => Some(old_line_num),
        LineEdit::Removed { old_line_num, .. } => Some(old_line_num),
        LineEdit::Added { .. } => None,
    }
}

/// The new line number of an entry, if it has one.
pub open spec fn new_number(e: LineEdit) -> Option<int> {
    match e {
        LineEdit::Unchanged { new_line_num, .. } => Some(new_line_num),
        LineEdit::Added { new_line_num, .. } => Some(new_line_num),
        LineEdit::Removed { .. } => None,
    }
}

/// The old line numbers of the unchanged and removed entries, in order.
pub open spec fn old_numbers(s: Seq<LineEdit>) -> Seq<int>
    decreases s.len(),
{
    if s.len() == 0 {
        Seq::empty()
    } else {
        match old_number(s.last()) {
            Some(n) => old_numbers(s.drop_last()).push(n),
            None => old_numbers(s.drop_last()),
        }
    }
}

/// The new line numbers of the unchanged and added entries, in order.
pub open spec fn new_numbers(s: Seq<LineEdit>) -> Seq<int>
    decreases s.len(),
{
    if s.len() == 0 {
        Seq::empty()
    } else {
        match new_number(s.last()) {
            Some(n) => new_numbers(s.drop_last()).push(n),
            None => new_numbers(s.drop_last()),
        }
    }
}

/// `count` consecutive integers starting at `from`.
pub open spec fn counting(from: int, count: int) -> Seq<int> {
    Seq::new(
        if count >= 0 {
            count as nat
        } else {
            0
        },
        |t: int| from + t,
    )
}

proof fn lemma_prepend(e: LineEdit, s: Seq<LineEdit>)
    ensures
        count_added(seq![e] + s) == count_added(s) + if e is Added { 1nat } else { 0nat },
        count_removed(seq![e] + s) == count_removed(s) + if e is Removed { 1nat } else { 0nat },
        count_unchanged(seq![e] + s) == count_unchanged(s) + if e is Unchanged {
            1nat
        } else {
            0nat
        },
        old_numbers(seq![e] + s) == (match old_number(e) {
            Some(n) => seq![n],
            None => Seq::empty(),
        }) + old_numbers(s),
        new_numbers(seq![e] + s) == (match new_number(e) {
            Some(n) => seq![n],
            None => Seq::empty(),
        }) + new_numbers(s),
    decreases s.len(),
{
    let t = seq![e] + s;
    if s.len() == 0 {
        assert(t.drop_last() == Seq::<LineEdit>::empty());
        assert(t.last() == e);
        assert(count_added(t.drop_last()) == 0);
        assert(count_removed(t.drop_last()) == 0);
        assert(count_unchanged(t.drop_last()) == 0);
        assert(old_numbers(t.drop_last()) == Seq::<int>::empty());
        assert(new_numbers(t.drop_last()) == Seq::<int>::empty());
        assert(old_numbers(t) =~= (match old_number(e) {
            Some(n) => seq![n],
            None => Seq::empty(),
        }) + old_numbers(s));
        assert(new_numbers(t) =~= (match new_number(e) {
            Some(n) => seq![n],
            None => Seq::empty(),
        }) + new_numbers(s));
    } else {
        assert(t.drop_last() == seq![e] + s.drop_last());
        assert(t.last() == s.last());
        lemma_prepend(e, s.drop_last());
        assert(old_numbers(t) =~= (match old_number(e) {
            Some(n) => seq![n],
            None => Seq::empty(),
        }) + old_numbers(s));
        assert(new_numbers(t) =~= (match new_number(e) {
            Some(n) => seq![n],
            None => Seq::empty(),
        }) + new_numbers(s));
    }
}

/// The shape of the script from `(i, j, k)` on, for a common subsequence
/// whose pairs from `k` on lie at or after `(i, j)`.
proof fn lemma_merge_shape(
    old: Seq<Seq<char>>,
    new: Seq<Seq<char>>,
    picked: Seq<int>,
    pos: Seq<int>,
    i: int,
    j: int,
    k: int,
)
    requires
        aligned(old, new, picked, pos),
        0 <= i <= old.len(),
        0 <= j <= new.len(),
        0 <= k <= picked.len(),
        k < picked.len() ==> i <= pos[k] && j <= picked[k],
    ensures
        old_numbers(merge_from(old, new, picked, i, j, k)) == counting(i + 1, old.len() - i),
        new_numbers(merge_from(old, new, picked, i, j, k)) == counting(j + 1, new.len() - j),
        count_unchanged(merge_from(old, new, picked, i, j, k)) == picked.len() - k,
        count_removed(merge_from(old, new, picked, i, j, k)) == (old.len() - i) - (picked.len()
            - k),
        count_added(merge_from(old, new, picked, i, j, k)) == (new.len() - j) - (picked.len() - k),
    decreases (new.len() - j) + (old.len() - i),
{
    if k < picked.len() {
        assert(0 <= pos[k] < old.len() && 0 <= picked[k] < new.len());
        assert(is_partner(old, new, picked, pos[k], k));
    }
    if is_partner(old, new, picked, i, k) && j == picked[k] {
        if k + 1 < picked.len() {
            assert(pos[k] < pos[k + 1]);
            assert(picked[k] < picked[k + 1]);
        }
        lemma_merge_shape(old, new, picked, pos, i + 1, j + 1, k + 1);
        let e = LineEdit::Unchanged { line: new[j], old_line_num: i + 1, new_line_num: j + 1 };
        let tail = merge_from(old, new, picked, i + 1, j + 1, k + 1);
        lemma_prepend(e, tail);
        assert(seq![i + 1] + counting(i + 2, old.len() - i - 1) =~= counting(i + 1, old.len() - i));
        assert(seq![j + 1] + counting(j + 2, new.len() - j - 1) =~= counting(j + 1, new.len() - j));
    } else if 0 <= i < old.len() && !is_partner(old, new, picked, i, k) {
        lemma_merge_shape(old, new, picked, pos, i + 1, j, k);
        let e = LineEdit::Removed { line: old[i], old_line_num: i + 1 };
        let tail = merge_from(old, new, picked, i + 1, j, k);
        lemma_prepend(e, tail);
        assert(seq![i + 1] + counting(i + 2, old.len() - i - 1) =~= counting(i + 1, old.len() - i));
        assert(Seq::<int>::empty() + new_numbers(tail) =~= new_numbers(tail));
    } else if 0 <= j < new.len() {
        lemma_merge_shape(old, new, picked, pos, i, j + 1, k);
        let e = LineEdit::Added { line: new[j], new_line_num: j + 1 };
        let tail = merge_from(old, new, picked, i, j + 1, k);
        lemma_prepend(e, tail);
        assert(seq![j + 1] + counting(j + 2, new.len() - j - 1) =~= counting(j + 1, new.len() - j));
        assert(Seq::<int>::empty() + old_numbers(tail) =~= old_numbers(tail));
    } else {
        assert(k == picked.len());
        assert(i == old.len());
        assert(counting(i + 1, 0) =~= Seq::<int>::empty());
        assert(counting(j + 1, 0) =~= Seq::<int>::empty());
    }
}

/// Whether an entry tells the truth about the two line lists: its line
/// stands in the old lines at its old number, in the new lines at its new
/// number, and for an unchanged entry at both.
pub open spec fn true_of(e: LineEdit, old: Seq<Seq<char>>, new: Seq<Seq<char>>) -> bool {
    match e {
        LineEdit::Unchanged { line, old_line_num, new_line_num } => 1 <= old_line_num <= old.len()
            && 1 <= new_line_num <= new.len() && old[old_line_num - 1] == line && new[new_line_num
            - 1] == line,
        LineEdit::Removed { line, old_line_num } => 1 <= old_line_num <= old.len()
            && old[old_line_num - 1] == line,
        LineEdit::Added { line, new_line_num } => 1 <= new_line_num <= new.len()
            && new[new_line_num - 1] == line,
    }
}

proof fn lemma_merge_true(
    old: Seq<Seq<char>>,
    new: Seq<Seq<char>>,
    picked: Seq<int>,
    i: int,
    j: int,
    k: int,
)
    ensures
        forall|t: int|
            0 <= t < merge_from(old, new, picked, i, j, k).len() ==> true_of(
                #[trigger] merge_from(old, new, picked, i, j, k)[t],
                old,
                new,
            ),
    decreases (if j < new.len() {
        new.len() - j
    } else {
        0
    }) + (if i < old.len() {
        old.len() - i
    } else {
        0
    }),
{
    let m = merge_from(old, new, picked, i, j, k);
    let tail = if is_partner(old, new, picked, i, k) && j == picked[k] {
        lemma_merge_true(old, new, picked, i + 1, j + 1, k + 1);
        merge_from(old, new, picked, i + 1, j + 1, k + 1)
    } else if 0 <= i < old.len() && !is_partner(old, new, picked, i, k) {
        lemma_merge_true(old, new, picked, i + 1, j, k);
        merge_from(old, new, picked, i + 1, j, k)
    } else if 0 <= j < new.len() {
        lemma_merge_true(old, new, picked, i, j + 1, k);
        merge_from(old, new, picked, i, j + 1, k)
    } else {
        Seq::empty()
    };
    assert forall|t: int| 0 <= t < m.len() implies true_of(#[trigger] m[t], old, new) by {
        if t > 0 {
            assert(m[t] == tail[t - 1]);
        }
    }
}

/// Every entry of a script tells the truth about the two line lists, whatever
/// indices the script was made from and however it was pruned. An unchanged
/// entry so names one line of each list, and the two are equal.
pub proof fn lemma_script_is_true(
    old: Seq<Seq<char>>,
    new: Seq<Seq<char>>,
    picked: Seq<int>,
    context_lines: usize,
)
    ensures
        forall|t: int|
            0 <= t < edit_script(old, new, picked, context_lines).len() ==> true_of(
                #[trigger] edit_script(old, new, picked, context_lines)[t],
                old,
                new,
            ),
{
    let all = merge_from(old, new, picked, 0, 0, 0);
    lemma_merge_true(old, new, picked, 0, 0, 0);
    lemma_context_keeps_changes(all, context_lines);
    let kept = edit_script(old, new, picked, context_lines);
    assert forall|t: int| 0 <= t < kept.len() implies true_of(#[trigger] kept[t], old, new) by {
        assert(all.contains(kept[t]));
        let u = choose|u: int| 0 <= u < all.len() && all[u] == kept[t];
        assert(true_of(all[u], old, new));
    }
}

/// Every entry of a diff tells the truth about the lines of the two texts: an
/// unchanged entry holds a line that stands in the old text at its old number
/// and in the new text at its new number.
pub proof fn lemma_diff_is_true(old: Seq<char>, new: Seq<char>, context_lines: usize)
    ensures
        forall|t: int|
            0 <= t < text_diff(old, new, context_lines).len() ==> true_of(
                #[trigger] text_diff(old, new, context_lines)[t],
                lines_of(old),
                lines_of(new),
            ),
{
    let a = lines_of(old);
    let b = lines_of(new);
    lemma_script_is_true(a, b, lcs_indices(a, b), context_lines);
}

/// In a script that is not pruned, the old line numbers of the unchanged and
/// removed entries are `1, 2, ..` up to the number of old lines, in this
/// order, and the new line numbers of the unchanged and added entries are
/// `1, 2, ..` up to the number of new lines. The unchanged entries are as
/// many as the common subsequence has elements.
pub proof fn lemma_script_numbering(old: Seq<Seq<char>>, new: Seq<Seq<char>>, picked: Seq<int>)
    requires
        common_subsequence(old, new, picked),
    ensures
        old_numbers(merge_from(old, new, picked, 0, 0, 0)) == counting(1, old.len() as int),
        new_numbers(merge_from(old, new, picked, 0, 0, 0)) == counting(1, new.len() as int),
        count_unchanged(merge_from(old, new, picked, 0, 0, 0)) == picked.len(),
        count_removed(merge_from(old, new, picked, 0, 0, 0)) == old.len() - picked.len(),
        count_added(merge_from(old, new, picked, 0, 0, 0)) == new.len() - picked.len(),
{
    let pos = choose|pos: Seq<int>| aligned(old, new, picked, pos);
    if picked.len() > 0 {
        assert(0 <= pos[0] < old.len() && 0 <= picked[0] < new.len());
    }
    lemma_merge_shape(old, new, picked, pos, 0, 0, 0);
}

proof fn lemma_keep_near_counts(all: Seq<LineEdit>, context: int, n: int)
    requires
        0 <= context,
        0 <= n <= all.len(),
    ensures
        count_added(keep_near(all, context, n)) == count_added(all.take(n)),
        count_removed(keep_near(all, context, n)) == count_removed(all.take(n)),
        forall|t: int|
            0 <= t < keep_near(all, context, n).len() ==> all.contains(
                #[trigger] keep_near(all, context, n)[t],
            ),
    decreases n,
{
    if n > 0 {
        lemma_keep_near_counts(all, context, n - 1);
        let rest = keep_near(all, context, n - 1);
        let kept = keep_near(all, context, n);
        assert(all.take(n).drop_last() == all.take(n - 1));
        assert(all.take(n).last() == all[n - 1]);
        if !(all[n - 1] is Unchanged) {
            assert(near_change_before(all, n - 1, context, all.len() as int));
        }
        if near_change(all, n - 1, context) {
            assert(kept.drop_last() == rest);
            assert(kept.last() == all[n - 1]);
        }
        assert forall|t: int| 0 <= t < kept.len() implies all.contains(#[trigger] kept[t]) by {
            if t < rest.len() {
                assert(all.contains(rest[t]));
                assert(rest[t] == kept[t]);
            } else {
                assert(all[n - 1] == kept[t]);
            }
        }
    } else {
        assert(all.take(0) == Seq::<LineEdit>::empty());
    }
}

/// Pruning to a context window drops unchanged lines only: the additions and
/// the removals are as many as before, and every entry that is kept was an
/// entry of the script.
pub proof fn lemma_context_keeps_changes(all: Seq<LineEdit>, context_lines: usize)
    ensures
        count_added(with_context(all, context_lines)) == count_added(all),
        count_removed(with_context(all, context_lines)) == count_removed(all),
        forall|t: int|
            0 <= t < with_context(all, context_lines).len() ==> all.contains(
                #[trigger] with_context(all, context_lines)[t],
            ),
{
    if context_lines != usize::MAX {
        lemma_keep_near_counts(all, context_lines as int, all.len() as int);
        assert(all.take(all.len() as int) == all);
    }
}

proof fn lemma_walk_of_equal(a: Seq<Seq<char>>, i: nat)
    requires
        i <= a.len(),
    ensures
        lcs_walk(a, a, i, i) == counting(0, i as int),
    decreases i,
{
    if i > 0 {
        lemma_walk_of_equal(a, (i - 1) as nat);
        assert(counting(0, i - 1).push(i - 1) =~= counting(0, i as int));
    } else {
        assert(counting(0, 0) =~= Seq::<int>::empty());
    }
}

proof fn lemma_merge_of_equal(a: Seq<Seq<char>>, i: int)
    requires
        0 <= i <= a.len(),
    ensures
        forall|t: int|
            0 <= t < merge_from(a, a, counting(0, a.len() as int), i, i, i).len()
                ==> #[trigger] merge_from(a, a, counting(0, a.len() as int), i, i, i)[t]
                is Unchanged,
    decreases a.len() - i,
{
    let picked = counting(0, a.len() as int);
    if i < a.len() {
        assert(picked[i] == i);
        assert(is_partner(a, a, picked, i, i));
        lemma_merge_of_equal(a, i + 1);
    }
}

/// Idempotence: the diff of a text with itself holds no addition and no
/// removal, whatever the context window.
pub proof fn lemma_diff_of_equal_texts(x: Seq<char>, context_lines: usize)
    ensures
        forall|t: int|
            0 <= t < text_diff(x, x, context_lines).len() ==> #[trigger] text_diff(
                x,
                x,
                context_lines,
            )[t] is Unchanged,
        count_added(text_diff(x, x, context_lines)) == 0,
        count_removed(text_diff(x, x, context_lines)) == 0,
{
    let a = lines_of(x);
    lemma_walk_of_equal(a, a.len());
    lemma_merge_of_equal(a, 0);
    let all = merge_from(a, a, lcs_indices(a, a), 0, 0, 0);
    lemma_context_keeps_changes(all, context_lines);
    let kept = with_context(all, context_lines);
    assert forall|t: int| 0 <= t < kept.len() implies #[trigger] kept[t] is Unchanged by {
        assert(all.contains(kept[t]));
        let u = choose|u: int| 0 <= u < all.len() && all[u] == kept[t];
        assert(all[u] is Unchanged);
    }
    lemma_lcs_indices_common(a, a);
    lemma_script_numbering(a, a, lcs_indices(a, a));
    lemma_walk_len_of_equal(a);
}

proof fn lemma_walk_len_of_equal(a: Seq<Seq<char>>)
    ensures
        lcs_indices(a, a).len() == a.len(),
{
    lemma_walk_of_equal(a, a.len());
}

/// The additions and removals of a diff, counted from the line lists: every
/// new line outside the longest common subsequence is added, every old line
/// outside it is removed.
pub proof fn lemma_diff_counts(old: Seq<char>, new: Seq<char>, context_lines: usize)
    ensures
        count_added(text_diff(old, new, context_lines)) == lines_of(new).len() - lcs_len(
            lines_of(old),
            lines_of(new),
            lines_of(old).len(),
            lines_of(new).len(),
        ),
        count_removed(text_diff(old, new, context_lines)) == lines_of(old).len() - lcs_len(
            lines_of(old),
            lines_of(new),
            lines_of(old).len(),
            lines_of(new).len(),
        ),
{
    let a = lines_of(old);
    let b = lines_of(new);
    lemma_lcs_indices_common(a, b);
    lemma_script_numbering(a, b, lcs_indices(a, b));
    lemma_context_keeps_changes(merge_from(a, b, lcs_indices(a, b), 0, 0, 0), context_lines);
}

/// Symmetry: the diff from `a` to `b` adds as many lines as the diff from `b`
/// to `a` removes, and removes as many as that one adds, whatever the two
/// context windows.
pub proof fn lemma_diff_symmetry(a: Seq<char>, b: Seq<char>, forth: usize, back: usize)
    ensures
        count_added(text_diff(a, b, forth)) == count_removed(text_diff(b, a, back)),
        count_removed(text_diff(a, b, forth)) == count_added(text_diff(b, a, back)),
{
    lemma_diff_counts(a, b, forth);
    lemma_diff_counts(b, a, back);
    lemma_lcs_len_symmetric(lines_of(a), lines_of(b), lines_of(a).len(), lines_of(b).len());
}

/// Whether `picked` and `pos` pair equal elements in increasing order
/// within the first `i` elements of `a` and the first `j` elements of `b`.
spec fn aligned_within(
    a: Seq<Seq<char>>,
    b: Seq<Seq<char>>,
    picked: Seq<int>,
    pos: Seq<int>,
    i: nat,
    j: nat,
) -> bool {
    &&& i <= a.len()
    &&& j <= b.len()
    &&& pos.len() == picked.len()
    &&& forall|t: int|
        0 <= t < picked.len() ==> 0 <= #[trigger] pos[t] < i && 0 <= picked[t] < j && a[pos[t]]
            == b[picked[t]]
    &&& forall|s: int, t: int|
        0 <= s < t < picked.len() ==> #[trigger] pos[s] < #[trigger] pos[t] && picked[s]
            < picked[t]
}

proof fn lemma_no_longer_within(
    a: Seq<Seq<char>>,
    b: Seq<Seq<char>>,
    picked: Seq<int>,
    pos: Seq<int>,
    i: nat,
    j: nat,
)
    requires
        aligned_within(a, b, picked, pos, i, j),
    ensures
        picked.len() <= lcs_len(a, b, i, j),
    decreases i + j,
{
    let n = picked.len() as int;
    if n > 0 {
        let p = pos[n - 1];
        let q = picked[n - 1];
        assert(0 <= p < i && 0 <= q < j && a[p] == b[q]);
        if a[i - 1] == b[j - 1] {
            let fewer = picked.drop_last();
            let fewer_pos = pos.drop_last();
            assert forall|t: int| 0 <= t < fewer.len() implies 0 <= #[trigger] fewer_pos[t] < i - 1
                && 0 <= fewer[t] < j - 1 && a[fewer_pos[t]] == b[fewer[t]] by {
                assert(fewer_pos[t] == pos[t]);
                assert(fewer[t] == picked[t]);
                assert(pos[t] < pos[n - 1] && picked[t] < picked[n - 1]);
                assert(0 <= pos[t] < i && 0 <= picked[t] < j && a[pos[t]] == b[picked[t]]);
            }
            assert forall|s: int, t: int| 0 <= s < t < fewer.len() implies #[trigger] fewer_pos[s]
                < #[trigger] fewer_pos[t] && fewer[s] < fewer[t] by {
                assert(fewer_pos[s] == pos[s]);
                assert(fewer_pos[t] == pos[t]);
            }
            lemma_no_longer_within(a, b, fewer, fewer_pos, (i - 1) as nat, (j - 1) as nat);
        } else if p < i - 1 {
            assert forall|t: int| 0 <= t < picked.len() implies 0 <= #[trigger] pos[t] < i - 1 by {
                if t < n - 1 {
                    assert(pos[t] < pos[n - 1]);
                }
            }
            lemma_no_longer_within(a, b, picked, pos, (i - 1) as nat, j);
        } else {
            assert(q < j - 1);
            assert forall|t: int| 0 <= t < picked.len() implies 0 <= picked[t] < j - 1 && 0
                <= #[trigger] pos[t] < i by {
                if t < n - 1 {
                    assert(pos[t] < pos[n - 1]);
                }
            }
            lemma_no_longer_within(a, b, picked, pos, i, (j - 1) as nat);
        }
    }
}

/// The subsequence that the diff uses is a longest one: no common
/// subsequence of the two line lists has more elements.
pub proof fn lemma_lcs_is_longest(a: Seq<Seq<char>>, b: Seq<Seq<char>>, picked: Seq<int>)
    requires
        common_subsequence(a, b, picked),
    ensures
        common_subsequence(a, b, lcs_indices(a, b)),
        picked.len() <= lcs_indices(a, b).len(),
{
    let pos = choose|pos: Seq<int>| aligned(a, b, picked, pos);
    lemma_no_longer_within(a, b, picked, pos, a.len(), b.len());
    lemma_lcs_indices_common(a, b);
}

/// The script of a diff is a shortest one: a script that keeps the lines of
/// any common subsequence and removes and adds the others has at least as
/// many removals and additions.
pub proof fn lemma_diff_is_minimal(
    old: Seq<char>,
    new: Seq<char>,
    picked: Seq<int>,
    context_lines: usize,
)
    requires
        common_subsequence(lines_of(old), lines_of(new), picked),
    ensures
        count_removed(text_diff(old, new, context_lines)) <= lines_of(old).len() - picked.len(),
        count_added(text_diff(old, new, context_lines)) <= lines_of(new).len() - picked.len(),
{
    lemma_lcs_is_longest(lines_of(old), lines_of(new), picked);
    lemma_diff_counts(old, new, context_lines);
    lemma_lcs_indices_common(lines_of(old), lines_of(new));
}

/// Whether the numbers go up along the sequence.
pub open spec fn increasing(s: Seq<int>) -> bool {
    forall|i: int, j: int| 0 <= i < j < s.len() ==> #[trigger] s[i] < #[trigger] s[j]
}

proof fn lemma_prefix_numbers(all: Seq<LineEdit>, n: int)
    requires
        0 <= n <= all.len(),
        increasing(old_numbers(all)),
        increasing(new_numbers(all)),
    ensures
        increasing(old_numbers(all.take(n))),
        increasing(new_numbers(all.take(n))),
        old_numbers(all.take(n)).len() <= old_numbers(all).len(),
        new_numbers(all.take(n)).len() <= new_numbers(all).len(),
        old_numbers(all.take(n)) == old_numbers(all).take(old_numbers(all.take(n)).len() as int),
        new_numbers(all.take(n)) == new_numbers(all).take(new_numbers(all.take(n)).len() as int),
    decreases all.len() - n,
{
    if n == all.len() {
        assert(all.take(n) == all);
        assert(old_numbers(all).take(old_numbers(all).len() as int) == old_numbers(all));
        assert(new_numbers(all).take(new_numbers(all).len() as int) == new_numbers(all));
    } else {
        lemma_prefix_numbers(all, n + 1);
        let longer = all.take(n + 1);
        assert(longer.drop_last() == all.take(n));
        let o = old_numbers(all.take(n));
        let ol = old_numbers(longer);
        let w = new_numbers(all.take(n));
        let wl = new_numbers(longer);
        assert(o == ol.take(o.len() as int)) by {
            match old_number(longer.last()) {
                Some(v) => {
                    assert(ol == o.push(v));
                    assert(o.push(v).take(o.len() as int) == o);
                },
                None => {
                    assert(ol.take(ol.len() as int) == ol);
                },
            }
        }
        assert(w == wl.take(w.len() as int)) by {
            match new_number(longer.last()) {
                Some(v) => {
                    assert(wl == w.push(v));
                    assert(w.push(v).take(w.len() as int) == w);
                },
                None => {
                    assert(wl.take(wl.len() as int) == wl);
                },
            }
        }
        assert(o == old_numbers(all).take(o.len() as int)) by {
            assert(ol.take(o.len() as int) == old_numbers(all).take(ol.len() as int).take(
                o.len() as int,
            ));
            assert(old_numbers(all).take(ol.len() as int).take(o.len() as int) == old_numbers(
                all,
            ).take(o.len() as int));
        }
        assert(w == new_numbers(all).take(w.len() as int)) by {
            assert(wl.take(w.len() as int) == new_numbers(all).take(wl.len() as int).take(
                w.len() as int,
            ));
            assert(new_numbers(all).take(wl.len() as int).take(w.len() as int) == new_numbers(
                all,
            ).take(w.len() as int));
        }
        assert forall|i: int, j: int| 0 <= i < j < o.len() implies #[trigger] o[i]
            < #[trigger] o[j] by {
            assert(o[i] == ol[i] && o[j] == ol[j]);
        }
        assert forall|i: int, j: int| 0 <= i < j < w.len() implies #[trigger] w[i]
            < #[trigger] w[j] by {
            assert(w[i] == wl[i] && w[j] == wl[j]);
        }
    }
}

proof fn lemma_kept_numbers(all: Seq<LineEdit>, context: int, n: int)
    requires
        0 <= n <= all.len(),
        increasing(old_numbers(all)),
        increasing(new_numbers(all)),
    ensures
        increasing(old_numbers(keep_near(all, context, n))),
        increasing(new_numbers(keep_near(all, context, n))),
        old_numbers(keep_near(all, context, n)).len() > 0 ==> old_numbers(all.take(n)).len() > 0
            && old_numbers(keep_near(all, context, n)).last() <= old_numbers(all.take(n)).last(),
        new_numbers(keep_near(all, context, n)).len() > 0 ==> new_numbers(all.take(n)).len() > 0
            && new_numbers(keep_near(all, context, n)).last() <= new_numbers(all.take(n)).last(),
    decreases n,
{
    if n > 0 {
        lemma_kept_numbers(all, context, n - 1);
        lemma_prefix_numbers(all, n);
        let before = all.take(n - 1);
        let now = all.take(n);
        assert(now.drop_last() == before);
        assert(now.last() == all[n - 1]);
        let kept_before = keep_near(all, context, n - 1);
        let kept = keep_near(all, context, n);
        let ob = old_numbers(before);
        let on = old_numbers(now);
        let wb = new_numbers(before);
        let wn = new_numbers(now);
        if near_change(all, n - 1, context) {
            assert(kept.drop_last() == kept_before);
            assert(kept.last() == all[n - 1]);
            match old_number(all[n - 1]) {
                Some(v) => {
                    let k = old_numbers(kept_before);
                    assert(old_numbers(kept) == k.push(v));
                    assert(on == ob.push(v));
                    let longer = k.push(v);
                    assert forall|i: int, j: int| 0 <= i < j < longer.len() implies
                        #[trigger] longer[i] < #[trigger] longer[j] by {
                        if j == k.len() {
                            assert(k[i] <= k[k.len() - 1]) by {
                                if i < k.len() - 1 {
                                    assert(k[i] < k[k.len() - 1]);
                                }
                            }
                            assert(k.last() <= ob.last());
                            assert(on[ob.len() - 1] < on[on.len() - 1]);
                        } else {
                            assert(k[i] < k[j]);
                        }
                    }
                },
                None => {},
            }
            match new_number(all[n - 1]) {
                Some(v) => {
                    let k = new_numbers(kept_before);
                    assert(new_numbers(kept) == k.push(v));
                    assert(wn == wb.push(v));
                    let longer = k.push(v);
                    assert forall|i: int, j: int| 0 <= i < j < longer.len() implies
                        #[trigger] longer[i] < #[trigger] longer[j] by {
                        if j == k.len() {
                            assert(k[i] <= k[k.len() - 1]) by {
                                if i < k.len() - 1 {
                                    assert(k[i] < k[k.len() - 1]);
                                }
                            }
                            assert(k.last() <= wb.last());
                            assert(wn[wb.len() - 1] < wn[wn.len() - 1]);
                        } else {
                            assert(k[i] < k[j]);
                        }
                    }
                },
                None => {},
            }
        } else {
            match old_number(all[n - 1]) {
                Some(v) => {
                    assert(on == ob.push(v));
                    if ob.len() > 0 {
                        assert(on[ob.len() - 1] < on[on.len() - 1]);
                    }
                },
                None => {},
            }
            match new_number(all[n - 1]) {
                Some(v) => {
                    assert(wn == wb.push(v));
                    if wb.len() > 0 {
                        assert(wn[wb.len() - 1] < wn[wn.len() - 1]);
                    }
                },
                None => {},
            }
        }
    }
}

/// In every diff, pruned or not, the old line numbers of the unchanged and
/// removed entries go up along the script, and so do the new line numbers of
/// the unchanged and added entries; in a diff that is not pruned they are
/// all the numbers from one to the number of lines.
pub proof fn lemma_diff_numbering(old: Seq<char>, new: Seq<char>, context_lines: usize)
    ensures
        increasing(old_numbers(text_diff(old, new, context_lines))),
        increasing(new_numbers(text_diff(old, new, context_lines))),
        context_lines == usize::MAX ==> old_numbers(text_diff(old, new, context_lines))
            == counting(1, lines_of(old).len() as int) && new_numbers(
            text_diff(old, new, context_lines),
        ) == counting(1, lines_of(new).len() as int),
{
    let a = lines_of(old);
    let b = lines_of(new);
    lemma_lcs_indices_common(a, b);
    lemma_script_numbering(a, b, lcs_indices(a, b));
    let all = merge_from(a, b, lcs_indices(a, b), 0, 0, 0);
    assert(increasing(counting(1, a.len() as int)));
    assert(increasing(counting(1, b.len() as int)));
    if context_lines != usize::MAX {
        lemma_kept_numbers(all, context_lines as int, all.len() as int);
    }
}

} // verus!
