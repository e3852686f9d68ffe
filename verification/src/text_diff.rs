//! Line-based text diff: a longest common subsequence of the two line lists,
//! merged with the lines around it into an edit script, optionally pruned to
//! a window of context around each change.

use vstd::prelude::*;
use crate::text::{from_chars, lines_of, same_chars, split_lines, texts, to_chars};

verus! {

/// How a diff is presented.
#[derive(Debug, Clone, Copy, PartialEq, Eq)]
pub enum OutputFormat {
    /// `---` / `+++` headers and prefixed lines.
    Unified,
    /// Structured report.
    Json,
    /// Two columns.
    SideBySide,
    /// Changes only.
    Compact,
}

/// Options of a diff.
#[derive(Debug, Clone)]
pub struct DiffConfig {
    /// Unchanged lines kept on each side of a change; `usize::MAX` keeps all.
    pub context_lines: usize,
    /// Presentation asked for.
    pub format: OutputFormat,
    /// Whether output is coloured.
    pub color: bool,
    /// Whether the caller wants diagnostics.
    pub verbose: bool,
}

impl Default for DiffConfig {
    fn default() -> (r: Self)
        ensures
            r.context_lines == usize::MAX,
            r.format == OutputFormat::Unified,
            !r.color,
            !r.verbose,
    {
        DiffConfig {
            context_lines: usize::MAX,
            format: OutputFormat::Unified,
            color: false,
            verbose: false,
        }
    }
}

/// One entry of an edit script. Line numbers start at one.
#[derive(Debug, Clone, PartialEq, Eq)]
pub enum LineChange {
    /// A line present on both sides.
    Unchanged { line: String, old_line_num: usize, new_line_num: usize },
    /// A line present only on the new side.
    Added { line: String, new_line_num: usize },
    /// A line present only on the old side.
    Removed { line: String, old_line_num: usize },
}

/// The mathematical value of a `LineChange`.
pub enum LineEdit {
    Unchanged { line: Seq<char>, old_line_num: int, new_line_num: int },
    Added { line: Seq<char>, new_line_num: int },
    Removed { line: Seq<char>, old_line_num: int },
}

impl View for LineChange {
    type V = LineEdit;

    open spec fn view(&self) -> LineEdit {
        match *self {
            LineChange::Unchanged { line, old_line_num, new_line_num } => LineEdit::Unchanged {
                line: line@,
                old_line_num: old_line_num as int,
                new_line_num: new_line_num as int,
            },
            LineChange::Added { line, new_line_num } => LineEdit::Added {
                line: line@,
                new_line_num: new_line_num as int,
            },
            LineChange::Removed { line, old_line_num } => LineEdit::Removed {
                line: line@,
                old_line_num: old_line_num as int,
            },
        }
    }
}

/// The views of a sequence of changes.
pub open spec fn edits(v: Seq<LineChange>) -> Seq<LineEdit> {
    v.map_values(|c: LineChange| c@)
}

/// The views of a sequence of string slices.
pub open spec fn strs(v: Seq<&str>) -> Seq<Seq<char>> {
    v.map_values(|s: &str| s@)
}

/// A sequence of machine indices as integers.
pub open spec fn indices(v: Seq<usize>) -> Seq<int> {
    v.map_values(|x: usize| x as int)
}

/// How many entries of `s` are additions.
pub open spec fn count_added(s: Seq<LineEdit>) -> nat
    decreases s.len(),
{
    if s.len() == 0 {
        0
    } else {
        count_added(s.drop_last()) + if s.last() is Added { 1nat } else { 0nat }
    }
}

/// How many entries of `s` are removals.
pub open spec fn count_removed(s: Seq<LineEdit>) -> nat
    decreases s.len(),
{
    if s.len() == 0 {
        0
    } else {
        count_removed(s.drop_last()) + if s.last() is Removed { 1nat } else { 0nat }
    }
}

/// How many entries of `s` are unchanged lines.
pub open spec fn count_unchanged(s: Seq<LineEdit>) -> nat
    decreases s.len(),
{
    if s.len() == 0 {
        0
    } else {
        count_unchanged(s.drop_last()) + if s.last() is Unchanged { 1nat } else { 0nat }
    }
}

/// Whether some entry of `s` is an addition or a removal.
pub open spec fn any_change(s: Seq<LineEdit>) -> bool {
    exists|i: int| 0 <= i < s.len() && !(#[trigger] s[i] is Unchanged)
}

/// The outcome of a text diff.
#[derive(Debug, Clone)]
pub struct TextDiffResult {
    /// The edit script, in the order of the lines.
    pub changes: Vec<LineChange>,
    /// Lines of the old text.
    pub old_line_count: usize,
    /// Lines of the new text.
    pub new_line_count: usize,
}

impl TextDiffResult {
    /// The edit script as a mathematical sequence.
    pub open spec fn script(&self) -> Seq<LineEdit> {
        edits(self.changes@)
    }

    /// Whether any line was added or removed.
    pub fn has_changes(&self) -> (r: bool)
        ensures
            r == any_change(self.script()),
    {
        let mut i: usize = 0;
        while i < self.changes.len()
            invariant
                i <= self.changes.len(),
                forall|k: int| 0 <= k < i ==> #[trigger] self.script()[k] is Unchanged,
            decreases self.changes.len() - i,
        {
            match &self.changes[i] {
                LineChange::Unchanged { .. } => {},
                _ => {
                    assert(!(self.script()[i as int] is Unchanged));
                    return true;
                },
            }
            i += 1;
        }
        false
    }

    /// The number of added lines.
    pub fn additions(&self) -> (r: usize)
        ensures
            r == count_added(self.script()),
    {
        let mut n: usize = 0;
        let mut i: usize = 0;
        assert(self.script().take(0) == Seq::<LineEdit>::empty());
        while i < self.changes.len()
            invariant
                i <= self.changes.len(),
                n <= i,
                n == count_added(self.script().take(i as int)),
            decreases self.changes.len() - i,
        {
            assert(self.script().take(i + 1).drop_last() == self.script().take(i as int));
            match &self.changes[i] {
                LineChange::Added { .. } => {
                    n += 1;
                },
                _ => {},
            }
            i += 1;
        }
        assert(self.script().take(i as int) == self.script());
        n
    }

    /// The number of removed lines.
    pub fn deletions(&self) -> (r: usize)
        ensures
            r == count_removed(self.script()),
    {
        let mut n: usize = 0;
        let mut i: usize = 0;
        assert(self.script().take(0) == Seq::<LineEdit>::empty());
        while i < self.changes.len()
            invariant
                i <= self.changes.len(),
                n <= i,
                n == count_removed(self.script().take(i as int)),
            decreases self.changes.len() - i,
        {
            assert(self.script().take(i + 1).drop_last() == self.script().take(i as int));
            match &self.changes[i] {
                LineChange::Removed { .. } => {
                    n += 1;
                },
                _ => {},
            }
            i += 1;
        }
        assert(self.script().take(i as int) == self.script());
        n
    }
}

// ---------------------------------------------------------------------------
// Longest common subsequence
// ---------------------------------------------------------------------------

/// The length of a longest common subsequence of the first `i` elements of
/// `a` and the first `j` elements of `b`.
pub open spec fn lcs_len(a: Seq<Seq<char>>, b: Seq<Seq<char>>, i: nat, j: nat) -> nat
    decreases i + j,
{
    if i == 0 || j == 0 {
        0
    } else if a[i - 1] == b[j - 1] {
        lcs_len(a, b, (i - 1) as nat, (j - 1) as nat) + 1
    } else {
        let up = lcs_len(a, b, (i - 1) as nat, j);
        let left = lcs_len(a, b, i, (j - 1) as nat);
        if up > left {
            up
        } else {
            left
        }
    }
}

/// The positions in `b` of the common subsequence found by walking back from
/// `(i, j)`: a pair of equal elements is taken; otherwise the walk moves to
/// the neighbour with the strictly longer subsequence, and on a tie steps
/// back in `b`.
pub open spec fn lcs_walk(a: Seq<Seq<char>>, b: Seq<Seq<char>>, i: nat, j: nat) -> Seq<int>
    decreases i + j,
{
    if i == 0 || j == 0 {
        Seq::empty()
    } else if a[i - 1] == b[j - 1] {
        lcs_walk(a, b, (i - 1) as nat, (j - 1) as nat).push(j - 1)
    } else if lcs_len(a, b, (i - 1) as nat, j) > lcs_len(a, b, i, (j - 1) as nat) {
        lcs_walk(a, b, (i - 1) as nat, j)
    } else {
        lcs_walk(a, b, i, (j - 1) as nat)
    }
}

/// The positions in `a` that the same walk pairs with those of `lcs_walk`.
pub open spec fn lcs_walk_old(a: Seq<Seq<char>>, b: Seq<Seq<char>>, i: nat, j: nat) -> Seq<int>
    decreases i + j,
{
    if i == 0 || j == 0 {
        Seq::empty()
    } else if a[i - 1] == b[j - 1] {
        lcs_walk_old(a, b, (i - 1) as nat, (j - 1) as nat).push(i - 1)
    } else if lcs_len(a, b, (i - 1) as nat, j) > lcs_len(a, b, i, (j - 1) as nat) {
        lcs_walk_old(a, b, (i - 1) as nat, j)
    } else {
        lcs_walk_old(a, b, i, (j - 1) as nat)
    }
}

/// The indices, into the new lines, of the longest common subsequence that
/// the diff uses.
pub open spec fn lcs_indices(a: Seq<Seq<char>>, b: Seq<Seq<char>>) -> Seq<int> {
    lcs_walk(a, b, a.len(), b.len())
}

/// `lcs_len` never exceeds either prefix length.
pub proof fn lemma_lcs_len_bound(a: Seq<Seq<char>>, b: Seq<Seq<char>>, i: nat, j: nat)
    ensures
        lcs_len(a, b, i, j) <= i,
        lcs_len(a, b, i, j) <= j,
    decreases i + j,
{
    if i == 0 || j == 0 {
    } else {
        lemma_lcs_len_bound(a, b, (i - 1) as nat, (j - 1) as nat);
        lemma_lcs_len_bound(a, b, (i - 1) as nat, j);
        lemma_lcs_len_bound(a, b, i, (j - 1) as nat);
    }
}

/// The length of a longest common subsequence does not depend on which
/// sequence is called the first.
pub proof fn lemma_lcs_len_symmetric(a: Seq<Seq<char>>, b: Seq<Seq<char>>, i: nat, j: nat)
    ensures
        lcs_len(a, b, i, j) == lcs_len(b, a, j, i),
    decreases i + j,
{
    if i == 0 || j == 0 {
    } else {
        lemma_lcs_len_symmetric(a, b, (i - 1) as nat, (j - 1) as nat);
        lemma_lcs_len_symmetric(a, b, (i - 1) as nat, j);
        lemma_lcs_len_symmetric(a, b, i, (j - 1) as nat);
    }
}

/// The walk finds as many pairs as the longest common subsequence has.
pub proof fn lemma_lcs_walk_len(a: Seq<Seq<char>>, b: Seq<Seq<char>>, i: nat, j: nat)
    ensures
        lcs_walk(a, b, i, j).len() == lcs_len(a, b, i, j),
        lcs_walk_old(a, b, i, j).len() == lcs_len(a, b, i, j),
    decreases i + j,
{
    if i == 0 || j == 0 {
    } else {
        lemma_lcs_walk_len(a, b, (i - 1) as nat, (j - 1) as nat);
        lemma_lcs_walk_len(a, b, (i - 1) as nat, j);
        lemma_lcs_walk_len(a, b, i, (j - 1) as nat);
    }
}

/// `pos` and `picked` pair equal elements of `old` and `new`, both in
/// strictly increasing order.
pub open spec fn aligned(
    old: Seq<Seq<char>>,
    new: Seq<Seq<char>>,
    picked: Seq<int>,
    pos: Seq<int>,
) -> bool {
    &&& pos.len() == picked.len()
    &&& forall|t: int|
        0 <= t < picked.len() ==> 0 <= #[trigger] pos[t] < old.len() && 0 <= picked[t] < new.len()
            && old[pos[t]] == new[picked[t]]
    &&& forall|s: int, t: int|
        0 <= s < t < picked.len() ==> #[trigger] pos[s] < #[trigger] pos[t] && picked[s]
            < picked[t]
}

/// `picked` lists, in increasing order, positions of `new` whose elements
/// occur in the same order in `old`.
pub open spec fn common_subsequence(
    old: Seq<Seq<char>>,
    new: Seq<Seq<char>>,
    picked: Seq<int>,
) -> bool {
    exists|pos: Seq<int>| aligned(old, new, picked, pos)
}

/// The two walks pair equal elements, in increasing order, within the
/// prefixes they started from.
pub proof fn lemma_lcs_walk_aligned(a: Seq<Seq<char>>, b: Seq<Seq<char>>, i: nat, j: nat)
    requires
        i <= a.len(),
        j <= b.len(),
    ensures
        aligned(a, b, lcs_walk(a, b, i, j), lcs_walk_old(a, b, i, j)),
        forall|t: int|
            0 <= t < lcs_walk(a, b, i, j).len() ==> #[trigger] lcs_walk(a, b, i, j)[t] < j,
        forall|t: int|
            0 <= t < lcs_walk_old(a, b, i, j).len() ==> #[trigger] lcs_walk_old(a, b, i, j)[t] < i,
    decreases i + j,
{
    lemma_lcs_walk_len(a, b, i, j);
    if i == 0 || j == 0 {
    } else if a[i - 1] == b[j - 1] {
        lemma_lcs_walk_aligned(a, b, (i - 1) as nat, (j - 1) as nat);
        lemma_lcs_walk_len(a, b, (i - 1) as nat, (j - 1) as nat);
    } else if lcs_len(a, b, (i - 1) as nat, j) > lcs_len(a, b, i, (j - 1) as nat) {
        lemma_lcs_walk_aligned(a, b, (i - 1) as nat, j);
    } else {
        lemma_lcs_walk_aligned(a, b, i, (j - 1) as nat);
    }
}

/// The indices that the diff uses form a common subsequence of the two line
/// lists.
pub proof fn lemma_lcs_indices_common(a: Seq<Seq<char>>, b: Seq<Seq<char>>)
    ensures
        common_subsequence(a, b, lcs_indices(a, b)),
        lcs_indices(a, b).len() == lcs_len(a, b, a.len(), b.len()),
{
    lemma_lcs_walk_aligned(a, b, a.len(), b.len());
    lemma_lcs_walk_len(a, b, a.len(), b.len());
}

/// Rows `0..rows` of `dp` are complete and hold `lcs_len`.
spec fn table_filled(dp: Seq<Vec<usize>>, a: Seq<Seq<char>>, b: Seq<Seq<char>>, rows: int) -> bool {
    &&& dp.len() == rows
    &&& forall|i: int| 0 <= i < rows ==> (#[trigger] dp[i])@.len() == b.len()
    &&& forall|i: int, j: int|
        0 <= i < rows && 0 <= j < b.len() ==> (#[trigger] dp[i]@[j]) as int == lcs_len(
            a,
            b,
            (i + 1) as nat,
            (j + 1) as nat,
        )
}

/// The dynamic-programming table of `lcs_len`, without its zero borders.
fn lcs_table(a: &Vec<Vec<char>>, b: &Vec<Vec<char>>) -> (dp: Vec<Vec<usize>>)
    ensures
        table_filled(dp@, texts(a@), texts(b@), a.len() as int),
{
    let ghost sa = texts(a@);
    let ghost sb = texts(b@);
    let m: usize = a.len();
    let n: usize = b.len();
    let mut dp: Vec<Vec<usize>> = Vec::new();
    let mut i: usize = 0;
    while i < m
        invariant
            i <= m,
            m == a.len(),
            n == b.len(),
            sa == texts(a@),
            sb == texts(b@),
            table_filled(dp@, sa, sb, i as int),
        decreases m - i,
    {
        let mut row: Vec<usize> = Vec::new();
        let mut j: usize = 0;
        while j < n
            invariant
                j <= n,
                i < m,
                m == a.len(),
                n == b.len(),
                sa == texts(a@),
                sb == texts(b@),
                table_filled(dp@, sa, sb, i as int),
                row@.len() == j,
                forall|t: int|
                    0 <= t < j ==> (#[trigger] row@[t]) as int == lcs_len(
                        sa,
                        sb,
                        (i + 1) as nat,
                        (t + 1) as nat,
                    ),
            decreases n - j,
        {
            proof {
                lemma_lcs_len_bound(sa, sb, (i + 1) as nat, (j + 1) as nat);
                lemma_lcs_len_bound(sa, sb, i as nat, j as nat);
                assert(sa[i as int] == a@[i as int]@);
                assert(sb[j as int] == b@[j as int]@);
            }
            let value: usize = if same_chars(&a[i], &b[j]) {
                let diagonal: usize = if i > 0 && j > 0 {
                    dp[i - 1][j - 1]
                } else {
                    0
                };
                assert(diagonal as int == lcs_len(sa, sb, i as nat, j as nat));
                diagonal + 1
            } else {
                let up: usize = if i > 0 {
                    dp[i - 1][j]
                } else {
                    0
                };
                let left: usize = if j > 0 {
                    row[j - 1]
                } else {
                    0
                };
                assert(up as int == lcs_len(sa, sb, i as nat, (j + 1) as nat));
                assert(left as int == lcs_len(sa, sb, (i + 1) as nat, j as nat));
                if up > left {
                    up
                } else {
                    left
                }
            };
            assert(value as int == lcs_len(sa, sb, (i + 1) as nat, (j + 1) as nat));
            row.push(value);
            j += 1;
        }
        dp.push(row);
        i += 1;
    }
    dp
}

/// `acc` read from its end to its start.
spec fn backwards(acc: Seq<usize>) -> Seq<int> {
    Seq::new(acc.len(), |t: int| acc[acc.len() - 1 - t] as int)
}

/// The longest common subsequence of two line lists, as indices into `b`.
pub fn lcs_of_lines(a: &Vec<Vec<char>>, b: &Vec<Vec<char>>) -> (r: Vec<usize>)
    ensures
        indices(r@) == lcs_indices(texts(a@), texts(b@)),
{
    let ghost sa = texts(a@);
    let ghost sb = texts(b@);
    let dp = lcs_table(a, b);
    let mut acc: Vec<usize> = Vec::new();
    let mut i: usize = a.len();
    let mut j: usize = b.len();
    assert(lcs_walk(sa, sb, i as nat, j as nat) + backwards(acc@) == lcs_walk(
        sa,
        sb,
        i as nat,
        j as nat,
    ));
    while i > 0 && j > 0
        invariant
            i <= a.len(),
            j <= b.len(),
            sa == texts(a@),
            sb == texts(b@),
            table_filled(dp@, sa, sb, a.len() as int),
            lcs_indices(sa, sb) == lcs_walk(sa, sb, i as nat, j as nat) + backwards(acc@),
        decreases i + j,
    {
        proof {
            assert(sa[i - 1] == a@[i - 1]@);
            assert(sb[j - 1] == b@[j - 1]@);
        }
        let ghost before = acc@;
        if same_chars(&a[i - 1], &b[j - 1]) {
            acc.push(j - 1);
            proof {
                let rest = lcs_walk(sa, sb, (i - 1) as nat, (j - 1) as nat);
                assert(rest.push(j - 1) + backwards(before) == rest + backwards(acc@));
            }
            i -= 1;
            j -= 1;
        } else {
            let up: usize = if i > 1 {
                dp[i - 2][j - 1]
            } else {
                0
            };
            let left: usize = if j > 1 {
                dp[i - 1][j - 2]
            } else {
                0
            };
            if up > left {
                i -= 1;
            } else {
                j -= 1;
            }
        }
    }
    let mut r: Vec<usize> = Vec::new();
    let mut k: usize = acc.len();
    while k > 0
        invariant
            k <= acc.len(),
            r@.len() == acc.len() - k,
            forall|t: int| 0 <= t < r@.len() ==> #[trigger] r@[t] == acc@[acc.len() - 1 - t],
        decreases k,
    {
        k -= 1;
        r.push(acc[k]);
    }
    assert(indices(r@) == backwards(acc@));
    assert(lcs_walk(sa, sb, i as nat, j as nat) + backwards(acc@) == backwards(acc@));
    r
}

/// The lines given as string slices, as character vectors.
fn lines_from(v: &[&str]) -> (r: Vec<Vec<char>>)
    ensures
        texts(r@) == strs(v@),
{
    let mut r: Vec<Vec<char>> = Vec::new();
    let mut i: usize = 0;
    while i < v.len()
        invariant
            i <= v.len(),
            r@.len() == i,
            forall|t: int| 0 <= t < i ==> (#[trigger] r@[t])@ == v@[t]@,
        decreases v.len() - i,
    {
        r.push(to_chars(v[i]));
        i += 1;
    }
    assert(texts(r@) == strs(v@));
    r
}

/// The longest common subsequence of `a` and `b` that the diff uses, as
/// indices into `b` in increasing order.
pub fn compute_lcs(a: &[&str], b: &[&str]) -> (r: Vec<usize>)
    ensures
        indices(r@) == lcs_indices(strs(a@), strs(b@)),
{
    let la = lines_from(a);
    let lb = lines_from(b);
    lcs_of_lines(&la, &lb)
}

// ---------------------------------------------------------------------------
// From the common subsequence to the edit script
// ---------------------------------------------------------------------------

/// Whether old line `i` is paired with common line `k` of `picked`: the
/// common line exists and the old line equals it.
pub open spec fn is_partner(
    old: Seq<Seq<char>>,
    new: Seq<Seq<char>>,
    picked: Seq<int>,
    i: int,
    k: int,
) -> bool {
    0 <= k < picked.len() && 0 <= picked[k] < new.len() && 0 <= i < old.len() && old[i]
        == new[picked[k]]
}

/// The edit script from old line `i`, new line `j` and common line `k` on
/// (all counted from zero). The old line paired with the next common line is
/// the first one, from `i` on, that equals it. The old lines before it are
/// removed, then the new lines before the common line are added, and then
/// the two paired lines give one unchanged entry, which carries the numbers
/// of both. After the last common line the old lines that are left are
/// removed, and then the new lines that are left are added.
pub open spec fn merge_from(
    old: Seq<Seq<char>>,
    new: Seq<Seq<char>>,
    picked: Seq<int>,
    i: int,
    j: int,
    k: int,
) -> Seq<LineEdit>
    decreases (if j < new.len() {
        new.len() - j
    } else {
        0
    }) + (if i < old.len() {
        old.len() - i
    } else {
        0
    }),
{
    if is_partner(old, new, picked, i, k) && j == picked[k] {
        seq![LineEdit::Unchanged { line: new[j], old_line_num: i + 1, new_line_num: j + 1 }]
            + merge_from(old, new, picked, i + 1, j + 1, k + 1)
    } else if 0 <= i < old.len() && !is_partner(old, new, picked, i, k) {
        seq![LineEdit::Removed { line: old[i], old_line_num: i + 1 }] + merge_from(
            old,
            new,
            picked,
            i + 1,
            j,
            k,
        )
    } else if 0 <= j < new.len() {
        seq![LineEdit::Added { line: new[j], new_line_num: j + 1 }] + merge_from(
            old,
            new,
            picked,
            i,
            j + 1,
            k,
        )
    } else {
        Seq::empty()
    }
}

/// Whether a change among the first `limit` entries of `all` lies within
/// `context` entries of position `k`.
pub open spec fn near_change_before(all: Seq<LineEdit>, k: int, context: int, limit: int) -> bool {
    exists|c: int|
        0 <= c < limit && c < all.len() && !(#[trigger] all[c] is Unchanged) && k - context <= c
            <= k + context
}

/// Whether a change lies within `context` entries of position `k`.
pub open spec fn near_change(all: Seq<LineEdit>, k: int, context: int) -> bool {
    near_change_before(all, k, context, all.len() as int)
}

/// Those of the first `n` entries of `all` that lie near a change.
pub open spec fn keep_near(all: Seq<LineEdit>, context: int, n: int) -> Seq<LineEdit>
    decreases n,
{
    if n <= 0 {
        Seq::empty()
    } else {
        let rest = keep_near(all, context, n - 1);
        if near_change(all, n - 1, context) {
            rest.push(all[n - 1])
        } else {
            rest
        }
    }
}

/// The script pruned to its changes and `context_lines` entries on each side
/// of every change; `usize::MAX` keeps the whole script.
pub open spec fn with_context(all: Seq<LineEdit>, context_lines: usize) -> Seq<LineEdit> {
    if context_lines == usize::MAX {
        all
    } else {
        keep_near(all, context_lines as int, all.len() as int)
    }
}

/// The edit script for two line lists and a common subsequence of them.
pub open spec fn edit_script(
    old: Seq<Seq<char>>,
    new: Seq<Seq<char>>,
    picked: Seq<int>,
    context_lines: usize,
) -> Seq<LineEdit> {
    with_context(merge_from(old, new, picked, 0, 0, 0), context_lines)
}

/// The edit script that turns text `old` into text `new`.
pub open spec fn text_diff(old: Seq<char>, new: Seq<char>, context_lines: usize) -> Seq<LineEdit> {
    let a = lines_of(old);
    let b = lines_of(new);
    edit_script(a, b, lcs_indices(a, b), context_lines)
}

/// Decides `is_partner` for old line `i` and common line `k`.
fn line_is_partner(
    old: &Vec<Vec<char>>,
    new: &Vec<Vec<char>>,
    picked: &[usize],
    i: usize,
    k: usize,
) -> (r: bool)
    ensures
        r == is_partner(texts(old@), texts(new@), indices(picked@), i as int, k as int),
{
    if k >= picked.len() || i >= old.len() {
        return false;
    }
    let at: usize = picked[k];
    assert(indices(picked@)[k as int] == at);
    if at >= new.len() {
        return false;
    }
    assert(texts(new@)[at as int] == new@[at as int]@);
    assert(texts(old@)[i as int] == old@[i as int]@);
    same_chars(&old[i], &new[at])
}

/// A change with the same value as `c`.
fn copy_change(c: &LineChange) -> (r: LineChange)
    ensures
        r@ == c@,
{
    match c {
        LineChange::Unchanged { line, old_line_num, new_line_num } => LineChange::Unchanged {
            line: line.clone(),
            old_line_num: *old_line_num,
            new_line_num: *new_line_num,
        },
        LineChange::Added { line, new_line_num } => LineChange::Added {
            line: line.clone(),
            new_line_num: *new_line_num,
        },
        LineChange::Removed { line, old_line_num } => LineChange::Removed {
            line: line.clone(),
            old_line_num: *old_line_num,
        },
    }
}

/// The whole edit script, before any pruning.
fn merge_lines(old: &Vec<Vec<char>>, new: &Vec<Vec<char>>, picked: &[usize]) -> (all: Vec<
    LineChange,
>)
    ensures
        edits(all@) == merge_from(texts(old@), texts(new@), indices(picked@), 0, 0, 0),
{
    let ghost so = texts(old@);
    let ghost sn = texts(new@);
    let ghost pk = indices(picked@);
    let mut all: Vec<LineChange> = Vec::new();
    let mut i: usize = 0;
    let mut j: usize = 0;
    let mut k: usize = 0;
    assert(edits(all@) + merge_from(so, sn, pk, 0, 0, 0) == merge_from(so, sn, pk, 0, 0, 0));
    loop
        invariant
            i <= old.len(),
            j <= new.len(),
            k <= picked.len(),
            so == texts(old@),
            sn == texts(new@),
            pk == indices(picked@),
            merge_from(so, sn, pk, 0, 0, 0) == edits(all@) + merge_from(
                so,
                sn,
                pk,
                i as int,
                j as int,
                k as int,
            ),
        decreases (old.len() - i) + (new.len() - j),
    {
        let ghost before = edits(all@);
        let ghost rest = merge_from(so, sn, pk, i as int, j as int, k as int);
        let partner = line_is_partner(old, new, picked, i, k);
        if partner {
            assert(pk[k as int] == picked@[k as int]);
        }
        if partner && picked[k] == j {
            let change = LineChange::Unchanged {
                line: from_chars(&new[j]),
                old_line_num: i + 1,
                new_line_num: j + 1,
            };
            proof {
                assert(sn[j as int] == new@[j as int]@);
                let tail = merge_from(so, sn, pk, i + 1, j + 1, k + 1);
                assert(rest == seq![change@] + tail);
                assert(before + rest == before.push(change@) + tail);
            }
            all.push(change);
            assert(edits(all@) == before.push(change@));
            i += 1;
            j += 1;
            k += 1;
        } else if i < old.len() && !partner {
            let change = LineChange::Removed { line: from_chars(&old[i]), old_line_num: i + 1 };
            proof {
                assert(so[i as int] == old@[i as int]@);
                let tail = merge_from(so, sn, pk, i + 1, j as int, k as int);
                assert(rest == seq![change@] + tail);
                assert(before + rest == before.push(change@) + tail);
            }
            all.push(change);
            assert(edits(all@) == before.push(change@));
            i += 1;
        } else if j < new.len() {
            let change = LineChange::Added { line: from_chars(&new[j]), new_line_num: j + 1 };
            proof {
                assert(sn[j as int] == new@[j as int]@);
                let tail = merge_from(so, sn, pk, i as int, j + 1, k as int);
                assert(rest == seq![change@] + tail);
                assert(before + rest == before.push(change@) + tail);
            }
            all.push(change);
            assert(edits(all@) == before.push(change@));
            j += 1;
        } else {
            assert(rest == Seq::<LineEdit>::empty());
            assert(before + Seq::<LineEdit>::empty() == before);
            return all;
        }
    }
}

/// Keeps the changes and their context.
fn prune_context(all: &Vec<LineChange>, context_lines: usize) -> (r: Vec<LineChange>)
    requires
        context_lines < usize::MAX,
    ensures
        edits(r@) == keep_near(edits(all@), context_lines as int, all.len() as int),
{
    let ghost script = edits(all@);
    let len: usize = all.len();
    let mut included: Vec<bool> = Vec::new();
    while included.len() < len
        invariant
            included.len() <= len,
            forall|k: int| 0 <= k < included.len() ==> !#[trigger] included@[k],
        decreases len - included.len(),
    {
        included.push(false);
    }
    let mut c: usize = 0;
    while c < len
        invariant
            c <= len,
            len == all.len(),
            included.len() == len,
            script == edits(all@),
            context_lines < usize::MAX,
            forall|k: int|
                0 <= k < len ==> (#[trigger] included@[k] <==> near_change_before(
                    script,
                    k,
                    context_lines as int,
                    c as int,
                )),
        decreases len - c,
    {
        let is_change: bool = match &all[c] {
            LineChange::Unchanged { .. } => false,
            _ => true,
        };
        assert(is_change == !(script[c as int] is Unchanged));
        if is_change {
            let start: usize = if c >= context_lines {
                c - context_lines
            } else {
                0
            };
            let end: usize = if context_lines >= len - c - 1 {
                len
            } else {
                c + context_lines + 1
            };
            let mut t: usize = start;
            while t < end
                invariant
                    start <= t <= end <= len,
                    c < len,
                    len == all.len(),
                    included.len() == len,
                    script == edits(all@),
                    !(script[c as int] is Unchanged),
                    start == (if c >= context_lines {
                        c - context_lines
                    } else {
                        0
                    }),
                    end == (if context_lines >= len - c - 1 {
                        len as int
                    } else {
                        c + context_lines + 1
                    }),
                    forall|k: int|
                        0 <= k < len ==> (#[trigger] included@[k] <==> (near_change_before(
                            script,
                            k,
                            context_lines as int,
                            c as int,
                        ) || start <= k < t)),
                decreases end - t,
            {
                included.set(t, true);
                t += 1;
            }
            assert forall|k: int| 0 <= k < len implies (#[trigger] included@[k]
                <==> near_change_before(script, k, context_lines as int, c + 1)) by {
                if start <= k < end {
                    assert(!(script[c as int] is Unchanged) && k - context_lines <= c <= k
                        + context_lines);
                }
            }
        } else {
            assert forall|k: int| 0 <= k < len implies (near_change_before(
                script,
                k,
                context_lines as int,
                c as int,
            ) <==> near_change_before(script, k, context_lines as int, c + 1)) by {}
        }
        c += 1;
    }
    let mut r: Vec<LineChange> = Vec::new();
    let mut i: usize = 0;
    while i < len
        invariant
            i <= len,
            len == all.len(),
            included.len() == len,
            script == edits(all@),
            forall|k: int|
                0 <= k < len ==> (#[trigger] included@[k] <==> near_change(
                    script,
                    k,
                    context_lines as int,
                )),
            edits(r@) == keep_near(script, context_lines as int, i as int),
        decreases len - i,
    {
        if included[i] {
            let ghost before = edits(r@);
            let change = copy_change(&all[i]);
            r.push(change);
            assert(edits(r@) == before.push(script[i as int]));
        }
        i += 1;
    }
    r
}

/// The edit script for two line lists and a common subsequence of them, given
/// as indices into `new_lines`, pruned to `context_lines` of context. Each
/// common line is paired with the first old line, after the one paired
/// before, that equals it.
pub fn build_changes_from_lcs(
    old_lines: &[&str],
    new_lines: &[&str],
    lcs_indices: &[usize],
    context_lines: usize,
) -> (r: Vec<LineChange>)
    ensures
        edits(r@) == edit_script(
            strs(old_lines@),
            strs(new_lines@),
            indices(lcs_indices@),
            context_lines,
        ),
{
    let old = lines_from(old_lines);
    let new = lines_from(new_lines);
    let all = merge_lines(&old, &new, lcs_indices);
    if context_lines == usize::MAX {
        all
    } else {
        prune_context(&all, context_lines)
    }
}

/// Compares two texts line by line.
pub fn diff_text(old: &str, new: &str, config: &DiffConfig) -> (r: TextDiffResult)
    ensures
        r.script() == text_diff(old@, new@, config.context_lines),
        r.old_line_count == lines_of(old@).len(),
        r.new_line_count == lines_of(new@).len(),
{
    let old_lines = split_lines(&to_chars(old));
    let new_lines = split_lines(&to_chars(new));
    let picked = lcs_of_lines(&old_lines, &new_lines);
    let all = merge_lines(&old_lines, &new_lines, picked.as_slice());
    let changes = if config.context_lines == usize::MAX {
        all
    } else {
        prune_context(&all, config.context_lines)
    };
    TextDiffResult { changes, old_line_count: old_lines.len(), new_line_count: new_lines.len() }
}

} // verus!
