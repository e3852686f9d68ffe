//! Byte-wise positional diff: the two inputs are compared offset by offset,
//! the shorter one counting as absent beyond its end.

use vstd::prelude::*;
use crate::text_diff::DiffConfig;

verus! {

/// One offset at which the two inputs disagree.
#[derive(Debug, Clone, PartialEq, Eq)]
pub struct ByteDifference {
    /// Position from the start.
    pub offset: usize,
    /// The old byte, absent beyond the end of the old input.
    pub old_byte: Option<u8>,
    /// The new byte, absent beyond the end of the new input.
    pub new_byte: Option<u8>,
}

/// The outcome of a binary diff.
#[derive(Debug, Clone)]
pub struct BinaryDiffResult {
    /// The differences, by increasing offset.
    pub differences: Vec<ByteDifference>,
    /// Length of the old input.
    pub old_size: usize,
    /// Length of the new input.
    pub new_size: usize,
}

/// The byte of `s` at `i`, if `s` reaches that far.
pub open spec fn byte_at(s: Seq<u8>, i: int) -> Option<u8> {
    if 0 <= i < s.len() {
        Some(s[i])
    } else {
        None
    }
}

/// The differences between `old` and `new` at the offsets below `n`, by
/// increasing offset.
pub open spec fn byte_diffs(old: Seq<u8>, new: Seq<u8>, n: int) -> Seq<ByteDifference>
    decreases n,
{
    if n <= 0 {
        Seq::empty()
    } else {
        let rest = byte_diffs(old, new, n - 1);
        if byte_at(old, n - 1) != byte_at(new, n - 1) {
            rest.push(
                ByteDifference {
                    offset: (n - 1) as usize,
                    old_byte: byte_at(old, n - 1),
                    new_byte: byte_at(new, n - 1),
                },
            )
        } else {
            rest
        }
    }
}

/// The length of the longer of two inputs.
pub open spec fn longer(old: Seq<u8>, new: Seq<u8>) -> int {
    if old.len() >= new.len() {
        old.len() as int
    } else {
        new.len() as int
    }
}

/// All differences between `old` and `new`.
pub open spec fn binary_diff(old: Seq<u8>, new: Seq<u8>) -> Seq<ByteDifference> {
    byte_diffs(old, new, longer(old, new))
}

/// How many entries have no old byte.
pub open spec fn count_additions(s: Seq<ByteDifference>) -> nat
    decreases s.len(),
{
    if s.len() == 0 {
        0
    } else {
        count_additions(s.drop_last()) + if s.last().old_byte is None { 1nat } else { 0nat }
    }
}

/// How many entries have no new byte.
pub open spec fn count_deletions(s: Seq<ByteDifference>) -> nat
    decreases s.len(),
{
    if s.len() == 0 {
        0
    } else {
        count_deletions(s.drop_last()) + if s.last().new_byte is None { 1nat } else { 0nat }
    }
}

/// How many entries have both bytes.
pub open spec fn count_modifications(s: Seq<ByteDifference>) -> nat
    decreases s.len(),
{
    if s.len() == 0 {
        0
    } else {
        count_modifications(s.drop_last()) + if s.last().old_byte is Some && s.last().new_byte
            is Some { 1nat } else { 0nat }
    }
}

/// Every entry records a disagreement: at least one byte is present and the
/// two are not the same; offsets increase strictly.
pub open spec fn differences_valid(s: Seq<ByteDifference>) -> bool {
    &&& forall|i: int|
        0 <= i < s.len() ==> (#[trigger] s[i]).old_byte != s[i].new_byte
    &&& forall|i: int, j: int|
        0 <= i < j < s.len() ==> (#[trigger] s[i]).offset < (#[trigger] s[j]).offset
}

impl BinaryDiffResult {
    /// The invariant of a result: valid differences, all of them at offsets
    /// that one of the inputs reaches.
    pub open spec fn well_formed(&self) -> bool {
        &&& differences_valid(self.differences@)
        &&& forall|i: int|
            0 <= i < self.differences@.len() ==> (#[trigger] self.differences@[i]).offset
                < self.old_size || self.differences@[i].offset < self.new_size
    }

    /// Whether the inputs were the same.
    pub fn is_identical(&self) -> (r: bool)
        ensures
            r == (self.differences@.len() == 0),
    {
        self.differences.len() == 0
    }

    /// The number of bytes present only in the new input.
    pub fn additions(&self) -> (r: usize)
        ensures
            r == count_additions(self.differences@),
    {
        let mut n: usize = 0;
        let mut i: usize = 0;
        assert(self.differences@.take(0) == Seq::<ByteDifference>::empty());
        while i < self.differences.len()
            invariant
                i <= self.differences.len(),
                n <= i,
                n == count_additions(self.differences@.take(i as int)),
            decreases self.differences.len() - i,
        {
            assert(self.differences@.take(i + 1).drop_last() == self.differences@.take(i as int));
            if self.differences[i].old_byte.is_none() {
                n += 1;
            }
            i += 1;
        }
        assert(self.differences@.take(i as int) == self.differences@);
        n
    }

    /// The number of bytes present only in the old input.
    pub fn deletions(&self) -> (r: usize)
        ensures
            r == count_deletions(self.differences@),
    {
        let mut n: usize = 0;
        let mut i: usize = 0;
        assert(self.differences@.take(0) == Seq::<ByteDifference>::empty());
        while i < self.differences.len()
            invariant
                i <= self.differences.len(),
                n <= i,
                n == count_deletions(self.differences@.take(i as int)),
            decreases self.differences.len() - i,
        {
            assert(self.differences@.take(i + 1).drop_last() == self.differences@.take(i as int));
            if self.differences[i].new_byte.is_none() {
                n += 1;
            }
            i += 1;
        }
        assert(self.differences@.take(i as int) == self.differences@);
        n
    }

    /// The number of offsets at which both inputs have a byte, and not the
    /// same one.
    pub fn modifications(&self) -> (r: usize)
        ensures
            r == count_modifications(self.differences@),
    {
        let mut n: usize = 0;
        let mut i: usize = 0;
        assert(self.differences@.take(0) == Seq::<ByteDifference>::empty());
        while i < self.differences.len()
            invariant
                i <= self.differences.len(),
                n <= i,
                n == count_modifications(self.differences@.take(i as int)),
            decreases self.differences.len() - i,
        {
            assert(self.differences@.take(i + 1).drop_last() == self.differences@.take(i as int));
            if self.differences[i].old_byte.is_some() && self.differences[i].new_byte.is_some() {
                n += 1;
            }
            i += 1;
        }
        assert(self.differences@.take(i as int) == self.differences@);
        n
    }
}

/// Compares two byte strings position by position.
pub fn diff_binary(old: &[u8], new: &[u8], config: &DiffConfig) -> (r: BinaryDiffResult)
    ensures
        r.differences@ == binary_diff(old@, new@),
        r.old_size == old@.len(),
        r.new_size == new@.len(),
        r.well_formed(),
{
    let max_len: usize = if old.len() >= new.len() {
        old.len()
    } else {
        new.len()
    };
    let mut differences: Vec<ByteDifference> = Vec::new();
    let mut i: usize = 0;
    while i < max_len
        invariant
            i <= max_len,
            max_len == longer(old@, new@),
            differences@ == byte_diffs(old@, new@, i as int),
        decreases max_len - i,
    {
        let old_byte: Option<u8> = if i < old.len() {
            Some(old[i])
        } else {
            None
        };
        let new_byte: Option<u8> = if i < new.len() {
            Some(new[i])
        } else {
            None
        };
        if old_byte != new_byte {
            differences.push(ByteDifference { offset: i, old_byte, new_byte });
        }
        i += 1;
    }
    proof {
        lemma_byte_diffs(old@, new@, max_len as int);
    }
    BinaryDiffResult { differences, old_size: old.len(), new_size: new.len() }
}

/// What `byte_diffs` holds: exactly the offsets below `n` at which the inputs
/// disagree, each once, in increasing order, with the bytes found there.
pub proof fn lemma_byte_diffs(old: Seq<u8>, new: Seq<u8>, n: int)
    requires
        0 <= n <= usize::MAX,
    ensures
        differences_valid(byte_diffs(old, new, n)),
        forall|i: int|
            0 <= i < byte_diffs(old, new, n).len() ==> {
                let d = #[trigger] byte_diffs(old, new, n)[i];
                &&& d.offset < n
                &&& d.old_byte == byte_at(old, d.offset as int)
                &&& d.new_byte == byte_at(new, d.offset as int)
            },
        forall|k: int|
            0 <= k < n && byte_at(old, k) != byte_at(new, k) ==> exists|i: int|
                0 <= i < byte_diffs(old, new, n).len() && (#[trigger] byte_diffs(
                    old,
                    new,
                    n,
                )[i]).offset == k,
    decreases n,
{
    if n > 0 {
        lemma_byte_diffs(old, new, n - 1);
        let rest = byte_diffs(old, new, n - 1);
        let all = byte_diffs(old, new, n);
        assert forall|k: int| 0 <= k < n && byte_at(old, k) != byte_at(new, k) implies exists|
            i: int,
        |
            0 <= i < all.len() && (#[trigger] all[i]).offset == k by {
            if k < n - 1 {
                let i = choose|i: int| 0 <= i < rest.len() && (#[trigger] rest[i]).offset == k;
                assert(all[i].offset == k);
            } else {
                assert(all[all.len() - 1].offset == k);
            }
        }
    }
}

/// The three counts of a valid list of differences add up to its length:
/// every entry is an addition, a deletion or a modification, and only one of
/// them.
pub proof fn lemma_counts_add_up(s: Seq<ByteDifference>)
    requires
        differences_valid(s),
    ensures
        count_additions(s) + count_deletions(s) + count_modifications(s) == s.len(),
    decreases s.len(),
{
    if s.len() > 0 {
        let rest = s.drop_last();
        assert forall|i: int| 0 <= i < rest.len() implies (#[trigger] rest[i]).old_byte
            != rest[i].new_byte by {
            assert(rest[i] == s[i]);
        }
        assert forall|i: int, j: int| 0 <= i < j < rest.len() implies (#[trigger] rest[i]).offset
            < (#[trigger] rest[j]).offset by {
            assert(rest[i] == s[i]);
            assert(rest[j] == s[j]);
        }
        lemma_counts_add_up(rest);
        assert(s.last() == s[s.len() - 1]);
    }
}

/// The totals of a binary diff: additions, deletions and modifications
/// together are all the differences there are.
pub proof fn lemma_binary_diff_totals(old: Seq<u8>, new: Seq<u8>)
    requires
        old.len() <= usize::MAX,
        new.len() <= usize::MAX,
    ensures
        count_additions(binary_diff(old, new)) + count_deletions(binary_diff(old, new))
            + count_modifications(binary_diff(old, new)) == binary_diff(old, new).len(),
{
    lemma_byte_diffs(old, new, longer(old, new));
    lemma_counts_add_up(binary_diff(old, new));
}

} // verus!
