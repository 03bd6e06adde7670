//! The counts of one source, and how counts combine.

use vstd::prelude::*;
use vstd::seq_lib::{commutative_foldl, lemma_fold_left_permutation};

verus! {

/// Counts as mathematical values: the model that contracts speak of.
pub struct Totals {
    /// Lines read.
    pub lines: nat,
    /// Words.
    pub words: nat,
    /// Bytes.
    pub bytes: nat,
    /// Characters, in the unit the mode selects.
    pub chars: nat,
    /// Length of the widest line, its terminator left out.
    pub max_line_len: nat,
}

impl Totals {
    /// The counts of nothing.
    pub open spec fn zero() -> Totals {
        Totals { lines: 0, words: 0, bytes: 0, chars: 0, max_line_len: 0 }
    }

    /// The counts of two sources taken together: sums, but for the widest
    /// line, which is the wider of the two.
    pub open spec fn merge(self, other: Totals) -> Totals {
        Totals {
            lines: self.lines + other.lines,
            words: self.words + other.words,
            bytes: self.bytes + other.bytes,
            chars: self.chars + other.chars,
            max_line_len: if self.max_line_len >= other.max_line_len {
                self.max_line_len
            } else {
                other.max_line_len
            },
        }
    }

    /// Every figure can be held in its machine type.
    pub open spec fn fits(self) -> bool {
        &&& self.lines <= usize::MAX
        &&& self.words <= usize::MAX
        &&& self.bytes <= u64::MAX
        &&& self.chars <= usize::MAX
        &&& self.max_line_len <= usize::MAX
    }
}

/// The counts of one source, or a running total.
#[derive(Clone, Copy, Debug, PartialEq, Eq, Structural)]
pub struct Counts {
    /// Words.
    pub words: usize,
    /// Lines read.
    pub lines: usize,
    /// Bytes.
    pub bytes: u64,
    /// Characters, in the unit the mode selects.
    pub chars: usize,
    /// Length of the widest line, its terminator left out.
    pub max_line_len: usize,
}

impl View for Counts {
    type V = Totals;

    open spec fn view(&self) -> Totals {
        Totals {
            lines: self.lines as nat,
            words: self.words as nat,
            bytes: self.bytes as nat,
            chars: self.chars as nat,
            max_line_len: self.max_line_len as nat,
        }
    }
}

impl Default for Counts {
    /// The counts of nothing.
    fn default() -> (c: Counts)
        ensures
            c@ == Totals::zero(),
    {
        Counts { words: 0, lines: 0, bytes: 0, chars: 0, max_line_len: 0 }
    }
}

impl Counts {
    /// Whether `other` can be merged into `self` with every figure still in
    /// its machine type.
    pub fn can_merge(&self, other: &Counts) -> (b: bool)
        ensures
            b == self@.merge(other@).fits(),
    {
        other.words <= usize::MAX - self.words && other.lines <= usize::MAX - self.lines
            && other.bytes <= u64::MAX - self.bytes && other.chars <= usize::MAX - self.chars
    }

    /// Merges `other` into `self`.
    pub fn merge_with(&mut self, other: &Counts)
        requires
            old(self)@.merge(other@).fits(),
        ensures
            final(self)@ == old(self)@.merge(other@),
    {
        self.words = self.words + other.words;
        self.lines = self.lines + other.lines;
        self.bytes = self.bytes + other.bytes;
        self.chars = self.chars + other.chars;
        if other.max_line_len > self.max_line_len {
            self.max_line_len = other.max_line_len;
        }
    }
}

/// The counts of many sources taken together, folded in from first to last.
pub open spec fn total(parts: Seq<Totals>) -> Totals {
    parts.fold_left(Totals::zero(), |sum: Totals, part: Totals| sum.merge(part))
}

/// The total of each group of sources, in the order of the groups.
pub open spec fn group_totals(groups: Seq<Seq<Totals>>) -> Seq<Totals> {
    groups.map_values(|group: Seq<Totals>| total(group))
}

/// Merging is commutative.
pub proof fn law_merge_commutes(a: Totals, b: Totals)
    ensures
        a.merge(b) == b.merge(a),
{
}

/// Merging is associative.
pub proof fn law_merge_associates(a: Totals, b: Totals, c: Totals)
    ensures
        a.merge(b).merge(c) == a.merge(b.merge(c)),
{
}

/// The counts of nothing are neutral on either side of a merge.
pub proof fn law_merge_zero(a: Totals)
    ensures
        Totals::zero().merge(a) == a,
        a.merge(Totals::zero()) == a,
{
}

/// Folding two counts into an empty total gives the same total in either
/// order: each sum of the two, and for the widest line the wider of the two.
pub proof fn law_merge_order(a: Totals, b: Totals)
    ensures
        Totals::zero().merge(a).merge(b) == Totals::zero().merge(b).merge(a),
        Totals::zero().merge(a).merge(b).lines == a.lines + b.lines,
        Totals::zero().merge(a).merge(b).words == a.words + b.words,
        Totals::zero().merge(a).merge(b).bytes == a.bytes + b.bytes,
        Totals::zero().merge(a).merge(b).chars == a.chars + b.chars,
        Totals::zero().merge(a).merge(b).max_line_len == vstd::math::max(
            a.max_line_len as int,
            b.max_line_len as int,
        ),
{
}

/// A merge never lowers a figure: sums only grow, and the widest line of a
/// total is at least as wide as that of each part.
pub proof fn law_merge_grows(a: Totals, b: Totals)
    ensures
        a.merge(b).lines >= a.lines,
        a.merge(b).words >= a.words,
        a.merge(b).bytes >= a.bytes,
        a.merge(b).chars >= a.chars,
        a.merge(b).max_line_len >= a.max_line_len,
        a.merge(b).max_line_len >= b.max_line_len,
        a.merge(b).fits() ==> a.fits() && b.fits(),
{
}

/// The total of a sequence followed by another is the merge of their totals.
pub proof fn law_total_concat(front: Seq<Totals>, back: Seq<Totals>)
    ensures
        total(front + back) == total(front).merge(total(back)),
    decreases back.len(),
{
    if back.len() == 0 {
        assert(front + back =~= front);
    } else {
        law_total_concat(front, back.drop_last());
        assert((front + back).drop_last() =~= front + back.drop_last());
        assert((front + back).last() == back.last());
    }
}

/// The total does not depend on the order in which sources are folded in.
pub proof fn law_total_any_order(one: Seq<Totals>, other: Seq<Totals>)
    requires
        one.to_multiset() == other.to_multiset(),
    ensures
        total(one) == total(other),
{
    let f = |sum: Totals, part: Totals| sum.merge(part);
    assert(commutative_foldl(f));
    lemma_fold_left_permutation(one, other, f, Totals::zero());
}

/// Folding each group of sources into a total of its own and then merging
/// those totals gives what folding every source in turn gives.
pub proof fn law_fold_then_reduce(groups: Seq<Seq<Totals>>)
    ensures
        total(group_totals(groups)) == total(groups.flatten()),
    decreases groups.len(),
{
    if groups.len() == 0 {
        assert(group_totals(groups) =~= Seq::<Totals>::empty());
    } else {
        let init = groups.drop_last();
        law_fold_then_reduce(init);
        assert(group_totals(groups).drop_last() =~= group_totals(init));
        assert(group_totals(groups).last() == total(groups.last()));
        init.lemma_flatten_push(groups.last());
        assert(init.push(groups.last()) =~= groups);
        law_total_concat(init.flatten(), groups.last());
    }
}

/// Two sources give the same total whichever is counted first, and that total
/// is the merge of the two.
pub proof fn law_total_of_two(a: Totals, b: Totals)
    ensures
        total(seq![a, b]) == total(seq![b, a]),
        total(seq![a, b]) == a.merge(b),
{
    law_total_concat(seq![a], seq![b]);
    law_total_concat(seq![b], seq![a]);
    assert(seq![a] + seq![b] =~= seq![a, b]);
    assert(seq![b] + seq![a] =~= seq![b, a]);
    law_total_of_one(a);
    law_total_of_one(b);
}

/// The total of a single source is its counts.
pub proof fn law_total_of_one(a: Totals)
    ensures
        total(seq![a]) == a,
{
    let f = |sum: Totals, part: Totals| sum.merge(part);
    assert(seq![a].drop_last() =~= Seq::<Totals>::empty());
    assert(seq![a].drop_last().fold_left(Totals::zero(), f) == Totals::zero());
    assert(seq![a].last() == a);
}

} // verus!
