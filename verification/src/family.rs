//! The handles on one allocation, seen through their shares: what splitting
//! and merging do to the family as a whole.

use crate::share::Share;
use vstd::arithmetic::mul::{lemma_mul_basics, lemma_mul_is_distributive_add_other_way};
use vstd::arithmetic::power2::{lemma2_to64, lemma_pow2_adds, lemma_pow2_pos, lemma_pow2_unfold, pow2};
use vstd::prelude::*;

verus! {

/// All shares of the family together, counted in pieces of `1 / 2^depth`.
pub open spec fn total_units(family: Seq<Share>, depth: nat) -> nat
    decreases family.len(),
{
    if family.len() == 0 {
        0
    } else {
        total_units(family.drop_last(), depth) + family.last().units(depth)
    }
}

/// Whether every share of the family is a whole number of pieces of
/// `1 / 2^depth`.
pub open spec fn within_depth(family: Seq<Share>, depth: nat) -> bool {
    forall|i: int| 0 <= i < family.len() ==> (#[trigger] family[i]).exponent <= depth
}

/// Whether every share of the family is valid.
pub open spec fn all_valid(family: Seq<Share>) -> bool {
    forall|i: int| 0 <= i < family.len() ==> (#[trigger] family[i]).valid()
}

/// Whether the shares of the family, counted at `depth`, are exactly one
/// whole.
pub open spec fn conserved_at(family: Seq<Share>, depth: nat) -> bool {
    within_depth(family, depth) && total_units(family, depth) == pow2(depth)
}

/// Whether the shares of the family add up to exactly one whole.
pub open spec fn conserved(family: Seq<Share>) -> bool {
    exists|depth: nat| conserved_at(family, depth)
}

/// The family after the member at `at` was split: the member keeps one half,
/// and the other half joins the family.
pub open spec fn after_split(family: Seq<Share>, at: int) -> Seq<Share> {
    family.update(at, family[at].half()).push(family[at].half())
}

/// The family after the member at `from` was merged into the member at
/// `into`, which now holds `sum`.
pub open spec fn after_merge(family: Seq<Share>, into: int, from: int, sum: Share) -> Seq<Share> {
    family.update(into, sum).remove(from)
}

proof fn lemma_total_push(family: Seq<Share>, share: Share, depth: nat)
    ensures
        total_units(family.push(share), depth) == total_units(family, depth) + share.units(depth),
{
    assert(family.push(share).drop_last() =~= family);
}

proof fn lemma_total_update(family: Seq<Share>, at: int, share: Share, depth: nat)
    requires
        0 <= at < family.len(),
    ensures
        total_units(family.update(at, share), depth) + family[at].units(depth) == total_units(
            family,
            depth,
        ) + share.units(depth),
    decreases family.len(),
{
    if at == family.len() - 1 {
        assert(family.update(at, share).drop_last() =~= family.drop_last());
    } else {
        assert(family.update(at, share).drop_last() =~= family.drop_last().update(at, share));
        lemma_total_update(family.drop_last(), at, share, depth);
    }
}

proof fn lemma_total_remove(family: Seq<Share>, at: int, depth: nat)
    requires
        0 <= at < family.len(),
    ensures
        total_units(family.remove(at), depth) + family[at].units(depth) == total_units(
            family,
            depth,
        ),
    decreases family.len(),
{
    if at == family.len() - 1 {
        assert(family.remove(at) =~= family.drop_last());
    } else {
        assert(family.remove(at).drop_last() =~= family.drop_last().remove(at));
        lemma_total_remove(family.drop_last(), at, depth);
    }
}

proof fn lemma_total_deeper(family: Seq<Share>, depth: nat, extra: nat)
    requires
        within_depth(family, depth),
    ensures
        total_units(family, depth + extra) == total_units(family, depth) * pow2(extra),
    decreases family.len(),
{
    if family.len() == 0 {
        lemma_mul_basics(pow2(extra) as int);
    } else {
        let rest = family.drop_last();
        let last = family.last();
        lemma_total_deeper(rest, depth, extra);
        last.lemma_units_deeper(depth, extra);
        lemma_mul_is_distributive_add_other_way(
            pow2(extra) as int,
            total_units(rest, depth) as int,
            last.units(depth) as int,
        );
    }
}

proof fn lemma_total_counts(family: Seq<Share>, depth: nat)
    requires
        within_depth(family, depth),
        all_valid(family),
    ensures
        total_units(family, depth) >= family.len(),
    decreases family.len(),
{
    if family.len() > 0 {
        let last = family.last();
        lemma_total_counts(family.drop_last(), depth);
        lemma_pow2_pos((depth - last.exponent) as nat);
        let scale = pow2((depth - last.exponent) as nat);
        assert(last.numerator * scale >= 1) by (nonlinear_arith)
            requires
                last.numerator >= 1,
                scale >= 1,
        ;
    }
}

/// A family stays one whole when it is counted in finer pieces.
pub proof fn lemma_conserved_deeper(family: Seq<Share>, depth: nat, extra: nat)
    requires
        conserved_at(family, depth),
    ensures
        conserved_at(family, depth + extra),
{
    lemma_total_deeper(family, depth, extra);
    lemma_pow2_adds(depth, extra);
}

/// Whether a family is one whole does not depend on the depth at which it
/// is counted.
pub proof fn lemma_conserved_at_any_depth(family: Seq<Share>, depth: nat)
    requires
        conserved(family),
        within_depth(family, depth),
    ensures
        conserved_at(family, depth),
{
    let known = choose|known: nat| conserved_at(family, known);
    if known <= depth {
        lemma_conserved_deeper(family, known, (depth - known) as nat);
    } else {
        let extra = (known - depth) as nat;
        lemma_total_deeper(family, depth, extra);
        lemma_pow2_adds(depth, extra);
        lemma_pow2_pos(extra);
        let total = total_units(family, depth);
        let top = pow2(depth);
        let scale = pow2(extra);
        assert(total == top) by (nonlinear_arith)
            requires
                total * scale == top * scale,
                scale >= 1,
        ;
    }
}

/// The handle that `new` returns is a family of its own, and conserved.
pub proof fn lemma_fresh_family_is_conserved()
    ensures
        conserved(seq![Share::whole()]),
{
    let family = seq![Share::whole()];
    lemma2_to64();
    lemma_mul_basics(1);
    assert(family.drop_last() =~= Seq::<Share>::empty());
    assert(total_units(family.drop_last(), 0) == 0);
    assert(conserved_at(family, 0));
}

/// Splitting any member of a conserved family leaves a conserved family
/// with one member more.
pub proof fn lemma_split_conserves(family: Seq<Share>, at: int)
    requires
        conserved(family),
        0 <= at < family.len(),
    ensures
        conserved(after_split(family, at)),
        after_split(family, at).len() == family.len() + 1,
{
    let known = choose|known: nat| conserved_at(family, known);
    let depth = known + 1;
    lemma_conserved_deeper(family, known, 1);
    let member = family[at];
    let half = member.half();
    let halved = family.update(at, half);
    lemma_total_update(family, at, half, depth);
    lemma_total_push(halved, half, depth);
    assert(half.units(depth) + half.units(depth) == member.units(depth)) by {
        let rest = pow2((depth - half.exponent) as nat);
        lemma_pow2_unfold((depth - member.exponent) as nat);
        assert(member.numerator * (2 * rest) == member.numerator * rest + member.numerator * rest)
            by (nonlinear_arith);
    }
    assert(conserved_at(after_split(family, at), depth));
}

/// Any two members of a conserved family can be merged as far as their sum
/// goes: together they are at most one whole.
pub proof fn lemma_members_fit(family: Seq<Share>, into: int, from: int)
    requires
        conserved(family),
        0 <= into < family.len(),
        0 <= from < family.len(),
        into != from,
    ensures
        family[into].fits_with(family[from]),
{
    let depth = choose|depth: nat| conserved_at(family, depth);
    let a = family[into];
    let b = family[from];
    let common = a.common_depth(b);
    let extra = (depth - common) as nat;
    lemma_pair_within_total(family, into, from, depth);
    a.lemma_units_deeper(common, extra);
    b.lemma_units_deeper(common, extra);
    lemma_pow2_adds(common, extra);
    lemma_pow2_pos(extra);
    let joint = a.joint_units(b);
    let top = pow2(common);
    let scale = pow2(extra);
    assert(a.units(common) * scale + b.units(common) * scale == joint * scale)
        by (nonlinear_arith)
        requires
            joint == a.units(common) + b.units(common),
    ;
    assert(joint <= top) by (nonlinear_arith)
        requires
            joint * scale <= top * scale,
            scale >= 1,
    ;
}

proof fn lemma_pair_within_total(family: Seq<Share>, first: int, second: int, depth: nat)
    requires
        0 <= first < family.len(),
        0 <= second < family.len(),
        first != second,
    ensures
        family[first].units(depth) + family[second].units(depth) <= total_units(family, depth),
{
    lemma_total_remove(family, first, depth);
    let rest = family.remove(first);
    let moved = if second < first {
        second
    } else {
        second - 1
    };
    assert(rest[moved] == family[second]);
    lemma_total_remove(rest, moved, depth);
}

/// Merging one member of a conserved family into another leaves a conserved
/// family with one member fewer.
pub proof fn lemma_merge_conserves(family: Seq<Share>, into: int, from: int, sum: Share)
    requires
        conserved(family),
        0 <= into < family.len(),
        0 <= from < family.len(),
        into != from,
        sum.is_sum_of(family[into], family[from]),
    ensures
        conserved(after_merge(family, into, from, sum)),
        after_merge(family, into, from, sum).len() == family.len() - 1,
{
    let depth = choose|depth: nat| conserved_at(family, depth);
    let a = family[into];
    let b = family[from];
    let common = a.common_depth(b);
    let extra = (depth - common) as nat;
    a.lemma_units_deeper(common, extra);
    b.lemma_units_deeper(common, extra);
    sum.lemma_units_deeper(common, extra);
    let scale = pow2(extra);
    assert(sum.units(depth) == a.units(depth) + b.units(depth)) by (nonlinear_arith)
        requires
            sum.units(common) == a.units(common) + b.units(common),
            sum.units(depth) == sum.units(common) * scale,
            a.units(depth) == a.units(common) * scale,
            b.units(depth) == b.units(common) * scale,
    ;
    let summed = family.update(into, sum);
    lemma_total_update(family, into, sum, depth);
    lemma_total_remove(summed, from, depth);
    assert(summed[from] == b);
    let merged = after_merge(family, into, from, sum);
    assert forall|i: int| 0 <= i < merged.len() implies (#[trigger] merged[i]).exponent <= depth by {
        if i < from {
            assert(merged[i] == summed[i]);
        } else {
            assert(merged[i] == summed[i + 1]);
        }
    }
    assert(conserved_at(merged, depth));
}

/// In a conserved family a whole share has no siblings: once a handle is
/// whole, no other handle on the allocation is left.
pub proof fn lemma_whole_is_alone(family: Seq<Share>, at: int)
    requires
        conserved(family),
        all_valid(family),
        0 <= at < family.len(),
        family[at].is_whole(),
    ensures
        family.len() == 1,
{
    let depth = choose|depth: nat| conserved_at(family, depth);
    lemma_total_remove(family, at, depth);
    lemma_mul_basics(pow2(depth) as int);
    let others = family.remove(at);
    assert forall|i: int| 0 <= i < others.len() implies (#[trigger] others[i]).exponent <= depth
        && others[i].valid() by {
        if i < at {
            assert(others[i] == family[i]);
        } else {
            assert(others[i] == family[i + 1]);
        }
    }
    lemma_total_counts(others, depth);
}

/// One call on a family of handles.
pub enum Step {
    /// The member at `at` is split.
    Split { at: int },
    /// The member at `from` is merged into the member at `into`, which then
    /// holds `sum`.
    Merge { into: int, from: int, sum: Share },
}

/// Whether `step` can be taken on `family`: it names members of the family,
/// and a merge names two of them and their sum.
pub open spec fn allowed(family: Seq<Share>, step: Step) -> bool {
    match step {
        Step::Split { at } => 0 <= at < family.len(),
        Step::Merge { into, from, sum } => {
            &&& 0 <= into < family.len()
            &&& 0 <= from < family.len()
            &&& into != from
            &&& sum.is_sum_of(family[into], family[from])
        },
    }
}

/// The family after `step`.
pub open spec fn after(family: Seq<Share>, step: Step) -> Seq<Share> {
    match step {
        Step::Split { at } => after_split(family, at),
        Step::Merge { into, from, sum } => after_merge(family, into, from, sum),
    }
}

/// The family that `history` makes of one fresh handle.
pub open spec fn reached(history: Seq<Step>) -> Seq<Share>
    decreases history.len(),
{
    if history.len() == 0 {
        seq![Share::whole()]
    } else {
        after(reached(history.drop_last()), history.last())
    }
}

/// Whether each step of `history` can be taken when its turn comes.
pub open spec fn lawful(history: Seq<Step>) -> bool
    decreases history.len(),
{
    history.len() == 0 || (lawful(history.drop_last()) && allowed(
        reached(history.drop_last()),
        history.last(),
    ))
}

/// Whatever splits and merges are made from one fresh handle, the shares of
/// the handles that exist add up to exactly one whole, and each of them is a
/// valid share.
pub proof fn lemma_history_conserves(history: Seq<Step>)
    requires
        lawful(history),
    ensures
        conserved(reached(history)),
        all_valid(reached(history)),
        reached(history).len() >= 1,
    decreases history.len(),
{
    if history.len() == 0 {
        lemma_fresh_family_is_conserved();
        lemma2_to64();
    } else {
        let family = reached(history.drop_last());
        lemma_history_conserves(history.drop_last());
        let next = reached(history);
        match history.last() {
            Step::Split { at } => {
                lemma_split_conserves(family, at);
                family[at].lemma_halves_sum();
                assert forall|i: int| 0 <= i < next.len() implies (#[trigger] next[i]).valid() by {
                    if i != at && i < family.len() {
                        assert(next[i] == family[i]);
                    }
                }
            },
            Step::Merge { into, from, sum } => {
                lemma_merge_conserves(family, into, from, sum);
                lemma_members_fit(family, into, from);
                sum.lemma_sum_valid(family[into], family[from]);
                let summed = family.update(into, sum);
                assert forall|i: int| 0 <= i < next.len() implies (#[trigger] next[i]).valid() by {
                    let j = if i < from {
                        i
                    } else {
                        i + 1
                    };
                    assert(next[i] == summed[j]);
                    if j != into {
                        assert(summed[j] == family[j]);
                    }
                }
            },
        }
    }
}

} // verus!
