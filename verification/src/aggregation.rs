//! The tally of a set of commits does not depend on the order in which they
//! are recorded.
use vstd::prelude::*;
use vstd::seq_lib::*;
use crate::calculator::{files_of, summaries_of, table_level, CalculatorView, ChangeView};
use crate::conventional::{
    aggregate, commit_level, conventional_commit, count_in, lemma_aggregate, lemma_bump,
    lemma_counts_are_one, ParsedView, Tally, TypeHierarchy,
};
use crate::semantic::Level;

verus! {

/// The sum, over the summaries, of the weight of what each reads as.
pub open spec fn weigh(summaries: Seq<Seq<char>>, weight: spec_fn(ParsedView) -> nat) -> nat
    decreases summaries.len(),
{
    if summaries.len() == 0 {
        0
    } else {
        weigh(summaries.drop_last(), weight) + weight(conventional_commit(summaries.last()))
    }
}

/// 1 for a conventional commit of the type, 0 for anything else.
pub open spec fn of_kind(kind: Seq<char>) -> spec_fn(ParsedView) -> nat {
    |parsed: ParsedView|
        match parsed {
            Some((found, _)) => if found == kind {
                1nat
            } else {
                0nat
            },
            None => 0nat,
        }
}

/// 1 for a conventional commit, 0 for anything else.
pub open spec fn conventional() -> spec_fn(ParsedView) -> nat {
    |parsed: ParsedView|
        if parsed is Some {
            1nat
        } else {
            0nat
        }
}

/// 1 for a commit that is marked as breaking, 0 for anything else.
pub open spec fn marked_breaking() -> spec_fn(ParsedView) -> nat {
    |parsed: ParsedView|
        match parsed {
            Some((_, breaking)) => if breaking {
                1nat
            } else {
                0nat
            },
            None => 0nat,
        }
}

/// 1 for a conventional commit at a level of at least the rank, 0 for
/// anything else.
pub open spec fn ranked_from(rank: nat) -> spec_fn(ParsedView) -> nat {
    |parsed: ParsedView|
        match parsed {
            Some((kind, breaking)) => if commit_level(kind, breaking).spec_rank() >= rank {
                1nat
            } else {
                0nat
            },
            None => 0nat,
        }
}

/// The sum without one of the summaries.
pub proof fn lemma_weigh_remove(summaries: Seq<Seq<char>>, at: int, weight: spec_fn(ParsedView) -> nat)
    requires
        0 <= at < summaries.len(),
    ensures
        weigh(summaries, weight) == weigh(summaries.remove(at), weight) + weight(
            conventional_commit(summaries[at]),
        ),
    decreases summaries.len(),
{
    let without = summaries.remove(at);
    if at == summaries.len() - 1 {
        assert(without =~= summaries.drop_last());
    } else {
        lemma_weigh_remove(summaries.drop_last(), at, weight);
        assert(without.drop_last() =~= summaries.drop_last().remove(at));
        assert(without.last() == summaries.last());
    }
}

/// The sum is the same for the same summaries in another order.
pub proof fn lemma_weigh_permutation(
    a: Seq<Seq<char>>,
    b: Seq<Seq<char>>,
    weight: spec_fn(ParsedView) -> nat,
)
    requires
        a.to_multiset() == b.to_multiset(),
    ensures
        weigh(a, weight) == weigh(b, weight),
    decreases a.len(),
{
    broadcast use group_to_multiset_ensures;

    if a.len() == 0 {
        assert(b.to_multiset().len() == 0);
        assert(b.len() == 0);
    } else {
        let x = a.last();
        assert(a.to_multiset().count(x) > 0);
        assert(b.contains(x));
        let at = choose|at: int| 0 <= at < b.len() && b[at] == x;
        assert(a.drop_last() =~= a.remove(a.len() - 1));
        assert(a.remove(a.len() - 1).to_multiset() =~= a.to_multiset().remove(x));
        assert(b.remove(at).to_multiset() =~= b.to_multiset().remove(x));
        lemma_weigh_permutation(a.drop_last(), b.remove(at), weight);
        lemma_weigh_remove(b, at, weight);
    }
}

/// The sum is above 0 where one of the summaries has a weight above 0.
pub proof fn lemma_weigh_positive(summaries: Seq<Seq<char>>, at: int, weight: spec_fn(ParsedView) -> nat)
    requires
        0 <= at < summaries.len(),
        weight(conventional_commit(summaries[at])) > 0,
    ensures
        weigh(summaries, weight) > 0,
{
    lemma_weigh_remove(summaries, at, weight);
}

/// A sum above 0 has a summary with a weight above 0.
pub proof fn lemma_weigh_witness(summaries: Seq<Seq<char>>, weight: spec_fn(ParsedView) -> nat) -> (at:
    int)
    requires
        weigh(summaries, weight) > 0,
    ensures
        0 <= at < summaries.len(),
        weight(conventional_commit(summaries[at])) > 0,
    decreases summaries.len(),
{
    if weight(conventional_commit(summaries.last())) > 0 {
        summaries.len() - 1
    } else {
        lemma_weigh_witness(summaries.drop_last(), weight)
    }
}

/// What the tally of commits holds, told without their order: each count is
/// the number of conventional commits of the type, the sum that of all
/// conventional commits; a breaking change is noted where one of them is
/// marked so; and the highest level is at least a rank where one of the
/// commits is.
pub proof fn lemma_aggregate_weighs(summaries: Seq<Seq<char>>, kind: Seq<char>, rank: nat)
    ensures
        aggregate(summaries).count(kind) == weigh(summaries, of_kind(kind)),
        aggregate(summaries).total() == weigh(summaries, conventional()),
        aggregate(summaries).breaking == (weigh(summaries, marked_breaking()) > 0),
        rank > 0 ==> (aggregate(summaries).top_rank() >= rank <==> weigh(summaries, ranked_from(rank))
            > 0),
    decreases summaries.len(),
{
    if summaries.len() > 0 {
        let before = aggregate(summaries.drop_last());
        lemma_aggregate_weighs(summaries.drop_last(), kind, rank);
        match conventional_commit(summaries.last()) {
            Some((found, breaking)) => {
                lemma_bump(before, found);
            },
            None => {},
        }
    }
}

/// A level is told by its rank.
pub proof fn lemma_rank_tells(a: Option<TypeHierarchy>, b: Option<TypeHierarchy>)
    requires
        (Tally { top_type: a, ..Tally::empty() }).top_rank() == (Tally {
            top_type: b,
            ..Tally::empty()
        }).top_rank(),
    ensures
        a == b,
{
}

/// Order independence: the same commits, recorded in another order, give
/// the same counts, type for type, the same number of commits of all types,
/// the same breaking flag and the same highest level.
pub proof fn lemma_order_independent(a: Seq<Seq<char>>, b: Seq<Seq<char>>)
    requires
        a.to_multiset() == b.to_multiset(),
    ensures
        forall|kind: Seq<char>| #[trigger] aggregate(a).count(kind) == aggregate(b).count(kind),
        aggregate(a).counts == aggregate(b).counts,
        aggregate(a).counts_map() == aggregate(b).counts_map(),
        aggregate(a).total() == aggregate(b).total(),
        aggregate(a).breaking == aggregate(b).breaking,
        aggregate(a).top_type == aggregate(b).top_type,
{
    let x = aggregate(a);
    let y = aggregate(b);
    assert forall|kind: Seq<char>| #[trigger] x.count(kind) == y.count(kind) by {
        lemma_aggregate_weighs(a, kind, 1);
        lemma_aggregate_weighs(b, kind, 1);
        lemma_weigh_permutation(a, b, of_kind(kind));
    }
    assert(x.counts_map() =~= y.counts_map());
    lemma_aggregate(a);
    lemma_aggregate(b);
    assert forall|kind: Seq<char>| #[trigger] count_in(x.counts, kind) == count_in(y.counts, kind) by {
        assert(x.count(kind) == y.count(kind));
    }
    lemma_counts_are_one(x.counts, y.counts);
    let kind = Seq::<char>::empty();
    lemma_weigh_permutation(a, b, conventional());
    lemma_weigh_permutation(a, b, marked_breaking());
    lemma_aggregate_weighs(a, kind, 1);
    lemma_aggregate_weighs(b, kind, 1);
    lemma_weigh_permutation(a, b, ranked_from(1));
    lemma_aggregate_weighs(a, kind, 2);
    lemma_aggregate_weighs(b, kind, 2);
    lemma_weigh_permutation(a, b, ranked_from(2));
    lemma_aggregate_weighs(a, kind, 3);
    lemma_aggregate_weighs(b, kind, 3);
    lemma_weigh_permutation(a, b, ranked_from(3));
    lemma_aggregate_weighs(a, kind, 4);
    lemma_aggregate_weighs(b, kind, 4);
    lemma_weigh_permutation(a, b, ranked_from(4));
    assert(x.top_rank() == y.top_rank());
    lemma_rank_tells(x.top_type, y.top_type);
}

/// The highest level of a tally of commits is the maximum of their levels:
/// none where no summary reads as a conventional commit, else the level of
/// one of the commits, and no commit is at a higher level.
pub proof fn lemma_top_type_is_maximum(summaries: Seq<Seq<char>>)
    ensures
        match aggregate(summaries).top_type {
            Some(top) => (exists|i: int|
                0 <= i < summaries.len() && (conventional_commit(
                    #[trigger] summaries[i],
                ) matches Some((kind, breaking)) && commit_level(kind, breaking) == top))
                && forall|j: int|
                0 <= j < summaries.len() ==> (conventional_commit(
                    #[trigger] summaries[j],
                ) matches Some((kind, breaking)) ==> commit_level(kind, breaking).spec_rank()
                    <= top.spec_rank()),
            None => forall|j: int|
                0 <= j < summaries.len() ==> conventional_commit(#[trigger] summaries[j]) is None,
        },
{
    let tally = aggregate(summaries);
    let kind = Seq::<char>::empty();
    match tally.top_type {
        Some(top) => {
            let rank = top.spec_rank();
            lemma_aggregate_weighs(summaries, kind, rank);
            let at = lemma_weigh_witness(summaries, ranked_from(rank));
            assert forall|j: int| 0 <= j < summaries.len() implies (conventional_commit(
                #[trigger] summaries[j],
            ) matches Some((k, b)) ==> commit_level(k, b).spec_rank() <= rank) by {
                match conventional_commit(summaries[j]) {
                    Some((k, b)) => {
                        let other = commit_level(k, b).spec_rank();
                        if other > rank {
                            lemma_weigh_positive(summaries, j, ranked_from(other));
                            lemma_aggregate_weighs(summaries, kind, other);
                        }
                    },
                    None => {},
                }
            }
            let (k, b) = conventional_commit(summaries[at])->0;
            assert(commit_level(k, b).spec_rank() == rank);
            assert(commit_level(k, b) == top);
        },
        None => {
            lemma_aggregate_weighs(summaries, kind, 1);
            assert forall|j: int| 0 <= j < summaries.len() implies conventional_commit(
                #[trigger] summaries[j],
            ) is None by {
                if conventional_commit(summaries[j]) is Some {
                    lemma_weigh_positive(summaries, j, ranked_from(1));
                }
            }
        },
    }
}

/// A breaking change wins: where one of the commits is marked as breaking,
/// the commits ask for the major level, whatever else is among them.
pub proof fn lemma_breaking_wins(summaries: Seq<Seq<char>>, at: int)
    requires
        0 <= at < summaries.len(),
        conventional_commit(summaries[at]) matches Some((_, breaking)) && breaking,
    ensures
        aggregate(summaries).breaking,
        aggregate(summaries).top_type == Some(TypeHierarchy::Breaking),
        table_level(aggregate(summaries)) == Level::Major,
{
    let kind = Seq::<char>::empty();
    lemma_weigh_positive(summaries, at, marked_breaking());
    lemma_weigh_positive(summaries, at, ranked_from(4));
    lemma_aggregate_weighs(summaries, kind, 4);
}

/// The summaries of commits are those of the commits without one of them,
/// and the summary of that one where it has one.
pub proof fn lemma_summaries_remove(changes: Seq<ChangeView>, at: int)
    requires
        0 <= at < changes.len(),
    ensures
        summaries_of(changes).to_multiset() == (match changes[at].summary {
            Some(text) => summaries_of(changes.remove(at)).to_multiset().insert(text),
            None => summaries_of(changes.remove(at)).to_multiset(),
        }),
    decreases changes.len(),
{
    broadcast use group_to_multiset_ensures;

    let without = changes.remove(at);
    let init = changes.drop_last();
    if at == changes.len() - 1 {
        assert(without =~= init);
    } else {
        lemma_summaries_remove(init, at);
        assert(without.drop_last() =~= init.remove(at));
        assert(without.last() == changes.last());
        match (changes[at].summary, changes.last().summary) {
            (Some(text), Some(last)) => {
                assert(summaries_of(changes).to_multiset() =~= summaries_of(
                    without,
                ).to_multiset().insert(text));
            },
            _ => {},
        }
    }
}

/// The same commits in another order have the same summaries, in another
/// order.
pub proof fn lemma_summaries_permutation(a: Seq<ChangeView>, b: Seq<ChangeView>)
    requires
        a.to_multiset() == b.to_multiset(),
    ensures
        summaries_of(a).to_multiset() == summaries_of(b).to_multiset(),
    decreases a.len(),
{
    broadcast use group_to_multiset_ensures;

    if a.len() == 0 {
        assert(b.to_multiset().len() == 0);
        assert(b.len() == 0);
    } else {
        let x = a.last();
        assert(a.to_multiset().count(x) > 0);
        assert(b.contains(x));
        let at = choose|at: int| 0 <= at < b.len() && b[at] == x;
        assert(a.drop_last() =~= a.remove(a.len() - 1));
        assert(a.remove(a.len() - 1).to_multiset() =~= a.to_multiset().remove(x));
        assert(b.remove(at).to_multiset() =~= b.to_multiset().remove(x));
        lemma_summaries_permutation(a.drop_last(), b.remove(at));
        lemma_summaries_remove(a, a.len() - 1);
        lemma_summaries_remove(b, at);
    }
}

/// The walk through the commits does not depend on their order: the same
/// commits, walked newest first or oldest first or in any other order, give
/// the same counts, the same breaking flag, the same highest level and the
/// same changed files.
pub proof fn lemma_walk_order_independent(
    calculator: CalculatorView,
    a: Seq<ChangeView>,
    b: Seq<ChangeView>,
)
    requires
        a.to_multiset() == b.to_multiset(),
    ensures
        calculator.walked(a).conventional->0.counts == calculator.walked(b).conventional->0.counts,
        calculator.walked(a).conventional->0.breaking == calculator.walked(
            b,
        ).conventional->0.breaking,
        calculator.walked(a).conventional->0.top_type == calculator.walked(
            b,
        ).conventional->0.top_type,
        calculator.walked(a).files == calculator.walked(b).files,
        calculator.walked(a).next_answer() == calculator.walked(b).next_answer(),
{
    broadcast use group_to_multiset_ensures;

    lemma_summaries_permutation(a, b);
    lemma_order_independent(summaries_of(a), summaries_of(b));
    assert forall|name: Seq<char>| files_of(a).contains(name) == files_of(b).contains(name) by {
        if files_of(a).contains(name) {
            let i = choose|i: int| 0 <= i < a.len() && (#[trigger] a[i]).files.contains(name);
            assert(a.to_multiset().count(a[i]) > 0);
            assert(b.contains(a[i]));
            let j = choose|j: int| 0 <= j < b.len() && b[j] == a[i];
            assert(b[j].files.contains(name));
        }
        if files_of(b).contains(name) {
            let i = choose|i: int| 0 <= i < b.len() && (#[trigger] b[i]).files.contains(name);
            assert(b.to_multiset().count(b[i]) > 0);
            assert(a.contains(b[i]));
            let j = choose|j: int| 0 <= j < a.len() && a[j] == b[i];
            assert(a[j].files.contains(name));
        }
    }
    assert(files_of(a) =~= files_of(b));
}

} // verus!
