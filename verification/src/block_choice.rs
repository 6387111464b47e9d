//! Choice of the one block per deployment at which indexers are compared.

use crate::types::{IndexingStatus, IndexingStatusView};
use vstd::prelude::*;

verus! {

/// A share of the indexers of a deployment, as a fraction.
#[derive(Debug, Clone, Copy, PartialEq, Eq)]
pub struct Threshold {
    pub numerator: u32,
    pub denominator: u32,
}

impl Threshold {
    /// A proper share: more than none, and no more than all.
    pub open spec fn wf(self) -> bool {
        0 < self.numerator <= self.denominator
    }

    /// The share that only all indexers together reach.
    pub fn all() -> (t: Threshold)
        ensures
            t.wf(),
            t.numerator == 1,
            t.denominator == 1,
    {
        Threshold { numerator: 1, denominator: 1 }
    }

    /// The share `numerator / denominator`, where that is a proper share.
    pub fn new(numerator: u32, denominator: u32) -> (res: Option<Threshold>)
        ensures
            res is Some <==> 0 < numerator <= denominator,
            res matches Some(t) ==> t.numerator == numerator && t.denominator == denominator
                && t.wf(),
    {
        if 0 < numerator && numerator <= denominator {
            Some(Threshold { numerator, denominator })
        } else {
            None
        }
    }
}

/// How the block to compare at is chosen from what the indexers have reached.
#[derive(Debug, Clone, Copy, PartialEq, Eq)]
pub enum BlockChoicePolicy {
    /// The highest block that any indexer has reached.
    MaxSynced,
    /// The highest block that at least the given share of indexers has reached.
    CommonTip(Threshold),
}

/// How many of `numbers` are at or above `n`.
pub open spec fn support(numbers: Seq<u64>, n: int) -> nat
    decreases numbers.len(),
{
    if numbers.len() == 0 {
        0
    } else {
        support(numbers.drop_last(), n) + if numbers.last() >= n {
            1nat
        } else {
            0nat
        }
    }
}

/// Whether at least the share `t` of `numbers` is at or above `n`.
pub open spec fn reached_by_share(numbers: Seq<u64>, t: Threshold, n: int) -> bool {
    support(numbers, n) * t.denominator >= t.numerator * numbers.len()
}

/// Whether `n` is one of `numbers` that `policy` admits as a block to compare at.
pub open spec fn admits(policy: BlockChoicePolicy, numbers: Seq<u64>, n: u64) -> bool {
    numbers.contains(n) && match policy {
        BlockChoicePolicy::MaxSynced => true,
        BlockChoicePolicy::CommonTip(t) => reached_by_share(numbers, t, n as int),
    }
}

/// Whether `choice` is what `policy` picks among the latest blocks `numbers`:
/// the highest admitted block, or nothing where no block is admitted.
pub open spec fn is_choice(policy: BlockChoicePolicy, numbers: Seq<u64>, choice: Option<u64>) -> bool {
    match choice {
        Some(n) => admits(policy, numbers, n) && forall|m: u64|
            admits(policy, numbers, m) ==> m <= n,
        None => forall|m: u64| !admits(policy, numbers, m),
    }
}

/// What `policy` picks among the latest blocks `numbers`.
pub open spec fn chosen_block(policy: BlockChoicePolicy, numbers: Seq<u64>) -> Option<u64> {
    choose|choice: Option<u64>| is_choice(policy, numbers, choice)
}

/// The latest block numbers of `statuses`, in order.
pub open spec fn latest_numbers(statuses: Seq<IndexingStatusView>) -> Seq<u64> {
    statuses.map_values(|s: IndexingStatusView| s.latest_block.number)
}

/// The views of `statuses`, in order.
pub open spec fn status_views(statuses: Seq<IndexingStatus>) -> Seq<IndexingStatusView> {
    statuses.map_values(|s: IndexingStatus| s@)
}

/// A number that occurs is counted by `support` at its own height.
pub proof fn lemma_support_of_member(numbers: Seq<u64>, i: int, n: int)
    requires
        0 <= i < numbers.len(),
        numbers[i] >= n,
    ensures
        support(numbers, n) >= 1,
    decreases numbers.len(),
{
    if i < numbers.len() - 1 {
        lemma_support_of_member(numbers.drop_last(), i, n);
    }
}

/// Where every number at or above `n` in `a` has its counterpart in `b` at
/// or above `m`, `b` has at least as much support at `m` as `a` has at `n`.
pub proof fn lemma_support_transfers(a: Seq<u64>, n: int, b: Seq<u64>, m: int)
    requires
        a.len() == b.len(),
        forall|i: int| 0 <= i < a.len() && a[i] >= n ==> b[i] >= m,
    ensures
        support(a, n) <= support(b, m),
    decreases a.len(),
{
    if a.len() > 0 {
        lemma_support_transfers(a.drop_last(), n, b.drop_last(), m);
    }
}

/// The lowest of `numbers` that is at or above `n`, among the first `upto`.
spec fn lowest_from(numbers: Seq<u64>, n: int, upto: nat) -> Option<u64>
    decreases upto,
{
    if upto == 0 {
        None
    } else {
        let before = lowest_from(numbers, n, (upto - 1) as nat);
        let c = numbers[upto - 1];
        if c >= n && (before is None || c < before.unwrap()) {
            Some(c)
        } else {
            before
        }
    }
}

proof fn lemma_lowest_from(numbers: Seq<u64>, n: int, upto: nat)
    requires
        upto <= numbers.len(),
    ensures
        match lowest_from(numbers, n, upto) {
            Some(c) => c >= n && (exists|i: int| 0 <= i < upto && numbers[i] == c) && forall|
                i: int,
            |
                0 <= i < upto && numbers[i] >= n ==> numbers[i] >= c,
            None => forall|i: int| 0 <= i < upto ==> numbers[i] < n,
        },
    decreases upto,
{
    if upto > 0 {
        lemma_lowest_from(numbers, n, (upto - 1) as nat);
        let before = lowest_from(numbers, n, (upto - 1) as nat);
        let c = numbers[upto - 1];
        if c >= n && (before is None || c < before.unwrap()) {
            assert(numbers[upto - 1] == c);
        } else if before is Some {
            let w = choose|i: int| 0 <= i < upto - 1 && numbers[i] == before.unwrap();
            assert(0 <= w < upto && numbers[w] == before.unwrap());
        }
    }
}

/// A height that has support is matched by one of the numbers themselves:
/// some number at or above it has the same support.
pub proof fn lemma_support_attained(numbers: Seq<u64>, n: int)
    requires
        support(numbers, n) >= 1,
    ensures
        exists|c: u64| numbers.contains(c) && c >= n && support(numbers, c as int) == support(numbers, n),
{
    lemma_lowest_from(numbers, n, numbers.len());
    match lowest_from(numbers, n, numbers.len()) {
        Some(c) => {
            lemma_support_transfers(numbers, n, numbers, c as int);
            lemma_support_transfers(numbers, c as int, numbers, n);
            let w = choose|i: int| 0 <= i < numbers.len() && numbers[i] == c;
            assert(numbers[w] == c);
            assert(numbers.contains(c));
        },
        None => {
            lemma_no_support(numbers, n);
        },
    }
}

/// Numbers that all lie below `n` give `n` no support.
pub proof fn lemma_no_support(numbers: Seq<u64>, n: int)
    requires
        forall|i: int| 0 <= i < numbers.len() ==> numbers[i] < n,
    ensures
        support(numbers, n) == 0,
    decreases numbers.len(),
{
    if numbers.len() > 0 {
        lemma_no_support(numbers.drop_last(), n);
    }
}

/// The highest admitted number among the first `upto`.
spec fn highest_admitted(policy: BlockChoicePolicy, numbers: Seq<u64>, upto: nat) -> Option<u64>
    decreases upto,
{
    if upto == 0 {
        None
    } else {
        let before = highest_admitted(policy, numbers, (upto - 1) as nat);
        let c = numbers[upto - 1];
        if admits(policy, numbers, c) && (before is None || before.unwrap() < c) {
            Some(c)
        } else {
            before
        }
    }
}

proof fn lemma_highest_admitted(policy: BlockChoicePolicy, numbers: Seq<u64>, upto: nat)
    requires
        upto <= numbers.len(),
    ensures
        match highest_admitted(policy, numbers, upto) {
            Some(c) => admits(policy, numbers, c) && forall|i: int|
                0 <= i < upto && admits(policy, numbers, numbers[i]) ==> numbers[i] <= c,
            None => forall|i: int| 0 <= i < upto ==> !admits(policy, numbers, numbers[i]),
        },
    decreases upto,
{
    if upto > 0 {
        lemma_highest_admitted(policy, numbers, (upto - 1) as nat);
    }
}

/// Every list of latest blocks has exactly one choice under each policy.
pub proof fn lemma_choice_exists(policy: BlockChoicePolicy, numbers: Seq<u64>) -> (choice: Option<
    u64,
>)
    ensures
        is_choice(policy, numbers, choice),
        forall|other: Option<u64>| is_choice(policy, numbers, other) ==> other == choice,
        chosen_block(policy, numbers) == choice,
{
    lemma_highest_admitted(policy, numbers, numbers.len());
    let choice = highest_admitted(policy, numbers, numbers.len());
    assert forall|m: u64| admits(policy, numbers, m) implies match choice {
        Some(c) => m <= c,
        None => false,
    } by {
        let i = choose|i: int| 0 <= i < numbers.len() && numbers[i] == m;
        assert(admits(policy, numbers, numbers[i]));
    }
    choice
}

/// Under a proper share, the common tip is the highest block of all, seen
/// or not, that the share of indexers has reached.
pub proof fn lemma_common_tip_is_highest_reached(numbers: Seq<u64>, t: Threshold, n: u64, m: int)
    requires
        t.wf(),
        numbers.len() > 0,
        is_choice(BlockChoicePolicy::CommonTip(t), numbers, Some(n)),
        reached_by_share(numbers, t, m),
    ensures
        m <= n,
{
    assert(support(numbers, m) >= 1) by {
        if support(numbers, m) == 0 {
            assert(t.numerator * numbers.len() > 0) by (nonlinear_arith)
                requires
                    t.numerator > 0,
                    numbers.len() > 0,
            ;
        }
    }
    lemma_support_attained(numbers, m);
    let c = choose|c: u64|
        numbers.contains(c) && c >= m && support(numbers, c as int) == support(numbers, m);
    assert(admits(BlockChoicePolicy::CommonTip(t), numbers, c));
}

/// When every indexer advances by at least `delta` blocks, the common tip
/// advances by at least `delta` too.
pub proof fn lemma_common_tip_monotonic(
    before: Seq<u64>,
    after: Seq<u64>,
    t: Threshold,
    delta: nat,
    tip: u64,
) -> (new_tip: u64)
    requires
        before.len() == after.len(),
        forall|i: int| 0 <= i < before.len() ==> after[i] >= before[i] + delta,
        is_choice(BlockChoicePolicy::CommonTip(t), before, Some(tip)),
    ensures
        is_choice(BlockChoicePolicy::CommonTip(t), after, Some(new_tip)),
        new_tip >= tip + delta,
{
    let policy = BlockChoicePolicy::CommonTip(t);
    let target = tip + delta;
    lemma_support_transfers(before, tip as int, after, target);
    let i = choose|i: int| 0 <= i < before.len() && before[i] == tip;
    lemma_support_of_member(after, i, target);
    lemma_support_attained(after, target);
    let c = choose|c: u64|
        after.contains(c) && c >= target && support(after, c as int) == support(after, target);
    assert(reached_by_share(after, t, c as int)) by {
        let s_before = support(before, tip as int);
        let s_after = support(after, c as int);
        assert(s_before <= s_after);
        assert(s_before * t.denominator <= s_after * t.denominator) by (nonlinear_arith)
            requires
                s_before <= s_after,
                t.denominator >= 0,
        ;
    }
    assert(admits(policy, after, c));
    let choice = lemma_choice_exists(policy, after);
    choice.unwrap()
}

impl BlockChoicePolicy {
    /// The policy used where none is configured: the block that all
    /// indexers of the deployment have reached.
    pub fn default_policy() -> (policy: BlockChoicePolicy)
        ensures
            policy == BlockChoicePolicy::CommonTip(Threshold { numerator: 1, denominator: 1 }),
    {
        BlockChoicePolicy::CommonTip(Threshold::all())
    }

    /// Whether this policy admits the block `n` given the latest blocks `numbers`.
    fn admits_number(&self, numbers: &Vec<u64>, n: u64) -> (ok: bool)
        requires
            numbers@.contains(n),
        ensures
            ok == admits(*self, numbers@, n),
    {
        match self {
            BlockChoicePolicy::MaxSynced => true,
            BlockChoicePolicy::CommonTip(t) => {
                let mut count: usize = 0;
                let mut i: usize = 0;
                while i < numbers.len()
                    invariant
                        i <= numbers@.len(),
                        count == support(numbers@.take(i as int), n as int),
                        count <= i,
                    decreases numbers@.len() - i,
                {
                    assert(numbers@.take(i + 1).drop_last() =~= numbers@.take(i as int));
                    if numbers[i] >= n {
                        count = count + 1;
                    }
                    i = i + 1;
                }
                assert(numbers@.take(i as int) =~= numbers@);
                assert(count * t.denominator <= u128::MAX && t.numerator * numbers@.len()
                    <= u128::MAX) by (nonlinear_arith)
                    requires
                        0 <= count <= 0xffff_ffff_ffff_ffff,
                        0 <= t.denominator <= 0xffff_ffff,
                        0 <= t.numerator <= 0xffff_ffff,
                        0 <= numbers@.len() <= 0xffff_ffff_ffff_ffff,
                ;
                let lhs: u128 = (count as u128) * (t.denominator as u128);
                let rhs: u128 = (t.numerator as u128) * (numbers.len() as u128);
                lhs >= rhs
            },
        }
    }

    /// The block to compare at, given the latest block of each indexer of
    /// one deployment: the highest of them that the policy admits.
    pub fn choose_among(&self, numbers: &Vec<u64>) -> (choice: Option<u64>)
        ensures
            is_choice(*self, numbers@, choice),
            choice == chosen_block(*self, numbers@),
    {
        let mut best: Option<u64> = None;
        let mut i: usize = 0;
        while i < numbers.len()
            invariant
                i <= numbers@.len(),
                match best {
                    Some(c) => admits(*self, numbers@, c) && forall|j: int|
                        0 <= j < i && admits(*self, numbers@, numbers@[j]) ==> numbers@[j] <= c,
                    None => forall|j: int| 0 <= j < i ==> !admits(*self, numbers@, numbers@[j]),
                },
            decreases numbers@.len() - i,
        {
            let c = numbers[i];
            assert(numbers@.contains(c));
            let higher = match best {
                Some(b) => b < c,
                None => true,
            };
            if higher && self.admits_number(numbers, c) {
                best = Some(c);
            }
            i = i + 1;
        }
        proof {
            assert forall|m: u64| admits(*self, numbers@, m) implies match best {
                Some(c) => m <= c,
                None => false,
            } by {
                let j = choose|j: int| 0 <= j < numbers@.len() && numbers@[j] == m;
                assert(admits(*self, numbers@, numbers@[j]));
            }
            lemma_choice_exists(*self, numbers@);
        }
        best
    }

    /// The block at which to compare the indexers behind `statuses`, which
    /// all report on one deployment; nothing where the policy admits none of
    /// their latest blocks, as for no statuses at all.
    pub fn choose_block(&self, statuses: &Vec<IndexingStatus>) -> (choice: Option<u64>)
        ensures
            is_choice(*self, latest_numbers(status_views(statuses@)), choice),
            choice == chosen_block(*self, latest_numbers(status_views(statuses@))),
    {
        let mut numbers: Vec<u64> = Vec::new();
        let mut i: usize = 0;
        while i < statuses.len()
            invariant
                i <= statuses@.len(),
                numbers@ == latest_numbers(status_views(statuses@)).take(i as int),
            decreases statuses@.len() - i,
        {
            numbers.push(statuses[i].latest_block.number);
            proof {
                let all = latest_numbers(status_views(statuses@));
                assert(all[i as int] == statuses@[i as int].latest_block.number);
                assert(numbers@ =~= all.take(i + 1));
            }
            i = i + 1;
        }
        assert(numbers@ =~= latest_numbers(status_views(statuses@)));
        self.choose_among(&numbers)
    }
}

} // verus!
