//! The bisection of a divergence: a binary search over block numbers for
//! the first block at which two indexers disagree.
//!
//! The search itself asks nothing of anybody. It is a state machine: the
//! caller holds a [`BisectionRun`], asks both indexers for the block that
//! the run wants probed, and hands the answer to [`BisectionRun::advance`],
//! which says what to do next. A run ends in a confirmed diverging block or
//! in a failure.

use crate::types::{BlockPointer, Bytes32, DivergingBlock};
use vstd::prelude::*;

verus! {

/// What came of asking both indexers for their proof of indexing at a block.
#[derive(Debug, Clone, Copy)]
pub enum ProbeResult {
    /// Both answered, with these digests for the block with this hash.
    Answered { hash: Option<Bytes32>, poi1: Bytes32, poi2: Bytes32 },
    /// A call failed or returned nothing.
    Unavailable,
    /// The indexers report that they have not indexed the block.
    Unindexed,
}

/// What a probe showed.
#[derive(Debug, Clone, Copy, PartialEq, Eq, Structural)]
pub enum StepOutcome {
    /// Both indexers hold the same digest: the divergence lies above.
    Agreed,
    /// The digests differ: the divergence lies at or below.
    Diverged,
    /// No answer; another block was tried instead.
    Incomplete,
    /// The block is not indexed; the run was given up.
    Unindexed,
}

/// One probe of a run, for the trace in its report.
#[derive(Debug, Clone, Copy)]
pub struct BisectionStep {
    pub block_number: u64,
    pub outcome: StepOutcome,
    pub poi1: Option<Bytes32>,
    pub poi2: Option<Bytes32>,
}

/// Why a run was given up.
#[derive(Debug, Clone, Copy, PartialEq, Eq, Structural)]
pub enum BisectionFailure {
    /// Too many blocks between the bounds could not be probed.
    Gap,
    /// The indexers have not indexed a block that had to be probed.
    Unindexed,
}

/// Where a run stands.
#[derive(Debug, Clone, Copy, PartialEq, Eq, Structural)]
pub enum Phase {
    /// A block is waiting to be probed.
    Probing,
    /// The first diverging block is known.
    Confirmed,
    /// The run was given up.
    Failed(BisectionFailure),
}

/// What the caller of a run is to do next.
#[derive(Debug, Clone, Copy)]
pub enum BisectAction {
    /// Ask both indexers for their proof of indexing at this block.
    Probe(u64),
    /// Stop: this is the first diverging block.
    Confirmed(DivergingBlock),
    /// Stop: the run has failed.
    Failed(BisectionFailure),
}

/// A run as contracts see it.
pub struct RunState {
    /// The indexers are taken to agree at `lo`.
    pub lo: u64,
    /// The indexers disagree at `hi`.
    pub hi: u64,
    /// How many blocks of the current window have been tried without an answer.
    pub attempt: u64,
    /// How many probes of the run went without an answer.
    pub incompletes: u64,
    /// How many such probes the run puts up with.
    pub tolerance: u64,
    pub phase: Phase,
    /// The block at `hi`, with the digests that differ there.
    pub diverging: DivergingBlock,
    /// The hash of the block at `lo`, where a probe has shown it.
    pub lo_hash: Option<Bytes32>,
    /// The probes made so far, in order.
    pub steps: Seq<BisectionStep>,
}

/// The block in the middle of the window, rounded down.
pub open spec fn midpoint(lo: int, hi: int) -> int {
    lo + (hi - lo) / 2
}

/// The block to probe in the window from `lo` to `hi` after `attempt`
/// blocks of it went without an answer: first the midpoint, then its
/// neighbours at growing distance, the lower one first, as far as they lie
/// strictly inside the window.
pub open spec fn probe_block(lo: int, hi: int, attempt: int) -> int {
    let mid = midpoint(lo, hi);
    let distance = (attempt + 1) / 2;
    if attempt % 2 == 1 && mid - distance > lo {
        mid - distance
    } else {
        mid + distance
    }
}

/// The run after its window has changed: confirmed once the bounds are
/// neighbours, probing otherwise.
pub open spec fn settled(s: RunState) -> RunState {
    RunState {
        phase: if s.hi as int - s.lo as int <= 1 {
            Phase::Confirmed
        } else {
            Phase::Probing
        },
        attempt: 0,
        ..s
    }
}

/// The run at its start: the indexers disagree at `block` with the
/// digests `poi1` and `poi2`, and the search begins at block 1.
pub open spec fn initial_state(block: BlockPointer, poi1: Bytes32, poi2: Bytes32) -> RunState {
    settled(
        RunState {
            lo: 1,
            hi: block.number,
            attempt: 0,
            incompletes: 0,
            tolerance: if block.number >= 1 {
                (block.number - 1) as u64
            } else {
                0
            },
            phase: Phase::Probing,
            diverging: DivergingBlock { block, proof_of_indexing1: poi1, proof_of_indexing2: poi2 },
            lo_hash: None,
            steps: Seq::empty(),
        },
    )
}

impl RunState {
    /// The block that the run wants probed.
    pub open spec fn pending(self) -> int {
        probe_block(self.lo as int, self.hi as int, self.attempt as int)
    }

    /// What holds of every run: while it probes, its window has room for
    /// the block to probe; the digests at `hi` differ.
    pub open spec fn wf(self) -> bool {
        &&& self.diverging.wf()
        &&& self.diverging.block.number == self.hi
        &&& self.incompletes <= self.tolerance + 1
        &&& self.tolerance < u64::MAX
        &&& self.phase == Phase::Probing ==> {
            &&& self.hi as int - self.lo as int >= 2
            &&& self.attempt as int <= self.hi as int - self.lo as int - 2
            &&& self.incompletes <= self.tolerance
        }
        &&& self.phase == Phase::Confirmed ==> self.hi as int - self.lo as int <= 1
    }

    /// What the caller is to do in this state.
    pub open spec fn action(self) -> BisectAction {
        match self.phase {
            Phase::Probing => BisectAction::Probe(self.pending() as u64),
            Phase::Confirmed => BisectAction::Confirmed(self.diverging),
            Phase::Failed(reason) => BisectAction::Failed(reason),
        }
    }

    /// The run after the answer `result` to its pending probe. A run that
    /// has ended stays as it is.
    pub open spec fn step(self, result: ProbeResult) -> RunState {
        if self.phase != Phase::Probing {
            self
        } else {
            let block = self.pending() as u64;
            match result {
                ProbeResult::Answered { hash, poi1, poi2 } => if poi1 == poi2 {
                    settled(
                        RunState {
                            lo: block,
                            lo_hash: hash,
                            steps: self.steps.push(
                                BisectionStep {
                                    block_number: block,
                                    outcome: StepOutcome::Agreed,
                                    poi1: Some(poi1),
                                    poi2: Some(poi2),
                                },
                            ),
                            ..self
                        },
                    )
                } else {
                    settled(
                        RunState {
                            hi: block,
                            diverging: DivergingBlock {
                                block: BlockPointer { number: block, hash },
                                proof_of_indexing1: poi1,
                                proof_of_indexing2: poi2,
                            },
                            steps: self.steps.push(
                                BisectionStep {
                                    block_number: block,
                                    outcome: StepOutcome::Diverged,
                                    poi1: Some(poi1),
                                    poi2: Some(poi2),
                                },
                            ),
                            ..self
                        },
                    )
                },
                ProbeResult::Unavailable => {
                    let exhausted = self.attempt as int + 1 > self.hi as int - self.lo as int - 2
                        || self.incompletes + 1 > self.tolerance;
                    RunState {
                        attempt: if exhausted {
                            self.attempt
                        } else {
                            (self.attempt + 1) as u64
                        },
                        incompletes: (self.incompletes + 1) as u64,
                        phase: if exhausted {
                            Phase::Failed(BisectionFailure::Gap)
                        } else {
                            Phase::Probing
                        },
                        steps: self.steps.push(
                            BisectionStep {
                                block_number: block,
                                outcome: StepOutcome::Incomplete,
                                poi1: None,
                                poi2: None,
                            },
                        ),
                        ..self
                    }
                },
                ProbeResult::Unindexed => RunState {
                    phase: Phase::Failed(BisectionFailure::Unindexed),
                    steps: self.steps.push(
                        BisectionStep {
                            block_number: block,
                            outcome: StepOutcome::Unindexed,
                            poi1: None,
                            poi2: None,
                        },
                    ),
                    ..self
                },
            }
        }
    }

    /// An upper bound on the probes that the run can still make.
    pub open spec fn remaining(self) -> nat {
        if self.phase == Phase::Probing {
            ((self.hi as int - self.lo as int) + (self.tolerance as int + 1
                - self.incompletes as int)) as nat
        } else {
            0
        }
    }
}

/// The block to probe lies strictly inside the window.
pub proof fn lemma_probe_inside(lo: int, hi: int, attempt: int)
    requires
        hi - lo >= 2,
        0 <= attempt <= hi - lo - 2,
    ensures
        lo < probe_block(lo, hi, attempt) < hi,
{
}

/// Within one window no block is probed twice.
pub proof fn lemma_probe_distinct(lo: int, hi: int, a: int, b: int)
    requires
        hi - lo >= 2,
        0 <= a < b <= hi - lo - 2,
    ensures
        probe_block(lo, hi, a) != probe_block(lo, hi, b),
{
}

/// Every answer keeps a run well formed, and takes a probing run
/// strictly closer to its end: a run makes no more probes than
/// [`RunState::remaining`] says.
pub proof fn lemma_step_terminates(s: RunState, result: ProbeResult)
    requires
        s.wf(),
    ensures
        s.step(result).wf(),
        s.phase == Phase::Probing ==> s.step(result).remaining() < s.remaining(),
        s.phase == Phase::Probing ==> s.step(result).steps.len() == s.steps.len() + 1,
        s.phase != Phase::Probing ==> s.step(result) == s,
{
    if s.phase == Phase::Probing {
        lemma_probe_inside(s.lo as int, s.hi as int, s.attempt as int);
    }
}

/// A run that starts at a divergence is well formed, and makes at most
/// twice as many probes as there are blocks below the divergence.
pub proof fn lemma_initial_state(block: BlockPointer, poi1: Bytes32, poi2: Bytes32)
    requires
        poi1 != poi2,
    ensures
        initial_state(block, poi1, poi2).wf(),
        initial_state(block, poi1, poi2).remaining() <= 2 * block.number,
{
}

/// The least number of halvings that bring `n` down to one.
pub open spec fn ceil_log2(n: nat) -> nat
    decreases n,
{
    if n <= 1 {
        0
    } else {
        1 + ceil_log2((n + 1) / 2)
    }
}

/// `ceil_log2` grows with its argument.
pub proof fn lemma_ceil_log2_monotonic(a: nat, b: nat)
    requires
        a <= b,
    ensures
        ceil_log2(a) <= ceil_log2(b),
    decreases b,
{
    if a > 1 {
        lemma_ceil_log2_monotonic((a + 1) / 2, (b + 1) / 2);
    }
}

/// The answer of two indexers whose digests per block are `pa` and `pb`.
pub open spec fn stream_answer(pa: Seq<Bytes32>, pb: Seq<Bytes32>, block: int) -> ProbeResult {
    ProbeResult::Answered { hash: None, poi1: pa[block], poi2: pb[block] }
}

/// The run after `probes` further probes, each answered from the digests
/// `pa` and `pb` of the two indexers.
pub open spec fn run_on_streams(s: RunState, pa: Seq<Bytes32>, pb: Seq<Bytes32>, probes: nat) -> RunState
    decreases probes,
{
    if probes == 0 {
        s
    } else {
        run_on_streams(s.step(stream_answer(pa, pb, s.pending())), pa, pb, (probes - 1) as nat)
    }
}

/// The induction behind [`lemma_bisection_finds_first_divergence`].
proof fn lemma_run_narrows(s: RunState, pa: Seq<Bytes32>, pb: Seq<Bytes32>, k: int, probes: nat)
    requires
        s.wf(),
        s.phase != Phase::Probing ==> s.phase == Phase::Confirmed,
        s.attempt == 0,
        s.lo < k <= s.hi,
        s.hi < pa.len(),
        s.hi < pb.len(),
        forall|i: int| s.lo < i < k ==> pa[i] == pb[i],
        forall|i: int| k <= i <= s.hi ==> pa[i] != pb[i],
        s.diverging.proof_of_indexing1 == pa[s.hi as int],
        s.diverging.proof_of_indexing2 == pb[s.hi as int],
        probes >= ceil_log2((s.hi - s.lo) as nat),
    ensures
        ({
            let end = run_on_streams(s, pa, pb, probes);
            &&& end.phase == Phase::Confirmed
            &&& end.diverging.block.number == k
            &&& end.diverging.proof_of_indexing1 == pa[k]
            &&& end.diverging.proof_of_indexing2 == pb[k]
            &&& end.steps.len() <= s.steps.len() + ceil_log2((s.hi - s.lo) as nat)
            &&& end.incompletes == s.incompletes
        }),
    decreases probes,
{
    if s.phase == Phase::Confirmed {
        lemma_run_stays(s, pa, pb, probes);
    } else {
        let block = s.pending();
        let next = s.step(stream_answer(pa, pb, block));
        lemma_probe_inside(s.lo as int, s.hi as int, 0);
        lemma_step_terminates(s, stream_answer(pa, pb, block));
        let w = (s.hi - s.lo) as nat;
        let nw = (next.hi - next.lo) as nat;
        assert(nw <= (w + 1) / 2);
        lemma_ceil_log2_monotonic(nw, (w + 1) / 2);
        lemma_run_narrows(next, pa, pb, k, (probes - 1) as nat);
    }
}

/// A run that has ended is not changed by further answers.
proof fn lemma_run_stays(s: RunState, pa: Seq<Bytes32>, pb: Seq<Bytes32>, probes: nat)
    requires
        s.phase != Phase::Probing,
    ensures
        run_on_streams(s, pa, pb, probes) == s,
    decreases probes,
{
    if probes > 0 {
        lemma_run_stays(s, pa, pb, (probes - 1) as nat);
    }
}

/// The block that a run confirms for two indexers that first diverge at
/// block `k` and were seen to diverge at block `n`: block `k` itself, but
/// for a divergence at block 1, where the search starts and which it never
/// probes. There block 2 is confirmed, or block 1 where `n` is 1 as well.
pub open spec fn confirmed_block(k: int, n: int) -> int {
    if k >= 2 {
        k
    } else if n >= 2 {
        2
    } else {
        1
    }
}

/// Bisection finds the first diverging block. Two indexers whose digests
/// agree at every block below `k` and differ at every block from `k` up to
/// `n`, where the divergence was seen, are told apart at `k`, after no more
/// probes than the logarithm of `n`, rounded up. A divergence at block 1 is
/// the one exception: see [`confirmed_block`]. The bound on the probes holds
/// there too.
pub proof fn lemma_bisection_finds_first_divergence(
    pa: Seq<Bytes32>,
    pb: Seq<Bytes32>,
    n: u64,
    k: int,
    hash: Option<Bytes32>,
)
    requires
        1 <= k <= n,
        n < pa.len(),
        n < pb.len(),
        forall|i: int| 1 <= i < k ==> pa[i] == pb[i],
        forall|i: int| k <= i <= n ==> pa[i] != pb[i],
    ensures
        ({
            let start = initial_state(
                BlockPointer { number: n, hash },
                pa[n as int],
                pb[n as int],
            );
            let end = run_on_streams(start, pa, pb, ceil_log2(n as nat));
            let found = confirmed_block(k, n as int);
            &&& end.phase == Phase::Confirmed
            &&& end.diverging.block.number == found
            &&& end.diverging.proof_of_indexing1 == pa[found]
            &&& end.diverging.proof_of_indexing2 == pb[found]
            &&& end.steps.len() <= ceil_log2(n as nat)
            &&& end.incompletes == 0
        }),
{
    let start = initial_state(BlockPointer { number: n, hash }, pa[n as int], pb[n as int]);
    lemma_initial_state(BlockPointer { number: n, hash }, pa[n as int], pb[n as int]);
    let probes = ceil_log2(n as nat);
    if n == 1 {
        lemma_run_stays(start, pa, pb, probes);
    } else {
        lemma_ceil_log2_monotonic((n - 1) as nat, n as nat);
        lemma_run_narrows(start, pa, pb, confirmed_block(k, n as int), probes);
    }
}

/// Every answered probe brings the bounds of a run closer together by at
/// least one block, and counts as no probe without an answer.
pub proof fn lemma_answered_probe_narrows(
    s: RunState,
    hash: Option<Bytes32>,
    poi1: Bytes32,
    poi2: Bytes32,
)
    requires
        s.wf(),
        s.phase == Phase::Probing,
    ensures
        ({
            let next = s.step(ProbeResult::Answered { hash, poi1, poi2 });
            &&& next.hi - next.lo < s.hi - s.lo
            &&& next.lo <= next.hi
            &&& next.incompletes == s.incompletes
            &&& next.steps.len() == s.steps.len() + 1
            &&& next.steps.last().block_number == s.pending()
        }),
{
    lemma_probe_inside(s.lo as int, s.hi as int, s.attempt as int);
}

/// How many of `steps` are probes that went without an answer.
pub open spec fn unanswered(steps: Seq<BisectionStep>) -> nat
    decreases steps.len(),
{
    if steps.len() == 0 {
        0
    } else {
        unanswered(steps.drop_last()) + if steps.last().outcome == StepOutcome::Incomplete {
            1nat
        } else {
            0nat
        }
    }
}

/// The count that a run keeps of its probes without an answer grows as the
/// trace of its steps does: by one with such a probe, and not otherwise.
pub proof fn lemma_step_counts_unanswered(s: RunState, result: ProbeResult)
    requires
        s.wf(),
    ensures
        unanswered(s.step(result).steps) - unanswered(s.steps) == s.step(result).incompletes
            - s.incompletes,
{
    if s.phase == Phase::Probing {
        let next = s.step(result);
        assert(next.steps.drop_last() =~= s.steps);
    }
}

/// The answer of two indexers whose digests per block are `pa` and `pb`,
/// but who give no answer for the blocks in `silent`.
pub open spec fn gapped_answer(
    pa: Seq<Bytes32>,
    pb: Seq<Bytes32>,
    silent: Set<int>,
    block: int,
) -> ProbeResult {
    if silent.contains(block) {
        ProbeResult::Unavailable
    } else {
        stream_answer(pa, pb, block)
    }
}

/// The run after `probes` further probes, each answered from the digests
/// `pa` and `pb` of the two indexers unless its block is in `silent`.
pub open spec fn run_with_gaps(
    s: RunState,
    pa: Seq<Bytes32>,
    pb: Seq<Bytes32>,
    silent: Set<int>,
    probes: nat,
) -> RunState
    decreases probes,
{
    if probes == 0 {
        s
    } else {
        run_with_gaps(
            s.step(gapped_answer(pa, pb, silent, s.pending())),
            pa,
            pb,
            silent,
            (probes - 1) as nat,
        )
    }
}

/// With no silent block a run goes as it does with every probe answered.
pub proof fn lemma_run_without_gaps(s: RunState, pa: Seq<Bytes32>, pb: Seq<Bytes32>, probes: nat)
    ensures
        run_with_gaps(s, pa, pb, Set::empty(), probes) == run_on_streams(s, pa, pb, probes),
    decreases probes,
{
    if probes > 0 {
        let next = s.step(stream_answer(pa, pb, s.pending()));
        lemma_run_without_gaps(next, pa, pb, (probes - 1) as nat);
    }
}

/// A run that has ended is not changed by further answers, given or not.
proof fn lemma_gapped_run_stays(
    s: RunState,
    pa: Seq<Bytes32>,
    pb: Seq<Bytes32>,
    silent: Set<int>,
    probes: nat,
)
    requires
        s.phase != Phase::Probing,
    ensures
        run_with_gaps(s, pa, pb, silent, probes) == s,
    decreases probes,
{
    if probes > 0 {
        lemma_gapped_run_stays(s, pa, pb, silent, (probes - 1) as nat);
    }
}

/// The induction behind [`lemma_bisection_with_gaps`].
proof fn lemma_gapped_run_ends(
    s: RunState,
    pa: Seq<Bytes32>,
    pb: Seq<Bytes32>,
    silent: Set<int>,
    k: int,
    probes: nat,
)
    requires
        s.wf(),
        s.phase == Phase::Probing || s.phase == Phase::Confirmed || s.phase == Phase::Failed(
            BisectionFailure::Gap,
        ),
        s.lo < k <= s.hi,
        s.hi < pa.len(),
        s.hi < pb.len(),
        forall|i: int| s.lo < i < k ==> pa[i] == pb[i],
        forall|i: int| k <= i <= s.hi ==> pa[i] != pb[i],
        s.diverging.proof_of_indexing1 == pa[s.hi as int],
        s.diverging.proof_of_indexing2 == pb[s.hi as int],
        s.phase == Phase::Confirmed ==> s.incompletes <= s.tolerance,
        unanswered(s.steps) == s.incompletes,
        probes >= s.remaining(),
    ensures
        ({
            let end = run_with_gaps(s, pa, pb, silent, probes);
            &&& end.phase == Phase::Confirmed || end.phase == Phase::Failed(BisectionFailure::Gap)
            &&& end.phase == Phase::Confirmed ==> end.diverging.block.number == k
                && end.diverging.proof_of_indexing1 == pa[k] && end.diverging.proof_of_indexing2
                == pb[k] && end.incompletes <= end.tolerance
            &&& end.steps.len() <= s.steps.len() + s.remaining()
            &&& end.incompletes <= end.tolerance + 1
            &&& end.tolerance == s.tolerance
            &&& unanswered(end.steps) == end.incompletes
        }),
    decreases probes,
{
    if s.phase != Phase::Probing {
        lemma_gapped_run_stays(s, pa, pb, silent, probes);
    } else {
        let block = s.pending();
        let answer = gapped_answer(pa, pb, silent, block);
        let next = s.step(answer);
        lemma_probe_inside(s.lo as int, s.hi as int, s.attempt as int);
        lemma_step_terminates(s, answer);
        lemma_step_counts_unanswered(s, answer);
        lemma_gapped_run_ends(next, pa, pb, silent, k, (probes - 1) as nat);
    }
}

/// Bisection with gaps. Where some blocks get no answer, a run between two
/// indexers that first diverge at block `k` still comes to an end within
/// twice as many probes as there are blocks: it either confirms the block
/// that it would confirm with every probe answered, or it fails for the
/// gaps. It never confirms another block. The trace of a run that confirms
/// a block holds no more probes without an answer than the first window
/// was wide, and that of a run that fails one more at most.
pub proof fn lemma_bisection_with_gaps(
    pa: Seq<Bytes32>,
    pb: Seq<Bytes32>,
    n: u64,
    k: int,
    hash: Option<Bytes32>,
    silent: Set<int>,
)
    requires
        1 <= k <= n,
        n < pa.len(),
        n < pb.len(),
        forall|i: int| 1 <= i < k ==> pa[i] == pb[i],
        forall|i: int| k <= i <= n ==> pa[i] != pb[i],
    ensures
        ({
            let start = initial_state(
                BlockPointer { number: n, hash },
                pa[n as int],
                pb[n as int],
            );
            let end = run_with_gaps(start, pa, pb, silent, (2 * n) as nat);
            let found = confirmed_block(k, n as int);
            &&& end.phase == Phase::Confirmed || end.phase == Phase::Failed(BisectionFailure::Gap)
            &&& end.phase == Phase::Confirmed ==> end.diverging.block.number == found
                && end.diverging.proof_of_indexing1 == pa[found] && end.diverging.proof_of_indexing2
                == pb[found] && unanswered(end.steps) <= n - 1
            &&& end.steps.len() <= 2 * n
            &&& unanswered(end.steps) == end.incompletes
            &&& unanswered(end.steps) <= n
        }),
{
    let block = BlockPointer { number: n, hash };
    let start = initial_state(block, pa[n as int], pb[n as int]);
    lemma_initial_state(block, pa[n as int], pb[n as int]);
    if n == 1 {
        lemma_gapped_run_stays(start, pa, pb, silent, (2 * n) as nat);
    } else {
        lemma_gapped_run_ends(start, pa, pb, silent, confirmed_block(k, n as int), (2 * n) as nat);
    }
}

/// A run around one silent block. The indexers were seen to diverge at
/// block 10 and first diverge at block 7; one of them has no answer for
/// block 5. The run probes blocks 5, 4, 7, 5 and 6, marks both probes of
/// block 5 as incomplete, and confirms block 7.
pub proof fn lemma_run_around_a_silent_block(
    pa: Seq<Bytes32>,
    pb: Seq<Bytes32>,
    hash: Option<Bytes32>,
)
    requires
        pa.len() > 10,
        pb.len() > 10,
        forall|i: int| 1 <= i < 7 ==> pa[i] == pb[i],
        forall|i: int| 7 <= i <= 10 ==> pa[i] != pb[i],
    ensures
        ({
            let start = initial_state(BlockPointer { number: 10, hash }, pa[10], pb[10]);
            let end = run_with_gaps(start, pa, pb, set![5int], 5);
            &&& end.phase == Phase::Confirmed
            &&& end.diverging.block.number == 7
            &&& end.diverging.proof_of_indexing1 == pa[7]
            &&& end.diverging.proof_of_indexing2 == pb[7]
            &&& end.steps.len() == 5
            &&& end.steps[0].block_number == 5 && end.steps[0].outcome == StepOutcome::Incomplete
            &&& end.steps[1].block_number == 4 && end.steps[1].outcome == StepOutcome::Agreed
            &&& end.steps[2].block_number == 7 && end.steps[2].outcome == StepOutcome::Diverged
            &&& end.steps[3].block_number == 5 && end.steps[3].outcome == StepOutcome::Incomplete
            &&& end.steps[4].block_number == 6 && end.steps[4].outcome == StepOutcome::Agreed
            &&& end.incompletes == 2
        }),
{
    let silent = set![5int];
    let s0 = initial_state(BlockPointer { number: 10, hash }, pa[10], pb[10]);
    assert(s0.pending() == 5);
    let s1 = s0.step(gapped_answer(pa, pb, silent, 5));
    assert(s1.phase == Phase::Probing && s1.lo == 1 && s1.hi == 10 && s1.attempt == 1);
    assert(s1.pending() == 4);
    let s2 = s1.step(gapped_answer(pa, pb, silent, 4));
    assert(s2.phase == Phase::Probing && s2.lo == 4 && s2.hi == 10 && s2.attempt == 0);
    assert(s2.pending() == 7);
    let s3 = s2.step(gapped_answer(pa, pb, silent, 7));
    assert(s3.phase == Phase::Probing && s3.lo == 4 && s3.hi == 7 && s3.attempt == 0);
    assert(s3.pending() == 5);
    let s4 = s3.step(gapped_answer(pa, pb, silent, 5));
    assert(s4.phase == Phase::Probing && s4.lo == 4 && s4.hi == 7 && s4.attempt == 1);
    assert(s4.pending() == 6);
    let s5 = s4.step(gapped_answer(pa, pb, silent, 6));
    assert(s5.phase == Phase::Confirmed && s5.lo == 6 && s5.hi == 7);
    assert(run_with_gaps(s5, pa, pb, silent, 0) == s5);
    assert(run_with_gaps(s4, pa, pb, silent, 1) == s5);
    assert(run_with_gaps(s3, pa, pb, silent, 2) == s5);
    assert(run_with_gaps(s2, pa, pb, silent, 3) == s5);
    assert(run_with_gaps(s1, pa, pb, silent, 4) == s5);
    assert(run_with_gaps(s0, pa, pb, silent, 5) == s5);
    assert(s1.steps.len() == 1 && s2.steps.len() == 2 && s3.steps.len() == 3 && s4.steps.len()
        == 4);
    assert(s5.steps =~= s4.steps.push(s5.steps[4]));
    assert(s5.steps[0] == s1.steps[0] && s5.steps[1] == s2.steps[1] && s5.steps[2] == s3.steps[2]
        && s5.steps[3] == s4.steps[3]);
}

/// One bisection between two indexers.
#[derive(Debug)]
pub struct BisectionRun {
    lo: u64,
    hi: u64,
    attempt: u64,
    incompletes: u64,
    tolerance: u64,
    phase: Phase,
    diverging: DivergingBlock,
    lo_hash: Option<Bytes32>,
    steps: Vec<BisectionStep>,
}

impl View for BisectionRun {
    type V = RunState;

    closed spec fn view(&self) -> RunState {
        RunState {
            lo: self.lo,
            hi: self.hi,
            attempt: self.attempt,
            incompletes: self.incompletes,
            tolerance: self.tolerance,
            phase: self.phase,
            diverging: self.diverging,
            lo_hash: self.lo_hash,
            steps: self.steps@,
        }
    }
}

impl BisectionRun {
    /// Starts a run at the block where two indexers were seen to disagree.
    /// Where the digests are the same there is nothing to bisect, and no run.
    pub fn start(block: BlockPointer, poi1: Bytes32, poi2: Bytes32) -> (run: Option<BisectionRun>)
        ensures
            poi1 == poi2 ==> run is None,
            poi1 != poi2 ==> run is Some && run.unwrap()@ == initial_state(block, poi1, poi2),
            run matches Some(r) ==> r@.wf(),
    {
        if poi1 == poi2 {
            return None;
        }
        let hi = block.number;
        let phase = if hi <= 2 {
            Phase::Confirmed
        } else {
            Phase::Probing
        };
        let tolerance = if hi >= 1 {
            hi - 1
        } else {
            0
        };
        Some(
            BisectionRun {
                lo: 1,
                hi,
                attempt: 0,
                incompletes: 0,
                tolerance,
                phase,
                diverging: DivergingBlock {
                    block,
                    proof_of_indexing1: poi1,
                    proof_of_indexing2: poi2,
                },
                lo_hash: None,
                steps: Vec::new(),
            },
        )
    }

    /// The block that the run wants probed.
    fn pending_block(&self) -> (block: u64)
        requires
            self@.wf(),
            self@.phase == Phase::Probing,
        ensures
            block == self@.pending(),
            self@.lo < block < self@.hi,
    {
        proof {
            lemma_probe_inside(self.lo as int, self.hi as int, self.attempt as int);
        }
        let mid = self.lo + (self.hi - self.lo) / 2;
        let distance = (self.attempt + 1) / 2;
        if self.attempt % 2 == 1 && mid - self.lo > distance {
            mid - distance
        } else {
            mid + distance
        }
    }

    /// What the caller is to do now.
    pub fn next_action(&self) -> (action: BisectAction)
        requires
            self@.wf(),
        ensures
            action == self@.action(),
    {
        match self.phase {
            Phase::Probing => BisectAction::Probe(self.pending_block()),
            Phase::Confirmed => BisectAction::Confirmed(self.diverging),
            Phase::Failed(reason) => BisectAction::Failed(reason),
        }
    }

    /// Takes the answer to the pending probe and says what to do next.
    ///
    /// Equal digests move the lower bound up to the probed block, different
    /// digests move the upper bound down to it; the run is confirmed once
    /// the bounds are neighbours. A probe without an answer is recorded as
    /// incomplete and another block of the window is tried, until none is
    /// left or the run has seen more such probes than it puts up with; then
    /// it fails. A block that is not indexed fails the run at once. A run
    /// that has ended ignores the answer.
    pub fn advance(&mut self, result: ProbeResult) -> (action: BisectAction)
        requires
            old(self)@.wf(),
        ensures
            final(self)@ == old(self)@.step(result),
            final(self)@.wf(),
            action == final(self)@.action(),
    {
        proof {
            lemma_step_terminates(self@, result);
        }
        match self.phase {
            Phase::Probing => {
                let block = self.pending_block();
                match result {
                    ProbeResult::Answered { hash, poi1, poi2 } => {
                        if poi1 == poi2 {
                            self.lo = block;
                            self.lo_hash = hash;
                            self.steps.push(
                                BisectionStep {
                                    block_number: block,
                                    outcome: StepOutcome::Agreed,
                                    poi1: Some(poi1),
                                    poi2: Some(poi2),
                                },
                            );
                        } else {
                            self.hi = block;
                            self.diverging = DivergingBlock {
                                block: BlockPointer { number: block, hash },
                                proof_of_indexing1: poi1,
                                proof_of_indexing2: poi2,
                            };
                            self.steps.push(
                                BisectionStep {
                                    block_number: block,
                                    outcome: StepOutcome::Diverged,
                                    poi1: Some(poi1),
                                    poi2: Some(poi2),
                                },
                            );
                        }
                        self.attempt = 0;
                        if self.hi - self.lo <= 1 {
                            self.phase = Phase::Confirmed;
                        }
                    },
                    ProbeResult::Unavailable => {
                        let exhausted = self.attempt + 1 > self.hi - self.lo - 2
                            || self.incompletes + 1 > self.tolerance;
                        self.incompletes = self.incompletes + 1;
                        if exhausted {
                            self.phase = Phase::Failed(BisectionFailure::Gap);
                        } else {
                            self.attempt = self.attempt + 1;
                        }
                        self.steps.push(
                            BisectionStep {
                                block_number: block,
                                outcome: StepOutcome::Incomplete,
                                poi1: None,
                                poi2: None,
                            },
                        );
                    },
                    ProbeResult::Unindexed => {
                        self.phase = Phase::Failed(BisectionFailure::Unindexed);
                        self.steps.push(
                            BisectionStep {
                                block_number: block,
                                outcome: StepOutcome::Unindexed,
                                poi1: None,
                                poi2: None,
                            },
                        );
                    },
                }
            },
            _ => {},
        }
        self.next_action()
    }

    /// Where the run stands.
    pub fn phase(&self) -> (phase: Phase)
        ensures
            phase == self@.phase,
    {
        self.phase
    }

    /// The bounds of the window: the indexers are taken to agree at the
    /// first and disagree at the second.
    pub fn bounds(&self) -> (bounds: (u64, u64))
        ensures
            bounds == (self@.lo, self@.hi),
    {
        (self.lo, self.hi)
    }

    /// The lowest block at which the indexers are known to disagree, with
    /// the digests that differ there.
    pub fn diverging(&self) -> (block: DivergingBlock)
        ensures
            block == self@.diverging,
    {
        self.diverging
    }

    /// The hash of the block at the lower bound, where a probe has shown it.
    pub fn lower_hash(&self) -> (hash: Option<Bytes32>)
        ensures
            hash == self@.lo_hash,
    {
        self.lo_hash
    }

    /// The probes made so far, in order.
    pub fn steps(&self) -> (steps: &Vec<BisectionStep>)
        ensures
            steps@ == self@.steps,
    {
        &self.steps
    }
}

/// The blocks of a deployment that an indexer has indexed: from
/// `earliest` up to and including `latest`.
#[derive(Debug, Clone, Copy, PartialEq, Eq, Structural)]
pub struct IndexedRange {
    pub earliest: u64,
    pub latest: u64,
}

impl IndexedRange {
    /// Whether `block` is one of the blocks indexed.
    pub open spec fn holds(self, block: u64) -> bool {
        self.earliest <= block <= self.latest
    }
}

/// What a probe of `block` comes to, given what each indexer has indexed
/// and what each answered. A block that one of them has not indexed is
/// unindexed, whatever was answered; otherwise two answers make an answered
/// probe, with the block hash of the first, and anything less leaves the
/// probe without an answer.
pub open spec fn probe_outcome(
    block: u64,
    first: IndexedRange,
    second: IndexedRange,
    answer1: Option<(Option<Bytes32>, Bytes32)>,
    answer2: Option<(Option<Bytes32>, Bytes32)>,
) -> ProbeResult {
    if !first.holds(block) || !second.holds(block) {
        ProbeResult::Unindexed
    } else {
        match (answer1, answer2) {
            (Some((hash, poi1)), Some((_, poi2))) => ProbeResult::Answered { hash, poi1, poi2 },
            _ => ProbeResult::Unavailable,
        }
    }
}

/// Judges the answers of the two indexers to a probe of `block`. An
/// answer is the block hash, where the indexer gave one, and the digest.
pub fn judge_probe(
    block: u64,
    first: IndexedRange,
    second: IndexedRange,
    answer1: Option<(Option<Bytes32>, Bytes32)>,
    answer2: Option<(Option<Bytes32>, Bytes32)>,
) -> (result: ProbeResult)
    ensures
        result == probe_outcome(block, first, second, answer1, answer2),
{
    if block < first.earliest || block > first.latest || block < second.earliest || block
        > second.latest {
        return ProbeResult::Unindexed;
    }
    match (answer1, answer2) {
        (Some((hash, poi1)), Some((_, poi2))) => ProbeResult::Answered { hash, poi1, poi2 },
        _ => ProbeResult::Unavailable,
    }
}

} // verus!
