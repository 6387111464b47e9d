//! The evidence that is gathered once a diverging block is confirmed.

use crate::bisect::{Phase, RunState, BisectionRun};
use crate::types::Bytes32;
use vstd::prelude::*;

verus! {

/// A JSON value of `serde_json`, carried through as it came.
#[verifier::external_type_specification]
#[verifier::external_body]
pub struct ExJsonValue(serde_json::Value);

/// The name of a type of entity.
pub type EntityType = String;

/// The identifier of an entity.
pub type EntityId = String;

/// The entities of one type that changed in a block.
#[derive(Debug)]
pub struct EntityUpdates {
    pub entity_type: EntityType,
    pub entities: Vec<serde_json::Value>,
}

/// The entities of one type that were deleted in a block.
#[derive(Debug)]
pub struct EntityDeletions {
    pub entity_type: EntityType,
    pub entities: Vec<EntityId>,
}

/// What changed in one block of a deployment, by type of entity. No type
/// of entity is listed twice among the updates, nor among the deletions.
#[derive(Debug)]
pub struct EntityChanges {
    pub updates: Vec<EntityUpdates>,
    pub deletions: Vec<EntityDeletions>,
}

/// Why entity changes were refused.
#[derive(Debug, Clone, Copy, PartialEq, Eq, Structural)]
pub enum EntityChangesError {
    /// A type of entity is listed twice.
    DuplicateEntityType,
}

/// The types of entity of `updates`, in order.
pub open spec fn update_types(updates: Seq<EntityUpdates>) -> Seq<Seq<char>> {
    updates.map_values(|u: EntityUpdates| u.entity_type@)
}

/// The types of entity of `deletions`, in order.
pub open spec fn deletion_types(deletions: Seq<EntityDeletions>) -> Seq<Seq<char>> {
    deletions.map_values(|d: EntityDeletions| d.entity_type@)
}

/// Whether no text occurs twice in `names`.
pub open spec fn all_distinct(names: Seq<Seq<char>>) -> bool {
    forall|i: int, j: int| 0 <= i < j < names.len() ==> names[i] != names[j]
}

impl EntityChanges {
    /// Whether no type of entity is listed twice.
    pub open spec fn wf(self) -> bool {
        all_distinct(update_types(self.updates@)) && all_distinct(deletion_types(self.deletions@))
    }
}

/// Whether no type of entity is listed twice among `updates`.
fn distinct_update_types(updates: &Vec<EntityUpdates>) -> (distinct: bool)
    ensures
        distinct == all_distinct(update_types(updates@)),
{
    let ghost views = update_types(updates@);
    let mut j: usize = 0;
    while j < updates.len()
        invariant
            j <= updates@.len(),
            views == update_types(updates@),
            forall|a: int, b: int| 0 <= a < b < j ==> views[a] != views[b],
        decreases updates@.len() - j,
    {
        let mut i: usize = 0;
        while i < j
            invariant
                i <= j < updates@.len(),
                views == update_types(updates@),
                forall|a: int| 0 <= a < i ==> views[a] != views[j as int],
            decreases j - i,
        {
            if updates[i].entity_type == updates[j].entity_type {
                assert(views[i as int] == views[j as int]);
                return false;
            }
            i = i + 1;
        }
        j = j + 1;
    }
    true
}

/// Whether no type of entity is listed twice among `deletions`.
fn distinct_deletion_types(deletions: &Vec<EntityDeletions>) -> (distinct: bool)
    ensures
        distinct == all_distinct(deletion_types(deletions@)),
{
    let ghost views = deletion_types(deletions@);
    let mut j: usize = 0;
    while j < deletions.len()
        invariant
            j <= deletions@.len(),
            views == deletion_types(deletions@),
            forall|a: int, b: int| 0 <= a < b < j ==> views[a] != views[b],
        decreases deletions@.len() - j,
    {
        let mut i: usize = 0;
        while i < j
            invariant
                i <= j < deletions@.len(),
                views == deletion_types(deletions@),
                forall|a: int| 0 <= a < i ==> views[a] != views[j as int],
            decreases j - i,
        {
            if deletions[i].entity_type == deletions[j].entity_type {
                assert(views[i as int] == views[j as int]);
                return false;
            }
            i = i + 1;
        }
        j = j + 1;
    }
    true
}

/// Puts together the entity changes of a block from what an indexer
/// lists. A type of entity that is listed twice, among the updates or among
/// the deletions, is refused; otherwise the lists are taken as they are.
pub fn entity_changes_from_raw(updates: Vec<EntityUpdates>, deletions: Vec<EntityDeletions>) -> (res:
    Result<EntityChanges, EntityChangesError>)
    ensures
        all_distinct(update_types(updates@)) && all_distinct(deletion_types(deletions@)) ==> (
        res matches Ok(changes) && changes.updates == updates && changes.deletions == deletions
            && changes.wf()),
        !(all_distinct(update_types(updates@)) && all_distinct(deletion_types(deletions@)))
            ==> res matches Err(EntityChangesError::DuplicateEntityType),
{
    if !distinct_update_types(&updates) || !distinct_deletion_types(&deletions) {
        return Err(EntityChangesError::DuplicateEntityType);
    }
    Ok(EntityChanges { updates, deletions })
}

/// Which of the two indexers of a run is meant.
#[derive(Debug, Clone, Copy, PartialEq, Eq, Structural)]
pub enum RunIndexer {
    First,
    Second,
}

/// What is asked of an indexer as evidence.
#[derive(Debug, Clone, Copy)]
pub enum EvidenceKind {
    /// The block cache contents for the block with this hash.
    BlockCache { block_hash: Bytes32 },
    /// The cached Ethereum calls for the block with this hash.
    EthCalls { block_hash: Bytes32 },
    /// The entity changes of the deployment in this block.
    EntityChanges { block_number: u64 },
}

/// One piece of evidence to ask for.
#[derive(Debug, Clone, Copy)]
pub struct EvidenceRequest {
    pub indexer: RunIndexer,
    pub kind: EvidenceKind,
}

/// The evidence to ask of one indexer for a confirmed run: the entity
/// changes in the diverging block and, where the hash of the block before
/// it is known, the block cache and the cached calls for that block.
pub open spec fn evidence_of(run: RunState, indexer: RunIndexer) -> Seq<EvidenceRequest> {
    let changes = EvidenceRequest {
        indexer,
        kind: EvidenceKind::EntityChanges { block_number: run.diverging.block.number },
    };
    match run.lo_hash {
        Some(block_hash) => if run.hi == run.lo + 1 {
            seq![
                EvidenceRequest { indexer, kind: EvidenceKind::BlockCache { block_hash } },
                EvidenceRequest { indexer, kind: EvidenceKind::EthCalls { block_hash } },
                changes,
            ]
        } else {
            seq![changes]
        },
        None => seq![changes],
    }
}

/// The evidence to gather for a run: nothing unless the run is confirmed,
/// and then what [`evidence_of`] says, first indexer first.
pub open spec fn evidence_plan_of(run: RunState) -> Seq<EvidenceRequest> {
    if run.phase == Phase::Confirmed {
        evidence_of(run, RunIndexer::First) + evidence_of(run, RunIndexer::Second)
    } else {
        Seq::empty()
    }
}

/// The evidence to gather for `run`.
pub fn evidence_plan(run: &BisectionRun) -> (plan: Vec<EvidenceRequest>)
    ensures
        plan@ == evidence_plan_of(run@),
{
    let mut plan: Vec<EvidenceRequest> = Vec::new();
    if run.phase() != Phase::Confirmed {
        return plan;
    }
    let (lo, hi) = run.bounds();
    let block_number = run.diverging().block.number;
    let before = match run.lower_hash() {
        Some(hash) => if lo < hi && hi - lo == 1 {
            Some(hash)
        } else {
            None
        },
        None => None,
    };
    let mut turn: usize = 0;
    while turn < 2
        invariant
            turn <= 2,
            run@.phase == Phase::Confirmed,
            block_number == run@.diverging.block.number,
            before == (match run@.lo_hash {
                Some(hash) => if run@.hi == run@.lo + 1 {
                    Some(hash)
                } else {
                    None
                },
                None => None,
            }),
            plan@ == (if turn == 0 {
                Seq::<EvidenceRequest>::empty()
            } else if turn == 1 {
                evidence_of(run@, RunIndexer::First)
            } else {
                evidence_plan_of(run@)
            }),
        decreases 2 - turn,
    {
        let indexer = if turn == 0 {
            RunIndexer::First
        } else {
            RunIndexer::Second
        };
        let ghost so_far = plan@;
        match before {
            Some(block_hash) => {
                plan.push(EvidenceRequest { indexer, kind: EvidenceKind::BlockCache { block_hash } });
                plan.push(EvidenceRequest { indexer, kind: EvidenceKind::EthCalls { block_hash } });
            },
            None => {},
        }
        plan.push(EvidenceRequest { indexer, kind: EvidenceKind::EntityChanges { block_number } });
        assert(plan@ =~= so_far + evidence_of(run@, indexer));
        turn = turn + 1;
    }
    plan
}

} // verus!
