//! What a write to the table of proofs of indexing comes to.
//!
//! No two rows share indexer, deployment and block, and of the rows of one
//! indexer for one deployment at most one is live. A write either takes
//! effect as a whole or leaves the table as it was.

use crate::error::ErrorKind;
use crate::models::{IntId, Timestamp};
use crate::polling::poi_views;
use crate::rows::{
    admitted_count, coordinates_unique, ids_ascending, lemma_answer_complete_within_cap,
    lemma_precedes_total, live_unique, row_views, PoiQueryView, StoredPoi, StoredPoiView,
};
use crate::types::{indexer_id_text, BlockPointer, Bytes32, PoiView, ProofOfIndexing};
use vstd::prelude::*;

verus! {

/// Whether the proofs of indexing of a write become the live ones.
#[derive(Clone, Copy, Debug, PartialEq, Eq, Structural)]
pub enum PoiLiveness {
    Live,
    NotLive,
}

/// Why the store refused an operation.
#[derive(Clone, Copy, Debug, PartialEq, Eq, Structural)]
pub enum StoreError {
    /// The operation would have broken a uniqueness rule.
    Constraint,
    /// The table has run out of row identifiers.
    Exhausted,
    /// A text that should name a stored proof of indexing is no digest.
    InvalidDigest,
    /// No stored proof of indexing has the digest given.
    UnknownPoi,
}

impl StoreError {
    /// The kind of the error. A broken rule or a reference to nothing
    /// violates the data model; running out of identifiers is the store's fault.
    pub fn kind(&self) -> (kind: ErrorKind)
        ensures
            kind == (if *self == StoreError::Exhausted {
                ErrorKind::Storage
            } else {
                ErrorKind::Invariant
            }),
    {
        match self {
            StoreError::Exhausted => ErrorKind::Storage,
            _ => ErrorKind::Invariant,
        }
    }
}

/// Whether a row of `rows` has the indexer, deployment and block of `poi`.
pub open spec fn has_coordinates(rows: Seq<StoredPoiView>, poi: PoiView) -> bool {
    exists|i: int| 0 <= i < rows.len() && (#[trigger] rows[i]).poi.same_coordinates(poi)
}

/// Whether one of `pois` has the indexer, deployment and block of `poi`.
pub open spec fn lists_coordinates(pois: Seq<PoiView>, poi: PoiView) -> bool {
    exists|i: int| 0 <= i < pois.len() && (#[trigger] pois[i]).same_coordinates(poi)
}

/// Whether one of `batch` is of the given indexer and deployment.
pub open spec fn touches(batch: Seq<PoiView>, indexer: Seq<u8>, deployment: Seq<char>) -> bool {
    exists|i: int|
        0 <= i < batch.len() && (#[trigger] batch[i]).indexer.address == indexer
            && batch[i].deployment == deployment
}

/// Whether no two of `pois` are of the same indexer and deployment.
pub open spec fn pairs_distinct(pois: Seq<PoiView>) -> bool {
    forall|i: int, j: int|
        0 <= i < j < pois.len() ==> !((#[trigger] pois[i]).indexer.address
            == (#[trigger] pois[j]).indexer.address && pois[i].deployment == pois[j].deployment)
}

/// The proofs of indexing of `batch` that a write adds to `rows`: those
/// whose indexer, deployment and block no row has yet, each once, in order.
pub open spec fn fresh_pois(rows: Seq<StoredPoiView>, batch: Seq<PoiView>) -> Seq<PoiView>
    decreases batch.len(),
{
    if batch.len() == 0 {
        Seq::empty()
    } else {
        let before = fresh_pois(rows, batch.drop_last());
        if has_coordinates(rows, batch.last()) || lists_coordinates(before, batch.last()) {
            before
        } else {
            before.push(batch.last())
        }
    }
}

/// The identifier that the next row gets.
pub open spec fn next_row_id(rows: Seq<StoredPoiView>) -> int {
    if rows.len() == 0 {
        1
    } else {
        rows.last().id + 1
    }
}

/// The rows after `batch` was written to `rows`. The fresh proofs of
/// indexing follow the rows that were there as new rows, live in a live
/// write. The rows that were there stay, but in a live write those of an
/// indexer and deployment that get a new row stop being live.
pub open spec fn rows_after_write(
    rows: Seq<StoredPoiView>,
    batch: Seq<PoiView>,
    liveness: PoiLiveness,
    now: Timestamp,
) -> Seq<StoredPoiView> {
    let fresh = fresh_pois(rows, batch);
    let live = liveness == PoiLiveness::Live;
    Seq::new(
        rows.len() + fresh.len(),
        |i: int|
            if i < rows.len() {
                if live && touches(fresh, rows[i].poi.indexer.address, rows[i].poi.deployment) {
                    StoredPoiView { live: false, ..rows[i] }
                } else {
                    rows[i]
                }
            } else {
                StoredPoiView {
                    id: (next_row_id(rows) + (i - rows.len())) as IntId,
                    poi: fresh[i - rows.len()],
                    created_at: now,
                    live,
                }
            },
    )
}

/// What a write of `batch` to `rows` comes to. A live write that would
/// make two new rows of one indexer and deployment live is refused, as is a
/// write for which the identifiers do not suffice.
pub open spec fn write_outcome(
    rows: Seq<StoredPoiView>,
    batch: Seq<PoiView>,
    liveness: PoiLiveness,
    now: Timestamp,
) -> Result<Seq<StoredPoiView>, StoreError> {
    let fresh = fresh_pois(rows, batch);
    if liveness == PoiLiveness::Live && !pairs_distinct(fresh) {
        Err(StoreError::Constraint)
    } else if next_row_id(rows) + fresh.len() - 1 > i32::MAX {
        Err(StoreError::Exhausted)
    } else {
        Ok(rows_after_write(rows, batch, liveness, now))
    }
}

/// Whether `rows` obey the rules of the table.
pub open spec fn rows_wf(rows: Seq<StoredPoiView>) -> bool {
    &&& ids_ascending(rows)
    &&& forall|i: int| 0 <= i < rows.len() ==> (#[trigger] rows[i]).id >= 1
    &&& coordinates_unique(rows)
    &&& live_unique(rows)
}

/// What holds of the fresh proofs of indexing of a batch: each is of the
/// batch, none is stored yet, and no two share indexer, deployment and block.
pub proof fn lemma_fresh_pois(rows: Seq<StoredPoiView>, batch: Seq<PoiView>)
    ensures
        fresh_pois(rows, batch).len() <= batch.len(),
        forall|i: int|
            0 <= i < fresh_pois(rows, batch).len() ==> batch.contains(
                #[trigger] fresh_pois(rows, batch)[i],
            ) && !has_coordinates(rows, fresh_pois(rows, batch)[i]),
        forall|i: int, j: int|
            0 <= i < j < fresh_pois(rows, batch).len() ==> !(#[trigger] fresh_pois(
                rows,
                batch,
            )[i]).same_coordinates(#[trigger] fresh_pois(rows, batch)[j]),
        forall|k: int|
            0 <= k < batch.len() ==> has_coordinates(rows, #[trigger] batch[k]) || lists_coordinates(
                fresh_pois(rows, batch),
                batch[k],
            ),
    decreases batch.len(),
{
    if batch.len() > 0 {
        let shorter = batch.drop_last();
        lemma_fresh_pois(rows, shorter);
        let before = fresh_pois(rows, shorter);
        let fresh = fresh_pois(rows, batch);
        let last = batch.last();
        assert forall|i: int| 0 <= i < fresh.len() implies batch.contains(#[trigger] fresh[i])
            && !has_coordinates(rows, fresh[i]) by {
            if i < before.len() {
                assert(fresh[i] == before[i]);
                let at = shorter.index_of(before[i]);
                assert(batch[at] == fresh[i]);
            } else {
                assert(batch[batch.len() - 1] == fresh[i]);
            }
        }
        assert forall|i: int, j: int| 0 <= i < j < fresh.len() implies !(#[trigger] fresh[i]).same_coordinates(
            #[trigger] fresh[j],
        ) by {
            if j < before.len() {
                assert(fresh[i] == before[i] && fresh[j] == before[j]);
            } else {
                assert(fresh[i] == before[i]);
            }
        }
        assert forall|k: int| 0 <= k < batch.len() implies has_coordinates(rows, #[trigger] batch[k])
            || lists_coordinates(fresh, batch[k]) by {
            if k < batch.len() - 1 {
                assert(shorter[k] == batch[k]);
                if lists_coordinates(before, batch[k]) {
                    let at = choose|i: int|
                        0 <= i < before.len() && (#[trigger] before[i]).same_coordinates(batch[k]);
                    assert(fresh[at].same_coordinates(batch[k]));
                }
            } else if !has_coordinates(rows, last) {
                if lists_coordinates(before, last) {
                    let at = choose|i: int|
                        0 <= i < before.len() && (#[trigger] before[i]).same_coordinates(last);
                    assert(fresh[at].same_coordinates(last));
                } else {
                    assert(fresh[fresh.len() - 1].same_coordinates(last));
                }
            }
        }
    }
}

/// A write keeps the rules of the table: afterwards, as before, no two
/// rows share indexer, deployment and block, and at most one row of each
/// indexer for each deployment is live.
pub proof fn lemma_write_keeps_rules(
    rows: Seq<StoredPoiView>,
    batch: Seq<PoiView>,
    liveness: PoiLiveness,
    now: Timestamp,
)
    requires
        rows_wf(rows),
        write_outcome(rows, batch, liveness, now) is Ok,
    ensures
        rows_wf(write_outcome(rows, batch, liveness, now).unwrap()),
{
    let after = rows_after_write(rows, batch, liveness, now);
    let fresh = fresh_pois(rows, batch);
    let n = rows.len() as int;
    lemma_fresh_pois(rows, batch);
    assert forall|i: int, j: int| 0 <= i < j < after.len() implies (#[trigger] after[i]).id
        < (#[trigger] after[j]).id by {
        if j < n {
            assert(rows[i].id < rows[j].id);
        } else if i < n {
            if i < n - 1 {
                assert(rows[i].id < rows[n - 1].id);
            }
        }
    }
    assert forall|i: int| 0 <= i < after.len() implies (#[trigger] after[i]).id >= 1 by {
        if i < n {
            assert(rows[i].id >= 1);
        } else if n > 0 {
            assert(rows[n - 1].id >= 1);
        }
    }
    assert forall|i: int, j: int| 0 <= i < j < after.len() implies !(#[trigger] after[i]).poi.same_coordinates(
        (#[trigger] after[j]).poi,
    ) by {
        if j < n {
            assert(!rows[i].poi.same_coordinates(rows[j].poi));
        } else if i < n {
            assert(!has_coordinates(rows, fresh[j - n]));
            assert(!rows[i].poi.same_coordinates(fresh[j - n]));
        } else {
            assert(!fresh[i - n].same_coordinates(fresh[j - n]));
        }
    }
    assert forall|i: int, j: int|
        0 <= i < j < after.len() && (#[trigger] after[i]).live && (#[trigger] after[j]).live implies !after[i].of_pair(
        after[j].poi.indexer.address,
        after[j].poi.deployment,
    ) by {
        if j < n {
            assert(rows[i].live && rows[j].live);
        } else if i < n {
            if after[i].of_pair(after[j].poi.indexer.address, after[j].poi.deployment) {
                assert(fresh[j - n].indexer.address == rows[i].poi.indexer.address);
                assert(touches(fresh, rows[i].poi.indexer.address, rows[i].poi.deployment));
            }
        } else {
            assert(pairs_distinct(fresh));
            assert(!(fresh[i - n].indexer.address == fresh[j - n].indexer.address && fresh[i
                - n].deployment == fresh[j - n].deployment));
        }
    }
}

/// Whether a row of `rows` is of the given indexer and deployment and live.
pub open spec fn has_live_row(rows: Seq<StoredPoiView>, indexer: Seq<u8>, deployment: Seq<char>) -> bool {
    exists|i: int| 0 <= i < rows.len() && (#[trigger] rows[i]).live && rows[i].of_pair(indexer, deployment)
}

/// Whether exactly one row of `rows` is of the given indexer and
/// deployment and live, namely the row at position `at`.
pub open spec fn only_live_row(
    rows: Seq<StoredPoiView>,
    indexer: Seq<u8>,
    deployment: Seq<char>,
    at: int,
) -> bool {
    &&& 0 <= at < rows.len()
    &&& rows[at].live
    &&& rows[at].of_pair(indexer, deployment)
    &&& forall|j: int|
        0 <= j < rows.len() && (#[trigger] rows[j]).live && rows[j].of_pair(indexer, deployment)
            ==> j == at
}

/// After a live write, every indexer and deployment of the batch has
/// exactly one live row, provided the write brought a proof of indexing for
/// them that was not stored before, or they had a live row already. Where the
/// write brought something new, the live row is the new one.
pub proof fn lemma_one_live_after_write(
    rows: Seq<StoredPoiView>,
    batch: Seq<PoiView>,
    now: Timestamp,
    indexer: Seq<u8>,
    deployment: Seq<char>,
) -> (at: int)
    requires
        rows_wf(rows),
        write_outcome(rows, batch, PoiLiveness::Live, now) is Ok,
        touches(batch, indexer, deployment),
        touches(fresh_pois(rows, batch), indexer, deployment) || has_live_row(
            rows,
            indexer,
            deployment,
        ),
    ensures
        only_live_row(
            write_outcome(rows, batch, PoiLiveness::Live, now).unwrap(),
            indexer,
            deployment,
            at,
        ),
        touches(fresh_pois(rows, batch), indexer, deployment) ==> at >= rows.len(),
{
    let after = rows_after_write(rows, batch, PoiLiveness::Live, now);
    let fresh = fresh_pois(rows, batch);
    lemma_write_keeps_rules(rows, batch, PoiLiveness::Live, now);
    let at = if touches(fresh, indexer, deployment) {
        let k = choose|i: int|
            0 <= i < fresh.len() && (#[trigger] fresh[i]).indexer.address == indexer
                && fresh[i].deployment == deployment;
        assert(after[rows.len() + k].poi == fresh[k]);
        rows.len() + k
    } else {
        let i = choose|i: int|
            0 <= i < rows.len() && (#[trigger] rows[i]).live && rows[i].of_pair(indexer, deployment);
        assert(after[i] == rows[i]);
        i
    };
    assert forall|j: int|
        0 <= j < after.len() && (#[trigger] after[j]).live && after[j].of_pair(
            indexer,
            deployment,
        ) implies j == at by {
        if j < at {
            assert(!after[j].of_pair(after[at].poi.indexer.address, after[at].poi.deployment));
        } else if j > at {
            assert(!after[at].of_pair(after[j].poi.indexer.address, after[j].poi.deployment));
        }
    }
    at
}

/// What a query for live rows returns after a live write: for every
/// indexer and deployment of the batch that got a new row or had a live row,
/// exactly one row, which is live; where the write brought something new, it
/// is a proof of indexing of the batch. No two rows of the answer are of the
/// same indexer and deployment. This holds where the cap cuts nothing off.
pub proof fn lemma_live_query_after_live_write(
    rows: Seq<StoredPoiView>,
    batch: Seq<PoiView>,
    now: Timestamp,
    query: PoiQueryView,
    answer: Seq<StoredPoiView>,
    indexer: Seq<u8>,
    deployment: Seq<char>,
) -> (at: int)
    requires
        rows_wf(rows),
        write_outcome(rows, batch, PoiLiveness::Live, now) is Ok,
        touches(batch, indexer, deployment),
        touches(fresh_pois(rows, batch), indexer, deployment) || has_live_row(
            rows,
            indexer,
            deployment,
        ),
        query.live_only,
        query.indexer is None,
        query.block_range is None,
        query.deployments matches Some(names) ==> names.contains(deployment),
        query.answered_by(write_outcome(rows, batch, PoiLiveness::Live, now).unwrap(), answer),
        answer.len() < query.cap() || admitted_count(
            query,
            write_outcome(rows, batch, PoiLiveness::Live, now).unwrap(),
        ) <= query.cap(),
    ensures
        forall|i: int| 0 <= i < answer.len() ==> (#[trigger] answer[i]).live,
        only_live_row(answer, indexer, deployment, at),
        touches(fresh_pois(rows, batch), indexer, deployment) ==> batch.contains(answer[at].poi),
        forall|i: int, j: int|
            0 <= i < j < answer.len() ==> !(#[trigger] answer[i]).of_pair(
                (#[trigger] answer[j]).poi.indexer.address,
                answer[j].poi.deployment,
            ),
{
    let after = write_outcome(rows, batch, PoiLiveness::Live, now).unwrap();
    let fresh = fresh_pois(rows, batch);
    lemma_write_keeps_rules(rows, batch, PoiLiveness::Live, now);
    lemma_fresh_pois(rows, batch);
    let p = lemma_one_live_after_write(rows, batch, now, indexer, deployment);
    assert(query.admits(after[p]));
    if !(answer.len() < query.cap()) {
        lemma_answer_complete_within_cap(after, query, answer);
    }
    let at = answer.index_of(after[p]);
    assert forall|i: int, j: int| 0 <= i < j < answer.len() implies (#[trigger] answer[i])
        != (#[trigger] answer[j]) by {
        assert(answer[i].precedes(answer[j]));
        lemma_precedes_total(answer[i], answer[i]);
    }
    assert forall|j: int|
        0 <= j < answer.len() && (#[trigger] answer[j]).live && answer[j].of_pair(
            indexer,
            deployment,
        ) implies j == at by {
        assert(after.contains(answer[j]));
        let q = after.index_of(answer[j]);
        assert(after[q].live && after[q].of_pair(indexer, deployment));
        assert(q == p);
        if j < at {
            assert(answer[j] != answer[at]);
        } else if at < j {
            assert(answer[at] != answer[j]);
        }
    }
    assert forall|i: int, j: int| 0 <= i < j < answer.len() implies !(#[trigger] answer[i]).of_pair(
        (#[trigger] answer[j]).poi.indexer.address,
        answer[j].poi.deployment,
    ) by {
        assert(after.contains(answer[i]) && after.contains(answer[j]));
        let qi = after.index_of(answer[i]);
        let qj = after.index_of(answer[j]);
        assert(answer[i] != answer[j]);
        assert(query.admits(answer[i]) && query.admits(answer[j]));
        if qi < qj {
            assert(!after[qi].of_pair(after[qj].poi.indexer.address, after[qj].poi.deployment));
        } else {
            assert(!after[qj].of_pair(after[qi].poi.indexer.address, after[qi].poi.deployment));
        }
    }
    if touches(fresh, indexer, deployment) {
        assert(after[p].poi == fresh[p - rows.len()]);
        assert(batch.contains(fresh[p - rows.len()]));
    }
    at
}

/// A live write that brings nothing new for an indexer and deployment
/// leaves their rows as they were. If none of them was live before, none is
/// live afterwards.
pub proof fn lemma_nothing_new_changes_nothing(
    rows: Seq<StoredPoiView>,
    batch: Seq<PoiView>,
    now: Timestamp,
    indexer: Seq<u8>,
    deployment: Seq<char>,
)
    requires
        write_outcome(rows, batch, PoiLiveness::Live, now) is Ok,
        !touches(fresh_pois(rows, batch), indexer, deployment),
    ensures
        ({
            let after = write_outcome(rows, batch, PoiLiveness::Live, now).unwrap();
            &&& forall|j: int|
                0 <= j < rows.len() && (#[trigger] rows[j]).of_pair(indexer, deployment) ==> after[j]
                    == rows[j]
            &&& forall|j: int|
                rows.len() <= j < after.len() ==> !(#[trigger] after[j]).of_pair(indexer, deployment)
            &&& has_live_row(after, indexer, deployment) == has_live_row(rows, indexer, deployment)
        }),
{
    let after = rows_after_write(rows, batch, PoiLiveness::Live, now);
    let fresh = fresh_pois(rows, batch);
    assert forall|j: int| rows.len() <= j < after.len() implies !(#[trigger] after[j]).of_pair(
        indexer,
        deployment,
    ) by {
        if after[j].of_pair(indexer, deployment) {
            assert(fresh[j - rows.len()].indexer.address == indexer);
        }
    }
    if has_live_row(rows, indexer, deployment) {
        let i = choose|i: int|
            0 <= i < rows.len() && (#[trigger] rows[i]).live && rows[i].of_pair(indexer, deployment);
        assert(after[i].live && after[i].of_pair(indexer, deployment));
    }
    if has_live_row(after, indexer, deployment) {
        let i = choose|i: int|
            0 <= i < after.len() && (#[trigger] after[i]).live && after[i].of_pair(
                indexer,
                deployment,
            );
        assert(rows[i].live && rows[i].of_pair(indexer, deployment));
    }
}

/// Every proof of indexing of a write that took effect is stored
/// afterwards, under its indexer, deployment and block. The stored digest is
/// the one written unless the store, or the batch before it, already held
/// another digest for the same indexer, deployment and block: then that one
/// stays.
pub proof fn lemma_written_is_stored(
    rows: Seq<StoredPoiView>,
    batch: Seq<PoiView>,
    liveness: PoiLiveness,
    now: Timestamp,
    k: int,
) -> (at: int)
    requires
        write_outcome(rows, batch, liveness, now) is Ok,
        0 <= k < batch.len(),
    ensures
        ({
            let after = write_outcome(rows, batch, liveness, now).unwrap();
            &&& 0 <= at < after.len()
            &&& after[at].poi.same_coordinates(batch[k])
            &&& (forall|i: int|
                0 <= i < rows.len() && (#[trigger] rows[i]).poi.same_coordinates(batch[k])
                    ==> rows[i].poi.proof_of_indexing == batch[k].proof_of_indexing) && (forall|
                j: int,
            |
                0 <= j < k && (#[trigger] batch[j]).same_coordinates(batch[k])
                    ==> batch[j].proof_of_indexing == batch[k].proof_of_indexing)
                ==> after[at].poi.same_poi(batch[k])
        }),
{
    let after = rows_after_write(rows, batch, liveness, now);
    lemma_fresh_position(rows, batch, k);
    if has_coordinates(rows, batch[k]) {
        let at = choose|i: int| 0 <= i < rows.len() && (#[trigger] rows[i]).poi.same_coordinates(batch[k]);
        assert(after[at].poi == rows[at].poi);
        at
    } else {
        let fresh = fresh_pois(rows, batch);
        let f = choose|f: int|
            0 <= f < fresh.len() && (#[trigger] fresh[f]).same_coordinates(batch[k]) && exists|j: int|
                0 <= j <= k && batch[j] == fresh[f];
        let at = rows.len() + f;
        assert(after[at].poi == fresh[f]);
        at
    }
}

/// A proof of indexing of a batch that is not stored yet has its place
/// among the fresh ones: there stands the first of the batch with its
/// indexer, deployment and block.
proof fn lemma_fresh_position(rows: Seq<StoredPoiView>, batch: Seq<PoiView>, k: int)
    requires
        0 <= k < batch.len(),
    ensures
        has_coordinates(rows, batch[k]) || exists|f: int|
            0 <= f < fresh_pois(rows, batch).len() && (#[trigger] fresh_pois(
                rows,
                batch,
            )[f]).same_coordinates(batch[k]) && exists|j: int|
                0 <= j <= k && batch[j] == fresh_pois(rows, batch)[f],
    decreases batch.len(),
{
    let shorter = batch.drop_last();
    let before = fresh_pois(rows, shorter);
    let fresh = fresh_pois(rows, batch);
    if has_coordinates(rows, batch[k]) {
    } else if k < batch.len() - 1 {
        lemma_fresh_position(rows, shorter, k);
        assert(shorter[k] == batch[k]);
        let f = choose|f: int|
            0 <= f < before.len() && (#[trigger] before[f]).same_coordinates(shorter[k]) && exists|
                j: int,
            | 0 <= j <= k && shorter[j] == before[f];
        let j = choose|j: int| 0 <= j <= k && shorter[j] == before[f];
        assert(fresh[f] == before[f]);
        assert(batch[j] == fresh[f]);
    } else if lists_coordinates(before, batch[k]) {
        let f = choose|f: int| 0 <= f < before.len() && (#[trigger] before[f]).same_coordinates(batch[k]);
        lemma_fresh_pois(rows, shorter);
        let j = shorter.index_of(before[f]);
        assert(fresh[f] == before[f]);
        assert(batch[j] == fresh[f]);
    } else {
        let f = fresh.len() - 1;
        assert(fresh[f] == batch[k]);
    }
}

/// What is written can be read back: after a write that took effect, the
/// answer to the query for the deployments of the batch holds, for each
/// proof of indexing of the batch, a row with its indexer address,
/// deployment, block number, block hash and digest. This holds where the
/// store holds no more rows that the query asks for than the cap allows, or
/// the answer has room left, and where neither the store nor the batch held
/// another digest for the same indexer, deployment and block before.
pub proof fn lemma_round_trip(
    rows: Seq<StoredPoiView>,
    batch: Seq<PoiView>,
    liveness: PoiLiveness,
    now: Timestamp,
    query: PoiQueryView,
    answer: Seq<StoredPoiView>,
    k: int,
) -> (at: int)
    requires
        write_outcome(rows, batch, liveness, now) is Ok,
        0 <= k < batch.len(),
        query.indexer is None,
        query.block_range is None,
        !query.live_only,
        query.deployments matches Some(names) ==> names.contains(batch[k].deployment),
        query.answered_by(write_outcome(rows, batch, liveness, now).unwrap(), answer),
        answer.len() < query.cap() || admitted_count(
            query,
            write_outcome(rows, batch, liveness, now).unwrap(),
        ) <= query.cap(),
        forall|i: int|
            0 <= i < rows.len() && (#[trigger] rows[i]).poi.same_coordinates(batch[k])
                ==> rows[i].poi.proof_of_indexing == batch[k].proof_of_indexing,
        forall|j: int|
            0 <= j < k && (#[trigger] batch[j]).same_coordinates(batch[k])
                ==> batch[j].proof_of_indexing == batch[k].proof_of_indexing,
    ensures
        0 <= at < answer.len(),
        answer[at].poi.same_poi(batch[k]),
{
    let after = write_outcome(rows, batch, liveness, now).unwrap();
    let stored = lemma_written_is_stored(rows, batch, liveness, now, k);
    assert(query.admits(after[stored]));
    if !(answer.len() < query.cap()) {
        lemma_answer_complete_within_cap(after, query, answer);
    }
    answer.index_of(after[stored])
}

/// A table that was empty reads back exactly what was written to it:
/// every row of the answer to the query for the deployments of the batch is
/// a proof of indexing of the batch, and, where the cap allows, every proof
/// of indexing of the batch has its row in the answer, with its own digest
/// unless the batch held another one for its indexer, deployment and block
/// before it.
pub proof fn lemma_fresh_table_reads_back_the_batch(
    batch: Seq<PoiView>,
    liveness: PoiLiveness,
    now: Timestamp,
    query: PoiQueryView,
    answer: Seq<StoredPoiView>,
)
    requires
        write_outcome(Seq::empty(), batch, liveness, now) is Ok,
        query.indexer is None,
        query.block_range is None,
        !query.live_only,
        query.deployments matches Some(names) ==> forall|k: int|
            0 <= k < batch.len() ==> names.contains((#[trigger] batch[k]).deployment),
        query.answered_by(write_outcome(Seq::empty(), batch, liveness, now).unwrap(), answer),
    ensures
        forall|i: int| 0 <= i < answer.len() ==> batch.contains((#[trigger] answer[i]).poi),
        admitted_count(query, write_outcome(Seq::empty(), batch, liveness, now).unwrap())
            <= query.cap() ==> forall|k: int|
            0 <= k < batch.len() ==> exists|i: int|
                0 <= i < answer.len() && (#[trigger] answer[i]).poi.same_coordinates(
                    #[trigger] batch[k],
                ) && ((forall|j: int|
                    0 <= j < k && (#[trigger] batch[j]).same_coordinates(batch[k])
                        ==> batch[j].proof_of_indexing == batch[k].proof_of_indexing)
                    ==> answer[i].poi.same_poi(batch[k])),
{
    let rows = Seq::<StoredPoiView>::empty();
    let after = write_outcome(rows, batch, liveness, now).unwrap();
    let fresh = fresh_pois(rows, batch);
    lemma_fresh_pois(rows, batch);
    assert forall|i: int| 0 <= i < answer.len() implies batch.contains((#[trigger] answer[i]).poi) by {
        assert(after.contains(answer[i]));
        let j = after.index_of(answer[i]);
        assert(after[j].poi == fresh[j]);
    }
    if admitted_count(query, after) <= query.cap() {
        lemma_answer_complete_within_cap(after, query, answer);
        assert forall|k: int| 0 <= k < batch.len() implies exists|i: int|
            0 <= i < answer.len() && (#[trigger] answer[i]).poi.same_coordinates(#[trigger] batch[k])
                && ((forall|j: int|
                0 <= j < k && (#[trigger] batch[j]).same_coordinates(batch[k])
                    ==> batch[j].proof_of_indexing == batch[k].proof_of_indexing)
                ==> answer[i].poi.same_poi(batch[k])) by {
            let stored = lemma_written_is_stored(rows, batch, liveness, now, k);
            assert(query.admits(after[stored]));
            let i = answer.index_of(after[stored]);
            assert(answer[i].poi.same_coordinates(batch[k]));
        }
    }
}

/// What tells one proof of indexing from another: the deployment, the
/// indexer's address, the block and the digest.
pub open spec fn poi_mark(poi: PoiView) -> (Seq<char>, Seq<u8>, BlockPointer, Bytes32) {
    (poi.deployment, poi.indexer.address, poi.block, poi.proof_of_indexing)
}

/// The deployment of a proof of indexing, what names its indexer, and its
/// digest.
pub open spec fn poi_label(poi: PoiView) -> (Seq<char>, Seq<char>, Bytes32) {
    (poi.deployment, indexer_id_text(poi.indexer), poi.proof_of_indexing)
}

/// The marks of the proofs of indexing in `pois`, as a set.
pub open spec fn marks_of(pois: Seq<PoiView>) -> Set<(Seq<char>, Seq<u8>, BlockPointer, Bytes32)> {
    pois.map_values(|p: PoiView| poi_mark(p)).to_set()
}

/// The labels of the proofs of indexing in `pois`, as a set.
pub open spec fn labels_of(pois: Seq<PoiView>) -> Set<(Seq<char>, Seq<char>, Bytes32)> {
    pois.map_values(|p: PoiView| poi_label(p)).to_set()
}

/// The proofs of indexing that the rows of `answer` hold, in order.
pub open spec fn pois_of(answer: Seq<StoredPoiView>) -> Seq<PoiView> {
    answer.map_values(|r: StoredPoiView| r.poi)
}

/// A table that was empty gives back the very set that was written to it.
/// Where no two proofs of indexing of the batch give different digests for
/// one indexer, deployment and block, and the cap allows for all of them,
/// the proofs of indexing in the answer to the query for the deployments of
/// the batch are those of the batch: the same set of marks, and the same
/// set of labels where every indexer of the batch has an address.
pub proof fn lemma_fresh_table_round_trip_as_sets(
    batch: Seq<PoiView>,
    liveness: PoiLiveness,
    now: Timestamp,
    query: PoiQueryView,
    answer: Seq<StoredPoiView>,
)
    requires
        write_outcome(Seq::empty(), batch, liveness, now) is Ok,
        query.indexer is None,
        query.block_range is None,
        !query.live_only,
        query.deployments matches Some(names) ==> forall|k: int|
            0 <= k < batch.len() ==> names.contains((#[trigger] batch[k]).deployment),
        query.answered_by(write_outcome(Seq::empty(), batch, liveness, now).unwrap(), answer),
        admitted_count(query, write_outcome(Seq::empty(), batch, liveness, now).unwrap())
            <= query.cap(),
        forall|j: int, k: int|
            0 <= j < k < batch.len() && (#[trigger] batch[j]).same_coordinates(#[trigger] batch[k])
                ==> batch[j].proof_of_indexing == batch[k].proof_of_indexing,
    ensures
        marks_of(pois_of(answer)) == marks_of(batch),
        (forall|k: int| 0 <= k < batch.len() ==> (#[trigger] batch[k]).indexer.address.len() > 0)
            ==> labels_of(pois_of(answer)) == labels_of(batch),
{
    lemma_fresh_table_reads_back_the_batch(batch, liveness, now, query, answer);
    let read = pois_of(answer);
    let read_marks = read.map_values(|p: PoiView| poi_mark(p));
    let batch_marks = batch.map_values(|p: PoiView| poi_mark(p));
    let read_labels = read.map_values(|p: PoiView| poi_label(p));
    let batch_labels = batch.map_values(|p: PoiView| poi_label(p));
    let with_address = forall|k: int|
        0 <= k < batch.len() ==> (#[trigger] batch[k]).indexer.address.len() > 0;
    assert forall|i: int| 0 <= i < read.len() implies batch_marks.contains(
        #[trigger] read_marks[i],
    ) && batch_labels.contains(read_labels[i]) by {
        assert(batch.contains(answer[i].poi));
        let k = batch.index_of(answer[i].poi);
        assert(batch_marks[k] == read_marks[i]);
        assert(batch_labels[k] == read_labels[i]);
    }
    assert forall|k: int| 0 <= k < batch.len() implies read_marks.contains(
        #[trigger] batch_marks[k],
    ) && (with_address ==> read_labels.contains(batch_labels[k])) by {
        let i = choose|i: int|
            0 <= i < answer.len() && (#[trigger] answer[i]).poi.same_coordinates(
                #[trigger] batch[k],
            ) && ((forall|j: int|
                0 <= j < k && (#[trigger] batch[j]).same_coordinates(batch[k])
                    ==> batch[j].proof_of_indexing == batch[k].proof_of_indexing)
                ==> answer[i].poi.same_poi(batch[k]));
        assert(answer[i].poi.same_poi(batch[k]));
        assert(read_marks[i] == batch_marks[k]);
        if with_address {
            assert(batch[k].indexer.address.len() > 0);
            assert(read_labels[i] == batch_labels[k]);
        }
    }
    assert(read_marks.to_set() =~= batch_marks.to_set()) by {
        assert forall|m: (Seq<char>, Seq<u8>, BlockPointer, Bytes32)|
            read_marks.to_set().contains(m) <==> batch_marks.to_set().contains(m) by {
            if read_marks.contains(m) {
                let i = read_marks.index_of(m);
                assert(batch_marks.contains(read_marks[i]));
            }
            if batch_marks.contains(m) {
                let k = batch_marks.index_of(m);
                assert(read_marks.contains(batch_marks[k]));
            }
        }
    }
    if with_address {
        assert(read_labels.to_set() =~= batch_labels.to_set()) by {
            assert forall|m: (Seq<char>, Seq<char>, Bytes32)|
                read_labels.to_set().contains(m) <==> batch_labels.to_set().contains(m) by {
                if read_labels.contains(m) {
                    let i = read_labels.index_of(m);
                    assert(batch_marks.contains(read_marks[i]));
                }
                if batch_labels.contains(m) {
                    let k = batch_labels.index_of(m);
                    assert(read_marks.contains(batch_marks[k]));
                }
            }
        }
    }
}

/// Whether `a` and `b` are of the same indexer, deployment and block.
pub fn same_coordinates(a: &ProofOfIndexing, b: &ProofOfIndexing) -> (same: bool)
    ensures
        same == a@.same_coordinates(b@),
{
    a.indexer.same_as(&b.indexer) && a.deployment == b.deployment && a.block == b.block
}

/// Whether `a` and `b` are of the same indexer and deployment.
pub fn same_pair(a: &ProofOfIndexing, b: &ProofOfIndexing) -> (same: bool)
    ensures
        same == (a@.indexer.address == b@.indexer.address && a@.deployment == b@.deployment),
{
    a.indexer.same_as(&b.indexer) && a.deployment == b.deployment
}

/// Whether a row of `rows` has the indexer, deployment and block of `poi`.
pub(crate) fn rows_hold(rows: &Vec<StoredPoi>, poi: &ProofOfIndexing) -> (held: bool)
    ensures
        held == has_coordinates(row_views(rows@), poi@),
{
    let ghost views = row_views(rows@);
    let mut i: usize = 0;
    while i < rows.len()
        invariant
            i <= rows@.len(),
            views == row_views(rows@),
            forall|j: int| 0 <= j < i ==> !(#[trigger] views[j]).poi.same_coordinates(poi@),
        decreases rows@.len() - i,
    {
        if same_coordinates(&rows[i].poi, poi) {
            assert(views[i as int].poi.same_coordinates(poi@));
            return true;
        }
        i = i + 1;
    }
    false
}

/// Whether one of `pois` has the indexer, deployment and block of `poi`.
pub(crate) fn pois_list(pois: &Vec<ProofOfIndexing>, poi: &ProofOfIndexing) -> (listed: bool)
    ensures
        listed == lists_coordinates(poi_views(pois@), poi@),
{
    let ghost views = poi_views(pois@);
    let mut i: usize = 0;
    while i < pois.len()
        invariant
            i <= pois@.len(),
            views == poi_views(pois@),
            forall|j: int| 0 <= j < i ==> !(#[trigger] views[j]).same_coordinates(poi@),
        decreases pois@.len() - i,
    {
        if same_coordinates(&pois[i], poi) {
            assert(views[i as int].same_coordinates(poi@));
            return true;
        }
        i = i + 1;
    }
    false
}

/// Whether one of `batch` is of the indexer and deployment of `poi`.
pub(crate) fn batch_touches(batch: &Vec<ProofOfIndexing>, poi: &ProofOfIndexing) -> (touched: bool)
    ensures
        touched == touches(poi_views(batch@), poi@.indexer.address, poi@.deployment),
{
    let ghost views = poi_views(batch@);
    let mut i: usize = 0;
    while i < batch.len()
        invariant
            i <= batch@.len(),
            views == poi_views(batch@),
            forall|j: int|
                0 <= j < i ==> !((#[trigger] views[j]).indexer.address == poi@.indexer.address
                    && views[j].deployment == poi@.deployment),
        decreases batch@.len() - i,
    {
        if same_pair(&batch[i], poi) {
            assert(views[i as int].indexer.address == poi@.indexer.address);
            return true;
        }
        i = i + 1;
    }
    false
}

/// The proofs of indexing of `batch` that a write adds to `rows`.
pub(crate) fn fresh_of(rows: &Vec<StoredPoi>, batch: &Vec<ProofOfIndexing>) -> (fresh: Vec<ProofOfIndexing>)
    ensures
        poi_views(fresh@) == fresh_pois(row_views(rows@), poi_views(batch@)),
{
    let ghost views = poi_views(batch@);
    let mut fresh: Vec<ProofOfIndexing> = Vec::new();
    let mut i: usize = 0;
    while i < batch.len()
        invariant
            i <= batch@.len(),
            views == poi_views(batch@),
            poi_views(fresh@) == fresh_pois(row_views(rows@), views.take(i as int)),
        decreases batch@.len() - i,
    {
        proof {
            assert(views.take(i + 1).drop_last() =~= views.take(i as int));
            assert(views.take(i + 1).last() == batch@[i as int]@);
        }
        if !rows_hold(rows, &batch[i]) && !pois_list(&fresh, &batch[i]) {
            let ghost before = poi_views(fresh@);
            let copy = batch[i].clone();
            fresh.push(copy);
            assert(poi_views(fresh@) =~= before.push(batch@[i as int]@));
        }
        i = i + 1;
    }
    assert(views.take(i as int) =~= views);
    fresh
}

/// Whether no two of `pois` are of the same indexer and deployment.
pub(crate) fn all_pairs_distinct(pois: &Vec<ProofOfIndexing>) -> (distinct: bool)
    ensures
        distinct == pairs_distinct(poi_views(pois@)),
{
    let ghost views = poi_views(pois@);
    let mut j: usize = 0;
    while j < pois.len()
        invariant
            j <= pois@.len(),
            views == poi_views(pois@),
            forall|a: int, b: int|
                0 <= a < b < j ==> !((#[trigger] views[a]).indexer.address
                    == (#[trigger] views[b]).indexer.address && views[a].deployment
                    == views[b].deployment),
        decreases pois@.len() - j,
    {
        let mut i: usize = 0;
        while i < j
            invariant
                i <= j < pois@.len(),
                views == poi_views(pois@),
                forall|a: int|
                    0 <= a < i ==> !((#[trigger] views[a]).indexer.address
                        == views[j as int].indexer.address && views[a].deployment
                        == views[j as int].deployment),
            decreases j - i,
        {
            if same_pair(&pois[i], &pois[j]) {
                assert(views[i as int].indexer.address == views[j as int].indexer.address);
                return false;
            }
            i = i + 1;
        }
        j = j + 1;
    }
    true
}

/// What a write comes to for a table that is kept elsewhere: the proofs of
/// indexing to add as rows, the rows that stop being live, by identifier,
/// and whether the added rows are live.
#[derive(Debug)]
pub struct WritePlan {
    pub insert: Vec<ProofOfIndexing>,
    pub clear: Vec<IntId>,
    pub make_live: bool,
}

/// The identifiers of the rows that a write takes the live flag from,
/// where `batch` are the proofs of indexing that it adds: in a live write the
/// live rows of an indexer and deployment that get a new row, and none
/// otherwise.
pub open spec fn cleared_ids(rows: Seq<StoredPoiView>, batch: Seq<PoiView>, liveness: PoiLiveness) -> Seq<
    IntId,
>
    decreases rows.len(),
{
    if rows.len() == 0 {
        Seq::empty()
    } else {
        let before = cleared_ids(rows.drop_last(), batch, liveness);
        let row = rows.last();
        if liveness == PoiLiveness::Live && row.live && touches(
            batch,
            row.poi.indexer.address,
            row.poi.deployment,
        ) {
            before.push(row.id)
        } else {
            before
        }
    }
}

/// The identifiers that a write clears are those of the live rows of an
/// indexer and deployment that get a new row.
pub proof fn lemma_cleared_ids(
    rows: Seq<StoredPoiView>,
    batch: Seq<PoiView>,
    liveness: PoiLiveness,
    id: IntId,
)
    ensures
        cleared_ids(rows, batch, liveness).contains(id) <==> liveness == PoiLiveness::Live && exists|
            i: int,
        |
            0 <= i < rows.len() && (#[trigger] rows[i]).id == id && rows[i].live && touches(
                batch,
                rows[i].poi.indexer.address,
                rows[i].poi.deployment,
            ),
    decreases rows.len(),
{
    if rows.len() > 0 {
        let shorter = rows.drop_last();
        let before = cleared_ids(shorter, batch, liveness);
        let all = cleared_ids(rows, batch, liveness);
        let row = rows.last();
        let cleared = liveness == PoiLiveness::Live && row.live && touches(
            batch,
            row.poi.indexer.address,
            row.poi.deployment,
        );
        lemma_cleared_ids(shorter, batch, liveness, id);
        if all.contains(id) {
            let at = all.index_of(id);
            if at < before.len() {
                assert(before[at] == id);
                let i = choose|i: int|
                    0 <= i < shorter.len() && (#[trigger] shorter[i]).id == id && shorter[i].live
                        && touches(batch, shorter[i].poi.indexer.address, shorter[i].poi.deployment);
                assert(rows[i].id == id);
            } else {
                assert(rows[rows.len() - 1].id == id);
            }
        }
        if liveness == PoiLiveness::Live && exists|i: int|
            0 <= i < rows.len() && (#[trigger] rows[i]).id == id && rows[i].live && touches(
                batch,
                rows[i].poi.indexer.address,
                rows[i].poi.deployment,
            ) {
            let i = choose|i: int|
                0 <= i < rows.len() && (#[trigger] rows[i]).id == id && rows[i].live && touches(
                    batch,
                    rows[i].poi.indexer.address,
                    rows[i].poi.deployment,
                );
            if i < rows.len() - 1 {
                assert(shorter[i].id == id);
                let at = before.index_of(id);
                assert(all[at] == id);
            } else {
                assert(all[all.len() - 1] == id);
            }
        }
    }
}

/// A plan says what the write does to the table: the rows that were
/// there stay, those whose identifier the plan clears without their live
/// flag, and the fresh proofs of indexing follow as new rows.
pub proof fn lemma_plan_describes_write(
    rows: Seq<StoredPoiView>,
    batch: Seq<PoiView>,
    liveness: PoiLiveness,
    now: Timestamp,
)
    requires
        ids_ascending(rows),
    ensures
        ({
            let after = rows_after_write(rows, batch, liveness, now);
            let fresh = fresh_pois(rows, batch);
            let cleared = cleared_ids(rows, fresh, liveness);
            &&& after.len() == rows.len() + fresh.len()
            &&& forall|i: int|
                0 <= i < rows.len() ==> #[trigger] after[i] == (if cleared.contains(rows[i].id) {
                    StoredPoiView { live: false, ..rows[i] }
                } else {
                    rows[i]
                })
            &&& forall|i: int|
                rows.len() <= i < after.len() ==> (#[trigger] after[i]).poi == fresh[i - rows.len()]
                    && after[i].live == (liveness == PoiLiveness::Live) && after[i].created_at
                    == now
        }),
{
    let after = rows_after_write(rows, batch, liveness, now);
    let fresh = fresh_pois(rows, batch);
    let cleared = cleared_ids(rows, fresh, liveness);
    assert forall|i: int| 0 <= i < rows.len() implies #[trigger] after[i] == (if cleared.contains(
        rows[i].id,
    ) {
        StoredPoiView { live: false, ..rows[i] }
    } else {
        rows[i]
    }) by {
        lemma_cleared_ids(rows, fresh, liveness, rows[i].id);
        if cleared.contains(rows[i].id) {
            let j = choose|j: int|
                0 <= j < rows.len() && (#[trigger] rows[j]).id == rows[i].id && rows[j].live
                    && touches(fresh, rows[j].poi.indexer.address, rows[j].poi.deployment);
            if j < i {
                assert(rows[j].id < rows[i].id);
            } else if i < j {
                assert(rows[i].id < rows[j].id);
            }
        }
    }
}

/// Whether one of `batch` is of the deployment `deployment`.
pub open spec fn concerns(batch: Seq<PoiView>, deployment: Seq<char>) -> bool {
    exists|i: int| 0 <= i < batch.len() && (#[trigger] batch[i]).deployment == deployment
}

/// Whether `loaded` holds the rows of `whole` that a write of `batch` is
/// about: rows of `whole`, and among them all rows of the deployments of the
/// batch.
pub open spec fn holds_rows_concerned(
    whole: Seq<StoredPoiView>,
    loaded: Seq<StoredPoiView>,
    batch: Seq<PoiView>,
) -> bool {
    &&& forall|i: int| 0 <= i < loaded.len() ==> whole.contains(#[trigger] loaded[i])
    &&& forall|i: int|
        0 <= i < whole.len() && concerns(batch, (#[trigger] whole[i]).poi.deployment)
            ==> loaded.contains(whole[i])
}

/// The fresh proofs of indexing of a batch depend only on which of them
/// the table holds already.
proof fn lemma_fresh_by_coordinates(
    whole: Seq<StoredPoiView>,
    loaded: Seq<StoredPoiView>,
    batch: Seq<PoiView>,
)
    requires
        forall|i: int|
            0 <= i < batch.len() ==> has_coordinates(whole, #[trigger] batch[i]) == has_coordinates(
                loaded,
                batch[i],
            ),
    ensures
        fresh_pois(whole, batch) == fresh_pois(loaded, batch),
    decreases batch.len(),
{
    if batch.len() > 0 {
        let shorter = batch.drop_last();
        assert forall|i: int| 0 <= i < shorter.len() implies has_coordinates(
            whole,
            #[trigger] shorter[i],
        ) == has_coordinates(loaded, shorter[i]) by {
            assert(shorter[i] == batch[i]);
        }
        lemma_fresh_by_coordinates(whole, loaded, shorter);
        assert(batch.last() == batch[batch.len() - 1]);
    }
}

/// To plan a write it is enough to know the rows of the deployments of
/// the batch: the plan made over them adds the same proofs of indexing and
/// clears the same rows as the plan made over the whole table.
pub proof fn lemma_plan_from_rows_concerned(
    whole: Seq<StoredPoiView>,
    loaded: Seq<StoredPoiView>,
    batch: Seq<PoiView>,
    liveness: PoiLiveness,
)
    requires
        holds_rows_concerned(whole, loaded, batch),
    ensures
        fresh_pois(whole, batch) == fresh_pois(loaded, batch),
        forall|id: IntId|
            cleared_ids(whole, fresh_pois(whole, batch), liveness).contains(id) <==> cleared_ids(
                loaded,
                fresh_pois(loaded, batch),
                liveness,
            ).contains(id),
{
    assert forall|k: int| 0 <= k < batch.len() implies has_coordinates(whole, #[trigger] batch[k])
        == has_coordinates(loaded, batch[k]) by {
        if has_coordinates(whole, batch[k]) {
            let i = choose|i: int|
                0 <= i < whole.len() && (#[trigger] whole[i]).poi.same_coordinates(batch[k]);
            assert(concerns(batch, whole[i].poi.deployment));
            let j = loaded.index_of(whole[i]);
            assert(loaded[j].poi.same_coordinates(batch[k]));
        }
        if has_coordinates(loaded, batch[k]) {
            let j = choose|j: int|
                0 <= j < loaded.len() && (#[trigger] loaded[j]).poi.same_coordinates(batch[k]);
            let i = whole.index_of(loaded[j]);
            assert(whole[i].poi.same_coordinates(batch[k]));
        }
    }
    lemma_fresh_by_coordinates(whole, loaded, batch);
    lemma_fresh_pois(whole, batch);
    let fresh = fresh_pois(whole, batch);
    assert forall|id: IntId|
        cleared_ids(whole, fresh, liveness).contains(id) <==> cleared_ids(
            loaded,
            fresh,
            liveness,
        ).contains(id) by {
        lemma_cleared_ids(whole, fresh, liveness, id);
        lemma_cleared_ids(loaded, fresh, liveness, id);
        if cleared_ids(whole, fresh, liveness).contains(id) {
            let i = choose|i: int|
                0 <= i < whole.len() && (#[trigger] whole[i]).id == id && whole[i].live && touches(
                    fresh,
                    whole[i].poi.indexer.address,
                    whole[i].poi.deployment,
                );
            let k = choose|k: int|
                0 <= k < fresh.len() && (#[trigger] fresh[k]).indexer.address
                    == whole[i].poi.indexer.address && fresh[k].deployment
                    == whole[i].poi.deployment;
            let b = batch.index_of(fresh[k]);
            assert(batch[b].deployment == whole[i].poi.deployment);
            assert(concerns(batch, whole[i].poi.deployment));
            let j = loaded.index_of(whole[i]);
            assert(loaded[j].id == id);
        }
        if cleared_ids(loaded, fresh, liveness).contains(id) {
            let j = choose|j: int|
                0 <= j < loaded.len() && (#[trigger] loaded[j]).id == id && loaded[j].live
                    && touches(fresh, loaded[j].poi.indexer.address, loaded[j].poi.deployment);
            let i = whole.index_of(loaded[j]);
            assert(whole[i].id == id);
        }
    }
}

/// Plans the write of `batch` to a table whose rows are `rows`: which
/// proofs of indexing to add, and which rows stop being live because their
/// indexer and deployment get a new live row. A live write that would make
/// two new rows of one indexer and deployment live is refused.
pub fn plan_write(rows: &Vec<StoredPoi>, batch: &Vec<ProofOfIndexing>, liveness: PoiLiveness) -> (res:
    Result<WritePlan, StoreError>)
    ensures
        match res {
            Ok(plan) => {
                &&& poi_views(plan.insert@) == fresh_pois(row_views(rows@), poi_views(batch@))
                &&& plan.clear@ == cleared_ids(row_views(rows@), poi_views(plan.insert@), liveness)
                &&& plan.make_live == (liveness == PoiLiveness::Live)
                &&& liveness == PoiLiveness::Live ==> pairs_distinct(
                    fresh_pois(row_views(rows@), poi_views(batch@)),
                )
            },
            Err(e) => e == StoreError::Constraint && liveness == PoiLiveness::Live
                && !pairs_distinct(fresh_pois(row_views(rows@), poi_views(batch@))),
        },
{
    let ghost views = row_views(rows@);
    let insert = fresh_of(rows, batch);
    let make_live = match liveness {
        PoiLiveness::Live => true,
        PoiLiveness::NotLive => false,
    };
    if make_live && !all_pairs_distinct(&insert) {
        return Err(StoreError::Constraint);
    }
    let mut clear: Vec<IntId> = Vec::new();
    let mut i: usize = 0;
    while i < rows.len()
        invariant
            i <= rows@.len(),
            views == row_views(rows@),
            make_live == (liveness == PoiLiveness::Live),
            clear@ == cleared_ids(views.take(i as int), poi_views(insert@), liveness),
        decreases rows@.len() - i,
    {
        proof {
            assert(views.take(i + 1).drop_last() =~= views.take(i as int));
            assert(views.take(i + 1).last() == rows@[i as int]@);
        }
        if make_live && rows[i].live && batch_touches(&insert, &rows[i].poi) {
            clear.push(rows[i].id);
        }
        i = i + 1;
    }
    assert(views.take(i as int) =~= views);
    Ok(WritePlan { insert, clear, make_live })
}

} // verus!
