//! The table of reports on where two proofs of indexing first diverge.
//!
//! A report names its two proofs of indexing lower identifier first, and
//! no two reports are about the same two.

use crate::models::{IntId, PoiDivergenceBisectReport, Timestamp};
use crate::writes::StoreError;
use vstd::prelude::*;

verus! {

/// Whether `reports` obey the rules of their table: identifiers grow,
/// each report names its two proofs of indexing lower identifier first, and
/// no two reports are about the same two.
pub open spec fn reports_wf(reports: Seq<PoiDivergenceBisectReport>) -> bool {
    &&& forall|i: int, j: int|
        0 <= i < j < reports.len() ==> (#[trigger] reports[i]).id < (#[trigger] reports[j]).id
    &&& forall|i: int|
        0 <= i < reports.len() ==> (#[trigger] reports[i]).id >= 1 && reports[i].poi1_id
            < reports[i].poi2_id
    &&& forall|i: int, j: int|
        0 <= i < j < reports.len() ==> !((#[trigger] reports[i]).poi1_id
            == (#[trigger] reports[j]).poi1_id && reports[i].poi2_id == reports[j].poi2_id)
}

/// A pair of identifiers with the lower one first.
pub open spec fn normalized_pair(a: IntId, b: IntId) -> (IntId, IntId) {
    if a < b {
        (a, b)
    } else {
        (b, a)
    }
}

/// Puts two identifiers lower one first.
pub fn normalize_pair(a: IntId, b: IntId) -> (pair: (IntId, IntId))
    ensures
        pair == normalized_pair(a, b),
        pair.0 <= pair.1,
{
    if a < b {
        (a, b)
    } else {
        (b, a)
    }
}

/// The position of the first report about `pair`, or `reports.len()`.
pub open spec fn report_index(reports: Seq<PoiDivergenceBisectReport>, pair: (IntId, IntId)) -> int
    decreases reports.len(),
{
    if reports.len() == 0 {
        0
    } else if reports[0].poi1_id == pair.0 && reports[0].poi2_id == pair.1 {
        0
    } else {
        1 + report_index(reports.skip(1), pair)
    }
}

/// The identifier that the next report gets.
pub open spec fn next_report_id(reports: Seq<PoiDivergenceBisectReport>) -> int {
    if reports.len() == 0 {
        1
    } else {
        reports.last().id + 1
    }
}

/// What filing a report that the proofs of indexing `a` and `b` first
/// diverge at `block` comes to: the reports afterwards, and the identifier
/// of the report. The two are put lower identifier first. A report about
/// them that names the same block is found again; one that names another
/// block, or a report about one proof of indexing and itself, is refused.
pub open spec fn report_outcome(
    reports: Seq<PoiDivergenceBisectReport>,
    a: IntId,
    b: IntId,
    block: IntId,
    now: Timestamp,
) -> Result<(Seq<PoiDivergenceBisectReport>, IntId), StoreError> {
    let pair = normalized_pair(a, b);
    let at = report_index(reports, pair);
    if a == b {
        Err(StoreError::Constraint)
    } else if at < reports.len() {
        if reports[at].divergence_block_id == block {
            Ok((reports, reports[at].id))
        } else {
            Err(StoreError::Constraint)
        }
    } else if next_report_id(reports) > i32::MAX {
        Err(StoreError::Exhausted)
    } else {
        Ok(
            (
                reports.push(
                    PoiDivergenceBisectReport {
                        id: next_report_id(reports) as IntId,
                        poi1_id: pair.0,
                        poi2_id: pair.1,
                        divergence_block_id: block,
                        created_at: now,
                    },
                ),
                next_report_id(reports) as IntId,
            ),
        )
    }
}

/// Where `report_index` points there is a report about the pair, and
/// before it there is none.
pub proof fn lemma_report_index(reports: Seq<PoiDivergenceBisectReport>, pair: (IntId, IntId))
    ensures
        0 <= report_index(reports, pair) <= reports.len(),
        report_index(reports, pair) < reports.len() ==> reports[report_index(reports, pair)].poi1_id
            == pair.0 && reports[report_index(reports, pair)].poi2_id == pair.1,
        forall|i: int|
            0 <= i < report_index(reports, pair) ==> !((#[trigger] reports[i]).poi1_id == pair.0
                && reports[i].poi2_id == pair.1),
    decreases reports.len(),
{
    if reports.len() > 0 && !(reports[0].poi1_id == pair.0 && reports[0].poi2_id == pair.1) {
        let rest = reports.skip(1);
        lemma_report_index(rest, pair);
        assert forall|i: int| 0 <= i < report_index(reports, pair) implies !((#[trigger] reports[i]).poi1_id
            == pair.0 && reports[i].poi2_id == pair.1) by {
            if i > 0 {
                assert(rest[i - 1] == reports[i]);
            }
        }
        let at = report_index(rest, pair);
        if at < rest.len() {
            assert(rest[at] == reports[at + 1]);
        }
    }
}

/// A position at which a report about the pair stands, with none before
/// it, is where `report_index` points.
pub proof fn lemma_report_index_is(
    reports: Seq<PoiDivergenceBisectReport>,
    pair: (IntId, IntId),
    at: int,
)
    requires
        0 <= at <= reports.len(),
        at < reports.len() ==> reports[at].poi1_id == pair.0 && reports[at].poi2_id == pair.1,
        forall|i: int|
            0 <= i < at ==> !((#[trigger] reports[i]).poi1_id == pair.0 && reports[i].poi2_id
                == pair.1),
    ensures
        report_index(reports, pair) == at,
{
    lemma_report_index(reports, pair);
    let found = report_index(reports, pair);
    if found < at {
        assert(!(reports[found].poi1_id == pair.0 && reports[found].poi2_id == pair.1));
    }
}

/// Filing a report does not depend on the order in which the two proofs of
/// indexing are named.
pub proof fn lemma_report_pair_order(
    reports: Seq<PoiDivergenceBisectReport>,
    a: IntId,
    b: IntId,
    block: IntId,
    now: Timestamp,
)
    ensures
        report_outcome(reports, a, b, block, now) == report_outcome(reports, b, a, block, now),
{
}

/// Filing the same report again, with the two proofs of indexing in either
/// order, changes nothing and gives the identifier of the first filing: the
/// table holds one row for it.
pub proof fn lemma_report_idempotent(
    reports: Seq<PoiDivergenceBisectReport>,
    a: IntId,
    b: IntId,
    block: IntId,
    now: Timestamp,
    later: Timestamp,
)
    requires
        report_outcome(reports, a, b, block, now) is Ok,
    ensures
        ({
            let (after, id) = report_outcome(reports, a, b, block, now).unwrap();
            &&& report_outcome(after, a, b, block, later) == Ok::<
                (Seq<PoiDivergenceBisectReport>, IntId),
                StoreError,
            >((after, id))
            &&& report_outcome(after, b, a, block, later) == Ok::<
                (Seq<PoiDivergenceBisectReport>, IntId),
                StoreError,
            >((after, id))
            &&& after.len() <= reports.len() + 1
        }),
{
    let pair = normalized_pair(a, b);
    let (after, id) = report_outcome(reports, a, b, block, now).unwrap();
    lemma_report_index(reports, pair);
    let at = report_index(reports, pair);
    if at == reports.len() {
        assert forall|i: int| 0 <= i < at implies !((#[trigger] after[i]).poi1_id == pair.0
            && after[i].poi2_id == pair.1) by {
            assert(after[i] == reports[i]);
        }
    }
    lemma_report_index_is(after, pair, at);
}

/// Filing a report keeps the rules of the table of reports.
pub proof fn lemma_report_keeps_rules(
    reports: Seq<PoiDivergenceBisectReport>,
    a: IntId,
    b: IntId,
    block: IntId,
    now: Timestamp,
)
    requires
        reports_wf(reports),
        report_outcome(reports, a, b, block, now) is Ok,
    ensures
        reports_wf(report_outcome(reports, a, b, block, now).unwrap().0),
{
    let pair = normalized_pair(a, b);
    let after = report_outcome(reports, a, b, block, now).unwrap().0;
    lemma_report_index(reports, pair);
    let n = reports.len() as int;
    if report_index(reports, pair) == n {
        assert forall|i: int, j: int| 0 <= i < j < after.len() implies (#[trigger] after[i]).id
            < (#[trigger] after[j]).id by {
            if j < n {
                assert(reports[i].id < reports[j].id);
            } else if i < n - 1 {
                assert(reports[i].id < reports[n - 1].id);
            }
        }
        assert forall|i: int| 0 <= i < after.len() implies (#[trigger] after[i]).id >= 1
            && after[i].poi1_id < after[i].poi2_id by {
            if i < n {
                assert(reports[i].id >= 1);
            } else if n > 0 {
                assert(reports[n - 1].id >= 1);
            }
        }
        assert forall|i: int, j: int| 0 <= i < j < after.len() implies !((#[trigger] after[i]).poi1_id
            == (#[trigger] after[j]).poi1_id && after[i].poi2_id == after[j].poi2_id) by {
            if j < n {
                assert(!(reports[i].poi1_id == reports[j].poi1_id && reports[i].poi2_id
                    == reports[j].poi2_id));
            } else {
                assert(!(reports[i].poi1_id == pair.0 && reports[i].poi2_id == pair.1));
            }
        }
    }
}

/// What filing a report comes to where the two proofs of indexing have a
/// report already: that report, if it names the same block, and a refusal
/// if it names another.
pub fn refile_outcome(existing: &PoiDivergenceBisectReport, block: IntId) -> (res: Result<
    IntId,
    StoreError,
>)
    ensures
        res == (if existing.divergence_block_id == block {
            Ok::<IntId, StoreError>(existing.id)
        } else {
            Err::<IntId, StoreError>(StoreError::Constraint)
        }),
{
    if existing.divergence_block_id == block {
        Ok(existing.id)
    } else {
        Err(StoreError::Constraint)
    }
}

} // verus!
