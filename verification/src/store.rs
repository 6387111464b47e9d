//! The store: the table of proofs of indexing and the table of reports,
//! kept in memory, with every write and every query held to the rules of
//! the tables.

use crate::hexcodec::{hex_decode_exact, trim_0x};
use crate::models::{IntId, PoiDivergenceBisectReport, Timestamp};
use crate::polling::poi_views;
use crate::report_table::{
    lemma_report_index, lemma_report_index_is, lemma_report_keeps_rules, normalize_pair,
    normalized_pair, refile_outcome, report_outcome, reports_wf,
};
use crate::rows::{
    row_views, select_rows, text_views, BlockRange, PoiQuery, PoiQueryView, StoredPoi,
    StoredPoiView,
};
use crate::ordering::{distinct_keys_in_order, key_picked, key_views, lex_less, picks_below};
use crate::polling::indexer_views;
use crate::types::{copy_bytes, Bytes32, Indexer, IndexerView, PoiView, ProofOfIndexing};
use vstd::utf8::{encode_utf8, encode_utf8_decode_utf8};
use crate::writes::{
    all_pairs_distinct, batch_touches, fresh_of, fresh_pois, lemma_write_keeps_rules,
    lemma_written_is_stored, next_row_id, rows_after_write, rows_wf, write_outcome, PoiLiveness,
    StoreError,
};
use vstd::prelude::*;
use vstd::string::*;

verus! {

/// The position of the first row with the digest `digest`, or `rows.len()`.
pub open spec fn digest_index(rows: Seq<StoredPoiView>, digest: Seq<u8>) -> int
    decreases rows.len(),
{
    if rows.len() == 0 {
        0
    } else if rows[0].poi.proof_of_indexing@ == digest {
        0
    } else {
        1 + digest_index(rows.skip(1), digest)
    }
}

/// The digest that a text names: 64 hexadecimal digits, with or without
/// leading `0x` markers.
pub open spec fn named_digest(text: &str) -> Option<Seq<u8>> {
    match hex_decode_exact(trim_0x(text.spec_bytes()), 32) {
        Ok(bytes) => Some(bytes),
        Err(_) => None,
    }
}

/// The stored proof of indexing that a text names by its digest: the
/// oldest row with that digest. A text that is no digest is refused.
pub open spec fn named_row(rows: Seq<StoredPoiView>, text: &str) -> Result<
    Option<StoredPoiView>,
    StoreError,
> {
    match named_digest(text) {
        None => Err(StoreError::InvalidDigest),
        Some(digest) => {
            let at = digest_index(rows, digest);
            if at < rows.len() {
                Ok(Some(rows[at]))
            } else {
                Ok(None)
            }
        },
    }
}

/// What filing a report about the proofs of indexing that two texts name
/// comes to. Each text must be a digest and name a stored proof of indexing;
/// the first text is looked at first.
pub open spec fn report_request_outcome(
    store: StoreView,
    poi1: &str,
    poi2: &str,
    block: IntId,
    now: Timestamp,
) -> Result<(Seq<PoiDivergenceBisectReport>, IntId), StoreError> {
    match named_row(store.pois, poi1) {
        Err(e) => Err(e),
        Ok(None) => Err(StoreError::UnknownPoi),
        Ok(Some(first)) => match named_row(store.pois, poi2) {
            Err(e) => Err(e),
            Ok(None) => Err(StoreError::UnknownPoi),
            Ok(Some(second)) => report_outcome(store.reports, first.id, second.id, block, now),
        },
    }
}

/// A report that was filed with its proofs of indexing named in one order
/// is the report that filing it in the other order gives.
pub proof fn lemma_report_request_pair_order(
    store: StoreView,
    poi1: &str,
    poi2: &str,
    block: IntId,
    now: Timestamp,
)
    requires
        report_request_outcome(store, poi1, poi2, block, now) is Ok,
    ensures
        report_request_outcome(store, poi2, poi1, block, now) == report_request_outcome(
            store,
            poi1,
            poi2,
            block,
            now,
        ),
{
}

/// Whether a row of `rows` is of the deployment `name`.
pub open spec fn deployment_stored(rows: Seq<StoredPoiView>, name: Seq<char>) -> bool {
    exists|k: int| 0 <= k < rows.len() && (#[trigger] rows[k]).poi.deployment == name
}

/// Whether `names` are the deployments of `rows`: each of them once, in
/// the byte order of their identifiers.
pub open spec fn lists_deployments(rows: Seq<StoredPoiView>, names: Seq<Seq<char>>) -> bool {
    &&& forall|i: int, j: int|
        0 <= i < j < names.len() ==> lex_less(
            encode_utf8(#[trigger] names[i]),
            encode_utf8(#[trigger] names[j]),
        )
    &&& forall|i: int| 0 <= i < names.len() ==> deployment_stored(rows, #[trigger] names[i])
    &&& forall|k: int| 0 <= k < rows.len() ==> names.contains((#[trigger] rows[k]).poi.deployment)
}

/// Whether a row of `rows` is of the indexer `indexer`, name and all.
pub open spec fn indexer_stored(rows: Seq<StoredPoiView>, indexer: IndexerView) -> bool {
    exists|k: int| 0 <= k < rows.len() && (#[trigger] rows[k]).poi.indexer == indexer
}

/// Whether one of `indexers` has the address `address`.
pub open spec fn address_listed(indexers: Seq<IndexerView>, address: Seq<u8>) -> bool {
    exists|i: int| 0 <= i < indexers.len() && (#[trigger] indexers[i]).address == address
}

/// Whether `indexers` are the indexers of `rows`: each address once, in
/// the order of the addresses.
pub open spec fn lists_indexers(rows: Seq<StoredPoiView>, indexers: Seq<IndexerView>) -> bool {
    &&& forall|i: int, j: int|
        0 <= i < j < indexers.len() ==> lex_less(
            (#[trigger] indexers[i]).address,
            (#[trigger] indexers[j]).address,
        )
    &&& forall|i: int| 0 <= i < indexers.len() ==> indexer_stored(rows, #[trigger] indexers[i])
    &&& forall|k: int|
        0 <= k < rows.len() ==> address_listed(indexers, (#[trigger] rows[k]).poi.indexer.address)
}

/// A write that took effect makes the store know the deployment and the
/// indexer of every proof of indexing of the batch: afterwards both are among
/// the deployments and indexers that the store lists.
pub proof fn lemma_write_makes_known(
    rows: Seq<StoredPoiView>,
    batch: Seq<PoiView>,
    liveness: PoiLiveness,
    now: Timestamp,
    k: int,
    names: Seq<Seq<char>>,
    indexers: Seq<IndexerView>,
)
    requires
        write_outcome(rows, batch, liveness, now) is Ok,
        0 <= k < batch.len(),
        lists_deployments(write_outcome(rows, batch, liveness, now).unwrap(), names),
        lists_indexers(write_outcome(rows, batch, liveness, now).unwrap(), indexers),
    ensures
        names.contains(batch[k].deployment),
        address_listed(indexers, batch[k].indexer.address),
{
    let after = write_outcome(rows, batch, liveness, now).unwrap();
    let at = lemma_written_is_stored(rows, batch, liveness, now, k);
    assert(after[at].poi.deployment == batch[k].deployment);
    assert(after[at].poi.indexer.address == batch[k].indexer.address);
}

/// The store: the table of proofs of indexing and the table of reports.
#[derive(Debug)]
pub struct PoiStore {
    pois: Vec<StoredPoi>,
    reports: Vec<PoiDivergenceBisectReport>,
}

/// The store as contracts see it.
pub struct StoreView {
    pub pois: Seq<StoredPoiView>,
    pub reports: Seq<PoiDivergenceBisectReport>,
}

impl View for PoiStore {
    type V = StoreView;

    closed spec fn view(&self) -> StoreView {
        StoreView { pois: row_views(self.pois@), reports: self.reports@ }
    }
}

impl StoreView {
    /// Whether both tables obey their rules.
    pub open spec fn wf(self) -> bool {
        rows_wf(self.pois) && reports_wf(self.reports)
    }
}

/// Calls `chrono::Utc::now` and takes the seconds since the Unix epoch.
/// Trusted, and nothing is claimed of the result: it is the time of the
/// call. The call does not return where the clock stands before the epoch.
#[verifier::external_body]
fn current_timestamp() -> (now: Timestamp) {
    chrono::Utc::now().timestamp()
}

impl PoiStore {
    /// An empty store.
    pub fn new() -> (store: PoiStore)
        ensures
            store@.pois.len() == 0,
            store@.reports.len() == 0,
            store@.wf(),
    {
        PoiStore { pois: Vec::new(), reports: Vec::new() }
    }

    /// How many proofs of indexing are stored.
    pub fn len(&self) -> (n: usize)
        ensures
            n == self@.pois.len(),
    {
        self.pois.len()
    }

    /// Writes a batch of proofs of indexing, as a whole or not at all.
    ///
    /// A proof of indexing whose indexer, deployment and block are stored
    /// already, or stand earlier in the batch, is passed over. A live write
    /// gives the live flag to the rows it adds, and takes it from the rows
    /// that were there for their indexers and deployments. It is refused
    /// where two added rows would be live for one indexer and deployment;
    /// any write is refused where the identifiers run out.
    pub fn write_pois(&mut self, batch: &Vec<ProofOfIndexing>, liveness: PoiLiveness, now: Timestamp) -> (res:
        Result<(), StoreError>)
        requires
            old(self)@.wf(),
        ensures
            final(self)@.wf(),
            final(self)@.reports == old(self)@.reports,
            match write_outcome(old(self)@.pois, poi_views(batch@), liveness, now) {
                Ok(rows) => res is Ok && final(self)@.pois == rows,
                Err(e) => res == Err::<(), StoreError>(e) && final(self)@ == old(self)@,
            },
    {
        let ghost rows = row_views(self.pois@);
        let ghost views = poi_views(batch@);
        let ghost after = rows_after_write(rows, views, liveness, now);
        let fresh = fresh_of(&self.pois, batch);
        let live = match liveness {
            PoiLiveness::Live => true,
            PoiLiveness::NotLive => false,
        };
        if live && !all_pairs_distinct(&fresh) {
            return Err(StoreError::Constraint);
        }
        let n = self.pois.len();
        let first: i64 = if n == 0 {
            1
        } else {
            self.pois[n - 1].id as i64 + 1
        };
        assert(first == next_row_id(rows));
        let room: i64 = 0x7fff_ffff - first + 1;
        if fresh.len() as u64 > room as u64 {
            return Err(StoreError::Exhausted);
        }
        proof {
            lemma_write_keeps_rules(rows, views, liveness, now);
        }
        let mut r: usize = 0;
        while r < n
            invariant
                r <= n,
                n == rows.len(),
                self.pois@.len() == n,
                self.reports@ == old(self).reports@,
                views == poi_views(batch@),
                poi_views(fresh@) == fresh_pois(rows, views),
                after == rows_after_write(rows, views, liveness, now),
                live == (liveness == PoiLiveness::Live),
                forall|i: int| 0 <= i < r ==> #[trigger] row_views(self.pois@)[i] == after[i],
                forall|i: int| r <= i < n ==> #[trigger] row_views(self.pois@)[i] == rows[i],
            decreases n - r,
        {
            assert(row_views(self.pois@)[r as int] == rows[r as int]);
            if live && self.pois[r].live && batch_touches(&fresh, &self.pois[r].poi) {
                let copy = self.pois[r].clone();
                let row = StoredPoi { live: false, ..copy };
                let ghost before = row_views(self.pois@);
                assert(row@ == (StoredPoiView { live: false, ..rows[r as int] }));
                self.pois.set(r, row);
                proof {
                    let now_rows = row_views(self.pois@);
                    assert(now_rows[r as int] == row@);
                    assert(now_rows[r as int] == after[r as int]);
                    assert forall|i: int| 0 <= i < r implies #[trigger] now_rows[i] == after[i] by {
                        assert(now_rows[i] == before[i]);
                    }
                    assert forall|i: int| r < i < n implies #[trigger] now_rows[i] == rows[i] by {
                        assert(now_rows[i] == before[i]);
                    }
                }
            }
            r = r + 1;
        }
        let mut j: usize = 0;
        while j < fresh.len()
            invariant
                j <= fresh@.len(),
                n == rows.len(),
                self.pois@.len() == n + j,
                self.reports@ == old(self).reports@,
                first == next_row_id(rows),
                first + fresh@.len() - 1 <= i32::MAX,
                first >= 1,
                poi_views(fresh@) == fresh_pois(rows, views),
                after == rows_after_write(rows, views, liveness, now),
                live == (liveness == PoiLiveness::Live),
                forall|i: int| 0 <= i < n + j ==> #[trigger] row_views(self.pois@)[i] == after[i],
            decreases fresh@.len() - j,
        {
            let row = StoredPoi {
                id: (first + j as i64) as i32,
                poi: fresh[j].clone(),
                created_at: now,
                live,
            };
            let ghost before = row_views(self.pois@);
            self.pois.push(row);
            proof {
                let now_rows = row_views(self.pois@);
                assert(poi_views(fresh@)[j as int] == fresh@[j as int]@);
                assert(now_rows[n + j] == after[n + j]);
                assert forall|i: int| 0 <= i < n + j + 1 implies #[trigger] now_rows[i] == after[i] by {
                    if i < n + j {
                        assert(now_rows[i] == before[i]);
                    }
                }
            }
            j = j + 1;
        }
        assert(row_views(self.pois@) =~= after);
        Ok(())
    }

    /// Writes a batch as [`PoiStore::write_pois`] does, stamped with the
    /// current time, and says which time that was.
    pub fn write_pois_now(&mut self, batch: &Vec<ProofOfIndexing>, liveness: PoiLiveness) -> (res: (
        Timestamp,
        Result<(), StoreError>,
    ))
        requires
            old(self)@.wf(),
        ensures
            final(self)@.wf(),
            final(self)@.reports == old(self)@.reports,
            match write_outcome(old(self)@.pois, poi_views(batch@), liveness, res.0) {
                Ok(rows) => res.1 is Ok && final(self)@.pois == rows,
                Err(e) => res.1 == Err::<(), StoreError>(e) && final(self)@ == old(self)@,
            },
    {
        let now = current_timestamp();
        let written = self.write_pois(batch, liveness, now);
        (now, written)
    }

    /// The stored proofs of indexing that `query` asks for, in order, cut
    /// off at the cap; see [`PoiQueryView::answered_by`].
    pub fn query(&self, query: &PoiQuery) -> (answer: Vec<StoredPoi>)
        requires
            self@.wf(),
        ensures
            query@.answered_by(self@.pois, row_views(answer@)),
    {
        select_rows(&self.pois, query)
    }

    /// The stored proofs of indexing of the given deployments, live or not.
    pub fn pois(
        &self,
        sg_deployments: Vec<String>,
        block_range: Option<BlockRange>,
        limit: Option<u16>,
    ) -> (answer: Vec<StoredPoi>)
        requires
            self@.wf(),
        ensures
            (PoiQueryView {
                indexer: None,
                deployments: Some(text_views(sg_deployments@)),
                block_range,
                limit,
                live_only: false,
            }).answered_by(self@.pois, row_views(answer@)),
    {
        let query = PoiQuery::for_deployments(sg_deployments, block_range, limit);
        select_rows(&self.pois, &query)
    }

    /// Like [`PoiStore::pois`], but only the live ones, and where asked only
    /// those of one indexer.
    pub fn live_pois(
        &self,
        indexer: Option<Vec<u8>>,
        sg_deployments: Option<Vec<String>>,
        block_range: Option<BlockRange>,
        limit: Option<u16>,
    ) -> (answer: Vec<StoredPoi>)
        requires
            self@.wf(),
        ensures
            (PoiQueryView {
                indexer: match indexer {
                    Some(a) => Some(a@),
                    None => None,
                },
                deployments: match sg_deployments {
                    Some(d) => Some(text_views(d@)),
                    None => None,
                },
                block_range,
                limit,
                live_only: true,
            }).answered_by(self@.pois, row_views(answer@)),
    {
        let query = PoiQuery { indexer, deployments: sg_deployments, block_range, limit, live_only: true };
        select_rows(&self.pois, &query)
    }
    /// The stored proof of indexing that `text` names by its digest, if any.
    #[verifier::loop_isolation(false)]
    pub fn poi(&self, text: &str) -> (res: Result<Option<StoredPoi>, StoreError>)
        ensures
            match named_row(self@.pois, text) {
                Ok(Some(row)) => res matches Ok(Some(found)) && found@ == row,
                Ok(None) => res matches Ok(None),
                Err(e) => res matches Err(err) && err == e,
            },
    {
        let digest = match Bytes32::try_from_str(text) {
            Ok(d) => d,
            Err(_) => {
                return Err(StoreError::InvalidDigest);
            },
        };
        let ghost rows = row_views(self.pois@);
        let mut i: usize = 0;
        assert(rows.skip(0) =~= rows);
        while i < self.pois.len()
            invariant
                i <= self.pois@.len(),
                rows == row_views(self.pois@),
                digest_index(rows, digest@) == i + digest_index(rows.skip(i as int), digest@),
            decreases self.pois@.len() - i,
        {
            proof {
                assert(rows.skip(i as int)[0] == rows[i as int]);
                assert(rows.skip(i as int).skip(1) =~= rows.skip(i + 1));
                Bytes32::lemma_equal_by_bytes(self.pois@[i as int].poi.proof_of_indexing, digest);
            }
            if self.pois[i].poi.proof_of_indexing == digest {
                return Ok(Some(self.pois[i].clone()));
            }
            i = i + 1;
        }
        Ok(None)
    }

    /// Files the report that the two stored proofs of indexing named by
    /// `poi1` and `poi2` first diverge at the block `divergence_block`, and
    /// gives the identifier of the report.
    ///
    /// The report is stored with the lower identifier first, whichever way
    /// round the two are named, and filing it again gives the same report.
    /// Refused are: a text that is no digest or names nothing stored, a
    /// report about one proof of indexing and itself, and a second report
    /// about the same two with another block.
    #[verifier::loop_isolation(false)]
    pub fn write_divergence_bisect_report(
        &mut self,
        poi1: &str,
        poi2: &str,
        divergence_block: IntId,
        now: Timestamp,
    ) -> (res: Result<IntId, StoreError>)
        requires
            old(self)@.wf(),
        ensures
            final(self)@.wf(),
            final(self)@.pois == old(self)@.pois,
            match report_request_outcome(old(self)@, poi1, poi2, divergence_block, now) {
                Ok((reports, id)) => res == Ok::<IntId, StoreError>(id) && final(self)@.reports
                    == reports,
                Err(e) => res == Err::<IntId, StoreError>(e) && final(self)@ == old(self)@,
            },
    {
        let first = match self.poi(poi1) {
            Err(e) => {
                return Err(e);
            },
            Ok(None) => {
                return Err(StoreError::UnknownPoi);
            },
            Ok(Some(row)) => row.id,
        };
        let second = match self.poi(poi2) {
            Err(e) => {
                return Err(e);
            },
            Ok(None) => {
                return Err(StoreError::UnknownPoi);
            },
            Ok(Some(row)) => row.id,
        };
        if first == second {
            return Err(StoreError::Constraint);
        }
        let (lower, upper) = normalize_pair(first, second);
        let ghost reports = self.reports@;
        let ghost pair = normalized_pair(first, second);
        proof {
            lemma_report_index(reports, pair);
            if report_outcome(reports, first, second, divergence_block, now) is Ok {
                lemma_report_keeps_rules(reports, first, second, divergence_block, now);
            }
        }
        let mut i: usize = 0;
        while i < self.reports.len()
            invariant
                i <= self.reports@.len(),
                reports == self.reports@,
                pair == (lower, upper),
                forall|j: int|
                    0 <= j < i ==> !((#[trigger] reports[j]).poi1_id == pair.0 && reports[j].poi2_id
                        == pair.1),
            decreases self.reports@.len() - i,
        {
            let report = &self.reports[i];
            if report.poi1_id == lower && report.poi2_id == upper {
                proof {
                    lemma_report_index_is(reports, pair, i as int);
                }
                return refile_outcome(report, divergence_block);
            }
            i = i + 1;
        }
        proof {
            lemma_report_index_is(reports, pair, reports.len() as int);
        }
        let n = self.reports.len();
        let next: i64 = if n == 0 {
            1
        } else {
            self.reports[n - 1].id as i64 + 1
        };
        if next > 0x7fff_ffff {
            return Err(StoreError::Exhausted);
        }
        let id = next as i32;
        self.reports.push(
            PoiDivergenceBisectReport {
                id,
                poi1_id: lower,
                poi2_id: upper,
                divergence_block_id: divergence_block,
                created_at: now,
            },
        );
        Ok(id)
    }

    /// All subgraph deployments that ever had a proof of indexing stored,
    /// each once, in the byte order of their identifiers.
    pub fn sg_deployments(&self) -> (names: Vec<String>)
        ensures
            lists_deployments(self@.pois, text_views(names@)),
    {
        let ghost rows = row_views(self.pois@);
        let mut keys: Vec<Vec<u8>> = Vec::new();
        let mut k: usize = 0;
        while k < self.pois.len()
            invariant
                k <= self.pois@.len(),
                rows == row_views(self.pois@),
                keys@.len() == k,
                forall|n: int|
                    0 <= n < k ==> #[trigger] key_views(keys@)[n] == encode_utf8(
                        rows[n].poi.deployment,
                    ),
            decreases self.pois@.len() - k,
        {
            let ghost before = key_views(keys@);
            let key = copy_bytes(self.pois[k].poi.deployment.as_str().as_bytes());
            keys.push(key);
            proof {
                assert(rows[k as int] == self.pois@[k as int]@);
                assert(key_views(keys@) =~= before.push(encode_utf8(rows[k as int].poi.deployment)));
            }
            k = k + 1;
        }
        let picks = distinct_keys_in_order(&keys);
        let ghost kv = key_views(keys@);
        let mut names: Vec<String> = Vec::new();
        let mut i: usize = 0;
        while i < picks.len()
            invariant
                i <= picks@.len(),
                rows == row_views(self.pois@),
                kv.len() == rows.len(),
                picks_below(picks@, kv.len() as int),
                names@.len() == i,
                forall|n: int|
                    0 <= n < i ==> #[trigger] text_views(names@)[n]
                        == rows[picks@[n] as int].poi.deployment,
            decreases picks@.len() - i,
        {
            let pick = picks[i];
            assert(pick < rows.len());
            let ghost before = text_views(names@);
            names.push(self.pois[pick].poi.deployment.0.clone());
            proof {
                assert(rows[pick as int] == self.pois@[pick as int]@);
                assert(text_views(names@) =~= before.push(rows[pick as int].poi.deployment));
            }
            i = i + 1;
        }
        proof {
            let listed = text_views(names@);
            assert forall|a: int, b: int| 0 <= a < b < listed.len() implies lex_less(
                encode_utf8(#[trigger] listed[a]),
                encode_utf8(#[trigger] listed[b]),
            ) by {
                assert(lex_less(kv[picks@[a] as int], kv[picks@[b] as int]));
            }
            assert forall|a: int| 0 <= a < listed.len() implies deployment_stored(
                rows,
                #[trigger] listed[a],
            ) by {
                assert(rows[picks@[a] as int].poi.deployment == listed[a]);
            }
            assert forall|n: int| 0 <= n < rows.len() implies listed.contains(
                (#[trigger] rows[n]).poi.deployment,
            ) by {
                assert(key_picked(kv, picks@, n));
                let a = choose|a: int|
                    0 <= a < picks@.len() && (#[trigger] picks@[a]) <= n && kv[picks@[a] as int]
                        == kv[n];
                encode_utf8_decode_utf8(rows[n].poi.deployment);
                encode_utf8_decode_utf8(rows[picks@[a] as int].poi.deployment);
                assert(listed[a] == rows[n].poi.deployment);
            }
        }
        names
    }

    /// All indexers that ever had a proof of indexing stored, each address
    /// once, in the order of the addresses.
    pub fn indexers(&self) -> (indexers: Vec<Indexer>)
        ensures
            lists_indexers(self@.pois, indexer_views(indexers@)),
    {
        let ghost rows = row_views(self.pois@);
        let mut keys: Vec<Vec<u8>> = Vec::new();
        let mut k: usize = 0;
        while k < self.pois.len()
            invariant
                k <= self.pois@.len(),
                rows == row_views(self.pois@),
                keys@.len() == k,
                forall|n: int|
                    0 <= n < k ==> #[trigger] key_views(keys@)[n] == rows[n].poi.indexer.address,
            decreases self.pois@.len() - k,
        {
            let ghost before = key_views(keys@);
            let key = copy_bytes(self.pois[k].poi.indexer.address.as_slice());
            keys.push(key);
            proof {
                assert(rows[k as int] == self.pois@[k as int]@);
                assert(key_views(keys@) =~= before.push(rows[k as int].poi.indexer.address));
            }
            k = k + 1;
        }
        let picks = distinct_keys_in_order(&keys);
        let ghost kv = key_views(keys@);
        let mut indexers: Vec<Indexer> = Vec::new();
        let mut i: usize = 0;
        while i < picks.len()
            invariant
                i <= picks@.len(),
                rows == row_views(self.pois@),
                kv.len() == rows.len(),
                picks_below(picks@, kv.len() as int),
                indexers@.len() == i,
                forall|n: int|
                    0 <= n < i ==> #[trigger] indexer_views(indexers@)[n]
                        == rows[picks@[n] as int].poi.indexer,
            decreases picks@.len() - i,
        {
            let pick = picks[i];
            assert(pick < rows.len());
            let ghost before = indexer_views(indexers@);
            let copy = self.pois[pick].poi.indexer.clone();
            indexers.push(copy);
            proof {
                assert(rows[pick as int] == self.pois@[pick as int]@);
                assert(indexer_views(indexers@) =~= before.push(rows[pick as int].poi.indexer));
            }
            i = i + 1;
        }
        proof {
            let listed = indexer_views(indexers@);
            assert forall|a: int, b: int| 0 <= a < b < listed.len() implies lex_less(
                (#[trigger] listed[a]).address,
                (#[trigger] listed[b]).address,
            ) by {
                assert(lex_less(kv[picks@[a] as int], kv[picks@[b] as int]));
            }
            assert forall|a: int| 0 <= a < listed.len() implies indexer_stored(
                rows,
                #[trigger] listed[a],
            ) by {
                assert(rows[picks@[a] as int].poi.indexer == listed[a]);
            }
            assert forall|n: int| 0 <= n < rows.len() implies address_listed(
                listed,
                (#[trigger] rows[n]).poi.indexer.address,
            ) by {
                assert(key_picked(kv, picks@, n));
                let a = choose|a: int|
                    0 <= a < picks@.len() && (#[trigger] picks@[a]) <= n && kv[picks@[a] as int]
                        == kv[n];
                assert(listed[a].address == rows[n].poi.indexer.address);
            }
        }
        indexers
    }

    /// The reports on file, oldest first.
    pub fn reports(&self) -> (reports: &Vec<PoiDivergenceBisectReport>)
        ensures
            reports@ == self@.reports,
    {
        &self.reports
    }
}

} // verus!
