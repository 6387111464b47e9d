//! The rows of the table of proofs of indexing, and queries over them.

use crate::models::{IntId, Timestamp};
use crate::ordering::{lemma_lex_total, lemma_lex_transitive, lex_less, lex_order, Rank};
use crate::types::{bytes_eq, PoiView, ProofOfIndexing};
use vstd::prelude::*;
use vstd::string::*;
use vstd::utf8::encode_utf8;

verus! {

/// The most rows that a query returns.
pub const MAX_QUERY_LIMIT: u16 = 250;

/// A stored proof of indexing.
#[derive(Debug)]
pub struct StoredPoi {
    pub id: IntId,
    pub poi: ProofOfIndexing,
    pub created_at: Timestamp,
    pub live: bool,
}

/// A stored proof of indexing as contracts see it.
pub struct StoredPoiView {
    pub id: IntId,
    pub poi: PoiView,
    pub created_at: Timestamp,
    pub live: bool,
}

impl View for StoredPoi {
    type V = StoredPoiView;

    open spec fn view(&self) -> StoredPoiView {
        StoredPoiView {
            id: self.id,
            poi: self.poi@,
            created_at: self.created_at,
            live: self.live,
        }
    }
}

impl Clone for StoredPoi {
    fn clone(&self) -> (copy: Self)
        ensures
            copy@ == self@,
    {
        StoredPoi {
            id: self.id,
            poi: self.poi.clone(),
            created_at: self.created_at,
            live: self.live,
        }
    }
}

/// The views of `rows`, in order.
pub open spec fn row_views(rows: Seq<StoredPoi>) -> Seq<StoredPoiView> {
    rows.map_values(|r: StoredPoi| r@)
}

impl StoredPoiView {
    /// Whether the row belongs to the given indexer and deployment.
    pub open spec fn of_pair(self, indexer: Seq<u8>, deployment: Seq<char>) -> bool {
        self.poi.indexer.address == indexer && self.poi.deployment == deployment
    }

    /// Whether this row comes before `other` in the answer to a query:
    /// higher blocks first, then deployments and then indexer addresses in
    /// byte order, then older rows first.
    pub open spec fn precedes(self, other: StoredPoiView) -> bool {
        let (cid, other_cid) = (encode_utf8(self.poi.deployment), encode_utf8(other.poi.deployment));
        let (address, other_address) = (self.poi.indexer.address, other.poi.indexer.address);
        if self.poi.block.number != other.poi.block.number {
            self.poi.block.number > other.poi.block.number
        } else if cid != other_cid {
            lex_less(cid, other_cid)
        } else if address != other_address {
            lex_less(address, other_address)
        } else {
            self.id < other.id
        }
    }
}

/// Of two rows with different identifiers one comes before the other, and
/// never both ways.
pub proof fn lemma_precedes_total(a: StoredPoiView, b: StoredPoiView)
    ensures
        a.id != b.id ==> a.precedes(b) || b.precedes(a),
        !(a.precedes(b) && b.precedes(a)),
        !a.precedes(a),
{
    lemma_lex_total(encode_utf8(a.poi.deployment), encode_utf8(b.poi.deployment));
    lemma_lex_total(a.poi.indexer.address, b.poi.indexer.address);
}

/// The order of rows is transitive.
pub proof fn lemma_precedes_transitive(a: StoredPoiView, b: StoredPoiView, c: StoredPoiView)
    requires
        a.precedes(b),
        b.precedes(c),
    ensures
        a.precedes(c),
{
    let (ca, cb, cc) = (
        encode_utf8(a.poi.deployment),
        encode_utf8(b.poi.deployment),
        encode_utf8(c.poi.deployment),
    );
    let (aa, ab, ac) = (a.poi.indexer.address, b.poi.indexer.address, c.poi.indexer.address);
    lemma_lex_total(ca, cb);
    lemma_lex_total(cb, cc);
    lemma_lex_total(ca, cc);
    lemma_lex_total(aa, ab);
    lemma_lex_total(ab, ac);
    lemma_lex_total(aa, ac);
    if lex_less(ca, cb) && lex_less(cb, cc) {
        lemma_lex_transitive(ca, cb, cc);
    }
    if lex_less(aa, ab) && lex_less(ab, ac) {
        lemma_lex_transitive(aa, ab, ac);
    }
}

/// Whether row `a` comes before row `b` in the answer to a query.
pub fn row_precedes(a: &StoredPoi, b: &StoredPoi) -> (before: bool)
    ensures
        before == a@.precedes(b@),
{
    if a.poi.block.number != b.poi.block.number {
        return a.poi.block.number > b.poi.block.number;
    }
    proof {
        lemma_lex_total(encode_utf8(a@.poi.deployment), encode_utf8(b@.poi.deployment));
        lemma_lex_total(a@.poi.indexer.address, b@.poi.indexer.address);
    }
    match lex_order(a.poi.deployment.as_str().as_bytes(), b.poi.deployment.as_str().as_bytes()) {
        Rank::Before => true,
        Rank::After => false,
        Rank::Same => match lex_order(
            a.poi.indexer.address.as_slice(),
            b.poi.indexer.address.as_slice(),
        ) {
            Rank::Before => true,
            Rank::After => false,
            Rank::Same => a.id < b.id,
        },
    }
}

/// A range of block numbers: from `lo`, up to but not including `hi`.
#[derive(Clone, Copy, Debug, PartialEq, Eq, Structural)]
pub struct BlockRange {
    pub lo: u64,
    pub hi: u64,
}

/// Which stored proofs of indexing a query asks for.
#[derive(Debug)]
pub struct PoiQuery {
    /// Only those of the indexer with this address.
    pub indexer: Option<Vec<u8>>,
    /// Only those of these deployments.
    pub deployments: Option<Vec<String>>,
    /// Only those at blocks in this range.
    pub block_range: Option<BlockRange>,
    /// No more than this many, and never more than [`MAX_QUERY_LIMIT`].
    pub limit: Option<u16>,
    /// Only live ones.
    pub live_only: bool,
}

/// A query as contracts see it.
pub struct PoiQueryView {
    pub indexer: Option<Seq<u8>>,
    pub deployments: Option<Seq<Seq<char>>>,
    pub block_range: Option<BlockRange>,
    pub limit: Option<u16>,
    pub live_only: bool,
}

/// The views of `names`, in order.
pub open spec fn text_views(names: Seq<String>) -> Seq<Seq<char>> {
    names.map_values(|n: String| n@)
}

impl View for PoiQuery {
    type V = PoiQueryView;

    open spec fn view(&self) -> PoiQueryView {
        PoiQueryView {
            indexer: match self.indexer {
                Some(a) => Some(a@),
                None => None,
            },
            deployments: match self.deployments {
                Some(d) => Some(text_views(d@)),
                None => None,
            },
            block_range: self.block_range,
            limit: self.limit,
            live_only: self.live_only,
        }
    }
}

impl PoiQueryView {
    /// Whether the query asks for `row`.
    pub open spec fn admits(self, row: StoredPoiView) -> bool {
        &&& self.indexer matches Some(address) ==> row.poi.indexer.address == address
        &&& self.deployments matches Some(names) ==> names.contains(row.poi.deployment)
        &&& self.block_range matches Some(range) ==> range.lo <= row.poi.block.number < range.hi
        &&& self.live_only ==> row.live
    }

    /// The most rows that the answer may hold: the limit asked for, capped.
    pub open spec fn cap(self) -> nat {
        match self.limit {
            Some(limit) => if limit < MAX_QUERY_LIMIT {
                limit as nat
            } else {
                MAX_QUERY_LIMIT as nat
            },
            None => MAX_QUERY_LIMIT as nat,
        }
    }

    /// Whether `answer` is the answer to the query over `rows`: the rows
    /// asked for, in order, cut off at the cap. What is cut off comes after
    /// everything that is returned.
    pub open spec fn answered_by(self, rows: Seq<StoredPoiView>, answer: Seq<StoredPoiView>) -> bool {
        &&& answer.len() <= self.cap()
        &&& forall|i: int|
            0 <= i < answer.len() ==> rows.contains(#[trigger] answer[i]) && self.admits(answer[i])
        &&& forall|i: int, j: int|
            0 <= i < j < answer.len() ==> (#[trigger] answer[i]).precedes(#[trigger] answer[j])
        &&& forall|k: int|
            0 <= k < rows.len() && self.admits(#[trigger] rows[k]) ==> answer.contains(rows[k]) || (
            answer.len() == self.cap() && forall|i: int|
                0 <= i < answer.len() ==> (#[trigger] answer[i]).precedes(rows[k]))
    }
}

/// Whether `name` is one of `names`.
pub fn contains_text(names: &Vec<String>, name: &String) -> (found: bool)
    ensures
        found == text_views(names@).contains(name@),
{
    let ghost views = text_views(names@);
    let mut i: usize = 0;
    while i < names.len()
        invariant
            i <= names@.len(),
            views == text_views(names@),
            forall|j: int| 0 <= j < i ==> views[j] != name@,
        decreases names@.len() - i,
    {
        if names[i] == *name {
            assert(views[i as int] == name@);
            return true;
        }
        i = i + 1;
    }
    false
}

impl PoiQuery {
    /// The query for the proofs of indexing of the given deployments.
    pub fn for_deployments(
        deployments: Vec<String>,
        block_range: Option<BlockRange>,
        limit: Option<u16>,
    ) -> (query: PoiQuery)
        ensures
            query@ == (PoiQueryView {
                indexer: None,
                deployments: Some(text_views(deployments@)),
                block_range,
                limit,
                live_only: false,
            }),
    {
        PoiQuery { indexer: None, deployments: Some(deployments), block_range, limit, live_only: false }
    }

    /// Whether the query asks for `row`.
    pub fn admits_row(&self, row: &StoredPoi) -> (asked: bool)
        ensures
            asked == self@.admits(row@),
    {
        if self.live_only && !row.live {
            return false;
        }
        match &self.block_range {
            Some(range) => {
                if row.poi.block.number < range.lo || row.poi.block.number >= range.hi {
                    return false;
                }
            },
            None => {},
        }
        match &self.indexer {
            Some(address) => {
                if !bytes_eq(row.poi.indexer.address.as_slice(), address.as_slice()) {
                    return false;
                }
            },
            None => {},
        }
        match &self.deployments {
            Some(names) => contains_text(names, &row.poi.deployment.0),
            None => true,
        }
    }

    /// The most rows that the answer may hold.
    pub fn row_cap(&self) -> (cap: usize)
        ensures
            cap == self@.cap(),
    {
        match self.limit {
            Some(limit) => if limit < MAX_QUERY_LIMIT {
                limit as usize
            } else {
                MAX_QUERY_LIMIT as usize
            },
            None => MAX_QUERY_LIMIT as usize,
        }
    }
}

/// Whether the identifiers of `rows` grow from row to row.
pub open spec fn ids_ascending(rows: Seq<StoredPoiView>) -> bool {
    forall|i: int, j: int| 0 <= i < j < rows.len() ==> (#[trigger] rows[i]).id < (#[trigger] rows[j]).id
}

/// Whether no two of `rows` share indexer, deployment and block.
pub open spec fn coordinates_unique(rows: Seq<StoredPoiView>) -> bool {
    forall|i: int, j: int|
        0 <= i < j < rows.len() ==> !(#[trigger] rows[i]).poi.same_coordinates(
            (#[trigger] rows[j]).poi,
        )
}

/// Whether of the rows of each indexer for each deployment at most one is live.
pub open spec fn live_unique(rows: Seq<StoredPoiView>) -> bool {
    forall|i: int, j: int|
        0 <= i < j < rows.len() && (#[trigger] rows[i]).live && (#[trigger] rows[j]).live ==> !rows[i].of_pair(
            rows[j].poi.indexer.address,
            rows[j].poi.deployment,
        )
}

/// The answer to `query` over `rows`.
///
/// The rows asked for are returned in order and cut off at the cap; see
/// [`PoiQueryView::answered_by`].
pub fn select_rows(rows: &Vec<StoredPoi>, query: &PoiQuery) -> (answer: Vec<StoredPoi>)
    requires
        ids_ascending(row_views(rows@)),
    ensures
        query@.answered_by(row_views(rows@), row_views(answer@)),
{
    let ghost all = row_views(rows@);
    let cap = query.row_cap();
    let mut answer: Vec<StoredPoi> = Vec::new();
    let mut last: Option<usize> = None;
    while answer.len() < cap
        invariant
            all == row_views(rows@),
            ids_ascending(all),
            cap == query@.cap(),
            answer@.len() <= cap,
            last is None <==> answer@.len() == 0,
            last matches Some(l) ==> l < rows@.len() && row_views(answer@).last() == all[l as int],
            forall|i: int|
                0 <= i < answer@.len() ==> all.contains(#[trigger] row_views(answer@)[i])
                    && query@.admits(row_views(answer@)[i]),
            forall|i: int, j: int|
                0 <= i < j < answer@.len() ==> (#[trigger] row_views(answer@)[i]).precedes(
                    #[trigger] row_views(answer@)[j],
                ),
            forall|k: int|
                0 <= k < all.len() && query@.admits(#[trigger] all[k]) && last is Some
                    && !all[last.unwrap() as int].precedes(all[k]) ==> row_views(answer@).contains(
                    all[k],
                ),
        decreases cap - answer@.len(),
    {
        let mut best: Option<usize> = None;
        let mut k: usize = 0;
        while k < rows.len()
            invariant
                k <= rows@.len(),
                all == row_views(rows@),
                ids_ascending(all),
                last matches Some(l) ==> l < rows@.len(),
                best matches Some(b) ==> b < k && query@.admits(all[b as int]) && (last matches Some(
                    l,
                ) ==> all[l as int].precedes(all[b as int])),
                forall|j: int|
                    0 <= j < k && query@.admits(#[trigger] all[j]) && (last matches Some(l)
                        ==> all[l as int].precedes(all[j])) ==> best is Some && (j == best.unwrap()
                        || all[best.unwrap() as int].precedes(all[j])),
            decreases rows@.len() - k,
        {
            let row = &rows[k];
            assert(all[k as int] == row@);
            let after_last = match last {
                Some(l) => row_precedes(&rows[l], row),
                None => true,
            };
            if after_last && query.admits_row(row) {
                let better = match best {
                    Some(b) => row_precedes(row, &rows[b]),
                    None => true,
                };
                proof {
                    if best is Some {
                        let b = best.unwrap() as int;
                        lemma_precedes_total(all[k as int], all[b]);
                        if better {
                            assert forall|j: int|
                                0 <= j < k && query@.admits(#[trigger] all[j]) && (last matches Some(
                                    l,
                                ) ==> all[l as int].precedes(all[j])) implies all[k as int].precedes(
                                all[j],
                            ) by {
                                if j != b {
                                    lemma_precedes_transitive(all[k as int], all[b], all[j]);
                                }
                            }
                        }
                    }
                }
                if better {
                    best = Some(k);
                }
            }
            k = k + 1;
        }
        match best {
            None => {
                proof {
                    assert forall|k: int|
                        0 <= k < all.len() && query@.admits(#[trigger] all[k]) implies row_views(
                        answer@,
                    ).contains(all[k]) by {
                        if last is Some {
                            assert(!all[last.unwrap() as int].precedes(all[k]));
                        }
                    }
                }
                return answer;
            },
            Some(b) => {
                let ghost before = row_views(answer@);
                let copy = rows[b].clone();
                answer.push(copy);
                proof {
                    let now = row_views(answer@);
                    let picked = all[b as int];
                    assert(now =~= before.push(picked));
                    assert(all.contains(picked));
                    assert forall|i: int, j: int| 0 <= i < j < now.len() implies (#[trigger] now[i]).precedes(
                        #[trigger] now[j],
                    ) by {
                        if j == now.len() - 1 {
                            let l = last.unwrap() as int;
                            assert(before.last() == all[l]);
                            if i < before.len() - 1 {
                                assert(before[i].precedes(before[before.len() - 1]));
                                lemma_precedes_transitive(now[i], all[l], picked);
                            }
                        } else {
                            assert(before[i].precedes(before[j]));
                        }
                    }
                    assert forall|k: int|
                        0 <= k < all.len() && query@.admits(#[trigger] all[k]) && !picked.precedes(
                            all[k],
                        ) implies now.contains(all[k]) by {
                        if last is Some && !all[last.unwrap() as int].precedes(all[k]) {
                            let at = before.index_of(all[k]);
                            assert(now[at] == all[k]);
                        } else {
                            assert(k == b);
                            assert(now[now.len() - 1] == all[k]);
                        }
                    }
                    assert forall|i: int| 0 <= i < now.len() implies all.contains(#[trigger] now[i])
                        && query@.admits(now[i]) by {
                        if i < before.len() {
                            assert(now[i] == before[i]);
                        }
                    }
                }
                last = Some(b);
            },
        }
    }
    proof {
        let now = row_views(answer@);
        assert forall|k: int| 0 <= k < all.len() && query@.admits(#[trigger] all[k]) implies now.contains(
            all[k],
        ) || (now.len() == query@.cap() && forall|i: int|
            0 <= i < now.len() ==> (#[trigger] now[i]).precedes(all[k])) by {
            if !now.contains(all[k]) {
                if last is Some {
                    let l = last.unwrap() as int;
                    assert forall|i: int| 0 <= i < now.len() implies (#[trigger] now[i]).precedes(
                        all[k],
                    ) by {
                        if i < now.len() - 1 {
                            assert(now[i].precedes(now[now.len() - 1]));
                            lemma_precedes_transitive(now[i], all[l], all[k]);
                        }
                    }
                }
            }
        }
    }
    answer
}

/// How many of `rows` the query asks for.
pub open spec fn admitted_count(query: PoiQueryView, rows: Seq<StoredPoiView>) -> nat
    decreases rows.len(),
{
    if rows.len() == 0 {
        0
    } else {
        admitted_count(query, rows.drop_last()) + if query.admits(rows.last()) {
            1nat
        } else {
            0nat
        }
    }
}

/// Different rows of a table that a query asks for are no more than the
/// table holds of such rows.
pub proof fn lemma_distinct_admitted_bounded(
    rows: Seq<StoredPoiView>,
    query: PoiQueryView,
    some: Seq<StoredPoiView>,
)
    requires
        forall|i: int| 0 <= i < some.len() ==> rows.contains(#[trigger] some[i]) && query.admits(some[i]),
        forall|i: int, j: int| 0 <= i < j < some.len() ==> #[trigger] some[i] != #[trigger] some[j],
    ensures
        some.len() <= admitted_count(query, rows),
    decreases rows.len(),
{
    if rows.len() == 0 {
        if some.len() > 0 {
            assert(rows.contains(some[0]));
        }
    } else {
        let last = rows.last();
        let shorter = rows.drop_last();
        let others = if some.contains(last) {
            some.remove(some.index_of(last))
        } else {
            some
        };
        assert forall|i: int| 0 <= i < others.len() implies shorter.contains(#[trigger] others[i])
            && query.admits(others[i]) by {
            let x = others[i];
            if some.contains(last) {
                let p = some.index_of(last);
                let at = if i < p {
                    i
                } else {
                    i + 1
                };
                assert(x == some[at]);
                assert(rows.contains(some[at]));
                if at < p {
                    assert(some[at] != some[p]);
                } else {
                    assert(some[p] != some[at]);
                }
            } else {
                assert(rows.contains(some[i]));
                if x == last {
                    assert(some.contains(last));
                }
            }
            assert(x != last);
            let k = rows.index_of(x);
            assert(shorter[k] == x);
        }
        assert forall|i: int, j: int| 0 <= i < j < others.len() implies #[trigger] others[i]
            != #[trigger] others[j] by {
            if some.contains(last) {
                let p = some.index_of(last);
                let ai = if i < p {
                    i
                } else {
                    i + 1
                };
                let aj = if j < p {
                    j
                } else {
                    j + 1
                };
                assert(others[i] == some[ai] && others[j] == some[aj]);
                assert(some[ai] != some[aj]);
            }
        }
        lemma_distinct_admitted_bounded(shorter, query, others);
        if some.contains(last) {
            let p = some.index_of(last);
            assert(query.admits(some[p]));
        }
    }
}

/// Where a table holds no more rows that a query asks for than the cap
/// allows, the answer holds them all.
pub proof fn lemma_answer_complete_within_cap(
    rows: Seq<StoredPoiView>,
    query: PoiQueryView,
    answer: Seq<StoredPoiView>,
)
    requires
        query.answered_by(rows, answer),
        admitted_count(query, rows) <= query.cap(),
    ensures
        forall|k: int|
            0 <= k < rows.len() && query.admits(#[trigger] rows[k]) ==> answer.contains(rows[k]),
{
    assert forall|k: int| 0 <= k < rows.len() && query.admits(#[trigger] rows[k]) implies answer.contains(
        rows[k],
    ) by {
        if !answer.contains(rows[k]) {
            let more = answer.push(rows[k]);
            assert forall|i: int| 0 <= i < more.len() implies rows.contains(#[trigger] more[i])
                && query.admits(more[i]) by {
                if i < answer.len() {
                    assert(more[i] == answer[i]);
                }
            }
            assert forall|i: int, j: int| 0 <= i < j < more.len() implies #[trigger] more[i]
                != #[trigger] more[j] by {
                assert(more[i] == answer[i]);
                if j < answer.len() {
                    assert(more[j] == answer[j]);
                    assert(answer[i].precedes(answer[j]));
                    lemma_precedes_total(answer[i], answer[i]);
                } else {
                    assert(answer.contains(answer[i]));
                }
            }
            lemma_distinct_admitted_bounded(rows, query, more);
        }
    }
}

/// What a query for live rows returns is part of what the same query
/// returns without that restriction, where the cap cuts nothing off the latter.
pub proof fn lemma_live_answer_within_full_answer(
    rows: Seq<StoredPoiView>,
    query: PoiQueryView,
    live_answer: Seq<StoredPoiView>,
    full_answer: Seq<StoredPoiView>,
)
    requires
        query.live_only,
        query.answered_by(rows, live_answer),
        (PoiQueryView { live_only: false, ..query }).answered_by(rows, full_answer),
        full_answer.len() < query.cap() || admitted_count(
            PoiQueryView { live_only: false, ..query },
            rows,
        ) <= query.cap(),
    ensures
        forall|i: int| 0 <= i < live_answer.len() ==> full_answer.contains(#[trigger] live_answer[i]),
{
    let full = PoiQueryView { live_only: false, ..query };
    assert(full.cap() == query.cap());
    if !(full_answer.len() < query.cap()) {
        lemma_answer_complete_within_cap(rows, full, full_answer);
    }
    assert forall|i: int| 0 <= i < live_answer.len() implies full_answer.contains(
        #[trigger] live_answer[i],
    ) by {
        let x = live_answer[i];
        assert(rows.contains(x) && query.admits(x));
        let k = rows.index_of(x);
        assert(full.admits(rows[k]));
    }
}

/// Two answers to one query agree on every position that the first has.
proof fn lemma_answers_agree_at(
    rows: Seq<StoredPoiView>,
    query: PoiQueryView,
    a: Seq<StoredPoiView>,
    b: Seq<StoredPoiView>,
    i: int,
)
    requires
        query.answered_by(rows, a),
        query.answered_by(rows, b),
        0 <= i < a.len(),
    ensures
        i < b.len(),
        b[i] == a[i],
    decreases i,
{
    assert forall|j: int| 0 <= j < i implies j < b.len() && b[j] == a[j] by {
        lemma_answers_agree_at(rows, query, a, b, j);
    }
    let x = a[i];
    assert(rows.contains(x) && query.admits(x));
    let kx = rows.index_of(x);
    assert(query.admits(rows[kx]));
    lemma_precedes_total(x, x);
    // Some element of `b` at a position from `i` on is at or before `x`.
    if b.contains(x) {
        let p = b.index_of(x);
        if p < i {
            assert(a[p].precedes(a[i]));
        }
    } else {
        assert(b.len() == query.cap());
    }
    assert(i < b.len());
    let y = b[i];
    if y != x {
        // `y` comes strictly before `x`.
        if b.contains(x) {
            let p = b.index_of(x);
            assert(b[i].precedes(b[p]));
        } else {
            assert(b[i].precedes(rows[kx]));
        }
        assert(y.precedes(x));
        lemma_precedes_total(x, y);
        assert(rows.contains(y) && query.admits(y));
        let ky = rows.index_of(y);
        assert(query.admits(rows[ky]));
        if a.contains(y) {
            let r = a.index_of(y);
            if r < i {
                assert(b[r].precedes(b[i]));
                lemma_precedes_total(y, y);
            } else if r > i {
                assert(a[i].precedes(a[r]));
            }
        } else {
            assert(a[i].precedes(rows[ky]));
        }
    }
}

/// A query has one answer: whatever fits the description of the answer is
/// the answer.
pub proof fn lemma_answer_unique(
    rows: Seq<StoredPoiView>,
    query: PoiQueryView,
    a: Seq<StoredPoiView>,
    b: Seq<StoredPoiView>,
)
    requires
        query.answered_by(rows, a),
        query.answered_by(rows, b),
    ensures
        a == b,
{
    assert forall|i: int| 0 <= i < a.len() implies i < b.len() && b[i] == a[i] by {
        lemma_answers_agree_at(rows, query, a, b, i);
    }
    assert forall|i: int| 0 <= i < b.len() implies i < a.len() && a[i] == b[i] by {
        lemma_answers_agree_at(rows, query, b, a, i);
    }
    if a.len() > 0 {
        lemma_answers_agree_at(rows, query, a, b, a.len() - 1);
    }
    if b.len() > 0 {
        lemma_answers_agree_at(rows, query, b, a, b.len() - 1);
    }
    assert(a =~= b);
}

/// Whether the identifiers of `rows` grow from row to row.
pub fn ids_in_order(rows: &Vec<StoredPoi>) -> (ordered: bool)
    ensures
        ordered == ids_ascending(row_views(rows@)),
{
    let ghost views = row_views(rows@);
    if rows.len() < 2 {
        return true;
    }
    let mut i: usize = 1;
    while i < rows.len()
        invariant
            1 <= i <= rows@.len(),
            views == row_views(rows@),
            forall|a: int, b: int| 0 <= a < b < i ==> (#[trigger] views[a]).id < (#[trigger] views[b]).id,
        decreases rows@.len() - i,
    {
        if rows[i - 1].id >= rows[i].id {
            assert(!(views[i - 1].id < views[i as int].id));
            return false;
        }
        proof {
            assert forall|a: int, b: int| 0 <= a < b < i + 1 implies (#[trigger] views[a]).id
                < (#[trigger] views[b]).id by {
                if b == i && a < i - 1 {
                    assert(views[a].id < views[i - 1].id);
                }
            }
        }
        i = i + 1;
    }
    true
}

/// The answer to `query` over rows that were read from elsewhere: as
/// [`select_rows`] gives it where the identifiers of the rows grow from row
/// to row, and nothing where they do not.
pub fn answer_query(rows: &Vec<StoredPoi>, query: &PoiQuery) -> (answer: Option<Vec<StoredPoi>>)
    ensures
        answer is Some <==> ids_ascending(row_views(rows@)),
        answer matches Some(found) ==> query@.answered_by(row_views(rows@), row_views(found@)),
{
    if ids_in_order(rows) {
        Some(select_rows(rows, query))
    } else {
        None
    }
}

} // verus!
