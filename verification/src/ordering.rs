//! The order of byte strings, as used to sort addresses and identifiers.

use vstd::prelude::*;

verus! {

/// Whether `a` comes before `b` in dictionary order: at the first position
/// where they differ `a` has the smaller byte, or `a` is a proper prefix of `b`.
pub open spec fn lex_less(a: Seq<u8>, b: Seq<u8>) -> bool
    decreases a.len(),
{
    if b.len() == 0 {
        false
    } else if a.len() == 0 {
        true
    } else if a[0] != b[0] {
        a[0] < b[0]
    } else {
        lex_less(a.skip(1), b.skip(1))
    }
}

/// How one value stands to another in an order.
#[derive(Debug, Clone, Copy, PartialEq, Eq, Structural)]
pub enum Rank {
    Before,
    Same,
    After,
}

/// How `a` stands to `b` in dictionary order.
pub open spec fn lex_rank(a: Seq<u8>, b: Seq<u8>) -> Rank {
    if lex_less(a, b) {
        Rank::Before
    } else if a == b {
        Rank::Same
    } else {
        Rank::After
    }
}

/// Of two different byte strings one comes before the other, and never
/// both ways.
pub proof fn lemma_lex_total(a: Seq<u8>, b: Seq<u8>)
    ensures
        lex_less(a, b) || lex_less(b, a) || a == b,
        !(lex_less(a, b) && lex_less(b, a)),
        a == b ==> !lex_less(a, b),
    decreases a.len(),
{
    if a.len() == 0 || b.len() == 0 {
        if a.len() == 0 && b.len() == 0 {
            assert(a =~= b);
        }
    } else if a[0] == b[0] {
        lemma_lex_total(a.skip(1), b.skip(1));
        if a.skip(1) == b.skip(1) {
            assert(a =~= seq![a[0]] + a.skip(1));
            assert(b =~= seq![b[0]] + b.skip(1));
        }
        if a == b {
            assert(a.skip(1) =~= b.skip(1));
        }
    }
}

/// Dictionary order is transitive.
pub proof fn lemma_lex_transitive(a: Seq<u8>, b: Seq<u8>, c: Seq<u8>)
    requires
        lex_less(a, b),
        lex_less(b, c),
    ensures
        lex_less(a, c),
    decreases a.len(),
{
    if a.len() > 0 && a[0] == b[0] && b[0] == c[0] {
        lemma_lex_transitive(a.skip(1), b.skip(1), c.skip(1));
    }
}

/// How `a` stands to `b` in dictionary order.
pub fn lex_order(a: &[u8], b: &[u8]) -> (rank: Rank)
    ensures
        rank == lex_rank(a@, b@),
{
    let mut i: usize = 0;
    assert(a@.skip(0) =~= a@ && b@.skip(0) =~= b@);
    while i < a.len() && i < b.len()
        invariant
            i <= a@.len(),
            i <= b@.len(),
            lex_less(a@, b@) == lex_less(a@.skip(i as int), b@.skip(i as int)),
            (a@ == b@) == (a@.skip(i as int) == b@.skip(i as int)),
        decreases a@.len() - i,
    {
        let ghost ra = a@.skip(i as int);
        let ghost rb = b@.skip(i as int);
        proof {
            assert(ra[0] == a@[i as int] && rb[0] == b@[i as int]);
            assert(ra.skip(1) =~= a@.skip(i + 1));
            assert(rb.skip(1) =~= b@.skip(i + 1));
        }
        if a[i] < b[i] {
            return Rank::Before;
        }
        if a[i] > b[i] {
            return Rank::After;
        }
        proof {
            if ra.skip(1) == rb.skip(1) {
                assert(ra =~= seq![ra[0]] + ra.skip(1));
                assert(rb =~= seq![rb[0]] + rb.skip(1));
            }
        }
        i = i + 1;
    }
    let ghost ra = a@.skip(i as int);
    let ghost rb = b@.skip(i as int);
    if i < b.len() {
        assert(ra.len() == 0 && rb.len() > 0);
        Rank::Before
    } else if i < a.len() {
        assert(rb.len() == 0 && ra.len() > 0);
        Rank::After
    } else {
        assert(ra =~= rb);
        Rank::Same
    }
}

/// The views of `keys`, in order.
pub open spec fn key_views(keys: Seq<Vec<u8>>) -> Seq<Seq<u8>> {
    keys.map_values(|k: Vec<u8>| k@)
}

/// Whether the keys at the positions `picks` stand in dictionary order,
/// each before the next.
pub open spec fn picks_ascend(keys: Seq<Seq<u8>>, picks: Seq<usize>) -> bool {
    forall|i: int, j: int|
        0 <= i < j < picks.len() ==> lex_less(
            keys[(#[trigger] picks[i]) as int],
            keys[(#[trigger] picks[j]) as int],
        )
}

/// Whether the key at position `n` is picked: at its own position or at
/// an earlier one where the same key stands.
pub open spec fn key_picked(keys: Seq<Seq<u8>>, picks: Seq<usize>, n: int) -> bool {
    exists|i: int|
        0 <= i < picks.len() && (#[trigger] picks[i]) <= n && keys[picks[i] as int] == keys[n]
}

/// Whether each of the first `upto` keys is picked.
pub open spec fn picks_cover(keys: Seq<Seq<u8>>, picks: Seq<usize>, upto: int) -> bool {
    forall|n: int| 0 <= n < upto ==> #[trigger] key_picked(keys, picks, n)
}

/// Whether every pick is a position before `upto`.
pub open spec fn picks_below(picks: Seq<usize>, upto: int) -> bool {
    forall|i: int| 0 <= i < picks.len() ==> (#[trigger] picks[i]) < upto
}

/// Whether `picks` lists the distinct keys among `keys` in dictionary
/// order, each by the position where it first stands.
pub open spec fn lists_distinct_keys(keys: Seq<Seq<u8>>, picks: Seq<usize>) -> bool {
    &&& picks_below(picks, keys.len() as int)
    &&& picks_ascend(keys, picks)
    &&& picks_cover(keys, picks, keys.len() as int)
}

/// Where the key at position `k` belongs among the picks: the position
/// of the first pick whose key is not before it, and whether that pick has
/// the very key.
fn place_of(keys: &Vec<Vec<u8>>, picks: &Vec<usize>, k: usize) -> (place: (usize, bool))
    requires
        k < keys@.len(),
        picks_below(picks@, k as int),
    ensures
        place.0 <= picks@.len(),
        forall|i: int|
            0 <= i < place.0 ==> lex_less(
                key_views(keys@)[(#[trigger] picks@[i]) as int],
                key_views(keys@)[k as int],
            ),
        place.1 ==> place.0 < picks@.len() && key_views(keys@)[picks@[place.0 as int] as int]
            == key_views(keys@)[k as int],
        !place.1 && place.0 < picks@.len() ==> lex_less(
            key_views(keys@)[k as int],
            key_views(keys@)[picks@[place.0 as int] as int],
        ),
{
    let ghost views = key_views(keys@);
    let mut at: usize = 0;
    while at < picks.len()
        invariant
            at <= picks@.len(),
            k < keys@.len(),
            views == key_views(keys@),
            picks_below(picks@, k as int),
            forall|i: int|
                0 <= i < at ==> lex_less(views[(#[trigger] picks@[i]) as int], views[k as int]),
        decreases picks@.len() - at,
    {
        let pick = picks[at];
        assert(pick < k);
        proof {
            lemma_lex_total(views[pick as int], views[k as int]);
        }
        match lex_order(keys[pick].as_slice(), keys[k].as_slice()) {
            Rank::Before => {
                at = at + 1;
            },
            Rank::Same => {
                return (at, true);
            },
            Rank::After => {
                return (at, false);
            },
        }
    }
    (at, false)
}

/// Putting the key at position `k` into its place among the picks keeps
/// the picks in order and makes them cover one key more.
proof fn lemma_pick_placed(keys: Seq<Seq<u8>>, before: Seq<usize>, at: int, k: usize)
    requires
        k < keys.len(),
        0 <= at <= before.len(),
        picks_below(before, k as int),
        picks_ascend(keys, before),
        picks_cover(keys, before, k as int),
        forall|i: int| 0 <= i < at ==> lex_less(keys[(#[trigger] before[i]) as int], keys[k as int]),
        at < before.len() ==> lex_less(keys[k as int], keys[before[at] as int]),
    ensures
        picks_below(before.insert(at, k), k + 1),
        picks_ascend(keys, before.insert(at, k)),
        picks_cover(keys, before.insert(at, k), k + 1),
{
    let now = before.insert(at, k);
    assert forall|i: int| at <= i < before.len() implies lex_less(
        keys[k as int],
        keys[(#[trigger] before[i]) as int],
    ) by {
        if i > at {
            assert(lex_less(keys[before[at] as int], keys[before[i] as int]));
            lemma_lex_transitive(keys[k as int], keys[before[at] as int], keys[before[i] as int]);
        }
    }
    assert forall|i: int| 0 <= i < now.len() implies (#[trigger] now[i]) < k + 1 by {
        if i < at {
            assert(now[i] == before[i]);
        } else if i > at {
            assert(now[i] == before[i - 1]);
        }
    }
    assert forall|i: int, j: int| 0 <= i < j < now.len() implies lex_less(
        keys[(#[trigger] now[i]) as int],
        keys[(#[trigger] now[j]) as int],
    ) by {
        if j < at {
            assert(now[i] == before[i] && now[j] == before[j]);
        } else if j == at {
            assert(now[i] == before[i]);
        } else if i < at {
            assert(now[i] == before[i] && now[j] == before[j - 1]);
        } else if i == at {
            assert(now[j] == before[j - 1]);
        } else {
            assert(now[i] == before[i - 1] && now[j] == before[j - 1]);
        }
    }
    assert forall|n: int| 0 <= n < k + 1 implies #[trigger] key_picked(keys, now, n) by {
        if n < k {
            assert(key_picked(keys, before, n));
            let i = choose|i: int|
                0 <= i < before.len() && (#[trigger] before[i]) <= n && keys[before[i] as int]
                    == keys[n];
            let ni = if i < at {
                i
            } else {
                i + 1
            };
            assert(now[ni] == before[i]);
        } else {
            assert(now[at] == k);
        }
    }
}

/// The distinct keys among `keys` in dictionary order, each by the
/// position where it first stands.
pub fn distinct_keys_in_order(keys: &Vec<Vec<u8>>) -> (picks: Vec<usize>)
    ensures
        lists_distinct_keys(key_views(keys@), picks@),
{
    let ghost views = key_views(keys@);
    let mut picks: Vec<usize> = Vec::new();
    let mut k: usize = 0;
    while k < keys.len()
        invariant
            k <= keys@.len(),
            views == key_views(keys@),
            picks_below(picks@, k as int),
            picks_ascend(views, picks@),
            picks_cover(views, picks@, k as int),
        decreases keys@.len() - k,
    {
        let (at, found) = place_of(keys, &picks, k);
        let ghost before = picks@;
        if found {
            proof {
                assert forall|n: int| 0 <= n < k + 1 implies #[trigger] key_picked(
                    views,
                    before,
                    n,
                ) by {
                    if n == k {
                        assert(before[at as int] <= n);
                    }
                }
                assert forall|i: int| 0 <= i < before.len() implies (#[trigger] before[i]) < k
                    + 1 by {
                    assert(before[i] < k);
                }
            }
        } else {
            proof {
                lemma_pick_placed(views, before, at as int, k);
            }
            picks.insert(at, k);
        }
        k = k + 1;
    }
    picks
}

} // verus!
