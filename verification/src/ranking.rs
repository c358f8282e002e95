//! Why the order in which documents reach a collector does not matter: the
//! scores that it keeps are the best of all that it was given, whatever
//! their order of arrival.

use crate::top_docs::{
    entry_rank, lemma_drop_last_ranked, lemma_place_ranked, offer, ranked, CollectorState, ScoreDoc,
};
use vstd::prelude::*;
use vstd::seq_lib::{
    lemma_multiset_commutative, to_multiset_build, to_multiset_contains, to_multiset_insert,
    to_multiset_len, to_multiset_remove,
};

verus! {

/// How many documents of `s` have a score of at least `t`.
pub open spec fn count_at_least(s: Seq<ScoreDoc>, t: int) -> nat
    decreases s.len(),
{
    if s.len() == 0 {
        0
    } else {
        count_at_least(s.drop_last(), t) + if s.last().score >= t {
            1nat
        } else {
            0nat
        }
    }
}

/// Whether `hits` are the best `capacity` of `seen`: ranked, and at every
/// score as many documents at or above it as `seen` has, up to `capacity`.
pub open spec fn best_of(hits: Seq<ScoreDoc>, capacity: nat, seen: Seq<ScoreDoc>) -> bool {
    &&& ranked(hits)
    &&& hits.len() <= capacity
    &&& forall|t: int|
        #[trigger] count_at_least(hits, t) == vstd::math::min(
            capacity as int,
            count_at_least(seen, t) as int,
        )
}

/// No more documents are counted than there are.
pub proof fn lemma_count_bound(s: Seq<ScoreDoc>, t: int)
    ensures
        count_at_least(s, t) <= s.len(),
    decreases s.len(),
{
    if s.len() > 0 {
        lemma_count_bound(s.drop_last(), t);
    }
}

/// Where every document has at least the score `t`, all are counted.
pub proof fn lemma_count_all(s: Seq<ScoreDoc>, t: int)
    requires
        forall|k: int| 0 <= k < s.len() ==> s[k].score >= t,
    ensures
        count_at_least(s, t) == s.len(),
    decreases s.len(),
{
    if s.len() > 0 {
        let p = s.drop_last();
        assert forall|k: int| 0 <= k < p.len() implies p[k].score >= t by {
            assert(p[k] == s[k]);
        }
        lemma_count_all(p, t);
    }
}

/// One more document, wherever it enters, is counted where its score is at
/// least `t`.
pub proof fn lemma_count_insert(s: Seq<ScoreDoc>, i: int, doc: ScoreDoc, t: int)
    requires
        0 <= i <= s.len(),
    ensures
        count_at_least(s.insert(i, doc), t) == count_at_least(s, t) + if doc.score >= t {
            1nat
        } else {
            0nat
        },
    decreases s.len(),
{
    let u = s.insert(i, doc);
    if i == s.len() {
        assert(u.drop_last() =~= s);
        assert(u.last() == doc);
    } else {
        assert(u.drop_last() =~= s.drop_last().insert(i, doc));
        assert(u.last() == s.last());
        lemma_count_insert(s.drop_last(), i, doc, t);
    }
}

/// The counts of two lists add up to the count of the two in a row.
pub proof fn lemma_count_concat(a: Seq<ScoreDoc>, b: Seq<ScoreDoc>, t: int)
    ensures
        count_at_least(a + b, t) == count_at_least(a, t) + count_at_least(b, t),
    decreases b.len(),
{
    if b.len() == 0 {
        assert(a + b =~= a);
    } else {
        assert((a + b).drop_last() =~= a + b.drop_last());
        assert((a + b).last() == b.last());
        lemma_count_concat(a, b.drop_last(), t);
    }
}

/// In a ranked list the document at `i` has at least the score `t` exactly
/// when more than `i` documents do.
pub proof fn lemma_count_ranked(s: Seq<ScoreDoc>, t: int, i: int)
    requires
        ranked(s),
        0 <= i < s.len(),
    ensures
        count_at_least(s, t) > i <==> s[i].score >= t,
    decreases s.len(),
{
    let p = s.drop_last();
    lemma_drop_last_ranked(s);
    lemma_count_bound(p, t);
    if i < p.len() {
        lemma_count_ranked(p, t, i);
        assert(p[i] == s[i]);
        assert(s[i].score >= s[s.len() - 1].score);
    } else {
        if s.last().score >= t {
            assert forall|k: int| 0 <= k < p.len() implies p[k].score >= t by {
                assert(p[k] == s[k]);
                assert(s[k].score >= s[s.len() - 1].score);
            }
            lemma_count_all(p, t);
        }
    }
}

/// Offering one more document keeps the best: where `hits` are the best of
/// `seen`, the list after the offer is the best of `seen` and the document.
pub proof fn lemma_offer_keeps_best(
    hits: Seq<ScoreDoc>,
    capacity: nat,
    seen: Seq<ScoreDoc>,
    doc: ScoreDoc,
)
    requires
        best_of(hits, capacity, seen),
    ensures
        best_of(offer(hits, capacity, doc), capacity, seen.push(doc)),
{
    let after = offer(hits, capacity, doc);
    let all = seen.push(doc);
    assert(all.drop_last() =~= seen);
    if hits.len() < capacity {
        lemma_place_ranked(hits, doc);
        assert forall|t: int|
            #[trigger] count_at_least(after, t) == vstd::math::min(
                capacity as int,
                count_at_least(all, t) as int,
            ) by {
            lemma_count_insert(hits, entry_rank(hits, doc.score), doc, t);
            lemma_count_bound(hits, t);
            assert(count_at_least(hits, t) == vstd::math::min(
                capacity as int,
                count_at_least(seen, t) as int,
            ));
        }
    } else if hits.len() > 0 && hits.last().score < doc.score {
        let rest = hits.drop_last();
        lemma_drop_last_ranked(hits);
        lemma_place_ranked(rest, doc);
        assert forall|t: int|
            #[trigger] count_at_least(after, t) == vstd::math::min(
                capacity as int,
                count_at_least(all, t) as int,
            ) by {
            lemma_count_insert(rest, entry_rank(rest, doc.score), doc, t);
            lemma_count_bound(rest, t);
            assert(count_at_least(hits, t) == vstd::math::min(
                capacity as int,
                count_at_least(seen, t) as int,
            ));
            if t <= hits.last().score {
                assert forall|k: int| 0 <= k < hits.len() implies hits[k].score >= t by {
                    assert(hits[k].score >= hits[hits.len() - 1].score);
                }
                lemma_count_all(hits, t);
            }
        }
    } else {
        assert forall|t: int|
            #[trigger] count_at_least(after, t) == vstd::math::min(
                capacity as int,
                count_at_least(all, t) as int,
            ) by {
            lemma_count_bound(hits, t);
            assert(count_at_least(hits, t) == vstd::math::min(
                capacity as int,
                count_at_least(seen, t) as int,
            ));
            if hits.len() > 0 && doc.score >= t {
                assert forall|k: int| 0 <= k < hits.len() implies hits[k].score >= t by {
                    assert(hits[k].score >= hits[hits.len() - 1].score);
                }
                lemma_count_all(hits, t);
            }
        }
    }
}

/// After any documents were given, the collector has counted each of them
/// and keeps the best of what it kept before and of them: at every score it
/// holds as many documents at or above it as there were, up to its
/// capacity. Nothing else of it has changed.
pub proof fn lemma_given_all_keeps_best(state: CollectorState, docs: Seq<ScoreDoc>)
    requires
        state.wf(),
    ensures
        state.given_all(docs).wf(),
        state.given_all(docs).total_hits == state.total_hits + docs.len(),
        state.given_all(docs).capacity == state.capacity,
        state.given_all(docs).doc_base == state.doc_base,
        state.given_all(docs).has_channel == state.has_channel,
        best_of(state.given_all(docs).hits, state.capacity, state.hits + docs),
        state.given_all(docs).hits.len() == vstd::math::min(
            state.capacity as int,
            (state.hits.len() + docs.len()) as int,
        ),
    decreases docs.len(),
{
    if docs.len() == 0 {
        assert(state.hits + docs =~= state.hits);
        assert forall|t: int|
            #[trigger] count_at_least(state.hits, t) == vstd::math::min(
                state.capacity as int,
                count_at_least(state.hits, t) as int,
            ) by {
            lemma_count_bound(state.hits, t);
        }
    } else {
        let front = docs.drop_last();
        lemma_given_all_keeps_best(state, front);
        let before = state.given_all(front);
        lemma_offer_keeps_best(before.hits, state.capacity, state.hits + front, docs.last());
        assert((state.hits + front).push(docs.last()) =~= state.hits + docs);
        if before.hits.len() < state.capacity {
            lemma_place_ranked(before.hits, docs.last());
        } else if before.hits.len() > 0 && before.hits.last().score < docs.last().score {
            lemma_drop_last_ranked(before.hits);
            lemma_place_ranked(before.hits.drop_last(), docs.last());
        }
    }
}

/// Two ranked lists that hold equally many documents at or above every
/// score are equally long and have the same score at every place.
pub proof fn lemma_same_counts_same_scores(a: Seq<ScoreDoc>, b: Seq<ScoreDoc>)
    requires
        ranked(a),
        ranked(b),
        forall|t: int| count_at_least(a, t) == count_at_least(b, t),
    ensures
        a.len() == b.len(),
        forall|i: int| 0 <= i < a.len() ==> a[i].score == b[i].score,
{
    let low = i32::MIN as int;
    lemma_count_all(a, low);
    lemma_count_all(b, low);
    assert(count_at_least(a, low) == count_at_least(b, low));
    assert forall|i: int| 0 <= i < a.len() implies a[i].score == b[i].score by {
        let x = a[i].score as int;
        let y = b[i].score as int;
        lemma_count_ranked(a, x, i);
        assert(count_at_least(a, x) == count_at_least(b, x));
        lemma_count_ranked(b, x, i);
        lemma_count_ranked(b, y, i);
        assert(count_at_least(a, y) == count_at_least(b, y));
        lemma_count_ranked(a, y, i);
    }
}

/// Two arrangements of the same documents hold equally many at or above
/// every score.
pub proof fn lemma_rearranged_counts(a: Seq<ScoreDoc>, b: Seq<ScoreDoc>, t: int)
    requires
        a.to_multiset() == b.to_multiset(),
    ensures
        count_at_least(a, t) == count_at_least(b, t),
    decreases a.len(),
{
    to_multiset_len(a);
    to_multiset_len(b);
    if a.len() > 0 {
        let x = a.last();
        let front = a.drop_last();
        assert(front.push(x) =~= a);
        to_multiset_build(front, x);
        to_multiset_contains(b, x);
        assert(a.to_multiset().count(x) > 0);
        let j = choose|j: int| 0 <= j < b.len() && b[j] == x;
        let rest = b.remove(j);
        to_multiset_remove(b, j);
        assert(front.to_multiset() =~= a.to_multiset().remove(x));
        lemma_rearranged_counts(front, rest, t);
        assert(rest.insert(j, x) =~= b);
        lemma_count_insert(rest, j, x, t);
    }
}

/// The order of arrival does not matter. Where two lists of documents hold
/// equally many at or above every score, as two arrangements of the same
/// documents do, a collector given the one ends with the same count, as
/// many documents and the same score at every place as when given the
/// other; which of several documents of one score it keeps may differ.
pub proof fn lemma_arrival_order(state: CollectorState, a: Seq<ScoreDoc>, b: Seq<ScoreDoc>)
    requires
        state.wf(),
        forall|t: int| count_at_least(a, t) == count_at_least(b, t),
    ensures
        state.given_all(a).total_hits == state.given_all(b).total_hits,
        state.given_all(a).hits.len() == state.given_all(b).hits.len(),
        forall|i: int|
            0 <= i < state.given_all(a).hits.len() ==> state.given_all(a).hits[i].score
                == state.given_all(b).hits[i].score,
{
    let low = i32::MIN as int;
    lemma_count_all(a, low);
    lemma_count_all(b, low);
    assert(count_at_least(a, low) == count_at_least(b, low));
    lemma_given_all_keeps_best(state, a);
    lemma_given_all_keeps_best(state, b);
    let ha = state.given_all(a).hits;
    let hb = state.given_all(b).hits;
    assert forall|t: int| count_at_least(ha, t) == count_at_least(hb, t) by {
        lemma_count_concat(state.hits, a, t);
        lemma_count_concat(state.hits, b, t);
        assert(count_at_least(a, t) == count_at_least(b, t));
    }
    lemma_same_counts_same_scores(ha, hb);
}

/// A collector ends the same whether the documents of a search reach it in
/// one order or in another: it has counted as many, keeps as many, and has
/// the same score at every place.
pub proof fn lemma_rearranged_arrival(state: CollectorState, a: Seq<ScoreDoc>, b: Seq<ScoreDoc>)
    requires
        state.wf(),
        a.to_multiset() == b.to_multiset(),
    ensures
        state.given_all(a).total_hits == state.given_all(b).total_hits,
        state.given_all(a).hits.len() == state.given_all(b).hits.len(),
        forall|i: int|
            0 <= i < state.given_all(a).hits.len() ==> state.given_all(a).hits[i].score
                == state.given_all(b).hits[i].score,
{
    assert forall|t: int| count_at_least(a, t) == count_at_least(b, t) by {
        lemma_rearranged_counts(a, b, t);
    }
    lemma_arrival_order(state, a, b);
}

/// Giving the documents of one list and then those of another is giving
/// the documents of the two in a row: segments collected one after the
/// other make one search.
pub proof fn lemma_given_in_parts(state: CollectorState, a: Seq<ScoreDoc>, b: Seq<ScoreDoc>)
    ensures
        state.given_all(a).given_all(b) == state.given_all(a + b),
    decreases b.len(),
{
    if b.len() == 0 {
        assert(a + b =~= a);
    } else {
        assert((a + b).drop_last() =~= a + b.drop_last());
        assert((a + b).last() == b.last());
        lemma_given_in_parts(state, a, b.drop_last());
    }
}

/// How often the document `doc`, with its score, stands in `s`.
pub open spec fn times(s: Seq<ScoreDoc>, doc: ScoreDoc) -> nat {
    s.to_multiset().count(doc)
}

/// Whether `hits` hold the documents of `seen` but for ties at the lowest
/// score: no document stands in `hits` more often than in `seen`; below
/// `capacity` every document of `seen` is kept; and at capacity every
/// document of `seen` whose score is above the lowest score of `hits` is
/// kept, as often as it was seen.
pub open spec fn keeps_above_lowest(
    hits: Seq<ScoreDoc>,
    capacity: nat,
    seen: Seq<ScoreDoc>,
) -> bool {
    &&& forall|d: ScoreDoc| #[trigger] times(hits, d) <= times(seen, d)
    &&& hits.len() < capacity ==> forall|d: ScoreDoc| #[trigger] times(hits, d) == times(seen, d)
    &&& hits.len() > 0 ==> forall|d: ScoreDoc|
        d.score > hits.last().score ==> #[trigger] times(hits, d) == times(seen, d)
}

/// One more document, wherever it enters, stands once more in the list.
pub proof fn lemma_times_insert(s: Seq<ScoreDoc>, i: int, doc: ScoreDoc, d: ScoreDoc)
    requires
        0 <= i <= s.len(),
    ensures
        times(s.insert(i, doc), d) == times(s, d) + if d == doc {
            1nat
        } else {
            0nat
        },
{
    broadcast use vstd::multiset::group_multiset_axioms;

    to_multiset_insert(s, i, doc);
}

/// Without its last document a list holds that document once less.
pub proof fn lemma_times_drop_last(s: Seq<ScoreDoc>, d: ScoreDoc)
    requires
        s.len() > 0,
    ensures
        times(s, d) == times(s.drop_last(), d) + if d == s.last() {
            1nat
        } else {
            0nat
        },
{
    let front = s.drop_last();
    assert(front.insert(front.len() as int, s.last()) =~= s);
    lemma_times_insert(front, front.len() as int, s.last(), d);
}

/// Offering one more document keeps all but ties at the lowest score.
pub proof fn lemma_offer_keeps_above(
    hits: Seq<ScoreDoc>,
    capacity: nat,
    seen: Seq<ScoreDoc>,
    doc: ScoreDoc,
)
    requires
        ranked(hits),
        hits.len() <= capacity,
        keeps_above_lowest(hits, capacity, seen),
    ensures
        keeps_above_lowest(offer(hits, capacity, doc), capacity, seen.push(doc)),
{
    let after = offer(hits, capacity, doc);
    let all = seen.push(doc);
    assert(all =~= seen.insert(seen.len() as int, doc));
    if hits.len() < capacity {
        lemma_place_ranked(hits, doc);
        assert forall|d: ScoreDoc| #[trigger] times(after, d) == times(all, d) by {
            lemma_times_insert(hits, entry_rank(hits, doc.score), doc, d);
            lemma_times_insert(seen, seen.len() as int, doc, d);
            assert(times(hits, d) == times(seen, d));
        }
    } else if hits.len() > 0 && hits.last().score < doc.score {
        let rest = hits.drop_last();
        let low = hits.last();
        lemma_drop_last_ranked(hits);
        lemma_place_ranked(rest, doc);
        let rank = entry_rank(rest, doc.score);
        assert(after.last().score >= low.score) by {
            if rank == rest.len() {
                assert(after.last() == doc);
            } else {
                assert(after.last() == rest.last());
                assert(rest.last() == hits[hits.len() - 2]);
                assert(hits[hits.len() - 2].score >= hits[hits.len() - 1].score);
            }
        }
        assert forall|d: ScoreDoc| #[trigger] times(after, d) <= times(all, d) by {
            lemma_times_insert(rest, rank, doc, d);
            lemma_times_insert(seen, seen.len() as int, doc, d);
            lemma_times_drop_last(hits, d);
            assert(times(hits, d) <= times(seen, d));
        }
        assert forall|d: ScoreDoc| d.score > after.last().score implies #[trigger] times(after, d)
            == times(all, d) by {
            lemma_times_insert(rest, rank, doc, d);
            lemma_times_insert(seen, seen.len() as int, doc, d);
            lemma_times_drop_last(hits, d);
            assert(times(hits, d) == times(seen, d));
        }
    } else {
        assert forall|d: ScoreDoc| #[trigger] times(after, d) <= times(all, d) by {
            lemma_times_insert(seen, seen.len() as int, doc, d);
            assert(times(hits, d) <= times(seen, d));
        }
        if hits.len() > 0 {
            assert forall|d: ScoreDoc| d.score > after.last().score implies #[trigger] times(
                after,
                d,
            ) == times(all, d) by {
                lemma_times_insert(seen, seen.len() as int, doc, d);
                assert(times(hits, d) == times(seen, d));
            }
        }
    }
}

/// After any documents were given, the collector keeps, of what it kept
/// before and of them, every document but for ties at the lowest score: all
/// of them while it is below its capacity, and at capacity every one whose
/// score is above the lowest that it keeps.
pub proof fn lemma_given_all_keeps_above(state: CollectorState, docs: Seq<ScoreDoc>)
    requires
        state.wf(),
    ensures
        keeps_above_lowest(state.given_all(docs).hits, state.capacity, state.hits + docs),
    decreases docs.len(),
{
    if docs.len() == 0 {
        assert(state.hits + docs =~= state.hits);
    } else {
        let front = docs.drop_last();
        lemma_given_all_keeps_above(state, front);
        lemma_given_all_keeps_best(state, front);
        let before = state.given_all(front);
        lemma_offer_keeps_above(before.hits, state.capacity, state.hits + front, docs.last());
        assert((state.hits + front).push(docs.last()) =~= state.hits + docs);
    }
}

/// A collector ends with the same documents, but for ties at the lowest
/// score, whether the documents of a search reach it in one order or in
/// another: the lowest score that it keeps is the same, and every document
/// with a score above it is kept as often in the one case as in the other.
/// A document that it keeps at the lowest score is one of those given with
/// that score, and as many of them are kept either way.
pub proof fn lemma_rearranged_documents(state: CollectorState, a: Seq<ScoreDoc>, b: Seq<ScoreDoc>)
    requires
        state.wf(),
        a.to_multiset() == b.to_multiset(),
    ensures
        state.given_all(a).hits.len() == state.given_all(b).hits.len(),
        state.given_all(a).hits.len() > 0 ==> state.given_all(a).hits.last().score
            == state.given_all(b).hits.last().score,
        forall|d: ScoreDoc|
            state.given_all(a).hits.len() > 0 && d.score > state.given_all(a).hits.last().score
                ==> #[trigger] times(state.given_all(a).hits, d) == times(
                state.given_all(b).hits,
                d,
            ),
        forall|d: ScoreDoc|
            state.given_all(a).hits.len() < state.capacity ==> #[trigger] times(
                state.given_all(a).hits,
                d,
            ) == times(state.given_all(b).hits, d),
        forall|d: ScoreDoc| #[trigger]
            times(state.given_all(a).hits, d) <= times(state.hits + a, d),
        forall|d: ScoreDoc| #[trigger]
            times(state.given_all(b).hits, d) <= times(state.hits + a, d),
        forall|t: int|
            count_at_least(state.given_all(a).hits, t) == count_at_least(
                state.given_all(b).hits,
                t,
            ),
{
    broadcast use vstd::multiset::group_multiset_axioms;

    lemma_rearranged_arrival(state, a, b);
    lemma_given_all_keeps_above(state, a);
    lemma_given_all_keeps_above(state, b);
    lemma_given_all_keeps_best(state, a);
    lemma_given_all_keeps_best(state, b);
    let ha = state.given_all(a).hits;
    let hb = state.given_all(b).hits;
    lemma_multiset_commutative(state.hits, a);
    lemma_multiset_commutative(state.hits, b);
    assert((state.hits + a).to_multiset() =~= (state.hits + b).to_multiset());
    assert forall|d: ScoreDoc| times(state.hits + a, d) == times(state.hits + b, d) by {}
    assert forall|d: ScoreDoc| ha.len() > 0 && d.score > ha.last().score implies #[trigger] times(
        ha,
        d,
    ) == times(hb, d) by {
        assert(times(ha, d) == times(state.hits + a, d));
        assert(times(hb, d) == times(state.hits + b, d));
    }
    assert forall|d: ScoreDoc| ha.len() < state.capacity implies #[trigger] times(ha, d) == times(
        hb,
        d,
    ) by {
        assert(times(ha, d) == times(state.hits + a, d));
        assert(times(hb, d) == times(state.hits + b, d));
    }
    assert forall|d: ScoreDoc| #[trigger] times(hb, d) <= times(state.hits + a, d) by {
        assert(times(hb, d) <= times(state.hits + b, d));
    }
    assert forall|t: int| count_at_least(ha, t) == count_at_least(hb, t) by {
        lemma_rearranged_counts(a, b, t);
        lemma_count_concat(state.hits, a, t);
        lemma_count_concat(state.hits, b, t);
    }
}

} // verus!
