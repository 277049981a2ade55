use crate::models::{
    distinct_ids, id_set, lemma_id_set_add, lemma_id_set_push, views, Question, QuestionView,
};
use std::collections::HashSet;
use vstd::prelude::*;

verus! {

broadcast use vstd::std_specs::hash::group_hash_axioms;

/// Whether the record at place `i` of `source` is one that a side knowing
/// the ids `known` lacks: its id is not known, and no earlier record of
/// `source` carries it.
pub open spec fn lacked_at(source: Seq<QuestionView>, known: Set<u64>, i: int) -> bool {
    &&& !known.contains(source[i].id)
    &&& forall|j: int| 0 <= j < i ==> (#[trigger] source[j]).id != source[i].id
}

/// The records of `source` that a side knowing the ids `known` lacks: for each
/// id of `source` outside `known`, the first record of `source` that carries
/// it, in the order of `source`.
pub open spec fn unmatched(source: Seq<QuestionView>, known: Set<u64>) -> Seq<QuestionView> {
    Seq::new(source.len(), |i: int| i).filter(|i: int| lacked_at(source, known, i)).map_values(
        |i: int| source[i],
    )
}

/// What the local side takes over from the remote one.
pub open spec fn to_apply(local: Seq<QuestionView>, remote: Seq<QuestionView>) -> Seq<
    QuestionView,
> {
    unmatched(remote, id_set(local))
}

/// What the local side hands to the remote one.
pub open spec fn to_send(local: Seq<QuestionView>, remote: Seq<QuestionView>) -> Seq<
    QuestionView,
> {
    unmatched(local, id_set(remote))
}

/// Two tests that agree on every item of a sequence keep the same items.
proof fn lemma_filter_agree<A>(items: Seq<A>, p: spec_fn(A) -> bool, q: spec_fn(A) -> bool)
    requires
        forall|i: int| 0 <= i < items.len() ==> p(#[trigger] items[i]) == q(items[i]),
    ensures
        items.filter(p) == items.filter(q),
    decreases items.len(),
{
    reveal(Seq::filter);
    if items.len() > 0 {
        let earlier = items.drop_last();
        assert forall|i: int| 0 <= i < earlier.len() implies p(#[trigger] earlier[i]) == q(
            earlier[i],
        ) by {
            assert(earlier[i] == items[i]);
        }
        lemma_filter_agree(earlier, p, q);
    }
}

/// Of no records none is unmatched.
pub proof fn lemma_unmatched_of_none(known: Set<u64>)
    ensures
        unmatched(Seq::<QuestionView>::empty(), known) == Seq::<QuestionView>::empty(),
{
    reveal(Seq::filter);
    let none = Seq::<QuestionView>::empty();
    assert(Seq::new(none.len(), |i: int| i) =~= Seq::<int>::empty());
    assert(unmatched(none, known) =~= none);
}

/// One record more is unmatched exactly if its id is neither known nor
/// carried by a record before it; the records before it are unmatched as
/// they were without it.
pub proof fn lemma_unmatched_push(source: Seq<QuestionView>, known: Set<u64>, q: QuestionView)
    ensures
        unmatched(source.push(q), known) == if known.contains(q.id) || id_set(source).contains(
            q.id,
        ) {
            unmatched(source, known)
        } else {
            unmatched(source, known).push(q)
        },
{
    let n = source.len() as int;
    let grown = source.push(q);
    let places = Seq::new(source.len(), |i: int| i);
    let more_places = Seq::new(grown.len(), |i: int| i);
    let lacked = |i: int| lacked_at(source, known, i);
    let lacked_grown = |i: int| lacked_at(grown, known, i);
    assert(more_places =~= places.push(n));
    places.lemma_filter_push(n, lacked_grown);
    assert forall|k: int| 0 <= k < places.len() implies lacked_grown(#[trigger] places[k])
        == lacked(places[k]) by {
        let i = places[k];
        assert(grown[i] == source[i]);
        if lacked(i) {
            assert forall|j: int| 0 <= j < i implies (#[trigger] grown[j]).id != grown[i].id by {
                assert(grown[j] == source[j]);
            }
        }
        if lacked_grown(i) {
            assert forall|j: int| 0 <= j < i implies (#[trigger] source[j]).id != source[i].id by {
                assert(grown[j] == source[j]);
            }
        }
    }
    lemma_filter_agree(places, lacked_grown, lacked);
    let kept = places.filter(lacked);
    assert forall|k: int| 0 <= k < kept.len() implies 0 <= #[trigger] kept[k] < n by {
        assert(kept.contains(kept[k]));
        places.lemma_filter_contains_rev(lacked, kept[k]);
        let at = choose|at: int| 0 <= at < places.len() && places[at] == kept[k];
        assert(places[at] == at);
    }
    assert(kept.map_values(|i: int| grown[i]) =~= kept.map_values(|i: int| source[i]));
    assert(grown[n] == q);
    if known.contains(q.id) || id_set(source).contains(q.id) {
        if !known.contains(q.id) {
            let j = choose|j: int| 0 <= j < source.len() && #[trigger] source[j].id == q.id;
            assert(grown[j].id == grown[n].id);
        }
        assert(!lacked_grown(n));
    } else {
        assert forall|j: int| 0 <= j < n implies (#[trigger] grown[j]).id != grown[n].id by {
            assert(grown[j] == source[j]);
            assert(id_set(source).contains(source[j].id));
        }
        assert(lacked_grown(n));
        assert(kept.push(n).map_values(|i: int| grown[i]) =~= kept.map_values(
            |i: int| grown[i],
        ).push(q));
    }
}

/// What is unmatched among records, of which there is one at least, in
/// terms of what is unmatched among all but the last.
proof fn lemma_unmatched_step(source: Seq<QuestionView>, known: Set<u64>)
    requires
        source.len() > 0,
    ensures
        unmatched(source, known) == if known.contains(source.last().id) || id_set(
            source.drop_last(),
        ).contains(source.last().id) {
            unmatched(source.drop_last(), known)
        } else {
            unmatched(source.drop_last(), known).push(source.last())
        },
{
    assert(source =~= source.drop_last().push(source.last()));
    lemma_unmatched_push(source.drop_last(), known, source.last());
}

/// The ids of the unmatched records are the ids of `source` outside `known`,
/// and each occurs once.
pub proof fn lemma_unmatched_ids(source: Seq<QuestionView>, known: Set<u64>)
    ensures
        id_set(unmatched(source, known)) == id_set(source).difference(known),
        distinct_ids(unmatched(source, known)),
    decreases source.len(),
{
    if source.len() == 0 {
        assert(source =~= Seq::<QuestionView>::empty());
        lemma_unmatched_of_none(known);
        assert(id_set(unmatched(source, known)) =~= id_set(source).difference(known));
    } else {
        let earlier = source.drop_last();
        let q = source.last();
        lemma_unmatched_step(source, known);
        lemma_unmatched_ids(earlier, known);
        assert(source =~= earlier.push(q));
        lemma_id_set_push(earlier, q);
        let before = unmatched(earlier, known);
        if known.contains(q.id) || id_set(earlier).contains(q.id) {
            assert(id_set(before) =~= id_set(source).difference(known));
        } else {
            lemma_id_set_push(before, q);
            assert(id_set(before.push(q)) =~= id_set(source).difference(known));
            assert forall|i: int, j: int| 0 <= i < j < before.push(q).len() implies (
            #[trigger] before.push(q)[i].id) != #[trigger] before.push(q)[j].id by {
                if j == before.len() {
                    assert(before[i].id == before.push(q)[i].id);
                    assert(id_set(before).contains(before[i].id));
                }
            }
        }
    }
}

/// Nothing is unmatched exactly when every id of `source` is known.
pub proof fn lemma_unmatched_empty(source: Seq<QuestionView>, known: Set<u64>)
    ensures
        unmatched(source, known).len() == 0 <==> id_set(source).subset_of(known),
{
    lemma_unmatched_ids(source, known);
    let out = unmatched(source, known);
    if out.len() == 0 {
        assert forall|id: u64| id_set(source).contains(id) implies known.contains(id) by {
            if !known.contains(id) {
                assert(id_set(source).difference(known).contains(id));
                assert(id_set(out).contains(id));
            }
        }
    } else {
        assert(id_set(out).contains(out[0].id));
        assert(id_set(source).difference(known).contains(out[0].id));
    }
}

/// Convergence: once the local side has taken over what it lacked and the
/// remote side what it lacked, each side knows the ids that either knew.
pub proof fn lemma_exchange_converges(local: Seq<QuestionView>, remote: Seq<QuestionView>)
    ensures
        id_set(local + to_apply(local, remote)) == id_set(local).union(id_set(remote)),
        id_set(remote + to_send(local, remote)) == id_set(local).union(id_set(remote)),
{
    lemma_unmatched_ids(remote, id_set(local));
    lemma_unmatched_ids(local, id_set(remote));
    lemma_id_set_add(local, to_apply(local, remote));
    lemma_id_set_add(remote, to_send(local, remote));
    assert(id_set(local).union(id_set(remote).difference(id_set(local))) =~= id_set(local).union(
        id_set(remote),
    ));
    assert(id_set(remote).union(id_set(local).difference(id_set(remote))) =~= id_set(local).union(
        id_set(remote),
    ));
}

/// Two sides that know the same ids have nothing to exchange, whatever their
/// records hold.
pub proof fn lemma_exchange_settled(local: Seq<QuestionView>, remote: Seq<QuestionView>)
    requires
        id_set(local) == id_set(remote),
    ensures
        to_apply(local, remote) == Seq::<QuestionView>::empty(),
        to_send(local, remote) == Seq::<QuestionView>::empty(),
{
    lemma_unmatched_empty(remote, id_set(local));
    lemma_unmatched_empty(local, id_set(remote));
    assert(to_apply(local, remote) =~= Seq::<QuestionView>::empty());
    assert(to_send(local, remote) =~= Seq::<QuestionView>::empty());
}

/// Idempotence: after one exchange a second one moves nothing. `remote_after`
/// is the remote side after the first exchange, in any order and with
/// whatever records, as long as it knows the ids that it knew and those that
/// it was sent.
pub proof fn lemma_exchange_twice(
    local: Seq<QuestionView>,
    remote: Seq<QuestionView>,
    remote_after: Seq<QuestionView>,
)
    requires
        id_set(remote_after) == id_set(remote).union(id_set(to_send(local, remote))),
    ensures
        to_apply(local + to_apply(local, remote), remote_after) == Seq::<QuestionView>::empty(),
        to_send(local + to_apply(local, remote), remote_after) == Seq::<QuestionView>::empty(),
{
    lemma_exchange_converges(local, remote);
    lemma_unmatched_ids(local, id_set(remote));
    assert(id_set(remote).union(id_set(local).difference(id_set(remote))) =~= id_set(local).union(
        id_set(remote),
    ));
    lemma_exchange_settled(local + to_apply(local, remote), remote_after);
}

/// No overwriting: an id that both sides know is exchanged in neither
/// direction, whether or not the two sides hold the same under it.
pub proof fn lemma_shared_id_stays(local: Seq<QuestionView>, remote: Seq<QuestionView>, id: u64)
    requires
        id_set(local).contains(id),
        id_set(remote).contains(id),
    ensures
        !id_set(to_apply(local, remote)).contains(id),
        !id_set(to_send(local, remote)).contains(id),
{
    lemma_unmatched_ids(remote, id_set(local));
    lemma_unmatched_ids(local, id_set(remote));
}

/// A local side on which no two records share an id stays so when it takes
/// over what it lacked.
pub proof fn lemma_apply_keeps_distinct(local: Seq<QuestionView>, remote: Seq<QuestionView>)
    requires
        distinct_ids(local),
    ensures
        distinct_ids(local + to_apply(local, remote)),
{
    let taken = to_apply(local, remote);
    let both = local + taken;
    lemma_unmatched_ids(remote, id_set(local));
    assert forall|i: int, j: int| 0 <= i < j < both.len() implies (#[trigger] both[i]).id != (
    #[trigger] both[j]).id by {
        if j < local.len() {
            assert(both[i] == local[i] && both[j] == local[j]);
        } else if i >= local.len() {
            assert(both[i] == taken[i - local.len()] && both[j] == taken[j - local.len()]);
        } else {
            assert(both[i] == local[i] && both[j] == taken[j - local.len()]);
            assert(id_set(local).contains(local[i].id));
            assert(id_set(taken).contains(taken[j - local.len()].id));
        }
    }
}

/// The ids that occur in `records`.
pub fn ids_of(records: &Vec<Question>) -> (ids: HashSet<u64>)
    ensures
        ids@ == id_set(views(records@)),
{
    let mut ids: HashSet<u64> = HashSet::new();
    let mut i: usize = 0;
    assert(id_set(views(records@).take(0)) =~= Set::<u64>::empty());
    while i < records.len()
        invariant
            i <= records.len(),
            ids@ == id_set(views(records@).take(i as int)),
        decreases records.len() - i,
    {
        proof {
            let all = views(records@);
            assert(all.take(i + 1) =~= all.take(i as int).push(all[i as int]));
            lemma_id_set_push(all.take(i as int), all[i as int]);
        }
        ids.insert(records[i].id);
        i += 1;
    }
    assert(views(records@).take(i as int) =~= views(records@));
    ids
}

/// Copies of the records of `source` whose id no record of `other` carries,
/// one for each such id: the first of `source` that carries it, in the order
/// of `source`.
pub fn unmatched_records(source: &Vec<Question>, other: &Vec<Question>) -> (out: Vec<Question>)
    ensures
        views(out@) == unmatched(views(source@), id_set(views(other@))),
        id_set(views(out@)) == id_set(views(source@)).difference(id_set(views(other@))),
        distinct_ids(views(out@)),
{
    let ghost known = id_set(views(other@));
    let ghost all = views(source@);
    let mut seen = ids_of(other);
    let mut out: Vec<Question> = Vec::new();
    let mut i: usize = 0;
    assert(id_set(all.take(0)) =~= Set::<u64>::empty());
    assert(seen@ =~= known.union(id_set(all.take(0))));
    proof {
        assert(all.take(0) =~= Seq::<QuestionView>::empty());
        lemma_unmatched_of_none(known);
        assert(views(out@) =~= unmatched(all.take(0), known));
    }
    while i < source.len()
        invariant
            i <= source.len(),
            all == views(source@),
            seen@ == known.union(id_set(all.take(i as int))),
            views(out@) == unmatched(all.take(i as int), known),
        decreases source.len() - i,
    {
        let ghost earlier = all.take(i as int);
        let ghost grown = all.take(i + 1);
        proof {
            assert(grown =~= earlier.push(all[i as int]));
            lemma_unmatched_push(earlier, known, all[i as int]);
            lemma_id_set_push(earlier, all[i as int]);
            assert(known.union(id_set(earlier)).insert(all[i as int].id) =~= known.union(
                id_set(grown),
            ));
        }
        let fresh = seen.insert(source[i].id);
        if fresh {
            out.push(source[i].clone());
            assert(views(out@) =~= unmatched(earlier, known).push(all[i as int]));
        }
        i += 1;
    }
    proof {
        assert(all.take(i as int) =~= all);
        lemma_unmatched_ids(all, known);
    }
    out
}

} // verus!
