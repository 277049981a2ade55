use crate::models::{views, Question, QuestionView};
use vstd::prelude::*;

verus! {

/// How many of the records were written at `time` or before.
pub open spec fn not_later(records: Seq<QuestionView>, time: u128) -> nat {
    records.filter(|q: QuestionView| q.time_created <= time).len()
}

/// The records in the order of their times, earliest first. Records of the
/// same time stay in the order in which `records` has them: each record, taken
/// in turn, goes behind every record that is not later than it.
pub open spec fn by_time(records: Seq<QuestionView>) -> Seq<QuestionView>
    decreases records.len(),
{
    if records.len() == 0 {
        Seq::empty()
    } else {
        let earlier = by_time(records.drop_last());
        let q = records.last();
        earlier.insert(not_later(earlier, q.time_created) as int, q)
    }
}

/// No record stands before an earlier one.
pub open spec fn in_time_order(records: Seq<QuestionView>) -> bool {
    forall|i: int, j: int|
        0 <= i <= j < records.len() ==> #[trigger] records[i].time_created
            <= #[trigger] records[j].time_created
}

/// The records written at `time`, in the order of `records`.
pub open spec fn written_at(records: Seq<QuestionView>, time: u128) -> Seq<QuestionView> {
    records.filter(|q: QuestionView| q.time_created == time)
}

/// The texts of the records, in the same order.
pub open spec fn contents(records: Seq<QuestionView>) -> Seq<Seq<char>> {
    records.map_values(|q: QuestionView| q.content)
}

/// What a sequence of strings holds.
pub open spec fn texts(strings: Seq<String>) -> Seq<Seq<char>> {
    strings.map_values(|s: String| s@)
}

/// `not_later` of records in terms of `not_later` of all but the last.
proof fn lemma_not_later_step(records: Seq<QuestionView>, time: u128)
    ensures
        records.len() == 0 ==> not_later(records, time) == 0,
        records.len() > 0 ==> not_later(records, time) == not_later(records.drop_last(), time)
            + if records.last().time_created <= time {
            1nat
        } else {
            0nat
        },
{
    reveal(Seq::filter);
}

/// `not_later` counts records, so it is at most their number.
pub proof fn lemma_not_later_bound(records: Seq<QuestionView>, time: u128)
    ensures
        not_later(records, time) <= records.len(),
    decreases records.len(),
{
    lemma_not_later_step(records, time);
    if records.len() > 0 {
        lemma_not_later_bound(records.drop_last(), time);
    }
}

/// Where the first `p` records are not later than `time` and the rest are,
/// `not_later` is `p`.
pub proof fn lemma_not_later_split(records: Seq<QuestionView>, time: u128, p: int)
    requires
        0 <= p <= records.len(),
        forall|i: int| 0 <= i < p ==> (#[trigger] records[i]).time_created <= time,
        forall|i: int| p <= i < records.len() ==> (#[trigger] records[i]).time_created > time,
    ensures
        not_later(records, time) == p,
    decreases records.len(),
{
    lemma_not_later_step(records, time);
    if records.len() > 0 {
        let earlier = records.drop_last();
        assert forall|i: int| 0 <= i < earlier.len() implies earlier[i] == records[i] by {}
        if p == records.len() {
            lemma_not_later_split(earlier, time, p - 1);
        } else {
            lemma_not_later_split(earlier, time, p);
        }
    }
}

/// In records in time order, those not later than `time` come first, and
/// `not_later` is where the later ones begin.
pub proof fn lemma_not_later_divides(records: Seq<QuestionView>, time: u128)
    requires
        in_time_order(records),
    ensures
        forall|i: int|
            0 <= i < not_later(records, time) ==> (#[trigger] records[i]).time_created <= time,
        forall|i: int|
            not_later(records, time) <= i < records.len() ==> (#[trigger] records[i]).time_created
                > time,
    decreases records.len(),
{
    lemma_not_later_step(records, time);
    if records.len() > 0 {
        let earlier = records.drop_last();
        let n = records.len() - 1;
        assert forall|i: int| 0 <= i < earlier.len() implies earlier[i] == records[i] by {}
        assert(in_time_order(earlier));
        if records.last().time_created <= time {
            assert forall|i: int| 0 <= i < records.len() implies (
            #[trigger] records[i]).time_created <= time by {
                assert(records[i].time_created <= records[n].time_created);
            }
            lemma_not_later_split(records, time, records.len() as int);
        } else {
            lemma_not_later_divides(earlier, time);
            lemma_not_later_bound(earlier, time);
        }
    }
}

/// A record put in anywhere counts if it is not later than `time`.
pub proof fn lemma_not_later_insert(
    records: Seq<QuestionView>,
    p: int,
    q: QuestionView,
    time: u128,
)
    requires
        0 <= p <= records.len(),
    ensures
        not_later(records.insert(p, q), time) == not_later(records, time) + if q.time_created
            <= time {
            1nat
        } else {
            0nat
        },
    decreases records.len(),
{
    let grown = records.insert(p, q);
    records.insert_ensures(p, q);
    lemma_not_later_step(records, time);
    lemma_not_later_step(grown, time);
    if p == records.len() {
        assert(grown.drop_last() =~= records);
        assert(grown.last() == q);
    } else {
        let earlier = records.drop_last();
        assert(grown.drop_last() =~= earlier.insert(p, q));
        assert(grown.last() == records.last());
        lemma_not_later_insert(earlier, p, q, time);
    }
}

/// Ordering by time keeps every record, each as often as it occurs.
pub proof fn lemma_by_time_permutes(records: Seq<QuestionView>)
    ensures
        by_time(records).len() == records.len(),
        by_time(records).to_multiset() == records.to_multiset(),
    decreases records.len(),
{
    if records.len() == 0 {
        assert(by_time(records) =~= records);
    } else {
        let earlier = records.drop_last();
        let q = records.last();
        let sorted = by_time(earlier);
        let p = not_later(sorted, q.time_created) as int;
        lemma_by_time_permutes(earlier);
        lemma_not_later_bound(sorted, q.time_created);
        sorted.insert_ensures(p, q);
        vstd::seq_lib::to_multiset_insert(sorted, p, q);
        assert(records =~= earlier.push(q));
        vstd::seq_lib::to_multiset_build(earlier, q);
    }
}

/// Ordering by time gives records in time order.
pub proof fn lemma_by_time_ordered(records: Seq<QuestionView>)
    ensures
        in_time_order(by_time(records)),
    decreases records.len(),
{
    if records.len() > 0 {
        let earlier = records.drop_last();
        let q = records.last();
        let sorted = by_time(earlier);
        let p = not_later(sorted, q.time_created) as int;
        lemma_by_time_ordered(earlier);
        lemma_not_later_bound(sorted, q.time_created);
        lemma_not_later_divides(sorted, q.time_created);
        sorted.insert_ensures(p, q);
        let out = sorted.insert(p, q);
        assert forall|i: int, j: int| 0 <= i <= j < out.len() implies (
        #[trigger] out[i]).time_created <= (#[trigger] out[j]).time_created by {
            if i < p {
                assert(out[i] == sorted[i]);
            } else if i > p {
                assert(out[i] == sorted[i - 1]);
            }
            if j < p {
                assert(out[j] == sorted[j]);
            } else if j > p {
                assert(out[j] == sorted[j - 1]);
            }
        }
    }
}

/// Ordering by time is stable: the records of any one time keep the order
/// that they had.
pub proof fn lemma_by_time_stable(records: Seq<QuestionView>, time: u128)
    ensures
        written_at(by_time(records), time) == written_at(records, time),
    decreases records.len(),
{
    let at = |q: QuestionView| q.time_created == time;
    if records.len() == 0 {
        assert(by_time(records) =~= records);
    } else {
        let earlier = records.drop_last();
        let q = records.last();
        let sorted = by_time(earlier);
        let p = not_later(sorted, q.time_created) as int;
        lemma_by_time_stable(earlier, time);
        lemma_by_time_ordered(earlier);
        lemma_not_later_bound(sorted, q.time_created);
        lemma_not_later_divides(sorted, q.time_created);
        let head = sorted.subrange(0, p);
        let tail = sorted.subrange(p, sorted.len() as int);
        assert(sorted =~= head + tail);
        Seq::filter_distributes_over_add(head, tail, at);
        Seq::filter_distributes_over_add(head.push(q), tail, at);
        head.lemma_filter_push(q, at);
        assert(records =~= earlier.push(q));
        earlier.lemma_filter_push(q, at);
        if q.time_created == time {
            assert(tail.all(|x: QuestionView| !at(x))) by {
                assert forall|i: int| 0 <= i < tail.len() implies !at(#[trigger] tail[i]) by {
                    assert(tail[i] == sorted[p + i]);
                }
            }
            tail.lemma_all_neg_filter_empty(at);
            assert(tail.filter(at) =~= Seq::<QuestionView>::empty());
            assert(head.filter(at) + tail.filter(at) =~= head.filter(at));
            assert(head.filter(at).push(q) + tail.filter(at) =~= head.filter(at).push(q));
        }
    }
}

/// Writing, then reading: ordering the records and one more puts the new one
/// behind as many records as are not later than it, and leaves the others as
/// they were. So the texts read hold the new text once more than before, at
/// the place that its time gives it.
pub proof fn lemma_by_time_push(records: Seq<QuestionView>, q: QuestionView)
    ensures
        by_time(records.push(q)) == by_time(records).insert(
            not_later(records, q.time_created) as int,
            q,
        ),
        contents(by_time(records.push(q))) == contents(by_time(records)).insert(
            not_later(records, q.time_created) as int,
            q.content,
        ),
        contents(by_time(records.push(q))).to_multiset() == contents(
            by_time(records),
        ).to_multiset().insert(q.content),
        not_later(records, q.time_created) <= records.len(),
{
    assert(records.push(q).drop_last() =~= records);
    lemma_not_later_order_free(records, q.time_created);
    lemma_not_later_bound(records, q.time_created);
    lemma_by_time_permutes(records);
    let sorted = by_time(records);
    let p = not_later(records, q.time_created) as int;
    sorted.insert_ensures(p, q);
    contents(sorted).insert_ensures(p, q.content);
    assert(contents(sorted.insert(p, q)) =~= contents(sorted).insert(p, q.content));
    vstd::seq_lib::to_multiset_insert(contents(sorted), p, q.content);
}

/// `not_later` counts the same before and after ordering by time.
pub proof fn lemma_not_later_order_free(records: Seq<QuestionView>, time: u128)
    ensures
        not_later(by_time(records), time) == not_later(records, time),
    decreases records.len(),
{
    lemma_not_later_step(records, time);
    if records.len() > 0 {
        let earlier = records.drop_last();
        let q = records.last();
        let sorted = by_time(earlier);
        lemma_not_later_order_free(earlier, time);
        lemma_not_later_bound(sorted, q.time_created);
        lemma_not_later_insert(sorted, not_later(sorted, q.time_created) as int, q, time);
    }
}

/// The records in the order of their times, earliest first; records of the
/// same time keep the order in which they came.
pub fn sort_by_time(records: Vec<Question>) -> (sorted: Vec<Question>)
    ensures
        views(sorted@) == by_time(views(records@)),
        in_time_order(views(sorted@)),
        views(sorted@).to_multiset() == views(records@).to_multiset(),
        forall|time: u128| #[trigger]
            written_at(views(sorted@), time) == written_at(views(records@), time),
{
    let ghost all = views(records@);
    let mut sorted: Vec<Question> = Vec::new();
    assert(views(sorted@) =~= by_time(all.take(0)));
    for q in it: records
        invariant
            views(it.seq()) == all,
            views(sorted@) == by_time(all.take(it.index())),
    {
        let ghost done = all.take(it.index());
        let ghost before = views(sorted@);
        proof {
            assert(all.take(it.index() + 1).drop_last() =~= done);
            assert(all.take(it.index() + 1).last() == q@);
            lemma_by_time_ordered(done);
            lemma_by_time_permutes(done);
            lemma_not_later_divides(before, q.time_created);
            lemma_not_later_bound(before, q.time_created);
        }
        let mut p: usize = sorted.len();
        while p > 0 && sorted[p - 1].time_created > q.time_created
            invariant
                p <= sorted.len(),
                before == views(sorted@),
                in_time_order(before),
                forall|i: int| p <= i < before.len() ==> (#[trigger] before[i]).time_created
                    > q.time_created,
            decreases p,
        {
            p -= 1;
        }
        proof {
            assert forall|i: int| 0 <= i < p implies (#[trigger] before[i]).time_created
                <= q.time_created by {
                assert(before[i].time_created <= before[p - 1].time_created);
            }
            lemma_not_later_split(before, q.time_created, p as int);
        }
        sorted.insert(p, q);
        assert(views(sorted@) =~= before.insert(p as int, q@));
    }
    proof {
        assert(all.take(all.len() as int) =~= all);
        lemma_by_time_ordered(all);
        lemma_by_time_permutes(all);
        assert forall|time: u128| #[trigger]
            written_at(by_time(all), time) == written_at(all, time) by {
            lemma_by_time_stable(all, time);
        }
    }
    sorted
}

/// The texts of the records, those of the earliest first; the texts of
/// records of the same time keep the order in which the records came.
pub fn contents_by_time(records: Vec<Question>) -> (out: Vec<String>)
    ensures
        texts(out@) == contents(by_time(views(records@))),
{
    let sorted = sort_by_time(records);
    let ghost all = views(sorted@);
    let mut out: Vec<String> = Vec::new();
    for q in it: sorted
        invariant
            views(it.seq()) == all,
            texts(out@) == contents(all.take(it.index())),
    {
        assert(contents(all.take(it.index() + 1)) =~= contents(all.take(it.index())).push(
            q.content@,
        ));
        out.push(q.content);
        assert(texts(out@) =~= contents(all.take(it.index() + 1)));
    }
    assert(all.take(all.len() as int) =~= all);
    out
}

} // verus!
