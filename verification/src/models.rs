use vstd::multiset::Multiset;
use vstd::prelude::*;

verus! {

/// One record: a text, the id it is known by, and when it was written, in
/// milliseconds since the Unix epoch.
#[derive(Debug)]
pub struct Question {
    pub content: String,
    pub id: u64,
    pub time_created: u128,
}

/// What a [`Question`] is to a contract: its text as a sequence of
/// characters, its id and its time.
pub struct QuestionView {
    pub content: Seq<char>,
    pub id: u64,
    pub time_created: u128,
}

impl View for Question {
    type V = QuestionView;

    open spec fn view(&self) -> QuestionView {
        QuestionView { content: self.content@, id: self.id, time_created: self.time_created }
    }
}

impl Clone for Question {
    fn clone(&self) -> (copy: Self)
        ensures
            copy@ == self@,
    {
        Question { content: self.content.clone(), id: self.id, time_created: self.time_created }
    }
}

/// The record with the given text, id and time.
pub open spec fn record_of(content: Seq<char>, id: u64, time_created: u128) -> QuestionView {
    QuestionView { content, id, time_created }
}

/// The views of a sequence of records, in the same order.
pub open spec fn views(records: Seq<Question>) -> Seq<QuestionView> {
    records.map_values(|q: Question| q@)
}

/// The ids that occur in a sequence of records.
pub open spec fn id_set(records: Seq<QuestionView>) -> Set<u64> {
    Set::new(|id: u64| exists|i: int| 0 <= i < records.len() && #[trigger] records[i].id == id)
}

/// Adding a record at the end adds its id to the ids.
pub proof fn lemma_id_set_push(records: Seq<QuestionView>, q: QuestionView)
    ensures
        id_set(records.push(q)) == id_set(records).insert(q.id),
{
    let grown = records.push(q);
    assert forall|id: u64| id_set(grown).contains(id) <==> id_set(records).insert(q.id).contains(
        id,
    ) by {
        if id_set(grown).contains(id) {
            let i = choose|i: int| 0 <= i < grown.len() && #[trigger] grown[i].id == id;
            if i < records.len() {
                assert(records[i].id == id);
            }
        }
        if id_set(records).contains(id) {
            let i = choose|i: int| 0 <= i < records.len() && #[trigger] records[i].id == id;
            assert(grown[i].id == id);
        }
        if id == q.id {
            assert(grown[records.len() as int].id == id);
        }
    }
    assert(id_set(grown) =~= id_set(records).insert(q.id));
}

/// The ids of two sequences laid end to end are the ids of either.
pub proof fn lemma_id_set_add(a: Seq<QuestionView>, b: Seq<QuestionView>)
    ensures
        id_set(a + b) == id_set(a).union(id_set(b)),
{
    let both = a + b;
    assert forall|id: u64| id_set(both).contains(id) <==> id_set(a).union(id_set(b)).contains(
        id,
    ) by {
        if id_set(both).contains(id) {
            let i = choose|i: int| 0 <= i < both.len() && #[trigger] both[i].id == id;
            if i < a.len() {
                assert(a[i].id == id);
            } else {
                assert(b[i - a.len()].id == id);
            }
        }
        if id_set(a).contains(id) {
            let i = choose|i: int| 0 <= i < a.len() && #[trigger] a[i].id == id;
            assert(both[i].id == id);
        }
        if id_set(b).contains(id) {
            let i = choose|i: int| 0 <= i < b.len() && #[trigger] b[i].id == id;
            assert(both[a.len() + i].id == id);
        }
    }
    assert(id_set(both) =~= id_set(a).union(id_set(b)));
}

/// The ids that occur among records held in no particular order.
pub open spec fn ids_held(records: Multiset<QuestionView>) -> Set<u64> {
    Set::new(|id: u64| exists|q: QuestionView| #[trigger] records.contains(q) && q.id == id)
}

/// The ids of records do not depend on the order of the records.
pub proof fn lemma_ids_held_of_seq(records: Seq<QuestionView>)
    ensures
        ids_held(records.to_multiset()) == id_set(records),
{
    broadcast use vstd::seq_lib::group_to_multiset_ensures;

    let held = records.to_multiset();
    assert forall|id: u64| ids_held(held).contains(id) <==> id_set(records).contains(id) by {
        if ids_held(held).contains(id) {
            let q = choose|q: QuestionView| #[trigger] held.contains(q) && q.id == id;
            assert(records.contains(q));
            let i = choose|i: int| 0 <= i < records.len() && records[i] == q;
            assert(records[i].id == id);
        }
        if id_set(records).contains(id) {
            let i = choose|i: int| 0 <= i < records.len() && #[trigger] records[i].id == id;
            assert(records.contains(records[i]));
            assert(held.contains(records[i]));
        }
    }
    assert(ids_held(held) =~= id_set(records));
}

/// The ids of two collections put together are the ids of either.
pub proof fn lemma_ids_held_add(a: Multiset<QuestionView>, b: Multiset<QuestionView>)
    ensures
        ids_held(a.add(b)) == ids_held(a).union(ids_held(b)),
{
    assert forall|id: u64| ids_held(a.add(b)).contains(id) <==> ids_held(a).union(
        ids_held(b),
    ).contains(id) by {
        if ids_held(a.add(b)).contains(id) {
            let q = choose|q: QuestionView| #[trigger] a.add(b).contains(q) && q.id == id;
            assert(a.contains(q) || b.contains(q));
        }
        if ids_held(a).contains(id) {
            let q = choose|q: QuestionView| #[trigger] a.contains(q) && q.id == id;
            assert(a.add(b).contains(q));
        }
        if ids_held(b).contains(id) {
            let q = choose|q: QuestionView| #[trigger] b.contains(q) && q.id == id;
            assert(a.add(b).contains(q));
        }
    }
    assert(ids_held(a.add(b)) =~= ids_held(a).union(ids_held(b)));
}

/// No two records of the sequence share an id.
pub open spec fn distinct_ids(records: Seq<QuestionView>) -> bool {
    forall|i: int, j: int|
        0 <= i < j < records.len() ==> #[trigger] records[i].id != #[trigger] records[j].id
}

/// A copy of every record, in the same order.
pub fn clone_all(records: &Vec<Question>) -> (copy: Vec<Question>)
    ensures
        views(copy@) == views(records@),
{
    let mut copy: Vec<Question> = Vec::new();
    let mut i: usize = 0;
    while i < records.len()
        invariant
            i <= records.len(),
            copy.len() == i,
            forall|k: int| 0 <= k < i ==> copy[k]@ == records[k]@,
        decreases records.len() - i,
    {
        copy.push(records[i].clone());
        i += 1;
    }
    assert(views(copy@) =~= views(records@));
    copy
}

} // verus!
