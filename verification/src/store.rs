use crate::error::Error;
use crate::models::{
    clone_all, distinct_ids, id_set, ids_held, lemma_id_set_add, lemma_ids_held_of_seq, views,
    Question, QuestionView,
};
use vstd::multiset::Multiset;
use vstd::prelude::*;

verus! {

/// The given records bring only ids that are new to the records held, and
/// each of them once.
pub open spec fn all_new(given: Seq<QuestionView>, held: Multiset<QuestionView>) -> bool {
    &&& distinct_ids(given)
    &&& id_set(given).disjoint(ids_held(held))
}

/// A holder of the local records.
///
/// `store` takes `&mut self`: the borrow gives each call the store to itself,
/// so a call is atomic with respect to every other call on the same store.
pub trait Store: Send + Sync {
    /// The records that the store holds, each as often as it holds it.
    spec fn held(&self) -> Multiset<QuestionView>;

    /// Takes in all the given records, and refuses none for its id: afterwards
    /// the store holds a record for every id given. Records whose ids are new
    /// to the store, and differ from one another, are added as they are; what
    /// becomes of records that share an id is for the store to choose. A call
    /// that fails leaves the store as it was.
    fn store(&mut self, comment: Vec<Question>) -> (done: Result<(), Error>)
        ensures
            done is Ok ==> ids_held(final(self).held()) == ids_held(old(self).held()).union(
                id_set(views(comment@)),
            ),
            done is Ok && all_new(views(comment@), old(self).held()) ==> final(self).held() == old(
                self,
            ).held().add(views(comment@).to_multiset()),
            done is Err ==> final(self).held() == old(self).held(),
    ;

    /// A copy of every record held, in an order of the store's choosing.
    fn get(&self) -> (found: Result<Vec<Question>, Error>)
        ensures
            found matches Ok(records) ==> views(records@).to_multiset() == self.held(),
    ;
}

/// A call of `get` on `store` can answer `found`.
pub open spec fn gets<S: Store>(store: S, found: Result<Vec<Question>, Error>) -> bool {
    call_ensures(S::get, (&store,), found)
}

/// A store that keeps its records in memory, in the order in which they came.
pub struct InMemoryStore {
    db: Vec<Question>,
}

impl View for InMemoryStore {
    type V = Seq<QuestionView>;

    /// The records held, first stored first.
    closed spec fn view(&self) -> Seq<QuestionView> {
        views(self.db@)
    }
}

impl Default for InMemoryStore {
    /// A store that holds nothing.
    fn default() -> (empty: Self)
        ensures
            empty@ == Seq::<QuestionView>::empty(),
    {
        let empty = InMemoryStore { db: Vec::new() };
        assert(empty@ =~= Seq::<QuestionView>::empty());
        empty
    }
}

impl Store for InMemoryStore {
    open spec fn held(&self) -> Multiset<QuestionView> {
        self@.to_multiset()
    }

    /// Puts the given records behind those held, whatever their ids; it
    /// never fails.
    fn store(&mut self, comment: Vec<Question>) -> (done: Result<(), Error>)
        ensures
            done is Ok,
            final(self)@ == old(self)@ + views(comment@),
    {
        let mut comment = comment;
        let ghost added = views(comment@);
        self.db.append(&mut comment);
        proof {
            assert(self@ =~= old(self)@ + added);
            vstd::seq_lib::lemma_multiset_commutative(old(self)@, added);
            lemma_ids_held_of_seq(old(self)@);
            lemma_ids_held_of_seq(self@);
            lemma_id_set_add(old(self)@, added);
        }
        Ok(())
    }

    /// A copy of the records held, first stored first; it never fails.
    fn get(&self) -> (found: Result<Vec<Question>, Error>)
        ensures
            found matches Ok(records) && views(records@) == self@,
    {
        Ok(clone_all(&self.db))
    }
}

} // verus!
