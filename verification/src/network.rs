use crate::error::Error;
use crate::models::{id_set, ids_held, views, Question, QuestionView};
use vstd::multiset::Multiset;
use vstd::prelude::*;

verus! {

/// The way to the remote records.
///
/// The contracts speak of a remote side that nobody else alters between the
/// calls of one client.
pub trait Client {
    /// The records that the remote side holds.
    spec fn remote(&self) -> Multiset<QuestionView>;

    /// A copy of every record of the remote side.
    fn get_remote(&self) -> (found: Result<Vec<Question>, Error>)
        ensures
            found matches Ok(records) ==> views(records@).to_multiset() == self.remote(),
    ;

    /// Hands the given records to the remote side, which adds them to its
    /// own: afterwards it knows their ids beside those it knew. A call that
    /// fails leaves the remote side as it was.
    fn write(&mut self, values: Vec<Question>) -> (done: Result<(), Error>)
        ensures
            done is Ok ==> ids_held(final(self).remote()) == ids_held(old(self).remote()).union(
                id_set(views(values@)),
            ),
            done is Err ==> final(self).remote() == old(self).remote(),
    ;
}

/// A call of `get_remote` on `client` can answer `found`.
pub open spec fn fetches<T: Client>(client: T, found: Result<Vec<Question>, Error>) -> bool {
    call_ensures(T::get_remote, (&client,), found)
}

} // verus!
