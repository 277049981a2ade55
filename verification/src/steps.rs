use crate::error::Error;
use crate::models::{views, Question};
use crate::reconcile::{to_apply, to_send, unmatched_records};
use vstd::prelude::*;

verus! {

/// Where a reconciliation stands: what is to be done next, and what it holds
/// for later. Whoever runs it does what the stage asks and calls the function
/// of that stage with the answer.
#[derive(Debug)]
pub enum Stage {
    /// The remote side is to be read; the answer goes to [`remote_read`].
    ReadRemote,
    /// The local side is to be read; the answer goes to [`local_read`],
    /// with the remote records.
    ReadLocal { remote: Vec<Question> },
    /// `to_apply` is to be handed to the store; the answer goes to
    /// [`stored`], with `to_send`.
    Store { to_apply: Vec<Question>, to_send: Vec<Question> },
    /// `to_send` is to be handed to the client; the answer goes to [`sent`].
    Send { to_send: Vec<Question> },
    /// Nothing is left to do, and this is the answer of the reconciliation.
    Done(Result<(), Error>),
}

/// The stage at which every reconciliation begins.
pub fn start() -> (stage: Stage)
    ensures
        stage == Stage::ReadRemote,
{
    Stage::ReadRemote
}

/// The stage after the remote side was read: with its error the
/// reconciliation ends, with its records the local side is read next.
pub fn remote_read(got: Result<Vec<Question>, Error>) -> (stage: Stage)
    ensures
        got matches Ok(remote) ==> stage == (Stage::ReadLocal { remote }),
        got matches Err(e) ==> stage == Stage::Done(Err(e)),
{
    match got {
        Ok(remote) => Stage::ReadLocal { remote },
        Err(e) => Stage::Done(Err(e)),
    }
}

/// The stage after the local side was read: with its error the
/// reconciliation ends; with its records, what the local side lacks is to be
/// stored next, and what the remote side lacks is kept for sending.
pub fn local_read(remote: Vec<Question>, got: Result<Vec<Question>, Error>) -> (stage: Stage)
    ensures
        got matches Ok(local) ==> stage matches Stage::Store { to_apply: taken, to_send: handed }
            && views(taken@) == to_apply(views(local@), views(remote@)) && views(handed@)
            == to_send(views(local@), views(remote@)),
        got matches Err(e) ==> stage == Stage::Done(Err(e)),
{
    match got {
        Ok(local) => {
            let taken = unmatched_records(&remote, &local);
            let handed = unmatched_records(&local, &remote);
            Stage::Store { to_apply: taken, to_send: handed }
        },
        Err(e) => Stage::Done(Err(e)),
    }
}

/// The stage after the store was written: with its error the reconciliation
/// ends, and nothing is sent; otherwise `to_send` is sent next.
pub fn stored(to_send: Vec<Question>, done: Result<(), Error>) -> (stage: Stage)
    ensures
        done is Ok ==> stage == (Stage::Send { to_send }),
        done matches Err(e) ==> stage == Stage::Done(Err(e)),
{
    match done {
        Ok(_) => Stage::Send { to_send },
        Err(e) => Stage::Done(Err(e)),
    }
}

/// The stage after the client was written: the reconciliation ends with the
/// answer of the client.
pub fn sent(done: Result<(), Error>) -> (stage: Stage)
    ensures
        stage == Stage::Done(done),
{
    Stage::Done(done)
}

} // verus!
