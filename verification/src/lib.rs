//! Reconciliation of a local store of records with a remote one.
//!
//! A [`QAManager`] reads the local records in the order of their times,
//! writes new ones, and reconciles the two sides: each side comes to hold a
//! record for every id that the other side knew. Records are told apart by
//! their id alone; nothing is merged, changed or deleted.
//!
//! The manager works through four capabilities: a [`store::Store`] of the
//! local records, a [`network::Client`] to the remote side, a
//! [`TimeProvider`] and an [`IDProvider`]. The decisions that it takes are
//! functions of their own: [`reconcile::unmatched_records`] finds what one
//! side lacks, [`timeline::contents_by_time`] orders what is read, and
//! [`steps`] says what a reconciliation does next, for hosts whose stores and
//! clients have to be awaited.

use vstd::multiset::Multiset;
use vstd::prelude::*;

pub mod error;
pub mod host;
pub mod models;
pub mod network;
pub mod reconcile;
pub mod steps;
pub mod store;
pub mod timeline;
pub mod wire;

pub use models::Question;

use error::Error;
use models::{
    id_set, ids_held, lemma_id_set_push, lemma_ids_held_add, lemma_ids_held_of_seq, record_of,
    views, QuestionView,
};
use network::{fetches, Client};
use reconcile::{
    lemma_exchange_settled, lemma_unmatched_ids, to_apply, to_send, unmatched_records,
};
use std::time::{Duration, SystemTime, SystemTimeError, UNIX_EPOCH};
use store::{all_new, gets, Store};
use timeline::{
    by_time, contents, contents_by_time, in_time_order, lemma_by_time_ordered,
    lemma_by_time_permutes, texts,
};

verus! {

/// What gives new records their time, in milliseconds since the Unix epoch.
/// Nothing is asked of the times: they need not even rise.
pub trait TimeProvider {
    fn now(&self) -> u128;
}

/// What gives new records their id. Nothing is asked of the ids: whoever
/// wants them unique provides for it here.
pub trait IDProvider {
    fn new_id(&self) -> u64;
}

/// A call of `now` on `clock` can give `time`.
pub open spec fn gives_time<TB: TimeProvider>(clock: TB, time: u128) -> bool {
    call_ensures(TB::now, (&clock,), time)
}

/// A call of `new_id` on `ids` can give `id`.
pub open spec fn gives_id<ID: IDProvider>(ids: ID, id: u64) -> bool {
    call_ensures(ID::new_id, (&ids,), id)
}

#[verifier::external_type_specification]
#[verifier::external_body]
pub struct ExSystemTime(SystemTime);

#[verifier::external_type_specification]
#[verifier::external_body]
pub struct ExSystemTimeError(SystemTimeError);

/// `SystemTime::now`: what the machine's clock reads. Nothing is claimed of
/// the reading.
#[verifier::external_body]
fn clock_reading() -> SystemTime {
    SystemTime::now()
}

/// `SystemTime::duration_since`, taken from the Unix epoch: the span from the
/// epoch to `at`, or an error where `at` lies before the epoch. Nothing is
/// claimed of which it is.
#[verifier::external_body]
fn since_epoch(at: &SystemTime) -> Result<Duration, SystemTimeError> {
    at.duration_since(UNIX_EPOCH)
}

/// `Duration::as_secs`: the whole seconds in `span`. Nothing is claimed of
/// their number.
#[verifier::external_body]
fn whole_secs(span: &Duration) -> u64 {
    span.as_secs()
}

/// `Duration::subsec_nanos`: what `span` holds beyond its whole seconds, in
/// nanoseconds. The claim is that this is less than one second.
#[verifier::external_body]
fn nanos_beyond(span: &Duration) -> (nanos: u32)
    ensures
        nanos < 1_000_000_000,
{
    span.subsec_nanos()
}

/// The whole milliseconds in `secs` seconds and `nanos` nanoseconds.
pub open spec fn millis_of(secs: u64, nanos: u32) -> u128 {
    (secs as u128 * 1000 + nanos as u128 / 1_000_000) as u128
}

/// A reading of a clock, as the time from the Unix epoch to it in whole
/// seconds and the nanoseconds beyond them, which are less than a second;
/// `None` where the clock is set before the epoch.
pub open spec fn is_reading(reading: Option<(u64, u32)>) -> bool {
    reading matches Some((_, nanos)) ==> nanos < 1_000_000_000
}

/// The time that a reading stands for: its whole milliseconds since the Unix
/// epoch, and 0 for a clock that is set before the epoch.
pub open spec fn time_of(reading: Option<(u64, u32)>) -> u128 {
    match reading {
        Some((secs, nanos)) => millis_of(secs, nanos),
        None => 0,
    }
}

/// The time that the given reading of a clock stands for.
pub fn millis_since_epoch(reading: Option<(u64, u32)>) -> (time: u128)
    ensures
        time == time_of(reading),
{
    match reading {
        Some((secs, nanos)) => {
            let whole: u128 = secs as u128;
            let beyond: u128 = (nanos / 1_000_000) as u128;
            whole * 1000 + beyond
        },
        None => 0,
    }
}

/// The time rises with the reading: of two readings, the one that is not
/// earlier gives a time that is not smaller.
pub proof fn lemma_time_rises(secs: u64, nanos: u32, later_secs: u64, later_nanos: u32)
    requires
        nanos < 1_000_000_000,
        later_nanos < 1_000_000_000,
        secs < later_secs || (secs == later_secs && nanos <= later_nanos),
    ensures
        millis_of(secs, nanos) <= millis_of(later_secs, later_nanos),
        time_of(None) <= millis_of(secs, nanos),
{
}

/// The machine's clock as a [`TimeProvider`].
pub struct SystemTimeProvider {}

impl TimeProvider for SystemTimeProvider {
    /// The whole milliseconds from the Unix epoch to what the machine's clock
    /// reads; 0 where the clock is set before the epoch.
    fn now(&self) -> (time: u128)
        ensures
            exists|reading: Option<(u64, u32)>|
                is_reading(reading) && time == #[trigger] time_of(reading),
            time <= millis_of(u64::MAX, 999_999_999),
    {
        let at = clock_reading();
        let reading = match since_epoch(&at) {
            Ok(span) => Some((whole_secs(&span), nanos_beyond(&span))),
            Err(_) => None,
        };
        millis_since_epoch(reading)
    }
}

/// Reads, writes and reconciles the local records of a store with those of a
/// remote side.
pub struct QAManager<T, S, TB, ID> {
    network_client: T,
    store: S,
    time_provider: TB,
    id_provider: ID,
}

impl<T, S, TB, ID> QAManager<T, S, TB, ID> {
    /// The store that the manager works on.
    pub closed spec fn store(&self) -> S {
        self.store
    }

    /// The client through which the manager reaches the remote side.
    pub closed spec fn client(&self) -> T {
        self.network_client
    }

    /// The clock from which new records get their time.
    pub closed spec fn time_provider(&self) -> TB {
        self.time_provider
    }

    /// The source from which new records get their id.
    pub closed spec fn id_provider(&self) -> ID {
        self.id_provider
    }

    /// A manager over the given store, client, clock and source of ids.
    pub fn new_with_tp(store: S, client: T, time_provider: TB, id_provider: ID) -> (manager: Self)
        ensures
            manager.store() == store,
            manager.client() == client,
            manager.time_provider() == time_provider,
            manager.id_provider() == id_provider,
    {
        Self { store, network_client: client, time_provider, id_provider }
    }
}

impl<T, S, ID> QAManager<T, S, SystemTimeProvider, ID> {
    /// A manager over the given store, client and source of ids, which takes
    /// the time from the machine's clock.
    pub fn new(store: S, client: T, id_provider: ID) -> (manager: Self)
        ensures
            manager.store() == store,
            manager.client() == client,
            manager.id_provider() == id_provider,
    {
        Self { store, network_client: client, time_provider: SystemTimeProvider {  }, id_provider }
    }
}

/// `found` is what reading makes of the store's answer `got`: of records,
/// their texts in the order of their times; of an error, the same error.
pub open spec fn reads(got: Result<Vec<Question>, Error>, found: Result<Vec<String>, Error>) -> bool {
    match got {
        Ok(records) => found matches Ok(out) && texts(out@) == contents(by_time(views(records@))),
        Err(e) => found == Err::<Vec<String>, Error>(e),
    }
}

/// `after` is what a local side that held `before` holds once it has taken in
/// the new record `q`: it knows the id of `q`, and where that id was new to
/// it, it holds `q` beside what it held.
pub open spec fn takes_in(
    before: Multiset<QuestionView>,
    q: QuestionView,
    after: Multiset<QuestionView>,
) -> bool {
    &&& ids_held(after) == ids_held(before).insert(q.id)
    &&& !ids_held(before).contains(q.id) ==> after == before.insert(q)
}

/// `local_after` is what a local side that held `local` holds once it has
/// taken over what it lacked of a remote side that held `remote`. `l` and `r`
/// are the two sides as they were read, each in some order.
pub open spec fn applies(
    l: Seq<QuestionView>,
    r: Seq<QuestionView>,
    local: Multiset<QuestionView>,
    remote: Multiset<QuestionView>,
    local_after: Multiset<QuestionView>,
) -> bool {
    &&& l.to_multiset() == local
    &&& r.to_multiset() == remote
    &&& local_after == local.add(to_apply(l, r).to_multiset())
}

/// `local_after` and `remote_ids_after` are what one reconciliation leaves of
/// a local side that held `local` and a remote side that held `remote`: the
/// local side has taken over what it lacked, and the remote side has come to
/// know the ids that it lacked. `l` and `r` are the two sides as they were
/// read, each in some order.
pub open spec fn reconciles(
    l: Seq<QuestionView>,
    r: Seq<QuestionView>,
    local: Multiset<QuestionView>,
    remote: Multiset<QuestionView>,
    local_after: Multiset<QuestionView>,
    remote_ids_after: Set<u64>,
) -> bool {
    &&& applies(l, r, local, remote, local_after)
    &&& remote_ids_after == ids_held(remote).union(id_set(to_send(l, r)))
}

/// Convergence: after a reconciliation both sides know the ids that either
/// knew before.
pub proof fn lemma_reconciles_converges(
    l: Seq<QuestionView>,
    r: Seq<QuestionView>,
    local: Multiset<QuestionView>,
    remote: Multiset<QuestionView>,
    local_after: Multiset<QuestionView>,
    remote_ids_after: Set<u64>,
)
    requires
        reconciles(l, r, local, remote, local_after, remote_ids_after),
    ensures
        ids_held(local_after) == ids_held(local).union(ids_held(remote)),
        remote_ids_after == ids_held(local).union(ids_held(remote)),
{
    lemma_ids_held_of_seq(l);
    lemma_ids_held_of_seq(r);
    lemma_unmatched_ids(r, id_set(l));
    lemma_unmatched_ids(l, id_set(r));
    lemma_ids_held_of_seq(to_apply(l, r));
    lemma_ids_held_add(local, to_apply(l, r).to_multiset());
    assert(ids_held(local_after) =~= ids_held(local).union(ids_held(remote)));
    assert(remote_ids_after =~= ids_held(local).union(ids_held(remote)));
}

/// Idempotence: a second reconciliation right after a first finds nothing to
/// move, and leaves the local records and the ids of the remote side as
/// they were.
pub proof fn lemma_reconciles_twice(
    l: Seq<QuestionView>,
    r: Seq<QuestionView>,
    local: Multiset<QuestionView>,
    remote: Multiset<QuestionView>,
    local_between: Multiset<QuestionView>,
    remote_between: Multiset<QuestionView>,
    l_between: Seq<QuestionView>,
    r_between: Seq<QuestionView>,
    local_after: Multiset<QuestionView>,
    remote_ids_after: Set<u64>,
)
    requires
        reconciles(l, r, local, remote, local_between, ids_held(remote_between)),
        reconciles(
            l_between,
            r_between,
            local_between,
            remote_between,
            local_after,
            remote_ids_after,
        ),
    ensures
        to_apply(l_between, r_between) == Seq::<QuestionView>::empty(),
        to_send(l_between, r_between) == Seq::<QuestionView>::empty(),
        local_after == local_between,
        remote_ids_after == ids_held(remote_between),
{
    broadcast use vstd::seq_lib::group_to_multiset_ensures;

    lemma_reconciles_converges(l, r, local, remote, local_between, ids_held(remote_between));
    lemma_ids_held_of_seq(l_between);
    lemma_ids_held_of_seq(r_between);
    lemma_exchange_settled(l_between, r_between);
    assert(Seq::<QuestionView>::empty().to_multiset() =~= Multiset::<QuestionView>::empty());
    assert(local_after =~= local_between);
    assert(id_set(Seq::<QuestionView>::empty()) =~= Set::<u64>::empty());
    assert(remote_ids_after =~= ids_held(remote_between));
}

/// Writing, then reading: whatever the order in which a store gives its
/// records after it took in `q`, the records in time order hold `q` once more
/// than the store held it before, at a place that agrees with its time, and
/// so the texts read hold the text of `q`.
pub proof fn lemma_written_is_read(local: Multiset<QuestionView>, q: QuestionView, l: Seq<QuestionView>)
    requires
        l.to_multiset() == local.insert(q),
    ensures
        by_time(l).to_multiset().count(q) == local.count(q) + 1,
        in_time_order(by_time(l)),
        contents(by_time(l)).contains(q.content),
{
    broadcast use vstd::seq_lib::group_to_multiset_ensures;

    lemma_by_time_permutes(l);
    lemma_by_time_ordered(l);
    let read = by_time(l);
    assert(read.to_multiset().count(q) > 0);
    assert(read.contains(q));
    let i = choose|i: int| 0 <= i < read.len() && read[i] == q;
    assert(contents(read)[i] == q.content);
}

impl<T, S, TB, ID> QAManager<T, S, TB, ID> where
    S: Store,
    T: Client,
    TB: TimeProvider,
    ID: IDProvider,
{
    /// The local records, as the store holds them.
    pub open spec fn local(&self) -> Multiset<QuestionView> {
        self.store().held()
    }

    /// The remote records, as the client knows them.
    pub open spec fn remote(&self) -> Multiset<QuestionView> {
        self.client().remote()
    }

    /// The ids of the local records.
    pub open spec fn local_ids(&self) -> Set<u64> {
        ids_held(self.local())
    }

    /// The ids of the remote records.
    pub open spec fn remote_ids(&self) -> Set<u64> {
        ids_held(self.remote())
    }

    /// The texts of the local records, those of the earliest record first.
    /// Texts of records of the same time come in the order in which the
    /// store gave the records.
    ///
    /// The store is read once. Where it answers with an error, the error is
    /// handed on; otherwise the call succeeds.
    pub fn get_local(&self) -> (found: Result<Vec<String>, Error>)
        ensures
            exists|got: Result<Vec<Question>, Error>| #[trigger]
                gets(self.store(), got) && reads(got, found),
            found matches Ok(out) ==> exists|l: Seq<QuestionView>| #[trigger]
                l.to_multiset() == self.local() && texts(out@) == contents(by_time(l)),
    {
        let got = self.store.get();
        assert(gets(self.store(), got));
        match got {
            Ok(records) => {
                let ghost l = views(records@);
                let out = contents_by_time(records);
                assert(l.to_multiset() == self.local() && texts(out@) == contents(by_time(l)));
                Ok(out)
            },
            Err(e) => Err(e),
        }
    }

    /// Stores one new local record with the given text, the time that the
    /// clock gives and the id that the source of ids gives.
    ///
    /// The clock and the source of ids are asked once each, and the store is
    /// called once, with that one record. The answer of the store is the
    /// answer of the call: it fails, with nothing stored, where the store
    /// cannot be written.
    pub fn write(&mut self, comment: &str) -> (done: Result<(), Error>)
        ensures
            (exists|time_created: u128, id: u64, one: Vec<Question>, m: &mut S|
                {
                    &&& #[trigger] gives_time(old(self).time_provider(), time_created)
                    &&& #[trigger] gives_id(old(self).id_provider(), id)
                    &&& views(one@) == seq![record_of(comment@, id, time_created)]
                    &&& *m == old(self).store()
                    &&& #[trigger] call_ensures(S::store, (m, one), done)
                    &&& *final(m) == final(self).store()
                }),
            done is Ok ==> exists|id: u64, time_created: u128|
                takes_in(
                    old(self).local(),
                    #[trigger] record_of(comment@, id, time_created),
                    final(self).local(),
                ),
            done is Err ==> final(self).local() == old(self).local(),
            final(self).client() == old(self).client(),
            final(self).time_provider() == old(self).time_provider(),
            final(self).id_provider() == old(self).id_provider(),
    {
        let time_created = self.time_provider.now();
        let id = self.id_provider.new_id();
        let mut one: Vec<Question> = Vec::new();
        one.push(Question { content: comment.to_owned(), id, time_created });
        proof {
            let q = record_of(comment@, id, time_created);
            assert(gives_time(old(self).time_provider(), time_created));
            assert(gives_id(old(self).id_provider(), id));
            assert(views(one@) =~= seq![q]);
            assert(views(one@) =~= Seq::<QuestionView>::empty().push(q));
            vstd::seq_lib::to_multiset_build(Seq::<QuestionView>::empty(), q);
            assert(Seq::<QuestionView>::empty().to_multiset() =~= Multiset::<
                QuestionView,
            >::empty()) by {
                broadcast use vstd::seq_lib::group_to_multiset_ensures;

            }
            assert(old(self).local().add(views(one@).to_multiset()) =~= old(self).local().insert(
                q,
            ));
            assert(id_set(views(one@)) =~= Set::<u64>::empty().insert(id)) by {
                lemma_id_set_push(Seq::<QuestionView>::empty(), q);
                assert(id_set(Seq::<QuestionView>::empty()) =~= Set::<u64>::empty());
            }
            assert(old(self).local_ids().union(Set::<u64>::empty().insert(id)) =~= old(
                self,
            ).local_ids().insert(id));
            assert(!old(self).local_ids().contains(id) ==> all_new(views(one@), old(self).local()));
        }
        let done = self.store.store(one);
        assert(done is Ok ==> takes_in(
            old(self).local(),
            record_of(comment@, id, time_created),
            self.local(),
        ));
        done
    }

    /// Reconciles the two sides: reads the remote records and the local
    /// ones, stores locally the remote records whose id no local record
    /// carries, and hands to the remote side the local records whose id no
    /// remote record carries; of records that share an id, the first that
    /// was read. Records whose id both sides know are left as they are on
    /// either side, whatever they hold.
    ///
    /// The calls come in this order, each once: the client is read, the
    /// store is read, the store is given what the local side lacks, the
    /// client is given what the remote side lacks. The first call that answers
    /// with an error ends the reconciliation, and its error is the answer;
    /// what came before it is not undone, so where the remote side cannot be
    /// written, the local side has taken over its records already, while the
    /// remote side is as it was. Where no call fails, the reconciliation
    /// succeeds.
    pub fn sync(&mut self) -> (done: Result<(), Error>)
        ensures
            (exists|got_remote: Result<Vec<Question>, Error>| #[trigger]
                fetches(old(self).client(), got_remote) && match got_remote {
                    Err(e) => {
                        &&& done == Err::<(), Error>(e)
                        &&& final(self).store() == old(self).store()
                        &&& final(self).client() == old(self).client()
                    },
                    Ok(remote) => exists|got_local: Result<Vec<Question>, Error>| #[trigger]
                        gets(old(self).store(), got_local) && match got_local {
                            Err(e) => {
                                &&& done == Err::<(), Error>(e)
                                &&& final(self).store() == old(self).store()
                                &&& final(self).client() == old(self).client()
                            },
                            Ok(local) => exists|
                                given: Vec<Question>,
                                stored: Result<(), Error>,
                                m: &mut S,
                            |
                                {
                                    &&& views(given@) == to_apply(views(local@), views(remote@))
                                    &&& *m == old(self).store()
                                    &&& #[trigger] call_ensures(S::store, (m, given), stored)
                                    &&& *final(m) == final(self).store()
                                    &&& match stored {
                                        Err(e) => {
                                            &&& done == Err::<(), Error>(e)
                                            &&& final(self).client() == old(self).client()
                                        },
                                        Ok(_) => exists|sent: Vec<Question>, c: &mut T|
                                            {
                                                &&& views(sent@) == to_send(
                                                    views(local@),
                                                    views(remote@),
                                                )
                                                &&& *c == old(self).client()
                                                &&& #[trigger] call_ensures(
                                                    T::write,
                                                    (c, sent),
                                                    done,
                                                )
                                                &&& *final(c) == final(self).client()
                                            },
                                    }
                                },
                        },
                }),
            done is Ok ==> exists|l: Seq<QuestionView>, r: Seq<QuestionView>| #[trigger]
                reconciles(
                    l,
                    r,
                    old(self).local(),
                    old(self).remote(),
                    final(self).local(),
                    final(self).remote_ids(),
                ),
            done is Ok ==> final(self).local_ids() == old(self).local_ids().union(
                old(self).remote_ids(),
            ),
            done is Ok ==> final(self).remote_ids() == old(self).local_ids().union(
                old(self).remote_ids(),
            ),
            done is Err ==> (final(self).local() == old(self).local() && final(self).client()
                == old(self).client()) || exists|l: Seq<QuestionView>, r: Seq<QuestionView>| #[trigger]
                applies(l, r, old(self).local(), old(self).remote(), final(self).local()),
            done is Err ==> final(self).remote() == old(self).remote(),
            final(self).time_provider() == old(self).time_provider(),
            final(self).id_provider() == old(self).id_provider(),
    {
        let got_remote = self.network_client.get_remote();
        assert(fetches(old(self).client(), got_remote));
        let remote = match got_remote {
            Ok(records) => records,
            Err(e) => { return Err(e); },
        };
        let got_local = self.store.get();
        assert(gets(old(self).store(), got_local));
        let local = match got_local {
            Ok(records) => records,
            Err(e) => { return Err(e); },
        };
        let ghost l = views(local@);
        let ghost r = views(remote@);
        let to_apply = unmatched_records(&remote, &local);
        let to_send = unmatched_records(&local, &remote);
        proof {
            lemma_ids_held_of_seq(l);
            assert(all_new(views(to_apply@), self.local()));
        }
        match self.store.store(to_apply) {
            Ok(()) => {},
            Err(e) => { return Err(e); },
        }
        assert(applies(l, r, old(self).local(), old(self).remote(), self.local()));
        let done = self.network_client.write(to_send);
        proof {
            if done is Ok {
                assert(reconciles(
                    l,
                    r,
                    old(self).local(),
                    old(self).remote(),
                    self.local(),
                    self.remote_ids(),
                ));
                lemma_reconciles_converges(
                    l,
                    r,
                    old(self).local(),
                    old(self).remote(),
                    self.local(),
                    self.remote_ids(),
                );
            }
        }
        done
    }
}

} // verus!
