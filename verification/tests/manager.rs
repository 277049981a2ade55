use conference_core::error::Error;
use conference_core::models::QuestionView;
use conference_core::network::Client;
use conference_core::store::{InMemoryStore, Store};
use conference_core::{
    millis_since_epoch, IDProvider, QAManager, Question, SystemTimeProvider, TimeProvider,
};
use std::cell::RefCell;
use std::sync::{Arc, Mutex};
use vstd::multiset::Multiset;

pub struct TestTimeProvider {
    vals: Vec<u128>,
    idx: RefCell<usize>,
}

impl TimeProvider for TestTimeProvider {
    fn now(&self) -> u128 {
        let mut idx = self.idx.borrow_mut();
        let val = self.vals[*idx];
        *idx += 1;
        val
    }
}

fn times(vals: Vec<u128>) -> TestTimeProvider {
    TestTimeProvider { vals, idx: RefCell::new(0) }
}

pub struct TestClient {}

impl Client for TestClient {
    fn remote(&self) -> Multiset<QuestionView> {
        unreachable!()
    }

    fn get_remote(&self) -> Result<Vec<Question>, Error> {
        Ok(vec![])
    }

    fn write(&mut self, _values: Vec<Question>) -> Result<(), Error> {
        Ok(())
    }
}

pub struct TestIDProvider {}

impl IDProvider for TestIDProvider {
    fn new_id(&self) -> u64 {
        0
    }
}

/// Ids 1, 2, 3, ... in turn.
struct CountingIds {
    last: RefCell<u64>,
}

impl IDProvider for CountingIds {
    fn new_id(&self) -> u64 {
        let mut last = self.last.borrow_mut();
        *last += 1;
        *last
    }
}

fn question(content: &str, id: u64, time_created: u128) -> Question {
    Question { content: content.to_owned(), id, time_created }
}

fn plain(records: &[Question]) -> Vec<(String, u64, u128)> {
    records.iter().map(|q| (q.content.clone(), q.id, q.time_created)).collect()
}

fn row(content: &str, id: u64, time_created: u128) -> (String, u64, u128) {
    (content.to_owned(), id, time_created)
}

/// A store whose records the test keeps a handle on.
#[derive(Clone)]
struct SharedStore {
    records: Arc<Mutex<Vec<Question>>>,
    fail_reads: bool,
    fail_writes: bool,
}

impl SharedStore {
    fn holding(records: Vec<Question>) -> Self {
        SharedStore { records: Arc::new(Mutex::new(records)), fail_reads: false, fail_writes: false }
    }

    fn rows(&self) -> Vec<(String, u64, u128)> {
        plain(&self.records.lock().unwrap())
    }
}

impl Store for SharedStore {
    fn held(&self) -> Multiset<QuestionView> {
        unreachable!()
    }

    fn store(&mut self, mut comment: Vec<Question>) -> Result<(), Error> {
        if self.fail_writes {
            return Err(Error::StoreError);
        }
        self.records.lock().unwrap().append(&mut comment);
        Ok(())
    }

    fn get(&self) -> Result<Vec<Question>, Error> {
        if self.fail_reads {
            return Err(Error::StoreError);
        }
        Ok(self.records.lock().unwrap().clone())
    }
}

/// A remote side in memory, whose records and received batches the test
/// keeps a handle on.
#[derive(Clone)]
struct SharedClient {
    records: Arc<Mutex<Vec<Question>>>,
    batches: Arc<Mutex<Vec<Vec<(String, u64, u128)>>>>,
    fail_reads: bool,
    fail_writes: bool,
}

impl SharedClient {
    fn holding(records: Vec<Question>) -> Self {
        SharedClient {
            records: Arc::new(Mutex::new(records)),
            batches: Arc::new(Mutex::new(vec![])),
            fail_reads: false,
            fail_writes: false,
        }
    }

    fn rows(&self) -> Vec<(String, u64, u128)> {
        plain(&self.records.lock().unwrap())
    }

    fn batches(&self) -> Vec<Vec<(String, u64, u128)>> {
        self.batches.lock().unwrap().clone()
    }
}

impl Client for SharedClient {
    fn remote(&self) -> Multiset<QuestionView> {
        unreachable!()
    }

    fn get_remote(&self) -> Result<Vec<Question>, Error> {
        if self.fail_reads {
            return Err(Error::StoreError);
        }
        Ok(self.records.lock().unwrap().clone())
    }

    fn write(&mut self, mut values: Vec<Question>) -> Result<(), Error> {
        if self.fail_writes {
            return Err(Error::StoreError);
        }
        self.batches.lock().unwrap().push(plain(&values));
        self.records.lock().unwrap().append(&mut values);
        Ok(())
    }
}

fn ids(rows: &[(String, u64, u128)]) -> Vec<u64> {
    let mut ids: Vec<u64> = rows.iter().map(|r| r.1).collect();
    ids.sort();
    ids
}

#[test]
fn test_foo() {
    let mut conference_manager = QAManager::new_with_tp(
        InMemoryStore::default(),
        TestClient {},
        TestTimeProvider { vals: vec![100, 200, 300], idx: RefCell::new(0) },
        TestIDProvider {},
    );

    assert_eq!(Vec::<String>::new(), conference_manager.get_local().unwrap());

    conference_manager.write("Hello world!").unwrap();
    assert_eq!(vec!["Hello world!"], conference_manager.get_local().unwrap());
    conference_manager.write("Hello world! 2").unwrap();
    conference_manager.write("Hello world! 3").unwrap();
}

#[test]
fn empty_store_reads_empty() {
    let manager =
        QAManager::new_with_tp(InMemoryStore::default(), TestClient {}, times(vec![]), TestIDProvider {});
    assert_eq!(manager.get_local().unwrap(), Vec::<String>::new());
}

#[test]
fn write_stores_one_record_with_given_time_and_id() {
    let store = SharedStore::holding(vec![]);
    let mut manager = QAManager::new_with_tp(
        store.clone(),
        TestClient {},
        times(vec![100, 200]),
        CountingIds { last: RefCell::new(0) },
    );
    manager.write("X").unwrap();
    assert_eq!(store.rows(), vec![row("X", 1, 100)]);
    manager.write("Y").unwrap();
    assert_eq!(store.rows(), vec![row("X", 1, 100), row("Y", 2, 200)]);
}

#[test]
fn write_then_get_local_has_the_text_once_at_its_time() {
    let store = SharedStore::holding(vec![question("a", 1, 100), question("b", 2, 300)]);
    let mut manager = QAManager::new_with_tp(
        store.clone(),
        TestClient {},
        times(vec![200]),
        CountingIds { last: RefCell::new(2) },
    );
    assert_eq!(manager.get_local().unwrap(), vec!["a", "b"]);
    manager.write("X").unwrap();
    let read = manager.get_local().unwrap();
    assert_eq!(read, vec!["a", "X", "b"]);
    assert_eq!(read.iter().filter(|t| t.as_str() == "X").count(), 1);
}

#[test]
fn get_local_orders_by_time_not_by_insertion() {
    let mut manager = QAManager::new_with_tp(
        InMemoryStore::default(),
        TestClient {},
        times(vec![100, 300, 200]),
        TestIDProvider {},
    );
    manager.write("a").unwrap();
    manager.write("b").unwrap();
    manager.write("c").unwrap();
    assert_eq!(manager.get_local().unwrap(), vec!["a", "c", "b"]);
}

#[test]
fn get_local_keeps_insertion_order_among_equal_times() {
    let mut manager = QAManager::new_with_tp(
        InMemoryStore::default(),
        TestClient {},
        times(vec![5, 5, 1, 5]),
        TestIDProvider {},
    );
    manager.write("first").unwrap();
    manager.write("second").unwrap();
    manager.write("early").unwrap();
    manager.write("third").unwrap();
    assert_eq!(manager.get_local().unwrap(), vec!["early", "first", "second", "third"]);
}

#[test]
fn sync_of_disjoint_sets() {
    let store = SharedStore::holding(vec![question("a", 1, 10)]);
    let client = SharedClient::holding(vec![question("b", 2, 20)]);
    let mut manager =
        QAManager::new_with_tp(store.clone(), client.clone(), times(vec![]), TestIDProvider {});
    manager.sync().unwrap();
    assert_eq!(store.rows(), vec![row("a", 1, 10), row("b", 2, 20)]);
    assert_eq!(client.batches(), vec![vec![row("a", 1, 10)]]);
    assert_eq!(ids(&store.rows()), vec![1, 2]);
    assert_eq!(ids(&client.rows()), vec![1, 2]);
}

#[test]
fn sync_converges_on_overlapping_sets() {
    let store = SharedStore::holding(vec![
        question("a", 1, 10),
        question("b", 2, 20),
        question("c", 3, 30),
    ]);
    let client = SharedClient::holding(vec![
        question("d", 4, 40),
        question("b", 2, 20),
        question("e", 5, 50),
    ]);
    let mut manager =
        QAManager::new_with_tp(store.clone(), client.clone(), times(vec![]), TestIDProvider {});
    manager.sync().unwrap();
    assert_eq!(ids(&store.rows()), vec![1, 2, 3, 4, 5]);
    assert_eq!(ids(&client.rows()), vec![1, 2, 3, 4, 5]);
    assert_eq!(
        store.rows(),
        vec![row("a", 1, 10), row("b", 2, 20), row("c", 3, 30), row("d", 4, 40), row("e", 5, 50)]
    );
    assert_eq!(client.batches(), vec![vec![row("a", 1, 10), row("c", 3, 30)]]);
    assert_eq!(manager.get_local().unwrap(), vec!["a", "b", "c", "d", "e"]);
}

#[test]
fn sync_twice_moves_nothing_the_second_time() {
    let store = SharedStore::holding(vec![question("a", 1, 10), question("b", 2, 20)]);
    let client = SharedClient::holding(vec![question("b", 2, 20), question("c", 3, 30)]);
    let mut manager =
        QAManager::new_with_tp(store.clone(), client.clone(), times(vec![]), TestIDProvider {});
    manager.sync().unwrap();
    let local_after_first = store.rows();
    let remote_after_first = client.rows();
    manager.sync().unwrap();
    assert_eq!(store.rows(), local_after_first);
    assert_eq!(client.rows(), remote_after_first);
    assert_eq!(client.batches(), vec![vec![row("a", 1, 10)], vec![]]);
    assert_eq!(ids(&store.rows()), vec![1, 2, 3]);
    assert_eq!(ids(&client.rows()), vec![1, 2, 3]);
}

#[test]
fn sync_leaves_records_of_a_shared_id_as_they_are() {
    let store = SharedStore::holding(vec![question("mine", 7, 10)]);
    let client = SharedClient::holding(vec![question("theirs", 7, 99)]);
    let mut manager =
        QAManager::new_with_tp(store.clone(), client.clone(), times(vec![]), TestIDProvider {});
    manager.sync().unwrap();
    assert_eq!(store.rows(), vec![row("mine", 7, 10)]);
    assert_eq!(client.rows(), vec![row("theirs", 7, 99)]);
    assert_eq!(client.batches(), vec![Vec::<(String, u64, u128)>::new()]);
}

#[test]
fn sync_takes_the_first_of_remote_records_that_share_an_id() {
    let store = SharedStore::holding(vec![]);
    let client = SharedClient::holding(vec![
        question("one", 1, 10),
        question("other", 1, 11),
        question("two", 2, 20),
    ]);
    let mut manager =
        QAManager::new_with_tp(store.clone(), client.clone(), times(vec![]), TestIDProvider {});
    manager.sync().unwrap();
    assert_eq!(store.rows(), vec![row("one", 1, 10), row("two", 2, 20)]);
}

#[test]
fn write_fails_with_store_error_and_stores_nothing() {
    let mut store = SharedStore::holding(vec![question("a", 1, 10)]);
    store.fail_writes = true;
    let mut manager =
        QAManager::new_with_tp(store.clone(), TestClient {}, times(vec![100]), TestIDProvider {});
    assert_eq!(manager.write("X"), Err(Error::StoreError));
    assert_eq!(store.rows(), vec![row("a", 1, 10)]);
}

#[test]
fn get_local_fails_where_the_store_cannot_be_read() {
    let mut store = SharedStore::holding(vec![question("a", 1, 10)]);
    store.fail_reads = true;
    let manager = QAManager::new_with_tp(store, TestClient {}, times(vec![]), TestIDProvider {});
    assert_eq!(manager.get_local(), Err(Error::StoreError));
}

#[test]
fn sync_fails_untouched_where_the_remote_cannot_be_read() {
    let store = SharedStore::holding(vec![question("a", 1, 10)]);
    let mut client = SharedClient::holding(vec![question("b", 2, 20)]);
    client.fail_reads = true;
    let mut manager =
        QAManager::new_with_tp(store.clone(), client.clone(), times(vec![]), TestIDProvider {});
    assert_eq!(manager.sync(), Err(Error::StoreError));
    assert_eq!(store.rows(), vec![row("a", 1, 10)]);
    assert_eq!(client.rows(), vec![row("b", 2, 20)]);
}

#[test]
fn sync_fails_untouched_where_the_store_cannot_be_read() {
    let mut store = SharedStore::holding(vec![question("a", 1, 10)]);
    store.fail_reads = true;
    let client = SharedClient::holding(vec![question("b", 2, 20)]);
    let mut manager =
        QAManager::new_with_tp(store.clone(), client.clone(), times(vec![]), TestIDProvider {});
    assert_eq!(manager.sync(), Err(Error::StoreError));
    assert_eq!(store.rows(), vec![row("a", 1, 10)]);
    assert_eq!(client.batches(), Vec::<Vec<(String, u64, u128)>>::new());
}

#[test]
fn sync_sends_nothing_where_the_store_cannot_be_written() {
    let mut store = SharedStore::holding(vec![question("a", 1, 10)]);
    store.fail_writes = true;
    let client = SharedClient::holding(vec![question("b", 2, 20)]);
    let mut manager =
        QAManager::new_with_tp(store.clone(), client.clone(), times(vec![]), TestIDProvider {});
    assert_eq!(manager.sync(), Err(Error::StoreError));
    assert_eq!(store.rows(), vec![row("a", 1, 10)]);
    assert_eq!(client.batches(), Vec::<Vec<(String, u64, u128)>>::new());
}

#[test]
fn sync_keeps_what_it_applied_where_the_remote_cannot_be_written() {
    let store = SharedStore::holding(vec![question("a", 1, 10)]);
    let mut client = SharedClient::holding(vec![question("b", 2, 20)]);
    client.fail_writes = true;
    let mut manager =
        QAManager::new_with_tp(store.clone(), client.clone(), times(vec![]), TestIDProvider {});
    assert_eq!(manager.sync(), Err(Error::StoreError));
    assert_eq!(store.rows(), vec![row("a", 1, 10), row("b", 2, 20)]);
    assert_eq!(client.rows(), vec![row("b", 2, 20)]);
}

#[test]
fn a_later_sync_sends_what_a_failed_one_could_not() {
    let store = SharedStore::holding(vec![question("a", 1, 10)]);
    let records = Arc::new(Mutex::new(vec![question("b", 2, 20)]));
    let batches = Arc::new(Mutex::new(vec![]));
    let failing = SharedClient {
        records: records.clone(),
        batches: batches.clone(),
        fail_reads: false,
        fail_writes: true,
    };
    let mut manager =
        QAManager::new_with_tp(store.clone(), failing, times(vec![]), TestIDProvider {});
    assert_eq!(manager.sync(), Err(Error::StoreError));

    let working = SharedClient { records, batches, fail_reads: false, fail_writes: false };
    let mut manager =
        QAManager::new_with_tp(store.clone(), working.clone(), times(vec![]), TestIDProvider {});
    manager.sync().unwrap();
    assert_eq!(store.rows(), vec![row("a", 1, 10), row("b", 2, 20)]);
    assert_eq!(working.batches(), vec![vec![row("a", 1, 10)]]);
    assert_eq!(ids(&working.rows()), vec![1, 2]);
}

#[test]
fn new_takes_the_time_from_the_clock() {
    let store = SharedStore::holding(vec![]);
    let mut manager = QAManager::new(store.clone(), TestClient {}, TestIDProvider {});
    manager.write("now").unwrap();
    let rows = store.rows();
    assert_eq!(rows.len(), 1);
    assert_eq!(rows[0].0, "now");
    assert_eq!(rows[0].1, 0);
    // Later than the first of January 2020, in milliseconds.
    assert!(rows[0].2 > 1_577_836_800_000);
    assert_eq!(manager.get_local().unwrap(), vec!["now"]);
}

#[test]
fn a_reading_stands_for_its_whole_milliseconds() {
    assert_eq!(millis_since_epoch(Some((1, 500_000_000))), 1_500);
    assert_eq!(millis_since_epoch(Some((0, 0))), 0);
    assert_eq!(millis_since_epoch(Some((0, 999_999))), 0);
    assert_eq!(millis_since_epoch(Some((0, 1_000_000))), 1);
    assert_eq!(millis_since_epoch(Some((1_700_000_000, 123_456_789))), 1_700_000_000_123);
    assert_eq!(
        millis_since_epoch(Some((u64::MAX, 999_999_999))),
        18_446_744_073_709_551_615_999
    );
}

#[test]
fn a_clock_before_the_epoch_reads_zero() {
    assert_eq!(millis_since_epoch(None), 0);
}

#[test]
fn system_time_provider_reads_milliseconds_since_the_epoch() {
    let clock = SystemTimeProvider {};
    let before = std::time::SystemTime::now()
        .duration_since(std::time::UNIX_EPOCH)
        .unwrap()
        .as_millis();
    let read = clock.now();
    let after = std::time::SystemTime::now()
        .duration_since(std::time::UNIX_EPOCH)
        .unwrap()
        .as_millis();
    assert!(before <= read);
    assert!(read <= after);
}
