use crate::models::Question;
use crate::IDProvider;
use vstd::prelude::*;
use vstd::std_specs::convert::FromSpecImpl;

verus! {

/// A record as a host sees it whose times have 64 bits.
#[derive(Debug)]
pub struct QuestionRecord {
    pub content: String,
    pub id: u64,
    pub time_created: u64,
}

/// The low 64 bits of a time: what is left of it in a [`QuestionRecord`].
pub open spec fn low_64(time: u128) -> u64 {
    (time % 0x1_0000_0000_0000_0000) as u64
}

/// The record as the host sees it: the same text and id; of the time, the
/// low 64 bits.
pub open spec fn to_record(value: Question) -> QuestionRecord {
    QuestionRecord {
        content: value.content,
        id: value.id,
        time_created: low_64(value.time_created),
    }
}

/// The host's record as a record: the same text, id and time.
pub open spec fn to_question(record: QuestionRecord) -> Question {
    Question { content: record.content, id: record.id, time_created: record.time_created as u128 }
}

impl From<Question> for QuestionRecord {
    /// The same text and id; of the time, the low 64 bits.
    fn from(value: Question) -> (record: Self)
        ensures
            record == to_record(value),
    {
        let time: u128 = value.time_created;
        assert(time as u64 == (time % 0x1_0000_0000_0000_0000) as u64) by (bit_vector);
        QuestionRecord {
            content: value.content,
            id: value.id,
            time_created: #[verifier::truncate] (time as u64),
        }
    }
}

impl FromSpecImpl<Question> for QuestionRecord {
    open spec fn obeys_from_spec() -> bool {
        true
    }

    open spec fn from_spec(value: Question) -> Self {
        to_record(value)
    }
}

impl From<QuestionRecord> for Question {
    /// The same text, id and time.
    fn from(record: QuestionRecord) -> (value: Self)
        ensures
            value == to_question(record),
    {
        Question { content: record.content, id: record.id, time_created: record.time_created as u128 }
    }
}

impl FromSpecImpl<QuestionRecord> for Question {
    open spec fn obeys_from_spec() -> bool {
        true
    }

    open spec fn from_spec(record: QuestionRecord) -> Self {
        to_question(record)
    }
}

/// The given host records as records, in the same order.
pub fn questions_of(records: Vec<QuestionRecord>) -> (out: Vec<Question>)
    ensures
        out@ == records@.map_values(|r: QuestionRecord| to_question(r)),
{
    let ghost all = records@;
    let ghost f = |r: QuestionRecord| to_question(r);
    let mut out: Vec<Question> = Vec::new();
    for record in it: records
        invariant
            it.seq() == all,
            f == |r: QuestionRecord| to_question(r),
            out@ == all.take(it.index()).map_values(f),
    {
        assert(all.take(it.index() + 1).map_values(f) =~= all.take(it.index()).map_values(f).push(
            f(record),
        ));
        out.push(Question::from(record));
    }
    assert(all.take(all.len() as int) =~= all);
    out
}

/// The given records as host records, in the same order.
pub fn records_of(values: Vec<Question>) -> (out: Vec<QuestionRecord>)
    ensures
        out@ == values@.map_values(|q: Question| to_record(q)),
{
    let ghost all = values@;
    let ghost f = |q: Question| to_record(q);
    let mut out: Vec<QuestionRecord> = Vec::new();
    for value in it: values
        invariant
            it.seq() == all,
            f == |q: Question| to_record(q),
            out@ == all.take(it.index()).map_values(f),
    {
        assert(all.take(it.index() + 1).map_values(f) =~= all.take(it.index()).map_values(f).push(
            f(value),
        ));
        out.push(QuestionRecord::from(value));
    }
    assert(all.take(all.len() as int) =~= all);
    out
}

/// `rand::random::<u32>`: a number drawn from the generator of the calling
/// thread. Nothing is claimed of the number. Where the operating system
/// gives the generator no seed, the call panics: a failure of the machine,
/// which no argument brings about.
#[verifier::external_body]
fn random_u32() -> u32 {
    rand::random::<u32>()
}

/// A source of ids that draws them at random.
pub struct RandIdProvider {}

impl IDProvider for RandIdProvider {
    /// A number drawn at random among those of 32 bits.
    fn new_id(&self) -> (id: u64)
        ensures
            id <= u32::MAX,
    {
        random_u32() as u64
    }
}

} // verus!
