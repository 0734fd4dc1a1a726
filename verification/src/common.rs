//! Identifiers, errors and the clock shared by every module.
use vstd::prelude::*;

verus! {

/// Identifies a node of the cluster.
#[derive(Debug, PartialEq, Eq, PartialOrd, Ord, Hash)]
pub struct NodeId(pub String);

/// Identifies a task within a workflow.
#[derive(Debug, PartialEq, Eq, PartialOrd, Ord, Hash)]
pub struct TaskId(pub String);

/// Identifies a workflow.
#[derive(Debug, PartialEq, Eq, PartialOrd, Ord, Hash)]
pub struct WorkflowId(pub String);

/// Identifies an actor.
#[derive(Debug, PartialEq, Eq, PartialOrd, Ord, Hash)]
pub struct ActorId(pub String);

impl View for NodeId {
    type V = Seq<char>;

    open spec fn view(&self) -> Seq<char> {
        self.0@
    }
}

impl View for TaskId {
    type V = Seq<char>;

    open spec fn view(&self) -> Seq<char> {
        self.0@
    }
}

impl View for WorkflowId {
    type V = Seq<char>;

    open spec fn view(&self) -> Seq<char> {
        self.0@
    }
}

impl View for ActorId {
    type V = Seq<char>;

    open spec fn view(&self) -> Seq<char> {
        self.0@
    }
}

impl Clone for NodeId {
    fn clone(&self) -> (r: Self)
        ensures
            r == *self,
    {
        NodeId(self.0.clone())
    }
}

impl Clone for TaskId {
    fn clone(&self) -> (r: Self)
        ensures
            r == *self,
    {
        TaskId(self.0.clone())
    }
}

impl Clone for WorkflowId {
    fn clone(&self) -> (r: Self)
        ensures
            r == *self,
    {
        WorkflowId(self.0.clone())
    }
}

impl Clone for ActorId {
    fn clone(&self) -> (r: Self)
        ensures
            r == *self,
    {
        ActorId(self.0.clone())
    }
}

/// The texts of a sequence of task identifiers.
pub open spec fn task_texts(ids: Seq<TaskId>) -> Seq<Seq<char>> {
    Seq::new(ids.len(), |i: int| ids[i]@)
}

/// Copies a list of task identifiers.
pub fn copy_tasks(ids: &Vec<TaskId>) -> (r: Vec<TaskId>)
    ensures
        r@ == ids@,
{
    let mut r: Vec<TaskId> = Vec::new();
    let mut i: usize = 0;
    while i < ids.len()
        invariant
            i <= ids@.len(),
            r@ == ids@.take(i as int),
        decreases ids@.len() - i,
    {
        r.push(ids[i].clone());
        i += 1;
        assert(r@ =~= ids@.take(i as int));
    }
    assert(r@ =~= ids@);
    r
}

/// A list from its end to its start, to be taken apart from its start.
pub fn reversed<T>(list: Vec<T>) -> (r: Vec<T>)
    ensures
        r@ == list@.reverse(),
{
    let mut rest = list;
    let mut r: Vec<T> = Vec::new();
    assert(list@.reverse() =~= r@ + rest@.reverse());
    while rest.len() > 0
        invariant
            list@.reverse() == r@ + rest@.reverse(),
        decreases rest@.len(),
    {
        let ghost before = (r@, rest@);
        if let Some(x) = rest.pop() {
            r.push(x);
            assert(r@ + rest@.reverse() =~= before.0 + before.1.reverse());
        }
    }
    assert(r@ =~= list@.reverse());
    r
}

/// Taking the next member off a reversed list.
pub proof fn lemma_next<T>(all: Seq<T>, done: int, queue: Seq<T>)
    requires
        0 <= done <= all.len(),
        queue.reverse() == all.skip(done),
        queue.len() > 0,
    ensures
        done < all.len(),
        queue.last() == all[done],
        queue.drop_last().reverse() == all.skip(done + 1),
        all.take(done + 1).drop_last() == all.take(done),
        all.take(done + 1).last() == all[done],
{
    assert(all.skip(done).len() == queue.len());
    assert(all.skip(done)[0] == all[done]);
    assert(queue.reverse()[0] == queue.last());
    assert(queue.drop_last().reverse() =~= queue.reverse().skip(1));
    assert(queue.reverse().skip(1) =~= all.skip(done + 1));
    assert(all.take(done + 1).drop_last() =~= all.take(done));
}

/// Copies a byte string.
pub fn copy_bytes(bytes: &Vec<u8>) -> (r: Vec<u8>)
    ensures
        r@ == bytes@,
{
    let r = bytes.clone();
    assert(r@ =~= bytes@);
    r
}

/// Whether two byte strings are the same.
pub fn same_bytes(a: &Vec<u8>, b: &Vec<u8>) -> (r: bool)
    ensures
        r == (a@ == b@),
{
    if a.len() != b.len() {
        return false;
    }
    let mut i: usize = 0;
    while i < a.len()
        invariant
            i <= a@.len(),
            a@.len() == b@.len(),
            a@.take(i as int) == b@.take(i as int),
        decreases a@.len() - i,
    {
        if a[i] != b[i] {
            return false;
        }
        i += 1;
        assert(a@.take(i as int) =~= b@.take(i as int));
    }
    assert(a@.take(i as int) =~= a@);
    assert(b@.take(i as int) =~= b@);
    true
}

/// What can go wrong in the runtime. Each kind carries a message.
#[derive(Debug, PartialEq, Eq)]
pub enum ActantError {
    Config(String),
    NotFound(String),
    InvalidState(String),
    AlreadyExists(String),
    Replay(String),
    Workflow(String),
    Internal(String),
    Storage(String),
    Serialization(String),
    Network(String),
    Actor(String),
}

/// Milliseconds since the Unix epoch, from `std::time::SystemTime::now`. The reading
/// depends on the machine's clock, so nothing is claimed of it.
#[verifier::external_body]
pub(crate) fn epoch_millis() -> (now: u64) {
    std::time::SystemTime::now().duration_since(std::time::UNIX_EPOCH).map_or(
        0,
        |d| d.as_millis() as u64,
    )
}

/// The greatest number of bytes of text and data that is archived as one value: within an
/// archive, distances have 32 bits with a sign.
pub const ARCHIVE_LIMIT: u64 = 2_147_483_392;

/// Whether parts of these lengths can be archived as one value.
pub fn fits_archive(a: usize, b: usize, c: usize) -> (r: bool)
    ensures
        r == (a + b + c <= ARCHIVE_LIMIT),
{
    let (a, b, c): (u64, u64, u64) = (a as u64, b as u64, c as u64);
    a <= ARCHIVE_LIMIT && b <= ARCHIVE_LIMIT - a && c <= ARCHIVE_LIMIT - a - b
}

/// Retry settings of a task. The backoff multiplier is a floating-point number kept as
/// its IEEE 754 bits: it is carried, never computed with.
#[derive(Debug, Clone, Copy, PartialEq, Eq)]
pub struct RetryPolicy {
    pub max_retries: u32,
    pub delay_ms: u64,
    pub backoff_multiplier_bits: u64,
    pub max_delay_ms: u64,
}

/// The bits of a 64-bit IEEE 754 number without its sign.
pub open spec fn magnitude(bits: u64) -> u64 {
    bits % 0x8000_0000_0000_0000
}

/// Whether two 64-bit IEEE 754 numbers, given by their bits, compare equal: the two zeros
/// do, and what is not a number equals nothing.
pub open spec fn ieee_equal(a: u64, b: u64) -> bool {
    &&& magnitude(a) <= 0x7ff0_0000_0000_0000
    &&& magnitude(b) <= 0x7ff0_0000_0000_0000
    &&& (a == b || (magnitude(a) == 0 && magnitude(b) == 0))
}

/// Whether two retry policies are the same.
pub open spec fn same_policies(a: Option<RetryPolicy>, b: Option<RetryPolicy>) -> bool {
    match (a, b) {
        (Some(p), Some(q)) => p.max_retries == q.max_retries && p.delay_ms == q.delay_ms
            && ieee_equal(p.backoff_multiplier_bits, q.backoff_multiplier_bits) && p.max_delay_ms
            == q.max_delay_ms,
        (None, None) => true,
        _ => false,
    }
}

/// Whether two retry policies are the same.
pub fn same_policy(a: &Option<RetryPolicy>, b: &Option<RetryPolicy>) -> (r: bool)
    ensures
        r == same_policies(*a, *b),
{
    match (a, b) {
        (Some(p), Some(q)) => {
            let x: u64 = p.backoff_multiplier_bits % 0x8000_0000_0000_0000;
            let y: u64 = q.backoff_multiplier_bits % 0x8000_0000_0000_0000;
            p.max_retries == q.max_retries && p.delay_ms == q.delay_ms && x
                <= 0x7ff0_0000_0000_0000 && y <= 0x7ff0_0000_0000_0000 && (
            p.backoff_multiplier_bits == q.backoff_multiplier_bits || (x == 0 && y == 0))
                && p.max_delay_ms == q.max_delay_ms
        },
        (None, None) => true,
        _ => false,
    }
}

/// Whether two optional numbers are the same.
pub fn same_number(a: Option<u64>, b: Option<u64>) -> (r: bool)
    ensures
        r == (a == b),
{
    match (a, b) {
        (Some(x), Some(y)) => x == y,
        (None, None) => true,
        _ => false,
    }
}

} // verus!
