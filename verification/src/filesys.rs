//! A file system whose operations are answered by the host.
//!
//! Every operation takes a fresh request id from the file system's counter,
//! uploads its parameters into numbered slots, calls the host and then polls
//! the host for the reply. While the host has no reply yet the caller yields
//! and asks again with the same id. A reply is either the value or an error
//! message, which is reported with an error kind that depends on the operation.

use vstd::prelude::*;

verus! {

/// The operations that the host answers.
#[derive(Clone, Copy, Debug, PartialEq, Eq, Structural)]
pub enum FsOp {
    ReadFile,
    WriteFile,
    CreateDir,
    EntriesInDir,
    FilesInDirRecursive,
}

/// The kind with which a failed operation is reported.
#[derive(Clone, Copy, Debug, PartialEq, Eq, Structural)]
pub enum FsErrorKind {
    /// The entry could not be found (reading a file).
    NotFound,
    /// The host refused the operation (writing a file, creating a directory).
    Unsupported,
    /// Any other failure; it carries only the host's message.
    Other,
}

/// A failed operation: its kind and the host's message.
#[derive(Debug, PartialEq, Eq)]
pub struct FsError {
    pub kind: FsErrorKind,
    pub message: String,
}

/// What one parameter slot receives before the host is called.
#[derive(Clone, Copy, Debug, PartialEq, Eq, Structural)]
pub enum ParamSlot {
    /// The path that the operation is about.
    Path,
    /// The bytes to write.
    Data,
    /// The id of the request.
    RequestId,
}

/// The error kind with which `op` reports a failure.
pub open spec fn error_kind_of(op: FsOp) -> FsErrorKind {
    match op {
        FsOp::ReadFile => FsErrorKind::NotFound,
        FsOp::WriteFile => FsErrorKind::Unsupported,
        FsOp::CreateDir => FsErrorKind::Unsupported,
        FsOp::EntriesInDir => FsErrorKind::Other,
        FsOp::FilesInDirRecursive => FsErrorKind::Other,
    }
}

/// The parameter slots that `op` fills, slot `i` at position `i`.
pub open spec fn param_layout_of(op: FsOp) -> Seq<ParamSlot> {
    match op {
        FsOp::WriteFile => seq![ParamSlot::Path, ParamSlot::Data, ParamSlot::RequestId],
        _ => seq![ParamSlot::Path, ParamSlot::RequestId],
    }
}

/// The id that the `k`-th request (counting from 0) receives from a counter
/// that stands at `start`: the counter wraps around after `u64::MAX`.
pub open spec fn nth_request_id(start: u64, k: nat) -> u64 {
    ((start + k) % 0x1_0000_0000_0000_0000) as u64
}

/// The error kind with which `op` reports a failure.
pub fn error_kind(op: FsOp) -> (kind: FsErrorKind)
    ensures
        kind == error_kind_of(op),
{
    match op {
        FsOp::ReadFile => FsErrorKind::NotFound,
        FsOp::WriteFile => FsErrorKind::Unsupported,
        FsOp::CreateDir => FsErrorKind::Unsupported,
        FsOp::EntriesInDir => FsErrorKind::Other,
        FsOp::FilesInDirRecursive => FsErrorKind::Other,
    }
}

/// The parameter slots that `op` fills before the host is called.
pub fn param_layout(op: FsOp) -> (slots: Vec<ParamSlot>)
    ensures
        slots@ == param_layout_of(op),
{
    let mut slots: Vec<ParamSlot> = Vec::new();
    slots.push(ParamSlot::Path);
    match op {
        FsOp::WriteFile => {
            slots.push(ParamSlot::Data);
        },
        _ => {},
    }
    slots.push(ParamSlot::RequestId);
    slots
}

/// A file system whose operations the host answers; it hands out request ids.
#[derive(Debug)]
pub struct FileSystem {
    next_id: u64,
}

impl View for FileSystem {
    /// The id that the next request will receive.
    type V = u64;

    closed spec fn view(&self) -> u64 {
        self.next_id
    }
}

impl FileSystem {
    /// A file system whose first request gets the id 0.
    pub fn new() -> (fs: Self)
        ensures
            fs@ == 0,
    {
        FileSystem { next_id: 0 }
    }

    /// Takes the id for a new request and advances the counter, wrapping
    /// around after `u64::MAX`.
    pub fn next_request_id(&mut self) -> (id: u64)
        ensures
            id == old(self)@,
            id == nth_request_id(old(self)@, 0),
            final(self)@ == nth_request_id(old(self)@, 1),
    {
        let id = self.next_id;
        self.next_id = self.next_id.wrapping_add(1);
        proof {
            assert(id as int % 0x1_0000_0000_0000_0000 == id as int);
        }
        id
    }
}

/// A request in flight: the operation and the id under which the host is
/// asked, the same on every poll.
#[derive(Clone, Copy, Debug)]
pub struct HostRequest {
    pub op: FsOp,
    pub id: u64,
}

/// What the caller does after a poll.
#[derive(Debug)]
pub enum PollStep<T> {
    /// The host has no reply yet: yield, then upload the same request again.
    Yield,
    /// The host replied: the operation ends with this result.
    Done(Result<T, FsError>),
}

/// What a poll that received `reply` for operation `op` leads to.
pub open spec fn poll_outcome<T>(op: FsOp, reply: Option<Result<T, String>>) -> PollStep<T> {
    match reply {
        None => PollStep::Yield,
        Some(Ok(v)) => PollStep::Done(Ok(v)),
        Some(Err(m)) => PollStep::Done(Err(FsError { kind: error_kind_of(op), message: m })),
    }
}

impl FileSystem {
    /// Starts operation `op`: the request takes the next id.
    pub fn begin_request(&mut self, op: FsOp) -> (req: HostRequest)
        ensures
            req.op == op,
            req.id == old(self)@,
            final(self)@ == nth_request_id(old(self)@, 1),
    {
        let id = self.next_request_id();
        HostRequest { op, id }
    }
}

/// Decides, from the host's answer to a poll of a request for `op`, whether
/// to poll again or how the operation ends. `None` means that the host has no
/// reply yet; an error message is reported with the kind that `op` uses.
pub fn poll_step<T>(op: FsOp, reply: Option<Result<T, String>>) -> (step: PollStep<T>)
    ensures
        step == poll_outcome(op, reply),
{
    match reply {
        None => PollStep::Yield,
        Some(Ok(v)) => PollStep::Done(Ok(v)),
        Some(Err(m)) => PollStep::Done(Err(FsError { kind: error_kind(op), message: m })),
    }
}

/// A reply from the host always ends the operation, and only the absence of
/// one makes the caller poll again: a value ends it with that value, and an
/// error message ends it with an error that carries that message and the
/// kind that the operation reports.
pub proof fn law_reply_ends_operation<T>(op: FsOp, reply: Option<Result<T, String>>)
    ensures
        (poll_outcome(op, reply) is Yield) <==> reply is None,
        reply matches Some(Ok(v)) ==> poll_outcome(op, reply) == PollStep::<T>::Done(Ok(v)),
        reply matches Some(Err(m)) ==> (poll_outcome(op, reply) matches PollStep::Done(Err(e))
            && e.message == m && e.kind == error_kind_of(op)),
{
}

/// The kind of a failed operation: a missing file when reading, a refusal
/// when writing a file or creating a directory, and no particular kind when
/// listing a directory.
pub proof fn law_error_kinds(op: FsOp)
    ensures
        (error_kind_of(op) == FsErrorKind::NotFound) <==> op == FsOp::ReadFile,
        (error_kind_of(op) == FsErrorKind::Unsupported) <==> (op == FsOp::WriteFile || op == FsOp::CreateDir),
        (error_kind_of(op) == FsErrorKind::Other) <==> (op == FsOp::EntriesInDir || op == FsOp::FilesInDirRecursive),
{
}

/// Every operation uploads the path into slot 0 and the request id into its
/// last slot; only writing a file uploads more: the data, in slot 1.
pub proof fn law_param_slots(op: FsOp)
    ensures
        param_layout_of(op).len() == (if op == FsOp::WriteFile { 3int } else { 2int }),
        param_layout_of(op)[0] == ParamSlot::Path,
        param_layout_of(op).last() == ParamSlot::RequestId,
        op == FsOp::WriteFile ==> param_layout_of(op)[1] == ParamSlot::Data,
        forall|k: int| 0 <= k < param_layout_of(op).len() && #[trigger] param_layout_of(op)[k] == ParamSlot::Data
            ==> op == FsOp::WriteFile && k == 1,
{
}

/// Successive requests advance the counter one by one: the request after the
/// one that got `nth_request_id(start, 0)` starts from `nth_request_id(start, 1)`,
/// and its `k`-th successor gets the id of the `(k + 1)`-th successor of `start`.
pub proof fn request_ids_follow_on(start: u64, k: nat)
    ensures
        nth_request_id(nth_request_id(start, 1), k) == nth_request_id(start, k + 1),
{
    let m: int = 0x1_0000_0000_0000_0000;
    let a: int = start + 1;
    assert(nth_request_id(start, 1) == a % m);
    vstd::arithmetic::div_mod::lemma_add_mod_noop(a, k as int, m);
    vstd::arithmetic::div_mod::lemma_mod_twice(k as int, m);
    vstd::arithmetic::div_mod::lemma_add_mod_noop(a % m, k as int, m);
}

/// Two requests of one file system get different ids unless `2^64` or more
/// requests lie between them: the `i`-th and the `j`-th request from the same
/// starting counter differ whenever `i < j < i + 2^64`.
pub proof fn request_ids_distinct(start: u64, i: nat, j: nat)
    requires
        i < j < i + 0x1_0000_0000_0000_0000,
    ensures
        nth_request_id(start, i) != nth_request_id(start, j),
{
    let m: int = 0x1_0000_0000_0000_0000;
    let a: int = start + i;
    let b: int = start + j;
    if a % m == b % m {
        vstd::arithmetic::div_mod::lemma_fundamental_div_mod(a, m);
        vstd::arithmetic::div_mod::lemma_fundamental_div_mod(b, m);
        let qa = a / m;
        let qb = b / m;
        assert(b - a == m * (qb - qa));
        assert(0 < b - a < m);
        if qb - qa <= 0 {
            assert(m * (qb - qa) <= 0) by (nonlinear_arith)
                requires m > 0, qb - qa <= 0;
        } else {
            assert(m * (qb - qa) >= m) by (nonlinear_arith)
                requires m > 0, qb - qa >= 1;
        }
    }
}

impl Default for FileSystem {
    fn default() -> (fs: Self)
        ensures
            fs@ == 0,
    {
        Self::new()
    }
}

} // verus!
