//! The fixed-capacity queue (`fixed_queue::VecDeque`) that holds the lines of
//! a script.
//!
//! The queue type is the `fixed-queue` crate's own; Verus sees it only
//! through the trusted items below, whose contracts restate what
//! fixed-queue 0.5.2 does.
use vstd::prelude::*;

verus! {

/// Makes `fixed_queue::VecDeque` usable in verified signatures; its contents
/// are seen only through [`queued_lines`].
#[verifier::external_type_specification]
#[verifier::external_body]
#[verifier::reject_recursive_types(T)]
pub struct ExFixedVecDeque<T, const N: usize>(fixed_queue::VecDeque<T, N>);

/// The queue of a script's lines, each line as its characters.
pub type LineQueue = fixed_queue::VecDeque<Vec<char>, 1024>;

/// The number of lines a [`LineQueue`] can hold.
pub const LINE_QUEUE_CAPACITY: usize = 1024;

/// The lines that a [`LineQueue`] holds, front first.
pub uninterp spec fn queued_lines(q: LineQueue) -> Seq<Seq<char>>;

/// `fixed_queue::VecDeque::new`: an empty queue.
#[verifier::external_body]
pub(crate) fn line_queue_new() -> (q: LineQueue)
    ensures
        queued_lines(q) == Seq::<Seq<char>>::empty(),
{
    fixed_queue::VecDeque::new()
}

/// `fixed_queue::VecDeque::push_back`: appends `line` at the back when fewer
/// than 1024 lines are held and returns `Ok`; otherwise leaves the queue as
/// it was and hands `line` back.
#[verifier::external_body]
pub(crate) fn line_queue_push_back(q: &mut LineQueue, line: Vec<char>) -> (r: Result<(), Vec<char>>)
    ensures
        r is Ok <==> queued_lines(*old(q)).len() < LINE_QUEUE_CAPACITY,
        queued_lines(*final(q)) == if queued_lines(*old(q)).len() < LINE_QUEUE_CAPACITY {
            queued_lines(*old(q)).push(line@)
        } else {
            queued_lines(*old(q))
        },
{
    q.push_back(line)
}

} // verus!
