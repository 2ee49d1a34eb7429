//! The byte queues between the application and the hardware FIFOs.
use heapless::spsc::Queue;
use vstd::prelude::*;

verus! {

/// `heapless::spsc::Queue`, a ring buffer of `N` slots.
#[verifier::external_type_specification]
#[verifier::external_body]
#[verifier::reject_recursive_types(T)]
pub struct ExQueue<T, const N: usize>(Queue<T, N>);

/// A queue of at most `N - 1` bytes.
///
/// `bytes` is what the ring buffer holds, oldest first. The fields are private
/// and the four functions below are all that makes a queue or changes one, so
/// the two cannot drift apart.
pub struct ByteQueue<const N: usize> {
    queue: Queue<u8, N>,
    bytes: Ghost<Seq<u8>>,
}

impl<const N: usize> View for ByteQueue<N> {
    type V = Seq<u8>;

    /// The bytes that wait, oldest first.
    closed spec fn view(&self) -> Seq<u8> {
        self.bytes@
    }
}

impl<const N: usize> ByteQueue<N> {
    /// `heapless::spsc::Queue::new`: an empty queue. It asserts that there is
    /// more than one slot.
    #[verifier::external_body]
    pub(crate) fn new() -> (queue: Self)
        requires
            N > 1,
        ensures
            queue@ == Seq::<u8>::empty(),
    {
        ByteQueue { queue: Queue::new(), bytes: Ghost(Seq::empty()) }
    }

    /// `heapless::spsc::Queue::len`: the number of bytes that wait.
    #[verifier::external_body]
    pub(crate) fn len(&self) -> (n: usize)
        ensures
            n == self@.len(),
    {
        self.queue.len()
    }

    /// `heapless::spsc::Queue::enqueue`: adds a byte at the end, or hands it
    /// back and changes nothing where `N - 1` bytes wait already.
    #[verifier::external_body]
    pub(crate) fn enqueue(&mut self, byte: u8) -> (result: Result<(), u8>)
        ensures
            result is Ok <==> old(self)@.len() < N - 1,
            result is Err ==> result->Err_0 == byte,
            final(self)@ == (if old(self)@.len() < N - 1 {
                old(self)@.push(byte)
            } else {
                old(self)@
            }),
    {
        self.queue.enqueue(byte)
    }

    /// `heapless::spsc::Queue::dequeue`: takes the oldest byte, or nothing
    /// where none waits.
    #[verifier::external_body]
    pub(crate) fn dequeue(&mut self) -> (result: Option<u8>)
        ensures
            result is Some <==> old(self)@.len() > 0,
            result is Some ==> result->Some_0 == old(self)@[0],
            final(self)@ == (if old(self)@.len() > 0 {
                old(self)@.skip(1)
            } else {
                old(self)@
            }),
    {
        self.queue.dequeue()
    }
}

} // verus!
