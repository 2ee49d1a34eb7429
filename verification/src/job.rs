//! Jobs: operations that go back and forth between the software and the
//! hardware, cut into stages that can be left and resumed.
use crate::laws::lemma_blocking_rest;
use crate::model::{blocking, Program, Step};
use vstd::prelude::*;
use vstd::slice::slice_subrange;

verus! {

/// The stages that a job has at most.
pub(crate) const MAX_STAGES: usize = 8;

/// Bytes to be sent past the transmit buffer.
#[derive(Clone, Copy)]
pub enum Payload<'a> {
    /// These bytes.
    Bytes(&'a [u8]),
    /// One byte, that many times.
    Fill(u8, usize),
}

impl<'a> View for Payload<'a> {
    type V = Seq<u8>;

    open spec fn view(&self) -> Seq<u8> {
        match self {
            Payload::Bytes(bytes) => bytes@,
            Payload::Fill(byte, count) => Seq::new(*count as nat, |i: int| *byte),
        }
    }
}

impl<'a> Payload<'a> {
    /// Splits off the first byte.
    pub(crate) fn split_first(self) -> (split: Option<(u8, Payload<'a>)>)
        ensures
            split is None <==> self@.len() == 0,
            split matches Some(parts) ==> parts.0 == self@[0] && parts.1@ == self@.skip(1),
    {
        match self {
            Payload::Bytes(bytes) => if bytes.len() == 0 {
                None
            } else {
                let rest = slice_subrange(bytes, 1, bytes.len());
                assert(rest@ =~= self@.skip(1));
                Some((bytes[0], Payload::Bytes(rest)))
            },
            Payload::Fill(byte, count) => if count == 0 {
                None
            } else {
                let rest = Payload::Fill(byte, count - 1);
                assert(rest@ =~= self@.skip(1));
                Some((byte, rest))
            },
        }
    }
}

/// One stage of a job; `Step` says what each is for.
#[derive(Clone, Copy)]
pub enum Stage<'a> {
    Pump,
    Flush,
    Queue(&'a [u8]),
    Drain,
    Send(Payload<'a>),
    Settle,
}

impl<'a> View for Stage<'a> {
    type V = Step;

    open spec fn view(&self) -> Step {
        match self {
            Stage::Pump => Step::Pump,
            Stage::Flush => Step::Flush,
            Stage::Queue(data) => Step::Queue(data@),
            Stage::Drain => Step::Drain,
            Stage::Send(payload) => Step::Send(payload@),
            Stage::Settle => Step::Settle,
        }
    }
}

/// The bytes that the stages still have to offer to the transmit buffer.
pub open spec fn queue_len(steps: Seq<Step>) -> nat
    decreases steps.len(),
{
    if steps.len() == 0 {
        0
    } else {
        queue_len(steps.drop_first()) + match steps[0] {
            Step::Queue(data) => data.len(),
            _ => 0,
        }
    }
}

/// Blocking stages offer nothing to the transmit buffer.
pub(crate) proof fn lemma_queue_len(steps: Seq<Step>)
    requires
        blocking(steps),
    ensures
        queue_len(steps) == 0,
    decreases steps.len(),
{
    if steps.len() > 0 {
        lemma_blocking_rest(steps);
        lemma_queue_len(steps.drop_first());
    }
}

/// An operation under way. The driver resumes it until it is done.
pub struct Job<'a> {
    stages: [Stage<'a>; MAX_STAGES],
    next: usize,
    end: usize,
    written: usize,
}

impl<'a> View for Job<'a> {
    type V = Program;

    closed spec fn view(&self) -> Program {
        Program {
            steps: Seq::new(
                (self.end - self.next) as nat,
                |i: int| self.stages@[self.next + i]@,
            ),
            written: self.written as nat,
        }
    }
}

impl<'a> Job<'a> {
    /// The count of bytes cannot overflow.
    pub closed spec fn wf(self) -> bool {
        &&& self.next <= self.end <= MAX_STAGES
        &&& self@.written + queue_len(self@.steps) <= usize::MAX
    }

    /// Makes a job of the first `end` stages, with `written` bytes got into
    /// the transmit buffer so far.
    pub(crate) fn new(
        stages: [Stage<'a>; MAX_STAGES],
        end: usize,
        written: usize,
    ) -> (job: Job<'a>)
        requires
            end <= MAX_STAGES,
            written + queue_len(Seq::new(end as nat, |i: int| stages@[i]@)) <= usize::MAX,
        ensures
            job.wf(),
            job@.steps == Seq::new(end as nat, |i: int| stages@[i]@),
            job@.written == written,
    {
        let job = Job { stages, next: 0, end, written };
        assert(job@.steps =~= Seq::new(end as nat, |i: int| stages@[i]@));
        job
    }

    /// Returns how many bytes the job has got into the transmit buffer.
    pub fn written(&self) -> (n: usize)
        ensures
            n == self@.written,
    {
        self.written
    }

    /// Returns the stage that the job is in.
    pub(crate) fn stage(&self) -> (stage: Option<Stage<'a>>)
        requires
            self.wf(),
        ensures
            stage is None <==> self@.steps.len() == 0,
            stage matches Some(current) ==> current@ == self@.steps[0],
    {
        if self.next < self.end {
            Some(self.stages[self.next])
        } else {
            None
        }
    }

    /// Goes to the next stage, with `written` more bytes got into the
    /// transmit buffer.
    pub(crate) fn leave_stage(&mut self, written: usize)
        requires
            old(self).wf(),
            old(self)@.steps.len() > 0,
            written <= (match old(self)@.steps[0] {
                Step::Queue(data) => data.len(),
                _ => 0,
            }),
        ensures
            final(self).wf(),
            final(self)@ == (Program {
                steps: old(self)@.steps.drop_first(),
                written: old(self)@.written + written as nat,
            }),
    {
        self.next = self.next + 1;
        self.written = self.written + written;
        assert(self@.steps =~= old(self)@.steps.drop_first());
    }

    /// Puts another stage in place of the one that the job is in.
    pub(crate) fn change_stage(&mut self, stage: Stage<'a>)
        requires
            old(self).wf(),
            old(self)@.steps.len() > 0,
            !(old(self)@.steps[0] is Queue),
            !(stage@ is Queue),
        ensures
            final(self).wf(),
            final(self)@ == (Program {
                steps: old(self)@.steps.update(0, stage@),
                ..old(self)@
            }),
    {
        self.stages[self.next] = stage;
        assert(self@.steps =~= old(self)@.steps.update(0, stage@));
        assert(self@.steps.drop_first() =~= old(self)@.steps.drop_first());
    }
}

} // verus!
