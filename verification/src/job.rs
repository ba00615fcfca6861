//! Jobs: the executable state machine behind every operation of the driver.

use vstd::prelude::*;
use vstd::slice::slice_subrange;
use crate::command::{busy, write_enabled, Command, Frame};
use crate::error::Fault;
use crate::geometry::{chunk_len, first_chunk, CAPACITY, READBACK_CHUNK};
use crate::plan::{Exchange, Plan, PollPolicy, Stage, Task};
use crate::tasks::{
    erase_tasks, lemma_page_tasks_head, lemma_page_tasks_wf, lemma_unit_grid, write_tasks,
};

verus! {

/// One exchange that a job asks of the bus. The bus is held from the first
/// byte of the exchange to its last.
#[derive(Debug)]
pub enum Request<'a> {
    /// Send the frame; nothing comes back.
    Write { frame: Frame },
    /// Send the frame, then the data, as one sequence.
    WriteData { frame: Frame, data: &'a [u8] },
    /// Send the frame, then receive `len` bytes, as one sequence.
    Read { frame: Frame, len: usize },
    /// Send the frame and receive as many bytes in its place.
    Transfer { frame: Frame },
}

impl<'a> View for Request<'a> {
    type V = Exchange;

    open spec fn view(&self) -> Exchange {
        match self {
            Request::Write { frame } => Exchange::Write { frame: frame@ },
            Request::WriteData { frame, data } => Exchange::WriteData {
                frame: frame@,
                data: data@,
            },
            Request::Read { frame, len } => Exchange::Read { frame: frame@, len: *len as nat },
            Request::Transfer { frame } => Exchange::Transfer { frame: frame@ },
        }
    }
}

impl<'a> Request<'a> {
    /// Number of bytes that the exchange brings back, which is the length
    /// of the answer that the job expects.
    pub fn reply_len(&self) -> (n: usize)
        ensures
            n == self@.reply_len(),
    {
        match self {
            Request::Write { .. } => 0,
            Request::WriteData { .. } => 0,
            Request::Read { len, .. } => *len,
            Request::Transfer { frame } => frame.len(),
        }
    }
}

/// Tells whether two slices hold the same bytes.
fn same_bytes(a: &[u8], b: &[u8]) -> (same: bool)
    ensures
        same == (a@ == b@),
{
    if a.len() != b.len() {
        return false;
    }
    let mut i: usize = 0;
    while i < a.len()
        invariant
            i <= a@.len(),
            a@.len() == b@.len(),
            forall|k: int| 0 <= k < i ==> a@[k] == b@[k],
        decreases a@.len() - i,
    {
        if a[i] != b[i] {
            return false;
        }
        i += 1;
    }
    assert(a@ =~= b@);
    true
}

/// Tells whether every byte of a slice is `0xFF`, the erased state.
fn all_ones(a: &[u8]) -> (ones: bool)
    ensures
        ones == (a@ == Seq::new(a@.len(), |i: int| 0xFFu8)),
{
    let mut i: usize = 0;
    while i < a.len()
        invariant
            i <= a@.len(),
            forall|k: int| 0 <= k < i ==> a@[k] == 0xFFu8,
        decreases a@.len() - i,
    {
        if a[i] != 0xFF {
            assert(Seq::new(a@.len(), |i: int| 0xFFu8)[i as int] != a@[i as int]);
            return false;
        }
        i += 1;
    }
    assert(a@ =~= Seq::new(a@.len(), |i: int| 0xFFu8));
    true
}

/// What a job still has to do, in the form the machine keeps it.
#[derive(Clone, Copy, Debug)]
enum Work<'a> {
    Done,
    Plain { command: Command, then: Option<Command> },
    Read { address: u32, len: usize },
    Identify,
    Program { address: u32, data: &'a [u8] },
    Erase { command: Command, address: u32, count: u32 },
}

impl<'a> Work<'a> {
    spec fn tasks(&self) -> Seq<Task> {
        match *self {
            Work::Done => Seq::empty(),
            Work::Plain { command, then } => match then {
                Some(second) => seq![Task::Plain { command }, Task::Plain { command: second }],
                None => seq![Task::Plain { command }],
            },
            Work::Read { address, len } => seq![
                Task::Read { address: address as nat, len: len as nat },
            ],
            Work::Identify => seq![Task::Identify],
            Work::Program { address, data } => write_tasks(address as nat, data@),
            Work::Erase { command, address, count } => erase_tasks(
                command,
                address as nat,
                count as nat,
            ),
        }
    }

    spec fn wf(&self) -> bool {
        match *self {
            Work::Done => true,
            Work::Plain { command, then } => (Task::Plain { command }).wf() && (
            then matches Some(second) ==> (Task::Plain { command: second }).wf()),
            Work::Read { address, len } => address + len <= CAPACITY,
            Work::Identify => true,
            Work::Program { address, data } => address + data@.len() <= CAPACITY,
            Work::Erase { command, address, count } => command.spec_erase_unit() > 0 && count
                >= 1 && address % command.spec_erase_unit() == 0 && address + count
                * command.spec_erase_unit() <= CAPACITY,
        }
    }

    /// The present task.
    spec fn head(&self) -> Task {
        self.tasks()[0]
    }

    /// What is left once the present task is complete.
    fn rest(&self) -> (rest: Work<'a>)
        requires
            self.wf(),
            !(self is Done),
        ensures
            rest.wf(),
            rest.tasks() == self.tasks().drop_first(),
    {
        match *self {
            Work::Done => Work::Done,
            Work::Plain { command, then } => match then {
                Some(second) => {
                    let rest = Work::Plain { command: second, then: None };
                    assert(rest.tasks() =~= self.tasks().drop_first());
                    rest
                },
                None => {
                    assert(self.tasks().drop_first() =~= Seq::<Task>::empty());
                    Work::Done
                },
            },
            Work::Read { .. } => {
                assert(self.tasks().drop_first() =~= Seq::<Task>::empty());
                Work::Done
            },
            Work::Identify => {
                assert(self.tasks().drop_first() =~= Seq::<Task>::empty());
                Work::Done
            },
            Work::Program { address, data } => {
                let n = first_chunk(address, data.len());
                if n == data.len() {
                    proof {
                        if data@.len() > 0 {
                            lemma_page_tasks_head(address as nat, data@);
                        }
                        assert(self.tasks().drop_first() =~= Seq::<Task>::empty());
                    }
                    Work::Done
                } else {
                    proof {
                        lemma_page_tasks_head(address as nat, data@);
                    }
                    Work::Program {
                        address: address + n as u32,
                        data: slice_subrange(data, n, data.len()),
                    }
                }
            },
            Work::Erase { command, address, count } => {
                let unit = command.erase_unit();
                if count == 1 {
                    assert(self.tasks().drop_first() =~= Seq::<Task>::empty());
                    Work::Done
                } else {
                    assert(unit + (count - 1) * unit == count * unit) by (nonlinear_arith);
                    assert((count - 1) * unit >= unit) by (nonlinear_arith)
                        requires
                            count >= 2,
                            unit > 0,
                    ;
                    proof {
                        lemma_unit_grid(address as int, 1, unit as int);
                    }
                    let rest = Work::Erase { command, address: address + unit, count: count - 1 };
                    assert forall|i: int| 0 <= i < count - 1 implies #[trigger] rest.tasks()[i]
                        == self.tasks().drop_first()[i] by {
                        assert(unit + i * unit == (i + 1) * unit) by (nonlinear_arith);
                        assert(0 <= i * unit) by (nonlinear_arith)
                            requires
                                0 <= i,
                                unit > 0,
                        ;
                    }
                    assert(rest.tasks() =~= self.tasks().drop_first());
                    rest
                }
            },
        }
    }

    /// The command of the present task.
    fn command(&self) -> (command: Command)
        requires
            self.wf(),
            !(self is Done),
        ensures
            command == self.head().command(),
            self.head().mutates() == (self is Program || self is Erase),
    {
        proof {
            self.lemma_head();
        }
        match *self {
            Work::Done => Command::ReadData,
            Work::Plain { command, .. } => command,
            Work::Read { .. } => Command::ReadData,
            Work::Identify => Command::UniqueId,
            Work::Program { .. } => Command::PageProgram,
            Work::Erase { command, .. } => command,
        }
    }

    /// First byte and length of the region that the present task changes.
    fn region(&self) -> (region: (u32, u32))
        requires
            self.wf(),
            !(self is Done),
        ensures
            self.head().mutates() ==> region.0 == self.head().start() && region.1
                == self.head().expected().len(),
            !self.head().mutates() ==> region.1 == 0,
            region.0 + region.1 <= CAPACITY,
    {
        proof {
            self.lemma_head();
        }
        match *self {
            Work::Program { address, data } => (address, first_chunk(address, data.len()) as u32),
            Work::Erase { command, address, count } => {
                assert(command.spec_erase_unit() <= count * command.spec_erase_unit())
                    by (nonlinear_arith)
                    requires
                        count >= 1,
                ;
                (address, command.erase_unit())
            },
            _ => (0, 0),
        }
    }

    /// The exchange that carries the command of the present task.
    fn issue(&self) -> (request: Request<'a>)
        requires
            self.wf(),
            !(self is Done),
        ensures
            request@ == self.head().issue(),
    {
        proof {
            self.lemma_head();
        }
        match *self {
            Work::Done => Request::Write { frame: Frame::bare(Command::ReadData) },
            Work::Plain { command, .. } => Request::Write { frame: Frame::bare(command) },
            Work::Read { address, len } => Request::Read {
                frame: Frame::command(Command::ReadData, address),
                len,
            },
            Work::Identify => Request::Transfer { frame: Frame::unique_id() },
            Work::Program { address, data } => Request::WriteData {
                frame: Frame::command(Command::PageProgram, address),
                data: slice_subrange(data, 0, first_chunk(address, data.len())),
            },
            Work::Erase { command, address, .. } => Request::Write {
                frame: Frame::command(command, address),
            },
        }
    }

    /// Tells whether `reply` is what the region of the present task holds
    /// from its byte `checked` on, if the task did what it should.
    fn confirms(&self, checked: u32, reply: &[u8]) -> (good: bool)
        requires
            self.wf(),
            !(self is Done),
            self.head().mutates(),
            checked + reply@.len() <= self.head().expected().len(),
        ensures
            good == (reply@ == self.head().expected().subrange(
                checked as int,
                checked + reply@.len(),
            )),
    {
        proof {
            self.lemma_head();
        }
        match *self {
            Work::Program { address, data } => {
                let ghost n = chunk_len(address as nat, data@.len());
                let piece = slice_subrange(data, checked as usize, checked as usize + reply.len());
                assert(piece@ =~= data@.take(n as int).subrange(
                    checked as int,
                    checked + reply@.len(),
                ));
                same_bytes(reply, piece)
            },
            Work::Erase { command, .. } => {
                assert(Seq::new(reply@.len(), |i: int| 0xFFu8) =~= self.head().expected().subrange(
                    checked as int,
                    checked + reply@.len(),
                ));
                all_ones(reply)
            },
            _ => true,
        }
    }

    /// The present task, by the form of the work.
    proof fn lemma_head(&self)
        requires
            self.wf(),
            !(self is Done),
        ensures
            self.tasks().len() > 0,
            self.head().wf(),
            match *self {
                Work::Done => true,
                Work::Plain { command, .. } => self.head() == (Task::Plain { command }),
                Work::Read { address, len } => self.head() == (Task::Read {
                    address: address as nat,
                    len: len as nat,
                }),
                Work::Identify => self.head() == Task::Identify,
                Work::Program { address, data } => self.head() == (Task::Program {
                    address: address as nat,
                    data: data@.take(
                        chunk_len(address as nat, data@.len()) as int,
                    ),
                }),
                Work::Erase { command, address, .. } => self.head() == (Task::Erase {
                    command,
                    address: address as nat,
                }),
            },
    {
        self.lemma_tasks_wf();
        match *self {
            Work::Program { address, data } => {
                if data@.len() > 0 {
                    lemma_page_tasks_head(address as nat, data@);
                } else {
                    assert(data@.take(0) =~= data@);
                }
            },
            Work::Erase { command, address, count } => {
                assert(0 * command.spec_erase_unit() == 0);
            },
            _ => {},
        }
    }

    proof fn lemma_tasks_wf(&self)
        requires
            self.wf(),
        ensures
            forall|i: int| 0 <= i < self.tasks().len() ==> (#[trigger] self.tasks()[i]).wf(),
            self is Done <==> self.tasks().len() == 0,
    {
        match *self {
            Work::Program { address, data } => {
                lemma_page_tasks_wf(address as nat, data@);
                if data@.len() > 0 {
                    lemma_page_tasks_head(address as nat, data@);
                }
            },
            Work::Erase { command, address, count } => {
                let unit = command.spec_erase_unit() as int;
                assert forall|i: int| 0 <= i < self.tasks().len() implies (
                #[trigger] self.tasks()[i]).wf() by {
                    lemma_unit_grid(address as int, i, unit);
                    assert(i * unit + unit <= count * unit) by (nonlinear_arith)
                        requires
                            0 <= i < count,
                            unit > 0,
                    ;
                    assert(0 <= i * unit) by (nonlinear_arith)
                        requires
                            0 <= i,
                            unit > 0,
                    ;
                }
            },
            _ => {},
        }
    }
}

/// An operation of the driver in progress.
///
/// A job asks for one exchange at a time through [`Job::request`] and is
/// moved on with the chip's answer through [`Job::advance`]. Its view is
/// the [`Plan`] that says what is left to do.
#[derive(Debug)]
pub struct Job<'a> {
    work: Work<'a>,
    stage: Stage,
    polls: u32,
    checked: u32,
    policy: PollPolicy,
    verify: bool,
    id: Option<[u8; 8]>,
}

impl<'a> View for Job<'a> {
    type V = Plan;

    closed spec fn view(&self) -> Plan {
        Plan {
            tasks: self.work.tasks(),
            stage: self.stage,
            polls: self.polls as nat,
            checked: self.checked as nat,
            policy: self.policy,
            verify: self.verify,
            id: match self.id {
                Some(id) => Some(id@),
                None => None,
            },
        }
    }
}

impl<'a> Job<'a> {
    #[verifier::type_invariant]
    spec fn inv(&self) -> bool {
        &&& self.work.wf()
        &&& self@.wf()
        &&& self.work is Done ==> self.stage == Stage::Issue && self.polls == 0 && self.checked
            == 0
    }

    /// A job that sends `command`, and `then` after it if there is one,
    /// each as an exchange of its own.
    pub(crate) fn plain(
        command: Command,
        then: Option<Command>,
        policy: PollPolicy,
        verify: bool,
    ) -> (job: Job<'a>)
        requires
            (Task::Plain { command }).wf(),
            then matches Some(second) ==> (Task::Plain { command: second }).wf(),
        ensures
            job@ == Plan::begin(
                match then {
                    Some(second) => seq![Task::Plain { command }, Task::Plain { command: second }],
                    None => seq![Task::Plain { command }],
                },
                policy,
                verify,
            ),
    {
        let work = Work::Plain { command, then };
        proof {
            work.lemma_head();
            work.lemma_tasks_wf();
        }
        Job { work, stage: Stage::Issue, polls: 0, checked: 0, policy, verify, id: None }
    }

    /// A job that reads `len` bytes from `address` on.
    pub(crate) fn read(address: u32, len: usize, policy: PollPolicy, verify: bool) -> (job: Job<
        'a,
    >)
        requires
            address + len <= CAPACITY,
        ensures
            job@ == Plan::begin(
                seq![Task::Read { address: address as nat, len: len as nat }],
                policy,
                verify,
            ),
    {
        let work = Work::Read { address, len };
        proof {
            work.lemma_head();
            work.lemma_tasks_wf();
        }
        Job { work, stage: Stage::Issue, polls: 0, checked: 0, policy, verify, id: None }
    }

    /// A job that reads the unique id.
    pub(crate) fn identify(policy: PollPolicy, verify: bool) -> (job: Job<'a>)
        ensures
            job@ == Plan::begin(seq![Task::Identify], policy, verify),
    {
        let work = Work::Identify;
        proof {
            work.lemma_head();
            work.lemma_tasks_wf();
        }
        Job { work, stage: Stage::Issue, polls: 0, checked: 0, policy, verify, id: None }
    }

    /// A job that writes `data` at `address`, page by page.
    pub(crate) fn program(address: u32, data: &'a [u8], policy: PollPolicy, verify: bool) -> (job:
        Job<'a>)
        requires
            address + data@.len() <= CAPACITY,
        ensures
            job@ == Plan::begin(write_tasks(address as nat, data@), policy, verify),
    {
        let work = Work::Program { address, data };
        proof {
            work.lemma_head();
            work.lemma_tasks_wf();
        }
        Job { work, stage: Stage::Enable, polls: 0, checked: 0, policy, verify, id: None }
    }

    /// A job that erases `count` consecutive units of `command`, the first
    /// at `address`.
    pub(crate) fn erase(
        command: Command,
        address: u32,
        count: u32,
        policy: PollPolicy,
        verify: bool,
    ) -> (job: Job<'a>)
        requires
            command.spec_erase_unit() > 0,
            address % command.spec_erase_unit() == 0,
            address + count * command.spec_erase_unit() <= CAPACITY,
        ensures
            job@ == Plan::begin(erase_tasks(command, address as nat, count as nat), policy, verify),
    {
        if count == 0 {
            assert(erase_tasks(command, address as nat, 0) =~= Seq::<Task>::empty());
            Job {
                work: Work::Done,
                stage: Stage::Issue,
                polls: 0,
                checked: 0,
                policy,
                verify,
                id: None,
            }
        } else {
            let work = Work::Erase { command, address, count };
            proof {
                work.lemma_head();
                work.lemma_tasks_wf();
            }
            Job { work, stage: Stage::Enable, polls: 0, checked: 0, policy, verify, id: None }
        }
    }

    /// The exchange that the job waits for, or `None` once the job is
    /// finished.
    pub fn request(&self) -> (request: Option<Request<'a>>)
        ensures
            match request {
                Some(exchange) => self@.pending() == Some(exchange@),
                None => self@.pending() is None,
            },
            self@.wf(),
    {
        proof {
            use_type_invariant(self);
            self.work.lemma_tasks_wf();
        }
        if let Work::Done = self.work {
            return None;
        }
        let request = match self.stage {
            Stage::Enable => Request::Write { frame: Frame::bare(Command::WriteEnable) },
            Stage::Latch => Request::Transfer { frame: Frame::status() },
            Stage::Issue => self.work.issue(),
            Stage::Poll => Request::Transfer { frame: Frame::status() },
            Stage::Verify => {
                let (start, len) = self.work.region();
                let left: u32 = len - self.checked;
                let piece: u32 = if left < READBACK_CHUNK {
                    left
                } else {
                    READBACK_CHUNK
                };
                Request::Read {
                    frame: Frame::command(Command::ReadData, start + self.checked),
                    len: piece as usize,
                }
            },
        };
        Some(request)
    }

    /// Tells whether `reply` can be the answer to the pending exchange: the
    /// job is not finished and `reply` has the length that the exchange
    /// brings back.
    pub fn accepts(&self, reply: &[u8]) -> (b: bool)
        ensures
            b == self@.accepts(reply@),
    {
        match self.request() {
            Some(request) => request.reply_len() == reply.len(),
            None => false,
        }
    }

    /// Ends the job after a failure.
    fn halt(&mut self)
        ensures
            final(self)@ == old(self)@.halted(),
    {
        *self = Job {
            work: Work::Done,
            stage: Stage::Issue,
            polls: 0,
            checked: 0,
            policy: self.policy,
            verify: self.verify,
            id: self.id,
        };
    }

    /// Moves on to the task after the present one.
    fn complete(&mut self)
        requires
            !old(self)@.finished(),
        ensures
            final(self)@ == old(self)@.next_task(),
    {
        proof {
            use_type_invariant(&*self);
            self.work.lemma_tasks_wf();
        }
        let rest = self.work.rest();
        proof {
            rest.lemma_tasks_wf();
            if !(rest is Done) {
                rest.lemma_head();
            }
        }
        let stage = match rest {
            Work::Program { .. } => Stage::Enable,
            Work::Erase { .. } => Stage::Enable,
            _ => Stage::Issue,
        };
        *self = Job {
            work: rest,
            stage,
            polls: 0,
            checked: 0,
            policy: self.policy,
            verify: self.verify,
            id: self.id,
        };
    }

    /// Moves the job on with `reply`, the bytes that the pending exchange
    /// brought back (none for an exchange that only sends).
    ///
    /// Returns the fault that the answer reveals, if any; the job is then
    /// finished and asks for nothing more.
    pub fn advance(&mut self, reply: &[u8]) -> (r: Result<(), Fault>)
        requires
            old(self)@.accepts(reply@),
        ensures
            final(self)@ == old(self)@.step(reply@),
            r == match old(self)@.fault(reply@) {
                Some(fault) => Err::<(), Fault>(fault),
                None => Ok::<(), Fault>(()),
            },
            r is Err ==> final(self)@.finished(),
            final(self)@.wf(),
            final(self)@.bound() < old(self)@.bound(),
    {
        proof {
            use_type_invariant(&*self);
            self.work.lemma_tasks_wf();
            self.work.lemma_head();
            self@.lemma_step_wf(reply@);
            self@.lemma_step_bound(reply@);
        }
        match self.stage {
            Stage::Enable => {
                self.stage = Stage::Latch;
                Ok(())
            },
            Stage::Latch => {
                if write_enabled(reply[1]) {
                    self.stage = Stage::Issue;
                    Ok(())
                } else {
                    self.halt();
                    Err(Fault::WriteEnableFail)
                }
            },
            Stage::Issue => {
                let command = self.work.command();
                match self.work {
                    Work::Program { .. } | Work::Erase { .. } => {
                        let budget = self.policy.budget(command);
                        if budget == 0 {
                            self.halt();
                            Err(Fault::Timeout)
                        } else {
                            self.polls = budget;
                            self.stage = Stage::Poll;
                            Ok(())
                        }
                    },
                    Work::Identify => {
                        let id: [u8; 8] = [
                            reply[5],
                            reply[6],
                            reply[7],
                            reply[8],
                            reply[9],
                            reply[10],
                            reply[11],
                            reply[12],
                        ];
                        assert(id@ =~= reply@.subrange(5, 13));
                        self.complete();
                        proof {
                            use_type_invariant(&*self);
                        }
                        self.id = Some(id);
                        Ok(())
                    },
                    _ => {
                        self.complete();
                        Ok(())
                    },
                }
            },
            Stage::Poll => {
                if busy(reply[1]) {
                    if self.polls <= 1 {
                        self.halt();
                        Err(Fault::Timeout)
                    } else {
                        self.polls = self.polls - 1;
                        Ok(())
                    }
                } else {
                    let (start, len) = self.work.region();
                    if self.verify && len > 0 {
                        self.checked = 0;
                        self.stage = Stage::Verify;
                        self.polls = 0;
                        Ok(())
                    } else {
                        self.complete();
                        Ok(())
                    }
                }
            },
            Stage::Verify => {
                let (start, len) = self.work.region();
                if self.work.confirms(self.checked, reply) {
                    let checked: u32 = self.checked + reply.len() as u32;
                    if checked < len {
                        self.checked = checked;
                    } else {
                        self.complete();
                    }
                    Ok(())
                } else {
                    self.halt();
                    Err(Fault::ReadbackFail)
                }
            },
        }
    }

    /// Tells whether nothing is left to do.
    pub fn is_finished(&self) -> (b: bool)
        ensures
            b == self@.finished(),
    {
        proof {
            use_type_invariant(self);
            self.work.lemma_tasks_wf();
        }
        match self.work {
            Work::Done => true,
            _ => false,
        }
    }

    /// The unique id of the chip, once a job that reads it has finished.
    pub fn unique_id(&self) -> (id: Option<[u8; 8]>)
        ensures
            match id {
                Some(bytes) => self@.id == Some(bytes@),
                None => self@.id is None,
            },
    {
        self.id
    }
}

} // verus!
