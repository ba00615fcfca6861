//! The mathematical model of a job: the tasks it still has to carry out,
//! the exchange it waits for, and how an answer of the chip moves it on.

use vstd::prelude::*;
use crate::command::{
    bare_frame, command_frame, padded_frame, spec_busy, spec_write_enabled, Command, ID_FRAME,
    STATUS_FRAME,
};
use crate::error::Fault;
use crate::geometry::{fits_page, CAPACITY, READBACK_CHUNK};

verus! {

/// How many status reads a poll may take before the job gives up, by the
/// kind of operation polled for.
///
/// A poll fails with [`Fault::Timeout`] when as many status reads as the
/// budget allows have all found the chip busy. With a budget of zero the
/// job gives up as soon as the command is sent, without a status read.
#[derive(Clone, Copy, Debug, PartialEq, Eq, Structural)]
pub struct PollPolicy {
    /// Status reads allowed after a page program.
    pub program: u32,
    /// Status reads allowed after a sector erase.
    pub sector_erase: u32,
    /// Status reads allowed after a block erase, of either size.
    pub block_erase: u32,
    /// Status reads allowed after a chip erase.
    pub chip_erase: u32,
}

impl PollPolicy {
    /// The budget for polls after `command`.
    pub open spec fn spec_budget(&self, command: Command) -> u32 {
        match command {
            Command::PageProgram => self.program,
            Command::SectorErase => self.sector_erase,
            Command::BlockErase32K => self.block_erase,
            Command::BlockErase64K => self.block_erase,
            Command::ChipErase => self.chip_erase,
            _ => 0,
        }
    }

    /// The same budget for every kind of operation.
    pub fn uniform(limit: u32) -> (p: PollPolicy)
        ensures
            p == (PollPolicy {
                program: limit,
                sector_erase: limit,
                block_erase: limit,
                chip_erase: limit,
            }),
    {
        PollPolicy { program: limit, sector_erase: limit, block_erase: limit, chip_erase: limit }
    }

    #[verifier::when_used_as_spec(spec_budget)]
    pub fn budget(&self, command: Command) -> (n: u32)
        ensures
            n == self.spec_budget(command),
    {
        match command {
            Command::PageProgram => self.program,
            Command::SectorErase => self.sector_erase,
            Command::BlockErase32K => self.block_erase,
            Command::BlockErase64K => self.block_erase,
            Command::ChipErase => self.chip_erase,
            _ => 0,
        }
    }
}

impl Default for PollPolicy {
    /// The most patient policy: every poll may take as many status reads
    /// as the counter holds.
    fn default() -> (p: PollPolicy)
        ensures
            p == (PollPolicy {
                program: u32::MAX,
                sector_erase: u32::MAX,
                block_erase: u32::MAX,
                chip_erase: u32::MAX,
            }),
    {
        PollPolicy {
            program: u32::MAX,
            sector_erase: u32::MAX,
            block_erase: u32::MAX,
            chip_erase: u32::MAX,
        }
    }
}

/// One exchange on the bus, held from its first byte to its last.
pub enum Exchange {
    /// Send the frame; nothing comes back.
    Write { frame: Seq<u8> },
    /// Send the frame, then the data, as one sequence.
    WriteData { frame: Seq<u8>, data: Seq<u8> },
    /// Send the frame, then receive `len` bytes, as one sequence.
    Read { frame: Seq<u8>, len: nat },
    /// Send the frame and receive as many bytes in its place.
    Transfer { frame: Seq<u8> },
}

impl Exchange {
    /// Number of bytes that the exchange brings back.
    pub open spec fn reply_len(self) -> nat {
        match self {
            Exchange::Write { .. } => 0,
            Exchange::WriteData { .. } => 0,
            Exchange::Read { len, .. } => len,
            Exchange::Transfer { frame } => frame.len(),
        }
    }
}

/// The exchange that sets the write-enable latch.
pub open spec fn enable_exchange() -> Exchange {
    Exchange::Write { frame: bare_frame(Command::WriteEnable) }
}

/// The exchange that reads the status register.
pub open spec fn status_exchange() -> Exchange {
    Exchange::Transfer { frame: padded_frame(Command::ReadStatusRegister1, STATUS_FRAME as nat) }
}

/// The exchange that reads `len` bytes of data from `address` on.
pub open spec fn read_exchange(address: nat, len: nat) -> Exchange {
    Exchange::Read { frame: command_frame(Command::ReadData, address), len }
}

/// One command to the chip together with the handshake it needs.
pub enum Task {
    /// A command that the chip takes as it comes: no latch, no wait.
    Plain { command: Command },
    /// Read `len` bytes from `address` on.
    Read { address: nat, len: nat },
    /// Read the unique id.
    Identify,
    /// Program `data` at `address`, within one page.
    Program { address: nat, data: Seq<u8> },
    /// Erase the unit of `command` that starts at `address`.
    Erase { command: Command, address: nat },
}

impl Task {
    /// The task changes the chip's contents, so it is preceded by a
    /// write-enable and followed by a poll for completion.
    pub open spec fn mutates(self) -> bool {
        self is Program || self is Erase
    }

    /// The command that carries the task out.
    pub open spec fn command(self) -> Command {
        match self {
            Task::Plain { command } => command,
            Task::Read { .. } => Command::ReadData,
            Task::Identify => Command::UniqueId,
            Task::Program { .. } => Command::PageProgram,
            Task::Erase { command, .. } => command,
        }
    }

    /// First byte that the task touches.
    pub open spec fn start(self) -> nat {
        match self {
            Task::Read { address, .. } => address,
            Task::Program { address, .. } => address,
            Task::Erase { address, .. } => address,
            _ => 0,
        }
    }

    /// First byte after the last that the task touches.
    pub open spec fn end(self) -> nat {
        match self {
            Task::Read { address, len } => address + len,
            _ => self.start() + self.expected().len(),
        }
    }

    /// What the bytes from `start` on hold once a mutating task is done:
    /// the programmed data, or all ones after an erase.
    pub open spec fn expected(self) -> Seq<u8> {
        match self {
            Task::Program { data, .. } => data,
            Task::Erase { command, .. } => Seq::new(
                command.spec_erase_unit() as nat,
                |i: int| 0xFFu8,
            ),
            _ => Seq::empty(),
        }
    }

    /// The task is one that the chip can carry out: it stays on the chip,
    /// a program within its page, an erase on a whole unit, and its
    /// command is of the task's kind.
    pub open spec fn wf(self) -> bool {
        match self {
            Task::Plain { command } => !command.spec_takes_address()
                && command.spec_erase_unit() == 0,
            Task::Read { address, len } => address + len <= CAPACITY,
            Task::Identify => true,
            Task::Program { address, data } => address + data.len() <= CAPACITY && fits_page(
                address,
                data.len(),
            ),
            Task::Erase { command, address } => command.spec_erase_unit() > 0 && address % (
            command.spec_erase_unit() as nat) == 0 && address + command.spec_erase_unit()
                <= CAPACITY,
        }
    }

    /// The exchange that carries the command of the task itself.
    pub open spec fn issue(self) -> Exchange {
        match self {
            Task::Plain { command } => Exchange::Write { frame: bare_frame(command) },
            Task::Read { address, len } => read_exchange(address, len),
            Task::Identify => Exchange::Transfer {
                frame: padded_frame(Command::UniqueId, ID_FRAME as nat),
            },
            Task::Program { address, data } => Exchange::WriteData {
                frame: command_frame(Command::PageProgram, address),
                data,
            },
            Task::Erase { command, address } => Exchange::Write {
                frame: command_frame(command, address),
            },
        }
    }

    /// The stage at which the task begins.
    pub open spec fn entry(self) -> Stage {
        if self.mutates() {
            Stage::Enable
        } else {
            Stage::Issue
        }
    }
}

/// Where a job stands within its present task.
#[derive(Clone, Copy, Debug, PartialEq, Eq, Structural)]
pub enum Stage {
    /// About to set the write-enable latch.
    Enable,
    /// About to read the status register to see the latch set.
    Latch,
    /// About to send the task's own command.
    Issue,
    /// Reading the status register until the busy flag clears.
    Poll,
    /// Reading the changed region back.
    Verify,
}

/// The abstract state of a job.
pub struct Plan {
    /// Tasks not yet completed; the first is the present one.
    pub tasks: Seq<Task>,
    /// Stage of the present task.
    pub stage: Stage,
    /// Status reads still allowed in the present poll.
    pub polls: nat,
    /// Bytes of the present task's region already read back and found good.
    pub checked: nat,
    /// Poll budgets.
    pub policy: PollPolicy,
    /// Whether changed regions are read back.
    pub verify: bool,
    /// The unique id, once read.
    pub id: Option<Seq<u8>>,
}

impl Plan {
    /// A job that is about to begin `tasks`.
    pub open spec fn begin(tasks: Seq<Task>, policy: PollPolicy, verify: bool) -> Plan {
        Plan {
            tasks,
            stage: if tasks.len() > 0 {
                tasks[0].entry()
            } else {
                Stage::Issue
            },
            polls: 0,
            checked: 0,
            policy,
            verify,
            id: None,
        }
    }

    /// Nothing is left to do.
    pub open spec fn finished(self) -> bool {
        self.tasks.len() == 0
    }

    /// Length of the next piece of a readback.
    pub open spec fn verify_len(self) -> nat {
        let left = self.tasks[0].expected().len() - self.checked;
        if left < READBACK_CHUNK {
            left as nat
        } else {
            READBACK_CHUNK as nat
        }
    }

    /// The exchange that the job waits for, if it is not finished.
    pub open spec fn pending(self) -> Option<Exchange> {
        if self.finished() {
            None
        } else {
            Some(
                match self.stage {
                    Stage::Enable => enable_exchange(),
                    Stage::Latch => status_exchange(),
                    Stage::Issue => self.tasks[0].issue(),
                    Stage::Poll => status_exchange(),
                    Stage::Verify => read_exchange(
                        self.tasks[0].start() + self.checked,
                        self.verify_len(),
                    ),
                },
            )
        }
    }

    /// The answer `reply` is one that the pending exchange can bring.
    pub open spec fn accepts(self, reply: Seq<u8>) -> bool {
        self.pending() matches Some(exchange) && reply.len() == exchange.reply_len()
    }

    /// The job as it stands once the present task is complete.
    pub open spec fn next_task(self) -> Plan {
        let rest = self.tasks.drop_first();
        Plan {
            tasks: rest,
            stage: if rest.len() > 0 {
                rest[0].entry()
            } else {
                Stage::Issue
            },
            polls: 0,
            checked: 0,
            ..self
        }
    }

    /// The job as it stands once a poll has found the chip idle: about to
    /// read the changed region back, or at its next task.
    pub open spec fn polled(self) -> Plan {
        if self.verify && self.tasks[0].expected().len() > 0 {
            Plan { stage: Stage::Verify, polls: 0, checked: 0, ..self }
        } else {
            self.next_task()
        }
    }

    /// The job as it stands after a failure: nothing more is asked of the
    /// bus.
    pub open spec fn halted(self) -> Plan {
        Plan { tasks: Seq::empty(), stage: Stage::Issue, polls: 0, checked: 0, ..self }
    }

    /// The fault, if any, that the answer `reply` to the pending exchange
    /// reveals.
    pub open spec fn fault(self, reply: Seq<u8>) -> Option<Fault> {
        let task = self.tasks[0];
        match self.stage {
            Stage::Enable => None,
            Stage::Latch => if spec_write_enabled(reply[1]) {
                None
            } else {
                Some(Fault::WriteEnableFail)
            },
            Stage::Issue => if task.mutates() && self.policy.spec_budget(task.command()) == 0 {
                Some(Fault::Timeout)
            } else {
                None
            },
            Stage::Poll => if spec_busy(reply[1]) && self.polls <= 1 {
                Some(Fault::Timeout)
            } else {
                None
            },
            Stage::Verify => if reply == task.expected().subrange(
                self.checked as int,
                (self.checked + self.verify_len()) as int,
            ) {
                None
            } else {
                Some(Fault::ReadbackFail)
            },
        }
    }

    /// The job as it stands after the answer `reply` to the pending
    /// exchange.
    pub open spec fn step(self, reply: Seq<u8>) -> Plan {
        let task = self.tasks[0];
        if self.fault(reply) is Some {
            self.halted()
        } else {
            match self.stage {
                Stage::Enable => Plan { stage: Stage::Latch, ..self },
                Stage::Latch => Plan { stage: Stage::Issue, ..self },
                Stage::Issue => if task.mutates() {
                    Plan {
                        stage: Stage::Poll,
                        polls: self.policy.spec_budget(task.command()) as nat,
                        ..self
                    }
                } else if task is Identify {
                    Plan { id: Some(reply.subrange(5, 13)), ..self.next_task() }
                } else {
                    self.next_task()
                },
                Stage::Poll => if spec_busy(reply[1]) {
                    Plan { polls: (self.polls - 1) as nat, ..self }
                } else {
                    self.polled()
                },
                Stage::Verify => if self.checked + self.verify_len() < task.expected().len() {
                    Plan { checked: self.checked + self.verify_len(), ..self }
                } else {
                    self.next_task()
                },
            }
        }
    }

    /// The state is one that a job can be in.
    pub open spec fn wf(self) -> bool {
        &&& forall|i: int| 0 <= i < self.tasks.len() ==> (#[trigger] self.tasks[i]).wf()
        &&& self.id matches Some(id) ==> id.len() == 8
        &&& !self.finished() ==> {
            let task = self.tasks[0];
            &&& !task.mutates() ==> self.stage == Stage::Issue
            &&& self.stage == Stage::Poll ==> 1 <= self.polls <= self.policy.spec_budget(
                task.command(),
            )
            &&& self.stage == Stage::Verify ==> self.verify && self.checked
                < task.expected().len()
        }
    }

    /// A well-formed job is well-formed at its next task.
    pub proof fn lemma_next_task_wf(self)
        requires
            self.wf(),
            !self.finished(),
        ensures
            self.next_task().wf(),
            self.next_task().tasks.len() > 0 ==> self.next_task().stage
                == self.next_task().tasks[0].entry(),
    {
        let next = self.next_task();
        assert forall|i: int| 0 <= i < next.tasks.len() implies (
        #[trigger] next.tasks[i]).wf() by {
            assert(next.tasks[i] == self.tasks[i + 1]);
        }
    }

    /// The handshake of a program or erase. The command goes out only
    /// after a write-enable and a status read that showed the latch set;
    /// a poll follows every command; and the job leaves the task only when
    /// a poll has found the chip idle or the readback has reached the end
    /// of the region.
    pub proof fn lemma_handshake(self, reply: Seq<u8>)
        requires
            self.wf(),
            self.accepts(reply),
            self.tasks[0].mutates(),
            self.fault(reply) is None,
        ensures
            self.step(reply).tasks == self.tasks ==> match self.step(reply).stage {
                Stage::Enable => false,
                Stage::Latch => self.stage == Stage::Enable,
                Stage::Issue => self.stage == Stage::Latch && spec_write_enabled(reply[1]),
                Stage::Poll => {
                    ||| self.stage == Stage::Issue
                    ||| self.stage == Stage::Poll && spec_busy(reply[1])
                },
                Stage::Verify => {
                    ||| self.stage == Stage::Poll && !spec_busy(reply[1]) && self.verify
                    ||| self.stage == Stage::Verify
                },
            },
            self.step(reply).tasks != self.tasks ==> {
                &&& self.step(reply) == self.next_task()
                &&& {
                    ||| self.stage == Stage::Poll && !spec_busy(reply[1])
                    ||| self.stage == Stage::Verify && self.checked + reply.len()
                        == self.tasks[0].expected().len()
                }
            },
    {
        assert(self.tasks.drop_first().len() != self.tasks.len());
    }

    /// A well-formed job stays well-formed whatever the chip answers.
    pub proof fn lemma_step_wf(self, reply: Seq<u8>)
        requires
            self.wf(),
            self.accepts(reply),
        ensures
            self.step(reply).wf(),
    {
        let next = self.step(reply);
        if self.fault(reply) is Some {
        } else {
            assert forall|i: int| 0 <= i < next.tasks.len() implies (
            #[trigger] next.tasks[i]).wf() by {
                if next.tasks.len() == self.tasks.len() {
                    assert(next.tasks == self.tasks);
                } else {
                    assert(next.tasks == self.tasks.drop_first());
                    assert(next.tasks[i] == self.tasks[i + 1]);
                }
            }
        }
    }
}

/// Exchanges that a readback of `len` bytes takes.
pub open spec fn pieces(len: nat) -> nat {
    (len + READBACK_CHUNK - 1) as nat / (READBACK_CHUNK as nat)
}

impl Task {
    /// The most exchanges that the task can take, whatever the chip
    /// answers.
    pub open spec fn cost(self, policy: PollPolicy, verify: bool) -> nat {
        if self.mutates() {
            let tail = if verify {
                pieces(self.expected().len())
            } else {
                0
            };
            3 + policy.spec_budget(self.command()) as nat + tail
        } else {
            1
        }
    }
}

/// The most exchanges that the tasks can take together.
pub open spec fn total_cost(tasks: Seq<Task>, policy: PollPolicy, verify: bool) -> nat
    decreases tasks.len(),
{
    if tasks.len() == 0 {
        0
    } else {
        tasks[0].cost(policy, verify) + total_cost(tasks.drop_first(), policy, verify)
    }
}

impl Plan {
    /// The most exchanges that the job can still ask for, whatever the chip
    /// answers.
    pub open spec fn bound(self) -> nat {
        if self.finished() {
            0
        } else {
            let task = self.tasks[0];
            let budget = self.policy.spec_budget(task.command()) as nat;
            let tail = if self.verify {
                pieces(task.expected().len())
            } else {
                0
            };
            total_cost(self.tasks.drop_first(), self.policy, self.verify) + match self.stage {
                Stage::Enable => 3 + budget + tail,
                Stage::Latch => 2 + budget + tail,
                Stage::Issue => if task.mutates() {
                    1 + budget + tail
                } else {
                    1
                },
                Stage::Poll => self.polls + tail,
                Stage::Verify => pieces((task.expected().len() - self.checked) as nat),
            }
        }
    }

    /// A job that begins its tasks can ask for as many exchanges as the
    /// tasks cost together, and no more.
    pub proof fn lemma_begin_bound(tasks: Seq<Task>, policy: PollPolicy, verify: bool)
        ensures
            Plan::begin(tasks, policy, verify).bound() == total_cost(tasks, policy, verify),
    {
    }

    /// Every answer brings a job closer to its end: the number of exchanges
    /// that it can still ask for goes down. So no job runs forever, however
    /// long the chip stays busy.
    pub proof fn lemma_step_bound(self, reply: Seq<u8>)
        requires
            self.wf(),
            self.accepts(reply),
        ensures
            self.step(reply).bound() < self.bound(),
    {
        let task = self.tasks[0];
        let next = self.next_task();
        assert(next.bound() == total_cost(self.tasks.drop_first(), self.policy, self.verify));
        assert(self.halted().bound() == 0);
    }
}

} // verus!
