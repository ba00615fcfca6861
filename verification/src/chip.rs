//! A model of the chip as the data sheet describes it, and what the jobs
//! of the driver do to it.
//!
//! Nothing here is executable. The model says how an idle, well-behaved
//! chip answers each exchange; the theorems say what a job that is driven
//! against such a chip leaves in its memory.

use vstd::prelude::*;
use crate::command::{
    address_bytes, bare_frame, command_frame, spec_busy, spec_write_enabled, Command,
};
use crate::error::Fault;
use crate::geometry::{chunk_len, CAPACITY, N_SECTORS};
use crate::plan::{
    enable_exchange, read_exchange, status_exchange, Exchange, Plan, PollPolicy, Stage, Task,
};
use crate::tasks::{
    erase_tasks, lemma_erase_tasks_head, lemma_page_tasks_head, lemma_page_tasks_wf,
    lemma_unit_grid, page_tasks, write_tasks,
};

verus! {

/// The state of a chip.
pub struct Chip {
    /// The contents, one byte per address.
    pub memory: Seq<u8>,
    /// The write-enable latch.
    pub latch: bool,
    /// Status reads that will still find the chip busy.
    pub busy: nat,
    /// Status reads for which a program or erase keeps the chip busy.
    pub latency: nat,
    /// The unique id.
    pub id: Seq<u8>,
}

/// The address that the chip takes from a frame of four bytes. Addresses
/// beyond the last byte wrap around.
pub open spec fn frame_address(frame: Seq<u8>) -> nat {
    (frame[1] as nat * 65536 + frame[2] as nat * 256 + frame[3] as nat) % (CAPACITY as nat)
}

/// The status register as the chip reports it.
pub open spec fn status_byte(busy: bool, latch: bool) -> u8 {
    if busy {
        if latch {
            0x03
        } else {
            0x01
        }
    } else {
        if latch {
            0x02
        } else {
            0x00
        }
    }
}

/// Bytes that the erase command with opcode `opcode` and an address
/// erases; zero for any other opcode.
pub open spec fn erase_unit_of(opcode: u8) -> nat {
    if opcode == 0x20 {
        4096
    } else if opcode == 0x52 {
        32768
    } else if opcode == 0xD8 {
        65536
    } else {
        0
    }
}

/// `memory` with the `len` bytes from `address` on set to all ones.
pub open spec fn filled(memory: Seq<u8>, address: nat, len: nat) -> Seq<u8> {
    Seq::new(
        memory.len(),
        |k: int|
            if address <= k < address + len {
                0xFFu8
            } else {
                memory[k]
            },
    )
}

/// `memory` with `data` in place of the bytes from `address` on.
pub open spec fn overlaid(memory: Seq<u8>, address: nat, data: Seq<u8>) -> Seq<u8> {
    Seq::new(
        memory.len(),
        |k: int|
            if address <= k < address + data.len() {
                data[k - address]
            } else {
                memory[k]
            },
    )
}

/// `memory` with every bit cleared, from `address` on, that `data` has
/// clear.
pub open spec fn cleared(memory: Seq<u8>, address: nat, data: Seq<u8>) -> Seq<u8> {
    Seq::new(
        memory.len(),
        |k: int|
            if address <= k < address + data.len() {
                memory[k] & data[k - address]
            } else {
                memory[k]
            },
    )
}

/// `memory` after a page program of `data` at `address`: a program clears
/// bits and sets none, and wraps to the start of its page at the page's
/// end.
pub open spec fn programmed(memory: Seq<u8>, address: nat, data: Seq<u8>) -> Seq<u8> {
    let base = address - address % 256;
    Seq::new(
        memory.len(),
        |k: int|
            if base <= k < base + 256 && (k - address) % 256 < data.len() {
                memory[k] & data[(k - address) % 256]
            } else {
                memory[k]
            },
    )
}

/// Programming `data` at `address` only clears bits that `data` has
/// clear: every bit set in `data` is still set in `memory`.
pub open spec fn programmable(memory: Seq<u8>, address: nat, data: Seq<u8>) -> bool {
    forall|k: int|
        address <= k < address + data.len() ==> (#[trigger] memory[k]) & data[k - address]
            == data[k - address]
}

impl Chip {
    /// The state is one that a chip can be in.
    pub open spec fn wf(self) -> bool {
        self.memory.len() == CAPACITY && self.id.len() == 8
    }

    /// No operation is in progress.
    pub open spec fn idle(self) -> bool {
        self.busy == 0
    }

    /// The chip as a program or erase that leaves `memory` begins: busy
    /// for its latency, the latch held until the operation completes.
    pub open spec fn started(self, memory: Seq<u8>) -> Chip {
        Chip { memory, busy: self.latency, latch: self.latency > 0, ..self }
    }

    /// The chip after a status read: one read closer to idle, the latch
    /// cleared as the operation completes.
    pub open spec fn ticked(self) -> Chip {
        if self.busy > 0 {
            Chip { busy: (self.busy - 1) as nat, latch: self.latch && self.busy > 1, ..self }
        } else {
            self
        }
    }

    /// The chip once its operation has completed.
    pub open spec fn settled(self) -> Chip {
        Chip { busy: 0, latch: false, ..self }
    }

    /// The chip after a frame without data. A busy chip ignores it, and so
    /// does a chip whose latch is not set if the frame is an erase. A frame
    /// that the model does not know leaves the chip as it is.
    pub open spec fn after_write(self, frame: Seq<u8>) -> Chip {
        if !self.idle() {
            self
        } else if frame.len() == 1 && frame[0] == 0x06 {
            Chip { latch: true, ..self }
        } else if frame.len() == 1 && frame[0] == 0xC7 && self.latch {
            self.started(filled(self.memory, 0, CAPACITY as nat))
        } else if frame.len() == 4 && erase_unit_of(frame[0]) > 0 && self.latch {
            let unit = erase_unit_of(frame[0]);
            let address = frame_address(frame);
            self.started(filled(self.memory, (address - address % unit) as nat, unit))
        } else {
            self
        }
    }

    /// The chip after a frame with data: a page program, if the chip is
    /// idle and its latch set.
    pub open spec fn after_write_data(self, frame: Seq<u8>, data: Seq<u8>) -> Chip {
        if self.idle() && self.latch && frame.len() == 4 && frame[0] == 0x02 && data.len()
            <= 256 {
            self.started(programmed(self.memory, frame_address(frame), data))
        } else {
            self
        }
    }

    /// What a read of `len` bytes brings back.
    pub open spec fn read_reply(self, frame: Seq<u8>, len: nat) -> Seq<u8> {
        if self.idle() && frame.len() == 4 && frame[0] == 0x03 {
            Seq::new(len, |i: int| self.memory[(frame_address(frame) + i) % (CAPACITY as int)])
        } else {
            Seq::new(len, |i: int| 0u8)
        }
    }

    /// What a full-duplex exchange brings back.
    pub open spec fn transfer_reply(self, frame: Seq<u8>) -> Seq<u8> {
        if frame.len() >= 1 && frame[0] == 0x05 {
            Seq::new(
                frame.len(),
                |i: int|
                    if i == 0 {
                        0u8
                    } else {
                        status_byte(self.busy > 0, self.latch)
                    },
            )
        } else if self.idle() && frame.len() == 13 && frame[0] == 0x4B {
            Seq::new(
                13,
                |i: int|
                    if i < 5 {
                        0u8
                    } else {
                        self.id[i - 5]
                    },
            )
        } else {
            Seq::new(frame.len(), |i: int| 0u8)
        }
    }

    /// The chip after an exchange, and the bytes that the exchange brought
    /// back.
    pub open spec fn respond(self, exchange: Exchange) -> (Chip, Seq<u8>) {
        match exchange {
            Exchange::Write { frame } => (self.after_write(frame), Seq::empty()),
            Exchange::WriteData { frame, data } => (
                self.after_write_data(frame, data),
                Seq::empty(),
            ),
            Exchange::Read { frame, len } => (self, self.read_reply(frame, len)),
            Exchange::Transfer { frame } => (
                if frame.len() >= 1 && frame[0] == 0x05 {
                    self.ticked()
                } else {
                    self
                },
                self.transfer_reply(frame),
            ),
        }
    }

    /// The chip answers every exchange with as many bytes as the exchange
    /// asks for.
    pub proof fn lemma_reply_len(self, exchange: Exchange)
        ensures
            self.respond(exchange).1.len() == exchange.reply_len(),
            self.wf() ==> self.respond(exchange).0.wf(),
    {
    }
}

/// Where a job and the chip stand at the end of a run.
pub struct Outcome {
    /// The job, finished.
    pub plan: Plan,
    /// The chip.
    pub chip: Chip,
    /// The fault that ended the job, if one did.
    pub fault: Option<Fault>,
}

/// Drives a job against the chip: carries out the pending exchange, moves
/// the job on with the answer, and so on until the job is finished or
/// fails.
#[verifier::opaque]
pub open spec fn run(plan: Plan, chip: Chip) -> Outcome
    decreases plan.bound(),
    via run_ends
{
    if plan.finished() || !plan.wf() {
        Outcome { plan, chip, fault: None }
    } else {
        let answer = chip.respond(plan.pending()->0);
        if plan.fault(answer.1) is Some {
            Outcome { plan: plan.halted(), chip: answer.0, fault: plan.fault(answer.1) }
        } else {
            run(plan.step(answer.1), answer.0)
        }
    }
}

#[via_fn]
proof fn run_ends(plan: Plan, chip: Chip) {
    if !plan.finished() && plan.wf() {
        let answer = chip.respond(plan.pending()->0);
        chip.lemma_reply_len(plan.pending()->0);
        plan.lemma_step_bound(answer.1);
    }
}

/// A run of a finished job is over at once.
pub proof fn lemma_run_finished(plan: Plan, chip: Chip)
    requires
        plan.finished(),
    ensures
        run(plan, chip) == (Outcome { plan, chip, fault: None }),
{
    reveal(run);
}

/// A run whose first answer reveals no fault goes on from the job and the
/// chip as that exchange leaves them.
pub proof fn lemma_run_step(plan: Plan, chip: Chip, exchange: Exchange, reply: Seq<u8>)
    requires
        plan.wf(),
        plan.pending() == Some(exchange),
        chip.respond(exchange).1 == reply,
        plan.fault(reply) is None,
    ensures
        run(plan, chip) == run(plan.step(reply), chip.respond(exchange).0),
        plan.step(reply).wf(),
{
    reveal(run);
    chip.lemma_reply_len(exchange);
    plan.lemma_step_wf(reply);
}

/// The chip reads back the address that a frame was encoded with.
pub proof fn lemma_frame_address(command: Command, address: nat)
    requires
        command.spec_takes_address(),
        address <= CAPACITY,
    ensures
        command_frame(command, address).len() == 4,
        command_frame(command, address)[0] == command.spec_opcode(),
        frame_address(command_frame(command, address)) == address % (CAPACITY as nat),
{
    let frame = command_frame(command, address);
    assert(frame =~= seq![command.spec_opcode()] + address_bytes(address));
    assert(frame[1] == address_bytes(address)[0]);
    assert(frame[2] == address_bytes(address)[1]);
    assert(frame[3] == address_bytes(address)[2]);
    assert(address / 65536 < 256);
    assert((address / 65536) % 256 * 65536 + (address / 256) % 256 * 256 + address % 256
        == address) by (nonlinear_arith)
        requires
            address / 65536 < 256,
    ;
}

/// The status byte carries the busy flag in bit 0 and the latch in bit 1.
pub proof fn lemma_status_byte(busy: bool, latch: bool)
    ensures
        spec_busy(status_byte(busy, latch)) == busy,
        spec_write_enabled(status_byte(busy, latch)) == latch,
{
    assert(0x00u8 & 0x01 == 0 && 0x00u8 & 0x02 == 0) by (bit_vector);
    assert(0x01u8 & 0x01 != 0 && 0x01u8 & 0x02 == 0) by (bit_vector);
    assert(0x02u8 & 0x01 == 0 && 0x02u8 & 0x02 != 0) by (bit_vector);
    assert(0x03u8 & 0x01 != 0 && 0x03u8 & 0x02 != 0) by (bit_vector);
}

impl Chip {
    /// The memory as the command of a mutating task leaves it.
    pub open spec fn changed(self, task: Task) -> Seq<u8> {
        match task {
            Task::Program { address, data } => programmed(
                self.memory,
                address % (CAPACITY as nat),
                data,
            ),
            Task::Erase { command, address } => filled(
                self.memory,
                address,
                command.spec_erase_unit() as nat,
            ),
            _ => self.memory,
        }
    }

    /// The task does to this chip what it is meant to: its region holds
    /// what is expected once its command is carried out. An erase always
    /// does; a program does where it only has to clear bits.
    pub open spec fn takes(self, task: Task) -> bool {
        match task {
            Task::Program { address, data } => programmable(self.memory, address, data),
            _ => true,
        }
    }
}

/// An idle chip answers a read on the chip with the bytes of its memory.
pub proof fn lemma_read(chip: Chip, address: nat, len: nat)
    requires
        chip.wf(),
        chip.idle(),
        address + len <= CAPACITY,
    ensures
        chip.respond(read_exchange(address, len)) == (
            chip,
            chip.memory.subrange(address as int, (address + len) as int),
        ),
{
    lemma_frame_address(Command::ReadData, address);
    let frame = command_frame(Command::ReadData, address);
    let reply = chip.read_reply(frame, len);
    let expected = chip.memory.subrange(address as int, (address + len) as int);
    assert forall|i: int| 0 <= i < len implies reply[i] == expected[i] by {
        assert(frame_address(frame) + i == address + i);
        assert((address + i) % (CAPACITY as int) == address + i);
    }
    assert(reply =~= expected);
}

/// A poll with a budget above what the chip still needs ends with the
/// chip idle and its latch clear, and the job past the poll.
pub proof fn lemma_poll(plan: Plan, chip: Chip)
    requires
        plan.wf(),
        !plan.finished(),
        plan.stage == Stage::Poll,
        plan.polls > chip.busy,
        chip.wf(),
        chip.busy == 0 ==> !chip.latch,
    ensures
        run(plan, chip) == run(plan.polled(), chip.settled()),
    decreases chip.busy,
{
    let answer = chip.respond(status_exchange());
    lemma_status_byte(chip.busy > 0, chip.latch);
    assert(answer.1[1] == status_byte(chip.busy > 0, chip.latch));
    lemma_run_step(plan, chip, status_exchange(), answer.1);
    if chip.busy == 0 {
        assert(plan.step(answer.1) == plan.polled());
        assert(answer.0 == chip.settled());
    } else {
        let next = plan.step(answer.1);
        assert(next.polled() == plan.polled());
        assert(answer.0.settled() == chip.settled());
        lemma_poll(next, answer.0);
    }
}

/// A readback finds no fault exactly if the region holds what is
/// expected; otherwise it ends the job with a readback fault. Either way
/// it leaves the chip as it is.
pub proof fn lemma_verify(plan: Plan, chip: Chip)
    requires
        plan.wf(),
        !plan.finished(),
        plan.stage == Stage::Verify,
        plan.tasks[0].mutates(),
        chip.wf(),
        chip.idle(),
        chip.memory.subrange(
            plan.tasks[0].start() as int,
            (plan.tasks[0].start() + plan.checked) as int,
        ) == plan.tasks[0].expected().take(plan.checked as int),
    ensures
        chip.memory.subrange(plan.tasks[0].start() as int, plan.tasks[0].end() as int)
            == plan.tasks[0].expected() ==> run(plan, chip) == run(plan.next_task(), chip),
        chip.memory.subrange(plan.tasks[0].start() as int, plan.tasks[0].end() as int)
            != plan.tasks[0].expected() ==> run(plan, chip) == (Outcome {
            plan: plan.halted(),
            chip,
            fault: Some(Fault::ReadbackFail),
        }),
    decreases plan.tasks[0].expected().len() - plan.checked,
{
    let task = plan.tasks[0];
    let expected = task.expected();
    let region = chip.memory.subrange(task.start() as int, task.end() as int);
    let at = task.start() + plan.checked;
    let len = plan.verify_len();
    let exchange = read_exchange(at, len);
    assert(plan.pending() == Some(exchange));
    lemma_read(chip, at, len);
    let reply = chip.memory.subrange(at as int, (at + len) as int);
    let piece = expected.subrange(plan.checked as int, (plan.checked + len) as int);
    assert forall|i: int| 0 <= i < len implies reply[i] == region[plan.checked + i] by {}
    assert forall|i: int| 0 <= i < plan.checked implies region[i] == expected[i] by {
        assert(chip.memory.subrange(task.start() as int, (task.start() + plan.checked) as int)[i]
            == expected.take(plan.checked as int)[i]);
    }
    if reply == piece {
        assert(plan.fault(reply) is None);
        lemma_run_step(plan, chip, exchange, reply);
        let next = plan.step(reply);
        assert forall|i: int| plan.checked <= i < plan.checked + len implies region[i]
            == expected[i] by {
            assert(reply[i - plan.checked] == piece[i - plan.checked]);
        }
        if plan.checked + len < expected.len() {
            assert(chip.memory.subrange(task.start() as int, (task.start() + next.checked) as int)
                =~= expected.take(next.checked as int));
            assert(next.halted() == plan.halted());
            lemma_verify(next, chip);
        } else {
            assert(region =~= expected);
        }
    } else {
        assert(plan.fault(reply) == Some(Fault::ReadbackFail));
        assert(run(plan, chip) == (Outcome {
            plan: plan.halted(),
            chip,
            fault: Some(Fault::ReadbackFail),
        })) by {
            reveal(run);
        }
        if region == expected {
            assert(reply =~= piece);
        }
    }
}

/// The write-enable sets the latch of an idle chip.
proof fn lemma_enable(plan: Plan, chip: Chip)
    requires
        plan.wf(),
        !plan.finished(),
        plan.stage == Stage::Enable,
        chip.idle(),
    ensures
        run(plan, chip) == run(Plan { stage: Stage::Latch, ..plan }, Chip { latch: true, ..chip }),
        (Plan { stage: Stage::Latch, ..plan }).wf(),
{
    let answer = chip.respond(enable_exchange());
    assert(bare_frame(Command::WriteEnable) =~= seq![0x06u8]);
    lemma_run_step(plan, chip, enable_exchange(), answer.1);
}

/// The status read after a write-enable finds the latch of an idle chip
/// set.
proof fn lemma_latch(plan: Plan, chip: Chip)
    requires
        plan.wf(),
        !plan.finished(),
        plan.stage == Stage::Latch,
        chip.idle(),
        chip.latch,
    ensures
        run(plan, chip) == run(Plan { stage: Stage::Issue, ..plan }, chip),
        (Plan { stage: Stage::Issue, ..plan }).wf(),
{
    let answer = chip.respond(status_exchange());
    lemma_status_byte(false, true);
    assert(answer.1[1] == status_byte(false, true));
    lemma_run_step(plan, chip, status_exchange(), answer.1);
}

/// An idle chip with its latch set takes the command of a mutating task.
proof fn lemma_issue(plan: Plan, chip: Chip)
    requires
        plan.wf(),
        !plan.finished(),
        plan.stage == Stage::Issue,
        plan.tasks[0].mutates(),
        plan.policy.spec_budget(plan.tasks[0].command()) > 0,
        chip.wf(),
        chip.idle(),
        chip.latch,
    ensures
        run(plan, chip) == run(
            Plan {
                stage: Stage::Poll,
                polls: plan.policy.spec_budget(plan.tasks[0].command()) as nat,
                ..plan
            },
            chip.started(chip.changed(plan.tasks[0])),
        ),
        (Plan {
            stage: Stage::Poll,
            polls: plan.policy.spec_budget(plan.tasks[0].command()) as nat,
            ..plan
        }).wf(),
{
    let task = plan.tasks[0];
    let exchange = task.issue();
    lemma_taken(chip, task);
    assert(plan.pending() == Some(exchange));
    assert(plan.fault(Seq::<u8>::empty()) is None);
    lemma_run_step(plan, chip, exchange, Seq::<u8>::empty());
}

/// An idle chip with its latch set carries out the command of a mutating
/// task.
proof fn lemma_taken(chip: Chip, task: Task)
    requires
        chip.wf(),
        chip.idle(),
        chip.latch,
        task.wf(),
        task.mutates(),
    ensures
        chip.respond(task.issue()) == (chip.started(chip.changed(task)), Seq::<u8>::empty()),
{
    match task {
        Task::Program { address, data } => {
            lemma_frame_address(Command::PageProgram, address);
            let frame = command_frame(Command::PageProgram, address);
            assert(task.issue() == Exchange::WriteData { frame, data });
            assert(chip.after_write_data(frame, data) == chip.started(
                programmed(chip.memory, frame_address(frame), data),
            ));
        },
        Task::Erase { command, address } => {
            let unit = command.spec_erase_unit() as nat;
            if command.spec_takes_address() {
                lemma_frame_address(command, address);
                let frame = command_frame(command, address);
                assert(task.issue() == Exchange::Write { frame });
                assert(erase_unit_of(frame[0]) == unit);
                assert(address < CAPACITY);
                assert(frame_address(frame) == address);
                assert(chip.after_write(frame) == chip.started(
                    filled(chip.memory, address, unit),
                ));
            } else {
                let frame = bare_frame(command);
                assert(command == Command::ChipErase);
                assert(frame =~= seq![0xC7u8]);
                assert(address == 0);
                assert(task.issue() == Exchange::Write { frame });
                assert(chip.after_write(frame) == chip.started(
                    filled(chip.memory, 0, CAPACITY as nat),
                ));
            }
        },
        _ => {},
    }
}

/// A program or erase against an idle chip that answers within the poll
/// budget is carried out, and the chip is idle again with its latch clear
/// and its memory as the command leaves it. The job then reaches its next
/// task, unless it reads the region back and finds it other than
/// expected: then it ends with a readback fault.
pub proof fn lemma_carried_out(plan: Plan, chip: Chip)
    requires
        plan.wf(),
        !plan.finished(),
        plan.stage == Stage::Enable,
        plan.tasks[0].mutates(),
        chip.wf(),
        chip.idle(),
        plan.policy.spec_budget(plan.tasks[0].command()) > chip.latency,
    ensures
        ({
            let task = plan.tasks[0];
            let after = Chip { memory: chip.changed(task), ..chip.settled() };
            let taken = after.memory.subrange(task.start() as int, task.end() as int)
                == task.expected();
            &&& !plan.verify || taken ==> run(plan, chip) == run(plan.next_task(), after)
            &&& plan.verify && !taken ==> run(plan, chip) == (Outcome {
                plan: plan.halted(),
                chip: after,
                fault: Some(Fault::ReadbackFail),
            })
        }),
{
    let task = plan.tasks[0];
    let memory = chip.changed(task);
    lemma_changed(chip, task);
    lemma_enable(plan, chip);
    let latching = Plan { stage: Stage::Latch, ..plan };
    let enabled = Chip { latch: true, ..chip };
    lemma_latch(latching, enabled);
    let issuing = Plan { stage: Stage::Issue, ..plan };
    lemma_issue(issuing, enabled);
    let polling = Plan {
        stage: Stage::Poll,
        polls: plan.policy.spec_budget(task.command()) as nat,
        ..plan
    };
    assert(enabled.changed(task) == memory);
    let started = enabled.started(memory);
    lemma_poll(polling, started);
    let after = Chip { memory, ..chip.settled() };
    assert(started.settled() == after);
    if plan.verify && task.expected().len() > 0 {
        let verifying = Plan { stage: Stage::Verify, polls: 0, checked: 0, ..plan };
        assert(polling.polled() == verifying);
        assert(after.memory.subrange(task.start() as int, task.start() as int)
            =~= task.expected().take(0));
        lemma_verify(verifying, after);
        assert(verifying.next_task() == plan.next_task());
        assert(verifying.halted() == plan.halted());
    } else {
        assert(polling.polled() == plan.next_task());
        if task.expected().len() == 0 {
            assert(after.memory.subrange(task.start() as int, task.end() as int)
                =~= task.expected());
        }
    }
}

/// A program or erase that takes on an idle chip that answers within the
/// poll budget goes through: the job reaches its next task, the chip is
/// idle again with its latch clear, and its memory is what the command
/// leaves.
pub proof fn lemma_mutate(plan: Plan, chip: Chip)
    requires
        plan.wf(),
        !plan.finished(),
        plan.stage == Stage::Enable,
        plan.tasks[0].mutates(),
        chip.wf(),
        chip.idle(),
        chip.takes(plan.tasks[0]),
        plan.policy.spec_budget(plan.tasks[0].command()) > chip.latency,
    ensures
        run(plan, chip) == run(
            plan.next_task(),
            Chip { memory: chip.changed(plan.tasks[0]), ..chip.settled() },
        ),
{
    lemma_carried_out(plan, chip);
    lemma_taken_changed(chip, plan.tasks[0]);
}

/// A poll whose budget the chip outlasts ends the job with a timeout. The
/// chip goes on with its operation: it is as many status reads closer to
/// idle as the poll took.
pub proof fn lemma_poll_times_out(plan: Plan, chip: Chip)
    requires
        plan.wf(),
        !plan.finished(),
        plan.stage == Stage::Poll,
        plan.polls <= chip.busy,
        chip.wf(),
    ensures
        run(plan, chip) == (Outcome {
            plan: plan.halted(),
            chip: Chip {
                busy: (chip.busy - plan.polls) as nat,
                latch: chip.latch && chip.busy > plan.polls,
                ..chip
            },
            fault: Some(Fault::Timeout),
        }),
    decreases plan.polls,
{
    let answer = chip.respond(status_exchange());
    lemma_status_byte(true, chip.latch);
    assert(answer.1[1] == status_byte(true, chip.latch));
    if plan.polls == 1 {
        assert(plan.fault(answer.1) == Some(Fault::Timeout));
        reveal(run);
    } else {
        lemma_run_step(plan, chip, status_exchange(), answer.1);
        let next = plan.step(answer.1);
        assert(next.halted() == plan.halted());
        lemma_poll_times_out(next, answer.0);
    }
}

/// A program or erase on a chip that stays busy for at least as many
/// status reads as the poll budget allows ends the job with a timeout.
/// The command was sent all the same: the chip carries it out, and is
/// still busy for what is left of its latency.
pub proof fn lemma_times_out(plan: Plan, chip: Chip)
    requires
        plan.wf(),
        !plan.finished(),
        plan.stage == Stage::Enable,
        plan.tasks[0].mutates(),
        chip.wf(),
        chip.idle(),
        plan.policy.spec_budget(plan.tasks[0].command()) <= chip.latency,
    ensures
        run(plan, chip) == (Outcome {
            plan: plan.halted(),
            chip: Chip {
                memory: chip.changed(plan.tasks[0]),
                busy: (chip.latency - plan.policy.spec_budget(plan.tasks[0].command())) as nat,
                latch: chip.latency > plan.policy.spec_budget(plan.tasks[0].command()),
                ..chip
            },
            fault: Some(Fault::Timeout),
        }),
{
    let task = plan.tasks[0];
    let budget = plan.policy.spec_budget(task.command());
    lemma_changed(chip, task);
    lemma_enable(plan, chip);
    let latching = Plan { stage: Stage::Latch, ..plan };
    let enabled = Chip { latch: true, ..chip };
    lemma_latch(latching, enabled);
    let issuing = Plan { stage: Stage::Issue, ..plan };
    let started = enabled.started(chip.changed(task));
    assert(enabled.changed(task) == chip.changed(task));
    if budget == 0 {
        lemma_taken(enabled, task);
        assert(issuing.pending() == Some(task.issue()));
        assert(issuing.fault(Seq::<u8>::empty()) == Some(Fault::Timeout));
        assert(issuing.halted() == plan.halted());
        assert(run(issuing, enabled) == (Outcome {
            plan: issuing.halted(),
            chip: started,
            fault: Some(Fault::Timeout),
        })) by {
            reveal(run);
        }
    } else {
        lemma_issue(issuing, enabled);
        let polling = Plan { stage: Stage::Poll, polls: budget as nat, ..plan };
        assert(polling.halted() == plan.halted());
        lemma_poll_times_out(polling, started);
    }
}

/// What the command of a mutating task leaves in the memory: every byte
/// outside the task's region as it was; in the region, all ones after an
/// erase, and after a program the old bytes with the bits cleared that the
/// data has clear.
pub proof fn lemma_changed(chip: Chip, task: Task)
    requires
        chip.wf(),
        task.wf(),
        task.mutates(),
    ensures
        chip.changed(task).len() == CAPACITY,
        forall|k: int|
            0 <= k < CAPACITY && !(task.start() <= k < task.end()) ==> chip.changed(task)[k]
                == chip.memory[k],
        task matches Task::Program { address, data } ==> chip.changed(task) == cleared(
            chip.memory,
            address,
            data,
        ),
        task is Erase ==> chip.changed(task).subrange(task.start() as int, task.end() as int)
            == task.expected(),
{
    let after = chip.changed(task);
    match task {
        Task::Program { address, data } => {
            let at = address % (CAPACITY as nat);
            assert forall|k: int| 0 <= k < CAPACITY implies after[k] == cleared(
                chip.memory,
                address,
                data,
            )[k] by {
                if address <= k < address + data.len() {
                    assert(at == address);
                    assert((k - address) % 256 == k - address);
                } else if data.len() > 0 {
                    assert(at == address);
                }
            }
            assert(after =~= cleared(chip.memory, address, data));
        },
        Task::Erase { command, address } => {
            assert(after.subrange(task.start() as int, task.end() as int) =~= task.expected());
        },
        _ => {},
    }
}

/// Clearing the bits that the data has clear leaves the data itself
/// exactly where the data can be programmed.
pub proof fn lemma_cleared(memory: Seq<u8>, address: nat, data: Seq<u8>)
    requires
        address + data.len() <= memory.len(),
    ensures
        programmable(memory, address, data) <==> cleared(memory, address, data).subrange(
            address as int,
            (address + data.len()) as int,
        ) == data,
        programmable(memory, address, data) ==> cleared(memory, address, data) == overlaid(
            memory,
            address,
            data,
        ),
{
    let after = cleared(memory, address, data);
    let region = after.subrange(address as int, (address + data.len()) as int);
    if programmable(memory, address, data) {
        assert forall|k: int| 0 <= k < memory.len() implies after[k] == overlaid(
            memory,
            address,
            data,
        )[k] by {
            if address <= k < address + data.len() {
                assert(memory[k] & data[k - address] == data[k - address]);
            }
        }
        assert(after =~= overlaid(memory, address, data));
        assert(region =~= data);
    }
    if region == data {
        assert forall|k: int| address <= k < address + data.len() implies (#[trigger] memory[k])
            & data[k - address] == data[k - address] by {
            assert(region[k - address] == after[k]);
        }
    }
}

/// On a chip on which a mutating task takes, the command of the task
/// leaves the expected bytes in its region.
pub proof fn lemma_taken_changed(chip: Chip, task: Task)
    requires
        chip.wf(),
        task.wf(),
        task.mutates(),
        chip.takes(task),
    ensures
        chip.changed(task).subrange(task.start() as int, task.end() as int) == task.expected(),
        task matches Task::Program { address, data } ==> chip.changed(task) == overlaid(
            chip.memory,
            address,
            data,
        ),
{
    lemma_changed(chip, task);
    if let Task::Program { address, data } = task {
        lemma_cleared(chip.memory, address, data);
    }
}

/// Erased memory can be programmed with any data.
pub proof fn lemma_erased_programmable(memory: Seq<u8>, address: nat, data: Seq<u8>)
    requires
        forall|k: int| address <= k < address + data.len() ==> #[trigger] memory[k] == 0xFFu8,
    ensures
        programmable(memory, address, data),
{
    assert forall|k: int| address <= k < address + data.len() implies (#[trigger] memory[k])
        & data[k - address] == data[k - address] by {
        let byte = data[k - address];
        assert(0xFFu8 & byte == byte) by (bit_vector);
    }
}

/// The page programs of a write, driven against an idle chip that answers
/// within the poll budget. Without readback they all go through, and each
/// clears the bits that its data has clear. With readback they all go
/// through exactly if the data can be programmed over what the memory
/// holds; if not, the job ends with a readback fault.
pub proof fn lemma_run_pages(plan: Plan, chip: Chip, address: nat, data: Seq<u8>)
    requires
        plan.wf(),
        plan.tasks == page_tasks(address, data),
        data.len() > 0 ==> plan.stage == Stage::Enable,
        chip.wf(),
        chip.idle(),
        address + data.len() <= CAPACITY,
        plan.policy.program > chip.latency,
    ensures
        ({
            let out = run(plan, chip);
            &&& out.plan.finished()
            &&& out.chip.wf()
            &&& out.chip.idle()
            &&& out.chip.latency == chip.latency
            &&& out.chip.id == chip.id
            &&& plan.verify ==> (out.fault is None <==> programmable(chip.memory, address, data))
            &&& !plan.verify ==> out.fault is None
            &&& out.fault is Some ==> out.fault == Some(Fault::ReadbackFail)
            &&& out.fault is None ==> out.chip.memory == cleared(chip.memory, address, data)
        }),
    decreases data.len(),
{
    if data.len() == 0 {
        lemma_run_finished(plan, chip);
        assert(cleared(chip.memory, address, data) =~= chip.memory);
    } else {
        lemma_page_tasks_head(address, data);
        let n = chunk_len(address, data.len());
        let task = plan.tasks[0];
        let head = data.take(n as int);
        let tail = data.skip(n as int);
        assert(task == Task::Program { address, data: head });
        lemma_carried_out(plan, chip);
        lemma_changed(chip, task);
        lemma_cleared(chip.memory, address, head);
        plan.lemma_next_task_wf();
        let next = plan.next_task();
        let after = Chip { memory: chip.changed(task), ..chip.settled() };
        let taken = after.memory.subrange(task.start() as int, task.end() as int)
            == task.expected();
        assert(taken <==> programmable(chip.memory, address, head));
        // The data can be programmed exactly if its first page and the rest can.
        assert(programmable(chip.memory, address, data) <==> programmable(
            chip.memory,
            address,
            head,
        ) && programmable(after.memory, address + n, tail)) by {
            if programmable(chip.memory, address, data) {
                assert forall|k: int| address <= k < address + head.len() implies (
                #[trigger] chip.memory[k]) & head[k - address] == head[k - address] by {
                    assert(head[k - address] == data[k - address]);
                }
                assert forall|k: int| address + n <= k < address + n + tail.len() implies (
                #[trigger] after.memory[k]) & tail[k - (address + n)] == tail[k - (address
                    + n)] by {
                    assert(tail[k - (address + n)] == data[k - address]);
                    assert(chip.memory[k] & data[k - address] == data[k - address]);
                }
            }
            if programmable(chip.memory, address, head) && programmable(
                after.memory,
                address + n,
                tail,
            ) {
                assert forall|k: int| address <= k < address + data.len() implies (
                #[trigger] chip.memory[k]) & data[k - address] == data[k - address] by {
                    if k < address + n {
                        assert(head[k - address] == data[k - address]);
                    } else {
                        assert(tail[k - (address + n)] == data[k - address]);
                        assert(after.memory[k] & tail[k - (address + n)] == tail[k - (address
                            + n)]);
                    }
                }
            }
        }
        if plan.verify && !taken {
        } else {
            lemma_run_pages(next, after, address + n, tail);
            assert(cleared(after.memory, address + n, tail) =~= cleared(
                chip.memory,
                address,
                data,
            ));
        }
    }
}

/// What a write does. Driven against an idle chip that answers within the
/// poll budget, a write without readback always succeeds and clears, in
/// the bytes written over, the bits that the data has clear. A write with
/// readback succeeds exactly if that leaves the data itself in place, and
/// ends with a readback fault if not.
pub proof fn lemma_write(chip: Chip, address: nat, data: Seq<u8>, policy: PollPolicy, verify: bool)
    requires
        chip.wf(),
        chip.idle(),
        address + data.len() <= CAPACITY,
        policy.program > chip.latency,
    ensures
        ({
            let out = run(Plan::begin(write_tasks(address, data), policy, verify), chip);
            &&& out.plan.finished()
            &&& out.chip.wf()
            &&& out.chip.idle()
            &&& verify ==> (out.fault is None <==> programmable(chip.memory, address, data))
            &&& !verify ==> out.fault is None
            &&& out.fault is Some ==> out.fault == Some(Fault::ReadbackFail)
            &&& out.fault is None ==> out.chip.memory == cleared(chip.memory, address, data)
            &&& out.fault is None && verify ==> out.chip.memory == overlaid(
                chip.memory,
                address,
                data,
            )
        }),
{
    let plan = Plan::begin(write_tasks(address, data), policy, verify);
    lemma_cleared(chip.memory, address, data);
    if data.len() > 0 {
        lemma_page_tasks_wf(address, data);
        lemma_page_tasks_head(address, data);
        lemma_run_pages(plan, chip, address, data);
    } else {
        let task = Task::Program { address, data };
        assert(plan.tasks[0] == task);
        lemma_carried_out(plan, chip);
        lemma_changed(chip, task);
        assert(plan.next_task().tasks =~= Seq::<Task>::empty());
        let after = Chip { memory: chip.changed(task), ..chip.settled() };
        lemma_run_finished(plan.next_task(), after);
        assert(cleared(chip.memory, address, data) =~= chip.memory);
        assert(after.memory.subrange(task.start() as int, task.end() as int) =~= task.expected());
    }
}

/// Round trip. A write to an idle chip that answers within the poll
/// budget, over bytes in which the data only has to clear bits (erased
/// bytes, for one), succeeds and leaves exactly the data in place; a read
/// of the same range then brings back exactly the written bytes.
pub proof fn lemma_write_then_read(
    chip: Chip,
    address: nat,
    data: Seq<u8>,
    policy: PollPolicy,
    verify: bool,
)
    requires
        chip.wf(),
        chip.idle(),
        address + data.len() <= CAPACITY,
        policy.program > chip.latency,
        programmable(chip.memory, address, data),
    ensures
        ({
            let written = run(Plan::begin(write_tasks(address, data), policy, verify), chip);
            let reading = Plan::begin(
                seq![Task::Read { address, len: data.len() }],
                policy,
                verify,
            );
            let read = run(reading, written.chip);
            &&& written.fault is None
            &&& written.plan.finished()
            &&& written.chip.idle()
            &&& written.chip.memory == overlaid(chip.memory, address, data)
            &&& reading.pending() == Some(read_exchange(address, data.len()))
            &&& written.chip.respond(read_exchange(address, data.len())).1 == data
            &&& read.fault is None
            &&& read.plan.finished()
            &&& read.chip == written.chip
        }),
{
    lemma_write(chip, address, data, policy, verify);
    lemma_cleared(chip.memory, address, data);
    let written = run(Plan::begin(write_tasks(address, data), policy, verify), chip);
    let reading = Plan::begin(seq![Task::Read { address, len: data.len() }], policy, verify);
    lemma_read(written.chip, address, data.len());
    assert(written.chip.memory.subrange(address as int, (address + data.len()) as int) =~= data);
    lemma_run_step(reading, written.chip, read_exchange(address, data.len()), data);
    assert(reading.step(data).tasks =~= Seq::<Task>::empty());
    lemma_run_finished(reading.step(data), written.chip);
}

/// An erase of one unit, driven against an idle chip that answers within
/// the poll budget, succeeds and leaves the unit all ones and every other
/// byte as it was; a read of the unit then brings back all ones.
pub proof fn lemma_erase_then_read(
    chip: Chip,
    command: Command,
    address: nat,
    policy: PollPolicy,
    verify: bool,
)
    requires
        chip.wf(),
        chip.idle(),
        command.spec_erase_unit() > 0,
        address % (command.spec_erase_unit() as nat) == 0,
        address + command.spec_erase_unit() <= CAPACITY,
        policy.spec_budget(command) > chip.latency,
    ensures
        ({
            let unit = command.spec_erase_unit() as nat;
            let erased = run(Plan::begin(seq![Task::Erase { command, address }], policy, verify), chip);
            &&& erased.fault is None
            &&& erased.plan.finished()
            &&& erased.chip.idle()
            &&& erased.chip.memory == filled(chip.memory, address, unit)
            &&& erased.chip.respond(read_exchange(address, unit)).1 == Seq::new(
                unit,
                |i: int| 0xFFu8,
            )
        }),
{
    let unit = command.spec_erase_unit() as nat;
    let task = Task::Erase { command, address };
    let plan = Plan::begin(seq![task], policy, verify);
    assert(plan.tasks[0] == task);
    lemma_mutate(plan, chip);
    lemma_changed(chip, task);
        lemma_taken_changed(chip, task);
    assert(plan.next_task().tasks =~= Seq::<Task>::empty());
    let after = Chip { memory: chip.changed(task), ..chip.settled() };
    lemma_run_finished(plan.next_task(), after);
    lemma_read(after, address, unit);
    assert(after.memory.subrange(address as int, (address + unit) as int) =~= Seq::new(
        unit,
        |i: int| 0xFFu8,
    ));
}

/// The erases of a range, driven against an idle chip that answers within
/// the poll budget, all go through and leave the range all ones and every
/// other byte as it was.
pub proof fn lemma_run_erases(plan: Plan, chip: Chip, command: Command, address: nat, count: nat)
    requires
        plan.wf(),
        plan.tasks == erase_tasks(command, address, count),
        count > 0 ==> plan.stage == Stage::Enable,
        chip.wf(),
        chip.idle(),
        command.spec_erase_unit() > 0,
        address % (command.spec_erase_unit() as nat) == 0,
        address + count * command.spec_erase_unit() <= CAPACITY,
        plan.policy.spec_budget(command) > chip.latency,
    ensures
        run(plan, chip).fault is None,
        run(plan, chip).plan.finished(),
        run(plan, chip).chip.memory == filled(
            chip.memory,
            address,
            count * command.spec_erase_unit() as nat,
        ),
        run(plan, chip).chip.wf(),
        run(plan, chip).chip.idle(),
        run(plan, chip).chip.latency == chip.latency,
        run(plan, chip).chip.id == chip.id,
    decreases count,
{
    let unit = command.spec_erase_unit() as nat;
    if count == 0 {
        lemma_run_finished(plan, chip);
        assert(filled(chip.memory, address, 0) =~= chip.memory);
    } else {
        lemma_erase_tasks_head(command, address, count);
        let task = plan.tasks[0];
        assert(unit + (count - 1) * unit == count * unit) by (nonlinear_arith);
        assert((count - 1) * unit >= 0) by (nonlinear_arith)
            requires
                count >= 1,
        ;
        lemma_mutate(plan, chip);
        lemma_changed(chip, task);
        lemma_taken_changed(chip, task);
        plan.lemma_next_task_wf();
        let after = Chip { memory: chip.changed(task), ..chip.settled() };
        assert((address + unit) % unit == 0) by (nonlinear_arith)
            requires
                address % unit == 0,
                unit > 0,
        ;
        lemma_run_erases(plan.next_task(), after, command, address + unit, (count - 1) as nat);
        assert(filled(after.memory, address + unit, ((count - 1) * unit) as nat) =~= filled(
            chip.memory,
            address,
            count * unit,
        ));
    }
}

/// An erase of the byte range `[start, end)`, driven against an idle chip
/// that answers within the poll budget, succeeds and leaves exactly the
/// bytes of the range all ones; the sector at `end` keeps its contents.
pub proof fn lemma_erase_range(chip: Chip, start: nat, end: nat, policy: PollPolicy, verify: bool)
    requires
        chip.wf(),
        chip.idle(),
        start % 4096 == 0,
        end % 4096 == 0,
        start <= end <= CAPACITY,
        policy.sector_erase > chip.latency,
    ensures
        ({
            let erased = run(
                Plan::begin(
                    erase_tasks(Command::SectorErase, start, ((end - start) / 4096) as nat),
                    policy,
                    verify,
                ),
                chip,
            );
            &&& erased.fault is None
            &&& erased.plan.finished()
            &&& erased.chip.idle()
            &&& erased.chip.memory == filled(chip.memory, start, (end - start) as nat)
        }),
{
    let count = ((end - start) / 4096) as nat;
    let tasks = erase_tasks(Command::SectorErase, start, count);
    let plan = Plan::begin(tasks, policy, verify);
    assert(count * 4096 == end - start);
    assert forall|i: int| 0 <= i < tasks.len() implies (#[trigger] tasks[i]).wf() by {
        lemma_unit_grid(start as int, i, 4096);
    }
    if count > 0 {
        lemma_erase_tasks_head(Command::SectorErase, start, count);
    }
    lemma_run_erases(plan, chip, Command::SectorErase, start, count);
}

/// Idempotence. Erasing a sector that is already erased leaves the memory
/// of the chip as it was, and reading the sector back yields all ones.
pub proof fn lemma_erase_erased_sector(chip: Chip, index: nat, policy: PollPolicy, verify: bool)
    requires
        chip.wf(),
        chip.idle(),
        index < N_SECTORS,
        policy.sector_erase > chip.latency,
        forall|k: int|
            index * 4096 <= k < (index + 1) * 4096 ==> #[trigger] chip.memory[k] == 0xFFu8,
    ensures
        ({
            let erased = run(
                Plan::begin(
                    seq![Task::Erase { command: Command::SectorErase, address: index * 4096 }],
                    policy,
                    verify,
                ),
                chip,
            );
            &&& erased.fault is None
            &&& erased.plan.finished()
            &&& erased.chip.memory == chip.memory
            &&& erased.chip.respond(read_exchange(index * 4096, 4096)).1 == Seq::new(
                4096,
                |i: int| 0xFFu8,
            )
        }),
{
    lemma_erase_then_read(chip, Command::SectorErase, index * 4096, policy, verify);
    assert(filled(chip.memory, index * 4096, 4096) =~= chip.memory);
}

} // verus!
