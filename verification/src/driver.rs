//! The device handle and the operations it offers.

use vstd::prelude::*;
use crate::command::{address_bytes, Command};
use crate::error::Fault;
use crate::geometry::{
    check_bounds, check_erase_range, check_page, erase_range_fault, fits_page, in_bounds,
    lemma_geometry, BLOCK_32K_SIZE, BLOCK_64K_SIZE, CAPACITY, N_BLOCKS_32K, N_BLOCKS_64K,
    N_SECTORS, SECTOR_SIZE,
};
use crate::job::Job;
use crate::plan::{Exchange, Plan, PollPolicy, Task};
use crate::tasks::{erase_tasks, lemma_single_page, lemma_unit_grid, write_tasks};

verus! {

/// The operation was taken up, as a job that begins with `plan`.
pub open spec fn begun<'a>(r: Result<Job<'a>, Fault>, plan: Plan) -> bool {
    r matches Ok(job) && job@ == plan
}

/// The operation was refused with `fault`.
pub open spec fn refused<'a>(r: Result<Job<'a>, Fault>, fault: Fault) -> bool {
    r matches Err(f) && f == fault
}

/// Handle of one W25Q32JV chip.
///
/// The handle owns the bus channel to the chip and the two control lines,
/// hold and write-protect, and keeps how patiently jobs poll and whether
/// they read back what they changed. It caches nothing of the chip's state.
/// Each operation yields a [`Job`]; whoever drives the bus carries out the
/// exchanges that the job asks for.
pub struct W25q32jv<SPI, HOLD, WP> {
    spi: SPI,
    hold: HOLD,
    wp: WP,
    policy: PollPolicy,
    readback: bool,
}

impl<SPI, HOLD, WP> W25q32jv<SPI, HOLD, WP> {
    /// The bus channel that the handle owns.
    pub closed spec fn spi(&self) -> SPI {
        self.spi
    }

    /// The hold line that the handle owns.
    pub closed spec fn hold(&self) -> HOLD {
        self.hold
    }

    /// The write-protect line that the handle owns.
    pub closed spec fn wp(&self) -> WP {
        self.wp
    }

    /// The poll budgets that jobs of this handle get.
    pub closed spec fn policy(&self) -> PollPolicy {
        self.policy
    }

    /// Whether jobs of this handle read back what they changed.
    pub closed spec fn readback(&self) -> bool {
        self.readback
    }

    /// The plan with which a job of this handle begins `tasks`.
    pub open spec fn begins(&self, tasks: Seq<Task>) -> Plan {
        Plan::begin(tasks, self.policy(), self.readback())
    }

    /// Number of bytes on the chip.
    pub fn capacity() -> (bytes: usize)
        ensures
            bytes == 4_194_304,
            bytes == CAPACITY,
    {
        CAPACITY as usize
    }

    /// Takes ownership of the bus channel and of the two control lines,
    /// which the caller has driven high. Jobs poll with the default policy
    /// and do not read back.
    pub fn new(spi: SPI, hold: HOLD, wp: WP) -> (flash: Self)
        ensures
            flash.spi() == spi,
            flash.hold() == hold,
            flash.wp() == wp,
            flash.policy() == (PollPolicy {
                program: u32::MAX,
                sector_erase: u32::MAX,
                block_erase: u32::MAX,
                chip_erase: u32::MAX,
            }),
            !flash.readback(),
    {
        W25q32jv { spi, hold, wp, policy: PollPolicy::default(), readback: false }
    }

    /// Sets the poll budgets of the jobs begun from now on.
    pub fn set_poll_policy(&mut self, policy: PollPolicy)
        ensures
            final(self).policy() == policy,
            final(self).readback() == old(self).readback(),
            final(self).spi() == old(self).spi(),
            final(self).hold() == old(self).hold(),
            final(self).wp() == old(self).wp(),
    {
        self.policy = policy;
    }

    /// Sets whether the jobs begun from now on read back what they changed.
    pub fn set_readback(&mut self, readback: bool)
        ensures
            final(self).readback() == readback,
            final(self).policy() == old(self).policy(),
            final(self).spi() == old(self).spi(),
            final(self).hold() == old(self).hold(),
            final(self).wp() == old(self).wp(),
    {
        self.readback = readback;
    }

    /// The bus channel, for whoever carries out the exchanges.
    pub fn bus(&mut self) -> (bus: &mut SPI)
        ensures
            *bus == old(self).spi(),
            final(self).spi() == *final(bus),
            final(self).hold() == old(self).hold(),
            final(self).wp() == old(self).wp(),
            final(self).policy() == old(self).policy(),
            final(self).readback() == old(self).readback(),
    {
        &mut self.spi
    }

    /// Gives the bus channel and the control lines back.
    pub fn release(self) -> (parts: (SPI, HOLD, WP))
        ensures
            parts == (self.spi(), self.hold(), self.wp()),
    {
        (self.spi, self.hold, self.wp)
    }

    /// Reads the unique id of the chip: one exchange of thirteen bytes, of
    /// which the last eight are the id.
    pub fn device_id(&self) -> (job: Job<'static>)
        ensures
            job@ == self.begins(seq![Task::Identify]),
    {
        Job::identify(self.policy, self.readback)
    }

    /// Resets the chip: the enable-reset command, then the reset command,
    /// each an exchange of its own.
    pub fn reset(&self) -> (job: Job<'static>)
        ensures
            job@ == self.begins(
                seq![
                    Task::Plain { command: Command::EnableReset },
                    Task::Plain { command: Command::Reset },
                ],
            ),
    {
        Job::plain(Command::EnableReset, Some(Command::Reset), self.policy, self.readback)
    }

    /// Reads `len` bytes from `address` on, in one exchange.
    ///
    /// Fails as out of bounds exactly if the range leaves the chip.
    pub fn read(&self, address: u32, len: usize) -> (r: Result<Job<'static>, Fault>)
        ensures
            in_bounds(address, len as nat) ==> begun(r, self.begins(
                seq![Task::Read { address: address as nat, len: len as nat }],
            )),
            !in_bounds(address, len as nat) ==> refused(r, Fault::OutOfBounds),
    {
        match check_bounds(address, len) {
            Ok(()) => Ok(Job::read(address, len, self.policy, self.readback)),
            Err(fault) => Err(fault),
        }
    }

    /// Writes `data` at `address`, split into page programs none of which
    /// crosses a page boundary.
    ///
    /// Fails as out of bounds exactly if the range leaves the chip.
    pub fn write<'a>(&self, address: u32, data: &'a [u8]) -> (r: Result<Job<'a>, Fault>)
        ensures
            in_bounds(address, data@.len()) ==> begun(r, self.begins(
                write_tasks(address as nat, data@),
            )),
            !in_bounds(address, data@.len()) ==> refused(r, Fault::OutOfBounds),
    {
        match check_bounds(address, data.len()) {
            Ok(()) => Ok(Job::program(address, data, self.policy, self.readback)),
            Err(fault) => Err(fault),
        }
    }

    /// Programs `data` at `address` with a single page program.
    ///
    /// Fails as out of bounds exactly if the program would wrap within its
    /// page or leave the chip.
    pub fn write_page<'a>(&self, address: u32, data: &'a [u8]) -> (r: Result<Job<'a>, Fault>)
        ensures
            fits_page(address as nat, data@.len()) && in_bounds(address, data@.len()) ==> begun(
                r,
                self.begins(seq![Task::Program { address: address as nat, data: data@ }]),
            ),
            !(fits_page(address as nat, data@.len()) && in_bounds(address, data@.len()))
                ==> refused(r, Fault::OutOfBounds),
    {
        match check_page(address, data.len()) {
            Ok(()) => {},
            Err(fault) => {
                return Err(fault);
            },
        }
        match check_bounds(address, data.len()) {
            Ok(()) => {},
            Err(fault) => {
                return Err(fault);
            },
        }
        proof {
            lemma_single_page(address as nat, data@);
        }
        Ok(Job::program(address, data, self.policy, self.readback))
    }

    /// Erases the sectors of the byte range `[start, end)`, one after the
    /// other; the sector at `end` is not erased.
    ///
    /// Fails as not aligned if a bound is off the sector grid, else as out
    /// of bounds if the range is inverted or leaves the chip.
    pub fn erase_range(&self, start: u32, end: u32) -> (r: Result<Job<'static>, Fault>)
        ensures
            match erase_range_fault(start, end) {
                Some(fault) => refused(r, fault),
                None => begun(r, self.begins(
                    erase_tasks(
                        Command::SectorErase,
                        start as nat,
                        ((end - start) / SECTOR_SIZE as int) as nat,
                    ),
                )),
            },
    {
        match check_erase_range(start, end) {
            Ok((first, count)) => {
                assert(start + count * SECTOR_SIZE <= CAPACITY) by (nonlinear_arith)
                    requires
                        start % SECTOR_SIZE == 0,
                        end % SECTOR_SIZE == 0,
                        start <= end <= CAPACITY,
                        count == (end - start) / SECTOR_SIZE as int,
                        SECTOR_SIZE == 4096,
                ;
                Ok(Job::erase(Command::SectorErase, start, count, self.policy, self.readback))
            },
            Err(fault) => Err(fault),
        }
    }

    /// Erases the sector `index`, the 4096 bytes from `index * 4096` on.
    ///
    /// Fails as out of bounds exactly if the chip has no such sector.
    pub fn erase_sector(&self, index: u32) -> (r: Result<Job<'static>, Fault>)
        ensures
            index < N_SECTORS ==> begun(r, self.begins(
                seq![
                    Task::Erase {
                        command: Command::SectorErase,
                        address: (index * SECTOR_SIZE) as nat,
                    },
                ],
            )),
            index >= N_SECTORS ==> refused(r, Fault::OutOfBounds),
    {
        proof {
            lemma_geometry();
        }
        self.erase_unit(Command::SectorErase, index)
    }

    /// Erases the 32 KiB block `index`, the 32768 bytes from
    /// `index * 32768` on.
    ///
    /// Fails as out of bounds exactly if the chip has no such block.
    pub fn erase_block_32k(&self, index: u32) -> (r: Result<Job<'static>, Fault>)
        ensures
            index < N_BLOCKS_32K ==> begun(r, self.begins(
                seq![
                    Task::Erase {
                        command: Command::BlockErase32K,
                        address: (index * BLOCK_32K_SIZE) as nat,
                    },
                ],
            )),
            index >= N_BLOCKS_32K ==> refused(r, Fault::OutOfBounds),
    {
        proof {
            lemma_geometry();
        }
        self.erase_unit(Command::BlockErase32K, index)
    }

    /// Erases the 64 KiB block `index`, the 65536 bytes from
    /// `index * 65536` on.
    ///
    /// Fails as out of bounds exactly if the chip has no such block.
    pub fn erase_block_64k(&self, index: u32) -> (r: Result<Job<'static>, Fault>)
        ensures
            index < N_BLOCKS_64K ==> begun(r, self.begins(
                seq![
                    Task::Erase {
                        command: Command::BlockErase64K,
                        address: (index * BLOCK_64K_SIZE) as nat,
                    },
                ],
            )),
            index >= N_BLOCKS_64K ==> refused(r, Fault::OutOfBounds),
    {
        proof {
            lemma_geometry();
        }
        self.erase_unit(Command::BlockErase64K, index)
    }

    /// Erases the whole chip with one command, which takes no address.
    pub fn erase_chip(&self) -> (job: Job<'static>)
        ensures
            job@ == self.begins(seq![Task::Erase { command: Command::ChipErase, address: 0 }]),
    {
        assert(erase_tasks(Command::ChipErase, 0, 1) =~= seq![
            Task::Erase { command: Command::ChipErase, address: 0 },
        ]);
        Job::erase(Command::ChipErase, 0, 1, self.policy, self.readback)
    }

    /// Puts the chip into power down mode, in which it takes no command
    /// but the release from it.
    pub fn enable_power_down_mode(&self) -> (job: Job<'static>)
        ensures
            job@ == self.begins(seq![Task::Plain { command: Command::PowerDown }]),
    {
        Job::plain(Command::PowerDown, None, self.policy, self.readback)
    }

    /// Releases the chip from power down mode.
    pub fn disable_power_down_mode(&self) -> (job: Job<'static>)
        ensures
            job@ == self.begins(seq![Task::Plain { command: Command::ReleasePowerDown }]),
    {
        Job::plain(Command::ReleasePowerDown, None, self.policy, self.readback)
    }

    /// Erases the unit `index` of an erase command that takes an address.
    fn erase_unit(&self, command: Command, index: u32) -> (r: Result<Job<'static>, Fault>)
        requires
            command == Command::SectorErase || command == Command::BlockErase32K || command
                == Command::BlockErase64K,
        ensures
            index < CAPACITY / command.spec_erase_unit() ==> begun(r, self.begins(
                seq![Task::Erase { command, address: (index * command.spec_erase_unit()) as nat }],
            )),
            index >= CAPACITY / command.spec_erase_unit() ==> refused(r, Fault::OutOfBounds),
    {
        let unit = command.erase_unit();
        if index >= CAPACITY / unit {
            return Err(Fault::OutOfBounds);
        }
        assert(index * unit + unit <= CAPACITY) by (nonlinear_arith)
            requires
                index < CAPACITY / unit,
                unit > 0,
                CAPACITY % unit == 0,
        ;
        let address: u32 = index * unit;
        proof {
            lemma_unit_grid(0, index as int, unit as int);
        }
        assert(erase_tasks(command, address as nat, 1) =~= seq![
            Task::Erase { command, address: address as nat },
        ]);
        Ok(Job::erase(command, address, 1, self.policy, self.readback))
    }
}

/// Erasing sector `index` changes the 4096 bytes from `index * 4096` on
/// and no others, with the sector-erase opcode and that address on the
/// wire.
pub proof fn lemma_erase_sector_region(index: nat)
    requires
        index < N_SECTORS,
    ensures
        ({
            let task = Task::Erase { command: Command::SectorErase, address: index * 4096 };
            &&& task.wf()
            &&& task.start() == index * 4096
            &&& task.end() == (index + 1) * 4096
            &&& task.issue() == Exchange::Write {
                frame: seq![0x20u8] + address_bytes(index * 4096),
            }
        }),
{
}

/// Reading the unique id is one exchange of thirteen bytes that begins
/// with the opcode `0x4B`; the id is the last eight bytes of the answer.
pub proof fn lemma_identify(policy: PollPolicy, verify: bool, reply: Seq<u8>)
    requires
        reply.len() == 13,
    ensures
        ({
            let plan = Plan::begin(seq![Task::Identify], policy, verify);
            &&& plan.wf()
            &&& plan.pending() matches Some(Exchange::Transfer { frame })
            &&& frame.len() == 13
            &&& frame[0] == 0x4Bu8
            &&& plan.accepts(reply)
            &&& plan.fault(reply) is None
            &&& plan.step(reply).finished()
            &&& plan.step(reply).id == Some(reply.subrange(5, 13))
        }),
{
}

/// A reset is two exchanges, first the enable-reset opcode alone, then the
/// reset opcode alone, and nothing else.
pub proof fn lemma_reset(policy: PollPolicy, verify: bool)
    ensures
        ({
            let plan = Plan::begin(
                seq![
                    Task::Plain { command: Command::EnableReset },
                    Task::Plain { command: Command::Reset },
                ],
                policy,
                verify,
            );
            let armed = plan.step(Seq::empty());
            &&& plan.wf()
            &&& plan.pending() == Some(Exchange::Write { frame: seq![0x66u8] })
            &&& plan.accepts(Seq::empty())
            &&& plan.fault(Seq::empty()) is None
            &&& armed.pending() == Some(Exchange::Write { frame: seq![0x99u8] })
            &&& armed.accepts(Seq::empty())
            &&& armed.fault(Seq::empty()) is None
            &&& armed.step(Seq::empty()).finished()
        }),
{
    let plan = Plan::begin(
        seq![
            Task::Plain { command: Command::EnableReset },
            Task::Plain { command: Command::Reset },
        ],
        policy,
        verify,
    );
    assert(plan.tasks.drop_first() =~= seq![Task::Plain { command: Command::Reset }]);
    assert(plan.step(Seq::empty()).tasks.drop_first() =~= Seq::<Task>::empty());
}

} // verus!
