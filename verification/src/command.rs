//! The opcode table and the frames sent to the chip.

use vstd::prelude::*;
use crate::geometry::{BLOCK_32K_SIZE, BLOCK_64K_SIZE, CAPACITY, SECTOR_SIZE};

verus! {

/// The commands of the chip that the driver uses.
#[derive(Clone, Copy, Debug, PartialEq, Eq, Structural)]
pub enum Command {
    PageProgram,
    ReadData,
    ReadStatusRegister1,
    WriteEnable,
    SectorErase,
    BlockErase32K,
    UniqueId,
    BlockErase64K,
    ChipErase,
    EnableReset,
    Reset,
    PowerDown,
    ReleasePowerDown,
}

impl Command {
    /// The byte that selects the command on the wire.
    pub open spec fn spec_opcode(self) -> u8 {
        match self {
            Command::PageProgram => 0x02,
            Command::ReadData => 0x03,
            Command::ReadStatusRegister1 => 0x05,
            Command::WriteEnable => 0x06,
            Command::SectorErase => 0x20,
            Command::BlockErase32K => 0x52,
            Command::UniqueId => 0x4B,
            Command::BlockErase64K => 0xD8,
            Command::ChipErase => 0xC7,
            Command::EnableReset => 0x66,
            Command::Reset => 0x99,
            Command::PowerDown => 0xB9,
            Command::ReleasePowerDown => 0xAB,
        }
    }

    /// The command is followed by a three-byte address.
    pub open spec fn spec_takes_address(self) -> bool {
        self == Command::PageProgram || self == Command::ReadData || self == Command::SectorErase
            || self == Command::BlockErase32K || self == Command::BlockErase64K
    }

    /// Bytes that the command erases, zero for a command that erases
    /// nothing.
    pub open spec fn spec_erase_unit(self) -> u32 {
        match self {
            Command::SectorErase => SECTOR_SIZE,
            Command::BlockErase32K => BLOCK_32K_SIZE,
            Command::BlockErase64K => BLOCK_64K_SIZE,
            Command::ChipErase => CAPACITY,
            _ => 0,
        }
    }

    #[verifier::when_used_as_spec(spec_erase_unit)]
    pub fn erase_unit(self) -> (n: u32)
        ensures
            n == self.spec_erase_unit(),
    {
        match self {
            Command::SectorErase => SECTOR_SIZE,
            Command::BlockErase32K => BLOCK_32K_SIZE,
            Command::BlockErase64K => BLOCK_64K_SIZE,
            Command::ChipErase => CAPACITY,
            _ => 0,
        }
    }

    #[verifier::when_used_as_spec(spec_opcode)]
    pub fn opcode(self) -> (op: u8)
        ensures
            op == self.spec_opcode(),
    {
        match self {
            Command::PageProgram => 0x02,
            Command::ReadData => 0x03,
            Command::ReadStatusRegister1 => 0x05,
            Command::WriteEnable => 0x06,
            Command::SectorErase => 0x20,
            Command::BlockErase32K => 0x52,
            Command::UniqueId => 0x4B,
            Command::BlockErase64K => 0xD8,
            Command::ChipErase => 0xC7,
            Command::EnableReset => 0x66,
            Command::Reset => 0x99,
            Command::PowerDown => 0xB9,
            Command::ReleasePowerDown => 0xAB,
        }
    }

    #[verifier::when_used_as_spec(spec_takes_address)]
    pub fn takes_address(self) -> (b: bool)
        ensures
            b == self.spec_takes_address(),
    {
        match self {
            Command::PageProgram => true,
            Command::ReadData => true,
            Command::SectorErase => true,
            Command::BlockErase32K => true,
            Command::BlockErase64K => true,
            _ => false,
        }
    }
}

/// The three address bytes of `address` as they go over the wire, most
/// significant first. Bits above the 24th are not sent.
pub open spec fn address_bytes(address: nat) -> Seq<u8> {
    seq![
        ((address / 65536) % 256) as u8,
        ((address / 256) % 256) as u8,
        (address % 256) as u8,
    ]
}

/// The frame of a command without an address: its opcode alone.
pub open spec fn bare_frame(command: Command) -> Seq<u8> {
    seq![command.spec_opcode()]
}

/// The frame of a command with an address: the opcode, then the address,
/// most significant byte first.
pub open spec fn addressed_frame(command: Command, address: nat) -> Seq<u8> {
    seq![command.spec_opcode()] + address_bytes(address)
}

/// The frame of a full-duplex exchange of `len` bytes: the opcode, then
/// zeros that clock the answer out.
pub open spec fn padded_frame(command: Command, len: nat) -> Seq<u8> {
    Seq::new(len, |i: int| if i == 0 { command.spec_opcode() } else { 0u8 })
}

/// The frame that a command takes: with the address where the command has
/// one, the opcode alone where it has none.
pub open spec fn command_frame(command: Command, address: nat) -> Seq<u8> {
    if command.spec_takes_address() {
        addressed_frame(command, address)
    } else {
        bare_frame(command)
    }
}

/// Bytes exchanged to read the status register: the opcode and one byte of
/// answer.
pub const STATUS_FRAME: usize = 2;

/// Bytes exchanged to read the unique id: the opcode, four dummy bytes and
/// the eight bytes of the id.
pub const ID_FRAME: usize = 13;

/// The busy flag of a status byte: an operation is in progress.
pub open spec fn spec_busy(status: u8) -> bool {
    status & 0x01 != 0
}

/// The write-enable latch of a status byte.
pub open spec fn spec_write_enabled(status: u8) -> bool {
    status & 0x02 != 0
}

/// Tells whether the chip reports an operation in progress.
#[verifier::when_used_as_spec(spec_busy)]
pub fn busy(status: u8) -> (b: bool)
    ensures
        b == spec_busy(status),
{
    status & 0x01 != 0
}

/// Tells whether the chip reports its write-enable latch set.
#[verifier::when_used_as_spec(spec_write_enabled)]
pub fn write_enabled(status: u8) -> (b: bool)
    ensures
        b == spec_write_enabled(status),
{
    status & 0x02 != 0
}

/// The bytes of one command as sent to the chip.
#[derive(Clone, Copy, Debug)]
pub struct Frame {
    bytes: [u8; 13],
    len: usize,
}

impl View for Frame {
    type V = Seq<u8>;

    closed spec fn view(&self) -> Seq<u8> {
        self.bytes@.take(self.len as int)
    }
}

impl Frame {
    #[verifier::type_invariant]
    spec fn well_formed(&self) -> bool {
        self.len <= 13
    }

    /// Encodes a command that has no address.
    pub fn bare(command: Command) -> (f: Frame)
        ensures
            f@ == bare_frame(command),
    {
        let op = command.opcode();
        let f = Frame { bytes: [op, 0, 0, 0, 0, 0, 0, 0, 0, 0, 0, 0, 0], len: 1 };
        assert(f@ =~= bare_frame(command));
        f
    }

    /// Encodes a command with its address, most significant byte first.
    pub fn addressed(command: Command, address: u32) -> (f: Frame)
        ensures
            f@ == addressed_frame(command, address as nat),
    {
        let hi: u8 = ((address >> 16) & 0xFF) as u8;
        let mid: u8 = ((address >> 8) & 0xFF) as u8;
        let lo: u8 = (address & 0xFF) as u8;
        assert(((address >> 16) & 0xFF) == (address / 65536) % 256
            && ((address >> 8) & 0xFF) == (address / 256) % 256
            && (address & 0xFF) == address % 256) by (bit_vector);
        let op = command.opcode();
        let f = Frame { bytes: [op, hi, mid, lo, 0, 0, 0, 0, 0, 0, 0, 0, 0], len: 4 };
        assert(f@ =~= addressed_frame(command, address as nat));
        f
    }

    /// Encodes a command as it takes it: with `address` where the command
    /// has an address, alone where it has none.
    pub fn command(command: Command, address: u32) -> (f: Frame)
        ensures
            f@ == command_frame(command, address as nat),
    {
        if command.takes_address() {
            Frame::addressed(command, address)
        } else {
            Frame::bare(command)
        }
    }

    /// The exchange that reads the status register.
    pub fn status() -> (f: Frame)
        ensures
            f@ == padded_frame(Command::ReadStatusRegister1, STATUS_FRAME as nat),
    {
        let op = Command::ReadStatusRegister1.opcode();
        let f = Frame { bytes: [op, 0, 0, 0, 0, 0, 0, 0, 0, 0, 0, 0, 0], len: STATUS_FRAME };
        assert(f@ =~= padded_frame(Command::ReadStatusRegister1, STATUS_FRAME as nat));
        f
    }

    /// The exchange that reads the unique id.
    pub fn unique_id() -> (f: Frame)
        ensures
            f@ == padded_frame(Command::UniqueId, ID_FRAME as nat),
    {
        let op = Command::UniqueId.opcode();
        let f = Frame { bytes: [op, 0, 0, 0, 0, 0, 0, 0, 0, 0, 0, 0, 0], len: ID_FRAME };
        assert(f@ =~= padded_frame(Command::UniqueId, ID_FRAME as nat));
        f
    }

    /// Number of bytes in the frame.
    pub fn len(&self) -> (n: usize)
        ensures
            n == self@.len(),
    {
        proof {
            use_type_invariant(self);
        }
        self.len
    }

    /// The bytes of the frame, in the order they are sent.
    pub fn as_slice(&self) -> (s: &[u8])
        ensures
            s@ == self@,
    {
        proof {
            use_type_invariant(self);
        }
        vstd::slice::slice_subrange(self.bytes.as_slice(), 0, self.len)
    }
}

} // verus!
