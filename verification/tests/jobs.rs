use w25q32jv::{Fault, Job, PollPolicy, Request, W25q32jv};

/// One exchange as the simulated chip saw it.
#[derive(Debug, Clone, PartialEq, Eq)]
enum Seen {
    Write(Vec<u8>),
    WriteData(Vec<u8>, Vec<u8>),
    Read(Vec<u8>, usize),
    Transfer(Vec<u8>),
}

/// A chip that behaves as the data sheet says, with switches to misbehave.
struct Chip {
    memory: Vec<u8>,
    latch: bool,
    busy: u32,
    latency: u32,
    id: [u8; 8],
    deaf_to_enable: bool,
    stuck_bits: u8,
    seen: Vec<Seen>,
}

impl Chip {
    fn erased() -> Chip {
        Chip {
            memory: vec![0xFF; 4_194_304],
            latch: false,
            busy: 0,
            latency: 0,
            id: [0xE4, 0x68, 0x21, 0x10, 0x33, 0x44, 0x55, 0x66],
            deaf_to_enable: false,
            stuck_bits: 0,
            seen: Vec::new(),
        }
    }

    fn filled(byte: u8) -> Chip {
        let mut chip = Chip::erased();
        chip.memory = vec![byte; 4_194_304];
        chip
    }

    fn address(frame: &[u8]) -> usize {
        ((frame[1] as usize) << 16) | ((frame[2] as usize) << 8) | frame[3] as usize
    }

    fn start(&mut self) {
        self.busy = self.latency;
        self.latch = self.latency > 0;
    }

    fn erase(&mut self, frame: &[u8], unit: usize) {
        if self.latch && self.busy == 0 {
            let base = Chip::address(frame) / unit * unit;
            for byte in &mut self.memory[base..base + unit] {
                *byte = 0xFF;
            }
            self.start();
        }
    }

    fn perform(&mut self, request: &Request) -> Vec<u8> {
        match request {
            Request::Write { frame } => {
                let frame = frame.as_slice();
                self.seen.push(Seen::Write(frame.to_vec()));
                match frame[0] {
                    0x06 => {
                        if self.busy == 0 && !self.deaf_to_enable {
                            self.latch = true;
                        }
                    }
                    0x20 => self.erase(frame, 4096),
                    0x52 => self.erase(frame, 32768),
                    0xD8 => self.erase(frame, 65536),
                    0xC7 => {
                        if self.latch && self.busy == 0 {
                            for byte in &mut self.memory {
                                *byte = 0xFF;
                            }
                            self.start();
                        }
                    }
                    _ => {}
                }
                Vec::new()
            }
            Request::WriteData { frame, data } => {
                let frame = frame.as_slice();
                self.seen.push(Seen::WriteData(frame.to_vec(), data.to_vec()));
                if frame[0] == 0x02 && self.latch && self.busy == 0 {
                    let address = Chip::address(frame);
                    let page = address / 256 * 256;
                    for (i, byte) in data.iter().enumerate() {
                        let at = page + (address % 256 + i) % 256;
                        self.memory[at] &= *byte | self.stuck_bits;
                    }
                    self.start();
                }
                Vec::new()
            }
            Request::Read { frame, len } => {
                let frame = frame.as_slice();
                self.seen.push(Seen::Read(frame.to_vec(), *len));
                let address = Chip::address(frame);
                (0..*len).map(|i| self.memory[(address + i) % 4_194_304]).collect()
            }
            Request::Transfer { frame } => {
                let frame = frame.as_slice();
                self.seen.push(Seen::Transfer(frame.to_vec()));
                let mut reply = vec![0u8; frame.len()];
                match frame[0] {
                    0x05 => {
                        let status = (self.busy > 0) as u8 | ((self.latch as u8) << 1);
                        for byte in &mut reply[1..] {
                            *byte = status;
                        }
                        if self.busy > 0 {
                            self.busy -= 1;
                            self.latch = self.latch && self.busy > 0;
                        }
                    }
                    0x4B => reply[5..13].copy_from_slice(&self.id),
                    _ => {}
                }
                reply
            }
        }
    }

    /// Carries out the exchanges of a job until it is finished or fails.
    /// Returns the answer to the last exchange.
    fn run(&mut self, job: &mut Job) -> Result<Vec<u8>, Fault> {
        let mut last = Vec::new();
        while let Some(request) = job.request() {
            let reply = self.perform(&request);
            assert_eq!(reply.len(), request.reply_len());
            job.advance(&reply)?;
            last = reply;
        }
        assert!(job.is_finished());
        Ok(last)
    }

    fn programs(&self) -> Vec<(Vec<u8>, usize)> {
        self.seen
            .iter()
            .filter_map(|seen| match seen {
                Seen::WriteData(frame, data) => Some((frame.clone(), data.len())),
                _ => None,
            })
            .collect()
    }
}

fn flash() -> W25q32jv<(), (), ()> {
    W25q32jv::new((), (), ())
}

fn checking_flash() -> W25q32jv<(), (), ()> {
    let mut flash = flash();
    flash.set_readback(true);
    flash
}

fn pattern(len: usize) -> Vec<u8> {
    (0..len).map(|i| (i * 7 + 3) as u8).collect()
}

const ENABLE: [u8; 1] = [0x06];
const STATUS: [u8; 2] = [0x05, 0x00];

#[test]
fn read_passes_the_bounds_check_up_to_the_capacity() {
    let flash = flash();
    assert!(flash.read(0, 4_194_304).is_ok());
    assert!(flash.read(4_194_304, 0).is_ok());
    assert!(flash.read(4_194_303, 1).is_ok());
    assert_eq!(flash.read(4_194_303, 2).unwrap_err(), Fault::OutOfBounds);
    assert_eq!(flash.read(4_194_304, 1).unwrap_err(), Fault::OutOfBounds);
    assert_eq!(flash.read(u32::MAX, 1).unwrap_err(), Fault::OutOfBounds);
}

#[test]
fn write_passes_the_bounds_check_up_to_the_capacity() {
    let flash = flash();
    let data = vec![0u8; 4096];
    assert!(flash.write(4_194_304 - 4096, &data).is_ok());
    assert!(flash.write(4_194_304, &[]).is_ok());
    assert_eq!(flash.write(4_194_304 - 4095, &data).unwrap_err(), Fault::OutOfBounds);
    assert_eq!(flash.write(4_194_304, &[1]).unwrap_err(), Fault::OutOfBounds);
    assert_eq!(flash.write(u32::MAX, &data).unwrap_err(), Fault::OutOfBounds);
}

#[test]
fn a_refused_operation_asks_nothing_of_the_bus() {
    let flash = flash();
    assert_eq!(flash.erase_range(1, 4096).unwrap_err(), Fault::NotAligned);
    assert_eq!(flash.erase_range(0, 100).unwrap_err(), Fault::NotAligned);
    assert_eq!(flash.erase_range(4097, 4096).unwrap_err(), Fault::NotAligned);
    assert_eq!(flash.erase_range(8192, 4096).unwrap_err(), Fault::OutOfBounds);
    assert_eq!(flash.erase_range(0, 4_194_304 + 4096).unwrap_err(), Fault::OutOfBounds);
    assert_eq!(flash.erase_sector(1024).unwrap_err(), Fault::OutOfBounds);
    assert_eq!(flash.erase_block_32k(128).unwrap_err(), Fault::OutOfBounds);
    assert_eq!(flash.erase_block_64k(64).unwrap_err(), Fault::OutOfBounds);
    assert_eq!(flash.write_page(100, &[0u8; 157]).unwrap_err(), Fault::OutOfBounds);
    assert_eq!(flash.write_page(4_194_304, &[0u8; 1]).unwrap_err(), Fault::OutOfBounds);
}

#[test]
fn read_is_one_exchange_with_the_address_most_significant_byte_first() {
    let mut chip = Chip::erased();
    chip.memory[0x12_3456] = 0xA5;
    chip.memory[0x12_3457] = 0x5A;
    let mut job = flash().read(0x12_3456, 2).unwrap();
    assert_eq!(chip.run(&mut job).unwrap(), vec![0xA5, 0x5A]);
    assert_eq!(chip.seen, vec![Seen::Read(vec![0x03, 0x12, 0x34, 0x56], 2)]);
}

#[test]
fn write_300_bytes_at_offset_100_is_two_page_programs() {
    let mut chip = Chip::erased();
    let data = pattern(300);
    let mut job = flash().write(100, &data).unwrap();
    chip.run(&mut job).unwrap();
    assert_eq!(
        chip.programs(),
        vec![(vec![0x02, 0x00, 0x00, 0x64], 156), (vec![0x02, 0x00, 0x01, 0x00], 144)]
    );
    assert_eq!(
        chip.seen,
        vec![
            Seen::Write(ENABLE.to_vec()),
            Seen::Transfer(STATUS.to_vec()),
            Seen::WriteData(vec![0x02, 0x00, 0x00, 0x64], data[..156].to_vec()),
            Seen::Transfer(STATUS.to_vec()),
            Seen::Write(ENABLE.to_vec()),
            Seen::Transfer(STATUS.to_vec()),
            Seen::WriteData(vec![0x02, 0x00, 0x01, 0x00], data[156..].to_vec()),
            Seen::Transfer(STATUS.to_vec()),
        ]
    );
    assert_eq!(&chip.memory[100..400], &data[..]);
    assert_eq!(chip.memory[99], 0xFF);
    assert_eq!(chip.memory[400], 0xFF);
}

#[test]
fn no_page_program_crosses_a_page_boundary() {
    let mut chip = Chip::erased();
    let data = pattern(1000);
    let mut job = flash().write(0x1F_FF10, &data).unwrap();
    chip.run(&mut job).unwrap();
    let programs = chip.programs();
    assert_eq!(programs.len(), 4);
    let mut next = 0x1F_FF10usize;
    for (frame, len) in &programs {
        assert_eq!(Chip::address(frame), next);
        assert!(next % 256 + len <= 256);
        next += len;
    }
    assert_eq!(next, 0x1F_FF10 + 1000);
    assert_eq!(programs.iter().map(|p| p.1).collect::<Vec<_>>(), vec![240, 256, 256, 248]);
}

#[test]
fn an_aligned_write_of_whole_pages_uses_whole_pages() {
    let mut chip = Chip::erased();
    let data = pattern(512);
    let mut job = flash().write(4096, &data).unwrap();
    chip.run(&mut job).unwrap();
    assert_eq!(
        chip.programs(),
        vec![(vec![0x02, 0x00, 0x10, 0x00], 256), (vec![0x02, 0x00, 0x11, 0x00], 256)]
    );
}

#[test]
fn a_write_of_nothing_is_one_empty_page_program() {
    let mut chip = Chip::erased();
    let mut job = flash().write(300, &[]).unwrap();
    chip.run(&mut job).unwrap();
    assert_eq!(
        chip.seen,
        vec![
            Seen::Write(ENABLE.to_vec()),
            Seen::Transfer(STATUS.to_vec()),
            Seen::WriteData(vec![0x02, 0x00, 0x01, 0x2C], vec![]),
            Seen::Transfer(STATUS.to_vec()),
        ]
    );
}

#[test]
fn write_page_is_a_single_page_program() {
    let mut chip = Chip::erased();
    let data = pattern(156);
    let mut job = flash().write_page(100, &data).unwrap();
    chip.run(&mut job).unwrap();
    assert_eq!(chip.programs(), vec![(vec![0x02, 0x00, 0x00, 0x64], 156)]);
    assert_eq!(&chip.memory[100..256], &data[..]);
}

#[test]
fn erase_sector_targets_exactly_its_4096_bytes() {
    let mut chip = Chip::filled(0x00);
    let mut job = flash().erase_sector(3).unwrap();
    chip.run(&mut job).unwrap();
    assert_eq!(
        chip.seen,
        vec![
            Seen::Write(ENABLE.to_vec()),
            Seen::Transfer(STATUS.to_vec()),
            Seen::Write(vec![0x20, 0x00, 0x30, 0x00]),
            Seen::Transfer(STATUS.to_vec()),
        ]
    );
    assert!(chip.memory[3 * 4096..4 * 4096].iter().all(|b| *b == 0xFF));
    assert!(chip.memory[..3 * 4096].iter().all(|b| *b == 0x00));
    assert!(chip.memory[4 * 4096..].iter().all(|b| *b == 0x00));
}

#[test]
fn erase_of_the_last_sector() {
    let mut chip = Chip::filled(0x00);
    let mut job = flash().erase_sector(1023).unwrap();
    chip.run(&mut job).unwrap();
    assert_eq!(chip.seen[2], Seen::Write(vec![0x20, 0x3F, 0xF0, 0x00]));
    assert!(chip.memory[1023 * 4096..].iter().all(|b| *b == 0xFF));
    assert!(chip.memory[..1023 * 4096].iter().all(|b| *b == 0x00));
}

#[test]
fn erase_blocks_target_their_units() {
    let mut chip = Chip::filled(0x00);
    let mut job = flash().erase_block_32k(2).unwrap();
    chip.run(&mut job).unwrap();
    assert_eq!(chip.seen[2], Seen::Write(vec![0x52, 0x01, 0x00, 0x00]));
    assert!(chip.memory[65536..98304].iter().all(|b| *b == 0xFF));
    assert_eq!(chip.memory[65535], 0x00);
    assert_eq!(chip.memory[98304], 0x00);

    let mut chip = Chip::filled(0x00);
    let mut job = flash().erase_block_64k(63).unwrap();
    chip.run(&mut job).unwrap();
    assert_eq!(chip.seen[2], Seen::Write(vec![0xD8, 0x3F, 0x00, 0x00]));
    assert!(chip.memory[63 * 65536..].iter().all(|b| *b == 0xFF));
    assert_eq!(chip.memory[63 * 65536 - 1], 0x00);
}

#[test]
fn erase_chip_sends_the_opcode_alone() {
    let mut chip = Chip::filled(0x12);
    let mut job = flash().erase_chip();
    chip.run(&mut job).unwrap();
    assert_eq!(
        chip.seen,
        vec![
            Seen::Write(ENABLE.to_vec()),
            Seen::Transfer(STATUS.to_vec()),
            Seen::Write(vec![0xC7]),
            Seen::Transfer(STATUS.to_vec()),
        ]
    );
    assert!(chip.memory.iter().all(|b| *b == 0xFF));
}

#[test]
fn erase_range_erases_each_sector_and_leaves_the_end_sector() {
    let mut chip = Chip::filled(0x00);
    let mut job = flash().erase_range(4096, 12288).unwrap();
    chip.run(&mut job).unwrap();
    let erases: Vec<&Seen> =
        chip.seen.iter().filter(|s| matches!(s, Seen::Write(f) if f[0] == 0x20)).collect();
    assert_eq!(
        erases,
        vec![&Seen::Write(vec![0x20, 0x00, 0x10, 0x00]), &Seen::Write(vec![0x20, 0x00, 0x20, 0x00])]
    );
    assert_eq!(chip.seen.iter().filter(|s| **s == Seen::Write(ENABLE.to_vec())).count(), 2);
    assert!(chip.memory[4096..12288].iter().all(|b| *b == 0xFF));
    assert!(chip.memory[..4096].iter().all(|b| *b == 0x00));
    assert!(chip.memory[12288..].iter().all(|b| *b == 0x00));
}

#[test]
fn erase_of_an_empty_range_does_nothing() {
    let mut chip = Chip::filled(0x00);
    let mut job = flash().erase_range(8192, 8192).unwrap();
    assert!(job.is_finished());
    assert!(job.request().is_none());
    chip.run(&mut job).unwrap();
    assert!(chip.seen.is_empty());
}

#[test]
fn erase_range_up_to_the_capacity() {
    let mut chip = Chip::filled(0x00);
    let mut job = flash().erase_range(4_194_304 - 8192, 4_194_304).unwrap();
    chip.run(&mut job).unwrap();
    assert!(chip.memory[4_194_304 - 8192..].iter().all(|b| *b == 0xFF));
    assert_eq!(chip.memory[4_194_304 - 8193], 0x00);
}

#[test]
fn device_id_is_the_last_eight_bytes_of_a_thirteen_byte_exchange() {
    let mut chip = Chip::erased();
    let mut job = flash().device_id();
    assert_eq!(job.unique_id(), None);
    chip.run(&mut job).unwrap();
    assert_eq!(chip.seen, vec![Seen::Transfer(vec![0x4B, 0, 0, 0, 0, 0, 0, 0, 0, 0, 0, 0, 0])]);
    assert_eq!(job.unique_id(), Some([0xE4, 0x68, 0x21, 0x10, 0x33, 0x44, 0x55, 0x66]));
}

#[test]
fn device_id_takes_bytes_five_to_thirteen_of_the_answer() {
    let mut job = flash().device_id();
    let request = job.request().unwrap();
    assert_eq!(request.reply_len(), 13);
    job.advance(&[1, 2, 3, 4, 5, 6, 7, 8, 9, 10, 11, 12, 13]).unwrap();
    assert!(job.is_finished());
    assert_eq!(job.unique_id(), Some([6, 7, 8, 9, 10, 11, 12, 13]));
}

#[test]
fn reset_is_two_exchanges_never_one() {
    let mut chip = Chip::erased();
    let mut job = flash().reset();
    chip.run(&mut job).unwrap();
    assert_eq!(chip.seen, vec![Seen::Write(vec![0x66]), Seen::Write(vec![0x99])]);
}

#[test]
fn power_down_and_release() {
    let mut chip = Chip::erased();
    chip.run(&mut flash().enable_power_down_mode()).unwrap();
    chip.run(&mut flash().disable_power_down_mode()).unwrap();
    assert_eq!(chip.seen, vec![Seen::Write(vec![0xB9]), Seen::Write(vec![0xAB])]);
}

#[test]
fn erasing_an_erased_sector_reads_back_all_ones() {
    let mut chip = Chip::erased();
    chip.run(&mut flash().erase_sector(5).unwrap()).unwrap();
    chip.run(&mut flash().erase_sector(5).unwrap()).unwrap();
    let read = chip.run(&mut flash().read(5 * 4096, 4096).unwrap()).unwrap();
    assert_eq!(read, vec![0xFF; 4096]);
}

#[test]
fn write_then_read_returns_the_written_bytes() {
    let mut chip = Chip::erased();
    let data = pattern(1000);
    chip.run(&mut flash().write(0x01_2345, &data).unwrap()).unwrap();
    let read = chip.run(&mut flash().read(0x01_2345, 1000).unwrap()).unwrap();
    assert_eq!(read, data);
}

#[test]
fn erase_write_read_round_trip_with_readback() {
    let mut chip = Chip::filled(0x00);
    chip.latency = 3;
    let flash = checking_flash();
    let data = pattern(700);
    chip.run(&mut flash.erase_range(0, 4096).unwrap()).unwrap();
    chip.run(&mut flash.write(10, &data).unwrap()).unwrap();
    let read = chip.run(&mut flash.read(10, 700).unwrap()).unwrap();
    assert_eq!(read, data);
}

#[test]
fn the_poll_reads_the_status_until_the_busy_flag_clears() {
    let mut chip = Chip::erased();
    chip.latency = 3;
    chip.run(&mut flash().erase_sector(0).unwrap()).unwrap();
    assert_eq!(
        chip.seen,
        vec![
            Seen::Write(ENABLE.to_vec()),
            Seen::Transfer(STATUS.to_vec()),
            Seen::Write(vec![0x20, 0x00, 0x00, 0x00]),
            Seen::Transfer(STATUS.to_vec()),
            Seen::Transfer(STATUS.to_vec()),
            Seen::Transfer(STATUS.to_vec()),
            Seen::Transfer(STATUS.to_vec()),
        ]
    );
}

#[test]
fn the_latch_is_set_again_before_every_page() {
    let mut chip = Chip::erased();
    let data = pattern(600);
    chip.run(&mut flash().write(0, &data).unwrap()).unwrap();
    assert_eq!(chip.programs().len(), 3);
    for (i, seen) in chip.seen.iter().enumerate() {
        if let Seen::WriteData(..) = seen {
            assert_eq!(chip.seen[i - 2], Seen::Write(ENABLE.to_vec()));
            assert_eq!(chip.seen[i - 1], Seen::Transfer(STATUS.to_vec()));
            assert_eq!(chip.seen[i + 1], Seen::Transfer(STATUS.to_vec()));
        }
    }
}

#[test]
fn an_unset_latch_fails_the_operation_before_its_command() {
    let mut chip = Chip::filled(0x00);
    chip.deaf_to_enable = true;
    let mut job = flash().erase_sector(1).unwrap();
    assert_eq!(chip.run(&mut job), Err(Fault::WriteEnableFail));
    assert!(job.is_finished());
    assert!(job.request().is_none());
    assert_eq!(chip.seen, vec![Seen::Write(ENABLE.to_vec()), Seen::Transfer(STATUS.to_vec())]);
    assert!(chip.memory.iter().all(|b| *b == 0x00));

    let mut job = flash().write(0, &[1, 2, 3]).unwrap();
    assert_eq!(chip.run(&mut job), Err(Fault::WriteEnableFail));
}

#[test]
fn a_chip_that_stays_busy_times_out() {
    let mut chip = Chip::erased();
    chip.latency = 5;
    let mut flash = flash();
    flash.set_poll_policy(PollPolicy::uniform(5));
    let mut job = flash.erase_sector(0).unwrap();
    assert_eq!(chip.run(&mut job), Err(Fault::Timeout));
    assert!(job.is_finished());
    let polls = chip.seen.iter().filter(|s| **s == Seen::Transfer(STATUS.to_vec())).count();
    assert_eq!(polls, 1 + 5);
}

#[test]
fn a_budget_of_one_more_than_the_latency_suffices() {
    let mut chip = Chip::erased();
    chip.latency = 5;
    let mut flash = flash();
    flash.set_poll_policy(PollPolicy::uniform(6));
    assert_eq!(chip.run(&mut flash.erase_sector(0).unwrap()), Ok(vec![0x00, 0x00]));
}

#[test]
fn a_budget_of_zero_times_out_without_a_poll() {
    let mut chip = Chip::erased();
    let mut flash = flash();
    flash.set_poll_policy(PollPolicy { program: 0, sector_erase: 1, block_erase: 1, chip_erase: 1 });
    let mut job = flash.write(0, &[1]).unwrap();
    assert_eq!(chip.run(&mut job), Err(Fault::Timeout));
    assert_eq!(chip.seen.len(), 3);
    assert_eq!(chip.run(&mut flash.erase_sector(0).unwrap()), Ok(vec![0x00, 0x00]));
}

#[test]
fn budgets_go_by_the_kind_of_operation() {
    let mut flash = flash();
    flash.set_poll_policy(PollPolicy { program: 2, sector_erase: 4, block_erase: 6, chip_erase: 8 });
    for (latency, sector, block, chip_erase, program) in [
        (1, true, true, true, true),
        (2, true, true, true, false),
        (4, false, true, true, false),
        (6, false, false, true, false),
        (8, false, false, false, false),
    ] {
        let run = |job: &mut Job| {
            let mut chip = Chip::erased();
            chip.latency = latency;
            chip.run(job).is_ok()
        };
        assert_eq!(run(&mut flash.erase_sector(0).unwrap()), sector);
        assert_eq!(run(&mut flash.erase_block_32k(0).unwrap()), block);
        assert_eq!(run(&mut flash.erase_block_64k(0).unwrap()), block);
        assert_eq!(run(&mut flash.erase_chip()), chip_erase);
        assert_eq!(run(&mut flash.write(0, &[0]).unwrap()), program);
    }
}

#[test]
fn readback_reads_the_region_in_pieces_of_64_bytes() {
    let mut chip = Chip::erased();
    let data = pattern(156);
    chip.run(&mut checking_flash().write(100, &data).unwrap()).unwrap();
    assert_eq!(
        chip.seen[4..],
        [
            Seen::Read(vec![0x03, 0x00, 0x00, 0x64], 64),
            Seen::Read(vec![0x03, 0x00, 0x00, 0xA4], 64),
            Seen::Read(vec![0x03, 0x00, 0x00, 0xE4], 28),
        ]
    );
}

#[test]
fn readback_after_an_erase_covers_the_whole_sector() {
    let mut chip = Chip::filled(0x00);
    chip.run(&mut checking_flash().erase_sector(2).unwrap()).unwrap();
    let reads: Vec<&Seen> = chip.seen.iter().filter(|s| matches!(s, Seen::Read(..))).collect();
    assert_eq!(reads.len(), 64);
    assert_eq!(reads[0], &Seen::Read(vec![0x03, 0x00, 0x20, 0x00], 64));
    assert_eq!(reads[63], &Seen::Read(vec![0x03, 0x00, 0x2F, 0xC0], 64));
}

#[test]
fn readback_of_an_empty_program_reads_nothing() {
    let mut chip = Chip::erased();
    chip.run(&mut checking_flash().write(0, &[]).unwrap()).unwrap();
    assert_eq!(chip.seen.len(), 4);
}

#[test]
fn a_program_that_did_not_take_fails_the_readback() {
    let mut chip = Chip::erased();
    chip.stuck_bits = 0x80;
    let data = vec![0x00u8; 300];
    let mut job = checking_flash().write(0, &data).unwrap();
    assert_eq!(chip.run(&mut job), Err(Fault::ReadbackFail));
    assert!(job.is_finished());
    assert_eq!(chip.programs().len(), 1);
    assert_eq!(chip.seen.iter().filter(|s| matches!(s, Seen::Read(..))).count(), 1);
}

#[test]
fn programming_over_programmed_bytes_fails_the_readback() {
    let mut chip = Chip::filled(0x0F);
    let mut job = checking_flash().write(64, &[0xF0; 8]).unwrap();
    assert_eq!(chip.run(&mut job), Err(Fault::ReadbackFail));
}

#[test]
fn an_erase_that_did_not_take_fails_the_readback() {
    let flash = checking_flash();
    let mut job = flash.erase_sector(0).unwrap();
    job.advance(&[]).unwrap();
    job.advance(&[0x00, 0x02]).unwrap();
    job.advance(&[]).unwrap();
    job.advance(&[0x00, 0x00]).unwrap();
    let mut good = [0xFFu8; 64];
    job.advance(&good).unwrap();
    good[63] = 0xFE;
    assert_eq!(job.advance(&good), Err(Fault::ReadbackFail));
    assert!(job.request().is_none());
}

#[test]
fn without_readback_nothing_is_read() {
    let mut chip = Chip::erased();
    chip.stuck_bits = 0x80;
    chip.run(&mut flash().write(0, &[0u8; 300]).unwrap()).unwrap();
    assert_eq!(chip.seen.iter().filter(|s| matches!(s, Seen::Read(..))).count(), 0);
}

#[test]
fn requests_tell_the_length_of_their_answer() {
    let flash = flash();
    assert_eq!(flash.erase_chip().request().unwrap().reply_len(), 0);
    assert_eq!(flash.read(0, 77).unwrap().request().unwrap().reply_len(), 77);
    assert_eq!(flash.device_id().request().unwrap().reply_len(), 13);
    let mut job = flash.erase_chip();
    job.advance(&[]).unwrap();
    assert_eq!(job.request().unwrap().reply_len(), 2);
}

#[test]
fn a_job_accepts_only_answers_of_the_pending_length() {
    let flash = flash();
    let mut job = flash.erase_chip();
    assert!(job.accepts(&[]));
    assert!(!job.accepts(&[0]));
    job.advance(&[]).unwrap();
    assert!(job.accepts(&[0, 2]));
    assert!(!job.accepts(&[]));
    assert!(!job.accepts(&[0, 2, 0]));
    let mut job = flash.enable_power_down_mode();
    job.advance(&[]).unwrap();
    assert!(job.is_finished());
    assert!(!job.accepts(&[]));
}

#[test]
fn the_job_moves_on_only_with_the_latch_seen_set() {
    let mut job = flash().write(0, &[0x11, 0x22]).unwrap();
    job.advance(&[]).unwrap();
    assert_eq!(job.advance(&[0xFF, 0xFD]), Err(Fault::WriteEnableFail));
    let mut job = flash().write(0, &[0x11, 0x22]).unwrap();
    job.advance(&[]).unwrap();
    job.advance(&[0x00, 0x02]).unwrap();
    match job.request().unwrap() {
        Request::WriteData { frame, data } => {
            assert_eq!(frame.as_slice(), &[0x02, 0x00, 0x00, 0x00]);
            assert_eq!(data, &[0x11, 0x22]);
        }
        other => panic!("unexpected request {:?}", other),
    }
}

#[test]
fn only_bit_zero_of_the_status_keeps_the_poll_going() {
    let mut job = flash().erase_sector(0).unwrap();
    job.advance(&[]).unwrap();
    job.advance(&[0x00, 0x02]).unwrap();
    job.advance(&[]).unwrap();
    job.advance(&[0x00, 0x03]).unwrap();
    assert!(!job.is_finished());
    job.advance(&[0x00, 0x01]).unwrap();
    assert!(!job.is_finished());
    job.advance(&[0x00, 0xFE]).unwrap();
    assert!(job.is_finished());
}

#[test]
fn a_write_of_the_whole_chip_is_one_program_per_page() {
    let mut chip = Chip::erased();
    let data = pattern(4_194_304);
    chip.run(&mut checking_flash().write(0, &data).unwrap()).unwrap();
    assert_eq!(chip.programs().len(), 16384);
    assert!(chip.programs().iter().all(|p| p.1 == 256));
    assert_eq!(chip.memory, data);
}

#[test]
fn a_write_of_the_last_byte() {
    let mut chip = Chip::erased();
    chip.run(&mut flash().write(4_194_303, &[0x5A]).unwrap()).unwrap();
    assert_eq!(chip.programs(), vec![(vec![0x02, 0x3F, 0xFF, 0xFF], 1)]);
    assert_eq!(chip.memory[4_194_303], 0x5A);
    assert_eq!(chip.memory[4_194_302], 0xFF);
    assert_eq!(chip.memory[0], 0xFF);
}

#[test]
fn readback_after_a_chip_erase_covers_the_whole_chip() {
    let mut chip = Chip::filled(0x00);
    chip.latency = 2;
    chip.run(&mut checking_flash().erase_chip()).unwrap();
    let reads: Vec<&Seen> = chip.seen.iter().filter(|s| matches!(s, Seen::Read(..))).collect();
    assert_eq!(reads.len(), 65536);
    assert_eq!(reads[0], &Seen::Read(vec![0x03, 0x00, 0x00, 0x00], 64));
    assert_eq!(reads[65535], &Seen::Read(vec![0x03, 0x3F, 0xFF, 0xC0], 64));
}

#[test]
fn readback_stops_at_the_first_piece_that_differs() {
    let flash = checking_flash();
    let data = pattern(200);
    let mut job = flash.write(0, &data).unwrap();
    job.advance(&[]).unwrap();
    job.advance(&[0x00, 0x02]).unwrap();
    job.advance(&[]).unwrap();
    job.advance(&[0x00, 0x00]).unwrap();
    job.advance(&data[..64]).unwrap();
    let mut second = data[64..128].to_vec();
    second[0] ^= 0x01;
    assert_eq!(job.advance(&second), Err(Fault::ReadbackFail));
    assert!(job.is_finished());
}

#[test]
fn a_timed_out_erase_still_happens_on_the_chip() {
    let mut chip = Chip::filled(0x00);
    chip.latency = 9;
    let mut flash = flash();
    flash.set_poll_policy(PollPolicy::uniform(4));
    assert_eq!(chip.run(&mut flash.erase_sector(1).unwrap()), Err(Fault::Timeout));
    assert!(chip.memory[4096..8192].iter().all(|b| *b == 0xFF));
    assert_eq!(chip.busy, 5);
    assert!(chip.latch);
}

#[test]
fn a_write_without_readback_over_programmed_bytes_only_clears_bits() {
    let mut chip = Chip::filled(0x3C);
    chip.run(&mut flash().write(10, &[0xF0, 0x0F, 0xFF, 0x00]).unwrap()).unwrap();
    assert_eq!(&chip.memory[9..15], &[0x3C, 0x30, 0x0C, 0x3C, 0x00, 0x3C]);
}
