//! The tasks of the operations that take more than one: the page programs
//! of a write and the erases of a range.

use vstd::prelude::*;
use crate::command::Command;
use crate::geometry::{chunk_len, fits_page, CAPACITY};
use crate::plan::Task;

verus! {

/// The page programs that write `data` at `address`, in order: each ends
/// where its page ends or where the data ends.
pub open spec fn page_tasks(address: nat, data: Seq<u8>) -> Seq<Task>
    decreases data.len(),
{
    if data.len() == 0 {
        Seq::empty()
    } else {
        let n = chunk_len(address, data.len());
        seq![Task::Program { address, data: data.take(n as int) }] + page_tasks(
            address + n,
            data.skip(n as int),
        )
    }
}

/// The tasks of a write of `data` at `address`. A write of no bytes still
/// issues one page program, an empty one.
pub open spec fn write_tasks(address: nat, data: Seq<u8>) -> Seq<Task> {
    if data.len() == 0 {
        seq![Task::Program { address, data }]
    } else {
        page_tasks(address, data)
    }
}

/// The tasks that erase `count` consecutive units of `command`, the first
/// at `address`.
pub open spec fn erase_tasks(command: Command, address: nat, count: nat) -> Seq<Task> {
    Seq::new(
        count,
        |i: int| Task::Erase { command, address: (address + i * command.spec_erase_unit()) as nat },
    )
}

/// Every page program of a write that stays on the chip stays on the chip
/// and within its page.
pub proof fn lemma_page_tasks_wf(address: nat, data: Seq<u8>)
    requires
        address + data.len() <= CAPACITY,
    ensures
        forall|i: int|
            0 <= i < page_tasks(address, data).len() ==> (#[trigger] page_tasks(
                address,
                data,
            )[i]).wf(),
    decreases data.len(),
{
    if data.len() > 0 {
        let n = chunk_len(address, data.len());
        lemma_page_tasks_wf(address + n, data.skip(n as int));
        let head = seq![Task::Program { address, data: data.take(n as int) }];
        let rest = page_tasks(address + n, data.skip(n as int));
        assert forall|i: int| 0 <= i < page_tasks(address, data).len() implies (
        #[trigger] page_tasks(address, data)[i]).wf() by {
            if i == 0 {
                assert(page_tasks(address, data)[0] == head[0]);
            } else {
                assert(page_tasks(address, data)[i] == rest[i - 1]);
            }
        }
    }
}

/// The first page program of a write of at least one byte, and what is left
/// after it.
pub proof fn lemma_page_tasks_head(address: nat, data: Seq<u8>)
    requires
        data.len() > 0,
    ensures
        page_tasks(address, data).len() > 0,
        page_tasks(address, data)[0] == (Task::Program {
            address,
            data: data.take(chunk_len(address, data.len()) as int),
        }),
        page_tasks(address, data).drop_first() == page_tasks(
            address + chunk_len(address, data.len()),
            data.skip(chunk_len(address, data.len()) as int),
        ),
{
    let n = chunk_len(address, data.len());
    let head = seq![Task::Program { address, data: data.take(n as int) }];
    let rest = page_tasks(address + n, data.skip(n as int));
    assert((head + rest).drop_first() =~= rest);
}

/// A whole number of units on from an address on the unit grid lies on
/// the grid again.
pub proof fn lemma_unit_grid(address: int, i: int, unit: int)
    requires
        unit > 0,
        address % unit == 0,
    ensures
        (address + i * unit) % unit == 0,
{
    vstd::arithmetic::div_mod::lemma_mod_multiples_vanish(i, address, unit);
    assert(unit * i == i * unit) by (nonlinear_arith);
}

/// The first of a run of erases, and what is left after it.
pub proof fn lemma_erase_tasks_head(command: Command, address: nat, count: nat)
    requires
        count > 0,
    ensures
        erase_tasks(command, address, count)[0] == (Task::Erase { command, address }),
        erase_tasks(command, address, count).drop_first() == erase_tasks(
            command,
            address + command.spec_erase_unit() as nat,
            (count - 1) as nat,
        ),
{
    let unit = command.spec_erase_unit() as int;
    let all = erase_tasks(command, address, count);
    let rest = erase_tasks(
        command,
        address + command.spec_erase_unit() as nat,
        (count - 1) as nat,
    );
    assert(0 * unit == 0);
    assert forall|i: int| 0 <= i < count - 1 implies #[trigger] rest[i] == all.drop_first()[i] by {
        assert(unit + i * unit == (i + 1) * unit) by (nonlinear_arith);
        assert(0 <= i * unit) by (nonlinear_arith)
            requires
                0 <= i,
                0 <= unit,
        ;
    }
    assert(rest =~= all.drop_first());
}

/// A write that fits one page is a single page program of all its data.
pub proof fn lemma_single_page(address: nat, data: Seq<u8>)
    requires
        fits_page(address, data.len()),
    ensures
        write_tasks(address, data) == seq![Task::Program { address, data }],
{
    if data.len() > 0 {
        let n = chunk_len(address, data.len());
        assert(n == data.len());
        assert(data.take(n as int) =~= data);
        assert(page_tasks(address + n, data.skip(n as int)) =~= Seq::<Task>::empty());
        assert(write_tasks(address, data) =~= seq![Task::Program { address, data }]);
    }
}

/// The bytes that a sequence of tasks leaves behind, task after task: what
/// its programs write and its erases set.
pub open spec fn written(tasks: Seq<Task>) -> Seq<u8>
    decreases tasks.len(),
{
    if tasks.len() == 0 {
        Seq::empty()
    } else {
        tasks[0].expected() + written(tasks.drop_first())
    }
}

/// The tasks are page programs laid end to end from `address` on, each on
/// the chip and within its page.
pub open spec fn tiles(tasks: Seq<Task>, address: nat) -> bool
    decreases tasks.len(),
{
    tasks.len() == 0 || (tasks[0] is Program && tasks[0].wf() && tasks[0].start() == address
        && tiles(tasks.drop_first(), tasks[0].end()))
}

/// The page programs of `data` at `address` lie end to end from `address`
/// on, none crosses a page boundary, and together they write `data`.
pub proof fn lemma_page_tasks_tile(address: nat, data: Seq<u8>)
    requires
        address + data.len() <= CAPACITY,
    ensures
        tiles(page_tasks(address, data), address),
        written(page_tasks(address, data)) == data,
    decreases data.len(),
{
    if data.len() > 0 {
        let n = chunk_len(address, data.len());
        let head = seq![Task::Program { address, data: data.take(n as int) }];
        let rest = page_tasks(address + n, data.skip(n as int));
        lemma_page_tasks_tile(address + n, data.skip(n as int));
        assert((head + rest).drop_first() =~= rest);
        assert(data.take(n as int) + data.skip(n as int) =~= data);
    } else {
        assert(written(page_tasks(address, data)) =~= data);
    }
}

/// A write is carried out by page programs that lie end to end from its
/// address on, none of which crosses a page boundary or leaves the chip,
/// and that together write exactly its data.
pub proof fn lemma_write_tiles(address: nat, data: Seq<u8>)
    requires
        address + data.len() <= CAPACITY,
    ensures
        tiles(write_tasks(address, data), address),
        written(write_tasks(address, data)) == data,
        write_tasks(address, data).len() >= 1,
{
    if data.len() > 0 {
        lemma_page_tasks_tile(address, data);
    } else {
        let tasks = write_tasks(address, data);
        assert(tasks.drop_first() =~= Seq::<Task>::empty());
        assert(written(tasks.drop_first()) =~= Seq::<u8>::empty());
        assert(written(tasks) =~= data);
        assert(tiles(tasks.drop_first(), tasks[0].end()));
    }
}

/// Every task of a sequence that tiles is a page program within its page.
pub proof fn lemma_tiles_fit(tasks: Seq<Task>, address: nat, i: int)
    requires
        tiles(tasks, address),
        0 <= i < tasks.len(),
    ensures
        tasks[i] is Program,
        fits_page(tasks[i].start(), tasks[i].expected().len()),
        tasks[i].end() <= CAPACITY,
        i > 0 ==> tasks[i].start() == tasks[i - 1].end(),
        i == 0 ==> tasks[i].start() == address,
    decreases tasks.len(),
{
    if i > 0 {
        lemma_tiles_fit(tasks.drop_first(), tasks[0].end(), i - 1);
        if i > 1 {
            assert(tasks.drop_first()[i - 2] == tasks[i - 1]);
        }
    }
}

} // verus!
