//! What a simulator run decides: the layout of its devices, what the result
//! of a restore means, which messages are logged, and the tally of scripts.

use crate::areas::{
    area_entry, cover, sectors_fit, AreaError, CNffsAreaDesc, NffsAreaDesc, Sector,
};
use crate::script::DeviceName;
use vstd::prelude::*;

verus! {

/// The sectors of a device, numbered from 0 and laid out one after the
/// other from address 0: `count` sectors of `size` bytes each.
pub open spec fn uniform_sectors(count: nat, size: nat) -> Seq<Sector> {
    Seq::new(
        count,
        |i: int| Sector { num: i as usize, base: (i * size) as usize, size: size as usize },
    )
}

/// Lays out `count` sectors of `size` bytes each from address 0.  There is
/// no such layout where it would not fit in the address space.
pub fn make_sectors(count: usize, size: usize) -> (sectors: Option<Vec<Sector>>)
    ensures
        sectors is Some <==> count * size <= usize::MAX,
        sectors matches Some(made) ==> made@ == uniform_sectors(count as nat, size as nat)
            && sectors_fit(made@),
{
    let total = match count.checked_mul(size) {
        Some(total) => total,
        None => {
            return None;
        },
    };
    let mut sectors: Vec<Sector> = Vec::new();
    let mut num: usize = 0;
    let mut base: usize = 0;
    while num < count
        invariant
            num <= count,
            base == num * size,
            total == count * size,
            sectors@ == uniform_sectors(num as nat, size as nat),
            sectors_fit(sectors@),
        decreases count - num,
    {
        proof {
            assert((num + 1) * size <= count * size) by (nonlinear_arith)
                requires
                    num < count,
            ;
            assert((num + 1) * size == num * size + size) by (nonlinear_arith);
        }
        let ghost before = sectors@;
        sectors.push(Sector { num, base, size });
        assert(sectors@ =~= uniform_sectors((num + 1) as nat, size as nat));
        assert forall|i: int| 0 <= i < sectors@.len() implies (#[trigger] sectors@[i]).base
            + sectors@[i].size <= usize::MAX by {
            if i < num {
                assert(sectors@[i] == before[i]);
            }
        }
        base = base + size;
        num = num + 1;
    }
    Some(sectors)
}

/// How large a device is made: small for the runs of scripts, large for the
/// basic run.
#[derive(Debug, Clone, Copy, PartialEq, Eq, Structural)]
pub enum DeviceScale {
    Small,
    Large,
}

/// The sectors of a device: how many, and of what size.
pub open spec fn device_geometry(device: DeviceName, scale: DeviceScale) -> (nat, nat) {
    match (device, scale) {
        (DeviceName::Linear4k, DeviceScale::Small) => (32, 256),
        (DeviceName::Linear4k, DeviceScale::Large) => (256, 4096),
    }
}

/// The areas that the file system is given on a device, each with its
/// address and its length.
pub open spec fn device_areas(device: DeviceName, scale: DeviceScale) -> Seq<(usize, usize)> {
    match (device, scale) {
        (DeviceName::Linear4k, DeviceScale::Small) => seq![
            (0x0000usize, 256usize),
            (0x0100usize, 256usize),
            (0x0200usize, 256usize),
            (0x0300usize, 256usize),
            (0x0400usize, 1024usize),
            (0x0800usize, 1024usize),
            (0x0c00usize, 1024usize),
            (0x1000usize, 2048usize),
            (0x1800usize, 2048usize),
        ],
        (DeviceName::Linear4k, DeviceScale::Large) => seq![
            (0x0000_0000usize, 0x4000usize),
            (0x0000_4000usize, 0x4000usize),
            (0x0000_8000usize, 0x4000usize),
            (0x0000_c000usize, 0x4000usize),
            (0x0001_0000usize, 0x1_0000usize),
            (0x0002_0000usize, 0x2_0000usize),
            (0x0004_0000usize, 0x2_0000usize),
            (0x0006_0000usize, 0x2_0000usize),
            (0x0008_0000usize, 0x2_0000usize),
            (0x000a_0000usize, 0x2_0000usize),
            (0x000c_0000usize, 0x2_0000usize),
            (0x000e_0000usize, 0x2_0000usize),
        ],
    }
}

/// The entries of the areas of `table` up to number `upto`.
pub open spec fn entries_of(table: Seq<(usize, usize)>, upto: int) -> Seq<CNffsAreaDesc> {
    Seq::new(upto as nat, |i: int| area_entry(table[i].0, table[i].1))
}

/// The first area of `table` that the sectors do not make up, if there is
/// one, with the reason.
pub open spec fn first_misfit(sectors: Seq<Sector>, table: Seq<(usize, usize)>, from: int)
    -> Option<(int, AreaError)>
    decreases table.len() - from,
{
    if from < 0 || from >= table.len() {
        None
    } else {
        match cover(sectors, 0, table[from].0 as int, table[from].1 as int) {
            Err(error) => Some((from, error)),
            Ok(_) => first_misfit(sectors, table, from + 1),
        }
    }
}

proof fn lemma_uniform_sectors_cover(count: nat, size: nat, from: int, first: int, many: int)
    requires
        size > 0,
        count * size <= usize::MAX,
        0 <= from <= first,
        0 <= many,
        first + many <= count,
    ensures
        cover(uniform_sectors(count, size), from, first * size, many * size) is Ok,
    decreases count - from,
{
    let sectors = uniform_sectors(count, size);
    if many > 0 {
        assert(many * size > 0) by (nonlinear_arith)
            requires
                many > 0,
                size > 0,
        ;
        let sector = sectors[from];
        assert(0 <= from * size <= count * size) by (nonlinear_arith)
            requires
                0 <= from <= count,
                size > 0,
        ;
        assert(size <= count * size) by (nonlinear_arith)
            requires
                count >= 1,
                size > 0,
        ;
        assert(0 <= from < count);
        assert(sector.base == from * size && sector.size == size);
        if first > from {
            assert(first * size >= from * size + size) by (nonlinear_arith)
                requires
                    first > from,
                    size > 0,
            ;
            lemma_uniform_sectors_cover(count, size, from + 1, first, many);
        } else {
            assert(first * size + size == (first + 1) * size) by (nonlinear_arith);
            assert(many * size - size == (many - 1) * size) by (nonlinear_arith);
            assert(size <= many * size) by (nonlinear_arith)
                requires
                    many >= 1,
                    size > 0,
            ;
            lemma_uniform_sectors_cover(count, size, from + 1, first + 1, many - 1);
        }
    } else {
        assert(many * size == 0) by (nonlinear_arith)
            requires
                many == 0,
        ;
    }
}

/// Whether the `len` bytes from `base` on are whole sectors of a device of
/// `count` sectors of `size` bytes each.
pub open spec fn whole_sectors(count: nat, size: nat, base: int, len: int) -> bool {
    &&& size > 0
    &&& 0 <= base
    &&& 0 <= len
    &&& base % (size as int) == 0
    &&& len % (size as int) == 0
    &&& base + len <= count * size
}

/// On a device of sectors of one size, every area that starts and ends on a
/// sector boundary within the device is made up of its sectors.
pub proof fn law_whole_sectors_make_an_area(count: nat, size: nat, base: int, len: int)
    requires
        whole_sectors(count, size, base, len),
        count * size <= usize::MAX,
    ensures
        cover(uniform_sectors(count, size), 0, base, len) is Ok,
{
    let first = base / (size as int);
    let many = len / (size as int);
    vstd::arithmetic::div_mod::lemma_fundamental_div_mod(base, size as int);
    vstd::arithmetic::div_mod::lemma_fundamental_div_mod(len, size as int);
    assert(first * size == base && many * size == len) by (nonlinear_arith)
        requires
            base == size * first + base % (size as int),
            len == size * many + len % (size as int),
            base % (size as int) == 0,
            len % (size as int) == 0,
    ;
    assert(0 <= first && 0 <= many && first + many <= count) by (nonlinear_arith)
        requires
            first * size == base,
            many * size == len,
            size > 0,
            0 <= base,
            0 <= len,
            base + len <= count * size,
    ;
    lemma_uniform_sectors_cover(count, size, 0, first, many);
}

proof fn lemma_no_misfit(sectors: Seq<Sector>, table: Seq<(usize, usize)>, from: int)
    requires
        0 <= from,
        forall|i: int|
            from <= i < table.len() ==> cover(
                sectors,
                0,
                (#[trigger] table[i]).0 as int,
                table[i].1 as int,
            ) is Ok,
    ensures
        first_misfit(sectors, table, from) is None,
    decreases table.len() - from,
{
    if from < table.len() {
        assert(cover(sectors, 0, table[from].0 as int, table[from].1 as int) is Ok);
        lemma_no_misfit(sectors, table, from + 1);
    }
}

/// Every area of every device is made up of whole sectors of the device.
pub proof fn law_device_areas_fit(device: DeviceName, scale: DeviceScale)
    ensures
        first_misfit(device_sectors(device, scale), device_areas(device, scale), 0) is None,
{
    let table = device_areas(device, scale);
    let (count, size) = device_geometry(device, scale);
    assert(count * size <= 0x10_0000) by (nonlinear_arith)
        requires
            (count == 32 && size == 256) || (count == 256 && size == 4096),
    ;
    assert(count * size >= 0x2000) by (nonlinear_arith)
        requires
            (count == 32 && size == 256) || (count == 256 && size == 4096),
    ;
    assert forall|i: int| 0 <= i < table.len() implies cover(
        device_sectors(device, scale),
        0,
        (#[trigger] table[i]).0 as int,
        table[i].1 as int,
    ) is Ok by {
        let entry = table[i];
        match scale {
            DeviceScale::Small => {
                assert(count * size == 0x2000) by (nonlinear_arith)
                    requires
                        count == 32 && size == 256,
                ;
                assert(entry == table[0] || entry == table[1] || entry == table[2] || entry
                    == table[3] || entry == table[4] || entry == table[5] || entry == table[6]
                    || entry == table[7] || entry == table[8]);
            },
            DeviceScale::Large => {
                assert(count * size == 0x10_0000) by (nonlinear_arith)
                    requires
                        count == 256 && size == 4096,
                ;
                assert(entry == table[0] || entry == table[1] || entry == table[2] || entry
                    == table[3] || entry == table[4] || entry == table[5] || entry == table[6]
                    || entry == table[7] || entry == table[8] || entry == table[9] || entry
                    == table[10] || entry == table[11]);
            },
        }
        assert(whole_sectors(count, size, entry.0 as int, entry.1 as int));
        law_whole_sectors_make_an_area(count, size, entry.0 as int, entry.1 as int);
    }
    lemma_no_misfit(device_sectors(device, scale), table, 0);
}

/// Adds the areas of `table` in order, up to the first that the sectors do
/// not make up.
pub fn add_areas(desc: &mut NffsAreaDesc, table: &Vec<(usize, usize)>) -> (added: Result<
    (),
    AreaError,
>)
    ensures
        final(desc).sectors() == old(desc).sectors(),
        match first_misfit(old(desc).sectors(), table@, 0) {
            Some((at, error)) => added == Err::<(), AreaError>(error) && final(desc).areas()
                == old(desc).areas() + entries_of(table@, at),
            None => added is Ok && final(desc).areas() == old(desc).areas() + entries_of(
                table@,
                table@.len() as int,
            ),
        },
{
    let ghost sectors = desc.sectors();
    let ghost areas = desc.areas();
    let mut at: usize = 0;
    proof {
        assert(areas + entries_of(table@, 0) =~= areas);
    }
    while at < table.len()
        invariant
            at <= table@.len(),
            desc.sectors() == sectors,
            sectors == old(desc).sectors(),
            areas == old(desc).areas(),
            desc.areas() == areas + entries_of(table@, at as int),
            first_misfit(sectors, table@, at as int) == first_misfit(sectors, table@, 0),
        decreases table@.len() - at,
    {
        let (base, len) = table[at];
        match desc.add_area_desc(base, len) {
            Ok(_) => {
                proof {
                    assert(areas + entries_of(table@, at + 1) =~= (areas + entries_of(
                        table@,
                        at as int,
                    )).push(area_entry(base, len)));
                }
            },
            Err(error) => {
                return Err(error);
            },
        }
        at = at + 1;
    }
    Ok(())
}

/// The table of the areas of a device.
pub fn area_table(device: DeviceName, scale: DeviceScale) -> (table: Vec<(usize, usize)>)
    ensures
        table@ == device_areas(device, scale),
{
    let mut table: Vec<(usize, usize)> = Vec::new();
    match (device, scale) {
        (DeviceName::Linear4k, DeviceScale::Small) => {
            table.push((0x0000, 256));
            table.push((0x0100, 256));
            table.push((0x0200, 256));
            table.push((0x0300, 256));
            table.push((0x0400, 1024));
            table.push((0x0800, 1024));
            table.push((0x0c00, 1024));
            table.push((0x1000, 2048));
            table.push((0x1800, 2048));
        },
        (DeviceName::Linear4k, DeviceScale::Large) => {
            table.push((0x0000_0000, 16 * 1024));
            table.push((0x0000_4000, 16 * 1024));
            table.push((0x0000_8000, 16 * 1024));
            table.push((0x0000_c000, 16 * 1024));
            table.push((0x0001_0000, 64 * 1024));
            table.push((0x0002_0000, 128 * 1024));
            table.push((0x0004_0000, 128 * 1024));
            table.push((0x0006_0000, 128 * 1024));
            table.push((0x0008_0000, 128 * 1024));
            table.push((0x000a_0000, 128 * 1024));
            table.push((0x000c_0000, 128 * 1024));
            table.push((0x000e_0000, 128 * 1024));
        },
    }
    assert(table@ =~= device_areas(device, scale));
    table
}

/// How many sectors a device has, and of what size.
pub fn geometry(device: DeviceName, scale: DeviceScale) -> (shape: (usize, usize))
    ensures
        (shape.0 as nat, shape.1 as nat) == device_geometry(device, scale),
{
    match (device, scale) {
        (DeviceName::Linear4k, DeviceScale::Small) => (32, 256),
        (DeviceName::Linear4k, DeviceScale::Large) => (256, 4096),
    }
}

/// The sectors of a device.
pub open spec fn device_sectors(device: DeviceName, scale: DeviceScale) -> Seq<Sector> {
    uniform_sectors(device_geometry(device, scale).0, device_geometry(device, scale).1)
}

/// Sets up the areas of a device on its sectors.
pub fn make_device(device: DeviceName, scale: DeviceScale) -> (desc: NffsAreaDesc)
    ensures
        desc.sectors() == device_sectors(device, scale),
        desc.areas() == entries_of(
            device_areas(device, scale),
            device_areas(device, scale).len() as int,
        ),
{
    let (count, size) = geometry(device, scale);
    let sectors = match make_sectors(count, size) {
        Some(sectors) => sectors,
        None => Vec::new(),
    };
    let mut desc = match NffsAreaDesc::new(sectors) {
        Some(desc) => desc,
        None => NffsAreaDesc::empty(),
    };
    let table = area_table(device, scale);
    proof {
        law_device_areas_fit(device, scale);
        assert(Seq::<CNffsAreaDesc>::empty() + entries_of(table@, table@.len() as int)
            =~= entries_of(table@, table@.len() as int));
    }
    let _ = add_areas(&mut desc, &table);
    desc
}

/// The result code of a restore that was stopped on purpose.
pub const RESTORE_INTERRUPTED: i32 = -0x13579;

/// What the result code of a restore means.
#[derive(Debug, Clone, Copy, PartialEq, Eq, Structural)]
pub enum RestoreResult {
    /// The restore ran to its end.
    Done,
    /// The restore was stopped after the number of flash operations asked
    /// for.
    Interrupted,
    /// Any other code.
    Unknown { code: i32 },
}

/// Reads the result code of a restore.
pub fn restore_result(code: i32) -> (result: RestoreResult)
    ensures
        result == if code == 0 {
            RestoreResult::Done
        } else if code == RESTORE_INTERRUPTED {
            RestoreResult::Interrupted
        } else {
            RestoreResult::Unknown { code }
        },
{
    if code == 0 {
        RestoreResult::Done
    } else if code == RESTORE_INTERRUPTED {
        RestoreResult::Interrupted
    } else {
        RestoreResult::Unknown { code }
    }
}

/// Why a trial of a restore gives no count.
#[derive(Debug, Clone, Copy, PartialEq, Eq, Structural)]
pub enum RestoreError {
    /// A restore gave a result code that is not known.
    UnknownReturn { code: i32 },
    /// The restore was stopped though no stop was asked for.
    UnexpectedStop,
    /// The restore that follows a stopped one was stopped as well.
    StoppedAgain,
    /// The count does not fit.
    CountOutOfRange,
}

/// The number of flash operations that the first restore of a trial
/// accounts for, and whether a second restore has to follow: a restore that
/// ran to its end used up `-counter` operations, one that was stopped used
/// the `stop` that was asked for.
pub open spec fn first_restore_model(code: i32, stop: Option<i32>, counter: i32) -> Result<
    (bool, i32),
    RestoreError,
> {
    if code == RESTORE_INTERRUPTED {
        match stop {
            Some(asked) => Ok((true, asked)),
            None => Err(RestoreError::UnexpectedStop),
        }
    } else if code == 0 {
        if counter == i32::MIN {
            Err(RestoreError::CountOutOfRange)
        } else {
            Ok((false, (-counter) as i32))
        }
    } else {
        Err(RestoreError::UnknownReturn { code })
    }
}

/// Reads the outcome of the first restore of a trial: `code` is its result,
/// `stop` the stop that was asked for, `counter` what the restore left of
/// its counter.
pub fn first_restore(code: i32, stop: Option<i32>, counter: i32) -> (outcome: Result<
    (bool, i32),
    RestoreError,
>)
    ensures
        outcome == first_restore_model(code, stop, counter),
{
    match restore_result(code) {
        RestoreResult::Interrupted => match stop {
            Some(asked) => Ok((true, asked)),
            None => Err(RestoreError::UnexpectedStop),
        },
        RestoreResult::Done => {
            if counter == i32::MIN {
                Err(RestoreError::CountOutOfRange)
            } else {
                Ok((false, -counter))
            }
        },
        RestoreResult::Unknown { code } => Err(RestoreError::UnknownReturn { code }),
    }
}

/// The total count of a trial whose first restore was stopped: the second
/// restore has to run to its end, and what it left of its counter is taken
/// off the count.
pub open spec fn second_restore_model(code: i32, count: i32, counter: i32) -> Result<
    i32,
    RestoreError,
> {
    if code == RESTORE_INTERRUPTED {
        Err(RestoreError::StoppedAgain)
    } else if code != 0 {
        Err(RestoreError::UnknownReturn { code })
    } else if i32::MIN <= count - counter <= i32::MAX {
        Ok((count - counter) as i32)
    } else {
        Err(RestoreError::CountOutOfRange)
    }
}

/// Reads the outcome of the second restore of a trial.
pub fn second_restore(code: i32, count: i32, counter: i32) -> (outcome: Result<i32, RestoreError>)
    ensures
        outcome == second_restore_model(code, count, counter),
{
    match restore_result(code) {
        RestoreResult::Interrupted => Err(RestoreError::StoppedAgain),
        RestoreResult::Unknown { code } => Err(RestoreError::UnknownReturn { code }),
        RestoreResult::Done => match count.checked_sub(counter) {
            Some(total) => Ok(total),
            None => Err(RestoreError::CountOutOfRange),
        },
    }
}

/// The levels at which the engine logs.
#[derive(Debug, Clone, Copy, PartialEq, Eq, Structural)]
pub enum EngineLogLevel {
    Error,
    Warn,
    Info,
    Trace,
}

/// The level that the engine means by a number, if any.
pub fn engine_log_level(level: i32) -> (named: Option<EngineLogLevel>)
    ensures
        named == if level == 1 {
            Some(EngineLogLevel::Error)
        } else if level == 2 {
            Some(EngineLogLevel::Warn)
        } else if level == 3 {
            Some(EngineLogLevel::Info)
        } else if level == 4 {
            Some(EngineLogLevel::Trace)
        } else {
            None
        },
{
    if level == 1 {
        Some(EngineLogLevel::Error)
    } else if level == 2 {
        Some(EngineLogLevel::Warn)
    } else if level == 3 {
        Some(EngineLogLevel::Info)
    } else if level == 4 {
        Some(EngineLogLevel::Trace)
    } else {
        None
    }
}

/// The tally of the scripts that were run.
#[derive(Debug, Clone, Copy, PartialEq, Eq, Structural)]
pub struct RunStatus {
    failures: usize,
    passes: usize,
}

impl RunStatus {
    /// The number of scripts that failed.
    pub closed spec fn failed(&self) -> nat {
        self.failures as nat
    }

    /// The number of scripts that passed.
    pub closed spec fn passed(&self) -> nat {
        self.passes as nat
    }

    /// Nothing run yet.
    pub fn new() -> (status: RunStatus)
        ensures
            status.failed() == 0,
            status.passed() == 0,
    {
        RunStatus { failures: 0, passes: 0 }
    }

    /// Counts one more script.  A count that has reached the largest number
    /// stays there.
    pub fn record(&mut self, failed: bool)
        ensures
            final(self).failed() == if failed && old(self).failed() < usize::MAX {
                old(self).failed() + 1
            } else {
                old(self).failed()
            },
            final(self).passed() == if !failed && old(self).passed() < usize::MAX {
                old(self).passed() + 1
            } else {
                old(self).passed()
            },
    {
        if failed {
            if self.failures < usize::MAX {
                self.failures = self.failures + 1;
            }
        } else {
            if self.passes < usize::MAX {
                self.passes = self.passes + 1;
            }
        }
    }

    /// The number of scripts that failed.
    pub fn failures(&self) -> (count: usize)
        ensures
            count == self.failed(),
    {
        self.failures
    }

    /// The number of scripts that passed.
    pub fn passes(&self) -> (count: usize)
        ensures
            count == self.passed(),
    {
        self.passes
    }

    /// The exit code of a run: 0 where no script failed, else 1.
    pub fn exit_code(&self) -> (code: i32)
        ensures
            code == if self.failed() > 0 {
                1i32
            } else {
                0i32
            },
    {
        if self.failures > 0 {
            1
        } else {
            0
        }
    }
}

} // verus!
