//! The flash memory procedures: unlocking, erasing pages and programming
//! a word.
//!
//! Each procedure is a script of register steps for the flash interface.
//! A step either performs a register write or reads one status bit and
//! branches on it. [`flash_action`] says what the step at a position
//! does, and [`flash_step`] where the script goes on after a read; the
//! program performs the writes and reads on the device and feeds the bits
//! back.

use vstd::prelude::*;

verus! {

/// The first key of the unlock sequence.
pub const UNLOCK_KEY1: u32 = 0x4567_0123;

/// The second key of the unlock sequence.
pub const UNLOCK_KEY2: u32 = 0xCDEF_89AB;

/// The first page that the bulk erase routines clear.
pub const ERASE_BASE: u32 = 0x0803_0000;

/// The size of a flash page in bytes.
pub const PAGE_SIZE: u32 = 2048;

/// A status bit of the flash interface.
#[derive(Clone, Copy, PartialEq, Eq, Debug, Structural)]
pub enum FlashBit {
    /// The LOCK bit of the control register.
    Lock,
    /// The BSY bit of the status register.
    Busy,
    /// The WRPRTERR bit of the status register.
    WriteProtectError,
    /// The PGERR bit of the status register.
    ProgrammingError,
    /// The EOP bit of the status register.
    EndOfOperation,
}

/// A register write of the flash interface, or the busy report.
#[derive(Clone, Copy, PartialEq, Eq, Debug, Structural)]
pub enum FlashWrite {
    /// Write a key to the key register.
    Key(u32),
    /// Clear WRPRTERR by writing it as 1.
    ClearWriteProtectError,
    /// Clear PGERR by writing it as 1.
    ClearProgrammingError,
    /// Clear EOP by writing it as 1.
    ClearEndOfOperation,
    /// Set PER in the control register.
    SetPageErase,
    /// Write the address register.
    SetAddress(u32),
    /// Set STRT in the control register.
    SetStart,
    /// Set LOCK in the control register.
    SetLock,
    /// Set PG in the control register.
    SetProgram,
    /// Clear PG in the control register.
    ClearProgram,
    /// Store a half-word at an address of the flash.
    ProgramHalfWord(u32, u16),
    /// Print that the flash was busy.
    ReportBusy,
}

/// A step of a flash script.
#[derive(Clone, Copy, PartialEq, Eq, Debug, Structural)]
pub enum FlashInstr {
    /// Perform the write and go on.
    Do(FlashWrite),
    /// Read the bit; if it is clear, skip the given number of steps.
    SkipIfClear(FlashBit, usize),
    /// Read the bit until it reads clear.
    WaitWhileSet(FlashBit),
    /// Read the bit; if it is clear, the procedure ends reporting success.
    ReturnIfClear(FlashBit),
    /// Read the bit; the procedure ends, reporting success if it is clear.
    ReturnClear(FlashBit),
}

/// What the program does at a position of a script.
#[derive(Clone, Copy, PartialEq, Eq, Debug, Structural)]
pub enum FlashAction {
    Write(FlashWrite),
    Read(FlashBit),
    /// The script has run to its end.
    Done,
}

/// Where a script stands after a step.
#[derive(Clone, Copy, PartialEq, Eq, Debug, Structural)]
pub enum FlashState {
    /// It goes on at the position.
    Running(usize),
    /// It ended early with the reported result.
    Returned(bool),
}

/// The action at position `pc` of `script`.
pub open spec fn action_spec(script: Seq<FlashInstr>, pc: int) -> FlashAction {
    if pc < 0 || pc >= script.len() {
        FlashAction::Done
    } else {
        match script[pc] {
            FlashInstr::Do(w) => FlashAction::Write(w),
            FlashInstr::SkipIfClear(b, _) => FlashAction::Read(b),
            FlashInstr::WaitWhileSet(b) => FlashAction::Read(b),
            FlashInstr::ReturnIfClear(b) => FlashAction::Read(b),
            FlashInstr::ReturnClear(b) => FlashAction::Read(b),
        }
    }
}

/// Where `script` goes on from position `pc` once the step there is done;
/// `bit_set` is the value read, for the steps that read. A skip past the
/// end stops at the end.
pub open spec fn step_spec(script: Seq<FlashInstr>, pc: int, bit_set: bool) -> FlashState {
    match script[pc] {
        FlashInstr::Do(_) => FlashState::Running((pc + 1) as usize),
        FlashInstr::SkipIfClear(_, n) => if bit_set {
            FlashState::Running((pc + 1) as usize)
        } else if pc + 1 + n >= script.len() {
            FlashState::Running(script.len() as usize)
        } else {
            FlashState::Running((pc + 1 + n) as usize)
        },
        FlashInstr::WaitWhileSet(_) => if bit_set {
            FlashState::Running(pc as usize)
        } else {
            FlashState::Running((pc + 1) as usize)
        },
        FlashInstr::ReturnIfClear(_) => if bit_set {
            FlashState::Running((pc + 1) as usize)
        } else {
            FlashState::Returned(true)
        },
        FlashInstr::ReturnClear(_) => FlashState::Returned(!bit_set),
    }
}

/// What the program does at position `pc` of `script`.
pub fn flash_action(script: &Vec<FlashInstr>, pc: usize) -> (a: FlashAction)
    ensures
        a == action_spec(script@, pc as int),
{
    if pc >= script.len() {
        return FlashAction::Done;
    }
    match script[pc] {
        FlashInstr::Do(w) => FlashAction::Write(w),
        FlashInstr::SkipIfClear(b, _) => FlashAction::Read(b),
        FlashInstr::WaitWhileSet(b) => FlashAction::Read(b),
        FlashInstr::ReturnIfClear(b) => FlashAction::Read(b),
        FlashInstr::ReturnClear(b) => FlashAction::Read(b),
    }
}

/// Where `script` goes on after the step at `pc`, given the bit read
/// there (ignored by a write step).
pub fn flash_step(script: &Vec<FlashInstr>, pc: usize, bit_set: bool) -> (s: FlashState)
    requires
        pc < script.len(),
    ensures
        s == step_spec(script@, pc as int, bit_set),
{
    match script[pc] {
        FlashInstr::Do(_) => FlashState::Running(pc + 1),
        FlashInstr::SkipIfClear(_, n) => {
            if bit_set {
                FlashState::Running(pc + 1)
            } else if n >= script.len() - pc - 1 {
                FlashState::Running(script.len())
            } else {
                FlashState::Running(pc + 1 + n)
            }
        },
        FlashInstr::WaitWhileSet(_) => {
            if bit_set {
                FlashState::Running(pc)
            } else {
                FlashState::Running(pc + 1)
            }
        },
        FlashInstr::ReturnIfClear(_) => {
            if bit_set {
                FlashState::Running(pc + 1)
            } else {
                FlashState::Returned(true)
            }
        },
        FlashInstr::ReturnClear(_) => FlashState::Returned(!bit_set),
    }
}

/// What a run of `script` from `pc` writes when the reads return
/// `replies` in turn, and where it stands when it ends or runs out of
/// replies.
pub open spec fn run(script: Seq<FlashInstr>, pc: int, replies: Seq<bool>) -> (Seq<FlashWrite>, FlashState)
    decreases replies.len(), script.len() - pc,
{
    if pc < 0 || pc >= script.len() {
        (Seq::empty(), FlashState::Running(pc as usize))
    } else {
        match script[pc] {
            FlashInstr::Do(w) => {
                let r = run(script, pc + 1, replies);
                (seq![w] + r.0, r.1)
            },
            _ => if replies.len() == 0 {
                (Seq::empty(), FlashState::Running(pc as usize))
            } else {
                match step_spec(script, pc, replies[0]) {
                    FlashState::Running(next) => run(script, next as int, replies.drop_first()),
                    FlashState::Returned(b) => (Seq::empty(), FlashState::Returned(b)),
                }
            },
        }
    }
}

/// The unlock procedure: if LOCK reads clear the flash is unlocked;
/// otherwise the two keys are written and LOCK is read again.
pub open spec fn unlock_spec() -> Seq<FlashInstr> {
    seq![
        FlashInstr::ReturnIfClear(FlashBit::Lock),
        FlashInstr::Do(FlashWrite::Key(UNLOCK_KEY1)),
        FlashInstr::Do(FlashWrite::Key(UNLOCK_KEY2)),
        FlashInstr::ReturnClear(FlashBit::Lock),
    ]
}

/// The unlock procedure as a part of a longer procedure, whose result is
/// not used: the same reads and writes, without ending the procedure.
pub open spec fn unlock_inline_spec() -> Seq<FlashInstr> {
    seq![
        FlashInstr::SkipIfClear(FlashBit::Lock, 3),
        FlashInstr::Do(FlashWrite::Key(UNLOCK_KEY1)),
        FlashInstr::Do(FlashWrite::Key(UNLOCK_KEY2)),
        FlashInstr::SkipIfClear(FlashBit::Lock, 0),
    ]
}

/// Waiting until the flash is not busy.
pub open spec fn wait_ready_spec() -> Seq<FlashInstr> {
    seq![FlashInstr::WaitWhileSet(FlashBit::Busy)]
}

/// Clearing the write protection and programming error flags that are set.
pub open spec fn clear_error_flags_spec() -> Seq<FlashInstr> {
    seq![
        FlashInstr::SkipIfClear(FlashBit::WriteProtectError, 1),
        FlashInstr::Do(FlashWrite::ClearWriteProtectError),
        FlashInstr::SkipIfClear(FlashBit::ProgrammingError, 1),
        FlashInstr::Do(FlashWrite::ClearProgrammingError),
    ]
}

/// Reporting a busy flash.
pub open spec fn report_busy_spec() -> Seq<FlashInstr> {
    seq![FlashInstr::SkipIfClear(FlashBit::Busy, 1), FlashInstr::Do(FlashWrite::ReportBusy)]
}

/// Erasing the page at `page`: report a busy flash, clear the error flags,
/// select page erase and the page, start, wait twice for the flash, and
/// lock it.
pub open spec fn erase_page_spec(page: u32) -> Seq<FlashInstr> {
    report_busy_spec() + clear_error_flags_spec() + seq![
        FlashInstr::Do(FlashWrite::SetPageErase),
        FlashInstr::Do(FlashWrite::SetAddress(page)),
        FlashInstr::Do(FlashWrite::SetStart),
        FlashInstr::WaitWhileSet(FlashBit::Busy),
        FlashInstr::WaitWhileSet(FlashBit::Busy),
        FlashInstr::Do(FlashWrite::SetLock),
    ]
}

/// The two half-words that program `data` at `addr`: the low half at
/// `addr`, the high half at `addr + 2`.
pub open spec fn halves(addr: u32, data: u32) -> (FlashWrite, FlashWrite) {
    (
        FlashWrite::ProgramHalfWord(addr, data as u16),
        FlashWrite::ProgramHalfWord((addr + 2) as u32, (data >> 16u32) as u16),
    )
}

/// Programming the word `data` at `addr`: unlock, report a busy flash,
/// clear the error flags, enable programming, store the two half-words,
/// wait for the flash, lock it, clear EOP if set, and last write PG clear.
/// That write comes after the flash is locked again, and a locked flash
/// interface may ignore it, so programming may stay enabled.
pub open spec fn write_to_flash_spec(addr: u32, data: u32) -> Seq<FlashInstr> {
    unlock_inline_spec() + report_busy_spec() + clear_error_flags_spec() + seq![
        FlashInstr::Do(FlashWrite::SetProgram),
        FlashInstr::Do(halves(addr, data).0),
        FlashInstr::Do(halves(addr, data).1),
        FlashInstr::WaitWhileSet(FlashBit::Busy),
        FlashInstr::Do(FlashWrite::SetLock),
        FlashInstr::SkipIfClear(FlashBit::EndOfOperation, 1),
        FlashInstr::Do(FlashWrite::ClearEndOfOperation),
        FlashInstr::Do(FlashWrite::ClearProgram),
    ]
}

/// Erasing one page from a possibly locked flash: unlock, wait for the
/// flash, erase.
pub open spec fn delete_pg_spec(page: u32) -> Seq<FlashInstr> {
    unlock_inline_spec() + wait_ready_spec() + erase_page_spec(page)
}

/// The address of page `i` of the bulk erase range.
pub open spec fn page_address(i: int) -> u32 {
    (ERASE_BASE + i * PAGE_SIZE) as u32
}

/// `count` copies of a procedure applied to the pages from
/// [`ERASE_BASE`] on.
pub open spec fn over_pages(count: nat, per_page: spec_fn(u32) -> Seq<FlashInstr>) -> Seq<FlashInstr>
    decreases count,
{
    if count == 0 {
        Seq::empty()
    } else {
        over_pages((count - 1) as nat, per_page) + per_page(page_address(count - 1))
    }
}

fn push_all(v: &mut Vec<FlashInstr>, s: &[FlashInstr])
    ensures
        final(v)@ == old(v)@ + s@,
{
    let mut i: usize = 0;
    while i < s.len()
        invariant
            i <= s.len(),
            v@ == old(v)@ + s@.take(i as int),
        decreases s.len() - i,
    {
        v.push(s[i]);
        i = i + 1;
        assert(s@.take(i as int) =~= s@.take(i - 1).push(s@[i - 1]));
    }
    assert(s@.take(i as int) =~= s@);
}

/// The unlock procedure; see [`unlock_spec`].
pub fn unlock() -> (script: Vec<FlashInstr>)
    ensures
        script@ == unlock_spec(),
{
    let mut v: Vec<FlashInstr> = Vec::new();
    let s = [
        FlashInstr::ReturnIfClear(FlashBit::Lock),
        FlashInstr::Do(FlashWrite::Key(UNLOCK_KEY1)),
        FlashInstr::Do(FlashWrite::Key(UNLOCK_KEY2)),
        FlashInstr::ReturnClear(FlashBit::Lock),
    ];
    push_all(&mut v, &s);
    assert(v@ =~= unlock_spec());
    v
}

fn push_unlock_inline(v: &mut Vec<FlashInstr>)
    ensures
        final(v)@ == old(v)@ + unlock_inline_spec(),
{
    let s = [
        FlashInstr::SkipIfClear(FlashBit::Lock, 3),
        FlashInstr::Do(FlashWrite::Key(UNLOCK_KEY1)),
        FlashInstr::Do(FlashWrite::Key(UNLOCK_KEY2)),
        FlashInstr::SkipIfClear(FlashBit::Lock, 0),
    ];
    push_all(v, &s);
    assert(s@ =~= unlock_inline_spec());
}

fn push_wait_ready(v: &mut Vec<FlashInstr>)
    ensures
        final(v)@ == old(v)@ + wait_ready_spec(),
{
    v.push(FlashInstr::WaitWhileSet(FlashBit::Busy));
    assert(v@ =~= old(v)@ + wait_ready_spec());
}

fn push_clear_error_flags(v: &mut Vec<FlashInstr>)
    ensures
        final(v)@ == old(v)@ + clear_error_flags_spec(),
{
    let s = [
        FlashInstr::SkipIfClear(FlashBit::WriteProtectError, 1),
        FlashInstr::Do(FlashWrite::ClearWriteProtectError),
        FlashInstr::SkipIfClear(FlashBit::ProgrammingError, 1),
        FlashInstr::Do(FlashWrite::ClearProgrammingError),
    ];
    push_all(v, &s);
    assert(s@ =~= clear_error_flags_spec());
}

fn push_report_busy(v: &mut Vec<FlashInstr>)
    ensures
        final(v)@ == old(v)@ + report_busy_spec(),
{
    let s = [FlashInstr::SkipIfClear(FlashBit::Busy, 1), FlashInstr::Do(FlashWrite::ReportBusy)];
    push_all(v, &s);
    assert(s@ =~= report_busy_spec());
}

fn push_erase_page(v: &mut Vec<FlashInstr>, page: u32)
    ensures
        final(v)@ == old(v)@ + erase_page_spec(page),
{
    push_report_busy(v);
    push_clear_error_flags(v);
    let s = [
        FlashInstr::Do(FlashWrite::SetPageErase),
        FlashInstr::Do(FlashWrite::SetAddress(page)),
        FlashInstr::Do(FlashWrite::SetStart),
        FlashInstr::WaitWhileSet(FlashBit::Busy),
        FlashInstr::WaitWhileSet(FlashBit::Busy),
        FlashInstr::Do(FlashWrite::SetLock),
    ];
    push_all(v, &s);
    assert(v@ =~= old(v)@ + erase_page_spec(page));
}

/// Waiting until the flash is not busy; see [`wait_ready_spec`].
pub fn wait_ready() -> (script: Vec<FlashInstr>)
    ensures
        script@ == wait_ready_spec(),
{
    let mut v: Vec<FlashInstr> = Vec::new();
    push_wait_ready(&mut v);
    assert(v@ =~= wait_ready_spec());
    v
}

/// Clearing the error flags; see [`clear_error_flags_spec`].
pub fn clear_error_flags() -> (script: Vec<FlashInstr>)
    ensures
        script@ == clear_error_flags_spec(),
{
    let mut v: Vec<FlashInstr> = Vec::new();
    push_clear_error_flags(&mut v);
    assert(v@ =~= clear_error_flags_spec());
    v
}

/// Erasing a page; see [`erase_page_spec`].
pub fn erase_page(page: u32) -> (script: Vec<FlashInstr>)
    ensures
        script@ == erase_page_spec(page),
{
    let mut v: Vec<FlashInstr> = Vec::new();
    push_erase_page(&mut v, page);
    assert(v@ =~= erase_page_spec(page));
    v
}

/// Programming a word; see [`write_to_flash_spec`]. The address of the
/// high half is computed in the machine's address width, which the
/// requirement keeps from overflowing.
pub fn write_to_flash(addr: u32, data: u32) -> (script: Vec<FlashInstr>)
    requires
        addr + 2 <= u32::MAX,
    ensures
        script@ == write_to_flash_spec(addr, data),
{
    let mut v: Vec<FlashInstr> = Vec::new();
    push_unlock_inline(&mut v);
    push_report_busy(&mut v);
    push_clear_error_flags(&mut v);
    let s = [
        FlashInstr::Do(FlashWrite::SetProgram),
        FlashInstr::Do(FlashWrite::ProgramHalfWord(addr, data as u16)),
        FlashInstr::Do(FlashWrite::ProgramHalfWord(addr + 2, data.wrapping_shr(16) as u16)),
        FlashInstr::WaitWhileSet(FlashBit::Busy),
        FlashInstr::Do(FlashWrite::SetLock),
        FlashInstr::SkipIfClear(FlashBit::EndOfOperation, 1),
        FlashInstr::Do(FlashWrite::ClearEndOfOperation),
        FlashInstr::Do(FlashWrite::ClearProgram),
    ];
    push_all(&mut v, &s);
    assert(v@ =~= write_to_flash_spec(addr, data));
    v
}

/// Erasing one page of a possibly locked flash; see [`delete_pg_spec`].
pub fn delete_pg(page: u32) -> (script: Vec<FlashInstr>)
    ensures
        script@ == delete_pg_spec(page),
{
    let mut v: Vec<FlashInstr> = Vec::new();
    push_unlock_inline(&mut v);
    push_wait_ready(&mut v);
    push_erase_page(&mut v, page);
    assert(v@ =~= delete_pg_spec(page));
    v
}

/// Erasing the 100 pages from [`ERASE_BASE`] on, without unlocking in
/// between.
pub fn erase_all() -> (script: Vec<FlashInstr>)
    ensures
        script@ == over_pages(100, |p: u32| erase_page_spec(p)),
{
    let mut v: Vec<FlashInstr> = Vec::new();
    let mut i: u32 = 0;
    while i < 100
        invariant
            i <= 100,
            v@ == over_pages(i as nat, |p: u32| erase_page_spec(p)),
        decreases 100 - i,
    {
        push_erase_page(&mut v, ERASE_BASE + i * PAGE_SIZE);
        i = i + 1;
    }
    v
}

/// Erasing the 25 pages from [`ERASE_BASE`] on, each after unlocking the
/// flash and waiting for it.
pub fn delete_all_pg() -> (script: Vec<FlashInstr>)
    ensures
        script@ == over_pages(25, |p: u32| delete_pg_spec(p)),
{
    let mut v: Vec<FlashInstr> = Vec::new();
    let mut i: u32 = 0;
    while i < 25
        invariant
            i <= 25,
            v@ == over_pages(i as nat, |p: u32| delete_pg_spec(p)),
        decreases 25 - i,
    {
        push_unlock_inline(&mut v);
        push_wait_ready(&mut v);
        push_erase_page(&mut v, ERASE_BASE + i * PAGE_SIZE);
        assert(v@ =~= over_pages((i + 1) as nat, |p: u32| delete_pg_spec(p)));
        i = i + 1;
    }
    v
}

/// The unlock procedure succeeds exactly when LOCK reads clear: at once,
/// with no write, or after the two keys are written.
pub proof fn lemma_unlock_reports_lock(replies: Seq<bool>)
    requires
        replies.len() >= 2,
    ensures
        !replies[0] ==> run(unlock_spec(), 0, replies) == (Seq::<FlashWrite>::empty(), FlashState::Returned(true)),
        replies[0] ==> run(unlock_spec(), 0, replies) == (
            seq![FlashWrite::Key(UNLOCK_KEY1), FlashWrite::Key(UNLOCK_KEY2)],
            FlashState::Returned(!replies[1]),
        ),
{
    let s = unlock_spec();
    let rest = replies.drop_first();
    if replies[0] {
        assert(run(s, 3, rest) == (Seq::<FlashWrite>::empty(), FlashState::Returned(!rest[0])));
        assert(run(s, 2, rest).0 =~= seq![FlashWrite::Key(UNLOCK_KEY2)]);
        assert(run(s, 1, rest).0 =~= seq![FlashWrite::Key(UNLOCK_KEY1), FlashWrite::Key(UNLOCK_KEY2)]);
    }
}

/// Programming stores the word: the high half shifted up, combined with
/// the low half, gives back `data`.
pub proof fn lemma_halves_recombine(addr: u32, data: u32)
    ensures
        ({
            let (lo, hi) = halves(addr, data);
            match (lo, hi) {
                (FlashWrite::ProgramHalfWord(a0, v0), FlashWrite::ProgramHalfWord(a1, v1)) => {
                    &&& a0 == addr
                    &&& a1 == addr + 2 || addr + 2 > u32::MAX
                    &&& ((v1 as u32) << 16u32) | (v0 as u32) == data
                },
                _ => false,
            }
        }),
{
    assert((((data >> 16u32) as u16) as u32) << 16u32 | ((data as u16) as u32) == data) by (bit_vector);
}

/// Whether a script ends with a write that every completed run reaches:
/// its last step is a write, no earlier step returns, and no earlier skip
/// jumps past the last step.
pub open spec fn ends_with_write(script: Seq<FlashInstr>) -> bool {
    &&& 0 < script.len() <= usize::MAX
    &&& script.last() is Do
    &&& forall|i: int|
        0 <= i < script.len() - 1 ==> match #[trigger] script[i] {
            FlashInstr::SkipIfClear(_, n) => i + 1 + n <= script.len() - 1,
            FlashInstr::ReturnIfClear(_) => false,
            FlashInstr::ReturnClear(_) => false,
            _ => true,
        }
}

proof fn lemma_completed_run_ends_with_last(script: Seq<FlashInstr>, pc: int, replies: Seq<bool>)
    requires
        ends_with_write(script),
        0 <= pc <= script.len() - 1,
    ensures
        run(script, pc, replies).1 == FlashState::Running(script.len() as usize) ==> {
            &&& run(script, pc, replies).0.len() > 0
            &&& script.last() == FlashInstr::Do(run(script, pc, replies).0.last())
        },
    decreases replies.len(), script.len() - pc,
{
    let len = script.len() as int;
    match script[pc] {
        FlashInstr::Do(w) => {
            if pc == len - 1 {
                assert(run(script, pc + 1, replies) == (Seq::<FlashWrite>::empty(), FlashState::Running(len as usize)));
                assert((seq![w] + Seq::<FlashWrite>::empty()) =~= seq![w]);
            } else {
                lemma_completed_run_ends_with_last(script, pc + 1, replies);
                let r = run(script, pc + 1, replies);
                if r.1 == FlashState::Running(len as usize) {
                    assert((seq![w] + r.0).last() == r.0.last());
                }
            }
        },
        _ => {
            if pc == len - 1 {
                assert(script[pc] == script.last());
            } else if replies.len() > 0 {
                match step_spec(script, pc, replies[0]) {
                    FlashState::Running(next) => {
                        assert(0 <= next <= len - 1);
                        lemma_completed_run_ends_with_last(script, next as int, replies.drop_first());
                    },
                    FlashState::Returned(_) => {
                        assert(false);
                    },
                }
            }
        },
    }
}

/// A completed page erase ends by locking the flash: whatever the status
/// bits read, a run that gets through the procedure performs `SetLock`
/// last.
pub proof fn lemma_erase_page_ends_locked(page: u32, replies: Seq<bool>)
    ensures
        run(erase_page_spec(page), 0, replies).1 == FlashState::Running(
            erase_page_spec(page).len() as usize,
        ) ==> run(erase_page_spec(page), 0, replies).0.last() == FlashWrite::SetLock,
{
    let s = erase_page_spec(page);
    assert(s =~= seq![
        FlashInstr::SkipIfClear(FlashBit::Busy, 1),
        FlashInstr::Do(FlashWrite::ReportBusy),
        FlashInstr::SkipIfClear(FlashBit::WriteProtectError, 1),
        FlashInstr::Do(FlashWrite::ClearWriteProtectError),
        FlashInstr::SkipIfClear(FlashBit::ProgrammingError, 1),
        FlashInstr::Do(FlashWrite::ClearProgrammingError),
        FlashInstr::Do(FlashWrite::SetPageErase),
        FlashInstr::Do(FlashWrite::SetAddress(page)),
        FlashInstr::Do(FlashWrite::SetStart),
        FlashInstr::WaitWhileSet(FlashBit::Busy),
        FlashInstr::WaitWhileSet(FlashBit::Busy),
        FlashInstr::Do(FlashWrite::SetLock),
    ]);
    assert(ends_with_write(s));
    lemma_completed_run_ends_with_last(s, 0, replies);
}

/// Whether every step before position `k` of a script stays within the
/// first `k + 1` positions: no step before `k` returns, and no skip there
/// jumps past `k`.
pub open spec fn stays_before(script: Seq<FlashInstr>, k: int) -> bool {
    &&& 0 <= k < script.len() <= usize::MAX
    &&& forall|i: int|
        0 <= i < k ==> match #[trigger] script[i] {
            FlashInstr::SkipIfClear(_, n) => i + 1 + n <= k,
            FlashInstr::ReturnIfClear(_) => false,
            FlashInstr::ReturnClear(_) => false,
            _ => true,
        }
}

/// Whether the run of `script` from `pc` on `replies` is some writes
/// followed by the run from `k` on the replies left over.
pub open spec fn passes_through(script: Seq<FlashInstr>, k: int, pc: int, replies: Seq<bool>) -> bool {
    exists|j: int, w: Seq<FlashWrite>|
        0 <= j <= replies.len() && run(script, pc, replies) == (
            w + run(script, k, replies.subrange(j, replies.len() as int)).0,
            run(script, k, replies.subrange(j, replies.len() as int)).1,
        )
}

proof fn lemma_completed_run_passes(script: Seq<FlashInstr>, k: int, pc: int, replies: Seq<bool>)
    requires
        stays_before(script, k),
        0 <= pc <= k,
    ensures
        run(script, pc, replies).1 == FlashState::Running(script.len() as usize) ==> passes_through(
            script,
            k,
            pc,
            replies,
        ),
    decreases replies.len(), k - pc,
{
    let len = script.len() as int;
    if pc == k {
        let r = run(script, k, replies.subrange(0, replies.len() as int));
        assert(replies.subrange(0, replies.len() as int) =~= replies);
        assert(Seq::<FlashWrite>::empty() + r.0 =~= r.0);
        assert(run(script, pc, replies) == (Seq::<FlashWrite>::empty() + r.0, r.1));
    } else {
        match script[pc] {
            FlashInstr::Do(w0) => {
                lemma_completed_run_passes(script, k, pc + 1, replies);
                let r = run(script, pc + 1, replies);
                if r.1 == FlashState::Running(len as usize) {
                    let (j, w) = choose|j: int, w: Seq<FlashWrite>|
                        0 <= j <= replies.len() && run(script, pc + 1, replies) == (
                            w + run(script, k, replies.subrange(j, replies.len() as int)).0,
                            run(script, k, replies.subrange(j, replies.len() as int)).1,
                        );
                    let rest = run(script, k, replies.subrange(j, replies.len() as int));
                    assert(seq![w0] + (w + rest.0) =~= (seq![w0] + w) + rest.0);
                    assert(run(script, pc, replies) == ((seq![w0] + w) + rest.0, rest.1));
                }
            },
            _ => {
                assert(script[pc] == script[pc]);
                if replies.len() > 0 {
                    match step_spec(script, pc, replies[0]) {
                        FlashState::Running(next) => {
                            assert(0 <= next <= k);
                            let rs = replies.drop_first();
                            lemma_completed_run_passes(script, k, next as int, rs);
                            if run(script, pc, replies).1 == FlashState::Running(len as usize) {
                                let (j, w) = choose|j: int, w: Seq<FlashWrite>|
                                    0 <= j <= rs.len() && run(script, next as int, rs) == (
                                        w + run(script, k, rs.subrange(j, rs.len() as int)).0,
                                        run(script, k, rs.subrange(j, rs.len() as int)).1,
                                    );
                                assert(rs.subrange(j, rs.len() as int) =~= replies.subrange(
                                    j + 1,
                                    replies.len() as int,
                                ));
                                assert(run(script, pc, replies) == run(script, next as int, rs));
                            }
                        },
                        FlashState::Returned(_) => {},
                    }
                }
            },
        }
    }
}

/// Clearing the error flags clears exactly the flags that read set.
pub proof fn lemma_clear_error_flags_clears_set_flags(replies: Seq<bool>)
    requires
        replies.len() >= 2,
    ensures
        run(clear_error_flags_spec(), 0, replies) == (
            (if replies[0] { seq![FlashWrite::ClearWriteProtectError] } else { Seq::empty() }) + (
            if replies[1] {
                seq![FlashWrite::ClearProgrammingError]
            } else {
                Seq::empty()
            }),
            FlashState::Running(4),
        ),
{
    let s = clear_error_flags_spec();
    let r1 = replies.drop_first();
    let r2 = r1.drop_first();
    assert(run(s, 4, r2) == (Seq::<FlashWrite>::empty(), FlashState::Running(4)));
    assert(run(s, 3, r2).0 =~= seq![FlashWrite::ClearProgrammingError]);
    assert(run(s, 2, r1).0 =~= (if r1[0] { seq![FlashWrite::ClearProgrammingError] } else { Seq::empty() }));
    assert(run(s, 1, r1).0 =~= seq![FlashWrite::ClearWriteProtectError] + run(s, 2, r1).0);
    assert(run(s, 0, replies).0 =~= (if replies[0] { seq![FlashWrite::ClearWriteProtectError] } else {
        Seq::empty()
    }) + (if replies[1] { seq![FlashWrite::ClearProgrammingError] } else { Seq::empty() }));
}

/// A completed programming run enables programming, stores the low half
/// and then the high half of the word, one right after the other, and
/// ends with the write that clears PG (which comes after the lock).
pub proof fn lemma_write_to_flash_programs_word(addr: u32, data: u32, replies: Seq<bool>)
    ensures
        ({
            let s = write_to_flash_spec(addr, data);
            let r = run(s, 0, replies);
            r.1 == FlashState::Running(s.len() as usize) ==> {
                &&& exists|i: int|
                    0 <= i && i + 3 <= r.0.len() && #[trigger] r.0.subrange(i, i + 3) == seq![
                        FlashWrite::SetProgram,
                        halves(addr, data).0,
                        halves(addr, data).1,
                    ]
                &&& r.0.last() == FlashWrite::ClearProgram
            }
        }),
{
    let s = write_to_flash_spec(addr, data);
    assert(s.len() == 18);
    assert forall|i: int| 0 <= i < 10 implies match #[trigger] s[i] {
        FlashInstr::SkipIfClear(_, n) => i + 1 + n <= 10,
        FlashInstr::ReturnIfClear(_) => false,
        FlashInstr::ReturnClear(_) => false,
        _ => true,
    } by {
        assert(s[0] == FlashInstr::SkipIfClear(FlashBit::Lock, 3));
        assert(s[1] == FlashInstr::Do(FlashWrite::Key(UNLOCK_KEY1)));
        assert(s[2] == FlashInstr::Do(FlashWrite::Key(UNLOCK_KEY2)));
        assert(s[3] == FlashInstr::SkipIfClear(FlashBit::Lock, 0));
        assert(s[4] == FlashInstr::SkipIfClear(FlashBit::Busy, 1));
        assert(s[5] == FlashInstr::Do(FlashWrite::ReportBusy));
        assert(s[6] == FlashInstr::SkipIfClear(FlashBit::WriteProtectError, 1));
        assert(s[7] == FlashInstr::Do(FlashWrite::ClearWriteProtectError));
        assert(s[8] == FlashInstr::SkipIfClear(FlashBit::ProgrammingError, 1));
        assert(s[9] == FlashInstr::Do(FlashWrite::ClearProgrammingError));
    }
    assert(stays_before(s, 10));
    assert forall|i: int| 0 <= i < s.len() - 1 implies match #[trigger] s[i] {
        FlashInstr::SkipIfClear(_, n) => i + 1 + n <= s.len() - 1,
        FlashInstr::ReturnIfClear(_) => false,
        FlashInstr::ReturnClear(_) => false,
        _ => true,
    } by {
        if i < 10 {
            assert(match s[i] {
                FlashInstr::SkipIfClear(_, n) => i + 1 + n <= 10,
                FlashInstr::ReturnIfClear(_) => false,
                FlashInstr::ReturnClear(_) => false,
                _ => true,
            });
        } else {
            assert(s[10] == FlashInstr::Do(FlashWrite::SetProgram));
            assert(s[11] == FlashInstr::Do(halves(addr, data).0));
            assert(s[12] == FlashInstr::Do(halves(addr, data).1));
            assert(s[13] == FlashInstr::WaitWhileSet(FlashBit::Busy));
            assert(s[14] == FlashInstr::Do(FlashWrite::SetLock));
            assert(s[15] == FlashInstr::SkipIfClear(FlashBit::EndOfOperation, 1));
            assert(s[16] == FlashInstr::Do(FlashWrite::ClearEndOfOperation));
        }
    }
    assert(s.last() == FlashInstr::Do(FlashWrite::ClearProgram));
    assert(ends_with_write(s));
    lemma_completed_run_ends_with_last(s, 0, replies);
    lemma_completed_run_passes(s, 10, 0, replies);
    let r = run(s, 0, replies);
    if r.1 == FlashState::Running(s.len() as usize) {
        let (j, w) = choose|j: int, w: Seq<FlashWrite>|
            0 <= j <= replies.len() && run(s, 0, replies) == (
                w + run(s, 10, replies.subrange(j, replies.len() as int)).0,
                run(s, 10, replies.subrange(j, replies.len() as int)).1,
            );
        let rest = replies.subrange(j, replies.len() as int);
        let t = run(s, 13, rest);
        assert(s[10] == FlashInstr::Do(FlashWrite::SetProgram));
        assert(s[11] == FlashInstr::Do(halves(addr, data).0));
        assert(s[12] == FlashInstr::Do(halves(addr, data).1));
        assert(run(s, 12, rest).0 =~= seq![halves(addr, data).1] + t.0);
        assert(run(s, 11, rest).0 =~= seq![halves(addr, data).0, halves(addr, data).1] + t.0);
        assert(run(s, 10, rest).0 =~= seq![FlashWrite::SetProgram, halves(addr, data).0, halves(addr, data).1] + t.0);
        let i = w.len() as int;
        assert(r.0.subrange(i, i + 3) =~= seq![FlashWrite::SetProgram, halves(addr, data).0, halves(addr, data).1]);
    }
}


/// What a run of `script` from `pc` writes on a device whose status bits
/// read as `flags` at every read, and where it stops: at the end, at a
/// return, or at a wait on a bit that reads set, which goes on waiting.
/// Each step is the one that [`action_spec`] and [`step_spec`] give.
pub open spec fn run_steady(script: Seq<FlashInstr>, pc: int, flags: spec_fn(FlashBit) -> bool) -> (
    Seq<FlashWrite>,
    FlashState,
)
    decreases script.len() - pc,
{
    if pc < 0 || pc >= script.len() {
        (Seq::empty(), FlashState::Running(pc as usize))
    } else {
        match action_spec(script, pc) {
            FlashAction::Write(w) => {
                let r = run_steady(script, pc + 1, flags);
                (seq![w] + r.0, r.1)
            },
            FlashAction::Read(b) => match step_spec(script, pc, flags(b)) {
                FlashState::Running(next) => if pc < next <= script.len() {
                    run_steady(script, next as int, flags)
                } else {
                    (Seq::empty(), FlashState::Running(pc as usize))
                },
                FlashState::Returned(x) => (Seq::empty(), FlashState::Returned(x)),
            },
            FlashAction::Done => (Seq::empty(), FlashState::Running(pc as usize)),
        }
    }
}

/// The unlock keys, written when LOCK reads set.
pub open spec fn lock_keys(flags: spec_fn(FlashBit) -> bool) -> Seq<FlashWrite> {
    if flags(FlashBit::Lock) {
        seq![FlashWrite::Key(UNLOCK_KEY1), FlashWrite::Key(UNLOCK_KEY2)]
    } else {
        Seq::empty()
    }
}

/// The clears of the error flags that read set: WRPRTERR's, then PGERR's.
pub open spec fn flag_clears(flags: spec_fn(FlashBit) -> bool) -> Seq<FlashWrite> {
    (if flags(FlashBit::WriteProtectError) {
        seq![FlashWrite::ClearWriteProtectError]
    } else {
        Seq::empty()
    }) + (if flags(FlashBit::ProgrammingError) {
        seq![FlashWrite::ClearProgrammingError]
    } else {
        Seq::empty()
    })
}

proof fn lemma_steady_do(script: Seq<FlashInstr>, k: int, w: FlashWrite, flags: spec_fn(FlashBit) -> bool)
    requires
        0 <= k < script.len(),
        script[k] == FlashInstr::Do(w),
    ensures
        run_steady(script, k, flags) == (seq![w] + run_steady(script, k + 1, flags).0, run_steady(
            script,
            k + 1,
            flags,
        ).1),
{
}

proof fn lemma_steady_wait(script: Seq<FlashInstr>, k: int, b: FlashBit, flags: spec_fn(FlashBit) -> bool)
    requires
        0 <= k < script.len() <= usize::MAX,
        script[k] == FlashInstr::WaitWhileSet(b),
    ensures
        flags(b) ==> run_steady(script, k, flags) == (Seq::<FlashWrite>::empty(), FlashState::Running(k as usize)),
        !flags(b) ==> run_steady(script, k, flags) == run_steady(script, k + 1, flags),
{
}

proof fn lemma_steady_report(script: Seq<FlashInstr>, k: int, flags: spec_fn(FlashBit) -> bool)
    requires
        0 <= k,
        k + 2 <= script.len() <= usize::MAX,
        script[k] == FlashInstr::SkipIfClear(FlashBit::Busy, 1),
        script[k + 1] == FlashInstr::Do(FlashWrite::ReportBusy),
    ensures
        run_steady(script, k, flags) == ((if flags(FlashBit::Busy) {
            seq![FlashWrite::ReportBusy]
        } else {
            Seq::empty()
        }) + run_steady(script, k + 2, flags).0, run_steady(script, k + 2, flags).1),
{
    let r = run_steady(script, k + 2, flags);
    lemma_steady_do(script, k + 1, FlashWrite::ReportBusy, flags);
    assert(Seq::<FlashWrite>::empty() + r.0 =~= r.0);
}

proof fn lemma_steady_clears(script: Seq<FlashInstr>, k: int, flags: spec_fn(FlashBit) -> bool)
    requires
        0 <= k,
        k + 4 <= script.len() <= usize::MAX,
        script[k] == FlashInstr::SkipIfClear(FlashBit::WriteProtectError, 1),
        script[k + 1] == FlashInstr::Do(FlashWrite::ClearWriteProtectError),
        script[k + 2] == FlashInstr::SkipIfClear(FlashBit::ProgrammingError, 1),
        script[k + 3] == FlashInstr::Do(FlashWrite::ClearProgrammingError),
    ensures
        run_steady(script, k, flags) == (flag_clears(flags) + run_steady(script, k + 4, flags).0, run_steady(
            script,
            k + 4,
            flags,
        ).1),
{
    let r = run_steady(script, k + 4, flags);
    lemma_steady_do(script, k + 3, FlashWrite::ClearProgrammingError, flags);
    lemma_steady_do(script, k + 1, FlashWrite::ClearWriteProtectError, flags);
    let p = if flags(FlashBit::ProgrammingError) {
        seq![FlashWrite::ClearProgrammingError]
    } else {
        Seq::empty()
    };
    let w = if flags(FlashBit::WriteProtectError) {
        seq![FlashWrite::ClearWriteProtectError]
    } else {
        Seq::empty()
    };
    assert(Seq::<FlashWrite>::empty() + r.0 =~= r.0);
    assert(run_steady(script, k + 2, flags).0 =~= p + r.0);
    assert(Seq::<FlashWrite>::empty() + (p + r.0) =~= p + r.0);
    assert(seq![FlashWrite::ClearWriteProtectError] + (p + r.0) =~= (seq![FlashWrite::ClearWriteProtectError]
        + p) + r.0);
    assert(run_steady(script, k, flags).0 =~= w + (p + r.0));
    assert(w + (p + r.0) =~= (w + p) + r.0);
}

proof fn lemma_steady_unlock(script: Seq<FlashInstr>, k: int, flags: spec_fn(FlashBit) -> bool)
    requires
        0 <= k,
        k + 4 <= script.len() <= usize::MAX,
        script[k] == FlashInstr::SkipIfClear(FlashBit::Lock, 3),
        script[k + 1] == FlashInstr::Do(FlashWrite::Key(UNLOCK_KEY1)),
        script[k + 2] == FlashInstr::Do(FlashWrite::Key(UNLOCK_KEY2)),
        script[k + 3] == FlashInstr::SkipIfClear(FlashBit::Lock, 0),
    ensures
        run_steady(script, k, flags) == (lock_keys(flags) + run_steady(script, k + 4, flags).0, run_steady(
            script,
            k + 4,
            flags,
        ).1),
{
    let r = run_steady(script, k + 4, flags);
    assert(run_steady(script, k + 3, flags) == r);
    lemma_steady_do(script, k + 2, FlashWrite::Key(UNLOCK_KEY2), flags);
    lemma_steady_do(script, k + 1, FlashWrite::Key(UNLOCK_KEY1), flags);
    assert(Seq::<FlashWrite>::empty() + r.0 =~= r.0);
    assert(seq![FlashWrite::Key(UNLOCK_KEY1)] + (seq![FlashWrite::Key(UNLOCK_KEY2)] + r.0) =~= seq![
        FlashWrite::Key(UNLOCK_KEY1),
        FlashWrite::Key(UNLOCK_KEY2),
    ] + r.0);
}

/// Erasing a page on a steady device clears exactly the error flags that
/// read set, WRPRTERR's first, and then selects page erase and the page,
/// starts, and locks the flash once BSY reads clear; while BSY reads set
/// it reports the busy flash and waits after starting, before it locks.
pub proof fn lemma_erase_page_clears_set_flags(page: u32, flags: spec_fn(FlashBit) -> bool)
    ensures
        !flags(FlashBit::Busy) ==> run_steady(erase_page_spec(page), 0, flags) == (flag_clears(flags) + seq![
            FlashWrite::SetPageErase,
            FlashWrite::SetAddress(page),
            FlashWrite::SetStart,
            FlashWrite::SetLock,
        ], FlashState::Running(12)),
        flags(FlashBit::Busy) ==> run_steady(erase_page_spec(page), 0, flags) == (seq![FlashWrite::ReportBusy]
            + flag_clears(flags) + seq![
            FlashWrite::SetPageErase,
            FlashWrite::SetAddress(page),
            FlashWrite::SetStart,
        ], FlashState::Running(9)),
{
    let s = erase_page_spec(page);
    assert(s =~= seq![
        FlashInstr::SkipIfClear(FlashBit::Busy, 1),
        FlashInstr::Do(FlashWrite::ReportBusy),
        FlashInstr::SkipIfClear(FlashBit::WriteProtectError, 1),
        FlashInstr::Do(FlashWrite::ClearWriteProtectError),
        FlashInstr::SkipIfClear(FlashBit::ProgrammingError, 1),
        FlashInstr::Do(FlashWrite::ClearProgrammingError),
        FlashInstr::Do(FlashWrite::SetPageErase),
        FlashInstr::Do(FlashWrite::SetAddress(page)),
        FlashInstr::Do(FlashWrite::SetStart),
        FlashInstr::WaitWhileSet(FlashBit::Busy),
        FlashInstr::WaitWhileSet(FlashBit::Busy),
        FlashInstr::Do(FlashWrite::SetLock),
    ]);
    lemma_erase_tail(s, 2, page, flags);
    lemma_steady_report(s, 0, flags);
    let t = run_steady(s, 2, flags);
    assert(Seq::<FlashWrite>::empty() + t.0 =~= t.0);
}

/// The tail of a page erase from `k` on: clear the set error flags, select,
/// start, wait twice, lock.
proof fn lemma_erase_tail(s: Seq<FlashInstr>, k: int, page: u32, flags: spec_fn(FlashBit) -> bool)
    requires
        0 <= k,
        s.len() == k + 10,
        s.len() <= usize::MAX,
        s[k] == FlashInstr::SkipIfClear(FlashBit::WriteProtectError, 1),
        s[k + 1] == FlashInstr::Do(FlashWrite::ClearWriteProtectError),
        s[k + 2] == FlashInstr::SkipIfClear(FlashBit::ProgrammingError, 1),
        s[k + 3] == FlashInstr::Do(FlashWrite::ClearProgrammingError),
        s[k + 4] == FlashInstr::Do(FlashWrite::SetPageErase),
        s[k + 5] == FlashInstr::Do(FlashWrite::SetAddress(page)),
        s[k + 6] == FlashInstr::Do(FlashWrite::SetStart),
        s[k + 7] == FlashInstr::WaitWhileSet(FlashBit::Busy),
        s[k + 8] == FlashInstr::WaitWhileSet(FlashBit::Busy),
        s[k + 9] == FlashInstr::Do(FlashWrite::SetLock),
    ensures
        !flags(FlashBit::Busy) ==> run_steady(s, k, flags) == (flag_clears(flags) + seq![
            FlashWrite::SetPageErase,
            FlashWrite::SetAddress(page),
            FlashWrite::SetStart,
            FlashWrite::SetLock,
        ], FlashState::Running((k + 10) as usize)),
        flags(FlashBit::Busy) ==> run_steady(s, k, flags) == (flag_clears(flags) + seq![
            FlashWrite::SetPageErase,
            FlashWrite::SetAddress(page),
            FlashWrite::SetStart,
        ], FlashState::Running((k + 7) as usize)),
{
    assert(run_steady(s, k + 10, flags) == (Seq::<FlashWrite>::empty(), FlashState::Running((k + 10) as usize)));
    lemma_steady_do(s, k + 9, FlashWrite::SetLock, flags);
    lemma_steady_wait(s, k + 8, FlashBit::Busy, flags);
    lemma_steady_wait(s, k + 7, FlashBit::Busy, flags);
    lemma_steady_do(s, k + 6, FlashWrite::SetStart, flags);
    lemma_steady_do(s, k + 5, FlashWrite::SetAddress(page), flags);
    lemma_steady_do(s, k + 4, FlashWrite::SetPageErase, flags);
    lemma_steady_clears(s, k, flags);
    if flags(FlashBit::Busy) {
        assert(run_steady(s, k + 4, flags).0 =~= seq![
            FlashWrite::SetPageErase,
            FlashWrite::SetAddress(page),
            FlashWrite::SetStart,
        ]);
    } else {
        assert(run_steady(s, k + 4, flags).0 =~= seq![
            FlashWrite::SetPageErase,
            FlashWrite::SetAddress(page),
            FlashWrite::SetStart,
            FlashWrite::SetLock,
        ]);
    }
}

/// Erasing a page of a possibly locked flash on a steady device: when LOCK
/// reads set, the first key and then the second are written before
/// anything else; then, once BSY reads clear, the page erase follows (see
/// [`lemma_erase_page_clears_set_flags`]); while BSY reads set nothing but
/// the keys is written.
pub proof fn lemma_delete_pg_unlocks_first(page: u32, flags: spec_fn(FlashBit) -> bool)
    ensures
        !flags(FlashBit::Busy) ==> run_steady(delete_pg_spec(page), 0, flags) == (lock_keys(flags)
            + flag_clears(flags) + seq![
            FlashWrite::SetPageErase,
            FlashWrite::SetAddress(page),
            FlashWrite::SetStart,
            FlashWrite::SetLock,
        ], FlashState::Running(17)),
        flags(FlashBit::Busy) ==> run_steady(delete_pg_spec(page), 0, flags) == (lock_keys(flags),
        FlashState::Running(4)),
{
    let s = delete_pg_spec(page);
    assert(s =~= seq![
        FlashInstr::SkipIfClear(FlashBit::Lock, 3),
        FlashInstr::Do(FlashWrite::Key(UNLOCK_KEY1)),
        FlashInstr::Do(FlashWrite::Key(UNLOCK_KEY2)),
        FlashInstr::SkipIfClear(FlashBit::Lock, 0),
        FlashInstr::WaitWhileSet(FlashBit::Busy),
        FlashInstr::SkipIfClear(FlashBit::Busy, 1),
        FlashInstr::Do(FlashWrite::ReportBusy),
        FlashInstr::SkipIfClear(FlashBit::WriteProtectError, 1),
        FlashInstr::Do(FlashWrite::ClearWriteProtectError),
        FlashInstr::SkipIfClear(FlashBit::ProgrammingError, 1),
        FlashInstr::Do(FlashWrite::ClearProgrammingError),
        FlashInstr::Do(FlashWrite::SetPageErase),
        FlashInstr::Do(FlashWrite::SetAddress(page)),
        FlashInstr::Do(FlashWrite::SetStart),
        FlashInstr::WaitWhileSet(FlashBit::Busy),
        FlashInstr::WaitWhileSet(FlashBit::Busy),
        FlashInstr::Do(FlashWrite::SetLock),
    ]);
    lemma_erase_tail(s, 7, page, flags);
    lemma_steady_report(s, 5, flags);
    lemma_steady_wait(s, 4, FlashBit::Busy, flags);
    lemma_steady_unlock(s, 0, flags);
    let t = run_steady(s, 7, flags);
    assert(Seq::<FlashWrite>::empty() + t.0 =~= t.0);
    if flags(FlashBit::Busy) {
        assert(lock_keys(flags) + Seq::<FlashWrite>::empty() =~= lock_keys(flags));
    } else {
        let tail = seq![
            FlashWrite::SetPageErase,
            FlashWrite::SetAddress(page),
            FlashWrite::SetStart,
            FlashWrite::SetLock,
        ];
        assert(lock_keys(flags) + (flag_clears(flags) + tail) =~= lock_keys(flags) + flag_clears(flags) + tail);
    }
}

/// Programming a word on a steady device: the keys when LOCK reads set,
/// a busy report when BSY reads set, the clears of the set error flags,
/// then programming is enabled and the low and then the high half stored.
/// LOCK is set only once BSY reads clear after the stores: while BSY
/// reads set the run waits right after the high half and writes nothing
/// more. Once it reads clear, LOCK is set, EOP cleared if it reads set,
/// and PG cleared last.
pub proof fn lemma_write_to_flash_locks_when_idle(addr: u32, data: u32, flags: spec_fn(FlashBit) -> bool)
    ensures
        !flags(FlashBit::Busy) ==> run_steady(write_to_flash_spec(addr, data), 0, flags) == (lock_keys(flags)
            + flag_clears(flags) + seq![
            FlashWrite::SetProgram,
            halves(addr, data).0,
            halves(addr, data).1,
            FlashWrite::SetLock,
        ] + (if flags(FlashBit::EndOfOperation) {
            seq![FlashWrite::ClearEndOfOperation]
        } else {
            Seq::empty()
        }) + seq![FlashWrite::ClearProgram], FlashState::Running(18)),
        flags(FlashBit::Busy) ==> run_steady(write_to_flash_spec(addr, data), 0, flags) == (lock_keys(flags)
            + seq![FlashWrite::ReportBusy] + flag_clears(flags) + seq![
            FlashWrite::SetProgram,
            halves(addr, data).0,
            halves(addr, data).1,
        ], FlashState::Running(13)),
{
    let s = write_to_flash_spec(addr, data);
    let lo = halves(addr, data).0;
    let hi = halves(addr, data).1;
    assert(s =~= seq![
        FlashInstr::SkipIfClear(FlashBit::Lock, 3),
        FlashInstr::Do(FlashWrite::Key(UNLOCK_KEY1)),
        FlashInstr::Do(FlashWrite::Key(UNLOCK_KEY2)),
        FlashInstr::SkipIfClear(FlashBit::Lock, 0),
        FlashInstr::SkipIfClear(FlashBit::Busy, 1),
        FlashInstr::Do(FlashWrite::ReportBusy),
        FlashInstr::SkipIfClear(FlashBit::WriteProtectError, 1),
        FlashInstr::Do(FlashWrite::ClearWriteProtectError),
        FlashInstr::SkipIfClear(FlashBit::ProgrammingError, 1),
        FlashInstr::Do(FlashWrite::ClearProgrammingError),
        FlashInstr::Do(FlashWrite::SetProgram),
        FlashInstr::Do(lo),
        FlashInstr::Do(hi),
        FlashInstr::WaitWhileSet(FlashBit::Busy),
        FlashInstr::Do(FlashWrite::SetLock),
        FlashInstr::SkipIfClear(FlashBit::EndOfOperation, 1),
        FlashInstr::Do(FlashWrite::ClearEndOfOperation),
        FlashInstr::Do(FlashWrite::ClearProgram),
    ]);
    let eop = if flags(FlashBit::EndOfOperation) {
        seq![FlashWrite::ClearEndOfOperation]
    } else {
        Seq::empty()
    };
    assert(run_steady(s, 18, flags) == (Seq::<FlashWrite>::empty(), FlashState::Running(18)));
    lemma_steady_do(s, 17, FlashWrite::ClearProgram, flags);
    lemma_steady_do(s, 16, FlashWrite::ClearEndOfOperation, flags);
    let r17 = run_steady(s, 17, flags);
    assert(r17.0 =~= seq![FlashWrite::ClearProgram]);
    assert(Seq::<FlashWrite>::empty() + r17.0 =~= r17.0);
    assert(run_steady(s, 15, flags).0 =~= eop + seq![FlashWrite::ClearProgram]);
    lemma_steady_do(s, 14, FlashWrite::SetLock, flags);
    lemma_steady_wait(s, 13, FlashBit::Busy, flags);
    lemma_steady_do(s, 12, hi, flags);
    lemma_steady_do(s, 11, lo, flags);
    lemma_steady_do(s, 10, FlashWrite::SetProgram, flags);
    lemma_steady_clears(s, 6, flags);
    lemma_steady_report(s, 4, flags);
    lemma_steady_unlock(s, 0, flags);
    let busy = if flags(FlashBit::Busy) {
        seq![FlashWrite::ReportBusy]
    } else {
        Seq::empty()
    };
    let r10 = run_steady(s, 10, flags);
    let stores = seq![FlashWrite::SetProgram, lo, hi];
    if flags(FlashBit::Busy) {
        assert(r10.0 =~= stores);
        assert(lock_keys(flags) + (busy + (flag_clears(flags) + stores)) =~= lock_keys(flags) + seq![
            FlashWrite::ReportBusy,
        ] + flag_clears(flags) + stores);
    } else {
        let tail = seq![FlashWrite::SetProgram, lo, hi, FlashWrite::SetLock];
        assert(r10.0 =~= tail + eop + seq![FlashWrite::ClearProgram]);
        assert(busy + (flag_clears(flags) + r10.0) =~= flag_clears(flags) + r10.0);
        assert(lock_keys(flags) + (flag_clears(flags) + r10.0) =~= lock_keys(flags) + flag_clears(flags)
            + tail + eop + seq![FlashWrite::ClearProgram]);
    }
}

} // verus!
