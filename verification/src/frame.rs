//! The checkpoint frame: the stack and the registers saved in FRAM, and
//! how a restart reads them back.
//!
//! The frame is a sequence of 32-bit words stored from [`FRAME_BASE`] on:
//!
//! | words           | content                                             |
//! |-----------------|-----------------------------------------------------|
//! | 0               | the frame size field                                |
//! | 1               | [`STATIC_TAG`] or [`JIT_TAG`]                       |
//! | 2 .. 2 + n      | the stack words, from [`STACK_TOP`] downwards       |
//! | 2 + n           | [`STACK_END_MARKER`]                                |
//! | 3 + n .. 19 + n | r0 to r12, the stack pointer, the link register, pc |

use vstd::prelude::*;

verus! {

/// Where the frame starts in FRAM.
pub const FRAME_BASE: u32 = 0x6000_9000;

/// The number of FRAM words from [`FRAME_BASE`] to the end of the FRAM
/// window (0x6001_0000).
pub const FRAME_REGION_WORDS: usize = 7168;

/// The highest stack address that a checkpoint saves, and the stack
/// pointer that a restart starts from.
pub const STACK_TOP: u32 = 0x2000_FFF8;

/// The word that ends the saved stack.
pub const STACK_END_MARKER: u32 = 0xF1F1_F1F1;

/// The tag of a frame taken with `c_type` set; restoring it resets the
/// undo-log counter.
pub const STATIC_TAG: u32 = 0xDEAD_BEEF;

/// The tag of a frame taken with `c_type` clear.
pub const JIT_TAG: u32 = 0x0000_0001;

/// The largest address the frame may reach: the addresses of the frame
/// words are computed as 32-bit signed integers.
pub const FRAME_ADDR_LIMIT: u32 = 0x7FFF_FFFF;

/// The registers that a checkpoint saves besides the stack pointer.
#[derive(Debug, PartialEq, Eq, Clone, Copy)]
pub struct Registers {
    /// r0 to r12.
    pub r: [u32; 13],
    /// The link register r14.
    pub lr: u32,
    /// The program counter r15.
    pub pc: u32,
}

/// The number of stack words saved for a stack that ends at `stack_end`:
/// every word from [`STACK_TOP`] down to the lowest address not below
/// `stack_end`.
pub open spec fn stack_word_count_spec(stack_end: u32) -> nat {
    ((STACK_TOP - stack_end) / 4 + 1) as nat
}

/// The inputs on which a checkpoint runs: the stack end lies in the stack
/// (below it the address arithmetic would leave the 32-bit range) and the
/// frame stays below [`FRAME_ADDR_LIMIT`].
pub open spec fn checkpoint_fits(stack_end: u32) -> bool {
    &&& 0 < stack_end <= STACK_TOP
    &&& FRAME_BASE + 4 * (stack_word_count_spec(stack_end) + 18) <= FRAME_ADDR_LIMIT
}

/// The size field of the frame: the stack bytes, the marker, sixteen
/// registers, the size field and the tag.
pub open spec fn frame_size_field(stack_end: u32) -> u32 {
    (STACK_TOP - stack_end + 4 + 4 + 16 * 4 + 4 + 4) as u32
}

/// The frame that a checkpoint writes.
pub open spec fn checkpoint_frame(c_type: bool, regs: Registers, stack_end: u32, stack: Seq<u32>) -> Seq<u32> {
    seq![frame_size_field(stack_end), if c_type { STATIC_TAG } else { JIT_TAG }] + stack + seq![
        STACK_END_MARKER,
    ] + regs.r@ + seq![stack_end, regs.lr, regs.pc]
}

/// The number of stack words to save for a stack that ends at
/// `stack_end`; word `k` is read at `STACK_TOP - 4 * k`.
pub fn stack_word_count(stack_end: u32) -> (n: usize)
    requires
        checkpoint_fits(stack_end),
    ensures
        n == stack_word_count_spec(stack_end),
{
    ((STACK_TOP - stack_end) / 4 + 1) as usize
}

/// The address that stack word `k` is read from.
pub fn stack_word_address(stack_end: u32, k: usize) -> (addr: u32)
    requires
        checkpoint_fits(stack_end),
        k < stack_word_count_spec(stack_end),
    ensures
        addr == STACK_TOP - 4 * k,
{
    STACK_TOP - 4 * (k as u32)
}

/// The address that frame word `k` is stored at, for the words of a
/// frame that fits (see [`checkpoint_fits`]) and of the frame region.
pub fn frame_word_address(k: usize) -> (addr: u32)
    requires
        FRAME_BASE + 4 * k <= u32::MAX,
    ensures
        addr == FRAME_BASE + 4 * k,
{
    FRAME_BASE + 4 * (k as u32)
}

/// Lays out the checkpoint frame: `c_type` selects the tag, `regs` are the
/// saved registers, `stack_end` is the stack pointer at the checkpoint
/// (saved as r13), and `stack` holds the stack words from [`STACK_TOP`]
/// downwards. Word `k` of the result is stored at `FRAME_BASE + 4 * k`.
pub fn checkpoint(c_type: bool, regs: &Registers, stack_end: u32, stack: &Vec<u32>) -> (frame: Vec<u32>)
    requires
        checkpoint_fits(stack_end),
        stack@.len() == stack_word_count_spec(stack_end),
    ensures
        frame@ == checkpoint_frame(c_type, *regs, stack_end, stack@),
{
    let stack_size: u32 = (STACK_TOP - stack_end) + 4;
    let mut frame: Vec<u32> = Vec::new();
    frame.push(stack_size + 4 + 16 * 4 + 4 + 4);
    if c_type {
        frame.push(STATIC_TAG);
    } else {
        frame.push(JIT_TAG);
    }
    let mut i: usize = 0;
    while i < stack.len()
        invariant
            i <= stack.len(),
            frame@ == seq![frame_size_field(stack_end), if c_type { STATIC_TAG } else { JIT_TAG }]
                + stack@.take(i as int),
        decreases stack.len() - i,
    {
        frame.push(stack[i]);
        i = i + 1;
        assert(stack@.take(i as int) =~= stack@.take(i - 1).push(stack@[i - 1]));
    }
    assert(stack@.take(i as int) =~= stack@);
    frame.push(STACK_END_MARKER);
    let ghost before_regs = frame@;
    let mut k: usize = 0;
    while k < 13
        invariant
            k <= 13,
            frame@ == before_regs + regs.r@.take(k as int),
        decreases 13 - k,
    {
        frame.push(regs.r[k]);
        k = k + 1;
        assert(regs.r@.take(k as int) =~= regs.r@.take(k - 1).push(regs.r@[k - 1]));
    }
    assert(regs.r@.take(13) =~= regs.r@);
    frame.push(stack_end);
    frame.push(regs.lr);
    frame.push(regs.pc);
    assert(frame@ =~= checkpoint_frame(c_type, *regs, stack_end, stack@));
    frame
}

/// Why a frame region cannot be restored.
#[derive(Clone, Copy, PartialEq, Eq, Debug, Structural)]
pub enum RestoreError {
    /// The region ends before the words that the restart reads.
    FrameTooShort,
    /// No stack end marker follows the stack in the region.
    NoStackEnd,
}

/// What a restart does with the frame region.
#[derive(Debug, PartialEq, Eq)]
pub enum RestoreOutcome {
    /// The size field is zero: there is no checkpoint, and the program
    /// starts afresh.
    NoCheckpoint,
    /// Resume from the checkpoint.
    Resume(ResumePlan),
}

/// How a restart resumes: it resets the undo-log counter if
/// `reset_counter` holds, pushes `pushes` in order onto a stack that
/// starts at [`STACK_TOP`], loads r1 to r12 from `regs`, and jumps to `lr`.
#[derive(Debug, PartialEq, Eq)]
pub struct ResumePlan {
    pub reset_counter: bool,
    pub pushes: Vec<u32>,
    pub regs: Vec<u32>,
    pub lr: u32,
}

/// The mathematical value of a restart.
pub enum RestartView {
    NoCheckpoint,
    Resume { reset_counter: bool, pushes: Seq<u32>, regs: Seq<u32>, lr: u32 },
}

impl View for RestoreOutcome {
    type V = RestartView;

    open spec fn view(&self) -> RestartView {
        match self {
            RestoreOutcome::NoCheckpoint => RestartView::NoCheckpoint,
            RestoreOutcome::Resume(p) => RestartView::Resume {
                reset_counter: p.reset_counter,
                pushes: p.pushes@,
                regs: p.regs@,
                lr: p.lr,
            },
        }
    }
}

/// The first position at or after `j` that holds the stack end marker.
pub open spec fn find_marker(region: Seq<u32>, j: int) -> Option<int>
    decreases region.len() - j,
{
    if j < 0 || j >= region.len() {
        None
    } else if region[j] == STACK_END_MARKER {
        Some(j)
    } else {
        find_marker(region, j + 1)
    }
}

/// What a restart makes of the words of the frame region. The stack scan
/// starts at word 3: the word saved from [`STACK_TOP`] itself lies at
/// the stack pointer the restart starts from and is not pushed. After
/// the stack come the saved r0, which is pushed last, r1 to r12, the
/// saved stack pointer, which is skipped, and the link register, which
/// the restart jumps to.
pub open spec fn restore_spec(region: Seq<u32>) -> Result<RestartView, RestoreError> {
    if region.len() < 1 {
        Err(RestoreError::FrameTooShort)
    } else if region[0] == 0 {
        Ok(RestartView::NoCheckpoint)
    } else if region.len() < 3 {
        Err(RestoreError::FrameTooShort)
    } else {
        match find_marker(region, 3) {
            None => Err(RestoreError::NoStackEnd),
            Some(m) => if m + 15 >= region.len() {
                Err(RestoreError::FrameTooShort)
            } else {
                Ok(
                    RestartView::Resume {
                        reset_counter: region[1] == STATIC_TAG,
                        pushes: region.subrange(3, m).push(region[m + 1]),
                        regs: region.subrange(m + 2, m + 14),
                        lr: region[m + 15],
                    },
                )
            },
        }
    }
}

proof fn lemma_find_marker_skips(region: Seq<u32>, j: int, i: int)
    requires
        0 <= j <= i <= region.len(),
        forall|k: int| j <= k < i ==> #[trigger] region[k] != STACK_END_MARKER,
    ensures
        find_marker(region, j) == find_marker(region, i),
    decreases i - j,
{
    if j < i {
        lemma_find_marker_skips(region, j + 1, i);
    }
}

fn copy_range(v: &Vec<u32>, from: usize, to: usize) -> (r: Vec<u32>)
    requires
        from <= to <= v.len(),
    ensures
        r@ == v@.subrange(from as int, to as int),
{
    let mut r: Vec<u32> = Vec::new();
    let mut i: usize = from;
    while i < to
        invariant
            from <= i <= to,
            to <= v.len(),
            r@ == v@.subrange(from as int, i as int),
        decreases to - i,
    {
        r.push(v[i]);
        i = i + 1;
        assert(r@ =~= v@.subrange(from as int, i as int));
    }
    r
}

/// Reads a frame region (the words from [`FRAME_BASE`] on) the way a
/// restart does; see [`restore_spec`]. The caller performs the plan.
pub fn restore(region: &Vec<u32>) -> (r: Result<RestoreOutcome, RestoreError>)
    ensures
        match r {
            Ok(o) => restore_spec(region@) == Ok::<RestartView, RestoreError>(o@),
            Err(e) => restore_spec(region@) == Err::<RestartView, RestoreError>(e),
        },
{
    if region.len() < 1 {
        return Err(RestoreError::FrameTooShort);
    }
    if region[0] == 0 {
        return Ok(RestoreOutcome::NoCheckpoint);
    }
    if region.len() < 3 {
        return Err(RestoreError::FrameTooShort);
    }
    let reset_counter = region[1] == STATIC_TAG;
    let mut j: usize = 3;
    while j < region.len() && region[j] != STACK_END_MARKER
        invariant
            3 <= j <= region.len(),
            find_marker(region@, 3) == find_marker(region@, j as int),
        decreases region.len() - j,
    {
        proof {
            lemma_find_marker_skips(region@, j as int, j + 1);
        }
        j = j + 1;
    }
    if j >= region.len() {
        return Err(RestoreError::NoStackEnd);
    }
    if region.len() - j <= 15 {
        return Err(RestoreError::FrameTooShort);
    }
    let mut pushes = copy_range(region, 3, j);
    pushes.push(region[j + 1]);
    let regs = copy_range(region, j + 2, j + 14);
    let lr = region[j + 15];
    let plan = ResumePlan { reset_counter, pushes, regs, lr };
    Ok(RestoreOutcome::Resume(plan))
}

/// A restart resumes the checkpoint it finds: if the frame region begins
/// with the frame that [`checkpoint`] laid out, and no stack word after
/// the first equals [`STACK_END_MARKER`], the restart resets the counter
/// exactly for a static checkpoint, pushes the stack words after the
/// first and then the saved r0, loads the saved r1 to r12, and jumps to
/// the saved link register.
pub proof fn lemma_restore_resumes_checkpoint(
    c_type: bool,
    regs: Registers,
    stack_end: u32,
    stack: Seq<u32>,
    region: Seq<u32>,
)
    requires
        checkpoint_fits(stack_end),
        stack.len() == stack_word_count_spec(stack_end),
        forall|i: int| 1 <= i < stack.len() ==> stack[i] != STACK_END_MARKER,
        region.len() >= checkpoint_frame(c_type, regs, stack_end, stack).len(),
        region.take(checkpoint_frame(c_type, regs, stack_end, stack).len() as int)
            == checkpoint_frame(c_type, regs, stack_end, stack),
    ensures
        restore_spec(region) == Ok::<RestartView, RestoreError>(
            RestartView::Resume {
                reset_counter: c_type,
                pushes: stack.drop_first().push(regs.r@[0]),
                regs: regs.r@.subrange(1, 13),
                lr: regs.lr,
            },
        ),
{
    let f = checkpoint_frame(c_type, regs, stack_end, stack);
    let n = stack.len() as int;
    let m = 2 + n;
    assert(f.len() == n + 19);
    assert forall|k: int| 0 <= k < f.len() implies region[k] == f[k] by {
        assert(region.take(f.len() as int)[k] == region[k]);
    }
    assert(frame_size_field(stack_end) != 0);
    assert(region[0] == f[0]);
    assert(region[1] == f[1]);
    assert(region[m] == STACK_END_MARKER) by {
        assert(f[m] == STACK_END_MARKER);
    }
    assert forall|k: int| 3 <= k < m implies #[trigger] region[k] != STACK_END_MARKER by {
        assert(f[k] == stack[k - 2]);
    }
    lemma_find_marker_skips(region, 3, m);
    assert(find_marker(region, m) == Some(m));
    assert(region.subrange(3, m) =~= stack.drop_first()) by {
        assert forall|k: int| 0 <= k < m - 3 implies region.subrange(3, m)[k] == stack.drop_first()[k] by {
            assert(f[k + 3] == stack[k + 1]);
        }
    }
    assert(region[m + 1] == regs.r@[0]) by {
        assert(f[m + 1] == regs.r@[0]);
    }
    assert(region.subrange(m + 2, m + 14) =~= regs.r@.subrange(1, 13)) by {
        assert forall|k: int| 0 <= k < 12 implies region.subrange(m + 2, m + 14)[k] == regs.r@.subrange(1, 13)[k] by {
            assert(f[m + 2 + k] == regs.r@[k + 1]);
        }
    }
    assert(region[m + 15] == regs.lr) by {
        assert(f[m + 15] == regs.lr);
    }
    assert(STATIC_TAG != JIT_TAG);
}

/// The size field of a frame is its length in bytes when the stack end
/// is word-aligned with [`STACK_TOP`]. Otherwise the field counts every
/// byte of the stack range while the frame holds only whole words, so the
/// field exceeds the frame's length by the range's length modulo 4.
pub proof fn lemma_frame_size_field(c_type: bool, regs: Registers, stack_end: u32, stack: Seq<u32>)
    requires
        checkpoint_fits(stack_end),
        stack.len() == stack_word_count_spec(stack_end),
    ensures
        frame_size_field(stack_end) == 4 * checkpoint_frame(c_type, regs, stack_end, stack).len() + (STACK_TOP
            - stack_end) % 4,
        (STACK_TOP - stack_end) % 4 == 0 ==> frame_size_field(stack_end) == 4 * checkpoint_frame(
            c_type,
            regs,
            stack_end,
            stack,
        ).len(),
{
    assert(checkpoint_frame(c_type, regs, stack_end, stack).len() == stack.len() + 19);
}

} // verus!
