//! The undo log of atomic regions.
//!
//! An atomic region starts with [`start_atomic`] and ends with
//! [`end_atomic`]. Before a variable is overwritten inside a region its
//! address and size are appended to the transaction log in FRAM, and a
//! persistent 16-bit counter in FRAM counts the entries. A static
//! checkpoint resets the counter; the restore routines walk the entries.
//!
//! The functions here compute the stores to perform; the program performs
//! them in the order given.

use vstd::prelude::*;

verus! {

/// Where the transaction log starts in FRAM.
pub const LOG_BASE: u32 = 0x6000_4000;

/// Where the data log starts in FRAM.
pub const DATA_BASE: u32 = 0x6000_5000;

/// The FRAM address of the persistent 16-bit entry counter.
pub const COUNTER_ADDR: u32 = 0x6000_3000;

/// One store to memory, as the program performs it.
#[derive(Clone, Copy, PartialEq, Eq, Debug, Structural)]
#[allow(inconsistent_fields)]
pub enum MemWrite {
    /// A 32-bit store.
    Word { addr: u32, value: u32 },
    /// A 16-bit store.
    Half { addr: u32, value: u16 },
    /// An 8-bit store.
    Byte { addr: u32, value: u8 },
}

/// The mathematical value of a [`CheckpointState`].
pub struct LogCursor {
    /// The next free position of the transaction log.
    pub transaction_log: u32,
    /// The next free position of the data log.
    pub data_loc: u32,
    /// `true` outside atomic regions, `false` inside one.
    pub execution_mode: bool,
}

/// The volatile state of the logging machinery. Both log positions only
/// grow from their bases until the log is emptied.
#[derive(Debug)]
pub struct CheckpointState {
    transaction_log: u32,
    data_loc: u32,
    execution_mode: bool,
}

impl View for CheckpointState {
    type V = LogCursor;

    closed spec fn view(&self) -> LogCursor {
        LogCursor {
            transaction_log: self.transaction_log,
            data_loc: self.data_loc,
            execution_mode: self.execution_mode,
        }
    }
}

impl CheckpointState {
    #[verifier::type_invariant]
    spec fn positions_above_bases(&self) -> bool {
        &&& self.transaction_log >= LOG_BASE
        &&& self.data_loc >= DATA_BASE
    }

    /// The state after reset: both logs empty, outside any atomic region.
    pub fn new() -> (s: Self)
        ensures
            s@ == (LogCursor { transaction_log: LOG_BASE, data_loc: DATA_BASE, execution_mode: true }),
    {
        CheckpointState { transaction_log: LOG_BASE, data_loc: DATA_BASE, execution_mode: true }
    }

    /// The next free position of the transaction log.
    pub fn transaction_log(&self) -> (r: u32)
        ensures
            r == self@.transaction_log,
    {
        self.transaction_log
    }

    /// The next free position of the data log.
    pub fn data_loc(&self) -> (r: u32)
        ensures
            r == self@.data_loc,
    {
        self.data_loc
    }

    /// Whether the program runs outside an atomic region.
    pub fn execution_mode(&self) -> (r: bool)
        ensures
            r == self@.execution_mode,
    {
        self.execution_mode
    }
}

/// Enters an atomic region.
pub fn start_atomic(state: &mut CheckpointState)
    ensures
        final(state)@ == (LogCursor { execution_mode: false, ..old(state)@ }),
{
    proof {
        use_type_invariant(&*state);
    }
    state.execution_mode = false;
}

/// Leaves an atomic region: the transaction log is emptied.
pub fn end_atomic(state: &mut CheckpointState)
    ensures
        final(state)@ == (LogCursor {
            transaction_log: LOG_BASE,
            execution_mode: true,
            ..old(state)@
        }),
{
    proof {
        use_type_invariant(&*state);
    }
    state.transaction_log = LOG_BASE;
    state.execution_mode = true;
}

/// Logs a variable at address `mem_loc` of `size` bytes, given the
/// counter value `counter` read from [`COUNTER_ADDR`]: the address and
/// the size go to the transaction log, the low half of the address to the
/// data log, and the counter counts one more entry.
pub fn save_variables(state: &mut CheckpointState, mem_loc: u32, size: usize, counter: u16) -> (writes: Vec<MemWrite>)
    requires
        old(state)@.transaction_log + 8 <= u32::MAX,
        old(state)@.data_loc + 2 <= u32::MAX,
        counter < u16::MAX,
    ensures
        writes@ == seq![
            MemWrite::Word { addr: old(state)@.transaction_log, value: mem_loc },
            MemWrite::Word { addr: (old(state)@.transaction_log + 4) as u32, value: size as u32 },
            MemWrite::Half { addr: old(state)@.data_loc, value: mem_loc as u16 },
            MemWrite::Half { addr: COUNTER_ADDR, value: (counter + 1) as u16 },
        ],
        final(state)@ == (LogCursor {
            transaction_log: (old(state)@.transaction_log + 8) as u32,
            data_loc: (old(state)@.data_loc + 2) as u32,
            ..old(state)@
        }),
{
    proof {
        use_type_invariant(&*state);
    }
    let mut writes: Vec<MemWrite> = Vec::new();
    writes.push(MemWrite::Word { addr: state.transaction_log, value: mem_loc });
    state.transaction_log = state.transaction_log + 4;
    writes.push(MemWrite::Word { addr: state.transaction_log, value: size as u32 });
    state.transaction_log = state.transaction_log + 4;
    writes.push(MemWrite::Half { addr: state.data_loc, value: mem_loc as u16 });
    state.data_loc = state.data_loc + 2;
    writes.push(MemWrite::Half { addr: COUNTER_ADDR, value: counter + 1 });
    writes
}

/// 256 to the power `k`, for `k` below 4.
pub open spec fn pow256(k: int) -> int {
    if k == 0 {
        1
    } else if k == 1 {
        256
    } else if k == 2 {
        65536
    } else {
        16777216
    }
}

/// Byte `k` of `x` in little-endian order.
pub open spec fn le_byte(x: u32, k: int) -> u8 {
    ((x as int / pow256(k)) % 256) as u8
}

/// The stores that [`save_variables1`] performs, counter update aside:
/// the four address bytes and the size byte at every other byte from `tl`
/// on, then the data bytes, again at every other byte.
pub open spec fn byte_entry(tl: u32, mem_loc: u32, data: Seq<u8>) -> Seq<MemWrite> {
    Seq::new(4, |k: int| MemWrite::Byte { addr: (tl + 2 * k) as u32, value: le_byte(mem_loc, k) })
        + seq![MemWrite::Byte { addr: (tl + 8) as u32, value: data.len() as u8 }]
        + Seq::new(data.len(), |i: int| MemWrite::Byte { addr: (tl + 10 + 2 * i) as u32, value: data[i] })
}

proof fn lemma_le_bytes(x: u32)
    ensures
        x as u8 == le_byte(x, 0),
        (x >> 8u32) as u8 == le_byte(x, 1),
        (x >> 16u32) as u8 == le_byte(x, 2),
        (x >> 24u32) as u8 == le_byte(x, 3),
{
    assert(x as u8 == (x % 256) as u8) by (bit_vector);
    assert((x >> 8u32) as u8 == ((x / 256) % 256) as u8) by (bit_vector);
    assert((x >> 16u32) as u8 == ((x / 65536) % 256) as u8) by (bit_vector);
    assert((x >> 24u32) as u8 == ((x / 16777216) % 256) as u8) by (bit_vector);
}

/// Logs a variable byte by byte: its address `mem_loc`, its size, and its
/// current contents `data` (the bytes read from `mem_loc` on). FRAM keeps
/// only even addresses, so the bytes go to every other address. The
/// counter value `counter` was read from [`COUNTER_ADDR`].
pub fn save_variables1(state: &mut CheckpointState, mem_loc: u32, data: &Vec<u8>, counter: u16) -> (writes: Vec<MemWrite>)
    requires
        old(state)@.transaction_log + 10 + 2 * data.len() <= u32::MAX,
        counter < u16::MAX,
    ensures
        writes@ == byte_entry(old(state)@.transaction_log, mem_loc, data@).push(
            MemWrite::Half { addr: COUNTER_ADDR, value: (counter + 1) as u16 },
        ),
        final(state)@ == (LogCursor {
            transaction_log: (old(state)@.transaction_log + 10 + 2 * data.len()) as u32,
            ..old(state)@
        }),
{
    proof {
        use_type_invariant(&*state);
    }
    let tl = state.transaction_log;
    proof {
        lemma_le_bytes(mem_loc);
    }
    let mut writes: Vec<MemWrite> = Vec::new();
    writes.push(MemWrite::Byte { addr: tl, value: mem_loc as u8 });
    writes.push(MemWrite::Byte { addr: tl + 2, value: (mem_loc >> 8u32) as u8 });
    writes.push(MemWrite::Byte { addr: tl + 4, value: (mem_loc >> 16u32) as u8 });
    writes.push(MemWrite::Byte { addr: tl + 6, value: (mem_loc >> 24u32) as u8 });
    let size = data.len();
    writes.push(MemWrite::Byte { addr: tl + 8, value: size as u8 });
    let base = tl + 10;
    let ghost head = writes@;
    assert(head =~= byte_entry(tl, mem_loc, data@).take(5));
    let mut i: usize = 0;
    while i < size
        invariant
            i <= size,
            size == data.len(),
            base == tl + 10,
            tl + 10 + 2 * data.len() <= u32::MAX,
            head == byte_entry(tl, mem_loc, data@).take(5),
            writes@ == head + Seq::new(
                i as nat,
                |k: int| MemWrite::Byte { addr: (tl + 10 + 2 * k) as u32, value: data@[k] },
            ),
        decreases size - i,
    {
        writes.push(MemWrite::Byte { addr: base + 2 * (i as u32), value: data[i] });
        i = i + 1;
        assert(writes@ =~= head + Seq::new(
            i as nat,
            |k: int| MemWrite::Byte { addr: (tl + 10 + 2 * k) as u32, value: data@[k] },
        ));
    }
    assert(writes@ =~= byte_entry(tl, mem_loc, data@));
    state.transaction_log = base + 2 * (size as u32);
    writes.push(MemWrite::Half { addr: COUNTER_ADDR, value: counter + 1 });
    writes
}

/// The stores of [`restore_globals`]: for each of `count` entries, the
/// transaction log word at `tl + 12 * k` receives `tl + 12 * k + 8`.
pub open spec fn relink_writes(tl: u32, count: nat) -> Seq<MemWrite> {
    Seq::new(count, |k: int| MemWrite::Word { addr: (tl + 12 * k) as u32, value: (tl + 12 * k + 8) as u32 })
}

/// Walks the `counter` entries of the transaction log from its current
/// position in steps of 12 bytes, storing into the first word of each
/// step the address of its third word. The stores lie above the counter,
/// so the counter read once stays valid throughout.
pub fn restore_globals(state: &mut CheckpointState, counter: u16) -> (writes: Vec<MemWrite>)
    requires
        old(state)@.transaction_log + 12 * counter <= u32::MAX,
    ensures
        writes@ == relink_writes(old(state)@.transaction_log, counter as nat),
        final(state)@ == (LogCursor {
            transaction_log: (old(state)@.transaction_log + 12 * counter) as u32,
            ..old(state)@
        }),
{
    proof {
        use_type_invariant(&*state);
    }
    let ghost tl0 = state@.transaction_log;
    let mut writes: Vec<MemWrite> = Vec::new();
    let mut restore_ctr: u16 = 0;
    while counter != restore_ctr
        invariant
            restore_ctr <= counter,
            tl0 >= LOG_BASE,
            old(state)@.data_loc >= DATA_BASE,
            tl0 + 12 * counter <= u32::MAX,
            state@ == (LogCursor { transaction_log: (tl0 + 12 * restore_ctr) as u32, ..old(state)@ }),
            writes@ == relink_writes(tl0, restore_ctr as nat),
        decreases counter - restore_ctr,
    {
        let tl = state.transaction_log;
        writes.push(MemWrite::Word { addr: tl, value: tl + 8 });
        state.transaction_log = tl + 12;
        restore_ctr = restore_ctr + 1;
        assert(writes@ =~= relink_writes(tl0, restore_ctr as nat));
    }
    writes
}

/// The address that an entry of the byte log is read back as: the four
/// words read at the entry's first four byte addresses, each shifted by
/// its byte position and combined.
pub open spec fn entry_address(words: [u32; 4]) -> u32 {
    words[0] | (words[1] << 8u32) | (words[2] << 16u32) | (words[3] << 24u32)
}

/// A forward byte copy: for each `i` below `len`, in order, the byte at
/// `from + i` is read and stored at `to + i`.
#[derive(Debug, PartialEq, Eq, Clone, Copy)]
pub struct ByteCopy {
    pub from: u32,
    pub to: u32,
    pub len: u8,
}

/// The address that an entry of the byte log is read back as; see
/// [`entry_address`].
pub fn log_entry_address(words: &[u32; 4]) -> (addr: u32)
    ensures
        addr == entry_address(*words),
{
    let mut combined: u32 = 0;
    let mut i: usize = 0;
    while i < 4
        invariant
            i <= 4,
            combined == if i == 0 {
                0u32
            } else if i == 1 {
                words[0]
            } else if i == 2 {
                words[0] | (words[1] << 8u32)
            } else if i == 3 {
                words[0] | (words[1] << 8u32) | (words[2] << 16u32)
            } else {
                entry_address(*words)
            },
        decreases 4 - i,
    {
        let shift: u32 = 8 * (i as u32);
        let w = words[i];
        proof {
            assert(0u32 | w == w) by (bit_vector);
            assert(w << 0u32 == w) by (bit_vector);
        }
        combined = combined | (w << shift);
        i = i + 1;
    }
    combined
}

/// Whether another round of reading back the byte log runs, after
/// `rounds` rounds and with `counter` read from [`COUNTER_ADDR`]: rounds
/// stop exactly when the counter equals the rounds run; otherwise the
/// round count goes up by one. Counting past the largest 16-bit value
/// overflows, so the requirement leaves that input out.
pub fn restore_globals1_next_round(rounds: u16, counter: u16) -> (next: Option<u16>)
    requires
        counter == rounds || rounds < u16::MAX,
    ensures
        next == if counter == rounds {
            None::<u16>
        } else {
            Some((rounds + 1) as u16)
        },
{
    if counter == rounds {
        None
    } else {
        Some(rounds + 1)
    }
}

/// One round of reading back the byte log: `words` are the four 32-bit
/// words read at the transaction log position and the three bytes after
/// it, and `size` is the byte read at the position. The round copies
/// `size` bytes from the position to the address that the words combine
/// to. The transaction log position does not move, so each round reads
/// the same entry; the program runs rounds until the counter in FRAM
/// equals the number of rounds run. The last byte read lies at the
/// position plus `size - 1`; after the copy the round adds `size` to the
/// entry address, which must not overflow.
pub fn restore_globals1(state: &CheckpointState, words: &[u32; 4], size: u8) -> (copy: ByteCopy)
    requires
        state@.transaction_log + 3 <= u32::MAX,
        state@.transaction_log + size <= u32::MAX + 1,
        entry_address(*words) + size <= u32::MAX,
    ensures
        copy == (ByteCopy { from: state@.transaction_log, to: entry_address(*words), len: size }),
{
    ByteCopy { from: state.transaction_log, to: log_entry_address(words), len: size }
}

} // verus!
