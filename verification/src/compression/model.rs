//! The mathematical model of a decode: the read cursor, what each operation
//! appends, and the result of a whole stream.

use vstd::prelude::*;

use super::{DecompressError, NibblePos, Operation};

verus! {

/// The largest output a decode may hold after an operation.
pub const MAX_OUTPUT: usize = 0x10000;

/// The most operations in a row that may leave the read cursor where it was.
pub const MAX_STALLS: usize = 0x100;

/// The read position in the source, with the one back-reference slot.
///
/// While `remaining > 0` the cursor is displaced into bytes that were read
/// before; the checked read that brings `remaining` to zero puts the cursor
/// back at `old_index`.
pub struct Cursor {
    pub read_index: int,
    pub old_index: int,
    pub remaining: int,
}

impl Cursor {
    /// A cursor at `index` with no displacement active.
    pub open spec fn at(index: int) -> Cursor {
        Cursor { read_index: index, old_index: 0, remaining: 0 }
    }

    /// The cursor after a raw read: one byte further, displacement untouched.
    pub open spec fn raw_advance(self) -> Cursor {
        Cursor { read_index: self.read_index + 1, ..self }
    }

    /// The expiry check: the last read of a displacement restores the cursor,
    /// and every check counts one read off, down to zero.
    pub open spec fn expire(self) -> Cursor {
        Cursor {
            read_index: if self.remaining == 1 {
                self.old_index
            } else {
                self.read_index
            },
            old_index: self.old_index,
            remaining: if self.remaining >= 1 {
                self.remaining - 1
            } else {
                0
            },
        }
    }

    /// The cursor after a checked read: a raw read, then the expiry check.
    pub open spec fn checked_advance(self) -> Cursor {
        self.raw_advance().expire()
    }

    /// The cursor after `n` checked reads in a row.
    pub open spec fn after_reads(self, n: nat) -> Cursor
        decreases n,
    {
        if n == 0 {
            self
        } else {
            self.after_reads((n - 1) as nat).checked_advance()
        }
    }

    /// Whether a displacement by `back` stays at or after `start`.
    pub open spec fn can_jump(self, start: int, back: int) -> bool {
        self.read_index >= back && self.read_index - back >= start
    }

    /// The cursor displaced by `back` for the next `count` checked reads.
    pub open spec fn jump(self, count: int, back: int) -> Cursor {
        Cursor { read_index: self.read_index - back, old_index: self.read_index, remaining: count }
    }

    /// All three fields are natural numbers.
    pub open spec fn wf(self) -> bool {
        self.read_index >= 0 && self.old_index >= 0 && self.remaining >= 0
    }
}

/// Whether the cursor stands on a byte of the source.
pub open spec fn readable(src: Seq<u8>, c: Cursor) -> bool {
    0 <= c.read_index < src.len()
}

/// A raw read: the byte under the cursor and the cursor after it, or nothing
/// where the cursor stands outside the source.
pub open spec fn raw_read(src: Seq<u8>, c: Cursor) -> Option<(u8, Cursor)> {
    if readable(src, c) {
        Some((src[c.read_index], c.raw_advance()))
    } else {
        None
    }
}

/// A checked read: as a raw read, followed by the expiry check.
pub open spec fn checked_read(src: Seq<u8>, c: Cursor) -> Option<(u8, Cursor)> {
    if readable(src, c) {
        Some((src[c.read_index], c.checked_advance()))
    } else {
        None
    }
}

/// Whether `n` checked reads in a row, starting at `c`, all stay inside the
/// source.
pub open spec fn readable_run(src: Seq<u8>, c: Cursor, n: nat) -> bool {
    forall|k: nat| k < n ==> readable(src, #[trigger] c.after_reads(k))
}

/// The bytes that `n` checked reads in a row, starting at `c`, deliver.
pub open spec fn run_bytes(src: Seq<u8>, c: Cursor, n: nat) -> Seq<u8> {
    Seq::new(n, |k: int| src[c.after_reads(k as nat).read_index])
}

/// The 16-bit value whose big-endian bytes are `hi`, `lo`.
pub open spec fn be16(hi: u8, lo: u8) -> u16 {
    (hi * 256 + lo) as u16
}

/// The operation that opcode `op` in `0x40..0x50` forms with its operand byte.
pub open spec fn nibble_fixed_op(op: u8, second: u8) -> Operation {
    Operation::CopyNibbleFixed {
        count: ((op & 0x0f) + 1) as u8,
        fixed: if second < 0x80 {
            second & 0x0f
        } else if second & 0x40 == 0 {
            0x00
        } else {
            0x0f
        },
        fixed_pos: if second & 0x10 == 0 {
            NibblePos::Upper
        } else {
            NibblePos::Lower
        },
        initial: if second < 0x80 {
            None
        } else {
            Some(second & 0x0f)
        },
    }
}

/// The operation that opcode `op` in `0x60..0x80` forms with its operand byte.
pub open spec fn interleaved_op(op: u8, fixed_value: u8) -> Operation {
    Operation::CopyInterleaved {
        count: ((op & 0x0f) + 1) as u8,
        fixed_value,
        fixed_first: op < 0x70,
    }
}

/// The operation that opcode `op` in `0x80..0xc0` forms with its operand byte.
pub open spec fn backread_small_op(op: u8, low: u8) -> Operation {
    Operation::CopyBackread { count: ((op & 0x7f) / 4 + 1) as u8, back: be16(op & 0x03, low) }
}

/// The operation that opcode `op` in `0xc0..0xe0` forms with its two operand
/// bytes.
pub open spec fn backread_large_op(op: u8, lower: u8, low: u8) -> Operation {
    Operation::CopyBackread {
        count: ((((op & 0x1f) << 1) | (lower >> 7)) + 1) as u8,
        back: be16(lower & 0x7f, low),
    }
}

/// The operation that opcode `op` in `0xe0..0xf0` forms with its two operand
/// bytes.
pub open spec fn repeat_large_op(op: u8, lower: u8, value: u8) -> Operation {
    Operation::RepeatValue { count: (be16(op & 0x0f, lower) + 3) as u16, value }
}

/// The operation that opcode `op` in `0xf0..0xf8` forms with its operand byte.
pub open spec fn repeat_small_op(op: u8, value: u8) -> Operation {
    Operation::RepeatValue { count: ((op & 0x07) + 3) as u16, value }
}

/// The operation that opcode `op` in `0xf8..0xfc` forms with its two operand
/// bytes.
pub open spec fn backref_large_op(op: u8, lower: u8, low: u8) -> Operation {
    Operation::StartBackref {
        count: ((be16(op & 0x03, lower) >> 5) + 3) as u16,
        back: (be16(lower & 0x1f, low) + 3) as u16,
    }
}

/// The operation that opcode `op` in `0xfc..0xff` forms with its operand byte.
pub open spec fn backref_small_op(op: u8, lower: u8) -> Operation {
    Operation::StartBackref {
        count: ((be16(op & 0x01, lower) >> 6) + 3) as u16,
        back: ((lower & 0x3f) + 2) as u16,
    }
}

/// Decoding the operands of opcode `op` with the cursor at `c`, just behind
/// the opcode: the operation and the cursor behind its operands, or nothing
/// where an operand lies outside the source.
///
/// Which operand is taken by a raw read and which by a checked read is part
/// of the format.
pub open spec fn decode_operands(src: Seq<u8>, c: Cursor, op: u8) -> Option<(Operation, Cursor)> {
    if op < 0x40 {
        Some((Operation::CopySimple(op), c))
    } else if op < 0x50 {
        match checked_read(src, c) {
            Some((second, c1)) => Some((nibble_fixed_op(op, second), c1)),
            None => None,
        }
    } else if op < 0x60 {
        Some((Operation::CopyDoubled(op & 0x0f), c))
    } else if op < 0x80 {
        match checked_read(src, c) {
            Some((fixed_value, c1)) => Some((interleaved_op(op, fixed_value), c1)),
            None => None,
        }
    } else if op < 0xc0 {
        match raw_read(src, c) {
            Some((low, c1)) => Some((backread_small_op(op, low), c1)),
            None => None,
        }
    } else if op < 0xe0 {
        match checked_read(src, c) {
            Some((lower, c1)) => match raw_read(src, c1) {
                Some((low, c2)) => Some((backread_large_op(op, lower, low), c2)),
                None => None,
            },
            None => None,
        }
    } else if op < 0xf0 {
        match checked_read(src, c) {
            Some((lower, c1)) => match raw_read(src, c1) {
                Some((value, c2)) => Some((repeat_large_op(op, lower, value), c2)),
                None => None,
            },
            None => None,
        }
    } else if op < 0xf8 {
        match raw_read(src, c) {
            Some((value, c1)) => Some((repeat_small_op(op, value), c1)),
            None => None,
        }
    } else if op < 0xfc {
        match raw_read(src, c) {
            Some((lower, c1)) => match raw_read(src, c1) {
                Some((low, c2)) => Some((backref_large_op(op, lower, low), c2)),
                None => None,
            },
            None => None,
        }
    } else if op < 0xff {
        match raw_read(src, c) {
            Some((lower, c1)) => Some((backref_small_op(op, lower), c1)),
            None => None,
        }
    } else {
        Some((Operation::Exit, c))
    }
}

/// Each byte of `bytes` twice.
pub open spec fn doubled(bytes: Seq<u8>) -> Seq<u8> {
    Seq::new(2 * bytes.len(), |i: int| bytes[i / 2])
}

/// Each byte of `bytes` paired with `fixed_value`, which comes first in its
/// pair exactly if `fixed_first`.
pub open spec fn interleaved(bytes: Seq<u8>, fixed_value: u8, fixed_first: bool) -> Seq<u8> {
    Seq::new(
        2 * bytes.len(),
        |i: int|
            if (i % 2 == 0) == fixed_first {
                fixed_value
            } else {
                bytes[i / 2]
            },
    )
}

/// The nibbles of `bytes` in the order they are used: of each byte first the
/// high one, then the low one.
pub open spec fn source_nibbles(bytes: Seq<u8>) -> Seq<u8> {
    Seq::new(
        2 * bytes.len(),
        |i: int|
            if i % 2 == 0 {
                bytes[i / 2] >> 4
            } else {
                bytes[i / 2] & 0x0f
            },
    )
}

/// The variable nibbles of a nibble copy in output order: the seed, if there
/// is one, then the nibbles of the bytes read.
pub open spec fn variable_nibbles(bytes: Seq<u8>, initial: Option<u8>) -> Seq<u8> {
    match initial {
        Some(seed) => seq![seed & 0x0f] + source_nibbles(bytes),
        None => source_nibbles(bytes),
    }
}

/// An output byte of a nibble copy: the fixed nibble in the half that
/// `fixed_pos` names, the variable nibble in the other.
pub open spec fn pack_nibble(fixed: u8, fixed_pos: NibblePos, nibble: u8) -> u8 {
    match fixed_pos {
        NibblePos::Upper => (fixed << 4) | nibble,
        NibblePos::Lower => (fixed & 0x0f) | (nibble << 4),
    }
}

/// How many bytes a nibble copy appends: `count`, and one more for a seed.
pub open spec fn nibble_total(count: u8, initial: Option<u8>) -> nat {
    if initial is Some {
        (count + 1) as nat
    } else {
        count as nat
    }
}

/// How many bytes a nibble copy reads: one for every two nibbles that do not
/// come from the seed.
pub open spec fn nibble_reads(count: u8) -> nat {
    ((count + 1) / 2) as nat
}

/// What a nibble copy appends, given the bytes it read.
pub open spec fn nibble_packed(
    bytes: Seq<u8>,
    count: u8,
    fixed: u8,
    fixed_pos: NibblePos,
    initial: Option<u8>,
) -> Seq<u8> {
    Seq::new(
        nibble_total(count, initial),
        |i: int| pack_nibble(fixed, fixed_pos, variable_nibbles(bytes, initial)[i]),
    )
}

/// What a back-read appends to `dst`: `count + 1` bytes that repeat the last
/// `back` bytes of `dst` in a cycle.
pub open spec fn backread_tail(dst: Seq<u8>, count: u8, back: u16) -> Seq<u8>
    recommends
        0 < back <= dst.len(),
{
    Seq::new((count + 1) as nat, |i: int| dst[dst.len() - back + i % (back as int)])
}

/// `value`, `count` times.
pub open spec fn repeated(count: u16, value: u8) -> Seq<u8> {
    Seq::new(count as nat, |i: int| value)
}

/// How many checked reads the execution of `op` makes.
pub open spec fn source_reads(op: Operation) -> nat {
    match op {
        Operation::CopySimple(count) => (count + 1) as nat,
        Operation::CopyNibbleFixed { count, .. } => nibble_reads(count),
        Operation::CopyDoubled(count) => (count + 1) as nat,
        Operation::CopyInterleaved { count, .. } => (count + 1) as nat,
        _ => 0,
    }
}

/// What a copying operation appends, given the bytes it read.
pub open spec fn copied(op: Operation, bytes: Seq<u8>) -> Seq<u8> {
    match op {
        Operation::CopySimple(_) => bytes,
        Operation::CopyNibbleFixed { count, fixed, fixed_pos, initial } => nibble_packed(
            bytes,
            count,
            fixed,
            fixed_pos,
            initial,
        ),
        Operation::CopyDoubled(_) => doubled(bytes),
        Operation::CopyInterleaved { fixed_value, fixed_first, .. } => interleaved(
            bytes,
            fixed_value,
            fixed_first,
        ),
        _ => Seq::empty(),
    }
}

/// What an operation works on: the output so far and the read cursor.
pub struct Machine {
    pub dst: Seq<u8>,
    pub cursor: Cursor,
}

/// The effect of executing `op` on `m`, reading from `src`; `start` is the
/// index before which no displacement may reach.
///
/// A copying operation fails where one of its reads lies outside the source.
/// A back-read fails where `back` is zero or reaches before the output's first
/// byte, a displacement where it reaches before `start`. Back-reads and
/// repeats end with one expiry check that consumes no byte.
pub open spec fn apply(src: Seq<u8>, start: int, m: Machine, op: Operation) -> Result<
    Machine,
    DecompressError,
> {
    match op {
        Operation::CopyBackread { count, back } => {
            if back == 0 || back > m.dst.len() {
                Err(DecompressError::InvalidOperation)
            } else {
                Ok(
                    Machine {
                        dst: m.dst + backread_tail(m.dst, count, back),
                        cursor: m.cursor.expire(),
                    },
                )
            }
        },
        Operation::RepeatValue { count, value } => Ok(
            Machine { dst: m.dst + repeated(count, value), cursor: m.cursor.expire() },
        ),
        Operation::StartBackref { count, back } => {
            if m.cursor.can_jump(start, back as int) {
                Ok(Machine { dst: m.dst, cursor: m.cursor.jump(count as int, back as int) })
            } else {
                Err(DecompressError::InvalidOperation)
            }
        },
        Operation::Exit => Ok(m),
        _ => {
            let n = source_reads(op);
            if readable_run(src, m.cursor, n) {
                Ok(
                    Machine {
                        dst: m.dst + copied(op, run_bytes(src, m.cursor, n)),
                        cursor: m.cursor.after_reads(n),
                    },
                )
            } else {
                Err(DecompressError::InvalidOperation)
            }
        },
    }
}

/// The state of a decode between two operations.
pub struct DecodeState {
    /// The output so far.
    pub dst: Seq<u8>,
    /// The read cursor.
    pub cursor: Cursor,
    /// Where the cursor stood after the operation before.
    pub prev_index: int,
    /// How many operations in a row have left the cursor where it was.
    pub loop_count: int,
}

impl DecodeState {
    /// The state in which a decode at `offset` begins.
    pub open spec fn initial(offset: int) -> DecodeState {
        DecodeState { dst: Seq::empty(), cursor: Cursor::at(offset), prev_index: 0, loop_count: 0 }
    }

    /// What holds between any two operations of a decode.
    pub open spec fn wf(self) -> bool {
        &&& self.dst.len() <= MAX_OUTPUT
        &&& 0 <= self.loop_count <= MAX_STALLS
        &&& self.prev_index >= 0
        &&& self.cursor.wf()
    }

    /// 1 where the next operation may move the cursor anywhere without a
    /// stall being counted, 0 where it cannot.
    pub open spec fn unsettled(self) -> int {
        if self.cursor.remaining == 1 || self.prev_index != self.cursor.read_index {
            1
        } else {
            0
        }
    }
}

/// How one operation ends.
pub enum Step {
    /// The decode goes on from this state.
    Continue(DecodeState),
    /// The stream ended; this is the output.
    Done(Seq<u8>),
    /// The decode failed.
    Fail(DecompressError),
}

/// Reading the next operation: the opcode by a checked read, then its
/// operands.
pub open spec fn fetch(src: Seq<u8>, c: Cursor) -> Option<(Operation, Cursor)> {
    match checked_read(src, c) {
        Some((op, c1)) => decode_operands(src, c1, op),
        None => None,
    }
}

/// The checks after an operation that left the machine as `m`: the size
/// ceiling first, then the count of operations that did not move the cursor.
pub open spec fn monitor(s: DecodeState, m: Machine) -> Step {
    if m.dst.len() > MAX_OUTPUT {
        Step::Fail(DecompressError::MaxSizeExceeded)
    } else if s.prev_index == m.cursor.read_index {
        if s.loop_count + 1 > MAX_STALLS {
            Step::Fail(DecompressError::LoopDetected)
        } else {
            Step::Continue(
                DecodeState {
                    dst: m.dst,
                    cursor: m.cursor,
                    prev_index: m.cursor.read_index,
                    loop_count: s.loop_count + 1,
                },
            )
        }
    } else {
        Step::Continue(
            DecodeState {
                dst: m.dst,
                cursor: m.cursor,
                prev_index: m.cursor.read_index,
                loop_count: 0,
            },
        )
    }
}

/// One operation of a decode: fetch it, execute it, check the outcome.
pub open spec fn step(src: Seq<u8>, start: int, s: DecodeState) -> Step {
    match fetch(src, s.cursor) {
        None => Step::Fail(DecompressError::InvalidOperation),
        Some((op, c)) => {
            if op is Exit {
                Step::Done(s.dst)
            } else {
                match apply(src, start, Machine { dst: s.dst, cursor: c }, op) {
                    Err(e) => Step::Fail(e),
                    Ok(m) => monitor(s, m),
                }
            }
        },
    }
}

/// The cursor after `n` checked reads, without recursion: while the
/// displacement lasts the cursor moves on from where it is; its last read
/// puts the cursor at `old_index`, and later reads move on from there.
pub proof fn lemma_after_reads(c: Cursor, n: nat)
    requires
        c.remaining >= 0,
    ensures
        c.remaining == 0 || n < c.remaining ==> c.after_reads(n) == (Cursor {
            read_index: c.read_index + n,
            old_index: c.old_index,
            remaining: if c.remaining == 0 {
                0
            } else {
                c.remaining - n
            },
        }),
        1 <= c.remaining <= n ==> c.after_reads(n) == (Cursor {
            read_index: c.old_index + (n - c.remaining),
            old_index: c.old_index,
            remaining: 0,
        }),
    decreases n,
{
    if n > 0 {
        lemma_after_reads(c, (n - 1) as nat);
    }
}

/// Checked reads keep a cursor's fields natural numbers.
pub proof fn lemma_after_reads_wf(c: Cursor, n: nat)
    requires
        c.wf(),
    ensures
        c.after_reads(n).wf(),
        c.after_reads(n).old_index == c.old_index,
{
    lemma_after_reads(c, n);
}

/// One more checked read extends a run that stays inside the source by the
/// byte under the cursor.
pub proof fn lemma_run_extends(src: Seq<u8>, c: Cursor, n: nat)
    requires
        readable_run(src, c, n),
        readable(src, c.after_reads(n)),
    ensures
        readable_run(src, c, n + 1),
        run_bytes(src, c, n + 1) == run_bytes(src, c, n).push(src[c.after_reads(n).read_index]),
        c.after_reads(n + 1) == c.after_reads(n).checked_advance(),
{
    assert(run_bytes(src, c, n + 1) =~= run_bytes(src, c, n).push(
        src[c.after_reads(n).read_index],
    ));
}

/// A position in a cycle of length `back` is the position `back` places
/// before it.
pub proof fn lemma_cycle_index(i: int, back: int)
    requires
        0 <= i,
        0 < back,
    ensures
        0 <= i % back < back,
        i < back ==> i % back == i,
        i >= back ==> i % back == (i - back) % back,
{
    vstd::arithmetic::div_mod::lemma_mod_pos_bound(i, back);
    if i < back {
        vstd::arithmetic::div_mod::lemma_small_mod(i as nat, back as nat);
    } else {
        vstd::arithmetic::div_mod::lemma_mod_sub_multiples_vanish(i, back);
    }
}

/// The ranges of the masked and shifted values that the opcode table uses.
pub proof fn lemma_operand_ranges(x: u8, y: u8, w: u16)
    by (bit_vector)
    ensures
        x & 0x01 <= 0x01,
        x & 0x03 <= 0x03,
        x & 0x07 <= 0x07,
        x & 0x0f <= 0x0f,
        x & 0x1f <= 0x1f,
        x & 0x3f <= 0x3f,
        x & 0x7f <= 0x7f,
        ((x & 0x1f) << 1) | (y >> 7) <= 0x3f,
        w >> 5 <= 0x07ff,
        w >> 6 <= 0x03ff,
{
}

/// What holds of every operation that comes out of the opcode table: the
/// counts have their least values, and a displacement reaches back further
/// than its own operands are long.
pub proof fn lemma_decoded_operation(src: Seq<u8>, c: Cursor, op: u8)
    requires
        decode_operands(src, c, op) is Some,
    ensures
        ({
            let (operation, after) = decode_operands(src, c, op)->Some_0;
            &&& after.old_index == c.old_index
            &&& c.wf() ==> after.wf()
            &&& operation matches Operation::CopyNibbleFixed { count, .. } ==> 1 <= count <= 16
            &&& operation matches Operation::RepeatValue { count, .. } ==> count >= 3
            &&& operation matches Operation::StartBackref { count, back } ==> {
                &&& count >= 3
                &&& after.read_index - back < c.read_index
            }
        }),
{
    if 0x40 <= op < 0x50 {
        let second = checked_read(src, c)->Some_0.0;
        lemma_operand_ranges(op, second, 0);
    } else if 0xe0 <= op < 0xf0 {
        let lower = checked_read(src, c)->Some_0.0;
        lemma_operand_ranges(op, lower, 0);
    } else if 0xf0 <= op < 0xf8 {
        lemma_operand_ranges(op, 0, 0);
    } else if 0xf8 <= op < 0xfc {
        let (lower, c1) = raw_read(src, c)->Some_0;
        let low = raw_read(src, c1)->Some_0.0;
        lemma_operand_ranges(op, lower, be16(op & 0x03, lower));
        lemma_operand_ranges(lower, low, 0);
    } else if 0xfc <= op < 0xff {
        let lower = raw_read(src, c)->Some_0.0;
        lemma_operand_ranges(op, lower, be16(op & 0x01, lower));
        lemma_operand_ranges(lower, 0, 0);
    }
}

/// An operation that lets the decode go on leaves a well-formed state in
/// which the cursor's place is recorded, and either it has appended output,
/// or it was a displacement: then a state that was unsettled is settled, and
/// in a settled state the cursor has moved towards the start or a stall has
/// been counted.
pub proof fn lemma_step_progress(src: Seq<u8>, start: int, s: DecodeState)
    requires
        s.wf(),
        start >= 0,
        step(src, start, s) is Continue,
    ensures
        ({
            let t = step(src, start, s)->Continue_0;
            &&& t.wf()
            &&& t.prev_index == t.cursor.read_index
            &&& t.dst.len() > s.dst.len() || {
                &&& t.dst == s.dst
                &&& t.unsettled() == 0
                &&& s.unsettled() == 0 ==> {
                    ||| t.cursor.read_index < s.cursor.read_index
                    ||| t.cursor.read_index == s.cursor.read_index && t.loop_count == s.loop_count
                        + 1
                }
            }
        }),
{
    let (opcode, c0) = checked_read(src, s.cursor)->Some_0;
    let (op, c) = decode_operands(src, c0, opcode)->Some_0;
    lemma_decoded_operation(src, c0, opcode);
    let m = apply(src, start, Machine { dst: s.dst, cursor: c }, op)->Ok_0;
    match op {
        Operation::CopyBackread { .. } | Operation::RepeatValue { .. } | Operation::StartBackref {
            ..
        } | Operation::Exit => {},
        _ => {
            lemma_after_reads_wf(c, source_reads(op));
        },
    }
}

/// The result of a decode that stands at `s`: the output where the stream
/// ends, or the error at which it fails.
///
/// Every decode ends: an operation appends output, which the size ceiling
/// bounds, or it is a displacement, and displacements in a row move the
/// cursor towards the start or are counted as stalls.
pub open spec fn decode_from(src: Seq<u8>, start: int, s: DecodeState) -> Result<
    Seq<u8>,
    DecompressError,
>
    decreases MAX_OUTPUT - s.dst.len(), s.unsettled(), s.cursor.read_index, MAX_STALLS
        - s.loop_count,
    when s.wf() && start >= 0
    via decode_from_ends
{
    match step(src, start, s) {
        Step::Done(out) => Ok(out),
        Step::Fail(e) => Err(e),
        Step::Continue(next) => decode_from(src, start, next),
    }
}

#[via_fn]
proof fn decode_from_ends(src: Seq<u8>, start: int, s: DecodeState) {
    if step(src, start, s) is Continue {
        lemma_step_progress(src, start, s);
    }
}

/// The result of decoding the stream that starts at `offset` in `src`.
pub open spec fn decoded(src: Seq<u8>, offset: int) -> Result<Seq<u8>, DecompressError> {
    decode_from(src, offset, DecodeState::initial(offset))
}

} // verus!
