//! The executable decoder.

use vstd::prelude::*;

use super::laws::{lemma_decoder_errors, lemma_output_within_ceiling};
use super::model::{
    apply, backread_tail, be16, checked_read, decode_from, decode_operands, decoded, doubled,
    interleaved, lemma_cycle_index, lemma_operand_ranges, lemma_run_extends, lemma_step_progress,
    nibble_packed, nibble_reads, nibble_total, pack_nibble, raw_read, readable, readable_run,
    repeated, run_bytes, step, variable_nibbles, Cursor, DecodeState, Machine, MAX_OUTPUT,
    MAX_STALLS,
};
use super::{DecompressError, NibblePos, Operation};

verus! {

/// A decode in progress: a source, the output so far, the read cursor and the
/// record of stalls.
#[derive(Debug, Clone)]
pub struct Decompressor<'a> {
    src: &'a [u8],
    dst: Vec<u8>,
    /// no displacement may reach before this index
    start_index: usize,
    /// where the cursor stood after the operation before
    prev_index: usize,
    loop_count: usize,
    /// index to read from
    read_index: usize,
    /// index before a displacement was started
    old_index: usize,
    /// checked reads remaining in a displacement
    backref_remaining: usize,
}

/// What a [`Decompressor`] stands for.
pub struct DecoderView {
    pub src: Seq<u8>,
    pub start_index: int,
    pub dst: Seq<u8>,
    pub cursor: Cursor,
    pub prev_index: int,
    pub loop_count: int,
}

impl DecoderView {
    /// What operations work on.
    pub open spec fn machine(self) -> Machine {
        Machine { dst: self.dst, cursor: self.cursor }
    }

    /// What changes from one operation to the next.
    pub open spec fn state(self) -> DecodeState {
        DecodeState {
            dst: self.dst,
            cursor: self.cursor,
            prev_index: self.prev_index,
            loop_count: self.loop_count,
        }
    }

    /// This decoder with its cursor at `c`.
    pub open spec fn with_cursor(self, c: Cursor) -> DecoderView {
        DecoderView { cursor: c, ..self }
    }

    /// This decoder with output and cursor as in `m`.
    pub open spec fn with_machine(self, m: Machine) -> DecoderView {
        DecoderView { dst: m.dst, cursor: m.cursor, ..self }
    }

    /// Whether this decoder is `before` but for its cursor.
    pub open spec fn only_cursor_moved(self, before: DecoderView) -> bool {
        self == before.with_cursor(self.cursor)
    }

    /// Whether `other` reads the same source with the same lower bound for
    /// displacements.
    pub open spec fn same_stream(self, other: DecoderView) -> bool {
        self.src == other.src && self.start_index == other.start_index
    }

    /// Whether `after` is this decoder given up in the middle of an
    /// operation: it may have read on and appended output, and nothing else
    /// has changed.
    pub open spec fn abandoned_as(self, after: DecoderView) -> bool {
        &&& after.same_stream(self)
        &&& after.prev_index == self.prev_index
        &&& after.loop_count == self.loop_count
        &&& self.dst.is_prefix_of(after.dst)
    }

    /// Whether executing `op` on this decoder gives the result `r` and leaves
    /// the decoder as `after`: on success output and cursor are as the
    /// operation leaves them and nothing else has changed; on failure the
    /// decoder is given up where the operation failed.
    pub open spec fn executes(
        self,
        op: Operation,
        r: Result<(), DecompressError>,
        after: DecoderView,
    ) -> bool {
        match apply(self.src, self.start_index, self.machine(), op) {
            Ok(m) => r is Ok && after == self.with_machine(m),
            Err(e) => r == Err::<(), DecompressError>(e) && self.abandoned_as(after),
        }
    }
}

impl<'a> View for Decompressor<'a> {
    type V = DecoderView;

    closed spec fn view(&self) -> DecoderView {
        DecoderView {
            src: self.src@,
            start_index: self.start_index as int,
            dst: self.dst@,
            cursor: Cursor {
                read_index: self.read_index as int,
                old_index: self.old_index as int,
                remaining: self.backref_remaining as int,
            },
            prev_index: self.prev_index as int,
            loop_count: self.loop_count as int,
        }
    }
}

/// Forms a 16-bit value from its big-endian bytes.
pub fn be16_from(hi: u8, lo: u8) -> (v: u16)
    ensures
        v == be16(hi, lo),
{
    let hi16: u16 = hi as u16;
    let lo16: u16 = lo as u16;
    hi16 * 256 + lo16
}

/// Decodes the stream that starts at index `offset` of `src`.
pub fn decompress(src: &[u8], offset: usize) -> (r: Result<Vec<u8>, DecompressError>)
    ensures
        match decoded(src@, offset as int) {
            Ok(out) => r matches Ok(dst) && dst@ == out,
            Err(e) => r matches Err(err) && err == e,
        },
        r matches Ok(dst) ==> dst@.len() <= MAX_OUTPUT,
        r matches Err(e) ==> e != DecompressError::InvalidData,
{
    Decompressor::new(src, offset).decompress()
}

impl<'a> Decompressor<'a> {
    /// A decoder for the stream that starts at index `y` of `src`.
    pub fn new(src: &'a [u8], y: usize) -> (d: Self)
        ensures
            d@.src == src@,
            d@.start_index == y,
            d@.state() == DecodeState::initial(y as int),
    {
        Self {
            src,
            dst: Vec::new(),
            read_index: y,
            start_index: y,
            backref_remaining: 0,
            old_index: 0,
            prev_index: 0,
            loop_count: 0,
        }
    }

    /// Runs the decode to its end: executes operation after operation until
    /// the stream ends or an operation fails, and returns the output or the
    /// first error.
    pub fn decompress(self) -> (r: Result<Vec<u8>, DecompressError>)
        requires
            self@.state().wf(),
        ensures
            match decode_from(self@.src, self@.start_index, self@.state()) {
                Ok(out) => r matches Ok(dst) && dst@ == out,
                Err(e) => r matches Err(err) && err == e,
            },
            r matches Ok(dst) ==> dst@.len() <= MAX_OUTPUT,
            r matches Err(e) ==> e != DecompressError::InvalidData,
    {
        proof {
            lemma_output_within_ceiling(self@.src, self@.start_index, self@.state());
            lemma_decoder_errors(self@.src, self@.start_index, self@.state());
        }
        let ghost src = self@.src;
        let ghost start = self@.start_index;
        let ghost goal = decode_from(src, start, self@.state());
        let mut this = self;
        loop
            invariant
                src == self@.src,
                start == self@.start_index,
                goal == decode_from(self@.src, self@.start_index, self@.state()),
                this@.src == src,
                this@.start_index == start,
                this@.state().wf(),
                decode_from(src, start, this@.state()) == goal,
            decreases
                    MAX_OUTPUT - this@.dst.len(),
                    this@.state().unsettled(),
                    this@.cursor.read_index,
                    MAX_STALLS - this@.loop_count,
        {
            let ghost at_head = this@.state();
            proof {
                if step(src, start, at_head) is Continue {
                    lemma_step_progress(src, start, at_head);
                }
            }
            let value = match this.read() {
                Ok(value) => value,
                Err(e) => {
                    return Err(e);
                },
            };

            let operation = match Operation::decode(value, &mut this) {
                Ok(operation) => operation,
                Err(e) => {
                    return Err(e);
                },
            };

            let executed = match operation {
                Operation::CopySimple(count) => this.copy_simple(count),
                Operation::CopyNibbleFixed { fixed, fixed_pos, count, initial } => {
                    this.copy_nibble_fixed(count, fixed, fixed_pos, initial)
                },
                Operation::CopyDoubled(count) => this.copy_doubled(count),
                Operation::CopyInterleaved { count, fixed_value, fixed_first } => {
                    this.copy_interleaved(count, fixed_value, fixed_first)
                },
                Operation::CopyBackread { count, back } => this.copy_backread(count, back),
                Operation::RepeatValue { count, value } => this.repeat_value(count, value),
                Operation::StartBackref { count, back } => this.start_backref(count, back),
                Operation::Exit => {
                    return Ok(this.dst);
                },
            };
            match executed {
                Ok(()) => {},
                Err(e) => {
                    return Err(e);
                },
            }

            if this.dst.len() > MAX_OUTPUT {
                return Err(DecompressError::MaxSizeExceeded);
            }
            if this.prev_index == this.read_index {
                this.loop_count += 1;
                if this.loop_count > MAX_STALLS {
                    return Err(DecompressError::LoopDetected);
                }
            } else {
                this.loop_count = 0;
            }
            this.prev_index = this.read_index;
        }
    }

    /// Reads the byte under the cursor and moves the cursor one byte on. The
    /// displacement is not touched. Fails, changing nothing, where the cursor
    /// stands outside the source.
    pub fn read_raw(&mut self) -> (r: Result<u8, DecompressError>)
        ensures
            match raw_read(old(self)@.src, old(self)@.cursor) {
                Some((value, c)) => {
                    &&& r == Ok::<u8, DecompressError>(value)
                    &&& final(self)@ == old(self)@.with_cursor(c)
                },
                None => {
                    &&& r == Err::<u8, DecompressError>(DecompressError::InvalidOperation)
                    &&& final(self)@ == old(self)@
                },
            },
    {
        if self.read_index >= self.src.len() {
            return Err(DecompressError::InvalidOperation);
        }
        let value = self.src[self.read_index];
        self.read_index += 1;
        Ok(value)
    }

    /// The expiry check: restores the cursor where the displacement has one
    /// read left, and counts one read off.
    pub fn check_backref_end(&mut self)
        ensures
            final(self)@ == old(self)@.with_cursor(old(self)@.cursor.expire()),
    {
        if self.backref_remaining == 1 {
            self.read_index = self.old_index;
        }
        if self.backref_remaining > 0 {
            self.backref_remaining -= 1;
        }
    }

    /// A checked read: a raw read followed by the expiry check. Fails,
    /// changing nothing, where the cursor stands outside the source.
    pub fn read(&mut self) -> (r: Result<u8, DecompressError>)
        ensures
            match checked_read(old(self)@.src, old(self)@.cursor) {
                Some((value, c)) => {
                    &&& r == Ok::<u8, DecompressError>(value)
                    &&& final(self)@ == old(self)@.with_cursor(c)
                },
                None => {
                    &&& r == Err::<u8, DecompressError>(DecompressError::InvalidOperation)
                    &&& final(self)@ == old(self)@
                },
            },
    {
        match self.read_raw() {
            Ok(value) => {
                self.check_backref_end();
                Ok(value)
            },
            Err(e) => Err(e),
        }
    }

    /// Executes [`Operation::CopySimple`].
    pub fn copy_simple(&mut self, count: u8) -> (r: Result<(), DecompressError>)
        ensures
            old(self)@.executes(Operation::CopySimple(count), r, final(self)@),
    {
        let ghost before = self@;
        let n: usize = count as usize + 1;
        let mut i: usize = 0;
        while i < n
            invariant
                before == old(self)@,
                i <= n,
                n == count + 1,
                readable_run(before.src, before.cursor, i as nat),
                self@ == before.with_machine(
                    Machine {
                        dst: before.dst + run_bytes(before.src, before.cursor, i as nat),
                        cursor: before.cursor.after_reads(i as nat),
                    },
                ),
            decreases n - i,
        {
            match self.read() {
                Ok(value) => {
                    self.dst.push(value);
                },
                Err(e) => {
                    assert(!readable(before.src, before.cursor.after_reads(i as nat)));
                    return Err(e);
                },
            }
            proof {
                lemma_run_extends(before.src, before.cursor, i as nat);
            }
            i += 1;
        }
        Ok(())
    }

    /// Executes [`Operation::CopyDoubled`].
    pub fn copy_doubled(&mut self, count: u8) -> (r: Result<(), DecompressError>)
        ensures
            old(self)@.executes(Operation::CopyDoubled(count), r, final(self)@),
    {
        let ghost before = self@;
        let n: usize = count as usize + 1;
        let mut i: usize = 0;
        while i < n
            invariant
                before == old(self)@,
                i <= n,
                n == count + 1,
                readable_run(before.src, before.cursor, i as nat),
                self@ == before.with_machine(
                    Machine {
                        dst: before.dst + doubled(
                            run_bytes(before.src, before.cursor, i as nat),
                        ),
                        cursor: before.cursor.after_reads(i as nat),
                    },
                ),
            decreases n - i,
        {
            match self.read() {
                Ok(value) => {
                    self.dst.push(value);
                    self.dst.push(value);
                },
                Err(e) => {
                    assert(!readable(before.src, before.cursor.after_reads(i as nat)));
                    return Err(e);
                },
            }
            proof {
                lemma_run_extends(before.src, before.cursor, i as nat);
                let shorter = run_bytes(before.src, before.cursor, i as nat);
                let longer = run_bytes(before.src, before.cursor, (i + 1) as nat);
                assert(doubled(longer) =~= doubled(shorter).push(longer[i as int]).push(
                    longer[i as int],
                ));
            }
            i += 1;
        }
        Ok(())
    }

    /// Executes [`Operation::CopyNibbleFixed`].
    pub fn copy_nibble_fixed(
        &mut self,
        count: u8,
        fixed: u8,
        fixed_pos: NibblePos,
        initial: Option<u8>,
    ) -> (r: Result<(), DecompressError>)
        ensures
            old(self)@.executes(
                Operation::CopyNibbleFixed { count, fixed, fixed_pos, initial },
                r,
                final(self)@,
            ),
    {
        let ghost before = self@;
        let ghost n = nibble_reads(count);
        let ghost bytes = run_bytes(before.src, before.cursor, n);
        let ghost nibbles = variable_nibbles(bytes, initial);
        let total: usize = match initial {
            Some(_) => count as usize + 1,
            None => count as usize,
        };
        let mut current = initial;
        let mut i: usize = 0;
        // how many nibbles have come from the source
        let ghost mut used: nat = 0;
        while i < total
            invariant
                before == old(self)@,
                i <= total,
                total == nibble_total(count, initial),
                n == nibble_reads(count),
                bytes == run_bytes(before.src, before.cursor, n),
                nibbles == variable_nibbles(bytes, initial),
                used == (if initial is Some && i > 0 {
                    i - 1
                } else {
                    i as int
                }),
                used <= count,
                current == (if i == 0 {
                    initial
                } else if used % 2 == 1 {
                    Some(bytes[used as int / 2])
                } else {
                    None
                }),
                readable_run(before.src, before.cursor, (used + 1) / 2),
                self@ == before.with_machine(
                    Machine {
                        dst: before.dst + Seq::new(
                            i as nat,
                            |t: int| pack_nibble(fixed, fixed_pos, nibbles[t]),
                        ),
                        cursor: before.cursor.after_reads((used + 1) / 2),
                    },
                ),
            decreases total - i,
        {
            let ghost reads = (used + 1) / 2;
            let ghost so_far = Seq::new(
                i as nat,
                |t: int| pack_nibble(fixed, fixed_pos, nibbles[t]),
            );
            let nibble = match current {
                Some(byte) => {
                    current = None;
                    proof {
                        if i > 0 {
                            used = used + 1;
                        }
                    }
                    byte & 0x0f
                },
                None => {
                    let value = match self.read() {
                        Ok(value) => value,
                        Err(e) => {
                            assert(!readable(before.src, before.cursor.after_reads(reads)));
                            assert(reads < n);
                            return Err(e);
                        },
                    };
                    proof {
                        lemma_run_extends(before.src, before.cursor, reads);
                        used = used + 1;
                    }
                    current = Some(value);
                    value >> 4
                },
            };

            let value = match fixed_pos {
                NibblePos::Upper => (fixed << 4) | nibble,
                NibblePos::Lower => (fixed & 0x0f) | (nibble << 4),
            };

            self.dst.push(value);
            proof {
                assert(nibble == nibbles[i as int]);
                let longer = Seq::new(
                    (i + 1) as nat,
                    |t: int| pack_nibble(fixed, fixed_pos, nibbles[t]),
                );
                assert(longer =~= so_far.push(value));
            }
            i += 1;
        }
        proof {
            assert(Seq::new(i as nat, |t: int| pack_nibble(fixed, fixed_pos, nibbles[t]))
                =~= nibble_packed(bytes, count, fixed, fixed_pos, initial));
        }
        Ok(())
    }

    /// Executes [`Operation::CopyInterleaved`].
    pub fn copy_interleaved(&mut self, count: u8, fixed_value: u8, fixed_first: bool) -> (r:
        Result<(), DecompressError>)
        ensures
            old(self)@.executes(
                Operation::CopyInterleaved { count, fixed_value, fixed_first },
                r,
                final(self)@,
            ),
    {
        let ghost before = self@;
        let n: usize = count as usize + 1;
        let mut i: usize = 0;
        while i < n
            invariant
                before == old(self)@,
                i <= n,
                n == count + 1,
                readable_run(before.src, before.cursor, i as nat),
                self@ == before.with_machine(
                    Machine {
                        dst: before.dst + interleaved(
                            run_bytes(before.src, before.cursor, i as nat),
                            fixed_value,
                            fixed_first,
                        ),
                        cursor: before.cursor.after_reads(i as nat),
                    },
                ),
            decreases n - i,
        {
            let ghost so_far = self.dst@;
            if fixed_first {
                self.dst.push(fixed_value);

                match self.read() {
                    Ok(read) => {
                        self.dst.push(read);
                    },
                    Err(e) => {
                        assert(!readable(before.src, before.cursor.after_reads(i as nat)));
                        return Err(e);
                    },
                }
            } else {
                match self.read() {
                    Ok(read) => {
                        self.dst.push(read);
                    },
                    Err(e) => {
                        assert(!readable(before.src, before.cursor.after_reads(i as nat)));
                        return Err(e);
                    },
                }

                self.dst.push(fixed_value);
            }
            proof {
                lemma_run_extends(before.src, before.cursor, i as nat);
                let shorter = run_bytes(before.src, before.cursor, i as nat);
                let longer = run_bytes(before.src, before.cursor, (i + 1) as nat);
                let pair = if fixed_first {
                    seq![fixed_value, longer[i as int]]
                } else {
                    seq![longer[i as int], fixed_value]
                };
                assert(interleaved(longer, fixed_value, fixed_first) =~= interleaved(
                    shorter,
                    fixed_value,
                    fixed_first,
                ) + pair);
                assert(self.dst@ =~= so_far + pair);
                assert(self.dst@ =~= before.dst + interleaved(longer, fixed_value, fixed_first));
            }
            i += 1;
        }
        Ok(())
    }

    /// Executes [`Operation::CopyBackread`].
    pub fn copy_backread(&mut self, count: u8, back: u16) -> (r: Result<(), DecompressError>)
        ensures
            old(self)@.executes(Operation::CopyBackread { count, back }, r, final(self)@),
    {
        if self.dst.len() < back as usize || back == 0 {
            return Err(DecompressError::InvalidOperation);
        }
        let ghost before = self@;
        let n: usize = count as usize + 1;
        let mut i: usize = 0;
        while i < n
            invariant
                before == old(self)@,
                i <= n,
                n == count + 1,
                0 < back <= before.dst.len(),
                self@ == before.with_machine(
                    Machine {
                        dst: before.dst + Seq::new(
                            i as nat,
                            |t: int| before.dst[before.dst.len() - back + t % (back as int)],
                        ),
                        cursor: before.cursor,
                    },
                ),
            decreases n - i,
        {
            let ghost so_far = self.dst@;
            let value = self.dst[self.dst.len() - back as usize];
            self.dst.push(value);
            proof {
                lemma_cycle_index(i as int, back as int);
                let longer = Seq::new(
                    (i + 1) as nat,
                    |t: int| before.dst[before.dst.len() - back + t % (back as int)],
                );
                assert(self.dst@ =~= before.dst + longer);
            }
            i += 1;
        }
        proof {
            assert(Seq::new(
                i as nat,
                |t: int| before.dst[before.dst.len() - back + t % (back as int)],
            ) =~= backread_tail(before.dst, count, back));
        }

        self.check_backref_end();

        Ok(())
    }

    /// Executes [`Operation::RepeatValue`].
    pub fn repeat_value(&mut self, count: u16, value: u8) -> (r: Result<(), DecompressError>)
        ensures
            r is Ok,
            old(self)@.executes(Operation::RepeatValue { count, value }, r, final(self)@),
    {
        let ghost before = self@;
        let mut i: u16 = 0;
        while i < count
            invariant
                before == old(self)@,
                i <= count,
                self@ == before.with_machine(
                    Machine { dst: before.dst + repeated(i, value), cursor: before.cursor },
                ),
            decreases count - i,
        {
            let ghost so_far = self.dst@;
            self.dst.push(value);
            proof {
                assert(self.dst@ =~= before.dst + repeated((i + 1) as u16, value));
            }
            i += 1;
        }

        self.check_backref_end();
        Ok(())
    }

    /// Executes [`Operation::StartBackref`]. Where it fails nothing has
    /// changed.
    pub fn start_backref(&mut self, count: u16, back: u16) -> (r: Result<(), DecompressError>)
        ensures
            old(self)@.executes(Operation::StartBackref { count, back }, r, final(self)@),
            r is Err ==> final(self)@ == old(self)@,
    {
        if self.read_index < back as usize || (self.read_index - back as usize)
            < self.start_index {
            return Err(DecompressError::InvalidOperation);
        }
        self.backref_remaining = count as usize;
        self.old_index = self.read_index;
        self.read_index -= back as usize;

        Ok(())
    }
}

impl Operation {
    /// Decodes the operation that opcode `op` starts, reading its operands
    /// through `decompressor`, whose cursor stands just behind the opcode.
    ///
    /// Fails where an operand lies outside the source; the cursor may then
    /// have moved, nothing else has changed.
    pub fn decode(op: u8, decompressor: &mut Decompressor) -> (r: Result<Self, DecompressError>)
        ensures
            match decode_operands(old(decompressor)@.src, old(decompressor)@.cursor, op) {
                Some((operation, c)) => {
                    &&& r == Ok::<Operation, DecompressError>(operation)
                    &&& final(decompressor)@ == old(decompressor)@.with_cursor(c)
                },
                None => {
                    &&& r == Err::<Operation, DecompressError>(DecompressError::InvalidOperation)
                    &&& final(decompressor)@.only_cursor_moved(old(decompressor)@)
                },
            },
    {
        if op < 0x40 {
            Ok(Operation::CopySimple(op))
        } else if op < 0x50 {
            Self::decode_copy_nibble_fixed(op, decompressor)
        } else if op < 0x60 {
            Ok(Operation::CopyDoubled(op & 0x0f))
        } else if op < 0x80 {
            Self::decode_copy_interleaved(op, decompressor)
        } else if op < 0xc0 {
            Self::decode_copy_backread_small(op, decompressor)
        } else if op < 0xe0 {
            Self::decode_copy_backread_large(op, decompressor)
        } else if op < 0xf0 {
            Self::decode_repeat_value_large(op, decompressor)
        } else if op < 0xf8 {
            Self::decode_repeat_value_small(op, decompressor)
        } else if op < 0xfc {
            Self::decode_backref_large(op, decompressor)
        } else if op < 0xff {
            Self::decode_backref_small(op, decompressor)
        } else {
            Ok(Operation::Exit)
        }
    }

    fn decode_copy_nibble_fixed(op: u8, decompressor: &mut Decompressor) -> (r: Result<
        Self,
        DecompressError,
    >)
        requires
            0x40 <= op < 0x50,
        ensures
            match decode_operands(old(decompressor)@.src, old(decompressor)@.cursor, op) {
                Some((operation, c)) => {
                    &&& r == Ok::<Operation, DecompressError>(operation)
                    &&& final(decompressor)@ == old(decompressor)@.with_cursor(c)
                },
                None => {
                    &&& r == Err::<Operation, DecompressError>(DecompressError::InvalidOperation)
                    &&& final(decompressor)@.only_cursor_moved(old(decompressor)@)
                },
            },
    {
        proof {
            lemma_operand_ranges(op, 0, 0);
        }
        let count = (op & 0x0f) + 1;

        let op_2 = match decompressor.read() {
            Ok(value) => value,
            Err(e) => {
                return Err(e);
            },
        };

        let fixed_pos = if (op_2 & 0x10) == 0 {
            NibblePos::Upper
        } else {
            NibblePos::Lower
        };

        let fixed;
        let initial: Option<u8>;
        if op_2 < 0x80 {
            initial = None;
            fixed = op_2 & 0x0f;
        } else {
            initial = Some(op_2 & 0x0f);
            fixed = if (op_2 & 0x40) == 0 {
                0x00
            } else {
                0x0f
            };
        }

        Ok(Operation::CopyNibbleFixed { count, fixed, fixed_pos, initial })
    }

    fn decode_copy_interleaved(op: u8, decompressor: &mut Decompressor) -> (r: Result<
        Self,
        DecompressError,
    >)
        requires
            0x60 <= op < 0x80,
        ensures
            match decode_operands(old(decompressor)@.src, old(decompressor)@.cursor, op) {
                Some((operation, c)) => {
                    &&& r == Ok::<Operation, DecompressError>(operation)
                    &&& final(decompressor)@ == old(decompressor)@.with_cursor(c)
                },
                None => {
                    &&& r == Err::<Operation, DecompressError>(DecompressError::InvalidOperation)
                    &&& final(decompressor)@.only_cursor_moved(old(decompressor)@)
                },
            },
    {
        proof {
            lemma_operand_ranges(op, 0, 0);
        }
        let count = (op & 0x0f) + 1;
        match decompressor.read() {
            Ok(fixed_value) => Ok(
                Operation::CopyInterleaved { count, fixed_value, fixed_first: op < 0x70 },
            ),
            Err(e) => Err(e),
        }
    }

    fn decode_copy_backread_small(op: u8, decompressor: &mut Decompressor) -> (r: Result<
        Self,
        DecompressError,
    >)
        requires
            0x80 <= op < 0xc0,
        ensures
            match decode_operands(old(decompressor)@.src, old(decompressor)@.cursor, op) {
                Some((operation, c)) => {
                    &&& r == Ok::<Operation, DecompressError>(operation)
                    &&& final(decompressor)@ == old(decompressor)@.with_cursor(c)
                },
                None => {
                    &&& r == Err::<Operation, DecompressError>(DecompressError::InvalidOperation)
                    &&& final(decompressor)@.only_cursor_moved(old(decompressor)@)
                },
            },
    {
        let count = (op & 0x7f) / 4 + 1;

        let upper = op & 0x03;
        match decompressor.read_raw() {
            Ok(lower) => Ok(Operation::CopyBackread { count, back: be16_from(upper, lower) }),
            Err(e) => Err(e),
        }
    }

    fn decode_copy_backread_large(op: u8, decompressor: &mut Decompressor) -> (r: Result<
        Self,
        DecompressError,
    >)
        requires
            0xc0 <= op < 0xe0,
        ensures
            match decode_operands(old(decompressor)@.src, old(decompressor)@.cursor, op) {
                Some((operation, c)) => {
                    &&& r == Ok::<Operation, DecompressError>(operation)
                    &&& final(decompressor)@ == old(decompressor)@.with_cursor(c)
                },
                None => {
                    &&& r == Err::<Operation, DecompressError>(DecompressError::InvalidOperation)
                    &&& final(decompressor)@.only_cursor_moved(old(decompressor)@)
                },
            },
    {
        let upper = op & 0x1f;
        let lower = match decompressor.read() {
            Ok(value) => value,
            Err(e) => {
                return Err(e);
            },
        };
        proof {
            lemma_operand_ranges(op, lower, 0);
        }
        let count = ((upper << 1) | (lower >> 7)) + 1;
        match decompressor.read_raw() {
            Ok(low) => Ok(Operation::CopyBackread { count, back: be16_from(lower & 0x7f, low) }),
            Err(e) => Err(e),
        }
    }

    fn decode_repeat_value_small(op: u8, decompressor: &mut Decompressor) -> (r: Result<
        Self,
        DecompressError,
    >)
        requires
            0xf0 <= op < 0xf8,
        ensures
            match decode_operands(old(decompressor)@.src, old(decompressor)@.cursor, op) {
                Some((operation, c)) => {
                    &&& r == Ok::<Operation, DecompressError>(operation)
                    &&& final(decompressor)@ == old(decompressor)@.with_cursor(c)
                },
                None => {
                    &&& r == Err::<Operation, DecompressError>(DecompressError::InvalidOperation)
                    &&& final(decompressor)@.only_cursor_moved(old(decompressor)@)
                },
            },
    {
        proof {
            lemma_operand_ranges(op, 0, 0);
        }
        let low: u8 = op & 0x07;
        let count: u16 = low as u16 + 3;
        match decompressor.read_raw() {
            Ok(value) => Ok(Operation::RepeatValue { count, value }),
            Err(e) => Err(e),
        }
    }

    fn decode_repeat_value_large(op: u8, decompressor: &mut Decompressor) -> (r: Result<
        Self,
        DecompressError,
    >)
        requires
            0xe0 <= op < 0xf0,
        ensures
            match decode_operands(old(decompressor)@.src, old(decompressor)@.cursor, op) {
                Some((operation, c)) => {
                    &&& r == Ok::<Operation, DecompressError>(operation)
                    &&& final(decompressor)@ == old(decompressor)@.with_cursor(c)
                },
                None => {
                    &&& r == Err::<Operation, DecompressError>(DecompressError::InvalidOperation)
                    &&& final(decompressor)@.only_cursor_moved(old(decompressor)@)
                },
            },
    {
        let upper = op & 0x0f;
        let lower = match decompressor.read() {
            Ok(value) => value,
            Err(e) => {
                return Err(e);
            },
        };
        proof {
            lemma_operand_ranges(op, 0, 0);
        }
        let count = be16_from(upper, lower) + 3;

        match decompressor.read_raw() {
            Ok(value) => Ok(Operation::RepeatValue { count, value }),
            Err(e) => Err(e),
        }
    }

    fn decode_backref_small(op: u8, decompressor: &mut Decompressor) -> (r: Result<
        Self,
        DecompressError,
    >)
        requires
            0xfc <= op < 0xff,
        ensures
            match decode_operands(old(decompressor)@.src, old(decompressor)@.cursor, op) {
                Some((operation, c)) => {
                    &&& r == Ok::<Operation, DecompressError>(operation)
                    &&& final(decompressor)@ == old(decompressor)@.with_cursor(c)
                },
                None => {
                    &&& r == Err::<Operation, DecompressError>(DecompressError::InvalidOperation)
                    &&& final(decompressor)@.only_cursor_moved(old(decompressor)@)
                },
            },
    {
        let upper = op & 0x01;
        let lower = match decompressor.read_raw() {
            Ok(value) => value,
            Err(e) => {
                return Err(e);
            },
        };
        let both: u16 = be16_from(upper, lower);
        proof {
            lemma_operand_ranges(lower, 0, both);
        }
        let low: u8 = lower & 0x3f;
        let back: u16 = low as u16 + 2;
        let count: u16 = (both >> 6) + 3;

        Ok(Operation::StartBackref { count, back })
    }

    fn decode_backref_large(op: u8, decompressor: &mut Decompressor) -> (r: Result<
        Self,
        DecompressError,
    >)
        requires
            0xf8 <= op < 0xfc,
        ensures
            match decode_operands(old(decompressor)@.src, old(decompressor)@.cursor, op) {
                Some((operation, c)) => {
                    &&& r == Ok::<Operation, DecompressError>(operation)
                    &&& final(decompressor)@ == old(decompressor)@.with_cursor(c)
                },
                None => {
                    &&& r == Err::<Operation, DecompressError>(DecompressError::InvalidOperation)
                    &&& final(decompressor)@.only_cursor_moved(old(decompressor)@)
                },
            },
    {
        let upper = op & 0x03;
        let lower = match decompressor.read_raw() {
            Ok(value) => value,
            Err(e) => {
                return Err(e);
            },
        };

        let back_upper = lower & 0x1f;
        let back_lower = match decompressor.read_raw() {
            Ok(value) => value,
            Err(e) => {
                return Err(e);
            },
        };
        let both: u16 = be16_from(upper, lower);
        proof {
            lemma_operand_ranges(lower, 0, both);
        }
        let back: u16 = be16_from(back_upper, back_lower) + 3;
        let count: u16 = (both >> 5) + 3;

        Ok(Operation::StartBackref { count, back })
    }
}

} // verus!
