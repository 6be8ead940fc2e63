//! What holds of every stream of the codec.

use vstd::prelude::*;

use super::model::{
    apply, decode_from, fetch, lemma_after_reads, lemma_step_progress, repeated, step, Cursor,
    DecodeState, Machine, Step, MAX_OUTPUT, MAX_STALLS,
};
use super::{DecompressError, Operation};

verus! {

/// A back-read by one is a run: it appends the output's last byte `count + 1`
/// times, which is what repeating that byte `count + 1` times does.
pub proof fn lemma_backread_by_one_is_a_run(src: Seq<u8>, start: int, m: Machine, count: u8)
    requires
        m.dst.len() >= 1,
    ensures
        apply(src, start, m, Operation::CopyBackread { count, back: 1 }) == Ok::<
            Machine,
            DecompressError,
        >(
            Machine {
                dst: m.dst + repeated((count + 1) as u16, m.dst.last()),
                cursor: m.cursor.expire(),
            },
        ),
        apply(src, start, m, Operation::CopyBackread { count, back: 1 }) == apply(
            src,
            start,
            m,
            Operation::RepeatValue { count: (count + 1) as u16, value: m.dst.last() },
        ),
{
    let run = repeated((count + 1) as u16, m.dst.last());
    let after = apply(src, start, m, Operation::CopyBackread { count, back: 1 })->Ok_0;
    assert(after.dst =~= m.dst + run);
}

/// A back-read that reaches back at least as far as it is long copies a
/// piece of the output as it was: the `count + 1` bytes that begin `back`
/// places before the end.
pub proof fn lemma_backread_copies_a_piece(
    src: Seq<u8>,
    start: int,
    m: Machine,
    count: u8,
    back: u16,
)
    requires
        count + 1 <= back <= m.dst.len(),
    ensures
        apply(src, start, m, Operation::CopyBackread { count, back }) == Ok::<
            Machine,
            DecompressError,
        >(
            Machine {
                dst: m.dst + m.dst.subrange(
                    m.dst.len() - back,
                    m.dst.len() - back + count + 1,
                ),
                cursor: m.cursor.expire(),
            },
        ),
{
    let piece = m.dst.subrange(m.dst.len() - back, m.dst.len() - back + count + 1);
    let after = apply(src, start, m, Operation::CopyBackread { count, back })->Ok_0;
    assert forall|j: int| m.dst.len() <= j < m.dst.len() + count + 1 implies #[trigger] after.dst[j]
        == (m.dst + piece)[j] by {
        vstd::arithmetic::div_mod::lemma_small_mod((j - m.dst.len()) as nat, back as nat);
    }
    assert(after.dst =~= m.dst + piece);
}

/// A back-read that reaches before the first byte of the output, or by
/// zero, fails as an invalid operation; any other succeeds.
pub proof fn lemma_backread_range(src: Seq<u8>, start: int, m: Machine, count: u8, back: u16)
    ensures
        back == 0 || back > m.dst.len() <==> apply(
            src,
            start,
            m,
            Operation::CopyBackread { count, back },
        ) == Err::<Machine, DecompressError>(DecompressError::InvalidOperation),
        0 < back <= m.dst.len() <==> apply(src, start, m, Operation::CopyBackread { count, back })
            is Ok,
{
}

/// A displacement never puts the cursor before `start`: it succeeds exactly
/// where its target is an index at or after `start`.
pub proof fn lemma_displacement_range(
    src: Seq<u8>,
    start: int,
    m: Machine,
    count: u16,
    back: u16,
)
    requires
        start >= 0,
    ensures
        match apply(src, start, m, Operation::StartBackref { count, back }) {
            Ok(after) => start <= after.cursor.read_index == m.cursor.read_index - back,
            Err(e) => e == DecompressError::InvalidOperation && m.cursor.read_index - back < start,
        },
{
}

/// A displacement ends exactly once. With `count >= 1`, the cursor that was
/// displaced by `back` moves on from its target for the first `count - 1`
/// checked reads, stands where it was before the displacement right after
/// read number `count`, and from then on only moves forward: no later read
/// restores it again.
pub proof fn lemma_displacement_ends_once(c: Cursor, count: nat, back: int, n: nat)
    requires
        count >= 1,
    ensures
        n < count ==> c.jump(count as int, back).after_reads(n) == (Cursor {
            read_index: c.read_index - back + n,
            old_index: c.read_index,
            remaining: count - n,
        }),
        c.jump(count as int, back).after_reads(count) == (Cursor {
            read_index: c.read_index,
            old_index: c.read_index,
            remaining: 0,
        }),
        n >= count ==> c.jump(count as int, back).after_reads(n) == (Cursor {
            read_index: c.read_index + (n - count),
            old_index: c.read_index,
            remaining: 0,
        }),
{
    lemma_after_reads(c.jump(count as int, back), n);
    lemma_after_reads(c.jump(count as int, back), count);
}

/// What the operation that a decode at `s` meets leaves behind, where it is
/// not the end of the stream and can be executed.
pub open spec fn outcome(src: Seq<u8>, start: int, s: DecodeState) -> Option<Machine> {
    match fetch(src, s.cursor) {
        Some((op, c)) => {
            if op is Exit {
                None
            } else {
                match apply(src, start, Machine { dst: s.dst, cursor: c }, op) {
                    Ok(m) => Some(m),
                    Err(_) => None,
                }
            }
        },
        None => None,
    }
}

/// The size check fails an operation exactly where that operation was
/// executed and left more than `MAX_OUTPUT` bytes of output, and the decode
/// ends there: nothing is appended after it.
pub proof fn lemma_ceiling_crossed(src: Seq<u8>, start: int, s: DecodeState)
    requires
        s.wf(),
        start >= 0,
    ensures
        step(src, start, s) == Step::Fail(DecompressError::MaxSizeExceeded) <==> (outcome(
            src,
            start,
            s,
        ) matches Some(m) && m.dst.len() > MAX_OUTPUT),
        step(src, start, s) == Step::Fail(DecompressError::MaxSizeExceeded) ==> decode_from(
            src,
            start,
            s,
        ) == Err::<Seq<u8>, DecompressError>(DecompressError::MaxSizeExceeded),
{
}

/// The output of a decode that succeeds is never longer than `MAX_OUTPUT`.
pub proof fn lemma_output_within_ceiling(src: Seq<u8>, start: int, s: DecodeState)
    requires
        s.wf(),
        start >= 0,
    ensures
        decode_from(src, start, s) matches Ok(out) ==> out.len() <= MAX_OUTPUT,
    decreases MAX_OUTPUT - s.dst.len(), s.unsettled(), s.cursor.read_index, MAX_STALLS
        - s.loop_count,
{
    match step(src, start, s) {
        Step::Continue(next) => {
            lemma_step_progress(src, start, s);
            lemma_output_within_ceiling(src, start, next);
        },
        _ => {},
    }
}

/// The decoder itself never reports invalid data: that error is left to
/// those who check the shape of the output.
pub proof fn lemma_decoder_errors(src: Seq<u8>, start: int, s: DecodeState)
    requires
        s.wf(),
        start >= 0,
    ensures
        decode_from(src, start, s) matches Err(e) ==> e != DecompressError::InvalidData,
    decreases MAX_OUTPUT - s.dst.len(), s.unsettled(), s.cursor.read_index, MAX_STALLS
        - s.loop_count,
{
    match step(src, start, s) {
        Step::Continue(next) => {
            lemma_step_progress(src, start, s);
            lemma_decoder_errors(src, start, next);
        },
        _ => {},
    }
}

/// A decode that stands still is detected. Where an operation lets the
/// decode go on with the output and the cursor it had before, the decode
/// ends as a detected loop.
pub proof fn lemma_standing_decode_is_detected(src: Seq<u8>, start: int, s: DecodeState)
    requires
        s.wf(),
        start >= 0,
        step(src, start, s) matches Step::Continue(t) && t.dst == s.dst && t.cursor == s.cursor,
    ensures
        decode_from(src, start, s) == Err::<Seq<u8>, DecompressError>(
            DecompressError::LoopDetected,
        ),
    decreases MAX_STALLS - s.loop_count + (if s.prev_index == s.cursor.read_index {
        0int
    } else {
        MAX_STALLS + 1
    }),
{
    let t = step(src, start, s)->Continue_0;
    lemma_step_progress(src, start, s);
    if step(src, start, t) is Continue {
        lemma_standing_decode_is_detected(src, start, t);
    }
}

/// No more than `MAX_STALLS` operations in a row leave the cursor where it
/// was: an operation that does so is counted, and the one that would bring
/// the count past `MAX_STALLS` fails the decode as a detected loop.
pub proof fn lemma_stalls_are_counted(src: Seq<u8>, start: int, s: DecodeState, m: Machine)
    requires
        s.wf(),
        start >= 0,
        outcome(src, start, s) == Some(m),
        m.dst.len() <= MAX_OUTPUT,
        m.cursor.read_index == s.prev_index,
    ensures
        s.loop_count < MAX_STALLS ==> (step(src, start, s) matches Step::Continue(t)
            && t.loop_count == s.loop_count + 1),
        s.loop_count == MAX_STALLS ==> step(src, start, s) == Step::Fail(
            DecompressError::LoopDetected,
        ),
        s.loop_count == MAX_STALLS ==> decode_from(src, start, s) == Err::<
            Seq<u8>,
            DecompressError,
        >(DecompressError::LoopDetected),
{
}

} // verus!
