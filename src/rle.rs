//! Replaying one frame of a run-length encoded greyscale bitmap.

use vstd::prelude::*;

verus! {

/// One command of the run-length stream.
#[derive(Clone, Copy, Debug, PartialEq, Eq)]
pub enum Command {
    /// Draws `count` pixels at a lightness code; only its two low bits count.
    Draw(u32, u8),
    /// Leaves `count` pixels as they are.
    Skip(u32),
    /// Closes the frame.
    End,
}

/// Why a stream does not hold a well-formed frame. Each is fatal: the
/// stream is fixed, so replaying it again cannot help.
#[derive(Clone, Copy, Debug, PartialEq, Eq)]
pub enum DecodeError {
    /// The stream ran out before an `End`.
    Exhausted,
    /// A run goes past the last pixel of the frame.
    Overrun,
    /// `End` came before every pixel of the frame was accounted for.
    ShortFrame,
}

/// A decoded frame: for each pixel in row-major order, the lightness code
/// drawn there, or `None` where the stream skipped it.
pub struct DecodedFrame {
    pub pixels: Vec<Option<u8>>,
    /// Position in the stream just after the frame's `End`.
    pub next: usize,
}

/// How many pixels a command advances the running offset by.
pub open spec fn advance_of(c: Command) -> int {
    match c {
        Command::Draw(n, _) => n as int,
        Command::Skip(n) => n as int,
        Command::End => 0,
    }
}

/// Total advance of the commands in `[from, to)`.
pub open spec fn advance(cmds: Seq<Command>, from: int, to: int) -> int
    decreases to - from,
{
    if from >= to {
        0
    } else {
        advance_of(cmds[from]) + advance(cmds, from + 1, to)
    }
}

/// A frame of `total` pixels where nothing has been drawn.
pub open spec fn blank(total: int) -> Seq<Option<u8>> {
    Seq::new(total as nat, |k: int| None)
}

/// `acc` with the `n` pixels from `off` drawn at `code`.
pub open spec fn draw_run(acc: Seq<Option<u8>>, off: int, n: int, code: u8) -> Seq<Option<u8>> {
    Seq::new(acc.len(), |k: int| if off <= k < off + n { Some(code) } else { acc[k] })
}

/// Replays the stream from position `pos`, with the running offset at `off`
/// and the pixels drawn so far in `acc`, up to the end of a frame of `total`
/// pixels.
pub open spec fn replay(cmds: Seq<Command>, pos: int, off: int, acc: Seq<Option<u8>>, total: int) -> Result<
    (Seq<Option<u8>>, int),
    DecodeError,
>
    decreases cmds.len() - pos,
{
    if pos < 0 || pos >= cmds.len() {
        Err(DecodeError::Exhausted)
    } else {
        match cmds[pos] {
            Command::End => if off == total {
                Ok((acc, pos + 1))
            } else {
                Err(DecodeError::ShortFrame)
            },
            Command::Skip(n) => if off + n > total {
                Err(DecodeError::Overrun)
            } else {
                replay(cmds, pos + 1, off + n, acc, total)
            },
            Command::Draw(n, l) => if off + n > total {
                Err(DecodeError::Overrun)
            } else {
                replay(cmds, pos + 1, off + n, draw_run(acc, off, n as int, l % 4), total)
            },
        }
    }
}

/// The frame of `width * height` pixels that the stream holds from `start`.
pub open spec fn frame_from(cmds: Seq<Command>, start: int, width: int, height: int) -> Result<
    (Seq<Option<u8>>, int),
    DecodeError,
> {
    replay(cmds, start, 0, blank(width * height), width * height)
}

/// Decodes the frame of `width * height` pixels that starts at position
/// `start` of the stream.
pub fn decode_frame(cmds: &Vec<Command>, start: usize, width: usize, height: usize) -> (r: Result<
    DecodedFrame,
    DecodeError,
>)
    requires
        width * height <= usize::MAX,
    ensures
        match r {
            Ok(f) => frame_from(cmds@, start as int, width as int, height as int) == Ok::<
                (Seq<Option<u8>>, int),
                DecodeError,
            >((f.pixels@, f.next as int)) && f.pixels@.len() == width * height,
            Err(e) => frame_from(cmds@, start as int, width as int, height as int) == Err::<
                (Seq<Option<u8>>, int),
                DecodeError,
            >(e),
        },
{
    let total: usize = width * height;
    let mut acc: Vec<Option<u8>> = Vec::new();
    let mut k: usize = 0;
    while k < total
        invariant
            k <= total,
            acc@ == blank(k as int),
        decreases total - k,
    {
        acc.push(None);
        k = k + 1;
        assert(acc@ =~= blank(k as int));
    }
    let mut pos: usize = start;
    let mut off: usize = 0;
    while pos < cmds.len()
        invariant
            total == width * height,
            off <= total,
            acc@.len() == total,
            start <= pos,
            frame_from(cmds@, start as int, width as int, height as int) == replay(
                cmds@,
                pos as int,
                off as int,
                acc@,
                total as int,
            ),
        decreases cmds@.len() - pos,
    {
        match cmds[pos] {
            Command::End => {
                if off == total {
                    return Ok(DecodedFrame { pixels: acc, next: pos + 1 });
                }
                return Err(DecodeError::ShortFrame);
            },
            Command::Skip(n) => {
                if n as usize > total - off {
                    return Err(DecodeError::Overrun);
                }
                off = off + n as usize;
            },
            Command::Draw(n, l) => {
                if n as usize > total - off {
                    return Err(DecodeError::Overrun);
                }
                let code = l & 3;
                assert(l & 3 == l % 4) by (bit_vector);
                let ghost before = acc@;
                let mut i: usize = 0;
                while i < n as usize
                    invariant
                        off + n <= total,
                        i <= n,
                        acc@ == draw_run(before, off as int, i as int, code),
                        before.len() == total,
                    decreases n - i,
                {
                    acc.set(off + i, Some(code));
                    i = i + 1;
                    assert(acc@ =~= draw_run(before, off as int, i as int, code));
                }
                off = off + n as usize;
            },
        }
        pos = pos + 1;
    }
    Err(DecodeError::Exhausted)
}

proof fn lemma_replay_exact(cmds: Seq<Command>, pos: int, off: int, acc: Seq<Option<u8>>, total: int)
    requires
        0 <= pos,
    ensures
        replay(cmds, pos, off, acc, total) matches Ok((_, next)) ==> pos < next <= cmds.len() && cmds[next
            - 1] is End && (forall|k: int| pos <= k < next - 1 ==> !(cmds[k] is End)) && off + advance(
            cmds,
            pos,
            next - 1,
        ) == total,
        forall|e: int|
            pos <= e < cmds.len() && cmds[e] is End && (forall|k: int| pos <= k < e ==> !(cmds[k] is End))
                && off + advance(cmds, pos, e) != total ==> replay(cmds, pos, off, acc, total) is Err,
    decreases cmds.len() - pos,
{
    if pos < cmds.len() {
        match cmds[pos] {
            Command::End => {},
            Command::Skip(n) => {
                lemma_replay_exact(cmds, pos + 1, off + n, acc, total);
            },
            Command::Draw(n, l) => {
                lemma_replay_exact(cmds, pos + 1, off + n, draw_run(acc, off, n as int, l % 4), total);
            },
        }
        assert forall|e: int|
            pos <= e < cmds.len() && cmds[e] is End && (forall|k: int| pos <= k < e ==> !(cmds[k] is End))
                && off + advance(cmds, pos, e) != total implies replay(cmds, pos, off, acc, total) is Err by {
            if e > pos {
                assert(!(cmds[pos] is End));
            }
        }
    }
}

/// A frame decodes exactly when the commands up to its first `End` advance
/// the running offset from 0 to the frame size: a decoded frame ends at an
/// `End` reached at offset `width * height`, and a stream whose first `End`
/// comes at any other offset is refused.
pub proof fn lemma_frame_fills_exactly(cmds: Seq<Command>, start: int, width: int, height: int)
    requires
        0 <= start,
    ensures
        frame_from(cmds, start, width, height) matches Ok((_, next)) ==> start < next <= cmds.len() && cmds[next
            - 1] is End && (forall|k: int| start <= k < next - 1 ==> !(cmds[k] is End)) && advance(
            cmds,
            start,
            next - 1,
        ) == width * height,
        forall|e: int|
            start <= e < cmds.len() && cmds[e] is End && (forall|k: int| start <= k < e ==> !(cmds[k] is End))
                && advance(cmds, start, e) != width * height ==> frame_from(cmds, start, width, height) is Err,
{
    lemma_replay_exact(cmds, start, 0, blank(width * height), width * height);
}

} // verus!
