//! Buffer arithmetic of the output callback that writes the mix to the loopback device.
use vstd::prelude::*;

verus! {

/// `kAudioFormatFlagIsNonInterleaved`: the stream keeps one buffer per channel.
pub const FORMAT_FLAG_NON_INTERLEAVED: u32 = 1 << 5;

/// Bytes per sample of the device's streams (32-bit float).
pub const DEVICE_SAMPLE_BYTES: u64 = 4;

/// The stream with these format flags carries its channels interleaved in one buffer.
pub fn is_interleaved_format(format_flags: u32) -> (r: bool)
    ensures
        r == (format_flags & FORMAT_FLAG_NON_INTERLEAVED == 0),
{
    format_flags & FORMAT_FLAG_NON_INTERLEAVED == 0
}

/// Bytes one frame occupies in the first output buffer: every channel's
/// sample when interleaved, one sample otherwise.
pub open spec fn spec_bytes_per_frame(interleaved: bool, channels: u32) -> int {
    if interleaved {
        channels * DEVICE_SAMPLE_BYTES
    } else {
        DEVICE_SAMPLE_BYTES as int
    }
}

/// Frames the device asks for in this cycle, from the layout of its first
/// output buffer; none when a frame would take no bytes.
pub open spec fn spec_output_frame_count(interleaved: bool, channels: u32, byte_size: u32) -> int {
    let bpf = spec_bytes_per_frame(interleaved, channels);
    if bpf > 0 {
        (byte_size as int) / bpf
    } else {
        0
    }
}

/// `frames` whole frames fit a buffer of `byte_size` bytes and one more
/// would not, each frame taking every channel's four-byte sample when
/// interleaved and one sample otherwise; no frame fits when frames take no
/// bytes.
pub open spec fn frames_fill_buffer(interleaved: bool, channels: u32, byte_size: u32, frames: int) -> bool {
    let per_frame: int = if interleaved { 4 * channels } else { 4 };
    if per_frame > 0 {
        frames * per_frame <= byte_size < (frames + 1) * per_frame
    } else {
        frames == 0
    }
}

/// The frame count is the number of whole frames the device's buffer holds,
/// with no other cap.
pub proof fn law_frame_count_fills_buffer(interleaved: bool, channels: u32, byte_size: u32)
    ensures
        frames_fill_buffer(
            interleaved,
            channels,
            byte_size,
            spec_output_frame_count(interleaved, channels, byte_size),
        ),
        spec_output_frame_count(interleaved, channels, byte_size) >= 0,
{
    let per_frame: int = if interleaved { 4 * channels } else { 4 };
    let bpf = spec_bytes_per_frame(interleaved, channels);
    assert(bpf == per_frame);
    if per_frame > 0 {
        let q = (byte_size as int) / per_frame;
        assert(q * per_frame <= byte_size < (q + 1) * per_frame && q >= 0) by (nonlinear_arith)
            requires
                per_frame > 0,
                q == (byte_size as int) / per_frame,
                byte_size >= 0,
        {
        }
    }
}

/// Frames the device asks for in this cycle.
pub fn output_frame_count(interleaved: bool, channels: u32, byte_size: u32) -> (r: usize)
    ensures
        r == spec_output_frame_count(interleaved, channels, byte_size),
        frames_fill_buffer(interleaved, channels, byte_size, r as int),
{
    proof {
        law_frame_count_fills_buffer(interleaved, channels, byte_size);
    }
    let bpf: u64 = if interleaved {
        (channels as u64) * DEVICE_SAMPLE_BYTES
    } else {
        DEVICE_SAMPLE_BYTES
    };
    if bpf > 0 {
        let n: u64 = (byte_size as u64) / bpf;
        assert(n <= byte_size) by (nonlinear_arith)
            requires
                n == (byte_size as u64) / bpf,
                bpf > 0,
        {
        }
        n as usize
    } else {
        0
    }
}

/// Distinct frames occupy distinct positions of an interleaved buffer.
pub proof fn lemma_frame_positions_distinct(k: int, r: int, i: int, q: int, ch: int)
    requires
        ch > 0,
        0 <= r < ch,
        0 <= q < ch,
        0 <= k,
        0 <= i,
        k != i || r != q,
    ensures
        k * ch + r != i * ch + q,
{
    if k != i {
        assert(k * ch + r != i * ch + q) by (nonlinear_arith)
            requires
                k != i,
                ch > 0,
                0 <= r < ch,
                0 <= q < ch,
        {
            if k < i {
                assert(k * ch + ch <= i * ch);
            } else {
                assert(i * ch + ch <= k * ch);
            }
        }
    }
}

/// Every position of the first `frames` frames lies inside them.
pub proof fn lemma_frame_position_in_bounds(k: int, r: int, frames: int, ch: int)
    requires
        0 <= k < frames,
        0 <= r < ch,
    ensures
        0 <= k * ch + r < frames * ch,
{
    assert(0 <= k * ch + r < frames * ch) by (nonlinear_arith)
        requires
            0 <= k < frames,
            0 <= r < ch,
    {
        assert(k * ch + ch <= frames * ch);
    }
}

/// Writes the first `frames` frames of the stereo mix to channels 1 and 2 of
/// an interleaved device buffer with `channels` channels per frame; the
/// other channels and the rest of the buffer keep their values.
pub fn write_interleaved_stereo<T: Copy>(mix: &[T], frames: usize, dst: &mut [T], channels: usize)
    requires
        channels >= 2,
        2 * frames <= mix@.len(),
        frames * channels <= old(dst)@.len(),
    ensures
        final(dst)@.len() == old(dst)@.len(),
        forall|k: int| 0 <= k < frames ==> #[trigger] final(dst)@[k * channels] == mix@[2 * k],
        forall|k: int|
            0 <= k < frames ==> #[trigger] final(dst)@[k * channels + 1] == mix@[2 * k + 1],
        forall|k: int, r: int|
            0 <= k < frames && 2 <= r < channels ==> #[trigger] final(dst)@[k * channels + r]
                == old(dst)@[k * channels + r],
        forall|j: int|
            frames * channels <= j < old(dst)@.len() ==> #[trigger] final(dst)@[j] == old(dst)@[j],
{
    let n = mix.len();
    let dlen = dst.len();
    let mut i: usize = 0;
    while i < frames
        invariant
            i <= frames,
            channels >= 2,
            dlen == dst@.len(),
            n == mix@.len(),
            2 * frames <= mix@.len(),
            frames * channels <= old(dst)@.len(),
            dst@.len() == old(dst)@.len(),
            forall|k: int| 0 <= k < i ==> #[trigger] dst@[k * channels] == mix@[2 * k],
            forall|k: int| 0 <= k < i ==> #[trigger] dst@[k * channels + 1] == mix@[2 * k + 1],
            forall|k: int, r: int|
                0 <= k < frames && 2 <= r < channels ==> #[trigger] dst@[k * channels + r]
                    == old(dst)@[k * channels + r],
            forall|k: int, r: int|
                i <= k < frames && 0 <= r < 2 ==> #[trigger] dst@[k * channels + r]
                    == old(dst)@[k * channels + r],
            forall|j: int| frames * channels <= j < dst@.len() ==> #[trigger] dst@[j] == old(dst)@[j],
        decreases frames - i,
    {
        assert((i as int) * (channels as int) + channels <= (frames as int) * (channels as int))
            by (nonlinear_arith)
            requires
                i < frames,
                channels >= 2,
        {
        }
        let base = i * channels;
        let ghost prev = dst@;
        dst[base] = mix[2 * i];
        dst[base + 1] = mix[2 * i + 1];
        proof {
            let ch = channels as int;
            assert(base == (i as int) * ch);
            assert(dst@[(i as int) * ch] == mix@[2 * i]);
            assert(dst@[(i as int) * ch + 1] == mix@[2 * i + 1]);
            assert forall|k: int| 0 <= k < i + 1 implies #[trigger] dst@[k * ch] == mix@[2 * k] by {
                if k < i {
                    lemma_frame_positions_distinct(k, 0, i as int, 0, ch);
                    lemma_frame_positions_distinct(k, 0, i as int, 1, ch);
                    lemma_frame_position_in_bounds(k, 0, frames as int, ch);
                    assert(prev[k * ch] == mix@[2 * k]);
                }
            }
            assert forall|k: int| 0 <= k < i + 1 implies #[trigger] dst@[k * ch + 1] == mix@[2 * k
                + 1] by {
                if k < i {
                    lemma_frame_positions_distinct(k, 1, i as int, 0, ch);
                    lemma_frame_positions_distinct(k, 1, i as int, 1, ch);
                    lemma_frame_position_in_bounds(k, 1, frames as int, ch);
                    assert(prev[k * ch + 1] == mix@[2 * k + 1]);
                }
            }
            assert forall|k: int, r: int|
                0 <= k < frames && 2 <= r < ch implies #[trigger] dst@[k * ch + r] == old(
                dst,
            )@[k * ch + r] by {
                lemma_frame_positions_distinct(k, r, i as int, 0, ch);
                lemma_frame_positions_distinct(k, r, i as int, 1, ch);
                lemma_frame_position_in_bounds(k, r, frames as int, ch);
                assert(prev[k * ch + r] == old(dst)@[k * ch + r]);
            }
            assert forall|k: int, r: int|
                i + 1 <= k < frames && 0 <= r < 2 implies #[trigger] dst@[k * ch + r] == old(
                dst,
            )@[k * ch + r] by {
                lemma_frame_positions_distinct(k, r, i as int, 0, ch);
                lemma_frame_positions_distinct(k, r, i as int, 1, ch);
                lemma_frame_position_in_bounds(k, r, frames as int, ch);
                assert(prev[k * ch + r] == old(dst)@[k * ch + r]);
            }
        }
        i = i + 1;
    }
}

/// Writes channel `channel` (0 left, 1 right) of the first `frames` frames of
/// the stereo mix to a device buffer that holds that channel alone.
pub fn write_channel<T: Copy>(mix: &[T], frames: usize, channel: usize, dst: &mut [T])
    requires
        channel < 2,
        2 * frames <= mix@.len(),
        frames <= old(dst)@.len(),
    ensures
        final(dst)@.len() == old(dst)@.len(),
        forall|k: int| 0 <= k < frames ==> #[trigger] final(dst)@[k] == mix@[2 * k + channel],
        forall|k: int| frames <= k < old(dst)@.len() ==> #[trigger] final(dst)@[k] == old(dst)@[k],
{
    let n = mix.len();
    let mut i: usize = 0;
    while i < frames
        invariant
            i <= frames,
            channel < 2,
            n == mix@.len(),
            2 * frames <= mix@.len(),
            frames <= old(dst)@.len(),
            dst@.len() == old(dst)@.len(),
            forall|k: int| 0 <= k < i ==> #[trigger] dst@[k] == mix@[2 * k + channel],
            forall|k: int| i <= k < dst@.len() ==> #[trigger] dst@[k] == old(dst)@[k],
        decreases frames - i,
    {
        dst[i] = mix[2 * i + channel];
        i = i + 1;
    }
}

} // verus!
