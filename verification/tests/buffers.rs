use knob::resampler::{deinterleave_stereo, drain_fifo, push_interleaved};
use knob::router::{write_channel, write_interleaved_stereo};
use std::collections::VecDeque;

#[test]
fn deinterleave_splits_frames() {
    let src = [1, 2, 3, 4, 5, 6, 7, 8];
    let mut l = [0; 5];
    let mut r = [0; 5];
    deinterleave_stereo(&src, 3, &mut l, &mut r);
    assert_eq!(l, [1, 3, 5, 0, 0]);
    assert_eq!(r, [2, 4, 6, 0, 0]);
}

#[test]
fn push_then_drain_roundtrip() {
    let mut fifo: VecDeque<i32> = VecDeque::new();
    push_interleaved(&[1, 3, 5, 9], &[2, 4, 6, 9], 3, &mut fifo);
    assert_eq!(fifo, VecDeque::from(vec![1, 2, 3, 4, 5, 6]));
    let mut out = [7; 4];
    drain_fifo(&mut fifo, &mut out, 0);
    assert_eq!(out, [1, 2, 3, 4]);
    assert_eq!(fifo, VecDeque::from(vec![5, 6]));
    let mut out2 = [7; 4];
    drain_fifo(&mut fifo, &mut out2, 0);
    assert_eq!(out2, [5, 6, 0, 0]);
    assert!(fifo.is_empty());
}

#[test]
fn drain_with_float_silence() {
    let mut fifo: VecDeque<f32> = VecDeque::from(vec![0.5]);
    let mut out = [1.0f32; 3];
    drain_fifo(&mut fifo, &mut out, 0.0);
    assert_eq!(out, [0.5, 0.0, 0.0]);
}

#[test]
fn interleaved_output_uses_first_two_channels() {
    let mix = [1, 2, 3, 4];
    let mut dst = [-1; 9];
    write_interleaved_stereo(&mix, 2, &mut dst, 4);
    assert_eq!(dst, [1, 2, -1, -1, 3, 4, -1, -1, -1]);
}

#[test]
fn planar_output_per_channel() {
    let mix = [1, 2, 3, 4, 5, 6];
    let mut left = [0; 4];
    let mut right = [0; 4];
    write_channel(&mix, 3, 0, &mut left);
    write_channel(&mix, 3, 1, &mut right);
    assert_eq!(left, [1, 3, 5, 0]);
    assert_eq!(right, [2, 4, 6, 0]);
}
