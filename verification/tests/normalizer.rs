use audio_capture::normalizer::{
    output_sample_rate_hz, plan_interleaved_input_chunk, AudioStreamNormalizer,
    InterpolationPoint, INTERPOLATION_SCALE,
};

/// Evaluates a schedule on the chunk's mono samples, the way the capture
/// callback does: the newer sample weighted by `weight / 16000`, the older one
/// (previous frame, or the last one of the previous chunk) by the rest; the
/// stream's very first sample is taken as it is.
fn evaluate(points: &[InterpolationPoint], mono: &[f32], previous: &mut Option<f32>) -> Vec<f32> {
    let mut out = Vec::new();
    for p in points {
        let current = mono[p.frame];
        let older = if p.frame == 0 { *previous } else { Some(mono[p.frame - 1]) };
        match older {
            None => out.push(current),
            Some(older) => {
                let position = p.weight as f32 / INTERPOLATION_SCALE as f32;
                out.push(older + (current - older) * position);
            }
        }
    }
    if let Some(last) = mono.last() {
        *previous = Some(*last);
    }
    out
}

fn mono_of(interleaved: &[f32], channels: usize) -> Vec<f32> {
    interleaved
        .chunks_exact(channels)
        .map(|frame| frame.iter().sum::<f32>() / channels as f32)
        .collect()
}

fn assert_samples_are_close(actual: &[f32], expected: &[f32], tolerance: f32) {
    assert_eq!(actual.len(), expected.len());
    for (a, e) in actual.iter().zip(expected.iter()) {
        assert!((a - e).abs() <= tolerance, "actual={a}, expected={e}");
    }
}

fn point(frame: usize, weight: u32) -> InterpolationPoint {
    InterpolationPoint { frame, weight }
}

#[test]
fn passthrough_16khz_mono_keeps_data_stable() {
    let mut normalizer = AudioStreamNormalizer::new(1, 16_000);
    let mut previous = None;
    let first_input = [0.0_f32, 0.5_f32];
    let second_input = [-0.25_f32, 1.0_f32];
    let first_plan = plan_interleaved_input_chunk(first_input.len(), &mut normalizer);
    let first_chunk = evaluate(&first_plan, &mono_of(&first_input, 1), &mut previous);
    let second_plan = plan_interleaved_input_chunk(second_input.len(), &mut normalizer);
    let second_chunk = evaluate(&second_plan, &mono_of(&second_input, 1), &mut previous);

    let mut combined = first_chunk;
    combined.extend(second_chunk);

    assert_samples_are_close(&combined, &[0.0, 0.5, -0.25, 1.0], 1e-6);
}

#[test]
fn downmixes_stereo_to_mono() {
    let mut normalizer = AudioStreamNormalizer::new(2, 16_000);
    let input = [1.0_f32, -1.0_f32, 0.25_f32, 0.75_f32];
    let plan = plan_interleaved_input_chunk(input.len(), &mut normalizer);
    let output = evaluate(&plan, &mono_of(&input, 2), &mut None);

    assert_samples_are_close(&output, &[0.0, 0.5], 1e-6);
}

#[test]
fn downsamples_48khz_to_16khz() {
    let mut normalizer = AudioStreamNormalizer::new(1, 48_000);
    let input = [0.0_f32, 0.25_f32, 0.5_f32, 0.75_f32, 1.0_f32, 0.5_f32];
    let plan = plan_interleaved_input_chunk(input.len(), &mut normalizer);
    let output = evaluate(&plan, &mono_of(&input, 1), &mut None);
    assert_eq!(output.len(), 2);
    assert_samples_are_close(&output, &[0.0, 0.75], 1e-5);
}

#[test]
fn output_rate_is_16khz() {
    assert_eq!(output_sample_rate_hz(), 16_000);
}

#[test]
fn normalizer_reports_its_configuration() {
    let normalizer = AudioStreamNormalizer::new(2, 44_100);
    assert_eq!(normalizer.input_channel_count(), 2);
    assert_eq!(normalizer.input_sample_rate_hz(), 44_100);
    assert_eq!(normalizer.channel_divisor(), 2);
    let wide = AudioStreamNormalizer::new(70_000, 8_000);
    assert_eq!(wide.channel_divisor(), u16::MAX);
}

#[test]
fn schedule_at_48khz_keeps_every_third_input() {
    let mut normalizer = AudioStreamNormalizer::new(1, 48_000);
    let plan = plan_interleaved_input_chunk(7, &mut normalizer);
    assert_eq!(plan, vec![point(0, 16_000), point(3, 16_000), point(6, 16_000)]);
}

#[test]
fn schedule_at_16khz_passes_every_input() {
    let mut normalizer = AudioStreamNormalizer::new(1, 16_000);
    let plan = plan_interleaved_input_chunk(4, &mut normalizer);
    assert_eq!(
        plan,
        vec![point(0, 16_000), point(1, 16_000), point(2, 16_000), point(3, 16_000)]
    );
}

#[test]
fn schedule_at_8khz_interpolates_midpoints() {
    let mut normalizer = AudioStreamNormalizer::new(1, 8_000);
    let plan = plan_interleaved_input_chunk(3, &mut normalizer);
    assert_eq!(
        plan,
        vec![
            point(0, 16_000),
            point(1, 8_000),
            point(1, 16_000),
            point(2, 8_000),
            point(2, 16_000)
        ]
    );
}

#[test]
fn schedule_at_44_1khz_weights() {
    // Output k is due at time k * 44100; input j arrives at j * 16000.
    let mut normalizer = AudioStreamNormalizer::new(1, 44_100);
    let plan = plan_interleaved_input_chunk(12, &mut normalizer);
    // k = 1: 44100 -> input 3 (48000), weight 44100 - 32000 = 12100
    // k = 2: 88200 -> input 6 (96000), weight 88200 - 80000 = 8200
    // k = 3: 132300 -> input 9 (144000), weight 132300 - 128000 = 4300
    assert_eq!(
        plan,
        vec![point(0, 16_000), point(3, 12_100), point(6, 8_200), point(9, 4_300)]
    );
}

#[test]
fn schedule_is_the_same_in_chunks() {
    let mut whole = AudioStreamNormalizer::new(1, 44_100);
    let plan_whole = plan_interleaved_input_chunk(12, &mut whole);
    let mut parts = AudioStreamNormalizer::new(1, 44_100);
    let first = plan_interleaved_input_chunk(5, &mut parts);
    let second = plan_interleaved_input_chunk(7, &mut parts);
    let mut joined = first.clone();
    joined.extend(second.iter().map(|p| point(p.frame + 5, p.weight)));
    assert_eq!(joined, plan_whole);
    assert_eq!(second, vec![point(1, 8_200), point(4, 4_300)]);
}

#[test]
fn trailing_partial_frame_is_ignored() {
    let mut normalizer = AudioStreamNormalizer::new(2, 16_000);
    let plan = plan_interleaved_input_chunk(5, &mut normalizer);
    assert_eq!(plan, vec![point(0, 16_000), point(1, 16_000)]);
    let next = plan_interleaved_input_chunk(2, &mut normalizer);
    assert_eq!(next, vec![point(0, 16_000)]);
}

#[test]
fn empty_chunk_schedules_nothing() {
    let mut normalizer = AudioStreamNormalizer::new(2, 48_000);
    assert!(plan_interleaved_input_chunk(0, &mut normalizer).is_empty());
    assert!(plan_interleaved_input_chunk(1, &mut normalizer).is_empty());
    assert_eq!(plan_interleaved_input_chunk(2, &mut normalizer), vec![point(0, 16_000)]);
}

#[test]
fn push_mono_sample_only_appends() {
    let mut normalizer = AudioStreamNormalizer::new(1, 8_000);
    let mut out = vec![point(9, 1)];
    normalizer.push_mono_sample(0, &mut out);
    assert_eq!(out, vec![point(9, 1), point(0, 16_000)]);
    normalizer.push_mono_sample(1, &mut out);
    assert_eq!(out, vec![point(9, 1), point(0, 16_000), point(1, 8_000), point(1, 16_000)]);
}
