use voxel_scene::grid::{Fraction, Point2, WaveVoxel, WaveVoxelAnimation};
use voxel_scene::wave::{sine_angles, WaveState, FULL_TURN};

fn voxel(animation: WaveVoxelAnimation, u: (i128, u128), v: (i128, u128)) -> WaveVoxel {
    WaveVoxel {
        animation,
        grid_position_2d: Point2 {
            x: Fraction { num: u.0, den: u.1 },
            y: Fraction { num: v.0, den: v.1 },
        },
    }
}

#[test]
fn phase_starts_at_rest() {
    assert_eq!(WaveState::new().phase, 0);
}

#[test]
fn phase_after_n_frames_is_wrapped_product() {
    for (step, frames) in [(0u64, 10u64), (7, 5), (1 << 30, 3), (1 << 30, 9), (FULL_TURN - 1, 4), (u64::MAX, 3)] {
        let mut s = WaveState::new();
        let mut last = 0u64;
        for n in 1..=frames {
            s.advance(step);
            let expected = ((n as u128 * step as u128) % FULL_TURN as u128) as u64;
            assert_eq!(s.phase, expected);
            if (n as u128) * (step as u128) < FULL_TURN as u128 {
                assert!(s.phase >= last);
            }
            last = s.phase;
        }
    }
}

#[test]
fn ripple_lies_flat_at_rest() {
    let s = WaveState::new();
    for (u, v) in [((0, 1), (0, 1)), ((3, 7), (5, 9)), ((1, 1), (1, 1))] {
        let a = sine_angles(&s, 0, &voxel(WaveVoxelAnimation::Ripple, u, v));
        assert_eq!(a, vec![0]);
        assert_eq!((a[0] as f64).sin(), 0.0);
    }
}

#[test]
fn ripple_and_wave_angles() {
    let mut s = WaveState::new();
    s.advance(100);
    let ripple = sine_angles(&s, 10, &voxel(WaveVoxelAnimation::Ripple, (1, 2), (1, 3)));
    // 10 * (1/2 + 1/3) = 8.33..., rounded down
    assert_eq!(ripple, vec![108]);
    let wave = sine_angles(&s, 10, &voxel(WaveVoxelAnimation::Wave, (1, 2), (1, 3)));
    assert_eq!(wave, vec![105, 103]);
}

#[test]
fn angles_wrap_into_one_turn() {
    let mut s = WaveState::new();
    s.advance(FULL_TURN - 5);
    let wave = sine_angles(&s, 20, &voxel(WaveVoxelAnimation::Wave, (1, 1), (0, 1)));
    assert_eq!(wave, vec![15, FULL_TURN - 5]);
}
