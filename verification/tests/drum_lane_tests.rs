use forma::drum_lanes::{
    apply_euclid_lanes, clear_pattern, DrumSteps, cleared_pattern, copy_pattern, lane_seed, paste_pattern, random_lane,
    reverse_lane, reverse_lane_with_velocities, DrumPattern,
};
use forma::seq_clock::lcg_next;

#[test]
fn reversing_a_lane_moves_steps_and_velocities_together() {
    let mut steps = [false; 16];
    steps[0] = true;
    steps[3] = true;
    let mut vels = [0u8; 16];
    for (i, v) in vels.iter_mut().enumerate() {
        *v = i as u8 * 5;
    }
    reverse_lane_with_velocities(&mut steps, &mut vels);
    assert!(steps[15] && steps[12]);
    assert_eq!(steps.iter().filter(|&&b| b).count(), 2);
    assert_eq!(vels[0], 75);
    assert_eq!(vels[15], 0);
    let mut lane = [1u8, 2, 3, 4, 5, 6, 7, 8, 9, 10, 11, 12, 13, 14, 15, 16];
    let orig = lane;
    reverse_lane(&mut lane);
    reverse_lane(&mut lane);
    assert_eq!(lane, orig);
}

#[test]
fn random_lane_follows_the_generator() {
    let seed = 12345u32;
    let lane = random_lane(seed);
    let mut rng = seed;
    for step in 0..16 {
        rng = lcg_next(rng);
        assert_eq!(lane[step], (rng >> 31) != 0);
    }
    // 1013904223 has its top bit clear: from seed 0 the first step is off.
    assert!(!random_lane(0)[0]);
    assert_eq!(random_lane(7), random_lane(7));
}

#[test]
fn lane_seeds_wrap() {
    assert_eq!(lane_seed(100, 0), 100);
    assert_eq!(lane_seed(0, 1), 2891336453);
    assert_eq!(lane_seed(0, 2), 2891336453u32.wrapping_mul(2));
    assert_eq!(lane_seed(u32::MAX, 1), 2891336452);
}

#[test]
fn copy_paste_and_clear() {
    let mut patterns: [DrumPattern; 4] = [[[false; 16]; 8]; 4];
    patterns[0][0][0] = true;
    patterns[0][1][4] = true;
    let clip = copy_pattern(&patterns, 0);
    assert_eq!(clip, Some(patterns[0]));
    paste_pattern(&mut patterns, 2, clip);
    assert_eq!(patterns[2], patterns[0]);
    paste_pattern(&mut patterns, 3, None);
    assert_eq!(patterns[3], [[false; 16]; 8]);
    clear_pattern(&mut patterns, 0);
    assert_eq!(patterns[0], cleared_pattern());
    assert!(patterns[2][0][0]);
}

#[test]
fn euclid_lanes_regenerate_only_enabled_lanes() {
    let mut p: DrumPattern = [[true; 16]; 8];
    let mut on = [false; 8];
    on[1] = true;
    let hits = [4u8; 8];
    let steps = [16u8; 8];
    let offset = [0u8; 8];
    apply_euclid_lanes(&mut p, &on, &hits, &steps, &offset);
    assert_eq!(p[0], [true; 16]);
    assert_eq!(p[1], forma::sequencer::euclidean_pattern(4, 16, 0));
    assert_eq!(p[1].iter().filter(|&&b| b).count(), 4);
}

#[test]
fn kit_steps_copy_exactly() {
    let mut patterns: [DrumPattern; 4] = [[[false; 16]; 8]; 4];
    patterns[1][2][3] = true;
    let vels = [[[7u8; 16]; 8]; 4];
    let kit = DrumSteps::capture(&patterns, &vels);
    let mut p2: [DrumPattern; 4] = [[[true; 16]; 8]; 4];
    let mut v2 = [[[0u8; 16]; 8]; 4];
    let mut active = 3usize;
    kit.apply_to(&mut p2, &mut v2, &mut active);
    assert_eq!(p2, patterns);
    assert_eq!(v2, vels);
    assert_eq!(active, 0);
}
