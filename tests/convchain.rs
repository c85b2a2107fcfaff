use convchain::chain::{ConvChain, SampleError};
use convchain::field::{generate_base_field, Field};
use convchain::pattern::{index, orientations, reflect, rotate, sample_pattern};
use convchain::sampler::{accept_by_draw, accept_by_ratio, flip_factors, wrap_offset};
use convchain::weights::{process_weights, table_size};

fn bits(values: &[f32]) -> Vec<u32> {
    values.iter().map(|v| v.to_bits()).collect()
}

#[test]
fn index_puts_first_cell_in_highest_bit() {
    assert_eq!(index(&vec![true, false, false, false]), 8);
    assert_eq!(index(&vec![false, false, false, true]), 1);
    assert_eq!(index(&vec![true, true, false, true]), 13);
    assert_eq!(index(&vec![]), 0);
}

#[test]
fn rotate_takes_cell_from_turned_position() {
    assert_eq!(rotate(&vec![true, false, false, false], 2), vec![false, false, true, false]);
    let p = vec![true, true, false, false, false, false, false, false, false];
    assert_eq!(rotate(&p, 3), vec![false, false, false, true, false, false, true, false, false]);
}

#[test]
fn reflect_mirrors_each_row() {
    assert_eq!(reflect(&vec![true, false, false, false], 2), vec![false, true, false, false]);
    assert_eq!(reflect(&vec![true, true, false, false], 2), vec![true, true, false, false]);
}

#[test]
fn orientations_of_a_corner_visit_every_corner() {
    let o = orientations(vec![true, false, false, false], 2);
    assert_eq!(o.len(), 8);
    let codes: Vec<usize> = o.iter().map(|p| index(p)).collect();
    assert_eq!(codes, vec![8, 2, 1, 4, 4, 1, 2, 8]);
}

#[test]
fn sample_pattern_wraps_around() {
    let sample = vec![true, false, false, false];
    assert_eq!(sample_pattern(&sample, 2, 2, 2, 1, 1), vec![false, false, false, true]);
    assert_eq!(sample_pattern(&sample, 2, 2, 2, 0, 0), vec![true, false, false, false]);
}

#[test]
fn table_size_is_two_to_the_cells() {
    assert_eq!(table_size(1), 2);
    assert_eq!(table_size(2), 16);
    assert_eq!(table_size(3), 512);
}

#[test]
fn weights_of_uniform_sample() {
    let w = process_weights(&vec![true; 4], 2, 2, 2);
    assert_eq!(w.len(), 16);
    for (p, v) in w.iter().enumerate() {
        if p == 15 {
            assert_eq!(*v, 320);
        } else {
            assert_eq!(*v, 1);
        }
    }
}

#[test]
fn weights_of_single_cell() {
    assert_eq!(process_weights(&vec![true], 1, 1, 1), vec![1, 80]);
    assert_eq!(process_weights(&vec![false], 1, 1, 1), vec![80, 1]);
}

#[test]
fn weights_of_checkerboard() {
    let w = process_weights(&vec![true, false, false, true], 2, 2, 2);
    for (p, v) in w.iter().enumerate() {
        if p == 6 || p == 9 {
            assert_eq!(*v, 160);
        } else {
            assert_eq!(*v, 1);
        }
    }
}

#[test]
fn weights_are_positive_for_every_size() {
    let sample = vec![true, false, true, true, false, false];
    for n in 1..=4u8 {
        let w = process_weights(&sample, 3, 2, n);
        assert_eq!(w.len(), 1usize << (n * n));
        assert!(w.iter().all(|v| *v > 0));
    }
}

#[test]
fn weights_of_empty_sample_are_all_unseen() {
    assert_eq!(process_weights(&vec![], 0, 3, 1), vec![1, 1]);
}

#[test]
fn weights_are_deterministic() {
    let sample = vec![true, false, true, true, false, false, true, true, true];
    assert_eq!(process_weights(&sample, 3, 3, 3), process_weights(&sample, 3, 3, 3));
}

#[test]
fn cache_is_reused_for_same_size() {
    let mut cc = ConvChain::new(2, 2, vec![true; 4]).unwrap();
    assert!(!cc.is_cached(2));
    let first = cc.get_weights(2).clone();
    assert!(cc.is_cached(2));
    let second = cc.get_weights(2).clone();
    assert_eq!(first, second);
    assert!(cc.is_cached(2));
}

#[test]
fn cache_holds_one_size() {
    let mut cc = ConvChain::new(2, 2, vec![true; 4]).unwrap();
    cc.get_weights(2);
    assert_eq!(cc.get_weights(1).clone(), vec![1, 320]);
    assert!(cc.is_cached(1));
    assert!(!cc.is_cached(2));
}

#[test]
fn replacing_sample_invalidates_cache() {
    let mut cc = ConvChain::new(1, 1, vec![true]).unwrap();
    assert_eq!(cc.get_weights(1).clone(), vec![1, 80]);
    assert_eq!(cc.set_sample(1, 1, vec![false]), Ok(()));
    assert!(!cc.is_cached(1));
    assert_eq!(cc.get_weights(1).clone(), vec![80, 1]);
}

#[test]
fn mismatched_sample_is_refused() {
    assert_eq!(
        ConvChain::new(2, 2, vec![true; 3]).err(),
        Some(SampleError::LengthMismatch { expected: 4, actual: 3 })
    );
    let mut cc = ConvChain::new(1, 1, vec![true]).unwrap();
    cc.get_weights(1);
    assert_eq!(
        cc.set_sample(3, 2, vec![false; 5]),
        Err(SampleError::LengthMismatch { expected: 6, actual: 5 })
    );
    assert_eq!(cc.sample, vec![true]);
    assert_eq!((cc.sample_width, cc.sample_height), (1, 1));
    assert!(cc.is_cached(1));
}

#[test]
fn base_field_sets_cells_above_one_half() {
    let f = generate_base_field(2, 2, &bits(&[0.2, 0.7, 0.5, 0.9]));
    assert_eq!((f.width, f.height), (2, 2));
    assert_eq!(f.data, vec![false, true, false, true]);
}

#[test]
fn base_field_edges_of_unit_interval() {
    let f = generate_base_field(3, 1, &bits(&[0.0, 0.99999994, 0.50000006]));
    assert_eq!(f.data, vec![false, true, true]);
}

#[test]
fn flip_inverts_one_cell() {
    let mut f = Field { width: 2, height: 1, data: vec![false, true] };
    f.flip(1);
    assert_eq!(f.data, vec![false, false]);
}

#[test]
fn wrap_offset_wraps_both_ways() {
    assert_eq!(wrap_offset(0, 5, 0, 2), 3);
    assert_eq!(wrap_offset(4, 5, 3, 0), 2);
    assert_eq!(wrap_offset(1, 2, 7, 4), 0);
    assert_eq!(wrap_offset(usize::MAX - 1, usize::MAX, 2, 0), 1);
}

#[test]
fn factors_of_single_cell_windows() {
    let f = Field { width: 2, height: 2, data: vec![false; 4] };
    let w = process_weights(&vec![true], 1, 1, 1);
    assert_eq!(flip_factors(&f, &w, 1, 3), vec![(80, 1)]);
}

#[test]
fn factors_cover_every_overlapping_window() {
    let f = Field { width: 2, height: 2, data: vec![false; 4] };
    let w = process_weights(&vec![true; 4], 2, 2, 2);
    assert_eq!(flip_factors(&f, &w, 2, 0), vec![(1, 1); 9]);
    let g = Field { width: 2, height: 2, data: vec![true, true, true, false] };
    assert_eq!(flip_factors(&g, &w, 2, 3), vec![(320, 1); 9]);
}

#[test]
fn factors_on_larger_field() {
    let f = Field { width: 3, height: 3, data: vec![false, false, false, false, true, false, false, false, false] };
    let w = process_weights(&vec![false], 1, 1, 1);
    assert_eq!(flip_factors(&f, &w, 1, 4), vec![(80, 1)]);
    assert_eq!(flip_factors(&f, &w, 1, 0), vec![(1, 80)]);
    let w2 = process_weights(&vec![false; 9], 3, 3, 2);
    let r = flip_factors(&f, &w2, 2, 0);
    assert_eq!(r.len(), 9);
    assert_eq!(r[0], (1, 720));
    assert_eq!(r[4], (1, 1));
}

#[test]
fn ratio_of_one_flips_without_draw() {
    let mut f = Field { width: 2, height: 2, data: vec![false; 4] };
    assert!(accept_by_ratio(&mut f, 2, 1.0f32.to_bits()));
    assert_eq!(f.data, vec![false, false, true, false]);
    assert!(accept_by_ratio(&mut f, 2, f32::INFINITY.to_bits()));
    assert_eq!(f.data, vec![false; 4]);
}

#[test]
fn ratio_below_one_waits_for_draw() {
    let mut f = Field { width: 2, height: 2, data: vec![false; 4] };
    assert!(!accept_by_ratio(&mut f, 0, 0.99999994f32.to_bits()));
    assert!(!accept_by_ratio(&mut f, 0, f32::NAN.to_bits()));
    assert!(!accept_by_ratio(&mut f, 0, (-2.0f32).to_bits()));
    assert_eq!(f.data, vec![false; 4]);
}

#[test]
fn draw_decides_below_one() {
    let mut f = Field { width: 2, height: 1, data: vec![false, false] };
    assert!(accept_by_draw(&mut f, 0, 0.5f32.to_bits(), 0.25f32.to_bits()));
    assert_eq!(f.data, vec![true, false]);
    assert!(!accept_by_draw(&mut f, 0, 0.5f32.to_bits(), 0.5f32.to_bits()));
    assert!(!accept_by_draw(&mut f, 0, 0.0f32.to_bits(), 0.0f32.to_bits()));
    assert!(!accept_by_draw(&mut f, 0, f32::NAN.to_bits(), 0.1f32.to_bits()));
    assert_eq!(f.data, vec![true, false]);
}

#[test]
fn unit_ratio_from_table_flips_at_once() {
    let mut f = Field { width: 2, height: 2, data: vec![false; 4] };
    let w = process_weights(&vec![true; 4], 2, 2, 2);
    let mut q: f32 = 1.0;
    for (after, now) in flip_factors(&f, &w, 2, 1) {
        q *= (after as f32 / 10.0) / (now as f32 / 10.0);
    }
    assert_eq!(q, 1.0);
    assert!(accept_by_ratio(&mut f, 1, q.to_bits()));
    assert_eq!(f.data, vec![false, true, false, false]);
}

fn synthesize(seed: u32) -> Vec<bool> {
    let state = std::cell::Cell::new(seed);
    let rng = || {
        let s = state.get().wrapping_mul(1664525).wrapping_add(1013904223);
        state.set(s);
        (s >> 8) as f32 / 16777216.0
    };
    let sample = vec![true, true, true, false, false, true, true, false, false];
    let mut cc = ConvChain::new(3, 3, sample).unwrap();
    let draws: Vec<u32> = (0..64).map(|_| rng().to_bits()).collect();
    let mut field = generate_base_field(8, 8, &draws);
    let weights = cc.get_weights(2).clone();
    let temperature: f32 = 0.5;
    for _ in 0..500 {
        let cell = (rng() * 64.0) as usize;
        let mut q: f32 = 1.0;
        for (after, now) in flip_factors(&field, &weights, 2, cell) {
            q *= (after as f32 / 10.0) / (now as f32 / 10.0);
        }
        if !accept_by_ratio(&mut field, cell, q.to_bits()) {
            q = q.powf(1.0 / temperature);
            accept_by_draw(&mut field, cell, q.to_bits(), rng().to_bits());
        }
    }
    field.data
}

#[test]
fn synthesis_is_reproducible() {
    let first = synthesize(7);
    assert_eq!(first.len(), 64);
    assert_eq!(first, synthesize(7));
}
