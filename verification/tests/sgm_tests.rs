use sgm::aggregate::{aggregate_cost, aggregate_cost_for_each_scanline};
use sgm::census::census_transform;
use sgm::cost::calc_pixel_cost;
use sgm::disparity::calc_disparity;
use sgm::grid::Image;
use sgm::hamming::calc_hamming_distance;
use sgm::pipeline::{compute_disp, compute_disp_with_penalties};
use sgm::volumes::{AggCostVolume, CostVolume, SumCostVolume};

fn uniform(width: usize, height: usize, v: u8) -> Image {
    Image::try_from_raw(width, height, vec![v; width * height]).unwrap()
}

#[test]
fn hamming_known_values() {
    assert_eq!(calc_hamming_distance(0xFF, 0x00), 8);
    assert_eq!(calc_hamming_distance(0b1010, 0b0110), 2);
    assert_eq!(calc_hamming_distance(0x0F, 0xA0), 6);
    assert_eq!(calc_hamming_distance(0x55, 0x55), 0);
}

#[test]
fn hamming_symmetric_all_pairs() {
    for a in 0..=255u8 {
        for b in 0..=255u8 {
            assert_eq!(calc_hamming_distance(a, b), calc_hamming_distance(b, a));
        }
    }
}

#[test]
fn hamming_zero_iff_equal() {
    for a in 0..=255u8 {
        for b in 0..=255u8 {
            assert_eq!(calc_hamming_distance(a, b) == 0, a == b);
        }
    }
}

#[test]
fn image_from_raw_rejects_wrong_length() {
    assert!(Image::try_from_raw(2, 2, vec![1, 2, 3]).is_none());
    assert!(Image::try_from_raw(2, 2, vec![1, 2, 3, 4]).is_some());
}

#[test]
fn census_uniform_plane() {
    // Every neighbor ties with the center, so all surviving bits are 1:
    // seven bits at positions 7..1 give 254. Borders stay 0.
    let img = uniform(5, 5, 100);
    let census = census_transform(&img);
    assert_eq!(census.width, 5);
    assert_eq!(census.height, 5);
    for y in 0..5usize {
        for x in 0..5usize {
            let expected = if x >= 1 && x < 4 && y >= 1 && y < 4 { 254 } else { 0 };
            assert_eq!(census.get(x, y), expected);
        }
    }
}

#[test]
fn census_neighbor_order_is_fixed() {
    // Center 10; the left neighbor (second in visiting order) darker:
    // its bit lands at position 7, so the descriptor is 254 - 128 = 126.
    let mut data = vec![10u8; 9];
    data[3] = 3; // pixel (0, 1)
    let img = Image::try_from_raw(3, 3, data).unwrap();
    let census = census_transform(&img);
    assert_eq!(census.get(1, 1), 126);

    // A darker first neighbor (0, 0): its bit is shifted out of the 8-bit
    // accumulator, so the descriptor is unchanged at 254.
    let mut data2 = vec![10u8; 9];
    data2[0] = 3; // pixel (0, 0)
    let img2 = Image::try_from_raw(3, 3, data2).unwrap();
    let census2 = census_transform(&img2);
    assert_eq!(census2.get(1, 1), 254);
}

#[test]
fn census_deterministic() {
    let mut data = Vec::new();
    for i in 0..25u32 {
        data.push(((i * 37 + 11) % 256) as u8);
    }
    let img = Image::try_from_raw(5, 5, data).unwrap();
    let a = census_transform(&img);
    let b = census_transform(&img);
    assert_eq!(a.data, b.data);
    for x in 0..5usize {
        assert_eq!(a.get(x, 0), 0);
        assert_eq!(a.get(x, 4), 0);
    }
    for y in 0..5usize {
        assert_eq!(a.get(0, y), 0);
        assert_eq!(a.get(4, y), 0);
    }
}

#[test]
fn cost_volume_formula_and_border_fallback() {
    // 1 x 3 descriptor planes, two candidate disparities.
    let left = Image::try_from_raw(3, 1, vec![0xF0, 0x0F, 0xFF]).unwrap();
    let right = Image::try_from_raw(3, 1, vec![0xA0, 0x00, 0x0F]).unwrap();
    let cost = calc_pixel_cost(&left, &right, 2);
    assert_eq!(cost.get(0, 0, 0), 2); // 0xF0 ^ 0xA0
    // x - d < 0: compared against the implicit all-zero descriptor.
    assert_eq!(cost.get(0, 0, 1), 4); // 0xF0 ^ 0x00
    assert_eq!(cost.get(0, 1, 0), 4); // 0x0F ^ 0x00
    assert_eq!(cost.get(0, 1, 1), 6); // 0x0F ^ 0xA0
    assert_eq!(cost.get(0, 2, 0), 4); // 0xFF ^ 0x0F
    assert_eq!(cost.get(0, 2, 1), 8); // 0xFF ^ 0x00
}

#[test]
fn aggregate_without_predecessor_is_raw_cost() {
    // At (0, 0), both a forward diagonal and the rightward direction have
    // no in-grid predecessor: the aggregated value is exactly the raw cost.
    let cost = CostVolume::try_from_raw(2, 2, 2, vec![5, 1, 4, 0, 3, 7, 2, 6]).unwrap();
    let mut agg = AggCostVolume::new(2, 2, 2);
    let v = aggregate_cost(0, 0, 0, 0, 3, 10, &cost, &mut agg);
    assert_eq!(v, 5);
    let v = aggregate_cost(0, 0, 1, 0, 3, 10, &cost, &mut agg);
    assert_eq!(v, 1);
    let v = aggregate_cost(0, 0, 0, 7, 3, 10, &cost, &mut agg);
    assert_eq!(v, 5);
}

#[test]
fn aggregate_recurrence_value() {
    // 1 x 2 grid, two disparities, rightward direction (index 7).
    // Pixel (0,0): costs 5, 1. Pixel (0,1): costs 4, 0.
    let cost = CostVolume::try_from_raw(1, 2, 2, vec![5, 1, 4, 0]).unwrap();
    let mut agg = AggCostVolume::new(1, 2, 2);
    assert_eq!(aggregate_cost(0, 0, 0, 7, 3, 10, &cost, &mut agg), 5);
    assert_eq!(aggregate_cost(0, 0, 1, 7, 3, 10, &cost, &mut agg), 1);
    // prev = [5, 1], prevMin = 1.
    // d = 0: min(5 + 0, 1 + 3) = 4; value = 4 + 4 - 1 = 7.
    assert_eq!(aggregate_cost(0, 1, 0, 7, 3, 10, &cost, &mut agg), 7);
    // d = 1: min(1 + 0, 5 + 3) = 1; value = 0 + 1 - 1 = 0.
    assert_eq!(aggregate_cost(0, 1, 1, 7, 3, 10, &cost, &mut agg), 0);
}

#[test]
fn scanline_sum_of_zero_costs_is_zero() {
    let cost = CostVolume::try_from_raw(3, 3, 2, vec![0; 18]).unwrap();
    let mut agg = AggCostVolume::new(3, 3, 2);
    let mut sum = SumCostVolume::new(3, 3, 2);
    aggregate_cost_for_each_scanline(&cost, &mut agg, &mut sum, 3, 10);
    for y in 0..3usize {
        for x in 0..3usize {
            for d in 0..2usize {
                assert_eq!(sum.get(y, x, d), 0);
            }
        }
    }
}

#[test]
fn scanline_totals_small_grid() {
    // 1 x 2 grid, two disparities, penalties 3 and 10.
    // Pixel (0,0): costs 5, 1. Pixel (0,1): costs 4, 0.
    // Seven of the eight paths start at a border in this grid; only the
    // rightward path at (0,1) and the leftward path at (0,0) aggregate.
    let cost = CostVolume::try_from_raw(1, 2, 2, vec![5, 1, 4, 0]).unwrap();
    let mut agg = AggCostVolume::new(1, 2, 2);
    let mut sum = SumCostVolume::new(1, 2, 2);
    aggregate_cost_for_each_scanline(&cost, &mut agg, &mut sum, 3, 10);
    // (0,0): 7 border paths at raw cost, leftward = cost + min(4, 0+3) - 0.
    assert_eq!(sum.get(0, 0, 0), 7 * 5 + 8);
    assert_eq!(sum.get(0, 0, 1), 7 * 1 + 1);
    // (0,1): 7 border paths at raw cost, rightward = cost + min(5, 1+3) - 1.
    assert_eq!(sum.get(0, 1, 0), 7 * 4 + 7);
    assert_eq!(sum.get(0, 1, 1), 7 * 0 + 0);
}

#[test]
fn disparity_tie_breaks_to_smallest_index() {
    let sum = SumCostVolume::try_from_raw(1, 1, 3, vec![5, 5, 7]).unwrap();
    let disp = calc_disparity(&sum);
    assert_eq!(disp.get(0, 0), 0);
    let sum = SumCostVolume::try_from_raw(1, 1, 3, vec![7, 5, 5]).unwrap();
    let disp = calc_disparity(&sum);
    assert_eq!(disp.get(0, 0), 1);
}

#[test]
fn flat_pair_gives_zero_disparity() {
    let left = uniform(8, 8, 100);
    let right = uniform(8, 8, 100);
    let disp = compute_disp(&left, &right, 3);
    assert_eq!(disp.width, 8);
    assert_eq!(disp.height, 8);
    for y in 0..8usize {
        for x in 0..8usize {
            assert_eq!(disp.get(x, y), 0);
        }
    }
}

#[test]
fn five_by_five_uniform_end_to_end() {
    let left = uniform(5, 5, 128);
    let right = uniform(5, 5, 128);
    let disp = compute_disp(&left, &right, 3);
    assert_eq!(disp.width, 5);
    assert_eq!(disp.height, 5);
    for y in 0..5usize {
        for x in 0..5usize {
            assert_eq!(disp.get(x, y), 0);
        }
    }
}

fn shifted_pair(width: usize, height: usize) -> (Image, Image) {
    let mut left = Vec::new();
    for y in 0..height {
        for x in 0..width {
            let base: u32 = if x < width / 2 { 50 } else { 200 };
            left.push((base + ((x as u32) * 7 + (y as u32) * 13) % 5) as u8);
        }
    }
    let mut right = Vec::new();
    for y in 0..height {
        for x in 0..width {
            let sx = if x == 0 { 0 } else { x - 1 };
            right.push(left[y * width + sx]);
        }
    }
    (
        Image::try_from_raw(width, height, left).unwrap(),
        Image::try_from_raw(width, height, right).unwrap(),
    )
}

#[test]
fn pipeline_is_idempotent() {
    let (left, right) = shifted_pair(10, 7);
    let a = compute_disp(&left, &right, 4);
    let b = compute_disp(&left, &right, 4);
    assert_eq!(a.data, b.data);
    assert_eq!(a.width, b.width);
    assert_eq!(a.height, b.height);
}

#[test]
fn disparity_indices_stay_in_range() {
    let (left, right) = shifted_pair(12, 8);
    let disp = compute_disp(&left, &right, 4);
    for y in 0..8usize {
        for x in 0..12usize {
            assert!(disp.get(x, y) < 4);
        }
    }
}

fn smooth_neighbor_pairs(disp: &Image) -> usize {
    let mut smooth = 0;
    for y in 0..disp.height {
        for x in 1..disp.width {
            if disp.get(x, y) == disp.get(x - 1, y) {
                smooth += 1;
            }
        }
    }
    smooth
}

#[test]
fn larger_far_penalty_never_less_smooth() {
    let (left, right) = shifted_pair(12, 8);
    let loose = compute_disp_with_penalties(&left, &right, 4, 3, 4);
    let tight = compute_disp_with_penalties(&left, &right, 4, 3, 100);
    assert!(smooth_neighbor_pairs(&tight) >= smooth_neighbor_pairs(&loose));
}
