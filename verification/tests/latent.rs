use video_lab::geometry::{cell_axes, patch_axes, PatchGrid};
use video_lab::latent::{difference_ranges, laplacian_band, spatial_pool2, spatial_upsample2, Latent};

fn latent(dims: [usize; 5], values: &[f32]) -> Latent {
    assert_eq!(values.len(), dims.iter().product::<usize>());
    Latent { dims, values: values.iter().map(|v| v.to_bits()).collect() }
}

fn values(x: &Latent) -> Vec<f32> {
    x.values.iter().map(|v| f32::from_bits(*v)).collect()
}

fn mean(a: u32, b: u32) -> u32 {
    ((f32::from_bits(a) + f32::from_bits(b)) / 2.0).to_bits()
}

fn minus(a: u32, b: u32) -> u32 {
    (f32::from_bits(a) - f32::from_bits(b)).to_bits()
}

fn pool(x: &Latent) -> Latent {
    spatial_pool2(x, &mean)
}

fn band(x: &Latent, octave: usize) -> Latent {
    laplacian_band(x, octave, &mean, &minus)
}

#[test]
fn spatial_pool2_averages_2x2_blocks() {
    let x = latent([1, 1, 1, 2, 4], &[1., 2., 5., 6., 3., 4., 7., 8.]);
    let y = pool(&x);
    assert_eq!(y.dims, [1, 1, 1, 1, 2]);
    let v = values(&y);
    assert!((v[0] - 2.5).abs() < 1e-6, "got {v:?}");
    assert!((v[1] - 6.5).abs() < 1e-6, "got {v:?}");
}

#[test]
fn spatial_pool2_is_identity_on_odd_axes() {
    let x = latent([1, 1, 1, 1, 3], &[1., 2., 3.]);
    assert_eq!(pool(&x).dims, [1, 1, 1, 1, 3]);
    assert_eq!(values(&pool(&x)), vec![1., 2., 3.]);
}

#[test]
fn spatial_upsample2_inverts_shape_and_repeats() {
    let x = latent([1, 1, 1, 1, 2], &[1., 2.]);
    let y = spatial_upsample2(&x);
    assert_eq!(y.dims, [1, 1, 1, 2, 4]);
    assert_eq!(values(&y), vec![1., 1., 2., 2., 1., 1., 2., 2.]);
}

#[test]
fn laplacian_band_is_band_pass_and_octave_indexed() {
    let mk = |f: &dyn Fn(usize, usize) -> f32| {
        let mut v = vec![0.0f32; 64];
        for y in 0..8 {
            for x in 0..8 {
                v[y * 8 + x] = f(x, y)
            }
        }
        latent([1, 1, 1, 8, 8], &v)
    };
    let peak = |t: Latent| values(&t).iter().fold(0f32, |m, x| m.max(x.abs()));
    for k in 0..2 {
        let e = peak(band(&mk(&|_, _| 3.0), k));
        assert!(e < 1e-6, "constant field, octave {k}: expected 0, got {e}");
    }
    let fine = |x: usize, y: usize| if (x + y) % 2 == 0 { 1.0 } else { -1.0 };
    assert!(peak(band(&mk(&fine), 0)) > 0.5, "period-2 must live in octave 0");
    assert!(peak(band(&mk(&fine), 1)) < 1e-6, "period-2 must not reach octave 1");
    let coarse = |x: usize, y: usize| if ((x / 2) + (y / 2)) % 2 == 0 { 1.0 } else { -1.0 };
    assert!(peak(band(&mk(&coarse), 0)) < 1e-6, "period-4 must not leak into octave 0");
    assert!(peak(band(&mk(&coarse), 1)) > 0.5, "period-4 must live in octave 1");
}

#[test]
fn planes_are_kept_apart() {
    let numbers: Vec<f32> = (0..2 * 3 * 2 * 4).map(|i| i as f32).collect();
    let x = latent([1, 2, 3, 2, 4], &numbers);
    let y = pool(&x);
    assert_eq!(y.dims, [1, 2, 3, 1, 2]);
    let wanted: Vec<f32> = (0..6).flat_map(|p| [8.0 * p as f32 + 2.5, 8.0 * p as f32 + 4.5]).collect();
    assert_eq!(values(&y), wanted);
    assert_eq!(values(&pool(&spatial_upsample2(&x))), numbers);
}

/// A latent of the given shape whose values count up in an uneven way.
fn uneven(dims: [usize; 5]) -> Latent {
    let cells: usize = dims.iter().product();
    let numbers: Vec<f32> = (0..cells).map(|i| ((i * i * 7 + i * 3) % 64) as f32).collect();
    latent(dims, &numbers)
}

#[test]
fn bands_end_where_an_axis_is_odd() {
    let x = uneven([1, 2, 1, 12, 8]);
    assert_eq!(band(&x, 0).dims, [1, 2, 1, 12, 8]);
    assert!(values(&band(&x, 0)).iter().any(|v| *v != 0.0));
    assert_eq!(band(&x, 1).dims, [1, 2, 1, 6, 4]);
    assert!(values(&band(&x, 1)).iter().any(|v| *v != 0.0));
    for octave in [2, 3, 9] {
        let last = band(&x, octave);
        assert_eq!(last.dims, [1, 2, 1, 3, 2]);
        assert_eq!(last.values, vec![0; 12]);
    }
    assert!(band(&latent([1, 1, 1, 0, 0], &[]), 0).values.is_empty());
    assert_eq!(band(&latent([1, 1, 1, 0, 4], &[]), 0).dims, [1, 1, 1, 0, 4]);
}

#[test]
fn squares_are_averaged_down_the_columns_first() {
    let named = |a: u32, b: u32| 10 * a + b;
    let x = Latent { dims: [1, 1, 1, 2, 2], values: vec![1, 2, 3, 4] };
    assert_eq!(spatial_pool2(&x, &named).values, vec![10 * (10 * 1 + 3) + (10 * 2 + 4)]);
}

#[test]
fn octaves_of_a_halved_latent_are_the_coarser_ones() {
    let x = uneven([2, 1, 3, 8, 16]);
    for octave in 0..4 {
        let (one, other) = (band(&x, octave + 1), band(&pool(&x), octave));
        assert_eq!((one.dims, one.values), (other.dims, other.values));
    }
}

#[test]
fn doubled_latents_have_no_finest_band() {
    for dims in [[1, 2, 3, 3, 5], [2, 1, 1, 4, 2], [1, 1, 1, 1, 1]] {
        let larger = spatial_upsample2(&uneven(dims));
        assert_eq!(band(&larger, 0).values, vec![0; larger.values.len()]);
        let back = pool(&larger);
        assert_eq!((back.dims, back.values), (dims, uneven(dims).values));
    }
}

#[test]
fn differences_pair_every_frame_with_the_one_before() {
    assert_eq!(difference_ranges(4), ((1, 4), (0, 3)));
    assert_eq!(difference_ranges(1), ((1, 1), (0, 0)));
}

/// Row-major coordinates of a place.
fn coordinates(shape: &[usize], mut at: usize) -> Vec<usize> {
    let mut index = vec![0; shape.len()];
    for k in (0..shape.len()).rev() {
        index[k] = at % shape[k];
        at /= shape[k];
    }
    index
}

fn place(shape: &[usize], index: &[usize]) -> usize {
    shape.iter().zip(index).fold(0, |at, (s, i)| at * s + i)
}

/// Reorders the axes of a row-major buffer.
fn permute(buffer: &[usize], shape: &[usize], axes: &[usize]) -> Vec<usize> {
    let moved: Vec<usize> = axes.iter().map(|a| shape[*a]).collect();
    let mut out = vec![0; buffer.len()];
    for (at, value) in buffer.iter().enumerate() {
        let index = coordinates(shape, at);
        let target: Vec<usize> = axes.iter().map(|a| index[*a]).collect();
        out[place(&moved, &target)] = *value;
    }
    out
}

#[test]
fn patches_become_tokens_and_cells_again() {
    // A 2x4x4 latent of two channels, cut into patches of 2x2, makes eight tokens.
    let grid = PatchGrid::new([1, 2, 2, 4, 4], [1, 2, 2]).unwrap();
    assert_eq!(grid.token_count(), 8);
    assert_eq!(grid.token_shape(), [1, 8, 8]);
    assert_eq!(grid.split_shape(), [2, 2, 2, 2, 2, 2]);
    assert_eq!(grid.framed_shape(), [1, 2, 2, 4, 4]);
    let grid = PatchGrid::new([2, 3, 2, 6, 4], [1, 3, 2]).unwrap();
    let cells: Vec<usize> = (0..2 * 2 * 3 * 6 * 4).collect();
    let tokens = permute(&cells, &grid.split_shape(), &patch_axes());
    // Batch 1, frame 1, channel 2, row 4, column 3 lies in grid row 1, column 1.
    let cell = place(&grid.framed_shape(), &[1, 1, 2, 4, 3]);
    let token = (1 * 2 + 1) * 2 + 1;
    let slot = (2 * 3 + 1) * 2 + 1;
    assert_eq!(tokens[place(&grid.token_shape(), &[1, token, slot])], cell);
    let back = permute(&tokens, &grid.grouped_shape(), &cell_axes());
    assert_eq!(back, cells);
}

#[test]
fn sizes_are_checked_before_they_are_used() {
    assert!(latent([1, 2, 1, 1, 2], &[0.0; 4]).check());
    assert!(Latent { dims: [0, usize::MAX, usize::MAX, 3, 3], values: vec![] }.check());
    assert!(!Latent { dims: [1, usize::MAX, usize::MAX, 3, 3], values: vec![1] }.check());
    assert!(!Latent { dims: [1, 1, 1, 1, 2], values: vec![1] }.check());
    assert!(PatchGrid::new([1, 2, 2, 4, 4], [1, 2, 2]).unwrap().check_sizes());
    assert!(!PatchGrid::new([2, 2, usize::MAX, 4, 4], [1, 2, 2]).unwrap().check_sizes());
    assert!(!PatchGrid::new([1, usize::MAX, 2, 4, 4], [1, 2, 2]).unwrap().check_sizes());
}

#[test]
fn uneven_latents_have_no_grid() {
    assert!(PatchGrid::new([1, 2, 2, 5, 4], [1, 2, 2]).is_none());
    assert!(PatchGrid::new([1, 2, 2, 4, 5], [1, 2, 2]).is_none());
    assert!(PatchGrid::new([1, 2, 3, 4, 4], [1, 2, 2]).is_some());
}
