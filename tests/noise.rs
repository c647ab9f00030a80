use fractal_noise::config::{ConfigError, NoiseConfig, MAX_OCTAVES, MAX_SIDE};
use fractal_noise::field::{quantize, render};
use fractal_noise::grid::{grid_shape, GradientGrid};
use fractal_noise::intdiv::div_ceil;
use fractal_noise::kernel::{interpolate, smoothstep, ONE};
use pcg_mwc::Mwc256XXA64;
use rand::Rng;

const SEED: (u64, u64) = (0x243F6A8885A308D3, 0x13198A2E03707344);

fn to_fixed(x: f32) -> i64 {
    ((x as f64) * ONE as f64).round().clamp(-(ONE as f64), ONE as f64) as i64
}

fn draw_grids(cfg: &NoiseConfig, rng: &mut Mwc256XXA64) -> Vec<GradientGrid> {
    let mut grids = Vec::new();
    for k in 0..cfg.octaves {
        let (rows, cols) = grid_shape(cfg.height, cfg.width, cfg.cell_size(k));
        let mut vecs = Vec::with_capacity(rows * cols);
        for _ in 0..rows * cols {
            let (s, c) = (rng.gen::<f32>() * std::f32::consts::TAU).sin_cos();
            vecs.push((to_fixed(c), to_fixed(s)));
        }
        grids.push(GradientGrid::new(rows, cols, vecs).unwrap());
    }
    grids
}

fn generate(cfg: &NoiseConfig) -> Vec<u8> {
    let mut rng = Mwc256XXA64::new(SEED.0, SEED.1);
    let grids = draw_grids(cfg, &mut rng);
    render(cfg, &grids)
}

#[test]
fn div_ceil_exact() {
    assert_eq!(div_ceil(0, 3), 0);
    assert_eq!(div_ceil(6, 3), 2);
    assert_eq!(div_ceil(7, 3), 3);
    assert_eq!(div_ceil(2, 3), 1);
    assert_eq!(div_ceil(512, 128), 4);
    assert_eq!(div_ceil(513, 128), 5);
    assert_eq!(div_ceil(1, 1), 1);
    assert_eq!(div_ceil(usize::MAX, 1), usize::MAX);
    assert_eq!(div_ceil(usize::MAX, 2), usize::MAX / 2 + 1);
}

#[test]
fn smoothstep_values() {
    assert_eq!(smoothstep(0), 0);
    assert_eq!(smoothstep(ONE), ONE);
    assert_eq!(smoothstep(ONE / 2), ONE / 2);
    assert_eq!(smoothstep(ONE / 4), 10240);
}

#[test]
fn interpolate_boundaries_and_order() {
    for &(a0, a1) in &[(0i64, 100i64), (-5000, 7000), (300, -300), (42, 42)] {
        assert_eq!(interpolate(a0, a1, 0), a0);
        assert_eq!(interpolate(a0, a1, ONE), a1);
    }
    let mut prev = interpolate(-1000, 1000, 0);
    for w in (0..=ONE).step_by(997) {
        let v = interpolate(-1000, 1000, w);
        assert!(v >= prev && v >= -1000 && v <= 1000);
        prev = v;
    }
    assert_eq!(interpolate(0, 65536, ONE / 4), 10240);
    assert_eq!(interpolate(65536, 0, ONE / 4), 65536 - 10240);
}

#[test]
fn quantize_reference_points() {
    let unit: i128 = (ONE * ONE) as i128;
    assert_eq!(quantize(-unit, 1), 0);
    assert_eq!(quantize(0, 1), 128);
    assert_eq!(quantize(unit, 1), 255);
    assert_eq!(quantize(-3 * unit, 1), 0);
    assert_eq!(quantize(5 * unit, 1), 255);
    assert_eq!(quantize(unit / 2, 1), 191);
    assert_eq!(quantize(-7 * unit, 7), 0);
    assert_eq!(quantize(7 * unit, 7), 255);
    assert_eq!(quantize(0, 58975), 128);
}

#[test]
fn config_errors() {
    assert_eq!(NoiseConfig::new(0, 4, 1, 3, 4).err(), Some(ConfigError::EmptyImage));
    assert_eq!(NoiseConfig::new(4, 0, 1, 3, 4).err(), Some(ConfigError::EmptyImage));
    assert_eq!(
        NoiseConfig::new(MAX_SIDE + 1, 4, 1, 3, 4).err(),
        Some(ConfigError::ImageTooLarge)
    );
    assert_eq!(
        NoiseConfig::new(MAX_SIDE, MAX_SIDE, 1, 3, 4).err(),
        Some(ConfigError::ImageTooLarge)
    );
    assert_eq!(
        NoiseConfig::new(8192, 8191, 1, 3, 4).err(),
        Some(ConfigError::ImageTooLarge)
    );
    assert!(NoiseConfig::new(8191, 8191, 1, 3, 4).is_ok());
    assert_eq!(NoiseConfig::new(4, 4, 0, 3, 4).err(), Some(ConfigError::OctavesOutOfRange));
    assert_eq!(
        NoiseConfig::new(4, 4, MAX_OCTAVES + 1, 3, 4).err(),
        Some(ConfigError::OctavesOutOfRange)
    );
    assert_eq!(NoiseConfig::new(4, 4, 2, 0, 4).err(), Some(ConfigError::AttenuationOutOfRange));
    assert_eq!(NoiseConfig::new(4, 4, 2, 4, 4).err(), Some(ConfigError::AttenuationOutOfRange));
    assert_eq!(NoiseConfig::new(4, 4, 2, 5, 4).err(), Some(ConfigError::AttenuationOutOfRange));
    assert_eq!(NoiseConfig::new(4, 4, 21, 3, 4).err(), Some(ConfigError::WeightsTooLarge));
    assert_eq!(
        NoiseConfig::new(4, 4, 2, 1, u64::MAX).err(),
        Some(ConfigError::WeightsTooLarge)
    );
    assert!(NoiseConfig::new(512, 512, 8, 3, 4).is_ok());
    assert!(NoiseConfig::new(4, 4, 11, 1, 4).is_ok());
    assert!(NoiseConfig::new(4, 4, 17, 1, 4).is_ok());
    assert_eq!(NoiseConfig::new(4, 4, 18, 1, 4).err(), Some(ConfigError::WeightsTooLarge));
    let fine = NoiseConfig::new(512, 512, 8, 9, 10).unwrap();
    assert_eq!(fine.octave_weight(0), 10_000_000);
    assert_eq!(fine.total_weight(), 10i64.pow(8) - 9i64.pow(8));
}

#[test]
fn octave_schedule() {
    let cfg = NoiseConfig::new(512, 512, 8, 3, 4).unwrap();
    assert_eq!(cfg.cell_size(0), 128);
    assert_eq!(cfg.cell_size(7), 1);
    assert_eq!(cfg.octave_weight(0), 16384);
    assert_eq!(cfg.octave_weight(1), 12288);
    assert_eq!(cfg.octave_weight(7), 2187);
    for k in 0..7 {
        assert_eq!(cfg.octave_weight(k + 1) * 4, cfg.octave_weight(k) * 3);
    }
    assert_eq!(cfg.total_weight(), 58975);
    assert_eq!(cfg.total_weight() * (4 - 3), 4i64.pow(8) - 3i64.pow(8));
    let sum: f64 = (0..8).map(|k| 0.75f64.powi(k)).sum();
    assert!((cfg.total_weight() as f64 / 16384.0 - sum).abs() < 1e-12);
}

#[test]
fn single_octave_scale_is_one() {
    let cfg = NoiseConfig::new(16, 16, 1, 3, 4).unwrap();
    assert_eq!(cfg.total_weight(), 1);
    assert_eq!(cfg.cell_size(0), 1);
}

#[test]
fn grid_shapes() {
    assert_eq!(grid_shape(512, 512, 128), (5, 5));
    assert_eq!(grid_shape(512, 512, 1), (513, 513));
    assert_eq!(grid_shape(10, 7, 4), (4, 3));
}

#[test]
fn gradient_grid_validation() {
    assert!(GradientGrid::new(2, 2, vec![(ONE, 0); 4]).is_some());
    assert!(GradientGrid::new(2, 2, vec![(0, -ONE); 4]).is_some());
    assert!(GradientGrid::new(1, 1, vec![(46341, 46341)]).is_some());
    assert!(GradientGrid::new(2, 2, vec![(ONE, 0); 3]).is_none());
    assert!(GradientGrid::new(1, 1, vec![(0, 0)]).is_none());
    assert!(GradientGrid::new(1, 1, vec![(ONE / 2, 0)]).is_none());
    assert!(GradientGrid::new(1, 1, vec![(ONE, ONE)]).is_none());
    assert!(GradientGrid::new(0, usize::MAX, vec![]).is_none());
    assert!(GradientGrid::new(usize::MAX, 0, vec![]).is_none());
    assert!(GradientGrid::new(0, 3, vec![]).is_some());
    assert!(GradientGrid::new(1, 1, vec![(ONE + 1, 0)]).is_none());
    assert!(GradientGrid::new(1, 1, vec![(0, -ONE - 1)]).is_none());
    assert!(GradientGrid::new(usize::MAX, 2, vec![]).is_none());
}

#[test]
fn perlin_reference_value() {
    let g = GradientGrid::new(2, 2, vec![(ONE, 0), (0, -ONE), (0, ONE), (-ONE, 0)]).unwrap();
    assert_eq!(g.gradient(1, 0), (0, ONE));
    assert_eq!(g.dot_grid_gradient(0, 0, ONE / 4, ONE / 4), 1 << 30);
    assert_eq!(g.dot_grid_gradient(0, 1, ONE / 4, ONE / 4 - ONE), 3221225472);
    assert_eq!(g.perlin(1, 1, 4), 1409286144);
    assert_eq!(g.perlin(0, 0, 4), 0);
    let u = GradientGrid::new(2, 2, vec![(ONE, 0); 4]).unwrap();
    assert_eq!(u.perlin(1, 1, 4), 402653184);
    let h = GradientGrid::new(2, 2, vec![(ONE, 0); 4]).unwrap();
    assert_eq!(h.perlin(1, 0, 2), 0);
}

#[test]
fn gradients_have_unit_length() {
    let mut rng = Mwc256XXA64::new(SEED.0, SEED.1);
    for _ in 0..10000 {
        let (s, c) = (rng.gen::<f32>() * std::f32::consts::TAU).sin_cos();
        assert!(((s * s + c * c).sqrt() - 1.0).abs() <= 1e-6);
        let (fs, fc) = (to_fixed(s) as f64, to_fixed(c) as f64);
        let norm = (fs * fs + fc * fc).sqrt() / ONE as f64;
        assert!((norm - 1.0).abs() <= 1e-4);
    }
}

#[test]
fn render_is_deterministic() {
    let cfg = NoiseConfig::new(64, 48, 4, 3, 4).unwrap();
    let a = generate(&cfg);
    let b = generate(&cfg);
    assert_eq!(a.len(), 64 * 48);
    assert_eq!(a, b);
}

#[test]
fn reference_scenario_is_reproducible() {
    let cfg = NoiseConfig::new(512, 512, 8, 3, 4).unwrap();
    let a = generate(&cfg);
    let b = generate(&cfg);
    assert_eq!(a.len(), 262144);
    assert_eq!(a, b);
    assert!(a.iter().any(|&p| p != a[0]));
    assert!(a.iter().all(|&p| p > 0 && p < 255));
}

#[test]
fn single_octave_is_flat() {
    let cfg = NoiseConfig::new(512, 512, 1, 3, 4).unwrap();
    let a = generate(&cfg);
    assert_eq!(a.len(), 262144);
    assert!(a.iter().all(|&p| p == 128));
}

#[test]
fn render_small_by_hand() {
    let cfg = NoiseConfig::new(2, 2, 2, 1, 2).unwrap();
    assert_eq!(cfg.total_weight(), 3);
    let mixed = vec![(ONE, 0), (0, -ONE), (0, ONE), (-ONE, 0)];
    let coarse = GradientGrid::new(2, 2, mixed.clone()).unwrap();
    let fine = GradientGrid::new(3, 3, vec![(0, ONE); 9]).unwrap();
    let raster = render(&cfg, &vec![coarse, fine]);
    assert_eq!(raster.len(), 4);
    assert_eq!(raster[0], 128);
    let coarse = GradientGrid::new(2, 2, mixed).unwrap();
    assert_eq!(coarse.perlin(1, 1, 2), 1 << 31);
    let p = coarse.perlin(1, 1, 2) as i128;
    assert_ne!(p, 0);
    assert_eq!(raster[3], quantize(2 * p, 3));
    assert_eq!(raster[1], quantize(2 * coarse.perlin(0, 1, 2) as i128, 3));
    assert_eq!(raster[2], quantize(2 * coarse.perlin(1, 0, 2) as i128, 3));
}

fn fnv1a(bytes: &[u8]) -> u64 {
    let mut h: u64 = 0xcbf29ce484222325;
    for &b in bytes {
        h ^= b as u64;
        h = h.wrapping_mul(0x100000001b3);
    }
    h
}

#[test]
fn reference_scenario_digest() {
    let cfg = NoiseConfig::new(512, 512, 8, 3, 4).unwrap();
    let raster = generate(&cfg);
    assert_eq!(raster.len(), 262144);
    assert_eq!(fnv1a(&raster), 0x9295b7dbca397506);
}
