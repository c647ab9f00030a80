//! The octave accumulator and the quantizer: from gradient grids to an 8-bit raster.
use crate::config::{NoiseConfig, MAX_OCTAVES, MAX_SIDE, MAX_WEIGHT};
use crate::grid::{frac, lattice_shape, GradientGrid, CORNER_BOUND};
use crate::intdiv::ceil_div;
use crate::kernel::{interp, lemma_interp_kernel, ONE};
use crate::lattice::{field_cells, field_shape, gradient_cells, FieldArray};
use vstd::arithmetic::div_mod::{
    lemma_basic_div, lemma_div_by_multiple, lemma_div_is_ordered, lemma_div_plus_one,
    lemma_fundamental_div_mod_converse, lemma_multiply_divide_lt,
};
use vstd::prelude::*;

verus! {

/// Octave `k` has a well-formed grid whose shape fits the image and its cell size.
pub open spec fn grids_fit(cfg: NoiseConfig, grids: Seq<GradientGrid>) -> bool {
    &&& grids.len() == cfg.octaves
    &&& forall|k: int|
        0 <= k < grids.len() ==> {
            &&& (#[trigger] grids[k]).wf()
            &&& grids[k].rows == lattice_shape(
                cfg.height as int,
                cfg.width as int,
                cfg.cell(k),
            ).0
            &&& grids[k].cols == lattice_shape(cfg.height as int, cfg.width as int, cfg.cell(k)).1
        }
}

/// The weighted sum at pixel `(i, j)` of the first `m` octaves' noise.
pub open spec fn field(cfg: NoiseConfig, grids: Seq<GradientGrid>, m: int, i: int, j: int) -> int
    decreases m,
{
    if m <= 0 {
        0
    } else {
        field(cfg, grids, m - 1, i, j) + cfg.weight(m - 1) * grids[m - 1].noise_at(
            i,
            j,
            cfg.cell(m - 1),
        )
    }
}

/// `v` clamped to `[-lim, lim]`.
pub open spec fn clamp_to(v: int, lim: int) -> int {
    if v < -lim {
        -lim
    } else if v > lim {
        lim
    } else {
        v
    }
}

/// The 8-bit intensity of the value `v / total`: clamped to `[-1, 1]`, mapped by
/// `x * 127.5 + 127.5` and rounded half up.
pub open spec fn quantized(v: int, total: int) -> int {
    (255 * (clamp_to(v, total) + total) + total) / (2 * total)
}

/// The intensity of pixel `(i, j)`: the accumulated field divided by the sum of the
/// weights, in units of `ONE * ONE`, then quantized.
pub open spec fn pixel(cfg: NoiseConfig, grids: Seq<GradientGrid>, i: int, j: int) -> int {
    quantized(field(cfg, grids, cfg.octaves as int, i, j), cfg.scale_sum() * ONE * ONE)
}

/// The quantizer maps every value into `[0, 255]`, saturating outside `[-1, 1]`;
/// -1 maps to 0, 0 to 128 and 1 to 255.
pub proof fn lemma_quantize_bounds(v: int, total: int)
    requires
        total > 0,
    ensures
        0 <= quantized(v, total) <= 255,
        quantized(-total, total) == 0,
        quantized(0, total) == 128,
        quantized(total, total) == 255,
        v <= -total ==> quantized(v, total) == 0,
        v >= total ==> quantized(v, total) == 255,
{
    let c = clamp_to(v, total);
    let num = 255 * (c + total) + total;
    lemma_div_is_ordered(0, num, 2 * total);
    lemma_basic_div(0, 2 * total);
    lemma_multiply_divide_lt(num, 2 * total, 256);
    lemma_basic_div(total, 2 * total);
    lemma_div_by_multiple(128, 2 * total);
    lemma_fundamental_div_mod_converse(511 * total, 2 * total, 255, total);
    assert(255 * (total + total) + total == 511 * total);
    assert(255 * (0 + total) + total == 128 * (2 * total));
}

/// The quantizer is nondecreasing: a larger value never gets a darker intensity.
pub proof fn lemma_quantize_monotonic(v1: int, v2: int, total: int)
    requires
        total > 0,
        v1 <= v2,
    ensures
        quantized(v1, total) <= quantized(v2, total),
{
    let c1 = clamp_to(v1, total);
    let c2 = clamp_to(v2, total);
    assert(c1 <= c2);
    lemma_div_is_ordered(255 * (c1 + total) + total, 255 * (c2 + total) + total, 2 * total);
}

/// The 8-bit intensity of an accumulated value `v`, for weights summing to `scale_sum`.
pub fn quantize(v: i128, scale_sum: i64) -> (r: u8)
    requires
        1 <= scale_sum <= MAX_OCTAVES * MAX_WEIGHT,
    ensures
        r == quantized(v as int, scale_sum * ONE * ONE),
{
    let total: i128 = scale_sum as i128 * ONE as i128 * ONE as i128;
    let c: i128 = if v < -total {
        -total
    } else if v > total {
        total
    } else {
        v
    };
    proof {
        lemma_quantize_bounds(v as int, total as int);
    }
    let num: u128 = (255 * (c + total) + total) as u128;
    let q: u128 = num / (2 * total as u128);
    q as u8
}

proof fn lemma_flat_index(t: int, i: int, j: int, w: int)
    requires
        0 <= j < w,
        0 <= i,
        t == i * w + j,
    ensures
        t / w == i,
        t % w == j,
{
    lemma_fundamental_div_mod_converse(t, w, i, j);
}

proof fn lemma_row_in_lattice(i: int, h: int, cell: int)
    requires
        0 <= i < h,
        0 < cell,
    ensures
        i / cell + 1 < ceil_div(h, cell) + 1,
{
    lemma_div_is_ordered(i, h - 1, cell);
    lemma_div_plus_one(h - 1, cell);
    assert(h + cell - 1 == cell + (h - 1));
}

/// The accumulator holds, at each pixel, the weighted sum of the first `m` octaves,
/// within `partial_sum(m) * CORNER_BOUND` in magnitude.
pub open spec fn holds_octaves(
    acc: FieldArray,
    cfg: NoiseConfig,
    grids: Seq<GradientGrid>,
    m: int,
) -> bool {
    &&& field_shape(acc) == (cfg.height as nat, cfg.width as nat)
    &&& field_cells(acc).len() == cfg.height * cfg.width
    &&& forall|t: int|
        0 <= t < field_cells(acc).len() ==> {
            &&& #[trigger] field_cells(acc)[t] == field(
                cfg,
                grids,
                m,
                t / cfg.width as int,
                t % cfg.width as int,
            )
            &&& -cfg.partial_sum(m) * CORNER_BOUND <= field_cells(acc)[t] <= cfg.partial_sum(m)
                * CORNER_BOUND
        }
}

/// Adds octave `k`, weighted, into the accumulator.
fn add_octave(acc: &mut FieldArray, cfg: &NoiseConfig, grids: &Vec<GradientGrid>, k: usize)
    requires
        cfg.wf(),
        grids_fit(*cfg, grids@),
        k < cfg.octaves,
        holds_octaves(*old(acc), *cfg, grids@, k as int),
    ensures
        holds_octaves(*final(acc), *cfg, grids@, k + 1),
{
    let h = cfg.height;
    let w = cfg.width;
    proof {
        assert(h * w <= (h + 1) * (w + 1)) by (nonlinear_arith);
    }
    let n = h * w;
    let cell = cfg.cell_size(k);
    let weight = cfg.octave_weight(k);
    let grid = &grids[k];
    let ghost ps = cfg.partial_sum(k as int);
    proof {
        cfg.lemma_partial_sum_range(k as int + 1);
        cfg.lemma_partial_sum_range(k as int);
        assert(cfg.partial_sum(k + 1) == ps + weight);
        assert(ps + weight <= MAX_OCTAVES * MAX_WEIGHT);
    }
    let mut idx: usize = 0;
    let mut i: usize = 0;
    let mut j: usize = 0;
    while idx < n
        invariant
            cfg.wf(),
            grids_fit(*cfg, grids@),
            k < cfg.octaves,
            h == cfg.height,
            w == cfg.width,
            n == h * w,
            cell == cfg.cell(k as int),
            1 <= cell <= MAX_SIDE,
            weight == cfg.weight(k as int),
            1 <= weight <= MAX_WEIGHT,
            *grid == grids@[k as int],
            ps == cfg.partial_sum(k as int),
            cfg.partial_sum(k + 1) == ps + weight,
            0 <= ps,
            ps + weight <= MAX_OCTAVES * MAX_WEIGHT,
            idx <= n,
            idx == i * w + j,
            j < w,
            field_shape(*acc) == (h as nat, w as nat),
            field_cells(*acc).len() == n,
            forall|t: int|
                0 <= t < idx ==> #[trigger] field_cells(*acc)[t] == field(
                    *cfg,
                    grids@,
                    k + 1,
                    t / w as int,
                    t % w as int,
                ) && -(ps + weight) * CORNER_BOUND <= field_cells(*acc)[t] <= (ps + weight)
                    * CORNER_BOUND,
            forall|t: int|
                idx <= t < n ==> #[trigger] field_cells(*acc)[t] == field(
                    *cfg,
                    grids@,
                    k as int,
                    t / w as int,
                    t % w as int,
                ) && -ps * CORNER_BOUND <= field_cells(*acc)[t] <= ps * CORNER_BOUND,
        decreases n - idx,
    {
        proof {
            assert(i < h) by (nonlinear_arith)
                requires
                    idx == i * w + j,
                    idx < h * w,
                    j < w,
                    0 <= j,
            ;
            lemma_flat_index(idx as int, i as int, j as int, w as int);
            lemma_row_in_lattice(i as int, h as int, cell as int);
            lemma_row_in_lattice(j as int, w as int, cell as int);
        }
        let p = grid.perlin(i, j, cell);
        let old_v = acc.get(i, j);
        proof {
            assert(-weight * CORNER_BOUND <= weight * p <= weight * CORNER_BOUND) by (nonlinear_arith)
                requires
                    1 <= weight,
                    -CORNER_BOUND <= p <= CORNER_BOUND,
            ;
            assert((ps + weight) * CORNER_BOUND == ps * CORNER_BOUND + weight * CORNER_BOUND)
                by (nonlinear_arith);
            assert((ps + weight) * CORNER_BOUND <= MAX_OCTAVES * MAX_WEIGHT * CORNER_BOUND) by (nonlinear_arith)
                requires
                    ps + weight <= MAX_OCTAVES * MAX_WEIGHT,
            ;
        }
        acc.set(i, j, old_v + weight as i128 * p as i128);
        idx = idx + 1;
        j = j + 1;
        if j == w {
            proof {
                assert((i + 1) * w == i * w + w) by (nonlinear_arith);
            }
            j = 0;
            i = i + 1;
        }
    }
}

/// Renders the raster: every octave's noise, weighted and summed, divided by the sum of
/// the weights and quantized, stored row by row.
pub fn render(cfg: &NoiseConfig, grids: &Vec<GradientGrid>) -> (r: Vec<u8>)
    requires
        cfg.wf(),
        grids_fit(*cfg, grids@),
    ensures
        r@.len() == cfg.height * cfg.width,
        forall|t: int|
            0 <= t < r@.len() ==> #[trigger] r@[t] as int == pixel(
                *cfg,
                grids@,
                t / cfg.width as int,
                t % cfg.width as int,
            ),
{
    let h = cfg.height;
    let w = cfg.width;
    proof {
        assert(h * w <= (h + 1) * (w + 1)) by (nonlinear_arith);
        cfg.lemma_partial_sum_range(0);
    }
    let n = h * w;
    let mut acc = FieldArray::from_elem(h, w, 0);
    let mut k: usize = 0;
    while k < cfg.octaves
        invariant
            cfg.wf(),
            grids_fit(*cfg, grids@),
            k <= cfg.octaves,
            holds_octaves(acc, *cfg, grids@, k as int),
        decreases cfg.octaves - k,
    {
        add_octave(&mut acc, cfg, grids, k);
        k = k + 1;
    }
    let total = cfg.total_weight();
    let mut out: Vec<u8> = Vec::with_capacity(n);
    let mut idx: usize = 0;
    let mut i: usize = 0;
    let mut j: usize = 0;
    while idx < n
        invariant
            cfg.wf(),
            h == cfg.height,
            w == cfg.width,
            n == h * w,
            idx <= n,
            idx == i * w + j,
            j < w,
            total == cfg.scale_sum(),
            1 <= total <= MAX_OCTAVES * MAX_WEIGHT,
            holds_octaves(acc, *cfg, grids@, cfg.octaves as int),
            out@.len() == idx,
            forall|s: int|
                0 <= s < idx ==> #[trigger] out@[s] as int == pixel(
                    *cfg,
                    grids@,
                    s / w as int,
                    s % w as int,
                ),
        decreases n - idx,
    {
        proof {
            assert(i < h) by (nonlinear_arith)
                requires
                    idx == i * w + j,
                    idx < h * w,
                    j < w,
                    0 <= j,
            ;
            lemma_flat_index(idx as int, i as int, j as int, w as int);
        }
        let q = quantize(acc.get(i, j), total);
        out.push(q);
        idx = idx + 1;
        j = j + 1;
        if j == w {
            proof {
                assert((i + 1) * w == i * w + w) by (nonlinear_arith);
            }
            j = 0;
            i = i + 1;
        }
    }
    out
}

/// The sampler reads only the grid's shape and vectors: two grids that agree on them
/// give the same noise at every pixel and cell size.
pub proof fn lemma_noise_deterministic(g1: GradientGrid, g2: GradientGrid, i: int, j: int, cell: int)
    requires
        g1.rows == g2.rows,
        g1.cols == g2.cols,
        gradient_cells(g1.vecs) == gradient_cells(g2.vecs),
    ensures
        g1.noise_at(i, j, cell) == g2.noise_at(i, j, cell),
{
}

/// The raster depends on the gradient values alone: grids of equal shapes and equal
/// vectors give equal pixels, so a fixed seed gives the same image on every run.
pub proof fn lemma_render_deterministic(
    cfg: NoiseConfig,
    g1: Seq<GradientGrid>,
    g2: Seq<GradientGrid>,
    i: int,
    j: int,
)
    requires
        g1.len() == g2.len(),
        forall|k: int|
            0 <= k < g1.len() ==> (#[trigger] g1[k]).rows == g2[k].rows && g1[k].cols
                == g2[k].cols && gradient_cells(g1[k].vecs) == gradient_cells(
                g2[k].vecs,
            ),
        cfg.octaves <= g1.len(),
    ensures
        pixel(cfg, g1, i, j) == pixel(cfg, g2, i, j),
{
    lemma_field_same_vectors(cfg, g1, g2, cfg.octaves as int, i, j);
}

proof fn lemma_field_same_vectors(
    cfg: NoiseConfig,
    g1: Seq<GradientGrid>,
    g2: Seq<GradientGrid>,
    m: int,
    i: int,
    j: int,
)
    requires
        g1.len() == g2.len(),
        forall|k: int|
            0 <= k < g1.len() ==> (#[trigger] g1[k]).rows == g2[k].rows && g1[k].cols
                == g2[k].cols && gradient_cells(g1[k].vecs) == gradient_cells(
                g2[k].vecs,
            ),
        m <= g1.len(),
    ensures
        field(cfg, g1, m, i, j) == field(cfg, g2, m, i, j),
    decreases m,
{
    if m > 0 {
        lemma_field_same_vectors(cfg, g1, g2, m - 1, i, j);
        lemma_noise_deterministic(g1[m - 1], g2[m - 1], i, j, cfg.cell(m - 1));
    }
}

/// Normalization is a weighted average: where every octave's noise at a pixel lies in
/// `[lo, hi]`, the accumulated value lies in `[scale_sum * lo, scale_sum * hi]`, so the
/// normalized value stays within the octaves' own range whatever the number of octaves;
/// where every octave yields the same `v`, the normalized value is exactly `v`.
pub proof fn lemma_weighted_average(
    cfg: NoiseConfig,
    grids: Seq<GradientGrid>,
    i: int,
    j: int,
    lo: int,
    hi: int,
)
    requires
        cfg.wf(),
        cfg.octaves <= grids.len(),
        forall|k: int|
            0 <= k < cfg.octaves ==> lo <= (#[trigger] grids[k]).noise_at(i, j, cfg.cell(k)) <= hi,
    ensures
        cfg.scale_sum() * lo <= field(cfg, grids, cfg.octaves as int, i, j) <= cfg.scale_sum() * hi,
        lo == hi ==> field(cfg, grids, cfg.octaves as int, i, j) == cfg.scale_sum() * lo,
{
    lemma_field_between(cfg, grids, cfg.octaves as int, i, j, lo, hi);
}

proof fn lemma_field_between(
    cfg: NoiseConfig,
    grids: Seq<GradientGrid>,
    m: int,
    i: int,
    j: int,
    lo: int,
    hi: int,
)
    requires
        cfg.wf(),
        0 <= m <= cfg.octaves <= grids.len(),
        forall|k: int|
            0 <= k < cfg.octaves ==> lo <= (#[trigger] grids[k]).noise_at(i, j, cfg.cell(k)) <= hi,
    ensures
        cfg.partial_sum(m) * lo <= field(cfg, grids, m, i, j) <= cfg.partial_sum(m) * hi,
    decreases m,
{
    if m > 0 {
        lemma_field_between(cfg, grids, m - 1, i, j, lo, hi);
        cfg.lemma_weight_range(m - 1);
        let x = grids[m - 1].noise_at(i, j, cfg.cell(m - 1));
        let w = cfg.weight(m - 1);
        let ps = cfg.partial_sum(m - 1);
        assert(lo <= x <= hi);
        assert(cfg.partial_sum(m) == ps + w);
        assert(w * lo <= w * x <= w * hi) by (nonlinear_arith)
            requires
                w >= 0,
                lo <= x <= hi,
        ;
        assert((ps + w) * lo == ps * lo + w * lo && (ps + w) * hi == ps * hi + w * hi)
            by (nonlinear_arith);
    }
}

/// With one octave the cells have size 1, every pixel sits on a lattice point, the noise
/// there is 0 and the normalization divisor is exactly 1, so every pixel is 128.
pub proof fn lemma_single_octave_flat(cfg: NoiseConfig, grids: Seq<GradientGrid>, i: int, j: int)
    requires
        cfg.wf(),
        cfg.octaves == 1,
        grids.len() == 1,
        0 <= i,
        0 <= j,
    ensures
        cfg.scale_sum() == 1,
        grids[0].noise_at(i, j, cfg.cell(0)) == 0,
        field(cfg, grids, 1, i, j) == 0,
        pixel(cfg, grids, i, j) == 128,
{
    crate::config::lemma_single_octave_scale(cfg);
    let g = grids[0];
    assert(i % 1 == 0 && j % 1 == 0);
    assert(frac(i, 1) == 0 && frac(j, 1) == 0);
    assert(g.influence(i / 1, j / 1, 0, 0) == 0);
    lemma_interp_kernel(g.influence(i / 1, j / 1, 0, 0), g.influence(i / 1 + 1, j / 1, -ONE as int, 0), 0, 0);
    lemma_interp_kernel(
        g.influence(i / 1, j / 1 + 1, 0, -ONE as int),
        g.influence(i / 1 + 1, j / 1 + 1, -ONE as int, -ONE as int),
        0,
        0,
    );
    lemma_interp_kernel(
        interp(g.influence(i / 1, j / 1, 0, 0), g.influence(i / 1 + 1, j / 1, -ONE as int, 0), 0),
        interp(
            g.influence(i / 1, j / 1 + 1, 0, -ONE as int),
            g.influence(i / 1 + 1, j / 1 + 1, -ONE as int, -ONE as int),
            0,
        ),
        0,
        0,
    );
    assert(g.noise_at(i, j, 1) == 0);
    assert(cfg.weight(0) == 1);
    assert(field(cfg, grids, 0, i, j) == 0);
    assert(field(cfg, grids, 1, i, j) == 0);
    lemma_quantize_bounds(0, ONE * ONE);
}

} // verus!
