use vstd::prelude::*;
use vstd::arithmetic::div_mod::lemma_fundamental_div_mod;
use vstd::arithmetic::div_mod::lemma_fundamental_div_mod_converse;
use crate::config::StripConfig;
use crate::frame::{OutputFrame, SourceFrame};
use crate::geometry::{crosses, crosses_boundary, cursor_after, lemma_cursor_monotone};

verus! {

/// Rounded sample coordinates along the rays of every column: entry
/// `(deg * radius + i) * deg_oversampling + sub` holds the point at distance `i`
/// from the center at angle `deg + sub / deg_oversampling` degrees.
#[derive(Clone, Debug)]
pub struct SamplePlan {
    pub xs: Vec<u32>,
    pub ys: Vec<u32>,
}

impl SamplePlan {
    /// The plan holds one point for each column, radial step and sub-sample.
    pub open spec fn fits(&self, cfg: StripConfig, frame: &SourceFrame) -> bool {
        &&& self.xs@.len() == cfg.output_width * frame.radius() * cfg.deg_oversampling
        &&& self.ys@.len() == self.xs@.len()
    }
}

/// Index in a plan of sub-sample `sub` of radial step `i` in column `deg`.
pub open spec fn sample_slot(cfg: StripConfig, radius: int, deg: int, i: int, sub: int) -> int {
    (deg * radius + i) * cfg.deg_oversampling + sub
}

/// A coordinate is clamped to the last pixel of its axis.
pub open spec fn clamp_coord(v: int, size: int) -> int {
    if v < size - 1 {
        v
    } else {
        size - 1
    }
}

/// Channel `ch` of the source pixel that a sub-sample reads.
pub open spec fn sample_byte(
    cfg: StripConfig,
    frame: &SourceFrame,
    plan: &SamplePlan,
    deg: int,
    i: int,
    sub: int,
    ch: int,
) -> int {
    let s = sample_slot(cfg, frame.radius(), deg, i, sub);
    let x = clamp_coord(plan.xs@[s] as int, frame.width as int);
    let y = clamp_coord(plan.ys@[s] as int, frame.height as int);
    frame.buffer@[(y * frame.width + x) * 4 + ch] as int
}

/// Sum of channel `ch` over the first `k` sub-samples of radial step `i`.
pub open spec fn step_sum(
    cfg: StripConfig,
    frame: &SourceFrame,
    plan: &SamplePlan,
    deg: int,
    i: int,
    ch: int,
    k: nat,
) -> int
    decreases k,
{
    if k == 0 {
        0
    } else {
        step_sum(cfg, frame, plan, deg, i, ch, (k - 1) as nat) + sample_byte(
            cfg,
            frame,
            plan,
            deg,
            i,
            k - 1,
            ch,
        )
    }
}

/// Step `i` of a column ends the window of an output row and writes it.
pub open spec fn emits(cfg: StripConfig, radius: int, i: nat) -> bool {
    let c = cursor_after(radius, cfg.steps(), i);
    crosses(i as int, radius, cfg.steps(), c) && c + 1 > cfg.center_offset
}

/// The output row that step `i` writes when it emits.
pub open spec fn emitted_row(cfg: StripConfig, radius: int, i: nat) -> int {
    cursor_after(radius, cfg.steps(), i) - cfg.center_offset
}

/// Channel `ch` summed over the open window after steps `0 .. n` of a column.
pub open spec fn window_sum(
    cfg: StripConfig,
    frame: &SourceFrame,
    plan: &SamplePlan,
    deg: int,
    ch: int,
    n: nat,
) -> int
    decreases n,
{
    if n == 0 {
        0
    } else {
        let i = (n - 1) as nat;
        if emits(cfg, frame.radius(), i) {
            0
        } else {
            window_sum(cfg, frame, plan, deg, ch, i) + step_sum(
                cfg,
                frame,
                plan,
                deg,
                i as int,
                ch,
                cfg.deg_oversampling as nat,
            )
        }
    }
}

/// Samples in the open window after steps `0 .. n` of a column.
pub open spec fn window_count(cfg: StripConfig, radius: int, n: nat) -> int
    decreases n,
{
    if n == 0 {
        0
    } else {
        let i = (n - 1) as nat;
        if emits(cfg, radius, i) {
            0
        } else {
            window_count(cfg, radius, i) + cfg.deg_oversampling
        }
    }
}

/// Channel `ch` of the pixel that step `i` writes: the mean of the window for
/// red, green and blue, and an opaque alpha.
pub open spec fn emitted_value(
    cfg: StripConfig,
    frame: &SourceFrame,
    plan: &SamplePlan,
    deg: int,
    i: nat,
    ch: int,
) -> int {
    if ch == 3 {
        255
    } else {
        (window_sum(cfg, frame, plan, deg, ch, i) + step_sum(
            cfg,
            frame,
            plan,
            deg,
            i as int,
            ch,
            cfg.deg_oversampling as nat,
        )) / (window_count(cfg, frame.radius(), i) + cfg.deg_oversampling)
    }
}

/// Channel `ch` of output pixel `(deg, row)` after steps `0 .. n` of column `deg`;
/// zero until a step writes it.
pub open spec fn column_pixel(
    cfg: StripConfig,
    frame: &SourceFrame,
    plan: &SamplePlan,
    deg: int,
    row: int,
    ch: int,
    n: nat,
) -> int
    decreases n,
{
    if n == 0 {
        0
    } else {
        let i = (n - 1) as nat;
        if emits(cfg, frame.radius(), i) && emitted_row(cfg, frame.radius(), i) == row {
            emitted_value(cfg, frame, plan, deg, i, ch)
        } else {
            column_pixel(cfg, frame, plan, deg, row, ch, i)
        }
    }
}

/// Byte `k` of the strip produced from `frame`.
pub open spec fn output_byte(cfg: StripConfig, frame: &SourceFrame, plan: &SamplePlan, k: int) -> int {
    let px = k / 4;
    column_pixel(
        cfg,
        frame,
        plan,
        px % (cfg.output_width as int),
        px / (cfg.output_width as int),
        k % 4,
        frame.radius() as nat,
    )
}


/// The column whose steps `0 .. n` have been applied to the buffer, when column
/// `deg` is at step `i`: earlier columns are finished, later ones untouched.
spec fn stage(col: int, deg: int, i: int, radius: int) -> nat {
    if col < deg {
        radius as nat
    } else if col == deg {
        i as nat
    } else {
        0
    }
}

proof fn lemma_slot_bound(w: int, radius: int, os: int, deg: int, i: int, sub: int)
    requires
        0 <= deg < w,
        0 <= i < radius,
        0 <= sub < os,
    ensures
        0 <= deg * radius + i <= (deg * radius + i) * os,
        0 <= (deg * radius + i) * os + sub < w * radius * os,
{
    assert(0 <= deg * radius + i <= w * radius - 1) by (nonlinear_arith)
        requires
            0 <= deg < w,
            0 <= i < radius,
    ;
    let q = deg * radius + i;
    assert(q <= q * os) by (nonlinear_arith)
        requires
            0 <= q,
            1 <= os,
    ;
    assert(0 <= q * os + sub < (w * radius) * os) by (nonlinear_arith)
        requires
            0 <= q <= w * radius - 1,
            0 <= sub < os,
    ;
    assert((w * radius) * os == w * radius * os) by (nonlinear_arith);
}

proof fn lemma_pixel_bound(w: int, h: int, x: int, y: int)
    requires
        0 <= x < w,
        0 <= y < h,
    ensures
        0 <= (y * w + x) * 4,
        (y * w + x) * 4 + 3 < w * h * 4,
{
    assert(0 <= y * w + x < w * h) by (nonlinear_arith)
        requires
            0 <= x < w,
            0 <= y < h,
    ;
}

/// A byte index of an RGBA buffer `w` pixels wide splits into row, column and channel.
proof fn lemma_byte_index(k: int, w: int, h: int)
    requires
        0 <= k < w * h * 4,
        0 < w,
    ensures
        k == ((k / 4) / w * w + (k / 4) % w) * 4 + k % 4,
        0 <= (k / 4) / w < h,
        0 <= (k / 4) % w < w,
        0 <= k % 4 < 4,
{
    lemma_fundamental_div_mod(k, 4);
    lemma_fundamental_div_mod(k / 4, w);
    let px = k / 4;
    assert(px == w * (px / w) + px % w);
    assert(px / w * w == w * (px / w)) by (nonlinear_arith);
    assert(px < w * h);
    assert(px / w < h) by (nonlinear_arith)
        requires
            px == w * (px / w) + px % w,
            0 <= px % w,
            px < w * h,
            0 < w,
    ;
}

/// The byte of channel `c` at `(col, row)` decomposes back into them.
proof fn lemma_index_parts(row: int, col: int, c: int, w: int)
    requires
        0 <= row,
        0 <= col < w,
        0 <= c < 4,
    ensures
        ((row * w + col) * 4 + c) / 4 / w == row,
        ((row * w + col) * 4 + c) / 4 % w == col,
        ((row * w + col) * 4 + c) % 4 == c,
{
    let px = row * w + col;
    lemma_fundamental_div_mod_converse(px * 4 + c, 4, px, c);
    lemma_fundamental_div_mod_converse(px, w, row, col);
}

/// Reads the red, green and blue bytes of the pixel at `(x, y)`, with each
/// coordinate clamped to the last pixel of its axis.
fn read_rgb(frame: &SourceFrame, x: u32, y: u32) -> (rgb: (u8, u8, u8))
    requires
        frame.wf(),
        frame.width > 0,
        frame.height > 0,
    ensures
        ({
            let cx = clamp_coord(x as int, frame.width as int);
            let cy = clamp_coord(y as int, frame.height as int);
            let p = (cy * frame.width + cx) * 4;
            &&& rgb.0 == frame.buffer@[p]
            &&& rgb.1 == frame.buffer@[p + 1]
            &&& rgb.2 == frame.buffer@[p + 2]
        }),
{
    let w = frame.width as u32;
    let h = frame.height as u32;
    let cx: u32 = if x < w - 1 { x } else { w - 1 };
    let cy: u32 = if y < h - 1 { y } else { h - 1 };
    proof {
        lemma_pixel_bound(w as int, h as int, cx as int, cy as int);
    }
    let n = frame.buffer.len();
    let p = ((cy as usize) * (w as usize) + cx as usize) * 4;
    (frame.buffer[p], frame.buffer[p + 1], frame.buffer[p + 2])
}

/// Sums each color channel over the sub-samples of radial step `i` of column `deg`.
fn step_sums(cfg: &StripConfig, frame: &SourceFrame, plan: &SamplePlan, deg: u16, i: u16) -> (sums: (
    u64,
    u64,
    u64,
))
    requires
        cfg.wf(),
        frame.wf(),
        plan.fits(*cfg, frame),
        deg < cfg.output_width,
        i < frame.radius(),
    ensures
        sums.0 == step_sum(*cfg, frame, plan, deg as int, i as int, 0, cfg.deg_oversampling as nat),
        sums.1 == step_sum(*cfg, frame, plan, deg as int, i as int, 1, cfg.deg_oversampling as nat),
        sums.2 == step_sum(*cfg, frame, plan, deg as int, i as int, 2, cfg.deg_oversampling as nat),
        sums.0 <= 255 * cfg.deg_oversampling,
        sums.1 <= 255 * cfg.deg_oversampling,
        sums.2 <= 255 * cfg.deg_oversampling,
{
    let radius = frame.vector_length();
    let os = cfg.deg_oversampling;
    proof {
        lemma_slot_bound(
            cfg.output_width as int,
            radius as int,
            os as int,
            deg as int,
            i as int,
            0,
        );
    }
    let n = plan.xs.len();
    let base = ((deg as usize) * (radius as usize) + i as usize) * (os as usize);
    let mut r: u64 = 0;
    let mut g: u64 = 0;
    let mut b: u64 = 0;
    let mut sub: u16 = 0;
    while sub < os
        invariant
            cfg.wf(),
            frame.wf(),
            plan.fits(*cfg, frame),
            deg < cfg.output_width,
            i < frame.radius(),
            radius as int == frame.radius(),
            os == cfg.deg_oversampling,
            n == plan.xs@.len(),
            base as int == sample_slot(*cfg, frame.radius(), deg as int, i as int, 0),
            0 <= sub <= os,
            r == step_sum(*cfg, frame, plan, deg as int, i as int, 0, sub as nat),
            g == step_sum(*cfg, frame, plan, deg as int, i as int, 1, sub as nat),
            b == step_sum(*cfg, frame, plan, deg as int, i as int, 2, sub as nat),
            r <= 255 * sub,
            g <= 255 * sub,
            b <= 255 * sub,
        decreases os - sub,
    {
        proof {
            lemma_slot_bound(
                cfg.output_width as int,
                radius as int,
                os as int,
                deg as int,
                i as int,
                sub as int,
            );
        }
        let slot = base + sub as usize;
        let (pr, pg, pb) = read_rgb(frame, plan.xs[slot], plan.ys[slot]);
        r = r + pr as u64;
        g = g + pg as u64;
        b = b + pb as u64;
        sub = sub + 1;
    }
    (r, g, b)
}


proof fn lemma_mean_bound(sum: int, count: int)
    requires
        0 <= sum <= 255 * count,
        0 < count,
    ensures
        0 <= sum / count <= 255,
{
    lemma_fundamental_div_mod(sum, count);
    let q = sum / count;
    let m = sum % count;
    assert(0 <= q <= 255) by (nonlinear_arith)
        requires
            sum == count * q + m,
            0 <= m < count,
            0 <= sum <= 255 * count,
            0 < count,
    ;
}

proof fn lemma_count_step(count: int, i: int, os: int)
    requires
        0 <= count <= i * os,
        0 <= i < 0x8000,
        0 <= os <= 0xffff,
    ensures
        count + os <= (i + 1) * os,
        (i + 1) * os <= 0x8000 * 0xffff,
{
    assert((i + 1) * os == i * os + os) by (nonlinear_arith);
    assert((i + 1) * os <= 0x8000 * 0xffff) by (nonlinear_arith)
        requires
            0 <= i < 0x8000,
            0 <= os <= 0xffff,
    ;
}

/// Unrolls one source frame into a strip of `cfg.output_width` columns and
/// `cfg.output_height` rows.
///
/// Column `deg` walks the ray at `deg` degrees from the center, one radial step
/// `i` at a time, and sums the colors of the `deg_oversampling` sub-samples that
/// `plan` gives for each step. When step `i` crosses the boundary of the next
/// rasterized row (`i * steps > radius * cursor`) the cursor moves on; once it
/// has passed the `center_offset` discarded rows, the mean of the window is
/// written, with an opaque alpha, to row `cursor - center_offset - 1`, and the
/// window starts afresh. Rows that no step reaches stay zero. The timing,
/// disposal and transparency of the frame are carried over unchanged.
pub fn process_frame(cfg: &StripConfig, frame: &SourceFrame, plan: &SamplePlan) -> (out: OutputFrame)
    requires
        cfg.wf(),
        frame.wf(),
        plan.fits(*cfg, frame),
        cfg.output_len() <= usize::MAX,
    ensures
        out.width == cfg.output_width,
        out.height == cfg.output_height,
        out.wf(),
        out.buffer@.len() == cfg.output_len(),
        forall|k: int|
            0 <= k < out.buffer@.len() ==> #[trigger] out.buffer@[k] as int == output_byte(
                *cfg,
                frame,
                plan,
                k,
            ),
        out.delay == frame.delay,
        out.dispose == frame.dispose,
        out.transparent == frame.transparent,
{
    let out_w = cfg.output_width;
    let out_h = cfg.output_height;
    let len = (out_w as usize) * (out_h as usize) * 4;
    let mut buffer: Vec<u8> = Vec::new();
    while buffer.len() < len
        invariant
            buffer@.len() <= len,
            forall|k: int| 0 <= k < buffer@.len() ==> #[trigger] buffer@[k] == 0,
        decreases len - buffer@.len(),
    {
        buffer.push(0);
    }
    let radius = frame.vector_length();
    let os = cfg.deg_oversampling;
    let steps = cfg.output_steps();
    let offset = cfg.center_offset as u32;
    let ghost w = out_w as int;
    let ghost h = out_h as int;
    let ghost rad = radius as int;

    assert forall|k: int| 0 <= k < buffer@.len() implies #[trigger] buffer@[k] as int
        == column_pixel(*cfg, frame, plan, (k / 4) % w, (k / 4) / w, k % 4, stage((k / 4) % w, 0, 0, rad)) by {
    }

    let mut deg: u16 = 0;
    while deg < out_w
        invariant
            cfg.wf(),
            frame.wf(),
            plan.fits(*cfg, frame),
            out_w == cfg.output_width,
            out_h == cfg.output_height,
            w == out_w,
            h == out_h,
            rad == radius,
            radius as int == frame.radius(),
            os == cfg.deg_oversampling,
            steps as int == cfg.steps(),
            offset == cfg.center_offset,
            buffer@.len() == cfg.output_len(),
            cfg.output_len() <= usize::MAX,
            deg <= out_w,
            forall|k: int|
                0 <= k < buffer@.len() ==> #[trigger] buffer@[k] as int == column_pixel(
                    *cfg,
                    frame,
                    plan,
                    (k / 4) % w,
                    (k / 4) / w,
                    k % 4,
                    stage((k / 4) % w, deg as int, 0, rad),
                ),
        decreases out_w - deg,
    {
        let mut r: u64 = 0;
        let mut g: u64 = 0;
        let mut b: u64 = 0;
        let mut count: u64 = 0;
        let mut cursor: u32 = 0;
        let mut i: u16 = 0;
        while i < radius
            invariant
                cfg.wf(),
                frame.wf(),
                plan.fits(*cfg, frame),
                out_w == cfg.output_width,
                out_h == cfg.output_height,
                w == out_w,
                h == out_h,
                rad == radius,
                radius as int == frame.radius(),
                os == cfg.deg_oversampling,
                steps as int == cfg.steps(),
                offset == cfg.center_offset,
                buffer@.len() == cfg.output_len(),
                cfg.output_len() <= usize::MAX,
            cfg.output_len() <= usize::MAX,
                deg < out_w,
                i <= radius,
                cursor as int == cursor_after(rad, steps as int, i as nat),
                cursor <= steps,
                r as int == window_sum(*cfg, frame, plan, deg as int, 0, i as nat),
                g as int == window_sum(*cfg, frame, plan, deg as int, 1, i as nat),
                b as int == window_sum(*cfg, frame, plan, deg as int, 2, i as nat),
                count as int == window_count(*cfg, rad, i as nat),
                count <= i * os,
                r <= 255 * count,
                g <= 255 * count,
                b <= 255 * count,
                forall|k: int|
                    0 <= k < buffer@.len() ==> #[trigger] buffer@[k] as int == column_pixel(
                        *cfg,
                        frame,
                        plan,
                        (k / 4) % w,
                        (k / 4) / w,
                        k % 4,
                        stage((k / 4) % w, deg as int, i as int, rad),
                    ),
            decreases radius - i,
        {
            proof {
                lemma_count_step(count as int, i as int, os as int);
            }
            let (sr, sg, sb) = step_sums(cfg, frame, plan, deg, i);
            r = r + sr;
            g = g + sg;
            b = b + sb;
            count = count + os as u64;
            let ghost n = i as nat;
            let ghost before = buffer@;
            proof {
                lemma_cursor_monotone(rad, steps as int, n, n + 1);
            }
            if crosses_boundary(i, radius, steps, cursor) {
                cursor = cursor + 1;
                if cursor > offset {
                    let row = (cursor - offset - 1) as u16;
                    proof {
                        lemma_pixel_bound(w, h, deg as int, row as int);
                        lemma_mean_bound(r as int, count as int);
                        lemma_mean_bound(g as int, count as int);
                        lemma_mean_bound(b as int, count as int);
                    }
                    let base = ((row as usize) * (out_w as usize) + deg as usize) * 4;
                    buffer.set(base, (r / count) as u8);
                    buffer.set(base + 1, (g / count) as u8);
                    buffer.set(base + 2, (b / count) as u8);
                    buffer.set(base + 3, 255);
                    proof {
                        assert(emits(*cfg, rad, n));
                        assert(emitted_row(*cfg, rad, n) == row);
                        assert forall|k: int| 0 <= k < buffer@.len() implies #[trigger] buffer@[k] as int
                            == column_pixel(
                            *cfg,
                            frame,
                            plan,
                            (k / 4) % w,
                            (k / 4) / w,
                            k % 4,
                            stage((k / 4) % w, deg as int, i + 1, rad),
                        ) by {
                            lemma_byte_index(k, w, h);
                            lemma_index_parts(row as int, deg as int, 0, w);
                            lemma_index_parts(row as int, deg as int, 1, w);
                            lemma_index_parts(row as int, deg as int, 2, w);
                            lemma_index_parts(row as int, deg as int, 3, w);
                        }
                    }
                    r = 0;
                    g = 0;
                    b = 0;
                    count = 0;
                } else {
                    proof {
                        assert(!emits(*cfg, rad, n));
                    }
                }
            } else {
                proof {
                    assert(!emits(*cfg, rad, n));
                }
            }
            proof {
                if !emits(*cfg, rad, n) {
                    assert forall|k: int| 0 <= k < buffer@.len() implies #[trigger] buffer@[k] as int
                        == column_pixel(
                        *cfg,
                        frame,
                        plan,
                        (k / 4) % w,
                        (k / 4) / w,
                        k % 4,
                        stage((k / 4) % w, deg as int, i + 1, rad),
                    ) by {
                        assert(buffer@[k] == before[k]);
                    }
                }
            }
            i = i + 1;
        }
        proof {
            assert forall|k: int| 0 <= k < buffer@.len() implies #[trigger] buffer@[k] as int
                == column_pixel(
                *cfg,
                frame,
                plan,
                (k / 4) % w,
                (k / 4) / w,
                k % 4,
                stage((k / 4) % w, deg + 1, 0, rad),
            ) by {
                assert(stage((k / 4) % w, deg as int, i as int, rad) == stage((k / 4) % w, deg + 1, 0, rad));
            }
        }
        deg = deg + 1;
    }
    proof {
        assert forall|k: int| 0 <= k < buffer@.len() implies #[trigger] buffer@[k] as int == output_byte(
            *cfg,
            frame,
            plan,
            k,
        ) by {
            lemma_byte_index(k, w, h);
        }
    }
    OutputFrame {
        width: out_w,
        height: out_h,
        buffer,
        delay: frame.delay,
        dispose: frame.dispose,
        transparent: frame.transparent,
    }
}

} // verus!
