use vstd::prelude::*;
use vstd::arithmetic::div_mod::lemma_fundamental_div_mod_converse;
use crate::config::StripConfig;
use crate::frame::SourceFrame;
use crate::geometry::{cursor_after, lemma_cursor_reaches_steps};
use crate::resample::{
    SamplePlan,
    column_pixel,
    emits,
    emitted_row,
    emitted_value,
    output_byte,
    sample_byte,
    step_sum,
    window_count,
    window_sum,
};

verus! {

/// Channel `ch` of output pixel `(deg, row)` of the strip produced from `frame`.
pub open spec fn strip_byte(
    cfg: StripConfig,
    frame: &SourceFrame,
    plan: &SamplePlan,
    deg: int,
    row: int,
    ch: int,
) -> int {
    output_byte(cfg, frame, plan, (row * cfg.output_width + deg) * 4 + ch)
}

/// Rows of each column that some radial step writes.
pub open spec fn filled_rows(cfg: StripConfig, radius: int) -> int {
    let c = cursor_after(radius, cfg.steps(), radius as nat) - cfg.center_offset;
    if c > 0 {
        c
    } else {
        0
    }
}

/// Channel `ch` (red, green, blue) of a color.
pub open spec fn channel(c: (u8, u8, u8), ch: int) -> int {
    if ch == 0 {
        c.0 as int
    } else if ch == 1 {
        c.1 as int
    } else {
        c.2 as int
    }
}

/// Every pixel of the frame has the color `c`, whatever its alpha.
pub open spec fn uniform_rgb(frame: &SourceFrame, c: (u8, u8, u8)) -> bool {
    forall|p: int, ch: int|
        0 <= p < frame.width * frame.height && 0 <= ch < 3 ==> #[trigger] frame.buffer@[p * 4 + ch]
            == channel(c, ch)
}

proof fn lemma_strip_byte_is_column_pixel(
    cfg: StripConfig,
    frame: &SourceFrame,
    plan: &SamplePlan,
    deg: int,
    row: int,
    ch: int,
)
    requires
        0 <= deg < cfg.output_width,
        0 <= row,
        0 <= ch < 4,
    ensures
        strip_byte(cfg, frame, plan, deg, row, ch) == column_pixel(
            cfg,
            frame,
            plan,
            deg,
            row,
            ch,
            frame.radius() as nat,
        ),
{
    let w = cfg.output_width as int;
    let px = row * w + deg;
    lemma_fundamental_div_mod_converse(px * 4 + ch, 4, px, ch);
    lemma_fundamental_div_mod_converse(px, w, row, deg);
}

proof fn lemma_alpha_column(
    cfg: StripConfig,
    frame: &SourceFrame,
    plan: &SamplePlan,
    deg: int,
    row: int,
    n: nat,
)
    requires
        0 <= row,
        n <= frame.radius(),
    ensures
        column_pixel(cfg, frame, plan, deg, row, 3, n) == if row < cursor_after(
            frame.radius(),
            cfg.steps(),
            n,
        ) - cfg.center_offset {
            255int
        } else {
            0int
        },
    decreases n,
{
    if n > 0 {
        let i = (n - 1) as nat;
        lemma_alpha_column(cfg, frame, plan, deg, row, i);
    }
}

/// Each output pixel is either written, with an opaque alpha, or left zero: in
/// every column exactly the first `filled_rows` rows are written. When the
/// sampling radius exceeds `output_height + center_offset`, every pixel is
/// written and opaque.
pub proof fn lemma_alpha_opaque_where_filled(cfg: StripConfig, frame: &SourceFrame, plan: &SamplePlan)
    requires
        cfg.wf(),
    ensures
        forall|deg: int, row: int|
            0 <= deg < cfg.output_width && 0 <= row < cfg.output_height ==> #[trigger] strip_byte(
                cfg,
                frame,
                plan,
                deg,
                row,
                3,
            ) == if row < filled_rows(cfg, frame.radius()) {
                255int
            } else {
                0int
            },
        frame.radius() > cfg.steps() ==> forall|deg: int, row: int|
            0 <= deg < cfg.output_width && 0 <= row < cfg.output_height ==> #[trigger] strip_byte(
                cfg,
                frame,
                plan,
                deg,
                row,
                3,
            ) == 255,
{
    assert forall|deg: int, row: int|
        0 <= deg < cfg.output_width && 0 <= row < cfg.output_height implies #[trigger] strip_byte(
        cfg,
        frame,
        plan,
        deg,
        row,
        3,
    ) == if row < filled_rows(cfg, frame.radius()) {
        255int
    } else {
        0int
    } by {
        lemma_strip_byte_is_column_pixel(cfg, frame, plan, deg, row, 3);
        lemma_alpha_column(cfg, frame, plan, deg, row, frame.radius() as nat);
    }
    if frame.radius() > cfg.steps() {
        lemma_cursor_reaches_steps(frame.radius(), cfg.steps());
    }
}

/// A frame whose sampling radius is zero gives an all-zero strip.
pub proof fn lemma_zero_radius_blank(cfg: StripConfig, frame: &SourceFrame, plan: &SamplePlan)
    requires
        frame.radius() == 0,
    ensures
        forall|k: int| 0 <= k < cfg.output_len() ==> #[trigger] output_byte(cfg, frame, plan, k) == 0,
{
}

proof fn lemma_uniform_sums(
    cfg: StripConfig,
    frame: &SourceFrame,
    plan: &SamplePlan,
    c: (u8, u8, u8),
    deg: int,
    ch: int,
    n: nat,
)
    requires
        cfg.wf(),
        frame.wf(),
        frame.width > 0,
        frame.height > 0,
        uniform_rgb(frame, c),
        0 <= ch < 3,
    ensures
        window_sum(cfg, frame, plan, deg, ch, n) == channel(c, ch) * window_count(
            cfg,
            frame.radius(),
            n,
        ),
        window_count(cfg, frame.radius(), n) >= 0,
        forall|i: int, k: nat|
            #![trigger step_sum(cfg, frame, plan, deg, i, ch, k)]
            step_sum(cfg, frame, plan, deg, i, ch, k) == channel(c, ch) * k,
    decreases n,
{
    assert forall|i: int, k: nat|
        #![trigger step_sum(cfg, frame, plan, deg, i, ch, k)]
        step_sum(cfg, frame, plan, deg, i, ch, k) == channel(c, ch) * k by {
        lemma_uniform_step(cfg, frame, plan, c, deg, i, ch, k);
    }
    if n > 0 {
        let i = (n - 1) as nat;
        lemma_uniform_sums(cfg, frame, plan, c, deg, ch, i);
        let os = cfg.deg_oversampling as int;
        let cc = channel(c, ch);
        let cnt = window_count(cfg, frame.radius(), i);
        assert(cc * cnt + cc * os == cc * (cnt + os)) by (nonlinear_arith);
    }
}

proof fn lemma_uniform_step(
    cfg: StripConfig,
    frame: &SourceFrame,
    plan: &SamplePlan,
    c: (u8, u8, u8),
    deg: int,
    i: int,
    ch: int,
    k: nat,
)
    requires
        frame.wf(),
        frame.width > 0,
        frame.height > 0,
        uniform_rgb(frame, c),
        0 <= ch < 3,
    ensures
        step_sum(cfg, frame, plan, deg, i, ch, k) == channel(c, ch) * k,
    decreases k,
{
    if k > 0 {
        lemma_uniform_step(cfg, frame, plan, c, deg, i, ch, (k - 1) as nat);
        let sub = k - 1;
        let s = crate::resample::sample_slot(cfg, frame.radius(), deg, i, sub);
        let x = crate::resample::clamp_coord(plan.xs@[s] as int, frame.width as int);
        let y = crate::resample::clamp_coord(plan.ys@[s] as int, frame.height as int);
        let w = frame.width as int;
        let h = frame.height as int;
        assert(0 <= y * w + x < w * h) by (nonlinear_arith)
            requires
                0 <= x < w,
                0 <= y < h,
        ;
        assert(sample_byte(cfg, frame, plan, deg, i, sub, ch) == channel(c, ch));
        assert(channel(c, ch) * (k - 1) + channel(c, ch) == channel(c, ch) * k) by (nonlinear_arith);
    }
}

proof fn lemma_uniform_column(
    cfg: StripConfig,
    frame: &SourceFrame,
    plan: &SamplePlan,
    c: (u8, u8, u8),
    deg: int,
    row: int,
    ch: int,
    n: nat,
)
    requires
        cfg.wf(),
        frame.wf(),
        uniform_rgb(frame, c),
        0 <= ch < 3,
        n <= frame.radius(),
        column_pixel(cfg, frame, plan, deg, row, 3, n) == 255,
    ensures
        column_pixel(cfg, frame, plan, deg, row, ch, n) == channel(c, ch),
    decreases n,
{
    let i = (n - 1) as nat;
    if emits(cfg, frame.radius(), i) && emitted_row(cfg, frame.radius(), i) == row {
        lemma_uniform_sums(cfg, frame, plan, c, deg, ch, i);
        let os = cfg.deg_oversampling as int;
        let cc = channel(c, ch);
        let cnt = window_count(cfg, frame.radius(), i);
        assert(step_sum(cfg, frame, plan, deg, i as int, ch, os as nat) == cc * os);
        assert(cc * cnt + cc * os == cc * (cnt + os)) by (nonlinear_arith);
        lemma_fundamental_div_mod_converse(cc * (cnt + os), cnt + os, cc, 0);
        assert(emitted_value(cfg, frame, plan, deg, i, ch) == cc);
    } else {
        lemma_uniform_column(cfg, frame, plan, c, deg, row, ch, i);
    }
}

/// A frame of one uniform color gives that color in every written (opaque)
/// pixel of the strip: the mean of a constant is the constant.
pub proof fn lemma_uniform_color(
    cfg: StripConfig,
    frame: &SourceFrame,
    plan: &SamplePlan,
    c: (u8, u8, u8),
)
    requires
        cfg.wf(),
        frame.wf(),
        uniform_rgb(frame, c),
    ensures
        forall|deg: int, row: int, ch: int|
            0 <= deg < cfg.output_width && 0 <= row < cfg.output_height && 0 <= ch < 3
                && strip_byte(cfg, frame, plan, deg, row, 3) == 255 ==> #[trigger] strip_byte(
                cfg,
                frame,
                plan,
                deg,
                row,
                ch,
            ) == channel(c, ch),
{
    assert forall|deg: int, row: int, ch: int|
        0 <= deg < cfg.output_width && 0 <= row < cfg.output_height && 0 <= ch < 3
            && strip_byte(cfg, frame, plan, deg, row, 3) == 255 implies #[trigger] strip_byte(
        cfg,
        frame,
        plan,
        deg,
        row,
        ch,
    ) == channel(c, ch) by {
        lemma_strip_byte_is_column_pixel(cfg, frame, plan, deg, row, 3);
        lemma_strip_byte_is_column_pixel(cfg, frame, plan, deg, row, ch);
        lemma_uniform_column(cfg, frame, plan, c, deg, row, ch, frame.radius() as nat);
    }
}

} // verus!
