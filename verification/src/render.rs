use vstd::prelude::*;
use vstd::math::max;
use vstd::math::min;
use vstd::string::StringExecFns;
use crate::aggregate::agg_wf;
use crate::aggregate::spec_aggregate;
use crate::aggregate::AggModel;
use crate::aggregate::Aggregate;
use crate::message::spec_message;
use crate::state::BarModel;
use crate::state::MetaModel;
use crate::state::NestedMeta;
use crate::state::ProgressBarState;
use crate::state::SCALE;

verus! {

/// Number of cells in a rendered bar.
pub const BAR_WIDTH: u64 = 20;

/// Number of grey steps in the animation ramp.
pub const BRIGHTNESS_STEPS: u64 = 24;

/// The decimal digits of a number, most significant first. A negative
/// input, which never arises, reads as zero.
pub open spec fn spec_dec_digits(n: int) -> Seq<char>
    decreases n,
{
    if n >= 10 {
        spec_dec_digits(n / 10) + spec_digit(n % 10)
    } else {
        spec_digit(if n < 0 {
            0
        } else {
            n
        })
    }
}

/// One decimal digit as a one-character sequence.
pub open spec fn spec_digit(d: int) -> Seq<char> {
    if d == 0 {
        "0"@
    } else if d == 1 {
        "1"@
    } else if d == 2 {
        "2"@
    } else if d == 3 {
        "3"@
    } else if d == 4 {
        "4"@
    } else if d == 5 {
        "5"@
    } else if d == 6 {
        "6"@
    } else if d == 7 {
        "7"@
    } else if d == 8 {
        "8"@
    } else {
        "9"@
    }
}

/// A piece of text repeated `k` times.
pub open spec fn spec_repeat(s: Seq<char>, k: int) -> Seq<char>
    decreases k,
{
    if k <= 0 {
        Seq::empty()
    } else {
        spec_repeat(s, k - 1) + s
    }
}

/// One animated cell: a grey foreground escape followed by the filled
/// glyph.
pub open spec fn spec_anim_cell(step: u64) -> Seq<char> {
    "\u{1b}[38;5;"@ + spec_dec_digits(232 + step as int) + "m"@ + "\u{2588}"@
}

/// The animated cells with indices `from` up to `to`.
pub open spec fn spec_anim_cells(anim: Seq<u64>, from: int, to: int) -> Seq<char>
    decreases to - from,
{
    if from >= to || from < 0 || to > anim.len() {
        Seq::empty()
    } else {
        spec_anim_cell(anim[from]) + spec_anim_cells(anim, from + 1, to)
    }
}

/// An animated run: its cells, closed by a colour reset. The reset is
/// written even when the run is empty.
pub open spec fn spec_anim_run(anim: Seq<u64>, from: int, to: int) -> Seq<char> {
    spec_anim_cells(anim, from, to) + "\u{1b}[0m"@
}

/// The partial-fill glyph for an eighth step. Step zero is blank and is
/// never drawn.
pub open spec fn spec_partial_glyph(step: int) -> Seq<char> {
    if step <= 0 {
        " "@
    } else if step == 1 {
        "\u{258f}"@
    } else if step == 2 {
        "\u{258e}"@
    } else if step == 3 {
        "\u{258d}"@
    } else if step == 4 {
        "\u{258c}"@
    } else if step == 5 {
        "\u{258b}"@
    } else if step == 6 {
        "\u{258a}"@
    } else if step == 7 {
        "\u{2589}"@
    } else {
        "\u{2588}"@
    }
}

/// The whole-cell index of the filled region's end: the completed share
/// scaled by how much of the upper bound the lower one covers, across the
/// bar's width.
#[verifier::opaque]
pub open spec fn spec_filled_index(agg: AggModel, lhi: int) -> int {
    if lhi > 0 {
        BAR_WIDTH * agg.progress * agg.lower_len / (SCALE * lhi)
    } else {
        0
    }
}

/// The eighth-step of the filled region's fractional cell.
#[verifier::opaque]
pub open spec fn spec_partial_step(agg: AggModel, lhi: int) -> int {
    if lhi > 0 {
        (BAR_WIDTH * agg.progress * agg.lower_len) % (SCALE * lhi) * 8 / (SCALE * lhi)
    } else {
        0
    }
}

/// The cell index where the running region ends.
#[verifier::opaque]
pub open spec fn spec_in_progress_index(agg: AggModel, lhi: int) -> int {
    if lhi > 0 {
        BAR_WIDTH * (agg.progress + agg.in_progress) * agg.lower_len / (SCALE * lhi)
    } else {
        0
    }
}

/// The cell index where the abandoned region begins.
#[verifier::opaque]
pub open spec fn spec_abandoned_index(agg: AggModel, lhi: int) -> int {
    if lhi > 0 {
        BAR_WIDTH * (SCALE * lhi - agg.abandoned * agg.lower_len) / (SCALE * lhi)
    } else {
        BAR_WIDTH as int
    }
}

/// Whether a determinate bar shows an animated (running) region.
pub open spec fn spec_bar_has_run(agg: AggModel, lhi: int) -> bool {
    let fi0 = spec_filled_index(agg, lhi);
    let step = spec_partial_step(agg, lhi);
    let ab = spec_abandoned_index(agg, lhi);
    let bumped = fi0 < ab && step > 0;
    let fi = if bumped {
        fi0 + 1
    } else {
        fi0
    };
    let ip = if bumped {
        max(spec_in_progress_index(agg, lhi), fi0 + 1)
    } else {
        spec_in_progress_index(agg, lhi)
    };
    fi < ip
}

/// Whether rendering the bar leaves an animation on screen.
pub open spec fn spec_render_animating(agg: AggModel) -> bool {
    match agg.upper_len {
        None => true,
        Some(lhi) => spec_bar_has_run(agg, lhi),
    }
}

/// The glyph cells of the bar between its two borders, with the colour
/// escapes around the abandoned tail when colour is on.
pub open spec fn spec_bar_cells(agg: AggModel, color: bool, anim: Seq<u64>) -> Seq<char> {
    match agg.upper_len {
        None => spec_anim_run(anim, 0, BAR_WIDTH as int),
        Some(lhi) => {
            let fi0 = spec_filled_index(agg, lhi);
            let step = spec_partial_step(agg, lhi);
            let ip0 = spec_in_progress_index(agg, lhi);
            let ab = spec_abandoned_index(agg, lhi);
            let bumped = fi0 < ab && step > 0;
            let fi = if bumped {
                fi0 + 1
            } else {
                fi0
            };
            let ip = if bumped {
                max(ip0, fi0 + 1)
            } else {
                ip0
            };
            spec_repeat("\u{2588}"@, fi0) + (if bumped {
                spec_partial_glyph(step)
            } else {
                Seq::<char>::empty()
            }) + spec_anim_run(anim, fi, ip) + spec_repeat(" "@, ab - ip) + spec_bar_tail(
                agg,
                lhi,
                color,
            )
        },
    }
}

/// The abandoned tail of a bar: crosses to the right edge, wrapped in red
/// when colour is on; empty when nothing was abandoned.
pub open spec fn spec_bar_tail(agg: AggModel, lhi: int, color: bool) -> Seq<char> {
    let ab = spec_abandoned_index(agg, lhi);
    if ab < BAR_WIDTH {
        (if color {
            "\u{1b}[31m"@
        } else {
            Seq::<char>::empty()
        }) + spec_repeat("X"@, BAR_WIDTH - ab) + (if color {
            "\u{1b}[0m"@
        } else {
            Seq::<char>::empty()
        })
    } else {
        Seq::<char>::empty()
    }
}

/// Whether the node is a composite split by weights, which is displayed as
/// a percentage.
pub open spec fn spec_is_weighted(node: BarModel) -> bool {
    match node.nested {
        Some(nested) => nested.meta is Weighted,
        None => false,
    }
}

/// The single fraction a bar has completed, in millionths, when its upper
/// length bound is known.
pub open spec fn spec_progress_ppm(agg: AggModel) -> Option<int> {
    match agg.upper_len {
        None => None,
        Some(lhi) => if lhi > 0 {
            Some(min(max(agg.progress * agg.lower_len / lhi, 0), SCALE as int))
        } else {
            Some(0)
        },
    }
}

/// The text after the bar: a percentage for a weighted composite, and a
/// `done/total` counter for everything else, followed by the resolved
/// message when there is one.
pub open spec fn spec_suffix(node: BarModel, agg: AggModel) -> Seq<char> {
    (if spec_is_weighted(node) {
        match spec_progress_ppm(agg) {
            Some(ppm) => " "@ + spec_dec_digits(ppm / 10_000) + "%"@,
            None => " ?%"@,
        }
    } else {
        " "@ + spec_dec_digits(agg.progress * agg.lower_len / ((SCALE * SCALE) as int)) + "/"@
            + (match agg.upper_len {
            Some(lhi) => spec_dec_digits(lhi / (SCALE as int)),
            None => "?"@,
        })
    }) + (match spec_message(node) {
        Some(m) => " "@ + m,
        None => Seq::empty(),
    })
}

/// One full rendered line for a node (without the trailing newline): left
/// border, the bar's cells, right border, then the counter and message.
pub open spec fn spec_render_line(node: BarModel, color: bool, anim: Seq<u64>) -> Seq<char> {
    "\u{2595}"@ + spec_bar_cells(spec_aggregate(node), color, anim) + "\u{258f}"@ + spec_suffix(
        node,
        spec_aggregate(node),
    )
}


/// Appends the decimal digits of a number.
pub(crate) fn push_decimal(out: &mut String, n: u64)
    ensures
        final(out)@ == old(out)@ + spec_dec_digits(n as int),
    decreases n,
{
    if n >= 10 {
        push_decimal(out, n / 10);
    }
    let d = n % 10;
    if d == 0 {
        out.append("0");
    } else if d == 1 {
        out.append("1");
    } else if d == 2 {
        out.append("2");
    } else if d == 3 {
        out.append("3");
    } else if d == 4 {
        out.append("4");
    } else if d == 5 {
        out.append("5");
    } else if d == 6 {
        out.append("6");
    } else if d == 7 {
        out.append("7");
    } else if d == 8 {
        out.append("8");
    } else {
        out.append("9");
    }
    proof {
        assert(final(out)@ =~= old(out)@ + spec_dec_digits(n as int));
    }
}

/// Appends a piece of text `k` times.
fn append_repeat(out: &mut String, piece: &str, k: u64)
    ensures
        final(out)@ == old(out)@ + spec_repeat(piece@, k as int),
{
    let mut i: u64 = 0;
    while i < k
        invariant
            i <= k,
            out@ == old(out)@ + spec_repeat(piece@, i as int),
        decreases k - i,
    {
        out.append(piece);
        proof {
            assert(out@ =~= old(out)@ + spec_repeat(piece@, i as int + 1));
        }
        i += 1;
    }
}

/// Snoc form of the animated cells: extending the range by one appends one
/// cell.
proof fn lemma_anim_cells_snoc(anim: Seq<u64>, from: int, i: int)
    requires
        0 <= from <= i < anim.len(),
    ensures
        spec_anim_cells(anim, from, i + 1) == spec_anim_cells(anim, from, i) + spec_anim_cell(
            anim[i],
        ),
    decreases i - from,
{
    if from < i {
        lemma_anim_cells_snoc(anim, from + 1, i);
        assert(spec_anim_cells(anim, from, i + 1) =~= spec_anim_cells(anim, from, i)
            + spec_anim_cell(anim[i]));
    } else {
        assert(spec_anim_cells(anim, i + 1, i + 1) =~= Seq::<char>::empty());
        assert(spec_anim_cells(anim, i, i) =~= Seq::<char>::empty());
        assert(spec_anim_cells(anim, i, i + 1) =~= spec_anim_cell(anim[i]) + spec_anim_cells(
            anim,
            i + 1,
            i + 1,
        ));
        assert(spec_anim_cells(anim, from, i + 1) =~= spec_anim_cells(anim, from, i)
            + spec_anim_cell(anim[i]));
    }
}

/// Appends the animated cells with indices `from` up to `to`, closed by a
/// colour reset.
fn render_indeterminate_bar(out: &mut String, from: usize, to: usize, anim: &Vec<u64>)
    requires
        to <= anim@.len(),
        forall|j: int| 0 <= j < anim@.len() ==> anim@[j] < BRIGHTNESS_STEPS,
    ensures
        final(out)@ == old(out)@ + spec_anim_run(anim@, from as int, to as int),
{
    let mut i: usize = from;
    while i < to
        invariant
            from <= i <= to || (i == from && from >= to),
            to <= anim@.len(),
            forall|j: int| 0 <= j < anim@.len() ==> anim@[j] < BRIGHTNESS_STEPS,
            out@ == old(out)@ + spec_anim_cells(anim@, from as int, i as int),
        decreases to - i,
    {
        out.append("\u{1b}[38;5;");
        push_decimal(out, 232 + anim[i]);
        out.append("m");
        out.append("\u{2588}");
        proof {
            lemma_anim_cells_snoc(anim@, from as int, i as int);
            assert(out@ =~= old(out)@ + spec_anim_cells(anim@, from as int, i as int + 1));
        }
        i += 1;
    }
    out.append("\u{1b}[0m");
}

/// Appends the partial-fill glyph for an eighth step between one and
/// eight.
fn push_partial_glyph(out: &mut String, step: u64)
    requires
        1 <= step <= 8,
    ensures
        final(out)@ == old(out)@ + spec_partial_glyph(step as int),
{
    if step == 1 {
        out.append("\u{258f}");
    } else if step == 2 {
        out.append("\u{258e}");
    } else if step == 3 {
        out.append("\u{258d}");
    } else if step == 4 {
        out.append("\u{258c}");
    } else if step == 5 {
        out.append("\u{258b}");
    } else if step == 6 {
        out.append("\u{258a}");
    } else if step == 7 {
        out.append("\u{2589}");
    } else {
        out.append("\u{2588}");
    }
}


/// The bar-cell indices all lie within the bar, and the partial step is at
/// most seven eighths.
proof fn lemma_index_bounds(agg: AggModel, lhi: int)
    requires
        agg_wf(agg),
        agg.upper_len == Some(lhi),
    ensures
        0 <= spec_filled_index(agg, lhi) <= BAR_WIDTH,
        0 <= spec_partial_step(agg, lhi) <= 7,
        0 <= spec_in_progress_index(agg, lhi) <= BAR_WIDTH,
        0 <= spec_abandoned_index(agg, lhi) <= BAR_WIDTH,
        spec_filled_index(agg, lhi) <= spec_in_progress_index(agg, lhi),
        agg.abandoned * agg.lower_len <= SCALE * lhi,
{
    reveal(spec_filled_index);
    reveal(spec_partial_step);
    reveal(spec_in_progress_index);
    reveal(spec_abandoned_index);
    if lhi > 0 {
        let den = SCALE * lhi;
        let p = agg.progress;
        let r = agg.in_progress;
        let a = agg.abandoned;
        let llo = agg.lower_len;
        assert(den >= SCALE && den <= SCALE * (u64::MAX as int)) by (nonlinear_arith)
            requires
                SCALE == 1_000_000,
                0 < lhi <= u64::MAX as int,
                den == SCALE * lhi,
        ;
        assert(0 <= BAR_WIDTH * p * llo <= BAR_WIDTH * (p + r) * llo) by (nonlinear_arith)
            requires
                0 <= p,
                0 <= r,
                0 <= llo,
                BAR_WIDTH == 20,
        ;
        assert(BAR_WIDTH * (p + r) * llo <= BAR_WIDTH * den) by (nonlinear_arith)
            requires
                0 <= p + r <= SCALE,
                0 <= llo <= lhi,
                den == SCALE * lhi,
                0 < lhi,
                BAR_WIDTH == 20,
                SCALE == 1_000_000,
        ;
        assert(a * llo <= den && 0 <= a * llo) by (nonlinear_arith)
            requires
                0 <= a <= SCALE,
                0 <= llo <= lhi,
                den == SCALE * lhi,
                0 < lhi,
                SCALE == 1_000_000,
        ;
        vstd::arithmetic::div_mod::lemma_div_is_ordered(
            BAR_WIDTH * p * llo,
            BAR_WIDTH * den,
            den,
        );
        vstd::arithmetic::div_mod::lemma_div_is_ordered(
            BAR_WIDTH * p * llo,
            BAR_WIDTH * (p + r) * llo,
            den,
        );
        vstd::arithmetic::div_mod::lemma_div_is_ordered(
            BAR_WIDTH * (p + r) * llo,
            BAR_WIDTH * den,
            den,
        );
        assert(0 <= BAR_WIDTH * (den - a * llo) <= BAR_WIDTH * den) by (nonlinear_arith)
            requires
                0 <= a * llo <= den,
                BAR_WIDTH == 20,
        ;
        vstd::arithmetic::div_mod::lemma_div_is_ordered(
            BAR_WIDTH * (den - a * llo),
            BAR_WIDTH * den,
            den,
        );
        assert(BAR_WIDTH * den == (BAR_WIDTH as int) * den) by (nonlinear_arith);
        vstd::arithmetic::div_mod::lemma_div_by_multiple(BAR_WIDTH as int, den);
        assert((BAR_WIDTH as int) * den / den == BAR_WIDTH);
        vstd::arithmetic::div_mod::lemma_div_pos_is_pos(BAR_WIDTH * p * llo, den);
        vstd::arithmetic::div_mod::lemma_div_pos_is_pos(BAR_WIDTH * (p + r) * llo, den);
        vstd::arithmetic::div_mod::lemma_div_pos_is_pos(BAR_WIDTH * (den - a * llo), den);
        let m = (BAR_WIDTH * p * llo) % den;
        assert(0 <= m < den);
        assert(m * 8 <= 8 * den - 8) by (nonlinear_arith)
            requires
                0 <= m <= den - 1,
        ;
        vstd::arithmetic::div_mod::lemma_div_is_ordered(m * 8, 8 * den - 8, den);
        vstd::arithmetic::div_mod::lemma_fundamental_div_mod_converse(
            8 * den - 8,
            den,
            7,
            den - 8,
        );
        vstd::arithmetic::div_mod::lemma_div_pos_is_pos(m * 8, den);
    } else {
        assert(agg.abandoned * agg.lower_len == 0 && SCALE * lhi == 0) by (nonlinear_arith)
            requires
                agg.lower_len == 0,
                lhi == 0,
        ;
    }
}

/// Computes the four cell indices of a determinate bar: filled end,
/// partial-fill step, running end, abandoned start.
#[verifier::spinoff_prover]
fn bar_indices(agg: &Aggregate, lhi: u64) -> (r: (u64, u64, u64, u64))
    requires
        agg_wf(agg.model()),
        agg.model().upper_len == Some(lhi as int),
    ensures
        r.0 as int == spec_filled_index(agg.model(), lhi as int),
        r.1 as int == spec_partial_step(agg.model(), lhi as int),
        r.2 as int == spec_in_progress_index(agg.model(), lhi as int),
        r.3 as int == spec_abandoned_index(agg.model(), lhi as int),
        r.0 <= BAR_WIDTH,
        r.1 <= 8,
        r.2 <= BAR_WIDTH,
        r.3 <= BAR_WIDTH,
        r.0 <= r.2,
{
    proof {
        reveal(spec_filled_index);
        reveal(spec_partial_step);
        reveal(spec_in_progress_index);
        reveal(spec_abandoned_index);
        lemma_index_bounds(agg.model(), lhi as int);
        assert((SCALE as int) * (lhi as int) <= (SCALE as int) * (u64::MAX as int))
            by (nonlinear_arith)
            requires
                lhi <= u64::MAX,
                SCALE == 1_000_000,
        ;
        assert(0 <= (BAR_WIDTH as int) * (agg.progress as int) * (agg.lower_len as int) <= 20 * (
        SCALE as int) * (u64::MAX as int)) by (nonlinear_arith)
            requires
                0 <= agg.progress <= SCALE,
                0 <= agg.lower_len <= u64::MAX,
                BAR_WIDTH == 20,
        ;
        assert(0 <= (BAR_WIDTH as int) * ((agg.progress as int) + (agg.in_progress as int)) * (
        agg.lower_len as int) <= 20 * (SCALE as int) * (u64::MAX as int)) by (nonlinear_arith)
            requires
                0 <= agg.progress,
                0 <= agg.in_progress,
                agg.progress + agg.in_progress <= SCALE,
                0 <= agg.lower_len <= u64::MAX,
                BAR_WIDTH == 20,
        ;
        assert(20 * (SCALE as int) * (u64::MAX as int) < u128::MAX as int);
    }
    if lhi > 0 {
        let den: u128 = (SCALE as u128) * (lhi as u128);
        let nump: u128 = (BAR_WIDTH as u128) * (agg.progress as u128) * (agg.lower_len as u128);
        let numr: u128 = (BAR_WIDTH as u128) * ((agg.progress as u128) + (
        agg.in_progress as u128)) * (agg.lower_len as u128);
        let numa: u128 = (BAR_WIDTH as u128) * (den - (agg.abandoned as u128) * (
        agg.lower_len as u128));
        let fi0 = (nump / den) as u64;
        let step = (nump % den * 8 / den) as u64;
        let ip0 = (numr / den) as u64;
        let ab = (numa / den) as u64;
        (fi0, step, ip0, ab)
    } else {
        (0, 0, 0, BAR_WIDTH)
    }
}

/// Draws the cells of one bar between its borders, and records whether an
/// animated region is on screen.
#[verifier::rlimit(60)]
#[verifier::spinoff_prover]
fn render_bar_cells(out: &mut String, agg: &Aggregate, color: bool, anim: &Vec<u64>, is_animating: &mut bool)
    requires
        agg_wf(agg.model()),
        anim@.len() >= BAR_WIDTH,
        forall|j: int| 0 <= j < anim@.len() ==> anim@[j] < BRIGHTNESS_STEPS,
    ensures
        final(out)@ == old(out)@ + spec_bar_cells(agg.model(), color, anim@),
        *final(is_animating) == (*old(is_animating) || spec_render_animating(agg.model())),
{
    match agg.upper_len {
        None => {
            *is_animating = true;
            render_indeterminate_bar(out, 0, BAR_WIDTH as usize, anim);
        },
        Some(lhi) => {
            let idx = bar_indices(agg, lhi);
            let fi0 = idx.0;
            let step = idx.1;
            let ip0 = idx.2;
            let ab = idx.3;
            let bumped = fi0 < ab && step > 0;
            let fi = if bumped {
                fi0 + 1
            } else {
                fi0
            };
            let ip = if bumped {
                if ip0 > fi0 + 1 {
                    ip0
                } else {
                    fi0 + 1
                }
            } else {
                ip0
            };
            let ghost base = old(out)@;
            let ghost part_fill = spec_repeat("\u{2588}"@, fi0 as int);
            let ghost part_partial = if bumped {
                spec_partial_glyph(step as int)
            } else {
                Seq::<char>::empty()
            };
            let ghost part_run = spec_anim_run(anim@, fi as int, ip as int);
            let ghost part_gap = spec_repeat(" "@, ab as int - ip as int);
            let ghost part_tail = spec_bar_tail(agg.model(), lhi as int, color);
            append_repeat(out, "\u{2588}", fi0);
            if bumped {
                push_partial_glyph(out, step);
            } else {
                proof {
                    assert(out@ =~= base + part_fill + part_partial);
                }
            }
            proof {
                assert(out@ == base + part_fill + part_partial);
            }
            if fi < ip {
                *is_animating = true;
            }
            render_indeterminate_bar(out, fi as usize, ip as usize, anim);
            proof {
                assert(out@ == base + part_fill + part_partial + part_run);
            }
            let gap = if ab > ip {
                ab - ip
            } else {
                0
            };
            append_repeat(out, " ", gap);
            proof {
                assert(spec_repeat(" "@, gap as int) == part_gap);
                assert(out@ == base + part_fill + part_partial + part_run + part_gap);
            }
            let ghost pre_tail = out@;
            if ab < BAR_WIDTH {
                if color {
                    out.append("\u{1b}[31m");
                }
                append_repeat(out, "X", BAR_WIDTH - ab);
                if color {
                    out.append("\u{1b}[0m");
                }
                proof {
                    let c1 = if color {
                        "\u{1b}[31m"@
                    } else {
                        Seq::<char>::empty()
                    };
                    let rep = spec_repeat("X"@, BAR_WIDTH - ab);
                    let c2 = if color {
                        "\u{1b}[0m"@
                    } else {
                        Seq::<char>::empty()
                    };
                    assert(out@ =~= pre_tail + (c1 + rep + c2));
                    assert(part_tail == c1 + rep + c2);
                }
            } else {
                proof {
                    assert(out@ =~= pre_tail + Seq::<char>::empty());
                    assert(part_tail =~= Seq::<char>::empty());
                }
            }
        },
    }
}

impl ProgressBarState {
    /// The single fraction this bar has completed, in millionths, when its
    /// aggregated upper length bound is known.
    pub fn progress(&self) -> (r: Option<u64>)
        ensures
            match r {
                Some(v) => spec_progress_ppm(spec_aggregate(self.model())) == Some(v as int),
                None => spec_progress_ppm(spec_aggregate(self.model())) is None,
            },
    {
        let agg = self.progress_count();
        match agg.upper_len {
            None => None,
            Some(lhi) => {
                if lhi > 0 {
                    proof {
                        assert(agg.progress as int * agg.lower_len as int <= u64::MAX as int
                            * u64::MAX as int) by (nonlinear_arith)
                            requires
                                agg.progress <= u64::MAX,
                                agg.lower_len <= u64::MAX,
                        ;
                    }
                    let num: u128 = (agg.progress as u128) * (agg.lower_len as u128);
                    let v: u128 = num / (lhi as u128);
                    if v > SCALE as u128 {
                        Some(SCALE)
                    } else {
                        Some(v as u64)
                    }
                } else {
                    Some(0)
                }
            },
        }
    }

    /// Renders this bar as one line of glyphs appended to the output: the
    /// filled, running, empty and abandoned regions between two borders,
    /// then the counter or percentage and the resolved message. The
    /// animation steps give the grey ramp per cell; the flag records
    /// whether anything animated is on screen.
    /// Renders this bar as one line of glyphs appended to the output: the
    /// filled, running, empty and abandoned regions between two borders,
    /// then the counter or percentage and the resolved message. The
    /// animation steps give the grey ramp per cell; the flag records
    /// whether anything animated is on screen.
    /// Writes the counter or percentage and the resolved message after the
    /// bar.
    fn render_suffix(&self, out: &mut String, agg: &Aggregate)
        requires
            agg.model() == spec_aggregate(self.model()),
            agg_wf(agg.model()),
        ensures
            final(out)@ == old(out)@ + spec_suffix(self.model(), spec_aggregate(self.model())),
    {
        let ghost base = old(out)@;
        let weighted = match &self.nested {
            Some(nb) => matches!(&nb.meta, NestedMeta::Weighted(_)),
            None => false,
        };
        if !weighted {
            out.append(" ");
            proof {
                assert(0 <= (agg.progress as int) * (agg.lower_len as int) <= (SCALE as int) * (
                u64::MAX as int)) by (nonlinear_arith)
                    requires
                        0 <= agg.progress <= SCALE,
                        0 <= agg.lower_len <= u64::MAX,
                ;
                vstd::arithmetic::div_mod::lemma_div_pos_is_pos(
                    (agg.progress as int) * (agg.lower_len as int),
                    (SCALE as int) * (SCALE as int),
                );
                vstd::arithmetic::div_mod::lemma_div_is_ordered(
                    (agg.progress as int) * (agg.lower_len as int),
                    (SCALE as int) * (u64::MAX as int),
                    (SCALE as int) * (SCALE as int),
                );
                assert((SCALE as int) * (u64::MAX as int) / ((SCALE as int) * (SCALE as int))
                    <= u64::MAX as int);
            }
            let counter: u128 = (agg.progress as u128) * (agg.lower_len as u128) / ((
            SCALE as u128) * (SCALE as u128));
            push_decimal(out, counter as u64);
            out.append("/");
            match agg.upper_len {
                Some(lhi) => {
                    push_decimal(out, lhi / SCALE);
                },
                None => {
                    out.append("?");
                },
            }
            proof {
                let head = " "@ + spec_dec_digits(
                    agg.model().progress * agg.model().lower_len / ((SCALE * SCALE) as int),
                ) + "/"@ + (match agg.model().upper_len {
                    Some(lhi) => spec_dec_digits(lhi / (SCALE as int)),
                    None => "?"@,
                });
                assert(out@ =~= base + head);
            }
        } else {
            match self.progress() {
                Some(ppm) => {
                    out.append(" ");
                    push_decimal(out, ppm / 10_000);
                    out.append("%");
                },
                None => {
                    out.append(" ?%");
                },
            }
            proof {
                let head = match spec_progress_ppm(agg.model()) {
                    Some(ppm) => " "@ + spec_dec_digits(ppm / 10_000) + "%"@,
                    None => " ?%"@,
                };
                assert(out@ =~= base + head);
            }
        }
        let ghost head_done = out@;
        match self.message() {
            Some(msg) => {
                out.append(" ");
                out.append(msg.as_str());
                proof {
                    assert(out@ =~= head_done + (" "@ + spec_message(self.model())->0));
                }
            },
            None => {},
        }
        proof {
            let head = head_done.subrange(base.len() as int, head_done.len() as int);
            assert(head_done =~= base + head);
            let tail = match spec_message(self.model()) {
                Some(m) => " "@ + m,
                None => Seq::<char>::empty(),
            };
            assert(out@ =~= head_done + tail);
            assert(spec_suffix(self.model(), spec_aggregate(self.model())) == head + tail);
            assert(base + head + tail =~= base + (head + tail));
        }
    }

    /// Renders this bar as one line of glyphs appended to the output: the
    /// filled, running, empty and abandoned regions between two borders,
    /// then the counter or percentage and the resolved message. The
    /// animation steps give the grey ramp per cell; the flag records
    /// whether anything animated is on screen.
    pub fn render(&self, out: &mut String, color: bool, anim: &Vec<u64>, is_animating: &mut bool)
        requires
            anim@.len() >= BAR_WIDTH,
            forall|j: int| 0 <= j < anim@.len() ==> anim@[j] < BRIGHTNESS_STEPS,
        ensures
            final(out)@ == old(out)@ + spec_render_line(self.model(), color, anim@),
            *final(is_animating) == (*old(is_animating) || spec_render_animating(
                spec_aggregate(self.model()),
            )),
    {
        let agg = self.progress_count();
        out.append("\u{2595}");
        render_bar_cells(out, &agg, color, anim, is_animating);
        out.append("\u{258f}");
        self.render_suffix(out, &agg);
        proof {
            let b1 = "\u{2595}"@;
            let cells = spec_bar_cells(spec_aggregate(self.model()), color, anim@);
            let b2 = "\u{258f}"@;
            let suffix = spec_suffix(self.model(), spec_aggregate(self.model()));
            assert(final(out)@ == old(out)@ + b1 + cells + b2 + suffix);
            assert(old(out)@ + b1 + cells + b2 + suffix =~= old(out)@ + (b1 + cells + b2
                + suffix));
        }
    }
}

} // verus!
