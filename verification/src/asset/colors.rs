//! The main colors of an image.

use vstd::prelude::*;
use vstd::string::*;

use crate::css;
use crate::text;

verus! {

/// The most colors that are told apart.
pub const MAX_COLORS: usize = 8;

/// About how many pixels of an image are looked at.
pub const SAMPLE_TARGET: u64 = 4096;

/// A color, in steps of thirty-two for each channel.
#[derive(Debug, Clone, Copy, PartialEq, Eq, Structural)]
pub struct Bucket {
    pub r: u8,
    pub g: u8,
    pub b: u8,
}

/// How often a color was seen.
#[derive(Debug, Clone, Copy, PartialEq, Eq, Structural)]
pub struct Tally {
    pub bucket: Bucket,
    pub count: u64,
}

/// The main colors, the most frequent first, and how many pixels were looked at.
#[derive(Debug)]
pub struct Palette {
    pub tallies: Vec<Tally>,
    pub total: u64,
}

// ---------------------------------------------------------------------------
// What is counted
// ---------------------------------------------------------------------------

pub open spec fn level(v: u8) -> u8 {
    ((v / 32) * 32) as u8
}

/// The color of a pixel; a pixel is three bytes.
pub open spec fn bucket_at(pixels: Seq<u8>, i: int) -> Bucket {
    Bucket {
        r: level(pixels[3 * i]),
        g: level(pixels[3 * i + 1]),
        b: level(pixels[3 * i + 2]),
    }
}

/// Every how-manieth pixel of an image is looked at.
pub open spec fn stride(width: u32, height: u32) -> int {
    if (width * height) / 4096 == 0 {
        1
    } else {
        (width * height) / 4096
    }
}

/// The colors of the pixels that are looked at, as far as they come before pixel `end`.
pub open spec fn samples_before(pixels: Seq<u8>, step: int, end: int) -> Seq<Bucket>
    decreases end,
{
    if end <= 0 || step <= 0 {
        Seq::empty()
    } else if (end - 1) % step == 0 {
        samples_before(pixels, step, end - 1).push(bucket_at(pixels, end - 1))
    } else {
        samples_before(pixels, step, end - 1)
    }
}

/// The colors of the pixels that are looked at: the first one, and then every `step`th.
pub open spec fn samples(pixels: Seq<u8>, step: int) -> Seq<Bucket> {
    samples_before(pixels, step, pixels.len() as int / 3)
}

/// How often a color occurs.
pub open spec fn count_of(s: Seq<Bucket>, b: Bucket) -> nat
    decreases s.len(),
{
    if s.len() == 0 {
        0
    } else {
        count_of(s.drop_last(), b) + (if s.last() == b {
            1nat
        } else {
            0nat
        })
    }
}

/// The tallies count colors that occur, each once, and rightly.
pub open spec fn counts_rightly(ts: Seq<Tally>, s: Seq<Bucket>) -> bool {
    &&& forall|i: int|
        0 <= i < ts.len() ==> (#[trigger] ts[i]).count == count_of(s, ts[i].bucket) && ts[i].count
            > 0
    &&& forall|i: int, j: int|
        0 <= i < j < ts.len() ==> (#[trigger] ts[i]).bucket != (#[trigger] ts[j]).bucket
}

/// One of the tallies is for the color.
pub open spec fn tallied(ts: Seq<Tally>, b: Bucket) -> bool {
    exists|i: int| 0 <= i < ts.len() && (#[trigger] ts[i]).bucket == b
}

/// The tallies are those of the most frequent colors: no tally comes before a larger one, and a
/// color is left out only where there are eight that are as frequent.
pub open spec fn is_palette(ts: Seq<Tally>, s: Seq<Bucket>) -> bool {
    &&& counts_rightly(ts, s)
    &&& ts.len() <= MAX_COLORS
    &&& forall|i: int, j: int|
        0 <= i < j < ts.len() ==> (#[trigger] ts[i]).count >= (#[trigger] ts[j]).count
    &&& forall|b: Bucket|
        #![trigger tallied(ts, b)]
        count_of(s, b) > 0 && !tallied(ts, b) ==> ts.len() == MAX_COLORS && forall|i: int|
            0 <= i < ts.len() ==> (#[trigger] ts[i]).count >= count_of(s, b)
}

/// The upper-case hexadecimal digit.
pub open spec fn hex_digit(d: int) -> char {
    if d < 10 {
        (48 + d) as char
    } else {
        (55 + d) as char
    }
}

pub open spec fn hex_byte(v: u8) -> Seq<char> {
    seq![hex_digit((v / 16) as int), hex_digit((v % 16) as int)]
}

/// The name of a color.
pub open spec fn hex_name(b: Bucket) -> Seq<char> {
    seq!['#'] + hex_byte(b.r) + hex_byte(b.g) + hex_byte(b.b)
}

// ---------------------------------------------------------------------------
// Counting
// ---------------------------------------------------------------------------

proof fn lemma_count_bounded(s: Seq<Bucket>, b: Bucket)
    ensures
        count_of(s, b) <= s.len(),
    decreases s.len(),
{
    if s.len() > 0 {
        lemma_count_bounded(s.drop_last(), b);
    }
}

/// Pixels between two that are looked at add nothing.
proof fn lemma_skipped(pixels: Seq<u8>, step: int, at: int, end: int)
    requires
        step > 0,
        at >= 0,
        at % step == 0,
        at < end <= at + step,
    ensures
        samples_before(pixels, step, end) == samples_before(pixels, step, at).push(
            bucket_at(pixels, at),
        ),
    decreases end - at,
{
    if end > at + 1 {
        lemma_skipped(pixels, step, at, end - 1);
        let over = end - 1 - at;
        vstd::arithmetic::div_mod::lemma_fundamental_div_mod(at, step);
        vstd::arithmetic::div_mod::lemma_mod_multiples_vanish(at / step, over, step);
        vstd::arithmetic::div_mod::lemma_small_mod(over as nat, step as nat);
    }
}

fn add_sample(ts: &mut Vec<Tally>, b: Bucket, Ghost(s): Ghost<Seq<Bucket>>)
    requires
        counts_rightly(old(ts)@, s),
        forall|b: Bucket| count_of(s, b) > 0 ==> #[trigger] tallied(old(ts)@, b),
        s.len() < u64::MAX,
    ensures
        counts_rightly(final(ts)@, s.push(b)),
        forall|c: Bucket| count_of(s.push(b), c) > 0 ==> #[trigger] tallied(final(ts)@, c),
{
    let ghost before = ts@;
    proof {
        assert(s.push(b).drop_last() =~= s);
        lemma_count_bounded(s, b);
    }
    let mut i: usize = 0;
    while i < ts.len()
        invariant
            i <= ts@.len(),
            ts@ == before,
            counts_rightly(before, s),
            forall|c: Bucket| count_of(s, c) > 0 ==> #[trigger] tallied(before, c),
            s.len() < u64::MAX,
            s.push(b).drop_last() == s,
            count_of(s, b) <= s.len(),
            forall|k: int| 0 <= k < i ==> (#[trigger] ts@[k]).bucket != b,
        decreases ts.len() - i,
    {
        if ts[i].bucket == b {
            let count = ts[i].count;
            ts[i] = Tally { bucket: b, count: count + 1 };
            proof {
                assert forall|c: Bucket| count_of(s.push(b), c) > 0 implies #[trigger] tallied(
                    ts@,
                    c,
                ) by {
                    if c == b {
                        assert(ts@[i as int].bucket == b);
                    } else {
                        assert(tallied(before, c));
                        let k = choose|k: int|
                            0 <= k < before.len() && (#[trigger] before[k]).bucket == c;
                        assert(ts@[k].bucket == c);
                    }
                }
                assert forall|k: int| 0 <= k < ts@.len() implies (#[trigger] ts@[k]).count
                    == count_of(s.push(b), ts@[k].bucket) && ts@[k].count > 0 by {
                    assert(before[k].count == count_of(s, before[k].bucket));
                    if k != i {
                        assert(ts@[k] == before[k]);
                        if k < i {
                            assert(before[k].bucket != before[i as int].bucket);
                        } else {
                            assert(before[i as int].bucket != before[k].bucket);
                        }
                    }
                }
                assert forall|j: int, k: int| 0 <= j < k < ts@.len() implies (
                #[trigger] ts@[j]).bucket != (#[trigger] ts@[k]).bucket by {
                    assert(before[j].bucket != before[k].bucket);
                }
            }
            return;
        }
        i = i + 1;
    }
    proof {
        if count_of(s, b) > 0 {
            assert(tallied(before, b));
        }
    }
    ts.push(Tally { bucket: b, count: 1 });
    proof {
        assert forall|c: Bucket| count_of(s.push(b), c) > 0 implies #[trigger] tallied(ts@, c) by {
            if c == b {
                assert(ts@[before.len() as int].bucket == b);
            } else {
                assert(tallied(before, c));
                let k = choose|k: int| 0 <= k < before.len() && (#[trigger] before[k]).bucket == c;
                assert(ts@[k].bucket == c);
            }
        }
        assert forall|k: int| 0 <= k < ts@.len() implies (#[trigger] ts@[k]).count == count_of(
            s.push(b),
            ts@[k].bucket,
        ) && ts@[k].count > 0 by {
            if k < before.len() {
                assert(ts@[k] == before[k]);
            }
        }
    }
}

fn tally(pixels: &Vec<u8>, step: usize) -> (r: (Vec<Tally>, u64))
    requires
        step > 0,
    ensures
        counts_rightly(r.0@, samples(pixels@, step as int)),
        forall|b: Bucket|
            count_of(samples(pixels@, step as int), b) > 0 ==> #[trigger] tallied(r.0@, b),
        r.1 == samples(pixels@, step as int).len(),
{
    let count: usize = pixels.len() / 3;
    let mut ts: Vec<Tally> = Vec::new();
    let mut total: u64 = 0;
    let mut i: usize = 0;
    let ghost s = Seq::<Bucket>::empty();
    while i < count
        invariant
            step > 0,
            count == pixels@.len() / 3,
            (i as int) % (step as int) == 0,
            count * 3 <= pixels@.len() <= usize::MAX,
            s == (if i < count {
                samples_before(pixels@, step as int, i as int)
            } else {
                samples(pixels@, step as int)
            }),
            counts_rightly(ts@, s),
            forall|b: Bucket| count_of(s, b) > 0 ==> #[trigger] tallied(ts@, b),
            total == s.len(),
            s.len() <= i,
        decreases count - i,
    {
        let base: usize = i * 3;
        let b = Bucket {
            r: (pixels[base] / 32) * 32,
            g: (pixels[base + 1] / 32) * 32,
            b: (pixels[base + 2] / 32) * 32,
        };
        add_sample(&mut ts, b, Ghost(s));
        total = total + 1;
        let ghost next: int = if i + step < count {
            i + step
        } else {
            count as int
        };
        proof {
            lemma_skipped(pixels@, step as int, i as int, next);
            assert(b == bucket_at(pixels@, i as int));
            s = s.push(b);
        }
        if step >= count - i {
            proof {
                assert(next == count);
            }
            return (ts, total);
        }
        proof {
            vstd::arithmetic::div_mod::lemma_mod_add_multiples_vanish(i as int, step as int);
        }
        i = i + step;
    }
    (ts, total)
}

fn largest(ts: &Vec<Tally>) -> (r: usize)
    requires
        ts@.len() > 0,
    ensures
        r < ts@.len(),
        forall|k: int| 0 <= k < ts@.len() ==> (#[trigger] ts@[k]).count <= ts@[r as int].count,
{
    let mut best: usize = 0;
    let mut i: usize = 1;
    while i < ts.len()
        invariant
            best < i <= ts@.len(),
            forall|k: int| 0 <= k < i ==> (#[trigger] ts@[k]).count <= ts@[best as int].count,
        decreases ts.len() - i,
    {
        if ts[i].count > ts[best].count {
            best = i;
        }
        i = i + 1;
    }
    best
}

/// The most frequent of the colors.
fn most_frequent(all: Vec<Tally>, Ghost(s): Ghost<Seq<Bucket>>) -> (r: Vec<Tally>)
    requires
        counts_rightly(all@, s),
        forall|b: Bucket| count_of(s, b) > 0 ==> #[trigger] tallied(all@, b),
    ensures
        is_palette(r@, s),
{
    let mut rest = all;
    let mut out: Vec<Tally> = Vec::new();
    while out.len() < MAX_COLORS && rest.len() > 0
        invariant
            out@.len() <= MAX_COLORS,
            counts_rightly(out@, s),
            counts_rightly(rest@, s),
            forall|i: int, j: int|
                0 <= i < out@.len() && 0 <= j < rest@.len() ==> (#[trigger] out@[i]).bucket != (
                #[trigger] rest@[j]).bucket && out@[i].count >= rest@[j].count,
            forall|i: int, j: int|
                0 <= i < j < out@.len() ==> (#[trigger] out@[i]).count >= (
                #[trigger] out@[j]).count,
            forall|b: Bucket|
                #![trigger tallied(out@, b)]
                count_of(s, b) > 0 ==> tallied(out@, b) || tallied(rest@, b),
        decreases rest.len(),
    {
        let at = largest(&rest);
        let ghost old_rest = rest@;
        let ghost old_out = out@;
        let t = rest.remove(at);
        out.push(t);
        proof {
            assert forall|j: int| 0 <= j < rest@.len() implies #[trigger] rest@[j] == old_rest[(
            if j < at {
                j
            } else {
                j + 1
            })] by {}
            assert forall|b: Bucket| #![trigger tallied(out@, b)] count_of(s, b) > 0 implies tallied(
                out@,
                b,
            ) || tallied(rest@, b) by {
                assert(tallied(old_out, b) || tallied(old_rest, b));
                if tallied(old_out, b) {
                    let k = choose|k: int|
                        0 <= k < old_out.len() && (#[trigger] old_out[k]).bucket == b;
                    assert(out@[k].bucket == b);
                } else {
                    let k = choose|k: int|
                        0 <= k < old_rest.len() && (#[trigger] old_rest[k]).bucket == b;
                    if k == at {
                        assert(out@[old_out.len() as int].bucket == b);
                    } else if k < at {
                        assert(rest@[k].bucket == b);
                    } else {
                        assert(rest@[k - 1].bucket == b);
                    }
                }
            }
            assert forall|i: int, j: int| 0 <= i < j < rest@.len() implies (
            #[trigger] rest@[i]).bucket != (#[trigger] rest@[j]).bucket by {
                let a = if i < at {
                    i
                } else {
                    i + 1
                };
                let b = if j < at {
                    j
                } else {
                    j + 1
                };
                assert(old_rest[a].bucket != old_rest[b].bucket);
            }
            assert forall|i: int, j: int| 0 <= i < out@.len() && 0 <= j < rest@.len() implies (
            #[trigger] out@[i]).bucket != (#[trigger] rest@[j]).bucket && out@[i].count
                >= rest@[j].count by {
                let b = if j < at {
                    j
                } else {
                    j + 1
                };
                assert(rest@[j] == old_rest[b]);
                if i < old_out.len() {
                    assert(out@[i] == old_out[i]);
                } else {
                    assert(out@[i] == old_rest[at as int]);
                    if b < at {
                        assert(old_rest[b].bucket != old_rest[at as int].bucket);
                    } else {
                        assert(old_rest[at as int].bucket != old_rest[b].bucket);
                    }
                }
            }
            assert forall|i: int, j: int| 0 <= i < j < out@.len() implies (
            #[trigger] out@[i]).bucket != (#[trigger] out@[j]).bucket && out@[i].count
                >= out@[j].count by {
                if j == old_out.len() {
                    assert(old_out[i].bucket != old_rest[at as int].bucket);
                }
            }
        }
    }
    proof {
        assert forall|b: Bucket| #![trigger tallied(out@, b)] count_of(s, b) > 0 && !tallied(
            out@,
            b,
        ) implies out@.len() == MAX_COLORS && forall|i: int|
            0 <= i < out@.len() ==> (#[trigger] out@[i]).count >= count_of(s, b) by {
            assert(tallied(rest@, b));
            let k = choose|k: int| 0 <= k < rest@.len() && (#[trigger] rest@[k]).bucket == b;
            assert(rest@[k].count == count_of(s, b));
        }
    }
    out
}

/// The palette is that of an image, given as three bytes for each pixel. An image without pixels has
/// no colors.
pub open spec fn is_palette_of(p: Palette, pixels: Seq<u8>, width: u32, height: u32) -> bool {
    if width == 0 || height == 0 {
        p.tallies@.len() == 0 && p.total == 0
    } else {
        let seen = samples(pixels, stride(width, height));
        is_palette(p.tallies@, seen) && p.total == seen.len()
    }
}

/// The main colors of an image, given as three bytes for each pixel. An image without pixels has
/// none.
pub fn extract_colors(pixels: &Vec<u8>, width: u32, height: u32) -> (r: Palette)
    ensures
        is_palette_of(r, pixels@, width, height),
{
    if width == 0 || height == 0 {
        return Palette { tallies: Vec::new(), total: 0 };
    }
    proof {
        assert(0 <= width * height <= u32::MAX * u32::MAX) by (nonlinear_arith)
            requires
                0 <= width <= u32::MAX,
                0 <= height <= u32::MAX,
        ;
    }
    let area: u64 = width as u64 * height as u64;
    let wide: u64 = area / SAMPLE_TARGET;
    let count: usize = pixels.len() / 3;
    let step: usize = if wide == 0 {
        1
    } else if wide <= usize::MAX as u64 {
        wide as usize
    } else {
        usize::MAX
    };
    let ghost exact = stride(width, height);
    let (all, total) = tally(pixels, step);
    proof {
        if step as int != exact {
            lemma_wide_steps(pixels@, step as int, exact);
        }
    }
    let ghost seen = samples(pixels@, exact);
    Palette { tallies: most_frequent(all, Ghost(seen)), total }
}

/// Where a step leads past the last pixel, only the first pixel is looked at.
proof fn lemma_wide_steps(pixels: Seq<u8>, a: int, b: int)
    requires
        a > 0,
        b > 0,
        pixels.len() as int / 3 <= a,
        pixels.len() as int / 3 <= b,
    ensures
        samples(pixels, a) == samples(pixels, b),
{
    let end = pixels.len() as int / 3;
    if end > 0 {
        assert(0int % a == 0 && 0int % b == 0) by (nonlinear_arith)
            requires
                a > 0,
                b > 0,
        ;
        lemma_skipped(pixels, a, 0, end);
        lemma_skipped(pixels, b, 0, end);
    }
}

fn push_hex(out: &mut String, v: u8)
    ensures
        final(out)@ == old(out)@ + hex_byte(v),
{
    let high: u8 = v / 16;
    let low: u8 = v % 16;
    let h: char = if high < 10 {
        (48u8 + high) as char
    } else {
        (55u8 + high) as char
    };
    let l: char = if low < 10 {
        (48u8 + low) as char
    } else {
        (55u8 + low) as char
    };
    out.push(h);
    out.push(l);
    proof {
        assert(out@ =~= old(out)@ + hex_byte(v));
    }
}

/// The name of a color.
pub fn color_name(b: &Bucket) -> (r: String)
    ensures
        r@ == hex_name(*b),
{
    let mut out = String::new();
    out.push('#');
    proof {
        assert(out@ =~= seq!['#']);
    }
    push_hex(&mut out, b.r);
    push_hex(&mut out, b.g);
    push_hex(&mut out, b.b);
    out
}

/// The names of the colors of a palette.
pub fn color_names(palette: &Palette) -> (r: Vec<String>)
    ensures
        text::texts(r@) == palette.tallies@.map_values(|t: Tally| hex_name(t.bucket)),
{
    let mut out: Vec<String> = Vec::new();
    let mut i: usize = 0;
    while i < palette.tallies.len()
        invariant
            i <= palette.tallies@.len(),
            out@.len() == i,
            forall|k: int|
                0 <= k < i ==> (#[trigger] out@[k])@ == hex_name(palette.tallies@[k].bucket),
        decreases palette.tallies.len() - i,
    {
        out.push(color_name(&palette.tallies[i].bucket));
        i = i + 1;
    }
    proof {
        assert(text::texts(out@) =~= palette.tallies@.map_values(|t: Tally| hex_name(t.bucket)));
    }
    out
}

// ---------------------------------------------------------------------------
// Laws
// ---------------------------------------------------------------------------

/// The sum of the tallies.
pub open spec fn sum_of(ts: Seq<Tally>) -> nat
    decreases ts.len(),
{
    if ts.len() == 0 {
        0
    } else {
        sum_of(ts.drop_last()) + ts.last().count as nat
    }
}

pub open spec fn sum_counted(ts: Seq<Tally>, s: Seq<Bucket>) -> nat
    decreases ts.len(),
{
    if ts.len() == 0 {
        0
    } else {
        sum_counted(ts.drop_last(), s) + count_of(s, ts.last().bucket)
    }
}

proof fn lemma_one_more(ts: Seq<Tally>, s: Seq<Bucket>)
    requires
        s.len() > 0,
        forall|i: int, j: int|
            0 <= i < j < ts.len() ==> (#[trigger] ts[i]).bucket != (#[trigger] ts[j]).bucket,
    ensures
        sum_counted(ts, s) <= sum_counted(ts, s.drop_last()) + 1,
        !tallied(ts, s.last()) ==> sum_counted(ts, s) == sum_counted(ts, s.drop_last()),
    decreases ts.len(),
{
    if ts.len() > 0 {
        let front = ts.drop_last();
        lemma_one_more(front, s);
        if ts.last().bucket == s.last() {
            assert(!tallied(front, s.last())) by {
                assert forall|i: int| 0 <= i < front.len() implies (#[trigger] front[i]).bucket
                    != s.last() by {
                    assert(ts[i].bucket != ts[ts.len() - 1].bucket);
                }
            }
            assert(ts[ts.len() - 1].bucket == s.last());
            assert(tallied(ts, s.last()));
        } else {
            if tallied(front, s.last()) {
                let k = choose|k: int|
                    0 <= k < front.len() && (#[trigger] front[k]).bucket == s.last();
                assert(ts[k].bucket == s.last());
            }
        }
    }
}

proof fn lemma_sum_bounded(ts: Seq<Tally>, s: Seq<Bucket>)
    requires
        forall|i: int, j: int|
            0 <= i < j < ts.len() ==> (#[trigger] ts[i]).bucket != (#[trigger] ts[j]).bucket,
    ensures
        sum_counted(ts, s) <= s.len(),
    decreases s.len(),
{
    if s.len() > 0 {
        lemma_sum_bounded(ts, s.drop_last());
        lemma_one_more(ts, s);
    } else {
        lemma_sum_of_none(ts, s);
    }
}

proof fn lemma_sum_of_none(ts: Seq<Tally>, s: Seq<Bucket>)
    requires
        s.len() == 0,
    ensures
        sum_counted(ts, s) == 0,
    decreases ts.len(),
{
    if ts.len() > 0 {
        lemma_sum_of_none(ts.drop_last(), s);
    }
}

proof fn lemma_sums_agree(ts: Seq<Tally>, s: Seq<Bucket>)
    requires
        forall|i: int| 0 <= i < ts.len() ==> (#[trigger] ts[i]).count == count_of(s, ts[i].bucket),
    ensures
        sum_of(ts) == sum_counted(ts, s),
    decreases ts.len(),
{
    if ts.len() > 0 {
        let front = ts.drop_last();
        assert forall|i: int| 0 <= i < front.len() implies (#[trigger] front[i]).count == count_of(
            s,
            front[i].bucket,
        ) by {
            assert(ts[i].count == count_of(s, ts[i].bucket));
        }
        lemma_sums_agree(front, s);
        assert(ts[ts.len() - 1].count == count_of(s, ts[ts.len() - 1].bucket));
    }
}

/// The main colors together make up no more than the whole image.
pub proof fn law_shares_fit_in_the_whole(ts: Seq<Tally>, s: Seq<Bucket>)
    requires
        is_palette(ts, s),
    ensures
        sum_of(ts) <= s.len(),
{
    lemma_sums_agree(ts, s);
    lemma_sum_bounded(ts, s);
}

/// The name of a color is read as the color.
pub proof fn law_color_name_is_read(b: Bucket)
    ensures
        css::hex_color(hex_name(b)) == Some((b.r as int, b.g as int, b.b as int)),
{
    let r = (hex_digit((b.r / 16) as int), hex_digit((b.r % 16) as int));
    let g = (hex_digit((b.g / 16) as int), hex_digit((b.g % 16) as int));
    let l = (hex_digit((b.b / 16) as int), hex_digit((b.b % 16) as int));
    css::law_six_digits_are_three_numbers(r, g, l);
    assert(hex_name(b) =~= css::behind_sign(seq![r.0, r.1, g.0, g.1, l.0, l.1]));
}

/// Each channel of a pixel is rounded down to a multiple of thirty-two.
pub proof fn law_channels_are_rounded_down(pixels: Seq<u8>, i: int)
    requires
        0 <= i,
        3 * i + 2 < pixels.len(),
    ensures
        ({
            let b = bucket_at(pixels, i);
            &&& b.r % 32 == 0 && b.r <= pixels[3 * i] < b.r + 32
            &&& b.g % 32 == 0 && b.g <= pixels[3 * i + 1] < b.g + 32
            &&& b.b % 32 == 0 && b.b <= pixels[3 * i + 2] < b.b + 32
        }),
{
}

/// With a step of one every pixel is looked at, in order.
pub proof fn law_small_images_are_read_whole(pixels: Seq<u8>, n: int)
    requires
        0 <= n,
    ensures
        samples_before(pixels, 1, n).len() == n,
        forall|i: int|
            0 <= i < n ==> #[trigger] samples_before(pixels, 1, n)[i] == bucket_at(pixels, i),
    decreases n,
{
    if n > 0 {
        law_small_images_are_read_whole(pixels, n - 1);
        assert((n - 1) % 1 == 0);
    }
}

/// Of an image with less than the target every pixel is looked at; of a larger one, so many that
/// at least the target is.
pub proof fn law_enough_pixels_are_read(width: u32, height: u32)
    ensures
        stride(width, height) >= 1,
        width * height < 2 * SAMPLE_TARGET ==> stride(width, height) == 1,
        width * height >= SAMPLE_TARGET ==> (width * height) / stride(width, height)
            >= SAMPLE_TARGET,
{
    let area: int = width * height;
    let step: int = stride(width, height);
    assert(area >= 0) by (nonlinear_arith)
        requires
            area == width * height,
            width >= 0,
            height >= 0,
    ;
    if area >= SAMPLE_TARGET {
        assert(step == area / 4096);
        assert(area >= step * 4096);
        assert(area / step >= 4096) by (nonlinear_arith)
            requires
                step >= 1,
                area >= step * 4096,
        ;
    }
}

} // verus!
