use vstd::prelude::*;
use crate::color::{Color, channel, color_distance, distance};
use crate::pipeline::copy_range;

verus! {

/// Largest pixel count of an image the container can hold (4097 x 4097).
pub const MAX_PIXELS: usize = 16785409;

/// Smallest value of channel `ch` over the non-empty `s`.
pub open spec fn channel_min(s: Seq<Color>, ch: int) -> int
    decreases s.len(),
{
    if s.len() <= 1 {
        channel(s[0], ch)
    } else {
        let m = channel_min(s.drop_last(), ch);
        if channel(s.last(), ch) < m {
            channel(s.last(), ch)
        } else {
            m
        }
    }
}

/// Largest value of channel `ch` over the non-empty `s`.
pub open spec fn channel_max(s: Seq<Color>, ch: int) -> int
    decreases s.len(),
{
    if s.len() <= 1 {
        channel(s[0], ch)
    } else {
        let m = channel_max(s.drop_last(), ch);
        if channel(s.last(), ch) > m {
            channel(s.last(), ch)
        } else {
            m
        }
    }
}

pub open spec fn channel_range(s: Seq<Color>, ch: int) -> int {
    channel_max(s, ch) - channel_min(s, ch)
}

/// The channel with the widest range; red wins over green and blue, green
/// over blue, when ranges tie.
pub open spec fn widest_channel(s: Seq<Color>) -> int {
    let rr = channel_range(s, 0);
    let rg = channel_range(s, 1);
    let rb = channel_range(s, 2);
    if rr >= rg && rr >= rb {
        0
    } else if rg >= rr && rg >= rb {
        1
    } else {
        2
    }
}

/// Sum of channel `ch` over `s`.
pub open spec fn channel_sum(s: Seq<Color>, ch: int) -> int
    decreases s.len(),
{
    if s.len() == 0 {
        0
    } else {
        channel_sum(s.drop_last(), ch) + channel(s.last(), ch)
    }
}

/// The per-channel mean of the non-empty `s`, truncated.
pub open spec fn average(s: Seq<Color>) -> Color {
    Color {
        r: (channel_sum(s, 0) / (s.len() as int)) as u8,
        g: (channel_sum(s, 1) / (s.len() as int)) as u8,
        b: (channel_sum(s, 2) / (s.len() as int)) as u8,
    }
}

/// Sum of the squared distances of the colors of `s` from `a`.
pub open spec fn deviation_sum(s: Seq<Color>, a: Color) -> int
    decreases s.len(),
{
    if s.len() == 0 {
        0
    } else {
        deviation_sum(s.drop_last(), a) + distance(s.last(), a)
    }
}

/// Mean squared distance from the average color, truncated; 0 when empty.
pub open spec fn variance(s: Seq<Color>) -> int {
    if s.len() == 0 {
        0
    } else {
        deviation_sum(s, average(s)) / (s.len() as int)
    }
}

/// The colors of `s` whose channel `ch` equals `v`, in their order.
pub open spec fn with_key(s: Seq<Color>, ch: int, v: int) -> Seq<Color>
    decreases s.len(),
{
    if s.len() == 0 {
        seq![]
    } else {
        let rest = with_key(s.drop_last(), ch, v);
        if channel(s.last(), ch) == v {
            rest.push(s.last())
        } else {
            rest
        }
    }
}

/// The colors of `s` whose channel `ch` is below `v`, ordered by that
/// channel, keeping their order among equals.
pub open spec fn keys_below(s: Seq<Color>, ch: int, v: int) -> Seq<Color>
    decreases v,
{
    if v <= 0 {
        seq![]
    } else {
        keys_below(s, ch, v - 1) + with_key(s, ch, v - 1)
    }
}

/// `s` sorted by channel `ch`, stable: the colors of each channel value in
/// turn, in their order in `s` (`lemma_sorted_by_channel` shows it is a
/// sorted permutation of `s`).
pub open spec fn sorted_by_channel(s: Seq<Color>, ch: int) -> Seq<Color> {
    keys_below(s, ch, 256)
}

/// The two halves that splitting a bucket gives: its colors sorted along the
/// widest channel, cut at half the length (the lower half is the shorter).
pub open spec fn split_halves(s: Seq<Color>) -> (Seq<Color>, Seq<Color>) {
    let sorted = sorted_by_channel(s, widest_channel(s));
    let mid = s.len() / 2;
    (sorted.subrange(0, mid as int), sorted.subrange(mid as int, s.len() as int))
}

/// The position of the bucket of largest variance; the last one on ties.
pub open spec fn widest_bucket_upto(bs: Seq<Seq<Color>>, n: int) -> int
    decreases n,
{
    if n <= 1 {
        0
    } else {
        let k = widest_bucket_upto(bs, n - 1);
        if variance(bs[n - 1]) >= variance(bs[k]) {
            n - 1
        } else {
            k
        }
    }
}

/// `bs` with its entry `i` replaced by the last entry and the last dropped.
pub open spec fn swap_removed(bs: Seq<Seq<Color>>, i: int) -> Seq<Seq<Color>> {
    bs.update(i, bs.last()).drop_last()
}

/// The buckets that median cut ends with from `bs`, aiming at `n` of them:
/// while there are fewer, the bucket of largest variance is taken out and its
/// two halves appended; a chosen bucket of at most one color is put back at the
/// end and the cut stops.
pub open spec fn median_cut(bs: Seq<Seq<Color>>, n: int) -> Seq<Seq<Color>>
    decreases n - bs.len(),
{
    if bs.len() >= n || bs.len() == 0 {
        bs
    } else {
        let i = widest_bucket_upto(bs, bs.len() as int);
        let b = bs[i];
        let rest = swap_removed(bs, i);
        if !(0 <= i < bs.len()) || b.len() <= 1 {
            rest.push(b)
        } else {
            median_cut(rest.push(split_halves(b).0).push(split_halves(b).1), n)
        }
    }
}

/// The palette of `n` colors (or fewer) that median cut picks for `pixels`:
/// the average of each final bucket, in bucket order.
pub open spec fn quantized(pixels: Seq<Color>, n: int) -> Seq<Color> {
    median_cut(seq![pixels], n).map_values(|b: Seq<Color>| average(b))
}

proof fn lemma_widest_bucket_upto(bs: Seq<Seq<Color>>, n: int)
    requires
        1 <= n,
    ensures
        0 <= widest_bucket_upto(bs, n) < n,
    decreases n,
{
    if n > 1 {
        lemma_widest_bucket_upto(bs, n - 1);
    }
}

proof fn lemma_with_key_keys(s: Seq<Color>, ch: int, v: int)
    ensures
        forall|i: int|
            0 <= i < with_key(s, ch, v).len() ==> channel(#[trigger] with_key(s, ch, v)[i], ch)
                == v,
    decreases s.len(),
{
    if s.len() > 0 {
        lemma_with_key_keys(s.drop_last(), ch, v);
        let rest = with_key(s.drop_last(), ch, v);
        assert forall|i: int| 0 <= i < with_key(s, ch, v).len() implies channel(
            #[trigger] with_key(s, ch, v)[i],
            ch,
        ) == v by {
            if i < rest.len() {
                assert(with_key(s, ch, v)[i] == rest[i]);
            }
        }
    }
}

proof fn lemma_keys_below_sorted(s: Seq<Color>, ch: int, v: int)
    ensures
        forall|i: int|
            0 <= i < keys_below(s, ch, v).len() ==> channel(
                #[trigger] keys_below(s, ch, v)[i],
                ch,
            ) < v,
        forall|i: int, j: int|
            0 <= i < j < keys_below(s, ch, v).len() ==> channel(
                #[trigger] keys_below(s, ch, v)[i],
                ch,
            ) <= channel(#[trigger] keys_below(s, ch, v)[j], ch),
    decreases v,
{
    if v > 0 {
        lemma_keys_below_sorted(s, ch, v - 1);
        lemma_with_key_keys(s, ch, v - 1);
        let a = keys_below(s, ch, v - 1);
        let b = with_key(s, ch, v - 1);
        assert forall|i: int| 0 <= i < (a + b).len() implies channel(#[trigger] (a + b)[i], ch)
            < v by {
            if i >= a.len() {
                assert((a + b)[i] == b[i - a.len()]);
            }
        }
        assert forall|i: int, j: int| 0 <= i < j < (a + b).len() implies channel(
            #[trigger] (a + b)[i],
            ch,
        ) <= channel(#[trigger] (a + b)[j], ch) by {
            if j >= a.len() {
                assert((a + b)[j] == b[j - a.len()]);
            }
            if i >= a.len() {
                assert((a + b)[i] == b[i - a.len()]);
            }
        }
    }
}

proof fn lemma_keys_below_multiset(s: Seq<Color>, ch: int, v: int)
    requires
        s.len() > 0,
    ensures
        keys_below(s, ch, v).to_multiset() =~= if 0 <= channel(s.last(), ch) < v {
            keys_below(s.drop_last(), ch, v).to_multiset().insert(s.last())
        } else {
            keys_below(s.drop_last(), ch, v).to_multiset()
        },
    decreases v,
{
    broadcast use vstd::seq_lib::lemma_multiset_commutative, vstd::seq_lib::to_multiset_build;
    broadcast use vstd::multiset::group_multiset_axioms;

    if v > 0 {
        lemma_keys_below_multiset(s, ch, v - 1);
        let a = keys_below(s, ch, v - 1);
        let b = with_key(s, ch, v - 1);
        let a2 = keys_below(s.drop_last(), ch, v - 1);
        let b2 = with_key(s.drop_last(), ch, v - 1);
        assert((a + b).to_multiset() =~= a.to_multiset().add(b.to_multiset()));
        assert((a2 + b2).to_multiset() =~= a2.to_multiset().add(b2.to_multiset()));
        if channel(s.last(), ch) == v - 1 {
            assert(b == b2.push(s.last()));
            assert(b.to_multiset() =~= b2.to_multiset().insert(s.last()));
        } else {
            assert(b == b2);
        }
    } else {
        assert(keys_below(s, ch, v) =~= keys_below(s.drop_last(), ch, v));
    }
}

/// `sorted_by_channel` orders the colors by channel `ch` and keeps each of
/// them, as many times as it occurs.
pub proof fn lemma_sorted_by_channel(s: Seq<Color>, ch: int)
    ensures
        sorted_by_channel(s, ch).to_multiset() == s.to_multiset(),
        forall|i: int, j: int|
            0 <= i < j < s.len() ==> channel(#[trigger] sorted_by_channel(s, ch)[i], ch)
                <= channel(#[trigger] sorted_by_channel(s, ch)[j], ch),
    decreases s.len(),
{
    broadcast use vstd::seq_lib::to_multiset_build;
    broadcast use vstd::multiset::group_multiset_axioms;

    lemma_sorted_len(s, ch);
    lemma_keys_below_sorted(s, ch, 256);
    if s.len() > 0 {
        lemma_sorted_by_channel(s.drop_last(), ch);
        lemma_keys_below_multiset(s, ch, 256);
        assert(s =~= s.drop_last().push(s.last()));
        assert(0 <= channel(s.last(), ch) < 256);
    } else {
        lemma_keys_below_empty(s, ch, 256);
        assert(sorted_by_channel(s, ch) =~= s);
    }
}

proof fn lemma_keys_below_push(s: Seq<Color>, ch: int, v: int)
    requires
        s.len() > 0,
    ensures
        keys_below(s, ch, v).len() == keys_below(s.drop_last(), ch, v).len() + (if 0 <= channel(
            s.last(),
            ch,
        ) < v {
            1int
        } else {
            0int
        }),
    decreases v,
{
    if v > 0 {
        lemma_keys_below_push(s, ch, v - 1);
    }
}

proof fn lemma_sorted_len(s: Seq<Color>, ch: int)
    ensures
        sorted_by_channel(s, ch).len() == s.len(),
    decreases s.len(),
{
    if s.len() > 0 {
        lemma_sorted_len(s.drop_last(), ch);
        lemma_keys_below_push(s, ch, 256);
        assert(0 <= channel(s.last(), ch) < 256);
    } else {
        lemma_keys_below_empty(s, ch, 256);
    }
}

proof fn lemma_keys_below_empty(s: Seq<Color>, ch: int, v: int)
    requires
        s.len() == 0,
    ensures
        keys_below(s, ch, v).len() == 0,
    decreases v,
{
    if v > 0 {
        lemma_keys_below_empty(s, ch, v - 1);
    }
}

/// Channel `ch` of `c`.
pub fn channel_of(c: &Color, ch: usize) -> (r: u8)
    ensures
        r == channel(*c, ch as int),
{
    if ch == 0 {
        c.r
    } else if ch == 1 {
        c.g
    } else {
        c.b
    }
}

/// A working set of pixels during quantization.
struct Bucket {
    pixels: Vec<Color>,
}

impl Bucket {
    fn new(pixels: Vec<Color>) -> (r: Bucket)
        ensures
            r.pixels@ == pixels@,
    {
        Bucket { pixels }
    }

    /// The channel with the widest range of values.
    fn largest_range_channel(&self) -> (r: usize)
        requires
            self.pixels@.len() > 0,
        ensures
            r == widest_channel(self.pixels@),
    {
        let s = Ghost(self.pixels@);
        let first = self.pixels[0];
        let mut min_r = first.r;
        let mut max_r = first.r;
        let mut min_g = first.g;
        let mut max_g = first.g;
        let mut min_b = first.b;
        let mut max_b = first.b;
        let mut i: usize = 1;
        while i < self.pixels.len()
            invariant
                s@ == self.pixels@,
                1 <= i <= s@.len(),
                min_r == channel_min(s@.subrange(0, i as int), 0),
                max_r == channel_max(s@.subrange(0, i as int), 0),
                min_g == channel_min(s@.subrange(0, i as int), 1),
                max_g == channel_max(s@.subrange(0, i as int), 1),
                min_b == channel_min(s@.subrange(0, i as int), 2),
                max_b == channel_max(s@.subrange(0, i as int), 2),
            decreases s@.len() - i,
        {
            let p = self.pixels[i];
            if p.r < min_r {
                min_r = p.r;
            }
            if p.r > max_r {
                max_r = p.r;
            }
            if p.g < min_g {
                min_g = p.g;
            }
            if p.g > max_g {
                max_g = p.g;
            }
            if p.b < min_b {
                min_b = p.b;
            }
            if p.b > max_b {
                max_b = p.b;
            }
            proof {
                assert(s@.subrange(0, i + 1).drop_last() =~= s@.subrange(0, i as int));
            }
            i = i + 1;
        }
        assert(s@.subrange(0, s@.len() as int) =~= s@);
        let range_r = max_r - min_r;
        let range_g = max_g - min_g;
        let range_b = max_b - min_b;
        if range_r >= range_g && range_r >= range_b {
            0
        } else if range_g >= range_r && range_g >= range_b {
            1
        } else {
            2
        }
    }

    /// The per-channel mean of the pixels, truncated.
    fn average_color(&self) -> (r: Color)
        requires
            0 < self.pixels@.len(),
        ensures
            r == average(self.pixels@),
    {
        let s = Ghost(self.pixels@);
        let len = self.pixels.len();
        let mut r_sum: u128 = 0;
        let mut g_sum: u128 = 0;
        let mut b_sum: u128 = 0;
        let mut i: usize = 0;
        while i < len
            invariant
                s@ == self.pixels@,
                len == s@.len(),
                len <= usize::MAX,
                0 <= i <= len,
                r_sum == channel_sum(s@.subrange(0, i as int), 0),
                g_sum == channel_sum(s@.subrange(0, i as int), 1),
                b_sum == channel_sum(s@.subrange(0, i as int), 2),
                r_sum <= 255 * i,
                g_sum <= 255 * i,
                b_sum <= 255 * i,
            decreases len - i,
        {
            let p = self.pixels[i];
            r_sum = r_sum + p.r as u128;
            g_sum = g_sum + p.g as u128;
            b_sum = b_sum + p.b as u128;
            proof {
                assert(s@.subrange(0, i + 1).drop_last() =~= s@.subrange(0, i as int));
            }
            i = i + 1;
        }
        assert(s@.subrange(0, len as int) =~= s@);
        let l = len as u128;
        assert(r_sum / l <= 255 && g_sum / l <= 255 && b_sum / l <= 255) by (nonlinear_arith)
            requires
                l > 0,
                r_sum <= 255 * l,
                g_sum <= 255 * l,
                b_sum <= 255 * l,
        ;
        Color { r: (r_sum / l) as u8, g: (g_sum / l) as u8, b: (b_sum / l) as u8 }
    }

    /// Mean squared distance of the pixels from their average color; 0 when
    /// there are none.
    fn variance(&self) -> (r: u64)
        ensures
            r == variance(self.pixels@),
    {
        let len = self.pixels.len();
        if len == 0 {
            return 0;
        }
        let s = Ghost(self.pixels@);
        let avg = self.average_color();
        let mut sum: u128 = 0;
        let mut i: usize = 0;
        while i < len
            invariant
                s@ == self.pixels@,
                len == s@.len(),
                len <= usize::MAX,
                avg == average(s@),
                0 <= i <= len,
                sum == deviation_sum(s@.subrange(0, i as int), avg),
                sum <= 195075 * i,
            decreases len - i,
        {
            let d = color_distance(&self.pixels[i], &avg);
            assert(d <= 195075);
            sum = sum + d as u128;
            proof {
                assert(s@.subrange(0, i + 1).drop_last() =~= s@.subrange(0, i as int));
            }
            i = i + 1;
        }
        assert(s@.subrange(0, len as int) =~= s@);
        let v = sum / (len as u128);
        assert(v <= 195075) by (nonlinear_arith)
            requires
                len > 0,
                sum <= 195075 * len,
                v == sum / (len as u128),
        ;
        v as u64
    }

    /// Sorts the pixels along the widest channel (stable) and cuts them at
    /// half the length.
    fn split(self) -> (r: (Bucket, Bucket))
        requires
            self.pixels@.len() > 0,
        ensures
            (r.0.pixels@, r.1.pixels@) == split_halves(self.pixels@),
    {
        let ch = self.largest_range_channel();
        let s = Ghost(self.pixels@);
        let len = self.pixels.len();
        let mut sorted: Vec<Color> = Vec::new();
        let mut v: u16 = 0;
        while v < 256
            invariant
                s@ == self.pixels@,
                len == s@.len(),
                ch == widest_channel(s@),
                v <= 256,
                sorted@ == keys_below(s@, ch as int, v as int),
            decreases 256 - v,
        {
            let mut i: usize = 0;
            while i < len
                invariant
                    s@ == self.pixels@,
                    len == s@.len(),
                    ch == widest_channel(s@),
                    v < 256,
                    0 <= i <= len,
                    sorted@ == keys_below(s@, ch as int, v as int) + with_key(
                        s@.subrange(0, i as int),
                        ch as int,
                        v as int,
                    ),
                decreases len - i,
            {
                let p = self.pixels[i];
                proof {
                    assert(s@.subrange(0, i + 1).drop_last() =~= s@.subrange(0, i as int));
                }
                if channel_of(&p, ch) as u16 == v {
                    sorted.push(p);
                    proof {
                        assert(sorted@ =~= keys_below(s@, ch as int, v as int) + with_key(
                            s@.subrange(0, i + 1),
                            ch as int,
                            v as int,
                        ));
                    }
                }
                i = i + 1;
            }
            assert(s@.subrange(0, len as int) =~= s@);
            v = v + 1;
        }
        proof {
            lemma_sorted_len(s@, ch as int);
        }
        let mid = len / 2;
        let upper = sorted.split_off(mid);
        (Bucket::new(sorted), Bucket::new(upper))
    }
}

spec fn bucket_views(bs: Seq<Bucket>) -> Seq<Seq<Color>> {
    bs.map_values(|b: Bucket| b.pixels@)
}

/// Median-cut quantization: a palette of at most `n` colors for `pixels`, one
/// averaged color per final bucket, in the order the cuts produced them.
pub fn gen_palette(pixels: &[Color], n: usize) -> (r: Vec<Color>)
    requires
        0 < pixels@.len() <= MAX_PIXELS,
    ensures
        r@ == quantized(pixels@, n as int),
{
    let target = Ghost(median_cut(seq![pixels@], n as int));
    let mut buckets: Vec<Bucket> = Vec::new();
    buckets.push(Bucket::new(copy_range(pixels, 0, pixels.len())));
    assert(pixels@.subrange(0, pixels@.len() as int) =~= pixels@);
    assert(bucket_views(buckets@) =~= seq![pixels@]);
    let mut done = false;
    while !done && buckets.len() < n
        invariant
            buckets@.len() >= 1,
            forall|k: int|
                0 <= k < buckets@.len() ==> 0 < (#[trigger] buckets@[k]).pixels@.len()
                    <= MAX_PIXELS,
            done ==> bucket_views(buckets@) == target@,
            !done ==> median_cut(bucket_views(buckets@), n as int) == target@,
        decreases n - buckets@.len() + (if done {
            0int
        } else {
            1int
        }),
    {
        let ghost bs = bucket_views(buckets@);
        let mut best: usize = 0;
        let mut best_var: u64 = buckets[0].variance();
        let mut i: usize = 1;
        while i < buckets.len()
            invariant
                bs == bucket_views(buckets@),
                1 <= i <= buckets@.len(),
                forall|k: int|
                    0 <= k < buckets@.len() ==> 0 < (#[trigger] buckets@[k]).pixels@.len()
                        <= MAX_PIXELS,
                best == widest_bucket_upto(bs, i as int),
                best < i,
                best_var == variance(bs[best as int]),
            decreases buckets@.len() - i,
        {
            let v = buckets[i].variance();
            if v >= best_var {
                best = i;
                best_var = v;
            }
            i = i + 1;
        }
        let bucket = buckets.swap_remove(best);
        proof {
            assert(bucket_views(buckets@) =~= swap_removed(bs, best as int));
        }
        if bucket.pixels.len() <= 1 {
            buckets.push(bucket);
            proof {
                assert(bucket_views(buckets@) =~= swap_removed(bs, best as int).push(
                    bs[best as int],
                ));
            }
            done = true;
        } else {
            let (lower, upper) = bucket.split();
            proof {
                lemma_sorted_len(bs[best as int], widest_channel(bs[best as int]));
            }
            buckets.push(lower);
            buckets.push(upper);
            proof {
                let h = split_halves(bs[best as int]);
                assert(bucket_views(buckets@) =~= swap_removed(bs, best as int).push(h.0).push(
                    h.1,
                ));
            }
        }
    }
    let ghost fin = bucket_views(buckets@);
    assert(fin == target@);
    let mut palette: Vec<Color> = Vec::new();
    let mut k: usize = 0;
    while k < buckets.len()
        invariant
            fin == bucket_views(buckets@),
            forall|j: int|
                0 <= j < buckets@.len() ==> 0 < (#[trigger] buckets@[j]).pixels@.len()
                    <= MAX_PIXELS,
            0 <= k <= buckets@.len(),
            palette@ =~= fin.map_values(|b: Seq<Color>| average(b)).subrange(0, k as int),
        decreases buckets@.len() - k,
    {
        palette.push(buckets[k].average_color());
        k = k + 1;
    }
    palette
}

} // verus!
