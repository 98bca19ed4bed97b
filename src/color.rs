use vstd::prelude::*;

verus! {

/// An RGB color with three 8-bit channels.
#[derive(Clone, Copy, Debug, PartialEq, Eq, Structural)]
pub struct Color {
    pub r: u8,
    pub g: u8,
    pub b: u8,
}

/// Channel `ch` (0 = red, 1 = green, 2 = blue) of `c`.
pub open spec fn channel(c: Color, ch: int) -> int {
    if ch == 0 {
        c.r as int
    } else if ch == 1 {
        c.g as int
    } else {
        c.b as int
    }
}

/// Squared Euclidean distance between two colors.
pub open spec fn distance(a: Color, b: Color) -> int {
    (a.r - b.r) * (a.r - b.r) + (a.g - b.g) * (a.g - b.g) + (a.b - b.b) * (a.b - b.b)
}

/// Index of the nearest color among the first `n` entries of `pal`,
/// the lowest index winning ties.
pub open spec fn nearest_upto(pal: Seq<Color>, c: Color, n: int) -> int
    decreases n,
{
    if n <= 1 {
        0
    } else {
        let k = nearest_upto(pal, c, n - 1);
        if distance(pal[n - 1], c) < distance(pal[k], c) {
            n - 1
        } else {
            k
        }
    }
}

/// Index of the palette entry nearest to `c` (lowest index on ties).
pub open spec fn nearest_index(pal: Seq<Color>, c: Color) -> int {
    nearest_upto(pal, c, pal.len() as int)
}

/// The nearest entry lies in range, is at least as close as every entry and
/// strictly closer than every entry before it.
pub proof fn lemma_nearest_upto(pal: Seq<Color>, c: Color, n: int)
    requires
        1 <= n <= pal.len(),
    ensures
        0 <= nearest_upto(pal, c, n) < n,
        forall|j: int|
            0 <= j < n ==> distance(pal[nearest_upto(pal, c, n)], c) <= distance(#[trigger] pal[j], c),
        forall|j: int|
            0 <= j < nearest_upto(pal, c, n) ==> distance(#[trigger] pal[j], c) > distance(
                pal[nearest_upto(pal, c, n)],
                c,
            ),
    decreases n,
{
    if n > 1 {
        lemma_nearest_upto(pal, c, n - 1);
    }
}

pub fn color_distance(a: &Color, b: &Color) -> (r: u32)
    ensures
        r == distance(*a, *b),
        r <= 195075,
{
    let dr: i32 = a.r as i32 - b.r as i32;
    let dg: i32 = a.g as i32 - b.g as i32;
    let db: i32 = a.b as i32 - b.b as i32;
    assert(0 <= dr * dr <= 65025) by (nonlinear_arith)
        requires
            -255 <= dr <= 255,
    ;
    assert(0 <= dg * dg <= 65025) by (nonlinear_arith)
        requires
            -255 <= dg <= 255,
    ;
    assert(0 <= db * db <= 65025) by (nonlinear_arith)
        requires
            -255 <= db <= 255,
    ;
    (dr * dr + dg * dg + db * db) as u32
}

/// An ordered color table; a pixel is stored as the position of its entry.
pub struct Palette {
    pub colors: Vec<Color>,
}

impl Palette {
    /// Index of the entry nearest to `color` in squared Euclidean distance;
    /// the lowest index wins ties.
    pub fn index_of(&self, color: &Color) -> (r: usize)
        requires
            self.colors@.len() > 0,
        ensures
            r == nearest_index(self.colors@, *color),
            r < self.colors@.len(),
            forall|j: int|
                0 <= j < self.colors@.len() ==> distance(self.colors@[r as int], *color)
                    <= distance(#[trigger] self.colors@[j], *color),
            forall|j: int|
                0 <= j < r ==> distance(#[trigger] self.colors@[j], *color) > distance(
                    self.colors@[r as int],
                    *color,
                ),
    {
        proof {
            lemma_nearest_upto(self.colors@, *color, self.colors@.len() as int);
        }
        let mut best: usize = 0;
        let mut best_dist: u32 = color_distance(&self.colors[0], color);
        let mut i: usize = 1;
        while i < self.colors.len()
            invariant
                1 <= i <= self.colors@.len(),
                best == nearest_upto(self.colors@, *color, i as int),
                best_dist == distance(self.colors@[best as int], *color),
            decreases self.colors@.len() - i,
        {
            let d = color_distance(&self.colors[i], color);
            if d < best_dist {
                best = i;
                best_dist = d;
            }
            i = i + 1;
        }
        best
    }

    /// Replaces `color` by its nearest palette entry.
    pub fn map_color(&self, color: &mut Color)
        requires
            self.colors@.len() > 0,
        ensures
            *final(color) == self.colors@[nearest_index(self.colors@, *old(color))],
    {
        let idx = self.index_of(color);
        *color = self.colors[idx];
    }
}

} // verus!
