use vstd::prelude::*;
use crate::color::{Color, Palette, nearest_index};

verus! {

/// The index byte stored for pixel `c`: the position of its nearest palette
/// entry, kept to its low eight bits.
pub open spec fn index_byte(pal: Seq<Color>, c: Color) -> u8 {
    (nearest_index(pal, c) % 256) as u8
}

/// The index stream of `pixels` against `pal`.
pub open spec fn index_stream(pal: Seq<Color>, pixels: Seq<Color>) -> Seq<u8> {
    pixels.map_values(|c: Color| index_byte(pal, c))
}

/// The color that index `b` stands for; entry 0 when `b` is past the palette.
pub open spec fn lookup(pal: Seq<Color>, b: u8) -> Color {
    if (b as int) < pal.len() {
        pal[b as int]
    } else {
        pal[0]
    }
}

/// The pixels that the index stream `idx` stands for.
pub open spec fn pixel_stream(pal: Seq<Color>, idx: Seq<u8>) -> Seq<Color> {
    idx.map_values(|b: u8| lookup(pal, b))
}

/// Size of each chunk when `len` items are shared among `workers`: the
/// quotient rounded up.
pub open spec fn chunk_len(len: int, workers: int) -> int {
    len / workers + if len % workers != 0 {
        1int
    } else {
        0int
    }
}

pub open spec fn min(a: int, b: int) -> int {
    if a < b {
        a
    } else {
        b
    }
}

/// Where chunk `i` starts; the last chunks may be short or empty.
pub open spec fn chunk_start(len: int, workers: int, i: int) -> int {
    min(i * chunk_len(len, workers), len)
}

/// The first `k` chunks of `s`, joined in chunk order.
pub open spec fn chunks_joined<A>(s: Seq<A>, workers: int, k: int) -> Seq<A>
    decreases k,
{
    if k <= 0 {
        seq![]
    } else {
        chunks_joined(s, workers, k - 1) + s.subrange(
            chunk_start(s.len() as int, workers, k - 1),
            chunk_start(s.len() as int, workers, k),
        )
    }
}

proof fn lemma_chunk_len(len: int, workers: int)
    requires
        len >= 0,
        workers > 0,
    ensures
        0 <= chunk_len(len, workers) <= len,
        len > 0 ==> chunk_len(len, workers) > 0,
        workers * chunk_len(len, workers) >= len,
        chunk_len(len, workers) > 0 ==> len < (len / chunk_len(len, workers) + 1) * chunk_len(
            len,
            workers,
        ),
        chunk_len(len, workers) > 0 ==> (len / chunk_len(len, workers)) * chunk_len(len, workers)
            <= len,
{
    let q = len / workers;
    let rem = len % workers;
    vstd::arithmetic::div_mod::lemma_fundamental_div_mod(len, workers);
    assert(0 <= q && 0 <= rem < workers) by (nonlinear_arith)
        requires
            len >= 0,
            workers > 0,
            q == len / workers,
            rem == len % workers,
    ;
    assert(q <= len && (rem != 0 ==> q + 1 <= len)) by (nonlinear_arith)
        requires
            len == workers * q + rem,
            workers > 0,
            q >= 0,
            0 <= rem,
    ;
    let c = chunk_len(len, workers);
    assert(workers * c >= len) by (nonlinear_arith)
        requires
            len == workers * q + rem,
            0 <= rem < workers,
            rem != 0 ==> c == q + 1,
            rem == 0 ==> c == q,
    ;
    if len > 0 {
        assert(c > 0) by (nonlinear_arith)
            requires
                len == workers * q + rem,
                rem != 0 ==> c == q + 1,
                rem == 0 ==> c == q,
                len > 0,
                q >= 0,
        ;
    }
    if c > 0 {
        let k = len / c;
        vstd::arithmetic::div_mod::lemma_fundamental_div_mod(len, c);
        assert(len < (k + 1) * c && k * c <= len) by (nonlinear_arith)
            requires
                c > 0,
                len == c * k + len % c,
                0 <= len % c < c,
        ;
    }
}

proof fn lemma_chunk_start(len: int, workers: int, i: int)
    requires
        len >= 0,
        workers > 0,
        0 <= i,
    ensures
        0 <= chunk_start(len, workers, i) <= chunk_start(len, workers, i + 1) <= len,
        i >= workers ==> chunk_start(len, workers, i) == len,
        chunk_start(len, workers, 0) == 0,
{
    let c = chunk_len(len, workers);
    lemma_chunk_len(len, workers);
    assert(0 * c == 0);
    assert(0 <= i * c <= (i + 1) * c) by (nonlinear_arith)
        requires
            c >= 0,
            i >= 0,
    ;
    if i >= workers {
        assert(i * c >= workers * c) by (nonlinear_arith)
            requires
                c >= 0,
                i >= workers,
        ;
    }
}

proof fn lemma_chunks_joined_prefix<A>(s: Seq<A>, workers: int, k: int)
    requires
        workers > 0,
        k >= 0,
    ensures
        chunks_joined(s, workers, k) == s.subrange(0, chunk_start(s.len() as int, workers, k)),
    decreases k,
{
    lemma_chunk_start(s.len() as int, workers, k);
    if k > 0 {
        lemma_chunks_joined_prefix(s, workers, k - 1);
        lemma_chunk_start(s.len() as int, workers, k - 1);
        assert(chunks_joined(s, workers, k) =~= s.subrange(
            0,
            chunk_start(s.len() as int, workers, k),
        ));
    } else {
        assert(chunk_start(s.len() as int, workers, 0) == 0);
        assert(chunks_joined(s, workers, k) =~= s.subrange(0, 0));
    }
}

/// Joining all the chunks of a sequence in chunk order gives the sequence
/// back, whatever the number of workers: each worker's output lands at its
/// chunk's own positions, so the result cannot depend on which finishes first.
pub proof fn lemma_chunks_reassemble<A>(s: Seq<A>, workers: int)
    requires
        workers > 0,
    ensures
        chunks_joined(s, workers, workers) == s,
{
    lemma_chunks_joined_prefix(s, workers, workers);
    lemma_chunk_start(s.len() as int, workers, workers);
    assert(s.subrange(0, s.len() as int) =~= s);
}

/// Size of each chunk when `len` items are shared among `workers` (> 0).
pub fn chunk_size(len: usize, workers: usize) -> (r: usize)
    requires
        workers > 0,
    ensures
        r == chunk_len(len as int, workers as int),
        r <= len,
        len > 0 ==> r > 0,
{
    proof {
        lemma_chunk_len(len as int, workers as int);
    }
    let q = len / workers;
    if len % workers != 0 {
        q + 1
    } else {
        q
    }
}

/// The range `[start, end)` of chunk `i` when `len` items are shared among
/// `workers` contiguous chunks of `chunk_size(len, workers)` items.
pub fn chunk_bounds(len: usize, workers: usize, i: usize) -> (r: (usize, usize))
    requires
        workers > 0,
    ensures
        r.0 == chunk_start(len as int, workers as int, i as int),
        r.1 == chunk_start(len as int, workers as int, i as int + 1),
        r.0 <= r.1 <= len,
{
    proof {
        lemma_chunk_start(len as int, workers as int, i as int);
        lemma_chunk_len(len as int, workers as int);
    }
    let c = chunk_size(len, workers);
    if c == 0 {
        return (0, 0);
    }
    let k = len / c;
    let start = if i > k {
        assert(i * c >= (k + 1) * c) by (nonlinear_arith)
            requires
                i >= k + 1,
                c > 0,
        ;
        len
    } else {
        assert(i * c <= k * c) by (nonlinear_arith)
            requires
                i <= k,
                c > 0,
        ;
        i * c
    };
    let end = if i >= k {
        assert((i + 1) * c >= (k + 1) * c) by (nonlinear_arith)
            requires
                i >= k,
                c > 0,
        ;
        len
    } else {
        assert((i + 1) * c <= k * c) by (nonlinear_arith)
            requires
                i + 1 <= k,
                c > 0,
        ;
        (i + 1) * c
    };
    (start, end)
}

/// Maps each pixel of `chunk` to the index of its nearest palette entry.
pub fn index_pixels(chunk: &[Color], palette: &Palette) -> (r: Vec<u8>)
    requires
        palette.colors@.len() > 0,
    ensures
        r@ == index_stream(palette.colors@, chunk@),
{
    let mut out: Vec<u8> = Vec::new();
    let mut i: usize = 0;
    while i < chunk.len()
        invariant
            palette.colors@.len() > 0,
            0 <= i <= chunk@.len(),
            out@ =~= index_stream(palette.colors@, chunk@).subrange(0, i as int),
        decreases chunk@.len() - i,
    {
        let idx = palette.index_of(&chunk[i]);
        out.push((idx % 256) as u8);
        i = i + 1;
    }
    out
}

/// Expands each index of `chunk` to its palette color; an index past the
/// palette stands for entry 0.
pub fn expand_indices(chunk: &[u8], palette: &Palette) -> (r: Vec<Color>)
    requires
        palette.colors@.len() > 0,
    ensures
        r@ == pixel_stream(palette.colors@, chunk@),
{
    let mut out: Vec<Color> = Vec::new();
    let mut i: usize = 0;
    while i < chunk.len()
        invariant
            palette.colors@.len() > 0,
            0 <= i <= chunk@.len(),
            out@ =~= pixel_stream(palette.colors@, chunk@).subrange(0, i as int),
        decreases chunk@.len() - i,
    {
        let b = chunk[i];
        let c = if (b as usize) < palette.colors.len() {
            palette.colors[b as usize]
        } else {
            palette.colors[0]
        };
        out.push(c);
        i = i + 1;
    }
    out
}

/// The items of `s` in `[start, end)`.
pub fn copy_range<T: Copy>(s: &[T], start: usize, end: usize) -> (r: Vec<T>)
    requires
        start <= end <= s@.len(),
    ensures
        r@ == s@.subrange(start as int, end as int),
{
    let mut out: Vec<T> = Vec::new();
    let mut i: usize = start;
    while i < end
        invariant
            start <= i <= end <= s@.len(),
            out@ =~= s@.subrange(start as int, i as int),
        decreases end - i,
    {
        out.push(s[i]);
        i = i + 1;
    }
    out
}

/// Appends the items of `part` to `out`.
pub fn append_all<T: Copy>(out: &mut Vec<T>, part: &[T])
    ensures
        final(out)@ == old(out)@ + part@,
{
    let ghost start = out@;
    let mut i: usize = 0;
    while i < part.len()
        invariant
            0 <= i <= part@.len(),
            out@ =~= start + part@.subrange(0, i as int),
        decreases part@.len() - i,
    {
        out.push(part[i]);
        i = i + 1;
    }
}

/// Joins the outputs of the workers in chunk order.
pub fn join_chunks<T: Copy>(parts: &Vec<Vec<T>>) -> (r: Vec<T>)
    ensures
        r@ == parts@.map_values(|p: Vec<T>| p@).flatten(),
{
    let ghost views = parts@.map_values(|p: Vec<T>| p@);
    let mut out: Vec<T> = Vec::new();
    let mut k: usize = 0;
    while k < parts.len()
        invariant
            views == parts@.map_values(|p: Vec<T>| p@),
            views.len() == parts@.len(),
            0 <= k <= parts@.len(),
            out@ == views.subrange(0, k as int).flatten(),
        decreases parts@.len() - k,
    {
        append_all(&mut out, parts[k].as_slice());
        proof {
            let prev = views.subrange(0, k as int);
            assert(views[k as int] == parts@[k as int]@);
            prev.lemma_flatten_push(views[k as int]);
            assert(prev.push(views[k as int]) =~= views.subrange(0, k + 1));
        }
        k = k + 1;
    }
    assert(views.subrange(0, parts@.len() as int) =~= views);
    out
}

/// The index stream of `pixels`, computed chunk by chunk for `workers`
/// workers and joined in chunk order; empty when there are no workers.
pub fn indexify(pixels: &[Color], palette: &Palette, workers: usize) -> (r: Vec<u8>)
    requires
        palette.colors@.len() > 0,
    ensures
        workers > 0 ==> r@ == index_stream(palette.colors@, pixels@),
        workers == 0 ==> r@.len() == 0,
{
    let mut out: Vec<u8> = Vec::new();
    if workers == 0 {
        return out;
    }
    let ghost whole = index_stream(palette.colors@, pixels@);
    let len = pixels.len();
    proof {
        lemma_chunk_start(len as int, workers as int, 0);
    }
    let mut i: usize = 0;
    while i < workers
        invariant
            palette.colors@.len() > 0,
            workers > 0,
            len == pixels@.len(),
            whole == index_stream(palette.colors@, pixels@),
            0 <= i <= workers,
            out@ == whole.subrange(0, chunk_start(len as int, workers as int, i as int)),
        decreases workers - i,
    {
        proof {
            lemma_chunk_start(len as int, workers as int, i as int);
        }
        let (start, end) = chunk_bounds(len, workers, i);
        let chunk = copy_range(pixels, start, end);
        let part = index_pixels(chunk.as_slice(), palette);
        append_all(&mut out, part.as_slice());
        assert(out@ =~= whole.subrange(0, end as int));
        i = i + 1;
    }
    proof {
        lemma_chunk_start(len as int, workers as int, workers as int);
    }
    assert(out@ =~= whole);
    out
}

/// The pixels of the index stream `indices`, computed chunk by chunk for
/// `workers` workers and joined in chunk order; empty when there are no
/// workers.
pub fn pixelify(indices: &[u8], palette: &Palette, workers: usize) -> (r: Vec<Color>)
    requires
        palette.colors@.len() > 0,
    ensures
        workers > 0 ==> r@ == pixel_stream(palette.colors@, indices@),
        workers == 0 ==> r@.len() == 0,
{
    let mut out: Vec<Color> = Vec::new();
    if workers == 0 {
        return out;
    }
    let ghost whole = pixel_stream(palette.colors@, indices@);
    let len = indices.len();
    proof {
        lemma_chunk_start(len as int, workers as int, 0);
    }
    let mut i: usize = 0;
    while i < workers
        invariant
            palette.colors@.len() > 0,
            workers > 0,
            len == indices@.len(),
            whole == pixel_stream(palette.colors@, indices@),
            0 <= i <= workers,
            out@ == whole.subrange(0, chunk_start(len as int, workers as int, i as int)),
        decreases workers - i,
    {
        proof {
            lemma_chunk_start(len as int, workers as int, i as int);
        }
        let (start, end) = chunk_bounds(len, workers, i);
        let chunk = copy_range(indices, start, end);
        let part = expand_indices(chunk.as_slice(), palette);
        append_all(&mut out, part.as_slice());
        assert(out@ =~= whole.subrange(0, end as int));
        i = i + 1;
    }
    proof {
        lemma_chunk_start(len as int, workers as int, workers as int);
    }
    assert(out@ =~= whole);
    out
}

} // verus!
