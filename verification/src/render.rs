//! Whole-number rules of the presentation layer: the index list of the
//! quads drawn around the particles, the byte layout of a vertex, the size
//! of the glyph texture, and the choice of a display configuration.

use vstd::prelude::*;

verus! {

/// The corner of a quad that the `at`-th index of its two triangles names:
/// the triangles are the corners 0, 1, 2 and 0, 2, 3.
pub open spec fn quad_corner(at: int) -> int {
    if at == 0 || at == 3 {
        0
    } else if at == 1 {
        1
    } else if at == 2 || at == 4 {
        2
    } else {
        3
    }
}

/// The `at`-th entry of the index list of a row of quads with four
/// vertices each.
pub open spec fn quad_index(at: int) -> int {
    4 * (at / 6) + quad_corner(at % 6)
}

/// Makes the index list that draws `count` quads as two triangles each,
/// where quad `q` owns the vertices `4 * q` to `4 * q + 3`.
pub fn quad_indices(count: usize) -> (indices: Vec<u32>)
    requires
        4 * count <= u32::MAX + 1,
        6 * count <= usize::MAX,
    ensures
        indices.len() == 6 * count,
        forall|at: int| 0 <= at < 6 * count ==> indices[at] == quad_index(at),
{
    let mut indices: Vec<u32> = Vec::new();
    let mut quad: usize = 0;
    while quad < count
        invariant
            quad <= count,
            4 * count <= u32::MAX + 1,
            6 * count <= usize::MAX,
            indices.len() == 6 * quad,
            forall|at: int| 0 <= at < 6 * quad ==> indices[at] == quad_index(at),
        decreases count - quad,
    {
        let offset: u32 = (quad * 4) as u32;
        indices.push(offset);
        indices.push(offset + 1);
        indices.push(offset + 2);
        indices.push(offset);
        indices.push(offset + 2);
        indices.push(offset + 3);
        quad = quad + 1;
    }
    indices
}

/// The sum of the first `upto` entries of `counts`.
pub open spec fn sum_before(counts: Seq<u32>, upto: int) -> int
    decreases upto,
{
    if upto <= 0 {
        0
    } else {
        sum_before(counts, upto - 1) + counts[upto - 1]
    }
}

/// The byte offsets of the attributes of a vertex that is made of 4-byte
/// numbers: `float_counts` says how many numbers each attribute has, and an
/// attribute begins where the attributes before it end.
pub fn attribute_offsets(float_counts: &Vec<u32>) -> (offsets: Vec<u32>)
    requires
        4 * sum_before(float_counts@, float_counts.len() as int) <= u32::MAX,
    ensures
        offsets.len() == float_counts.len(),
        forall|i: int| 0 <= i < offsets.len() ==> offsets[i] == 4 * sum_before(float_counts@, i),
{
    let mut offsets: Vec<u32> = Vec::new();
    let mut offset: u32 = 0;
    let mut i: usize = 0;
    while i < float_counts.len()
        invariant
            i <= float_counts.len(),
            4 * sum_before(float_counts@, float_counts.len() as int) <= u32::MAX,
            offsets.len() == i,
            offset == 4 * sum_before(float_counts@, i as int),
            forall|j: int| 0 <= j < i ==> offsets[j] == 4 * sum_before(float_counts@, j),
        decreases float_counts.len() - i,
    {
        proof {
            lemma_sum_before_grows(float_counts@, i + 1, float_counts.len() as int);
        }
        offsets.push(offset);
        offset = offset + 4 * float_counts[i];
        i = i + 1;
    }
    offsets
}

/// A sum over more entries is no smaller.
pub proof fn lemma_sum_before_grows(counts: Seq<u32>, fewer: int, more: int)
    requires
        0 <= fewer <= more <= counts.len(),
    ensures
        0 <= sum_before(counts, fewer) <= sum_before(counts, more),
    decreases more,
{
    if fewer < more {
        lemma_sum_before_grows(counts, fewer, more - 1);
    } else if fewer > 0 {
        lemma_sum_before_grows(counts, fewer - 1, more - 1);
    }
}

/// The size of the glyph texture to make when the glyphs ask for
/// `suggested` and the texture is `current`: what the glyphs ask for,
/// unless that exceeds the largest side `max_dimension` that the display
/// takes while the texture can still grow to it; then the largest square.
pub open spec fn resized_texture_spec(
    suggested: (u32, u32),
    current: (u32, u32),
    max_dimension: u32,
) -> (u32, u32) {
    if (suggested.0 > max_dimension || suggested.1 > max_dimension) && (current.0 < max_dimension
        || current.1 < max_dimension) {
        (max_dimension, max_dimension)
    } else {
        suggested
    }
}

/// Computes the size of the glyph texture to make.
#[verifier::when_used_as_spec(resized_texture_spec)]
pub fn resized_texture(suggested: (u32, u32), current: (u32, u32), max_dimension: u32) -> (size: (
    u32,
    u32,
))
    ensures
        size == resized_texture_spec(suggested, current, max_dimension),
{
    if (suggested.0 > max_dimension || suggested.1 > max_dimension) && (current.0 < max_dimension
        || current.1 < max_dimension) {
        (max_dimension, max_dimension)
    } else {
        suggested
    }
}

/// Whether the display configuration `next` is taken in place of the one
/// chosen so far: when it is the first of the two that supports
/// transparency, or when it offers more samples per pixel.
pub fn prefers_config(
    next_transparent: bool,
    next_samples: u8,
    current_transparent: bool,
    current_samples: u8,
) -> (prefer: bool)
    ensures
        prefer == ((next_transparent && !current_transparent) || next_samples > current_samples),
{
    (next_transparent && !current_transparent) || next_samples > current_samples
}

} // verus!
