//! Rasterised glyphs: font smoothing, transparent padding, outline masks and the RGBA
//! texture that text shaders sample, plus the size of a new font atlas.
use vstd::prelude::*;

verus! {

/// Whether glyph edges are anti-aliased.
#[derive(Clone, Copy, Debug, PartialEq, Eq, Hash, Structural)]
pub enum FontSmoothing {
    /// Alpha is thresholded: each pixel is fully opaque or fully transparent.
    Disabled,
    /// Alpha is kept as rasterised.
    AntiAliased,
}

/// The alpha of a pixel after font smoothing.
pub open spec fn smoothed_alpha(alpha: u8, font_smoothing: FontSmoothing) -> u8 {
    match font_smoothing {
        FontSmoothing::AntiAliased => alpha,
        FontSmoothing::Disabled => if 127 < alpha {
            255
        } else {
            0
        },
    }
}

/// Applies font smoothing to an alpha mask.
pub fn apply_font_smoothing(alpha: &[u8], font_smoothing: FontSmoothing) -> (smoothed: Vec<u8>)
    ensures
        smoothed@.len() == alpha@.len(),
        forall|i: int|
            0 <= i < alpha@.len() ==> smoothed@[i] == smoothed_alpha(
                #[trigger] alpha@[i],
                font_smoothing,
            ),
{
    let mut smoothed: Vec<u8> = Vec::with_capacity(alpha.len());
    let mut i: usize = 0;
    while i < alpha.len()
        invariant
            0 <= i <= alpha@.len(),
            smoothed@.len() == i,
            forall|k: int|
                0 <= k < i ==> smoothed@[k] == smoothed_alpha(#[trigger] alpha@[k], font_smoothing),
        decreases alpha.len() - i,
    {
        let a = alpha[i];
        let value = match font_smoothing {
            FontSmoothing::AntiAliased => a,
            FontSmoothing::Disabled => if 127 < a {
                255
            } else {
                0
            },
        };
        smoothed.push(value);
        i = i + 1;
    }
    smoothed
}

/// Row `y`, column `x` of a `width` by `height` mask framed by `padding` transparent pixels
/// on each side.
pub open spec fn padded_value(
    mask: Seq<u8>,
    width: int,
    height: int,
    padding: int,
    x: int,
    y: int,
) -> u8 {
    if padding <= x < padding + width && padding <= y < padding + height {
        mask[(y - padding) * width + (x - padding)]
    } else {
        0
    }
}

proof fn lemma_row_index(row: int, col: int, rows: int, cols: int)
    requires
        0 <= row < rows,
        0 <= col < cols,
    ensures
        0 <= row * cols + col < rows * cols,
        row * cols + col < (row + 1) * cols,
        (row + 1) * cols <= rows * cols,
        rows * cols == cols * rows,
{
    assert(rows * cols == cols * rows) by (nonlinear_arith);
    assert(0 <= row * cols) by (nonlinear_arith)
        requires
            0 <= row,
            0 <= col < cols,
    ;
    assert((row + 1) * cols == row * cols + cols) by (nonlinear_arith);
    assert((row + 1) * cols <= rows * cols) by (nonlinear_arith)
        requires
            row + 1 <= rows,
            0 <= cols,
    ;
}

proof fn lemma_rows_ordered(row1: int, col1: int, row2: int, col2: int, cols: int)
    requires
        0 <= row1 < row2,
        0 <= col1 < cols,
        0 <= col2,
    ensures
        row1 * cols + col1 < row2 * cols + col2,
{
    assert(row1 * cols + col1 < row2 * cols) by (nonlinear_arith)
        requires
            0 <= row1 < row2,
            0 <= col1 < cols,
    ;
}

/// Frames a `width` by `height` alpha mask with `padding` transparent pixels on each side.
pub fn pad_mask(mask: &[u8], width: u32, height: u32, padding: u32) -> (padded: Vec<u8>)
    requires
        mask@.len() >= width * height,
        width + 2 * padding <= usize::MAX,
        height + 2 * padding <= usize::MAX,
        (width + 2 * padding) * (height + 2 * padding) <= usize::MAX,
    ensures
        padded@.len() == (width + 2 * padding) * (height + 2 * padding),
        forall|x: int, y: int|
            0 <= x < width + 2 * padding && 0 <= y < height + 2 * padding ==> #[trigger] padded@[y
                * (width + 2 * padding) + x] == padded_value(
                mask@,
                width as int,
                height as int,
                padding as int,
                x,
                y,
            ),
{
    let width = width as usize;
    let height = height as usize;
    let padding = padding as usize;
    let padded_width = width + padding * 2;
    let padded_height = height + padding * 2;
    let mut padded: Vec<u8> = Vec::new();
    let mut y: usize = 0;
    while y < padded_height
        invariant
            0 <= y <= padded_height,
            padded_width == width + 2 * padding,
            padded_height == height + 2 * padding,
            mask@.len() >= width * height,
            padded_width * padded_height <= usize::MAX,
            padded@.len() == y * padded_width,
            forall|xx: int, yy: int|
                0 <= xx < padded_width && 0 <= yy < y ==> #[trigger] padded@[yy * padded_width + xx]
                    == padded_value(mask@, width as int, height as int, padding as int, xx, yy),
        decreases padded_height - y,
    {
        let mut x: usize = 0;
        while x < padded_width
            invariant
                0 <= x <= padded_width,
                0 <= y < padded_height,
                padded_width == width + 2 * padding,
                padded_height == height + 2 * padding,
                mask@.len() >= width * height,
                padded_width * padded_height <= usize::MAX,
                padded@.len() == y * padded_width + x,
                forall|xx: int, yy: int|
                    0 <= xx < padded_width && 0 <= yy < y ==> #[trigger] padded@[yy * padded_width
                        + xx] == padded_value(mask@, width as int, height as int, padding as int, xx, yy),
                forall|xx: int|
                    0 <= xx < x ==> #[trigger] padded@[y * padded_width + xx] == padded_value(
                        mask@,
                        width as int,
                        height as int,
                        padding as int,
                        xx,
                        y as int,
                    ),
            decreases padded_width - x,
        {
            proof {
                lemma_row_index(y as int, x as int, padded_height as int, padded_width as int);
            }
            let value = if padding <= x && x < padding + width && padding <= y && y < padding + height {
                let row = y - padding;
                let col = x - padding;
                proof {
                    lemma_row_index(row as int, col as int, height as int, width as int);
                    assert(row * width + col < mask@.len());
                    assert(mask@.len() == mask.len());
                    assert(row * width <= usize::MAX);
                }
                mask[row * width + col]
            } else {
                0
            };
            let ghost before = padded@;
            padded.push(value);
            proof {
                assert forall|xx: int, yy: int|
                    0 <= xx < padded_width && 0 <= yy < y implies #[trigger] padded@[yy * padded_width
                        + xx] == padded_value(mask@, width as int, height as int, padding as int, xx, yy) by {
                    lemma_rows_ordered(yy, xx, y as int, x as int, padded_width as int);
                    assert(padded@[yy * padded_width + xx] == before[yy * padded_width + xx]);
                }
                assert forall|xx: int|
                    0 <= xx < x + 1 implies #[trigger] padded@[y * padded_width + xx] == padded_value(
                        mask@,
                        width as int,
                        height as int,
                        padding as int,
                        xx,
                        y as int,
                    ) by {
                    if xx < x {
                        assert(padded@[y * padded_width + xx] == before[y * padded_width + xx]);
                    }
                }
            }
            x = x + 1;
        }
        proof {
            assert((y + 1) * padded_width == y * padded_width + padded_width) by (nonlinear_arith);
        }
        y = y + 1;
    }
    proof {
        assert(padded_height * padded_width == padded_width * padded_height) by (nonlinear_arith);
    }
    padded
}

/// The largest fill alpha among the samples `offsets` away from pixel (`x`, `y`) that fall
/// inside the `width` by `height` mask, or 0 when none does.
pub open spec fn dilated_alpha(
    fill: Seq<u8>,
    width: int,
    height: int,
    offsets: Seq<(i32, i32)>,
    x: int,
    y: int,
) -> u8
    decreases offsets.len(),
{
    if offsets.len() == 0 {
        0
    } else {
        let before = dilated_alpha(fill, width, height, offsets.drop_last(), x, y);
        let sample_x = x + offsets.last().0;
        let sample_y = y + offsets.last().1;
        if 0 <= sample_x < width && 0 <= sample_y < height {
            let sample = fill[sample_y * width + sample_x];
            if before < sample {
                sample
            } else {
                before
            }
        } else {
            before
        }
    }
}

/// The outline alpha of pixel (`x`, `y`): how far the dilated fill exceeds the fill there.
pub open spec fn outline_alpha(
    fill: Seq<u8>,
    width: int,
    height: int,
    offsets: Seq<(i32, i32)>,
    x: int,
    y: int,
) -> u8 {
    let dilated = dilated_alpha(fill, width, height, offsets, x, y);
    let own = fill[y * width + x];
    if dilated > own {
        (dilated - own) as u8
    } else {
        0
    }
}

/// Builds the outline mask of a `width` by `height` fill mask: each pixel is the largest fill
/// alpha found at the given `offsets` from it, less its own fill alpha. The offsets are the
/// points of a disc whose radius is the outline width.
pub fn build_outline_mask(fill_alpha: &[u8], width: u32, height: u32, offsets: &[(i32, i32)]) -> (outline: Vec<u8>)
    requires
        fill_alpha@.len() >= width * height,
        width <= i32::MAX,
        height <= i32::MAX,
        forall|k: int|
            0 <= k < offsets@.len() ==> (#[trigger] offsets@[k]).0 + width <= i32::MAX + 1 && offsets@[k].1
                + height <= i32::MAX + 1,
    ensures
        outline@.len() == fill_alpha@.len(),
        forall|x: int, y: int|
            0 <= x < width && 0 <= y < height ==> #[trigger] outline@[y * width + x] == outline_alpha(
                fill_alpha@,
                width as int,
                height as int,
                offsets@,
                x,
                y,
            ),
        forall|i: int| width * height <= i < fill_alpha@.len() ==> #[trigger] outline@[i] == 0,
{
    let width = width as usize;
    let height = height as usize;
    let mut outline: Vec<u8> = vec![0u8; fill_alpha.len()];
    let mut y: usize = 0;
    while y < height
        invariant
            0 <= y <= height,
            height <= i32::MAX,
            width <= i32::MAX,
            fill_alpha@.len() >= width * height,
            outline@.len() == fill_alpha@.len(),
            forall|k: int|
                0 <= k < offsets@.len() ==> (#[trigger] offsets@[k]).0 + width <= i32::MAX + 1
                    && offsets@[k].1 + height <= i32::MAX + 1,
            forall|xx: int, yy: int|
                0 <= xx < width && 0 <= yy < y ==> #[trigger] outline@[yy * width + xx] == outline_alpha(
                    fill_alpha@,
                    width as int,
                    height as int,
                    offsets@,
                    xx,
                    yy,
                ),
            forall|i: int| y * width <= i < fill_alpha@.len() ==> #[trigger] outline@[i] == 0,
        decreases height - y,
    {
        let mut x: usize = 0;
        while x < width
            invariant
                0 <= x <= width,
                0 <= y < height,
                height <= i32::MAX,
                width <= i32::MAX,
                fill_alpha@.len() >= width * height,
                outline@.len() == fill_alpha@.len(),
                forall|k: int|
                    0 <= k < offsets@.len() ==> (#[trigger] offsets@[k]).0 + width <= i32::MAX + 1
                        && offsets@[k].1 + height <= i32::MAX + 1,
                forall|xx: int, yy: int|
                    0 <= xx < width && 0 <= yy < y ==> #[trigger] outline@[yy * width + xx]
                        == outline_alpha(fill_alpha@, width as int, height as int, offsets@, xx, yy),
                forall|xx: int|
                    0 <= xx < x ==> #[trigger] outline@[y * width + xx] == outline_alpha(
                        fill_alpha@,
                        width as int,
                        height as int,
                        offsets@,
                        xx,
                        y as int,
                    ),
                forall|i: int| y * width + x <= i < fill_alpha@.len() ==> #[trigger] outline@[i] == 0,
            decreases width - x,
        {
            proof {
                lemma_row_index(y as int, x as int, height as int, width as int);
                assert(fill_alpha@.len() == fill_alpha.len());
            }
            let index = y * width + x;
            let mut dilated: u8 = 0;
            let mut k: usize = 0;
            while k < offsets.len()
                invariant
                    0 <= k <= offsets@.len(),
                    0 <= x < width,
                    0 <= y < height,
                    height <= i32::MAX,
                    width <= i32::MAX,
                    fill_alpha@.len() >= width * height,
                    forall|j: int|
                        0 <= j < offsets@.len() ==> (#[trigger] offsets@[j]).0 + width <= i32::MAX + 1
                            && offsets@[j].1 + height <= i32::MAX + 1,
                    dilated == dilated_alpha(
                        fill_alpha@,
                        width as int,
                        height as int,
                        offsets@.subrange(0, k as int),
                        x as int,
                        y as int,
                    ),
                decreases offsets.len() - k,
            {
                let (offset_x, offset_y) = offsets[k];
                let sample_x = x as i32 + offset_x;
                let sample_y = y as i32 + offset_y;
                proof {
                    let next = offsets@.subrange(0, k as int + 1);
                    assert(next.drop_last() =~= offsets@.subrange(0, k as int));
                    assert(next.last() == offsets@[k as int]);
                }
                if 0 <= sample_x && sample_x < width as i32 && 0 <= sample_y && sample_y < height as i32 {
                    proof {
                        lemma_row_index(sample_y as int, sample_x as int, height as int, width as int);
                        assert(fill_alpha@.len() == fill_alpha.len());
                    }
                    let sample = fill_alpha[sample_y as usize * width + sample_x as usize];
                    if dilated < sample {
                        dilated = sample;
                    }
                }
                k = k + 1;
            }
            proof {
                assert(offsets@.subrange(0, offsets@.len() as int) =~= offsets@);
            }
            let own = fill_alpha[index];
            let value = if dilated > own {
                dilated - own
            } else {
                0
            };
            let ghost before = outline@;
            outline.set(index, value);
            proof {
                assert forall|xx: int, yy: int|
                    0 <= xx < width && 0 <= yy < y implies #[trigger] outline@[yy * width + xx]
                        == outline_alpha(fill_alpha@, width as int, height as int, offsets@, xx, yy) by {
                    lemma_rows_ordered(yy, xx, y as int, x as int, width as int);
                    assert(outline@[yy * width + xx] == before[yy * width + xx]);
                }
                assert forall|xx: int|
                    0 <= xx < x + 1 implies #[trigger] outline@[y * width + xx] == outline_alpha(
                        fill_alpha@,
                        width as int,
                        height as int,
                        offsets@,
                        xx,
                        y as int,
                    ) by {
                    if xx < x {
                        assert(outline@[y * width + xx] == before[y * width + xx]);
                    }
                }
            }
            x = x + 1;
        }
        proof {
            assert((y + 1) * width == y * width + width) by (nonlinear_arith);
        }
        y = y + 1;
    }
    proof {
        assert(height * width == width * height) by (nonlinear_arith);
    }
    outline
}

/// Packs a fill mask, and an outline mask when there is one, into RGBA texels: the outline
/// alpha in the red channel, the fill alpha in the alpha channel, zero elsewhere.
pub fn pack_text_glyph_texture(fill_alpha: &[u8], outline_alpha: Option<&[u8]>) -> (rgba: Vec<u8>)
    requires
        4 * fill_alpha@.len() <= usize::MAX,
        outline_alpha matches Some(outline) ==> outline@.len() >= fill_alpha@.len(),
    ensures
        rgba@.len() == 4 * fill_alpha@.len(),
        forall|i: int|
            0 <= i < fill_alpha@.len() ==> {
                &&& #[trigger] rgba@[4 * i] == (match outline_alpha {
                    Some(outline) => outline@[i],
                    None => 0u8,
                })
                &&& rgba@[4 * i + 1] == 0
                &&& rgba@[4 * i + 2] == 0
                &&& rgba@[4 * i + 3] == fill_alpha@[i]
            },
{
    let mut rgba: Vec<u8> = Vec::new();
    let mut i: usize = 0;
    while i < fill_alpha.len()
        invariant
            0 <= i <= fill_alpha@.len(),
            4 * fill_alpha@.len() <= usize::MAX,
            outline_alpha matches Some(outline) ==> outline@.len() >= fill_alpha@.len(),
            rgba@.len() == 4 * i,
            forall|j: int|
                0 <= j < i ==> {
                    &&& #[trigger] rgba@[4 * j] == (match outline_alpha {
                        Some(outline) => outline@[j],
                        None => 0u8,
                    })
                    &&& rgba@[4 * j + 1] == 0
                    &&& rgba@[4 * j + 2] == 0
                    &&& rgba@[4 * j + 3] == fill_alpha@[j]
                },
        decreases fill_alpha.len() - i,
    {
        let red = match outline_alpha {
            Some(outline) => outline[i],
            None => 0,
        };
        let ghost before = rgba@;
        rgba.push(red);
        rgba.push(0);
        rgba.push(0);
        rgba.push(fill_alpha[i]);
        proof {
            assert forall|j: int| 0 <= j < i + 1 implies {
                &&& #[trigger] rgba@[4 * j] == (match outline_alpha {
                    Some(outline) => outline@[j],
                    None => 0u8,
                })
                &&& rgba@[4 * j + 1] == 0
                &&& rgba@[4 * j + 2] == 0
                &&& rgba@[4 * j + 3] == fill_alpha@[j]
            } by {
                if j < i {
                    assert(rgba@[4 * j] == before[4 * j]);
                    assert(rgba@[4 * j + 1] == before[4 * j + 1]);
                    assert(rgba@[4 * j + 2] == before[4 * j + 2]);
                    assert(rgba@[4 * j + 3] == before[4 * j + 3]);
                }
            }
        }
        i = i + 1;
    }
    rgba
}

/// `size` is the side of a new square font atlas for a glyph whose larger dimension is
/// `glyph_max_size`: the smallest power of two above it, and at least 512.
pub open spec fn is_atlas_size_for(size: u32, glyph_max_size: u32) -> bool {
    &&& size >= 512
    &&& size > glyph_max_size
    &&& size & ((size - 1) as u32) == 0
    &&& (size == 512 || size / 2 <= glyph_max_size)
}

/// The side of a new square font atlas for a glyph whose larger dimension is `glyph_max_size`.
pub fn atlas_size_for_glyph(glyph_max_size: u32) -> (size: u32)
    requires
        glyph_max_size < 0x8000_0000,
    ensures
        is_atlas_size_for(size, glyph_max_size),
{
    let leading = glyph_max_size.leading_zeros();
    proof {
        vstd::std_specs::bits::axiom_u32_leading_zeros(glyph_max_size);
        let m = glyph_max_size;
        if leading == 0 {
            assert(m < 0x8000_0000 ==> (m >> 31u32) & 1u32 == 0u32) by (bit_vector);
        }
    }
    let shift = 32 - leading;
    let containing = 1u32 << shift;
    proof {
        let m = glyph_max_size;
        assert(shift < 32 && m >> shift == 0 ==> m < (1u32 << shift)) by (bit_vector);
        assert(shift < 32 ==> (1u32 << shift) & (((1u32 << shift) - 1) as u32) == 0) by (bit_vector);
        if leading < 32 {
            assert((31 - leading) as u32 == (shift - 1) as u32);
            assert(1 <= shift < 32 && (m >> ((shift - 1) as u32)) & 1u32 != 0u32 ==> (1u32 << shift) / 2
                <= m) by (bit_vector);
        } else {
            assert(m == 0);
            assert(shift == 0);
            assert(1u32 << 0u32 == 1) by (bit_vector);
        }
    }
    if containing < 512 {
        proof {
            assert(512u32 & 511u32 == 0) by (bit_vector);
        }
        512
    } else {
        containing
    }
}

/// Where a glyph goes among the atlases kept for one key.
#[derive(Clone, Copy, Debug, PartialEq, Eq, Structural)]
pub enum AtlasPlacement {
    /// The atlas at this index, the first that took the glyph.
    Existing(usize),
    /// A new square atlas with this side, pushed after the others.
    New(u32),
}

/// Where a glyph of `glyph_width` by `glyph_height` texels goes, given whether each of the
/// key's atlases, in order, takes it: the first atlas that does; when none does, a new atlas
/// sized for the larger dimension of the glyph.
pub fn place_glyph_in_atlases(accepts: &[bool], glyph_width: u32, glyph_height: u32) -> (placement:
    AtlasPlacement)
    requires
        glyph_width < 0x8000_0000,
        glyph_height < 0x8000_0000,
    ensures
        match placement {
            AtlasPlacement::Existing(i) => {
                &&& i < accepts@.len()
                &&& accepts@[i as int]
                &&& forall|j: int| 0 <= j < i ==> !#[trigger] accepts@[j]
            },
            AtlasPlacement::New(size) => {
                &&& forall|j: int| 0 <= j < accepts@.len() ==> !#[trigger] accepts@[j]
                &&& is_atlas_size_for(
                    size,
                    if glyph_height >= glyph_width {
                        glyph_height
                    } else {
                        glyph_width
                    },
                )
            },
        },
{
    let mut i: usize = 0;
    while i < accepts.len()
        invariant
            0 <= i <= accepts@.len(),
            forall|j: int| 0 <= j < i ==> !#[trigger] accepts@[j],
        decreases accepts.len() - i,
    {
        if accepts[i] {
            return AtlasPlacement::Existing(i);
        }
        i = i + 1;
    }
    let glyph_max_size = if glyph_height >= glyph_width {
        glyph_height
    } else {
        glyph_width
    };
    AtlasPlacement::New(atlas_size_for_glyph(glyph_max_size))
}

/// Splits a row-major index into its row and column.
proof fn lemma_split_index(i: int, rows: int, cols: int)
    requires
        0 <= i < rows * cols,
        0 < cols,
    ensures
        0 <= i % cols < cols,
        0 <= i / cols < rows,
        i == (i / cols) * cols + i % cols,
{
    vstd::arithmetic::div_mod::lemma_fundamental_div_mod(i, cols);
    vstd::arithmetic::div_mod::lemma_mod_pos_bound(i, cols);
    vstd::arithmetic::div_mod::lemma_div_pos_is_pos(i, cols);
    assert((i / cols) * cols == cols * (i / cols)) by (nonlinear_arith);
    if i / cols >= rows {
        assert((i / cols) * cols >= rows * cols) by (nonlinear_arith)
            requires
                i / cols >= rows,
                0 < cols,
        ;
    }
}

/// A `width` by `height` mask framed by `padding` transparent pixels, row by row.
pub open spec fn padded_mask(mask: Seq<u8>, width: int, height: int, padding: int) -> Seq<u8> {
    let padded_width = width + 2 * padding;
    Seq::new(
        (padded_width * (height + 2 * padding)) as nat,
        |i: int| padded_value(mask, width, height, padding, i % padded_width, i / padded_width),
    )
}

/// The outline mask of a `width` by `height` fill mask, row by row; pixels past the mask are 0.
pub open spec fn outline_mask(
    fill: Seq<u8>,
    width: int,
    height: int,
    offsets: Seq<(i32, i32)>,
) -> Seq<u8> {
    Seq::new(
        fill.len(),
        |i: int|
            if i < width * height {
                outline_alpha(fill, width, height, offsets, i % width, i / width)
            } else {
                0
            },
    )
}

/// RGBA texels with the outline alpha, if any, in red and the fill alpha in alpha.
pub open spec fn packed_texels(fill: Seq<u8>, outline: Option<Seq<u8>>) -> Seq<u8> {
    Seq::new(
        4 * fill.len(),
        |i: int|
            if i % 4 == 0 {
                match outline {
                    Some(o) => o[i / 4],
                    None => 0u8,
                }
            } else if i % 4 == 3 {
                fill[i / 4]
            } else {
                0u8
            },
    )
}

/// How a rasterised glyph image stores its pixels.
#[derive(Clone, Copy, Debug, PartialEq, Eq, Structural)]
pub enum GlyphContent {
    /// One alpha byte per pixel.
    Mask,
    /// Four bytes of subpixel coverage per pixel.
    SubpixelMask,
    /// Four RGBA bytes per pixel.
    Color,
}

/// A rasterised glyph: its placement relative to the pen position and its pixels.
pub struct GlyphImage {
    pub left: i32,
    pub top: i32,
    pub width: u32,
    pub height: u32,
    pub content: GlyphContent,
    pub data: Vec<u8>,
}

/// The texture of a glyph: RGBA texels and the offset of its top-left corner.
pub struct GlyphTexture {
    pub width: u32,
    pub height: u32,
    pub data: Vec<u8>,
    pub left: i32,
    pub top: i32,
}

/// The fill alpha of a glyph image: the smoothed mask, or the alpha byte of each whole RGBA
/// pixel of a colour image.
pub open spec fn fill_alpha_of(content: GlyphContent, data: Seq<u8>, font_smoothing: FontSmoothing) -> Seq<u8> {
    match content {
        GlyphContent::Color => Seq::new(data.len() / 4, |i: int| data[4 * i + 3]),
        _ => Seq::new(data.len(), |i: int| smoothed_alpha(data[i], font_smoothing)),
    }
}

/// The fill alpha after the optional padding.
pub open spec fn padded_fill_of(
    image: GlyphImage,
    font_smoothing: FontSmoothing,
    padding: Option<u32>,
) -> Seq<u8> {
    let fill = fill_alpha_of(image.content, image.data@, font_smoothing);
    match padding {
        Some(p) => padded_mask(fill, image.width as int, image.height as int, p as int),
        None => fill,
    }
}

/// The texture size after the optional padding.
pub open spec fn padded_size(size: u32, padding: Option<u32>) -> int {
    match padding {
        Some(p) => size + 2 * p,
        None => size as int,
    }
}

/// The offsets of an optional outline, as a sequence.
pub open spec fn offsets_view(outline_offsets: Option<&[(i32, i32)]>) -> Option<Seq<(i32, i32)>> {
    match outline_offsets {
        Some(o) => Some(o@),
        None => None,
    }
}

/// The glyph image can be turned into a texture without overflow or out-of-range reads.
pub open spec fn glyph_image_fits(
    image: GlyphImage,
    padding: Option<u32>,
    outline_offsets: Option<Seq<(i32, i32)>>,
) -> bool {
    let fill_len = match image.content {
        GlyphContent::Color => (image.data@.len() / 4) as int,
        _ => image.data@.len() as int,
    };
    let width = padded_size(image.width, padding);
    let height = padded_size(image.height, padding);
    &&& image.content != GlyphContent::SubpixelMask
    &&& width <= u32::MAX && height <= u32::MAX
    &&& (padding is Some || outline_offsets is Some) ==> fill_len >= image.width * image.height
    &&& width * height <= usize::MAX
    &&& 4 * width * height <= usize::MAX
    &&& 4 * fill_len <= usize::MAX
    &&& outline_offsets matches Some(offsets) ==> offsets_fit(offsets, width, height)
}

/// Sampling at any of the `offsets` from a pixel of a `width` by `height` mask stays within
/// `i32`.
pub open spec fn offsets_fit(offsets: Seq<(i32, i32)>, width: int, height: int) -> bool {
    &&& width <= i32::MAX
    &&& height <= i32::MAX
    &&& forall|k: int|
        0 <= k < offsets.len() ==> (#[trigger] offsets[k]).0 + width <= i32::MAX + 1 && offsets[k].1
            + height <= i32::MAX + 1
}

/// The RGBA texels of the texture of a glyph image.
pub open spec fn glyph_texels(
    image: GlyphImage,
    font_smoothing: FontSmoothing,
    padding: Option<u32>,
    outline_offsets: Option<Seq<(i32, i32)>>,
) -> Seq<u8> {
    let fill = padded_fill_of(image, font_smoothing, padding);
    let outline = match outline_offsets {
        Some(offsets) => Some(
            outline_mask(
                fill,
                padded_size(image.width, padding),
                padded_size(image.height, padding),
                offsets,
            ),
        ),
        None => None,
    };
    packed_texels(fill, outline)
}

/// Turns a rasterised glyph image into its texture: the fill alpha (smoothed mask, or the
/// alpha of a colour image), framed by `padding` transparent pixels when given, with an
/// outline mask built from `outline_offsets` when given.
pub fn glyph_texture(
    image: &GlyphImage,
    font_smoothing: FontSmoothing,
    padding: Option<u32>,
    outline_offsets: Option<&[(i32, i32)]>,
) -> (texture: GlyphTexture)
    requires
        glyph_image_fits(
            *image,
            padding,
            offsets_view(outline_offsets),
        ),
    ensures
        texture.left == image.left,
        texture.top == image.top,
        texture.width == padded_size(image.width, padding),
        texture.height == padded_size(image.height, padding),
        texture.data@ == glyph_texels(
            *image,
            font_smoothing,
            padding,
            offsets_view(outline_offsets),
        ),
{
    let fill = match image.content {
        GlyphContent::Color => {
            let mut alpha: Vec<u8> = Vec::new();
            let mut i: usize = 0;
            while i < image.data.len() / 4
                invariant
                    0 <= i <= image.data@.len() / 4,
                    alpha@ == Seq::new(i as nat, |j: int| image.data@[4 * j + 3]),
                decreases image.data@.len() / 4 - i,
            {
                alpha.push(image.data[4 * i + 3]);
                proof {
                    assert(alpha@ =~= Seq::new((i + 1) as nat, |j: int| image.data@[4 * j + 3]));
                }
                i = i + 1;
            }
            alpha
        },
        _ => {
            let smoothed = apply_font_smoothing(image.data.as_slice(), font_smoothing);
            proof {
                assert(smoothed@ =~= Seq::new(
                    image.data@.len(),
                    |i: int| smoothed_alpha(image.data@[i], font_smoothing),
                ));
            }
            smoothed
        },
    };
    let ghost fill_spec = fill_alpha_of(image.content, image.data@, font_smoothing);
    proof {
        assert(fill@ =~= fill_spec);
    }
    let mut width = image.width;
    let mut height = image.height;
    let fill = match padding {
        Some(p) => {
            width = width + p * 2;
            height = height + p * 2;
            let padded = pad_mask(fill.as_slice(), image.width, image.height, p);
            proof {
                let spec = padded_mask(fill_spec, image.width as int, image.height as int, p as int);
                let pw = image.width + 2 * p;
                let ph = image.height + 2 * p;
                assert forall|i: int| 0 <= i < padded@.len() implies padded@[i] == spec[i] by {
                    lemma_split_index(i, ph as int, pw as int);
                    let x = i % (pw as int);
                    let y = i / (pw as int);
                    assert(padded@[y * pw + x] == padded_value(
                        fill@,
                        image.width as int,
                        image.height as int,
                        p as int,
                        x,
                        y,
                    ));
                }
                assert(padded@ =~= spec);
            }
            padded
        },
        None => fill,
    };
    let ghost padded_spec = padded_fill_of(*image, font_smoothing, padding);
    proof {
        assert(fill@ =~= padded_spec);
        assert(4 * width * height == 4 * (width * height)) by (nonlinear_arith);
        if padding is Some {
            assert(fill@.len() == width * height);
        }
        assert(4 * fill@.len() <= usize::MAX);
    }
    let data = match outline_offsets {
        Some(offsets) => {
            proof {
                assert forall|k: int| 0 <= k < offsets@.len() implies (#[trigger] offsets@[k]).0 + width
                    <= i32::MAX + 1 && offsets@[k].1 + height <= i32::MAX + 1 by {
                    let o = offsets@;
                    assert(width == padded_size(image.width, padding));
                    assert(height == padded_size(image.height, padding));
                    assert(glyph_image_fits(*image, padding, Some(o)));
                    assert(offsets_fit(o, padded_size(image.width, padding), padded_size(image.height, padding)));
                    assert(o[k].0 + padded_size(image.width, padding) <= i32::MAX + 1);
                }
            }
            let outline = build_outline_mask(fill.as_slice(), width, height, offsets);
            proof {
                let spec = outline_mask(fill@, width as int, height as int, offsets@);
                assert forall|i: int| 0 <= i < outline@.len() implies outline@[i] == spec[i] by {
                    if i < width * height {
                        assert(height * width == width * height) by (nonlinear_arith);
                        assert(width > 0) by (nonlinear_arith)
                            requires
                                0 <= i < width * height,
                        ;
                        lemma_split_index(i, height as int, width as int);
                        let x = i % (width as int);
                        let y = i / (width as int);
                        assert(outline@[y * width + x] == outline_alpha(
                            fill@,
                            width as int,
                            height as int,
                            offsets@,
                            x,
                            y,
                        ));
                    }
                }
                assert(outline@ =~= spec);
            }
            pack_text_glyph_texture(fill.as_slice(), Some(outline.as_slice()))
        },
        None => pack_text_glyph_texture(fill.as_slice(), None),
    };
    proof {
        let outline_spec = match outline_offsets {
            Some(o) => Some(outline_mask(fill@, width as int, height as int, o@)),
            None => None,
        };
        let spec = packed_texels(fill@, outline_spec);
        assert forall|i: int| 0 <= i < data@.len() implies data@[i] == spec[i] by {
            let j = i / 4;
            assert(i == 4 * j + i % 4);
            assert(0 <= j < fill@.len());
            assert(data@[4 * j] == spec[4 * j]);
            assert(data@[4 * j + 1] == 0);
            assert(data@[4 * j + 2] == 0);
            assert(data@[4 * j + 3] == fill@[j]);
        }
        assert(data@ =~= spec);
    }
    GlyphTexture { width, height, data, left: image.left, top: image.top }
}

#[verifier::external_type_specification]
#[verifier::external_body]
pub struct ExFontSystem(cosmic_text::FontSystem);

#[verifier::external_type_specification]
#[verifier::external_body]
pub struct ExSwashCache(cosmic_text::SwashCache);

#[verifier::external_type_specification]
#[verifier::external_body]
pub struct ExCacheKey(cosmic_text::CacheKey);

/// Identifies a font size and effect configuration in a set of font atlases.
#[derive(Clone, Copy, Debug, PartialEq, Eq, Hash, Structural)]
pub struct FontAtlasKey {
    pub font_size_bits: u32,
    pub font_smoothing: FontSmoothing,
    pub text_effect_padding: bool,
    /// The bit pattern of the outline width, when there is an outline.
    pub outline_width_bits: Option<u32>,
}

impl FontAtlasKey {
    pub fn new(
        font_size_bits: u32,
        font_smoothing: FontSmoothing,
        text_effect_padding: bool,
        outline_width_bits: Option<u32>,
    ) -> (key: FontAtlasKey)
        ensures
            key == (FontAtlasKey {
                font_size_bits,
                font_smoothing,
                text_effect_padding,
                outline_width_bits,
            }),
    {
        FontAtlasKey { font_size_bits, font_smoothing, text_effect_padding, outline_width_bits }
    }
}

/// Why a glyph texture could not be made.
pub enum TextError {
    /// The font system produced no image for the glyph.
    FailedToGetGlyphImage(cosmic_text::CacheKey),
    /// The glyph image holds subpixel coverage, which has no texture form.
    UnsupportedSubpixelMask(cosmic_text::CacheKey),
    /// The glyph image holds fewer pixels than its size, or is too large to pad or address.
    InconsistentGlyphImage(cosmic_text::CacheKey),
}

/// Calls `SwashCache::get_image_uncached`, which rasterises the glyph with the fonts loaded in
/// `font_system`, and moves the placement, content kind and pixels of the image it returns.
/// The result depends on the fonts, so nothing is stated of it.
#[verifier::external_body]
fn rasterize_glyph(
    swash_cache: &mut cosmic_text::SwashCache,
    font_system: &mut cosmic_text::FontSystem,
    cache_key: cosmic_text::CacheKey,
) -> Option<GlyphImage> {
    swash_cache.get_image_uncached(font_system, cache_key).map(|image| GlyphImage {
        left: image.placement.left,
        top: image.placement.top,
        width: image.placement.width,
        height: image.placement.height,
        content: match image.content {
            cosmic_text::SwashContent::Mask => GlyphContent::Mask,
            cosmic_text::SwashContent::SubpixelMask => GlyphContent::SubpixelMask,
            cosmic_text::SwashContent::Color => GlyphContent::Color,
        },
        data: image.data,
    })
}

/// Whether `glyph_image_fits` holds, computed.
fn check_glyph_image_fits(
    image: &GlyphImage,
    padding: Option<u32>,
    outline_offsets: Option<&[(i32, i32)]>,
) -> (fits: bool)
    ensures
        fits == glyph_image_fits(
            *image,
            padding,
            offsets_view(outline_offsets),
        ),
{
    if image.content == GlyphContent::SubpixelMask {
        return false;
    }
    let extra: u64 = match padding {
        Some(p) => 2 * (p as u64),
        None => 0,
    };
    let width = image.width as u64 + extra;
    let height = image.height as u64 + extra;
    proof {
        assert(width == padded_size(image.width, padding));
        assert(height == padded_size(image.height, padding));
    }
    if width > u32::MAX as u64 || height > u32::MAX as u64 {
        return false;
    }
    let fill_len: usize = match image.content {
        GlyphContent::Color => image.data.len() / 4,
        _ => image.data.len(),
    };
    proof {
        assert(image.width * image.height <= u64::MAX) by (nonlinear_arith)
            requires
                image.width <= u32::MAX,
                image.height <= u32::MAX,
        ;
    }
    let area = image.width as u64 * image.height as u64;
    if (padding.is_some() || outline_offsets.is_some()) && (fill_len as u64) < area {
        return false;
    }
    proof {
        assert(width * height <= u64::MAX) by (nonlinear_arith)
            requires
                width <= u32::MAX,
                height <= u32::MAX,
        ;
    }
    let texels = width as u128 * height as u128;
    if texels > usize::MAX as u128 || 4 * texels > usize::MAX as u128 || 4 * (fill_len as u128)
        > usize::MAX as u128 {
        proof {
            assert(4 * width * height == 4 * (width * height)) by (nonlinear_arith);
        }
        return false;
    }
    proof {
        assert(4 * width * height == 4 * (width * height)) by (nonlinear_arith);
    }
    match outline_offsets {
        Some(offsets) => {
            if width > i32::MAX as u64 || height > i32::MAX as u64 {
                return false;
            }
            let mut k: usize = 0;
            #[verifier::loop_isolation(false)]
            while k < offsets.len()
                invariant
                    0 <= k <= offsets@.len(),
                    width <= i32::MAX,
                    height <= i32::MAX,
                    forall|j: int|
                        0 <= j < k ==> (#[trigger] offsets@[j]).0 + width <= i32::MAX + 1
                            && offsets@[j].1 + height <= i32::MAX + 1,
                decreases offsets.len() - k,
            {
                let (offset_x, offset_y) = offsets[k];
                if offset_x as i64 + width as i64 > i32::MAX as i64 + 1 || offset_y as i64
                    + height as i64 > i32::MAX as i64 + 1 {
                    proof {
                        let o = offsets@;
                        assert(offsets_view(outline_offsets) == Some(o));
                        assert(!(o[k as int].0 + width <= i32::MAX + 1 && o[k as int].1 + height
                            <= i32::MAX + 1));
                        assert(!(forall|j: int|
                            0 <= j < o.len() ==> (#[trigger] o[j]).0 + width <= i32::MAX + 1 && o[j].1
                                + height <= i32::MAX + 1));
                        let pw = padded_size(image.width, padding);
                        let ph = padded_size(image.height, padding);
                        assert(pw == width && ph == height);
                        assert(!offsets_fit(o, pw, ph));
                        assert(!glyph_image_fits(*image, padding, Some(o)));
                    }
                    return false;
                }
                k = k + 1;
            }
            true
        },
        None => true,
    }
}

/// `texture` is the texture of `image`, which fits.
pub open spec fn is_texture_of(
    texture: GlyphTexture,
    image: GlyphImage,
    font_smoothing: FontSmoothing,
    padding: Option<u32>,
    outline_offsets: Option<Seq<(i32, i32)>>,
) -> bool {
    &&& glyph_image_fits(image, padding, outline_offsets)
    &&& texture.left == image.left
    &&& texture.top == image.top
    &&& texture.width == padded_size(image.width, padding)
    &&& texture.height == padded_size(image.height, padding)
    &&& texture.data@ == glyph_texels(image, font_smoothing, padding, outline_offsets)
}

/// Turns the image rasterised for `cache_key` into its texture (see [`glyph_texture`]): a
/// subpixel mask has no texture form, and an image that does not fit (see
/// [`glyph_image_fits`]) is inconsistent; both errors name the glyph.
pub fn texture_from_image(
    image: &GlyphImage,
    cache_key: cosmic_text::CacheKey,
    font_smoothing: FontSmoothing,
    padding: Option<u32>,
    outline_offsets: Option<&[(i32, i32)]>,
) -> (texture: Result<GlyphTexture, TextError>)
    ensures
        match texture {
            Ok(t) => is_texture_of(t, *image, font_smoothing, padding, offsets_view(outline_offsets)),
            Err(TextError::UnsupportedSubpixelMask(k)) => k == cache_key && image.content
                == GlyphContent::SubpixelMask,
            Err(TextError::InconsistentGlyphImage(k)) => {
                &&& k == cache_key
                &&& image.content != GlyphContent::SubpixelMask
                &&& !glyph_image_fits(*image, padding, offsets_view(outline_offsets))
            },
            Err(TextError::FailedToGetGlyphImage(_)) => false,
        },
{
    if image.content == GlyphContent::SubpixelMask {
        return Err(TextError::UnsupportedSubpixelMask(cache_key));
    }
    if !check_glyph_image_fits(image, padding, outline_offsets) {
        return Err(TextError::InconsistentGlyphImage(cache_key));
    }
    Ok(glyph_texture(image, font_smoothing, padding, outline_offsets))
}

/// Rasterises a glyph and turns the image into its texture (see [`texture_from_image`]). The
/// image depends on the loaded fonts, so the contract says what holds of every image: an
/// error names the glyph, and a texture is the one of some image that fits.
pub fn get_glyph_texture(
    font_system: &mut cosmic_text::FontSystem,
    swash_cache: &mut cosmic_text::SwashCache,
    cache_key: cosmic_text::CacheKey,
    font_smoothing: FontSmoothing,
    padding: Option<u32>,
    outline_offsets: Option<&[(i32, i32)]>,
) -> (texture: Result<GlyphTexture, TextError>)
    ensures
        texture matches Err(TextError::FailedToGetGlyphImage(k)) ==> k == cache_key,
        texture matches Err(TextError::UnsupportedSubpixelMask(k)) ==> k == cache_key,
        texture matches Err(TextError::InconsistentGlyphImage(k)) ==> k == cache_key,
        texture matches Ok(t) ==> exists|image: GlyphImage|
            #[trigger] is_texture_of(
                t,
                image,
                font_smoothing,
                padding,
                offsets_view(outline_offsets),
            ),
{
    let image = match rasterize_glyph(swash_cache, font_system, cache_key) {
        Some(image) => image,
        None => {
            return Err(TextError::FailedToGetGlyphImage(cache_key));
        },
    };
    let result = texture_from_image(&image, cache_key, font_smoothing, padding, outline_offsets);
    proof {
        if result is Ok {
            assert(result matches Ok(t) && is_texture_of(
                t,
                image,
                font_smoothing,
                padding,
                offsets_view(outline_offsets),
            ));
        }
    }
    result
}

} // verus!
