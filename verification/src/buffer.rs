//! Defines the layout and texel description of image buffers.

use vstd::prelude::*;

verus! {

use vstd::arithmetic::mul::lemma_mul_upper_bound;

/// The byte layout of a buffer.
///
/// An inner invariant, stated by [`BufferLayout::wf`], is that the layout
/// fits in memory, and in particular into a `usize`, while at the same time
/// also fitting inside a `u64` of bytes. All constructors establish it.
#[derive(Clone, Copy, Debug, PartialEq, Eq, Hash, Structural)]
pub struct BufferLayout {
    /// The number of texels along our width.
    pub width: u32,
    /// The number of texels along our height.
    pub height: u32,
    /// The number of bytes per texel.
    /// Chosen so that it can be infallibly converted to both `usize` and
    /// `u32`; no actual texel is larger.
    pub bytes_per_texel: u8,
    /// The number of bytes per row.
    pub bytes_per_row: u32,
}

/// Describes a row-major rectangular matrix layout.
///
/// This is only concerned with byte-buffer compatibility and not type or
/// color space semantics of texels. It assumes a row-major layout without
/// space between texels of a row, as that is the most efficient and common
/// such layout.
///
/// For usage as an actual image buffer, convert it to a [`BufferLayout`] by
/// calling [`BufferLayout::with_row_layout`].
#[derive(Clone, Copy, Debug, PartialEq, Eq, Hash, Structural)]
pub struct RowLayoutDescription {
    pub width: u32,
    pub height: u32,
    pub texel_stride: u64,
    pub row_stride: u64,
}

/// Describes an image semantically.
#[derive(Clone, Copy, Debug, PartialEq, Eq, Structural)]
pub struct Descriptor {
    /// The byte and physical layout of the buffer.
    pub layout: BufferLayout,
    /// Describes how each single texel is interpreted.
    pub texel: Texel,
}

/// The interpretation of a single texel: its block shape, its sample
/// encoding, and its color.
#[derive(Clone, Copy, Debug, PartialEq, Eq, Structural)]
pub struct Texel {
    /// Which part of the image a single texel refers to.
    pub block: Block,
    /// How numbers and channels are encoded into the texel.
    pub samples: Samples,
    /// How the numbers relate to physical quantities, important for
    /// conversion.
    pub color: Color,
}

/// The part of the image that a single texel refers to.
#[derive(Clone, Copy, Debug, PartialEq, Eq, Structural)]
#[non_exhaustive]
pub enum Block {
    /// Each texel is a single pixel.
    Pixel,
    /// Each texel refers to two pixels across width.
    Sub1x2,
    /// Each texel refers to four pixels across width.
    Sub1x4,
    /// Each texel refers to a two-by-two block.
    Sub2x2,
    /// Each texel refers to a two-by-four block.
    Sub2x4,
    /// Each texel refers to a four-by-four block.
    Sub4x4,
}

/// The bit encoding of values within the texel bytes.
#[derive(Clone, Copy, Debug, PartialEq, Eq, Structural)]
pub struct Samples {
    /// Which values are encoded, which controls the applicable color spaces.
    pub parts: SampleParts,
    /// How the values are encoded as bits in the bytes.
    pub bits: SampleBits,
}

/// Describes which values are present in a texel.
///
/// This is some set of channels that describe the color point precisely,
/// given a color space. An underscore identifies a channel that is encoded
/// but can be completely disregarded; it is treated as padding. There is
/// always an alternative form with an alpha channel in its place to preserve
/// it.
#[derive(Clone, Copy, Debug, PartialEq, Eq, Structural)]
#[non_exhaustive]
#[allow(non_camel_case_types)]
pub enum SampleParts {
    A,
    R,
    G,
    B,
    Luma,
    LumaA,
    Rgb,
    Bgr,
    Rgba,
    Rgb_,
    Bgra,
    Bgr_,
    Argb,
    _Rgb,
    Abgr,
    _Bgr,
    Yuv,
    Lab,
    LabA,
    LCh,
    LChA,
}

/// How the sample values are encoded as bits in the texel bytes.
#[derive(Clone, Copy, Debug, PartialEq, Eq, Structural)]
#[non_exhaustive]
#[allow(non_camel_case_types)]
pub enum SampleBits {
    /// A single 8-bit integer.
    Int8,
    /// Three packed integers.
    Int332,
    /// Three packed integers.
    Int233,
    /// A single 16-bit integer.
    Int16,
    /// Four packed integers.
    Int4x4,
    /// Four packed integers, one component ignored.
    Int_444,
    /// Four packed integers, one component ignored.
    Int444_,
    /// Three packed integers.
    Int565,
    /// Two 8-bit integers.
    Int8x2,
    /// Three 8-bit integers.
    Int8x3,
    /// Four 8-bit integers.
    Int8x4,
    /// Two 16-bit integers.
    Int16x2,
    /// Three 16-bit integers.
    Int16x3,
    /// Four 16-bit integers.
    Int16x4,
    /// Four packed integers.
    Int1010102,
    /// Four packed integers.
    Int2101010,
    /// Three packed integers, one component ignored.
    Int101010_,
    /// Three packed integers, one component ignored.
    Int_101010,
    /// Four half-precision binary floating point numbers.
    Float16x4,
    /// Four single-precision binary floating point numbers.
    Float32x4,
}

/// Describes a single channel from an image.
///
/// Note that it must match the descriptor when used in `extract` and
/// `inject`. This can be thought of as an index into a vector of channels
/// relating to a color.
#[derive(Clone, Copy, Debug, PartialEq, Eq, Structural)]
pub enum ColorChannel {
    /// The weight of the red primary.
    R,
    /// The weight of the green primary.
    G,
    /// The weight of the blue primary.
    B,
    /// A luminescence.
    Luma,
    /// An alpha/translucence component.
    Alpha,
    /// Blue-channel difference.
    Cb,
    /// Red-channel difference.
    Cr,
    /// Lightness. Not to be confused with luminescence, as this is
    /// perceptual.
    L,
    /// The green/red component of a LAB color.
    LABa,
    /// The blue/yellow component of a LAB color.
    LABb,
    /// Chroma of a LAB color, polar distance.
    C,
    /// Hue of a LAB based color, polar angle.
    LABh,
    /// The first CIE standard observer.
    X,
    /// The second CIE standard observer.
    Y,
    /// The third CIE standard observer.
    Z,
    Scalar0,
    Scalar1,
    Scalar2,
}

/// Identifies a color representation.
///
/// This names the model by which the numbers in the channels relate to a
/// physical model. The numeric machinery that interprets these tags
/// (primaries, whitepoints, transfer functions, matrix algebra) is an
/// external collaborator; the core uses the tags only as an equality and
/// compatibility predicate.
#[derive(Clone, Copy, Debug, PartialEq, Eq, Structural)]
#[non_exhaustive]
pub enum Color {
    /// An rgb-ish, additive model based on the CIE 1931 XYZ observers.
    Rgb {
        primary: Primaries,
        transfer: Transfer,
        whitepoint: Whitepoint,
        luminance: Luminance,
    },
    /// The simple but perceptual space Oklab by Björn Ottoson.
    ///
    /// Its quantized components may be either Lab or LCh.
    Oklab,
    /// A group of scalar values, with no assigned relation to physical
    /// quantities.
    Scalars {
        /// The transfer to use for points, as if they are RGB-ish colors.
        transfer: Transfer,
    },
}

/// Transfer functions from encoded chromatic samples to physical quantity.
#[derive(Clone, Copy, Debug, PartialEq, Eq, Structural)]
#[non_exhaustive]
pub enum Transfer {
    /// Non-linear electrical data of Bt.709.
    Bt709,
    Bt470M,
    /// Non-linear electrical data of Bt.601.
    Bt601,
    /// Non-linear electrical data of Smpte-240.
    Smpte240,
    /// Linear color in display luminance.
    Linear,
    /// Non-linear electrical data of Srgb.
    Srgb,
    /// Non-linear electrical data of Bt2020 that was 10-bit quantized.
    Bt2020_10bit,
    /// Non-linear electrical data of Bt2020 that was 12-bit quantized.
    Bt2020_12bit,
    /// Non-linear electrical data of Smpte-2048.
    Smpte2084,
    /// Another name for Smpte2084.
    Bt2100Pq,
    /// Non-linear electrical data of Bt2100 Hybrid-Log-Gamma.
    Bt2100Hlg,
    /// Linear color in scene luminance of Bt2100.
    Bt2100Scene,
}

/// The reference brightness of the color specification.
#[derive(Clone, Copy, Debug, PartialEq, Eq, Structural)]
#[non_exhaustive]
pub enum Luminance {
    /// 100 cd/m².
    Sdr,
    /// 10,000 cd/m², known as high-dynamic range.
    Hdr,
    /// 160 cd/m².
    AdobeRgb,
}

/// The relative stimuli of the three corners of a triangular gamut.
#[derive(Clone, Copy, Debug, PartialEq, Eq, Structural)]
#[non_exhaustive]
pub enum Primaries {
    Bt601_525,
    Bt601_625,
    Bt709,
    Smpte240,
    Bt2020,
    Bt2100,
}

/// The whitepoint/standard illuminant.
#[derive(Clone, Copy, Debug, PartialEq, Eq, Structural)]
#[non_exhaustive]
pub enum Whitepoint {
    A,
    B,
    C,
    D50,
    D55,
    D65,
    D75,
    E,
    F2,
    F7,
    F11,
}

/// The pixel formats of decoded images that the pool can take in and hand
/// out directly. Each corresponds to one concrete sample encoding.
#[derive(Clone, Copy, Debug, PartialEq, Eq, Structural)]
pub enum ImageKind {
    Luma8,
    LumaA8,
    Rgb8,
    Rgba8,
    Bgr8,
    Bgra8,
    Luma16,
    LumaA16,
    Rgb16,
    Rgba16,
}

#[verifier::external_type_specification]
#[verifier::external_body]
pub struct ExDynamicImage(image::DynamicImage);

/// The pixel format of a decoded image, by its container variant.
pub uninterp spec fn image_kind_of(img: image::DynamicImage) -> Option<ImageKind>;

/// The width and height of a decoded image, in pixels.
pub uninterp spec fn image_dims_of(img: image::DynamicImage) -> (u32, u32);

/// The raw sample bytes of a decoded image's container.
pub uninterp spec fn image_bytes_of(img: image::DynamicImage) -> Seq<u8>;

/// Relies on the variant of image's DynamicImage: each container variant
/// is mapped to its pixel format tag.
#[verifier::external_body]
pub(crate) fn dynamic_image_kind(img: &image::DynamicImage) -> (r: Option<ImageKind>)
    ensures
        r == image_kind_of(*img),
{
    Some(match img {
        image::DynamicImage::ImageLuma8(_) => ImageKind::Luma8,
        image::DynamicImage::ImageLumaA8(_) => ImageKind::LumaA8,
        image::DynamicImage::ImageRgb8(_) => ImageKind::Rgb8,
        image::DynamicImage::ImageRgba8(_) => ImageKind::Rgba8,
        image::DynamicImage::ImageBgr8(_) => ImageKind::Bgr8,
        image::DynamicImage::ImageBgra8(_) => ImageKind::Bgra8,
        image::DynamicImage::ImageLuma16(_) => ImageKind::Luma16,
        image::DynamicImage::ImageLumaA16(_) => ImageKind::LumaA16,
        image::DynamicImage::ImageRgb16(_) => ImageKind::Rgb16,
        image::DynamicImage::ImageRgba16(_) => ImageKind::Rgba16,
    })
}

/// Relies on image's GenericImageView::dimensions: the image's width and
/// height in pixels.
#[verifier::external_body]
pub(crate) fn dynamic_image_dimensions(img: &image::DynamicImage) -> (r: (u32, u32))
    ensures
        r == image_dims_of(*img),
{
    image::GenericImageView::dimensions(img)
}

/// Relies on image's DynamicImage::as_bytes: the raw bytes of the image's
/// sample container.
#[verifier::external_body]
pub(crate) fn dynamic_image_bytes(img: &image::DynamicImage) -> (r: Vec<u8>)
    ensures
        r@ == image_bytes_of(*img),
{
    img.as_bytes().to_vec()
}

#[verifier::external_type_specification]
#[verifier::external_body]
#[verifier::reject_recursive_types(L)]
pub struct ExTexelImage<L>(image_texel::image::Image<L>);

#[verifier::external_type_specification]
#[verifier::external_body]
pub struct ExTexelBytes(image_texel::layout::Bytes);

/// The bytes that an allocated texel buffer holds, within its layout's
/// length.
pub uninterp spec fn texel_image_bytes(
    b: image_texel::image::Image<image_texel::layout::Bytes>,
) -> Seq<u8>;

/// Relies on image_texel's Image::new with a Bytes layout: a buffer of
/// exactly `len` bytes, all zero-initialized.
#[verifier::external_body]
fn texel_image_alloc(len: usize) -> (r: image_texel::image::Image<image_texel::layout::Bytes>)
    ensures
        texel_image_bytes(r) == Seq::new(len as nat, |i: int| 0u8),
{
    image_texel::image::Image::new(image_texel::layout::Bytes(len))
}

/// Relies on image_texel's Image::with_bytes: the buffer takes over the
/// given contents, which the layout's length here equals exactly.
#[verifier::external_body]
fn texel_image_with_bytes(len: usize, data: &[u8]) -> (r: image_texel::image::Image<
    image_texel::layout::Bytes,
>)
    requires
        data@.len() == len,
    ensures
        texel_image_bytes(r) == data@,
{
    image_texel::image::Image::with_bytes(image_texel::layout::Bytes(len), data)
}

/// Relies on image_texel's Image::as_bytes: exactly the bytes used by the
/// layout.
#[verifier::external_body]
fn texel_image_as_bytes(b: &image_texel::image::Image<image_texel::layout::Bytes>) -> (r: &[u8])
    ensures
        r@ == texel_image_bytes(*b),
{
    b.as_bytes()
}

/// Relies on image_texel's Image::as_bytes_mut and the slice copy of the
/// standard library: the buffer's bytes are replaced by `data`, whose
/// length equals the buffer's.
#[verifier::external_body]
fn texel_image_fill(
    b: &mut image_texel::image::Image<image_texel::layout::Bytes>,
    data: &[u8],
)
    requires
        data@.len() == texel_image_bytes(*old(b)).len(),
    ensures
        texel_image_bytes(*final(b)) == data@,
{
    b.as_bytes_mut().copy_from_slice(data)
}

/// Relies on image_texel's derived Clone for Image: an identical buffer.
#[verifier::external_body]
fn texel_image_clone(b: &image_texel::image::Image<image_texel::layout::Bytes>) -> (r:
    image_texel::image::Image<image_texel::layout::Bytes>)
    ensures
        texel_image_bytes(r) == texel_image_bytes(*b),
{
    b.clone()
}

/// An allocated byte buffer for image data, highly aligned for texel
/// access, together with the buffer layout it was allocated for.
pub struct ImageBuffer {
    layout: BufferLayout,
    inner: image_texel::image::Image<image_texel::layout::Bytes>,
}

impl View for ImageBuffer {
    type V = Seq<u8>;

    closed spec fn view(&self) -> Seq<u8> {
        texel_image_bytes(self.inner)
    }
}

impl ImageBuffer {
    /// The layout this buffer was allocated for.
    pub closed spec fn spec_layout(self) -> BufferLayout {
        self.layout
    }

    /// The buffer holds exactly as many bytes as its layout requires, and
    /// the layout satisfies its own inner invariant.
    pub open spec fn wf(self) -> bool {
        &&& self.spec_layout().wf()
        &&& self@.len() == self.spec_layout().spec_byte_len()
    }

    /// Allocate a new image buffer given its layout, zero-initialized.
    pub fn with_layout(layout: &BufferLayout) -> (r: ImageBuffer)
        requires
            layout.wf(),
        ensures
            r.wf(),
            r.spec_layout() == *layout,
            r@ == Seq::new(layout.spec_byte_len() as nat, |i: int| 0u8),
    {
        let len = layout.byte_len();
        ImageBuffer { layout: *layout, inner: texel_image_alloc(len) }
    }

    /// Allocate a new image buffer holding the given bytes, whose length
    /// must equal the layout's.
    pub fn with_contents(layout: &BufferLayout, data: &[u8]) -> (r: ImageBuffer)
        requires
            layout.wf(),
            data@.len() == layout.spec_byte_len(),
        ensures
            r.wf(),
            r.spec_layout() == *layout,
            r@ == data@,
    {
        let len = layout.byte_len();
        ImageBuffer { layout: *layout, inner: texel_image_with_bytes(len, data) }
    }

    /// The layout of this buffer.
    pub fn layout(&self) -> (r: &BufferLayout)
        ensures
            *r == self.spec_layout(),
    {
        &self.layout
    }

    /// View the buffer as bytes.
    pub fn as_bytes(&self) -> (r: &[u8])
        ensures
            r@ == self@,
    {
        texel_image_as_bytes(&self.inner)
    }

    /// Overwrite the buffer with the given bytes, whose length must equal
    /// the buffer's.
    pub fn copy_from(&mut self, data: &[u8])
        requires
            data@.len() == old(self)@.len(),
        ensures
            final(self)@ == data@,
            final(self).spec_layout() == old(self).spec_layout(),
    {
        texel_image_fill(&mut self.inner, data)
    }
}

impl Clone for ImageBuffer {
    /// An identical buffer: same layout, same bytes.
    fn clone(&self) -> (r: ImageBuffer)
        ensures
            r@ == self@,
            r.spec_layout() == self.spec_layout(),
    {
        ImageBuffer { layout: self.layout, inner: texel_image_clone(&self.inner) }
    }
}

impl SampleBits {
    /// The number of bytes of a texel with these samples, as a spec-level
    /// value.
    pub open spec fn spec_bytes(self) -> int {
        match self {
            SampleBits::Int8 | SampleBits::Int332 | SampleBits::Int233 => 1,
            SampleBits::Int8x2
            | SampleBits::Int16
            | SampleBits::Int565
            | SampleBits::Int4x4
            | SampleBits::Int444_
            | SampleBits::Int_444 => 2,
            SampleBits::Int8x3 => 3,
            SampleBits::Int8x4
            | SampleBits::Int16x2
            | SampleBits::Int1010102
            | SampleBits::Int2101010
            | SampleBits::Int101010_
            | SampleBits::Int_101010 => 4,
            SampleBits::Int16x3 => 6,
            SampleBits::Int16x4 | SampleBits::Float16x4 => 8,
            SampleBits::Float32x4 => 16,
        }
    }

    /// Determine the number of bytes for texels containing these samples.
    pub fn bytes(self) -> (r: usize)
        ensures
            r == self.spec_bytes(),
    {
        match self {
            SampleBits::Int8 | SampleBits::Int332 | SampleBits::Int233 => 1,
            SampleBits::Int8x2
            | SampleBits::Int16
            | SampleBits::Int565
            | SampleBits::Int4x4
            | SampleBits::Int444_
            | SampleBits::Int_444 => 2,
            SampleBits::Int8x3 => 3,
            SampleBits::Int8x4
            | SampleBits::Int16x2
            | SampleBits::Int1010102
            | SampleBits::Int2101010
            | SampleBits::Int101010_
            | SampleBits::Int_101010 => 4,
            SampleBits::Int16x3 => 6,
            SampleBits::Int16x4 | SampleBits::Float16x4 => 8,
            SampleBits::Float32x4 => 16,
        }
    }
}

impl SampleParts {
    /// The number of channels that these parts encode, as a spec-level
    /// value.
    pub open spec fn spec_num_components(self) -> int {
        match self {
            SampleParts::A
            | SampleParts::R
            | SampleParts::G
            | SampleParts::B
            | SampleParts::Luma => 1,
            SampleParts::LumaA => 2,
            SampleParts::Rgb
            | SampleParts::Bgr
            | SampleParts::Yuv
            | SampleParts::LCh
            | SampleParts::Lab => 3,
            SampleParts::Rgba
            | SampleParts::Bgra
            | SampleParts::Rgb_
            | SampleParts::Bgr_
            | SampleParts::Argb
            | SampleParts::_Rgb
            | SampleParts::Abgr
            | SampleParts::_Bgr
            | SampleParts::LChA
            | SampleParts::LabA => 4,
        }
    }

    /// The number of channels that these parts encode.
    pub fn num_components(self) -> (r: u8)
        ensures
            r == self.spec_num_components(),
    {
        match self {
            SampleParts::A
            | SampleParts::R
            | SampleParts::G
            | SampleParts::B
            | SampleParts::Luma => 1,
            SampleParts::LumaA => 2,
            SampleParts::Rgb
            | SampleParts::Bgr
            | SampleParts::Yuv
            | SampleParts::LCh
            | SampleParts::Lab => 3,
            SampleParts::Rgba
            | SampleParts::Bgra
            | SampleParts::Rgb_
            | SampleParts::Bgr_
            | SampleParts::Argb
            | SampleParts::_Rgb
            | SampleParts::Abgr
            | SampleParts::_Bgr
            | SampleParts::LChA
            | SampleParts::LabA => 4,
        }
    }
}

impl Samples {
    /// The sample encoding of a decoded image's pixel format, as a
    /// spec-level value.
    pub open spec fn spec_for_image_kind(kind: ImageKind) -> Samples {
        match kind {
            ImageKind::Luma8 => Samples { bits: SampleBits::Int8, parts: SampleParts::Luma },
            ImageKind::LumaA8 => Samples { bits: SampleBits::Int8x2, parts: SampleParts::LumaA },
            ImageKind::Rgb8 => Samples { bits: SampleBits::Int8x3, parts: SampleParts::Rgb },
            ImageKind::Rgba8 => Samples { bits: SampleBits::Int8x4, parts: SampleParts::Rgba },
            ImageKind::Bgr8 => Samples { bits: SampleBits::Int8x3, parts: SampleParts::Bgr },
            ImageKind::Bgra8 => Samples { bits: SampleBits::Int8x4, parts: SampleParts::Bgra },
            ImageKind::Luma16 => Samples { bits: SampleBits::Int16, parts: SampleParts::Luma },
            ImageKind::LumaA16 => Samples { bits: SampleBits::Int16x2, parts: SampleParts::LumaA },
            ImageKind::Rgb16 => Samples { bits: SampleBits::Int16x3, parts: SampleParts::Rgb },
            ImageKind::Rgba16 => Samples { bits: SampleBits::Int16x4, parts: SampleParts::Rgba },
        }
    }

    /// The sample encoding of a decoded image's pixel format.
    pub fn for_image_kind(kind: ImageKind) -> (r: Samples)
        ensures
            r == Samples::spec_for_image_kind(kind),
    {
        match kind {
            ImageKind::Luma8 => Samples { bits: SampleBits::Int8, parts: SampleParts::Luma },
            ImageKind::LumaA8 => Samples { bits: SampleBits::Int8x2, parts: SampleParts::LumaA },
            ImageKind::Rgb8 => Samples { bits: SampleBits::Int8x3, parts: SampleParts::Rgb },
            ImageKind::Rgba8 => Samples { bits: SampleBits::Int8x4, parts: SampleParts::Rgba },
            ImageKind::Bgr8 => Samples { bits: SampleBits::Int8x3, parts: SampleParts::Bgr },
            ImageKind::Bgra8 => Samples { bits: SampleBits::Int8x4, parts: SampleParts::Bgra },
            ImageKind::Luma16 => Samples { bits: SampleBits::Int16, parts: SampleParts::Luma },
            ImageKind::LumaA16 => Samples { bits: SampleBits::Int16x2, parts: SampleParts::LumaA },
            ImageKind::Rgb16 => Samples { bits: SampleBits::Int16x3, parts: SampleParts::Rgb },
            ImageKind::Rgba16 => Samples { bits: SampleBits::Int16x4, parts: SampleParts::Rgba },
        }
    }

    /// The decoded-image pixel format that can represent this sample
    /// encoding directly, if any, as a spec-level value.
    pub open spec fn spec_image_kind(self) -> Option<ImageKind> {
        match (self.parts, self.bits) {
            (SampleParts::Luma, SampleBits::Int8) => Some(ImageKind::Luma8),
            (SampleParts::LumaA, SampleBits::Int8x2) => Some(ImageKind::LumaA8),
            (SampleParts::Rgb, SampleBits::Int8x3) => Some(ImageKind::Rgb8),
            (SampleParts::Rgba, SampleBits::Int8x4) => Some(ImageKind::Rgba8),
            (SampleParts::Bgr, SampleBits::Int8x3) => Some(ImageKind::Bgr8),
            (SampleParts::Bgra, SampleBits::Int8x4) => Some(ImageKind::Bgra8),
            (SampleParts::Luma, SampleBits::Int16) => Some(ImageKind::Luma16),
            (SampleParts::LumaA, SampleBits::Int16x2) => Some(ImageKind::LumaA16),
            (SampleParts::Rgb, SampleBits::Int16x3) => Some(ImageKind::Rgb16),
            (SampleParts::Rgba, SampleBits::Int16x4) => Some(ImageKind::Rgba16),
            _ => None,
        }
    }

    /// The decoded-image pixel format that can represent this sample
    /// encoding directly, if any. An executor uses this to decide whether
    /// an entry's bytes can be handed out as a decoded image without
    /// conversion.
    pub fn image_kind(self) -> (r: Option<ImageKind>)
        ensures
            r == self.spec_image_kind(),
    {
        match (self.parts, self.bits) {
            (SampleParts::Luma, SampleBits::Int8) => Some(ImageKind::Luma8),
            (SampleParts::LumaA, SampleBits::Int8x2) => Some(ImageKind::LumaA8),
            (SampleParts::Rgb, SampleBits::Int8x3) => Some(ImageKind::Rgb8),
            (SampleParts::Rgba, SampleBits::Int8x4) => Some(ImageKind::Rgba8),
            (SampleParts::Bgr, SampleBits::Int8x3) => Some(ImageKind::Bgr8),
            (SampleParts::Bgra, SampleBits::Int8x4) => Some(ImageKind::Bgra8),
            (SampleParts::Luma, SampleBits::Int16) => Some(ImageKind::Luma16),
            (SampleParts::LumaA, SampleBits::Int16x2) => Some(ImageKind::LumaA16),
            (SampleParts::Rgb, SampleBits::Int16x3) => Some(ImageKind::Rgb16),
            (SampleParts::Rgba, SampleBits::Int16x4) => Some(ImageKind::Rgba16),
            _ => None,
        }
    }
}

/// Every decoded-image pixel format round-trips through its sample
/// encoding: the encoding chosen for a format maps back to that format.
pub proof fn lemma_image_kind_roundtrip(kind: ImageKind)
    ensures
        Samples::spec_for_image_kind(kind).spec_image_kind() == Some(kind),
{
}

/// The descriptor under which a decoded sRGB image enters the pool: its
/// pixel format's sample encoding with the sRGB color tag, packed row by
/// row, provided the format is known and the extent fits the machine
/// limits.
pub open spec fn srgb_import(img: image::DynamicImage) -> Option<Descriptor> {
    match image_kind_of(img) {
        None => None,
        Some(kind) => {
            let texel = Texel {
                block: Block::Pixel,
                samples: Samples::spec_for_image_kind(kind),
                color: Color::spec_srgb(),
            };
            let (w, h) = image_dims_of(img);
            if texel.samples.bits.spec_bytes() * w <= u32::MAX && texel.samples.bits.spec_bytes()
                * w * h <= usize::MAX {
                Some(
                    Descriptor {
                        layout: BufferLayout {
                            width: w,
                            height: h,
                            bytes_per_texel: texel.samples.bits.spec_bytes() as u8,
                            bytes_per_row: (texel.samples.bits.spec_bytes() * w) as u32,
                        },
                        texel,
                    },
                )
            } else {
                None
            }
        },
    }
}

impl Block {
    /// The number of pixels across width that one texel covers, as a
    /// spec-level value.
    pub open spec fn spec_width(self) -> int {
        match self {
            Block::Pixel => 1,
            Block::Sub1x2 | Block::Sub2x2 => 2,
            Block::Sub1x4 | Block::Sub2x4 | Block::Sub4x4 => 4,
        }
    }

    /// The number of pixels across height that one texel covers, as a
    /// spec-level value.
    pub open spec fn spec_height(self) -> int {
        match self {
            Block::Pixel | Block::Sub1x2 | Block::Sub1x4 => 1,
            Block::Sub2x2 | Block::Sub2x4 => 2,
            Block::Sub4x4 => 4,
        }
    }

    /// The number of pixels across width that one texel covers.
    pub fn width(&self) -> (r: u32)
        ensures
            r == self.spec_width(),
    {
        match self {
            Block::Pixel => 1,
            Block::Sub1x2 | Block::Sub2x2 => 2,
            Block::Sub1x4 | Block::Sub2x4 | Block::Sub4x4 => 4,
        }
    }

    /// The number of pixels across height that one texel covers.
    pub fn height(&self) -> (r: u32)
        ensures
            r == self.spec_height(),
    {
        match self {
            Block::Pixel | Block::Sub1x2 | Block::Sub1x4 => 1,
            Block::Sub2x2 | Block::Sub2x4 => 2,
            Block::Sub4x4 => 4,
        }
    }
}

impl Color {
    /// The sRGB color tag.
    pub open spec fn spec_srgb() -> Color {
        Color::Rgb {
            luminance: Luminance::Sdr,
            primary: Primaries::Bt709,
            transfer: Transfer::Srgb,
            whitepoint: Whitepoint::D65,
        }
    }

    /// The sRGB color tag: Bt.709 primaries with the sRGB transfer function.
    pub fn srgb() -> (r: Color)
        ensures
            r == Color::spec_srgb(),
    {
        Color::Rgb {
            luminance: Luminance::Sdr,
            primary: Primaries::Bt709,
            transfer: Transfer::Srgb,
            whitepoint: Whitepoint::D65,
        }
    }

    /// The Bt.709 color tag: Bt.709 primaries with the Bt.709 transfer
    /// function.
    pub fn bt709() -> (r: Color)
        ensures
            r == (Color::Rgb {
                luminance: Luminance::Sdr,
                primary: Primaries::Bt709,
                transfer: Transfer::Bt709,
                whitepoint: Whitepoint::D65,
            }),
    {
        Color::Rgb {
            luminance: Luminance::Sdr,
            primary: Primaries::Bt709,
            transfer: Transfer::Bt709,
            whitepoint: Whitepoint::D65,
        }
    }

    /// What it means for this color tag to be able to carry the sample
    /// parts, as a spec-level predicate.
    pub open spec fn spec_is_consistent(self, parts: SampleParts) -> bool {
        match (self, parts) {
            (
                Color::Rgb { .. },
                SampleParts::R
                | SampleParts::G
                | SampleParts::B
                | SampleParts::Rgb
                | SampleParts::Rgba
                | SampleParts::Rgb_
                | SampleParts::_Rgb
                | SampleParts::Bgr_
                | SampleParts::_Bgr,
            ) => true,
            (Color::Oklab, SampleParts::LCh | SampleParts::LChA) => true,
            // With the scalars pseudo color, everything goes: the user
            // assigns which meaning each channel has.
            (Color::Scalars { .. }, _) => true,
            _ => false,
        }
    }

    /// Check if this color space contains the sample parts.
    ///
    /// For example, an rgb-ish color is expressed in terms of a subset of
    /// rgb channels, while Oklab colors use the polar representation.
    pub fn is_consistent(&self, parts: SampleParts) -> (r: bool)
        ensures
            r == self.spec_is_consistent(parts),
    {
        match (self, parts) {
            (
                Color::Rgb { .. },
                SampleParts::R
                | SampleParts::G
                | SampleParts::B
                | SampleParts::Rgb
                | SampleParts::Rgba
                | SampleParts::Rgb_
                | SampleParts::_Rgb
                | SampleParts::Bgr_
                | SampleParts::_Bgr,
            ) => true,
            (Color::Oklab, SampleParts::LCh | SampleParts::LChA) => true,
            (Color::Scalars { .. }, _) => true,
            _ => false,
        }
    }
}

impl Texel {
    /// The single-channel projection of these parts for `channel`, if the
    /// channel can be extracted on its own.
    pub open spec fn spec_channel_parts(self, channel: ColorChannel) -> Option<SampleParts> {
        match self.samples.parts {
            SampleParts::Rgb
            | SampleParts::Rgb_
            | SampleParts::Bgr_
            | SampleParts::_Rgb
            | SampleParts::_Bgr => match channel {
                ColorChannel::R => Some(SampleParts::R),
                ColorChannel::G => Some(SampleParts::G),
                ColorChannel::B => Some(SampleParts::B),
                _ => None,
            },
            SampleParts::Rgba
            | SampleParts::Bgra
            | SampleParts::Abgr
            | SampleParts::Argb => match channel {
                ColorChannel::R => Some(SampleParts::R),
                ColorChannel::G => Some(SampleParts::G),
                ColorChannel::B => Some(SampleParts::B),
                ColorChannel::Alpha => Some(SampleParts::A),
                _ => None,
            },
            _ => None,
        }
    }

    /// The texel describing a single channel of this texel, if the channel
    /// is contained and both the sample parts and the sample bits have a
    /// single-channel projection.
    pub open spec fn spec_channel_texel(self, channel: ColorChannel) -> Option<Texel> {
        match self.spec_channel_parts(channel) {
            None => None,
            Some(parts) => match self.samples.bits {
                SampleBits::Int8 | SampleBits::Int8x3 | SampleBits::Int8x4 => Some(
                    Texel {
                        samples: Samples { bits: SampleBits::Int8, parts },
                        block: self.block,
                        color: self.color,
                    },
                ),
                _ => None,
            },
        }
    }

    /// Get the texel describing a single channel.
    ///
    /// Returns `None` if the channel is not contained, or if it can not be
    /// extracted on its own.
    pub fn channel_texel(&self, channel: ColorChannel) -> (r: Option<Texel>)
        ensures
            r == self.spec_channel_texel(channel),
    {
        let parts = match self.samples.parts {
            SampleParts::Rgb
            | SampleParts::Rgb_
            | SampleParts::Bgr_
            | SampleParts::_Rgb
            | SampleParts::_Bgr => match channel {
                ColorChannel::R => SampleParts::R,
                ColorChannel::G => SampleParts::G,
                ColorChannel::B => SampleParts::B,
                _ => return None,
            },
            SampleParts::Rgba
            | SampleParts::Bgra
            | SampleParts::Abgr
            | SampleParts::Argb => match channel {
                ColorChannel::R => SampleParts::R,
                ColorChannel::G => SampleParts::G,
                ColorChannel::B => SampleParts::B,
                ColorChannel::Alpha => SampleParts::A,
                _ => return None,
            },
            _ => return None,
        };
        let bits = match self.samples.bits {
            SampleBits::Int8 | SampleBits::Int8x3 | SampleBits::Int8x4 => SampleBits::Int8,
            _ => return None,
        };
        Some(Texel { samples: Samples { bits, parts }, block: self.block, color: self.color })
    }
}

impl Texel {
    /// The texel of a decoded sRGB image: single-pixel blocks of the
    /// image's own sample encoding, tagged sRGB. Returns `None` for an
    /// unknown pixel format.
    pub fn with_srgb_image(img: &image::DynamicImage) -> (r: Option<Texel>)
        ensures
            match r {
                Some(texel) => image_kind_of(*img) matches Some(kind) && texel == (Texel {
                    block: Block::Pixel,
                    samples: Samples::spec_for_image_kind(kind),
                    color: Color::spec_srgb(),
                }),
                None => image_kind_of(*img) is None,
            },
    {
        match dynamic_image_kind(img) {
            Some(kind) => Some(
                Texel {
                    block: Block::Pixel,
                    samples: Samples::for_image_kind(kind),
                    color: Color::srgb(),
                },
            ),
            None => None,
        }
    }
}

impl Descriptor {
    /// Create a descriptor from a texel and dimensions, tightly packed.
    /// Returns `None` when the extent does not fit the machine limits.
    pub fn with_texel(texel: &Texel, width: u32, height: u32) -> (r: Option<Descriptor>)
        ensures
            match r {
                Some(d) => {
                    &&& texel.samples.bits.spec_bytes() * width <= u32::MAX
                    &&& texel.samples.bits.spec_bytes() * width * height <= usize::MAX
                    &&& d.texel == *texel
                    &&& d.layout == (BufferLayout {
                        width,
                        height,
                        bytes_per_texel: texel.samples.bits.spec_bytes() as u8,
                        bytes_per_row: (texel.samples.bits.spec_bytes() * width) as u32,
                    })
                    &&& d.layout.wf()
                    &&& d.spec_is_consistent()
                },
                None => {
                    ||| texel.samples.bits.spec_bytes() * width > u32::MAX
                    ||| texel.samples.bits.spec_bytes() * width * height > usize::MAX
                },
            },
    {
        match BufferLayout::with_texel(texel, width, height) {
            Some(layout) => Some(Descriptor { layout, texel: *texel }),
            None => None,
        }
    }

    /// Creates a descriptor for an sRGB encoded image, with the indicated
    /// pixel format. Returns `None` for an unknown pixel format, or when
    /// the image's extent does not fit the machine limits.
    pub fn with_srgb_image(img: &image::DynamicImage) -> (r: Option<Descriptor>)
        ensures
            r == srgb_import(*img),
    {
        let texel = match Texel::with_srgb_image(img) {
            Some(texel) => texel,
            None => { return None; },
        };
        let (width, height) = dynamic_image_dimensions(img);
        match BufferLayout::with_texel(&texel, width, height) {
            Some(layout) => Some(Descriptor { layout, texel }),
            None => None,
        }
    }
}

impl BufferLayout {
    /// The inner invariant: one row holds all its texels, and the whole
    /// buffer fits into a `usize` of bytes.
    pub open spec fn wf(self) -> bool {
        &&& self.bytes_per_texel * self.width <= self.bytes_per_row
        &&& self.bytes_per_row * self.height <= usize::MAX
    }

    /// The memory usage in bytes, as a spec-level value.
    pub open spec fn spec_byte_len(self) -> int {
        self.bytes_per_row * self.height
    }

    /// Create a buffer layout given the layout of a simple, strided matrix.
    ///
    /// Returns `None` when the strides do not fit their machine types, when
    /// a row would not hold all its texels, or when the total byte count
    /// would not fit into memory.
    pub fn with_row_layout(rows: RowLayoutDescription) -> (r: Option<BufferLayout>)
        ensures
            match r {
                Some(layout) => {
                    &&& rows.texel_stride <= u8::MAX
                    &&& rows.row_stride <= u32::MAX
                    &&& rows.texel_stride * rows.width <= rows.row_stride
                    &&& rows.row_stride * rows.height <= usize::MAX
                    &&& layout == (BufferLayout {
                        width: rows.width,
                        height: rows.height,
                        bytes_per_texel: rows.texel_stride as u8,
                        bytes_per_row: rows.row_stride as u32,
                    })
                    &&& layout.wf()
                },
                None => {
                    ||| rows.texel_stride > u8::MAX
                    ||| rows.row_stride > u32::MAX
                    ||| rows.texel_stride * rows.width > rows.row_stride
                    ||| rows.row_stride * rows.height > usize::MAX
                },
            },
    {
        if rows.texel_stride > u8::MAX as u64 {
            return None;
        }
        if rows.row_stride > u32::MAX as u64 {
            return None;
        }
        let bytes_per_texel: u8 = rows.texel_stride as u8;
        let bytes_per_row: u32 = rows.row_stride as u32;

        // Enforce that the layout makes sense and does not alias.
        proof {
            lemma_mul_upper_bound(bytes_per_texel as int, u8::MAX as int, rows.width as int, u32::MAX as int);
        }
        let bwidth: u64 = (bytes_per_texel as u64) * (rows.width as u64);
        if bwidth > bytes_per_row as u64 {
            return None;
        }

        // Enforce the inner invariant: the total size fits into a `usize`.
        proof {
            lemma_mul_upper_bound(rows.height as int, u32::MAX as int, rows.row_stride as int, u32::MAX as int);
        }
        let u64_len: u64 = (rows.height as u64) * rows.row_stride;
        if u64_len > usize::MAX as u64 {
            return None;
        }

        Some(BufferLayout { width: rows.width, height: rows.height, bytes_per_texel, bytes_per_row })
    }

    /// Create a buffer layout from a texel and dimensions, tightly packed.
    pub fn with_texel(texel: &Texel, width: u32, height: u32) -> (r: Option<BufferLayout>)
        ensures
            match r {
                Some(layout) => {
                    &&& texel.samples.bits.spec_bytes() * width <= u32::MAX
                    &&& texel.samples.bits.spec_bytes() * width * height <= usize::MAX
                    &&& layout == (BufferLayout {
                        width,
                        height,
                        bytes_per_texel: texel.samples.bits.spec_bytes() as u8,
                        bytes_per_row: (texel.samples.bits.spec_bytes() * width) as u32,
                    })
                    &&& layout.wf()
                },
                None => {
                    ||| texel.samples.bits.spec_bytes() * width > u32::MAX
                    ||| texel.samples.bits.spec_bytes() * width * height > usize::MAX
                },
            },
    {
        let texel_stride: u64 = texel.samples.bits.bytes() as u64;
        let row_stride: u64 = (width as u64) * texel_stride;
        let r = Self::with_row_layout(
            RowLayoutDescription { width, height, texel_stride, row_stride },
        );
        proof {
            assert(texel_stride * width == row_stride) by (nonlinear_arith)
                requires
                    row_stride == width * texel_stride,
            ;
            assert(row_stride * height == texel_stride * width * height) by (nonlinear_arith)
                requires
                    row_stride == texel_stride * width,
            ;
        }
        r
    }

    /// Returns the width in texels.
    pub fn width(&self) -> (r: u32)
        ensures
            r == self.width,
    {
        self.width
    }

    /// Returns the height in texels.
    pub fn height(&self) -> (r: u32)
        ensures
            r == self.height,
    {
        self.height
    }

    /// Returns the memory usage as a `u64`.
    pub fn u64_len(&self) -> (r: u64)
        ensures
            r == self.spec_byte_len(),
    {
        proof {
            lemma_mul_upper_bound(self.bytes_per_row as int, u32::MAX as int, self.height as int, u32::MAX as int);
        }
        (self.bytes_per_row as u64) * (self.height as u64)
    }

    /// Returns the memory usage as a `usize`.
    pub fn byte_len(&self) -> (r: usize)
        requires
            self.wf(),
        ensures
            r == self.spec_byte_len(),
    {
        proof {
            lemma_mul_upper_bound(self.bytes_per_row as int, u32::MAX as int, self.height as int, u32::MAX as int);
        }
        let len: u64 = (self.bytes_per_row as u64) * (self.height as u64);
        len as usize
    }

    /// Returns a matrix descriptor that can store all bytes.
    pub fn as_row_layout(&self) -> (r: RowLayoutDescription)
        ensures
            r == (RowLayoutDescription {
                width: self.width,
                height: self.height,
                texel_stride: self.bytes_per_texel as u64,
                row_stride: self.bytes_per_row as u64,
            }),
    {
        RowLayoutDescription {
            width: self.width,
            height: self.height,
            texel_stride: self.bytes_per_texel as u64,
            row_stride: self.bytes_per_row as u64,
        }
    }
}

impl Descriptor {
    /// What it means for the descriptor to be consistent: the sample
    /// encoding occupies exactly as many bytes as the layout declares per
    /// texel.
    pub open spec fn spec_is_consistent(self) -> bool {
        self.texel.samples.bits.spec_bytes() == self.layout.bytes_per_texel
    }

    /// Check if the descriptor is consistent.
    ///
    /// A consistent descriptor makes inherent sense: the sample bits
    /// occupy exactly the number of bytes that the layout declares for one
    /// texel.
    pub fn is_consistent(&self) -> (r: bool)
        ensures
            r == self.spec_is_consistent(),
    {
        self.texel.samples.bits.bytes() == self.layout.bytes_per_texel as usize
    }

    /// Get the texel describing a single channel.
    ///
    /// Returns `None` if the channel is not contained, or if it can not be
    /// extracted on its own.
    pub fn channel_texel(&self, channel: ColorChannel) -> (r: Option<Texel>)
        ensures
            r == self.texel.spec_channel_texel(channel),
    {
        self.texel.channel_texel(channel)
    }

    /// Calculate the total number of pixels in width of this layout.
    pub fn pixel_width(&self) -> (r: u32)
        requires
            self.layout.width * self.texel.block.spec_width() <= u32::MAX,
        ensures
            r == self.layout.width * self.texel.block.spec_width(),
    {
        self.layout.width * self.texel.block.width()
    }

    /// Calculate the total number of pixels in height of this layout.
    pub fn pixel_height(&self) -> (r: u32)
        requires
            self.layout.height * self.texel.block.spec_height() <= u32::MAX,
        ensures
            r == self.layout.height * self.texel.block.spec_height(),
    {
        self.layout.height * self.texel.block.height()
    }

    /// Calculate the number of texels in width and height dimension.
    pub fn size(&self) -> (r: (u32, u32))
        ensures
            r == (self.layout.width, self.layout.height),
    {
        (self.layout.width, self.layout.height)
    }
}

} // verus!
