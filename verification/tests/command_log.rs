use pixelplan::buffer::{
    Block, BufferLayout, Color, ColorChannel, Descriptor, Luminance, Primaries, SampleBits,
    SampleParts, Samples, Texel, Transfer, Whitepoint,
};
use pixelplan::command::{Affine, Blend, CommandBuffer, Rectangle, Register};

fn rgba_texel() -> Texel {
    Texel {
        block: Block::Pixel,
        samples: Samples { bits: SampleBits::Int8x4, parts: SampleParts::Rgba },
        color: Color::srgb(),
    }
}

fn rgba_descriptor(width: u32, height: u32) -> Descriptor {
    let texel = rgba_texel();
    let layout = BufferLayout::with_texel(&texel, width, height).unwrap();
    Descriptor { layout, texel }
}

fn rgb_with_whitepoint(whitepoint: Whitepoint) -> Color {
    Color::Rgb {
        primary: Primaries::Bt709,
        transfer: Transfer::Srgb,
        whitepoint,
        luminance: Luminance::Sdr,
    }
}

#[test]
fn crop_pipeline_registers_and_length() {
    // A 4x4, 4-bytes-per-element RGBA descriptor, cropped and observed.
    let mut commands = CommandBuffer::default();
    let desc = rgba_descriptor(4, 4);
    assert_eq!(desc.layout.bytes_per_texel, 4);

    let input = commands.input(desc.clone()).unwrap();
    assert_eq!(input, Register(0));

    let crop = commands.crop(input, Rectangle::with_width_height(2, 2)).unwrap();
    assert_eq!(crop, Register(1));

    // The declared extent is unchanged at the typed-log level: cropping
    // affects execution-time extent, not the typed descriptor.
    let out = commands.output(crop).unwrap();
    assert_eq!(out, desc);
    assert_eq!(commands.len(), 3);
}

#[test]
fn color_convert_differing_whitepoint_is_type_error() {
    let mut commands = CommandBuffer::default();
    let texel_d65 = Texel {
        block: Block::Pixel,
        samples: Samples { bits: SampleBits::Int8x4, parts: SampleParts::Rgba },
        color: rgb_with_whitepoint(Whitepoint::D65),
    };
    let texel_d50 = Texel {
        block: Block::Pixel,
        samples: Samples { bits: SampleBits::Int8x4, parts: SampleParts::Rgba },
        color: rgb_with_whitepoint(Whitepoint::D50),
    };
    let layout = BufferLayout::with_texel(&texel_d65, 4, 4).unwrap();
    let reg = commands.input(Descriptor { layout, texel: texel_d65 }).unwrap();

    let err = commands.color_convert(reg, texel_d50).unwrap_err();
    assert!(err.is_type_err());
    assert_eq!(commands.len(), 1);
}

#[test]
fn color_convert_same_whitepoint_succeeds() {
    let mut commands = CommandBuffer::default();
    let desc = rgba_descriptor(4, 4);
    let reg = commands.input(desc).unwrap();
    let target = Texel {
        block: Block::Pixel,
        samples: Samples { bits: SampleBits::Int8x3, parts: SampleParts::Rgb },
        color: Color::bt709(),
    };
    let converted = commands.color_convert(reg, target).unwrap();
    assert_eq!(converted, Register(1));
    assert_eq!(commands.len(), 2);
}

#[test]
fn inscribe_rectangle_mismatch_is_generic_error() {
    let mut commands = CommandBuffer::default();
    let below = commands.input(rgba_descriptor(4, 4)).unwrap();
    let above = commands.input(rgba_descriptor(2, 2)).unwrap();

    // The rectangle does not exactly equal `above`'s full extent.
    let err = commands.inscribe(below, Rectangle::with_width_height(1, 1), above).unwrap_err();
    assert!(!err.is_type_err());
    assert_eq!(commands.len(), 2);
}

#[test]
fn inscribe_full_extent_succeeds() {
    let mut commands = CommandBuffer::default();
    let below = commands.input(rgba_descriptor(4, 4)).unwrap();
    let above = commands.input(rgba_descriptor(2, 2)).unwrap();
    let reg = commands.inscribe(below, Rectangle::with_width_height(2, 2), above).unwrap();
    assert_eq!(reg, Register(2));
    assert_eq!(commands.len(), 3);
}

#[test]
fn inscribe_texel_mismatch_is_type_error() {
    let mut commands = CommandBuffer::default();
    let below = commands.input(rgba_descriptor(4, 4)).unwrap();
    let texel = Texel {
        block: Block::Pixel,
        samples: Samples { bits: SampleBits::Int8x3, parts: SampleParts::Rgb },
        color: Color::srgb(),
    };
    let layout = BufferLayout::with_texel(&texel, 2, 2).unwrap();
    let above = commands.input(Descriptor { layout, texel }).unwrap();

    let err = commands.inscribe(below, Rectangle::with_width_height(2, 2), above).unwrap_err();
    assert!(err.is_type_err());
    assert_eq!(commands.len(), 2);
}

#[test]
fn extract_missing_alpha_is_generic_error() {
    let mut commands = CommandBuffer::default();
    let texel = Texel {
        block: Block::Pixel,
        samples: Samples { bits: SampleBits::Int8x3, parts: SampleParts::Rgb },
        color: Color::srgb(),
    };
    let layout = BufferLayout::with_texel(&texel, 4, 4).unwrap();
    let reg = commands.input(Descriptor { layout, texel }).unwrap();

    // The sample parts have no alpha channel to extract.
    let err = commands.extract(reg, ColorChannel::Alpha).unwrap_err();
    assert!(!err.is_type_err());
    assert_eq!(commands.len(), 1);
}

#[test]
fn extract_red_channel_succeeds() {
    let mut commands = CommandBuffer::default();
    let reg = commands.input(rgba_descriptor(4, 4)).unwrap();
    let channel = commands.extract(reg, ColorChannel::R).unwrap();
    assert_eq!(channel, Register(1));
}

#[test]
fn inject_channel_roundtrip() {
    let mut commands = CommandBuffer::default();
    let below = commands.input(rgba_descriptor(4, 4)).unwrap();
    let alpha = commands.extract(below, ColorChannel::Alpha).unwrap();
    let injected = commands.inject(below, ColorChannel::Alpha, alpha).unwrap();
    assert_eq!(injected, Register(2));
}

#[test]
fn inject_wrong_texel_is_type_error() {
    let mut commands = CommandBuffer::default();
    let below = commands.input(rgba_descriptor(4, 4)).unwrap();
    let above = commands.input(rgba_descriptor(4, 4)).unwrap();

    // A full RGBA image is not the single-channel projection.
    let err = commands.inject(below, ColorChannel::Alpha, above).unwrap_err();
    assert!(err.is_type_err());
    assert_eq!(commands.len(), 2);
}

#[test]
fn blend_is_reserved_and_fails() {
    let mut commands = CommandBuffer::default();
    let below = commands.input(rgba_descriptor(4, 4)).unwrap();
    let above = commands.input(rgba_descriptor(4, 4)).unwrap();
    let err = commands
        .blend(below, Rectangle::with_width_height(4, 4), above, Blend::Alpha)
        .unwrap_err();
    assert!(!err.is_type_err());
    assert_eq!(commands.len(), 2);
}

#[test]
fn solid_requires_exact_texel_bytes() {
    let mut commands = CommandBuffer::default();
    let desc = rgba_descriptor(4, 4);

    let err = commands.solid(desc.clone(), &[0, 1, 2]).unwrap_err();
    assert!(err.is_type_err());
    assert_eq!(commands.len(), 0);

    let reg = commands.solid(desc, &[0, 1, 2, 3]).unwrap();
    assert_eq!(reg, Register(0));
    assert_eq!(commands.len(), 1);
}

#[test]
fn affine_keeps_descriptor() {
    let mut commands = CommandBuffer::default();
    let reg = commands.input(rgba_descriptor(4, 4)).unwrap();
    let transformed = commands
        .affine(reg, Affine::new([0x3f800000, 0, 0, 0, 0x3f800000, 0, 0, 0, 0x3f800000]))
        .unwrap();
    assert_eq!(transformed, Register(1));
    let out = commands.output(transformed).unwrap();
    assert_eq!(out, rgba_descriptor(4, 4));
}

#[test]
fn bad_register_is_generic_error() {
    let mut commands = CommandBuffer::default();
    let err = commands.crop(Register(7), Rectangle::with_width_height(1, 1)).unwrap_err();
    assert!(!err.is_type_err());
    assert_eq!(commands.len(), 0);
}

#[test]
fn output_register_is_not_a_source() {
    let mut commands = CommandBuffer::default();
    let reg = commands.input(rgba_descriptor(4, 4)).unwrap();
    commands.output(reg).unwrap();

    // The output instruction occupies index 1, but outputs are sinks.
    let err = commands.crop(Register(1), Rectangle::with_width_height(1, 1)).unwrap_err();
    assert!(!err.is_type_err());
    assert_eq!(commands.len(), 2);
}

#[test]
fn inconsistent_descriptor_is_rejected_by_input() {
    let mut commands = CommandBuffer::default();
    let mut desc = rgba_descriptor(4, 4);
    // Four-byte samples declared in a one-byte element.
    desc.layout.bytes_per_texel = 1;
    assert!(!desc.is_consistent());

    let err = commands.input(desc).unwrap_err();
    assert!(err.is_type_err());
    assert_eq!(commands.len(), 0);
}

#[test]
fn successful_producing_calls_number_registers_in_order() {
    let mut commands = CommandBuffer::default();
    for expected in 0..5usize {
        let reg = commands.input(rgba_descriptor(2, 2)).unwrap();
        assert_eq!(reg, Register(expected));
    }
    assert_eq!(commands.len(), 5);
}
