use pixelplan::buffer::{
    Block, BufferLayout, Color, ColorChannel, Descriptor, RowLayoutDescription, SampleBits,
    SampleParts, Samples, Texel,
};
use pixelplan::command::Rectangle;

fn rect(x: u32, y: u32, max_x: u32, max_y: u32) -> Rectangle {
    Rectangle { x, y, max_x, max_y }
}

#[test]
fn rectangle_extent_and_degenerate_form() {
    let r = rect(1, 2, 5, 3);
    assert_eq!(r.width(), 4);
    assert_eq!(r.height(), 1);

    // A rectangle whose order is not correct is interpreted as empty.
    let empty = rect(5, 5, 2, 2);
    assert_eq!(empty.width(), 0);
    assert_eq!(empty.height(), 0);
}

#[test]
fn rectangle_meet_is_commutative_and_idempotent() {
    let a = rect(0, 0, 4, 4);
    let b = rect(2, 1, 6, 3);
    assert_eq!(a.meet(b), b.meet(a));
    assert_eq!(a.meet(b), rect(2, 1, 4, 3));
    assert_eq!(a.meet(a), a);
}

#[test]
fn rectangle_join_contains_both() {
    let a = rect(0, 0, 4, 4);
    let b = rect(2, 1, 6, 3);
    assert_eq!(a.join(b), rect(0, 0, 6, 4));
    assert_eq!(a.join(a), a);
    assert!(a.join(b).contains(a));
    assert!(a.join(b).contains(b));
}

#[test]
fn rectangle_contains_itself_and_respects_offsets() {
    let a = rect(1, 1, 5, 5);
    assert!(a.contains(a));
    assert!(a.contains(rect(2, 2, 4, 4)));
    assert!(!a.contains(rect(0, 0, 2, 2)));
    assert!(!a.contains(rect(4, 4, 6, 6)));
}

#[test]
fn rectangle_normalize_preserves_extent() {
    let r = rect(3, 4, 1, 2);
    let n = r.normalize();
    assert_eq!(n, rect(3, 4, 3, 4));
    assert_eq!(n.width(), r.width());
    assert_eq!(n.height(), r.height());

    let proper = rect(1, 1, 4, 6);
    assert_eq!(proper.normalize(), proper);
}

#[test]
fn rectangle_inset_shrinks_all_sides() {
    let r = rect(1, 1, 6, 6);
    assert_eq!(r.inset(1), rect(2, 2, 5, 5));
    // Shrinking past the middle leaves an empty rectangle.
    assert_eq!(r.inset(4).width(), 0);
}

#[test]
fn sample_bits_byte_widths() {
    assert_eq!(SampleBits::Int8.bytes(), 1);
    assert_eq!(SampleBits::Int565.bytes(), 2);
    assert_eq!(SampleBits::Int8x3.bytes(), 3);
    assert_eq!(SampleBits::Int2101010.bytes(), 4);
    assert_eq!(SampleBits::Int16x3.bytes(), 6);
    assert_eq!(SampleBits::Float16x4.bytes(), 8);
    assert_eq!(SampleBits::Float32x4.bytes(), 16);
}

#[test]
fn sample_parts_component_counts() {
    assert_eq!(SampleParts::Luma.num_components(), 1);
    assert_eq!(SampleParts::LumaA.num_components(), 2);
    assert_eq!(SampleParts::Bgr.num_components(), 3);
    assert_eq!(SampleParts::Abgr.num_components(), 4);
}

#[test]
fn block_pixel_coverage() {
    assert_eq!(Block::Pixel.width(), 1);
    assert_eq!(Block::Sub2x2.width(), 2);
    assert_eq!(Block::Sub4x4.width(), 4);
    assert_eq!(Block::Pixel.height(), 1);
    assert_eq!(Block::Sub2x4.height(), 2);
    // A four-by-four block covers four pixels in each dimension.
    assert_eq!(Block::Sub4x4.height(), 4);
    assert_eq!(Block::Sub4x4.width(), 4);
}

#[test]
fn color_consistency_with_sample_parts() {
    let srgb = Color::srgb();
    assert!(srgb.is_consistent(SampleParts::Rgba));
    assert!(srgb.is_consistent(SampleParts::R));
    assert!(!srgb.is_consistent(SampleParts::LCh));
    assert!(Color::Oklab.is_consistent(SampleParts::LCh));
    assert!(!Color::Oklab.is_consistent(SampleParts::Rgba));
}

#[test]
fn channel_texel_projects_single_channels() {
    let texel = Texel {
        block: Block::Pixel,
        samples: Samples { bits: SampleBits::Int8x4, parts: SampleParts::Bgra },
        color: Color::srgb(),
    };
    let red = texel.channel_texel(ColorChannel::R).unwrap();
    assert_eq!(red.samples.parts, SampleParts::R);
    assert_eq!(red.samples.bits, SampleBits::Int8);

    // Sixteen-bit samples have no single-channel projection here.
    let wide = Texel {
        block: Block::Pixel,
        samples: Samples { bits: SampleBits::Int16x4, parts: SampleParts::Rgba },
        color: Color::srgb(),
    };
    assert!(wide.channel_texel(ColorChannel::R).is_none());
    // Luma has no projection at all.
    let luma = Texel {
        block: Block::Pixel,
        samples: Samples { bits: SampleBits::Int8, parts: SampleParts::Luma },
        color: Color::Scalars { transfer: pixelplan::buffer::Transfer::Linear },
    };
    assert!(luma.channel_texel(ColorChannel::Luma).is_none());
}

#[test]
fn row_layout_roundtrip_and_validation() {
    let rows = RowLayoutDescription { width: 4, height: 3, texel_stride: 4, row_stride: 16 };
    let layout = BufferLayout::with_row_layout(rows).unwrap();
    assert_eq!(layout.width(), 4);
    assert_eq!(layout.height(), 3);
    assert_eq!(layout.byte_len(), 48);
    assert_eq!(layout.u64_len(), 48);
    assert_eq!(layout.as_row_layout(), rows);

    // A row too narrow for its texels does not make sense.
    let aliasing = RowLayoutDescription { width: 5, height: 1, texel_stride: 4, row_stride: 16 };
    assert!(BufferLayout::with_row_layout(aliasing).is_none());

    // A texel stride beyond one byte's range cannot be represented.
    let huge = RowLayoutDescription { width: 1, height: 1, texel_stride: 300, row_stride: 300 };
    assert!(BufferLayout::with_row_layout(huge).is_none());
}

#[test]
fn descriptor_consistency_checks_element_size() {
    let texel = Texel {
        block: Block::Pixel,
        samples: Samples { bits: SampleBits::Int8x4, parts: SampleParts::Rgba },
        color: Color::srgb(),
    };
    let layout = BufferLayout::with_texel(&texel, 4, 4).unwrap();
    let good = Descriptor { layout, texel: texel.clone() };
    assert!(good.is_consistent());

    let mut bad = good.clone();
    bad.layout.bytes_per_texel = 3;
    assert!(!bad.is_consistent());
}

#[test]
fn descriptor_with_texel_packs_rows() {
    let texel = Texel {
        block: Block::Pixel,
        samples: Samples { bits: SampleBits::Int16x3, parts: SampleParts::Rgb },
        color: Color::srgb(),
    };
    let desc = Descriptor::with_texel(&texel, 5, 2).unwrap();
    assert_eq!(desc.layout.width(), 5);
    assert_eq!(desc.layout.height(), 2);
    assert_eq!(desc.layout.bytes_per_texel, 6);
    assert_eq!(desc.layout.bytes_per_row, 30);
    assert!(desc.is_consistent());
}

#[test]
fn descriptor_pixel_extent_scales_by_block() {
    let texel = Texel {
        block: Block::Sub2x2,
        samples: Samples { bits: SampleBits::Int8x4, parts: SampleParts::Rgba },
        color: Color::srgb(),
    };
    let layout = BufferLayout::with_texel(&texel, 4, 4).unwrap();
    let desc = Descriptor { layout, texel };
    assert_eq!(desc.size(), (4, 4));
    assert_eq!(desc.pixel_width(), 8);
    assert_eq!(desc.pixel_height(), 8);
}
