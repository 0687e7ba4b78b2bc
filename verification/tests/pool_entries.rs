use pixelplan::buffer::{
    Block, BufferLayout, Color, Descriptor, ImageBuffer, ImageKind, SampleBits, SampleParts,
    Samples, Texel,
};
use pixelplan::command::CommandBuffer;
use pixelplan::pool::{ImageData, Pool, PoolKey};
use pixelplan::program::Capabilities;

fn rgba_texel() -> Texel {
    Texel {
        block: Block::Pixel,
        samples: Samples { bits: SampleBits::Int8x4, parts: SampleParts::Rgba },
        color: Color::srgb(),
    }
}

fn layout_2x2() -> BufferLayout {
    BufferLayout::with_texel(&rgba_texel(), 2, 2).unwrap()
}

fn host_buffer(layout: &BufferLayout, fill: u8) -> ImageBuffer {
    let bytes = vec![fill; layout.byte_len()];
    ImageBuffer::with_contents(layout, &bytes)
}

#[test]
fn insert_and_read_back() {
    let mut pool = Pool::new();
    let layout = layout_2x2();
    let key = pool.insert(host_buffer(&layout, 7), rgba_texel());

    let entry = pool.entry(key).unwrap();
    assert_eq!(entry.key(), key);
    assert_eq!(*entry.layout(), layout);
    assert_eq!(entry.descriptor(), Descriptor { layout, texel: rgba_texel() });
    assert_eq!(entry.as_bytes().unwrap(), &vec![7u8; 16][..]);
    assert!(!entry.meta().no_read);
}

#[test]
fn null_key_never_names_an_entry() {
    let mut pool = Pool::new();
    pool.insert(host_buffer(&layout_2x2(), 0), rgba_texel());
    assert!(pool.entry(PoolKey::null()).is_none());
}

#[test]
fn removed_key_stays_dead_after_slot_reuse() {
    let mut pool = Pool::new();
    let first = pool.insert(host_buffer(&layout_2x2(), 1), rgba_texel());
    pool.remove(first).unwrap();
    assert!(pool.entry(first).is_none());

    // The slot is reused under a fresh generation; the stale key still
    // resolves to nothing.
    let second = pool.insert(host_buffer(&layout_2x2(), 2), rgba_texel());
    assert_ne!(first, second);
    assert!(pool.entry(first).is_none());
    assert_eq!(pool.entry(second).unwrap().as_bytes().unwrap()[0], 2);
}

#[test]
fn declare_is_late_bound() {
    let mut pool = Pool::new();
    let layout = layout_2x2();
    let desc = Descriptor { layout, texel: rgba_texel() };
    assert!(desc.is_consistent());
    let key = pool.declare(desc.clone());

    let entry = pool.entry(key).unwrap();
    assert_eq!(entry.descriptor(), desc);
    // No data yet: a late-bound entry is not host-accessible.
    assert!(entry.as_bytes().is_none());
}

#[test]
fn allocate_like_copies_host_bytes() {
    let mut pool = Pool::new();
    let source = pool.insert(host_buffer(&layout_2x2(), 9), rgba_texel());
    let copy = pool.allocate_like(source);
    assert_ne!(source, copy);
    assert_eq!(pool.entry(copy).unwrap().as_bytes().unwrap(), &vec![9u8; 16][..]);
}

#[test]
fn allocate_like_of_late_bound_is_zeroed() {
    let mut pool = Pool::new();
    let source = pool.declare(Descriptor { layout: layout_2x2(), texel: rgba_texel() });
    let copy = pool.allocate_like(source);
    assert_eq!(pool.entry(copy).unwrap().as_bytes().unwrap(), &vec![0u8; 16][..]);
}

#[test]
fn set_color_changes_descriptor_only() {
    let mut pool = Pool::new();
    let key = pool.insert(host_buffer(&layout_2x2(), 3), rgba_texel());
    let new_color = Color::bt709();
    pool.set_color(key, new_color.clone());

    let entry = pool.entry(key).unwrap();
    assert_eq!(entry.descriptor().texel.color, new_color);
    assert_eq!(entry.as_bytes().unwrap(), &vec![3u8; 16][..]);
}

#[test]
fn trade_swaps_disposable_contents() {
    // An entry with no-read set trades by exchanging backing stores:
    // a zero-copy transfer.
    let mut pool = Pool::new();
    let layout = layout_2x2();
    let key = pool.insert(host_buffer(&layout, 0xAA), rgba_texel());
    pool.set_no_read(key, true);

    let mut caller = ImageData::Host(host_buffer(&layout, 0xBB));
    assert!(pool.trade(key, &mut caller));

    // The pool now holds the caller's prior contents, the caller the
    // pool's prior contents.
    assert_eq!(pool.entry(key).unwrap().as_bytes().unwrap(), &vec![0xBB; 16][..]);
    match &caller {
        ImageData::Host(buffer) => assert_eq!(buffer.as_bytes(), &vec![0xAA; 16][..]),
        _ => panic!("trade must hand back the host buffer"),
    }
}

#[test]
fn trade_copies_preserved_host_contents() {
    // With no-read unset and host-accessible data, trade installs a
    // defensive copy and leaves the entry untouched.
    let mut pool = Pool::new();
    let layout = layout_2x2();
    let key = pool.insert(host_buffer(&layout, 0x11), rgba_texel());

    let mut caller = ImageData::LateBound(layout);
    assert!(pool.trade(key, &mut caller));

    assert_eq!(pool.entry(key).unwrap().as_bytes().unwrap(), &vec![0x11; 16][..]);
    match &caller {
        ImageData::Host(buffer) => assert_eq!(buffer.as_bytes(), &vec![0x11; 16][..]),
        _ => panic!("trade must install a host copy"),
    }
}

#[test]
fn trade_refuses_preserved_device_contents() {
    let mut pool = Pool::new();
    let layout = layout_2x2();
    let key = pool.insert(host_buffer(&layout, 0x42), rgba_texel());
    let gpu = pool.register_device(77);
    // Move the entry's data to the device.
    pool.replace(key, ImageData::Gpu { buffer: 5, layout, gpu });

    let mut caller = ImageData::LateBound(layout);
    assert!(!pool.trade(key, &mut caller));
    assert!(matches!(caller, ImageData::LateBound(_)));
}

#[test]
fn host_allocate_returns_previous_data() {
    let mut pool = Pool::new();
    let layout = layout_2x2();
    let key = pool.insert(host_buffer(&layout, 0x55), rgba_texel());

    let previous = pool.host_allocate(key);
    match previous {
        ImageData::Host(buffer) => assert_eq!(buffer.as_bytes(), &vec![0x55; 16][..]),
        _ => panic!("previous data was host-resident"),
    }
    assert_eq!(pool.entry(key).unwrap().as_bytes().unwrap(), &vec![0u8; 16][..]);
}

#[test]
fn swap_exchanges_backing_stores() {
    let mut pool = Pool::new();
    let layout = layout_2x2();
    let key = pool.insert(host_buffer(&layout, 1), rgba_texel());

    let mut other = ImageData::Host(host_buffer(&layout, 2));
    pool.swap(key, &mut other);
    assert_eq!(pool.entry(key).unwrap().as_bytes().unwrap(), &vec![2u8; 16][..]);
    match &other {
        ImageData::Host(buffer) => assert_eq!(buffer.as_bytes(), &vec![1u8; 16][..]),
        _ => panic!("swap must hand back the host buffer"),
    }
}

#[test]
fn fill_bytes_overwrites_host_contents() {
    let mut pool = Pool::new();
    let layout = layout_2x2();
    let key = pool.insert(host_buffer(&layout, 0), rgba_texel());

    let bytes: Vec<u8> = (0..16).collect();
    pool.fill_bytes(key, &bytes);
    assert_eq!(pool.entry(key).unwrap().as_bytes().unwrap(), &bytes[..]);
}

#[test]
fn device_registry_hands_out_first_available() {
    let mut pool = Pool::new();
    let first = pool.register_device(10);
    let second = pool.register_device(20);
    assert_ne!(first, second);

    let handles = pool.iter_devices();
    assert_eq!(handles, vec![10, 20]);

    let (key_a, handle_a) = pool.select_device(&Capabilities {}).unwrap();
    let (key_b, handle_b) = pool.select_device(&Capabilities {}).unwrap();
    assert_ne!(key_a, key_b);
    let mut got = vec![handle_a, handle_b];
    got.sort();
    assert_eq!(got, vec![10, 20]);
    assert!(pool.select_device(&Capabilities {}).is_none());
}

#[test]
fn keys_list_exactly_the_live_entries() {
    let mut pool = Pool::new();
    let first = pool.insert(host_buffer(&layout_2x2(), 1), rgba_texel());
    let second = pool.insert(host_buffer(&layout_2x2(), 2), rgba_texel());
    let third = pool.insert(host_buffer(&layout_2x2(), 3), rgba_texel());
    pool.remove(second).unwrap();

    let keys = pool.keys();
    assert_eq!(keys, vec![first, third]);
    for key in keys {
        assert!(pool.entry(key).is_some());
    }
}

#[test]
fn insert_srgb_moves_decoded_bytes_into_pool() {
    let mut pool = Pool::new();
    let pixels: Vec<u8> = (0..16).collect();
    let decoded = image::DynamicImage::ImageRgba8(
        image::ImageBuffer::from_vec(2, 2, pixels.clone()).unwrap(),
    );

    let key = pool.insert_srgb(&decoded).unwrap();
    let entry = pool.entry(key).unwrap();
    assert_eq!(entry.as_bytes().unwrap(), &pixels[..]);

    let desc = entry.descriptor();
    assert_eq!(desc.layout.width(), 2);
    assert_eq!(desc.layout.height(), 2);
    assert_eq!(desc.texel.samples.parts, SampleParts::Rgba);
    assert_eq!(desc.texel.samples.bits, SampleBits::Int8x4);
    assert_eq!(desc.texel.color, Color::srgb());
    assert!(desc.is_consistent());
}

#[test]
fn image_kind_selection_roundtrip() {
    let samples = Samples { bits: SampleBits::Int8x4, parts: SampleParts::Rgba };
    assert_eq!(samples.image_kind(), Some(ImageKind::Rgba8));
    assert_eq!(Samples::for_image_kind(ImageKind::Rgba8), samples);

    // A packed encoding has no direct decoded-image representation.
    let packed = Samples { bits: SampleBits::Int565, parts: SampleParts::Rgb };
    assert_eq!(packed.image_kind(), None);
}

#[test]
fn input_from_uses_pool_descriptor() {
    let mut pool = Pool::new();
    let layout = layout_2x2();
    let key = pool.insert(host_buffer(&layout, 0), rgba_texel());

    let mut commands = CommandBuffer::default();
    let reg = commands.input_from(pool.entry(key).unwrap()).unwrap();
    let out = commands.output(reg).unwrap();
    assert_eq!(out, Descriptor { layout, texel: rgba_texel() });
}
