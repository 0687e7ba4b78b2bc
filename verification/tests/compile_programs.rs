use pixelplan::buffer::{
    Block, BufferLayout, Color, Descriptor, SampleBits, SampleParts, Samples, Texel,
};
use pixelplan::command::{CommandBuffer, Rectangle};
use pixelplan::program::{High, Texture};

fn small_descriptor(width: u32, height: u32) -> Descriptor {
    let texel = Texel {
        block: Block::Pixel,
        samples: Samples { bits: SampleBits::Int8x4, parts: SampleParts::Rgba },
        color: Color::srgb(),
    };
    let layout = BufferLayout::with_texel(&texel, width, height).unwrap();
    Descriptor { layout, texel }
}

#[test]
fn liveness_intervals_of_simple_pipeline() {
    let mut commands = CommandBuffer::default();
    let input = commands.input(small_descriptor(4, 4)).unwrap();
    let crop = commands.crop(input, Rectangle::with_width_height(2, 2)).unwrap();
    commands.output(crop).unwrap();

    let program = commands.compile().unwrap();
    // Register 0 is read only by the crop at index 1; register 1 only by
    // the output at index 2; the output instruction itself is never read.
    assert_eq!(program.first_use, vec![1, 2, 3]);
    assert_eq!(program.last_use, vec![1, 2, 0]);
}

#[test]
fn never_read_register_has_empty_interval() {
    let mut commands = CommandBuffer::default();
    commands.input(small_descriptor(4, 4)).unwrap();
    let program = commands.compile().unwrap();
    assert_eq!(program.first_use, vec![1]);
    assert_eq!(program.last_use, vec![0]);
    assert!(program.first_use[0] > program.last_use[0]);
}

#[test]
fn binary_operands_extend_both_intervals() {
    let mut commands = CommandBuffer::default();
    let below = commands.input(small_descriptor(4, 4)).unwrap();
    let above = commands.input(small_descriptor(2, 2)).unwrap();
    let merged = commands.inscribe(below, Rectangle::with_width_height(2, 2), above).unwrap();
    commands.output(merged).unwrap();

    let program = commands.compile().unwrap();
    assert_eq!(program.first_use, vec![2, 2, 3, 4]);
    assert_eq!(program.last_use, vec![2, 2, 3, 0]);
}

#[test]
fn lowering_brackets_each_texture_lifetime() {
    let mut commands = CommandBuffer::default();
    let input = commands.input(small_descriptor(4, 4)).unwrap();
    let crop = commands.crop(input, Rectangle::with_width_height(2, 2)).unwrap();
    commands.output(crop).unwrap();

    let program = commands.compile().unwrap();
    assert_eq!(program.num_textures, 2);
    assert_eq!(program.reg_tex, vec![0, 1, 1]);

    assert_eq!(program.ops.len(), 7);
    assert!(matches!(program.ops[0], High::Allocate(Texture(0))));
    assert!(matches!(program.ops[1], High::Input(Texture(0), _)));
    assert!(matches!(program.ops[2], High::Allocate(Texture(1))));
    assert!(matches!(
        program.ops[3],
        High::Unary { src: Texture(0), dst: Texture(1), .. }
    ));
    assert!(matches!(program.ops[4], High::Discard(Texture(0))));
    assert!(matches!(program.ops[5], High::Output(Texture(1))));
    assert!(matches!(program.ops[6], High::Discard(Texture(1))));
}

#[test]
fn lowering_reuses_texture_of_dead_register() {
    let mut commands = CommandBuffer::default();
    let input = commands.input(small_descriptor(4, 4)).unwrap();
    let first = commands.crop(input, Rectangle::with_width_height(2, 2)).unwrap();
    let second = commands.crop(first, Rectangle::with_width_height(1, 1)).unwrap();
    commands.output(second).unwrap();

    let program = commands.compile().unwrap();
    // Register 0 dies as register 2 is produced, and the descriptors are
    // equal, so the second crop reuses texture 0.
    assert_eq!(program.reg_tex, vec![0, 1, 0, 0]);
    assert_eq!(program.num_textures, 2);
}

#[test]
fn lowering_does_not_reuse_incompatible_descriptor() {
    let mut commands = CommandBuffer::default();
    let input = commands.input(small_descriptor(4, 4)).unwrap();
    let first = commands.crop(input, Rectangle::with_width_height(2, 2)).unwrap();
    // Register 0 is dead from here on, its 4x4 texture is up for reuse,
    // but an 8x8 register cannot take it.
    let wider = commands.input(small_descriptor(8, 8)).unwrap();
    commands.output(first).unwrap();
    commands.output(wider).unwrap();

    let program = commands.compile().unwrap();
    assert_eq!(program.reg_tex[2], 2);
    assert_eq!(program.num_textures, 3);
}

#[test]
fn same_register_as_both_operands_counts_once() {
    let mut commands = CommandBuffer::default();
    let reg = commands.input(small_descriptor(4, 4)).unwrap();
    let alpha = commands.extract(reg, pixelplan::buffer::ColorChannel::Alpha).unwrap();
    // Inject the alpha back into the image it came from: both operands
    // still extend their intervals, the below register once per read.
    let injected = commands.inject(reg, pixelplan::buffer::ColorChannel::Alpha, alpha).unwrap();
    commands.output(injected).unwrap();

    let program = commands.compile().unwrap();
    assert_eq!(program.first_use, vec![1, 2, 3, 4]);
    assert_eq!(program.last_use, vec![2, 2, 3, 0]);
}

#[test]
fn recompiling_the_same_log_is_deterministic() {
    let mut commands = CommandBuffer::default();
    let input = commands.input(small_descriptor(4, 4)).unwrap();
    let crop = commands.crop(input, Rectangle::with_width_height(2, 2)).unwrap();
    commands.output(crop).unwrap();

    let first = commands.compile().unwrap();
    let second = commands.compile().unwrap();
    assert_eq!(first.first_use, second.first_use);
    assert_eq!(first.last_use, second.last_use);
    assert_eq!(first.reg_tex, second.reg_tex);
    assert_eq!(first.num_textures, second.num_textures);
    assert_eq!(first.ops.len(), second.ops.len());
}
