//! The typed, single-assignment instruction log and its building blocks.
//!
//! The machine model is a single basic block in static single-assignment
//! form where registers are strongly typed with their buffer descriptors.
//! Strict typing allows a clean analysis of required temporary resources and
//! re-usage of those as an internal optimization.

use crate::buffer::{BufferLayout, Color, ColorChannel, Descriptor, Texel};
use crate::pool::PoolImage;
use vstd::prelude::*;

verus! {

use crate::program::{
    alloc_in, allocate_before_use, allocates_complete, expected_lowering, lemma_alloc_push,
    lemma_discard_push, lemma_payload_push, lemma_range_push, lemma_single_alloc_push,
    liveness_exact, mentions, no_use_after_discard, payload, produces, reads, reuse_compatible,
    reuse_safe, single_allocates, textures_in_range, translate_op, views_of, CompileError, High,
    HighView, Program, Texture,
};
use vstd::slice::slice_to_vec;

/// A rectangle in `u32` space.
///
/// It is described by minimum and maximum coordinates, inclusive and
/// exclusive respectively. Any rectangle where the order is not correct is
/// interpreted as empty. This has the advantage of simplifying certain
/// operations that would otherwise need to check for correctness.
#[derive(Clone, Copy, Debug, PartialEq, Eq, Structural)]
pub struct Rectangle {
    pub x: u32,
    pub y: u32,
    pub max_x: u32,
    pub max_y: u32,
}

/// An error returned by an operation on the command log.
///
/// Distinguishes a type error, where operand descriptors are incompatible
/// with the requested operation, from every other kind of failure (an invalid
/// register reference, an unsupported operation, a structural mismatch).
#[derive(Clone, Copy, Debug, PartialEq, Eq, Structural)]
pub struct CommandError {
    pub(crate) type_err: bool,
}

impl Rectangle {
    /// The apparent width, in the mathematical integers.
    pub open spec fn spec_width(self) -> int {
        if self.max_x >= self.x {
            self.max_x - self.x
        } else {
            0
        }
    }

    /// The apparent height, in the mathematical integers.
    pub open spec fn spec_height(self) -> int {
        if self.max_y >= self.y {
            self.max_y - self.y
        } else {
            0
        }
    }

    /// What it means for `self` to fully contain `other`: the offset of
    /// `other`'s corner plus `other`'s extent fits into `self`'s extent,
    /// in both dimensions.
    pub open spec fn spec_contains(self, other: Rectangle) -> bool {
        &&& self.x <= other.x
        &&& self.y <= other.y
        &&& other.x - self.x + other.spec_width() <= self.spec_width()
        &&& other.y - self.y + other.spec_height() <= self.spec_height()
    }

    /// The overlap of the two rectangles.
    pub open spec fn spec_meet(self, other: Rectangle) -> Rectangle {
        Rectangle {
            x: if self.x >= other.x { self.x } else { other.x },
            y: if self.y >= other.y { self.y } else { other.y },
            max_x: if self.max_x <= other.max_x { self.max_x } else { other.max_x },
            max_y: if self.max_y <= other.max_y { self.max_y } else { other.max_y },
        }
    }

    /// The smallest rectangle containing both.
    pub open spec fn spec_join(self, other: Rectangle) -> Rectangle {
        Rectangle {
            x: if self.x <= other.x { self.x } else { other.x },
            y: if self.y <= other.y { self.y } else { other.y },
            max_x: if self.max_x >= other.max_x { self.max_x } else { other.max_x },
            max_y: if self.max_y >= other.max_y { self.max_y } else { other.max_y },
        }
    }

    /// The normalized form: the same corner and apparent extent, with
    /// minimum and maximum forming a true interval.
    pub open spec fn spec_normalize(self) -> Rectangle {
        Rectangle {
            x: self.x,
            y: self.y,
            max_x: (self.x + self.spec_width()) as u32,
            max_y: (self.y + self.spec_height()) as u32,
        }
    }

    /// The rectangle describing the complete extent of a buffer layout.
    pub open spec fn spec_with_layout(buffer: BufferLayout) -> Rectangle {
        Rectangle { x: 0u32, y: 0u32, max_x: buffer.width, max_y: buffer.height }
    }

    /// A rectangle at the origin with given width (x) and height (y).
    pub fn with_width_height(width: u32, height: u32) -> (r: Rectangle)
        ensures
            r == (Rectangle { x: 0u32, y: 0u32, max_x: width, max_y: height }),
    {
        Rectangle { x: 0, y: 0, max_x: width, max_y: height }
    }

    /// A rectangle describing a complete buffer.
    pub fn with_layout(buffer: &BufferLayout) -> (r: Rectangle)
        ensures
            r == Rectangle::spec_with_layout(*buffer),
    {
        Self::with_width_height(buffer.width, buffer.height)
    }

    /// The apparent width.
    pub fn width(self) -> (w: u32)
        ensures
            w == self.spec_width(),
    {
        if self.max_x >= self.x {
            self.max_x - self.x
        } else {
            0
        }
    }

    /// The apparent height.
    pub fn height(self) -> (h: u32)
        ensures
            h == self.spec_height(),
    {
        if self.max_y >= self.y {
            self.max_y - self.y
        } else {
            0
        }
    }

    /// Return true if this rectangle fully contains `other`.
    pub fn contains(self, other: Rectangle) -> (r: bool)
        ensures
            r == self.spec_contains(other),
    {
        if self.x <= other.x && self.y <= other.y {
            let offset_x = other.x - self.x;
            let offset_y = other.y - self.y;
            let sw = self.width();
            let sh = self.height();
            offset_x <= sw && sw - offset_x >= other.width()
                && offset_y <= sh && sh - offset_y >= other.height()
        } else {
            false
        }
    }

    /// Bring the rectangle into normalized form where minimum and maximum
    /// form a true interval.
    #[must_use]
    pub fn normalize(self) -> (r: Rectangle)
        ensures
            r == self.spec_normalize(),
    {
        Rectangle {
            x: self.x,
            y: self.y,
            max_x: self.x + self.width(),
            max_y: self.y + self.height(),
        }
    }

    /// A rectangle that is the overlap of the two.
    #[must_use]
    pub fn meet(self, other: Rectangle) -> (r: Rectangle)
        ensures
            r == self.spec_meet(other),
    {
        Rectangle {
            x: if self.x >= other.x { self.x } else { other.x },
            y: if self.y >= other.y { self.y } else { other.y },
            max_x: if self.max_x <= other.max_x { self.max_x } else { other.max_x },
            max_y: if self.max_y <= other.max_y { self.max_y } else { other.max_y },
        }
    }

    /// A rectangle that contains both.
    #[must_use]
    pub fn join(self, other: Rectangle) -> (r: Rectangle)
        ensures
            r == self.spec_join(other),
    {
        Rectangle {
            x: if self.x <= other.x { self.x } else { other.x },
            y: if self.y <= other.y { self.y } else { other.y },
            max_x: if self.max_x >= other.max_x { self.max_x } else { other.max_x },
            max_y: if self.max_y >= other.max_y { self.max_y } else { other.max_y },
        }
    }

    /// Remove a border from all sides. When the rectangle is smaller than
    /// `border` in some dimension then the result is empty and contained in
    /// the original rectangle but otherwise unspecified.
    #[must_use]
    pub fn inset(self, border: u32) -> (r: Rectangle)
        ensures
            r.x == if self.x + border <= u32::MAX { self.x + border } else { u32::MAX as int },
            r.y == if self.y + border <= u32::MAX { self.y + border } else { u32::MAX as int },
            r.max_x == if self.max_x >= border { self.max_x - border } else { 0int },
            r.max_y == if self.max_y >= border { self.max_y - border } else { 0int },
    {
        Rectangle {
            x: if self.x <= u32::MAX - border { self.x + border } else { u32::MAX },
            y: if self.y <= u32::MAX - border { self.y + border } else { u32::MAX },
            max_x: if self.max_x >= border { self.max_x - border } else { 0 },
            max_y: if self.max_y >= border { self.max_y - border } else { 0 },
        }
    }
}

/// The meet of two rectangles does not depend on their order.
pub proof fn lemma_meet_commutative(a: Rectangle, b: Rectangle)
    ensures
        a.spec_meet(b) == b.spec_meet(a),
{
}

/// Meeting a rectangle with itself gives it back unchanged.
pub proof fn lemma_meet_idempotent(a: Rectangle)
    ensures
        a.spec_meet(a) == a,
{
}

/// Joining a rectangle with itself gives it back unchanged.
pub proof fn lemma_join_idempotent(a: Rectangle)
    ensures
        a.spec_join(a) == a,
{
}

/// Every rectangle contains itself.
pub proof fn lemma_contains_reflexive(a: Rectangle)
    ensures
        a.spec_contains(a),
{
}

/// Normalization preserves the apparent width and height.
pub proof fn lemma_normalize_extent(a: Rectangle)
    ensures
        a.spec_normalize().spec_width() == a.spec_width(),
        a.spec_normalize().spec_height() == a.spec_height(),
{
}

/// A reference to one particular value: a single-assignment slot in the
/// command log, identifying one produced value by its log index.
#[derive(Clone, Copy, Debug, PartialEq, Eq, Hash, Structural)]
pub struct Register(pub usize);

/// One linear sequence of instructions over single-assignment registers.
///
/// Every operation is validated against the descriptors of its operand
/// registers at construction time; no instruction can be emitted that is not
/// already type-correct. On failure nothing is appended, so the log length
/// remains a reliable upper bound on valid register indices at all times.
pub struct CommandBuffer {
    ops: Vec<Op>,
}

/// One instruction of the log.
///
/// Every variant except `Output` produces a fresh register and carries the
/// descriptor of the value it produces; `Output` produces no register and
/// only records that a register is externally observed.
pub enum Op {
    /// Declare an input: a register whose value is bound by the caller.
    Input { desc: Descriptor },
    /// Declare an output: record that `src` is externally observed.
    Output { src: Register },
    /// Produce a value from the operation's own parameters alone.
    Construct { desc: Descriptor, op: ConstructOp },
    /// Produce a value from one prior register.
    Unary { src: Register, op: UnaryOp, desc: Descriptor },
    /// Produce a value from two prior registers.
    Binary { lhs: Register, rhs: Register, op: BinaryOp, desc: Descriptor },
}

/// A construction operation, producing a value without reading a register.
pub enum ConstructOp {
    /// A solid color image, filled with one texel's bytes.
    Solid(Vec<u8>),
}

/// A unary operation over one source register.
#[derive(Clone, Copy)]
pub enum UnaryOp {
    /// An affine transformation of the image. The descriptor is unchanged.
    Affine(Affine),
    /// Select a rectangular part of the image. The descriptor is unchanged.
    Crop(Rectangle),
    /// Re-encode into the given color; the target must share the source's
    /// reference whitepoint.
    ColorConvert(Color),
    /// Project the image onto a single channel.
    Extract { channel: ColorChannel },
}

/// A binary operation over two source registers.
#[derive(Clone, Copy)]
pub enum BinaryOp {
    /// Embed the right image into the left at `placement`; both texels must
    /// agree.
    Inscribe { placement: Rectangle },
    /// Replace one channel of the left image with the right image itself.
    Inject { channel: ColorChannel },
}

/// A blend mode, reserved for future overlay operations.
#[non_exhaustive]
pub enum Blend {
    Alpha,
}

/// An affine transformation of the plane, as a row-major 3-by-3 matrix.
///
/// The coefficients are bit patterns of binary32 numbers. The core never
/// interprets them; they are carried through to the executor unchanged.
#[derive(Clone, Copy, Debug)]
pub struct Affine {
    /// The matrix entries in row-major order, each the bit pattern of one
    /// binary32 coefficient.
    pub transformation: [u32; 9],
}

/// The spec-level value of one instruction, with registers as integers and
/// construction data as a byte sequence.
pub enum OpView {
    Input { desc: Descriptor },
    Output { src: int },
    Construct { desc: Descriptor, data: Seq<u8> },
    Unary { src: int, op: UnaryOp, desc: Descriptor },
    Binary { lhs: int, rhs: int, op: BinaryOp, desc: Descriptor },
}

impl Affine {
    /// A transformation from its row-major coefficient bit patterns.
    pub fn new(transformation: [u32; 9]) -> (r: Affine)
        ensures
            r.transformation == transformation,
    {
        Affine { transformation }
    }
}

impl View for Op {
    type V = OpView;

    open spec fn view(&self) -> OpView {
        match self {
            Op::Input { desc } => OpView::Input { desc: *desc },
            Op::Output { src } => OpView::Output { src: src.0 as int },
            Op::Construct { desc, op } => OpView::Construct {
                desc: *desc,
                data: match op {
                    ConstructOp::Solid(data) => data@,
                },
            },
            Op::Unary { src, op, desc } => OpView::Unary {
                src: src.0 as int,
                op: *op,
                desc: *desc,
            },
            Op::Binary { lhs, rhs, op, desc } => OpView::Binary {
                lhs: lhs.0 as int,
                rhs: rhs.0 as int,
                op: *op,
                desc: *desc,
            },
        }
    }
}

impl View for CommandBuffer {
    type V = Seq<OpView>;

    closed spec fn view(&self) -> Seq<OpView> {
        Seq::new(self.ops@.len(), |i: int| self.ops@[i]@)
    }
}

/// The descriptor of the value produced at index `r` of the log, or `None`
/// when `r` is out of range or names an `Output` instruction: outputs are
/// sinks, not sources.
pub open spec fn source_desc(log: Seq<OpView>, r: int) -> Option<Descriptor> {
    if 0 <= r < log.len() {
        match log[r] {
            OpView::Input { desc } => Some(desc),
            OpView::Construct { desc, .. } => Some(desc),
            OpView::Unary { desc, .. } => Some(desc),
            OpView::Binary { desc, .. } => Some(desc),
            OpView::Output { .. } => None,
        }
    } else {
        None
    }
}

/// Whether the instruction at index `i` only references registers with a
/// strictly smaller index that name producing instructions.
pub open spec fn op_wf(log: Seq<OpView>, i: int) -> bool {
    match log[i] {
        OpView::Input { .. } => true,
        OpView::Construct { .. } => true,
        OpView::Output { src } => src < i && source_desc(log, src) is Some,
        OpView::Unary { src, .. } => src < i && source_desc(log, src) is Some,
        OpView::Binary { lhs, rhs, .. } => {
            &&& lhs < i
            &&& rhs < i
            &&& source_desc(log, lhs) is Some
            &&& source_desc(log, rhs) is Some
        },
    }
}

/// Well-formedness of a whole log: no instruction holds a forward or self
/// reference, and every operand names a producing instruction. The builder
/// methods establish and preserve this.
pub open spec fn wf_log(log: Seq<OpView>) -> bool {
    forall|i: int| 0 <= i < log.len() ==> #[trigger] op_wf(log, i)
}

/// Whether two color tags are both XYZ-class and share their reference
/// whitepoint: the precondition for re-encoding between them.
pub open spec fn whitepoint_compatible(a: Color, b: Color) -> bool {
    match (a, b) {
        (Color::Rgb { whitepoint: wa, .. }, Color::Rgb { whitepoint: wb, .. }) => wa == wb,
        _ => false,
    }
}

/// Whether a packed layout with the source's extent and the target texel's
/// element size fits the machine limits.
pub open spec fn convert_layout_fits(sd: Descriptor, texel: Texel) -> bool {
    &&& texel.samples.bits.spec_bytes() * sd.layout.width <= u32::MAX
    &&& texel.samples.bits.spec_bytes() * sd.layout.width * sd.layout.height <= usize::MAX
}

/// The descriptor produced by a color conversion: the source's extent with
/// the target texel's sample encoding, packed row by row.
pub open spec fn convert_descriptor(sd: Descriptor, texel: Texel) -> Descriptor {
    Descriptor {
        layout: BufferLayout {
            width: sd.layout.width,
            height: sd.layout.height,
            bytes_per_texel: texel.samples.bits.spec_bytes() as u8,
            bytes_per_row: (texel.samples.bits.spec_bytes() * sd.layout.width) as u32,
        },
        texel,
    }
}

/// The conditions under which `inscribe` succeeds: both registers resolve,
/// the texels agree, the rectangle exactly equals the upper image's full
/// extent, and the lower image's full extent contains it.
pub open spec fn inscribe_ok(log: Seq<OpView>, below: int, rect: Rectangle, above: int) -> bool {
    &&& source_desc(log, below) is Some
    &&& source_desc(log, above) is Some
    &&& source_desc(log, above)->Some_0.texel == source_desc(log, below)->Some_0.texel
    &&& rect == Rectangle::spec_with_layout(source_desc(log, above)->Some_0.layout)
    &&& Rectangle::spec_with_layout(source_desc(log, below)->Some_0.layout).spec_contains(rect)
}

/// The conditions under which `inject` succeeds: both registers resolve,
/// the channel of the lower image has a single-channel projection, and the
/// upper image's texel equals that projection.
pub open spec fn inject_ok(log: Seq<OpView>, below: int, channel: ColorChannel, above: int) -> bool {
    &&& source_desc(log, below) is Some
    &&& source_desc(log, below)->Some_0.texel.spec_channel_texel(channel) is Some
    &&& source_desc(log, above) is Some
    &&& source_desc(log, below)->Some_0.texel.spec_channel_texel(channel)->Some_0 == source_desc(
        log,
        above,
    )->Some_0.texel
}

/// Single-assignment discipline: in a well-formed log, no instruction's
/// operand register index is greater than or equal to its own index.
pub proof fn lemma_no_forward_reference(log: Seq<OpView>, i: int)
    requires
        wf_log(log),
        0 <= i < log.len(),
    ensures
        match log[i] {
            OpView::Output { src } => src < i,
            OpView::Unary { src, .. } => src < i,
            OpView::Binary { lhs, rhs, .. } => lhs < i && rhs < i,
            _ => true,
        },
{
    assert(op_wf(log, i));
}

/// Appending an instruction that is itself well-formed at the end of a
/// well-formed log yields a well-formed log: no earlier instruction is
/// affected by the push.
proof fn lemma_wf_push(log: Seq<OpView>, op: OpView)
    requires
        wf_log(log),
        op_wf(log.push(op), log.len() as int),
    ensures
        wf_log(log.push(op)),
{
    let new = log.push(op);
    assert forall|i: int| 0 <= i < new.len() implies #[trigger] op_wf(new, i) by {
        if i < log.len() {
            assert(op_wf(log, i));
            assert(new[i] == log[i]);
            assert forall|r: int| 0 <= r < log.len() implies #[trigger] source_desc(
                new,
                r,
            ) == source_desc(log, r) by {
                assert(new[r] == log[r]);
            }
        }
    }
}

impl CommandBuffer {
    /// Append `op` to the log and return the fresh register named after its
    /// index.
    fn push(&mut self, op: Op) -> (r: Register)
        ensures
            final(self)@ == old(self)@.push(op@),
            r.0 == old(self)@.len(),
    {
        let reg = Register(self.ops.len());
        self.ops.push(op);
        proof {
            assert(final(self)@ =~= old(self)@.push(op@));
        }
        reg
    }

    /// Resolve the descriptor of a register.
    ///
    /// Fails with a bad-register error if the index is out of range or
    /// names an `Output` instruction.
    fn describe_reg(&self, reg: Register) -> (r: Result<Descriptor, CommandError>)
        ensures
            match r {
                Ok(desc) => source_desc(self@, reg.0 as int) == Some(desc),
                Err(e) => source_desc(self@, reg.0 as int) is None && !e.spec_is_type_err(),
            },
    {
        if reg.0 >= self.ops.len() {
            return Err(CommandError { type_err: false });
        }
        match &self.ops[reg.0] {
            Op::Output { .. } => Err(CommandError { type_err: false }),
            Op::Input { desc } => Ok(*desc),
            Op::Construct { desc, .. } => Ok(*desc),
            Op::Unary { desc, .. } => Ok(*desc),
            Op::Binary { desc, .. } => Ok(*desc),
        }
    }

    /// Declare an input.
    ///
    /// Inputs MUST later be bound from the pool during launch.
    pub fn input(&mut self, desc: Descriptor) -> (r: Result<Register, CommandError>)
        requires
            wf_log(old(self)@),
        ensures
            wf_log(final(self)@),
            match r {
                Ok(reg) => {
                    &&& desc.spec_is_consistent()
                    &&& reg.0 == old(self)@.len()
                    &&& final(self)@ == old(self)@.push(OpView::Input { desc })
                },
                Err(e) => {
                    &&& !desc.spec_is_consistent()
                    &&& e.spec_is_type_err()
                    &&& final(self)@ == old(self)@
                },
            },
    {
        if !desc.is_consistent() {
            return Err(CommandError { type_err: true });
        }
        let reg = self.push(Op::Input { desc });
        proof {
            lemma_wf_push(old(self)@, OpView::Input { desc });
        }
        Ok(reg)
    }

    /// Declare an image from the pool as input.
    ///
    /// Returns its register if the image's descriptor is consistent,
    /// otherwise returns a type error.
    pub fn input_from(&mut self, img: PoolImage<'_>) -> (r: Result<Register, CommandError>)
        requires
            wf_log(old(self)@),
        ensures
            wf_log(final(self)@),
            match r {
                Ok(reg) => {
                    &&& img.spec_image()@.descriptor().spec_is_consistent()
                    &&& reg.0 == old(self)@.len()
                    &&& final(self)@ == old(self)@.push(
                        OpView::Input { desc: img.spec_image()@.descriptor() },
                    )
                },
                Err(e) => {
                    &&& !img.spec_image()@.descriptor().spec_is_consistent()
                    &&& e.spec_is_type_err()
                    &&& final(self)@ == old(self)@
                },
            },
    {
        let descriptor = img.descriptor();
        self.input(descriptor)
    }

    /// Select a rectangular part of an image.
    ///
    /// The output descriptor equals the source's: cropping changes only the
    /// extent at lowering and execution time, not the declared element
    /// layout here.
    pub fn crop(&mut self, src: Register, rect: Rectangle) -> (r: Result<Register, CommandError>)
        requires
            wf_log(old(self)@),
        ensures
            wf_log(final(self)@),
            match r {
                Ok(reg) => {
                    &&& source_desc(old(self)@, src.0 as int) is Some
                    &&& reg.0 == old(self)@.len()
                    &&& final(self)@ == old(self)@.push(
                        OpView::Unary {
                            src: src.0 as int,
                            op: UnaryOp::Crop(rect),
                            desc: source_desc(old(self)@, src.0 as int)->Some_0,
                        },
                    )
                },
                Err(e) => {
                    &&& source_desc(old(self)@, src.0 as int) is None
                    &&& !e.spec_is_type_err()
                    &&& final(self)@ == old(self)@
                },
            },
    {
        let desc = match self.describe_reg(src) {
            Ok(desc) => desc,
            Err(e) => { return Err(e); },
        };
        let reg = self.push(Op::Unary { src, op: UnaryOp::Crop(rect), desc });
        proof {
            lemma_wf_push(
                old(self)@,
                OpView::Unary {
                    src: src.0 as int,
                    op: UnaryOp::Crop(rect),
                    desc: source_desc(old(self)@, src.0 as int)->Some_0,
                },
            );
        }
        Ok(reg)
    }

    /// Create an image with different color encoding.
    ///
    /// All colors with the same whitepoint are mapped from encoded to
    /// linear RGB when loading, and re-encoded in the target format when
    /// storing: hence both the source's color tag and the target's must be
    /// XYZ-class, with an equal reference whitepoint. The descriptor is
    /// recomputed from the target's sample encoding.
    pub fn color_convert(&mut self, src: Register, texel: Texel) -> (r: Result<
        Register,
        CommandError,
    >)
        requires
            wf_log(old(self)@),
        ensures
            wf_log(final(self)@),
            match r {
                Ok(reg) => {
                    &&& source_desc(old(self)@, src.0 as int) is Some
                    &&& whitepoint_compatible(
                        source_desc(old(self)@, src.0 as int)->Some_0.texel.color,
                        texel.color,
                    )
                    &&& convert_layout_fits(source_desc(old(self)@, src.0 as int)->Some_0, texel)
                    &&& reg.0 == old(self)@.len()
                    &&& final(self)@ == old(self)@.push(
                        OpView::Unary {
                            src: src.0 as int,
                            op: UnaryOp::ColorConvert(texel.color),
                            desc: convert_descriptor(
                                source_desc(old(self)@, src.0 as int)->Some_0,
                                texel,
                            ),
                        },
                    )
                },
                Err(e) => {
                    &&& final(self)@ == old(self)@
                    &&& !{
                        &&& source_desc(old(self)@, src.0 as int) is Some
                        &&& whitepoint_compatible(
                            source_desc(old(self)@, src.0 as int)->Some_0.texel.color,
                            texel.color,
                        )
                        &&& convert_layout_fits(source_desc(old(self)@, src.0 as int)->Some_0, texel)
                    }
                    &&& e.spec_is_type_err() == {
                        &&& source_desc(old(self)@, src.0 as int) is Some
                        &&& !whitepoint_compatible(
                            source_desc(old(self)@, src.0 as int)->Some_0.texel.color,
                            texel.color,
                        )
                    }
                },
            },
    {
        let desc_src = match self.describe_reg(src) {
            Ok(desc) => desc,
            Err(e) => { return Err(e); },
        };

        let compatible = match (&desc_src.texel.color, &texel.color) {
            (Color::Rgb { whitepoint: wp_src, .. }, Color::Rgb { whitepoint: wp_dst, .. }) =>
                *wp_src == *wp_dst,
            _ => false,
        };
        if !compatible {
            return Err(CommandError { type_err: true });
        }

        let layout = match BufferLayout::with_texel(
            &texel,
            desc_src.layout.width,
            desc_src.layout.height,
        ) {
            Some(layout) => layout,
            None => { return Err(CommandError { type_err: false }); },
        };

        let reg = self.push(
            Op::Unary {
                src,
                op: UnaryOp::ColorConvert(texel.color),
                desc: Descriptor { layout, texel },
            },
        );
        proof {
            lemma_wf_push(
                old(self)@,
                OpView::Unary {
                    src: src.0 as int,
                    op: UnaryOp::ColorConvert(texel.color),
                    desc: convert_descriptor(source_desc(old(self)@, src.0 as int)->Some_0, texel),
                },
            );
        }
        Ok(reg)
    }

    /// Embed an image as part of a larger one.
    ///
    /// `above`'s texel must equal `below`'s, `rect` must exactly equal
    /// `above`'s full extent, and `below`'s full extent must contain
    /// `rect`.
    pub fn inscribe(&mut self, below: Register, rect: Rectangle, above: Register) -> (r: Result<
        Register,
        CommandError,
    >)
        requires
            wf_log(old(self)@),
        ensures
            wf_log(final(self)@),
            match r {
                Ok(reg) => {
                    &&& inscribe_ok(old(self)@, below.0 as int, rect, above.0 as int)
                    &&& reg.0 == old(self)@.len()
                    &&& final(self)@ == old(self)@.push(
                        OpView::Binary {
                            lhs: below.0 as int,
                            rhs: above.0 as int,
                            op: BinaryOp::Inscribe { placement: rect.spec_normalize() },
                            desc: source_desc(old(self)@, below.0 as int)->Some_0,
                        },
                    )
                },
                Err(e) => {
                    &&& final(self)@ == old(self)@
                    &&& !inscribe_ok(old(self)@, below.0 as int, rect, above.0 as int)
                    &&& e.spec_is_type_err() == {
                        &&& source_desc(old(self)@, below.0 as int) is Some
                        &&& source_desc(old(self)@, above.0 as int) is Some
                        &&& source_desc(old(self)@, above.0 as int)->Some_0.texel != source_desc(
                            old(self)@,
                            below.0 as int,
                        )->Some_0.texel
                    }
                },
            },
    {
        let desc_below = match self.describe_reg(below) {
            Ok(desc) => desc,
            Err(e) => { return Err(e); },
        };
        let desc_above = match self.describe_reg(above) {
            Ok(desc) => desc,
            Err(e) => { return Err(e); },
        };

        if desc_above.texel != desc_below.texel {
            return Err(CommandError { type_err: true });
        }

        if Rectangle::with_layout(&desc_above.layout) != rect {
            return Err(CommandError { type_err: false });
        }

        if !Rectangle::with_layout(&desc_below.layout).contains(rect) {
            return Err(CommandError { type_err: false });
        }

        let reg = self.push(
            Op::Binary {
                lhs: below,
                rhs: above,
                op: BinaryOp::Inscribe { placement: rect.normalize() },
                desc: desc_below,
            },
        );
        proof {
            lemma_wf_push(
                old(self)@,
                OpView::Binary {
                    lhs: below.0 as int,
                    rhs: above.0 as int,
                    op: BinaryOp::Inscribe { placement: rect.spec_normalize() },
                    desc: source_desc(old(self)@, below.0 as int)->Some_0,
                },
            );
        }
        Ok(reg)
    }

    /// Extract one channel from an image into a new single-channel view.
    pub fn extract(&mut self, src: Register, channel: ColorChannel) -> (r: Result<
        Register,
        CommandError,
    >)
        requires
            wf_log(old(self)@),
        ensures
            wf_log(final(self)@),
            match r {
                Ok(reg) => {
                    &&& source_desc(old(self)@, src.0 as int) is Some
                    &&& source_desc(old(self)@, src.0 as int)->Some_0.texel.spec_channel_texel(
                        channel,
                    ) is Some
                    &&& reg.0 == old(self)@.len()
                    &&& final(self)@ == old(self)@.push(
                        OpView::Unary {
                            src: src.0 as int,
                            op: UnaryOp::Extract { channel },
                            desc: Descriptor {
                                layout: source_desc(old(self)@, src.0 as int)->Some_0.layout,
                                texel: source_desc(
                                    old(self)@,
                                    src.0 as int,
                                )->Some_0.texel.spec_channel_texel(channel)->Some_0,
                            },
                        },
                    )
                },
                Err(e) => {
                    &&& final(self)@ == old(self)@
                    &&& !{
                        &&& source_desc(old(self)@, src.0 as int) is Some
                        &&& source_desc(old(self)@, src.0 as int)->Some_0.texel.spec_channel_texel(
                            channel,
                        ) is Some
                    }
                    &&& !e.spec_is_type_err()
                },
            },
    {
        let desc = match self.describe_reg(src) {
            Ok(desc) => desc,
            Err(e) => { return Err(e); },
        };
        let texel = match desc.channel_texel(channel) {
            Some(texel) => texel,
            None => { return Err(CommandError { type_err: false }); },
        };
        let reg = self.push(
            Op::Unary {
                src,
                op: UnaryOp::Extract { channel },
                desc: Descriptor { layout: desc.layout, texel },
            },
        );
        proof {
            lemma_wf_push(
                old(self)@,
                OpView::Unary {
                    src: src.0 as int,
                    op: UnaryOp::Extract { channel },
                    desc: Descriptor {
                        layout: source_desc(old(self)@, src.0 as int)->Some_0.layout,
                        texel: source_desc(
                            old(self)@,
                            src.0 as int,
                        )->Some_0.texel.spec_channel_texel(channel)->Some_0,
                    },
                },
            );
        }
        Ok(reg)
    }

    /// Overwrite one channel of `below` with the single-channel image
    /// `above`.
    ///
    /// `above`'s texel must equal the channel-projection of `below` for
    /// `channel`.
    pub fn inject(&mut self, below: Register, channel: ColorChannel, above: Register) -> (r:
        Result<Register, CommandError>)
        requires
            wf_log(old(self)@),
        ensures
            wf_log(final(self)@),
            match r {
                Ok(reg) => {
                    &&& inject_ok(old(self)@, below.0 as int, channel, above.0 as int)
                    &&& reg.0 == old(self)@.len()
                    &&& final(self)@ == old(self)@.push(
                        OpView::Binary {
                            lhs: below.0 as int,
                            rhs: above.0 as int,
                            op: BinaryOp::Inject { channel },
                            desc: source_desc(old(self)@, below.0 as int)->Some_0,
                        },
                    )
                },
                Err(e) => {
                    &&& final(self)@ == old(self)@
                    &&& !inject_ok(old(self)@, below.0 as int, channel, above.0 as int)
                    &&& e.spec_is_type_err() == {
                        &&& source_desc(old(self)@, below.0 as int) is Some
                        &&& source_desc(old(self)@, below.0 as int)->Some_0.texel.spec_channel_texel(
                            channel,
                        ) is Some
                        &&& source_desc(old(self)@, above.0 as int) is Some
                        &&& source_desc(old(self)@, below.0 as int)->Some_0.texel.spec_channel_texel(
                            channel,
                        )->Some_0 != source_desc(old(self)@, above.0 as int)->Some_0.texel
                    }
                },
            },
    {
        let desc_below = match self.describe_reg(below) {
            Ok(desc) => desc,
            Err(e) => { return Err(e); },
        };
        let expected_texel = match desc_below.channel_texel(channel) {
            Some(texel) => texel,
            None => { return Err(CommandError { type_err: false }); },
        };
        let desc_above = match self.describe_reg(above) {
            Ok(desc) => desc,
            Err(e) => { return Err(e); },
        };

        if expected_texel != desc_above.texel {
            return Err(CommandError { type_err: true });
        }

        let reg = self.push(
            Op::Binary {
                lhs: below,
                rhs: above,
                op: BinaryOp::Inject { channel },
                desc: desc_below,
            },
        );
        proof {
            lemma_wf_push(
                old(self)@,
                OpView::Binary {
                    lhs: below.0 as int,
                    rhs: above.0 as int,
                    op: BinaryOp::Inject { channel },
                    desc: source_desc(old(self)@, below.0 as int)->Some_0,
                },
            );
        }
        Ok(reg)
    }

    /// Overlay an image as part of a larger one, performing blending.
    ///
    /// No blend mode is supported in this design; the operation always
    /// fails with a generic error and records nothing.
    pub fn blend(&mut self, _below: Register, _rect: Rectangle, _above: Register, _blend: Blend)
        -> (r: Result<Register, CommandError>)
        ensures
            final(self)@ == old(self)@,
            match r {
                Ok(_) => false,
                Err(e) => !e.spec_is_type_err(),
            },
    {
        Err(CommandError { type_err: false })
    }

    /// A solid color image, from a descriptor and a single texel's bytes.
    pub fn solid(&mut self, describe: Descriptor, data: &[u8]) -> (r: Result<
        Register,
        CommandError,
    >)
        requires
            wf_log(old(self)@),
        ensures
            wf_log(final(self)@),
            match r {
                Ok(reg) => {
                    &&& data@.len() == describe.layout.bytes_per_texel
                    &&& reg.0 == old(self)@.len()
                    &&& final(self)@ == old(self)@.push(
                        OpView::Construct { desc: describe, data: data@ },
                    )
                },
                Err(e) => {
                    &&& data@.len() != describe.layout.bytes_per_texel
                    &&& e.spec_is_type_err()
                    &&& final(self)@ == old(self)@
                },
            },
    {
        if data.len() != describe.layout.bytes_per_texel as usize {
            return Err(CommandError { type_err: true });
        }
        let owned: Vec<u8> = slice_to_vec(data);
        let reg = self.push(Op::Construct { desc: describe, op: ConstructOp::Solid(owned) });
        proof {
            lemma_wf_push(old(self)@, OpView::Construct { desc: describe, data: data@ });
        }
        Ok(reg)
    }

    /// An affine transformation of the image. The descriptor is unchanged.
    pub fn affine(&mut self, src: Register, affine: Affine) -> (r: Result<Register, CommandError>)
        requires
            wf_log(old(self)@),
        ensures
            wf_log(final(self)@),
            match r {
                Ok(reg) => {
                    &&& source_desc(old(self)@, src.0 as int) is Some
                    &&& reg.0 == old(self)@.len()
                    &&& final(self)@ == old(self)@.push(
                        OpView::Unary {
                            src: src.0 as int,
                            op: UnaryOp::Affine(affine),
                            desc: source_desc(old(self)@, src.0 as int)->Some_0,
                        },
                    )
                },
                Err(e) => {
                    &&& source_desc(old(self)@, src.0 as int) is None
                    &&& !e.spec_is_type_err()
                    &&& final(self)@ == old(self)@
                },
            },
    {
        let desc = match self.describe_reg(src) {
            Ok(desc) => desc,
            Err(e) => { return Err(e); },
        };
        let reg = self.push(Op::Unary { src, op: UnaryOp::Affine(affine), desc });
        proof {
            lemma_wf_push(
                old(self)@,
                OpView::Unary {
                    src: src.0 as int,
                    op: UnaryOp::Affine(affine),
                    desc: source_desc(old(self)@, src.0 as int)->Some_0,
                },
            );
        }
        Ok(reg)
    }

    /// Declare an output.
    ///
    /// Outputs MUST later be bound from the pool during launch. Returns the
    /// finalized descriptor of the observed register without issuing a new
    /// register.
    pub fn output(&mut self, src: Register) -> (r: Result<Descriptor, CommandError>)
        requires
            wf_log(old(self)@),
        ensures
            wf_log(final(self)@),
            match r {
                Ok(desc) => {
                    &&& source_desc(old(self)@, src.0 as int) == Some(desc)
                    &&& final(self)@ == old(self)@.push(OpView::Output { src: src.0 as int })
                },
                Err(e) => {
                    &&& source_desc(old(self)@, src.0 as int) is None
                    &&& !e.spec_is_type_err()
                    &&& final(self)@ == old(self)@
                },
            },
    {
        let outformat = match self.describe_reg(src) {
            Ok(desc) => desc,
            Err(e) => { return Err(e); },
        };
        // This records a sink, it does not really produce a register.
        let _ = self.push(Op::Output { src });
        proof {
            lemma_wf_push(old(self)@, OpView::Output { src: src.0 as int });
        }
        Ok(outformat)
    }

    /// The number of instructions recorded so far.
    pub fn len(&self) -> (r: usize)
        ensures
            r == self@.len(),
    {
        self.ops.len()
    }

    /// Compile the log into a resource-scheduled program.
    ///
    /// This computes, for every register, the smallest index at which it is
    /// first read and the largest index at which it is last read, scanning
    /// the log once in reverse order. The liveness interval tells the
    /// lowering pass the earliest point at which the register's backing
    /// resource may be discarded, and allows two registers with
    /// non-overlapping intervals to be assigned the same physical resource:
    /// image buffers are expensive to allocate and this enables safe reuse.
    ///
    /// The lowering pass then walks the log forward, assigns each register
    /// a texture id (reusing one whose previous owner's interval has ended
    /// when the descriptors are equal, minting a fresh one otherwise), and
    /// translates each instruction into its resource-level counterpart,
    /// emitting an `Allocate` just before a fresh texture is first needed
    /// and a `Discard` right after a texture's final use. Each texture is
    /// allocated exactly once, nothing touches it before its `Allocate` or
    /// after its `Discard`, and erasing the control instructions leaves
    /// exactly the per-instruction translation of the log.
    /// Recompiling the same log always yields the same program.
    pub fn compile(&self) -> (r: Result<Program, CompileError>)
        requires
            wf_log(self@),
        ensures
            match r {
                Ok(p) => {
                    &&& liveness_exact(self@, p.first_use@, p.last_use@)
                    &&& p.reg_tex@.len() == self@.len()
                    &&& forall|k: int|
                        0 <= k < self@.len() ==> (#[trigger] p.reg_tex@[k]) < p.num_textures
                    &&& forall|k: int|
                        0 <= k < self@.len() ==> #[trigger] output_tex_ok(self@, p.reg_tex@, k)
                    &&& reuse_safe(self@, p.first_use@, p.last_use@, p.reg_tex@)
                    &&& reuse_compatible(self@, p.reg_tex@)
                    &&& payload(p.ops@) == expected_lowering(self@, p.reg_tex@)
                    &&& textures_in_range(views_of(p.ops@), p.num_textures as int)
                    &&& no_use_after_discard(views_of(p.ops@))
                    &&& allocate_before_use(views_of(p.ops@))
                    &&& single_allocates(views_of(p.ops@))
                    &&& allocates_complete(views_of(p.ops@), p.num_textures as int)
                },
                Err(_) => false,
            },
    {
        let steps = self.ops.len();

        let mut last_use: Vec<usize> = filled_vec(steps, 0);
        let mut first_use: Vec<usize> = filled_vec(steps, steps);

        // Liveness analysis, in reverse order: each instruction extends the
        // interval of every register it reads.
        let mut idx = steps;
        while idx > 0
            invariant
                idx <= steps,
                steps == self@.len(),
                wf_log(self@),
                first_use@.len() == steps,
                last_use@.len() == steps,
                forall|r: int, i: int|
                    0 <= r < steps && idx <= i < steps && #[trigger] reads(self@[i], r)
                        ==> first_use@[r] <= i && i <= last_use@[r],
                forall|r: int|
                    0 <= r < steps ==> (#[trigger] first_use@[r] == steps || (idx
                        <= first_use@[r] < steps && reads(self@[first_use@[r] as int], r))),
                forall|r: int|
                    0 <= r < steps ==> (#[trigger] last_use@[r] == 0 || (idx <= last_use@[r]
                        < steps && reads(self@[last_use@[r] as int], r))),
            decreases idx,
        {
            idx = idx - 1;
            match &self.ops[idx] {
                Op::Input { .. } | Op::Construct { .. } => {},
                Op::Output { src } => {
                    let s = src.0;
                    proof {
                        assert(op_wf(self@, idx as int));
                        assert(reads(self@[idx as int], s as int));
                    }
                    extend_interval(&mut first_use, &mut last_use, s, idx);
                },
                Op::Unary { src, .. } => {
                    let s = src.0;
                    proof {
                        assert(op_wf(self@, idx as int));
                        assert(reads(self@[idx as int], s as int));
                    }
                    extend_interval(&mut first_use, &mut last_use, s, idx);
                },
                Op::Binary { lhs, rhs, .. } => {
                    let l = lhs.0;
                    let h = rhs.0;
                    proof {
                        assert(op_wf(self@, idx as int));
                        assert(reads(self@[idx as int], l as int));
                        assert(reads(self@[idx as int], h as int));
                    }
                    extend_interval(&mut first_use, &mut last_use, h, idx);
                    extend_interval(&mut first_use, &mut last_use, l, idx);
                },
            }
        }

        // Resource assignment: walk the log forward and assign each
        // register a texture id, reusing an id whose previous owner's
        // interval has already ended when the descriptors are equal, and
        // allocating a fresh id otherwise.
        let mut reg_tex: Vec<usize> = Vec::new();
        let mut fresh: Vec<bool> = Vec::new();
        let mut tex_desc: Vec<Descriptor> = Vec::new();
        let mut free: Vec<usize> = Vec::new();
        let mut discard_pos: Vec<Option<usize>> = Vec::new();

        let mut i: usize = 0;
        while i < steps
            invariant
                i <= steps,
                steps == self@.len(),
                wf_log(self@),
                liveness_exact(self@, first_use@, last_use@),
                first_use@.len() == steps,
                last_use@.len() == steps,
                fresh@.len() == i,
                discard_pos@.len() == tex_desc@.len(),
                lower_inv(self@, first_use@, last_use@, reg_tex@, tex_desc@, free@, i as int),
                discard_inv(self@, first_use@, last_use@, reg_tex@, discard_pos@, i as int),
                forall|k: int| 0 <= k < i ==> (#[trigger] fresh@[k] ==> produces(self@[k])),
                forall|r: int|
                    0 <= r < i && produces(self@[r]) ==> #[trigger] minted(reg_tex@, fresh@, r),
                free_owned(self@, reg_tex@, free@, i as int),
                dpos_owned(self@, reg_tex@, discard_pos@, i as int),
                forall|a: int, k: int|
                    #![trigger fresh@[a], reg_tex@[k]]
                    0 <= k < a < i && fresh@[a] ==> reg_tex@[k] != reg_tex@[a],
                forall|t: int|
                    0 <= t < tex_desc@.len() ==> #[trigger] minted_tex(reg_tex@, fresh@, t),
            decreases steps - i,
        {
            let ghost log = self@;
            let ghost fu = first_use@;
            let ghost lu = last_use@;
            proof {
                assert(op_wf(log, i as int));
            }
            match &self.ops[i] {
                Op::Output { src } => {
                    let s = src.0;
                    proof {
                        assert(log[i as int] == OpView::Output { src: s as int });
                        assert(reads(log[i as int], s as int));
                        assert(source_desc(log, s as int) is Some);
                    }
                    let t = reg_tex[s];
                    proof {
                        lemma_live_not_free(log, fu, lu, reg_tex@, tex_desc@, free@, i as int,
                            s as int);
                    }
                    let ghost rt0 = reg_tex@;
                    let ghost fr0 = fresh@;
                    reg_tex.push(t);
                    fresh.push(false);
                    proof {
                        assert(reg_tex@.drop_last() =~= rt0);
                        lemma_lower_output(log, fu, lu, reg_tex@, tex_desc@, free@, s as int,
                            i as int);
                        lemma_discard_skip(log, fu, lu, reg_tex@, discard_pos@, i as int);
                        assert(reg_tex@[s as int] < tex_desc@.len());
                        lemma_minted_push(log, rt0, fr0, t, false, i as int);
                        assert forall|r: int| 0 <= r < i as int + 1 && produces(log[r]) implies
                            #[trigger] minted(reg_tex@, fresh@, r) by {
                            if r == i as int {
                                assert(!produces(log[i as int]));
                            }
                        }
                        lemma_free_owned_push(log, rt0, free@, t, i as int);
                        lemma_first_mint_push(rt0, fr0, tex_desc@.len() as int, t, false,
                            i as int);
                        lemma_minted_tex_all_push(rt0, fr0, t, false, tex_desc@.len() as int,
                            tex_desc@.len() as int, i as int);
                    }
                    if last_use[s] == i {
                        release_texture(&mut free, t, Ghost(log), Ghost(fu), Ghost(lu),
                            Ghost(reg_tex@), Ghost(tex_desc@), Ghost(s as int), Ghost(i as int));
                        let ghost dp0 = discard_pos@;
                        discard_pos[t] = Some(i);
                        proof {
                            lemma_discard_mark(log, fu, lu, reg_tex@, tex_desc@, free@, dp0, t,
                                s as int, i as int);
                        }
                    }
                },
                Op::Input { desc } | Op::Construct { desc, .. } => {
                    let d = *desc;
                    proof {
                        assert(produces(log[i as int]));
                        assert(source_desc(log, i as int) == Some(d));
                    }
                    let ghost free0 = free@;
                    let ghost tex0 = tex_desc@;
                    let (t, is_fresh) = acquire_texture(&mut tex_desc, &mut free, &d);
                    let ghost rt0 = reg_tex@;
                    let ghost fr0 = fresh@;
                    reg_tex.push(t);
                    fresh.push(is_fresh);
                    let ghost dp0 = discard_pos@;
                    if is_fresh {
                        discard_pos.push(None);
                    } else {
                        discard_pos[t] = None;
                    }
                    proof {
                        assert(reg_tex@.drop_last() =~= rt0);
                        lemma_lower_acquire(log, fu, lu, reg_tex@, tex0, tex_desc@, free0, free@,
                            t, is_fresh, d, i as int);
                        lemma_discard_acquire(log, fu, lu, reg_tex@, dp0, discard_pos@, t,
                            is_fresh, i as int);
                        lemma_minted_acquire(log, rt0, fr0, free0, t, is_fresh, i as int);
                        lemma_free_owned_subset(log, rt0, free0, free@, i as int);
                        lemma_free_owned_push(log, rt0, free@, t, i as int);
                        lemma_first_mint_push(rt0, fr0, tex0.len() as int, t, is_fresh, i as int);
                        lemma_minted_tex_all_push(rt0, fr0, t, is_fresh, tex0.len() as int,
                            tex_desc@.len() as int, i as int);
                    }
                    if first_use[i] == steps {
                        release_texture(&mut free, t, Ghost(log), Ghost(fu), Ghost(lu),
                            Ghost(reg_tex@), Ghost(tex_desc@), Ghost(i as int), Ghost(i as int));
                        let ghost dp2 = discard_pos@;
                        proof {
                            assert(reg_tex@[i as int] < tex_desc@.len());
                        }
                        discard_pos[t] = Some(i);
                        proof {
                            lemma_discard_mark(log, fu, lu, reg_tex@, tex_desc@, free@, dp2, t,
                                i as int, i as int);
                        }
                    }
                },
                Op::Unary { src, desc, .. } => {
                    let s = src.0;
                    let d = *desc;
                    proof {
                        assert(reads(log[i as int], s as int));
                        assert(source_desc(log, s as int) is Some);
                        assert(produces(log[i as int]));
                        assert(source_desc(log, i as int) == Some(d));
                    }
                    let ts = reg_tex[s];
                    proof {
                        lemma_live_not_free(log, fu, lu, reg_tex@, tex_desc@, free@, i as int,
                            s as int);
                    }
                    let ghost free0 = free@;
                    let ghost tex0 = tex_desc@;
                    let (t, is_fresh) = acquire_texture(&mut tex_desc, &mut free, &d);
                    let ghost rt0 = reg_tex@;
                    let ghost fr0 = fresh@;
                    reg_tex.push(t);
                    fresh.push(is_fresh);
                    let ghost dp0 = discard_pos@;
                    if is_fresh {
                        discard_pos.push(None);
                    } else {
                        discard_pos[t] = None;
                    }
                    proof {
                        assert(reg_tex@.drop_last() =~= rt0);
                        lemma_lower_acquire(log, fu, lu, reg_tex@, tex0, tex_desc@, free0, free@,
                            t, is_fresh, d, i as int);
                        lemma_discard_acquire(log, fu, lu, reg_tex@, dp0, discard_pos@, t,
                            is_fresh, i as int);
                        lemma_minted_acquire(log, rt0, fr0, free0, t, is_fresh, i as int);
                        lemma_free_owned_subset(log, rt0, free0, free@, i as int);
                        lemma_free_owned_push(log, rt0, free@, t, i as int);
                        lemma_first_mint_push(rt0, fr0, tex0.len() as int, t, is_fresh, i as int);
                        lemma_minted_tex_all_push(rt0, fr0, t, is_fresh, tex0.len() as int,
                            tex_desc@.len() as int, i as int);
                        lemma_not_free_subset(free0, free@, ts);
                        // The id of a register still read at `i` is distinct
                        // from the one just assigned.
                        if reg_tex@[s as int] == reg_tex@[i as int] {
                            assert(fu[s as int] <= i && lu[s as int] >= i);
                        }
                        assert(ts != t);
                    }
                    if last_use[s] == i {
                        release_texture(&mut free, ts, Ghost(log), Ghost(fu), Ghost(lu),
                            Ghost(reg_tex@), Ghost(tex_desc@), Ghost(s as int), Ghost(i as int));
                        let ghost dp1 = discard_pos@;
                        proof {
                            assert(reg_tex@[s as int] < tex_desc@.len());
                        }
                        discard_pos[ts] = Some(i);
                        proof {
                            lemma_discard_mark(log, fu, lu, reg_tex@, tex_desc@, free@, dp1, ts,
                                s as int, i as int);
                        }
                    }
                    if first_use[i] == steps {
                        release_texture(&mut free, t, Ghost(log), Ghost(fu), Ghost(lu),
                            Ghost(reg_tex@), Ghost(tex_desc@), Ghost(i as int), Ghost(i as int));
                        let ghost dp2 = discard_pos@;
                        proof {
                            assert(reg_tex@[i as int] < tex_desc@.len());
                        }
                        discard_pos[t] = Some(i);
                        proof {
                            lemma_discard_mark(log, fu, lu, reg_tex@, tex_desc@, free@, dp2, t,
                                i as int, i as int);
                        }
                    }
                },
                Op::Binary { lhs, rhs, desc, .. } => {
                    let l = lhs.0;
                    let h = rhs.0;
                    let d = *desc;
                    proof {
                        assert(reads(log[i as int], l as int));
                        assert(reads(log[i as int], h as int));
                        assert(source_desc(log, l as int) is Some);
                        assert(source_desc(log, h as int) is Some);
                        assert(produces(log[i as int]));
                        assert(source_desc(log, i as int) == Some(d));
                    }
                    let tl = reg_tex[l];
                    let th = reg_tex[h];
                    proof {
                        lemma_live_not_free(log, fu, lu, reg_tex@, tex_desc@, free@, i as int,
                            l as int);
                        lemma_live_not_free(log, fu, lu, reg_tex@, tex_desc@, free@, i as int,
                            h as int);
                        // Two registers both read at `i` cannot share an id.
                        if l != h && reg_tex@[l as int] == reg_tex@[h as int] {
                            assert(fu[l as int] <= i && lu[l as int] >= i);
                            assert(fu[h as int] <= i && lu[h as int] >= i);
                        }
                    }
                    let ghost free0 = free@;
                    let ghost tex0 = tex_desc@;
                    let (t, is_fresh) = acquire_texture(&mut tex_desc, &mut free, &d);
                    let ghost rt0 = reg_tex@;
                    let ghost fr0 = fresh@;
                    reg_tex.push(t);
                    fresh.push(is_fresh);
                    let ghost dp0 = discard_pos@;
                    if is_fresh {
                        discard_pos.push(None);
                    } else {
                        discard_pos[t] = None;
                    }
                    proof {
                        assert(reg_tex@.drop_last() =~= rt0);
                        lemma_lower_acquire(log, fu, lu, reg_tex@, tex0, tex_desc@, free0, free@,
                            t, is_fresh, d, i as int);
                        lemma_discard_acquire(log, fu, lu, reg_tex@, dp0, discard_pos@, t,
                            is_fresh, i as int);
                        lemma_minted_acquire(log, rt0, fr0, free0, t, is_fresh, i as int);
                        lemma_free_owned_subset(log, rt0, free0, free@, i as int);
                        lemma_free_owned_push(log, rt0, free@, t, i as int);
                        lemma_first_mint_push(rt0, fr0, tex0.len() as int, t, is_fresh, i as int);
                        lemma_minted_tex_all_push(rt0, fr0, t, is_fresh, tex0.len() as int,
                            tex_desc@.len() as int, i as int);
                        lemma_not_free_subset(free0, free@, tl);
                        lemma_not_free_subset(free0, free@, th);
                        if reg_tex@[l as int] == reg_tex@[i as int] {
                            assert(fu[l as int] <= i && lu[l as int] >= i);
                        }
                        if reg_tex@[h as int] == reg_tex@[i as int] {
                            assert(fu[h as int] <= i && lu[h as int] >= i);
                        }
                        assert(tl != t && th != t);
                    }
                    if last_use[l] == i {
                        release_texture(&mut free, tl, Ghost(log), Ghost(fu), Ghost(lu),
                            Ghost(reg_tex@), Ghost(tex_desc@), Ghost(l as int), Ghost(i as int));
                        let ghost dp1 = discard_pos@;
                        proof {
                            assert(reg_tex@[l as int] < tex_desc@.len());
                        }
                        discard_pos[tl] = Some(i);
                        proof {
                            lemma_discard_mark(log, fu, lu, reg_tex@, tex_desc@, free@, dp1, tl,
                                l as int, i as int);
                        }
                    }
                    if l != h && last_use[h] == i {
                        release_texture(&mut free, th, Ghost(log), Ghost(fu), Ghost(lu),
                            Ghost(reg_tex@), Ghost(tex_desc@), Ghost(h as int), Ghost(i as int));
                        let ghost dp2 = discard_pos@;
                        proof {
                            assert(reg_tex@[h as int] < tex_desc@.len());
                        }
                        discard_pos[th] = Some(i);
                        proof {
                            lemma_discard_mark(log, fu, lu, reg_tex@, tex_desc@, free@, dp2, th,
                                h as int, i as int);
                        }
                    }
                    if first_use[i] == steps {
                        release_texture(&mut free, t, Ghost(log), Ghost(fu), Ghost(lu),
                            Ghost(reg_tex@), Ghost(tex_desc@), Ghost(i as int), Ghost(i as int));
                        let ghost dp2 = discard_pos@;
                        proof {
                            assert(reg_tex@[i as int] < tex_desc@.len());
                        }
                        discard_pos[t] = Some(i);
                        proof {
                            lemma_discard_mark(log, fu, lu, reg_tex@, tex_desc@, free@, dp2, t,
                                i as int, i as int);
                        }
                    }
                },
            }
            i = i + 1;
        }

        let num_textures = tex_desc.len();
        proof {
            assert forall|a: int, b: int|
                0 <= a < b < self@.len() && produces(self@[a]) && produces(self@[b])
                    && #[trigger] reg_tex@[a] == #[trigger] reg_tex@[b] implies (first_use@[a]
                == self@.len() || last_use@[a] < b) by {}
            assert forall|x: int, y: int|
                0 <= x < self@.len() && 0 <= y < self@.len() && produces(self@[x]) && produces(
                    self@[y],
                ) && #[trigger] reg_tex@[x] == #[trigger] reg_tex@[y] implies source_desc(self@, x)
                == source_desc(self@, y) by {
                assert(source_desc(self@, x) == Some(tex_desc@[reg_tex@[x] as int]));
                assert(source_desc(self@, y) == Some(tex_desc@[reg_tex@[y] as int]));
            }
        }

        // Emission: walk the log forward once more and translate each
        // instruction into its lowered counterpart, emitting an `Allocate`
        // just before a fresh texture is first needed and a `Discard`
        // immediately after a texture's final release.
        let mut ops: Vec<High> = Vec::new();
        let ghost expected = expected_lowering(self@, reg_tex@);
        let mut j: usize = 0;
        while j < steps
            invariant
                j <= steps,
                steps == self@.len(),
                wf_log(self@),
                reg_tex@.len() == steps,
                fresh@.len() == steps,
                discard_pos@.len() == num_textures,
                expected == expected_lowering(self@, reg_tex@),
                forall|k: int| 0 <= k < steps ==> (#[trigger] reg_tex@[k]) < num_textures,
                payload(ops@) == expected.take(j as int),
                textures_in_range(views_of(ops@), num_textures as int),
                liveness_exact(self@, first_use@, last_use@),
                first_use@.len() == steps,
                last_use@.len() == steps,
                discard_inv(self@, first_use@, last_use@, reg_tex@, discard_pos@, steps as int),
                forall|k: int| 0 <= k < steps ==> (#[trigger] fresh@[k] ==> produces(self@[k])),
                discards_marked(views_of(ops@), discard_pos@, j as int, 0),
                no_use_after_discard(views_of(ops@)),
                forall|r: int|
                    0 <= r < steps && produces(self@[r]) ==> #[trigger] minted(reg_tex@, fresh@, r),
                dpos_owned(self@, reg_tex@, discard_pos@, steps as int),
                forall|jp: int|
                    0 <= jp < j && fresh@[jp] ==> #[trigger] alloc_in(
                        views_of(ops@),
                        reg_tex@[jp] as int,
                    ),
                allocate_before_use(views_of(ops@)),
                forall|a: int, k: int|
                    #![trigger fresh@[a], reg_tex@[k]]
                    0 <= k < a < steps && fresh@[a] ==> reg_tex@[k] != reg_tex@[a],
                forall|t: int|
                    0 <= t < num_textures ==> #[trigger] minted_tex(reg_tex@, fresh@, t),
                allocs_minted(views_of(ops@), reg_tex@, fresh@, j as int),
                single_allocates(views_of(ops@)),
            decreases steps - j,
        {
            proof {
                assert(op_wf(self@, j as int));
            }
            if fresh[j] {
                let ghost ops0 = ops@;
                ops.push(High::Allocate(Texture(reg_tex[j])));
                proof {
                    let h = High::Allocate(Texture(reg_tex@[j as int]));
                    lemma_payload_push(ops0, h);
                    lemma_range_push(ops0, h, num_textures as int);
                    assert(produces(self@[j as int]));
                    assert forall|p: int, tt: int|
                        #![trigger views_of(ops0)[p], mentions(h@, tt)]
                        0 <= p < views_of(ops0).len() && views_of(ops0)[p] == (HighView::Discard {
                            tex: tt,
                        }) implies !mentions(h@, tt) by {
                        if mentions(h@, tt) {
                            // The discarded texture's activity ended before
                            // `j`, yet the register produced at `j` owns it.
                            assert(tt == reg_tex@[j as int]);
                            assert(discard_pos@[tt] matches Some(d) && d < j);
                        }
                    }
                    lemma_discard_push(ops0, h);
                    lemma_alloc_push(ops0, h);
                    assert forall|a: int| 0 <= a < views_of(ops0).len() implies (
                    #[trigger] views_of(ops0)[a]) != h@ by {
                        if views_of(ops0)[a] == h@ {
                            // An earlier equal `Allocate` would trace back
                            // to an earlier fresh minting of the same
                            // texture, contradicting first occurrence.
                            assert(fresh_mint(reg_tex@, fresh@, reg_tex@[j as int] as int,
                                j as int));
                            let jp = choose|jp: int|
                                0 <= jp < j as int && #[trigger] fresh@[jp] && (
                                reg_tex@[jp] as int) == reg_tex@[j as int] as int;
                            assert(fresh@[j as int] && reg_tex@[jp] == reg_tex@[j as int]);
                            assert(false);
                        }
                    }
                    lemma_single_alloc_push(ops0, h);
                    assert(views_of(ops@) =~= views_of(ops0).push(h@));
                    assert forall|p: int, tt: int|
                        #![trigger views_of(ops@)[p], discard_pos@[tt]]
                        0 <= p < views_of(ops@).len() && 0 <= tt && views_of(ops@)[p]
                            == (HighView::Discard { tex: tt }) implies tt < discard_pos@.len() && (
                        discard_pos@[tt] matches Some(d) && (d < j || (d == j && tt < 0))) by {
                        if p < views_of(ops0).len() {
                            assert(views_of(ops@)[p] == views_of(ops0)[p]);
                        } else {
                            assert(views_of(ops@)[p] == h@);
                        }
                    }
                    assert(views_of(ops@)[views_of(ops0).len() as int] == h@);
                    assert(alloc_in(views_of(ops@), reg_tex@[j as int] as int));
                    assert forall|jp: int| 0 <= jp < j && fresh@[jp] implies #[trigger] alloc_in(
                        views_of(ops@),
                        reg_tex@[jp] as int,
                    ) by {
                        assert(alloc_in(views_of(ops0), reg_tex@[jp] as int));
                    }
                    assert forall|a: int| 0 <= a < views_of(ops@).len() implies match (
                    #[trigger] views_of(ops@)[a]) {
                        HighView::Allocate { tex } => fresh_mint(reg_tex@, fresh@, tex,
                            j as int + 1),
                        _ => true,
                    } by {
                        if a < views_of(ops0).len() {
                            assert(views_of(ops@)[a] == views_of(ops0)[a]);
                            match views_of(ops0)[a] {
                                HighView::Allocate { tex } => {
                                    assert(fresh_mint(reg_tex@, fresh@, tex, j as int));
                                    let jp = choose|jp: int|
                                        0 <= jp < j as int && #[trigger] fresh@[jp] && (
                                        reg_tex@[jp] as int) == tex;
                                    assert(0 <= jp < j as int + 1);
                                },
                                _ => {},
                            }
                        } else {
                            assert(views_of(ops@)[a] == h@);
                            assert(fresh@[j as int] && (reg_tex@[j as int] as int)
                                == reg_tex@[j as int] as int);
                        }
                    }
                }
            }
            proof {
                assert(fresh@[j as int] ==> alloc_in(views_of(ops@), reg_tex@[j as int] as int));
                assert forall|a: int| 0 <= a < views_of(ops@).len() implies match (
                #[trigger] views_of(ops@)[a]) {
                    HighView::Allocate { tex } => fresh_mint(reg_tex@, fresh@, tex, j as int + 1),
                    _ => true,
                } by {
                    match views_of(ops@)[a] {
                        HighView::Allocate { tex } => {
                            assert(fresh_mint(reg_tex@, fresh@, tex, j as int) || fresh_mint(
                                reg_tex@, fresh@, tex, j as int + 1));
                            if fresh_mint(reg_tex@, fresh@, tex, j as int) {
                                let jp = choose|jp: int|
                                    0 <= jp < j as int && #[trigger] fresh@[jp] && (
                                    reg_tex@[jp] as int) == tex;
                                assert(0 <= jp < j as int + 1);
                            }
                        },
                        _ => {},
                    }
                }
            }
            let op = match &self.ops[j] {
                Op::Input { desc } => High::Input(Texture(reg_tex[j]), *desc),
                Op::Output { src } => High::Output(Texture(reg_tex[src.0])),
                Op::Construct { desc: _, op } => High::Construct {
                    dst: Texture(reg_tex[j]),
                    op: clone_construct(op),
                },
                Op::Unary { src, op, desc: _ } => High::Unary {
                    src: Texture(reg_tex[src.0]),
                    dst: Texture(reg_tex[j]),
                    op: *op,
                },
                Op::Binary { lhs, rhs, op, desc: _ } => High::Binary {
                    lhs: Texture(reg_tex[lhs.0]),
                    rhs: Texture(reg_tex[rhs.0]),
                    dst: Texture(reg_tex[j]),
                    op: *op,
                },
            };
            proof {
                assert(op@ == translate_op(self@, reg_tex@, j as int));
            }
            let ghost ops1 = ops@;
            ops.push(op);
            proof {
                lemma_payload_push(ops1, op);
                lemma_range_push(ops1, op, num_textures as int);
                assert(payload(ops@) =~= expected.take(j as int + 1));
                assert forall|p: int, tt: int|
                    #![trigger views_of(ops1)[p], mentions(op@, tt)]
                    0 <= p < views_of(ops1).len() && views_of(ops1)[p] == (HighView::Discard {
                        tex: tt,
                    }) implies !mentions(op@, tt) by {
                    if mentions(op@, tt) {
                        assert(discard_pos@[tt] matches Some(d) && d < j);
                        // Each texture the translated instruction mentions
                        // belongs to a register active at `j`: either the
                        // produced register itself, or an operand read here,
                        // whose interval therefore reaches `j` past the
                        // discarded texture's end.
                        match self@[j as int] {
                            OpView::Input { .. } => {
                                assert(tt == reg_tex@[j as int]);
                            },
                            OpView::Construct { .. } => {
                                assert(tt == reg_tex@[j as int]);
                            },
                            OpView::Output { src } => {
                                assert(tt == reg_tex@[src]);
                                lemma_source_produces(self@, src);
                                assert(reads(self@[j as int], src));
                                assert(first_use@[src] <= j && j <= last_use@[src]);
                            },
                            OpView::Unary { src, .. } => {
                                if tt == reg_tex@[src] {
                                    lemma_source_produces(self@, src);
                                    assert(reads(self@[j as int], src));
                                    assert(first_use@[src] <= j && j <= last_use@[src]);
                                } else {
                                    assert(tt == reg_tex@[j as int]);
                                }
                            },
                            OpView::Binary { lhs, rhs, .. } => {
                                if tt == reg_tex@[lhs] {
                                    lemma_source_produces(self@, lhs);
                                    assert(reads(self@[j as int], lhs));
                                    assert(first_use@[lhs] <= j && j <= last_use@[lhs]);
                                } else if tt == reg_tex@[rhs] {
                                    lemma_source_produces(self@, rhs);
                                    assert(reads(self@[j as int], rhs));
                                    assert(first_use@[rhs] <= j && j <= last_use@[rhs]);
                                } else {
                                    assert(tt == reg_tex@[j as int]);
                                }
                            },
                        }
                    }
                }
                lemma_discard_push(ops1, op);
                assert forall|t: int| #[trigger] mentions(op@, t) implies alloc_in(
                    views_of(ops1),
                    t,
                ) || op@ == (HighView::Allocate { tex: t }) by {
                    // Each texture the instruction mentions belongs to a
                    // register whose texture was minted at or before `j`,
                    // and the minting's `Allocate` is already emitted.
                    let jj = j as int;
                    match self@[jj] {
                        OpView::Input { .. } => {
                            assert(t == reg_tex@[jj]);
                            lemma_c_alloc_for(self@, reg_tex@, fresh@, views_of(ops1), jj, jj);
                        },
                        OpView::Construct { .. } => {
                            assert(t == reg_tex@[jj]);
                            lemma_c_alloc_for(self@, reg_tex@, fresh@, views_of(ops1), jj, jj);
                        },
                        OpView::Output { src } => {
                            assert(t == reg_tex@[src]);
                            lemma_source_produces(self@, src);
                            lemma_c_alloc_for(self@, reg_tex@, fresh@, views_of(ops1), src, jj);
                        },
                        OpView::Unary { src, .. } => {
                            if t == reg_tex@[src] {
                                lemma_source_produces(self@, src);
                                lemma_c_alloc_for(self@, reg_tex@, fresh@, views_of(ops1), src,
                                    jj);
                            } else {
                                assert(t == reg_tex@[jj]);
                                lemma_c_alloc_for(self@, reg_tex@, fresh@, views_of(ops1), jj, jj);
                            }
                        },
                        OpView::Binary { lhs, rhs, .. } => {
                            if t == reg_tex@[lhs] {
                                lemma_source_produces(self@, lhs);
                                lemma_c_alloc_for(self@, reg_tex@, fresh@, views_of(ops1), lhs,
                                    jj);
                            } else if t == reg_tex@[rhs] {
                                lemma_source_produces(self@, rhs);
                                lemma_c_alloc_for(self@, reg_tex@, fresh@, views_of(ops1), rhs,
                                    jj);
                            } else {
                                assert(t == reg_tex@[jj]);
                                lemma_c_alloc_for(self@, reg_tex@, fresh@, views_of(ops1), jj, jj);
                            }
                        },
                    }
                }
                lemma_alloc_push(ops1, op);
                assert(views_of(ops@) =~= views_of(ops1).push(op@));
                assert forall|p: int, tt: int|
                    #![trigger views_of(ops@)[p], discard_pos@[tt]]
                    0 <= p < views_of(ops@).len() && 0 <= tt && views_of(ops@)[p]
                        == (HighView::Discard { tex: tt }) implies tt < discard_pos@.len() && (
                    discard_pos@[tt] matches Some(d) && (d < j || (d == j && tt < 0))) by {
                    if p < views_of(ops1).len() {
                        assert(views_of(ops@)[p] == views_of(ops1)[p]);
                    } else {
                        assert(views_of(ops@)[p] == op@);
                    }
                }
                assert forall|jp: int| 0 <= jp <= j && fresh@[jp] implies #[trigger] alloc_in(
                    views_of(ops@),
                    reg_tex@[jp] as int,
                ) by {
                    assert(alloc_in(views_of(ops1), reg_tex@[jp] as int));
                }
                assert(!(op@ is Allocate));
                lemma_single_alloc_push(ops1, op);
                assert forall|a: int| 0 <= a < views_of(ops@).len() implies match (
                #[trigger] views_of(ops@)[a]) {
                    HighView::Allocate { tex } => fresh_mint(reg_tex@, fresh@, tex, j as int + 1),
                    _ => true,
                } by {
                    if a < views_of(ops1).len() {
                        assert(views_of(ops@)[a] == views_of(ops1)[a]);
                    } else {
                        assert(views_of(ops@)[a] == op@);
                    }
                }
            }
            let mut t: usize = 0;
            while t < num_textures
                invariant
                    t <= num_textures,
                    discard_pos@.len() == num_textures,
                    j < steps,
                    steps == self@.len(),
                    wf_log(self@),
                    reg_tex@.len() == steps,
                    fresh@.len() == steps,
                    first_use@.len() == steps,
                    last_use@.len() == steps,
                    liveness_exact(self@, first_use@, last_use@),
                    discard_inv(self@, first_use@, last_use@, reg_tex@, discard_pos@,
                        steps as int),
                    dpos_owned(self@, reg_tex@, discard_pos@, steps as int),
                    forall|k: int| 0 <= k < steps ==> (#[trigger] fresh@[k] ==> produces(self@[k])),
                    forall|r: int|
                        0 <= r < steps && produces(self@[r]) ==> #[trigger] minted(reg_tex@,
                            fresh@, r),
                    payload(ops@) == expected.take(j as int + 1),
                    textures_in_range(views_of(ops@), num_textures as int),
                    discards_marked(views_of(ops@), discard_pos@, j as int, t as int),
                    no_use_after_discard(views_of(ops@)),
                    forall|jp: int|
                        0 <= jp <= j && fresh@[jp] ==> #[trigger] alloc_in(
                            views_of(ops@),
                            reg_tex@[jp] as int,
                        ),
                    allocate_before_use(views_of(ops@)),
                    allocs_minted(views_of(ops@), reg_tex@, fresh@, j as int + 1),
                    single_allocates(views_of(ops@)),
                decreases num_textures - t,
            {
                let dp = discard_pos[t];
                match dp {
                    Some(d) => {
                        if d == j {
                            let ghost ops2 = ops@;
                            ops.push(High::Discard(Texture(t)));
                            proof {
                                let h = High::Discard(Texture(t));
                                lemma_payload_push(ops2, h);
                                lemma_range_push(ops2, h, num_textures as int);
                                assert forall|p: int, tt: int|
                                    #![trigger views_of(ops2)[p], mentions(h@, tt)]
                                    0 <= p < views_of(ops2).len() && views_of(ops2)[p]
                                        == (HighView::Discard { tex: tt }) implies !mentions(
                                    h@,
                                    tt,
                                ) by {
                                    if mentions(h@, tt) {
                                        // A second discard of the same
                                        // texture would contradict its
                                        // single recorded position.
                                        assert(tt == t);
                                        assert(discard_pos@[tt] matches Some(d2) && (d2 < j || (
                                        d2 == j && tt < t)));
                                    }
                                }
                                lemma_discard_push(ops2, h);
                                assert forall|tt: int| #[trigger] mentions(h@, tt) implies
                                    alloc_in(views_of(ops2), tt) || h@ == (HighView::Allocate {
                                    tex: tt,
                                }) by {
                                    assert(tt == t as int);
                                    assert(discard_pos@[tt] is Some);
                                    assert(texture_owned(self@, reg_tex@, tt, steps as int));
                                    let k = choose|k: int|
                                        0 <= k < steps && produces(self@[k]) && (
                                        #[trigger] reg_tex@[k]) as int == tt;
                                    // The owner's definition precedes the
                                    // recorded discard position.
                                    assert(k <= j);
                                    lemma_c_alloc_for(self@, reg_tex@, fresh@, views_of(ops2), k,
                                        j as int);
                                }
                                lemma_alloc_push(ops2, h);
                                assert(views_of(ops@) =~= views_of(ops2).push(h@));
                                assert forall|p: int, tt: int|
                                    #![trigger views_of(ops@)[p], discard_pos@[tt]]
                                    0 <= p < views_of(ops@).len() && 0 <= tt && views_of(ops@)[p]
                                        == (HighView::Discard { tex: tt }) implies tt
                                    < discard_pos@.len() && (discard_pos@[tt] matches Some(d2) && (
                                d2 < j || (d2 == j && tt < t + 1))) by {
                                    if p < views_of(ops2).len() {
                                        assert(views_of(ops@)[p] == views_of(ops2)[p]);
                                    } else {
                                        assert(views_of(ops@)[p] == h@);
                                    }
                                }
                                assert forall|jp: int| 0 <= jp <= j && fresh@[jp] implies
                                    #[trigger] alloc_in(views_of(ops@), reg_tex@[jp] as int) by {
                                    assert(alloc_in(views_of(ops2), reg_tex@[jp] as int));
                                }
                                assert(!(h@ is Allocate));
                                lemma_single_alloc_push(ops2, h);
                                assert forall|a: int| 0 <= a < views_of(ops@).len() implies match (
                                #[trigger] views_of(ops@)[a]) {
                                    HighView::Allocate { tex } => fresh_mint(reg_tex@, fresh@,
                                        tex, j as int + 1),
                                    _ => true,
                                } by {
                                    if a < views_of(ops2).len() {
                                        assert(views_of(ops@)[a] == views_of(ops2)[a]);
                                    } else {
                                        assert(views_of(ops@)[a] == h@);
                                    }
                                }
                            }
                        }
                    },
                    None => {},
                }
                t = t + 1;
            }
            j = j + 1;
        }
        proof {
            assert(payload(ops@) =~= expected);
            assert forall|t: int| 0 <= t < num_textures implies #[trigger] alloc_in(
                views_of(ops@),
                t,
            ) by {
                assert(minted_tex(reg_tex@, fresh@, t));
                let i0 = choose|i0: int|
                    0 <= i0 < reg_tex@.len() && #[trigger] fresh@[i0] && (reg_tex@[i0] as int)
                        == t;
                assert(alloc_in(views_of(ops@), reg_tex@[i0] as int));
            }
        }

        Ok(
            Program {
                ops,
                first_use,
                last_use,
                reg_tex,
                num_textures,
            },
        )
    }
}

/// Clone a construction operation, byte for byte.
fn clone_construct(op: &ConstructOp) -> (r: ConstructOp)
    ensures
        match (op, &r) {
            (ConstructOp::Solid(a), ConstructOp::Solid(b)) => a@ == b@,
        },
{
    match op {
        ConstructOp::Solid(data) => ConstructOp::Solid(slice_to_vec(data.as_slice())),
    }
}

/// Whether an `Output` instruction at `k` records the texture of its
/// observed source register.
pub open spec fn output_tex_ok(log: Seq<OpView>, reg_tex: Seq<usize>, k: int) -> bool {
    match log[k] {
        OpView::Output { src } => 0 <= src < reg_tex.len() && reg_tex[k] == reg_tex[src],
        _ => true,
    }
}

/// The invariant of the resource-assignment walk after `i` instructions:
/// every assigned texture id is in range and carries the register's
/// descriptor, outputs share their source's texture, the free list holds
/// in-range ids without duplicates whose owners' intervals have all ended,
/// and any two registers sharing an id have disjoint live spans.
spec fn lower_inv(
    log: Seq<OpView>,
    fu: Seq<usize>,
    lu: Seq<usize>,
    reg_tex: Seq<usize>,
    tex_desc: Seq<Descriptor>,
    free: Seq<usize>,
    i: int,
) -> bool {
    &&& reg_tex.len() == i
    &&& forall|k: int| 0 <= k < i ==> (#[trigger] reg_tex[k]) < tex_desc.len()
    &&& forall|k: int|
        0 <= k < i && produces(log[k]) ==> source_desc(log, k) == Some(
            tex_desc[#[trigger] reg_tex[k] as int],
        )
    &&& forall|k: int| 0 <= k < i ==> #[trigger] output_tex_ok(log, reg_tex, k)
    &&& forall|p: int| 0 <= p < free.len() ==> (#[trigger] free[p]) < tex_desc.len()
    &&& forall|p: int, k: int|
        0 <= p < free.len() && 0 <= k < i && produces(log[k]) && #[trigger] reg_tex[k]
            == #[trigger] free[p] ==> (fu[k] == log.len() || lu[k] < i)
    &&& forall|a: int, b: int|
        0 <= a < b < i && produces(log[a]) && produces(log[b]) && #[trigger] reg_tex[a]
            == #[trigger] reg_tex[b] ==> (fu[a] == log.len() || lu[a] < b)
    &&& forall|p1: int, p2: int|
        0 <= p1 < p2 < free.len() ==> #[trigger] free[p1] != #[trigger] free[p2]
}

/// Take a free texture whose descriptor equals `desc`, or mint a fresh one.
///
/// Returns the texture id and whether it was freshly allocated. The chosen
/// id is no longer in the free list afterwards; all other state is
/// preserved.
fn acquire_texture(tex_desc: &mut Vec<Descriptor>, free: &mut Vec<usize>, desc: &Descriptor) -> (r:
    (usize, bool))
    requires
        forall|p: int|
            0 <= p < old(free)@.len() ==> (#[trigger] old(free)@[p]) < old(tex_desc)@.len(),
        forall|p1: int, p2: int|
            0 <= p1 < p2 < old(free)@.len() ==> #[trigger] old(free)@[p1] != #[trigger] old(free)@[p2],
    ensures
        (r.0 as int) < final(tex_desc)@.len(),
        final(tex_desc)@[r.0 as int] == *desc,
        old(tex_desc)@.len() <= final(tex_desc)@.len(),
        forall|q: int| 0 <= q < old(tex_desc)@.len() ==> final(tex_desc)@[q] == old(tex_desc)@[q],
        forall|p1: int, p2: int|
            0 <= p1 < p2 < final(free)@.len() ==> #[trigger] final(free)@[p1] != #[trigger] final(free)@[p2],
        forall|p: int|
            0 <= p < final(free)@.len() ==> (#[trigger] final(free)@[p]) < final(tex_desc)@.len(),
        forall|p: int| 0 <= p < final(free)@.len() ==> #[trigger] final(free)@[p] != r.0,
        if r.1 {
            &&& final(free)@ == old(free)@
            &&& r.0 == old(tex_desc)@.len()
            &&& final(tex_desc)@.len() == old(tex_desc)@.len() + 1
        } else {
            &&& final(tex_desc)@ == old(tex_desc)@
            &&& (forall|p: int|
                0 <= p < final(free)@.len() ==> old(free)@.contains(#[trigger] final(free)@[p]))
            &&& old(free)@.contains(r.0)
        },
{
    let mut p: usize = 0;
    let mut found: usize = free.len();
    while p < free.len()
        invariant
            p <= free@.len(),
            forall|q: int| 0 <= q < free@.len() ==> (#[trigger] free@[q]) < tex_desc@.len(),
            found == free@.len() || (found < free@.len() && tex_desc@[free@[found as int] as int]
                == *desc),
        decreases free@.len() - p,
    {
        if found == free.len() {
            let t = free[p];
            if tex_desc[t] == *desc {
                found = p;
            }
        }
        p = p + 1;
    }

    if found < free.len() {
        let t = free.swap_remove(found);
        proof {
            let oldf = old(free)@;
            assert(oldf.contains(t)) by {
                assert(oldf[found as int] == t);
            }
            assert forall|q: int| 0 <= q < free@.len() implies oldf.contains(
                #[trigger] free@[q],
            ) by {
                if q == found {
                    assert(free@[q] == oldf[oldf.len() - 1]);
                } else {
                    assert(free@[q] == oldf[q]);
                }
            }
            assert forall|q: int| 0 <= q < free@.len() implies #[trigger] free@[q] != t by {
                if q == found {
                    assert(free@[q] == oldf[oldf.len() - 1]);
                    if free@[q] == t && oldf.len() - 1 != found {
                        assert(oldf[found as int] == oldf[oldf.len() - 1]);
                    }
                } else {
                    assert(free@[q] == oldf[q]);
                }
            }
            assert forall|p1: int, p2: int| 0 <= p1 < p2 < free@.len() implies #[trigger] free@[p1]
                != #[trigger] free@[p2] by {
                let v1 = if p1 == found {
                    oldf.len() - 1
                } else {
                    p1
                };
                let v2 = if p2 == found {
                    oldf.len() - 1
                } else {
                    p2
                };
                assert(free@[p1] == oldf[v1]);
                assert(free@[p2] == oldf[v2]);
            }
        }
        (t, false)
    } else {
        let t = tex_desc.len();
        tex_desc.push(*desc);
        (t, true)
    }
}

/// Whether some register's texture was freshly minted as `t`.
spec fn minted_tex(reg_tex: Seq<usize>, fresh: Seq<bool>, t: int) -> bool {
    exists|i0: int|
        0 <= i0 < reg_tex.len() && #[trigger] fresh[i0] && (reg_tex[i0] as int) == t
}

/// Extending the register assignment keeps every texture's minting.
proof fn lemma_minted_tex_push(
    reg_tex: Seq<usize>,
    fresh: Seq<bool>,
    t: int,
    x: usize,
    b: bool,
)
    requires
        minted_tex(reg_tex, fresh, t),
        reg_tex.len() == fresh.len(),
    ensures
        minted_tex(reg_tex.push(x), fresh.push(b), t),
{
    let i0 = choose|i0: int|
        0 <= i0 < reg_tex.len() && #[trigger] fresh[i0] && (reg_tex[i0] as int) == t;
    assert(fresh.push(b)[i0] == fresh[i0]);
    assert(reg_tex.push(x)[i0] == reg_tex[i0]);
}

/// Extending the register assignment keeps fresh mintings first
/// occurrences of their texture: a fresh entry takes a texture no earlier
/// register holds.
proof fn lemma_first_mint_push(
    rt0: Seq<usize>,
    fr0: Seq<bool>,
    tex0_len: int,
    t: usize,
    is_fresh: bool,
    i: int,
)
    requires
        rt0.len() == i,
        fr0.len() == i,
        0 <= i,
        forall|a: int, k: int|
            #![trigger fr0[a], rt0[k]]
            0 <= k < a < i && fr0[a] ==> rt0[k] != rt0[a],
        forall|k: int| 0 <= k < i ==> (#[trigger] rt0[k]) < tex0_len,
        is_fresh ==> t == tex0_len,
    ensures
        forall|a: int, k: int|
            #![trigger fr0.push(is_fresh)[a], rt0.push(t)[k]]
            0 <= k < a < i + 1 && fr0.push(is_fresh)[a] ==> rt0.push(t)[k] != rt0.push(t)[a],
{
    let rt = rt0.push(t);
    let fr = fr0.push(is_fresh);
    assert forall|a: int, k: int|
        #![trigger fr[a], rt[k]]
        0 <= k < a < i + 1 && fr[a] implies rt[k] != rt[a] by {
        assert(rt[k] == rt0[k]);
        if a < i {
            assert(fr[a] == fr0[a]);
            assert(rt[a] == rt0[a]);
        } else {
            assert(fr[a] == is_fresh);
            assert(rt[a] == t);
            assert(rt0[k] < tex0_len);
        }
    }
}

/// Extending the register assignment keeps every texture below the current
/// count minted, including a freshly minted one.
proof fn lemma_minted_tex_all_push(
    rt0: Seq<usize>,
    fr0: Seq<bool>,
    t_push: usize,
    b: bool,
    tex_len_old: int,
    tex_len_new: int,
    i: int,
)
    requires
        rt0.len() == i,
        fr0.len() == i,
        forall|t: int| 0 <= t < tex_len_old ==> #[trigger] minted_tex(rt0, fr0, t),
        tex_len_new == tex_len_old || (b && tex_len_new == tex_len_old + 1 && (t_push as int)
            == tex_len_old),
    ensures
        forall|t: int|
            0 <= t < tex_len_new ==> #[trigger] minted_tex(rt0.push(t_push), fr0.push(b), t),
{
    assert forall|t: int| 0 <= t < tex_len_new implies #[trigger] minted_tex(
        rt0.push(t_push),
        fr0.push(b),
        t,
    ) by {
        if t < tex_len_old {
            lemma_minted_tex_push(rt0, fr0, t, t_push, b);
        } else {
            assert(fr0.push(b)[i] && (rt0.push(t_push)[i] as int) == t);
        }
    }
}

/// Whether the texture of register `r` was freshly minted at `r` or at
/// some earlier register.
spec fn minted(reg_tex: Seq<usize>, fresh: Seq<bool>, r: int) -> bool {
    exists|i0: int| 0 <= i0 <= r && #[trigger] fresh[i0] && reg_tex[i0] == reg_tex[r]
}

/// Whether texture `t` has a producing owner among the first `i`
/// registers.
spec fn texture_owned(log: Seq<OpView>, reg_tex: Seq<usize>, t: int, i: int) -> bool {
    exists|k: int| 0 <= k < i && produces(log[k]) && (#[trigger] reg_tex[k]) as int == t
}

/// Every free texture has had a producing owner among the first `i`
/// registers.
spec fn free_owned(log: Seq<OpView>, reg_tex: Seq<usize>, free: Seq<usize>, i: int) -> bool {
    forall|p: int|
        0 <= p < free.len() ==> texture_owned(log, reg_tex, (#[trigger] free[p]) as int, i)
}

/// Every texture with a recorded discard position has had a producing
/// owner among the first `i` registers.
spec fn dpos_owned(log: Seq<OpView>, reg_tex: Seq<usize>, dpos: Seq<Option<usize>>, i: int) -> bool {
    forall|t: int|
        0 <= t < dpos.len() && (#[trigger] dpos[t]) is Some ==> texture_owned(log, reg_tex, t, i)
}

/// A texture's ownership survives extending the register assignment.
proof fn lemma_owner_push(log: Seq<OpView>, rt: Seq<usize>, x: usize, t: int, i: int)
    requires
        texture_owned(log, rt, t, i),
        rt.len() == i,
    ensures
        texture_owned(log, rt.push(x), t, i + 1),
{
    let k = choose|k: int| 0 <= k < i && produces(log[k]) && (#[trigger] rt[k]) as int == t;
    assert(rt.push(x)[k] == rt[k]);
}

/// Extending the register assignment by one entry keeps every earlier
/// register's minting.
proof fn lemma_minted_push(
    log: Seq<OpView>,
    rt: Seq<usize>,
    fr: Seq<bool>,
    t: usize,
    b: bool,
    i: int,
)
    requires
        rt.len() == i,
        fr.len() == i,
        forall|r: int| 0 <= r < i && produces(log[r]) ==> #[trigger] minted(rt, fr, r),
    ensures
        forall|r: int| 0 <= r < i && produces(log[r]) ==> #[trigger] minted(rt.push(t), fr.push(b), r),
{
    assert forall|r: int| 0 <= r < i && produces(log[r]) implies #[trigger] minted(
        rt.push(t),
        fr.push(b),
        r,
    ) by {
        assert(minted(rt, fr, r));
        let i0 = choose|i0: int| 0 <= i0 <= r && #[trigger] fr[i0] && rt[i0] == rt[r];
        assert(fr.push(b)[i0] == fr[i0]);
        assert(rt.push(t)[i0] == rt[i0]);
        assert(rt.push(t)[r] == rt[r]);
    }
}

/// Extending the register assignment by one entry keeps every free
/// texture's ownership.
proof fn lemma_free_owned_push(
    log: Seq<OpView>,
    rt: Seq<usize>,
    free: Seq<usize>,
    t: usize,
    i: int,
)
    requires
        rt.len() == i,
        free_owned(log, rt, free, i),
    ensures
        free_owned(log, rt.push(t), free, i + 1),
{
    assert forall|p: int| 0 <= p < free.len() implies texture_owned(
        log,
        rt.push(t),
        (#[trigger] free[p]) as int,
        i + 1,
    ) by {
        lemma_owner_push(log, rt, t, free[p] as int, i);
    }
}

/// Ownership of free textures transfers to any free list whose elements
/// all come from the old one.
proof fn lemma_free_owned_subset(
    log: Seq<OpView>,
    rt: Seq<usize>,
    free_old: Seq<usize>,
    free_new: Seq<usize>,
    i: int,
)
    requires
        free_owned(log, rt, free_old, i),
        forall|p: int| 0 <= p < free_new.len() ==> free_old.contains(#[trigger] free_new[p]),
    ensures
        free_owned(log, rt, free_new, i),
{
    assert forall|p: int| 0 <= p < free_new.len() implies texture_owned(
        log,
        rt,
        (#[trigger] free_new[p]) as int,
        i,
    ) by {
        let q = choose|q: int| 0 <= q < free_old.len() && free_old[q] == free_new[p];
        assert(texture_owned(log, rt, free_old[q] as int, i));
    }
}

/// Assigning a texture to the register produced at `i` keeps every
/// register minted: a fresh texture is its own minting, and a reused one
/// inherits the minting of the free texture's previous owner.
proof fn lemma_minted_acquire(
    log: Seq<OpView>,
    rt0: Seq<usize>,
    fr0: Seq<bool>,
    free0: Seq<usize>,
    t: usize,
    is_fresh: bool,
    i: int,
)
    requires
        0 <= i < log.len(),
        rt0.len() == i,
        fr0.len() == i,
        forall|r: int| 0 <= r < i && produces(log[r]) ==> #[trigger] minted(rt0, fr0, r),
        free_owned(log, rt0, free0, i),
        !is_fresh ==> free0.contains(t),
    ensures
        forall|r: int|
            0 <= r < i + 1 && produces(log[r]) ==> #[trigger] minted(
                rt0.push(t),
                fr0.push(is_fresh),
                r,
            ),
{
    let rt = rt0.push(t);
    let fr = fr0.push(is_fresh);
    lemma_minted_push(log, rt0, fr0, t, is_fresh, i);
    assert forall|r: int| 0 <= r < i + 1 && produces(log[r]) implies #[trigger] minted(
        rt,
        fr,
        r,
    ) by {
        if r == i {
            if is_fresh {
                assert(fr[i] && rt[i] == rt[r]);
            } else {
                let q = choose|q: int| 0 <= q < free0.len() && free0[q] == t;
                assert(texture_owned(log, rt0, free0[q] as int, i));
                let k = choose|k: int|
                    0 <= k < i && produces(log[k]) && (#[trigger] rt0[k]) as int == free0[q] as int;
                assert(minted(rt0, fr0, k));
                let i0 = choose|i0: int| 0 <= i0 <= k && #[trigger] fr0[i0] && rt0[i0] == rt0[k];
                assert(fr[i0] == fr0[i0]);
                assert(rt[i0] == rt0[i0]);
                assert(rt[r] == t);
                assert(0 <= i0 <= r && fr[i0] && rt[i0] == rt[r]);
            }
        }
    }
}

/// Whether some register below `bound` freshly minted texture `t`.
spec fn fresh_mint(reg_tex: Seq<usize>, fresh: Seq<bool>, t: int, bound: int) -> bool {
    exists|jp: int| 0 <= jp < bound && #[trigger] fresh[jp] && (reg_tex[jp] as int) == t
}

/// Every `Allocate` already emitted names a texture freshly minted by a
/// register below `bound`.
spec fn allocs_minted(
    vs: Seq<crate::program::HighView>,
    reg_tex: Seq<usize>,
    fresh: Seq<bool>,
    bound: int,
) -> bool {
    forall|a: int|
        0 <= a < vs.len() ==> match #[trigger] vs[a] {
            crate::program::HighView::Allocate { tex } => fresh_mint(reg_tex, fresh, tex, bound),
            _ => true,
        }
}

/// During emission, the texture of any register active at instruction `j`
/// already has its `Allocate` in the emitted sequence: the texture was
/// minted at or before `j`, and each processed minting emitted one.
proof fn lemma_c_alloc_for(
    log: Seq<OpView>,
    reg_tex: Seq<usize>,
    fresh: Seq<bool>,
    vs: Seq<crate::program::HighView>,
    r: int,
    j: int,
)
    requires
        0 <= r <= j < log.len(),
        reg_tex.len() == log.len(),
        fresh.len() == log.len(),
        produces(log[r]),
        forall|rr: int|
            0 <= rr < log.len() && produces(log[rr]) ==> #[trigger] minted(reg_tex, fresh, rr),
        forall|jp: int|
            0 <= jp < j && fresh[jp] ==> #[trigger] alloc_in(vs, reg_tex[jp] as int),
        fresh[j] ==> alloc_in(vs, reg_tex[j] as int),
    ensures
        alloc_in(vs, reg_tex[r] as int),
{
    assert(minted(reg_tex, fresh, r));
    let i0 = choose|i0: int| 0 <= i0 <= r && #[trigger] fresh[i0] && reg_tex[i0] == reg_tex[r];
    if i0 < j {
        assert(alloc_in(vs, reg_tex[i0] as int));
    } else {
        assert(i0 == j);
        assert(alloc_in(vs, reg_tex[j] as int));
    }
}

/// A register whose descriptor resolves is a producing instruction.
proof fn lemma_source_produces(log: Seq<OpView>, r: int)
    requires
        source_desc(log, r) is Some,
    ensures
        0 <= r < log.len(),
        produces(log[r]),
{
}

/// The invariant of the recorded discard positions after `i` instructions:
/// a recorded position lies before `i`, and every producing register whose
/// texture has a recorded position is defined no later than it and has its
/// whole liveness interval end by it.
spec fn discard_inv(
    log: Seq<OpView>,
    fu: Seq<usize>,
    lu: Seq<usize>,
    reg_tex: Seq<usize>,
    dpos: Seq<Option<usize>>,
    i: int,
) -> bool {
    &&& forall|t: int| 0 <= t < dpos.len() ==> (#[trigger] dpos[t] matches Some(d) ==> d < i)
    &&& forall|t: int, k: int|
        #![trigger dpos[t], reg_tex[k]]
        0 <= t < dpos.len() && 0 <= k < reg_tex.len() && produces(log[k]) && reg_tex[k] == t
            && dpos[t] is Some ==> (k <= dpos[t]->Some_0 && (fu[k] == log.len() || lu[k]
            <= dpos[t]->Some_0))
}

/// Every `Discard` already emitted names a texture whose recorded discard
/// position lies before instruction `j`, or at `j` below the sweep bound
/// `t_cur` of the emission loop.
spec fn discards_marked(
    vs: Seq<crate::program::HighView>,
    dpos: Seq<Option<usize>>,
    j: int,
    t_cur: int,
) -> bool {
    forall|p: int, t: int|
        #![trigger vs[p], dpos[t]]
        0 <= p < vs.len() && 0 <= t && vs[p] == (crate::program::HighView::Discard { tex: t })
            ==> t < dpos.len() && (dpos[t] matches Some(d) && (d < j || (d == j && t < t_cur)))
}

/// Assigning a texture at instruction `i` preserves the discard invariant:
/// the assigned texture's recorded position is cleared (fresh textures
/// start without one), and no other texture gains an owner.
proof fn lemma_discard_acquire(
    log: Seq<OpView>,
    fu: Seq<usize>,
    lu: Seq<usize>,
    reg_tex_new: Seq<usize>,
    dpos_old: Seq<Option<usize>>,
    dpos_new: Seq<Option<usize>>,
    t_new: usize,
    is_fresh: bool,
    i: int,
)
    requires
        discard_inv(log, fu, lu, reg_tex_new.drop_last(), dpos_old, i),
        0 <= i < log.len(),
        reg_tex_new.len() == i + 1,
        reg_tex_new.last() == t_new,
        if is_fresh {
            dpos_new == dpos_old.push(None) && t_new == dpos_old.len()
        } else {
            (t_new as int) < dpos_old.len() && dpos_new == dpos_old.update(t_new as int, None)
        },
        dpos_owned(log, reg_tex_new.drop_last(), dpos_old, i),
    ensures
        discard_inv(log, fu, lu, reg_tex_new, dpos_new, i + 1),
        dpos_owned(log, reg_tex_new, dpos_new, i + 1),
{
    let reg_tex = reg_tex_new.drop_last();
    assert forall|t: int| 0 <= t < dpos_new.len() implies (#[trigger] dpos_new[t] matches Some(d)
        ==> d < i + 1) by {
        if t != t_new {
            assert(dpos_new[t] == dpos_old[t]);
        }
    }
    assert forall|t: int, k: int|
        #![trigger dpos_new[t], reg_tex_new[k]]
        0 <= t < dpos_new.len() && 0 <= k < reg_tex_new.len() && produces(log[k])
            && reg_tex_new[k] == t && dpos_new[t] is Some implies (k <= dpos_new[t]->Some_0 && (
    fu[k] == log.len() || lu[k] <= dpos_new[t]->Some_0)) by {
        assert(t != t_new);
        assert(dpos_new[t] == dpos_old[t]);
        if k < i {
            assert(reg_tex_new[k] == reg_tex[k]);
        } else {
            assert(reg_tex_new[k] == t_new);
        }
    }
    assert forall|tt: int| 0 <= tt < dpos_new.len() && (#[trigger] dpos_new[tt]) is Some implies
        texture_owned(log, reg_tex_new, tt, i + 1) by {
        assert(tt != t_new);
        assert(dpos_new[tt] == dpos_old[tt]);
        assert(texture_owned(log, reg_tex, tt, i));
        let k = choose|k: int|
            0 <= k < i && produces(log[k]) && (#[trigger] reg_tex[k]) as int == tt;
        assert(reg_tex_new[k] == reg_tex[k]);
    }
}

/// Recording that an `Output` instruction at `i` produces nothing
/// preserves the discard invariant.
proof fn lemma_discard_skip(
    log: Seq<OpView>,
    fu: Seq<usize>,
    lu: Seq<usize>,
    reg_tex_new: Seq<usize>,
    dpos: Seq<Option<usize>>,
    i: int,
)
    requires
        discard_inv(log, fu, lu, reg_tex_new.drop_last(), dpos, i),
        0 <= i < log.len(),
        !produces(log[i]),
        reg_tex_new.len() == i + 1,
        dpos_owned(log, reg_tex_new.drop_last(), dpos, i),
    ensures
        discard_inv(log, fu, lu, reg_tex_new, dpos, i + 1),
        dpos_owned(log, reg_tex_new, dpos, i + 1),
{
    let reg_tex = reg_tex_new.drop_last();
    assert forall|t: int, k: int|
        #![trigger dpos[t], reg_tex_new[k]]
        0 <= t < dpos.len() && 0 <= k < reg_tex_new.len() && produces(log[k]) && reg_tex_new[k]
            == t && dpos[t] is Some implies (k <= dpos[t]->Some_0 && (fu[k] == log.len() || lu[k]
        <= dpos[t]->Some_0)) by {
        if k < i {
            assert(reg_tex_new[k] == reg_tex[k]);
        }
    }
    assert forall|tt: int| 0 <= tt < dpos.len() && (#[trigger] dpos[tt]) is Some implies
        texture_owned(log, reg_tex_new, tt, i + 1) by {
        assert(texture_owned(log, reg_tex, tt, i));
        let k = choose|k: int|
            0 <= k < i && produces(log[k]) && (#[trigger] reg_tex[k]) as int == tt;
        assert(reg_tex_new[k] == reg_tex[k]);
    }
}

/// Recording instruction `i` as the discard position of texture `t`
/// preserves the discard invariant: `t`'s owner ends its interval at `i`,
/// and every earlier owner of `t` ended before it.
proof fn lemma_discard_mark(
    log: Seq<OpView>,
    fu: Seq<usize>,
    lu: Seq<usize>,
    reg_tex: Seq<usize>,
    tex_desc: Seq<Descriptor>,
    free: Seq<usize>,
    dpos: Seq<Option<usize>>,
    t: usize,
    r: int,
    i: int,
)
    requires
        lower_inv(log, fu, lu, reg_tex, tex_desc, free, i + 1),
        liveness_exact(log, fu, lu),
        0 <= i < log.len(),
        reg_tex.len() == i + 1,
        0 <= r <= i,
        produces(log[r]),
        reg_tex[r] == t,
        r == i ==> fu[r] == log.len(),
        r < i ==> reads(log[i], r) && lu[r] == i,
        discard_inv(log, fu, lu, reg_tex, dpos, i + 1),
        dpos_owned(log, reg_tex, dpos, i + 1),
        (t as int) < dpos.len(),
    ensures
        discard_inv(log, fu, lu, reg_tex, dpos.update(t as int, Some(i as usize)), i + 1),
        dpos_owned(log, reg_tex, dpos.update(t as int, Some(i as usize)), i + 1),
{
    let dpos2 = dpos.update(t as int, Some(i as usize));
    if r < i {
        assert(fu[r] <= i && i <= lu[r]);
    }
    assert forall|tt: int| 0 <= tt < dpos2.len() implies (#[trigger] dpos2[tt] matches Some(d)
        ==> d < i + 1) by {
        if tt != t {
            assert(dpos2[tt] == dpos[tt]);
        }
    }
    assert forall|tt: int, k: int|
        #![trigger dpos2[tt], reg_tex[k]]
        0 <= tt < dpos2.len() && 0 <= k < reg_tex.len() && produces(log[k]) && reg_tex[k] == tt
            && dpos2[tt] is Some implies (k <= dpos2[tt]->Some_0 && (fu[k] == log.len() || lu[k]
        <= dpos2[tt]->Some_0)) by {
        if tt == t {
            if k == r {
            } else if k < r {
                assert(reg_tex[k] == reg_tex[r]);
            } else {
                // r < k <= i: the pair (r, k) forces r's interval to end
                // before k, which contradicts r's activity at i.
                assert(reg_tex[r] == reg_tex[k]);
                if r < i {
                    assert(lu[r] < k);
                    assert(false);
                } else {
                    assert(false);
                }
            }
        } else {
            assert(dpos2[tt] == dpos[tt]);
        }
    }
    assert forall|tt: int| 0 <= tt < dpos2.len() && (#[trigger] dpos2[tt]) is Some implies
        texture_owned(log, reg_tex, tt, i + 1) by {
        if tt == t {
            assert(reg_tex[r] as int == tt && produces(log[r]) && 0 <= r < i + 1);
        } else {
            assert(dpos2[tt] == dpos[tt]);
            assert(texture_owned(log, reg_tex, tt, i + 1));
        }
    }
}

/// A register that is still read at instruction `i` cannot have its texture
/// in the free list: the free list only holds ids whose owners' intervals
/// have all ended before `i`.
proof fn lemma_live_not_free(
    log: Seq<OpView>,
    fu: Seq<usize>,
    lu: Seq<usize>,
    reg_tex: Seq<usize>,
    tex_desc: Seq<Descriptor>,
    free: Seq<usize>,
    i: int,
    r: int,
)
    requires
        lower_inv(log, fu, lu, reg_tex, tex_desc, free, i),
        liveness_exact(log, fu, lu),
        0 <= r < i < log.len(),
        produces(log[r]),
        reads(log[i], r),
    ensures
        forall|p: int| 0 <= p < free.len() ==> #[trigger] free[p] != reg_tex[r],
{
    assert forall|p: int| 0 <= p < free.len() implies #[trigger] free[p] != reg_tex[r] by {
        if free[p] == reg_tex[r] {
            assert(fu[r] <= i && i <= lu[r]);
        }
    }
}

/// A value absent from a list is also absent from any list whose elements
/// all come from it.
proof fn lemma_not_free_subset(free_old: Seq<usize>, free_new: Seq<usize>, t: usize)
    requires
        forall|p: int| 0 <= p < free_new.len() ==> free_old.contains(#[trigger] free_new[p]),
        forall|q: int| 0 <= q < free_old.len() ==> #[trigger] free_old[q] != t,
    ensures
        forall|p: int| 0 <= p < free_new.len() ==> #[trigger] free_new[p] != t,
{
    assert forall|p: int| 0 <= p < free_new.len() implies #[trigger] free_new[p] != t by {
        if free_new[p] == t {
            let q = choose|q: int| 0 <= q < free_old.len() && free_old[q] == free_new[p];
        }
    }
}

/// Assigning a just-acquired texture to the register produced at `i`
/// preserves the lowering invariant, advanced past `i`.
proof fn lemma_lower_acquire(
    log: Seq<OpView>,
    fu: Seq<usize>,
    lu: Seq<usize>,
    reg_tex_new: Seq<usize>,
    tex_old: Seq<Descriptor>,
    tex_new: Seq<Descriptor>,
    free_old: Seq<usize>,
    free_new: Seq<usize>,
    t: usize,
    is_fresh: bool,
    d: Descriptor,
    i: int,
)
    requires
        lower_inv(log, fu, lu, reg_tex_new.drop_last(), tex_old, free_old, i),
        liveness_exact(log, fu, lu),
        0 <= i < log.len(),
        produces(log[i]),
        source_desc(log, i) == Some(d),
        reg_tex_new.len() == i + 1,
        reg_tex_new.last() == t,
        (t as int) < tex_new.len(),
        tex_new[t as int] == d,
        tex_old.len() <= tex_new.len(),
        forall|q: int| 0 <= q < tex_old.len() ==> #[trigger] tex_new[q] == tex_old[q],
        forall|p1: int, p2: int|
            0 <= p1 < p2 < free_new.len() ==> #[trigger] free_new[p1] != #[trigger] free_new[p2],
        forall|p: int| 0 <= p < free_new.len() ==> (#[trigger] free_new[p]) < tex_new.len(),
        forall|p: int| 0 <= p < free_new.len() ==> #[trigger] free_new[p] != t,
        forall|p: int| 0 <= p < free_new.len() ==> free_old.contains(#[trigger] free_new[p]),
        is_fresh ==> t == tex_old.len(),
        !is_fresh ==> free_old.contains(t),
    ensures
        lower_inv(log, fu, lu, reg_tex_new, tex_new, free_new, i + 1),
{
    let reg_tex = reg_tex_new.drop_last();
    assert forall|k: int| 0 <= k < i + 1 implies (#[trigger] reg_tex_new[k]) < tex_new.len() by {
        if k < i {
            assert(reg_tex[k] < tex_old.len());
            assert(reg_tex_new[k] == reg_tex[k]);
        }
    }
    assert forall|k: int| 0 <= k < i + 1 && produces(log[k]) implies source_desc(log, k) == Some(
        tex_new[(#[trigger] reg_tex_new[k]) as int],
    ) by {
        if k < i {
            assert(reg_tex_new[k] == reg_tex[k]);
            assert(source_desc(log, k) == Some(tex_old[reg_tex[k] as int]));
            assert(tex_new[reg_tex[k] as int] == tex_old[reg_tex[k] as int]);
        }
    }
    assert forall|k: int| 0 <= k < i + 1 implies #[trigger] output_tex_ok(log, reg_tex_new, k) by {
        if k < i {
            assert(output_tex_ok(log, reg_tex, k));
            match log[k] {
                OpView::Output { src } => {
                    assert(reg_tex_new[k] == reg_tex[k]);
                    assert(reg_tex_new[src] == reg_tex[src]);
                },
                _ => {},
            }
        }
    }
    assert forall|p: int, k: int|
        0 <= p < free_new.len() && 0 <= k < i + 1 && produces(log[k]) && #[trigger] reg_tex_new[k]
            == #[trigger] free_new[p] implies (fu[k] == log.len() || lu[k] < i + 1) by {
        if k < i {
            let q = choose|q: int| 0 <= q < free_old.len() && free_old[q] == free_new[p];
            assert(reg_tex[k] == free_old[q]);
        } else {
            assert(reg_tex_new[k] == t);
            assert(free_new[p] != t);
        }
    }
    assert forall|a: int, b: int|
        0 <= a < b < i + 1 && produces(log[a]) && produces(log[b]) && #[trigger] reg_tex_new[a]
            == #[trigger] reg_tex_new[b] implies (fu[a] == log.len() || lu[a] < b) by {
        if b < i {
            assert(reg_tex_new[a] == reg_tex[a]);
            assert(reg_tex_new[b] == reg_tex[b]);
        } else {
            assert(b == i);
            assert(reg_tex_new[a] == reg_tex[a]);
            assert(reg_tex_new[b] == t);
            if reg_tex[a] == t {
                if is_fresh {
                    assert(reg_tex[a] < tex_old.len());
                    assert(false);
                } else {
                    let q = choose|q: int| 0 <= q < free_old.len() && free_old[q] == t;
                    assert(reg_tex[a] == free_old[q]);
                }
            }
        }
    }
}

/// Recording that an `Output` instruction observes its source's texture
/// preserves the lowering invariant, advanced past `i`.
proof fn lemma_lower_output(
    log: Seq<OpView>,
    fu: Seq<usize>,
    lu: Seq<usize>,
    reg_tex_new: Seq<usize>,
    tex_desc: Seq<Descriptor>,
    free: Seq<usize>,
    s: int,
    i: int,
)
    requires
        lower_inv(log, fu, lu, reg_tex_new.drop_last(), tex_desc, free, i),
        liveness_exact(log, fu, lu),
        0 <= i < log.len(),
        log[i] == (OpView::Output { src: s }),
        0 <= s < i,
        reg_tex_new.len() == i + 1,
        reg_tex_new.last() == reg_tex_new.drop_last()[s],
    ensures
        lower_inv(log, fu, lu, reg_tex_new, tex_desc, free, i + 1),
{
    let reg_tex = reg_tex_new.drop_last();
    assert(!produces(log[i]));
    assert forall|k: int| 0 <= k < i + 1 implies (#[trigger] reg_tex_new[k]) < tex_desc.len() by {
        if k < i {
            assert(reg_tex_new[k] == reg_tex[k]);
        } else {
            assert(reg_tex_new[k] == reg_tex[s]);
        }
    }
    assert forall|k: int| 0 <= k < i + 1 && produces(log[k]) implies source_desc(log, k) == Some(
        tex_desc[(#[trigger] reg_tex_new[k]) as int],
    ) by {
        if k < i {
            assert(reg_tex_new[k] == reg_tex[k]);
        }
    }
    assert forall|k: int| 0 <= k < i + 1 implies #[trigger] output_tex_ok(log, reg_tex_new, k) by {
        if k < i {
            assert(output_tex_ok(log, reg_tex, k));
            match log[k] {
                OpView::Output { src } => {
                    assert(reg_tex_new[k] == reg_tex[k]);
                    assert(reg_tex_new[src] == reg_tex[src]);
                },
                _ => {},
            }
        } else {
            assert(reg_tex_new[k] == reg_tex[s]);
            assert(reg_tex_new[s] == reg_tex[s]);
        }
    }
    assert forall|p: int, k: int|
        0 <= p < free.len() && 0 <= k < i + 1 && produces(log[k]) && #[trigger] reg_tex_new[k]
            == #[trigger] free[p] implies (fu[k] == log.len() || lu[k] < i + 1) by {
        if k < i {
            assert(reg_tex_new[k] == reg_tex[k]);
        }
    }
    assert forall|a: int, b: int|
        0 <= a < b < i + 1 && produces(log[a]) && produces(log[b]) && #[trigger] reg_tex_new[a]
            == #[trigger] reg_tex_new[b] implies (fu[a] == log.len() || lu[a] < b) by {
        if b < i {
            assert(reg_tex_new[a] == reg_tex[a]);
            assert(reg_tex_new[b] == reg_tex[b]);
        }
    }
}

/// Return a texture to the free list once its owner's interval has ended:
/// either the owner is the never-read register just produced at `i`, or it
/// is an operand of instruction `i` whose last use is `i` itself.
fn release_texture(
    free: &mut Vec<usize>,
    t: usize,
    Ghost(log): Ghost<Seq<OpView>>,
    Ghost(fu): Ghost<Seq<usize>>,
    Ghost(lu): Ghost<Seq<usize>>,
    Ghost(reg_tex): Ghost<Seq<usize>>,
    Ghost(tex_desc): Ghost<Seq<Descriptor>>,
    Ghost(r): Ghost<int>,
    Ghost(i): Ghost<int>,
)
    requires
        lower_inv(log, fu, lu, reg_tex, tex_desc, old(free)@, i + 1),
        liveness_exact(log, fu, lu),
        0 <= i < log.len(),
        reg_tex.len() == i + 1,
        0 <= r <= i,
        produces(log[r]),
        reg_tex[r] == t,
        r == i ==> fu[r] == log.len(),
        r < i ==> reads(log[i], r) && lu[r] == i,
        forall|p: int| 0 <= p < old(free)@.len() ==> #[trigger] old(free)@[p] != t,
        free_owned(log, reg_tex, old(free)@, i + 1),
    ensures
        final(free)@ == old(free)@.push(t),
        lower_inv(log, fu, lu, reg_tex, tex_desc, final(free)@, i + 1),
        free_owned(log, reg_tex, final(free)@, i + 1),
{
    proof {
        assert(reg_tex[r] < tex_desc.len());
        if r < i {
            assert(fu[r] <= i && i <= lu[r]);
        }
        let freed = old(free)@.push(t);
        assert forall|p: int, k: int|
            0 <= p < freed.len() && 0 <= k < i + 1 && produces(log[k]) && #[trigger] reg_tex[k]
                == #[trigger] freed[p] implies (fu[k] == log.len() || lu[k] < i + 1) by {
            if p < old(free)@.len() {
                assert(freed[p] == old(free)@[p]);
            } else {
                assert(freed[p] == t);
                if k == r {
                } else if k < r {
                    assert(reg_tex[k] == reg_tex[r]);
                } else {
                    // r < k <= i: the pair (r, k) would force r's interval
                    // to end before k, yet r is read at i itself.
                    assert(reg_tex[r] == reg_tex[k]);
                    if r < i {
                        assert(fu[r] != log.len());
                        assert(lu[r] < k);
                        assert(false);
                    } else {
                        assert(false);
                    }
                }
            }
        }
        assert forall|p1: int, p2: int| 0 <= p1 < p2 < freed.len() implies #[trigger] freed[p1]
            != #[trigger] freed[p2] by {
            if p2 < old(free)@.len() {
                assert(freed[p1] == old(free)@[p1]);
                assert(freed[p2] == old(free)@[p2]);
            } else {
                assert(freed[p2] == t);
                assert(freed[p1] == old(free)@[p1]);
            }
        }
        assert forall|p: int| 0 <= p < freed.len() implies (#[trigger] freed[p])
            < tex_desc.len() by {
            if p < old(free)@.len() {
                assert(freed[p] == old(free)@[p]);
            } else {
                assert(freed[p] == t);
            }
        }
        assert forall|p: int| 0 <= p < freed.len() implies texture_owned(
            log,
            reg_tex,
            (#[trigger] freed[p]) as int,
            i + 1,
        ) by {
            if p < old(free)@.len() {
                assert(freed[p] == old(free)@[p]);
                assert(texture_owned(log, reg_tex, old(free)@[p] as int, i + 1));
            } else {
                assert(freed[p] == t);
                assert(reg_tex[r] == t && produces(log[r]) && 0 <= r < i + 1);
            }
        }
    }
    free.push(t);
}

/// A vector of `len` copies of `value`.
fn filled_vec(len: usize, value: usize) -> (r: Vec<usize>)
    ensures
        r@ == Seq::new(len as nat, |i: int| value),
{
    let mut r: Vec<usize> = Vec::new();
    let mut i: usize = 0;
    while i < len
        invariant
            i <= len,
            r@ == Seq::new(i as nat, |j: int| value),
        decreases len - i,
    {
        r.push(value);
        i = i + 1;
        proof {
            assert(r@ =~= Seq::new(i as nat, |j: int| value));
        }
    }
    r
}

/// Extend the liveness interval of register `r` to cover instruction `i`:
/// lower its first use to at most `i` and raise its last use to at least
/// `i`.
fn extend_interval(fu: &mut Vec<usize>, lu: &mut Vec<usize>, r: usize, i: usize)
    requires
        r < old(fu)@.len(),
        old(fu)@.len() == old(lu)@.len(),
    ensures
        final(fu)@.len() == old(fu)@.len(),
        final(lu)@.len() == old(lu)@.len(),
        final(fu)@[r as int] == if old(fu)@[r as int] <= i {
            old(fu)@[r as int]
        } else {
            i as usize
        },
        final(lu)@[r as int] == if old(lu)@[r as int] >= i {
            old(lu)@[r as int]
        } else {
            i as usize
        },
        forall|j: int| 0 <= j < old(fu)@.len() && j != r ==> final(fu)@[j] == old(fu)@[j],
        forall|j: int| 0 <= j < old(lu)@.len() && j != r ==> final(lu)@[j] == old(lu)@[j],
{
    if fu[r] > i {
        fu[r] = i;
    }
    if lu[r] < i {
        lu[r] = i;
    }
}

impl Default for CommandBuffer {
    /// An empty command log.
    fn default() -> (r: CommandBuffer)
        ensures
            r@ == Seq::<OpView>::empty(),
    {
        let r = CommandBuffer { ops: Vec::new() };
        proof {
            assert(r@ =~= Seq::<OpView>::empty());
        }
        r
    }
}

impl CommandError {
    /// Whether this error reports incompatible operand types, as opposed to
    /// a generic failure such as an invalid register reference.
    pub closed spec fn spec_is_type_err(self) -> bool {
        self.type_err
    }

    /// Whether this error reports incompatible operand types, as opposed to
    /// a generic failure such as an invalid register reference.
    pub fn is_type_err(&self) -> (r: bool)
        ensures
            r == self.spec_is_type_err(),
    {
        self.type_err
    }
}

} // verus!
