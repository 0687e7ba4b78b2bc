//! The compiled form of a command log: liveness intervals and a lowered,
//! resource-scheduled instruction sequence.

use crate::buffer::Descriptor;
use crate::command::{BinaryOp, ConstructOp, OpView, UnaryOp};
use vstd::prelude::*;

verus! {

/// Identifies one resource in the render pipeline, by an index.
#[derive(Clone, Copy, Debug, PartialEq, Eq, Hash, Structural)]
pub struct Texture(pub usize);

/// A high-level, device independent translation of the log's instructions.
///
/// The main difference to [`crate::command::Op`] is that this is no longer
/// in single-assignment form: it references reusable resource identifiers
/// instead of typed registers, and two extra control instructions bracket a
/// resource's required lifetime. `Allocate` and `Discard` are emitted by the
/// compiler, not the caller.
pub enum High {
    /// Assign a texture id to an input with the given descriptor.
    Input(Texture, Descriptor),
    /// Designate the texture as an output, in sequence of outputs.
    Output(Texture),
    /// Instruct the machine to allocate the texture now.
    Allocate(Texture),
    /// Mark a texture as unneeded.
    Discard(Texture),
    /// Fill the texture from the operation's own parameters.
    Construct { dst: Texture, op: ConstructOp },
    /// Apply a unary operation, reading `src` and writing `dst`.
    Unary { src: Texture, dst: Texture, op: UnaryOp },
    /// Apply a binary operation, reading `lhs` and `rhs` and writing `dst`.
    Binary { lhs: Texture, rhs: Texture, dst: Texture, op: BinaryOp },
}

/// The spec-level value of one lowered instruction, with texture ids as
/// integers and construction data as a byte sequence.
pub enum HighView {
    Input { tex: int, desc: Descriptor },
    Output { tex: int },
    Allocate { tex: int },
    Discard { tex: int },
    Construct { dst: int, data: Seq<u8> },
    Unary { src: int, dst: int, op: UnaryOp },
    Binary { lhs: int, rhs: int, dst: int, op: BinaryOp },
}

impl View for High {
    type V = HighView;

    open spec fn view(&self) -> HighView {
        match self {
            High::Input(tex, desc) => HighView::Input { tex: tex.0 as int, desc: *desc },
            High::Output(tex) => HighView::Output { tex: tex.0 as int },
            High::Allocate(tex) => HighView::Allocate { tex: tex.0 as int },
            High::Discard(tex) => HighView::Discard { tex: tex.0 as int },
            High::Construct { dst, op } => HighView::Construct {
                dst: dst.0 as int,
                data: match op {
                    ConstructOp::Solid(data) => data@,
                },
            },
            High::Unary { src, dst, op } => HighView::Unary {
                src: src.0 as int,
                dst: dst.0 as int,
                op: *op,
            },
            High::Binary { lhs, rhs, dst, op } => HighView::Binary {
                lhs: lhs.0 as int,
                rhs: rhs.0 as int,
                dst: dst.0 as int,
                op: *op,
            },
        }
    }
}

/// An error from compiling a command log.
///
/// The checks that could reject a log are already enforced by the builder
/// methods, so the current compiler never constructs one; the variant space
/// is reserved.
#[derive(Clone, Copy, Debug)]
pub struct CompileError {
    _reserved: (),
}

/// Requested device capabilities.
///
/// Currently a placeholder: device selection takes the first available
/// device whatever is requested.
pub struct Capabilities {}

/// A compiled program: per-register liveness intervals and the lowered,
/// resource-scheduled instruction sequence over texture identifiers.
pub struct Program {
    /// The lowered instructions, with `Allocate` and `Discard` bracketing
    /// each texture's required lifetime.
    pub ops: Vec<High>,
    /// For each log index, the smallest instruction index that reads the
    /// register, or the log length if it is never read.
    pub first_use: Vec<usize>,
    /// For each log index, the largest instruction index that reads the
    /// register, or `0` if it is never read.
    pub last_use: Vec<usize>,
    /// For each producing log index, the texture id assigned to its
    /// register. For an `Output` index this records the texture of the
    /// observed source register.
    pub reg_tex: Vec<usize>,
    /// The number of distinct texture ids the program uses.
    pub num_textures: usize,
}

/// Whether the instruction `op` reads register `r`.
///
/// `Input` and `Construct` never read other registers; `Output` and all
/// unary and binary operations read the register(s) they name, including
/// when the same register appears as both operands.
pub open spec fn reads(op: OpView, r: int) -> bool {
    match op {
        OpView::Output { src } => src == r,
        OpView::Unary { src, .. } => src == r,
        OpView::Binary { lhs, rhs, .. } => lhs == r || rhs == r,
        OpView::Input { .. } => false,
        OpView::Construct { .. } => false,
    }
}

/// Whether the instruction at log index `i` produces a register.
pub open spec fn produces(op: OpView) -> bool {
    !(op is Output)
}

/// Exactness of liveness intervals for a log: every read of `r` at index
/// `i` lies within `[first_use[r], last_use[r]]`, and each interval bound
/// is itself witnessed by a read, or takes its never-read default (the log
/// length and `0` respectively).
pub open spec fn liveness_exact(log: Seq<OpView>, fu: Seq<usize>, lu: Seq<usize>) -> bool {
    &&& fu.len() == log.len()
    &&& lu.len() == log.len()
    &&& forall|r: int, i: int|
        0 <= r < log.len() && 0 <= i < log.len() && #[trigger] reads(log[i], r) ==> fu[r] <= i
            && i <= lu[r]
    &&& forall|r: int|
        0 <= r < log.len() ==> (#[trigger] fu[r] == log.len() || (fu[r] < log.len() && reads(
            log[fu[r] as int],
            r,
        )))
    &&& forall|r: int|
        0 <= r < log.len() ==> (#[trigger] lu[r] == 0 || (lu[r] < log.len() && reads(
            log[lu[r] as int],
            r,
        )))
}

/// Liveness soundness: for every register `r` and every instruction at
/// index `i` that reads `r`, the liveness interval of `r` covers `i`; and
/// for a register that is never read, the interval is empty (its lower
/// bound exceeds its upper bound).
pub proof fn lemma_liveness_soundness(log: Seq<OpView>, fu: Seq<usize>, lu: Seq<usize>, r: int)
    requires
        liveness_exact(log, fu, lu),
        0 <= r < log.len(),
    ensures
        forall|i: int|
            0 <= i < log.len() && #[trigger] reads(log[i], r) ==> fu[r] <= i && i <= lu[r],
        (forall|i: int| 0 <= i < log.len() ==> !(#[trigger] reads(log[i], r))) ==> fu[r] > lu[r],
{
    if forall|i: int| 0 <= i < log.len() ==> !(#[trigger] reads(log[i], r)) {
        assert(fu[r] == log.len() || reads(log[fu[r] as int], r));
        assert(lu[r] == 0 || reads(log[lu[r] as int], r));
        assert(fu[r] == log.len());
        assert(lu[r] == 0);
    }
}

/// Liveness intervals are determined by the log alone: any two interval
/// pairs that are exact for the same log are equal. Recompilation of an
/// equal log therefore yields equal intervals.
pub proof fn lemma_liveness_unique(
    log: Seq<OpView>,
    fu1: Seq<usize>,
    lu1: Seq<usize>,
    fu2: Seq<usize>,
    lu2: Seq<usize>,
)
    requires
        liveness_exact(log, fu1, lu1),
        liveness_exact(log, fu2, lu2),
    ensures
        fu1 == fu2,
        lu1 == lu2,
{
    let n = log.len() as int;
    assert forall|r: int| 0 <= r < n implies fu1[r] == fu2[r] && lu1[r] == lu2[r] by {
        if fu1[r] == n {
            // No instruction reads `r`: any read would force a smaller
            // first use. Both pairs then take their defaults.
            assert(fu2[r] == n || reads(log[fu2[r] as int], r));
            assert(fu2[r] == n);
            assert(lu1[r] == 0 || reads(log[lu1[r] as int], r));
            assert(lu1[r] == 0);
            assert(lu2[r] == 0 || reads(log[lu2[r] as int], r));
            assert(lu2[r] == 0);
        } else {
            // `r` is read at both recorded first uses, so each bounds the
            // other from below; likewise for the last uses.
            assert(reads(log[fu1[r] as int], r));
            assert(fu2[r] <= fu1[r] && lu2[r] >= fu1[r]);
            assert(fu2[r] < n && reads(log[fu2[r] as int], r));
            assert(fu1[r] <= fu2[r]);
            assert(lu1[r] >= fu1[r]);
            if lu1[r] == 0 {
                assert(reads(log[0], r));
                assert(lu2[r] == 0 || reads(log[lu2[r] as int], r));
                if lu2[r] != 0 {
                    assert(lu1[r] >= lu2[r]);
                }
            } else {
                assert(reads(log[lu1[r] as int], r));
                assert(lu2[r] >= lu1[r]);
                assert(lu2[r] != 0 ==> reads(log[lu2[r] as int], r) && lu1[r] >= lu2[r]);
                assert(lu2[r] == 0 ==> lu1[r] <= 0);
            }
        }
    }
    assert(fu1 =~= fu2);
    assert(lu1 =~= lu2);
}

/// The intended per-instruction translation of log index `i`, with each
/// register replaced by its assigned texture id.
pub open spec fn translate_op(log: Seq<OpView>, reg_tex: Seq<usize>, i: int) -> HighView {
    match log[i] {
        OpView::Input { desc } => HighView::Input { tex: reg_tex[i] as int, desc },
        OpView::Output { src } => HighView::Output { tex: reg_tex[src] as int },
        OpView::Construct { data, .. } => HighView::Construct { dst: reg_tex[i] as int, data },
        OpView::Unary { src, op, .. } => HighView::Unary {
            src: reg_tex[src] as int,
            dst: reg_tex[i] as int,
            op,
        },
        OpView::Binary { lhs, rhs, op, .. } => HighView::Binary {
            lhs: reg_tex[lhs] as int,
            rhs: reg_tex[rhs] as int,
            dst: reg_tex[i] as int,
            op,
        },
    }
}

/// Whether a lowered instruction is one of the two control instructions
/// that the compiler inserts to bracket resource lifetimes.
pub open spec fn is_control(h: HighView) -> bool {
    h is Allocate || h is Discard
}

/// Whether a lowered instruction mentions texture id `t`, in any role.
pub open spec fn mentions(h: HighView, t: int) -> bool {
    match h {
        HighView::Input { tex, .. } => tex == t,
        HighView::Output { tex } => tex == t,
        HighView::Allocate { tex } => tex == t,
        HighView::Discard { tex } => tex == t,
        HighView::Construct { dst, .. } => dst == t,
        HighView::Unary { src, dst, .. } => src == t || dst == t,
        HighView::Binary { lhs, rhs, dst, .. } => lhs == t || rhs == t || dst == t,
    }
}

/// Every texture id a lowered sequence mentions lies below the program's
/// texture count.
pub open spec fn textures_in_range(ops: Seq<HighView>, num: int) -> bool {
    forall|k: int, t: int| 0 <= k < ops.len() && #[trigger] mentions(ops[k], t) ==> 0 <= t < num
}

/// The spec-level values of a sequence of lowered instructions.
pub open spec fn views_of(ops: Seq<High>) -> Seq<HighView> {
    ops.map_values(|h: High| h@)
}

/// The lowered sequence with the compiler's control instructions erased:
/// what remains is one instruction per log entry.
pub open spec fn payload(ops: Seq<High>) -> Seq<HighView> {
    views_of(ops).filter(|h: HighView| !is_control(h))
}

/// The per-instruction translation of a whole log under a register-to-
/// texture assignment.
pub open spec fn expected_lowering(log: Seq<OpView>, reg_tex: Seq<usize>) -> Seq<HighView> {
    Seq::new(log.len(), |k: int| translate_op(log, reg_tex, k))
}

/// Filtering a sequence extended by one element keeps the old result and
/// appends the element exactly when it satisfies the predicate.
pub proof fn lemma_filter_push<A>(s: Seq<A>, pred: spec_fn(A) -> bool, x: A)
    ensures
        s.push(x).filter(pred) == if pred(x) {
            s.filter(pred).push(x)
        } else {
            s.filter(pred)
        },
{
    reveal(Seq::filter);
    assert(s.push(x).drop_last() =~= s);
    assert(s.push(x).last() == x);
}

/// Appending one lowered instruction extends the payload exactly when the
/// instruction is not a control instruction.
pub proof fn lemma_payload_push(ops: Seq<High>, h: High)
    ensures
        payload(ops.push(h)) == if is_control(h@) {
            payload(ops)
        } else {
            payload(ops).push(h@)
        },
{
    assert(views_of(ops.push(h)) =~= views_of(ops).push(h@));
    lemma_filter_push(views_of(ops), |x: HighView| !is_control(x), h@);
}

/// Whether the lowered sequence holds an `Allocate` of texture `t`.
pub open spec fn alloc_in(ops: Seq<HighView>, t: int) -> bool {
    exists|a: int| 0 <= a < ops.len() && #[trigger] ops[a] == (HighView::Allocate { tex: t })
}

/// Every mention of a texture is preceded by its `Allocate`: the executor
/// never touches a resource it has not been told to allocate.
pub open spec fn allocate_before_use(ops: Seq<HighView>) -> bool {
    forall|p: int, t: int|
        0 <= p < ops.len() && #[trigger] mentions(ops[p], t) ==> exists|a: int|
            0 <= a <= p && #[trigger] ops[a] == (HighView::Allocate { tex: t })
}

/// Appending one lowered instruction whose mentioned textures are all
/// already allocated preserves the allocation discipline, and keeps every
/// previously present `Allocate` present.
pub proof fn lemma_alloc_push(ops: Seq<High>, h: High)
    requires
        allocate_before_use(views_of(ops)),
        forall|t: int| #[trigger] mentions(h@, t) ==> alloc_in(views_of(ops), t) || h@
            == (HighView::Allocate { tex: t }),
    ensures
        allocate_before_use(views_of(ops.push(h))),
        forall|t: int| alloc_in(views_of(ops), t) ==> #[trigger] alloc_in(views_of(ops.push(h)), t),
{
    assert(views_of(ops.push(h)) =~= views_of(ops).push(h@));
    let v0 = views_of(ops);
    let vs = views_of(ops.push(h));
    assert forall|t: int| alloc_in(v0, t) implies #[trigger] alloc_in(vs, t) by {
        let a = choose|a: int| 0 <= a < v0.len() && #[trigger] v0[a] == (HighView::Allocate {
            tex: t,
        });
        assert(vs[a] == v0[a]);
    }
    assert forall|p: int, t: int|
        0 <= p < vs.len() && #[trigger] mentions(vs[p], t) implies exists|a: int|
        0 <= a <= p && #[trigger] vs[a] == (HighView::Allocate { tex: t }) by {
        if p < v0.len() {
            assert(vs[p] == v0[p]);
            let a = choose|a: int| 0 <= a <= p && #[trigger] v0[a] == (HighView::Allocate {
                tex: t,
            });
            assert(vs[a] == v0[a]);
        } else {
            assert(vs[p] == h@);
            if alloc_in(v0, t) {
                let a = choose|a: int|
                    0 <= a < v0.len() && #[trigger] v0[a] == (HighView::Allocate { tex: t });
                assert(vs[a] == v0[a]);
            } else {
                assert(vs[p] == (HighView::Allocate { tex: t }));
            }
        }
    }
}

/// No texture is allocated twice: distinct `Allocate` instructions name
/// distinct textures.
pub open spec fn single_allocates(ops: Seq<HighView>) -> bool {
    forall|a1: int, a2: int|
        #![trigger ops[a1], ops[a2]]
        0 <= a1 < a2 < ops.len() && ops[a1] is Allocate ==> ops[a2] != ops[a1]
}

/// Every texture below the program's texture count is allocated somewhere.
pub open spec fn allocates_complete(ops: Seq<HighView>, num: int) -> bool {
    forall|t: int| 0 <= t < num ==> #[trigger] alloc_in(ops, t)
}

/// Appending one lowered instruction that is not an `Allocate`, or is an
/// `Allocate` of a texture no earlier `Allocate` names, keeps allocations
/// single.
pub proof fn lemma_single_alloc_push(ops: Seq<High>, h: High)
    requires
        single_allocates(views_of(ops)),
        h@ is Allocate ==> forall|a: int|
            0 <= a < views_of(ops).len() ==> (#[trigger] views_of(ops)[a]) != h@,
    ensures
        single_allocates(views_of(ops.push(h))),
{
    assert(views_of(ops.push(h)) =~= views_of(ops).push(h@));
    let v0 = views_of(ops);
    let vs = views_of(ops.push(h));
    assert forall|a1: int, a2: int|
        #![trigger vs[a1], vs[a2]]
        0 <= a1 < a2 < vs.len() && vs[a1] is Allocate implies vs[a2] != vs[a1] by {
        assert(vs[a1] == v0[a1]);
        if a2 < v0.len() {
            assert(vs[a2] == v0[a2]);
        } else {
            assert(vs[a2] == h@);
        }
    }
}

/// Once a texture is discarded, no later instruction mentions it: the
/// executor may release the resource at the `Discard` point for good.
pub open spec fn no_use_after_discard(ops: Seq<HighView>) -> bool {
    forall|p1: int, p2: int, t: int|
        #![trigger ops[p1], mentions(ops[p2], t)]
        0 <= p1 < p2 < ops.len() && ops[p1] == (HighView::Discard { tex: t }) ==> !mentions(
            ops[p2],
            t,
        )
}

/// Appending one lowered instruction that mentions no already-discarded
/// texture preserves the discard discipline.
pub proof fn lemma_discard_push(ops: Seq<High>, h: High)
    requires
        no_use_after_discard(views_of(ops)),
        forall|p: int, t: int|
            #![trigger views_of(ops)[p], mentions(h@, t)]
            0 <= p < views_of(ops).len() && views_of(ops)[p] == (HighView::Discard { tex: t })
                ==> !mentions(h@, t),
    ensures
        no_use_after_discard(views_of(ops.push(h))),
{
    assert(views_of(ops.push(h)) =~= views_of(ops).push(h@));
    let v0 = views_of(ops);
    let vs = views_of(ops.push(h));
    assert forall|p1: int, p2: int, t: int|
        #![trigger vs[p1], mentions(vs[p2], t)]
        0 <= p1 < p2 < vs.len() && vs[p1] == (HighView::Discard { tex: t }) implies !mentions(
        vs[p2],
        t,
    ) by {
        assert(vs[p1] == v0[p1]);
        if p2 < v0.len() {
            assert(vs[p2] == v0[p2]);
        } else {
            assert(vs[p2] == h@);
        }
    }
}

/// Appending one lowered instruction whose mentioned textures are all in
/// range keeps the whole sequence's textures in range.
pub proof fn lemma_range_push(ops: Seq<High>, h: High, num: int)
    requires
        textures_in_range(views_of(ops), num),
        forall|t: int| #[trigger] mentions(h@, t) ==> 0 <= t < num,
    ensures
        textures_in_range(views_of(ops.push(h)), num),
{
    assert(views_of(ops.push(h)) =~= views_of(ops).push(h@));
    let vs = views_of(ops.push(h));
    assert forall|k: int, t: int|
        0 <= k < vs.len() && #[trigger] mentions(vs[k], t) implies 0 <= t < num by {
        if k < views_of(ops).len() {
            assert(vs[k] == views_of(ops)[k]);
        } else {
            assert(vs[k] == h@);
        }
    }
}

/// Safety of resource reuse: whenever two distinct producing registers are
/// assigned the same texture id, the earlier one's liveness interval has
/// ended before the later one is defined: the earlier register is either
/// never read, or its last use precedes the later register's definition.
pub open spec fn reuse_safe(
    log: Seq<OpView>,
    fu: Seq<usize>,
    lu: Seq<usize>,
    reg_tex: Seq<usize>,
) -> bool {
    forall|i: int, j: int|
        0 <= i < j < log.len() && produces(log[i]) && produces(log[j]) && #[trigger] reg_tex[i]
            == #[trigger] reg_tex[j] ==> (fu[i] == log.len() || lu[i] < j)
}

/// Layout compatibility of resource reuse: registers sharing a texture id
/// share their full descriptor.
pub open spec fn reuse_compatible(log: Seq<OpView>, reg_tex: Seq<usize>) -> bool {
    forall|i: int, j: int|
        0 <= i < log.len() && 0 <= j < log.len() && produces(log[i]) && produces(log[j])
            && #[trigger] reg_tex[i] == #[trigger] reg_tex[j] ==> crate::command::source_desc(
            log,
            i,
        ) == crate::command::source_desc(log, j)
}

} // verus!
