//! The resource pool: holds a number of image buffers, their descriptors
//! and meta data, across heterogeneous backing stores.
//!
//! Entries are kept in an arena of slots, each tagged with a generation
//! counter; a key embeds the slot index and the generation. Lookups compare
//! generations and treat a mismatch as "entry gone". Keys do not survive
//! removal of their entry.

use crate::buffer::{dynamic_image_bytes, image_bytes_of, srgb_import, BufferLayout, Color, Descriptor, ImageBuffer, Texel};
use crate::program::Capabilities;
use vstd::prelude::*;

verus! {

use vstd::pervasive::unreached;

/// The raw form of an arena key: a slot index and the generation the slot
/// had when the entry was created.
#[derive(Clone, Copy, Debug, PartialEq, Eq, Hash, Structural)]
pub(crate) struct RawKey {
    pub(crate) idx: usize,
    pub(crate) gen: u64,
}

/// One slot of the arena. The generation starts at 1 and grows each time
/// the slot is re-occupied, so a key minted for an earlier occupant never
/// matches again.
pub(crate) struct Slot<T> {
    pub(crate) gen: u64,
    pub(crate) value: Option<T>,
}

/// An arena of generation-tagged slots with slot reuse through a free
/// list.
pub(crate) struct Arena<T> {
    pub(crate) slots: Vec<Slot<T>>,
    pub(crate) free: Vec<usize>,
}

impl<T> Arena<T> {
    /// The structural invariant: generations start at 1, and the free list
    /// names distinct vacant slots that can still bump their generation.
    pub(crate) open spec fn wf(self) -> bool {
        &&& forall|i: int| 0 <= i < self.slots@.len() ==> (#[trigger] self.slots@[i].gen) >= 1
        &&& forall|p: int|
            0 <= p < self.free@.len() ==> (#[trigger] self.free@[p]) < self.slots@.len()
        &&& forall|p: int|
            0 <= p < self.free@.len() ==> self.slots@[(#[trigger] self.free@[p]) as int].value
                is None
        &&& forall|p: int|
            0 <= p < self.free@.len() ==> self.slots@[(#[trigger] self.free@[p]) as int].gen
                < u64::MAX
        &&& forall|p1: int, p2: int|
            0 <= p1 < p2 < self.free@.len() ==> #[trigger] self.free@[p1] != #[trigger] self.free@[p2]
    }

    /// Whether `k` names a live entry.
    pub(crate) open spec fn valid(self, k: RawKey) -> bool {
        &&& (k.idx as int) < self.slots@.len()
        &&& self.slots@[k.idx as int].gen == k.gen
        &&& self.slots@[k.idx as int].value is Some
    }

    /// Whether `k`'s slot is held empty for `k`, awaiting a put-back: the
    /// slot matches the key's generation, holds no value, and is not up
    /// for reuse.
    pub(crate) open spec fn reserved(self, k: RawKey) -> bool {
        &&& (k.idx as int) < self.slots@.len()
        &&& self.slots@[k.idx as int].gen == k.gen
        &&& self.slots@[k.idx as int].value is None
        &&& forall|p: int| 0 <= p < self.free@.len() ==> #[trigger] self.free@[p] != k.idx
    }

    /// The live entries, as a map from key to value.
    pub(crate) open spec fn contents(self) -> Map<RawKey, T> {
        Map::new(|k: RawKey| self.valid(k), |k: RawKey| self.slots@[k.idx as int].value->0)
    }

    /// An empty arena.
    pub(crate) fn new() -> (r: Arena<T>)
        ensures
            r.wf(),
            r.contents() == Map::<RawKey, T>::empty(),
    {
        let r = Arena { slots: Vec::new(), free: Vec::new() };
        proof {
            assert(r.contents() =~= Map::<RawKey, T>::empty());
        }
        r
    }

    /// Insert a value, returning a fresh key that names it. The key never
    /// named a live entry before.
    pub(crate) fn insert(&mut self, value: T) -> (k: RawKey)
        requires
            old(self).wf(),
        ensures
            final(self).wf(),
            final(self).valid(k),
            !old(self).valid(k),
            !old(self).contents().contains_key(k),
            final(self).contents() == old(self).contents().insert(k, value),
            k.gen >= 1,
    {
        match self.free.pop() {
            Some(idx) => {
                let gen = self.slots[idx].gen + 1;
                self.slots[idx] = Slot { gen, value: Some(value) };
                let k = RawKey { idx, gen };
                proof {
                    assert forall|k2: RawKey| #[trigger] (*self).valid(k2) implies (k2 == k
                        || old(self).valid(k2)) by {
                        if k2.idx != k.idx {
                            assert((*self).slots@[k2.idx as int] == old(self).slots@[k2.idx as int]);
                        }
                    }
                    assert((*self).contents() =~= old(self).contents().insert(k, value));
                }
                k
            },
            None => {
                let idx = self.slots.len();
                self.slots.push(Slot { gen: 1, value: Some(value) });
                let k = RawKey { idx, gen: 1 };
                proof {
                    assert forall|k2: RawKey| #[trigger] (*self).valid(k2) implies (k2 == k
                        || old(self).valid(k2)) by {
                        if k2.idx != k.idx {
                            assert((*self).slots@[k2.idx as int] == old(self).slots@[k2.idx as int]);
                        }
                    }
                    assert((*self).contents() =~= old(self).contents().insert(k, value));
                }
                k
            },
        }
    }

    /// Look up the entry named by `k`, if it is live.
    pub(crate) fn get(&self, k: RawKey) -> (r: Option<&T>)
        requires
            self.wf(),
        ensures
            match r {
                Some(v) => self.valid(k) && *v == self.contents()[k],
                None => !self.valid(k),
            },
    {
        if k.idx >= self.slots.len() {
            return None;
        }
        let slot = &self.slots[k.idx];
        if slot.gen != k.gen {
            return None;
        }
        match &slot.value {
            Some(v) => Some(v),
            None => None,
        }
    }

    /// Take the entry named by `k` out of its slot, leaving the slot
    /// reserved for a later put-back under the same key.
    pub(crate) fn take(&mut self, k: RawKey) -> (r: Option<T>)
        requires
            old(self).wf(),
        ensures
            final(self).wf(),
            match r {
                Some(v) => {
                    &&& old(self).valid(k)
                    &&& v == old(self).contents()[k]
                    &&& final(self).reserved(k)
                    &&& final(self).contents() == old(self).contents().remove(k)
                },
                None => {
                    &&& !old(self).valid(k)
                    &&& final(self).slots@ == old(self).slots@
                    &&& final(self).free@ == old(self).free@
                    &&& final(self).contents() == old(self).contents()
                },
            },
    {
        if k.idx >= self.slots.len() {
            proof {
                assert((*self).contents() =~= old(self).contents());
            }
            return None;
        }
        if self.slots[k.idx].gen != k.gen {
            proof {
                assert((*self).contents() =~= old(self).contents());
            }
            return None;
        }
        let slot = &mut self.slots[k.idx];
        let mut value: Option<T> = None;
        core::mem::swap(&mut slot.value, &mut value);
        proof {
            assert((*self).slots@ == old(self).slots@.update(
                k.idx as int,
                Slot { gen: k.gen, value: None },
            ));
        }
        match value {
            Some(v) => {
                proof {
                    assert(old(self).valid(k));
                    assert forall|p: int|
                        0 <= p < (*self).free@.len() implies #[trigger] (*self).free@[p]
                        != k.idx by {
                        if (*self).free@[p] == k.idx {
                            assert(old(self).slots@[k.idx as int].value is None);
                        }
                    }
                    assert forall|k2: RawKey| #[trigger] (*self).valid(k2) implies old(self).valid(
                        k2,
                    ) && k2 != k by {
                        if k2.idx != k.idx {
                            assert((*self).slots@[k2.idx as int] == old(self).slots@[k2.idx as int]);
                        }
                    }
                    assert(v == old(self).contents()[k]);
                    assert((*self).reserved(k));
                    assert((*self).contents() =~= old(self).contents().remove(k));
                    assert((*self).wf());
                }
                Some(v)
            },
            None => {
                proof {
                    assert((*self).slots@ =~= old(self).slots@);
                    assert((*self).contents() =~= old(self).contents());
                }
                None
            },
        }
    }

    /// Put a value back into the slot reserved for `k`.
    pub(crate) fn put(&mut self, k: RawKey, value: T)
        requires
            old(self).wf(),
            old(self).reserved(k),
            k.gen >= 1,
        ensures
            final(self).wf(),
            final(self).valid(k),
            final(self).contents() == old(self).contents().insert(k, value),
    {
        self.slots[k.idx] = Slot { gen: k.gen, value: Some(value) };
        proof {
            assert forall|p: int|
                0 <= p < (*self).free@.len() implies (*self).slots@[((#[trigger] (*self).free@[p])
                as int)].value is None by {
                if (*self).free@[p] == k.idx {
                    assert(old(self).slots@[k.idx as int].value is None);
                    assert(old(self).valid(RawKey { idx: k.idx, gen: k.gen }) == false);
                }
            }
            assert forall|k2: RawKey| #[trigger] (*self).valid(k2) implies (k2 == k || old(
                self,
            ).valid(k2)) by {
                if k2.idx != k.idx {
                    assert((*self).slots@[k2.idx as int] == old(self).slots@[k2.idx as int]);
                }
            }
            assert((*self).contents() =~= old(self).contents().insert(k, value));
        }
    }

    /// Remove the entry named by `k`, returning it. Its slot may be reused
    /// later, under a strictly larger generation; the key never names a
    /// live entry again.
    pub(crate) fn remove(&mut self, k: RawKey) -> (r: Option<T>)
        requires
            old(self).wf(),
        ensures
            final(self).wf(),
            !final(self).valid(k),
            match r {
                Some(v) => {
                    &&& old(self).valid(k)
                    &&& v == old(self).contents()[k]
                    &&& final(self).contents() == old(self).contents().remove(k)
                },
                None => {
                    &&& !old(self).valid(k)
                    &&& final(self).slots@ == old(self).slots@
                    &&& final(self).free@ == old(self).free@
                    &&& final(self).contents() == old(self).contents()
                },
            },
    {
        if k.idx >= self.slots.len() {
            proof {
                assert((*self).contents() =~= old(self).contents());
            }
            return None;
        }
        if self.slots[k.idx].gen != k.gen {
            proof {
                assert((*self).contents() =~= old(self).contents());
            }
            return None;
        }
        let slot = &mut self.slots[k.idx];
        let mut value: Option<T> = None;
        core::mem::swap(&mut slot.value, &mut value);
        proof {
            assert((*self).slots@ == old(self).slots@.update(
                k.idx as int,
                Slot { gen: k.gen, value: None },
            ));
        }
        match value {
            Some(v) => {
                // The slot can be reused unless its generation would wrap.
                if self.slots[k.idx].gen < u64::MAX {
                    proof {
                        assert forall|p: int|
                            0 <= p < (*self).free@.len() implies #[trigger] (*self).free@[p]
                            != k.idx by {
                            if (*self).free@[p] == k.idx {
                                assert(old(self).slots@[k.idx as int].value is None);
                            }
                        }
                    }
                    self.free.push(k.idx);
                }
                proof {
                    assert forall|k2: RawKey| #[trigger] (*self).valid(k2) implies old(self).valid(
                        k2,
                    ) && k2 != k by {
                        if k2.idx != k.idx {
                            assert((*self).slots@[k2.idx as int] == old(self).slots@[k2.idx as int]);
                        }
                    }
                    assert((*self).contents() =~= old(self).contents().remove(k));
                }
                Some(v)
            },
            None => {
                proof {
                    assert((*self).slots@ =~= old(self).slots@);
                    assert((*self).contents() =~= old(self).contents());
                }
                None
            },
        }
    }

    /// The number of slots ever allocated (live or vacant).
    pub(crate) fn slot_count(&self) -> (r: usize)
        ensures
            r == self.slots@.len(),
    {
        self.slots.len()
    }

    /// The generation of slot `idx`.
    pub(crate) fn gen_at(&self, idx: usize) -> (r: u64)
        requires
            (idx as int) < self.slots@.len(),
        ensures
            r == self.slots@[idx as int].gen,
    {
        self.slots[idx].gen
    }

    /// The live value in slot `idx`, if any.
    pub(crate) fn value_at(&self, idx: usize) -> (r: Option<&T>)
        requires
            (idx as int) < self.slots@.len(),
        ensures
            match r {
                Some(v) => self.slots@[idx as int].value == Some(*v),
                None => self.slots@[idx as int].value is None,
            },
    {
        match &self.slots[idx].value {
            Some(v) => Some(v),
            None => None,
        }
    }
}

/// A stable handle for one image entry of the pool.
///
/// A key embeds a slot index and a generation; it stops naming its entry
/// when the entry is removed. The null key never names a live entry.
#[derive(Clone, Copy, Debug, PartialEq, Eq, Hash, Structural)]
pub struct PoolKey(pub(crate) RawKey);

/// A stable handle for one registered device of the pool.
#[derive(Clone, Copy, Debug, PartialEq, Eq, Hash, Structural)]
pub struct GpuKey(pub(crate) RawKey);

impl PoolKey {
    /// Whether this is the null key, which never names a live entry.
    pub closed spec fn is_null(self) -> bool {
        self.0.gen == 0
    }

    /// Create a new pool key that does not name any image, and never
    /// will.
    pub fn null() -> (r: PoolKey)
        ensures
            r.is_null(),
    {
        PoolKey(RawKey { idx: 0, gen: 0 })
    }
}

/// Meta data of an image entry, distinct from the layout questions.
#[derive(Clone, Copy, Debug, PartialEq, Eq, Structural)]
pub struct ImageMeta {
    /// Do we guarantee consistent content to read? An entry with this set
    /// may be arbitrarily used as a temporary buffer for other operations,
    /// overwriting the contents at will.
    pub no_read: bool,
    /// Should we permit writing to this image? If not then a device can
    /// allocate and cache it differently.
    pub no_write: bool,
}

impl Default for ImageMeta {
    /// Contents are preserved and writable.
    fn default() -> (r: ImageMeta)
        ensures
            r == (ImageMeta { no_read: false, no_write: false }),
    {
        ImageMeta { no_read: false, no_write: false }
    }
}

/// The backing store of one image entry.
///
/// Device-resident data is referenced through a numeric handle that the
/// executor assigns; the pool tracks its layout and owning device but
/// never reads through the handle.
pub enum ImageData {
    /// The data lives in host memory.
    Host(ImageBuffer),
    /// The data lives in a generic buffer on the device named by `gpu`.
    Gpu { buffer: u64, layout: BufferLayout, gpu: GpuKey },
    /// The data lives in a texture on the device named by `gpu`.
    GpuTexture { texture: u64, layout: BufferLayout, gpu: GpuKey },
    /// The image data will be provided by the caller at bind time.
    LateBound(BufferLayout),
}

/// The spec-level value of a backing store, with host contents as a byte
/// sequence.
pub enum ImageDataView {
    Host { layout: BufferLayout, bytes: Seq<u8> },
    Gpu { buffer: u64, layout: BufferLayout, gpu: GpuKey },
    GpuTexture { texture: u64, layout: BufferLayout, gpu: GpuKey },
    LateBound { layout: BufferLayout },
}

impl ImageDataView {
    /// The byte layout this backing store is shaped for.
    pub open spec fn layout(self) -> BufferLayout {
        match self {
            ImageDataView::Host { layout, .. } => layout,
            ImageDataView::Gpu { layout, .. } => layout,
            ImageDataView::GpuTexture { layout, .. } => layout,
            ImageDataView::LateBound { layout } => layout,
        }
    }
}

impl View for ImageData {
    type V = ImageDataView;

    closed spec fn view(&self) -> ImageDataView {
        match self {
            ImageData::Host(buffer) => ImageDataView::Host {
                layout: buffer.spec_layout(),
                bytes: buffer@,
            },
            ImageData::Gpu { buffer, layout, gpu } => ImageDataView::Gpu {
                buffer: *buffer,
                layout: *layout,
                gpu: *gpu,
            },
            ImageData::GpuTexture { texture, layout, gpu } => ImageDataView::GpuTexture {
                texture: *texture,
                layout: *layout,
                gpu: *gpu,
            },
            ImageData::LateBound(layout) => ImageDataView::LateBound { layout: *layout },
        }
    }
}

impl ImageData {
    /// Well-formedness: the layout satisfies its inner invariant, and a
    /// host buffer holds exactly its layout's bytes.
    pub open spec fn wf(self) -> bool {
        match self {
            ImageData::Host(buffer) => buffer.wf(),
            ImageData::Gpu { layout, .. } => layout.wf(),
            ImageData::GpuTexture { layout, .. } => layout.wf(),
            ImageData::LateBound(layout) => layout.wf(),
        }
    }

    /// The layout of this backing store.
    pub fn layout(&self) -> (r: &BufferLayout)
        ensures
            *r == self@.layout(),
    {
        match self {
            ImageData::Host(buffer) => buffer.layout(),
            ImageData::Gpu { layout, .. } => layout,
            ImageData::GpuTexture { layout, .. } => layout,
            ImageData::LateBound(layout) => layout,
        }
    }

    /// View the backing store as bytes. Returns `Some` exactly when the
    /// data is a host allocated buffer.
    pub fn as_bytes(&self) -> (r: Option<&[u8]>)
        ensures
            match r {
                Some(bytes) => self@ matches ImageDataView::Host { bytes: b, .. } && bytes@ == b,
                None => !(self@ is Host),
            },
    {
        match self {
            ImageData::Host(buffer) => Some(buffer.as_bytes()),
            _ => None,
        }
    }

    /// Replace the backing store with a freshly allocated, zero-filled
    /// host buffer of the same layout, returning the previous data.
    pub fn host_allocate(&mut self) -> (r: ImageData)
        requires
            old(self).wf(),
        ensures
            r == *old(self),
            final(self).wf(),
            final(self)@ == (ImageDataView::Host {
                layout: old(self)@.layout(),
                bytes: Seq::new(old(self)@.layout().spec_byte_len() as nat, |i: int| 0u8),
            }),
    {
        let layout = *self.layout();
        let mut data = ImageData::Host(ImageBuffer::with_layout(&layout));
        core::mem::swap(self, &mut data);
        data
    }
}

/// One image entry of the pool: its meta data, its backing store, and the
/// interpretation of its texels.
pub struct PoolEntry {
    pub meta: ImageMeta,
    pub data: ImageData,
    pub texel: Texel,
}

/// The spec-level value of one image entry.
pub struct PoolEntryView {
    pub meta: ImageMeta,
    pub data: ImageDataView,
    pub texel: Texel,
}

impl View for PoolEntry {
    type V = PoolEntryView;

    open spec fn view(&self) -> PoolEntryView {
        PoolEntryView { meta: self.meta, data: self.data@, texel: self.texel }
    }
}

impl PoolEntryView {
    /// The full descriptor of this entry.
    pub open spec fn descriptor(self) -> Descriptor {
        Descriptor { layout: self.data.layout(), texel: self.texel }
    }
}

impl PoolEntry {
    /// Well-formedness of an entry: its backing store is well-formed.
    pub open spec fn wf(self) -> bool {
        self.data.wf()
    }
}

/// Holds a number of image buffers, their descriptors and meta data, and
/// the registry of devices that entries may reside on.
pub struct Pool {
    items: Arena<PoolEntry>,
    devices: Arena<u64>,
}

/// A read-only view on one image entry inside the pool.
pub struct PoolImage<'pool> {
    key: PoolKey,
    image: &'pool PoolEntry,
}

/// The registered device handles that remain, in slot order.
pub(crate) open spec fn device_seq(slots: Seq<Slot<u64>>) -> Seq<u64>
    decreases slots.len(),
{
    if slots.len() == 0 {
        Seq::empty()
    } else {
        device_seq(slots.drop_last()) + (match slots.last().value {
            Some(h) => seq![h],
            None => Seq::empty(),
        })
    }
}

impl Pool {
    /// The registered device handles in slot order, as a sequence.
    pub closed spec fn device_handle_seq(self) -> Seq<u64> {
        device_seq(self.devices.slots@)
    }

    /// The live image entries, keyed by their pool keys.
    pub closed spec fn images(self) -> Map<PoolKey, PoolEntryView> {
        Map::new(
            |k: PoolKey| self.items.contents().contains_key(k.0),
            |k: PoolKey| self.items.contents()[k.0]@,
        )
    }

    /// The live registered devices, keyed by their device keys.
    pub closed spec fn devices(self) -> Map<GpuKey, u64> {
        Map::new(
            |k: GpuKey| self.devices.contents().contains_key(k.0),
            |k: GpuKey| self.devices.contents()[k.0],
        )
    }

    /// The pool invariant: both arenas are well-formed and every entry's
    /// backing store is.
    pub closed spec fn wf(self) -> bool {
        &&& self.items.wf()
        &&& self.devices.wf()
        &&& forall|k: RawKey|
            #[trigger] self.items.contents().contains_key(k) ==> self.items.contents()[k].wf()
    }

    /// Create an empty pool.
    pub fn new() -> (r: Pool)
        ensures
            r.wf(),
            r.images() == Map::<PoolKey, PoolEntryView>::empty(),
            r.devices() == Map::<GpuKey, u64>::empty(),
    {
        let r = Pool { items: Arena::new(), devices: Arena::new() };
        proof {
            assert(r.images() =~= Map::<PoolKey, PoolEntryView>::empty());
            assert(r.devices() =~= Map::<GpuKey, u64>::empty());
        }
        r
    }

    /// Create a new entry from its parts, under a fresh key.
    fn new_with_data(&mut self, data: ImageData, texel: Texel) -> (k: PoolKey)
        requires
            old(self).wf(),
            data.wf(),
        ensures
            final(self).wf(),
            !old(self).images().contains_key(k),
            !k.is_null(),
            final(self).images() == old(self).images().insert(
                k,
                PoolEntryView {
                    meta: ImageMeta { no_read: false, no_write: false },
                    data: data@,
                    texel,
                },
            ),
            final(self).devices() == old(self).devices(),
    {
        let ghost dv = data@;
        let image = PoolEntry { meta: ImageMeta::default(), data, texel };
        let raw = self.items.insert(image);
        let k = PoolKey(raw);
        proof {
            assert((*self).images() =~= old(self).images().insert(
                k,
                PoolEntryView { meta: ImageMeta { no_read: false, no_write: false }, data: dv, texel },
            ));
            assert((*self).devices() =~= old(self).devices());
        }
        k
    }

    /// Gift the pool an image allocated on the host. You must describe the
    /// texels of the image buffer.
    pub fn insert(&mut self, image: ImageBuffer, texel: Texel) -> (k: PoolKey)
        requires
            old(self).wf(),
            image.wf(),
        ensures
            final(self).wf(),
            !old(self).images().contains_key(k),
            !k.is_null(),
            final(self).images() == old(self).images().insert(
                k,
                PoolEntryView {
                    meta: ImageMeta { no_read: false, no_write: false },
                    data: ImageDataView::Host { layout: image.spec_layout(), bytes: image@ },
                    texel,
                },
            ),
            final(self).devices() == old(self).devices(),
    {
        self.new_with_data(ImageData::Host(image), texel)
    }

    /// Create the descriptor for an image buffer that is provided by the
    /// caller: a late-bound placeholder with a declared layout and no data
    /// yet.
    ///
    /// The descriptor must be consistent; an inconsistent descriptor is a
    /// programmer error, which callers outside the proof boundary check
    /// before the call and treat as fatal.
    pub fn declare(&mut self, desc: Descriptor) -> (k: PoolKey)
        requires
            old(self).wf(),
            desc.spec_is_consistent(),
            desc.layout.wf(),
        ensures
            final(self).wf(),
            !old(self).images().contains_key(k),
            !k.is_null(),
            final(self).images() == old(self).images().insert(
                k,
                PoolEntryView {
                    meta: ImageMeta { no_read: false, no_write: false },
                    data: ImageDataView::LateBound { layout: desc.layout },
                    texel: desc.texel,
                },
            ),
            final(self).devices() == old(self).devices(),
    {
        self.new_with_data(ImageData::LateBound(desc.layout), desc.texel)
    }

    /// Insert a decoded sRGB image into the pool.
    ///
    /// The image's sample bytes move into a host-backed entry described by
    /// its pixel format's sample encoding under the sRGB color tag. This
    /// cannot be performed without an allocation, since the pool uses its
    /// own allocation tactic. Returns `None` when the pixel format is
    /// unknown, when the extent does not fit the machine limits, or when
    /// the image's container does not hold exactly its layout's bytes.
    pub fn insert_srgb(&mut self, image: &image::DynamicImage) -> (r: Option<PoolKey>)
        requires
            old(self).wf(),
        ensures
            final(self).wf(),
            final(self).devices() == old(self).devices(),
            match r {
                Some(k) => {
                    &&& srgb_import(*image) matches Some(desc)
                    &&& image_bytes_of(*image).len() == desc.layout.spec_byte_len()
                    &&& !old(self).images().contains_key(k)
                    &&& !k.is_null()
                    &&& final(self).images() == old(self).images().insert(
                        k,
                        PoolEntryView {
                            meta: ImageMeta { no_read: false, no_write: false },
                            data: ImageDataView::Host {
                                layout: desc.layout,
                                bytes: image_bytes_of(*image),
                            },
                            texel: desc.texel,
                        },
                    )
                },
                None => {
                    &&& (srgb_import(*image) is None || image_bytes_of(*image).len() != srgb_import(
                        *image,
                    )->Some_0.layout.spec_byte_len())
                    &&& final(self).images() == old(self).images()
                },
            },
    {
        let desc = match Descriptor::with_srgb_image(image) {
            Some(desc) => desc,
            None => { return None; },
        };
        let bytes = dynamic_image_bytes(image);
        if bytes.len() != desc.layout.byte_len() {
            return None;
        }
        let buffer = ImageBuffer::with_contents(&desc.layout, bytes.as_slice());
        Some(self.insert(buffer, desc.texel))
    }

    /// Create a new host-backed entry based on an existing one: the same
    /// layout and texel, fresh default meta data, and a copy of the bytes
    /// if the source is host-accessible, all zeroes otherwise.
    pub fn allocate_like(&mut self, key: PoolKey) -> (k: PoolKey)
        requires
            old(self).wf(),
            old(self).images().contains_key(key),
        ensures
            final(self).wf(),
            !old(self).images().contains_key(k),
            !k.is_null(),
            final(self).images() == old(self).images().insert(
                k,
                PoolEntryView {
                    meta: ImageMeta { no_read: false, no_write: false },
                    data: ImageDataView::Host {
                        layout: old(self).images()[key].data.layout(),
                        bytes: match old(self).images()[key].data {
                            ImageDataView::Host { bytes, .. } => bytes,
                            _ => Seq::new(
                                old(self).images()[key].data.layout().spec_byte_len() as nat,
                                |i: int| 0u8,
                            ),
                        },
                    },
                    texel: old(self).images()[key].texel,
                },
            ),
            final(self).devices() == old(self).devices(),
    {
        let (buffer, texel) = match self.items.get(key.0) {
            Some(image) => {
                let texel = image.texel;
                let buffer = match &image.data {
                    ImageData::Host(buffer) => buffer.clone(),
                    data => ImageBuffer::with_layout(data.layout()),
                };
                (buffer, texel)
            },
            None => {
                proof {
                    assert(false);
                }
                unreached()
            },
        };
        self.new_with_data(ImageData::Host(buffer), texel)
    }

    /// Get a read-only handle of an image in the pool, if the key names a
    /// live entry.
    pub fn entry(&self, key: PoolKey) -> (r: Option<PoolImage<'_>>)
        requires
            self.wf(),
        ensures
            match r {
                Some(handle) => {
                    &&& self.images().contains_key(key)
                    &&& handle.spec_key() == key
                    &&& handle.spec_image()@ == self.images()[key]
                },
                None => !self.images().contains_key(key),
            },
    {
        match self.items.get(key.0) {
            Some(image) => Some(PoolImage { key, image }),
            None => None,
        }
    }

    /// Configure the color of the entry named by `key`, not changing any
    /// data.
    ///
    /// The new color tag must be consistent with the entry's existing
    /// sample parts; a violation is a programmer error, which callers
    /// outside the proof boundary check before the call and treat as
    /// fatal.
    pub fn set_color(&mut self, key: PoolKey, color: Color)
        requires
            old(self).wf(),
            old(self).images().contains_key(key),
            color.spec_is_consistent(old(self).images()[key].texel.samples.parts),
        ensures
            final(self).wf(),
            final(self).devices() == old(self).devices(),
            final(self).images() == old(self).images().insert(
                key,
                PoolEntryView {
                    meta: old(self).images()[key].meta,
                    data: old(self).images()[key].data,
                    texel: Texel {
                        block: old(self).images()[key].texel.block,
                        samples: old(self).images()[key].texel.samples,
                        color,
                    },
                },
            ),
    {
        match self.items.take(key.0) {
            Some(mut image) => {
                image.texel.color = color;
                self.items.put(key.0, image);
                proof {
                    assert((*self).images() =~= old(self).images().insert(
                        key,
                        PoolEntryView {
                            meta: old(self).images()[key].meta,
                            data: old(self).images()[key].data,
                            texel: Texel {
                                block: old(self).images()[key].texel.block,
                                samples: old(self).images()[key].texel.samples,
                                color,
                            },
                        },
                    ));
                    assert((*self).devices() =~= old(self).devices());
                }
            },
            None => {
                proof {
                    assert(false);
                }
            },
        }
    }

    /// Set whether the entry's contents are disposable: an entry with
    /// no-read set may be used as a scratch buffer, and `trade` will hand
    /// its storage away rather than copy it.
    pub fn set_no_read(&mut self, key: PoolKey, no_read: bool)
        requires
            old(self).wf(),
            old(self).images().contains_key(key),
        ensures
            final(self).wf(),
            final(self).devices() == old(self).devices(),
            final(self).images() == old(self).images().insert(
                key,
                PoolEntryView {
                    meta: ImageMeta { no_read, no_write: old(self).images()[key].meta.no_write },
                    data: old(self).images()[key].data,
                    texel: old(self).images()[key].texel,
                },
            ),
    {
        match self.items.take(key.0) {
            Some(mut image) => {
                image.meta.no_read = no_read;
                self.items.put(key.0, image);
                proof {
                    assert((*self).images() =~= old(self).images().insert(
                        key,
                        PoolEntryView {
                            meta: ImageMeta {
                                no_read,
                                no_write: old(self).images()[key].meta.no_write,
                            },
                            data: old(self).images()[key].data,
                            texel: old(self).images()[key].texel,
                        },
                    ));
                    assert((*self).devices() =~= old(self).devices());
                }
            },
            None => {
                proof {
                    assert(false);
                }
            },
        }
    }

    /// Replace the entry's data with a freshly allocated, zero-filled host
    /// buffer of the same layout, returning the previous backing store.
    pub fn host_allocate(&mut self, key: PoolKey) -> (r: ImageData)
        requires
            old(self).wf(),
            old(self).images().contains_key(key),
        ensures
            final(self).wf(),
            final(self).devices() == old(self).devices(),
            r@ == old(self).images()[key].data,
            r.wf(),
            final(self).images() == old(self).images().insert(
                key,
                PoolEntryView {
                    meta: old(self).images()[key].meta,
                    data: ImageDataView::Host {
                        layout: old(self).images()[key].data.layout(),
                        bytes: Seq::new(
                            old(self).images()[key].data.layout().spec_byte_len() as nat,
                            |i: int| 0u8,
                        ),
                    },
                    texel: old(self).images()[key].texel,
                },
            ),
    {
        match self.items.take(key.0) {
            Some(mut image) => {
                let previous = image.data.host_allocate();
                self.items.put(key.0, image);
                proof {
                    assert((*self).images() =~= old(self).images().insert(
                        key,
                        PoolEntryView {
                            meta: old(self).images()[key].meta,
                            data: ImageDataView::Host {
                                layout: old(self).images()[key].data.layout(),
                                bytes: Seq::new(
                                    old(self).images()[key].data.layout().spec_byte_len() as nat,
                                    |i: int| 0u8,
                                ),
                            },
                            texel: old(self).images()[key].texel,
                        },
                    ));
                    assert((*self).devices() =~= old(self).devices());
                }
                previous
            },
            None => {
                proof {
                    assert(false);
                }
                unreached()
            },
        }
    }

    /// Unconditionally substitute the entry's backing store with
    /// caller-supplied data of exactly the same layout, returning the
    /// previous backing store.
    ///
    /// A layout mismatch is a programmer error, which callers outside the
    /// proof boundary check before the call and treat as fatal.
    pub fn replace(&mut self, key: PoolKey, data: ImageData) -> (r: ImageData)
        requires
            old(self).wf(),
            old(self).images().contains_key(key),
            data.wf(),
            data@.layout() == old(self).images()[key].data.layout(),
        ensures
            final(self).wf(),
            final(self).devices() == old(self).devices(),
            r@ == old(self).images()[key].data,
            r.wf(),
            final(self).images() == old(self).images().insert(
                key,
                PoolEntryView {
                    meta: old(self).images()[key].meta,
                    data: data@,
                    texel: old(self).images()[key].texel,
                },
            ),
    {
        let ghost dv = data@;
        match self.items.take(key.0) {
            Some(mut image) => {
                let mut data = data;
                core::mem::swap(&mut image.data, &mut data);
                self.items.put(key.0, image);
                proof {
                    assert((*self).images() =~= old(self).images().insert(
                        key,
                        PoolEntryView {
                            meta: old(self).images()[key].meta,
                            data: dv,
                            texel: old(self).images()[key].texel,
                        },
                    ));
                    assert((*self).devices() =~= old(self).devices());
                }
                data
            },
            None => {
                proof {
                    assert(false);
                }
                unreached()
            },
        }
    }

    /// Unconditionally exchange the entry's backing store with the
    /// caller-supplied data of exactly the same layout.
    ///
    /// A layout mismatch is a programmer error, which callers outside the
    /// proof boundary check before the call and treat as fatal.
    pub fn swap(&mut self, key: PoolKey, data: &mut ImageData)
        requires
            old(self).wf(),
            old(self).images().contains_key(key),
            old(data).wf(),
            old(data)@.layout() == old(self).images()[key].data.layout(),
        ensures
            final(self).wf(),
            final(self).devices() == old(self).devices(),
            final(data)@ == old(self).images()[key].data,
            final(data).wf(),
            final(self).images() == old(self).images().insert(
                key,
                PoolEntryView {
                    meta: old(self).images()[key].meta,
                    data: old(data)@,
                    texel: old(self).images()[key].texel,
                },
            ),
    {
        match self.items.take(key.0) {
            Some(mut image) => {
                core::mem::swap(&mut image.data, data);
                self.items.put(key.0, image);
                proof {
                    assert((*self).images() =~= old(self).images().insert(
                        key,
                        PoolEntryView {
                            meta: old(self).images()[key].meta,
                            data: old(data)@,
                            texel: old(self).images()[key].texel,
                        },
                    ));
                    assert((*self).devices() =~= old(self).devices());
                }
            },
            None => {
                proof {
                    assert(false);
                }
            },
        }
    }

    /// The ownership-transfer policy used when binding a register's value
    /// in or out of the pool.
    ///
    /// If the entry's contents are disposable (no-read is set), the two
    /// backing stores are exchanged: a zero-copy transfer. Otherwise, if
    /// the entry's data is host-accessible, a defensive copy of it is
    /// installed in `data`, leaving the entry untouched. If neither holds
    /// (device-resident data that must be preserved), nothing changes and
    /// the trade reports failure rather than silently losing data.
    pub fn trade(&mut self, key: PoolKey, data: &mut ImageData) -> (r: bool)
        requires
            old(self).wf(),
            old(self).images().contains_key(key),
            old(data).wf(),
            old(self).images()[key].meta.no_read ==> old(data)@.layout() == old(
                self,
            ).images()[key].data.layout(),
        ensures
            final(self).wf(),
            final(self).devices() == old(self).devices(),
            final(data).wf(),
            if old(self).images()[key].meta.no_read {
                &&& r == true
                &&& final(data)@ == old(self).images()[key].data
                &&& final(self).images() == old(self).images().insert(
                    key,
                    PoolEntryView {
                        meta: old(self).images()[key].meta,
                        data: old(data)@,
                        texel: old(self).images()[key].texel,
                    },
                )
            } else if old(self).images()[key].data is Host {
                &&& r == true
                &&& final(data)@ == old(self).images()[key].data
                &&& final(self).images() == old(self).images()
            } else {
                &&& r == false
                &&& *final(data) == *old(data)
                &&& final(self).images() == old(self).images()
            },
    {
        let no_read = match self.items.get(key.0) {
            Some(image) => image.meta.no_read,
            None => {
                proof {
                    assert(false);
                }
                unreached()
            },
        };
        if no_read {
            self.swap(key, data);
            true
        } else {
            let copy = match self.items.get(key.0) {
                Some(image) => match &image.data {
                    ImageData::Host(buffer) => Some(buffer.clone()),
                    _ => None,
                },
                None => {
                    proof {
                        assert(false);
                    }
                    unreached()
                },
            };
            match copy {
                Some(buffer) => {
                    *data = ImageData::Host(buffer);
                    true
                },
                None => false,
            }
        }
    }

    /// Overwrite the bytes of a host-backed entry.
    ///
    /// The entry must be host-accessible and `bytes` must hold exactly as
    /// many bytes as the entry does.
    pub fn fill_bytes(&mut self, key: PoolKey, bytes: &[u8])
        requires
            old(self).wf(),
            old(self).images().contains_key(key),
            old(self).images()[key].data matches ImageDataView::Host { bytes: b, .. } && b.len()
                == bytes@.len(),
        ensures
            final(self).wf(),
            final(self).devices() == old(self).devices(),
            final(self).images() == old(self).images().insert(
                key,
                PoolEntryView {
                    meta: old(self).images()[key].meta,
                    data: ImageDataView::Host {
                        layout: old(self).images()[key].data.layout(),
                        bytes: bytes@,
                    },
                    texel: old(self).images()[key].texel,
                },
            ),
    {
        match self.items.take(key.0) {
            Some(mut image) => {
                match &mut image.data {
                    ImageData::Host(buffer) => {
                        buffer.copy_from(bytes);
                    },
                    _ => {
                        proof {
                            assert(false);
                        }
                    },
                }
                self.items.put(key.0, image);
                proof {
                    assert((*self).images() =~= old(self).images().insert(
                        key,
                        PoolEntryView {
                            meta: old(self).images()[key].meta,
                            data: ImageDataView::Host {
                                layout: old(self).images()[key].data.layout(),
                                bytes: bytes@,
                            },
                            texel: old(self).images()[key].texel,
                        },
                    ));
                    assert((*self).devices() =~= old(self).devices());
                }
            },
            None => {
                proof {
                    assert(false);
                }
            },
        }
    }

    /// Register a device under a fresh device key.
    ///
    /// The handle is the executor's name for the device and queue pair; the
    /// blocking request to the adapter that obtains it happens outside the
    /// proof boundary.
    pub fn register_device(&mut self, handle: u64) -> (k: GpuKey)
        requires
            old(self).wf(),
        ensures
            final(self).wf(),
            final(self).images() == old(self).images(),
            !old(self).devices().contains_key(k),
            final(self).devices() == old(self).devices().insert(k, handle),
    {
        let raw = self.devices.insert(handle);
        let k = GpuKey(raw);
        proof {
            assert((*self).images() =~= old(self).images());
            assert((*self).devices() =~= old(self).devices().insert(k, handle));
        }
        k
    }

    /// The handles of all registered devices, in slot order: exactly the
    /// sequence [`Pool::device_handle_seq`]. Every listed handle belongs to
    /// a registered device, and every registered device's handle is listed.
    pub fn iter_devices(&self) -> (r: Vec<u64>)
        requires
            self.wf(),
        ensures
            r@ == self.device_handle_seq(),
            forall|p: int| 0 <= p < r@.len() ==> self.devices().contains_value(#[trigger] r@[p]),
            forall|k: GpuKey|
                #[trigger] self.devices().contains_key(k) ==> r@.contains(self.devices()[k]),
    {
        let mut handles: Vec<u64> = Vec::new();
        let count = self.devices.slot_count();
        let mut idx: usize = 0;
        while idx < count
            invariant
                idx <= count,
                count == self.devices.slots@.len(),
                self.devices.wf(),
                handles@ == device_seq(self.devices.slots@.take(idx as int)),
                forall|p: int|
                    0 <= p < handles@.len() ==> self.devices().contains_value(
                        #[trigger] handles@[p],
                    ),
                forall|k: GpuKey|
                    #[trigger] self.devices().contains_key(k) && (k.0.idx as int) < idx
                        ==> handles@.contains(self.devices()[k]),
            decreases count - idx,
        {
            let ghost prefix = self.devices.slots@.take(idx as int + 1);
            proof {
                assert(prefix.drop_last() =~= self.devices.slots@.take(idx as int));
                assert(prefix.last() == self.devices.slots@[idx as int]);
            }
            let gen = self.devices.gen_at(idx);
            match self.devices.value_at(idx) {
                Some(handle) => {
                    let h = *handle;
                    let ghost before = handles@;
                    handles.push(h);
                    proof {
                        let kw = GpuKey(RawKey { idx, gen });
                        assert(self.devices.valid(kw.0));
                        assert(self.devices().dom().contains(kw) && self.devices()[kw] == h);
                        assert(self.devices().contains_value(h));
                        assert forall|p: int| 0 <= p < handles@.len() implies self.devices(
                        ).contains_value(#[trigger] handles@[p]) by {
                            if p < before.len() {
                                assert(handles@[p] == before[p]);
                            } else {
                                assert(handles@[p] == h);
                            }
                        }
                        assert(handles@ =~= device_seq(prefix));
                        assert forall|k: GpuKey|
                            #[trigger] self.devices().contains_key(k) && (k.0.idx as int) < idx
                                as int + 1 implies handles@.contains(self.devices()[k]) by {
                            if (k.0.idx as int) < idx as int {
                                let q = choose|q: int|
                                    0 <= q < before.len() && before[q] == self.devices()[k];
                                assert(handles@[q] == before[q]);
                            } else {
                                // Only the key matching this slot's
                                // generation is live here.
                                assert(self.devices.valid(k.0));
                                assert(k.0.gen == gen);
                                assert(self.devices()[k] == h);
                                assert(handles@[before.len() as int] == h);
                            }
                        }
                    }
                },
                None => {
                    proof {
                        assert(handles@ =~= device_seq(prefix));
                        assert forall|k: GpuKey|
                            #[trigger] self.devices().contains_key(k) && (k.0.idx as int) < idx
                                as int + 1 implies handles@.contains(self.devices()[k]) by {
                            if (k.0.idx as int) == idx as int {
                                assert(self.devices.valid(k.0));
                                assert(false);
                            }
                        }
                    }
                },
            }
            idx = idx + 1;
        }
        proof {
            assert(self.devices.slots@.take(count as int) =~= self.devices.slots@);
            assert forall|k: GpuKey| #[trigger] self.devices().contains_key(k) implies handles@
                .contains(self.devices()[k]) by {
                assert(self.devices.valid(k.0));
                assert((k.0.idx as int) < count);
            }
        }
        handles
    }

    /// Remove and return an arbitrary registered device claimed to satisfy
    /// the requested capabilities.
    ///
    /// The policy is currently "first available" in slot order, not a
    /// genuine capability match.
    pub fn select_device(&mut self, _caps: &Capabilities) -> (r: Option<(GpuKey, u64)>)
        requires
            old(self).wf(),
        ensures
            final(self).wf(),
            final(self).images() == old(self).images(),
            match r {
                Some((k, handle)) => {
                    &&& old(self).devices().contains_key(k)
                    &&& old(self).devices()[k] == handle
                    &&& final(self).devices() == old(self).devices().remove(k)
                },
                None => {
                    &&& old(self).devices() == Map::<GpuKey, u64>::empty()
                    &&& final(self).devices() == old(self).devices()
                },
            },
    {
        let count = self.devices.slot_count();
        let mut idx: usize = 0;
        let mut found: Option<GpuKey> = None;
        while idx < count
            invariant
                idx <= count,
                count == self.devices.slots@.len(),
                self.devices.wf(),
                match found {
                    Some(k) => self.devices.contents().contains_key(k.0),
                    None => forall|i: int|
                        0 <= i < idx ==> (#[trigger] self.devices.slots@[i].value) is None,
                },
            decreases count - idx,
        {
            if found.is_none() {
                let gen = self.devices.gen_at(idx);
                match self.devices.value_at(idx) {
                    Some(_) => {
                        let k = GpuKey(RawKey { idx, gen });
                        found = Some(k);
                    },
                    None => {},
                }
            }
            idx = idx + 1;
        }
        match found {
            Some(k) => {
                match self.devices.remove(k.0) {
                    Some(handle) => {
                        proof {
                            assert((*self).images() =~= old(self).images());
                            assert((*self).devices() =~= old(self).devices().remove(k));
                        }
                        Some((k, handle))
                    },
                    None => {
                        proof {
                            assert(false);
                        }
                        unreached()
                    },
                }
            },
            None => {
                proof {
                    assert forall|k: GpuKey| !(#[trigger] old(self).devices().contains_key(
                        k,
                    )) by {
                        if old(self).devices().contains_key(k) {
                            assert(old(self).devices.slots@[k.0.idx as int].value is Some);
                        }
                    }
                    assert(old(self).devices() =~= Map::<GpuKey, u64>::empty());
                }
                None
            },
        }
    }

    /// The keys of all live image entries, in slot order. Every listed key
    /// names a live entry, every live entry's key is listed, and no key is
    /// listed twice. Entry traversal goes through these keys and
    /// [`Pool::entry`].
    pub fn keys(&self) -> (r: Vec<PoolKey>)
        requires
            self.wf(),
        ensures
            forall|p: int| 0 <= p < r@.len() ==> self.images().contains_key(#[trigger] r@[p]),
            forall|k: PoolKey| #[trigger] self.images().contains_key(k) ==> r@.contains(k),
            forall|p1: int, p2: int|
                #![trigger r@[p1], r@[p2]]
                0 <= p1 < p2 < r@.len() ==> r@[p1] != r@[p2],
    {
        let mut keys: Vec<PoolKey> = Vec::new();
        let count = self.items.slot_count();
        let mut idx: usize = 0;
        while idx < count
            invariant
                idx <= count,
                count == self.items.slots@.len(),
                self.items.wf(),
                forall|p: int|
                    0 <= p < keys@.len() ==> self.images().contains_key(#[trigger] keys@[p]),
                forall|p: int| 0 <= p < keys@.len() ==> ((#[trigger] keys@[p]).0.idx as int) < idx,
                forall|k: PoolKey|
                    #[trigger] self.images().contains_key(k) && (k.0.idx as int) < idx
                        ==> keys@.contains(k),
                forall|p1: int, p2: int|
                    #![trigger keys@[p1], keys@[p2]]
                    0 <= p1 < p2 < keys@.len() ==> keys@[p1] != keys@[p2],
            decreases count - idx,
        {
            let gen = self.items.gen_at(idx);
            match self.items.value_at(idx) {
                Some(_) => {
                    let key = PoolKey(RawKey { idx, gen });
                    let ghost before = keys@;
                    keys.push(key);
                    proof {
                        assert(self.items.valid(key.0));
                        assert(self.images().contains_key(key));
                        assert forall|p: int| 0 <= p < keys@.len() implies self.images(
                        ).contains_key(#[trigger] keys@[p]) && ((keys@[p]).0.idx as int) < idx
                            as int + 1 by {
                            if p < before.len() {
                                assert(keys@[p] == before[p]);
                            } else {
                                assert(keys@[p] == key);
                            }
                        }
                        assert forall|k: PoolKey|
                            #[trigger] self.images().contains_key(k) && (k.0.idx as int) < idx
                                as int + 1 implies keys@.contains(k) by {
                            if (k.0.idx as int) < idx as int {
                                let q = choose|q: int| 0 <= q < before.len() && before[q] == k;
                                assert(keys@[q] == before[q]);
                            } else {
                                // Only the key matching this slot's
                                // generation is live here.
                                assert(self.items.valid(k.0));
                                assert(k == key);
                                assert(keys@[before.len() as int] == key);
                            }
                        }
                        assert forall|p1: int, p2: int|
                            #![trigger keys@[p1], keys@[p2]]
                            0 <= p1 < p2 < keys@.len() implies keys@[p1] != keys@[p2] by {
                            if p2 < before.len() {
                                assert(keys@[p1] == before[p1]);
                                assert(keys@[p2] == before[p2]);
                            } else {
                                assert(keys@[p2] == key);
                                assert(keys@[p1] == before[p1]);
                                assert(((before[p1]).0.idx as int) < idx as int);
                            }
                        }
                    }
                },
                None => {
                    proof {
                        assert forall|k: PoolKey|
                            #[trigger] self.images().contains_key(k) && (k.0.idx as int) < idx
                                as int + 1 implies keys@.contains(k) by {
                            if (k.0.idx as int) == idx as int {
                                assert(self.items.valid(k.0));
                                assert(false);
                            }
                        }
                    }
                },
            }
            idx = idx + 1;
        }
        proof {
            assert forall|k: PoolKey| #[trigger] self.images().contains_key(k) implies keys@
                .contains(k) by {
                assert(self.items.valid(k.0));
                assert((k.0.idx as int) < count);
            }
        }
        keys
    }

    /// Remove the entry named by `key` from the pool, returning its parts.
    /// The key never names a live entry again.
    pub fn remove(&mut self, key: PoolKey) -> (r: Option<(ImageMeta, ImageData, Texel)>)
        requires
            old(self).wf(),
        ensures
            final(self).wf(),
            final(self).devices() == old(self).devices(),
            match r {
                Some(parts) => {
                    &&& old(self).images().contains_key(key)
                    &&& (PoolEntryView { meta: parts.0, data: parts.1@, texel: parts.2 }) == old(
                        self,
                    ).images()[key]
                    &&& parts.1.wf()
                    &&& final(self).images() == old(self).images().remove(key)
                },
                None => {
                    &&& !old(self).images().contains_key(key)
                    &&& final(self).images() == old(self).images()
                },
            },
    {
        match self.items.remove(key.0) {
            Some(image) => {
                proof {
                    assert(old(self).items.contents().contains_key(key.0));
                    assert(old(self).items.contents()[key.0].wf());
                    assert(image@ == old(self).images()[key]);
                    assert((*self).images() =~= old(self).images().remove(key));
                    assert((*self).devices() =~= old(self).devices());
                }
                Some((image.meta, image.data, image.texel))
            },
            None => {
                proof {
                    assert((*self).images() =~= old(self).images());
                    assert((*self).devices() =~= old(self).devices());
                }
                None
            },
        }
    }
}

/// Declaration rejects mismatched element sizes: a descriptor is
/// consistent exactly when its declared element byte size equals the byte
/// size of its sample encoding, and [`Pool::declare`] demands consistency
/// of every descriptor, so a descriptor violating this never yields an
/// entry. Callers outside the proof boundary check the condition before
/// the call and treat a violation as a fatal programmer error.
pub proof fn lemma_declare_rejects_mismatched_bytes(desc: Descriptor)
    ensures
        desc.spec_is_consistent() <==> desc.texel.samples.bits.spec_bytes()
            == desc.layout.bytes_per_texel,
{
}

/// The null key never names a live entry of any well-formed pool.
pub proof fn lemma_null_never_live(p: Pool, k: PoolKey)
    requires
        p.wf(),
        k.is_null(),
    ensures
        !p.images().contains_key(k),
{
    if p.images().contains_key(k) {
        assert(p.items.contents().contains_key(k.0));
        assert(p.items.slots@[k.0.idx as int].gen >= 1);
    }
}

impl<'pool> PoolImage<'pool> {
    /// The key of this handle's entry.
    pub closed spec fn spec_key(self) -> PoolKey {
        self.key
    }

    /// The entry this handle views.
    pub closed spec fn spec_image(self) -> PoolEntry {
        *self.image
    }

    /// Get the key associated with the image. You can use the key to
    /// access this same image again.
    pub fn key(&self) -> (r: PoolKey)
        ensures
            r == self.spec_key(),
    {
        self.key
    }

    /// Get the buffer layout describing the byte occupancy.
    pub fn layout(&self) -> (r: &BufferLayout)
        ensures
            *r == self.spec_image()@.data.layout(),
    {
        self.image.data.layout()
    }

    /// The meta data of this entry.
    pub fn meta(&self) -> (r: ImageMeta)
        ensures
            r == self.spec_image()@.meta,
    {
        self.image.meta
    }

    /// The full descriptor for this image.
    pub fn descriptor(&self) -> (r: Descriptor)
        ensures
            r == self.spec_image()@.descriptor(),
    {
        Descriptor { layout: *self.image.data.layout(), texel: self.image.texel }
    }

    /// View the buffer as bytes. This returns `Some` if the image is a
    /// host allocated buffer and `None` otherwise.
    pub fn as_bytes(&self) -> (r: Option<&[u8]>)
        ensures
            match r {
                Some(bytes) => self.spec_image()@.data matches ImageDataView::Host {
                    bytes: b,
                    ..
                } && bytes@ == b,
                None => !(self.spec_image()@.data is Host),
            },
    {
        self.image.data.as_bytes()
    }
}

} // verus!
