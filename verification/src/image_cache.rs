//! Epoch-tagged atlas image cache.
//!
//! Pixel buffers are packed into fixed-maximum-size texture pages. Each
//! cached image records the epoch of its last use; evictable images whose
//! last use is older than the retention window are reclaimed under
//! allocation pressure. Page lifecycle (creation and pixel uploads) is
//! reported as an ordered event stream for the GPU backend.

use vstd::prelude::*;

verus! {

/// Number of frames an unused evictable image or font entry is retained
/// before it becomes eligible for reclamation.
pub const RETENTION_FRAMES: u64 = 8;

/// Monotonically increasing frame counter, used as the logical clock for
/// eviction.
#[derive(Clone, Copy, Debug, PartialEq, Eq, Structural, Default)]
pub struct Epoch(pub u64);

/// Identifies one physical texture page backing part of the atlas.
#[derive(Clone, Copy, Debug, PartialEq, Eq, Hash, Structural)]
pub struct TextureId(pub u32);

/// Pixel format of an image or texture page.
#[derive(Clone, Copy, Debug, PartialEq, Eq, Hash, Structural)]
pub enum PixelFormat {
    /// One alpha byte per pixel.
    A8,
    /// Four bytes per pixel: red, green, blue, alpha.
    Rgba8,
}

/// Opaque handle for a cached image. Carries the alpha-channel flag so the
/// cheap queries need no cache lookup; holders must re-validate before use,
/// since eviction invalidates handles.
#[derive(Clone, Copy, Debug, PartialEq, Eq, Hash, Structural)]
pub struct ImageId {
    index: u32,
    alpha: bool,
}

impl ImageId {
    /// Slot index this handle refers to.
    pub closed spec fn spec_index(self) -> int {
        self.index as int
    }

    /// Whether the image carries an alpha channel.
    pub closed spec fn spec_has_alpha(self) -> bool {
        self.alpha
    }

    /// Whether the image carries an alpha channel; answered from the handle
    /// itself, without touching the cache.
    pub fn has_alpha(&self) -> (r: bool)
        ensures
            r == self.spec_has_alpha(),
    {
        self.alpha
    }
}

/// Pixel payload of an allocation request: either borrowed only for the
/// duration of the call, or an owned buffer the cache consumes.
pub enum ImageData<'a> {
    Borrowed(&'a [u8]),
    Owned(Vec<u8>),
}

impl<'a> ImageData<'a> {
    /// The payload bytes.
    pub open spec fn view(self) -> Seq<u8> {
        match self {
            ImageData::Borrowed(s) => s@,
            ImageData::Owned(v) => v@,
        }
    }
}

/// A request to cache a pixel buffer.
pub struct AddImage<'a> {
    pub format: PixelFormat,
    pub width: u16,
    pub height: u16,
    pub has_alpha: bool,
    /// Non-evictable images are never reclaimed by epoch pressure.
    pub evictable: bool,
    pub data: ImageData<'a>,
}

/// Result of a successful lookup: pixel-space min/max corners inside a
/// specific texture page. Valid only for the epoch in which it was obtained.
#[derive(Clone, Copy, Debug, PartialEq, Eq)]
pub struct ImageLocation {
    pub texture_id: TextureId,
    pub min: (u16, u16),
    pub max: (u16, u16),
}

/// Texture page lifecycle notification for the GPU backend. Events must be
/// applied strictly in emission order: create before update, update before
/// any draw referencing the page.
pub enum TextureEvent {
    CreateTexture { id: TextureId, format: PixelFormat, width: u16, height: u16 },
    UpdateTexture { id: TextureId, x: u16, y: u16, width: u16, height: u16, data: Vec<u8> },
    DestroyTexture { id: TextureId },
}

/// One cached image: liveness, eviction class, last-used epoch, and its
/// rectangle inside a page.
#[derive(Clone, Copy, Debug)]
struct ImageEntry {
    alive: bool,
    evictable: bool,
    epoch: u64,
    has_alpha: bool,
    page: usize,
    texture: TextureId,
    x: u16,
    y: u16,
    width: u16,
    height: u16,
}

/// Shelf-packing state of one texture page.
#[derive(Clone, Copy, Debug)]
struct Page {
    id: TextureId,
    format: PixelFormat,
    width: u16,
    height: u16,
    /// Next free x on the open shelf.
    shelf_x: u16,
    /// Top of the open shelf.
    shelf_y: u16,
    /// Height of the open shelf.
    shelf_h: u16,
}

/// A rectangle returned to a page by deallocation or eviction, available
/// for reuse.
#[derive(Clone, Copy, Debug)]
struct FreeRect {
    page: usize,
    x: u16,
    y: u16,
    width: u16,
    height: u16,
}

/// The atlas image cache.
pub struct ImageCache {
    max_texture_size: u16,
    entries: Vec<ImageEntry>,
    pages: Vec<Page>,
    free: Vec<FreeRect>,
    events: Vec<TextureEvent>,
    next_texture: u32,
}

impl ImageCache {
    /// Maximum width and height of a texture page, and so of any single
    /// image.
    pub closed spec fn spec_max(self) -> u16 {
        self.max_texture_size
    }

    /// Number of handles ever issued; the next allocation gets this index.
    pub closed spec fn spec_count(self) -> nat {
        self.entries@.len()
    }

    /// Whether `id` currently resolves to a resident image.
    pub closed spec fn spec_is_valid(self, id: ImageId) -> bool {
        &&& 0 <= id.spec_index() < self.entries.len()
        &&& self.entries[id.spec_index()].alive
        &&& self.entries[id.spec_index()].has_alpha == id.spec_has_alpha()
    }

    /// Current atlas location of a valid image.
    pub closed spec fn spec_location(self, id: ImageId) -> ImageLocation {
        let e = self.entries[id.spec_index()];
        ImageLocation {
            texture_id: e.texture,
            min: (e.x, e.y),
            max: ((e.x + e.width) as u16, (e.y + e.height) as u16),
        }
    }

    /// Last-used epoch of a valid image.
    pub closed spec fn spec_epoch_of(self, id: ImageId) -> u64 {
        self.entries[id.spec_index()].epoch
    }

    /// Whether a valid image may be reclaimed by epoch pressure.
    pub closed spec fn spec_evictable(self, id: ImageId) -> bool {
        self.entries[id.spec_index()].evictable
    }

    /// Pending lifecycle events, oldest first.
    pub closed spec fn spec_events(self) -> Seq<TextureEvent> {
        self.events@
    }

    /// An image whose last use is older than the retention window relative
    /// to `now` and which is marked evictable: it may be reclaimed to make
    /// room.
    pub open spec fn spec_stale(self, id: ImageId, now: Epoch) -> bool {
        self.spec_evictable(id) && self.spec_epoch_of(id) + RETENTION_FRAMES < now.0
    }

    /// Whether a `w` by `h` image of this format fits somewhere without
    /// reclaiming anything: a freed rectangle large enough, or shelf room
    /// on an existing page. When it does not, an allocation is under
    /// pressure and reclaims every stale evictable image.
    pub closed spec fn spec_has_room(self, format: PixelFormat, w: u16, h: u16) -> bool {
        ||| exists|k: int| 0 <= k < self.free@.len() && {
            let f = #[trigger] self.free@[k];
            &&& self.pages@[f.page as int].format == format
            &&& w <= f.width
            &&& h <= f.height
        }
        ||| exists|p: int| 0 <= p < self.pages@.len() && {
            let pg = #[trigger] self.pages@[p];
            &&& pg.format == format
            &&& ((w <= pg.width - pg.shelf_x && h <= pg.shelf_h) || (w <= pg.width && h
                <= pg.height - pg.shelf_y - pg.shelf_h))
        }
    }

    /// Internal well-formedness: page shelf cursors stay inside the page,
    /// free rectangles and live entries point at existing pages and stay
    /// inside their bounds, and texture identifiers are issued sequentially.
    pub closed spec fn wf(self) -> bool {
        &&& self.next_texture == self.pages.len()
        &&& self.pages.len() <= self.entries.len()
        &&& forall|i: int| 0 <= i < self.pages.len() ==> {
            let p = #[trigger] self.pages[i];
            &&& p.shelf_x <= p.width
            &&& p.shelf_y + p.shelf_h <= p.height
            &&& p.width <= self.max_texture_size
            &&& p.height <= self.max_texture_size
        }
        &&& forall|i: int| 0 <= i < self.free.len() ==> {
            let f = #[trigger] self.free[i];
            &&& f.page < self.pages.len()
            &&& f.x + f.width <= self.pages[f.page as int].width
            &&& f.y + f.height <= self.pages[f.page as int].height
        }
        &&& forall|i: int| 0 <= i < self.entries.len() && (#[trigger] self.entries[i]).alive ==> {
            let e = self.entries[i];
            &&& e.page < self.pages.len()
            &&& e.texture == self.pages[e.page as int].id
            &&& e.x + e.width <= self.pages[e.page as int].width
            &&& e.y + e.height <= self.pages[e.page as int].height
        }
    }

    /// Creates an empty cache whose texture pages are at most
    /// `max_texture_size` pixels in either dimension.
    pub fn new(max_texture_size: u16) -> (c: ImageCache)
        ensures
            c.wf(),
            c.spec_max() == max_texture_size,
            c.spec_count() == 0,
            c.spec_events() == Seq::<TextureEvent>::empty(),
            forall|id: ImageId| !c.spec_is_valid(id),
    {
        let c = ImageCache {
            max_texture_size,
            entries: Vec::new(),
            pages: Vec::new(),
            free: Vec::new(),
            events: Vec::new(),
            next_texture: 0,
        };
        proof {
            assert(c.spec_events() =~= Seq::<TextureEvent>::empty());
        }
        c
    }

    /// Cheap liveness check; does not refresh the image's last-used epoch.
    pub fn is_valid(&self, id: ImageId) -> (r: bool)
        ensures
            r == self.spec_is_valid(id),
    {
        if (id.index as usize) < self.entries.len() {
            let e = &self.entries[id.index as usize];
            e.alive && e.has_alpha == id.alpha
        } else {
            false
        }
    }

    /// Returns the image's current atlas location if it is still resident,
    /// refreshing its last-used epoch to `epoch`; returns `None` if the
    /// image was evicted. Nothing but that one image's last-used epoch
    /// changes.
    pub fn get(&mut self, epoch: Epoch, id: ImageId) -> (r: Option<ImageLocation>)
        requires
            old(self).wf(),
        ensures
            final(self).wf(),
            r == (if old(self).spec_is_valid(id) {
                Some(old(self).spec_location(id))
            } else {
                None::<ImageLocation>
            }),
            final(self).spec_max() == old(self).spec_max(),
            final(self).spec_count() == old(self).spec_count(),
            final(self).spec_events() == old(self).spec_events(),
            forall|j: ImageId| final(self).spec_is_valid(j) == old(self).spec_is_valid(j),
            forall|j: ImageId| old(self).spec_is_valid(j) ==> final(self).spec_location(j) == old(self).spec_location(j),
            forall|j: ImageId| old(self).spec_is_valid(j) ==> final(self).spec_evictable(j) == old(self).spec_evictable(j),
            forall|j: ImageId| old(self).spec_is_valid(j) && j.spec_index() != id.spec_index() ==>
                final(self).spec_epoch_of(j) == old(self).spec_epoch_of(j),
            old(self).spec_is_valid(id) ==> forall|j: ImageId|
                j.spec_index() == id.spec_index() ==> final(self).spec_epoch_of(j) == epoch.0,
            old(self).spec_is_valid(id) ==> final(self).spec_epoch_of(id) == epoch.0,
            !old(self).spec_is_valid(id) ==> *final(self) == *old(self),
    {
        if (id.index as usize) < self.entries.len() {
            let i = id.index as usize;
            let e = self.entries[i];
            if e.alive && e.has_alpha == id.alpha {
                self.entries[i] = ImageEntry { epoch: epoch.0, ..e };
                return Some(ImageLocation {
                    texture_id: e.texture,
                    min: (e.x, e.y),
                    max: (e.x + e.width, e.y + e.height),
                });
            }
        }
        None
    }

    /// Explicit early release, independent of epoch pressure. Returns the
    /// freed location if the handle was valid; the freed rectangle becomes
    /// available for reuse. No other image is affected and no event is
    /// emitted.
    pub fn deallocate(&mut self, id: ImageId) -> (r: Option<ImageLocation>)
        requires
            old(self).wf(),
        ensures
            final(self).wf(),
            r == (if old(self).spec_is_valid(id) {
                Some(old(self).spec_location(id))
            } else {
                None::<ImageLocation>
            }),
            final(self).spec_max() == old(self).spec_max(),
            final(self).spec_count() == old(self).spec_count(),
            final(self).spec_events() == old(self).spec_events(),
            !old(self).spec_is_valid(id) ==> *final(self) == *old(self),
            old(self).spec_is_valid(id) ==> forall|j: ImageId|
                j.spec_index() == id.spec_index() ==> !final(self).spec_is_valid(j),
            !final(self).spec_is_valid(id),
            forall|j: ImageId| j.spec_index() != id.spec_index() ==>
                final(self).spec_is_valid(j) == old(self).spec_is_valid(j),
            forall|j: ImageId| old(self).spec_is_valid(j) && j.spec_index() != id.spec_index() ==> {
                &&& final(self).spec_location(j) == old(self).spec_location(j)
                &&& final(self).spec_epoch_of(j) == old(self).spec_epoch_of(j)
                &&& final(self).spec_evictable(j) == old(self).spec_evictable(j)
            },
    {
        if (id.index as usize) < self.entries.len() {
            let i = id.index as usize;
            let e = self.entries[i];
            if e.alive && e.has_alpha == id.alpha {
                self.entries[i] = ImageEntry { alive: false, ..e };
                self.free.push(FreeRect {
                    page: e.page,
                    x: e.x,
                    y: e.y,
                    width: e.width,
                    height: e.height,
                });
                return Some(ImageLocation {
                    texture_id: e.texture,
                    min: (e.x, e.y),
                    max: (e.x + e.width, e.y + e.height),
                });
            }
        }
        None
    }

    /// Hands out every pending texture event exactly once, oldest first,
    /// and clears the queue. Nothing else changes.
    pub fn drain_events(&mut self) -> (r: Vec<TextureEvent>)
        requires
            old(self).wf(),
        ensures
            final(self).wf(),
            r@ == old(self).spec_events(),
            final(self).spec_events() == Seq::<TextureEvent>::empty(),
            final(self).spec_max() == old(self).spec_max(),
            final(self).spec_count() == old(self).spec_count(),
            forall|j: ImageId| final(self).spec_is_valid(j) == old(self).spec_is_valid(j),
            forall|j: ImageId| old(self).spec_is_valid(j) ==> {
                &&& final(self).spec_location(j) == old(self).spec_location(j)
                &&& final(self).spec_epoch_of(j) == old(self).spec_epoch_of(j)
                &&& final(self).spec_evictable(j) == old(self).spec_evictable(j)
            },
    {
        let mut out: Vec<TextureEvent> = Vec::new();
        core::mem::swap(&mut out, &mut self.events);
        proof {
            assert(self.spec_events() =~= Seq::<TextureEvent>::empty());
        }
        out
    }

    /// Index of a free rectangle that can hold a `w` by `h` image on a page
    /// of the requested format, if any.
    fn find_free(&self, format: PixelFormat, w: u16, h: u16) -> (r: Option<usize>)
        requires
            self.wf(),
        ensures
            r matches Some(k) ==> k < self.free@.len() && {
                let f = self.free@[k as int];
                &&& self.pages@[f.page as int].format == format
                &&& w <= f.width
                &&& h <= f.height
            },
            r is None ==> forall|k: int| 0 <= k < self.free@.len() ==> !{
                let f = #[trigger] self.free@[k];
                &&& self.pages@[f.page as int].format == format
                &&& w <= f.width
                &&& h <= f.height
            },
    {
        let n = self.free.len();
        let mut j: usize = 0;
        while j < n
            invariant
                self.wf(),
                n == self.free@.len(),
                0 <= j <= n,
                forall|k: int| 0 <= k < j ==> !{
                    let f = #[trigger] self.free@[k];
                    &&& self.pages@[f.page as int].format == format
                    &&& w <= f.width
                    &&& h <= f.height
                },
            decreases n - j,
        {
            let f = self.free[j];
            if self.pages[f.page].format == format && w <= f.width && h <= f.height {
                return Some(j);
            }
            j += 1;
        }
        None
    }

    /// Tries to place a `w` by `h` rectangle on page `i`'s open shelf,
    /// opening a new shelf below it when the open one cannot hold it.
    fn shelf_alloc(&mut self, i: usize, w: u16, h: u16) -> (r: Option<(u16, u16)>)
        requires
            old(self).wf(),
            i < old(self).pages@.len(),
        ensures
            final(self).wf(),
            final(self).entries@ == old(self).entries@,
            final(self).free@ == old(self).free@,
            final(self).events@ == old(self).events@,
            final(self).max_texture_size == old(self).max_texture_size,
            final(self).next_texture == old(self).next_texture,
            final(self).pages@.len() == old(self).pages@.len(),
            forall|k: int| 0 <= k < old(self).pages@.len() && k != i ==>
                final(self).pages@[k] == old(self).pages@[k],
            final(self).pages@[i as int].id == old(self).pages@[i as int].id,
            final(self).pages@[i as int].format == old(self).pages@[i as int].format,
            final(self).pages@[i as int].width == old(self).pages@[i as int].width,
            final(self).pages@[i as int].height == old(self).pages@[i as int].height,
            r matches Some((x, y)) ==> {
                &&& x + w <= final(self).pages@[i as int].width
                &&& y + h <= final(self).pages@[i as int].height
            },
            r is Some ==> {
                let p = old(self).pages@[i as int];
                ||| (w <= p.width - p.shelf_x && h <= p.shelf_h)
                ||| (w <= p.width && h <= p.height - p.shelf_y - p.shelf_h)
            },
            r is None ==> *final(self) == *old(self) && {
                let p = old(self).pages@[i as int];
                &&& !(w <= p.width - p.shelf_x && h <= p.shelf_h)
                &&& !(w <= p.width && h <= p.height - p.shelf_y - p.shelf_h)
            },
    {
        let p = self.pages[i];
        if w <= p.width - p.shelf_x && h <= p.shelf_h {
            let x = p.shelf_x;
            let y = p.shelf_y;
            self.pages[i] = Page { shelf_x: p.shelf_x + w, ..p };
            Some((x, y))
        } else if w <= p.width && h <= p.height - p.shelf_y - p.shelf_h {
            let y = p.shelf_y + p.shelf_h;
            self.pages[i] = Page { shelf_x: w, shelf_y: y, shelf_h: h, ..p };
            Some((0, y))
        } else {
            None
        }
    }

    /// Marks every stale evictable image dead and returns its rectangle to
    /// its page for reuse. Fresh and non-evictable images are untouched.
    fn evict_stale(&mut self, now: Epoch)
        requires
            old(self).wf(),
        ensures
            final(self).wf(),
            final(self).spec_max() == old(self).spec_max(),
            final(self).spec_count() == old(self).spec_count(),
            final(self).spec_events() == old(self).spec_events(),
            final(self).pages@ == old(self).pages@,
            final(self).next_texture == old(self).next_texture,
            forall|j: ImageId| final(self).spec_is_valid(j) ==> old(self).spec_is_valid(j),
            forall|j: ImageId| old(self).spec_is_valid(j) && !old(self).spec_stale(j, now) ==>
                final(self).spec_is_valid(j),
            forall|j: ImageId| old(self).spec_is_valid(j) && old(self).spec_stale(j, now) ==>
                !final(self).spec_is_valid(j),
            forall|j: ImageId| old(self).spec_is_valid(j) && final(self).spec_is_valid(j) ==> {
                &&& final(self).spec_location(j) == old(self).spec_location(j)
                &&& final(self).spec_epoch_of(j) == old(self).spec_epoch_of(j)
                &&& final(self).spec_evictable(j) == old(self).spec_evictable(j)
            },
    {
        let ghost pre = *self;
        let n = self.entries.len();
        let mut i: usize = 0;
        while i < n
            invariant
                self.wf(),
                n == self.entries@.len(),
                0 <= i <= n,
                self.entries@.len() == pre.entries@.len(),
                self.pages@ == pre.pages@,
                self.events@ == pre.events@,
                self.max_texture_size == pre.max_texture_size,
                self.next_texture == pre.next_texture,
                forall|k: int| 0 <= k < n ==> {
                    let e0 = pre.entries@[k];
                    let e1 = #[trigger] self.entries@[k];
                    e1 == e0 || (e0.alive && e0.evictable && e0.epoch + RETENTION_FRAMES < now.0
                        && e1 == ImageEntry { alive: false, ..e0 })
                },
                forall|k: int| 0 <= k < i ==> {
                    let e0 = pre.entries@[k];
                    (e0.alive && e0.evictable && e0.epoch + RETENTION_FRAMES < now.0)
                        ==> !(#[trigger] self.entries@[k]).alive
                },
                forall|k: int| i <= k < n ==> #[trigger] self.entries@[k] == pre.entries@[k],
            decreases n - i,
        {
            let e = self.entries[i];
            if e.alive && e.evictable && now.0 > RETENTION_FRAMES && e.epoch < now.0 - RETENTION_FRAMES {
                self.entries[i] = ImageEntry { alive: false, ..e };
                self.free.push(FreeRect {
                    page: e.page,
                    x: e.x,
                    y: e.y,
                    width: e.width,
                    height: e.height,
                });
            }
            i += 1;
        }
    }

    /// Packs the requested image into an existing page with space (reusing
    /// a freed rectangle where one fits), or — after reclaiming stale
    /// evictable images — into a newly created page. The pixel payload is
    /// fully consumed before the call returns: it is copied into an
    /// `UpdateTexture` event targeted at the image's rectangle, emitted
    /// after the page's `CreateTexture` event if the page is new.
    ///
    /// Returns `None` exactly when the image cannot fit an empty page of
    /// the maximum texture size; allocation never fails for an image that
    /// fits, so running out of space in existing pages is never an error.
    pub fn allocate(&mut self, epoch: Epoch, request: AddImage) -> (r: Option<ImageId>)
        requires
            old(self).wf(),
            old(self).spec_count() < 0xFFFF_FFFF,
        ensures
            final(self).wf(),
            final(self).spec_max() == old(self).spec_max(),
            r is Some <==> request.width <= old(self).spec_max() && request.height <= old(self).spec_max(),
            r is None ==> *final(self) == *old(self),
            r matches Some(id) ==> {
                &&& id.spec_index() == old(self).spec_count()
                &&& id.spec_has_alpha() == request.has_alpha
                &&& final(self).spec_count() == old(self).spec_count() + 1
                &&& final(self).spec_is_valid(id)
                &&& final(self).spec_epoch_of(id) == epoch.0
                &&& final(self).spec_evictable(id) == request.evictable
                &&& final(self).spec_location(id).max.0 == final(self).spec_location(id).min.0 + request.width
                &&& final(self).spec_location(id).max.1 == final(self).spec_location(id).min.1 + request.height
                &&& spec_events_after_alloc(
                        old(self).spec_events(),
                        final(self).spec_events(),
                        final(self).spec_location(id),
                        request.format,
                        request.width,
                        request.height,
                        request.data@,
                        old(self).spec_max(),
                    )
            },
            forall|j: ImageId| old(self).spec_is_valid(j) && !old(self).spec_stale(j, epoch) ==>
                final(self).spec_is_valid(j),
            request.width <= old(self).spec_max() && request.height <= old(self).spec_max()
                && !old(self).spec_has_room(request.format, request.width, request.height)
                ==> forall|j: ImageId|
                old(self).spec_is_valid(j) && old(self).spec_stale(j, epoch) ==> !final(self).spec_is_valid(j),
            forall|j: ImageId| final(self).spec_is_valid(j) && j.spec_index() < old(self).spec_count() ==>
                old(self).spec_is_valid(j),
            forall|j: ImageId| old(self).spec_is_valid(j) && final(self).spec_is_valid(j) ==> {
                &&& final(self).spec_location(j) == old(self).spec_location(j)
                &&& final(self).spec_epoch_of(j) == old(self).spec_epoch_of(j)
                &&& final(self).spec_evictable(j) == old(self).spec_evictable(j)
            },
    {
        if request.width > self.max_texture_size || request.height > self.max_texture_size {
            return None;
        }
        let w = request.width;
        let h = request.height;
        let format = request.format;
        let data: Vec<u8> = match request.data {
            ImageData::Borrowed(s) => vstd::slice::slice_to_vec(s),
            ImageData::Owned(v) => v,
        };
        let ghost pre = *self;

        let mut place: Option<(usize, u16, u16)> = None;

        // Reuse a freed rectangle if one fits.
        match self.find_free(format, w, h) {
            Some(fi) => {
                proof {
                    assert(pre.spec_has_room(format, w, h));
                }
                let f = self.free.swap_remove(fi);
                place = Some((f.page, f.x, f.y));
            }
            None => {}
        }

        // Otherwise pack onto an existing page's shelves.
        if place.is_none() {
            let np = self.pages.len();
            let mut i: usize = 0;
            while i < np && place.is_none()
                invariant
                    self.wf(),
                    np == self.pages@.len(),
                    0 <= i <= np,
                    self.entries@ == pre.entries@,
                    self.events@ == pre.events@,
                    self.max_texture_size == pre.max_texture_size,
                    self.next_texture == pre.next_texture,
                    self.pages@.len() == pre.pages@.len(),
                    place matches Some((pi, x, y)) ==> {
                        &&& pi < self.pages@.len()
                        &&& x + w <= self.pages@[pi as int].width
                        &&& y + h <= self.pages@[pi as int].height
                    },
                    !pre.spec_has_room(format, w, h) ==> place is None && self.pages@
                        == pre.pages@ && self.free@ == pre.free@,
                decreases np - i,
            {
                if self.pages[i].format == format {
                    match self.shelf_alloc(i, w, h) {
                        Some((x, y)) => {
                            place = Some((i, x, y));
                        }
                        None => {}
                    }
                }
                i += 1;
            }
        }

        // Under pressure, reclaim stale evictable images and retry.
        if place.is_none() {
            let ghost before_evict = *self;
            self.evict_stale(epoch);
            proof {
                assert(before_evict.entries@ == pre.entries@);
                assert forall|j: ImageId|
                    pre.spec_is_valid(j) && pre.spec_stale(j, epoch) implies !self.spec_is_valid(
                    j,
                ) by {
                    assert(before_evict.spec_is_valid(j));
                    assert(before_evict.spec_stale(j, epoch));
                }
                assert forall|j: ImageId|
                    pre.spec_is_valid(j) && !pre.spec_stale(j, epoch) implies self.spec_is_valid(
                    j,
                ) by {
                    assert(before_evict.spec_is_valid(j));
                    assert(!before_evict.spec_stale(j, epoch));
                }
                assert forall|j: ImageId| self.spec_is_valid(j) implies pre.spec_is_valid(j) by {
                    assert(before_evict.spec_is_valid(j));
                }
                assert forall|j: ImageId|
                    pre.spec_is_valid(j) && self.spec_is_valid(j) implies {
                        &&& self.spec_location(j) == pre.spec_location(j)
                        &&& self.spec_epoch_of(j) == pre.spec_epoch_of(j)
                        &&& self.spec_evictable(j) == pre.spec_evictable(j)
                    } by {
                    assert(before_evict.spec_is_valid(j));
                    assert(self.spec_location(j) == before_evict.spec_location(j));
                }
            }
            match self.find_free(format, w, h) {
                Some(fi) => {
                    let f = self.free.swap_remove(fi);
                    place = Some((f.page, f.x, f.y));
                }
                None => {}
            }
        }
        proof {
            assert(forall|j: ImageId|
                pre.spec_is_valid(j) && !pre.spec_stale(j, epoch) ==> self.spec_is_valid(j));
            assert(forall|j: ImageId| self.spec_is_valid(j) ==> pre.spec_is_valid(j));
            assert(forall|j: ImageId|
                pre.spec_is_valid(j) && self.spec_is_valid(j) ==> {
                    &&& self.spec_location(j) == pre.spec_location(j)
                    &&& self.spec_epoch_of(j) == pre.spec_epoch_of(j)
                    &&& self.spec_evictable(j) == pre.spec_evictable(j)
                });
        }
        let ghost placed_state = *self;

        // Last resort: a fresh page of the maximum size always holds the
        // image, with its first shelf already occupied by it.
        if place.is_none() {
            let pid = TextureId(self.next_texture);
            self.pages.push(Page {
                id: pid,
                format,
                width: self.max_texture_size,
                height: self.max_texture_size,
                shelf_x: w,
                shelf_y: 0,
                shelf_h: h,
            });
            self.next_texture = self.next_texture + 1;
            self.events.push(TextureEvent::CreateTexture {
                id: pid,
                format,
                width: self.max_texture_size,
                height: self.max_texture_size,
            });
            place = Some((self.pages.len() - 1, 0, 0));
        }

        let (pi, x, y) = match place {
            Some(t) => t,
            None => {
                proof {
                    assert(false);
                }
                (0, 0, 0)
            }
        };
        let texture = self.pages[pi].id;
        self.entries.push(ImageEntry {
            alive: true,
            evictable: request.evictable,
            epoch: epoch.0,
            has_alpha: request.has_alpha,
            page: pi,
            texture,
            x,
            y,
            width: w,
            height: h,
        });
        self.events.push(TextureEvent::UpdateTexture {
            id: texture,
            x,
            y,
            width: w,
            height: h,
            data,
        });
        let id = ImageId {
            index: (self.entries.len() - 1) as u32,
            alpha: request.has_alpha,
        };
        proof {
            assert(self.events@.subrange(0, pre.events@.len() as int) =~= pre.events@);
            assert(x + w <= 65535);
            assert(self.spec_is_valid(id));
            if !pre.spec_has_room(format, w, h) {
                assert forall|j: ImageId|
                    pre.spec_is_valid(j) && pre.spec_stale(j, epoch) implies !self.spec_is_valid(
                    j,
                ) by {
                    assert(0 <= j.spec_index() < pre.entries@.len());
                    assert(!placed_state.spec_is_valid(j));
                    assert(self.entries@[j.spec_index()] == placed_state.entries@[j.spec_index()]);
                }
            }
            assert(self.entries@ == placed_state.entries@.push(self.entries@.last()));
            assert forall|j: ImageId|
                pre.spec_is_valid(j) && !pre.spec_stale(j, epoch) implies self.spec_is_valid(
                j,
            ) by {
                assert(0 <= j.spec_index() < pre.entries@.len());
                assert(placed_state.spec_is_valid(j));
                assert(self.entries@[j.spec_index()] == placed_state.entries@[j.spec_index()]);
                assert(self.entries@[j.spec_index()].alive);
            }
            assert forall|j: ImageId|
                self.spec_is_valid(j) && j.spec_index() < pre.spec_count() implies pre.spec_is_valid(
                j,
            ) by {
                assert(self.entries@[j.spec_index()].alive);
            }
        }
        Some(id)
    }
}

/// Repeated lookups within one epoch return the same location: a lookup
/// determines its result from the cache state alone, and refreshing an
/// image's last-used epoch changes no image's validity or location — so a
/// second `get` on a still-valid handle returns exactly what the first
/// did. The premises are precisely what `get`'s contract guarantees of
/// the state it leaves behind.
pub proof fn lemma_get_idempotent(pre: ImageCache, post: ImageCache, id: ImageId)
    requires
        pre.spec_is_valid(id),
        forall|j: ImageId| post.spec_is_valid(j) == pre.spec_is_valid(j),
        forall|j: ImageId| pre.spec_is_valid(j) ==> post.spec_location(j) == pre.spec_location(j),
    ensures
        post.spec_is_valid(id),
        post.spec_location(id) == pre.spec_location(id),
{
}

/// Shape of the event stream appended by one successful allocation: the old
/// stream is kept, and either a single pixel-upload event for the image's
/// rectangle is appended, or — when a page had to be created — a creation
/// event for that page followed by the upload.
pub open spec fn spec_events_after_alloc(
    pre: Seq<TextureEvent>,
    post: Seq<TextureEvent>,
    loc: ImageLocation,
    format: PixelFormat,
    w: u16,
    h: u16,
    data: Seq<u8>,
    max: u16,
) -> bool {
    &&& post.len() >= pre.len() + 1
    &&& post.subrange(0, pre.len() as int) == pre
    &&& spec_is_update_event(post.last(), loc.texture_id, loc.min.0, loc.min.1, w, h, data)
    &&& (post.len() == pre.len() + 1
        || (post.len() == pre.len() + 2
            && spec_is_create_event(post[post.len() - 2], loc.texture_id, format, max, max)))
}

/// Whether `ev` uploads `data` to the `w` by `h` rectangle at `(x, y)` of
/// texture `tid`.
pub open spec fn spec_is_update_event(
    ev: TextureEvent,
    tid: TextureId,
    x: u16,
    y: u16,
    w: u16,
    h: u16,
    data: Seq<u8>,
) -> bool {
    match ev {
        TextureEvent::UpdateTexture { id, x: ex, y: ey, width, height, data: d } => {
            &&& id == tid
            &&& ex == x
            &&& ey == y
            &&& width == w
            &&& height == h
            &&& d@ == data
        },
        _ => false,
    }
}

/// Whether `ev` creates texture `tid` with the given format and size.
pub open spec fn spec_is_create_event(
    ev: TextureEvent,
    tid: TextureId,
    format: PixelFormat,
    w: u16,
    h: u16,
) -> bool {
    match ev {
        TextureEvent::CreateTexture { id, format: f, width, height } => {
            &&& id == tid
            &&& f == format
            &&& width == w
            &&& height == h
        },
        _ => false,
    }
}

} // verus!
