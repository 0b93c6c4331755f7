use compositor::image_cache::{
    AddImage, Epoch, ImageCache, ImageData, PixelFormat, TextureEvent,
};

fn req(w: u16, h: u16, evictable: bool) -> AddImage<'static> {
    AddImage {
        format: PixelFormat::Rgba8,
        width: w,
        height: h,
        has_alpha: true,
        evictable,
        data: ImageData::Owned(vec![0u8; (w as usize) * (h as usize) * 4]),
    }
}

#[test]
fn allocate_and_get() {
    let mut cache = ImageCache::new(256);
    let id = cache.allocate(Epoch(0), req(16, 8, true)).unwrap();
    assert!(cache.is_valid(id));
    assert!(id.has_alpha());
    let loc = cache.get(Epoch(0), id).unwrap();
    assert_eq!(loc.max.0 - loc.min.0, 16);
    assert_eq!(loc.max.1 - loc.min.1, 8);
}

#[test]
fn get_is_idempotent_within_epoch() {
    let mut cache = ImageCache::new(256);
    let id = cache.allocate(Epoch(3), req(10, 10, true)).unwrap();
    let first = cache.get(Epoch(3), id).unwrap();
    let second = cache.get(Epoch(3), id).unwrap();
    let third = cache.get(Epoch(3), id).unwrap();
    assert_eq!(first, second);
    assert_eq!(second, third);
}

#[test]
fn oversize_allocation_fails() {
    let mut cache = ImageCache::new(64);
    assert!(cache.allocate(Epoch(0), req(65, 10, true)).is_none());
    assert!(cache.allocate(Epoch(0), req(10, 65, true)).is_none());
    // The boundary size itself fits.
    assert!(cache.allocate(Epoch(0), req(64, 64, true)).is_some());
}

#[test]
fn second_allocation_never_fails() {
    // Two images that together exceed one page each fit individually: the
    // second allocation reuses evicted space or opens a new page.
    let mut cache = ImageCache::new(64);
    let a = cache.allocate(Epoch(0), req(64, 64, true)).unwrap();
    let b = cache.allocate(Epoch(0), req(48, 48, true)).unwrap();
    let la = cache.get(Epoch(0), a).unwrap();
    let lb = cache.get(Epoch(0), b).unwrap();
    assert_eq!(la.max.0 - la.min.0, 64);
    assert_eq!(lb.max.0 - lb.min.0, 48);
    assert!(cache.is_valid(a));
    assert!(cache.is_valid(b));
}

#[test]
fn stale_evictable_image_is_reclaimed() {
    let mut cache = ImageCache::new(64);
    // Fills the whole page at epoch 0 and is never requeried.
    let old_img = cache.allocate(Epoch(0), req(64, 64, true)).unwrap();
    assert!(cache.is_valid(old_img));
    // More than the retention window (8 frames) later, an allocation under
    // pressure reclaims its slot.
    let fresh = cache.allocate(Epoch(10), req(64, 64, true)).unwrap();
    assert!(cache.is_valid(fresh));
    assert!(!cache.is_valid(old_img));
    assert!(cache.get(Epoch(10), old_img).is_none());
}

#[test]
fn non_evictable_image_survives_pressure() {
    let mut cache = ImageCache::new(64);
    let keep = cache.allocate(Epoch(0), req(64, 64, false)).unwrap();
    // Far past the retention window, the allocator must not reclaim it.
    let other = cache.allocate(Epoch(20), req(64, 64, true)).unwrap();
    assert!(cache.is_valid(keep));
    assert!(cache.is_valid(other));
}

#[test]
fn deallocate_frees_slot() {
    let mut cache = ImageCache::new(64);
    let id = cache.allocate(Epoch(0), req(32, 32, true)).unwrap();
    assert!(cache.deallocate(id).is_some());
    assert!(!cache.is_valid(id));
    assert!(cache.deallocate(id).is_none());
    assert!(cache.get(Epoch(0), id).is_none());
}

#[test]
fn events_create_before_update() {
    let mut cache = ImageCache::new(128);
    let pixels: Vec<u8> = (0..16u8).collect();
    let id = cache
        .allocate(
            Epoch(0),
            AddImage {
                format: PixelFormat::Rgba8,
                width: 2,
                height: 2,
                has_alpha: true,
                evictable: true,
                data: ImageData::Borrowed(&pixels),
            },
        )
        .unwrap();
    assert!(cache.is_valid(id));
    let events = cache.drain_events();
    assert_eq!(events.len(), 2);
    match &events[0] {
        TextureEvent::CreateTexture { width, height, .. } => {
            assert_eq!(*width, 128);
            assert_eq!(*height, 128);
        }
        _ => panic!("first event must create the page"),
    }
    match &events[1] {
        TextureEvent::UpdateTexture { width, height, data, .. } => {
            assert_eq!(*width, 2);
            assert_eq!(*height, 2);
            assert_eq!(data.as_slice(), pixels.as_slice());
        }
        _ => panic!("second event must upload the pixels"),
    }
    // Delivered exactly once.
    assert!(cache.drain_events().is_empty());
}
