use roextract::image_cache::{
    begin_frame_textures, clear_image_cache, get_cached_texture, mark_texture_used, max_textures_for_preview,
    preview_max_dimension, texture_bytes, ImageCache, DEFAULT_PREVIEW_SIZE, TEXTURE_VRAM_BUDGET,
};

/// Two frame boundaries release every pin.
fn release_pins(cache: &mut ImageCache<u32>) {
    cache.begin_frame();
    cache.begin_frame();
}

#[test]
fn preview_edge_is_twice_the_size_at_least_256() {
    assert_eq!(preview_max_dimension(128), 256);
    assert_eq!(preview_max_dimension(100), 256);
    assert_eq!(preview_max_dimension(200), 400);
    assert_eq!(preview_max_dimension(0), 256);
}

#[test]
fn texture_bytes_are_rgba() {
    assert_eq!(texture_bytes(256), 262144);
    assert_eq!(texture_bytes(1), 4);
    assert_eq!(texture_bytes(0), 0);
}

#[test]
fn texture_count_fits_the_budget() {
    assert_eq!(TEXTURE_VRAM_BUDGET, 64 * 1024 * 1024);
    assert_eq!(max_textures_for_preview(DEFAULT_PREVIEW_SIZE), 256);
    assert_eq!(max_textures_for_preview(300), 46);
    assert_eq!(max_textures_for_preview(1024), 16);
    assert_eq!(max_textures_for_preview(4096), 16);
    assert_eq!(max_textures_for_preview(16383), 16);
}

#[test]
fn cache_returns_inserted_texture() {
    let mut cache: ImageCache<u32> = ImageCache::new();
    assert_eq!(cache.get("a"), None);
    cache.insert("a".to_string(), 7, 4);
    assert_eq!(cache.get("a"), Some(7));
    assert_eq!(get_cached_texture(&mut cache, "a"), Some(7));
}

#[test]
fn insert_replaces_texture_of_same_id() {
    let mut cache: ImageCache<u32> = ImageCache::new();
    cache.insert("a".to_string(), 1, 4);
    cache.insert("a".to_string(), 2, 4);
    assert_eq!(cache.get("a"), Some(2));
}

#[test]
fn inserted_texture_is_pinned_until_two_frames_pass() {
    let mut cache: ImageCache<u32> = ImageCache::new();
    cache.insert("a".to_string(), 1, 4);
    assert!(cache.is_pinned(&"a".to_string()));
    cache.begin_frame();
    assert!(cache.is_pinned(&"a".to_string()));
    cache.begin_frame();
    assert!(!cache.is_pinned(&"a".to_string()));
}

#[test]
fn insert_evicts_least_recently_used_unpinned() {
    let mut cache: ImageCache<u32> = ImageCache::new();
    cache.insert("a".to_string(), 1, 2);
    release_pins(&mut cache);
    cache.insert("b".to_string(), 2, 2);
    release_pins(&mut cache);
    cache.insert("c".to_string(), 3, 2);
    assert_eq!(cache.get("a"), None);
    assert_eq!(cache.get("b"), Some(2));
    assert_eq!(cache.get("c"), Some(3));
}

#[test]
fn lookup_makes_texture_newest() {
    let mut cache: ImageCache<u32> = ImageCache::new();
    cache.insert("a".to_string(), 1, 2);
    release_pins(&mut cache);
    cache.insert("b".to_string(), 2, 2);
    release_pins(&mut cache);
    // "a" becomes the most recently used, so "b" is evicted instead.
    assert_eq!(cache.get("a"), Some(1));
    cache.insert("c".to_string(), 3, 2);
    assert_eq!(cache.get("b"), None);
    assert_eq!(cache.get("a"), Some(1));
    assert_eq!(cache.get("c"), Some(3));
}

#[test]
fn painted_texture_is_never_evicted() {
    let mut cache: ImageCache<u32> = ImageCache::new();
    cache.insert("a".to_string(), 1, 1);
    release_pins(&mut cache);
    mark_texture_used(&mut cache, "a");
    cache.insert("b".to_string(), 2, 1);
    // Both are pinned: the cache goes over its limit rather than drop one.
    assert_eq!(cache.get("a"), Some(1));
    assert_eq!(cache.get("b"), Some(2));
}

#[test]
fn pin_survives_one_frame_boundary() {
    let mut cache: ImageCache<u32> = ImageCache::new();
    cache.insert("a".to_string(), 1, 1);
    release_pins(&mut cache);
    cache.mark_used("a");
    begin_frame_textures(&mut cache);
    cache.insert("b".to_string(), 2, 1);
    assert_eq!(cache.get("a"), Some(1));
}

#[test]
fn unpainted_texture_is_evicted_after_two_frames() {
    let mut cache: ImageCache<u32> = ImageCache::new();
    cache.insert("a".to_string(), 1, 1);
    release_pins(&mut cache);
    cache.mark_used("a");
    release_pins(&mut cache);
    cache.insert("b".to_string(), 2, 1);
    assert_eq!(cache.get("a"), None);
    assert_eq!(cache.get("b"), Some(2));
}

#[test]
fn newer_unpainted_entries_outlive_older_ones() {
    let mut cache: ImageCache<u32> = ImageCache::new();
    for (i, id) in ["a", "b", "c", "d"].iter().enumerate() {
        cache.insert(id.to_string(), i as u32, 10);
    }
    release_pins(&mut cache);
    cache.insert("e".to_string(), 4, 2);
    assert_eq!(cache.get("a"), None);
    assert_eq!(cache.get("b"), None);
    assert_eq!(cache.get("c"), None);
    assert_eq!(cache.get("d"), Some(3));
    assert_eq!(cache.get("e"), Some(4));
}

#[test]
fn clear_drops_everything() {
    let mut cache: ImageCache<u32> = ImageCache::new();
    cache.insert("a".to_string(), 1, 4);
    cache.mark_used("b");
    clear_image_cache(&mut cache);
    assert_eq!(cache.get("a"), None);
    assert!(!cache.is_pinned(&"a".to_string()));
    assert!(!cache.is_pinned(&"b".to_string()));
}

#[test]
fn reinserting_keeps_one_entry_per_id() {
    let mut cache: ImageCache<u32> = ImageCache::new();
    cache.insert("a".to_string(), 1, 2);
    cache.insert("b".to_string(), 2, 2);
    cache.insert("a".to_string(), 3, 2);
    release_pins(&mut cache);
    cache.insert("c".to_string(), 4, 2);
    // "b" is now the oldest; a single "a" remains, with its newest texture.
    assert_eq!(cache.get("b"), None);
    assert_eq!(cache.get("a"), Some(3));
    assert_eq!(cache.get("c"), Some(4));
}

#[test]
fn larger_previews_allow_no_more_textures() {
    let mut last = usize::MAX;
    for size in [0u32, 64, 128, 129, 200, 256, 300, 512, 1024, 4096] {
        let count = max_textures_for_preview(size);
        assert!((16..=256).contains(&count));
        assert!(count <= last);
        last = count;
    }
}
