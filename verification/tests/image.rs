use twitter_client::image::{
    cleanup, finish_decode, get_context, is_lossless_jpeg, load_image_async, Download, ImageCache,
    Key, LoadContext, LoadingStatus, PixelBuffer, TextureId, ToUIImage, LOSSLESS_REFUSED,
    STALE_AFTER_MS,
};

fn key(url: &str) -> Key {
    Key::Https(String::from(url))
}

/// A PNG of two pixels in a row, the first red, the second green.
fn two_pixel_png() -> Vec<u8> {
    vec![
        137, 80, 78, 71, 13, 10, 26, 10, 0, 0, 0, 13, 73, 72, 68, 82, 0, 0, 0, 2, 0, 0, 0, 1, 8,
        2, 0, 0, 0, 123, 64, 232, 221, 0, 0, 0, 15, 73, 68, 65, 84, 120, 156, 99, 248, 207, 192,
        192, 240, 159, 1, 0, 7, 255, 1, 255, 1, 127, 137, 167, 0, 0, 0, 0, 73, 69, 78, 68, 174,
        66, 96, 130,
    ]
}

fn loader_of(holds: (LoadContext, Option<LoadContext>)) -> (LoadContext, LoadContext) {
    match holds {
        (mine, Some(loader)) => (mine, loader),
        (_, None) => panic!("the first request starts the fetch"),
    }
}

#[test]
fn new_cache_is_empty() {
    let cache = ImageCache::new();
    assert_eq!(cache.len(), 0);
    assert_eq!(cache.holders(&key("a")), None);
}

#[test]
fn first_request_creates_a_loading_entry() {
    let mut cache = ImageCache::new();
    let (mine, loader) = loader_of(get_context(&mut cache, key("a"), 5));
    assert_eq!(cache.len(), 1);
    assert_eq!(cache.holders(&key("a")), Some(3));
    assert!(mine.get_key().same(&key("a")));
    assert!(loader.get_key().same(&key("a")));
    assert_eq!(mine.get_texture_id(&mut cache, 6), None);
    assert_eq!(mine.get_error(&mut cache, 6), None);
}

#[test]
fn second_request_starts_no_second_fetch() {
    let mut cache = ImageCache::new();
    let (first, loader) = loader_of(get_context(&mut cache, key("a"), 5));
    let (second, again) = get_context(&mut cache, key("a"), 6);
    assert!(again.is_none());
    assert_eq!(cache.len(), 1);
    assert_eq!(cache.holders(&key("a")), Some(4));

    let ready = load_image_async(&mut cache, loader, Download::Body(two_pixel_png()), 7);
    let ready = ready.expect("the image decodes");
    ready.finish_load(&mut cache, TextureId::User(42), 8);

    assert_eq!(first.get_texture_id(&mut cache, 9), Some(TextureId::User(42)));
    assert_eq!(second.get_texture_id(&mut cache, 9), Some(TextureId::User(42)));
    assert_eq!(first.get_error(&mut cache, 9), None);
    assert_eq!(cache.holders(&key("a")), Some(3));
}

#[test]
fn many_requests_start_one_fetch() {
    let mut cache = ImageCache::new();
    let mut fetches = 0;
    let mut holds = Vec::new();
    for now in 0..10u64 {
        let (mine, loader) = get_context(&mut cache, key("a"), now);
        if loader.is_some() {
            fetches += 1;
        }
        holds.push(mine);
        if let Some(loader) = loader {
            holds.push(loader);
        }
    }
    assert_eq!(fetches, 1);
    assert_eq!(cache.len(), 1);
    assert_eq!(cache.holders(&key("a")), Some(12));
    assert_eq!(holds.len(), 11);
}

#[test]
fn different_keys_get_different_entries() {
    let mut cache = ImageCache::new();
    let (_a, loader_a) = get_context(&mut cache, key("a"), 0);
    let (_b, loader_b) = get_context(&mut cache, key("b"), 0);
    assert!(loader_a.is_some());
    assert!(loader_b.is_some());
    assert_eq!(cache.len(), 2);
}

#[test]
fn failed_connection_is_stored_and_not_retried() {
    let mut cache = ImageCache::new();
    let (first, loader) = loader_of(get_context(&mut cache, key("a"), 0));
    let ready = load_image_async(
        &mut cache,
        loader,
        Download::NoConnection(String::from("timed out")),
        1,
    );
    assert!(ready.is_none());
    assert_eq!(
        first.get_error(&mut cache, 2),
        Some(String::from("Could not connect to server: timed out"))
    );
    assert_eq!(first.get_texture_id(&mut cache, 2), None);
    assert_eq!(cache.holders(&key("a")), Some(2));

    let (second, again) = get_context(&mut cache, key("a"), 3);
    assert!(again.is_none());
    assert_eq!(
        second.get_error(&mut cache, 4),
        Some(String::from("Could not connect to server: timed out"))
    );
    assert_eq!(cache.len(), 1);
}

#[test]
fn interrupted_download_is_stored() {
    let mut cache = ImageCache::new();
    let (mine, loader) = loader_of(get_context(&mut cache, key("a"), 0));
    let ready =
        load_image_async(&mut cache, loader, Download::Interrupted(String::from("reset")), 1);
    assert!(ready.is_none());
    assert_eq!(
        mine.get_error(&mut cache, 2),
        Some(String::from("Could not download image: reset"))
    );
}

#[test]
fn body_is_decoded_to_rgba() {
    let mut cache = ImageCache::new();
    let (mine, loader) = loader_of(get_context(&mut cache, key("a"), 0));
    let ready = load_image_async(&mut cache, loader, Download::Body(two_pixel_png()), 1);
    let ready = ready.expect("the image decodes");
    assert_eq!(ready.image.width, 2);
    assert_eq!(ready.image.height, 1);
    assert_eq!(ready.image.pixels, vec![255, 0, 0, 255, 0, 255, 0, 255]);
    assert!(ready.context.get_key().same(&key("a")));
    assert_eq!(mine.get_texture_id(&mut cache, 2), None);
    assert_eq!(mine.get_error(&mut cache, 2), None);
    assert_eq!(cache.holders(&key("a")), Some(3));
}

#[test]
fn body_that_is_no_image_is_a_decode_error() {
    let mut cache = ImageCache::new();
    let (mine, loader) = loader_of(get_context(&mut cache, key("a"), 0));
    let ready = load_image_async(&mut cache, loader, Download::Body(vec![1, 2, 3, 4]), 1);
    assert!(ready.is_none());
    let message = mine.get_error(&mut cache, 2).expect("the failure is stored");
    assert!(message.starts_with("Could not decode image: \""));
    assert!(message.ends_with('"'));
    assert!(message.len() > "Could not decode image: \"\"".len());
    assert_eq!(cache.holders(&key("a")), Some(2));
}

#[test]
fn truncated_png_is_a_decode_error() {
    let mut cache = ImageCache::new();
    let (mine, loader) = loader_of(get_context(&mut cache, key("a"), 0));
    let mut bytes = two_pixel_png();
    bytes.truncate(40);
    let ready = load_image_async(&mut cache, loader, Download::Body(bytes), 1);
    assert!(ready.is_none());
    let message = mine.get_error(&mut cache, 2).expect("the failure is stored");
    assert!(message.starts_with("Could not decode image: "));
}

#[test]
fn finish_decode_passes_an_image_on() {
    let mut cache = ImageCache::new();
    let (_mine, loader) = loader_of(get_context(&mut cache, key("a"), 0));
    let image = PixelBuffer { width: 1, height: 1, pixels: vec![1, 2, 3, 4] };
    let ready = finish_decode(&mut cache, loader, Ok(image), 1).expect("an image goes on");
    assert_eq!(ready.image.width, 1);
    assert_eq!(ready.image.height, 1);
    assert_eq!(ready.image.pixels, vec![1, 2, 3, 4]);
    assert_eq!(cache.holders(&key("a")), Some(3));
}

#[test]
fn finish_decode_stores_a_failure() {
    let mut cache = ImageCache::new();
    let (mine, loader) = loader_of(get_context(&mut cache, key("a"), 0));
    let ready = finish_decode(&mut cache, loader, Err(String::from("\"bad\"")), 1);
    assert!(ready.is_none());
    assert_eq!(
        mine.get_error(&mut cache, 2),
        Some(String::from("Could not decode image: \"bad\""))
    );
}

#[test]
fn an_outcome_is_final() {
    let mut cache = ImageCache::new();
    let (mine, loader) = loader_of(get_context(&mut cache, key("a"), 0));
    loader.set_error(&mut cache, String::from("first"), 1);
    loader.set_texture_id(&mut cache, TextureId::User(1), 2);
    loader.set_error(&mut cache, String::from("second"), 3);
    assert_eq!(mine.get_error(&mut cache, 4), Some(String::from("first")));
    assert_eq!(mine.get_texture_id(&mut cache, 4), None);
}

#[test]
fn sweep_keeps_entries_that_are_held() {
    let mut cache = ImageCache::new();
    let (mine, loader) = loader_of(get_context(&mut cache, key("a"), 0));
    loader.release(&mut cache);
    assert_eq!(cache.holders(&key("a")), Some(2));
    let freed = cleanup(&mut cache, 1_000_000);
    assert!(freed.is_empty());
    assert_eq!(cache.len(), 1);
    assert_eq!(cache.holders(&key("a")), Some(2));
    mine.release(&mut cache);
    assert_eq!(cache.holders(&key("a")), Some(1));
}

#[test]
fn sweep_keeps_entries_that_are_fresh() {
    let mut cache = ImageCache::new();
    let (mine, loader) = loader_of(get_context(&mut cache, key("a"), 1000));
    loader.release(&mut cache);
    mine.release(&mut cache);
    let freed = cleanup(&mut cache, 1000 + STALE_AFTER_MS);
    assert!(freed.is_empty());
    assert_eq!(cache.len(), 1);
    let freed = cleanup(&mut cache, 500);
    assert!(freed.is_empty());
    assert_eq!(cache.len(), 1);
}

#[test]
fn sweep_takes_stale_entries_that_nobody_holds() {
    let mut cache = ImageCache::new();
    let (mine, loader) = loader_of(get_context(&mut cache, key("a"), 1000));
    loader.release(&mut cache);
    mine.release(&mut cache);
    let freed = cleanup(&mut cache, 1000 + STALE_AFTER_MS + 1);
    assert!(freed.is_empty());
    assert_eq!(cache.len(), 0);
    let (_mine, loader) = get_context(&mut cache, key("a"), 70_000);
    assert!(loader.is_some());
}

#[test]
fn sweep_names_the_textures_to_free() {
    let mut cache = ImageCache::new();
    let (a, loader_a) = loader_of(get_context(&mut cache, key("a"), 0));
    let (b, loader_b) = loader_of(get_context(&mut cache, key("b"), 0));
    let (c, loader_c) = loader_of(get_context(&mut cache, key("c"), 0));
    let (d, loader_d) = loader_of(get_context(&mut cache, key("d"), 0));
    let image = || PixelBuffer { width: 1, height: 1, pixels: vec![0, 0, 0, 0] };
    ToUIImage { context: loader_a, image: image() }.finish_load(&mut cache, TextureId::User(1), 10);
    ToUIImage { context: loader_b, image: image() }.finish_load(&mut cache, TextureId::User(2), 10);
    loader_c.set_error(&mut cache, String::from("broken"), 10);
    loader_c.release(&mut cache);
    ToUIImage { context: loader_d, image: image() }.finish_load(&mut cache, TextureId::User(4), 10);
    a.release(&mut cache);
    c.release(&mut cache);
    d.release(&mut cache);
    assert_eq!(b.get_texture_id(&mut cache, 10), Some(TextureId::User(2)));

    let freed = cleanup(&mut cache, 10 + STALE_AFTER_MS + 1);
    assert_eq!(freed, vec![TextureId::User(1), TextureId::User(4)]);
    assert_eq!(cache.len(), 1);
    assert_eq!(cache.holders(&key("b")), Some(2));
    assert_eq!(cache.holders(&key("a")), None);
    assert_eq!(cache.holders(&key("c")), None);
    assert_eq!(cache.holders(&key("d")), None);
}

#[test]
fn looking_at_an_entry_keeps_it_fresh() {
    let mut cache = ImageCache::new();
    let (mine, loader) = loader_of(get_context(&mut cache, key("a"), 0));
    loader.release(&mut cache);
    assert_eq!(mine.get_error(&mut cache, 50_000), None);
    mine.release(&mut cache);
    let freed = cleanup(&mut cache, 100_000);
    assert!(freed.is_empty());
    assert_eq!(cache.len(), 1);
    let freed = cleanup(&mut cache, 110_001);
    assert!(freed.is_empty());
    assert_eq!(cache.len(), 0);
}

#[test]
fn release_leaves_the_hold_of_the_table() {
    let mut cache = ImageCache::new();
    let (mine, loader) = loader_of(get_context(&mut cache, key("a"), 0));
    let extra = cache.share(&mine);
    assert_eq!(cache.holders(&key("a")), Some(4));
    extra.release(&mut cache);
    loader.release(&mut cache);
    mine.release(&mut cache);
    assert_eq!(cache.holders(&key("a")), Some(1));
}

#[test]
fn status_accessors() {
    assert!(LoadingStatus::Loading.is_loading());
    assert!(!LoadingStatus::Loaded(TextureId::Egui).is_loading());
    assert_eq!(LoadingStatus::Loaded(TextureId::User(3)).as_texture(), Some(TextureId::User(3)));
    assert_eq!(LoadingStatus::Loading.as_texture(), None);
    assert_eq!(LoadingStatus::Error(String::from("e")).as_texture(), None);
    assert_eq!(LoadingStatus::Error(String::from("e")).as_error(), Some(String::from("e")));
    assert_eq!(LoadingStatus::Loading.as_error(), None);
    assert_eq!(LoadingStatus::Loaded(TextureId::Egui).as_error(), None);
}

#[test]
fn keys_compare_by_url() {
    assert!(key("https://a").same(&key("https://a")));
    assert!(!key("https://a").same(&key("https://b")));
    assert!(key("x").clone().same(&key("x")));
}

#[test]
fn table_agrees_with_a_map_of_counts() {
    let mut seed: u64 = 0x9E37_79B9_7F4A_7C15;
    let mut next = move || {
        seed ^= seed << 13;
        seed ^= seed >> 7;
        seed ^= seed << 17;
        seed
    };
    let mut cache = ImageCache::new();
    let mut held: Vec<LoadContext> = Vec::new();
    let mut counts: std::collections::HashMap<String, u64> = std::collections::HashMap::new();
    let mut fetches: std::collections::HashMap<String, u32> = std::collections::HashMap::new();
    for step in 0..300u64 {
        let url = format!("https://example.org/{}", next() % 7);
        if next() % 3 != 0 || held.is_empty() {
            let (mine, loader) = get_context(&mut cache, key(&url), step);
            let count = counts.entry(url.clone()).or_insert(1);
            *count += 1;
            held.push(mine);
            if let Some(loader) = loader {
                *count += 1;
                *fetches.entry(url.clone()).or_insert(0) += 1;
                held.push(loader);
            }
        } else {
            let at = (next() as usize) % held.len();
            let context = held.swap_remove(at);
            let name = match context.get_key() {
                Key::Https(url) => url.clone(),
            };
            context.release(&mut cache);
            *counts.get_mut(&name).expect("a hold has an entry") -= 1;
        }
        for (url, count) in &counts {
            assert_eq!(cache.holders(&key(url)), Some(*count));
        }
        assert_eq!(cache.len(), counts.len());
    }
    for (_, started) in &fetches {
        assert_eq!(*started, 1);
    }
}

#[test]
fn all_holders_read_the_texture_that_was_loaded() {
    let mut cache = ImageCache::new();
    let mut holds = Vec::new();
    let mut loaders = Vec::new();
    for now in 0..25u64 {
        let (mine, loader) = get_context(&mut cache, key("a"), now);
        holds.push(mine);
        loaders.extend(loader);
    }
    assert_eq!(loaders.len(), 1);
    assert_eq!(cache.len(), 1);
    for hold in &holds {
        assert_eq!(hold.get_texture_id(&mut cache, 30), None);
        assert_eq!(hold.get_error(&mut cache, 30), None);
    }
    let loader = loaders.pop().expect("one fetch was started");
    let ready = load_image_async(&mut cache, loader, Download::Body(two_pixel_png()), 40)
        .expect("the image decodes");
    ready.finish_load(&mut cache, TextureId::User(7), 41);
    let (late, again) = get_context(&mut cache, key("a"), 42);
    assert!(again.is_none());
    holds.push(late);
    for (at, hold) in holds.iter().enumerate().rev() {
        assert_eq!(hold.get_texture_id(&mut cache, 50 + at as u64), Some(TextureId::User(7)));
        assert_eq!(hold.get_error(&mut cache, 50 + at as u64), None);
    }
    assert_eq!(cache.holders(&key("a")), Some(27));
}

#[test]
fn all_holders_read_the_failure_that_was_stored() {
    let mut cache = ImageCache::new();
    let mut holds = Vec::new();
    let mut loaders = Vec::new();
    for now in 0..10u64 {
        let (mine, loader) = get_context(&mut cache, key("a"), now);
        holds.push(mine);
        loaders.extend(loader);
        let (_other, other_loader) = get_context(&mut cache, key("b"), now);
        if let Some(other_loader) = other_loader {
            other_loader.set_texture_id(&mut cache, TextureId::User(1), now);
        }
    }
    assert_eq!(loaders.len(), 1);
    let loader = loaders.pop().expect("one fetch was started");
    let ready =
        load_image_async(&mut cache, loader, Download::Interrupted(String::from("reset")), 20);
    assert!(ready.is_none());
    for hold in &holds {
        assert_eq!(
            hold.get_error(&mut cache, 30),
            Some(String::from("Could not download image: reset"))
        );
        assert_eq!(hold.get_texture_id(&mut cache, 30), None);
    }
}

#[test]
fn lossless_jpeg_is_refused_before_it_is_decoded() {
    let mut cache = ImageCache::new();
    let (mine, loader) = loader_of(get_context(&mut cache, key("a"), 0));
    let body = vec![0xFF, 0xD8, 0xFF, 0xC3, 0x00, 0x0B, 0x0C, 0x00, 0x01, 0x00, 0x01, 0x03];
    let ready = load_image_async(&mut cache, loader, Download::Body(body), 1);
    assert!(ready.is_none());
    assert_eq!(
        mine.get_error(&mut cache, 2),
        Some(String::from("Could not decode image: \"Lossless JPEG is not supported\""))
    );
    assert_eq!(LOSSLESS_REFUSED, "\"Lossless JPEG is not supported\"");
    assert_eq!(cache.holders(&key("a")), Some(2));
}

#[test]
fn lossless_marker_is_found_anywhere_in_a_jpeg() {
    assert!(is_lossless_jpeg(&vec![0xFF, 0xD8, 0xFF, 0xC3]));
    assert!(is_lossless_jpeg(&vec![0xFF, 0xD8, 0xFF, 0xE0, 0x00, 0x02, 0xFF, 0xC3, 0x00]));
    assert!(is_lossless_jpeg(&vec![0xFF, 0xD8, 0xFF, 0xFF, 0xFF, 0xC3]));
    assert!(is_lossless_jpeg(&vec![0xFF, 0xD8, 0xFF, 0xE0, 0x00, 0xFF, 0xC3]));
}

#[test]
fn other_bodies_are_no_lossless_jpeg() {
    assert!(!is_lossless_jpeg(&vec![]));
    assert!(!is_lossless_jpeg(&vec![0xFF]));
    assert!(!is_lossless_jpeg(&vec![0xFF, 0xD8]));
    assert!(!is_lossless_jpeg(&vec![0xFF, 0xD8, 0xFF]));
    assert!(!is_lossless_jpeg(&vec![0xFF, 0xD8, 0xFF, 0xC0, 0x00, 0x0B]));
    assert!(!is_lossless_jpeg(&vec![0xFF, 0xD8, 0xFF, 0xE0, 0xC3, 0xFF]));
    assert!(!is_lossless_jpeg(&vec![0xFF, 0xD8, 0xFF, 0xE0, 0xFF, 0x00, 0xC3]));
    assert!(!is_lossless_jpeg(&vec![0xFF, 0xC3, 0xFF, 0xD8, 0xFF]));
    assert!(!is_lossless_jpeg(&vec![0x89, 0x50, 0x4E, 0x47, 0xFF, 0xC3]));
    assert!(!is_lossless_jpeg(&two_pixel_png()));
}
