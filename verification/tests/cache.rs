use zeroclaw_sticker::json::{parse_json, JsonValue};
use zeroclaw_sticker::cache::{ResolvedSticker, StickerSetCache, StickerSetCacheKey, STICKER_SET_CACHE_CAPACITY};
use zeroclaw_sticker::config::TelegramStickerConfig;

use sha2::{Digest, Sha256};

#[test]
fn sticker_set_cache_is_bounded_and_refreshes_recency() {
    let mut cache = StickerSetCache::default();
    let cache_key = |set_name: String| StickerSetCacheKey {
        api_base_url: "https://api.telegram.org".into(),
        bot_token_fingerprint: "test-token-fingerprint".into(),
        set_name,
    };
    for index in 0..STICKER_SET_CACHE_CAPACITY {
        cache.insert(cache_key(format!("set-{index}")), Vec::new());
    }

    assert!(cache.get(&cache_key("set-0".into())).is_some());
    cache.insert(cache_key("newest".into()), Vec::new());

    assert_eq!(cache.len(), STICKER_SET_CACHE_CAPACITY);
    assert!(cache.contains_key(&cache_key("set-0".into())));
    assert!(!cache.contains_key(&cache_key("set-1".into())));
    assert!(cache.contains_key(&cache_key("newest".into())));
}

#[test]
fn sticker_set_cache_does_not_share_file_ids_between_bots() {
    let mut cache = StickerSetCache::default();
    let first = TelegramStickerConfig {
        bot_token: "first-token".into(),
        api_base_url: "https://api.telegram.org".into(),
        proxy_url: None,
        sticker_sets: vec!["mood_pack".into()],
    };
    let second = TelegramStickerConfig {
        bot_token: "second-token".into(),
        ..first.clone()
    };
    let first_key = StickerSetCacheKey::from_config(&first, "mood_pack");
    let second_key = StickerSetCacheKey::from_config(&second, "mood_pack");

    cache.insert(first_key.clone(), Vec::new());

    assert!(cache.get(&first_key).is_some());
    assert!(cache.get(&second_key).is_none());
}

fn key(set_name: &str) -> StickerSetCacheKey {
    StickerSetCacheKey {
        api_base_url: "https://api.telegram.org".into(),
        bot_token_fingerprint: "fp".into(),
        set_name: set_name.into(),
    }
}

fn sticker(emoji: &str, file_id: &str) -> ResolvedSticker {
    ResolvedSticker { emoji: emoji.into(), file_id: file_id.into() }
}

#[test]
fn cache_key_fingerprint_is_lowercase_sha256_hex_of_the_token() {
    let config = TelegramStickerConfig {
        bot_token: "test-token".into(),
        api_base_url: "https://api.telegram.org".into(),
        proxy_url: None,
        sticker_sets: vec![],
    };
    let k = StickerSetCacheKey::from_config(&config, "mood_pack");
    let expected = format!("{:x}", Sha256::digest("test-token".as_bytes()));
    assert_eq!(k.bot_token_fingerprint, expected);
    assert_eq!(k.bot_token_fingerprint.len(), 64);
    assert_ne!(k.bot_token_fingerprint, "test-token");
    assert_eq!(k.api_base_url, "https://api.telegram.org");
    assert_eq!(k.set_name, "mood_pack");
    // SHA-256 of the empty string, a published value.
    let empty = TelegramStickerConfig { bot_token: String::new(), ..config.clone() };
    assert_eq!(
        StickerSetCacheKey::from_config(&empty, "x").bot_token_fingerprint,
        "e3b0c44298fc1c149afbf4c8996fb92427ae41e4649b934ca495991b7852b855"
    );
}

#[test]
fn cache_read_after_write_returns_the_stored_stickers() {
    let mut cache = StickerSetCache::new();
    cache.insert(key("a"), vec![sticker("🔥", "id-1")]);
    cache.insert(key("a"), vec![sticker("😀", "id-2"), sticker("🔥", "id-3")]);
    assert_eq!(cache.len(), 1);
    let got = cache.get(&key("a")).expect("stored set");
    assert_eq!(got.len(), 2);
    assert_eq!(got[0].emoji, "😀");
    assert_eq!(got[1].file_id, "id-3");
    assert!(cache.get(&key("b")).is_none());
}

#[test]
fn full_cache_evicts_the_least_recently_used_set() {
    let mut cache = StickerSetCache::new();
    for index in 0..STICKER_SET_CACHE_CAPACITY {
        cache.insert(key(&format!("s{index}")), Vec::new());
    }
    // Re-storing an existing key refreshes it without evicting anything.
    cache.insert(key("s0"), Vec::new());
    assert_eq!(cache.len(), STICKER_SET_CACHE_CAPACITY);
    cache.insert(key("extra"), Vec::new());
    assert_eq!(cache.len(), STICKER_SET_CACHE_CAPACITY);
    assert!(cache.contains_key(&key("s0")));
    assert!(!cache.contains_key(&key("s1")));
    assert!(cache.contains_key(&key("s2")));
    assert!(cache.contains_key(&key("extra")));
}

#[test]
fn touch_makes_a_cached_set_the_most_recent() {
    let mut cache = StickerSetCache::new();
    for index in 0..STICKER_SET_CACHE_CAPACITY {
        cache.insert(key(&format!("t{index}")), Vec::new());
    }
    cache.touch(&key("t0"));
    cache.insert(key("later"), Vec::new());
    assert!(cache.contains_key(&key("t0")));
    assert!(!cache.contains_key(&key("t1")));
}

#[test]
fn parse_json_reads_text_and_refuses_invalid_json() {
    let v = parse_json(r#"{"ok": true, "result": {"stickers": []}}"#).expect("valid JSON");
    assert!(matches!(v.get("ok"), Some(JsonValue::Bool(true))));
    assert_eq!(v.get("result").and_then(|r| r.get("stickers")).and_then(|s| s.as_array()).map(|a| a.len()), Some(0));
    assert!(parse_json("{\"ok\": tru").is_none());
    assert!(parse_json("").is_none());
}
