use std::cell::Cell;
use std::sync::Arc;

use texted::{ContentCache, Duration, Expire};

#[test]
fn test_content_cache_new() {
    let cache: ContentCache<String> = ContentCache::new();
    assert!(cache.is_caching());
}

#[test]
fn test_content_cache_non_caching() {
    let cache: ContentCache<String> = ContentCache::non_caching();
    assert!(!cache.is_caching());
}

#[test]
fn test_add_and_get_post_never_expires() {
    let mut cache = ContentCache::new();
    let content = "Hello, world!".to_string();
    let link = "test-post";

    let cached_content = cache.add_post(link, content.clone(), Expire::Never);
    assert_eq!(Arc::strong_count(&cached_content), 2);

    let retrieved_content = cache.get_post(link).unwrap();
    assert_eq!(retrieved_content.as_ref(), &content);
}

#[test]
fn test_add_and_get_page() {
    let mut cache = ContentCache::new();
    let content = "Page content".to_string();
    let link = "test-page";

    let cached_content = cache.add_page(link, content.clone(), Expire::Never);
    assert_eq!(Arc::strong_count(&cached_content), 2);

    let retrieved_content = cache.get_page(link).unwrap();
    assert_eq!(retrieved_content.as_ref(), &content);
}

#[test]
fn test_get_nonexistent_key() {
    let cache: ContentCache<String> = ContentCache::new();
    assert!(cache.get("nonexistent-key").is_none());
}

#[test]
fn test_non_caching_behavior() {
    let mut cache: ContentCache<String> = ContentCache::non_caching();
    let content = "Non-cached content".to_string();
    let link = "non-cached-post";

    let cached_content = cache.add_post(link, content.clone(), Expire::Never);
    assert_eq!(Arc::strong_count(&cached_content), 1);

    assert!(cache.get_post(link).is_none());
}

#[test]
fn expiry_follows_the_clock_given() {
    let mut cache = ContentCache::new();
    let stored = cache.add_at("post-a".to_string(), 5u32, Expire::After(Duration::milliseconds(100)), 1_000);
    assert_eq!(*stored, 5);
    assert_eq!(cache.get_at("post-a", 1_000).map(|v| *v), Some(5));
    assert_eq!(cache.get_at("post-a", 1_100).map(|v| *v), Some(5));
    assert!(cache.get_at("post-a", 1_101).is_none());
    assert!(cache.get_at("post-b", 1_000).is_none());
}

#[test]
fn post_and_page_keys_are_apart() {
    let mut cache = ContentCache::new();
    cache.add_post("x", 1u32, Expire::Never);
    cache.add_page("x", 2u32, Expire::Never);
    assert_eq!(cache.get_post("x").map(|v| *v), Some(1));
    assert_eq!(cache.get_page("x").map(|v| *v), Some(2));
    assert_eq!(cache.get("post-x").map(|v| *v), Some(1));
}

#[test]
fn later_add_replaces_earlier() {
    let mut cache = ContentCache::new();
    let first = cache.add_at("k".to_string(), 1u32, Expire::Never, 0);
    cache.add_at("k".to_string(), 2u32, Expire::Never, 1);
    assert_eq!(*first, 1);
    assert_eq!(cache.get_at("k", 2).map(|v| *v), Some(2));
    assert_eq!(Arc::strong_count(&first), 1);
}

#[test]
fn get_or_runs_generator_once_while_fresh() {
    let calls = Cell::new(0u32);
    let mut cache: ContentCache<String> = ContentCache::new();
    let gen = || -> Result<String, String> {
        calls.set(calls.get() + 1);
        Ok("rendered".to_string())
    };
    let a = cache.get_or_at("post-k", Expire::Never, 10, gen).unwrap();
    let b = cache.get_or_at("post-k", Expire::Never, 99_999, gen).unwrap();
    assert_eq!(calls.get(), 1);
    assert_eq!(*a, "rendered");
    assert_eq!(*b, "rendered");
}

#[test]
fn get_or_runs_generator_again_after_ttl() {
    let calls = Cell::new(0u32);
    let mut cache: ContentCache<String> = ContentCache::new();
    let gen = || -> Result<String, String> {
        calls.set(calls.get() + 1);
        Ok(format!("v{}", calls.get()))
    };
    let ttl = Expire::After(Duration::milliseconds(100));
    assert_eq!(*cache.get_or_at("k", ttl, 0, gen).unwrap(), "v1");
    assert_eq!(*cache.get_or_at("k", ttl, 50, gen).unwrap(), "v1");
    assert_eq!(calls.get(), 1);
    assert_eq!(*cache.get_or_at("k", ttl, 101, gen).unwrap(), "v2");
    assert_eq!(calls.get(), 2);
}

#[test]
fn get_or_failure_stores_nothing() {
    let mut cache: ContentCache<String> = ContentCache::new();
    let r = cache.get_or_at("k", Expire::Never, 0, || -> Result<String, String> { Err("boom".to_string()) });
    assert_eq!(r, Err("boom".to_string()));
    assert!(cache.get_at("k", 0).is_none());
}

#[test]
fn non_caching_never_returns_values() {
    let calls = Cell::new(0u32);
    let mut cache: ContentCache<u32> = ContentCache::non_caching();
    cache.add_at("k".to_string(), 1, Expire::Never, 0);
    cache.add("k".to_string(), 2, Expire::Never);
    assert!(cache.get_at("k", 0).is_none());
    assert!(cache.get("k").is_none());
    let gen = || -> Result<u32, String> {
        calls.set(calls.get() + 1);
        Ok(3)
    };
    cache.get_or_at("k", Expire::Never, 0, gen).unwrap();
    cache.get_or("k", Expire::Never, gen).unwrap();
    assert_eq!(calls.get(), 2);
}
