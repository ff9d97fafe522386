use downloader::cache::SizeCache;
use downloader::model::Model;
use downloader::queue::{model_sort_size, queue_size_key, sort_by_size};

fn sample_model(size: u64, url: &str) -> Model {
    Model {
        category: "test".to_string(),
        filename: "model.safetensors".to_string(),
        url: url.to_string(),
        size_bytes: size,
        sha256: None,
        group: "test-group".to_string(),
        notes: String::new(),
    }
}

#[test]
fn model_sort_size_uses_model_size_when_positive() {
    let m = sample_model(1024, "https://example.com/model");
    let cache = SizeCache::new();
    assert_eq!(model_sort_size(&m, &cache), 1024);
}

#[test]
fn model_sort_size_uses_cache_when_model_size_zero() {
    let m = sample_model(0, "https://example.com/model");
    let mut cache = SizeCache::new();
    cache.record_size("https://example.com/model".to_string(), 2048);
    assert_eq!(model_sort_size(&m, &cache), 2048);
}

#[test]
fn model_sort_size_returns_max_for_unknown_size() {
    let m = sample_model(0, "https://example.com/model");
    let cache = SizeCache::new();
    assert_eq!(model_sort_size(&m, &cache), u64::MAX);
}

#[test]
fn model_sort_size_prefers_model_size_over_cache() {
    let m = sample_model(4096, "https://example.com/model");
    let mut cache = SizeCache::new();
    cache.record_size("https://example.com/model".to_string(), 2048);
    assert_eq!(model_sort_size(&m, &cache), 4096);
}

#[test]
fn cache_read_back_and_overwrite() {
    let mut cache = SizeCache::new();
    assert_eq!(cache.get_size("u"), None);
    cache.record_size("u".to_string(), 5);
    cache.record_size("v".to_string(), 6);
    assert_eq!(cache.get_size("u"), Some(5));
    cache.record_size("u".to_string(), 7);
    assert_eq!(cache.get_size("u"), Some(7));
    assert_eq!(cache.get_size("v"), Some(6));
    assert_eq!(cache.sizes.entries().len(), 2);
}

#[test]
fn queue_size_takes_larger_of_catalogue_and_cache() {
    let mut cache = SizeCache::new();
    cache.record_size("a".to_string(), 3000);
    assert_eq!(queue_size_key(&sample_model(1000, "a"), &cache), 3000);
    assert_eq!(queue_size_key(&sample_model(5000, "a"), &cache), 5000);
    assert_eq!(queue_size_key(&sample_model(0, "b"), &cache), u64::MAX);
}

fn named(name: &str, size: u64, url: &str) -> Model {
    let mut m = sample_model(size, url);
    m.filename = name.to_string();
    m
}

#[test]
fn download_queue_smallest_first_then_name_then_selection_order() {
    let mut cache = SizeCache::new();
    cache.record_size("u-cached".to_string(), 150);
    let selected = vec![
        (0, named("zeta", 0, "u-unknown")),
        (1, named("beta", 300, "u1")),
        (2, named("alpha", 300, "u2")),
        (3, named("gamma", 0, "u-cached")),
        (4, named("beta", 300, "u3")),
        (5, named("tiny", 10, "u4")),
    ];
    let sorted = sort_by_size(selected, &cache);
    let order: Vec<usize> = sorted.iter().map(|(i, _)| *i).collect();
    assert_eq!(order, vec![5, 3, 2, 1, 4, 0]);
}

#[test]
fn download_queue_matches_std_stable_sort() {
    let mut cache = SizeCache::new();
    cache.record_size("c1".to_string(), 70);
    let mut selected = Vec::new();
    let names = ["b", "a", "c", "a", "Z", "é", "b"];
    for i in 0..40usize {
        let size = [0u64, 50, 70, 70, 120][i % 5];
        let url = if i % 3 == 0 { "c1" } else { "none" };
        selected.push((i, named(names[i % names.len()], size, url)));
    }
    let mut expected = selected.clone();
    expected.sort_by(|(_, a), (_, b)| {
        let ka = queue_size_key(a, &cache);
        let kb = queue_size_key(b, &cache);
        ka.cmp(&kb).then_with(|| a.filename.cmp(&b.filename))
    });
    let got = sort_by_size(selected, &cache);
    let got_idx: Vec<usize> = got.iter().map(|(i, _)| *i).collect();
    let exp_idx: Vec<usize> = expected.iter().map(|(i, _)| *i).collect();
    assert_eq!(got_idx, exp_idx);
}
