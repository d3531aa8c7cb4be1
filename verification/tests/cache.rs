use atomic_http::cache::{CacheConfig, CachedFileData, LoadStep, ZeroCopyCache};
use atomic_http::files::{FileLoadResult, LineIterator, ZeroCopyFile};

#[test]
fn the_threshold_is_inclusive() {
    let threshold = 1000usize;
    let mut cache = ZeroCopyCache::new(10, threshold, 100_000, 300);
    assert!(matches!(cache.load_file("/a", threshold - 1, 0), LoadStep::Read));
    assert!(matches!(cache.load_file("/a", threshold, 0), LoadStep::Read));
    assert!(matches!(cache.load_file("/a", threshold + 1, 0), LoadStep::MapDirectly));
    let mut cache = ZeroCopyCache::default();
    assert!(matches!(cache.load_file("/a", 1024 * 1024, 0), LoadStep::Read));
    assert!(matches!(cache.load_file("/a", 1024 * 1024 + 1, 0), LoadStep::MapDirectly));
    assert_eq!(cache.config(), CacheConfig::default());
}

#[test]
fn a_stored_file_is_served_from_memory() {
    let mut cache = ZeroCopyCache::new(10, 1000, 100_000, 300);
    let result = cache.store("/a", b"hello".to_vec(), 1);
    assert!(result.is_memory_cached());
    assert!(!result.is_memory_mapped());
    assert_eq!(result.as_bytes(), b"hello");
    assert_eq!(result.as_str(), Some("hello"));
    assert_eq!(result.len(), 5);
    match cache.load_file("/a", 5, 2) {
        LoadStep::Cached(data) => assert_eq!(data, b"hello".to_vec()),
        _ => panic!("a stored file is a hit"),
    }
    let stats = cache.stats();
    assert_eq!((stats.file_count, stats.total_size), (1, 5));
    assert_eq!((stats.max_cache_size, stats.max_file_size, stats.total_cache_size_limit), (10, 1000, 100_000));
}

#[test]
fn a_file_above_the_threshold_is_not_stored() {
    let mut cache = ZeroCopyCache::new(10, 4, 100_000, 300);
    let result = cache.store("/a", b"hello".to_vec(), 1);
    assert_eq!(result.as_bytes(), b"hello");
    assert_eq!(cache.stats().file_count, 0);
    cache.store("/b", b"keep".to_vec(), 2);
    cache.store("/a", b"old".to_vec(), 3);
    cache.store("/a", b"too long".to_vec(), 4);
    let stats = cache.stats();
    assert_eq!((stats.file_count, stats.total_size), (1, 4));
    assert!(matches!(cache.load_file("/b", 4, 5), LoadStep::Cached(_)));
}

#[test]
fn the_least_recently_used_files_make_room_in_bytes() {
    let mut cache = ZeroCopyCache::new(10, 100, 100, 300);
    cache.store("/old", vec![1; 40], 10);
    cache.store("/mid", vec![2; 40], 20);
    cache.store("/new", vec![3; 20], 30);
    assert_eq!(cache.stats().total_size, 100);
    cache.store("/big", vec![4; 50], 40);
    assert!(matches!(cache.load_file("/old", 40, 41), LoadStep::Read));
    assert!(matches!(cache.load_file("/mid", 40, 41), LoadStep::Read));
    assert!(matches!(cache.load_file("/new", 20, 41), LoadStep::Cached(_)));
    assert!(matches!(cache.load_file("/big", 50, 41), LoadStep::Cached(_)));
    assert_eq!(cache.stats().total_size, 70);
}

#[test]
fn a_hit_refreshes_the_time_of_last_use() {
    let mut cache = ZeroCopyCache::new(10, 100, 100, 300);
    cache.store("/a", vec![1; 50], 10);
    cache.store("/b", vec![2; 50], 20);
    assert!(matches!(cache.load_file("/a", 50, 30), LoadStep::Cached(_)));
    cache.store("/c", vec![3; 50], 40);
    assert!(matches!(cache.load_file("/a", 50, 41), LoadStep::Cached(_)));
    assert!(matches!(cache.load_file("/b", 50, 41), LoadStep::Read));
    assert!(matches!(cache.load_file("/c", 50, 41), LoadStep::Cached(_)));
}

#[test]
fn the_number_of_files_is_limited() {
    let mut cache = ZeroCopyCache::new(2, 100, 10_000, 300);
    cache.store("/a", vec![1; 1], 10);
    cache.store("/b", vec![2; 1], 20);
    cache.store("/c", vec![3; 1], 30);
    assert_eq!(cache.stats().file_count, 2);
    assert!(matches!(cache.load_file("/a", 1, 31), LoadStep::Read));
    let mut cache = ZeroCopyCache::new(0, 100, 10_000, 300);
    let handed_back = cache.store("/a", vec![1; 1], 10);
    assert_eq!(handed_back.as_bytes(), &[1u8]);
    cache.store("/b", vec![2; 1], 20);
    assert_eq!(cache.stats().file_count, 0);
    assert!(matches!(cache.load_file("/a", 1, 21), LoadStep::Read));
    assert!(matches!(cache.load_file("/b", 1, 21), LoadStep::Read));
}

#[test]
fn a_file_larger_than_the_whole_cache_is_not_stored() {
    let mut cache = ZeroCopyCache::new(10, 100, 10, 300);
    cache.store("/a", vec![1; 5], 10);
    assert_eq!(cache.stats().file_count, 1);
    let handed_back = cache.store("/b", vec![2; 50], 20);
    assert_eq!(handed_back.len(), 50);
    let stats = cache.stats();
    assert_eq!((stats.file_count, stats.total_size), (0, 0));
    assert!(matches!(cache.load_file("/b", 50, 21), LoadStep::Read));
    cache.store("/c", vec![3; 10], 30);
    let stats = cache.stats();
    assert_eq!((stats.file_count, stats.total_size), (1, 10));
}

#[test]
fn no_more_files_leave_than_room_is_needed_for() {
    let mut cache = ZeroCopyCache::new(10, 100, 30, 300);
    cache.store("/oldest", vec![1; 100 - 81], 10);
    cache.store("/older", vec![2; 1], 20);
    cache.store("/old", vec![3; 10], 30);
    assert_eq!(cache.stats().total_size, 30);
    cache.store("/new", vec![4; 10], 40);
    assert!(matches!(cache.load_file("/oldest", 19, 41), LoadStep::Read));
    assert!(matches!(cache.load_file("/older", 1, 41), LoadStep::Cached(_)));
    assert!(matches!(cache.load_file("/old", 10, 41), LoadStep::Cached(_)));
    assert!(matches!(cache.load_file("/new", 10, 41), LoadStep::Cached(_)));
    let stats = cache.stats();
    assert_eq!((stats.file_count, stats.total_size), (3, 21));
}

#[test]
fn the_cache_stays_within_its_limits() {
    let mut cache = ZeroCopyCache::new(3, 40, 60, 300);
    for step in 0u64..40 {
        let size = ((step * 7) % 45) as usize;
        let path = format!("/f{}", step % 6);
        cache.store(&path, vec![0; size], step);
        let stats = cache.stats();
        assert!(stats.file_count <= 3);
        assert!(stats.total_size <= 60);
        let stored = matches!(cache.load_file(&path, size, step), LoadStep::Cached(_));
        assert_eq!(stored, size <= 40);
    }
}

#[test]
fn storing_again_replaces_the_file() {
    let mut cache = ZeroCopyCache::new(10, 100, 100, 300);
    cache.store("/a", b"one".to_vec(), 10);
    cache.store("/a", b"three".to_vec(), 20);
    let stats = cache.stats();
    assert_eq!((stats.file_count, stats.total_size), (1, 5));
    match cache.load_file("/a", 5, 21) {
        LoadStep::Cached(data) => assert_eq!(data, b"three".to_vec()),
        _ => panic!("a stored file is a hit"),
    }
}

#[test]
fn the_sweep_drops_files_past_the_duration() {
    let mut cache = ZeroCopyCache::new(10, 100, 1000, 5);
    cache.store("/a", vec![1; 5], 0);
    cache.store("/b", vec![2; 5], 3_000);
    cache.cleanup_expired(5_000);
    assert_eq!(cache.stats().file_count, 2);
    cache.cleanup_expired(5_001);
    assert_eq!(cache.stats().file_count, 1);
    assert!(matches!(cache.load_file("/b", 5, 5_001), LoadStep::Cached(_)));
    cache.clear_cache();
    assert_eq!(cache.stats().file_count, 0);
    let cache = ZeroCopyCache::from_config(CacheConfig {
        max_cache_files: 1,
        max_cache_file_size: 2,
        cache_duration: 3,
        total_cache_size_limit: 4,
    });
    assert_eq!(cache.config().cache_duration, 3);
}

#[test]
fn cached_file_data_keeps_what_it_was_given() {
    let mut file = CachedFileData::new(b"{\"a\":1}".to_vec(), String::from("/x.json"), 7);
    assert_eq!(file.get_info(), (String::from("/x.json"), 7));
    assert_eq!(file.as_bytes(), b"{\"a\":1}");
    assert_eq!(file.as_str(), Some("{\"a\":1}"));
    assert_eq!(file.len(), 7);
    assert_eq!(file.last_accessed(), 7);
    file.update_access_time(9);
    assert_eq!(file.last_accessed(), 9);
    let file = CachedFileData::new(vec![0xff, 0xfe], String::from("/bin"), 0);
    assert_eq!(file.as_str(), None);
}

#[test]
fn a_mapped_file_is_a_view() {
    assert!(ZeroCopyFile::new(b"", 0).is_none());
    let mut file = ZeroCopyFile::new(b"line one\r\nline two\nlast", 5).unwrap();
    assert_eq!(file.len(), 23);
    assert!(!file.is_empty());
    assert_eq!(file.last_accessed(), 5);
    file.update_access_time(6);
    assert_eq!(file.last_accessed(), 6);
    assert_eq!(file.as_str(), Some("line one\r\nline two\nlast"));
    assert_eq!(file.slice(5, 8), Some(b"one".as_slice()));
    assert_eq!(file.slice(0, 23), Some(file.as_bytes()));
    assert_eq!(file.slice(3, 2), None);
    assert_eq!(file.slice(0, 24), None);
    assert_eq!(file.find(b"two"), Some(15));
    assert_eq!(file.find(b"three"), None);
    assert_eq!(file.find(b""), Some(0));
    let mut lines = file.lines();
    assert_eq!(lines.next(), Some(b"line one".as_slice()));
    assert_eq!(lines.next(), Some(b"line two".as_slice()));
    assert_eq!(lines.next(), Some(b"last".as_slice()));
    assert_eq!(lines.next(), None);
    assert_eq!(lines.next(), None);
    let result = FileLoadResult::DirectMemoryMap(file);
    assert!(result.is_memory_mapped());
    assert!(!result.is_memory_cached());
    assert_eq!(result.len(), 23);
    assert_eq!(result.as_bytes().len(), 23);
}

#[test]
fn lines_end_with_line_feeds() {
    let mut lines = LineIterator::new(b"\n\r\n\ra\r\n\n");
    assert_eq!(lines.next(), Some(b"".as_slice()));
    assert_eq!(lines.next(), Some(b"".as_slice()));
    assert_eq!(lines.next(), Some(b"\ra".as_slice()));
    assert_eq!(lines.next(), Some(b"".as_slice()));
    assert_eq!(lines.next(), None);
    let mut lines = LineIterator::new(b"tail\r");
    assert_eq!(lines.next(), Some(b"tail\r".as_slice()));
    assert_eq!(lines.next(), None);
}
