use bytes::BytesMut;
use static_mem_cache::file_stream::FileStream;
use static_mem_cache::http_range::ConditionalHeaders;
use static_mem_cache::mem_cache::{CacheError, ContentRange, MemCache, MemCacheOpts, MemFile};

fn no_conditions() -> ConditionalHeaders {
    ConditionalHeaders { if_modified_since: None, if_unmodified_since: None, if_range: None }
}

fn file_of(len: u8, ttl: u64, now: u64) -> MemFile {
    let mut f = MemFile::new(len as u64, 4096, "text/plain".to_string(), Some(1000), ttl, now);
    let content: Vec<u8> = (0..len).collect();
    f.data = BytesMut::from(&content[..]);
    f
}

fn ready_cache(capacity: usize) -> MemCache {
    let mut c = MemCache::new();
    assert_eq!(c.init_store(&MemCacheOpts::new(capacity, 1, 60)), Ok(()));
    c
}

#[test]
fn opts_scale_file_size_to_mebibytes() {
    let o = MemCacheOpts::new(8, 2, 30);
    assert_eq!(o.max_size, 8);
    assert_eq!(o.file_max_size, 2 * 1024 * 1024);
    assert_eq!(o.file_ttl, 30);
}

#[test]
fn init_store_twice_fails() {
    let mut c = ready_cache(4);
    assert_eq!(c.init_store(&MemCacheOpts::new(4, 1, 60)), Err(CacheError::AlreadyInitialized));
    assert_eq!(c.file_max_size(), 1024 * 1024);
    assert_eq!(c.file_ttl(), 60);
    assert!(c.is_cacheable(1024 * 1024));
    assert!(!c.is_cacheable(1024 * 1024 + 1));
}

#[test]
fn zero_capacity_is_refused() {
    let mut c = MemCache::new();
    assert_eq!(c.init_store(&MemCacheOpts::new(0, 1, 60)), Err(CacheError::ZeroCapacity));
    assert_eq!(c.get("a", 0), Err(CacheError::NotInitialized));
}

#[test]
fn uninitialized_store_refuses_operations() {
    let mut c = MemCache::new();
    assert_eq!(c.get("a", 0), Err(CacheError::NotInitialized));
    assert_eq!(c.insert("a".to_string(), file_of(3, 10, 0)), Err(CacheError::NotInitialized));
    assert!(!c.append("a", b"xy"));
    assert!(matches!(c.serve("a", 0, &no_conditions(), None), Err(CacheError::NotInitialized)));
    assert!(!c.is_cacheable(0));
}

#[test]
fn insert_then_get_round_trip() {
    let mut c = ready_cache(4);
    assert_eq!(c.insert("/a".to_string(), file_of(10, 60, 100)), Ok(true));
    assert_eq!(c.get("/a", 120), Ok(true));
    let resp = c.serve("/a", 120, &no_conditions(), None).unwrap().unwrap();
    assert_eq!(resp.status, 200);
    assert_eq!(resp.body, (0..10).collect::<Vec<u8>>());
    assert_eq!(resp.content_type.as_deref(), Some("text/plain"));
    assert_eq!(resp.last_modified, Some(1000));
    assert_eq!(c.insert("/a".to_string(), file_of(5, 60, 100)), Ok(false));
    let resp = c.serve("/a", 120, &no_conditions(), None).unwrap().unwrap();
    assert_eq!(resp.body.len(), 5);
}

#[test]
fn entry_expires_after_ttl() {
    let mut c = ready_cache(4);
    c.insert("/a".to_string(), file_of(10, 60, 100)).unwrap();
    assert_eq!(c.get("/a", 159), Ok(true));
    assert_eq!(c.get("/a", 160), Ok(true));
    assert_eq!(c.get("/a", 161), Ok(false));
    // The expired entry was removed on lookup.
    assert_eq!(c.get("/a", 100), Ok(false));
    assert!(c.serve("/a", 100, &no_conditions(), None).unwrap().is_none());
    assert!(file_of(1, 60, 100).has_expired(161));
    assert!(!file_of(1, 60, 100).has_expired(160));
}

#[test]
fn missing_key_is_absent() {
    let mut c = ready_cache(2);
    assert_eq!(c.get("/nothing", 0), Ok(false));
}

#[test]
fn full_store_evicts_one_unvisited_key() {
    let mut c = ready_cache(2);
    c.insert("/a".to_string(), file_of(1, 60, 0)).unwrap();
    c.insert("/b".to_string(), file_of(1, 60, 0)).unwrap();
    assert_eq!(c.get("/a", 1), Ok(true));
    assert_eq!(c.insert("/c".to_string(), file_of(1, 60, 0)), Ok(true));
    assert_eq!(c.get("/b", 1), Ok(false));
    assert_eq!(c.get("/a", 1), Ok(true));
    assert_eq!(c.get("/c", 1), Ok(true));
}

#[test]
fn capacity_plus_one_inserts_evict_exactly_one() {
    let mut c = ready_cache(3);
    for k in ["/1", "/2", "/3", "/4"] {
        c.insert(k.to_string(), file_of(1, 60, 0)).unwrap();
    }
    let mut present = 0;
    for k in ["/1", "/2", "/3", "/4"] {
        if c.get(k, 1) == Ok(true) {
            present += 1;
        }
    }
    assert_eq!(present, 3);
    assert_eq!(c.get("/4", 1), Ok(true));
}

#[test]
fn range_responses_on_length_hundred() {
    let mut c = ready_cache(2);
    c.insert("/f".to_string(), file_of(100, 60, 0)).unwrap();
    let h = no_conditions();

    let r = c.serve("/f", 1, &h, Some(b"bytes=0-49")).unwrap().unwrap();
    assert_eq!(r.status, 206);
    assert_eq!(r.content_range, Some(ContentRange::Bytes { first: 0, last: 49, complete: 100 }));
    assert_eq!(r.body.len(), 50);
    assert_eq!(r.content_length, Some(50));
    assert!(r.accept_ranges);

    let r = c.serve("/f", 1, &h, Some(b"bytes=0-99")).unwrap().unwrap();
    assert_eq!(r.status, 200);
    assert_eq!(r.body.len(), 100);
    assert_eq!(r.content_range, None);

    let r = c.serve("/f", 1, &h, None).unwrap().unwrap();
    assert_eq!(r.status, 200);
    assert_eq!(r.body.len(), 100);
    assert_eq!(r.content_length, Some(100));

    let r = c.serve("/f", 1, &h, Some(b"bytes=100-200")).unwrap().unwrap();
    assert_eq!(r.status, 416);
    assert_eq!(r.content_range, Some(ContentRange::Unsatisfied { complete: 100 }));
    assert!(r.body.is_empty());
}

#[test]
fn partial_body_is_the_selected_slice() {
    let f = file_of(100, 60, 0);
    let r = f.response_body(&no_conditions(), Some(b"bytes=90-"));
    assert_eq!(r.status, 206);
    assert_eq!(r.body, (90..100).collect::<Vec<u8>>());
    assert_eq!(r.content_range, Some(ContentRange::Bytes { first: 90, last: 99, complete: 100 }));
}

#[test]
fn not_modified_regardless_of_range() {
    let f = file_of(100, 60, 0);
    for since in [1000u64, 2000] {
        let h = ConditionalHeaders { if_modified_since: Some(since), ..no_conditions() };
        for range in [None, Some(&b"bytes=0-49"[..]), Some(&b"bytes=100-200"[..])] {
            let r = f.response_body(&h, range);
            assert_eq!(r.status, 304);
            assert!(r.body.is_empty());
        }
    }
    let h = ConditionalHeaders { if_modified_since: Some(999), ..no_conditions() };
    assert_eq!(f.response_body(&h, None).status, 200);
}

#[test]
fn precondition_failed_has_no_body() {
    let f = file_of(100, 60, 0);
    let h = ConditionalHeaders { if_unmodified_since: Some(999), ..no_conditions() };
    let r = f.response_body(&h, Some(b"bytes=0-1"));
    assert_eq!(r.status, 412);
    assert!(r.body.is_empty());
}

#[test]
fn stale_if_range_serves_whole_body() {
    let f = file_of(100, 60, 0);
    let h = ConditionalHeaders { if_range: Some(999), ..no_conditions() };
    let r = f.response_body(&h, Some(b"bytes=0-1"));
    assert_eq!(r.status, 200);
    assert_eq!(r.body.len(), 100);
}

#[test]
fn serving_twice_is_identical() {
    let mut c = ready_cache(2);
    c.insert("/f".to_string(), file_of(100, 60, 0)).unwrap();
    let h = no_conditions();
    let a = c.serve("/f", 1, &h, Some(b"bytes=10-19")).unwrap().unwrap();
    let b = c.serve("/f", 1, &h, Some(b"bytes=10-19")).unwrap().unwrap();
    assert_eq!(a.status, b.status);
    assert_eq!(a.body, b.body);
    assert_eq!(a.content_range, b.content_range);
    assert_eq!(a.content_length, b.content_length);
}

#[test]
fn append_needs_an_entry() {
    let mut c = ready_cache(2);
    assert!(!c.append("/none", b"abc"));
    assert_eq!(c.get("/none", 0), Ok(false));
}

#[test]
fn write_through_fills_entry_with_chunks() {
    let source: Vec<u8> = (0..=255u8).cycle().take(10_000).collect();
    let mut c = ready_cache(2);
    let f = MemFile::new(source.len() as u64, 4096, "application/octet-stream".to_string(), None, 60, 0);
    c.insert("/big".to_string(), f).unwrap();
    let stream = FileStream { buf_size: 4096, path_str: Some("/big".to_string()) };
    let mut produced: Vec<u8> = Vec::new();
    let mut pos = 0usize;
    loop {
        let mut buf = stream.new_buffer();
        assert_eq!(buf.len(), 4096);
        let n = std::cmp::min(buf.len(), source.len() - pos);
        buf[..n].copy_from_slice(&source[pos..pos + n]);
        pos += n;
        match stream.poll_next(buf, n, &mut c) {
            Some(chunk) => {
                assert_eq!(chunk.len(), n);
                produced.extend_from_slice(&chunk);
            }
            None => break,
        }
    }
    assert_eq!(produced, source);
    let r = c.serve("/big", 1, &no_conditions(), None).unwrap().unwrap();
    assert_eq!(r.body, source);
}

#[test]
fn stream_without_key_leaves_cache_alone() {
    let mut c = ready_cache(2);
    c.insert("/k".to_string(), file_of(0, 60, 0)).unwrap();
    let stream = FileStream { buf_size: 8, path_str: None };
    let chunk = stream.poll_next(vec![1, 2, 3, 0, 0, 0, 0, 0], 3, &mut c).unwrap();
    assert_eq!(chunk, vec![1, 2, 3]);
    let r = c.serve("/k", 1, &no_conditions(), None).unwrap().unwrap();
    assert!(r.body.is_empty());
    assert!(stream.poll_next(vec![0; 8], 0, &mut c).is_none());
}
