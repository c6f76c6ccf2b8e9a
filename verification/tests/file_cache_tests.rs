use dvop::file_cache::{cleanup_file_cache, get_cached_file_content, invalidate_file_cache, FileCache};
use std::io::{Read, Seek, SeekFrom, Write};
use std::time::{SystemTime, UNIX_EPOCH};
use tempfile::NamedTempFile;

fn nanos(t: SystemTime) -> i128 {
    match t.duration_since(UNIX_EPOCH) {
        Ok(d) => d.as_nanos() as i128,
        Err(e) => -(e.duration().as_nanos() as i128),
    }
}

fn read_through(cache: &mut FileCache, file: &NamedTempFile) -> Result<String, String> {
    let modified = file.as_file().metadata().and_then(|m| m.modified()).map_err(|e| e.to_string())?;
    let mut handle = file.reopen().map_err(|e| e.to_string())?;
    cache.get_file_content(
        file.path().to_str().unwrap(),
        nanos(modified),
        nanos(SystemTime::now()),
        move || {
            let mut text = String::new();
            handle.read_to_string(&mut text).map_err(|e| e.to_string())?;
            Ok(text)
        },
    )
}

fn rewrite(file: &mut NamedTempFile, content: &str) {
    let f = file.as_file_mut();
    f.set_len(0).unwrap();
    f.seek(SeekFrom::Start(0)).unwrap();
    f.write_all(content.as_bytes()).unwrap();
    f.flush().unwrap();
}

#[test]
fn test_file_cache_basic() {
    let mut cache = FileCache::with_default_duration();
    let mut temp_file = NamedTempFile::new().unwrap();
    temp_file.write_all(b"Hello, World!\n").unwrap();
    temp_file.flush().unwrap();
    let content1 = read_through(&mut cache, &temp_file).unwrap();
    assert_eq!(content1, "Hello, World!\n");
    let content2 = read_through(&mut cache, &temp_file).unwrap();
    assert_eq!(content2, "Hello, World!\n");
    assert_eq!(cache.len(), 1);
}

#[test]
fn test_cache_invalidation() {
    let mut cache = FileCache::with_default_duration();
    let temp_dir = tempfile::tempdir().unwrap();
    let mut file = tempfile::Builder::new().rand_bytes(0).prefix("test.txt").tempfile_in(temp_dir.path()).unwrap();
    rewrite(&mut file, "Original content\n");
    let content1 = read_through(&mut cache, &file).unwrap();
    assert_eq!(content1, "Original content\n");
    cache.invalidate(file.path().to_str().unwrap());
    rewrite(&mut file, "Updated content\n");
    let content2 = read_through(&mut cache, &file).unwrap();
    assert_eq!(content2, "Updated content\n");
}

#[test]
fn test_fresh_entry_is_served_without_reading() {
    let mut cache = FileCache::new(1_000);
    let r = cache.get_file_content("a.txt", 10, 100, || Ok("first".to_string()));
    assert_eq!(r, Ok("first".to_string()));
    let r = cache.get_file_content("a.txt", 10, 500, || Ok("second".to_string()));
    assert_eq!(r, Ok("first".to_string()));
    let r = cache.get_file_content("a.txt", 20, 600, || Ok("changed".to_string()));
    assert_eq!(r, Ok("changed".to_string()));
    let r = cache.get_file_content("a.txt", 20, 1_600, || Ok("aged".to_string()));
    assert_eq!(r, Ok("aged".to_string()));
    assert_eq!(cache.len(), 1);
}

#[test]
fn test_failed_read_keeps_cache() {
    let mut cache = FileCache::new(1_000);
    let r = get_cached_file_content(&mut cache, "missing", 0, 0, || Err("No such file".to_string()));
    assert_eq!(r, Err("No such file".to_string()));
    assert_eq!(cache.len(), 0);
}

#[test]
fn test_cleanup_expired() {
    let mut cache = FileCache::new(100);
    cache.store("a", "A".to_string(), 0, 0);
    cache.store("b", "B".to_string(), 0, 50);
    cache.store("c", "C".to_string(), 0, 500);
    cleanup_file_cache(&mut cache, 120);
    assert_eq!(cache.len(), 1);
    assert_eq!(cache.cached_content("a", 0, 120), None);
    assert_eq!(cache.cached_content("b", 0, 120), Some("B".to_string()));
    assert_eq!(cache.cached_content("c", 0, 120), None);
    invalidate_file_cache(&mut cache, "b");
    assert_eq!(cache.len(), 0);
}

#[test]
fn test_earlier_modification_time_invalidates() {
    let mut cache = FileCache::new(1_000);
    let r = cache.get_file_content("a.txt", 10, 100, || Ok("first".to_string()));
    assert_eq!(r, Ok("first".to_string()));
    let r = cache.get_file_content("a.txt", 5, 200, || Ok("restored".to_string()));
    assert_eq!(r, Ok("restored".to_string()));
    assert_eq!(cache.len(), 1);
    invalidate_file_cache(&mut cache, "a.txt");
    invalidate_file_cache(&mut cache, "a.txt");
    assert_eq!(cache.len(), 0);
}
