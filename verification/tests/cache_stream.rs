use std::cell::Cell;
use std::sync::Arc;

use nuucast::cache::{
    classification_of_stat, get_directory_children, get_path_details, ClassMap, PathCache,
    PathType, StatInfo,
};
use nuucast::resolve::MediaRoot;
use nuucast::stream::{
    parse_range, stream_file, BodyPlan, FileProbe, ResponsePlan, MAX_RANGE_LENGTH,
};
use nuucast::text::u64_to_dec;

#[test]
fn classification_of_stat_covers_every_outcome() {
    assert_eq!(
        classification_of_stat(StatInfo::Found { is_file: true, is_dir: false }),
        PathType::File
    );
    assert_eq!(
        classification_of_stat(StatInfo::Found { is_file: false, is_dir: true }),
        PathType::Directory
    );
    assert_eq!(
        classification_of_stat(StatInfo::Found { is_file: false, is_dir: false }),
        PathType::Unknown
    );
    assert_eq!(classification_of_stat(StatInfo::NotFound), PathType::NotFound);
    assert_eq!(classification_of_stat(StatInfo::Failed), PathType::Unknown);
}

#[test]
fn class_map_basic_operations() {
    let mut m = ClassMap::new();
    let a = String::from("/srv/media/a");
    let b = String::from("/srv/media/b");
    assert_eq!(m.get(&a), None);
    m.insert(a.clone(), PathType::File);
    m.insert(b.clone(), PathType::Directory);
    assert_eq!(m.get(&a), Some(PathType::File));
    assert_eq!(m.get(&b), Some(PathType::Directory));
    m.insert(a.clone(), PathType::NotFound);
    assert_eq!(m.get(&a), Some(PathType::NotFound));
    m.remove(&a);
    assert_eq!(m.get(&a), None);
    assert_eq!(m.get(&b), Some(PathType::Directory));
    m.clear();
    assert_eq!(m.get(&b), None);
}

#[test]
fn class_map_memoizes_without_a_second_stat() {
    let mut m = ClassMap::new();
    let p = String::from("/srv/media/file.mp4");
    let stats = Cell::new(0u32);
    let t1 = m.get_or_classify(&p, || {
        stats.set(stats.get() + 1);
        PathType::File
    });
    let t2 = m.get_or_classify(&p, || {
        stats.set(stats.get() + 1);
        PathType::NotFound
    });
    assert_eq!(t1, PathType::File);
    assert_eq!(t2, PathType::File);
    assert_eq!(stats.get(), 1);
}

#[test]
fn class_map_reflects_changes_after_invalidation() {
    let mut m = ClassMap::new();
    let p = String::from("/srv/media/new_file");
    let t1 = m.get_or_classify(&p, || PathType::NotFound);
    assert_eq!(t1, PathType::NotFound);
    // The file appears on disk; without invalidation the stale answer stays.
    assert_eq!(m.get_or_classify(&p, || PathType::File), PathType::NotFound);
    m.remove(&p);
    let stats = Cell::new(0u32);
    let t2 = m.get_or_classify(&p, || {
        stats.set(stats.get() + 1);
        PathType::File
    });
    assert_eq!(t2, PathType::File);
    assert_eq!(stats.get(), 1);
}

#[test]
fn path_cache_memoizes_and_invalidates() {
    let cache = PathCache::new();
    let p = String::from("/srv/media/clip.mp4");
    let stats = Cell::new(0u32);
    let t1 = cache.get_path_details(&p, || {
        stats.set(stats.get() + 1);
        PathType::File
    });
    let t2 = cache.get_path_details(&p, || {
        stats.set(stats.get() + 1);
        PathType::Directory
    });
    assert_eq!(t1, PathType::File);
    assert_eq!(t2, PathType::File);
    assert_eq!(stats.get(), 1);
    cache.invalidate(&p);
    let t3 = cache.get_path_details(&p, || {
        stats.set(stats.get() + 1);
        PathType::Directory
    });
    assert_eq!(t3, PathType::Directory);
    assert_eq!(stats.get(), 2);
}

#[test]
fn path_cache_clear_drops_everything() {
    let cache = PathCache::new();
    let a = String::from("/srv/media/a");
    let b = String::from("/srv/media/b");
    cache.get_path_details(&a, || PathType::File);
    cache.get_path_details(&b, || PathType::Directory);
    cache.clear();
    assert_eq!(cache.get_path_details(&a, || PathType::NotFound), PathType::NotFound);
    assert_eq!(cache.get_path_details(&b, || PathType::Unknown), PathType::Unknown);
}

#[test]
fn path_cache_is_shared_through_cheap_handles() {
    // The cache is used through shared references only, as concurrent
    // request handlers would hold it.
    let cache = Arc::new(PathCache::new());
    let h1 = Arc::clone(&cache);
    let h2 = Arc::clone(&cache);
    for j in 0..50u32 {
        let p = format!("/srv/media/t1/f{}", j);
        assert_eq!(h1.get_path_details(&p, || PathType::File), PathType::File);
    }
    for j in 0..50u32 {
        let p = format!("/srv/media/t2/f{}", j);
        assert_eq!(h2.get_path_details(&p, || PathType::Directory), PathType::Directory);
    }
    // Every path classified through either handle is cached for both.
    let p = String::from("/srv/media/t2/f17");
    assert_eq!(h1.get_path_details(&p, || PathType::NotFound), PathType::Directory);
}

#[test]
fn free_get_path_details_delegates_to_the_cache() {
    let cache = PathCache::new();
    let p = String::from("/srv/media/x");
    assert_eq!(get_path_details(&cache, &p, || PathType::Directory), PathType::Directory);
    assert_eq!(get_path_details(&cache, &p, || PathType::File), PathType::Directory);
}

#[test]
fn directory_children_partitions_and_unresolves() {
    let root = MediaRoot::new(String::from("/srv/media")).unwrap();
    let entries = vec![
        (String::from("/srv/media/docs"), PathType::Directory),
        (String::from("/srv/media/cat.jpg"), PathType::File),
        (String::from("/srv/media/broken"), PathType::Unknown),
        (String::from("/srv/media/gone"), PathType::NotFound),
        // A symlink that escaped the root: dropped even though classified.
        (String::from("/etc/passwd"), PathType::File),
        (String::from("/srv/media/docs/readme.txt"), PathType::File),
    ];
    let r = get_directory_children(&root, &entries);
    assert_eq!(r.directories.len(), 1);
    assert_eq!(r.directories[0].url, "docs");
    assert_eq!(r.directories[0].filepath, "/srv/media/docs");
    assert_eq!(r.files.len(), 2);
    assert_eq!(r.files[0].url, "cat.jpg");
    assert_eq!(r.files[0].filepath, "/srv/media/cat.jpg");
    assert_eq!(r.files[1].url, "docs/readme.txt");
    assert_eq!(r.files[1].filepath, "/srv/media/docs/readme.txt");
}

#[test]
fn u64_to_dec_exact_values() {
    assert_eq!(u64_to_dec(0), "0");
    assert_eq!(u64_to_dec(7), "7");
    assert_eq!(u64_to_dec(100), "100");
    assert_eq!(u64_to_dec(1000), "1000");
    assert_eq!(u64_to_dec(1234567890123456789), "1234567890123456789");
    assert_eq!(u64_to_dec(u64::MAX), "18446744073709551615");
}

#[test]
fn parse_range_accepts_bounded_and_open_ranges() {
    assert_eq!(parse_range("0-99", 1000), Some((0, 99)));
    assert_eq!(parse_range("500-", 1000), Some((500, 999)));
    assert_eq!(parse_range("5-2", 1000), Some((5, 2)));
    assert_eq!(parse_range("999-1500", 1000), Some((999, 1500)));
}

#[test]
fn parse_range_rejects_malformed_values() {
    assert_eq!(parse_range("abc", 1000), None);
    assert_eq!(parse_range("", 1000), None);
    assert_eq!(parse_range("-", 1000), None);
    assert_eq!(parse_range("-99", 1000), None);
    assert_eq!(parse_range("1-2-3", 1000), None);
    assert_eq!(parse_range("0-9x", 1000), None);
    assert_eq!(parse_range("+5-9", 1000), None);
    assert_eq!(parse_range("99999999999999999999-", 1000), None);
    // An omitted end means the last byte, which an empty file lacks.
    assert_eq!(parse_range("0-", 0), None);
}

#[test]
fn parse_range_accepts_leading_zeros() {
    assert_eq!(parse_range("007-009", 1000), Some((7, 9)));
    assert_eq!(parse_range("000-", 1000), Some((0, 999)));
}

#[test]
fn single_byte_ranges_are_served() {
    let plan = stream_file("clip.mp4", FileProbe::Opened { size: 1000 }, Some("bytes=0-0"));
    assert_eq!(plan.status, 206);
    assert_eq!(plan.body, BodyPlan::Slice { start: 0, length: 1 });
    let plan = stream_file("clip.mp4", FileProbe::Opened { size: 1000 }, Some("bytes=999-999"));
    assert_eq!(plan.status, 206);
    assert_eq!(plan.body, BodyPlan::Slice { start: 999, length: 1 });
}

#[test]
fn range_unit_prefix_is_case_sensitive() {
    let without = stream_file("clip.mp4", FileProbe::Opened { size: 1000 }, None);
    let shouted = stream_file("clip.mp4", FileProbe::Opened { size: 1000 }, Some("BYTES=0-99"));
    assert_eq!(shouted, without);
}

fn headers(plan: &ResponsePlan) -> Vec<(&str, &str)> {
    plan.headers.iter().map(|(k, v)| (k.as_str(), v.as_str())).collect()
}

#[test]
fn first_hundred_bytes_of_a_thousand_byte_file() {
    let plan = stream_file("clip.mp4", FileProbe::Opened { size: 1000 }, Some("bytes=0-99"));
    assert_eq!(plan.status, 206);
    assert_eq!(
        headers(&plan),
        vec![
            ("Content-Type", "video/mp4"),
            ("Content-Length", "100"),
            ("Content-Range", "bytes 0-99/1000"),
            ("Accept-Ranges", "bytes"),
        ]
    );
    assert_eq!(plan.body, BodyPlan::Slice { start: 0, length: 100 });
}

#[test]
fn open_ended_range_covers_the_tail() {
    let plan = stream_file("clip.mp4", FileProbe::Opened { size: 1000 }, Some("bytes=500-"));
    assert_eq!(plan.status, 206);
    assert_eq!(
        headers(&plan),
        vec![
            ("Content-Type", "video/mp4"),
            ("Content-Length", "500"),
            ("Content-Range", "bytes 500-999/1000"),
            ("Accept-Ranges", "bytes"),
        ]
    );
    assert_eq!(plan.body, BodyPlan::Slice { start: 500, length: 500 });
}

#[test]
fn malformed_range_is_identical_to_no_range() {
    let with_bad_range =
        stream_file("clip.mp4", FileProbe::Opened { size: 1000 }, Some("bytes=abc"));
    let without = stream_file("clip.mp4", FileProbe::Opened { size: 1000 }, None);
    assert_eq!(with_bad_range, without);
    assert_eq!(without.status, 200);
    assert_eq!(
        headers(&without),
        vec![
            ("Content-Type", "video/mp4"),
            ("Accept-Ranges", "bytes"),
            ("Content-Length", "1000"),
        ]
    );
    assert_eq!(without.body, BodyPlan::WholeFile);
}

#[test]
fn unparsable_and_unsatisfiable_ranges_fall_back_to_full_content() {
    let size = FileProbe::Opened { size: 1000 };
    let full = stream_file("clip.mp4", size, None);
    for header in [
        "bytes=abc", "bytes=", "bytes=5-2", "bytes=0-1000", "bytes=1000-", "bytes=1-2-3",
        "items=0-99", "0-99", "bytes=0-99,200-300",
    ] {
        assert_eq!(stream_file("clip.mp4", size, Some(header)), full);
    }
}

#[test]
fn oversized_ranges_are_clamped() {
    let size: u64 = 200 * 1024 * 1024;
    let plan = stream_file("big.mkv", FileProbe::Opened { size }, Some("bytes=10-"));
    assert_eq!(plan.status, 206);
    assert_eq!(
        plan.body,
        BodyPlan::Slice { start: 10, length: MAX_RANGE_LENGTH }
    );
    let end = 10 + MAX_RANGE_LENGTH - 1;
    assert_eq!(
        headers(&plan)[2],
        ("Content-Range", format!("bytes 10-{}/{}", end, size).as_str())
    );
}

#[test]
fn failed_open_is_not_found() {
    let plan = stream_file("gone.mp4", FileProbe::OpenFailed, Some("bytes=0-1"));
    assert_eq!(plan.status, 404);
    assert!(plan.headers.is_empty());
    assert_eq!(plan.body, BodyPlan::Note { text: String::from("File not found") });
}

#[test]
fn failed_metadata_is_internal_error() {
    let plan = stream_file("odd.mp4", FileProbe::SizeUnknown, None);
    assert_eq!(plan.status, 500);
    assert!(plan.headers.is_empty());
    assert_eq!(plan.body, BodyPlan::Empty);
}

#[test]
fn full_response_uses_the_mime_table() {
    let plan = stream_file("song.flac", FileProbe::Opened { size: 5 }, None);
    assert_eq!(headers(&plan)[0], ("Content-Type", "audio/flac"));
    let plan = stream_file("unknown.bin", FileProbe::Opened { size: 5 }, None);
    assert_eq!(headers(&plan)[0], ("Content-Type", "application/octet-stream"));
}
