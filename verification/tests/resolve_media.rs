use nuucast::media::{get_media_type, get_mime_type, MediaType};
use nuucast::resolve::{
    get_path_from_url, get_url_and_filepath_from_path, get_url_and_filepath_from_url, MediaRoot,
};

fn root() -> MediaRoot {
    MediaRoot::new(String::from("/srv/media")).expect("canonical root")
}

#[test]
fn media_root_accepts_canonical_absolute_paths() {
    assert!(MediaRoot::new(String::from("/srv/media")).is_some());
    assert!(MediaRoot::new(String::from("/a")).is_some());
}

#[test]
fn media_root_rejects_non_canonical_paths() {
    assert!(MediaRoot::new(String::from("relative/path")).is_none());
    assert!(MediaRoot::new(String::from("/")).is_none());
    assert!(MediaRoot::new(String::from("/srv/media/")).is_none());
    assert!(MediaRoot::new(String::from("/srv//media")).is_none());
    assert!(MediaRoot::new(String::from("/srv/../media")).is_none());
    assert!(MediaRoot::new(String::from("/srv/./media")).is_none());
    assert!(MediaRoot::new(String::from("")).is_none());
}

#[test]
fn resolve_plain_url() {
    let r = root();
    let p = get_url_and_filepath_from_url(&r, "photos/cat.jpg").expect("resolvable");
    assert_eq!(p.url, "photos/cat.jpg");
    assert_eq!(p.filepath, "/srv/media/photos/cat.jpg");
}

#[test]
fn resolve_trims_one_leading_and_trailing_slash() {
    let r = root();
    let p = get_url_and_filepath_from_url(&r, "/photos/cat.jpg/").expect("resolvable");
    assert_eq!(p.url, "photos/cat.jpg");
    assert_eq!(p.filepath, "/srv/media/photos/cat.jpg");
}

#[test]
fn resolve_empty_url_is_the_root() {
    let r = root();
    let p = get_url_and_filepath_from_url(&r, "").expect("root is resolvable");
    assert_eq!(p.url, "");
    assert_eq!(p.filepath, "/srv/media");
    let p = get_url_and_filepath_from_url(&r, "/").expect("root is resolvable");
    assert_eq!(p.url, "");
    assert_eq!(p.filepath, "/srv/media");
}

#[test]
fn resolve_rejects_traversal_segments() {
    let r = root();
    assert!(get_url_and_filepath_from_url(&r, "../etc/passwd").is_none());
    assert!(get_url_and_filepath_from_url(&r, "a/../b").is_none());
    assert!(get_url_and_filepath_from_url(&r, "a/./b").is_none());
    assert!(get_url_and_filepath_from_url(&r, ".").is_none());
    assert!(get_url_and_filepath_from_url(&r, "..").is_none());
}

#[test]
fn resolve_rejects_empty_segments() {
    let r = root();
    assert!(get_url_and_filepath_from_url(&r, "a//b").is_none());
    assert!(get_url_and_filepath_from_url(&r, "//a").is_none());
    assert!(get_url_and_filepath_from_url(&r, "a///b").is_none());
}

#[test]
fn unresolve_maps_a_descendant_back() {
    let r = root();
    let p = get_url_and_filepath_from_path(&r, "/srv/media/photos/cat.jpg").expect("descendant");
    assert_eq!(p.url, "photos/cat.jpg");
    assert_eq!(p.filepath, "/srv/media/photos/cat.jpg");
}

#[test]
fn unresolve_maps_the_root_to_the_empty_url() {
    let r = root();
    let p = get_url_and_filepath_from_path(&r, "/srv/media").expect("the root itself");
    assert_eq!(p.url, "");
    assert_eq!(p.filepath, "/srv/media");
}

#[test]
fn unresolve_rejects_paths_outside_the_root() {
    let r = root();
    assert!(get_url_and_filepath_from_path(&r, "/etc/passwd").is_none());
    assert!(get_url_and_filepath_from_path(&r, "/srv").is_none());
    // A sibling directory sharing the root as a string prefix must not pass.
    assert!(get_url_and_filepath_from_path(&r, "/srv/media2/file.txt").is_none());
    // Non-canonical descendants are rejected too.
    assert!(get_url_and_filepath_from_path(&r, "/srv/media/a/../b").is_none());
    assert!(get_url_and_filepath_from_path(&r, "/srv/media/").is_none());
}

#[test]
fn resolve_then_unresolve_round_trips() {
    let r = root();
    for url in ["photos/cat.jpg", "a", "deep/nested/dir/file.mp4", ""] {
        let p1 = get_url_and_filepath_from_url(&r, url).expect("resolvable");
        let p2 = get_url_and_filepath_from_path(&r, &p1.filepath).expect("round trip");
        assert_eq!(p1.url, p2.url);
        assert_eq!(p1.filepath, p2.filepath);
    }
}

#[test]
fn get_path_from_url_cleans_valid_urls() {
    assert_eq!(get_path_from_url(String::from("/photos/cat.jpg/")), Some(String::from("photos/cat.jpg")));
    assert_eq!(get_path_from_url(String::from("")), Some(String::from("")));
    assert_eq!(get_path_from_url(String::from("a/b")), Some(String::from("a/b")));
}

#[test]
fn get_path_from_url_rejects_suspicious_urls() {
    assert_eq!(get_path_from_url(String::from("../x")), None);
    assert_eq!(get_path_from_url(String::from("a//b")), None);
    assert_eq!(get_path_from_url(String::from("./x")), None);
}

#[test]
fn media_types_by_extension() {
    assert!(matches!(get_media_type("a/photo.jpg"), MediaType::Image));
    assert!(matches!(get_media_type("photo.jpeg"), MediaType::Image));
    assert!(matches!(get_media_type("x.png"), MediaType::Image));
    assert!(matches!(get_media_type("x.gif"), MediaType::Image));
    assert!(matches!(get_media_type("x.webp"), MediaType::Image));
    assert!(matches!(get_media_type("x.bmp"), MediaType::Image));
    assert!(matches!(get_media_type("x.svg"), MediaType::Image));
    assert!(matches!(get_media_type("x.avif"), MediaType::Image));
    assert!(matches!(get_media_type("movie.mp4"), MediaType::Video));
    assert!(matches!(get_media_type("x.webm"), MediaType::Video));
    assert!(matches!(get_media_type("x.mkv"), MediaType::Video));
    assert!(matches!(get_media_type("x.avi"), MediaType::Video));
    assert!(matches!(get_media_type("x.mov"), MediaType::Video));
    assert!(matches!(get_media_type("song.mp3"), MediaType::Audio));
    assert!(matches!(get_media_type("x.wav"), MediaType::Audio));
    assert!(matches!(get_media_type("x.flac"), MediaType::Audio));
    assert!(matches!(get_media_type("x.ogg"), MediaType::Audio));
    assert!(matches!(get_media_type("x.m4a"), MediaType::Audio));
    assert!(matches!(get_media_type("x.aac"), MediaType::Audio));
    assert!(matches!(get_media_type("notes.txt"), MediaType::Text));
    assert!(matches!(get_media_type("x.srt"), MediaType::Text));
    assert!(matches!(get_media_type("x.vtt"), MediaType::Text));
    assert!(matches!(get_media_type("archive.zip"), MediaType::Attachment));
    assert!(matches!(get_media_type("no_extension"), MediaType::Attachment));
    assert!(matches!(get_media_type(".bashrc"), MediaType::Attachment));
}

#[test]
fn media_type_matching_is_case_sensitive() {
    assert!(matches!(get_media_type("photo.JPG"), MediaType::Attachment));
    assert_eq!(get_mime_type("photo.JPG"), "application/octet-stream");
}

#[test]
fn mime_types_by_extension() {
    assert_eq!(get_mime_type("a/photo.jpg"), "image/jpeg");
    assert_eq!(get_mime_type("photo.jpeg"), "image/jpeg");
    assert_eq!(get_mime_type("x.png"), "image/png");
    assert_eq!(get_mime_type("x.gif"), "image/gif");
    assert_eq!(get_mime_type("x.webp"), "image/webp");
    assert_eq!(get_mime_type("x.bmp"), "image/bmp");
    assert_eq!(get_mime_type("x.svg"), "image/svg+xml");
    assert_eq!(get_mime_type("x.avif"), "image/avif");
    assert_eq!(get_mime_type("movie.mp4"), "video/mp4");
    assert_eq!(get_mime_type("x.webm"), "video/webm");
    assert_eq!(get_mime_type("x.mkv"), "video/webm");
    assert_eq!(get_mime_type("x.avi"), "video/x-msvideo");
    assert_eq!(get_mime_type("x.mov"), "video/quicktime");
    assert_eq!(get_mime_type("song.mp3"), "audio/mpeg");
    assert_eq!(get_mime_type("x.wav"), "audio/wav");
    assert_eq!(get_mime_type("x.flac"), "audio/flac");
    assert_eq!(get_mime_type("x.ogg"), "audio/ogg");
    assert_eq!(get_mime_type("x.m4a"), "audio/mp4");
    assert_eq!(get_mime_type("x.aac"), "audio/aac");
    assert_eq!(get_mime_type("notes.txt"), "text/plain");
    assert_eq!(get_mime_type("x.srt"), "text/plain");
    assert_eq!(get_mime_type("x.vtt"), "text/plain");
    assert_eq!(get_mime_type("archive.zip"), "application/octet-stream");
    assert_eq!(get_mime_type("no_extension"), "application/octet-stream");
    assert_eq!(get_mime_type(".bashrc"), "application/octet-stream");
    // The extension is taken from the filename, not from a directory name.
    assert_eq!(get_mime_type("dir.mp4/file"), "application/octet-stream");
}
