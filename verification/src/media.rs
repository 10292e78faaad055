//! Pure, stateless classification of media files by extension.
//!
//! [`get_media_type`] maps a path's extension to a coarse media kind and
//! [`get_mime_type`] to a MIME string, from a fixed extension table. No
//! filesystem access is made. Extension matching is case-sensitive, to the
//! same degree as the source filesystem: `JPG` and `jpg` are different
//! extensions here, and both functions apply the same rule.

use crate::text::str_eq;
use vstd::prelude::*;

verus! {

/// The coarse kind of a media file, chosen by its extension. `Attachment`
/// is everything the table does not know: such files are offered for
/// download rather than played.
#[derive(Debug, Clone, Copy, PartialEq, Eq, Structural)]
pub enum MediaType {
    Image,
    Video,
    Audio,
    Text,
    Attachment,
}

/// The largest index at which `c` occurs in `s`, or `-1` if it does not.
pub open spec fn find_last(s: Seq<char>, c: char) -> int
    decreases s.len(),
{
    if s.len() == 0 {
        -1
    } else if s.last() == c {
        s.len() - 1
    } else {
        find_last(s.drop_last(), c)
    }
}

/// Finds the last occurrence of `c` in `s`.
fn rfind(s: &str, c: char) -> (r: Option<usize>)
    ensures
        match r {
            Some(i) => i < s@.len() && find_last(s@, c) == i,
            None => find_last(s@, c) == -1,
        },
{
    let n = s.unicode_len();
    let mut j = n;
    proof {
        assert(s@.take(n as int) =~= s@);
    }
    while j > 0
        invariant
            0 <= j <= n,
            n == s@.len(),
            find_last(s@, c) == find_last(s@.take(j as int), c),
        decreases j,
    {
        let prev = s.get_char(j - 1);
        proof {
            assert(s@.take(j as int).last() == s@[j as int - 1]);
            assert(s@.take(j as int).drop_last() =~= s@.take(j as int - 1));
        }
        if prev == c {
            return Some(j - 1);
        }
        j = j - 1;
    }
    proof {
        assert(s@.take(0) =~= Seq::<char>::empty());
    }
    None
}

/// The filename part of a path: everything after the last `'/'`, or the
/// whole path if it has none.
pub open spec fn spec_filename(p: Seq<char>) -> Seq<char> {
    p.skip(find_last(p, '/') + 1)
}

/// The extension of a path: the part of the filename after its last dot,
/// provided that dot is not the filename's first character (so dotfiles
/// such as `.config` have no extension).
pub open spec fn spec_extension(p: Seq<char>) -> Option<Seq<char>> {
    let f = spec_filename(p);
    let d = find_last(f, '.');
    if d >= 1 {
        Some(f.skip(d + 1))
    } else {
        None
    }
}

proof fn lemma_find_last_in_range(s: Seq<char>, c: char)
    ensures
        -1 <= find_last(s, c) < s.len(),
    decreases s.len(),
{
    if s.len() > 0 && s.last() != c {
        lemma_find_last_in_range(s.drop_last(), c);
    }
}

/// Extracts the extension of `path`, if any.
fn extension_of(p: &str) -> (r: Option<&str>)
    ensures
        match r {
            Some(e) => spec_extension(p@) == Some(e@),
            None => spec_extension(p@) is None,
        },
{
    let n = p.unicode_len();
    let start: usize = match rfind(p, '/') {
        Some(i) => i + 1,
        None => 0,
    };
    let f = p.substring_char(start, n);
    proof {
        lemma_find_last_in_range(p@, '/');
        assert(f@ =~= spec_filename(p@));
    }
    match rfind(f, '.') {
        Some(d) => {
            if d >= 1 {
                let e = f.substring_char(d + 1, f.unicode_len());
                proof {
                    assert(e@ =~= spec_filename(p@).skip(d as int + 1));
                }
                Some(e)
            } else {
                None
            }
        },
        None => None,
    }
}

/// The media kind assigned to an extension.
pub open spec fn spec_media_type_of_ext(e: Option<Seq<char>>) -> MediaType {
    match e {
        None => MediaType::Attachment,
        Some(x) => if x == "jpg"@ || x == "jpeg"@ || x == "png"@ || x == "gif"@ || x == "webp"@ || x
            == "bmp"@ || x == "svg"@ || x == "avif"@ {
            MediaType::Image
        } else if x == "mp4"@ || x == "webm"@ || x == "mkv"@ || x == "avi"@ || x == "mov"@ {
            MediaType::Video
        } else if x == "mp3"@ || x == "wav"@ || x == "flac"@ || x == "ogg"@ || x == "m4a"@ || x
            == "aac"@ {
            MediaType::Audio
        } else if x == "txt"@ || x == "srt"@ || x == "vtt"@ {
            MediaType::Text
        } else {
            MediaType::Attachment
        },
    }
}

/// The media kind of a path, by its extension.
pub open spec fn spec_media_type(p: Seq<char>) -> MediaType {
    spec_media_type_of_ext(spec_extension(p))
}

/// Maps a path to its coarse media kind from the fixed extension table.
pub fn get_media_type(path: &str) -> (t: MediaType)
    ensures
        t == spec_media_type(path@),
{
    match extension_of(path) {
        None => MediaType::Attachment,
        Some(x) => {
            if str_eq(x, "jpg") || str_eq(x, "jpeg") || str_eq(x, "png") || str_eq(x, "gif")
                || str_eq(x, "webp") || str_eq(x, "bmp") || str_eq(x, "svg") || str_eq(x, "avif") {
                MediaType::Image
            } else if str_eq(x, "mp4") || str_eq(x, "webm") || str_eq(x, "mkv") || str_eq(x, "avi")
                || str_eq(x, "mov") {
                MediaType::Video
            } else if str_eq(x, "mp3") || str_eq(x, "wav") || str_eq(x, "flac") || str_eq(x, "ogg")
                || str_eq(x, "m4a") || str_eq(x, "aac") {
                MediaType::Audio
            } else if str_eq(x, "txt") || str_eq(x, "srt") || str_eq(x, "vtt") {
                MediaType::Text
            } else {
                MediaType::Attachment
            }
        },
    }
}

/// The MIME string assigned to an extension. Matroska files are served
/// with the WebM MIME type so that browsers attempt inline playback.
/// Subtitle formats are served as plain text.
pub open spec fn spec_mime_type_of_ext(e: Option<Seq<char>>) -> Seq<char> {
    match e {
        None => "application/octet-stream"@,
        Some(x) => if x == "jpg"@ || x == "jpeg"@ {
            "image/jpeg"@
        } else if x == "png"@ {
            "image/png"@
        } else if x == "gif"@ {
            "image/gif"@
        } else if x == "webp"@ {
            "image/webp"@
        } else if x == "bmp"@ {
            "image/bmp"@
        } else if x == "svg"@ {
            "image/svg+xml"@
        } else if x == "avif"@ {
            "image/avif"@
        } else if x == "mp4"@ {
            "video/mp4"@
        } else if x == "webm"@ || x == "mkv"@ {
            "video/webm"@
        } else if x == "avi"@ {
            "video/x-msvideo"@
        } else if x == "mov"@ {
            "video/quicktime"@
        } else if x == "mp3"@ {
            "audio/mpeg"@
        } else if x == "wav"@ {
            "audio/wav"@
        } else if x == "flac"@ {
            "audio/flac"@
        } else if x == "ogg"@ {
            "audio/ogg"@
        } else if x == "m4a"@ {
            "audio/mp4"@
        } else if x == "aac"@ {
            "audio/aac"@
        } else if x == "txt"@ || x == "srt"@ || x == "vtt"@ {
            "text/plain"@
        } else {
            "application/octet-stream"@
        },
    }
}

/// The MIME string of a path, by its extension.
pub open spec fn spec_mime_type(p: Seq<char>) -> Seq<char> {
    spec_mime_type_of_ext(spec_extension(p))
}

/// Maps a path to the MIME string used in `Content-Type` headers, from
/// the same fixed extension table as [`get_media_type`].
pub fn get_mime_type(path: &str) -> (m: &'static str)
    ensures
        m@ == spec_mime_type(path@),
{
    match extension_of(path) {
        None => "application/octet-stream",
        Some(x) => {
            if str_eq(x, "jpg") || str_eq(x, "jpeg") {
                "image/jpeg"
            } else if str_eq(x, "png") {
                "image/png"
            } else if str_eq(x, "gif") {
                "image/gif"
            } else if str_eq(x, "webp") {
                "image/webp"
            } else if str_eq(x, "bmp") {
                "image/bmp"
            } else if str_eq(x, "svg") {
                "image/svg+xml"
            } else if str_eq(x, "avif") {
                "image/avif"
            } else if str_eq(x, "mp4") {
                "video/mp4"
            } else if str_eq(x, "webm") || str_eq(x, "mkv") {
                "video/webm"
            } else if str_eq(x, "avi") {
                "video/x-msvideo"
            } else if str_eq(x, "mov") {
                "video/quicktime"
            } else if str_eq(x, "mp3") {
                "audio/mpeg"
            } else if str_eq(x, "wav") {
                "audio/wav"
            } else if str_eq(x, "flac") {
                "audio/flac"
            } else if str_eq(x, "ogg") {
                "audio/ogg"
            } else if str_eq(x, "m4a") {
                "audio/mp4"
            } else if str_eq(x, "aac") {
                "audio/aac"
            } else if str_eq(x, "txt") || str_eq(x, "srt") || str_eq(x, "vtt") {
                "text/plain"
            } else {
                "application/octet-stream"
            }
        },
    }
}

} // verus!
