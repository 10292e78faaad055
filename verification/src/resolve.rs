//! Secure mapping between untrusted URL paths and filesystem locations.
//!
//! A [`MediaRoot`] is the canonical absolute directory that bounds every
//! resolvable path. [`get_url_and_filepath_from_url`] turns an untrusted URL
//! into a validated relative url and absolute filepath by whitelisting path
//! segments before any join, so traversal is rejected before a symlink could
//! ever be followed. [`get_url_and_filepath_from_path`] is the inverse, used
//! when enumerating directories: it accepts only canonical paths that are
//! component-wise descendants of the root. Both fail silently (`None`) so
//! that callers cannot distinguish why a path was rejected.

use crate::text::str_eq;
use vstd::prelude::*;

verus! {

/// The segments of `s` split at `'/'`. Splitting the empty sequence yields
/// one empty segment, so stray leading, trailing, or doubled slashes always
/// surface as empty segments.
pub open spec fn split_slash(s: Seq<char>) -> Seq<Seq<char>>
    decreases s.len(),
{
    if s.len() == 0 {
        seq![Seq::<char>::empty()]
    } else if s[0] == '/' {
        seq![Seq::<char>::empty()] + split_slash(s.skip(1))
    } else {
        let rest = split_slash(s.skip(1));
        seq![seq![s[0]] + rest[0]] + rest.skip(1)
    }
}

proof fn lemma_split_slash_nonempty(s: Seq<char>)
    ensures
        split_slash(s).len() >= 1,
    decreases s.len(),
{
    if s.len() > 0 {
        lemma_split_slash_nonempty(s.skip(1));
    }
}

/// Decomposition of [`split_slash`] at the first separator: if no `'/'`
/// occurs before position `i`, and `i` is either the end of `s` or a `'/'`,
/// then the first segment is `s.take(i)` and the rest splits `s.skip(i + 1)`.
proof fn lemma_split_slash_head(s: Seq<char>, i: int)
    requires
        0 <= i <= s.len(),
        forall|j: int| 0 <= j < i ==> s[j] != '/',
        i == s.len() || s[i] == '/',
    ensures
        i == s.len() ==> split_slash(s) =~~= seq![s],
        i < s.len() ==> split_slash(s) =~~= seq![s.take(i)] + split_slash(s.skip(i + 1)),
    decreases i,
{
    lemma_split_slash_nonempty(s);
    if i == 0 {
        if s.len() == 0 {
            assert(split_slash(s) =~~= seq![s]);
        } else {
            assert(s.skip(0 as int + 1) =~= s.skip(1));
            assert(s.take(0) =~= Seq::<char>::empty());
        }
    } else {
        let r = s.skip(1);
        lemma_split_slash_nonempty(r);
        lemma_split_slash_head(r, i - 1);
        if i == s.len() {
            assert(split_slash(r) =~~= seq![r]);
            assert(seq![s[0]] + r =~= s);
        } else {
            assert(split_slash(r) =~~= seq![r.take(i - 1)] + split_slash(r.skip(i)));
            assert(seq![s[0]] + r.take(i - 1) =~= s.take(i));
            assert(r.skip(i) =~= s.skip(i + 1));
            assert((seq![r.take(i - 1)] + split_slash(r.skip(i))).skip(1) =~~= split_slash(
                s.skip(i + 1),
            ));
        }
    }
}

/// A path segment that may be joined onto the media root: it is nonempty
/// and is neither of the traversal markers `.` and `..`. (A separator can
/// never occur inside a segment produced by [`split_slash`].)
pub open spec fn valid_segment(g: Seq<char>) -> bool {
    &&& g.len() > 0
    &&& g != seq!['.']
    &&& g != seq!['.', '.']
}

/// Every segment of `s` is a [`valid_segment`].
pub open spec fn all_segments_valid(s: Seq<char>) -> bool {
    forall|i: int|
        0 <= i < split_slash(s).len() ==> valid_segment(#[trigger] split_slash(s)[i])
}

/// Checks that every `'/'`-separated segment of `s` is plain: nonempty and
/// not a `.` or `..` traversal marker.
fn segments_valid(s: &str) -> (b: bool)
    ensures
        b == all_segments_valid(s@),
    decreases s@.len(),
{
    let n = s.unicode_len();
    let mut i: usize = 0;
    while i < n && s.get_char(i) != '/'
        invariant
            0 <= i <= n,
            n == s@.len(),
            forall|j: int| 0 <= j < i ==> s@[j] != '/',
        decreases n - i,
    {
        i = i + 1;
    }
    let ghost g = s@.take(i as int);
    let head_ok: bool = if i == 0 {
        false
    } else if i == 1 {
        !(s.get_char(0) == '.')
    } else if i == 2 {
        !(s.get_char(0) == '.' && s.get_char(1) == '.')
    } else {
        true
    };
    proof {
        lemma_split_slash_head(s@, i as int);
        if i == 1 && s@[0] == '.' {
            assert(g =~= seq!['.']);
        }
        if i == 2 && s@[0] == '.' && s@[1] == '.' {
            assert(g =~= seq!['.', '.']);
        }
        if g == seq!['.'] {
            assert(g[0] == '.');
        }
        if g == seq!['.', '.'] {
            assert(g[0] == '.' && g[1] == '.');
        }
        assert(head_ok == valid_segment(g));
    }
    if i == n {
        proof {
            assert(split_slash(s@) == seq![s@]);
            assert(s@.take(i as int) =~= s@);
            assert(split_slash(s@)[0] == s@);
        }
        head_ok
    } else if !head_ok {
        assert(split_slash(s@)[0] == g);
        false
    } else {
        let rest = s.substring_char(i + 1, n);
        let rest_ok = segments_valid(rest);
        proof {
            assert(rest@ =~= s@.skip(i as int + 1));
            let whole = split_slash(s@);
            let tail = split_slash(rest@);
            assert(whole == seq![g] + tail);
            if rest_ok {
                assert forall|k: int| 0 <= k < whole.len() implies valid_segment(
                    #[trigger] whole[k],
                ) by {
                    if k == 0 {
                        assert(whole[0] == g);
                    } else {
                        assert(whole[k] == tail[k - 1]);
                    }
                }
            } else {
                let bad = choose|k: int| 0 <= k < tail.len() && !valid_segment(#[trigger] tail[k]);
                assert(whole[bad + 1] == tail[bad]);
                assert(!all_segments_valid(s@));
            }
        }
        rest_ok
    }
}

/// `u` with at most one leading and one trailing `'/'` removed.
pub open spec fn spec_trim(u: Seq<char>) -> Seq<char> {
    let a = if u.len() >= 1 && u[0] == '/' {
        u.skip(1)
    } else {
        u
    };
    if a.len() >= 1 && a[a.len() - 1] == '/' {
        a.take(a.len() - 1)
    } else {
        a
    }
}

fn trim_slashes(u: &str) -> (t: &str)
    ensures
        t@ == spec_trim(u@),
{
    let n = u.unicode_len();
    let start: usize = if n >= 1 && u.get_char(0) == '/' {
        1
    } else {
        0
    };
    let end: usize = if n > start && u.get_char(n - 1) == '/' {
        n - 1
    } else {
        n
    };
    let t = u.substring_char(start, end);
    proof {
        assert(t@ =~= spec_trim(u@));
    }
    t
}

/// A trimmed url is servable if it is empty (the media root itself) or all
/// of its segments are plain names.
pub open spec fn spec_resolvable(u: Seq<char>) -> bool {
    spec_trim(u).len() == 0 || all_segments_valid(spec_trim(u))
}

/// The filepath for the relative url `t` under `root`.
pub open spec fn spec_join(root: Seq<char>, t: Seq<char>) -> Seq<char> {
    if t.len() == 0 {
        root
    } else {
        root + seq!['/'] + t
    }
}

/// A canonical absolute media root: an absolute path, below the filesystem
/// root, with no empty, `.`, or `..` components and no trailing slash.
pub open spec fn is_media_root(p: Seq<char>) -> bool {
    &&& p.len() >= 2
    &&& p[0] == '/'
    &&& all_segments_valid(p.skip(1))
}

/// The canonical absolute directory that bounds all resolvable paths.
/// Constructed once at startup from an already-canonicalized path and
/// never mutated thereafter.
pub struct MediaRoot {
    path: String,
}

impl MediaRoot {
    /// The root as a sequence of characters.
    pub closed spec fn view(&self) -> Seq<char> {
        self.path@
    }

    /// The root is a canonical absolute path.
    pub open spec fn wf(&self) -> bool {
        is_media_root(self@)
    }

    /// Accepts `path` as a media root only if it is textually canonical
    /// and absolute. The caller is expected to canonicalize first; this
    /// check makes a non-canonical or relative root unrepresentable.
    pub fn new(path: String) -> (r: Option<MediaRoot>)
        ensures
            match r {
                Some(m) => m.wf() && m@ == path@ && is_media_root(path@),
                None => !is_media_root(path@),
            },
    {
        let s = path.as_str();
        let n = s.unicode_len();
        if n < 2 || !(s.get_char(0) == '/') {
            return None;
        }
        let rel = s.substring_char(1, n);
        proof {
            assert(rel@ =~= path@.skip(1));
        }
        if segments_valid(rel) {
            Some(MediaRoot { path })
        } else {
            None
        }
    }

    /// The root path itself.
    pub fn as_str(&self) -> (p: &str)
        ensures
            p@ == self@,
    {
        self.path.as_str()
    }
}

/// A validated pair of a relative url (no leading slash, no traversal
/// segments) and the absolute filepath it denotes under the media root.
#[derive(Debug, Clone)]
pub struct UrlAndFilePath {
    pub url: String,
    pub filepath: String,
}

impl UrlAndFilePath {
    /// The invariant of a resolved path: the filepath is the root extended
    /// by the url, and the url consists of plain segments only, so the
    /// filepath is a component-wise descendant of the root.
    pub open spec fn wf(&self, root: Seq<char>) -> bool {
        &&& self.filepath@ == spec_join(root, self.url@)
        &&& (self.url@.len() == 0 || all_segments_valid(self.url@))
    }
}

/// What resolution returns: the trimmed url and its filepath under `root`,
/// or `None` whenever any trimmed segment is empty, `.`, `..`, or otherwise
/// suspicious.
pub open spec fn spec_resolve(root: Seq<char>, u: Seq<char>) -> Option<(Seq<char>, Seq<char>)> {
    if spec_resolvable(u) {
        Some((spec_trim(u), spec_join(root, spec_trim(u))))
    } else {
        None
    }
}

/// Resolves an untrusted url to a relative url and an absolute filepath
/// under `root`. Each segment is whitelisted (plain names only) before the
/// join, so a traversal attempt is rejected before the filesystem is ever
/// consulted; the path need not exist. Fails silently with `None`.
pub fn get_url_and_filepath_from_url(root: &MediaRoot, url: &str) -> (r: Option<UrlAndFilePath>)
    requires
        root.wf(),
    ensures
        match r {
            Some(p) => spec_resolve(root@, url@) == Some((p.url@, p.filepath@)) && p.wf(root@),
            None => spec_resolve(root@, url@) is None,
        },
{
    let t = trim_slashes(url);
    if t.unicode_len() == 0 {
        return Some(UrlAndFilePath { url: String::new(), filepath: root.as_str().to_owned() });
    }
    if !segments_valid(t) {
        return None;
    }
    let sep = "/";
    proof {
        reveal_strlit("/");
        assert(sep@ =~= seq!['/']);
    }
    let filepath = root.as_str().to_owned().concat(sep).concat(t);
    proof {
        assert(filepath@ =~= spec_join(root@, t@));
    }
    Some(UrlAndFilePath { url: t.to_owned(), filepath })
}

/// What the inverse mapping returns for a canonical absolute path `p`:
/// the root itself maps to the empty url; a component-wise descendant of
/// the root maps to the relative remainder; anything else is rejected.
pub open spec fn spec_unresolve(root: Seq<char>, p: Seq<char>) -> Option<(Seq<char>, Seq<char>)> {
    if p == root {
        Some((Seq::<char>::empty(), p))
    } else if p.len() > root.len() && p.take(root.len() as int) == root && p[root.len() as int]
        == '/' && all_segments_valid(p.skip(root.len() as int + 1)) {
        Some((p.skip(root.len() as int + 1), p))
    } else {
        None
    }
}

/// Maps a canonical absolute filepath back to the relative url used to
/// build links, verifying component-wise (not by string prefix) that the
/// path stays under `root`. The caller canonicalizes the path first, so a
/// symlink discovered during directory traversal that points outside the
/// sandbox is rejected here. Fails silently with `None`.
pub fn get_url_and_filepath_from_path(root: &MediaRoot, path: &str) -> (r: Option<UrlAndFilePath>)
    requires
        root.wf(),
    ensures
        match r {
            Some(p) => spec_unresolve(root@, path@) == Some((p.url@, p.filepath@)) && p.wf(root@),
            None => spec_unresolve(root@, path@) is None,
        },
{
    let n = path.unicode_len();
    let root_str = root.as_str();
    let rl = root_str.unicode_len();
    if str_eq(path, root_str) {
        return Some(UrlAndFilePath { url: String::new(), filepath: path.to_owned() });
    }
    if n <= rl {
        proof {
            if path@.len() == root@.len() {
                assert(path@.take(rl as int) =~= path@);
            }
        }
        return None;
    }
    let prefix = path.substring_char(0, rl);
    if !str_eq(prefix, root_str) {
        return None;
    }
    if !(path.get_char(rl) == '/') {
        return None;
    }
    let rel = path.substring_char(rl + 1, n);
    proof {
        assert(rel@ =~= path@.skip(rl as int + 1));
    }
    if !segments_valid(rel) {
        return None;
    }
    proof {
        assert(path@ != root@);
        assert(path@.take(rl as int) =~= prefix@);
        if rel@.len() == 0 {
            assert(!valid_segment(split_slash(rel@)[0]));
        }
        assert(path@ =~= spec_join(root@, rel@));
    }
    Some(UrlAndFilePath { url: rel.to_owned(), filepath: path.to_owned() })
}

/// Validates an untrusted url by the same segment whitelist as
/// [`get_url_and_filepath_from_url`] and returns its cleaned relative
/// path, without naming a root. Fails silently with `None`.
pub fn get_path_from_url(url: String) -> (r: Option<String>)
    ensures
        match r {
            Some(p) => spec_resolvable(url@) && p@ == spec_trim(url@),
            None => !spec_resolvable(url@),
        },
{
    let t = trim_slashes(url.as_str());
    if t.unicode_len() == 0 {
        proof {
            assert(spec_trim(url@) =~= Seq::<char>::empty());
        }
        Some(String::new())
    } else if segments_valid(t) {
        Some(t.to_owned())
    } else {
        None
    }
}

/// Law: a url whose trimmed form holds an empty, `.`, or `..` segment is
/// never resolved; `resolve` returns `None` for it.
pub proof fn lemma_resolve_rejects_bad_segments(root: Seq<char>, u: Seq<char>, i: int)
    requires
        spec_trim(u).len() > 0,
        0 <= i < split_slash(spec_trim(u)).len(),
        !valid_segment(split_slash(spec_trim(u))[i]),
    ensures
        spec_resolve(root, u) is None,
{
}

/// Law: resolution round-trips. For any resolvable url, mapping the
/// resolved filepath back through the inverse yields exactly the same
/// url and filepath pair.
pub proof fn lemma_resolve_unresolve_round_trip(root: Seq<char>, u: Seq<char>)
    requires
        is_media_root(root),
    ensures
        spec_resolve(root, u) matches Some(rp) ==> spec_unresolve(root, rp.1) == Some(rp),
{
    if spec_resolve(root, u) is Some {
        let t = spec_trim(u);
        let fp = spec_join(root, t);
        if t.len() == 0 {
            assert(t =~= Seq::<char>::empty());
        } else {
            assert(fp.len() == root.len() + 1 + t.len());
            assert(fp != root);
            assert(fp.take(root.len() as int) =~= root);
            assert(fp[root.len() as int] == '/');
            assert(fp.skip(root.len() as int + 1) =~= t);
        }
    }
}

} // verus!
