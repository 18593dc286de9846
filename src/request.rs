//! Mapping a request path of the development server to a path under the
//! output directory, with no way out of it.

use vstd::prelude::*;
use vstd::string::*;
use crate::disk::copy_path;

verus! {

/// The value of an ASCII hexadecimal digit.
pub open spec fn hex_value(b: u8) -> Option<u8> {
    if 48 <= b <= 57 {
        Some((b - 48) as u8)
    } else if 97 <= b <= 102 {
        Some((b - 87) as u8)
    } else if 65 <= b <= 70 {
        Some((b - 55) as u8)
    } else {
        None
    }
}

/// Percent-decoding of bytes: each `%` followed by two hexadecimal digits stands
/// for the byte they spell; every other byte stands for itself.
pub open spec fn percent_decode_bytes(b: Seq<u8>) -> Seq<u8>
    decreases b.len(),
{
    if b.len() == 0 {
        Seq::empty()
    } else if b.len() >= 3 && b[0] == 37 && hex_value(b[1]) is Some && hex_value(b[2]) is Some {
        seq![(hex_value(b[1])->Some_0 * 16 + hex_value(b[2])->Some_0) as u8]
            + percent_decode_bytes(b.subrange(3, b.len() as int))
    } else {
        seq![b[0]] + percent_decode_bytes(b.subrange(1, b.len() as int))
    }
}

/// The text that `s` percent-decodes to, when that is UTF-8.
pub open spec fn percent_decoded(s: Seq<char>) -> Option<Seq<char>> {
    let b = percent_decode_bytes(vstd::utf8::encode_utf8(s));
    if vstd::utf8::valid_utf8(b) {
        Some(vstd::utf8::decode_utf8(b))
    } else {
        None
    }
}

/// Relies on percent_encoding::percent_decode_str followed by
/// PercentDecode::decode_utf8: `%` and two hexadecimal digits decode to one
/// byte, and the bytes must then be UTF-8.
#[verifier::external_body]
fn percent_decode(s: &str) -> (r: Option<String>)
    ensures
        match r {
            Some(t) => percent_decoded(s@) == Some(t@),
            None => percent_decoded(s@) is None,
        },
{
    match percent_encoding::percent_decode_str(s).decode_utf8() {
        Ok(t) => Some(t.into_owned()),
        Err(_) => None,
    }
}

/// `s` cut at each `/`: one more segment than there are slashes.
pub open spec fn split_slash(s: Seq<char>) -> Seq<Seq<char>>
    decreases s.len(),
{
    if s.len() == 0 {
        seq![Seq::empty()]
    } else {
        let init = split_slash(s.drop_last());
        if s.last() == '/' {
            init.push(Seq::empty())
        } else {
            init.update(init.len() - 1, init.last().push(s.last()))
        }
    }
}

/// A segment that could lead out of the output directory or name a hidden file:
/// it starts with a dot, or holds a backslash.
pub open spec fn is_bad_segment(g: Seq<char>) -> bool {
    (g.len() > 0 && g[0] == '.') || g.contains('\\')
}

/// The segments of `s` that are not empty, in order.
pub open spec fn nonempty_segments(s: Seq<Seq<char>>) -> Seq<Seq<char>> {
    s.filter(|g: Seq<char>| g.len() > 0)
}

/// Where a request for `raw` leads under `root`: `None` when the path does not
/// decode or one of its segments is bad; otherwise the root followed by the
/// non-empty segments.
pub open spec fn resolved(root: Seq<Seq<char>>, raw: Seq<char>) -> Option<Seq<Seq<char>>> {
    match percent_decoded(raw) {
        None => None,
        Some(t) => if exists|i: int| 0 <= i < split_slash(t).len() && #[trigger] is_bad_segment(split_slash(t)[i]) {
            None
        } else {
            Some(root + nonempty_segments(split_slash(t)))
        },
    }
}

proof fn lemma_split_nonempty(s: Seq<char>)
    ensures
        split_slash(s).len() >= 1,
    decreases s.len(),
{
    if s.len() > 0 {
        lemma_split_nonempty(s.drop_last());
    }
}

/// The segments of `t`, cut at each `/`.
pub fn split_segments(t: &str) -> (r: Vec<String>)
    ensures
        r.deep_view() == split_slash(t@),
{
    let n = t.unicode_len();
    let mut done: Vec<String> = Vec::new();
    let mut start: usize = 0;
    let mut i: usize = 0;
    assert(t@.take(0) =~= Seq::<char>::empty());
    assert(done.deep_view() =~= Seq::<Seq<char>>::empty());
    assert(t@.subrange(0, 0) =~= Seq::<char>::empty());
    assert(split_slash(Seq::<char>::empty()) == done.deep_view().push(Seq::<char>::empty()));
    while i < n
        invariant
            n == t@.len(),
            start <= i <= n,
            split_slash(t@.take(i as int)) == done.deep_view().push(t@.subrange(start as int, i as int)),
        decreases n - i,
    {
        let c = t.get_char(i);
        proof {
            lemma_split_nonempty(t@.take(i as int));
            assert(t@.take(i + 1).drop_last() =~= t@.take(i as int));
            assert(t@.take(i + 1).last() == c);
        }
        if c == '/' {
            let seg = t.substring_char(start, i).to_owned();
            let ghost before = done.deep_view();
            done.push(seg);
            assert(done.deep_view() =~= before.push(t@.subrange(start as int, i as int)));
            start = i + 1;
            assert(t@.subrange(start as int, i + 1) =~= Seq::<char>::empty());
        } else {
            assert(t@.subrange(start as int, i + 1) =~= t@.subrange(start as int, i as int).push(c));
            assert(done.deep_view().push(t@.subrange(start as int, i + 1)) =~= done.deep_view().push(
                t@.subrange(start as int, i as int),
            ).update(done.deep_view().len() as int, t@.subrange(start as int, i + 1)));
        }
        i += 1;
    }
    let last = t.substring_char(start, n).to_owned();
    let ghost before = done.deep_view();
    done.push(last);
    assert(done.deep_view() =~= before.push(t@.subrange(start as int, n as int)));
    assert(t@.take(n as int) =~= t@);
    done
}

proof fn lemma_split_has_no_slash(s: Seq<char>)
    ensures
        forall|i: int| 0 <= i < split_slash(s).len() ==> !(#[trigger] split_slash(s)[i]).contains('/'),
    decreases s.len(),
{
    if s.len() > 0 {
        lemma_split_has_no_slash(s.drop_last());
        lemma_split_nonempty(s.drop_last());
        let init = split_slash(s.drop_last());
        if s.last() != '/' {
            let l = init.last();
            assert forall|k: int| 0 <= k < l.push(s.last()).len() implies l.push(s.last())[k] != '/' by {
                if k < l.len() {
                    assert(!l.contains('/'));
                    assert(l.push(s.last())[k] == l[k]);
                }
            }
        }
        assert forall|i: int| 0 <= i < split_slash(s).len() implies !(#[trigger] split_slash(s)[i]).contains('/') by {
            if s.last() == '/' {
                if i < init.len() {
                    assert(split_slash(s)[i] == init[i]);
                } else {
                    assert(split_slash(s)[i] =~= Seq::<char>::empty());
                }
            } else {
                if i < init.len() - 1 {
                    assert(split_slash(s)[i] == init[i]);
                } else {
                    assert(split_slash(s)[i] == init.last().push(s.last()));
                }
            }
        }
    }
}

/// Whether a segment starts with a dot or holds a backslash.
pub fn segment_is_bad(g: &str) -> (r: bool)
    ensures
        r == is_bad_segment(g@),
{
    let n = g.unicode_len();
    if n > 0 && g.get_char(0) == '.' {
        return true;
    }
    let mut i: usize = 0;
    while i < n
        invariant
            n == g@.len(),
            0 <= i <= n,
            !(n > 0 && g@[0] == '.'),
            forall|k: int| 0 <= k < i ==> g@[k] != '\\',
        decreases n - i,
    {
        if g.get_char(i) == '\\' {
            assert(g@.contains('\\'));
            return true;
        }
        i += 1;
    }
    false
}

/// The path under `root` that a request for `raw` names: `None` when `raw` does
/// not percent-decode to UTF-8, or when a segment of it starts with a dot or
/// holds a backslash. A path that comes back lies under `root`, and none of the
/// segments after `root` is empty, holds a `/`, or starts with a dot, so none
/// of them is `..`.
pub fn resolve_request(root: &Vec<String>, raw: &str) -> (r: Option<Vec<String>>)
    ensures
        match resolved(root.deep_view(), raw@) {
            None => r is None,
            Some(p) => r is Some && r->Some_0.deep_view() == p,
        },
        r is Some ==> {
            let p = r->Some_0.deep_view();
            &&& root.deep_view().len() <= p.len()
            &&& p.take(root.deep_view().len() as int) == root.deep_view()
            &&& forall|k: int|
                root.deep_view().len() <= k < p.len() ==> (#[trigger] p[k]).len() > 0
                    && !is_bad_segment(p[k]) && !p[k].contains('/')
        },
{
    let decoded = percent_decode(raw);
    if decoded.is_none() {
        return None;
    }
    let t = decoded.unwrap();
    assert(percent_decoded(raw@) == Some(t@));
    let segs = split_segments(t.as_str());
    proof {
        lemma_split_has_no_slash(t@);
    }
    let mut i: usize = 0;
    while i < segs.len()
        invariant
            percent_decoded(raw@) == Some(t@),
            segs.deep_view() == split_slash(t@),
            0 <= i <= segs.len(),
            forall|k: int| 0 <= k < i ==> !is_bad_segment(#[trigger] segs.deep_view()[k]),
        decreases segs.len() - i,
    {
        if segment_is_bad(segs[i].as_str()) {
            assert(0 <= i < split_slash(t@).len() && is_bad_segment(split_slash(t@)[i as int]));
            assert(exists|k: int| 0 <= k < split_slash(t@).len() && #[trigger] is_bad_segment(split_slash(t@)[k]));
            return None;
        }
        i += 1;
    }
    let mut out = copy_path(root);
    let mut j: usize = 0;
    assert(segs.deep_view().take(0) =~= Seq::<Seq<char>>::empty());
    proof {
        reveal(Seq::filter);
    }
    assert(root.deep_view() + nonempty_segments(segs.deep_view().take(0)) =~= root.deep_view());
    while j < segs.len()
        invariant
            percent_decoded(raw@) == Some(t@),
            segs.deep_view() == split_slash(t@),
            0 <= j <= segs.len(),
            forall|k: int| 0 <= k < segs.len() ==> !is_bad_segment(#[trigger] segs.deep_view()[k]),
            forall|k: int| 0 <= k < segs.len() ==> !(#[trigger] segs.deep_view()[k]).contains('/'),
            out.deep_view() == root.deep_view() + nonempty_segments(segs.deep_view().take(j as int)),
            root.deep_view().len() <= out.deep_view().len(),
            out.deep_view().take(root.deep_view().len() as int) == root.deep_view(),
            forall|k: int|
                root.deep_view().len() <= k < out.deep_view().len() ==> (#[trigger] out.deep_view()[k]).len() > 0
                    && !is_bad_segment(out.deep_view()[k]) && !out.deep_view()[k].contains('/'),
        decreases segs.len() - j,
    {
        let ghost before = out.deep_view();
        let ghost g = segs.deep_view()[j as int];
        proof {
            reveal(Seq::filter);
            assert(segs.deep_view().take(j + 1).drop_last() =~= segs.deep_view().take(j as int));
            assert(segs.deep_view().take(j + 1).last() == g);
        }
        if segs[j].as_str().unicode_len() > 0 {
            out.push(segs[j].clone());
            assert(out.deep_view() =~= before.push(g));
            assert(out.deep_view().take(root.deep_view().len() as int) =~= before.take(root.deep_view().len() as int));
        }
        j += 1;
    }
    assert(segs.deep_view().take(segs.len() as int) =~= segs.deep_view());
    Some(out)
}

/// The name has an extension: a dot after its first character.
pub open spec fn has_extension(name: Seq<char>) -> bool {
    exists|i: int| 0 < i < name.len() && name[i] == '.'
}

/// Whether `name` has an extension.
pub fn name_has_extension(name: &str) -> (r: bool)
    ensures
        r == has_extension(name@),
{
    let n = name.unicode_len();
    let mut i: usize = 1;
    while i < n
        invariant
            n == name@.len(),
            1 <= i,
            forall|k: int| 0 < k < i && k < n ==> name@[k] != '.',
        decreases n - i,
    {
        if name.get_char(i) == '.' {
            return true;
        }
        i += 1;
    }
    false
}

/// What a look at a path of the output directory found.
#[derive(Debug, Clone, Copy, PartialEq, Eq, Structural)]
pub enum Probe {
    File,
    Dir,
    Missing,
    Unreadable,
}

/// What to do with a request after a look at a path.
#[derive(Debug, Clone, PartialEq, Eq)]
pub enum Lookup {
    /// Serve the file at this path.
    Serve(Vec<String>),
    /// Look at this path instead.
    Retry(Vec<String>),
    /// Answer with the "not found" page.
    NotFound,
}

/// The path with `suffix` appended to its last segment.
pub open spec fn with_suffix(p: Seq<Seq<char>>, suffix: Seq<char>) -> Seq<Seq<char>> {
    p.update(p.len() - 1, p.last() + suffix)
}

/// What the first look at `path` leads to: a file is served; for a directory,
/// its `index.html` is tried; for a missing path whose last segment has no
/// extension, the same path with `.html` appended is tried; anything else is
/// not found.
pub fn after_first_probe(path: Vec<String>, probe: Probe) -> (r: Lookup)
    ensures
        match probe {
            Probe::File => r is Serve && r->Serve_0.deep_view() == path.deep_view(),
            Probe::Dir => r is Retry && r->Retry_0.deep_view() == path.deep_view().push("index.html"@),
            Probe::Missing => if path.len() > 0 && !has_extension(path.deep_view().last()) {
                r is Retry && r->Retry_0.deep_view() == with_suffix(path.deep_view(), ".html"@)
            } else {
                r is NotFound
            },
            Probe::Unreadable => r is NotFound,
        },
{
    match probe {
        Probe::File => Lookup::Serve(path),
        Probe::Dir => {
            let mut p = path;
            let ghost before = p.deep_view();
            p.push(String::from_str("index.html"));
            assert(p.deep_view() =~= before.push("index.html"@));
            Lookup::Retry(p)
        },
        Probe::Missing => {
            let n = path.len();
            if n == 0 || name_has_extension(path[n - 1].as_str()) {
                return Lookup::NotFound;
            }
            let last = path[n - 1].clone().concat(".html");
            let mut p = path;
            let ghost before = p.deep_view();
            p.set(n - 1, last);
            assert(p.deep_view() =~= with_suffix(before, ".html"@));
            Lookup::Retry(p)
        },
        Probe::Unreadable => Lookup::NotFound,
    }
}

/// What the second look leads to: the path found is served, or nothing is.
pub fn after_second_probe(path: Vec<String>, probe: Probe) -> (r: Lookup)
    ensures
        probe == Probe::File ==> r is Serve && r->Serve_0.deep_view() == path.deep_view(),
        probe != Probe::File ==> r is NotFound,
{
    match probe {
        Probe::File => Lookup::Serve(path),
        _ => Lookup::NotFound,
    }
}

/// The extension of a name: what follows its last dot, when it has one.
pub open spec fn extension_of(name: Seq<char>) -> Option<Seq<char>> {
    if has_extension(name) {
        let i = choose|i: int| 0 < i < name.len() && name[i] == '.' && forall|j: int| i < j < name.len() ==> name[j] != '.';
        Some(name.subrange(i + 1, name.len() as int))
    } else {
        None
    }
}

/// Whether two strings are the same text.
pub fn same_text(a: &str, b: &str) -> (r: bool)
    ensures
        r == (a@ == b@),
{
    let n = a.unicode_len();
    if n != b.unicode_len() {
        return false;
    }
    let mut i: usize = 0;
    while i < n
        invariant
            n == a@.len(),
            n == b@.len(),
            0 <= i <= n,
            forall|k: int| 0 <= k < i ==> a@[k] == b@[k],
        decreases n - i,
    {
        if a.get_char(i) != b.get_char(i) {
            return false;
        }
        i += 1;
    }
    assert(a@ =~= b@);
    true
}

/// The media type served for a file with the given extension.
pub open spec fn content_type_of(ext: Option<Seq<char>>) -> Seq<char> {
    match ext {
        Some(e) => if e == "html"@ {
            "text/html"@
        } else if e == "xml"@ {
            "application/xml"@
        } else if e == "css"@ {
            "text/css"@
        } else if e == "js"@ {
            "application/javascript"@
        } else if e == "png"@ {
            "image/png"@
        } else if e == "ico"@ {
            "image/x-icon"@
        } else if e == "svg"@ {
            "image/svg+xml"@
        } else {
            "application/octet-stream"@
        },
        None => "application/octet-stream"@,
    }
}

/// The media type to serve a file named `name` with.
pub fn content_type(name: &str) -> (r: &'static str)
    ensures
        r@ == content_type_of(extension_of(name@)),
{
    let n = name.unicode_len();
    let mut i: usize = n;
    while i > 1
        invariant
            n == name@.len(),
            i <= n,
            forall|j: int| i <= j < n ==> name@[j] != '.',
        decreases i,
    {
        if name.get_char(i - 1) == '.' {
            let ghost k = (i - 1) as int;
            assert(has_extension(name@));
            let ghost e = extension_of(name@);
            proof {
                let c = choose|c: int| 0 < c < name@.len() && name@[c] == '.' && forall|j: int| c < j < name@.len() ==> name@[j] != '.';
                if c < k {
                    assert(name@[k] != '.');
                } else if c > k {
                    assert(name@[c] != '.');
                }
                assert(c == k);
            }
            let ext = name.substring_char(i, n);
            assert(e == Some(ext@));
            return if same_text(ext, "html") {
                "text/html"
            } else if same_text(ext, "xml") {
                "application/xml"
            } else if same_text(ext, "css") {
                "text/css"
            } else if same_text(ext, "js") {
                "application/javascript"
            } else if same_text(ext, "png") {
                "image/png"
            } else if same_text(ext, "ico") {
                "image/x-icon"
            } else if same_text(ext, "svg") {
                "image/svg+xml"
            } else {
                "application/octet-stream"
            };
        }
        i -= 1;
    }
    assert(!has_extension(name@));
    "application/octet-stream"
}

} // verus!
