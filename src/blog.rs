//! Which blog posts are listed, and in what order.

use vstd::prelude::*;
use vstd::multiset::Multiset;
use vstd::string::*;
use crate::asset::{AllVec, ToFile, all};
use crate::disk::{ReadError, copy_path};
use crate::request::extension_of;

verus! {

/// What is known of a post for listing it.
#[derive(Debug, Clone, Copy, PartialEq, Eq, Structural)]
pub enum PostState {
    /// Its file could not be read.
    Unreadable,
    /// It has no publication date.
    Draft,
    /// It was published on this year, month and day.
    Published(u32, u8, u8),
}

/// A post, by the stem of its file name.
#[derive(Debug, Clone, PartialEq, Eq)]
pub struct PostKey {
    pub stem: String,
    pub state: PostState,
}

/// `a` comes before `b` in the order of character codes.
pub open spec fn lex_lt(a: Seq<char>, b: Seq<char>) -> bool
    decreases a.len(),
{
    if a.len() == 0 {
        b.len() > 0
    } else if b.len() == 0 {
        false
    } else if a[0] != b[0] {
        (a[0] as u32) < (b[0] as u32)
    } else {
        lex_lt(a.drop_first(), b.drop_first())
    }
}

pub open spec fn rank(s: PostState) -> int {
    match s {
        PostState::Unreadable => 0,
        PostState::Draft => 1,
        PostState::Published(_, _, _) => 2,
    }
}

pub open spec fn day_number(s: PostState) -> int {
    match s {
        PostState::Published(y, m, d) => y * 10000 + m * 100 + d,
        _ => 0,
    }
}

/// `a` is listed before `b`: unreadable posts first, then drafts, then
/// published posts from the newest; unreadable posts and drafts by stem.
pub open spec fn listed_before(a: PostKey, b: PostKey) -> bool {
    if rank(a.state) != rank(b.state) {
        rank(a.state) < rank(b.state)
    } else if rank(a.state) == 2 {
        day_number(a.state) > day_number(b.state)
    } else {
        lex_lt(a.stem@, b.stem@)
    }
}

/// No post is listed after one that should follow it.
pub open spec fn is_listing_order(s: Seq<PostKey>) -> bool {
    forall|i: int, j: int| 0 <= i < j < s.len() ==> !listed_before(s[j], s[i])
}

proof fn lemma_lex_irreflexive_transitive(a: Seq<char>, b: Seq<char>, c: Seq<char>)
    ensures
        !lex_lt(a, a),
        lex_lt(a, b) ==> !lex_lt(b, a),
        lex_lt(a, b) && lex_lt(b, c) ==> lex_lt(a, c),
    decreases a.len(),
{
    if a.len() > 0 && b.len() > 0 && c.len() > 0 {
        lemma_lex_irreflexive_transitive(a.drop_first(), b.drop_first(), c.drop_first());
    }
    if a.len() > 0 && b.len() > 0 {
        lemma_lex_irreflexive_transitive(a.drop_first(), b.drop_first(), b.drop_first());
    }
    if a.len() > 0 {
        lemma_lex_irreflexive_transitive(a.drop_first(), a.drop_first(), a.drop_first());
    }
}

proof fn lemma_listed_before_strict(a: PostKey, b: PostKey, c: PostKey)
    ensures
        !listed_before(a, a),
        listed_before(a, b) ==> !listed_before(b, a),
        listed_before(a, b) && listed_before(b, c) ==> listed_before(a, c),
{
    lemma_lex_irreflexive_transitive(a.stem@, b.stem@, c.stem@);
}

/// Whether `a` comes before `b` in the order of character codes.
pub fn text_before(a: &str, b: &str) -> (r: bool)
    ensures
        r == lex_lt(a@, b@),
{
    let n = a.unicode_len();
    let m = b.unicode_len();
    let mut i: usize = 0;
    assert(a@.skip(0) =~= a@ && b@.skip(0) =~= b@);
    while i < n && i < m
        invariant
            n == a@.len(),
            m == b@.len(),
            0 <= i <= n,
            i <= m,
            forall|k: int| 0 <= k < i ==> a@[k] == b@[k],
            lex_lt(a@, b@) == lex_lt(a@.skip(i as int), b@.skip(i as int)),
        decreases n - i,
    {
        let x = a.get_char(i);
        let y = b.get_char(i);
        assert(a@.skip(i as int)[0] == x && b@.skip(i as int)[0] == y);
        if x != y {
            return (x as u32) < (y as u32);
        }
        assert(a@.skip(i as int).drop_first() =~= a@.skip(i + 1));
        assert(b@.skip(i as int).drop_first() =~= b@.skip(i + 1));
        i += 1;
    }
    assert(a@.skip(i as int).len() == n - i);
    i >= n && i < m
}

/// Whether `a` is listed before `b`.
pub fn post_before(a: &PostKey, b: &PostKey) -> (r: bool)
    ensures
        r == listed_before(*a, *b),
{
    match (a.state, b.state) {
        (PostState::Published(ya, ma, da), PostState::Published(yb, mb, db)) => {
            let na = ya as u64 * 10000 + ma as u64 * 100 + da as u64;
            let nb = yb as u64 * 10000 + mb as u64 * 100 + db as u64;
            na > nb
        },
        (PostState::Published(_, _, _), _) => false,
        (_, PostState::Published(_, _, _)) => true,
        (PostState::Unreadable, PostState::Draft) => true,
        (PostState::Draft, PostState::Unreadable) => false,
        _ => text_before(a.stem.as_str(), b.stem.as_str()),
    }
}

/// The posts in listing order: the same posts, with none listed after one
/// that should follow it.
pub fn sort_posts(posts: Vec<PostKey>) -> (r: Vec<PostKey>)
    ensures
        r@.to_multiset() == posts@.to_multiset(),
        is_listing_order(r@),
{
    broadcast use vstd::seq_lib::group_to_multiset_ensures;

    let mut out: Vec<PostKey> = Vec::new();
    let mut rest = posts;
    let ghost orig = rest@;
    while rest.len() > 0
        invariant
            out@.to_multiset().add(rest@.to_multiset()) == orig.to_multiset(),
            is_listing_order(out@),
        decreases rest.len(),
    {
        let ghost rest0 = rest@;
        let x = rest.remove(0);
        let mut p: usize = 0;
        while p < out.len() && !post_before(&x, &out[p])
            invariant
                0 <= p <= out.len(),
                forall|i: int| 0 <= i < p ==> !listed_before(x, #[trigger] out@[i]),
            decreases out.len() - p,
        {
            p += 1;
        }
        let ghost old_out = out@;
        proof {
            assert forall|j: int| p <= j < old_out.len() implies !listed_before(#[trigger] old_out[j], x) by {
                lemma_listed_before_strict(old_out[j], x, old_out[p as int]);
                lemma_listed_before_strict(x, old_out[p as int], old_out[p as int]);
            }
        }
        out.insert(p, x);
        proof {
            assert forall|i: int, j: int| 0 <= i < j < out@.len() implies !listed_before(out@[j], out@[i]) by {
                if i < p && j == p {
                } else if i == p && j > p {
                    assert(out@[j] == old_out[j - 1]);
                } else {
                    let oi = if i < p { i } else { i - 1 };
                    let oj = if j < p { j } else { j - 1 };
                    assert(out@[i] == old_out[oi]);
                    assert(out@[j] == old_out[oj]);
                }
            }
            vstd::seq_lib::to_multiset_insert(old_out, p as int, x);
            vstd::seq_lib::to_multiset_remove(rest0, 0);
            assert(rest0.remove(0) =~= rest@);
            assert(rest0[0] == x);
            assert(rest0.contains(x));
            vstd::seq_lib::to_multiset_contains(rest0, x);
            assert(rest0.to_multiset().count(x) > 0);
            assert(rest0.to_multiset() =~= rest@.to_multiset().insert(x));
            assert(out@.to_multiset().add(rest@.to_multiset()) =~= old_out.to_multiset().add(
                rest0.to_multiset(),
            ));
        }
    }
    proof {
        assert(rest@.to_multiset() =~= Multiset::empty());
        assert(out@.to_multiset().add(Multiset::empty()) =~= out@.to_multiset());
    }
    out
}

/// Whether the post is a draft: readable, with no publication date.
pub fn is_draft(post: &PostKey) -> (r: bool)
    ensures
        r == (post.state == PostState::Draft),
{
    match post.state {
        PostState::Draft => true,
        _ => false,
    }
}

/// The posts that are listed: all of them when drafts are built, otherwise
/// all but the drafts, in the same order.
pub open spec fn visible_of(posts: Seq<PostKey>, drafts: bool) -> Seq<PostKey> {
    posts.filter(|p: PostKey| drafts || p.state != PostState::Draft)
}

/// The posts that are listed: all of them when drafts are built, otherwise
/// all but the drafts, in the same order.
pub fn visible_posts(posts: Vec<PostKey>, drafts: bool) -> (r: Vec<PostKey>)
    ensures
        r@ == visible_of(posts@, drafts),
{
    let mut out: Vec<PostKey> = Vec::new();
    let mut i: usize = 0;
    let n = posts.len();
    let mut rest = posts;
    let ghost orig = rest@;
    proof {
        reveal(Seq::filter);
        assert(orig.take(0) =~= Seq::<PostKey>::empty());
    }
    while i < n
        invariant
            n == orig.len(),
            0 <= i <= n,
            rest@ == orig.skip(i as int),
            out@ == visible_of(orig.take(i as int), drafts),
        decreases n - i,
    {
        let x = rest.remove(0);
        proof {
            reveal(Seq::filter);
            assert(orig.take(i + 1).drop_last() =~= orig.take(i as int));
            assert(orig.take(i + 1).last() == x);
            assert(rest@ =~= orig.skip(i + 1));
        }
        if drafts || !is_draft(&x) {
            out.push(x);
        }
        i += 1;
    }
    assert(orig.take(n as int) =~= orig);
    out
}

/// The path is a post's source: a file name with the extension `md`.
pub open spec fn is_post_source(p: Seq<Seq<char>>) -> bool {
    p.len() > 0 && extension_of(p.last()) == Some("md"@)
}

/// The post sources of a listing, in listing order.
pub open spec fn post_sources(listing: Seq<Seq<Seq<char>>>) -> Seq<Seq<Seq<char>>> {
    listing.filter(|p: Seq<Seq<char>>| is_post_source(p))
}

/// Where the page of the post at `src` is written: `out_dir` and the stem of
/// its file name with `.html`.
pub open spec fn post_output(out_dir: Seq<Seq<char>>, src: Seq<Seq<char>>) -> Seq<Seq<char>> {
    out_dir.push(src.last().subrange(0, src.last().len() - 3) + ".html"@)
}

proof fn lemma_last_dot_exists(s: Seq<char>, i: int)
    requires
        0 < i < s.len(),
        s[i] == '.',
    ensures
        exists|c: int| 0 < c < s.len() && s[c] == '.' && forall|j: int| c < j < s.len() ==> s[j] != '.',
    decreases s.len() - i,
{
    if exists|j: int| i < j < s.len() && s[j] == '.' {
        let j = choose|j: int| i < j < s.len() && s[j] == '.';
        lemma_last_dot_exists(s, j);
    } else {
        assert(forall|j: int| i < j < s.len() ==> s[j] != '.');
    }
}

proof fn lemma_md_extension(s: Seq<char>)
    ensures
        (extension_of(s) == Some("md"@)) == (s.len() >= 4 && s[s.len() - 3] == '.' && s[s.len()
            - 2] == 'm' && s[s.len() - 1] == 'd'),
{
    reveal_strlit("md");
    assert("md"@.len() == 2 && "md"@[0] == 'm' && "md"@[1] == 'd');
    let n = s.len();
    if n >= 4 && s[n - 3] == '.' && s[n - 2] == 'm' && s[n - 1] == 'd' {
        let k = n - 3;
        assert(0 < k < n && s[k] == '.');
        assert(crate::request::has_extension(s));
        let c = choose|c: int| 0 < c < s.len() && s[c] == '.' && forall|j: int| c < j < s.len() ==> s[j] != '.';
        if c < k {
            assert(s[k] != '.');
        } else if c > k {
            assert(s[c] != '.');
        }
        assert(s.subrange(k + 1, n as int) =~= "md"@);
    } else if extension_of(s) == Some("md"@) {
        let i = choose|i: int| 0 < i < s.len() && s[i] == '.';
        lemma_last_dot_exists(s, i);
        let c = choose|c: int| 0 < c < s.len() && s[c] == '.' && forall|j: int| c < j < s.len() ==> s[j] != '.';
        let t = s.subrange(c + 1, n as int);
        assert(t == "md"@);
        assert(t.len() == n - c - 1);
        assert(c == n - 3);
        assert(t[0] == s[c + 1]);
        assert(t[1] == s[c + 2]);
    }
}

/// Each node of `nodes` writes the page of the post at the same position of
/// `posts`, made by `render` from that post's source path.
pub open spec fn plan_matches<R, F: Fn(Vec<String>) -> R>(
    nodes: Seq<ToFile<R>>,
    out_dir: Seq<Seq<char>>,
    posts: Seq<Seq<Seq<char>>>,
    render: F,
) -> bool {
    &&& nodes.len() == posts.len()
    &&& forall|k: int|
        0 <= k < posts.len() ==> (#[trigger] nodes[k]).path.deep_view() == post_output(out_dir, posts[k])
            && exists|src: Vec<String>| src.deep_view() == posts[k] && render.ensures((src,), nodes[k].asset)
}

/// Whether a file name has the extension `md`.
pub fn is_markdown_name(name: &str) -> (r: bool)
    ensures
        r == (extension_of(name@) == Some("md"@)),
        r ==> name@.len() >= 4,
{
    proof {
        lemma_md_extension(name@);
    }
    let n = name.unicode_len();
    if n < 4 {
        return false;
    }
    let a = name.get_char(n - 3);
    let b = name.get_char(n - 2);
    let c = name.get_char(n - 1);
    a == '.' && b == 'm' && c == 'd'
}

/// The build plan of the blog's post pages, made from a listing of its source
/// directory: for each child with the extension `md`, in listing order, a node
/// that writes what `render` makes of that source to `out_dir` and the stem
/// with `.html`. A listing that failed gives an empty plan.
pub fn blog_plan<R, F: Fn(Vec<String>) -> R>(
    listing: Result<Vec<Vec<String>>, ReadError>,
    out_dir: &Vec<String>,
    render: F,
) -> (r: AllVec<ToFile<R>>)
    requires
        forall|src: Vec<String>| #[trigger] render.requires((src,)),
    ensures
        match listing {
            Err(_) => r.assets.len() == 0,
            Ok(v) => plan_matches(r.assets@, out_dir.deep_view(), post_sources(v.deep_view()), render),
        },
{
    let v = match listing {
        Ok(v) => v,
        Err(_) => return all(Vec::new()),
    };
    let ghost lv = v.deep_view();
    let mut nodes: Vec<ToFile<R>> = Vec::new();
    let mut i: usize = 0;
    proof {
        reveal(Seq::filter);
        assert(lv.take(0) =~= Seq::<Seq<Seq<char>>>::empty());
    }
    while i < v.len()
        invariant
            lv == v.deep_view(),
            0 <= i <= v.len(),
            forall|src: Vec<String>| #[trigger] render.requires((src,)),
            plan_matches(nodes@, out_dir.deep_view(), post_sources(lv.take(i as int)), render),
        decreases v.len() - i,
    {
        let ghost before = post_sources(lv.take(i as int));
        proof {
            reveal(Seq::filter);
            assert(lv.take(i + 1).drop_last() =~= lv.take(i as int));
            assert(lv.take(i + 1).last() == lv[i as int]);
        }
        let n = v[i].len();
        if n > 0 && is_markdown_name(v[i][n - 1].as_str()) {
            assert(v[i as int].deep_view().last() == v[i as int][n - 1]@);
            assert(is_post_source(lv[i as int]));
            assert(post_sources(lv.take(i + 1)) == before.push(lv[i as int]));
            let name = v[i][n - 1].as_str();
            let len = name.unicode_len();
            let page = name.substring_char(0, len - 3).to_owned().concat(".html");
            let mut out = copy_path(out_dir);
            let ghost od = out.deep_view();
            out.push(page);
            assert(out.deep_view() =~= od.push(page@));
            let src = copy_path(&v[i]);
            let ghost src_g = src;
            let ghost src_view = src.deep_view();
            let asset = render(src);
            assert(render.ensures((src_g,), asset));
            assert(out.deep_view() == post_output(out_dir.deep_view(), lv[i as int]));
            let ghost old_nodes = nodes@;
            nodes.push(ToFile::new(asset, out));
            proof {
                assert forall|k: int| 0 <= k < nodes.len() implies (#[trigger] nodes[k]).path.deep_view()
                    == post_output(out_dir.deep_view(), post_sources(lv.take(i + 1))[k])
                    && exists|s: Vec<String>|
                    s.deep_view() == post_sources(lv.take(i + 1))[k] && render.ensures(
                        (s,),
                        nodes[k].asset,
                    ) by {
                    if k < old_nodes.len() {
                        assert(nodes[k] == old_nodes[k]);
                        assert(post_sources(lv.take(i + 1))[k] == before[k]);
                    } else {
                        assert(src_view == lv[i as int]);
                        assert(post_sources(lv.take(i + 1))[k] == lv[i as int]);
                        assert(src_g.deep_view() == post_sources(lv.take(i + 1))[k]
                            && render.ensures((src_g,), nodes[k].asset));
                    }
                }
            }
        } else {
            proof {
                if n > 0 {
                    assert(v[i as int].deep_view().last() == v[i as int][n - 1]@);
                }
                assert(!is_post_source(lv[i as int]));
                assert(post_sources(lv.take(i + 1)) == before);
                assert forall|k: int| 0 <= k < nodes.len() implies (#[trigger] nodes[k]).path.deep_view()
                    == post_output(out_dir.deep_view(), post_sources(lv.take(i + 1))[k])
                    && exists|s: Vec<String>|
                    s.deep_view() == post_sources(lv.take(i + 1))[k] && render.ensures(
                        (s,),
                        nodes[k].asset,
                    ) by {
                    assert(post_sources(lv.take(i + 1))[k] == before[k]);
                    assert(nodes[k].path.deep_view() == post_output(out_dir.deep_view(), before[k]));
                    let w = choose|s: Vec<String>|
                        s.deep_view() == before[k] && render.ensures((s,), nodes[k].asset);
                    assert(w.deep_view() == before[k] && render.ensures((w,), nodes[k].asset));
                }
            }
        }
        let ghost prev = i as int;
        i += 1;
        proof {
            assert(lv.take(i as int) == lv.take(prev + 1));
        }
    }
    assert(lv.take(v.len() as int) =~= lv);
    all(nodes)
}

} // verus!
