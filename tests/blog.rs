use sitebuild::asset::{Asset, Constant};
use sitebuild::blog::{blog_plan, is_draft, is_markdown_name, sort_posts, visible_posts, PostKey, PostState};
use sitebuild::disk::{Disk, ReadError};
use sitebuild::modified::Modified;

fn post(stem: &str, state: PostState) -> PostKey {
    PostKey { stem: stem.to_string(), state }
}

#[test]
fn posts_listed_errors_then_drafts_then_newest() {
    let posts = vec![
        post("old", PostState::Published(2020, 1, 5)),
        post("wip-b", PostState::Draft),
        post("broken", PostState::Unreadable),
        post("new", PostState::Published(2023, 11, 2)),
        post("wip-a", PostState::Draft),
        post("mid", PostState::Published(2021, 12, 31)),
    ];
    let sorted: Vec<String> = sort_posts(posts).into_iter().map(|p| p.stem).collect();
    assert_eq!(sorted, vec!["broken", "wip-a", "wip-b", "new", "mid", "old"]);
}

#[test]
fn drafts_hidden_unless_asked_for() {
    let posts = vec![
        post("a", PostState::Draft),
        post("b", PostState::Published(2020, 1, 1)),
        post("c", PostState::Unreadable),
    ];
    let shown: Vec<String> = visible_posts(posts.clone(), false).into_iter().map(|p| p.stem).collect();
    assert_eq!(shown, vec!["b", "c"]);
    assert_eq!(visible_posts(posts.clone(), true), posts);
    assert!(is_draft(&posts[0]));
    assert!(!is_draft(&posts[2]));
    assert!(sort_posts(Vec::new()).is_empty());
}

fn p(parts: &[&str]) -> Vec<String> {
    parts.iter().map(|s| s.to_string()).collect()
}

#[test]
fn blog_plan_writes_one_page_per_markdown_file() {
    let listing = Ok(vec![p(&["src", "blog", "b.md"]), p(&["src", "blog", "notes.txt"]), p(&["src", "blog", "a.md"]), p(&["src", "blog", ".md"])]);
    let plan = blog_plan(listing, &p(&["dist", "blog"]), |src: Vec<String>| Constant::new(src.join("/")));
    let outs: Vec<Vec<String>> = plan.assets.iter().map(|n| n.path.clone()).collect();
    assert_eq!(outs, vec![p(&["dist", "blog", "b.html"]), p(&["dist", "blog", "a.html"])]);
    assert_eq!(plan.assets[1].asset.value, "src/blog/a.md");
    let failed: Result<Vec<Vec<String>>, ReadError> = Err(ReadError { path: p(&["src"]) });
    assert!(blog_plan(failed, &p(&["dist"]), |_src: Vec<String>| Constant::new(String::new())).assets.is_empty());
}

#[test]
fn blog_plan_pages_are_written() {
    let mut disk = Disk::new(100, Modified::At(1));
    let mut plan = blog_plan(Ok(vec![p(&["x.md"])]), &p(&["out"]), |_src: Vec<String>| Constant::new("page".to_string()));
    plan.generate(&mut disk);
    assert_eq!(disk.file_bytes(&p(&["out", "x.html"])), Some(b"page".to_vec()));
}

#[test]
fn markdown_names() {
    assert!(is_markdown_name("a.md"));
    assert!(is_markdown_name("x.y.md"));
    assert!(!is_markdown_name(".md"));
    assert!(!is_markdown_name("a.mdx"));
    assert!(!is_markdown_name("md"));
}
