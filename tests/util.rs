use sitebuild::reviews::{DeserializeSeed, LinkError, Score};
use sitebuild::util::{alloc_str_concat, copy_destination, minifier_args, minify, ErrorPage, FileType};

fn p(parts: &[&str]) -> Vec<String> {
    parts.iter().map(|s| s.to_string()).collect()
}

#[test]
fn strings() {
    let res = alloc_str_concat(&["hello ", "", "world"]);
    assert_eq!(res, "hello world");
    assert_eq!(alloc_str_concat(&[]), "");
}

#[test]
fn scores_round_trip() {
    for text in ["0.0", "0.5", "1.0", "1.5", "2.0", "2.5", "3.0", "3.5", "4.0", "4.5", "5.0"] {
        assert_eq!(Score::parse(text).unwrap().as_str(), text);
    }
    assert_eq!(Score::parse("5.5"), None);
    assert_eq!(Score::parse("1"), None);
    assert!(Score::parse("0.5").unwrap() < Score::parse("1.0").unwrap());
}

#[test]
fn links_fill_slots() {
    let seed = DeserializeSeed { site_indices: p(&["imdb", "goodreads"]) };
    assert_eq!(seed.default(), vec![None, None]);
    let ok = seed.links(&vec![("goodreads".to_string(), "g".to_string())]).unwrap();
    assert_eq!(ok, vec![None, Some("g".to_string())]);
    let unknown = seed.links(&vec![("mal".to_string(), "m".to_string())]);
    assert_eq!(unknown, Err(LinkError::UnknownSite("mal".to_string())));
    let dup = seed.links(&vec![
        ("imdb".to_string(), "a".to_string()),
        ("imdb".to_string(), "b".to_string()),
    ]);
    assert_eq!(dup, Err(LinkError::DuplicateSite("imdb".to_string())));
}

#[test]
fn sites_must_be_unique() {
    let seed = DeserializeSeed::from_sites(p(&["a", "b"])).ok().unwrap();
    assert_eq!(seed.site_indices, p(&["a", "b"]));
    assert_eq!(DeserializeSeed::from_sites(p(&["a", "b", "a"])).err(), Some("a".to_string()));
}

#[test]
fn error_pages() {
    let page = ErrorPage::new(&["a".to_string(), "b".to_string()]);
    assert_eq!(
        page.into_html(),
        "<pre style='color:red'>Error: a</pre><pre style='color:red'>Error: b</pre>"
    );
    let both: Result<(u8, u8), ErrorPage> = ErrorPage::zip(Err("x".to_string()), Err("y".to_string()));
    assert_eq!(
        both.err().unwrap().into_html(),
        "<pre style='color:red'>Error: x</pre><pre style='color:red'>Error: y</pre>"
    );
    let one: Result<(u8, u8), ErrorPage> = ErrorPage::zip(Ok(1), Err("y".to_string()));
    assert_eq!(one.err().unwrap().into_html(), "<pre style='color:red'>Error: y</pre>");
    assert_eq!(ErrorPage::zip::<u8, u8>(Ok(1), Ok(2)).ok(), Some((1, 2)));
}

#[test]
fn copy_destinations() {
    assert_eq!(
        copy_destination(&p(&["raw"]), &p(&["dist"]), &p(&["raw", "img", "a.png"])),
        Some(p(&["dist", "img", "a.png"]))
    );
    assert_eq!(copy_destination(&p(&["raw"]), &p(&["dist"]), &p(&["src", "a"])), None);
}

#[test]
fn minify_falls_back() {
    let mut s = "a  b".to_string();
    minify(&mut s, None);
    assert_eq!(s, "a  b");
    minify(&mut s, Some("a b".to_string()));
    assert_eq!(s, "a b");
    assert_eq!(minifier_args(FileType::Css), vec!["cleancss", "-O2"]);
    assert_eq!(minifier_args(FileType::Js)[0], "terser");
    assert_eq!(minifier_args(FileType::Html).len(), 15);
}
