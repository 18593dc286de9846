//! Small pieces used around the build: error pages, string joining, output
//! paths of copied files, and minification.

use vstd::prelude::*;
use vstd::string::*;

verus! {

/// All of `parts`, one after the other.
pub open spec fn joined(parts: Seq<Seq<char>>) -> Seq<char>
    decreases parts.len(),
{
    if parts.len() == 0 {
        Seq::empty()
    } else {
        joined(parts.drop_last()) + parts.last()
    }
}

/// The strings of `data`, one after the other, in one new string.
pub fn alloc_str_concat(data: &[&str]) -> (r: String)
    ensures
        r@ == joined(data.deep_view()),
{
    let mut out = String::new();
    let mut i: usize = 0;
    while i < data.len()
        invariant
            0 <= i <= data.len(),
            out@ == joined(data.deep_view().take(i as int)),
        decreases data.len() - i,
    {
        assert(data.deep_view().take(i + 1).drop_last() =~= data.deep_view().take(i as int));
        out.append(data[i]);
        i += 1;
    }
    assert(data.deep_view().take(i as int) =~= data.deep_view());
    out
}

/// The HTML block that shows one error.
pub open spec fn error_block(message: Seq<char>) -> Seq<char> {
    "<pre style='color:red'>Error: "@ + message + "</pre>"@
}

/// The HTML blocks of `messages`, in order.
pub open spec fn error_blocks(messages: Seq<Seq<char>>) -> Seq<char>
    decreases messages.len(),
{
    if messages.len() == 0 {
        Seq::empty()
    } else {
        error_blocks(messages.drop_last()) + error_block(messages.last())
    }
}

/// Appends the block of one error to `res`.
fn push_block(res: &mut String, message: &str)
    ensures
        final(res)@ == old(res)@ + error_block(message@),
{
    res.append("<pre style='color:red'>Error: ");
    res.append(message);
    res.append("</pre>");
    assert(final(res)@ =~= old(res)@ + error_block(message@));
}

/// A page that shows errors in place of the content that failed.
pub struct ErrorPage(String);

impl ErrorPage {
    /// The HTML of the page.
    pub closed spec fn html(&self) -> Seq<char> {
        self.0@
    }

    /// A page with one block for each message, in order.
    pub fn new(messages: &[String]) -> (r: ErrorPage)
        ensures
            r.html() == error_blocks(messages.deep_view()),
    {
        let mut res = String::new();
        let mut i: usize = 0;
        while i < messages.len()
            invariant
                0 <= i <= messages.len(),
                res@ == error_blocks(messages.deep_view().take(i as int)),
            decreases messages.len() - i,
        {
            assert(messages.deep_view().take(i + 1).drop_last() =~= messages.deep_view().take(i as int));
            push_block(&mut res, messages[i].as_str());
            i += 1;
        }
        assert(messages.deep_view().take(i as int) =~= messages.deep_view());
        ErrorPage(res)
    }

    /// The page for one error.
    pub fn from_message(message: String) -> (r: ErrorPage)
        ensures
            r.html() == error_block(message@),
    {
        let mut res = String::new();
        push_block(&mut res, message.as_str());
        assert(res@ =~= error_block(message@));
        ErrorPage(res)
    }

    /// The HTML of the page.
    pub fn into_html(self) -> (r: String)
        ensures
            r@ == self.html(),
    {
        self.0
    }

    /// Both values, or a page that shows the errors of the two, first then
    /// second.
    pub fn zip<T0, T1>(r0: Result<T0, String>, r1: Result<T1, String>) -> (r: Result<(T0, T1), ErrorPage>)
        ensures
            match (r0, r1) {
                (Ok(v0), Ok(v1)) => r == Ok::<(T0, T1), ErrorPage>((v0, v1)),
                (Ok(_), Err(e1)) => r is Err && r->Err_0.html() == error_block(e1@),
                (Err(e0), Ok(_)) => r is Err && r->Err_0.html() == error_block(e0@),
                (Err(e0), Err(e1)) => r is Err && r->Err_0.html() == error_block(e0@) + error_block(e1@),
            },
    {
        match (r0, r1) {
            (Ok(v0), Ok(v1)) => Ok((v0, v1)),
            (Ok(_), Err(e1)) => Err(ErrorPage::from_message(e1)),
            (Err(e0), Ok(_)) => Err(ErrorPage::from_message(e0)),
            (Err(e0), Err(e1)) => {
                let mut res = String::new();
                push_block(&mut res, e0.as_str());
                push_block(&mut res, e1.as_str());
                assert(res@ =~= error_block(e0@) + error_block(e1@));
                Err(ErrorPage(res))
            },
        }
    }
}

/// Where a file found at `file` under `src_dir` is copied to under `out_dir`:
/// the same place relative to it; `None` when `file` is not under `src_dir`.
pub fn copy_destination(src_dir: &Vec<String>, out_dir: &Vec<String>, file: &Vec<String>) -> (r: Option<Vec<String>>)
    ensures
        match r {
            Some(d) => src_dir.len() <= file.len()
                && file.deep_view().take(src_dir.len() as int) == src_dir.deep_view()
                && d.deep_view() == out_dir.deep_view() + file.deep_view().skip(src_dir.len() as int),
            None => !(src_dir.len() <= file.len()
                && file.deep_view().take(src_dir.len() as int) == src_dir.deep_view()),
        },
{
    if src_dir.len() > file.len() {
        return None;
    }
    let mut i: usize = 0;
    while i < src_dir.len()
        invariant
            src_dir.len() <= file.len(),
            0 <= i <= src_dir.len(),
            forall|k: int| 0 <= k < i ==> file.deep_view()[k] == src_dir.deep_view()[k],
        decreases src_dir.len() - i,
    {
        let same = file[i] == src_dir[i];
        if !same {
            assert(file.deep_view().take(src_dir.len() as int)[i as int] != src_dir.deep_view()[i as int]);
            return None;
        }
        i += 1;
    }
    assert(file.deep_view().take(src_dir.len() as int) =~= src_dir.deep_view());
    let mut d = crate::disk::copy_path(out_dir);
    let mut j: usize = src_dir.len();
    while j < file.len()
        invariant
            src_dir.len() <= j <= file.len(),
            d.deep_view() == out_dir.deep_view() + file.deep_view().subrange(src_dir.len() as int, j as int),
        decreases file.len() - j,
    {
        let ghost before = d.deep_view();
        d.push(file[j].clone());
        assert(d.deep_view() =~= before.push(file.deep_view()[j as int]));
        assert(d.deep_view() =~= out_dir.deep_view() + file.deep_view().subrange(src_dir.len() as int, j + 1));
        j += 1;
    }
    assert(file.deep_view().subrange(src_dir.len() as int, file.len() as int) =~= file.deep_view().skip(src_dir.len() as int));
    Some(d)
}

/// A kind of text that can be minified.
#[derive(Debug, Clone, Copy, PartialEq, Eq, Structural)]
pub enum FileType {
    Html,
    Css,
    Js,
}

/// The arguments given to `npx` to minify text of type `t`.
pub open spec fn minifier_args_of(t: FileType) -> Seq<Seq<char>> {
    match t {
        FileType::Html => seq![
            "html-minifier-terser"@,
            "--collapse-boolean-attributes"@,
            "--collapse-whitespace"@,
            "--decode-entities"@,
            "--no-include-auto-generated-tags"@,
            "--minify-css"@,
            "--minify-js"@,
            "--no-newlines-before-tag-close"@,
            "--remove-attribute-quotes"@,
            "--remove-comments"@,
            "--remove-empty-attributes"@,
            "--remove-redundant-attributes"@,
            "--remove-tag-whitespace"@,
            "--sort-attributes"@,
            "--sort-class-name"@,
        ],
        FileType::Css => seq!["cleancss"@, "-O2"@],
        FileType::Js => seq!["terser"@, "--mangle"@, "toplevel"@, "--mangle-props"@, "--compress"@],
    }
}

/// The arguments given to `npx` to minify text of type `t`.
pub fn minifier_args(t: FileType) -> (r: Vec<&'static str>)
    ensures
        r.deep_view() == minifier_args_of(t),
{
    let r = match t {
        FileType::Html => vec![
            "html-minifier-terser",
            "--collapse-boolean-attributes",
            "--collapse-whitespace",
            "--decode-entities",
            "--no-include-auto-generated-tags",
            "--minify-css",
            "--minify-js",
            "--no-newlines-before-tag-close",
            "--remove-attribute-quotes",
            "--remove-comments",
            "--remove-empty-attributes",
            "--remove-redundant-attributes",
            "--remove-tag-whitespace",
            "--sort-attributes",
            "--sort-class-name",
        ],
        FileType::Css => vec!["cleancss", "-O2"],
        FileType::Js => vec!["terser", "--mangle", "toplevel", "--mangle-props", "--compress"],
    };
    assert(r.deep_view() =~= minifier_args_of(t));
    r
}

/// Takes the minifier's output when it produced one; otherwise the text stays
/// as it was.
pub fn minify(s: &mut String, minified: Option<String>)
    ensures
        match minified {
            Some(m) => final(s)@ == m@,
            None => final(s)@ == old(s)@,
        },
{
    if let Some(m) = minified {
        *s = m;
    }
}

} // verus!
