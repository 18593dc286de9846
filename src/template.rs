//! A small template language: `\{name}` stands for the value of a variable and
//! `\\` for one backslash; everything else is copied.

use vstd::prelude::*;
use vstd::string::*;

verus! {

/// The index of the first `c` in `s` at or after `i`; the length of `s` when
/// there is none.
pub open spec fn find_char(s: Seq<char>, c: char, i: int) -> int
    decreases s.len() - i,
{
    if i < 0 || i >= s.len() {
        s.len() as int
    } else if s[i] == c {
        i
    } else {
        find_char(s, c, i + 1)
    }
}

/// A part of a parsed template.
pub enum PieceView {
    Text(Seq<char>),
    Escape,
    Var(Seq<char>),
}

/// Why a template does not parse.
#[derive(Debug, Clone, Copy, PartialEq, Eq, Structural)]
pub enum ParseErrorKind {
    /// The template ends in a lone backslash.
    TrailingBackslash,
    /// A `\{` has no `}` after it.
    NoClosingBrace,
    /// A backslash is followed by neither `\` nor `{`.
    UnexpectedAfterBackslash(char),
}

/// The pieces of the template text `s` from position `i` on.
pub open spec fn parse_from(s: Seq<char>, i: int) -> Result<Seq<PieceView>, ParseErrorKind>
    decreases s.len() - i,
{
    if i < 0 || i >= s.len() {
        Ok(Seq::empty())
    } else {
        let b = find_char(s, '\\', i);
        if b < i || b >= s.len() {
            Ok(seq![PieceView::Text(s.subrange(i, s.len() as int))])
        } else if b + 1 >= s.len() {
            Err(ParseErrorKind::TrailingBackslash)
        } else {
            let lit = if b > i {
                seq![PieceView::Text(s.subrange(i, b))]
            } else {
                Seq::empty()
            };
            if s[b + 1] == '\\' {
                match parse_from(s, b + 2) {
                    Ok(rest) => Ok(lit + seq![PieceView::Escape] + rest),
                    Err(k) => Err(k),
                }
            } else if s[b + 1] == '{' {
                let e = find_char(s, '}', b + 2);
                if e < b + 2 || e >= s.len() {
                    Err(ParseErrorKind::NoClosingBrace)
                } else {
                    match parse_from(s, e + 1) {
                        Ok(rest) => Ok(lit + seq![PieceView::Var(s.subrange(b + 2, e))] + rest),
                        Err(k) => Err(k),
                    }
                }
            } else {
                Err(ParseErrorKind::UnexpectedAfterBackslash(s[b + 1]))
            }
        }
    }
}

/// The value of the first variable named `n`.
pub open spec fn lookup(vars: Seq<(Seq<char>, Seq<char>)>, n: Seq<char>) -> Option<Seq<char>>
    decreases vars.len(),
{
    if vars.len() == 0 {
        None
    } else if vars[0].0 == n {
        Some(vars[0].1)
    } else {
        lookup(vars.drop_first(), n)
    }
}

/// What one piece turns into: a variable that is not given stays as written.
pub open spec fn render_piece(p: PieceView, vars: Seq<(Seq<char>, Seq<char>)>) -> Seq<char> {
    match p {
        PieceView::Text(t) => t,
        PieceView::Escape => seq!['\\'],
        PieceView::Var(n) => match lookup(vars, n) {
            Some(v) => v,
            None => seq!['\\', '{'] + n + seq!['}'],
        },
    }
}

/// What the pieces turn into, in order.
pub open spec fn render(ps: Seq<PieceView>, vars: Seq<(Seq<char>, Seq<char>)>) -> Seq<char>
    decreases ps.len(),
{
    if ps.len() == 0 {
        Seq::empty()
    } else {
        render(ps.drop_last(), vars) + render_piece(ps.last(), vars)
    }
}

/// A part of a parsed template.
pub enum Piece {
    Text(String),
    Escape,
    Var(String),
}

impl Piece {
    pub open spec fn view(&self) -> PieceView {
        match self {
            Piece::Text(t) => PieceView::Text(t@),
            Piece::Escape => PieceView::Escape,
            Piece::Var(n) => PieceView::Var(n@),
        }
    }
}

pub open spec fn pieces_view(ps: Seq<Piece>) -> Seq<PieceView> {
    ps.map_values(|p: Piece| p.view())
}

/// A template that failed to parse.
#[derive(Debug, Clone, Copy, PartialEq, Eq, Structural)]
pub struct ParseError {
    pub kind: ParseErrorKind,
}

impl ParseError {
    /// What the error says.
    pub fn message(&self) -> (r: &'static str)
        ensures
            r@ == "failed to parse template"@,
    {
        "failed to parse template"
    }
}

/// A parsed template.
pub struct Template {
    origin: String,
    pieces: Vec<Piece>,
}

/// The first index of `c` in `s` at or after `i`, or the length of `s`.
pub fn find_in(s: &str, c: char, i: usize) -> (r: usize)
    requires
        i <= s@.len(),
    ensures
        r as int == find_char(s@, c, i as int),
        i <= r <= s@.len(),
{
    let n = s.unicode_len();
    let mut k = i;
    while k < n
        invariant
            n == s@.len(),
            i <= k <= n,
            find_char(s@, c, i as int) == find_char(s@, c, k as int),
        decreases n - k,
    {
        if s.get_char(k) == c {
            return k;
        }
        k += 1;
    }
    k
}

impl Template {
    /// The pieces of the template, which parsed.
    pub closed spec fn pieces(&self) -> Seq<PieceView> {
        pieces_view(self.pieces@)
    }

    /// The text the template was made from.
    pub closed spec fn origin(&self) -> Seq<char> {
        self.origin@
    }

    pub closed spec fn wf(&self) -> bool {
        parse_from(self.origin@, 0) == Ok::<Seq<PieceView>, ParseErrorKind>(pieces_view(self.pieces@))
    }

    /// Parses `origin`.
    pub fn new(origin: String) -> (r: Result<Template, ParseError>)
        ensures
            match parse_from(origin@, 0) {
                Ok(ps) => r is Ok && r->Ok_0.wf() && r->Ok_0.pieces() == ps && r->Ok_0.origin() == origin@,
                Err(k) => r == Err::<Template, ParseError>(ParseError { kind: k }),
            },
    {
        let s = origin.as_str();
        let n = s.unicode_len();
        let mut pieces: Vec<Piece> = Vec::new();
        let mut i: usize = 0;
        assert(pieces_view(pieces@) =~= Seq::<PieceView>::empty());
        while i < n
            invariant
                n == s@.len(),
                s@ == origin@,
                0 <= i <= n,
                parse_from(s@, 0) == match parse_from(s@, i as int) {
                    Ok(rest) => Ok(pieces_view(pieces@) + rest),
                    Err(k) => Err::<Seq<PieceView>, ParseErrorKind>(k),
                },
            decreases n - i,
        {
            let ghost before = pieces_view(pieces@);
            let b = find_in(s, '\\', i);
            if b == n {
                pieces.push(Piece::Text(s.substring_char(i, n).to_owned()));
                assert(pieces_view(pieces@) =~= before + seq![PieceView::Text(s@.subrange(i as int, n as int))]);
                i = n;
                continue;
            }
            if b + 1 == n {
                return Err(ParseError { kind: ParseErrorKind::TrailingBackslash });
            }
            if b > i {
                pieces.push(Piece::Text(s.substring_char(i, b).to_owned()));
            }
            let ghost lit = if b > i {
                seq![PieceView::Text(s@.subrange(i as int, b as int))]
            } else {
                Seq::<PieceView>::empty()
            };
            assert(pieces_view(pieces@) =~= before + lit);
            let c = s.get_char(b + 1);
            if c == '\\' {
                let ghost mid = pieces_view(pieces@);
                pieces.push(Piece::Escape);
                assert(pieces_view(pieces@) =~= mid + seq![PieceView::Escape]);
                proof {
                    match parse_from(s@, b + 2) {
                        Ok(rest) => {
                            assert(before + lit + seq![PieceView::Escape] + rest =~= before + (lit
                                + seq![PieceView::Escape] + rest));
                        },
                        Err(_) => {},
                    }
                }
                i = b + 2;
            } else if c == '{' {
                let e = find_in(s, '}', b + 2);
                if e == n {
                    return Err(ParseError { kind: ParseErrorKind::NoClosingBrace });
                }
                let ghost mid = pieces_view(pieces@);
                let name = s.substring_char(b + 2, e).to_owned();
                pieces.push(Piece::Var(name));
                assert(pieces_view(pieces@) =~= mid + seq![PieceView::Var(s@.subrange(b + 2, e as int))]);
                proof {
                    match parse_from(s@, e + 1) {
                        Ok(rest) => {
                            assert(before + lit + seq![PieceView::Var(s@.subrange(b + 2, e as int))]
                                + rest =~= before + (lit + seq![
                                PieceView::Var(s@.subrange(b + 2, e as int)),
                            ] + rest));
                        },
                        Err(_) => {},
                    }
                }
                i = e + 1;
            } else {
                return Err(ParseError { kind: ParseErrorKind::UnexpectedAfterBackslash(c) });
            }
        }
        assert(pieces_view(pieces@) + Seq::<PieceView>::empty() =~= pieces_view(pieces@));
        Ok(Template { origin, pieces })
    }

    /// Appends the template to `output`, with each variable replaced by the
    /// first value given for its name; a variable with no value stays as
    /// written.
    pub fn apply(&self, output: &mut String, vars: &[(&str, &str)])
        requires
            self.wf(),
        ensures
            final(output)@ == old(output)@ + render(self.pieces(), vars.deep_view()),
    {
        let mut k: usize = 0;
        assert(self.pieces().take(0) =~= Seq::<PieceView>::empty());
        while k < self.pieces.len()
            invariant
                0 <= k <= self.pieces.len(),
                output@ == old(output)@ + render(self.pieces().take(k as int), vars.deep_view()),
            decreases self.pieces.len() - k,
        {
            let ghost before = output@;
            proof {
                assert(self.pieces().take(k + 1).drop_last() =~= self.pieces().take(k as int));
                assert(self.pieces().take(k + 1).last() == self.pieces[k as int].view());
            }
            match &self.pieces[k] {
                Piece::Text(t) => {
                    output.append(t.as_str());
                    assert(output@ =~= before + render_piece(self.pieces[k as int].view(), vars.deep_view()));
                },
                Piece::Escape => {
                    proof {
                        reveal_strlit("\\");
                    }
                    output.append("\\");
                    assert(output@ =~= before + render_piece(self.pieces[k as int].view(), vars.deep_view()));
                },
                Piece::Var(n) => {
                    match find_var(vars, n.as_str()) {
                        Some(v) => {
                            output.append(v);
                            assert(output@ =~= before + render_piece(self.pieces[k as int].view(), vars.deep_view()));
                        },
                        None => {
                            proof {
                                reveal_strlit("\\{");
                                reveal_strlit("}");
                            }
                            output.append("\\{");
                            output.append(n.as_str());
                            output.append("}");
                            assert(output@ =~= before + render_piece(self.pieces[k as int].view(), vars.deep_view()));
                        },
                    }
                },
            }
            assert(render(self.pieces().take(k + 1), vars.deep_view()) == render(
                self.pieces().take(k as int),
                vars.deep_view(),
            ) + render_piece(self.pieces[k as int].view(), vars.deep_view()));
            assert(output@ =~= old(output)@ + render(self.pieces().take(k + 1), vars.deep_view()));
            k += 1;
        }
        assert(self.pieces().take(k as int) =~= self.pieces());
    }
}

/// The value of the first variable named `n`.
fn find_var<'a>(vars: &[(&'a str, &'a str)], n: &str) -> (r: Option<&'a str>)
    ensures
        match lookup(vars.deep_view(), n@) {
            Some(v) => r is Some && r->Some_0@ == v,
            None => r is None,
        },
{
    let mut i: usize = 0;
    assert(vars.deep_view().subrange(0, vars.len() as int) =~= vars.deep_view());
    while i < vars.len()
        invariant
            0 <= i <= vars.len(),
            lookup(vars.deep_view(), n@) == lookup(vars.deep_view().subrange(i as int, vars.len() as int), n@),
        decreases vars.len() - i,
    {
        let ghost rest = vars.deep_view().subrange(i as int, vars.len() as int);
        assert(rest[0] == vars.deep_view()[i as int]);
        if crate::request::same_text(vars[i].0, n) {
            return Some(vars[i].1);
        }
        assert(rest.drop_first() =~= vars.deep_view().subrange(i + 1, vars.len() as int));
        i += 1;
    }
    None
}

} // verus!
