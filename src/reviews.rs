//! Scores and per-site links of the reviews page.

use vstd::prelude::*;
use crate::request::same_text;
use crate::date::{DateError, PrecisionDate, date_text, parse_date};
use crate::template::{find_char, find_in};

verus! {

/// A score from 0 to 5 in steps of one half, held as a count of halves.
#[derive(Debug, Clone, Copy, PartialEq, Eq, Structural, PartialOrd, Ord)]
pub struct Score(u8);

/// The text of a score of `halves` halves.
pub open spec fn score_text(halves: u8) -> Seq<char> {
    if halves == 0 {
        "0.0"@
    } else if halves == 1 {
        "0.5"@
    } else if halves == 2 {
        "1.0"@
    } else if halves == 3 {
        "1.5"@
    } else if halves == 4 {
        "2.0"@
    } else if halves == 5 {
        "2.5"@
    } else if halves == 6 {
        "3.0"@
    } else if halves == 7 {
        "3.5"@
    } else if halves == 8 {
        "4.0"@
    } else if halves == 9 {
        "4.5"@
    } else {
        "5.0"@
    }
}

impl Score {
    /// The number of halves.
    pub closed spec fn halves(self) -> u8 {
        self.0
    }

    /// A score is at most five.
    pub open spec fn wf(self) -> bool {
        self.halves() <= 10
    }

    /// The score written as in the reviews file: `"0.0"` to `"5.0"`.
    pub fn as_str(self) -> (r: &'static str)
        requires
            self.wf(),
        ensures
            r@ == score_text(self.halves()),
    {
        match self.0 {
            0 => "0.0",
            1 => "0.5",
            2 => "1.0",
            3 => "1.5",
            4 => "2.0",
            5 => "2.5",
            6 => "3.0",
            7 => "3.5",
            8 => "4.0",
            9 => "4.5",
            _ => "5.0",
        }
    }

    /// Reads a score written as `"0.0"` to `"5.0"` in steps of `0.5`.
    pub fn parse(s: &str) -> (r: Option<Score>)
        ensures
            r is Some <==> exists|h: u8| h <= 10 && score_text(h) == s@,
            r is Some ==> r->Some_0.wf() && score_text(r->Some_0.halves()) == s@,
    {
        let mut h: u8 = 0;
        while h <= 10
            invariant
                h <= 11,
                forall|k: u8| k < h ==> score_text(k) != s@,
            decreases 11 - h,
        {
            let sc = Score(h);
            if same_text(s, sc.as_str()) {
                return Some(sc);
            }
            h += 1;
        }
        assert forall|k: u8| k <= 10 implies score_text(k) != s@ by {
            assert(k < h);
        }
        None
    }
}

/// Why a table of links was refused.
#[derive(Debug, Clone, PartialEq, Eq)]
pub enum LinkError {
    /// A link names a site that is not known.
    UnknownSite(String),
    /// A site has two links.
    DuplicateSite(String),
}

/// The abstract form of a `LinkError`: whether the site was unknown, and its
/// name.
pub open spec fn link_error_view(e: LinkError) -> (bool, Seq<char>) {
    match e {
        LinkError::UnknownSite(s) => (true, s@),
        LinkError::DuplicateSite(s) => (false, s@),
    }
}

/// The position of the first site named `name`.
pub open spec fn index_of(sites: Seq<Seq<char>>, name: Seq<char>) -> Option<int> {
    if exists|i: int| 0 <= i < sites.len() && sites[i] == name {
        Some(choose|i: int| 0 <= i < sites.len() && sites[i] == name && forall|j: int| 0 <= j < i ==> sites[j] != name)
    } else {
        None
    }
}

/// The links that `entries` fill in, one slot per site, or the first error:
/// an unknown site (`true`) or a second link for a site (`false`).
#[verifier::opaque]
pub open spec fn fill_links(sites: Seq<Seq<char>>, entries: Seq<(Seq<char>, Seq<char>)>) -> Result<
    Seq<Option<Seq<char>>>,
    (bool, Seq<char>),
>
    decreases entries.len(),
{
    if entries.len() == 0 {
        Ok(Seq::new(sites.len(), |i: int| None))
    } else {
        match fill_links(sites, entries.drop_last()) {
            Err(e) => Err(e),
            Ok(links) => {
                let (site, url) = entries.last();
                match index_of(sites, site) {
                    None => Err((true, site)),
                    Some(i) => if links[i] is Some {
                        Err((false, site))
                    } else {
                        Ok(links.update(i, Some(url)))
                    },
                }
            },
        }
    }
}

pub open spec fn links_view(v: Seq<Option<String>>) -> Seq<Option<Seq<char>>> {
    v.map_values(|o: Option<String>| match o {
        Some(s) => Some(s@),
        None => None,
    })
}

/// The known sites, in the order of their slots in a table of links.
pub struct DeserializeSeed {
    pub site_indices: Vec<String>,
}

impl DeserializeSeed {
    /// The sites of the reviews file, in order: refused with the name of a
    /// site that comes twice.
    pub fn from_sites(names: Vec<String>) -> (r: Result<DeserializeSeed, String>)
        ensures
            r is Ok <==> forall|i: int, j: int|
                0 <= i < j < names.len() ==> names.deep_view()[i] != names.deep_view()[j],
            r is Ok ==> r->Ok_0.site_indices == names,
            r is Err ==> exists|i: int, j: int|
                0 <= i < j < names.len() && names.deep_view()[i] == names.deep_view()[j]
                    && names.deep_view()[j] == r->Err_0@,
    {
        let mut j: usize = 0;
        while j < names.len()
            invariant
                0 <= j <= names.len(),
                forall|a: int, b: int|
                    0 <= a < b < j ==> names.deep_view()[a] != names.deep_view()[b],
            decreases names.len() - j,
        {
            let mut i: usize = 0;
            while i < j
                invariant
                    0 <= i <= j < names.len(),
                    forall|a: int| 0 <= a < i ==> names.deep_view()[a] != names.deep_view()[j as int],
                decreases j - i,
            {
                let same = names[i] == names[j];
                if same {
                    assert(names.deep_view()[i as int] == names.deep_view()[j as int]);
                    return Err(names[j].clone());
                }
                i += 1;
            }
            j += 1;
        }
        Ok(DeserializeSeed { site_indices: names })
    }

    /// A table with no link for any site.
    pub fn default(&self) -> (r: Vec<Option<String>>)
        ensures
            r.len() == self.site_indices.len(),
            forall|i: int| 0 <= i < r.len() ==> r[i] is None,
    {
        let mut r: Vec<Option<String>> = Vec::new();
        let mut i: usize = 0;
        while i < self.site_indices.len()
            invariant
                0 <= i <= self.site_indices.len(),
                r.len() == i,
                forall|k: int| 0 <= k < r.len() ==> r[k] is None,
            decreases self.site_indices.len() - i,
        {
            r.push(None);
            i += 1;
        }
        r
    }

    /// The slot of the site named `name`.
    fn slot(&self, name: &String) -> (r: Option<usize>)
        ensures
            match r {
                Some(i) => index_of(self.site_indices.deep_view(), name@) == Some(i as int),
                None => index_of(self.site_indices.deep_view(), name@) is None,
            },
            r is Some ==> r->Some_0 < self.site_indices.len(),
    {
        let mut i: usize = 0;
        while i < self.site_indices.len()
            invariant
                0 <= i <= self.site_indices.len(),
                forall|j: int| 0 <= j < i ==> self.site_indices.deep_view()[j] != name@,
            decreases self.site_indices.len() - i,
        {
            let same = self.site_indices[i] == *name;
            if same {
                let ghost sites = self.site_indices.deep_view();
                assert(sites[i as int] == name@);
                let ghost c = choose|c: int| 0 <= c < sites.len() && sites[c] == name@ && forall|j: int| 0 <= j < c ==> sites[j] != name@;
                assert(c == i) by {
                    if c < i {
                        assert(sites[c] != name@);
                    } else if c > i {
                        assert(sites[i as int] != name@);
                    }
                }
                return Some(i);
            }
            i += 1;
        }
        None
    }

    /// The table of links given by `entries`, site and address pairs in order:
    /// each site must be known and have one link at most.
    pub fn links(&self, entries: &Vec<(String, String)>) -> (r: Result<Vec<Option<String>>, LinkError>)
        ensures
            match fill_links(self.site_indices.deep_view(), entries.deep_view()) {
                Ok(l) => r is Ok && links_view(r->Ok_0@) == l,
                Err(e) => r is Err && link_error_view(r->Err_0) == e,
            },
    {
        let mut links = self.default();
        let ghost sites = self.site_indices.deep_view();
        assert(links_view(links@) =~= Seq::new(sites.len(), |i: int| None::<Seq<char>>));
        proof {
            lemma_fill_empty(sites, entries.deep_view());
        }
        let mut k: usize = 0;
        while k < entries.len()
            invariant
                sites == self.site_indices.deep_view(),
                0 <= k <= entries.len(),
                links.len() == sites.len(),
                fill_links(sites, entries.deep_view().take(k as int)) == Ok::<Seq<Option<Seq<char>>>, (bool, Seq<char>)>(links_view(links@)),
            decreases entries.len() - k,
        {
            proof {
                lemma_fill_next(sites, entries.deep_view(), k as int);
            }
            let site = &entries[k].0;
            let ghost prev = fill_links(sites, entries.deep_view().take(k as int));
            let ghost next = fill_links(sites, entries.deep_view().take(k + 1));
            assert(entries.deep_view()[k as int].0 == site@);
            match self.slot(site) {
                None => {
                    proof {
                        lemma_error_sticks(sites, entries.deep_view(), k as int + 1);
                    }
                    return Err(LinkError::UnknownSite(site.clone()));
                },
                Some(i) => {
                    if links[i].is_some() {
                        proof {
                            assert(links_view(links@)[i as int] is Some);
                            lemma_error_sticks(sites, entries.deep_view(), k as int + 1);
                        }
                        return Err(LinkError::DuplicateSite(site.clone()));
                    }
                    let ghost before = links_view(links@);
                    let url = entries[k].1.clone();
                    links.set(i, Some(url));
                    assert(links_view(links@) =~= before.update(i as int, Some(url@)));
                    assert(entries.deep_view()[k as int].1 == url@);
                    assert(next == Ok::<Seq<Option<Seq<char>>>, (bool, Seq<char>)>(before.update(i as int, Some(url@))));
                },
            }
            k += 1;
        }
        assert(entries.deep_view().take(k as int) =~= entries.deep_view());
        Ok(links)
    }
}

proof fn lemma_fill_empty(sites: Seq<Seq<char>>, entries: Seq<(Seq<char>, Seq<char>)>)
    ensures
        fill_links(sites, entries.take(0)) == Ok::<Seq<Option<Seq<char>>>, (bool, Seq<char>)>(
            Seq::new(sites.len(), |i: int| None),
        ),
{
    reveal(fill_links);
}

proof fn lemma_fill_next(sites: Seq<Seq<char>>, es: Seq<(Seq<char>, Seq<char>)>, k: int)
    requires
        0 <= k < es.len(),
    ensures
        fill_links(sites, es.take(k + 1)) == match fill_links(sites, es.take(k)) {
            Err(e) => Err(e),
            Ok(links) => match index_of(sites, es[k].0) {
                None => Err((true, es[k].0)),
                Some(i) => if links[i] is Some {
                    Err((false, es[k].0))
                } else {
                    Ok(links.update(i, Some(es[k].1)))
                },
            },
        },
{
    reveal(fill_links);
    assert(es.take(k + 1).drop_last() =~= es.take(k));
    assert(es.take(k + 1).last() == es[k]);
}

/// Once the entries up to `k` fail, all of them fail the same way.
proof fn lemma_error_sticks(sites: Seq<Seq<char>>, entries: Seq<(Seq<char>, Seq<char>)>, k: int)
    requires
        0 <= k <= entries.len(),
        fill_links(sites, entries.take(k)) is Err,
    ensures
        fill_links(sites, entries) == fill_links(sites, entries.take(k)),
    decreases entries.len() - k,
{
    if k < entries.len() {
        lemma_fill_next(sites, entries, k);
        lemma_error_sticks(sites, entries, k + 1);
    } else {
        assert(entries.take(k) =~= entries);
    }
}

/// When a work came out: from `start`, until `end`; no end means it is still
/// coming out.
#[derive(Debug, Clone, Copy, PartialEq, Eq, Structural)]
pub struct Released {
    pub start: PrecisionDate,
    pub end: Option<PrecisionDate>,
}

/// Why a release span was refused.
#[derive(Debug, Clone, Copy, PartialEq, Eq, Structural)]
pub enum ReleasedError {
    Start(DateError),
    End(DateError),
}

/// The dash between the two ends of a span.
pub const SPAN_DASH: char = '\u{2013}';

/// What `s` means as a release span: `start`, `start–end`, or `start–` for
/// one still coming out.
pub open spec fn parse_released(s: Seq<char>) -> Result<Released, ReleasedError> {
    let a = find_char(s, SPAN_DASH, 0);
    match parse_date(s.subrange(0, a)) {
        Err(e) => Err(ReleasedError::Start(e)),
        Ok(start) => if a >= s.len() {
            Ok(Released { start, end: Some(start) })
        } else if a + 1 == s.len() {
            Ok(Released { start, end: None })
        } else {
            match parse_date(s.subrange(a + 1, s.len() as int)) {
                Err(e) => Err(ReleasedError::End(e)),
                Ok(end) => Ok(Released { start, end: Some(end) }),
            }
        },
    }
}

/// How a span is written: one date when it starts and ends alike.
pub open spec fn released_text(r: Released) -> Seq<char> {
    match r.end {
        Some(end) => if end == r.start {
            date_text(r.start, false)
        } else {
            date_text(r.start, false) + seq![SPAN_DASH] + date_text(end, false)
        },
        None => date_text(r.start, false) + seq![SPAN_DASH],
    }
}

impl Released {
    /// Reads a release span.
    pub fn from_str(s: &str) -> (r: Result<Released, ReleasedError>)
        ensures
            r == parse_released(s@),
    {
        let n = s.unicode_len();
        let a = find_in(s, SPAN_DASH, 0);
        let start = match PrecisionDate::from_str(s.substring_char(0, a)) {
            Ok(d) => d,
            Err(e) => return Err(ReleasedError::Start(e)),
        };
        if a == n {
            return Ok(Released { start, end: Some(start) });
        }
        if a + 1 == n {
            return Ok(Released { start, end: None });
        }
        match PrecisionDate::from_str(s.substring_char(a + 1, n)) {
            Ok(end) => Ok(Released { start, end: Some(end) }),
            Err(e) => Err(ReleasedError::End(e)),
        }
    }

    /// The span as text.
    pub fn to_text(self) -> (r: String)
        ensures
            r@ == released_text(self),
    {
        let mut out = self.start.to_text(false);
        proof {
            reveal_strlit("\u{2013}");
        }
        match self.end {
            Some(end) => {
                if end != self.start {
                    out.append("\u{2013}");
                    let e = end.to_text(false);
                    out.append(e.as_str());
                }
            },
            None => {
                out.append("\u{2013}");
            },
        }
        assert(out@ =~= released_text(self));
        out
    }
}

} // verus!
