//! Live reload: which paths a browser tab watches, and when it is told to reload.

use vstd::prelude::*;
use crate::disk::same_path;

verus! {

/// What `form_urlencoded::parse` makes of a query string: its name and value
/// pairs, decoded.
pub uninterp spec fn form_pairs(q: Seq<char>) -> Seq<(Seq<char>, Seq<char>)>;

/// Relies on form_urlencoded::parse: the decoded name and value pairs of a
/// query string, in order.
#[verifier::external_body]
fn parse_query(q: &str) -> (r: Vec<(String, String)>)
    ensures
        r.deep_view() == form_pairs(q@),
{
    let mut r = Vec::new();
    for (k, v) in form_urlencoded::parse(q.as_bytes()) {
        r.push((k.into_owned(), v.into_owned()));
    }
    r
}

/// Why a request to watch paths was refused.
#[derive(Debug, Clone, Copy, PartialEq, Eq, Structural)]
pub enum WatchError {
    /// The request had no query.
    NoQuery,
    /// A query key was not `path`.
    BadKey,
}

impl WatchError {
    /// The text of the "bad request" answer.
    pub fn message(self) -> (r: &'static str)
        ensures
            self == WatchError::NoQuery ==> r@ == "no query parameters in URI"@,
            self == WatchError::BadKey ==> r@ == "query key was not `path`"@,
    {
        match self {
            WatchError::NoQuery => "no query parameters in URI",
            WatchError::BadKey => "query key was not `path`",
        }
    }
}

/// The values of the pairs, when every key is `path`.
pub open spec fn watched_of(pairs: Seq<(Seq<char>, Seq<char>)>) -> Option<Seq<Seq<char>>> {
    if forall|i: int| 0 <= i < pairs.len() ==> (#[trigger] pairs[i]).0 == "path"@ {
        Some(pairs.map_values(|p: (Seq<char>, Seq<char>)| p.1))
    } else {
        None
    }
}

/// The paths a watch request names, from its decoded query pairs: every key
/// must be `path`.
pub fn watched_values(pairs: &Vec<(String, String)>) -> (r: Result<Vec<String>, WatchError>)
    ensures
        match watched_of(pairs.deep_view()) {
            Some(v) => r is Ok && r->Ok_0.deep_view() == v,
            None => r == Err::<Vec<String>, WatchError>(WatchError::BadKey),
        },
{
    let key = String::from_str("path");
    let mut out: Vec<String> = Vec::new();
    let mut i: usize = 0;
    while i < pairs.len()
        invariant
            key@ == "path"@,
            0 <= i <= pairs.len(),
            out.len() == i,
            forall|k: int| 0 <= k < i ==> (#[trigger] pairs.deep_view()[k]).0 == "path"@,
            forall|k: int| 0 <= k < i ==> #[trigger] out.deep_view()[k] == pairs.deep_view()[k].1,
        decreases pairs.len() - i,
    {
        let same = pairs[i].0 == key;
        if !same {
            assert(pairs.deep_view()[i as int].0 != "path"@);
            return Err(WatchError::BadKey);
        }
        let ghost before = out.deep_view();
        let v = pairs[i].1.clone();
        out.push(v);
        proof {
            assert(out.deep_view() =~= before.push(v@));
            assert(pairs.deep_view()[i as int].1 == pairs[i as int].1@);
        }
        i += 1;
    }
    assert(out.deep_view() =~= pairs.deep_view().map_values(|p: (Seq<char>, Seq<char>)| p.1));
    Ok(out)
}

/// The paths that a request to `/watch` with `query` names.
pub fn watch_request(query: Option<&str>) -> (r: Result<Vec<String>, WatchError>)
    ensures
        match query {
            None => r == Err::<Vec<String>, WatchError>(WatchError::NoQuery),
            Some(q) => match watched_of(form_pairs(q@)) {
                Some(v) => r is Ok && r->Ok_0.deep_view() == v,
                None => r == Err::<Vec<String>, WatchError>(WatchError::BadKey),
            },
        },
{
    match query {
        None => Err(WatchError::NoQuery),
        Some(q) => {
            let pairs = parse_query(q);
            watched_values(&pairs)
        },
    }
}

/// `w` is a trailing part of `c`, component by component.
pub open spec fn ends_with(c: Seq<Seq<char>>, w: Seq<Seq<char>>) -> bool {
    w.len() <= c.len() && c.subrange(c.len() - w.len(), c.len() as int) == w
}

/// A change to one of `changed` concerns a tab that watches `watched`.
pub open spec fn concerns(changed: Seq<Seq<Seq<char>>>, watched: Seq<Seq<Seq<char>>>) -> bool {
    exists|i: int, j: int|
        0 <= i < changed.len() && 0 <= j < watched.len() && #[trigger] ends_with(
            changed[i],
            watched[j],
        )
}

/// Whether the path `c` ends with the path `w`.
pub fn path_ends_with(c: &Vec<String>, w: &Vec<String>) -> (r: bool)
    ensures
        r == ends_with(c.deep_view(), w.deep_view()),
{
    if w.len() > c.len() {
        return false;
    }
    let off = c.len() - w.len();
    let mut k: usize = 0;
    while k < w.len()
        invariant
            off + w.len() == c.len(),
            0 <= k <= w.len(),
            forall|m: int| 0 <= m < k ==> c.deep_view()[off + m] == w.deep_view()[m],
        decreases w.len() - k,
    {
        let same = c[off + k] == w[k];
        if !same {
            assert(c.deep_view().subrange(off as int, c.len() as int)[k as int] != w.deep_view()[k as int]);
            return false;
        }
        k += 1;
    }
    assert(c.deep_view().subrange(off as int, c.len() as int) =~= w.deep_view());
    true
}

/// Whether a change to the paths `changed` concerns a tab watching `watched`: one
/// of the changed paths ends with one of the watched ones.
pub fn should_reload(changed: &Vec<Vec<String>>, watched: &Vec<Vec<String>>) -> (r: bool)
    ensures
        r == concerns(changed.deep_view(), watched.deep_view()),
{
    let mut i: usize = 0;
    while i < changed.len()
        invariant
            0 <= i <= changed.len(),
            forall|a: int, b: int|
                0 <= a < i && 0 <= b < watched.len() ==> !#[trigger] ends_with(
                    changed.deep_view()[a],
                    watched.deep_view()[b],
                ),
        decreases changed.len() - i,
    {
        let mut j: usize = 0;
        while j < watched.len()
            invariant
                0 <= i < changed.len(),
                0 <= j <= watched.len(),
                forall|a: int, b: int|
                    0 <= a < i && 0 <= b < watched.len() ==> !#[trigger] ends_with(
                        changed.deep_view()[a],
                        watched.deep_view()[b],
                    ),
                forall|b: int|
                    0 <= b < j ==> !#[trigger] ends_with(changed.deep_view()[i as int], watched.deep_view()[b]),
            decreases watched.len() - j,
        {
            if path_ends_with(&changed[i], &watched[j]) {
                assert(ends_with(changed.deep_view()[i as int], watched.deep_view()[j as int]));
                return true;
            }
            j += 1;
        }
        i += 1;
    }
    false
}

/// What the stream of one watching tab receives.
pub enum StreamEvent {
    /// These paths changed.
    Changed(Vec<Vec<String>>),
    /// Changes were missed because the tab fell behind.
    Lagged,
    /// The server is shutting down.
    Closed,
}

/// What the stream of a watching tab does next.
#[derive(Debug, Clone, Copy, PartialEq, Eq, Structural)]
pub enum StreamAction {
    /// Keep waiting.
    Wait,
    /// Tell the tab to reload, then end.
    Reload,
    /// End without a reload.
    Stop,
}

/// The next move of the stream of a tab that watches `watched`, on `event`: it
/// reloads on a change that concerns it, and when it may have missed one.
pub fn on_stream_event(watched: &Vec<Vec<String>>, event: &StreamEvent) -> (r: StreamAction)
    ensures
        match event {
            StreamEvent::Changed(c) => r == (if concerns(c.deep_view(), watched.deep_view()) {
                StreamAction::Reload
            } else {
                StreamAction::Wait
            }),
            StreamEvent::Lagged => r == StreamAction::Reload,
            StreamEvent::Closed => r == StreamAction::Stop,
        },
{
    match event {
        StreamEvent::Changed(c) => if should_reload(c, watched) {
            StreamAction::Reload
        } else {
            StreamAction::Wait
        },
        StreamEvent::Lagged => StreamAction::Reload,
        StreamEvent::Closed => StreamAction::Stop,
    }
}

} // verus!
