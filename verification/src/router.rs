//! The route table: patterns with their handlers, matched in the order in
//! which they were registered.

use crate::http::{Request, Response, ResponseText, Status};
use crate::text::{chars_of, same_text, split, split_on, texts};
use vstd::prelude::*;

verus! {

/// The segments of a path: its pieces between the slashes.
pub open spec fn segments(path: Seq<char>) -> Seq<Seq<char>> {
    split(path, "/"@)
}

/// The first segment of a path: what stands between its first slash and its
/// second one, or the end. A path without a slash has none.
pub open spec fn first_segment(path: Seq<char>) -> Option<Seq<char>> {
    if segments(path).len() >= 2 {
        Some(segments(path)[1])
    } else {
        None
    }
}

/// A pattern matches a path where both have a first segment and the two are
/// the same. What follows the first segment is not compared.
pub open spec fn pattern_matches(pattern: Seq<char>, path: Seq<char>) -> bool {
    first_segment(pattern) is Some && first_segment(pattern) == first_segment(path)
}

/// One route: a pattern and the handler that serves the paths it matches.
#[derive(Clone)]
pub struct Route<H> {
    pub pattern: String,
    pub handler: H,
}

/// The index of the first route at or after `from` whose pattern matches
/// `path`.
pub open spec fn first_match_from<H>(routes: Seq<Route<H>>, path: Seq<char>, from: int) -> Option<
    int,
>
    decreases routes.len() - from,
{
    if from < 0 || from >= routes.len() {
        None
    } else if pattern_matches(routes[from].pattern@, path) {
        Some(from)
    } else {
        first_match_from(routes, path, from + 1)
    }
}

/// The index of the first route whose pattern matches `path`.
pub open spec fn first_match<H>(routes: Seq<Route<H>>, path: Seq<char>) -> Option<int> {
    first_match_from(routes, path, 0)
}

/// `first_match_from` gives a route that matches and that no matching route
/// at or after `from` precedes, and gives none only where none matches.
pub proof fn lemma_first_match_from<H>(routes: Seq<Route<H>>, path: Seq<char>, from: int)
    requires
        0 <= from,
    ensures
        match first_match_from(routes, path, from) {
            Some(at) => from <= at < routes.len() && pattern_matches(routes[at].pattern@, path)
                && forall|j: int| from <= j < at ==> !pattern_matches(routes[j].pattern@, path),
            None => forall|j: int|
                from <= j < routes.len() ==> !pattern_matches(routes[j].pattern@, path),
        },
    decreases routes.len() - from,
{
    if from < routes.len() && !pattern_matches(routes[from].pattern@, path) {
        lemma_first_match_from(routes, path, from + 1);
    }
}

/// First match wins: the route that is found is the earliest registered one
/// whose first segment is that of the path, and none is found exactly where
/// no registered pattern has that first segment.
pub proof fn lemma_first_match_wins<H>(routes: Seq<Route<H>>, path: Seq<char>)
    ensures
        match first_match(routes, path) {
            Some(at) => 0 <= at < routes.len() && pattern_matches(routes[at].pattern@, path)
                && forall|j: int| 0 <= j < at ==> !pattern_matches(routes[j].pattern@, path),
            None => forall|j: int|
                0 <= j < routes.len() ==> !pattern_matches(routes[j].pattern@, path),
        },
{
    lemma_first_match_from(routes, path, 0);
}

/// Registering a route changes no earlier match: a path that an earlier
/// route serves is still served by it, and only a path that none served can
/// reach the new route.
pub proof fn lemma_later_route_never_shadows<H>(
    routes: Seq<Route<H>>,
    added: Route<H>,
    path: Seq<char>,
)
    ensures
        first_match(routes.push(added), path) == match first_match(routes, path) {
            Some(at) => Some(at),
            None => if pattern_matches(added.pattern@, path) {
                Some(routes.len() as int)
            } else {
                None
            },
        },
{
    let extended = routes.push(added);
    lemma_first_match_from(routes, path, 0);
    lemma_first_match_from(extended, path, 0);
    assert forall|j: int| 0 <= j < routes.len() implies extended[j] == routes[j] by {}
    match first_match(routes, path) {
        Some(at) => {
            assert(extended[at] == routes[at]);
        },
        None => {
            assert(extended[routes.len() as int] == added);
        },
    }
}

/// The route table.
#[derive(Clone)]
pub struct Router<H> {
    routes: Vec<Route<H>>,
}

impl<H> Router<H> {
    /// The routes in the order in which they were registered.
    pub closed spec fn routes(&self) -> Seq<Route<H>> {
        self.routes@
    }

    /// A table without routes.
    pub fn new() -> (router: Self)
        ensures
            router.routes() == Seq::<Route<H>>::empty(),
    {
        Self { routes: Vec::new() }
    }

    /// Registers a route after those that are there.
    pub fn add_get(&mut self, pattern: &str, handler: H)
        ensures
            final(self).routes().len() == old(self).routes().len() + 1,
            final(self).routes().drop_last() == old(self).routes(),
            final(self).routes().last().pattern@ == pattern@,
            final(self).routes().last().handler == handler,
    {
        let ghost before = self.routes@;
        self.routes.push(Route { pattern: pattern.to_owned(), handler });
        assert(self.routes@.drop_last() =~= before);
    }

    /// The first registered route whose pattern matches the path.
    pub fn get_matching_route(&self, req_path: &str) -> (found: Option<&Route<H>>)
        ensures
            match found {
                Some(route) => first_match(self.routes(), req_path@) is Some && *route
                    == self.routes()[first_match(self.routes(), req_path@)->0],
                None => first_match(self.routes(), req_path@) is None,
            },
    {
        let mut i: usize = 0;
        while i < self.routes.len()
            invariant
                i <= self.routes.len(),
                first_match(self.routes(), req_path@) == first_match_from(
                    self.routes(),
                    req_path@,
                    i as int,
                ),
            decreases self.routes.len() - i,
        {
            if Self::matches(self.routes[i].pattern.as_str(), req_path) {
                return Some(&self.routes[i]);
            }
            i += 1;
        }
        None
    }

    /// Whether the first segment of the pattern is that of the path.
    pub fn matches(pattern: &str, req_path: &str) -> (matched: bool)
        ensures
            matched == pattern_matches(pattern@, req_path@),
    {
        let slash = chars_of("/");
        let pattern_chars = chars_of(pattern);
        let path_chars = chars_of(req_path);
        let pattern_parts = split_on(&pattern_chars, &slash);
        let path_parts = split_on(&path_chars, &slash);
        if pattern_parts.len() < 2 || path_parts.len() < 2 {
            return false;
        }
        assert(texts(pattern_parts@)[1] == pattern_parts@[1]@);
        assert(texts(path_parts@)[1] == path_parts@[1]@);
        same_text(&pattern_parts[1], &path_parts[1])
    }
}

impl<H: Fn(Request) -> Response> Router<H> {
    /// The response to a request: that of the handler of the first route
    /// that matches the request's path, or `404 Not Found`, with no headers
    /// and an empty body, where no route matches.
    pub fn dispatch(&self, req: Request) -> (response: Response)
        requires
            first_match(self.routes(), req.path@) matches Some(at) ==> call_requires(
                self.routes()[at].handler,
                (req,),
            ),
        ensures
            match first_match(self.routes(), req.path@) {
                Some(at) => call_ensures(self.routes()[at].handler, (req,), response),
                None => response@ == (ResponseText {
                    status: Status::NotFound,
                    headers: Seq::empty(),
                    body: Seq::empty(),
                }),
            },
    {
        match self.get_matching_route(req.path.as_str()) {
            Some(route) => (route.handler)(req),
            None => Response::not_found(),
        }
    }
}

} // verus!
