//! The server: a port, a route table, and the step from the text that one
//! connection sent to the text that is written back.

use crate::http::{parsed, serialize, well_formed, Request, Response, ResponseText, Status};
use crate::router::{first_match, Route, Router};
use vstd::prelude::*;

verus! {

/// The route that serves a request accepts it.
pub open spec fn serves<H: Fn(Request) -> Response>(routes: Seq<Route<H>>, req: Request) -> bool {
    first_match(routes, req.path@) matches Some(at) ==> call_requires(routes[at].handler, (req, ))
}

/// `text` is what the route that serves `req` may answer, on the wire.
pub open spec fn answers<H: Fn(Request) -> Response>(
    routes: Seq<Route<H>>,
    req: Request,
    text: Seq<char>,
) -> bool {
    match first_match(routes, req.path@) {
        Some(at) => exists|response: Response| #[trigger]
            call_ensures(routes[at].handler, (req, ), response) && text == serialize(response@),
        None => text == serialize(
            ResponseText { status: Status::NotFound, headers: Seq::empty(), body: Seq::empty() },
        ),
    }
}

/// A server: the port it is to listen on, and its routes.
pub struct Server<H> {
    router: Router<H>,
    port: usize,
}

impl<H> Server<H> {
    /// The routes in the order in which they were registered.
    pub closed spec fn routes(&self) -> Seq<Route<H>> {
        self.router.routes()
    }

    /// The port that the server is to listen on.
    pub closed spec fn listening_port(&self) -> usize {
        self.port
    }

    /// A server for this port, without routes.
    pub fn new(port: usize) -> (server: Self)
        ensures
            server.listening_port() == port,
            server.routes() == Seq::<Route<H>>::empty(),
    {
        Self { port: port, router: Router::new() }
    }

    /// Registers a route after those that are there.
    pub fn get(&mut self, pattern: &str, handler: H)
        ensures
            final(self).listening_port() == old(self).listening_port(),
            final(self).routes().len() == old(self).routes().len() + 1,
            final(self).routes().drop_last() == old(self).routes(),
            final(self).routes().last().pattern@ == pattern@,
            final(self).routes().last().handler == handler,
    {
        self.router.add_get(pattern, handler);
    }

    /// The port that the server is to listen on.
    pub fn port(&self) -> (port: usize)
        ensures
            port == self.listening_port(),
    {
        self.port
    }
}

impl<H: Fn(Request) -> Response> Server<H> {
    /// The answer to what one connection sent: `None` where the text is
    /// malformed, so that nothing is written back; else the response of the
    /// first matching route's handler to the parsed request, or
    /// `404 Not Found` where no route matches, as it goes on the wire.
    pub fn respond(&self, raw: &str) -> (reply: Option<String>)
        requires
            forall|req: Request| req@ == parsed(raw@) ==> #[trigger] serves(self.routes(), req),
        ensures
            match reply {
                Some(text) => well_formed(raw@) && (exists|req: Request|
                    req@ == parsed(raw@) && #[trigger] answers(self.routes(), req, text@)),
                None => !well_formed(raw@),
            },
    {
        match Request::try_parse(raw) {
            None => None,
            Some(req) => {
                let ghost asked = req;
                assert(serves(self.routes(), asked));
                let response = self.router.dispatch(req);
                let text = response.to_string();
                let reply = Some(text);
                assert(answers(self.routes(), asked, reply->0@));
                reply
            },
        }
    }
}

} // verus!
