//! Three handlers: the index, the echo of a path segment, and the echo of
//! the caller's `User-Agent` header.

use crate::http::{
    content_length_header, content_type_header, header_value, MimeType, Request, Response,
    ResponseText, Status,
};
use crate::router::segments;
use crate::text::{chars_of, split_on, string_of, texts};
use vstd::prelude::*;

verus! {

/// The segment of a path that is echoed: the one after the first segment.
/// A path with fewer than two slashes has none.
pub open spec fn echo_segment(path: Seq<char>) -> Option<Seq<char>> {
    if segments(path).len() >= 3 {
        Some(segments(path)[2])
    } else {
        None
    }
}

/// The response `200 OK` that carries `body` as plain text: the content type
/// and the content length are its only headers.
pub open spec fn plain_text_ok(body: Seq<char>) -> ResponseText {
    ResponseText {
        status: Status::OK,
        headers: seq![content_type_header(MimeType::TextPlain), content_length_header(body)],
        body: body,
    }
}

/// Serves the index: `200 OK`, no headers, empty body, whatever the request.
pub fn index_handler(_req: Request) -> (response: Response)
    ensures
        response@ == (ResponseText {
            status: Status::OK,
            headers: Seq::empty(),
            body: Seq::empty(),
        }),
{
    Response::ok()
}

/// The segment of a path that is echoed, or `None` where the path has
/// fewer than two slashes.
pub fn echo_text(path: &str) -> (text: Option<String>)
    ensures
        match text {
            Some(t) => echo_segment(path@) == Some(t@),
            None => echo_segment(path@) is None,
        },
{
    let slash = chars_of("/");
    let path_chars = chars_of(path);
    let parts = split_on(&path_chars, &slash);
    if parts.len() < 3 {
        return None;
    }
    assert(texts(parts@)[2] == parts@[2]@);
    let text = string_of(&parts[2], 0, parts[2].len());
    assert(text@ =~= parts@[2]@);
    Some(text)
}

/// Echoes the segment after the first one as plain text.
pub fn echo_handler(req: Request) -> (response: Response)
    requires
        echo_segment(req.path@) is Some,
    ensures
        response@ == plain_text_ok(echo_segment(req.path@)->0),
{
    let body = echo_text(req.path.as_str()).unwrap();
    let response = Response::ok().body(body.as_str(), MimeType::TextPlain);
    assert(response@.headers =~= plain_text_ok(body@).headers);
    response
}

/// Echoes the value of the first `User-Agent` header as plain text.
pub fn user_agent_handler(req: Request) -> (response: Response)
    requires
        header_value(req@.headers, "User-Agent"@) is Some,
    ensures
        response@ == plain_text_ok(header_value(req@.headers, "User-Agent"@)->0),
{
    let body = req.get_header("User-Agent").unwrap();
    let response = Response::ok().body(body.as_str(), MimeType::TextPlain);
    assert(response@.headers =~= plain_text_ok(body@).headers);
    response
}

} // verus!
