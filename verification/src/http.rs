//! The wire codec: a request is parsed from the text of one inbound buffer,
//! a response is written out as text.

use crate::text::{
    chars_of, concat, decimal, decimal_string, decimal_value, find_from, first_occurrence,
    free_of, join_with, lemma_decimal_digits, lemma_decimal_value, lemma_first_occurrence_from,
    lemma_free_of, lemma_join_empty_separator, slice_of, split, split_on, string_of,
    string_texts, texts, tokens, tokens_of, trim_end, trimmed_len,
};
use vstd::prelude::*;
use vstd::utf8::encode_utf8;

verus! {

/// The line terminator.
pub const CRLF: &'static str = "\r\n";

/// The version written on every response.
pub const VERSION: &'static str = "HTTP/1.1";

/// What stands between a header's name and its value.
pub open spec fn name_value_separator() -> Seq<char> {
    ": "@
}

/// What stands between the parts of the status line.
pub open spec fn token_separator() -> Seq<char> {
    " "@
}

/// One header: a name and a value.
#[derive(Debug)]
pub struct Header {
    pub name: String,
    pub value: String,
}

/// The text of a header.
pub struct HeaderText {
    pub name: Seq<char>,
    pub value: Seq<char>,
}

impl View for Header {
    type V = HeaderText;

    open spec fn view(&self) -> HeaderText {
        HeaderText { name: self.name@, value: self.value@ }
    }
}

/// The text of each header.
pub open spec fn header_texts(headers: Seq<Header>) -> Seq<HeaderText> {
    headers.map_values(|header: Header| header@)
}

/// A header line holds a name: after its trailing whitespace is taken off,
/// the separator of name and value stands in it.
pub open spec fn header_line_ok(line: Seq<char>) -> bool {
    first_occurrence(trim_end(line), name_value_separator()) is Some
}

/// The header that a line holds: the line without its trailing whitespace,
/// parted at the first separator.
pub open spec fn parse_header(line: Seq<char>) -> HeaderText {
    let trimmed = trim_end(line);
    let at = first_occurrence(trimmed, name_value_separator())->0;
    HeaderText {
        name: trimmed.take(at),
        value: trimmed.skip(at + name_value_separator().len()),
    }
}

/// The line that a header is written as, terminator included.
pub open spec fn header_line(header: HeaderText) -> Seq<char> {
    header.name + name_value_separator() + header.value + CRLF@
}

/// A text holds no line terminator.
pub open spec fn one_line(s: Seq<char>) -> bool {
    free_of(s, CRLF@)
}

/// A header occupies one line: neither its name nor its value holds a line
/// terminator.
pub open spec fn single_line(header: HeaderText) -> bool {
    one_line(header.name) && one_line(header.value)
}

/// Each header occupies one line.
pub open spec fn single_lines(headers: Seq<HeaderText>) -> bool {
    forall|i: int| 0 <= i < headers.len() ==> single_line(#[trigger] headers[i])
}

impl Header {
    /// The header with this name and this value.
    pub fn new(name: &str, value: &str) -> (header: Self)
        ensures
            header@ == (HeaderText { name: name@, value: value@ }),
    {
        Header { name: name.to_owned(), value: value.to_owned() }
    }

    /// The header that the characters of a line hold, if they hold one.
    fn from_chars(line: &Vec<char>) -> (header: Option<Self>)
        ensures
            match header {
                Some(h) => header_line_ok(line@) && h@ == parse_header(line@),
                None => !header_line_ok(line@),
            },
    {
        let end = trimmed_len(line);
        let trimmed = slice_of(line, 0, end);
        let separator = chars_of(": ");
        assert(trimmed@ =~= trim_end(line@));
        match find_from(&trimmed, &separator, 0) {
            None => None,
            Some(at) => {
                proof {
                    lemma_first_occurrence_from(trimmed@, separator@, 0);
                }
                let name = string_of(&trimmed, 0, at);
                let value = string_of(&trimmed, at + separator.len(), end);
                assert(name@ =~= trimmed@.take(at as int));
                assert(value@ =~= trimmed@.skip(at + separator@.len()));
                Some(Header { name, value })
            },
        }
    }

    /// The header that a line holds, or `None` where the line holds no
    /// separator of name and value.
    pub fn try_parse(line: &str) -> (header: Option<Self>)
        ensures
            match header {
                Some(h) => header_line_ok(line@) && h@ == parse_header(line@),
                None => !header_line_ok(line@),
            },
    {
        let chars = chars_of(line);
        Self::from_chars(&chars)
    }

    /// The header that a line holds.
    pub fn parse(line: &str) -> (header: Self)
        requires
            header_line_ok(line@),
        ensures
            header@ == parse_header(line@),
    {
        Self::try_parse(line).unwrap()
    }

    /// The line that the header is written as, terminator included.
    pub fn to_string(&self) -> (line: String)
        ensures
            line@ == header_line(self@),
    {
        let mut line = String::new();
        line.append(self.name.as_str());
        line.append(": ");
        line.append(self.value.as_str());
        line.append(CRLF);
        assert(line@ =~= header_line(self@));
        line
    }
}

/// A parsed request: the request-target and the headers in wire order.
#[derive(Debug)]
pub struct Request {
    pub path: String,
    pub headers: Vec<Header>,
}

/// The text of a request.
pub struct RequestText {
    pub path: Seq<char>,
    pub headers: Seq<HeaderText>,
}

impl View for Request {
    type V = RequestText;

    open spec fn view(&self) -> RequestText {
        RequestText { path: self.path@, headers: header_texts(self.headers@) }
    }
}

/// The lines of a buffer.
pub open spec fn lines_of(buffer: Seq<char>) -> Seq<Seq<char>> {
    split(buffer, CRLF@)
}

/// The whitespace-delimited tokens of the request line, which is the first
/// line of the buffer.
pub open spec fn request_line_tokens(buffer: Seq<char>) -> Seq<Seq<char>> {
    tokens(lines_of(buffer)[0])
}

/// The lines before the first empty one.
pub open spec fn leading_nonempty(lines: Seq<Seq<char>>) -> Seq<Seq<char>>
    decreases lines.len(),
{
    if lines.len() == 0 || lines[0].len() == 0 {
        Seq::empty()
    } else {
        seq![lines[0]] + leading_nonempty(lines.drop_first())
    }
}

/// The header lines of a buffer: those after the request line and before
/// the first empty line.
pub open spec fn header_lines(buffer: Seq<char>) -> Seq<Seq<char>> {
    leading_nonempty(lines_of(buffer).skip(1))
}

/// A buffer holds a request: the request line has at least two
/// whitespace-delimited tokens, and each header line has a name.
pub open spec fn well_formed(buffer: Seq<char>) -> bool {
    &&& request_line_tokens(buffer).len() >= 2
    &&& forall|i: int|
        0 <= i < header_lines(buffer).len() ==> header_line_ok(#[trigger] header_lines(buffer)[i])
}

/// The request that a buffer holds: the second whitespace-delimited token
/// of the request line, and the header of each header line.
pub open spec fn parsed(buffer: Seq<char>) -> RequestText {
    RequestText {
        path: request_line_tokens(buffer)[1],
        headers: header_lines(buffer).map_values(|line: Seq<char>| parse_header(line)),
    }
}

/// The value of the first header with this name.
pub open spec fn header_value(headers: Seq<HeaderText>, name: Seq<char>) -> Option<Seq<char>>
    decreases headers.len(),
{
    if headers.len() == 0 {
        None
    } else if headers[0].name == name {
        Some(headers[0].value)
    } else {
        header_value(headers.drop_first(), name)
    }
}

/// A split has at least one piece.
pub proof fn lemma_split_nonempty(s: Seq<char>, sep: Seq<char>)
    ensures
        split(s, sep).len() >= 1,
{
}

/// The leading non-empty lines are the lines before the first empty one:
/// after `count` non-empty lines, what follows decides the rest.
pub proof fn lemma_leading_nonempty_prefix(lines: Seq<Seq<char>>, count: int)
    requires
        0 <= count <= lines.len(),
        forall|i: int| 0 <= i < count ==> lines[i].len() > 0,
    ensures
        leading_nonempty(lines) == lines.take(count) + leading_nonempty(lines.skip(count)),
    decreases count,
{
    if count == 0 {
        assert(lines.skip(0) =~= lines);
        assert(lines.take(0) + leading_nonempty(lines) =~= leading_nonempty(lines));
    } else {
        let rest = lines.drop_first();
        lemma_leading_nonempty_prefix(rest, count - 1);
        assert(rest.skip(count - 1) =~= lines.skip(count));
        assert(seq![lines[0]] + rest.take(count - 1) =~= lines.take(count));
        assert(seq![lines[0]] + (rest.take(count - 1) + leading_nonempty(lines.skip(count)))
            =~= lines.take(count) + leading_nonempty(lines.skip(count)));
    }
}

impl Request {
    /// The request that a buffer holds, or `None` where the buffer is
    /// malformed: the request line has fewer than two whitespace-delimited
    /// tokens, or a header line has no name.
    pub fn try_parse(req: &str) -> (request: Option<Request>)
        ensures
            match request {
                Some(r) => well_formed(req@) && r@ == parsed(req@),
                None => !well_formed(req@),
            },
    {
        let buffer = chars_of(req);
        let terminator = chars_of(CRLF);
        let lines = split_on(&buffer, &terminator);
        proof {
            lemma_split_nonempty(req@, CRLF@);
        }
        assert(texts(lines@)[0] == lines@[0]@);
        let words = tokens_of(&lines[0]);
        if words.len() < 2 {
            return None;
        }
        assert(texts(words@)[1] == words@[1]@);
        let path = string_of(&words[1], 0, words[1].len());
        assert(path@ =~= words@[1]@);
        let ghost all = lines_of(req@);
        let ghost following = all.skip(1);
        let mut headers: Vec<Header> = Vec::new();
        let mut i: usize = 1;
        while i < lines.len() && lines[i].len() > 0
            invariant
                1 <= i <= lines.len(),
                all == lines_of(req@),
                all == texts(lines@),
                following == all.skip(1),
                forall|k: int| 0 <= k < i - 1 ==> following[k].len() > 0,
                headers.len() == i - 1,
                forall|k: int|
                    0 <= k < i - 1 ==> header_line_ok(#[trigger] following[k])
                        && headers@[k]@ == parse_header(following[k]),
            decreases lines.len() - i,
        {
            assert(following[i - 1] == lines@[i as int]@);
            proof {
                lemma_leading_nonempty_prefix(following, i as int);
                assert(header_lines(req@)[i - 1] == following[i - 1]);
            }
            match Header::from_chars(&lines[i]) {
                None => {
                    return None;
                },
                Some(header) => {
                    headers.push(header);
                },
            }
            i += 1;
        }
        proof {
            lemma_leading_nonempty_prefix(following, i - 1);
            assert(leading_nonempty(following.skip(i - 1)) =~= Seq::<Seq<char>>::empty()) by {
                if i < lines.len() {
                    assert(following.skip(i - 1)[0] == lines@[i as int]@);
                }
            }
            assert(header_lines(req@) =~= following.take(i - 1));
            assert(header_texts(headers@) =~= parsed(req@).headers);
        }
        Some(Request { path, headers })
    }

    /// The request that a buffer holds.
    pub fn parse(req: &str) -> (request: Request)
        requires
            well_formed(req@),
        ensures
            request@ == parsed(req@),
    {
        Self::try_parse(req).unwrap()
    }

    /// The value of the first header whose name is exactly `name`.
    pub fn get_header(&self, name: &str) -> (value: Option<String>)
        ensures
            match value {
                Some(v) => header_value(self@.headers, name@) == Some(v@),
                None => header_value(self@.headers, name@) is None,
            },
    {
        let wanted = name.to_owned();
        let ghost all = self@.headers;
        let mut i: usize = 0;
        assert(all.skip(0) =~= all);
        while i < self.headers.len()
            invariant
                i <= self.headers.len(),
                all == self@.headers,
                wanted@ == name@,
                header_value(all, name@) == header_value(all.skip(i as int), name@),
            decreases self.headers.len() - i,
        {
            assert(all.skip(i as int)[0] == self.headers@[i as int]@);
            if self.headers[i].name == wanted {
                return Some(self.headers[i].value.clone());
            }
            assert(all.skip(i as int).drop_first() =~= all.skip(i + 1));
            i += 1;
        }
        None
    }
}

/// The status of a response.
#[derive(Debug)]
pub enum Status {
    OK,
    NotFound,
}

impl Status {
    /// The three digits of the status.
    pub open spec fn code_text(self) -> Seq<char> {
        match self {
            Status::OK => "200"@,
            Status::NotFound => "404"@,
        }
    }

    /// The reason phrase of the status.
    pub open spec fn reason_text(self) -> Seq<char> {
        match self {
            Status::OK => "OK"@,
            Status::NotFound => "Not Found"@,
        }
    }

    /// The three digits of the status.
    pub fn code(&self) -> (text: &str)
        ensures
            text@ == self.code_text(),
    {
        match self {
            Status::OK => "200",
            Status::NotFound => "404",
        }
    }

    /// The reason phrase of the status.
    pub fn name(&self) -> (text: &str)
        ensures
            text@ == self.reason_text(),
    {
        match self {
            Status::OK => "OK",
            Status::NotFound => "Not Found",
        }
    }
}

/// Every status has a code of three characters and a reason phrase that is
/// not empty.
pub proof fn lemma_status_texts_defined(status: Status)
    ensures
        status.code_text().len() == 3,
        status.reason_text().len() > 0,
{
    reveal_strlit("200");
    reveal_strlit("404");
    reveal_strlit("OK");
    reveal_strlit("Not Found");
}

/// The content types that a body can have.
#[derive(Debug)]
pub enum MimeType {
    TextPlain,
}

impl MimeType {
    /// The identifier of the content type.
    pub open spec fn text(self) -> Seq<char> {
        match self {
            MimeType::TextPlain => "text/plain"@,
        }
    }

    /// The identifier of the content type.
    pub fn to_string(&self) -> (text: &str)
        ensures
            text@ == self.text(),
    {
        match self {
            MimeType::TextPlain => "text/plain",
        }
    }
}

/// A response: a status, headers in the order they were added, and a body.
#[derive(Debug)]
pub struct Response {
    status: Status,
    headers: Vec<Header>,
    body: String,
}

/// The text of a response.
pub struct ResponseText {
    pub status: Status,
    pub headers: Seq<HeaderText>,
    pub body: Seq<char>,
}

impl View for Response {
    type V = ResponseText;

    closed spec fn view(&self) -> ResponseText {
        ResponseText {
            status: self.status,
            headers: header_texts(self.headers@),
            body: self.body@,
        }
    }
}

/// The number of bytes that a body takes on the wire.
pub open spec fn byte_length(body: Seq<char>) -> nat {
    encode_utf8(body).len()
}

/// The header that names the content type of a body.
pub open spec fn content_type_header(mime_type: MimeType) -> HeaderText {
    HeaderText { name: "Content-Type"@, value: mime_type.text() }
}

/// The header that gives the length of a body in bytes, in decimal.
pub open spec fn content_length_header(body: Seq<char>) -> HeaderText {
    HeaderText { name: "Content-Length"@, value: decimal(byte_length(body)) }
}

/// An empty line as it stands on the wire: the terminator of the line
/// before it, and its own.
pub open spec fn blank_line() -> Seq<char> {
    CRLF@ + CRLF@
}

/// The status line, terminator included.
pub open spec fn status_line(status: Status) -> Seq<char> {
    VERSION@ + token_separator() + status.code_text() + token_separator() + status.reason_text()
        + CRLF@
}

/// The header lines one after the other, each with its terminator.
pub open spec fn header_block(headers: Seq<HeaderText>) -> Seq<char> {
    concat(headers.map_values(|header: HeaderText| header_line(header)))
}

/// A response on the wire: the status line, the header lines, one empty
/// line, and the body as it is.
pub open spec fn serialize(response: ResponseText) -> Seq<char> {
    status_line(response.status) + header_block(response.headers) + CRLF@ + response.body
}

/// The two headers that describe a body occupy one line each.
pub proof fn lemma_body_headers_single_line(body: Seq<char>, mime_type: MimeType)
    ensures
        single_line(content_type_header(mime_type)),
        single_line(content_length_header(body)),
{
    reveal_strlit("\r\n");
    reveal_strlit("Content-Type");
    reveal_strlit("Content-Length");
    reveal_strlit("text/plain");
    lemma_decimal_digits(byte_length(body));
    lemma_free_of("Content-Type"@, CRLF@);
    lemma_free_of("Content-Length"@, CRLF@);
    lemma_free_of(mime_type.text(), CRLF@);
    lemma_free_of(decimal(byte_length(body)), CRLF@);
}

impl Response {
    /// Each header of a response occupies one line.
    #[verifier::type_invariant]
    spec fn headers_on_one_line_each(self) -> bool {
        single_lines(header_texts(self.headers@))
    }

    /// The response `200 OK` with no headers and an empty body.
    pub fn ok() -> (response: Self)
        ensures
            response@ == (ResponseText {
                status: Status::OK,
                headers: Seq::empty(),
                body: Seq::empty(),
            }),
            single_lines(response@.headers),
    {
        let response = Self { status: Status::OK, headers: Vec::new(), body: String::new() };
        assert(header_texts(response.headers@) =~= Seq::empty());
        response
    }

    /// The response `404 Not Found` with no headers and an empty body.
    pub fn not_found() -> (response: Self)
        ensures
            response@ == (ResponseText {
                status: Status::NotFound,
                headers: Seq::empty(),
                body: Seq::empty(),
            }),
            single_lines(response@.headers),
    {
        let response = Self { status: Status::NotFound, headers: Vec::new(), body: String::new() };
        assert(header_texts(response.headers@) =~= Seq::empty());
        response
    }

    /// The response with this body: the content type and the content length
    /// are added after the headers that are there, and the body replaces
    /// the one that was there.
    pub fn body(self, body: &str, mime_type: MimeType) -> (response: Self)
        ensures
            response@ == (ResponseText {
                status: self@.status,
                headers: self@.headers.push(content_type_header(mime_type)).push(
                    content_length_header(body@),
                ),
                body: body@,
            }),
            single_lines(response@.headers),
    {
        proof {
            use_type_invariant(&self);
            lemma_body_headers_single_line(body@, mime_type);
        }
        let ghost before = header_texts(self.headers@);
        let length = decimal_string(body.as_bytes().len());
        let status = self.status;
        let mut headers = self.headers;
        headers.push(Header::new("Content-Type", mime_type.to_string()));
        headers.push(Header::new("Content-Length", length.as_str()));
        assert(header_texts(headers@) =~= before.push(content_type_header(mime_type)).push(
            content_length_header(body@),
        ));
        let response = Response { status, headers, body: body.to_owned() };
        response
    }

    /// The response on the wire.
    pub fn to_string(&self) -> (text: String)
        ensures
            text@ == serialize(self@),
            first_occurrence(text@, blank_line()) == Some(head(self@).len() - CRLF@.len()),
    {
        proof {
            use_type_invariant(self);
            crate::framing::lemma_first_blank_line_parts_head_and_body(self@);
        }
        let ghost headers = header_texts(self.headers@);
        let ghost written = headers.map_values(|header: HeaderText| header_line(header));
        let mut lines: Vec<String> = Vec::new();
        let mut i: usize = 0;
        while i < self.headers.len()
            invariant
                i <= self.headers.len(),
                headers == header_texts(self.headers@),
                written == headers.map_values(|header: HeaderText| header_line(header)),
                string_texts(lines@) == written.take(i as int),
            decreases self.headers.len() - i,
        {
            let ghost before = string_texts(lines@);
            lines.push(self.headers[i].to_string());
            i += 1;
            assert(string_texts(lines@) =~= before.push(written[i - 1]));
            assert(written.take(i as int) =~= written.take(i - 1).push(written[i - 1]));
        }
        assert(written.take(i as int) =~= written);
        let block = join_with(&lines, "");
        proof {
            reveal_strlit("");
            assert(""@ =~= Seq::<char>::empty());
            lemma_join_empty_separator(written);
        }
        let mut text = String::new();
        text.append(VERSION);
        text.append(" ");
        text.append(self.status.code());
        text.append(" ");
        text.append(self.status.name());
        text.append(CRLF);
        text.append(block.as_str());
        text.append(CRLF);
        text.append(self.body.as_str());
        assert(text@ =~= serialize(self@));
        text
    }
}

/// Parsing has no hidden state: two requests parsed from the same buffer
/// have the same path and the same headers in the same order.
pub proof fn lemma_parse_twice_agrees(buffer: Seq<char>, first: Request, second: Request)
    requires
        first@ == parsed(buffer),
        second@ == parsed(buffer),
    ensures
        first@ == second@,
        first.path@ == second.path@,
        first.headers.len() == second.headers.len(),
        forall|i: int| 0 <= i < first.headers.len() ==> first.headers[i]@ == second.headers[i]@,
{
    let one = header_texts(first.headers@);
    let other = header_texts(second.headers@);
    assert(one == first@.headers && other == second@.headers);
    assert(one.len() == first.headers.len() && other.len() == second.headers.len());
    assert forall|i: int| 0 <= i < first.headers.len() implies first.headers[i]@
        == second.headers[i]@ by {
        assert(one[i] == first.headers[i]@ && other[i] == second.headers[i]@);
    }
}

/// What a response has on the wire before its body: the status line and the
/// header lines.
pub open spec fn head(response: ResponseText) -> Seq<char> {
    status_line(response.status) + header_block(response.headers)
}

/// The header block ends with a line terminator unless it is empty.
pub proof fn lemma_header_block_ends_with_terminator(headers: Seq<HeaderText>)
    requires
        headers.len() > 0,
    ensures
        header_block(headers).len() >= CRLF@.len(),
        header_block(headers).skip(header_block(headers).len() - CRLF@.len()) == CRLF@,
{
    let lines = headers.map_values(|header: HeaderText| header_line(header));
    let before = concat(lines.drop_last());
    let last = headers.last().name + name_value_separator() + headers.last().value;
    assert(lines.last() == last + CRLF@);
    assert(header_block(headers) =~= before + last + CRLF@);
    assert((before + last + CRLF@).skip((before + last).len() as int) =~= CRLF@);
}

/// A response on the wire has one empty line before its body: it is its
/// head, which ends with a line terminator, then one more line terminator,
/// then the body and nothing after it.
pub proof fn lemma_serialize_layout(response: ResponseText)
    ensures
        serialize(response) == head(response) + CRLF@ + response.body,
        head(response).len() >= CRLF@.len(),
        head(response).skip(head(response).len() - CRLF@.len()) == CRLF@,
        serialize(response).skip((head(response).len() + CRLF@.len()) as int) == response.body,
        serialize(response).subrange(
            head(response).len() - CRLF@.len(),
            (head(response).len() + CRLF@.len()) as int,
        ) == CRLF@ + CRLF@,
{
    let h = head(response);
    let n = CRLF@.len() as int;
    let status = status_line(response.status);
    let block = header_block(response.headers);
    if response.headers.len() > 0 {
        lemma_header_block_ends_with_terminator(response.headers);
        assert(h.skip(h.len() - n) =~= block.skip(block.len() - n));
    } else {
        assert(block =~= Seq::<char>::empty());
        let start = VERSION@ + token_separator() + response.status.code_text() + token_separator()
            + response.status.reason_text();
        assert(status == start + CRLF@);
        assert(h =~= start + CRLF@);
        assert((start + CRLF@).skip(start.len() as int) =~= CRLF@);
    }
    assert(serialize(response) =~= h + CRLF@ + response.body);
    assert((h + CRLF@ + response.body).skip(h.len() + n) =~= response.body);
    assert((h + CRLF@ + response.body).subrange(h.len() - n, h.len() + n) =~= h.skip(h.len() - n)
        + CRLF@);
}

/// The content length that the body helper writes stands for the number of
/// bytes of the body.
pub proof fn lemma_content_length_is_byte_length(body: Seq<char>)
    ensures
        decimal_value(content_length_header(body).value) == byte_length(body),
{
    lemma_decimal_value(byte_length(body));
}

} // verus!
