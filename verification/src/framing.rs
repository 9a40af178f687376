//! Where the body of a response begins: the first empty line on the wire is
//! the one that the codec wrote after the headers.

use crate::http::{
    blank_line, head, header_block, header_line, lemma_serialize_layout, name_value_separator,
    serialize, single_line, single_lines, status_line, token_separator, HeaderText,
    ResponseText, Status, CRLF, VERSION,
};
use crate::text::{first_occurrence, lemma_first_occurrence_from, occurs_at};
use vstd::prelude::*;

verus! {

/// A carriage return stands at `at`, and a line feed after it.
spec fn ends_line_at(s: Seq<char>, at: int) -> bool {
    0 <= at && at + 1 < s.len() && s[at] == '\r' && s[at + 1] == '\n'
}

/// Every line of `t` is terminated, and none of them is empty.
spec fn full_lines(t: Seq<char>) -> bool {
    &&& t.len() == 0 || ends_line_at(t, t.len() - 2)
    &&& forall|p: int| !(#[trigger] ends_line_at(t, p) && ends_line_at(t, p + 2))
}

/// The line terminator is a carriage return and a line feed.
proof fn lemma_terminator_chars()
    ensures
        CRLF@.len() == 2,
        CRLF@[0] == '\r',
        CRLF@[1] == '\n',
        blank_line().len() == 4,
{
    reveal_strlit("\r\n");
}

/// The terminator stands where a carriage return is followed by a line feed.
proof fn lemma_terminator_at(s: Seq<char>, at: int)
    ensures
        occurs_at(s, CRLF@, at) == ends_line_at(s, at),
{
    lemma_terminator_chars();
    if 0 <= at && at + 2 <= s.len() {
        let part = s.subrange(at, at + 2);
        assert(part[0] == s[at] && part[1] == s[at + 1]);
        if ends_line_at(s, at) {
            assert(part =~= CRLF@);
        }
    }
}

/// An empty line stands where two terminators follow each other.
proof fn lemma_blank_line_at(s: Seq<char>, at: int)
    ensures
        occurs_at(s, blank_line(), at) == (ends_line_at(s, at) && ends_line_at(s, at + 2)),
{
    lemma_terminator_chars();
    let blank = blank_line();
    assert(blank[0] == '\r' && blank[1] == '\n' && blank[2] == '\r' && blank[3] == '\n');
    if 0 <= at && at + 4 <= s.len() {
        let part = s.subrange(at, at + 4);
        assert(part[0] == s[at] && part[1] == s[at + 1] && part[2] == s[at + 2] && part[3] == s[at
            + 3]);
        if ends_line_at(s, at) && ends_line_at(s, at + 2) {
            assert(part =~= blank);
        }
    }
}

/// A line that is not empty and holds no terminator, written after full
/// lines and terminated, leaves full lines.
proof fn lemma_append_line(t: Seq<char>, line: Seq<char>)
    requires
        full_lines(t),
        line.len() > 0,
        forall|i: int| !ends_line_at(line, i),
    ensures
        full_lines(t + line + CRLF@),
{
    lemma_terminator_chars();
    let all = t + line + CRLF@;
    let last = (t.len() + line.len()) as int;
    assert(all.len() == last + 2);
    assert(all[last] == '\r' && all[last + 1] == '\n');
    assert forall|p: int| #[trigger] ends_line_at(all, p) implies (p + 2 <= t.len() && ends_line_at(
        t,
        p,
    )) || p == last by {
        if p + 2 <= t.len() {
            assert(all[p] == t[p] && all[p + 1] == t[p + 1]);
        } else if p + 1 == t.len() {
            assert(all[p] == t[p]);
            assert(ends_line_at(t, t.len() - 2));
        } else if p + 2 <= last {
            assert(all[p] == line[p - t.len()] && all[p + 1] == line[p + 1 - t.len()]);
            assert(ends_line_at(line, p - t.len()));
        } else if p + 1 == last {
            assert(all[p + 1] == '\r');
        }
    }
    assert forall|p: int| !(#[trigger] ends_line_at(all, p) && ends_line_at(all, p + 2)) by {
        if ends_line_at(all, p) && ends_line_at(all, p + 2) {
            if p + 4 <= t.len() {
                assert(ends_line_at(t, p) && ends_line_at(t, p + 2));
            }
        }
    }
}

/// A text holds no carriage return.
spec fn plain(s: Seq<char>) -> bool {
    forall|i: int| 0 <= i < s.len() ==> s[i] != '\r'
}

/// Two texts without a carriage return have none when put together.
proof fn lemma_plain_concat(a: Seq<char>, b: Seq<char>)
    requires
        plain(a),
        plain(b),
    ensures
        plain(a + b),
{
    assert forall|i: int| 0 <= i < (a + b).len() implies (a + b)[i] != '\r' by {
        if i < a.len() {
            assert((a + b)[i] == a[i]);
        } else {
            assert((a + b)[i] == b[i - a.len()]);
        }
    }
}

/// The status line before its terminator holds no carriage return, and is
/// not empty.
proof fn lemma_status_line_plain(status: Status)
    ensures
        plain(
            VERSION@ + token_separator() + status.code_text() + token_separator()
                + status.reason_text(),
        ),
        VERSION@.len() > 0,
{
    reveal_strlit("HTTP/1.1");
    reveal_strlit(" ");
    reveal_strlit("200");
    reveal_strlit("404");
    reveal_strlit("OK");
    reveal_strlit("Not Found");
    assert(plain(VERSION@));
    assert(plain(token_separator()));
    assert(plain(status.code_text()));
    assert(plain(status.reason_text()));
    lemma_plain_concat(VERSION@, token_separator());
    lemma_plain_concat(VERSION@ + token_separator(), status.code_text());
    lemma_plain_concat(VERSION@ + token_separator() + status.code_text(), token_separator());
    lemma_plain_concat(
        VERSION@ + token_separator() + status.code_text() + token_separator(),
        status.reason_text(),
    );
}

/// A header that occupies one line is written as a line that is not empty
/// and holds no terminator before its own.
proof fn lemma_header_line_content(header: HeaderText)
    requires
        single_line(header),
    ensures
        (header.name + name_value_separator() + header.value).len() > 0,
        forall|i: int|
            !ends_line_at(header.name + name_value_separator() + header.value, i),
{
    reveal_strlit(": ");
    let sep = name_value_separator();
    let line = header.name + sep + header.value;
    let n = header.name.len() as int;
    assert(sep.len() == 2 && sep[0] == ':' && sep[1] == ' ');
    assert forall|i: int| !ends_line_at(line, i) by {
        if ends_line_at(line, i) {
            if i + 2 <= n {
                assert(line[i] == header.name[i] && line[i + 1] == header.name[i + 1]);
                lemma_terminator_at(header.name, i);
            } else if i < n + 2 {
                assert(line[n] == ':' && line[n + 1] == ' ');
            } else {
                assert(line[i] == header.value[i - n - 2] && line[i + 1] == header.value[i + 1 - n
                    - 2]);
                lemma_terminator_at(header.value, i - n - 2);
            }
        }
    }
}

/// The head of a response whose headers occupy one line each is made of
/// full lines.
proof fn lemma_head_full_lines(status: Status, headers: Seq<HeaderText>)
    requires
        single_lines(headers),
    ensures
        full_lines(status_line(status) + header_block(headers)),
    decreases headers.len(),
{
    let lines = headers.map_values(|header: HeaderText| header_line(header));
    if headers.len() == 0 {
        let content = VERSION@ + token_separator() + status.code_text() + token_separator()
            + status.reason_text();
        lemma_status_line_plain(status);
        assert(full_lines(Seq::<char>::empty()));
        lemma_append_line(Seq::empty(), content);
        assert(Seq::<char>::empty() + content + CRLF@ =~= status_line(status) + header_block(
            headers,
        ));
    } else {
        let before = headers.drop_last();
        let last = headers.last();
        let content = last.name + name_value_separator() + last.value;
        lemma_head_full_lines(status, before);
        lemma_header_line_content(last);
        let so_far = status_line(status) + header_block(before);
        lemma_append_line(so_far, content);
        assert(lines.drop_last() =~= before.map_values(|header: HeaderText| header_line(header)));
        assert(lines.last() == content + CRLF@);
        assert(so_far + content + CRLF@ =~= status_line(status) + header_block(headers));
    }
}

/// The body begins after the first empty line: in a response whose headers
/// occupy one line each, the first empty line on the wire is the one that
/// stands between the head and the body, whatever the body holds.
pub proof fn lemma_first_blank_line_parts_head_and_body(response: ResponseText)
    requires
        single_lines(response.headers),
    ensures
        first_occurrence(serialize(response), blank_line()) == Some(
            head(response).len() - CRLF@.len(),
        ),
{
    lemma_terminator_chars();
    lemma_serialize_layout(response);
    lemma_head_full_lines(response.status, response.headers);
    let h = head(response);
    let wire = serialize(response);
    let at = h.len() - 2;
    assert(wire == h + CRLF@ + response.body);
    assert(ends_line_at(h, at));
    assert(wire[at] == h[at] && wire[at + 1] == h[at + 1]);
    assert(wire[at + 2] == '\r' && wire[at + 3] == '\n');
    lemma_blank_line_at(wire, at);
    assert forall|p: int| 0 <= p < at implies !occurs_at(wire, blank_line(), p) by {
        lemma_blank_line_at(wire, p);
        if ends_line_at(wire, p) && ends_line_at(wire, p + 2) {
            assert(wire[p] == h[p] && wire[p + 1] == h[p + 1] && wire[p + 2] == h[p + 2]);
            if p + 4 <= h.len() {
                assert(wire[p + 3] == h[p + 3]);
                assert(ends_line_at(h, p) && ends_line_at(h, p + 2));
            } else {
                assert(h[p + 2] == '\n');
            }
        }
    }
    lemma_first_occurrence_from(wire, blank_line(), 0);
}

} // verus!
