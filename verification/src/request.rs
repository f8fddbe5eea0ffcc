//! Requests as a server sees them: where one ends, and what its body says.

use crate::json::{self, parse_json, Json};
use crate::lossy::{self, decode_lossy};
use crate::text::{self, parse_decimal, split_once};
use serde_json::Value;
use vstd::prelude::*;

verus! {

/// What ends the headers of a request.
pub open spec fn header_separator() -> Seq<u8> {
    seq![13u8, 10u8, 13u8, 10u8]
}

/// The length that a header line declares for the body, if it is a `Content-Length` with a
/// whole number.
pub open spec fn line_length(line: Seq<char>) -> Option<nat> {
    match text::first_at(line, ":"@) {
        Some(i) => match text::decimal(text::trimmed(line.skip(i + 1))) {
            Some(length) if text::ascii_lowered(line.take(i)) == text::ascii_lowered(
                "content-length"@,
            ) && length <= usize::MAX => Some(length),
            _ => None,
        },
        None => None,
    }
}

/// The length that the headers declare for the body: the first one that a line declares, or 0.
/// The carriage return before a line feed is white space, of which a value is free.
pub open spec fn declared_length(headers: Seq<char>) -> nat
    decreases headers.len(),
{
    match text::first_at(headers, "\n"@) {
        Some(i) => {
            proof {
                text::lemma_first_at(headers, "\n"@);
                reveal_strlit("\n");
            }
            match line_length(headers.take(i)) {
                Some(length) => length,
                None => declared_length(headers.skip(i + 1)),
            }
        },
        None => match line_length(headers) {
            Some(length) => length,
            None => 0,
        },
    }
}

/// Whether bytes hold a whole request: its headers, and as much body as they declare.
pub open spec fn complete(bytes: Seq<u8>) -> bool {
    match text::first_at(bytes, header_separator()) {
        Some(end) => bytes.len() >= end + 4 + declared_length(lossy::decoded(bytes.take(end))),
        None => false,
    }
}

/// The length that a header line declares for the body.
fn length_of_line(line: &str) -> (length: Option<usize>)
    ensures
        match length {
            Some(length) => line_length(line@) == Some(length as nat),
            None => line_length(line@) is None,
        },
{
    proof {
        reveal_strlit(":");
    }
    match split_once(line, ":") {
        Some((key, value)) => if key.eq_ignore_ascii_case("content-length") {
            match parse_decimal(value.trim(), usize::MAX as u64) {
                Some(length) => Some(length as usize),
                None => None,
            }
        } else {
            None
        },
        None => None,
    }
}

/// The length that the headers declare for the body.
fn length_of_body(headers: &str) -> (length: usize)
    ensures
        length == declared_length(headers@),
{
    let mut rest = headers;
    proof {
        reveal_strlit("\n");
    }
    loop
        invariant
            declared_length(rest@) == declared_length(headers@),
            "\n"@.len() == 1,
        decreases rest@.len(),
    {
        proof {
            text::lemma_first_at(rest@, "\n"@);
        }
        match split_once(rest, "\n") {
            Some((line, behind)) => {
                if let Some(length) = length_of_line(line) {
                    return length;
                }
                rest = behind;
            },
            None => {
                return match length_of_line(rest) {
                    Some(length) => length,
                    None => 0,
                };
            },
        }
    }
}

/// Where the headers end.
fn find_header_end(bytes: &[u8]) -> (end: Option<usize>)
    ensures
        match end {
            Some(end) => text::first_at(bytes@, header_separator()) == Some(end as int) && end + 4
                <= bytes.len(),
            None => text::first_at(bytes@, header_separator()) is None,
        },
{
    let mut i: usize = 0;
    assert(bytes@.skip(0) =~= bytes@);
    while i < bytes.len() && bytes.len() - i >= 4
        invariant
            i <= bytes@.len(),
            text::first_at(bytes@, header_separator()) == (match text::first_at(
                bytes@.skip(i as int),
                header_separator(),
            ) {
                Some(j) => Some(i + j),
                None => None,
            }),
        decreases bytes@.len() - i,
    {
        let ghost rest = bytes@.skip(i as int);
        if bytes[i] == 13 && bytes[i + 1] == 10 && bytes[i + 2] == 13 && bytes[i + 3] == 10 {
            assert(rest.subrange(0, 4) =~= header_separator());
            return Some(i);
        }
        proof {
            assert(!header_separator().is_prefix_of(rest)) by {
                if header_separator().is_prefix_of(rest) {
                    let start = rest.subrange(0, 4);
                    assert(start == header_separator());
                    assert(start[0] == bytes@[i as int]);
                    assert(start[1] == bytes@[i + 1]);
                    assert(start[2] == bytes@[i + 2]);
                    assert(start[3] == bytes@[i + 3]);
                }
            }
            assert(rest.drop_first() =~= bytes@.skip(i + 1));
        }
        i += 1;
    }
    proof {
        text::lemma_first_at(bytes@.skip(i as int), header_separator());
    }
    None
}

/// Whether bytes hold a whole request, so that there is nothing more to be read.
pub fn request_is_complete(bytes: &[u8]) -> (whole: bool)
    ensures
        whole == complete(bytes@),
{
    match find_header_end(bytes) {
        Some(end) => {
            let headers = vstd::slice::slice_subrange(bytes, 0, end);
            assert(bytes@.subrange(0, end as int) =~= bytes@.take(end as int));
            let text = decode_lossy(headers);
            bytes.len() - end - 4 >= length_of_body(text.as_str())
        },
        None => false,
    }
}

/// The text of a request. Bytes that are no UTF-8 are replaced.
pub fn request_text(bytes: &[u8]) -> (text: String)
    ensures
        text@ == lossy::decoded(bytes@),
{
    decode_lossy(bytes)
}

/// What the body of a request says, if the request has one and it is JSON.
pub open spec fn request_json(request: Seq<char>) -> Option<Json> {
    match text::first_at(request, "\r\n\r\n"@) {
        Some(i) => json::json_parse(request.skip(i + 4)),
        None => None,
    }
}

/// The body of a request, if the request has one and it is JSON.
pub fn http_request_body(request: &str) -> (body: Option<Value>)
    ensures
        match body {
            Some(body) => request_json(request@) == Some(json::json_of(body)),
            None => request_json(request@) is None,
        },
{
    proof {
        reveal_strlit("\r\n\r\n");
    }
    match split_once(request, "\r\n\r\n") {
        Some((_, body)) => parse_json(body),
        None => None,
    }
}

proof fn lemma_first_at_grows(bytes: Seq<u8>, more: Seq<u8>, part: Seq<u8>)
    requires
        text::first_at(bytes, part) is Some,
    ensures
        text::first_at(bytes + more, part) == text::first_at(bytes, part),
    decreases bytes.len(),
{
    let all = bytes + more;
    text::lemma_first_at(bytes, part);
    if part.is_prefix_of(bytes) {
        assert(all.subrange(0, part.len() as int) =~= bytes.subrange(0, part.len() as int));
    } else {
        lemma_first_at_grows(bytes.drop_first(), more, part);
        assert(all.drop_first() =~= bytes.drop_first() + more);
        assert(all.subrange(0, part.len() as int) =~= bytes.subrange(0, part.len() as int));
    }
}

/// A whole request stays one, whatever arrives after it.
pub proof fn law_complete_request_stays_complete(bytes: Seq<u8>, more: Seq<u8>)
    requires
        complete(bytes),
    ensures
        complete(bytes + more),
{
    let end = text::first_at(bytes, header_separator())->0;
    lemma_first_at_grows(bytes, more, header_separator());
    text::lemma_first_at(bytes, header_separator());
    assert((bytes + more).take(end) =~= bytes.take(end));
}

/// A request is whole once as many bytes as its headers declare stand behind the first empty
/// line, and not before.
pub proof fn law_request_ends_with_its_body(bytes: Seq<u8>, end: int)
    requires
        0 <= end <= end + 4 <= bytes.len(),
        bytes.subrange(end, end + 4) == seq![13u8, 10u8, 13u8, 10u8],
        forall|i: int|
            0 <= i < end ==> #[trigger] bytes.subrange(i, i + 4) != seq![13u8, 10u8, 13u8, 10u8],
    ensures
        complete(bytes) <==> bytes.len() - (end + 4) >= declared_length(
            lossy::decoded(bytes.take(end)),
        ),
{
    text::law_first_at_is_the_first(bytes, header_separator());
    let found = text::first_at(bytes, header_separator());
    assert(bytes.subrange(end, end + header_separator().len()) == header_separator());
    assert(found is Some);
    assert(bytes.subrange(found->0, found->0 + 4) == seq![13u8, 10u8, 13u8, 10u8]);
    assert(found == Some(end));
}

/// A request whose headers are not ended is not whole.
pub proof fn law_request_needs_the_end_of_its_headers(bytes: Seq<u8>)
    requires
        forall|i: int|
            0 <= i <= i + 4 <= bytes.len() ==> #[trigger] bytes.subrange(i, i + 4) != seq![
                13u8,
                10u8,
                13u8,
                10u8,
            ],
    ensures
        !complete(bytes),
{
    text::law_first_at_is_the_first(bytes, header_separator());
    if let Some(i) = text::first_at(bytes, header_separator()) {
        assert(bytes.subrange(i, i + 4) == header_separator());
    }
}

proof fn lemma_one_is_prefix(whole: Seq<char>, c: char)
    ensures
        seq![c].is_prefix_of(whole) <==> whole.len() > 0 && whole[0] == c,
{
    if whole.len() > 0 {
        assert(whole.subrange(0, 1)[0] == whole[0]);
        assert(whole[0] == c ==> whole.subrange(0, 1) =~= seq![c]);
    }
}

proof fn lemma_split_at(before: Seq<char>, c: char, behind: Seq<char>)
    requires
        !before.contains(c),
    ensures
        text::first_at(before + seq![c] + behind, seq![c]) == Some(before.len() as int),
        text::first_at(before, seq![c]) is None,
        (before + seq![c] + behind).take(before.len() as int) == before,
        (before + seq![c] + behind).skip(before.len() as int + 1) == behind,
    decreases before.len(),
{
    let whole = before + seq![c] + behind;
    assert(whole.take(before.len() as int) =~= before);
    assert(whole.skip(before.len() as int + 1) =~= behind);
    lemma_one_is_prefix(whole, c);
    lemma_one_is_prefix(before, c);
    if before.len() > 0 {
        let rest = before.drop_first();
        assert(before.contains(before[0]));
        assert(!rest.contains(c)) by {
            if rest.contains(c) {
                let i = choose|i: int| 0 <= i < rest.len() && rest[i] == c;
                assert(before[i + 1] == c);
            }
        }
        lemma_split_at(rest, c, behind);
        assert(whole.drop_first() =~= rest + seq![c] + behind);
    }
}

/// The first `Content-Length`, in whatever case it is written, with a whole number declares the
/// length of the body, and the headers behind it make no difference.
pub proof fn law_content_length_declares_the_body(
    name: Seq<char>,
    value: Seq<char>,
    rest: Seq<char>,
    length: nat,
)
    requires
        !name.contains('\n'),
        !name.contains(':'),
        !value.contains('\n'),
        text::ascii_lowered(name) == text::ascii_lowered("content-length"@),
        text::decimal(text::trimmed(value)) == Some(length),
        length <= usize::MAX,
    ensures
        declared_length(name + ":"@ + value) == length,
        declared_length(name + ":"@ + value + "\n"@ + rest) == length,
{
    reveal_strlit(":");
    reveal_strlit("\n");
    let line = name + ":"@ + value;
    assert(":"@ =~= seq![':']);
    assert("\n"@ =~= seq!['\n']);
    lemma_split_at(name, ':', value);
    assert(!line.contains('\n')) by {
        if line.contains('\n') {
            let i = choose|i: int| 0 <= i < line.len() && line[i] == '\n';
            if i < name.len() {
                assert(name[i] == '\n');
            } else if i > name.len() {
                assert(value[i - name.len() - 1] == '\n');
            }
        }
    }
    lemma_split_at(line, '\n', rest);
}

/// A line that is no `Content-Length` with a whole number declares nothing: the headers behind
/// it decide, and where there are none the body is empty.
pub proof fn law_other_headers_declare_nothing(
    name: Seq<char>,
    value: Seq<char>,
    rest: Seq<char>,
)
    requires
        !name.contains('\n'),
        !name.contains(':'),
        !value.contains('\n'),
        text::ascii_lowered(name) != text::ascii_lowered("content-length"@) || text::decimal(
            text::trimmed(value),
        ) is None || text::decimal(text::trimmed(value))->0 > usize::MAX,
    ensures
        declared_length(name) == 0,
        declared_length(name + "\n"@ + rest) == declared_length(rest),
        declared_length(name + ":"@ + value) == 0,
        declared_length(name + ":"@ + value + "\n"@ + rest) == declared_length(rest),
{
    reveal_strlit(":");
    reveal_strlit("\n");
    let line = name + ":"@ + value;
    assert(":"@ =~= seq![':']);
    assert("\n"@ =~= seq!['\n']);
    lemma_split_at(name, ':', value);
    assert(!line.contains('\n')) by {
        if line.contains('\n') {
            let i = choose|i: int| 0 <= i < line.len() && line[i] == '\n';
            if i < name.len() {
                assert(name[i] == '\n');
            } else if i > name.len() {
                assert(value[i - name.len() - 1] == '\n');
            }
        }
    }
    lemma_split_at(line, '\n', rest);
    lemma_split_at(name, '\n', rest);
}

/// The body of a request is what stands behind its first empty line, read as JSON; without an
/// empty line there is none.
pub proof fn law_body_stands_behind_the_headers(request: Seq<char>)
    ensures
        match text::first_at(request, "\r\n\r\n"@) {
            Some(end) => request_json(request) == json::json_parse(request.skip(end + 4)),
            None => request_json(request) is None,
        },
{
}

} // verus!
