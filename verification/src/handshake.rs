//! Opening a WebSocket connection: what is asked of the server, and whether its answer will do.
use crate::error::{Error, ErrorView};
use crate::json::utf8_text;
use crate::sha1::{digest, sha1};
use crate::text::{
    ascii_lower, chars_of, first_at, lowered, opt_text, same, split, split_on, starts_with,
    text_of, texts, trim, trimmed,
};
use vstd::prelude::*;
use vstd::string::*;
use vstd::utf8::{decode_utf8, encode_utf8, valid_utf8};

verus! {

/// What a server has to add to a client's key.
pub const CHALLENGE_SUFFIX: &'static str = "258EAFA5-E914-47DA-95CA-C5AB0DC85B11";

/// How bytes are written in base64, with padding.
pub uninterp spec fn base64_standard(bytes: Seq<u8>) -> Seq<char>;

/// `base64::Engine::encode` of `STANDARD`: a function of the bytes.
#[verifier::external_body]
pub(crate) fn encode_standard(bytes: &Vec<u8>) -> (r: String)
    ensures
        r@ == base64_standard(bytes@),
{
    base64::Engine::encode(&base64::engine::general_purpose::STANDARD, bytes)
}

/// The answer that a server owes to a key.
pub open spec fn accept_for(key: Seq<char>) -> Seq<char> {
    base64_standard(digest(encode_utf8(key + CHALLENGE_SUFFIX@)))
}

/// The answer that a server owes to a key.
pub fn websocket_accept(key: &str) -> (r: String)
    ensures
        r@ == accept_for(key@),
{
    let challenge = key.to_owned().concat(CHALLENGE_SUFFIX);
    encode_standard(&sha1(&challenge.as_str().as_bytes_vec()))
}

/// The request that opens a connection.
pub open spec fn upgrade_request_text(key: Seq<char>) -> Seq<char> {
    "GET / HTTP/1.1\r\nHost: localhost\r\nUpgrade: websocket\r\nConnection: Upgrade\r\nSec-WebSocket-Key: "@
        + key + "\r\nSec-WebSocket-Version: 13\r\n\r\n"@
}

/// The request that opens a connection.
pub fn upgrade_request(key: &str) -> (r: String)
    ensures
        r@ == upgrade_request_text(key@),
{
    "GET / HTTP/1.1\r\nHost: localhost\r\nUpgrade: websocket\r\nConnection: Upgrade\r\nSec-WebSocket-Key: ".to_owned().concat(
        key,
    ).concat("\r\nSec-WebSocket-Version: 13\r\n\r\n")
}

// ---------------------------------------------------------------- lines and words

/// Whether a text ends with a carriage return and a line feed.
pub open spec fn ends_line(s: Seq<char>) -> bool {
    s.len() >= 2 && s[s.len() - 2] == '\r' && s.last() == '\n'
}

/// The pieces between line ends.
pub open spec fn lines_of(s: Seq<char>) -> Seq<Seq<char>>
    decreases s.len(),
{
    if s.len() == 0 {
        seq![Seq::empty()]
    } else if ends_line(s) {
        lines_of(s.take(s.len() - 2)).push(Seq::empty())
    } else {
        let before = lines_of(s.drop_last());
        before.drop_last().push(before.last().push(s.last()))
    }
}

proof fn lemma_lines_some(s: Seq<char>)
    ensures
        lines_of(s).len() >= 1,
    decreases s.len(),
{
    if s.len() == 0 {
    } else if ends_line(s) {
        lemma_lines_some(s.take(s.len() - 2));
    } else {
        lemma_lines_some(s.drop_last());
    }
}

/// Splits a text at its line ends.
pub fn lines(text: &str) -> (r: Vec<String>)
    ensures
        texts(r@) == lines_of(text@),
{
    let chars = chars_of(text);
    let mut pieces: Vec<String> = Vec::new();
    let mut start: usize = 0;
    let mut i: usize = 0;
    let ghost s = text@;
    proof {
        assert(s.take(0) =~= Seq::<char>::empty());
        assert(texts(pieces@).push(s.subrange(0, 0)) =~= seq![Seq::<char>::empty()]);
    }
    while i < chars.len()
        invariant
            start <= i <= chars.len(),
            chars@ == s,
            texts(pieces@).push(s.subrange(start as int, i as int)) == lines_of(s.take(i as int)),
        decreases chars.len() - i,
    {
        let ghost so_far = texts(pieces@).push(s.subrange(start as int, i as int));
        proof {
            assert(s.take(i + 1).drop_last() =~= s.take(i as int));
            assert(s.take(i + 1).last() == s[i as int]);
            assert(so_far.drop_last() =~= texts(pieces@));
            assert(so_far.last() == s.subrange(start as int, i as int));
            if i > 0 {
                assert(s.take(i + 1)[i - 1] == s[i - 1]);
                assert(s.take(i as int).last() == s[i - 1]);
                assert(s.take(i as int).drop_last() =~= s.take(i - 1));
                assert(s.take(i + 1).take(i - 1) =~= s.take(i - 1));
            }
        }
        if chars[i] == '\n' && i > 0 && chars[i - 1] == '\r' {
            proof {
                let before = lines_of(s.take(i - 1));
                assert(lines_of(s.take(i as int)) == before.drop_last().push(
                    before.last().push('\r'),
                ));
                assert(so_far.last().len() == before.last().len() + 1);
                assert(before.drop_last() =~= so_far.drop_last());
                assert(before.last() =~= s.subrange(start as int, i - 1));
                lemma_lines_some(s.take(i - 1));
                assert(before =~= texts(pieces@).push(s.subrange(start as int, i - 1)));
            }
            let ghost done = pieces@;
            pieces.push(text_of(&chars, start, i - 1));
            start = i + 1;
            proof {
                assert(texts(pieces@) =~= texts(done).push(pieces@.last()@));
                assert(texts(pieces@) =~= lines_of(s.take(i - 1)));
                assert(s.subrange(start as int, i + 1) =~= Seq::<char>::empty());
            }
        } else {
            proof {
                assert(s.subrange(start as int, i + 1) =~= s.subrange(start as int, i as int).push(
                    s[i as int],
                ));
            }
        }
        i += 1;
    }
    let ghost done = pieces@;
    pieces.push(text_of(&chars, start, i));
    proof {
        assert(s.take(i as int) =~= s);
        assert(texts(pieces@) =~= texts(done).push(s.subrange(start as int, i as int)));
    }
    pieces
}

/// The white space of ASCII.
pub open spec fn is_blank(c: char) -> bool {
    c == ' ' || c == '\t' || c == '\n' || c == '\r' || c as u32 == 12
}

fn blank(c: char) -> (r: bool)
    ensures
        r == is_blank(c),
{
    c == ' ' || c == '\t' || c == '\n' || c == '\r' || c as u32 == 12
}

/// How many blanks a text begins with.
pub open spec fn blanks(s: Seq<char>) -> nat
    decreases s.len(),
{
    if s.len() > 0 && is_blank(s[0]) {
        1 + blanks(s.skip(1))
    } else {
        0
    }
}

/// How many characters a text begins with before the first blank.
pub open spec fn solid(s: Seq<char>) -> nat
    decreases s.len(),
{
    if s.len() > 0 && !is_blank(s[0]) {
        1 + solid(s.skip(1))
    } else {
        0
    }
}

/// The first word of a text, empty where there is none.
pub open spec fn first_word(s: Seq<char>) -> Seq<char> {
    let rest = s.skip(blanks(s) as int);
    rest.take(solid(rest) as int)
}

/// What follows the first word of a text.
pub open spec fn after_word(s: Seq<char>) -> Seq<char> {
    let rest = s.skip(blanks(s) as int);
    rest.skip(solid(rest) as int)
}

fn run_of(chars: &Vec<char>, from: usize, of_blanks: bool) -> (to: usize)
    requires
        from <= chars.len(),
    ensures
        from <= to <= chars.len(),
        to - from == (if of_blanks {
            blanks(chars@.skip(from as int))
        } else {
            solid(chars@.skip(from as int))
        }),
{
    let mut to: usize = from;
    while to < chars.len() && blank(chars[to]) == of_blanks
        invariant
            from <= to <= chars.len(),
            (if of_blanks {
                blanks(chars@.skip(from as int))
            } else {
                solid(chars@.skip(from as int))
            }) == to - from + (if of_blanks {
                blanks(chars@.skip(to as int))
            } else {
                solid(chars@.skip(to as int))
            }),
        decreases chars.len() - to,
    {
        proof {
            assert(chars@.skip(to as int)[0] == chars@[to as int]);
            assert(chars@.skip(to as int).skip(1) =~= chars@.skip(to + 1));
        }
        to += 1;
    }
    proof {
        if to < chars.len() {
            assert(chars@.skip(to as int)[0] == chars@[to as int]);
        }
    }
    to
}

/// The first word of a text and what follows it.
fn cut_word(text: &str) -> (r: (String, String))
    ensures
        r.0@ == first_word(text@),
        r.1@ == after_word(text@),
{
    let chars = chars_of(text);
    proof {
        assert(chars@.skip(0) =~= chars@);
    }
    let start: usize = run_of(&chars, 0, true);
    let end: usize = run_of(&chars, start, false);
    let ghost rest = chars@.skip(start as int);
    proof {
        assert(chars@.subrange(start as int, end as int) =~= rest.take(end - start));
        assert(chars@.subrange(end as int, chars@.len() as int) =~= rest.skip(end - start));
    }
    (text_of(&chars, start, end), text_of(&chars, end, chars.len()))
}

// ---------------------------------------------------------------- headers

/// Whether a list of tokens holds `expected`, in any case.
pub open spec fn has_token(value: Seq<char>, expected: Seq<char>) -> bool {
    exists|i: int|
        0 <= i < split_on(value, ',').len() && lowered(trimmed(#[trigger] split_on(value, ',')[i]))
            == lowered(expected)
}

/// Whether a list of tokens holds `expected`, in any case.
pub fn header_has_token(value: &str, expected: &str) -> (r: bool)
    ensures
        r == has_token(value@, expected@),
{
    let pieces = split(value, ',');
    let wanted = ascii_lower(expected);
    let ghost all = split_on(value@, ',');
    let mut i: usize = 0;
    while i < pieces.len()
        invariant
            i <= pieces.len(),
            all == texts(pieces@),
            all == split_on(value@, ','),
            wanted@ == lowered(expected@),
            forall|k: int|
                0 <= k < i ==> lowered(trimmed(#[trigger] all[k])) != lowered(expected@),
        decreases pieces.len() - i,
    {
        assert(all[i as int] == pieces@[i as int]@);
        if same(&ascii_lower(&trim(&pieces[i])), &wanted) {
            return true;
        }
        i += 1;
    }
    assert(all.len() == pieces.len());
    false
}

/// What the headers of an answer say.
pub struct Answer {
    pub upgrade: bool,
    pub connection: bool,
    pub accept: Option<Seq<char>>,
}

pub open spec fn header_name(line: Seq<char>) -> Seq<char> {
    lowered(trimmed(line.take(first_at(line, ':'))))
}

pub open spec fn header_value(line: Seq<char>) -> Seq<char> {
    trimmed(line.skip(first_at(line, ':') + 1))
}

/// What an answer says after one more header.
pub open spec fn with_header(answer: Answer, line: Seq<char>) -> Answer {
    let name = header_name(line);
    let value = header_value(line);
    if name == "upgrade"@ {
        Answer { upgrade: answer.upgrade || has_token(value, "websocket"@), ..answer }
    } else if name == "connection"@ {
        Answer { connection: answer.connection || has_token(value, "upgrade"@), ..answer }
    } else if name == "sec-websocket-accept"@ {
        Answer { accept: Some(value), ..answer }
    } else {
        answer
    }
}

/// What the headers say from line `k` up to the first empty line; `None` where a line is no
/// header.
pub open spec fn headers_from(lines: Seq<Seq<char>>, k: int, answer: Answer) -> Option<Answer>
    decreases lines.len() - k,
{
    if k < 0 || k >= lines.len() || lines[k].len() == 0 {
        Some(answer)
    } else if first_at(lines[k], ':') >= lines[k].len() {
        None
    } else {
        headers_from(lines, k + 1, with_header(answer, lines[k]))
    }
}

/// Whether the first line of an answer agrees to the change of protocol.
pub open spec fn switches(status: Seq<char>) -> bool {
    "HTTP/1."@.is_prefix_of(first_word(status)) && first_word(after_word(status)) == "101"@
}

/// What an answer comes to: `None` where it will do, else what is wrong with it.
pub open spec fn upgrade_fault(response: Seq<u8>, key: Seq<char>) -> Option<Seq<char>> {
    if !valid_utf8(response) {
        Some("WebSocket handshake is not valid HTTP"@)
    } else {
        let lines = lines_of(decode_utf8(response));
        if !switches(lines[0]) {
            Some("WebSocket upgrade failed: "@ + lines[0])
        } else {
            match headers_from(
                lines,
                1,
                Answer { upgrade: false, connection: false, accept: None },
            ) {
                None => Some("malformed WebSocket handshake header"@),
                Some(answer) => if answer.upgrade && answer.connection && answer.accept == Some(
                    accept_for(key),
                ) {
                    None
                } else {
                    Some("invalid WebSocket upgrade response headers"@)
                },
            }
        }
    }
}

fn find(chars: &Vec<char>, c: char) -> (r: usize)
    ensures
        r <= chars.len(),
        r == first_at(chars@, c),
{
    let mut i: usize = 0;
    proof {
        assert(chars@.skip(0) =~= chars@);
    }
    while i < chars.len() && chars[i] != c
        invariant
            i <= chars.len(),
            first_at(chars@, c) == i + first_at(chars@.skip(i as int), c),
        decreases chars.len() - i,
    {
        proof {
            assert(chars@.skip(i as int)[0] == chars@[i as int]);
            assert(chars@.skip(i as int).skip(1) =~= chars@.skip(i + 1));
        }
        i += 1;
    }
    proof {
        if i < chars.len() {
            assert(chars@.skip(i as int)[0] == chars@[i as int]);
        }
    }
    i
}

/// The name and the value of a header line, if it is one.
fn split_header(line: &str) -> (r: Option<(String, String)>)
    ensures
        match r {
            Some((name, value)) => first_at(line@, ':') < line@.len() && name@ == header_name(line@)
                && value@ == header_value(line@),
            None => first_at(line@, ':') >= line@.len(),
        },
{
    let chars = chars_of(line);
    let colon: usize = find(&chars, ':');
    if colon == chars.len() {
        return None;
    }
    proof {
        assert(chars@.subrange(0, colon as int) =~= line@.take(colon as int));
        assert(chars@.subrange(colon + 1, chars@.len() as int) =~= line@.skip(colon + 1));
    }
    Some(
        (
            ascii_lower(&trim(&text_of(&chars, 0, colon))),
            trim(&text_of(&chars, colon + 1, chars.len())),
        ),
    )
}

/// Checks a server's answer to the request that opens a connection.
pub fn validate_upgrade(response: &Vec<u8>, key: &str) -> (r: Result<(), Error>)
    ensures
        match r {
            Ok(_) => upgrade_fault(response@, key@) is None,
            Err(error) => match upgrade_fault(response@, key@) {
                Some(fault) => error@ == ErrorView::Protocol(fault),
                None => false,
            },
        },
{
    let text = match utf8_text(crate::auth::copy_bytes(response)) {
        Ok(text) => text,
        Err(_) => return Err(Error::protocol("WebSocket handshake is not valid HTTP")),
    };
    let lines = lines(&text);
    let ghost all = lines_of(text@);
    proof {
        lemma_lines_some(text@);
        assert(all.len() == lines.len());
        assert(all[0] == lines@[0]@);
    }
    let (version, rest) = cut_word(&lines[0]);
    let (code, _) = cut_word(&rest);
    if !starts_with(&version, "HTTP/1.") || !same(&code, "101") {
        return Err(Error::Protocol("WebSocket upgrade failed: ".to_owned().concat(&lines[0])));
    }
    let mut upgrade = false;
    let mut connection = false;
    let mut accept: Option<String> = None;
    let ghost none = Answer { upgrade: false, connection: false, accept: None };
    let mut k: usize = 1;
    while k < lines.len() && !lines[k].as_str().is_empty()
        invariant
            1 <= k <= lines.len(),
            all == texts(lines@),
            all.len() == lines.len(),
            all == lines_of(decode_utf8(response@)),
            valid_utf8(response@),
            switches(all[0]),
            none == (Answer { upgrade: false, connection: false, accept: None }),
            headers_from(all, 1, none) == headers_from(
                all,
                k as int,
                Answer { upgrade, connection, accept: opt_text(accept) },
            ),
        decreases lines.len() - k,
    {
        assert(all[k as int] == lines@[k as int]@);
        match split_header(&lines[k]) {
            None => {
                return Err(Error::protocol("malformed WebSocket handshake header"));
            },
            Some((name, value)) => {
                if same(&name, "upgrade") {
                    let found = header_has_token(&value, "websocket");
                    upgrade = upgrade || found;
                } else if same(&name, "connection") {
                    let found = header_has_token(&value, "upgrade");
                    connection = connection || found;
                } else if same(&name, "sec-websocket-accept") {
                    accept = Some(value);
                }
            },
        }
        k += 1;
    }
    proof {
        if k < lines.len() {
            assert(all[k as int] == lines@[k as int]@);
        }
    }
    let expected = websocket_accept(key);
    let accepted = match &accept {
        Some(value) => same(value, &expected),
        None => false,
    };
    if upgrade && connection && accepted {
        Ok(())
    } else {
        Err(Error::protocol("invalid WebSocket upgrade response headers"))
    }
}

}
