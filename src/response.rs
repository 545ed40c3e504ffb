//! The head parser: the status line and the header block of a response.

use crate::bytes::{
    find_byte, first_index, skip_spaces, skip_spaces_from, token_end, token_end_from, trim_bounds,
    trim_spaces, COLON,
};
use crate::error::{Error, Failure, InvalidResponse};
use crate::header::{
    entries_not_named, header_name, header_value, is_header_name, is_header_value, lowercase,
    Headers,
};
use crate::line::{next_line, read_line};
use crate::status::{status_code_of, StatusCode};
use vstd::prelude::*;

verus! {

/// The second of the space-separated tokens of a status line, if it has two.
pub open spec fn status_token(line: Seq<u8>) -> Option<Seq<u8>> {
    let a = skip_spaces(line, 0);
    let b = token_end(line, a);
    let c = skip_spaces(line, b);
    let d = token_end(line, c);
    if a == line.len() || c == line.len() {
        None
    } else {
        Some(line.subrange(c, d))
    }
}

/// The status code of a status line. The first token, the version, is not
/// read; what follows the code, the reason phrase, is not read either.
pub open spec fn status_of_line(line: Seq<u8>) -> Result<u16, Failure> {
    match status_token(line) {
        None => Err(Failure::InvalidResponse(InvalidResponse::StatusLine)),
        Some(t) => match status_code_of(t) {
            None => Err(Failure::InvalidResponse(InvalidResponse::StatusCode)),
            Some(c) => Ok(c),
        },
    }
}

/// The header of a header line: what stands before its first colon is the
/// name, what stands after it the value, both without the spaces around them.
/// The name comes in lower case.
pub open spec fn header_of_line(line: Seq<u8>) -> Result<(Seq<u8>, Seq<u8>), Failure> {
    match first_index(line, COLON) {
        None => Err(Failure::InvalidResponse(InvalidResponse::HeaderWithoutColon)),
        Some(col) => {
            let name = trim_spaces(line.subrange(0, col));
            let value = trim_spaces(line.subrange(col + 1, line.len() as int));
            if !is_header_name(name) {
                Err(Failure::InvalidHeaderName)
            } else if !is_header_value(value) {
                Err(Failure::InvalidHeaderValue)
            } else {
                Ok((lowercase(name), value))
            }
        },
    }
}

/// The headers of the lines of `s` from `pos` on, after those in `acc`, up
/// to the first empty line, and the position after that line.
pub open spec fn headers_from(s: Seq<u8>, pos: int, acc: Seq<(Seq<u8>, Seq<u8>)>) -> Result<
    (Seq<(Seq<u8>, Seq<u8>)>, int),
    Failure,
>
    decreases s.len() - pos,
    when 0 <= pos <= s.len()
{
    match next_line(s, pos) {
        None => Err(Failure::UnexpectedEof),
        Some((line, next)) => if line.len() == 0 {
            Ok((acc, next))
        } else {
            match header_of_line(line) {
                Err(f) => Err(f),
                Ok(h) => headers_from(s, next, acc.push(h)),
            }
        },
    }
}

/// The head of the response that `s` starts with: its status code, its
/// headers in order, and the number of bytes it takes, the empty line that
/// ends it included.
pub open spec fn parse_head(s: Seq<u8>) -> Result<(u16, Seq<(Seq<u8>, Seq<u8>)>, int), Failure> {
    match next_line(s, 0) {
        None => Err(Failure::UnexpectedEof),
        Some((line, next)) => match status_of_line(line) {
            Err(f) => Err(f),
            Ok(c) => match headers_from(s, next, Seq::empty()) {
                Err(f) => Err(f),
                Ok((hs, end)) => Ok((c, hs, end)),
            },
        },
    }
}

/// Reads the status code of a status line.
pub fn parse_status_line(line: &[u8]) -> (r: Result<StatusCode, Error>)
    ensures
        match status_of_line(line@) {
            Ok(c) => r matches Ok(s) && s@ == c,
            Err(f) => r matches Err(e) && e.failure() == f,
        },
{
    let a = skip_spaces_from(line, 0);
    let b = token_end_from(line, a);
    let c = skip_spaces_from(line, b);
    let d = token_end_from(line, c);
    if a == line.len() || c == line.len() {
        return Err(Error::InvalidResponse(InvalidResponse::StatusLine));
    }
    StatusCode::from_token(&line[c..d])
}

/// Reads the name and the value of a header line.
pub fn parse_header_line(line: &[u8]) -> (r: Result<(Vec<u8>, Vec<u8>), Error>)
    ensures
        match header_of_line(line@) {
            Ok((n, v)) => r matches Ok((rn, rv)) && rn@ == n && rv@ == v,
            Err(f) => r matches Err(e) && e.failure() == f,
        },
{
    assert(line@.subrange(0, line@.len() as int) =~= line@);
    let col = match find_byte(line, 0, COLON) {
        None => {
            return Err(Error::InvalidResponse(InvalidResponse::HeaderWithoutColon));
        },
        Some(col) => col,
    };
    assert(col < line.len());
    let raw_name = &line[0..col];
    let raw_value = &line[col + 1..line.len()];
    let (na, nb) = trim_bounds(raw_name);
    let (va, vb) = trim_bounds(raw_value);
    let name = match header_name(&raw_name[na..nb]) {
        Ok(n) => n,
        Err(e) => {
            return Err(e);
        },
    };
    let value = match header_value(&raw_value[va..vb]) {
        Ok(v) => v,
        Err(e) => {
            return Err(e);
        },
    };
    Ok((name, value))
}

/// Parses the head of the response that `input` starts with: the status
/// line, then header lines up to the first empty line. Returns the status
/// code, the headers in order (a repeated name as often as it came), and the
/// number of bytes of the head; the body starts there.
pub fn parse_response_head(input: &[u8]) -> (r: Result<(StatusCode, Headers, usize), Error>)
    ensures
        match parse_head(input@) {
            Ok((c, hs, end)) => r matches Ok((s, h, n)) && s@ == c && h@ == hs && n == end,
            Err(f) => r matches Err(e) && e.failure() == f,
        },
{
    let mut line: Vec<u8> = Vec::new();
    let first = match read_line(input, 0, &mut line) {
        Ok(n) => n,
        Err(e) => {
            return Err(e);
        },
    };
    let status = match parse_status_line(line.as_slice()) {
        Ok(s) => s,
        Err(e) => {
            return Err(e);
        },
    };
    let mut pos: usize = first;
    let mut headers = Headers::new();
    let total = input.len();
    assert(headers@ == Seq::<(Seq<u8>, Seq<u8>)>::empty());
    loop
        invariant
            0 <= pos <= input@.len(),
            total == input@.len(),
            parse_head(input@) == match headers_from(input@, pos as int, headers@) {
                Err(f) => Err(f),
                Ok((hs, end)) => Ok((status@, hs, end)),
            },
        decreases input@.len() - pos,
    {
        let taken = match read_line(input, pos, &mut line) {
            Ok(n) => n,
            Err(e) => {
                return Err(e);
            },
        };
        let ghost acc = headers@;
        assert(pos + taken <= total);
        if line.len() == 0 {
            return Ok((status, headers, pos + taken));
        }
        let (name, value) = match parse_header_line(line.as_slice()) {
            Ok(h) => h,
            Err(e) => {
                return Err(e);
            },
        };
        headers.append(name, value);
        proof {
            assert(header_of_line(line@) == Ok::<(Seq<u8>, Seq<u8>), Failure>((name@, value@)));
            assert(headers_from(input@, pos as int, acc) == headers_from(
                input@,
                pos + taken,
                headers@,
            ));
        }
        pos = pos + taken;
    }
}

/// The name of the header that frames the body by transfer coding, in lower
/// case.
pub open spec fn transfer_encoding() -> Seq<u8> {
    seq![
        0x74u8, 0x72, 0x61, 0x6e, 0x73, 0x66, 0x65, 0x72, 0x2d, 0x65, 0x6e, 0x63, 0x6f, 0x64,
        0x69, 0x6e, 0x67,
    ]
}

/// Parses the head of the response that `input` starts with, as
/// `parse_response_head` does, and drops the hop-by-hop header
/// `Transfer-Encoding`, whose meaning the framing of the body has used up.
pub fn parse_response(input: &[u8]) -> (r: Result<(StatusCode, Headers, usize), Error>)
    ensures
        match parse_head(input@) {
            Ok((c, hs, end)) => r matches Ok((s, h, n)) && s@ == c && n == end && h@
                == entries_not_named(hs, transfer_encoding()),
            Err(f) => r matches Err(e) && e.failure() == f,
        },
        r matches Ok((_, h, _)) ==> forall|i: int|
            0 <= i < h@.len() ==> h@[i].0 != transfer_encoding(),
{
    let (status, mut headers, end) = match parse_response_head(input) {
        Ok(head) => head,
        Err(e) => {
            return Err(e);
        },
    };
    let name: Vec<u8> = vec![
        0x74u8, 0x72, 0x61, 0x6e, 0x73, 0x66, 0x65, 0x72, 0x2d, 0x65, 0x6e, 0x63, 0x6f, 0x64,
        0x69, 0x6e, 0x67,
    ];
    proof {
        assert(name@ =~= transfer_encoding());
        assert(lowercase(name@) =~= transfer_encoding());
    }
    headers.remove(name.as_slice());
    Ok((status, headers, end))
}

} // verus!
