//! What holds of every parse of a response head.

use crate::bytes::{
    is_first_index, lemma_first_index_unique, lemma_skip_spaces_at,
    lemma_skip_spaces_bounds, lemma_token_end_at, lemma_token_end_bounds, lemma_trim_end_at,
    skip_spaces, strip_cr, token_end, trim_spaces, COLON, CR, LF, SP,
};
use crate::header::{is_header_name, is_header_value, is_token_byte, lowercase};
use crate::error::{Failure, InvalidResponse};
use crate::line::next_line;
use crate::response::{header_of_line, headers_from, parse_head, status_of_line, status_token};
use crate::status::{is_digit, status_code_of, three_digit_code};
use vstd::prelude::*;

verus! {

/// `line` holds fewer than two tokens: no two bytes other than a space have
/// a space between them.
pub open spec fn fewer_than_two_tokens(line: Seq<u8>) -> bool {
    forall|i: int, k: int, j: int|
        #![trigger line[i], line[k], line[j]]
        0 <= i < k < j < line.len() && line[i] != SP && line[j] != SP ==> line[k] != SP
}

/// A status line with fewer than two space-separated tokens is refused as a
/// malformed status line.
pub proof fn lemma_short_status_line(s: Seq<u8>)
    requires
        next_line(s, 0) matches Some((l, _)) && fewer_than_two_tokens(l),
    ensures
        parse_head(s) == Err::<(u16, Seq<(Seq<u8>, Seq<u8>)>, int), Failure>(
            Failure::InvalidResponse(InvalidResponse::StatusLine),
        ),
{
    let l = next_line(s, 0).unwrap().0;
    let a = skip_spaces(l, 0);
    lemma_skip_spaces_bounds(l, 0);
    if a < l.len() {
        let b = token_end(l, a);
        lemma_token_end_bounds(l, a);
        let c = skip_spaces(l, b);
        lemma_skip_spaces_bounds(l, b);
        if c < l.len() {
            assert(l[a] != SP && l[b] == SP && l[c] != SP && a < b < c);
            assert(false);
        }
    }
    assert(status_token(l) is None);
}

/// A status code token that holds a byte other than an ASCII digit is
/// refused as a bad status code; a token that is not UTF-8 is among them, as
/// it holds a byte of 0x80 or more.
pub proof fn lemma_non_numeric_code(s: Seq<u8>, i: int)
    requires
        next_line(s, 0) matches Some((l, _)) && status_token(l) matches Some(t) && 0 <= i < t.len()
            && !is_digit(t[i]),
    ensures
        parse_head(s) == Err::<(u16, Seq<(Seq<u8>, Seq<u8>)>, int), Failure>(
            Failure::InvalidResponse(InvalidResponse::StatusCode),
        ),
{
}

/// A non-empty header line without a colon, wherever it stands in the header
/// block, ends the parse with that failure.
pub proof fn lemma_header_without_colon(s: Seq<u8>, pos: int, acc: Seq<(Seq<u8>, Seq<u8>)>)
    requires
        0 <= pos <= s.len(),
        next_line(s, pos) matches Some((l, _)) && l.len() > 0 && forall|i: int|
            0 <= i < l.len() ==> l[i] != 0x3a,
    ensures
        headers_from(s, pos, acc) == Err::<(Seq<(Seq<u8>, Seq<u8>)>, int), Failure>(
            Failure::InvalidResponse(InvalidResponse::HeaderWithoutColon),
        ),
{
    let l = next_line(s, pos).unwrap().0;
    assert(!exists|i: int| is_first_index(l, 0x3a, i));
    assert(header_of_line(l) is Err);
}

/// The line that `next_line` finds ends within `s`, after `pos`.
pub proof fn lemma_next_line_bounds(s: Seq<u8>, pos: int)
    requires
        0 <= pos <= s.len(),
    ensures
        next_line(s, pos) matches Some((_, next)) ==> pos < next <= s.len(),
{
}

/// A line depends only on the bytes up to its line feed.
pub proof fn lemma_next_line_prefix(s: Seq<u8>, s2: Seq<u8>, pos: int)
    requires
        0 <= pos <= s.len(),
        next_line(s, pos) matches Some((_, next)) && next <= s2.len() && s2.subrange(0, next)
            == s.subrange(0, next),
    ensures
        next_line(s2, pos) == next_line(s, pos),
{
    let next = next_line(s, pos).unwrap().1;
    let rest = s.subrange(pos, s.len() as int);
    let rest2 = s2.subrange(pos, s2.len() as int);
    let k = next - pos - 1;
    assert(is_first_index(rest, LF, k));
    assert forall|j: int| 0 <= j <= k implies #[trigger] rest2[j] == rest[j] by {
        assert(s2.subrange(0, next)[pos + j] == s.subrange(0, next)[pos + j]);
    }
    assert(is_first_index(rest2, LF, k));
    lemma_first_index_unique(rest2, LF, k);
    assert(s2.subrange(pos, pos + k) =~= s.subrange(pos, pos + k)) by {
        assert forall|j: int| 0 <= j < k implies #[trigger] s2.subrange(pos, pos + k)[j]
            == s.subrange(pos, pos + k)[j] by {
            assert(rest2[j] == rest[j]);
        }
    }
}

/// The header block ends at its empty line: what follows it does not change
/// the headers, nor where the block ends.
pub proof fn lemma_headers_ignore_rest(
    s: Seq<u8>,
    s2: Seq<u8>,
    pos: int,
    acc: Seq<(Seq<u8>, Seq<u8>)>,
    hs: Seq<(Seq<u8>, Seq<u8>)>,
    end: int,
)
    requires
        0 <= pos <= s.len(),
        headers_from(s, pos, acc) == Ok::<(Seq<(Seq<u8>, Seq<u8>)>, int), Failure>((hs, end)),
        end <= s.len(),
        end <= s2.len(),
        s2.subrange(0, end) == s.subrange(0, end),
    ensures
        pos < end,
        headers_from(s2, pos, acc) == headers_from(s, pos, acc),
    decreases s.len() - pos,
{
    lemma_next_line_bounds(s, pos);
    let (l, next) = next_line(s, pos).unwrap();
    if l.len() == 0 {
        lemma_next_line_prefix(s, s2, pos);
    } else {
        let h = header_of_line(l)->Ok_0;
        lemma_headers_end_bound(s, next, acc.push(h), hs, end);
        assert(s2.subrange(0, next) =~= s.subrange(0, next)) by {
            assert forall|j: int| 0 <= j < next implies #[trigger] s2.subrange(0, next)[j]
                == s.subrange(0, next)[j] by {
                assert(s2.subrange(0, end)[j] == s.subrange(0, end)[j]);
            }
        }
        lemma_next_line_prefix(s, s2, pos);
        lemma_headers_ignore_rest(s, s2, next, acc.push(h), hs, end);
    }
}

/// The header block ends after the position it starts from, within `s`.
pub proof fn lemma_headers_end_bound(
    s: Seq<u8>,
    pos: int,
    acc: Seq<(Seq<u8>, Seq<u8>)>,
    hs: Seq<(Seq<u8>, Seq<u8>)>,
    end: int,
)
    requires
        0 <= pos <= s.len(),
        headers_from(s, pos, acc) == Ok::<(Seq<(Seq<u8>, Seq<u8>)>, int), Failure>((hs, end)),
    ensures
        pos < end <= s.len(),
    decreases s.len() - pos,
{
    lemma_next_line_bounds(s, pos);
    let (l, next) = next_line(s, pos).unwrap();
    if l.len() != 0 {
        let h = header_of_line(l)->Ok_0;
        lemma_headers_end_bound(s, next, acc.push(h), hs, end);
    }
}

/// A parse ends at the empty line that closes the head: the bytes after it,
/// the body, are left as they are, and putting any others in their place
/// gives the same status, the same headers and the same end.
pub proof fn lemma_head_ignores_body(s: Seq<u8>, body: Seq<u8>)
    requires
        parse_head(s) is Ok,
    ensures
        parse_head(s) matches Ok((_, _, end)) && 0 < end <= s.len() && parse_head(
            s.subrange(0, end) + body,
        ) == parse_head(s),
{
    let (c, hs, end) = parse_head(s)->Ok_0;
    lemma_next_line_bounds(s, 0);
    let (l, next) = next_line(s, 0).unwrap();
    lemma_headers_end_bound(s, next, Seq::empty(), hs, end);
    let s2 = s.subrange(0, end) + body;
    assert(s2.subrange(0, end) =~= s.subrange(0, end));
    assert(s2.subrange(0, next) =~= s.subrange(0, next));
    lemma_next_line_prefix(s, s2, 0);
    lemma_headers_ignore_rest(s, s2, next, Seq::empty(), hs, end);
}

/// A carriage return and a line feed.
pub open spec fn crlf() -> Seq<u8> {
    seq![CR, LF]
}

/// The version token `HTTP/1.1`.
pub open spec fn http_1_1() -> Seq<u8> {
    seq![0x48u8, 0x54, 0x54, 0x50, 0x2f, 0x31, 0x2e, 0x31]
}

/// The three ASCII digits of a code from 100 to 999.
pub open spec fn code_digits(c: u16) -> Seq<u8> {
    seq![(0x30 + c / 100) as u8, (0x30 + (c / 10) % 10) as u8, (0x30 + c % 10) as u8]
}

/// The status line `HTTP/1.1 <code> <phrase>`, what comes before its
/// terminator.
pub open spec fn status_line_text(c: u16, phrase: Seq<u8>) -> Seq<u8> {
    http_1_1() + seq![SP] + code_digits(c) + seq![SP] + phrase
}

/// A header line `<name>: <value>`, what comes before its terminator.
pub open spec fn header_line_text(h: (Seq<u8>, Seq<u8>)) -> Seq<u8> {
    h.0 + seq![COLON, SP] + h.1
}

/// The header lines of `hs`, each ended by CRLF, and the empty line after them.
pub open spec fn header_block(hs: Seq<(Seq<u8>, Seq<u8>)>) -> Seq<u8>
    decreases hs.len(),
{
    if hs.len() == 0 {
        crlf()
    } else {
        header_line_text(hs[0]) + crlf() + header_block(hs.drop_first())
    }
}

/// The bytes of a response: status line, header block, body.
pub open spec fn response_bytes(
    c: u16,
    phrase: Seq<u8>,
    hs: Seq<(Seq<u8>, Seq<u8>)>,
    body: Seq<u8>,
) -> Seq<u8> {
    status_line_text(c, phrase) + crlf() + header_block(hs) + body
}

/// A header as it is written: a valid name, and a valid value with no space
/// at either end.
pub open spec fn is_written_header(h: (Seq<u8>, Seq<u8>)) -> bool {
    &&& is_header_name(h.0)
    &&& is_header_value(h.1)
    &&& h.1.len() > 0 ==> h.1[0] != SP && h.1.last() != SP
}

/// Headers with their names in lower case.
pub open spec fn lowered(hs: Seq<(Seq<u8>, Seq<u8>)>) -> Seq<(Seq<u8>, Seq<u8>)> {
    hs.map_values(|h: (Seq<u8>, Seq<u8>)| (lowercase(h.0), h.1))
}

/// A line of `content` and CRLF at `pos` is read as `content`.
proof fn lemma_line_at(s: Seq<u8>, pos: int, content: Seq<u8>)
    requires
        0 <= pos,
        pos + content.len() + 2 <= s.len(),
        s.subrange(pos, pos + content.len() + 2) == content + crlf(),
        forall|i: int| 0 <= i < content.len() ==> content[i] != LF,
    ensures
        next_line(s, pos) == Some((content, pos + content.len() + 2)),
{
    let rest = s.subrange(pos, s.len() as int);
    let k = content.len() as int + 1;
    let whole = content + crlf();
    assert forall|j: int| 0 <= j <= k implies #[trigger] rest[j] == whole[j] by {
        assert(s.subrange(pos, pos + content.len() + 2)[j] == s[pos + j]);
    }
    assert(is_first_index(rest, LF, k));
    lemma_first_index_unique(rest, LF, k);
    assert(s.subrange(pos, pos + k) =~= content.push(CR));
    assert(strip_cr(content.push(CR)) =~= content);
}

/// The code that `code_digits` spells is read back.
proof fn lemma_code_digits(c: u16)
    requires
        100 <= c <= 599,
    ensures
        three_digit_code(code_digits(c)) == Some(c),
        status_code_of(code_digits(c)) == Some(c),
{
    let d = code_digits(c);
    assert(1 <= c / 100 <= 5);
    assert(0 <= (c / 10) % 10 <= 9);
    assert(0 <= c % 10 <= 9);
    assert((c / 100) * 100 + ((c / 10) % 10) * 10 + c % 10 == c) by (nonlinear_arith)
        requires
            100 <= c <= 599,
    ;
}

/// A written header line is read as its header, the name in lower case.
proof fn lemma_header_line(h: (Seq<u8>, Seq<u8>))
    requires
        is_written_header(h),
    ensures
        header_of_line(header_line_text(h)) == Ok::<(Seq<u8>, Seq<u8>), Failure>(
            (lowercase(h.0), h.1),
        ),
{
    let line = header_line_text(h);
    let n = h.0.len() as int;
    assert(is_token_byte(h.0[0]));
    assert(is_first_index(line, COLON, n)) by {
        assert forall|j: int| 0 <= j < n implies #[trigger] line[j] != COLON by {
            assert(line[j] == h.0[j]);
            assert(is_token_byte(h.0[j]));
        }
    }
    lemma_first_index_unique(line, COLON, n);
    let name_part = line.subrange(0, n);
    assert(name_part =~= h.0);
    lemma_skip_spaces_at(h.0, 0, 0);
    assert(is_token_byte(h.0[n - 1]));
    lemma_trim_end_at(h.0, 0, n, n);
    assert(trim_spaces(h.0) =~= h.0);
    let value_part = line.subrange(n + 1, line.len() as int);
    assert(value_part =~= seq![SP] + h.1);
    let vl = value_part.len() as int;
    if h.1.len() > 0 {
        assert(value_part[1] == h.1[0]);
        assert(value_part[vl - 1] == h.1.last());
    }
    lemma_skip_spaces_at(value_part, 0, 1);
    lemma_trim_end_at(value_part, 1, vl, vl);
    assert(trim_spaces(value_part) =~= h.1);
}

/// A header block of written headers is read as those headers, in order, up
/// to and with its empty line.
proof fn lemma_header_block(
    s: Seq<u8>,
    pos: int,
    hs: Seq<(Seq<u8>, Seq<u8>)>,
    acc: Seq<(Seq<u8>, Seq<u8>)>,
)
    requires
        0 <= pos,
        pos + header_block(hs).len() <= s.len(),
        s.subrange(pos, pos + header_block(hs).len()) == header_block(hs),
        forall|i: int| 0 <= i < hs.len() ==> is_written_header(#[trigger] hs[i]),
    ensures
        headers_from(s, pos, acc) == Ok::<(Seq<(Seq<u8>, Seq<u8>)>, int), Failure>(
            (acc + lowered(hs), pos + header_block(hs).len()),
        ),
    decreases hs.len(),
{
    if hs.len() == 0 {
        assert(Seq::<u8>::empty() + crlf() =~= crlf());
        lemma_line_at(s, pos, Seq::empty());
        assert(acc + lowered(hs) =~= acc);
    } else {
        let h = hs[0];
        let text = header_line_text(h);
        let rest = hs.drop_first();
        let m = text.len() + 2 as int;
        let block = header_block(hs);
        assert(is_written_header(h));
        assert forall|i: int| 0 <= i < text.len() implies #[trigger] text[i] != LF by {
            if i < h.0.len() {
                assert(is_token_byte(h.0[i]));
            } else if i >= h.0.len() + 2 {
                assert(text[i] == h.1[i - h.0.len() - 2]);
                assert(is_header_value(h.1));
            }
        }
        assert(s.subrange(pos, pos + m) =~= text + crlf()) by {
            assert forall|j: int| 0 <= j < m implies #[trigger] s.subrange(pos, pos + m)[j] == (
            text + crlf())[j] by {
                assert(s.subrange(pos, pos + block.len())[j] == block[j]);
            }
        }
        lemma_line_at(s, pos, text);
        lemma_header_line(h);
        assert(s.subrange(pos + m, pos + m + header_block(rest).len()) =~= header_block(rest)) by {
            assert forall|j: int| 0 <= j < header_block(rest).len() implies #[trigger] s.subrange(
                pos + m,
                pos + m + header_block(rest).len(),
            )[j] == header_block(rest)[j] by {
                assert(s.subrange(pos, pos + block.len())[m + j] == block[m + j]);
            }
        }
        assert forall|i: int| 0 <= i < rest.len() implies is_written_header(#[trigger] rest[i]) by {
            assert(rest[i] == hs[i + 1]);
        }
        let h2 = (lowercase(h.0), h.1);
        lemma_header_block(s, pos + m, rest, acc.push(h2));
        assert(acc.push(h2) + lowered(rest) =~= acc + lowered(hs));
    }
}

/// A well-formed response `HTTP/1.1 <code> <phrase>`, CRLF, written header
/// lines each ended by CRLF, an empty line and a body is read as exactly its
/// code and its headers, in order and with repeated names kept, the names in
/// lower case; the head ends where the body starts.
pub proof fn lemma_well_formed_response(
    c: u16,
    phrase: Seq<u8>,
    hs: Seq<(Seq<u8>, Seq<u8>)>,
    body: Seq<u8>,
)
    requires
        100 <= c <= 599,
        forall|i: int| 0 <= i < phrase.len() ==> phrase[i] != LF,
        forall|i: int| 0 <= i < hs.len() ==> is_written_header(#[trigger] hs[i]),
    ensures
        parse_head(response_bytes(c, phrase, hs, body)) == Ok::<
            (u16, Seq<(Seq<u8>, Seq<u8>)>, int),
            Failure,
        >((c, lowered(hs), (status_line_text(c, phrase).len() + 2 + header_block(hs).len()) as int)),
{
    let s = response_bytes(c, phrase, hs, body);
    let text = status_line_text(c, phrase);
    let n = text.len() + 2 as int;
    let block = header_block(hs);
    lemma_code_digits(c);
    let d = code_digits(c);
    assert(text.len() == 13 + phrase.len());
    assert forall|i: int| 0 <= i < text.len() implies #[trigger] text[i] != LF by {
        if i >= 13 {
            assert(text[i] == phrase[i - 13]);
        }
    }
    assert(s.subrange(0, n) =~= text + crlf());
    lemma_line_at(s, 0, text);
    assert forall|k: int| 0 <= k < 8 implies #[trigger] text[k] != SP by {}
    lemma_token_end_at(text, 0, 8);
    lemma_skip_spaces_at(text, 0, 0);
    lemma_skip_spaces_at(text, 8, 9);
    assert forall|k: int| 9 <= k < 12 implies #[trigger] text[k] != SP by {
        assert(text[k] == d[k - 9]);
    }
    lemma_token_end_at(text, 9, 12);
    assert(text.subrange(9, 12) =~= d);
    assert(status_of_line(text) == Ok::<u16, Failure>(c));
    assert(s.subrange(n, n + block.len()) =~= block);
    lemma_header_block(s, n, hs, Seq::empty());
    assert(Seq::<(Seq<u8>, Seq<u8>)>::empty() + lowered(hs) =~= lowered(hs));
}

} // verus!
