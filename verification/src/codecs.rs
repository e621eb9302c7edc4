//! The line protocol of grid clients: lines of UTF-8 text ended by `'\n'`,
//! read from and written to a `BytesMut` buffer, and the requests that the
//! lines stand for.

use crate::grid::GridPoint;
use crate::protocol::{response_text, GridClientRequest, GridClientResponse};
use bytes::BytesMut;
use vstd::prelude::*;
use vstd::string::*;
use vstd::utf8::*;

verus! {

broadcast use vstd::utf8::encode_utf8_decode_utf8, vstd::utf8::encode_utf8_valid_utf8;

#[verifier::external_type_specification]
#[verifier::external_body]
pub struct ExBytesMut(BytesMut);

/// The bytes held by a buffer, front to back.
pub uninterp spec fn buffer_contents(buf: BytesMut) -> Seq<u8>;

/// Calls `BytesMut::as_ref`, which gives the buffer's bytes as a slice.
#[verifier::external_body]
fn buffer_bytes(buf: &BytesMut) -> (bytes: &[u8])
    ensures
        bytes@ == buffer_contents(*buf),
{
    buf.as_ref()
}

/// Calls `BytesMut::split_to`: the first `at` bytes move to the returned
/// buffer, the rest stay. It panics when `at` is beyond the end, which the
/// `requires` leaves out.
#[verifier::external_body]
fn buffer_split_to(buf: &mut BytesMut, at: usize) -> (front: BytesMut)
    requires
        at <= buffer_contents(*old(buf)).len(),
    ensures
        buffer_contents(front) == buffer_contents(*old(buf)).take(at as int),
        buffer_contents(*final(buf)) == buffer_contents(*old(buf)).skip(at as int),
{
    buf.split_to(at)
}

/// Calls `BytesMut::extend_from_slice`, which appends the bytes of `extend`.
/// It panics when the new capacity overflows; the `requires` leaves out every
/// length beyond `isize::MAX`. What memory the buffer holds beyond its bytes is
/// not stated.
#[verifier::external_body]
fn buffer_extend(buf: &mut BytesMut, extend: &[u8])
    requires
        buffer_contents(*old(buf)).len() + extend@.len() <= isize::MAX,
    ensures
        buffer_contents(*final(buf)) == buffer_contents(*old(buf)) + extend@,
{
    buf.extend_from_slice(extend)
}

/// Calls `std::str::from_utf8`: text exactly when the bytes are valid UTF-8,
/// and then the characters they encode.
#[verifier::external_body]
fn utf8_text(bytes: &[u8]) -> (text: Option<&str>)
    ensures
        text is Some <==> valid_utf8(bytes@),
        text matches Some(t) ==> t@ == decode_utf8(bytes@),
{
    std::str::from_utf8(bytes).ok()
}

/// What goes wrong while reading or writing a line.
#[derive(Debug, Clone, Copy, PartialEq, Eq, Structural)]
pub enum CodecError {
    /// The bytes before the line's end are not valid UTF-8.
    InvalidUtf8,
    /// The buffer would grow beyond `isize::MAX` bytes.
    BufferOverflow,
}

/// The byte that ends a line.
pub const NEWLINE: u8 = 10u8;

/// The index of the first `'\n'` in `bytes`, or the length of `bytes` when it
/// holds none.
pub open spec fn first_newline(bytes: Seq<u8>) -> nat
    decreases bytes.len(),
{
    if bytes.len() == 0 {
        0
    } else if bytes[0] == NEWLINE {
        0
    } else {
        1 + first_newline(bytes.drop_first())
    }
}

/// What `LineCodec::decode` gives for a buffer holding `bytes`: nothing while
/// no line is complete; the text before the first `'\n'` when it is valid
/// UTF-8; an error otherwise.
pub open spec fn line_decode_result(bytes: Seq<u8>) -> Result<Option<Seq<char>>, CodecError> {
    let k = first_newline(bytes);
    if k >= bytes.len() {
        Ok(None)
    } else if valid_utf8(bytes.take(k as int)) {
        Ok(Some(decode_utf8(bytes.take(k as int))))
    } else {
        Err(CodecError::InvalidUtf8)
    }
}

/// What is left in a buffer holding `bytes` after `LineCodec::decode`: the
/// bytes after the first `'\n'`, or all of them when there is none.
pub open spec fn line_decode_rest(bytes: Seq<u8>) -> Seq<u8> {
    let k = first_newline(bytes);
    if k >= bytes.len() {
        bytes
    } else {
        bytes.skip(k + 1 as int)
    }
}

/// The bytes that `LineCodec::encode` appends for `msg`: its UTF-8 encoding,
/// then `'\n'`.
pub open spec fn line_encoding(msg: Seq<char>) -> Seq<u8> {
    encode_utf8(msg) + seq![NEWLINE]
}

/// The text of a line result, as characters.
pub open spec fn line_result_view(r: Result<Option<String>, CodecError>) -> Result<
    Option<Seq<char>>,
    CodecError,
> {
    match r {
        Ok(Some(s)) => Ok(Some(s@)),
        Ok(None) => Ok(None),
        Err(e) => Err(e),
    }
}

/// `first_newline` is `i` when `i` is the first `'\n'`, or the end.
proof fn lemma_first_newline(bytes: Seq<u8>, i: int)
    requires
        0 <= i <= bytes.len(),
        forall|j: int| 0 <= j < i ==> bytes[j] != NEWLINE,
        i < bytes.len() ==> bytes[i] == NEWLINE,
    ensures
        first_newline(bytes) == i,
    decreases i,
{
    if i > 0 {
        assert(bytes[0] != NEWLINE);
        let rest = bytes.drop_first();
        assert forall|j: int| 0 <= j < i - 1 implies rest[j] != NEWLINE by {
            assert(rest[j] == bytes[j + 1]);
        }
        lemma_first_newline(rest, i - 1);
    }
}

/// The UTF-8 encoding of a character other than `'\n'` holds no `'\n'` byte:
/// longer encodings are made only of bytes from `0x80` up.
proof fn lemma_scalar_has_no_newline(c: char)
    requires
        c != '\n',
    ensures
        forall|i: int|
            0 <= i < encode_scalar(c as u32).len() ==> #[trigger] encode_scalar(c as u32)[i]
                != NEWLINE,
{
    let v = c as u32;
    if has_width_1_encoding(v) {
        assert(leading_byte_width_1(v) != 10u8) by (bit_vector)
            requires
                v <= 0x7f,
                v != 10,
        ;
    } else {
        assert(leading_byte_width_2(v) != 10u8) by (bit_vector);
        assert(leading_byte_width_3(v) != 10u8) by (bit_vector);
        assert(leading_byte_width_4(v) != 10u8) by (bit_vector);
        assert(last_continuation_byte(v) != 10u8) by (bit_vector);
        assert(second_last_continuation_byte(v) != 10u8) by (bit_vector);
        assert(third_last_continuation_byte(v) != 10u8) by (bit_vector);
    }
}

/// The UTF-8 encoding of text without `'\n'` holds no `'\n'` byte.
proof fn lemma_encoding_has_no_newline(msg: Seq<char>)
    requires
        !msg.contains('\n'),
    ensures
        forall|i: int| 0 <= i < encode_utf8(msg).len() ==> #[trigger] encode_utf8(msg)[i] != NEWLINE,
    decreases msg.len(),
{
    if msg.len() > 0 {
        let first = encode_scalar(msg[0] as u32);
        let rest = msg.drop_first();
        assert(!rest.contains('\n')) by {
            if rest.contains('\n') {
                let j = choose|j: int| 0 <= j < rest.len() && rest[j] == '\n';
                assert(msg[j + 1] == '\n');
            }
        }
        assert(msg[0] != '\n');
        lemma_scalar_has_no_newline(msg[0]);
        lemma_encoding_has_no_newline(rest);
        assert(encode_utf8(msg) == first + encode_utf8(rest));
        assert forall|i: int| 0 <= i < encode_utf8(msg).len() implies #[trigger] encode_utf8(msg)[i]
            != NEWLINE by {
            if i < first.len() {
                assert(encode_utf8(msg)[i] == first[i]);
            } else {
                assert(encode_utf8(msg)[i] == encode_utf8(rest)[i - first.len()]);
            }
        }
    }
}

/// A line written by `LineCodec::encode` is read back by `LineCodec::decode`:
/// when the message holds no `'\n'`, decoding a buffer that starts with the
/// message's encoding gives the message back and leaves exactly the bytes that
/// followed it.
pub proof fn lemma_line_roundtrip(msg: Seq<char>, rest: Seq<u8>)
    requires
        !msg.contains('\n'),
    ensures
        line_decode_result(line_encoding(msg) + rest) == Ok::<Option<Seq<char>>, CodecError>(
            Some(msg),
        ),
        line_decode_rest(line_encoding(msg) + rest) == rest,
{
    let e = encode_utf8(msg);
    let bytes = line_encoding(msg) + rest;
    lemma_encoding_has_no_newline(msg);
    assert forall|j: int| 0 <= j < e.len() implies bytes[j] != NEWLINE by {
        assert(bytes[j] == e[j]);
    }
    assert(bytes[e.len() as int] == NEWLINE);
    lemma_first_newline(bytes, e.len() as int);
    assert(bytes.take(e.len() as int) =~= e);
    assert(bytes.skip(e.len() + 1 as int) =~= rest);
}

/// Decoding loses no byte: when a line is read, its encoding followed by what
/// is left in the buffer is exactly what the buffer held before.
pub proof fn lemma_decode_keeps_every_byte(bytes: Seq<u8>)
    ensures
        line_decode_result(bytes) matches Ok(Some(line)) ==> line_encoding(line) + line_decode_rest(
            bytes,
        ) == bytes,
        line_decode_result(bytes) matches Ok(None) ==> line_decode_rest(bytes) == bytes,
{
    let k = first_newline(bytes);
    if k < bytes.len() && valid_utf8(bytes.take(k as int)) {
        lemma_first_newline_is_newline(bytes);
        vstd::utf8::decode_utf8_encode_utf8(bytes.take(k as int));
        assert(line_encoding(decode_utf8(bytes.take(k as int))) + bytes.skip(k + 1 as int) =~= bytes);
    }
}

/// When `first_newline` is inside `bytes`, the byte there is `'\n'`.
proof fn lemma_first_newline_is_newline(bytes: Seq<u8>)
    ensures
        first_newline(bytes) <= bytes.len(),
        first_newline(bytes) < bytes.len() ==> bytes[first_newline(bytes) as int] == NEWLINE,
    decreases bytes.len(),
{
    if bytes.len() > 0 && bytes[0] != NEWLINE {
        lemma_first_newline_is_newline(bytes.drop_first());
    }
}

/// Splits a byte stream into lines of UTF-8 text.
pub struct LineCodec;

impl LineCodec {
    /// Takes the first complete line out of `buf`: `Ok(None)` (with `buf`
    /// untouched) while `buf` holds no `'\n'`; otherwise the line and its
    /// `'\n'` leave `buf`, and the line's text comes back, or
    /// `Err(InvalidUtf8)` when it is not valid UTF-8.
    pub fn decode(&mut self, buf: &mut BytesMut) -> (r: Result<Option<String>, CodecError>)
        ensures
            line_result_view(r) == line_decode_result(buffer_contents(*old(buf))),
            buffer_contents(*final(buf)) == line_decode_rest(buffer_contents(*old(buf))),
    {
        let ghost start = buffer_contents(*buf);
        let bytes = buffer_bytes(buf);
        let n = bytes.len();
        let mut i: usize = 0;
        while i < n
            invariant
                n == bytes@.len(),
                i <= n,
                forall|j: int| 0 <= j < i ==> bytes@[j] != NEWLINE,
            ensures
                i <= n,
                forall|j: int| 0 <= j < i ==> bytes@[j] != NEWLINE,
                i < n ==> bytes@[i as int] == NEWLINE,
            decreases n - i,
        {
            if bytes[i] == NEWLINE {
                break;
            }
            i = i + 1;
        }
        proof {
            lemma_first_newline(start, i as int);
        }
        if i == n {
            return Ok(None);
        }
        let line = buffer_split_to(buf, i);
        let _newline = buffer_split_to(buf, 1);
        assert(start.skip(i as int).skip(1) =~= start.skip(i + 1));
        match utf8_text(buffer_bytes(&line)) {
            Some(text) => Ok(Some(text.to_owned())),
            None => Err(CodecError::InvalidUtf8),
        }
    }

    /// Appends `msg` to `buf` as one line: its UTF-8 bytes, then `'\n'`.
    pub fn encode(&mut self, msg: String, buf: &mut BytesMut) -> (r: Result<(), CodecError>)
        requires
            buffer_contents(*old(buf)).len() + line_encoding(msg@).len() <= isize::MAX,
        ensures
            r == Ok::<(), CodecError>(()),
            buffer_contents(*final(buf)) == buffer_contents(*old(buf)) + line_encoding(msg@),
    {
        let text = msg.as_str();
        let bytes = text.as_bytes();
        buffer_extend(buf, bytes);
        let newline: [u8; 1] = [NEWLINE];
        buffer_extend(buf, newline.as_slice());
        Ok(())
    }

    /// Appends `msg` to `buf` as `encode` does when the buffer then stays
    /// within `isize::MAX` bytes; otherwise leaves `buf` as it is and gives
    /// `Err(BufferOverflow)`.
    pub fn encode_checked(&mut self, msg: String, buf: &mut BytesMut) -> (r: Result<(), CodecError>)
        ensures
            buffer_contents(*old(buf)).len() + line_encoding(msg@).len() <= isize::MAX ==> r
                == Ok::<(), CodecError>(()) && buffer_contents(*final(buf)) == buffer_contents(
                *old(buf),
            ) + line_encoding(msg@),
            buffer_contents(*old(buf)).len() + line_encoding(msg@).len() > isize::MAX ==> r
                == Err::<(), CodecError>(CodecError::BufferOverflow) && buffer_contents(
                *final(buf),
            ) == buffer_contents(*old(buf)),
    {
        let text_len = msg.as_str().as_bytes().len();
        let buf_len = buffer_len(buf);
        if text_len <= (isize::MAX as usize) - 1 && buf_len <= (isize::MAX as usize) - 1 - text_len {
            self.encode(msg, buf)
        } else {
            Err(CodecError::BufferOverflow)
        }
    }
}

/// The number of bytes that `buf` holds.
pub fn buffer_len(buf: &BytesMut) -> (n: usize)
    ensures
        n == buffer_contents(*buf).len(),
{
    buffer_bytes(buf).len()
}


/// Holds of the characters with the Unicode `White_Space` property, which
/// `char::is_whitespace` tests and `str::trim_end` strips.
pub open spec fn is_white_space(c: char) -> bool {
    let v = c as u32;
    ||| 0x9 <= v <= 0xd
    ||| v == 0x20
    ||| v == 0x85
    ||| v == 0xa0
    ||| v == 0x1680
    ||| 0x2000 <= v <= 0x200a
    ||| v == 0x2028
    ||| v == 0x2029
    ||| v == 0x202f
    ||| v == 0x205f
    ||| v == 0x3000
}

/// Tests whether `c` is white space (see `is_white_space`).
pub fn is_whitespace(c: char) -> (r: bool)
    ensures
        r == is_white_space(c),
{
    let v = c as u32;
    (0x9 <= v && v <= 0xd) || v == 0x20 || v == 0x85 || v == 0xa0 || v == 0x1680 || (0x2000 <= v
        && v <= 0x200a) || v == 0x2028 || v == 0x2029 || v == 0x202f || v == 0x205f || v == 0x3000
}

/// The length of `s` once its trailing white space is removed.
pub open spec fn trim_end_len(s: Seq<char>) -> nat
    decreases s.len(),
{
    if s.len() == 0 {
        0
    } else if is_white_space(s.last()) {
        trim_end_len(s.drop_last())
    } else {
        s.len()
    }
}

/// `s` without its trailing white space.
pub open spec fn trimmed_end(s: Seq<char>) -> Seq<char> {
    s.take(trim_end_len(s) as int)
}

/// `trim_end_len` never exceeds the length.
proof fn lemma_trim_end_len_bound(s: Seq<char>)
    ensures
        trim_end_len(s) <= s.len(),
    decreases s.len(),
{
    if s.len() > 0 {
        lemma_trim_end_len_bound(s.drop_last());
    }
}

/// `line` without its trailing white space.
pub fn trim_end(line: &str) -> (t: &str)
    ensures
        t@ == trimmed_end(line@),
{
    let mut k = line.unicode_len();
    assert(line@.take(k as int) =~= line@);
    while k > 0
        invariant
            k <= line@.len(),
            trim_end_len(line@.take(k as int)) == trim_end_len(line@),
        ensures
            k <= line@.len(),
            k == trim_end_len(line@),
        decreases k,
    {
        let c = line.get_char(k - 1);
        assert(line@.take(k as int).last() == c);
        assert(line@.take(k as int).drop_last() =~= line@.take(k - 1));
        if !is_whitespace(c) {
            break;
        }
        k = k - 1;
    }
    proof {
        lemma_trim_end_len_bound(line@);
    }
    line.substring_char(0, k)
}

/// Trailing white space never changes what a line stands for: a line with
/// white space appended trims to the same text, so it gives the same request.
pub proof fn lemma_trailing_whitespace_is_ignored(line: Seq<char>, spaces: Seq<char>)
    requires
        forall|i: int| 0 <= i < spaces.len() ==> is_white_space(#[trigger] spaces[i]),
    ensures
        trimmed_end(line + spaces) == trimmed_end(line),
        forall|req: GridClientRequest|
            parsed_request(line + spaces, req) <==> #[trigger] parsed_request(line, req),
    decreases spaces.len(),
{
    if spaces.len() == 0 {
        assert(line + spaces =~= line);
    } else {
        let shorter = spaces.drop_last();
        assert forall|i: int| 0 <= i < shorter.len() implies is_white_space(#[trigger] shorter[i]) by {
            assert(shorter[i] == spaces[i]);
        }
        lemma_trailing_whitespace_is_ignored(line, shorter);
        assert((line + spaces).drop_last() =~= line + shorter);
        assert((line + spaces).last() == spaces.last());
        assert(is_white_space(spaces[spaces.len() - 1]));
        assert(trim_end_len(line + spaces) == trim_end_len(line + shorter));
        lemma_trim_end_len_bound(line + shorter);
        assert(trimmed_end(line + spaces) =~= trimmed_end(line + shorter));
    }
}

/// Tests whether `text` is exactly `word`.
pub(crate) fn text_equals(text: &str, word: &[char]) -> (r: bool)
    ensures
        r == (text@ == word@),
{
    let n = text.unicode_len();
    if n != word.len() {
        return false;
    }
    let mut i: usize = 0;
    while i < n
        invariant
            n == text@.len(),
            n == word@.len(),
            i <= n,
            forall|j: int| 0 <= j < i ==> text@[j] == word@[j],
        decreases n - i,
    {
        if text.get_char(i) != word[i] {
            return false;
        }
        i = i + 1;
    }
    assert(text@ =~= word@);
    true
}

/// Tests whether `text` starts with `word`.
fn text_starts_with(text: &str, word: &[char]) -> (r: bool)
    ensures
        r == (word@.len() <= text@.len() && text@.take(word@.len() as int) == word@),
{
    let n = word.len();
    if text.unicode_len() < n {
        return false;
    }
    let mut i: usize = 0;
    while i < n
        invariant
            n == word@.len(),
            n <= text@.len(),
            i <= n,
            forall|j: int| 0 <= j < i ==> text@[j] == word@[j],
        decreases n - i,
    {
        if text.get_char(i) != word[i] {
            assert(text@.take(n as int)[i as int] != word@[i as int]);
            return false;
        }
        i = i + 1;
    }
    assert(text@.take(n as int) =~= word@);
    true
}

/// The characters that open a login line.
pub open spec fn login_prefix() -> Seq<char> {
    seq!['l', 'o', 'g', 'i', 'n', ':']
}

/// Holds when `req` is the request that the line `line` stands for: after its
/// trailing white space is removed, a line that starts with `login:` and goes
/// on logs in under the character that follows; `up`, `down`, `left` and
/// `right` move by one step (up is towards smaller `y`); any other line is
/// unrecognized and kept as it is.
pub open spec fn parsed_request(line: Seq<char>, req: GridClientRequest) -> bool {
    let t = trimmed_end(line);
    if t.len() > 6 && t.take(6) == login_prefix() {
        req == GridClientRequest::LoginAs(t[6])
    } else if t == seq!['u', 'p'] {
        req == GridClientRequest::MoveRel(GridPoint(0, -1i32))
    } else if t == seq!['d', 'o', 'w', 'n'] {
        req == GridClientRequest::MoveRel(GridPoint(0, 1))
    } else if t == seq!['l', 'e', 'f', 't'] {
        req == GridClientRequest::MoveRel(GridPoint(-1i32, 0))
    } else if t == seq!['r', 'i', 'g', 'h', 't'] {
        req == GridClientRequest::MoveRel(GridPoint(1, 0))
    } else {
        req matches GridClientRequest::Unrecognized(s) && s@ == t
    }
}

/// The request that one line of text stands for (see `parsed_request`).
pub fn parse_request(line: &str) -> (req: GridClientRequest)
    ensures
        parsed_request(line@, req),
{
    let t = trim_end(line);
    let login: [char; 6] = ['l', 'o', 'g', 'i', 'n', ':'];
    assert(login@ =~= login_prefix());
    if text_starts_with(t, login.as_slice()) && t.unicode_len() > 6 {
        return GridClientRequest::LoginAs(t.get_char(6));
    }
    let up: [char; 2] = ['u', 'p'];
    let down: [char; 4] = ['d', 'o', 'w', 'n'];
    let left: [char; 4] = ['l', 'e', 'f', 't'];
    let right: [char; 5] = ['r', 'i', 'g', 'h', 't'];
    assert(up@ =~= seq!['u', 'p']);
    assert(down@ =~= seq!['d', 'o', 'w', 'n']);
    assert(left@ =~= seq!['l', 'e', 'f', 't']);
    assert(right@ =~= seq!['r', 'i', 'g', 'h', 't']);
    if text_equals(t, up.as_slice()) {
        GridClientRequest::MoveRel(GridPoint(0, -1))
    } else if text_equals(t, down.as_slice()) {
        GridClientRequest::MoveRel(GridPoint(0, 1))
    } else if text_equals(t, left.as_slice()) {
        GridClientRequest::MoveRel(GridPoint(-1, 0))
    } else if text_equals(t, right.as_slice()) {
        GridClientRequest::MoveRel(GridPoint(1, 0))
    } else {
        GridClientRequest::Unrecognized(t.to_owned())
    }
}

/// Trimming keeps every character up to the last one that is not white space.
proof fn lemma_trim_keeps_non_white(s: Seq<char>, k: int)
    requires
        0 <= k < s.len(),
        !is_white_space(s[k]),
    ensures
        k < trim_end_len(s) <= s.len(),
    decreases s.len(),
{
    if k < s.len() - 1 && is_white_space(s.last()) {
        assert(s.drop_last()[k] == s[k]);
        lemma_trim_keeps_non_white(s.drop_last(), k);
    }
}

/// A login line logs in under the first character after `login:`, whatever
/// follows it: for a line that starts with `login:` and holds a character
/// that is not white space at index 6 or later, the request is `LoginAs` of
/// the character at index 6.
pub proof fn lemma_login_takes_first_char(line: Seq<char>, k: int, req: GridClientRequest)
    requires
        line.take(6) == seq!['l', 'o', 'g', 'i', 'n', ':'],
        6 <= k < line.len(),
        !is_white_space(line[k]),
        parsed_request(line, req),
    ensures
        req == GridClientRequest::LoginAs(line[6]),
{
    lemma_trim_keeps_non_white(line, k);
    let t = trimmed_end(line);
    assert(t.take(6) =~= login_prefix());
    assert(t[6] == line[6]);
}

/// The line protocol of grid clients: each line from a client is one
/// `GridClientRequest`; each response goes out as one line of its `Debug`
/// text.
pub struct GridTextCodec;

impl GridTextCodec {
    /// Takes the first complete line out of `buf`, as `LineCodec::decode`
    /// does, and gives the request it stands for (see `parsed_request`).
    pub fn decode(&mut self, buf: &mut BytesMut) -> (r: Result<Option<GridClientRequest>, CodecError>)
        ensures
            buffer_contents(*final(buf)) == line_decode_rest(buffer_contents(*old(buf))),
            match line_decode_result(buffer_contents(*old(buf))) {
                Ok(None) => r == Ok::<Option<GridClientRequest>, CodecError>(None),
                Ok(Some(line)) => r matches Ok(Some(req)) && parsed_request(line, req),
                Err(e) => r == Err::<Option<GridClientRequest>, CodecError>(e),
            },
    {
        match LineCodec.decode(buf) {
            Ok(Some(line)) => Ok(Some(parse_request(line.as_str()))),
            Ok(None) => Ok(None),
            Err(e) => Err(e),
        }
    }

    /// Appends `item` to `buf` as one line of its text (see
    /// `GridClientResponse::debug_text`).
    pub fn encode(&mut self, item: GridClientResponse, buf: &mut BytesMut) -> (r: Result<(), CodecError>)
        requires
            buffer_contents(*old(buf)).len() + line_encoding(response_text(item)).len() <= isize::MAX,
        ensures
            r == Ok::<(), CodecError>(()),
            buffer_contents(*final(buf)) == buffer_contents(*old(buf)) + line_encoding(
                response_text(item),
            ),
    {
        let text = item.debug_text();
        LineCodec.encode(text, buf)
    }

    /// Appends `item` to `buf` as `encode` does when the buffer then stays
    /// within `isize::MAX` bytes; otherwise leaves `buf` as it is and gives
    /// `Err(BufferOverflow)`.
    pub fn encode_checked(&mut self, item: GridClientResponse, buf: &mut BytesMut) -> (r: Result<(), CodecError>)
        ensures
            buffer_contents(*old(buf)).len() + line_encoding(response_text(item)).len() <= isize::MAX
                ==> r == Ok::<(), CodecError>(()) && buffer_contents(*final(buf)) == buffer_contents(
                *old(buf),
            ) + line_encoding(response_text(item)),
            buffer_contents(*old(buf)).len() + line_encoding(response_text(item)).len() > isize::MAX
                ==> r == Err::<(), CodecError>(CodecError::BufferOverflow) && buffer_contents(
                *final(buf),
            ) == buffer_contents(*old(buf)),
    {
        let text_len = item.debug_text().as_str().as_bytes().len();
        let buf_len = buffer_len(buf);
        if text_len <= (isize::MAX as usize) - 1 && buf_len <= (isize::MAX as usize) - 1 - text_len {
            self.encode(item, buf)
        } else {
            Err(CodecError::BufferOverflow)
        }
    }
}

} // verus!
