//! Messages exchanged between grid clients and the server, the text a client
//! reads of each response, and the trait that names the message types of a
//! connection.

use crate::codecs::text_equals;
use crate::grid::{GridPoint, GridUpdate, PlayerName, PlayerUid};
use vstd::string::*;
use vstd::prelude::*;

verus! {

/// Names the type of message a connection reads (`Input`) and the type it
/// writes (`Output`), so that a connection can be typed by one value.
pub trait IOMessages {
    type Input;
    type Output;
}

/// A request from a grid client, read from one line of text.
#[derive(Debug, Clone, PartialEq, Eq)]
pub enum GridClientRequest {
    /// Log in under the given one-character name.
    LoginAs(PlayerName),
    /// Move the client's player by the given offset.
    MoveRel(GridPoint),
    /// A line that is no known request; holds the line without trailing whitespace.
    Unrecognized(String),
}

/// Why the server hangs up on a grid client.
#[derive(Debug, Clone, Copy, PartialEq, Eq, Structural)]
pub enum GridServerHangup {
    UnexpectedLogin,
    UnrecognizedRequest,
    InternalError,
}

/// A message from the server to a grid client.
#[derive(Debug, Clone, Copy, PartialEq, Eq, Structural)]
pub enum GridClientResponse {
    /// The server waits for a login.
    LoginPrompt,
    /// The client is logged in under the given player id.
    LoggedIn(PlayerUid),
    /// Something changed on the grid.
    GridUpdated(GridUpdate),
    /// The server closes the connection.
    Hangup(GridServerHangup),
}


/// The request that a grid client sends for a line its user typed: exactly
/// `up`, `down`, `left` or `right` move by one step; every other line sends
/// nothing. The client moves `right` by `(0, 1)`, the same step as `down`.
pub open spec fn client_input_request(line: Seq<char>) -> Option<GridClientRequest> {
    if line == seq!['u', 'p'] {
        Some(GridClientRequest::MoveRel(GridPoint(0, -1i32)))
    } else if line == seq!['d', 'o', 'w', 'n'] {
        Some(GridClientRequest::MoveRel(GridPoint(0, 1)))
    } else if line == seq!['l', 'e', 'f', 't'] {
        Some(GridClientRequest::MoveRel(GridPoint(-1i32, 0)))
    } else if line == seq!['r', 'i', 'g', 'h', 't'] {
        Some(GridClientRequest::MoveRel(GridPoint(0, 1)))
    } else {
        None
    }
}

/// The request a grid client sends for a typed line (see
/// `client_input_request`).
pub fn client_request_for_input(line: &str) -> (r: Option<GridClientRequest>)
    ensures
        r == client_input_request(line@),
{
    let up: [char; 2] = ['u', 'p'];
    let down: [char; 4] = ['d', 'o', 'w', 'n'];
    let left: [char; 4] = ['l', 'e', 'f', 't'];
    let right: [char; 5] = ['r', 'i', 'g', 'h', 't'];
    assert(up@ =~= seq!['u', 'p']);
    assert(down@ =~= seq!['d', 'o', 'w', 'n']);
    assert(left@ =~= seq!['l', 'e', 'f', 't']);
    assert(right@ =~= seq!['r', 'i', 'g', 'h', 't']);
    if text_equals(line, up.as_slice()) {
        Some(GridClientRequest::MoveRel(GridPoint(0, -1)))
    } else if text_equals(line, down.as_slice()) {
        Some(GridClientRequest::MoveRel(GridPoint(0, 1)))
    } else if text_equals(line, left.as_slice()) {
        Some(GridClientRequest::MoveRel(GridPoint(-1, 0)))
    } else if text_equals(line, right.as_slice()) {
        Some(GridClientRequest::MoveRel(GridPoint(0, 1)))
    } else {
        None
    }
}

/// The name a grid client logs in under: the first character of the line its
/// user typed, or nothing for an empty line.
pub fn login_name(line: &str) -> (name: Option<PlayerName>)
    ensures
        line@.len() > 0 ==> name == Some(line@[0]),
        line@.len() == 0 ==> name is None,
{
    if line.unicode_len() > 0 {
        Some(line.get_char(0))
    } else {
        None
    }
}

/// The characters that `char::escape_debug` gives for `c`.
pub uninterp spec fn char_escape_debug(c: char) -> Seq<char>;

/// Calls `char::escape_debug`: the escape of `c` that the `Debug` format
/// writes. What those characters are is not stated; they are named by
/// `char_escape_debug`.
#[verifier::external_body]
fn escaped_char(c: char) -> (text: String)
    ensures
        text@ == char_escape_debug(c),
{
    c.escape_debug().to_string()
}

/// `String::push` appends one character.
pub assume_specification[ String::push ](string: &mut String, ch: char)
    ensures
        final(string)@ == old(string)@.push(ch),
;

/// The decimal digit for `d`, which is below ten.
pub open spec fn digit_char(d: nat) -> char {
    if d == 0 {
        '0'
    } else if d == 1 {
        '1'
    } else if d == 2 {
        '2'
    } else if d == 3 {
        '3'
    } else if d == 4 {
        '4'
    } else if d == 5 {
        '5'
    } else if d == 6 {
        '6'
    } else if d == 7 {
        '7'
    } else if d == 8 {
        '8'
    } else {
        '9'
    }
}

/// `n` in decimal, without leading zeros.
pub open spec fn decimal(n: nat) -> Seq<char>
    decreases n,
{
    if n < 10 {
        seq![digit_char(n)]
    } else {
        decimal(n / 10).push(digit_char(n % 10))
    }
}

/// `v` in decimal, with a leading `-` when it is negative.
pub open spec fn signed_decimal(v: int) -> Seq<char> {
    if v < 0 {
        seq!['-'] + decimal((-v) as nat)
    } else {
        decimal(v as nat)
    }
}

/// A character as `Debug` writes it: in single quotes, escaped as
/// `char::escape_debug` does, except that a double quote stays as it is.
pub open spec fn char_text(c: char) -> Seq<char> {
    seq!['\''] + (if c == '"' {
        seq!['"']
    } else {
        char_escape_debug(c)
    }) + seq!['\'']
}

/// The text of a point: `GridPoint(x, y)`.
pub open spec fn point_text(p: GridPoint) -> Seq<char> {
    "GridPoint("@ + signed_decimal(p.0 as int) + ", "@ + signed_decimal(p.1 as int) + ")"@
}

/// The text of an update: the variant's name, then its fields in round
/// brackets, separated by `", "`.
pub open spec fn update_text(u: GridUpdate) -> Seq<char> {
    match u {
        GridUpdate::Connected(id, name, pos) => "Connected("@ + decimal(id as nat) + ", "@
            + char_text(name) + ", "@ + point_text(pos) + ")"@,
        GridUpdate::MovedTo(id, pos) => "MovedTo("@ + decimal(id as nat) + ", "@ + point_text(pos)
            + ")"@,
        GridUpdate::Disconnected(id) => "Disconnected("@ + decimal(id as nat) + ")"@,
    }
}

/// The text of a hangup reason: the variant's name.
pub open spec fn hangup_text(h: GridServerHangup) -> Seq<char> {
    match h {
        GridServerHangup::UnexpectedLogin => "UnexpectedLogin"@,
        GridServerHangup::UnrecognizedRequest => "UnrecognizedRequest"@,
        GridServerHangup::InternalError => "InternalError"@,
    }
}

/// The text of a response, as its `Debug` format writes it: the variant's
/// name, then its field, if any, in round brackets.
pub open spec fn response_text(r: GridClientResponse) -> Seq<char> {
    match r {
        GridClientResponse::LoginPrompt => "LoginPrompt"@,
        GridClientResponse::LoggedIn(id) => "LoggedIn("@ + decimal(id as nat) + ")"@,
        GridClientResponse::GridUpdated(u) => "GridUpdated("@ + update_text(u) + ")"@,
        GridClientResponse::Hangup(h) => "Hangup("@ + hangup_text(h) + ")"@,
    }
}

/// The decimal digit for `d`.
fn digit(d: u64) -> (c: char)
    requires
        d < 10,
    ensures
        c == digit_char(d as nat),
{
    if d == 0 {
        '0'
    } else if d == 1 {
        '1'
    } else if d == 2 {
        '2'
    } else if d == 3 {
        '3'
    } else if d == 4 {
        '4'
    } else if d == 5 {
        '5'
    } else if d == 6 {
        '6'
    } else if d == 7 {
        '7'
    } else if d == 8 {
        '8'
    } else {
        '9'
    }
}

/// Appends `n` in decimal.
fn push_decimal(out: &mut String, n: u64)
    ensures
        final(out)@ == old(out)@ + decimal(n as nat),
    decreases n,
{
    let ghost start = out@;
    if n >= 10 {
        push_decimal(out, n / 10);
    }
    out.push(digit(n % 10));
    assert(out@ =~= start + decimal(n as nat));
}

/// Appends `v` in decimal, with a leading `-` when it is negative.
fn push_signed_decimal(out: &mut String, v: i32)
    ensures
        final(out)@ == old(out)@ + signed_decimal(v as int),
{
    let ghost start = out@;
    if v < 0 {
        out.push('-');
        let magnitude: u64 = (-(v as i64)) as u64;
        push_decimal(out, magnitude);
    } else {
        push_decimal(out, v as u64);
    }
    assert(out@ =~= start + signed_decimal(v as int));
}

/// Appends `c` as `Debug` writes a character (see `char_text`).
fn push_char_text(out: &mut String, c: char)
    ensures
        final(out)@ == old(out)@ + char_text(c),
{
    let ghost start = out@;
    out.push('\'');
    if c == '"' {
        out.push('"');
    } else {
        let escaped = escaped_char(c);
        out.append(escaped.as_str());
    }
    out.push('\'');
    assert(out@ =~= start + char_text(c));
}

/// Appends the text of a point (see `point_text`).
fn push_point_text(out: &mut String, p: GridPoint)
    ensures
        final(out)@ == old(out)@ + point_text(p),
{
    let ghost start = out@;
    out.append("GridPoint(");
    push_signed_decimal(out, p.0);
    out.append(", ");
    push_signed_decimal(out, p.1);
    out.append(")");
    assert(out@ =~= start + point_text(p));
}

/// Appends the text of an update (see `update_text`).
fn push_update_text(out: &mut String, u: GridUpdate)
    ensures
        final(out)@ == old(out)@ + update_text(u),
{
    let ghost start = out@;
    match u {
        GridUpdate::Connected(id, name, pos) => {
            out.append("Connected(");
            push_decimal(out, id);
            out.append(", ");
            push_char_text(out, name);
            out.append(", ");
            push_point_text(out, pos);
            out.append(")");
        },
        GridUpdate::MovedTo(id, pos) => {
            out.append("MovedTo(");
            push_decimal(out, id);
            out.append(", ");
            push_point_text(out, pos);
            out.append(")");
        },
        GridUpdate::Disconnected(id) => {
            out.append("Disconnected(");
            push_decimal(out, id);
            out.append(")");
        },
    }
    assert(out@ =~= start + update_text(u));
}

/// Appends the text of a hangup reason (see `hangup_text`).
fn push_hangup_text(out: &mut String, h: GridServerHangup)
    ensures
        final(out)@ == old(out)@ + hangup_text(h),
{
    match h {
        GridServerHangup::UnexpectedLogin => out.append("UnexpectedLogin"),
        GridServerHangup::UnrecognizedRequest => out.append("UnrecognizedRequest"),
        GridServerHangup::InternalError => out.append("InternalError"),
    }
}

impl GridClientResponse {
    /// The text of the response, as its `Debug` format writes it (see
    /// `response_text`); it is what a grid client reads of the response.
    pub fn debug_text(&self) -> (text: String)
        ensures
            text@ == response_text(*self),
    {
        let mut out = String::new();
        match *self {
            GridClientResponse::LoginPrompt => {
                out.append("LoginPrompt");
            },
            GridClientResponse::LoggedIn(id) => {
                out.append("LoggedIn(");
                push_decimal(&mut out, id);
                out.append(")");
            },
            GridClientResponse::GridUpdated(u) => {
                out.append("GridUpdated(");
                push_update_text(&mut out, u);
                out.append(")");
            },
            GridClientResponse::Hangup(h) => {
                out.append("Hangup(");
                push_hangup_text(&mut out, h);
                out.append(")");
            },
        }
        assert(out@ =~= response_text(*self));
        out
    }
}

} // verus!

