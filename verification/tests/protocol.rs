use gridgame::grid::{GridPoint, GridUpdate};
use gridgame::protocol::{GridClientRequest, GridClientResponse, GridServerHangup};

#[test]
fn responses_are_plain_values() {
    let r = GridClientResponse::GridUpdated(GridUpdate::Connected(1, 'k', GridPoint(0, 3)));
    let copy = r;
    assert_eq!(r, copy);
    assert_ne!(GridClientResponse::Hangup(GridServerHangup::UnrecognizedRequest), GridClientResponse::LoginPrompt);
    assert_eq!(format!("{:?}", GridClientResponse::LoggedIn(12)), "LoggedIn(12)");
}

#[test]
fn requests_compare_by_value() {
    assert_eq!(GridClientRequest::Unrecognized("x".to_string()), GridClientRequest::Unrecognized("x".to_string()));
    assert_ne!(GridClientRequest::LoginAs('a'), GridClientRequest::LoginAs('b'));
}

use gridgame::protocol::{client_request_for_input, login_name};

#[test]
fn client_input_maps_directions() {
    assert_eq!(client_request_for_input("up"), Some(GridClientRequest::MoveRel(GridPoint(0, -1))));
    assert_eq!(client_request_for_input("down"), Some(GridClientRequest::MoveRel(GridPoint(0, 1))));
    assert_eq!(client_request_for_input("left"), Some(GridClientRequest::MoveRel(GridPoint(-1, 0))));
    // the client steps `right` by (0, 1), as it always did
    assert_eq!(client_request_for_input("right"), Some(GridClientRequest::MoveRel(GridPoint(0, 1))));
    assert_eq!(client_request_for_input("up "), None);
    assert_eq!(client_request_for_input(""), None);
    assert_eq!(client_request_for_input("jump"), None);
}

#[test]
fn login_name_is_first_char() {
    assert_eq!(login_name("bob"), Some('b'));
    assert_eq!(login_name("ß"), Some('ß'));
    assert_eq!(login_name(""), None);
}

#[test]
fn debug_text_of_login_prompt() {
    assert_eq!(GridClientResponse::LoginPrompt.debug_text(), "LoginPrompt");
}

#[test]
fn debug_text_writes_integers_in_decimal() {
    assert_eq!(GridClientResponse::LoggedIn(0).debug_text(), "LoggedIn(0)");
    assert_eq!(GridClientResponse::LoggedIn(1234567890).debug_text(), "LoggedIn(1234567890)");
    assert_eq!(
        GridClientResponse::LoggedIn(u64::MAX).debug_text(),
        "LoggedIn(18446744073709551615)"
    );
    assert_eq!(
        GridClientResponse::GridUpdated(GridUpdate::MovedTo(10, GridPoint(i32::MIN, i32::MAX))).debug_text(),
        "GridUpdated(MovedTo(10, GridPoint(-2147483648, 2147483647)))"
    );
}

#[test]
fn debug_text_quotes_names() {
    assert_eq!(
        GridClientResponse::GridUpdated(GridUpdate::Connected(5, 'k', GridPoint(-3, 0))).debug_text(),
        "GridUpdated(Connected(5, 'k', GridPoint(-3, 0)))"
    );
    assert_eq!(
        GridClientResponse::GridUpdated(GridUpdate::Connected(1, '\'', GridPoint(0, 0))).debug_text(),
        "GridUpdated(Connected(1, '\\'', GridPoint(0, 0)))"
    );
    assert_eq!(
        GridClientResponse::GridUpdated(GridUpdate::Connected(1, '"', GridPoint(0, 0))).debug_text(),
        "GridUpdated(Connected(1, '\"', GridPoint(0, 0)))"
    );
}

#[test]
fn debug_text_matches_the_debug_format() {
    let names = ['a', 'Z', '"', '\'', '\\', '\n', '\t', '\0', 'é', '€', '\u{301}', '\u{7f}', '\u{200b}', '😀'];
    let mut responses = vec![
        GridClientResponse::LoginPrompt,
        GridClientResponse::LoggedIn(9),
        GridClientResponse::Hangup(GridServerHangup::UnexpectedLogin),
        GridClientResponse::Hangup(GridServerHangup::UnrecognizedRequest),
        GridClientResponse::Hangup(GridServerHangup::InternalError),
        GridClientResponse::GridUpdated(GridUpdate::Disconnected(77)),
        GridClientResponse::GridUpdated(GridUpdate::MovedTo(2, GridPoint(-10, 10))),
    ];
    for (i, name) in names.iter().enumerate() {
        responses.push(GridClientResponse::GridUpdated(GridUpdate::Connected(
            i as u64,
            *name,
            GridPoint(-(i as i32), i as i32 * 1000),
        )));
    }
    for r in responses {
        assert_eq!(r.debug_text(), format!("{:?}", r));
    }
}
