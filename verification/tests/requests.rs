use stage_runtime::requests::{
    check_body_length, check_content_length, on_frame, FrameAction, NetState, WsFrame,
    MAX_BACKGROUND_THREADS, MAX_RESPONSE_SIZE, MAX_WS_MSG_SIZE,
};

#[test]
fn declared_length_over_the_cap_is_refused() {
    assert_eq!(
        check_content_length(Some(52_428_801)),
        Err("Response too large: 52428801 bytes (max 52428800)".to_string())
    );
    assert_eq!(check_content_length(Some(MAX_RESPONSE_SIZE as u64)), Ok(()));
    assert_eq!(check_content_length(Some(0)), Ok(()));
    assert_eq!(check_content_length(None), Ok(()));
}

#[test]
fn body_over_the_cap_is_refused() {
    assert_eq!(
        check_body_length(60_000_000),
        Err("Response body too large: 60000000 bytes (max 52428800)".to_string())
    );
    assert_eq!(check_body_length(MAX_RESPONSE_SIZE), Ok(()));
    assert_eq!(check_body_length(0), Ok(()));
}

#[test]
fn fetch_admission() {
    let mut net = NetState::new();
    assert_eq!(
        net.admit_fetch(1, false, 0),
        Err("Blocked: private/internal network address".to_string())
    );
    assert_eq!(
        net.admit_fetch(2, true, MAX_BACKGROUND_THREADS),
        Err("Too many concurrent network requests".to_string())
    );
    assert_eq!(net.admit_fetch(3, true, MAX_BACKGROUND_THREADS - 1), Ok(()));
    // Only results of fetches that were started are taken, and only once.
    assert!(!net.finish_fetch(1));
    assert!(!net.finish_fetch(2));
    assert!(net.finish_fetch(3));
    assert!(!net.finish_fetch(3));
}

#[test]
fn private_host_is_checked_before_thread_count() {
    let mut net = NetState::new();
    assert_eq!(
        net.admit_fetch(1, false, MAX_BACKGROUND_THREADS),
        Err("Blocked: private/internal network address".to_string())
    );
    assert_eq!(
        net.admit_socket(1, false, MAX_BACKGROUND_THREADS),
        Err("WebSocket connections to private/internal hosts are blocked".to_string())
    );
}

#[test]
fn socket_admission_and_sending() {
    let mut net = NetState::new();
    assert_eq!(
        net.admit_socket(7, true, MAX_BACKGROUND_THREADS),
        Err("Too many concurrent connections".to_string())
    );
    assert!(!net.may_send(7));
    assert_eq!(net.admit_socket(7, true, 0), Ok(()));
    assert!(net.may_send(7));
    assert!(!net.may_send(8));
    // The connection reported that it closed.
    net.socket_closed(7);
    assert!(!net.may_send(7));
}

#[test]
fn script_close_stops_sending() {
    let mut net = NetState::new();
    assert_eq!(net.admit_socket(1, true, 0), Ok(()));
    assert_eq!(net.admit_socket(2, true, 1), Ok(()));
    net.close_socket(1);
    assert!(!net.may_send(1));
    assert!(net.may_send(2));
    // Fetch ids are kept apart from socket ids.
    assert!(!net.finish_fetch(2));
    assert!(net.may_send(2));
}

#[test]
fn text_frames_are_delivered_up_to_the_cap() {
    assert_eq!(on_frame(WsFrame::Text("hello".to_string())), FrameAction::Deliver("hello".to_string()));
    let big = "x".repeat(MAX_WS_MSG_SIZE + 1);
    assert_eq!(on_frame(WsFrame::Text(big)), FrameAction::Ignore);
    let exact = "y".repeat(MAX_WS_MSG_SIZE);
    assert_eq!(on_frame(WsFrame::Text(exact.clone())), FrameAction::Deliver(exact));
}

#[test]
fn binary_frames_are_decoded_lossily() {
    assert_eq!(
        on_frame(WsFrame::Binary(vec![0xff, b'a', b'b'])),
        FrameAction::Deliver("\u{FFFD}ab".to_string())
    );
    assert_eq!(on_frame(WsFrame::Binary(vec![0u8; MAX_WS_MSG_SIZE + 1])), FrameAction::Ignore);
}

#[test]
fn close_ping_and_pong_frames() {
    assert_eq!(
        on_frame(WsFrame::Close(None)),
        FrameAction::Closed { code: 1000, reason: String::new() }
    );
    assert_eq!(
        on_frame(WsFrame::Close(Some((4001, "bye".to_string())))),
        FrameAction::Closed { code: 4001, reason: "bye".to_string() }
    );
    assert_eq!(on_frame(WsFrame::Ping(vec![1, 2, 3])), FrameAction::Reply(vec![1, 2, 3]));
    assert_eq!(on_frame(WsFrame::Pong(vec![9])), FrameAction::Ignore);
}
