use remailable::appload::{
    classify_datagram, decode_header, dispatch, encode_header, frame_header, is_system_message,
    payload_span, Dispatch, Incoming, MSG_EVENT, MSG_REQUEST, MSG_RESPONSE, SYS_NEW_FRONTEND,
    SYS_TERMINATE,
};

#[test]
fn header_is_little_endian_type_then_length() {
    assert_eq!(encode_header(MSG_RESPONSE, 0x0102_0304), vec![2, 0, 0, 0, 4, 3, 2, 1]);
    assert_eq!(decode_header(&[1, 0, 0, 0, 5, 0, 0, 0]), Some((1, 5)));
    assert_eq!(decode_header(&[0xfe, 0xff, 0xff, 0xff, 1, 0, 0, 0, 9]), Some((SYS_NEW_FRONTEND, 1)));
    assert_eq!(decode_header(&[1, 0, 0, 0, 5, 0, 0]), None);
}

#[test]
fn written_headers_read_back() {
    for (t, l) in [(MSG_REQUEST, 0u32), (MSG_EVENT, 65536), (SYS_TERMINATE, u32::MAX)] {
        assert_eq!(decode_header(&encode_header(t, l)), Some((t, l)));
    }
}

#[test]
fn datagrams_are_classified() {
    let buf = [3u8, 0, 0, 0, 10, 0, 0, 0, 0, 0];
    assert_eq!(classify_datagram(&buf, 0), Incoming::Closed);
    assert_eq!(classify_datagram(&buf, 1), Incoming::Stray);
    assert_eq!(classify_datagram(&buf, 7), Incoming::Stray);
    assert_eq!(classify_datagram(&buf, 8), Incoming::App { msg_type: 3, length: 10 });
    let sys = encode_header(SYS_TERMINATE, 1);
    assert_eq!(classify_datagram(&sys, 8), Incoming::System { msg_type: SYS_TERMINATE, length: 1 });
    assert!(is_system_message(SYS_NEW_FRONTEND));
    assert!(!is_system_message(MSG_EVENT));
}

#[test]
fn payload_is_cut_to_the_announced_length() {
    assert_eq!(payload_span(10, 4), 4);
    assert_eq!(payload_span(10, 20), 10);
    assert_eq!(frame_header(MSG_EVENT, 0x1_0000_0005), vec![3, 0, 0, 0, 5, 0, 0, 0]);
}

#[test]
fn main_loop_dispatch() {
    assert_eq!(dispatch(SYS_NEW_FRONTEND, false), Dispatch::SendInitialState);
    assert_eq!(dispatch(SYS_TERMINATE, false), Dispatch::Terminate);
    assert_eq!(dispatch(MSG_REQUEST, true), Dispatch::HandleRequest);
    assert_eq!(dispatch(MSG_REQUEST, false), Dispatch::Ignore);
    assert_eq!(dispatch(MSG_RESPONSE, true), Dispatch::Ignore);
}
