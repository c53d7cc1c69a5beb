use rhizome::ctrl_chnl::greeting;
use rhizome::ctrl_chnl::request::{recv_req, Received, Request, MAX_REQUEST_LEN};
use rhizome::ctrl_chnl::response::{Response, MAX_RESPONSE_LEN};
use rhizome::server::user::User;
use rhizome::wire::{frame_length, read_frame, write_frame, Framing};

fn user(fill: u8) -> User {
    User { key: [fill; 32] }
}

fn counting_key() -> [u8; 32] {
    let mut key = [0u8; 32];
    for (i, byte) in key.iter_mut().enumerate() {
        *byte = i as u8 + 100;
    }
    key
}

fn tagged(tag: &[u8], key: &[u8; 32]) -> Vec<u8> {
    let mut bytes = tag.to_vec();
    bytes.extend_from_slice(key);
    bytes
}

fn framed(request: Request) -> Vec<u8> {
    let mut out = Vec::new();
    request.send_with(&mut out);
    out
}

#[test]
fn greeting_names_protocol_and_version() {
    assert_eq!(greeting(), b"rhizome v0.1.0\n".to_vec());
}

#[test]
fn frame_length_is_big_endian() {
    assert_eq!(frame_length(&[0, 0, 0, 0]), 0);
    assert_eq!(frame_length(&[0, 0, 0, 33]), 33);
    assert_eq!(frame_length(&[0, 0, 1, 0]), 256);
    assert_eq!(frame_length(&[1, 2, 3, 4]), 0x0102_0304);
    assert_eq!(frame_length(&[255, 255, 255, 255]), u32::MAX);
}

#[test]
fn write_frame_puts_the_length_in_front() {
    let mut out = vec![7u8];
    write_frame(&mut out, &[10, 20, 30]);
    assert_eq!(out, vec![7, 0, 0, 0, 3, 10, 20, 30]);
    let mut out = Vec::new();
    write_frame(&mut out, &[]);
    assert_eq!(out, vec![0, 0, 0, 0]);
    let mut out = Vec::new();
    write_frame(&mut out, &vec![5u8; 0x1_0203]);
    assert_eq!(&out[..4], &[0, 1, 2, 3]);
    assert_eq!(out.len(), 4 + 0x1_0203);
}

#[test]
fn read_frame_asks_for_what_is_missing() {
    assert_eq!(read_frame(&[], 10), Framing::Incomplete { missing: 4 });
    assert_eq!(read_frame(&[0, 0], 10), Framing::Incomplete { missing: 2 });
    assert_eq!(read_frame(&[0, 0, 0, 3], 10), Framing::Incomplete { missing: 3 });
    assert_eq!(read_frame(&[0, 0, 0, 3, 1], 10), Framing::Incomplete { missing: 2 });
    assert_eq!(read_frame(&[0, 0, 0, 3, 1, 2, 3], 10), Framing::Complete { end: 7 });
    assert_eq!(read_frame(&[0, 0, 0, 3, 1, 2, 3, 4, 5], 10), Framing::Complete { end: 7 });
    assert_eq!(read_frame(&[0, 0, 0, 0], 10), Framing::Complete { end: 4 });
}

#[test]
fn read_frame_refuses_what_is_over_the_limit() {
    assert_eq!(read_frame(&[0, 0, 0, 11], 10), Framing::TooLong);
    assert_eq!(read_frame(&[0, 0, 0, 10], 10), Framing::Incomplete { missing: 10 });
    assert_eq!(read_frame(&[255, 255, 255, 255, 0], u32::MAX - 1), Framing::TooLong);
    assert_eq!(read_frame(&[1, 0, 0, 0], 10), Framing::TooLong);
}

#[test]
fn requests_are_written_as_tag_and_fields() {
    assert_eq!(Request::Room(User { key: counting_key() }).encode(), tagged(&[0], &counting_key()));
    assert_eq!(Request::Accept(false).encode(), vec![1, 0]);
    assert_eq!(Request::Accept(true).encode(), vec![1, 1]);
    assert_eq!(Request::Heartbeat.encode(), vec![2]);
    assert_eq!(Request::Shutdown.encode(), vec![3]);
}

#[test]
fn requests_are_read_back() {
    for request in [
        Request::Room(user(0)),
        Request::Room(User { key: counting_key() }),
        Request::Accept(true),
        Request::Accept(false),
        Request::Heartbeat,
        Request::Shutdown,
    ] {
        assert_eq!(Request::decode(&request.encode()), Some(request));
    }
}

#[test]
fn bytes_that_are_no_request_are_refused() {
    assert_eq!(Request::decode(&[]), None);
    assert_eq!(Request::decode(&[4]), None);
    assert_eq!(Request::decode(&[255]), None);
    assert_eq!(Request::decode(&[0]), None);
    assert_eq!(Request::decode(&[1]), None);
    assert_eq!(Request::decode(&[1, 2]), None);
    assert_eq!(Request::decode(&[1, 1, 0]), None);
    assert_eq!(Request::decode(&[2, 0]), None);
    assert_eq!(Request::decode(&[3, 3]), None);
    assert_eq!(Request::decode(&tagged(&[0], &counting_key())[..32]), None);
    assert_eq!(Request::decode(&tagged(&[0, 0], &counting_key())), None);
    assert_eq!(Request::decode(&tagged(&[1], &counting_key())), None);
    assert_eq!(Request::decode(&tagged(&[2], &counting_key())), None);
}

#[test]
fn responses_are_written_as_tag_and_fields() {
    let key = counting_key();
    assert_eq!(Response::HasRoute(User { key }).encode(), tagged(&[0], &key));
    assert_eq!(Response::NoRoute(User { key }).encode(), tagged(&[1], &key));
    assert_eq!(Response::WantsRoom(User { key }).encode(), tagged(&[2], &key));
    assert_eq!(Response::AcceptedRoom(None).encode(), vec![3, 0]);
    assert_eq!(Response::AcceptedRoom(Some(key)).encode(), tagged(&[3, 1], &key));
}

#[test]
fn responses_are_read_back() {
    for response in [
        Response::HasRoute(user(1)),
        Response::NoRoute(user(2)),
        Response::WantsRoom(User { key: counting_key() }),
        Response::AcceptedRoom(None),
        Response::AcceptedRoom(Some(counting_key())),
        Response::AcceptedRoom(Some([0u8; 32])),
    ] {
        assert_eq!(Response::decode(&response.encode()), Some(response));
    }
}

#[test]
fn bytes_that_are_no_response_are_refused() {
    let key = counting_key();
    assert_eq!(Response::decode(&[]), None);
    assert_eq!(Response::decode(&[0]), None);
    assert_eq!(Response::decode(&[3]), None);
    assert_eq!(Response::decode(&[3, 1]), None);
    assert_eq!(Response::decode(&[3, 2]), None);
    assert_eq!(Response::decode(&[3, 0, 0]), None);
    assert_eq!(Response::decode(&tagged(&[3, 0], &key)), None);
    assert_eq!(Response::decode(&tagged(&[3, 2], &key)), None);
    assert_eq!(Response::decode(&tagged(&[4], &key)), None);
    assert_eq!(Response::decode(&tagged(&[3], &key)), None);
    assert_eq!(Response::decode(&tagged(&[0, 0], &key)), None);
    assert_eq!(Response::decode(&tagged(&[1], &key)[..32]), None);
}

#[test]
fn longest_messages() {
    assert_eq!(MAX_REQUEST_LEN, 33);
    assert_eq!(MAX_RESPONSE_LEN, 34);
    assert_eq!(Request::Room(user(1)).encode().len(), 33);
    assert_eq!(Response::AcceptedRoom(Some([1u8; 32])).encode().len(), 34);
}

#[test]
fn send_with_frames_the_message() {
    let mut out = Vec::new();
    Response::AcceptedRoom(None).send_with(&mut out);
    assert_eq!(out, vec![0, 0, 0, 2, 3, 0]);
    Response::NoRoute(user(9)).send_with(&mut out);
    let mut expected = vec![0, 0, 0, 2, 3, 0, 0, 0, 0, 33, 1];
    expected.extend_from_slice(&[9u8; 32]);
    assert_eq!(out, expected);
    assert_eq!(framed(Request::Heartbeat), vec![0, 0, 0, 1, 2]);
    assert_eq!(framed(Request::Accept(true)), vec![0, 0, 0, 2, 1, 1]);
}

#[test]
fn sent_response_is_read_back_by_a_client() {
    let response = Response::WantsRoom(User { key: counting_key() });
    let mut out = Vec::new();
    response.send_with(&mut out);
    match read_frame(&out, MAX_RESPONSE_LEN) {
        Framing::Complete { end } => {
            assert_eq!(end, out.len());
            assert_eq!(Response::decode(&out[4..end]), Some(response));
        }
        other => panic!("the frame was read as {:?}", other),
    }
}

#[test]
fn recv_req_reads_a_framed_request() {
    let request = Request::Room(User { key: counting_key() });
    let bytes = framed(request);
    assert_eq!(recv_req(&bytes), Received::Message { request, consumed: 37 });
    assert_eq!(
        recv_req(&framed(Request::Shutdown)),
        Received::Message { request: Request::Shutdown, consumed: 5 }
    );
}

#[test]
fn recv_req_leaves_what_follows_the_frame() {
    let mut bytes = framed(Request::Accept(false));
    bytes.extend_from_slice(&framed(Request::Heartbeat));
    assert_eq!(
        recv_req(&bytes),
        Received::Message { request: Request::Accept(false), consumed: 6 }
    );
    assert_eq!(
        recv_req(&bytes[6..]),
        Received::Message { request: Request::Heartbeat, consumed: 5 }
    );
}

#[test]
fn recv_req_asks_for_what_is_missing() {
    let bytes = framed(Request::Room(user(3)));
    assert_eq!(recv_req(&bytes[..0]), Received::Incomplete { missing: 4 });
    assert_eq!(recv_req(&bytes[..3]), Received::Incomplete { missing: 1 });
    assert_eq!(recv_req(&bytes[..4]), Received::Incomplete { missing: 33 });
    assert_eq!(recv_req(&bytes[..36]), Received::Incomplete { missing: 1 });
}

#[test]
fn recv_req_refuses_what_is_no_request() {
    assert_eq!(recv_req(&[0, 0, 0, 34]), Received::Malformed);
    assert_eq!(recv_req(&[0, 1, 0, 0]), Received::Malformed);
    assert_eq!(recv_req(&[0, 0, 0, 0]), Received::Malformed);
    assert_eq!(recv_req(&[0, 0, 0, 1, 9]), Received::Malformed);
    assert_eq!(recv_req(&[0, 0, 0, 2, 1, 7]), Received::Malformed);
    assert_eq!(recv_req(&[0, 0, 0, 2, 2, 2]), Received::Malformed);
}
