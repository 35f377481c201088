use crusty::relay::{take_chunk, Action, BackendExchange, ClientRead, Session, SessionEnd};

#[test]
fn take_chunk_keeps_short_data_whole() {
    let data: Vec<u8> = vec![1, 2, 3];
    assert_eq!(take_chunk(&data, 1024), vec![1, 2, 3]);
}

#[test]
fn take_chunk_truncates_to_the_buffer_size() {
    let data: Vec<u8> = (0..200).map(|i| (i % 256) as u8).collect();
    let c = take_chunk(&data, 64);
    assert_eq!(c.len(), 64);
    assert_eq!(c[..], data[..64]);
}

#[test]
fn session_is_bound_to_its_target_and_buffer() {
    let s = Session::new(String::from("backend:9000"), 1024);
    assert_eq!(s.target(), "backend:9000");
    assert_eq!(s.buffer_size(), 1024);
}

#[test]
fn empty_read_means_the_client_closed() {
    let s = Session::new(String::from("t"), 8);
    match s.on_client_read(ClientRead::Data(Vec::new())) {
        Action::Stop(e) => assert_eq!(e, SessionEnd::ClientClosed),
        _ => panic!("a session whose client closed must stop"),
    }
}

#[test]
fn failed_read_stops_the_session() {
    let s = Session::new(String::from("t"), 8);
    match s.on_client_read(ClientRead::Failed) {
        Action::Stop(e) => assert_eq!(e, SessionEnd::ClientReadFailed),
        _ => panic!("a session whose client read failed must stop"),
    }
}

#[test]
fn each_backend_failure_stops_the_session() {
    let s = Session::new(String::from("t"), 8);
    let cases = [
        (BackendExchange::ConnectFailed, SessionEnd::BackendConnectFailed),
        (BackendExchange::WriteFailed, SessionEnd::BackendWriteFailed),
        (BackendExchange::ReadFailed, SessionEnd::BackendReadFailed),
    ];
    for (ex, end) in cases {
        match s.on_backend_exchange(ex) {
            Action::Stop(e) => assert_eq!(e, end),
            _ => panic!("a failed backend exchange must stop the session"),
        }
    }
}

#[test]
fn echo_backend_round_trips_a_payload_within_the_buffer() {
    let s = Session::new(String::from("t"), 4);
    let payload: Vec<u8> = vec![10, 20, 30];
    let sent = match s.on_client_read(ClientRead::Data(payload.clone())) {
        Action::SendToBackend(b) => b,
        _ => panic!("a non-empty read must be forwarded"),
    };
    assert_eq!(sent, payload);
    let reply = sent.clone();
    match s.on_backend_exchange(BackendExchange::Reply(reply)) {
        Action::ReplyToClient(w) => assert_eq!(w, payload),
        _ => panic!("a backend reply must be relayed to the client"),
    }
}

#[test]
fn oversized_payload_is_truncated_for_the_cycle() {
    let s = Session::new(String::from("t"), 4);
    let payload: Vec<u8> = vec![1, 2, 3, 4, 5, 6, 7];
    let sent = match s.on_client_read(ClientRead::Data(payload.clone())) {
        Action::SendToBackend(b) => b,
        _ => panic!("a non-empty read must be forwarded"),
    };
    assert_eq!(sent, vec![1, 2, 3, 4]);
}

#[test]
fn failed_client_write_stops_the_session() {
    let s = Session::new(String::from("t"), 8);
    assert_eq!(s.on_client_write(true), None);
    assert_eq!(s.on_client_write(false), Some(SessionEnd::ClientWriteFailed));
}

#[test]
fn backend_reply_is_bounded_by_the_buffer_size() {
    let s = Session::new(String::from("t"), 4);
    match s.on_backend_exchange(BackendExchange::Reply(vec![9, 9, 9, 9, 9, 9])) {
        Action::ReplyToClient(w) => assert_eq!(w, vec![9, 9, 9, 9]),
        _ => panic!("a backend reply must be relayed to the client"),
    }
}

#[test]
fn reply_longer_than_the_sent_bytes_is_relayed_verbatim() {
    let s = Session::new(String::from("t"), 8);
    let sent = match s.on_client_read(ClientRead::Data(vec![7, 7])) {
        Action::SendToBackend(b) => b,
        _ => panic!("a non-empty read must be forwarded"),
    };
    assert_eq!(sent, vec![7, 7]);
    match s.on_backend_exchange(BackendExchange::Reply(vec![9, 9, 9, 9])) {
        Action::ReplyToClient(w) => assert_eq!(w, vec![9, 9, 9, 9]),
        _ => panic!("a backend reply must be relayed to the client"),
    }
}

#[test]
fn short_backend_reply_is_relayed_whole() {
    let s = Session::new(String::from("t"), 8);
    match s.on_backend_exchange(BackendExchange::Reply(vec![5])) {
        Action::ReplyToClient(w) => assert_eq!(w, vec![5]),
        _ => panic!("a backend reply must be relayed to the client"),
    }
}
