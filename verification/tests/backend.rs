use helium_api::backend::{Action, Notice, BAUD_RATE, READ_TIMEOUT_MS};
use helium_api::cobs::encode;
use helium_api::{AppState, HeliumBackend, Query};

fn opened_backend() -> HeliumBackend {
    let mut b = HeliumBackend::new();
    assert!(matches!(b.update(Query::OpenPort("/dev/ttyUSB0".to_string())), Action::OpenPort(_)));
    b.port_opened();
    b
}

#[test]
fn it_works() {}

#[test]
fn new_backend_waits_for_a_port() {
    let b = HeliumBackend::new();
    assert_eq!(b.get_state(), AppState::Unselect);
}

#[test]
fn open_port_asks_for_the_port_settings() {
    let mut b = HeliumBackend::new();
    match b.update(Query::OpenPort("COM3".to_string())) {
        Action::OpenPort(s) => {
            assert_eq!(s.name, "COM3");
            assert_eq!(s.baud_rate, 115200);
            assert_eq!(s.timeout_ms, 10);
            assert_eq!(BAUD_RATE, 115200);
            assert_eq!(READ_TIMEOUT_MS, 10);
        }
        _ => panic!("expected an open request"),
    }
    assert_eq!(b.get_state(), AppState::Unselect);
    b.port_opened();
    assert_eq!(b.get_state(), AppState::Logging);
}

#[test]
fn open_port_twice_is_refused() {
    let mut b = opened_backend();
    assert!(matches!(b.open_port("COM4"), Action::Report(Notice::PortAlreadyOpen)));
    assert_eq!(b.get_state(), AppState::Logging);
}

#[test]
fn send_frames_the_data() {
    let b = opened_backend();
    match b.send(&vec![0x11, 0x00, 0x22]) {
        Action::Write(bytes) => assert_eq!(bytes, vec![0x02, 0x11, 0x02, 0x22, 0x00]),
        _ => panic!("expected a write"),
    }
    let closed = HeliumBackend::new();
    assert!(matches!(closed.send(&vec![1]), Action::Report(Notice::PortNotOpen)));
}

#[test]
fn send_query_writes_only_with_open_port() {
    let mut b = HeliumBackend::new();
    assert!(matches!(b.update(Query::SendData(vec![5])), Action::Report(Notice::PortNotOpen)));
    let mut b = opened_backend();
    match b.update(Query::SendData(vec![5])) {
        Action::Write(bytes) => assert_eq!(bytes, vec![0x02, 0x05, 0x00]),
        _ => panic!("expected a write"),
    }
}

#[test]
fn receive_returns_complete_packets_in_order() {
    let mut b = opened_backend();
    let mut stream = encode(&[1, 2, 3]);
    stream.extend(encode(&[4, 0, 5]));
    stream.extend_from_slice(&[0x03, 0x09]);
    let packets = b.receive(&stream);
    assert_eq!(packets, vec![vec![1, 2, 3], vec![4, 0, 5]]);
    // The partial third frame completes with the next read.
    let packets = b.receive(&[0x09, 0x00]);
    assert_eq!(packets, vec![vec![0x09, 0x09]]);
}

#[test]
fn receive_is_independent_of_how_reads_are_cut() {
    let mut stream = Vec::new();
    for p in [vec![7u8, 7, 7], vec![0u8, 1], vec![42u8]] {
        stream.extend(encode(&p));
    }
    let mut whole = opened_backend();
    let all = whole.receive(&stream);
    for cut in 0..stream.len() {
        let mut b = opened_backend();
        let mut got = b.receive(&stream[..cut]);
        got.extend(b.receive(&stream[cut..]));
        assert_eq!(got, all);
    }
    assert_eq!(all, vec![vec![7, 7, 7], vec![0, 1], vec![42]]);
}

#[test]
fn sent_frame_is_received() {
    let mut sender = opened_backend();
    let mut receiver = opened_backend();
    let data = vec![0x10, 0x00, 0xFF, 0x00];
    let bytes = match sender.update(Query::SendData(data.clone())) {
        Action::Write(bytes) => bytes,
        _ => panic!("expected a write"),
    };
    assert_eq!(receiver.receive(&bytes), vec![data]);
    assert!(receiver.receive(&[]).is_empty());
}

#[test]
fn empty_packet_stops_draining() {
    let mut b = opened_backend();
    let mut stream = encode(&[]);
    stream.extend(encode(&[1]));
    assert!(b.receive(&stream).is_empty());
    // The stalled frame still heads the buffer.
    assert!(b.receive(&encode(&[2])).is_empty());
}

#[test]
fn close_port_drops_buffered_bytes() {
    let mut b = opened_backend();
    assert!(b.receive(&[0x03, 0x01]).is_empty());
    assert!(matches!(b.update(Query::ClosePort), Action::ClosePort));
    assert_eq!(b.get_state(), AppState::Unselect);
    assert!(matches!(b.close_port(), Action::Report(Notice::PortNotOpen)));
    b.update(Query::OpenPort("p".to_string()));
    b.port_opened();
    // Without the dropped bytes, this frame stands alone.
    assert_eq!(b.receive(&encode(&[8])), vec![vec![8]]);
}

#[test]
fn read_errors() {
    let mut b = opened_backend();
    assert!(!b.read_failed(true));
    assert_eq!(b.get_state(), AppState::Logging);
    assert!(b.read_failed(false));
    assert_eq!(b.get_state(), AppState::Unselect);
    assert!(matches!(b.update(Query::SendData(vec![1])), Action::Report(Notice::PortNotOpen)));
}

#[test]
fn replies_and_quit() {
    let mut b = opened_backend();
    assert!(matches!(b.update(Query::GetAppState), Action::ReplyState(AppState::Logging)));
    assert!(matches!(b.update(Query::GetSerialPort), Action::ListPorts));
    assert!(matches!(b.update(Query::GetDataBase), Action::ReplyDataBase));
    assert!(matches!(b.update(Query::Quit), Action::Nothing));
    assert_eq!(b.get_state(), AppState::Quit);
    assert!(matches!(b.update(Query::GetAppState), Action::ReplyState(AppState::Quit)));
}
