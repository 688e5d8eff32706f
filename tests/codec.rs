use snowcast::codec::{ClientToServerMessage, FrameError, MessageResult, ServerToClientMessage};

fn encode_client(m: ClientToServerMessage) -> Vec<u8> {
    let mut out = Vec::new();
    m.write(&mut out);
    out
}

fn encode_server(m: &ServerToClientMessage) -> Vec<u8> {
    let mut out = Vec::new();
    m.write(&mut out);
    out
}

#[test]
fn hello_bytes_are_tag_then_big_endian_port() {
    assert_eq!(encode_client(ClientToServerMessage::Hello { udp_port: 17000 }), vec![0, 0x42, 0x68]);
    assert_eq!(encode_client(ClientToServerMessage::SetStation { station_number: 258 }), vec![1, 1, 2]);
    assert_eq!(encode_client(ClientToServerMessage::GetQueue), vec![2]);
    assert_eq!(encode_client(ClientToServerMessage::ListStations), vec![3]);
}

#[test]
fn client_messages_round_trip_with_trailing_bytes() {
    let all = vec![
        ClientToServerMessage::Hello { udp_port: 65535 },
        ClientToServerMessage::SetStation { station_number: 0 },
        ClientToServerMessage::GetQueue,
        ClientToServerMessage::ListStations,
    ];
    for m in all {
        let mut bytes = encode_client(m);
        let n = bytes.len();
        bytes.extend_from_slice(&[9, 9, 9]);
        match ClientToServerMessage::read(&bytes) {
            Ok(MessageResult::Message((back, used))) => {
                assert_eq!(back, m);
                assert_eq!(used, n);
            }
            _ => panic!("message not read back"),
        }
    }
}

#[test]
fn client_read_edge_cases() {
    assert!(matches!(ClientToServerMessage::read(&[]), Ok(MessageResult::NoData)));
    assert!(matches!(ClientToServerMessage::read(&[7]), Ok(MessageResult::UnrecognizedMessage)));
    assert!(matches!(ClientToServerMessage::read(&[0, 1]), Err(FrameError::Truncated)));
    assert!(matches!(ClientToServerMessage::read(&[1]), Err(FrameError::Truncated)));
}

#[test]
fn announce_bytes_are_length_prefixed() {
    let m = ServerToClientMessage::Announce { song_name: "a.mp3".to_string() };
    assert_eq!(encode_server(&m), vec![1, 5, b'a', b'.', b'm', b'p', b'3']);
    let w = ServerToClientMessage::Welcome { num_stations: 3 };
    assert_eq!(encode_server(&w), vec![0, 0, 3]);
    assert_eq!(encode_server(&ServerToClientMessage::StationShutdown), vec![5]);
    assert_eq!(encode_server(&ServerToClientMessage::NewStation { station_num: 2 }), vec![6, 0, 2]);
}

#[test]
fn server_messages_round_trip() {
    let all = vec![
        ServerToClientMessage::Welcome { num_stations: 2 },
        ServerToClientMessage::Announce { song_name: "héllo ♪".to_string() },
        ServerToClientMessage::InvalidCommand { reason: "Station does not exist: 5.".to_string() },
        ServerToClientMessage::SongQueue { songs: vec!["a".to_string(), "".to_string(), "ccc".to_string()] },
        ServerToClientMessage::Stations { stations: vec![(0, "a.mp3".to_string()), (7, "b.mp3".to_string())] },
        ServerToClientMessage::StationShutdown,
        ServerToClientMessage::NewStation { station_num: 513 },
    ];
    for m in all {
        let mut bytes = encode_server(&m);
        let n = bytes.len();
        bytes.push(42);
        match ServerToClientMessage::read(&bytes) {
            Ok(MessageResult::Message((back, used))) => {
                assert_eq!(format!("{:?}", back), format!("{:?}", m));
                assert_eq!(used, n);
            }
            _ => panic!("message not read back"),
        }
    }
}

#[test]
fn stations_list_bytes() {
    let m = ServerToClientMessage::Stations { stations: vec![(1, "x".to_string())] };
    assert_eq!(encode_server(&m), vec![4, 0, 1, 0, 1, 1, b'x']);
}

#[test]
fn server_read_edge_cases() {
    assert!(matches!(ServerToClientMessage::read(&[]), Ok(MessageResult::NoData)));
    assert!(matches!(ServerToClientMessage::read(&[9, 1, 2]), Ok(MessageResult::UnrecognizedMessage)));
    assert!(matches!(ServerToClientMessage::read(&[1, 3, b'a']), Err(FrameError::Truncated)));
    assert!(matches!(ServerToClientMessage::read(&[3]), Err(FrameError::Truncated)));
    assert!(matches!(ServerToClientMessage::read(&[3, 2, 1, b'a']), Err(FrameError::Truncated)));
    assert!(matches!(ServerToClientMessage::read(&[4, 0, 1, 0, 1]), Err(FrameError::Truncated)));
    assert!(matches!(ServerToClientMessage::read(&[0, 1]), Err(FrameError::Truncated)));
}

#[test]
fn invalid_utf8_is_read_lossily() {
    match ServerToClientMessage::read(&[1, 2, 0xff, b'a']) {
        Ok(MessageResult::Message((ServerToClientMessage::Announce { song_name }, used))) => {
            assert_eq!(song_name, "\u{fffd}a");
            assert_eq!(used, 4);
        }
        _ => panic!("announce not read"),
    }
    match ServerToClientMessage::read(&[2, 3, b'a', b'b', b'c']) {
        Ok(MessageResult::Message((ServerToClientMessage::InvalidCommand { reason }, used))) => {
            assert_eq!(reason, "abc");
            assert_eq!(used, 5);
        }
        _ => panic!("reason not read"),
    }
}

#[test]
fn fits_checks_lengths() {
    assert!(ServerToClientMessage::Announce { song_name: "x".repeat(255) }.fits());
    assert!(!ServerToClientMessage::Announce { song_name: "x".repeat(256) }.fits());
    assert!(!ServerToClientMessage::InvalidCommand { reason: "é".repeat(128) }.fits());
    assert!(!ServerToClientMessage::SongQueue { songs: vec![String::new(); 256] }.fits());
    assert!(!ServerToClientMessage::SongQueue { songs: vec!["y".repeat(300)] }.fits());
    assert!(!ServerToClientMessage::Stations { stations: vec![(0, "z".repeat(256))] }.fits());
    assert!(ServerToClientMessage::Stations { stations: vec![(0, "z".to_string())] }.fits());
    assert!(ServerToClientMessage::StationShutdown.fits());
}
