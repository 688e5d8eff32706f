use snowcast::admin::{ReplOutcome, ReplToStationsMessage};
use snowcast::client::{Client, Endpoint};
use snowcast::codec::{ClientToServerMessage, MessageResult, ServerToClientMessage};
use snowcast::control::Session;
use snowcast::pacer::{Pacer, PACKET_PERIOD_US};
use snowcast::station::{Song, StationError};
use snowcast::stations::{RegistryError, Stations};

fn song(name: &str, len: usize) -> Song {
    Song { name: name.to_string(), data: vec![1u8; len] }
}

fn ep(port: u16) -> Endpoint {
    Endpoint { ip: 0x7f00_0001, port }
}

fn server(names: &[&str]) -> Stations {
    let mut s = Stations::new();
    for n in names {
        s.new_single(song(n, 5000)).unwrap();
    }
    s
}

fn hello(s: &mut Stations, port: u16, udp: u16) -> (Session, Vec<ServerToClientMessage>) {
    s.handle_message(Session::Init, ep(port), MessageResult::Message(ClientToServerMessage::Hello { udp_port: udp }))
}

fn set(s: &mut Stations, session: Session, station: u16) -> (Session, Vec<ServerToClientMessage>) {
    s.handle_message(session, ep(0), MessageResult::Message(ClientToServerMessage::SetStation { station_number: station }))
}

fn texts(v: &[ServerToClientMessage]) -> Vec<String> {
    v.iter().map(|m| format!("{:?}", m)).collect()
}

fn listeners(s: &Stations, station: u16) -> Vec<usize> {
    s.listeners_of(station).0
}

#[test]
fn hello_then_quit() {
    let mut s = server(&["a.mp3"]);
    let (session, out) = hello(&mut s, 50000, 17000);
    assert_eq!(session, Session::Active { num: 0 });
    assert_eq!(texts(&out), vec!["Welcome { num_stations: 1 }", "Announce { song_name: \"a.mp3\" }"]);
    let c = s.client(0).unwrap();
    assert_eq!(c.listener_addr(), Endpoint { ip: 0x7f00_0001, port: 17000 });
    assert_eq!(c.station(), Some(0));
    assert_eq!(listeners(&s, 0), vec![0]);
    assert!(s.detach(0));
    assert_eq!(s.all_clients(), Vec::<usize>::new());
    assert_eq!(listeners(&s, 0), Vec::<usize>::new());
}

#[test]
fn invalid_first_message() {
    let mut s = server(&["a.mp3"]);
    let (session, out) = s.handle_message(Session::Init, ep(1), MessageResult::Message(ClientToServerMessage::SetStation { station_number: 0 }));
    assert_eq!(session, Session::Closed);
    assert_eq!(texts(&out), vec!["InvalidCommand { reason: \"Must start with a hello message.\" }"]);
    assert_eq!(s.all_clients(), Vec::<usize>::new());
    let (session, out) = s.handle_message(Session::Init, ep(1), MessageResult::UnrecognizedMessage);
    assert_eq!(session, Session::Closed);
    assert_eq!(texts(&out), vec!["InvalidCommand { reason: \"Unrecognized command.\" }"]);
    let (session, out) = s.handle_message(Session::Init, ep(1), MessageResult::NoData);
    assert_eq!(session, Session::Init);
    assert!(out.is_empty());
}

#[test]
fn retune_scenario() {
    let mut s = server(&["a.mp3", "b.mp3"]);
    let (session, out) = hello(&mut s, 50000, 17000);
    assert_eq!(texts(&out)[1], "Announce { song_name: \"a.mp3\" }");
    let (session, out) = set(&mut s, session, 1);
    assert_eq!(session, Session::Active { num: 0 });
    assert_eq!(texts(&out), vec!["Announce { song_name: \"b.mp3\" }"]);
    assert_eq!(listeners(&s, 0), Vec::<usize>::new());
    assert_eq!(listeners(&s, 1), vec![0]);
}

#[test]
fn invalid_station() {
    let mut s = server(&["a.mp3", "b.mp3"]);
    let (session, _) = hello(&mut s, 50000, 17000);
    let (session, out) = set(&mut s, session, 5);
    assert_eq!(session, Session::Active { num: 0 });
    assert_eq!(texts(&out), vec!["InvalidCommand { reason: \"Station does not exist: 5.\" }"]);
    assert_eq!(s.client(0).unwrap().station(), Some(0));
    let (_, out) = set(&mut s, session, 65535);
    assert_eq!(texts(&out), vec!["InvalidCommand { reason: \"Station does not exist: 65535.\" }"]);
}

#[test]
fn add_station() {
    let mut s = server(&["a.mp3", "b.mp3"]);
    hello(&mut s, 50000, 17000);
    hello(&mut s, 50001, 17001);
    match s.handle_repl_message(ReplToStationsMessage::NewStation { songs: vec![song("c.mp3", 10)] }) {
        ReplOutcome::Notify { clients, message } => {
            assert_eq!(clients, vec![0, 1]);
            assert_eq!(format!("{:?}", message), "NewStation { station_num: 2 }");
        }
        _ => panic!("no notice"),
    }
    let (_, out) = hello(&mut s, 50002, 17002);
    assert_eq!(texts(&out)[0], "Welcome { num_stations: 3 }");
}

#[test]
fn rejected_station() {
    let mut s = server(&["a.mp3"]);
    match s.handle_repl_message(ReplToStationsMessage::NewStation { songs: vec![] }) {
        ReplOutcome::Rejected { error } => assert_eq!(error, StationError::EmptyPlaylist),
        _ => panic!("accepted"),
    }
    assert_eq!(s.num_stations(), 1);
}

#[test]
fn shutdown_station() {
    let mut s = server(&["a.mp3", "b.mp3"]);
    let (first, _) = hello(&mut s, 50000, 17000);
    let (second, _) = hello(&mut s, 50001, 17001);
    let (second, _) = set(&mut s, second, 1);
    match s.handle_repl_message(ReplToStationsMessage::Shutdown { station_num: 0 }) {
        ReplOutcome::Notify { clients, message } => {
            assert_eq!(clients, vec![0]);
            assert_eq!(format!("{:?}", message), "StationShutdown");
        }
        _ => panic!("no notice"),
    }
    assert_eq!(s.client(0).unwrap().station(), None);
    assert_eq!(s.client(1).unwrap().station(), Some(1));
    let (_, out) = set(&mut s, first, 0);
    assert_eq!(texts(&out), vec!["InvalidCommand { reason: \"Requested station is shut down: 0.\" }"]);
    assert!(matches!(s.handle_repl_message(ReplToStationsMessage::Shutdown { station_num: 0 }), ReplOutcome::AlreadyShutDown { station_num: 0 }));
    assert!(matches!(s.handle_repl_message(ReplToStationsMessage::Shutdown { station_num: 9 }), ReplOutcome::NoSuchStation { station_num: 9 }));
    assert_eq!(s.num_stations(), 1);
    let _ = second;
    // A new client is put on no station when station 0 is gone.
    let (_, out) = hello(&mut s, 50002, 17002);
    assert_eq!(texts(&out), vec!["Welcome { num_stations: 1 }"]);
    assert_eq!(s.client(2).unwrap().station(), None);
}

#[test]
fn repeat_hello_and_unknown_message_close_the_session() {
    let mut s = server(&["a.mp3"]);
    let (session, _) = hello(&mut s, 50000, 17000);
    let (closed, out) = s.handle_message(session, ep(50000), MessageResult::Message(ClientToServerMessage::Hello { udp_port: 1 }));
    assert_eq!(closed, Session::Closed);
    assert_eq!(texts(&out), vec!["InvalidCommand { reason: \"Repeat hello message.\" }"]);
    assert!(s.client(0).is_none());
    let (session, _) = hello(&mut s, 50001, 17001);
    let (closed, out) = s.handle_message(session, ep(50001), MessageResult::UnrecognizedMessage);
    assert_eq!(closed, Session::Closed);
    assert_eq!(texts(&out), vec!["InvalidCommand { reason: \"Unrecognized message.\" }"]);
    assert!(s.client(1).is_none());
    let (still, out) = s.handle_message(Session::Closed, ep(1), MessageResult::Message(ClientToServerMessage::GetQueue));
    assert_eq!(still, Session::Closed);
    assert!(out.is_empty());
}

#[test]
fn second_hello_from_same_endpoint_is_refused() {
    let mut s = server(&["a.mp3"]);
    hello(&mut s, 50000, 17000);
    let (session, out) = hello(&mut s, 50000, 17001);
    assert_eq!(session, Session::Closed);
    assert_eq!(texts(&out), vec!["InvalidCommand { reason: \"User already exists.\" }"]);
    assert_eq!(s.attach(ep(50000), 1), Err(RegistryError::UserExists));
}

#[test]
fn queue_and_station_list() {
    let mut s = Stations::new();
    s.new_looping(vec![song("x", 3000), song("y", 10)]).unwrap();
    s.new_single(song("z", 10)).unwrap();
    let (session, _) = hello(&mut s, 50000, 17000);
    let (_, out) = s.handle_message(session, ep(50000), MessageResult::Message(ClientToServerMessage::GetQueue));
    assert_eq!(texts(&out), vec!["SongQueue { songs: [\"x\", \"y\", \"x\", \"y\", \"x\"] }"]);
    let (_, out) = s.handle_message(session, ep(50000), MessageResult::Message(ClientToServerMessage::ListStations));
    assert_eq!(texts(&out), vec!["Stations { stations: [(0, \"x\"), (1, \"z\")] }"]);
    assert_eq!(s.current_songs(), vec![(0, "x".to_string()), (1, "z".to_string())]);
}

#[test]
fn retune_twice_to_the_same_station() {
    let mut s = server(&["a", "b"]);
    hello(&mut s, 50000, 17000);
    assert_eq!(s.retune(0, 1), Ok("b".to_string()));
    let once = s.client(0).unwrap();
    assert_eq!(s.retune(0, 1), Ok("b".to_string()));
    assert_eq!(s.client(0).unwrap(), once);
    assert_eq!(listeners(&s, 1), vec![0]);
    assert_eq!(s.retune(7, 1), Err(RegistryError::UserMissing));
}

#[test]
fn tick_sends_one_packet_per_listener_and_one_announce() {
    let mut s = server(&["a", "b"]);
    hello(&mut s, 50000, 17000);
    hello(&mut s, 50001, 17001);
    hello(&mut s, 50002, 17002);
    s.retune(2, 1).unwrap();
    let out = s.update_all_packets();
    assert_eq!(out.len(), 2);
    let b0 = out[0].as_ref().unwrap();
    assert_eq!(b0.packet.len(), 1024);
    assert_eq!(b0.listeners, vec![0, 1]);
    assert_eq!(b0.destinations, vec![ep(17000), ep(17001)]);
    assert_eq!(b0.announce, Some("a".to_string()));
    let b1 = out[1].as_ref().unwrap();
    assert_eq!(b1.listeners, vec![2]);
    assert_eq!(b1.destinations, vec![ep(17002)]);
    let again = s.update_all_packets();
    assert_eq!(again[0].as_ref().unwrap().announce, None);
    s.handle_repl_message(ReplToStationsMessage::Shutdown { station_num: 1 });
    let after = s.update_all_packets();
    assert!(after[1].is_none());
}

#[test]
fn listing_and_shutdown_all() {
    let mut s = server(&["a", "b"]);
    hello(&mut s, 50000, 17000);
    match s.handle_repl_message(ReplToStationsMessage::ListListeners) {
        ReplOutcome::Listing { stations } => {
            assert_eq!(stations.len(), 2);
            let first = stations[0].as_ref().unwrap();
            assert_eq!(first.song, "a");
            assert_eq!(first.listeners, vec![ep(17000)]);
            assert!(stations[1].as_ref().unwrap().listeners.is_empty());
        }
        _ => panic!("no listing"),
    }
    match s.handle_repl_message(ReplToStationsMessage::ShutdownAll) {
        ReplOutcome::Exit { clients, .. } => assert_eq!(clients, vec![0]),
        _ => panic!("no exit"),
    }
}

#[test]
fn client_record() {
    let mut c = Client::create(4, ep(9), 17000);
    assert_eq!(c.num(), 4);
    assert_eq!(c.listener_addr(), ep(17000));
    assert_eq!(c.station(), None);
    c.set_station(Some(2));
    assert_eq!(c.station(), Some(2));
}

#[test]
fn pacer_keeps_the_rate() {
    let mut p = Pacer::new(1000);
    let mut sent = 0u64;
    // A late reading sends every packet it missed.
    while p.poll(1000 + 10 * PACKET_PERIOD_US) {
        sent += 1;
    }
    assert_eq!(sent, 11);
    assert_eq!(p.packets_sent(), 11);
    assert_eq!(p.next_deadline(), 1000 + 11 * PACKET_PERIOD_US);
    assert!(!p.poll(1000 + 11 * PACKET_PERIOD_US - 1));
    assert!(p.poll(1000 + 11 * PACKET_PERIOD_US));
    // One second of uptime is sixteen packets of 1024 bytes, plus the one due at the start.
    let mut q = Pacer::new(0);
    while q.poll(1_000_000 - 1) {}
    assert_eq!(q.packets_sent() * 1024, 16384);
}

