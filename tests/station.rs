use snowcast::iter_mem::{IterMem, IterRoot};
use snowcast::station::{Song, Station, StationError, BYTES_PER_PACKET};

fn song(name: &str, data: &[u8]) -> Song {
    Song { name: name.to_string(), data: data.to_vec() }
}

fn names(v: &[&str]) -> Vec<String> {
    v.iter().map(|s| s.to_string()).collect()
}

#[test]
fn iter_mem_peeks_without_moving() {
    let mut m = IterMem::new(names(&["a", "b", "c"]));
    assert_eq!(m.peek(5), names(&["a", "b", "c", "a", "b"]));
    assert_eq!(m.peek(2), names(&["a", "b"]));
    assert_eq!(m.next(), Some("a".to_string()));
    assert_eq!(m.peek(4), names(&["b", "c", "a", "b"]));
    assert_eq!(m.next(), Some("b".to_string()));
    assert_eq!(m.next(), Some("c".to_string()));
    assert_eq!(m.next(), Some("a".to_string()));
}

#[test]
fn iter_mem_over_nothing() {
    let mut m = IterMem::new(Vec::new());
    assert_eq!(m.peek(3), Vec::<String>::new());
    assert_eq!(m.next(), None);
}

#[test]
fn iter_root_ranges() {
    let mut r = IterRoot::new(names(&["x", "y"]));
    assert_eq!(r.get(3), Some("y".to_string()));
    assert_eq!(r.get_range(1, 4), names(&["y", "x", "y"]));
    assert_eq!(r.get_range(4, 2), Vec::<String>::new());
    r.ensure(10);
    assert_eq!(r.get(0), Some("x".to_string()));
}

#[test]
fn playlist_errors() {
    assert_eq!(Station::new(0, vec![]).err(), Some(StationError::EmptyPlaylist));
    assert_eq!(Station::new(0, vec![song("a", &[1]), song("b", &[])]).err(), Some(StationError::EmptySong));
    let long = "n".repeat(256);
    assert_eq!(Station::new(0, vec![song(&long, &[1])]).err(), Some(StationError::NameTooLong));
    assert!(Station::new(0, vec![song(&"n".repeat(255), &[1])]).is_ok());
}

#[test]
fn packet_cycles_the_playlist_and_names_the_last_song_started() {
    let mut st = Station::new(3, vec![song("a", &[1, 2, 3]), song("b", &[4, 5])]).ok().unwrap();
    assert_eq!(st.num(), 3);
    let (packet, announce) = st.produce_packet();
    assert_eq!(packet.len(), BYTES_PER_PACKET);
    let expected: Vec<u8> = [1u8, 2, 3, 4, 5].iter().cycle().take(1024).cloned().collect();
    assert_eq!(packet, expected);
    // 1024 = 204 * 5 + 4: the last byte of the packet is the first of "b".
    assert_eq!(announce, Some("b".to_string()));
    assert_eq!(st.current_song(), "b");
    let (packet2, announce2) = st.produce_packet();
    assert_eq!(&packet2[..3], &[5, 1, 2]);
    // The packet ends two bytes into "a", which started after the last "b".
    assert_eq!(announce2, Some("a".to_string()));
}

#[test]
fn first_packet_announces_the_first_song() {
    let mut st = Station::new(0, vec![song("a.mp3", &vec![7u8; 3000])]).ok().unwrap();
    let (p, a) = st.produce_packet();
    assert_eq!(p, vec![7u8; 1024]);
    assert_eq!(a, Some("a.mp3".to_string()));
    let (_, a2) = st.produce_packet();
    assert_eq!(a2, None);
    let (_, a3) = st.produce_packet();
    assert_eq!(a3, Some("a.mp3".to_string()));
}

#[test]
fn queue_lists_the_playing_song_first() {
    let mut st = Station::new(0, vec![song("a", &vec![0u8; 1500]), song("b", &[1]), song("c", &[2])]).ok().unwrap();
    assert_eq!(st.get_queue(), names(&["a", "b", "c", "a", "b"]));
    st.produce_packet();
    assert_eq!(st.get_queue(), names(&["a", "b", "c", "a", "b"]));
    st.produce_packet();
    // 2048 bytes: "a" (1500), "b" (1), "c" (1), then 546 bytes into "a" again.
    assert_eq!(st.current_song(), "a");
}

#[test]
fn peeking_does_not_change_the_stream() {
    let songs = || vec![song("a", &[1, 2, 3, 4, 5, 6, 7]), song("b", &[8, 9])];
    let mut peeked = Station::new(0, songs()).ok().unwrap();
    let mut plain = Station::new(0, songs()).ok().unwrap();
    for _ in 0..3 {
        peeked.get_queue();
        peeked.get_queue();
        assert_eq!(peeked.produce_packet(), plain.produce_packet());
    }
}
