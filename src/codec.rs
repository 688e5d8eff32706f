//! Framing of control messages: a tag byte, then a body of big-endian
//! integers and length-prefixed UTF-8 strings.

use vstd::prelude::*;
use vstd::utf8::*;

verus! {

broadcast use vstd::utf8::group_utf8_lib;

/// What a read of the control channel produced.
pub enum MessageResult<T> {
    NoData,
    UnrecognizedMessage,
    Message(T),
}

/// The buffer ends before the message whose tag it starts with.
#[derive(PartialEq, Eq, Structural, Clone, Copy, Debug)]
pub enum FrameError {
    Truncated,
}

/// The meaning of the start of a buffer: a message with the number of bytes it
/// takes, or the reason there is none.
pub enum Frame<V> {
    NoData,
    Unrecognized,
    Message(V, nat),
    Truncated,
}

/// The frame that a read result stands for.
pub open spec fn frame_of<T: View>(r: Result<MessageResult<(T, usize)>, FrameError>) -> Frame<T::V> {
    match r {
        Ok(MessageResult::NoData) => Frame::NoData,
        Ok(MessageResult::UnrecognizedMessage) => Frame::Unrecognized,
        Ok(MessageResult::Message((m, n))) => Frame::Message(m@, n as nat),
        Err(_) => Frame::Truncated,
    }
}

// ----- integers -----

/// The two bytes of `v`, most significant first.
pub open spec fn be_u16(v: u16) -> Seq<u8> {
    seq![(v / 256) as u8, (v % 256) as u8]
}

/// The value of two bytes read most significant first.
pub open spec fn u16_of(hi: u8, lo: u8) -> u16 {
    (hi as int * 256 + lo as int) as u16
}

/// Appends `v` to `out`, most significant byte first.
fn put_u16(out: &mut Vec<u8>, v: u16)
    ensures
        final(out)@ == old(out)@ + be_u16(v),
{
    let hi: u8 = (v / 256) as u8;
    let lo: u8 = (v % 256) as u8;
    out.push(hi);
    out.push(lo);
    proof {
        assert(final(out)@ =~= old(out)@ + be_u16(v));
    }
}

/// The integer at position `i`, and the position after it.
pub open spec fn u16_at(b: Seq<u8>, i: int) -> Option<(u16, int)> {
    if 0 <= i && i + 2 <= b.len() {
        Some((u16_of(b[i], b[i + 1]), i + 2))
    } else {
        None
    }
}

fn get_u16(b: &[u8], i: usize) -> (r: Option<(u16, usize)>)
    ensures
        match r {
            Some((v, j)) => u16_at(b@, i as int) == Some((v, j as int)),
            None => u16_at(b@, i as int) is None,
        },
{
    if i < b.len() && b.len() - i >= 2 {
        let v: u16 = b[i] as u16 * 256 + b[i + 1] as u16;
        Some((v, i + 2))
    } else {
        None
    }
}

proof fn lemma_u16_round_trip(v: u16)
    ensures
        u16_of(be_u16(v)[0], be_u16(v)[1]) == v,
{
}

// ----- strings -----

/// A string fits the one-byte length prefix.
pub open spec fn text_fits(s: Seq<char>) -> bool {
    encode_utf8(s).len() <= 255
}

/// A string on the wire: its length in bytes, then its UTF-8 bytes.
pub open spec fn str_enc(s: Seq<char>) -> Seq<u8> {
    seq![encode_utf8(s).len() as u8] + encode_utf8(s)
}

/// What `String::from_utf8_lossy` makes of bytes that are not UTF-8.
pub uninterp spec fn lossy_utf8(b: Seq<u8>) -> Seq<char>;

/// The text that a reader takes from string bytes.
pub open spec fn text_of(b: Seq<u8>) -> Seq<char> {
    if valid_utf8(b) {
        decode_utf8(b)
    } else {
        lossy_utf8(b)
    }
}

/// Relies on `String::from_utf8_lossy`: UTF-8 input is decoded as it is, and
/// what it makes of other input depends on the bytes alone.
#[verifier::external_body]
fn take_text(b: &[u8]) -> (r: String)
    ensures
        r@ == (if valid_utf8(b@) {
            decode_utf8(b@)
        } else {
            lossy_utf8(b@)
        }),
{
    String::from_utf8_lossy(b).into_owned()
}

/// The string at position `i`, and the position after it.
pub open spec fn str_at(b: Seq<u8>, i: int) -> Option<(Seq<char>, int)> {
    if 0 <= i < b.len() && i + 1 + b[i] <= b.len() {
        Some((text_of(b.subrange(i + 1, i + 1 + b[i])), i + 1 + b[i]))
    } else {
        None
    }
}

fn put_str(out: &mut Vec<u8>, s: &String)
    requires
        text_fits(s@),
    ensures
        final(out)@ == old(out)@ + str_enc(s@),
{
    let ghost start = out@;
    let bytes: &[u8] = s.as_str().as_bytes();
    let n: usize = bytes.len();
    out.push(n as u8);
    let mut i: usize = 0;
    while i < n
        invariant
            n == bytes@.len(),
            bytes@ == encode_utf8(s@),
            n <= 255,
            i <= n,
            out@ == start + seq![n as u8] + bytes@.subrange(0, i as int),
        decreases n - i,
    {
        out.push(bytes[i]);
        i = i + 1;
        proof {
            assert(out@ =~= start + seq![n as u8] + bytes@.subrange(0, i as int));
        }
    }
    proof {
        assert(bytes@.subrange(0, n as int) =~= bytes@);
        assert(out@ =~= start + str_enc(s@));
    }
}

fn get_str(b: &[u8], i: usize) -> (r: Option<(String, usize)>)
    ensures
        match r {
            Some((s, j)) => str_at(b@, i as int) == Some((s@, j as int)),
            None => str_at(b@, i as int) is None,
        },
{
    if i < b.len() {
        let n: usize = b[i] as usize;
        if b.len() - i - 1 >= n {
            let text = take_text(&b[i + 1..i + 1 + n]);
            Some((text, i + 1 + n))
        } else {
            None
        }
    } else {
        None
    }
}

proof fn lemma_str_round_trip(b: Seq<u8>, i: int, s: Seq<char>)
    requires
        text_fits(s),
        0 <= i,
        i + str_enc(s).len() <= b.len(),
        b.subrange(i, i + str_enc(s).len()) == str_enc(s),
    ensures
        str_at(b, i) == Some((s, i + str_enc(s).len())),
{
    let e = encode_utf8(s);
    assert(b[i] == str_enc(s)[0]);
    assert(b.subrange(i + 1, i + 1 + e.len()) =~= b.subrange(i, i + str_enc(s).len()).subrange(
        1,
        1 + e.len() as int,
    ));
    assert(str_enc(s).subrange(1, 1 + e.len() as int) =~= e);
}

// ----- controller to server -----

/// A controller's message, as a value.
pub enum ClientMessage {
    Hello(u16),
    SetStation(u16),
    GetQueue,
    ListStations,
}

/// Message from a controller to the server.
#[derive(PartialEq, Eq, Structural, Clone, Copy, Debug)]
pub enum ClientToServerMessage {
    Hello { udp_port: u16 },
    SetStation { station_number: u16 },
    GetQueue,
    ListStations,
}

impl View for ClientToServerMessage {
    type V = ClientMessage;

    open spec fn view(&self) -> ClientMessage {
        match *self {
            ClientToServerMessage::Hello { udp_port } => ClientMessage::Hello(udp_port),
            ClientToServerMessage::SetStation { station_number } => ClientMessage::SetStation(
                station_number,
            ),
            ClientToServerMessage::GetQueue => ClientMessage::GetQueue,
            ClientToServerMessage::ListStations => ClientMessage::ListStations,
        }
    }
}

impl ClientMessage {
    /// The bytes of the message on the wire.
    pub open spec fn encoding(self) -> Seq<u8> {
        match self {
            ClientMessage::Hello(p) => seq![0u8] + be_u16(p),
            ClientMessage::SetStation(s) => seq![1u8] + be_u16(s),
            ClientMessage::GetQueue => seq![2u8],
            ClientMessage::ListStations => seq![3u8],
        }
    }
}

/// How the start of `b` reads as a controller's message.
pub open spec fn parse_client(b: Seq<u8>) -> Frame<ClientMessage> {
    if b.len() == 0 {
        Frame::NoData
    } else if b[0] == 0 {
        match u16_at(b, 1) {
            Some((p, j)) => Frame::Message(ClientMessage::Hello(p), j as nat),
            None => Frame::Truncated,
        }
    } else if b[0] == 1 {
        match u16_at(b, 1) {
            Some((s, j)) => Frame::Message(ClientMessage::SetStation(s), j as nat),
            None => Frame::Truncated,
        }
    } else if b[0] == 2 {
        Frame::Message(ClientMessage::GetQueue, 1)
    } else if b[0] == 3 {
        Frame::Message(ClientMessage::ListStations, 1)
    } else {
        Frame::Unrecognized
    }
}

impl ClientToServerMessage {
    /// Appends the message's bytes to `out`.
    pub fn write(&self, out: &mut Vec<u8>)
        ensures
            final(out)@ == old(out)@ + self@.encoding(),
    {
        let ghost start = out@;
        match self {
            ClientToServerMessage::Hello { udp_port } => {
                out.push(0);
                put_u16(out, *udp_port);
            },
            ClientToServerMessage::SetStation { station_number } => {
                out.push(1);
                put_u16(out, *station_number);
            },
            ClientToServerMessage::GetQueue => {
                out.push(2);
            },
            ClientToServerMessage::ListStations => {
                out.push(3);
            },
        }
        proof {
            assert(out@ =~= start + self@.encoding());
        }
    }

    /// Reads the message at the start of `b`, with the number of bytes it takes.
    pub fn read(b: &[u8]) -> (r: Result<MessageResult<(Self, usize)>, FrameError>)
        ensures
            frame_of(r) == parse_client(b@),
    {
        if b.len() == 0 {
            return Ok(MessageResult::NoData);
        }
        let tag = b[0];
        if tag == 0 || tag == 1 {
            match get_u16(b, 1) {
                Some((v, j)) => {
                    let m = if tag == 0 {
                        ClientToServerMessage::Hello { udp_port: v }
                    } else {
                        ClientToServerMessage::SetStation { station_number: v }
                    };
                    Ok(MessageResult::Message((m, j)))
                },
                None => Err(FrameError::Truncated),
            }
        } else if tag == 2 {
            Ok(MessageResult::Message((ClientToServerMessage::GetQueue, 1)))
        } else if tag == 3 {
            Ok(MessageResult::Message((ClientToServerMessage::ListStations, 1)))
        } else {
            Ok(MessageResult::UnrecognizedMessage)
        }
    }
}

/// Reading back what a controller wrote gives the same message, whatever follows it.
pub proof fn lemma_client_round_trip(m: ClientMessage, rest: Seq<u8>)
    ensures
        parse_client(m.encoding() + rest) == Frame::Message(m, m.encoding().len()),
{
    let b = m.encoding() + rest;
    match m {
        ClientMessage::Hello(p) => {
            lemma_u16_round_trip(p);
        },
        ClientMessage::SetStation(s) => {
            lemma_u16_round_trip(s);
        },
        _ => {},
    }
}

// ----- server to controller -----

/// A server's message, as a value.
pub enum ServerMessage {
    Welcome(u16),
    Announce(Seq<char>),
    InvalidCommand(Seq<char>),
    SongQueue(Seq<Seq<char>>),
    Stations(Seq<(u16, Seq<char>)>),
    StationShutdown,
    NewStation(u16),
}

/// Strings one after another.
pub open spec fn strs_enc(ss: Seq<Seq<char>>) -> Seq<u8>
    decreases ss.len(),
{
    if ss.len() == 0 {
        Seq::empty()
    } else {
        strs_enc(ss.drop_last()) + str_enc(ss.last())
    }
}

/// Station entries one after another: the number, then the song.
pub open spec fn entries_enc(es: Seq<(u16, Seq<char>)>) -> Seq<u8>
    decreases es.len(),
{
    if es.len() == 0 {
        Seq::empty()
    } else {
        entries_enc(es.drop_last()) + be_u16(es.last().0) + str_enc(es.last().1)
    }
}

impl ServerMessage {
    /// The bytes of the message on the wire.
    pub open spec fn encoding(self) -> Seq<u8> {
        match self {
            ServerMessage::Welcome(n) => seq![0u8] + be_u16(n),
            ServerMessage::Announce(s) => seq![1u8] + str_enc(s),
            ServerMessage::InvalidCommand(s) => seq![2u8] + str_enc(s),
            ServerMessage::SongQueue(ss) => seq![3u8, ss.len() as u8] + strs_enc(ss),
            ServerMessage::Stations(es) => seq![4u8] + be_u16(es.len() as u16) + entries_enc(es),
            ServerMessage::StationShutdown => seq![5u8],
            ServerMessage::NewStation(n) => seq![6u8] + be_u16(n),
        }
    }

    /// Every string fits its length byte and every list its count.
    pub open spec fn fits(self) -> bool {
        match self {
            ServerMessage::Announce(s) => text_fits(s),
            ServerMessage::InvalidCommand(s) => text_fits(s),
            ServerMessage::SongQueue(ss) => ss.len() <= 255 && forall|i: int|
                0 <= i < ss.len() ==> text_fits(#[trigger] ss[i]),
            ServerMessage::Stations(es) => es.len() <= 65535 && forall|i: int|
                0 <= i < es.len() ==> text_fits(#[trigger] es[i].1),
            _ => true,
        }
    }
}

/// `count` strings read one after another from position `i`.
pub open spec fn strs_at(b: Seq<u8>, i: int, count: nat) -> Option<(Seq<Seq<char>>, int)>
    decreases count,
{
    if count == 0 {
        Some((Seq::empty(), i))
    } else {
        match strs_at(b, i, (count - 1) as nat) {
            Some((ss, j)) => match str_at(b, j) {
                Some((s, k)) => Some((ss.push(s), k)),
                None => None,
            },
            None => None,
        }
    }
}

/// `count` station entries read one after another from position `i`.
pub open spec fn entries_at(b: Seq<u8>, i: int, count: nat) -> Option<(Seq<(u16, Seq<char>)>, int)>
    decreases count,
{
    if count == 0 {
        Some((Seq::empty(), i))
    } else {
        match entries_at(b, i, (count - 1) as nat) {
            Some((es, j)) => match u16_at(b, j) {
                Some((n, k)) => match str_at(b, k) {
                    Some((s, l)) => Some((es.push((n, s)), l)),
                    None => None,
                },
                None => None,
            },
            None => None,
        }
    }
}

/// How the start of `b` reads as a server's message.
pub open spec fn parse_server(b: Seq<u8>) -> Frame<ServerMessage> {
    if b.len() == 0 {
        Frame::NoData
    } else if b[0] == 0 || b[0] == 6 {
        match u16_at(b, 1) {
            Some((n, j)) => Frame::Message(
                if b[0] == 0 {
                    ServerMessage::Welcome(n)
                } else {
                    ServerMessage::NewStation(n)
                },
                j as nat,
            ),
            None => Frame::Truncated,
        }
    } else if b[0] == 1 || b[0] == 2 {
        match str_at(b, 1) {
            Some((s, j)) => Frame::Message(
                if b[0] == 1 {
                    ServerMessage::Announce(s)
                } else {
                    ServerMessage::InvalidCommand(s)
                },
                j as nat,
            ),
            None => Frame::Truncated,
        }
    } else if b[0] == 3 {
        if b.len() < 2 {
            Frame::Truncated
        } else {
            match strs_at(b, 2, b[1] as nat) {
                Some((ss, j)) => Frame::Message(ServerMessage::SongQueue(ss), j as nat),
                None => Frame::Truncated,
            }
        }
    } else if b[0] == 4 {
        match u16_at(b, 1) {
            Some((n, j)) => match entries_at(b, j, n as nat) {
                Some((es, k)) => Frame::Message(ServerMessage::Stations(es), k as nat),
                None => Frame::Truncated,
            },
            None => Frame::Truncated,
        }
    } else if b[0] == 5 {
        Frame::Message(ServerMessage::StationShutdown, 1)
    } else {
        Frame::Unrecognized
    }
}

/// Message from the server to a controller.
#[derive(Clone, Debug)]
pub enum ServerToClientMessage {
    Welcome { num_stations: u16 },
    Announce { song_name: String },
    InvalidCommand { reason: String },
    SongQueue { songs: Vec<String> },
    Stations { stations: Vec<(u16, String)> },
    StationShutdown,
    NewStation { station_num: u16 },
}

/// The texts of a list of strings.
pub open spec fn texts(v: Seq<String>) -> Seq<Seq<char>> {
    v.map_values(|s: String| s@)
}

/// The station entries of a list, with their texts.
pub open spec fn entry_texts(v: Seq<(u16, String)>) -> Seq<(u16, Seq<char>)> {
    v.map_values(|e: (u16, String)| (e.0, e.1@))
}

impl View for ServerToClientMessage {
    type V = ServerMessage;

    open spec fn view(&self) -> ServerMessage {
        match self {
            ServerToClientMessage::Welcome { num_stations } => ServerMessage::Welcome(*num_stations),
            ServerToClientMessage::Announce { song_name } => ServerMessage::Announce(song_name@),
            ServerToClientMessage::InvalidCommand { reason } => ServerMessage::InvalidCommand(
                reason@,
            ),
            ServerToClientMessage::SongQueue { songs } => ServerMessage::SongQueue(texts(songs@)),
            ServerToClientMessage::Stations { stations } => ServerMessage::Stations(
                entry_texts(stations@),
            ),
            ServerToClientMessage::StationShutdown => ServerMessage::StationShutdown,
            ServerToClientMessage::NewStation { station_num } => ServerMessage::NewStation(
                *station_num,
            ),
        }
    }
}

proof fn lemma_strs_none(b: Seq<u8>, i: int, k: nat, count: nat)
    requires
        k <= count,
        strs_at(b, i, k) is None,
    ensures
        strs_at(b, i, count) is None,
    decreases count - k,
{
    if k < count {
        lemma_strs_none(b, i, k + 1, count);
    }
}

proof fn lemma_entries_none(b: Seq<u8>, i: int, k: nat, count: nat)
    requires
        k <= count,
        entries_at(b, i, k) is None,
    ensures
        entries_at(b, i, count) is None,
    decreases count - k,
{
    if k < count {
        lemma_entries_none(b, i, k + 1, count);
    }
}

fn str_fits(s: &String) -> (r: bool)
    ensures
        r == text_fits(s@),
{
    s.as_str().as_bytes().len() <= 255
}

impl ServerToClientMessage {
    /// Whether every string fits its length byte and every list its count,
    /// so that the message can be written.
    pub fn fits(&self) -> (r: bool)
        ensures
            r == self@.fits(),
    {
        match self {
            ServerToClientMessage::Announce { song_name } => str_fits(song_name),
            ServerToClientMessage::InvalidCommand { reason } => str_fits(reason),
            ServerToClientMessage::SongQueue { songs } => {
                if songs.len() > 255 {
                    return false;
                }
                let mut i: usize = 0;
                while i < songs.len()
                    invariant
                        self@ == ServerMessage::SongQueue(texts(songs@)),
                        i <= songs@.len(),
                        forall|k: int| 0 <= k < i ==> text_fits(#[trigger] texts(songs@)[k]),
                    decreases songs@.len() - i,
                {
                    if !str_fits(&songs[i]) {
                        assert(texts(songs@)[i as int] == songs@[i as int]@);
                        return false;
                    }
                    i = i + 1;
                }
                true
            },
            ServerToClientMessage::Stations { stations } => {
                if stations.len() > 65535 {
                    return false;
                }
                let mut i: usize = 0;
                while i < stations.len()
                    invariant
                        self@ == ServerMessage::Stations(entry_texts(stations@)),
                        i <= stations@.len(),
                        forall|k: int| 0 <= k < i ==> text_fits((#[trigger] entry_texts(stations@)[k]).1),
                    decreases stations@.len() - i,
                {
                    if !str_fits(&stations[i].1) {
                        assert(entry_texts(stations@)[i as int].1 == stations@[i as int].1@);
                        return false;
                    }
                    i = i + 1;
                }
                true
            },
            _ => true,
        }
    }

    /// Appends the message's bytes to `out`.
    pub fn write(&self, out: &mut Vec<u8>)
        requires
            self@.fits(),
        ensures
            final(out)@ == old(out)@ + self@.encoding(),
    {
        let ghost start = out@;
        match self {
            ServerToClientMessage::Welcome { num_stations } => {
                out.push(0);
                put_u16(out, *num_stations);
            },
            ServerToClientMessage::Announce { song_name } => {
                out.push(1);
                put_str(out, song_name);
            },
            ServerToClientMessage::InvalidCommand { reason } => {
                out.push(2);
                put_str(out, reason);
            },
            ServerToClientMessage::SongQueue { songs } => {
                out.push(3);
                out.push(songs.len() as u8);
                let ghost head = out@;
                let mut i: usize = 0;
                while i < songs.len()
                    invariant
                        self@ == ServerMessage::SongQueue(texts(songs@)),
                        self@.fits(),
                        i <= songs@.len(),
                        out@ == head + strs_enc(texts(songs@).take(i as int)),
                    decreases songs@.len() - i,
                {
                    assert(text_fits(texts(songs@)[i as int]));
                    put_str(out, &songs[i]);
                    proof {
                        assert(texts(songs@).take(i + 1).drop_last() =~= texts(songs@).take(
                            i as int,
                        ));
                    }
                    i = i + 1;
                }
                proof {
                    assert(texts(songs@).take(i as int) =~= texts(songs@));
                }
            },
            ServerToClientMessage::Stations { stations } => {
                out.push(4);
                put_u16(out, stations.len() as u16);
                let ghost head = out@;
                let mut i: usize = 0;
                while i < stations.len()
                    invariant
                        self@ == ServerMessage::Stations(entry_texts(stations@)),
                        self@.fits(),
                        i <= stations@.len(),
                        out@ == head + entries_enc(entry_texts(stations@).take(i as int)),
                    decreases stations@.len() - i,
                {
                    assert(text_fits(entry_texts(stations@)[i as int].1));
                    put_u16(out, stations[i].0);
                    put_str(out, &stations[i].1);
                    proof {
                        assert(entry_texts(stations@).take(i + 1).drop_last() =~= entry_texts(
                            stations@,
                        ).take(i as int));
                    }
                    i = i + 1;
                }
                proof {
                    assert(entry_texts(stations@).take(i as int) =~= entry_texts(stations@));
                }
            },
            ServerToClientMessage::StationShutdown => {
                out.push(5);
            },
            ServerToClientMessage::NewStation { station_num } => {
                out.push(6);
                put_u16(out, *station_num);
            },
        }
        proof {
            assert(out@ =~= start + self@.encoding());
        }
    }

    /// Reads the message at the start of `b`, with the number of bytes it takes.
    pub fn read(b: &[u8]) -> (r: Result<MessageResult<(Self, usize)>, FrameError>)
        ensures
            frame_of(r) == parse_server(b@),
    {
        if b.len() == 0 {
            return Ok(MessageResult::NoData);
        }
        let tag = b[0];
        if tag == 0 || tag == 6 {
            match get_u16(b, 1) {
                Some((n, j)) => {
                    let m = if tag == 0 {
                        ServerToClientMessage::Welcome { num_stations: n }
                    } else {
                        ServerToClientMessage::NewStation { station_num: n }
                    };
                    Ok(MessageResult::Message((m, j)))
                },
                None => Err(FrameError::Truncated),
            }
        } else if tag == 1 || tag == 2 {
            match get_str(b, 1) {
                Some((s, j)) => {
                    let m = if tag == 1 {
                        ServerToClientMessage::Announce { song_name: s }
                    } else {
                        ServerToClientMessage::InvalidCommand { reason: s }
                    };
                    Ok(MessageResult::Message((m, j)))
                },
                None => Err(FrameError::Truncated),
            }
        } else if tag == 3 {
            if b.len() < 2 {
                return Err(FrameError::Truncated);
            }
            let count: u8 = b[1];
            let mut songs: Vec<String> = Vec::new();
            let mut pos: usize = 2;
            let mut k: u8 = 0;
            while k < count
                invariant
                    b@.len() >= 2,
                    b@[0] == 3,
                    count == b@[1],
                    k <= count,
                    strs_at(b@, 2, k as nat) == Some((texts(songs@), pos as int)),
                decreases count - k,
            {
                match get_str(b, pos) {
                    Some((s, j)) => {
                        let ghost before = songs@;
                        songs.push(s);
                        pos = j;
                        proof {
                            assert(texts(songs@) =~= texts(before).push(s@));
                        }
                    },
                    None => {
                        proof {
                            assert(strs_at(b@, 2, (k + 1) as nat) is None);
                            lemma_strs_none(b@, 2, (k + 1) as nat, count as nat);
                        }
                        return Err(FrameError::Truncated);
                    },
                }
                k = k + 1;
            }
            Ok(MessageResult::Message((ServerToClientMessage::SongQueue { songs }, pos)))
        } else if tag == 4 {
            let (count, start) = match get_u16(b, 1) {
                Some(v) => v,
                None => {
                    return Err(FrameError::Truncated);
                },
            };
            let mut stations: Vec<(u16, String)> = Vec::new();
            let mut pos: usize = start;
            let mut k: u16 = 0;
            while k < count
                invariant
                    b@.len() > 0,
                    b@[0] == 4,
                    u16_at(b@, 1) == Some((count, start as int)),
                    k <= count,
                    entries_at(b@, start as int, k as nat) == Some(
                        (entry_texts(stations@), pos as int),
                    ),
                decreases count - k,
            {
                let (n, after) = match get_u16(b, pos) {
                    Some(v) => v,
                    None => {
                        proof {
                            assert(entries_at(b@, start as int, (k + 1) as nat) is None);
                            lemma_entries_none(b@, start as int, (k + 1) as nat, count as nat);
                        }
                        return Err(FrameError::Truncated);
                    },
                };
                match get_str(b, after) {
                    Some((s, j)) => {
                        let ghost before = stations@;
                        stations.push((n, s));
                        pos = j;
                        proof {
                            assert(entry_texts(stations@) =~= entry_texts(before).push((n, s@)));
                        }
                    },
                    None => {
                        proof {
                            assert(entries_at(b@, start as int, (k + 1) as nat) is None);
                            lemma_entries_none(b@, start as int, (k + 1) as nat, count as nat);
                        }
                        return Err(FrameError::Truncated);
                    },
                }
                k = k + 1;
            }
            Ok(MessageResult::Message((ServerToClientMessage::Stations { stations }, pos)))
        } else if tag == 5 {
            Ok(MessageResult::Message((ServerToClientMessage::StationShutdown, 1)))
        } else {
            Ok(MessageResult::UnrecognizedMessage)
        }
    }
}

proof fn lemma_strs_round_trip(b: Seq<u8>, i: int, ss: Seq<Seq<char>>)
    requires
        forall|k: int| 0 <= k < ss.len() ==> text_fits(#[trigger] ss[k]),
        0 <= i,
        i + strs_enc(ss).len() <= b.len(),
        b.subrange(i, i + strs_enc(ss).len()) == strs_enc(ss),
    ensures
        strs_at(b, i, ss.len()) == Some((ss, i + strs_enc(ss).len())),
    decreases ss.len(),
{
    if ss.len() > 0 {
        let init = ss.drop_last();
        let head = strs_enc(init);
        let last = str_enc(ss.last());
        assert(strs_enc(ss) == head + last);
        assert(forall|k: int| 0 <= k < init.len() ==> #[trigger] init[k] == ss[k]);
        assert(b.subrange(i, i + head.len()) =~= strs_enc(ss).subrange(0, head.len() as int));
        assert(strs_enc(ss).subrange(0, head.len() as int) =~= head);
        lemma_strs_round_trip(b, i, init);
        let j = i + head.len();
        assert(b.subrange(j, j + last.len()) =~= strs_enc(ss).subrange(
            head.len() as int,
            strs_enc(ss).len() as int,
        ));
        assert(strs_enc(ss).subrange(head.len() as int, strs_enc(ss).len() as int) =~= last);
        assert(text_fits(ss[ss.len() - 1]));
        lemma_str_round_trip(b, j, ss.last());
        assert(init.push(ss.last()) =~= ss);
    }
}

proof fn lemma_entries_round_trip(b: Seq<u8>, i: int, es: Seq<(u16, Seq<char>)>)
    requires
        forall|k: int| 0 <= k < es.len() ==> text_fits(#[trigger] es[k].1),
        0 <= i,
        i + entries_enc(es).len() <= b.len(),
        b.subrange(i, i + entries_enc(es).len()) == entries_enc(es),
    ensures
        entries_at(b, i, es.len()) == Some((es, i + entries_enc(es).len())),
    decreases es.len(),
{
    if es.len() > 0 {
        let init = es.drop_last();
        let head = entries_enc(init);
        let e = es.last();
        let num = be_u16(e.0);
        let last = str_enc(e.1);
        let all = entries_enc(es);
        assert(all == head + num + last);
        assert(forall|k: int| 0 <= k < init.len() ==> #[trigger] init[k] == es[k]);
        assert(b.subrange(i, i + head.len()) =~= all.subrange(0, head.len() as int));
        assert(all.subrange(0, head.len() as int) =~= head);
        lemma_entries_round_trip(b, i, init);
        let j = i + head.len();
        assert(b[j] == all[head.len() as int]);
        assert(b[j + 1] == all[head.len() as int + 1]);
        lemma_u16_round_trip(e.0);
        let k = j + 2;
        assert(b.subrange(k, k + last.len()) =~= all.subrange(
            head.len() as int + 2,
            all.len() as int,
        ));
        assert(all.subrange(head.len() as int + 2, all.len() as int) =~= last);
        assert(text_fits(es[es.len() - 1].1));
        lemma_str_round_trip(b, k, e.1);
        assert(init.push(e) =~= es);
    }
}

/// Reading back what the server wrote gives the same message, whatever
/// follows it, for every message whose strings and lists fit their prefixes.
pub proof fn lemma_server_round_trip(m: ServerMessage, rest: Seq<u8>)
    requires
        m.fits(),
    ensures
        parse_server(m.encoding() + rest) == Frame::Message(m, m.encoding().len()),
{
    let e = m.encoding();
    let b = e + rest;
    assert(b.subrange(0, e.len() as int) =~= e);
    match m {
        ServerMessage::Welcome(n) => {
            lemma_u16_round_trip(n);
        },
        ServerMessage::NewStation(n) => {
            lemma_u16_round_trip(n);
        },
        ServerMessage::Announce(s) => {
            assert(b.subrange(1, e.len() as int) =~= str_enc(s));
            lemma_str_round_trip(b, 1, s);
        },
        ServerMessage::InvalidCommand(s) => {
            assert(b.subrange(1, e.len() as int) =~= str_enc(s));
            lemma_str_round_trip(b, 1, s);
        },
        ServerMessage::SongQueue(ss) => {
            assert(b.subrange(2, e.len() as int) =~= strs_enc(ss));
            lemma_strs_round_trip(b, 2, ss);
        },
        ServerMessage::Stations(es) => {
            lemma_u16_round_trip(es.len() as u16);
            assert(b.subrange(3, e.len() as int) =~= entries_enc(es));
            lemma_entries_round_trip(b, 3, es);
        },
        ServerMessage::StationShutdown => {},
    }
}

} // verus!
