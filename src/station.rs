//! A station: a playlist played as an endless byte stream, cut into packets,
//! with the name of each song marked at its first byte.

use vstd::prelude::*;

use crate::codec::{text_fits, texts};
use crate::iter_mem::{lemma_shift_bound, shift, wrap, IterMem};

verus! {

/// Bytes in one packet.
pub const BYTES_PER_PACKET: usize = 1024;

/// Bytes sent per second to each listener.
pub const BYTES_PER_SECOND: u64 = 16384;

/// Entries in a song queue sent to a controller.
pub const SONG_QUEUE_LENGTH: usize = 5;

/// A song of a playlist: its display name and its bytes.
pub struct Song {
    pub name: String,
    pub data: Vec<u8>,
}

/// Why a playlist cannot become a station.
#[derive(PartialEq, Eq, Structural, Clone, Copy, Debug)]
pub enum StationError {
    EmptyPlaylist,
    EmptySong,
    NameTooLong,
    TooManyStations,
}

/// The bytes of each song of a playlist.
pub open spec fn datas(songs: Seq<Song>) -> Seq<Seq<u8>> {
    songs.map_values(|s: Song| s.data@)
}

/// The name of each song of a playlist.
pub open spec fn names(songs: Seq<Song>) -> Seq<Seq<char>> {
    songs.map_values(|s: Song| s.name@)
}

/// A playlist that can be played: at least one song, every song with bytes
/// and a name that fits a message.
pub open spec fn playable(songs: Seq<Song>) -> bool {
    &&& songs.len() > 0
    &&& forall|k: int| 0 <= k < songs.len() ==> (#[trigger] songs[k]).data@.len() > 0
    &&& forall|k: int| 0 <= k < songs.len() ==> text_fits((#[trigger] songs[k]).name@)
}

/// The place after `p` = (song, byte) in the endless stream.
pub open spec fn step(ds: Seq<Seq<u8>>, p: (nat, nat)) -> (nat, nat) {
    if p.1 + 1 < ds[p.0 as int].len() {
        (p.0, p.1 + 1)
    } else {
        (wrap(p.0, ds.len()), 0)
    }
}

/// The place `k` bytes after `p`.
pub open spec fn advance(ds: Seq<Seq<u8>>, p: (nat, nat), k: nat) -> (nat, nat)
    decreases k,
{
    if k == 0 {
        p
    } else {
        step(ds, advance(ds, p, (k - 1) as nat))
    }
}

/// The `k` bytes of the stream from `p` on.
pub open spec fn stream(ds: Seq<Seq<u8>>, p: (nat, nat), k: nat) -> Seq<u8>
    decreases k,
{
    if k == 0 {
        Seq::empty()
    } else {
        let q = advance(ds, p, (k - 1) as nat);
        stream(ds, p, (k - 1) as nat).push(ds[q.0 as int][q.1 as int])
    }
}

/// The last song whose first byte lies among the `k` bytes from `p` on.
pub open spec fn last_start(ds: Seq<Seq<u8>>, p: (nat, nat), k: nat) -> Option<nat>
    decreases k,
{
    if k == 0 {
        None
    } else {
        let q = advance(ds, p, (k - 1) as nat);
        if q.1 == 0 {
            Some(q.0)
        } else {
            last_start(ds, p, (k - 1) as nat)
        }
    }
}

/// A place that lies in the playlist.
pub open spec fn in_playlist(ds: Seq<Seq<u8>>, p: (nat, nat)) -> bool {
    p.0 < ds.len() && p.1 < ds[p.0 as int].len()
}

pub struct Station {
    num: u16,
    songs: Vec<Song>,
    song: usize,
    offset: usize,
    queue: IterMem,
}

impl Station {
    /// The station's number.
    pub closed spec fn number(&self) -> u16 {
        self.num
    }

    /// The playlist.
    pub closed spec fn playlist(&self) -> Seq<Song> {
        self.songs@
    }

    /// The place of the next byte to be sent.
    pub closed spec fn pos(&self) -> (nat, nat) {
        (self.song as nat, self.offset as nat)
    }

    pub closed spec fn wf(&self) -> bool {
        &&& playable(self.songs@)
        &&& in_playlist(datas(self.songs@), self.pos())
        &&& self.queue.wf()
        &&& self.queue.cycle() == names(self.songs@)
        &&& self.queue.at() == self.song
    }

    /// The name of the song `k` places after the one now playing.
    pub open spec fn upcoming(&self, k: nat) -> Seq<char> {
        names(self.playlist())[shift(self.pos().0, k, self.playlist().len()) as int]
    }

    /// A station numbered `num` that plays `songs` from the first byte of the
    /// first song.
    pub fn new(num: u16, songs: Vec<Song>) -> (r: Result<Station, StationError>)
        ensures
            match r {
                Ok(s) => {
                    &&& playable(songs@)
                    &&& s.wf()
                    &&& s.number() == num
                    &&& s.playlist() == songs@
                    &&& s.pos() == (0nat, 0nat)
                },
                Err(e) => !playable(songs@) && e == Station::check_spec(songs@),
            },
    {
        match Station::check(&songs) {
            Some(e) => Err(e),
            None => {
                let mut titles: Vec<String> = Vec::new();
                let mut i: usize = 0;
                while i < songs.len()
                    invariant
                        i <= songs@.len(),
                        texts(titles@) == names(songs@).take(i as int),
                    decreases songs@.len() - i,
                {
                    let ghost before = titles@;
                    titles.push(songs[i].name.clone());
                    proof {
                        assert(texts(titles@) =~= texts(before).push(songs@[i as int].name@));
                        assert(names(songs@).take(i + 1) =~= names(songs@).take(i as int).push(
                            songs@[i as int].name@,
                        ));
                    }
                    i = i + 1;
                }
                proof {
                    assert(names(songs@).take(i as int) =~= names(songs@));
                }
                let queue = IterMem::new(titles);
                Ok(Station { num, songs, song: 0, offset: 0, queue })
            },
        }
    }

    /// The first reason, in the order empty playlist, empty song, long name,
    /// for which a playlist cannot be played.
    pub open spec fn check_spec(songs: Seq<Song>) -> StationError {
        if songs.len() == 0 {
            StationError::EmptyPlaylist
        } else if exists|k: int| 0 <= k < songs.len() && (#[trigger] songs[k]).data@.len() == 0 {
            StationError::EmptySong
        } else {
            StationError::NameTooLong
        }
    }

    fn check(songs: &Vec<Song>) -> (r: Option<StationError>)
        ensures
            r is None <==> playable(songs@),
            r is Some ==> r->0 == Station::check_spec(songs@),
    {
        if songs.len() == 0 {
            return Some(StationError::EmptyPlaylist);
        }
        let mut i: usize = 0;
        while i < songs.len()
            invariant
                i <= songs@.len(),
                forall|k: int| 0 <= k < i ==> (#[trigger] songs@[k]).data@.len() > 0,
            decreases songs@.len() - i,
        {
            if songs[i].data.len() == 0 {
                return Some(StationError::EmptySong);
            }
            i = i + 1;
        }
        let mut i: usize = 0;
        while i < songs.len()
            invariant
                i <= songs@.len(),
                forall|k: int| 0 <= k < songs@.len() ==> (#[trigger] songs@[k]).data@.len() > 0,
                forall|k: int| 0 <= k < i ==> text_fits((#[trigger] songs@[k]).name@),
            decreases songs@.len() - i,
        {
            let len: usize = songs[i].name.as_str().as_bytes().len();
            if len > 255 {
                return Some(StationError::NameTooLong);
            }
            i = i + 1;
        }
        None
    }

    pub fn num(&self) -> (r: u16)
        ensures
            r == self.number(),
    {
        self.num
    }

    /// The names of the next songs, the one playing first. The stream does
    /// not move.
    pub fn get_queue(&mut self) -> (r: Vec<String>)
        requires
            old(self).wf(),
        ensures
            final(self).wf(),
            final(self).number() == old(self).number(),
            final(self).playlist() == old(self).playlist(),
            final(self).pos() == old(self).pos(),
            r@.len() == SONG_QUEUE_LENGTH,
            forall|k: int|
                0 <= k < SONG_QUEUE_LENGTH ==> (#[trigger] r@[k])@ == old(self).upcoming(k as nat),
            forall|k: int| 0 <= k < SONG_QUEUE_LENGTH ==> text_fits((#[trigger] r@[k])@),
    {
        let r = self.queue.peek(SONG_QUEUE_LENGTH);
        proof {
            assert forall|k: int| 0 <= k < SONG_QUEUE_LENGTH implies text_fits((#[trigger] r@[k])@) by {
                let idx = shift(self.song as nat, k as nat, self.songs@.len());
                lemma_shift_bound(self.song as nat, k as nat, self.songs@.len());
                assert(names(self.songs@)[idx as int] == self.songs@[idx as int].name@);
            }
        }
        r
    }

    /// The name of the song the next byte belongs to: the head of the queue.
    pub fn current_song(&self) -> (r: String)
        requires
            self.wf(),
        ensures
            r@ == self.upcoming(0),
            r@ == names(self.playlist())[self.pos().0 as int],
            text_fits(r@),
    {
        let r = self.songs[self.song].name.clone();
        proof {
            assert(names(self.songs@)[self.song as int] == self.songs@[self.song as int].name@);
        }
        r
    }

    /// Takes the next packet of the stream, with the name of the last song
    /// whose first byte is in it.
    pub fn produce_packet(&mut self) -> (r: (Vec<u8>, Option<String>))
        requires
            old(self).wf(),
        ensures
            final(self).wf(),
            final(self).number() == old(self).number(),
            final(self).playlist() == old(self).playlist(),
            final(self).pos() == advance(
                datas(old(self).playlist()),
                old(self).pos(),
                BYTES_PER_PACKET as nat,
            ),
            r.0@ == stream(datas(old(self).playlist()), old(self).pos(), BYTES_PER_PACKET as nat),
            match last_start(datas(old(self).playlist()), old(self).pos(), BYTES_PER_PACKET as nat) {
                Some(k) => r.1 is Some && r.1->0@ == names(old(self).playlist())[k as int],
                None => r.1 is None,
            },
            r.1 is Some ==> text_fits(r.1->0@),
    {
        let ghost ds = datas(self.songs@);
        let ghost p0 = self.pos();
        let n = self.songs.len();
        let mut packet: Vec<u8> = Vec::new();
        let mut last: Option<usize> = None;
        let mut i: usize = 0;
        while i < BYTES_PER_PACKET
            invariant
                self.wf(),
                self.num == old(self).num,
                self.songs@ == old(self).songs@,
                n == self.songs@.len(),
                ds == datas(self.songs@),
                i <= BYTES_PER_PACKET,
                self.pos() == advance(ds, p0, i as nat),
                packet@ == stream(ds, p0, i as nat),
                match last_start(ds, p0, i as nat) {
                    Some(k) => last is Some && last->0 == k,
                    None => last is None,
                },
                last is Some ==> last->0 < n,
            decreases BYTES_PER_PACKET - i,
        {
            assert(ds[self.song as int] == self.songs@[self.song as int].data@);
            if self.offset == 0 {
                last = Some(self.song);
            }
            let len: usize = self.songs[self.song].data.len();
            assert(self.offset < len);
            packet.push(self.songs[self.song].data[self.offset]);
            if self.offset + 1 < len {
                self.offset = self.offset + 1;
            } else {
                self.offset = 0;
                let ghost at = self.queue.at();
                self.queue.next();
                self.song = if self.song + 1 >= n {
                    0
                } else {
                    self.song + 1
                };
                assert(ds[self.song as int] == self.songs@[self.song as int].data@);
            }
            i = i + 1;
        }
        let announce = match last {
            Some(k) => Some(self.songs[k].name.clone()),
            None => None,
        };
        proof {
            if let Some(k) = last {
                assert(names(self.songs@)[k as int] == self.songs@[k as int].name@);
            }
        }
        (packet, announce)
    }
}

/// Looking at the queue leaves the stream alone: `get_queue` keeps the
/// playlist and the place, and a station with the same playlist and place
/// sends the same bytes and the same song changes next.
pub proof fn lemma_peek_keeps_stream(a: Station, b: Station, k: nat)
    requires
        a.playlist() == b.playlist(),
        a.pos() == b.pos(),
    ensures
        stream(datas(a.playlist()), a.pos(), k) == stream(datas(b.playlist()), b.pos(), k),
        last_start(datas(a.playlist()), a.pos(), k) == last_start(datas(b.playlist()), b.pos(), k),
{
}

} // verus!
