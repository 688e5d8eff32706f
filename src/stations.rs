//! The server's state: the station slots and the registry of clients, with
//! the operations of the control plane and of the operator on them.

use vstd::prelude::*;

use crate::client::{Client, Endpoint};
use crate::codec::texts;
use crate::station::{
    advance, datas, last_start, names, playable, stream, Song, Station, StationError,
    BYTES_PER_PACKET, SONG_QUEUE_LENGTH,
};

verus! {

/// Slots that the station list can hold; a station's number is its slot.
pub const MAX_STATIONS: usize = 65535;

/// Why a registry operation was refused.
#[derive(PartialEq, Eq, Structural, Clone, Copy, Debug)]
pub enum RegistryError {
    UserExists,
    UserMissing,
    NoSuchStation,
    StationShutDown,
    ClientLimit,
}

/// A control endpoint is taken by one of the clients.
pub open spec fn has_control(cs: Seq<Client>, e: Endpoint) -> bool {
    exists|i: int| 0 <= i < cs.len() && (#[trigger] cs[i]).control_addr == e
}

/// A client number belongs to one of the clients.
pub open spec fn has_client(cs: Seq<Client>, num: usize) -> bool {
    exists|i: int| 0 <= i < cs.len() && (#[trigger] cs[i]).num == num
}

/// The clients that listen to station `s`, in registry order.
pub open spec fn on_station(cs: Seq<Client>, s: u16) -> Seq<Client>
    decreases cs.len(),
{
    if cs.len() == 0 {
        Seq::empty()
    } else if cs.last().station == Some(s) {
        on_station(cs.drop_last(), s).push(cs.last())
    } else {
        on_station(cs.drop_last(), s)
    }
}

/// The numbers of a list of clients.
pub open spec fn nums(cs: Seq<Client>) -> Seq<usize> {
    cs.map_values(|c: Client| c.num)
}

/// The clients, with client `num` moved to `s`.
pub open spec fn retuned(cs: Seq<Client>, num: usize, s: Option<u16>) -> Seq<Client> {
    cs.map_values(
        |c: Client|
            if c.num == num {
                Client { station: s, ..c }
            } else {
                c
            },
    )
}

/// The clients, with the listeners of station `s` on no station.
pub open spec fn cleared(cs: Seq<Client>, s: u16) -> Seq<Client> {
    cs.map_values(
        |c: Client|
            if c.station == Some(s) {
                Client { station: None, ..c }
            } else {
                c
            },
    )
}

/// The number of stations that are not shut down.
pub open spec fn live_count(slots: Seq<Option<Station>>) -> nat
    decreases slots.len(),
{
    if slots.len() == 0 {
        0
    } else {
        live_count(slots.drop_last()) + if slots.last() is Some {
            1nat
        } else {
            0nat
        }
    }
}

/// The song that a station plays now.
pub open spec fn now_playing(st: Station) -> Seq<char> {
    names(st.playlist())[st.pos().0 as int]
}

/// The stations that are not shut down, each with the song it plays now.
pub open spec fn playing(slots: Seq<Option<Station>>) -> Seq<(u16, Seq<char>)>
    decreases slots.len(),
{
    if slots.len() == 0 {
        Seq::empty()
    } else {
        let rest = playing(slots.drop_last());
        match slots.last() {
            Some(st) => rest.push(((slots.len() - 1) as u16, now_playing(st))),
            None => rest,
        }
    }
}

/// The names of the next songs of a station, the one playing first.
pub open spec fn queue_of(st: Station) -> Seq<Seq<char>> {
    Seq::new(SONG_QUEUE_LENGTH as nat, |k: int| st.upcoming(k as nat))
}

/// Two registries agree but for what station queues have looked at.
pub open spec fn same_state(a: Stations, b: Stations) -> bool {
    &&& b.wf()
    &&& a.clients() == b.clients()
    &&& a.next_num() == b.next_num()
    &&& a.slots().len() == b.slots().len()
    &&& forall|t: int|
        0 <= t < a.slots().len() ==> {
            &&& (#[trigger] b.slots()[t] is Some) == (a.slots()[t] is Some)
            &&& b.slots()[t] is Some ==> same_station(a.slots()[t]->0, b.slots()[t]->0)
        }
}

/// The datagram addresses of a list of clients.
pub open spec fn addrs(cs: Seq<Client>) -> Seq<Endpoint> {
    cs.map_values(|c: Client| c.listener_addr)
}

/// What one tick sends for one station: a packet to each listener, and the
/// song that started last in it, if one did.
pub struct Broadcast {
    pub packet: Vec<u8>,
    pub listeners: Vec<usize>,
    pub destinations: Vec<Endpoint>,
    pub announce: Option<String>,
}

/// Two views of a station agree on everything but what its queue has
/// looked at.
pub open spec fn same_station(a: Station, b: Station) -> bool {
    &&& b.wf()
    &&& a.number() == b.number()
    &&& a.playlist() == b.playlist()
    &&& a.pos() == b.pos()
}

/// Station `b` is station `a` one packet later, and `out` is what that
/// packet sends to the listeners `cs`.
pub open spec fn ticked(a: Station, b: Station, out: Broadcast, cs: Seq<Client>) -> bool {
    let ds = datas(a.playlist());
    &&& b.wf()
    &&& a.number() == b.number()
    &&& a.playlist() == b.playlist()
    &&& b.pos() == advance(ds, a.pos(), BYTES_PER_PACKET as nat)
    &&& out.packet@ == stream(ds, a.pos(), BYTES_PER_PACKET as nat)
    &&& out.packet@.len() == BYTES_PER_PACKET
    &&& out.listeners@ == nums(cs)
    &&& out.destinations@ == addrs(cs)
    &&& match last_start(ds, a.pos(), BYTES_PER_PACKET as nat) {
        Some(k) => out.announce is Some && out.announce->0@ == names(a.playlist())[k as int],
        None => out.announce is None,
    }
    &&& out.announce is Some ==> crate::codec::text_fits(out.announce->0@)
}

/// The stream holds as many bytes as were asked for.
pub proof fn lemma_stream_len(ds: Seq<Seq<u8>>, p: (nat, nat), k: nat)
    ensures
        stream(ds, p, k).len() == k,
    decreases k,
{
    if k > 0 {
        lemma_stream_len(ds, p, (k - 1) as nat);
    }
}

/// The listeners of a station are clients on that station.
pub proof fn lemma_on_station_members(cs: Seq<Client>, s: u16)
    ensures
        forall|k: int|
            0 <= k < on_station(cs, s).len() ==> (#[trigger] on_station(cs, s)[k]).station == Some(s)
                && cs.contains(on_station(cs, s)[k]),
    decreases cs.len(),
{
    if cs.len() > 0 {
        lemma_on_station_members(cs.drop_last(), s);
        assert forall|k: int| 0 <= k < on_station(cs, s).len() implies (#[trigger] on_station(cs, s)[k]).station == Some(s)
            && cs.contains(on_station(cs, s)[k]) by {
            if k < on_station(cs.drop_last(), s).len() {
                let c = on_station(cs.drop_last(), s)[k];
                assert(on_station(cs, s)[k] == c);
                let j = choose|j: int| 0 <= j < cs.drop_last().len() && cs.drop_last()[j] == c;
                assert(cs[j] == c);
            } else {
                assert(on_station(cs, s)[k] == cs.last());
                assert(cs[cs.len() - 1] == cs.last());
            }
        }
    }
}

/// A client on station `s` is among its listeners.
pub proof fn lemma_on_station_complete(cs: Seq<Client>, s: u16, i: int)
    requires
        0 <= i < cs.len(),
        cs[i].station == Some(s),
    ensures
        on_station(cs, s).contains(cs[i]),
    decreases cs.len(),
{
    if i < cs.len() - 1 {
        lemma_on_station_complete(cs.drop_last(), s, i);
        let j = choose|j: int| 0 <= j < on_station(cs.drop_last(), s).len() && on_station(cs.drop_last(), s)[j] == cs[i];
        assert(on_station(cs, s)[j] == cs[i]);
    } else {
        assert(on_station(cs, s).last() == cs[i]);
    }
}

/// Registry agreement: a client that is on a station is on a station that
/// is not shut down, and is among that station's listeners; every listener
/// of a station is a registered client on that station.
pub proof fn lemma_registry_agreement(reg: Stations, s: u16)
    requires
        reg.wf(),
    ensures
        forall|i: int|
            0 <= i < reg.clients().len() && (#[trigger] reg.clients()[i]).station == Some(s) ==> {
                &&& reg.live(s as int)
                &&& on_station(reg.clients(), s).contains(reg.clients()[i])
            },
        forall|k: int|
            0 <= k < on_station(reg.clients(), s).len() ==> {
                &&& (#[trigger] on_station(reg.clients(), s)[k]).station == Some(s)
                &&& reg.clients().contains(on_station(reg.clients(), s)[k])
            },
{
    assert forall|i: int|
        0 <= i < reg.clients().len() && (#[trigger] reg.clients()[i]).station == Some(s) implies {
            &&& reg.live(s as int)
            &&& on_station(reg.clients(), s).contains(reg.clients()[i])
        } by {
        lemma_on_station_complete(reg.clients(), s, i);
    }
    lemma_on_station_members(reg.clients(), s);
}

/// A client number is among the listeners of one station at most; as each
/// station's packet carries at most one song change, a tick announces at
/// most one song to each client.
pub proof fn lemma_one_station_per_client(reg: Stations, s1: u16, s2: u16, num: usize)
    requires
        reg.wf(),
        nums(on_station(reg.clients(), s1)).contains(num),
        nums(on_station(reg.clients(), s2)).contains(num),
    ensures
        s1 == s2,
{
    let cs = reg.clients();
    lemma_on_station_members(cs, s1);
    lemma_on_station_members(cs, s2);
    let k1 = choose|k: int| 0 <= k < nums(on_station(cs, s1)).len() && nums(on_station(cs, s1))[k] == num;
    let k2 = choose|k: int| 0 <= k < nums(on_station(cs, s2)).len() && nums(on_station(cs, s2))[k] == num;
    let c1 = on_station(cs, s1)[k1];
    let c2 = on_station(cs, s2)[k2];
    assert(cs.contains(c1) && cs.contains(c2));
    let i1 = choose|i: int| 0 <= i < cs.len() && cs[i] == c1;
    let i2 = choose|i: int| 0 <= i < cs.len() && cs[i] == c2;
    if i1 != i2 {
        assert(cs[i1].num != cs[i2].num);
    }
}

/// Retuning a client to the station it was just retuned to changes nothing.
pub proof fn lemma_retune_idempotent(cs: Seq<Client>, num: usize, s: u16)
    ensures
        retuned(retuned(cs, num, Some(s)), num, Some(s)) == retuned(cs, num, Some(s)),
{
    assert(retuned(retuned(cs, num, Some(s)), num, Some(s)) =~= retuned(cs, num, Some(s)));
}

/// Station list and client registry.
pub struct Stations {
    stations: Vec<Option<Station>>,
    clients: Vec<Client>,
    next_num: usize,
}

impl Stations {
    /// The station slots; a shut-down station leaves an empty slot.
    pub closed spec fn slots(&self) -> Seq<Option<Station>> {
        self.stations@
    }

    /// The clients, in the order they came.
    pub closed spec fn clients(&self) -> Seq<Client> {
        self.clients@
    }

    /// The number the next client gets.
    pub closed spec fn next_num(&self) -> usize {
        self.next_num
    }

    /// Slot `s` holds a station.
    pub open spec fn live(&self, s: int) -> bool {
        0 <= s < self.slots().len() && self.slots()[s] is Some
    }

    pub closed spec fn wf(&self) -> bool {
        &&& self.stations@.len() <= MAX_STATIONS
        &&& forall|s: int|
            0 <= s < self.stations@.len() && (#[trigger] self.stations@[s]) is Some ==> {
                &&& self.stations@[s]->0.wf()
                &&& self.stations@[s]->0.number() == s
            }
        &&& forall|i: int|
            0 <= i < self.clients@.len() && (#[trigger] self.clients@[i]).station is Some
                ==> self.live(self.clients@[i].station->0 as int)
        &&& forall|i: int, j: int|
            0 <= i < self.clients@.len() && 0 <= j < self.clients@.len() && i != j ==> {
                &&& (#[trigger] self.clients@[i]).num != (#[trigger] self.clients@[j]).num
                &&& self.clients@[i].control_addr != self.clients@[j].control_addr
            }
        &&& forall|i: int| 0 <= i < self.clients@.len() ==> (#[trigger] self.clients@[i]).num < self.next_num
    }

    /// No stations and no clients.
    pub fn new() -> (r: Stations)
        ensures
            r.wf(),
            r.slots().len() == 0,
            r.clients().len() == 0,
    {
        Stations { stations: Vec::new(), clients: Vec::new(), next_num: 0 }
    }

    /// Adds a station that plays `songs` in a loop, in the next slot.
    pub fn new_station(&mut self, songs: Vec<Song>) -> (r: Result<u16, StationError>)
        requires
            old(self).wf(),
        ensures
            final(self).wf(),
            final(self).clients() == old(self).clients(),
            final(self).next_num() == old(self).next_num(),
            old(self).slots().len() >= MAX_STATIONS ==> r == Err::<u16, StationError>(
                StationError::TooManyStations,
            ),
            old(self).slots().len() < MAX_STATIONS && !playable(songs@) ==> r == Err::<
                u16,
                StationError,
            >(Station::check_spec(songs@)),
            r is Ok <==> old(self).slots().len() < MAX_STATIONS && playable(songs@),
            match r {
                Ok(n) => {
                    &&& n == old(self).slots().len()
                    &&& final(self).slots().len() == old(self).slots().len() + 1
                    &&& final(self).slots().take(n as int) == old(self).slots()
                    &&& final(self).slots()[n as int] is Some
                    &&& final(self).slots()[n as int]->0.playlist() == songs@
                    &&& final(self).slots()[n as int]->0.pos() == (0nat, 0nat)
                },
                Err(_) => final(self).slots() == old(self).slots(),
            },
    {
        if self.stations.len() >= MAX_STATIONS {
            return Err(StationError::TooManyStations);
        }
        let num = self.stations.len() as u16;
        match Station::new(num, songs) {
            Ok(station) => {
                let ghost before = self.stations@;
                self.stations.push(Some(station));
                proof {
                    assert(self.stations@.take(num as int) =~= before);
                    assert forall|i: int|
                        0 <= i < self.clients@.len() && (#[trigger] self.clients@[i]).station is Some
                            implies self.live(self.clients@[i].station->0 as int) by {
                        assert(self.stations@[self.clients@[i].station->0 as int] == before[self.clients@[i].station->0 as int]);
                    }
                }
                Ok(num)
            },
            Err(e) => Err(e),
        }
    }

    /// Adds a station that plays one song in a loop.
    pub fn new_single(&mut self, song: Song) -> (r: Result<u16, StationError>)
        requires
            old(self).wf(),
        ensures
            final(self).wf(),
            final(self).clients() == old(self).clients(),
            r is Ok <==> old(self).slots().len() < MAX_STATIONS && playable(seq![song]),
            match r {
                Ok(n) => {
                    &&& n == old(self).slots().len()
                    &&& final(self).slots().take(n as int) == old(self).slots()
                    &&& final(self).slots().len() == n + 1
                    &&& final(self).slots()[n as int] is Some
                    &&& final(self).slots()[n as int]->0.playlist() == seq![song]
                },
                Err(_) => final(self).slots() == old(self).slots(),
            },
    {
        let songs = vec![song];
        proof {
            assert(songs@ =~= seq![song]);
        }
        self.new_station(songs)
    }

    /// Adds a station that plays a list of songs in a loop.
    pub fn new_looping(&mut self, songs: Vec<Song>) -> (r: Result<u16, StationError>)
        requires
            old(self).wf(),
        ensures
            final(self).wf(),
            final(self).clients() == old(self).clients(),
            r is Ok <==> old(self).slots().len() < MAX_STATIONS && playable(songs@),
            match r {
                Ok(n) => {
                    &&& n == old(self).slots().len()
                    &&& final(self).slots().take(n as int) == old(self).slots()
                    &&& final(self).slots().len() == n + 1
                    &&& final(self).slots()[n as int] is Some
                    &&& final(self).slots()[n as int]->0.playlist() == songs@
                },
                Err(_) => final(self).slots() == old(self).slots(),
            },
    {
        self.new_station(songs)
    }

    /// The number of stations that are not shut down.
    pub fn num_stations(&self) -> (r: usize)
        requires
            self.wf(),
        ensures
            r == live_count(self.slots()),
            r <= MAX_STATIONS,
    {
        let mut count: usize = 0;
        let mut i: usize = 0;
        while i < self.stations.len()
            invariant
                i <= self.stations@.len(),
                self.stations@.len() <= MAX_STATIONS,
                count == live_count(self.stations@.take(i as int)),
                count <= i,
            decreases self.stations@.len() - i,
        {
            proof {
                assert(self.stations@.take(i + 1).drop_last() =~= self.stations@.take(i as int));
            }
            if self.stations[i].is_some() {
                count = count + 1;
            }
            i = i + 1;
        }
        proof {
            assert(self.stations@.take(i as int) =~= self.stations@);
        }
        count
    }

    /// Each station that is not shut down, with the song it plays now.
    pub fn current_songs(&self) -> (r: Vec<(u16, String)>)
        requires
            self.wf(),
        ensures
            crate::codec::entry_texts(r@) == playing(self.slots()),
            r@.len() <= MAX_STATIONS,
            forall|k: int| 0 <= k < r@.len() ==> crate::codec::text_fits((#[trigger] r@[k]).1@),
    {
        let mut r: Vec<(u16, String)> = Vec::new();
        let mut i: usize = 0;
        while i < self.stations.len()
            invariant
                self.wf(),
                i <= self.stations@.len(),
                crate::codec::entry_texts(r@) == playing(self.stations@.take(i as int)),
                r@.len() <= i,
                forall|k: int| 0 <= k < r@.len() ==> crate::codec::text_fits((#[trigger] r@[k]).1@),
            decreases self.stations@.len() - i,
        {
            proof {
                assert(self.stations@.take(i + 1).drop_last() =~= self.stations@.take(i as int));
            }
            match &self.stations[i] {
                Some(st) => {
                    let ghost before = r@;
                    let song = st.current_song();
                    r.push((i as u16, song));
                    proof {
                        assert(crate::codec::entry_texts(r@) =~= crate::codec::entry_texts(before).push((i as u16, song@)));
                    }
                },
                None => {},
            }
            i = i + 1;
        }
        proof {
            assert(self.stations@.take(i as int) =~= self.stations@);
        }
        r
    }

    /// Where client `num` stands in the registry.
    fn find_client(&self, num: usize) -> (r: Option<usize>)
        ensures
            match r {
                Some(i) => i < self.clients@.len() && self.clients@[i as int].num == num,
                None => !has_client(self.clients@, num),
            },
    {
        let mut i: usize = 0;
        while i < self.clients.len()
            invariant
                i <= self.clients@.len(),
                forall|k: int| 0 <= k < i ==> (#[trigger] self.clients@[k]).num != num,
            decreases self.clients@.len() - i,
        {
            if self.clients[i].num == num {
                return Some(i);
            }
            i = i + 1;
        }
        None
    }

    /// Where the client with control endpoint `e` stands in the registry.
    fn find_control(&self, e: Endpoint) -> (r: Option<usize>)
        ensures
            match r {
                Some(i) => i < self.clients@.len() && self.clients@[i as int].control_addr == e,
                None => !has_control(self.clients@, e),
            },
    {
        let mut i: usize = 0;
        while i < self.clients.len()
            invariant
                i <= self.clients@.len(),
                forall|k: int| 0 <= k < i ==> (#[trigger] self.clients@[k]).control_addr != e,
            decreases self.clients@.len() - i,
        {
            if self.clients[i].control_addr == e {
                return Some(i);
            }
            i = i + 1;
        }
        None
    }
    /// Registers the controller at `control`, whose datagrams go to
    /// `udp_port` at its address. It listens to station 0 when that station
    /// is not shut down.
    pub fn attach(&mut self, control: Endpoint, udp_port: u16) -> (r: Result<usize, RegistryError>)
        requires
            old(self).wf(),
        ensures
            final(self).wf(),
            final(self).slots() == old(self).slots(),
            match r {
                Ok(num) => {
                    &&& !has_control(old(self).clients(), control)
                    &&& num == old(self).next_num()
                    &&& final(self).clients() == old(self).clients().push(
                        Client {
                            num,
                            control_addr: control,
                            listener_addr: Endpoint { ip: control.ip, port: udp_port },
                            station: if old(self).live(0) {
                                Some(0u16)
                            } else {
                                None
                            },
                        },
                    )
                },
                Err(e) => {
                    &&& final(self).clients() == old(self).clients()
                    &&& e == RegistryError::UserExists <==> has_control(old(self).clients(), control)
                    &&& e == RegistryError::ClientLimit <==> !has_control(old(self).clients(), control)
                        && old(self).next_num() == usize::MAX
                },
            },
            r is Ok <==> !has_control(old(self).clients(), control) && old(self).next_num()
                < usize::MAX,
    {
        if self.find_control(control).is_some() {
            return Err(RegistryError::UserExists);
        }
        if self.next_num == usize::MAX {
            return Err(RegistryError::ClientLimit);
        }
        let num = self.next_num;
        let mut client = Client::create(num, control, udp_port);
        if self.stations.len() > 0 && self.stations[0].is_some() {
            client.set_station(Some(0));
        }
        let ghost before = self.clients@;
        self.clients.push(client);
        self.next_num = num + 1;
        proof {
            assert forall|i: int, j: int|
                0 <= i < self.clients@.len() && 0 <= j < self.clients@.len() && i != j implies {
                &&& (#[trigger] self.clients@[i]).num != (#[trigger] self.clients@[j]).num
                &&& self.clients@[i].control_addr != self.clients@[j].control_addr
            } by {
                if i < before.len() && j < before.len() {
                    assert(self.clients@[i] == before[i]);
                    assert(self.clients@[j] == before[j]);
                } else if i < before.len() {
                    assert(self.clients@[i] == before[i]);
                } else {
                    assert(self.clients@[j] == before[j]);
                }
            }
            assert forall|i: int|
                0 <= i < self.clients@.len() && (#[trigger] self.clients@[i]).station is Some
                    implies self.live(self.clients@[i].station->0 as int) by {
                if i < before.len() {
                    assert(self.clients@[i] == before[i]);
                }
            }
            assert forall|i: int| 0 <= i < self.clients@.len() implies (#[trigger] self.clients@[i]).num < self.next_num by {
                if i < before.len() {
                    assert(self.clients@[i] == before[i]);
                }
            }
        }
        Ok(num)
    }

    /// Moves client `num` to station `station`; gives the song that station
    /// plays now.
    pub fn retune(&mut self, num: usize, station: u16) -> (r: Result<String, RegistryError>)
        requires
            old(self).wf(),
        ensures
            final(self).wf(),
            final(self).slots() == old(self).slots(),
            final(self).next_num() == old(self).next_num(),
            r is Ok <==> has_client(old(self).clients(), num) && old(self).live(station as int),
            match r {
                Ok(song) => {
                    &&& has_client(old(self).clients(), num)
                    &&& old(self).live(station as int)
                    &&& final(self).clients() == retuned(old(self).clients(), num, Some(station))
                    &&& song@ == now_playing(old(self).slots()[station as int]->0)
                    &&& crate::codec::text_fits(song@)
                },
                Err(e) => {
                    &&& final(self).clients() == old(self).clients()
                    &&& e == RegistryError::UserMissing <==> !has_client(old(self).clients(), num)
                    &&& e == RegistryError::NoSuchStation <==> has_client(old(self).clients(), num)
                        && station >= old(self).slots().len()
                    &&& e == RegistryError::StationShutDown <==> has_client(
                        old(self).clients(),
                        num,
                    ) && station < old(self).slots().len() && !old(self).live(station as int)
                },
            },
    {
        let i = match self.find_client(num) {
            Some(i) => i,
            None => {
                return Err(RegistryError::UserMissing);
            },
        };
        let s = station as usize;
        if s >= self.stations.len() {
            return Err(RegistryError::NoSuchStation);
        }
        let song = match &self.stations[s] {
            Some(st) => st.current_song(),
            None => {
                return Err(RegistryError::StationShutDown);
            },
        };
        let ghost before = self.clients@;
        let mut c = self.clients[i];
        c.set_station(Some(station));
        self.clients.set(i, c);
        proof {
            assert forall|k: int| 0 <= k < before.len() && k != i implies before[k].num != num by {
                assert(before[k].num != before[i as int].num);
            }
            assert(self.clients@ =~= retuned(before, num, Some(station)));
            assert forall|a: int, b: int|
                0 <= a < self.clients@.len() && 0 <= b < self.clients@.len() && a != b implies {
                &&& (#[trigger] self.clients@[a]).num != (#[trigger] self.clients@[b]).num
                &&& self.clients@[a].control_addr != self.clients@[b].control_addr
            } by {
                assert(before[a].num != before[b].num);
            }
            assert forall|k: int| 0 <= k < self.clients@.len() implies (#[trigger] self.clients@[k]).num < self.next_num by {
                assert(before[k].num < self.next_num);
            }
            assert forall|k: int|
                0 <= k < self.clients@.len() && (#[trigger] self.clients@[k]).station is Some
                    implies self.live(self.clients@[k].station->0 as int) by {
                if k != i {
                    assert(self.clients@[k] == before[k]);
                }
            }
        }
        Ok(song)
    }

    /// Removes client `num` from the registry, and with it from its station.
    pub fn detach(&mut self, num: usize) -> (r: bool)
        requires
            old(self).wf(),
        ensures
            final(self).wf(),
            final(self).slots() == old(self).slots(),
            final(self).next_num() == old(self).next_num(),
            r == has_client(old(self).clients(), num),
            r ==> exists|i: int|
                0 <= i < old(self).clients().len() && (#[trigger] old(self).clients()[i]).num == num
                    && final(self).clients() == old(self).clients().remove(i),
            !r ==> final(self).clients() == old(self).clients(),
            !has_client(final(self).clients(), num),
    {
        match self.find_client(num) {
            Some(i) => {
                let ghost before = self.clients@;
                self.clients.remove(i);
                proof {
                    assert(before[i as int].num == num);
                    assert forall|k: int| 0 <= k < self.clients@.len() implies (#[trigger] self.clients@[k]) == before[if k < i { k } else { k + 1 }] by {}
                    assert forall|a: int, b: int|
                        0 <= a < self.clients@.len() && 0 <= b < self.clients@.len() && a != b implies {
                        &&& (#[trigger] self.clients@[a]).num != (#[trigger] self.clients@[b]).num
                        &&& self.clients@[a].control_addr != self.clients@[b].control_addr
                    } by {
                        let a0 = if a < i { a } else { a + 1 };
                        let b0 = if b < i { b } else { b + 1 };
                        assert(self.clients@[a] == before[a0]);
                        assert(self.clients@[b] == before[b0]);
                    }
                    assert forall|k: int| 0 <= k < self.clients@.len() implies (#[trigger] self.clients@[k]).num != num by {
                        let k0 = if k < i { k } else { k + 1 };
                        assert(self.clients@[k] == before[k0]);
                        assert(before[k0].num != before[i as int].num);
                    }
                    assert forall|k: int| 0 <= k < self.clients@.len() implies (#[trigger] self.clients@[k]).num < self.next_num by {
                        let k0 = if k < i { k } else { k + 1 };
                        assert(self.clients@[k] == before[k0]);
                    }
                    assert forall|k: int|
                        0 <= k < self.clients@.len() && (#[trigger] self.clients@[k]).station is Some
                            implies self.live(self.clients@[k].station->0 as int) by {
                        let k0 = if k < i { k } else { k + 1 };
                        assert(self.clients@[k] == before[k0]);
                    }
                }
                true
            },
            None => false,
        }
    }

    /// Shuts station `station` down: its slot empties and its listeners are
    /// left on no station. Gives the numbers of those listeners.
    pub fn shutdown_station(&mut self, station: u16) -> (r: Result<Vec<usize>, RegistryError>)
        requires
            old(self).wf(),
        ensures
            final(self).wf(),
            final(self).next_num() == old(self).next_num(),
            match r {
                Ok(v) => {
                    &&& old(self).live(station as int)
                    &&& final(self).slots() == old(self).slots().update(station as int, None)
                    &&& final(self).clients() == cleared(old(self).clients(), station)
                    &&& v@ == nums(on_station(old(self).clients(), station))
                },
                Err(e) => {
                    &&& final(self).slots() == old(self).slots()
                    &&& final(self).clients() == old(self).clients()
                    &&& e == RegistryError::NoSuchStation <==> station >= old(self).slots().len()
                    &&& e == RegistryError::StationShutDown <==> station < old(self).slots().len()
                        && !old(self).live(station as int)
                    &&& e == RegistryError::NoSuchStation || e == RegistryError::StationShutDown
                },
            },
    {
        let s = station as usize;
        if s >= self.stations.len() {
            return Err(RegistryError::NoSuchStation);
        }
        if self.stations[s].is_none() {
            return Err(RegistryError::StationShutDown);
        }
        let ghost slots0 = self.stations@;
        let ghost cs0 = self.clients@;
        self.stations.set(s, None);
        let mut out: Vec<usize> = Vec::new();
        let mut i: usize = 0;
        while i < self.clients.len()
            invariant
                s < slots0.len(),
                self.next_num == old(self).next_num,
                self.stations@ == slots0.update(s as int, None),
                self.clients@.len() == cs0.len(),
                i <= cs0.len(),
                forall|k: int| 0 <= k < i ==> (#[trigger] self.clients@[k]) == cleared(cs0, station)[k],
                forall|k: int| i <= k < cs0.len() ==> (#[trigger] self.clients@[k]) == cs0[k],
                out@ == nums(on_station(cs0.take(i as int), station)),
            decreases cs0.len() - i,
        {
            proof {
                assert(cs0.take(i + 1).drop_last() =~= cs0.take(i as int));
            }
            let c = self.clients[i];
            if c.station == Some(station) {
                let mut d = c;
                d.set_station(None);
                self.clients.set(i, d);
                let ghost before = out@;
                out.push(c.num);
                proof {
                    assert(out@ =~= nums(on_station(cs0.take(i + 1), station)));
                }
            }
            i = i + 1;
        }
        proof {
            assert(cs0.take(i as int) =~= cs0);
            assert(self.clients@ =~= cleared(cs0, station));
            assert forall|a: int, b: int|
                0 <= a < self.clients@.len() && 0 <= b < self.clients@.len() && a != b implies {
                &&& (#[trigger] self.clients@[a]).num != (#[trigger] self.clients@[b]).num
                &&& self.clients@[a].control_addr != self.clients@[b].control_addr
            } by {
                assert(cs0[a].num != cs0[b].num);
            }
            assert forall|k: int| 0 <= k < self.clients@.len() implies (#[trigger] self.clients@[k]).num < self.next_num by {
                assert(cs0[k].num < self.next_num);
            }
            assert forall|k: int|
                0 <= k < self.clients@.len() && (#[trigger] self.clients@[k]).station is Some
                    implies self.live(self.clients@[k].station->0 as int) by {
                assert(cs0[k].station == self.clients@[k].station);
            }
            assert forall|t: int|
                0 <= t < self.stations@.len() && (#[trigger] self.stations@[t]) is Some implies {
                &&& self.stations@[t]->0.wf()
                &&& self.stations@[t]->0.number() == t
            } by {
                assert(self.stations@[t] == slots0[t]);
            }
        }
        Ok(out)
    }

    /// The numbers of all clients, in registry order.
    pub fn all_clients(&self) -> (r: Vec<usize>)
        ensures
            r@ == nums(self.clients()),
    {
        let mut r: Vec<usize> = Vec::new();
        let mut i: usize = 0;
        while i < self.clients.len()
            invariant
                i <= self.clients@.len(),
                r@ == nums(self.clients@.take(i as int)),
            decreases self.clients@.len() - i,
        {
            r.push(self.clients[i].num);
            proof {
                assert(r@ =~= nums(self.clients@.take(i + 1)));
            }
            i = i + 1;
        }
        proof {
            assert(self.clients@.take(i as int) =~= self.clients@);
        }
        r
    }

    /// The client with number `num`, if it is registered.
    pub fn client(&self, num: usize) -> (r: Option<Client>)
        ensures
            match r {
                Some(c) => has_client(self.clients(), num) && c.num == num && self.clients().contains(c),
                None => !has_client(self.clients(), num),
            },
    {
        match self.find_client(num) {
            Some(i) => Some(self.clients[i]),
            None => None,
        }
    }
    /// The numbers and datagram addresses of the listeners of station `s`.
    pub fn listeners_of(&self, s: u16) -> (r: (Vec<usize>, Vec<Endpoint>))
        ensures
            r.0@ == nums(on_station(self.clients(), s)),
            r.1@ == addrs(on_station(self.clients(), s)),
    {
        let mut ns: Vec<usize> = Vec::new();
        let mut ds: Vec<Endpoint> = Vec::new();
        let mut i: usize = 0;
        while i < self.clients.len()
            invariant
                i <= self.clients@.len(),
                ns@ == nums(on_station(self.clients@.take(i as int), s)),
                ds@ == addrs(on_station(self.clients@.take(i as int), s)),
            decreases self.clients@.len() - i,
        {
            proof {
                assert(self.clients@.take(i + 1).drop_last() =~= self.clients@.take(i as int));
            }
            let c = self.clients[i];
            if c.station == Some(s) {
                ns.push(c.num);
                ds.push(c.listener_addr);
                proof {
                    assert(ns@ =~= nums(on_station(self.clients@.take(i + 1), s)));
                    assert(ds@ =~= addrs(on_station(self.clients@.take(i + 1), s)));
                }
            }
            i = i + 1;
        }
        proof {
            assert(self.clients@.take(i as int) =~= self.clients@);
        }
        (ns, ds)
    }

    /// Takes the station out of slot `s`, leaving the slot empty.
    fn take_station(&mut self, s: usize) -> (r: Station)
        requires
            s < old(self).stations@.len(),
            old(self).stations@[s as int] is Some,
        ensures
            r == old(self).stations@[s as int]->0,
            final(self).stations@ == old(self).stations@.update(s as int, None),
            final(self).clients@ == old(self).clients@,
            final(self).next_num == old(self).next_num,
    {
        let mut slot: Option<Station> = None;
        std::mem::swap(&mut slot, &mut self.stations[s]);
        slot.unwrap()
    }

    /// The next songs of the station that client `num` listens to, the one
    /// playing first.
    pub fn get_queue(&mut self, num: usize) -> (r: Option<Vec<String>>)
        requires
            old(self).wf(),
        ensures
            final(self).wf(),
            final(self).clients() == old(self).clients(),
            final(self).next_num() == old(self).next_num(),
            final(self).slots().len() == old(self).slots().len(),
            forall|t: int|
                0 <= t < old(self).slots().len() ==> {
                    &&& (#[trigger] final(self).slots()[t] is Some) == (old(self).slots()[t] is Some)
                    &&& final(self).slots()[t] is Some ==> same_station(
                        old(self).slots()[t]->0,
                        final(self).slots()[t]->0,
                    )
                },
            !has_client(old(self).clients(), num) ==> r is None,
            forall|i: int|
                0 <= i < old(self).clients().len() && (#[trigger] old(self).clients()[i]).num == num
                    ==> match old(self).clients()[i].station {
                    None => r is None,
                    Some(s) => {
                        &&& r is Some
                        &&& texts(r->0@) == queue_of(old(self).slots()[s as int]->0)
                    },
                },
            r is Some ==> r->0@.len() == SONG_QUEUE_LENGTH && forall|k: int|
                0 <= k < SONG_QUEUE_LENGTH ==> crate::codec::text_fits((#[trigger] r->0@[k])@),
    {
        let i = match self.find_client(num) {
            Some(i) => i,
            None => {
                return None;
            },
        };
        let s = match self.clients[i].station {
            Some(s) => s as usize,
            None => {
                proof {
                    assert forall|j: int|
                        0 <= j < self.clients@.len() && (#[trigger] self.clients@[j]).num == num implies j == i by {
                        if j != i {
                            assert(self.clients@[j].num != self.clients@[i as int].num);
                        }
                    }
                }
                return None;
            },
        };
        let ghost slots0 = self.stations@;
        let mut st = self.take_station(s);
        let q = st.get_queue();
        self.stations.set(s, Some(st));
        proof {
            assert(texts(q@) =~= queue_of(slots0[s as int]->0));
            assert forall|j: int|
                0 <= j < self.clients@.len() && (#[trigger] self.clients@[j]).num == num implies j == i by {
                if j != i {
                    assert(self.clients@[j].num != self.clients@[i as int].num);
                }
            }
            assert forall|t: int| 0 <= t < slots0.len() && t != s implies self.stations@[t] == slots0[t] by {}
            assert forall|t: int|
                0 <= t < self.clients@.len() && (#[trigger] self.clients@[t]).station is Some
                    implies self.live(self.clients@[t].station->0 as int) by {
                assert(slots0[self.clients@[t].station->0 as int] is Some);
            }
        }
        Some(q)
    }

    /// One tick of the scheduler: each station that is not shut down gives
    /// its next packet, to be sent to each of its listeners.
    pub fn update_all_packets(&mut self) -> (r: Vec<Option<Broadcast>>)
        requires
            old(self).wf(),
        ensures
            final(self).wf(),
            final(self).clients() == old(self).clients(),
            final(self).next_num() == old(self).next_num(),
            final(self).slots().len() == old(self).slots().len(),
            r@.len() == old(self).slots().len(),
            forall|t: int|
                0 <= t < old(self).slots().len() ==> {
                    &&& (#[trigger] final(self).slots()[t] is Some) == (old(self).slots()[t] is Some)
                    &&& (r@[t] is Some) == (old(self).slots()[t] is Some)
                    &&& r@[t] is Some ==> ticked(
                        old(self).slots()[t]->0,
                        final(self).slots()[t]->0,
                        r@[t]->0,
                        on_station(old(self).clients(), t as u16),
                    )
                },
    {
        let ghost slots0 = self.stations@;
        let mut r: Vec<Option<Broadcast>> = Vec::new();
        let mut t: usize = 0;
        while t < self.stations.len()
            invariant
                self.wf(),
                self.clients@ == old(self).clients@,
                self.next_num == old(self).next_num,
                slots0 == old(self).stations@,
                self.stations@.len() == slots0.len(),
                t <= slots0.len(),
                r@.len() == t,
                forall|k: int| t <= k < slots0.len() ==> (#[trigger] self.stations@[k]) == slots0[k],
                forall|k: int|
                    0 <= k < t ==> {
                        &&& (#[trigger] self.stations@[k] is Some) == (slots0[k] is Some)
                        &&& (r@[k] is Some) == (slots0[k] is Some)
                        &&& r@[k] is Some ==> ticked(
                            slots0[k]->0,
                            self.stations@[k]->0,
                            r@[k]->0,
                            on_station(self.clients@, k as u16),
                        )
                    },
            decreases slots0.len() - t,
        {
            if self.stations[t].is_some() {
                let (listeners, destinations) = self.listeners_of(t as u16);
                let mut st = self.take_station(t);
                let ghost st0 = st;
                let (packet, announce) = st.produce_packet();
                proof {
                    lemma_stream_len(datas(st0.playlist()), st0.pos(), BYTES_PER_PACKET as nat);
                }
                self.stations.set(t, Some(st));
                r.push(Some(Broadcast { packet, listeners, destinations, announce }));
                proof {
                    assert forall|i: int|
                        0 <= i < self.clients@.len() && (#[trigger] self.clients@[i]).station is Some
                            implies self.live(self.clients@[i].station->0 as int) by {
                        let u = self.clients@[i].station->0 as int;
                        if u != t {
                            assert(self.stations@[u] == old(self).stations@[u] || u < t);
                        }
                    }
                }
            } else {
                r.push(None);
            }
            t = t + 1;
        }
        r
    }
    /// A registry in order agrees with itself.
    pub proof fn lemma_same_state_refl(&self)
        requires
            self.wf(),
        ensures
            same_state(*self, *self),
    {
    }

    /// The song that station `s` plays now, or why there is none.
    pub fn station_song(&self, s: u16) -> (r: Result<String, RegistryError>)
        requires
            self.wf(),
        ensures
            match r {
                Ok(song) => self.live(s as int) && song@ == now_playing(self.slots()[s as int]->0)
                    && crate::codec::text_fits(song@),
                Err(e) => !self.live(s as int) && (e == RegistryError::NoSuchStation <==> s
                    >= self.slots().len()) && (e == RegistryError::StationShutDown <==> s
                    < self.slots().len()),
            },
    {
        let i = s as usize;
        if i >= self.stations.len() {
            return Err(RegistryError::NoSuchStation);
        }
        match &self.stations[i] {
            Some(st) => Ok(st.current_song()),
            None => Err(RegistryError::StationShutDown),
        }
    }
    /// The number of slots, shut-down stations included.
    pub fn num_slots(&self) -> (r: usize)
        requires
            self.wf(),
        ensures
            r == self.slots().len(),
            r <= MAX_STATIONS,
    {
        self.stations.len()
    }
}

} // verus!
