//! The operator's commands: shut a station down, add one, list who listens,
//! and shut everything down.

use vstd::prelude::*;

use crate::client::Endpoint;
use crate::codec::{ServerMessage, ServerToClientMessage};
use crate::station::{playable, Song, Station, StationError};
use crate::stations::{
    addrs, cleared, nums, now_playing, on_station, Stations, MAX_STATIONS,
};

verus! {

/// A command from the operator.
pub enum ReplToStationsMessage {
    Shutdown { station_num: u16 },
    NewStation { songs: Vec<Song> },
    ListListeners,
    ShutdownAll,
}

/// What a station plays and where its datagrams go.
pub struct StationListing {
    pub song: String,
    pub listeners: Vec<Endpoint>,
}

/// What comes of an operator's command.
pub enum ReplOutcome {
    /// Send `message` to each of `clients`.
    Notify { clients: Vec<usize>, message: ServerToClientMessage },
    NoSuchStation { station_num: u16 },
    AlreadyShutDown { station_num: u16 },
    Rejected { error: StationError },
    /// One entry per slot; an empty slot is a station that was shut down.
    Listing { stations: Vec<Option<StationListing>> },
    /// Send `message` to each of `clients`, then stop the server.
    Exit { clients: Vec<usize>, message: ServerToClientMessage },
}

impl Stations {
    /// Adds a station and tells every client its number.
    pub fn add_new_station(&mut self, songs: Vec<Song>) -> (r: Result<(u16, Vec<usize>), StationError>)
        requires
            old(self).wf(),
        ensures
            final(self).wf(),
            final(self).clients() == old(self).clients(),
            r is Ok <==> old(self).slots().len() < MAX_STATIONS && playable(songs@),
            match r {
                Ok((n, notified)) => {
                    &&& n == old(self).slots().len()
                    &&& final(self).slots().take(n as int) == old(self).slots()
                    &&& final(self).slots().len() == n + 1
                    &&& final(self).slots()[n as int] is Some
                    &&& final(self).slots()[n as int]->0.playlist() == songs@
                    &&& notified@ == nums(old(self).clients())
                },
                Err(e) => {
                    &&& final(self).slots() == old(self).slots()
                    &&& old(self).slots().len() >= MAX_STATIONS ==> e == StationError::TooManyStations
                    &&& old(self).slots().len() < MAX_STATIONS ==> e == Station::check_spec(songs@)
                },
            },
    {
        match self.new_station(songs) {
            Ok(n) => Ok((n, self.all_clients())),
            Err(e) => Err(e),
        }
    }

    /// Each station's song and listeners, slot by slot.
    pub fn list_listeners(&self) -> (r: Vec<Option<StationListing>>)
        requires
            self.wf(),
        ensures
            r@.len() == self.slots().len(),
            forall|t: int|
                0 <= t < r@.len() ==> {
                    &&& (#[trigger] r@[t] is Some) == self.live(t)
                    &&& r@[t] is Some ==> {
                        &&& r@[t]->0.song@ == now_playing(self.slots()[t]->0)
                        &&& r@[t]->0.listeners@ == addrs(on_station(self.clients(), t as u16))
                    }
                },
    {
        let mut r: Vec<Option<StationListing>> = Vec::new();
        let n = self.num_slots();
        let mut t: usize = 0;
        while t < n
            invariant
                self.wf(),
                n == self.slots().len(),
                n <= MAX_STATIONS,
                t <= n,
                r@.len() == t,
                forall|k: int|
                    0 <= k < t ==> {
                        &&& (#[trigger] r@[k] is Some) == self.live(k)
                        &&& r@[k] is Some ==> {
                            &&& r@[k]->0.song@ == now_playing(self.slots()[k]->0)
                            &&& r@[k]->0.listeners@ == addrs(on_station(self.clients(), k as u16))
                        }
                    },
            decreases n - t,
        {
            match self.station_song(t as u16) {
                Ok(song) => {
                    let (_, listeners) = self.listeners_of(t as u16);
                    r.push(Some(StationListing { song, listeners }));
                },
                Err(_) => {
                    r.push(None);
                },
            }
            t = t + 1;
        }
        r
    }

    /// Carries out an operator's command.
    pub fn handle_repl_message(&mut self, msg: ReplToStationsMessage) -> (r: ReplOutcome)
        requires
            old(self).wf(),
        ensures
            final(self).wf(),
            match msg {
                ReplToStationsMessage::Shutdown { station_num } => if old(self).live(
                    station_num as int,
                ) {
                    &&& final(self).slots() == old(self).slots().update(station_num as int, None)
                    &&& final(self).clients() == cleared(old(self).clients(), station_num)
                    &&& r matches ReplOutcome::Notify { clients, message }
                    &&& clients@ == nums(on_station(old(self).clients(), station_num))
                    &&& message@ == ServerMessage::StationShutdown
                } else {
                    &&& final(self).slots() == old(self).slots()
                    &&& final(self).clients() == old(self).clients()
                    &&& station_num >= old(self).slots().len() ==> r
                        == (ReplOutcome::NoSuchStation { station_num })
                    &&& station_num < old(self).slots().len() ==> r
                        == (ReplOutcome::AlreadyShutDown { station_num })
                },
                ReplToStationsMessage::NewStation { songs } => {
                    &&& final(self).clients() == old(self).clients()
                    &&& if old(self).slots().len() < MAX_STATIONS && playable(songs@) {
                        &&& final(self).slots().len() == old(self).slots().len() + 1
                        &&& final(self).slots().take(old(self).slots().len() as int) == old(
                            self,
                        ).slots()
                        &&& final(self).slots().last() is Some
                        &&& final(self).slots().last()->0.playlist() == songs@
                        &&& r matches ReplOutcome::Notify { clients, message }
                        &&& clients@ == nums(old(self).clients())
                        &&& message@ == ServerMessage::NewStation(old(self).slots().len() as u16)
                    } else {
                        &&& final(self).slots() == old(self).slots()
                        &&& r is Rejected
                    }
                },
                ReplToStationsMessage::ListListeners => {
                    &&& *final(self) == *old(self)
                    &&& r matches ReplOutcome::Listing { stations }
                    &&& stations@.len() == old(self).slots().len()
                    &&& forall|t: int|
                        0 <= t < stations@.len() ==> {
                            &&& (#[trigger] stations@[t] is Some) == old(self).live(t)
                            &&& stations@[t] is Some ==> {
                                &&& stations@[t]->0.song@ == now_playing(old(self).slots()[t]->0)
                                &&& stations@[t]->0.listeners@ == addrs(
                                    on_station(old(self).clients(), t as u16),
                                )
                            }
                        }
                },
                ReplToStationsMessage::ShutdownAll => {
                    &&& *final(self) == *old(self)
                    &&& r matches ReplOutcome::Exit { clients, message }
                    &&& clients@ == nums(old(self).clients())
                    &&& message@ == ServerMessage::StationShutdown
                },
            },
    {
        match msg {
            ReplToStationsMessage::Shutdown { station_num } => {
                match self.shutdown_station(station_num) {
                    Ok(clients) => ReplOutcome::Notify {
                        clients,
                        message: ServerToClientMessage::StationShutdown,
                    },
                    Err(crate::stations::RegistryError::NoSuchStation) => ReplOutcome::NoSuchStation {
                        station_num,
                    },
                    Err(_) => ReplOutcome::AlreadyShutDown { station_num },
                }
            },
            ReplToStationsMessage::NewStation { songs } => {
                match self.add_new_station(songs) {
                    Ok((n, clients)) => ReplOutcome::Notify {
                        clients,
                        message: ServerToClientMessage::NewStation { station_num: n },
                    },
                    Err(error) => ReplOutcome::Rejected { error },
                }
            },
            ReplToStationsMessage::ListListeners => ReplOutcome::Listing {
                stations: self.list_listeners(),
            },
            ReplToStationsMessage::ShutdownAll => ReplOutcome::Exit {
                clients: self.all_clients(),
                message: ServerToClientMessage::StationShutdown,
            },
        }
    }
}

} // verus!
