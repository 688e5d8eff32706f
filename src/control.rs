//! The control plane: what the server does with each message a controller
//! sends, and what it replies.

use vstd::prelude::*;
use vstd::utf8::is_ascii_chars;

use crate::client::{Client, Endpoint};
use crate::codec::{
    texts, ClientToServerMessage, MessageResult, ServerMessage, ServerToClientMessage,
};
use crate::reason::{decimal, text, with_number};
use crate::stations::{
    has_client, has_control, live_count, now_playing, playing, queue_of, retuned, same_state,
    RegistryError, Stations,
};

verus! {

/// Where a control connection stands: waiting for its hello, registered as
/// a client, or done.
#[derive(PartialEq, Eq, Structural, Clone, Copy, Debug)]
pub enum Session {
    Init,
    Active { num: usize },
    Closed,
}

/// The values of a list of messages.
pub open spec fn views(v: Seq<ServerToClientMessage>) -> Seq<ServerMessage> {
    v.map_values(|m: ServerToClientMessage| m@)
}

/// Registry `b` is registry `a` without client `num`.
pub open spec fn detached(a: Stations, b: Stations, num: usize) -> bool {
    &&& b.slots() == a.slots()
    &&& !has_client(b.clients(), num)
    &&& has_client(a.clients(), num) ==> exists|i: int|
        0 <= i < a.clients().len() && (#[trigger] a.clients()[i]).num == num && b.clients()
            == a.clients().remove(i)
    &&& !has_client(a.clients(), num) ==> b.clients() == a.clients()
}

/// The reply `InvalidCommand(s)`.
pub open spec fn refusal(s: Seq<char>) -> Seq<ServerMessage> {
    seq![ServerMessage::InvalidCommand(s)]
}

fn invalid(reason: &str) -> (r: ServerToClientMessage)
    requires
        is_ascii_chars(reason@),
        reason@.len() <= 255,
    ensures
        r@ == ServerMessage::InvalidCommand(reason@),
        r@.fits(),
{
    ServerToClientMessage::InvalidCommand { reason: text(reason) }
}

fn refuse(reason: &str) -> (r: Vec<ServerToClientMessage>)
    requires
        is_ascii_chars(reason@),
        reason@.len() <= 255,
    ensures
        views(r@) == refusal(reason@),
        forall|k: int| 0 <= k < r@.len() ==> (#[trigger] r@[k])@.fits(),
{
    let r = vec![invalid(reason)];
    proof {
        assert(views(r@) =~= refusal(reason@));
    }
    r
}

impl Stations {
    /// Handles a controller's hello: registers it and welcomes it with the
    /// number of stations and, when it was put on station 0, that station's
    /// song.
    pub fn welcome(&mut self, control: Endpoint, udp_port: u16) -> (r: (Session, Vec<ServerToClientMessage>))
        requires
            old(self).wf(),
        ensures
            final(self).wf(),
            final(self).slots() == old(self).slots(),
            forall|k: int| 0 <= k < r.1@.len() ==> (#[trigger] r.1@[k])@.fits(),
            match r.0 {
                Session::Active { num } => {
                    &&& !has_control(old(self).clients(), control)
                    &&& num == old(self).next_num()
                    &&& final(self).clients() == old(self).clients().push(
                        Client {
                            num,
                            control_addr: control,
                            listener_addr: Endpoint { ip: control.ip, port: udp_port },
                            station: if old(self).live(0) {
                                Some(0u16)
                            } else {
                                None
                            },
                        },
                    )
                    &&& views(r.1@) == if old(self).live(0) {
                        seq![
                            ServerMessage::Welcome(live_count(old(self).slots()) as u16),
                            ServerMessage::Announce(now_playing(old(self).slots()[0]->0)),
                        ]
                    } else {
                        seq![ServerMessage::Welcome(live_count(old(self).slots()) as u16)]
                    }
                },
                Session::Closed => {
                    &&& final(self).clients() == old(self).clients()
                    &&& has_control(old(self).clients(), control) ==> views(r.1@) == refusal(
                        "User already exists."@,
                    )
                    &&& !has_control(old(self).clients(), control) ==> old(self).next_num()
                        == usize::MAX && views(r.1@) == refusal("Too many clients."@)
                },
                Session::Init => false,
            },
            (r.0 is Active) <==> !has_control(old(self).clients(), control) && old(self).next_num()
                < usize::MAX,
    {
        let count = self.num_stations();
        match self.attach(control, udp_port) {
            Ok(num) => {
                let mut out: Vec<ServerToClientMessage> = Vec::new();
                out.push(ServerToClientMessage::Welcome { num_stations: count as u16 });
                if let Ok(song) = self.station_song(0) {
                    out.push(ServerToClientMessage::Announce { song_name: song });
                }
                proof {
                    assert(views(out@) =~= if old(self).live(0) {
                        seq![
                            ServerMessage::Welcome(live_count(old(self).slots()) as u16),
                            ServerMessage::Announce(now_playing(old(self).slots()[0]->0)),
                        ]
                    } else {
                        seq![ServerMessage::Welcome(live_count(old(self).slots()) as u16)]
                    });
                }
                (Session::Active { num }, out)
            },
            Err(RegistryError::UserExists) => {
                proof {
                    reveal_strlit("User already exists.");
                }
                (Session::Closed, refuse("User already exists."))
            },
            Err(_) => {
                proof {
                    reveal_strlit("Too many clients.");
                }
                (Session::Closed, refuse("Too many clients."))
            },
        }
    }

    /// Handles `SetStation` from client `num`: moves it and announces the
    /// new station's song, or says why it stays where it is.
    pub fn set_station(&mut self, num: usize, station: u16) -> (r: (Session, Vec<ServerToClientMessage>))
        requires
            old(self).wf(),
        ensures
            final(self).wf(),
            final(self).slots() == old(self).slots(),
            final(self).next_num() == old(self).next_num(),
            forall|k: int| 0 <= k < r.1@.len() ==> (#[trigger] r.1@[k])@.fits(),
            !has_client(old(self).clients(), num) ==> {
                &&& r.0 == Session::Closed
                &&& final(self).clients() == old(self).clients()
                &&& views(r.1@) == refusal("User does not exist."@)
            },
            has_client(old(self).clients(), num) ==> r.0 == (Session::Active { num }),
            has_client(old(self).clients(), num) && old(self).live(station as int) ==> {
                &&& final(self).clients() == retuned(old(self).clients(), num, Some(station))
                &&& views(r.1@) == seq![
                    ServerMessage::Announce(now_playing(old(self).slots()[station as int]->0)),
                ]
            },
            has_client(old(self).clients(), num) && station >= old(self).slots().len() ==> {
                &&& final(self).clients() == old(self).clients()
                &&& views(r.1@) == refusal(
                    "Station does not exist: "@ + decimal(station as nat) + seq!['.'],
                )
            },
            has_client(old(self).clients(), num) && station < old(self).slots().len()
                && !old(self).live(station as int) ==> {
                &&& final(self).clients() == old(self).clients()
                &&& views(r.1@) == refusal(
                    "Requested station is shut down: "@ + decimal(station as nat) + seq!['.'],
                )
            },
    {
        match self.retune(num, station) {
            Ok(song) => {
                let out = vec![ServerToClientMessage::Announce { song_name: song }];
                proof {
                    assert(views(out@) =~= seq![
                        ServerMessage::Announce(now_playing(old(self).slots()[station as int]->0)),
                    ]);
                }
                (Session::Active { num }, out)
            },
            Err(RegistryError::NoSuchStation) => {
                proof {
                    reveal_strlit("Station does not exist: ");
                }
                let reason = with_number("Station does not exist: ", station);
                let out = vec![ServerToClientMessage::InvalidCommand { reason }];
                proof {
                    assert(views(out@) =~= refusal(
                        "Station does not exist: "@ + decimal(station as nat) + seq!['.'],
                    ));
                }
                (Session::Active { num }, out)
            },
            Err(RegistryError::StationShutDown) => {
                proof {
                    reveal_strlit("Requested station is shut down: ");
                }
                let reason = with_number("Requested station is shut down: ", station);
                let out = vec![ServerToClientMessage::InvalidCommand { reason }];
                proof {
                    assert(views(out@) =~= refusal(
                        "Requested station is shut down: "@ + decimal(station as nat) + seq!['.'],
                    ));
                }
                (Session::Active { num }, out)
            },
            Err(_) => {
                proof {
                    reveal_strlit("User does not exist.");
                }
                (Session::Closed, refuse("User does not exist."))
            },
        }
    }

    /// Handles what a read of the control connection produced, in the state
    /// the connection is in. Gives the connection's next state and the
    /// replies to send on it.
    pub fn handle_message(
        &mut self,
        session: Session,
        control: Endpoint,
        msg: MessageResult<ClientToServerMessage>,
    ) -> (r: (Session, Vec<ServerToClientMessage>))
        requires
            old(self).wf(),
        ensures
            final(self).wf(),
            forall|k: int| 0 <= k < r.1@.len() ==> (#[trigger] r.1@[k])@.fits(),
            match (session, msg) {
                (Session::Closed, _) => r.0 == Session::Closed && r.1@.len() == 0 && same_state(
                    *old(self),
                    *final(self),
                ),
                (Session::Init, MessageResult::NoData) => r.0 == Session::Init && r.1@.len() == 0
                    && same_state(*old(self), *final(self)),
                (Session::Init, MessageResult::UnrecognizedMessage) => r.0 == Session::Closed
                    && views(r.1@) == refusal("Unrecognized command."@) && same_state(
                    *old(self),
                    *final(self),
                ),
                (Session::Init, MessageResult::Message(ClientToServerMessage::Hello { udp_port })) => {
                    &&& (r.0 is Active) <==> !has_control(old(self).clients(), control)
                        && old(self).next_num() < usize::MAX
                    &&& r.0 is Active ==> {
                        &&& r.0 == (Session::Active { num: old(self).next_num() })
                        &&& final(self).clients() == old(self).clients().push(
                            Client {
                                num: old(self).next_num(),
                                control_addr: control,
                                listener_addr: Endpoint { ip: control.ip, port: udp_port },
                                station: if old(self).live(0) {
                                    Some(0u16)
                                } else {
                                    None
                                },
                            },
                        )
                        &&& views(r.1@) == if old(self).live(0) {
                            seq![
                                ServerMessage::Welcome(live_count(old(self).slots()) as u16),
                                ServerMessage::Announce(now_playing(old(self).slots()[0]->0)),
                            ]
                        } else {
                            seq![ServerMessage::Welcome(live_count(old(self).slots()) as u16)]
                        }
                    }
                    &&& r.0 is Closed ==> {
                        &&& final(self).clients() == old(self).clients()
                        &&& has_control(old(self).clients(), control) ==> views(r.1@) == refusal(
                            "User already exists."@,
                        )
                        &&& !has_control(old(self).clients(), control) ==> views(r.1@) == refusal(
                            "Too many clients."@,
                        )
                    }
                    &&& final(self).slots() == old(self).slots()
                },
                (Session::Init, MessageResult::Message(_)) => r.0 == Session::Closed && views(r.1@)
                    == refusal("Must start with a hello message."@) && same_state(
                    *old(self),
                    *final(self),
                ),
                (Session::Active { num }, MessageResult::NoData) => r.0 == session && r.1@.len()
                    == 0 && same_state(*old(self), *final(self)),
                (Session::Active { num }, MessageResult::UnrecognizedMessage) => r.0
                    == Session::Closed && views(r.1@) == refusal("Unrecognized message."@)
                    && detached(*old(self), *final(self), num),
                (
                    Session::Active { num },
                    MessageResult::Message(ClientToServerMessage::Hello { .. }),
                ) => r.0 == Session::Closed && views(r.1@) == refusal("Repeat hello message."@)
                    && detached(*old(self), *final(self), num),
                (
                    Session::Active { num },
                    MessageResult::Message(ClientToServerMessage::SetStation { station_number }),
                ) => {
                    &&& (r.0 is Active) == has_client(old(self).clients(), num)
                    &&& has_client(old(self).clients(), num) && old(self).live(
                        station_number as int,
                    ) ==> final(self).clients() == retuned(
                        old(self).clients(),
                        num,
                        Some(station_number),
                    ) && views(r.1@) == seq![
                        ServerMessage::Announce(
                            now_playing(old(self).slots()[station_number as int]->0),
                        ),
                    ]
                    &&& !(has_client(old(self).clients(), num) && old(self).live(
                        station_number as int,
                    )) ==> final(self).clients() == old(self).clients()
                    &&& final(self).slots() == old(self).slots()
                    &&& !has_client(old(self).clients(), num) ==> views(r.1@) == refusal(
                        "User does not exist."@,
                    )
                    &&& has_client(old(self).clients(), num) && station_number >= old(
                        self,
                    ).slots().len() ==> views(r.1@) == refusal(
                        "Station does not exist: "@ + decimal(station_number as nat) + seq!['.'],
                    )
                    &&& has_client(old(self).clients(), num) && station_number < old(
                        self,
                    ).slots().len() && !old(self).live(station_number as int) ==> views(r.1@)
                        == refusal(
                        "Requested station is shut down: "@ + decimal(station_number as nat)
                            + seq!['.'],
                    )
                },
                (Session::Active { num }, MessageResult::Message(ClientToServerMessage::GetQueue)) => {
                    &&& r.0 == session
                    &&& same_state(*old(self), *final(self))
                    &&& !has_client(old(self).clients(), num) ==> r.1@.len() == 0
                    &&& forall|i: int|
                        0 <= i < old(self).clients().len() && (#[trigger] old(self).clients()[i]).num
                            == num ==> match old(self).clients()[i].station {
                            None => r.1@.len() == 0,
                            Some(s) => views(r.1@) == seq![
                                ServerMessage::SongQueue(queue_of(old(self).slots()[s as int]->0)),
                            ],
                        }
                },
                (
                    Session::Active { num },
                    MessageResult::Message(ClientToServerMessage::ListStations),
                ) => r.0 == session && same_state(*old(self), *final(self)) && views(r.1@)
                    == seq![ServerMessage::Stations(playing(old(self).slots()))],
            },
    {
        proof {
            self.lemma_same_state_refl();
        }
        match session {
            Session::Closed => (Session::Closed, Vec::new()),
            Session::Init => match msg {
                MessageResult::NoData => (Session::Init, Vec::new()),
                MessageResult::UnrecognizedMessage => {
                    proof {
                        reveal_strlit("Unrecognized command.");
                    }
                    (Session::Closed, refuse("Unrecognized command."))
                },
                MessageResult::Message(ClientToServerMessage::Hello { udp_port }) => {
                    let r = self.welcome(control, udp_port);
                    r
                },
                MessageResult::Message(_) => {
                    proof {
                        reveal_strlit("Must start with a hello message.");
                    }
                    (Session::Closed, refuse("Must start with a hello message."))
                },
            },
            Session::Active { num } => match msg {
                MessageResult::NoData => (session, Vec::new()),
                MessageResult::UnrecognizedMessage => {
                    self.detach(num);
                    proof {
                        reveal_strlit("Unrecognized message.");
                    }
                    (Session::Closed, refuse("Unrecognized message."))
                },
                MessageResult::Message(ClientToServerMessage::Hello { .. }) => {
                    self.detach(num);
                    proof {
                        reveal_strlit("Repeat hello message.");
                    }
                    (Session::Closed, refuse("Repeat hello message."))
                },
                MessageResult::Message(ClientToServerMessage::SetStation { station_number }) => {
                    self.set_station(num, station_number)
                },
                MessageResult::Message(ClientToServerMessage::GetQueue) => {
                    let mut out: Vec<ServerToClientMessage> = Vec::new();
                    if let Some(songs) = self.get_queue(num) {
                        out.push(ServerToClientMessage::SongQueue { songs });
                        proof {
                            assert(views(out@) =~= seq![ServerMessage::SongQueue(texts(songs@))]);
                        }
                    }
                    (session, out)
                },
                MessageResult::Message(ClientToServerMessage::ListStations) => {
                    let stations = self.current_songs();
                    let out = vec![ServerToClientMessage::Stations { stations }];
                    proof {
                        assert(views(out@) =~= seq![ServerMessage::Stations(playing(old(self).slots()))]);
                    }
                    (session, out)
                },
            },
        }
    }
}

} // verus!
