//! A controller known to the server: where its control channel comes from,
//! where its datagrams go, and the station it listens to.

use vstd::prelude::*;

verus! {

/// An IPv4 address and a port.
#[derive(PartialEq, Eq, Structural, Clone, Copy, Debug)]
pub struct Endpoint {
    pub ip: u32,
    pub port: u16,
}

/// A connected controller.
#[derive(PartialEq, Eq, Structural, Clone, Copy, Debug)]
pub struct Client {
    pub num: usize,
    pub control_addr: Endpoint,
    pub listener_addr: Endpoint,
    pub station: Option<u16>,
}

impl Client {
    /// A client numbered `num` whose datagrams go to `udp_port` at the
    /// address its control channel comes from; it listens to no station yet.
    pub fn create(num: usize, control_addr: Endpoint, udp_port: u16) -> (r: Client)
        ensures
            r == (Client {
                num,
                control_addr,
                listener_addr: Endpoint { ip: control_addr.ip, port: udp_port },
                station: None,
            }),
    {
        Client {
            num,
            control_addr,
            listener_addr: Endpoint { ip: control_addr.ip, port: udp_port },
            station: None,
        }
    }

    pub fn num(&self) -> (r: usize)
        ensures
            r == self.num,
    {
        self.num
    }

    pub fn listener_addr(&self) -> (r: Endpoint)
        ensures
            r == self.listener_addr,
    {
        self.listener_addr
    }

    pub fn station(&self) -> (r: Option<u16>)
        ensures
            r == self.station,
    {
        self.station
    }

    pub fn set_station(&mut self, station: Option<u16>)
        ensures
            *final(self) == (Client { station, ..*old(self) }),
    {
        self.station = station;
    }
}

} // verus!
