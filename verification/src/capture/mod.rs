//! Packet capture: the flows that frames belong to, and the decisions of the
//! loop that reads frames from an interface.

pub mod control;
pub mod laws;
pub mod packet;

use vstd::prelude::*;

use crate::net::IpAddr;

verus! {

/// Transport protocol of a flow.
#[derive(Clone, Copy, Debug, PartialEq, Eq, Hash, Structural)]
pub enum Protocol {
    Tcp,
    Udp,
    Other(u8),
}

/// Direction of a packet as seen from this host.
#[derive(Clone, Copy, Debug, PartialEq, Eq, Hash, Structural)]
pub enum Direction {
    Tx,
    Rx,
}

/// The endpoints and the protocol that identify a flow.
#[derive(Clone, Copy, Debug, PartialEq, Eq, Hash, Structural)]
pub struct FlowKey {
    pub src_ip: IpAddr,
    pub dst_ip: IpAddr,
    pub src_port: u16,
    pub dst_port: u16,
    pub protocol: Protocol,
}

/// One captured packet, reduced to what traffic accounting needs.
#[derive(Clone, Copy, Debug)]
pub struct FlowRecord {
    pub key: FlowKey,
    pub byte_count: u32,
    pub timestamp: u64,
    pub direction: Direction,
}

} // verus!
