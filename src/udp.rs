//! UDP knocks: where the datagram goes, where it is sent from, and what it holds.

use crate::addr::SocketAddress;
use crate::errors::AppError;
use vstd::prelude::*;

verus! {

/// Lowest local port a UDP knock is sent from.
pub const EPHEMERAL_LOW: u16 = 32768;

/// Highest local port a UDP knock is sent from.
pub const EPHEMERAL_HIGH: u16 = 60999;

/// Receive buffer for a reply: one typical path MTU.
pub const REPLY_BUFFER_LEN: usize = 1500;

/// The local port chosen for the random draw `draw`.
pub open spec fn ephemeral_port_spec(draw: u32) -> u16 {
    (32768 + draw % 28232) as u16
}

/// Everything a UDP knock needs before it touches a socket.
pub struct UdpPlan {
    /// Where the datagram goes.
    pub target: SocketAddress,
    /// The local endpoint to bind: same family as the target, any address,
    /// an ephemeral port.
    pub bind: SocketAddress,
    /// The datagram body.
    pub body: Vec<u8>,
}

/// The datagram body for `payload`: the payload, or nothing.
pub open spec fn body_spec(payload: Option<Seq<u8>>) -> Seq<u8> {
    match payload {
        Some(p) => p,
        None => Seq::empty(),
    }
}

pub open spec fn opt_view(payload: &Option<Vec<u8>>) -> Option<Seq<u8>> {
    match payload {
        Some(p) => Some(p@),
        None => None,
    }
}

/// The local port for random draw `draw`, spread over `32768 ..= 60999`.
pub fn ephemeral_port_from(draw: u32) -> (r: u16)
    ensures
        r == ephemeral_port_spec(draw),
        EPHEMERAL_LOW <= r <= EPHEMERAL_HIGH,
{
    let offset: u32 = draw % 28232;
    (32768 + offset) as u16
}

/// Draws a local port in `32768 ..= 60999`.
pub fn pick_ephemeral_port() -> (r: u16)
    ensures
        EPHEMERAL_LOW <= r <= EPHEMERAL_HIGH,
        exists|draw: u32| r == ephemeral_port_spec(draw),
{
    let draw: u32 = rand::random::<u32>();
    let r = ephemeral_port_from(draw);
    assert(r == ephemeral_port_spec(draw));
    r
}

/// The address a knock on `port` goes to: the first resolved address with its
/// port replaced; without any resolved address, `NoDns`.
pub fn udp_target(addrs: &Vec<SocketAddress>, port: u16) -> (r: Result<SocketAddress, AppError>)
    ensures
        addrs@.len() == 0 <==> r is Err,
        addrs@.len() == 0 ==> r matches Err(AppError::NoDns),
        addrs@.len() > 0 ==> r == Ok::<SocketAddress, AppError>(addrs@[0].with_port_spec(port)),
{
    if addrs.len() == 0 {
        Err(AppError::NoDns)
    } else {
        Ok(addrs[0].with_port(port))
    }
}

/// The datagram body for `payload`: the payload bytes verbatim, or none.
pub fn datagram_body(payload: &Option<Vec<u8>>) -> (r: Vec<u8>)
    ensures
        r@ == body_spec(opt_view(payload)),
{
    match payload {
        Some(p) => {
            let mut r: Vec<u8> = Vec::new();
            let mut i: usize = 0;
            while i < p.len()
                invariant
                    i <= p@.len(),
                    r@ == p@.subrange(0, i as int),
                decreases p@.len() - i,
            {
                r.push(p[i]);
                i = i + 1;
                assert(r@ =~= p@.subrange(0, i as int));
            }
            assert(p@.subrange(0, p@.len() as int) =~= p@);
            r
        },
        None => Vec::new(),
    }
}

/// The plan of a UDP knock on `port` for random draw `draw`: `NoDns` without
/// any resolved address, else the first address on `port`, a local endpoint
/// of its family on the port for `draw`, and the payload as body.
pub fn plan_udp_knock_with(
    addrs: &Vec<SocketAddress>,
    port: u16,
    payload: &Option<Vec<u8>>,
    draw: u32,
) -> (r: Result<UdpPlan, AppError>)
    ensures
        addrs@.len() == 0 <==> r is Err,
        addrs@.len() == 0 ==> r matches Err(AppError::NoDns),
        r matches Ok(plan) ==> {
            &&& plan.target == addrs@[0].with_port_spec(port)
            &&& plan.bind == plan.target.unspecified_like_spec(ephemeral_port_spec(draw))
            &&& plan.body@ == body_spec(opt_view(payload))
        },
{
    let target = match udp_target(addrs, port) {
        Ok(t) => t,
        Err(e) => return Err(e),
    };
    let local = ephemeral_port_from(draw);
    let bind = target.unspecified_like(local);
    let body = datagram_body(payload);
    Ok(UdpPlan { target, bind, body })
}

/// The plan of a UDP knock on `port`, with a random local port: `NoDns`
/// without any resolved address, which comes before any socket is made.
pub fn plan_udp_knock(addrs: &Vec<SocketAddress>, port: u16, payload: &Option<Vec<u8>>) -> (r:
    Result<UdpPlan, AppError>)
    ensures
        addrs@.len() == 0 <==> r is Err,
        addrs@.len() == 0 ==> r matches Err(AppError::NoDns),
        r matches Ok(plan) ==> {
            &&& plan.target == addrs@[0].with_port_spec(port)
            &&& exists|draw: u32| plan.bind == plan.target.unspecified_like_spec(ephemeral_port_spec(draw))
            &&& EPHEMERAL_LOW <= plan.bind.port_spec() <= EPHEMERAL_HIGH
            &&& plan.body@ == body_spec(opt_view(payload))
        },
{
    let draw: u32 = rand::random::<u32>();
    let r = plan_udp_knock_with(addrs, port, payload, draw);
    if let Ok(plan) = &r {
        assert(plan.bind == plan.target.unspecified_like_spec(ephemeral_port_spec(draw)));
    }
    r
}

} // verus!
