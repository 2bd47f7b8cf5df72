//! What a server decides before it adopts a socket: which versions a
//! listener on a port negotiates among.

use vstd::prelude::*;

use crate::errors::Error;
use crate::models::{offered, port_transport, Port, TransportKind, Version};

verus! {

/// The name a transport is reported under.
pub open spec fn transport_name(transport: TransportKind) -> Seq<char> {
    match transport {
        TransportKind::Stream => "Stream"@,
        TransportKind::QUIC => "QUIC"@,
    }
}

/// The reason a port is refused for carrying none of the configured
/// versions.
pub open spec fn no_version_reason(transport: TransportKind) -> Seq<char> {
    "no configured version runs over "@ + transport_name(transport)
}

/// Every version a port offers runs over the port's transport and was
/// configured, and every configured version that runs over it is offered.
pub proof fn law_offered_versions(versions: Seq<Version>, transport: TransportKind)
    ensures
        forall|i: int| 0 <= i < offered(versions, transport).len() ==> {
            &&& crate::models::version_transport(#[trigger] offered(versions, transport)[i]) == transport
            &&& versions.contains(offered(versions, transport)[i])
        },
        forall|i: int| 0 <= i < versions.len() && crate::models::version_transport(#[trigger] versions[i]) == transport
            ==> offered(versions, transport).contains(versions[i]),
        offered(versions, transport).len() <= versions.len(),
    decreases versions.len(),
{
    if versions.len() > 0 {
        let rest = versions.drop_last();
        law_offered_versions(rest, transport);
        let out = offered(versions, transport);
        let before = offered(rest, transport);
        assert forall|i: int| 0 <= i < out.len() implies {
            &&& crate::models::version_transport(#[trigger] out[i]) == transport
            &&& versions.contains(out[i])
        } by {
            if i < before.len() {
                assert(out[i] == before[i]);
                let j = choose|j: int| 0 <= j < rest.len() && rest[j] == before[i];
                assert(versions[j] == rest[j]);
            } else {
                assert(out[i] == versions.last());
                assert(versions[versions.len() - 1] == versions.last());
            }
        }
        assert forall|i: int| 0 <= i < versions.len() && crate::models::version_transport(#[trigger] versions[i]) == transport
            implies out.contains(versions[i]) by {
            if i < rest.len() {
                assert(rest[i] == versions[i]);
                let j = choose|j: int| 0 <= j < before.len() && before[j] == rest[i];
                assert(out[j] == before[j]);
            } else {
                assert(out[out.len() - 1] == versions[i]);
            }
        }
    }
}

/// The versions a listener on `target` negotiates among: those of
/// `versions` the port can carry, in order. The same list is what goes out
/// by ALPN, so a peer is never offered a version the port would turn away.
///
/// # Errors
///
/// [`Error::Version`] when the port carries none of them.
pub fn attach_versions(target: &Port, versions: &[Version]) -> (out: Result<Vec<Version>, Error>)
    ensures
        match out {
            Ok(offers) => offers@ == offered(versions@, port_transport(*target)) && offers@.len() > 0,
            Err(e) => offered(versions@, port_transport(*target)).len() == 0
                && (e matches Error::Version(reason) && reason@ == no_version_reason(port_transport(*target))),
        },
{
    let offers = target.offers(versions);
    if offers.len() == 0 {
        let mut reason = String::from_str("no configured version runs over ");
        match target.transport() {
            TransportKind::Stream => reason.append("Stream"),
            TransportKind::QUIC => reason.append("QUIC"),
        }
        return Err(Error::Version(reason));
    }
    Ok(offers)
}

/// How a server spreads its ports over its workers.
#[derive(Debug, Clone, PartialEq, Eq)]
pub struct WorkerPlan {
    /// How many workers run: at least one.
    pub workers: usize,
    /// For each port, in order, whether every worker binds it on its own
    /// (under `SO_REUSEPORT`) rather than sharing one duplicated descriptor.
    pub independent: Vec<bool>,
}

/// Whether a port is a Unix domain socket.
pub open spec fn is_uds(port: Port) -> bool {
    port matches Port::UDS(_)
}

/// Whether a port carries QUIC.
pub open spec fn is_quic(port: Port) -> bool {
    port matches Port::QUIC(_)
}

/// The reason a cluster is refused for a QUIC port it cannot share.
pub open spec fn quic_reuseport_reason() -> Seq<char> {
    "a QUIC port needs reuseport to run on more than one worker"@
}

/// Whether a port is a Unix domain socket, and whether it carries QUIC.
fn port_shape(port: &Port) -> (shape: (bool, bool))
    ensures
        shape.0 == is_uds(*port),
        shape.1 == is_quic(*port),
{
    match port {
        Port::UDS(_) => (true, false),
        Port::TCP(_) => (false, false),
        Port::QUIC(_) => (false, true),
    }
}

/// How a server runs `ports` on `workers` threads.
///
/// At least one worker runs. Under `SO_REUSEPORT` each worker binds a TCP
/// or QUIC port on its own, so the kernel spreads connections between them;
/// a Unix socket, or any port with reuseport off, is opened once and its
/// descriptor shared.
///
/// # Errors
///
/// [`Error::Io`] when a QUIC port is asked for more than one worker without
/// reuseport, since a QUIC port cannot be shared.
pub fn plan_workers(ports: &[Port], workers: usize, reuseport: bool) -> (out: Result<WorkerPlan, Error>)
    ensures
        match out {
            Ok(plan) => {
                &&& plan.workers == if workers == 0 { 1 } else { workers }
                &&& !(plan.workers > 1 && !reuseport && exists|i: int| 0 <= i < ports@.len() && is_quic(#[trigger] ports@[i]))
                &&& plan.independent@.len() == ports@.len()
                &&& forall|i: int| 0 <= i < ports@.len() ==> plan.independent@[i] == (reuseport && !is_uds(#[trigger] ports@[i]))
            },
            Err(e) => {
                &&& (if workers == 0 { 1 } else { workers }) > 1 && !reuseport
                &&& exists|i: int| 0 <= i < ports@.len() && is_quic(#[trigger] ports@[i])
                &&& e matches Error::Io(reason) && reason@ == quic_reuseport_reason()
            },
        },
{
    let workers = if workers == 0 { 1 } else { workers };
    let mut independent: Vec<bool> = Vec::new();
    let mut any_quic = false;
    let mut i: usize = 0;
    while i < ports.len()
        invariant
            i <= ports.len(),
            independent@.len() == i,
            forall|k: int| 0 <= k < i ==> #[trigger] independent@[k] == (reuseport && !is_uds(ports@[k])),
            any_quic == exists|k: int| 0 <= k < i && is_quic(#[trigger] ports@[k]),
        decreases ports.len() - i,
    {
        let (uds, quic) = port_shape(&ports[i]);
        assert(uds == is_uds(ports@[i as int]) && quic == is_quic(ports@[i as int]));
        independent.push(reuseport && !uds);
        if quic {
            any_quic = true;
        }
        i = i + 1;
    }
    if workers > 1 && !reuseport && any_quic {
        return Err(Error::Io(String::from_str("a QUIC port needs reuseport to run on more than one worker")));
    }
    Ok(WorkerPlan { workers, independent })
}

} // verus!
