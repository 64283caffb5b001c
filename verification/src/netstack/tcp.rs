//! Decisions of the TCP pump: stream ids, events, listeners, and the HTTP-to-HTTPS redirect.
use vstd::prelude::*;
use crate::netstack::network::{VirtualNetwork, VirtualService, last_addr_match, MAX_SERVICES};
use crate::text::{dec, extend_str, push_dec, string_of};

verus! {

/// The HTTP port, answered with a redirect.
pub const HTTP_PORT: u16 = 80;
/// The HTTPS port, whose connections become streams.
pub const HTTPS_PORT: u16 = 443;

/// What the TCP pump reports.
#[derive(Debug)]
pub enum TcpPumpEvent {
    Connected { stream_id: String, service_id: String },
    Received { stream_id: String, service_id: String, bytes: Vec<u8> },
    Closed { stream_id: String, service_id: String },
}

/// The id of the `n`th stream: `tcp-<n>`.
pub fn tcp_stream_id(n: u64) -> (s: String)
    ensures
        s@ == "tcp-"@ + dec(n as nat),
{
    let mut out: Vec<char> = Vec::new();
    extend_str(&mut out, "tcp-");
    push_dec(&mut out, n);
    string_of(&out)
}

/// The response to any request on the HTTP port: a permanent redirect to the HTTPS URL of the host.
pub fn redirect_response(hostname: &str) -> (s: String)
    ensures
        s@ == "HTTP/1.1 308 Permanent Redirect\r\nLocation: https://"@ + hostname@
            + "/\r\nContent-Length: 0\r\nConnection: close\r\n\r\n"@,
{
    let mut out: Vec<char> = Vec::new();
    extend_str(&mut out, "HTTP/1.1 308 Permanent Redirect\r\nLocation: https://");
    extend_str(&mut out, hostname);
    extend_str(&mut out, "/\r\nContent-Length: 0\r\nConnection: close\r\n\r\n");
    string_of(&out)
}

/// The service an event belongs to: the service at the socket's local address, or the slot's.
pub fn event_service_id(network: &VirtualNetwork, local_addr: Option<[u8; 4]>, fallback_service_id: &str) -> (s: String)
    ensures
        match local_addr {
            Some(a) => match last_addr_match(network.services@, a@) {
                Some(j) => s@ == network.services@[j].id@,
                None => s@ == fallback_service_id@,
            },
            None => s@ == fallback_service_id@,
        },
{
    let found = match local_addr {
        Some(a) => network.service_for_addr(a),
        None => None,
    };
    match found {
        Some(service) => service.id.clone(),
        None => fallback_service_id.to_owned(),
    }
}

/// What the pump does when it visits a slot: whether the slot's connection becomes a new stream,
/// and whether that stream is announced (only HTTPS streams are).
pub struct StreamStart {
    pub open_stream: bool,
    pub announce: bool,
}

/// A connection that is established on a slot without a stream becomes a stream; it is announced
/// when it is on the HTTPS port.
pub fn stream_start(port: u16, established: bool, has_stream: bool) -> (r: StreamStart)
    ensures
        r.open_stream == (established && !has_stream),
        r.announce == (established && !has_stream && port == HTTPS_PORT),
{
    let open_stream = established && !has_stream;
    StreamStart { open_stream, announce: open_stream && port == HTTPS_PORT }
}

/// What the pump does with received data on a slot that holds a stream.
#[derive(Debug, Clone, Copy, PartialEq, Eq, Structural)]
pub enum SlotIo {
    /// Nothing to read.
    Idle,
    /// The HTTP port: read the request away, answer with the redirect, and close.
    Redirect,
    /// Any other port: hand the bytes on in a `Received` event.
    Deliver,
}

/// Received data on the HTTP port is answered with the redirect; on other ports it is delivered.
pub fn slot_io(port: u16, can_recv: bool) -> (r: SlotIo)
    ensures
        r == (if !can_recv { SlotIo::Idle } else if port == HTTP_PORT { SlotIo::Redirect } else { SlotIo::Deliver }),
{
    if !can_recv {
        SlotIo::Idle
    } else if port == HTTP_PORT {
        SlotIo::Redirect
    } else {
        SlotIo::Deliver
    }
}

/// A stream has ended once its socket is neither active nor able to receive: it is reported
/// `Closed` and the slot is freed.
pub fn stream_finished(active: bool, may_recv: bool) -> (r: bool)
    ensures
        r == (!active && !may_recv),
{
    !active && !may_recv
}

/// The state of one TCP socket slot as the pump sees it.
pub struct SlotState {
    pub service_id: String,
    pub port: u16,
    pub has_stream: bool,
    pub listening: bool,
}

/// The `k`th listener the network wants: service `k / 2`, on HTTP for even `k`, HTTPS for odd.
pub open spec fn desired_port(k: int) -> u16 {
    if k % 2 == 0 { HTTP_PORT } else { HTTPS_PORT }
}

/// A slot already listens, free of streams, for the service with id `id` on `port`.
pub open spec fn has_free_listener(slots: Seq<SlotState>, id: Seq<char>, port: u16) -> bool {
    exists|i: int|
        0 <= i < slots.len() && (#[trigger] slots[i]).service_id@ == id && slots[i].port == port
            && !slots[i].has_stream && slots[i].listening
}

/// A listener for the service id `id` on `port` is already among the planned ones.
pub open spec fn planned_for(services: Seq<VirtualService>, planned: Seq<(int, u16)>, id: Seq<char>, port: u16) -> bool {
    exists|j: int| 0 <= j < planned.len() && services[(#[trigger] planned[j]).0].id@ == id && planned[j].1 == port
}

/// The wanted listeners among the first `k` that neither a slot nor an earlier planned listener
/// provides, as (service index, port): a listener serves every service with its id.
pub open spec fn missing_upto(services: Seq<VirtualService>, slots: Seq<SlotState>, k: int) -> Seq<(int, u16)>
    decreases k,
{
    if k <= 0 {
        seq![]
    } else {
        let prev = missing_upto(services, slots, k - 1);
        let i = (k - 1) / 2;
        let port = desired_port(k - 1);
        if has_free_listener(slots, services[i].id@, port) || planned_for(services, prev, services[i].id@, port) {
            prev
        } else {
            prev.push((i, port))
        }
    }
}

fn free_listener(slots: &Vec<SlotState>, id: &String, port: u16) -> (r: bool)
    ensures
        r == has_free_listener(slots@, id@, port),
{
    let mut i: usize = 0;
    while i < slots.len()
        invariant
            i <= slots@.len(),
            forall|k: int| 0 <= k < i ==> !((#[trigger] slots@[k]).service_id@ == id@ && slots@[k].port == port
                && !slots@[k].has_stream && slots@[k].listening),
        decreases slots@.len() - i,
    {
        let s = &slots[i];
        if s.port == port && !s.has_stream && s.listening && s.service_id.eq(id) {
            return true;
        }
        i = i + 1;
    }
    false
}

/// Whether a listener for `id` on `port` is already planned (see `planned_for`).
fn already_planned(services: &Vec<VirtualService>, out: &Vec<(usize, u16)>, id: &String, port: u16, Ghost(planned): Ghost<Seq<(int, u16)>>) -> (r: bool)
    requires
        out@.len() == planned.len(),
        forall|j: int| 0 <= j < out@.len() ==> (#[trigger] out@[j]).0 as int == planned[j].0 && out@[j].1 == planned[j].1,
        forall|j: int| 0 <= j < out@.len() ==> (#[trigger] out@[j]).0 < services@.len(),
    ensures
        r == planned_for(services@, planned, id@, port),
{
    let mut j: usize = 0;
    while j < out.len()
        invariant
            j <= out@.len(),
            out@.len() == planned.len(),
            forall|m: int| 0 <= m < out@.len() ==> (#[trigger] out@[m]).0 as int == planned[m].0 && out@[m].1 == planned[m].1,
            forall|m: int| 0 <= m < out@.len() ==> (#[trigger] out@[m]).0 < services@.len(),
            forall|m: int| 0 <= m < j ==> !(services@[(#[trigger] planned[m]).0].id@ == id@ && planned[m].1 == port),
        decreases out@.len() - j,
    {
        let (idx, p) = out[j];
        assert(out@[j as int].0 < services@.len());
        if p == port && services[idx].id.eq(id) {
            assert(planned[j as int].0 == idx as int);
            return true;
        }
        assert(planned[j as int].0 == idx as int);
        j = j + 1;
    }
    proof {
        assert forall|m: int| 0 <= m < planned.len() implies !(services@[(#[trigger] planned[m]).0].id@ == id@ && planned[m].1 == port) by {}
    }
    false
}

/// The listeners to open so that every service id listens on HTTP and HTTPS with a slot that holds
/// no stream, in service order, HTTP before HTTPS.
pub fn missing_listeners(network: &VirtualNetwork, slots: &Vec<SlotState>) -> (r: Vec<(usize, u16)>)
    requires
        network.wf(),
    ensures
        r@.len() == missing_upto(network.services@, slots@, 2 * network.services@.len() as int).len(),
        forall|j: int| 0 <= j < r@.len() ==> (#[trigger] r@[j]).0 as int == missing_upto(network.services@, slots@, 2 * network.services@.len() as int)[j].0
            && r@[j].1 == missing_upto(network.services@, slots@, 2 * network.services@.len() as int)[j].1,
{
    let n = network.services.len();
    let mut out: Vec<(usize, u16)> = Vec::new();
    let mut k: usize = 0;
    while k < 2 * n
        invariant
            n == network.services@.len(),
            n <= MAX_SERVICES,
            k <= 2 * n,
            out@.len() == missing_upto(network.services@, slots@, k as int).len(),
            forall|j: int| 0 <= j < out@.len() ==> (#[trigger] out@[j]).0 as int == missing_upto(network.services@, slots@, k as int)[j].0
                && out@[j].1 == missing_upto(network.services@, slots@, k as int)[j].1,
            forall|j: int| 0 <= j < out@.len() ==> (#[trigger] out@[j]).0 < n,
        decreases 2 * n - k,
    {
        let i = k / 2;
        let port = if k % 2 == 0 { HTTP_PORT } else { HTTPS_PORT };
        let ghost prev = missing_upto(network.services@, slots@, k as int);
        if !free_listener(slots, &network.services[i].id, port)
            && !already_planned(&network.services, &out, &network.services[i].id, port, Ghost(prev)) {
            out.push((i, port));
        }
        k = k + 1;
    }
    out
}

/// The slot a planned listener becomes: free of streams and listening.
pub open spec fn planned_slot(services: Seq<VirtualService>, p: (int, u16)) -> SlotState {
    SlotState { service_id: services[p.0].id, port: p.1, has_stream: false, listening: true }
}

/// The slots once the planned listeners are added after them.
pub open spec fn slots_with_planned(services: Seq<VirtualService>, slots: Seq<SlotState>, planned: Seq<(int, u16)>) -> Seq<SlotState> {
    slots + planned.map_values(|p: (int, u16)| planned_slot(services, p))
}

proof fn lemma_missing_upto_covers(services: Seq<VirtualService>, slots: Seq<SlotState>, k: int)
    requires
        0 <= k,
        k <= 2 * services.len(),
    ensures
        forall|m: int| 0 <= m < k ==> #[trigger] has_free_listener(slots, services[m / 2].id@, desired_port(m))
            || planned_for(services, missing_upto(services, slots, k), services[m / 2].id@, desired_port(m)),
    decreases k,
{
    if k > 0 {
        lemma_missing_upto_covers(services, slots, k - 1);
        let prev = missing_upto(services, slots, k - 1);
        let cur = missing_upto(services, slots, k);
        assert forall|m: int| 0 <= m < k implies #[trigger] has_free_listener(slots, services[m / 2].id@, desired_port(m))
            || planned_for(services, cur, services[m / 2].id@, desired_port(m)) by {
            let id = services[m / 2].id@;
            let port = desired_port(m);
            if m < k - 1 {
                if !has_free_listener(slots, id, port) {
                    assert(planned_for(services, prev, id, port));
                    let j = choose|j: int| 0 <= j < prev.len() && services[(#[trigger] prev[j]).0].id@ == id && prev[j].1 == port;
                    if cur != prev {
                        assert(cur[j] == prev[j]);
                    }
                    assert(cur[j] == prev[j]);
                }
            } else {
                if !has_free_listener(slots, id, port) && !planned_for(services, prev, id, port) {
                    assert(cur == prev.push(((k - 1) / 2, port)));
                    assert(cur[prev.len() as int] == ((k - 1) / 2, port));
                }
            }
        }
    }
}

/// Opening the planned listeners completes the slots: afterwards every service id has a listener
/// free of streams on both HTTP and HTTPS, while the slots already there, open streams included,
/// stay as they were.
pub proof fn lemma_missing_listeners_complete(services: Seq<VirtualService>, slots: Seq<SlotState>)
    ensures
        ({
            let planned = missing_upto(services, slots, 2 * services.len() as int);
            let after = slots_with_planned(services, slots, planned);
            &&& after.take(slots.len() as int) == slots
            &&& forall|i: int| 0 <= i < services.len() ==> #[trigger] has_free_listener(after, services[i].id@, HTTP_PORT)
                && has_free_listener(after, services[i].id@, HTTPS_PORT)
        }),
{
    let n = services.len() as int;
    let planned = missing_upto(services, slots, 2 * n);
    let after = slots_with_planned(services, slots, planned);
    assert(after.take(slots.len() as int) =~= slots);
    lemma_missing_upto_covers(services, slots, 2 * n);
    assert forall|id: Seq<char>, port: u16|
        #![trigger has_free_listener(after, id, port)]
        has_free_listener(slots, id, port) || planned_for(services, planned, id, port) implies has_free_listener(after, id, port) by {
        if has_free_listener(slots, id, port) {
            let i = choose|i: int| 0 <= i < slots.len() && (#[trigger] slots[i]).service_id@ == id && slots[i].port == port
                && !slots[i].has_stream && slots[i].listening;
            assert(after[i] == slots[i]);
        } else {
            let j = choose|j: int| 0 <= j < planned.len() && services[(#[trigger] planned[j]).0].id@ == id && planned[j].1 == port;
            assert(after[slots.len() + j] == planned_slot(services, planned[j]));
        }
    }
    assert forall|i: int| 0 <= i < services.len() implies #[trigger] has_free_listener(after, services[i].id@, HTTP_PORT)
        && has_free_listener(after, services[i].id@, HTTPS_PORT) by {
        assert((2 * i) / 2 == i);
        assert((2 * i + 1) / 2 == i);
        assert(desired_port(2 * i) == HTTP_PORT);
        assert(desired_port(2 * i + 1) == HTTPS_PORT);
        assert(has_free_listener(slots, services[(2 * i) / 2].id@, desired_port(2 * i))
            || planned_for(services, planned, services[(2 * i) / 2].id@, desired_port(2 * i)));
        assert(has_free_listener(slots, services[(2 * i + 1) / 2].id@, desired_port(2 * i + 1))
            || planned_for(services, planned, services[(2 * i + 1) / 2].id@, desired_port(2 * i + 1)));
    }
}

} // verus!
