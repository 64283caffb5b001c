//! Messages exchanged between clients, nodes and the control plane.
use vstd::prelude::*;

verus! {

/// The kind of a published service.
#[derive(Debug, Clone, Copy, PartialEq, Eq, Structural)]
pub enum ServiceKind {
    Https,
    Ssh,
}

impl ServiceKind {
    /// The kind's name on the wire.
    pub fn as_str(self) -> (s: &'static str)
        ensures
            s@ == match self {
                ServiceKind::Https => "https"@,
                ServiceKind::Ssh => "ssh"@,
            },
    {
        match self {
            ServiceKind::Https => "https",
            ServiceKind::Ssh => "ssh",
        }
    }
}

/// The kind of a node endpoint.
#[derive(Debug, Clone, Copy, PartialEq, Eq, Structural)]
pub enum EndpointKind {
    TcpProxy,
}

impl EndpointKind {
    /// The kind's name on the wire.
    pub fn as_str(self) -> (s: &'static str)
        ensures
            s@ == "tcp_proxy"@,
    {
        "tcp_proxy"
    }
}

/// A client's request to open a session to a service.
#[derive(Debug, Clone)]
pub struct SessionOpenRequest {
    pub service_id: String,
    pub requester_device_id: String,
}

/// How a client may reach a node.
#[derive(Debug, Clone, Copy, PartialEq, Eq, Structural)]
pub enum CandidateKind {
    DirectTcp,
    RelayTcp,
    WssRelay,
}

/// One way to reach the node of a session, with its priority (higher first).
#[derive(Debug)]
pub struct PeerCandidate {
    pub kind: CandidateKind,
    pub addr: String,
    pub priority: u32,
}

/// The plain value of a candidate.
pub open spec fn candidate_view(c: PeerCandidate) -> (CandidateKind, Seq<char>, u32) {
    (c.kind, c.addr@, c.priority)
}

/// The plain values of a list of candidates.
pub open spec fn candidates_view(v: Seq<PeerCandidate>) -> Seq<(CandidateKind, Seq<char>, u32)> {
    v.map_values(|c: PeerCandidate| candidate_view(c))
}

impl PeerCandidate {
    /// A copy of the candidate.
    pub fn duplicate(&self) -> (r: PeerCandidate)
        ensures
            candidate_view(r) == candidate_view(*self),
    {
        PeerCandidate { kind: self.kind, addr: self.addr.clone(), priority: self.priority }
    }
}

/// The token that authorises a session, when it expires (seconds since the Unix epoch), and the
/// candidates to reach the node.
#[derive(Debug)]
pub struct SessionAuthorization {
    pub token: String,
    pub expires_at: i64,
    pub candidates: Vec<PeerCandidate>,
}

/// The control plane's grant of a session.
#[derive(Debug)]
pub struct SessionOpenGrant {
    pub session_id: String,
    pub service_id: String,
    pub node_id: String,
    pub relay_hint: Option<String>,
    pub authorization: SessionAuthorization,
}

/// A service a node publishes.
#[derive(Debug, Clone)]
pub struct PublishedService {
    pub id: String,
    pub kind: ServiceKind,
    pub schema_version: u32,
    pub label: Option<String>,
    pub target: String,
    pub user_name: Option<String>,
}

/// An endpoint a node listens on.
#[derive(Debug, Clone)]
pub struct NodeEndpoint {
    pub kind: EndpointKind,
    pub schema_version: u32,
    pub addr: String,
    pub priority: u32,
}

/// A node's registration with the control plane.
#[derive(Debug, Clone)]
pub struct RegisterNodeRequest {
    pub node_id: String,
    pub node_label: String,
    pub endpoints: Vec<NodeEndpoint>,
    pub services: Vec<PublishedService>,
}

/// The devices a client can see.
#[derive(Debug, Clone)]
pub struct DeviceCatalogResponse {
    pub devices: Vec<DeviceRecord>,
}

/// A device and its SSH endpoint, if it has one.
#[derive(Debug, Clone)]
pub struct DeviceRecord {
    pub id: String,
    pub name: String,
    pub ssh: Option<SshEndpoint>,
}

/// How to reach a device over SSH.
#[derive(Debug, Clone)]
pub struct SshEndpoint {
    pub service_id: String,
    pub host: String,
    pub port: u16,
    pub user: String,
}

/// `r` holds the candidates of `s`, ordered by priority (highest first), candidates of equal
/// priority in the order they were given: position `k` of `r` holds `s[p[k]]` for a permutation `p`.
pub open spec fn is_stable_priority_order(s: Seq<(CandidateKind, Seq<char>, u32)>, r: Seq<(CandidateKind, Seq<char>, u32)>, p: Seq<int>) -> bool {
    &&& r.len() == s.len()
    &&& p.len() == s.len()
    &&& forall|k: int| 0 <= k < p.len() ==> 0 <= #[trigger] p[k] < s.len() && r[k] == s[p[k]]
    &&& forall|k: int, l: int| 0 <= k < l < p.len() ==> #[trigger] p[k] != #[trigger] p[l]
    &&& forall|k: int, l: int| 0 <= k < l < r.len() ==> (#[trigger] r[k]).2 >= (#[trigger] r[l]).2
    &&& forall|k: int, l: int| 0 <= k < l < r.len() && (#[trigger] r[k]).2 == (#[trigger] r[l]).2 ==> p[k] < p[l]
}

/// The grant's candidates in the order a client tries them: highest priority first, ties in the
/// order the control plane listed them.
pub fn ordered_candidates(grant: &SessionOpenGrant) -> (r: Vec<PeerCandidate>)
    ensures
        exists|p: Seq<int>| #[trigger] is_stable_priority_order(
            candidates_view(grant.authorization.candidates@),
            candidates_view(r@),
            p,
        ),
{
    let src = &grant.authorization.candidates;
    let ghost s = candidates_view(src@);
    let mut out: Vec<PeerCandidate> = Vec::new();
    let ghost mut p: Seq<int> = seq![];
    let mut i: usize = 0;
    while i < src.len()
        invariant
            i <= src@.len(),
            s == candidates_view(src@),
            out@.len() == i,
            p.len() == i,
            forall|k: int| 0 <= k < p.len() ==> 0 <= #[trigger] p[k] < i && candidate_view(out@[k]) == s[p[k]],
            forall|k: int, l: int| 0 <= k < l < p.len() ==> #[trigger] p[k] != #[trigger] p[l],
            forall|k: int, l: int| 0 <= k < l < out@.len() ==> candidate_view(#[trigger] out@[k]).2 >= candidate_view(#[trigger] out@[l]).2,
            forall|k: int, l: int| 0 <= k < l < out@.len() && candidate_view(#[trigger] out@[k]).2 == candidate_view(#[trigger] out@[l]).2 ==> p[k] < p[l],
        decreases src@.len() - i,
    {
        let c = src[i].duplicate();
        let prio = c.priority;
        // Insert after every candidate whose priority is at least this one's.
        let mut pos: usize = 0;
        while pos < out.len() && out[pos].priority >= prio
            invariant
                pos <= out@.len(),
                forall|k: int| 0 <= k < pos ==> candidate_view(#[trigger] out@[k]).2 >= prio,
            decreases out@.len() - pos,
        {
            pos = pos + 1;
        }
        proof {
            // Everything at or after `pos` has a lower priority.
            assert forall|k: int| pos <= k < out@.len() implies candidate_view(#[trigger] out@[k]).2 < prio by {
                assert(candidate_view(out@[pos as int]).2 < prio);
                if k > pos {
                    assert(candidate_view(out@[pos as int]).2 >= candidate_view(out@[k]).2);
                }
            }
        }
        let ghost old_out = out@;
        let ghost old_p = p;
        out.insert(pos, c);
        proof {
            p = old_p.insert(pos as int, i as int);
            assert forall|k: int| 0 <= k < p.len() implies 0 <= #[trigger] p[k] < i + 1 && candidate_view(out@[k]) == s[p[k]] by {
                if k < pos {
                    assert(p[k] == old_p[k]);
                    assert(out@[k] == old_out[k]);
                } else if k == pos {
                } else {
                    assert(p[k] == old_p[k - 1]);
                    assert(out@[k] == old_out[k - 1]);
                }
            }
            assert forall|k: int, l: int| 0 <= k < l < p.len() implies #[trigger] p[k] != #[trigger] p[l] by {
                if k != pos && l != pos {
                    let ok = if k < pos { k } else { k - 1 };
                    let ol = if l < pos { l } else { l - 1 };
                    assert(p[k] == old_p[ok]);
                    assert(p[l] == old_p[ol]);
                } else if k == pos {
                    let ol = l - 1;
                    assert(p[l] == old_p[ol]);
                } else {
                    assert(p[k] == old_p[k]);
                }
            }
            assert forall|k: int, l: int| 0 <= k < l < out@.len() implies candidate_view(#[trigger] out@[k]).2 >= candidate_view(#[trigger] out@[l]).2 by {
                if k != pos && l != pos {
                    let ok = if k < pos { k } else { k - 1 };
                    let ol = if l < pos { l } else { l - 1 };
                    assert(out@[k] == old_out[ok]);
                    assert(out@[l] == old_out[ol]);
                } else if k == pos {
                    assert(out@[l] == old_out[l - 1]);
                } else {
                    assert(out@[k] == old_out[k]);
                }
            }
            assert forall|k: int, l: int| 0 <= k < l < out@.len() && candidate_view(#[trigger] out@[k]).2 == candidate_view(#[trigger] out@[l]).2 implies p[k] < p[l] by {
                if k != pos && l != pos {
                    let ok = if k < pos { k } else { k - 1 };
                    let ol = if l < pos { l } else { l - 1 };
                    assert(out@[k] == old_out[ok]);
                    assert(out@[l] == old_out[ol]);
                    assert(p[k] == old_p[ok]);
                    assert(p[l] == old_p[ol]);
                } else if k == pos {
                    assert(out@[l] == old_out[l - 1]);
                    assert(candidate_view(old_out[l - 1]).2 < prio);
                } else {
                    assert(out@[k] == old_out[k]);
                    assert(p[k] == old_p[k]);
                    assert(p[k] < i);
                }
            }
        }
        i = i + 1;
    }
    proof {
        assert(is_stable_priority_order(s, candidates_view(out@), p));
    }
    out
}

} // verus!
