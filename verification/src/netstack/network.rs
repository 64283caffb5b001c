//! Virtual addresses and `.medium` host names of published services.
use vstd::prelude::*;
use vstd::string::StringSliceAdditionalSpecFns;
use vstd::utf8::encode_utf8;
use crate::text::{chars_of, extend_str, string_of};

verus! {

/// What a token of a lower-cased name is: an ASCII letter or digit, or a separator.
pub open spec fn lower_tokens(c: char) -> Seq<Option<char>> {
    let u = c as u32;
    if 0x41 <= u && u <= 0x5a {
        seq![Some((u + 32) as char)]
    } else if (0x61 <= u && u <= 0x7a) || (0x30 <= u && u <= 0x39) {
        seq![Some(c)]
    } else if u == 0x212a {
        // KELVIN SIGN lower-cases to ASCII `k`.
        seq![Some('k')]
    } else if u == 0x130 {
        // LATIN CAPITAL LETTER I WITH DOT ABOVE lower-cases to `i` and a combining dot.
        seq![Some('i'), None]
    } else {
        // Every other character lower-cases to characters that are not ASCII letters or digits.
        seq![None]
    }
}

/// A token that may stand in a host name.
pub open spec fn tok_ok(t: Option<char>) -> bool {
    match t {
        Some(ch) => is_host_char(ch),
        None => true,
    }
}

/// One step of building a slug: letters and digits are kept, a run of separators becomes one
/// dash, and no dash starts the slug. The flag says whether the last character is such a dash.
pub open spec fn slug_step(st: (Seq<char>, bool), t: Option<char>) -> (Seq<char>, bool) {
    match t {
        Some(ch) => (st.0.push(ch), false),
        None => if !st.1 && st.0.len() > 0 {
            (st.0.push('-'), true)
        } else {
            st
        },
    }
}

/// The slug state after the given tokens.
pub open spec fn slug_tokens(st: (Seq<char>, bool), ts: Seq<Option<char>>) -> (Seq<char>, bool)
    decreases ts.len(),
{
    if ts.len() == 0 {
        st
    } else {
        slug_tokens(slug_step(st, ts[0]), ts.drop_first())
    }
}

/// The slug state after the lower-cased characters of `s`.
pub open spec fn slug_state(s: Seq<char>) -> (Seq<char>, bool)
    decreases s.len(),
{
    if s.len() == 0 {
        (seq![], false)
    } else {
        slug_tokens(slug_state(s.drop_last()), lower_tokens(s.last()))
    }
}

/// `s` without trailing dashes.
pub open spec fn strip_dashes(s: Seq<char>) -> Seq<char>
    decreases s.len(),
{
    if s.len() > 0 && s.last() == '-' {
        strip_dashes(s.drop_last())
    } else {
        s
    }
}

/// The `.medium` host name of a service named `s`: its lower-cased ASCII letters and digits, runs
/// of anything else as single dashes, no dash at either end, `service` if nothing is left.
pub open spec fn hostname_spec(s: Seq<char>) -> Seq<char> {
    let slug = strip_dashes(slug_state(s).0);
    (if slug.len() == 0 { "service"@ } else { slug }) + ".medium"@
}

/// A character that may appear in a service host name.
pub open spec fn is_host_char(c: char) -> bool {
    let u = c as u32;
    (0x61 <= u && u <= 0x7a) || (0x30 <= u && u <= 0x39) || u == 0x2d || u == 0x2e
}

/// A well-formed service host name: lower-case ASCII letters, digits, dashes and dots, ending in `.medium`.
pub open spec fn is_host_name(s: Seq<char>) -> bool {
    &&& forall|i: int| 0 <= i < s.len() ==> is_host_char(#[trigger] s[i])
    &&& s.len() >= 7
    &&& s.skip(s.len() - 7) == ".medium"@
}

fn push_token(out: &mut Vec<char>, last_dash: &mut bool, t: Option<char>)
    ensures
        (final(out)@, *final(last_dash)) == slug_step((old(out)@, *old(last_dash)), t),
{
    match t {
        Some(ch) => {
            out.push(ch);
            *last_dash = false;
        },
        None => {
            if !*last_dash && out.len() > 0 {
                out.push('-');
                *last_dash = true;
            }
        },
    }
}

fn tokens_of(c: char) -> (ts: Vec<Option<char>>)
    ensures
        ts@ == lower_tokens(c),
{
    let u = c as u32;
    let mut ts: Vec<Option<char>> = Vec::new();
    if 0x41 <= u && u <= 0x5a {
        let lower = ((u + 32) as u8) as char;
        assert(lower == (u + 32) as char) by {
            assert(((u + 32) as u8) as char == (u + 32) as char);
        }
        ts.push(Some(lower));
    } else if (0x61 <= u && u <= 0x7a) || (0x30 <= u && u <= 0x39) {
        ts.push(Some(c));
    } else if u == 0x212a {
        ts.push(Some('k'));
    } else if u == 0x130 {
        ts.push(Some('i'));
        ts.push(None);
    } else {
        ts.push(None);
    }
    assert(ts@ =~= lower_tokens(c));
    ts
}

/// The host name a service gets from its label (or id): see `hostname_spec`.
pub fn service_hostname(value: &str) -> (r: String)
    ensures
        r@ == hostname_spec(value@),
{
    let v = chars_of(value);
    let mut out: Vec<char> = Vec::new();
    let mut last_dash = false;
    let mut i: usize = 0;
    while i < v.len()
        invariant
            i <= v@.len(),
            (out@, last_dash) == slug_state(v@.take(i as int)),
        decreases v@.len() - i,
    {
        let ts = tokens_of(v[i]);
        let ghost st0 = (out@, last_dash);
        assert(ts@.skip(0) =~= ts@);
        let mut j: usize = 0;
        while j < ts.len()
            invariant
                j <= ts@.len(),
                slug_tokens(st0, ts@) == slug_tokens((out@, last_dash), ts@.skip(j as int)),
            decreases ts@.len() - j,
        {
            assert(ts@.skip(j as int).drop_first() =~= ts@.skip(j + 1));
            push_token(&mut out, &mut last_dash, ts[j]);
            j = j + 1;
        }
        assert(ts@.skip(0) =~= ts@);
        assert(v@.take(i + 1).drop_last() =~= v@.take(i as int));
        i = i + 1;
    }
    assert(v@.take(v@.len() as int) =~= v@);
    let ghost slug0 = out@;
    while out.len() > 0 && out[out.len() - 1] == '-'
        invariant
            strip_dashes(slug0) == strip_dashes(out@),
        decreases out@.len(),
    {
        out.pop();
    }
    if out.len() == 0 {
        extend_str(&mut out, "service");
    }
    extend_str(&mut out, ".medium");
    string_of(&out)
}

proof fn lemma_slug_chars_step(st: (Seq<char>, bool), t: Option<char>)
    requires
        forall|i: int| 0 <= i < st.0.len() ==> is_host_char(#[trigger] st.0[i]),
        tok_ok(t),
    ensures
        forall|i: int| 0 <= i < slug_step(st, t).0.len() ==> is_host_char(#[trigger] slug_step(st, t).0[i]),
{
}

proof fn lemma_slug_chars_tokens(st: (Seq<char>, bool), ts: Seq<Option<char>>)
    requires
        forall|i: int| 0 <= i < st.0.len() ==> is_host_char(#[trigger] st.0[i]),
        forall|i: int| 0 <= i < ts.len() ==> tok_ok(#[trigger] ts[i]),
    ensures
        forall|i: int| 0 <= i < slug_tokens(st, ts).0.len() ==> is_host_char(#[trigger] slug_tokens(st, ts).0[i]),
    decreases ts.len(),
{
    if ts.len() > 0 {
        assert(tok_ok(ts[0]));
        assert forall|i: int| 0 <= i < ts.drop_first().len() implies tok_ok(#[trigger] ts.drop_first()[i]) by {
            assert(ts.drop_first()[i] == ts[i + 1]);
        }
        lemma_slug_chars_step(st, ts[0]);
        lemma_slug_chars_tokens(slug_step(st, ts[0]), ts.drop_first());
        assert(slug_tokens(st, ts) == slug_tokens(slug_step(st, ts[0]), ts.drop_first()));
    }
}

proof fn lemma_slug_chars(s: Seq<char>)
    ensures
        forall|i: int| 0 <= i < slug_state(s).0.len() ==> is_host_char(#[trigger] slug_state(s).0[i]),
    decreases s.len(),
{
    if s.len() > 0 {
        lemma_slug_chars(s.drop_last());
        let ts = lower_tokens(s.last());
        assert forall|i: int| 0 <= i < ts.len() implies tok_ok(#[trigger] ts[i]) by {
            let u = s.last() as u32;
            if 0x41 <= u && u <= 0x5a {
                assert(((u + 32) as char) as u32 == u + 32);
            }
        }
        lemma_slug_chars_tokens(slug_state(s.drop_last()), ts);
    }
}

proof fn lemma_strip_dashes_prefix(s: Seq<char>)
    ensures
        strip_dashes(s).len() <= s.len(),
        forall|i: int| 0 <= i < strip_dashes(s).len() ==> #[trigger] strip_dashes(s)[i] == s[i],
    decreases s.len(),
{
    if s.len() > 0 && s.last() == '-' {
        lemma_strip_dashes_prefix(s.drop_last());
    }
}

/// Every service host name is well formed: lower-case ASCII letters, digits, dashes and dots,
/// ending in `.medium`.
pub proof fn lemma_hostname_well_formed(s: Seq<char>)
    ensures
        is_host_name(hostname_spec(s)),
{
    reveal_strlit("service");
    reveal_strlit(".medium");
    lemma_slug_chars(s);
    lemma_strip_dashes_prefix(slug_state(s).0);
    let slug = strip_dashes(slug_state(s).0);
    let head = if slug.len() == 0 { "service"@ } else { slug };
    let h = hostname_spec(s);
    assert(h == head + ".medium"@);
    assert(h.skip(h.len() - 7) =~= ".medium"@);
    assert forall|i: int| 0 <= i < h.len() implies is_host_char(#[trigger] h[i]) by {
        if i < head.len() {
            assert(h[i] == head[i]);
            if slug.len() > 0 {
                assert(slug[i] == slug_state(s).0[i]);
            }
        } else {
            assert(h[i] == ".medium"@[i - head.len()]);
        }
    }
}


/// A service that a node publishes: its id, an optional label, and its kind.
#[derive(Debug)]
pub struct PublishedService {
    pub id: String,
    pub label: Option<String>,
    pub kind: String,
}

/// A published service as the virtual network presents it: a host name and an address.
#[derive(Debug)]
pub struct VirtualService {
    pub id: String,
    pub hostname: String,
    pub addr: [u8; 4],
    pub kind: String,
}

/// The virtual network: the client's address, the DNS server's address, the prefix, the services.
#[derive(Debug)]
pub struct VirtualNetwork {
    pub client_addr: [u8; 4],
    pub dns_addr: [u8; 4],
    pub prefix_len: u8,
    pub services: Vec<VirtualService>,
}

/// More services than the default subnet has room for.
#[derive(Debug, Clone, Copy, PartialEq, Eq, Structural)]
pub enum NetworkError {
    TooManyServices,
    AddressOutsideSubnet,
}

/// The most services a virtual network holds.
pub const MAX_SERVICES: usize = 201;

/// The address of the service at position `i`: `10.88.0.(10 + i)`.
pub open spec fn service_addr_spec(i: int) -> Seq<u8> {
    seq![10u8, 88u8, 0u8, (10 + i) as u8]
}

/// The name a service's host name is made from: its label, or its id when it has none.
pub open spec fn display_name(p: PublishedService) -> Seq<char> {
    match p.label {
        Some(l) => l@,
        None => p.id@,
    }
}

/// The UTF-8 bytes of a service's host name.
pub open spec fn host_bytes(v: VirtualService) -> Seq<u8> {
    encode_utf8(v.hostname@)
}

/// A name with its trailing dots removed.
pub open spec fn trim_dots(b: Seq<u8>) -> Seq<u8>
    decreases b.len(),
{
    if b.len() > 0 && b.last() == 0x2eu8 {
        trim_dots(b.drop_last())
    } else {
        b
    }
}

/// ASCII upper-case letters mapped to lower case; other bytes unchanged.
pub open spec fn ascii_lower_byte(x: u8) -> u8 {
    if 0x41 <= x && x <= 0x5a {
        (x + 32) as u8
    } else {
        x
    }
}

/// A queried name as it is looked up: without trailing dots, ASCII in lower case.
pub open spec fn norm_name(b: Seq<u8>) -> Seq<u8> {
    trim_dots(b).map_values(|x: u8| ascii_lower_byte(x))
}

/// The last position whose service has host name bytes `name`.
pub open spec fn last_host_match(services: Seq<VirtualService>, name: Seq<u8>) -> Option<int>
    decreases services.len(),
{
    if services.len() == 0 {
        None
    } else if host_bytes(services.last()) == name {
        Some(services.len() - 1)
    } else {
        last_host_match(services.drop_last(), name)
    }
}

/// The last position whose service has address `addr`.
pub open spec fn last_addr_match(services: Seq<VirtualService>, addr: Seq<u8>) -> Option<int>
    decreases services.len(),
{
    if services.len() == 0 {
        None
    } else if services.last().addr@ == addr {
        Some(services.len() - 1)
    } else {
        last_addr_match(services.drop_last(), addr)
    }
}

fn same_bytes(a: &[u8], b: &[u8]) -> (r: bool)
    ensures
        r == (a@ == b@),
{
    if a.len() != b.len() {
        return false;
    }
    let mut i: usize = 0;
    while i < a.len()
        invariant
            a.len() == b.len(),
            i <= a.len(),
            forall|k: int| 0 <= k < i ==> a@[k] == b@[k],
        decreases a.len() - i,
    {
        if a[i] != b[i] {
            return false;
        }
        i = i + 1;
    }
    assert(a@ =~= b@);
    true
}

/// Removes trailing dots and lower-cases ASCII letters of a queried name.
pub fn normalize_name(name: &[u8]) -> (r: Vec<u8>)
    ensures
        r@ == norm_name(name@),
{
    let mut end = name.len();
    assert(name@.take(end as int) =~= name@);
    while end > 0 && name[end - 1] == 0x2e
        invariant
            end <= name.len(),
            trim_dots(name@) == trim_dots(name@.take(end as int)),
        decreases end,
    {
        assert(name@.take(end as int).drop_last() =~= name@.take(end - 1));
        end = end - 1;
    }
    assert(trim_dots(name@.take(end as int)) == name@.take(end as int));
    let mut r: Vec<u8> = Vec::new();
    let mut i: usize = 0;
    while i < end
        invariant
            end <= name.len(),
            i <= end,
            r@ == name@.take(i as int).map_values(|x: u8| ascii_lower_byte(x)),
        decreases end - i,
    {
        let x = name[i];
        let y = if 0x41 <= x && x <= 0x5a {
            x + 32
        } else {
            x
        };
        r.push(y);
        assert(name@.take(i + 1).map_values(|x: u8| ascii_lower_byte(x)) =~= name@.take(i as int).map_values(|x: u8| ascii_lower_byte(x)).push(y));
        i = i + 1;
    }
    assert(r@ =~= norm_name(name@));
    r
}

proof fn lemma_last_host_match_found(services: Seq<VirtualService>, name: Seq<u8>, j: int)
    requires
        0 <= j < services.len(),
        host_bytes(services[j]) == name,
        forall|k: int| j < k < services.len() ==> host_bytes(#[trigger] services[k]) != name,
    ensures
        last_host_match(services, name) == Some(j),
    decreases services.len(),
{
    if j < services.len() - 1 {
        lemma_last_host_match_found(services.drop_last(), name, j);
    }
}

proof fn lemma_last_host_match_none(services: Seq<VirtualService>, name: Seq<u8>)
    requires
        forall|k: int| 0 <= k < services.len() ==> host_bytes(#[trigger] services[k]) != name,
    ensures
        last_host_match(services, name) is None,
    decreases services.len(),
{
    if services.len() > 0 {
        lemma_last_host_match_none(services.drop_last(), name);
    }
}

proof fn lemma_last_addr_match_found(services: Seq<VirtualService>, addr: Seq<u8>, j: int)
    requires
        0 <= j < services.len(),
        services[j].addr@ == addr,
        forall|k: int| j < k < services.len() ==> (#[trigger] services[k]).addr@ != addr,
    ensures
        last_addr_match(services, addr) == Some(j),
    decreases services.len(),
{
    if j < services.len() - 1 {
        lemma_last_addr_match_found(services.drop_last(), addr, j);
    }
}

proof fn lemma_last_addr_match_none(services: Seq<VirtualService>, addr: Seq<u8>)
    requires
        forall|k: int| 0 <= k < services.len() ==> (#[trigger] services[k]).addr@ != addr,
    ensures
        last_addr_match(services, addr) is None,
    decreases services.len(),
{
    if services.len() > 0 {
        lemma_last_addr_match_none(services.drop_last(), addr);
    }
}

/// The address of the service at position `index`, if it stays inside the subnet.
pub fn service_addr(index: usize) -> (r: Result<[u8; 4], NetworkError>)
    ensures
        index <= 244 ==> (r matches Ok(a) && a@ == service_addr_spec(index as int)),
        index > 244 ==> r == Err::<[u8; 4], NetworkError>(NetworkError::AddressOutsideSubnet),
{
    if index > 244 {
        return Err(NetworkError::AddressOutsideSubnet);
    }
    let host = (10 + index) as u8;
    let a: [u8; 4] = [10, 88, 0, host];
    assert(a@ =~= service_addr_spec(index as int));
    Ok(a)
}

impl VirtualNetwork {
    /// The shape every network has: the fixed client and DNS addresses, a /24 prefix, services
    /// at `10.88.0.(10 + i)` with well-formed host names.
    pub open spec fn wf(&self) -> bool {
        &&& self.client_addr@ == seq![10u8, 88u8, 0u8, 2u8]
        &&& self.dns_addr@ == seq![10u8, 88u8, 0u8, 1u8]
        &&& self.prefix_len == 24
        &&& self.services@.len() <= MAX_SERVICES
        &&& forall|i: int| 0 <= i < self.services@.len() ==> {
            &&& (#[trigger] self.services@[i]).addr@ == service_addr_spec(i)
            &&& is_host_name(self.services@[i].hostname@)
        }
    }

    /// The network of the given services: service `i` gets address `10.88.0.(10 + i)` and the host
    /// name of its label (or id). More than `MAX_SERVICES` services are refused.
    pub fn new(services: &[PublishedService]) -> (r: Result<VirtualNetwork, NetworkError>)
        ensures
            services@.len() > MAX_SERVICES <==> r is Err,
            r matches Err(e) ==> e == NetworkError::TooManyServices,
            r matches Ok(n) ==> {
                &&& n.wf()
                &&& n.services@.len() == services@.len()
                &&& forall|i: int| 0 <= i < services@.len() ==> {
                    &&& (#[trigger] n.services@[i]).id@ == services@[i].id@
                    &&& n.services@[i].hostname@ == hostname_spec(display_name(services@[i]))
                    &&& n.services@[i].kind@ == services@[i].kind@
                }
            },
    {
        let mut allocated: Vec<VirtualService> = Vec::new();
        let mut index: usize = 0;
        while index < services.len()
            invariant
                index <= services@.len(),
                allocated@.len() == index,
                index <= MAX_SERVICES,
                forall|i: int| 0 <= i < index ==> {
                    &&& (#[trigger] allocated@[i]).addr@ == service_addr_spec(i)
                    &&& is_host_name(allocated@[i].hostname@)
                    &&& allocated@[i].id@ == services@[i].id@
                    &&& allocated@[i].hostname@ == hostname_spec(display_name(services@[i]))
                    &&& allocated@[i].kind@ == services@[i].kind@
                },
            decreases services@.len() - index,
        {
            if index > 200 {
                return Err(NetworkError::TooManyServices);
            }
            let service = &services[index];
            let name = match &service.label {
                Some(l) => l.as_str(),
                None => service.id.as_str(),
            };
            let hostname = service_hostname(name);
            proof {
                lemma_hostname_well_formed(display_name(services@[index as int]));
            }
            let addr = match service_addr(index) {
                Ok(a) => a,
                Err(e) => {
                    return Err(NetworkError::TooManyServices);
                },
            };
            allocated.push(VirtualService {
                id: service.id.clone(),
                hostname,
                addr,
                kind: service.kind.clone(),
            });
            index = index + 1;
        }
        let client_addr: [u8; 4] = [10, 88, 0, 2];
        let dns_addr: [u8; 4] = [10, 88, 0, 1];
        assert(client_addr@ =~= seq![10u8, 88u8, 0u8, 2u8]);
        assert(dns_addr@ =~= seq![10u8, 88u8, 0u8, 1u8]);
        Ok(VirtualNetwork { client_addr, dns_addr, prefix_len: 24, services: allocated })
    }

    /// The client's address and the prefix length of the virtual interface.
    pub fn interface_cidr(&self) -> (r: ([u8; 4], u8))
        ensures
            r.0@ == self.client_addr@,
            r.1 == self.prefix_len,
    {
        (self.client_addr, self.prefix_len)
    }

    /// The address of the DNS server.
    pub fn dns_addr(&self) -> (r: [u8; 4])
        ensures
            r@ == self.dns_addr@,
    {
        self.dns_addr
    }

    /// The prefix length of the virtual subnet.
    pub fn prefix_len(&self) -> (r: u8)
        ensures
            r == self.prefix_len,
    {
        self.prefix_len
    }

    /// The services, in the order they were published.
    pub fn services(&self) -> (r: &Vec<VirtualService>)
        ensures
            r == &self.services,
    {
        &self.services
    }

    /// The service with the given host name (trailing dots and ASCII case ignored); when several
    /// share it, the last one.
    pub fn resolve_name(&self, name: &[u8]) -> (r: Option<&VirtualService>)
        ensures
            match last_host_match(self.services@, norm_name(name@)) {
                Some(j) => r == Some(&self.services@[j]),
                None => r is None,
            },
    {
        let wanted = normalize_name(name);
        let mut i = self.services.len();
        while i > 0
            invariant
                i <= self.services@.len(),
                wanted@ == norm_name(name@),
                forall|k: int| i <= k < self.services@.len() ==> host_bytes(#[trigger] self.services@[k]) != wanted@,
            decreases i,
        {
            let candidate = &self.services[i - 1];
            let hb = candidate.hostname.as_str().as_bytes();
            if same_bytes(hb, &wanted) {
                proof {
                    lemma_last_host_match_found(self.services@, wanted@, i - 1);
                }
                return Some(candidate);
            }
            i = i - 1;
        }
        proof {
            lemma_last_host_match_none(self.services@, wanted@);
        }
        None
    }

    /// The service with the given host name (see `resolve_name`).
    pub fn resolve_hostname(&self, hostname: &str) -> (r: Option<&VirtualService>)
        ensures
            match last_host_match(self.services@, norm_name(hostname.spec_bytes())) {
                Some(j) => r == Some(&self.services@[j]),
                None => r is None,
            },
    {
        self.resolve_name(hostname.as_bytes())
    }

    /// The service with the given address.
    pub fn service_for_addr(&self, addr: [u8; 4]) -> (r: Option<&VirtualService>)
        ensures
            match last_addr_match(self.services@, addr@) {
                Some(j) => r == Some(&self.services@[j]),
                None => r is None,
            },
    {
        let mut i = self.services.len();
        while i > 0
            invariant
                i <= self.services@.len(),
                forall|k: int| i <= k < self.services@.len() ==> (#[trigger] self.services@[k]).addr@ != addr@,
            decreases i,
        {
            let candidate = &self.services[i - 1];
            if candidate.addr[0] == addr[0] && candidate.addr[1] == addr[1] && candidate.addr[2] == addr[2]
                && candidate.addr[3] == addr[3] {
                assert(candidate.addr@ =~= addr@);
                proof {
                    lemma_last_addr_match_found(self.services@, addr@, i - 1);
                }
                return Some(candidate);
            }
            i = i - 1;
        }
        proof {
            lemma_last_addr_match_none(self.services@, addr@);
        }
        None
    }
}


proof fn lemma_host_char_ascii(c: char)
    requires
        is_host_char(c),
    ensures
        '\0' <= c <= '\u{7f}',
{
}

proof fn lemma_host_name_normal(h: Seq<char>)
    requires
        is_host_name(h),
    ensures
        norm_name(encode_utf8(h)) == encode_utf8(h),
{
    reveal_strlit(".medium");
    assert(vstd::utf8::is_ascii_chars(h)) by {
        assert forall|i: int| 0 <= i < h.len() implies '\0' <= #[trigger] h[i] <= '\u{7f}' by {
            assert(is_host_char(h[i]));
            lemma_host_char_ascii(h[i]);
        }
    }
    vstd::utf8::is_ascii_chars_encode_utf8(h);
    let b = encode_utf8(h);
    assert(h[h.len() - 1] == h.skip(h.len() - 7)[6]);
    assert(b.last() == h[h.len() - 1] as u8);
    assert(trim_dots(b) == b);
    assert forall|i: int| 0 <= i < b.len() implies ascii_lower_byte(#[trigger] b[i]) == b[i] by {
        assert(is_host_char(h[i]));
        assert(b[i] == h[i] as u8);
    }
    assert(norm_name(b) =~= b);
}

/// Looking up a service's own host name finds a service with that host name: the service itself,
/// or a later one that has the same name.
pub proof fn lemma_resolve_finds_own_hostname(n: VirtualNetwork, i: int)
    requires
        n.wf(),
        0 <= i < n.services@.len(),
    ensures
        last_host_match(n.services@, norm_name(host_bytes(n.services@[i]))) matches Some(j)
            && i <= j < n.services@.len() && host_bytes(n.services@[j]) == host_bytes(n.services@[i]),
{
    lemma_host_name_normal(n.services@[i].hostname@);
    let name = host_bytes(n.services@[i]);
    lemma_last_host_match_is_last(n.services@, name, i);
}

proof fn lemma_last_host_match_is_last(services: Seq<VirtualService>, name: Seq<u8>, i: int)
    requires
        0 <= i < services.len(),
        host_bytes(services[i]) == name,
    ensures
        last_host_match(services, name) matches Some(j) && i <= j < services.len() && host_bytes(services[j]) == name,
    decreases services.len(),
{
    if host_bytes(services.last()) == name {
    } else {
        assert(i < services.len() - 1);
        assert(services.drop_last()[i] == services[i]);
        lemma_last_host_match_is_last(services.drop_last(), name, i);
        let j = last_host_match(services.drop_last(), name)->0;
        assert(services.drop_last()[j] == services[j]);
    }
}

/// Every service is found by its own address, and no two services share an address; none has
/// the client's or the DNS server's address.
pub proof fn lemma_service_addr_lookup(n: VirtualNetwork, i: int)
    requires
        n.wf(),
        0 <= i < n.services@.len(),
    ensures
        last_addr_match(n.services@, service_addr_spec(i)) == Some(i),
        service_addr_spec(i) != n.client_addr@,
        service_addr_spec(i) != n.dns_addr@,
{
    assert forall|k: int| i < k < n.services@.len() implies (#[trigger] n.services@[k]).addr@ != service_addr_spec(i) by {
        assert(n.services@[k].addr@ == service_addr_spec(k));
        assert(service_addr_spec(k)[3] != service_addr_spec(i)[3]);
    }
    lemma_last_addr_match_found(n.services@, service_addr_spec(i), i);
    assert(service_addr_spec(i)[3] != n.client_addr@[3]);
    assert(service_addr_spec(i)[3] != n.dns_addr@[3]);
}

} // verus!
