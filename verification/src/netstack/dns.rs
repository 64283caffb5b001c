//! The virtual network's DNS server: answers `A` queries for `.medium` names.
use vstd::prelude::*;
use vstd::string::StringSliceAdditionalSpecFns;
use vstd::utf8::{encode_utf8, valid_utf8};
use crate::netstack::network::{
    VirtualNetwork, VirtualService, ascii_lower_byte, host_bytes, is_host_char, is_host_name, last_host_match, lemma_resolve_finds_own_hostname,
    norm_name, service_addr_spec,
};
use crate::primitives::is_utf8;
use crate::text::{chars_of, join, split, split_chars, split_rec, string_of, trim_end_char, trim_end_char_chars};
use crate::transport::udp_session::{extend_bytes, from_be16, slice_bytes};

verus! {

/// Record type `A`.
pub const TYPE_A: u16 = 1;
/// Class `IN`.
pub const CLASS_IN: u16 = 1;
/// Seconds an answer may be cached.
pub const TTL_SECONDS: u32 = 30;

/// The labels of the name that starts at `off`, and the position after its terminating zero byte.
/// A label is at most 63 bytes, lies inside the packet and is UTF-8.
pub open spec fn parse_labels(p: Seq<u8>, off: int) -> Option<(Seq<Seq<u8>>, int)>
    decreases p.len() - off,
{
    if off < 0 || off >= p.len() {
        None
    } else if p[off] == 0 {
        Some((seq![], off + 1))
    } else {
        let len = p[off] as int;
        if len > 63 || off + 1 + len > p.len() {
            None
        } else if !valid_utf8(p.subrange(off + 1, off + 1 + len)) {
            None
        } else {
            match parse_labels(p, off + 1 + len) {
                Some(r) => Some((seq![p.subrange(off + 1, off + 1 + len)] + r.0, r.1)),
                None => None,
            }
        }
    }
}

/// Labels joined with dots.
pub open spec fn join_labels(ls: Seq<Seq<u8>>) -> Seq<u8>
    decreases ls.len(),
{
    if ls.len() == 0 {
        seq![]
    } else if ls.len() == 1 {
        ls[0]
    } else {
        join_labels(ls.drop_last()) + seq![0x2eu8] + ls.last()
    }
}

/// ASCII letters of `b` in lower case.
pub open spec fn ascii_lower(b: Seq<u8>) -> Seq<u8> {
    b.map_values(|x: u8| ascii_lower_byte(x))
}

/// The question of a DNS query with exactly one question: the name (dotted, ASCII lower-cased),
/// the type, the class, and where the question ends.
pub open spec fn query_spec(p: Seq<u8>) -> Option<(Seq<u8>, u16, u16, int)> {
    if p.len() < 12 || from_be16(p, 4) != 1 {
        None
    } else {
        match parse_labels(p, 12) {
            None => None,
            Some(r) => if r.1 + 4 > p.len() {
                None
            } else {
                Some((ascii_lower(join_labels(r.0)), from_be16(p, r.1), from_be16(p, r.1 + 2), r.1 + 4))
            },
        }
    }
}

/// The answer record for an address.
pub open spec fn answer_record(a: Seq<u8>) -> Seq<u8> {
    seq![0xc0u8, 0x0cu8, 0u8, 1u8, 0u8, 1u8, 0u8, 0u8, 0u8, 30u8, 0u8, 4u8] + a
}

/// The response to `req` whose question ends at `qend`: the request's id and question, the
/// response flags with `NOERROR` and one answer for an address, or `NXDOMAIN` and no answer.
pub open spec fn response_spec(req: Seq<u8>, qend: int, addr: Option<Seq<u8>>) -> Seq<u8> {
    req.take(2) + (if addr is Some { seq![0x81u8, 0x80u8] } else { seq![0x81u8, 0x83u8] }) + req.subrange(4, 6)
        + (if addr is Some { seq![0u8, 1u8] } else { seq![0u8, 0u8] }) + seq![0u8, 0u8, 0u8, 0u8]
        + req.subrange(12, qend) + (match addr {
        Some(a) => answer_record(a),
        None => seq![],
    })
}

/// The address that answers a question: an `A`/`IN` question for a service's host name.
pub open spec fn answer_addr(services: Seq<VirtualService>, name: Seq<u8>, qtype: u16, qclass: u16) -> Option<Seq<u8>> {
    if qtype == TYPE_A && qclass == CLASS_IN {
        match last_host_match(services, norm_name(name)) {
            Some(j) => Some(services[j].addr@),
            None => None,
        }
    } else {
        None
    }
}

/// A parsed DNS question.
#[derive(Debug)]
pub struct DnsQuery {
    pub name: Vec<u8>,
    pub qtype: u16,
    pub qclass: u16,
    pub question_end: usize,
}

/// Parses the single question of a DNS query.
pub fn parse_query(packet: &[u8]) -> (r: Option<DnsQuery>)
    ensures
        match query_spec(packet@) {
            Some(q) => r matches Some(d) && d.name@ == q.0 && d.qtype == q.1 && d.qclass == q.2 && d.question_end == q.3,
            None => r is None,
        },
{
    if packet.len() < 12 || (((packet[4] as u16) << 8u16) | (packet[5] as u16)) != 1 {
        return None;
    }
    let mut offset: usize = 12;
    let mut name: Vec<u8> = Vec::new();
    let ghost acc: Seq<Seq<u8>> = seq![];
    let mut first = true;
    loop
        invariant_except_break
            12 <= offset <= packet@.len(),
            first == (acc.len() == 0),
            name@ == join_labels(acc),
            parse_labels(packet@, 12) == match parse_labels(packet@, offset as int) {
                Some(r) => Some((acc + r.0, r.1)),
                None => None,
            },
        ensures
            offset <= packet@.len(),
            parse_labels(packet@, 12) == Some((acc, offset as int)),
            name@ == join_labels(acc),
        decreases packet@.len() - offset,
    {
        if offset >= packet.len() {
            return None;
        }
        let len = packet[offset] as usize;
        if len == 0 {
            offset = offset + 1;
            assert(acc + Seq::<Seq<u8>>::empty() =~= acc);
            break;
        }
        if len > 63 || len + 1 > packet.len() - offset {
            return None;
        }
        let label = slice_bytes(packet, offset + 1, offset + 1 + len);
        if !is_utf8(&label) {
            return None;
        }
        proof {
            let next = parse_labels(packet@, offset + 1 + len);
            if let Some(r) = next {
                assert(acc + (seq![label@] + r.0) =~= acc.push(label@) + r.0);
            }
            assert(join_labels(acc.push(label@)).len() >= 0);
            if acc.len() > 0 {
                assert(acc.push(label@).drop_last() =~= acc);
            }
        }
        if !first {
            name.push(0x2e);
        }
        first = false;
        extend_bytes(&mut name, &label);
        proof {
            if acc.len() > 0 {
                assert(acc.push(label@).drop_last() =~= acc);
                assert(name@ =~= join_labels(acc.push(label@)));
            } else {
                assert(name@ =~= join_labels(acc.push(label@)));
            }
            acc = acc.push(label@);
        }
        offset = offset + 1 + len;
    }
    if packet.len() - offset < 4 {
        return None;
    }
    let qtype = ((packet[offset] as u16) << 8u16) | (packet[offset + 1] as u16);
    let qclass = ((packet[offset + 2] as u16) << 8u16) | (packet[offset + 3] as u16);
    let mut lower: Vec<u8> = Vec::new();
    let mut i: usize = 0;
    while i < name.len()
        invariant
            i <= name@.len(),
            lower@ == ascii_lower(name@.take(i as int)),
        decreases name@.len() - i,
    {
        let x = name[i];
        lower.push(if 0x41 <= x && x <= 0x5a { x + 32 } else { x });
        assert(ascii_lower(name@.take(i + 1)) =~= ascii_lower(name@.take(i as int)).push(ascii_lower_byte(x)));
        i = i + 1;
    }
    assert(name@.take(name@.len() as int) =~= name@);
    Some(DnsQuery { name: lower, qtype, qclass, question_end: offset + 4 })
}

/// The response to a request whose question ends at `question_end`.
pub fn emit_response(request: &[u8], question_end: usize, addr: Option<[u8; 4]>) -> (r: Vec<u8>)
    requires
        12 <= question_end <= request@.len(),
    ensures
        r@ == response_spec(request@, question_end as int, match addr {
            Some(a) => Some(a@),
            None => None,
        }),
{
    let mut out: Vec<u8> = Vec::new();
    out.push(request[0]);
    out.push(request[1]);
    out.push(0x81);
    out.push(if addr.is_some() { 0x80 } else { 0x83 });
    out.push(request[4]);
    out.push(request[5]);
    out.push(0);
    out.push(if addr.is_some() { 1 } else { 0 });
    out.push(0);
    out.push(0);
    out.push(0);
    out.push(0);
    let question = slice_bytes(request, 12, question_end);
    extend_bytes(&mut out, &question);
    match addr {
        Some(a) => {
            out.push(0xc0);
            out.push(0x0c);
            out.push(0);
            out.push(1);
            out.push(0);
            out.push(1);
            out.push(0);
            out.push(0);
            out.push(0);
            out.push(30);
            out.push(0);
            out.push(4);
            out.push(a[0]);
            out.push(a[1]);
            out.push(a[2]);
            out.push(a[3]);
            assert(out@ =~= response_spec(request@, question_end as int, Some(a@)));
        },
        None => {
            assert(out@ =~= response_spec(request@, question_end as int, None));
        },
    }
    out
}

/// Answers a DNS query: no response when the packet is not a well-formed single-question query;
/// otherwise the address of the service whose host name is asked for `A`/`IN`, or `NXDOMAIN`.
pub fn answer_query(packet: &[u8], network: &VirtualNetwork) -> (r: Option<Vec<u8>>)
    ensures
        match query_spec(packet@) {
            Some(q) => r matches Some(resp) && resp@ == response_spec(packet@, q.3, answer_addr(network.services@, q.0, q.1, q.2)),
            None => r is None,
        },
{
    let query = match parse_query(packet) {
        Some(q) => q,
        None => {
            return None;
        },
    };
    let addr = if query.qtype == TYPE_A && query.qclass == CLASS_IN {
        match network.resolve_name(&query.name) {
            Some(service) => Some(service.addr),
            None => None,
        }
    } else {
        None
    };
    proof {
        lemma_parse_labels_end(packet@, 12);
    }
    Some(emit_response(packet, query.question_end, addr))
}

proof fn lemma_parse_labels_end(p: Seq<u8>, off: int)
    ensures
        parse_labels(p, off) matches Some(r) ==> off < r.1 <= p.len(),
    decreases p.len() - off,
{
    if off < 0 || off >= p.len() {
    } else if p[off] == 0 {
    } else {
        let len = p[off] as int;
        if len > 63 || off + 1 + len > p.len() {
        } else {
            lemma_parse_labels_end(p, off + 1 + len);
        }
    }
}


/// The encoded labels: each label's length byte followed by its UTF-8 bytes.
pub open spec fn encode_labels(ls: Seq<Seq<char>>) -> Seq<u8>
    decreases ls.len(),
{
    if ls.len() == 0 {
        seq![]
    } else {
        encode_labels(ls.drop_last()) + seq![encode_utf8(ls.last()).len() as u8] + encode_utf8(ls.last())
    }
}

/// A recursive-desired `A`/`IN` query for `name` (trailing dots dropped) with the given id.
pub open spec fn query_a_spec(transaction_id: u16, name: Seq<char>) -> Seq<u8> {
    seq![(transaction_id >> 8u16) as u8, transaction_id as u8, 0x01u8, 0x00u8, 0u8, 1u8, 0u8, 0u8, 0u8, 0u8, 0u8, 0u8]
        + encode_labels(split(trim_end_char(name, '.'), '.')) + seq![0u8, 0u8, 1u8, 0u8, 1u8]
}

/// Builds an `A`/`IN` query for `name`, as a resolver on the client would send it.
pub fn query_a(transaction_id: u16, name: &str) -> (r: Vec<u8>)
    ensures
        r@ == query_a_spec(transaction_id, name@),
{
    let mut packet: Vec<u8> = Vec::new();
    packet.push((transaction_id >> 8u16) as u8);
    packet.push(transaction_id as u8);
    packet.push(0x01);
    packet.push(0x00);
    packet.push(0);
    packet.push(1);
    packet.push(0);
    packet.push(0);
    packet.push(0);
    packet.push(0);
    packet.push(0);
    packet.push(0);
    let ghost head = packet@;
    let chars = chars_of(name);
    let trimmed = trim_end_char_chars(&chars, '.');
    let labels = split_chars(&trimmed, '.');
    let ghost ls = split(trim_end_char(name@, '.'), '.');
    let mut i: usize = 0;
    while i < labels.len()
        invariant
            i <= labels@.len(),
            labels@.len() == ls.len(),
            forall|k: int| 0 <= k < labels@.len() ==> #[trigger] labels@[k]@ == ls[k],
            packet@ == head + encode_labels(ls.take(i as int)),
        decreases labels@.len() - i,
    {
        let label = string_of(&labels[i]);
        let bytes = label.as_str().as_bytes();
        packet.push(bytes.len() as u8);
        extend_bytes(&mut packet, bytes);
        proof {
            assert(ls.take(i + 1).drop_last() =~= ls.take(i as int));
            assert(ls.take(i + 1).last() == label@);
            assert(packet@ =~= head + encode_labels(ls.take(i + 1)));
        }
        i = i + 1;
    }
    assert(ls.take(ls.len() as int) =~= ls);
    packet.push(0);
    packet.push(0);
    packet.push(1);
    packet.push(0);
    packet.push(1);
    assert(packet@ =~= query_a_spec(transaction_id, name@));
    packet
}


// ---------------------------------------------------------------------------
// Every service's host name is answered
// ---------------------------------------------------------------------------

/// The bytes of ASCII characters.
pub open spec fn ascii_bytes(s: Seq<char>) -> Seq<u8> {
    s.map_values(|c: char| c as u8)
}

/// The bytes of each label.
pub open spec fn label_bytes(ls: Seq<Seq<char>>) -> Seq<Seq<u8>> {
    ls.map_values(|l: Seq<char>| ascii_bytes(l))
}

/// Only ASCII characters.
pub open spec fn is_ascii_text(s: Seq<char>) -> bool {
    vstd::utf8::is_ascii_chars(s)
}

proof fn lemma_ascii_encode(s: Seq<char>)
    requires
        is_ascii_text(s),
    ensures
        encode_utf8(s) == ascii_bytes(s),
{
    vstd::utf8::is_ascii_chars_encode_utf8(s);
    assert(encode_utf8(s) =~= ascii_bytes(s));
}

proof fn lemma_host_char_is_ascii(c: char)
    requires
        is_host_char(c),
    ensures
        '\0' <= c <= '\u{7f}',
        ascii_lower_byte(c as u8) == c as u8,
{
}

proof fn lemma_split_parts_ascii(s: Seq<char>, sep: char, cur: Seq<char>)
    requires
        is_ascii_text(s),
        is_ascii_text(cur),
    ensures
        forall|k: int| 0 <= k < split_rec(s, sep, cur).len() ==> is_ascii_text(#[trigger] split_rec(s, sep, cur)[k]),
    decreases s.len(),
{
    if s.len() == 0 {
        assert(split_rec(s, sep, cur) =~= seq![cur]);
        assert(split_rec(s, sep, cur)[0] == cur);
    } else {
        let rest = s.drop_first();
        assert(is_ascii_text(rest)) by {
            assert forall|k: int| 0 <= k < rest.len() implies '\0' <= #[trigger] rest[k] <= '\u{7f}' by {
                assert(rest[k] == s[k + 1]);
            }
        }
        if s[0] == sep {
            lemma_split_parts_ascii(rest, sep, seq![]);
            let r = split_rec(s, sep, cur);
            assert(r == seq![cur] + split_rec(rest, sep, seq![]));
            assert forall|k: int| 0 <= k < r.len() implies is_ascii_text(#[trigger] r[k]) by {
                if k > 0 {
                    assert(r[k] == split_rec(rest, sep, seq![])[k - 1]);
                }
            }
        } else {
            let c2 = cur.push(s[0]);
            assert(is_ascii_text(c2)) by {
                assert forall|k: int| 0 <= k < c2.len() implies '\0' <= #[trigger] c2[k] <= '\u{7f}' by {
                    if k < cur.len() {
                        assert(c2[k] == cur[k]);
                    } else {
                        assert(c2[k] == s[0]);
                    }
                }
            }
            lemma_split_parts_ascii(rest, sep, c2);
            assert(split_rec(s, sep, cur) == split_rec(rest, sep, c2));
        }
    }
}

proof fn lemma_join_cons(a: Seq<char>, xs: Seq<Seq<char>>, sp: Seq<char>)
    requires
        xs.len() >= 1,
    ensures
        join(seq![a] + xs, sp) == a + sp + join(xs, sp),
    decreases xs.len(),
{
    let ys = seq![a] + xs;
    assert(ys.drop_last() =~= seq![a] + xs.drop_last());
    assert(ys.last() == xs.last());
    if xs.len() == 1 {
        let d = ys.drop_last();
        assert(d =~= seq![a]);
        assert(join(d, sp) == a);
        assert(join(xs, sp) == xs[0]);
        assert(xs.last() == xs[0]);
    } else {
        lemma_join_cons(a, xs.drop_last(), sp);
        assert(a + sp + join(xs.drop_last(), sp) + sp + xs.last() =~= a + sp + (join(xs.drop_last(), sp) + sp + xs.last()));
    }
}

proof fn lemma_join_split(s: Seq<char>, sep: char, cur: Seq<char>)
    ensures
        join(split_rec(s, sep, cur), seq![sep]) == cur + s,
        split_rec(s, sep, cur).len() >= 1,
    decreases s.len(),
{
    if s.len() == 0 {
        assert(split_rec(s, sep, cur) =~= seq![cur]);
        assert(cur + s =~= cur);
    } else {
        let rest = s.drop_first();
        if s[0] == sep {
            lemma_join_split(rest, sep, seq![]);
            let xs = split_rec(rest, sep, seq![]);
            lemma_join_cons(cur, xs, seq![sep]);
            assert(Seq::<char>::empty() + rest =~= rest);
            assert(cur + seq![sep] + rest =~= cur + s);
        } else {
            lemma_join_split(rest, sep, cur.push(s[0]));
            assert(cur.push(s[0]) + rest =~= cur + s);
        }
    }
}

proof fn lemma_encode_labels_cons(a: Seq<char>, rest: Seq<Seq<char>>)
    ensures
        encode_labels(seq![a] + rest) == seq![encode_utf8(a).len() as u8] + encode_utf8(a) + encode_labels(rest),
    decreases rest.len(),
{
    let ys = seq![a] + rest;
    if rest.len() == 0 {
        assert(ys =~= seq![a]);
        assert(ys.drop_last() =~= Seq::<Seq<char>>::empty());
        assert(encode_labels(Seq::<Seq<char>>::empty()) =~= Seq::<u8>::empty());
        assert(encode_labels(rest) =~= Seq::<u8>::empty());
        assert(ys.last() == a);
        assert(encode_labels(ys) =~= seq![encode_utf8(a).len() as u8] + encode_utf8(a) + encode_labels(rest));
    } else {
        assert(ys.drop_last() =~= seq![a] + rest.drop_last());
        assert(ys.last() == rest.last());
        lemma_encode_labels_cons(a, rest.drop_last());
        assert(encode_labels(ys) =~= seq![encode_utf8(a).len() as u8] + encode_utf8(a) + encode_labels(rest));
    }
}

proof fn lemma_parse_encoded_labels(p: Seq<u8>, off: int, ls: Seq<Seq<char>>)
    requires
        0 <= off,
        forall|k: int| 0 <= k < ls.len() ==> is_ascii_text(#[trigger] ls[k]) && 1 <= ls[k].len() <= 63,
        off + encode_labels(ls).len() < p.len(),
        p.subrange(off, off + encode_labels(ls).len()) == encode_labels(ls),
        p[off + encode_labels(ls).len()] == 0,
    ensures
        parse_labels(p, off) == Some((label_bytes(ls), off + encode_labels(ls).len() + 1)),
    decreases ls.len(),
{
    if ls.len() == 0 {
        assert(encode_labels(ls).len() == 0);
        assert(label_bytes(ls) =~= Seq::<Seq<u8>>::empty());
    } else {
        let a = ls[0];
        let rest = ls.drop_first();
        assert(ls =~= seq![a] + rest);
        lemma_encode_labels_cons(a, rest);
        lemma_ascii_encode(a);
        let e = ascii_bytes(a);
        let len = e.len() as int;
        assert(len == a.len());
        let enc = encode_labels(ls);
        assert(enc =~= seq![len as u8] + e + encode_labels(rest));
        assert(p[off] == enc[0]);
        assert(p[off] == len as u8);
        assert(p[off] as int == len);
        assert(p.subrange(off + 1, off + 1 + len) =~= e) by {
            assert forall|k: int| 0 <= k < len implies p.subrange(off + 1, off + 1 + len)[k] == e[k] by {
                assert(p.subrange(off, off + enc.len())[1 + k] == enc[1 + k]);
            }
        }
        vstd::utf8::encode_utf8_valid_utf8(a);
        assert(valid_utf8(e));
        assert forall|k: int| 0 <= k < rest.len() implies is_ascii_text(#[trigger] rest[k]) && 1 <= rest[k].len() <= 63 by {
            assert(rest[k] == ls[k + 1]);
        }
        let off2 = off + 1 + len;
        assert(encode_labels(rest).len() == enc.len() - 1 - len);
        assert(p.subrange(off2, off2 + encode_labels(rest).len()) =~= encode_labels(rest)) by {
            assert forall|k: int| 0 <= k < encode_labels(rest).len() implies p.subrange(off2, off2 + encode_labels(rest).len())[k] == encode_labels(rest)[k] by {
                assert(p.subrange(off, off + enc.len())[1 + len + k] == enc[1 + len + k]);
            }
        }
        lemma_parse_encoded_labels(p, off2, rest);
        assert(label_bytes(ls) =~= seq![e] + label_bytes(rest));
    }
}

proof fn lemma_join_label_bytes(ls: Seq<Seq<char>>)
    ensures
        join_labels(label_bytes(ls)) == ascii_bytes(join(ls, seq!['.'])),
    decreases ls.len(),
{
    if ls.len() == 0 {
        assert(ascii_bytes(join(ls, seq!['.'])) =~= Seq::<u8>::empty());
    } else if ls.len() == 1 {
        assert(label_bytes(ls)[0] == ascii_bytes(ls[0]));
    } else {
        lemma_join_label_bytes(ls.drop_last());
        assert(label_bytes(ls).drop_last() =~= label_bytes(ls.drop_last()));
        assert(label_bytes(ls).last() == ascii_bytes(ls.last()));
        assert(('.' as u8) == 0x2eu8);
        assert(ascii_bytes(join(ls, seq!['.'])) =~= ascii_bytes(join(ls.drop_last(), seq!['.'])) + seq![0x2eu8] + ascii_bytes(ls.last()));
    }
}

proof fn lemma_host_name_ascii(h: Seq<char>)
    requires
        is_host_name(h),
    ensures
        is_ascii_text(h),
        ascii_lower(ascii_bytes(h)) == ascii_bytes(h),
        h.last() == 'm',
{
    reveal_strlit(".medium");
    assert forall|k: int| 0 <= k < h.len() implies '\0' <= #[trigger] h[k] <= '\u{7f}' by {
        lemma_host_char_is_ascii(h[k]);
    }
    assert forall|k: int| 0 <= k < h.len() implies ascii_lower_byte(#[trigger] ascii_bytes(h)[k]) == ascii_bytes(h)[k] by {
        lemma_host_char_is_ascii(h[k]);
        assert(ascii_bytes(h)[k] == h[k] as u8);
    }
    assert(ascii_lower(ascii_bytes(h)) =~= ascii_bytes(h));
    assert(h.last() == h.skip(h.len() - 7)[6]);
}

/// The DNS server answers every service's host name: a query that `query_a` builds for it parses
/// as an `A`/`IN` question for exactly that name, and is answered with the address of the last
/// service of that name (the service's own address unless a later service shares its name).
/// Labels longer than 63 bytes cannot be asked for in DNS, so the name's labels must be 1 to 63
/// characters long.
pub proof fn lemma_dns_answers_service_hostname(n: VirtualNetwork, i: int, transaction_id: u16)
    requires
        n.wf(),
        0 <= i < n.services@.len(),
        forall|k: int| 0 <= k < split(n.services@[i].hostname@, '.').len()
            ==> 1 <= (#[trigger] split(n.services@[i].hostname@, '.')[k]).len() <= 63,
    ensures
        ({
            let s = n.services@[i];
            let q = query_a_spec(transaction_id, s.hostname@);
            let j = last_host_match(n.services@, norm_name(host_bytes(s)))->0;
            &&& query_spec(q) == Some((host_bytes(s), TYPE_A, CLASS_IN, q.len() as int))
            &&& last_host_match(n.services@, norm_name(host_bytes(s))) is Some
            &&& i <= j < n.services@.len()
            &&& host_bytes(n.services@[j]) == host_bytes(s)
            &&& answer_addr(n.services@, host_bytes(s), TYPE_A, CLASS_IN) == Some(service_addr_spec(j))
        }),
{
    let s = n.services@[i];
    let h = s.hostname@;
    assert(is_host_name(h));
    lemma_host_name_ascii(h);
    lemma_ascii_encode(h);
    assert(trim_end_char(h, '.') == h);
    let ls = split(h, '.');
    lemma_join_split(h, '.', seq![]);
    assert(Seq::<char>::empty() + h =~= h);
    lemma_split_parts_ascii(h, '.', seq![]);
    let q = query_a_spec(transaction_id, h);
    let head = seq![(transaction_id >> 8u16) as u8, transaction_id as u8, 0x01u8, 0x00u8, 0u8, 1u8, 0u8, 0u8, 0u8, 0u8, 0u8, 0u8];
    let enc = encode_labels(ls);
    let tail = seq![0u8, 0u8, 1u8, 0u8, 1u8];
    assert(q =~= head + enc + tail);
    let e = enc.len() as int;
    assert(q.subrange(12, 12 + e) =~= enc);
    assert(q[12 + e] == 0);
    lemma_parse_encoded_labels(q, 12, ls);
    assert(q[4] == 0u8 && q[5] == 1u8);
    assert(q[12 + e + 1] == 0u8 && q[12 + e + 2] == 1u8);
    assert(q[12 + e + 3] == 0u8 && q[12 + e + 4] == 1u8);
    assert(from_be16(q, 4) == 1) by {
        let b0 = q[4];
        let b1 = q[5];
        assert(((b0 as u16) << 8u16) | (b1 as u16) == 1u16) by (bit_vector)
            requires
                b0 == 0u8,
                b1 == 1u8,
        ;
    }
    assert(from_be16(q, 12 + e + 1) == 1) by {
        let b0 = q[12 + e + 1];
        let b1 = q[12 + e + 2];
        assert(((b0 as u16) << 8u16) | (b1 as u16) == 1u16) by (bit_vector)
            requires
                b0 == 0u8,
                b1 == 1u8,
        ;
    }
    assert(from_be16(q, 12 + e + 3) == 1) by {
        let b0 = q[12 + e + 3];
        let b1 = q[12 + e + 4];
        assert(((b0 as u16) << 8u16) | (b1 as u16) == 1u16) by (bit_vector)
            requires
                b0 == 0u8,
                b1 == 1u8,
        ;
    }
    lemma_join_label_bytes(ls);
    assert(join_labels(label_bytes(ls)) == host_bytes(s));
    lemma_resolve_finds_own_hostname(n, i);
    let j = last_host_match(n.services@, norm_name(host_bytes(s)))->0;
    assert(n.services@[j].addr@ == service_addr_spec(j));
}

/// A big-endian 16-bit field read from two bytes.
proof fn lemma_be16_value(b: Seq<u8>, at: int)
    requires
        0 <= at,
        at + 1 < b.len(),
    ensures
        from_be16(b, at) as int == b[at] as int * 256 + b[at + 1] as int,
{
    let x = b[at];
    let y = b[at + 1];
    assert((((x as u16) << 8u16) | (y as u16)) as int == (x as int) * 256 + (y as int)) by (bit_vector);
}

/// The response to a question that has an address keeps the query's id and question, says
/// `NOERROR` with exactly one answer, and that answer is an `A` record (type 1) of class `IN`
/// (1), behind a pointer to the question's name (`0xc00c`), cached for 30 seconds, whose data is
/// the 4-byte address.
pub proof fn lemma_address_answer_is_a_record(req: Seq<u8>, qend: int, a: Seq<u8>)
    requires
        12 <= qend <= req.len(),
        a.len() == 4,
    ensures
        ({
            let r = response_spec(req, qend, Some(a));
            &&& r.len() == qend + 16
            &&& r[0] == req[0] && r[1] == req[1]
            &&& r[2] == 0x81u8 && r[3] == 0x80u8
            &&& from_be16(r, 6) == 1
            &&& r.subrange(12, qend) == req.subrange(12, qend)
            &&& r[qend] == 0xc0u8 && r[qend + 1] == 0x0cu8
            &&& from_be16(r, qend + 2) == TYPE_A
            &&& from_be16(r, qend + 4) == CLASS_IN
            &&& r[qend + 6] as int * 16777216 + r[qend + 7] as int * 65536 + r[qend + 8] as int * 256 + r[qend + 9] as int
                == TTL_SECONDS as int
            &&& from_be16(r, qend + 10) == 4
            &&& r.subrange(qend + 12, qend + 16) == a
        }),
{
    let r = response_spec(req, qend, Some(a));
    assert(r.subrange(12, qend) =~= req.subrange(12, qend));
    assert(r.subrange(qend + 12, qend + 16) =~= a);
    lemma_be16_value(r, 6);
    lemma_be16_value(r, qend + 2);
    lemma_be16_value(r, qend + 4);
    lemma_be16_value(r, qend + 10);
}

/// A question that no service answers gets `NXDOMAIN` with no answer: the response is the
/// query's id and question and nothing more.
pub proof fn lemma_no_address_is_nxdomain(req: Seq<u8>, qend: int)
    requires
        12 <= qend <= req.len(),
    ensures
        ({
            let r = response_spec(req, qend, None);
            &&& r.len() == qend
            &&& r[0] == req[0] && r[1] == req[1]
            &&& r[2] == 0x81u8 && r[3] == 0x83u8
            &&& from_be16(r, 6) == 0
            &&& r.subrange(12, qend) == req.subrange(12, qend)
        }),
{
    let r = response_spec(req, qend, None);
    assert(r.subrange(12, qend) =~= req.subrange(12, qend));
    lemma_be16_value(r, 6);
}

/// Answering an `A`/`IN` question for a service's host name: the response's answer is an `A`
/// record of class `IN` whose data is that service's virtual address.
pub proof fn lemma_a_query_gets_service_address(packet: Seq<u8>, n: VirtualNetwork)
    requires
        query_spec(packet) matches Some(q) && q.1 == TYPE_A && q.2 == CLASS_IN
            && last_host_match(n.services@, norm_name(q.0)) is Some,
    ensures
        ({
            let q = query_spec(packet)->0;
            let j = last_host_match(n.services@, norm_name(q.0))->0;
            let r = response_spec(packet, q.3, answer_addr(n.services@, q.0, q.1, q.2));
            &&& from_be16(r, q.3 + 2) == TYPE_A
            &&& from_be16(r, q.3 + 4) == CLASS_IN
            &&& r.subrange(q.3 + 12, q.3 + 16) == n.services@[j].addr@
        }),
{
    let q = query_spec(packet)->0;
    lemma_parse_labels_end(packet, 12);
    let j = last_host_match(n.services@, norm_name(q.0))->0;
    assert(answer_addr(n.services@, q.0, q.1, q.2) == Some(n.services@[j].addr@));
    lemma_address_answer_is_a_record(packet, q.3, n.services@[j].addr@);
}

} // verus!
