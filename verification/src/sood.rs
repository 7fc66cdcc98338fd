//! Discovery of cores on the local network.

pub mod datagram;

use vstd::prelude::*;
use vstd::utf8::{encode_utf8, is_ascii_chars, is_ascii_chars_encode_utf8};
use crate::moo::message::string_map;
use crate::sood::datagram::{
    datagram, datagram_reads_back, prop_bytes, prop_texts, props_bytes, props_map, read_datagram,
    sendable, write_datagram, Message, MAX_DATAGRAM,
};
use crate::text::{same_text, strings};

verus! {

/// The port of the discovery protocol.
pub const SOOD_PORT: u16 = 9003;

/// What cores offer.
pub const SERVICE_ID: &'static str = "00720724-5143-4a9b-abac-0e50cba674bb";

/// An address on the network.
#[derive(Clone, Copy, Debug, PartialEq, Eq, Structural)]
pub struct Ipv4 {
    pub a: u8,
    pub b: u8,
    pub c: u8,
    pub d: u8,
}

/// An interface: its address and mask, whether it is the loopback, and whether the sockets for
/// it could be opened.
#[derive(Clone, Copy, Debug, PartialEq, Eq, Structural)]
pub struct Iface {
    pub ip: Ipv4,
    pub netmask: Ipv4,
    pub loopback: bool,
    pub opened: bool,
}

/// An interface that is listened on, and the scan that saw it last.
#[derive(Clone, Copy, Debug, PartialEq, Eq, Structural)]
pub struct Multicast {
    pub ip: Ipv4,
    pub broadcast: Ipv4,
    pub seq: i32,
}

/// The interfaces that are listened on.
#[derive(Debug)]
pub struct Sood {
    pub multicast: Vec<Multicast>,
    pub iface_seq: i32,
}

/// Where a query goes: from the socket of an interface, or from the one of none, and whether it
/// is an error when it does not get away.
#[derive(Clone, Copy, Debug, PartialEq, Eq, Structural)]
pub struct Dispatch {
    pub from: Option<Ipv4>,
    pub to: Ipv4,
    pub port: u16,
    pub required: bool,
}

/// The group in which cores listen.
pub open spec fn group() -> Ipv4 {
    Ipv4 { a: 239, b: 255, c: 90, d: 90 }
}

/// The address that reaches all hosts of a network.
pub open spec fn broadcast_of(ip: Ipv4, netmask: Ipv4) -> Ipv4 {
    Ipv4 {
        a: ip.a | (netmask.a ^ 255),
        b: ip.b | (netmask.b ^ 255),
        c: ip.c | (netmask.c ^ 255),
        d: ip.d | (netmask.d ^ 255),
    }
}

/// Where a table holds an address, from position `from` on.
pub open spec fn known_at(table: Seq<Multicast>, ip: Ipv4, from: int) -> int
    decreases table.len() - from,
{
    if from >= table.len() {
        table.len() as int
    } else if table[from].ip == ip {
        from
    } else {
        known_at(table, ip, from + 1)
    }
}

/// Whether a table holds an address.
pub open spec fn knows(table: Seq<Multicast>, ip: Ipv4) -> bool {
    known_at(table, ip, 0) < table.len()
}

/// A table that has seen an interface: one that it knows is marked with the scan, another one
/// is added where its sockets could be opened.
pub open spec fn seen(
    table: Seq<Multicast>,
    ip: Ipv4,
    netmask: Ipv4,
    opened: bool,
    seq: i32,
) -> Seq<Multicast> {
    if knows(table, ip) {
        let i = known_at(table, ip, 0);
        table.update(i, Multicast { seq, ..table[i] })
    } else if opened {
        table.push(Multicast { ip, broadcast: broadcast_of(ip, netmask), seq })
    } else {
        table
    }
}

/// The table after the first `n` interfaces of a scan, and whether one of them was new.
pub open spec fn scanned(table: Seq<Multicast>, ifaces: Seq<Iface>, n: int, seq: i32) -> (
    Seq<Multicast>,
    bool,
)
    decreases n,
{
    if n <= 0 {
        (table, false)
    } else {
        let (before, fresh) = scanned(table, ifaces, n - 1, seq);
        let iface = ifaces[n - 1];
        if iface.loopback {
            (before, fresh)
        } else {
            (
                seen(before, iface.ip, iface.netmask, iface.opened, seq),
                fresh || !knows(before, iface.ip),
            )
        }
    }
}

/// The entries that a scan has seen.
pub open spec fn current(table: Seq<Multicast>, seq: i32) -> Seq<Multicast>
    decreases table.len(),
{
    if table.len() == 0 {
        Seq::empty()
    } else {
        let rest = current(table.drop_last(), seq);
        if table.last().seq == seq {
            rest.push(table.last())
        } else {
            rest
        }
    }
}

/// Where a query goes: for each interface to the group and to its network, and then to the
/// group from no interface.
pub open spec fn dispatches(table: Seq<Multicast>, n: int) -> Seq<Dispatch>
    decreases n,
{
    if n <= 0 {
        Seq::empty()
    } else {
        let mc = table[n - 1];
        dispatches(table, n - 1).push(
            Dispatch { from: Some(mc.ip), to: group(), port: SOOD_PORT, required: true },
        ).push(
            Dispatch { from: Some(mc.ip), to: mc.broadcast, port: SOOD_PORT, required: false },
        )
    }
}

pub open spec fn query_dispatches(table: Seq<Multicast>) -> Seq<Dispatch> {
    dispatches(table, table.len() as int).push(
        Dispatch { from: None, to: group(), port: SOOD_PORT, required: true },
    )
}

/// Whether properties hold one with the given name.
pub open spec fn has_prop(props: Seq<(Seq<char>, Seq<char>)>, name: Seq<char>) -> bool {
    exists|i: int| 0 <= i < props.len() && (#[trigger] props[i]).0 == name
}

/// The properties of a query: it is given an id where it has none.
pub open spec fn query_props(props: Seq<(Seq<char>, Seq<char>)>, tid: Seq<char>) -> Seq<
    (Seq<char>, Seq<char>),
> {
    if has_prop(props, "_tid"@) {
        props
    } else {
        seq![("_tid"@, tid)] + props
    }
}

/// Whether a character can stand in the text of an id.
pub open spec fn is_id_char(c: char) -> bool {
    '0' <= c && c <= '9' || 'a' <= c && c <= 'f' || c == '-'
}

/// Whether a text is an id made by chance: 36 characters, hyphens at four places and lower-case
/// hexadecimal digits at the others, with the version and the variant at their places.
pub open spec fn is_tid(s: Seq<char>) -> bool {
    &&& s.len() == 36
    &&& forall|i: int| 0 <= i < 36 ==> is_id_char(#[trigger] s[i])
    &&& forall|i: int|
        0 <= i < 36 ==> ((#[trigger] s[i]) == '-' <==> i == 8 || i == 13 || i == 18 || i == 23)
    &&& s[14] == '4'
    &&& s[19] == '8' || s[19] == '9' || s[19] == 'a' || s[19] == 'b'
}

/// `uuid::Uuid::new_v4` and `uuid::Uuid::to_string`: the text of an id of version 4. Which
/// digits it has besides the version and the variant is left to chance.
#[verifier::external_body]
fn new_tid() -> (s: String)
    ensures
        is_tid(s@),
{
    uuid::Uuid::new_v4().to_string()
}

/// The address that reaches all hosts of a network.
pub fn broadcast(ip: Ipv4, netmask: Ipv4) -> (r: Ipv4)
    ensures
        r == broadcast_of(ip, netmask),
{
    Ipv4 {
        a: ip.a | (netmask.a ^ 255),
        b: ip.b | (netmask.b ^ 255),
        c: ip.c | (netmask.c ^ 255),
        d: ip.d | (netmask.d ^ 255),
    }
}

/// In the network part the broadcast address is the address itself, and in the host part all
/// bits are set.
pub proof fn broadcast_keeps_network(ip: Ipv4, netmask: Ipv4)
    ensures
        broadcast_of(ip, netmask).a & netmask.a == ip.a & netmask.a,
        broadcast_of(ip, netmask).b & netmask.b == ip.b & netmask.b,
        broadcast_of(ip, netmask).c & netmask.c == ip.c & netmask.c,
        broadcast_of(ip, netmask).d & netmask.d == ip.d & netmask.d,
        broadcast_of(ip, netmask).a | netmask.a == 255,
        broadcast_of(ip, netmask).b | netmask.b == 255,
        broadcast_of(ip, netmask).c | netmask.c == 255,
        broadcast_of(ip, netmask).d | netmask.d == 255,
{
    let (x, m) = (ip.a, netmask.a);
    assert((x | (m ^ 255u8)) & m == x & m && (x | (m ^ 255u8)) | m == 255) by (bit_vector);
    let (x, m) = (ip.b, netmask.b);
    assert((x | (m ^ 255u8)) & m == x & m && (x | (m ^ 255u8)) | m == 255) by (bit_vector);
    let (x, m) = (ip.c, netmask.c);
    assert((x | (m ^ 255u8)) & m == x & m && (x | (m ^ 255u8)) | m == 255) by (bit_vector);
    let (x, m) = (ip.d, netmask.d);
    assert((x | (m ^ 255u8)) & m == x & m && (x | (m ^ 255u8)) | m == 255) by (bit_vector);
}

/// Writes a query with the id `tid`, where it has none of its own.
pub fn write_query(props: &Vec<(&str, &str)>, tid: &str) -> (r: Vec<u8>)
    requires
        datagram(0x51, query_props(prop_texts(props@), tid@)).len() <= MAX_DATAGRAM,
    ensures
        r@ == datagram(0x51, query_props(prop_texts(props@), tid@)),
{
    let mut sent: Vec<(&str, &str)> = Vec::new();
    let ghost all = prop_texts(props@);
    let mut own = false;
    let mut i: usize = 0;
    while i < props.len()
        invariant
            i <= props@.len(),
            all == prop_texts(props@),
            own == has_prop(all.take(i as int), "_tid"@),
        decreases props@.len() - i,
    {
        if same_text(props[i].0, "_tid") {
            own = true;
        }
        proof {
            let next = all.take(i + 1);
            assert(next[i as int] == all[i as int]);
            if has_prop(next, "_tid"@) && !has_prop(all.take(i as int), "_tid"@) {
                let j = choose|j: int| 0 <= j < next.len() && (#[trigger] next[j]).0 == "_tid"@;
                if j < i {
                    assert(all.take(i as int)[j] == next[j]);
                }
            }
            if has_prop(all.take(i as int), "_tid"@) {
                let j = choose|j: int|
                    0 <= j < i && (#[trigger] all.take(i as int)[j]).0 == "_tid"@;
                assert(next[j].0 == "_tid"@);
            }
        }
        i += 1;
    }
    assert(all.take(i as int) =~= all);
    if !own {
        sent.push(("_tid", tid));
    }
    let ghost begun = prop_texts(sent@);
    i = 0;
    while i < props.len()
        invariant
            i <= props@.len(),
            all == prop_texts(props@),
            prop_texts(sent@) == begun + all.take(i as int),
        decreases props@.len() - i,
    {
        let ghost before = sent@;
        sent.push(props[i]);
        assert(prop_texts(sent@) =~= prop_texts(before).push(all[i as int]));
        assert(all.take(i + 1) =~= all.take(i as int).push(all[i as int]));
        i += 1;
    }
    assert(all.take(i as int) =~= all);
    assert(prop_texts(sent@) =~= query_props(all, tid@));
    write_datagram(0x51, &sent)
}

/// How many bytes a query takes whose id has 36 characters.
pub open spec fn query_len(props: Seq<(Seq<char>, Seq<char>)>) -> nat {
    if has_prop(props, "_tid"@) {
        6 + props_bytes(props).len()
    } else {
        49 + props_bytes(props).len()
    }
}

proof fn lemma_props_bytes_first(
    first: (Seq<char>, Seq<char>),
    props: Seq<(Seq<char>, Seq<char>)>,
)
    ensures
        props_bytes(seq![first] + props).len() == prop_bytes(first.0, first.1).len() + props_bytes(
            props,
        ).len(),
    decreases props.len(),
{
    let all = seq![first] + props;
    if props.len() == 0 {
        assert(all =~= seq![first]);
        assert(all.drop_last() =~= props);
        assert(all.last() == first);
        assert(props_bytes(props) =~= Seq::<u8>::empty());
    } else {
        lemma_props_bytes_first(first, props.drop_last());
        assert(all.drop_last() =~= seq![first] + props.drop_last());
        assert(all.last() == props.last());
    }
}

/// With an id of 36 characters of ASCII a query has the length that `query_len` gives.
proof fn lemma_query_len(props: Seq<(Seq<char>, Seq<char>)>, tid: Seq<char>)
    requires
        tid.len() == 36,
        is_ascii_chars(tid),
    ensures
        datagram(0x51, query_props(props, tid)).len() == query_len(props),
{
    if !has_prop(props, "_tid"@) {
        reveal_strlit("_tid");
        assert(is_ascii_chars("_tid"@));
        is_ascii_chars_encode_utf8("_tid"@);
        is_ascii_chars_encode_utf8(tid);
        lemma_props_bytes_first(("_tid"@, tid), props);
        assert(encode_utf8("_tid"@).len() == 4);
        assert(encode_utf8(tid).len() == 36);
    }
}

/// Whether no address occurs twice.
pub open spec fn distinct_ips(table: Seq<Multicast>) -> bool {
    forall|i: int, j: int|
        0 <= i < j < table.len() ==> (#[trigger] table[i]).ip != (#[trigger] table[j]).ip
}

/// Whether one of the interfaces, other than the loopback, has the address.
pub open spec fn listed(ifaces: Seq<Iface>, n: int, ip: Ipv4) -> bool {
    exists|i: int| 0 <= i < n && !(#[trigger] ifaces[i]).loopback && ifaces[i].ip == ip
}

/// Whether the sockets of one of the interfaces with the address could be opened.
pub open spec fn openable(ifaces: Seq<Iface>, n: int, ip: Ipv4) -> bool {
    exists|i: int|
        0 <= i < n && !(#[trigger] ifaces[i]).loopback && ifaces[i].ip == ip && ifaces[i].opened
}

proof fn lemma_known_at(table: Seq<Multicast>, ip: Ipv4, from: int)
    requires
        0 <= from <= table.len(),
    ensures
        from <= known_at(table, ip, from) <= table.len(),
        known_at(table, ip, from) < table.len() ==> table[known_at(table, ip, from)].ip == ip,
        forall|i: int| from <= i < known_at(table, ip, from) ==> (#[trigger] table[i]).ip != ip,
    decreases table.len() - from,
{
    if from < table.len() && table[from].ip != ip {
        lemma_known_at(table, ip, from + 1);
    }
}

proof fn lemma_known_here(table: Seq<Multicast>, ip: Ipv4, i: int)
    requires
        distinct_ips(table),
        0 <= i < table.len(),
        table[i].ip == ip,
    ensures
        known_at(table, ip, 0) == i,
{
    lemma_known_at(table, ip, 0);
    let k = known_at(table, ip, 0);
    if k < i {
        assert(table[k].ip != table[i].ip);
    }
}

proof fn lemma_seen(table: Seq<Multicast>, iface: Iface, seq: i32, ip: Ipv4)
    requires
        distinct_ips(table),
    ensures
        ({
            let t = seen(table, iface.ip, iface.netmask, iface.opened, seq);
            &&& distinct_ips(t)
            &&& knows(t, ip) == (knows(table, ip) || ip == iface.ip && iface.opened)
            &&& knows(t, ip) ==> t[known_at(t, ip, 0)].seq == if ip == iface.ip {
                seq
            } else {
                table[known_at(table, ip, 0)].seq
            }
        }),
{
    let t = seen(table, iface.ip, iface.netmask, iface.opened, seq);
    lemma_known_at(table, iface.ip, 0);
    lemma_known_at(table, ip, 0);
    lemma_known_at(t, ip, 0);
    let k = known_at(table, iface.ip, 0);
    if knows(table, iface.ip) {
        assert forall|i: int, j: int| 0 <= i < j < t.len() implies (#[trigger] t[i]).ip != (
        #[trigger] t[j]).ip by {
            assert(table[i].ip != table[j].ip);
        }
    } else if iface.opened {
        assert forall|i: int, j: int| 0 <= i < j < t.len() implies (#[trigger] t[i]).ip != (
        #[trigger] t[j]).ip by {
            if j < table.len() {
                assert(table[i].ip != table[j].ip);
            } else {
                assert(table[i].ip != iface.ip);
            }
        }
        assert(t[table.len() as int].ip == iface.ip);
        if ip == iface.ip {
            lemma_known_here(t, ip, table.len() as int);
        }
    }
    if knows(table, ip) {
        let i = known_at(table, ip, 0);
        assert(t[i].ip == ip);
        lemma_known_here(t, ip, i);
    } else if knows(t, ip) {
        let i = known_at(t, ip, 0);
        if i < table.len() {
            assert(table[i].ip == ip);
        }
    }
}

proof fn lemma_scanned(table: Seq<Multicast>, ifaces: Seq<Iface>, n: int, seq: i32, ip: Ipv4)
    requires
        distinct_ips(table),
        forall|i: int| 0 <= i < table.len() ==> (#[trigger] table[i]).seq != seq,
        0 <= n <= ifaces.len(),
    ensures
        ({
            let t = scanned(table, ifaces, n, seq).0;
            &&& distinct_ips(t)
            &&& knows(t, ip) == (knows(table, ip) || openable(ifaces, n, ip))
            &&& knows(t, ip) ==> (t[known_at(t, ip, 0)].seq == seq) == listed(ifaces, n, ip)
        }),
    decreases n,
{
    if n > 0 {
        let before = scanned(table, ifaces, n - 1, seq).0;
        let t = scanned(table, ifaces, n, seq).0;
        let iface = ifaces[n - 1];
        lemma_scanned(table, ifaces, n - 1, seq, ip);
        if !iface.loopback {
            lemma_seen(before, iface, seq, ip);
        }
        assert(listed(ifaces, n - 1, ip) ==> listed(ifaces, n, ip));
        assert(openable(ifaces, n - 1, ip) ==> openable(ifaces, n, ip));
        if listed(ifaces, n, ip) && !listed(ifaces, n - 1, ip) {
            assert(!iface.loopback && iface.ip == ip);
        }
        if openable(ifaces, n, ip) && !openable(ifaces, n - 1, ip) {
            assert(!iface.loopback && iface.ip == ip && iface.opened);
        }
        if !iface.loopback && iface.ip == ip {
            assert(ifaces[n - 1].ip == ip);
            assert(listed(ifaces, n, ip));
        }
    } else {
        lemma_known_at(table, ip, 0);
    }
}

proof fn lemma_current(table: Seq<Multicast>, seq: i32, ip: Ipv4)
    requires
        distinct_ips(table),
    ensures
        distinct_ips(current(table, seq)),
        forall|j: int|
            0 <= j < current(table, seq).len() ==> {
                &&& (#[trigger] current(table, seq)[j]).seq == seq
                &&& exists|i: int| 0 <= i < table.len() && table[i] == current(table, seq)[j]
            },
        knows(current(table, seq), ip) == (knows(table, ip) && table[known_at(table, ip, 0)].seq
            == seq),
    decreases table.len(),
{
    let c = current(table, seq);
    if table.len() > 0 {
        let rest = table.drop_last();
        let last = table.last();
        assert(distinct_ips(rest)) by {
            assert forall|i: int, j: int| 0 <= i < j < rest.len() implies (#[trigger] rest[i]).ip
                != (#[trigger] rest[j]).ip by {
                assert(table[i].ip != table[j].ip);
            }
        }
        lemma_current(rest, seq, ip);
        let cr = current(rest, seq);
        assert forall|j: int| 0 <= j < cr.len() implies (#[trigger] cr[j]).ip != last.ip by {
            let i = choose|i: int| 0 <= i < rest.len() && rest[i] == cr[j];
            assert(table[i].ip != table[table.len() - 1].ip);
        }
        assert forall|j: int| 0 <= j < c.len() implies {
            &&& (#[trigger] c[j]).seq == seq
            &&& exists|i: int| 0 <= i < table.len() && table[i] == c[j]
        } by {
            if j < cr.len() {
                assert(c[j] == cr[j]);
                let i = choose|i: int| 0 <= i < rest.len() && rest[i] == cr[j];
                assert(table[i] == c[j]);
            } else {
                assert(table[table.len() - 1] == c[j]);
            }
        }
        assert(distinct_ips(c)) by {
            assert forall|i: int, j: int| 0 <= i < j < c.len() implies (#[trigger] c[i]).ip != (
            #[trigger] c[j]).ip by {
                assert(c[i] == cr[i]);
                if j < cr.len() {
                    assert(c[j] == cr[j]);
                }
            }
        }
        lemma_known_at(table, ip, 0);
        lemma_known_at(rest, ip, 0);
        lemma_known_at(c, ip, 0);
        lemma_known_at(cr, ip, 0);
        if last.ip == ip {
            lemma_known_here(table, ip, table.len() - 1);
            if last.seq == seq {
                assert(c[cr.len() as int].ip == ip);
                lemma_known_here(c, ip, cr.len() as int);
            } else if knows(cr, ip) {
                assert(cr[known_at(cr, ip, 0)].ip != last.ip);
            }
        } else {
            if knows(rest, ip) {
                let k = known_at(rest, ip, 0);
                assert(table[k].ip == ip);
                lemma_known_here(table, ip, k);
            } else if knows(table, ip) {
                assert(rest[known_at(table, ip, 0)].ip == ip);
            }
            if knows(cr, ip) {
                let k = known_at(cr, ip, 0);
                assert(c[k].ip == ip);
                lemma_known_here(c, ip, k);
            } else if knows(c, ip) {
                let k = known_at(c, ip, 0);
                if k < cr.len() {
                    assert(cr[k].ip == ip);
                }
            }
        }
    }
}

/// After a scan the table holds exactly the addresses of the listed interfaces that it knew, or
/// whose sockets could be opened, and none of them twice.
pub proof fn scan_holds_listed(table: Seq<Multicast>, ifaces: Seq<Iface>, seq: i32, ip: Ipv4)
    requires
        distinct_ips(table),
        forall|i: int| 0 <= i < table.len() ==> (#[trigger] table[i]).seq < seq,
    ensures
        ({
            let left = current(scanned(table, ifaces, ifaces.len() as int, seq).0, seq);
            &&& distinct_ips(left)
            &&& knows(left, ip) == (listed(ifaces, ifaces.len() as int, ip) && (knows(table, ip)
                || openable(ifaces, ifaces.len() as int, ip)))
        }),
{
    let n = ifaces.len() as int;
    lemma_scanned(table, ifaces, n, seq, ip);
    lemma_current(scanned(table, ifaces, n, seq).0, seq, ip);
}

proof fn lemma_fresh(table: Seq<Multicast>, ifaces: Seq<Iface>, n: int, seq: i32)
    requires
        distinct_ips(table),
        forall|i: int| 0 <= i < table.len() ==> (#[trigger] table[i]).seq != seq,
        0 <= n <= ifaces.len(),
    ensures
        scanned(table, ifaces, n, seq).1 == exists|ip: Ipv4| #[trigger]
            listed(ifaces, n, ip) && !knows(table, ip),
    decreases n,
{
    if n > 0 {
        lemma_fresh(table, ifaces, n - 1, seq);
        let iface = ifaces[n - 1];
        lemma_scanned(table, ifaces, n - 1, seq, iface.ip);
        assert forall|ip: Ipv4| listed(ifaces, n - 1, ip) implies #[trigger] listed(
            ifaces,
            n,
            ip,
        ) by {}
        if scanned(table, ifaces, n - 1, seq).1 {
            let ip = choose|ip: Ipv4| #[trigger]
                listed(ifaces, n - 1, ip) && !knows(table, ip);
            assert(listed(ifaces, n, ip));
        }
        if !iface.loopback {
            assert(ifaces[n - 1].ip == iface.ip);
            assert(listed(ifaces, n, iface.ip));
        }
        if openable(ifaces, n - 1, iface.ip) {
            assert(listed(ifaces, n - 1, iface.ip));
        }
        if exists|ip: Ipv4| #[trigger] listed(ifaces, n, ip) && !knows(table, ip) {
            let ip = choose|ip: Ipv4| #[trigger] listed(ifaces, n, ip) && !knows(table, ip);
            if !listed(ifaces, n - 1, ip) {
                assert(!iface.loopback && iface.ip == ip);
            }
        }
    }
}

proof fn lemma_current_len(table: Seq<Multicast>, seq: i32)
    ensures
        current(table, seq).len() <= table.len(),
        (current(table, seq).len() == table.len()) == forall|i: int|
            0 <= i < table.len() ==> (#[trigger] table[i]).seq == seq,
    decreases table.len(),
{
    if table.len() > 0 {
        let rest = table.drop_last();
        lemma_current_len(rest, seq);
        if forall|i: int| 0 <= i < rest.len() ==> (#[trigger] rest[i]).seq == seq {
            assert forall|i: int| 0 <= i < table.len() - 1 implies (#[trigger] table[i]).seq
                == seq by {
                assert(rest[i].seq == seq);
            }
        } else {
            let i = choose|i: int| 0 <= i < rest.len() && (#[trigger] rest[i]).seq != seq;
            assert(table[i].seq != seq);
        }
        assert(table[table.len() - 1] == table.last());
    }
}

/// A scan tells of a change exactly where an address is listed that the table did not know, or
/// the table knew one that is not listed any more.
pub proof fn scan_tells_changes(table: Seq<Multicast>, ifaces: Seq<Iface>, seq: i32)
    requires
        distinct_ips(table),
        forall|i: int| 0 <= i < table.len() ==> (#[trigger] table[i]).seq < seq,
    ensures
        ({
            let (all, fresh) = scanned(table, ifaces, ifaces.len() as int, seq);
            (fresh || current(all, seq).len() != all.len()) == exists|ip: Ipv4|
                #[trigger] listed(ifaces, ifaces.len() as int, ip) != knows(table, ip)
        }),
{
    let n = ifaces.len() as int;
    let (all, fresh) = scanned(table, ifaces, n, seq);
    lemma_fresh(table, ifaces, n, seq);
    lemma_current_len(all, seq);
    if fresh {
        let ip = choose|ip: Ipv4| #[trigger] listed(ifaces, n, ip) && !knows(table, ip);
        assert(listed(ifaces, n, ip) != knows(table, ip));
    }
    if current(all, seq).len() != all.len() {
        let i = choose|i: int| 0 <= i < all.len() && (#[trigger] all[i]).seq != seq;
        let ip = all[i].ip;
        lemma_scanned(table, ifaces, n, seq, ip);
        lemma_known_here(all, ip, i);
        if openable(ifaces, n, ip) {
            assert(listed(ifaces, n, ip));
        }
        assert(listed(ifaces, n, ip) != knows(table, ip));
    }
    if exists|ip: Ipv4| #[trigger] listed(ifaces, n, ip) != knows(table, ip) {
        let ip = choose|ip: Ipv4| #[trigger] listed(ifaces, n, ip) != knows(table, ip);
        if knows(table, ip) {
            lemma_scanned(table, ifaces, n, seq, ip);
            lemma_known_at(all, ip, 0);
            assert(all[known_at(all, ip, 0)].seq != seq);
        }
    }
}

impl Sood {
    /// No address occurs twice, and no entry comes from a scan that is still to be.
    pub open spec fn wf(self) -> bool {
        &&& distinct_ips(self.multicast@)
        &&& forall|i: int|
            0 <= i < self.multicast@.len() ==> (#[trigger] self.multicast@[i]).seq
                <= self.iface_seq
    }
}

impl Sood {
    /// The table of no interface.
    pub fn new() -> (r: Self)
        ensures
            r.multicast@ == Seq::<Multicast>::empty(),
            r.iface_seq == 0,
            r.wf(),
    {
        Sood { multicast: Vec::new(), iface_seq: 0 }
    }

    /// Finds an interface.
    fn find(&self, ip: Ipv4) -> (r: Option<usize>)
        ensures
            match r {
                Some(i) => i < self.multicast@.len() && i == known_at(self.multicast@, ip, 0),
                None => !knows(self.multicast@, ip),
            },
    {
        let mut i: usize = 0;
        while i < self.multicast.len()
            invariant
                i <= self.multicast@.len(),
                known_at(self.multicast@, ip, 0) == known_at(self.multicast@, ip, i as int),
            decreases self.multicast@.len() - i,
        {
            if self.multicast[i].ip == ip {
                return Some(i);
            }
            i += 1;
        }
        None
    }

    /// Whether an interface is listened on.
    pub fn listens_on(&self, ip: Ipv4) -> (r: bool)
        ensures
            r == knows(self.multicast@, ip),
    {
        self.find(ip).is_some()
    }

    /// Notes an interface of a scan, and tells whether it is a new one.
    pub fn listen_iface(&mut self, ip: Ipv4, netmask: Ipv4, opened: bool) -> (r: bool)
        ensures
            r == !knows(old(self).multicast@, ip),
            final(self).iface_seq == old(self).iface_seq,
            final(self).multicast@ == seen(
                old(self).multicast@,
                ip,
                netmask,
                opened,
                old(self).iface_seq,
            ),
            old(self).wf() ==> final(self).wf(),
    {
        let seq = self.iface_seq;
        proof {
            if self.wf() {
                lemma_seen(
                    self.multicast@,
                    Iface { ip, netmask, loopback: false, opened },
                    seq,
                    ip,
                );
            }
        }
        match self.find(ip) {
            Some(i) => {
                let mut mc = self.multicast[i];
                mc.seq = seq;
                self.multicast.set(i, mc);
                false
            },
            None => {
                if opened {
                    self.multicast.push(Multicast { ip, broadcast: broadcast(ip, netmask), seq });
                }
                true
            },
        }
    }

    /// Scans the interfaces, drops those that are gone, and tells whether anything changed.
    pub fn init_socket(&mut self, ifaces: &Vec<Iface>) -> (r: bool)
        requires
            old(self).iface_seq < i32::MAX,
        ensures
            final(self).iface_seq == old(self).iface_seq + 1,
            ({
                let (table, fresh) = scanned(
                    old(self).multicast@,
                    ifaces@,
                    ifaces@.len() as int,
                    final(self).iface_seq,
                );
                let left = current(table, final(self).iface_seq);
                &&& final(self).multicast@ == left
                &&& r == (fresh || left.len() != table.len())
            }),
            old(self).wf() ==> r == exists|ip: Ipv4| #[trigger]
                listed(ifaces@, ifaces@.len() as int, ip) != knows(old(self).multicast@, ip),
            old(self).wf() ==> final(self).wf(),
    {
        let ghost table = self.multicast@;
        let ghost was_wf = self.wf();
        self.iface_seq = self.iface_seq + 1;
        let seq = self.iface_seq;
        let mut change = false;
        let mut i: usize = 0;
        while i < ifaces.len()
            invariant
                i <= ifaces@.len(),
                self.iface_seq == seq,
                scanned(table, ifaces@, i as int, seq) == (self.multicast@, change),
            decreases ifaces@.len() - i,
        {
            let iface = ifaces[i];
            if !iface.loopback {
                let fresh = self.listen_iface(iface.ip, iface.netmask, iface.opened);
                change = change || fresh;
            }
            i += 1;
        }
        let ghost all = self.multicast@;
        let mut left: Vec<Multicast> = Vec::new();
        i = 0;
        while i < self.multicast.len()
            invariant
                i <= self.multicast@.len(),
                all == self.multicast@,
                left@ == current(all.take(i as int), seq),
            decreases self.multicast@.len() - i,
        {
            let mc = self.multicast[i];
            assert(all.take(i + 1).drop_last() =~= all.take(i as int));
            if mc.seq == seq {
                left.push(mc);
            }
            i += 1;
        }
        assert(all.take(i as int) =~= all);
        change = change || left.len() != self.multicast.len();
        proof {
            if was_wf {
                lemma_scanned(table, ifaces@, ifaces@.len() as int, seq, group());
                lemma_current(all, seq, group());
                scan_tells_changes(table, ifaces@, seq);
            }
        }
        self.multicast = left;
        change
    }

    /// Where a query goes.
    pub fn targets(&self) -> (r: Vec<Dispatch>)
        ensures
            r@ == query_dispatches(self.multicast@),
    {
        let group = Ipv4 { a: 239, b: 255, c: 90, d: 90 };
        let mut r: Vec<Dispatch> = Vec::new();
        let mut i: usize = 0;
        while i < self.multicast.len()
            invariant
                i <= self.multicast@.len(),
                group == self::group(),
                r@ == dispatches(self.multicast@, i as int),
            decreases self.multicast@.len() - i,
        {
            let mc = self.multicast[i];
            r.push(Dispatch { from: Some(mc.ip), to: group, port: SOOD_PORT, required: true });
            r.push(
                Dispatch { from: Some(mc.ip), to: mc.broadcast, port: SOOD_PORT, required: false },
            );
            i += 1;
        }
        r.push(Dispatch { from: None, to: group, port: SOOD_PORT, required: true });
        r
    }

    /// The datagram of a query, and where it goes. A query without an id is given one by
    /// chance.
    pub fn query(&self, props: &Vec<(&str, &str)>) -> (r: (Vec<u8>, Vec<Dispatch>))
        requires
            query_len(prop_texts(props@)) <= MAX_DATAGRAM,
        ensures
            r.1@ == query_dispatches(self.multicast@),
            exists|tid: Seq<char>| #[trigger]
                is_tid(tid) && r.0@ == datagram(0x51, query_props(prop_texts(props@), tid)),
            has_prop(prop_texts(props@), "_tid"@) ==> r.0@ == datagram(0x51, prop_texts(props@)),
    {
        let tid = new_tid();
        proof {
            assert(is_ascii_chars(tid@)) by {
                assert forall|i: int| 0 <= i < tid@.len() implies '\0' <= #[trigger] tid@[i]
                    <= '\u{7f}' by {
                    assert(is_id_char(tid@[i]));
                }
            }
            lemma_query_len(prop_texts(props@), tid@);
        }
        (write_query(props, tid.as_str()), self.targets())
    }
}

/// Whether it is time to look for cores: at each of the first six scans and at each sixth one,
/// as long as none is paired.
pub open spec fn query_due(scan_count: u32, paired: bool) -> bool {
    (scan_count < 6 || scan_count % 6 == 0) && !paired
}

/// Counts a scan, and tells whether it is time to look for cores.
pub fn next_scan(scan_count: &mut u32, paired: bool) -> (r: bool)
    requires
        *old(scan_count) < u32::MAX,
    ensures
        *final(scan_count) == *old(scan_count) + 1,
        r == query_due(*old(scan_count), paired),
{
    let due = (*scan_count < 6 || *scan_count % 6 == 0) && !paired;
    *scan_count = *scan_count + 1;
    due
}

/// The core that a message announces: its id and its port.
pub open spec fn announced(
    service_id: Seq<char>,
    msg_type: char,
    props: Map<Seq<char>, Seq<char>>,
) -> Option<(Seq<char>, Seq<char>)> {
    if props.contains_key("service_id"@) && props.contains_key("unique_id"@)
        && props.contains_key("http_port"@) && msg_type == 'R' && props["service_id"@]
        == service_id {
        Some((props["unique_id"@], props["http_port"@]))
    } else {
        None
    }
}

/// The properties with which a core announces itself.
pub open spec fn announcement(
    service_id: Seq<char>,
    unique_id: Seq<char>,
    port: Seq<char>,
) -> Seq<(Seq<char>, Seq<char>)> {
    seq![("service_id"@, service_id), ("unique_id"@, unique_id), ("http_port"@, port)]
}

/// A core that announces itself is found.
pub proof fn announcement_is_found(service_id: Seq<char>, unique_id: Seq<char>, port: Seq<char>)
    requires
        sendable(announcement(service_id, unique_id, port)),
    ensures
        read_datagram(datagram(0x52, announcement(service_id, unique_id, port))) matches Ok(
            Some((msg_type, props)),
        ) && announced(service_id, msg_type, props) == Some((unique_id, port)),
{
    let all = announcement(service_id, unique_id, port);
    datagram_reads_back(0x52, all);
    reveal_with_fuel(props_map, 4);
    reveal_strlit("service_id");
    reveal_strlit("unique_id");
    reveal_strlit("http_port");
    assert("service_id"@.len() != "unique_id"@.len());
    assert("service_id"@.len() != "http_port"@.len());
    assert("unique_id"@[0] != "http_port"@[0]);
    assert(all.drop_last() =~= seq![("service_id"@, service_id), ("unique_id"@, unique_id)]);
    assert(all.drop_last().drop_last() =~= seq![("service_id"@, service_id)]);
}

/// The properties that are left of a message once it was looked at.
pub open spec fn left_props(props: Map<Seq<char>, Seq<char>>) -> Map<Seq<char>, Seq<char>> {
    if !props.contains_key("service_id"@) {
        props
    } else if !props.contains_key("unique_id"@) {
        props.remove("service_id"@)
    } else {
        props.remove("service_id"@).remove("unique_id"@).remove("http_port"@)
    }
}

/// Takes the id and the port of the core that a message announces out of it.
pub fn is_service_response(service_id: &str, msg: &mut Message) -> (r: Option<(String, String)>)
    ensures
        match r {
            Some((unique_id, port)) => announced(
                service_id@,
                old(msg).msg_type,
                string_map(old(msg).props@),
            ) == Some((unique_id@, port@)),
            None => announced(
                service_id@,
                old(msg).msg_type,
                string_map(old(msg).props@),
            ) is None,
        },
        final(msg).from == old(msg).from,
        final(msg).msg_type == old(msg).msg_type,
        string_map(final(msg).props@) == left_props(string_map(old(msg).props@)),
{
    proof {
        reveal_strlit("service_id");
        reveal_strlit("unique_id");
        reveal_strlit("http_port");
        assert("service_id"@.len() != "unique_id"@.len());
        assert("service_id"@.len() != "http_port"@.len());
        assert("unique_id"@[0] != "http_port"@[0]);
    }
    let ghost all = msg.props@;
    let svc_id = match msg.props.remove("service_id") {
        Some(id) => id,
        None => {
            assert(string_map(msg.props@) =~= string_map(all));
            return None;
        },
    };
    let unique_id = match msg.props.remove("unique_id") {
        Some(id) => id,
        None => {
            assert(string_map(msg.props@) =~= left_props(string_map(all)));
            return None;
        },
    };
    let port = msg.props.remove("http_port");
    assert(string_map(msg.props@) =~= left_props(string_map(all)));
    match port {
        Some(port) => {
            if msg.msg_type == 'R' && same_text(svc_id.as_str(), service_id) {
                Some((unique_id, port))
            } else {
                None
            }
        },
        None => None,
    }
}

/// Whether a list holds a text.
pub fn holds(list: &Vec<String>, text: &str) -> (r: bool)
    ensures
        r == strings(list@).contains(text@),
{
    let mut i: usize = 0;
    while i < list.len()
        invariant
            i <= list@.len(),
            forall|j: int| 0 <= j < i ==> (#[trigger] list@[j])@ != text@,
        decreases list@.len() - i,
    {
        if same_text(list[i].as_str(), text) {
            assert(strings(list@)[i as int] == text@);
            return true;
        }
        i += 1;
    }
    false
}

/// Notes a core that was found, and tells whether to connect with it: with each core once.
pub fn core_found(sood_conns: &mut Vec<String>, unique_id: &str) -> (r: bool)
    ensures
        r == !strings(old(sood_conns)@).contains(unique_id@),
        strings(final(sood_conns)@) == if strings(old(sood_conns)@).contains(unique_id@) {
            strings(old(sood_conns)@)
        } else {
            strings(old(sood_conns)@).push(unique_id@)
        },
        strings(old(sood_conns)@).no_duplicates() ==> strings(final(sood_conns)@).no_duplicates(),
{
    let ghost before = sood_conns@;
    if holds(sood_conns, unique_id) {
        false
    } else {
        sood_conns.push(unique_id.to_owned());
        assert(strings(sood_conns@) =~= strings(before).push(unique_id@));
        true
    }
}

/// Takes up a message: the id of the core that it announces, and where none is connected under
/// it yet, the address and the port to try.
pub fn core_to_try(msg: &mut Message, sood_conns: &mut Vec<String>) -> (r: Option<
    (String, Option<(String, String)>),
>)
    ensures
        ({
            let before = strings(old(sood_conns)@);
            let after = strings(final(sood_conns)@);
            match announced(SERVICE_ID@, old(msg).msg_type, string_map(old(msg).props@)) {
                Some((unique_id, port)) => {
                    &&& r matches Some((id, to_try))
                    &&& id@ == unique_id
                    &&& if before.contains(unique_id) {
                        to_try is None && after == before
                    } else {
                        &&& to_try matches Some((from, at))
                        &&& from@ == old(msg).from@
                        &&& at@ == port
                        &&& after == before.push(unique_id)
                    }
                },
                None => r is None && after == before,
            }
        }),
        final(msg).from == old(msg).from,
        final(msg).msg_type == old(msg).msg_type,
        string_map(final(msg).props@) == left_props(string_map(old(msg).props@)),
        strings(old(sood_conns)@).no_duplicates() ==> strings(final(sood_conns)@).no_duplicates(),
{
    match is_service_response(SERVICE_ID, msg) {
        Some((unique_id, port)) => {
            if core_found(sood_conns, unique_id.as_str()) {
                Some((unique_id, Some((msg.from.clone(), port))))
            } else {
                Some((unique_id, None))
            }
        },
        None => None,
    }
}

/// A query goes to each network: from each interface to the group of the cores and to the
/// broadcast address of its network, and from no interface to the group. It goes nowhere else.
pub proof fn query_reaches_each_network(table: Seq<Multicast>, i: int)
    requires
        0 <= i < table.len(),
    ensures
        ({
            let targets = query_dispatches(table);
            let cores = Ipv4 { a: 239, b: 255, c: 90, d: 90 };
            &&& targets.len() == 2 * table.len() + 1
            &&& targets[2 * i] == (Dispatch {
                from: Some(table[i].ip),
                to: cores,
                port: 9003,
                required: true,
            })
            &&& targets[2 * i + 1] == (Dispatch {
                from: Some(table[i].ip),
                to: table[i].broadcast,
                port: 9003,
                required: false,
            })
            &&& targets.last() == (Dispatch {
                from: None,
                to: cores,
                port: 9003,
                required: true,
            })
        }),
{
    lemma_dispatches(table, table.len() as int, i);
}

/// Without an interface a query goes from none to the group of the cores.
pub proof fn query_reaches_the_group()
    ensures
        query_dispatches(Seq::empty()) == seq![
            Dispatch {
                from: None,
                to: Ipv4 { a: 239, b: 255, c: 90, d: 90 },
                port: 9003,
                required: true,
            },
        ],
{
    assert(query_dispatches(Seq::empty()) =~= seq![
        Dispatch { from: None, to: group(), port: 9003, required: true },
    ]);
}

proof fn lemma_dispatches(table: Seq<Multicast>, n: int, i: int)
    requires
        0 <= i < n <= table.len(),
    ensures
        dispatches(table, n).len() == 2 * n,
        dispatches(table, n)[2 * i] == (Dispatch {
            from: Some(table[i].ip),
            to: Ipv4 { a: 239, b: 255, c: 90, d: 90 },
            port: 9003,
            required: true,
        }),
        dispatches(table, n)[2 * i + 1] == (Dispatch {
            from: Some(table[i].ip),
            to: table[i].broadcast,
            port: 9003,
            required: false,
        }),
    decreases n,
{
    if i < n - 1 {
        lemma_dispatches(table, n - 1, i);
    } else if n > 1 {
        lemma_dispatches(table, n - 1, 0);
    } else {
        assert(dispatches(table, 0) =~= Seq::<Dispatch>::empty());
    }
}

/// A table knows an address exactly where one of its entries has it.
pub proof fn known_address_has_an_entry(table: Seq<Multicast>, ip: Ipv4)
    ensures
        knows(table, ip) <==> exists|i: int| 0 <= i < table.len() && (#[trigger] table[i]).ip == ip,
{
    lemma_known_at(table, ip, 0);
}

/// After a scan each entry is for the network that it was for before or, where it is new, for the
/// one that the address and the mask of a listed interface with its address make.
pub proof fn scan_keeps_networks(
    table: Seq<Multicast>,
    ifaces: Seq<Iface>,
    n: int,
    seq: i32,
    j: int,
)
    requires
        0 <= n <= ifaces.len(),
        0 <= j < scanned(table, ifaces, n, seq).0.len(),
    ensures
        ({
            let mc = scanned(table, ifaces, n, seq).0[j];
            &&& table.len() <= scanned(table, ifaces, n, seq).0.len()
            &&& j < table.len() ==> mc.ip == table[j].ip && mc.broadcast == table[j].broadcast
            &&& j >= table.len() ==> exists|i: int|
                {
                    &&& 0 <= i < n
                    &&& !(#[trigger] ifaces[i]).loopback
                    &&& ifaces[i].opened
                    &&& ifaces[i].ip == mc.ip
                    &&& mc.broadcast == broadcast_of(ifaces[i].ip, ifaces[i].netmask)
                }
        }),
    decreases n,
{
    if n > 0 {
        let before = scanned(table, ifaces, n - 1, seq).0;
        let after = scanned(table, ifaces, n, seq).0;
        lemma_known_at(before, ifaces[n - 1].ip, 0);
        if before.len() > 0 {
            scan_keeps_networks(table, ifaces, n - 1, seq, 0);
        }
        if j < before.len() {
            scan_keeps_networks(table, ifaces, n - 1, seq, j);
            assert(after[j].ip == before[j].ip && after[j].broadcast == before[j].broadcast);
        } else {
            lemma_scanned_len(table, ifaces, n - 1, seq);
            assert(ifaces[n - 1].opened && ifaces[n - 1].ip == after[j].ip);
        }
    }
}

proof fn lemma_scanned_len(table: Seq<Multicast>, ifaces: Seq<Iface>, n: int, seq: i32)
    requires
        0 <= n <= ifaces.len(),
    ensures
        table.len() <= scanned(table, ifaces, n, seq).0.len(),
    decreases n,
{
    if n > 0 {
        lemma_scanned_len(table, ifaces, n - 1, seq);
        lemma_known_at(scanned(table, ifaces, n - 1, seq).0, ifaces[n - 1].ip, 0);
    }
}

/// What is left after a scan are the entries that the scan has seen, in their order.
pub proof fn seen_entries_are_left(table: Seq<Multicast>, mc: Multicast, seq: i32)
    ensures
        current(Seq::empty(), seq) == Seq::<Multicast>::empty(),
        current(table.push(mc), seq) == if mc.seq == seq {
            current(table, seq).push(mc)
        } else {
            current(table, seq)
        },
{
    assert(table.push(mc).drop_last() =~= table);
    assert(current(Seq::empty(), seq) =~= Seq::<Multicast>::empty());
}

/// A query has an id: its own, or the one that it is given. Its properties are sent as they are,
/// in their order.
pub proof fn query_has_an_id(props: Seq<(Seq<char>, Seq<char>)>, tid: Seq<char>, i: int)
    requires
        0 <= i < props.len(),
    ensures
        ({
            let sent = query_props(props, tid);
            let own = exists|j: int| 0 <= j < props.len() && (#[trigger] props[j]).0 == "_tid"@;
            &&& own ==> sent == props
            &&& !own ==> {
                &&& sent.len() == props.len() + 1
                &&& sent[0] == ("_tid"@, tid)
                &&& sent[i + 1] == props[i]
            }
        }),
{
}

/// Cores are looked for at each of the first six scans and at each sixth one, and never while one
/// is paired. So of six scans behind each other one looks for cores.
pub proof fn cores_are_looked_for(scan_count: u32, paired: bool)
    ensures
        paired ==> !query_due(scan_count, paired),
        !paired && scan_count < 6 ==> query_due(scan_count, paired),
        !paired && scan_count >= 6 ==> (query_due(scan_count, paired) <==> exists|k: int|
            #![trigger times_six(k)]
            scan_count == times_six(k)),
{
    if scan_count % 6 == 0 {
        assert(scan_count == times_six(scan_count as int / 6));
    }
}

/// Six times a number.
pub open spec fn times_six(k: int) -> int {
    6 * k
}

/// A message announces a core exactly where it is a response that names the service, the core
/// and its port, which are the ones that are found.
pub proof fn announced_core_is_named(
    service_id: Seq<char>,
    msg_type: char,
    props: Map<Seq<char>, Seq<char>>,
    unique_id: Seq<char>,
    port: Seq<char>,
)
    ensures
        announced(service_id, msg_type, props) == Some((unique_id, port)) <==> {
            &&& msg_type == 'R'
            &&& props.contains_key("service_id"@) && props["service_id"@] == service_id
            &&& props.contains_key("unique_id"@) && props["unique_id"@] == unique_id
            &&& props.contains_key("http_port"@) && props["http_port"@] == port
        },
        left_props(props).submap_of(props),
        forall|k: Seq<char>|
            k != "service_id"@ && k != "unique_id"@ && k != "http_port"@ && #[trigger]
            props.contains_key(k) ==> left_props(props).contains_key(k),
{
}

/// What a message says of a core is taken out of it: the service first, then the core, and then
/// its port, up to the first that is missing. Without the service it stays as it is.
pub proof fn announcement_is_taken_out(props: Map<Seq<char>, Seq<char>>, k: Seq<char>)
    ensures
        ({
            let left = left_props(props);
            let service = props.contains_key("service_id"@);
            let core = props.contains_key("unique_id"@);
            &&& !left.contains_key("service_id"@)
            &&& left.contains_key("unique_id"@) <==> core && !service
            &&& left.contains_key("http_port"@) <==> props.contains_key("http_port"@) && !(service
                && core)
            &&& left.contains_key(k) ==> props.contains_key(k) && left[k] == props[k]
        }),
{
    reveal_strlit("service_id");
    reveal_strlit("unique_id");
    reveal_strlit("http_port");
    assert("service_id"@.len() != "unique_id"@.len());
    assert("service_id"@.len() != "http_port"@.len());
    assert("unique_id"@[0] != "http_port"@[0]);
}

/// The id that a query is given has groups of 8, 4, 4, 4 and 12 hexadecimal digits in lower case,
/// with hyphens between them. It is of the fourth version.
pub proof fn id_has_its_groups(s: Seq<char>, i: int)
    requires
        is_tid(s),
        0 <= i < 36,
    ensures
        s.len() == 36,
        i == 8 || i == 13 || i == 18 || i == 23 ==> s[i] == '-',
        i != 8 && i != 13 && i != 18 && i != 23 ==> "0123456789abcdef"@.contains(s[i]),
        s[14] == '4',
        "89ab"@.contains(s[19]),
{
    let digits = "0123456789abcdef"@;
    reveal_strlit("0123456789abcdef");
    reveal_strlit("89ab");
    assert(is_id_char(s[i]));
    if s[i] != '-' {
        let code = s[i] as u32;
        let at: int = if s[i] <= '9' {
            code - 48
        } else {
            code - 87
        };
        assert(0 <= at < 16);
        assert(digits[at] == s[i]);
    }
    let variant: int = if s[19] == '8' {
        0
    } else if s[19] == '9' {
        1
    } else if s[19] == 'a' {
        2
    } else {
        3
    };
    assert("89ab"@[variant] == s[19]);
}

} // verus!
