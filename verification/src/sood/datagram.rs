//! The datagrams of the discovery protocol: a mark, a byte for the kind, and properties, each
//! with the lengths of its name and its value.

use vstd::prelude::*;
use vstd::slice::slice_subrange;
use vstd::utf8::{
    decode_utf8, encode_utf8, encode_utf8_decode_utf8, encode_utf8_valid_utf8, valid_utf8,
};
use crate::moo::message::string_map;
use crate::table::Table;
use crate::text::utf8_text;

verus! {

/// How many bytes a datagram has at most.
pub const MAX_DATAGRAM: usize = 1024;

/// Why a datagram cannot be read.
#[derive(Clone, Copy, Debug, PartialEq, Eq, Structural)]
pub enum Malformed {
    /// It ends too early.
    Short,
    /// What should be text is none.
    Text,
}

/// A message of the discovery protocol: where it came from, its kind, and its properties.
#[derive(Debug)]
pub struct Message {
    pub from: String,
    pub msg_type: char,
    pub props: Table<String>,
}

/// The bytes with which each datagram begins.
pub open spec fn mark() -> Seq<u8> {
    seq![0x53u8, 0x4fu8, 0x4fu8, 0x44u8, 2u8]
}

/// A property as bytes: the length of its name, the name, the length of the value, the value.
pub open spec fn prop_bytes(name: Seq<char>, value: Seq<char>) -> Seq<u8> {
    let n = encode_utf8(name);
    let v = encode_utf8(value);
    seq![(n.len() % 256) as u8] + n + seq![(v.len() / 256) as u8, (v.len() % 256) as u8] + v
}

/// Properties as bytes, one behind the other.
pub open spec fn props_bytes(props: Seq<(Seq<char>, Seq<char>)>) -> Seq<u8>
    decreases props.len(),
{
    if props.len() == 0 {
        Seq::empty()
    } else {
        props_bytes(props.drop_last()) + prop_bytes(props.last().0, props.last().1)
    }
}

/// A datagram of a kind with properties.
pub open spec fn datagram(kind: u8, props: Seq<(Seq<char>, Seq<char>)>) -> Seq<u8> {
    mark() + seq![kind] + props_bytes(props)
}

/// Properties by name. Of two with the same name the later counts.
pub open spec fn props_map(props: Seq<(Seq<char>, Seq<char>)>) -> Map<Seq<char>, Seq<char>>
    decreases props.len(),
{
    if props.len() == 0 {
        Map::empty()
    } else {
        props_map(props.drop_last()).insert(props.last().0, props.last().1)
    }
}

/// Reads properties from position `pos` on: `Ok(None)` where the lengths in the datagram say
/// more than it holds.
pub open spec fn read_props(buf: Seq<u8>, pos: int, props: Map<Seq<char>, Seq<char>>) -> Result<
    Option<Map<Seq<char>, Seq<char>>>,
    Malformed,
>
    decreases buf.len() - pos,
{
    if pos >= buf.len() {
        Ok(Some(props))
    } else {
        let at = pos + 1;
        let len = buf[pos] as int;
        let end = at + len;
        if len == 0 || end > buf.len() {
            Ok(None)
        } else if !valid_utf8(buf.subrange(at, end)) {
            Err(Malformed::Text)
        } else if end + 1 >= buf.len() {
            Err(Malformed::Short)
        } else {
            let size = buf[end] * 256 + buf[end + 1];
            let from = end + 2;
            if end + size > buf.len() {
                Ok(None)
            } else if from + size > buf.len() {
                Err(Malformed::Short)
            } else if !valid_utf8(buf.subrange(from, from + size)) {
                Err(Malformed::Text)
            } else {
                read_props(
                    buf,
                    from + size,
                    props.insert(
                        decode_utf8(buf.subrange(at, end)),
                        decode_utf8(buf.subrange(from, from + size)),
                    ),
                )
            }
        }
    }
}

/// The kind and the properties of a datagram: `Ok(None)` where it is none of this protocol.
pub open spec fn read_datagram(buf: Seq<u8>) -> Result<
    Option<(char, Map<Seq<char>, Seq<char>>)>,
    Malformed,
> {
    if buf.len() < 5 {
        Err(Malformed::Short)
    } else if !valid_utf8(buf.take(5)) {
        Err(Malformed::Text)
    } else if buf.take(5) != mark() {
        Ok(None)
    } else if buf.len() < 6 {
        Err(Malformed::Short)
    } else if buf[5] >= 128 {
        Err(Malformed::Text)
    } else {
        match read_props(buf, 6, Map::empty()) {
            Ok(Some(props)) => Ok(Some((buf[5] as char, props))),
            Ok(None) => Ok(None),
            Err(e) => Err(e),
        }
    }
}

/// Appends bytes to a buffer.
fn push_bytes(buf: &mut Vec<u8>, bytes: &[u8])
    ensures
        final(buf)@ == old(buf)@ + bytes@,
{
    let ghost before = buf@;
    let mut i: usize = 0;
    while i < bytes.len()
        invariant
            i <= bytes@.len(),
            buf@ == before + bytes@.take(i as int),
        decreases bytes@.len() - i,
    {
        buf.push(bytes[i]);
        assert(bytes@.take(i + 1) =~= bytes@.take(i as int).push(bytes@[i as int]));
        i += 1;
    }
    assert(bytes@.take(i as int) =~= bytes@);
}

/// Appends a property to a datagram.
pub fn add_to_buffer(buf: &mut Vec<u8>, name: &str, value: &str)
    requires
        old(buf)@.len() + prop_bytes(name@, value@).len() <= MAX_DATAGRAM,
    ensures
        final(buf)@ == old(buf)@ + prop_bytes(name@, value@),
{
    let ghost before = buf@;
    let n = name.as_bytes();
    let v = value.as_bytes();
    assert(v@.len() <= MAX_DATAGRAM);
    buf.push((n.len() % 256) as u8);
    push_bytes(buf, n);
    buf.push((v.len() / 256) as u8);
    buf.push((v.len() % 256) as u8);
    push_bytes(buf, v);
    assert(buf@ =~= before + prop_bytes(name@, value@));
}

/// The texts of properties.
pub open spec fn prop_texts(props: Seq<(&str, &str)>) -> Seq<(Seq<char>, Seq<char>)> {
    Seq::new(props.len(), |i: int| (props[i].0@, props[i].1@))
}

proof fn lemma_props_bytes_prefix(props: Seq<(Seq<char>, Seq<char>)>, k: int)
    requires
        0 <= k <= props.len(),
    ensures
        props_bytes(props.take(k)).is_prefix_of(props_bytes(props)),
    decreases props.len() - k,
{
    if k < props.len() {
        lemma_props_bytes_prefix(props, k + 1);
        assert(props.take(k + 1).drop_last() =~= props.take(k));
        let a = props_bytes(props.take(k));
        let b = props_bytes(props.take(k + 1));
        let c = props_bytes(props);
        assert(b == a + prop_bytes(props[k].0, props[k].1));
        assert forall|i: int| 0 <= i < a.len() implies a[i] == c[i] by {
            assert(b[i] == a[i]);
        }
        assert(a =~= c.subrange(0, a.len() as int));
    } else {
        assert(props.take(k) =~= props);
    }
}

/// Writes a datagram.
pub fn write_datagram(kind: u8, props: &Vec<(&str, &str)>) -> (r: Vec<u8>)
    requires
        datagram(kind, prop_texts(props@)).len() <= MAX_DATAGRAM,
    ensures
        r@ == datagram(kind, prop_texts(props@)),
{
    let mut buf: Vec<u8> = Vec::new();
    buf.push(0x53);
    buf.push(0x4f);
    buf.push(0x4f);
    buf.push(0x44);
    buf.push(2);
    buf.push(kind);
    assert(buf@ =~= mark() + seq![kind]);
    let ghost all = prop_texts(props@);
    let mut i: usize = 0;
    assert(buf@ =~= mark() + seq![kind] + props_bytes(all.take(0)));
    while i < props.len()
        invariant
            i <= props@.len(),
            all == prop_texts(props@),
            datagram(kind, all).len() <= MAX_DATAGRAM,
            buf@ == mark() + seq![kind] + props_bytes(all.take(i as int)),
        decreases props@.len() - i,
    {
        let (name, value) = props[i];
        proof {
            assert(all.take(i + 1).drop_last() =~= all.take(i as int));
            assert(all.take(i + 1).last() == (name@, value@));
            lemma_props_bytes_prefix(all, i + 1);
        }
        add_to_buffer(&mut buf, name, value);
        assert(buf@ =~= mark() + seq![kind] + props_bytes(all.take(i + 1)));
        i += 1;
    }
    assert(all.take(i as int) =~= all);
    buf
}

/// Whether properties can be read back: each name has between 1 and 255 bytes, each value less
/// than 65536.
pub open spec fn sendable(props: Seq<(Seq<char>, Seq<char>)>) -> bool {
    forall|i: int|
        0 <= i < props.len() ==> {
            &&& 1 <= encode_utf8((#[trigger] props[i]).0).len() <= 255
            &&& encode_utf8(props[i].1).len() < 65536
        }
}

/// One property is read where its bytes stand.
proof fn lemma_read_prop(
    buf: Seq<u8>,
    pos: int,
    name: Seq<char>,
    value: Seq<char>,
    props: Map<Seq<char>, Seq<char>>,
)
    requires
        0 <= pos,
        pos + prop_bytes(name, value).len() <= buf.len(),
        buf.subrange(pos, pos + prop_bytes(name, value).len()) == prop_bytes(name, value),
        1 <= encode_utf8(name).len() <= 255,
        encode_utf8(value).len() < 65536,
    ensures
        read_props(buf, pos, props) == read_props(
            buf,
            pos + prop_bytes(name, value).len(),
            props.insert(name, value),
        ),
{
    let n = encode_utf8(name);
    let v = encode_utf8(value);
    let one = prop_bytes(name, value);
    let here = buf.subrange(pos, pos + one.len());
    let at = pos + 1;
    let end = at + n.len();
    let from = end + 2;
    assert(one.len() == 3 + n.len() + v.len());
    assert(here[0] == one[0]);
    assert(one[0] == n.len() as u8);
    assert(here[1 + n.len() as int] == one[1 + n.len() as int]);
    assert(here[2 + n.len() as int] == one[2 + n.len() as int]);
    assert(buf[end] == (v.len() / 256) as u8);
    assert(buf[end + 1] == (v.len() % 256) as u8);
    assert(buf[end] * 256 + buf[end + 1] == v.len());
    assert(buf.subrange(at, end) =~= here.subrange(1, 1 + n.len() as int));
    assert(one.subrange(1, 1 + n.len() as int) =~= n);
    assert(buf.subrange(from, from + v.len()) =~= here.subrange(
        3 + n.len() as int,
        3 + n.len() + v.len() as int,
    ));
    assert(one.subrange(3 + n.len() as int, 3 + n.len() + v.len() as int) =~= v);
    encode_utf8_valid_utf8(name);
    encode_utf8_valid_utf8(value);
    encode_utf8_decode_utf8(name);
    encode_utf8_decode_utf8(value);
}

proof fn lemma_read_props(kind: u8, props: Seq<(Seq<char>, Seq<char>)>, k: int)
    requires
        0 <= k <= props.len(),
        sendable(props),
    ensures
        read_props(
            datagram(kind, props),
            6 + props_bytes(props.take(k)).len() as int,
            props_map(props.take(k)),
        ) == Ok::<Option<Map<Seq<char>, Seq<char>>>, Malformed>(Some(props_map(props))),
    decreases props.len() - k,
{
    let buf = datagram(kind, props);
    let before = props_bytes(props.take(k));
    let pos = 6 + before.len() as int;
    if k == props.len() {
        assert(props.take(k) =~= props);
    } else {
        lemma_read_props(kind, props, k + 1);
        lemma_props_bytes_prefix(props, k + 1);
        assert(props.take(k + 1).drop_last() =~= props.take(k));
        assert(props.take(k + 1).last() == props[k]);
        let (name, value) = props[k];
        let one = prop_bytes(name, value);
        let upto = props_bytes(props.take(k + 1));
        assert(upto == before + one);
        assert(buf.subrange(pos, pos + one.len()) =~= upto.subrange(
            before.len() as int,
            upto.len() as int,
        ));
        assert(upto.subrange(before.len() as int, upto.len() as int) =~= one);
        lemma_read_prop(buf, pos, name, value, props_map(props.take(k)));
    }
}

/// A datagram is read back with the kind and the properties that were written into it.
pub proof fn datagram_reads_back(kind: u8, props: Seq<(Seq<char>, Seq<char>)>)
    requires
        kind < 128,
        sendable(props),
    ensures
        read_datagram(datagram(kind, props)) == Ok::<
            Option<(char, Map<Seq<char>, Seq<char>>)>,
            Malformed,
        >(Some((kind as char, props_map(props)))),
{
    let buf = datagram(kind, props);
    assert(buf.take(5) =~= mark());
    reveal_strlit("SOOD\u{2}");
    vstd::utf8::is_ascii_chars_encode_utf8("SOOD\u{2}"@);
    encode_utf8_valid_utf8("SOOD\u{2}"@);
    assert(encode_utf8("SOOD\u{2}"@) =~= mark());
    lemma_read_props(kind, props, 0);
    assert(props.take(0) =~= Seq::<(Seq<char>, Seq<char>)>::empty());
}

/// Reads a datagram: `Ok(None)` where it is none of this protocol.
pub fn parse_datagram(from: &str, buf: &[u8]) -> (r: Result<Option<Message>, Malformed>)
    ensures
        match r {
            Ok(Some(m)) => m.from@ == from@ && read_datagram(buf@) == Ok::<
                Option<(char, Map<Seq<char>, Seq<char>>)>,
                Malformed,
            >(Some((m.msg_type, string_map(m.props@)))),
            Ok(None) => read_datagram(buf@) == Ok::<
                Option<(char, Map<Seq<char>, Seq<char>>)>,
                Malformed,
            >(None),
            Err(e) => read_datagram(buf@) == Err::<
                Option<(char, Map<Seq<char>, Seq<char>>)>,
                Malformed,
            >(e),
        },
{
    let size = buf.len();
    if size < 5 {
        return Err(Malformed::Short);
    }
    assert(buf@.subrange(0, 5) =~= buf@.take(5));
    if utf8_text(slice_subrange(buf, 0, 5)).is_none() {
        return Err(Malformed::Text);
    }
    if !(buf[0] == 0x53 && buf[1] == 0x4f && buf[2] == 0x4f && buf[3] == 0x44 && buf[4] == 2) {
        assert(buf@.take(5) != mark()) by {
            if buf@.take(5) == mark() {
                assert(mark()[0] == buf@[0] && mark()[1] == buf@[1] && mark()[2] == buf@[2]
                    && mark()[3] == buf@[3] && mark()[4] == buf@[4]);
            }
        }
        return Ok(None);
    }
    assert(buf@.take(5) =~= mark());
    if size < 6 {
        return Err(Malformed::Short);
    }
    if buf[5] >= 128 {
        return Err(Malformed::Text);
    }
    let msg_type = buf[5] as char;
    let mut props: Table<String> = Table::new();
    assert(string_map(props@) =~= Map::<Seq<char>, Seq<char>>::empty());
    let mut pos: usize = 6;
    while pos < size
        invariant
            size == buf@.len(),
            6 <= pos <= size,
            read_props(buf@, 6, Map::empty()) == read_props(
                buf@,
                pos as int,
                string_map(props@),
            ),
            read_datagram(buf@) == (match read_props(buf@, 6, Map::empty()) {
                Ok(Some(p)) => Ok(Some((msg_type, p))),
                Ok(None) => Ok(None),
                Err(e) => Err(e),
            }),
        decreases size - pos,
    {
        let len = buf[pos] as usize;
        let at = pos + 1;
        if len == 0 || len > size - at {
            return Ok(None);
        }
        let end = at + len;
        let name = match utf8_text(slice_subrange(buf, at, end)) {
            Some(name) => name,
            None => {
                return Err(Malformed::Text);
            },
        };
        if size - end < 2 {
            return Err(Malformed::Short);
        }
        let len = buf[end] as usize * 256 + buf[end + 1] as usize;
        if len > size - end {
            return Ok(None);
        }
        let from = end + 2;
        if len > size - from {
            return Err(Malformed::Short);
        }
        let value = match utf8_text(slice_subrange(buf, from, from + len)) {
            Some(value) => value,
            None => {
                return Err(Malformed::Text);
            },
        };
        let ghost before = props@;
        props.insert(name, value.to_owned());
        assert(string_map(props@) =~= string_map(before).insert(name@, value@));
        pos = from + len;
    }
    Ok(Some(Message { from: from.to_owned(), msg_type, props }))
}

/// A property is laid out as the length of its name in one byte, the name, the length of its
/// value in two bytes, the greater first, and the value.
pub proof fn property_layout(name: Seq<char>, value: Seq<char>)
    requires
        encode_utf8(name).len() < 256,
        encode_utf8(value).len() < 65536,
    ensures
        ({
            let bytes = prop_bytes(name, value);
            let n = encode_utf8(name).len() as int;
            let v = encode_utf8(value).len() as int;
            &&& bytes.len() == 3 + n + v
            &&& bytes[0] == n
            &&& bytes.subrange(1, 1 + n) == encode_utf8(name)
            &&& bytes[1 + n] * 256 + bytes[2 + n] == v
            &&& bytes.skip(3 + n) == encode_utf8(value)
        }),
{
    let bytes = prop_bytes(name, value);
    let n = encode_utf8(name).len() as int;
    assert(bytes.subrange(1, 1 + n) =~= encode_utf8(name));
    assert(bytes.skip(3 + n) =~= encode_utf8(value));
}

/// A datagram begins with the mark `SOOD` and the version 2, then comes its kind, and then its
/// properties, one behind the other.
pub proof fn datagram_layout(
    kind: u8,
    props: Seq<(Seq<char>, Seq<char>)>,
    prop: (Seq<char>, Seq<char>),
)
    ensures
        datagram(kind, Seq::empty()) == encode_utf8("SOOD"@) + seq![2u8, kind],
        datagram(kind, props.push(prop)) == datagram(kind, props) + prop_bytes(prop.0, prop.1),
        props_map(Seq::empty()) == Map::<Seq<char>, Seq<char>>::empty(),
        props_map(props.push(prop)) == props_map(props).insert(prop.0, prop.1),
{
    reveal_strlit("SOOD");
    vstd::utf8::is_ascii_chars_encode_utf8("SOOD"@);
    assert(props_bytes(Seq::empty()) =~= Seq::<u8>::empty());
    assert(datagram(kind, Seq::empty()) =~= encode_utf8("SOOD"@) + seq![2u8, kind]);
    assert(props.push(prop).drop_last() =~= props);
    assert(datagram(kind, props.push(prop)) =~= datagram(kind, props) + prop_bytes(
        prop.0,
        prop.1,
    ));
}

/// What does not begin with the mark is no datagram of this protocol. What is too short for the
/// mark and the kind cannot be read, and the kind is a character of ASCII.
pub proof fn other_datagrams_are_told_apart(buf: Seq<u8>)
    ensures
        buf.len() < 5 ==> read_datagram(buf) == Err::<
            Option<(char, Map<Seq<char>, Seq<char>>)>,
            Malformed,
        >(Malformed::Short),
        buf.len() >= 5 && !valid_utf8(buf.take(5)) ==> read_datagram(buf) == Err::<
            Option<(char, Map<Seq<char>, Seq<char>>)>,
            Malformed,
        >(Malformed::Text),
        buf.len() >= 5 && valid_utf8(buf.take(5)) && buf.take(5) != encode_utf8("SOOD"@).push(2)
            ==> read_datagram(buf) == Ok::<
            Option<(char, Map<Seq<char>, Seq<char>>)>,
            Malformed,
        >(None),
        read_datagram(buf) matches Ok(Some((kind, _))) ==> {
            &&& buf.len() >= 6
            &&& buf.take(5) == encode_utf8("SOOD"@).push(2)
            &&& buf[5] < 128
            &&& kind == buf[5] as char
        },
{
    reveal_strlit("SOOD");
    vstd::utf8::is_ascii_chars_encode_utf8("SOOD"@);
    assert(mark() =~= encode_utf8("SOOD"@).push(2));
}

/// Properties are read until the bytes end. A name without a byte, or lengths that say more than
/// there is, make no datagram; what is no text, or ends within a property, cannot be read.
pub proof fn properties_are_read_in_turn(
    buf: Seq<u8>,
    pos: int,
    props: Map<Seq<char>, Seq<char>>,
    n: int,
    v: int,
)
    requires
        0 <= pos <= buf.len(),
        pos < buf.len() ==> n == buf[pos],
        pos + n + 2 < buf.len() ==> v == buf[pos + 1 + n] * 256 + buf[pos + 2 + n],
        n >= 0,
        v >= 0,
    ensures
        ({
            let r = read_props(buf, pos, props);
            let name = buf.subrange(pos + 1, pos + 1 + n);
            let value = buf.subrange(pos + 3 + n, pos + 3 + n + v);
            if pos == buf.len() {
                r == Ok::<Option<Map<Seq<char>, Seq<char>>>, Malformed>(Some(props))
            } else if n == 0 || pos + 1 + n > buf.len() {
                r == Ok::<Option<Map<Seq<char>, Seq<char>>>, Malformed>(None)
            } else if !valid_utf8(name) {
                r == Err::<Option<Map<Seq<char>, Seq<char>>>, Malformed>(Malformed::Text)
            } else if pos + 3 + n > buf.len() {
                r == Err::<Option<Map<Seq<char>, Seq<char>>>, Malformed>(Malformed::Short)
            } else if pos + 3 + n + v <= buf.len() {
                if valid_utf8(value) {
                    r == read_props(
                        buf,
                        pos + 3 + n + v,
                        props.insert(decode_utf8(name), decode_utf8(value)),
                    )
                } else {
                    r == Err::<Option<Map<Seq<char>, Seq<char>>>, Malformed>(Malformed::Text)
                }
            } else if pos + 1 + n + v <= buf.len() {
                r == Err::<Option<Map<Seq<char>, Seq<char>>>, Malformed>(Malformed::Short)
            } else {
                r == Ok::<Option<Map<Seq<char>, Seq<char>>>, Malformed>(None)
            }
        }),
{
}

} // verus!
