//! AMF0 values: the value forms that RTMP commands use, how they are
//! written and how they are read.

use crate::amf0::{
    amf_number, amf_object_end, amf_property, amf_string, MARKER_BOOLEAN, MARKER_ECMA_ARRAY,
    MARKER_NULL, MARKER_NUMBER, MARKER_OBJECT, MARKER_OBJECT_END, MARKER_STRING,
};
use crate::wire::{
    append_bytes, lemma_be64_roundtrip, push_u16, push_u64, read_u16_be, read_u64_be, u16_of,
    u64_of,
};
use vstd::prelude::*;
use vstd::slice::{slice_subrange, slice_to_vec};

verus! {

/// An AMF0 value.
pub enum Amf0Value {
    /// A double, as the 64 bits of its IEEE-754 representation.
    Number(u64),
    Boolean(bool),
    /// A string, as its bytes.
    String(Vec<u8>),
    /// An object: its properties in order, each a key and a value.
    Object(Vec<(Vec<u8>, Amf0Value)>),
    Null,
}

/// An AMF0 value as a mathematical value.
pub ghost enum Amf0 {
    Number(u64),
    Boolean(bool),
    String(Seq<u8>),
    Object(Seq<(Seq<u8>, Amf0)>),
    Null,
}

/// The properties of an object as mathematical values.
pub open spec fn view_props(props: Seq<(Vec<u8>, Amf0Value)>) -> Seq<(Seq<u8>, Amf0)>
    decreases props,
{
    if props.len() == 0 {
        Seq::empty()
    } else {
        view_props(props.drop_last()).push((props.last().0@, value_of(props.last().1)))
    }
}

/// A value as a mathematical value.
pub open spec fn value_of(v: Amf0Value) -> Amf0
    decreases v,
{
    match v {
        Amf0Value::Number(bits) => Amf0::Number(bits),
        Amf0Value::Boolean(b) => Amf0::Boolean(b),
        Amf0Value::String(s) => Amf0::String(s@),
        Amf0Value::Object(props) => Amf0::Object(view_props(props@)),
        Amf0Value::Null => Amf0::Null,
    }
}

impl View for Amf0Value {
    type V = Amf0;

    open spec fn view(&self) -> Amf0 {
        value_of(*self)
    }
}

/// The bytes of a value: a marker byte and what the marker calls for.
///
/// * Number: marker 0 and eight bytes.
/// * Boolean: marker 1 and one byte, 1 for true and 0 for false.
/// * String: marker 2, the length in 16 bits, the bytes.
/// * Object: marker 3, the properties, and the end `00 00 09`.
/// * Null: marker 5.
pub open spec fn encode_value(v: Amf0) -> Seq<u8>
    decreases v,
{
    match v {
        Amf0::Number(bits) => amf_number(bits),
        Amf0::Boolean(b) => seq![MARKER_BOOLEAN, if b {
            1u8
        } else {
            0u8
        }],
        Amf0::String(s) => amf_string(s),
        Amf0::Object(props) => seq![MARKER_OBJECT] + encode_props(props) + amf_object_end(),
        Amf0::Null => seq![MARKER_NULL],
    }
}

/// The bytes of a list of properties: for each, the key with its 16-bit
/// length and then the value.
pub open spec fn encode_props(props: Seq<(Seq<u8>, Amf0)>) -> Seq<u8>
    decreases props,
{
    if props.len() == 0 {
        Seq::empty()
    } else {
        amf_property(props[0].0, encode_value(props[0].1)) + encode_props(props.skip(1))
    }
}

/// Reads a value that is not an object: a number, a boolean (true when its
/// byte is not zero), a string or null. `None` where no whole value of one
/// of these forms stands at the front of `bytes`.
#[verifier::opaque]
pub open spec fn decode_scalar(bytes: Seq<u8>) -> Option<(Amf0, int)> {
    if bytes.len() < 1 {
        None
    } else if bytes[0] == MARKER_NUMBER {
        if bytes.len() < 9 {
            None
        } else {
            Some((Amf0::Number(u64_of(bytes.subrange(1, 9)) as u64), 9))
        }
    } else if bytes[0] == MARKER_BOOLEAN {
        if bytes.len() < 2 {
            None
        } else {
            Some((Amf0::Boolean(bytes[1] != 0), 2))
        }
    } else if bytes[0] == MARKER_STRING {
        if bytes.len() < 3 {
            None
        } else {
            let len = u16_of(bytes[1], bytes[2]);
            if bytes.len() < 3 + len {
                None
            } else {
                Some((Amf0::String(bytes.subrange(3, 3 + len)), 3 + len))
            }
        }
    } else if bytes[0] == MARKER_NULL {
        Some((Amf0::Null, 1))
    } else {
        None
    }
}

/// The object that a list of properties makes, read after `skipped` bytes.
pub open spec fn object_of(
    props: Option<(Seq<(Seq<u8>, Amf0)>, int)>,
    skipped: int,
) -> Option<(Amf0, int)> {
    match props {
        Some((props, used)) => Some((Amf0::Object(props), skipped + used)),
        None => None,
    }
}

/// Reads the value at the front of `bytes`: the value and the number of
/// bytes it takes, or `None` where no whole value of a known form stands
/// there. An object (marker 3) is its properties up to the object end. An
/// ECMA array (marker 8) is read as an object whose 32-bit count is
/// skipped. Anything else is read by [`decode_scalar`].
pub open spec fn decode_value(bytes: Seq<u8>) -> Option<(Amf0, int)>
    decreases bytes.len(), 1int,
{
    if bytes.len() < 1 {
        None
    } else if bytes[0] == MARKER_OBJECT {
        object_of(decode_props(bytes.skip(1)), 1)
    } else if bytes[0] == MARKER_ECMA_ARRAY {
        if bytes.len() < 5 {
            None
        } else {
            object_of(decode_props(bytes.skip(5)), 5)
        }
    } else {
        decode_scalar(bytes)
    }
}

/// Reads properties up to and including the end `00 00 09`: the properties
/// and the number of bytes taken.
pub open spec fn decode_props(bytes: Seq<u8>) -> Option<(Seq<(Seq<u8>, Amf0)>, int)>
    decreases bytes.len(), 0int,
{
    if bytes.len() < 3 {
        None
    } else {
        let klen = u16_of(bytes[0], bytes[1]);
        if klen == 0 && bytes[2] == MARKER_OBJECT_END {
            Some((Seq::empty(), 3))
        } else if bytes.len() < 2 + klen {
            None
        } else {
            match decode_value(bytes.skip(2 + klen)) {
                None => None,
                Some((value, used)) => {
                    if used < 1 || 2 + klen + used > bytes.len() {
                        None
                    } else {
                        match decode_props(bytes.skip(2 + klen + used)) {
                            None => None,
                            Some((more, used_more)) => Some(
                                (
                                    seq![(bytes.subrange(2, 2 + klen), value)] + more,
                                    2 + klen + used + used_more,
                                ),
                            ),
                        }
                    }
                },
            }
        }
    }
}

/// Whether a value can be written without loss: every string and every
/// key, at any depth, is at most 65535 bytes long.
pub open spec fn encodable(v: Amf0) -> bool
    decreases v,
{
    match v {
        Amf0::String(s) => s.len() <= 0xFFFF,
        Amf0::Object(props) => encodable_props(props),
        _ => true,
    }
}

/// Whether every key and value of a list of properties can be written
/// without loss.
pub open spec fn encodable_props(props: Seq<(Seq<u8>, Amf0)>) -> bool
    decreases props,
{
    props.len() == 0 || (props[0].0.len() <= 0xFFFF && encodable(props[0].1) && encodable_props(
        props.skip(1),
    ))
}

/// A value that is not an object reads back as itself, whatever follows
/// it.
proof fn lemma_scalar_round_trip(v: Amf0, rest: Seq<u8>)
    requires
        encodable(v),
        !(v is Object),
    ensures
        decode_scalar(encode_value(v) + rest) == Some((v, encode_value(v).len() as int)),
        encode_value(v).len() >= 1,
        (encode_value(v) + rest)[0] == encode_value(v)[0],
        encode_value(v)[0] != MARKER_OBJECT_END,
        encode_value(v)[0] != MARKER_OBJECT,
        encode_value(v)[0] != MARKER_ECMA_ARRAY,
{
    reveal(decode_scalar);
    let all = encode_value(v) + rest;
    match v {
        Amf0::Number(bits) => {
            lemma_be64_roundtrip(bits);
        },
        Amf0::String(s) => {
            assert(all.subrange(3, 3 + s.len() as int) =~= s);
        },
        _ => {},
    }
}

/// How an object that is written splits.
proof fn lemma_object_layout(p: Seq<u8>, rest: Seq<u8>)
    ensures
        ({
            let all = seq![MARKER_OBJECT] + p + amf_object_end() + rest;
            all.len() >= 1 && all[0] == MARKER_OBJECT && all.skip(1) == p + amf_object_end() + rest
        }),
{
    let all = seq![MARKER_OBJECT] + p + amf_object_end() + rest;
    assert(all.skip(1) =~= p + amf_object_end() + rest);
}

/// A value that is written reads back as itself, whatever follows it, and
/// takes exactly the bytes that were written.
pub proof fn lemma_value_round_trip(v: Amf0, rest: Seq<u8>)
    requires
        encodable(v),
    ensures
        decode_value(encode_value(v) + rest) == Some((v, encode_value(v).len() as int)),
        encode_value(v).len() >= 1,
        encode_value(v)[0] != MARKER_OBJECT_END,
    decreases v, 1int,
{
    match v {
        Amf0::Object(props) => {
            lemma_props_round_trip(props, rest);
            lemma_object_layout(encode_props(props), rest);
        },
        _ => {
            lemma_scalar_round_trip(v, rest);
        },
    }
}

/// How a property followed by more splits.
proof fn lemma_property_layout(key: Seq<u8>, ev: Seq<u8>, tail: Seq<u8>)
    requires
        key.len() <= 0xFFFF,
        ev.len() >= 1,
    ensures
        ({
            let all = amf_property(key, ev) + tail;
            &&& all.len() == 2 + key.len() + ev.len() + tail.len()
            &&& u16_of(all[0], all[1]) == key.len()
            &&& all[2] == if key.len() == 0 {
                ev[0]
            } else {
                key[0]
            }
            &&& all.subrange(2, 2 + key.len() as int) == key
            &&& all.skip(2 + key.len() as int) == ev + tail
            &&& all.skip(2 + key.len() as int + ev.len() as int) == tail
        }),
{
}

/// A property in front of properties that read back reads back with them.
proof fn lemma_property_reads_back(
    key: Seq<u8>,
    value: Amf0,
    ev: Seq<u8>,
    tail: Seq<u8>,
    more: Seq<(Seq<u8>, Amf0)>,
    used_more: int,
)
    requires
        key.len() <= 0xFFFF,
        ev.len() >= 1,
        ev[0] != MARKER_OBJECT_END,
        decode_value(ev + tail) == Some((value, ev.len() as int)),
        decode_props(tail) == Some((more, used_more)),
    ensures
        decode_props(amf_property(key, ev) + tail) == Some(
            (seq![(key, value)] + more, 2 + key.len() + ev.len() + used_more),
        ),
{
    lemma_property_layout(key, ev, tail);
}

/// Joining is associative, and a list is its first entry and the rest.
proof fn lemma_regroup<A>(a: Seq<u8>, b: Seq<u8>, c: Seq<u8>, d: Seq<u8>, s: Seq<A>)
    ensures
        a + b + c + d == a + (b + c + d),
        s.len() > 0 ==> seq![s[0]] + s.skip(1) == s,
{
}

/// A list of properties that is written, closed by the object end, reads
/// back as itself, whatever follows.
pub proof fn lemma_props_round_trip(props: Seq<(Seq<u8>, Amf0)>, rest: Seq<u8>)
    requires
        encodable_props(props),
    ensures
        decode_props(encode_props(props) + amf_object_end() + rest) == Some(
            (props, encode_props(props).len() as int + 3),
        ),
    decreases props, 0int,
{
    if props.len() > 0 {
        let key = props[0].0;
        let value = props[0].1;
        let ev = encode_value(value);
        let later = encode_props(props.skip(1));
        let tail = later + amf_object_end() + rest;
        lemma_value_round_trip(value, tail);
        lemma_props_round_trip(props.skip(1), rest);
        lemma_property_reads_back(key, value, ev, tail, props.skip(1), later.len() as int + 3);
        lemma_regroup(amf_property(key, ev), later, amf_object_end(), rest, props);
    }
}

/// The mathematical properties of a list are those of its entries, one for
/// one.
pub proof fn lemma_view_props_index(props: Seq<(Vec<u8>, Amf0Value)>)
    ensures
        view_props(props).len() == props.len(),
        forall|i: int|
            0 <= i < props.len() ==> #[trigger] view_props(props)[i] == (
                props[i].0@,
                value_of(props[i].1),
            ),
    decreases props.len(),
{
    if props.len() > 0 {
        lemma_view_props_index(props.drop_last());
    }
}

/// Appends the properties of `props` from index `from` on.
fn encode_props_from(props: &Vec<(Vec<u8>, Amf0Value)>, from: usize, out: &mut Vec<u8>)
    requires
        from <= props@.len(),
    ensures
        final(out)@ == old(out)@ + encode_props(view_props(props@).skip(from as int)),
    decreases props, props@.len() - from,
{
    proof {
        lemma_view_props_index(props@);
    }
    let ghost later = view_props(props@).skip(from as int);
    if from < props.len() {
        let key = &props[from].0;
        push_u16(out, key.len());
        append_bytes(out, key.as_slice());
        props[from].1.encode(out);
        encode_props_from(props, from + 1, out);
        proof {
            assert(later.skip(1) =~= view_props(props@).skip(from as int + 1));
        }
    }
}

/// Reads properties up to and including the object end.
fn decode_props_at(data: &[u8]) -> (r: Option<(Vec<(Vec<u8>, Amf0Value)>, usize)>)
    ensures
        match r {
            Some((props, used)) => decode_props(data@) == Some((view_props(props@), used as int))
                && used <= data@.len(),
            None => decode_props(data@) is None,
        },
    decreases data@.len(), 0int,
{
    if data.len() < 3 {
        return None;
    }
    let klen = read_u16_be(data);
    if klen == 0 && data[2] == MARKER_OBJECT_END {
        let props: Vec<(Vec<u8>, Amf0Value)> = Vec::new();
        return Some((props, 3));
    }
    if data.len() - 2 < klen {
        return None;
    }
    let key = slice_to_vec(slice_subrange(data, 2, 2 + klen));
    let (value, used) = match Amf0Value::decode(slice_subrange(data, 2 + klen, data.len())) {
        None => {
            return None;
        },
        Some(t) => t,
    };
    if used < 1 {
        return None;
    }
    let at = 2 + klen + used;
    let (more, used_more) = match decode_props_at(slice_subrange(data, at, data.len())) {
        None => {
            return None;
        },
        Some(t) => t,
    };
    let mut props = more;
    let ghost tail = props@;
    props.insert(0, (key, value));
    proof {
        lemma_view_props_index(tail);
        lemma_view_props_index(props@);
    }
    Some((props, at + used_more))
}

impl Amf0Value {
    /// Appends the bytes of the value to `out`. Only the low 16 bits of a
    /// string's or key's length are written.
    pub fn encode(&self, out: &mut Vec<u8>)
        ensures
            final(out)@ == old(out)@ + encode_value(self@),
        decreases self, 0int,
    {
        match self {
            Amf0Value::Number(bits) => {
                out.push(MARKER_NUMBER);
                push_u64(out, *bits);
            },
            Amf0Value::Boolean(b) => {
                out.push(MARKER_BOOLEAN);
                out.push(
                    if *b {
                        1
                    } else {
                        0
                    },
                );
            },
            Amf0Value::String(s) => {
                out.push(MARKER_STRING);
                push_u16(out, s.len());
                append_bytes(out, s.as_slice());
            },
            Amf0Value::Object(props) => {
                out.push(MARKER_OBJECT);
                encode_props_from(props, 0, out);
                out.push(0);
                out.push(0);
                out.push(MARKER_OBJECT_END);
                proof {
                    assert(view_props(props@).skip(0) =~= view_props(props@));
                }
            },
            Amf0Value::Null => {
                out.push(MARKER_NULL);
            },
        }
    }

    /// Reads the value at the front of `data` and says how many bytes it
    /// took; `None` where no whole value of a known form stands there.
    pub fn decode(data: &[u8]) -> (r: Option<(Amf0Value, usize)>)
        ensures
            match r {
                Some((v, used)) => decode_value(data@) == Some((v@, used as int)) && used
                    <= data@.len(),
                None => decode_value(data@) is None,
            },
        decreases data@.len(), 1int,
    {
        reveal(decode_scalar);
        if data.len() < 1 {
            return None;
        }
        let marker = data[0];
        if marker == MARKER_NUMBER {
            if data.len() < 9 {
                return None;
            }
            let bits = read_u64_be(slice_subrange(data, 1, 9));
            Some((Amf0Value::Number(bits), 9))
        } else if marker == MARKER_BOOLEAN {
            if data.len() < 2 {
                return None;
            }
            Some((Amf0Value::Boolean(data[1] != 0), 2))
        } else if marker == MARKER_STRING {
            if data.len() < 3 {
                return None;
            }
            let len = read_u16_be(slice_subrange(data, 1, 3));
            if data.len() - 3 < len {
                return None;
            }
            let s = slice_to_vec(slice_subrange(data, 3, 3 + len));
            Some((Amf0Value::String(s), 3 + len))
        } else if marker == MARKER_OBJECT {
            match decode_props_at(slice_subrange(data, 1, data.len())) {
                Some((props, used)) => Some((Amf0Value::Object(props), 1 + used)),
                None => None,
            }
        } else if marker == MARKER_NULL {
            Some((Amf0Value::Null, 1))
        } else if marker == MARKER_ECMA_ARRAY {
            if data.len() < 5 {
                return None;
            }
            match decode_props_at(slice_subrange(data, 5, data.len())) {
                Some((props, used)) => Some((Amf0Value::Object(props), 5 + used)),
                None => None,
            }
        } else {
            None
        }
    }
}

} // verus!
