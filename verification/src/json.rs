//! Wire-format codec for the gateway: a JSON value model over bytes, a
//! serializer, a parser, and the proof that parsing inverts serialization.
//!
//! Values are modelled over raw bytes: a string is the byte sequence of its
//! UTF-8 text, and a number is kept as its literal token, scanned by byte
//! class and never interpreted (the gateway routes payloads, it does not
//! compute with them). The serializer emits the compact form; the parser
//! additionally accepts inter-token whitespace and the standard string
//! escapes, and rejects texts nested deeper than `MAX_JSON_DEPTH`, so a
//! hostile frame cannot drive the call stack past its limit.

use vstd::prelude::*;

verus! {

broadcast use
    vstd::std_specs::vec::axiom_vec_index_decreases,
    vstd::std_specs::vec::axiom_vec_decreases_to_view,
    vstd::seq::axiom_seq_index_decreases,
    vstd::seq::axiom_seq_subrange_decreases;


/// Mathematical model of a JSON value.
pub enum JsonVal {
    Null,
    Bool(bool),
    Num(Seq<u8>),
    Str(Seq<u8>),
    Arr(Seq<JsonVal>),
    Obj(Seq<(Seq<u8>, JsonVal)>),
}

/// Executable JSON value; its view is `JsonVal`.
#[derive(Debug, PartialEq, Eq)]
pub enum JsonValue {
    Null,
    Bool(bool),
    Num(Vec<u8>),
    Str(Vec<u8>),
    Arr(Vec<JsonValue>),
    Obj(Vec<(Vec<u8>, JsonValue)>),
}

impl View for JsonValue {
    type V = JsonVal;

    open spec fn view(&self) -> JsonVal
        decreases self,
    {
        match self {
            JsonValue::Null => JsonVal::Null,
            JsonValue::Bool(b) => JsonVal::Bool(*b),
            JsonValue::Num(s) => JsonVal::Num(s@),
            JsonValue::Str(s) => JsonVal::Str(s@),
            JsonValue::Arr(els) => JsonVal::Arr(arr_view(els@)),
            JsonValue::Obj(fields) => JsonVal::Obj(obj_view(fields@)),
        }
    }
}

/// Elementwise view of a sequence of values.
pub open spec fn arr_view(els: Seq<JsonValue>) -> Seq<JsonVal>
    decreases els,
{
    if els.len() == 0 {
        Seq::empty()
    } else {
        arr_view(els.drop_last()).push(els.last()@)
    }
}

/// Elementwise view of a sequence of members.
pub open spec fn obj_view(fields: Seq<(Vec<u8>, JsonValue)>) -> Seq<(Seq<u8>, JsonVal)>
    decreases fields,
{
    if fields.len() == 0 {
        Seq::empty()
    } else {
        obj_view(fields.drop_last()).push((fields.last().0@, fields.last().1@))
    }
}

pub broadcast proof fn lemma_arr_view(els: Seq<JsonValue>)
    ensures
        (#[trigger] arr_view(els)).len() == els.len(),
        forall|i: int| 0 <= i < els.len() ==> arr_view(els)[i] == #[trigger] els[i]@,
    decreases els.len(),
{
    if els.len() > 0 {
        lemma_arr_view(els.drop_last());
        assert(arr_view(els) == arr_view(els.drop_last()).push(els.last()@));
        assert forall|i: int| 0 <= i < els.len() implies arr_view(els)[i] == #[trigger] els[i]@ by {
            if i < els.len() - 1 {
                assert(els.drop_last()[i] == els[i]);
                assert(arr_view(els)[i] == arr_view(els.drop_last())[i]);
            } else {
                assert(els.last() == els[i]);
            }
        }
    }
}

pub broadcast proof fn lemma_obj_view(fields: Seq<(Vec<u8>, JsonValue)>)
    ensures
        (#[trigger] obj_view(fields)).len() == fields.len(),
        forall|i: int|
            0 <= i < fields.len() ==> obj_view(fields)[i] == (
                #[trigger] fields[i].0@,
                fields[i].1@,
            ),
    decreases fields.len(),
{
    if fields.len() > 0 {
        lemma_obj_view(fields.drop_last());
        assert(obj_view(fields) == obj_view(fields.drop_last()).push(
            (fields.last().0@, fields.last().1@),
        ));
        assert forall|i: int|
            0 <= i < fields.len() implies obj_view(fields)[i] == (
            #[trigger] fields[i].0@,
            fields[i].1@,
        ) by {
            if i < fields.len() - 1 {
                assert(fields.drop_last()[i] == fields[i]);
                assert(obj_view(fields)[i] == obj_view(fields.drop_last())[i]);
            } else {
                assert(fields.last() == fields[i]);
            }
        }
    }
}

/// Taking the element view commutes with removing a member.
pub proof fn lemma_obj_view_remove(fs: Seq<(Vec<u8>, JsonValue)>, i: int)
    requires
        0 <= i < fs.len(),
    ensures
        obj_view(fs.remove(i)) == obj_view(fs).remove(i),
{
    lemma_obj_view(fs);
    lemma_obj_view(fs.remove(i));
    assert(fs.remove(i) =~= fs.take(i) + fs.skip(i + 1));
    assert(obj_view(fs).remove(i) =~= obj_view(fs).take(i) + obj_view(fs).skip(i + 1));
    assert forall|k: int| 0 <= k < fs.len() - 1 implies obj_view(fs.remove(i))[k] == obj_view(
        fs,
    ).remove(i)[k] by {
        assert(obj_view(fs.remove(i))[k] == (fs.remove(i)[k].0@, fs.remove(i)[k].1@));
        if k < i {
            assert(fs.remove(i)[k] == fs[k]);
            assert(obj_view(fs).remove(i)[k] == obj_view(fs)[k]);
            assert(obj_view(fs)[k] == (fs[k].0@, fs[k].1@));
        } else {
            assert(fs.remove(i)[k] == fs[k + 1]);
            assert(obj_view(fs).remove(i)[k] == obj_view(fs)[k + 1]);
            assert(obj_view(fs)[k + 1] == (fs[k + 1].0@, fs[k + 1].1@));
        }
    }
    assert(obj_view(fs.remove(i)) =~= obj_view(fs).remove(i));
}

pub open spec fn is_ws(b: u8) -> bool {
    b == 32 || b == 9 || b == 10 || b == 13
}

pub open spec fn is_digit(b: u8) -> bool {
    48 <= b <= 57
}

/// Bytes that may occur in a number token: digits, sign, dot, exponent.
pub open spec fn is_num_byte(b: u8) -> bool {
    is_digit(b) || b == 43 || b == 45 || b == 46 || b == 101 || b == 69
}

/// The nesting depth the parser accepts. A container (array or object)
/// consumes one level; a text nested deeper is rejected as a parse failure
/// rather than driving the call stack past its limit.
pub const MAX_JSON_DEPTH: usize = 128;

/// Whether a value nests no deeper than `d` levels of containers.
pub open spec fn depth_le(v: JsonVal, d: nat) -> bool
    decreases v,
{
    match v {
        JsonVal::Null => true,
        JsonVal::Bool(_) => true,
        JsonVal::Num(_) => true,
        JsonVal::Str(_) => true,
        JsonVal::Arr(els) => d > 0 && forall|i: int|
            0 <= i < els.len() ==> depth_le(#[trigger] els[i], (d - 1) as nat),
        JsonVal::Obj(fields) => d > 0 && forall|i: int|
            0 <= i < fields.len() ==> depth_le(#[trigger] fields[i].1, (d - 1) as nat),
    }
}

/// Well-formed values: number tokens are non-empty, start as a number does,
/// and hold only number bytes. Everything else is unconstrained.
pub open spec fn wf(v: JsonVal) -> bool
    decreases v,
{
    match v {
        JsonVal::Null => true,
        JsonVal::Bool(_) => true,
        JsonVal::Num(s) => {
            &&& s.len() > 0
            &&& (is_digit(s[0]) || s[0] == 45)
            &&& forall|i: int| 0 <= i < s.len() ==> is_num_byte(#[trigger] s[i])
        },
        JsonVal::Str(_) => true,
        JsonVal::Arr(els) => forall|i: int| 0 <= i < els.len() ==> wf(#[trigger] els[i]),
        JsonVal::Obj(fields) => forall|i: int|
            0 <= i < fields.len() ==> wf(#[trigger] fields[i].1),
    }
}

/// Lower-case hex digit of a value below 16.
pub open spec fn hex_digit(n: u8) -> u8 {
    if n < 10 {
        (48 + n) as u8
    } else {
        (87 + n) as u8
    }
}

/// Escaping of one string byte: quote and backslash get a backslash escape,
/// control bytes become a `\u00XY` escape, everything else stands as it is.
pub open spec fn esc_byte(b: u8) -> Seq<u8> {
    if b == 34 {
        seq![92u8, 34u8]
    } else if b == 92 {
        seq![92u8, 92u8]
    } else if b < 32 {
        seq![92u8, 117u8, 48u8, 48u8, hex_digit(b / 16), hex_digit(b % 16)]
    } else {
        seq![b]
    }
}

pub open spec fn esc_str(s: Seq<u8>) -> Seq<u8>
    decreases s.len(),
{
    if s.len() == 0 {
        Seq::empty()
    } else {
        esc_byte(s[0]) + esc_str(s.skip(1))
    }
}

/// Serialization of one value, compact form.
pub open spec fn ser(v: JsonVal) -> Seq<u8>
    decreases v, 0int,
{
    match v {
        JsonVal::Null => seq![110u8, 117u8, 108u8, 108u8],
        JsonVal::Bool(b) => if b {
            seq![116u8, 114u8, 117u8, 101u8]
        } else {
            seq![102u8, 97u8, 108u8, 115u8, 101u8]
        },
        JsonVal::Num(s) => s,
        JsonVal::Str(s) => seq![34u8] + esc_str(s) + seq![34u8],
        JsonVal::Arr(els) => seq![91u8] + ser_items(els, 0) + seq![93u8],
        JsonVal::Obj(fields) => seq![123u8] + ser_fields(fields, 0) + seq![125u8],
    }
}

/// Serialization of the elements of an array from index `i` on, separated by
/// commas.
pub open spec fn ser_items(els: Seq<JsonVal>, i: int) -> Seq<u8>
    decreases els, els.len() - i,
{
    if i < 0 || i >= els.len() {
        Seq::empty()
    } else if i == els.len() - 1 {
        ser(els[i])
    } else {
        ser(els[i]) + seq![44u8] + ser_items(els, i + 1)
    }
}

/// Serialization of the members of an object from index `i` on.
pub open spec fn ser_fields(fields: Seq<(Seq<u8>, JsonVal)>, i: int) -> Seq<u8>
    decreases fields, fields.len() - i,
{
    if i < 0 || i >= fields.len() {
        Seq::empty()
    } else {
        let member = seq![34u8] + esc_str(fields[i].0) + seq![34u8, 58u8] + ser(fields[i].1);
        if i == fields.len() - 1 {
            member
        } else {
            member + seq![44u8] + ser_fields(fields, i + 1)
        }
    }
}

/// The input with its leading whitespace removed.
pub open spec fn skip_ws(s: Seq<u8>) -> Seq<u8>
    decreases s.len(),
{
    if s.len() > 0 && is_ws(s[0]) {
        skip_ws(s.skip(1))
    } else {
        s
    }
}

/// Length of the leading run of number bytes.
pub open spec fn num_len(s: Seq<u8>) -> nat
    decreases s.len(),
{
    if s.len() > 0 && is_num_byte(s[0]) {
        (1 + num_len(s.skip(1))) as nat
    } else {
        0
    }
}

/// Value of one hex digit, upper or lower case.
pub open spec fn hex_val(b: u8) -> Option<u8> {
    if is_digit(b) {
        Some((b - 48) as u8)
    } else if 97 <= b <= 102 {
        Some((b - 87) as u8)
    } else if 65 <= b <= 70 {
        Some((b - 55) as u8)
    } else {
        None
    }
}

/// Unescaped byte for a single-character escape `\c`, if `c` is one.
pub open spec fn esc_char_val(c: u8) -> Option<u8> {
    if c == 34 {
        Some(34u8)
    } else if c == 92 {
        Some(92u8)
    } else if c == 47 {
        Some(47u8)
    } else if c == 98 {
        Some(8u8)
    } else if c == 102 {
        Some(12u8)
    } else if c == 110 {
        Some(10u8)
    } else if c == 114 {
        Some(13u8)
    } else if c == 116 {
        Some(9u8)
    } else {
        None
    }
}

/// The parse of a string body: the input starts right after the opening
/// quote; on success the content bytes and the input after the closing quote
/// come back. A `\uXXXX` escape is taken only below 128, where it denotes one
/// byte; other code points travel as raw UTF-8.
pub open spec fn parse_str_body(s: Seq<u8>) -> Option<(Seq<u8>, Seq<u8>)>
    decreases s.len(),
{
    if s.len() == 0 {
        None
    } else if s[0] == 34 {
        Some((Seq::empty(), s.skip(1)))
    } else if s[0] == 92 {
        if s.len() < 2 {
            None
        } else if s[1] == 117 {
            if s.len() < 6 {
                None
            } else {
                match (hex_val(s[2]), hex_val(s[3]), hex_val(s[4]), hex_val(s[5])) {
                    (Some(h0), Some(h1), Some(h2), Some(h3)) => {
                        let n = h0 as int * 4096 + h1 as int * 256 + h2 as int * 16 + h3 as int;
                        if n < 128 {
                            match parse_str_body(s.skip(6)) {
                                Some((t, r)) => Some((seq![n as u8] + t, r)),
                                None => None,
                            }
                        } else {
                            None
                        }
                    },
                    _ => None,
                }
            }
        } else {
            match esc_char_val(s[1]) {
                Some(b) => match parse_str_body(s.skip(2)) {
                    Some((t, r)) => Some((seq![b] + t, r)),
                    None => None,
                },
                None => None,
            }
        }
    } else if s[0] < 32 {
        None
    } else {
        match parse_str_body(s.skip(1)) {
            Some((t, r)) => Some((seq![s[0]] + t, r)),
            None => None,
        }
    }
}

/// The parse of one value at the head of the input (no leading whitespace);
/// on success the value and the rest of the input come back. A container
/// needs one level of the depth budget `d` for its contents.
pub open spec fn parse_val(s: Seq<u8>, d: nat) -> Option<(JsonVal, Seq<u8>)>
    decreases s.len(), 0int,
{
    if s.len() == 0 {
        None
    } else {
        let b = s[0];
        if b == 110 {
            if s.len() >= 4 && s[1] == 117 && s[2] == 108 && s[3] == 108 {
                Some((JsonVal::Null, s.skip(4)))
            } else {
                None
            }
        } else if b == 116 {
            if s.len() >= 4 && s[1] == 114 && s[2] == 117 && s[3] == 101 {
                Some((JsonVal::Bool(true), s.skip(4)))
            } else {
                None
            }
        } else if b == 102 {
            if s.len() >= 5 && s[1] == 97 && s[2] == 108 && s[3] == 115 && s[4] == 101 {
                Some((JsonVal::Bool(false), s.skip(5)))
            } else {
                None
            }
        } else if b == 34 {
            match parse_str_body(s.skip(1)) {
                Some((t, r)) => Some((JsonVal::Str(t), r)),
                None => None,
            }
        } else if is_digit(b) || b == 45 {
            let n = num_len(s);
            if n <= s.len() {
                Some((JsonVal::Num(s.take(n as int)), s.skip(n as int)))
            } else {
                None
            }
        } else if b == 91 {
            if d == 0 {
                None
            } else {
                let t = skip_ws(s.skip(1));
                if t.len() >= s.len() {
                    None
                } else if t.len() > 0 && t[0] == 93 {
                    Some((JsonVal::Arr(Seq::empty()), t.skip(1)))
                } else {
                    match parse_items(t, (d - 1) as nat) {
                        Some((els, r)) => Some((JsonVal::Arr(els), r)),
                        None => None,
                    }
                }
            }
        } else if b == 123 {
            if d == 0 {
                None
            } else {
                let t = skip_ws(s.skip(1));
                if t.len() >= s.len() {
                    None
                } else if t.len() > 0 && t[0] == 125 {
                    Some((JsonVal::Obj(Seq::empty()), t.skip(1)))
                } else {
                    match parse_fields(t, (d - 1) as nat) {
                        Some((fs, r)) => Some((JsonVal::Obj(fs), r)),
                        None => None,
                    }
                }
            }
        } else {
            None
        }
    }
}

/// The parse of the members of a non-empty array, up to and including the
/// closing bracket.
pub open spec fn parse_items(s: Seq<u8>, d: nat) -> Option<(Seq<JsonVal>, Seq<u8>)>
    decreases s.len(), 1int,
{
    match parse_val(s, d) {
        None => None,
        Some((v, r)) => {
            let u = skip_ws(r);
            if u.len() == 0 {
                None
            } else if u[0] == 93 {
                Some((seq![v], u.skip(1)))
            } else if u[0] == 44 {
                let t = skip_ws(u.skip(1));
                if t.len() >= s.len() {
                    None
                } else {
                    match parse_items(t, d) {
                        Some((els, rr)) => Some((seq![v] + els, rr)),
                        None => None,
                    }
                }
            } else {
                None
            }
        },
    }
}

/// The parse of the members of a non-empty object, up to and including the
/// closing brace.
pub open spec fn parse_fields(s: Seq<u8>, d: nat) -> Option<(Seq<(Seq<u8>, JsonVal)>, Seq<u8>)>
    decreases s.len(), 1int,
{
    if s.len() == 0 || s[0] != 34 {
        None
    } else {
        match parse_str_body(s.skip(1)) {
            None => None,
            Some((key, r1)) => {
                let u = skip_ws(r1);
                if u.len() == 0 || u[0] != 58 {
                    None
                } else {
                    let w = skip_ws(u.skip(1));
                    if w.len() >= s.len() {
                        None
                    } else {
                        match parse_val(w, d) {
                            None => None,
                            Some((v, r2)) => {
                                let z = skip_ws(r2);
                                if z.len() == 0 {
                                    None
                                } else if z[0] == 125 {
                                    Some((seq![(key, v)], z.skip(1)))
                                } else if z[0] == 44 {
                                    let t = skip_ws(z.skip(1));
                                    if t.len() >= s.len() {
                                        None
                                    } else {
                                        match parse_fields(t, d) {
                                            Some((fs, rr)) => Some((seq![(key, v)] + fs, rr)),
                                            None => None,
                                        }
                                    }
                                } else {
                                    None
                                }
                            },
                        }
                    }
                }
            },
        }
    }
}

/// The value under the first member with the given key, if any.
pub open spec fn obj_lookup(fields: Seq<(Seq<u8>, JsonVal)>, key: Seq<u8>) -> Option<JsonVal>
    decreases fields.len(),
{
    if fields.len() == 0 {
        None
    } else if fields[0].0 == key {
        Some(fields[0].1)
    } else {
        obj_lookup(fields.skip(1), key)
    }
}

/// Appending a byte slice to a vector.
pub(crate) fn append_bytes(dst: &mut Vec<u8>, src: &[u8])
    ensures
        final(dst)@ == old(dst)@ + src@,
{
    let n = src.len();
    for i in 0..n
        invariant
            n == src.len(),
            dst@ == old(dst)@ + src@.take(i as int),
    {
        dst.push(src[i]);
        assert(dst@ =~= old(dst)@ + src@.take(i + 1 as int));
    }
    assert(old(dst)@ + src@.take(n as int) =~= old(dst)@ + src@);
}

/// Equality of two byte strings.
pub fn bytes_eq(a: &[u8], b: &[u8]) -> (r: bool)
    ensures
        r == (a@ == b@),
{
    if a.len() != b.len() {
        return false;
    }
    let n = a.len();
    for i in 0..n
        invariant
            n == a.len() == b.len(),
            forall|k: int| 0 <= k < i ==> a@[k] == b@[k],
    {
        if a[i] != b[i] {
            return false;
        }
    }
    proof {
        assert(a@ =~= b@);
    }
    true
}

/// The value under the first member with the given key, if any.
pub fn obj_get<'a>(fields: &'a Vec<(Vec<u8>, JsonValue)>, key: &[u8]) -> (r: Option<
    &'a JsonValue,
>)
    ensures
        match r {
            Some(v) => obj_lookup(obj_view(fields@), key@) == Some(v@),
            None => obj_lookup(obj_view(fields@), key@) is None,
        },
{
    proof {
        lemma_obj_view(fields@);
        assert(obj_view(fields@).skip(0) =~= obj_view(fields@));
    }
    let n = fields.len();
    for i in 0..n
        invariant
            n == fields.len(),
            obj_lookup(obj_view(fields@), key@) == obj_lookup(
                obj_view(fields@).skip(i as int),
                key@,
            ),
    {
        proof {
            lemma_obj_view(fields@);
            assert(obj_view(fields@).skip(i as int)[0] == obj_view(fields@)[i as int]);
            assert(obj_view(fields@)[i as int] == (fields@[i as int].0@, fields@[i as int].1@));
            assert(obj_view(fields@).skip(i as int).skip(1) =~= obj_view(fields@).skip(i + 1));
        }
        if bytes_eq(fields[i].0.as_slice(), key) {
            return Some(&fields[i].1);
        }
    }
    proof {
        assert(obj_view(fields@).skip(n as int).len() == 0);
    }
    None
}

proof fn lemma_skip_ws_id(s: Seq<u8>)
    requires
        s.len() == 0 || !is_ws(s[0]),
    ensures
        skip_ws(s) == s,
{
}

/// The first byte of a serialized well-formed value starts a value: it is
/// never whitespace, a separator, or a closing bracket.
proof fn lemma_ser_first(v: JsonVal)
    requires
        wf(v),
    ensures
        ser(v).len() > 0,
        ({
            let b = ser(v)[0];
            b == 110 || b == 116 || b == 102 || b == 34 || b == 91 || b == 123 || is_digit(b)
                || b == 45
        }),
{
    match v {
        JsonVal::Str(s) => {
            assert(ser(v)[0] == 34);
        },
        JsonVal::Arr(els) => {
            assert(ser(v)[0] == 91);
        },
        JsonVal::Obj(fields) => {
            assert(ser(v)[0] == 123);
        },
        _ => {},
    }
}

/// Scanning a number token stops exactly at its end when what follows is not
/// a number byte.
proof fn lemma_num_scan(t: Seq<u8>, rest: Seq<u8>)
    requires
        forall|i: int| 0 <= i < t.len() ==> is_num_byte(#[trigger] t[i]),
        rest.len() == 0 || !is_num_byte(rest[0]),
    ensures
        num_len(t + rest) == t.len(),
    decreases t.len(),
{
    if t.len() == 0 {
        assert(t + rest =~= rest);
    } else {
        assert((t + rest)[0] == t[0]);
        assert((t + rest).skip(1) =~= t.skip(1) + rest);
        lemma_num_scan(t.skip(1), rest);
    }
}

/// Parsing a string body inverts escaping: the escaped content followed by
/// the closing quote and anything else parses back to the content.
proof fn lemma_parse_esc(k: Seq<u8>, rest: Seq<u8>)
    ensures
        parse_str_body(esc_str(k) + seq![34u8] + rest) == Some((k, rest)),
    decreases k.len(),
{
    if k.len() == 0 {
        assert(esc_str(k) + seq![34u8] + rest =~= seq![34u8] + rest);
        assert((seq![34u8] + rest)[0] == 34);
        assert((seq![34u8] + rest).skip(1) =~= rest);
    } else {
        let b = k[0];
        let tail = esc_str(k.skip(1)) + seq![34u8] + rest;
        let s = esc_str(k) + seq![34u8] + rest;
        assert(esc_str(k) == esc_byte(b) + esc_str(k.skip(1)));
        assert(s =~= esc_byte(b) + tail);
        lemma_parse_esc(k.skip(1), rest);
        if b == 34 || b == 92 {
            assert(s[0] == 92 && s[1] == b);
            assert(esc_char_val(b) == Some(b));
            assert(s.skip(2) =~= tail);
            assert(seq![b] + k.skip(1) =~= k);
        } else if b < 32 {
            assert(s[0] == 92 && s[1] == 117 && s[2] == 48 && s[3] == 48);
            assert(s[4] == hex_digit(b / 16) && s[5] == hex_digit(b % 16));
            assert(hex_val(48) == Some(0u8));
            assert(b / 16 < 10 && hex_val(hex_digit(b / 16)) == Some(b / 16));
            assert(hex_val(hex_digit(b % 16)) == Some(b % 16));
            assert((b / 16) as int * 16 + (b % 16) as int == b);
            assert(s.skip(6) =~= tail);
            assert(seq![b] + k.skip(1) =~= k);
        } else {
            assert(s[0] == b);
            assert(b != 34 && b != 92 && b >= 32);
            assert(s.skip(1) =~= tail);
            assert(seq![b] + k.skip(1) =~= k);
        }
    }
}

/// Parsing inverts serialization: a serialized well-formed value that nests
/// within the depth budget, followed by anything that cannot extend a number
/// token, parses back to the value.
#[verifier::rlimit(100)]
#[verifier::spinoff_prover]
pub proof fn lemma_parse_ser(v: JsonVal, rest: Seq<u8>, d: nat)
    requires
        wf(v),
        depth_le(v, d),
        rest.len() == 0 || !is_num_byte(rest[0]),
    ensures
        parse_val(ser(v) + rest, d) == Some((v, rest)),
    decreases v, 0int,
{
    let s = ser(v) + rest;
    match v {
        JsonVal::Null => {
            assert(s[0] == 110 && s[1] == 117 && s[2] == 108 && s[3] == 108);
            assert(s.skip(4) =~= rest);
        },
        JsonVal::Bool(b) => {
            if b {
                assert(s[0] == 116 && s[1] == 114 && s[2] == 117 && s[3] == 101);
                assert(s.skip(4) =~= rest);
            } else {
                assert(s[0] == 102 && s[1] == 97 && s[2] == 108 && s[3] == 115 && s[4] == 101);
                assert(s.skip(5) =~= rest);
            }
        },
        JsonVal::Num(t) => {
            assert(s[0] == t[0]);
            lemma_num_scan(t, rest);
            assert(num_len(s) == t.len());
            assert(s.take(t.len() as int) =~= t);
            assert(s.skip(t.len() as int) =~= rest);
        },
        JsonVal::Str(t) => {
            assert(s[0] == 34);
            assert(s.skip(1) =~= esc_str(t) + seq![34u8] + rest);
            lemma_parse_esc(t, rest);
        },
        JsonVal::Arr(els) => {
            assert(s[0] == 91);
            assert(s.skip(1) =~= ser_items(els, 0) + seq![93u8] + rest);
            if els.len() == 0 {
                assert(s.skip(1) =~= seq![93u8] + rest);
                lemma_skip_ws_id(s.skip(1));
                let t = skip_ws(s.skip(1));
                assert(t[0] == 93);
                assert(t.skip(1) =~= rest);
                assert(els =~= Seq::<JsonVal>::empty());
            } else {
                lemma_ser_first(els[0]);
                assert(ser_items(els, 0)[0] == ser(els[0])[0]);
                assert(s.skip(1)[0] == ser(els[0])[0]);
                lemma_skip_ws_id(s.skip(1));
                let t = skip_ws(s.skip(1));
                assert(t.len() < s.len());
                assert(t[0] != 93);
                lemma_parse_items_ser(els, 0, rest, (d - 1) as nat);
                assert(els.skip(0) =~= els);
            }
        },
        JsonVal::Obj(fields) => {
            assert(s[0] == 123);
            assert(s.skip(1) =~= ser_fields(fields, 0) + seq![125u8] + rest);
            if fields.len() == 0 {
                assert(s.skip(1) =~= seq![125u8] + rest);
                lemma_skip_ws_id(s.skip(1));
                let t = skip_ws(s.skip(1));
                assert(t[0] == 125);
                assert(t.skip(1) =~= rest);
                assert(fields =~= Seq::<(Seq<u8>, JsonVal)>::empty());
            } else {
                assert(ser_fields(fields, 0)[0] == 34);
                assert(s.skip(1)[0] == 34);
                lemma_skip_ws_id(s.skip(1));
                let t = skip_ws(s.skip(1));
                assert(t.len() < s.len());
                assert(t[0] != 125);
                lemma_parse_fields_ser(fields, 0, rest, (d - 1) as nat);
                assert(fields.skip(0) =~= fields);
            }
        },
    }
}

#[verifier::rlimit(100)]
#[verifier::spinoff_prover]
proof fn lemma_parse_items_ser(els: Seq<JsonVal>, i: int, rest: Seq<u8>, d: nat)
    requires
        0 <= i < els.len(),
        forall|j: int| 0 <= j < els.len() ==> wf(#[trigger] els[j]),
        forall|j: int| 0 <= j < els.len() ==> depth_le(#[trigger] els[j], d),
        rest.len() == 0 || !is_num_byte(rest[0]),
    ensures
        parse_items(ser_items(els, i) + seq![93u8] + rest, d) == Some((els.skip(i), rest)),
    decreases els, els.len() - i,
{
    let s = ser_items(els, i) + seq![93u8] + rest;
    lemma_ser_first(els[i]);
    if i == els.len() - 1 {
        assert(ser_items(els, i) == ser(els[i]));
        assert(s =~= ser(els[i]) + (seq![93u8] + rest));
        lemma_parse_ser(els[i], seq![93u8] + rest, d);
        let r = seq![93u8] + rest;
        lemma_skip_ws_id(r);
        assert(r[0] == 93);
        assert(r.skip(1) =~= rest);
        assert(seq![els[i]] =~= els.skip(i));
    } else {
        let mid = seq![44u8] + ser_items(els, i + 1) + seq![93u8] + rest;
        assert(ser_items(els, i) == ser(els[i]) + seq![44u8] + ser_items(els, i + 1));
        assert(s =~= ser(els[i]) + mid);
        lemma_parse_ser(els[i], mid, d);
        lemma_skip_ws_id(mid);
        assert(mid[0] == 44);
        let t0 = mid.skip(1);
        assert(t0 =~= ser_items(els, i + 1) + seq![93u8] + rest);
        lemma_ser_first(els[i + 1]);
        assert(ser_items(els, i + 1)[0] == ser(els[i + 1])[0]);
        assert(t0[0] == ser(els[i + 1])[0]);
        lemma_skip_ws_id(t0);
        assert(skip_ws(t0).len() < s.len());
        lemma_parse_items_ser(els, i + 1, rest, d);
        assert(seq![els[i]] + els.skip(i + 1) =~= els.skip(i));
    }
}

#[verifier::rlimit(100)]
#[verifier::spinoff_prover]
proof fn lemma_parse_fields_ser(fields: Seq<(Seq<u8>, JsonVal)>, i: int, rest: Seq<u8>, d: nat)
    requires
        0 <= i < fields.len(),
        forall|j: int| 0 <= j < fields.len() ==> wf(#[trigger] fields[j].1),
        forall|j: int| 0 <= j < fields.len() ==> depth_le(#[trigger] fields[j].1, d),
        rest.len() == 0 || !is_num_byte(rest[0]),
    ensures
        parse_fields(ser_fields(fields, i) + seq![125u8] + rest, d) == Some(
            (fields.skip(i), rest),
        ),
    decreases fields, fields.len() - i,
{
    let key = fields[i].0;
    let v = fields[i].1;
    let member = seq![34u8] + esc_str(key) + seq![34u8, 58u8] + ser(v);
    let s = ser_fields(fields, i) + seq![125u8] + rest;
    let after = if i == fields.len() - 1 {
        seq![125u8] + rest
    } else {
        seq![44u8] + ser_fields(fields, i + 1) + seq![125u8] + rest
    };
    assert(s =~= member + after) by {
        if i == fields.len() - 1 {
            assert(ser_fields(fields, i) == member);
        } else {
            assert(ser_fields(fields, i) == member + seq![44u8] + ser_fields(fields, i + 1));
        }
    }
    assert(s[0] == 34);
    let rest3 = seq![58u8] + ser(v) + after;
    assert(s.skip(1) =~= esc_str(key) + seq![34u8] + rest3);
    lemma_parse_esc(key, rest3);
    lemma_skip_ws_id(rest3);
    assert(rest3[0] == 58);
    lemma_ser_first(v);
    let w0 = rest3.skip(1);
    assert(w0 =~= ser(v) + after);
    assert(w0[0] == ser(v)[0]);
    lemma_skip_ws_id(w0);
    assert(skip_ws(w0).len() < s.len());
    lemma_parse_ser(v, after, d);
    lemma_skip_ws_id(after);
    if i == fields.len() - 1 {
        assert(after[0] == 125);
        assert(after.skip(1) =~= rest);
        assert(seq![(key, v)] =~= fields.skip(i));
    } else {
        assert(after[0] == 44);
        let t0 = after.skip(1);
        assert(t0 =~= ser_fields(fields, i + 1) + seq![125u8] + rest);
        assert(ser_fields(fields, i + 1)[0] == 34);
        assert(t0[0] == 34);
        lemma_skip_ws_id(t0);
        assert(skip_ws(t0).len() < s.len());
        lemma_parse_fields_ser(fields, i + 1, rest, d);
        assert(seq![(key, v)] + fields.skip(i + 1) =~= fields.skip(i));
    }
}

/// The round trip at the whole-text level: a serialized well-formed value
/// that nests within the parser's depth limit is the parse of its own text.
pub proof fn lemma_parse_text_ser(v: JsonVal)
    requires
        wf(v),
        depth_le(v, MAX_JSON_DEPTH as nat),
    ensures
        parse_text(ser(v)) == Some(v),
{
    lemma_ser_first(v);
    lemma_skip_ws_id(ser(v));
    assert(ser(v) + Seq::<u8>::empty() =~= ser(v));
    lemma_parse_ser(v, Seq::<u8>::empty(), MAX_JSON_DEPTH as nat);
    assert(skip_ws(Seq::<u8>::empty()).len() == 0);
}

/// The parse of a whole text: exactly one value, possibly surrounded by
/// whitespace, nested at most `MAX_JSON_DEPTH` containers deep.
pub open spec fn parse_text(s: Seq<u8>) -> Option<JsonVal> {
    match parse_val(skip_ws(s), MAX_JSON_DEPTH as nat) {
        Some((v, r)) => if skip_ws(r).len() == 0 {
            Some(v)
        } else {
            None
        },
        None => None,
    }
}

proof fn lemma_esc_str_snoc(t: Seq<u8>, b: u8)
    ensures
        esc_str(t.push(b)) == esc_str(t) + esc_byte(b),
    decreases t.len(),
{
    if t.len() == 0 {
        assert(t.push(b)[0] == b);
        assert(t.push(b).skip(1) =~= Seq::<u8>::empty());
        assert(esc_str(t.push(b)) == esc_byte(t.push(b)[0]) + esc_str(t.push(b).skip(1)));
        assert(esc_byte(b) + esc_str(Seq::<u8>::empty()) =~= esc_byte(b));
        assert(esc_str(t) + esc_byte(b) =~= esc_byte(b));
    } else {
        assert(t.push(b)[0] == t[0]);
        assert(t.push(b).skip(1) =~= t.skip(1).push(b));
        lemma_esc_str_snoc(t.skip(1), b);
        assert(esc_byte(t[0]) + (esc_str(t.skip(1)) + esc_byte(b)) =~= (esc_byte(t[0]) + esc_str(
            t.skip(1),
        )) + esc_byte(b));
    }
}

fn hex_digit_x(n: u8) -> (r: u8)
    requires
        n < 16,
    ensures
        r == hex_digit(n),
{
    if n < 10 {
        48 + n
    } else {
        87 + n
    }
}

fn push_esc_byte(out: &mut Vec<u8>, b: u8)
    ensures
        final(out)@ == old(out)@ + esc_byte(b),
{
    if b == 34 {
        out.push(92);
        out.push(34);
    } else if b == 92 {
        out.push(92);
        out.push(92);
    } else if b < 32 {
        out.push(92);
        out.push(117);
        out.push(48);
        out.push(48);
        out.push(hex_digit_x(b / 16));
        out.push(hex_digit_x(b % 16));
    } else {
        out.push(b);
    }
    assert(out@ =~= old(out)@ + esc_byte(b));
}

fn push_esc_str(out: &mut Vec<u8>, s: &Vec<u8>)
    ensures
        final(out)@ == old(out)@ + esc_str(s@),
{
    let n = s.len();
    for i in 0..n
        invariant
            n == s.len(),
            out@ == old(out)@ + esc_str(s@.take(i as int)),
    {
        push_esc_byte(out, s[i]);
        proof {
            lemma_esc_str_snoc(s@.take(i as int), s@[i as int]);
            assert(s@.take(i as int).push(s@[i as int]) =~= s@.take(i + 1 as int));
        }
    }
    assert(s@.take(n as int) =~= s@);
}

/// Serialization of one value, appended to `out`.
pub fn ser_value(v: &JsonValue, out: &mut Vec<u8>)
    ensures
        final(out)@ == old(out)@ + ser(v@),
    decreases v, 0int,
{
    match v {
        JsonValue::Null => {
            out.push(110);
            out.push(117);
            out.push(108);
            out.push(108);
            assert(out@ =~= old(out)@ + ser(v@));
        },
        JsonValue::Bool(b) => {
            if *b {
                out.push(116);
                out.push(114);
                out.push(117);
                out.push(101);
            } else {
                out.push(102);
                out.push(97);
                out.push(108);
                out.push(115);
                out.push(101);
            }
            assert(out@ =~= old(out)@ + ser(v@));
        },
        JsonValue::Num(s) => {
            let n = s.len();
            for i in 0..n
                invariant
                    n == s.len(),
                    out@ == old(out)@ + s@.take(i as int),
            {
                out.push(s[i]);
                assert(out@ =~= old(out)@ + s@.take(i + 1 as int));
            }
            assert(s@.take(n as int) =~= s@);
        },
        JsonValue::Str(s) => {
            out.push(34);
            push_esc_str(out, s);
            out.push(34);
            assert(out@ =~= old(out)@ + ser(v@));
        },
        JsonValue::Arr(els) => {
            out.push(91);
            if els.len() > 0 {
                ser_items_x(els, out);
            }
            out.push(93);
            proof {
                lemma_arr_view(els@);
                if els@.len() == 0 {
                    assert(ser_items(arr_view(els@), 0) =~= Seq::<u8>::empty());
                }
                assert(out@ =~= old(out)@ + ser(v@));
            }
        },
        JsonValue::Obj(fields) => {
            out.push(123);
            if fields.len() > 0 {
                ser_fields_x(fields, out);
            }
            out.push(125);
            proof {
                lemma_obj_view(fields@);
                if fields@.len() == 0 {
                    assert(ser_fields(obj_view(fields@), 0) =~= Seq::<u8>::empty());
                }
                assert(out@ =~= old(out)@ + ser(v@));
            }
        },
    }
}

/// Serialization of a non-empty element list, comma-separated. The loop
/// keeps the call stack bounded by the nesting depth alone, not the number
/// of elements.
#[verifier::rlimit(100)]
fn ser_items_x(els: &Vec<JsonValue>, out: &mut Vec<u8>)
    requires
        els.len() > 0,
    ensures
        final(out)@ == old(out)@ + ser_items(arr_view(els@), 0),
    decreases els, 0int,
{
    proof {
        lemma_arr_view(els@);
    }
    let ghost a = arr_view(els@);
    let n = els.len();
    ser_value(&els[0], out);
    proof {
        if n > 1 {
            assert(ser_items(a, 0) == ser(a[0]) + seq![44u8] + ser_items(a, 1));
            assert(out@ + seq![44u8] + ser_items(a, 1) =~= old(out)@ + ser_items(a, 0));
        }
    }
    for idx in 1..n
        invariant
            n == els.len(),
            a == arr_view(els@),
            a.len() == n,
            forall|k: int| 0 <= k < n ==> a[k] == #[trigger] els@[k]@,
            idx < n ==> out@ + seq![44u8] + ser_items(a, idx as int) == old(out)@ + ser_items(
                a,
                0,
            ),
            idx == n ==> out@ == old(out)@ + ser_items(a, 0),
    {
        let ghost pre = out@;
        out.push(44);
        ser_value(&els[idx], out);
        proof {
            assert(els@[idx as int]@ == a[idx as int]);
            assert(out@ =~= pre + seq![44u8] + ser(a[idx as int]));
            if idx + 1 < n {
                assert(ser_items(a, idx as int) == ser(a[idx as int]) + seq![44u8] + ser_items(
                    a,
                    idx + 1,
                ));
                assert(out@ + seq![44u8] + ser_items(a, idx + 1 as int) =~= pre + seq![44u8]
                    + ser_items(a, idx as int));
            } else {
                assert(ser_items(a, idx as int) == ser(a[idx as int]));
                assert(out@ =~= pre + seq![44u8] + ser_items(a, idx as int));
            }
        }
    }
}

/// One serialized object member: the quoted escaped key, a colon, and the
/// value.
pub open spec fn ser_member(p: (Seq<u8>, JsonVal)) -> Seq<u8> {
    seq![34u8] + esc_str(p.0) + seq![34u8, 58u8] + ser(p.1)
}

fn ser_member_x(fields: &Vec<(Vec<u8>, JsonValue)>, idx: usize, out: &mut Vec<u8>)
    requires
        idx < fields.len(),
    ensures
        final(out)@ == old(out)@ + ser_member(obj_view(fields@)[idx as int]),
    decreases fields, 1int,
{
    proof {
        lemma_obj_view(fields@);
    }
    out.push(34);
    push_esc_str(out, &fields[idx].0);
    out.push(34);
    out.push(58);
    ser_value(&fields[idx].1, out);
    assert(out@ =~= old(out)@ + ser_member(obj_view(fields@)[idx as int]));
}

/// Serialization of a non-empty member list, comma-separated. The loop
/// keeps the call stack bounded by the nesting depth alone, not the number
/// of members.
#[verifier::rlimit(100)]
fn ser_fields_x(fields: &Vec<(Vec<u8>, JsonValue)>, out: &mut Vec<u8>)
    requires
        fields.len() > 0,
    ensures
        final(out)@ == old(out)@ + ser_fields(obj_view(fields@), 0),
    decreases fields, 2int,
{
    proof {
        lemma_obj_view(fields@);
    }
    let ghost a = obj_view(fields@);
    let n = fields.len();
    ser_member_x(fields, 0, out);
    proof {
        assert(ser_member(a[0]) == seq![34u8] + esc_str(a[0].0) + seq![34u8, 58u8] + ser(a[0].1));
        if n > 1 {
            assert(ser_fields(a, 0) == ser_member(a[0]) + seq![44u8] + ser_fields(a, 1));
            assert(out@ + seq![44u8] + ser_fields(a, 1) =~= old(out)@ + ser_fields(a, 0));
        } else {
            assert(ser_fields(a, 0) == ser_member(a[0]));
        }
    }
    for idx in 1..n
        invariant
            n == fields.len(),
            a == obj_view(fields@),
            a.len() == n,
            idx < n ==> out@ + seq![44u8] + ser_fields(a, idx as int) == old(out)@ + ser_fields(
                a,
                0,
            ),
            idx == n ==> out@ == old(out)@ + ser_fields(a, 0),
    {
        let ghost pre = out@;
        out.push(44);
        ser_member_x(fields, idx, out);
        proof {
            assert(out@ =~= pre + seq![44u8] + ser_member(a[idx as int]));
            assert(ser_member(a[idx as int]) == seq![34u8] + esc_str(a[idx as int].0) + seq![
                34u8,
                58u8,
            ] + ser(a[idx as int].1));
            if idx + 1 < n {
                assert(ser_fields(a, idx as int) == ser_member(a[idx as int]) + seq![44u8]
                    + ser_fields(a, idx + 1));
                assert(out@ + seq![44u8] + ser_fields(a, idx + 1 as int) =~= pre + seq![44u8]
                    + ser_fields(a, idx as int));
            } else {
                assert(ser_fields(a, idx as int) == ser_member(a[idx as int]));
                assert(out@ =~= pre + seq![44u8] + ser_fields(a, idx as int));
            }
        }
    }
}

proof fn lemma_skip_skip(s: Seq<u8>, i: int, k: int)
    requires
        0 <= i,
        0 <= k,
        i + k <= s.len(),
    ensures
        s.skip(i).skip(k) =~= s.skip(i + k),
{
}

fn is_ws_x(b: u8) -> (r: bool)
    ensures
        r == is_ws(b),
{
    b == 32 || b == 9 || b == 10 || b == 13
}

fn is_num_byte_x(b: u8) -> (r: bool)
    ensures
        r == is_num_byte(b),
{
    (48 <= b && b <= 57) || b == 43 || b == 45 || b == 46 || b == 101 || b == 69
}

fn hex_val_x(b: u8) -> (r: Option<u8>)
    ensures
        r == hex_val(b),
{
    if 48 <= b && b <= 57 {
        Some(b - 48)
    } else if 97 <= b && b <= 102 {
        Some(b - 87)
    } else if 65 <= b && b <= 70 {
        Some(b - 55)
    } else {
        None
    }
}

/// Position after the whitespace that starts at `i`.
fn skip_ws_x(s: &[u8], i: usize) -> (j: usize)
    requires
        i <= s@.len(),
    ensures
        i <= j <= s@.len(),
        s@.skip(j as int) == skip_ws(s@.skip(i as int)),
{
    let mut j = i;
    loop
        invariant
            i <= j <= s@.len(),
            skip_ws(s@.skip(i as int)) == skip_ws(s@.skip(j as int)),
        ensures
            i <= j <= s@.len(),
            skip_ws(s@.skip(i as int)) == s@.skip(j as int),
        decreases s@.len() - j,
    {
        if j < s.len() {
            let b = s[j];
            if is_ws_x(b) {
                proof {
                    assert(s@.skip(j as int)[0] == s@[j as int]);
                    lemma_skip_skip(s@, j as int, 1);
                }
                j += 1;
            } else {
                proof {
                    lemma_skip_ws_id(s@.skip(j as int));
                }
                break ;
            }
        } else {
            proof {
                lemma_skip_ws_id(s@.skip(j as int));
            }
            break ;
        }
    }
    j
}

/// Composition of already-scanned content with the parse of the rest of a
/// string body.
spec fn str_step(prefix: Seq<u8>, r: Option<(Seq<u8>, Seq<u8>)>) -> Option<(Seq<u8>, Seq<u8>)> {
    match r {
        Some((t, rest)) => Some((prefix + t, rest)),
        None => None,
    }
}

/// The scan of a string body from position `i` (right after the opening
/// quote): on success the content and the position after the closing quote.
/// A loop, so the call stack does not grow with the string.
#[verifier::rlimit(100)]
fn parse_str_x(s: &[u8], i: usize) -> (r: Option<(Vec<u8>, usize)>)
    requires
        i <= s@.len(),
    ensures
        match r {
            Some((content, j)) => i <= j <= s@.len() && parse_str_body(s@.skip(i as int))
                == Some((content@, s@.skip(j as int))),
            None => parse_str_body(s@.skip(i as int)) is None,
        },
{
    let mut content: Vec<u8> = Vec::new();
    let mut cur = i;
    proof {
        assert(content@ =~= Seq::<u8>::empty());
        match parse_str_body(s@.skip(i as int)) {
            Some((t, rest)) => {
                assert(Seq::<u8>::empty() + t =~= t);
            },
            None => {},
        }
    }
    while cur < s.len()
        invariant
            i <= cur <= s@.len(),
            parse_str_body(s@.skip(i as int)) == str_step(
                content@,
                parse_str_body(s@.skip(cur as int)),
            ),
        decreases s@.len() - cur,
    {
        let b = s[cur];
        proof {
            assert(s@.skip(cur as int)[0] == s@[cur as int]);
        }
        if b == 34 {
            proof {
                lemma_skip_skip(s@, cur as int, 1);
                match parse_str_body(s@.skip(cur as int)) {
                    Some((t, rest)) => {
                        assert(content@ + Seq::<u8>::empty() =~= content@);
                    },
                    None => {},
                }
            }
            return Some((content, cur + 1));
        } else if b == 92 {
            if cur + 1 >= s.len() {
                return None;
            }
            let c = s[cur + 1];
            proof {
                assert(s@.skip(cur as int)[1] == s@[cur + 1]);
            }
            if c == 117 {
                if s.len() - cur < 6 {
                    return None;
                }
                proof {
                    assert(s@.skip(cur as int)[2] == s@[cur + 2]);
                    assert(s@.skip(cur as int)[3] == s@[cur + 3]);
                    assert(s@.skip(cur as int)[4] == s@[cur + 4]);
                    assert(s@.skip(cur as int)[5] == s@[cur + 5]);
                }
                let h0 = hex_val_x(s[cur + 2]);
                let h1 = hex_val_x(s[cur + 3]);
                let h2 = hex_val_x(s[cur + 4]);
                let h3 = hex_val_x(s[cur + 5]);
                match (h0, h1, h2, h3) {
                    (Some(a0), Some(a1), Some(a2), Some(a3)) => {
                        let nv: u32 = a0 as u32 * 4096 + a1 as u32 * 256 + a2 as u32 * 16
                            + a3 as u32;
                        if nv < 128 {
                            let ghost pre = content@;
                            content.push(nv as u8);
                            proof {
                                lemma_skip_skip(s@, cur as int, 6);
                                match parse_str_body(s@.skip(cur + 6)) {
                                    Some((t, rest)) => {
                                        assert(pre + (seq![nv as u8] + t) =~= content@ + t);
                                    },
                                    None => {},
                                }
                            }
                            cur = cur + 6;
                        } else {
                            return None;
                        }
                    },
                    _ => {
                        return None;
                    },
                }
            } else {
                let u: Option<u8> = if c == 34 {
                    Some(34)
                } else if c == 92 {
                    Some(92)
                } else if c == 47 {
                    Some(47)
                } else if c == 98 {
                    Some(8)
                } else if c == 102 {
                    Some(12)
                } else if c == 110 {
                    Some(10)
                } else if c == 114 {
                    Some(13)
                } else if c == 116 {
                    Some(9)
                } else {
                    None
                };
                proof {
                    assert(u == esc_char_val(c));
                }
                match u {
                    Some(ub) => {
                        let ghost pre = content@;
                        content.push(ub);
                        proof {
                            lemma_skip_skip(s@, cur as int, 2);
                            match parse_str_body(s@.skip(cur + 2)) {
                                Some((t, rest)) => {
                                    assert(pre + (seq![ub] + t) =~= content@ + t);
                                },
                                None => {},
                            }
                        }
                        cur = cur + 2;
                    },
                    None => {
                        return None;
                    },
                }
            }
        } else if b < 32 {
            return None;
        } else {
            let ghost pre = content@;
            content.push(b);
            proof {
                lemma_skip_skip(s@, cur as int, 1);
                match parse_str_body(s@.skip(cur + 1)) {
                    Some((t, rest)) => {
                        assert(pre + (seq![b] + t) =~= content@ + t);
                    },
                    None => {},
                }
            }
            cur = cur + 1;
        }
    }
    proof {
        assert(s@.skip(cur as int).len() == 0);
    }
    None
}

/// The parse of one value starting at `i`, which must not sit on
/// whitespace; on success the value and the position after it. Recursion
/// happens only per nesting level, and `d` bounds it.
#[verifier::rlimit(100)]
fn parse_val_x(s: &[u8], i: usize, d: usize) -> (r: Option<(JsonValue, usize)>)
    requires
        i <= s@.len(),
    ensures
        match r {
            Some((v, j)) => i <= j <= s@.len() && parse_val(s@.skip(i as int), d as nat) == Some(
                (v@, s@.skip(j as int)),
            ),
            None => parse_val(s@.skip(i as int), d as nat) is None,
        },
    decreases s@.len() - i, 0int,
{
    proof {
        assert(s@.skip(i as int).len() == s@.len() - i);
    }
    if i >= s.len() {
        return None;
    }
    let b = s[i];
    proof {
        assert(s@.skip(i as int)[0] == s@[i as int]);
        if s@.len() - i >= 4 {
            assert(s@.skip(i as int)[1] == s@[i + 1]);
            assert(s@.skip(i as int)[2] == s@[i + 2]);
            assert(s@.skip(i as int)[3] == s@[i + 3]);
        }
        if s@.len() - i >= 5 {
            assert(s@.skip(i as int)[4] == s@[i + 4]);
        }
    }
    if b == 110 {
        if s.len() - i >= 4 && s[i + 1] == 117 && s[i + 2] == 108 && s[i + 3] == 108 {
            proof {
                lemma_skip_skip(s@, i as int, 4);
            }
            Some((JsonValue::Null, i + 4))
        } else {
            None
        }
    } else if b == 116 {
        if s.len() - i >= 4 && s[i + 1] == 114 && s[i + 2] == 117 && s[i + 3] == 101 {
            proof {
                lemma_skip_skip(s@, i as int, 4);
            }
            Some((JsonValue::Bool(true), i + 4))
        } else {
            None
        }
    } else if b == 102 {
        if s.len() - i >= 5 && s[i + 1] == 97 && s[i + 2] == 108 && s[i + 3] == 115 && s[i + 4]
            == 101 {
            proof {
                lemma_skip_skip(s@, i as int, 5);
            }
            Some((JsonValue::Bool(false), i + 5))
        } else {
            None
        }
    } else if b == 34 {
        proof {
            lemma_skip_skip(s@, i as int, 1);
        }
        match parse_str_x(s, i + 1) {
            Some((content, j)) => Some((JsonValue::Str(content), j)),
            None => None,
        }
    } else if (48 <= b && b <= 57) || b == 45 {
        let ghost t = s@.skip(i as int);
        let mut j = i;
        loop
            invariant
                i <= j <= s@.len(),
                num_len(t) == (j - i) + num_len(s@.skip(j as int)),
            ensures
                i <= j <= s@.len(),
                num_len(t) == j - i,
            decreases s@.len() - j,
        {
            if j < s.len() {
                let c = s[j];
                proof {
                    assert(s@.skip(j as int)[0] == s@[j as int]);
                }
                if is_num_byte_x(c) {
                    proof {
                        lemma_skip_skip(s@, j as int, 1);
                    }
                    j += 1;
                } else {
                    break ;
                }
            } else {
                proof {
                    assert(s@.skip(j as int).len() == 0);
                }
                break ;
            }
        }
        let sub = vstd::slice::slice_subrange(s, i, j);
        let content = vstd::slice::slice_to_vec(sub);
        proof {
            assert(t.take((j - i) as int) =~= s@.subrange(i as int, j as int));
            lemma_skip_skip(s@, i as int, (j - i) as int);
        }
        Some((JsonValue::Num(content), j))
    } else if b == 91 {
        if d == 0 {
            return None;
        }
        proof {
            lemma_skip_skip(s@, i as int, 1);
        }
        let j = skip_ws_x(s, i + 1);
        if j < s.len() {
            let c = s[j];
            proof {
                assert(s@.skip(j as int)[0] == s@[j as int]);
            }
            if c == 93 {
                proof {
                    lemma_skip_skip(s@, j as int, 1);
                    assert(arr_view(Seq::<JsonValue>::empty()) =~= Seq::<JsonVal>::empty());
                }
                let els: Vec<JsonValue> = Vec::new();
                assert(els@ =~= Seq::<JsonValue>::empty());
                Some((JsonValue::Arr(els), j + 1))
            } else {
                match parse_items_x(s, j, d - 1) {
                    Some((els, j2)) => Some((JsonValue::Arr(els), j2)),
                    None => None,
                }
            }
        } else {
            proof {
                assert(s@.skip(j as int).len() == 0);
            }
            match parse_items_x(s, j, d - 1) {
                Some((els, j2)) => Some((JsonValue::Arr(els), j2)),
                None => None,
            }
        }
    } else if b == 123 {
        if d == 0 {
            return None;
        }
        proof {
            lemma_skip_skip(s@, i as int, 1);
        }
        let j = skip_ws_x(s, i + 1);
        if j < s.len() {
            let c = s[j];
            proof {
                assert(s@.skip(j as int)[0] == s@[j as int]);
            }
            if c == 125 {
                proof {
                    lemma_skip_skip(s@, j as int, 1);
                    assert(obj_view(Seq::<(Vec<u8>, JsonValue)>::empty()) =~= Seq::<
                        (Seq<u8>, JsonVal),
                    >::empty());
                }
                let fields: Vec<(Vec<u8>, JsonValue)> = Vec::new();
                assert(fields@ =~= Seq::<(Vec<u8>, JsonValue)>::empty());
                Some((JsonValue::Obj(fields), j + 1))
            } else {
                match parse_fields_x(s, j, d - 1) {
                    Some((fields, j2)) => Some((JsonValue::Obj(fields), j2)),
                    None => None,
                }
            }
        } else {
            proof {
                assert(s@.skip(j as int).len() == 0);
            }
            match parse_fields_x(s, j, d - 1) {
                Some((fields, j2)) => Some((JsonValue::Obj(fields), j2)),
                None => None,
            }
        }
    } else {
        None
    }
}

/// Composition of already-parsed elements with the parse of the rest of an
/// element list.
spec fn items_step(prefix: Seq<JsonVal>, r: Option<(Seq<JsonVal>, Seq<u8>)>) -> Option<
    (Seq<JsonVal>, Seq<u8>),
> {
    match r {
        Some((vs, rest)) => Some((prefix + vs, rest)),
        None => None,
    }
}

/// The parse of the members of a non-empty array from `i` on, up to and
/// including the closing bracket. A loop, so the call stack does not grow
/// with the number of elements.
#[verifier::rlimit(100)]
fn parse_items_x(s: &[u8], i: usize, d: usize) -> (r: Option<(Vec<JsonValue>, usize)>)
    requires
        i <= s@.len(),
    ensures
        match r {
            Some((els, j)) => i <= j <= s@.len() && parse_items(s@.skip(i as int), d as nat)
                == Some((arr_view(els@), s@.skip(j as int))),
            None => parse_items(s@.skip(i as int), d as nat) is None,
        },
    decreases s@.len() - i, 1int,
{
    let mut els: Vec<JsonValue> = Vec::new();
    let mut pos = i;
    proof {
        assert(els@ =~= Seq::<JsonValue>::empty());
        assert(arr_view(els@) =~= Seq::<JsonVal>::empty());
        match parse_items(s@.skip(i as int), d as nat) {
            Some((vs, rest)) => {
                assert(Seq::<JsonVal>::empty() + vs =~= vs);
            },
            None => {},
        }
    }
    loop
        invariant
            i <= pos <= s@.len(),
            parse_items(s@.skip(i as int), d as nat) == items_step(
                arr_view(els@),
                parse_items(s@.skip(pos as int), d as nat),
            ),
        decreases s@.len() - pos,
    {
        match parse_val_x(s, pos, d) {
            None => {
                return None;
            },
            Some((v, j1)) => {
                let j2 = skip_ws_x(s, j1);
                if j2 >= s.len() {
                    proof {
                        assert(s@.skip(j2 as int).len() == 0);
                    }
                    return None;
                }
                let c = s[j2];
                proof {
                    assert(s@.skip(j2 as int)[0] == s@[j2 as int]);
                }
                if c == 93 {
                    let ghost prefix = arr_view(els@);
                    let ghost oldels = els@;
                    els.push(v);
                    proof {
                        lemma_skip_skip(s@, j2 as int, 1);
                        assert(els@.drop_last() =~= oldels);
                        assert(arr_view(els@) == prefix.push(v@));
                        assert(prefix + seq![v@] =~= prefix.push(v@));
                    }
                    return Some((els, j2 + 1));
                } else if c == 44 {
                    proof {
                        lemma_skip_skip(s@, j2 as int, 1);
                    }
                    let j3 = skip_ws_x(s, j2 + 1);
                    if j3 <= pos {
                        return None;
                    }
                    let ghost prefix = arr_view(els@);
                    let ghost oldels = els@;
                    els.push(v);
                    proof {
                        assert(els@.drop_last() =~= oldels);
                        assert(arr_view(els@) == prefix.push(v@));
                        match parse_items(s@.skip(j3 as int), d as nat) {
                            Some((vs, rest)) => {
                                assert(prefix + (seq![v@] + vs) =~= prefix.push(v@) + vs);
                            },
                            None => {},
                        }
                    }
                    pos = j3;
                } else {
                    return None;
                }
            },
        }
    }
}

/// Composition of already-parsed members with the parse of the rest of a
/// member list.
spec fn fields_step(
    prefix: Seq<(Seq<u8>, JsonVal)>,
    r: Option<(Seq<(Seq<u8>, JsonVal)>, Seq<u8>)>,
) -> Option<(Seq<(Seq<u8>, JsonVal)>, Seq<u8>)> {
    match r {
        Some((fs, rest)) => Some((prefix + fs, rest)),
        None => None,
    }
}

/// The parse of the members of a non-empty object from `i` on, up to and
/// including the closing brace. A loop, so the call stack does not grow
/// with the number of members.
#[verifier::rlimit(100)]
fn parse_fields_x(s: &[u8], i: usize, d: usize) -> (r: Option<(Vec<(Vec<u8>, JsonValue)>, usize)>)
    requires
        i <= s@.len(),
    ensures
        match r {
            Some((fields, j)) => i <= j <= s@.len() && parse_fields(s@.skip(i as int), d as nat)
                == Some((obj_view(fields@), s@.skip(j as int))),
            None => parse_fields(s@.skip(i as int), d as nat) is None,
        },
    decreases s@.len() - i, 1int,
{
    let mut fields: Vec<(Vec<u8>, JsonValue)> = Vec::new();
    let mut pos = i;
    proof {
        assert(fields@ =~= Seq::<(Vec<u8>, JsonValue)>::empty());
        assert(obj_view(fields@) =~= Seq::<(Seq<u8>, JsonVal)>::empty());
        match parse_fields(s@.skip(i as int), d as nat) {
            Some((fs, rest)) => {
                assert(Seq::<(Seq<u8>, JsonVal)>::empty() + fs =~= fs);
            },
            None => {},
        }
    }
    loop
        invariant
            i <= pos <= s@.len(),
            parse_fields(s@.skip(i as int), d as nat) == fields_step(
                obj_view(fields@),
                parse_fields(s@.skip(pos as int), d as nat),
            ),
        decreases s@.len() - pos,
    {
        proof {
            assert(s@.skip(pos as int).len() == s@.len() - pos);
        }
        if pos >= s.len() {
            return None;
        }
        proof {
            assert(s@.skip(pos as int)[0] == s@[pos as int]);
        }
        if s[pos] != 34 {
            return None;
        }
        proof {
            lemma_skip_skip(s@, pos as int, 1);
        }
        match parse_str_x(s, pos + 1) {
            None => {
                return None;
            },
            Some((key, j1)) => {
                let j2 = skip_ws_x(s, j1);
                if j2 >= s.len() {
                    proof {
                        assert(s@.skip(j2 as int).len() == 0);
                    }
                    return None;
                }
                proof {
                    assert(s@.skip(j2 as int)[0] == s@[j2 as int]);
                }
                if s[j2] != 58 {
                    return None;
                }
                proof {
                    lemma_skip_skip(s@, j2 as int, 1);
                }
                let j3 = skip_ws_x(s, j2 + 1);
                if j3 <= pos {
                    return None;
                }
                match parse_val_x(s, j3, d) {
                    None => {
                        return None;
                    },
                    Some((v, j4)) => {
                        let j5 = skip_ws_x(s, j4);
                        if j5 >= s.len() {
                            proof {
                                assert(s@.skip(j5 as int).len() == 0);
                            }
                            return None;
                        }
                        let c = s[j5];
                        proof {
                            assert(s@.skip(j5 as int)[0] == s@[j5 as int]);
                        }
                        if c == 125 {
                            let ghost prefix = obj_view(fields@);
                            let ghost oldfs = fields@;
                            let ghost keyv = key@;
                            fields.push((key, v));
                            proof {
                                lemma_skip_skip(s@, j5 as int, 1);
                                assert(fields@.drop_last() =~= oldfs);
                                assert(obj_view(fields@) == prefix.push((keyv, v@)));
                                assert(prefix + seq![(keyv, v@)] =~= prefix.push((keyv, v@)));
                            }
                            return Some((fields, j5 + 1));
                        } else if c == 44 {
                            proof {
                                lemma_skip_skip(s@, j5 as int, 1);
                            }
                            let j6 = skip_ws_x(s, j5 + 1);
                            if j6 <= pos {
                                return None;
                            }
                            let ghost prefix = obj_view(fields@);
                            let ghost oldfs = fields@;
                            let ghost keyv = key@;
                            fields.push((key, v));
                            proof {
                                assert(fields@.drop_last() =~= oldfs);
                                assert(obj_view(fields@) == prefix.push((keyv, v@)));
                                match parse_fields(s@.skip(j6 as int), d as nat) {
                                    Some((fs, rest)) => {
                                        assert(prefix + (seq![(keyv, v@)] + fs) =~= prefix.push(
                                            (keyv, v@),
                                        ) + fs);
                                    },
                                    None => {},
                                }
                            }
                            pos = j6;
                        } else {
                            return None;
                        }
                    },
                }
            },
        }
    }
}

/// The parse of a whole text; it follows `parse_text` exactly.
pub fn parse_json(s: &[u8]) -> (r: Option<JsonValue>)
    ensures
        match r {
            Some(v) => parse_text(s@) == Some(v@),
            None => parse_text(s@) is None,
        },
{
    proof {
        assert(s@.skip(0) =~= s@);
    }
    let i = skip_ws_x(s, 0);
    match parse_val_x(s, i, MAX_JSON_DEPTH) {
        None => None,
        Some((v, j)) => {
            let k = skip_ws_x(s, j);
            if k == s.len() {
                proof {
                    assert(s@.skip(k as int).len() == 0);
                }
                Some(v)
            } else {
                proof {
                    assert(s@.skip(k as int).len() > 0);
                }
                None
            }
        },
    }
}

/// The serialized text of one value, compact form. Recursion is one call
/// per nesting level (elements are walked by loops), and every value read
/// from the wire nests within `MAX_JSON_DEPTH`.
pub fn serialize_json(v: &JsonValue) -> (out: Vec<u8>)
    ensures
        out@ == ser(v@),
{
    let mut out: Vec<u8> = Vec::new();
    ser_value(v, &mut out);
    assert(out@ =~= ser(v@));
    out
}

} // verus!
