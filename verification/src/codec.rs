//! The wire envelope codec.
//!
//! One frame carries exactly one envelope, encoded as a sequence of
//! tagged fields: a one-byte key (field number and wire type), then either
//! a base-128 integer, a length-prefixed byte string, or a fixed-width
//! value. Unknown field numbers are skipped; a known field number with the
//! wrong wire type, a truncated field, or a key outside the schema's range
//! fails the whole frame, and the actor treats that as fatal corruption.
//!
//! Encoding follows the schema's conventions: an integer field equal to
//! zero and an empty byte-string field are omitted; a payload alternative
//! is always written when present. Decoding starts from the defaults, so
//! the two compose to the identity.

use vstd::prelude::*;

use crate::varint::{
    read_varint, varint_dec, varint_enc, write_varint,
};
use crate::cache_request;
use crate::cache_response;
use crate::get_response;
use crate::socket_request;
use crate::socket_request::{CacheRequest, CacheRequestView};
use crate::socket_response;
use crate::socket_response::{CacheResponse, CacheResponseView, Status, StatusView};
use crate::websocket::{
    Get, GetResponse, GetResponseView, GetView, SetOp, SetOpView, SetResponse, SetResponseView,
    SocketRequest, SocketRequestView, SocketResponse, SocketResponseView,
};
use vstd::string::StrSliceExecFns;

verus! {

/// One decoded field value: an integer, a length-prefixed byte string, or
/// a fixed-width value (carried only so unknown fields can be skipped).
#[derive(Clone, Debug, PartialEq)]
pub enum WireValue {
    Uint(u64),
    Bytes(Vec<u8>),
    Fixed32(Vec<u8>),
    Fixed64(Vec<u8>),
}

/// Mathematical model of a [`WireValue`].
pub ghost enum WireValueView {
    Uint(u64),
    Bytes(Seq<u8>),
    Fixed32(Seq<u8>),
    Fixed64(Seq<u8>),
}

impl View for WireValue {
    type V = WireValueView;

    open spec fn view(&self) -> WireValueView {
        match self {
            WireValue::Uint(v) => WireValueView::Uint(*v),
            WireValue::Bytes(b) => WireValueView::Bytes(b@),
            WireValue::Fixed32(b) => WireValueView::Fixed32(b@),
            WireValue::Fixed64(b) => WireValueView::Fixed64(b@),
        }
    }
}

/// One decoded field: its field number and its value.
#[derive(Clone, Debug, PartialEq)]
pub struct WireField {
    pub tag: u64,
    pub value: WireValue,
}

/// Mathematical model of a [`WireField`].
#[verifier::ext_equal]
pub ghost struct WireFieldView {
    pub tag: u64,
    pub value: WireValueView,
}

impl View for WireField {
    type V = WireFieldView;

    open spec fn view(&self) -> WireFieldView {
        WireFieldView { tag: self.tag, value: self.value@ }
    }
}

/// The models of a sequence of decoded fields.
pub open spec fn wire_views(s: Seq<WireField>) -> Seq<WireFieldView> {
    s.map_values(|f: WireField| f@)
}

/// Split a message body into its fields. Keys are one byte (field numbers
/// one through fifteen); a field number of zero, an unknown wire type, or
/// a truncated field makes the whole body undecodable.
pub open spec fn dec_fields(s: Seq<u8>) -> Option<Seq<WireFieldView>>
    decreases s.len(),
{
    if s.len() == 0 {
        Some(Seq::empty())
    } else if s[0] >= 128 {
        None
    } else {
        let tag = (s[0] / 8) as u64;
        let wt = s[0] % 8;
        if tag == 0 {
            None
        } else if wt == 0 {
            match varint_dec(s.skip(1)) {
                None => None,
                Some((v, n)) => if 1 <= n <= s.len() - 1 {
                    match dec_fields(s.skip(1 + n)) {
                        None => None,
                        Some(fs) => Some(
                            seq![WireFieldView { tag, value: WireValueView::Uint(v) }] + fs,
                        ),
                    }
                } else {
                    None
                },
            }
        } else if wt == 2 {
            match varint_dec(s.skip(1)) {
                None => None,
                Some((len, n)) => if 1 <= n && 1 + n + len <= s.len() {
                    let payload = s.subrange(1 + n, 1 + n + len);
                    match dec_fields(s.skip(1 + n + len)) {
                        None => None,
                        Some(fs) => Some(
                            seq![WireFieldView { tag, value: WireValueView::Bytes(payload) }]
                                + fs,
                        ),
                    }
                } else {
                    None
                },
            }
        } else if wt == 5 {
            if s.len() >= 5 {
                match dec_fields(s.skip(5)) {
                    None => None,
                    Some(fs) => Some(
                        seq![
                            WireFieldView {
                                tag,
                                value: WireValueView::Fixed32(s.subrange(1, 5)),
                            },
                        ] + fs,
                    ),
                }
            } else {
                None
            }
        } else if wt == 1 {
            if s.len() >= 9 {
                match dec_fields(s.skip(9)) {
                    None => None,
                    Some(fs) => Some(
                        seq![
                            WireFieldView {
                                tag,
                                value: WireValueView::Fixed64(s.subrange(1, 9)),
                            },
                        ] + fs,
                    ),
                }
            } else {
                None
            }
        } else {
            None
        }
    }
}

/// Copy `buf[start..end]` into a fresh vector.
fn copy_range(buf: &Vec<u8>, start: usize, end: usize) -> (r: Vec<u8>)
    requires
        start <= end <= buf.len(),
    ensures
        r@ == buf@.subrange(start as int, end as int),
{
    let mut out: Vec<u8> = Vec::new();
    let mut i: usize = start;
    while i < end
        invariant
            start <= i <= end <= buf.len(),
            out@ == buf@.subrange(start as int, i as int),
        decreases end - i,
    {
        out.push(buf[i]);
        proof {
            assert(out@ =~= buf@.subrange(start as int, i as int + 1));
        }
        i += 1;
    }
    out
}

/// Append all of `v` to `out`.
pub fn append_bytes(out: &mut Vec<u8>, v: &Vec<u8>)
    ensures
        final(out)@ == old(out)@ + v@,
{
    let mut i: usize = 0;
    while i < v.len()
        invariant
            i <= v.len(),
            out@ == old(out)@ + v@.take(i as int),
        decreases v.len() - i,
    {
        out.push(v[i]);
        proof {
            assert(out@ =~= old(out)@ + v@.take(i as int + 1));
        }
        i += 1;
    }
    proof {
        assert(out@ =~= old(out)@ + v@);
    }
}

#[verifier::rlimit(60)]
fn read_fields_rec(buf: &Vec<u8>, pos: usize, out: &mut Vec<WireField>) -> (ok: bool)
    requires
        pos <= buf.len(),
    ensures
        ok ==> dec_fields(buf@.skip(pos as int)) is Some && wire_views(final(out)@)
            == wire_views(old(out)@) + dec_fields(buf@.skip(pos as int))->Some_0,
        !ok ==> dec_fields(buf@.skip(pos as int)) is None,
    decreases buf.len() - pos,
{
    let ghost s = buf@.skip(pos as int);
    if pos == buf.len() {
        proof {
            assert(s =~= Seq::<u8>::empty());
            assert(wire_views(out@) =~= wire_views(out@) + Seq::<WireFieldView>::empty());
        }
        return true;
    }
    let b = buf[pos];
    assert(s[0] == b);
    if b >= 128 {
        return false;
    }
    let tag = (b / 8) as u64;
    let wt = b % 8;
    if tag == 0 {
        return false;
    }
    if wt == 0 {
        proof {
            assert(s.skip(1) =~= buf@.skip(pos as int + 1));
        }
        match read_varint(buf, pos + 1) {
            None => false,
            Some((v, n)) => {
                out.push(WireField { tag, value: WireValue::Uint(v) });
                let ghost pushed = out@;
                let ghost fv = WireFieldView { tag, value: WireValueView::Uint(v) };
                proof {
                    assert(s.skip(1 + n as int) =~= buf@.skip(pos as int + 1 + n as int));
                }
                let ok = read_fields_rec(buf, pos + 1 + n, out);
                proof {
                    if ok {
                        let fs = dec_fields(buf@.skip(pos as int + 1 + n as int))->Some_0;
                        assert(wire_views(pushed) =~= wire_views(old(out)@).push(fv));
                        assert(wire_views(out@) =~= wire_views(old(out)@) + (seq![fv] + fs));
                    }
                }
                ok
            },
        }
    } else if wt == 2 {
        proof {
            assert(s.skip(1) =~= buf@.skip(pos as int + 1));
        }
        match read_varint(buf, pos + 1) {
            None => false,
            Some((len, n)) => {
                let remaining = buf.len() - pos - 1 - n;
                if len <= remaining as u64 {
                    let start = pos + 1 + n;
                    let end = start + (len as usize);
                    let payload = copy_range(buf, start, end);
                    proof {
                        assert(payload@ =~= s.subrange(1 + n as int, 1 + n as int + len as int));
                    }
                    out.push(WireField { tag, value: WireValue::Bytes(payload) });
                    let ghost pushed = out@;
                    let ghost fv = WireFieldView {
                        tag,
                        value: WireValueView::Bytes(s.subrange(1 + n as int, 1 + n as int + len as int)),
                    };
                    proof {
                        assert(s.skip(1 + n as int + len as int) =~= buf@.skip(end as int));
                    }
                    let ok = read_fields_rec(buf, end, out);
                    proof {
                        if ok {
                            let fs = dec_fields(buf@.skip(end as int))->Some_0;
                            assert(wire_views(pushed) =~= wire_views(old(out)@).push(fv));
                            assert(wire_views(out@) =~= wire_views(old(out)@) + (seq![fv] + fs));
                        }
                    }
                    ok
                } else {
                    false
                }
            },
        }
    } else if wt == 5 {
        if buf.len() - pos >= 5 {
            let payload = copy_range(buf, pos + 1, pos + 5);
            proof {
                assert(payload@ =~= s.subrange(1, 5));
            }
            out.push(WireField { tag, value: WireValue::Fixed32(payload) });
            let ghost pushed = out@;
            let ghost fv = WireFieldView { tag, value: WireValueView::Fixed32(s.subrange(1, 5)) };
            proof {
                assert(s.skip(5) =~= buf@.skip(pos as int + 5));
            }
            let ok = read_fields_rec(buf, pos + 5, out);
            proof {
                if ok {
                    let fs = dec_fields(buf@.skip(pos as int + 5))->Some_0;
                    assert(wire_views(pushed) =~= wire_views(old(out)@).push(fv));
                    assert(wire_views(out@) =~= wire_views(old(out)@) + (seq![fv] + fs));
                }
            }
            ok
        } else {
            false
        }
    } else if wt == 1 {
        if buf.len() - pos >= 9 {
            let payload = copy_range(buf, pos + 1, pos + 9);
            proof {
                assert(payload@ =~= s.subrange(1, 9));
            }
            out.push(WireField { tag, value: WireValue::Fixed64(payload) });
            let ghost pushed = out@;
            let ghost fv = WireFieldView { tag, value: WireValueView::Fixed64(s.subrange(1, 9)) };
            proof {
                assert(s.skip(9) =~= buf@.skip(pos as int + 9));
            }
            let ok = read_fields_rec(buf, pos + 9, out);
            proof {
                if ok {
                    let fs = dec_fields(buf@.skip(pos as int + 9))->Some_0;
                    assert(wire_views(pushed) =~= wire_views(old(out)@).push(fv));
                    assert(wire_views(out@) =~= wire_views(old(out)@) + (seq![fv] + fs));
                }
            }
            ok
        } else {
            false
        }
    } else {
        false
    }
}

/// Split a whole message body into its fields, or report that it does not
/// decode.
pub fn read_fields(buf: &Vec<u8>) -> (r: Option<Vec<WireField>>)
    ensures
        r is Some ==> dec_fields(buf@) is Some && wire_views(r->Some_0@) == dec_fields(
            buf@,
        )->Some_0,
        r is None ==> dec_fields(buf@) is None,
{
    let mut out: Vec<WireField> = Vec::new();
    proof {
        assert(buf@.skip(0) =~= buf@);
    }
    if read_fields_rec(buf, 0, &mut out) {
        proof {
            assert(wire_views(out@) =~= Seq::<WireFieldView>::empty() + dec_fields(buf@)->Some_0);
            assert(wire_views(out@) =~= dec_fields(buf@)->Some_0);
        }
        Some(out)
    } else {
        None
    }
}

/// The key byte of a field: number in the high bits, wire type in the low
/// three.
pub open spec fn key_byte(tag: u64, wt: u64) -> u8 {
    (tag * 8 + wt) as u8
}

/// An integer field: key, then the value.
pub open spec fn enc_uint_field(tag: u64, v: u64) -> Seq<u8> {
    seq![key_byte(tag, 0)] + varint_enc(v)
}

/// A byte-string field: key, then the length, then the bytes.
pub open spec fn enc_len_field(tag: u64, payload: Seq<u8>) -> Seq<u8> {
    seq![key_byte(tag, 2)] + varint_enc(payload.len() as u64) + payload
}

/// Copy of `v`.
fn clone_bytes(v: &Vec<u8>) -> (r: Vec<u8>)
    ensures
        r@ == v@,
{
    let r = copy_range(v, 0, v.len());
    proof {
        assert(v@.subrange(0, v@.len() as int) =~= v@);
    }
    r
}

fn write_uint_field(out: &mut Vec<u8>, tag: u64, v: u64)
    requires
        1 <= tag <= 15,
    ensures
        final(out)@ == old(out)@ + enc_uint_field(tag, v),
{
    out.push((tag * 8) as u8);
    write_varint(out, v);
    proof {
        assert(final(out)@ =~= old(out)@ + enc_uint_field(tag, v));
    }
}

fn write_len_field(out: &mut Vec<u8>, tag: u64, payload: &Vec<u8>)
    requires
        1 <= tag <= 15,
    ensures
        final(out)@ == old(out)@ + enc_len_field(tag, payload@),
{
    out.push((tag * 8 + 2) as u8);
    write_varint(out, payload.len() as u64);
    append_bytes(out, payload);
    proof {
        assert(final(out)@ =~= old(out)@ + enc_len_field(tag, payload@));
    }
}

/// A get with no key: what decoding starts from.
pub open spec fn get_default() -> GetView {
    GetView { cache_key: Seq::empty() }
}

/// The body of a get message: its key, omitted when empty.
pub open spec fn enc_get(g: GetView) -> Seq<u8> {
    if g.cache_key.len() == 0 {
        Seq::empty()
    } else {
        enc_len_field(1, g.cache_key)
    }
}

/// Fold the fields of a get message over an accumulator, last occurrence
/// winning; unknown field numbers are skipped.
pub open spec fn fold_get(fs: Seq<WireFieldView>, acc: GetView) -> Option<GetView>
    decreases fs.len(),
{
    if fs.len() == 0 {
        Some(acc)
    } else {
        let f = fs[0];
        let rest = fs.skip(1);
        if f.tag == 1 {
            match f.value {
                WireValueView::Bytes(p) => fold_get(rest, GetView { cache_key: p }),
                _ => None,
            }
        } else {
            fold_get(rest, acc)
        }
    }
}

/// Decode a get message body.
pub open spec fn dec_get(s: Seq<u8>) -> Option<GetView> {
    match dec_fields(s) {
        None => None,
        Some(fs) => fold_get(fs, get_default()),
    }
}

fn write_get(out: &mut Vec<u8>, g: &Get)
    ensures
        final(out)@ == old(out)@ + enc_get(g@),
{
    if g.cache_key.len() > 0 {
        write_len_field(out, 1, &g.cache_key);
    } else {
        proof {
            assert(out@ =~= out@ + Seq::<u8>::empty());
        }
    }
}

fn get_from_fields(fields: &Vec<WireField>, i: usize, acc: Get) -> (r: Option<Get>)
    requires
        i <= fields.len(),
    ensures
        r is Some ==> fold_get(wire_views(fields@).skip(i as int), acc@) == Some(r->Some_0@),
        r is None ==> fold_get(wire_views(fields@).skip(i as int), acc@) is None,
    decreases fields.len() - i,
{
    let ghost fsv = wire_views(fields@);
    if i == fields.len() {
        proof {
            assert(fsv.skip(i as int) =~= Seq::<WireFieldView>::empty());
        }
        return Some(acc);
    }
    proof {
        assert(fsv.skip(i as int)[0] == fields@[i as int]@);
        assert(fsv.skip(i as int).skip(1) =~= fsv.skip(i as int + 1));
    }
    let f = &fields[i];
    if f.tag == 1 {
        match &f.value {
            WireValue::Bytes(p) => {
                let acc2 = Get { cache_key: clone_bytes(p) };
                get_from_fields(fields, i + 1, acc2)
            },
            _ => None,
        }
    } else {
        get_from_fields(fields, i + 1, acc)
    }
}

/// A set with no key, no body and no expiry: what decoding starts from.
pub open spec fn set_default() -> SetOpView {
    SetOpView { cache_key: Seq::empty(), cache_body: Seq::empty(), ttl_milliseconds: 0 }
}

/// The body of a set message: key, value and expiry, each omitted when at
/// its default.
pub open spec fn enc_set(s: SetOpView) -> Seq<u8> {
    (if s.cache_key.len() == 0 {
        Seq::<u8>::empty()
    } else {
        enc_len_field(1, s.cache_key)
    }) + (if s.cache_body.len() == 0 {
        Seq::<u8>::empty()
    } else {
        enc_len_field(2, s.cache_body)
    }) + (if s.ttl_milliseconds == 0 {
        Seq::<u8>::empty()
    } else {
        enc_uint_field(3, s.ttl_milliseconds)
    })
}

/// Fold the fields of a set message over an accumulator.
pub open spec fn fold_set(fs: Seq<WireFieldView>, acc: SetOpView) -> Option<SetOpView>
    decreases fs.len(),
{
    if fs.len() == 0 {
        Some(acc)
    } else {
        let f = fs[0];
        let rest = fs.skip(1);
        if f.tag == 1 {
            match f.value {
                WireValueView::Bytes(p) => fold_set(
                    rest,
                    SetOpView {
                        cache_key: p,
                        cache_body: acc.cache_body,
                        ttl_milliseconds: acc.ttl_milliseconds,
                    },
                ),
                _ => None,
            }
        } else if f.tag == 2 {
            match f.value {
                WireValueView::Bytes(p) => fold_set(
                    rest,
                    SetOpView {
                        cache_key: acc.cache_key,
                        cache_body: p,
                        ttl_milliseconds: acc.ttl_milliseconds,
                    },
                ),
                _ => None,
            }
        } else if f.tag == 3 {
            match f.value {
                WireValueView::Uint(v) => fold_set(
                    rest,
                    SetOpView {
                        cache_key: acc.cache_key,
                        cache_body: acc.cache_body,
                        ttl_milliseconds: v,
                    },
                ),
                _ => None,
            }
        } else {
            fold_set(rest, acc)
        }
    }
}

/// Decode a set message body.
pub open spec fn dec_set(s: Seq<u8>) -> Option<SetOpView> {
    match dec_fields(s) {
        None => None,
        Some(fs) => fold_set(fs, set_default()),
    }
}

fn write_set(out: &mut Vec<u8>, s: &SetOp)
    ensures
        final(out)@ == old(out)@ + enc_set(s@),
{
    if s.cache_key.len() > 0 {
        write_len_field(out, 1, &s.cache_key);
    }
    if s.cache_body.len() > 0 {
        write_len_field(out, 2, &s.cache_body);
    }
    if s.ttl_milliseconds > 0 {
        write_uint_field(out, 3, s.ttl_milliseconds);
    }
    proof {
        assert(final(out)@ =~= old(out)@ + enc_set(s@));
    }
}

fn set_from_fields(fields: &Vec<WireField>, i: usize, acc: SetOp) -> (r: Option<SetOp>)
    requires
        i <= fields.len(),
    ensures
        r is Some ==> fold_set(wire_views(fields@).skip(i as int), acc@) == Some(r->Some_0@),
        r is None ==> fold_set(wire_views(fields@).skip(i as int), acc@) is None,
    decreases fields.len() - i,
{
    let ghost fsv = wire_views(fields@);
    if i == fields.len() {
        proof {
            assert(fsv.skip(i as int) =~= Seq::<WireFieldView>::empty());
        }
        return Some(acc);
    }
    proof {
        assert(fsv.skip(i as int)[0] == fields@[i as int]@);
        assert(fsv.skip(i as int).skip(1) =~= fsv.skip(i as int + 1));
    }
    let f = &fields[i];
    if f.tag == 1 {
        match &f.value {
            WireValue::Bytes(p) => {
                let acc2 = SetOp {
                    cache_key: clone_bytes(p),
                    cache_body: acc.cache_body,
                    ttl_milliseconds: acc.ttl_milliseconds,
                };
                set_from_fields(fields, i + 1, acc2)
            },
            _ => None,
        }
    } else if f.tag == 2 {
        match &f.value {
            WireValue::Bytes(p) => {
                let acc2 = SetOp {
                    cache_key: acc.cache_key,
                    cache_body: clone_bytes(p),
                    ttl_milliseconds: acc.ttl_milliseconds,
                };
                set_from_fields(fields, i + 1, acc2)
            },
            _ => None,
        }
    } else if f.tag == 3 {
        match &f.value {
            WireValue::Uint(v) => {
                let acc2 = SetOp {
                    cache_key: acc.cache_key,
                    cache_body: acc.cache_body,
                    ttl_milliseconds: *v,
                };
                set_from_fields(fields, i + 1, acc2)
            },
            _ => None,
        }
    } else {
        set_from_fields(fields, i + 1, acc)
    }
}

/// A cache request carrying no operation: what decoding starts from.
pub open spec fn cache_request_default() -> CacheRequestView {
    CacheRequestView { kind: None }
}

/// The body of a cache request: its operation, as a nested message.
pub open spec fn enc_cache_request(c: CacheRequestView) -> Seq<u8> {
    match c.kind {
        None => Seq::empty(),
        Some(cache_request::KindView::Get(g)) => enc_len_field(4, enc_get(g)),
        Some(cache_request::KindView::SetOp(s)) => enc_len_field(5, enc_set(s)),
    }
}

/// Fold the fields of a cache request over an accumulator.
pub open spec fn fold_cache_request(
    fs: Seq<WireFieldView>,
    acc: CacheRequestView,
) -> Option<CacheRequestView>
    decreases fs.len(),
{
    if fs.len() == 0 {
        Some(acc)
    } else {
        let f = fs[0];
        let rest = fs.skip(1);
        if f.tag == 4 {
            match f.value {
                WireValueView::Bytes(p) => match dec_get(p) {
                    None => None,
                    Some(g) => fold_cache_request(
                        rest,
                        CacheRequestView { kind: Some(cache_request::KindView::Get(g)) },
                    ),
                },
                _ => None,
            }
        } else if f.tag == 5 {
            match f.value {
                WireValueView::Bytes(p) => match dec_set(p) {
                    None => None,
                    Some(s) => fold_cache_request(
                        rest,
                        CacheRequestView { kind: Some(cache_request::KindView::SetOp(s)) },
                    ),
                },
                _ => None,
            }
        } else {
            fold_cache_request(rest, acc)
        }
    }
}

/// Decode a cache request body.
pub open spec fn dec_cache_request(s: Seq<u8>) -> Option<CacheRequestView> {
    match dec_fields(s) {
        None => None,
        Some(fs) => fold_cache_request(fs, cache_request_default()),
    }
}

fn write_cache_request(out: &mut Vec<u8>, c: &CacheRequest)
    ensures
        final(out)@ == old(out)@ + enc_cache_request(c@),
{
    match &c.kind {
        None => {
            proof {
                assert(out@ =~= out@ + Seq::<u8>::empty());
            }
        },
        Some(cache_request::Kind::Get(g)) => {
            let mut tmp: Vec<u8> = Vec::new();
            write_get(&mut tmp, g);
            write_len_field(out, 4, &tmp);
        },
        Some(cache_request::Kind::SetOp(s)) => {
            let mut tmp: Vec<u8> = Vec::new();
            write_set(&mut tmp, s);
            write_len_field(out, 5, &tmp);
        },
    }
}

fn cache_request_from_fields(fields: &Vec<WireField>, i: usize, acc: CacheRequest) -> (r: Option<
    CacheRequest,
>)
    requires
        i <= fields.len(),
    ensures
        r is Some ==> fold_cache_request(wire_views(fields@).skip(i as int), acc@) == Some(
            r->Some_0@,
        ),
        r is None ==> fold_cache_request(wire_views(fields@).skip(i as int), acc@) is None,
    decreases fields.len() - i,
{
    let ghost fsv = wire_views(fields@);
    if i == fields.len() {
        proof {
            assert(fsv.skip(i as int) =~= Seq::<WireFieldView>::empty());
        }
        return Some(acc);
    }
    proof {
        assert(fsv.skip(i as int)[0] == fields@[i as int]@);
        assert(fsv.skip(i as int).skip(1) =~= fsv.skip(i as int + 1));
    }
    let f = &fields[i];
    if f.tag == 4 {
        match &f.value {
            WireValue::Bytes(p) => match decode_get_msg(p) {
                None => None,
                Some(g) => {
                    let acc2 = CacheRequest { kind: Some(cache_request::Kind::Get(g)) };
                    cache_request_from_fields(fields, i + 1, acc2)
                },
            },
            _ => None,
        }
    } else if f.tag == 5 {
        match &f.value {
            WireValue::Bytes(p) => match decode_set_msg(p) {
                None => None,
                Some(s) => {
                    let acc2 = CacheRequest { kind: Some(cache_request::Kind::SetOp(s)) };
                    cache_request_from_fields(fields, i + 1, acc2)
                },
            },
            _ => None,
        }
    } else {
        cache_request_from_fields(fields, i + 1, acc)
    }
}

fn decode_get_msg(payload: &Vec<u8>) -> (r: Option<Get>)
    ensures
        r is Some ==> dec_get(payload@) == Some(r->Some_0@),
        r is None ==> dec_get(payload@) is None,
{
    match read_fields(payload) {
        None => None,
        Some(fields) => {
            proof {
                assert(wire_views(fields@).skip(0) =~= wire_views(fields@));
            }
            get_from_fields(&fields, 0, Get { cache_key: Vec::new() })
        },
    }
}

fn decode_set_msg(payload: &Vec<u8>) -> (r: Option<SetOp>)
    ensures
        r is Some ==> dec_set(payload@) == Some(r->Some_0@),
        r is None ==> dec_set(payload@) is None,
{
    match read_fields(payload) {
        None => None,
        Some(fields) => {
            proof {
                assert(wire_views(fields@).skip(0) =~= wire_views(fields@));
            }
            set_from_fields(
                &fields,
                0,
                SetOp { cache_key: Vec::new(), cache_body: Vec::new(), ttl_milliseconds: 0 },
            )
        },
    }
}

/// A request envelope with id zero and no payload: what decoding starts
/// from.
pub open spec fn request_default() -> SocketRequestView {
    SocketRequestView { request_id: 0, kind: None }
}

/// The encoding of a whole request envelope.
pub open spec fn enc_request(r: SocketRequestView) -> Seq<u8> {
    (if r.request_id == 0 {
        Seq::<u8>::empty()
    } else {
        enc_uint_field(1, r.request_id)
    }) + (match r.kind {
        None => Seq::<u8>::empty(),
        Some(socket_request::KindView::Cache(c)) => enc_len_field(2, enc_cache_request(c)),
    })
}

/// Fold the fields of a request envelope over an accumulator.
pub open spec fn fold_request(
    fs: Seq<WireFieldView>,
    acc: SocketRequestView,
) -> Option<SocketRequestView>
    decreases fs.len(),
{
    if fs.len() == 0 {
        Some(acc)
    } else {
        let f = fs[0];
        let rest = fs.skip(1);
        if f.tag == 1 {
            match f.value {
                WireValueView::Uint(v) => fold_request(
                    rest,
                    SocketRequestView { request_id: v, kind: acc.kind },
                ),
                _ => None,
            }
        } else if f.tag == 2 {
            match f.value {
                WireValueView::Bytes(p) => match dec_cache_request(p) {
                    None => None,
                    Some(c) => fold_request(
                        rest,
                        SocketRequestView {
                            request_id: acc.request_id,
                            kind: Some(socket_request::KindView::Cache(c)),
                        },
                    ),
                },
                _ => None,
            }
        } else {
            fold_request(rest, acc)
        }
    }
}

/// Decode a whole request envelope.
pub open spec fn dec_request(s: Seq<u8>) -> Option<SocketRequestView> {
    match dec_fields(s) {
        None => None,
        Some(fs) => fold_request(fs, request_default()),
    }
}

/// Encode a request envelope into the frame the actor writes to the
/// transport.
pub fn encode_request(r: &SocketRequest) -> (out: Vec<u8>)
    ensures
        out@ == enc_request(r@),
{
    let mut out: Vec<u8> = Vec::new();
    if r.request_id != 0 {
        write_uint_field(&mut out, 1, r.request_id);
    }
    match &r.kind {
        None => {},
        Some(socket_request::Kind::Cache(c)) => {
            let mut tmp: Vec<u8> = Vec::new();
            write_cache_request(&mut tmp, c);
            write_len_field(&mut out, 2, &tmp);
        },
    }
    proof {
        assert(out@ =~= enc_request(r@));
    }
    out
}

fn request_from_fields(fields: &Vec<WireField>, i: usize, acc: SocketRequest) -> (r: Option<
    SocketRequest,
>)
    requires
        i <= fields.len(),
    ensures
        r is Some ==> fold_request(wire_views(fields@).skip(i as int), acc@) == Some(r->Some_0@),
        r is None ==> fold_request(wire_views(fields@).skip(i as int), acc@) is None,
    decreases fields.len() - i,
{
    let ghost fsv = wire_views(fields@);
    if i == fields.len() {
        proof {
            assert(fsv.skip(i as int) =~= Seq::<WireFieldView>::empty());
        }
        return Some(acc);
    }
    proof {
        assert(fsv.skip(i as int)[0] == fields@[i as int]@);
        assert(fsv.skip(i as int).skip(1) =~= fsv.skip(i as int + 1));
    }
    let f = &fields[i];
    if f.tag == 1 {
        match &f.value {
            WireValue::Uint(v) => {
                let acc2 = SocketRequest { request_id: *v, kind: acc.kind };
                request_from_fields(fields, i + 1, acc2)
            },
            _ => None,
        }
    } else if f.tag == 2 {
        match &f.value {
            WireValue::Bytes(p) => match decode_cache_request_msg(p) {
                None => None,
                Some(c) => {
                    let acc2 = SocketRequest {
                        request_id: acc.request_id,
                        kind: Some(socket_request::Kind::Cache(c)),
                    };
                    request_from_fields(fields, i + 1, acc2)
                },
            },
            _ => None,
        }
    } else {
        request_from_fields(fields, i + 1, acc)
    }
}

fn decode_cache_request_msg(payload: &Vec<u8>) -> (r: Option<CacheRequest>)
    ensures
        r is Some ==> dec_cache_request(payload@) == Some(r->Some_0@),
        r is None ==> dec_cache_request(payload@) is None,
{
    match read_fields(payload) {
        None => None,
        Some(fields) => {
            proof {
                assert(wire_views(fields@).skip(0) =~= wire_views(fields@));
            }
            cache_request_from_fields(&fields, 0, CacheRequest { kind: None })
        },
    }
}

/// Decode a whole request envelope from a frame, or report that the frame
/// is corrupt.
pub fn decode_request(buf: &Vec<u8>) -> (r: Option<SocketRequest>)
    ensures
        r is Some ==> dec_request(buf@) == Some(r->Some_0@),
        r is None ==> dec_request(buf@) is None,
{
    match read_fields(buf) {
        None => None,
        Some(fields) => {
            proof {
                assert(wire_views(fields@).skip(0) =~= wire_views(fields@));
            }
            request_from_fields(&fields, 0, SocketRequest { request_id: 0, kind: None })
        },
    }
}

/// A get result carrying no outcome: what decoding starts from.
pub open spec fn get_response_default() -> GetResponseView {
    GetResponseView { kind: None }
}

/// The body of a get result: the hit bytes or the miss flag.
pub open spec fn enc_get_response(g: GetResponseView) -> Seq<u8> {
    match g.kind {
        None => Seq::empty(),
        Some(get_response::KindView::Hit(v)) => enc_len_field(1, v),
        Some(get_response::KindView::Miss(m)) => enc_uint_field(
            2,
            if m {
                1
            } else {
                0
            },
        ),
    }
}

/// Fold the fields of a get result over an accumulator.
pub open spec fn fold_get_response(
    fs: Seq<WireFieldView>,
    acc: GetResponseView,
) -> Option<GetResponseView>
    decreases fs.len(),
{
    if fs.len() == 0 {
        Some(acc)
    } else {
        let f = fs[0];
        let rest = fs.skip(1);
        if f.tag == 1 {
            match f.value {
                WireValueView::Bytes(p) => fold_get_response(
                    rest,
                    GetResponseView { kind: Some(get_response::KindView::Hit(p)) },
                ),
                _ => None,
            }
        } else if f.tag == 2 {
            match f.value {
                WireValueView::Uint(v) => fold_get_response(
                    rest,
                    GetResponseView { kind: Some(get_response::KindView::Miss(v != 0)) },
                ),
                _ => None,
            }
        } else {
            fold_get_response(rest, acc)
        }
    }
}

/// Decode a get result body.
pub open spec fn dec_get_response(s: Seq<u8>) -> Option<GetResponseView> {
    match dec_fields(s) {
        None => None,
        Some(fs) => fold_get_response(fs, get_response_default()),
    }
}

fn write_get_response(out: &mut Vec<u8>, g: &GetResponse)
    ensures
        final(out)@ == old(out)@ + enc_get_response(g@),
{
    match &g.kind {
        None => {
            proof {
                assert(out@ =~= out@ + Seq::<u8>::empty());
            }
        },
        Some(get_response::Kind::Hit(v)) => {
            write_len_field(out, 1, v);
        },
        Some(get_response::Kind::Miss(m)) => {
            write_uint_field(
                out,
                2,
                if *m {
                    1
                } else {
                    0
                },
            );
        },
    }
}

fn get_response_from_fields(fields: &Vec<WireField>, i: usize, acc: GetResponse) -> (r: Option<
    GetResponse,
>)
    requires
        i <= fields.len(),
    ensures
        r is Some ==> fold_get_response(wire_views(fields@).skip(i as int), acc@) == Some(
            r->Some_0@,
        ),
        r is None ==> fold_get_response(wire_views(fields@).skip(i as int), acc@) is None,
    decreases fields.len() - i,
{
    let ghost fsv = wire_views(fields@);
    if i == fields.len() {
        proof {
            assert(fsv.skip(i as int) =~= Seq::<WireFieldView>::empty());
        }
        return Some(acc);
    }
    proof {
        assert(fsv.skip(i as int)[0] == fields@[i as int]@);
        assert(fsv.skip(i as int).skip(1) =~= fsv.skip(i as int + 1));
    }
    let f = &fields[i];
    if f.tag == 1 {
        match &f.value {
            WireValue::Bytes(p) => {
                let acc2 = GetResponse { kind: Some(get_response::Kind::Hit(clone_bytes(p))) };
                get_response_from_fields(fields, i + 1, acc2)
            },
            _ => None,
        }
    } else if f.tag == 2 {
        match &f.value {
            WireValue::Uint(v) => {
                let acc2 = GetResponse { kind: Some(get_response::Kind::Miss(*v != 0)) };
                get_response_from_fields(fields, i + 1, acc2)
            },
            _ => None,
        }
    } else {
        get_response_from_fields(fields, i + 1, acc)
    }
}

/// The body of a set result: it carries nothing.
pub open spec fn enc_set_response(s: SetResponseView) -> Seq<u8> {
    Seq::empty()
}

/// Fold the fields of a set result: it has none of its own, so every
/// field is skipped.
pub open spec fn fold_set_response(
    fs: Seq<WireFieldView>,
    acc: SetResponseView,
) -> Option<SetResponseView>
    decreases fs.len(),
{
    if fs.len() == 0 {
        Some(acc)
    } else {
        fold_set_response(fs.skip(1), acc)
    }
}

/// Decode a set result body.
pub open spec fn dec_set_response(s: Seq<u8>) -> Option<SetResponseView> {
    match dec_fields(s) {
        None => None,
        Some(fs) => fold_set_response(fs, SetResponseView {}),
    }
}

fn set_response_from_fields(fields: &Vec<WireField>, i: usize, acc: SetResponse) -> (r: Option<
    SetResponse,
>)
    requires
        i <= fields.len(),
    ensures
        r is Some ==> fold_set_response(wire_views(fields@).skip(i as int), acc@) == Some(
            r->Some_0@,
        ),
        r is None ==> fold_set_response(wire_views(fields@).skip(i as int), acc@) is None,
    decreases fields.len() - i,
{
    let ghost fsv = wire_views(fields@);
    if i == fields.len() {
        proof {
            assert(fsv.skip(i as int) =~= Seq::<WireFieldView>::empty());
        }
        return Some(acc);
    }
    proof {
        assert(fsv.skip(i as int).skip(1) =~= fsv.skip(i as int + 1));
    }
    set_response_from_fields(fields, i + 1, acc)
}

/// A cache response carrying no result: what decoding starts from.
pub open spec fn cache_response_default() -> CacheResponseView {
    CacheResponseView { kind: None }
}

/// The body of a cache response: its result, as a nested message.
pub open spec fn enc_cache_response(c: CacheResponseView) -> Seq<u8> {
    match c.kind {
        None => Seq::empty(),
        Some(cache_response::KindView::Get(g)) => enc_len_field(1, enc_get_response(g)),
        Some(cache_response::KindView::SetOp(s)) => enc_len_field(2, enc_set_response(s)),
    }
}

/// Fold the fields of a cache response over an accumulator.
pub open spec fn fold_cache_response(
    fs: Seq<WireFieldView>,
    acc: CacheResponseView,
) -> Option<CacheResponseView>
    decreases fs.len(),
{
    if fs.len() == 0 {
        Some(acc)
    } else {
        let f = fs[0];
        let rest = fs.skip(1);
        if f.tag == 1 {
            match f.value {
                WireValueView::Bytes(p) => match dec_get_response(p) {
                    None => None,
                    Some(g) => fold_cache_response(
                        rest,
                        CacheResponseView { kind: Some(cache_response::KindView::Get(g)) },
                    ),
                },
                _ => None,
            }
        } else if f.tag == 2 {
            match f.value {
                WireValueView::Bytes(p) => match dec_set_response(p) {
                    None => None,
                    Some(s) => fold_cache_response(
                        rest,
                        CacheResponseView { kind: Some(cache_response::KindView::SetOp(s)) },
                    ),
                },
                _ => None,
            }
        } else {
            fold_cache_response(rest, acc)
        }
    }
}

/// Decode a cache response body.
pub open spec fn dec_cache_response(s: Seq<u8>) -> Option<CacheResponseView> {
    match dec_fields(s) {
        None => None,
        Some(fs) => fold_cache_response(fs, cache_response_default()),
    }
}

fn write_cache_response(out: &mut Vec<u8>, c: &CacheResponse)
    ensures
        final(out)@ == old(out)@ + enc_cache_response(c@),
{
    match &c.kind {
        None => {
            proof {
                assert(out@ =~= out@ + Seq::<u8>::empty());
            }
        },
        Some(cache_response::Kind::Get(g)) => {
            let mut tmp: Vec<u8> = Vec::new();
            write_get_response(&mut tmp, g);
            write_len_field(out, 1, &tmp);
        },
        Some(cache_response::Kind::SetOp(_s)) => {
            let tmp: Vec<u8> = Vec::new();
            write_len_field(out, 2, &tmp);
        },
    }
}

fn cache_response_from_fields(fields: &Vec<WireField>, i: usize, acc: CacheResponse) -> (r: Option<
    CacheResponse,
>)
    requires
        i <= fields.len(),
    ensures
        r is Some ==> fold_cache_response(wire_views(fields@).skip(i as int), acc@) == Some(
            r->Some_0@,
        ),
        r is None ==> fold_cache_response(wire_views(fields@).skip(i as int), acc@) is None,
    decreases fields.len() - i,
{
    let ghost fsv = wire_views(fields@);
    if i == fields.len() {
        proof {
            assert(fsv.skip(i as int) =~= Seq::<WireFieldView>::empty());
        }
        return Some(acc);
    }
    proof {
        assert(fsv.skip(i as int)[0] == fields@[i as int]@);
        assert(fsv.skip(i as int).skip(1) =~= fsv.skip(i as int + 1));
    }
    let f = &fields[i];
    if f.tag == 1 {
        match &f.value {
            WireValue::Bytes(p) => match decode_get_response_msg(p) {
                None => None,
                Some(g) => {
                    let acc2 = CacheResponse { kind: Some(cache_response::Kind::Get(g)) };
                    cache_response_from_fields(fields, i + 1, acc2)
                },
            },
            _ => None,
        }
    } else if f.tag == 2 {
        match &f.value {
            WireValue::Bytes(p) => match decode_set_response_msg(p) {
                None => None,
                Some(s) => {
                    let acc2 = CacheResponse { kind: Some(cache_response::Kind::SetOp(s)) };
                    cache_response_from_fields(fields, i + 1, acc2)
                },
            },
            _ => None,
        }
    } else {
        cache_response_from_fields(fields, i + 1, acc)
    }
}

fn decode_get_response_msg(payload: &Vec<u8>) -> (r: Option<GetResponse>)
    ensures
        r is Some ==> dec_get_response(payload@) == Some(r->Some_0@),
        r is None ==> dec_get_response(payload@) is None,
{
    match read_fields(payload) {
        None => None,
        Some(fields) => {
            proof {
                assert(wire_views(fields@).skip(0) =~= wire_views(fields@));
            }
            get_response_from_fields(&fields, 0, GetResponse { kind: None })
        },
    }
}

fn decode_set_response_msg(payload: &Vec<u8>) -> (r: Option<SetResponse>)
    ensures
        r is Some ==> dec_set_response(payload@) == Some(r->Some_0@),
        r is None ==> dec_set_response(payload@) is None,
{
    match read_fields(payload) {
        None => None,
        Some(fields) => {
            proof {
                assert(wire_views(fields@).skip(0) =~= wire_views(fields@));
            }
            set_response_from_fields(&fields, 0, SetResponse {})
        },
    }
}

/// A status with code zero and an empty message: what decoding starts
/// from.
pub open spec fn status_default() -> StatusView {
    StatusView { code: 0, message: Seq::empty() }
}

/// The body of a status: its code (as a sign-extended integer) and its
/// message (as UTF-8 bytes), each omitted when at its default.
pub open spec fn enc_status(st: StatusView) -> Seq<u8> {
    (if st.code == 0 {
        Seq::<u8>::empty()
    } else {
        enc_uint_field(1, st.code as u64)
    }) + (if vstd::utf8::encode_utf8(st.message).len() == 0 {
        Seq::<u8>::empty()
    } else {
        enc_len_field(2, vstd::utf8::encode_utf8(st.message))
    })
}

/// Fold the fields of a status over an accumulator. A message field that
/// is not valid UTF-8 fails the whole frame.
pub open spec fn fold_status(fs: Seq<WireFieldView>, acc: StatusView) -> Option<StatusView>
    decreases fs.len(),
{
    if fs.len() == 0 {
        Some(acc)
    } else {
        let f = fs[0];
        let rest = fs.skip(1);
        if f.tag == 1 {
            match f.value {
                WireValueView::Uint(v) => fold_status(
                    rest,
                    StatusView { code: v as i32, message: acc.message },
                ),
                _ => None,
            }
        } else if f.tag == 2 {
            match f.value {
                WireValueView::Bytes(p) => if vstd::utf8::valid_utf8(p) {
                    fold_status(
                        rest,
                        StatusView { code: acc.code, message: vstd::utf8::decode_utf8(p) },
                    )
                } else {
                    None
                },
                _ => None,
            }
        } else {
            fold_status(rest, acc)
        }
    }
}

/// Decode a status body.
pub open spec fn dec_status(s: Seq<u8>) -> Option<StatusView> {
    match dec_fields(s) {
        None => None,
        Some(fs) => fold_status(fs, status_default()),
    }
}

/// Relies on String::from_utf8: it accepts exactly the byte sequences
/// that are valid UTF-8, and the string it returns holds those very
/// bytes.
#[verifier::external_body]
fn bytes_to_string(b: Vec<u8>) -> (r: Option<String>)
    ensures
        r is Some <==> vstd::utf8::valid_utf8(b@),
        r is Some ==> vstd::utf8::encode_utf8(r->Some_0@) == b@,
{
    String::from_utf8(b).ok()
}

fn write_status(out: &mut Vec<u8>, st: &Status)
    ensures
        final(out)@ == old(out)@ + enc_status(st@),
{
    if st.code != 0 {
        #[verifier::truncate]
        let code64 = st.code as u64;
        write_uint_field(out, 1, code64);
    }
    let mb = st.message.as_str().as_bytes_vec();
    if mb.len() > 0 {
        write_len_field(out, 2, &mb);
    }
    proof {
        assert(final(out)@ =~= old(out)@ + enc_status(st@));
    }
}

fn status_from_fields(fields: &Vec<WireField>, i: usize, acc: Status) -> (r: Option<Status>)
    requires
        i <= fields.len(),
    ensures
        r is Some ==> fold_status(wire_views(fields@).skip(i as int), acc@) == Some(r->Some_0@),
        r is None ==> fold_status(wire_views(fields@).skip(i as int), acc@) is None,
    decreases fields.len() - i,
{
    let ghost fsv = wire_views(fields@);
    if i == fields.len() {
        proof {
            assert(fsv.skip(i as int) =~= Seq::<WireFieldView>::empty());
        }
        return Some(acc);
    }
    proof {
        assert(fsv.skip(i as int)[0] == fields@[i as int]@);
        assert(fsv.skip(i as int).skip(1) =~= fsv.skip(i as int + 1));
    }
    let f = &fields[i];
    if f.tag == 1 {
        match &f.value {
            WireValue::Uint(v) => {
                #[verifier::truncate]
                let code = *v as i32;
                let acc2 = Status { code, message: acc.message };
                status_from_fields(fields, i + 1, acc2)
            },
            _ => None,
        }
    } else if f.tag == 2 {
        match &f.value {
            WireValue::Bytes(p) => match bytes_to_string(clone_bytes(p)) {
                None => None,
                Some(msg) => {
                    proof {
                        vstd::utf8::encode_utf8_decode_utf8(msg@);
                    }
                    let acc2 = Status { code: acc.code, message: msg };
                    status_from_fields(fields, i + 1, acc2)
                },
            },
            _ => None,
        }
    } else {
        status_from_fields(fields, i + 1, acc)
    }
}

fn decode_status_msg(payload: &Vec<u8>) -> (r: Option<Status>)
    ensures
        r is Some ==> dec_status(payload@) == Some(r->Some_0@),
        r is None ==> dec_status(payload@) is None,
{
    match read_fields(payload) {
        None => None,
        Some(fields) => {
            proof {
                assert(wire_views(fields@).skip(0) =~= wire_views(fields@));
            }
            status_from_fields(&fields, 0, Status { code: 0, message: String::new() })
        },
    }
}

/// A response envelope with id zero and no payload: what decoding starts
/// from.
pub open spec fn response_default() -> SocketResponseView {
    SocketResponseView { request_id: 0, kind: None }
}

/// The encoding of a whole response envelope.
pub open spec fn enc_response(r: SocketResponseView) -> Seq<u8> {
    (if r.request_id == 0 {
        Seq::<u8>::empty()
    } else {
        enc_uint_field(1, r.request_id)
    }) + (match r.kind {
        None => Seq::<u8>::empty(),
        Some(socket_response::KindView::Error(st)) => enc_len_field(2, enc_status(st)),
        Some(socket_response::KindView::Cache(c)) => enc_len_field(3, enc_cache_response(c)),
    })
}

/// Fold the fields of a response envelope over an accumulator.
pub open spec fn fold_response(
    fs: Seq<WireFieldView>,
    acc: SocketResponseView,
) -> Option<SocketResponseView>
    decreases fs.len(),
{
    if fs.len() == 0 {
        Some(acc)
    } else {
        let f = fs[0];
        let rest = fs.skip(1);
        if f.tag == 1 {
            match f.value {
                WireValueView::Uint(v) => fold_response(
                    rest,
                    SocketResponseView { request_id: v, kind: acc.kind },
                ),
                _ => None,
            }
        } else if f.tag == 2 {
            match f.value {
                WireValueView::Bytes(p) => match dec_status(p) {
                    None => None,
                    Some(st) => fold_response(
                        rest,
                        SocketResponseView {
                            request_id: acc.request_id,
                            kind: Some(socket_response::KindView::Error(st)),
                        },
                    ),
                },
                _ => None,
            }
        } else if f.tag == 3 {
            match f.value {
                WireValueView::Bytes(p) => match dec_cache_response(p) {
                    None => None,
                    Some(c) => fold_response(
                        rest,
                        SocketResponseView {
                            request_id: acc.request_id,
                            kind: Some(socket_response::KindView::Cache(c)),
                        },
                    ),
                },
                _ => None,
            }
        } else {
            fold_response(rest, acc)
        }
    }
}

/// Decode a whole response envelope.
pub open spec fn dec_response(s: Seq<u8>) -> Option<SocketResponseView> {
    match dec_fields(s) {
        None => None,
        Some(fs) => fold_response(fs, response_default()),
    }
}

/// Encode a response envelope into one frame, as the peer does when it
/// answers.
pub fn encode_response(r: &SocketResponse) -> (out: Vec<u8>)
    ensures
        out@ == enc_response(r@),
{
    let mut out: Vec<u8> = Vec::new();
    if r.request_id != 0 {
        write_uint_field(&mut out, 1, r.request_id);
    }
    match &r.kind {
        None => {},
        Some(socket_response::Kind::Error(st)) => {
            let mut tmp: Vec<u8> = Vec::new();
            write_status(&mut tmp, st);
            write_len_field(&mut out, 2, &tmp);
        },
        Some(socket_response::Kind::Cache(c)) => {
            let mut tmp: Vec<u8> = Vec::new();
            write_cache_response(&mut tmp, c);
            write_len_field(&mut out, 3, &tmp);
        },
    }
    proof {
        assert(out@ =~= enc_response(r@));
    }
    out
}

fn response_from_fields(fields: &Vec<WireField>, i: usize, acc: SocketResponse) -> (r: Option<
    SocketResponse,
>)
    requires
        i <= fields.len(),
    ensures
        r is Some ==> fold_response(wire_views(fields@).skip(i as int), acc@) == Some(r->Some_0@),
        r is None ==> fold_response(wire_views(fields@).skip(i as int), acc@) is None,
    decreases fields.len() - i,
{
    let ghost fsv = wire_views(fields@);
    if i == fields.len() {
        proof {
            assert(fsv.skip(i as int) =~= Seq::<WireFieldView>::empty());
        }
        return Some(acc);
    }
    proof {
        assert(fsv.skip(i as int)[0] == fields@[i as int]@);
        assert(fsv.skip(i as int).skip(1) =~= fsv.skip(i as int + 1));
    }
    let f = &fields[i];
    if f.tag == 1 {
        match &f.value {
            WireValue::Uint(v) => {
                let acc2 = SocketResponse { request_id: *v, kind: acc.kind };
                response_from_fields(fields, i + 1, acc2)
            },
            _ => None,
        }
    } else if f.tag == 2 {
        match &f.value {
            WireValue::Bytes(p) => match decode_status_msg(p) {
                None => None,
                Some(st) => {
                    let acc2 = SocketResponse {
                        request_id: acc.request_id,
                        kind: Some(socket_response::Kind::Error(st)),
                    };
                    response_from_fields(fields, i + 1, acc2)
                },
            },
            _ => None,
        }
    } else if f.tag == 3 {
        match &f.value {
            WireValue::Bytes(p) => match decode_cache_response_msg(p) {
                None => None,
                Some(c) => {
                    let acc2 = SocketResponse {
                        request_id: acc.request_id,
                        kind: Some(socket_response::Kind::Cache(c)),
                    };
                    response_from_fields(fields, i + 1, acc2)
                },
            },
            _ => None,
        }
    } else {
        response_from_fields(fields, i + 1, acc)
    }
}

fn decode_cache_response_msg(payload: &Vec<u8>) -> (r: Option<CacheResponse>)
    ensures
        r is Some ==> dec_cache_response(payload@) == Some(r->Some_0@),
        r is None ==> dec_cache_response(payload@) is None,
{
    match read_fields(payload) {
        None => None,
        Some(fields) => {
            proof {
                assert(wire_views(fields@).skip(0) =~= wire_views(fields@));
            }
            cache_response_from_fields(&fields, 0, CacheResponse { kind: None })
        },
    }
}

/// Decode a whole response envelope from a frame, or report that the
/// frame is corrupt.
pub fn decode_response(buf: &Vec<u8>) -> (r: Option<SocketResponse>)
    ensures
        r is Some ==> dec_response(buf@) == Some(r->Some_0@),
        r is None ==> dec_response(buf@) is None,
{
    match read_fields(buf) {
        None => None,
        Some(fields) => {
            proof {
                assert(wire_views(fields@).skip(0) =~= wire_views(fields@));
            }
            response_from_fields(&fields, 0, SocketResponse { request_id: 0, kind: None })
        },
    }
}

} // verus!
