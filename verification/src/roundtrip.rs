//! The codec's laws: decoding inverts encoding.
//!
//! For every well-formed envelope — one whose byte strings are of sane
//! length, so that every length prefix fits a 64-bit integer — encoding
//! it and decoding the result gives the envelope back exactly. Together
//! with the codec's contracts this pins the wire format down: what the
//! actor writes for a submission is precisely what a schema-conforming
//! peer reads, and vice versa.

use vstd::prelude::*;

use crate::cache_request;
use crate::cache_response;
use crate::codec::{
    cache_request_default, cache_response_default, dec_cache_request, dec_cache_response,
    dec_fields, dec_get, dec_get_response, dec_request, dec_response, dec_set, dec_set_response,
    dec_status, enc_cache_request, enc_cache_response, enc_get, enc_get_response, enc_len_field,
    enc_request, enc_response, enc_set, enc_set_response, enc_status, enc_uint_field,
    fold_cache_request, fold_cache_response, fold_get, fold_get_response, fold_request,
    fold_response, fold_set, fold_status, get_default, get_response_default, key_byte,
    request_default, response_default, set_default, status_default, WireFieldView,
    WireValueView,
};
use crate::get_response;
use crate::socket_request;
use crate::socket_request::CacheRequestView;
use crate::socket_response;
use crate::socket_response::{CacheResponseView, StatusView};
use crate::varint::{lemma_varint_enc_len, lemma_varint_round_trip, varint_enc};
use crate::websocket::{
    GetResponseView, GetView, SetOpView, SetResponseView, SocketRequestView, SocketResponseView,
};

verus! {

/// Sane length for one byte string: far below what a length prefix can
/// carry, and far above any real key or value.
pub open spec fn byte_len_ok(s: Seq<u8>) -> bool {
    s.len() < 0x1000_0000_0000_0000
}

/// Well-formed get: its key is of sane length.
pub open spec fn wf_get(g: GetView) -> bool {
    byte_len_ok(g.cache_key)
}

/// Well-formed set: key and value are of sane length.
pub open spec fn wf_set(s: SetOpView) -> bool {
    byte_len_ok(s.cache_key) && byte_len_ok(s.cache_body)
}

/// Well-formed cache request: its operation is well-formed.
pub open spec fn wf_cache_request(c: CacheRequestView) -> bool {
    match c.kind {
        None => true,
        Some(cache_request::KindView::Get(g)) => wf_get(g),
        Some(cache_request::KindView::SetOp(s)) => wf_set(s),
    }
}

/// Well-formed request envelope: its payload is well-formed.
pub open spec fn wf_request(r: SocketRequestView) -> bool {
    match r.kind {
        None => true,
        Some(socket_request::KindView::Cache(c)) => wf_cache_request(c),
    }
}

/// Well-formed get result: a hit's bytes are of sane length.
pub open spec fn wf_get_response(g: GetResponseView) -> bool {
    match g.kind {
        None => true,
        Some(get_response::KindView::Hit(b)) => byte_len_ok(b),
        Some(get_response::KindView::Miss(_)) => true,
    }
}

/// Well-formed cache response: its result is well-formed.
pub open spec fn wf_cache_response(c: CacheResponseView) -> bool {
    match c.kind {
        None => true,
        Some(cache_response::KindView::Get(g)) => wf_get_response(g),
        Some(cache_response::KindView::SetOp(_)) => true,
    }
}

/// Well-formed status: its message encodes to bytes of sane length.
pub open spec fn wf_status(st: StatusView) -> bool {
    byte_len_ok(vstd::utf8::encode_utf8(st.message))
}

/// Well-formed response envelope: its payload is well-formed.
pub open spec fn wf_response(r: SocketResponseView) -> bool {
    match r.kind {
        None => true,
        Some(socket_response::KindView::Error(st)) => wf_status(st),
        Some(socket_response::KindView::Cache(c)) => wf_cache_response(c),
    }
}

proof fn lemma_dec_fields_uint(tag: u64, v: u64, rest: Seq<u8>)
    requires
        1 <= tag <= 15,
        dec_fields(rest) is Some,
    ensures
        dec_fields(enc_uint_field(tag, v) + rest) == Some(
            seq![WireFieldView { tag, value: WireValueView::Uint(v) }] + dec_fields(rest)->Some_0,
        ),
{
    let s = enc_uint_field(tag, v) + rest;
    lemma_varint_enc_len(v);
    let n = varint_enc(v).len() as int;
    assert(s[0] == key_byte(tag, 0));
    assert(s.skip(1) =~= varint_enc(v) + rest);
    lemma_varint_round_trip(v, rest);
    assert(s.skip(1 + n) =~= rest);
}

proof fn lemma_dec_fields_len(tag: u64, payload: Seq<u8>, rest: Seq<u8>)
    requires
        1 <= tag <= 15,
        payload.len() < 0x1_0000_0000_0000_0000,
        dec_fields(rest) is Some,
    ensures
        dec_fields(enc_len_field(tag, payload) + rest) == Some(
            seq![WireFieldView { tag, value: WireValueView::Bytes(payload) }] + dec_fields(
                rest,
            )->Some_0,
        ),
{
    let s = enc_len_field(tag, payload) + rest;
    let lv = payload.len() as u64;
    lemma_varint_enc_len(lv);
    let n = varint_enc(lv).len() as int;
    assert(s[0] == key_byte(tag, 2));
    assert(s.skip(1) =~= varint_enc(lv) + (payload + rest));
    lemma_varint_round_trip(lv, payload + rest);
    assert(s.subrange(1 + n, 1 + n + lv as int) =~= payload);
    assert(s.skip(1 + n + lv as int) =~= rest);
}

proof fn lemma_rt_get(g: GetView)
    requires
        wf_get(g),
    ensures
        dec_get(enc_get(g)) == Some(g),
{
    reveal_with_fuel(fold_get, 3);
    if g.cache_key.len() == 0 {
        assert(g.cache_key =~= Seq::<u8>::empty());
        assert(g =~= get_default());
    } else {
        lemma_dec_fields_len(1, g.cache_key, Seq::empty());
        let f = WireFieldView { tag: 1, value: WireValueView::Bytes(g.cache_key) };
        assert(enc_get(g) =~= enc_len_field(1, g.cache_key) + Seq::<u8>::empty());
        assert(dec_fields(enc_get(g)) == Some(seq![f] + Seq::<WireFieldView>::empty()));
        let fs = seq![f] + Seq::<WireFieldView>::empty();
        assert(fs[0] == f);
        assert(fs.skip(1) =~= Seq::<WireFieldView>::empty());
        assert(fold_get(fs, get_default()) == Some(GetView { cache_key: g.cache_key }));
        assert(g =~= (GetView { cache_key: g.cache_key }));
    }
}

proof fn lemma_rt_set(s: SetOpView)
    requires
        wf_set(s),
    ensures
        dec_set(enc_set(s)) == Some(s),
{
    reveal_with_fuel(fold_set, 5);
    let fk = WireFieldView { tag: 1, value: WireValueView::Bytes(s.cache_key) };
    let fb = WireFieldView { tag: 2, value: WireValueView::Bytes(s.cache_body) };
    let ft = WireFieldView { tag: 3, value: WireValueView::Uint(s.ttl_milliseconds) };
    let ec = if s.ttl_milliseconds == 0 {
        Seq::<u8>::empty()
    } else {
        enc_uint_field(3, s.ttl_milliseconds)
    };
    let fsc = if s.ttl_milliseconds == 0 {
        Seq::<WireFieldView>::empty()
    } else {
        seq![ft]
    };
    if s.ttl_milliseconds != 0 {
        lemma_dec_fields_uint(3, s.ttl_milliseconds, Seq::empty());
        assert(ec =~= enc_uint_field(3, s.ttl_milliseconds) + Seq::<u8>::empty());
        assert(seq![ft] + Seq::<WireFieldView>::empty() =~= seq![ft]);
    }
    assert(dec_fields(ec) == Some(fsc));
    let eb = if s.cache_body.len() == 0 {
        ec
    } else {
        enc_len_field(2, s.cache_body) + ec
    };
    let fsb = if s.cache_body.len() == 0 {
        fsc
    } else {
        seq![fb] + fsc
    };
    if s.cache_body.len() != 0 {
        lemma_dec_fields_len(2, s.cache_body, ec);
    }
    assert(dec_fields(eb) == Some(fsb));
    let ea = if s.cache_key.len() == 0 {
        eb
    } else {
        enc_len_field(1, s.cache_key) + eb
    };
    let fsa = if s.cache_key.len() == 0 {
        fsb
    } else {
        seq![fk] + fsb
    };
    if s.cache_key.len() != 0 {
        lemma_dec_fields_len(1, s.cache_key, eb);
    }
    assert(dec_fields(ea) == Some(fsa));
    assert(enc_set(s) =~= ea);

    // Evaluate the fold over the zero to three fields present.
    let d0 = set_default();
    let d1 = if s.cache_key.len() == 0 {
        SetOpView { cache_key: s.cache_key, cache_body: d0.cache_body, ttl_milliseconds: 0 }
    } else {
        SetOpView { cache_key: s.cache_key, cache_body: Seq::empty(), ttl_milliseconds: 0 }
    };
    if s.cache_key.len() == 0 {
        assert(s.cache_key =~= Seq::<u8>::empty());
        assert(fold_set(fsa, d0) == fold_set(fsb, d1));
    } else {
        assert(fsa[0] == fk);
        assert(fsa.skip(1) =~= fsb);
        assert(fold_set(fsa, d0) == fold_set(fsb, d1));
    }
    let d2 = SetOpView {
        cache_key: s.cache_key,
        cache_body: s.cache_body,
        ttl_milliseconds: 0,
    };
    if s.cache_body.len() == 0 {
        assert(s.cache_body =~= Seq::<u8>::empty());
        assert(d1 =~= d2);
        assert(fold_set(fsb, d1) == fold_set(fsc, d2));
    } else {
        assert(fsb[0] == fb);
        assert(fsb.skip(1) =~= fsc);
        assert(fold_set(fsb, d1) == fold_set(fsc, d2));
    }
    if s.ttl_milliseconds == 0 {
        assert(fold_set(fsc, d2) == Some(d2));
        assert(s =~= d2);
    } else {
        assert(fsc[0] == ft);
        assert(fsc.skip(1) =~= Seq::<WireFieldView>::empty());
        assert(fold_set(fsc, d2) == Some(s)) by {
            assert(s =~= (SetOpView {
                cache_key: s.cache_key,
                cache_body: s.cache_body,
                ttl_milliseconds: s.ttl_milliseconds,
            }));
        }
    }
}

proof fn lemma_rt_cache_request(c: CacheRequestView)
    requires
        wf_cache_request(c),
    ensures
        dec_cache_request(enc_cache_request(c)) == Some(c),
{
    reveal_with_fuel(fold_cache_request, 3);
    match c.kind {
        None => {
            assert(c =~= cache_request_default());
        },
        Some(cache_request::KindView::Get(g)) => {
            lemma_rt_get(g);
            lemma_varint_enc_len(g.cache_key.len() as u64);
            assert(enc_get(g).len() < 0x1_0000_0000_0000_0000);
            lemma_dec_fields_len(4, enc_get(g), Seq::empty());
            let f = WireFieldView { tag: 4, value: WireValueView::Bytes(enc_get(g)) };
            assert(enc_cache_request(c) =~= enc_len_field(4, enc_get(g)) + Seq::<u8>::empty());
            let fs = seq![f] + Seq::<WireFieldView>::empty();
            assert(dec_fields(enc_cache_request(c)) == Some(fs));
            assert(fs[0] == f);
            assert(fs.skip(1) =~= Seq::<WireFieldView>::empty());
            assert(fold_cache_request(fs, cache_request_default()) == Some(c)) by {
                assert(c =~= (CacheRequestView {
                    kind: Some(cache_request::KindView::Get(g)),
                }));
            }
        },
        Some(cache_request::KindView::SetOp(s)) => {
            lemma_rt_set(s);
            lemma_varint_enc_len(s.cache_key.len() as u64);
            lemma_varint_enc_len(s.cache_body.len() as u64);
            lemma_varint_enc_len(s.ttl_milliseconds);
            assert(enc_set(s).len() < 0x1_0000_0000_0000_0000);
            lemma_dec_fields_len(5, enc_set(s), Seq::empty());
            let f = WireFieldView { tag: 5, value: WireValueView::Bytes(enc_set(s)) };
            assert(enc_cache_request(c) =~= enc_len_field(5, enc_set(s)) + Seq::<u8>::empty());
            let fs = seq![f] + Seq::<WireFieldView>::empty();
            assert(dec_fields(enc_cache_request(c)) == Some(fs));
            assert(fs[0] == f);
            assert(fs.skip(1) =~= Seq::<WireFieldView>::empty());
            assert(fold_cache_request(fs, cache_request_default()) == Some(c)) by {
                assert(c =~= (CacheRequestView {
                    kind: Some(cache_request::KindView::SetOp(s)),
                }));
            }
        },
    }
}

/// Decoding inverts encoding on every well-formed request envelope: the
/// frame the actor writes reads back as exactly the request it encoded.
pub proof fn lemma_request_round_trip(r: SocketRequestView)
    requires
        wf_request(r),
    ensures
        dec_request(enc_request(r)) == Some(r),
{
    reveal_with_fuel(fold_request, 4);
    let eb = match r.kind {
        None => Seq::<u8>::empty(),
        Some(socket_request::KindView::Cache(c)) => enc_len_field(2, enc_cache_request(c)),
    };
    let fsb = match r.kind {
        None => Seq::<WireFieldView>::empty(),
        Some(socket_request::KindView::Cache(c)) => seq![
            WireFieldView { tag: 2, value: WireValueView::Bytes(enc_cache_request(c)) },
        ],
    };
    match r.kind {
        None => {},
        Some(socket_request::KindView::Cache(c)) => {
            lemma_rt_cache_request(c);
            assert(enc_cache_request(c).len() < 0x1_0000_0000_0000_0000) by {
                match c.kind {
                    None => {},
                    Some(cache_request::KindView::Get(g)) => {
                        lemma_varint_enc_len(g.cache_key.len() as u64);
                        lemma_varint_enc_len(enc_get(g).len() as u64);
                    },
                    Some(cache_request::KindView::SetOp(s)) => {
                        lemma_varint_enc_len(s.cache_key.len() as u64);
                        lemma_varint_enc_len(s.cache_body.len() as u64);
                        lemma_varint_enc_len(s.ttl_milliseconds);
                        lemma_varint_enc_len(enc_set(s).len() as u64);
                    },
                }
            }
            lemma_dec_fields_len(2, enc_cache_request(c), Seq::empty());
            assert(eb =~= enc_len_field(2, enc_cache_request(c)) + Seq::<u8>::empty());
            assert(fsb =~= seq![
                WireFieldView { tag: 2, value: WireValueView::Bytes(enc_cache_request(c)) },
            ] + Seq::<WireFieldView>::empty());
        },
    }
    assert(dec_fields(eb) == Some(fsb));
    let ea = if r.request_id == 0 {
        eb
    } else {
        enc_uint_field(1, r.request_id) + eb
    };
    let fsa = if r.request_id == 0 {
        fsb
    } else {
        seq![WireFieldView { tag: 1, value: WireValueView::Uint(r.request_id) }] + fsb
    };
    if r.request_id != 0 {
        lemma_dec_fields_uint(1, r.request_id, eb);
    }
    assert(dec_fields(ea) == Some(fsa));
    assert(enc_request(r) =~= ea);

    let d0 = request_default();
    let d1 = SocketRequestView { request_id: r.request_id, kind: None };
    if r.request_id == 0 {
        assert(d1 =~= d0);
    } else {
        assert(fsa[0] == (WireFieldView { tag: 1, value: WireValueView::Uint(r.request_id) }));
        assert(fsa.skip(1) =~= fsb);
    }
    assert(fold_request(fsa, d0) == fold_request(fsb, d1));
    match r.kind {
        None => {
            assert(fold_request(fsb, d1) == Some(d1));
            assert(r =~= d1);
        },
        Some(socket_request::KindView::Cache(c)) => {
            assert(fsb[0] == (WireFieldView {
                tag: 2,
                value: WireValueView::Bytes(enc_cache_request(c)),
            }));
            assert(fsb.skip(1) =~= Seq::<WireFieldView>::empty());
            assert(fold_request(fsb, d1) == Some(
                SocketRequestView {
                    request_id: r.request_id,
                    kind: Some(socket_request::KindView::Cache(c)),
                },
            ));
            assert(r =~= (SocketRequestView {
                request_id: r.request_id,
                kind: Some(socket_request::KindView::Cache(c)),
            }));
        },
    }
}

proof fn lemma_rt_get_response(g: GetResponseView)
    requires
        wf_get_response(g),
    ensures
        dec_get_response(enc_get_response(g)) == Some(g),
{
    reveal_with_fuel(fold_get_response, 3);
    match g.kind {
        None => {
            assert(g =~= get_response_default());
        },
        Some(get_response::KindView::Hit(b)) => {
            lemma_dec_fields_len(1, b, Seq::empty());
            let f = WireFieldView { tag: 1, value: WireValueView::Bytes(b) };
            assert(enc_get_response(g) =~= enc_len_field(1, b) + Seq::<u8>::empty());
            let fs = seq![f] + Seq::<WireFieldView>::empty();
            assert(dec_fields(enc_get_response(g)) == Some(fs));
            assert(fs[0] == f);
            assert(fs.skip(1) =~= Seq::<WireFieldView>::empty());
            assert(g =~= (GetResponseView { kind: Some(get_response::KindView::Hit(b)) }));
        },
        Some(get_response::KindView::Miss(m)) => {
            let mv: u64 = if m {
                1
            } else {
                0
            };
            lemma_dec_fields_uint(2, mv, Seq::empty());
            let f = WireFieldView { tag: 2, value: WireValueView::Uint(mv) };
            assert(enc_get_response(g) =~= enc_uint_field(2, mv) + Seq::<u8>::empty());
            let fs = seq![f] + Seq::<WireFieldView>::empty();
            assert(dec_fields(enc_get_response(g)) == Some(fs));
            assert(fs[0] == f);
            assert(fs.skip(1) =~= Seq::<WireFieldView>::empty());
            assert((mv != 0) == m);
            assert(g =~= (GetResponseView { kind: Some(get_response::KindView::Miss(m)) }));
        },
    }
}

proof fn lemma_rt_set_response(s: SetResponseView)
    ensures
        dec_set_response(enc_set_response(s)) == Some(s),
{
    assert(dec_fields(Seq::<u8>::empty()) == Some(Seq::<WireFieldView>::empty()));
    assert(s =~= (SetResponseView {  }));
}

proof fn lemma_rt_cache_response(c: CacheResponseView)
    requires
        wf_cache_response(c),
    ensures
        dec_cache_response(enc_cache_response(c)) == Some(c),
{
    reveal_with_fuel(fold_cache_response, 3);
    match c.kind {
        None => {
            assert(c =~= cache_response_default());
        },
        Some(cache_response::KindView::Get(g)) => {
            lemma_rt_get_response(g);
            assert(enc_get_response(g).len() < 0x1_0000_0000_0000_0000) by {
                match g.kind {
                    None => {},
                    Some(get_response::KindView::Hit(b)) => {
                        lemma_varint_enc_len(b.len() as u64);
                    },
                    Some(get_response::KindView::Miss(m)) => {
                        lemma_varint_enc_len(
                            if m {
                                1
                            } else {
                                0
                            },
                        );
                    },
                }
            }
            lemma_dec_fields_len(1, enc_get_response(g), Seq::empty());
            let f = WireFieldView { tag: 1, value: WireValueView::Bytes(enc_get_response(g)) };
            assert(enc_cache_response(c) =~= enc_len_field(1, enc_get_response(g))
                + Seq::<u8>::empty());
            let fs = seq![f] + Seq::<WireFieldView>::empty();
            assert(dec_fields(enc_cache_response(c)) == Some(fs));
            assert(fs[0] == f);
            assert(fs.skip(1) =~= Seq::<WireFieldView>::empty());
            assert(c =~= (CacheResponseView { kind: Some(cache_response::KindView::Get(g)) }));
        },
        Some(cache_response::KindView::SetOp(s)) => {
            lemma_rt_set_response(s);
            lemma_dec_fields_len(2, enc_set_response(s), Seq::empty());
            let f = WireFieldView { tag: 2, value: WireValueView::Bytes(enc_set_response(s)) };
            assert(enc_cache_response(c) =~= enc_len_field(2, enc_set_response(s))
                + Seq::<u8>::empty());
            let fs = seq![f] + Seq::<WireFieldView>::empty();
            assert(dec_fields(enc_cache_response(c)) == Some(fs));
            assert(fs[0] == f);
            assert(fs.skip(1) =~= Seq::<WireFieldView>::empty());
            assert(c =~= (CacheResponseView { kind: Some(cache_response::KindView::SetOp(s)) }));
        },
    }
}

proof fn lemma_rt_status(st: StatusView)
    requires
        wf_status(st),
    ensures
        dec_status(enc_status(st)) == Some(st),
{
    reveal_with_fuel(fold_status, 4);
    let mb = vstd::utf8::encode_utf8(st.message);
    vstd::utf8::encode_utf8_valid_utf8(st.message);
    vstd::utf8::encode_utf8_decode_utf8(st.message);
    let fc = WireFieldView { tag: 1, value: WireValueView::Uint(st.code as u64) };
    let fm = WireFieldView { tag: 2, value: WireValueView::Bytes(mb) };
    let eb = if mb.len() == 0 {
        Seq::<u8>::empty()
    } else {
        enc_len_field(2, mb)
    };
    let fsb = if mb.len() == 0 {
        Seq::<WireFieldView>::empty()
    } else {
        seq![fm]
    };
    if mb.len() != 0 {
        lemma_dec_fields_len(2, mb, Seq::empty());
        assert(eb =~= enc_len_field(2, mb) + Seq::<u8>::empty());
        assert(seq![fm] + Seq::<WireFieldView>::empty() =~= seq![fm]);
    }
    assert(dec_fields(eb) == Some(fsb));
    let ea = if st.code == 0 {
        eb
    } else {
        enc_uint_field(1, st.code as u64) + eb
    };
    let fsa = if st.code == 0 {
        fsb
    } else {
        seq![fc] + fsb
    };
    if st.code != 0 {
        lemma_dec_fields_uint(1, st.code as u64, eb);
    }
    assert(dec_fields(ea) == Some(fsa));
    assert(enc_status(st) =~= ea);

    let d0 = status_default();
    let d1 = StatusView { code: st.code, message: Seq::empty() };
    if st.code == 0 {
        assert(d1 =~= d0);
    } else {
        let c0 = st.code;
        assert(((c0 as u64) as i32) == c0) by (bit_vector);
        assert(fsa[0] == fc);
        assert(fsa.skip(1) =~= fsb);
    }
    assert(fold_status(fsa, d0) == fold_status(fsb, d1));
    if mb.len() == 0 {
        assert(st.message =~= vstd::utf8::decode_utf8(Seq::<u8>::empty()));
        assert(st.message =~= Seq::<char>::empty());
        assert(st =~= d1);
        assert(fold_status(fsb, d1) == Some(d1));
    } else {
        assert(fsb[0] == fm);
        assert(fsb.skip(1) =~= Seq::<WireFieldView>::empty());
        assert(vstd::utf8::decode_utf8(mb) == st.message);
        assert(st =~= (StatusView { code: st.code, message: vstd::utf8::decode_utf8(mb) }));
        assert(fold_status(fsb, d1) == Some(st));
    }
}

/// Decoding inverts encoding on every well-formed response envelope:
/// what a schema-conforming peer answers reads back as exactly the
/// envelope it encoded.
pub proof fn lemma_response_round_trip(r: SocketResponseView)
    requires
        wf_response(r),
    ensures
        dec_response(enc_response(r)) == Some(r),
{
    reveal_with_fuel(fold_response, 4);
    let eb = match r.kind {
        None => Seq::<u8>::empty(),
        Some(socket_response::KindView::Error(st)) => enc_len_field(2, enc_status(st)),
        Some(socket_response::KindView::Cache(c)) => enc_len_field(3, enc_cache_response(c)),
    };
    let fsb = match r.kind {
        None => Seq::<WireFieldView>::empty(),
        Some(socket_response::KindView::Error(st)) => seq![
            WireFieldView { tag: 2, value: WireValueView::Bytes(enc_status(st)) },
        ],
        Some(socket_response::KindView::Cache(c)) => seq![
            WireFieldView { tag: 3, value: WireValueView::Bytes(enc_cache_response(c)) },
        ],
    };
    match r.kind {
        None => {},
        Some(socket_response::KindView::Error(st)) => {
            lemma_rt_status(st);
            assert(enc_status(st).len() < 0x1_0000_0000_0000_0000) by {
                lemma_varint_enc_len(st.code as u64);
                lemma_varint_enc_len(vstd::utf8::encode_utf8(st.message).len() as u64);
            }
            lemma_dec_fields_len(2, enc_status(st), Seq::empty());
            assert(eb =~= enc_len_field(2, enc_status(st)) + Seq::<u8>::empty());
            assert(fsb =~= seq![
                WireFieldView { tag: 2, value: WireValueView::Bytes(enc_status(st)) },
            ] + Seq::<WireFieldView>::empty());
        },
        Some(socket_response::KindView::Cache(c)) => {
            lemma_rt_cache_response(c);
            assert(enc_cache_response(c).len() < 0x1_0000_0000_0000_0000) by {
                match c.kind {
                    None => {},
                    Some(cache_response::KindView::Get(g)) => {
                        match g.kind {
                            None => {},
                            Some(get_response::KindView::Hit(b)) => {
                                lemma_varint_enc_len(b.len() as u64);
                            },
                            Some(get_response::KindView::Miss(m)) => {
                                lemma_varint_enc_len(
                                    if m {
                                        1
                                    } else {
                                        0
                                    },
                                );
                            },
                        }
                        lemma_varint_enc_len(enc_get_response(g).len() as u64);
                    },
                    Some(cache_response::KindView::SetOp(s)) => {
                        lemma_varint_enc_len(enc_set_response(s).len() as u64);
                    },
                }
            }
            lemma_dec_fields_len(3, enc_cache_response(c), Seq::empty());
            assert(eb =~= enc_len_field(3, enc_cache_response(c)) + Seq::<u8>::empty());
            assert(fsb =~= seq![
                WireFieldView { tag: 3, value: WireValueView::Bytes(enc_cache_response(c)) },
            ] + Seq::<WireFieldView>::empty());
        },
    }
    assert(dec_fields(eb) == Some(fsb));
    let ea = if r.request_id == 0 {
        eb
    } else {
        enc_uint_field(1, r.request_id) + eb
    };
    let fsa = if r.request_id == 0 {
        fsb
    } else {
        seq![WireFieldView { tag: 1, value: WireValueView::Uint(r.request_id) }] + fsb
    };
    if r.request_id != 0 {
        lemma_dec_fields_uint(1, r.request_id, eb);
    }
    assert(dec_fields(ea) == Some(fsa));
    assert(enc_response(r) =~= ea);

    let d0 = response_default();
    let d1 = SocketResponseView { request_id: r.request_id, kind: None };
    if r.request_id == 0 {
        assert(d1 =~= d0);
    } else {
        assert(fsa[0] == (WireFieldView { tag: 1, value: WireValueView::Uint(r.request_id) }));
        assert(fsa.skip(1) =~= fsb);
    }
    assert(fold_response(fsa, d0) == fold_response(fsb, d1));
    match r.kind {
        None => {
            assert(fold_response(fsb, d1) == Some(d1));
            assert(r =~= d1);
        },
        Some(socket_response::KindView::Error(st)) => {
            assert(fsb[0] == (WireFieldView {
                tag: 2,
                value: WireValueView::Bytes(enc_status(st)),
            }));
            assert(fsb.skip(1) =~= Seq::<WireFieldView>::empty());
            assert(r =~= (SocketResponseView {
                request_id: r.request_id,
                kind: Some(socket_response::KindView::Error(st)),
            }));
        },
        Some(socket_response::KindView::Cache(c)) => {
            assert(fsb[0] == (WireFieldView {
                tag: 3,
                value: WireValueView::Bytes(enc_cache_response(c)),
            }));
            assert(fsb.skip(1) =~= Seq::<WireFieldView>::empty());
            assert(r =~= (SocketResponseView {
                request_id: r.request_id,
                kind: Some(socket_response::KindView::Cache(c)),
            }));
        },
    }
}

} // verus!
