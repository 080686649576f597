//! Little-endian base-128 integers, the primitive of the wire format.
//!
//! Each byte carries seven value bits, least significant group first; the
//! high bit marks a continuation. One integer spans at most ten bytes.

use vstd::prelude::*;

verus! {

/// The encoding of `v`: seven low bits per byte, least significant first,
/// continuation bit set on every byte but the last.
pub open spec fn varint_enc(v: u64) -> Seq<u8>
    decreases v,
{
    if v < 128 {
        seq![v as u8]
    } else {
        seq![(v % 128 + 128) as u8] + varint_enc((v / 128) as u64)
    }
}

/// Decode one integer from the front of `s`: the value and how many bytes
/// it spanned. `fuel` bounds the span; a longer run of continuation bytes,
/// a truncated run, or a value overflowing 64 bits does not decode.
pub open spec fn varint_dec_fuel(s: Seq<u8>, fuel: nat) -> Option<(u64, int)>
    decreases fuel,
{
    if fuel == 0 || s.len() == 0 {
        None
    } else {
        let b = s[0];
        if b < 128 {
            Some((b as u64, 1))
        } else {
            match varint_dec_fuel(s.skip(1), (fuel - 1) as nat) {
                None => None,
                Some((v, n)) => if 128 * v + (b - 128) <= 0xffff_ffff_ffff_ffffu64 {
                    Some((((128 * v + (b - 128))) as u64, n + 1))
                } else {
                    None
                },
            }
        }
    }
}

/// Decode one integer from the front of `s`, spanning at most ten bytes.
pub open spec fn varint_dec(s: Seq<u8>) -> Option<(u64, int)> {
    varint_dec_fuel(s, 10)
}

/// 128 raised to `k`.
pub open spec fn pow128(k: nat) -> int
    decreases k,
{
    if k == 0 {
        1
    } else {
        128 * pow128((k - 1) as nat)
    }
}

proof fn lemma_pow128_pos(k: nat)
    ensures
        pow128(k) >= 1,
    decreases k,
{
    if k > 0 {
        lemma_pow128_pos((k - 1) as nat);
    }
}

proof fn lemma_varint_enc_len_bound(v: u64, k: nat)
    requires
        k >= 1,
        (v as int) < pow128(k),
    ensures
        1 <= varint_enc(v).len() <= k,
    decreases v,
{
    if v >= 128 {
        lemma_pow128_pos((k - 1) as nat);
        assert((v as int) / 128 < pow128((k - 1) as nat)) by (nonlinear_arith)
            requires
                (v as int) < 128 * pow128((k - 1) as nat),
                v >= 128,
        ;
        if k == 1 {
            assert(false);
        }
        lemma_varint_enc_len_bound((v / 128) as u64, (k - 1) as nat);
    }
}

/// Every 64-bit value encodes in one to ten bytes.
pub proof fn lemma_varint_enc_len(v: u64)
    ensures
        1 <= varint_enc(v).len() <= 10,
{
    assert((v as int) < pow128(10)) by {
        reveal_with_fuel(pow128, 11);
    }
    lemma_varint_enc_len_bound(v, 10);
}

proof fn lemma_varint_round_trip_fuel(v: u64, rest: Seq<u8>, fuel: nat)
    requires
        varint_enc(v).len() <= fuel,
    ensures
        varint_dec_fuel(varint_enc(v) + rest, fuel) == Some((v, varint_enc(v).len() as int)),
    decreases v,
{
    let s = varint_enc(v) + rest;
    if v < 128 {
        assert(s[0] == v as u8);
    } else {
        let b: u8 = (v % 128 + 128) as u8;
        assert(s[0] == b);
        let tail = varint_enc((v / 128) as u64);
        assert(s.skip(1) =~= tail + rest);
        lemma_varint_round_trip_fuel((v / 128) as u64, rest, (fuel - 1) as nat);
        assert(128 * ((v as int) / 128) + ((v as int) % 128) == v as int);
    }
}

/// Whatever follows it, an encoded integer decodes back to the value it
/// was made from, consuming exactly its own bytes.
pub proof fn lemma_varint_round_trip(v: u64, rest: Seq<u8>)
    ensures
        varint_dec(varint_enc(v) + rest) == Some((v, varint_enc(v).len() as int)),
{
    lemma_varint_enc_len(v);
    lemma_varint_round_trip_fuel(v, rest, 10);
}

/// Append the encoding of `v` to `out`.
pub fn write_varint(out: &mut Vec<u8>, v: u64)
    ensures
        final(out)@ == old(out)@ + varint_enc(v),
    decreases v,
{
    if v < 128 {
        out.push(v as u8);
        proof {
            assert(final(out)@ =~= old(out)@ + varint_enc(v));
        }
    } else {
        let b: u8 = ((v % 128) as u8) + 128;
        out.push(b);
        write_varint(out, v / 128);
        proof {
            assert(final(out)@ =~= old(out)@ + varint_enc(v));
        }
    }
}

fn read_varint_rec(buf: &Vec<u8>, pos: usize, fuel: usize) -> (r: Option<(u64, usize)>)
    requires
        pos <= buf.len(),
    ensures
        r is Some ==> {
            let (v, n) = r->Some_0;
            varint_dec_fuel(buf@.skip(pos as int), fuel as nat) == Some((v, n as int))
                && 1 <= n && pos + n <= buf.len()
        },
        r is None ==> varint_dec_fuel(buf@.skip(pos as int), fuel as nat) is None,
    decreases fuel,
{
    if fuel == 0 || pos == buf.len() {
        return None;
    }
    let b = buf[pos];
    if b < 128 {
        Some((b as u64, 1))
    } else {
        proof {
            assert(buf@.skip(pos as int).skip(1) =~= buf@.skip(pos as int + 1));
        }
        match read_varint_rec(buf, pos + 1, fuel - 1) {
            None => None,
            Some((v, n)) => {
                let low = (b - 128) as u64;
                if v <= (0xffff_ffff_ffff_ffffu64 - low) / 128 {
                    proof {
                        assert(128 * (v as int) <= 0xffff_ffff_ffff_ffff - low) by (nonlinear_arith)
                            requires
                                v as int <= (0xffff_ffff_ffff_ffff - low as int) / 128,
                                0 <= low < 128,
                                0 <= v,
                        ;
                    }
                    Some((v * 128 + low, n + 1))
                } else {
                    proof {
                        assert(128 * (v as int) + (low as int) > 0xffff_ffff_ffff_ffff) by (nonlinear_arith)
                            requires
                                v as int > (0xffff_ffff_ffff_ffff - low as int) / 128,
                                0 <= low < 128,
                        ;
                    }
                    None
                }
            },
        }
    }
}

/// Decode one integer at `pos`: the value and the bytes it spanned.
pub fn read_varint(buf: &Vec<u8>, pos: usize) -> (r: Option<(u64, usize)>)
    requires
        pos <= buf.len(),
    ensures
        r is Some ==> {
            let (v, n) = r->Some_0;
            varint_dec(buf@.skip(pos as int)) == Some((v, n as int))
                && 1 <= n && pos + n <= buf.len()
        },
        r is None ==> varint_dec(buf@.skip(pos as int)) is None,
{
    read_varint_rec(buf, pos, 10)
}

} // verus!
