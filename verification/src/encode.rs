//! The Encoder: serializes counted words as a JSON body
//! `{"counts":{ word: count, ... }}`.
//!
//! The emitted bytes are pinned exactly by [`counts_body`]: entries appear
//! in the order of the pair list handed in, each key as a JSON string with
//! the quote, backslash and control bytes escaped, each count in decimal.

use vstd::prelude::*;

verus! {

/// One lowercase hexadecimal digit byte.
pub open spec fn hex_digit(v: int) -> u8 {
    if v < 10 {
        (0x30 + v) as u8
    } else {
        (0x61 + (v - 10)) as u8
    }
}

/// The JSON string encoding of one byte of a word: quote and backslash get
/// a backslash escape, the named control bytes their short escapes, other
/// control bytes a `\u00xx` escape, and every other byte stands as itself.
pub open spec fn esc_seq(b: u8) -> Seq<u8> {
    if b == 0x22 {
        seq![0x5cu8, 0x22]
    } else if b == 0x5c {
        seq![0x5cu8, 0x5c]
    } else if b == 0x08 {
        seq![0x5cu8, 0x62]
    } else if b == 0x09 {
        seq![0x5cu8, 0x74]
    } else if b == 0x0a {
        seq![0x5cu8, 0x6e]
    } else if b == 0x0c {
        seq![0x5cu8, 0x66]
    } else if b == 0x0d {
        seq![0x5cu8, 0x72]
    } else if b < 0x20 {
        seq![0x5cu8, 0x75, 0x30, 0x30, hex_digit(b as int / 16), hex_digit(b as int % 16)]
    } else {
        seq![b]
    }
}

/// The JSON string encoding of a whole word, escape by escape.
pub open spec fn escaped(w: Seq<u8>) -> Seq<u8>
    decreases w.len(),
{
    if w.len() == 0 {
        Seq::empty()
    } else {
        escaped(w.drop_last()) + esc_seq(w.last())
    }
}

/// The decimal digits of `v`, most significant first.
pub open spec fn dec_digits(v: nat) -> Seq<u8>
    decreases v,
{
    if v < 10 {
        seq![(0x30 + v) as u8]
    } else {
        dec_digits(v / 10) + seq![(0x30 + v % 10) as u8]
    }
}

/// One encoded entry: `"key":count`.
pub open spec fn enc_entry(p: (Seq<u8>, u64)) -> Seq<u8> {
    seq![0x22u8] + escaped(p.0) + seq![0x22u8, 0x3a] + dec_digits(p.1 as nat)
}

/// The encoded entries, joined with commas, in the order of the list.
pub open spec fn enc_entries(ps: Seq<(Seq<u8>, u64)>) -> Seq<u8>
    decreases ps.len(),
{
    if ps.len() == 0 {
        Seq::empty()
    } else if ps.len() == 1 {
        enc_entry(ps[0])
    } else {
        enc_entries(ps.drop_last()) + seq![0x2cu8] + enc_entry(ps.last())
    }
}

/// The bytes of `{"counts":{`.
pub open spec fn counts_open() -> Seq<u8> {
    seq![0x7bu8, 0x22, 0x63, 0x6f, 0x75, 0x6e, 0x74, 0x73, 0x22, 0x3a, 0x7b]
}

/// The whole encoded body: `{"counts":{` entries `}}`.
pub open spec fn counts_body(ps: Seq<(Seq<u8>, u64)>) -> Seq<u8> {
    counts_open() + enc_entries(ps) + seq![0x7du8, 0x7d]
}

/// The views of a pair list.
pub open spec fn pairs_view(ps: Seq<(Vec<u8>, u64)>) -> Seq<(Seq<u8>, u64)> {
    ps.map_values(|p: (Vec<u8>, u64)| (p.0@, p.1))
}

/// Append the JSON string encoding of `w` to `out`.
fn push_escaped(out: &mut Vec<u8>, w: &Vec<u8>)
    ensures
        final(out)@ == old(out)@ + escaped(w@),
{
    let n = w.len();
    let mut i: usize = 0;
    proof {
        assert(w@.take(0) =~= Seq::<u8>::empty());
        assert(out@ =~= out@ + escaped(w@.take(0)));
    }
    while i < n
        invariant
            i <= n == w@.len(),
            out@ == old(out)@ + escaped(w@.take(i as int)),
        decreases n - i,
    {
        let b = w[i];
        if b == 0x22 {
            out.push(0x5c);
            out.push(0x22);
        } else if b == 0x5c {
            out.push(0x5c);
            out.push(0x5c);
        } else if b == 0x08 {
            out.push(0x5c);
            out.push(0x62);
        } else if b == 0x09 {
            out.push(0x5c);
            out.push(0x74);
        } else if b == 0x0a {
            out.push(0x5c);
            out.push(0x6e);
        } else if b == 0x0c {
            out.push(0x5c);
            out.push(0x66);
        } else if b == 0x0d {
            out.push(0x5c);
            out.push(0x72);
        } else if b < 0x20 {
            out.push(0x5c);
            out.push(0x75);
            out.push(0x30);
            out.push(0x30);
            out.push(if b / 16 < 10 {
                0x30 + b / 16
            } else {
                0x61 + (b / 16 - 10)
            });
            out.push(if b % 16 < 10 {
                0x30 + b % 16
            } else {
                0x61 + (b % 16 - 10)
            });
        } else {
            out.push(b);
        }
        proof {
            assert(w@.take(i + 1).drop_last() =~= w@.take(i as int));
            assert(w@.take(i + 1).last() == w@[i as int]);
            assert(out@ =~= old(out)@ + escaped(w@.take(i + 1)));
        }
        i = i + 1;
    }
    proof {
        assert(w@.take(n as int) =~= w@);
    }
}

/// Append the decimal digits of `v` to `out`.
fn push_decimal(out: &mut Vec<u8>, v: u64)
    ensures
        final(out)@ == old(out)@ + dec_digits(v as nat),
    decreases v,
{
    if v < 10 {
        out.push(0x30 + v as u8);
        proof {
            assert(final(out)@ =~= old(out)@ + dec_digits(v as nat));
        }
    } else {
        push_decimal(out, v / 10);
        out.push(0x30 + (v % 10) as u8);
        proof {
            assert(final(out)@ =~= old(out)@ + dec_digits(v as nat));
        }
    }
}

/// Encode counted words as the response body `{"counts":{...}}`, entries in
/// the order of the list.
pub fn encode_counts(pairs: &Vec<(Vec<u8>, u64)>) -> (r: Vec<u8>)
    ensures
        r@ == counts_body(pairs_view(pairs@)),
{
    let ghost pv = pairs_view(pairs@);
    let mut out: Vec<u8> = Vec::new();
    out.push(0x7b);
    out.push(0x22);
    out.push(0x63);
    out.push(0x6f);
    out.push(0x75);
    out.push(0x6e);
    out.push(0x74);
    out.push(0x73);
    out.push(0x22);
    out.push(0x3a);
    out.push(0x7b);
    proof {
        assert(out@ =~= counts_open());
        assert(pv.take(0) =~= Seq::<(Seq<u8>, u64)>::empty());
        assert(out@ =~= counts_open() + enc_entries(pv.take(0)));
    }
    let n = pairs.len();
    let mut i: usize = 0;
    while i < n
        invariant
            i <= n == pairs@.len(),
            pv == pairs_view(pairs@),
            out@ == counts_open() + enc_entries(pv.take(i as int)),
        decreases n - i,
    {
        if i > 0 {
            out.push(0x2c);
        }
        out.push(0x22);
        push_escaped(&mut out, &pairs[i].0);
        out.push(0x22);
        out.push(0x3a);
        push_decimal(&mut out, pairs[i].1);
        proof {
            assert(pv[i as int] == (pairs@[i as int].0@, pairs@[i as int].1));
            assert(pv.take(i + 1).drop_last() =~= pv.take(i as int));
            assert(pv.take(i + 1).last() == pv[i as int]);
            if i == 0 {
                assert(enc_entries(pv.take(1)) == enc_entry(pv[0]));
            }
            assert(out@ =~= counts_open() + enc_entries(pv.take(i + 1)));
        }
        i = i + 1;
    }
    out.push(0x7d);
    out.push(0x7d);
    proof {
        assert(pv.take(n as int) =~= pv);
        assert(out@ =~= counts_body(pv));
    }
    out
}

} // verus!
