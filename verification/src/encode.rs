//! Exec encoders producing exactly the canonical byte form of `codec`.

use vstd::prelude::*;

use crate::payload::{
    days_items_view, days_scalar_view, fields_view, items_view, DayItems, DayScalar, Field,
    FieldValue, Item, Payload,
};
use crate::codec::{
    dec_digits, enc_body, enc_day_items, enc_day_scalar, enc_days_items, enc_days_items_inner,
    enc_days_scalar, enc_days_scalar_inner, enc_field, enc_field_value, enc_fields, enc_i64,
    enc_item, enc_items, enc_items_inner, enc_payload, enc_str, lit_body_open, lit_day_open,
    lit_value_mid,
};

verus! {

/// Append every byte of `s`.
fn push_bytes(out: &mut Vec<u8>, s: &[u8])
    ensures
        final(out)@ == old(out)@ + s@,
{
    let mut k: usize = 0;
    while k < s.len()
        invariant
            k <= s@.len(),
            out@ == old(out)@ + s@.subrange(0, k as int),
        decreases s@.len() - k,
    {
        out.push(s[k]);
        proof {
            assert(s@.subrange(0, k as int).push(s@[k as int]) =~= s@.subrange(0, k as int + 1));
        }
        k += 1;
    }
    proof {
        assert(s@.subrange(0, s@.len() as int) =~= s@);
    }
}

/// The decimal digits of `n`, most significant first.
fn push_u64_digits(out: &mut Vec<u8>, n: u64)
    ensures
        final(out)@ == old(out)@ + dec_digits(n as nat),
    decreases n,
{
    if n < 10 {
        out.push(0x30 + n as u8);
        proof {
            assert(old(out)@.push((0x30 + n as nat) as u8) =~= old(out)@ + dec_digits(n as nat));
        }
    } else {
        push_u64_digits(out, n / 10);
        out.push(0x30 + (n % 10) as u8);
        proof {
            assert((old(out)@ + dec_digits((n / 10) as nat)).push((0x30 + (n % 10) as nat) as u8)
                =~= old(out)@ + (dec_digits((n / 10) as nat) + seq![(0x30 + (n % 10) as nat) as u8]));
            assert(dec_digits(n as nat) == dec_digits(n as nat / 10) + seq![
                (0x30 + n as nat % 10) as u8,
            ]);
            assert(n as nat / 10 == (n / 10) as nat);
        }
    }
}

/// The canonical decimal form of a signed integer.
fn push_i64(out: &mut Vec<u8>, n: i64)
    ensures
        final(out)@ == old(out)@ + enc_i64(n),
{
    if n >= 0 {
        push_u64_digits(out, n as u64);
    } else {
        out.push(0x2d);
        let m: u64 = ((-(n + 1)) as u64) + 1;
        push_u64_digits(out, m);
        proof {
            assert(m as nat == (-(n as int)) as nat);
            assert(old(out)@.push(0x2du8) + dec_digits(m as nat) =~= old(out)@ + (seq![0x2du8]
                + dec_digits(m as nat)));
        }
    }
}

/// A quoted string carrying `s` verbatim.
fn push_str_enc(out: &mut Vec<u8>, s: &[u8])
    ensures
        final(out)@ == old(out)@ + enc_str(s@),
{
    out.push(0x22);
    push_bytes(out, s);
    out.push(0x22);
    proof {
        assert((old(out)@.push(0x22u8) + s@).push(0x22u8) =~= old(out)@ + enc_str(s@));
    }
}

fn push_field_value(out: &mut Vec<u8>, v: &FieldValue)
    ensures
        final(out)@ == old(out)@ + enc_field_value(v@),
{
    match v {
        FieldValue::Str(s) => push_str_enc(out, s.as_slice()),
        FieldValue::Int(n) => push_i64(out, *n),
    }
}

fn push_field(out: &mut Vec<u8>, f: &Field)
    ensures
        final(out)@ == old(out)@ + enc_field(f@),
{
    push_str_enc(out, f.name.as_slice());
    out.push(0x3a);
    push_field_value(out, &f.value);
    proof {
        assert(((old(out)@ + enc_str(f.name@)).push(0x3au8)) + enc_field_value(f.value@)
            =~= old(out)@ + enc_field(f@));
    }
}

/// The comma-joined encoding of `fs[i..]`.
fn push_fields_from(out: &mut Vec<u8>, fs: &Vec<Field>, i: usize)
    requires
        i < fs@.len(),
    ensures
        final(out)@ == old(out)@ + enc_fields(fields_view(fs@).skip(i as int)),
    decreases fs@.len() - i,
{
    let n = fs.len();
    let ghost g = fields_view(fs@);
    push_field(out, &fs[i]);
    proof {
        assert(g.skip(i as int)[0] == g[i as int]);
        assert(g[i as int] == fs@[i as int]@);
    }
    if i + 1 < n {
        out.push(0x2c);
        push_fields_from(out, fs, i + 1);
        proof {
            assert(g.skip(i as int).drop_first() =~= g.skip(i as int + 1));
            assert(g.skip(i as int).len() >= 2);
            assert(enc_fields(g.skip(i as int)) == enc_field(g[i as int]) + seq![0x2cu8]
                + enc_fields(g.skip(i as int + 1)));
            assert(((old(out)@ + enc_field(g[i as int])).push(0x2cu8)) + enc_fields(
                g.skip(i as int + 1),
            ) =~= old(out)@ + enc_fields(g.skip(i as int)));
        }
    } else {
        proof {
            assert(g.skip(i as int).len() == 1);
            assert(enc_fields(g.skip(i as int)) == enc_field(g[i as int]));
        }
    }
}

fn push_item(out: &mut Vec<u8>, it: &Item)
    ensures
        final(out)@ == old(out)@ + enc_item(it@),
{
    out.push(0x7b);
    if it.fields.len() > 0 {
        push_fields_from(out, &it.fields, 0);
        proof {
            assert(fields_view(it.fields@).skip(0) =~= fields_view(it.fields@));
        }
    } else {
        proof {
            assert(fields_view(it.fields@).len() == 0);
            assert(enc_fields(it@.fields) == Seq::<u8>::empty());
            assert(old(out)@.push(0x7bu8) =~= old(out)@.push(0x7bu8) + enc_fields(it@.fields));
        }
    }
    out.push(0x7d);
    proof {
        assert((old(out)@.push(0x7bu8) + enc_fields(it@.fields)).push(0x7du8) =~= old(out)@ + (
        seq![0x7bu8] + enc_fields(it@.fields) + seq![0x7du8]));
    }
}

/// The comma-joined encoding of `v[i..]`.
fn push_items_from(out: &mut Vec<u8>, v: &Vec<Item>, i: usize)
    requires
        i < v@.len(),
    ensures
        final(out)@ == old(out)@ + enc_items_inner(items_view(v@).skip(i as int)),
    decreases v@.len() - i,
{
    let n = v.len();
    let ghost g = items_view(v@);
    push_item(out, &v[i]);
    proof {
        assert(g.skip(i as int)[0] == g[i as int]);
        assert(g[i as int] == v@[i as int]@);
    }
    if i + 1 < n {
        out.push(0x2c);
        push_items_from(out, v, i + 1);
        proof {
            assert(g.skip(i as int).drop_first() =~= g.skip(i as int + 1));
            assert(g.skip(i as int).len() >= 2);
            assert(enc_items_inner(g.skip(i as int)) == enc_item(g[i as int]) + seq![0x2cu8]
                + enc_items_inner(g.skip(i as int + 1)));
            assert(((old(out)@ + enc_item(g[i as int])).push(0x2cu8)) + enc_items_inner(
                g.skip(i as int + 1),
            ) =~= old(out)@ + enc_items_inner(g.skip(i as int)));
        }
    } else {
        proof {
            assert(g.skip(i as int).len() == 1);
            assert(enc_items_inner(g.skip(i as int)) == enc_item(g[i as int]));
        }
    }
}

fn push_items(out: &mut Vec<u8>, v: &Vec<Item>)
    ensures
        final(out)@ == old(out)@ + enc_items(items_view(v@)),
{
    out.push(0x5b);
    if v.len() > 0 {
        push_items_from(out, v, 0);
        proof {
            assert(items_view(v@).skip(0) =~= items_view(v@));
        }
    } else {
        proof {
            assert(items_view(v@).len() == 0);
            assert(enc_items_inner(items_view(v@)) == Seq::<u8>::empty());
            assert(old(out)@.push(0x5bu8) =~= old(out)@.push(0x5bu8) + enc_items_inner(
                items_view(v@),
            ));
        }
    }
    out.push(0x5d);
    proof {
        assert((old(out)@.push(0x5bu8) + enc_items_inner(items_view(v@))).push(0x5du8)
            =~= old(out)@ + (seq![0x5bu8] + enc_items_inner(items_view(v@)) + seq![0x5du8]));
    }
}

/// `{"day":`
fn push_lit_day_open(out: &mut Vec<u8>)
    ensures
        final(out)@ == old(out)@ + lit_day_open(),
{
    out.push(0x7b);
    out.push(0x22);
    out.push(0x64);
    out.push(0x61);
    out.push(0x79);
    out.push(0x22);
    out.push(0x3a);
    proof {
        assert(out@ =~= old(out)@ + lit_day_open());
    }
}

/// `,"value":`
fn push_lit_value_mid(out: &mut Vec<u8>)
    ensures
        final(out)@ == old(out)@ + lit_value_mid(),
{
    out.push(0x2c);
    out.push(0x22);
    out.push(0x76);
    out.push(0x61);
    out.push(0x6c);
    out.push(0x75);
    out.push(0x65);
    out.push(0x22);
    out.push(0x3a);
    proof {
        assert(out@ =~= old(out)@ + lit_value_mid());
    }
}

/// `{"result":`
fn push_lit_body_open(out: &mut Vec<u8>)
    ensures
        final(out)@ == old(out)@ + lit_body_open(),
{
    out.push(0x7b);
    out.push(0x22);
    out.push(0x72);
    out.push(0x65);
    out.push(0x73);
    out.push(0x75);
    out.push(0x6c);
    out.push(0x74);
    out.push(0x22);
    out.push(0x3a);
    proof {
        assert(out@ =~= old(out)@ + lit_body_open());
    }
}

fn push_day_scalar(out: &mut Vec<u8>, d: &DayScalar)
    ensures
        final(out)@ == old(out)@ + enc_day_scalar(d@),
{
    push_lit_day_open(out);
    push_str_enc(out, d.day.as_slice());
    push_lit_value_mid(out);
    push_i64(out, d.value);
    out.push(0x7d);
    proof {
        assert((old(out)@ + lit_day_open() + enc_str(d.day@) + lit_value_mid() + enc_i64(d.value))
            .push(0x7du8) =~= old(out)@ + enc_day_scalar(d@));
    }
}

fn push_day_items(out: &mut Vec<u8>, d: &DayItems)
    ensures
        final(out)@ == old(out)@ + enc_day_items(d@),
{
    push_lit_day_open(out);
    push_str_enc(out, d.day.as_slice());
    push_lit_value_mid(out);
    push_items(out, &d.items);
    out.push(0x7d);
    proof {
        assert((old(out)@ + lit_day_open() + enc_str(d.day@) + lit_value_mid() + enc_items(
            items_view(d.items@),
        )).push(0x7du8) =~= old(out)@ + enc_day_items(d@));
    }
}

/// The comma-joined encoding of `v[i..]`.
fn push_days_scalar_from(out: &mut Vec<u8>, v: &Vec<DayScalar>, i: usize)
    requires
        i < v@.len(),
    ensures
        final(out)@ == old(out)@ + enc_days_scalar_inner(days_scalar_view(v@).skip(i as int)),
    decreases v@.len() - i,
{
    let n = v.len();
    let ghost g = days_scalar_view(v@);
    push_day_scalar(out, &v[i]);
    proof {
        assert(g.skip(i as int)[0] == g[i as int]);
        assert(g[i as int] == v@[i as int]@);
    }
    if i + 1 < n {
        out.push(0x2c);
        push_days_scalar_from(out, v, i + 1);
        proof {
            assert(g.skip(i as int).drop_first() =~= g.skip(i as int + 1));
            assert(g.skip(i as int).len() >= 2);
            assert(enc_days_scalar_inner(g.skip(i as int)) == enc_day_scalar(g[i as int]) + seq![
                0x2cu8,
            ] + enc_days_scalar_inner(g.skip(i as int + 1)));
            assert(((old(out)@ + enc_day_scalar(g[i as int])).push(0x2cu8))
                + enc_days_scalar_inner(g.skip(i as int + 1)) =~= old(out)@
                + enc_days_scalar_inner(g.skip(i as int)));
        }
    } else {
        proof {
            assert(g.skip(i as int).len() == 1);
            assert(enc_days_scalar_inner(g.skip(i as int)) == enc_day_scalar(g[i as int]));
        }
    }
}

fn push_days_scalar(out: &mut Vec<u8>, v: &Vec<DayScalar>)
    ensures
        final(out)@ == old(out)@ + enc_days_scalar(days_scalar_view(v@)),
{
    out.push(0x5b);
    if v.len() > 0 {
        push_days_scalar_from(out, v, 0);
        proof {
            assert(days_scalar_view(v@).skip(0) =~= days_scalar_view(v@));
        }
    } else {
        proof {
            assert(days_scalar_view(v@).len() == 0);
            assert(enc_days_scalar_inner(days_scalar_view(v@)) == Seq::<u8>::empty());
            assert(old(out)@.push(0x5bu8) =~= old(out)@.push(0x5bu8) + enc_days_scalar_inner(
                days_scalar_view(v@),
            ));
        }
    }
    out.push(0x5d);
    proof {
        assert((old(out)@.push(0x5bu8) + enc_days_scalar_inner(days_scalar_view(v@))).push(0x5du8)
            =~= old(out)@ + (seq![0x5bu8] + enc_days_scalar_inner(days_scalar_view(v@)) + seq![
            0x5du8,
        ]));
    }
}

/// The comma-joined encoding of `v[i..]`.
fn push_days_items_from(out: &mut Vec<u8>, v: &Vec<DayItems>, i: usize)
    requires
        i < v@.len(),
    ensures
        final(out)@ == old(out)@ + enc_days_items_inner(days_items_view(v@).skip(i as int)),
    decreases v@.len() - i,
{
    let n = v.len();
    let ghost g = days_items_view(v@);
    push_day_items(out, &v[i]);
    proof {
        assert(g.skip(i as int)[0] == g[i as int]);
        assert(g[i as int] == v@[i as int]@);
    }
    if i + 1 < n {
        out.push(0x2c);
        push_days_items_from(out, v, i + 1);
        proof {
            assert(g.skip(i as int).drop_first() =~= g.skip(i as int + 1));
            assert(g.skip(i as int).len() >= 2);
            assert(enc_days_items_inner(g.skip(i as int)) == enc_day_items(g[i as int]) + seq![
                0x2cu8,
            ] + enc_days_items_inner(g.skip(i as int + 1)));
            assert(((old(out)@ + enc_day_items(g[i as int])).push(0x2cu8)) + enc_days_items_inner(
                g.skip(i as int + 1),
            ) =~= old(out)@ + enc_days_items_inner(g.skip(i as int)));
        }
    } else {
        proof {
            assert(g.skip(i as int).len() == 1);
            assert(enc_days_items_inner(g.skip(i as int)) == enc_day_items(g[i as int]));
        }
    }
}

fn push_days_items(out: &mut Vec<u8>, v: &Vec<DayItems>)
    ensures
        final(out)@ == old(out)@ + enc_days_items(days_items_view(v@)),
{
    out.push(0x5b);
    if v.len() > 0 {
        push_days_items_from(out, v, 0);
        proof {
            assert(days_items_view(v@).skip(0) =~= days_items_view(v@));
        }
    } else {
        proof {
            assert(days_items_view(v@).len() == 0);
            assert(enc_days_items_inner(days_items_view(v@)) == Seq::<u8>::empty());
            assert(old(out)@.push(0x5bu8) =~= old(out)@.push(0x5bu8) + enc_days_items_inner(
                days_items_view(v@),
            ));
        }
    }
    out.push(0x5d);
    proof {
        assert((old(out)@.push(0x5bu8) + enc_days_items_inner(days_items_view(v@))).push(0x5du8)
            =~= old(out)@ + (seq![0x5bu8] + enc_days_items_inner(days_items_view(v@)) + seq![
            0x5du8,
        ]));
    }
}

/// The canonical analytics body `{"result":P}` for a payload.
pub fn encode_body(p: &Payload) -> (r: Vec<u8>)
    ensures
        r@ == enc_body(p@),
{
    let mut out: Vec<u8> = Vec::new();
    push_lit_body_open(&mut out);
    match p {
        Payload::Scalar(n) => push_i64(&mut out, *n),
        Payload::Items(v) => push_items(&mut out, v),
        Payload::DaysScalar(v) => push_days_scalar(&mut out, v),
        Payload::DaysItems(v) => push_days_items(&mut out, v),
    }
    out.push(0x7d);
    proof {
        assert(out@ =~= lit_body_open() + enc_payload(p@) + seq![0x7du8]);
    }
    out
}

} // verus!
