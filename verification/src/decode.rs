//! Exec parsers for the canonical byte form of `codec`.
//!
//! Every parser returns exactly what the spec parser `sp_*` says for its
//! input, so the public entry points `decode_body` and `decode_error` carry
//! both directions: whatever they accept is the meaning the grammar assigns
//! to the bytes, and every well-formed encoded value is accepted and
//! recovered unchanged.

use vstd::prelude::*;

use crate::payload::{
    bytes_wf, fields_view, items_view, days_scalar_view, days_items_view, payload_wf, shape_of,
    DayItems, DayScalar, Field, FieldValue, Item, Payload, PayloadV,
};
use crate::errors::{KeenError, KeenErrorV};
use crate::codec::{
    enc_body, enc_error, is_digit, lit_body_open, lit_code_mid, lit_day_open, lit_msg_open,
    lit_value_mid, range_wf, sp_body, sp_day_items, sp_day_scalar, sp_days_items,
    sp_days_items_inner, sp_days_scalar, sp_days_scalar_inner, sp_error, sp_field,
    sp_field_value, sp_fields, sp_int, sp_item, sp_items, sp_items_inner, sp_lit, sp_string,
    digits_val,
};
use crate::codec_proofs::{
    lemma_body_complete, lemma_body_sound, lemma_error_complete, lemma_error_sound,
    lemma_run_end, lemma_sp_body_wf, lemma_sp_error_wf, lemma_str_end_at,
};
use crate::ResultType;

verus! {

/// Canonical signed decimal integer at `i`.
fn parse_int(s: &[u8], i: usize) -> (r: Option<(i64, usize)>)
    requires
        i <= s@.len(),
    ensures
        match r {
            Some((n, j)) => sp_int(s@, i as int) == Some((n, j as int)) && j <= s@.len(),
            None => sp_int(s@, i as int) is None,
        },
{
    if i >= s.len() {
        return None;
    }
    let neg = s[i] == 0x2d;
    let k: usize = if neg { i + 1 } else { i };
    let mut e: usize = k;
    while e < s.len() && 0x30 <= s[e] && s[e] <= 0x39
        invariant
            k <= e <= s@.len(),
            forall|t: int| k <= t < e ==> is_digit(#[trigger] s@[t]),
        decreases s@.len() - e,
    {
        e += 1;
    }
    proof {
        lemma_run_end(s@, k as int, e as int);
    }
    if e <= k {
        return None;
    }
    if s[k] == 0x30 && e > k + 1 {
        return None;
    }
    let mut v: u64 = 0;
    let mut t: usize = k;
    let mut over = false;
    while t < e
        invariant
            k <= t <= e,
            e <= s@.len(),
            forall|q: int| k <= q < e ==> is_digit(#[trigger] s@[q]),
            !over ==> v as nat == digits_val(s@, k as int, t as int),
            over ==> digits_val(s@, k as int, t as int) > u64::MAX,
        decreases e - t,
    {
        let d: u64 = (s[t] - 0x30) as u64;
        proof {
            assert(is_digit(s@[t as int]));
            assert(digits_val(s@, k as int, t as int + 1) == digits_val(s@, k as int, t as int)
                * 10 + d as nat);
        }
        if !over {
            match v.checked_mul(10) {
                Some(x) => {
                    match x.checked_add(d) {
                        Some(y) => {
                            v = y;
                        },
                        None => {
                            over = true;
                        },
                    }
                },
                None => {
                    over = true;
                },
            }
        } else {
            proof {
                assert(digits_val(s@, k as int, t as int) * 10 >= digits_val(
                    s@,
                    k as int,
                    t as int,
                ));
            }
        }
        t += 1;
    }
    if over {
        proof {
            assert(digits_val(s@, k as int, e as int) > 0x8000_0000_0000_0000nat);
        }
        return None;
    }
    if neg {
        if 1 <= v && v <= 0x8000_0000_0000_0000u64 {
            let n: i64 = if v == 0x8000_0000_0000_0000u64 {
                i64::MIN
            } else {
                0 - (v as i64)
            };
            Some((n, e))
        } else {
            None
        }
    } else {
        if v <= 0x7fff_ffff_ffff_ffffu64 {
            Some((v as i64, e))
        } else {
            None
        }
    }
}

/// Quoted string at `i`; the contents are handed back verbatim.
#[verifier::loop_isolation(false)]
fn parse_string(s: &[u8], i: usize) -> (r: Option<(Vec<u8>, usize)>)
    requires
        i <= s@.len(),
    ensures
        match r {
            Some((c, j)) => sp_string(s@, i as int) == Some((c@, j as int)) && j <= s@.len(),
            None => sp_string(s@, i as int) is None,
        },
{
    if i >= s.len() || s[i] != 0x22 {
        return None;
    }
    let mut e: usize = i + 1;
    while e < s.len() && s[e] != 0x22
        invariant
            i + 1 <= e <= s@.len(),
            forall|t: int| i + 1 <= t < e ==> #[trigger] s@[t] != 0x22,
        decreases s@.len() - e,
    {
        e += 1;
    }
    proof {
        lemma_str_end_at(s@, i as int + 1, e as int);
    }
    if e >= s.len() {
        return None;
    }
    let mut c: Vec<u8> = Vec::new();
    let mut t: usize = i + 1;
    while t < e
        invariant
            i + 1 <= t <= e,
            e < s@.len(),
            c@ == s@.subrange(i as int + 1, t as int),
            range_wf(s@, i as int + 1, t as int),
            forall|q: int| i + 1 <= q < e ==> #[trigger] s@[q] != 0x22,
        decreases e - t,
    {
        let b = s[t];
        if b < 0x20 || b == 0x5c {
            proof {
                assert(!(0x20 <= s@[t as int] && s@[t as int] != 0x22 && s@[t as int] != 0x5c));
                assert(!range_wf(s@, i as int + 1, e as int));
            }
            return None;
        }
        c.push(b);
        proof {
            assert(s@.subrange(i as int + 1, t as int).push(s@[t as int]) =~= s@.subrange(
                i as int + 1,
                t as int + 1,
            ));
        }
        t += 1;
    }
    Some((c, e + 1))
}

/// Fixed byte sequence `lit` at `i`.
fn expect_lit(s: &[u8], i: usize, lit: &Vec<u8>) -> (r: Option<usize>)
    requires
        i <= s@.len(),
    ensures
        match r {
            Some(j) => sp_lit(s@, i as int, lit@) == Some(j as int) && j == i + lit@.len() && j
                <= s@.len(),
            None => sp_lit(s@, i as int, lit@) is None,
        },
{
    let slen = s.len();
    if slen - i < lit.len() {
        return None;
    }
    let mut k: usize = 0;
    while k < lit.len()
        invariant
            k <= lit@.len(),
            i + lit@.len() <= slen,
            slen == s@.len(),
            forall|t: int| 0 <= t < k ==> s@[i + t] == lit@[t],
        decreases lit@.len() - k,
    {
        if s[i + k] != lit[k] {
            proof {
                assert(s@.subrange(i as int, i as int + lit@.len())[k as int] == s@[i as int
                    + k]);
            }
            return None;
        }
        k += 1;
    }
    proof {
        assert forall|t: int| 0 <= t < lit@.len() implies s@.subrange(
            i as int,
            i as int + lit@.len(),
        )[t] == lit@[t] by {
            assert(s@[i + t] == lit@[t]);
        }
        assert(s@.subrange(i as int, i as int + lit@.len()) =~= lit@);
    }
    Some(i + lit.len())
}

fn lit_day_open_vec() -> (r: Vec<u8>)
    ensures
        r@ == lit_day_open(),
{
    let mut v: Vec<u8> = Vec::new();
    v.push(0x7b);
    v.push(0x22);
    v.push(0x64);
    v.push(0x61);
    v.push(0x79);
    v.push(0x22);
    v.push(0x3a);
    proof {
        assert(v@ =~= lit_day_open());
    }
    v
}

fn lit_value_mid_vec() -> (r: Vec<u8>)
    ensures
        r@ == lit_value_mid(),
{
    let mut v: Vec<u8> = Vec::new();
    v.push(0x2c);
    v.push(0x22);
    v.push(0x76);
    v.push(0x61);
    v.push(0x6c);
    v.push(0x75);
    v.push(0x65);
    v.push(0x22);
    v.push(0x3a);
    proof {
        assert(v@ =~= lit_value_mid());
    }
    v
}

fn lit_body_open_vec() -> (r: Vec<u8>)
    ensures
        r@ == lit_body_open(),
{
    let mut v: Vec<u8> = Vec::new();
    v.push(0x7b);
    v.push(0x22);
    v.push(0x72);
    v.push(0x65);
    v.push(0x73);
    v.push(0x75);
    v.push(0x6c);
    v.push(0x74);
    v.push(0x22);
    v.push(0x3a);
    proof {
        assert(v@ =~= lit_body_open());
    }
    v
}

fn lit_msg_open_vec() -> (r: Vec<u8>)
    ensures
        r@ == lit_msg_open(),
{
    let mut v: Vec<u8> = Vec::new();
    v.push(0x7b);
    v.push(0x22);
    v.push(0x6d);
    v.push(0x65);
    v.push(0x73);
    v.push(0x73);
    v.push(0x61);
    v.push(0x67);
    v.push(0x65);
    v.push(0x22);
    v.push(0x3a);
    proof {
        assert(v@ =~= lit_msg_open());
    }
    v
}

fn lit_code_mid_vec() -> (r: Vec<u8>)
    ensures
        r@ == lit_code_mid(),
{
    let mut v: Vec<u8> = Vec::new();
    v.push(0x2c);
    v.push(0x22);
    v.push(0x65);
    v.push(0x72);
    v.push(0x72);
    v.push(0x6f);
    v.push(0x72);
    v.push(0x5f);
    v.push(0x63);
    v.push(0x6f);
    v.push(0x64);
    v.push(0x65);
    v.push(0x22);
    v.push(0x3a);
    proof {
        assert(v@ =~= lit_code_mid());
    }
    v
}

/// `"name":value` at `i`.
fn parse_field(s: &[u8], i: usize) -> (r: Option<(Field, usize)>)
    requires
        i <= s@.len(),
    ensures
        match r {
            Some((f, j)) => sp_field(s@, i as int) == Some((f@, j as int)) && j <= s@.len(),
            None => sp_field(s@, i as int) is None,
        },
{
    let (name, j) = match parse_string(s, i) {
        Some(p) => p,
        None => {
            return None;
        },
    };
    if !(j < s.len() && s[j] == 0x3a) {
        return None;
    }
    if j + 1 >= s.len() {
        proof {
            assert(sp_field_value(s@, j as int + 1) is None);
        }
        return None;
    }
    if s[j + 1] == 0x22 {
        match parse_string(s, j + 1) {
            Some((c, e)) => Some((Field { name, value: FieldValue::Str(c) }, e)),
            None => None,
        }
    } else {
        match parse_int(s, j + 1) {
            Some((n, e)) => Some((Field { name, value: FieldValue::Int(n) }, e)),
            None => None,
        }
    }
}

/// Non-empty comma-joined field list; stops at the closing brace.
fn parse_fields(s: &[u8], i: usize) -> (r: Option<(Vec<Field>, usize)>)
    requires
        i <= s@.len(),
    ensures
        match r {
            Some((fs, j)) => sp_fields(s@, i as int) == Some((fields_view(fs@), j as int)) && j
                < s@.len(),
            None => sp_fields(s@, i as int) is None,
        },
    decreases s@.len() - i,
{
    let (f, j) = match parse_field(s, i) {
        Some(p) => p,
        None => {
            return None;
        },
    };
    if j <= i {
        return None;
    }
    let ghost fv = f@;
    if j < s.len() && s[j] == 0x2c {
        match parse_fields(s, j + 1) {
            Some((mut fs, e)) => {
                let ghost rest = fields_view(fs@);
                let ghost srcv = fs@;
                let mut out: Vec<Field> = Vec::new();
                out.push(f);
                out.append(&mut fs);
                proof {
                    assert(out@ =~= seq![f] + srcv);
                    assert forall|q: int| 0 <= q < out@.len() implies fields_view(out@)[q] == (
                    seq![fv] + rest)[q] by {
                        if q == 0 {
                            assert(out@[q] == f);
                        } else {
                            assert(out@[q] == srcv[q - 1]);
                        }
                    }
                    assert(fields_view(out@) =~= seq![fv] + rest);
                }
                Some((out, e))
            },
            None => None,
        }
    } else if j < s.len() && s[j] == 0x7d {
        let mut out: Vec<Field> = Vec::new();
        out.push(f);
        proof {
            assert(fields_view(out@) =~= seq![fv]);
        }
        Some((out, j))
    } else {
        None
    }
}

/// One item at `i`.
fn parse_item(s: &[u8], i: usize) -> (r: Option<(Item, usize)>)
    requires
        i <= s@.len(),
    ensures
        match r {
            Some((it, j)) => sp_item(s@, i as int) == Some((it@, j as int)) && j <= s@.len(),
            None => sp_item(s@, i as int) is None,
        },
{
    if i >= s.len() || s[i] != 0x7b {
        return None;
    }
    if i + 1 < s.len() && s[i + 1] == 0x7d {
        let it = Item { fields: Vec::new() };
        proof {
            assert(it@.fields =~= Seq::<crate::payload::FieldV>::empty());
        }
        return Some((it, i + 2));
    }
    match parse_fields(s, i + 1) {
        Some((fs, j)) => Some((Item { fields: fs }, j + 1)),
        None => None,
    }
}

/// Non-empty comma-joined item list; stops at the closing bracket.
fn parse_items_inner(s: &[u8], i: usize) -> (r: Option<(Vec<Item>, usize)>)
    requires
        i <= s@.len(),
    ensures
        match r {
            Some((v, j)) => sp_items_inner(s@, i as int) == Some((items_view(v@), j as int))
                && j < s@.len(),
            None => sp_items_inner(s@, i as int) is None,
        },
    decreases s@.len() - i,
{
    let (it, j) = match parse_item(s, i) {
        Some(p) => p,
        None => {
            return None;
        },
    };
    if j <= i {
        return None;
    }
    let ghost iv = it@;
    if j < s.len() && s[j] == 0x2c {
        match parse_items_inner(s, j + 1) {
            Some((mut v, e)) => {
                let ghost rest = items_view(v@);
                let ghost srcv = v@;
                let mut out: Vec<Item> = Vec::new();
                out.push(it);
                out.append(&mut v);
                proof {
                    assert(out@ =~= seq![it] + srcv);
                    assert forall|q: int| 0 <= q < out@.len() implies items_view(out@)[q] == (
                    seq![iv] + rest)[q] by {
                        if q == 0 {
                            assert(out@[q] == it);
                        } else {
                            assert(out@[q] == srcv[q - 1]);
                        }
                    }
                    assert(items_view(out@) =~= seq![iv] + rest);
                }
                Some((out, e))
            },
            None => None,
        }
    } else if j < s.len() && s[j] == 0x5d {
        let mut out: Vec<Item> = Vec::new();
        out.push(it);
        proof {
            assert(items_view(out@) =~= seq![iv]);
        }
        Some((out, j))
    } else {
        None
    }
}

/// `[...]` of items at `i`.
fn parse_items(s: &[u8], i: usize) -> (r: Option<(Vec<Item>, usize)>)
    requires
        i <= s@.len(),
    ensures
        match r {
            Some((v, j)) => sp_items(s@, i as int) == Some((items_view(v@), j as int)) && j
                <= s@.len(),
            None => sp_items(s@, i as int) is None,
        },
{
    if i >= s.len() || s[i] != 0x5b {
        return None;
    }
    if i + 1 < s.len() && s[i + 1] == 0x5d {
        let v: Vec<Item> = Vec::new();
        proof {
            assert(items_view(v@) =~= Seq::<crate::payload::ItemV>::empty());
        }
        return Some((v, i + 2));
    }
    match parse_items_inner(s, i + 1) {
        Some((v, j)) => Some((v, j + 1)),
        None => None,
    }
}

/// `{"day":"D","value":V}` with a scalar value.
fn parse_day_scalar(s: &[u8], i: usize) -> (r: Option<(DayScalar, usize)>)
    requires
        i <= s@.len(),
    ensures
        match r {
            Some((d, j)) => sp_day_scalar(s@, i as int) == Some((d@, j as int)) && j
                <= s@.len(),
            None => sp_day_scalar(s@, i as int) is None,
        },
{
    let lit = lit_day_open_vec();
    let j = match expect_lit(s, i, &lit) {
        Some(j) => j,
        None => {
            return None;
        },
    };
    let (day, k) = match parse_string(s, j) {
        Some(p) => p,
        None => {
            return None;
        },
    };
    let lit2 = lit_value_mid_vec();
    let m = match expect_lit(s, k, &lit2) {
        Some(m) => m,
        None => {
            return None;
        },
    };
    let (n, e) = match parse_int(s, m) {
        Some(p) => p,
        None => {
            return None;
        },
    };
    if e < s.len() && s[e] == 0x7d {
        Some((DayScalar { day, value: n }, e + 1))
    } else {
        None
    }
}

/// Non-empty comma-joined scalar day list; stops at the closing bracket.
fn parse_days_scalar_inner(s: &[u8], i: usize) -> (r: Option<(Vec<DayScalar>, usize)>)
    requires
        i <= s@.len(),
    ensures
        match r {
            Some((v, j)) => sp_days_scalar_inner(s@, i as int) == Some(
                (days_scalar_view(v@), j as int),
            ) && j < s@.len(),
            None => sp_days_scalar_inner(s@, i as int) is None,
        },
    decreases s@.len() - i,
{
    let (d, j) = match parse_day_scalar(s, i) {
        Some(p) => p,
        None => {
            return None;
        },
    };
    if j <= i {
        return None;
    }
    let ghost dv = d@;
    if j < s.len() && s[j] == 0x2c {
        match parse_days_scalar_inner(s, j + 1) {
            Some((mut v, e)) => {
                let ghost rest = days_scalar_view(v@);
                let ghost srcv = v@;
                let mut out: Vec<DayScalar> = Vec::new();
                out.push(d);
                out.append(&mut v);
                proof {
                    assert(out@ =~= seq![d] + srcv);
                    assert forall|q: int| 0 <= q < out@.len() implies days_scalar_view(out@)[q] == (
                    seq![dv] + rest)[q] by {
                        if q == 0 {
                            assert(out@[q] == d);
                        } else {
                            assert(out@[q] == srcv[q - 1]);
                        }
                    }
                    assert(days_scalar_view(out@) =~= seq![dv] + rest);
                }
                Some((out, e))
            },
            None => None,
        }
    } else if j < s.len() && s[j] == 0x5d {
        let mut out: Vec<DayScalar> = Vec::new();
        out.push(d);
        proof {
            assert(days_scalar_view(out@) =~= seq![dv]);
        }
        Some((out, j))
    } else {
        None
    }
}

/// `[...]` of scalar day buckets at `i`.
fn parse_days_scalar(s: &[u8], i: usize) -> (r: Option<(Vec<DayScalar>, usize)>)
    requires
        i <= s@.len(),
    ensures
        match r {
            Some((v, j)) => sp_days_scalar(s@, i as int) == Some(
                (days_scalar_view(v@), j as int),
            ) && j <= s@.len(),
            None => sp_days_scalar(s@, i as int) is None,
        },
{
    if i >= s.len() || s[i] != 0x5b {
        return None;
    }
    if i + 1 < s.len() && s[i + 1] == 0x5d {
        let v: Vec<DayScalar> = Vec::new();
        proof {
            assert(days_scalar_view(v@) =~= Seq::<crate::payload::DayScalarV>::empty());
        }
        return Some((v, i + 2));
    }
    match parse_days_scalar_inner(s, i + 1) {
        Some((v, j)) => Some((v, j + 1)),
        None => None,
    }
}

/// `{"day":"D","value":V}` with an item-list value.
fn parse_day_items(s: &[u8], i: usize) -> (r: Option<(DayItems, usize)>)
    requires
        i <= s@.len(),
    ensures
        match r {
            Some((d, j)) => sp_day_items(s@, i as int) == Some((d@, j as int)) && j
                <= s@.len(),
            None => sp_day_items(s@, i as int) is None,
        },
{
    let lit = lit_day_open_vec();
    let j = match expect_lit(s, i, &lit) {
        Some(j) => j,
        None => {
            return None;
        },
    };
    let (day, k) = match parse_string(s, j) {
        Some(p) => p,
        None => {
            return None;
        },
    };
    let lit2 = lit_value_mid_vec();
    let m = match expect_lit(s, k, &lit2) {
        Some(m) => m,
        None => {
            return None;
        },
    };
    let (v, e) = match parse_items(s, m) {
        Some(p) => p,
        None => {
            return None;
        },
    };
    if e < s.len() && s[e] == 0x7d {
        Some((DayItems { day, items: v }, e + 1))
    } else {
        None
    }
}

/// Non-empty comma-joined item-list day list; stops at the closing bracket.
fn parse_days_items_inner(s: &[u8], i: usize) -> (r: Option<(Vec<DayItems>, usize)>)
    requires
        i <= s@.len(),
    ensures
        match r {
            Some((v, j)) => sp_days_items_inner(s@, i as int) == Some(
                (days_items_view(v@), j as int),
            ) && j < s@.len(),
            None => sp_days_items_inner(s@, i as int) is None,
        },
    decreases s@.len() - i,
{
    let (d, j) = match parse_day_items(s, i) {
        Some(p) => p,
        None => {
            return None;
        },
    };
    if j <= i {
        return None;
    }
    let ghost dv = d@;
    if j < s.len() && s[j] == 0x2c {
        match parse_days_items_inner(s, j + 1) {
            Some((mut v, e)) => {
                let ghost rest = days_items_view(v@);
                let ghost srcv = v@;
                let mut out: Vec<DayItems> = Vec::new();
                out.push(d);
                out.append(&mut v);
                proof {
                    assert(out@ =~= seq![d] + srcv);
                    assert forall|q: int| 0 <= q < out@.len() implies days_items_view(out@)[q] == (
                    seq![dv] + rest)[q] by {
                        if q == 0 {
                            assert(out@[q] == d);
                        } else {
                            assert(out@[q] == srcv[q - 1]);
                        }
                    }
                    assert(days_items_view(out@) =~= seq![dv] + rest);
                }
                Some((out, e))
            },
            None => None,
        }
    } else if j < s.len() && s[j] == 0x5d {
        let mut out: Vec<DayItems> = Vec::new();
        out.push(d);
        proof {
            assert(days_items_view(out@) =~= seq![dv]);
        }
        Some((out, j))
    } else {
        None
    }
}

/// `[...]` of item-list day buckets at `i`.
fn parse_days_items(s: &[u8], i: usize) -> (r: Option<(Vec<DayItems>, usize)>)
    requires
        i <= s@.len(),
    ensures
        match r {
            Some((v, j)) => sp_days_items(s@, i as int) == Some(
                (days_items_view(v@), j as int),
            ) && j <= s@.len(),
            None => sp_days_items(s@, i as int) is None,
        },
{
    if i >= s.len() || s[i] != 0x5b {
        return None;
    }
    if i + 1 < s.len() && s[i + 1] == 0x5d {
        let v: Vec<DayItems> = Vec::new();
        proof {
            assert(days_items_view(v@) =~= Seq::<crate::payload::DayItemsV>::empty());
        }
        return Some((v, i + 2));
    }
    match parse_days_items_inner(s, i + 1) {
        Some((v, j)) => Some((v, j + 1)),
        None => None,
    }
}

fn parse_body(shape: ResultType, s: &[u8]) -> (r: Option<Payload>)
    ensures
        match r {
            Some(p) => sp_body(shape, s@) == Some(p@),
            None => sp_body(shape, s@) is None,
        },
{
    let lit = lit_body_open_vec();
    let i = match expect_lit(s, 0, &lit) {
        Some(i) => i,
        None => {
            return None;
        },
    };
    let (p, j): (Payload, usize) = match shape {
        ResultType::POD => {
            match parse_int(s, i) {
                Some((n, j)) => (Payload::Scalar(n), j),
                None => {
                    return None;
                },
            }
        },
        ResultType::ITEMS => {
            match parse_items(s, i) {
                Some((v, j)) => (Payload::Items(v), j),
                None => {
                    return None;
                },
            }
        },
        ResultType::DAYSPOD => {
            match parse_days_scalar(s, i) {
                Some((v, j)) => (Payload::DaysScalar(v), j),
                None => {
                    return None;
                },
            }
        },
        ResultType::DAYSITEMS => {
            match parse_days_items(s, i) {
                Some((v, j)) => (Payload::DaysItems(v), j),
                None => {
                    return None;
                },
            }
        },
    };
    if j < s.len() && s[j] == 0x7d && j + 1 == s.len() {
        Some(p)
    } else {
        None
    }
}

/// Decode a whole analytics body of the given shape.
///
/// The result is exactly what the canonical grammar assigns to the bytes:
/// `Some` if and only if `s` is the canonical encoding of a well-formed
/// payload of that shape, and then the decoded payload is that payload.
pub fn decode_body(shape: ResultType, s: &[u8]) -> (r: Option<Payload>)
    ensures
        match r {
            Some(p) => sp_body(shape, s@) == Some(p@) && payload_wf(p@) && shape_of(p@)
                == shape && s@ == enc_body(p@),
            None => sp_body(shape, s@) is None,
        },
        forall|pv: PayloadV|
            payload_wf(pv) && shape_of(pv) == shape && s@ == enc_body(pv) ==> r is Some
                && r.unwrap()@ == pv,
{
    let r = parse_body(shape, s);
    proof {
        if r is Some {
            lemma_sp_body_wf(shape, s@);
            lemma_body_sound(shape, s@);
        }
        assert forall|pv: PayloadV|
            payload_wf(pv) && shape_of(pv) == shape && s@ == enc_body(pv) implies (r is Some
            && r.unwrap()@ == pv) by {
            lemma_body_complete(pv);
        }
    }
    r
}

fn parse_error(s: &[u8]) -> (r: Option<KeenError>)
    ensures
        match r {
            Some(e) => sp_error(s@) == Some(e@),
            None => sp_error(s@) is None,
        },
{
    let lit = lit_msg_open_vec();
    let i = match expect_lit(s, 0, &lit) {
        Some(i) => i,
        None => {
            return None;
        },
    };
    let (msg, j) = match parse_string(s, i) {
        Some(p) => p,
        None => {
            return None;
        },
    };
    let lit2 = lit_code_mid_vec();
    let k = match expect_lit(s, j, &lit2) {
        Some(k) => k,
        None => {
            return None;
        },
    };
    let (code, e) = match parse_string(s, k) {
        Some(p) => p,
        None => {
            return None;
        },
    };
    if e < s.len() && s[e] == 0x7d && e + 1 == s.len() {
        Some(KeenError { message: msg, error_code: code })
    } else {
        None
    }
}

/// Decode a whole service error body.
///
/// `Some` if and only if `s` is the canonical encoding of a well-formed
/// service error, and then the decoded error is that error.
pub fn decode_error(s: &[u8]) -> (r: Option<KeenError>)
    ensures
        match r {
            Some(e) => sp_error(s@) == Some(e@) && bytes_wf(e@.message) && bytes_wf(
                e@.error_code,
            ) && s@ == enc_error(e@),
            None => sp_error(s@) is None,
        },
        forall|ev: KeenErrorV|
            bytes_wf(ev.message) && bytes_wf(ev.error_code) && s@ == enc_error(ev) ==> r
                is Some && r.unwrap()@ == ev,
{
    let r = parse_error(s);
    proof {
        if r is Some {
            lemma_sp_error_wf(s@);
            lemma_error_sound(s@);
        }
        assert forall|ev: KeenErrorV|
            bytes_wf(ev.message) && bytes_wf(ev.error_code) && s@ == enc_error(ev) implies (r
            is Some && r.unwrap()@ == ev) by {
            lemma_error_complete(ev);
        }
    }
    r
}

} // verus!
