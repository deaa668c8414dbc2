//! Proofs about the canonical codec.
//!
//! The two public results are `lemma_body_complete` and `lemma_error_complete`:
//! the spec parser recovers exactly the value that was encoded. The private
//! lemmas build that up one grammar production at a time, together with the
//! well-formedness of every value the parser can produce.

use vstd::prelude::*;

use crate::payload::{
    bytes_wf, day_items_wf, day_scalar_wf, field_wf, item_wf, payload_wf,
    shape_of, DayItemsV, DayScalarV, FieldV, FieldValueV, ItemV, PayloadV,
};
use crate::errors::KeenErrorV;
use crate::codec::{
    dec_digits, digits_val, enc_body, enc_day_items, enc_day_scalar, enc_days_items,
    enc_days_items_inner, enc_days_scalar, enc_days_scalar_inner, enc_error, enc_field,
    enc_field_value, enc_fields, enc_i64, enc_item, enc_items, enc_items_inner, enc_payload,
    enc_str, is_digit, lit_body_open, lit_code_mid, lit_day_open, lit_msg_open, lit_value_mid,
    range_wf, run_end, sp_body, sp_day_items, sp_day_scalar, sp_days_items, sp_days_items_inner,
    sp_days_scalar, sp_days_scalar_inner, sp_error, sp_field, sp_field_value, sp_fields, sp_int,
    sp_item, sp_items, sp_items_inner, sp_lit, sp_string, str_end,
};
use crate::ResultType;

verus! {

// ---------------------------------------------------------------------------
// Splitting concatenations out of a larger sequence
// ---------------------------------------------------------------------------

proof fn lemma_split2(s: Seq<u8>, i: int, a: Seq<u8>, b: Seq<u8>)
    requires
        0 <= i,
        i + a.len() + b.len() <= s.len(),
        s.subrange(i, i + a.len() + b.len()) == a + b,
    ensures
        s.subrange(i, i + a.len()) == a,
        s.subrange(i + a.len(), i + a.len() + b.len()) == b,
{
    assert forall|k: int| 0 <= k < a.len() implies s.subrange(i, i + a.len())[k] == a[k] by {
        assert(s.subrange(i, i + a.len() + b.len())[k] == (a + b)[k]);
    }
    assert(s.subrange(i, i + a.len()) =~= a);
    assert forall|k: int| 0 <= k < b.len() implies s.subrange(
        i + a.len(),
        i + a.len() + b.len(),
    )[k] == b[k] by {
        assert(s.subrange(i, i + a.len() + b.len())[a.len() + k] == (a + b)[a.len() + k]);
        assert((a + b)[a.len() + k] == b[k]);
        assert(s.subrange(i, i + a.len() + b.len())[a.len() + k] == s[i + a.len() + k]);
        assert(s.subrange(i + a.len(), i + a.len() + b.len())[k] == s[i + a.len() + k]);
    }
    assert(s.subrange(i + a.len(), i + a.len() + b.len()) =~= b);
}

// ---------------------------------------------------------------------------
// Digit runs and decimal encodings
// ---------------------------------------------------------------------------

pub(crate) proof fn lemma_run_end(s: Seq<u8>, i: int, j: int)
    requires
        0 <= i <= j <= s.len(),
        forall|k: int| i <= k < j ==> is_digit(#[trigger] s[k]),
        j == s.len() || !is_digit(s[j]),
    ensures
        run_end(s, i) == j,
    decreases j - i,
{
    if i < j {
        assert(is_digit(s[i]));
        lemma_run_end(s, i + 1, j);
    }
}

proof fn lemma_str_end(s: Seq<u8>, i: int, j: int)
    requires
        0 <= i <= j < s.len(),
        forall|k: int| i <= k < j ==> #[trigger] s[k] != 0x22,
        s[j] == 0x22,
    ensures
        str_end(s, i) == j,
    decreases j - i,
{
    if i < j {
        assert(s[i] != 0x22);
        lemma_str_end(s, i + 1, j);
    }
}

proof fn lemma_dec_digits_shape(n: nat)
    ensures
        dec_digits(n).len() >= 1,
        forall|k: int| 0 <= k < dec_digits(n).len() ==> is_digit(#[trigger] dec_digits(n)[k]),
        (dec_digits(n)[0] == 0x30) <==> (n == 0),
        n < 10 <==> dec_digits(n).len() == 1,
    decreases n,
{
    if n < 10 {
        assert(dec_digits(n) == seq![(0x30 + n) as u8]);
    } else {
        lemma_dec_digits_shape(n / 10);
        assert(n / 10 >= 1);
        assert(dec_digits(n) == dec_digits(n / 10) + seq![(0x30 + n % 10) as u8]);
        assert(dec_digits(n)[0] == dec_digits(n / 10)[0]);
        assert(n % 10 < 10);
    }
}

proof fn lemma_digits_val_of_dec(s: Seq<u8>, i: int, n: nat)
    requires
        0 <= i,
        i + dec_digits(n).len() <= s.len(),
        s.subrange(i, i + dec_digits(n).len()) == dec_digits(n),
    ensures
        digits_val(s, i, i + dec_digits(n).len()) == n,
    decreases n,
{
    let l = dec_digits(n).len();
    lemma_dec_digits_shape(n);
    if n < 10 {
        assert(s[i] == dec_digits(n)[0]);
        assert(dec_digits(n)[0] == (0x30 + n) as u8);
        assert(is_digit(s[i]));
        assert(digits_val(s, i, i) == 0);
        assert(digits_val(s, i, i + 1) == (s[i] - 0x30) as nat);
    } else {
        lemma_split2(s, i, dec_digits(n / 10), seq![(0x30 + n % 10) as u8]);
        lemma_digits_val_of_dec(s, i, n / 10);
        let lp = dec_digits(n / 10).len();
        assert(s[i + lp] == seq![(0x30 + n % 10) as u8][0]);
        assert(l == lp + 1);
        assert(is_digit(s[i + lp]));
        assert(digits_val(s, i, i + l) == digits_val(s, i, i + lp) * 10 + (s[i + lp] - 0x30) as nat);
        assert((s[i + lp] - 0x30) as nat == n % 10);
        assert(n / 10 * 10 + n % 10 == n);
    }
}

proof fn lemma_int_complete(s: Seq<u8>, i: int, n: i64)
    requires
        0 <= i,
        i + enc_i64(n).len() <= s.len(),
        s.subrange(i, i + enc_i64(n).len()) == enc_i64(n),
        i + enc_i64(n).len() == s.len() || !is_digit(s[i + enc_i64(n).len()]),
    ensures
        sp_int(s, i) == Some((n, i + enc_i64(n).len())),
{
    let l = enc_i64(n).len();
    if n >= 0 {
        let m = n as nat;
        lemma_dec_digits_shape(m);
        assert(enc_i64(n) == dec_digits(m));
        assert forall|k: int| i <= k < i + l implies is_digit(#[trigger] s[k]) by {
            assert(s.subrange(i, i + l)[k - i] == dec_digits(m)[k - i]);
        }
        assert(s[i] == s.subrange(i, i + l)[0]);
        assert(is_digit(s[i]));
        assert(s[i] != 0x2d);
        lemma_run_end(s, i, i + l);
        lemma_digits_val_of_dec(s, i, m);
        if s[i] == 0x30 {
            assert(dec_digits(m)[0] == 0x30);
            assert(m == 0 && l == 1);
        }
        assert(m <= 0x7fff_ffff_ffff_ffff);
    } else {
        let m = (-(n as int)) as nat;
        assert(enc_i64(n) == seq![0x2du8] + dec_digits(m));
        lemma_split2(s, i, seq![0x2du8], dec_digits(m));
        lemma_dec_digits_shape(m);
        assert(s[i] == s.subrange(i, i + 1)[0]);
        assert(s[i] == 0x2d);
        let lp = dec_digits(m).len();
        assert forall|k: int| i + 1 <= k < i + l implies is_digit(#[trigger] s[k]) by {
            assert(s.subrange(i + 1, i + 1 + lp)[k - (i + 1)] == dec_digits(m)[k - (i + 1)]);
        }
        lemma_run_end(s, i + 1, i + l);
        lemma_digits_val_of_dec(s, i + 1, m);
        assert(m >= 1);
        assert(s[i + 1] == dec_digits(m)[0]);
        assert(s[i + 1] != 0x30);
        assert(m <= 0x8000_0000_0000_0000);
        assert((0 - m as int) as i64 == n);
    }
}

proof fn lemma_string_complete(s: Seq<u8>, i: int, c: Seq<u8>)
    requires
        bytes_wf(c),
        0 <= i,
        i + c.len() + 2 <= s.len(),
        s.subrange(i, i + c.len() + 2) == enc_str(c),
    ensures
        sp_string(s, i) == Some((c, i + c.len() + 2)),
{
    let e = i + 1 + c.len();
    assert(enc_str(c).len() == c.len() + 2);
    assert(s[i] == enc_str(c)[0]);
    assert(s[i] == 0x22);
    assert forall|k: int| i + 1 <= k < e implies #[trigger] s[k] == c[k - (i + 1)] by {
        assert(s.subrange(i, i + c.len() + 2)[k - i] == enc_str(c)[k - i]);
        assert(enc_str(c)[k - i] == c[k - i - 1]);
    }
    assert(s[e] == enc_str(c)[c.len() as int + 1]);
    assert(s[e] == 0x22);
    assert forall|k: int| i + 1 <= k < e implies #[trigger] s[k] != 0x22 by {
        assert(s[k] == c[k - (i + 1)]);
    }
    lemma_str_end(s, i + 1, e);
    assert(range_wf(s, i + 1, e));
    assert(s.subrange(i + 1, e) =~= c);
}

// ---------------------------------------------------------------------------
// First-byte facts about encodings
// ---------------------------------------------------------------------------

proof fn lemma_enc_i64_first(n: i64)
    ensures
        enc_i64(n).len() >= 1,
        enc_i64(n)[0] == 0x2d || is_digit(enc_i64(n)[0]),
{
    if n >= 0 {
        lemma_dec_digits_shape(n as nat);
    } else {
        lemma_dec_digits_shape((-(n as int)) as nat);
        assert(enc_i64(n)[0] == (seq![0x2du8] + dec_digits((-(n as int)) as nat))[0]);
    }
}

proof fn lemma_enc_field_value_first(v: FieldValueV)
    ensures
        enc_field_value(v).len() >= 1,
        (enc_field_value(v)[0] == 0x22) <==> (v is Str),
{
    match v {
        FieldValueV::Str(c) => {
            assert(enc_str(c)[0] == 0x22);
            assert(enc_str(c).len() >= 2);
        },
        FieldValueV::Int(n) => {
            lemma_enc_i64_first(n);
        },
    }
}

proof fn lemma_enc_field_first(f: FieldV)
    ensures
        enc_field(f).len() >= 4,
        enc_field(f)[0] == 0x22,
{
    lemma_enc_field_value_first(f.value);
    assert(enc_field(f)[0] == (enc_str(f.name) + seq![0x3au8])[0]);
    assert(enc_str(f.name)[0] == 0x22);
}

proof fn lemma_enc_item_first(it: ItemV)
    ensures
        enc_item(it).len() >= 2,
        enc_item(it)[0] == 0x7b,
{
}

proof fn lemma_enc_day_scalar_first(d: DayScalarV)
    ensures
        enc_day_scalar(d).len() >= 2,
        enc_day_scalar(d)[0] == 0x7b,
{
    assert(enc_day_scalar(d)[0] == lit_day_open()[0]);
}

proof fn lemma_enc_day_items_first(d: DayItemsV)
    ensures
        enc_day_items(d).len() >= 2,
        enc_day_items(d)[0] == 0x7b,
{
    assert(enc_day_items(d)[0] == lit_day_open()[0]);
}

// ---------------------------------------------------------------------------
// Completeness, production by production
// ---------------------------------------------------------------------------

proof fn lemma_field_complete(s: Seq<u8>, i: int, f: FieldV)
    requires
        field_wf(f),
        0 <= i,
        i + enc_field(f).len() <= s.len(),
        s.subrange(i, i + enc_field(f).len()) == enc_field(f),
        i + enc_field(f).len() < s.len(),
        s[i + enc_field(f).len()] == 0x2c || s[i + enc_field(f).len()] == 0x7d,
    ensures
        sp_field(s, i) == Some((f, i + enc_field(f).len())),
{
    let a = enc_str(f.name);
    let b = seq![0x3au8];
    let c = enc_field_value(f.value);
    assert(enc_field(f) == a + b + c);
    assert(a + b + c =~= (a + b) + c);
    lemma_split2(s, i, a + b, c);
    lemma_split2(s, i, a, b);
    lemma_string_complete(s, i, f.name);
    let j = i + a.len();
    assert(s[j] == s.subrange(j, j + 1)[0]);
    assert(s[j] == 0x3a);
    let m = j + 1;
    let e = i + enc_field(f).len();
    lemma_enc_field_value_first(f.value);
    assert(s[m] == s.subrange(m, m + c.len())[0]);
    assert(s[m] == c[0]);
    match f.value {
        FieldValueV::Str(cs) => {
            lemma_string_complete(s, m, cs);
            assert(sp_field_value(s, m) == Some((f.value, e)));
        },
        FieldValueV::Int(n) => {
            assert(!is_digit(s[e]) && s[e] != 0x22);
            lemma_int_complete(s, m, n);
            assert(s[m] != 0x22);
            assert(sp_field_value(s, m) == Some((f.value, e)));
        },
    }
    assert(sp_field(s, i) == Some((FieldV { name: f.name, value: f.value }, e)));
    assert(FieldV { name: f.name, value: f.value } == f);
}

proof fn lemma_fields_complete(s: Seq<u8>, i: int, fs: Seq<FieldV>)
    requires
        fs.len() >= 1,
        forall|k: int| 0 <= k < fs.len() ==> field_wf(#[trigger] fs[k]),
        0 <= i,
        i + enc_fields(fs).len() <= s.len(),
        s.subrange(i, i + enc_fields(fs).len()) == enc_fields(fs),
        i + enc_fields(fs).len() < s.len(),
        s[i + enc_fields(fs).len()] == 0x7d,
    ensures
        sp_fields(s, i) == Some((fs, i + enc_fields(fs).len())),
    decreases fs.len(),
{
    let e = i + enc_fields(fs).len();
    if fs.len() == 1 {
        assert(enc_fields(fs) == enc_field(fs[0]));
        lemma_field_complete(s, i, fs[0]);
        lemma_enc_field_first(fs[0]);
        assert(sp_fields(s, i) == Some((seq![fs[0]], e)));
        assert(seq![fs[0]] =~= fs);
    } else {
        let a = enc_field(fs[0]);
        let b = seq![0x2cu8];
        let c = enc_fields(fs.drop_first());
        assert(enc_fields(fs) == a + b + c);
        assert(a + b + c =~= (a + b) + c);
        lemma_split2(s, i, a + b, c);
        lemma_split2(s, i, a, b);
        let j = i + a.len();
        assert(s[j] == s.subrange(j, j + 1)[0]);
        assert(s[j] == 0x2c);
        lemma_field_complete(s, i, fs[0]);
        lemma_enc_field_first(fs[0]);
        assert forall|k: int| 0 <= k < fs.drop_first().len() implies field_wf(
            #[trigger] fs.drop_first()[k],
        ) by {
            assert(fs.drop_first()[k] == fs[k + 1]);
        }
        lemma_fields_complete(s, j + 1, fs.drop_first());
        assert(sp_fields(s, i) == Some((seq![fs[0]] + fs.drop_first(), e)));
        assert(seq![fs[0]] + fs.drop_first() =~= fs);
    }
}

proof fn lemma_item_complete(s: Seq<u8>, i: int, it: ItemV)
    requires
        item_wf(it),
        0 <= i,
        i + enc_item(it).len() <= s.len(),
        s.subrange(i, i + enc_item(it).len()) == enc_item(it),
    ensures
        sp_item(s, i) == Some((it, i + enc_item(it).len())),
{
    let e = i + enc_item(it).len();
    let a = seq![0x7bu8];
    let b = enc_fields(it.fields);
    let c = seq![0x7du8];
    assert(enc_item(it) == a + b + c);
    assert(a + b + c =~= (a + b) + c);
    lemma_split2(s, i, a + b, c);
    lemma_split2(s, i, a, b);
    assert(s[i] == s.subrange(i, i + 1)[0]);
    assert(s[i] == 0x7b);
    assert(s[e - 1] == s.subrange(e - 1, e)[0]);
    assert(s[e - 1] == 0x7d);
    if it.fields.len() == 0 {
        assert(enc_fields(it.fields) == Seq::<u8>::empty());
        assert(e == i + 2);
        assert(s[i + 1] == 0x7d);
        assert(sp_item(s, i) == Some((ItemV { fields: Seq::empty() }, i + 2)));
        assert(it.fields =~= Seq::<FieldV>::empty());
        assert(ItemV { fields: Seq::<FieldV>::empty() } == it);
    } else {
        lemma_enc_field_first(it.fields[0]);
        assert(enc_fields(it.fields)[0] == enc_field(it.fields[0])[0]) by {
            if it.fields.len() == 1 {
            } else {
                assert(enc_fields(it.fields) == enc_field(it.fields[0]) + seq![0x2cu8]
                    + enc_fields(it.fields.drop_first()));
            }
        }
        assert(s[i + 1] == s.subrange(i + 1, i + 1 + b.len())[0]);
        assert(s[i + 1] == 0x22);
        lemma_fields_complete(s, i + 1, it.fields);
        assert(sp_item(s, i) == Some((ItemV { fields: it.fields }, e)));
        assert(ItemV { fields: it.fields } == it);
    }
}

proof fn lemma_items_inner_complete(s: Seq<u8>, i: int, v: Seq<ItemV>)
    requires
        v.len() >= 1,
        forall|k: int| 0 <= k < v.len() ==> item_wf(#[trigger] v[k]),
        0 <= i,
        i + enc_items_inner(v).len() <= s.len(),
        s.subrange(i, i + enc_items_inner(v).len()) == enc_items_inner(v),
        i + enc_items_inner(v).len() < s.len(),
        s[i + enc_items_inner(v).len()] == 0x5d,
    ensures
        sp_items_inner(s, i) == Some((v, i + enc_items_inner(v).len())),
    decreases v.len(),
{
    let e = i + enc_items_inner(v).len();
    if v.len() == 1 {
        assert(enc_items_inner(v) == enc_item(v[0]));
        lemma_item_complete(s, i, v[0]);
        lemma_enc_item_first(v[0]);
        assert(sp_items_inner(s, i) == Some((seq![v[0]], e)));
        assert(seq![v[0]] =~= v);
    } else {
        let a = enc_item(v[0]);
        let b = seq![0x2cu8];
        let c = enc_items_inner(v.drop_first());
        assert(enc_items_inner(v) == a + b + c);
        assert(a + b + c =~= (a + b) + c);
        lemma_split2(s, i, a + b, c);
        lemma_split2(s, i, a, b);
        let j = i + a.len();
        assert(s[j] == s.subrange(j, j + 1)[0]);
        assert(s[j] == 0x2c);
        lemma_item_complete(s, i, v[0]);
        lemma_enc_item_first(v[0]);
        assert forall|k: int| 0 <= k < v.drop_first().len() implies item_wf(
            #[trigger] v.drop_first()[k],
        ) by {
            assert(v.drop_first()[k] == v[k + 1]);
        }
        lemma_items_inner_complete(s, j + 1, v.drop_first());
        assert(sp_items_inner(s, i) == Some((seq![v[0]] + v.drop_first(), e)));
        assert(seq![v[0]] + v.drop_first() =~= v);
    }
}

proof fn lemma_items_complete(s: Seq<u8>, i: int, v: Seq<ItemV>)
    requires
        forall|k: int| 0 <= k < v.len() ==> item_wf(#[trigger] v[k]),
        0 <= i,
        i + enc_items(v).len() <= s.len(),
        s.subrange(i, i + enc_items(v).len()) == enc_items(v),
    ensures
        sp_items(s, i) == Some((v, i + enc_items(v).len())),
{
    let e = i + enc_items(v).len();
    let a = seq![0x5bu8];
    let b = enc_items_inner(v);
    let c = seq![0x5du8];
    assert(enc_items(v) == a + b + c);
    assert(a + b + c =~= (a + b) + c);
    lemma_split2(s, i, a + b, c);
    lemma_split2(s, i, a, b);
    assert(s[i] == s.subrange(i, i + 1)[0]);
    assert(s[i] == 0x5b);
    assert(s[e - 1] == s.subrange(e - 1, e)[0]);
    assert(s[e - 1] == 0x5d);
    if v.len() == 0 {
        assert(enc_items_inner(v) == Seq::<u8>::empty());
        assert(e == i + 2);
        assert(s[i + 1] == 0x5d);
        assert(sp_items(s, i) == Some((Seq::<ItemV>::empty(), i + 2)));
        assert(Seq::<ItemV>::empty() =~= v);
    } else {
        lemma_enc_item_first(v[0]);
        assert(enc_items_inner(v)[0] == enc_item(v[0])[0]) by {
            if v.len() == 1 {
            } else {
                assert(enc_items_inner(v) == enc_item(v[0]) + seq![0x2cu8] + enc_items_inner(
                    v.drop_first(),
                ));
            }
        }
        assert(s[i + 1] == s.subrange(i + 1, i + 1 + b.len())[0]);
        assert(s[i + 1] == 0x7b);
        lemma_items_inner_complete(s, i + 1, v);
        assert(sp_items(s, i) == Some((v, e)));
    }
}

proof fn lemma_day_scalar_complete(s: Seq<u8>, i: int, d: DayScalarV)
    requires
        day_scalar_wf(d),
        0 <= i,
        i + enc_day_scalar(d).len() <= s.len(),
        s.subrange(i, i + enc_day_scalar(d).len()) == enc_day_scalar(d),
    ensures
        sp_day_scalar(s, i) == Some((d, i + enc_day_scalar(d).len())),
{
    let e = i + enc_day_scalar(d).len();
    let p1 = lit_day_open();
    let p2 = enc_str(d.day);
    let p3 = lit_value_mid();
    let p4 = enc_i64(d.value);
    let p5 = seq![0x7du8];
    assert(enc_day_scalar(d) == p1 + p2 + p3 + p4 + p5);
    assert(p1 + p2 + p3 + p4 + p5 =~= (p1 + p2 + p3 + p4) + p5);
    lemma_split2(s, i, p1 + p2 + p3 + p4, p5);
    assert(p1 + p2 + p3 + p4 =~= (p1 + p2 + p3) + p4);
    lemma_split2(s, i, p1 + p2 + p3, p4);
    assert(p1 + p2 + p3 =~= (p1 + p2) + p3);
    lemma_split2(s, i, p1 + p2, p3);
    lemma_split2(s, i, p1, p2);
    assert(sp_lit(s, i, lit_day_open()) == Some(i + 7));
    let j = i + 7;
    lemma_string_complete(s, j, d.day);
    let k: int = j + p2.len() as int;
    assert(sp_lit(s, k, lit_value_mid()) == Some(k + 9));
    let m: int = k + 9;
    assert(s[e - 1] == s.subrange(e - 1, e)[0]);
    assert(s[e - 1] == 0x7d);
    assert(!is_digit(s[m + p4.len()]));
    lemma_int_complete(s, m, d.value);
    assert(sp_day_scalar(s, i) == Some((DayScalarV { day: d.day, value: d.value }, e)));
    assert(DayScalarV { day: d.day, value: d.value } == d);
}

proof fn lemma_days_scalar_inner_complete(s: Seq<u8>, i: int, v: Seq<DayScalarV>)
    requires
        v.len() >= 1,
        forall|k: int| 0 <= k < v.len() ==> day_scalar_wf(#[trigger] v[k]),
        0 <= i,
        i + enc_days_scalar_inner(v).len() <= s.len(),
        s.subrange(i, i + enc_days_scalar_inner(v).len()) == enc_days_scalar_inner(v),
        i + enc_days_scalar_inner(v).len() < s.len(),
        s[i + enc_days_scalar_inner(v).len()] == 0x5d,
    ensures
        sp_days_scalar_inner(s, i) == Some((v, i + enc_days_scalar_inner(v).len())),
    decreases v.len(),
{
    let e = i + enc_days_scalar_inner(v).len();
    if v.len() == 1 {
        assert(enc_days_scalar_inner(v) == enc_day_scalar(v[0]));
        lemma_day_scalar_complete(s, i, v[0]);
        lemma_enc_day_scalar_first(v[0]);
        assert(sp_days_scalar_inner(s, i) == Some((seq![v[0]], e)));
        assert(seq![v[0]] =~= v);
    } else {
        let a = enc_day_scalar(v[0]);
        let b = seq![0x2cu8];
        let c = enc_days_scalar_inner(v.drop_first());
        assert(enc_days_scalar_inner(v) == a + b + c);
        assert(a + b + c =~= (a + b) + c);
        lemma_split2(s, i, a + b, c);
        lemma_split2(s, i, a, b);
        let j = i + a.len();
        assert(s[j] == s.subrange(j, j + 1)[0]);
        assert(s[j] == 0x2c);
        lemma_day_scalar_complete(s, i, v[0]);
        lemma_enc_day_scalar_first(v[0]);
        assert forall|k: int| 0 <= k < v.drop_first().len() implies day_scalar_wf(
            #[trigger] v.drop_first()[k],
        ) by {
            assert(v.drop_first()[k] == v[k + 1]);
        }
        lemma_days_scalar_inner_complete(s, j + 1, v.drop_first());
        assert(sp_days_scalar_inner(s, i) == Some((seq![v[0]] + v.drop_first(), e)));
        assert(seq![v[0]] + v.drop_first() =~= v);
    }
}

proof fn lemma_days_scalar_complete(s: Seq<u8>, i: int, v: Seq<DayScalarV>)
    requires
        forall|k: int| 0 <= k < v.len() ==> day_scalar_wf(#[trigger] v[k]),
        0 <= i,
        i + enc_days_scalar(v).len() <= s.len(),
        s.subrange(i, i + enc_days_scalar(v).len()) == enc_days_scalar(v),
    ensures
        sp_days_scalar(s, i) == Some((v, i + enc_days_scalar(v).len())),
{
    let e = i + enc_days_scalar(v).len();
    let a = seq![0x5bu8];
    let b = enc_days_scalar_inner(v);
    let c = seq![0x5du8];
    assert(enc_days_scalar(v) == a + b + c);
    assert(a + b + c =~= (a + b) + c);
    lemma_split2(s, i, a + b, c);
    lemma_split2(s, i, a, b);
    assert(s[i] == s.subrange(i, i + 1)[0]);
    assert(s[i] == 0x5b);
    assert(s[e - 1] == s.subrange(e - 1, e)[0]);
    assert(s[e - 1] == 0x5d);
    if v.len() == 0 {
        assert(enc_days_scalar_inner(v) == Seq::<u8>::empty());
        assert(e == i + 2);
        assert(s[i + 1] == 0x5d);
        assert(sp_days_scalar(s, i) == Some((Seq::<DayScalarV>::empty(), i + 2)));
        assert(Seq::<DayScalarV>::empty() =~= v);
    } else {
        lemma_enc_day_scalar_first(v[0]);
        assert(enc_days_scalar_inner(v)[0] == enc_day_scalar(v[0])[0]) by {
            if v.len() == 1 {
            } else {
                assert(enc_days_scalar_inner(v) == enc_day_scalar(v[0]) + seq![0x2cu8]
                    + enc_days_scalar_inner(v.drop_first()));
            }
        }
        assert(s[i + 1] == s.subrange(i + 1, i + 1 + b.len())[0]);
        assert(s[i + 1] == 0x7b);
        lemma_days_scalar_inner_complete(s, i + 1, v);
        assert(sp_days_scalar(s, i) == Some((v, e)));
    }
}

proof fn lemma_day_items_complete(s: Seq<u8>, i: int, d: DayItemsV)
    requires
        day_items_wf(d),
        0 <= i,
        i + enc_day_items(d).len() <= s.len(),
        s.subrange(i, i + enc_day_items(d).len()) == enc_day_items(d),
    ensures
        sp_day_items(s, i) == Some((d, i + enc_day_items(d).len())),
{
    let e = i + enc_day_items(d).len();
    let p1 = lit_day_open();
    let p2 = enc_str(d.day);
    let p3 = lit_value_mid();
    let p4 = enc_items(d.items);
    let p5 = seq![0x7du8];
    assert(enc_day_items(d) == p1 + p2 + p3 + p4 + p5);
    assert(p1 + p2 + p3 + p4 + p5 =~= (p1 + p2 + p3 + p4) + p5);
    lemma_split2(s, i, p1 + p2 + p3 + p4, p5);
    assert(p1 + p2 + p3 + p4 =~= (p1 + p2 + p3) + p4);
    lemma_split2(s, i, p1 + p2 + p3, p4);
    assert(p1 + p2 + p3 =~= (p1 + p2) + p3);
    lemma_split2(s, i, p1 + p2, p3);
    lemma_split2(s, i, p1, p2);
    assert(sp_lit(s, i, lit_day_open()) == Some(i + 7));
    let j = i + 7;
    lemma_string_complete(s, j, d.day);
    let k: int = j + p2.len() as int;
    assert(sp_lit(s, k, lit_value_mid()) == Some(k + 9));
    let m: int = k + 9;
    assert(s[e - 1] == s.subrange(e - 1, e)[0]);
    assert(s[e - 1] == 0x7d);
    lemma_items_complete(s, m, d.items);
    assert(sp_day_items(s, i) == Some((DayItemsV { day: d.day, items: d.items }, e)));
    assert(DayItemsV { day: d.day, items: d.items } == d);
}

proof fn lemma_days_items_inner_complete(s: Seq<u8>, i: int, v: Seq<DayItemsV>)
    requires
        v.len() >= 1,
        forall|k: int| 0 <= k < v.len() ==> day_items_wf(#[trigger] v[k]),
        0 <= i,
        i + enc_days_items_inner(v).len() <= s.len(),
        s.subrange(i, i + enc_days_items_inner(v).len()) == enc_days_items_inner(v),
        i + enc_days_items_inner(v).len() < s.len(),
        s[i + enc_days_items_inner(v).len()] == 0x5d,
    ensures
        sp_days_items_inner(s, i) == Some((v, i + enc_days_items_inner(v).len())),
    decreases v.len(),
{
    let e = i + enc_days_items_inner(v).len();
    if v.len() == 1 {
        assert(enc_days_items_inner(v) == enc_day_items(v[0]));
        lemma_day_items_complete(s, i, v[0]);
        lemma_enc_day_items_first(v[0]);
        assert(sp_days_items_inner(s, i) == Some((seq![v[0]], e)));
        assert(seq![v[0]] =~= v);
    } else {
        let a = enc_day_items(v[0]);
        let b = seq![0x2cu8];
        let c = enc_days_items_inner(v.drop_first());
        assert(enc_days_items_inner(v) == a + b + c);
        assert(a + b + c =~= (a + b) + c);
        lemma_split2(s, i, a + b, c);
        lemma_split2(s, i, a, b);
        let j = i + a.len();
        assert(s[j] == s.subrange(j, j + 1)[0]);
        assert(s[j] == 0x2c);
        lemma_day_items_complete(s, i, v[0]);
        lemma_enc_day_items_first(v[0]);
        assert forall|k: int| 0 <= k < v.drop_first().len() implies day_items_wf(
            #[trigger] v.drop_first()[k],
        ) by {
            assert(v.drop_first()[k] == v[k + 1]);
        }
        lemma_days_items_inner_complete(s, j + 1, v.drop_first());
        assert(sp_days_items_inner(s, i) == Some((seq![v[0]] + v.drop_first(), e)));
        assert(seq![v[0]] + v.drop_first() =~= v);
    }
}

proof fn lemma_days_items_complete(s: Seq<u8>, i: int, v: Seq<DayItemsV>)
    requires
        forall|k: int| 0 <= k < v.len() ==> day_items_wf(#[trigger] v[k]),
        0 <= i,
        i + enc_days_items(v).len() <= s.len(),
        s.subrange(i, i + enc_days_items(v).len()) == enc_days_items(v),
    ensures
        sp_days_items(s, i) == Some((v, i + enc_days_items(v).len())),
{
    let e = i + enc_days_items(v).len();
    let a = seq![0x5bu8];
    let b = enc_days_items_inner(v);
    let c = seq![0x5du8];
    assert(enc_days_items(v) == a + b + c);
    assert(a + b + c =~= (a + b) + c);
    lemma_split2(s, i, a + b, c);
    lemma_split2(s, i, a, b);
    assert(s[i] == s.subrange(i, i + 1)[0]);
    assert(s[i] == 0x5b);
    assert(s[e - 1] == s.subrange(e - 1, e)[0]);
    assert(s[e - 1] == 0x5d);
    if v.len() == 0 {
        assert(enc_days_items_inner(v) == Seq::<u8>::empty());
        assert(e == i + 2);
        assert(s[i + 1] == 0x5d);
        assert(sp_days_items(s, i) == Some((Seq::<DayItemsV>::empty(), i + 2)));
        assert(Seq::<DayItemsV>::empty() =~= v);
    } else {
        lemma_enc_day_items_first(v[0]);
        assert(enc_days_items_inner(v)[0] == enc_day_items(v[0])[0]) by {
            if v.len() == 1 {
            } else {
                assert(enc_days_items_inner(v) == enc_day_items(v[0]) + seq![0x2cu8]
                    + enc_days_items_inner(v.drop_first()));
            }
        }
        assert(s[i + 1] == s.subrange(i + 1, i + 1 + b.len())[0]);
        assert(s[i + 1] == 0x7b);
        lemma_days_items_inner_complete(s, i + 1, v);
        assert(sp_days_items(s, i) == Some((v, e)));
    }
}

/// Every well-formed payload's canonical body parses back to exactly that
/// payload under its own shape tag: decoding is a left inverse of encoding,
/// for all four shapes.
pub proof fn lemma_body_complete(p: PayloadV)
    requires
        payload_wf(p),
    ensures
        sp_body(shape_of(p), enc_body(p)) == Some(p),
{
    let s = enc_body(p);
    let a = lit_body_open();
    let b = enc_payload(p);
    let c = seq![0x7du8];
    assert(s == a + b + c);
    assert(a + b + c =~= (a + b) + c);
    assert(s.subrange(0, s.len() as int) =~= s);
    lemma_split2(s, 0, a + b, c);
    lemma_split2(s, 0, a, b);
    assert(sp_lit(s, 0, lit_body_open()) == Some(10int));
    let j: int = 10 + b.len() as int;
    assert(s[j] == s.subrange(j, j + 1)[0]);
    assert(s[j] == 0x7d);
    assert(j + 1 == s.len());
    match p {
        PayloadV::Scalar(n) => {
            assert(!is_digit(s[10 + enc_i64(n).len() as int]));
            lemma_int_complete(s, 10, n);
        },
        PayloadV::Items(v) => {
            lemma_items_complete(s, 10, v);
        },
        PayloadV::DaysScalar(v) => {
            lemma_days_scalar_complete(s, 10, v);
        },
        PayloadV::DaysItems(v) => {
            lemma_days_items_complete(s, 10, v);
        },
    }
}

/// Every well-formed service error's canonical body parses back to exactly
/// that error.
pub proof fn lemma_error_complete(e: KeenErrorV)
    requires
        bytes_wf(e.message),
        bytes_wf(e.error_code),
    ensures
        sp_error(enc_error(e)) == Some(e),
{
    let s = enc_error(e);
    let p1 = lit_msg_open();
    let p2 = enc_str(e.message);
    let p3 = lit_code_mid();
    let p4 = enc_str(e.error_code);
    let p5 = seq![0x7du8];
    assert(s == p1 + p2 + p3 + p4 + p5);
    assert(p1 + p2 + p3 + p4 + p5 =~= (p1 + p2 + p3 + p4) + p5);
    assert(s.subrange(0, s.len() as int) =~= s);
    lemma_split2(s, 0, p1 + p2 + p3 + p4, p5);
    assert(p1 + p2 + p3 + p4 =~= (p1 + p2 + p3) + p4);
    lemma_split2(s, 0, p1 + p2 + p3, p4);
    assert(p1 + p2 + p3 =~= (p1 + p2) + p3);
    lemma_split2(s, 0, p1 + p2, p3);
    lemma_split2(s, 0, p1, p2);
    assert(sp_lit(s, 0, lit_msg_open()) == Some(11int));
    lemma_string_complete(s, 11, e.message);
    let k: int = 11 + p2.len() as int;
    assert(sp_lit(s, k, lit_code_mid()) == Some(k + 14));
    lemma_string_complete(s, k + 14, e.error_code);
    let j: int = k + 14 + p4.len() as int;
    assert(s[j] == s.subrange(j, j + 1)[0]);
    assert(s[j] == 0x7d);
    assert(j + 1 == s.len());
    assert(KeenErrorV { message: e.message, error_code: e.error_code } == e);
}

// ---------------------------------------------------------------------------
// Well-formedness of whatever the parser produces
// ---------------------------------------------------------------------------

/// Where the scan stops: at the first quote, or at the end when there is none.
pub(crate) proof fn lemma_str_end_at(s: Seq<u8>, i: int, j: int)
    requires
        0 <= i <= j <= s.len(),
        forall|k: int| i <= k < j ==> #[trigger] s[k] != 0x22,
        j == s.len() || s[j] == 0x22,
    ensures
        str_end(s, i) == j,
    decreases j - i,
{
    if i < j {
        assert(s[i] != 0x22);
        lemma_str_end_at(s, i + 1, j);
    }
}

proof fn lemma_str_end_bounds(s: Seq<u8>, i: int)
    requires
        0 <= i <= s.len(),
    ensures
        i <= str_end(s, i) <= s.len(),
        forall|t: int| i <= t < str_end(s, i) ==> #[trigger] s[t] != 0x22,
        str_end(s, i) == s.len() || s[str_end(s, i)] == 0x22,
    decreases s.len() - i,
{
    if i < s.len() && s[i] != 0x22 {
        lemma_str_end_bounds(s, i + 1);
    }
}

proof fn lemma_sp_string_wf(s: Seq<u8>, i: int)
    requires
        sp_string(s, i) is Some,
    ensures
        bytes_wf(sp_string(s, i).unwrap().0),
{
    lemma_str_end_bounds(s, i + 1);
    let e = str_end(s, i + 1);
    assert(range_wf(s, i + 1, e));
    let c = s.subrange(i + 1, e);
    assert forall|k: int| 0 <= k < c.len() implies 0x20 <= #[trigger] c[k] && c[k] != 0x22 && c[k]
        != 0x5c by {
        assert(c[k] == s[i + 1 + k]);
        assert(range_wf(s, i + 1, e));
        assert(0x20 <= s[i + 1 + k] && s[i + 1 + k] != 0x22 && s[i + 1 + k] != 0x5c);
    }
}

proof fn lemma_sp_field_wf(s: Seq<u8>, i: int)
    requires
        sp_field(s, i) is Some,
    ensures
        field_wf(sp_field(s, i).unwrap().0),
{
    lemma_sp_string_wf(s, i);
    let j = sp_string(s, i).unwrap().1;
    let m = j + 1;
    if 0 <= m < s.len() && s[m] == 0x22 {
        lemma_sp_string_wf(s, m);
    }
}

proof fn lemma_sp_fields_wf(s: Seq<u8>, i: int)
    requires
        sp_fields(s, i) is Some,
    ensures
        forall|k: int|
            0 <= k < sp_fields(s, i).unwrap().0.len() ==> field_wf(
                #[trigger] sp_fields(s, i).unwrap().0[k],
            ),
    decreases s.len() - i,
{
    lemma_sp_field_wf(s, i);
    let (f, j) = sp_field(s, i).unwrap();
    if j > i && j < s.len() && s[j] == 0x2c {
        lemma_sp_fields_wf(s, j + 1);
        let fs = sp_fields(s, j + 1).unwrap().0;
        assert forall|k: int| 0 <= k < (seq![f] + fs).len() implies field_wf(
            #[trigger] (seq![f] + fs)[k],
        ) by {
            if k >= 1 {
                assert((seq![f] + fs)[k] == fs[k - 1]);
            }
        }
    }
}

proof fn lemma_sp_item_wf(s: Seq<u8>, i: int)
    requires
        sp_item(s, i) is Some,
    ensures
        item_wf(sp_item(s, i).unwrap().0),
{
    if !(i + 1 < s.len() && s[i + 1] == 0x7d) {
        lemma_sp_fields_wf(s, i + 1);
    }
}

proof fn lemma_sp_items_inner_wf(s: Seq<u8>, i: int)
    requires
        sp_items_inner(s, i) is Some,
    ensures
        forall|k: int|
            0 <= k < sp_items_inner(s, i).unwrap().0.len() ==> item_wf(
                #[trigger] sp_items_inner(s, i).unwrap().0[k],
            ),
    decreases s.len() - i,
{
    lemma_sp_item_wf(s, i);
    let (it, j) = sp_item(s, i).unwrap();
    if j > i && j < s.len() && s[j] == 0x2c {
        lemma_sp_items_inner_wf(s, j + 1);
        let v = sp_items_inner(s, j + 1).unwrap().0;
        assert forall|k: int| 0 <= k < (seq![it] + v).len() implies item_wf(
            #[trigger] (seq![it] + v)[k],
        ) by {
            if k >= 1 {
                assert((seq![it] + v)[k] == v[k - 1]);
            }
        }
    }
}

proof fn lemma_sp_items_wf(s: Seq<u8>, i: int)
    requires
        sp_items(s, i) is Some,
    ensures
        forall|k: int|
            0 <= k < sp_items(s, i).unwrap().0.len() ==> item_wf(
                #[trigger] sp_items(s, i).unwrap().0[k],
            ),
{
    if !(i + 1 < s.len() && s[i + 1] == 0x5d) {
        lemma_sp_items_inner_wf(s, i + 1);
    }
}

proof fn lemma_sp_day_scalar_wf(s: Seq<u8>, i: int)
    requires
        sp_day_scalar(s, i) is Some,
    ensures
        day_scalar_wf(sp_day_scalar(s, i).unwrap().0),
{
    let j = sp_lit(s, i, lit_day_open()).unwrap();
    lemma_sp_string_wf(s, j);
}

proof fn lemma_sp_days_scalar_inner_wf(s: Seq<u8>, i: int)
    requires
        sp_days_scalar_inner(s, i) is Some,
    ensures
        forall|k: int|
            0 <= k < sp_days_scalar_inner(s, i).unwrap().0.len() ==> day_scalar_wf(
                #[trigger] sp_days_scalar_inner(s, i).unwrap().0[k],
            ),
    decreases s.len() - i,
{
    lemma_sp_day_scalar_wf(s, i);
    let (d, j) = sp_day_scalar(s, i).unwrap();
    if j > i && j < s.len() && s[j] == 0x2c {
        lemma_sp_days_scalar_inner_wf(s, j + 1);
        let v = sp_days_scalar_inner(s, j + 1).unwrap().0;
        assert forall|k: int| 0 <= k < (seq![d] + v).len() implies day_scalar_wf(
            #[trigger] (seq![d] + v)[k],
        ) by {
            if k >= 1 {
                assert((seq![d] + v)[k] == v[k - 1]);
            }
        }
    }
}

proof fn lemma_sp_days_scalar_wf(s: Seq<u8>, i: int)
    requires
        sp_days_scalar(s, i) is Some,
    ensures
        forall|k: int|
            0 <= k < sp_days_scalar(s, i).unwrap().0.len() ==> day_scalar_wf(
                #[trigger] sp_days_scalar(s, i).unwrap().0[k],
            ),
{
    if !(i + 1 < s.len() && s[i + 1] == 0x5d) {
        lemma_sp_days_scalar_inner_wf(s, i + 1);
    }
}

proof fn lemma_sp_day_items_wf(s: Seq<u8>, i: int)
    requires
        sp_day_items(s, i) is Some,
    ensures
        day_items_wf(sp_day_items(s, i).unwrap().0),
{
    let j = sp_lit(s, i, lit_day_open()).unwrap();
    lemma_sp_string_wf(s, j);
    let k = sp_string(s, j).unwrap().1;
    let m = sp_lit(s, k, lit_value_mid()).unwrap();
    lemma_sp_items_wf(s, m);
}

proof fn lemma_sp_days_items_inner_wf(s: Seq<u8>, i: int)
    requires
        sp_days_items_inner(s, i) is Some,
    ensures
        forall|k: int|
            0 <= k < sp_days_items_inner(s, i).unwrap().0.len() ==> day_items_wf(
                #[trigger] sp_days_items_inner(s, i).unwrap().0[k],
            ),
    decreases s.len() - i,
{
    lemma_sp_day_items_wf(s, i);
    let (d, j) = sp_day_items(s, i).unwrap();
    if j > i && j < s.len() && s[j] == 0x2c {
        lemma_sp_days_items_inner_wf(s, j + 1);
        let v = sp_days_items_inner(s, j + 1).unwrap().0;
        assert forall|k: int| 0 <= k < (seq![d] + v).len() implies day_items_wf(
            #[trigger] (seq![d] + v)[k],
        ) by {
            if k >= 1 {
                assert((seq![d] + v)[k] == v[k - 1]);
            }
        }
    }
}

proof fn lemma_sp_days_items_wf(s: Seq<u8>, i: int)
    requires
        sp_days_items(s, i) is Some,
    ensures
        forall|k: int|
            0 <= k < sp_days_items(s, i).unwrap().0.len() ==> day_items_wf(
                #[trigger] sp_days_items(s, i).unwrap().0[k],
            ),
{
    if !(i + 1 < s.len() && s[i + 1] == 0x5d) {
        lemma_sp_days_items_inner_wf(s, i + 1);
    }
}

/// Whatever the body parser accepts is a well-formed payload of the requested
/// shape.
pub proof fn lemma_sp_body_wf(shape: ResultType, s: Seq<u8>)
    requires
        sp_body(shape, s) is Some,
    ensures
        payload_wf(sp_body(shape, s).unwrap()),
        shape_of(sp_body(shape, s).unwrap()) == shape,
{
    let i = sp_lit(s, 0, lit_body_open()).unwrap();
    match shape {
        ResultType::POD => {},
        ResultType::ITEMS => {
            lemma_sp_items_wf(s, i);
        },
        ResultType::DAYSPOD => {
            lemma_sp_days_scalar_wf(s, i);
        },
        ResultType::DAYSITEMS => {
            lemma_sp_days_items_wf(s, i);
        },
    }
}

/// Whatever the error parser accepts is a well-formed service error.
pub proof fn lemma_sp_error_wf(s: Seq<u8>)
    requires
        sp_error(s) is Some,
    ensures
        bytes_wf(sp_error(s).unwrap().message),
        bytes_wf(sp_error(s).unwrap().error_code),
{
    let i = sp_lit(s, 0, lit_msg_open()).unwrap();
    lemma_sp_string_wf(s, i);
    let j = sp_string(s, i).unwrap().1;
    let k = sp_lit(s, j, lit_code_mid()).unwrap();
    lemma_sp_string_wf(s, k);
}


// ---------------------------------------------------------------------------
// Soundness: whatever the parser accepts spells the canonical encoding
// ---------------------------------------------------------------------------

proof fn lemma_join(s: Seq<u8>, i: int, m: int, j: int)
    requires
        0 <= i <= m <= j <= s.len(),
    ensures
        s.subrange(i, j) == s.subrange(i, m) + s.subrange(m, j),
{
    assert forall|q: int| 0 <= q < j - i implies s.subrange(i, j)[q] == (s.subrange(i, m)
        + s.subrange(m, j))[q] by {
        if q < m - i {
            assert(s.subrange(i, m)[q] == s[i + q]);
        } else {
            assert(s.subrange(m, j)[q - (m - i)] == s[i + q]);
        }
    }
    assert(s.subrange(i, j) =~= s.subrange(i, m) + s.subrange(m, j));
}

proof fn lemma_run_end_props(s: Seq<u8>, i: int)
    requires
        0 <= i <= s.len(),
    ensures
        i <= run_end(s, i) <= s.len(),
        forall|t: int| i <= t < run_end(s, i) ==> is_digit(#[trigger] s[t]),
        run_end(s, i) == s.len() || !is_digit(s[run_end(s, i)]),
    decreases s.len() - i,
{
    if i < s.len() && is_digit(s[i]) {
        lemma_run_end_props(s, i + 1);
    }
}

proof fn lemma_digits_inv(s: Seq<u8>, k: int, e: int)
    requires
        0 <= k < e <= s.len(),
        forall|t: int| k <= t < e ==> is_digit(#[trigger] s[t]),
        s[k] == 0x30 ==> e == k + 1,
    ensures
        s.subrange(k, e) == dec_digits(digits_val(s, k, e)),
        s[k] != 0x30 ==> digits_val(s, k, e) >= 1,
    decreases e - k,
{
    let v = digits_val(s, k, e);
    if e == k + 1 {
        assert(digits_val(s, k, k) == 0);
        assert(v == (s[k] - 0x30) as nat);
        assert(v < 10);
        assert(dec_digits(v) == seq![(0x30 + v) as u8]);
        assert(s.subrange(k, e) =~= seq![(0x30 + v) as u8]);
    } else {
        assert(s[k] != 0x30);
        lemma_digits_inv(s, k, e - 1);
        let vp = digits_val(s, k, e - 1);
        let d = (s[e - 1] - 0x30) as nat;
        assert(is_digit(s[e - 1]));
        assert(v == vp * 10 + d);
        assert(vp >= 1);
        assert(v >= 10);
        assert(v / 10 == vp && v % 10 == d);
        assert(dec_digits(v) == dec_digits(v / 10) + seq![(0x30 + v % 10) as u8]);
        assert(s[e - 1] == (0x30 + d) as u8);
        assert(s.subrange(k, e) =~= s.subrange(k, e - 1) + seq![s[e - 1]]);
    }
}

proof fn lemma_int_sound(s: Seq<u8>, i: int)
    requires
        sp_int(s, i) is Some,
    ensures
        ({
            let (n, j) = sp_int(s, i).unwrap();
            i < j <= s.len() && s.subrange(i, j) == enc_i64(n)
        }),
{
    let neg = s[i] == 0x2d;
    let k = if neg { i + 1 } else { i };
    lemma_run_end_props(s, k);
    let e = run_end(s, k);
    let v = digits_val(s, k, e);
    lemma_digits_inv(s, k, e);
    if neg {
        let n = (0 - v as int) as i64;
        assert(1 <= v <= 0x8000_0000_0000_0000);
        assert(n < 0);
        assert((-(n as int)) as nat == v);
        assert(enc_i64(n) == seq![0x2du8] + dec_digits(v));
        assert(s.subrange(i, e) =~= seq![0x2du8] + s.subrange(i + 1, e));
    } else {
        assert(is_digit(s[k]));
        let n = v as i64;
        assert(n >= 0);
        assert(enc_i64(n) == dec_digits(v));
    }
}

proof fn lemma_string_sound(s: Seq<u8>, i: int)
    requires
        sp_string(s, i) is Some,
    ensures
        ({
            let (c, j) = sp_string(s, i).unwrap();
            i + 2 <= j <= s.len() && s.subrange(i, j) == enc_str(c)
        }),
{
    lemma_str_end_bounds(s, i + 1);
    let e = str_end(s, i + 1);
    let c = s.subrange(i + 1, e);
    assert(s[e] == 0x22);
    assert(s[i] == 0x22);
    assert forall|q: int| 0 <= q < e + 1 - i implies s.subrange(i, e + 1)[q] == (seq![0x22u8] + c
        + seq![0x22u8])[q] by {
        if q == 0 {
        } else if q < e - i {
            assert(c[q - 1] == s[i + q]);
        }
    }
    assert(s.subrange(i, e + 1) =~= seq![0x22u8] + c + seq![0x22u8]);
}

proof fn lemma_fv_sound(s: Seq<u8>, i: int)
    requires
        sp_field_value(s, i) is Some,
    ensures
        ({
            let (v, j) = sp_field_value(s, i).unwrap();
            i < j <= s.len() && s.subrange(i, j) == enc_field_value(v)
        }),
{
    if s[i] == 0x22 {
        lemma_string_sound(s, i);
    } else {
        lemma_int_sound(s, i);
    }
}

proof fn lemma_field_sound(s: Seq<u8>, i: int)
    requires
        sp_field(s, i) is Some,
    ensures
        ({
            let (f, j) = sp_field(s, i).unwrap();
            i < j <= s.len() && s.subrange(i, j) == enc_field(f)
        }),
{
    let (name, j) = sp_string(s, i).unwrap();
    lemma_string_sound(s, i);
    let (v, e) = sp_field_value(s, j + 1).unwrap();
    lemma_fv_sound(s, j + 1);
    assert(s[j] == 0x3a);
    lemma_join(s, i, j, e);
    lemma_join(s, j, j + 1, e);
    assert(s.subrange(j, j + 1) =~= seq![0x3au8]);
    assert(s.subrange(i, e) =~= enc_str(name) + seq![0x3au8] + enc_field_value(v));
}

proof fn lemma_fields_sound(s: Seq<u8>, i: int)
    requires
        sp_fields(s, i) is Some,
    ensures
        ({
            let (fs, j) = sp_fields(s, i).unwrap();
            fs.len() >= 1 && i < j < s.len() && s[j] == 0x7d && s.subrange(i, j) == enc_fields(fs)
        }),
    decreases s.len() - i,
{
    let (f, j) = sp_field(s, i).unwrap();
    lemma_field_sound(s, i);
    if j < s.len() && s[j] == 0x2c {
        let (rest, e) = sp_fields(s, j + 1).unwrap();
        lemma_fields_sound(s, j + 1);
        let fs = seq![f] + rest;
        assert(fs[0] == f);
        assert(fs.drop_first() =~= rest);
        assert(fs.len() >= 2);
        assert(enc_fields(fs) == enc_field(f) + seq![0x2cu8] + enc_fields(rest));
        lemma_join(s, i, j, e);
        lemma_join(s, j, j + 1, e);
        assert(s.subrange(j, j + 1) =~= seq![0x2cu8]);
        assert(s.subrange(i, e) =~= enc_field(f) + seq![0x2cu8] + enc_fields(rest));
    } else {
        assert(enc_fields(seq![f]) == enc_field(seq![f][0]));
    }
}

proof fn lemma_item_sound(s: Seq<u8>, i: int)
    requires
        sp_item(s, i) is Some,
    ensures
        ({
            let (it, j) = sp_item(s, i).unwrap();
            i + 2 <= j <= s.len() && s.subrange(i, j) == enc_item(it)
        }),
{
    assert(s[i] == 0x7b);
    if i + 1 < s.len() && s[i + 1] == 0x7d {
        assert(enc_fields(Seq::<FieldV>::empty()) == Seq::<u8>::empty());
        assert(s.subrange(i, i + 2) =~= seq![0x7bu8] + Seq::<u8>::empty() + seq![0x7du8]);
    } else {
        let (fs, j) = sp_fields(s, i + 1).unwrap();
        lemma_fields_sound(s, i + 1);
        lemma_join(s, i, i + 1, j + 1);
        lemma_join(s, i + 1, j, j + 1);
        assert(s.subrange(i, i + 1) =~= seq![0x7bu8]);
        assert(s.subrange(j, j + 1) =~= seq![0x7du8]);
        assert(s.subrange(i, j + 1) =~= seq![0x7bu8] + enc_fields(fs) + seq![0x7du8]);
    }
}

proof fn lemma_items_inner_sound(s: Seq<u8>, i: int)
    requires
        sp_items_inner(s, i) is Some,
    ensures
        ({
            let (v, j) = sp_items_inner(s, i).unwrap();
            v.len() >= 1 && i < j < s.len() && s[j] == 0x5d && s.subrange(i, j)
                == enc_items_inner(v)
        }),
    decreases s.len() - i,
{
    let (it, j) = sp_item(s, i).unwrap();
    lemma_item_sound(s, i);
    if j < s.len() && s[j] == 0x2c {
        let (rest, e) = sp_items_inner(s, j + 1).unwrap();
        lemma_items_inner_sound(s, j + 1);
        let v = seq![it] + rest;
        assert(v[0] == it);
        assert(v.drop_first() =~= rest);
        assert(v.len() >= 2);
        assert(enc_items_inner(v) == enc_item(it) + seq![0x2cu8] + enc_items_inner(rest));
        lemma_join(s, i, j, e);
        lemma_join(s, j, j + 1, e);
        assert(s.subrange(j, j + 1) =~= seq![0x2cu8]);
        assert(s.subrange(i, e) =~= enc_item(it) + seq![0x2cu8] + enc_items_inner(rest));
    } else {
        assert(enc_items_inner(seq![it]) == enc_item(seq![it][0]));
    }
}

proof fn lemma_items_sound(s: Seq<u8>, i: int)
    requires
        sp_items(s, i) is Some,
    ensures
        ({
            let (v, j) = sp_items(s, i).unwrap();
            i + 2 <= j <= s.len() && s.subrange(i, j) == enc_items(v)
        }),
{
    assert(s[i] == 0x5b);
    if i + 1 < s.len() && s[i + 1] == 0x5d {
        assert(enc_items_inner(Seq::<ItemV>::empty()) == Seq::<u8>::empty());
        assert(s.subrange(i, i + 2) =~= seq![0x5bu8] + Seq::<u8>::empty() + seq![0x5du8]);
    } else {
        let (v, j) = sp_items_inner(s, i + 1).unwrap();
        lemma_items_inner_sound(s, i + 1);
        lemma_join(s, i, i + 1, j + 1);
        lemma_join(s, i + 1, j, j + 1);
        assert(s.subrange(i, i + 1) =~= seq![0x5bu8]);
        assert(s.subrange(j, j + 1) =~= seq![0x5du8]);
        assert(s.subrange(i, j + 1) =~= seq![0x5bu8] + enc_items_inner(v) + seq![0x5du8]);
    }
}

proof fn lemma_day_scalar_sound(s: Seq<u8>, i: int)
    requires
        sp_day_scalar(s, i) is Some,
    ensures
        ({
            let (d, j) = sp_day_scalar(s, i).unwrap();
            i < j <= s.len() && s.subrange(i, j) == enc_day_scalar(d)
        }),
{
    let a1 = sp_lit(s, i, lit_day_open()).unwrap();
    let (day, a2) = sp_string(s, a1).unwrap();
    lemma_string_sound(s, a1);
    let a3 = sp_lit(s, a2, lit_value_mid()).unwrap();
    let (n, e) = sp_int(s, a3).unwrap();
    lemma_int_sound(s, a3);
    assert(s[e] == 0x7d);
    assert(s.subrange(i, a1) == lit_day_open());
    assert(s.subrange(a2, a3) == lit_value_mid());
    lemma_join(s, i, a1, e + 1);
    lemma_join(s, a1, a2, e + 1);
    lemma_join(s, a2, a3, e + 1);
    lemma_join(s, a3, e, e + 1);
    assert(s.subrange(e, e + 1) =~= seq![0x7du8]);
    assert(s.subrange(i, e + 1) =~= lit_day_open() + enc_str(day) + lit_value_mid() + enc_i64(n)
        + seq![0x7du8]);
}

proof fn lemma_days_scalar_inner_sound(s: Seq<u8>, i: int)
    requires
        sp_days_scalar_inner(s, i) is Some,
    ensures
        ({
            let (v, j) = sp_days_scalar_inner(s, i).unwrap();
            v.len() >= 1 && i < j < s.len() && s[j] == 0x5d && s.subrange(i, j)
                == enc_days_scalar_inner(v)
        }),
    decreases s.len() - i,
{
    let (d, j) = sp_day_scalar(s, i).unwrap();
    lemma_day_scalar_sound(s, i);
    if j < s.len() && s[j] == 0x2c {
        let (rest, e) = sp_days_scalar_inner(s, j + 1).unwrap();
        lemma_days_scalar_inner_sound(s, j + 1);
        let v = seq![d] + rest;
        assert(v[0] == d);
        assert(v.drop_first() =~= rest);
        assert(v.len() >= 2);
        assert(enc_days_scalar_inner(v) == enc_day_scalar(d) + seq![0x2cu8]
            + enc_days_scalar_inner(rest));
        lemma_join(s, i, j, e);
        lemma_join(s, j, j + 1, e);
        assert(s.subrange(j, j + 1) =~= seq![0x2cu8]);
        assert(s.subrange(i, e) =~= enc_day_scalar(d) + seq![0x2cu8] + enc_days_scalar_inner(
            rest,
        ));
    } else {
        assert(enc_days_scalar_inner(seq![d]) == enc_day_scalar(seq![d][0]));
    }
}

proof fn lemma_days_scalar_sound(s: Seq<u8>, i: int)
    requires
        sp_days_scalar(s, i) is Some,
    ensures
        ({
            let (v, j) = sp_days_scalar(s, i).unwrap();
            i + 2 <= j <= s.len() && s.subrange(i, j) == enc_days_scalar(v)
        }),
{
    assert(s[i] == 0x5b);
    if i + 1 < s.len() && s[i + 1] == 0x5d {
        assert(enc_days_scalar_inner(Seq::<DayScalarV>::empty()) == Seq::<u8>::empty());
        assert(s.subrange(i, i + 2) =~= seq![0x5bu8] + Seq::<u8>::empty() + seq![0x5du8]);
    } else {
        let (v, j) = sp_days_scalar_inner(s, i + 1).unwrap();
        lemma_days_scalar_inner_sound(s, i + 1);
        lemma_join(s, i, i + 1, j + 1);
        lemma_join(s, i + 1, j, j + 1);
        assert(s.subrange(i, i + 1) =~= seq![0x5bu8]);
        assert(s.subrange(j, j + 1) =~= seq![0x5du8]);
        assert(s.subrange(i, j + 1) =~= seq![0x5bu8] + enc_days_scalar_inner(v) + seq![0x5du8]);
    }
}

proof fn lemma_day_items_sound(s: Seq<u8>, i: int)
    requires
        sp_day_items(s, i) is Some,
    ensures
        ({
            let (d, j) = sp_day_items(s, i).unwrap();
            i < j <= s.len() && s.subrange(i, j) == enc_day_items(d)
        }),
{
    let a1 = sp_lit(s, i, lit_day_open()).unwrap();
    let (day, a2) = sp_string(s, a1).unwrap();
    lemma_string_sound(s, a1);
    let a3 = sp_lit(s, a2, lit_value_mid()).unwrap();
    let (v, e) = sp_items(s, a3).unwrap();
    lemma_items_sound(s, a3);
    assert(s[e] == 0x7d);
    assert(s.subrange(i, a1) == lit_day_open());
    assert(s.subrange(a2, a3) == lit_value_mid());
    lemma_join(s, i, a1, e + 1);
    lemma_join(s, a1, a2, e + 1);
    lemma_join(s, a2, a3, e + 1);
    lemma_join(s, a3, e, e + 1);
    assert(s.subrange(e, e + 1) =~= seq![0x7du8]);
    assert(s.subrange(i, e + 1) =~= lit_day_open() + enc_str(day) + lit_value_mid() + enc_items(
        v,
    ) + seq![0x7du8]);
}

proof fn lemma_days_items_inner_sound(s: Seq<u8>, i: int)
    requires
        sp_days_items_inner(s, i) is Some,
    ensures
        ({
            let (v, j) = sp_days_items_inner(s, i).unwrap();
            v.len() >= 1 && i < j < s.len() && s[j] == 0x5d && s.subrange(i, j)
                == enc_days_items_inner(v)
        }),
    decreases s.len() - i,
{
    let (d, j) = sp_day_items(s, i).unwrap();
    lemma_day_items_sound(s, i);
    if j < s.len() && s[j] == 0x2c {
        let (rest, e) = sp_days_items_inner(s, j + 1).unwrap();
        lemma_days_items_inner_sound(s, j + 1);
        let v = seq![d] + rest;
        assert(v[0] == d);
        assert(v.drop_first() =~= rest);
        assert(v.len() >= 2);
        assert(enc_days_items_inner(v) == enc_day_items(d) + seq![0x2cu8]
            + enc_days_items_inner(rest));
        lemma_join(s, i, j, e);
        lemma_join(s, j, j + 1, e);
        assert(s.subrange(j, j + 1) =~= seq![0x2cu8]);
        assert(s.subrange(i, e) =~= enc_day_items(d) + seq![0x2cu8] + enc_days_items_inner(
            rest,
        ));
    } else {
        assert(enc_days_items_inner(seq![d]) == enc_day_items(seq![d][0]));
    }
}

proof fn lemma_days_items_sound(s: Seq<u8>, i: int)
    requires
        sp_days_items(s, i) is Some,
    ensures
        ({
            let (v, j) = sp_days_items(s, i).unwrap();
            i + 2 <= j <= s.len() && s.subrange(i, j) == enc_days_items(v)
        }),
{
    assert(s[i] == 0x5b);
    if i + 1 < s.len() && s[i + 1] == 0x5d {
        assert(enc_days_items_inner(Seq::<DayItemsV>::empty()) == Seq::<u8>::empty());
        assert(s.subrange(i, i + 2) =~= seq![0x5bu8] + Seq::<u8>::empty() + seq![0x5du8]);
    } else {
        let (v, j) = sp_days_items_inner(s, i + 1).unwrap();
        lemma_days_items_inner_sound(s, i + 1);
        lemma_join(s, i, i + 1, j + 1);
        lemma_join(s, i + 1, j, j + 1);
        assert(s.subrange(i, i + 1) =~= seq![0x5bu8]);
        assert(s.subrange(j, j + 1) =~= seq![0x5du8]);
        assert(s.subrange(i, j + 1) =~= seq![0x5bu8] + enc_days_items_inner(v) + seq![0x5du8]);
    }
}

/// Whatever the body parser accepts is exactly the canonical body of the
/// payload it returns: the bytes are pinned down by the result.
#[verifier::rlimit(50)]
pub proof fn lemma_body_sound(shape: ResultType, s: Seq<u8>)
    requires
        sp_body(shape, s) is Some,
    ensures
        s == enc_body(sp_body(shape, s).unwrap()),
{
    let i = sp_lit(s, 0, lit_body_open()).unwrap();
    assert(s.subrange(0, 10) == lit_body_open());
    let p = sp_body(shape, s).unwrap();
    let j: int = match shape {
        ResultType::POD => {
            lemma_int_sound(s, i);
            sp_int(s, i).unwrap().1
        },
        ResultType::ITEMS => {
            lemma_items_sound(s, i);
            sp_items(s, i).unwrap().1
        },
        ResultType::DAYSPOD => {
            lemma_days_scalar_sound(s, i);
            sp_days_scalar(s, i).unwrap().1
        },
        ResultType::DAYSITEMS => {
            lemma_days_items_sound(s, i);
            sp_days_items(s, i).unwrap().1
        },
    };
    assert(s[j] == 0x7d && j + 1 == s.len());
    lemma_join(s, 0, 10, s.len() as int);
    lemma_join(s, 10, j, s.len() as int);
    assert(s.subrange(j, j + 1) =~= seq![0x7du8]);
    assert(s.subrange(0, s.len() as int) =~= s);
    assert(s =~= lit_body_open() + enc_payload(p) + seq![0x7du8]);
}

/// Whatever the error parser accepts is exactly the canonical error body of
/// the error it returns.
#[verifier::rlimit(50)]
pub proof fn lemma_error_sound(s: Seq<u8>)
    requires
        sp_error(s) is Some,
    ensures
        s == enc_error(sp_error(s).unwrap()),
{
    let i = sp_lit(s, 0, lit_msg_open()).unwrap();
    assert(s.subrange(0, 11) == lit_msg_open());
    let (msg, j) = sp_string(s, i).unwrap();
    lemma_string_sound(s, i);
    let k = sp_lit(s, j, lit_code_mid()).unwrap();
    assert(s.subrange(j, j + 14) == lit_code_mid());
    let (code, e) = sp_string(s, k).unwrap();
    lemma_string_sound(s, k);
    assert(s[e] == 0x7d && e + 1 == s.len());
    lemma_join(s, 0, 11, s.len() as int);
    lemma_join(s, 11, j, s.len() as int);
    lemma_join(s, j, k, s.len() as int);
    lemma_join(s, k, e, s.len() as int);
    assert(s.subrange(e, e + 1) =~= seq![0x7du8]);
    assert(s.subrange(0, s.len() as int) =~= s);
    assert(s =~= lit_msg_open() + enc_str(msg) + lit_code_mid() + enc_str(code) + seq![0x7du8]);
}

} // verus!
