//! Canonical JSON codec for the four payload shapes and the service error
//! body.
//!
//! The encoding is a fixed, whitespace-free JSON form:
//!   - a body is `{"result":P}` where `P` encodes the payload,
//!   - a scalar is a decimal integer, minus-signed when negative,
//!   - an item is `{"name":value,...}` with string or integer values,
//!   - a day bucket is `{"day":"D","value":V}` with `V` a scalar or an item
//!     list, and a series is `[...]` of buckets,
//!   - an error body is `{"message":"M","error_code":"C"}`.
//!
//! `enc_*` are the spec encoders, `sp_*` the spec parser. The parser accepts
//! exactly the canonical encodings; `lemma_body_complete` proves that every
//! well-formed payload's encoding parses back to that payload.

use vstd::prelude::*;

use crate::payload::{DayItemsV, DayScalarV, FieldV, FieldValueV, ItemV, PayloadV};
use crate::errors::KeenErrorV;
use crate::ResultType;

verus! {

// ---------------------------------------------------------------------------
// Spec encoders
// ---------------------------------------------------------------------------

pub open spec fn is_digit(b: u8) -> bool {
    0x30 <= b <= 0x39
}

/// Decimal digits of `n`, most significant first.
pub open spec fn dec_digits(n: nat) -> Seq<u8>
    decreases n,
{
    if n < 10 {
        seq![(0x30 + n) as u8]
    } else {
        dec_digits(n / 10) + seq![(0x30 + n % 10) as u8]
    }
}

/// Canonical decimal encoding of a signed integer.
pub open spec fn enc_i64(n: i64) -> Seq<u8> {
    if n < 0 {
        seq![0x2du8] + dec_digits((-(n as int)) as nat)
    } else {
        dec_digits(n as nat)
    }
}

/// A quoted string; the contents are carried verbatim.
pub open spec fn enc_str(s: Seq<u8>) -> Seq<u8> {
    seq![0x22u8] + s + seq![0x22u8]
}

pub open spec fn enc_field_value(v: FieldValueV) -> Seq<u8> {
    match v {
        FieldValueV::Str(s) => enc_str(s),
        FieldValueV::Int(n) => enc_i64(n),
    }
}

pub open spec fn enc_field(f: FieldV) -> Seq<u8> {
    enc_str(f.name) + seq![0x3au8] + enc_field_value(f.value)
}

/// Comma-joined fields, at least one.
pub open spec fn enc_fields(fs: Seq<FieldV>) -> Seq<u8>
    decreases fs.len(),
{
    if fs.len() == 0 {
        Seq::empty()
    } else if fs.len() == 1 {
        enc_field(fs[0])
    } else {
        enc_field(fs[0]) + seq![0x2cu8] + enc_fields(fs.drop_first())
    }
}

pub open spec fn enc_item(it: ItemV) -> Seq<u8> {
    seq![0x7bu8] + enc_fields(it.fields) + seq![0x7du8]
}

/// Comma-joined items, at least one.
pub open spec fn enc_items_inner(v: Seq<ItemV>) -> Seq<u8>
    decreases v.len(),
{
    if v.len() == 0 {
        Seq::empty()
    } else if v.len() == 1 {
        enc_item(v[0])
    } else {
        enc_item(v[0]) + seq![0x2cu8] + enc_items_inner(v.drop_first())
    }
}

pub open spec fn enc_items(v: Seq<ItemV>) -> Seq<u8> {
    seq![0x5bu8] + enc_items_inner(v) + seq![0x5du8]
}

/// `{"day":`
pub open spec fn lit_day_open() -> Seq<u8> {
    seq![0x7bu8, 0x22, 0x64, 0x61, 0x79, 0x22, 0x3a]
}

/// `,"value":`
pub open spec fn lit_value_mid() -> Seq<u8> {
    seq![0x2cu8, 0x22, 0x76, 0x61, 0x6c, 0x75, 0x65, 0x22, 0x3a]
}

/// `{"result":`
pub open spec fn lit_body_open() -> Seq<u8> {
    seq![0x7bu8, 0x22, 0x72, 0x65, 0x73, 0x75, 0x6c, 0x74, 0x22, 0x3a]
}

/// `{"message":`
pub open spec fn lit_msg_open() -> Seq<u8> {
    seq![0x7bu8, 0x22, 0x6d, 0x65, 0x73, 0x73, 0x61, 0x67, 0x65, 0x22, 0x3a]
}

/// `,"error_code":`
pub open spec fn lit_code_mid() -> Seq<u8> {
    seq![0x2cu8, 0x22, 0x65, 0x72, 0x72, 0x6f, 0x72, 0x5f, 0x63, 0x6f, 0x64, 0x65, 0x22, 0x3a]
}

pub open spec fn enc_day_scalar(d: DayScalarV) -> Seq<u8> {
    lit_day_open() + enc_str(d.day) + lit_value_mid() + enc_i64(d.value) + seq![0x7du8]
}

pub open spec fn enc_days_scalar_inner(v: Seq<DayScalarV>) -> Seq<u8>
    decreases v.len(),
{
    if v.len() == 0 {
        Seq::empty()
    } else if v.len() == 1 {
        enc_day_scalar(v[0])
    } else {
        enc_day_scalar(v[0]) + seq![0x2cu8] + enc_days_scalar_inner(v.drop_first())
    }
}

pub open spec fn enc_days_scalar(v: Seq<DayScalarV>) -> Seq<u8> {
    seq![0x5bu8] + enc_days_scalar_inner(v) + seq![0x5du8]
}

pub open spec fn enc_day_items(d: DayItemsV) -> Seq<u8> {
    lit_day_open() + enc_str(d.day) + lit_value_mid() + enc_items(d.items) + seq![0x7du8]
}

pub open spec fn enc_days_items_inner(v: Seq<DayItemsV>) -> Seq<u8>
    decreases v.len(),
{
    if v.len() == 0 {
        Seq::empty()
    } else if v.len() == 1 {
        enc_day_items(v[0])
    } else {
        enc_day_items(v[0]) + seq![0x2cu8] + enc_days_items_inner(v.drop_first())
    }
}

pub open spec fn enc_days_items(v: Seq<DayItemsV>) -> Seq<u8> {
    seq![0x5bu8] + enc_days_items_inner(v) + seq![0x5du8]
}

pub open spec fn enc_payload(p: PayloadV) -> Seq<u8> {
    match p {
        PayloadV::Scalar(n) => enc_i64(n),
        PayloadV::Items(v) => enc_items(v),
        PayloadV::DaysScalar(v) => enc_days_scalar(v),
        PayloadV::DaysItems(v) => enc_days_items(v),
    }
}

/// The full analytics body wrapping a payload.
pub open spec fn enc_body(p: PayloadV) -> Seq<u8> {
    lit_body_open() + enc_payload(p) + seq![0x7du8]
}

/// The full service error body.
pub open spec fn enc_error(e: KeenErrorV) -> Seq<u8> {
    lit_msg_open() + enc_str(e.message) + lit_code_mid() + enc_str(e.error_code) + seq![0x7du8]
}

// ---------------------------------------------------------------------------
// Spec parser (accepts exactly the canonical encodings)
// ---------------------------------------------------------------------------

/// End of the digit run starting at `i`.
pub open spec fn run_end(s: Seq<u8>, i: int) -> int
    decreases s.len() - i,
{
    if i < 0 || i >= s.len() {
        i
    } else if is_digit(s[i]) {
        run_end(s, i + 1)
    } else {
        i
    }
}

/// Value of the digit run `s[i..j)`.
pub open spec fn digits_val(s: Seq<u8>, i: int, j: int) -> nat
    decreases j - i,
{
    if j <= i {
        0
    } else {
        digits_val(s, i, j - 1) * 10 + (if is_digit(s[j - 1]) {
            (s[j - 1] - 0x30) as nat
        } else {
            0
        })
    }
}

/// Parse a canonical signed decimal integer at `i`.
pub open spec fn sp_int(s: Seq<u8>, i: int) -> Option<(i64, int)> {
    if !(0 <= i < s.len()) {
        None
    } else {
        let neg = s[i] == 0x2d;
        let k = if neg { i + 1 } else { i };
        let e = run_end(s, k);
        if e <= k || !(0 <= k < s.len()) {
            None
        } else if s[k] == 0x30 && e > k + 1 {
            None
        } else {
            let v = digits_val(s, k, e);
            if neg {
                if 1 <= v <= 0x8000_0000_0000_0000 {
                    Some(((0 - v as int) as i64, e))
                } else {
                    None
                }
            } else {
                if v <= 0x7fff_ffff_ffff_ffff {
                    Some((v as i64, e))
                } else {
                    None
                }
            }
        }
    }
}

/// Position of the first quote at or after `i`.
pub open spec fn str_end(s: Seq<u8>, i: int) -> int
    decreases s.len() - i,
{
    if i < 0 || i >= s.len() {
        i
    } else if s[i] == 0x22 {
        i
    } else {
        str_end(s, i + 1)
    }
}

/// All bytes of `s[i..j)` may stand verbatim in a string.
pub open spec fn range_wf(s: Seq<u8>, i: int, j: int) -> bool {
    forall|k: int| i <= k < j ==> 0x20 <= #[trigger] s[k] && s[k] != 0x22 && s[k] != 0x5c
}

/// Parse a quoted string at `i`.
pub open spec fn sp_string(s: Seq<u8>, i: int) -> Option<(Seq<u8>, int)> {
    if !(0 <= i < s.len()) || s[i] != 0x22 {
        None
    } else {
        let e = str_end(s, i + 1);
        if e >= s.len() || !range_wf(s, i + 1, e) {
            None
        } else {
            Some((s.subrange(i + 1, e), e + 1))
        }
    }
}

/// Match the fixed byte sequence `lit` at `i`.
pub open spec fn sp_lit(s: Seq<u8>, i: int, lit: Seq<u8>) -> Option<int> {
    if 0 <= i && i + lit.len() <= s.len() && s.subrange(i, i + lit.len()) == lit {
        Some(i + lit.len())
    } else {
        None
    }
}

/// Parse a field value: a string when a quote follows, an integer otherwise.
pub open spec fn sp_field_value(s: Seq<u8>, i: int) -> Option<(FieldValueV, int)> {
    if !(0 <= i < s.len()) {
        None
    } else if s[i] == 0x22 {
        match sp_string(s, i) {
            Some((c, j)) => Some((FieldValueV::Str(c), j)),
            None => None,
        }
    } else {
        match sp_int(s, i) {
            Some((n, j)) => Some((FieldValueV::Int(n), j)),
            None => None,
        }
    }
}

/// Parse `"name":value` at `i`.
pub open spec fn sp_field(s: Seq<u8>, i: int) -> Option<(FieldV, int)> {
    match sp_string(s, i) {
        Some((name, j)) => if j < s.len() && s[j] == 0x3a {
            match sp_field_value(s, j + 1) {
                Some((v, e)) => Some((FieldV { name, value: v }, e)),
                None => None,
            }
        } else {
            None
        },
        None => None,
    }
}

/// Parse a non-empty comma-joined field list; stops at the position of the
/// closing brace without consuming it.
pub open spec fn sp_fields(s: Seq<u8>, i: int) -> Option<(Seq<FieldV>, int)>
    decreases s.len() - i,
{
    match sp_field(s, i) {
        Some((f, j)) => if j <= i {
            None
        } else if j < s.len() && s[j] == 0x2c {
            match sp_fields(s, j + 1) {
                Some((fs, e)) => Some((seq![f] + fs, e)),
                None => None,
            }
        } else if j < s.len() && s[j] == 0x7d {
            Some((seq![f], j))
        } else {
            None
        },
        None => None,
    }
}

/// Parse one item at `i`.
pub open spec fn sp_item(s: Seq<u8>, i: int) -> Option<(ItemV, int)> {
    if !(0 <= i < s.len()) || s[i] != 0x7b {
        None
    } else if i + 1 < s.len() && s[i + 1] == 0x7d {
        Some((ItemV { fields: Seq::empty() }, i + 2))
    } else {
        match sp_fields(s, i + 1) {
            Some((fs, j)) => Some((ItemV { fields: fs }, j + 1)),
            None => None,
        }
    }
}

/// Parse a non-empty comma-joined item list; stops at the closing bracket.
pub open spec fn sp_items_inner(s: Seq<u8>, i: int) -> Option<(Seq<ItemV>, int)>
    decreases s.len() - i,
{
    match sp_item(s, i) {
        Some((it, j)) => if j <= i {
            None
        } else if j < s.len() && s[j] == 0x2c {
            match sp_items_inner(s, j + 1) {
                Some((v, e)) => Some((seq![it] + v, e)),
                None => None,
            }
        } else if j < s.len() && s[j] == 0x5d {
            Some((seq![it], j))
        } else {
            None
        },
        None => None,
    }
}

/// Parse `[...]` of items at `i`.
pub open spec fn sp_items(s: Seq<u8>, i: int) -> Option<(Seq<ItemV>, int)> {
    if !(0 <= i < s.len()) || s[i] != 0x5b {
        None
    } else if i + 1 < s.len() && s[i + 1] == 0x5d {
        Some((Seq::empty(), i + 2))
    } else {
        match sp_items_inner(s, i + 1) {
            Some((v, j)) => Some((v, j + 1)),
            None => None,
        }
    }
}

/// Parse `{"day":"D","value":V}` with a scalar value.
pub open spec fn sp_day_scalar(s: Seq<u8>, i: int) -> Option<(DayScalarV, int)> {
    match sp_lit(s, i, lit_day_open()) {
        Some(j) => match sp_string(s, j) {
            Some((day, k)) => match sp_lit(s, k, lit_value_mid()) {
                Some(m) => match sp_int(s, m) {
                    Some((n, e)) => if e < s.len() && s[e] == 0x7d {
                        Some((DayScalarV { day, value: n }, e + 1))
                    } else {
                        None
                    },
                    None => None,
                },
                None => None,
            },
            None => None,
        },
        None => None,
    }
}

pub open spec fn sp_days_scalar_inner(s: Seq<u8>, i: int) -> Option<(Seq<DayScalarV>, int)>
    decreases s.len() - i,
{
    match sp_day_scalar(s, i) {
        Some((d, j)) => if j <= i {
            None
        } else if j < s.len() && s[j] == 0x2c {
            match sp_days_scalar_inner(s, j + 1) {
                Some((v, e)) => Some((seq![d] + v, e)),
                None => None,
            }
        } else if j < s.len() && s[j] == 0x5d {
            Some((seq![d], j))
        } else {
            None
        },
        None => None,
    }
}

pub open spec fn sp_days_scalar(s: Seq<u8>, i: int) -> Option<(Seq<DayScalarV>, int)> {
    if !(0 <= i < s.len()) || s[i] != 0x5b {
        None
    } else if i + 1 < s.len() && s[i + 1] == 0x5d {
        Some((Seq::empty(), i + 2))
    } else {
        match sp_days_scalar_inner(s, i + 1) {
            Some((v, j)) => Some((v, j + 1)),
            None => None,
        }
    }
}

/// Parse `{"day":"D","value":V}` with an item-list value.
pub open spec fn sp_day_items(s: Seq<u8>, i: int) -> Option<(DayItemsV, int)> {
    match sp_lit(s, i, lit_day_open()) {
        Some(j) => match sp_string(s, j) {
            Some((day, k)) => match sp_lit(s, k, lit_value_mid()) {
                Some(m) => match sp_items(s, m) {
                    Some((v, e)) => if e < s.len() && s[e] == 0x7d {
                        Some((DayItemsV { day, items: v }, e + 1))
                    } else {
                        None
                    },
                    None => None,
                },
                None => None,
            },
            None => None,
        },
        None => None,
    }
}

pub open spec fn sp_days_items_inner(s: Seq<u8>, i: int) -> Option<(Seq<DayItemsV>, int)>
    decreases s.len() - i,
{
    match sp_day_items(s, i) {
        Some((d, j)) => if j <= i {
            None
        } else if j < s.len() && s[j] == 0x2c {
            match sp_days_items_inner(s, j + 1) {
                Some((v, e)) => Some((seq![d] + v, e)),
                None => None,
            }
        } else if j < s.len() && s[j] == 0x5d {
            Some((seq![d], j))
        } else {
            None
        },
        None => None,
    }
}

pub open spec fn sp_days_items(s: Seq<u8>, i: int) -> Option<(Seq<DayItemsV>, int)> {
    if !(0 <= i < s.len()) || s[i] != 0x5b {
        None
    } else if i + 1 < s.len() && s[i + 1] == 0x5d {
        Some((Seq::empty(), i + 2))
    } else {
        match sp_days_items_inner(s, i + 1) {
            Some((v, j)) => Some((v, j + 1)),
            None => None,
        }
    }
}

/// Parse a whole analytics body of the given shape; the body must be consumed
/// exactly.
pub open spec fn sp_body(shape: ResultType, s: Seq<u8>) -> Option<PayloadV> {
    match sp_lit(s, 0, lit_body_open()) {
        Some(i) => {
            let parsed: Option<(PayloadV, int)> = match shape {
                ResultType::POD => match sp_int(s, i) {
                    Some((n, j)) => Some((PayloadV::Scalar(n), j)),
                    None => None,
                },
                ResultType::ITEMS => match sp_items(s, i) {
                    Some((v, j)) => Some((PayloadV::Items(v), j)),
                    None => None,
                },
                ResultType::DAYSPOD => match sp_days_scalar(s, i) {
                    Some((v, j)) => Some((PayloadV::DaysScalar(v), j)),
                    None => None,
                },
                ResultType::DAYSITEMS => match sp_days_items(s, i) {
                    Some((v, j)) => Some((PayloadV::DaysItems(v), j)),
                    None => None,
                },
            };
            match parsed {
                Some((p, j)) => if j + 1 == s.len() && s[j] == 0x7d {
                    Some(p)
                } else {
                    None
                },
                None => None,
            }
        },
        None => None,
    }
}

/// Parse a whole service error body; the body must be consumed exactly.
pub open spec fn sp_error(s: Seq<u8>) -> Option<KeenErrorV> {
    match sp_lit(s, 0, lit_msg_open()) {
        Some(i) => match sp_string(s, i) {
            Some((msg, j)) => match sp_lit(s, j, lit_code_mid()) {
                Some(k) => match sp_string(s, k) {
                    Some((code, e)) => if e + 1 == s.len() && s[e] == 0x7d {
                        Some(KeenErrorV { message: msg, error_code: code })
                    } else {
                        None
                    },
                    None => None,
                },
                None => None,
            },
            None => None,
        },
        None => None,
    }
}

} // verus!
