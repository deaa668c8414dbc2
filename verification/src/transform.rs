//! The two payload transformations: `accumulate` and `select`.
//!
//! Accumulation collapses a grouped or day-bucketed payload into a single
//! aggregate, summing with wrapping 64-bit arithmetic; it is total. Selection
//! projects a grouped payload down to the first entry whose fields contain
//! the given name/value pair; it fails when no entry matches.

use vstd::prelude::*;

use crate::payload::{
    day_items_wf, day_scalar_wf, days_items_view, days_scalar_view, fields_view, item_wf,
    items_view, payload_wf, DayItems, DayItemsV, DayScalar, DayScalarV, FieldV, FieldValue,
    FieldValueV, Item, ItemV, Payload, PayloadV,
};

verus! {

/// Wrapping 64-bit addition, the combination rule of every sum here.
pub open spec fn wadd(a: i64, b: i64) -> i64 {
    vstd::wrapping::i64_specs::wrapping_add(a, b)
}

/// The numeric contribution of one field: its integer value, or 0 for a
/// string field.
pub open spec fn field_int(f: FieldV) -> i64 {
    match f.value {
        FieldValueV::Int(n) => n,
        FieldValueV::Str(_) => 0,
    }
}

pub open spec fn fields_sum(fs: Seq<FieldV>) -> i64
    decreases fs.len(),
{
    if fs.len() == 0 {
        0
    } else {
        wadd(fields_sum(fs.drop_last()), field_int(fs.last()))
    }
}

/// The aggregate value of one entry: the wrapping sum of its integer fields.
pub open spec fn item_sum(it: ItemV) -> i64 {
    fields_sum(it.fields)
}

pub open spec fn items_sum(v: Seq<ItemV>) -> i64
    decreases v.len(),
{
    if v.len() == 0 {
        0
    } else {
        wadd(items_sum(v.drop_last()), item_sum(v.last()))
    }
}

pub open spec fn days_scalar_sum(v: Seq<DayScalarV>) -> i64
    decreases v.len(),
{
    if v.len() == 0 {
        0
    } else {
        wadd(days_scalar_sum(v.drop_last()), v.last().value)
    }
}

/// Merging day buckets of entries: their entry lists concatenated in order.
pub open spec fn days_items_concat(v: Seq<DayItemsV>) -> Seq<ItemV>
    decreases v.len(),
{
    if v.len() == 0 {
        Seq::empty()
    } else {
        days_items_concat(v.drop_last()) + v.last().items
    }
}

/// What `accumulate` produces, shape by shape. It is total: a scalar stays
/// itself, grouped and day-bucketed scalars collapse to their wrapping sum,
/// and day-bucketed entry lists merge into one entry list.
pub open spec fn spec_accumulate(p: PayloadV) -> PayloadV {
    match p {
        PayloadV::Scalar(n) => PayloadV::Scalar(n),
        PayloadV::Items(v) => PayloadV::Scalar(items_sum(v)),
        PayloadV::DaysScalar(v) => PayloadV::Scalar(days_scalar_sum(v)),
        PayloadV::DaysItems(v) => PayloadV::Items(days_items_concat(v)),
    }
}

pub open spec fn field_matches(f: FieldV, name: Seq<u8>, val: FieldValueV) -> bool {
    f.name == name && f.value == val
}

/// An entry matches when some field carries exactly the predicate's name and
/// value.
pub open spec fn item_matches(it: ItemV, name: Seq<u8>, val: FieldValueV) -> bool {
    exists|i: int| 0 <= i < it.fields.len() && field_matches(#[trigger] it.fields[i], name, val)
}

/// The aggregate of the first matching entry, or `None` when none matches.
pub open spec fn sel_items(v: Seq<ItemV>, name: Seq<u8>, val: FieldValueV) -> Option<i64>
    decreases v.len(),
{
    if v.len() == 0 {
        None
    } else if item_matches(v[0], name, val) {
        Some(item_sum(v[0]))
    } else {
        sel_items(v.drop_first(), name, val)
    }
}

/// Per-day selection: every day must contain a matching entry, and each day
/// keeps its label with the aggregate of its first match.
pub open spec fn sel_days(v: Seq<DayItemsV>, name: Seq<u8>, val: FieldValueV) -> Option<
    Seq<DayScalarV>,
>
    decreases v.len(),
{
    if v.len() == 0 {
        Some(Seq::empty())
    } else {
        match sel_items(v[0].items, name, val) {
            Option::None => None,
            Option::Some(x) => match sel_days(v.drop_first(), name, val) {
                Option::None => None,
                Option::Some(rest) => Some(seq![DayScalarV { day: v[0].day, value: x }] + rest),
            },
        }
    }
}

/// What `select` produces: defined on grouped shapes only, failing when no
/// entry matches (for day buckets: when some day has no matching entry).
pub open spec fn spec_select(p: PayloadV, name: Seq<u8>, val: FieldValueV) -> Option<PayloadV> {
    match p {
        PayloadV::Scalar(_) => None,
        PayloadV::DaysScalar(_) => None,
        PayloadV::Items(v) => match sel_items(v, name, val) {
            Option::Some(x) => Some(PayloadV::Scalar(x)),
            Option::None => None,
        },
        PayloadV::DaysItems(v) => match sel_days(v, name, val) {
            Option::Some(ds) => Some(PayloadV::DaysScalar(ds)),
            Option::None => None,
        },
    }
}

proof fn lemma_days_items_concat_wf(v: Seq<DayItemsV>)
    requires
        forall|i: int| 0 <= i < v.len() ==> day_items_wf(#[trigger] v[i]),
    ensures
        forall|i: int|
            0 <= i < days_items_concat(v).len() ==> item_wf(#[trigger] days_items_concat(v)[i]),
    decreases v.len(),
{
    if v.len() > 0 {
        assert forall|i: int| 0 <= i < v.drop_last().len() implies day_items_wf(
            #[trigger] v.drop_last()[i],
        ) by {
            assert(v.drop_last()[i] == v[i]);
        }
        lemma_days_items_concat_wf(v.drop_last());
        assert(day_items_wf(v.last()));
        assert forall|i: int| 0 <= i < days_items_concat(v).len() implies item_wf(
            #[trigger] days_items_concat(v)[i],
        ) by {
            if i < days_items_concat(v.drop_last()).len() {
                assert(days_items_concat(v)[i] == days_items_concat(v.drop_last())[i]);
            } else {
                assert(days_items_concat(v)[i] == v.last().items[i - days_items_concat(
                    v.drop_last(),
                ).len()]);
            }
        }
    }
}

/// Accumulation preserves well-formedness.
pub proof fn lemma_accumulate_wf(p: PayloadV)
    requires
        payload_wf(p),
    ensures
        payload_wf(spec_accumulate(p)),
{
    match p {
        PayloadV::DaysItems(v) => {
            lemma_days_items_concat_wf(v);
        },
        _ => {},
    }
}

proof fn lemma_sel_days_wf(v: Seq<DayItemsV>, name: Seq<u8>, val: FieldValueV)
    requires
        forall|i: int| 0 <= i < v.len() ==> day_items_wf(#[trigger] v[i]),
        sel_days(v, name, val) is Some,
    ensures
        forall|i: int|
            0 <= i < sel_days(v, name, val).unwrap().len() ==> day_scalar_wf(
                #[trigger] sel_days(v, name, val).unwrap()[i],
            ),
    decreases v.len(),
{
    if v.len() > 0 {
        assert forall|i: int| 0 <= i < v.drop_first().len() implies day_items_wf(
            #[trigger] v.drop_first()[i],
        ) by {
            assert(v.drop_first()[i] == v[i + 1]);
        }
        lemma_sel_days_wf(v.drop_first(), name, val);
        let rest = sel_days(v.drop_first(), name, val).unwrap();
        let x = sel_items(v[0].items, name, val).unwrap();
        let ds = sel_days(v, name, val).unwrap();
        assert forall|i: int| 0 <= i < ds.len() implies day_scalar_wf(#[trigger] ds[i]) by {
            if i == 0 {
                assert(ds[0] == DayScalarV { day: v[0].day, value: x });
                assert(day_items_wf(v[0]));
            } else {
                assert(ds[i] == rest[i - 1]);
            }
        }
    }
}

/// Selection preserves well-formedness.
pub proof fn lemma_select_wf(p: PayloadV, name: Seq<u8>, val: FieldValueV)
    requires
        payload_wf(p),
        spec_select(p, name, val) is Some,
    ensures
        payload_wf(spec_select(p, name, val).unwrap()),
{
    match p {
        PayloadV::DaysItems(v) => {
            lemma_sel_days_wf(v, name, val);
        },
        _ => {},
    }
}

// ---------------------------------------------------------------------------
// Exec
// ---------------------------------------------------------------------------

/// The wrapping sum of one entry's integer fields.
#[verifier::loop_isolation(false)]
fn item_sum_exec(it: &Item) -> (r: i64)
    ensures
        r == item_sum(it@),
{
    let mut acc: i64 = 0;
    let mut i: usize = 0;
    let ghost g = fields_view(it.fields@);
    while i < it.fields.len()
        invariant
            i <= it.fields@.len(),
            acc == fields_sum(g.take(i as int)),
        decreases it.fields@.len() - i,
    {
        let d: i64 = match &it.fields[i].value {
            FieldValue::Int(n) => *n,
            FieldValue::Str(_) => 0,
        };
        proof {
            assert(g.take(i as int + 1).drop_last() =~= g.take(i as int));
            assert(g.take(i as int + 1).last() == g[i as int]);
            assert(g[i as int] == it.fields@[i as int]@);
            assert(d == field_int(g[i as int]));
        }
        acc = acc.wrapping_add(d);
        i += 1;
    }
    proof {
        assert(g.take(g.len() as int) =~= g);
    }
    acc
}

/// The wrapping sum of all entries.
#[verifier::loop_isolation(false)]
fn items_sum_exec(v: &Vec<Item>) -> (r: i64)
    ensures
        r == items_sum(items_view(v@)),
{
    let mut acc: i64 = 0;
    let mut i: usize = 0;
    let ghost g = items_view(v@);
    while i < v.len()
        invariant
            i <= v@.len(),
            acc == items_sum(g.take(i as int)),
        decreases v@.len() - i,
    {
        let s = item_sum_exec(&v[i]);
        proof {
            assert(g.take(i as int + 1).drop_last() =~= g.take(i as int));
            assert(g.take(i as int + 1).last() == g[i as int]);
            assert(g[i as int] == v@[i as int]@);
        }
        acc = acc.wrapping_add(s);
        i += 1;
    }
    proof {
        assert(g.take(g.len() as int) =~= g);
    }
    acc
}

/// The wrapping sum of all day buckets.
#[verifier::loop_isolation(false)]
fn days_scalar_sum_exec(v: &Vec<DayScalar>) -> (r: i64)
    ensures
        r == days_scalar_sum(days_scalar_view(v@)),
{
    let mut acc: i64 = 0;
    let mut i: usize = 0;
    let ghost g = days_scalar_view(v@);
    while i < v.len()
        invariant
            i <= v@.len(),
            acc == days_scalar_sum(g.take(i as int)),
        decreases v@.len() - i,
    {
        let d = v[i].value;
        proof {
            assert(g.take(i as int + 1).drop_last() =~= g.take(i as int));
            assert(g.take(i as int + 1).last() == g[i as int]);
            assert(g[i as int] == v@[i as int]@);
        }
        acc = acc.wrapping_add(d);
        i += 1;
    }
    proof {
        assert(g.take(g.len() as int) =~= g);
    }
    acc
}

/// All day buckets' entry lists, concatenated in order.
#[verifier::loop_isolation(false)]
fn concat_days_exec(v: Vec<DayItems>) -> (r: Vec<Item>)
    ensures
        items_view(r@) == days_items_concat(days_items_view(v@)),
{
    let ghost dv = days_items_view(v@);
    let mut w = v;
    let mut out: Vec<Item> = Vec::new();
    let ghost k: int = 0;
    while w.len() > 0
        invariant
            w@.len() <= dv.len(),
            days_items_view(w@) == dv.skip(dv.len() - w@.len()),
            items_view(out@) == days_items_concat(dv.take(dv.len() - w@.len())),
        decreases w@.len(),
    {
        let ghost k = dv.len() - w@.len();
        let ghost outv = out@;
        let ghost wv = w@;
        let mut day = w.remove(0);
        let ghost dayv = day.items@;
        out.append(&mut day.items);
        proof {
            assert(out@ =~= outv + dayv);
            assert(dv.skip(k)[0] == dv[k]);
            assert(days_items_view(wv)[0] == wv[0]@);
            assert(wv[0]@ == dv[k]);
            assert(dv[k].items == items_view(dayv));
            assert(w@ =~= wv.drop_first());
            assert(days_items_view(w@) =~= dv.skip(k + 1)) by {
                assert forall|q: int| 0 <= q < w@.len() implies days_items_view(w@)[q] == dv.skip(
                    k + 1,
                )[q] by {
                    assert(days_items_view(w@)[q] == w@[q]@);
                    assert(w@[q] == wv[q + 1]);
                    assert(days_items_view(wv)[q + 1] == wv[q + 1]@);
                    assert(dv.skip(k)[q + 1] == dv[k + 1 + q]);
                    assert(dv.skip(k + 1)[q] == dv[k + 1 + q]);
                }
            }
            assert(dv.take(k + 1).drop_last() =~= dv.take(k));
            assert(dv.take(k + 1).last() == dv[k]);
            assert(days_items_concat(dv.take(k + 1)) == days_items_concat(dv.take(k))
                + dv[k].items);
            assert(items_view(out@) =~= items_view(outv) + items_view(dayv)) by {
                assert forall|q: int| 0 <= q < out@.len() implies items_view(out@)[q] == (
                items_view(outv) + items_view(dayv))[q] by {
                    if q < outv.len() {
                        assert(out@[q] == outv[q]);
                    } else {
                        assert(out@[q] == dayv[q - outv.len()]);
                    }
                }
            }
        }
    }
    proof {
        assert(dv.take(dv.len() as int) =~= dv);
    }
    out
}

/// Collapse a payload to its aggregate, as `spec_accumulate` says; total for
/// every shape.
pub fn accumulate_payload(p: Payload) -> (r: Payload)
    ensures
        r@ == spec_accumulate(p@),
{
    match p {
        Payload::Scalar(n) => Payload::Scalar(n),
        Payload::Items(v) => Payload::Scalar(items_sum_exec(&v)),
        Payload::DaysScalar(v) => Payload::Scalar(days_scalar_sum_exec(&v)),
        Payload::DaysItems(v) => Payload::Items(concat_days_exec(v)),
    }
}

/// Byte-string equality.
fn bytes_eq(a: &[u8], b: &[u8]) -> (r: bool)
    ensures
        r == (a@ == b@),
{
    if a.len() != b.len() {
        return false;
    }
    let mut i: usize = 0;
    while i < a.len()
        invariant
            i <= a@.len(),
            a@.len() == b@.len(),
            forall|t: int| 0 <= t < i ==> a@[t] == b@[t],
        decreases a@.len() - i,
    {
        if a[i] != b[i] {
            return false;
        }
        i += 1;
    }
    proof {
        assert(a@ =~= b@);
    }
    true
}

fn field_value_eq(a: &FieldValue, b: &FieldValue) -> (r: bool)
    ensures
        r == (a@ == b@),
{
    match (a, b) {
        (FieldValue::Str(x), FieldValue::Str(y)) => bytes_eq(x.as_slice(), y.as_slice()),
        (FieldValue::Int(x), FieldValue::Int(y)) => *x == *y,
        _ => false,
    }
}

/// Does some field of the entry carry exactly this name and value?
#[verifier::loop_isolation(false)]
fn item_matches_exec(it: &Item, name: &[u8], val: &FieldValue) -> (r: bool)
    ensures
        r == item_matches(it@, name@, val@),
{
    let mut i: usize = 0;
    let ghost g = fields_view(it.fields@);
    while i < it.fields.len()
        invariant
            i <= it.fields@.len(),
            forall|t: int| 0 <= t < i ==> !field_matches(#[trigger] g[t], name@, val@),
        decreases it.fields@.len() - i,
    {
        let f = &it.fields[i];
        proof {
            assert(g[i as int] == it.fields@[i as int]@);
        }
        if bytes_eq(f.name.as_slice(), name) && field_value_eq(&f.value, val) {
            proof {
                assert(field_matches(g[i as int], name@, val@));
                assert(it@.fields == g);
                assert((i as int) < it@.fields.len() && field_matches(
                    it@.fields[i as int],
                    name@,
                    val@,
                ));
            }
            return true;
        }
        i += 1;
    }
    false
}

/// First matching entry's aggregate, scanning in order.
#[verifier::loop_isolation(false)]
fn select_items_exec(v: &Vec<Item>, name: &[u8], val: &FieldValue) -> (r: Option<i64>)
    ensures
        r == sel_items(items_view(v@), name@, val@),
{
    let mut i: usize = 0;
    let ghost g = items_view(v@);
    proof {
        assert(g.skip(0) =~= g);
    }
    while i < v.len()
        invariant
            i <= v@.len(),
            sel_items(g, name@, val@) == sel_items(g.skip(i as int), name@, val@),
        decreases v@.len() - i,
    {
        proof {
            assert(g.skip(i as int)[0] == g[i as int]);
            assert(g[i as int] == v@[i as int]@);
        }
        if item_matches_exec(&v[i], name, val) {
            let x = item_sum_exec(&v[i]);
            return Some(x);
        }
        proof {
            assert(g.skip(i as int).drop_first() =~= g.skip(i as int + 1));
        }
        i += 1;
    }
    proof {
        assert(g.skip(g.len() as int) =~= Seq::<ItemV>::empty());
    }
    None
}

/// Per-day selection, consuming the day buckets.
#[verifier::loop_isolation(false)]
fn select_days_exec(v: Vec<DayItems>, name: &[u8], val: &FieldValue) -> (r: Option<
    Vec<DayScalar>,
>)
    ensures
        match r {
            Some(ds) => sel_days(days_items_view(v@), name@, val@) == Some(
                days_scalar_view(ds@),
            ),
            None => sel_days(days_items_view(v@), name@, val@) is None,
        },
{
    let ghost dv = days_items_view(v@);
    let mut w = v;
    let mut out: Vec<DayScalar> = Vec::new();
    while w.len() > 0
        invariant
            w@.len() <= dv.len(),
            days_items_view(w@) == dv.skip(dv.len() - w@.len()),
            match sel_days(days_items_view(w@), name@, val@) {
                Option::Some(rest) => sel_days(dv, name@, val@) == Some(
                    days_scalar_view(out@) + rest,
                ),
                Option::None => sel_days(dv, name@, val@) is None,
            },
        decreases w@.len(),
    {
        let ghost k = dv.len() - w@.len();
        let ghost outv = out@;
        proof {
            assert(days_items_view(w@)[0] == w@[0]@);
        }
        proof {
            assert(days_items_view(w@)[0] == dv.skip(k)[0]);
        }
        let x = match select_items_exec(&w[0].items, name, val) {
            Some(x) => x,
            None => {
                proof {
                    assert(days_items_view(w@)[0] == w@[0]@);
                    assert(sel_days(days_items_view(w@), name@, val@) is None);
                }
                return None;
            },
        };
        let ghost wv = w@;
        let day = w.remove(0);
        out.push(DayScalar { day: day.day, value: x });
        proof {
            let ghost wv_old = dv.skip(k);
            assert(days_items_view(wv)[0] == wv[0]@);
            assert(wv[0]@ == wv_old[0]);
            assert(day == wv[0]);
            assert(w@ =~= wv.drop_first());
            assert(days_items_view(w@) =~= dv.skip(k + 1)) by {
                assert forall|q: int| 0 <= q < w@.len() implies days_items_view(w@)[q] == dv.skip(
                    k + 1,
                )[q] by {
                    assert(days_items_view(w@)[q] == w@[q]@);
                    assert(w@[q] == wv[q + 1]);
                    assert(days_items_view(wv)[q + 1] == wv[q + 1]@);
                    assert(dv.skip(k)[q + 1] == dv[k + 1 + q]);
                    assert(dv.skip(k + 1)[q] == dv[k + 1 + q]);
                }
            }
            assert(sel_items(wv_old[0].items, name@, val@) == Some(x));
            assert(days_scalar_view(out@) =~= days_scalar_view(outv) + seq![
                DayScalarV { day: wv_old[0].day, value: x },
            ]) by {
                assert forall|q: int| 0 <= q < out@.len() implies days_scalar_view(out@)[q] == (
                days_scalar_view(outv) + seq![DayScalarV { day: wv_old[0].day, value: x }])[q] by {
                    if q < outv.len() {
                        assert(out@[q] == outv[q]);
                    }
                }
            }
            assert(wv_old.drop_first() =~= dv.skip(k + 1));
            assert(sel_days(wv_old, name@, val@) == match sel_days(dv.skip(k + 1), name@, val@) {
                Option::None => Option::<Seq<DayScalarV>>::None,
                Option::Some(rest) => Some(
                    seq![DayScalarV { day: wv_old[0].day, value: x }] + rest,
                ),
            });
            if sel_days(dv.skip(k + 1), name@, val@) is Some {
                let rest = sel_days(dv.skip(k + 1), name@, val@).unwrap();
                assert(days_scalar_view(outv) + (seq![
                    DayScalarV { day: wv_old[0].day, value: x },
                ] + rest) =~= days_scalar_view(out@) + rest);
            }
        }
    }
    proof {
        assert(days_items_view(w@) =~= Seq::<DayItemsV>::empty());
        assert(sel_days(Seq::<DayItemsV>::empty(), name@, val@) == Some(
            Seq::<DayScalarV>::empty(),
        ));
        assert(days_scalar_view(out@) + Seq::<DayScalarV>::empty() =~= days_scalar_view(out@));
    }
    Some(out)
}

/// Project a payload by a field predicate, as `spec_select` says: `Some`
/// exactly when the spec selection is defined, and then with its value.
pub fn select_payload(p: Payload, name: &[u8], val: &FieldValue) -> (r: Option<Payload>)
    ensures
        match r {
            Some(q) => spec_select(p@, name@, val@) == Some(q@),
            None => spec_select(p@, name@, val@) is None,
        },
{
    match p {
        Payload::Scalar(_) => None,
        Payload::DaysScalar(_) => None,
        Payload::Items(v) => match select_items_exec(&v, name, val) {
            Some(x) => Some(Payload::Scalar(x)),
            None => None,
        },
        Payload::DaysItems(v) => match select_days_exec(v, name, val) {
            Some(ds) => Some(Payload::DaysScalar(ds)),
            None => None,
        },
    }
}

} // verus!
