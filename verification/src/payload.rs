//! The four result payload shapes and their mathematical model.
//!
//! Every exec type here has a spec-level view built from `Seq`, so contracts
//! can speak of payloads by value. Field names and string contents are byte
//! strings; a payload is well formed when none of its strings contains a
//! quote, a backslash or a control byte, which is exactly what the canonical
//! JSON encoding of `codec` can carry without escapes.

use vstd::prelude::*;

verus! {

// ---------------------------------------------------------------------------
// Spec-level model
// ---------------------------------------------------------------------------

/// Model of a field value: a byte string or a signed integer.
pub enum FieldValueV {
    Str(Seq<u8>),
    Int(i64),
}

/// Model of one named field of a grouped entry.
pub struct FieldV {
    pub name: Seq<u8>,
    pub value: FieldValueV,
}

/// Model of one grouped entry: an ordered list of named fields.
pub struct ItemV {
    pub fields: Seq<FieldV>,
}

/// Model of one day bucket holding a single aggregate.
pub struct DayScalarV {
    pub day: Seq<u8>,
    pub value: i64,
}

/// Model of one day bucket holding a list of grouped entries.
pub struct DayItemsV {
    pub day: Seq<u8>,
    pub items: Seq<ItemV>,
}

/// Model of a payload: exactly the four recognized shapes.
pub enum PayloadV {
    Scalar(i64),
    Items(Seq<ItemV>),
    DaysScalar(Seq<DayScalarV>),
    DaysItems(Seq<DayItemsV>),
}

// ---------------------------------------------------------------------------
// Exec types
// ---------------------------------------------------------------------------

/// A field value: a byte string or a signed integer.
#[derive(Debug, PartialEq, Eq, Clone)]
pub enum FieldValue {
    Str(Vec<u8>),
    Int(i64),
}

/// One named field of a grouped entry.
#[derive(Debug, PartialEq, Eq, Clone)]
pub struct Field {
    pub name: Vec<u8>,
    pub value: FieldValue,
}

/// One grouped entry of an `Items` payload.
#[derive(Debug, PartialEq, Eq, Clone)]
pub struct Item {
    pub fields: Vec<Field>,
}

/// One day bucket of a `DaysScalar` payload.
#[derive(Debug, PartialEq, Eq, Clone)]
pub struct DayScalar {
    pub day: Vec<u8>,
    pub value: i64,
}

/// One day bucket of a `DaysItems` payload.
#[derive(Debug, PartialEq, Eq, Clone)]
pub struct DayItems {
    pub day: Vec<u8>,
    pub items: Vec<Item>,
}

/// A decoded result payload in one of the four shapes.
#[derive(Debug, PartialEq, Eq, Clone)]
pub enum Payload {
    Scalar(i64),
    Items(Vec<Item>),
    DaysScalar(Vec<DayScalar>),
    DaysItems(Vec<DayItems>),
}

impl View for FieldValue {
    type V = FieldValueV;

    open spec fn view(&self) -> FieldValueV {
        match self {
            FieldValue::Str(s) => FieldValueV::Str(s@),
            FieldValue::Int(n) => FieldValueV::Int(*n),
        }
    }
}

impl View for Field {
    type V = FieldV;

    open spec fn view(&self) -> FieldV {
        FieldV { name: self.name@, value: self.value@ }
    }
}

/// View of a sequence of exec fields.
pub open spec fn fields_view(v: Seq<Field>) -> Seq<FieldV> {
    v.map_values(|f: Field| f@)
}

/// View of a sequence of exec items.
pub open spec fn items_view(v: Seq<Item>) -> Seq<ItemV> {
    v.map_values(|it: Item| it@)
}

/// View of a sequence of exec scalar day buckets.
pub open spec fn days_scalar_view(v: Seq<DayScalar>) -> Seq<DayScalarV> {
    v.map_values(|d: DayScalar| d@)
}

/// View of a sequence of exec item-list day buckets.
pub open spec fn days_items_view(v: Seq<DayItems>) -> Seq<DayItemsV> {
    v.map_values(|d: DayItems| d@)
}

impl View for Item {
    type V = ItemV;

    open spec fn view(&self) -> ItemV {
        ItemV { fields: fields_view(self.fields@) }
    }
}

impl View for DayScalar {
    type V = DayScalarV;

    open spec fn view(&self) -> DayScalarV {
        DayScalarV { day: self.day@, value: self.value }
    }
}

impl View for DayItems {
    type V = DayItemsV;

    open spec fn view(&self) -> DayItemsV {
        DayItemsV { day: self.day@, items: items_view(self.items@) }
    }
}

impl View for Payload {
    type V = PayloadV;

    open spec fn view(&self) -> PayloadV {
        match self {
            Payload::Scalar(n) => PayloadV::Scalar(*n),
            Payload::Items(v) => PayloadV::Items(items_view(v@)),
            Payload::DaysScalar(v) => PayloadV::DaysScalar(days_scalar_view(v@)),
            Payload::DaysItems(v) => PayloadV::DaysItems(days_items_view(v@)),
        }
    }
}

// ---------------------------------------------------------------------------
// Well-formedness
// ---------------------------------------------------------------------------

/// A byte string that the canonical encoding can carry verbatim: no control
/// bytes, no quote, no backslash.
pub open spec fn bytes_wf(s: Seq<u8>) -> bool {
    forall|i: int| 0 <= i < s.len() ==> 0x20 <= #[trigger] s[i] && s[i] != 0x22 && s[i] != 0x5c
}

pub open spec fn field_value_wf(v: FieldValueV) -> bool {
    match v {
        FieldValueV::Str(s) => bytes_wf(s),
        FieldValueV::Int(_) => true,
    }
}

pub open spec fn field_wf(f: FieldV) -> bool {
    bytes_wf(f.name) && field_value_wf(f.value)
}

pub open spec fn item_wf(it: ItemV) -> bool {
    forall|i: int| 0 <= i < it.fields.len() ==> field_wf(#[trigger] it.fields[i])
}

pub open spec fn day_scalar_wf(d: DayScalarV) -> bool {
    bytes_wf(d.day)
}

pub open spec fn day_items_wf(d: DayItemsV) -> bool {
    bytes_wf(d.day) && forall|i: int| 0 <= i < d.items.len() ==> item_wf(#[trigger] d.items[i])
}

pub open spec fn payload_wf(p: PayloadV) -> bool {
    match p {
        PayloadV::Scalar(_) => true,
        PayloadV::Items(v) => forall|i: int| 0 <= i < v.len() ==> item_wf(#[trigger] v[i]),
        PayloadV::DaysScalar(v) => forall|i: int|
            0 <= i < v.len() ==> day_scalar_wf(#[trigger] v[i]),
        PayloadV::DaysItems(v) => forall|i: int|
            0 <= i < v.len() ==> day_items_wf(#[trigger] v[i]),
    }
}

/// The shape of a payload, as the runtime tag names it.
pub open spec fn shape_of(p: PayloadV) -> crate::ResultType {
    match p {
        PayloadV::Scalar(_) => crate::ResultType::POD,
        PayloadV::Items(_) => crate::ResultType::ITEMS,
        PayloadV::DaysScalar(_) => crate::ResultType::DAYSPOD,
        PayloadV::DaysItems(_) => crate::ResultType::DAYSITEMS,
    }
}

} // verus!
