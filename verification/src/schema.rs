//! The serialized form of a quantizer: its types, the JSON documents that
//! are accepted for each of them, and the functions that read them.
//!
//! A document is an object with the members `type_name`, a string, and
//! `serialized_value`, the parameters:
//!
//! ```text
//! n_bits              an integer that a u32 holds; 8 where absent
//! is_signed           a boolean
//! is_symmetric        a boolean
//! is_qat              a boolean
//! is_narrow           a boolean
//! is_precomputed_qat  a boolean
//! rmax, rmin          a wrapped number; may be absent or null
//! uvalues             a wrapped array of numbers; may be absent or null
//! scale               a wrapped number
//! zero_point          a wrapped number, a wrapped array of numbers,
//!                     or a wrapped array of arrays of numbers
//! offset              an integer, or a wrapped array of integers
//! no_clipping         a boolean
//! ```
//!
//! A wrapped value is an object with the members `type_name` and `dtype`,
//! which are strings, and `serialized_value`, the value itself. Members that
//! are not named here are passed over.

use crate::double::Double;
use crate::json::{
    as_double,
    as_flag,
    as_integer,
    as_items,
    as_text,
    is_null,
    json_tree,
    member,
    JsonTree,
};
use vstd::prelude::*;

verus! {

/// A value together with the names that its producer gave to its type and to
/// its element type.
#[derive(Clone, Debug)]
pub struct SerializedValue<T> {
    /// The member `type_name`: the name of the type of the value.
    pub type_label: String,
    /// The value itself.
    pub serialized_value: T,
    /// The name of the type of the elements of the value.
    pub dtype: String,
}

/// The offset as serialized: a bare integer, or a wrapped list of integers.
#[derive(Clone, Debug)]
pub enum OffsetValue {
    Direct(i64),
    Array(SerializedValue<Vec<i64>>),
}

/// The zero point as serialized: a wrapped number, a wrapped list of numbers,
/// or a wrapped list of lists of numbers.
#[derive(Clone, Debug)]
pub enum ZeroPointValue {
    Direct(SerializedValue<Double>),
    Array(SerializedValue<Vec<Double>>),
    NestedArray(SerializedValue<Vec<Vec<Double>>>),
}

/// The parameters of a quantizer as serialized.
#[derive(Clone, Debug)]
pub struct QuantizerSerializedValue {
    pub n_bits: u32,
    pub is_signed: bool,
    pub is_symmetric: bool,
    pub is_qat: bool,
    pub is_narrow: bool,
    pub is_precomputed_qat: bool,
    pub rmax: Option<SerializedValue<Double>>,
    pub rmin: Option<SerializedValue<Double>>,
    pub uvalues: Option<SerializedValue<Vec<Double>>>,
    pub scale: SerializedValue<Double>,
    pub zero_point: ZeroPointValue,
    pub offset: OffsetValue,
    pub no_clipping: bool,
}

/// A quantizer as serialized: the name of its type and its parameters.
#[derive(Clone, Debug)]
pub struct UniformQuantizerSerialized {
    /// The member `type_name`: the name of the type of the quantizer.
    pub type_label: String,
    /// The parameters.
    pub serialized_value: QuantizerSerializedValue,
}

/// A member of the document of a quantizer.
#[derive(Clone, Copy, Debug, PartialEq, Eq, Structural)]
pub enum Field {
    TypeName,
    SerializedValue,
    NBits,
    IsSigned,
    IsSymmetric,
    IsQat,
    IsNarrow,
    IsPrecomputedQat,
    Rmax,
    Rmin,
    Uvalues,
    Scale,
    ZeroPoint,
    Offset,
    NoClipping,
}

impl Field {
    /// The name of the member in a document.
    pub fn name(&self) -> (r: &'static str)
        ensures
            r@ == self.key(),
    {
        match self {
            Field::TypeName => "type_name",
            Field::SerializedValue => "serialized_value",
            Field::NBits => "n_bits",
            Field::IsSigned => "is_signed",
            Field::IsSymmetric => "is_symmetric",
            Field::IsQat => "is_qat",
            Field::IsNarrow => "is_narrow",
            Field::IsPrecomputedQat => "is_precomputed_qat",
            Field::Rmax => "rmax",
            Field::Rmin => "rmin",
            Field::Uvalues => "uvalues",
            Field::Scale => "scale",
            Field::ZeroPoint => "zero_point",
            Field::Offset => "offset",
            Field::NoClipping => "no_clipping",
        }
    }

    /// The name under which a document holds the member.
    pub open spec fn key(self) -> Seq<char> {
        match self {
            Field::TypeName => "type_name"@,
            Field::SerializedValue => "serialized_value"@,
            Field::NBits => "n_bits"@,
            Field::IsSigned => "is_signed"@,
            Field::IsSymmetric => "is_symmetric"@,
            Field::IsQat => "is_qat"@,
            Field::IsNarrow => "is_narrow"@,
            Field::IsPrecomputedQat => "is_precomputed_qat"@,
            Field::Rmax => "rmax"@,
            Field::Rmin => "rmin"@,
            Field::Uvalues => "uvalues"@,
            Field::Scale => "scale"@,
            Field::ZeroPoint => "zero_point"@,
            Field::Offset => "offset"@,
            Field::NoClipping => "no_clipping"@,
        }
    }
}

/// Why a text is not the document of a quantizer.
#[derive(Clone, Debug)]
pub enum SchemaError {
    /// The text is not one well-formed JSON value; the message is that of
    /// the JSON reader.
    Syntax(String),
    /// The member is missing though required, or holds what is not accepted
    /// for it.
    Field(Field),
}

/// The mathematical content of a [`SerializedValue`].
pub struct SerializedValueView<V> {
    pub type_label: Seq<char>,
    pub serialized_value: V,
    pub dtype: Seq<char>,
}

/// The mathematical content of an [`OffsetValue`].
pub enum OffsetValueView {
    Direct(i64),
    Array(SerializedValueView<Seq<i64>>),
}

/// The mathematical content of a [`ZeroPointValue`].
pub enum ZeroPointValueView {
    Direct(SerializedValueView<Double>),
    Array(SerializedValueView<Seq<Double>>),
    NestedArray(SerializedValueView<Seq<Seq<Double>>>),
}

/// The mathematical content of a [`QuantizerSerializedValue`].
pub struct QuantizerSerializedValueView {
    pub n_bits: u32,
    pub is_signed: bool,
    pub is_symmetric: bool,
    pub is_qat: bool,
    pub is_narrow: bool,
    pub is_precomputed_qat: bool,
    pub rmax: Option<SerializedValueView<Double>>,
    pub rmin: Option<SerializedValueView<Double>>,
    pub uvalues: Option<SerializedValueView<Seq<Double>>>,
    pub scale: SerializedValueView<Double>,
    pub zero_point: ZeroPointValueView,
    pub offset: OffsetValueView,
    pub no_clipping: bool,
}

/// The mathematical content of a [`UniformQuantizerSerialized`].
pub struct UniformQuantizerSerializedView {
    pub type_label: Seq<char>,
    pub serialized_value: QuantizerSerializedValueView,
}

impl<T: DeepView> DeepView for SerializedValue<T> {
    type V = SerializedValueView<T::V>;

    open spec fn deep_view(&self) -> SerializedValueView<T::V> {
        SerializedValueView {
            type_label: self.type_label@,
            serialized_value: self.serialized_value.deep_view(),
            dtype: self.dtype@,
        }
    }
}

impl DeepView for OffsetValue {
    type V = OffsetValueView;

    open spec fn deep_view(&self) -> OffsetValueView {
        match self {
            OffsetValue::Direct(v) => OffsetValueView::Direct(*v),
            OffsetValue::Array(a) => OffsetValueView::Array(a.deep_view()),
        }
    }
}

impl DeepView for ZeroPointValue {
    type V = ZeroPointValueView;

    open spec fn deep_view(&self) -> ZeroPointValueView {
        match self {
            ZeroPointValue::Direct(v) => ZeroPointValueView::Direct(v.deep_view()),
            ZeroPointValue::Array(a) => ZeroPointValueView::Array(a.deep_view()),
            ZeroPointValue::NestedArray(a) => ZeroPointValueView::NestedArray(a.deep_view()),
        }
    }
}

impl DeepView for QuantizerSerializedValue {
    type V = QuantizerSerializedValueView;

    open spec fn deep_view(&self) -> QuantizerSerializedValueView {
        QuantizerSerializedValueView {
            n_bits: self.n_bits,
            is_signed: self.is_signed,
            is_symmetric: self.is_symmetric,
            is_qat: self.is_qat,
            is_narrow: self.is_narrow,
            is_precomputed_qat: self.is_precomputed_qat,
            rmax: self.rmax.deep_view(),
            rmin: self.rmin.deep_view(),
            uvalues: self.uvalues.deep_view(),
            scale: self.scale.deep_view(),
            zero_point: self.zero_point.deep_view(),
            offset: self.offset.deep_view(),
            no_clipping: self.no_clipping,
        }
    }
}

impl DeepView for UniformQuantizerSerialized {
    type V = UniformQuantizerSerializedView;

    open spec fn deep_view(&self) -> UniformQuantizerSerializedView {
        UniformQuantizerSerializedView {
            type_label: self.type_label@,
            serialized_value: self.serialized_value.deep_view(),
        }
    }
}

/// The numbers of an array that holds nothing but numbers.
pub open spec fn doubles(tree: JsonTree) -> Option<Seq<Double>> {
    match tree.as_items() {
        Some(items) => if forall|i: int| 0 <= i < items.len() ==> (#[trigger] items[i]).as_double() is Some {
            Some(items.map_values(|item: JsonTree| item.as_double().unwrap()))
        } else {
            None
        },
        None => None,
    }
}

/// The integers of an array that holds nothing but integers that an `i64`
/// holds.
pub open spec fn integers(tree: JsonTree) -> Option<Seq<i64>> {
    match tree.as_items() {
        Some(items) => if forall|i: int| 0 <= i < items.len() ==> (#[trigger] items[i]).as_integer() is Some {
            Some(items.map_values(|item: JsonTree| item.as_integer().unwrap()))
        } else {
            None
        },
        None => None,
    }
}

/// The rows of an array that holds nothing but arrays of numbers.
pub open spec fn double_rows(tree: JsonTree) -> Option<Seq<Seq<Double>>> {
    match tree.as_items() {
        Some(items) => if forall|i: int| 0 <= i < items.len() ==> doubles(#[trigger] items[i]) is Some {
            Some(items.map_values(|item: JsonTree| doubles(item).unwrap()))
        } else {
            None
        },
        None => None,
    }
}

/// The three members of a wrapped value: `type_name` and `dtype`, which are
/// strings, and `serialized_value`, which is anything.
pub open spec fn envelope(tree: JsonTree) -> Option<SerializedValueView<JsonTree>> {
    match (tree.field("type_name"@), tree.field("serialized_value"@), tree.field("dtype"@)) {
        (Some(JsonTree::Text(type_label)), Some(serialized_value), Some(JsonTree::Text(dtype))) => Some(
            SerializedValueView { type_label, serialized_value, dtype },
        ),
        _ => None,
    }
}

/// A wrapped value whose content `inner` accepts.
pub open spec fn wrapped<V>(tree: JsonTree, inner: spec_fn(JsonTree) -> Option<V>) -> Option<
    SerializedValueView<V>,
> {
    match envelope(tree) {
        Some(e) => match inner(e.serialized_value) {
            Some(serialized_value) => Some(
                SerializedValueView { type_label: e.type_label, serialized_value, dtype: e.dtype },
            ),
            None => None,
        },
        None => None,
    }
}

/// A wrapped number.
pub open spec fn wrapped_double(tree: JsonTree) -> Option<SerializedValueView<Double>> {
    wrapped(tree, |t: JsonTree| t.as_double())
}

/// A wrapped array of numbers.
pub open spec fn wrapped_doubles(tree: JsonTree) -> Option<SerializedValueView<Seq<Double>>> {
    wrapped(tree, |t: JsonTree| doubles(t))
}

/// The zero point that a document holds. The three shapes are tried in this
/// order: a wrapped number, a wrapped array of numbers, a wrapped array of
/// arrays of numbers. An empty array is therefore a flat one.
pub open spec fn zero_point_value(tree: JsonTree) -> Option<ZeroPointValueView> {
    if let Some(v) = wrapped(tree, |t: JsonTree| t.as_double()) {
        Some(ZeroPointValueView::Direct(v))
    } else if let Some(v) = wrapped(tree, |t: JsonTree| doubles(t)) {
        Some(ZeroPointValueView::Array(v))
    } else if let Some(v) = wrapped(tree, |t: JsonTree| double_rows(t)) {
        Some(ZeroPointValueView::NestedArray(v))
    } else {
        None
    }
}

/// The offset that a document holds: a bare integer, or else a wrapped array
/// of integers.
pub open spec fn offset_value(tree: JsonTree) -> Option<OffsetValueView> {
    if let Some(v) = tree.as_integer() {
        Some(OffsetValueView::Direct(v))
    } else if let Some(v) = wrapped(tree, |t: JsonTree| integers(t)) {
        Some(OffsetValueView::Array(v))
    } else {
        None
    }
}

/// A member that must be a boolean.
pub open spec fn flag(member: Option<JsonTree>) -> Option<bool> {
    match member {
        Some(t) => t.as_flag(),
        None => None,
    }
}

/// The bit width: 8 where the member is absent, else an integer that a `u32`
/// holds.
pub open spec fn bit_width(member: Option<JsonTree>) -> Option<u32> {
    match member {
        Some(t) => match t.as_integer() {
            Some(n) => if 0 <= n <= u32::MAX {
                Some(n as u32)
            } else {
                None
            },
            None => None,
        },
        None => Some(8),
    }
}

/// A member that `inner` must accept.
pub open spec fn required<V>(member: Option<JsonTree>, inner: spec_fn(JsonTree) -> Option<V>) -> Option<V> {
    match member {
        Some(t) => inner(t),
        None => None,
    }
}

/// A member that may be absent or null, and that `inner` must accept where it
/// is neither.
pub open spec fn optional<V>(member: Option<JsonTree>, inner: spec_fn(JsonTree) -> Option<V>) -> Option<Option<V>> {
    match member {
        Some(t) => if t.is_null() {
            Some(None)
        } else {
            match inner(t) {
                Some(v) => Some(Some(v)),
                None => None,
            }
        },
        None => Some(None),
    }
}

/// The parameters that a JSON value holds, or the first member, in the order
/// of [`Field`], that is missing though required or holds what is not
/// accepted for it. Members that are not named here are passed over.
pub open spec fn parameters(tree: JsonTree) -> Result<QuantizerSerializedValueView, Field> {
    let n_bits = bit_width(tree.field("n_bits"@));
    let is_signed = flag(tree.field("is_signed"@));
    let is_symmetric = flag(tree.field("is_symmetric"@));
    let is_qat = flag(tree.field("is_qat"@));
    let is_narrow = flag(tree.field("is_narrow"@));
    let is_precomputed_qat = flag(tree.field("is_precomputed_qat"@));
    let rmax = optional(tree.field("rmax"@), |t: JsonTree| wrapped_double(t));
    let rmin = optional(tree.field("rmin"@), |t: JsonTree| wrapped_double(t));
    let uvalues = optional(tree.field("uvalues"@), |t: JsonTree| wrapped_doubles(t));
    let scale = required(tree.field("scale"@), |t: JsonTree| wrapped_double(t));
    let zero_point = required(tree.field("zero_point"@), |t: JsonTree| zero_point_value(t));
    let offset = required(tree.field("offset"@), |t: JsonTree| offset_value(t));
    let no_clipping = flag(tree.field("no_clipping"@));
    if n_bits is None {
        Err(Field::NBits)
    } else if is_signed is None {
        Err(Field::IsSigned)
    } else if is_symmetric is None {
        Err(Field::IsSymmetric)
    } else if is_qat is None {
        Err(Field::IsQat)
    } else if is_narrow is None {
        Err(Field::IsNarrow)
    } else if is_precomputed_qat is None {
        Err(Field::IsPrecomputedQat)
    } else if rmax is None {
        Err(Field::Rmax)
    } else if rmin is None {
        Err(Field::Rmin)
    } else if uvalues is None {
        Err(Field::Uvalues)
    } else if scale is None {
        Err(Field::Scale)
    } else if zero_point is None {
        Err(Field::ZeroPoint)
    } else if offset is None {
        Err(Field::Offset)
    } else if no_clipping is None {
        Err(Field::NoClipping)
    } else {
        Ok(
            QuantizerSerializedValueView {
                n_bits: n_bits.unwrap(),
                is_signed: is_signed.unwrap(),
                is_symmetric: is_symmetric.unwrap(),
                is_qat: is_qat.unwrap(),
                is_narrow: is_narrow.unwrap(),
                is_precomputed_qat: is_precomputed_qat.unwrap(),
                rmax: rmax.unwrap(),
                rmin: rmin.unwrap(),
                uvalues: uvalues.unwrap(),
                scale: scale.unwrap(),
                zero_point: zero_point.unwrap(),
                offset: offset.unwrap(),
                no_clipping: no_clipping.unwrap(),
            },
        )
    }
}

/// The serialized quantizer that a JSON value holds: an object with the
/// string `type_name` and the parameters `serialized_value`.
pub open spec fn document(tree: JsonTree) -> Result<UniformQuantizerSerializedView, Field> {
    match tree.field("type_name"@) {
        Some(JsonTree::Text(type_label)) => match tree.field("serialized_value"@) {
            Some(inner) => match parameters(inner) {
                Ok(serialized_value) => Ok(
                    UniformQuantizerSerializedView { type_label, serialized_value },
                ),
                Err(field) => Err(field),
            },
            None => Err(Field::SerializedValue),
        },
        _ => Err(Field::TypeName),
    }
}

/// The bit width used where a document gives none.
pub fn default_n_bits() -> (r: u32)
    ensures
        r == 8,
{
    8
}

impl ZeroPointValue {
    /// Reads a zero point from a JSON value, where the value has one of the
    /// three accepted shapes.
    pub fn from_json(v: &serde_json::Value) -> (r: Option<ZeroPointValue>)
        ensures
            r.deep_view() == zero_point_value(json_tree(*v)),
    {
        let e = match read_envelope(v) {
            Some(e) => e,
            None => {
                return None;
            },
        };
        if let Some(x) = as_double(e.serialized_value) {
            Some(
                ZeroPointValue::Direct(
                    SerializedValue { type_label: e.type_label, serialized_value: x, dtype: e.dtype },
                ),
            )
        } else if let Some(xs) = read_doubles(e.serialized_value) {
            Some(
                ZeroPointValue::Array(
                    SerializedValue { type_label: e.type_label, serialized_value: xs, dtype: e.dtype },
                ),
            )
        } else if let Some(rows) = read_double_rows(e.serialized_value) {
            Some(
                ZeroPointValue::NestedArray(
                    SerializedValue {
                        type_label: e.type_label,
                        serialized_value: rows,
                        dtype: e.dtype,
                    },
                ),
            )
        } else {
            None
        }
    }
}

impl OffsetValue {
    /// Reads an offset from a JSON value, where the value has one of the two
    /// accepted shapes.
    pub fn from_json(v: &serde_json::Value) -> (r: Option<OffsetValue>)
        ensures
            r.deep_view() == offset_value(json_tree(*v)),
    {
        if let Some(x) = as_integer(v) {
            return Some(OffsetValue::Direct(x));
        }
        let e = match read_envelope(v) {
            Some(e) => e,
            None => {
                return None;
            },
        };
        match read_integers(e.serialized_value) {
            Some(xs) => Some(
                OffsetValue::Array(
                    SerializedValue { type_label: e.type_label, serialized_value: xs, dtype: e.dtype },
                ),
            ),
            None => None,
        }
    }
}

impl QuantizerSerializedValue {
    /// Reads the parameters from a JSON value, or names the first member that
    /// is missing or not accepted.
    pub fn from_json(v: &serde_json::Value) -> (r: Result<QuantizerSerializedValue, Field>)
        ensures
            match r {
                Ok(p) => parameters(json_tree(*v)) == Ok::<_, Field>(p.deep_view()),
                Err(field) => parameters(json_tree(*v)) == Err::<QuantizerSerializedValueView, _>(
                    field,
                ),
            },
    {
        let n_bits = match read_bit_width(v) {
            Some(x) => x,
            None => {
                return Err(Field::NBits);
            },
        };
        let is_signed = match read_flag(v, "is_signed") {
            Some(x) => x,
            None => {
                return Err(Field::IsSigned);
            },
        };
        let is_symmetric = match read_flag(v, "is_symmetric") {
            Some(x) => x,
            None => {
                return Err(Field::IsSymmetric);
            },
        };
        let is_qat = match read_flag(v, "is_qat") {
            Some(x) => x,
            None => {
                return Err(Field::IsQat);
            },
        };
        let is_narrow = match read_flag(v, "is_narrow") {
            Some(x) => x,
            None => {
                return Err(Field::IsNarrow);
            },
        };
        let is_precomputed_qat = match read_flag(v, "is_precomputed_qat") {
            Some(x) => x,
            None => {
                return Err(Field::IsPrecomputedQat);
            },
        };
        let rmax = match read_optional_double(v, "rmax") {
            Some(x) => x,
            None => {
                return Err(Field::Rmax);
            },
        };
        let rmin = match read_optional_double(v, "rmin") {
            Some(x) => x,
            None => {
                return Err(Field::Rmin);
            },
        };
        let uvalues = match read_optional_doubles(v, "uvalues") {
            Some(x) => x,
            None => {
                return Err(Field::Uvalues);
            },
        };
        let scale = match member(v, "scale") {
            Some(x) => match read_wrapped_double(x) {
                Some(w) => w,
                None => {
                    return Err(Field::Scale);
                },
            },
            None => {
                return Err(Field::Scale);
            },
        };
        let zero_point = match member(v, "zero_point") {
            Some(x) => match ZeroPointValue::from_json(x) {
                Some(z) => z,
                None => {
                    return Err(Field::ZeroPoint);
                },
            },
            None => {
                return Err(Field::ZeroPoint);
            },
        };
        let offset = match member(v, "offset") {
            Some(x) => match OffsetValue::from_json(x) {
                Some(o) => o,
                None => {
                    return Err(Field::Offset);
                },
            },
            None => {
                return Err(Field::Offset);
            },
        };
        let no_clipping = match read_flag(v, "no_clipping") {
            Some(x) => x,
            None => {
                return Err(Field::NoClipping);
            },
        };
        Ok(
            QuantizerSerializedValue {
                n_bits,
                is_signed,
                is_symmetric,
                is_qat,
                is_narrow,
                is_precomputed_qat,
                rmax,
                rmin,
                uvalues,
                scale,
                zero_point,
                offset,
                no_clipping,
            },
        )
    }
}

impl UniformQuantizerSerialized {
    /// Reads a serialized quantizer from a JSON value, or names the first
    /// member that is missing or not accepted.
    pub fn from_json(v: &serde_json::Value) -> (r: Result<UniformQuantizerSerialized, Field>)
        ensures
            match r {
                Ok(d) => document(json_tree(*v)) == Ok::<_, Field>(d.deep_view()),
                Err(field) => document(json_tree(*v)) == Err::<UniformQuantizerSerializedView, _>(
                    field,
                ),
            },
    {
        let type_label = match member(v, "type_name") {
            Some(x) => match as_text(x) {
                Some(s) => s,
                None => {
                    return Err(Field::TypeName);
                },
            },
            None => {
                return Err(Field::TypeName);
            },
        };
        let inner = match member(v, "serialized_value") {
            Some(x) => x,
            None => {
                return Err(Field::SerializedValue);
            },
        };
        match QuantizerSerializedValue::from_json(inner) {
            Ok(serialized_value) => Ok(UniformQuantizerSerialized { type_label, serialized_value }),
            Err(field) => Err(field),
        }
    }
}

fn read_doubles(v: &serde_json::Value) -> (r: Option<Vec<Double>>)
    ensures
        r.deep_view() == doubles(json_tree(*v)),
{
    let items = match as_items(v) {
        Some(items) => items,
        None => {
            return None;
        },
    };
    let ghost trees = items@.map_values(|item: serde_json::Value| json_tree(item));
    let mut out: Vec<Double> = Vec::with_capacity(items.len());
    let mut i: usize = 0;
    while i < items.len()
        invariant
            i <= items@.len(),
            trees == items@.map_values(|item: serde_json::Value| json_tree(item)),
            json_tree(*v).as_items() == Some(trees),
            out@.len() == i,
            forall|j: int| 0 <= j < i ==> (#[trigger] trees[j]).as_double() == Some(out@[j]),
        decreases items@.len() - i,
    {
        match as_double(&items[i]) {
            Some(x) => {
                out.push(x);
            },
            None => {
                assert(trees[i as int].as_double() is None);
                return None;
            },
        }
        i += 1;
    }
    proof {
        assert(out.deep_view() =~= trees.map_values(|item: JsonTree| item.as_double().unwrap()));
    }
    Some(out)
}

fn read_integers(v: &serde_json::Value) -> (r: Option<Vec<i64>>)
    ensures
        r.deep_view() == integers(json_tree(*v)),
{
    let items = match as_items(v) {
        Some(items) => items,
        None => {
            return None;
        },
    };
    let ghost trees = items@.map_values(|item: serde_json::Value| json_tree(item));
    let mut out: Vec<i64> = Vec::with_capacity(items.len());
    let mut i: usize = 0;
    while i < items.len()
        invariant
            i <= items@.len(),
            trees == items@.map_values(|item: serde_json::Value| json_tree(item)),
            json_tree(*v).as_items() == Some(trees),
            out@.len() == i,
            forall|j: int| 0 <= j < i ==> (#[trigger] trees[j]).as_integer() == Some(out@[j]),
        decreases items@.len() - i,
    {
        match as_integer(&items[i]) {
            Some(x) => {
                out.push(x);
            },
            None => {
                assert(trees[i as int].as_integer() is None);
                return None;
            },
        }
        i += 1;
    }
    proof {
        assert(out.deep_view() =~= trees.map_values(|item: JsonTree| item.as_integer().unwrap()));
    }
    Some(out)
}

fn read_double_rows(v: &serde_json::Value) -> (r: Option<Vec<Vec<Double>>>)
    ensures
        r.deep_view() == double_rows(json_tree(*v)),
{
    let items = match as_items(v) {
        Some(items) => items,
        None => {
            return None;
        },
    };
    let ghost trees = items@.map_values(|item: serde_json::Value| json_tree(item));
    let mut out: Vec<Vec<Double>> = Vec::with_capacity(items.len());
    let mut i: usize = 0;
    while i < items.len()
        invariant
            i <= items@.len(),
            trees == items@.map_values(|item: serde_json::Value| json_tree(item)),
            json_tree(*v).as_items() == Some(trees),
            out@.len() == i,
            forall|j: int| 0 <= j < i ==> doubles(#[trigger] trees[j]) == Some(out@[j].deep_view()),
        decreases items@.len() - i,
    {
        match read_doubles(&items[i]) {
            Some(row) => {
                out.push(row);
            },
            None => {
                assert(doubles(trees[i as int]) is None);
                return None;
            },
        }
        i += 1;
    }
    proof {
        assert(out.deep_view() =~= trees.map_values(|item: JsonTree| doubles(item).unwrap()));
    }
    Some(out)
}

fn read_envelope<'a>(v: &'a serde_json::Value) -> (r: Option<SerializedValue<&'a serde_json::Value>>)
    ensures
        match r {
            Some(e) => envelope(json_tree(*v)) == Some(
                SerializedValueView {
                    type_label: e.type_label@,
                    serialized_value: json_tree(*e.serialized_value),
                    dtype: e.dtype@,
                },
            ),
            None => envelope(json_tree(*v)) is None,
        },
{
    let type_label = match member(v, "type_name") {
        Some(x) => match as_text(x) {
            Some(s) => s,
            None => {
                return None;
            },
        },
        None => {
            return None;
        },
    };
    let serialized_value = match member(v, "serialized_value") {
        Some(x) => x,
        None => {
            return None;
        },
    };
    let dtype = match member(v, "dtype") {
        Some(x) => match as_text(x) {
            Some(s) => s,
            None => {
                return None;
            },
        },
        None => {
            return None;
        },
    };
    Some(SerializedValue { type_label, serialized_value, dtype })
}

fn read_wrapped_double(v: &serde_json::Value) -> (r: Option<SerializedValue<Double>>)
    ensures
        r.deep_view() == wrapped_double(json_tree(*v)),
{
    match read_envelope(v) {
        Some(e) => match as_double(e.serialized_value) {
            Some(x) => Some(
                SerializedValue { type_label: e.type_label, serialized_value: x, dtype: e.dtype },
            ),
            None => None,
        },
        None => None,
    }
}

fn read_wrapped_doubles(v: &serde_json::Value) -> (r: Option<SerializedValue<Vec<Double>>>)
    ensures
        r.deep_view() == wrapped_doubles(json_tree(*v)),
{
    match read_envelope(v) {
        Some(e) => match read_doubles(e.serialized_value) {
            Some(xs) => Some(
                SerializedValue { type_label: e.type_label, serialized_value: xs, dtype: e.dtype },
            ),
            None => None,
        },
        None => None,
    }
}

fn read_optional_double(v: &serde_json::Value, name: &str) -> (r: Option<
    Option<SerializedValue<Double>>,
>)
    ensures
        r.deep_view() == optional(json_tree(*v).field(name@), |t: JsonTree| wrapped_double(t)),
{
    match member(v, name) {
        Some(x) => if is_null(x) {
            Some(None)
        } else {
            match read_wrapped_double(x) {
                Some(w) => Some(Some(w)),
                None => None,
            }
        },
        None => Some(None),
    }
}

fn read_optional_doubles(v: &serde_json::Value, name: &str) -> (r: Option<
    Option<SerializedValue<Vec<Double>>>,
>)
    ensures
        r.deep_view() == optional(json_tree(*v).field(name@), |t: JsonTree| wrapped_doubles(t)),
{
    match member(v, name) {
        Some(x) => if is_null(x) {
            Some(None)
        } else {
            match read_wrapped_doubles(x) {
                Some(w) => Some(Some(w)),
                None => None,
            }
        },
        None => Some(None),
    }
}

fn read_flag(v: &serde_json::Value, name: &str) -> (r: Option<bool>)
    ensures
        r == flag(json_tree(*v).field(name@)),
{
    match member(v, name) {
        Some(x) => as_flag(x),
        None => None,
    }
}

fn read_bit_width(v: &serde_json::Value) -> (r: Option<u32>)
    ensures
        r == bit_width(json_tree(*v).field("n_bits"@)),
{
    match member(v, "n_bits") {
        Some(x) => match as_integer(x) {
            Some(n) => if 0 <= n && n <= 0xffff_ffff {
                Some(n as u32)
            } else {
                None
            },
            None => None,
        },
        None => Some(default_n_bits()),
    }
}

} // verus!
