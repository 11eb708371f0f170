//! The quantizer: its parameters, how they are read from their serialized
//! form, and how it turns the affine intermediate of a tensor into codes.

use crate::double::Double;
use crate::json::{describe, json_of_text, json_tree, parse_value, JsonTree};
use crate::schema::{
    document,
    double_rows,
    doubles,
    envelope,
    integers,
    offset_value,
    zero_point_value,
    Field,
    OffsetValue,
    OffsetValueView,
    SchemaError,
    UniformQuantizerSerialized,
    UniformQuantizerSerializedView,
    ZeroPointValue,
    ZeroPointValueView,
};
use crate::tensor::{
    broadcastable,
    can_broadcast,
    filled,
    lemma_broadcast_of_single,
    lemma_broadcast_to_own_shape,
    lemma_position_bound,
    lemma_source_position,
    source_index,
    source_place,
    volume,
    within,
    BroadcastError,
    Tensor,
    TensorView,
};
use vstd::arithmetic::power2::{
    lemma2_to64_rest,
    lemma_pow2_pos,
    lemma_pow2_strictly_increases,
    pow2,
};
use vstd::bits::lemma_u64_shl_is_mul;
use vstd::prelude::*;

verus! {

/// The parameters of an affine quantizer.
#[derive(Clone, Debug)]
pub struct Quantizer {
    /// The bit width of the grid of codes.
    pub n_bits: u32,
    /// Whether the grid is signed.
    pub is_signed: bool,
    /// Whether the grid is symmetric around zero. Kept for the reader; the
    /// codes do not depend on it.
    pub is_symmetric: bool,
    /// Whether the parameters come from quantization-aware training, which
    /// leaves codes unclamped.
    pub is_qat: bool,
    /// Whether the least code of the grid is left out.
    pub is_narrow: bool,
    /// Whether parameters of quantization-aware training were precomputed,
    /// and codes are clamped all the same.
    pub is_precomputed_qat: bool,
    /// The greatest value seen in calibration. Kept for the reader.
    pub rmax: Double,
    /// The least value seen in calibration. Kept for the reader.
    pub rmin: Double,
    /// The distinct values seen in calibration. Kept for the reader.
    pub uvalues: Vec<Double>,
    /// The step between two codes.
    pub scale: Double,
    /// What is added to `value / scale` before it is rounded.
    pub zero_point: Tensor<Double>,
    /// What moves the bounds between which codes are clamped.
    pub offset: Tensor<i64>,
    /// Whether codes are left unclamped whatever the other flags say.
    pub no_clipping: bool,
}

/// The mathematical content of a [`Quantizer`].
pub struct QuantizerView {
    pub n_bits: u32,
    pub is_signed: bool,
    pub is_symmetric: bool,
    pub is_qat: bool,
    pub is_narrow: bool,
    pub is_precomputed_qat: bool,
    pub rmax: Double,
    pub rmin: Double,
    pub uvalues: Seq<Double>,
    pub scale: Double,
    pub zero_point: TensorView<Double>,
    pub offset: TensorView<i64>,
    pub no_clipping: bool,
}

impl View for Quantizer {
    type V = QuantizerView;

    open spec fn view(&self) -> QuantizerView {
        QuantizerView {
            n_bits: self.n_bits,
            is_signed: self.is_signed,
            is_symmetric: self.is_symmetric,
            is_qat: self.is_qat,
            is_narrow: self.is_narrow,
            is_precomputed_qat: self.is_precomputed_qat,
            rmax: self.rmax,
            rmin: self.rmin,
            uvalues: self.uvalues@,
            scale: self.scale,
            zero_point: self.zero_point@,
            offset: self.offset@,
            no_clipping: self.no_clipping,
        }
    }
}

impl QuantizerView {
    /// The bit width is between 1 and 62, and the zero point and the offset
    /// are tensors of rank 1 or more.
    pub open spec fn wf(self) -> bool {
        &&& 1 <= self.n_bits <= 62
        &&& self.zero_point.wf()
        &&& self.zero_point.shape.len() >= 1
        &&& self.offset.wf()
        &&& self.offset.shape.len() >= 1
    }

    /// Whether codes are clamped.
    pub open spec fn clamps(self) -> bool {
        (!self.is_qat || self.is_precomputed_qat) && !self.no_clipping
    }

    /// The least code that clamping leaves, for an offset.
    pub open spec fn lower_bound(self, offset: int) -> int {
        (if self.is_signed {
            -offset
        } else {
            0
        }) + (if self.is_narrow {
            1int
        } else {
            0int
        })
    }

    /// The greatest code that clamping leaves, for an offset.
    pub open spec fn upper_bound(self, offset: int) -> int {
        pow2(self.n_bits as nat) - 1 - offset
    }

    /// The two bounds for an offset are codes, and the lower is not above
    /// the upper.
    pub open spec fn bounds_hold(self, offset: int) -> bool {
        i64::MIN <= self.lower_bound(offset) <= self.upper_bound(offset) <= i64::MAX
    }

    /// Where codes are clamped, the bounds hold for every offset.
    pub open spec fn ranges_hold(self) -> bool {
        self.clamps() ==> forall|i: int|
            0 <= i < self.offset.data.len() ==> self.bounds_hold(#[trigger] self.offset.data[i] as int)
    }

    /// The code of an affine intermediate `x`, for an offset: `x` rounded,
    /// and clamped between the two bounds where codes are clamped.
    pub open spec fn code(self, x: Double, offset: int) -> int {
        let rounded = x.code();
        if !self.clamps() {
            rounded
        } else if rounded < self.lower_bound(offset) {
            self.lower_bound(offset)
        } else if rounded > self.upper_bound(offset) {
            self.upper_bound(offset)
        } else {
            rounded
        }
    }

    /// Whether tensors of the given shape can be quantized: the zero point
    /// can be broadcast to it, and so can the offset where codes are clamped.
    pub open spec fn accepts(self, shape: Seq<usize>) -> bool {
        &&& broadcastable(self.zero_point.shape, shape)
        &&& self.clamps() ==> broadcastable(self.offset.shape, shape)
    }

    /// The offset that applies at `index` of a tensor that is quantized.
    pub open spec fn offset_at(self, index: Seq<nat>) -> int {
        self.offset.at(source_index(self.offset.shape, index)) as int
    }
}

/// The tensor that an offset stands for: one element for a bare integer, a
/// tensor of rank 1 for a list.
pub open spec fn offset_tensor(value: OffsetValueView) -> TensorView<i64> {
    match value {
        OffsetValueView::Direct(v) => TensorView { shape: seq![1usize], data: seq![v] },
        OffsetValueView::Array(a) => TensorView {
            shape: seq![a.serialized_value.len() as usize],
            data: a.serialized_value,
        },
    }
}

/// Whether the rows are as long as one another, and there is at least one.
pub open spec fn rectangular<T>(rows: Seq<Seq<T>>) -> bool {
    &&& rows.len() > 0
    &&& forall|i: int| 0 <= i < rows.len() ==> (#[trigger] rows[i]).len() == rows[0].len()
}

/// The tensor that a zero point stands for: one element for a number, a
/// tensor of rank 1 for a list, and for a list of lists the tensor of rank 2
/// that has them as its rows. Rows that form no rectangle stand for nothing.
pub open spec fn zero_point_tensor(value: ZeroPointValueView) -> Option<TensorView<Double>> {
    match value {
        ZeroPointValueView::Direct(v) => Some(
            TensorView { shape: seq![1usize], data: seq![v.serialized_value] },
        ),
        ZeroPointValueView::Array(a) => Some(
            TensorView { shape: seq![a.serialized_value.len() as usize], data: a.serialized_value },
        ),
        ZeroPointValueView::NestedArray(a) => {
            let rows = a.serialized_value;
            if rectangular(rows) {
                Some(
                    TensorView {
                        shape: seq![rows.len() as usize, rows[0].len() as usize],
                        data: rows.flatten(),
                    },
                )
            } else {
                None
            }
        },
    }
}

/// The quantizer that a serialized one stands for. The bit width must lie
/// between 1 and 62, and a zero point given by rows must form a rectangle.
/// `rmax` and `rmin` are zero and `uvalues` is empty where they are absent.
pub open spec fn quantizer(doc: UniformQuantizerSerializedView) -> Result<QuantizerView, Field> {
    let p = doc.serialized_value;
    if !(1 <= p.n_bits <= 62) {
        Err(Field::NBits)
    } else {
        match zero_point_tensor(p.zero_point) {
            Some(zero_point) => Ok(
                QuantizerView {
                    n_bits: p.n_bits,
                    is_signed: p.is_signed,
                    is_symmetric: p.is_symmetric,
                    is_qat: p.is_qat,
                    is_narrow: p.is_narrow,
                    is_precomputed_qat: p.is_precomputed_qat,
                    rmax: match p.rmax {
                        Some(w) => w.serialized_value,
                        None => Double { bits: 0 },
                    },
                    rmin: match p.rmin {
                        Some(w) => w.serialized_value,
                        None => Double { bits: 0 },
                    },
                    uvalues: match p.uvalues {
                        Some(w) => w.serialized_value,
                        None => Seq::empty(),
                    },
                    scale: p.scale.serialized_value,
                    zero_point,
                    offset: offset_tensor(p.offset),
                    no_clipping: p.no_clipping,
                },
            ),
            None => Err(Field::ZeroPoint),
        }
    }
}

/// The quantizer that a JSON document stands for, or the member at which
/// reading it fails.
pub open spec fn quantizer_of_json(tree: JsonTree) -> Result<QuantizerView, Field> {
    match document(tree) {
        Ok(doc) => quantizer(doc),
        Err(field) => Err(field),
    }
}

/// Turns a serialized offset into its tensor.
pub fn parse_offset_value(value: OffsetValue) -> (t: Tensor<i64>)
    ensures
        t@ == offset_tensor(value.deep_view()),
        t@.wf(),
        t.shape@.len() == 1,
{
    match value {
        OffsetValue::Direct(v) => {
            let data: Vec<i64> = vec![v];
            proof {
                assert(data@ =~= seq![v]);
            }
            tensor_of_list(data)
        },
        OffsetValue::Array(a) => {
            proof {
                assert(a.serialized_value.deep_view() =~= a.serialized_value@);
            }
            tensor_of_list(a.serialized_value)
        },
    }
}

/// Turns a serialized zero point into its tensor; `None` for a list of lists
/// that is empty or whose lists differ in length.
pub fn parse_zero_point_value(value: ZeroPointValue) -> (r: Option<Tensor<Double>>)
    ensures
        r matches Some(t) ==> t@.wf() && 1 <= t.shape@.len() <= 2,
        match r {
            Some(t) => zero_point_tensor(value.deep_view()) == Some(t@),
            None => zero_point_tensor(value.deep_view()) is None,
        },
{
    match value {
        ZeroPointValue::Direct(v) => {
            let data: Vec<Double> = vec![v.serialized_value];
            proof {
                assert(data@ =~= seq![v.serialized_value]);
            }
            Some(tensor_of_list(data))
        },
        ZeroPointValue::Array(a) => {
            proof {
                assert(a.serialized_value.deep_view() =~= a.serialized_value@);
            }
            Some(tensor_of_list(a.serialized_value))
        },
        ZeroPointValue::NestedArray(a) => {
            proof {
                let rows = a.serialized_value;
                if rows@.len() > 0 {
                    assert(rows.deep_view()[0] == rows@[0].deep_view());
                    assert(rows@[0].deep_view() =~= rows@[0]@);
                }
            }
            tensor_of_rows(&a.serialized_value)
        },
    }
}

impl Quantizer {
    /// Builds the quantizer that a serialized one stands for, or names the
    /// member that is not accepted.
    pub fn from_serialized(doc: UniformQuantizerSerialized) -> (r: Result<Quantizer, Field>)
        ensures
            r matches Ok(q) ==> q@.wf(),
            match r {
                Ok(q) => quantizer(doc.deep_view()) == Ok::<_, Field>(q@),
                Err(field) => quantizer(doc.deep_view()) == Err::<QuantizerView, _>(field),
            },
    {
        let p = doc.serialized_value;
        if p.n_bits < 1 || p.n_bits > 62 {
            return Err(Field::NBits);
        }
        let zero_point = match parse_zero_point_value(p.zero_point) {
            Some(t) => t,
            None => {
                return Err(Field::ZeroPoint);
            },
        };
        let offset = parse_offset_value(p.offset);
        let rmax = match p.rmax {
            Some(w) => w.serialized_value,
            None => Double::from_bits(0),
        };
        let rmin = match p.rmin {
            Some(w) => w.serialized_value,
            None => Double::from_bits(0),
        };
        let uvalues = match p.uvalues {
            Some(w) => {
                proof {
                    assert(w.serialized_value.deep_view() =~= w.serialized_value@);
                }
                w.serialized_value
            },
            None => Vec::new(),
        };
        Ok(
            Quantizer {
                n_bits: p.n_bits,
                is_signed: p.is_signed,
                is_symmetric: p.is_symmetric,
                is_qat: p.is_qat,
                is_narrow: p.is_narrow,
                is_precomputed_qat: p.is_precomputed_qat,
                rmax,
                rmin,
                uvalues,
                scale: p.scale.serialized_value,
                zero_point,
                offset,
                no_clipping: p.no_clipping,
            },
        )
    }

    /// Reads a quantizer from a parsed JSON document, or names the member at
    /// which that fails.
    pub fn from_json_value(v: &serde_json::Value) -> (r: Result<Quantizer, Field>)
        ensures
            r matches Ok(q) ==> q@.wf(),
            match r {
                Ok(q) => quantizer_of_json(json_tree(*v)) == Ok::<_, Field>(q@),
                Err(field) => quantizer_of_json(json_tree(*v)) == Err::<QuantizerView, _>(field),
            },
    {
        match UniformQuantizerSerialized::from_json(v) {
            Ok(doc) => Quantizer::from_serialized(doc),
            Err(field) => Err(field),
        }
    }

    /// Reads a quantizer from the text of a JSON document. Fails with
    /// [`SchemaError::Syntax`] where the text is not one JSON value, and with
    /// [`SchemaError::Field`] where a member is missing though required,
    /// holds what is not accepted for it, or, for the bit width and a zero
    /// point given by rows, holds what no quantizer can have.
    pub fn from_json_str(json_str: &str) -> (r: Result<Quantizer, SchemaError>)
        ensures
            r matches Ok(q) ==> q@.wf(),
            match r {
                Ok(q) => json_of_text(json_str@) matches Some(tree) && quantizer_of_json(tree)
                    == Ok::<_, Field>(q@),
                Err(SchemaError::Syntax(_)) => json_of_text(json_str@) is None,
                Err(SchemaError::Field(field)) => json_of_text(json_str@) matches Some(tree)
                    && quantizer_of_json(tree) == Err::<QuantizerView, _>(field),
            },
    {
        match parse_value(json_str) {
            Ok(v) => match Quantizer::from_json_value(&v) {
                Ok(q) => Ok(q),
                Err(field) => Err(SchemaError::Field(field)),
            },
            Err(e) => Err(SchemaError::Syntax(describe(&e))),
        }
    }

    /// Whether codes are clamped.
    pub fn clamps(&self) -> (r: bool)
        ensures
            r == self@.clamps(),
    {
        (!self.is_qat || self.is_precomputed_qat) && !self.no_clipping
    }

    /// Whether the quantizer is well formed and its clamping bounds hold:
    /// what `quantize` asks of it.
    pub fn is_valid(&self) -> (r: bool)
        ensures
            r == (self@.wf() && self@.ranges_hold()),
    {
        if self.n_bits < 1 || self.n_bits > 62 {
            return false;
        }
        if self.zero_point.shape.len() < 1 || self.offset.shape.len() < 1 {
            return false;
        }
        if !self.zero_point.is_well_formed() || !self.offset.is_well_formed() {
            return false;
        }
        if !self.clamps() {
            return true;
        }
        let top: i64 = grid_top(self.n_bits);
        let mut i: usize = 0;
        while i < self.offset.data.len()
            invariant
                self@.wf(),
                self@.clamps(),
                i <= self.offset.data@.len(),
                top == pow2(self.n_bits as nat) - 1,
                forall|j: int| 0 <= j < i ==> self@.bounds_hold(#[trigger] self@.offset.data[j] as int),
            decreases self.offset.data@.len() - i,
        {
            let o: i128 = self.offset.data[i] as i128;
            let lower: i128 = (if self.is_signed {
                -o
            } else {
                0
            }) + (if self.is_narrow {
                1
            } else {
                0
            });
            let upper: i128 = top as i128 - o;
            if lower < i64::MIN as i128 || lower > upper || upper > i64::MAX as i128 {
                assert(!self@.bounds_hold(self@.offset.data[i as int] as int));
                return false;
            }
            i += 1;
        }
        true
    }

    /// The zero point broadcast to `shape`.
    pub fn broadcast_zero_point(&self, shape: &[usize]) -> (r: Result<
        Tensor<Double>,
        BroadcastError,
    >)
        requires
            self@.zero_point.wf(),
        ensures
            r is Ok <==> broadcastable(self.zero_point.shape@, shape@) && volume(shape@)
                <= usize::MAX,
            r matches Ok(t) ==> t.shape@ == shape@ && self@.zero_point.broadcasts_to(t@),
            r matches Err(e) ==> e.from@ == self.zero_point.shape@ && e.to@ == shape@,
    {
        self.zero_point.broadcast(shape)
    }

    /// Turns the affine intermediate of a tensor, `value / scale + zero_point`
    /// at each position, into codes: each element is rounded to the nearest
    /// integer, halves away from zero and a NaN to 0, and then, where codes
    /// are clamped, brought between the bounds that the offset gives for its
    /// position. Fails where the zero point, or the offset where codes are
    /// clamped, cannot be broadcast to the shape of the tensor.
    pub fn quantize(&self, affine: &Tensor<Double>) -> (r: Result<Tensor<i64>, BroadcastError>)
        requires
            self@.wf(),
            self@.ranges_hold(),
            affine@.wf(),
        ensures
            r is Ok <==> self@.accepts(affine.shape@),
            r matches Ok(codes) ==> {
                &&& codes@.wf()
                &&& codes.shape@ == affine.shape@
                &&& forall|index: Seq<nat>|
                    within(affine.shape@, index) ==> #[trigger] codes@.at(index) == self@.code(
                        affine@.at(index),
                        self@.offset_at(index),
                    )
                &&& self@.clamps() ==> forall|index: Seq<nat>|
                    within(affine.shape@, index) ==> self@.lower_bound(self@.offset_at(index))
                        <= #[trigger] codes@.at(index) <= self@.upper_bound(self@.offset_at(index))
            },
            r matches Err(e) ==> {
                &&& e.to@ == affine.shape@
                &&& e.from@ == if broadcastable(self.zero_point.shape@, affine.shape@) {
                    self.offset.shape@
                } else {
                    self.zero_point.shape@
                }
            },
    {
        if !can_broadcast(self.zero_point.shape.as_slice(), affine.shape.as_slice()) {
            return Err(
                BroadcastError { from: self.zero_point.shape.clone(), to: affine.shape.clone() },
            );
        }
        let clamps: bool = self.clamps();
        if clamps && !can_broadcast(self.offset.shape.as_slice(), affine.shape.as_slice()) {
            return Err(BroadcastError { from: self.offset.shape.clone(), to: affine.shape.clone() });
        }
        let top: i64 = grid_top(self.n_bits);
        let total: usize = affine.data.len();
        let held: usize = self.offset.data.len();
        let mut data: Vec<i64> = Vec::with_capacity(total);
        let mut flat: usize = 0;
        while flat < total
            invariant
                self@.wf(),
                self@.ranges_hold(),
                affine@.wf(),
                clamps == self@.clamps(),
                clamps ==> broadcastable(self.offset.shape@, affine.shape@),
                top == pow2(self.n_bits as nat) - 1,
                total == affine.data@.len(),
                held == self.offset.data@.len(),
                flat <= total,
                data@.len() == flat,
                forall|j: int|
                    0 <= j < flat ==> #[trigger] data@[j] == self@.code(
                        affine.data@[j],
                        if clamps {
                            self.offset.data@[crate::tensor::source_position(
                                self.offset.shape@,
                                affine.shape@,
                                j as nat,
                            ) as int] as int
                        } else {
                            0
                        },
                    ),
            decreases total - flat,
        {
            let rounded: i64 = affine.data[flat].to_code();
            let code: i64 = if clamps {
                let place = source_place(
                    self.offset.shape.as_slice(),
                    affine.shape.as_slice(),
                    flat,
                );
                let o: i64 = self.offset.data[place];
                assert(self@.bounds_hold(self@.offset.data[place as int] as int));
                let lower: i64 = (if self.is_signed {
                    -o
                } else {
                    0
                }) + (if self.is_narrow {
                    1
                } else {
                    0
                });
                let upper: i64 = top - o;
                if rounded < lower {
                    lower
                } else if rounded > upper {
                    upper
                } else {
                    rounded
                }
            } else {
                rounded
            };
            data.push(code);
            flat += 1;
        }
        let codes = Tensor { shape: affine.shape.clone(), data };
        proof {
            assert forall|index: Seq<nat>| within(affine.shape@, index) implies #[trigger] codes@.at(
                index,
            ) == self@.code(affine@.at(index), self@.offset_at(index)) by {
                lemma_position_bound(affine.shape@, index);
                if clamps {
                    lemma_source_position(self.offset.shape@, affine.shape@, index);
                }
            }
            if clamps {
                assert forall|index: Seq<nat>| within(affine.shape@, index) implies self@.lower_bound(
                    self@.offset_at(index),
                ) <= #[trigger] codes@.at(index) <= self@.upper_bound(self@.offset_at(index)) by {
                    lemma_source_position(self.offset.shape@, affine.shape@, index);
                    lemma_position_bound(
                        self.offset.shape@,
                        source_index(self.offset.shape@, index),
                    );
                }
            }
        }
        Ok(codes)
    }
}

/// Where codes are clamped and the lower bound is not above the upper, every
/// code lies between the two.
pub proof fn lemma_code_within_bounds(q: QuantizerView, x: Double, offset: int)
    requires
        q.clamps(),
        q.lower_bound(offset) <= q.upper_bound(offset),
    ensures
        q.lower_bound(offset) <= q.code(x, offset) <= q.upper_bound(offset),
{
}

/// Where codes are not clamped, the code is the rounded intermediate
/// whatever the offset.
pub proof fn lemma_code_without_clamping(q: QuantizerView, x: Double, offset: int)
    requires
        !q.clamps(),
    ensures
        q.code(x, offset) == x.code(),
{
}

/// The code of a NaN is 0, unless codes are clamped and 0 is not between the
/// bounds.
pub proof fn lemma_code_of_nan(q: QuantizerView, x: Double, offset: int)
    requires
        x.is_nan(),
        q.clamps() ==> q.lower_bound(offset) <= 0 <= q.upper_bound(offset),
    ensures
        q.code(x, offset) == 0,
{
}

/// An offset of shape `[1]` gives the codes that the tensor of the shape of
/// the intermediate gives that is filled with its one element, and the two
/// accept the same shapes of rank 1 or more.
pub proof fn lemma_single_offset(q: QuantizerView, affine: TensorView<Double>, index: Seq<nat>)
    requires
        q.offset.shape == seq![1usize],
        q.offset.wf(),
        affine.shape.len() >= 1,
        within(affine.shape, index),
    ensures
        ({
            let full = QuantizerView { offset: filled(affine.shape, q.offset.data[0]), ..q };
            &&& full.offset.wf()
            &&& q.accepts(affine.shape) == full.accepts(affine.shape)
            &&& q.offset_at(index) == q.offset.data[0]
            &&& full.offset_at(index) == q.offset.data[0]
            &&& q.code(affine.at(index), q.offset_at(index)) == full.code(
                affine.at(index),
                full.offset_at(index),
            )
        }),
{
    let full = filled(affine.shape, q.offset.data[0]);
    lemma_broadcast_of_single(q.offset, full);
    lemma_broadcast_to_own_shape(full, full);
    assert(source_index(full.shape, index) =~= index);
    lemma_position_bound(affine.shape, index);
    let at_one = source_index(q.offset.shape, index);
    assert(q.offset.at(at_one) == q.offset.data[0]);
}

/// A zero point of shape `[1]`, broadcast, is the tensor of the target shape
/// filled with its one element.
pub proof fn lemma_single_zero_point(q: QuantizerView, target: TensorView<Double>)
    requires
        q.zero_point.shape == seq![1usize],
        q.zero_point.wf(),
        q.zero_point.broadcasts_to(target),
    ensures
        target == filled(target.shape, q.zero_point.data[0]),
{
    lemma_broadcast_of_single(q.zero_point, target);
}

/// What a wrapped zero point of each accepted shape is read as: a number as
/// the tensor of shape `[1]` that holds it, an array of numbers as the tensor
/// of rank 1 that holds them, and an array of arrays of numbers that is not
/// empty as the tensor of rank 2 that has them as rows, where they form a
/// rectangle. Anything else is not accepted.
pub proof fn lemma_zero_point_of_json(tree: JsonTree)
    ensures
        zero_point_value(tree) is Some <==> envelope(tree) is Some && ({
            let content = envelope(tree).unwrap().serialized_value;
            content.as_double() is Some || doubles(content) is Some || double_rows(content) is Some
        }),
        envelope(tree) is Some ==> ({
            let content = envelope(tree).unwrap().serialized_value;
            let read = zero_point_value(tree);
            &&& content.as_double() is Some ==> read is Some && zero_point_tensor(read.unwrap())
                == Some(
                TensorView { shape: seq![1usize], data: seq![content.as_double().unwrap()] },
            )
            &&& doubles(content) is Some ==> read is Some && zero_point_tensor(read.unwrap())
                == Some(
                TensorView {
                    shape: seq![doubles(content).unwrap().len() as usize],
                    data: doubles(content).unwrap(),
                },
            )
            &&& double_rows(content) is Some && content.as_items().unwrap().len() > 0
                ==> read is Some && zero_point_tensor(read.unwrap()) == ({
                let rows = double_rows(content).unwrap();
                if rectangular(rows) {
                    Some(
                        TensorView {
                            shape: seq![rows.len() as usize, rows[0].len() as usize],
                            data: rows.flatten(),
                        },
                    )
                } else {
                    None
                }
            })
        }),
{
    if envelope(tree) is Some {
        let content = envelope(tree).unwrap().serialized_value;
        if double_rows(content) is Some && content.as_items().unwrap().len() > 0 {
            let items = content.as_items().unwrap();
            assert(doubles(items[0]) is Some);
            assert(items[0].as_double() is None);
            assert(doubles(content) is None);
        }
    }
}

/// What an offset of each accepted shape is read as: a bare integer as the
/// tensor of shape `[1]` that holds it, and a wrapped array of integers as
/// the tensor of rank 1 that holds them. Anything else is not accepted.
pub proof fn lemma_offset_of_json(tree: JsonTree)
    ensures
        offset_value(tree) is Some <==> tree.as_integer() is Some || (envelope(tree) is Some
            && integers(envelope(tree).unwrap().serialized_value) is Some),
        tree.as_integer() is Some ==> offset_value(tree) is Some && offset_tensor(
            offset_value(tree).unwrap(),
        ) == (TensorView { shape: seq![1usize], data: seq![tree.as_integer().unwrap()] }),
        envelope(tree) is Some && integers(envelope(tree).unwrap().serialized_value) is Some
            ==> offset_value(tree) is Some && offset_tensor(offset_value(tree).unwrap()) == ({
            let xs = integers(envelope(tree).unwrap().serialized_value).unwrap();
            TensorView { shape: seq![xs.len() as usize], data: xs }
        }),
{
}

/// A tensor of rank 1 that holds `data`.
fn tensor_of_list<T>(data: Vec<T>) -> (t: Tensor<T>)
    ensures
        t@ == (TensorView { shape: seq![data@.len() as usize], data: data@ }),
        t@.wf(),
{
    let n: usize = data.len();
    let shape: Vec<usize> = vec![n];
    proof {
        lemma_volume_of_one_axis(n);
        assert(shape@ =~= seq![n]);
    }
    Tensor { shape, data }
}

/// The tensor of rank 2 that has `rows` as its rows, where they form a
/// rectangle.
fn tensor_of_rows(rows: &Vec<Vec<Double>>) -> (r: Option<Tensor<Double>>)
    ensures
        r matches Some(t) ==> t@.wf(),
        match r {
            Some(t) => rectangular(rows.deep_view()) && t@ == (TensorView {
                shape: seq![rows@.len() as usize, rows@[0]@.len() as usize],
                data: rows.deep_view().flatten(),
            }),
            None => !rectangular(rows.deep_view()),
        },
{
    let ghost view = rows.deep_view();
    let height: usize = rows.len();
    if height == 0 {
        return None;
    }
    let width: usize = rows[0].len();
    assert(view[0] == rows@[0].deep_view());
    assert(rows@[0].deep_view() =~= rows@[0]@);
    let mut data: Vec<Double> = Vec::new();
    let mut i: usize = 0;
    while i < height
        invariant
            view == rows.deep_view(),
            height == rows@.len(),
            0 < height,
            width == view[0].len(),
            i <= height,
            forall|k: int| 0 <= k < i ==> (#[trigger] view[k]).len() == width,
            data@ == view.take(i as int).flatten(),
            data@.len() == i * width,
        decreases height - i,
    {
        let row = &rows[i];
        assert(view[i as int] == row.deep_view());
        assert(row.deep_view() =~= row@);
        if row.len() != width {
            return None;
        }
        let ghost before = data@;
        let mut j: usize = 0;
        while j < width
            invariant
                row@.len() == width,
                j <= width,
                data@ == before + row@.take(j as int),
            decreases width - j,
        {
            data.push(row[j]);
            proof {
                assert(row@.take(j + 1) =~= row@.take(j as int).push(row@[j as int]));
            }
            j += 1;
        }
        proof {
            assert(row@.take(width as int) =~= row@);
            assert(view.take(i + 1) =~= view.take(i as int).push(view[i as int]));
            view.take(i as int).lemma_flatten_push(view[i as int]);
            assert((i + 1) * width == i * width + width) by (nonlinear_arith);
        }
        i += 1;
    }
    let shape: Vec<usize> = vec![height, width];
    proof {
        assert(view.take(height as int) =~= view);
        assert(rectangular(view));
        lemma_volume_of_two_axes(height, width);
        assert(shape@ =~= seq![height, width]);
    }
    Some(Tensor { shape, data })
}

/// `2^n_bits - 1`, the greatest code of an unsigned grid of `n_bits` bits.
fn grid_top(n_bits: u32) -> (r: i64)
    requires
        1 <= n_bits <= 62,
    ensures
        r == pow2(n_bits as nat) - 1,
{
    proof {
        lemma2_to64_rest();
        lemma_pow2_pos(n_bits as nat);
        lemma_pow2_strictly_increases(n_bits as nat, 63);
        lemma_u64_shl_is_mul(1, n_bits as u64);
    }
    let grid: u64 = 1u64 << (n_bits as u64);
    (grid - 1) as i64
}

proof fn lemma_volume_of_one_axis(n: usize)
    ensures
        volume(seq![n]) == n,
{
    let shape = seq![n];
    assert(shape.len() == 1 && shape.last() == n);
    assert(shape.drop_last().len() == 0);
    assert(volume(shape.drop_last()) == 1);
    assert(volume(shape) == volume(shape.drop_last()) * (shape.last() as nat));
}

proof fn lemma_volume_of_two_axes(n: usize, m: usize)
    ensures
        volume(seq![n, m]) == n * m,
{
    assert(seq![n, m].drop_last() =~= seq![n]);
    assert(seq![n, m].last() == m);
    lemma_volume_of_one_axis(n);
}

} // verus!
