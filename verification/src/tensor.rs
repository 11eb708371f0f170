//! Dense row-major tensors of any rank, and broadcasting between their shapes.

use vstd::prelude::*;
use vstd::slice::slice_to_vec;

verus! {

/// The number of positions of a tensor with the given shape: the product of
/// its axis lengths, which is 1 for rank 0.
pub open spec fn volume(shape: Seq<usize>) -> nat
    decreases shape.len(),
{
    if shape.len() == 0 {
        1
    } else {
        volume(shape.drop_last()) * (shape.last() as nat)
    }
}

/// Whether `index` names a position of a tensor with the given shape: one
/// coordinate per axis, each below the axis length.
pub open spec fn within(shape: Seq<usize>, index: Seq<nat>) -> bool {
    &&& index.len() == shape.len()
    &&& forall|k: int| 0 <= k < shape.len() ==> index[k] < #[trigger] shape[k]
}

/// Where the element at `index` lies in row-major order: the last axis varies
/// fastest.
pub open spec fn position(shape: Seq<usize>, index: Seq<nat>) -> nat
    decreases shape.len(),
{
    if shape.len() == 0 {
        0
    } else {
        position(shape.drop_last(), index.drop_last()) * (shape.last() as nat) + index.last()
    }
}

/// The index whose row-major position in a tensor of the given shape is
/// `flat`.
pub open spec fn index_of(shape: Seq<usize>, flat: nat) -> Seq<nat>
    decreases shape.len(),
{
    if shape.len() == 0 {
        Seq::empty()
    } else {
        index_of(shape.drop_last(), flat / (shape.last() as nat)).push(
            flat % (shape.last() as nat),
        )
    }
}

/// Whether a tensor of shape `from` can be broadcast to shape `to`: the axes
/// are aligned from the last one, and each axis of `from` either has the
/// length of the axis of `to` it is aligned with or has length 1.
pub open spec fn broadcastable(from: Seq<usize>, to: Seq<usize>) -> bool {
    &&& from.len() <= to.len()
    &&& forall|k: int|
        0 <= k < from.len() ==> #[trigger] from[k] == 1 || from[k] == to[k + (to.len() - from.len())]
}

/// The position in a tensor of shape `from` that is seen at `index` once that
/// tensor is broadcast: leading coordinates are dropped, and the coordinate
/// along an axis of length 1 is 0.
pub open spec fn source_index(from: Seq<usize>, index: Seq<nat>) -> Seq<nat> {
    Seq::new(
        from.len(),
        |k: int|
            if from[k] == 1 {
                0
            } else {
                index[k + (index.len() - from.len())]
            },
    )
}

/// The mathematical content of a [`Tensor`]: its shape and its elements in
/// row-major order.
pub struct TensorView<T> {
    pub shape: Seq<usize>,
    pub data: Seq<T>,
}

impl<T> TensorView<T> {
    /// There is exactly one element for each position of the shape.
    pub open spec fn wf(self) -> bool {
        self.data.len() == volume(self.shape)
    }

    /// The element at `index`.
    pub open spec fn at(self, index: Seq<nat>) -> T {
        self.data[position(self.shape, index) as int]
    }

    /// Whether `target` is this tensor broadcast to the shape of `target`.
    pub open spec fn broadcasts_to(self, target: TensorView<T>) -> bool {
        &&& target.wf()
        &&& broadcastable(self.shape, target.shape)
        &&& forall|index: Seq<nat>|
            within(target.shape, index) ==> #[trigger] target.at(index) == self.at(
                source_index(self.shape, index),
            )
    }
}

/// The tensor of the given shape that holds `value` at every position.
pub open spec fn filled<T>(shape: Seq<usize>, value: T) -> TensorView<T> {
    TensorView { shape, data: Seq::new(volume(shape), |i: int| value) }
}

/// A dense tensor: `data` holds the elements in row-major order.
#[derive(Clone, Debug)]
pub struct Tensor<T> {
    pub shape: Vec<usize>,
    pub data: Vec<T>,
}

impl<T> View for Tensor<T> {
    type V = TensorView<T>;

    open spec fn view(&self) -> TensorView<T> {
        TensorView { shape: self.shape@, data: self.data@ }
    }
}

/// Why a tensor could not be broadcast: the shape it has and the shape asked
/// for.
#[derive(Clone, Debug)]
pub struct BroadcastError {
    pub from: Vec<usize>,
    pub to: Vec<usize>,
}

/// The number of positions of `shape`, where it can be held in a `usize`.
pub fn volume_of(shape: &[usize]) -> (r: Option<usize>)
    ensures
        r == if volume(shape@) <= usize::MAX {
            Some(volume(shape@) as usize)
        } else {
            None
        },
{
    let rank: usize = shape.len();
    let mut k: usize = 0;
    while k < rank
        invariant
            rank == shape@.len(),
            k <= rank,
            forall|j: int| 0 <= j < k ==> #[trigger] shape@[j] >= 1,
        decreases rank - k,
    {
        if shape[k] == 0 {
            proof {
                lemma_volume_zero(shape@, k as int);
            }
            return Some(0);
        }
        k += 1;
    }
    let mut product: usize = 1;
    k = 0;
    while k < rank
        invariant
            rank == shape@.len(),
            k <= rank,
            forall|j: int| 0 <= j < rank ==> #[trigger] shape@[j] >= 1,
            product == volume(shape@.take(k as int)),
        decreases rank - k,
    {
        proof {
            let longer = shape@.take(k + 1);
            assert(longer.drop_last() == shape@.take(k as int));
            assert(longer.last() == shape@[k as int]);
            lemma_volume_prefix(shape@, k + 1);
        }
        match product.checked_mul(shape[k]) {
            Some(next) => {
                product = next;
            },
            None => {
                return None;
            },
        }
        k += 1;
    }
    proof {
        assert(shape@.take(rank as int) == shape@);
    }
    Some(product)
}

/// Whether a tensor of shape `from` can be broadcast to shape `to`.
pub fn can_broadcast(from: &[usize], to: &[usize]) -> (r: bool)
    ensures
        r == broadcastable(from@, to@),
{
    if from.len() > to.len() {
        return false;
    }
    let rank: usize = to.len();
    let lead: usize = rank - from.len();
    let mut k: usize = 0;
    while k < from.len()
        invariant
            from@.len() <= to@.len() == rank,
            lead == to@.len() - from@.len(),
            k <= from@.len(),
            forall|j: int| 0 <= j < k ==> #[trigger] from@[j] == 1 || from@[j] == to@[j + lead],
        decreases from@.len() - k,
    {
        if from[k] != 1 && from[k] != to[k + lead] {
            return false;
        }
        k += 1;
    }
    true
}

impl<T> Tensor<T> {
    /// The tensor of the given shape with the given elements in row-major
    /// order, where there is one element for each position.
    pub fn new(shape: Vec<usize>, data: Vec<T>) -> (r: Option<Tensor<T>>)
        ensures
            r is Some <==> volume(shape@) == data@.len(),
            r matches Some(t) ==> t.shape@ == shape@ && t.data@ == data@ && t@.wf(),
    {
        let held: usize = data.len();
        match volume_of(shape.as_slice()) {
            Some(n) => if n == held {
                Some(Tensor { shape, data })
            } else {
                None
            },
            None => None,
        }
    }

    /// Whether there is exactly one element for each position of the shape.
    pub fn is_well_formed(&self) -> (r: bool)
        ensures
            r == self@.wf(),
    {
        let held: usize = self.data.len();
        match volume_of(self.shape.as_slice()) {
            Some(n) => n == held,
            None => false,
        }
    }
}

impl<T: Copy> Tensor<T> {
    /// The element at `index`, where `index` names a position of the tensor.
    pub fn get(&self, index: &[usize]) -> (r: Option<T>)
        requires
            self@.wf(),
        ensures
            r == if within(self.shape@, index@.map_values(|i: usize| i as nat)) {
                Some(self@.at(index@.map_values(|i: usize| i as nat)))
            } else {
                None
            },
    {
        let ghost wanted = index@.map_values(|i: usize| i as nat);
        let rank: usize = self.shape.len();
        if index.len() != rank {
            return None;
        }
        let mut k: usize = 0;
        while k < rank
            invariant
                rank == self.shape@.len() == index@.len(),
                wanted == index@.map_values(|i: usize| i as nat),
                k <= rank,
                forall|j: int| 0 <= j < k ==> wanted[j] < #[trigger] self.shape@[j],
            decreases rank - k,
        {
            if index[k] >= self.shape[k] {
                assert(!(wanted[k as int] < self.shape@[k as int]));
                return None;
            }
            k += 1;
        }
        let held: usize = self.data.len();
        let mut place: usize = 0;
        k = 0;
        proof {
            assert(self.shape@.take(0).len() == 0);
        }
        while k < rank
            invariant
                self@.wf(),
                held == self.data@.len(),
                rank == self.shape@.len() == index@.len(),
                wanted == index@.map_values(|i: usize| i as nat),
                within(self.shape@, wanted),
                k <= rank,
                place == position(self.shape@.take(k as int), wanted.take(k as int)),
            decreases rank - k,
        {
            proof {
                let s = self.shape@.take(k + 1);
                let w = wanted.take(k + 1);
                assert(s.drop_last() =~= self.shape@.take(k as int));
                assert(w.drop_last() =~= wanted.take(k as int));
                assert(s.last() == self.shape@[k as int] && w.last() == wanted[k as int]);
                assert(within(s, w)) by {
                    assert forall|j: int| 0 <= j < s.len() implies w[j] < #[trigger] s[j] by {
                        assert(wanted[j] < self.shape@[j]);
                    }
                }
                lemma_position_bound(s, w);
                assert forall|j: int| 0 <= j < rank implies #[trigger] self.shape@[j] >= 1 by {
                    assert(wanted[j] < self.shape@[j]);
                }
                lemma_volume_prefix(self.shape@, k + 1);
                assert(place * self.shape@[k as int] <= position(s, w));
            }
            place = place * self.shape[k] + index[k];
            k += 1;
        }
        proof {
            assert(self.shape@.take(rank as int) =~= self.shape@);
            assert(wanted.take(rank as int) =~= wanted);
            lemma_position_bound(self.shape@, wanted);
        }
        Some(self.data[place])
    }

    /// This tensor broadcast to `shape`, as a tensor of its own. Fails where
    /// the shapes do not allow it, and where `shape` has more positions than
    /// a `usize` can count.
    pub fn broadcast(&self, shape: &[usize]) -> (r: Result<Tensor<T>, BroadcastError>)
        requires
            self@.wf(),
        ensures
            r is Ok <==> broadcastable(self.shape@, shape@) && volume(shape@) <= usize::MAX,
            r matches Ok(t) ==> t.shape@ == shape@ && self@.broadcasts_to(t@),
            r matches Err(e) ==> e.from@ == self.shape@ && e.to@ == shape@,
    {
        let total = match volume_of(shape) {
            Some(n) if can_broadcast(self.shape.as_slice(), shape) => n,
            _ => {
                return Err(BroadcastError { from: self.shape.clone(), to: slice_to_vec(shape) });
            },
        };
        let held: usize = self.data.len();
        let mut data: Vec<T> = Vec::with_capacity(total);
        let mut flat: usize = 0;
        while flat < total
            invariant
                self@.wf(),
                held == self.data@.len(),
                broadcastable(self.shape@, shape@),
                total == volume(shape@),
                flat <= total,
                data@.len() == flat,
                forall|j: int|
                    0 <= j < flat ==> #[trigger] data@[j] == self.data@[source_position(
                        self.shape@,
                        shape@,
                        j as nat,
                    ) as int],
            decreases total - flat,
        {
            let place = source_place(self.shape.as_slice(), shape, flat);
            data.push(self.data[place]);
            flat += 1;
        }
        let t = Tensor { shape: slice_to_vec(shape), data };
        proof {
            assert forall|index: Seq<nat>| within(t@.shape, index) implies #[trigger] t@.at(index)
                == self@.at(source_index(self.shape@, index)) by {
                lemma_position_bound(shape@, index);
                lemma_source_position(self.shape@, shape@, index);
            }
        }
        Ok(t)
    }
}

/// A shape with an empty axis has no positions.
pub proof fn lemma_volume_zero(shape: Seq<usize>, k: int)
    requires
        0 <= k < shape.len(),
        shape[k] == 0,
    ensures
        volume(shape) == 0,
    decreases shape.len(),
{
    if k < shape.len() - 1 {
        assert(shape.drop_last()[k] == 0);
        lemma_volume_zero(shape.drop_last(), k);
        assert(volume(shape.drop_last()) * (shape.last() as nat) == 0) by (nonlinear_arith)
            requires
                volume(shape.drop_last()) == 0,
        ;
    } else {
        assert(volume(shape.drop_last()) * (shape.last() as nat) == 0) by (nonlinear_arith)
            requires
                shape.last() == 0,
        ;
    }
}

/// A shape with positions has no empty axis.
pub proof fn lemma_volume_positive(shape: Seq<usize>)
    requires
        volume(shape) > 0,
    ensures
        forall|k: int| 0 <= k < shape.len() ==> #[trigger] shape[k] >= 1,
{
    assert forall|k: int| 0 <= k < shape.len() implies #[trigger] shape[k] >= 1 by {
        if shape[k] == 0 {
            lemma_volume_zero(shape, k);
        }
    }
}

/// A position of the shape lies below its volume in row-major order.
pub proof fn lemma_position_bound(shape: Seq<usize>, index: Seq<nat>)
    requires
        within(shape, index),
    ensures
        position(shape, index) < volume(shape),
    decreases shape.len(),
{
    if shape.len() > 0 {
        let outer = shape.drop_last();
        let head = index.drop_last();
        assert(within(outer, head)) by {
            assert forall|k: int| 0 <= k < outer.len() implies head[k] < #[trigger] outer[k] by {
                assert(index[k] < shape[k]);
            }
        }
        lemma_position_bound(outer, head);
        assert(index.last() < shape[shape.len() - 1]);
        assert(position(outer, head) * (shape.last() as nat) + index.last() < volume(outer) * (
        shape.last() as nat)) by (nonlinear_arith)
            requires
                position(outer, head) < volume(outer),
                index.last() < shape.last(),
        ;
    }
}

/// Every place below the volume is the position of an index of the shape.
pub proof fn lemma_index_of(shape: Seq<usize>, flat: nat)
    requires
        flat < volume(shape),
    ensures
        within(shape, index_of(shape, flat)),
        position(shape, index_of(shape, flat)) == flat,
    decreases shape.len(),
{
    if shape.len() > 0 {
        let d = shape.last() as nat;
        let outer = shape.drop_last();
        assert(d > 0 && flat / d < volume(outer) && flat % d < d && (flat / d) * d + flat % d
            == flat) by (nonlinear_arith)
            requires
                flat < volume(outer) * d,
        ;
        lemma_index_of(outer, flat / d);
        let index = index_of(shape, flat);
        assert(index.drop_last() =~= index_of(outer, flat / d));
        assert forall|k: int| 0 <= k < shape.len() implies index[k] < #[trigger] shape[k] by {
            if k < shape.len() - 1 {
                assert(index[k] == index_of(outer, flat / d)[k]);
                assert(outer[k] == shape[k]);
            }
        }
    }
}

/// A well-formed tensor is decided by its shape and by its element at each
/// index.
pub proof fn lemma_elements_decide<T>(a: TensorView<T>, b: TensorView<T>)
    requires
        a.wf(),
        b.wf(),
        a.shape == b.shape,
        forall|index: Seq<nat>| within(a.shape, index) ==> a.at(index) == b.at(index),
    ensures
        a == b,
{
    assert forall|i: int| 0 <= i < a.data.len() implies a.data[i] == b.data[i] by {
        lemma_index_of(a.shape, i as nat);
        let index = index_of(a.shape, i as nat);
        assert(a.at(index) == b.at(index));
    }
    assert(a.data =~= b.data);
}

/// What a tensor is broadcast to is decided by the tensor and the shape.
pub proof fn lemma_broadcast_is_unique<T>(
    source: TensorView<T>,
    first: TensorView<T>,
    second: TensorView<T>,
)
    requires
        source.broadcasts_to(first),
        source.broadcasts_to(second),
        first.shape == second.shape,
    ensures
        first == second,
{
    assert forall|index: Seq<nat>| within(first.shape, index) implies first.at(index)
        == second.at(index) by {
        assert(first.at(index) == source.at(source_index(source.shape, index)));
        assert(second.at(index) == source.at(source_index(source.shape, index)));
    }
    lemma_elements_decide(first, second);
}

/// A tensor of shape `[1]` can be broadcast to every shape of rank 1 or more,
/// and shows its one element at every index: broadcast, it is the tensor of
/// that shape filled with the element.
pub proof fn lemma_broadcast_of_single<T>(source: TensorView<T>, target: TensorView<T>)
    requires
        source.shape == seq![1usize],
        source.wf(),
        target.wf(),
    ensures
        broadcastable(source.shape, target.shape) <==> target.shape.len() >= 1,
        forall|index: Seq<nat>|
            #![trigger source_index(source.shape, index)]
            target.shape.len() >= 1 && within(target.shape, index) ==> source.at(
                source_index(source.shape, index),
            ) == source.data[0],
        source.broadcasts_to(target) ==> target == filled(target.shape, source.data[0]),
{
    assert forall|index: Seq<nat>|
        #![trigger source_index(source.shape, index)]
        target.shape.len() >= 1 && within(target.shape, index) implies source.at(
        source_index(source.shape, index),
    ) == source.data[0] by {
        lemma_position_of_single(source.shape, source_index(source.shape, index));
    }
    if source.broadcasts_to(target) {
        let full = filled(target.shape, source.data[0]);
        assert forall|index: Seq<nat>| within(target.shape, index) implies target.at(index)
            == full.at(index) by {
            lemma_position_bound(target.shape, index);
            assert(target.at(index) == source.at(source_index(source.shape, index)));
        }
        lemma_elements_decide(target, full);
    }
}

/// A tensor broadcast to its own shape is the tensor itself.
pub proof fn lemma_broadcast_to_own_shape<T>(source: TensorView<T>, target: TensorView<T>)
    requires
        source.wf(),
        target.shape == source.shape,
    ensures
        broadcastable(source.shape, source.shape),
        source.broadcasts_to(source),
        source.broadcasts_to(target) ==> target == source,
{
    assert forall|index: Seq<nat>| within(source.shape, index) implies source_index(
        source.shape,
        index,
    ) == index by {
        assert(source_index(source.shape, index) =~= index);
    }
    if source.broadcasts_to(target) {
        lemma_broadcast_is_unique(source, source, target);
    }
}

/// Where in row-major order a tensor of shape `from` holds the element that
/// its broadcast to shape `to` shows at row-major place `flat`.
pub closed spec fn source_position(from: Seq<usize>, to: Seq<usize>, flat: nat) -> nat
    decreases from.len(),
{
    if from.len() == 0 || to.len() == 0 {
        0
    } else {
        let digit = if from.last() == 1 {
            0
        } else {
            flat % (to.last() as nat)
        };
        source_position(from.drop_last(), to.drop_last(), flat / (to.last() as nat)) * (
        from.last() as nat) + digit
    }
}

/// Read by index, `source_position` takes the place of `index` in the target
/// to the place of `source_index(from, index)` in the source.
pub proof fn lemma_source_position(from: Seq<usize>, to: Seq<usize>, index: Seq<nat>)
    requires
        broadcastable(from, to),
        within(to, index),
    ensures
        within(from, source_index(from, index)),
        source_position(from, to, position(to, index)) == position(
            from,
            source_index(from, index),
        ),
    decreases from.len(),
{
    let source = source_index(from, index);
    assert(within(from, source)) by {
        assert forall|k: int| 0 <= k < from.len() implies source[k] < #[trigger] from[k] by {
            let j = k + (to.len() - from.len());
            assert(from[k] == 1 || from[k] == to[j]);
            assert(index[j] < to[j]);
        }
    }
    if from.len() > 0 {
        lemma_broadcastable_outer(from, to);
        let d = to.last() as nat;
        let s = from.last() as nat;
        let head = index.drop_last();
        let outer = to.drop_last();
        assert(within(outer, head)) by {
            assert forall|k: int| 0 <= k < outer.len() implies head[k] < #[trigger] outer[k] by {
                assert(index[k] < to[k]);
            }
        }
        lemma_source_position(from.drop_last(), outer, head);
        assert(source_index(from.drop_last(), head) =~= source.drop_last());
        let high = position(outer, head);
        let low = index.last();
        assert(low < to[to.len() - 1]);
        assert((high * d + low) / d == high && (high * d + low) % d == low) by (nonlinear_arith)
            requires
                low < d,
        ;
        assert(source.last() == if s == 1 {
            0
        } else {
            low
        });
    }
}

/// The place in a tensor of shape `from` of the element that its broadcast to
/// shape `to` shows at place `flat`.
pub(crate) fn source_place(from: &[usize], to: &[usize], flat: usize) -> (r: usize)
    requires
        broadcastable(from@, to@),
        flat < volume(to@),
        volume(from@) <= usize::MAX,
    ensures
        r == source_position(from@, to@, flat as nat),
        r < volume(from@),
{
    let ghost goal = source_position(from@, to@, flat as nat);
    let mut a: usize = from.len();
    let mut b: usize = to.len();
    let mut rest: usize = flat;
    let mut stride: usize = 1;
    let mut place: usize = 0;
    proof {
        lemma_source_position_bound(from@, to@, flat as nat);
        lemma_volume_positive(to@);
        assert(from@.take(a as int) == from@);
        assert(to@.take(b as int) == to@);
        assert forall|k: int| 0 <= k < from@.len() implies #[trigger] from@[k] >= 1 by {
            assert(from@[k] == 1 || from@[k] == to@[k + (to@.len() - from@.len())]);
        }
    }
    while a > 0
        invariant
            a <= from@.len(),
            b - a == to@.len() - from@.len(),
            forall|k: int| 0 <= k < from@.len() ==> #[trigger] from@[k] >= 1,
            forall|k: int| 0 <= k < to@.len() ==> #[trigger] to@[k] >= 1,
            broadcastable(from@.take(a as int), to@.take(b as int)),
            goal == source_position(from@.take(a as int), to@.take(b as int), rest as nat)
                * stride + place,
            volume(from@.take(a as int)) * stride == volume(from@),
            goal < volume(from@) <= usize::MAX,
        decreases a,
    {
        let ghost f = from@.take(a as int);
        let ghost t = to@.take(b as int);
        let d: usize = to[b - 1];
        let s: usize = from[a - 1];
        proof {
            lemma_broadcastable_outer(f, t);
            assert(f.drop_last() == from@.take(a - 1));
            assert(t.drop_last() == to@.take(b - 1));
            assert(f.last() == s && t.last() == d);
            lemma_volume_prefix(from@, a - 1);
        }
        let digit: usize = if s == 1 {
            0
        } else {
            rest % d
        };
        let ghost inner = source_position(f.drop_last(), t.drop_last(), (rest / d) as nat);
        assert(goal == inner * (s * stride) + (digit * stride + place) && digit * stride + place
            <= goal) by (nonlinear_arith)
            requires
                goal == (inner * s + digit) * stride + place,
        ;
        assert(s * stride <= volume(from@)) by (nonlinear_arith)
            requires
                volume(from@.take(a - 1)) * s * stride == volume(from@),
                volume(from@.take(a - 1)) >= 1,
        ;
        assert(volume(from@.take(a - 1)) * (s * stride) == volume(from@)) by (nonlinear_arith)
            requires
                volume(from@.take(a - 1)) * s * stride == volume(from@),
        ;
        place = place + digit * stride;
        stride = s * stride;
        rest = rest / d;
        a -= 1;
        b -= 1;
    }
    assert(goal == place) by (nonlinear_arith)
        requires
            goal == source_position(from@.take(0), to@.take(b as int), rest as nat) * stride
                + place,
            source_position(from@.take(0), to@.take(b as int), rest as nat) == 0,
    ;
    place
}

/// Without empty axes, a prefix of a shape has no more positions than the
/// whole.
proof fn lemma_volume_prefix(shape: Seq<usize>, n: int)
    requires
        0 <= n <= shape.len(),
        forall|k: int| 0 <= k < shape.len() ==> #[trigger] shape[k] >= 1,
    ensures
        1 <= volume(shape.take(n)) <= volume(shape),
    decreases shape.len() - n,
{
    if n == shape.len() {
        assert(shape.take(n) == shape);
        lemma_volume_at_least_one(shape);
    } else {
        lemma_volume_prefix(shape, n + 1);
        let longer = shape.take(n + 1);
        assert(longer.drop_last() == shape.take(n));
        assert(longer.last() == shape[n]);
        assert(volume(shape.take(n)) <= volume(shape.take(n)) * (shape[n] as nat))
            by (nonlinear_arith)
            requires
                shape[n] >= 1,
        ;
        lemma_volume_at_least_one(shape.take(n));
    }
}

proof fn lemma_volume_at_least_one(shape: Seq<usize>)
    requires
        forall|k: int| 0 <= k < shape.len() ==> #[trigger] shape[k] >= 1,
    ensures
        volume(shape) >= 1,
    decreases shape.len(),
{
    if shape.len() > 0 {
        assert forall|k: int| 0 <= k < shape.drop_last().len() implies #[trigger] shape.drop_last()[k]
            >= 1 by {
            assert(shape.drop_last()[k] == shape[k]);
        }
        lemma_volume_at_least_one(shape.drop_last());
        assert(volume(shape.drop_last()) * (shape.last() as nat) >= 1) by (nonlinear_arith)
            requires
                volume(shape.drop_last()) >= 1,
                shape.last() >= 1,
        ;
    }
}

/// Dropping the last axis of both shapes keeps them broadcastable.
proof fn lemma_broadcastable_outer(from: Seq<usize>, to: Seq<usize>)
    requires
        broadcastable(from, to),
        from.len() > 0,
    ensures
        broadcastable(from.drop_last(), to.drop_last()),
        from.last() == 1 || from.last() == to.last(),
{
    let f = from.drop_last();
    let t = to.drop_last();
    assert forall|k: int| 0 <= k < f.len() implies #[trigger] f[k] == 1 || f[k] == t[k + (t.len()
        - f.len())] by {
        assert(from[k] == 1 || from[k] == to[k + (to.len() - from.len())]);
    }
    assert(from[from.len() - 1] == 1 || from[from.len() - 1] == to[from.len() - 1 + (to.len()
        - from.len())]);
}

/// The source of a place of the target is a place of the source tensor.
proof fn lemma_source_position_bound(from: Seq<usize>, to: Seq<usize>, flat: nat)
    requires
        broadcastable(from, to),
        flat < volume(to),
    ensures
        source_position(from, to, flat) < volume(from),
    decreases from.len(),
{
    if from.len() > 0 {
        lemma_broadcastable_outer(from, to);
        let d = to.last() as nat;
        let s = from.last() as nat;
        let outer = volume(to.drop_last());
        assert(d > 0 && flat / d < outer) by (nonlinear_arith)
            requires
                flat < outer * d,
        ;
        lemma_source_position_bound(from.drop_last(), to.drop_last(), flat / d);
        let digit = if s == 1 {
            0
        } else {
            flat % d
        };
        assert(digit < s) by (nonlinear_arith)
            requires
                d > 0,
                s == 1 || s == d,
                digit == if s == 1 {
                    0
                } else {
                    flat % d
                },
        ;
        let inner = source_position(from.drop_last(), to.drop_last(), flat / d);
        assert(inner * s + digit < volume(from.drop_last()) * s) by (nonlinear_arith)
            requires
                inner < volume(from.drop_last()),
                digit < s,
        ;
    }
}

proof fn lemma_position_of_single(shape: Seq<usize>, index: Seq<nat>)
    requires
        shape == seq![1usize],
        index.len() == 1,
        index[0] == 0,
    ensures
        position(shape, index) == 0,
{
    reveal_with_fuel(position, 2);
    assert(shape.drop_last().len() == 0);
}

} // verus!
