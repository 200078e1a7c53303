use vstd::prelude::*;
use vstd::std_specs::cmp::PartialOrdIs;

verus! {

/// The largest number of control points that one input of a mapping takes.
pub const MAX_CONTROL_POINTS: usize = 8;

/// The input value `x` does not come before `prev`: `x >= prev` holds in the
/// order of `V`.
pub open spec fn not_before<V: PartialOrd>(x: V, prev: V) -> bool {
    x.is_ge(&prev)
}

/// The control points of a mapping's curve for one input: the first `n` of
/// `points` are in use, as `(input value, output offset)` pairs ordered by
/// input value.
#[derive(Debug, Clone)]
pub struct ControlPoints<V> {
    pub points: Vec<(V, V)>,
    pub n: usize,
}

impl<V: Copy> ControlPoints<V> {
    /// No control points in use; every slot holds `(zero, zero)`.
    pub fn new(zero: V) -> (c: Self)
        ensures
            c.n == 0,
            c.points@.len() == MAX_CONTROL_POINTS,
            forall|i: int| 0 <= i < MAX_CONTROL_POINTS ==> c.points@[i] == (zero, zero),
    {
        let mut points: Vec<(V, V)> = Vec::new();
        while points.len() < MAX_CONTROL_POINTS
            invariant
                points@.len() <= MAX_CONTROL_POINTS,
                forall|i: int| 0 <= i < points@.len() ==> points@[i] == (zero, zero),
            decreases MAX_CONTROL_POINTS - points.len(),
        {
            points.push((zero, zero));
        }
        ControlPoints { points, n: 0 }
    }
}

/// How many of the counts are not zero.
pub open spec fn nonzero_count(s: Seq<usize>) -> nat
    decreases s.len(),
{
    if s.len() == 0 {
        0
    } else {
        nonzero_count(s.drop_last()) + if s.last() != 0 {
            1nat
        } else {
            0nat
        }
    }
}

/// A brush setting as a function of the brush inputs: a base value plus,
/// for each input that has control points, a piecewise linear curve of that
/// input.
#[derive(Debug, Clone)]
pub struct MypaintMapping<V> {
    base_value: V,
    inputs: usize,
    points_list: Vec<ControlPoints<V>>,
    inputs_used: usize,
}

impl<V> MypaintMapping<V> {
    /// The number of control points in use for each input.
    pub closed spec fn counts(&self) -> Seq<usize> {
        self.points_list@.map_values(|c: ControlPoints<V>| c.n)
    }

    /// The control point `index` of input `input`.
    pub closed spec fn point(&self, input: int, index: int) -> (V, V) {
        self.points_list@[input].points@[index]
    }

    pub closed spec fn spec_base_value(&self) -> V {
        self.base_value
    }

    pub closed spec fn spec_inputs(&self) -> nat {
        self.inputs as nat
    }

    pub closed spec fn spec_inputs_used(&self) -> nat {
        self.inputs_used as nat
    }

    /// One curve per input, eight slots per curve, at most eight points in
    /// use per curve, never exactly one, and `inputs_used` counts the
    /// inputs that have points.
    pub closed spec fn wf(&self) -> bool {
        &&& self.points_list@.len() == self.inputs
        &&& forall|i: int|
            0 <= i < self.inputs ==> #[trigger] self.points_list@[i].points@.len()
                == MAX_CONTROL_POINTS
        &&& forall|i: int|
            0 <= i < self.inputs ==> #[trigger] self.points_list@[i].n <= MAX_CONTROL_POINTS
                && self.points_list@[i].n != 1
        &&& self.inputs_used == nonzero_count(self.counts())
    }
}

proof fn lemma_nonzero_count_bound(s: Seq<usize>)
    ensures
        nonzero_count(s) <= s.len(),
        nonzero_count(s) == 0 <==> forall|i: int| 0 <= i < s.len() ==> s[i] == 0,
    decreases s.len(),
{
    if s.len() > 0 {
        lemma_nonzero_count_bound(s.drop_last());
        if nonzero_count(s) == 0 {
            assert forall|i: int| 0 <= i < s.len() implies s[i] == 0 by {
                if i < s.len() - 1 {
                    assert(s.drop_last()[i] == s[i]);
                }
            }
        }
        if forall|i: int| 0 <= i < s.len() ==> s[i] == 0 {
            assert forall|i: int| 0 <= i < s.drop_last().len() implies s.drop_last()[i] == 0 by {
                assert(s.drop_last()[i] == s[i]);
            }
        }
    }
}

proof fn lemma_nonzero_count_update(s: Seq<usize>, i: int, v: usize)
    requires
        0 <= i < s.len(),
    ensures
        nonzero_count(s.update(i, v)) + (if s[i] != 0 {
            1int
        } else {
            0int
        }) == nonzero_count(s) + (if v != 0 {
            1int
        } else {
            0int
        }),
    decreases s.len(),
{
    if i == s.len() - 1 {
        assert(s.update(i, v).drop_last() =~= s.drop_last());
    } else {
        lemma_nonzero_count_update(s.drop_last(), i, v);
        assert(s.update(i, v).drop_last() =~= s.drop_last().update(i, v));
    }
}

impl<V> MypaintMapping<V> {
    /// A well-formed mapping has one count per input, each at most eight
    /// and never one, and counts as in use exactly the inputs with points.
    pub proof fn lemma_wf_counts(&self)
        requires
            self.wf(),
        ensures
            self.counts().len() == self.spec_inputs(),
            forall|i: int|
                0 <= i < self.spec_inputs() ==> #[trigger] self.counts()[i] <= MAX_CONTROL_POINTS
                    && self.counts()[i] != 1,
            self.spec_inputs_used() == nonzero_count(self.counts()),
            self.spec_inputs_used() <= self.spec_inputs(),
            self.spec_inputs_used() == 0 <==> forall|i: int|
                0 <= i < self.spec_inputs() ==> #[trigger] self.counts()[i] == 0,
    {
        lemma_nonzero_count_bound(self.counts());
        assert forall|i: int| 0 <= i < self.spec_inputs() implies #[trigger] self.counts()[i]
            <= MAX_CONTROL_POINTS && self.counts()[i] != 1 by {
            assert(self.points_list@[i].n <= MAX_CONTROL_POINTS);
        }
    }
}

impl<V: Copy> MypaintMapping<V> {
    /// A mapping of `inputs` inputs with no control points and the base
    /// value `zero`.
    pub fn new(inputs: usize, zero: V) -> (m: Self)
        ensures
            m.wf(),
            m.spec_inputs() == inputs,
            m.spec_inputs_used() == 0,
            m.spec_base_value() == zero,
            forall|i: int| 0 <= i < inputs ==> #[trigger] m.counts()[i] == 0,
            forall|i: int, j: int|
                0 <= i < inputs && 0 <= j < MAX_CONTROL_POINTS ==> #[trigger] m.point(i, j) == (
                    zero,
                    zero,
                ),
    {
        let mut points_list: Vec<ControlPoints<V>> = Vec::new();
        while points_list.len() < inputs
            invariant
                points_list@.len() <= inputs,
                forall|i: int|
                    0 <= i < points_list@.len() ==> (#[trigger] points_list@[i]).n == 0
                        && points_list@[i].points@.len() == MAX_CONTROL_POINTS && forall|j: int|
                        0 <= j < MAX_CONTROL_POINTS ==> points_list@[i].points@[j] == (zero, zero),
            decreases inputs - points_list.len(),
        {
            points_list.push(ControlPoints::new(zero));
        }
        let m = MypaintMapping { base_value: zero, inputs, points_list, inputs_used: 0 };
        proof {
            assert forall|i: int| 0 <= i < m.counts().len() implies m.counts()[i] == 0 by {
                assert(m.points_list@[i].n == 0);
            }
            lemma_nonzero_count_bound(m.counts());
            assert(m.points_list@.len() == m.inputs);
            assert(m.inputs_used == nonzero_count(m.counts()));
            assert forall|i: int| 0 <= i < m.inputs implies #[trigger] m.points_list@[i].points@.len()
                == MAX_CONTROL_POINTS && m.points_list@[i].n == 0 by {
                assert(m.points_list@[i].n == 0);
            }
        }
        m
    }

    /// The base value.
    pub fn get_base_value(&self) -> (v: V)
        ensures
            v == self.spec_base_value(),
    {
        self.base_value
    }

    /// Sets the base value; the curves stay.
    pub fn set_base_value(&mut self, value: V)
        requires
            old(self).wf(),
        ensures
            final(self).wf(),
            final(self).spec_base_value() == value,
            final(self).counts() == old(self).counts(),
            final(self).spec_inputs() == old(self).spec_inputs(),
            final(self).spec_inputs_used() == old(self).spec_inputs_used(),
            forall|i: int, j: int|
                0 <= i < old(self).spec_inputs() ==> #[trigger] final(self).point(i, j) == old(self).point(i, j),
    {
        self.base_value = value;
    }

    /// The number of inputs.
    pub fn get_inputs(&self) -> (n: usize)
        ensures
            n == self.spec_inputs(),
    {
        self.inputs
    }

    /// The number of control points in use for `input`; `None` past the
    /// last input.
    pub fn get_n(&self, input: usize) -> (n: Option<usize>)
        requires
            self.wf(),
        ensures
            input < self.spec_inputs() ==> n == Some(self.counts()[input as int]),
            input >= self.spec_inputs() ==> n is None,
    {
        if input < self.points_list.len() {
            Some(self.points_list[input].n)
        } else {
            None
        }
    }

    /// Sets the number of control points in use for `input`, keeping the
    /// count of inputs in use up to date.
    pub fn set_n(&mut self, input: usize, n: usize)
        requires
            old(self).wf(),
            input < old(self).spec_inputs(),
            n <= MAX_CONTROL_POINTS,
            n != 1,
        ensures
            final(self).wf(),
            final(self).counts() == old(self).counts().update(input as int, n),
            final(self).spec_inputs() == old(self).spec_inputs(),
            final(self).spec_base_value() == old(self).spec_base_value(),
            forall|i: int, j: int|
                0 <= i < old(self).spec_inputs() ==> #[trigger] final(self).point(i, j) == old(self).point(i, j),
            final(self).spec_inputs_used() == nonzero_count(final(self).counts()),
            final(self).spec_inputs_used() <= final(self).spec_inputs(),
    {
        let old_n = self.points_list[input].n;
        proof {
            lemma_nonzero_count_update(self.counts(), input as int, n);
            lemma_nonzero_count_bound(self.counts());
            lemma_nonzero_count_bound(self.counts().update(input as int, n));
            assert(self.counts()[input as int] == old_n);
        }
        if n != 0 && old_n == 0 {
            self.inputs_used = self.inputs_used + 1;
        } else if n == 0 && old_n != 0 {
            self.inputs_used = self.inputs_used - 1;
        }
        let ghost before = self.points_list@;
        self.points_list[input].n = n;
        proof {
            assert(self.points_list@.len() == before.len());
            assert(self.points_list@[input as int].points == before[input as int].points);
            assert forall|i: int| 0 <= i < before.len() && i != input implies #[trigger]
                self.points_list@[i] == before[i] by {}
            assert(self.counts() =~= old(self).counts().update(input as int, n));
        }
    }

    /// The control point `index` of `input`, which must be in use.
    pub fn get_point(&self, input: usize, index: usize) -> (p: (V, V))
        requires
            self.wf(),
            input < self.spec_inputs(),
            index < MAX_CONTROL_POINTS,
            index < self.counts()[input as int],
        ensures
            p == self.point(input as int, index as int),
    {
        self.points_list[input].points[index]
    }

    /// Replaces the control point `index` of `input`, which must be in use.
    /// Its input value must not come before that of the point `index - 1`.
    pub fn set_point(&mut self, input: usize, index: usize, point: (V, V))
        where V: PartialOrd
        requires
            old(self).wf(),
            input < old(self).spec_inputs(),
            index < MAX_CONTROL_POINTS,
            index < old(self).counts()[input as int],
            index > 0 ==> not_before(point.0, old(self).point(input as int, index - 1).0),
        ensures
            final(self).wf(),
            final(self).point(input as int, index as int) == point,
            forall|i: int, j: int|
                0 <= i < old(self).spec_inputs() && 0 <= j < MAX_CONTROL_POINTS && !(i == input
                    && j == index) ==> #[trigger] final(self).point(i, j) == old(self).point(i, j),
            final(self).counts() == old(self).counts(),
            final(self).spec_inputs() == old(self).spec_inputs(),
            final(self).spec_inputs_used() == old(self).spec_inputs_used(),
            final(self).spec_base_value() == old(self).spec_base_value(),
    {
        let ghost before = self.points_list@;
        self.points_list[input].points.set(index, point);
        proof {
            assert forall|i: int| 0 <= i < before.len() && i != input implies #[trigger]
                self.points_list@[i] == before[i] by {}
            assert(self.counts() =~= old(self).counts());
        }
    }

    /// No input has control points: the mapping is its base value.
    pub fn is_constant(&self) -> (r: bool)
        requires
            self.wf(),
        ensures
            r == (self.spec_inputs_used() == 0),
            r <==> forall|i: int| 0 <= i < self.spec_inputs() ==> #[trigger] self.counts()[i] == 0,
    {
        proof {
            lemma_nonzero_count_bound(self.counts());
        }
        self.inputs_used == 0
    }

    /// The number of inputs that have control points.
    pub fn get_inputs_used(&self) -> (n: usize)
        requires
            self.wf(),
        ensures
            n == self.spec_inputs_used(),
            n == nonzero_count(self.counts()),
            n <= self.spec_inputs(),
    {
        proof {
            lemma_nonzero_count_bound(self.counts());
        }
        self.inputs_used
    }
}

/// A mapping of `inputs_` inputs with no control points and the base value
/// `zero`.
pub fn mypaint_mapping_new<V: Copy>(inputs_: i32, zero: V) -> (m: MypaintMapping<V>)
    requires
        inputs_ >= 0,
    ensures
        m.wf(),
        m.spec_inputs() == inputs_,
        m.spec_inputs_used() == 0,
        m.spec_base_value() == zero,
        forall|i: int| 0 <= i < inputs_ ==> #[trigger] m.counts()[i] == 0,
        forall|i: int, j: int|
            0 <= i < inputs_ && 0 <= j < MAX_CONTROL_POINTS ==> #[trigger] m.point(i, j) == (
                zero,
                zero,
            ),
{
    MypaintMapping::new(inputs_ as usize, zero)
}

/// The base value of the mapping.
pub fn mypaint_mapping_get_base_value<V: Copy>(self_: &MypaintMapping<V>) -> (v: V)
    ensures
        v == self_.spec_base_value(),
{
    self_.get_base_value()
}

/// Sets the base value of the mapping.
pub fn mypaint_mapping_set_base_value<V: Copy>(self_: &mut MypaintMapping<V>, value: V)
    requires
        old(self_).wf(),
    ensures
        final(self_).wf(),
        final(self_).spec_base_value() == value,
        final(self_).counts() == old(self_).counts(),
        final(self_).spec_inputs() == old(self_).spec_inputs(),
        final(self_).spec_inputs_used() == old(self_).spec_inputs_used(),
        forall|i: int, j: int|
            0 <= i < old(self_).spec_inputs() ==> #[trigger] final(self_).point(i, j) == old(self_).point(i, j),
{
    self_.set_base_value(value);
}

/// Sets the number of control points in use for `input`.
pub fn mypaint_mapping_set_n<V: Copy>(self_: &mut MypaintMapping<V>, input: i32, n: i32)
    requires
        old(self_).wf(),
        0 <= input < old(self_).spec_inputs(),
        0 <= n <= MAX_CONTROL_POINTS,
        n != 1,
    ensures
        final(self_).wf(),
        final(self_).counts() == old(self_).counts().update(input as int, n as usize),
        final(self_).spec_inputs() == old(self_).spec_inputs(),
        final(self_).spec_base_value() == old(self_).spec_base_value(),
        forall|i: int, j: int|
            0 <= i < old(self_).spec_inputs() ==> #[trigger] final(self_).point(i, j) == old(self_).point(i, j),
        final(self_).spec_inputs_used() == nonzero_count(final(self_).counts()),
{
    self_.set_n(input as usize, n as usize);
}

/// The number of control points in use for `input`.
pub fn mypaint_mapping_get_n<V: Copy>(self_: &MypaintMapping<V>, input: i32) -> (n: i32)
    requires
        self_.wf(),
        0 <= input < self_.spec_inputs(),
    ensures
        n == self_.counts()[input as int],
{
    match self_.get_n(input as usize) {
        Some(n) => n as i32,
        None => 0,
    }
}

/// Replaces the control point `index` of `input` with `(x, y)`; `x` must not
/// come before the input value of the point `index - 1`.
pub fn mypaint_mapping_set_point<V: Copy + PartialOrd>(
    self_: &mut MypaintMapping<V>,
    input: i32,
    index: i32,
    x: V,
    y: V,
)
    requires
        old(self_).wf(),
        0 <= input < old(self_).spec_inputs(),
        0 <= index < MAX_CONTROL_POINTS,
        index < old(self_).counts()[input as int],
        index > 0 ==> not_before(x, old(self_).point(input as int, index - 1).0),
    ensures
        final(self_).wf(),
        final(self_).point(input as int, index as int) == (x, y),
        forall|i: int, j: int|
            0 <= i < old(self_).spec_inputs() && 0 <= j < MAX_CONTROL_POINTS && !(i == input && j
                == index) ==> #[trigger] final(self_).point(i, j) == old(self_).point(i, j),
        final(self_).counts() == old(self_).counts(),
        final(self_).spec_inputs() == old(self_).spec_inputs(),
        final(self_).spec_inputs_used() == old(self_).spec_inputs_used(),
        final(self_).spec_base_value() == old(self_).spec_base_value(),
{
    self_.set_point(input as usize, index as usize, (x, y));
}

/// The control point `index` of `input`.
pub fn mypaint_mapping_get_point<V: Copy>(self_: &MypaintMapping<V>, input: i32, index: i32) -> (p: (
    V,
    V,
))
    requires
        self_.wf(),
        0 <= input < self_.spec_inputs(),
        0 <= index < MAX_CONTROL_POINTS,
        index < self_.counts()[input as int],
    ensures
        p == self_.point(input as int, index as int),
{
    self_.get_point(input as usize, index as usize)
}

/// No input of the mapping has control points.
pub fn mypaint_mapping_is_constant<V: Copy>(self_: &MypaintMapping<V>) -> (r: bool)
    requires
        self_.wf(),
    ensures
        r == (self_.spec_inputs_used() == 0),
{
    self_.is_constant()
}

/// The number of inputs of the mapping that have control points.
pub fn mypaint_mapping_get_inputs_used_n<V: Copy>(self_: &MypaintMapping<V>) -> (n: i32)
    requires
        self_.wf(),
    ensures
        n == self_.spec_inputs_used() as i32,
{
    self_.get_inputs_used() as i32
}

} // verus!
