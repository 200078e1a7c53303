use vstd::prelude::*;
use crate::mypaint_brush_settings_gen::{
    MyPaintBrushInput,
    MyPaintBrushSetting,
    MYPAINT_BRUSH_INPUTS_COUNT,
    MYPAINT_BRUSH_SETTINGS_COUNT,
};
use crate::mypaint_mapping::{MypaintMapping, MAX_CONTROL_POINTS, nonzero_count, not_before};
use crate::rng_double::{RngDouble, rng_double_new};

verus! {

/// The number of state slots of a brush.
pub const MYPAINT_BRUSH_STATES_COUNT: usize = 30;

/// The seed of a new brush's random number generator.
pub const MYPAINT_BRUSH_RNG_SEED: u64 = 1000;

/// Slot of the state `x`.
pub const MYPAINT_BRUSH_STATE_X: usize = 0;

/// Slot of the state `y`.
pub const MYPAINT_BRUSH_STATE_Y: usize = 1;

/// Slot of the state `pressure`.
pub const MYPAINT_BRUSH_STATE_PRESSURE: usize = 2;

/// Slot of the state `partial_dabs`.
pub const MYPAINT_BRUSH_STATE_PARTIAL_DABS: usize = 3;

/// Slot of the state `actual_radius`.
pub const MYPAINT_BRUSH_STATE_ACTUAL_RADIUS: usize = 4;

/// Slot of the state `smudge_ra`.
pub const MYPAINT_BRUSH_STATE_SMUDGE_RA: usize = 5;

/// Slot of the state `smudge_ga`.
pub const MYPAINT_BRUSH_STATE_SMUDGE_GA: usize = 6;

/// Slot of the state `smudge_ba`.
pub const MYPAINT_BRUSH_STATE_SMUDGE_BA: usize = 7;

/// Slot of the state `smudge_a`.
pub const MYPAINT_BRUSH_STATE_SMUDGE_A: usize = 8;

/// Slot of the state `last_getcolor_r`.
pub const MYPAINT_BRUSH_STATE_LAST_GETCOLOR_R: usize = 9;

/// Slot of the state `last_getcolor_g`.
pub const MYPAINT_BRUSH_STATE_LAST_GETCOLOR_G: usize = 10;

/// Slot of the state `last_getcolor_b`.
pub const MYPAINT_BRUSH_STATE_LAST_GETCOLOR_B: usize = 11;

/// Slot of the state `last_getcolor_a`.
pub const MYPAINT_BRUSH_STATE_LAST_GETCOLOR_A: usize = 12;

/// Slot of the state `last_getcolor_recentness`.
pub const MYPAINT_BRUSH_STATE_LAST_GETCOLOR_RECENTNESS: usize = 13;

/// Slot of the state `actual_x`.
pub const MYPAINT_BRUSH_STATE_ACTUAL_X: usize = 14;

/// Slot of the state `actual_y`.
pub const MYPAINT_BRUSH_STATE_ACTUAL_Y: usize = 15;

/// Slot of the state `norm_dx_slow`.
pub const MYPAINT_BRUSH_STATE_NORM_DX_SLOW: usize = 16;

/// Slot of the state `norm_dy_slow`.
pub const MYPAINT_BRUSH_STATE_NORM_DY_SLOW: usize = 17;

/// Slot of the state `norm_speed1_slow`.
pub const MYPAINT_BRUSH_STATE_NORM_SPEED1_SLOW: usize = 18;

/// Slot of the state `norm_speed2_slow`.
pub const MYPAINT_BRUSH_STATE_NORM_SPEED2_SLOW: usize = 19;

/// Slot of the state `stroke`.
pub const MYPAINT_BRUSH_STATE_STROKE: usize = 20;

/// Slot of the state `stroke_started`.
pub const MYPAINT_BRUSH_STATE_STROKE_STARTED: usize = 21;

/// Slot of the state `custom_input`.
pub const MYPAINT_BRUSH_STATE_CUSTOM_INPUT: usize = 22;

/// Slot of the state `rng_seed`.
pub const MYPAINT_BRUSH_STATE_RNG_SEED: usize = 23;

/// Slot of the state `actual_elliptical_dab_ratio`.
pub const MYPAINT_BRUSH_STATE_ACTUAL_ELLIPTICAL_DAB_RATIO: usize = 24;

/// Slot of the state `actual_elliptical_dab_angle`.
pub const MYPAINT_BRUSH_STATE_ACTUAL_ELLIPTICAL_DAB_ANGLE: usize = 25;

/// Slot of the state `direction_dx`.
pub const MYPAINT_BRUSH_STATE_DIRECTION_DX: usize = 26;

/// Slot of the state `direction_dy`.
pub const MYPAINT_BRUSH_STATE_DIRECTION_DY: usize = 27;

/// Slot of the state `declination`.
pub const MYPAINT_BRUSH_STATE_DECLINATION: usize = 28;

/// Slot of the state `ascension`.
pub const MYPAINT_BRUSH_STATE_ASCENSION: usize = 29;

/// A brush: its settings, each a mapping of the brush inputs, the state it
/// carries from dab to dab, and its bookkeeping. `V` is the type of setting
/// and state values, `D` that of stroke times.
pub struct MyPaintBrush<V, D> {
    pub print_inputs: bool,
    pub stroke_total_painting_time: D,
    pub stroke_current_idling_time: D,
    pub states: Vec<V>,
    pub rng: RngDouble,
    pub settings: Vec<MypaintMapping<V>>,
    pub settings_value: Vec<V>,
    pub speed_mapping_gamma: [V; 2],
    pub speed_mapping_m: [V; 2],
    pub speed_mapping_q: [V; 2],
    pub reset_requested: bool,
    pub refcount: i32,
}

impl<V, D> MyPaintBrush<V, D> {
    /// One state slot per brush state, one mapping of all brush inputs per
    /// setting, one value slot per setting.
    pub open spec fn wf(&self) -> bool {
        &&& self.states@.len() == MYPAINT_BRUSH_STATES_COUNT
        &&& self.settings@.len() == MYPAINT_BRUSH_SETTINGS_COUNT
        &&& self.settings_value@.len() == MYPAINT_BRUSH_SETTINGS_COUNT
        &&& forall|i: int|
            0 <= i < MYPAINT_BRUSH_SETTINGS_COUNT ==> (#[trigger] self.settings@[i]).wf()
                && self.settings@[i].spec_inputs() == MYPAINT_BRUSH_INPUTS_COUNT
                && self.settings@[i].counts().len() == MYPAINT_BRUSH_INPUTS_COUNT
    }

    /// Everything but the setting mappings is as in `other`.
    pub open spec fn same_but_settings(&self, other: &Self) -> bool {
        &&& self.print_inputs == other.print_inputs
        &&& self.stroke_total_painting_time == other.stroke_total_painting_time
        &&& self.stroke_current_idling_time == other.stroke_current_idling_time
        &&& self.states == other.states
        &&& self.rng == other.rng
        &&& self.settings_value == other.settings_value
        &&& self.speed_mapping_gamma == other.speed_mapping_gamma
        &&& self.speed_mapping_m == other.speed_mapping_m
        &&& self.speed_mapping_q == other.speed_mapping_q
        &&& self.reset_requested == other.reset_requested
        &&& self.refcount == other.refcount
    }

    /// The brush with only its reference count replaced.
    pub open spec fn with_refcount(self, refcount: i32) -> Self {
        MyPaintBrush { refcount, ..self }
    }

    /// The brush with only its state slots replaced.
    pub open spec fn with_states(self, states: Vec<V>) -> Self {
        MyPaintBrush { states, ..self }
    }

    /// The setting mappings other than `id` are as in `other`.
    pub open spec fn other_settings_kept(&self, other: &Self, id: int) -> bool {
        &&& self.settings@.len() == other.settings@.len()
        &&& forall|j: int|
            0 <= j < self.settings@.len() && j != id ==> #[trigger] self.settings@[j]
                == other.settings@[j]
    }
}

/// A new brush: every setting a constant mapping of value `zero`, every
/// state `zero`, the stroke times `zero_time`, one reference, and a reset
/// requested for the first stroke.
pub fn mypaint_brush_new<V: Copy, D: Copy>(zero: V, zero_time: D) -> (brush: MyPaintBrush<V, D>)
    ensures
        brush.wf(),
        brush.refcount == 1,
        brush.reset_requested,
        !brush.print_inputs,
        brush.stroke_total_painting_time == zero_time,
        brush.stroke_current_idling_time == zero_time,
        brush.rng.state == MYPAINT_BRUSH_RNG_SEED,
        brush.rng.inc == MYPAINT_BRUSH_RNG_SEED,
        forall|i: int| 0 <= i < MYPAINT_BRUSH_STATES_COUNT ==> #[trigger] brush.states@[i] == zero,
        forall|i: int|
            0 <= i < MYPAINT_BRUSH_SETTINGS_COUNT ==> #[trigger] brush.settings_value@[i] == zero,
        forall|i: int|
            0 <= i < MYPAINT_BRUSH_SETTINGS_COUNT ==> (#[trigger] brush.settings@[i]).spec_base_value()
                == zero && brush.settings@[i].spec_inputs_used() == 0,
        forall|i: int, j: int, k: int|
            0 <= i < MYPAINT_BRUSH_SETTINGS_COUNT && 0 <= j < MYPAINT_BRUSH_INPUTS_COUNT && 0 <= k
                < MAX_CONTROL_POINTS ==> #[trigger] brush.settings@[i].point(j, k) == (zero, zero),
        brush.speed_mapping_gamma == [zero, zero],
        brush.speed_mapping_m == [zero, zero],
        brush.speed_mapping_q == [zero, zero],
{
    let mut settings: Vec<MypaintMapping<V>> = Vec::new();
    while settings.len() < MYPAINT_BRUSH_SETTINGS_COUNT
        invariant
            settings@.len() <= MYPAINT_BRUSH_SETTINGS_COUNT,
            forall|i: int|
                0 <= i < settings@.len() ==> (#[trigger] settings@[i]).wf()
                    && settings@[i].spec_inputs() == MYPAINT_BRUSH_INPUTS_COUNT
                    && settings@[i].counts().len() == MYPAINT_BRUSH_INPUTS_COUNT
                    && settings@[i].spec_base_value() == zero && settings@[i].spec_inputs_used()
                    == 0 && forall|j: int, k: int|
                    0 <= j < MYPAINT_BRUSH_INPUTS_COUNT && 0 <= k < MAX_CONTROL_POINTS
                        ==> #[trigger] settings@[i].point(j, k) == (zero, zero),
        decreases MYPAINT_BRUSH_SETTINGS_COUNT - settings.len(),
    {
        let m = MypaintMapping::new(MYPAINT_BRUSH_INPUTS_COUNT, zero);
        proof {
            m.lemma_wf_counts();
        }
        settings.push(m);
    }
    let mut states: Vec<V> = Vec::new();
    while states.len() < MYPAINT_BRUSH_STATES_COUNT
        invariant
            states@.len() <= MYPAINT_BRUSH_STATES_COUNT,
            forall|i: int| 0 <= i < states@.len() ==> #[trigger] states@[i] == zero,
        decreases MYPAINT_BRUSH_STATES_COUNT - states.len(),
    {
        states.push(zero);
    }
    let mut settings_value: Vec<V> = Vec::new();
    while settings_value.len() < MYPAINT_BRUSH_SETTINGS_COUNT
        invariant
            settings_value@.len() <= MYPAINT_BRUSH_SETTINGS_COUNT,
            forall|i: int| 0 <= i < settings_value@.len() ==> #[trigger] settings_value@[i] == zero,
        decreases MYPAINT_BRUSH_SETTINGS_COUNT - settings_value.len(),
    {
        settings_value.push(zero);
    }
    MyPaintBrush {
        print_inputs: false,
        stroke_total_painting_time: zero_time,
        stroke_current_idling_time: zero_time,
        states,
        rng: rng_double_new(MYPAINT_BRUSH_RNG_SEED),
        settings,
        settings_value,
        speed_mapping_gamma: [zero, zero],
        speed_mapping_m: [zero, zero],
        speed_mapping_q: [zero, zero],
        reset_requested: true,
        refcount: 1,
    }
}

/// Drops one reference to the brush; `true` when none is left and the
/// caller is to release the brush.
pub fn mypaint_brush_unref<V, D>(self_: &mut MyPaintBrush<V, D>) -> (release: bool)
    requires
        old(self_).refcount > i32::MIN,
    ensures
        *final(self_) == old(self_).with_refcount((old(self_).refcount - 1) as i32),
        release == (final(self_).refcount == 0),
{
    self_.refcount = self_.refcount - 1;
    self_.refcount == 0
}

/// Takes one more reference to the brush.
pub fn mypaint_brush_ref<V, D>(self_: &mut MyPaintBrush<V, D>)
    requires
        old(self_).refcount < i32::MAX,
    ensures
        *final(self_) == old(self_).with_refcount((old(self_).refcount + 1) as i32),
{
    self_.refcount = self_.refcount + 1;
}

/// The painting time of the current stroke.
pub fn mypaint_brush_get_total_stroke_painting_time<V, D: Copy>(self_: &MyPaintBrush<V, D>) -> (t:
    D)
    ensures
        t == self_.stroke_total_painting_time,
{
    self_.stroke_total_painting_time
}

/// Turns the printing of the brush inputs on or off.
pub fn mypaint_brush_set_print_inputs<V, D>(self_: &mut MyPaintBrush<V, D>, enabled: bool)
    ensures
        *final(self_) == (MyPaintBrush { print_inputs: enabled, ..*old(self_) }),
{
    self_.print_inputs = enabled;
}

/// Asks for the brush state to be reset at the next motion event.
pub fn mypaint_brush_reset<V, D>(self_: &mut MyPaintBrush<V, D>)
    ensures
        *final(self_) == (MyPaintBrush { reset_requested: true, ..*old(self_) }),
{
    self_.reset_requested = true;
}

/// Starts a new stroke: both stroke times go back to `zero_time`.
pub fn mypaint_brush_new_stroke<V, D: Copy>(self_: &mut MyPaintBrush<V, D>, zero_time: D)
    ensures
        *final(self_) == (MyPaintBrush {
            stroke_current_idling_time: zero_time,
            stroke_total_painting_time: zero_time,
            ..*old(self_)
        }),
{
    self_.stroke_current_idling_time = zero_time;
    self_.stroke_total_painting_time = zero_time;
}

/// Sets the base value of the setting `id`.
pub fn mypaint_brush_set_base_value<V: Copy, D>(self_: &mut MyPaintBrush<V, D>, id: u32, value: V)
    requires
        old(self_).wf(),
        id < MYPAINT_BRUSH_SETTINGS_COUNT,
    ensures
        final(self_).wf(),
        final(self_).same_but_settings(&*old(self_)),
        final(self_).other_settings_kept(&*old(self_), id as int),
        final(self_).settings@[id as int].spec_base_value() == value,
        final(self_).settings@[id as int].counts() == old(self_).settings@[id as int].counts(),
        final(self_).settings@[id as int].spec_inputs_used() == old(self_).settings@[id as int].spec_inputs_used(),
        forall|i: int, j: int|
            0 <= i < MYPAINT_BRUSH_INPUTS_COUNT ==> #[trigger] final(self_).settings@[id as int].point(
                i,
                j,
            ) == old(self_).settings@[id as int].point(i, j),
{
    let ghost before = self_.settings@;
    self_.settings[id as usize].set_base_value(value);
    proof {
        assert forall|j: int| 0 <= j < before.len() && j != id implies #[trigger] self_.settings@[j]
            == before[j] by {}
    }
}

/// The base value of the setting `id`.
pub fn mypaint_brush_get_base_value<V: Copy, D>(self_: &MyPaintBrush<V, D>, id: u32) -> (v: V)
    requires
        self_.wf(),
        id < MYPAINT_BRUSH_SETTINGS_COUNT,
    ensures
        v == self_.settings@[id as int].spec_base_value(),
{
    self_.settings[id as usize].get_base_value()
}

/// Sets the number of control points of the setting `id` for `input`.
pub fn mypaint_brush_set_mapping_n<V: Copy, D>(
    self_: &mut MyPaintBrush<V, D>,
    id: u32,
    input: u32,
    n: i32,
)
    requires
        old(self_).wf(),
        id < MYPAINT_BRUSH_SETTINGS_COUNT,
        input < MYPAINT_BRUSH_INPUTS_COUNT,
        0 <= n <= MAX_CONTROL_POINTS,
        n != 1,
    ensures
        final(self_).wf(),
        final(self_).same_but_settings(&*old(self_)),
        final(self_).other_settings_kept(&*old(self_), id as int),
        final(self_).settings@[id as int].counts() == old(self_).settings@[id as int].counts().update(
            input as int,
            n as usize,
        ),
        final(self_).settings@[id as int].spec_base_value() == old(self_).settings@[id as int].spec_base_value(),
        final(self_).settings@[id as int].spec_inputs_used() == nonzero_count(
            final(self_).settings@[id as int].counts(),
        ),
        forall|i: int, j: int|
            0 <= i < MYPAINT_BRUSH_INPUTS_COUNT ==> #[trigger] final(self_).settings@[id as int].point(
                i,
                j,
            ) == old(self_).settings@[id as int].point(i, j),
{
    let ghost before = self_.settings@;
    self_.settings[id as usize].set_n(input as usize, n as usize);
    proof {
        assert forall|j: int| 0 <= j < before.len() && j != id implies #[trigger] self_.settings@[j]
            == before[j] by {}
    }
}

/// The number of control points of the setting `id` for `input`.
pub fn mypaint_brush_get_mapping_n<V: Copy, D>(self_: &MyPaintBrush<V, D>, id: u32, input: u32) -> (n:
    i32)
    requires
        self_.wf(),
        id < MYPAINT_BRUSH_SETTINGS_COUNT,
        input < MYPAINT_BRUSH_INPUTS_COUNT,
    ensures
        n == self_.settings@[id as int].counts()[input as int],
{
    proof {
        self_.settings@[id as int].lemma_wf_counts();
    }
    match self_.settings[id as usize].get_n(input as usize) {
        Some(n) => n as i32,
        None => 0,
    }
}

/// The setting `id` depends on no input.
pub fn mypaint_brush_is_constant<V: Copy, D>(self_: &MyPaintBrush<V, D>, id: u32) -> (r: bool)
    requires
        self_.wf(),
        id < MYPAINT_BRUSH_SETTINGS_COUNT,
    ensures
        r == (self_.settings@[id as int].spec_inputs_used() == 0),
{
    self_.settings[id as usize].is_constant()
}

/// The number of inputs that the setting `id` depends on.
pub fn mypaint_brush_get_inputs_used_n<V: Copy, D>(self_: &MyPaintBrush<V, D>, id: u32) -> (n: i32)
    requires
        self_.wf(),
        id < MYPAINT_BRUSH_SETTINGS_COUNT,
    ensures
        n == self_.settings@[id as int].spec_inputs_used(),
{
    self_.settings[id as usize].get_inputs_used() as i32
}

/// Replaces the control point `index` of the setting `id` for `input`
/// with `(x, y)`; `x` must not come before the input value of the point
/// `index - 1`.
pub fn mypaint_brush_set_mapping_point<V: Copy + PartialOrd, D>(
    self_: &mut MyPaintBrush<V, D>,
    id: u32,
    input: u32,
    index: i32,
    x: V,
    y: V,
)
    requires
        old(self_).wf(),
        id < MYPAINT_BRUSH_SETTINGS_COUNT,
        input < MYPAINT_BRUSH_INPUTS_COUNT,
        0 <= index < MAX_CONTROL_POINTS,
        index < old(self_).settings@[id as int].counts()[input as int],
        index > 0 ==> not_before(
            x,
            old(self_).settings@[id as int].point(input as int, index - 1).0,
        ),
    ensures
        final(self_).wf(),
        final(self_).same_but_settings(&*old(self_)),
        final(self_).other_settings_kept(&*old(self_), id as int),
        final(self_).settings@[id as int].point(input as int, index as int) == (x, y),
        forall|i: int, j: int|
            0 <= i < MYPAINT_BRUSH_INPUTS_COUNT && 0 <= j < MAX_CONTROL_POINTS && !(i == input
                && j == index) ==> #[trigger] final(self_).settings@[id as int].point(i, j) == old(self_).settings@[id as int].point(i, j),
        final(self_).settings@[id as int].counts() == old(self_).settings@[id as int].counts(),
        final(self_).settings@[id as int].spec_base_value() == old(self_).settings@[id as int].spec_base_value(),
{
    let ghost before = self_.settings@;
    self_.settings[id as usize].set_point(input as usize, index as usize, (x, y));
    proof {
        assert forall|j: int| 0 <= j < before.len() && j != id implies #[trigger] self_.settings@[j]
            == before[j] by {}
    }
}

/// The control point `index` of the setting `id` for `input`.
pub fn mypaint_brush_get_mapping_point<V: Copy, D>(
    self_: &MyPaintBrush<V, D>,
    id: u32,
    input: u32,
    index: i32,
) -> (p: (V, V))
    requires
        self_.wf(),
        id < MYPAINT_BRUSH_SETTINGS_COUNT,
        input < MYPAINT_BRUSH_INPUTS_COUNT,
        0 <= index < MAX_CONTROL_POINTS,
        index < self_.settings@[id as int].counts()[input as int],
    ensures
        p == self_.settings@[id as int].point(input as int, index as int),
{
    self_.settings[id as usize].get_point(input as usize, index as usize)
}

/// The state slot `i`.
pub fn mypaint_brush_get_state<V: Copy, D>(self_: &MyPaintBrush<V, D>, i: u32) -> (v: V)
    requires
        self_.wf(),
        i < MYPAINT_BRUSH_STATES_COUNT,
    ensures
        v == self_.states@[i as int],
{
    self_.states[i as usize]
}

/// Sets the state slot `i`; the other slots keep their values.
pub fn mypaint_brush_set_state<V: Copy, D>(self_: &mut MyPaintBrush<V, D>, i: u32, value: V)
    requires
        old(self_).wf(),
        i < MYPAINT_BRUSH_STATES_COUNT,
    ensures
        final(self_).wf(),
        final(self_).states@ == old(self_).states@.update(i as int, value),
        *final(self_) == old(self_).with_states(final(self_).states),
{
    self_.states.set(i as usize, value);
}

/// Loading a brush from a string is not supported: it always fails and
/// leaves the brush as it is.
pub fn mypaint_brush_from_string<V, D>(self_: &MyPaintBrush<V, D>, string: &[u8]) -> (loaded: bool)
    ensures
        !loaded,
{
    false
}

/// Resets every setting of the brush to its default: the base value
/// `defaults[s]` for the setting `s` and no control points, except that the
/// opacity multiplier follows the pressure along the line from
/// `(zero, zero)` to `(one, one)`, where `one` does not come before `zero`.
/// Every other control point keeps its value, out of use until a count
/// brings it back.
pub fn mypaint_brush_from_defaults<V: Copy + PartialOrd, D>(
    self_: &mut MyPaintBrush<V, D>,
    defaults: &[V],
    zero: V,
    one: V,
)
    requires
        old(self_).wf(),
        defaults@.len() == MYPAINT_BRUSH_SETTINGS_COUNT,
        not_before(one, zero),
    ensures
        final(self_).wf(),
        final(self_).same_but_settings(&*old(self_)),
        forall|s: int|
            0 <= s < MYPAINT_BRUSH_SETTINGS_COUNT ==> (#[trigger] final(self_).settings@[s]).spec_base_value()
                == defaults@[s],
        forall|s: int, i: int|
            0 <= s < MYPAINT_BRUSH_SETTINGS_COUNT && 0 <= i < MYPAINT_BRUSH_INPUTS_COUNT ==> (
            #[trigger] final(self_).settings@[s].counts()[i]) == if s
                == MyPaintBrushSetting::MYPAINT_BRUSH_SETTING_OPAQUE_MULTIPLY as int && i
                == MyPaintBrushInput::MYPAINT_BRUSH_INPUT_PRESSURE as int {
                2usize
            } else {
                0usize
            },
        ({
            let m = final(self_).settings@[MyPaintBrushSetting::MYPAINT_BRUSH_SETTING_OPAQUE_MULTIPLY as int];
            let p = MyPaintBrushInput::MYPAINT_BRUSH_INPUT_PRESSURE as int;
            m.point(p, 0) == (zero, zero) && m.point(p, 1) == (one, one)
        }),
        forall|s: int, i: int, j: int|
            0 <= s < MYPAINT_BRUSH_SETTINGS_COUNT && 0 <= i < MYPAINT_BRUSH_INPUTS_COUNT && 0 <= j
                < MAX_CONTROL_POINTS && !(s
                == MyPaintBrushSetting::MYPAINT_BRUSH_SETTING_OPAQUE_MULTIPLY as int && i
                == MyPaintBrushInput::MYPAINT_BRUSH_INPUT_PRESSURE as int && (j == 0 || j == 1))
                ==> #[trigger] final(self_).settings@[s].point(i, j) == old(self_).settings@[s].point(
                i,
                j,
            ),
{
    let ghost orig = *self_;
    let mut s: u32 = 0;
    while s < MYPAINT_BRUSH_SETTINGS_COUNT as u32
        invariant
            self_.wf(),
            self_.same_but_settings(&orig),
            defaults@.len() == MYPAINT_BRUSH_SETTINGS_COUNT,
            s <= MYPAINT_BRUSH_SETTINGS_COUNT,
            forall|t: int|
                0 <= t < s ==> (#[trigger] self_.settings@[t]).spec_base_value() == defaults@[t],
            forall|t: int, i: int|
                0 <= t < s && 0 <= i < MYPAINT_BRUSH_INPUTS_COUNT ==> (
                #[trigger] self_.settings@[t].counts()[i]) == 0usize,
            forall|t: int, i: int, j: int|
                0 <= t < MYPAINT_BRUSH_SETTINGS_COUNT && 0 <= i < MYPAINT_BRUSH_INPUTS_COUNT
                    ==> #[trigger] self_.settings@[t].point(i, j) == orig.settings@[t].point(i, j),
        decreases MYPAINT_BRUSH_SETTINGS_COUNT - s,
    {
        let mut i: u32 = 0;
        while i < MYPAINT_BRUSH_INPUTS_COUNT as u32
            invariant
                self_.wf(),
                self_.same_but_settings(&orig),
                defaults@.len() == MYPAINT_BRUSH_SETTINGS_COUNT,
                s < MYPAINT_BRUSH_SETTINGS_COUNT,
                i <= MYPAINT_BRUSH_INPUTS_COUNT,
                forall|t: int|
                    0 <= t < s ==> (#[trigger] self_.settings@[t]).spec_base_value()
                        == defaults@[t],
                forall|t: int, j: int|
                    0 <= t < s && 0 <= j < MYPAINT_BRUSH_INPUTS_COUNT ==> (
                    #[trigger] self_.settings@[t].counts()[j]) == 0usize,
                forall|j: int| 0 <= j < i ==> (#[trigger] self_.settings@[s as int].counts()[j])
                    == 0usize,
                forall|t: int, k: int, j: int|
                    0 <= t < MYPAINT_BRUSH_SETTINGS_COUNT && 0 <= k < MYPAINT_BRUSH_INPUTS_COUNT
                        ==> #[trigger] self_.settings@[t].point(k, j) == orig.settings@[t].point(
                        k,
                        j,
                    ),
            decreases MYPAINT_BRUSH_INPUTS_COUNT - i,
        {
            mypaint_brush_set_mapping_n(self_, s, i, 0);
            i = i + 1;
        }
        mypaint_brush_set_base_value(self_, s, defaults[s as usize]);
        s = s + 1;
    }
    let om = MyPaintBrushSetting::MYPAINT_BRUSH_SETTING_OPAQUE_MULTIPLY as u32;
    let pr = MyPaintBrushInput::MYPAINT_BRUSH_INPUT_PRESSURE as u32;
    mypaint_brush_set_mapping_n(self_, om, pr, 2);
    mypaint_brush_set_mapping_point(self_, om, pr, 0, zero, zero);
    mypaint_brush_set_mapping_point(self_, om, pr, 1, one, one);
}

} // verus!
