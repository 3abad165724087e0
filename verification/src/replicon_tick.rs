use core::cmp::Ordering;
use core::ops::{Add, AddAssign, Sub, SubAssign};
use vstd::prelude::*;
use vstd::std_specs::cmp::{PartialEqSpecImpl, PartialOrdSpecImpl};
use vstd::std_specs::ops::{AddSpecImpl, SubSpecImpl};

verus! {

/// Like a system change tick, but for replication.
///
/// All operations on it are wrapping.
#[derive(Clone, Copy, Debug, Eq, Hash)]
pub struct RepliconTick(u32);

/// The number that follows `a` after `n` wrapping steps.
pub open spec fn wrapping_add_u32(a: u32, n: u32) -> u32 {
    ((a as int + n as int) % 0x1_0000_0000) as u32
}

/// The wrapping difference `a - b`.
pub open spec fn wrapping_sub_u32(a: u32, b: u32) -> u32 {
    ((a as int - b as int) % 0x1_0000_0000) as u32
}

/// How two tick values compare: the wrapping difference decides, values more than
/// half of the range behind count as older.
pub open spec fn tick_order(a: u32, b: u32) -> Ordering {
    let d = wrapping_sub_u32(a, b);
    if d == 0 {
        Ordering::Equal
    } else if d > u32::MAX / 2 {
        Ordering::Less
    } else {
        Ordering::Greater
    }
}

impl View for RepliconTick {
    type V = u32;

    closed spec fn view(&self) -> u32 {
        self.0
    }
}

impl RepliconTick {
    /// Creates a new instance wrapping the given value.
    pub fn new(value: u32) -> (tick: Self)
        ensures
            tick@ == value,
    {
        Self(value)
    }

    /// Gets the value of this tick.
    pub fn get(self) -> (value: u32)
        ensures
            value == self@,
    {
        self.0
    }

    /// Three-way comparison with wraparound.
    pub fn compare(&self, other: &Self) -> (ordering: Ordering)
        ensures
            ordering == tick_order(self@, other@),
    {
        let difference = self.0.wrapping_sub(other.0);
        if difference == 0 {
            Ordering::Equal
        } else if difference > u32::MAX / 2 {
            Ordering::Less
        } else {
            Ordering::Greater
        }
    }

    /// The tick holding `value`.
    pub closed spec fn with_value(value: u32) -> Self {
        RepliconTick(value)
    }

    /// The tick built by [`Self::with_value`] holds that value.
    pub broadcast proof fn lemma_with_value(value: u32)
        ensures
            (#[trigger] Self::with_value(value))@ == value,
    {
    }

    /// Two ticks are equal exactly when their values are.
    pub proof fn lemma_view_injective(a: Self, b: Self)
        ensures
            (a@ == b@) <==> (a == b),
    {
    }
}

impl Default for RepliconTick {
    fn default() -> (tick: Self)
        ensures
            tick@ == 0,
    {
        Self(0)
    }
}

impl PartialEq for RepliconTick {
    fn eq(&self, other: &Self) -> (r: bool) {
        self.0 == other.0
    }
}

impl PartialEqSpecImpl for RepliconTick {
    open spec fn obeys_eq_spec() -> bool {
        true
    }

    open spec fn eq_spec(&self, other: &Self) -> bool {
        self@ == other@
    }
}

impl PartialOrd for RepliconTick {
    fn partial_cmp(&self, other: &Self) -> (r: Option<Ordering>) {
        Some(self.compare(other))
    }
}

impl PartialOrdSpecImpl for RepliconTick {
    open spec fn obeys_partial_cmp_spec() -> bool {
        true
    }

    open spec fn partial_cmp_spec(&self, other: &Self) -> Option<Ordering> {
        Some(tick_order(self@, other@))
    }
}

impl Add<u32> for RepliconTick {
    type Output = Self;

    fn add(self, rhs: u32) -> (r: Self)
        ensures
            r@ == wrapping_add_u32(self@, rhs),
    {
        Self(self.0.wrapping_add(rhs))
    }
}

impl AddSpecImpl<u32> for RepliconTick {
    open spec fn obeys_add_spec() -> bool {
        true
    }

    open spec fn add_req(self, rhs: u32) -> bool {
        true
    }

    open spec fn add_spec(self, rhs: u32) -> Self {
        Self::with_value(wrapping_add_u32(self@, rhs))
    }
}

impl AddAssign<u32> for RepliconTick {
    fn add_assign(&mut self, rhs: u32)
        ensures
            final(self)@ == wrapping_add_u32(old(self)@, rhs),
    {
        self.0 = self.0.wrapping_add(rhs);
    }
}

impl Sub for RepliconTick {
    type Output = u32;

    fn sub(self, rhs: Self) -> (r: u32)
        ensures
            r == wrapping_sub_u32(self@, rhs@),
    {
        self.0.wrapping_sub(rhs.0)
    }
}

impl SubSpecImpl for RepliconTick {
    open spec fn obeys_sub_spec() -> bool {
        true
    }

    open spec fn sub_req(self, rhs: Self) -> bool {
        true
    }

    open spec fn sub_spec(self, rhs: Self) -> u32 {
        wrapping_sub_u32(self@, rhs@)
    }
}

impl Sub<u32> for RepliconTick {
    type Output = Self;

    fn sub(self, rhs: u32) -> (r: Self)
        ensures
            r@ == wrapping_sub_u32(self@, rhs),
    {
        Self(self.0.wrapping_sub(rhs))
    }
}

impl SubSpecImpl<u32> for RepliconTick {
    open spec fn obeys_sub_spec() -> bool {
        true
    }

    open spec fn sub_req(self, rhs: u32) -> bool {
        true
    }

    open spec fn sub_spec(self, rhs: u32) -> Self {
        Self::with_value(wrapping_sub_u32(self@, rhs))
    }
}

impl SubAssign<u32> for RepliconTick {
    fn sub_assign(&mut self, rhs: u32)
        ensures
            final(self)@ == wrapping_sub_u32(old(self)@, rhs),
    {
        self.0 = self.0.wrapping_sub(rhs);
    }
}

/// Two ticks compare as equal exactly when they hold the same value.
pub proof fn lemma_tick_equal(a: RepliconTick, b: RepliconTick)
    ensures
        (tick_order(a@, b@) == Ordering::Equal) <==> (a == b),
{
    RepliconTick::lemma_view_injective(a, b);
}

/// Comparison is antisymmetric, except for two ticks exactly half of the range apart, each of
/// which counts as older than the other: `a` is older than `b` exactly when `b` is newer than
/// `a`.
pub proof fn lemma_tick_antisymmetric(a: RepliconTick, b: RepliconTick)
    requires
        wrapping_sub_u32(b@, a@) != 0x8000_0000,
    ensures
        (tick_order(a@, b@) == Ordering::Less) <==> (tick_order(b@, a@) == Ordering::Greater),
{
}

/// Two ticks exactly half of the range apart each count as older than the other.
pub proof fn lemma_tick_half_range(a: RepliconTick, b: RepliconTick)
    requires
        wrapping_sub_u32(b@, a@) == 0x8000_0000,
    ensures
        tick_order(a@, b@) == Ordering::Less,
        tick_order(b@, a@) == Ordering::Less,
{
}

/// Advancing a tick by up to half of the range gives a newer tick, also across the wrap.
pub proof fn lemma_tick_advance_newer(tick: RepliconTick, n: u32)
    requires
        0 < n <= u32::MAX / 2,
    ensures
        tick_order(wrapping_add_u32(tick@, n), tick@) == Ordering::Greater,
        tick_order(tick@, wrapping_add_u32(tick@, n)) == Ordering::Less,
{
}

/// The difference between a tick advanced by `n` (with `+`) and the tick itself (with `-`)
/// is `n`, and going back by `n` returns the tick.
pub proof fn lemma_tick_add_sub(tick: RepliconTick, n: u32)
    ensures
        wrapping_sub_u32(wrapping_add_u32(tick@, n), tick@) == n,
        wrapping_sub_u32(wrapping_add_u32(tick@, n), n) == tick@,
{
}

} // verus!
