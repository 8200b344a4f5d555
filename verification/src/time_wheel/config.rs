//! Shape of a timing wheel: the length of a tick and the slots of each level.

use vstd::arithmetic::power2::pow2;
use vstd::prelude::*;

use crate::duration::Duration;
use crate::time_wheel::error::ConfigError;

verus! {

/// Largest number of levels.
pub const MAX_LEVELS: usize = 8;

/// Largest number of slots of one level.
pub const MAX_LEVEL_SLOTS: usize = 65_536;

/// Largest number of slots of all levels together.
pub const MAX_TOTAL_SLOTS: usize = 300_000;

/// `usize::is_power_of_two`: whether the number is a power of two.
pub assume_specification[ usize::is_power_of_two ](number: usize) -> (result: bool)
    ensures
        result <==> exists|exponent: nat| #[trigger] pow2(exponent) == number,
;

/// Whether a level may have this many slots.
pub open spec fn valid_slot_count(slot_count: usize) -> bool {
    &&& 2 <= slot_count <= MAX_LEVEL_SLOTS
    &&& exists|exponent: nat| #[trigger] pow2(exponent) == slot_count
}

/// Number of ticks that one slot of the level at `level` spans: the product of
/// the slot counts of the levels below it.
pub open spec fn level_unit(slots: Seq<usize>, level: int) -> nat
    decreases level,
{
    if level <= 0 {
        1
    } else {
        level_unit(slots, level - 1) * slots[level - 1] as nat
    }
}

/// Number of slots of the first `count` levels.
pub open spec fn slot_sum(slots: Seq<usize>, count: int) -> nat
    decreases count,
{
    if count <= 0 {
        0
    } else {
        slot_sum(slots, count - 1) + slots[count - 1] as nat
    }
}

/// What is wrong with the level at `level`, once the levels below it are right.
pub open spec fn level_error(slots: Seq<usize>, level: int) -> Option<ConfigError> {
    if !valid_slot_count(slots[level]) {
        Some(ConfigError::InvalidSlotCount { level: level as usize, slot_count: slots[level] })
    } else if slot_sum(slots, level + 1) > MAX_TOTAL_SLOTS {
        Some(
            ConfigError::SlotBudgetExceeded {
                total_slots: slot_sum(slots, level + 1) as usize,
                max: MAX_TOTAL_SLOTS,
            },
        )
    } else if level_unit(slots, level + 1) > u64::MAX {
        Some(ConfigError::DerivedRangeOverflow { level: level as usize })
    } else {
        None
    }
}

/// What is wrong with the lowest wrong level at or above `level`.
pub open spec fn first_level_error(slots: Seq<usize>, level: int) -> Option<ConfigError>
    decreases slots.len() - level,
{
    if level >= slots.len() {
        None
    } else if level_error(slots, level) is Some {
        level_error(slots, level)
    } else {
        first_level_error(slots, level + 1)
    }
}

/// Why a wheel with this tick and these levels is refused.
pub open spec fn config_error(base_tick: nat, slots: Seq<usize>) -> Option<ConfigError> {
    if base_tick > u64::MAX {
        Some(ConfigError::TickRangeOverflow)
    } else if base_tick == 0 {
        Some(ConfigError::ZeroTick)
    } else if slots.len() == 0 || slots.len() > MAX_LEVELS {
        Some(
            ConfigError::InvalidLevelCount { count: slots.len() as usize, max: MAX_LEVELS },
        )
    } else {
        first_level_error(slots, 0)
    }
}

/// The numbers of one level.
#[derive(Debug, Clone, Copy, PartialEq, Eq, Structural)]
pub struct LevelConfig {
    /// Ticks that one slot spans.
    pub unit_ticks: u64,
    /// Ticks that all slots of the level span.
    pub span_ticks: u64,
    /// Number of slots, a power of two.
    pub slot_count: usize,
    /// `slot_count - 1`, which selects a slot from a count of units.
    pub mask: usize,
}

/// Whether `config` holds the numbers of the level at `level`.
pub open spec fn level_matches(config: LevelConfig, slots: Seq<usize>, level: int) -> bool {
    &&& valid_slot_count(slots[level])
    &&& config.slot_count == slots[level]
    &&& config.mask == slots[level] - 1
    &&& config.unit_ticks == level_unit(slots, level)
    &&& config.span_ticks == level_unit(slots, level + 1)
}

/// The checked shape of a wheel.
#[derive(Debug, PartialEq, Eq)]
pub struct WheelConfig {
    base_tick: Duration,
    base_tick_nanos: u64,
    levels: Vec<LevelConfig>,
    total_slots: usize,
}

impl WheelConfig {
    /// The slot count of each level, from the lowest.
    pub closed spec fn slot_counts(&self) -> Seq<usize> {
        Seq::new(self.levels@.len(), |level: int| self.levels@[level].slot_count)
    }

    /// The length of a tick in nanoseconds.
    pub closed spec fn tick_nanos(&self) -> nat {
        self.base_tick_nanos as nat
    }

    #[verifier::type_invariant]
    pub closed spec fn well_formed(&self) -> bool {
        &&& 1 <= self.levels@.len() <= MAX_LEVELS
        &&& self.base_tick@ == self.base_tick_nanos
        &&& self.base_tick_nanos >= 1
        &&& self.total_slots == slot_sum(self.slot_counts(), self.levels@.len() as int)
        &&& forall|level: int|
            0 <= level < self.levels@.len() ==> level_matches(
                #[trigger] self.levels@[level],
                self.slot_counts(),
                level,
            )
    }

    /// A builder with the default tick and no level.
    pub fn builder() -> (builder: WheelConfigBuilder)
        ensures
            builder.tick() == 10_000_000,
            builder.slots() == Seq::<usize>::empty(),
    {
        WheelConfigBuilder { base_tick: Duration::from_millis(10), levels: Vec::new() }
    }

    /// The length of a tick.
    pub fn base_tick(&self) -> (tick: Duration)
        ensures
            tick@ == self.tick_nanos(),
    {
        proof {
            use_type_invariant(self);
        }
        self.base_tick
    }

    /// The number of levels.
    pub fn level_count(&self) -> (count: usize)
        ensures
            count == self.slot_counts().len(),
    {
        self.levels.len()
    }

    /// The number of slots of all levels together.
    pub fn total_slots(&self) -> (total: usize)
        ensures
            total == slot_sum(self.slot_counts(), self.slot_counts().len() as int),
    {
        proof {
            use_type_invariant(self);
        }
        self.total_slots
    }

    /// The length of a tick in nanoseconds.
    pub fn base_tick_nanos(&self) -> (nanos: u64)
        ensures
            nanos == self.tick_nanos(),
            nanos >= 1,
    {
        proof {
            use_type_invariant(self);
        }
        self.base_tick_nanos
    }

    /// The numbers of the levels, from the lowest.
    pub fn levels(&self) -> (levels: &Vec<LevelConfig>)
        ensures
            1 <= levels@.len() <= MAX_LEVELS,
            levels@.len() == self.slot_counts().len(),
            forall|level: int|
                0 <= level < levels@.len() ==> level_matches(
                    #[trigger] levels@[level],
                    self.slot_counts(),
                    level,
                ),
    {
        proof {
            use_type_invariant(self);
        }
        &self.levels
    }
}

/// The default tick and levels make a wheel.
proof fn lemma_default_levels()
    ensures
        config_error(10_000_000, seq![512usize, 64, 64]) is None,
{
    let slots = seq![512usize, 64, 64];
    vstd::arithmetic::power2::lemma2_to64();
    assert(pow2(9) == slots[0]);
    assert(pow2(6) == slots[1]);
    assert(pow2(6) == slots[2]);
    reveal_with_fuel(level_unit, 4);
    reveal_with_fuel(slot_sum, 4);
    reveal_with_fuel(first_level_error, 4);
}

impl Default for WheelConfig {
    /// Ticks of ten milliseconds, and three levels of 512, 64 and 64 slots.
    fn default() -> (config: Self)
        ensures
            config.tick_nanos() == 10_000_000,
            config.slot_counts() == seq![512usize, 64, 64],
    {
        proof {
            lemma_default_levels();
        }
        let builder = WheelConfig::builder().level_slots(512).level_slots(64).level_slots(64);
        assert(builder.slots() =~= seq![512usize, 64, 64]);
        builder.build().unwrap()
    }
}

impl Clone for WheelConfig {
    fn clone(&self) -> (config: Self)
        ensures
            config.tick_nanos() == self.tick_nanos(),
            config.slot_counts() == self.slot_counts(),
    {
        proof {
            use_type_invariant(self);
        }
        let levels = self.levels.clone();
        assert(levels@ =~= self.levels@);
        WheelConfig {
            base_tick: self.base_tick,
            base_tick_nanos: self.base_tick_nanos,
            levels,
            total_slots: self.total_slots,
        }
    }
}

/// Collects the tick and the levels of a wheel.
#[derive(Debug)]
pub struct WheelConfigBuilder {
    base_tick: Duration,
    levels: Vec<usize>,
}

impl Clone for WheelConfigBuilder {
    fn clone(&self) -> (builder: Self)
        ensures
            builder.tick() == self.tick(),
            builder.slots() == self.slots(),
    {
        let levels = self.levels.clone();
        assert(levels@ =~= self.levels@);
        WheelConfigBuilder { base_tick: self.base_tick, levels }
    }
}

impl WheelConfigBuilder {
    /// The length of a tick in nanoseconds.
    pub closed spec fn tick(&self) -> nat {
        self.base_tick@
    }

    /// The slot counts added so far, from the lowest level.
    pub closed spec fn slots(&self) -> Seq<usize> {
        self.levels@
    }

    /// Replaces the tick.
    pub fn base_tick(self, tick: Duration) -> (builder: Self)
        ensures
            builder.tick() == tick@,
            builder.slots() == self.slots(),
    {
        WheelConfigBuilder { base_tick: tick, levels: self.levels }
    }

    /// Adds a level above the others.
    pub fn level_slots(self, slots: usize) -> (builder: Self)
        ensures
            builder.tick() == self.tick(),
            builder.slots() == self.slots().push(slots),
    {
        let mut levels = self.levels;
        levels.push(slots);
        WheelConfigBuilder { base_tick: self.base_tick, levels }
    }

    /// Checks the shape and derives the numbers of each level.
    pub fn build(self) -> (result: Result<WheelConfig, ConfigError>)
        ensures
            result is Ok <==> config_error(self.tick(), self.slots()) is None,
            result matches Ok(config) ==> {
                &&& config.tick_nanos() == self.tick()
                &&& config.slot_counts() == self.slots()
            },
            result matches Err(error) ==> config_error(self.tick(), self.slots()) == Some(error),
    {
        let nanos: u128 = self.base_tick.as_nanos();
        if nanos > u64::MAX as u128 {
            return Err(ConfigError::TickRangeOverflow);
        }
        let base_tick_nanos: u64 = nanos as u64;
        if base_tick_nanos == 0 {
            return Err(ConfigError::ZeroTick);
        }
        if self.levels.len() == 0 || self.levels.len() > MAX_LEVELS {
            return Err(
                ConfigError::InvalidLevelCount { count: self.levels.len(), max: MAX_LEVELS },
            );
        }
        let ghost slots = self.levels@;
        let mut total_slots: usize = 0;
        let mut unit_ticks: u64 = 1;
        let mut derived: Vec<LevelConfig> = Vec::with_capacity(self.levels.len());
        let mut level: usize = 0;
        while level < self.levels.len()
            invariant
                slots == self.levels@,
                1 <= slots.len() <= MAX_LEVELS,
                1 <= self.tick() <= u64::MAX,
                level <= slots.len(),
                derived@.len() == level,
                total_slots == slot_sum(slots, level as int),
                total_slots <= MAX_TOTAL_SLOTS,
                unit_ticks == level_unit(slots, level as int),
                first_level_error(slots, 0) == first_level_error(slots, level as int),
                forall|i: int|
                    0 <= i < level ==> level_matches(#[trigger] derived@[i], slots, i),
            decreases slots.len() - level,
        {
            let slot_count: usize = self.levels[level];
            if slot_count < 2 || !slot_count.is_power_of_two() || slot_count > MAX_LEVEL_SLOTS {
                return Err(ConfigError::InvalidSlotCount { level, slot_count });
            }
            total_slots = total_slots + slot_count;
            if total_slots > MAX_TOTAL_SLOTS {
                return Err(ConfigError::SlotBudgetExceeded { total_slots, max: MAX_TOTAL_SLOTS });
            }
            let span_ticks: u64 = match unit_ticks.checked_mul(slot_count as u64) {
                Some(span) => span,
                None => {
                    return Err(ConfigError::DerivedRangeOverflow { level });
                },
            };
            derived.push(LevelConfig { unit_ticks, span_ticks, slot_count, mask: slot_count - 1 });
            unit_ticks = span_ticks;
            level = level + 1;
        }
        proof {
            let counts = Seq::new(derived@.len(), |i: int| derived@[i].slot_count);
            assert forall|i: int| 0 <= i < slots.len() implies counts[i] == slots[i] by {
                assert(level_matches(derived@[i], slots, i));
            }
            assert(counts =~= slots);
        }
        Ok(WheelConfig { base_tick: self.base_tick, base_tick_nanos, levels: derived, total_slots })
    }
}

impl Default for WheelConfigBuilder {
    fn default() -> (builder: Self)
        ensures
            builder.tick() == 10_000_000,
            builder.slots() == Seq::<usize>::empty(),
    {
        WheelConfig::builder()
    }
}

} // verus!
