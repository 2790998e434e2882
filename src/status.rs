//! Per-device battery records and the builder that collects their fields.
use vstd::prelude::*;

verus! {

/// What a device reports about its charging.
#[derive(Debug, Clone, Copy, PartialEq, Eq, Structural)]
pub enum BatteryChargingStatus {
    Discharging,
    Charging,
    NotCharging,
}

/// A complete record of one battery device.
#[derive(Debug, Clone, Copy, PartialEq, Eq, Structural)]
pub struct BatteryStatus {
    pub charging: BatteryChargingStatus,
    pub energy_full: usize,
    pub energy_now: usize,
}

/// The fields of a record as far as they have been read; each starts absent.
#[derive(Debug, Clone, Copy, PartialEq, Eq, Structural)]
pub struct BatteryStatusBuilder {
    pub charging: Option<BatteryChargingStatus>,
    pub energy_full: Option<usize>,
    pub energy_now: Option<usize>,
}

/// The builder with every field absent.
pub open spec fn empty_builder() -> BatteryStatusBuilder {
    BatteryStatusBuilder { charging: None, energy_full: None, energy_now: None }
}

/// The record that a builder finalizes to: present only when all three fields are.
pub open spec fn spec_build(b: BatteryStatusBuilder) -> Option<BatteryStatus> {
    match (b.charging, b.energy_full, b.energy_now) {
        (Some(c), Some(f), Some(n)) => Some(
            BatteryStatus { charging: c, energy_full: f, energy_now: n },
        ),
        _ => None,
    }
}

impl Default for BatteryStatusBuilder {
    fn default() -> (r: Self)
        ensures
            r == empty_builder(),
    {
        BatteryStatusBuilder { charging: None, energy_full: None, energy_now: None }
    }
}

impl BatteryStatusBuilder {
    pub fn set_charging(&mut self, charging: BatteryChargingStatus)
        ensures
            *final(self) == (BatteryStatusBuilder { charging: Some(charging), ..*old(self) }),
    {
        self.charging = Some(charging);
    }

    pub fn set_energy_full(&mut self, energy_full: usize)
        ensures
            *final(self) == (BatteryStatusBuilder { energy_full: Some(energy_full), ..*old(self) }),
    {
        self.energy_full = Some(energy_full);
    }

    pub fn set_energy_now(&mut self, energy_now: usize)
        ensures
            *final(self) == (BatteryStatusBuilder { energy_now: Some(energy_now), ..*old(self) }),
    {
        self.energy_now = Some(energy_now);
    }

    /// The complete record, or `None` when any field is still absent.
    pub fn build(self) -> (r: Option<BatteryStatus>)
        ensures
            r == spec_build(self),
    {
        match (self.charging, self.energy_full, self.energy_now) {
            (Some(c), Some(f), Some(n)) => Some(
                BatteryStatus { charging: c, energy_full: f, energy_now: n },
            ),
            _ => None,
        }
    }
}

} // verus!
