//! The set of battery records of one scan, and the charge percentage over it.
use vstd::prelude::*;

use vstd::arithmetic::div_mod::{lemma_fundamental_div_mod, lemma_fundamental_div_mod_converse};

use crate::status::{BatteryChargingStatus, BatteryStatus};
use crate::uevent::{
    battery_from_uevent_file, energy_full_key, energy_now_key, key_line,
    lemma_well_formed_text_record, spec_battery_from_uevent, spec_charging_status,
    spec_parse_usize, status_key,
};

verus! {

/// Sum of the present energies of the records.
pub open spec fn total_now(bs: Seq<BatteryStatus>) -> nat
    decreases bs.len(),
{
    if bs.len() == 0 {
        0
    } else {
        total_now(bs.drop_last()) + bs.last().energy_now as nat
    }
}

/// Sum of the full energies of the records.
pub open spec fn total_full(bs: Seq<BatteryStatus>) -> nat
    decreases bs.len(),
{
    if bs.len() == 0 {
        0
    } else {
        total_full(bs.drop_last()) + bs.last().energy_full as nat
    }
}

/// The charge percentage over the records, truncated and not clamped: `None`
/// when their full energies sum to zero, or when the percentage is larger
/// than a `usize` holds.
pub open spec fn spec_battery_percent(bs: Seq<BatteryStatus>) -> Option<usize> {
    if total_full(bs) == 0 {
        None
    } else {
        let p = 100 * total_now(bs) / total_full(bs);
        if p <= usize::MAX {
            Some(p as usize)
        } else {
            None
        }
    }
}

/// The records that the status texts of the battery devices yield, in order;
/// a text that yields no record is left out.
pub open spec fn spec_records(contents: Seq<Seq<char>>) -> Seq<BatteryStatus>
    decreases contents.len(),
{
    if contents.len() == 0 {
        Seq::empty()
    } else {
        let prev = spec_records(contents.drop_last());
        match spec_battery_from_uevent(contents.last()) {
            Some(b) => prev.push(b),
            None => prev,
        }
    }
}

/// The views of a list of status texts.
pub open spec fn texts_view(contents: Seq<String>) -> Seq<Seq<char>> {
    contents.map_values(|s: String| s@)
}

/// The battery records of one complete scan of the devices.
#[derive(Debug)]
pub struct PowerStatus {
    pub batteries: Vec<BatteryStatus>,
}

impl View for PowerStatus {
    type V = Seq<BatteryStatus>;

    open spec fn view(&self) -> Seq<BatteryStatus> {
        self.batteries@
    }
}

proof fn lemma_totals_bounded(bs: Seq<BatteryStatus>)
    ensures
        total_now(bs) <= bs.len() * usize::MAX,
        total_full(bs) <= bs.len() * usize::MAX,
    decreases bs.len(),
{
    if bs.len() > 0 {
        lemma_totals_bounded(bs.drop_last());
        assert((bs.len() - 1) * usize::MAX + usize::MAX == bs.len() * usize::MAX)
            by (nonlinear_arith);
    }
}

/// `floor(100 * r / f)` for `r < f`, by repeated addition so that nothing
/// overflows.
fn hundredfold_quotient(r: u128, f: u128) -> (d: u128)
    requires
        r < f,
    ensures
        d == (100 * r) / (f as int),
        d < 100,
{
    let mut x: u128 = 0;
    let mut d: u128 = 0;
    let mut k: u128 = 0;
    while k < 100
        invariant
            r < f,
            k <= 100,
            x < f,
            d <= k,
            x + d * f == k * r,
        decreases 100 - k,
    {
        let ghost x0 = x;
        let ghost d0 = d;
        if r >= f - x {
            x = r - (f - x);
            d = d + 1;
        } else {
            x = x + r;
        }
        assert(x + d * f == (k + 1) * r) by (nonlinear_arith)
            requires
                x0 + d0 * f == k * r,
                (x == x0 + r - f && d == d0 + 1) || (x == x0 + r && d == d0),
        ;
        k = k + 1;
    }
    proof {
        lemma_fundamental_div_mod_converse(100 * r, f as int, d as int, x as int);
        assert(d < 100) by (nonlinear_arith)
            requires
                x + d * f == 100 * r,
                r < f,
                0 <= x,
        ;
    }
    d
}

impl PowerStatus {
    /// The charge percentage over all records: `floor(100 * now / full)` of
    /// the summed energies, not clamped, so inconsistent devices may give more
    /// than 100. `None` when no full energy is known, and when the percentage
    /// does not fit in a `usize`.
    pub fn get_battery_percent(&self) -> (r: Option<usize>)
        ensures
            r == spec_battery_percent(self@),
    {
        let len = self.batteries.len();
        let mut now: u128 = 0;
        let mut full: u128 = 0;
        let mut i: usize = 0;
        assert(self@.take(0) =~= Seq::<BatteryStatus>::empty());
        while i < len
            invariant
                len == self@.len(),
                i <= len,
                now == total_now(self@.take(i as int)),
                full == total_full(self@.take(i as int)),
            decreases len - i,
        {
            proof {
                let t = self@.take(i + 1);
                assert(t.drop_last() =~= self@.take(i as int));
                lemma_totals_bounded(t);
                assert(t.len() * usize::MAX <= u128::MAX) by (nonlinear_arith)
                    requires
                        t.len() <= usize::MAX,
                        usize::MAX <= u64::MAX,
                ;
            }
            now = now + self.batteries[i].energy_now as u128;
            full = full + self.batteries[i].energy_full as u128;
            i += 1;
        }
        assert(self@.take(len as int) =~= self@);
        if full == 0 {
            return None;
        }
        let q = now / full;
        let rem = now % full;
        let d = hundredfold_quotient(rem, full);
        proof {
            lemma_fundamental_div_mod(now as int, full as int);
            lemma_fundamental_div_mod(100 * rem, full as int);
            let x = (100 * rem) % (full as int);
            assert(100 * now == (100 * q + d) * full + x) by (nonlinear_arith)
                requires
                    now == full * q + rem,
                    100 * rem == full * d + x,
            ;
            lemma_fundamental_div_mod_converse(100 * now, full as int, 100 * q + d, x);
        }
        if q > usize::MAX as u128 {
            return None;
        }
        let p = 100 * q + d;
        if p > usize::MAX as u128 {
            None
        } else {
            Some(p as usize)
        }
    }

    /// The status of a scan, from the status texts of the battery devices that
    /// it found, in order; a text that yields no record is left out.
    pub fn from_uevents(contents: &Vec<String>) -> (r: PowerStatus)
        ensures
            r@ == spec_records(texts_view(contents@)),
    {
        let mut batteries: Vec<BatteryStatus> = Vec::new();
        let mut i: usize = 0;
        while i < contents.len()
            invariant
                i <= contents@.len(),
                batteries@ == spec_records(texts_view(contents@.take(i as int))),
            decreases contents@.len() - i,
        {
            let ghost t = contents@.take(i + 1);
            assert(texts_view(t).drop_last() =~= texts_view(contents@.take(i as int)));
            assert(texts_view(t).last() == contents@[i as int]@);
            match battery_from_uevent_file(contents[i].as_str()) {
                Some(b) => batteries.push(b),
                None => {},
            }
            i += 1;
        }
        assert(contents@.take(contents@.len() as int) =~= contents@);
        PowerStatus { batteries }
    }

    /// The status of a first scan. A scan that failed, for instance because
    /// the device directory could not be listed, gives its error back and no
    /// status: a failure is never taken for a machine without batteries.
    pub fn read_from_sysfs<E>(scan: Result<Vec<String>, E>) -> (r: Result<PowerStatus, E>)
        ensures
            match scan {
                Ok(contents) => r is Ok && r->Ok_0@ == spec_records(texts_view(contents@)),
                Err(e) => r == Err::<PowerStatus, E>(e),
            },
    {
        match scan {
            Ok(contents) => Ok(PowerStatus::from_uevents(&contents)),
            Err(e) => Err(e),
        }
    }

    /// Replaces the records by those of a new scan, all at once. A scan that
    /// failed gives its error back and leaves the records as they were.
    pub fn update<E>(&mut self, scan: Result<Vec<String>, E>) -> (r: Result<(), E>)
        ensures
            match scan {
                Ok(contents) => r is Ok && final(self)@ == spec_records(texts_view(contents@)),
                Err(e) => r == Err::<(), E>(e) && final(self)@ == old(self)@,
            },
    {
        match scan {
            Ok(contents) => {
                *self = PowerStatus::from_uevents(&contents);
                Ok(())
            },
            Err(e) => Err(e),
        }
    }
}

proof fn lemma_single_record_percent(b: BatteryStatus)
    requires
        b.energy_full > 0,
        100 * b.energy_now / (b.energy_full as int) <= usize::MAX,
    ensures
        spec_battery_percent(seq![b]) == Some((100 * b.energy_now / (b.energy_full as int)) as usize),
{
    let e = Seq::<BatteryStatus>::empty();
    assert(seq![b].drop_last() =~= e);
    assert(seq![b].last() == b);
    assert(total_now(e) == 0 && total_full(e) == 0);
    assert(total_now(seq![b]) == b.energy_now);
    assert(total_full(seq![b]) == b.energy_full);
}

/// A refresh depends on the status texts alone: two refreshes from the same
/// texts, whatever the records were before each, leave records equal in
/// every field and the same percentage.
pub proof fn lemma_refresh_idempotent(
    first: Seq<BatteryStatus>,
    second: Seq<BatteryStatus>,
    contents: Seq<Seq<char>>,
)
    requires
        first == spec_records(contents),
        second == spec_records(contents),
    ensures
        first == second,
        spec_battery_percent(first) == spec_battery_percent(second),
{
}

/// A scan that finds one device whose status text holds, line by line, a
/// known charging state `c`, the full energy `f > 0` and the present energy
/// `n` yields that one record with exactly those fields, and the percentage
/// `floor(100 * n / f)`, where that fits in a `usize`.
pub proof fn lemma_well_formed_device_percent(
    status_value: Seq<char>,
    full_value: Seq<char>,
    now_value: Seq<char>,
    c: BatteryChargingStatus,
    f: usize,
    n: usize,
)
    requires
        spec_charging_status(status_value) == Some(c),
        spec_parse_usize(full_value) == Some(f),
        spec_parse_usize(now_value) == Some(n),
        f > 0,
        100 * n / (f as int) <= usize::MAX,
    ensures
        ({
            let text = key_line(status_key(), status_value) + seq!['\n'] + key_line(
                energy_full_key(),
                full_value,
            ) + seq!['\n'] + key_line(energy_now_key(), now_value);
            let records = spec_records(seq![text]);
            &&& records == seq![BatteryStatus { charging: c, energy_full: f, energy_now: n }]
            &&& spec_battery_percent(records) == Some((100 * n / (f as int)) as usize)
        }),
{
    let text = key_line(status_key(), status_value) + seq!['\n'] + key_line(
        energy_full_key(),
        full_value,
    ) + seq!['\n'] + key_line(energy_now_key(), now_value);
    let b = BatteryStatus { charging: c, energy_full: f, energy_now: n };
    lemma_well_formed_text_record(status_value, full_value, now_value, c, f, n);
    assert(seq![text].drop_last() =~= Seq::<Seq<char>>::empty());
    assert(seq![text].last() == text);
    assert(spec_records(Seq::<Seq<char>>::empty()) == Seq::<BatteryStatus>::empty());
    assert(spec_records(seq![text]) =~= seq![b]);
    lemma_single_record_percent(b);
}

} // verus!
