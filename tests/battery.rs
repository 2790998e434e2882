use powerbar::devices::{battery_entries, is_battery_name};
use powerbar::power::PowerStatus;
use powerbar::status::{BatteryChargingStatus, BatteryStatus, BatteryStatusBuilder};
use powerbar::uevent::{battery_from_uevent_file, charging_status_from_string, parse_energy};

fn record(full: usize, now: usize) -> BatteryStatus {
    BatteryStatus { charging: BatteryChargingStatus::Discharging, energy_full: full, energy_now: now }
}

fn status_of(records: Vec<BatteryStatus>) -> PowerStatus {
    PowerStatus { batteries: records }
}

#[test]
fn well_formed_text_gives_record_and_percent() {
    let text = "POWER_SUPPLY_STATUS=Charging\nPOWER_SUPPLY_ENERGY_FULL=48000\nPOWER_SUPPLY_ENERGY_NOW=12345\n";
    let b = battery_from_uevent_file(text).unwrap();
    assert_eq!(b, BatteryStatus { charging: BatteryChargingStatus::Charging, energy_full: 48000, energy_now: 12345 });
    assert_eq!(status_of(vec![b]).get_battery_percent(), Some(25));
}

#[test]
fn realistic_uevent_text() {
    let text = "POWER_SUPPLY_NAME=BAT0\nPOWER_SUPPLY_TYPE=Battery\nPOWER_SUPPLY_STATUS=Not charging\nPOWER_SUPPLY_PRESENT=1\nPOWER_SUPPLY_ENERGY_FULL_DESIGN=57000000\nPOWER_SUPPLY_ENERGY_FULL=50000000\nPOWER_SUPPLY_ENERGY_NOW=49999999\nPOWER_SUPPLY_MODEL_NAME=5B10W13930\n";
    let b = battery_from_uevent_file(text).unwrap();
    assert_eq!(b.charging, BatteryChargingStatus::NotCharging);
    assert_eq!(b.energy_full, 50000000);
    assert_eq!(b.energy_now, 49999999);
    assert_eq!(status_of(vec![b]).get_battery_percent(), Some(99));
}

#[test]
fn carriage_returns_before_newlines_are_dropped() {
    let text = "POWER_SUPPLY_STATUS=Discharging\r\nPOWER_SUPPLY_ENERGY_FULL=10\r\nPOWER_SUPPLY_ENERGY_NOW=5";
    assert_eq!(battery_from_uevent_file(text), Some(BatteryStatus { charging: BatteryChargingStatus::Discharging, energy_full: 10, energy_now: 5 }));
}

#[test]
fn missing_status_gives_no_record() {
    let text = "POWER_SUPPLY_ENERGY_FULL=50\nPOWER_SUPPLY_ENERGY_NOW=25\n";
    assert_eq!(battery_from_uevent_file(text), None);
}

#[test]
fn missing_energy_full_gives_no_record() {
    let text = "POWER_SUPPLY_STATUS=Charging\nPOWER_SUPPLY_ENERGY_NOW=25\n";
    assert_eq!(battery_from_uevent_file(text), None);
}

#[test]
fn missing_energy_now_gives_no_record() {
    let text = "POWER_SUPPLY_STATUS=Charging\nPOWER_SUPPLY_ENERGY_FULL=50\n";
    assert_eq!(battery_from_uevent_file(text), None);
}

#[test]
fn unknown_status_gives_no_record() {
    let text = "POWER_SUPPLY_STATUS=Full\nPOWER_SUPPLY_ENERGY_FULL=50\nPOWER_SUPPLY_ENERGY_NOW=50\n";
    assert_eq!(battery_from_uevent_file(text), None);
}

#[test]
fn empty_text_gives_no_record() {
    assert_eq!(battery_from_uevent_file(""), None);
}

#[test]
fn last_understood_value_wins() {
    let text = "POWER_SUPPLY_STATUS=Charging\nPOWER_SUPPLY_STATUS=Discharging\nPOWER_SUPPLY_STATUS=bogus\nPOWER_SUPPLY_ENERGY_FULL=50\nPOWER_SUPPLY_ENERGY_FULL=60\nPOWER_SUPPLY_ENERGY_FULL=x\nPOWER_SUPPLY_ENERGY_NOW=30\n";
    assert_eq!(battery_from_uevent_file(text), Some(BatteryStatus { charging: BatteryChargingStatus::Discharging, energy_full: 60, energy_now: 30 }));
}

#[test]
fn lines_with_several_separators_are_ignored() {
    let text = "POWER_SUPPLY_STATUS=Charging\nPOWER_SUPPLY_ENERGY_FULL=50=1\nPOWER_SUPPLY_ENERGY_NOW=30\n";
    assert_eq!(battery_from_uevent_file(text), None);
    let text = "garbage\n=\nPOWER_SUPPLY_STATUS=Charging\nPOWER_SUPPLY_ENERGY_FULL=50\nPOWER_SUPPLY_ENERGY_NOW=30\nPOWER_SUPPLY_ENERGY_NOW==7\n";
    assert_eq!(battery_from_uevent_file(text), Some(BatteryStatus { charging: BatteryChargingStatus::Charging, energy_full: 50, energy_now: 30 }));
}

#[test]
fn charging_vocabulary() {
    assert_eq!(charging_status_from_string("Not charging"), Some(BatteryChargingStatus::NotCharging));
    assert_eq!(charging_status_from_string("Discharging"), Some(BatteryChargingStatus::Discharging));
    assert_eq!(charging_status_from_string("Charging"), Some(BatteryChargingStatus::Charging));
    assert_eq!(charging_status_from_string("charging"), None);
    assert_eq!(charging_status_from_string("Full"), None);
    assert_eq!(charging_status_from_string(""), None);
}

#[test]
fn energy_values() {
    assert_eq!(parse_energy("0"), Some(0));
    assert_eq!(parse_energy("42"), Some(42));
    assert_eq!(parse_energy("+42"), Some(42));
    assert_eq!(parse_energy("007"), Some(7));
    assert_eq!(parse_energy(&usize::MAX.to_string()), Some(usize::MAX));
    assert_eq!(parse_energy("99999999999999999999999999"), None);
    assert_eq!(parse_energy("-1"), None);
    assert_eq!(parse_energy("+"), None);
    assert_eq!(parse_energy(""), None);
    assert_eq!(parse_energy("12a"), None);
    assert_eq!(parse_energy(" 12"), None);
}

#[test]
fn builder_needs_every_field() {
    let mut b = BatteryStatusBuilder::default();
    assert_eq!(b.build(), None);
    b.set_energy_full(50);
    b.set_energy_now(20);
    assert_eq!(b.build(), None);
    b.set_charging(BatteryChargingStatus::Charging);
    assert_eq!(b.build(), Some(BatteryStatus { charging: BatteryChargingStatus::Charging, energy_full: 50, energy_now: 20 }));
}

#[test]
fn no_records_give_unknown() {
    assert_eq!(status_of(vec![]).get_battery_percent(), None);
}

#[test]
fn zero_capacity_gives_unknown() {
    assert_eq!(status_of(vec![record(0, 0), record(0, 10)]).get_battery_percent(), None);
}

#[test]
fn two_records_sum_before_dividing() {
    assert_eq!(status_of(vec![record(50, 25), record(50, 50)]).get_battery_percent(), Some(75));
}

#[test]
fn percent_truncates() {
    assert_eq!(status_of(vec![record(3, 2)]).get_battery_percent(), Some(66));
    assert_eq!(status_of(vec![record(300, 1)]).get_battery_percent(), Some(0));
}

#[test]
fn over_full_device_is_not_clamped() {
    assert_eq!(status_of(vec![record(50, 60)]).get_battery_percent(), Some(120));
}

#[test]
fn huge_values_do_not_overflow() {
    assert_eq!(status_of(vec![record(usize::MAX, usize::MAX), record(usize::MAX, usize::MAX)]).get_battery_percent(), Some(100));
    assert_eq!(status_of(vec![record(usize::MAX, usize::MAX / 2)]).get_battery_percent(), Some(49));
    assert_eq!(status_of(vec![record(1, usize::MAX)]).get_battery_percent(), None);
}

#[test]
fn only_bat_entries_are_batteries() {
    assert!(!is_battery_name("AC"));
    assert!(!is_battery_name("ADP1"));
    assert!(!is_battery_name("BA"));
    assert!(!is_battery_name("xBAT0"));
    assert!(is_battery_name("BAT"));
    assert!(is_battery_name("BAT0"));
    assert!(is_battery_name("BATT1"));
}

#[test]
fn battery_entries_keep_listing_order() {
    let names = vec![
        Some("AC".to_string()),
        Some("BAT1".to_string()),
        None,
        Some("ucsi-source-psy".to_string()),
        Some("BAT0".to_string()),
    ];
    assert_eq!(battery_entries(&names), vec![1, 4]);
    assert_eq!(battery_entries(&vec![]), Vec::<usize>::new());
}

fn texts() -> Vec<String> {
    vec![
        "POWER_SUPPLY_STATUS=Discharging\nPOWER_SUPPLY_ENERGY_FULL=50\nPOWER_SUPPLY_ENERGY_NOW=25\n".to_string(),
        "POWER_SUPPLY_STATUS=Weird\nPOWER_SUPPLY_ENERGY_FULL=50\nPOWER_SUPPLY_ENERGY_NOW=25\n".to_string(),
        "POWER_SUPPLY_STATUS=Charging\nPOWER_SUPPLY_ENERGY_FULL=50\nPOWER_SUPPLY_ENERGY_NOW=50\n".to_string(),
    ]
}

#[test]
fn scan_drops_unreadable_devices() {
    let status = PowerStatus::read_from_sysfs::<String>(Ok(texts())).unwrap();
    assert_eq!(status.batteries, vec![record(50, 25), BatteryStatus { charging: BatteryChargingStatus::Charging, energy_full: 50, energy_now: 50 }]);
    assert_eq!(status.get_battery_percent(), Some(75));
}

#[test]
fn refresh_is_idempotent() {
    let mut status = PowerStatus::read_from_sysfs::<String>(Ok(texts())).unwrap();
    let first = status.batteries.clone();
    status.update::<String>(Ok(texts())).unwrap();
    assert_eq!(status.batteries, first);
    status.update::<String>(Ok(texts())).unwrap();
    assert_eq!(status.batteries, first);
    assert_eq!(status.get_battery_percent(), Some(75));
}

#[test]
fn refresh_replaces_records() {
    let mut status = status_of(vec![record(10, 1), record(10, 2)]);
    status.update::<String>(Ok(vec![])).unwrap();
    assert!(status.batteries.is_empty());
    assert_eq!(status.get_battery_percent(), None);
}

#[test]
fn listing_failure_is_an_error() {
    let r = PowerStatus::read_from_sysfs(Err("cannot list".to_string()));
    assert_eq!(r.err(), Some("cannot list".to_string()));
}

#[test]
fn failed_refresh_keeps_records() {
    let mut status = status_of(vec![record(50, 25)]);
    let r = status.update(Err(7u32));
    assert_eq!(r, Err(7));
    assert_eq!(status.batteries, vec![record(50, 25)]);
    assert_eq!(status.get_battery_percent(), Some(50));
}
