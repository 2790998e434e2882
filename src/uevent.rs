//! Parsing of a power-supply device's `uevent` status text.
//!
//! The text is a sequence of `KEY=VALUE` lines. Three keys matter; lines
//! that do not hold exactly one `=` and lines with other keys are ignored.
//! A field is set by the last line of its key whose value is understood.
use vstd::prelude::*;

use crate::status::{
    empty_builder, spec_build, BatteryChargingStatus, BatteryStatus, BatteryStatusBuilder,
};

verus! {

/// The key of the charging state.
pub open spec fn status_key() -> Seq<char> {
    "POWER_SUPPLY_STATUS"@
}

/// The key of the device's full capacity.
pub open spec fn energy_full_key() -> Seq<char> {
    "POWER_SUPPLY_ENERGY_FULL"@
}

/// The key of the energy stored now.
pub open spec fn energy_now_key() -> Seq<char> {
    "POWER_SUPPLY_ENERGY_NOW"@
}

/// The charging state that a status value names, if it names one.
pub open spec fn spec_charging_status(v: Seq<char>) -> Option<BatteryChargingStatus> {
    if v == "Not charging"@ {
        Some(BatteryChargingStatus::NotCharging)
    } else if v == "Discharging"@ {
        Some(BatteryChargingStatus::Discharging)
    } else if v == "Charging"@ {
        Some(BatteryChargingStatus::Charging)
    } else {
        None
    }
}

pub open spec fn is_digit(c: char) -> bool {
    '0' <= c && c <= '9'
}

pub open spec fn digit_value(c: char) -> int {
    c as u32 - '0' as u32
}

pub open spec fn all_digits(s: Seq<char>) -> bool {
    forall|i: int| 0 <= i < s.len() ==> is_digit(#[trigger] s[i])
}

/// The number that a string of decimal digits writes.
pub open spec fn digits_value(s: Seq<char>) -> int
    decreases s.len(),
{
    if s.len() == 0 {
        0
    } else {
        10 * digits_value(s.drop_last()) + digit_value(s.last())
    }
}

/// A value without the one `+` sign that may lead it.
pub open spec fn unsigned_digits(v: Seq<char>) -> Seq<char> {
    if v.len() > 0 && v[0] == '+' {
        v.skip(1)
    } else {
        v
    }
}

/// A value read as a non-negative integer: an optional `+`, then one or more
/// decimal digits whose number fits in `usize`.
pub open spec fn spec_parse_usize(v: Seq<char>) -> Option<usize> {
    let d = unsigned_digits(v);
    if d.len() > 0 && all_digits(d) && digits_value(d) <= usize::MAX {
        Some(digits_value(d) as usize)
    } else {
        None
    }
}

/// Position `i` holds the line's one and only `=`.
pub open spec fn is_sole_separator(line: Seq<char>, i: int) -> bool {
    &&& 0 <= i < line.len()
    &&& line[i] == '='
    &&& forall|j: int| 0 <= j < line.len() && j != i ==> line[j] != '='
}

/// Key and value of a line that holds exactly one `=`.
pub open spec fn split_key_value(line: Seq<char>) -> Option<(Seq<char>, Seq<char>)> {
    if exists|i: int| is_sole_separator(line, i) {
        let i = choose|i: int| is_sole_separator(line, i);
        Some((line.take(i), line.skip(i + 1)))
    } else {
        None
    }
}

/// The builder after one line has been read.
pub open spec fn spec_apply_line(b: BatteryStatusBuilder, line: Seq<char>) -> BatteryStatusBuilder {
    match split_key_value(line) {
        Some((key, value)) => if key == status_key() {
            match spec_charging_status(value) {
                Some(c) => BatteryStatusBuilder { charging: Some(c), ..b },
                None => b,
            }
        } else if key == energy_full_key() {
            match spec_parse_usize(value) {
                Some(n) => BatteryStatusBuilder { energy_full: Some(n), ..b },
                None => b,
            }
        } else if key == energy_now_key() {
            match spec_parse_usize(value) {
                Some(n) => BatteryStatusBuilder { energy_now: Some(n), ..b },
                None => b,
            }
        } else {
            b
        },
        None => b,
    }
}

/// A line without the carriage return that may end it.
pub open spec fn strip_cr(line: Seq<char>) -> Seq<char> {
    if line.len() > 0 && line.last() == '\r' {
        line.drop_last()
    } else {
        line
    }
}

/// The lines of a text: its pieces between newlines, each line that a newline
/// ends taken without a carriage return before that newline.
pub open spec fn split_lines(s: Seq<char>) -> Seq<Seq<char>>
    decreases s.len(),
{
    if s.len() == 0 {
        seq![Seq::empty()]
    } else {
        let prev = split_lines(s.drop_last());
        if s.last() == '\n' {
            prev.update(prev.len() - 1, strip_cr(prev.last())).push(Seq::empty())
        } else {
            prev.update(prev.len() - 1, prev.last().push(s.last()))
        }
    }
}

/// The builder after the lines have been read in order, starting from nothing.
pub open spec fn apply_lines(lines: Seq<Seq<char>>) -> BatteryStatusBuilder
    decreases lines.len(),
{
    if lines.len() == 0 {
        empty_builder()
    } else {
        spec_apply_line(apply_lines(lines.drop_last()), lines.last())
    }
}

/// The record that a device's status text yields, if any.
pub open spec fn spec_battery_from_uevent(s: Seq<char>) -> Option<BatteryStatus> {
    spec_build(apply_lines(split_lines(s)))
}

proof fn lemma_split_lines_nonempty(s: Seq<char>)
    ensures
        split_lines(s).len() >= 1,
    decreases s.len(),
{
    if s.len() > 0 {
        lemma_split_lines_nonempty(s.drop_last());
    }
}

proof fn lemma_digits_value_prefix(s: Seq<char>, k: int)
    requires
        all_digits(s),
        0 <= k <= s.len(),
    ensures
        digits_value(s.take(k)) <= digits_value(s),
        0 <= digits_value(s.take(k)),
    decreases s.len(),
{
    if k == s.len() {
        assert(s.take(k) =~= s);
        lemma_digits_value_nonneg(s);
    } else {
        let p = s.drop_last();
        assert(p.take(k) =~= s.take(k));
        assert(all_digits(p));
        lemma_digits_value_prefix(p, k);
        assert(is_digit(s[s.len() - 1]));
    }
}

proof fn lemma_digits_value_nonneg(s: Seq<char>)
    requires
        all_digits(s),
    ensures
        0 <= digits_value(s),
    decreases s.len(),
{
    if s.len() > 0 {
        let p = s.drop_last();
        assert(all_digits(p));
        lemma_digits_value_nonneg(p);
        assert(is_digit(s[s.len() - 1]));
    }
}

/// Whether two strings hold the same characters.
fn str_equals(a: &str, b: &str) -> (r: bool)
    ensures
        r == (a@ == b@),
{
    let n = a.unicode_len();
    if n != b.unicode_len() {
        return false;
    }
    let mut i: usize = 0;
    while i < n
        invariant
            n == a@.len(),
            n == b@.len(),
            i <= n,
            forall|j: int| 0 <= j < i ==> a@[j] == b@[j],
        decreases n - i,
    {
        if a.get_char(i) != b.get_char(i) {
            return false;
        }
        i += 1;
    }
    assert(a@ =~= b@);
    true
}

/// The charging state that a status value names, or `None` for any other value.
pub fn charging_status_from_string(value: &str) -> (r: Option<BatteryChargingStatus>)
    ensures
        r == spec_charging_status(value@),
{
    if str_equals(value, "Not charging") {
        Some(BatteryChargingStatus::NotCharging)
    } else if str_equals(value, "Discharging") {
        Some(BatteryChargingStatus::Discharging)
    } else if str_equals(value, "Charging") {
        Some(BatteryChargingStatus::Charging)
    } else {
        None
    }
}

/// Reads a value as a non-negative integer: an optional `+`, then decimal
/// digits whose number fits in `usize`.
pub fn parse_energy(value: &str) -> (r: Option<usize>)
    ensures
        r == spec_parse_usize(value@),
{
    let n = value.unicode_len();
    let mut start: usize = 0;
    if n > 0 && value.get_char(0) == '+' {
        start = 1;
    }
    let ghost d = unsigned_digits(value@);
    assert(d =~= value@.subrange(start as int, n as int));
    if start == n {
        return None;
    }
    let mut acc: usize = 0;
    let mut i: usize = start;
    while i < n
        invariant
            n == value@.len(),
            start <= i <= n,
            start < n,
            d == value@.subrange(start as int, n as int),
            d == unsigned_digits(value@),
            forall|j: int| start <= j < i ==> is_digit(#[trigger] value@[j]),
            acc == digits_value(value@.subrange(start as int, i as int)),
        decreases n - i,
    {
        let c = value.get_char(i);
        if !('0' <= c && c <= '9') {
            assert(d[i - start] == c);
            assert(!all_digits(d));
            return None;
        }
        let digit: usize = (c as u32 - '0' as u32) as usize;
        let ghost next = value@.subrange(start as int, i + 1);
        assert(next.drop_last() =~= value@.subrange(start as int, i as int));
        assert(digits_value(next) == 10 * acc + digit);
        proof {
            if all_digits(d) {
                assert(d.take(i + 1 - start) =~= next);
                lemma_digits_value_prefix(d, i + 1 - start);
                assert(digits_value(next) <= digits_value(d));
            }
        }
        match acc.checked_mul(10) {
            None => {
                assert(10 * acc + digit > usize::MAX);
                return None;
            },
            Some(m) => match m.checked_add(digit) {
                None => {
                    return None;
                },
                Some(v) => {
                    acc = v;
                },
            },
        }
        i += 1;
    }
    assert(value@.subrange(start as int, i as int) =~= d);
    Some(acc)
}

/// The position of the line's one `=`, or `None` when it holds none or several.
fn sole_separator(line: &str) -> (r: Option<usize>)
    ensures
        match r {
            Some(i) => is_sole_separator(line@, i as int),
            None => forall|i: int| !is_sole_separator(line@, i),
        },
{
    let n = line.unicode_len();
    let mut found: Option<usize> = None;
    let mut i: usize = 0;
    while i < n
        invariant
            n == line@.len(),
            i <= n,
            match found {
                Some(p) => p < i && line@[p as int] == '=' && forall|j: int|
                    0 <= j < i && j != p ==> line@[j] != '=',
                None => forall|j: int| 0 <= j < i ==> line@[j] != '=',
            },
        decreases n - i,
    {
        if line.get_char(i) == '=' {
            match found {
                Some(p) => {
                    assert forall|k: int| !is_sole_separator(line@, k) by {
                        if is_sole_separator(line@, k) {
                            assert(k == p as int || line@[p as int] != '=');
                            assert(line@[i as int] != '=');
                        }
                    }
                    return None;
                },
                None => {
                    found = Some(i);
                },
            }
        }
        i += 1;
    }
    found
}

/// Reads one line into the builder: a line with exactly one `=` and a known
/// key sets that key's field when its value is understood.
fn apply_line(builder: &mut BatteryStatusBuilder, line: &str)
    ensures
        *final(builder) == spec_apply_line(*old(builder), line@),
{
    let n = line.unicode_len();
    match sole_separator(line) {
        None => {},
        Some(i) => {
            proof {
                assert forall|k: int| is_sole_separator(line@, k) implies k == i by {
                    if k != i as int {
                        assert(line@[i as int] != '=');
                    }
                }
            }
            let key = line.substring_char(0, i);
            let value = line.substring_char(i + 1, n);
            assert(split_key_value(line@) == Some((key@, value@)));
            if str_equals(key, "POWER_SUPPLY_STATUS") {
                match charging_status_from_string(value) {
                    Some(c) => builder.set_charging(c),
                    None => {},
                }
            } else if str_equals(key, "POWER_SUPPLY_ENERGY_FULL") {
                match parse_energy(value) {
                    Some(e) => builder.set_energy_full(e),
                    None => {},
                }
            } else if str_equals(key, "POWER_SUPPLY_ENERGY_NOW") {
                match parse_energy(value) {
                    Some(e) => builder.set_energy_now(e),
                    None => {},
                }
            }
        },
    }
}

/// Parses one device's status text into a complete record, or `None` when
/// any of the charging state, full energy and present energy is not set by
/// some line.
pub fn battery_from_uevent_file(contents: &str) -> (r: Option<BatteryStatus>)
    ensures
        r == spec_battery_from_uevent(contents@),
{
    let n = contents.unicode_len();
    let mut builder = BatteryStatusBuilder::default();
    let mut start: usize = 0;
    let mut i: usize = 0;
    proof {
        assert(contents@.take(0) =~= Seq::<char>::empty());
    }
    while i < n
        invariant
            n == contents@.len(),
            start <= i <= n,
            split_lines(contents@.take(i as int)).len() >= 1,
            builder == apply_lines(split_lines(contents@.take(i as int)).drop_last()),
            split_lines(contents@.take(i as int)).last() == contents@.subrange(
                start as int,
                i as int,
            ),
        decreases n - i,
    {
        let ghost prev = split_lines(contents@.take(i as int));
        let ghost t = contents@.take(i + 1);
        assert(t.drop_last() =~= contents@.take(i as int));
        let c = contents.get_char(i);
        if c == '\n' {
            let mut end = i;
            if i > start && contents.get_char(i - 1) == '\r' {
                end = i - 1;
            }
            let line = contents.substring_char(start, end);
            assert(line@ =~= strip_cr(prev.last()));
            apply_line(&mut builder, line);
            let ghost next = prev.update(prev.len() - 1, strip_cr(prev.last()));
            assert(split_lines(t) == next.push(Seq::<char>::empty()));
            assert(next.push(Seq::<char>::empty()).drop_last() =~= next);
            assert(next.drop_last() =~= prev.drop_last());
            assert(next.last() == line@);
            start = i + 1;
            assert(contents@.subrange(start as int, i + 1) =~= Seq::<char>::empty());
        } else {
            let ghost next = prev.update(prev.len() - 1, prev.last().push(c));
            assert(split_lines(t) == next);
            assert(next.drop_last() =~= prev.drop_last());
            assert(contents@.subrange(start as int, i + 1) =~= prev.last().push(c));
        }
        i += 1;
    }
    assert(contents@.take(n as int) =~= contents@);
    let last = contents.substring_char(start, n);
    apply_line(&mut builder, last);
    builder.build()
}

/// The line holds exactly one `=` and `key` before it.
pub open spec fn has_key(line: Seq<char>, key: Seq<char>) -> bool {
    match split_key_value(line) {
        Some((k, _)) => k == key,
        None => false,
    }
}

/// The line sets the charging state: it has the status key and a value that
/// names a state.
pub open spec fn sets_charging(line: Seq<char>) -> bool {
    match split_key_value(line) {
        Some((k, v)) => k == status_key() && spec_charging_status(v) is Some,
        None => false,
    }
}

/// The line sets the field of `key`, one of the two energy keys: it has that
/// key and a value that reads as a number.
pub open spec fn sets_energy(line: Seq<char>, key: Seq<char>) -> bool {
    match split_key_value(line) {
        Some((k, v)) => k == key && spec_parse_usize(v) is Some,
        None => false,
    }
}

proof fn lemma_unset_fields_stay_absent(lines: Seq<Seq<char>>)
    ensures
        (forall|i: int| 0 <= i < lines.len() ==> !sets_charging(#[trigger] lines[i]))
            ==> apply_lines(lines).charging is None,
        (forall|i: int| 0 <= i < lines.len() ==> !sets_energy(#[trigger] lines[i], energy_full_key()))
            ==> apply_lines(lines).energy_full is None,
        (forall|i: int| 0 <= i < lines.len() ==> !sets_energy(#[trigger] lines[i], energy_now_key()))
            ==> apply_lines(lines).energy_now is None,
    decreases lines.len(),
{
    if lines.len() > 0 {
        let p = lines.drop_last();
        lemma_unset_fields_stay_absent(p);
        assert forall|i: int| 0 <= i < p.len() implies p[i] == lines[i] by {}
        assert(lines.last() == lines[lines.len() - 1]);
    }
}

/// A status text with no line for one of the three keys yields no record.
pub proof fn lemma_missing_key_no_record(s: Seq<char>, key: Seq<char>)
    requires
        key == status_key() || key == energy_full_key() || key == energy_now_key(),
        forall|i: int| 0 <= i < split_lines(s).len() ==> !has_key(#[trigger] split_lines(s)[i], key),
    ensures
        spec_battery_from_uevent(s) is None,
{
    let lines = split_lines(s);
    lemma_unset_fields_stay_absent(lines);
    if key == status_key() {
        assert forall|i: int| 0 <= i < lines.len() implies !sets_charging(#[trigger] lines[i]) by {
            assert(!has_key(lines[i], key));
        }
    } else {
        assert forall|i: int| 0 <= i < lines.len() implies !sets_energy(#[trigger] lines[i], key) by {
            assert(!has_key(lines[i], key));
        }
    }
}

/// A status text whose status lines all hold a value that names no charging
/// state yields no record, whatever its energy lines hold.
pub proof fn lemma_unknown_status_no_record(s: Seq<char>)
    requires
        forall|i: int|
            0 <= i < split_lines(s).len() && has_key(#[trigger] split_lines(s)[i], status_key())
                ==> spec_charging_status(split_key_value(split_lines(s)[i])->Some_0.1) is None,
    ensures
        spec_battery_from_uevent(s) is None,
{
    let lines = split_lines(s);
    lemma_unset_fields_stay_absent(lines);
    assert forall|i: int| 0 <= i < lines.len() implies !sets_charging(#[trigger] lines[i]) by {
        if has_key(lines[i], status_key()) {
        }
    }
}

/// The line `KEY=VALUE`.
pub open spec fn key_line(key: Seq<char>, value: Seq<char>) -> Seq<char> {
    key + seq!['='] + value
}

/// A value without a separator, a newline or a carriage return.
pub open spec fn plain_value(v: Seq<char>) -> bool {
    forall|i: int| 0 <= i < v.len() ==> v[i] != '=' && v[i] != '\n' && v[i] != '\r'
}

proof fn lemma_number_is_plain(v: Seq<char>)
    requires
        spec_parse_usize(v) is Some,
    ensures
        plain_value(v),
{
    let d = unsigned_digits(v);
    assert forall|i: int| 0 <= i < v.len() implies v[i] != '=' && v[i] != '\n' && v[i] != '\r' by {
        if v[0] == '+' {
            if i > 0 {
                assert(v[i] == d[i - 1]);
                assert(is_digit(d[i - 1]));
            }
        } else {
            assert(is_digit(d[i]));
        }
    }
}

proof fn lemma_status_is_plain(v: Seq<char>)
    requires
        spec_charging_status(v) is Some,
    ensures
        plain_value(v),
{
    reveal_strlit("Not charging");
    reveal_strlit("Discharging");
    reveal_strlit("Charging");
}

proof fn lemma_reveal_keys()
    ensures
        status_key().len() == 19,
        energy_full_key().len() == 24,
        energy_now_key().len() == 23,
        plain_value(status_key()),
        plain_value(energy_full_key()),
        plain_value(energy_now_key()),
{
    reveal_strlit("POWER_SUPPLY_STATUS");
    reveal_strlit("POWER_SUPPLY_ENERGY_FULL");
    reveal_strlit("POWER_SUPPLY_ENERGY_NOW");
}

proof fn lemma_key_line_splits(key: Seq<char>, v: Seq<char>)
    requires
        plain_value(key),
        plain_value(v),
    ensures
        split_key_value(key_line(key, v)) == Some((key, v)),
        strip_cr(key_line(key, v)) == key_line(key, v),
{
    let line = key_line(key, v);
    let k = key.len() as int;
    assert(is_sole_separator(line, k));
    assert forall|i: int| is_sole_separator(line, i) implies i == k by {
        if i < k {
            assert(line[i] == key[i]);
        } else if i > k {
            assert(line[i] == v[i - k - 1]);
        }
    }
    assert(line.take(k) =~= key);
    assert(line.skip(k + 1) =~= v);
    if v.len() > 0 {
        assert(line.last() == v[v.len() - 1]);
    }
}

proof fn lemma_split_lines_append(p: Seq<char>, y: Seq<char>)
    requires
        forall|i: int| 0 <= i < y.len() ==> y[i] != '\n',
    ensures
        split_lines(p + y) == split_lines(p).update(
            split_lines(p).len() - 1,
            split_lines(p).last() + y,
        ),
    decreases y.len(),
{
    let l = split_lines(p);
    lemma_split_lines_nonempty(p);
    if y.len() == 0 {
        assert(p + y =~= p);
        assert(l.last() + y =~= l.last());
        assert(l.update(l.len() - 1, l.last() + y) =~= l);
    } else {
        let y0 = y.drop_last();
        lemma_split_lines_append(p, y0);
        assert((p + y).drop_last() =~= p + y0);
        assert((p + y).last() == y[y.len() - 1]);
        let prev = split_lines(p + y0);
        assert(prev.last() == l.last() + y0);
        assert((l.last() + y0).push(y.last()) =~= l.last() + y);
        assert(prev.update(prev.len() - 1, prev.last().push((p + y).last())) =~= l.update(
            l.len() - 1,
            l.last() + y,
        ));
    }
}

proof fn lemma_split_lines_newline(p: Seq<char>)
    ensures
        split_lines(p.push('\n')) == split_lines(p).update(
            split_lines(p).len() - 1,
            strip_cr(split_lines(p).last()),
        ).push(Seq::empty()),
{
    assert(p.push('\n').drop_last() =~= p);
}

proof fn lemma_three_lines(l1: Seq<char>, l2: Seq<char>, l3: Seq<char>)
    requires
        forall|i: int| 0 <= i < l1.len() ==> l1[i] != '\n',
        forall|i: int| 0 <= i < l2.len() ==> l2[i] != '\n',
        forall|i: int| 0 <= i < l3.len() ==> l3[i] != '\n',
        strip_cr(l1) == l1,
        strip_cr(l2) == l2,
    ensures
        split_lines(l1 + seq!['\n'] + l2 + seq!['\n'] + l3) == seq![l1, l2, l3],
{
    let e = Seq::<char>::empty();
    assert(split_lines(e) == seq![e]);
    lemma_split_lines_append(e, l1);
    assert(e + l1 =~= l1);
    assert(split_lines(l1) =~= seq![l1]);
    lemma_split_lines_newline(l1);
    assert(l1 + seq!['\n'] =~= l1.push('\n'));
    let s1 = l1.push('\n');
    assert(split_lines(s1) =~= seq![l1, e]);
    lemma_split_lines_append(s1, l2);
    assert(split_lines(s1 + l2) =~= seq![l1, l2]);
    let s2 = (s1 + l2).push('\n');
    lemma_split_lines_newline(s1 + l2);
    assert(split_lines(s2) =~= seq![l1, l2, e]);
    lemma_split_lines_append(s2, l3);
    assert(split_lines(s2 + l3) =~= seq![l1, l2, l3]);
    assert(l1 + seq!['\n'] + l2 + seq!['\n'] + l3 =~= s2 + l3);
}

/// A status text of three lines, a status line whose value names the state
/// `c`, a full-energy line whose value reads as `f` and a present-energy line
/// whose value reads as `n`, yields the record of exactly those three fields.
pub proof fn lemma_well_formed_text_record(
    status_value: Seq<char>,
    full_value: Seq<char>,
    now_value: Seq<char>,
    c: BatteryChargingStatus,
    f: usize,
    n: usize,
)
    requires
        spec_charging_status(status_value) == Some(c),
        spec_parse_usize(full_value) == Some(f),
        spec_parse_usize(now_value) == Some(n),
    ensures
        spec_battery_from_uevent(
            key_line(status_key(), status_value) + seq!['\n'] + key_line(energy_full_key(), full_value)
                + seq!['\n'] + key_line(energy_now_key(), now_value),
        ) == Some(BatteryStatus { charging: c, energy_full: f, energy_now: n }),
{
    lemma_reveal_keys();
    lemma_status_is_plain(status_value);
    lemma_number_is_plain(full_value);
    lemma_number_is_plain(now_value);
    let l1 = key_line(status_key(), status_value);
    let l2 = key_line(energy_full_key(), full_value);
    let l3 = key_line(energy_now_key(), now_value);
    lemma_key_line_splits(status_key(), status_value);
    lemma_key_line_splits(energy_full_key(), full_value);
    lemma_key_line_splits(energy_now_key(), now_value);
    assert forall|i: int| 0 <= i < l1.len() implies l1[i] != '\n' by {
        if i < 19 { assert(l1[i] == status_key()[i]); } else if i > 19 { assert(l1[i] == status_value[i - 20]); }
    }
    assert forall|i: int| 0 <= i < l2.len() implies l2[i] != '\n' by {
        if i < 24 { assert(l2[i] == energy_full_key()[i]); } else if i > 24 { assert(l2[i] == full_value[i - 25]); }
    }
    assert forall|i: int| 0 <= i < l3.len() implies l3[i] != '\n' by {
        if i < 23 { assert(l3[i] == energy_now_key()[i]); } else if i > 23 { assert(l3[i] == now_value[i - 24]); }
    }
    lemma_three_lines(l1, l2, l3);
    let lines = seq![l1, l2, l3];
    assert(lines.drop_last() =~= seq![l1, l2]);
    assert(seq![l1, l2].drop_last() =~= seq![l1]);
    assert(seq![l1].drop_last() =~= Seq::<Seq<char>>::empty());
    assert(status_key() != energy_full_key());
    assert(status_key() != energy_now_key());
    assert(energy_full_key() != energy_now_key());
    assert(apply_lines(Seq::<Seq<char>>::empty()) == empty_builder());
    let b1 = spec_apply_line(empty_builder(), l1);
    assert(apply_lines(seq![l1]) == b1);
    assert(b1 == BatteryStatusBuilder { charging: Some(c), ..empty_builder() });
    let b2 = spec_apply_line(b1, l2);
    assert(apply_lines(seq![l1, l2]) == b2);
    assert(b2 == BatteryStatusBuilder { energy_full: Some(f), ..b1 });
    let b3 = spec_apply_line(b2, l3);
    assert(apply_lines(lines) == b3);
    assert(b3 == BatteryStatusBuilder { energy_now: Some(n), ..b2 });
}

} // verus!
