//! Picking the battery devices out of the power-supply device directory.
use vstd::prelude::*;

verus! {

/// The directory that lists the power-supply devices, one entry per device.
pub const POWER_SUPPLY_DIR: &'static str = "/sys/class/power_supply";

/// The name of a device's status file within the device's directory.
pub const STATUS_FILE: &'static str = "uevent";

/// A device entry is a battery when its name starts with `BAT`.
pub open spec fn is_battery_name_spec(name: Seq<char>) -> bool {
    name.len() >= 3 && name.take(3) == "BAT"@
}

/// Names of directory entries as character sequences; `None` stands for an
/// entry whose name could not be read as text.
pub open spec fn names_view(names: Seq<Option<String>>) -> Seq<Option<Seq<char>>> {
    names.map_values(
        |o: Option<String>|
            match o {
                Some(s) => Some(s@),
                None => None,
            },
    )
}

/// The positions of the battery entries among the names, in listing order.
pub open spec fn battery_indices(names: Seq<Option<Seq<char>>>) -> Seq<usize>
    decreases names.len(),
{
    if names.len() == 0 {
        Seq::empty()
    } else {
        let prev = battery_indices(names.drop_last());
        match names.last() {
            Some(n) => if is_battery_name_spec(n) {
                prev.push((names.len() - 1) as usize)
            } else {
                prev
            },
            None => prev,
        }
    }
}

/// Whether a directory entry's name is that of a battery device.
pub fn is_battery_name(name: &str) -> (r: bool)
    ensures
        r == is_battery_name_spec(name@),
{
    proof {
        reveal_strlit("BAT");
    }
    if name.unicode_len() < 3 {
        return false;
    }
    let a = name.get_char(0);
    let b = name.get_char(1);
    let c = name.get_char(2);
    let r = a == 'B' && b == 'A' && c == 'T';
    assert(r ==> name@.take(3) =~= "BAT"@);
    assert(name@.take(3) == "BAT"@ ==> name@.take(3)[0] == 'B' && name@.take(3)[1] == 'A'
        && name@.take(3)[2] == 'T');
    r
}

/// The positions, in listing order, of the entries of a device directory
/// listing that are batteries. An entry without a readable name is skipped.
pub fn battery_entries(names: &Vec<Option<String>>) -> (r: Vec<usize>)
    ensures
        r@ == battery_indices(names_view(names@)),
{
    let mut r: Vec<usize> = Vec::new();
    let mut i: usize = 0;
    while i < names.len()
        invariant
            i <= names@.len(),
            r@ == battery_indices(names_view(names@.take(i as int))),
        decreases names@.len() - i,
    {
        let ghost t = names@.take(i + 1);
        assert(names_view(t).drop_last() =~= names_view(names@.take(i as int)));
        assert(names_view(t).len() == i + 1);
        match &names[i] {
            Some(n) => {
                assert(names_view(t).last() == Some(n@));
                if is_battery_name(n.as_str()) {
                    r.push(i);
                }
            },
            None => {
                assert(names_view(t).last() is None);
            },
        }
        i += 1;
    }
    assert(names@.take(names@.len() as int) =~= names@);
    r
}

/// Only entries whose names start with `BAT` are picked: an entry named
/// otherwise (`AC`, say), or without a readable name, never is.
pub proof fn lemma_only_battery_names_picked(names: Seq<Option<Seq<char>>>, k: int)
    requires
        names.len() <= usize::MAX,
        0 <= k < battery_indices(names).len(),
    ensures
        battery_indices(names)[k] < names.len(),
        names[battery_indices(names)[k] as int] is Some,
        is_battery_name_spec(names[battery_indices(names)[k] as int]->Some_0),
    decreases names.len(),
{
    let prev = battery_indices(names.drop_last());
    if k < prev.len() {
        lemma_only_battery_names_picked(names.drop_last(), k);
        assert(battery_indices(names)[k] == prev[k]);
        let j = prev[k] as int;
        assert(names.drop_last()[j] == names[j]);
    } else {
        assert(names.last() == names[names.len() - 1]);
    }
}

} // verus!
