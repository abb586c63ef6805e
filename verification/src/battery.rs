//! What the battery applet shows, from the readings of the battery class
//! driver and the system power status. Querying the driver belongs to the
//! platform layer, which hands over plain values.
use crate::text::{push_char, push_text};
use vstd::prelude::*;

verus! {

/// A capacity the driver does not know.
pub const UNKNOWN_CAPACITY: u32 = 4294967295;

/// A rate the driver does not know (`0x80000000` read as signed).
pub const UNKNOWN_RATE: i32 = -2147483648;

/// One battery as the class driver reports it.
#[derive(Clone, Copy, Debug, PartialEq, Eq)]
pub struct Device {
    /// Capacities are percentages, not milliwatt-hours.
    pub relative: bool,
    pub designed: u32,
    pub full: u32,
    pub remaining: u32,
    /// Milliwatts, negative while discharging.
    pub rate: i32,
    pub charging: bool,
    /// Zero when the battery does not count cycles.
    pub cycles: u32,
}

/// The system power status.
#[derive(Clone, Copy, Debug, PartialEq, Eq)]
pub struct Status {
    pub percent: u8,
    pub plugged: bool,
    /// The status's own charging flag, for machines whose driver lists no battery.
    pub charging: bool,
    /// Seconds left, `u32::MAX` when unknown.
    pub lifetime: u32,
}

#[derive(Clone, Copy, Debug, PartialEq, Eq)]
pub struct Reading {
    pub percent: u8,
    pub plugged: bool,
    pub charging: bool,
    pub design_mwh: Option<u32>,
    pub full_mwh: Option<u32>,
    pub remaining_mwh: Option<u32>,
    pub rate_mw: Option<i32>,
    pub cycles: Option<u32>,
    pub lifetime_s: Option<u32>,
}

/// Capacities in milliwatt-hours: some battery, none of them relative.
pub open spec fn absolute(devices: Seq<Device>) -> bool {
    devices.len() > 0 && forall|i: int| 0 <= i < devices.len() ==> !(#[trigger] devices[i]).relative
}

pub open spec fn known_capacity(v: u32) -> bool {
    v != 0 && v != UNKNOWN_CAPACITY
}

/// The sum of a capacity over the batteries, by `which` (0 designed, 1 full
/// charge, 2 remaining).
pub open spec fn capacity(d: Device, which: int) -> u32 {
    if which == 0 { d.designed } else if which == 1 { d.full } else { d.remaining }
}

pub open spec fn capacity_sum(devices: Seq<Device>, which: int) -> int
    decreases devices.len(),
{
    if devices.len() == 0 { 0 } else { capacity_sum(devices.drop_last(), which) + capacity(devices.last(), which) }
}

pub open spec fn rate_sum(devices: Seq<Device>) -> int
    decreases devices.len(),
{
    if devices.len() == 0 { 0 } else { rate_sum(devices.drop_last()) + devices.last().rate }
}

pub open spec fn max_cycles(devices: Seq<Device>) -> int
    decreases devices.len(),
{
    if devices.len() == 0 {
        0
    } else {
        let m = max_cycles(devices.drop_last());
        if devices.last().cycles > m { devices.last().cycles as int } else { m }
    }
}

/// A total shown only when capacities are absolute and every battery knows it.
pub open spec fn spec_total(devices: Seq<Device>, which: int) -> Option<int> {
    if absolute(devices) && forall|i: int| 0 <= i < devices.len() ==> known_capacity(capacity(#[trigger] devices[i], which)) {
        Some(capacity_sum(devices, which))
    } else {
        None
    }
}

pub open spec fn spec_rate(devices: Seq<Device>) -> Option<int> {
    if absolute(devices) && forall|i: int| 0 <= i < devices.len() ==> (#[trigger] devices[i]).rate != UNKNOWN_RATE {
        Some(rate_sum(devices))
    } else {
        None
    }
}

pub open spec fn any_charging(devices: Seq<Device>) -> bool {
    exists|i: int| 0 <= i < devices.len() && (#[trigger] devices[i]).charging
}

/// Sums stay within their types.
pub open spec fn sums_fit(devices: Seq<Device>) -> bool {
    &&& capacity_sum(devices, 0) <= u32::MAX
    &&& capacity_sum(devices, 1) <= u32::MAX
    &&& capacity_sum(devices, 2) <= u32::MAX
    &&& forall|k: int| 0 <= k <= devices.len() ==> i32::MIN <= #[trigger] rate_sum(devices.take(k)) <= i32::MAX
}

proof fn lemma_capacity_sum_grows(devices: Seq<Device>, which: int, k: int)
    requires
        0 <= k <= devices.len(),
    ensures
        0 <= capacity_sum(devices.take(k), which) <= capacity_sum(devices, which),
    decreases devices.len(),
{
    if devices.len() > 0 {
        if k == devices.len() {
            assert(devices.take(k) =~= devices);
            lemma_capacity_sum_grows(devices.drop_last(), which, 0);
        } else {
            lemma_capacity_sum_grows(devices.drop_last(), which, k);
            assert(devices.drop_last().take(k) =~= devices.take(k));
        }
    } else {
        assert(devices.take(k) =~= devices);
    }
}

fn total(devices: &[Device], which: u8) -> (r: Option<u32>)
    requires
        which <= 2,
        capacity_sum(devices@, which as int) <= u32::MAX,
    ensures
        match (r, spec_total(devices@, which as int)) {
            (Some(a), Some(b)) => a == b,
            (None, None) => true,
            _ => false,
        },
{
    if devices.len() == 0 {
        return None;
    }
    let mut sum: u32 = 0;
    let mut i: usize = 0;
    while i < devices.len()
        invariant
            which <= 2,
            i <= devices@.len(),
            capacity_sum(devices@, which as int) <= u32::MAX,
            sum as int == capacity_sum(devices@.take(i as int), which as int),
            forall|j: int| 0 <= j < i ==> !(#[trigger] devices@[j]).relative && known_capacity(capacity(devices@[j], which as int)),
        decreases devices@.len() - i,
    {
        let d = devices[i];
        let value = if which == 0 { d.designed } else if which == 1 { d.full } else { d.remaining };
        if d.relative || value == 0 || value == UNKNOWN_CAPACITY {
            assert(!(!devices@[i as int].relative && known_capacity(capacity(devices@[i as int], which as int))));
            return None;
        }
        proof {
            assert(devices@.take(i + 1).drop_last() =~= devices@.take(i as int));
            lemma_capacity_sum_grows(devices@, which as int, i + 1);
        }
        sum = sum + value;
        i += 1;
    }
    assert(devices@.take(i as int) =~= devices@);
    Some(sum)
}

/// What the battery applet shows for `status` and the batteries `devices`.
pub fn reading(status: Status, devices: &[Device]) -> (r: Reading)
    requires
        sums_fit(devices@),
    ensures
        r.percent == status.percent,
        r.plugged == status.plugged,
        r.charging == (if devices@.len() == 0 { status.charging } else { any_charging(devices@) }),
        r.design_mwh == (match spec_total(devices@, 0) { Some(v) => Some(v as u32), None => None }),
        r.full_mwh == (match spec_total(devices@, 1) { Some(v) => Some(v as u32), None => None }),
        r.remaining_mwh == (match spec_total(devices@, 2) { Some(v) => Some(v as u32), None => None }),
        r.rate_mw == (match spec_rate(devices@) { Some(v) => Some(v as i32), None => None }),
        r.cycles == (if max_cycles(devices@) > 0 { Some(max_cycles(devices@) as u32) } else { None }),
        r.lifetime_s == (if status.lifetime != u32::MAX { Some(status.lifetime) } else { None }),
        // The cycle count shown is the highest that a battery reports.
        r.cycles matches Some(c) ==> c > 0
            && (forall|i: int| 0 <= i < devices@.len() ==> (#[trigger] devices@[i]).cycles <= c)
            && (exists|i: int| 0 <= i < devices@.len() && (#[trigger] devices@[i]).cycles == c),
        r.cycles is None <==> (forall|i: int| 0 <= i < devices@.len() ==> (#[trigger] devices@[i]).cycles == 0),
{
    let mut charging = false;
    let mut all_absolute = devices.len() > 0;
    let mut rates_known = true;
    let mut rate: i32 = 0;
    let mut cycles: u32 = 0;
    let mut i: usize = 0;
    while i < devices.len()
        invariant
            i <= devices@.len(),
            sums_fit(devices@),
            charging == any_charging(devices@.take(i as int)),
            all_absolute == (devices@.len() > 0 && forall|j: int| 0 <= j < i ==> !(#[trigger] devices@[j]).relative),
            rates_known == (forall|j: int| 0 <= j < i ==> (#[trigger] devices@[j]).rate != UNKNOWN_RATE),
            rate as int == rate_sum(devices@.take(i as int)),
            cycles as int == max_cycles(devices@.take(i as int)),
        decreases devices@.len() - i,
    {
        let d = devices[i];
        proof {
            let t = devices@.take(i + 1);
            assert(t.drop_last() =~= devices@.take(i as int));
            assert(t.last() == d);
            assert(i32::MIN <= rate_sum(t) <= i32::MAX);
            if any_charging(devices@.take(i as int)) {
                let w = choose|w: int| 0 <= w < i && (#[trigger] devices@.take(i as int)[w]).charging;
                assert(t[w] == devices@.take(i as int)[w]);
            }
            if d.charging {
                assert(t[i as int] == d);
            }
            if any_charging(t) {
                let w = choose|w: int| 0 <= w < i + 1 && (#[trigger] t[w]).charging;
                if w < i {
                    assert(devices@.take(i as int)[w] == t[w]);
                }
            }
        }
        charging = charging || d.charging;
        all_absolute = all_absolute && !d.relative;
        rates_known = rates_known && d.rate != UNKNOWN_RATE;
        rate = rate + d.rate;
        if d.cycles > cycles {
            cycles = d.cycles;
        }
        i += 1;
    }
    assert(devices@.take(i as int) =~= devices@);
    proof {
        cycles_are_the_highest(devices@);
    }
    let design = total(devices, 0);
    let full = total(devices, 1);
    let remaining = total(devices, 2);
    Reading {
        percent: status.percent,
        plugged: status.plugged,
        charging: if devices.len() == 0 { status.charging } else { charging },
        design_mwh: design,
        full_mwh: full,
        remaining_mwh: remaining,
        rate_mw: if all_absolute && rates_known { Some(rate) } else { None },
        cycles: if cycles > 0 { Some(cycles) } else { None },
        lifetime_s: if status.lifetime != u32::MAX { Some(status.lifetime) } else { None },
    }
}

/// The decimal digits of `n`.
pub open spec fn decimal_text(n: nat) -> Seq<char>
    decreases n,
{
    if n < 10 {
        seq![((n + 48) as u8) as char]
    } else {
        decimal_text(n / 10).push((((n % 10) + 48) as u8) as char)
    }
}

/// `n` in decimal, as `format!("{n}")` writes it.
pub fn decimal(n: u32) -> (s: String)
    ensures
        s@ == decimal_text(n as nat),
    decreases n,
{
    if n < 10 {
        let mut s = String::new();
        push_char(&mut s, ((n + 48) as u8) as char);
        s
    } else {
        let mut s = decimal(n / 10);
        push_char(&mut s, (((n % 10) + 48) as u8) as char);
        s
    }
}

/// The lines of the battery popup: the level, the power source (an AC line
/// status of 1 is plugged in, 0 on battery, anything else unknown), and the
/// time left as hours and two-digit minutes when it is known.
pub open spec fn spec_battery_lines(percent: u8, ac_line: u8, lifetime: u32) -> Seq<Seq<char>> {
    let level = "Level: "@ + decimal_text(percent as nat) + "%"@;
    let power = if ac_line == 1 { "Power: plugged in"@ } else if ac_line == 0 { "Power: on battery"@ } else { "Power: unknown"@ };
    let minutes = (lifetime % 3600 / 60) as nat;
    let padded = if minutes < 10 { "0"@ + decimal_text(minutes) } else { decimal_text(minutes) };
    let remaining = "Remaining: "@ + decimal_text((lifetime / 3600) as nat) + "h"@ + padded;
    if lifetime != u32::MAX { seq![level, power, remaining] } else { seq![level, power] }
}

pub fn battery_lines(percent: u8, ac_line: u8, lifetime: u32) -> (lines: Vec<String>)
    ensures
        lines@.map_values(|l: String| l@) == spec_battery_lines(percent, ac_line, lifetime),
{
    let mut level = "Level: ".to_owned();
    let digits = decimal(percent as u32);
    push_text(&mut level, digits.as_str());
    push_char(&mut level, '%');
    let power = if ac_line == 1 {
        "Power: plugged in".to_owned()
    } else if ac_line == 0 {
        "Power: on battery".to_owned()
    } else {
        "Power: unknown".to_owned()
    };
    let mut lines: Vec<String> = Vec::new();
    proof {
        reveal_strlit("%");
    }
    assert(level@ =~= "Level: "@ + decimal_text(percent as nat) + "%"@);
    lines.push(level);
    lines.push(power);
    if lifetime != u32::MAX {
        let mut remaining = "Remaining: ".to_owned();
        let hours = decimal(lifetime / 3600);
        push_text(&mut remaining, hours.as_str());
        push_char(&mut remaining, 'h');
        let minutes = lifetime % 3600 / 60;
        if minutes < 10 {
            push_char(&mut remaining, '0');
        }
        let m = decimal(minutes);
        push_text(&mut remaining, m.as_str());
        proof {
            reveal_strlit("h");
            reveal_strlit("0");
        }
        assert(remaining@ =~= "Remaining: "@ + decimal_text((lifetime / 3600) as nat) + "h"@
            + (if minutes < 10 { "0"@ + decimal_text(minutes as nat) } else { decimal_text(minutes as nat) }));
        lines.push(remaining);
    }
    let ghost spec = spec_battery_lines(percent, ac_line, lifetime);
    assert(lines@.map_values(|l: String| l@) =~= spec);
    lines
}

/// The cycle count of a set of batteries is the highest that one of them
/// reports: no battery reports more, one reports exactly that many, and it
/// is zero only when every battery reports zero.
pub proof fn cycles_are_the_highest(devices: Seq<Device>)
    ensures
        forall|i: int| 0 <= i < devices.len() ==> (#[trigger] devices[i]).cycles <= max_cycles(devices),
        devices.len() > 0 ==> exists|i: int| 0 <= i < devices.len() && (#[trigger] devices[i]).cycles == max_cycles(devices),
        max_cycles(devices) == 0 <==> forall|i: int| 0 <= i < devices.len() ==> (#[trigger] devices[i]).cycles == 0,
        0 <= max_cycles(devices) <= u32::MAX,
    decreases devices.len(),
{
    if devices.len() > 0 {
        let rest = devices.drop_last();
        cycles_are_the_highest(rest);
        let last = devices.len() - 1;
        assert forall|i: int| 0 <= i < devices.len() implies (#[trigger] devices[i]).cycles <= max_cycles(devices) by {
            if i < last {
                assert(devices[i] == rest[i]);
            }
        }
        if devices.last().cycles > max_cycles(rest) {
            assert(devices[last].cycles == max_cycles(devices));
        } else if rest.len() > 0 {
            let k = choose|k: int| 0 <= k < rest.len() && (#[trigger] rest[k]).cycles == max_cycles(rest);
            assert(devices[k] == rest[k]);
            assert(devices[k].cycles == max_cycles(devices));
        } else {
            assert(devices[last].cycles == max_cycles(devices));
        }
        if max_cycles(devices) == 0 {
            assert forall|i: int| 0 <= i < devices.len() implies (#[trigger] devices[i]).cycles == 0 by {
                assert(devices[i].cycles <= max_cycles(devices));
            }
        } else {
            let k = choose|k: int| 0 <= k < devices.len() && (#[trigger] devices[k]).cycles == max_cycles(devices);
            assert(devices[k].cycles != 0);
        }
    }
}

} // verus!

