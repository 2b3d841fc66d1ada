//! The telemetry sampler: turns raw kernel readings into CPU metrics.
//!
//! Each read operation absorbs a missing source or an unreadable value into a
//! zero reading. The caller performs the reads and hands over their text.

use vstd::prelude::*;
use vstd::string::*;
use crate::text::{
    all_digits, bounded_value, copy_range, digits_value, find_byte, first_from,
    lemma_first_from_bounds, parse_bounded, trim, trim_end, trim_end_index, trim_start_index,
    unsigned_body,
};

verus! {

/// Largest power figure that the packet field can show, in watts.
pub const MAX_POWER_W: u16 = 999;

/// A temperature reading in milli-degrees converted to milli-degrees Fahrenheit.
pub open spec fn fahrenheit_milli(t: nat) -> nat {
    t * 9 / 5 + 32000
}

/// A milli-unit value rounded to the nearest whole unit, halves upwards.
pub open spec fn round_thousandths(m: nat) -> nat {
    (m + 500) / 1000
}

/// The temperature in whole degrees for a raw milli-degree Celsius reading,
/// saturated to the range of a byte.
pub open spec fn temperature_of(raw: nat, fahrenheit: bool) -> u8 {
    let milli = if fahrenheit {
        fahrenheit_milli(raw)
    } else {
        raw
    };
    let deg = round_thousandths(milli);
    if deg > 255 {
        255
    } else {
        deg as u8
    }
}

/// The raw reading held by the text of a sensor file: a `u32` followed by
/// optional white space.
pub open spec fn sensor_value(text: Seq<u8>) -> Option<nat> {
    bounded_value(trim_end(text), u32::MAX as nat)
}

/// The temperature that the text of a sensor file gives; `0` when it holds no value.
pub open spec fn temperature_from_text(text: Seq<u8>, fahrenheit: bool) -> u8 {
    match sensor_value(text) {
        Some(t) => temperature_of(t, fahrenheit),
        None => 0,
    }
}

/// The counter value held by the text of an energy file; `0` when it holds none.
pub open spec fn counter_from_text(text: Seq<u8>) -> u64 {
    match bounded_value(trim_end(text), u64::MAX as nat) {
        Some(v) => v as u64,
        None => 0,
    }
}

/// The energy consumed between two counter readings, in microjoules. A current
/// reading below the baseline means that the counter wrapped at `range`; a
/// baseline beyond what one wrap can explain gives no energy.
pub open spec fn energy_delta(range: nat, baseline: nat, current: nat) -> nat {
    if current >= baseline {
        (current - baseline) as nat
    } else if range + current >= baseline {
        (range + current - baseline) as nat
    } else {
        0
    }
}

/// Microjoules over milliseconds as whole watts, rounded to nearest, halves upwards.
pub open spec fn watts(delta_uj: nat, ms: nat) -> nat {
    (delta_uj + ms * 500) / (ms * 1000)
}

/// Whole watts, rounded, capped at `MAX_POWER_W`.
pub open spec fn capped_watts(delta_uj: nat, ms: nat) -> u16 {
    let w = watts(delta_uj, ms);
    if w > MAX_POWER_W {
        MAX_POWER_W
    } else {
        w as u16
    }
}

/// The power figure for a baseline and a current counter reading taken `ms`
/// milliseconds apart, on a counter of range `range`.
pub open spec fn power_of(range: nat, baseline: nat, current: nat, ms: nat) -> u16 {
    if range == 0 || baseline == 0 || ms == 0 || current == 0 {
        0
    } else {
        capped_watts(energy_delta(range, baseline, current), ms)
    }
}

/// A rounded utilisation percentage clamped into `[0, 100]`.
pub open spec fn clamp_percent(v: int) -> u8 {
    if v < 0 {
        0
    } else if v > 100 {
        100
    } else {
        v as u8
    }
}

/// Largest frequency that the result can carry, in MHz.
pub const MAX_MHZ: u64 = 65535;

/// `v` saturated to the range of a `u16`.
pub open spec fn cap_mhz(v: nat) -> nat {
    if v > MAX_MHZ {
        MAX_MHZ as nat
    } else {
        v
    }
}

/// A clock reading such as `3400.123`, rounded to the nearest whole number,
/// halves upwards: an optional `+`, digits, and an optional `.` followed by
/// digits, with at least one digit in all.
pub open spec fn mhz_value(t: Seq<u8>) -> Option<nat> {
    let d = unsigned_body(t);
    let k = first_from(d, 0, d.len() as int, 46);
    let whole = d.subrange(0, k);
    let frac = if k < d.len() {
        d.subrange(k + 1, d.len() as int)
    } else {
        Seq::<u8>::empty()
    };
    if all_digits(whole) && all_digits(frac) && whole.len() + frac.len() > 0 {
        Some(
            digits_value(whole) + if frac.len() > 0 && frac[0] >= 53 {
                1nat
            } else {
                0nat
            },
        )
    } else {
        None
    }
}

/// The bytes of `cpu MHz`, the key of a per-core clock line.
pub open spec fn mhz_key() -> Seq<u8> {
    seq![99u8, 112, 117, 32, 77, 72, 122]
}

/// The clock reading of the line `s[a..e]`: for a line that starts with
/// `cpu MHz`, the rounded value of the field after its first `:` (up to a
/// second `:`), white space trimmed; `0` for any other line or a field that
/// holds no reading.
pub open spec fn line_mhz(s: Seq<u8>, a: int, e: int) -> nat {
    if e - a >= 7 && s.subrange(a, a + 7) == mhz_key() {
        let c1 = first_from(s, a + 7, e, 58);
        if c1 < e {
            let c2 = first_from(s, c1 + 1, e, 58);
            match mhz_value(trim(s.subrange(c1 + 1, c2))) {
                Some(v) => v,
                None => 0,
            }
        } else {
            0
        }
    } else {
        0
    }
}

/// The highest clock reading among the lines of `s` from index `a` on.
pub open spec fn max_mhz_from(s: Seq<u8>, a: int) -> nat
    decreases s.len() - a via max_mhz_from_decreases
{
    if a >= s.len() || a < 0 {
        0
    } else {
        let e = first_from(s, a, s.len() as int, 10);
        let rest = if e < s.len() {
            max_mhz_from(s, e + 1)
        } else {
            0
        };
        let here = line_mhz(s, a, e);
        if here > rest {
            here
        } else {
            rest
        }
    }
}

#[via_fn]
proof fn max_mhz_from_decreases(s: Seq<u8>, a: int) {
    if 0 <= a < s.len() {
        lemma_first_from_bounds(s, a, s.len() as int, 10);
    }
}

/// The bytes of `model name`, the key of the CPU model line.
pub open spec fn model_key() -> Seq<u8> {
    seq![109u8, 111, 100, 101, 108, 32, 110, 97, 109, 101]
}

/// The field of the line `s[a..e]` after its first `:` (up to a second `:`),
/// white space trimmed; `None` when the line has no `:`.
pub open spec fn field_after_colon(s: Seq<u8>, a: int, e: int) -> Option<Seq<u8>> {
    let c1 = first_from(s, a, e, 58);
    if c1 < e {
        Some(trim(s.subrange(c1 + 1, first_from(s, c1 + 1, e, 58))))
    } else {
        None
    }
}

/// The CPU model named by the first line of `s`, from index `a` on, that
/// starts with `model name`.
pub open spec fn model_name_from(s: Seq<u8>, a: int) -> Option<Seq<u8>>
    decreases s.len() - a via model_name_from_decreases
{
    if a >= s.len() || a < 0 {
        None
    } else {
        let e = first_from(s, a, s.len() as int, 10);
        if e - a >= 10 && s.subrange(a, a + 10) == model_key() {
            field_after_colon(s, a + 10, e)
        } else if e < s.len() {
            model_name_from(s, e + 1)
        } else {
            None
        }
    }
}

#[via_fn]
proof fn model_name_from_decreases(s: Seq<u8>, a: int) {
    if 0 <= a < s.len() {
        lemma_first_from_bounds(s, a, s.len() as int, 10);
    }
}

/// The sources of CPU telemetry found on this host. Fixed once probed.
pub struct Cpu {
    temp_sensor: Option<String>,
    rapl_max_uj: u64,
}

impl Cpu {
    /// Whether a temperature sensor was found.
    pub closed spec fn has_temp_sensor(&self) -> bool {
        self.temp_sensor is Some
    }

    /// The path of the temperature sensor's value file, if one was found.
    pub closed spec fn sensor_path(&self) -> Option<Seq<char>> {
        match self.temp_sensor {
            Some(s) => Some(s@),
            None => None,
        }
    }

    /// The range of the energy counter; `0` where the host has none.
    pub closed spec fn energy_range(&self) -> nat {
        self.rapl_max_uj as nat
    }

    /// Builds the sampler from what probing found: the path of the temperature
    /// sensor's value file, if any, and the energy counter's range (`0` if absent).
    pub fn new(temp_sensor: Option<String>, rapl_max_uj: u64) -> (r: Self)
        ensures
            r.has_temp_sensor() == (temp_sensor is Some),
            r.sensor_path() == (match temp_sensor {
                Some(s) => Some(s@),
                None => None,
            }),
            r.energy_range() == rapl_max_uj,
    {
        Cpu { temp_sensor, rapl_max_uj }
    }

    /// The temperature that a sensor reading gives on this host: `0` without a
    /// sensor or without a reading.
    pub open spec fn temp_of(&self, reading: Option<&str>, fahrenheit: bool) -> u8 {
        if self.has_temp_sensor() && reading is Some {
            temperature_from_text(reading->0.spec_bytes(), fahrenheit)
        } else {
            0
        }
    }

    /// The path of the temperature sensor's value file, if one was found.
    pub fn temp_sensor(&self) -> (r: Option<&String>)
        ensures
            (r is Some) == self.has_temp_sensor(),
            r matches Some(p) ==> self.sensor_path() == Some(p@),
    {
        match &self.temp_sensor {
            Some(s) => Some(s),
            None => None,
        }
    }

    /// The range of the energy counter in microjoules; `0` where there is none.
    pub fn max_energy(&self) -> (r: u64)
        ensures
            r == self.energy_range(),
    {
        self.rapl_max_uj
    }

    /// Whether a startup warning is owed for a missing temperature sensor.
    pub fn warn_temp(&self) -> (r: bool)
        ensures
            r == !self.has_temp_sensor(),
    {
        self.temp_sensor.is_none()
    }

    /// Whether a startup warning is owed for a missing energy counter.
    pub fn warn_rapl(&self) -> (r: bool)
        ensures
            r == (self.energy_range() == 0),
    {
        self.rapl_max_uj == 0
    }

    /// The CPU temperature in degrees Celsius, or Fahrenheit if asked, from the
    /// text of the sensor file (`None` where it could not be read). Falls back
    /// to `0` when there is no sensor or no value.
    pub fn get_temp(&self, reading: Option<&str>, fahrenheit: bool) -> (r: u8)
        ensures
            !self.has_temp_sensor() ==> r == 0,
            self.has_temp_sensor() && reading is None ==> r == 0,
            r == self.temp_of(reading, fahrenheit),
    {
        if self.temp_sensor.is_none() {
            return 0;
        }
        match reading {
            None => 0,
            Some(text) => temperature_from_reading(text, fahrenheit),
        }
    }

    /// The energy counter in microjoules from the text of its file (`None` where
    /// it could not be read). Falls back to `0` when there is no counter or no value.
    pub fn read_energy(&self, reading: Option<&str>) -> (r: u64)
        ensures
            self.energy_range() == 0 ==> r == 0,
            self.energy_range() != 0 && reading is None ==> r == 0,
            self.energy_range() != 0 && reading is Some ==> r == counter_from_text(
                reading->0.spec_bytes(),
            ),
    {
        if self.rapl_max_uj == 0 {
            return 0;
        }
        match reading {
            None => 0,
            Some(text) => {
                let b = text.as_bytes();
                let e = trim_end_index(b, 0, b.len());
                assert(b@.subrange(0, b@.len() as int) =~= b@);
                match parse_bounded(b, 0, e, u64::MAX) {
                    Some(v) => v,
                    None => 0,
                }
            },
        }
    }

    /// CPU power in watts between a baseline counter reading and the current
    /// one, taken `delta_millisec` milliseconds apart: the energy delta over
    /// the interval, corrected for counter wraparound, rounded and capped at
    /// 999. `0` when there is no counter, either reading is `0`, or the
    /// interval is empty.
    pub fn get_power(&self, initial_energy: u64, delta_millisec: u64, current_energy: u64) -> (r: u16)
        ensures
            r == power_of(
                self.energy_range(),
                initial_energy as nat,
                current_energy as nat,
                delta_millisec as nat,
            ),
            r <= MAX_POWER_W,
            self.energy_range() == 0 || initial_energy == 0 || delta_millisec == 0 ==> r == 0,
            self.energy_range() != 0 && initial_energy != 0 && delta_millisec != 0
                && current_energy >= initial_energy ==> r == capped_watts(
                (current_energy - initial_energy) as nat,
                delta_millisec as nat,
            ),
            self.energy_range() != 0 && initial_energy != 0 && delta_millisec != 0
                && current_energy != 0 && current_energy < initial_energy && initial_energy
                <= self.energy_range() ==> r == capped_watts(
                (self.energy_range() + current_energy - initial_energy) as nat,
                delta_millisec as nat,
            ),
    {
        if self.rapl_max_uj == 0 || initial_energy == 0 || delta_millisec == 0 {
            return 0;
        }
        if current_energy == 0 {
            return 0;
        }
        let delta: u128 = if current_energy >= initial_energy {
            (current_energy - initial_energy) as u128
        } else if self.rapl_max_uj as u128 + current_energy as u128 >= initial_energy as u128 {
            self.rapl_max_uj as u128 + current_energy as u128 - initial_energy as u128
        } else {
            0
        };
        let ms = delta_millisec as u128;
        assert(ms * 1000 <= 0xffff_ffff_ffff_ffff * 1000) by (nonlinear_arith)
            requires ms <= 0xffff_ffff_ffff_ffff;
        assert(ms * 500 <= 0xffff_ffff_ffff_ffff * 500) by (nonlinear_arith)
            requires ms <= 0xffff_ffff_ffff_ffff;
        let w = (delta + ms * 500) / (ms * 1000);
        if w > MAX_POWER_W as u128 {
            MAX_POWER_W
        } else {
            w as u16
        }
    }

    /// The highest per-core clock in MHz from the text of the CPU descriptor
    /// table; see `max_frequency`.
    pub fn get_frequency(&self, cpuinfo: &str) -> (r: u16)
        ensures
            r == cap_mhz(max_mhz_from(cpuinfo.spec_bytes(), 0)),
    {
        max_frequency(cpuinfo)
    }

    /// CPU utilisation in percent from the rounded non-idle share of the
    /// interval, clamped into `[0, 100]` against measurement noise.
    pub fn get_usage(&self, non_idle_percent: i64) -> (r: u8)
        ensures
            r == clamp_percent(non_idle_percent as int),
            r <= 100,
    {
        if non_idle_percent < 0 {
            0
        } else if non_idle_percent > 100 {
            100
        } else {
            non_idle_percent as u8
        }
    }
}

/// Parses a clock reading, saturated to `MAX_MHZ`.
fn parse_mhz(t: &[u8]) -> (r: Option<u64>)
    ensures
        r matches Some(v) ==> mhz_value(t@) matches Some(w) && v == cap_mhz(w),
        r is None ==> mhz_value(t@) is None,
{
    let start: usize = if t.len() > 0 && t[0] == 43 {
        1
    } else {
        0
    };
    let d = copy_range(t, start, t.len());
    assert(d@ =~= unsigned_body(t@));
    let k = find_byte(d.as_slice(), 0, d.len(), 46);
    let mut acc: u64 = 0;
    let mut i: usize = 0;
    while i < k
        invariant
            i <= k <= d@.len(),
            d@ == unsigned_body(t@),
            k == first_from(d@, 0, d@.len() as int, 46),
            all_digits(d@.subrange(0, i as int)),
            acc == cap_mhz(digits_value(d@.subrange(0, i as int))),
        decreases k - i,
    {
        let c = d[i];
        if c < 48 || c > 57 {
            assert(!all_digits(d@.subrange(0, k as int))) by {
                assert(d@.subrange(0, k as int)[i as int] == c);
            }
            return None;
        }
        let ghost prev = d@.subrange(0, i as int);
        let ghost next = d@.subrange(0, i + 1);
        assert(next.drop_last() =~= prev);
        assert(all_digits(next)) by {
            assert forall|j: int| 0 <= j < next.len() implies crate::text::is_digit(
                #[trigger] next[j],
            ) by {
                if j < prev.len() {
                    assert(next[j] == prev[j]);
                }
            }
        }
        let dg = (c - 48) as u64;
        let ghost v = digits_value(prev);
        assert(digits_value(next) == v * 10 + dg);
        assert(v * 10 + dg >= v) by (nonlinear_arith)
            requires
                v >= 0,
                dg >= 0,
        ;
        acc = if acc * 10 + dg > MAX_MHZ {
            MAX_MHZ
        } else {
            acc * 10 + dg
        };
        i = i + 1;
    }
    let n = d.len();
    let mut j: usize = if k < n {
        k + 1
    } else {
        n
    };
    let fstart = j;
    while j < n
        invariant
            fstart <= j <= n == d@.len(),
            d@ == unsigned_body(t@),
            k == first_from(d@, 0, d@.len() as int, 46),
            k <= n,
            k < n ==> fstart == k + 1,
            k >= n ==> fstart == n,
            all_digits(d@.subrange(fstart as int, j as int)),
        decreases n - j,
    {
        let c = d[j];
        if c < 48 || c > 57 {
            assert(!all_digits(d@.subrange(fstart as int, n as int))) by {
                assert(d@.subrange(fstart as int, n as int)[j - fstart] == c);
            }
            return None;
        }
        assert(all_digits(d@.subrange(fstart as int, j + 1))) by {
            assert forall|m: int| 0 <= m < j + 1 - fstart implies crate::text::is_digit(
                #[trigger] d@.subrange(fstart as int, j + 1)[m],
            ) by {
                if m < j - fstart {
                    assert(d@.subrange(fstart as int, j + 1)[m] == d@.subrange(
                        fstart as int,
                        j as int,
                    )[m]);
                }
            }
        }
        j = j + 1;
    }
    if k == 0 && fstart == n {
        return None;
    }
    let up: u64 = if fstart < n && d[fstart] >= 53 {
        1
    } else {
        0
    };
    proof {
        if k >= n {
            assert(d@.subrange(fstart as int, n as int) =~= Seq::<u8>::empty());
        }
    }
    Some(if acc + up > MAX_MHZ {
        MAX_MHZ
    } else {
        acc + up
    })
}

/// The clock reading of the line `s[a..e]`, saturated to `MAX_MHZ`.
fn line_mhz_capped(s: &[u8], a: usize, e: usize) -> (r: u64)
    requires
        a <= e <= s@.len(),
    ensures
        r == cap_mhz(line_mhz(s@, a as int, e as int)),
{
    let key: [u8; 7] = [99, 112, 117, 32, 77, 72, 122];
    assert(key@ =~= mhz_key());
    if e - a < 7 || !same_bytes(s, a, a + 7, &key) {
        return 0;
    }
    let c1 = find_byte(s, a + 7, e, 58);
    if c1 >= e {
        return 0;
    }
    let c2 = find_byte(s, c1 + 1, e, 58);
    let b = trim_start_index(s, c1 + 1, c2);
    let f = trim_end_index(s, b, c2);
    let t = copy_range(s, b, f);
    match parse_mhz(t.as_slice()) {
        Some(v) => v,
        None => 0,
    }
}

/// The highest per-core clock in MHz that the text of the CPU descriptor
/// table reports, rounded and saturated to `MAX_MHZ`; `0` when no line
/// carries a reading.
pub fn max_frequency(cpuinfo: &str) -> (r: u16)
    ensures
        r == cap_mhz(max_mhz_from(cpuinfo.spec_bytes(), 0)),
{
    let s = cpuinfo.as_bytes();
    let n = s.len();
    let mut a: usize = 0;
    let mut best: u64 = 0;
    while a < n
        invariant
            n == s@.len(),
            a <= n,
            best <= MAX_MHZ,
            cap_mhz(if best > max_mhz_from(s@, a as int) {
                best as nat
            } else {
                max_mhz_from(s@, a as int)
            }) == cap_mhz(max_mhz_from(s@, 0)),
        decreases n - a,
    {
        let e = find_byte(s, a, n, 10);
        let v = line_mhz_capped(s, a, e);
        if v > best {
            best = v;
        }
        a = if e < n {
            e + 1
        } else {
            n
        };
    }
    best as u16
}

/// Where the CPU model name stands in the text of the CPU descriptor table:
/// the byte range of the field of the first `model name` line.
pub fn model_name_span(cpuinfo: &str) -> (r: Option<(usize, usize)>)
    ensures
        r is None ==> model_name_from(cpuinfo.spec_bytes(), 0) is None,
        r matches Some((b, f)) ==> b <= f <= cpuinfo.spec_bytes().len() && model_name_from(
            cpuinfo.spec_bytes(),
            0,
        ) == Some(cpuinfo.spec_bytes().subrange(b as int, f as int)),
{
    let s = cpuinfo.as_bytes();
    let n = s.len();
    let key: [u8; 10] = [109, 111, 100, 101, 108, 32, 110, 97, 109, 101];
    assert(key@ =~= model_key());
    let mut a: usize = 0;
    while a < n
        invariant
            n == s@.len(),
            s@ == cpuinfo.spec_bytes(),
            a <= n,
            key@ == model_key(),
            model_name_from(s@, a as int) == model_name_from(s@, 0),
        decreases n - a,
    {
        let e = find_byte(s, a, n, 10);
        if e - a >= 10 && same_bytes(s, a, a + 10, &key) {
            let c1 = find_byte(s, a + 10, e, 58);
            if c1 >= e {
                return None;
            }
            let c2 = find_byte(s, c1 + 1, e, 58);
            let b = trim_start_index(s, c1 + 1, c2);
            let f = trim_end_index(s, b, c2);
            return Some((b, f));
        }
        a = if e < n {
            e + 1
        } else {
            n
        };
    }
    None
}

/// The temperature in whole degrees for a raw milli-degree Celsius reading.
pub fn convert_temperature(raw: u32, fahrenheit: bool) -> (r: u8)
    ensures
        r == temperature_of(raw as nat, fahrenheit),
{
    let milli: u64 = if fahrenheit {
        raw as u64 * 9 / 5 + 32000
    } else {
        raw as u64
    };
    let deg = (milli + 500) / 1000;
    if deg > 255 {
        255
    } else {
        deg as u8
    }
}

/// The temperature that the text of a sensor file gives; `0` when it holds no value.
pub fn temperature_from_reading(text: &str, fahrenheit: bool) -> (r: u8)
    ensures
        r == temperature_from_text(text.spec_bytes(), fahrenheit),
{
    let b = text.as_bytes();
    let e = trim_end_index(b, 0, b.len());
    assert(b@.subrange(0, b@.len() as int) =~= b@);
    match parse_bounded(b, 0, e, u32::MAX as u64) {
        Some(v) => convert_temperature(v as u32, fahrenheit),
        None => 0,
    }
}

/// The energy counter's range from the text of its file; `0`, meaning no
/// counter, when the text holds no value.
pub fn parse_energy_range(text: &str) -> (r: u64)
    ensures
        r == (match bounded_value(trim(text.spec_bytes()), u64::MAX as nat) {
            Some(v) => v as u64,
            None => 0,
        }),
{
    let b = text.as_bytes();
    let s = trim_start_index(b, 0, b.len());
    let e = trim_end_index(b, s, b.len());
    assert(b@.subrange(0, b@.len() as int) =~= b@);
    match parse_bounded(b, s, e, u64::MAX) {
        Some(v) => v,
        None => 0,
    }
}

/// Whether a hardware-monitor driver name, without surrounding white space,
/// is one of the supported temperature drivers: `asusec`, `coretemp`,
/// `k10temp` or `zenpower`.
pub open spec fn supported_sensor(name: Seq<u8>) -> bool {
    let n = trim(name);
    n == seq![97u8, 115, 117, 115, 101, 99] || n == seq![99u8, 111, 114, 101, 116, 101, 109, 112]
        || n == seq![107u8, 49, 48, 116, 101, 109, 112] || n == seq![
        122u8,
        101,
        110,
        112,
        111,
        119,
        101,
        114,
    ]
}

/// Whether `s[lo..hi]` equals `w`.
fn same_bytes(s: &[u8], lo: usize, hi: usize, w: &[u8]) -> (r: bool)
    requires
        lo <= hi <= s@.len(),
    ensures
        r == (s@.subrange(lo as int, hi as int) == w@),
{
    if hi - lo != w.len() {
        return false;
    }
    let mut i: usize = 0;
    while i < w.len()
        invariant
            lo <= hi <= s@.len(),
            hi - lo == w@.len(),
            0 <= i <= w@.len(),
            forall|k: int| 0 <= k < i ==> s@[lo + k] == w@[k],
        decreases w.len() - i,
    {
        if s[lo + i] != w[i] {
            assert(s@.subrange(lo as int, hi as int)[i as int] != w@[i as int]);
            return false;
        }
        i = i + 1;
    }
    assert(s@.subrange(lo as int, hi as int) =~= w@);
    true
}

/// Whether the content of a hardware-monitor `name` file names a supported
/// temperature driver.
pub fn is_supported_sensor(name: &str) -> (r: bool)
    ensures
        r == supported_sensor(name.spec_bytes()),
{
    let b = name.as_bytes();
    let s = trim_start_index(b, 0, b.len());
    let e = trim_end_index(b, s, b.len());
    assert(b@.subrange(0, b@.len() as int) =~= b@);
    let asusec: [u8; 6] = [97, 115, 117, 115, 101, 99];
    let coretemp: [u8; 8] = [99, 111, 114, 101, 116, 101, 109, 112];
    let k10temp: [u8; 7] = [107, 49, 48, 116, 101, 109, 112];
    let zenpower: [u8; 8] = [122, 101, 110, 112, 111, 119, 101, 114];
    assert(asusec@ =~= seq![97u8, 115, 117, 115, 101, 99]);
    assert(coretemp@ =~= seq![99u8, 111, 114, 101, 116, 101, 109, 112]);
    assert(k10temp@ =~= seq![107u8, 49, 48, 116, 101, 109, 112]);
    assert(zenpower@ =~= seq![122u8, 101, 110, 112, 111, 119, 101, 114]);
    same_bytes(b, s, e, &asusec) || same_bytes(b, s, e, &coretemp) || same_bytes(b, s, e, &k10temp)
        || same_bytes(b, s, e, &zenpower)
}

} // verus!
