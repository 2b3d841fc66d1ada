//! The status packet of the AK400 DIGITAL PRO display and the per-cycle
//! encoding of a sample into it.
//!
//! Layout of the 64-byte packet: bytes 0..8 hold the fixed header, 8..10 the
//! power in watts (big-endian), 10 the unit flag (0 Celsius, 1 Fahrenheit),
//! 11..15 the temperature as a big-endian IEEE-754 single, 15 the usage in
//! percent, 16 the checksum, 17 the terminator; the rest is zero.

use vstd::prelude::*;
use vstd::arithmetic::power2::{pow2, lemma2_to64, lemma_pow2_unfold};
use vstd::string::*;
use crate::cpu::{clamp_percent, power_of, temperature_from_text, Cpu};

verus! {

/// Length of the status packet in bytes.
pub const PACKET_LEN: usize = 64;

/// Byte that closes the payload.
pub const TERMINATOR: u8 = 22;

/// Temperatures at which the device itself warns and alarms, in degrees.
pub const TEMP_WARNING_C: u8 = 80;
pub const TEMP_WARNING_F: u8 = 176;
pub const TEMP_LIMIT_C: u8 = 90;
pub const TEMP_LIMIT_F: u8 = 194;

/// The fixed leading bytes that identify the device and the command.
pub open spec fn header() -> Seq<u8> {
    seq![16u8, 104, 1, 2, 11, 1, 2, 5]
}

/// The packet template: the header followed by zeros.
pub open spec fn template() -> Seq<u8> {
    header() + Seq::new(56, |i: int| 0u8)
}

/// The sum of the bytes of `s`.
pub open spec fn byte_sum(s: Seq<u8>) -> nat
    decreases s.len(),
{
    if s.len() == 0 {
        0
    } else {
        byte_sum(s.drop_last()) + s.last() as nat
    }
}

/// The checksum of a packet: the sum of bytes 1 to 15, modulo 256.
pub open spec fn checksum_of(p: Seq<u8>) -> u8 {
    (byte_sum(p.subrange(1, 16)) % 256) as u8
}

/// How many places `m` is shifted left until bit 23 is its highest set bit.
pub open spec fn shift_count(m: nat) -> nat
    decreases 0x100_0000 - m,
{
    if m == 0 || m >= 0x80_0000 {
        0
    } else {
        1 + shift_count(2 * m)
    }
}

/// The IEEE-754 single-precision bit pattern of a non-negative integer below
/// 2^24: the value is normalised so that its leading one sits at bit 23; the
/// biased exponent is 127 + 23 minus the shift, and the low 23 bits of the
/// normalised value are the fraction.
pub open spec fn f32_bits_of(n: nat) -> nat {
    if n == 0 {
        0
    } else {
        let s = shift_count(n);
        ((150 - s) * 0x80_0000 + (n * pow2(s) - 0x80_0000)) as nat
    }
}

/// The big-endian bytes of a 32-bit value.
pub open spec fn be_bytes_u32(v: nat) -> Seq<u8> {
    seq![(v / 0x100_0000 % 256) as u8, (v / 0x1_0000 % 256) as u8, (v / 256 % 256) as u8, (v % 256) as u8]
}

/// The packet with the sample's fields written over `base`, before the
/// checksum and terminator.
pub open spec fn payload_of(base: Seq<u8>, power: u16, fahrenheit: bool, temp: u8, usage: u8) -> Seq<u8> {
    let t = be_bytes_u32(f32_bits_of(temp as nat));
    base.update(8, (power / 256) as u8).update(9, (power % 256) as u8).update(
        10,
        if fahrenheit {
            1u8
        } else {
            0u8
        },
    ).update(11, t[0]).update(12, t[1]).update(13, t[2]).update(14, t[3]).update(15, usage)
}

/// The complete packet for a sample written over `base`.
pub open spec fn packet_of(base: Seq<u8>, power: u16, fahrenheit: bool, temp: u8, usage: u8) -> Seq<u8> {
    let p = payload_of(base, power, fahrenheit, temp, usage);
    p.update(16, checksum_of(p)).update(17, TERMINATOR)
}

/// The checksum depends on bytes 1 to 15 alone: two packets that agree there
/// have the same checksum, whatever their other bytes hold.
pub proof fn lemma_checksum_reads_only_payload(a: Seq<u8>, b: Seq<u8>)
    requires
        a.len() == PACKET_LEN,
        b.len() == PACKET_LEN,
        forall|i: int| 1 <= i <= 15 ==> a[i] == b[i],
    ensures
        checksum_of(a) == checksum_of(b),
{
    assert(a.subrange(1, 16) =~= b.subrange(1, 16));
}

/// The encoded packet carries its own checksum: byte 16 is the sum of bytes
/// 1 to 15 of the packet itself, modulo 256, and byte 17 is the terminator.
pub proof fn lemma_packet_checksum(base: Seq<u8>, power: u16, fahrenheit: bool, temp: u8, usage: u8)
    requires
        base.len() == PACKET_LEN,
    ensures
        ({
            let p = packet_of(base, power, fahrenheit, temp, usage);
            &&& p.len() == PACKET_LEN
            &&& p[16] == checksum_of(p)
            &&& p[16] == byte_sum(p.subrange(1, 16)) % 256
            &&& p[17] == TERMINATOR
        }),
{
    let q = payload_of(base, power, fahrenheit, temp, usage);
    let p = packet_of(base, power, fahrenheit, temp, usage);
    assert(p.subrange(1, 16) =~= q.subrange(1, 16));
}

/// A fresh packet template: the header, then zeros.
pub fn header_template() -> (r: Vec<u8>)
    ensures
        r@ == template(),
{
    let mut d: Vec<u8> = Vec::new();
    let head: [u8; 8] = [16, 104, 1, 2, 11, 1, 2, 5];
    assert(head@ =~= header());
    let mut i: usize = 0;
    while i < PACKET_LEN
        invariant
            i <= PACKET_LEN,
            d@.len() == i,
            head@ == header(),
            forall|k: int| 0 <= k < i ==> d@[k] == #[trigger] template()[k],
        decreases PACKET_LEN - i,
    {
        assert(template()[i as int] == if i < 8 {
            head@[i as int]
        } else {
            0u8
        });
        if i < 8 {
            d.push(head[i]);
        } else {
            d.push(0);
        }
        i = i + 1;
    }
    assert(d@ =~= template());
    d
}

/// The checksum of a packet: the sum of bytes 1 to 15, modulo 256.
pub fn checksum(p: &[u8]) -> (r: u8)
    requires
        p@.len() >= 16,
    ensures
        r == checksum_of(p@),
{
    let mut acc: u32 = 0;
    let mut i: usize = 1;
    while i < 16
        invariant
            1 <= i <= 16 <= p@.len(),
            acc == byte_sum(p@.subrange(1, i as int)),
            acc <= 255 * (i - 1),
        decreases 16 - i,
    {
        assert(p@.subrange(1, i + 1).drop_last() =~= p@.subrange(1, i as int));
        acc = acc + p[i] as u32;
        i = i + 1;
    }
    (acc % 256) as u8
}

/// The IEEE-754 single-precision bit pattern of `n`, that is of `n as f32`.
pub fn float_bits(n: u8) -> (r: u32)
    ensures
        r == f32_bits_of(n as nat),
{
    if n == 0 {
        return 0;
    }
    let mut mant: u32 = n as u32;
    let mut sh: u32 = 0;
    proof {
        lemma2_to64();
    }
    while mant < 0x80_0000
        invariant
            0 < mant < 0x100_0000,
            mant == n * pow2(sh as nat),
            pow2(sh as nat) <= mant,
            shift_count(mant as nat) + sh == shift_count(n as nat),
            pow2(23) == 0x80_0000,
            sh <= 23,
        decreases 0x100_0000 - mant,
    {
        proof {
            lemma_pow2_unfold((sh + 1) as nat);
        }
        assert(n * pow2((sh + 1) as nat) == 2 * (n * pow2(sh as nat))) by (nonlinear_arith)
            requires pow2((sh + 1) as nat) == 2 * pow2(sh as nat);
        mant = mant * 2;
        sh = sh + 1;
    }
    (150 - sh) * 0x80_0000 + (mant - 0x80_0000)
}

/// Writes the sample's fields, the checksum and the terminator over a copy of
/// `base`.
pub fn encode_packet(base: &[u8], power: u16, fahrenheit: bool, temp: u8, usage: u8) -> (r: Vec<u8>)
    requires
        base@.len() == PACKET_LEN,
    ensures
        r@ == packet_of(base@, power, fahrenheit, temp, usage),
{
    let mut p: Vec<u8> = Vec::new();
    let mut i: usize = 0;
    while i < PACKET_LEN
        invariant
            i <= PACKET_LEN == base@.len(),
            p@ =~= base@.subrange(0, i as int),
        decreases PACKET_LEN - i,
    {
        p.push(base[i]);
        i = i + 1;
    }
    let bits = float_bits(temp);
    p.set(8, (power / 256) as u8);
    p.set(9, (power % 256) as u8);
    p.set(10, if fahrenheit { 1 } else { 0 });
    p.set(11, (bits / 0x100_0000 % 256) as u8);
    p.set(12, (bits / 0x1_0000 % 256) as u8);
    p.set(13, (bits / 256 % 256) as u8);
    p.set(14, (bits % 256) as u8);
    p.set(15, usage);
    assert(p@ =~= payload_of(base@, power, fahrenheit, temp, usage));
    let c = checksum(p.as_slice());
    p.set(16, c);
    p.set(17, TERMINATOR);
    assert(p@ =~= packet_of(base@, power, fahrenheit, temp, usage));
    p
}

/// The display session: the sampler, the update interval, the unit, and the
/// packet template computed once for the session.
pub struct Display {
    cpu: Cpu,
    update_ms: u64,
    fahrenheit: bool,
    base: Vec<u8>,
}

impl Display {
    /// The session's packet template is the header followed by zeros.
    pub closed spec fn wf(&self) -> bool {
        self.base@ == template()
    }

    pub closed spec fn sampler(&self) -> Cpu {
        self.cpu
    }

    /// The update interval in milliseconds.
    pub closed spec fn interval(&self) -> nat {
        self.update_ms as nat
    }

    pub closed spec fn in_fahrenheit(&self) -> bool {
        self.fahrenheit
    }

    /// The packet that a cycle sends: power from the baseline and current
    /// energy readings over the interval, the temperature from the sensor
    /// reading, and the clamped usage.
    pub open spec fn cycle_packet(
        &self,
        initial_energy: u64,
        current_energy: u64,
        temp_reading: Option<&str>,
        non_idle_percent: i64,
    ) -> Seq<u8> {
        packet_of(
            template(),
            power_of(
                self.sampler().energy_range(),
                initial_energy as nat,
                current_energy as nat,
                self.interval(),
            ),
            self.in_fahrenheit(),
            self.sampler().temp_of(temp_reading, self.in_fahrenheit()),
            clamp_percent(non_idle_percent as int),
        )
    }

    /// Opens a session that samples `cpu` every `update_ms` milliseconds and
    /// shows the temperature in Fahrenheit if `fahrenheit` is set.
    pub fn new(cpu: Cpu, update_ms: u64, fahrenheit: bool) -> (r: Self)
        ensures
            r.wf(),
            r.sampler() == cpu,
            r.interval() == update_ms,
            r.in_fahrenheit() == fahrenheit,
    {
        Display { cpu, update_ms, fahrenheit, base: header_template() }
    }

    pub fn cpu(&self) -> (r: &Cpu)
        ensures
            *r == self.sampler(),
    {
        &self.cpu
    }

    pub fn update_ms(&self) -> (r: u64)
        ensures
            r == self.interval(),
    {
        self.update_ms
    }

    pub fn fahrenheit(&self) -> (r: bool)
        ensures
            r == self.in_fahrenheit(),
    {
        self.fahrenheit
    }

    /// The packet of one cycle. `initial_energy` is the energy counter read
    /// before the interval, `current_energy` the one read after it,
    /// `temp_reading` the text of the sensor file (`None` where it could not be
    /// read), and `non_idle_percent` the rounded non-idle share of the interval.
    pub fn status_packet(
        &self,
        initial_energy: u64,
        current_energy: u64,
        temp_reading: Option<&str>,
        non_idle_percent: i64,
    ) -> (r: Vec<u8>)
        requires
            self.wf(),
        ensures
            r@ == self.cycle_packet(initial_energy, current_energy, temp_reading, non_idle_percent),
    {
        let power = self.cpu.get_power(initial_energy, self.update_ms, current_energy);
        let temp = self.cpu.get_temp(temp_reading, self.fahrenheit);
        let usage = self.cpu.get_usage(non_idle_percent);
        encode_packet(self.base.as_slice(), power, self.fahrenheit, temp, usage)
    }
}

} // verus!
