//! Third level: field records and the bit-packed value extractor.
//!
//! A `Report` describes one run of input controls frozen at a Main/Input
//! item. Decoding reads `report_count` values of `report_size` bits each
//! from a little-endian bit-packed buffer, starting at the field's bit
//! offset, and classifies each as a boolean, an unsigned or a signed value.

use vstd::arithmetic::div_mod::{lemma_fundamental_div_mod, lemma_fundamental_div_mod_converse};
use vstd::arithmetic::power2::{lemma_pow2_adds, lemma_pow2_strictly_increases, pow2};
use vstd::bits::{lemma_u64_pow2_no_overflow, lemma_u64_shl_is_mul};
use vstd::prelude::*;

use crate::errors::HidError;
use crate::input::{Input, InputValue};

verus! {

/// Bit `i` of a little-endian bit-packed byte stream: bit 0 is the least
/// significant bit of byte 0.
pub open spec fn bit_at(bytes: Seq<u8>, i: int) -> bool {
    if 0 <= i < 8 * bytes.len() {
        ((bytes[i / 8] as u64) >> ((i % 8) as u64)) & 1u64 == 1u64
    } else {
        false
    }
}

/// Bit `j` of a 32-bit value.
pub open spec fn u32_bit(v: u32, j: int) -> bool {
    if 0 <= j < 32 {
        ((v as u64) >> (j as u64)) & 1u64 == 1u64
    } else {
        false
    }
}

/// The `len`-bit value starting at bit `off` of a little-endian bit-packed
/// byte stream.
pub open spec fn extract_bits(bytes: Seq<u8>, off: int, len: nat) -> u32
    recommends
        len <= 32,
    decreases len,
{
    if len == 0 {
        0u32
    } else {
        extract_bits(bytes, off, (len - 1) as nat) | (if bit_at(bytes, off + len - 1) {
            1u32 << ((len - 1) as u32)
        } else {
            0u32
        })
    }
}

/// `extract_bits` equals the low `len` bits of any value whose bits below
/// `len` agree with the stream at `off`.
proof fn lemma_extract_bits_matches(bytes: Seq<u8>, off: int, len: nat, value: u32)
    requires
        len <= 32,
        forall|j: int| 0 <= j < len ==> bit_at(bytes, off + j) == u32_bit(value, j),
    ensures
        extract_bits(bytes, off, len) as u64 == (value as u64) & (((1u64 << (len as u64)) - 1) as u64),
    decreases len,
{
    let vu = value as u64;
    let l = len as u64;
    if len == 0 {
        assert(vu & (((1u64 << 0u64) - 1) as u64) == 0) by (bit_vector);
    } else {
        lemma_extract_bits_matches(bytes, off, (len - 1) as nat, value);
        let prev = extract_bits(bytes, off, (len - 1) as nat);
        let pu = prev as u64;
        let k = (len - 1) as u32;
        let b = bit_at(bytes, off + len - 1);
        assert(b == u32_bit(value, len - 1));
        if b {
            assert(extract_bits(bytes, off, len) == prev | (1u32 << k));
            assert((prev | (1u32 << k)) as u64 == pu | (1u64 << (k as u64))) by (bit_vector)
                requires
                    k < 32,
                    pu == prev as u64,
            ;
            assert(pu | (1u64 << ((l - 1) as u64)) == vu & (((1u64 << l) - 1) as u64)) by (bit_vector)
                requires
                    1 <= l <= 32,
                    pu == vu & (((1u64 << ((l - 1) as u64)) - 1) as u64),
                    (vu >> ((l - 1) as u64)) & 1u64 == 1u64,
            ;
        } else {
            assert(extract_bits(bytes, off, len) == prev | 0u32);
            assert(prev | 0u32 == prev) by (bit_vector);
            assert(pu == vu & (((1u64 << l) - 1) as u64)) by (bit_vector)
                requires
                    1 <= l <= 32,
                    pu == vu & (((1u64 << ((l - 1) as u64)) - 1) as u64),
                    (vu >> ((l - 1) as u64)) & 1u64 != 1u64,
            ;
        }
    }
}

/// Bit-extraction round-trip: extracting `size` bits at `off` from a stream
/// whose bits at `off` spell out `value` little-endian returns `value`.
pub proof fn lemma_extract_round_trip(bytes: Seq<u8>, off: int, size: nat, value: u32)
    requires
        1 <= size <= 32,
        (value as nat) < pow2(size),
        forall|j: int| 0 <= j < size ==> bit_at(bytes, off + j) == u32_bit(value, j),
    ensures
        extract_bits(bytes, off, size) == value,
{
    lemma_extract_bits_matches(bytes, off, size, value);
    let vu = value as u64;
    let su = size as u64;
    lemma_u64_pow2_no_overflow(size);
    lemma_u64_shl_is_mul(1u64, su);
    assert(vu < (1u64 << su) ==> vu & (((1u64 << su) - 1) as u64) == vu) by (bit_vector);
}

/// The extracted value is below two to the number of extracted bits.
pub proof fn lemma_extract_bits_bound(bytes: Seq<u8>, off: int, len: nat)
    requires
        len <= 32,
    ensures
        (extract_bits(bytes, off, len) as nat) < pow2(len),
    decreases len,
{
    lemma_u64_pow2_no_overflow(len);
    lemma_u64_shl_is_mul(1u64, len as u64);
    if len == 0 {
    } else {
        lemma_extract_bits_bound(bytes, off, (len - 1) as nat);
        lemma_u64_pow2_no_overflow((len - 1) as nat);
        lemma_u64_shl_is_mul(1u64, (len - 1) as u64);
        let prev = extract_bits(bytes, off, (len - 1) as nat);
        let pu = prev as u64;
        let l = len as u64;
        let k = (len - 1) as u32;
        if bit_at(bytes, off + len - 1) {
            assert((prev | (1u32 << k)) as u64 == pu | (1u64 << (k as u64))) by (bit_vector)
                requires
                    k < 32,
                    pu == prev as u64,
            ;
            assert(pu < (1u64 << ((l - 1) as u64)) ==> (pu | (1u64 << ((l - 1) as u64))) < (1u64 << l))
                by (bit_vector)
                requires
                    1 <= l <= 32,
            ;
        } else {
            assert(prev | 0u32 == prev) by (bit_vector);
            assert(pu < (1u64 << ((l - 1) as u64)) ==> pu < (1u64 << l)) by (bit_vector)
                requires
                    1 <= l <= 32,
            ;
        }
    }
}

/// Two's-complement reading of a `size`-bit value.
pub open spec fn spec_signed(value: u32, size: nat) -> i32
    recommends
        1 <= size <= 32,
        (value as nat) < pow2(size),
{
    if (value as nat) < pow2((size - 1) as nat) {
        value as i32
    } else {
        (value - pow2(size)) as i32
    }
}

/// The `size`-bit two's-complement encoding of an integer in range.
pub open spec fn spec_two_complement(v: int, size: nat) -> u32
    recommends
        1 <= size <= 32,
        -pow2((size - 1) as nat) <= v < pow2((size - 1) as nat),
{
    if v >= 0 {
        v as u32
    } else {
        (v + pow2(size)) as u32
    }
}

/// Sign-extension round-trip: reading back the `size`-bit two's-complement
/// encoding of any integer the encoding can hold returns that integer.
pub proof fn lemma_signed_round_trip(v: int, size: nat)
    requires
        1 <= size <= 32,
        -pow2((size - 1) as nat) <= v < pow2((size - 1) as nat),
    ensures
        spec_signed(spec_two_complement(v, size), size) == v,
{
    lemma_pow2_adds((size - 1) as nat, 1);
    lemma_pow2_values_small();
    if size < 32 {
        lemma_pow2_strictly_increases(size, 32);
    }
    if ((size - 1) as nat) < 31 {
        lemma_pow2_strictly_increases((size - 1) as nat, 31);
    }
}

/// The powers of two that the sign arithmetic turns on.
proof fn lemma_pow2_values_small()
    ensures
        pow2(0) == 0x1,
        pow2(1) == 0x2,
        pow2(31) == 0x8000_0000,
        pow2(32) == 0x1_0000_0000,
{
    vstd::arithmetic::power2::lemma2_to64();
}

/// The kind of report a field belongs to, with its raw flag word. Only
/// Input reports are supported.
#[derive(Debug, Clone, Copy, PartialEq, Eq, Structural)]
pub enum ReportType {
    Input(u32),
}

/// One run of input controls, frozen at the moment a Main/Input item was
/// processed: the flag word, the qualified usages collected locally, the
/// bounds and sizes from the global table, and the field's starting bit
/// within the report payload.
#[derive(Debug, PartialEq, Eq)]
pub struct Report {
    pub report_type: ReportType,
    pub usages: Vec<(u16, u16)>,
    pub usage_minimum: Option<(u16, u16)>,
    pub usage_maximum: Option<(u16, u16)>,
    pub logical_minimum: i32,
    pub logical_maximum: i32,
    pub physical_minimum: i32,
    pub physical_maximum: i32,
    pub unit: Option<u32>,
    pub unit_exponent: Option<u32>,
    pub bit_offset: usize,
    pub report_id: Option<u8>,
    pub report_size: u32,
    pub report_count: u32,
}

/// The mathematical value of a field record.
pub struct SpecReport {
    pub report_type: ReportType,
    pub usages: Seq<(u16, u16)>,
    pub usage_minimum: Option<(u16, u16)>,
    pub usage_maximum: Option<(u16, u16)>,
    pub logical_minimum: i32,
    pub logical_maximum: i32,
    pub physical_minimum: i32,
    pub physical_maximum: i32,
    pub unit: Option<u32>,
    pub unit_exponent: Option<u32>,
    pub bit_offset: usize,
    pub report_id: Option<u8>,
    pub report_size: u32,
    pub report_count: u32,
}

impl View for Report {
    type V = SpecReport;

    open spec fn view(&self) -> SpecReport {
        SpecReport {
            report_type: self.report_type,
            usages: self.usages@,
            usage_minimum: self.usage_minimum,
            usage_maximum: self.usage_maximum,
            logical_minimum: self.logical_minimum,
            logical_maximum: self.logical_maximum,
            physical_minimum: self.physical_minimum,
            physical_maximum: self.physical_maximum,
            unit: self.unit,
            unit_exponent: self.unit_exponent,
            bit_offset: self.bit_offset,
            report_id: self.report_id,
            report_size: self.report_size,
            report_count: self.report_count,
        }
    }
}

/// The raw flag word of a report type.
pub open spec fn spec_flags(t: ReportType) -> u32 {
    match t {
        ReportType::Input(f) => f,
    }
}

/// Input flag bit 0: the field is constant padding and carries no data.
pub open spec fn spec_flag_constant(flags: u32) -> bool {
    flags & 1u32 == 1u32
}

/// Input flag bit 6: the field has a null state.
pub open spec fn spec_flag_null_state(flags: u32) -> bool {
    flags & 64u32 == 64u32
}

/// The largest bit offset the engine addresses; the word above it is kept
/// free so that the 8-bit Report ID prefix can never push an extraction
/// past 32 bits of offset.
pub open spec fn spec_offset_limit() -> int {
    u32::MAX - 8
}

/// A well-formed field record, as the assembler freezes them: a size of
/// 1 to 32 bits, ordered logical bounds, a bit range that stays within the
/// addressable offsets, and (unless the field is constant) at least one
/// usage or a usage range to draw usages from.
pub open spec fn spec_report_wf(r: SpecReport) -> bool {
    &&& 1 <= r.report_size <= 32
    &&& r.logical_minimum <= r.logical_maximum
    &&& r.bit_offset + r.report_count * r.report_size <= spec_offset_limit()
    &&& (spec_flag_constant(spec_flags(r.report_type)) || r.report_count == 0 || r.usages.len()
        > 0 || r.usage_minimum is Some)
}

/// The usage paired with control `i` of a field: the `i`-th local usage;
/// past those, the usage minimum advanced by `i` and bounded by the usage
/// maximum; with no usage range, the last local usage repeats (HID 1.11
/// section 6.2.2.8).
pub open spec fn spec_usage_at(r: SpecReport, i: int) -> (u16, u16) {
    if 0 <= i < r.usages.len() {
        r.usages[i]
    } else {
        match r.usage_minimum {
            Some((page, u)) => {
                let raw = u + i;
                let capped = match r.usage_maximum {
                    Some((_p, umax)) => if raw <= umax {
                        raw
                    } else {
                        umax as int
                    },
                    None => if raw <= 0xFFFF {
                        raw
                    } else {
                        0xFFFF
                    },
                };
                (page, capped as u16)
            },
            None => if r.usages.len() > 0 {
                r.usages[r.usages.len() - 1]
            } else {
                (0, 0)
            },
        }
    }
}

/// The decoded value of control `i` of a field: `report_size` bits read at
/// the control's offset, classified as Bool for logical bounds (0, 1),
/// unsigned for non-negative bounds, signed otherwise; a control with the
/// null-state flag whose value lies outside the logical bounds is Null.
pub open spec fn spec_input_value(r: SpecReport, bytes: Seq<u8>, base: int, i: int) -> InputValue {
    let raw = extract_bits(bytes, base + r.bit_offset + i * r.report_size, r.report_size as nat);
    let interp: int = if r.logical_minimum < 0 || r.logical_maximum < 0 {
        spec_signed(raw, r.report_size as nat) as int
    } else {
        raw as int
    };
    if spec_flag_null_state(spec_flags(r.report_type)) && !(r.logical_minimum <= interp
        <= r.logical_maximum) {
        InputValue::Null
    } else if r.logical_minimum == 0 && r.logical_maximum == 1 {
        InputValue::Bool(raw != 0)
    } else if r.logical_minimum >= 0 && r.logical_maximum >= 0 {
        InputValue::UInt(raw)
    } else {
        InputValue::Int(spec_signed(raw, r.report_size as nat))
    }
}

/// The decoded controls of one field: one usage/value pair per control.
pub open spec fn spec_report_inputs(r: SpecReport, bytes: Seq<u8>, base: int) -> Seq<Input> {
    Seq::new(
        r.report_count as nat,
        |i: int|
            Input {
                usage: spec_usage_at(r, i),
                value: spec_input_value(r, bytes, base, i),
            },
    )
}

/// Decoding one field against a report buffer whose payload starts at bit
/// `base`: a constant field yields no controls whatever the buffer holds; a
/// buffer too short for the field's bit range is an error.
pub open spec fn spec_parse_report(r: SpecReport, bytes: Seq<u8>, base: int) -> Result<
    Seq<Input>,
    HidError,
> {
    if spec_flag_constant(spec_flags(r.report_type)) {
        Ok(Seq::empty())
    } else if base + r.bit_offset + r.report_count * r.report_size > 8 * bytes.len() {
        Err(HidError::ReportTooShort)
    } else {
        Ok(spec_report_inputs(r, bytes, base))
    }
}

impl Report {
    /// Reads `bit_length` contiguous little-endian bits starting at bit
    /// `bit_offset` of the report buffer.
    pub fn extract_value(report: &[u8], bit_offset: usize, bit_length: u32) -> (r: u32)
        requires
            1 <= bit_length <= 32,
            bit_offset + bit_length <= 8 * report@.len(),
        ensures
            r == extract_bits(report@, bit_offset as int, bit_length as nat),
            (r as nat) < pow2(bit_length as nat),
    {
        let first = bit_offset / 8;
        let shift = bit_offset % 8;
        let avail = shift + (bit_length as usize);

        proof {
            lemma_fundamental_div_mod(bit_offset as int, 8);
            assert(8 * first + shift + bit_length <= 8 * report@.len());
        }

        let b0: u64 = report[first] as u64;
        let b1: u64 = if avail > 8 {
            report[first + 1] as u64
        } else {
            0
        };
        let b2: u64 = if avail > 16 {
            report[first + 2] as u64
        } else {
            0
        };
        let b3: u64 = if avail > 24 {
            report[first + 3] as u64
        } else {
            0
        };
        let b4: u64 = if avail > 32 {
            report[first + 4] as u64
        } else {
            0
        };

        let acc: u64 = b0 | (b1 << 8u64) | (b2 << 16u64) | (b3 << 24u64) | (b4 << 32u64);
        proof {
            lemma_u64_pow2_no_overflow(bit_length as nat);
            lemma_u64_shl_is_mul(1u64, bit_length as u64);
        }
        let mask: u64 = (1u64 << (bit_length as u64)) - 1;
        let wide: u64 = (acc >> (shift as u64)) & mask;
        proof {
            let lenu = bit_length as u64;
            assert(((acc >> (shift as u64)) & ((((1u64 << lenu) - 1)) as u64)) < 0x1_0000_0000)
                by (bit_vector)
                requires
                    1 <= lenu <= 32,
            ;
        }
        let r = wide as u32;

        proof {
            let bytes = report@;
            let off = bit_offset as int;
            let size = bit_length as nat;
            let shiftu = shift as u64;
            let lenu = bit_length as u64;
            assert forall|j: int| 0 <= j < size implies u32_bit(r, j) == bit_at(
                bytes,
                off + j,
            ) by {
                let t = shift + j;
                lemma_fundamental_div_mod(t, 8);
                let k = t / 8;
                let pos = t % 8;
                assert(off + j == 8 * (first + k) + pos);
                lemma_fundamental_div_mod_converse(off + j, 8, first + k, pos);
                let ju = j as u64;
                let posu = pos as u64;
                if k == 0 {
                    assert(((r as u64) >> ju) & 1u64 == (b0 >> posu) & 1u64) by (bit_vector)
                        requires
                            r == (((acc >> shiftu) & (((1u64 << lenu) - 1) as u64))) as u32,
                            acc == b0 | (b1 << 8u64) | (b2 << 16u64) | (b3 << 24u64) | (b4
                                << 32u64),
                            b0 < 0x100,
                            b1 < 0x100,
                            b2 < 0x100,
                            b3 < 0x100,
                            b4 < 0x100,
                            shiftu < 8,
                            1 <= lenu <= 32,
                            ju < lenu,
                            shiftu + ju == posu,
                            posu < 8,
                    ;
                } else if k == 1 {
                    assert(((r as u64) >> ju) & 1u64 == (b1 >> posu) & 1u64) by (bit_vector)
                        requires
                            r == (((acc >> shiftu) & (((1u64 << lenu) - 1) as u64))) as u32,
                            acc == b0 | (b1 << 8u64) | (b2 << 16u64) | (b3 << 24u64) | (b4
                                << 32u64),
                            b0 < 0x100,
                            b1 < 0x100,
                            b2 < 0x100,
                            b3 < 0x100,
                            b4 < 0x100,
                            shiftu < 8,
                            1 <= lenu <= 32,
                            ju < lenu,
                            shiftu + ju == 8 + posu,
                            posu < 8,
                    ;
                } else if k == 2 {
                    assert(((r as u64) >> ju) & 1u64 == (b2 >> posu) & 1u64) by (bit_vector)
                        requires
                            r == (((acc >> shiftu) & (((1u64 << lenu) - 1) as u64))) as u32,
                            acc == b0 | (b1 << 8u64) | (b2 << 16u64) | (b3 << 24u64) | (b4
                                << 32u64),
                            b0 < 0x100,
                            b1 < 0x100,
                            b2 < 0x100,
                            b3 < 0x100,
                            b4 < 0x100,
                            shiftu < 8,
                            1 <= lenu <= 32,
                            ju < lenu,
                            shiftu + ju == 16 + posu,
                            posu < 8,
                    ;
                } else if k == 3 {
                    assert(((r as u64) >> ju) & 1u64 == (b3 >> posu) & 1u64) by (bit_vector)
                        requires
                            r == (((acc >> shiftu) & (((1u64 << lenu) - 1) as u64))) as u32,
                            acc == b0 | (b1 << 8u64) | (b2 << 16u64) | (b3 << 24u64) | (b4
                                << 32u64),
                            b0 < 0x100,
                            b1 < 0x100,
                            b2 < 0x100,
                            b3 < 0x100,
                            b4 < 0x100,
                            shiftu < 8,
                            1 <= lenu <= 32,
                            ju < lenu,
                            shiftu + ju == 24 + posu,
                            posu < 8,
                    ;
                } else {
                    assert(k == 4);
                    assert(((r as u64) >> ju) & 1u64 == (b4 >> posu) & 1u64) by (bit_vector)
                        requires
                            r == (((acc >> shiftu) & (((1u64 << lenu) - 1) as u64))) as u32,
                            acc == b0 | (b1 << 8u64) | (b2 << 16u64) | (b3 << 24u64) | (b4
                                << 32u64),
                            b0 < 0x100,
                            b1 < 0x100,
                            b2 < 0x100,
                            b3 < 0x100,
                            b4 < 0x100,
                            shiftu < 8,
                            1 <= lenu <= 32,
                            ju < lenu,
                            shiftu + ju == 32 + posu,
                            posu < 8,
                    ;
                }
            }
            lemma_extract_bits_matches(bytes, off, size, r);
            assert((r as u64) & (((1u64 << lenu) - 1) as u64) == r as u64) by (bit_vector)
                requires
                    r == (((acc >> shiftu) & (((1u64 << lenu) - 1) as u64))) as u32,
                    1 <= lenu <= 32,
            ;
            lemma_extract_bits_bound(bytes, off, size);
        }
        r
    }

    /// Decodes this field against a report buffer whose payload starts at
    /// bit 0 (a buffer without a Report ID prefix).
    pub fn parse(&self, report: &[u8]) -> (r: Result<Vec<Input>, HidError>)
        requires
            spec_report_wf(self@),
        ensures
            r is Ok <==> spec_parse_report(self@, report@, 0) is Ok,
            r is Ok ==> (r->Ok_0)@ == spec_parse_report(self@, report@, 0)->Ok_0,
            r is Err ==> r->Err_0 == spec_parse_report(self@, report@, 0)->Err_0,
    {
        self.parse_at(report, 0)
    }

    /// Decodes this field against a report buffer whose payload starts at
    /// bit `base`: 8 when the buffer carries a leading Report ID byte,
    /// 0 otherwise.
    pub(crate) fn parse_at(&self, report: &[u8], base: u32) -> (r: Result<Vec<Input>, HidError>)
        requires
            spec_report_wf(self@),
            base == 0 || base == 8,
        ensures
            r is Ok <==> spec_parse_report(self@, report@, base as int) is Ok,
            r is Ok ==> (r->Ok_0)@ == spec_parse_report(self@, report@, base as int)->Ok_0,
            r is Err ==> r->Err_0 == spec_parse_report(self@, report@, base as int)->Err_0,
    {
        let flags = match self.report_type {
            ReportType::Input(f) => f,
        };
        if flags & 1 == 1 {
            let empty: Vec<Input> = Vec::new();
            assert(empty@ =~= spec_parse_report(self@, report@, base as int)->Ok_0);
            return Ok(empty);
        }

        let needed: u64 = base as u64 + self.bit_offset as u64 + (self.report_count as u64)
            * (self.report_size as u64);
        let len64: u64 = report.len() as u64;
        // a buffer of 2^30 bytes or more holds any addressable bit range
        let enough: bool = if len64 >= 0x4000_0000 {
            true
        } else {
            needed <= 8 * len64
        };
        if !enough {
            return Err(HidError::ReportTooShort);
        }
        assert(base + self@.bit_offset + self@.report_count * self@.report_size <= 8 * report@.len());

        let ghost svals = spec_report_inputs(self@, report@, base as int);
        let mut out: Vec<Input> = Vec::new();
        let mut i: u32 = 0;
        while i < self.report_count
            invariant
                spec_report_wf(self@),
                base == 0 || base == 8,
                0 <= i <= self.report_count,
                flags == spec_flags(self@.report_type),
                !spec_flag_constant(spec_flags(self@.report_type)),
                base + self@.bit_offset + self@.report_count * self@.report_size <= 8
                    * report@.len(),
                svals == spec_report_inputs(self@, report@, base as int),
                out@.len() == i,
                forall|k: int| 0 <= k < i ==> out@[k] == svals[k],
            decreases self.report_count - i,
        {
            let usage: (u16, u16) = if (i as usize) < self.usages.len() {
                self.usages[i as usize]
            } else {
                match self.usage_minimum {
                    Some((page, u)) => {
                        let raw_u: u64 = u as u64 + i as u64;
                        let cap: u64 = match self.usage_maximum {
                            Some((_p, umax)) => umax as u64,
                            None => 0xFFFF,
                        };
                        let capped: u64 = if raw_u <= cap {
                            raw_u
                        } else {
                            cap
                        };
                        (page, capped as u16)
                    },
                    None => self.usages[self.usages.len() - 1],
                }
            };
            assert(usage == spec_usage_at(self@, i as int));

            proof {
                vstd::arithmetic::mul::lemma_mul_inequality(
                    i as int + 1,
                    self.report_count as int,
                    self.report_size as int,
                );
                assert((i as int + 1) * (self.report_size as int) == i as int * (
                self.report_size as int) + (self.report_size as int)) by (nonlinear_arith);
            }
            let offset_bits: u64 = base as u64 + self.bit_offset as u64 + (i as u64)
                * (self.report_size as u64);
            let raw = Self::extract_value(report, offset_bits as usize, self.report_size);

            let signed_needed = self.logical_minimum < 0 || self.logical_maximum < 0;
            let sval: i32 = if signed_needed {
                Self::signed(raw, self.report_size)
            } else {
                0
            };
            let interp: i64 = if signed_needed {
                sval as i64
            } else {
                raw as i64
            };
            let value: InputValue = if (flags & 64) == 64 && (interp < self.logical_minimum as i64
                || interp > self.logical_maximum as i64) {
                InputValue::Null
            } else if self.logical_minimum == 0 && self.logical_maximum == 1 {
                InputValue::Bool(raw != 0)
            } else if self.logical_minimum >= 0 && self.logical_maximum >= 0 {
                InputValue::UInt(raw)
            } else {
                InputValue::Int(sval)
            };
            assert(value == spec_input_value(self@, report@, base as int, i as int));

            out.push(Input { usage, value });
            i = i + 1;
        }
        assert(out@ =~= svals);
        Ok(out)
    }

    /// Sign-extends the low `length` bits of `value`: the two's-complement
    /// reading of a `length`-bit value.
    pub fn signed(value: u32, length: u32) -> (r: i32)
        requires
            1 <= length <= 32,
            (value as nat) < pow2(length as nat),
        ensures
            r == spec_signed(value, length as nat),
    {
        proof {
            lemma_u64_pow2_no_overflow((length - 1) as nat);
            lemma_u64_shl_is_mul(1u64, (length - 1) as u64);
            lemma_u64_pow2_no_overflow(length as nat);
            lemma_u64_shl_is_mul(1u64, length as u64);
            lemma_pow2_adds((length - 1) as nat, 1);
            lemma_pow2_values_small();
            if ((length - 1) as nat) < 31 {
                lemma_pow2_strictly_increases((length - 1) as nat, 31);
            }
        }
        let half: u64 = 1u64 << ((length - 1) as u64);
        if (value as u64) < half {
            value as i32
        } else {
            let sv: i64 = (value as i64) - ((1u64 << (length as u64)) as i64);
            sv as i32
        }
    }
}

} // verus!
