//! First level: tokenizing the descriptor byte stream into short items.
//!
//! Each item is headed by one byte: the low two bits give a size code
//! (0, 1, 2 or 4 data bytes), bits 2-3 the item class, bits 4-7 the tag.
//! The data bytes form a little-endian unsigned payload. Only short items
//! are supported; a long-item header is rejected.

use vstd::prelude::*;

use crate::errors::HidError;

verus! {

/// The header byte that introduces a long item (not supported).
pub const LONG_ITEM_HEADER: u8 = 0b1111_1110;

/// Number of data bytes a short-item header announces: size codes 0, 1, 2
/// and 3 map to 0, 1, 2 and 4 bytes.
pub open spec fn spec_item_size(header: u8) -> nat {
    if header & 0b11 == 3 {
        4
    } else {
        (header & 0b11) as nat
    }
}

/// The item class encoded in bits 2-3 of the header: 0 = Main, 1 = Global,
/// 2 = Local, 3 = Reserved.
pub open spec fn spec_item_class(header: u8) -> u8 {
    (header & 0b1100) >> 2
}

/// The item tag encoded in bits 4-7 of the header.
pub open spec fn spec_item_tag(header: u8) -> u8 {
    (header & 0b1111_0000) >> 4
}

/// The byte at index `i` of a payload, or 0 past its end.
pub open spec fn spec_byte_or_zero(s: Seq<u8>, i: int) -> int {
    if 0 <= i < s.len() {
        s[i] as int
    } else {
        0
    }
}

/// Little-endian value of a payload of at most four bytes.
pub open spec fn spec_le_data(s: Seq<u8>) -> u32
    recommends
        s.len() <= 4,
{
    (spec_byte_or_zero(s, 0) + spec_byte_or_zero(s, 1) * 0x100 + spec_byte_or_zero(s, 2) * 0x1_0000
        + spec_byte_or_zero(s, 3) * 0x100_0000) as u32
}

/// One tokenized short item before classification: the header byte and the
/// decoded little-endian payload.
#[derive(Debug, Clone, Copy, PartialEq, Eq, Structural)]
pub struct RawItem {
    pub header: u8,
    pub data: u32,
}

/// The bytes one item occupies in the descriptor: its header byte plus its
/// data bytes.
pub open spec fn spec_encoded_len(item: RawItem) -> int {
    1 + spec_item_size(item.header) as int
}

/// One tokenizer step at byte offset `off`: `Ok(None)` at the end of the
/// stream, the item otherwise, or a lexical error.
pub open spec fn spec_next_item(bytes: Seq<u8>, off: int) -> Result<Option<RawItem>, HidError> {
    if off >= bytes.len() {
        Ok(None)
    } else if bytes[off] == LONG_ITEM_HEADER {
        Err(HidError::UnsupportedLongItem)
    } else if off + 1 + spec_item_size(bytes[off]) > bytes.len() {
        Err(HidError::TruncatedItem)
    } else {
        Ok(
            Some(
                RawItem {
                    header: bytes[off],
                    data: spec_le_data(
                        bytes.subrange(off + 1, off + 1 + spec_item_size(bytes[off])),
                    ),
                },
            ),
        )
    }
}

/// The whole item sequence from byte offset `off` on, or the first lexical
/// error.
pub open spec fn spec_tokenize_from(bytes: Seq<u8>, off: int) -> Result<Seq<RawItem>, HidError>
    decreases bytes.len() - off,
{
    match spec_next_item(bytes, off) {
        Ok(None) => Ok(Seq::empty()),
        Err(e) => Err(e),
        Ok(Some(item)) => if off < bytes.len() {
            match spec_tokenize_from(bytes, off + spec_encoded_len(item)) {
                Ok(rest) => Ok(seq![item] + rest),
                Err(e) => Err(e),
            }
        } else {
            Ok(Seq::empty())  // unreachable: a step past the end yields Ok(None)
        },
    }
}

/// The item sequence of a whole descriptor.
pub open spec fn spec_tokenize(bytes: Seq<u8>) -> Result<Seq<RawItem>, HidError> {
    spec_tokenize_from(bytes, 0)
}

/// Sum of the encoded lengths of a sequence of items.
pub open spec fn spec_total_encoded_len(items: Seq<RawItem>) -> int
    decreases items.len(),
{
    if items.len() == 0 {
        0
    } else {
        spec_encoded_len(items[0]) + spec_total_encoded_len(items.drop_first())
    }
}

proof fn lemma_tokenize_from_total(bytes: Seq<u8>, off: int)
    requires
        0 <= off <= bytes.len(),
        spec_tokenize_from(bytes, off) is Ok,
    ensures
        spec_total_encoded_len(spec_tokenize_from(bytes, off)->Ok_0) == bytes.len() - off,
    decreases bytes.len() - off,
{
    match spec_next_item(bytes, off) {
        Ok(None) => {},
        Err(_) => {},
        Ok(Some(item)) => {
            lemma_tokenize_from_total(bytes, off + spec_encoded_len(item));
            let rest = spec_tokenize_from(bytes, off + spec_encoded_len(item))->Ok_0;
            let all = seq![item] + rest;
            assert(all[0] == item);
            assert(all.drop_first() =~= rest);
        },
    }
}

/// Tokenizer totality: when a descriptor tokenizes to a sequence of items,
/// their encoded lengths sum to the length of the descriptor.
pub proof fn lemma_tokenize_total(bytes: Seq<u8>)
    requires
        spec_tokenize(bytes) is Ok,
    ensures
        spec_total_encoded_len(spec_tokenize(bytes)->Ok_0) == bytes.len(),
{
    lemma_tokenize_from_total(bytes, 0);
}

// ---------------------------------------------------------------------------
// Classified items
// ---------------------------------------------------------------------------

/// A classified short item.
#[derive(Debug, Clone, Copy, PartialEq, Eq, Structural)]
pub enum BasicItem {
    Main(MainItem),
    Global(GlobalItem),
    Local(LocalItem),
    Reserved,
}

/// A Main item: the items that consume the state tables.
#[derive(Debug, Clone, Copy, PartialEq, Eq, Structural)]
pub enum MainItem {
    Input(InputItemData),
    Output(OutputItemData),
    Feature(FeatureItemData),
    Collection(Collection),
    EndCollection,
    Reserved,
}

/// The 32-bit flag word of an Input item.
#[derive(Debug, Clone, Copy, PartialEq, Eq, Structural)]
pub struct InputItemData {
    pub data: u32,
}

impl InputItemData {
    /// Bit 0 clear: the controls carry data.
    pub fn data(&self) -> (r: bool)
        ensures
            r == (self.data & 1 == 0),
    {
        self.data & 1 == 0
    }

    /// Bit 0 set: the field is constant padding.
    pub fn constant(&self) -> (r: bool)
        ensures
            r == (self.data & 1 != 0),
    {
        !self.data()
    }

    /// Bit 1 clear: the controls form an array.
    pub fn array(&self) -> (r: bool)
        ensures
            r == (self.data & 2 == 0),
    {
        self.data & 2 == 0
    }

    /// Bit 1 set: each control is a variable.
    pub fn variable(&self) -> (r: bool)
        ensures
            r == (self.data & 2 != 0),
    {
        !self.array()
    }

    /// Bit 2 clear: values are absolute.
    pub fn absolute(&self) -> (r: bool)
        ensures
            r == (self.data & 4 == 0),
    {
        self.data & 4 == 0
    }

    /// Bit 2 set: values are relative to the previous report.
    pub fn relative(&self) -> (r: bool)
        ensures
            r == (self.data & 4 != 0),
    {
        !self.absolute()
    }

    /// Bit 3 clear: values do not wrap at the bounds.
    pub fn no_wrap(&self) -> (r: bool)
        ensures
            r == (self.data & 8 == 0),
    {
        self.data & 8 == 0
    }

    /// Bit 3 set: values wrap around at the bounds.
    pub fn wrap(&self) -> (r: bool)
        ensures
            r == (self.data & 8 != 0),
    {
        !self.no_wrap()
    }

    /// Bit 4 clear: the scaling is linear.
    pub fn linear(&self) -> (r: bool)
        ensures
            r == (self.data & 16 == 0),
    {
        self.data & 16 == 0
    }

    /// Bit 4 set: the scaling is not linear.
    pub fn non_linear(&self) -> (r: bool)
        ensures
            r == (self.data & 16 != 0),
    {
        !self.linear()
    }

    /// Bit 5 clear: the control has a preferred state.
    pub fn preferred(&self) -> (r: bool)
        ensures
            r == (self.data & 32 == 0),
    {
        self.data & 32 == 0
    }

    /// Bit 5 set: the control has no preferred state.
    pub fn no_preferred(&self) -> (r: bool)
        ensures
            r == (self.data & 32 != 0),
    {
        !self.preferred()
    }

    /// Bit 6 clear: the control has no null position.
    pub fn no_null(&self) -> (r: bool)
        ensures
            r == (self.data & 64 == 0),
    {
        self.data & 64 == 0
    }

    /// Bit 6 set: the control has a null state.
    pub fn null(&self) -> (r: bool)
        ensures
            r == (self.data & 64 != 0),
    {
        !self.no_null()
    }

    /// Bit 8 clear: the field is a bit field.
    pub fn bit_field(&self) -> (r: bool)
        ensures
            r == (self.data & 256 == 0),
    {
        self.data & 256 == 0
    }

    /// Bit 8 set: the field holds buffered bytes.
    pub fn buffered_bytes(&self) -> (r: bool)
        ensures
            r == (self.data & 256 != 0),
    {
        !self.bit_field()
    }
}

/// The 32-bit flag word of an Output item (not interpreted further).
#[derive(Debug, Clone, Copy, PartialEq, Eq, Structural)]
pub struct OutputItemData {
    pub data: u32,
}

/// The 32-bit flag word of a Feature item (not interpreted further).
#[derive(Debug, Clone, Copy, PartialEq, Eq, Structural)]
pub struct FeatureItemData {
    pub data: u32,
}

/// The type of a collection, from the data byte of a Collection item.
#[derive(Debug, Clone, Copy, PartialEq, Eq, Structural)]
pub enum Collection {
    Physical,
    Application,
    Logical,
    Report,
    NamedArray,
    UsageSwitch,
    UsageModifier,
    Reserved,
    Vendor(u8),
}

/// A Global item: an entry of the global state table.
#[derive(Debug, Clone, Copy, PartialEq, Eq, Structural)]
pub enum GlobalItem {
    UsagePage(u16),
    LogicalMinimum(i32),
    LogicalMaximum(i32),
    PhysicalMinimum(i32),
    PhysicalMaximum(i32),
    UnitExponent(u32),
    Unit(u32),
    ReportSize(u32),
    ReportID(u8),
    ReportCount(u32),
    Push,
    Pop,
    Reserved,
}

/// A Local item: an entry of the local state table. The extended forms
/// carry their own usage page in the high 16 data bits.
#[derive(Debug, Clone, Copy, PartialEq, Eq, Structural)]
pub enum LocalItem {
    Usage(u16),
    UsageMinimum(u16),
    UsageMaximum(u16),
    ExtendedUsage(u16, u16),
    ExtendedUsageMinimum(u16, u16),
    ExtendedUsageMaximum(u16, u16),
    DesignatorIndex(u32),
    DesignatorMinimum(u32),
    DesignatorMaximum(u32),
    StringIndex(u32),
    StringMinimum(u32),
    StringMaximum(u32),
    /// true opens a delimited set, false closes it.
    Delimiter(bool),
    Reserved,
}

/// The collection type encoded in the data byte of a Collection item:
/// 0-6 are the named types, 7 to 0x7F are reserved, 0x80 to 0xFF vendor.
pub open spec fn spec_collection_type(data: u8) -> Collection {
    if data == 0 {
        Collection::Physical
    } else if data == 1 {
        Collection::Application
    } else if data == 2 {
        Collection::Logical
    } else if data == 3 {
        Collection::Report
    } else if data == 4 {
        Collection::NamedArray
    } else if data == 5 {
        Collection::UsageSwitch
    } else if data == 6 {
        Collection::UsageModifier
    } else if data <= 0x7F {
        Collection::Reserved
    } else {
        Collection::Vendor(data)
    }
}

/// Sign extension of a little-endian payload of `size` bytes: signed Global
/// entries are two's-complement values of their item size (HID 1.11
/// section 6.2.2.7).
pub open spec fn spec_sign_extend(data: u32, size: nat) -> i32 {
    if size == 1 {
        (data as u8) as i8 as i32
    } else if size == 2 {
        (data as u16) as i16 as i32
    } else {
        data as i32
    }
}

/// Classification of a Main item from its tag and data.
pub open spec fn spec_main_item(tag: u8, data: u32) -> MainItem {
    if tag == 0b1000 {
        MainItem::Input(InputItemData { data })
    } else if tag == 0b1001 {
        MainItem::Output(OutputItemData { data })
    } else if tag == 0b1011 {
        MainItem::Feature(FeatureItemData { data })
    } else if tag == 0b1010 {
        MainItem::Collection(spec_collection_type(data as u8))
    } else if tag == 0b1100 {
        MainItem::EndCollection
    } else {
        MainItem::Reserved
    }
}

/// Classification of a Global item from its tag, data and item size.
pub open spec fn spec_global_item(tag: u8, data: u32, size: nat) -> GlobalItem {
    if tag == 0 {
        GlobalItem::UsagePage(data as u16)
    } else if tag == 1 {
        GlobalItem::LogicalMinimum(spec_sign_extend(data, size))
    } else if tag == 2 {
        GlobalItem::LogicalMaximum(spec_sign_extend(data, size))
    } else if tag == 3 {
        GlobalItem::PhysicalMinimum(spec_sign_extend(data, size))
    } else if tag == 4 {
        GlobalItem::PhysicalMaximum(spec_sign_extend(data, size))
    } else if tag == 5 {
        GlobalItem::UnitExponent(data)
    } else if tag == 6 {
        GlobalItem::Unit(data)
    } else if tag == 7 {
        GlobalItem::ReportSize(data)
    } else if tag == 8 {
        GlobalItem::ReportID(data as u8)
    } else if tag == 9 {
        GlobalItem::ReportCount(data)
    } else if tag == 10 {
        GlobalItem::Push
    } else if tag == 11 {
        GlobalItem::Pop
    } else {
        GlobalItem::Reserved
    }
}

/// Classification of a Local item from its tag, data and item size: a
/// four-byte usage is the extended, usage-page-qualified form.
pub open spec fn spec_local_item(tag: u8, data: u32, size: nat) -> LocalItem {
    if tag == 0 && (size == 1 || size == 2) {
        LocalItem::Usage(data as u16)
    } else if tag == 0 && size == 4 {
        LocalItem::ExtendedUsage((data >> 16) as u16, (data & 0xFFFF) as u16)
    } else if tag == 1 && (size == 1 || size == 2) {
        LocalItem::UsageMinimum(data as u16)
    } else if tag == 1 && size == 4 {
        LocalItem::ExtendedUsageMinimum((data >> 16) as u16, (data & 0xFFFF) as u16)
    } else if tag == 2 && (size == 1 || size == 2) {
        LocalItem::UsageMaximum(data as u16)
    } else if tag == 2 && size == 4 {
        LocalItem::ExtendedUsageMaximum((data >> 16) as u16, (data & 0xFFFF) as u16)
    } else if tag == 3 {
        LocalItem::DesignatorIndex(data)
    } else if tag == 4 {
        LocalItem::DesignatorMinimum(data)
    } else if tag == 5 {
        LocalItem::DesignatorMaximum(data)
    } else if tag == 6 {
        LocalItem::StringIndex(data)
    } else if tag == 7 {
        LocalItem::StringMinimum(data)
    } else if tag == 8 {
        LocalItem::StringMaximum(data)
    } else if tag == 9 {
        LocalItem::Delimiter(data != 0)
    } else {
        LocalItem::Reserved
    }
}

/// Classification of any short item from its class, tag, data and size.
pub open spec fn spec_basic_item(class: u8, tag: u8, data: u32, size: nat) -> BasicItem {
    if class == 0 {
        BasicItem::Main(spec_main_item(tag, data))
    } else if class == 1 {
        BasicItem::Global(spec_global_item(tag, data, size))
    } else if class == 2 {
        BasicItem::Local(spec_local_item(tag, data, size))
    } else {
        BasicItem::Reserved
    }
}

/// Classification of a tokenized item.
pub open spec fn spec_classify(item: RawItem) -> BasicItem {
    spec_basic_item(
        spec_item_class(item.header),
        spec_item_tag(item.header),
        item.data,
        spec_item_size(item.header),
    )
}

impl Collection {
    /// The collection type for a Collection item's data byte.
    pub fn new(data: u8) -> (r: Self)
        ensures
            r == spec_collection_type(data),
    {
        if data == 0 {
            Self::Physical
        } else if data == 1 {
            Self::Application
        } else if data == 2 {
            Self::Logical
        } else if data == 3 {
            Self::Report
        } else if data == 4 {
            Self::NamedArray
        } else if data == 5 {
            Self::UsageSwitch
        } else if data == 6 {
            Self::UsageModifier
        } else if data <= 0x7F {
            Self::Reserved
        } else {
            Self::Vendor(data)
        }
    }
}

impl MainItem {
    /// Classifies a Main item from its tag and data.
    pub fn new(tag: u8, data: u32) -> (r: Self)
        ensures
            r == spec_main_item(tag, data),
    {
        match tag {
            0b1000 => Self::Input(InputItemData { data }),
            0b1001 => Self::Output(OutputItemData { data }),
            0b1011 => Self::Feature(FeatureItemData { data }),
            0b1010 => Self::Collection(Collection::new(data as u8)),
            0b1100 => Self::EndCollection,
            _ => Self::Reserved,
        }
    }
}

/// Sign-extends a little-endian payload of `size` bytes.
fn sign_extend(data: u32, size: usize) -> (r: i32)
    ensures
        r == spec_sign_extend(data, size as nat),
{
    if size == 1 {
        (data as u8) as i8 as i32
    } else if size == 2 {
        (data as u16) as i16 as i32
    } else {
        data as i32
    }
}

impl GlobalItem {
    /// Classifies a Global item from its tag, data and item size; signed
    /// entries are sign-extended against the item size.
    pub fn new(tag: u8, data: u32, size: usize) -> (r: Self)
        ensures
            r == spec_global_item(tag, data, size as nat),
    {
        match tag {
            0 => Self::UsagePage(data as u16),
            1 => Self::LogicalMinimum(sign_extend(data, size)),
            2 => Self::LogicalMaximum(sign_extend(data, size)),
            3 => Self::PhysicalMinimum(sign_extend(data, size)),
            4 => Self::PhysicalMaximum(sign_extend(data, size)),
            5 => Self::UnitExponent(data),
            6 => Self::Unit(data),
            7 => Self::ReportSize(data),
            8 => Self::ReportID(data as u8),
            9 => Self::ReportCount(data),
            10 => Self::Push,
            11 => Self::Pop,
            _ => Self::Reserved,
        }
    }
}

impl LocalItem {
    /// Classifies a Local item from its tag, data and item size.
    pub fn new(tag: u8, data: u32, size: usize) -> (r: Self)
        ensures
            r == spec_local_item(tag, data, size as nat),
    {
        if tag == 0 && (size == 1 || size == 2) {
            Self::Usage(data as u16)
        } else if tag == 0 && size == 4 {
            Self::ExtendedUsage((data >> 16u32) as u16, (data & 0xFFFF) as u16)
        } else if tag == 1 && (size == 1 || size == 2) {
            Self::UsageMinimum(data as u16)
        } else if tag == 1 && size == 4 {
            Self::ExtendedUsageMinimum((data >> 16u32) as u16, (data & 0xFFFF) as u16)
        } else if tag == 2 && (size == 1 || size == 2) {
            Self::UsageMaximum(data as u16)
        } else if tag == 2 && size == 4 {
            Self::ExtendedUsageMaximum((data >> 16u32) as u16, (data & 0xFFFF) as u16)
        } else if tag == 3 {
            Self::DesignatorIndex(data)
        } else if tag == 4 {
            Self::DesignatorMinimum(data)
        } else if tag == 5 {
            Self::DesignatorMaximum(data)
        } else if tag == 6 {
            Self::StringIndex(data)
        } else if tag == 7 {
            Self::StringMinimum(data)
        } else if tag == 8 {
            Self::StringMaximum(data)
        } else if tag == 9 {
            Self::Delimiter(data != 0)
        } else {
            Self::Reserved
        }
    }
}

impl BasicItem {
    /// Classifies any short item from its class, tag, data and size.
    pub fn new(item_type: u8, tag: u8, data: u32, size: usize) -> (r: Self)
        ensures
            r == spec_basic_item(item_type, tag, data, size as nat),
    {
        match item_type {
            0 => Self::Main(MainItem::new(tag, data)),
            1 => Self::Global(GlobalItem::new(tag, data, size)),
            2 => Self::Local(LocalItem::new(tag, data, size)),
            _ => Self::Reserved,
        }
    }
}

// ---------------------------------------------------------------------------
// The tokenizer
// ---------------------------------------------------------------------------

/// A cursor over the descriptor bytes that yields classified short items.
#[derive(Debug, Clone, Copy)]
pub struct BasicItems<'a> {
    pub bytes: &'a [u8],
    pub offset: usize,
}

impl<'a> BasicItems<'a> {
    /// A tokenizer at the start of the descriptor.
    pub fn new(bytes: &'a [u8]) -> (r: Self)
        ensures
            r.bytes@ == bytes@,
            r.offset == 0,
    {
        BasicItems { bytes, offset: 0 }
    }

    /// Splits a header byte into data byte count, item class and item tag.
    pub fn item_header(header: u8) -> (r: (usize, u8, u8))
        ensures
            r.0 == spec_item_size(header),
            r.1 == spec_item_class(header),
            r.2 == spec_item_tag(header),
    {
        let code = header & 0b11;
        let size: usize = if code == 3 {
            4
        } else {
            code as usize
        };
        let item_type = (header & 0b1100) >> 2;
        let tag = (header & 0b1111_0000) >> 4;
        (size, item_type, tag)
    }

    /// The next classified item: `Ok(None)` at the end of the descriptor, a
    /// lexical error on a long-item or truncated header.
    pub fn next(&mut self) -> (r: Result<Option<BasicItem>, HidError>)
        ensures
            final(self).bytes == old(self).bytes,
            match spec_next_item(old(self).bytes@, old(self).offset as int) {
                Ok(None) => r == Ok::<_, HidError>(None::<BasicItem>)
                    && *final(self) == *old(self),
                Ok(Some(item)) => r == Ok::<_, HidError>(Some(spec_classify(item)))
                    && final(self).offset == old(self).offset + spec_encoded_len(item),
                Err(e) => r == Err::<Option<BasicItem>, _>(e) && *final(self) == *old(self),
            },
    {
        if self.offset >= self.bytes.len() {
            return Ok(None);
        }

        let header = self.bytes[self.offset];
        if header == LONG_ITEM_HEADER {
            return Err(HidError::UnsupportedLongItem);
        }

        let (size, item_type, tag) = Self::item_header(header);
        if size > self.bytes.len() - (self.offset + 1) {
            return Err(HidError::TruncatedItem);
        }

        let base = self.offset + 1;
        let b0: u32 = if size >= 1 {
            self.bytes[base] as u32
        } else {
            0
        };
        let b1: u32 = if size >= 2 {
            self.bytes[base + 1] as u32
        } else {
            0
        };
        let b2: u32 = if size == 4 {
            self.bytes[base + 2] as u32
        } else {
            0
        };
        let b3: u32 = if size == 4 {
            self.bytes[base + 3] as u32
        } else {
            0
        };
        let data: u32 = b0 | (b1 << 8u32) | (b2 << 16u32) | (b3 << 24u32);

        proof {
            assert(b0 | (b1 << 8u32) | (b2 << 16u32) | (b3 << 24u32) == b0 + b1 * 0x100 + b2
                * 0x1_0000 + b3 * 0x100_0000) by (bit_vector)
                requires
                    b0 < 0x100,
                    b1 < 0x100,
                    b2 < 0x100,
                    b3 < 0x100,
            ;
            assert(header & 0b11 == 0 || header & 0b11 == 1 || header & 0b11 == 2 || header & 0b11
                == 3) by (bit_vector);
            assert(size == 0 || size == 1 || size == 2 || size == 4);
            let payload = self.bytes@.subrange(base as int, base + size as int);
            assert(payload.len() == size);
            assert(spec_byte_or_zero(payload, 0) == b0);
            assert(spec_byte_or_zero(payload, 1) == b1);
            assert(spec_byte_or_zero(payload, 2) == b2);
            assert(spec_byte_or_zero(payload, 3) == b3);
            assert(data == spec_le_data(payload));
        }

        self.offset = self.offset + 1 + size;
        Ok(Some(BasicItem::new(item_type, tag, data, size)))
    }
}

} // verus!
