//! The HID class descriptor and the raw report descriptor it points at
//! (HID 1.11 section 6.2.1).
//!
//! A HID descriptor sits in an interface's class-descriptor bytes: after
//! six header bytes it lists, in three-byte entries, the type and length
//! of each class descriptor the interface offers. The report descriptor
//! bytes themselves are fetched by the host and decoded here.

use vstd::prelude::*;

use crate::basic::BasicItems;
use crate::collection::{Collection, SpecCollection};
use crate::errors::HidError;
use crate::input::Input;
use crate::parser::{spec_parse_descriptor, Parser};
use crate::report::SpecReport;

verus! {

/// The type of a class descriptor (HID 1.11 section 7.1.1).
#[derive(Debug, Clone, Copy, PartialEq, Eq, Structural)]
pub enum DescriptorType {
    Hid,
    Report,
    Physical,
}

/// The wire value of a descriptor type.
pub open spec fn spec_descriptor_type_code(t: DescriptorType) -> u8 {
    match t {
        DescriptorType::Hid => 0x21,
        DescriptorType::Report => 0x22,
        DescriptorType::Physical => 0x23,
    }
}

impl DescriptorType {
    /// The wire value of this descriptor type, as Get_Descriptor requests
    /// carry it.
    pub fn code(&self) -> (r: u8)
        ensures
            r == spec_descriptor_type_code(*self),
    {
        match self {
            DescriptorType::Hid => 0x21,
            DescriptorType::Report => 0x22,
            DescriptorType::Physical => 0x23,
        }
    }
}

/// The descriptor type listed in entry `index` of a HID descriptor, if the
/// entry's type byte holds a known value.
pub open spec fn spec_descriptor_type_at(bytes: Seq<u8>, index: int) -> Option<DescriptorType> {
    if bytes[3 * index + 6] == 0x21 {
        Some(DescriptorType::Hid)
    } else if bytes[3 * index + 6] == 0x22 {
        Some(DescriptorType::Report)
    } else if bytes[3 * index + 6] == 0x23 {
        Some(DescriptorType::Physical)
    } else {
        None
    }
}

/// The descriptor length listed in entry `index` of a HID descriptor.
pub open spec fn spec_descriptor_length_at(bytes: Seq<u8>, index: int) -> u16 {
    (bytes[3 * index + 7] + bytes[3 * index + 8] * 0x100) as u16
}

/// A HID descriptor borrowed from an interface's class-descriptor bytes.
#[derive(Debug, Clone, Copy)]
pub struct HidDescriptor<'a> {
    pub interface_num: u8,
    pub bytes: &'a [u8],
}

impl<'a> HidDescriptor<'a> {
    /// The six header bytes are present, and so is the whole three-byte
    /// entry of every descriptor the header announces.
    pub open spec fn wf(&self) -> bool {
        &&& self.bytes@.len() >= 6
        &&& self.bytes@.len() >= 6 + 3 * (self.bytes@[5] as int)
    }

    /// A HID descriptor over an interface's class-descriptor bytes.
    pub fn new(bytes: &'a [u8], interface_num: u8) -> (r: Self)
        ensures
            r.bytes@ == bytes@,
            r.interface_num == interface_num,
    {
        Self { interface_num, bytes }
    }

    /// The bcdHID version word.
    pub fn hid(&self) -> (r: u16)
        requires
            self.wf(),
        ensures
            r == (self.bytes@[2] + self.bytes@[3] * 0x100) as u16,
    {
        let lo = self.bytes[2] as u16;
        let hi = self.bytes[3] as u16;
        proof {
            let h = hi;
            let l = lo;
            assert(l | (h << 8u16) == l + h * 0x100) by (bit_vector)
                requires
                    l < 0x100,
                    h < 0x100,
            ;
        }
        lo | (hi << 8u16)
    }

    /// How many class descriptors the interface offers.
    pub fn num_descriptors(&self) -> (r: u8)
        requires
            self.wf(),
        ensures
            r == self.bytes@[5],
    {
        self.bytes[5]
    }

    /// The type of class descriptor `index`, `None` past the end of the
    /// list or for an unknown type byte.
    pub fn descriptor_type(&self, index: usize) -> (r: Option<DescriptorType>)
        requires
            self.wf(),
        ensures
            r == if index < self.bytes@[5] {
                spec_descriptor_type_at(self.bytes@, index as int)
            } else {
                None::<DescriptorType>
            },
    {
        if index >= self.num_descriptors() as usize {
            return None;
        }

        match self.bytes[3 * index + 6] {
            0x21 => Some(DescriptorType::Hid),
            0x22 => Some(DescriptorType::Report),
            0x23 => Some(DescriptorType::Physical),
            _ => None,
        }
    }

    /// The length of class descriptor `index`, `None` past the end of the
    /// list.
    pub fn descriptor_length(&self, index: usize) -> (r: Option<u16>)
        requires
            self.wf(),
        ensures
            r == if index < self.bytes@[5] {
                Some(spec_descriptor_length_at(self.bytes@, index as int))
            } else {
                None::<u16>
            },
    {
        if index >= self.num_descriptors() as usize {
            return None;
        }

        let lo = self.bytes[3 * index + 7] as u16;
        let hi = self.bytes[3 * index + 8] as u16;
        proof {
            let h = hi;
            let l = lo;
            assert(l | (h << 8u16) == l + h * 0x100) by (bit_vector)
                requires
                    l < 0x100,
                    h < 0x100,
            ;
        }
        Some(lo | (hi << 8u16))
    }
}

/// The raw bytes of one report descriptor, as fetched from the device.
#[derive(Debug)]
pub struct ReportDescriptor {
    pub bytes: Vec<u8>,
}

impl ReportDescriptor {
    /// Parses the descriptor into its tree of collections and fields.
    pub fn decode(&self) -> (r: Result<Parser, HidError>)
        ensures
            match spec_parse_descriptor(self.bytes@) {
                Ok(t) => r is Ok && (r->Ok_0).tree() == t && (r->Ok_0).wf(),
                Err(e) => r is Err && r->Err_0 == e,
            },
    {
        Parser::new(self.basic_items())
    }

    /// A tokenizer over the descriptor bytes.
    pub fn basic_items(&self) -> (r: BasicItems<'_>)
        ensures
            r.bytes@ == self.bytes@,
            r.offset == 0,
    {
        BasicItems::new(self.bytes.as_slice())
    }
}

} // verus!
