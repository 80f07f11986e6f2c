use vstd::prelude::*;
use vstd::string::StringSliceAdditionalSpecFns;
use vstd::utf8::{encode_utf8, encode_utf8_decode_utf8, is_ascii_chars, is_ascii_chars_encode_utf8};
use crate::dump_image::KernelIoError;

verus! {

/// The two driver families, which map buffers by different protocols.
#[derive(Clone, Copy, PartialEq, Eq, Structural)]
pub enum AnyDriver {
    /// Buffers are exported as descriptors of their own, mapped, then closed; the driver
    /// also takes residency advice.
    VC4,
    /// Buffers are mapped through the device itself, at an offset the driver hands out.
    V3D,
}

/// Why a driver could not be used.
pub enum DriverError {
    SystemError(KernelIoError),
    UnknownDriver(String),
}

pub open spec fn vc4_name() -> Seq<char> {
    seq!['v', 'c', '4']
}

pub open spec fn v3d_name() -> Seq<char> {
    seq!['v', '3', 'd']
}

/// An ASCII name's UTF-8 bytes are its characters, and no other name has those bytes.
proof fn lemma_ascii_name(name: &str, expected: Seq<char>, bytes: Seq<u8>)
    requires
        is_ascii_chars(expected),
        bytes.len() == expected.len(),
        forall|i: int| 0 <= i < bytes.len() ==> bytes[i] == expected[i] as u8,
    ensures
        (name.spec_bytes() == bytes) == (name@ == expected),
{
    is_ascii_chars_encode_utf8(expected);
    assert(encode_utf8(expected) =~= bytes);
    encode_utf8_decode_utf8(name@);
    encode_utf8_decode_utf8(expected);
}

fn is_name(bytes: &[u8], a: u8, b: u8, c: u8) -> (r: bool)
    ensures
        r == (bytes@ == seq![a, b, c]),
{
    if bytes.len() == 3 && bytes[0] == a && bytes[1] == b && bytes[2] == c {
        assert(bytes@ =~= seq![a, b, c]);
        true
    } else {
        false
    }
}

impl AnyDriver {
    /// The family of the driver that the kernel names: "vc4" or "v3d".
    pub fn of(driver_name: &str) -> (r: Result<AnyDriver, DriverError>)
        ensures
            driver_name@ == vc4_name() ==> r matches Ok(AnyDriver::VC4),
            driver_name@ == v3d_name() ==> r matches Ok(AnyDriver::V3D),
            driver_name@ != vc4_name() && driver_name@ != v3d_name() ==> (r matches Err(
                DriverError::UnknownDriver(name),
            ) && name@ == driver_name@),
    {
        let bytes = driver_name.as_bytes();
        proof {
            lemma_ascii_name(driver_name, vc4_name(), seq![118u8, 99u8, 52u8]);
            lemma_ascii_name(driver_name, v3d_name(), seq![118u8, 51u8, 100u8]);
        }
        if is_name(bytes, 118, 51, 100) {
            Ok(AnyDriver::V3D)
        } else if is_name(bytes, 118, 99, 52) {
            Ok(AnyDriver::VC4)
        } else {
            Err(DriverError::UnknownDriver(driver_name.to_owned()))
        }
    }
}

/// Residency advice for a buffer.
#[derive(Clone, Copy, PartialEq, Eq, Structural)]
pub enum Madvise {
    WillNeed,
    DontNeed,
}

impl Madvise {
    /// The value the kernel takes for the advice.
    pub fn code(&self) -> (r: u32)
        ensures
            *self == Madvise::WillNeed ==> r == 0,
            *self == Madvise::DontNeed ==> r == 1,
    {
        match self {
            Madvise::WillNeed => 0,
            Madvise::DontNeed => 1,
        }
    }
}

} // verus!
