//! Fixed-layout executable-image header records, decoded from raw bytes at
//! their documented offsets.
use vstd::prelude::*;
use crate::bytes::{le_u16, le_u32, le_u64, read_le_u16, read_le_u32, read_le_u64};

verus! {

/// Size of the DOS header record.
pub const DOS_HEADER_SIZE: usize = 64;
/// Size of the 64-bit NT headers record (signature, file header, optional header).
pub const NT_HEADERS_SIZE: usize = 264;
/// Size of the COFF file header.
pub const FILE_HEADER_SIZE: u64 = 20;
/// Size of the export directory record.
pub const EXPORT_DIRECTORY_SIZE: usize = 40;
/// `MZ`, the DOS header signature.
pub const DOS_SIGNATURE: u16 = 0x5A4D;
/// `PE\0\0`, the NT headers signature.
pub const NT_SIGNATURE: u32 = 0x4550;
/// Largest header offset accepted as sane.
pub const MAX_LFANEW: i32 = 800;

/// The fields of the DOS header that discovery reads.
#[derive(Clone, Copy, Debug, PartialEq, Eq)]
pub struct DosHeader {
    /// Signature, at byte 0.
    pub e_magic: u16,
    /// Offset of the NT headers from the image base, at byte 0x3C.
    pub e_lfanew: i32,
}

/// The fields of the 64-bit NT headers that discovery reads.
#[derive(Clone, Copy, Debug, PartialEq, Eq)]
pub struct NtHeaders {
    /// Signature, at byte 0.
    pub signature: u32,
    /// `FileHeader.NumberOfSections`, at byte 6.
    pub number_of_sections: u16,
    /// `FileHeader.SizeOfOptionalHeader`, at byte 20.
    pub size_of_optional_header: u16,
    /// `OptionalHeader.ImageBase`, at byte 48.
    pub image_base: u64,
    /// `OptionalHeader.MajorOperatingSystemVersion`, at byte 64.
    pub major_operating_system_version: u16,
    /// `OptionalHeader.MinorOperatingSystemVersion`, at byte 66.
    pub minor_operating_system_version: u16,
    /// `OptionalHeader.SizeOfImage`, at byte 80.
    pub size_of_image: u32,
    /// `OptionalHeader.SizeOfHeaders`, at byte 84.
    pub size_of_headers: u32,
    /// `OptionalHeader.DataDirectory[0].VirtualAddress` (exports), at byte 136.
    pub export_directory_rva: u32,
    /// `OptionalHeader.DataDirectory[0].Size`, at byte 140.
    pub export_directory_size: u32,
}

/// The export directory.
#[derive(Clone, Copy, Debug, PartialEq, Eq)]
pub struct ExportDirectory {
    /// At byte 20.
    pub number_of_functions: u32,
    /// At byte 24.
    pub number_of_names: u32,
    /// RVA of the function RVA array, at byte 28.
    pub address_of_functions: u32,
    /// RVA of the name RVA array, at byte 32.
    pub address_of_names: u32,
    /// RVA of the name ordinal array, at byte 36.
    pub address_of_name_ordinals: u32,
}

/// The little-endian `u16` at byte `at` of `b`.
pub open spec fn field_u16(b: Seq<u8>, at: int) -> u16 {
    le_u16(b.subrange(at, at + 2))
}

/// The little-endian `u32` at byte `at` of `b`.
pub open spec fn field_u32(b: Seq<u8>, at: int) -> u32 {
    le_u32(b.subrange(at, at + 4))
}

/// The little-endian `u64` at byte `at` of `b`.
pub open spec fn field_u64(b: Seq<u8>, at: int) -> u64 {
    le_u64(b.subrange(at, at + 8))
}

/// The DOS header held by `b`.
pub open spec fn dos_header_of(b: Seq<u8>) -> DosHeader {
    DosHeader { e_magic: field_u16(b, 0), e_lfanew: field_u32(b, 0x3C) as i32 }
}

/// The NT headers held by `b`.
pub open spec fn nt_headers_of(b: Seq<u8>) -> NtHeaders {
    NtHeaders {
        signature: field_u32(b, 0),
        number_of_sections: field_u16(b, 6),
        size_of_optional_header: field_u16(b, 20),
        image_base: field_u64(b, 48),
        major_operating_system_version: field_u16(b, 64),
        minor_operating_system_version: field_u16(b, 66),
        size_of_image: field_u32(b, 80),
        size_of_headers: field_u32(b, 84),
        export_directory_rva: field_u32(b, 136),
        export_directory_size: field_u32(b, 140),
    }
}

/// The export directory held by `b`.
pub open spec fn export_directory_of(b: Seq<u8>) -> ExportDirectory {
    ExportDirectory {
        number_of_functions: field_u32(b, 20),
        number_of_names: field_u32(b, 24),
        address_of_functions: field_u32(b, 28),
        address_of_names: field_u32(b, 32),
        address_of_name_ordinals: field_u32(b, 36),
    }
}

/// Whether a DOS header carries the signature and a header offset within
/// `[0, MAX_LFANEW]`.
pub open spec fn dos_header_sane(h: DosHeader) -> bool {
    h.e_magic == DOS_SIGNATURE && 0 <= h.e_lfanew <= MAX_LFANEW
}

/// Decodes a DOS header from its first `DOS_HEADER_SIZE` bytes.
pub fn parse_dos_header(b: &[u8]) -> (r: DosHeader)
    requires
        b@.len() >= DOS_HEADER_SIZE,
    ensures
        r == dos_header_of(b@),
{
    DosHeader { e_magic: read_le_u16(b, 0), e_lfanew: read_le_u32(b, 0x3C) as i32 }
}

/// Decodes 64-bit NT headers from their first `NT_HEADERS_SIZE` bytes.
pub fn parse_nt_headers(b: &[u8]) -> (r: NtHeaders)
    requires
        b@.len() >= NT_HEADERS_SIZE,
    ensures
        r == nt_headers_of(b@),
{
    NtHeaders {
        signature: read_le_u32(b, 0),
        number_of_sections: read_le_u16(b, 6),
        size_of_optional_header: read_le_u16(b, 20),
        image_base: read_le_u64(b, 48),
        major_operating_system_version: read_le_u16(b, 64),
        minor_operating_system_version: read_le_u16(b, 66),
        size_of_image: read_le_u32(b, 80),
        size_of_headers: read_le_u32(b, 84),
        export_directory_rva: read_le_u32(b, 136),
        export_directory_size: read_le_u32(b, 140),
    }
}

/// Decodes an export directory from its first `EXPORT_DIRECTORY_SIZE` bytes.
pub fn parse_export_directory(b: &[u8]) -> (r: ExportDirectory)
    requires
        b@.len() >= EXPORT_DIRECTORY_SIZE,
    ensures
        r == export_directory_of(b@),
{
    ExportDirectory {
        number_of_functions: read_le_u32(b, 20),
        number_of_names: read_le_u32(b, 24),
        address_of_functions: read_le_u32(b, 28),
        address_of_names: read_le_u32(b, 32),
        address_of_name_ordinals: read_le_u32(b, 36),
    }
}

/// The header record of every field zero.
pub open spec fn zero_nt_headers() -> NtHeaders {
    NtHeaders {
        signature: 0,
        number_of_sections: 0,
        size_of_optional_header: 0,
        image_base: 0,
        major_operating_system_version: 0,
        minor_operating_system_version: 0,
        size_of_image: 0,
        size_of_headers: 0,
        export_directory_rva: 0,
        export_directory_size: 0,
    }
}

impl NtHeaders {
    /// NT headers of every field zero.
    pub fn zeroed() -> (r: NtHeaders)
        ensures
            r == zero_nt_headers(),
    {
        NtHeaders {
            signature: 0,
            number_of_sections: 0,
            size_of_optional_header: 0,
            image_base: 0,
            major_operating_system_version: 0,
            minor_operating_system_version: 0,
            size_of_image: 0,
            size_of_headers: 0,
            export_directory_rva: 0,
            export_directory_size: 0,
        }
    }
}

} // verus!
