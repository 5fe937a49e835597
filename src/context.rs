//! Descriptors of inspected address spaces and the offset table of the
//! kernel's process object.
use vstd::prelude::*;
use crate::pe::{zero_nt_headers, DosHeader, NtHeaders};
use crate::physical::ReadPhysicalMemory;
use crate::translate::DriverContext;

verus! {

/// Byte offsets of the fields of a kernel process object that discovery
/// reads. This table is the one place where a new kernel build is adapted to.
#[derive(Clone, Copy, Debug, PartialEq, Eq)]
pub struct EProcessOffsets {
    pub system_base_offset: u64,
    pub directory_table_base: u64,
    pub image_file_name_offset: u64,
    pub unique_process_id_offset: u64,
    pub section_base_offset: u64,
    pub active_process_link_offset: u64,
    pub peb_offset: u64,
    /// The handle-table pointer; zero once the process is being torn down.
    pub object_table_offset: u64,
}

impl Default for EProcessOffsets {
    /// The offsets of the 64-bit kernel builds 19041 and later.
    fn default() -> (r: Self)
        ensures
            r == (EProcessOffsets {
                system_base_offset: 0x0,
                directory_table_base: 0x28,
                image_file_name_offset: 0x5A8,
                unique_process_id_offset: 0x440,
                section_base_offset: 0x520,
                active_process_link_offset: 0x448,
                peb_offset: 0x550,
                object_table_offset: 0x570,
            }),
    {
        EProcessOffsets {
            system_base_offset: 0x0,
            directory_table_base: 0x28,
            image_file_name_offset: 0x5A8,
            unique_process_id_offset: 0x440,
            section_base_offset: 0x520,
            active_process_link_offset: 0x448,
            peb_offset: 0x550,
            object_table_offset: 0x570,
        }
    }
}

/// A located process: its object, address space and main-module headers.
#[derive(Clone, Copy, Debug, PartialEq, Eq)]
pub struct ProcessContext {
    pub eprocess: u64,
    /// Page-table root of the process's address space.
    pub directory_table_base: u64,
    pub process_id: u32,
    /// Virtual base of the main module.
    pub base_addr: u64,
    pub nt_header: NtHeaders,
    pub dos_header: DosHeader,
    /// Virtual address of the section header table; 0 when the headers are
    /// not sane.
    pub image_section_header_ptr: u64,
    /// Whether both header signatures matched and the header offset was sane.
    pub headers_valid: bool,
}

/// The descriptor of every field zero.
pub open spec fn empty_process() -> ProcessContext {
    ProcessContext {
        eprocess: 0,
        directory_table_base: 0,
        process_id: 0,
        base_addr: 0,
        nt_header: zero_nt_headers(),
        dos_header: DosHeader { e_magic: 0, e_lfanew: 0 },
        image_section_header_ptr: 0,
        headers_valid: false,
    }
}

impl Default for ProcessContext {
    fn default() -> (r: Self)
        ensures
            r == empty_process(),
    {
        ProcessContext {
            eprocess: 0,
            directory_table_base: 0,
            process_id: 0,
            base_addr: 0,
            nt_header: NtHeaders::zeroed(),
            dos_header: DosHeader { e_magic: 0, e_lfanew: 0 },
            image_section_header_ptr: 0,
            headers_valid: false,
        }
    }
}

/// The located kernel image.
#[derive(Clone, Copy, Debug, PartialEq, Eq)]
pub struct KernelContext {
    pub base_virtual: u64,
    pub base_physical: u64,
    pub cr3_virt: u64,
    pub cr3_phys: u64,
    pub nt_header: NtHeaders,
    pub dos_header: DosHeader,
    pub image_section_header_ptr: u64,
    /// RVA of the export that holds the initial system process.
    pub ps_initial_system_process: u64,
}

impl KernelContext {
    /// The kernel's own address space, seen as a process descriptor.
    pub open spec fn spec_as_process(&self) -> ProcessContext {
        ProcessContext {
            eprocess: 0,
            directory_table_base: self.cr3_phys,
            process_id: 4,
            base_addr: self.base_virtual,
            nt_header: self.nt_header,
            dos_header: self.dos_header,
            image_section_header_ptr: self.image_section_header_ptr,
            headers_valid: true,
        }
    }

    /// The kernel's own address space, seen as a process descriptor.
    pub fn as_process(&self) -> (r: ProcessContext)
        ensures
            r == self.spec_as_process(),
    {
        ProcessContext {
            eprocess: 0,
            directory_table_base: self.cr3_phys,
            process_id: 4,
            base_addr: self.base_virtual,
            nt_header: self.nt_header,
            dos_header: self.dos_header,
            image_section_header_ptr: self.image_section_header_ptr,
            headers_valid: true,
        }
    }
}

/// Everything discovery works with: the backend and cache, the kernel, the
/// currently inspected process and the process-object offsets.
pub struct MemoryContext<P: ReadPhysicalMemory> {
    pub driver_ctx: DriverContext<P>,
    pub kernel_ctx: KernelContext,
    pub process_ctx: ProcessContext,
    pub shadow_memory_physical_address: u64,
    pub eproc_ctx: EProcessOffsets,
}

} // verus!
