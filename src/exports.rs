//! Resolution of exported symbols through a module's export directory.
use vstd::prelude::*;
use vstd::string::StringSliceAdditionalSpecFns;
use crate::context::{KernelContext, ProcessContext};
use crate::pe::{export_directory_of, parse_export_directory, ExportDirectory, EXPORT_DIRECTORY_SIZE};
use crate::physical::{zeros, ReadPhysicalMemory};
use crate::reader::{or_zero_u16, or_zero_u32};
use crate::translate::DriverContext;

verus! {

/// Whether `buf` starts with the NUL-terminated string `name`: the bytes of
/// `name`, none of them NUL, then a NUL within `buf`.
pub open spec fn c_string_is(buf: Seq<u8>, name: Seq<u8>) -> bool {
    &&& name.len() < buf.len()
    &&& forall|i: int| 0 <= i < name.len() ==> buf[i] == name[i] && name[i] != 0
    &&& buf[name.len() as int] == 0
}

/// Whether the NUL-terminated string at the start of `buf` is exactly `name`.
pub fn c_string_eq(buf: &[u8], name: &[u8]) -> (r: bool)
    ensures
        r == c_string_is(buf@, name@),
{
    if name.len() >= buf.len() {
        return false;
    }
    let mut i: usize = 0;
    while i < name.len()
        invariant
            i <= name@.len(),
            name@.len() < buf@.len(),
            forall|j: int| 0 <= j < i ==> buf@[j] == name@[j] && name@[j] != 0,
        decreases name@.len() - i,
    {
        if buf[i] != name[i] || name[i] == 0 {
            return false;
        }
        i += 1;
    }
    buf[name.len()] == 0
}

/// Whether `buf` followed by `term` is `name` followed by a NUL.
fn name_then_nul(buf: &[u8], term: &[u8], name: &[u8]) -> (r: bool)
    requires
        buf@.len() == name@.len(),
        term@.len() == 1,
    ensures
        r == c_string_is(buf@ + term@, name@),
{
    let mut i: usize = 0;
    while i < name.len()
        invariant
            buf@.len() == name@.len(),
            term@.len() == 1,
            i <= name@.len(),
            forall|t: int| 0 <= t < i ==> buf@[t] == name@[t] && name@[t] != 0,
        decreases name@.len() - i,
    {
        if buf[i] != name[i] || name[i] == 0 {
            assert((buf@ + term@)[i as int] == buf@[i as int]);
            return false;
        }
        i += 1;
    }
    assert((buf@ + term@)[name@.len() as int] == term@[0]);
    assert forall|t: int| 0 <= t < name@.len() implies (buf@ + term@)[t] == name@[t] && name@[t] != 0 by {
        assert((buf@ + term@)[t] == buf@[t]);
    }
    term[0] == 0
}

/// `r` as bytes, or `size` zeros.
pub open spec fn or_zeros(r: Option<Seq<u8>>, size: int) -> Seq<u8> {
    match r {
        Some(b) => b,
        None => zeros(size),
    }
}

impl<P: ReadPhysicalMemory> DriverContext<P> {
    /// The export directory of `module`, zero where it cannot be read.
    pub open spec fn spec_export_directory(&self, module: ProcessContext) -> ExportDirectory {
        export_directory_of(
            or_zeros(
                self.spec_read(
                    module.directory_table_base,
                    module.base_addr + module.nt_header.export_directory_rva,
                    EXPORT_DIRECTORY_SIZE as int,
                ),
                EXPORT_DIRECTORY_SIZE as int,
            ),
        )
    }

    /// Whether entry `i` of the name array of `dir` names `name`.
    pub open spec fn spec_export_name_is(
        &self,
        module: ProcessContext,
        dir: ExportDirectory,
        i: int,
        name: Seq<u8>,
    ) -> bool {
        let dtb = module.directory_table_base;
        let name_rva = or_zero_u32(self.spec_read(dtb, module.base_addr + dir.address_of_names + 4 * i, 4));
        self.spec_string_is(dtb, module.base_addr + name_rva, name)
    }

    /// Whether the bytes at `addr` are `name` followed by a NUL: the
    /// `name.len()` bytes there and the one after them are read.
    pub open spec fn spec_string_is(&self, dtb: u64, addr: int, name: Seq<u8>) -> bool {
        match (self.spec_read(dtb, addr, name.len() as int), self.spec_read(dtb, addr + name.len(), 1)) {
            (Some(b), Some(t)) => c_string_is(b + t, name),
            _ => false,
        }
    }

    /// Whether the string at `base + name_rva` is `name`.
    fn name_at_is(
        &mut self,
        module: &ProcessContext,
        base: u64,
        name_rva: u64,
        name: &[u8],
        Ghost(init): Ghost<Self>,
    ) -> (r: bool)
        requires
            old(self).agrees_with(&init),
            init.tlb.wf(),
        ensures
            r == init.spec_string_is(module.directory_table_base, base + name_rva, name@),
            final(self).agrees_with(&init),
    {
        let ghost dtb = module.directory_table_base;
        let ghost addr = base + name_rva;
        proof {
            self.lemma_agree_read(&init, dtb, addr, name@.len() as int);
            self.lemma_agree_read(&init, dtb, addr + name@.len(), 1);
        }
        let n = name.len() as u64;
        if base > u64::MAX - name_rva || base + name_rva > u64::MAX - n {
            return false;
        }
        let ghost before = *self;
        let mut buf: Vec<u8> = Vec::new();
        let ok = self.read_virtual_memory_into(module, base + name_rva, &mut buf, name.len());
        let ghost mid = *self;
        let mut term: Vec<u8> = Vec::new();
        let ok2 = self.read_virtual_memory_into(module, base + name_rva + n, &mut term, 1);
        proof {
            mid.lemma_agree_trans(&before, &init);
            self.lemma_agree_trans(&mid, &init);
            mid.lemma_agree_read(&init, dtb, addr + name@.len(), 1);
        }
        if !ok || !ok2 {
            return false;
        }
        name_then_nul(buf.as_slice(), term.as_slice(), name)
    }

    /// The function RVA that entry `i` of the name array leads to, through
    /// the ordinal array.
    pub open spec fn spec_export_function(&self, module: ProcessContext, dir: ExportDirectory, i: int) -> u32 {
        let dtb = module.directory_table_base;
        let ordinal = or_zero_u16(
            self.spec_read(dtb, module.base_addr + dir.address_of_name_ordinals + 2 * i, 2),
        );
        or_zero_u32(self.spec_read(dtb, module.base_addr + dir.address_of_functions + 4 * ordinal, 4))
    }

    /// The RVA of the first entry from `i` on, among the directory's
    /// `number_of_functions` name entries, that names `name`; 0 when none does.
    pub open spec fn spec_export_from(
        &self,
        module: ProcessContext,
        dir: ExportDirectory,
        name: Seq<u8>,
        i: int,
    ) -> u64
        decreases dir.number_of_functions - i,
    {
        if i < 0 || i >= dir.number_of_functions {
            0
        } else if self.spec_export_name_is(module, dir, i, name) {
            self.spec_export_function(module, dir, i) as u64
        } else {
            self.spec_export_from(module, dir, name, i + 1)
        }
    }

    /// A name that no entry of the name array holds resolves to 0; the first
    /// entry that holds it resolves, through the ordinal array, to the
    /// function RVA that its ordinal selects.
    pub proof fn lemma_export_resolution(&self, module: ProcessContext, name: Seq<u8>, i: int)
        ensures
            ({
                let dir = self.spec_export_directory(module);
                &&& (forall|t: int| 0 <= t < dir.number_of_functions ==> !#[trigger] self.spec_export_name_is(module, dir, t, name))
                    ==> self.spec_export(module, name) == 0
                &&& (0 <= i < dir.number_of_functions && self.spec_export_name_is(module, dir, i, name) && forall|t: int|
                    0 <= t < i ==> !#[trigger] self.spec_export_name_is(module, dir, t, name))
                    ==> self.spec_export(module, name) == self.spec_export_function(module, dir, i) as u64
            }),
    {
        let dir = self.spec_export_directory(module);
        if forall|t: int| 0 <= t < dir.number_of_functions ==> !#[trigger] self.spec_export_name_is(module, dir, t, name) {
            self.lemma_export_scan(module, dir, name, 0, dir.number_of_functions as int);
        }
        if 0 <= i < dir.number_of_functions && self.spec_export_name_is(module, dir, i, name) && forall|t: int|
            0 <= t < i ==> !#[trigger] self.spec_export_name_is(module, dir, t, name) {
            self.lemma_export_scan(module, dir, name, 0, i);
        }
    }

    /// Entries `[from, to)` that do not name `name` are passed over.
    proof fn lemma_export_scan(&self, module: ProcessContext, dir: ExportDirectory, name: Seq<u8>, from: int, to: int)
        requires
            0 <= from <= to <= dir.number_of_functions,
            forall|t: int| from <= t < to ==> !#[trigger] self.spec_export_name_is(module, dir, t, name),
        ensures
            self.spec_export_from(module, dir, name, from) == self.spec_export_from(module, dir, name, to),
        decreases to - from,
    {
        if from < to {
            self.lemma_export_scan(module, dir, name, from + 1, to);
        }
    }

    /// States that agree resolve exports alike.
    pub proof fn lemma_agree_export(&self, other: &Self, module: ProcessContext, name: Seq<u8>)
        requires
            self.agrees_with(other),
        ensures
            self.spec_export(module, name) == other.spec_export(module, name),
    {
        let dtb = module.directory_table_base;
        self.lemma_agree_read(other, dtb, module.base_addr + module.nt_header.export_directory_rva, EXPORT_DIRECTORY_SIZE as int);
        let dir = self.spec_export_directory(module);
        assert forall|i: int| 0 <= i < dir.number_of_functions implies
            self.spec_export_from(module, dir, name, i) == other.spec_export_from(module, dir, name, i) by {
            self.lemma_agree_export_from(other, module, dir, name, i);
        }
    }

    proof fn lemma_agree_export_from(&self, other: &Self, module: ProcessContext, dir: ExportDirectory, name: Seq<u8>, i: int)
        requires
            self.agrees_with(other),
        ensures
            self.spec_export_from(module, dir, name, i) == other.spec_export_from(module, dir, name, i),
        decreases dir.number_of_functions - i,
    {
        if 0 <= i < dir.number_of_functions {
            let dtb = module.directory_table_base;
            self.lemma_agree_read(other, dtb, module.base_addr + dir.address_of_names + 4 * i, 4);
            let name_rva = or_zero_u32(self.spec_read(dtb, module.base_addr + dir.address_of_names + 4 * i, 4));
            self.lemma_agree_read(other, dtb, module.base_addr + name_rva, name.len() as int);
            self.lemma_agree_read(other, dtb, module.base_addr + name_rva + name.len(), 1);
            self.lemma_agree_read(other, dtb, module.base_addr + dir.address_of_name_ordinals + 2 * i, 2);
            let ordinal = or_zero_u16(self.spec_read(dtb, module.base_addr + dir.address_of_name_ordinals + 2 * i, 2));
            self.lemma_agree_read(other, dtb, module.base_addr + dir.address_of_functions + 4 * ordinal, 4);
            self.lemma_agree_export_from(other, module, dir, name, i + 1);
        }
    }

    /// The RVA that `module` exports under `name`, or 0.
    pub open spec fn spec_export(&self, module: ProcessContext, name: Seq<u8>) -> u64 {
        self.spec_export_from(module, self.spec_export_directory(module), name, 0)
    }

    /// Looks `function_name` up in the export directory of `module`: scans the
    /// name array for an exact match of the whole NUL-terminated name, then maps its index through the ordinal
    /// array to the function RVA. Returns 0 when the name is not exported.
    pub fn get_module_export(&mut self, module: &ProcessContext, function_name: &str) -> (r: u64)
        ensures
            r == old(self).spec_export(*module, function_name.spec_bytes()),
            final(self).agrees_with(old(self)),
    {
        self.tlb.check_wf();
        let ghost init = *self;
        proof {
            init.lemma_agree_refl();
        }
        let name = function_name.as_bytes();
        let base = module.base_addr;
        let dir_bytes = self.read_bytes_at(
            module,
            base,
            module.nt_header.export_directory_rva as u64,
            EXPORT_DIRECTORY_SIZE,
            Ghost(init),
        );
        let dir = parse_export_directory(dir_bytes.as_slice());
        let n = dir.number_of_functions as u64;
        let mut i: u64 = 0;
        while i < n
            invariant
                i <= n,
                n == dir.number_of_functions,
                dir == init.spec_export_directory(*module),
                init == *old(self),
                init.tlb.wf(),
                name@ == function_name.spec_bytes(),
                base == module.base_addr,
                self.agrees_with(&init),
                init.spec_export(*module, name@) == init.spec_export_from(*module, dir, name@, i as int),
            decreases n - i,
        {
            let name_rva = self.read_u32_at(module, base, dir.address_of_names as u64 + i * 4, Ghost(init));
            if self.name_at_is(module, base, name_rva as u64, name, Ghost(init)) {
                let ordinal = self.read_u16_at(
                    module,
                    base,
                    dir.address_of_name_ordinals as u64 + i * 2,
                    Ghost(init),
                );
                let func = self.read_u32_at(
                    module,
                    base,
                    dir.address_of_functions as u64 + ordinal as u64 * 4,
                    Ghost(init),
                );
                return func as u64;
            }
            i += 1;
        }
        0
    }

    /// Looks `function_name` up in the kernel image's export directory.
    pub fn get_kernel_export(&mut self, kern_ctx: &KernelContext, function_name: &str) -> (r: u64)
        ensures
            r == old(self).spec_export(kern_ctx.spec_as_process(), function_name.spec_bytes()),
            final(self).agrees_with(old(self)),
    {
        self.tlb.check_wf();
        let kernel_process = kern_ctx.as_process();
        self.get_module_export(&kernel_process, function_name)
    }
}

} // verus!
