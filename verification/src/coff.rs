//! Zero-copy COFF decoding: the file header, the section table, long-name
//! indirection through the string table, the symbol table with its
//! auxiliary records, per-section relocation arrays, and the entrypoint
//! search. Every offset is checked against the input; nothing past a
//! header is trusted.

use crate::bytes::{eq_bytes, i16_of_u16, i16_of_u16_spec, read_u16_le, read_u32_le};
use crate::LoaderError;
use vstd::bytes::{spec_u16_from_le_bytes, spec_u32_from_le_bytes};
use vstd::prelude::*;
use vstd::slice::{slice_index_get, slice_subrange, slice_to_vec};

verus! {

/// The machine field an x86_64 object carries.
pub const IMAGE_FILE_MACHINE_AMD64: u16 = 0x8664;

/// The section characteristics bit that marks a relocation-count overflow.
pub const IMAGE_SCN_LNK_NRELOC_OVFL: u32 = 0x0100_0000;

/// Little-endian `u16` at `off` of `b`.
pub open spec fn le16_at(b: Seq<u8>, off: int) -> u16 {
    spec_u16_from_le_bytes(b.subrange(off, off + 2))
}

/// Little-endian `u32` at `off` of `b`.
pub open spec fn le32_at(b: Seq<u8>, off: int) -> u32 {
    spec_u32_from_le_bytes(b.subrange(off, off + 4))
}

/// The COFF file header: twenty bytes at the start of the object.
#[derive(Debug, Clone, Copy, PartialEq, Eq, Structural)]
pub struct FileHeader {
    pub machine: u16,
    pub number_of_sections: u16,
    pub time_date_stamp: u32,
    pub pointer_to_symbol_table: u32,
    pub number_of_symbols: u32,
    pub size_of_optional_header: u16,
    pub characteristics: u16,
}

/// The header fields as the first twenty bytes of `b` spell them.
pub open spec fn spec_file_header(b: Seq<u8>) -> FileHeader {
    FileHeader {
        machine: le16_at(b, 0),
        number_of_sections: le16_at(b, 2),
        time_date_stamp: le32_at(b, 4),
        pointer_to_symbol_table: le32_at(b, 8),
        number_of_symbols: le32_at(b, 12),
        size_of_optional_header: le16_at(b, 16),
        characteristics: le16_at(b, 18),
    }
}

/// Where the string table begins: right after the symbol table.
pub open spec fn strtab_begin(fh: FileHeader) -> int {
    fh.pointer_to_symbol_table + 18 * fh.number_of_symbols
}

/// Decodes the file header. `Truncated` exactly when fewer than twenty
/// bytes are given; `UnsupportedArchitecture` exactly when the machine
/// field is not x86_64.
pub fn parse_file_header(data: &[u8]) -> (r: Result<FileHeader, LoaderError>)
    ensures
        data@.len() < 20 ==> r == Err::<FileHeader, LoaderError>(LoaderError::Truncated),
        data@.len() >= 20 && spec_file_header(data@).machine != IMAGE_FILE_MACHINE_AMD64 ==> r
            == Err::<FileHeader, LoaderError>(LoaderError::UnsupportedArchitecture),
        data@.len() >= 20 && spec_file_header(data@).machine == IMAGE_FILE_MACHINE_AMD64 ==> r
            == Ok::<FileHeader, LoaderError>(spec_file_header(data@)),
{
    if data.len() < 20 {
        return Err(LoaderError::Truncated);
    }
    let machine = read_u16_le(data, 0);
    if machine != IMAGE_FILE_MACHINE_AMD64 {
        return Err(LoaderError::UnsupportedArchitecture);
    }
    Ok(
        FileHeader {
            machine,
            number_of_sections: read_u16_le(data, 2),
            time_date_stamp: read_u32_le(data, 4),
            pointer_to_symbol_table: read_u32_le(data, 8),
            number_of_symbols: read_u32_le(data, 12),
            size_of_optional_header: read_u16_le(data, 16),
            characteristics: read_u16_le(data, 18),
        },
    )
}

/// One section header: forty bytes in the section table.
#[derive(Debug, Clone, PartialEq, Eq)]
pub struct SectionHeader {
    /// The raw eight name bytes; `resolve_section_name` reads them.
    pub name: Vec<u8>,
    pub virtual_size: u32,
    pub virtual_address: u32,
    pub size_of_raw_data: u32,
    pub pointer_to_raw_data: u32,
    pub pointer_to_relocations: u32,
    pub pointer_to_linenumbers: u32,
    pub number_of_relocations: u16,
    pub number_of_linenumbers: u16,
    pub characteristics: u32,
}

/// The mathematical image of a section header.
pub struct SectionHeaderV {
    pub name: Seq<u8>,
    pub virtual_size: u32,
    pub virtual_address: u32,
    pub size_of_raw_data: u32,
    pub pointer_to_raw_data: u32,
    pub pointer_to_relocations: u32,
    pub pointer_to_linenumbers: u32,
    pub number_of_relocations: u16,
    pub number_of_linenumbers: u16,
    pub characteristics: u32,
}

impl View for SectionHeader {
    type V = SectionHeaderV;

    open spec fn view(&self) -> SectionHeaderV {
        SectionHeaderV {
            name: self.name@,
            virtual_size: self.virtual_size,
            virtual_address: self.virtual_address,
            size_of_raw_data: self.size_of_raw_data,
            pointer_to_raw_data: self.pointer_to_raw_data,
            pointer_to_relocations: self.pointer_to_relocations,
            pointer_to_linenumbers: self.pointer_to_linenumbers,
            number_of_relocations: self.number_of_relocations,
            number_of_linenumbers: self.number_of_linenumbers,
            characteristics: self.characteristics,
        }
    }
}

/// The section header spelled by the forty bytes at `off` of `b`.
pub open spec fn spec_section_header(b: Seq<u8>, off: int) -> SectionHeaderV {
    SectionHeaderV {
        name: b.subrange(off, off + 8),
        virtual_size: le32_at(b, off + 8),
        virtual_address: le32_at(b, off + 12),
        size_of_raw_data: le32_at(b, off + 16),
        pointer_to_raw_data: le32_at(b, off + 20),
        pointer_to_relocations: le32_at(b, off + 24),
        pointer_to_linenumbers: le32_at(b, off + 28),
        number_of_relocations: le16_at(b, off + 32),
        number_of_linenumbers: le16_at(b, off + 34),
        characteristics: le32_at(b, off + 36),
    }
}

/// Where section header `i` starts.
pub open spec fn section_header_off(fh: FileHeader, i: int) -> int {
    20 + fh.size_of_optional_header + 40 * i
}

/// Decodes the whole section table. `Truncated` exactly when the table
/// would run past the input.
pub fn parse_section_headers(data: &[u8], fh: &FileHeader) -> (r: Result<
    Vec<SectionHeader>,
    LoaderError,
>)
    ensures
        (section_header_off(*fh, fh.number_of_sections as int) > data@.len()) <==> (r == Err::<
            Vec<SectionHeader>,
            LoaderError,
        >(LoaderError::Truncated)),
        r is Err ==> r == Err::<Vec<SectionHeader>, LoaderError>(LoaderError::Truncated),
        r matches Ok(v) ==> v@.len() == fh.number_of_sections && (forall|i: int|
            0 <= i < v@.len() ==> #[trigger] v@[i]@ == spec_section_header(
                data@,
                section_header_off(*fh, i),
            )),
{
    let nsec = fh.number_of_sections as usize;
    let base: u64 = 20u64 + (fh.size_of_optional_header as u64);
    let end: u64 = base + 40u64 * (nsec as u64);
    if end > data.len() as u64 {
        return Err(LoaderError::Truncated);
    }
    let mut out: Vec<SectionHeader> = Vec::new();
    let mut i: usize = 0;
    while i < nsec
        invariant
            i <= nsec,
            nsec == fh.number_of_sections,
            20 + fh.size_of_optional_header + 40 * nsec <= data@.len(),
            data@.len() <= usize::MAX,
            out@.len() == i,
            forall|k: int|
                0 <= k < i ==> #[trigger] out@[k]@ == spec_section_header(
                    data@,
                    section_header_off(*fh, k),
                ),
        decreases nsec - i,
    {
        let off: usize = 20 + (fh.size_of_optional_header as usize) + 40 * i;
        let sh = SectionHeader {
            name: slice_to_vec(slice_subrange(data, off, off + 8)),
            virtual_size: read_u32_le(data, off + 8),
            virtual_address: read_u32_le(data, off + 12),
            size_of_raw_data: read_u32_le(data, off + 16),
            pointer_to_raw_data: read_u32_le(data, off + 20),
            pointer_to_relocations: read_u32_le(data, off + 24),
            pointer_to_linenumbers: read_u32_le(data, off + 28),
            number_of_relocations: read_u16_le(data, off + 32),
            number_of_linenumbers: read_u16_le(data, off + 34),
            characteristics: read_u32_le(data, off + 36),
        };
        out.push(sh);
        i = i + 1;
    }
    Ok(out)
}

/// The index of the first NUL at or after `from`; the length when none.
pub open spec fn first_nul_from(b: Seq<u8>, from: int) -> int
    decreases b.len() - from,
{
    if from < 0 || from >= b.len() {
        b.len() as int
    } else if b[from] == 0 {
        from
    } else {
        first_nul_from(b, from + 1)
    }
}

proof fn lemma_first_nul_at(b: Seq<u8>, from: int, j: int)
    requires
        0 <= from <= j < b.len(),
        b[j] == 0,
        forall|k: int| from <= k < j ==> b[k] != 0,
    ensures
        first_nul_from(b, from) == j,
    decreases j - from,
{
    if from < j {
        lemma_first_nul_at(b, from + 1, j);
    }
}

proof fn lemma_first_nul_none(b: Seq<u8>, from: int)
    requires
        0 <= from <= b.len(),
        forall|k: int| from <= k < b.len() ==> b[k] != 0,
    ensures
        first_nul_from(b, from) == b.len(),
    decreases b.len() - from,
{
    if from < b.len() {
        lemma_first_nul_none(b, from + 1);
    }
}

proof fn lemma_first_nul_bounds(b: Seq<u8>, from: int)
    requires
        0 <= from <= b.len(),
    ensures
        from <= first_nul_from(b, from) <= b.len(),
    decreases b.len() - from,
{
    if from < b.len() && b[from] != 0 {
        lemma_first_nul_bounds(b, from + 1);
    }
}

proof fn lemma_first_nul_ge(b: Seq<u8>, from: int, j: int)
    requires
        0 <= from <= j <= b.len(),
        forall|k: int| from <= k < j ==> b[k] != 0,
    ensures
        first_nul_from(b, from) >= j,
    decreases j - from,
{
    if from < j {
        lemma_first_nul_ge(b, from + 1, j);
    } else {
        lemma_first_nul_bounds(b, from);
    }
}

/// The NUL-terminated string-table entry at `strtab + name_off`.
/// Succeeds exactly when the entry starts inside the input and a NUL
/// follows before the end; fails with `BadOffset` otherwise.
pub fn read_strtab_name(data: &[u8], strtab: u64, name_off: u32) -> (r: Result<
    Vec<u8>,
    LoaderError,
>)
    requires
        strtab + name_off <= u64::MAX,
    ensures
        ({
            let start = strtab + name_off;
            &&& ((start < data@.len() && first_nul_from(data@, start as int) < data@.len())
                <==> r is Ok)
            &&& (r matches Ok(v) ==> v@ == data@.subrange(
                start as int,
                first_nul_from(data@, start as int),
            ))
            &&& (r is Err ==> r == Err::<Vec<u8>, LoaderError>(LoaderError::BadOffset))
        }),
{
    let start = strtab + (name_off as u64);
    let n = data.len();
    if start >= n as u64 {
        return Err(LoaderError::BadOffset);
    }
    let s = start as usize;
    let mut j: usize = s;
    while j < n && *slice_index_get(data, j) != 0
        invariant
            s <= j <= n,
            n == data@.len(),
            forall|k: int| s <= k < j ==> data@[k] != 0,
        decreases n - j,
    {
        j = j + 1;
    }
    if j == n {
        proof {
            lemma_first_nul_none(data@, s as int);
        }
        return Err(LoaderError::BadOffset);
    }
    proof {
        lemma_first_nul_at(data@, s as int, j as int);
    }
    Ok(slice_to_vec(slice_subrange(data, s, j)))
}

/// The digits of a `/N` long-name reference, decoded; `None` when the
/// bytes after the slash, up to the first NUL or the end, are not all
/// decimal digits or name no `u32`.
pub open spec fn slash_name_offset(name: Seq<u8>) -> Option<u32> {
    let digits = name.subrange(1, first_nul_from(name, 1));
    if digits.len() > 0 && (forall|i: int|
        0 <= i < digits.len() ==> 48 <= #[trigger] digits[i] <= 57) {
        if dec_bytes_val(digits) <= u32::MAX {
            Some(dec_bytes_val(digits) as u32)
        } else {
            None
        }
    } else {
        None
    }
}

/// The value of ASCII digit bytes, most significant first.
pub open spec fn dec_bytes_val(b: Seq<u8>) -> int
    decreases b.len(),
{
    if b.len() == 0 {
        0
    } else {
        dec_bytes_val(b.drop_last()) * 10 + (b.last() - 48)
    }
}

/// What a section header's name denotes: a `/N` name is looked up in the
/// string table at offset `N`; any other name is its bytes up to the
/// first NUL (or all eight).
pub open spec fn spec_section_name(b: Seq<u8>, name: Seq<u8>, strtab: int) -> Option<Seq<u8>> {
    if name.len() == 8 && name[0] == 47 {
        match slash_name_offset(name) {
            Some(noff) => {
                let start = strtab + noff;
                if 0 <= start < b.len() && first_nul_from(b, start) < b.len() {
                    Some(b.subrange(start, first_nul_from(b, start)))
                } else {
                    None
                }
            },
            None => None,
        }
    } else {
        if first_nul_from(name, 0) < 8 {
            Some(name.subrange(0, first_nul_from(name, 0)))
        } else {
            Some(name)
        }
    }
}

/// Resolves a section's printable name, following `/N` references into
/// the string table. Fails with `BadOffset` exactly when a `/N` reference
/// is malformed or leads outside the input.
pub fn resolve_section_name(data: &[u8], name: &Vec<u8>, fh: &FileHeader) -> (r: Result<
    Vec<u8>,
    LoaderError,
>)
    requires
        name@.len() == 8,
    ensures
        (r is Ok) <==> (spec_section_name(data@, name@, strtab_begin(*fh)) is Some),
        r matches Ok(v) ==> spec_section_name(data@, name@, strtab_begin(*fh)) == Some(v@),
        r is Err ==> r == Err::<Vec<u8>, LoaderError>(LoaderError::BadOffset),
{
    if name[0] == 47 {
        let mut j: usize = 1;
        while j < 8 && name[j] != 0
            invariant
                1 <= j <= 8,
                name@.len() == 8,
                forall|k: int| 1 <= k < j ==> name@[k] != 0,
            decreases 8 - j,
        {
            j = j + 1;
        }
        proof {
            if j == 8 {
                lemma_first_nul_none(name@, 1);
            } else {
                lemma_first_nul_at(name@, 1, j as int);
            }
        }
        let ghost digits = name@.subrange(1, first_nul_from(name@, 1));
        let mut value: u64 = 0;
        let mut i: usize = 1;
        if j == 1 {
            return Err(LoaderError::BadOffset);
        }
        while i < j
            invariant
                1 <= i <= j <= 8,
                name@.len() == 8,
                name@[0] == 47,
                first_nul_from(name@, 1) == j as int,
                digits == name@.subrange(1, j as int),
                forall|k: int| 1 <= k < i ==> 48 <= #[trigger] name@[k] <= 57,
                value == dec_bytes_val(name@.subrange(1, i as int)),
                value <= 0xFFFF_FFFF,
            decreases j - i,
        {
            let c = name[i];
            if c < 48 || c > 57 {
                proof {
                    assert(digits[i - 1] == name@[i as int]);
                }
                return Err(LoaderError::BadOffset);
            }
            proof {
                assert(name@.subrange(1, i + 1).drop_last() =~= name@.subrange(1, i as int));
                assert(name@.subrange(1, i + 1).last() == name@[i as int]);
            }
            value = value * 10 + ((c - 48) as u64);
            if value > 0xFFFF_FFFF {
                proof {
                    if forall|k: int| 1 <= k < j ==> 48 <= #[trigger] name@[k] <= 57 {
                        lemma_dec_bytes_grow(name@, i + 1, j as int, value as int);
                    } else {
                        let k = choose|k: int| 1 <= k < j && !(48 <= #[trigger] name@[k] <= 57);
                        assert(digits[k - 1] == name@[k]);
                    }
                }
                return Err(LoaderError::BadOffset);
            }
            i = i + 1;
        }
        proof {
            assert(name@.subrange(1, j as int) =~= digits);
        }
        let strtab: u64 = (fh.pointer_to_symbol_table as u64) + 18u64 * (
        fh.number_of_symbols as u64);
        match read_strtab_name(data, strtab, value as u32) {
            Ok(v) => Ok(v),
            Err(_) => Err(LoaderError::BadOffset),
        }
    } else {
        let mut j: usize = 0;
        while j < 8 && name[j] != 0
            invariant
                j <= 8,
                name@.len() == 8,
                forall|k: int| 0 <= k < j ==> name@[k] != 0,
            decreases 8 - j,
        {
            j = j + 1;
        }
        if j == 8 {
            proof {
                lemma_first_nul_none(name@, 0);
                assert(name@.subrange(0, 8) =~= name@);
            }
            let mut copy: Vec<u8> = Vec::new();
            copy.extend_from_slice(name.as_slice());
            proof {
                assert(copy@ =~= name@);
            }
            Ok(copy)
        } else {
            proof {
                lemma_first_nul_at(name@, 0, j as int);
            }
            Ok(slice_to_vec(slice_subrange(name.as_slice(), 0, j)))
        }
    }
}

/// One symbol-table record: eighteen bytes, name already resolved.
#[derive(Debug, Clone, PartialEq, Eq)]
pub struct Symbol {
    pub name: Vec<u8>,
    pub value: u32,
    pub section_number: i16,
    pub symbol_type: u16,
    pub storage_class: u8,
    pub number_of_aux_symbols: u8,
}

/// The mathematical image of a symbol.
pub struct SymbolV {
    pub name: Seq<u8>,
    pub value: u32,
    pub section_number: i16,
    pub symbol_type: u16,
    pub storage_class: u8,
    pub number_of_aux_symbols: u8,
}

impl View for Symbol {
    type V = SymbolV;

    open spec fn view(&self) -> SymbolV {
        SymbolV {
            name: self.name@,
            value: self.value,
            section_number: self.section_number,
            symbol_type: self.symbol_type,
            storage_class: self.storage_class,
            number_of_aux_symbols: self.number_of_aux_symbols,
        }
    }
}

/// One slot of the symbol table, indexed exactly as relocations index it:
/// a proper symbol, or the place an auxiliary record occupies.
#[derive(Debug, Clone, PartialEq, Eq)]
pub enum SymbolSlot {
    Sym(Symbol),
    Aux,
}

/// The mathematical image of a symbol-table slot.
pub enum SymbolSlotV {
    Sym(SymbolV),
    Aux,
}

impl View for SymbolSlot {
    type V = SymbolSlotV;

    open spec fn view(&self) -> SymbolSlotV {
        match self {
            SymbolSlot::Sym(s) => SymbolSlotV::Sym(s@),
            SymbolSlot::Aux => SymbolSlotV::Aux,
        }
    }
}

/// Where symbol record `i` starts.
pub open spec fn symbol_off(fh: FileHeader, i: int) -> int {
    fh.pointer_to_symbol_table + 18 * i
}

/// An inline symbol or section name: the eight bytes up to the first NUL,
/// or all eight when none is present.
pub open spec fn spec_inline_name(name8: Seq<u8>) -> Seq<u8> {
    if first_nul_from(name8, 0) < 8 {
        name8.subrange(0, first_nul_from(name8, 0))
    } else {
        name8
    }
}

/// A symbol's name: inline when the leading four bytes are not all zero,
/// else the string-table entry at the offset in the next four bytes.
/// `None` when that entry lies outside the input or lacks its NUL.
pub open spec fn spec_symbol_name(b: Seq<u8>, off: int, strtab: int) -> Option<Seq<u8>> {
    if le32_at(b, off) == 0 {
        if strtab + le32_at(b, off + 4) < b.len() && first_nul_from(
            b,
            strtab + le32_at(b, off + 4),
        ) < b.len() {
            Some(
                b.subrange(
                    strtab + le32_at(b, off + 4),
                    first_nul_from(b, strtab + le32_at(b, off + 4)),
                ),
            )
        } else {
            None
        }
    } else {
        Some(spec_inline_name(b.subrange(off, off + 8)))
    }
}

/// The symbol spelled by record `i`, its name resolved.
pub open spec fn spec_symbol_at(b: Seq<u8>, fh: FileHeader, i: int) -> Option<SymbolV> {
    match spec_symbol_name(b, symbol_off(fh, i), strtab_begin(fh)) {
        Some(nm) => Some(
            SymbolV {
                name: nm,
                value: le32_at(b, symbol_off(fh, i) + 8),
                section_number: i16_of_u16_spec(le16_at(b, symbol_off(fh, i) + 12)),
                symbol_type: le16_at(b, symbol_off(fh, i) + 14),
                storage_class: b[symbol_off(fh, i) + 16],
                number_of_aux_symbols: b[symbol_off(fh, i) + 17],
            },
        ),
        None => None,
    }
}

/// `n` auxiliary slots.
pub open spec fn aux_slots(n: int) -> Seq<SymbolSlotV> {
    Seq::new(n as nat, |k: int| SymbolSlotV::Aux)
}

/// The symbol-table slots from record `i` on: each proper symbol followed
/// by its auxiliary slots (clipped at the table's end, as the record count
/// bounds everything). `None` when some name cannot be resolved.
pub open spec fn spec_symbol_slots(b: Seq<u8>, fh: FileHeader, i: int) -> Option<Seq<SymbolSlotV>>
    decreases fh.number_of_symbols - i,
{
    if i >= fh.number_of_symbols {
        Some(Seq::empty())
    } else {
        match spec_symbol_at(b, fh, i) {
            Some(sym) => {
                let naux = if sym.number_of_aux_symbols as int <= fh.number_of_symbols - i
                    - 1 {
                    sym.number_of_aux_symbols as int
                } else {
                    fh.number_of_symbols as int - i - 1
                };
                match spec_symbol_slots(b, fh, i + 1 + naux) {
                    Some(rest) => Some(seq![SymbolSlotV::Sym(sym)] + aux_slots(naux) + rest),
                    None => None,
                }
            },
            None => None,
        }
    }
}

/// Decodes the symbol table into slots, skipping auxiliary records.
/// `Truncated` exactly when the table runs past the input; `BadOffset`
/// exactly when it fits but some long name cannot be resolved.
#[verifier::loop_isolation(false)]
#[verifier::rlimit(60)]
pub fn parse_symbols(data: &[u8], fh: &FileHeader) -> (r: Result<Vec<SymbolSlot>, LoaderError>)
    ensures
        ((fh.pointer_to_symbol_table + 18 * fh.number_of_symbols > data@.len()) <==> r == Err::<
            Vec<SymbolSlot>,
            LoaderError,
        >(LoaderError::Truncated)),
        ((fh.pointer_to_symbol_table + 18 * fh.number_of_symbols <= data@.len()
            && spec_symbol_slots(data@, *fh, 0) is None) <==> r == Err::<
            Vec<SymbolSlot>,
            LoaderError,
        >(LoaderError::BadOffset)),
        r matches Ok(v) ==> (spec_symbol_slots(data@, *fh, 0) matches Some(sl) && v@.map_values(
            |s: SymbolSlot| s@,
        ) == sl),
        r is Err ==> r == Err::<Vec<SymbolSlot>, LoaderError>(LoaderError::Truncated) || r
            == Err::<Vec<SymbolSlot>, LoaderError>(LoaderError::BadOffset),
{
    let nsym = fh.number_of_symbols as usize;
    let end: u64 = (fh.pointer_to_symbol_table as u64) + 18u64 * (nsym as u64);
    if end > data.len() as u64 {
        return Err(LoaderError::Truncated);
    }
    let strtab: u64 = end;
    let mut out: Vec<SymbolSlot> = Vec::new();
    let mut i: usize = 0;
    proof {
        assert(out@.map_values(|s: SymbolSlot| s@) + spec_symbol_slots(
            data@,
            *fh,
            0,
        ).unwrap_or(Seq::empty()) =~= spec_symbol_slots(data@, *fh, 0).unwrap_or(Seq::empty()));
    }
    while i < nsym
        invariant
            i <= nsym,
            nsym == fh.number_of_symbols,
            fh.pointer_to_symbol_table + 18 * nsym <= data@.len(),
            data@.len() <= usize::MAX,
            strtab == strtab_begin(*fh),
            spec_symbol_slots(data@, *fh, i as int) is None ==> spec_symbol_slots(
                data@,
                *fh,
                0,
            ) is None,
            spec_symbol_slots(data@, *fh, i as int) matches Some(rest) ==> (spec_symbol_slots(
                data@,
                *fh,
                0,
            ) matches Some(full) && full == out@.map_values(|s: SymbolSlot| s@) + rest),
        decreases nsym - i,
    {
        let off: usize = (fh.pointer_to_symbol_table as usize) + 18 * i;
        let first4 = read_u32_le(data, off);
        let name: Vec<u8> = if first4 == 0 {
            let noff = read_u32_le(data, off + 4);
            match read_strtab_name(data, strtab, noff) {
                Ok(v) => v,
                Err(_) => {
                    return Err(LoaderError::BadOffset);
                },
            }
        } else {
            let ghost name8 = data@.subrange(off as int, off + 8);
            let mut k: usize = off;
            while k < off + 8 && *slice_index_get(data, k) != 0
                invariant
                    off <= k <= off + 8,
                    off + 18 <= data@.len(),
                    data@.len() <= usize::MAX,
                    name8 == data@.subrange(off as int, off + 8),
                    forall|m: int| off <= m < k ==> data@[m] != 0,
                decreases off + 8 - k,
            {
                k = k + 1;
            }
            proof {
                assert(forall|m: int| 0 <= m < k - off ==> #[trigger] name8[m] == data@[off + m]);
                if k == off + 8 {
                    lemma_first_nul_none(name8, 0);
                } else {
                    assert(name8[k - off] == data@[k as int]);
                    lemma_first_nul_at(name8, 0, k - off);
                }
                assert(data@.subrange(off as int, k as int) =~= name8.subrange(0, k - off));
            }
            slice_to_vec(slice_subrange(data, off, k))
        };
        let sym = Symbol {
            name,
            value: read_u32_le(data, off + 8),
            section_number: i16_of_u16(read_u16_le(data, off + 12)),
            symbol_type: read_u16_le(data, off + 14),
            storage_class: *slice_index_get(data, off + 16),
            number_of_aux_symbols: *slice_index_get(data, off + 17),
        };
        let ghost symv = sym@;
        proof {
            assert(spec_symbol_at(data@, *fh, i as int) == Some(symv));
        }
        let rem: usize = nsym - 1 - i;
        let naux_raw = sym.number_of_aux_symbols;
        let aux_count: usize = if (naux_raw as usize) <= rem {
            naux_raw as usize
        } else {
            rem
        };
        let ghost base = out@.map_values(|s: SymbolSlot| s@);
        out.push(SymbolSlot::Sym(sym));
        proof {
            assert(out@.map_values(|s: SymbolSlot| s@) =~= base + seq![SymbolSlotV::Sym(symv)]
                + aux_slots(0));
        }
        let mut a: usize = 0;
        while a < aux_count
            invariant
                a <= aux_count,
                out@.map_values(|s: SymbolSlot| s@) == base + seq![SymbolSlotV::Sym(symv)]
                    + aux_slots(a as int),
            decreases aux_count - a,
        {
            let ghost before = out@;
            out.push(SymbolSlot::Aux);
            proof {
                let f = |s: SymbolSlot| s@;
                assert(out@ == before.push(SymbolSlot::Aux));
                assert forall|k: int| 0 <= k < out@.len() implies #[trigger] out@.map_values(
                    f,
                )[k] == (base + seq![SymbolSlotV::Sym(symv)] + aux_slots(a + 1))[k] by {
                    if k < before.len() {
                        assert(out@[k] == before[k]);
                        assert(before.map_values(f)[k] == f(before[k]));
                    } else {
                        assert(out@[k] == SymbolSlot::Aux);
                    }
                }
                assert(out@.map_values(f) =~= base + seq![SymbolSlotV::Sym(symv)] + aux_slots(
                    a + 1,
                ));
            }
            a = a + 1;
        }
        proof {
            let rest_opt = spec_symbol_slots(data@, *fh, i + 1 + aux_count);
            if rest_opt is Some {
                let rest = rest_opt.unwrap();
                assert(spec_symbol_slots(data@, *fh, i as int) == Some(
                    seq![SymbolSlotV::Sym(symv)] + aux_slots(aux_count as int) + rest,
                ));
                assert(base + (seq![SymbolSlotV::Sym(symv)] + aux_slots(aux_count as int)
                    + rest) =~= (base + seq![SymbolSlotV::Sym(symv)] + aux_slots(
                    aux_count as int,
                )) + rest);
            }
        }
        i = i + 1 + aux_count;
    }
    proof {
        assert(out@.map_values(|s: SymbolSlot| s@) + Seq::<SymbolSlotV>::empty() =~= out@
            .map_values(|s: SymbolSlot| s@));
    }
    Ok(out)
}

/// The slot is a proper symbol bearing exactly this name.
pub open spec fn slot_has_name(s: SymbolSlotV, nm: Seq<u8>) -> bool {
    match s {
        SymbolSlotV::Sym(sym) => sym.name == nm,
        SymbolSlotV::Aux => false,
    }
}

/// Finds the entrypoint symbol: first the configured name itself, then —
/// COFF toolchains sometimes prepend one — the same name behind an
/// underscore. `EntrypointNotFound` exactly when neither occurs.
pub fn find_entrypoint(slots: &Vec<SymbolSlot>, entrypoint: &str) -> (r: Result<
    usize,
    LoaderError,
>)
    ensures
        ({
            let nm = vstd::utf8::encode_utf8(entrypoint@);
            let alt = seq![95u8] + vstd::utf8::encode_utf8(entrypoint@);
            &&& ((r is Ok) <==> exists|k: int|
                0 <= k < slots@.len() && (slot_has_name(#[trigger] slots@[k]@, nm)
                    || slot_has_name(slots@[k]@, alt)))
            &&& (r matches Ok(i) ==> i < slots@.len())
            &&& (r matches Ok(i) ==> ((exists|k: int|
                0 <= k < slots@.len() && slot_has_name(#[trigger] slots@[k]@, nm)) ==> (
            slot_has_name(slots@[i as int]@, nm) && forall|k: int|
                0 <= k < i ==> !slot_has_name(#[trigger] slots@[k]@, nm))))
            &&& (r matches Ok(i) ==> (!(exists|k: int|
                0 <= k < slots@.len() && slot_has_name(#[trigger] slots@[k]@, nm)) ==> (
            slot_has_name(slots@[i as int]@, alt) && forall|k: int|
                0 <= k < i ==> !slot_has_name(#[trigger] slots@[k]@, alt))))
            &&& (r is Err ==> r == Err::<usize, LoaderError>(LoaderError::EntrypointNotFound))
        }),
{
    let nm = entrypoint.as_bytes();
    let mut alt: Vec<u8> = Vec::new();
    alt.push(95u8);
    alt.extend_from_slice(nm);
    proof {
        assert(alt@ =~= seq![95u8] + vstd::utf8::encode_utf8(entrypoint@));
    }
    let n = slots.len();
    let mut i: usize = 0;
    while i < n
        invariant
            i <= n,
            n == slots@.len(),
            nm@ == vstd::utf8::encode_utf8(entrypoint@),
            forall|k: int| 0 <= k < i ==> !slot_has_name(#[trigger] slots@[k]@, nm@),
        decreases n - i,
    {
        match &slots[i] {
            SymbolSlot::Sym(sym) => {
                if eq_bytes(sym.name.as_slice(), nm) {
                    proof {
                        assert(slots@[i as int]@ == SymbolSlotV::Sym(sym@));
                        assert(slot_has_name(slots@[i as int]@, nm@));
                    }
                    return Ok(i);
                }
            },
            SymbolSlot::Aux => {},
        }
        i = i + 1;
    }
    let mut j: usize = 0;
    while j < n
        invariant
            j <= n,
            n == slots@.len(),
            nm@ == vstd::utf8::encode_utf8(entrypoint@),
            alt@ == seq![95u8] + vstd::utf8::encode_utf8(entrypoint@),
            forall|k: int| 0 <= k < n ==> !slot_has_name(#[trigger] slots@[k]@, nm@),
            forall|k: int| 0 <= k < j ==> !slot_has_name(#[trigger] slots@[k]@, alt@),
        decreases n - j,
    {
        match &slots[j] {
            SymbolSlot::Sym(sym) => {
                if eq_bytes(sym.name.as_slice(), alt.as_slice()) {
                    proof {
                        assert(slots@[j as int]@ == SymbolSlotV::Sym(sym@));
                        assert(slot_has_name(slots@[j as int]@, alt@));
                    }
                    return Ok(j);
                }
            },
            SymbolSlot::Aux => {},
        }
        j = j + 1;
    }
    Err(LoaderError::EntrypointNotFound)
}

/// One relocation record: ten bytes in a section's relocation array.
#[derive(Debug, Clone, Copy, PartialEq, Eq, Structural)]
pub struct Relocation {
    pub virtual_address: u32,
    pub symbol_table_index: u32,
    pub reloc_type: u16,
}

/// The relocation spelled by the ten bytes at `off` of `b`.
pub open spec fn spec_reloc_at(b: Seq<u8>, off: int) -> Relocation {
    Relocation {
        virtual_address: le32_at(b, off),
        symbol_table_index: le32_at(b, off + 4),
        reloc_type: le16_at(b, off + 8),
    }
}

/// The section's relocation count overflowed its 16-bit header field.
pub open spec fn reloc_overflow_flag(sh: SectionHeaderV) -> bool {
    sh.characteristics & IMAGE_SCN_LNK_NRELOC_OVFL != 0
}

/// The real relocation count: with the overflow flag set, the
/// `VirtualAddress` of the first record; otherwise the header field.
pub open spec fn spec_reloc_count(b: Seq<u8>, sh: SectionHeaderV) -> int {
    if reloc_overflow_flag(sh) {
        le32_at(b, sh.pointer_to_relocations as int) as int
    } else {
        sh.number_of_relocations as int
    }
}

/// Decodes a section's relocation array, honouring the overflow-count
/// quirk. `Truncated` exactly when the array (or, with the overflow flag,
/// its first record) runs past the input.
pub fn parse_relocations(data: &[u8], sh: &SectionHeader) -> (r: Result<
    Vec<Relocation>,
    LoaderError,
>)
    ensures
        ({
            let ptr = sh@.pointer_to_relocations as int;
            let cnt = spec_reloc_count(data@, sh@);
            &&& ((r is Ok) <==> ((reloc_overflow_flag(sh@) ==> ptr + 10 <= data@.len()) && ptr
                + 10 * cnt <= data@.len()))
            &&& (r matches Ok(v) ==> v@.len() == cnt && (forall|i: int|
                0 <= i < cnt ==> #[trigger] v@[i] == spec_reloc_at(data@, ptr + 10 * i)))
            &&& (r is Err ==> r == Err::<Vec<Relocation>, LoaderError>(LoaderError::Truncated))
        }),
{
    let ptr = sh.pointer_to_relocations;
    let flag = sh.characteristics & IMAGE_SCN_LNK_NRELOC_OVFL != 0;
    let count: u64 = if flag {
        if (ptr as u64) + 10 > data.len() as u64 {
            return Err(LoaderError::Truncated);
        }
        read_u32_le(data, ptr as usize) as u64
    } else {
        sh.number_of_relocations as u64
    };
    if (ptr as u64) + 10 * count > data.len() as u64 {
        return Err(LoaderError::Truncated);
    }
    let n = count as usize;
    let mut out: Vec<Relocation> = Vec::new();
    let mut i: usize = 0;
    while i < n
        invariant
            i <= n,
            n == spec_reloc_count(data@, sh@),
            sh@.pointer_to_relocations + 10 * n <= data@.len(),
            data@.len() <= usize::MAX,
            ptr == sh@.pointer_to_relocations,
            out@.len() == i,
            forall|k: int|
                0 <= k < i ==> #[trigger] out@[k] == spec_reloc_at(
                    data@,
                    sh@.pointer_to_relocations + 10 * k,
                ),
        decreases n - i,
    {
        let off: usize = (ptr as usize) + 10 * i;
        out.push(
            Relocation {
                virtual_address: read_u32_le(data, off),
                symbol_table_index: read_u32_le(data, off + 4),
                reloc_type: read_u16_le(data, off + 8),
            },
        );
        i = i + 1;
    }
    Ok(out)
}

/// Once past 32 bits, more digits keep the value past 32 bits.
proof fn lemma_dec_bytes_grow(name: Seq<u8>, i: int, j: int, acc: int)
    requires
        0 <= 1 <= i <= j <= name.len(),
        acc > 0xFFFF_FFFF,
        dec_bytes_val(name.subrange(1, i)) == acc,
        forall|k: int| 1 <= k < j ==> 48 <= #[trigger] name[k] <= 57,
    ensures
        dec_bytes_val(name.subrange(1, j)) > 0xFFFF_FFFF,
    decreases j - i,
{
    if i < j {
        assert(name.subrange(1, i + 1).drop_last() =~= name.subrange(1, i));
        assert(name.subrange(1, i + 1).last() == name[i]);
        lemma_dec_bytes_grow(name, i + 1, j, dec_bytes_val(name.subrange(1, i + 1)));
    } else {
        assert(name.subrange(1, j) =~= name.subrange(1, i));
    }
}

} // verus!
