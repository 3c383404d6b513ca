use coffee::coff::{
    find_entrypoint, parse_file_header, parse_relocations, parse_section_headers, parse_symbols,
    resolve_section_name, FileHeader, SymbolSlot,
};
use coffee::output::OutputBuffer;
use coffee::reloc::{
    apply_relocation, compute_addr32, compute_rel32, relocate_section, relocation_target,
    IMAGE_REL_AMD64_ADDR32,
    IMAGE_REL_AMD64_ADDR32NB, IMAGE_REL_AMD64_ADDR64, IMAGE_REL_AMD64_REL32,
    IMAGE_REL_AMD64_REL32_3,
};
use coffee::resolver::{classify_import, ImportClass};
use coffee::LoaderError;

fn push_u16(v: &mut Vec<u8>, x: u16) {
    v.extend_from_slice(&x.to_le_bytes());
}

fn push_u32(v: &mut Vec<u8>, x: u32) {
    v.extend_from_slice(&x.to_le_bytes());
}

fn file_header_bytes(
    machine: u16,
    nsec: u16,
    symtab: u32,
    nsym: u32,
    opt: u16,
) -> Vec<u8> {
    let mut v = Vec::new();
    push_u16(&mut v, machine);
    push_u16(&mut v, nsec);
    push_u32(&mut v, 0);
    push_u32(&mut v, symtab);
    push_u32(&mut v, nsym);
    push_u16(&mut v, opt);
    push_u16(&mut v, 0);
    v
}

fn section_header_bytes(
    name: &[u8; 8],
    raw_size: u32,
    raw_ptr: u32,
    reloc_ptr: u32,
    nreloc: u16,
    characteristics: u32,
) -> Vec<u8> {
    let mut v = Vec::new();
    v.extend_from_slice(name);
    push_u32(&mut v, raw_size); // virtual size
    push_u32(&mut v, 0); // virtual address
    push_u32(&mut v, raw_size);
    push_u32(&mut v, raw_ptr);
    push_u32(&mut v, reloc_ptr);
    push_u32(&mut v, 0); // line numbers
    push_u16(&mut v, nreloc);
    push_u16(&mut v, 0);
    push_u32(&mut v, characteristics);
    v
}

fn symbol_bytes(name8: &[u8; 8], value: u32, secnum: i16, naux: u8) -> Vec<u8> {
    let mut v = Vec::new();
    v.extend_from_slice(name8);
    push_u32(&mut v, value);
    v.extend_from_slice(&(secnum as u16).to_le_bytes());
    push_u16(&mut v, 0x20);
    v.push(2);
    v.push(naux);
    v
}

fn long_symbol_bytes(strtab_off: u32, value: u32, secnum: i16, naux: u8) -> Vec<u8> {
    let mut v = Vec::new();
    push_u32(&mut v, 0);
    push_u32(&mut v, strtab_off);
    push_u32(&mut v, value);
    v.extend_from_slice(&(secnum as u16).to_le_bytes());
    push_u16(&mut v, 0x20);
    v.push(2);
    v.push(naux);
    v
}

/// A small valid object: one section, two symbols (`go` and a long-named
/// external), a string table.
fn small_object() -> Vec<u8> {
    let symtab: u32 = 60;
    let mut v = file_header_bytes(0x8664, 1, symtab, 2, 0);
    v.extend_from_slice(&section_header_bytes(b".text\0\0\0", 0, 0, 0, 0, 0x6000_0020));
    assert_eq!(v.len(), 60);
    v.extend_from_slice(&symbol_bytes(b"go\0\0\0\0\0\0", 0, 1, 0));
    v.extend_from_slice(&long_symbol_bytes(4, 0, 0, 0));
    // string table at symtab + 18 * 2 == 96
    push_u32(&mut v, 4 + 9); // its size field
    v.extend_from_slice(b"external\0");
    v
}

#[test]
fn file_header_parses() {
    let obj = small_object();
    let fh = parse_file_header(obj.as_slice()).unwrap();
    assert_eq!(
        fh,
        FileHeader {
            machine: 0x8664,
            number_of_sections: 1,
            time_date_stamp: 0,
            pointer_to_symbol_table: 60,
            number_of_symbols: 2,
            size_of_optional_header: 0,
            characteristics: 0,
        }
    );
}

#[test]
fn scenario_truncated_object() {
    let obj = small_object();
    let first_ten = &obj[..10];
    assert_eq!(parse_file_header(first_ten), Err(LoaderError::Truncated));
}

#[test]
fn wrong_machine_rejected() {
    let v = file_header_bytes(0x014C, 0, 20, 0, 0);
    assert_eq!(
        parse_file_header(v.as_slice()),
        Err(LoaderError::UnsupportedArchitecture)
    );
}

#[test]
fn section_table_parses() {
    let obj = small_object();
    let fh = parse_file_header(obj.as_slice()).unwrap();
    let sections = parse_section_headers(obj.as_slice(), &fh).unwrap();
    assert_eq!(sections.len(), 1);
    assert_eq!(&sections[0].name, b".text\0\0\0");
    assert_eq!(sections[0].characteristics, 0x6000_0020);
}

#[test]
fn section_table_truncated() {
    let obj = small_object();
    let fh = FileHeader {
        number_of_sections: 40,
        ..parse_file_header(obj.as_slice()).unwrap()
    };
    assert_eq!(
        parse_section_headers(obj.as_slice(), &fh),
        Err(LoaderError::Truncated)
    );
}

#[test]
fn section_name_indirection() {
    // a string table whose entry at offset 7 is the real name
    let symtab: u32 = 20;
    let mut v = file_header_bytes(0x8664, 0, symtab, 0, 0);
    push_u32(&mut v, 4 + 14); // string table size field
    v.extend_from_slice(b"xy\0");
    v.extend_from_slice(b".text$long\0");
    let fh = parse_file_header(v.as_slice()).unwrap();
    let name = resolve_section_name(v.as_slice(), &b"/7\0\0\0\0\0\0".to_vec(), &fh).unwrap();
    assert_eq!(name, b".text$long");
}

#[test]
fn section_name_inline() {
    let obj = small_object();
    let fh = parse_file_header(obj.as_slice()).unwrap();
    let name = resolve_section_name(obj.as_slice(), &b".data\0\0\0".to_vec(), &fh).unwrap();
    assert_eq!(name, b".data");
}

#[test]
fn section_name_bad_reference() {
    let obj = small_object();
    let fh = parse_file_header(obj.as_slice()).unwrap();
    assert_eq!(
        resolve_section_name(obj.as_slice(), &b"/99999\0\0".to_vec(), &fh),
        Err(LoaderError::BadOffset)
    );
    assert_eq!(
        resolve_section_name(obj.as_slice(), &b"/x\0\0\0\0\0\0".to_vec(), &fh),
        Err(LoaderError::BadOffset)
    );
}

#[test]
fn symbols_parse_with_long_name() {
    let obj = small_object();
    let fh = parse_file_header(obj.as_slice()).unwrap();
    let slots = parse_symbols(obj.as_slice(), &fh).unwrap();
    assert_eq!(slots.len(), 2);
    match &slots[0] {
        SymbolSlot::Sym(s) => {
            assert_eq!(s.name, b"go");
            assert_eq!(s.section_number, 1);
        },
        SymbolSlot::Aux => panic!("expected a symbol"),
    }
    match &slots[1] {
        SymbolSlot::Sym(s) => {
            assert_eq!(s.name, b"external");
            assert_eq!(s.section_number, 0);
        },
        SymbolSlot::Aux => panic!("expected a symbol"),
    }
}

#[test]
fn symbols_skip_aux_records() {
    let symtab: u32 = 20;
    let mut v = file_header_bytes(0x8664, 0, symtab, 3, 0);
    v.extend_from_slice(&symbol_bytes(b"a\0\0\0\0\0\0\0", 0, 1, 1));
    v.extend_from_slice(&[0xAA; 18]); // the auxiliary record
    v.extend_from_slice(&symbol_bytes(b"b\0\0\0\0\0\0\0", 4, 1, 0));
    push_u32(&mut v, 4);
    let fh = parse_file_header(v.as_slice()).unwrap();
    let slots = parse_symbols(v.as_slice(), &fh).unwrap();
    assert_eq!(slots.len(), 3);
    assert!(matches!(&slots[0], SymbolSlot::Sym(s) if s.name == b"a"));
    assert!(matches!(&slots[1], SymbolSlot::Aux));
    assert!(matches!(&slots[2], SymbolSlot::Sym(s) if s.name == b"b"));
}

#[test]
fn symbols_truncated_table() {
    let v = file_header_bytes(0x8664, 0, 20, 5, 0);
    let fh = parse_file_header(v.as_slice()).unwrap();
    assert_eq!(parse_symbols(v.as_slice(), &fh), Err(LoaderError::Truncated));
}

#[test]
fn symbols_bad_string_table_offset() {
    let symtab: u32 = 20;
    let mut v = file_header_bytes(0x8664, 0, symtab, 1, 0);
    v.extend_from_slice(&long_symbol_bytes(4000, 0, 0, 0));
    let fh = parse_file_header(v.as_slice()).unwrap();
    assert_eq!(parse_symbols(v.as_slice(), &fh), Err(LoaderError::BadOffset));
}

#[test]
fn entrypoint_found() {
    let obj = small_object();
    let fh = parse_file_header(obj.as_slice()).unwrap();
    let slots = parse_symbols(obj.as_slice(), &fh).unwrap();
    assert_eq!(find_entrypoint(&slots, "go"), Ok(0));
}

#[test]
fn entrypoint_underscore_fallback() {
    let symtab: u32 = 20;
    let mut v = file_header_bytes(0x8664, 0, symtab, 1, 0);
    v.extend_from_slice(&symbol_bytes(b"_go\0\0\0\0\0", 0, 1, 0));
    push_u32(&mut v, 4);
    let fh = parse_file_header(v.as_slice()).unwrap();
    let slots = parse_symbols(v.as_slice(), &fh).unwrap();
    assert_eq!(find_entrypoint(&slots, "go"), Ok(0));
}

#[test]
fn scenario_entrypoint_missing() {
    let symtab: u32 = 20;
    let mut v = file_header_bytes(0x8664, 0, symtab, 1, 0);
    v.extend_from_slice(&symbol_bytes(b"main\0\0\0\0", 0, 1, 0));
    push_u32(&mut v, 4);
    let fh = parse_file_header(v.as_slice()).unwrap();
    let slots = parse_symbols(v.as_slice(), &fh).unwrap();
    assert_eq!(
        find_entrypoint(&slots, "go"),
        Err(LoaderError::EntrypointNotFound)
    );
}

#[test]
fn relocations_parse() {
    let mut v = file_header_bytes(0x8664, 1, 200, 0, 0);
    let reloc_ptr = 60u32;
    v.extend_from_slice(&section_header_bytes(b".text\0\0\0", 8, 0, reloc_ptr, 2, 0));
    // two records
    push_u32(&mut v, 0x10);
    push_u32(&mut v, 1);
    push_u16(&mut v, IMAGE_REL_AMD64_REL32);
    push_u32(&mut v, 0x20);
    push_u32(&mut v, 2);
    push_u16(&mut v, IMAGE_REL_AMD64_ADDR64);
    while v.len() < 200 {
        v.push(0);
    }
    let fh = parse_file_header(v.as_slice()).unwrap();
    let sections = parse_section_headers(v.as_slice(), &fh).unwrap();
    let relocs = parse_relocations(v.as_slice(), &sections[0]).unwrap();
    assert_eq!(relocs.len(), 2);
    assert_eq!(relocs[0].virtual_address, 0x10);
    assert_eq!(relocs[0].symbol_table_index, 1);
    assert_eq!(relocs[0].reloc_type, IMAGE_REL_AMD64_REL32);
    assert_eq!(relocs[1].reloc_type, IMAGE_REL_AMD64_ADDR64);
}

#[test]
fn relocations_overflow_count() {
    let mut v = file_header_bytes(0x8664, 1, 200, 0, 0);
    let reloc_ptr = 60u32;
    // the overflow flag: the first record's VirtualAddress is the count
    v.extend_from_slice(&section_header_bytes(
        b".text\0\0\0",
        8,
        0,
        reloc_ptr,
        0xFFFF,
        0x0100_0000,
    ));
    push_u32(&mut v, 3); // real count, in the first record
    push_u32(&mut v, 0);
    push_u16(&mut v, 0);
    push_u32(&mut v, 0x40);
    push_u32(&mut v, 7);
    push_u16(&mut v, IMAGE_REL_AMD64_REL32);
    push_u32(&mut v, 0x48);
    push_u32(&mut v, 8);
    push_u16(&mut v, IMAGE_REL_AMD64_ADDR32);
    while v.len() < 200 {
        v.push(0);
    }
    let fh = parse_file_header(v.as_slice()).unwrap();
    let sections = parse_section_headers(v.as_slice(), &fh).unwrap();
    let relocs = parse_relocations(v.as_slice(), &sections[0]).unwrap();
    assert_eq!(relocs.len(), 3);
    assert_eq!(relocs[0].virtual_address, 3);
    assert_eq!(relocs[1].virtual_address, 0x40);
    assert_eq!(relocs[2].symbol_table_index, 8);
}

#[test]
fn relocations_truncated() {
    let mut v = file_header_bytes(0x8664, 1, 60, 0, 0);
    v.extend_from_slice(&section_header_bytes(b".text\0\0\0", 8, 0, 1000, 2, 0));
    let fh = parse_file_header(v.as_slice()).unwrap();
    let sections = parse_section_headers(v.as_slice(), &fh).unwrap();
    assert_eq!(
        parse_relocations(v.as_slice(), &sections[0]),
        Err(LoaderError::Truncated)
    );
}

#[test]
fn rel32_displacement_to_fmt_slot() {
    // a single external rel32 reference: the displacement is the signed
    // distance from the end of the field to the FMT slot
    let fmt_slot: u64 = 0x2000;
    let patch_site: u64 = 0x1000;
    assert_eq!(
        compute_rel32(fmt_slot, 0, patch_site, IMAGE_REL_AMD64_REL32),
        Ok(0xFFC)
    );
    // a backwards reference is negative
    assert_eq!(
        compute_rel32(0x1000, 0, 0x2000, IMAGE_REL_AMD64_REL32),
        Ok(-0x1004)
    );
    // the biased variants subtract their extra bytes
    assert_eq!(
        compute_rel32(fmt_slot, 0, patch_site, IMAGE_REL_AMD64_REL32_3),
        Ok(0xFF9)
    );
}

#[test]
fn rel32_out_of_range() {
    assert_eq!(
        compute_rel32(0x2_0000_0000, 0, 0, IMAGE_REL_AMD64_REL32),
        Err(LoaderError::RelocationOverflow)
    );
    assert_eq!(
        compute_rel32(0, 0, 0, 0),
        Err(LoaderError::UnsupportedRelocationType)
    );
}

#[test]
fn addr64_preserves_addend() {
    // the raw bytes hold the addend; afterwards they hold target + addend
    let mut section: Vec<u8> = vec![0xEE; 12];
    section[2..10].copy_from_slice(&0x1122u64.to_le_bytes());
    apply_relocation(&mut section, 2, IMAGE_REL_AMD64_ADDR64, 0x3300, 0, 0).unwrap();
    assert_eq!(&section[2..10], &(0x3300u64 + 0x1122).to_le_bytes());
    assert_eq!(section[0], 0xEE);
    assert_eq!(section[10], 0xEE);
}

#[test]
fn addr64_wraps_modulo() {
    let mut section: Vec<u8> = vec![0; 8];
    section.copy_from_slice(&2u64.to_le_bytes());
    apply_relocation(&mut section, 0, IMAGE_REL_AMD64_ADDR64, u64::MAX, 0, 0).unwrap();
    assert_eq!(section, 1u64.to_le_bytes().to_vec());
}

#[test]
fn rel32_patch_bytes() {
    let mut section: Vec<u8> = vec![0; 8];
    let section_base: u64 = 0x5000;
    let patch_site = section_base + 4;
    apply_relocation(
        &mut section,
        4,
        IMAGE_REL_AMD64_REL32,
        0x6000,
        patch_site,
        0,
    )
    .unwrap();
    let d = i32::from_le_bytes([section[4], section[5], section[6], section[7]]);
    assert_eq!(d as i64, 0x6000i64 - (patch_site as i64 + 4));
}

#[test]
fn addr32_forms() {
    assert_eq!(compute_addr32(0x1000, 0x20, 0, IMAGE_REL_AMD64_ADDR32), Ok(0x1020));
    assert_eq!(
        compute_addr32(0x1_0000_0000, 0, 0, IMAGE_REL_AMD64_ADDR32),
        Err(LoaderError::RelocationOverflow)
    );
    assert_eq!(
        compute_addr32(0x5000, 0x10, 0x4000, IMAGE_REL_AMD64_ADDR32NB),
        Ok(0x1010)
    );
    assert_eq!(
        compute_addr32(0, 0, 0x4000, IMAGE_REL_AMD64_ADDR32NB),
        Err(LoaderError::RelocationOverflow)
    );
    assert_eq!(
        compute_addr32(0, 0, 0, IMAGE_REL_AMD64_ADDR64),
        Err(LoaderError::UnsupportedRelocationType)
    );
}

#[test]
fn unsupported_relocation_type_applies_nothing() {
    let mut section: Vec<u8> = vec![7; 8];
    assert_eq!(
        apply_relocation(&mut section, 0, 0x000F, 0, 0, 0),
        Err(LoaderError::UnsupportedRelocationType)
    );
    assert_eq!(section, vec![7; 8]);
}

#[test]
fn relocation_out_of_section() {
    let mut section: Vec<u8> = vec![0; 6];
    assert_eq!(
        apply_relocation(&mut section, 4, IMAGE_REL_AMD64_ADDR64, 0, 0, 0),
        Err(LoaderError::BadOffset)
    );
}

#[test]
fn relocation_targets() {
    let bases: Vec<u64> = vec![0x4000, 0x8000];
    // an external symbol resolves to its FMT slot
    assert_eq!(relocation_target(0, 0, &bases, 0xF000), Ok(0xF000));
    // a defined symbol resolves into its section
    assert_eq!(relocation_target(2, 0x10, &bases, 0xF000), Ok(0x8010));
    assert_eq!(
        relocation_target(3, 0, &bases, 0xF000),
        Err(LoaderError::BadSymbolIndex)
    );
}

#[test]
fn import_dispatch_kernel32_beep() {
    match classify_import(&b"KERNEL32$Beep".to_vec()).unwrap() {
        ImportClass::Dynamic { library, function } => {
            assert_eq!(library, b"KERNEL32");
            assert_eq!(function, b"Beep");
        },
        ImportClass::Beacon => panic!("expected a dynamic import"),
    }
}

#[test]
fn import_imp_prefix_stripped() {
    match classify_import(&b"__imp_USER32$MessageBoxA".to_vec()).unwrap() {
        ImportClass::Dynamic { library, function } => {
            assert_eq!(library, b"USER32");
            assert_eq!(function, b"MessageBoxA");
        },
        ImportClass::Beacon => panic!("expected a dynamic import"),
    }
}

#[test]
fn import_beacon_api() {
    assert!(matches!(
        classify_import(&b"BeaconPrintf".to_vec()),
        Ok(ImportClass::Beacon)
    ));
    assert!(matches!(
        classify_import(&b"__imp_BeaconOutput".to_vec()),
        Ok(ImportClass::Beacon)
    ));
}

#[test]
fn scenario_unresolved_import() {
    match classify_import(&b"nonexistent_function".to_vec()) {
        Err(LoaderError::UnresolvedSymbol(name)) => {
            assert_eq!(name, b"nonexistent_function");
        },
        _ => panic!("expected an unresolved symbol"),
    }
}

#[test]
fn relocate_section_walks_in_order() {
    // two records patching disjoint fields: a rel32 to an FMT slot and an
    // absolute 64-bit site with an addend of 5
    let mut section: Vec<u8> = vec![0; 16];
    section[8..16].copy_from_slice(&5u64.to_le_bytes());
    let relocs = vec![
        coffee::coff::Relocation {
            virtual_address: 0,
            symbol_table_index: 0,
            reloc_type: IMAGE_REL_AMD64_REL32,
        },
        coffee::coff::Relocation {
            virtual_address: 8,
            symbol_table_index: 1,
            reloc_type: IMAGE_REL_AMD64_ADDR64,
        },
    ];
    let targets: Vec<u64> = vec![0x9000, 0x1234];
    let section_base: u64 = 0x7000;
    relocate_section(&mut section, &relocs, &targets, section_base, 0).unwrap();
    let d = i32::from_le_bytes([section[0], section[1], section[2], section[3]]);
    assert_eq!(d as i64, 0x9000i64 - (0x7000i64 + 4));
    assert_eq!(&section[8..16], &(0x1234u64 + 5).to_le_bytes());
}

#[test]
fn relocate_section_fails_on_bad_record() {
    let mut section: Vec<u8> = vec![0; 4];
    let relocs = vec![coffee::coff::Relocation {
        virtual_address: 2,
        symbol_table_index: 0,
        reloc_type: IMAGE_REL_AMD64_ADDR64,
    }];
    let targets: Vec<u64> = vec![0];
    assert_eq!(
        relocate_section(&mut section, &relocs, &targets, 0, 0),
        Err(LoaderError::BadOffset)
    );
}

#[test]
fn format_objects_lifecycle() {
    let mut pool = coffee::format::BeaconFormats::new();
    let h = pool.allocate();
    assert!(pool.append(h, b"count="));
    assert!(pool.append_int(h, 7));
    assert_eq!(
        pool.contents(h).unwrap(),
        b"count=\x07\x00\x00\x00".to_vec()
    );
    assert!(pool.reset(h));
    assert_eq!(pool.contents(h).unwrap(), Vec::<u8>::new());
    assert!(pool.free(h));
    assert!(!pool.append(h, b"x"));
    assert!(pool.contents(h).is_none());
    let h2 = pool.allocate();
    assert_ne!(h, h2);
}

#[test]
fn fmt_slots_one_per_distinct_external() {
    let mk = |name: &[u8], secnum: i16| {
        SymbolSlot::Sym(coffee::coff::Symbol {
            name: name.to_vec(),
            value: 0,
            section_number: secnum,
            symbol_type: 0x20,
            storage_class: 2,
            number_of_aux_symbols: 0,
        })
    };
    let slots = vec![
        mk(b"KERNEL32$Beep", 0),
        mk(b"local", 1),
        mk(b"BeaconPrintf", 0),
        mk(b"KERNEL32$Beep", 0),
        SymbolSlot::Aux,
        mk(b"USER32$MessageBoxA", 0),
    ];
    let fmt = coffee::resolver::assign_fmt_slots(&slots);
    assert_eq!(fmt, vec![0, 2, 5]);
}

#[test]
fn output_buffer_capture() {
    let mut buf = OutputBuffer::new();
    buf.append(b"hello ");
    buf.append(b"42");
    assert_eq!(buf.len(), 8);
    let out = buf.take();
    assert_eq!(out, b"hello 42".to_vec());
    assert_eq!(buf.len(), 0);
    buf.append(b"again");
    buf.reset();
    assert_eq!(buf.len(), 0);
}
