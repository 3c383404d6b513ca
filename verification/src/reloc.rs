//! The relocation arithmetic: rel32 displacements with their overflow
//! check, 32-bit and 64-bit absolute fix-ups with the existing bytes as
//! addend, and the byte-level patching of a section buffer.

use crate::bytes::{read_u32_le, read_u64_le, u32_of_i32, u32_of_i32_spec};
use crate::coff::Relocation;
use crate::LoaderError;
use vstd::bytes::{
    lemma_auto_spec_u64_to_from_le_bytes, spec_u32_from_le_bytes, spec_u32_to_le_bytes,
    spec_u64_from_le_bytes, spec_u64_to_le_bytes, u32_to_le_bytes, u64_to_le_bytes,
};
use vstd::prelude::*;

verus! {

pub const IMAGE_REL_AMD64_ADDR64: u16 = 1;

pub const IMAGE_REL_AMD64_ADDR32: u16 = 2;

pub const IMAGE_REL_AMD64_ADDR32NB: u16 = 3;

pub const IMAGE_REL_AMD64_REL32: u16 = 4;

pub const IMAGE_REL_AMD64_REL32_1: u16 = 5;

pub const IMAGE_REL_AMD64_REL32_2: u16 = 6;

pub const IMAGE_REL_AMD64_REL32_3: u16 = 7;

pub const IMAGE_REL_AMD64_REL32_4: u16 = 8;

pub const IMAGE_REL_AMD64_REL32_5: u16 = 9;

/// A RIP-relative 32-bit relocation, in any of its six addend-bias forms.
pub open spec fn is_rel32(t: u16) -> bool {
    IMAGE_REL_AMD64_REL32 <= t <= IMAGE_REL_AMD64_REL32_5
}

/// The extra bytes between the displacement field and the next
/// instruction that each rel32 variant encodes.
pub open spec fn rel32_bias(t: u16) -> int {
    t - IMAGE_REL_AMD64_REL32
}

/// The displacement a rel32 fix-up writes: the distance from the end of
/// the (biased) instruction to the target, addend included.
pub open spec fn rel32_value(target: u64, addend: i32, patch_site: u64, t: u16) -> int {
    target + addend - patch_site - 4 - rel32_bias(t)
}

/// Sum modulo 2^64, as a 64-bit absolute fix-up wraps.
pub open spec fn add_mod64(a: u64, b: u64) -> u64 {
    ((a + b) % 0x1_0000_0000_0000_0000) as u64
}

/// Relocation correctness for an external rel32 reference: with no
/// stored addend, the displacement that lands in the code is exactly
/// `fmt_slot_addr - (patch_site + 4)`, the signed distance from the end
/// of the four-byte field to the FMT slot.
pub proof fn lemma_rel32_external_displacement(fmt_slot_addr: u64, patch_site: u64)
    ensures
        rel32_value(fmt_slot_addr, 0, patch_site, IMAGE_REL_AMD64_REL32) == fmt_slot_addr - (
        patch_site + 4),
{
}

/// Computes a rel32 displacement. `RelocationOverflow` exactly when the
/// biased distance does not fit a signed 32-bit field;
/// `UnsupportedRelocationType` exactly when the type is no rel32 form.
pub fn compute_rel32(target: u64, addend: i32, patch_site: u64, reloc_type: u16) -> (r: Result<
    i32,
    LoaderError,
>)
    ensures
        !is_rel32(reloc_type) ==> r == Err::<i32, LoaderError>(
            LoaderError::UnsupportedRelocationType,
        ),
        is_rel32(reloc_type) && i32::MIN <= rel32_value(target, addend, patch_site, reloc_type)
            <= i32::MAX ==> r == Ok::<i32, LoaderError>(
            (rel32_value(target, addend, patch_site, reloc_type)) as i32,
        ),
        is_rel32(reloc_type) && !(i32::MIN <= rel32_value(target, addend, patch_site, reloc_type)
            <= i32::MAX) ==> r == Err::<i32, LoaderError>(LoaderError::RelocationOverflow),
{
    if reloc_type < IMAGE_REL_AMD64_REL32 || reloc_type > IMAGE_REL_AMD64_REL32_5 {
        return Err(LoaderError::UnsupportedRelocationType);
    }
    let bias = (reloc_type - IMAGE_REL_AMD64_REL32) as i128;
    let d: i128 = (target as i128) + (addend as i128) - (patch_site as i128) - 4 - bias;
    if d < i32::MIN as i128 || d > i32::MAX as i128 {
        return Err(LoaderError::RelocationOverflow);
    }
    Ok(d as i32)
}

/// Computes a 32-bit absolute fix-up: `target + addend`, or for the
/// image-base-relative form `target - image_base + addend`.
/// `RelocationOverflow` exactly when the value leaves the unsigned 32-bit
/// range; `UnsupportedRelocationType` for any other type.
pub fn compute_addr32(target: u64, addend: u32, image_base: u64, reloc_type: u16) -> (r: Result<
    u32,
    LoaderError,
>)
    ensures
        reloc_type == IMAGE_REL_AMD64_ADDR32 ==> (if target + addend <= u32::MAX {
            r == Ok::<u32, LoaderError>((target + addend) as u32)
        } else {
            r == Err::<u32, LoaderError>(LoaderError::RelocationOverflow)
        }),
        reloc_type == IMAGE_REL_AMD64_ADDR32NB ==> (if 0 <= target - image_base + addend
            <= u32::MAX {
            r == Ok::<u32, LoaderError>((target - image_base + addend) as u32)
        } else {
            r == Err::<u32, LoaderError>(LoaderError::RelocationOverflow)
        }),
        reloc_type != IMAGE_REL_AMD64_ADDR32 && reloc_type != IMAGE_REL_AMD64_ADDR32NB ==> r
            == Err::<u32, LoaderError>(LoaderError::UnsupportedRelocationType),
{
    if reloc_type == IMAGE_REL_AMD64_ADDR32 {
        let v: u128 = (target as u128) + (addend as u128);
        if v > u32::MAX as u128 {
            return Err(LoaderError::RelocationOverflow);
        }
        Ok(v as u32)
    } else if reloc_type == IMAGE_REL_AMD64_ADDR32NB {
        let v: i128 = (target as i128) - (image_base as i128) + (addend as i128);
        if v < 0 || v > u32::MAX as i128 {
            return Err(LoaderError::RelocationOverflow);
        }
        Ok(v as u32)
    } else {
        Err(LoaderError::UnsupportedRelocationType)
    }
}

/// The section bytes with `[off, off+n)` replaced by `patch`.
pub open spec fn patched(s: Seq<u8>, off: int, patch: Seq<u8>) -> Seq<u8> {
    s.subrange(0, off) + patch + s.subrange(off + patch.len(), s.len() as int)
}

/// Overwrites `n == patch.len()` bytes of the section at `off`.
fn write_bytes_at(section: &mut Vec<u8>, off: usize, patch: &Vec<u8>)
    requires
        off + patch@.len() <= old(section)@.len(),
    ensures
        final(section)@ == patched(old(section)@, off as int, patch@),
{
    let n = patch.len();
    let total = section.len();
    let mut k: usize = 0;
    while k < n
        invariant
            k <= n,
            off + n <= total <= usize::MAX,
            n == patch@.len(),
            off + n <= section@.len(),
            section@.len() == old(section)@.len(),
            forall|m: int| 0 <= m < off ==> section@[m] == old(section)@[m],
            forall|m: int| off + n <= m < section@.len() ==> section@[m] == old(section)@[m],
            forall|m: int| 0 <= m < k ==> section@[off + m] == #[trigger] patch@[m],
            forall|m: int| k <= m < n ==> #[trigger] section@[off + m] == old(section)@[off + m],
        decreases n - k,
    {
        section[off + k] = patch[k];
        k = k + 1;
    }
    proof {
        assert(section@ =~= patched(old(section)@, off as int, patch@));
    }
}

/// Applies one relocation to the section bytes at `off`, reading the
/// existing bytes there as the addend. `patch_site` is the address the
/// patched field will have at run time; `image_base` serves the
/// image-base-relative form. `BadOffset` exactly when the field does not
/// lie inside the section; the arithmetic errors are those of
/// `compute_rel32` and `compute_addr32`.
pub fn apply_relocation(
    section: &mut Vec<u8>,
    off: usize,
    reloc_type: u16,
    target: u64,
    patch_site: u64,
    image_base: u64,
) -> (r: Result<(), LoaderError>)
    ensures
        ({
            let s0 = old(section)@;
            &&& (reloc_type == IMAGE_REL_AMD64_ADDR64 ==> (if off + 8 <= s0.len() {
                r is Ok && final(section)@ == patched(
                    s0,
                    off as int,
                    spec_u64_to_le_bytes(
                        add_mod64(target, spec_u64_from_le_bytes(s0.subrange(off as int, off + 8))),
                    ),
                )
            } else {
                r == Err::<(), LoaderError>(LoaderError::BadOffset) && final(section)@ == s0
            }))
            &&& (is_rel32(reloc_type) ==> (if off + 4 <= s0.len() {
                ({
                    let addend = crate::bytes::i32_of_u32_spec(
                        spec_u32_from_le_bytes(s0.subrange(off as int, off + 4)),
                    );
                    let d = rel32_value(target, addend, patch_site, reloc_type);
                    if i32::MIN <= d <= i32::MAX {
                        r is Ok && final(section)@ == patched(
                            s0,
                            off as int,
                            spec_u32_to_le_bytes(u32_of_i32_spec(d as i32)),
                        )
                    } else {
                        r == Err::<(), LoaderError>(LoaderError::RelocationOverflow)
                            && final(section)@ == s0
                    }
                })
            } else {
                r == Err::<(), LoaderError>(LoaderError::BadOffset) && final(section)@ == s0
            }))
            &&& ((reloc_type == IMAGE_REL_AMD64_ADDR32 || reloc_type == IMAGE_REL_AMD64_ADDR32NB)
                ==> (if off + 4 <= s0.len() {
                ({
                    let addend = spec_u32_from_le_bytes(s0.subrange(off as int, off + 4));
                    let v = if reloc_type == IMAGE_REL_AMD64_ADDR32 {
                        target + addend
                    } else {
                        target - image_base + addend
                    };
                    if 0 <= v <= u32::MAX {
                        r is Ok && final(section)@ == patched(
                            s0,
                            off as int,
                            spec_u32_to_le_bytes(v as u32),
                        )
                    } else {
                        r == Err::<(), LoaderError>(LoaderError::RelocationOverflow)
                            && final(section)@ == s0
                    }
                })
            } else {
                r == Err::<(), LoaderError>(LoaderError::BadOffset) && final(section)@ == s0
            }))
            &&& (!(reloc_type == IMAGE_REL_AMD64_ADDR64 || is_rel32(reloc_type) || reloc_type
                == IMAGE_REL_AMD64_ADDR32 || reloc_type == IMAGE_REL_AMD64_ADDR32NB) ==> r
                == Err::<(), LoaderError>(LoaderError::UnsupportedRelocationType)
                && final(section)@ == s0)
        }),
{
    let n = section.len();
    if reloc_type == IMAGE_REL_AMD64_ADDR64 {
        if n < 8 || off > n - 8 {
            return Err(LoaderError::BadOffset);
        }
        let addend = read_u64_le(section.as_slice(), off);
        let sum: u128 = (target as u128) + (addend as u128);
        let v: u64 = (sum % 0x1_0000_0000_0000_0000u128) as u64;
        let le = u64_to_le_bytes(v);
        write_bytes_at(section, off, &le);
        Ok(())
    } else if reloc_type >= IMAGE_REL_AMD64_REL32 && reloc_type <= IMAGE_REL_AMD64_REL32_5 {
        if n < 4 || off > n - 4 {
            return Err(LoaderError::BadOffset);
        }
        let addend = crate::bytes::i32_of_u32(read_u32_le(section.as_slice(), off));
        let d = match compute_rel32(target, addend, patch_site, reloc_type) {
            Ok(d) => d,
            Err(e) => {
                return Err(e);
            },
        };
        let le = u32_to_le_bytes(u32_of_i32(d));
        write_bytes_at(section, off, &le);
        Ok(())
    } else if reloc_type == IMAGE_REL_AMD64_ADDR32 || reloc_type == IMAGE_REL_AMD64_ADDR32NB {
        if n < 4 || off > n - 4 {
            return Err(LoaderError::BadOffset);
        }
        let addend = read_u32_le(section.as_slice(), off);
        let v = match compute_addr32(target, addend, image_base, reloc_type) {
            Ok(v) => v,
            Err(e) => {
                return Err(e);
            },
        };
        let le = u32_to_le_bytes(v);
        write_bytes_at(section, off, &le);
        Ok(())
    } else {
        Err(LoaderError::UnsupportedRelocationType)
    }
}

/// The address a relocation resolves against: for a symbol defined in
/// section `n > 0`, that section's base plus the symbol's value; for an
/// external symbol (section zero), its FMT slot, so that every external
/// reference lands on the function-pointer table.
pub fn relocation_target(
    section_number: i16,
    symbol_value: u32,
    section_bases: &Vec<u64>,
    fmt_slot_addr: u64,
) -> (r: Result<u64, LoaderError>)
    ensures
        section_number == 0 ==> r == Ok::<u64, LoaderError>(fmt_slot_addr),
        section_number > 0 && section_number - 1 < section_bases@.len() && section_bases@[
            section_number - 1] + symbol_value <= u64::MAX ==> r == Ok::<u64, LoaderError>(
            (section_bases@[section_number - 1] + symbol_value) as u64,
        ),
        section_number > 0 && section_number - 1 >= section_bases@.len() ==> r == Err::<
            u64,
            LoaderError,
        >(LoaderError::BadSymbolIndex),
        section_number > 0 && section_number - 1 < section_bases@.len() && section_bases@[
            section_number - 1] + symbol_value > u64::MAX ==> r == Err::<u64, LoaderError>(
            LoaderError::RelocationOverflow,
        ),
        section_number < 0 ==> r == Err::<u64, LoaderError>(
            LoaderError::UnsupportedRelocationType,
        ),
{
    if section_number == 0 {
        Ok(fmt_slot_addr)
    } else if section_number > 0 {
        let idx = (section_number - 1) as usize;
        if idx >= section_bases.len() {
            return Err(LoaderError::BadSymbolIndex);
        }
        let base = section_bases[idx];
        if symbol_value as u64 > u64::MAX - base {
            return Err(LoaderError::RelocationOverflow);
        }
        Ok(base + symbol_value as u64)
    } else {
        Err(LoaderError::UnsupportedRelocationType)
    }
}

/// What one relocation record does to the section bytes: `None` when the
/// patch site's run-time address overflows, the field leaves the section,
/// a rel32 displacement leaves its signed range, a 32-bit absolute value
/// leaves its unsigned range, or the type is unknown.
pub open spec fn apply_one_spec(
    s: Seq<u8>,
    r: Relocation,
    target: u64,
    section_base: u64,
    image_base: u64,
) -> Option<Seq<u8>> {
    let off = r.virtual_address as int;
    if section_base + r.virtual_address > u64::MAX {
        None
    } else if r.reloc_type == IMAGE_REL_AMD64_ADDR64 {
        if off + 8 <= s.len() {
            Some(
                patched(
                    s,
                    off,
                    spec_u64_to_le_bytes(
                        add_mod64(target, spec_u64_from_le_bytes(s.subrange(off, off + 8))),
                    ),
                ),
            )
        } else {
            None
        }
    } else if is_rel32(r.reloc_type) {
        if off + 4 <= s.len() {
            ({
                let addend = crate::bytes::i32_of_u32_spec(
                    spec_u32_from_le_bytes(s.subrange(off, off + 4)),
                );
                let d = rel32_value(
                    target,
                    addend,
                    (section_base + r.virtual_address) as u64,
                    r.reloc_type,
                );
                if i32::MIN <= d <= i32::MAX {
                    Some(patched(s, off, spec_u32_to_le_bytes(u32_of_i32_spec(d as i32))))
                } else {
                    None
                }
            })
        } else {
            None
        }
    } else if r.reloc_type == IMAGE_REL_AMD64_ADDR32 || r.reloc_type == IMAGE_REL_AMD64_ADDR32NB {
        if off + 4 <= s.len() {
            ({
                let addend = spec_u32_from_le_bytes(s.subrange(off, off + 4));
                let v = if r.reloc_type == IMAGE_REL_AMD64_ADDR32 {
                    target + addend
                } else {
                    target - image_base + addend
                };
                if 0 <= v <= u32::MAX {
                    Some(patched(s, off, spec_u32_to_le_bytes(v as u32)))
                } else {
                    None
                }
            })
        } else {
            None
        }
    } else {
        None
    }
}

/// The section bytes after every relocation record is applied once, in
/// array order, each against its resolved target; `None` as soon as one
/// record fails.
pub open spec fn relocate_spec(
    s: Seq<u8>,
    relocs: Seq<Relocation>,
    targets: Seq<u64>,
    section_base: u64,
    image_base: u64,
) -> Option<Seq<u8>>
    decreases relocs.len(),
{
    if relocs.len() == 0 {
        Some(s)
    } else {
        match apply_one_spec(s, relocs[0], targets[0], section_base, image_base) {
            Some(s2) => relocate_spec(
                s2,
                relocs.drop_first(),
                targets.drop_first(),
                section_base,
                image_base,
            ),
            None => None,
        }
    }
}

/// Walks a section's relocation array and patches the section bytes,
/// each record applied exactly once and in order, against the target
/// resolved for it (`targets[i]` belongs to `relocs[i]`). Succeeds
/// exactly when every record applies; the error is the failing record's.
#[verifier::loop_isolation(false)]
pub fn relocate_section(
    section: &mut Vec<u8>,
    relocs: &Vec<Relocation>,
    targets: &Vec<u64>,
    section_base: u64,
    image_base: u64,
) -> (r: Result<(), LoaderError>)
    requires
        relocs@.len() == targets@.len(),
    ensures
        (r is Ok) <==> (relocate_spec(
            old(section)@,
            relocs@,
            targets@,
            section_base,
            image_base,
        ) is Some),
        r is Ok ==> Some(final(section)@) == relocate_spec(
            old(section)@,
            relocs@,
            targets@,
            section_base,
            image_base,
        ),
        r is Err ==> (r == Err::<(), LoaderError>(LoaderError::BadOffset) || r == Err::<
            (),
            LoaderError,
        >(LoaderError::RelocationOverflow) || r == Err::<(), LoaderError>(
            LoaderError::UnsupportedRelocationType,
        )),
{
    let n = relocs.len();
    let mut i: usize = 0;
    proof {
        assert(relocs@.skip(0) =~= relocs@);
        assert(targets@.skip(0) =~= targets@);
    }
    while i < n
        invariant
            i <= n,
            relocate_spec(old(section)@, relocs@, targets@, section_base, image_base)
                == relocate_spec(
                section@,
                relocs@.skip(i as int),
                targets@.skip(i as int),
                section_base,
                image_base,
            ),
        decreases n - i,
    {
        let rec = relocs[i];
        let target = targets[i];
        proof {
            assert(relocs@.skip(i as int)[0] == relocs@[i as int]);
            assert(targets@.skip(i as int)[0] == targets@[i as int]);
            assert(relocs@.skip(i as int).drop_first() =~= relocs@.skip(i + 1));
            assert(targets@.skip(i as int).drop_first() =~= targets@.skip(i + 1));
        }
        if rec.virtual_address as u64 > u64::MAX - section_base {
            return Err(LoaderError::RelocationOverflow);
        }
        let patch_site = section_base + rec.virtual_address as u64;
        match apply_relocation(
            section,
            rec.virtual_address as usize,
            rec.reloc_type,
            target,
            patch_site,
            image_base,
        ) {
            Ok(_) => {},
            Err(e) => {
                return Err(e);
            },
        }
        i = i + 1;
    }
    proof {
        assert(relocs@.skip(n as int) =~= Seq::<Relocation>::empty());
        assert(targets@.skip(n as int) =~= Seq::<u64>::empty());
    }
    Ok(())
}

/// Addend preservation for a 64-bit absolute fix-up: when the patch site
/// held `A` before relocation, it decodes to `target + A` (modulo 2^64)
/// afterwards.
pub proof fn lemma_addr64_preserves_addend(s0: Seq<u8>, s1: Seq<u8>, off: int, target: u64)
    requires
        0 <= off,
        off + 8 <= s0.len(),
        s1 == patched(
            s0,
            off,
            spec_u64_to_le_bytes(add_mod64(target, spec_u64_from_le_bytes(s0.subrange(off, off + 8)))),
        ),
    ensures
        spec_u64_from_le_bytes(s1.subrange(off, off + 8)) == add_mod64(
            target,
            spec_u64_from_le_bytes(s0.subrange(off, off + 8)),
        ),
{
    lemma_auto_spec_u64_to_from_le_bytes();
    let patch = spec_u64_to_le_bytes(
        add_mod64(target, spec_u64_from_le_bytes(s0.subrange(off, off + 8))),
    );
    assert(s1.subrange(off, off + 8) =~= patch);
}

} // verus!
