//! Import-name classification: what an external (section-zero) symbol
//! asks for. An optional `__imp_` prefix is stripped; a name holding `$`
//! splits into `library$function` and names an OS import; otherwise the
//! name must be one of the beacon API exports. Anything else is
//! unresolvable.

use crate::bytes::eq_bytes;
use crate::LoaderError;
use vstd::prelude::*;
use vstd::utf8::encode_utf8;

verus! {

/// The bytes of `__imp_`.
pub open spec fn imp_prefix() -> Seq<u8> {
    seq![95u8, 95u8, 105u8, 109u8, 112u8, 95u8]
}

/// The name carries the import-style `__imp_` prefix.
pub open spec fn has_imp_prefix(n: Seq<u8>) -> bool {
    n.len() >= 6 && n.subrange(0, 6) == imp_prefix()
}

/// The name with its `__imp_` prefix stripped, when present.
pub open spec fn stripped(n: Seq<u8>) -> Seq<u8> {
    if has_imp_prefix(n) {
        n.skip(6)
    } else {
        n
    }
}

/// The index of the first `$`, or a negative value when there is none.
pub open spec fn first_dollar(s: Seq<u8>) -> int
    decreases s.len(),
{
    if s.len() == 0 {
        -1
    } else if s[0] == 36 {
        0
    } else if first_dollar(s.drop_first()) < 0 {
        -1
    } else {
        1 + first_dollar(s.drop_first())
    }
}

proof fn lemma_first_dollar_at(s: Seq<u8>, j: int)
    requires
        0 <= j < s.len(),
        s[j] == 36,
        forall|k: int| 0 <= k < j ==> s[k] != 36,
    ensures
        first_dollar(s) == j,
    decreases j,
{
    if j > 0 {
        let t = s.drop_first();
        assert(t[j - 1] == s[j]);
        assert(forall|k: int| 0 <= k < j - 1 ==> #[trigger] t[k] == s[k + 1]);
        lemma_first_dollar_at(t, j - 1);
    }
}

proof fn lemma_first_dollar_none(s: Seq<u8>)
    requires
        forall|k: int| 0 <= k < s.len() ==> s[k] != 36,
    ensures
        first_dollar(s) < 0,
    decreases s.len(),
{
    if s.len() > 0 {
        let t = s.drop_first();
        assert(forall|k: int| 0 <= k < t.len() ==> #[trigger] t[k] == s[k + 1]);
        lemma_first_dollar_none(t);
    }
}

/// The name is one of the beacon API exports.
pub open spec fn is_beacon_api(n: Seq<u8>) -> bool {
    ||| n == encode_utf8("BeaconDataParse"@)
    ||| n == encode_utf8("BeaconDataInt"@)
    ||| n == encode_utf8("BeaconDataShort"@)
    ||| n == encode_utf8("BeaconDataExtract"@)
    ||| n == encode_utf8("BeaconDataLength"@)
    ||| n == encode_utf8("BeaconPrintf"@)
    ||| n == encode_utf8("BeaconOutput"@)
    ||| n == encode_utf8("BeaconFormatAlloc"@)
    ||| n == encode_utf8("BeaconFormatPrintf"@)
    ||| n == encode_utf8("BeaconFormatToString"@)
    ||| n == encode_utf8("BeaconFormatFree"@)
    ||| n == encode_utf8("BeaconFormatInt"@)
    ||| n == encode_utf8("BeaconFormatReset"@)
    ||| n == encode_utf8("BeaconUseToken"@)
    ||| n == encode_utf8("BeaconRevertToken"@)
    ||| n == encode_utf8("BeaconIsAdmin"@)
    ||| n == encode_utf8("toWideChar"@)
    ||| n == encode_utf8("GetProcAddress"@)
    ||| n == encode_utf8("LoadLibraryA"@)
    ||| n == encode_utf8("GetModuleHandleA"@)
    ||| n == encode_utf8("FreeLibrary"@)
}

/// What an external symbol resolves to: a beacon API export of this
/// runtime, or a `library$function` import served by the OS linker.
#[derive(Debug, Clone, PartialEq, Eq)]
pub enum ImportClass {
    Beacon,
    Dynamic { library: Vec<u8>, function: Vec<u8> },
}

/// The mathematical image of a classification.
pub enum ImportClassV {
    Beacon,
    Dynamic { library: Seq<u8>, function: Seq<u8> },
}

impl View for ImportClass {
    type V = ImportClassV;

    open spec fn view(&self) -> ImportClassV {
        match self {
            ImportClass::Beacon => ImportClassV::Beacon,
            ImportClass::Dynamic { library, function } => ImportClassV::Dynamic {
                library: library@,
                function: function@,
            },
        }
    }
}

/// How an external name classifies: after stripping `__imp_`, a `$`
/// splits it at the first `$` into library and function; otherwise it
/// must be a beacon API export. `None` when neither holds.
pub open spec fn classify_spec(name: Seq<u8>) -> Option<ImportClassV> {
    let s = stripped(name);
    if first_dollar(s) >= 0 {
        Some(
            ImportClassV::Dynamic {
                library: s.take(first_dollar(s)),
                function: s.skip(first_dollar(s) + 1),
            },
        )
    } else if is_beacon_api(s) {
        Some(ImportClassV::Beacon)
    } else {
        None
    }
}

/// Classifies an external symbol name. Fails exactly when the name is
/// neither a `library$function` import nor a beacon API export, carrying
/// the offending name in `UnresolvedSymbol`.
pub fn classify_import(name: &Vec<u8>) -> (r: Result<ImportClass, LoaderError>)
    ensures
        (r is Ok) <==> (classify_spec(name@) is Some),
        r matches Ok(c) ==> classify_spec(name@) == Some(c@),
        r matches Err(e) ==> (e matches LoaderError::UnresolvedSymbol(v) && v@ == name@),
{
    let n = name.len();
    let start: usize = if n >= 6 && name[0] == 95 && name[1] == 95 && name[2] == 105 && name[3]
        == 109 && name[4] == 112 && name[5] == 95 {
        proof {
            assert(name@.subrange(0, 6) =~= imp_prefix());
        }
        6
    } else {
        proof {
            if name@.len() >= 6 && name@.subrange(0, 6) == imp_prefix() {
                assert(name@[0] == imp_prefix()[0]);
                assert(name@[1] == imp_prefix()[1]);
                assert(name@[2] == imp_prefix()[2]);
                assert(name@[3] == imp_prefix()[3]);
                assert(name@[4] == imp_prefix()[4]);
                assert(name@[5] == imp_prefix()[5]);
            }
        }
        0
    };
    let ghost s = stripped(name@);
    let rest = vstd::slice::slice_subrange(name.as_slice(), start, n);
    proof {
        assert(rest@ =~= s);
    }
    let m = rest.len();
    let mut i: usize = 0;
    while i < m
        invariant
            i <= m,
            m == rest@.len(),
            s == stripped(name@),
            rest@ == s,
            forall|k: int| 0 <= k < i ==> rest@[k] != 36,
        decreases m - i,
    {
        if *vstd::slice::slice_index_get(rest, i) == 36 {
            proof {
                lemma_first_dollar_at(s, i as int);
            }
            let library = vstd::slice::slice_to_vec(vstd::slice::slice_subrange(rest, 0, i));
            let function = vstd::slice::slice_to_vec(
                vstd::slice::slice_subrange(rest, i + 1, m),
            );
            proof {
                assert(library@ =~= s.take(i as int));
                assert(function@ =~= s.skip(i + 1));
            }
            return Ok(ImportClass::Dynamic { library, function });
        }
        i = i + 1;
    }
    proof {
        lemma_first_dollar_none(s);
    }
    if is_beacon_api_name(rest) {
        Ok(ImportClass::Beacon)
    } else {
        let mut copy: Vec<u8> = Vec::new();
        copy.extend_from_slice(name.as_slice());
        proof {
            assert(copy@ =~= name@);
        }
        Err(LoaderError::UnresolvedSymbol(copy))
    }
}

/// The slot is an external symbol: a proper symbol with section number
/// zero, to be served through the function mapping table.
pub open spec fn is_external(s: crate::coff::SymbolSlotV) -> bool {
    match s {
        crate::coff::SymbolSlotV::Sym(sym) => sym.section_number == 0,
        crate::coff::SymbolSlotV::Aux => false,
    }
}

/// The name an external slot carries.
pub open spec fn external_name(s: crate::coff::SymbolSlotV) -> Seq<u8> {
    match s {
        crate::coff::SymbolSlotV::Sym(sym) => sym.name,
        crate::coff::SymbolSlotV::Aux => Seq::empty(),
    }
}

/// Slot `i` is the first external occurrence of its name: the symbol is
/// external and no earlier external slot bears the same name.
pub open spec fn is_first_external(sl: Seq<crate::coff::SymbolSlotV>, i: int) -> bool {
    &&& 0 <= i < sl.len()
    &&& is_external(sl[i])
    &&& forall|j: int|
        0 <= j < i ==> !(is_external(#[trigger] sl[j]) && external_name(sl[j]) == external_name(
            sl[i],
        ))
}

/// Assigns the function mapping table: one slot per distinct external
/// symbol name, in order of first appearance. The result lists, strictly
/// increasing, exactly the symbol indices that introduce a new external
/// name; its length is the number of FMT slots to allocate, and slot `k`
/// belongs to the name of symbol `r[k]`.
pub fn assign_fmt_slots(slots: &Vec<crate::coff::SymbolSlot>) -> (r: Vec<usize>)
    ensures
        ({
            let sl = slots@.map_values(|s: crate::coff::SymbolSlot| s@);
            &&& forall|k: int|
                0 <= k < r@.len() ==> is_first_external(sl, #[trigger] r@[k] as int)
            &&& forall|k1: int, k2: int| 0 <= k1 < k2 < r@.len() ==> r@[k1] < r@[k2]
            &&& forall|i: int|
                0 <= i < sl.len() && #[trigger] is_first_external(sl, i) ==> exists|k: int|
                    0 <= k < r@.len() && r@[k] == i
        }),
{
    let ghost sl = slots@.map_values(|s: crate::coff::SymbolSlot| s@);
    let n = slots.len();
    let mut out: Vec<usize> = Vec::new();
    let mut i: usize = 0;
    while i < n
        invariant
            i <= n,
            n == slots@.len(),
            sl == slots@.map_values(|s: crate::coff::SymbolSlot| s@),
            forall|k: int|
                0 <= k < out@.len() ==> is_first_external(sl, #[trigger] out@[k] as int)
                    && out@[k] < i,
            forall|k1: int, k2: int| 0 <= k1 < k2 < out@.len() ==> out@[k1] < out@[k2],
            forall|m: int|
                #![trigger is_first_external(sl, m)]
                0 <= m < i && is_first_external(sl, m) ==> exists|k: int|
                    0 <= k < out@.len() && out@[k] == m,
        decreases n - i,
    {
        proof {
            assert(sl[i as int] == slots@[i as int]@);
        }
        let external = match &slots[i] {
            crate::coff::SymbolSlot::Sym(sym) => sym.section_number == 0,
            crate::coff::SymbolSlot::Aux => false,
        };
        if external {
            let mut fresh = true;
            let mut j: usize = 0;
            while j < i && fresh
                invariant
                    j <= i < n,
                    n == slots@.len(),
                    sl == slots@.map_values(|s: crate::coff::SymbolSlot| s@),
                    is_external(sl[i as int]),
                    fresh <==> (forall|m: int|
                        0 <= m < j ==> !(is_external(#[trigger] sl[m]) && external_name(sl[m])
                            == external_name(sl[i as int]))),
                decreases i - j,
            {
                proof {
                    assert(sl[j as int] == slots@[j as int]@);
                }
                let same = match (&slots[j], &slots[i]) {
                    (crate::coff::SymbolSlot::Sym(a), crate::coff::SymbolSlot::Sym(b)) => a
                        .section_number == 0 && eq_bytes(a.name.as_slice(), b.name.as_slice()),
                    _ => false,
                };
                proof {
                    assert(same == (is_external(sl[j as int]) && external_name(sl[j as int])
                        == external_name(sl[i as int])));
                }
                if same {
                    fresh = false;
                }
                j = j + 1;
            }
            if fresh {
                proof {
                    assert(is_first_external(sl, i as int));
                }
                let ghost before = out@;
                out.push(i);
                proof {
                    assert(out@[before.len() as int] == i);
                    assert(forall|m: int|
                        0 <= m < i && #[trigger] is_first_external(sl, m) ==> exists|k: int|
                            0 <= k < out@.len() && out@[k] == m) by {
                        assert(forall|k: int| 0 <= k < before.len() ==> out@[k] == before[k]);
                    }
                }
            } else {
                proof {
                    if is_first_external(sl, i as int) {
                        assert(forall|m: int|
                            0 <= m < j ==> !(is_external(#[trigger] sl[m]) && external_name(
                                sl[m],
                            ) == external_name(sl[i as int])));
                        assert(false);
                    }
                }
            }
        } else {
            proof {
                assert(!is_first_external(sl, i as int));
            }
        }
        i = i + 1;
    }
    out
}

/// The name matches one of the beacon API exports, byte for byte.
fn is_beacon_api_name(n: &[u8]) -> (r: bool)
    ensures
        r == is_beacon_api(n@),
{
    eq_bytes(n, "BeaconDataParse".as_bytes()) || eq_bytes(n, "BeaconDataInt".as_bytes())
        || eq_bytes(n, "BeaconDataShort".as_bytes()) || eq_bytes(
        n,
        "BeaconDataExtract".as_bytes(),
    ) || eq_bytes(n, "BeaconDataLength".as_bytes()) || eq_bytes(n, "BeaconPrintf".as_bytes())
        || eq_bytes(n, "BeaconOutput".as_bytes()) || eq_bytes(n, "BeaconFormatAlloc".as_bytes())
        || eq_bytes(n, "BeaconFormatPrintf".as_bytes()) || eq_bytes(
        n,
        "BeaconFormatToString".as_bytes(),
    ) || eq_bytes(n, "BeaconFormatFree".as_bytes()) || eq_bytes(n, "BeaconFormatInt".as_bytes())
        || eq_bytes(n, "BeaconFormatReset".as_bytes()) || eq_bytes(n, "BeaconUseToken".as_bytes())
        || eq_bytes(n, "BeaconRevertToken".as_bytes()) || eq_bytes(n, "BeaconIsAdmin".as_bytes())
        || eq_bytes(n, "toWideChar".as_bytes()) || eq_bytes(n, "GetProcAddress".as_bytes())
        || eq_bytes(n, "LoadLibraryA".as_bytes()) || eq_bytes(n, "GetModuleHandleA".as_bytes())
        || eq_bytes(n, "FreeLibrary".as_bytes())
}

} // verus!
