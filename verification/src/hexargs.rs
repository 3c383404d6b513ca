//! Argument handling for the command surface: turning `<type>:<value>`
//! tokens into a packed argument stream, hex-encoding the stream for
//! transport (upper-case, no separator), and decoding such hex back into
//! bytes.

use crate::pack::{
    body_of, lemma_size_of_push, lemma_total_size, record_size, size_of_items, BeaconPack,
    PackItem,
};
use crate::LoaderError;
use vstd::bytes::spec_u32_to_le_bytes;
use vstd::prelude::*;
use vstd::slice::slice_index_get;
use vstd::string::StrSliceExecFns;

verus! {

// ---------------------------------------------------------------------
// Hex encoding and decoding
// ---------------------------------------------------------------------
/// The upper-case hex digit for a value below 16.
pub open spec fn hex_digit_char(v: int) -> char {
    if v == 0 { '0' }
    else if v == 1 { '1' }
    else if v == 2 { '2' }
    else if v == 3 { '3' }
    else if v == 4 { '4' }
    else if v == 5 { '5' }
    else if v == 6 { '6' }
    else if v == 7 { '7' }
    else if v == 8 { '8' }
    else if v == 9 { '9' }
    else if v == 10 { 'A' }
    else if v == 11 { 'B' }
    else if v == 12 { 'C' }
    else if v == 13 { 'D' }
    else if v == 14 { 'E' }
    else { 'F' }
}

/// Each byte as two upper-case hex digits, high nibble first.
pub open spec fn hex_chars_of(b: Seq<u8>) -> Seq<char>
    decreases b.len(),
{
    if b.len() == 0 {
        Seq::empty()
    } else {
        hex_chars_of(b.drop_last()) + seq![
            hex_digit_char(b.last() as int / 16),
            hex_digit_char(b.last() as int % 16),
        ]
    }
}

/// A hex digit in either case.
pub open spec fn is_hex_digit(c: char) -> bool {
    (48 <= c as int && c as int <= 57) || (65 <= c as int && c as int <= 70) || (97 <= c as int
        && c as int <= 102)
}

/// The value of a hex digit.
pub open spec fn hex_digit_val(c: char) -> int {
    if 48 <= c as int && c as int <= 57 {
        c as int - 48
    } else if 65 <= c as int && c as int <= 70 {
        c as int - 55
    } else {
        c as int - 87
    }
}

/// Pairs of hex digits decoded to bytes, high nibble first; `None` on an
/// odd count or any non-hex character.
pub open spec fn unhex_of(s: Seq<char>) -> Option<Seq<u8>>
    decreases s.len(),
{
    if s.len() == 0 {
        Some(Seq::empty())
    } else if s.len() == 1 {
        None
    } else if is_hex_digit(s[0]) && is_hex_digit(s[1]) {
        match unhex_of(s.skip(2)) {
            Some(rest) => Some(
                seq![(hex_digit_val(s[0]) * 16 + hex_digit_val(s[1])) as u8] + rest,
            ),
            None => None,
        }
    } else {
        None
    }
}

/// Relies on String::push: appends exactly the one character.
#[verifier::external_body]
fn string_push(s: &mut String, c: char)
    ensures
        final(s)@ == old(s)@ + seq![c],
{
    s.push(c);
}

fn hex_char_of(v: u8) -> (c: char)
    requires
        v < 16,
    ensures
        c == hex_digit_char(v as int),
{
    if v == 0 { '0' }
    else if v == 1 { '1' }
    else if v == 2 { '2' }
    else if v == 3 { '3' }
    else if v == 4 { '4' }
    else if v == 5 { '5' }
    else if v == 6 { '6' }
    else if v == 7 { '7' }
    else if v == 8 { '8' }
    else if v == 9 { '9' }
    else if v == 10 { 'A' }
    else if v == 11 { 'B' }
    else if v == 12 { 'C' }
    else if v == 13 { 'D' }
    else if v == 14 { 'E' }
    else { 'F' }
}

/// Upper-case hex of the bytes, two digits per byte, no separator.
pub fn hex_encode(bytes: &[u8]) -> (r: String)
    ensures
        r@ == hex_chars_of(bytes@),
{
    let mut out = String::new();
    let n = bytes.len();
    let mut i: usize = 0;
    while i < n
        invariant
            i <= n,
            n == bytes@.len(),
            out@ == hex_chars_of(bytes@.take(i as int)),
        decreases n - i,
    {
        let b = *slice_index_get(bytes, i);
        let ghost before = out@;
        string_push(&mut out, hex_char_of(b / 16));
        string_push(&mut out, hex_char_of(b % 16));
        proof {
            let t = bytes@.take(i + 1);
            assert(t.drop_last() =~= bytes@.take(i as int));
            assert(t.last() == bytes@[i as int]);
            assert(before + seq![hex_digit_char(b as int / 16)] + seq![
                hex_digit_char(b as int % 16),
            ] =~= hex_chars_of(t));
        }
        i = i + 1;
    }
    proof {
        assert(bytes@.take(n as int) =~= bytes@);
    }
    out
}

/// Decodes a string of hex digit pairs to the bytes they spell.
/// Succeeds exactly on an even number of hex digits.
pub fn unhexlify_args(value: &str) -> (r: Result<Vec<u8>, LoaderError>)
    ensures
        (r is Ok) <==> (unhex_of(value@) is Some),
        r matches Ok(v) ==> Some(v@) == unhex_of(value@),
        r is Err ==> r == Err::<Vec<u8>, LoaderError>(LoaderError::ArgumentFormat),
{
    let n = value.unicode_len();
    if n % 2 != 0 {
        proof {
            lemma_unhex_odd_none(value@);
        }
        return Err(LoaderError::ArgumentFormat);
    }
    let mut out: Vec<u8> = Vec::new();
    let mut i: usize = 0;
    proof {
        assert(value@.skip(0) =~= value@);
    }
    while i < n
        invariant
            i <= n,
            i % 2 == 0,
            n % 2 == 0,
            n == value@.len(),
            unhex_of(value@.skip(i as int)) is Some ==> (unhex_of(value@) matches Some(full)
                && full == out@ + unhex_of(value@.skip(i as int)).unwrap()),
            unhex_of(value@.skip(i as int)) is None ==> unhex_of(value@) is None,
        decreases n - i,
    {
        let ghost t = value@.skip(i as int);
        let c0 = value.get_char(i);
        let c1 = value.get_char(i + 1);
        proof {
            assert(t.len() >= 2);
            assert(t[0] == value@[i as int]);
            assert(t[1] == value@[i + 1]);
        }
        let v0 = match hex_val_of(c0) {
            Some(v) => v,
            None => {
                return Err(LoaderError::ArgumentFormat);
            },
        };
        let v1 = match hex_val_of(c1) {
            Some(v) => v,
            None => {
                return Err(LoaderError::ArgumentFormat);
            },
        };
        let b: u8 = v0 * 16 + v1;
        let ghost before = out@;
        out.push(b);
        proof {
            assert(t.skip(2) =~= value@.skip(i + 2));
            if unhex_of(value@.skip(i + 2)) is Some {
                assert(before + (seq![b] + unhex_of(t.skip(2)).unwrap()) =~= out@ + unhex_of(
                    value@.skip(i + 2),
                ).unwrap());
            }
        }
        i = i + 2;
    }
    proof {
        assert(value@.skip(n as int) =~= Seq::<char>::empty());
        assert(out@ + Seq::<u8>::empty() =~= out@);
    }
    Ok(out)
}

/// An odd number of characters never decodes.
proof fn lemma_unhex_odd_none(s: Seq<char>)
    requires
        s.len() % 2 == 1,
    ensures
        unhex_of(s) is None,
    decreases s.len(),
{
    if s.len() > 1 && is_hex_digit(s[0]) && is_hex_digit(s[1]) {
        lemma_unhex_odd_none(s.skip(2));
    }
}

/// The value of one hex digit, in either case; `None` otherwise.
fn hex_val_of(c: char) -> (r: Option<u8>)
    ensures
        (r is Some) == is_hex_digit(c),
        r matches Some(v) ==> v as int == hex_digit_val(c) && v < 16,
{
    let u = c as u32;
    if 48 <= u && u <= 57 {
        Some((u - 48) as u8)
    } else if 65 <= u && u <= 70 {
        Some((u - 55) as u8)
    } else if 97 <= u && u <= 102 {
        Some((u - 87) as u8)
    } else {
        None
    }
}

// ---------------------------------------------------------------------
// Decimal argument values
// ---------------------------------------------------------------------
/// An ASCII decimal digit.
pub open spec fn is_dec_digit(c: char) -> bool {
    48 <= c as int && c as int <= 57
}

/// Every character is a decimal digit.
pub open spec fn all_dec_digits(s: Seq<char>) -> bool {
    forall|i: int| 0 <= i < s.len() ==> is_dec_digit(#[trigger] s[i])
}

/// The value of a digit string read left to right onto an accumulator.
pub open spec fn dv_acc(s: Seq<char>, acc: int) -> int
    decreases s.len(),
{
    if s.len() == 0 {
        acc
    } else {
        dv_acc(s.drop_first(), acc * 10 + (s[0] as int - 48))
    }
}

/// The value a digit string denotes.
pub open spec fn digits_val(s: Seq<char>) -> int {
    dv_acc(s, 0)
}

/// The integer a decimal token denotes: an optional sign, then one or more
/// digits; `None` otherwise. Leading zeros are allowed.
pub open spec fn dec_int_of(s: Seq<char>) -> Option<int> {
    if s.len() == 0 {
        None
    } else if s[0] == '-' {
        if s.len() >= 2 && all_dec_digits(s.skip(1)) {
            Some(-digits_val(s.skip(1)))
        } else {
            None
        }
    } else if s[0] == '+' {
        if s.len() >= 2 && all_dec_digits(s.skip(1)) {
            Some(digits_val(s.skip(1)))
        } else {
            None
        }
    } else if all_dec_digits(s) {
        Some(digits_val(s))
    } else {
        None
    }
}

/// Reading more digits never shrinks a nonnegative accumulator.
proof fn lemma_dv_acc_mono(s: Seq<char>, acc: int)
    requires
        acc >= 0,
        all_dec_digits(s),
    ensures
        dv_acc(s, acc) >= acc,
    decreases s.len(),
{
    if s.len() > 0 {
        assert(is_dec_digit(s[0]));
        assert(all_dec_digits(s.drop_first())) by {
            assert(forall|i: int|
                0 <= i < s.drop_first().len() ==> s.drop_first()[i] == s[i + 1]);
        }
        lemma_dv_acc_mono(s.drop_first(), acc * 10 + (s[0] as int - 48));
    }
}

/// Reads the digits of `s` from `start` on; `None` when there are none,
/// when a non-digit appears, or when the value tops 2^31.
fn dec_digits_capped(s: &str, start: usize) -> (r: Option<u64>)
    requires
        start as int <= s@.len(),
    ensures
        ({
            let ds = s@.skip(start as int);
            &&& (ds.len() == 0 || !all_dec_digits(ds)) ==> r is None
            &&& (ds.len() > 0 && all_dec_digits(ds)) ==> (match r {
                Some(v) => v as int == digits_val(ds) && v <= 0x8000_0000,
                None => digits_val(ds) > 0x8000_0000,
            })
        }),
{
    let ghost ds = s@.skip(start as int);
    let n = s.unicode_len();
    if start >= n {
        return None;
    }
    let mut acc: u64 = 0;
    let mut i: usize = start;
    while i < n
        invariant
            start <= i <= n,
            n == s@.len(),
            acc <= 0x8000_0000,
            ds == s@.skip(start as int),
            all_dec_digits(s@.subrange(start as int, i as int)),
            dv_acc(ds, 0) == dv_acc(s@.skip(i as int), acc as int),
        decreases n - i,
    {
        let c = s.get_char(i);
        let u = c as u32;
        if u < 48 || u > 57 {
            proof {
                assert(ds[i - start] == s@[i as int]);
                assert(!is_dec_digit(ds[i - start]));
            }
            return None;
        }
        let d = (u - 48) as u64;
        proof {
            let t = s.view().skip(i as int);
            assert(t[0] == s@[i as int]);
            assert(t.drop_first() =~= s@.skip(i + 1));
            assert(dv_acc(t, acc as int) == dv_acc(
                s@.skip(i + 1),
                acc as int * 10 + (s@[i as int] as int - 48),
            ));
            assert(s@.subrange(start as int, i + 1).drop_last() =~= s@.subrange(
                start as int,
                i as int,
            ));
        }
        acc = acc * 10 + d;
        if acc > 0x8000_0000 {
            proof {
                if all_dec_digits(ds) {
                    assert(all_dec_digits(s@.skip(i + 1))) by {
                        assert(forall|k: int|
                            0 <= k < s@.skip(i + 1).len() ==> #[trigger] s@.skip(i + 1)[k] == ds[
                                k + (i + 1 - start)
                            ]);
                    }
                    lemma_dv_acc_mono(s@.skip(i + 1), acc as int);
                }
            }
            return None;
        }
        i = i + 1;
    }
    proof {
        assert(s@.skip(n as int) =~= Seq::<char>::empty());
        assert(s@.subrange(start as int, n as int) =~= ds);
    }
    Some(acc)
}

/// Parses a 32-bit decimal value: optional sign, digits, value in range.
/// Fails with `ArgumentFormat` exactly on malformed or out-of-range input.
pub fn parse_i32_dec(s: &str) -> (r: Result<i32, LoaderError>)
    ensures
        (r is Ok) <==> (dec_int_of(s@) matches Some(n) && i32::MIN <= n <= i32::MAX),
        r matches Ok(v) ==> dec_int_of(s@) == Some(v as int),
        r is Err ==> r == Err::<i32, LoaderError>(LoaderError::ArgumentFormat),
{
    let n = s.unicode_len();
    if n == 0 {
        return Err(LoaderError::ArgumentFormat);
    }
    let c0 = s.get_char(0);
    if c0 == '-' {
        match dec_digits_capped(s, 1) {
            Some(v) => Ok((-(v as i64)) as i32),
            None => Err(LoaderError::ArgumentFormat),
        }
    } else if c0 == '+' {
        match dec_digits_capped(s, 1) {
            Some(v) => {
                if v <= 0x7FFF_FFFF {
                    Ok(v as i32)
                } else {
                    Err(LoaderError::ArgumentFormat)
                }
            },
            None => Err(LoaderError::ArgumentFormat),
        }
    } else {
        match dec_digits_capped(s, 0) {
            Some(v) => {
                if v <= 0x7FFF_FFFF {
                    proof {
                        assert(s@.skip(0) =~= s@);
                    }
                    Ok(v as i32)
                } else {
                    proof {
                        assert(s@.skip(0) =~= s@);
                    }
                    Err(LoaderError::ArgumentFormat)
                }
            },
            None => {
                proof {
                    assert(s@.skip(0) =~= s@);
                }
                Err(LoaderError::ArgumentFormat)
            },
        }
    }
}

/// Parses a 16-bit decimal value: optional sign, digits, value in range.
/// Fails with `ArgumentFormat` exactly on malformed or out-of-range input.
pub fn parse_i16_dec(s: &str) -> (r: Result<i16, LoaderError>)
    ensures
        (r is Ok) <==> (dec_int_of(s@) matches Some(n) && i16::MIN <= n <= i16::MAX),
        r matches Ok(v) ==> dec_int_of(s@) == Some(v as int),
        r is Err ==> r == Err::<i16, LoaderError>(LoaderError::ArgumentFormat),
{
    let n = s.unicode_len();
    if n == 0 {
        return Err(LoaderError::ArgumentFormat);
    }
    let c0 = s.get_char(0);
    if c0 == '-' {
        match dec_digits_capped(s, 1) {
            Some(v) => {
                if v <= 0x8000 {
                    Ok((-(v as i32)) as i16)
                } else {
                    Err(LoaderError::ArgumentFormat)
                }
            },
            None => Err(LoaderError::ArgumentFormat),
        }
    } else if c0 == '+' {
        match dec_digits_capped(s, 1) {
            Some(v) => {
                if v <= 0x7FFF {
                    Ok(v as i16)
                } else {
                    Err(LoaderError::ArgumentFormat)
                }
            },
            None => Err(LoaderError::ArgumentFormat),
        }
    } else {
        match dec_digits_capped(s, 0) {
            Some(v) => {
                proof {
                    assert(s@.skip(0) =~= s@);
                }
                if v <= 0x7FFF {
                    Ok(v as i16)
                } else {
                    Err(LoaderError::ArgumentFormat)
                }
            },
            None => {
                proof {
                    assert(s@.skip(0) =~= s@);
                }
                Err(LoaderError::ArgumentFormat)
            },
        }
    }
}

// ---------------------------------------------------------------------
// Trusted edges: whitespace trimming and base64
// ---------------------------------------------------------------------
/// The characters of `s` with leading and trailing whitespace removed, as
/// `str::trim` leaves them. A function of the characters alone.
pub uninterp spec fn trimmed_of(s: Seq<char>) -> Seq<char>;

/// Relies on str::trim: the same characters with leading and trailing
/// whitespace removed.
#[verifier::external_body]
fn trim_ws<'a>(s: &'a str) -> (r: &'a str)
    ensures
        r@ == trimmed_of(s@),
{
    s.trim()
}

/// The bytes a standard-alphabet base64 text denotes, or `None` when the
/// text is not well-formed base64. A function of the characters alone.
pub uninterp spec fn base64_decoded(s: Seq<char>) -> Option<Seq<u8>>;

/// Relies on base64's `BASE64_STANDARD` engine: `decode` succeeds exactly
/// on well-formed standard base64 and returns the denoted bytes.
#[verifier::external_body]
fn base64_decode(s: &str) -> (r: Option<Vec<u8>>)
    ensures
        (r is Some) == (base64_decoded(s@) is Some),
        r matches Some(v) ==> base64_decoded(s@) == Some(v@),
{
    match base64::Engine::decode(&base64::prelude::BASE64_STANDARD, s) {
        Ok(v) => Some(v),
        Err(_) => None,
    }
}

// ---------------------------------------------------------------------
// Argument tokens
// ---------------------------------------------------------------------
/// The index of the first `:`, or a negative value when there is none.
pub open spec fn first_colon(s: Seq<char>) -> int
    decreases s.len(),
{
    if s.len() == 0 {
        -1
    } else if s[0] == ':' {
        0
    } else if first_colon(s.drop_first()) < 0 {
        -1
    } else {
        1 + first_colon(s.drop_first())
    }
}

proof fn lemma_first_colon_at(s: Seq<char>, j: int)
    requires
        0 <= j < s.len(),
        s[j] == ':',
        forall|k: int| 0 <= k < j ==> s[k] != ':',
    ensures
        first_colon(s) == j,
    decreases j,
{
    if j > 0 {
        assert(s[0] != ':');
        let t = s.drop_first();
        assert(t[j - 1] == s[j]);
        assert(forall|k: int| 0 <= k < j - 1 ==> #[trigger] t[k] == s[k + 1]);
        lemma_first_colon_at(t, j - 1);
    }
}

proof fn lemma_first_colon_none(s: Seq<char>)
    requires
        forall|k: int| 0 <= k < s.len() ==> s[k] != ':',
    ensures
        first_colon(s) < 0,
    decreases s.len(),
{
    if s.len() > 0 {
        let t = s.drop_first();
        assert(forall|k: int| 0 <= k < t.len() ==> #[trigger] t[k] == s[k + 1]);
        lemma_first_colon_none(t);
    }
}

fn find_colon(s: &str) -> (r: Option<usize>)
    ensures
        r matches Some(j) ==> j < s@.len() && first_colon(s@) == j,
        r is None ==> first_colon(s@) < 0,
{
    let n = s.unicode_len();
    let mut i: usize = 0;
    while i < n
        invariant
            i <= n,
            n == s@.len(),
            forall|k: int| 0 <= k < i ==> s@[k] != ':',
        decreases n - i,
    {
        if s.get_char(i) == ':' {
            proof {
                lemma_first_colon_at(s@, i as int);
            }
            return Some(i);
        }
        i = i + 1;
    }
    proof {
        lemma_first_colon_none(s@);
    }
    None
}

fn str_eq(a: &str, b: &str) -> (r: bool)
    ensures
        r == (a@ == b@),
{
    let na = a.unicode_len();
    let nb = b.unicode_len();
    if na != nb {
        return false;
    }
    let mut i: usize = 0;
    while i < na
        invariant
            i <= na,
            na == a@.len(),
            na == b@.len(),
            forall|k: int| 0 <= k < i ==> a@[k] == b@[k],
        decreases na - i,
    {
        if a.get_char(i) != b.get_char(i) {
            return false;
        }
        i = i + 1;
    }
    proof {
        assert(a@ =~= b@);
    }
    true
}

/// One argument as parsed from its `<type>:<value>` token, holding the
/// runtime value that will be packed.
pub enum ParsedArg {
    Short(i16),
    Int(i32),
    Str(String),
    Wstr(String),
    Bin(Vec<u8>),
}

impl View for ParsedArg {
    type V = PackItem;

    open spec fn view(&self) -> PackItem {
        match self {
            ParsedArg::Short(v) => PackItem::Short(*v),
            ParsedArg::Int(v) => PackItem::Int(*v),
            ParsedArg::Str(s) => PackItem::Str(s@),
            ParsedArg::Wstr(s) => PackItem::Wstr(s@),
            ParsedArg::Bin(b) => PackItem::Bin(b@),
        }
    }
}

/// The packed item a `<type>:<value>` token denotes, with both parts
/// trimmed: `str`/`wstr` take the value verbatim, `int`/`short` parse a
/// decimal in range, `bin` decodes base64. `None` when the token has no
/// colon, an unknown type, or a malformed value.
pub open spec fn parse_token(arg: Seq<char>) -> Option<PackItem> {
    let j = first_colon(arg);
    if j < 0 {
        None
    } else {
        let ty = trimmed_of(arg.take(j));
        let val = trimmed_of(arg.skip(j + 1));
        if ty == "str"@ {
            Some(PackItem::Str(val))
        } else if ty == "wstr"@ {
            Some(PackItem::Wstr(val))
        } else if ty == "int"@ {
            match dec_int_of(val) {
                Some(v) => if i32::MIN <= v <= i32::MAX {
                    Some(PackItem::Int(v as i32))
                } else {
                    None
                },
                None => None,
            }
        } else if ty == "short"@ {
            match dec_int_of(val) {
                Some(v) => if i16::MIN <= v <= i16::MAX {
                    Some(PackItem::Short(v as i16))
                } else {
                    None
                },
                None => None,
            }
        } else if ty == "bin"@ {
            match base64_decoded(val) {
                Some(b) => Some(PackItem::Bin(b)),
                None => None,
            }
        } else {
            None
        }
    }
}

/// The packed items a token list denotes, in order; `None` as soon as one
/// token is malformed.
pub open spec fn items_of_args(args: Seq<Seq<char>>) -> Option<Seq<PackItem>>
    decreases args.len(),
{
    if args.len() == 0 {
        Some(Seq::empty())
    } else {
        match parse_token(args[0]) {
            Some(it) => match items_of_args(args.drop_first()) {
                Some(rest) => Some(seq![it] + rest),
                None => None,
            },
            None => None,
        }
    }
}

/// Parses one `<type>:<value>` token.
pub fn token_to_item(arg: &str) -> (r: Result<ParsedArg, LoaderError>)
    ensures
        (r is Ok) <==> (parse_token(arg@) is Some),
        r matches Ok(p) ==> parse_token(arg@) == Some(p@),
        r is Err ==> r == Err::<ParsedArg, LoaderError>(LoaderError::ArgumentFormat),
{
    let n = arg.unicode_len();
    let j = match find_colon(arg) {
        Some(j) => j,
        None => {
            return Err(LoaderError::ArgumentFormat);
        },
    };
    let ty_raw = arg.substring_char(0, j);
    let val_raw = arg.substring_char(j + 1, n);
    let ty = trim_ws(ty_raw);
    let val = trim_ws(val_raw);
    proof {
        assert(arg@.subrange(0, j as int) =~= arg@.take(j as int));
        assert(arg@.subrange(j + 1, n as int) =~= arg@.skip(j + 1));
    }
    if str_eq(ty, "str") {
        Ok(ParsedArg::Str(val.to_owned()))
    } else if str_eq(ty, "wstr") {
        Ok(ParsedArg::Wstr(val.to_owned()))
    } else if str_eq(ty, "int") {
        match parse_i32_dec(val) {
            Ok(v) => Ok(ParsedArg::Int(v)),
            Err(_) => Err(LoaderError::ArgumentFormat),
        }
    } else if str_eq(ty, "short") {
        match parse_i16_dec(val) {
            Ok(v) => Ok(ParsedArg::Short(v)),
            Err(_) => Err(LoaderError::ArgumentFormat),
        }
    } else if str_eq(ty, "bin") {
        match base64_decode(val) {
            Some(b) => Ok(ParsedArg::Bin(b)),
            None => Err(LoaderError::ArgumentFormat),
        }
    } else {
        Err(LoaderError::ArgumentFormat)
    }
}

proof fn lemma_size_nonneg(items: Seq<PackItem>)
    ensures
        size_of_items(items) >= 0,
    decreases items.len(),
{
    if items.len() > 0 {
        lemma_size_nonneg(items.drop_first());
    }
}

proof fn lemma_size_take_le(items: Seq<PackItem>, j: int)
    requires
        0 <= j <= items.len(),
    ensures
        size_of_items(items) >= size_of_items(items.take(j)),
    decreases items.len(),
{
    if j == 0 {
        assert(items.take(0) =~= Seq::<PackItem>::empty());
        lemma_size_nonneg(items);
    } else {
        let rest = items.drop_first();
        assert(items.take(j)[0] == items[0]);
        assert(items.take(j).drop_first() =~= rest.take(j - 1));
        lemma_size_take_le(rest, j - 1);
    }
}

/// When adding record `j` overruns the 32-bit size, the whole list does.
proof fn lemma_capacity_exceeded(items: Seq<PackItem>, j: int)
    requires
        0 <= j < items.len(),
        size_of_items(items.take(j)) + record_size(items[j]) > u32::MAX,
    ensures
        size_of_items(items) > u32::MAX,
{
    lemma_size_of_push(items.take(j), items[j]);
    assert(items.take(j + 1) =~= items.take(j).push(items[j]));
    lemma_size_take_le(items, j + 1);
}

/// Turns `<type>:<value>` tokens into the packed argument stream and
/// returns it hex-encoded, upper-case without separators, size prefix
/// first. `ArgumentFormat` exactly when some token is malformed;
/// `CapacityExceeded` exactly when the well-formed records outgrow the
/// 32-bit size prefix.
pub fn hexlify_args(args: &Vec<String>) -> (r: Result<String, LoaderError>)
    ensures
        ((items_of_args(args@.map_values(|s: String| s@)) is None) <==> r == Err::<
            String,
            LoaderError,
        >(LoaderError::ArgumentFormat)),
        ((items_of_args(args@.map_values(|s: String| s@)) matches Some(items)
            && size_of_items(items) > u32::MAX) <==> r == Err::<String, LoaderError>(
            LoaderError::CapacityExceeded,
        )),
        r is Err ==> r == Err::<String, LoaderError>(LoaderError::ArgumentFormat) || r == Err::<
            String,
            LoaderError,
        >(LoaderError::CapacityExceeded),
        r matches Ok(out) ==> (items_of_args(args@.map_values(|s: String| s@)) matches Some(items)
            && size_of_items(items) <= u32::MAX && out@ == hex_chars_of(
            spec_u32_to_le_bytes((size_of_items(items) as u32)) + body_of(items),
        )),
{
    let ghost toks = args@.map_values(|s: String| s@);
    let mut parsed: Vec<ParsedArg> = Vec::new();
    let mut idx: usize = 0;
    proof {
        assert(toks.skip(0) =~= toks);
    }
    while idx < args.len()
        invariant
            idx <= args@.len(),
            toks == args@.map_values(|s: String| s@),
            parsed@.len() == idx,
            items_of_args(toks.skip(idx as int)) is None ==> items_of_args(toks) is None,
            items_of_args(toks.skip(idx as int)) matches Some(rest) ==> (items_of_args(toks)
                matches Some(full) && full == parsed@.map_values(|p: ParsedArg| p@) + rest),
        decreases args@.len() - idx,
    {
        let ghost t = toks.skip(idx as int);
        proof {
            assert(t[0] == toks[idx as int]);
            assert(t.drop_first() =~= toks.skip(idx + 1));
        }
        let item = match token_to_item(args[idx].as_str()) {
            Ok(p) => p,
            Err(_) => {
                return Err(LoaderError::ArgumentFormat);
            },
        };
        proof {
            let f = |p: ParsedArg| p@;
            assert(parsed@.push(item).map_values(f) =~= parsed@.map_values(f).push(item@));
            if items_of_args(toks.skip(idx + 1)) is Some {
                let rest = items_of_args(toks.skip(idx + 1)).unwrap();
                assert(parsed@.map_values(f) + (seq![item@] + rest) =~= parsed@.map_values(
                    f,
                ).push(item@) + rest);
            }
        }
        parsed.push(item);
        idx = idx + 1;
    }
    proof {
        assert(toks.skip(args@.len() as int) =~= Seq::<Seq<char>>::empty());
        assert(parsed@.map_values(|p: ParsedArg| p@) + Seq::<PackItem>::empty() =~= parsed@
            .map_values(|p: ParsedArg| p@));
    }
    let ghost pitems = parsed@.map_values(|p: ParsedArg| p@);
    let mut bp = BeaconPack::new();
    proof {
        assert(pitems.take(0) =~= Seq::<PackItem>::empty());
    }
    let m = parsed.len();
    let mut j: usize = 0;
    while j < m
        invariant
            j <= m,
            m == parsed@.len(),
            bp.wf(),
            bp.items@ == pitems.take(j as int),
            pitems == parsed@.map_values(|p: ParsedArg| p@),
            toks == args@.map_values(|s: String| s@),
            items_of_args(toks) == Some(pitems),
        decreases m - j,
    {
        proof {
            lemma_total_size(pitems.take(j as int));
            assert(parsed@[j as int]@ == pitems[j as int]);
        }
        match &parsed[j] {
            ParsedArg::Short(v) => {
                match bp.add_short(*v) {
                    Ok(_) => {},
                    Err(_) => {
                        proof {
                            lemma_capacity_exceeded(pitems, j as int);
                        }
                        return Err(LoaderError::CapacityExceeded);
                    },
                }
            },
            ParsedArg::Int(v) => {
                match bp.add_int(*v) {
                    Ok(_) => {},
                    Err(_) => {
                        proof {
                            lemma_capacity_exceeded(pitems, j as int);
                        }
                        return Err(LoaderError::CapacityExceeded);
                    },
                }
            },
            ParsedArg::Str(s) => {
                match bp.add_str(s.as_str()) {
                    Ok(_) => {},
                    Err(_) => {
                        proof {
                            lemma_capacity_exceeded(pitems, j as int);
                        }
                        return Err(LoaderError::CapacityExceeded);
                    },
                }
            },
            ParsedArg::Wstr(s) => {
                match bp.add_wstr(s.as_str()) {
                    Ok(_) => {},
                    Err(_) => {
                        proof {
                            lemma_capacity_exceeded(pitems, j as int);
                        }
                        return Err(LoaderError::CapacityExceeded);
                    },
                }
            },
            ParsedArg::Bin(b) => {
                match bp.add_bin(b.as_slice()) {
                    Ok(_) => {},
                    Err(_) => {
                        proof {
                            lemma_capacity_exceeded(pitems, j as int);
                        }
                        return Err(LoaderError::CapacityExceeded);
                    },
                }
            },
        }
        proof {
            assert(pitems.take(j + 1) =~= pitems.take(j as int).push(pitems[j as int]));
        }
        j = j + 1;
    }
    proof {
        assert(pitems.take(m as int) =~= pitems);
        lemma_total_size(pitems);
    }
    let blob = match bp.get_buffer() {
        Ok(v) => v,
        Err(_) => {
            return Err(LoaderError::CapacityExceeded);
        },
    };
    let out = hex_encode(blob.as_slice());
    Ok(out)
}

} // verus!
