use coffee::hexargs::{hex_encode, hexlify_args, parse_i16_dec, parse_i32_dec, token_to_item,
    unhexlify_args, ParsedArg};
use coffee::pack::BeaconPack;
use coffee::unpack::BeaconData;
use coffee::LoaderError;

#[test]
fn scenario_packing_str_int_short() {
    let args = vec!["str:AB".to_string(), "int:1".to_string(), "short:-1".to_string()];
    let hex = hexlify_args(&args).unwrap();
    assert_eq!(hex, "0D0000000300000041420001000000FFFF");
}

#[test]
fn scenario_wide_string() {
    let args = vec!["wstr:A".to_string()];
    let hex = hexlify_args(&args).unwrap();
    assert_eq!(hex, "080000000400000041000000");
}

#[test]
fn scenario_bin_base64() {
    let args = vec!["bin:AQID".to_string()];
    let hex = hexlify_args(&args).unwrap();
    assert_eq!(hex, "0700000003000000010203");
}

#[test]
fn pack_blob_bytes_exact() {
    let mut bp = BeaconPack::new();
    bp.add_str("AB").unwrap();
    bp.add_int(1).unwrap();
    bp.add_short(-1).unwrap();
    let blob = bp.get_buffer().unwrap();
    assert_eq!(
        blob,
        vec![
            0x0D, 0x00, 0x00, 0x00, 0x03, 0x00, 0x00, 0x00, 0x41, 0x42, 0x00, 0x01, 0x00, 0x00,
            0x00, 0xFF, 0xFF
        ]
    );
}

#[test]
fn pack_round_trip_all_types() {
    let mut bp = BeaconPack::new();
    bp.add_short(-2).unwrap();
    bp.add_int(-70000).unwrap();
    bp.add_str("hi").unwrap();
    bp.add_wstr("A").unwrap();
    bp.add_bin(&[9, 8, 7]).unwrap();
    let blob = bp.get_buffer().unwrap();
    let mut rd = BeaconData::new(blob.as_slice());
    assert_eq!(rd.data_short(), -2);
    assert_eq!(rd.data_int(), -70000);
    let s = rd.data_extract().unwrap();
    assert_eq!(s, vec![b'h', b'i', 0]);
    let w = rd.data_extract().unwrap();
    assert_eq!(w, vec![0x41, 0x00, 0x00, 0x00]);
    let b = rd.data_extract().unwrap();
    assert_eq!(b, vec![9, 8, 7]);
    assert_eq!(rd.length(), 0);
}

#[test]
fn total_size_counts_prefixes() {
    let mut bp = BeaconPack::new();
    bp.add_str("AB").unwrap();
    bp.add_int(1).unwrap();
    bp.add_short(-1).unwrap();
    // str: 4 + 3, int: 4, short: 2
    assert_eq!(bp.size, 13);
    assert_eq!(bp.buffer.len(), 13);
    let blob = bp.get_buffer().unwrap();
    let prefix = u32::from_le_bytes([blob[0], blob[1], blob[2], blob[3]]);
    assert_eq!(prefix, 13);
}

#[test]
fn wstr_length_field_and_terminator() {
    let mut bp = BeaconPack::new();
    bp.add_wstr("ab").unwrap();
    let blob = bp.get_buffer().unwrap();
    // record length field: 2 units * 2 + 2
    let len_field = u32::from_le_bytes([blob[4], blob[5], blob[6], blob[7]]);
    assert_eq!(len_field, 6);
    assert_eq!(&blob[8..], &[0x61, 0x00, 0x62, 0x00, 0x00, 0x00]);
}

#[test]
fn str_length_field_counts_nul() {
    let mut bp = BeaconPack::new();
    bp.add_str("abc").unwrap();
    let blob = bp.get_buffer().unwrap();
    let len_field = u32::from_le_bytes([blob[4], blob[5], blob[6], blob[7]]);
    assert_eq!(len_field, 4);
    assert_eq!(blob.last(), Some(&0u8));
}

#[test]
fn reader_returns_zero_on_underflow() {
    let blob: Vec<u8> = vec![0, 0, 0, 0];
    let mut rd = BeaconData::new(blob.as_slice());
    assert_eq!(rd.length(), 0);
    assert_eq!(rd.data_int(), 0);
    assert_eq!(rd.data_short(), 0);
    assert!(rd.data_extract().is_none());
}

#[test]
fn reader_on_short_blob_reads_empty() {
    let blob: Vec<u8> = vec![1, 2];
    let mut rd = BeaconData::new(blob.as_slice());
    assert_eq!(rd.length(), 0);
    assert_eq!(rd.data_int(), 0);
}

#[test]
fn hexlify_trims_token_parts() {
    let args = vec![" str : AB".to_string()];
    // both the type and the value are trimmed
    let hex = hexlify_args(&args).unwrap();
    assert_eq!(hex, "0700000003000000414200");
}

#[test]
fn hexlify_rejects_missing_colon() {
    let args = vec!["strAB".to_string()];
    assert_eq!(hexlify_args(&args), Err(LoaderError::ArgumentFormat));
}

#[test]
fn hexlify_rejects_unknown_type() {
    let args = vec!["float:1.5".to_string()];
    assert_eq!(hexlify_args(&args), Err(LoaderError::ArgumentFormat));
}

#[test]
fn hexlify_rejects_bad_int() {
    assert_eq!(
        hexlify_args(&vec!["int:abc".to_string()]),
        Err(LoaderError::ArgumentFormat)
    );
    assert_eq!(
        hexlify_args(&vec!["int:2147483648".to_string()]),
        Err(LoaderError::ArgumentFormat)
    );
    assert_eq!(
        hexlify_args(&vec!["short:40000".to_string()]),
        Err(LoaderError::ArgumentFormat)
    );
    assert_eq!(
        hexlify_args(&vec!["bin:not base64!".to_string()]),
        Err(LoaderError::ArgumentFormat)
    );
}

#[test]
fn hexlify_empty_args_gives_empty_blob() {
    let hex = hexlify_args(&Vec::new()).unwrap();
    assert_eq!(hex, "00000000");
}

#[test]
fn parse_decimal_bounds() {
    assert_eq!(parse_i32_dec("2147483647"), Ok(2147483647));
    assert_eq!(parse_i32_dec("-2147483648"), Ok(-2147483648));
    assert_eq!(parse_i32_dec("+7"), Ok(7));
    assert_eq!(parse_i32_dec("007"), Ok(7));
    assert_eq!(parse_i32_dec("2147483648"), Err(LoaderError::ArgumentFormat));
    assert_eq!(parse_i32_dec(""), Err(LoaderError::ArgumentFormat));
    assert_eq!(parse_i32_dec("-"), Err(LoaderError::ArgumentFormat));
    assert_eq!(parse_i16_dec("-32768"), Ok(-32768));
    assert_eq!(parse_i16_dec("32767"), Ok(32767));
    assert_eq!(parse_i16_dec("32768"), Err(LoaderError::ArgumentFormat));
}

#[test]
fn token_parses_each_type() {
    assert!(matches!(token_to_item("short:5"), Ok(ParsedArg::Short(5))));
    assert!(matches!(token_to_item("int:-9"), Ok(ParsedArg::Int(-9))));
    assert!(matches!(token_to_item("str:x"), Ok(ParsedArg::Str(_))));
    assert!(matches!(token_to_item("wstr:x"), Ok(ParsedArg::Wstr(_))));
    match token_to_item("bin:AQID") {
        Ok(ParsedArg::Bin(b)) => assert_eq!(b, vec![1, 2, 3]),
        other => panic!("expected bin, got {:?}", other.is_ok()),
    }
}

#[test]
fn unhexlify_round_trip() {
    let bytes = unhexlify_args("0D0000000300000041420001000000FFFF").unwrap();
    assert_eq!(bytes[0], 0x0D);
    assert_eq!(bytes.len(), 17);
    let hex = hex_encode(bytes.as_slice());
    assert_eq!(hex, "0D0000000300000041420001000000FFFF");
}

#[test]
fn unhexlify_accepts_lower_case() {
    assert_eq!(unhexlify_args("ff0a"), Ok(vec![0xFF, 0x0A]));
}

#[test]
fn unhexlify_rejects_odd_and_bad_digits() {
    assert_eq!(unhexlify_args("ABC"), Err(LoaderError::ArgumentFormat));
    assert_eq!(unhexlify_args("GG"), Err(LoaderError::ArgumentFormat));
}

#[test]
fn hex_encode_is_upper_case_no_separator() {
    assert_eq!(hex_encode(&[0x00, 0xAB, 0x0F]), "00AB0F");
    assert_eq!(hex_encode(&[]), "");
}
