use irium_poawx::nat_pmp::{
    decode_external_address_response, decode_map_response, encode_external_address_request,
    encode_map_request, is_publicly_dialable, parse_default_gateway_v4, NatPmpError, PortMapping, OP_MAP_TCP, RESP_FLAG,
};

#[test]
fn map_request_matches_rfc6886_layout() {
    let req = encode_map_request(38291, 38291, 3600);
    assert_eq!(req[0], 0, "version 0");
    assert_eq!(req[1], 2, "opcode 2 = map TCP");
    assert_eq!(&req[2..4], &[0, 0], "reserved must be zero");
    assert_eq!(u16::from_be_bytes([req[4], req[5]]), 38291, "internal port");
    assert_eq!(u16::from_be_bytes([req[6], req[7]]), 38291, "suggested external");
    assert_eq!(u32::from_be_bytes([req[8], req[9], req[10], req[11]]), 3600, "lifetime");
}

fn ok_response(internal: u16, external: u16, lifetime: u32) -> Vec<u8> {
    let mut b = vec![0u8; 16];
    b[1] = OP_MAP_TCP + RESP_FLAG;
    b[8..10].copy_from_slice(&internal.to_be_bytes());
    b[10..12].copy_from_slice(&external.to_be_bytes());
    b[12..16].copy_from_slice(&lifetime.to_be_bytes());
    b
}

#[test]
fn decodes_a_successful_mapping() {
    let m = decode_map_response(&ok_response(38291, 40000, 3600), 38291).unwrap();
    assert_eq!(m, PortMapping { internal_port: 38291, external_port: 40000, lifetime_secs: 3600 });
}

#[test]
fn rejects_every_malformed_or_error_response() {
    assert!(decode_map_response(&[0u8; 8], 38291).is_err());
    let mut r = ok_response(38291, 40000, 3600);
    r[0] = 1;
    assert!(decode_map_response(&r, 38291).is_err(), "wrong version");
    let mut r = ok_response(38291, 40000, 3600);
    r[1] = 129;
    assert!(decode_map_response(&r, 38291).is_err(), "wrong opcode");
    let mut r = ok_response(38291, 40000, 3600);
    r[2..4].copy_from_slice(&2u16.to_be_bytes());
    assert!(decode_map_response(&r, 38291).is_err(), "error result code");
    assert!(decode_map_response(&ok_response(1234, 40000, 3600), 38291).is_err(), "port mismatch");
    assert!(decode_map_response(&ok_response(38291, 0, 3600), 38291).is_err());
    assert!(decode_map_response(&ok_response(38291, 40000, 0), 38291).is_err());
}

#[test]
fn map_response_errors_name_their_cause() {
    assert_eq!(decode_map_response(&[0u8; 8], 1), Err(NatPmpError::ShortResponse(8)));
    let mut r = ok_response(38291, 40000, 3600);
    r[0] = 1;
    assert_eq!(decode_map_response(&r, 38291), Err(NatPmpError::UnsupportedVersion(1)));
    let mut r = ok_response(38291, 40000, 3600);
    r[1] = 129;
    assert_eq!(decode_map_response(&r, 38291), Err(NatPmpError::UnexpectedOpcode(129)));
    let mut r = ok_response(38291, 40000, 3600);
    r[2..4].copy_from_slice(&2u16.to_be_bytes());
    assert_eq!(decode_map_response(&r, 38291), Err(NatPmpError::GatewayResult(2)));
    assert_eq!(
        decode_map_response(&ok_response(1234, 40000, 3600), 38291),
        Err(NatPmpError::PortMismatch(1234, 38291))
    );
    assert_eq!(decode_map_response(&ok_response(38291, 0, 3600), 38291), Err(NatPmpError::ZeroExternalPort));
    assert_eq!(decode_map_response(&ok_response(38291, 40000, 0), 38291), Err(NatPmpError::ZeroLifetime));
}

fn addr_response(ip: [u8; 4]) -> Vec<u8> {
    let mut b = vec![0u8; 12];
    b[1] = RESP_FLAG;
    b[8..12].copy_from_slice(&ip);
    b
}

#[test]
fn decodes_a_public_external_address() {
    assert_eq!(decode_external_address_response(&addr_response([203, 0, 113, 5])).ok(), None);
    assert_eq!(decode_external_address_response(&addr_response([9, 9, 9, 9])).unwrap(), [9, 9, 9, 9]);
    assert_eq!(encode_external_address_request(), [0, 0]);
}

#[test]
fn refuses_non_public_external_addresses_including_cgnat() {
    for bad in [
        [192, 168, 1, 1],
        [10, 0, 0, 1],
        [127, 0, 0, 1],
        [169, 254, 0, 1],
        [0, 0, 0, 0],
        [100, 64, 0, 1],
        [100, 127, 255, 1],
    ] {
        assert!(decode_external_address_response(&addr_response(bad)).is_err(), "must refuse {bad:?}");
    }
    assert!(decode_external_address_response(&addr_response([100, 128, 0, 1])).is_ok());
    assert!(decode_external_address_response(&addr_response([100, 63, 255, 1])).is_ok());
    assert_eq!(
        decode_external_address_response(&addr_response([10, 1, 2, 3])),
        Err(NatPmpError::NonPublicAddress(10, 1, 2, 3))
    );
    assert!(!is_publicly_dialable(&[224, 0, 0, 1]));
    assert!(!is_publicly_dialable(&[255, 255, 255, 255]));
    assert!(!is_publicly_dialable(&[172, 16, 0, 1]));
    assert!(is_publicly_dialable(&[172, 32, 0, 1]));
    assert!(!is_publicly_dialable(&[198, 51, 100, 7]));
    assert!(!is_publicly_dialable(&[192, 0, 2, 7]));
}

#[test]
fn parses_the_default_gateway_with_correct_endianness() {
    let table = "Iface\tDestination\tGateway\tFlags\tRefCnt\tUse\tMetric\tMask\n\
                 eth0\t00000000\t0100A8C0\t0003\t0\t0\t0\t00000000\n";
    assert_eq!(parse_default_gateway_v4(table), Some([192, 168, 0, 1]));
}

#[test]
fn ignores_non_default_routes_and_null_gateways() {
    let only_subnet = "Iface\tDestination\tGateway\n\
                       eth0\t0000A8C0\t0100A8C0\n";
    assert_eq!(parse_default_gateway_v4(only_subnet), None, "not a default route");
    let null_gw = "Iface\tDestination\tGateway\n\
                   eth0\t00000000\t00000000\n";
    assert_eq!(parse_default_gateway_v4(null_gw), None, "0.0.0.0 is not a gateway");
}

#[test]
fn gateway_table_edge_cases() {
    assert_eq!(parse_default_gateway_v4(""), None);
    assert_eq!(parse_default_gateway_v4("header only"), None);
    let short_line = "h\neth0 00000000\neth1\t00000000\t0101A8C0\n";
    assert_eq!(parse_default_gateway_v4(short_line), None, "a short line ends the search");
    let crlf = "h\r\neth0\t00000000\t00000000\r\neth1\t00000000\t0201A8C0\r\n";
    assert_eq!(parse_default_gateway_v4(crlf), Some([192, 168, 1, 2]));
    let bad_hex = "h\neth0\t00000000\tzz\n";
    assert_eq!(parse_default_gateway_v4(bad_hex), None);
}
