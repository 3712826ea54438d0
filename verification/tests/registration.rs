use autoresearch::registration::{
    competitions_registration_payload, write_tlv, TLV_API_ENDPOINT, TLV_MAX_CAPACITY,
    TLV_SUPPORTED_SCORERS,
};

#[test]
fn roundtrip_full_payload() {
    let payload = competitions_registration_payload(
        8,
        "http://localhost:9300",
        "held_out_eval,private_oracle",
    );

    let mut pos = 0;

    assert_eq!(payload[pos], TLV_MAX_CAPACITY);
    pos += 1;
    let len = u16::from_be_bytes([payload[pos], payload[pos + 1]]) as usize;
    pos += 2;
    assert_eq!(len, 4);
    let cap = u32::from_be_bytes(payload[pos..pos + 4].try_into().unwrap());
    assert_eq!(cap, 8);
    pos += len;

    assert_eq!(payload[pos], TLV_API_ENDPOINT);
    pos += 1;
    let len = u16::from_be_bytes([payload[pos], payload[pos + 1]]) as usize;
    pos += 2;
    assert_eq!(
        std::str::from_utf8(&payload[pos..pos + len]).unwrap(),
        "http://localhost:9300"
    );
    pos += len;

    assert_eq!(payload[pos], TLV_SUPPORTED_SCORERS);
    pos += 1;
    let len = u16::from_be_bytes([payload[pos], payload[pos + 1]]) as usize;
    pos += 2;
    assert_eq!(
        std::str::from_utf8(&payload[pos..pos + len]).unwrap(),
        "held_out_eval,private_oracle"
    );
    pos += len;

    assert_eq!(pos, payload.len(), "payload fully consumed");
}

#[test]
fn empty_optional_fields_emit_only_capacity() {
    let payload = competitions_registration_payload(3, "", "");
    assert_eq!(payload.len(), 7);
    assert_eq!(payload[0], TLV_MAX_CAPACITY);
    let cap = u32::from_be_bytes(payload[3..7].try_into().unwrap());
    assert_eq!(cap, 3);
}

#[test]
fn payload_bytes_are_exact() {
    assert_eq!(
        competitions_registration_payload(0x0102_0304, "", "ab"),
        vec![1, 0, 4, 1, 2, 3, 4, 3, 0, 2, b'a', b'b']
    );
}

#[test]
fn an_overlong_value_is_cut_to_the_largest_length() {
    let value = vec![7u8; 65_536];
    let mut buf = vec![9u8];
    write_tlv(&mut buf, 2, &value);
    assert_eq!(&buf[..4], &[9, 2, 0xff, 0xff]);
    assert_eq!(buf.len(), 4 + 65_535);
    write_tlv(&mut buf, 3, b"next");
    assert_eq!(&buf[4 + 65_535..], &[3, 0, 4, b'n', b'e', b'x', b't']);
}

#[test]
fn what_follows_an_overlong_endpoint_can_be_read() {
    let endpoint = "e".repeat(70_000);
    let payload = competitions_registration_payload(1, &endpoint, "ab");
    let at = 7 + 3 + 65_535;
    assert_eq!(&payload[7..10], &[2, 0xff, 0xff]);
    assert_eq!(&payload[at..], &[3, 0, 2, b'a', b'b']);
}
