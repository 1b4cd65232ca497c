use onionpipe::onion::{
    base32_decode, base32_encode, derive_onion_address, generate_service_key, parse_onion_addr,
    OnionAddrError,
};

// The Tor Project's own v3 onion address, checksum and all.
const REAL_ADDR: &str = "2gzyxa5ihm7nsggfxnu52rck2vv4rvmdlkiu3zzui5du4xyclen53wid";

#[test]
fn onion_addr_accepts_the_four_forms() {
    let (a, port) = parse_onion_addr(REAL_ADDR).unwrap();
    assert_eq!(a.without_dot_onion(), REAL_ADDR);
    assert_eq!(port, 80);

    let (a, port) = parse_onion_addr(&format!("{}.onion", REAL_ADDR)).unwrap();
    assert_eq!(a.without_dot_onion(), REAL_ADDR);
    assert_eq!(port, 80);

    let (a, port) = parse_onion_addr(&format!("{}:9001", REAL_ADDR)).unwrap();
    assert_eq!(a.without_dot_onion(), REAL_ADDR);
    assert_eq!(port, 9001);

    let (a, port) = parse_onion_addr(&format!("{}.onion:9001", REAL_ADDR)).unwrap();
    assert_eq!(a.with_dot_onion(), format!("{}.onion", REAL_ADDR));
    assert_eq!(port, 9001);
}

#[test]
fn onion_addr_normalizes_case() {
    let upper = REAL_ADDR.to_uppercase();
    let (a, _) = parse_onion_addr(&upper).unwrap();
    assert_eq!(a.without_dot_onion(), REAL_ADDR);
}

#[test]
fn onion_addr_rejects_everything_else() {
    assert_eq!(parse_onion_addr("xyz123"), Err(OnionAddrError::BadLength));
    assert_eq!(
        parse_onion_addr(&"a".repeat(57)),
        Err(OnionAddrError::BadLength)
    );
    // 56 characters outside the base32 alphabet.
    assert_eq!(
        parse_onion_addr(&"1".repeat(56)),
        Err(OnionAddrError::BadAlphabet)
    );
    // A wrong suffix.
    assert_eq!(
        parse_onion_addr(&format!("{}.shallot", REAL_ADDR)),
        Err(OnionAddrError::BadFormat)
    );
    assert_eq!(
        parse_onion_addr(&format!("{}.onion:", REAL_ADDR)),
        Err(OnionAddrError::BadPort)
    );
    assert_eq!(
        parse_onion_addr(&format!("{}.onion:x", REAL_ADDR)),
        Err(OnionAddrError::BadPort)
    );
    assert_eq!(
        parse_onion_addr(&format!("{}:65536", REAL_ADDR)),
        Err(OnionAddrError::BadPort)
    );
    // A valid-looking address with its last character changed breaks the
    // checksum.
    let mut broken: String = REAL_ADDR[..55].to_string();
    broken.push(if REAL_ADDR.ends_with('d') { 'e' } else { 'd' });
    let r = parse_onion_addr(&broken);
    assert!(
        r == Err(OnionAddrError::BadChecksum) || r == Err(OnionAddrError::BadVersion),
        "unexpected: {:?}",
        r
    );
}

#[test]
fn base32_round_trips() {
    let bytes: Vec<u8> = (0u8..35).collect();
    let text = base32_encode(&bytes);
    assert_eq!(text.len(), 56);
    let back = base32_decode(&text).unwrap();
    assert_eq!(back, bytes);
    // A known vector: "hello" in RFC 4648 base32 (lowercase, unpadded
    // multiples of five bytes only).
    let hello: Vec<u8> = b"hello".to_vec();
    assert_eq!(base32_encode(&hello), "nbswy3dp");
    assert_eq!(base32_decode("nbswy3dp").unwrap(), hello);
    assert_eq!(base32_decode("NBSWY3DP").unwrap(), hello);
    assert!(base32_decode("nbswy3d1").is_none());
    assert!(base32_decode("nbswy3d").is_none());
}

#[test]
fn generated_keys_are_clamped_and_name_stable_addresses() {
    let k1 = generate_service_key();
    assert_eq!(k1.len(), 64);
    assert_eq!(k1[0] & 7, 0);
    assert_eq!(k1[31] & 128, 0);
    assert_eq!(k1[31] & 64, 64);

    // One key derives one address, every time; and the derived address is
    // itself a valid v3 onion address.
    let a1 = derive_onion_address(&k1);
    let a2 = derive_onion_address(&k1);
    assert_eq!(a1, a2);
    let text = a1.without_dot_onion();
    assert_eq!(text.len(), 56);
    let (parsed, port) = parse_onion_addr(text).unwrap();
    assert_eq!(parsed.without_dot_onion(), text);
    assert_eq!(port, 80);

    // Two fresh keys almost surely differ, and then so do their addresses.
    let k2 = generate_service_key();
    if k1[..32] != k2[..32] {
        assert_ne!(
            derive_onion_address(&k1).without_dot_onion(),
            derive_onion_address(&k2).without_dot_onion()
        );
    }
}
