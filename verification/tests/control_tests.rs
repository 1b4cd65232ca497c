use onionpipe::addr::SockAddr;
use onionpipe::control::{
    add_onion_command, authenticate_null_command, check_reply, conn_error_of_decode,
    decode_response, del_onion_command, take_ownership_command, AuthenticatedConnError, ConnError,
    DecodeError,
};

fn decode(input: &str) -> Result<(u16, Vec<String>, usize), DecodeError> {
    let buf: Vec<u8> = input.as_bytes().to_vec();
    decode_response(&buf, 0).map(|(resp, next)| (resp.code, resp.lines, next))
}

#[test]
fn framing_reads_responses() {
    let cases: Vec<(&str, Option<(u16, Vec<&str>)>)> = vec![
        ("250 Ok line one\r\n", Some((250u16, vec!["Ok line one"]))),
        ("250-L1\r\n250 L2\r\n", Some((250, vec!["L1", "L2"]))),
        (
            "250-LANDER=MAAR\r\n250 L2\r\n",
            Some((250, vec!["LANDER=MAAR", "L2"])),
        ),
        (
            "250-default\r\n250 key=value\r\n",
            Some((250, vec!["default", "key=value"])),
        ),
        (
            "250-abc\r\n250+abcd\r\n second line\r\n.\r\n250 OK\r\n",
            Some((250, vec!["abc", "abcd\r\n second line", "OK"])),
        ),
        ("250-abc\r\n250+abcd\r\n second line\r\n.\r\n250 OK", None),
        ("250-abc\r\n250+abcd\r\n second line\r\n.\r\n", None),
        ("250-abc\r\n250+abcd\r\n second line", None),
    ];
    for (input, expected) in cases {
        match expected {
            Some((code, lines)) => {
                let (got_code, got_lines, next) = decode(input).unwrap();
                assert_eq!(got_code, code);
                let refs: Vec<&str> = got_lines.iter().map(|s| s.as_str()).collect();
                assert_eq!(refs, lines);
                assert_eq!(next, input.len());
            }
            None => {
                assert!(decode(input).is_err());
            }
        }
    }
}

#[test]
fn framing_decoder_position_chains() {
    // One decode per response, with the position left at the next one.
    let stream = "250 OK\r\n550 no\r\n";
    let buf: Vec<u8> = stream.as_bytes().to_vec();
    let (first, next) = decode_response(&buf, 0).unwrap();
    assert_eq!((first.code, next), (250, 8));
    let (second, end) = decode_response(&buf, next).unwrap();
    assert_eq!(second.code, 550);
    assert_eq!(second.lines, vec!["no".to_string()]);
    assert_eq!(end, stream.len());
}

#[test]
fn framing_control_scenario() {
    let (code, lines, _) = decode("250-L1\r\n250+blob\r\n  more\r\n.\r\n250 OK\r\n").unwrap();
    assert_eq!(code, 250);
    assert_eq!(
        lines,
        vec![
            "L1".to_string(),
            "blob\r\n  more".to_string(),
            "OK".to_string()
        ]
    );
}

#[test]
fn framing_errors() {
    assert_eq!(decode("2x0 hi\r\n"), Err(DecodeError::InvalidCharacterFound));
    assert_eq!(decode("250*hi\r\n"), Err(DecodeError::InvalidCharacterFound));
    assert_eq!(
        decode("250-L1\r\n251 L2\r\n"),
        Err(DecodeError::ResponseCodeMismatch)
    );
    let non_ascii: Vec<u8> = vec![0xff];
    assert_eq!(
        decode_response(&non_ascii, 0),
        Err(DecodeError::NonAsciiByteFound)
    );
    assert_eq!(decode(""), Err(DecodeError::Truncated));
    // A response over the 1 MiB bound is refused.
    let mut big = String::from("250 ");
    big.push_str(&"a".repeat(1100000));
    big.push_str("\r\n");
    assert_eq!(decode(&big), Err(DecodeError::TooManyBytesRead));
}

#[test]
fn decode_errors_map_to_conn_errors() {
    assert_eq!(
        conn_error_of_decode(DecodeError::NonAsciiByteFound),
        ConnError::NonAsciiByteFound
    );
    assert_eq!(
        conn_error_of_decode(DecodeError::ResponseCodeMismatch),
        ConnError::ResponseCodeMismatch
    );
    assert_eq!(
        conn_error_of_decode(DecodeError::TooManyBytesRead),
        ConnError::TooManyBytesRead
    );
    match conn_error_of_decode(DecodeError::Truncated) {
        ConnError::IOError(m) => assert_eq!(m, "unexpected end of stream"),
        other => panic!("unexpected mapping: {:?}", other),
    }
}

#[test]
fn command_builders() {
    assert_eq!(authenticate_null_command(), "AUTHENTICATE\r\n");
    assert_eq!(take_ownership_command(), "TAKEOWNERSHIP\r\n");
    assert_eq!(
        del_onion_command("abc123").unwrap(),
        "DEL_ONION abc123\r\n"
    );
    assert_eq!(
        del_onion_command("not valid!"),
        Err(ConnError::AuthenticatedConnError(
            AuthenticatedConnError::InvalidOnionServiceIdentifier
        ))
    );
    assert_eq!(
        del_onion_command(""),
        Err(ConnError::AuthenticatedConnError(
            AuthenticatedConnError::InvalidOnionServiceIdentifier
        ))
    );
}

#[test]
fn add_onion_command_shape() {
    let key: Vec<u8> = vec![7; 64];
    let ports = vec![
        (
            80u16,
            SockAddr::V4 {
                ip: [127, 0, 0, 1],
                port: 8000,
            },
        ),
        (
            443u16,
            SockAddr::V4 {
                ip: [10, 0, 0, 2],
                port: 9443,
            },
        ),
    ];
    let cmd = add_onion_command(&key, &ports);
    // The key blob is the standard base64 form of the 64 bytes.
    let blob = "BwcHBwcHBwcHBwcHBwcHBwcHBwcHBwcHBwcHBwcHBwcHBwcHBwcHBwcHBwcHBwcHBwcHBwcHBwcHBwcHBwcHBw==";
    assert_eq!(
        cmd,
        format!(
            "ADD_ONION ed25519-v3:{} Port=80,127.0.0.1:8000 Port=443,10.0.0.2:9443\r\n",
            blob
        )
    );
    // An export with no ports produces a command without port mappings,
    // which the server will reject.
    let bare = add_onion_command(&key, &vec![]);
    assert_eq!(bare, format!("ADD_ONION ed25519-v3:{}\r\n", blob));
}

#[test]
fn reply_codes() {
    assert!(check_reply(250).is_ok());
    assert_eq!(check_reply(512), Err(ConnError::InvalidResponseCode(512)));
    assert_eq!(check_reply(551), Err(ConnError::InvalidResponseCode(551)));
}
