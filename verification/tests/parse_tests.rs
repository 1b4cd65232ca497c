use onionpipe::parse::{
    forward, local_tcp_addr, ExportForward, ExportLocalAddr, ExportLocalTCPAddr, ExportRemoteAddr,
    Forward, Host, ImportForward, ImportLocalAddr, ImportLocalTCPAddr, ImportRemoteAddr,
    ParseError,
};

#[test]
fn parse_test_local_tcp_addr() {
    assert_eq!(
        local_tcp_addr("127.0.0.1:4567~"),
        Ok((
            "~",
            ExportLocalTCPAddr {
                host: Some(Host::IP4([127, 0, 0, 1])),
                port: 4567
            }
        ))
    );
    assert_eq!(
        local_tcp_addr("6667~"),
        Ok((
            "~",
            ExportLocalTCPAddr {
                host: None,
                port: 6667
            }
        ))
    );
}

#[test]
fn parse_test_export_forward_valid() {
    assert_eq!(
        forward("80"),
        Ok((
            "",
            Forward::Export(ExportForward {
                local: ExportLocalAddr::TCP(ExportLocalTCPAddr {
                    host: None,
                    port: 80,
                }),
                remote: None,
            })
        ))
    );
    assert_eq!(
        forward("1.2.3.4:80"),
        Ok((
            "",
            Forward::Export(ExportForward {
                local: ExportLocalAddr::TCP(ExportLocalTCPAddr {
                    host: Some(Host::IP4([1, 2, 3, 4])),
                    port: 80,
                }),
                remote: None,
            })
        ))
    );
    assert_eq!(
        forward("80~80"),
        Ok((
            "",
            Forward::Export(ExportForward {
                local: ExportLocalAddr::TCP(ExportLocalTCPAddr {
                    host: None,
                    port: 80,
                }),
                remote: Some(ExportRemoteAddr {
                    onion_alias: None,
                    ports: vec![80],
                }),
            })
        ))
    );
    assert_eq!(
        forward("80~80,81,8080,28000"),
        Ok((
            "",
            Forward::Export(ExportForward {
                local: ExportLocalAddr::TCP(ExportLocalTCPAddr {
                    host: None,
                    port: 80,
                }),
                remote: Some(ExportRemoteAddr {
                    onion_alias: None,
                    ports: vec![80, 81, 8080, 28000],
                }),
            })
        ))
    );
    assert_eq!(
        forward("80~mastodon:80,81,8080,28000"),
        Ok((
            "",
            Forward::Export(ExportForward {
                local: ExportLocalAddr::TCP(ExportLocalTCPAddr {
                    host: None,
                    port: 80,
                }),
                remote: Some(ExportRemoteAddr {
                    onion_alias: Some("mastodon".to_string()),
                    ports: vec![80, 81, 8080, 28000],
                }),
            })
        ))
    );
    assert_eq!(
        forward("0.0.0.0:80~mastodon:80,81,8080,28000"),
        Ok((
            "",
            Forward::Export(ExportForward {
                local: ExportLocalAddr::TCP(ExportLocalTCPAddr {
                    host: Some(Host::IP4([0, 0, 0, 0])),
                    port: 80,
                }),
                remote: Some(ExportRemoteAddr {
                    onion_alias: Some("mastodon".to_string()),
                    ports: vec![80, 81, 8080, 28000],
                }),
            })
        ))
    );
}

#[test]
fn parse_test_export_forward_invalid() {
    assert_eq!(
        "1.2.3.4".parse::<Forward>(),
        Err(ParseError(
            "Parse error:\nOneOf at: .2.3.4\nManyMN at: .2.3.4\nin section 'port', at: 1.2.3.4\nin section 'local tcp addr', at: 1.2.3.4\nin section 'export forward', at: 1.2.3.4\nAlt at: 1.2.3.4\nin section 'forward', at: 1.2.3.4\n".to_string()
        ))
    );
    assert_eq!(
        "80,81,82".parse::<Forward>(),
        Err(ParseError(
            "Parse error:\nEof at: ,81,82\nin section 'forward', at: 80,81,82\n".to_string()
        ))
    );
    assert_eq!(
            "80,81,82~8000,8001,8002".parse::<Forward>(),
            Err(ParseError("Parse error:\nEof at: ,81,82~8000,8001,8002\nin section 'forward', at: 80,81,82~8000,8001,8002\n".to_string()))
        );
    assert_eq!(
            "".parse::<Forward>(),
            Err(ParseError(
                    "Parse error:\nOneOf at: \nManyMN at: \nin section 'port', at: \nin section 'local tcp addr', at: \nin section 'export forward', at: \nAlt at: \nin section 'forward', at: \n".to_string()
            ))
        );
    assert_eq!(
            "10.0.0.1:8080~192.168.1.1:8080".parse::<Forward>(),
            Err(ParseError("Parse error:\nEof at: .168.1.1:8080\nin section 'forward', at: 10.0.0.1:8080~192.168.1.1:8080\n".to_string()))
        );
}

#[test]
fn parse_test_import_forward_valid() {
    assert_eq!(
        "xyz123.onion".parse::<Forward>(),
        Ok(Forward::Import(ImportForward {
            remote: ImportRemoteAddr {
                onion: "xyz123".to_string(),
                port: None,
            },
            local: None,
        }))
    );
    assert_eq!(
        "xyz123.onion:9001".parse::<Forward>(),
        Ok(Forward::Import(ImportForward {
            remote: ImportRemoteAddr {
                onion: "xyz123".to_string(),
                port: Some(9001),
            },
            local: None,
        }))
    );
    assert_eq!(
        "xyz123.onion:9001~9002".parse::<Forward>(),
        Ok(Forward::Import(ImportForward {
            remote: ImportRemoteAddr {
                onion: "xyz123".to_string(),
                port: Some(9001),
            },
            local: Some(ImportLocalAddr::TCP(ImportLocalTCPAddr {
                host: None,
                port: Some(9002),
            })),
        }))
    );
    assert_eq!(
        "xyz123.onion:9001~172.18.0.1".parse::<Forward>(),
        Ok(Forward::Import(ImportForward {
            remote: ImportRemoteAddr {
                onion: "xyz123".to_string(),
                port: Some(9001),
            },
            local: Some(ImportLocalAddr::TCP(ImportLocalTCPAddr {
                host: Some(Host::IP4([172, 18, 0, 1])),
                port: None,
            })),
        }))
    );
}

#[test]
fn parse_test_import_forward_invalid() {
    assert_eq!(
            "xyz123".parse::<Forward>(),
            Err(ParseError("Parse error:\nOneOf at: xyz123\nManyMN at: xyz123\nin section 'port', at: xyz123\nin section 'local tcp addr', at: xyz123\nin section 'export forward', at: xyz123\nAlt at: xyz123\nin section 'forward', at: xyz123\n".to_string()))
        );
    assert_eq!(
            "xyz123.shallot".parse::<Forward>(),
            Err(ParseError("Parse error:\nOneOf at: xyz123.shallot\nManyMN at: xyz123.shallot\nin section 'port', at: xyz123.shallot\nin section 'local tcp addr', at: xyz123.shallot\nin section 'export forward', at: xyz123.shallot\nAlt at: xyz123.shallot\nin section 'forward', at: xyz123.shallot\n".to_string()))
        );
    assert_eq!(
            "xyz123.onion~abc123.onion".parse::<Forward>(),
            Err(ParseError("Parse error:\nEof at: ~abc123.onion\nin section 'forward', at: xyz123.onion~abc123.onion\n".to_string()))
        );
}

#[test]
fn mod_test_local_tcp_addr() {
    assert_eq!(
        local_tcp_addr("127.0.0.1:4567~"),
        Ok((
            "~",
            ExportLocalTCPAddr {
                host: Some(Host::IP4([127, 0, 0, 1])),
                port: 4567
            }
        ))
    );
    assert_eq!(
        local_tcp_addr("6667~"),
        Ok((
            "~",
            ExportLocalTCPAddr {
                host: None,
                port: 6667
            }
        ))
    );
}

#[test]
fn mod_test_export_forward_valid() {
    assert_eq!(
        forward("80"),
        Ok((
            "",
            Forward::Export(ExportForward {
                local: ExportLocalAddr::TCP(ExportLocalTCPAddr {
                    host: None,
                    port: 80,
                }),
                remote: None,
            })
        ))
    );
    assert_eq!(
        forward("0.0.0.0:80~mastodon:80,81,8080,28000"),
        Ok((
            "",
            Forward::Export(ExportForward {
                local: ExportLocalAddr::TCP(ExportLocalTCPAddr {
                    host: Some(Host::IP4([0, 0, 0, 0])),
                    port: 80,
                }),
                remote: Some(ExportRemoteAddr {
                    onion_alias: Some("mastodon".to_string()),
                    ports: vec![80, 81, 8080, 28000],
                }),
            })
        ))
    );
    assert_eq!(
        forward("80~mastodon:80,81,8080,28000"),
        Ok((
            "",
            Forward::Export(ExportForward {
                local: ExportLocalAddr::TCP(ExportLocalTCPAddr {
                    host: None,
                    port: 80,
                }),
                remote: Some(ExportRemoteAddr {
                    onion_alias: Some("mastodon".to_string()),
                    ports: vec![80, 81, 8080, 28000],
                }),
            })
        ))
    );
    assert_eq!(
        forward("80~80,81,8080,28000"),
        Ok((
            "",
            Forward::Export(ExportForward {
                local: ExportLocalAddr::TCP(ExportLocalTCPAddr {
                    host: None,
                    port: 80,
                }),
                remote: Some(ExportRemoteAddr {
                    onion_alias: None,
                    ports: vec![80, 81, 8080, 28000],
                }),
            })
        ))
    );
    assert_eq!(
        forward("80~80"),
        Ok((
            "",
            Forward::Export(ExportForward {
                local: ExportLocalAddr::TCP(ExportLocalTCPAddr {
                    host: None,
                    port: 80,
                }),
                remote: Some(ExportRemoteAddr {
                    onion_alias: None,
                    ports: vec![80],
                }),
            })
        ))
    );
    assert_eq!(
        forward("1.2.3.4:80"),
        Ok((
            "",
            Forward::Export(ExportForward {
                local: ExportLocalAddr::TCP(ExportLocalTCPAddr {
                    host: Some(Host::IP4([1, 2, 3, 4])),
                    port: 80,
                }),
                remote: None,
            })
        ))
    );
}

#[test]
fn mod_test_export_forward_invalid() {
    assert_eq!(
        "80,81,82".parse::<Forward>(),
        Err(ParseError(
            "Parse error:\nEof at: ,81,82\nin section 'forward', at: 80,81,82\n".to_string()
        ))
    );
    assert_eq!(
            "80,81,82~8000,8001,8002".parse::<Forward>(),
            Err(ParseError("Parse error:\nEof at: ,81,82~8000,8001,8002\nin section 'forward', at: 80,81,82~8000,8001,8002\n".to_string()))
        );
    assert_eq!(
        "1.2.3.4".parse::<Forward>(),
        Err(ParseError(
            "Parse error:\nOneOf at: .2.3.4\nManyMN at: .2.3.4\nin section 'port', at: 1.2.3.4\nin section 'local tcp addr', at: 1.2.3.4\nin section 'export forward', at: 1.2.3.4\nAlt at: 1.2.3.4\nin section 'forward', at: 1.2.3.4\n".to_string()
        ))
    );
    assert_eq!(
            "10.0.0.1:8080~192.168.1.1:8080".parse::<Forward>(),
            Err(ParseError("Parse error:\nEof at: .168.1.1:8080\nin section 'forward', at: 10.0.0.1:8080~192.168.1.1:8080\n".to_string()))
        );
}

#[test]
fn mod_test_import_forward_valid() {
    assert_eq!(
        "xyz123.onion".parse::<Forward>(),
        Ok(Forward::Import(ImportForward {
            remote: ImportRemoteAddr {
                onion: "xyz123".to_string(),
                port: None,
            },
            local: None,
        }))
    );
    assert_eq!(
        "xyz123.onion:9001".parse::<Forward>(),
        Ok(Forward::Import(ImportForward {
            remote: ImportRemoteAddr {
                onion: "xyz123".to_string(),
                port: Some(9001),
            },
            local: None,
        }))
    );
    assert_eq!(
        "xyz123.onion:9001~9002".parse::<Forward>(),
        Ok(Forward::Import(ImportForward {
            remote: ImportRemoteAddr {
                onion: "xyz123".to_string(),
                port: Some(9001),
            },
            local: Some(ImportLocalAddr::TCP(ImportLocalTCPAddr {
                host: None,
                port: Some(9002),
            })),
        }))
    );
    assert_eq!(
        "xyz123.onion:9001~172.18.0.1".parse::<Forward>(),
        Ok(Forward::Import(ImportForward {
            remote: ImportRemoteAddr {
                onion: "xyz123".to_string(),
                port: Some(9001),
            },
            local: Some(ImportLocalAddr::TCP(ImportLocalTCPAddr {
                host: Some(Host::IP4([172, 18, 0, 1])),
                port: None,
            })),
        }))
    );
}

#[test]
fn mod_test_import_forward_invalid() {
    assert_eq!(
            "xyz123".parse::<Forward>(),
            Err(ParseError("Parse error:\nOneOf at: xyz123\nManyMN at: xyz123\nin section 'port', at: xyz123\nin section 'local tcp addr', at: xyz123\nin section 'export forward', at: xyz123\nAlt at: xyz123\nin section 'forward', at: xyz123\n".to_string()))
        );
    assert_eq!(
            "xyz123.shallot".parse::<Forward>(),
            Err(ParseError("Parse error:\nOneOf at: xyz123.shallot\nManyMN at: xyz123.shallot\nin section 'port', at: xyz123.shallot\nin section 'local tcp addr', at: xyz123.shallot\nin section 'export forward', at: xyz123.shallot\nAlt at: xyz123.shallot\nin section 'forward', at: xyz123.shallot\n".to_string()))
        );
    assert_eq!(
            "xyz123.onion~abc123.onion".parse::<Forward>(),
            Err(ParseError("Parse error:\nEof at: ~abc123.onion\nin section 'forward', at: xyz123.onion~abc123.onion\n".to_string()))
        );
}

#[test]
fn parse_port_zero_and_octet_bounds() {
    // Port 0 needs at least two digits at the grammar level, but is a valid u16.
    assert!("0".parse::<Forward>().is_err());
    assert_eq!(
        forward("00"),
        Ok((
            "",
            Forward::Export(ExportForward {
                local: ExportLocalAddr::TCP(ExportLocalTCPAddr {
                    host: None,
                    port: 0,
                }),
                remote: None,
            })
        ))
    );
    // IP octets run 0..=255; 256 is a parse failure.
    assert!(forward("255.0.0.1:80").is_ok());
    assert!("256.0.0.1:80".parse::<Forward>().is_err());
}
