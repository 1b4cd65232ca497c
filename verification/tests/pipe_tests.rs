use onionpipe::addr::{parse_sock_addr, SockAddr};
use onionpipe::config;
use onionpipe::control::ConnError;
use onionpipe::supervisor::{sup_step, SupAction, SupEvent, SupPhase};
use onionpipe::{
    derive_paths, export_banner, export_from_config, import_banner, import_from_config,
    key_requests, ports_csv, Export, KeyPlan, OnionPipe, PipeError,
};

const REAL_ADDR: &str = "2gzyxa5ihm7nsggfxnu52rck2vv4rvmdlkiu3zzui5du4xyclen53wid";

#[test]
fn sock_addr_parse_and_render() {
    let a = parse_sock_addr("127.0.0.1:4566").unwrap();
    assert_eq!(
        a,
        SockAddr::V4 {
            ip: [127, 0, 0, 1],
            port: 4566
        }
    );
    assert_eq!(a.render(), "127.0.0.1:4566");
    assert_eq!(
        parse_sock_addr("0.0.0.0:0"),
        Some(SockAddr::V4 {
            ip: [0, 0, 0, 0],
            port: 0
        })
    );
    // A zero-prefixed port is the same port.
    assert_eq!(
        parse_sock_addr("127.0.0.1:080"),
        Some(SockAddr::V4 {
            ip: [127, 0, 0, 1],
            port: 80
        })
    );
    assert!(parse_sock_addr("unix:/tmp/foo.sock").is_none());
    assert!(parse_sock_addr("256.0.0.1:80").is_none());
    assert!(parse_sock_addr("127.0.0.1").is_none());
    assert!(parse_sock_addr("127.00.0.1:80").is_none());
    assert!(parse_sock_addr("127.0.0.1:65536").is_none());
    assert!(parse_sock_addr("127.0.0.1:80 ").is_none());
}

#[test]
fn sock_addr_v6_parse_and_render() {
    // The bracketed form with elision, embedded IPv4 and scope ids, as the
    // standard textual grammar has them.
    let a = parse_sock_addr("[::1]:8080").unwrap();
    assert_eq!(
        a,
        SockAddr::V6 {
            groups: [0, 0, 0, 0, 0, 0, 0, 1],
            scope_id: 0,
            port: 8080
        }
    );
    assert_eq!(a.render(), "[::1]:8080");

    let b = parse_sock_addr("[2001:db8::8:800:200c:417a]:80").unwrap();
    assert_eq!(
        b,
        SockAddr::V6 {
            groups: [0x2001, 0xdb8, 0, 0, 8, 0x800, 0x200c, 0x417a],
            scope_id: 0,
            port: 80
        }
    );
    assert_eq!(b.render(), "[2001:db8::8:800:200c:417a]:80");

    let c = parse_sock_addr("[fe80::1%3]:4433").unwrap();
    assert_eq!(
        c,
        SockAddr::V6 {
            groups: [0xfe80, 0, 0, 0, 0, 0, 0, 1],
            scope_id: 3,
            port: 4433
        }
    );
    assert_eq!(c.render(), "[fe80::1%3]:4433");

    // The v4-mapped block renders dotted.
    let d = parse_sock_addr("[::ffff:192.0.2.1]:80").unwrap();
    assert_eq!(
        d,
        SockAddr::V6 {
            groups: [0, 0, 0, 0, 0, 0xffff, 0xc000, 0x0201],
            scope_id: 0,
            port: 80
        }
    );
    assert_eq!(d.render(), "[::ffff:192.0.2.1]:80");

    // All zeros and a full address without elision.
    assert_eq!(parse_sock_addr("[::]:80").unwrap().render(), "[::]:80");
    let e = parse_sock_addr("[1:2:3:4:5:6:7:8]:9").unwrap();
    assert_eq!(e.render(), "[1:2:3:4:5:6:7:8]:9");
    // A single zero group is not compressed.
    let f = parse_sock_addr("[1:2:3:0:5:6:7:8]:9").unwrap();
    assert_eq!(f.render(), "[1:2:3:0:5:6:7:8]:9");

    // Malformed forms are refused.
    assert!(parse_sock_addr("[::1]").is_none());
    assert!(parse_sock_addr("[1:2:3]:80").is_none());
    assert!(parse_sock_addr("[1::2::3]:80").is_none());
    assert!(parse_sock_addr("[12345::]:80").is_none());
    assert!(parse_sock_addr("::1:80").is_none());

    // A config with a v6 local address resolves.
    let export_config = config::Export {
        local_addr: "[::1]:4566".to_string(),
        service_name: None,
        remote_ports: vec![80],
    };
    let key = onionpipe::onion::generate_service_key();
    let export = export_from_config(&export_config, key).unwrap();
    assert_eq!(export.local_addr.render(), "[::1]:4566");
}

#[test]
fn try_into_export() {
    let export_config = config::Export {
        local_addr: "127.0.0.1:4566".to_string(),
        service_name: Some("some_service".to_string()),
        remote_ports: vec![4567],
    };
    let key = onionpipe::onion::generate_service_key();
    let export: Export = export_from_config(&export_config, key.clone()).unwrap();
    assert_eq!("127.0.0.1:4566", export.local_addr.render());
    assert_eq!(
        onionpipe::onion::derive_onion_address(&export.remote_key)
            .without_dot_onion()
            .len(),
        "wdz54gdzddxqigr27g5ivc4q3ekfrpmhe45yyb75kzhrkl577yalq7qd".len()
    );
    assert_eq!(export.remote_ports, vec![4567]);
    // The same key yields the same export key bytes: a persistent service
    // keeps its address.
    let export2: Export = export_from_config(&export_config, key).unwrap();
    assert_eq!(export.remote_key, export2.remote_key);
}

#[test]
fn try_into_export_new_onion() {
    let export_config = config::Export {
        local_addr: "127.0.0.1:4566".to_string(),
        service_name: None,
        remote_ports: vec![4567],
    };
    let key = onionpipe::onion::generate_service_key();
    let export: Export = export_from_config(&export_config, key).unwrap();
    assert_eq!("127.0.0.1:4566", export.local_addr.render());
    assert_eq!(
        onionpipe::onion::derive_onion_address(&export.remote_key)
            .without_dot_onion()
            .len(),
        56
    );
    assert_eq!(export.remote_ports, vec![4567]);
}

#[test]
fn try_into_export_unix() {
    let export_config = config::Export {
        local_addr: "unix:/tmp/foo.sock".to_string(),
        service_name: None,
        remote_ports: vec![4567],
    };
    let key = onionpipe::onion::generate_service_key();
    let result = export_from_config(&export_config, key);
    assert!(matches!(result, Err(PipeError::ParseAddr(_))));
}

#[test]
fn import_conversion() {
    let import_config = config::Import {
        remote_addr: format!("{}.onion:80", REAL_ADDR),
        local_addr: "127.0.0.1:8080".to_string(),
    };
    let import = import_from_config(&import_config).unwrap();
    assert_eq!(import.remote_addr.without_dot_onion(), REAL_ADDR);
    assert_eq!(import.remote_port, 80);
    assert_eq!(import.local_addr.render(), "127.0.0.1:8080");
    assert!(matches!(
        import_from_config(&config::Import {
            remote_addr: "xyz.onion".to_string(),
            local_addr: "127.0.0.1:8080".to_string(),
        }),
        Err(PipeError::OnionAddr(_))
    ));
    // A malformed written form or port around a sound address is a
    // configuration error naming the address, not an onion-address error.
    let bad_suffix = format!("{}.shallot", REAL_ADDR);
    match import_from_config(&config::Import {
        remote_addr: bad_suffix.clone(),
        local_addr: "127.0.0.1:8080".to_string(),
    }) {
        Err(PipeError::Config(m)) => {
            assert_eq!(m, format!("invalid onion address {}", bad_suffix))
        }
        other => panic!("unexpected: {:?}", other),
    }
    let bad_port = format!("{}.onion:99999", REAL_ADDR);
    match import_from_config(&config::Import {
        remote_addr: bad_port.clone(),
        local_addr: "127.0.0.1:8080".to_string(),
    }) {
        Err(PipeError::Config(m)) => {
            assert_eq!(m, format!("invalid onion address {}", bad_port))
        }
        other => panic!("unexpected: {:?}", other),
    }
    assert!(matches!(
        import_from_config(&config::Import {
            remote_addr: format!("{}.onion", REAL_ADDR),
            local_addr: "nowhere".to_string(),
        }),
        Err(PipeError::ParseAddr(_))
    ));
}

#[test]
fn key_planning() {
    let cfg = config::Config {
        temp_dir: None,
        secrets_dir: None,
        exports: vec![
            config::Export {
                local_addr: "127.0.0.1:1".to_string(),
                service_name: Some("svc".to_string()),
                remote_ports: vec![80],
            },
            config::Export {
                local_addr: "127.0.0.1:2".to_string(),
                service_name: None,
                remote_ports: vec![80],
            },
        ],
        imports: vec![],
    };
    let plans = key_requests(&cfg, true).unwrap();
    assert_eq!(
        plans,
        vec![KeyPlan::EnsureService("svc".to_string()), KeyPlan::Generate]
    );
    // A named service without a configured store is a configuration error.
    match key_requests(&cfg, false) {
        Err(PipeError::Config(m)) => assert_eq!(m, "secret store not configured"),
        other => panic!("unexpected: {:?}", other),
    }
}

#[test]
fn builder_merges_config() {
    let cfg = config::Config {
        temp_dir: Some("/tmp/foo".to_string()),
        secrets_dir: Some("/tmp/s".to_string()),
        exports: vec![config::Export {
            local_addr: "127.0.0.1:4566".to_string(),
            service_name: Some("svc".to_string()),
            remote_ports: vec![4567],
        }],
        imports: vec![config::Import {
            remote_addr: format!("{}.onion:80", REAL_ADDR),
            local_addr: "127.0.0.1:8080".to_string(),
        }],
    };
    let keys = vec![onionpipe::onion::generate_service_key()];
    let builder = OnionPipe::defaults().config(cfg, keys).unwrap();
    assert!(builder.has_secret_store());
    assert_eq!(builder.secret_store_dir().unwrap(), "/tmp/s");
}

#[test]
fn paths_and_banners() {
    let (data, control, socks) = derive_paths("/tmp/op123");
    assert_eq!(data, "/tmp/op123/data");
    assert_eq!(control, "/tmp/op123/data/control.sock");
    assert_eq!(socks, "/tmp/op123/data/socks.sock");

    assert_eq!(ports_csv(&vec![80, 81, 8080, 28000]), "80,81,8080,28000");
    assert_eq!(ports_csv(&vec![]), "");

    let key = onionpipe::onion::generate_service_key();
    let export = Export {
        local_addr: SockAddr::V4 {
            ip: [127, 0, 0, 1],
            port: 8000,
        },
        remote_key: key.clone(),
        remote_ports: vec![80, 81],
    };
    let onion_text = onionpipe::onion::derive_onion_address(&key).with_dot_onion();
    assert_eq!(
        export_banner(&export),
        format!("forward 127.0.0.1:8000 => {}:80,81", onion_text)
    );

    let import = import_from_config(&config::Import {
        remote_addr: format!("{}:9001", REAL_ADDR),
        local_addr: "127.0.0.1:3000".to_string(),
    })
    .unwrap();
    assert_eq!(
        import_banner(&import),
        format!("forward {}.onion:9001 => 127.0.0.1:3000", REAL_ADDR)
    );
}

#[test]
fn error_messages() {
    assert_eq!(
        PipeError::ConnTimeout.message(),
        "timeout connecting to tor control socket"
    );
    assert_eq!(
        PipeError::Config("secret store not configured".to_string()).message(),
        "invalid config: secret store not configured"
    );
    assert_eq!(
        PipeError::IO("broken pipe".to_string()).message(),
        "i/o error: broken pipe"
    );
    assert_eq!(
        PipeError::Conn(ConnError::InvalidResponseCode(512)).message(),
        "failed to connect to tor control socket"
    );
}

#[test]
fn supervisor_happy_path_and_drain() {
    let n = 2usize;
    let (p, a) = sup_step(n, SupPhase::Init, SupEvent::TorStarted);
    assert_eq!((p, a), (SupPhase::WaitSocket { attempt: 0 }, SupAction::CheckSocket));
    let (p, a) = sup_step(n, p, SupEvent::SocketCheck { exists: false });
    assert_eq!(
        (p, a),
        (
            SupPhase::WaitSocket { attempt: 1 },
            SupAction::SleepAndCheck { seconds: 0 }
        )
    );
    let (p, a) = sup_step(n, p, SupEvent::SocketCheck { exists: true });
    assert_eq!((p, a), (SupPhase::Authenticating, SupAction::SendAuthenticate));
    let (p, a) = sup_step(n, p, SupEvent::Reply { code: 250 });
    assert_eq!((p, a), (SupPhase::TakingOwnership, SupAction::SendTakeOwnership));
    let (p, a) = sup_step(n, p, SupEvent::Reply { code: 250 });
    assert_eq!(
        (p, a),
        (
            SupPhase::RegisteringExports { next: 0 },
            SupAction::AnnounceAndAddOnion { index: 0 }
        )
    );
    let (p, a) = sup_step(n, p, SupEvent::Reply { code: 250 });
    assert_eq!(
        (p, a),
        (
            SupPhase::RegisteringExports { next: 1 },
            SupAction::AnnounceAndAddOnion { index: 1 }
        )
    );
    let (p, a) = sup_step(n, p, SupEvent::Reply { code: 250 });
    assert_eq!((p, a), (SupPhase::Running, SupAction::ServeImportsAndWait));
    let (p, a) = sup_step(n, p, SupEvent::Interrupted);
    assert_eq!(
        (p, a),
        (
            SupPhase::Draining { next: 0 },
            SupAction::SendDelOnion { index: 0 }
        )
    );
    // A failed delete without a connection reset is logged and the drain
    // continues in order.
    let (p, a) = sup_step(
        n,
        p,
        SupEvent::DelFailed {
            connection_reset: false,
        },
    );
    assert_eq!(
        (p, a),
        (
            SupPhase::Draining { next: 1 },
            SupAction::SendDelOnion { index: 1 }
        )
    );
    let (p, a) = sup_step(n, p, SupEvent::Reply { code: 250 });
    assert_eq!((p, a), (SupPhase::RemovingData, SupAction::RemoveDataDir));
    let (p, a) = sup_step(n, p, SupEvent::DataRemoved);
    assert_eq!((p, a), (SupPhase::Done, SupAction::Exit));
}

#[test]
fn supervisor_failures() {
    // The tenth failed probe times out.
    let (p, a) = sup_step(
        0,
        SupPhase::WaitSocket { attempt: 9 },
        SupEvent::SocketCheck { exists: false },
    );
    assert_eq!((p, a), (SupPhase::Failed, SupAction::Fail(PipeError::ConnTimeout)));
    // An error reply to ADD_ONION is fatal and carries the server's code:
    // this is what an export with an empty port list comes back as.
    let (p, a) = sup_step(
        1,
        SupPhase::RegisteringExports { next: 0 },
        SupEvent::Reply { code: 512 },
    );
    assert_eq!(
        (p, a),
        (
            SupPhase::Failed,
            SupAction::Fail(PipeError::Conn(ConnError::InvalidResponseCode(512)))
        )
    );
    // A connection reset during the drain ends it without an error.
    let (p, a) = sup_step(
        3,
        SupPhase::Draining { next: 0 },
        SupEvent::DelFailed {
            connection_reset: true,
        },
    );
    assert_eq!((p, a), (SupPhase::RemovingData, SupAction::RemoveDataDir));
    // An I/O failure reading a reply is fatal.
    let (p, a) = sup_step(
        0,
        SupPhase::Authenticating,
        SupEvent::IoFailed {
            message: "broken pipe".to_string(),
        },
    );
    assert_eq!(
        (p, a),
        (
            SupPhase::Failed,
            SupAction::Fail(PipeError::IO("broken pipe".to_string()))
        )
    );
    // A reply that violates the framing surfaces the control-protocol
    // error the decoder assigned to it.
    let (p, a) = sup_step(
        0,
        SupPhase::Authenticating,
        SupEvent::BadReply {
            error: ConnError::NonAsciiByteFound,
        },
    );
    assert_eq!(
        (p, a),
        (
            SupPhase::Failed,
            SupAction::Fail(PipeError::Conn(ConnError::NonAsciiByteFound))
        )
    );
    // During the drain a framing failure is logged and the drain goes on.
    let (p, a) = sup_step(
        2,
        SupPhase::Draining { next: 0 },
        SupEvent::BadReply {
            error: ConnError::ResponseCodeMismatch,
        },
    );
    assert_eq!(
        (p, a),
        (
            SupPhase::Draining { next: 1 },
            SupAction::SendDelOnion { index: 1 }
        )
    );
}
