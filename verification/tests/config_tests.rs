use onionpipe::config::{config_of_exprs, Config, Export, Import};
use onionpipe::json::{decode_config, encode_config};

#[test]
fn try_config_parse() {
    let json_str = r#"
            {
              "temp_dir": "/tmp/foo",
              "secrets_dir": "/tmp/secrets",
              "exports": [{
                "local_addr": "127.0.0.1:4566",
                "service_name": "some_service",
                "remote_ports": [4567]
              }],
              "imports": [{
                "remote_addr": "2gzyxa5ihm7nsggfxnu52rck2vv4rvmdlkiu3zzui5du4xyclen53wid.onion:80",
                "local_addr": "127.0.0.1:8080"
              }]
            }"#;
    let config: Config = decode_config(json_str).unwrap();
    assert_eq!(
        config,
        Config {
            temp_dir: Some("/tmp/foo".to_string()),
            secrets_dir: Some("/tmp/secrets".to_string()),
            exports: vec![Export {
                local_addr: "127.0.0.1:4566".to_string(),
                service_name: Some("some_service".to_string()),
                remote_ports: vec![4567],
            }],
            imports: vec![Import {
                remote_addr: "2gzyxa5ihm7nsggfxnu52rck2vv4rvmdlkiu3zzui5du4xyclen53wid.onion:80"
                    .to_string(),
                local_addr: "127.0.0.1:8080".to_string(),
            }],
        }
    );
}

#[test]
fn json_round_trip_plain() {
    let config = Config {
        temp_dir: Some("/tmp/foo".to_string()),
        secrets_dir: None,
        exports: vec![
            Export {
                local_addr: "127.0.0.1:4566".to_string(),
                service_name: Some("svc".to_string()),
                remote_ports: vec![80, 443],
            },
            Export {
                local_addr: "0.0.0.0:9000".to_string(),
                service_name: None,
                remote_ports: vec![],
            },
        ],
        imports: vec![Import {
            remote_addr: "xyz.onion:80".to_string(),
            local_addr: "127.0.0.1:8080".to_string(),
        }],
    };
    let text = encode_config(&config);
    let back = decode_config(&text).unwrap();
    assert_eq!(back, config);
}

#[test]
fn json_round_trip_escapes() {
    // Strings with quotes, backslashes and control characters survive the
    // trip through JSON.
    let config = Config {
        temp_dir: Some("a \"quoted\" \\ dir\nwith\tcontrols\u{1}".to_string()),
        secrets_dir: Some(String::new()),
        exports: vec![],
        imports: vec![],
    };
    let text = encode_config(&config);
    let back = decode_config(&text).unwrap();
    assert_eq!(back, config);
}

#[test]
fn json_rejects_malformed() {
    assert!(decode_config("").is_none());
    assert!(decode_config("{}").is_none());
    assert!(decode_config("{\"temp_dir\":null}").is_none());
    // Trailing input after the object is refused.
    let config = Config {
        temp_dir: None,
        secrets_dir: None,
        exports: vec![],
        imports: vec![],
    };
    let mut text = encode_config(&config);
    assert!(decode_config(&text).is_some());
    text.push('x');
    assert!(decode_config(&text).is_none());
    // Ports with leading zeros or out of range are refused.
    assert!(decode_config(
        "{\"temp_dir\":null,\"secrets_dir\":null,\"exports\":[{\"local_addr\":\"a\",\"service_name\":null,\"remote_ports\":[007]}],\"imports\":[]}"
    )
    .is_none());
    assert!(decode_config(
        "{\"temp_dir\":null,\"secrets_dir\":null,\"exports\":[{\"local_addr\":\"a\",\"service_name\":null,\"remote_ports\":[65536]}],\"imports\":[]}"
    )
    .is_none());
}

#[test]
fn json_accepts_any_field_order_and_missing_directories() {
    // Fields may come in any order.
    let text = "{\"imports\":[],\"exports\":[],\"secrets_dir\":\"/s\",\"temp_dir\":null}";
    let cfg = decode_config(text).unwrap();
    assert_eq!(
        cfg,
        Config {
            temp_dir: None,
            secrets_dir: Some("/s".to_string()),
            exports: vec![],
            imports: vec![],
        }
    );
    // The two directory fields may be left out entirely.
    let cfg = decode_config("{\"exports\":[],\"imports\":[]}").unwrap();
    assert_eq!(cfg.temp_dir, None);
    assert_eq!(cfg.secrets_dir, None);
    // A repeated field is refused, and the arrays must appear.
    assert!(decode_config(
        "{\"temp_dir\":null,\"temp_dir\":null,\"exports\":[],\"imports\":[]}"
    )
    .is_none());
    assert!(decode_config("{\"temp_dir\":null,\"imports\":[]}").is_none());
    // Unicode escapes name their characters.
    let cfg = decode_config(
        "{\"temp_dir\":\"\\u0041\\u00e9\",\"exports\":[],\"imports\":[]}"
    )
    .unwrap();
    assert_eq!(cfg.temp_dir, Some("A\u{e9}".to_string()));
}

#[test]
fn config_from_expressions() {
    let exprs = vec![
        "80".to_string(),
        "0.0.0.0:80~mastodon:80,81,8080,28000".to_string(),
        "xyz123.onion:9001~9002".to_string(),
        "xyz123.onion:9001~172.18.0.1".to_string(),
    ];
    let cfg = config_of_exprs(&exprs).unwrap();
    assert_eq!(
        cfg.exports,
        vec![
            Export {
                local_addr: "127.0.0.1:80".to_string(),
                service_name: None,
                remote_ports: vec![80],
            },
            Export {
                local_addr: "0.0.0.0:80".to_string(),
                service_name: Some("mastodon".to_string()),
                remote_ports: vec![80, 81, 8080, 28000],
            },
        ]
    );
    assert_eq!(
        cfg.imports,
        vec![
            Import {
                remote_addr: "xyz123:9001".to_string(),
                local_addr: "127.0.0.1:9002".to_string(),
            },
            // A local host without a port defaults the port to 8080.
            Import {
                remote_addr: "xyz123:9001".to_string(),
                local_addr: "172.18.0.1:8080".to_string(),
            },
        ]
    );
    assert!(cfg.temp_dir.is_none());
    assert!(cfg.secrets_dir.is_none());

    let bad = vec!["80,81,82".to_string()];
    assert!(config_of_exprs(&bad).is_err());
}

#[test]
fn config_accepts_port_zero_and_empty_ports() {
    // Port 0 is valid at the configuration level.
    let cfg = config_of_exprs(&vec!["00~00".to_string()]).unwrap();
    assert_eq!(cfg.exports[0].remote_ports, vec![0]);
    // An empty port list is accepted by the configuration; the failure
    // only comes back from Tor when the export is registered.
    let text = "{\"temp_dir\":null,\"secrets_dir\":null,\"exports\":[{\"local_addr\":\"127.0.0.1:80\",\"service_name\":null,\"remote_ports\":[]}],\"imports\":[]}";
    let cfg = decode_config(text).unwrap();
    assert_eq!(cfg.exports[0].remote_ports, Vec::<u16>::new());
}
