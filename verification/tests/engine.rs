use lcp::containers::ContainerRecord;
use lcp::containers::ContainerState;
use lcp::containers::compose_command;
use lcp::containers::get_caddy_proxy_status;
use lcp::containers::has_caddy_label;
use lcp::containers::list_caddy_services;
use lcp::containers::merge_runtime_status;
use lcp::containers::state_to_container_status;
use lcp::discovery::filter_compose_paths;
use lcp::discovery::is_compose_file_name;
use lcp::discovery::is_excluded_file_name;
use lcp::labels::parse_caddy_labels;
use lcp::labels::parse_port_from_reverse_proxy;
use lcp::model::CaddyProxyStatus;
use lcp::model::ComposeFile;
use lcp::model::ComposeLabels;
use lcp::model::ComposeService;
use lcp::model::ContainerStatus;
use lcp::model::ProxyConfig;
use lcp::model::RuntimeType;
use lcp::model::Service;
use lcp::model::ServiceSource;
use lcp::model::YamlValue;
use lcp::parser::default_domain;
use lcp::parser::extract_services;
use lcp::parser::merge_lcp_configs;
use lcp::parser::parse_ports;
use lcp::parser::source_label;
use lcp::writer::add_caddy_labels;
use lcp::writer::generate_preview;

fn labels_map(pairs: &[(&str, &str)]) -> Vec<(String, String)> {
    pairs.iter().map(|(k, v)| (k.to_string(), v.to_string())).collect()
}

fn bare_service(ports: Vec<YamlValue>, labels: ComposeLabels) -> ComposeService {
    ComposeService {
        labels,
        ports,
        expose: Vec::new(),
        networks: None,
        extra: Vec::new(),
    }
}

// Decoding returns no proxy config when either required key is missing.
#[test]
fn decode_requires_both_keys() {
    assert!(parse_caddy_labels(&labels_map(&[])).is_none());
    assert!(parse_caddy_labels(&labels_map(&[("caddy", "web.localhost")])).is_none());
    assert!(parse_caddy_labels(&labels_map(&[("caddy.reverse_proxy", ":3000")])).is_none());
    assert!(parse_caddy_labels(&labels_map(&[("other", "x"), ("caddy.tls", "internal")]))
        .is_none());
}

#[test]
fn decode_upstreams_template() {
    assert_eq!(parse_port_from_reverse_proxy("{{upstreams 3000}}"), Some(3000));
}

#[test]
fn decode_bare_colon_port() {
    assert_eq!(parse_port_from_reverse_proxy(":3000"), Some(3000));
}

#[test]
fn decode_host_colon_port() {
    assert_eq!(parse_port_from_reverse_proxy("localhost:8080"), Some(8080));
}

#[test]
fn decode_upstreams_without_digits() {
    assert_eq!(parse_port_from_reverse_proxy("{{upstreams}}"), None);
    let labels = labels_map(&[
        ("caddy", "web.localhost"),
        ("caddy.reverse_proxy", "{{upstreams}}"),
    ]);
    assert!(parse_caddy_labels(&labels).is_none());
}

#[test]
fn decode_full_label_set() {
    let labels = labels_map(&[
        ("caddy", "web.myapp.localhost"),
        ("caddy.reverse_proxy", "{{upstreams 3000}}"),
    ]);
    let cfg = parse_caddy_labels(&labels).unwrap();
    assert_eq!(cfg.domain.as_str(), "web.myapp.localhost");
    assert_eq!(cfg.port, 3000);
    assert_eq!(cfg.tls.as_str(), "internal");

    let labels = labels_map(&[
        ("caddy", "api.localhost"),
        ("caddy.reverse_proxy", "backend:9000"),
        ("caddy.tls", "custom-policy"),
    ]);
    let cfg = parse_caddy_labels(&labels).unwrap();
    assert_eq!(cfg.domain.as_str(), "api.localhost");
    assert_eq!(cfg.port, 9000);
    assert_eq!(cfg.tls.as_str(), "custom-policy");
}

#[test]
fn decode_rejects_out_of_range_ports() {
    assert_eq!(parse_port_from_reverse_proxy(":0"), None);
    assert_eq!(parse_port_from_reverse_proxy(":65535"), Some(65535));
    assert_eq!(parse_port_from_reverse_proxy(":65536"), None);
    assert_eq!(parse_port_from_reverse_proxy("{{upstreams 99999}}"), None);
}

#[test]
fn port_extraction_shapes() {
    let svc = bare_service(
        vec![YamlValue::Text("3000:3000".to_string())],
        ComposeLabels::Absent,
    );
    assert_eq!(parse_ports(&svc), vec![3000]);

    let svc = bare_service(
        vec![YamlValue::Text("0.0.0.0:8080:3000".to_string())],
        ComposeLabels::Absent,
    );
    assert_eq!(parse_ports(&svc), vec![3000]);

    let svc = bare_service(
        vec![YamlValue::Text("3000-3001".to_string())],
        ComposeLabels::Absent,
    );
    assert_eq!(parse_ports(&svc), vec![3000]);

    let svc = bare_service(
        vec![YamlValue::Text("3000/tcp".to_string())],
        ComposeLabels::Absent,
    );
    assert_eq!(parse_ports(&svc), vec![3000]);

    let svc = bare_service(
        vec![YamlValue::Mapping(vec![
            ("target".to_string(), YamlValue::Number(3000)),
            ("published".to_string(), YamlValue::Number(8080)),
        ])],
        ComposeLabels::Absent,
    );
    assert_eq!(parse_ports(&svc), vec![3000]);
}

#[test]
fn port_extraction_sorts_and_dedups() {
    let mut svc = bare_service(
        vec![
            YamlValue::Text("9000:9000".to_string()),
            YamlValue::Number(80),
            YamlValue::Text("9000".to_string()),
        ],
        ComposeLabels::Absent,
    );
    svc.expose = vec![YamlValue::Number(443), YamlValue::Text("bogus".to_string())];
    assert_eq!(parse_ports(&svc), vec![80, 443, 9000]);
}

#[test]
fn labels_list_form_to_map() {
    let labels = ComposeLabels::List(vec![
        "caddy=web.localhost".to_string(),
        "caddy.reverse_proxy={{upstreams 3000}}".to_string(),
        "plain-entry-without-separator".to_string(),
    ]);
    let map = labels.to_map();
    assert_eq!(map.len(), 2);
    assert_eq!(map[0].0.as_str(), "caddy");
    assert_eq!(map[0].1.as_str(), "web.localhost");
    assert_eq!(map[1].0.as_str(), "caddy.reverse_proxy");
    assert_eq!(map[1].1.as_str(), "{{upstreams 3000}}");
}

#[test]
fn labels_map_form_last_binding_wins() {
    let labels = ComposeLabels::Mapping(vec![
        ("a".to_string(), "1".to_string()),
        ("b".to_string(), "2".to_string()),
        ("a".to_string(), "3".to_string()),
    ]);
    let map = labels.to_map();
    assert_eq!(map.len(), 2);
    assert_eq!(map[0].0.as_str(), "a");
    assert_eq!(map[0].1.as_str(), "3");
    assert_eq!(map[1].0.as_str(), "b");
    assert_eq!(map[1].1.as_str(), "2");
}

#[test]
fn extract_services_scenario_web_3000() {
    let doc = ComposeFile {
        name: None,
        services: vec![(
            "web".to_string(),
            bare_service(vec![YamlValue::Text("3000:3000".to_string())], ComposeLabels::Absent),
        )],
        networks: Vec::new(),
        extra: Vec::new(),
    };
    let (project, services) = extract_services(&doc, "/home/user/myapp/compose.yml");
    assert_eq!(project.as_str(), "myapp");
    assert_eq!(services.len(), 1);
    let svc = &services[0];
    assert_eq!(svc.name.as_str(), "web");
    assert!(svc.proxy.is_none());
    assert!(matches!(svc.status, ContainerStatus::NotDeployed));
    assert_eq!(svc.available_ports, vec![3000]);
    match &svc.source {
        ServiceSource::Compose { file, service_name } => {
            assert_eq!(file.as_str(), "/home/user/myapp/compose.yml");
            assert_eq!(service_name.as_str(), "web");
        }
        ServiceSource::Runtime => panic!("declared service must carry a compose source"),
    }
}

#[test]
fn extract_services_prefers_declared_project_name() {
    let doc = ComposeFile {
        name: Some("declared".to_string()),
        services: Vec::new(),
        networks: Vec::new(),
        extra: Vec::new(),
    };
    let (project, services) = extract_services(&doc, "/srv/dir/compose.yml");
    assert_eq!(project.as_str(), "declared");
    assert!(services.is_empty());
}

#[test]
fn default_domain_format() {
    assert_eq!(default_domain("web", "myapp").as_str(), "web.myapp.localhost");
}

#[test]
fn add_caddy_labels_writes_all_three_keys() {
    let mut doc = ComposeFile {
        name: None,
        services: vec![(
            "web".to_string(),
            bare_service(vec![YamlValue::Text("3000:3000".to_string())], ComposeLabels::Absent),
        )],
        networks: Vec::new(),
        extra: Vec::new(),
    };
    let cfg = ProxyConfig {
        domain: "web.myapp.localhost".to_string(),
        port: 3000,
        tls: "internal".to_string(),
    };
    add_caddy_labels(&mut doc, "web", &cfg);

    let svc = &doc.services[0].1;
    let map = svc.labels.to_map();
    let get = |k: &str| {
        map.iter()
            .find(|(key, _)| key == k)
            .map(|(_, v)| v.clone())
    };
    assert_eq!(get("caddy").unwrap().as_str(), "web.myapp.localhost");
    assert_eq!(get("caddy.reverse_proxy").unwrap().as_str(), "{{upstreams 3000}}");
    assert_eq!(get("caddy.tls").unwrap().as_str(), "internal");

    match &svc.networks {
        Some(YamlValue::List(items)) => {
            assert!(items
                .iter()
                .any(|v| matches!(v, YamlValue::Text(s) if s == "caddy")));
        }
        other => panic!("expected a networks list, got {:?}", other),
    }

    let caddy_net = doc
        .networks
        .iter()
        .find(|(k, _)| k == "caddy")
        .expect("top-level caddy network");
    match &caddy_net.1 {
        Some(net) => assert_eq!(net.external, Some(true)),
        None => panic!("caddy network must carry external: true"),
    }

    // the mutated document decodes back to the same route
    let (_, services) = extract_services(&doc, "/srv/myapp/compose.yml");
    let decoded = services[0].proxy.as_ref().expect("route decodes");
    assert_eq!(decoded.domain.as_str(), "web.myapp.localhost");
    assert_eq!(decoded.port, 3000);
    assert_eq!(decoded.tls.as_str(), "internal");
}

#[test]
fn add_caddy_labels_twice_is_idempotent() {
    let mut once = ComposeFile {
        name: Some("app".to_string()),
        services: vec![(
            "web".to_string(),
            ComposeService {
                labels: ComposeLabels::List(vec!["keep=me".to_string()]),
                ports: vec![YamlValue::Text("8080:80".to_string())],
                expose: Vec::new(),
                networks: Some(YamlValue::List(vec![YamlValue::Text("front".to_string())])),
                extra: vec![("image".to_string(), YamlValue::Text("nginx".to_string()))],
            },
        )],
        networks: vec![("front".to_string(), None)],
        extra: vec![("version".to_string(), YamlValue::Text("3".to_string()))],
    };
    let cfg = ProxyConfig {
        domain: "web.app.localhost".to_string(),
        port: 80,
        tls: "internal".to_string(),
    };
    add_caddy_labels(&mut once, "web", &cfg);
    let after_once = format!("{:?}", once);
    add_caddy_labels(&mut once, "web", &cfg);
    let after_twice = format!("{:?}", once);
    assert_eq!(after_once, after_twice);
}

#[test]
fn add_caddy_labels_preserves_unrelated_fields() {
    let mut doc = ComposeFile {
        name: Some("app".to_string()),
        services: vec![
            (
                "db".to_string(),
                ComposeService {
                    labels: ComposeLabels::Mapping(vec![(
                        "keep".to_string(),
                        "me".to_string(),
                    )]),
                    ports: Vec::new(),
                    expose: Vec::new(),
                    networks: None,
                    extra: vec![("image".to_string(), YamlValue::Text("postgres".to_string()))],
                },
            ),
            (
                "web".to_string(),
                ComposeService {
                    labels: ComposeLabels::Absent,
                    ports: vec![YamlValue::Number(3000)],
                    expose: Vec::new(),
                    networks: None,
                    extra: vec![("image".to_string(), YamlValue::Text("nginx".to_string()))],
                },
            ),
        ],
        networks: Vec::new(),
        extra: vec![("x-custom".to_string(), YamlValue::Bool(true))],
    };
    let before_db = format!("{:?}", doc.services[0]);
    let cfg = ProxyConfig {
        domain: "web.app.localhost".to_string(),
        port: 3000,
        tls: "internal".to_string(),
    };
    add_caddy_labels(&mut doc, "web", &cfg);
    assert_eq!(format!("{:?}", doc.services[0]), before_db);
    assert_eq!(doc.name.as_deref(), Some("app"));
    assert_eq!(doc.extra.len(), 1);
    assert_eq!(doc.extra[0].0.as_str(), "x-custom");
    let web = &doc.services[1].1;
    assert!(matches!(&web.extra[0].1, YamlValue::Text(s) if s == "nginx"));
    assert!(matches!(&web.ports[0], YamlValue::Number(3000)));
}

#[test]
fn add_caddy_labels_creates_missing_service() {
    let mut doc = ComposeFile {
        name: None,
        services: Vec::new(),
        networks: Vec::new(),
        extra: Vec::new(),
    };
    let cfg = ProxyConfig {
        domain: "new.localhost".to_string(),
        port: 8000,
        tls: "internal".to_string(),
    };
    add_caddy_labels(&mut doc, "new", &cfg);
    assert_eq!(doc.services.len(), 1);
    assert_eq!(doc.services[0].0.as_str(), "new");
    let map = doc.services[0].1.labels.to_map();
    assert!(map.iter().any(|(k, v)| k == "caddy" && v == "new.localhost"));
}

#[test]
fn add_caddy_network_mapping_form() {
    let mut doc = ComposeFile {
        name: None,
        services: vec![(
            "web".to_string(),
            ComposeService {
                labels: ComposeLabels::Absent,
                ports: Vec::new(),
                expose: Vec::new(),
                networks: Some(YamlValue::Mapping(vec![(
                    "front".to_string(),
                    YamlValue::Null,
                )])),
                extra: Vec::new(),
            },
        )],
        networks: Vec::new(),
        extra: Vec::new(),
    };
    let cfg = ProxyConfig {
        domain: "d".to_string(),
        port: 80,
        tls: "internal".to_string(),
    };
    add_caddy_labels(&mut doc, "web", &cfg);
    match &doc.services[0].1.networks {
        Some(YamlValue::Mapping(entries)) => {
            assert_eq!(entries.len(), 2);
            assert_eq!(entries[0].0.as_str(), "front");
            assert_eq!(entries[1].0.as_str(), "caddy");
            assert!(matches!(entries[1].1, YamlValue::Null));
        }
        other => panic!("expected the mapping form to be kept, got {:?}", other),
    }
}

#[test]
fn override_never_replaces_declared_proxy() {
    let declared = ProxyConfig {
        domain: "declared.localhost".to_string(),
        port: 1111,
        tls: "internal".to_string(),
    };
    let mut services = vec![Service {
        name: "web".to_string(),
        proxy: Some(declared),
        status: ContainerStatus::NotDeployed,
        source: ServiceSource::Runtime,
        project: "p".to_string(),
        available_ports: Vec::new(),
    }];
    let override_doc = ComposeFile {
        name: None,
        services: vec![(
            "web".to_string(),
            bare_service(
                Vec::new(),
                ComposeLabels::Mapping(vec![
                    ("caddy".to_string(), "other.localhost".to_string()),
                    ("caddy.reverse_proxy".to_string(), ":2222".to_string()),
                ]),
            ),
        )],
        networks: Vec::new(),
        extra: Vec::new(),
    };
    merge_lcp_configs(&mut services, &vec![override_doc]);
    let kept = services[0].proxy.as_ref().unwrap();
    assert_eq!(kept.domain.as_str(), "declared.localhost");
    assert_eq!(kept.port, 1111);
}

#[test]
fn override_fills_missing_proxy_only() {
    let mut services = vec![
        Service {
            name: "web".to_string(),
            proxy: None,
            status: ContainerStatus::NotDeployed,
            source: ServiceSource::Runtime,
            project: "p".to_string(),
            available_ports: Vec::new(),
        },
        Service {
            name: "db".to_string(),
            proxy: None,
            status: ContainerStatus::NotDeployed,
            source: ServiceSource::Runtime,
            project: "p".to_string(),
            available_ports: Vec::new(),
        },
    ];
    let override_doc = ComposeFile {
        name: None,
        services: vec![(
            "web".to_string(),
            bare_service(
                Vec::new(),
                ComposeLabels::Mapping(vec![
                    ("caddy".to_string(), "web.localhost".to_string()),
                    ("caddy.reverse_proxy".to_string(), "{{upstreams 4000}}".to_string()),
                ]),
            ),
        )],
        networks: Vec::new(),
        extra: Vec::new(),
    };
    merge_lcp_configs(&mut services, &vec![override_doc]);
    let filled = services[0].proxy.as_ref().unwrap();
    assert_eq!(filled.domain.as_str(), "web.localhost");
    assert_eq!(filled.port, 4000);
    assert!(services[1].proxy.is_none());
}

#[test]
fn discovery_excludes_production_names() {
    let paths: Vec<String> = vec![
        "/a/compose.yml".to_string(),
        "/a/compose.prod.yml".to_string(),
        "/a/deep/nested/docker-compose.STAGING.yaml".to_string(),
        "/b/docker-compose.yaml".to_string(),
        "/b/compose.production.yml".to_string(),
        "/b/notes.txt".to_string(),
        "/a/compose.yml".to_string(),
    ];
    let found = filter_compose_paths(&paths);
    let found: Vec<&str> = found.iter().map(|s| s.as_str()).collect();
    assert_eq!(found, vec!["/a/compose.yml", "/b/docker-compose.yaml"]);
}

#[test]
fn discovery_name_predicates() {
    assert!(is_compose_file_name("compose.yml"));
    assert!(is_compose_file_name("compose.override.yaml"));
    assert!(is_compose_file_name("docker-compose.yml"));
    assert!(!is_compose_file_name("my-compose.yml"));
    assert!(!is_compose_file_name("compose.yaml.bak"));
    assert!(is_excluded_file_name("compose.PROD.yml"));
    assert!(is_excluded_file_name("docker-compose.staging.yaml"));
    assert!(is_excluded_file_name("production-compose.yml"));
    assert!(!is_excluded_file_name("compose.dev.yml"));
}

fn record(
    names: &[&str],
    labels: &[(&str, &str)],
    state: Option<ContainerState>,
    ports: &[u16],
) -> ContainerRecord {
    ContainerRecord {
        id: Some("cid".to_string()),
        names: names.iter().map(|s| s.to_string()).collect(),
        labels: labels_map(labels),
        state,
        ports: ports.to_vec(),
    }
}

#[test]
fn engine_unreachable_degrades_gracefully() {
    assert!(matches!(get_caddy_proxy_status(&None), CaddyProxyStatus::Unknown));
    assert!(list_caddy_services(&None).is_empty());
    let mut services = vec![Service {
        name: "web".to_string(),
        proxy: None,
        status: ContainerStatus::Stopped,
        source: ServiceSource::Runtime,
        project: "p".to_string(),
        available_ports: Vec::new(),
    }];
    merge_runtime_status(&mut services, &None);
    assert!(matches!(services[0].status, ContainerStatus::Stopped));
}

#[test]
fn caddy_proxy_status_from_containers() {
    let cs = vec![
        record(&["/other"], &[], Some(ContainerState::Running), &[]),
        record(&["/app_caddy-proxy"], &[], Some(ContainerState::Running), &[]),
    ];
    assert!(matches!(get_caddy_proxy_status(&Some(cs)), CaddyProxyStatus::Up));

    let cs = vec![record(
        &["/caddy-proxy"],
        &[],
        Some(ContainerState::Exited),
        &[],
    )];
    assert!(matches!(get_caddy_proxy_status(&Some(cs)), CaddyProxyStatus::Down));

    let cs = vec![record(
        &["/something"],
        &[("com.docker.compose.service", "caddy-proxy")],
        Some(ContainerState::Running),
        &[],
    )];
    assert!(matches!(get_caddy_proxy_status(&Some(cs)), CaddyProxyStatus::Up));

    let cs = vec![record(&["/unrelated"], &[], Some(ContainerState::Running), &[])];
    assert!(matches!(get_caddy_proxy_status(&Some(cs)), CaddyProxyStatus::Unknown));
}

#[test]
fn list_caddy_services_filters_and_decodes() {
    let cs = vec![
        record(&["/plain"], &[("app", "x")], Some(ContainerState::Running), &[80]),
        record(
            &["/proxied"],
            &[
                ("caddy", "proxied.localhost"),
                ("caddy.reverse_proxy", "{{upstreams 5000}}"),
                ("com.docker.compose.project", "demo"),
            ],
            Some(ContainerState::Running),
            &[5000, 80, 5000],
        ),
        record(
            &["/half"],
            &[("caddy.tls", "internal")],
            Some(ContainerState::Exited),
            &[],
        ),
    ];
    let services = list_caddy_services(&Some(cs));
    assert_eq!(services.len(), 2);
    let s = &services[0];
    assert_eq!(s.name.as_str(), "proxied");
    assert_eq!(s.project.as_str(), "demo");
    assert!(matches!(s.status, ContainerStatus::Running));
    assert!(matches!(s.source, ServiceSource::Runtime));
    assert_eq!(s.available_ports, vec![80, 5000]);
    let cfg = s.proxy.as_ref().unwrap();
    assert_eq!(cfg.domain.as_str(), "proxied.localhost");
    assert_eq!(cfg.port, 5000);
    let half = &services[1];
    assert_eq!(half.name.as_str(), "half");
    assert!(half.proxy.is_none());
    assert_eq!(half.project.as_str(), "runtime");
}

#[test]
fn merge_runtime_status_case_insensitive() {
    let mut services = vec![
        Service {
            name: "Web".to_string(),
            proxy: None,
            status: ContainerStatus::NotDeployed,
            source: ServiceSource::Runtime,
            project: "p".to_string(),
            available_ports: Vec::new(),
        },
        Service {
            name: "db".to_string(),
            proxy: None,
            status: ContainerStatus::NotDeployed,
            source: ServiceSource::Runtime,
            project: "p".to_string(),
            available_ports: Vec::new(),
        },
        Service {
            name: "ghost".to_string(),
            proxy: None,
            status: ContainerStatus::NotDeployed,
            source: ServiceSource::Runtime,
            project: "p".to_string(),
            available_ports: Vec::new(),
        },
    ];
    let cs = vec![
        record(&["/WEB"], &[], Some(ContainerState::Running), &[]),
        record(
            &["/project_db_1"],
            &[("com.docker.compose.service", "DB")],
            Some(ContainerState::Exited),
            &[],
        ),
    ];
    merge_runtime_status(&mut services, &Some(cs));
    assert!(matches!(services[0].status, ContainerStatus::Running));
    assert!(matches!(services[1].status, ContainerStatus::Stopped));
    assert!(matches!(services[2].status, ContainerStatus::NotDeployed));
}

#[test]
fn state_mapping() {
    assert!(matches!(
        state_to_container_status(&Some(ContainerState::Running)),
        ContainerStatus::Running
    ));
    assert!(matches!(
        state_to_container_status(&Some(ContainerState::Exited)),
        ContainerStatus::Stopped
    ));
    assert!(matches!(
        state_to_container_status(&Some(ContainerState::Created)),
        ContainerStatus::Stopped
    ));
    assert!(matches!(
        state_to_container_status(&None),
        ContainerStatus::NotDeployed
    ));
    assert!(matches!(
        state_to_container_status(&Some(ContainerState::Empty)),
        ContainerStatus::NotDeployed
    ));
    assert!(matches!(
        state_to_container_status(&Some(ContainerState::Other)),
        ContainerStatus::NotDeployed
    ));
}

#[test]
fn caddy_label_detection() {
    assert!(has_caddy_label(&labels_map(&[("caddy", "x")])));
    assert!(has_caddy_label(&labels_map(&[("caddy.tls", "internal")])));
    assert!(!has_caddy_label(&labels_map(&[("caddyish", "x"), ("app", "y")])));
}

#[test]
fn generate_preview_exact_text() {
    let cfg = ProxyConfig {
        domain: "web.myapp.localhost".to_string(),
        port: 3000,
        tls: "internal".to_string(),
    };
    let expected = "# Labels to add to service 'web':\nlabels:\n  caddy: web.myapp.localhost\n  caddy.reverse_proxy: \"{{upstreams 3000}}\"\n  caddy.tls: internal\n\n# Network to add (top-level):\nnetworks:\n  caddy:\n    external: true\n\n# Network reference to add to service:\nnetworks:\n  - caddy";
    assert_eq!(generate_preview("web", &cfg).as_str(), expected);
}

#[test]
fn runtime_helpers() {
    assert_eq!(compose_command(&RuntimeType::Docker), "docker");
    assert_eq!(compose_command(&RuntimeType::Podman), "podman");
    let src = ServiceSource::Compose {
        file: "/a/b/compose.yml".to_string(),
        service_name: "web".to_string(),
    };
    assert_eq!(source_label(&src).as_str(), "compose.yml");
    assert_eq!(source_label(&ServiceSource::Runtime).as_str(), "runtime");
}

#[test]
fn decode_takes_final_nonempty_segment() {
    // trailing colons are stripped: the final non-empty segment decides
    assert_eq!(parse_port_from_reverse_proxy("3000:"), Some(3000));
    assert_eq!(parse_port_from_reverse_proxy("  localhost:8080  "), Some(8080));
    assert_eq!(parse_port_from_reverse_proxy(":::"), None);
    assert_eq!(parse_port_from_reverse_proxy("no-port-here"), None);
    assert_eq!(parse_port_from_reverse_proxy("8080"), Some(8080));
}

#[test]
fn add_caddy_labels_upgrades_list_form() {
    let mut doc = ComposeFile {
        name: None,
        services: vec![(
            "web".to_string(),
            bare_service(
                Vec::new(),
                ComposeLabels::List(vec!["keep=me".to_string(), "also=this".to_string()]),
            ),
        )],
        networks: Vec::new(),
        extra: Vec::new(),
    };
    let cfg = ProxyConfig {
        domain: "d.localhost".to_string(),
        port: 80,
        tls: "internal".to_string(),
    };
    add_caddy_labels(&mut doc, "web", &cfg);
    match &doc.services[0].1.labels {
        ComposeLabels::Mapping(entries) => {
            // the two existing bindings survive the format upgrade, 1:1
            assert!(entries.iter().any(|(k, v)| k == "keep" && v == "me"));
            assert!(entries.iter().any(|(k, v)| k == "also" && v == "this"));
            assert!(entries.iter().any(|(k, _)| k == "caddy"));
            assert_eq!(entries.len(), 5);
        }
        other => panic!("labels must be re-encoded as the mapping form, got {:?}", other),
    }
}
