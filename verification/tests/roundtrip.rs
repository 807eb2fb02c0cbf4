use lcp::model::ComposeFile;
use lcp::model::ComposeLabels;
use lcp::model::ComposeNetwork;
use lcp::model::ComposeService;
use lcp::model::ProxyConfig;
use lcp::model::YamlValue;
use lcp::parser::extract_services;
use lcp::writer::add_caddy_labels;

// These tests drive the library through real YAML text, converting between
// the wire form and the library's structural document the same way a caller
// would.

fn to_lib_value(v: &serde_yaml_ng::Value) -> YamlValue {
    match v {
        serde_yaml_ng::Value::Null => YamlValue::Null,
        serde_yaml_ng::Value::Bool(b) => YamlValue::Bool(*b),
        serde_yaml_ng::Value::Number(n) => match n.as_i64() {
            Some(i) => YamlValue::Number(i),
            None => YamlValue::Other(n.to_string()),
        },
        serde_yaml_ng::Value::String(s) => YamlValue::Text(s.clone()),
        serde_yaml_ng::Value::Sequence(items) => {
            YamlValue::List(items.iter().map(to_lib_value).collect())
        }
        serde_yaml_ng::Value::Mapping(m) => YamlValue::Mapping(
            m.iter()
                .map(|(k, v)| (k.as_str().expect("string key").to_string(), to_lib_value(v)))
                .collect(),
        ),
        other => panic!("unsupported YAML node in test input: {:?}", other),
    }
}

fn from_lib_value(v: &YamlValue) -> serde_yaml_ng::Value {
    match v {
        YamlValue::Null => serde_yaml_ng::Value::Null,
        YamlValue::Bool(b) => serde_yaml_ng::Value::Bool(*b),
        YamlValue::Number(n) => serde_yaml_ng::Value::Number((*n).into()),
        YamlValue::Text(s) => serde_yaml_ng::Value::String(s.clone()),
        YamlValue::Other(s) => serde_yaml_ng::Value::String(s.clone()),
        YamlValue::List(items) => {
            serde_yaml_ng::Value::Sequence(items.iter().map(from_lib_value).collect())
        }
        YamlValue::Mapping(entries) => serde_yaml_ng::Value::Mapping(
            entries
                .iter()
                .map(|(k, v)| {
                    (serde_yaml_ng::Value::String(k.clone()), from_lib_value(v))
                })
                .collect(),
        ),
    }
}

fn doc_from_yaml(text: &str) -> ComposeFile {
    let root: serde_yaml_ng::Value = serde_yaml_ng::from_str(text).expect("valid YAML");
    let root = root.as_mapping().expect("mapping at top level");
    let mut name = None;
    let mut services = Vec::new();
    let mut networks = Vec::new();
    let mut extra = Vec::new();
    for (k, v) in root.iter() {
        let key = k.as_str().expect("string key");
        match key {
            "name" => name = Some(v.as_str().expect("string name").to_string()),
            "services" => {
                for (sname, sval) in v.as_mapping().expect("services mapping").iter() {
                    services.push((
                        sname.as_str().expect("string key").to_string(),
                        service_from_value(sval),
                    ));
                }
            }
            "networks" => {
                for (nname, nval) in v.as_mapping().expect("networks mapping").iter() {
                    let net = match nval {
                        serde_yaml_ng::Value::Null => None,
                        serde_yaml_ng::Value::Mapping(m) => Some(ComposeNetwork {
                            external: m
                                .get(serde_yaml_ng::Value::String("external".to_string()))
                                .and_then(|b| b.as_bool()),
                            name: m
                                .get(serde_yaml_ng::Value::String("name".to_string()))
                                .and_then(|s| s.as_str())
                                .map(|s| s.to_string()),
                        }),
                        other => panic!("unsupported network shape: {:?}", other),
                    };
                    services_key_check(nname);
                    networks.push((nname.as_str().unwrap().to_string(), net));
                }
            }
            _ => extra.push((key.to_string(), to_lib_value(v))),
        }
    }
    ComposeFile { name, services, networks, extra }
}

fn services_key_check(k: &serde_yaml_ng::Value) {
    assert!(k.as_str().is_some(), "network keys must be strings");
}

fn service_from_value(v: &serde_yaml_ng::Value) -> ComposeService {
    let m = v.as_mapping().expect("service mapping");
    let mut svc = ComposeService {
        labels: ComposeLabels::Absent,
        ports: Vec::new(),
        expose: Vec::new(),
        networks: None,
        extra: Vec::new(),
    };
    for (k, val) in m.iter() {
        let key = k.as_str().expect("string key");
        match key {
            "labels" => {
                svc.labels = match val {
                    serde_yaml_ng::Value::Mapping(lm) => ComposeLabels::Mapping(
                        lm.iter()
                            .map(|(lk, lv)| {
                                (
                                    lk.as_str().expect("string key").to_string(),
                                    lv.as_str().expect("string label value").to_string(),
                                )
                            })
                            .collect(),
                    ),
                    serde_yaml_ng::Value::Sequence(items) => ComposeLabels::List(
                        items
                            .iter()
                            .map(|x| x.as_str().expect("string item").to_string())
                            .collect(),
                    ),
                    other => panic!("unsupported labels shape: {:?}", other),
                };
            }
            "ports" => {
                svc.ports = val
                    .as_sequence()
                    .expect("ports list")
                    .iter()
                    .map(to_lib_value)
                    .collect();
            }
            "expose" => {
                svc.expose = val
                    .as_sequence()
                    .expect("expose list")
                    .iter()
                    .map(to_lib_value)
                    .collect();
            }
            "networks" => svc.networks = Some(to_lib_value(val)),
            _ => svc.extra.push((key.to_string(), to_lib_value(val))),
        }
    }
    svc
}

fn doc_to_yaml(doc: &ComposeFile) -> String {
    let mut root = serde_yaml_ng::Mapping::new();
    if let Some(name) = &doc.name {
        root.insert(
            serde_yaml_ng::Value::String("name".to_string()),
            serde_yaml_ng::Value::String(name.clone()),
        );
    }
    let mut services = serde_yaml_ng::Mapping::new();
    for (sname, svc) in &doc.services {
        services.insert(
            serde_yaml_ng::Value::String(sname.clone()),
            service_to_value(svc),
        );
    }
    root.insert(
        serde_yaml_ng::Value::String("services".to_string()),
        serde_yaml_ng::Value::Mapping(services),
    );
    if !doc.networks.is_empty() {
        let mut networks = serde_yaml_ng::Mapping::new();
        for (nname, net) in &doc.networks {
            let nval = match net {
                None => serde_yaml_ng::Value::Null,
                Some(n) => {
                    let mut m = serde_yaml_ng::Mapping::new();
                    if let Some(ext) = n.external {
                        m.insert(
                            serde_yaml_ng::Value::String("external".to_string()),
                            serde_yaml_ng::Value::Bool(ext),
                        );
                    }
                    if let Some(name) = &n.name {
                        m.insert(
                            serde_yaml_ng::Value::String("name".to_string()),
                            serde_yaml_ng::Value::String(name.clone()),
                        );
                    }
                    serde_yaml_ng::Value::Mapping(m)
                }
            };
            networks.insert(serde_yaml_ng::Value::String(nname.clone()), nval);
        }
        root.insert(
            serde_yaml_ng::Value::String("networks".to_string()),
            serde_yaml_ng::Value::Mapping(networks),
        );
    }
    for (k, v) in &doc.extra {
        root.insert(serde_yaml_ng::Value::String(k.clone()), from_lib_value(v));
    }
    serde_yaml_ng::to_string(&serde_yaml_ng::Value::Mapping(root)).expect("serializable")
}

fn service_to_value(svc: &ComposeService) -> serde_yaml_ng::Value {
    let mut m = serde_yaml_ng::Mapping::new();
    match &svc.labels {
        ComposeLabels::Absent => {}
        ComposeLabels::Mapping(entries) => {
            let mut lm = serde_yaml_ng::Mapping::new();
            for (k, v) in entries {
                lm.insert(
                    serde_yaml_ng::Value::String(k.clone()),
                    serde_yaml_ng::Value::String(v.clone()),
                );
            }
            m.insert(
                serde_yaml_ng::Value::String("labels".to_string()),
                serde_yaml_ng::Value::Mapping(lm),
            );
        }
        ComposeLabels::List(items) => {
            m.insert(
                serde_yaml_ng::Value::String("labels".to_string()),
                serde_yaml_ng::Value::Sequence(
                    items
                        .iter()
                        .map(|s| serde_yaml_ng::Value::String(s.clone()))
                        .collect(),
                ),
            );
        }
    }
    if !svc.ports.is_empty() {
        m.insert(
            serde_yaml_ng::Value::String("ports".to_string()),
            serde_yaml_ng::Value::Sequence(svc.ports.iter().map(from_lib_value).collect()),
        );
    }
    if !svc.expose.is_empty() {
        m.insert(
            serde_yaml_ng::Value::String("expose".to_string()),
            serde_yaml_ng::Value::Sequence(svc.expose.iter().map(from_lib_value).collect()),
        );
    }
    if let Some(nets) = &svc.networks {
        m.insert(
            serde_yaml_ng::Value::String("networks".to_string()),
            from_lib_value(nets),
        );
    }
    for (k, v) in &svc.extra {
        m.insert(serde_yaml_ng::Value::String(k.clone()), from_lib_value(v));
    }
    serde_yaml_ng::Value::Mapping(m)
}

const SAMPLE: &str = "name: myapp\nservices:\n  web:\n    image: nginx:latest\n    ports:\n      - \"3000:3000\"\n    environment:\n      FOO: bar\n    healthcheck:\n      test: curl localhost\n      retries: 3\n  db:\n    image: postgres\n    expose:\n      - 5432\nnetworks:\n  front: null\nx-custom:\n  nested:\n    - 1\n    - two\n";

// Parsing then re-serializing an untouched document preserves every field,
// the ones the engine does not understand included.
#[test]
fn roundtrip_preserves_unknown_fields() {
    let doc = doc_from_yaml(SAMPLE);
    let serialized = doc_to_yaml(&doc);
    let original: serde_yaml_ng::Value = serde_yaml_ng::from_str(SAMPLE).unwrap();
    let reparsed: serde_yaml_ng::Value = serde_yaml_ng::from_str(&serialized).unwrap();
    assert_eq!(original, reparsed);
}

// The written file, re-parsed, decodes to the route that was added, the
// service is wired into the caddy network, and nothing else moved.
#[test]
fn written_file_decodes_to_added_route() {
    let mut doc = doc_from_yaml(SAMPLE);
    let cfg = ProxyConfig {
        domain: "web.myapp.localhost".to_string(),
        port: 3000,
        tls: "internal".to_string(),
    };
    add_caddy_labels(&mut doc, "web", &cfg);
    let written = doc_to_yaml(&doc);

    let reparsed = doc_from_yaml(&written);
    let (project, services) = extract_services(&reparsed, "/srv/myapp/compose.yml");
    assert_eq!(project.as_str(), "myapp");
    let web = services.iter().find(|s| s.name.as_str() == "web").unwrap();
    let decoded = web.proxy.as_ref().expect("added route decodes");
    assert_eq!(decoded.domain.as_str(), "web.myapp.localhost");
    assert_eq!(decoded.port, 3000);
    assert_eq!(decoded.tls.as_str(), "internal");

    let websvc = &reparsed
        .services
        .iter()
        .find(|(n, _)| n.as_str() == "web")
        .unwrap()
        .1;
    match &websvc.networks {
        Some(YamlValue::List(items)) => {
            assert!(items
                .iter()
                .any(|v| matches!(v, YamlValue::Text(s) if s == "caddy")));
        }
        other => panic!("expected a networks list with caddy, got {:?}", other),
    }
    let caddy_net = reparsed
        .networks
        .iter()
        .find(|(k, _)| k.as_str() == "caddy")
        .expect("top-level caddy network");
    assert_eq!(caddy_net.1.as_ref().unwrap().external, Some(true));

    // untouched parts survive the write
    let db = &reparsed
        .services
        .iter()
        .find(|(n, _)| n.as_str() == "db")
        .unwrap()
        .1;
    assert!(matches!(
        db.extra.iter().find(|(k, _)| k == "image"),
        Some((_, YamlValue::Text(s))) if s == "postgres"
    ));
    assert!(reparsed.extra.iter().any(|(k, _)| k == "x-custom"));
}
