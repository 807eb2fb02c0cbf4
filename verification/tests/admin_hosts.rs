use lcp::admin::active_domains;
use lcp::admin::extract_hosts;
use lcp::model::FormState;
use lcp::model::YamlValue;

fn text(s: &str) -> YamlValue {
    YamlValue::Text(s.to_string())
}

// The admin config tree is not contractually stable: hosts must be found in
// arrays under a `host` key at any depth.
#[test]
fn hosts_found_at_any_depth() {
    let tree = YamlValue::Mapping(vec![
        (
            "srv0".to_string(),
            YamlValue::Mapping(vec![(
                "routes".to_string(),
                YamlValue::List(vec![YamlValue::Mapping(vec![(
                    "match".to_string(),
                    YamlValue::List(vec![YamlValue::Mapping(vec![(
                        "host".to_string(),
                        YamlValue::List(vec![text("b.localhost"), text("a.localhost")]),
                    )])]),
                )])]),
            )]),
        ),
        (
            "srv1".to_string(),
            YamlValue::Mapping(vec![(
                "host".to_string(),
                YamlValue::List(vec![text("c.localhost"), YamlValue::Number(7)]),
            )]),
        ),
    ]);
    let hosts: Vec<String> = extract_hosts(&tree);
    let hosts: Vec<&str> = hosts.iter().map(|s| s.as_str()).collect();
    assert_eq!(hosts, vec!["b.localhost", "a.localhost", "c.localhost"]);
}

#[test]
fn hosts_ignore_non_array_host_keys() {
    let tree = YamlValue::Mapping(vec![(
        "host".to_string(),
        text("not-an-array"),
    )]);
    assert!(extract_hosts(&tree).is_empty());
    assert!(extract_hosts(&YamlValue::Null).is_empty());
    assert!(extract_hosts(&text("leaf")).is_empty());
}

#[test]
fn active_domains_sorted_and_deduplicated() {
    let tree = YamlValue::List(vec![
        YamlValue::Mapping(vec![(
            "host".to_string(),
            YamlValue::List(vec![text("z.localhost"), text("a.localhost")]),
        )]),
        YamlValue::Mapping(vec![(
            "host".to_string(),
            YamlValue::List(vec![text("a.localhost"), text("m.localhost")]),
        )]),
    ]);
    let domains: Vec<String> = active_domains(&tree);
    let domains: Vec<&str> = domains.iter().map(|s| s.as_str()).collect();
    assert_eq!(domains, vec!["a.localhost", "m.localhost", "z.localhost"]);
}

#[test]
fn form_state_default_values() {
    let form = FormState::default();
    assert_eq!(form.focused_field, 0);
    assert_eq!(form.domain.as_str(), "");
    assert_eq!(form.port.as_str(), "");
    assert_eq!(form.tls.as_str(), "internal");
    assert_eq!(form.service_index, 0);
}
