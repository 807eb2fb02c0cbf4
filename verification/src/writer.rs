use vstd::prelude::*;
use vstd::string::StrSliceExecFns;
use vstd::string::StringExecFns;

use crate::labels::canon_of_labels;
use crate::labels::upsert;
use crate::labels::upsert_label;
use crate::model::ComposeFile;
use crate::model::ComposeFileV;
use crate::model::ComposeLabels;
use crate::model::ComposeLabelsV;
use crate::model::ComposeNetwork;
use crate::model::ComposeNetworkV;
use crate::model::ComposeService;
use crate::model::ComposeServiceV;
use crate::model::ProxyConfig;
use crate::model::ProxyConfigV;
use crate::model::YamlValue;
use crate::model::YamlValueV;
use crate::model::compose_file_view;
use crate::model::compose_service_view;
use crate::model::lemma_yaml_entries_view_index;
use crate::model::lemma_yaml_entries_view_len;
use crate::model::lemma_yaml_entries_view_push;
use crate::model::lemma_yaml_seq_view_index;
use crate::model::lemma_yaml_seq_view_len;
use crate::model::lemma_yaml_seq_view_push;
use crate::model::yaml_view;
use crate::strutil::dec_of;
use crate::strutil::str_eq;
use crate::strutil::u16_to_string;

verus! {

// ---------------------------------------------------------------------------
// The mutation, specified at the view level
// ---------------------------------------------------------------------------

/// The `caddy.reverse_proxy` label value written for a port:
/// `{{upstreams <port>}}`.
pub open spec fn rp_value_of(port: u16) -> Seq<char> {
    "{{upstreams "@ + dec_of(port as int) + "}}"@
}

/// The canonical label mapping after the three proxy keys are set; every
/// other label keeps its value and its position.
pub open spec fn caddy_labels_spec(labels: ComposeLabelsV, cfg: ProxyConfigV) -> Seq<
    (Seq<char>, Seq<char>),
> {
    upsert(
        upsert(
            upsert(canon_of_labels(labels), "caddy"@, cfg.domain),
            "caddy.reverse_proxy"@,
            rp_value_of(cfg.port),
        ),
        "caddy.tls"@,
        cfg.tls,
    )
}

/// Whether some element of a networks list is the string `caddy`.
pub open spec fn has_caddy_text(items: Seq<YamlValueV>) -> bool {
    exists|i: int| 0 <= i < items.len() && items[i] == YamlValueV::Text("caddy"@)
}

/// Whether a networks mapping has a `caddy` key.
pub open spec fn has_caddy_key(entries: Seq<(Seq<char>, YamlValueV)>) -> bool {
    exists|i: int| 0 <= i < entries.len() && entries[i].0 == "caddy"@
}

/// A service's networks field with `caddy` ensured: appended to a list,
/// inserted as a null-valued key in a mapping, created as a one-element list
/// when absent, and any other shape replaced wholesale by that list.
pub open spec fn networks_with_caddy(n: Option<YamlValueV>) -> YamlValueV {
    match n {
        Option::None => YamlValueV::List(seq![YamlValueV::Text("caddy"@)]),
        Option::Some(v) => match v {
            YamlValueV::List(items) => if has_caddy_text(items) {
                YamlValueV::List(items)
            } else {
                YamlValueV::List(items.push(YamlValueV::Text("caddy"@)))
            },
            YamlValueV::Mapping(entries) => if has_caddy_key(entries) {
                YamlValueV::Mapping(entries)
            } else {
                YamlValueV::Mapping(entries.push(("caddy"@, YamlValueV::Null)))
            },
            _ => YamlValueV::List(seq![YamlValueV::Text("caddy"@)]),
        },
    }
}

/// A service after the mutation: labels re-encoded as the mapping form with
/// the three proxy keys set, the `caddy` network ensured, everything else
/// untouched.
pub open spec fn service_with_caddy(svc: ComposeServiceV, cfg: ProxyConfigV) -> ComposeServiceV {
    ComposeServiceV {
        labels: ComposeLabelsV::Mapping(caddy_labels_spec(svc.labels, cfg)),
        networks: Option::Some(networks_with_caddy(svc.networks)),
        ..svc
    }
}

// ---------------------------------------------------------------------------
// Service-level mutation
// ---------------------------------------------------------------------------

/// Ensure the `caddy` network is named by the service's networks field.
fn caddy_networks_value(nets: Option<YamlValue>) -> (r: YamlValue)
    ensures
        yaml_view(r) == networks_with_caddy(
            match nets {
                Option::Some(v) => Option::Some(yaml_view(v)),
                Option::None => Option::None,
            },
        ),
{
    match nets {
        Option::None => fresh_caddy_list(),
        Option::Some(v) => match v {
            YamlValue::List(mut items) => {
                let ghost iv = crate::model::yaml_seq_view(items@);
                proof {
                    lemma_yaml_seq_view_len(items@);
                }
                let mut found = false;
                let mut i: usize = 0;
                while i < items.len()
                    invariant
                        i <= items.len(),
                        iv == crate::model::yaml_seq_view(items@),
                        iv.len() == items@.len(),
                        found ==> has_caddy_text(iv),
                        !found ==> forall|j: int|
                            0 <= j < i ==> iv[j] != YamlValueV::Text("caddy"@),
                    decreases items.len() - i,
                {
                    proof {
                        lemma_yaml_seq_view_index(items@, i as int);
                    }
                    match &items[i] {
                        YamlValue::Text(s) => {
                            if str_eq(s.as_str(), "caddy") {
                                found = true;
                                proof {
                                    assert(iv[i as int] == YamlValueV::Text("caddy"@));
                                }
                                i = items.len();
                            } else {
                                i += 1;
                            }
                        },
                        _ => {
                            i += 1;
                        },
                    }
                }
                if !found {
                    let c = YamlValue::Text(String::from_str("caddy"));
                    proof {
                        assert(!has_caddy_text(iv));
                        lemma_yaml_seq_view_push(items@, c);
                        assert(yaml_view(c) == YamlValueV::Text("caddy"@));
                    }
                    items.push(c);
                }
                YamlValue::List(items)
            },
            YamlValue::Mapping(mut entries) => {
                let ghost ev = crate::model::yaml_entries_view(entries@);
                proof {
                    lemma_yaml_entries_view_len(entries@);
                }
                let mut found = false;
                let mut i: usize = 0;
                while i < entries.len()
                    invariant
                        i <= entries.len(),
                        ev == crate::model::yaml_entries_view(entries@),
                        ev.len() == entries@.len(),
                        found ==> has_caddy_key(ev),
                        !found ==> forall|j: int| 0 <= j < i ==> ev[j].0 != "caddy"@,
                    decreases entries.len() - i,
                {
                    proof {
                        lemma_yaml_entries_view_index(entries@, i as int);
                    }
                    if str_eq(entries[i].0.as_str(), "caddy") {
                        found = true;
                        proof {
                            assert(ev[i as int].0 == "caddy"@);
                        }
                        i = entries.len();
                    } else {
                        i += 1;
                    }
                }
                if !found {
                    let c = (String::from_str("caddy"), YamlValue::Null);
                    proof {
                        assert(!has_caddy_key(ev));
                        lemma_yaml_entries_view_push(entries@, c);
                        assert(c.0.deep_view() == "caddy"@);
                        assert(yaml_view(c.1) == YamlValueV::Null);
                    }
                    entries.push(c);
                }
                YamlValue::Mapping(entries)
            },
            _ => fresh_caddy_list(),
        },
    }
}

/// A one-element networks list naming `caddy`.
fn fresh_caddy_list() -> (r: YamlValue)
    ensures
        yaml_view(r) == YamlValueV::List(seq![YamlValueV::Text("caddy"@)]),
{
    let mut items: Vec<YamlValue> = Vec::new();
    let ghost e = items@;
    let c = YamlValue::Text(String::from_str("caddy"));
    items.push(c);
    proof {
        assert(e =~= Seq::<YamlValue>::empty());
        lemma_yaml_seq_view_push(e, c);
        assert(crate::model::yaml_seq_view(e) =~= Seq::<YamlValueV>::empty());
        assert(yaml_view(c) == YamlValueV::Text("caddy"@));
        assert(crate::model::yaml_seq_view(e).push(yaml_view(c)) =~= seq![
            YamlValueV::Text("caddy"@),
        ]);
    }
    YamlValue::List(items)
}

/// Set the three proxy labels and the `caddy` network on one service.
fn apply_caddy_to_service(svc: &mut ComposeService, config: &ProxyConfig)
    ensures
        compose_service_view(*final(svc)) == service_with_caddy(
            compose_service_view(*old(svc)),
            config.deep_view(),
        ),
{
    let mut map = svc.labels.to_map();
    upsert_label(&mut map, String::from_str("caddy"), config.domain.clone());
    let mut rp = String::from_str("{{upstreams ");
    rp.append(u16_to_string(config.port).as_str());
    rp.append("}}");
    proof {
        assert(rp@ == rp_value_of(config.port));
    }
    upsert_label(&mut map, String::from_str("caddy.reverse_proxy"), rp);
    upsert_label(&mut map, String::from_str("caddy.tls"), config.tls.clone());
    proof {
        assert(map.deep_view() == caddy_labels_spec(
            old(svc).labels.deep_view(),
            config.deep_view(),
        ));
    }
    svc.labels = ComposeLabels::Mapping(map);
    let mut nets: Option<YamlValue> = Option::None;
    core::mem::swap(&mut nets, &mut svc.networks);
    let newnets = caddy_networks_value(nets);
    svc.networks = Option::Some(newnets);
}


// ---------------------------------------------------------------------------
// Top-level networks
// ---------------------------------------------------------------------------

/// The value bound to `key` among the document's networks, at its first
/// occurrence.
pub open spec fn net_lookup(
    entries: Seq<(Seq<char>, Option<ComposeNetworkV>)>,
    key: Seq<char>,
) -> Option<Option<ComposeNetworkV>>
    decreases entries.len(),
{
    if entries.len() == 0 {
        Option::None
    } else if entries[0].0 == key {
        Option::Some(entries[0].1)
    } else {
        net_lookup(entries.drop_first(), key)
    }
}

/// Bind `key` to `val` among the document's networks: replace in place, or
/// append when absent.
pub open spec fn net_upsert(
    entries: Seq<(Seq<char>, Option<ComposeNetworkV>)>,
    key: Seq<char>,
    val: Option<ComposeNetworkV>,
) -> Seq<(Seq<char>, Option<ComposeNetworkV>)>
    decreases entries.len(),
{
    if entries.len() == 0 {
        seq![(key, val)]
    } else if entries[0].0 == key {
        seq![(key, val)] + entries.drop_first()
    } else {
        seq![entries[0]] + net_upsert(entries.drop_first(), key, val)
    }
}

/// After a network upsert the key reads back as the new value.
proof fn lemma_net_lookup_upsert_same(
    entries: Seq<(Seq<char>, Option<ComposeNetworkV>)>,
    key: Seq<char>,
    val: Option<ComposeNetworkV>,
)
    ensures
        net_lookup(net_upsert(entries, key, val), key) == Option::Some(val),
    decreases entries.len(),
{
    if entries.len() == 0 {
        assert(net_upsert(entries, key, val)[0] == (key, val));
    } else if entries[0].0 == key {
        assert((seq![(key, val)] + entries.drop_first())[0] == (key, val));
    } else {
        lemma_net_lookup_upsert_same(entries.drop_first(), key, val);
        let r = seq![entries[0]] + net_upsert(entries.drop_first(), key, val);
        assert(r[0] == entries[0]);
        assert(r.drop_first() =~= net_upsert(entries.drop_first(), key, val));
    }
}

/// Rebinding a network key to the value it already has changes nothing.
proof fn lemma_net_upsert_noop(
    entries: Seq<(Seq<char>, Option<ComposeNetworkV>)>,
    key: Seq<char>,
    val: Option<ComposeNetworkV>,
)
    requires
        net_lookup(entries, key) == Option::Some(val),
    ensures
        net_upsert(entries, key, val) == entries,
    decreases entries.len(),
{
    if entries.len() == 0 {
    } else if entries[0].0 == key {
        assert(seq![(key, val)] + entries.drop_first() =~= entries);
    } else {
        lemma_net_upsert_noop(entries.drop_first(), key, val);
        assert(seq![entries[0]] + entries.drop_first() =~= entries);
    }
}

/// When the key first occurs at `i`, a network upsert is an update at `i`.
proof fn lemma_net_upsert_at(
    entries: Seq<(Seq<char>, Option<ComposeNetworkV>)>,
    key: Seq<char>,
    val: Option<ComposeNetworkV>,
    i: int,
)
    requires
        0 <= i < entries.len(),
        entries[i].0 == key,
        forall|j: int| 0 <= j < i ==> entries[j].0 != key,
    ensures
        net_upsert(entries, key, val) == entries.update(i, (key, val)),
    decreases i,
{
    if i == 0 {
        assert(seq![(key, val)] + entries.drop_first() =~= entries.update(0, (key, val)));
    } else {
        let t = entries.drop_first();
        assert(forall|j: int| 0 <= j < t.len() ==> t[j] == entries[j + 1]);
        lemma_net_upsert_at(t, key, val, i - 1);
        assert(seq![entries[0]] + t.update(i - 1, (key, val)) =~= entries.update(i, (key, val)));
    }
}

/// A network upsert with an absent key appends the new entry.
proof fn lemma_net_upsert_absent_push(
    entries: Seq<(Seq<char>, Option<ComposeNetworkV>)>,
    key: Seq<char>,
    val: Option<ComposeNetworkV>,
)
    requires
        forall|i: int| 0 <= i < entries.len() ==> entries[i].0 != key,
    ensures
        net_upsert(entries, key, val) == entries.push((key, val)),
    decreases entries.len(),
{
    if entries.len() == 0 {
        assert(seq![(key, val)] =~= entries.push((key, val)));
    } else {
        assert(forall|i: int|
            0 <= i < entries.drop_first().len() ==> entries.drop_first()[i] == entries[i + 1]);
        lemma_net_upsert_absent_push(entries.drop_first(), key, val);
        assert(seq![entries[0]] + entries.drop_first().push((key, val)) =~= entries.push(
            (key, val),
        ));
    }
}

/// Bind `key` to `val` among the document's top-level networks.
#[verifier::loop_isolation(false)]
fn upsert_network(
    entries: &mut Vec<(String, Option<ComposeNetwork>)>,
    key: String,
    val: Option<ComposeNetwork>,
)
    ensures
        final(entries).deep_view() == net_upsert(old(entries).deep_view(), key@, val.deep_view()),
{
    let ghost m = old(entries).deep_view();
    let mut i: usize = 0;
    while i < entries.len()
        invariant
            i <= entries.len(),
            entries == old(entries),
            m == entries.deep_view(),
            m.len() == entries.len(),
            forall|j: int| 0 <= j < i ==> m[j].0 != key@,
        decreases entries.len() - i,
    {
        proof {
            assert(m[i as int] == (entries@[i as int].0.deep_view(), entries@[i as int].1.deep_view()));
        }
        if str_eq(entries[i].0.as_str(), key.as_str()) {
            proof {
                lemma_net_upsert_at(m, key@, val.deep_view(), i as int);
            }
            entries[i] = (key, val);
            proof {
                assert(entries.deep_view() =~= m.update(i as int, (key@, val.deep_view())));
            }
            return ;
        }
        i += 1;
    }
    proof {
        lemma_net_upsert_absent_push(m, key@, val.deep_view());
    }
    entries.push((key, val));
    proof {
        assert(entries.deep_view() =~= m.push((key@, val.deep_view())));
    }
}

// ---------------------------------------------------------------------------
// The whole-document mutation
// ---------------------------------------------------------------------------

/// Index of the first service entry named `name`, or `-1`.
pub open spec fn svc_index(entries: Seq<(Seq<char>, ComposeServiceV)>, name: Seq<char>) -> int
    decreases entries.len(),
{
    if entries.len() == 0 {
        -1
    } else if entries[0].0 == name {
        0
    } else if svc_index(entries.drop_first(), name) < 0 {
        -1
    } else {
        1 + svc_index(entries.drop_first(), name)
    }
}

/// `svc_index` names the first match, or `-1` when there is none.
proof fn lemma_svc_index_at(entries: Seq<(Seq<char>, ComposeServiceV)>, name: Seq<char>, i: int)
    requires
        0 <= i <= entries.len(),
        forall|j: int| 0 <= j < i ==> entries[j].0 != name,
        i == entries.len() || entries[i].0 == name,
    ensures
        i < entries.len() ==> svc_index(entries, name) == i,
        i == entries.len() ==> svc_index(entries, name) < 0,
    decreases i,
{
    if entries.len() == 0 {
    } else if i == 0 {
        if entries[0].0 != name {
            let t = entries.drop_first();
            assert(forall|j: int| 0 <= j < t.len() ==> t[j] == entries[j + 1]);
            lemma_svc_index_chain(t, name);
        }
    } else {
        let t = entries.drop_first();
        assert(forall|j: int| 0 <= j < t.len() ==> t[j] == entries[j + 1]);
        assert(forall|j: int| 0 <= j < i - 1 ==> t[j].0 != name);
        lemma_svc_index_at(t, name, i - 1);
    }
}

/// A non-negative `svc_index` is in range and names the first matching entry.
proof fn lemma_svc_index_chain(entries: Seq<(Seq<char>, ComposeServiceV)>, name: Seq<char>)
    ensures
        svc_index(entries, name) >= 0 ==> 0 <= svc_index(entries, name) < entries.len()
            && entries[svc_index(entries, name)].0 == name && (forall|j: int|
            0 <= j < svc_index(entries, name) ==> entries[j].0 != name),
        svc_index(entries, name) < 0 ==> forall|j: int|
            0 <= j < entries.len() ==> entries[j].0 != name,
    decreases entries.len(),
{
    if entries.len() == 0 {
    } else if entries[0].0 == name {
    } else {
        let t = entries.drop_first();
        assert(forall|j: int| 0 <= j < t.len() ==> t[j] == entries[j + 1]);
        lemma_svc_index_chain(t, name);
        if svc_index(t, name) < 0 {
            assert forall|j: int| 0 <= j < entries.len() implies entries[j].0 != name by {
                if j > 0 {
                    assert(t[j - 1] == entries[j]);
                }
            }
        } else {
            assert forall|j: int| 0 <= j < svc_index(entries, name) implies entries[j].0 != name by {
                if j > 0 {
                    assert(t[j - 1] == entries[j]);
                }
            }
        }
    }
}

/// A service declaration holding nothing at all.
pub open spec fn empty_service_v() -> ComposeServiceV {
    ComposeServiceV {
        labels: ComposeLabelsV::Absent,
        ports: Seq::empty(),
        expose: Seq::empty(),
        networks: Option::None,
        extra: Seq::empty(),
    }
}

/// The `caddy: {external: true}` top-level network entry.
pub open spec fn caddy_network_entry() -> Option<ComposeNetworkV> {
    Option::Some(ComposeNetworkV { external: Option::Some(true), name: Option::None })
}

/// A document after `add_caddy_labels`: the named service (created bare when
/// absent) gets the proxy labels and the `caddy` network, the top-level
/// `networks` mapping gets `caddy: {external: true}`, and every other field
/// of the document is untouched.
pub open spec fn add_caddy_spec(doc: ComposeFileV, name: Seq<char>, cfg: ProxyConfigV) -> ComposeFileV {
    let idx0 = svc_index(doc.services, name);
    let entries = if idx0 >= 0 {
        doc.services
    } else {
        doc.services.push((name, empty_service_v()))
    };
    let i = if idx0 >= 0 {
        idx0
    } else {
        doc.services.len() as int
    };
    ComposeFileV {
        name: doc.name,
        services: entries.update(i, (name, service_with_caddy(entries[i].1, cfg))),
        networks: net_upsert(doc.networks, "caddy"@, caddy_network_entry()),
        extra: doc.extra,
    }
}

/// A service declaration holding nothing at all.
fn empty_service() -> (r: ComposeService)
    ensures
        compose_service_view(r) == empty_service_v(),
{
    let r = ComposeService {
        labels: ComposeLabels::Absent,
        ports: Vec::new(),
        expose: Vec::new(),
        networks: Option::None,
        extra: Vec::new(),
    };
    proof {
        assert(compose_service_view(r) =~= empty_service_v());
    }
    r
}

/// Set or update the reverse-proxy labels of the named service and wire the
/// `caddy` network, creating the service entry when it does not exist yet.
/// Everything the engine does not understand is preserved.
#[verifier::loop_isolation(false)]
pub fn add_caddy_labels(compose: &mut ComposeFile, service_name: &str, config: &ProxyConfig)
    ensures
        compose_file_view(*final(compose)) == add_caddy_spec(
            compose_file_view(*old(compose)),
            service_name@,
            config.deep_view(),
        ),
{
    let ghost doc0 = compose_file_view(*old(compose));
    let mut idx: usize = 0;
    let n = compose.services.len();
    while idx < n && !str_eq(compose.services[idx].0.as_str(), service_name)
        invariant
            idx <= n,
            compose == old(compose),
            forall|j: int| 0 <= j < idx ==> doc0.services[j].0 != service_name@,
        decreases n - idx,
    {
        proof {
            assert(doc0.services[idx as int].0 == compose.services@[idx as int].0.deep_view());
        }
        idx += 1;
    }
    proof {
        if idx < n {
            assert(doc0.services[idx as int].0 == compose.services@[idx as int].0.deep_view());
        }
        lemma_svc_index_at(doc0.services, service_name@, idx as int);
    }
    if idx == n {
        let fresh = empty_service();
        compose.services.push((service_name.to_owned(), fresh));
        proof {
            assert(crate::model::service_entries_view(compose.services@) =~= doc0.services.push(
                (service_name@, empty_service_v()),
            ));
        }
    }
    let mut pair = (String::new(), empty_service());
    core::mem::swap(&mut compose.services[idx], &mut pair);
    apply_caddy_to_service(&mut pair.1, config);
    compose.services[idx] = pair;
    upsert_network(
        &mut compose.networks,
        String::from_str("caddy"),
        Option::Some(ComposeNetwork { external: Option::Some(true), name: Option::None }),
    );
    proof {
        let docf = compose_file_view(*compose);
        let target = add_caddy_spec(doc0, service_name@, config.deep_view());
        assert(docf.services =~= target.services);
        assert(docf.networks == target.networks);
        assert(docf =~= target);
    }
}


// ---------------------------------------------------------------------------
// Idempotence of the mutation
// ---------------------------------------------------------------------------

/// The canonical mapping of any label encoding has unique keys.
proof fn lemma_canon_of_labels_unique(l: ComposeLabelsV)
    ensures
        crate::labels::unique_keys(canon_of_labels(l)),
{
    match l {
        ComposeLabelsV::Absent => {},
        ComposeLabelsV::Mapping(entries) => {
            crate::labels::lemma_canon_of_pairs_unique(entries);
        },
        ComposeLabelsV::List(items) => {
            crate::labels::lemma_canon_of_list_unique(items);
        },
    }
}

/// Setting the three proxy keys on labels that already carry them, with the
/// same values, changes nothing.
proof fn lemma_caddy_labels_idempotent(l: ComposeLabelsV, cfg: ProxyConfigV)
    ensures
        caddy_labels_spec(ComposeLabelsV::Mapping(caddy_labels_spec(l, cfg)), cfg)
            == caddy_labels_spec(l, cfg),
{
    reveal_strlit("caddy");
    reveal_strlit("caddy.reverse_proxy");
    reveal_strlit("caddy.tls");
    assert("caddy"@.len() == 5);
    assert("caddy.reverse_proxy"@.len() == 19);
    assert("caddy.tls"@.len() == 9);
    let c = canon_of_labels(l);
    let x1 = upsert(c, "caddy"@, cfg.domain);
    let x2 = upsert(x1, "caddy.reverse_proxy"@, rp_value_of(cfg.port));
    let m1 = upsert(x2, "caddy.tls"@, cfg.tls);
    lemma_canon_of_labels_unique(l);
    crate::labels::lemma_upsert_unique(c, "caddy"@, cfg.domain);
    crate::labels::lemma_upsert_unique(x1, "caddy.reverse_proxy"@, rp_value_of(cfg.port));
    crate::labels::lemma_upsert_unique(x2, "caddy.tls"@, cfg.tls);
    crate::labels::lemma_canon_of_unique_id(m1);
    assert(canon_of_labels(ComposeLabelsV::Mapping(m1)) == m1);
    crate::labels::lemma_lookup_upsert_same(c, "caddy"@, cfg.domain);
    crate::labels::lemma_lookup_upsert_other(
        x1,
        "caddy.reverse_proxy"@,
        rp_value_of(cfg.port),
        "caddy"@,
    );
    crate::labels::lemma_lookup_upsert_other(x2, "caddy.tls"@, cfg.tls, "caddy"@);
    assert(crate::labels::lookup(m1, "caddy"@) == Option::Some(cfg.domain));
    crate::labels::lemma_upsert_noop(m1, "caddy"@, cfg.domain);
    crate::labels::lemma_lookup_upsert_same(x1, "caddy.reverse_proxy"@, rp_value_of(cfg.port));
    crate::labels::lemma_lookup_upsert_other(
        x2,
        "caddy.tls"@,
        cfg.tls,
        "caddy.reverse_proxy"@,
    );
    assert(crate::labels::lookup(m1, "caddy.reverse_proxy"@) == Option::Some(
        rp_value_of(cfg.port),
    ));
    crate::labels::lemma_upsert_noop(m1, "caddy.reverse_proxy"@, rp_value_of(cfg.port));
    crate::labels::lemma_lookup_upsert_same(x2, "caddy.tls"@, cfg.tls);
    crate::labels::lemma_upsert_noop(m1, "caddy.tls"@, cfg.tls);
}

/// Ensuring the `caddy` network on a field that already has it changes
/// nothing.
proof fn lemma_networks_idempotent(n: Option<YamlValueV>)
    ensures
        networks_with_caddy(Option::Some(networks_with_caddy(n))) == networks_with_caddy(n),
{
    let r = networks_with_caddy(n);
    match r {
        YamlValueV::List(items) => {
            assert(has_caddy_text(items)) by {
                match n {
                    Option::None => {
                        assert(items[0] == YamlValueV::Text("caddy"@));
                    },
                    Option::Some(v) => match v {
                        YamlValueV::List(orig) => {
                            if has_caddy_text(orig) {
                            } else {
                                assert(items[orig.len() as int] == YamlValueV::Text("caddy"@));
                            }
                        },
                        _ => {
                            assert(items[0] == YamlValueV::Text("caddy"@));
                        },
                    },
                }
            }
        },
        YamlValueV::Mapping(entries) => {
            assert(has_caddy_key(entries)) by {
                match n {
                    Option::Some(v) => match v {
                        YamlValueV::Mapping(orig) => {
                            if has_caddy_key(orig) {
                            } else {
                                assert(entries[orig.len() as int].0 == "caddy"@);
                            }
                        },
                        _ => {},
                    },
                    Option::None => {},
                }
            }
        },
        _ => {
            assert(false);
        },
    }
}

/// Applying the mutation twice to a service, with the same config, is the
/// same as applying it once.
proof fn lemma_service_with_caddy_idempotent(svc: ComposeServiceV, cfg: ProxyConfigV)
    ensures
        service_with_caddy(service_with_caddy(svc, cfg), cfg) == service_with_caddy(svc, cfg),
{
    lemma_caddy_labels_idempotent(svc.labels, cfg);
    lemma_networks_idempotent(svc.networks);
}

/// Applying `add_caddy_labels` twice to a document, with the same service
/// name and config, yields the same document as applying it once.
pub proof fn lemma_add_caddy_idempotent(doc: ComposeFileV, name: Seq<char>, cfg: ProxyConfigV)
    ensures
        add_caddy_spec(add_caddy_spec(doc, name, cfg), name, cfg) == add_caddy_spec(
            doc,
            name,
            cfg,
        ),
{
    let d1 = add_caddy_spec(doc, name, cfg);
    let idx0 = svc_index(doc.services, name);
    lemma_svc_index_chain(doc.services, name);
    let entries = if idx0 >= 0 {
        doc.services
    } else {
        doc.services.push((name, empty_service_v()))
    };
    let i = if idx0 >= 0 {
        idx0
    } else {
        doc.services.len() as int
    };
    if idx0 < 0 {
        assert(forall|j: int| 0 <= j < doc.services.len() ==> doc.services[j].0 != name);
        assert(forall|j: int|
            0 <= j < doc.services.len() ==> entries[j] == doc.services[j]);
    }
    assert(entries[i].0 == name);
    assert(forall|j: int| 0 <= j < i ==> entries[j].0 != name);
    assert(d1.services == entries.update(i, (name, service_with_caddy(entries[i].1, cfg))));
    assert(d1.services[i].0 == name);
    assert(forall|j: int| 0 <= j < i ==> d1.services[j] == entries[j]);
    lemma_svc_index_at(d1.services, name, i);
    assert(svc_index(d1.services, name) == i);
    lemma_service_with_caddy_idempotent(entries[i].1, cfg);
    assert(d1.services.update(
        i,
        (name, service_with_caddy(d1.services[i].1, cfg)),
    ) =~= d1.services);
    lemma_net_lookup_upsert_same(doc.networks, "caddy"@, caddy_network_entry());
    lemma_net_upsert_noop(d1.networks, "caddy"@, caddy_network_entry());
    assert(add_caddy_spec(d1, name, cfg) =~= d1);
}


/// The mutation touches nothing it does not understand: the document's
/// declared name and unrecognized fields are kept, every service not named
/// is kept whole, and of the named service the ports, expose list, and
/// unrecognized fields are kept.
pub proof fn lemma_add_caddy_preserves_unrelated(doc: ComposeFileV, name: Seq<char>, cfg: ProxyConfigV)
    ensures
        add_caddy_spec(doc, name, cfg).name == doc.name,
        add_caddy_spec(doc, name, cfg).extra == doc.extra,
        forall|j: int|
            0 <= j < doc.services.len() && doc.services[j].0 != name ==> add_caddy_spec(
                doc,
                name,
                cfg,
            ).services[j] == doc.services[j],
        forall|j: int|
            0 <= j < doc.services.len() && doc.services[j].0 == name ==> {
                let after = add_caddy_spec(doc, name, cfg).services[j].1;
                ||| after.ports == doc.services[j].1.ports && after.expose == doc.services[j].1.expose
                    && after.extra == doc.services[j].1.extra
                ||| add_caddy_spec(doc, name, cfg).services[j] == doc.services[j]
            },
{
    let idx0 = svc_index(doc.services, name);
    lemma_svc_index_chain(doc.services, name);
    let d1 = add_caddy_spec(doc, name, cfg);
    if idx0 >= 0 {
        assert(d1.services == doc.services.update(
            idx0,
            (name, service_with_caddy(doc.services[idx0].1, cfg)),
        ));
        assert forall|j: int|
            0 <= j < doc.services.len() && doc.services[j].0 == name implies {
            let after = d1.services[j].1;
            ||| after.ports == doc.services[j].1.ports && after.expose == doc.services[j].1.expose
                && after.extra == doc.services[j].1.extra
            ||| d1.services[j] == doc.services[j]
        } by {
            if j != idx0 {
                assert(d1.services[j] == doc.services[j]);
            }
        }
    } else {
        let entries = doc.services.push((name, empty_service_v()));
        assert(forall|j: int| 0 <= j < doc.services.len() ==> entries[j] == doc.services[j]);
        assert(d1.services == entries.update(
            doc.services.len() as int,
            (name, service_with_caddy(entries[doc.services.len() as int].1, cfg)),
        ));
        assert(forall|j: int|
            0 <= j < doc.services.len() ==> d1.services[j] == doc.services[j]);
    }
}

// ---------------------------------------------------------------------------
// Preview
// ---------------------------------------------------------------------------

/// The YAML snippet shown beside the form: the labels that would be set on
/// the named service, and the network wiring that would be added.
pub fn generate_preview(service_name: &str, config: &ProxyConfig) -> (r: String)
    ensures
        r@ == "# Labels to add to service '"@ + service_name@ + "':\nlabels:\n  caddy: "@
            + config.domain@ + "\n  caddy.reverse_proxy: \"{{upstreams "@ + dec_of(
            config.port as int,
        ) + "}}\"\n  caddy.tls: "@ + config.tls@
            + "\n\n# Network to add (top-level):\nnetworks:\n  caddy:\n    external: true\n\n# Network reference to add to service:\nnetworks:\n  - caddy"@,
{
    let mut s = String::from_str("# Labels to add to service '");
    s.append(service_name);
    s.append("':\nlabels:\n  caddy: ");
    s.append(config.domain.as_str());
    s.append("\n  caddy.reverse_proxy: \"{{upstreams ");
    s.append(u16_to_string(config.port).as_str());
    s.append("}}\"\n  caddy.tls: ");
    s.append(config.tls.as_str());
    s.append(
        "\n\n# Network to add (top-level):\nnetworks:\n  caddy:\n    external: true\n\n# Network reference to add to service:\nnetworks:\n  - caddy",
    );
    s
}

} // verus!
