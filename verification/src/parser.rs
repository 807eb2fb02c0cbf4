use vstd::prelude::*;
use vstd::string::StrSliceExecFns;
use vstd::string::StringExecFns;

use crate::labels::canon_of_labels;
use crate::labels::decode_labels;
use crate::labels::parse_caddy_labels;
use crate::model::ComposeFile;
use crate::model::ComposeFileV;
use crate::model::ComposeService;
use crate::model::ComposeServiceV;
use crate::model::ContainerStatus;
use crate::model::ProxyConfig;
use crate::model::ProxyConfigV;
use crate::model::Service;
use crate::model::ServiceSource;
use crate::model::ServiceSourceV;
use crate::model::ServiceV;
use crate::model::YamlValue;
use crate::model::YamlValueV;
use crate::model::compose_file_view;
use crate::model::compose_service_view;
use crate::model::service_entries_view;
use crate::strutil::before_last;
use crate::strutil::before_last_str;
use crate::strutil::has_char;
use crate::model::lemma_yaml_entries_view_index;
use crate::model::lemma_yaml_entries_view_len;
use crate::model::lemma_yaml_seq_view_index;
use crate::model::lemma_yaml_seq_view_len;
use crate::sorted::insert_sorted_u16;
use crate::sorted::sorted_strict_u16;
use crate::strutil::after_last;
use crate::strutil::after_last_str;
use crate::strutil::before_char;
use crate::strutil::before_char_str;
use crate::strutil::parse_port;
use crate::strutil::parse_port_spec;
use crate::strutil::str_eq;
use crate::strutil::trim_seq;
use crate::strutil::trim_str;

verus! {

// ---------------------------------------------------------------------------
// Container-side port extraction
// ---------------------------------------------------------------------------

/// The container-side port named by a port string: the protocol suffix is cut,
/// the last `:`-separated segment is taken, and of a `low-high` range the low
/// end; the result must read as a port in `1..=65535`.
pub open spec fn port_of_string(s: Seq<char>) -> Option<u16> {
    parse_port_spec(trim_seq(before_char(after_last(before_char(s, '/'), ':'), '-')))
}

/// The container-side port declared by one entry of a `ports` or `expose`
/// list: a bare number, a decodable string, or a mapping's `target` value.
pub open spec fn container_port_of(v: YamlValueV) -> Option<u16>
    decreases v,
{
    match v {
        YamlValueV::Number(n) => if 1 <= n <= 65535 {
            Option::Some(n as u16)
        } else {
            Option::None
        },
        YamlValueV::Text(s) => port_of_string(s),
        YamlValueV::Mapping(entries) => target_port_of(entries),
        _ => Option::None,
    }
}

/// The port declared by a mapping's first `target` entry, if any.
pub open spec fn target_port_of(entries: Seq<(Seq<char>, YamlValueV)>) -> Option<u16>
    decreases entries,
{
    if entries.len() == 0 {
        Option::None
    } else if entries[0].0 == "target"@ {
        container_port_of(entries[0].1)
    } else {
        target_port_of(entries.drop_first())
    }
}

/// Skipping entries that are not `target` leaves the result unchanged.
proof fn lemma_target_port_skip(entries: Seq<(Seq<char>, YamlValueV)>, i: int)
    requires
        0 <= i <= entries.len(),
        forall|j: int| 0 <= j < i ==> entries[j].0 != "target"@,
    ensures
        target_port_of(entries) == target_port_of(entries.skip(i)),
    decreases i,
{
    if i == 0 {
        assert(entries.skip(0) =~= entries);
    } else {
        let t = entries.drop_first();
        assert(forall|j: int| 0 <= j < i - 1 ==> t[j] == entries[j + 1]);
        lemma_target_port_skip(t, i - 1);
        assert(t.skip(i - 1) =~= entries.skip(i));
    }
}

/// The container-side port named by a port string.
pub fn port_from_string(s: &str) -> (r: Option<u16>)
    ensures
        r == port_of_string(s@),
{
    let no_proto = before_char_str(s, '/');
    let seg = after_last_str(no_proto, ':');
    let low = before_char_str(seg, '-');
    parse_port(trim_str(low))
}

/// The container-side port declared by one `ports`/`expose` entry.
#[verifier::loop_isolation(false)]
pub fn extract_container_port(v: &YamlValue) -> (r: Option<u16>)
    ensures
        r == container_port_of(crate::model::yaml_view(*v)),
    decreases *v,
{
    match v {
        YamlValue::Number(n) => {
            if 1 <= *n && *n <= 65535 {
                Option::Some(*n as u16)
            } else {
                Option::None
            }
        },
        YamlValue::Text(s) => port_from_string(s.as_str()),
        YamlValue::Mapping(entries) => {
            let ghost ev = crate::model::yaml_entries_view(entries@);
            proof {
                lemma_yaml_entries_view_len(entries@);
            }
            let mut i: usize = 0;
            while i < entries.len()
                invariant
                    i <= entries.len(),
                    ev == crate::model::yaml_entries_view(entries@),
                    ev.len() == entries@.len(),
                    forall|j: int| 0 <= j < i ==> ev[j].0 != "target"@,
                decreases entries.len() - i,
            {
                proof {
                    lemma_yaml_entries_view_index(entries@, i as int);
                }
                if str_eq(entries[i].0.as_str(), "target") {
                    proof {
                        lemma_target_port_skip(ev, i as int);
                        assert(ev.skip(i as int)[0] == ev[i as int]);
                        assert(ev.skip(i as int).len() > 0);
                        assert(v is Mapping);
                        assert(v->Mapping_0 == *entries);
                        assert((i as int) < v->Mapping_0@.len());
                        assert(decreases_to!(*v => v->Mapping_0));
                        assert(decreases_to!(v->Mapping_0 => v->Mapping_0@));
                        assert(decreases_to!(v->Mapping_0@ => v->Mapping_0@[i as int]));
                        assert(decreases_to!(v->Mapping_0@[i as int] => v->Mapping_0@[i as int].1));
                        assert(decreases_to!(*v => entries@[i as int].1));
                    }
                    let r = extract_container_port(&entries[i].1);
                    proof {
                        assert(ev[i as int].1 == crate::model::yaml_view(entries@[i as int].1));
                        assert(target_port_of(ev) == container_port_of(ev[i as int].1));
                    }
                    return r;
                }
                i += 1;
            }
            proof {
                lemma_target_port_skip(ev, ev.len() as int);
                assert(ev.skip(ev.len() as int) =~= Seq::<(Seq<char>, YamlValueV)>::empty());
            }
            Option::None
        },
        _ => Option::None,
    }
}

// ---------------------------------------------------------------------------
// Ports of a whole service declaration
// ---------------------------------------------------------------------------

/// Whether some entry among the first `n` of `vals` declares port `p`.
pub open spec fn port_in_prefix(vals: Seq<YamlValueV>, n: int, p: u16) -> bool {
    exists|k: int| 0 <= k < n && container_port_of(vals[k]) == Option::Some(p)
}

/// Whether the service declares port `p` through `ports` or `expose`.
pub open spec fn declared_port(svc: ComposeServiceV, p: u16) -> bool {
    port_in_prefix(svc.ports, svc.ports.len() as int, p) || port_in_prefix(
        svc.expose,
        svc.expose.len() as int,
        p,
    )
}

/// The deduplicated, ascending set of container-side ports declared by a
/// service's `ports` and `expose` lists.
pub fn parse_ports(service: &ComposeService) -> (r: Vec<u16>)
    ensures
        sorted_strict_u16(r@),
        forall|p: u16|
            r@.contains(p) <==> declared_port(crate::model::compose_service_view(*service), p),
{
    let ghost pv = crate::model::yaml_seq_view(service.ports@);
    let ghost ev = crate::model::yaml_seq_view(service.expose@);
    proof {
        lemma_yaml_seq_view_len(service.ports@);
        lemma_yaml_seq_view_len(service.expose@);
    }
    let mut out: Vec<u16> = Vec::new();
    let mut i: usize = 0;
    while i < service.ports.len()
        invariant
            i <= service.ports.len(),
            pv == crate::model::yaml_seq_view(service.ports@),
            pv.len() == service.ports@.len(),
            sorted_strict_u16(out@),
            forall|p: u16| out@.contains(p) <==> port_in_prefix(pv, i as int, p),
        decreases service.ports.len() - i,
    {
        proof {
            lemma_yaml_seq_view_index(service.ports@, i as int);
        }
        match extract_container_port(&service.ports[i]) {
            Option::Some(p) => {
                insert_sorted_u16(&mut out, p);
            },
            Option::None => {},
        }
        i += 1;
        proof {
            assert forall|p: u16| out@.contains(p) implies port_in_prefix(pv, i as int, p) by {}
            assert forall|p: u16| port_in_prefix(pv, i as int, p) implies out@.contains(p) by {
                let k = choose|k: int|
                    0 <= k < i && container_port_of(pv[k]) == Option::Some(p);
                if k < i - 1 {
                    assert(port_in_prefix(pv, i - 1, p));
                }
            }
        }
    }
    let mut j: usize = 0;
    while j < service.expose.len()
        invariant
            j <= service.expose.len(),
            pv == crate::model::yaml_seq_view(service.ports@),
            ev == crate::model::yaml_seq_view(service.expose@),
            pv.len() == service.ports@.len(),
            ev.len() == service.expose@.len(),
            sorted_strict_u16(out@),
            forall|p: u16|
                out@.contains(p) <==> (port_in_prefix(pv, pv.len() as int, p) || port_in_prefix(
                    ev,
                    j as int,
                    p,
                )),
        decreases service.expose.len() - j,
    {
        proof {
            lemma_yaml_seq_view_index(service.expose@, j as int);
        }
        match extract_container_port(&service.expose[j]) {
            Option::Some(p) => {
                insert_sorted_u16(&mut out, p);
            },
            Option::None => {},
        }
        j += 1;
        proof {
            assert forall|p: u16|
                port_in_prefix(pv, pv.len() as int, p) || port_in_prefix(ev, j as int, p)
                 implies out@.contains(p) by {
                if port_in_prefix(ev, j as int, p) && !port_in_prefix(pv, pv.len() as int, p) {
                    let k = choose|k: int|
                        0 <= k < j && container_port_of(ev[k]) == Option::Some(p);
                    if k < j - 1 {
                        assert(port_in_prefix(ev, j - 1, p));
                    }
                }
            }
        }
    }
    out
}


// ---------------------------------------------------------------------------
// Project naming
// ---------------------------------------------------------------------------

/// The default domain for a service: `<service>.<project>.localhost`.
pub fn default_domain(service_name: &str, project_name: &str) -> (r: String)
    ensures
        r@ == service_name@ + "."@ + project_name@ + ".localhost"@,
{
    let mut s = service_name.to_owned();
    s.append(".");
    s.append(project_name);
    s.append(".localhost");
    s
}

/// The name of a path's parent directory, or `unknown` when the path has no
/// directory part.
pub open spec fn dir_name_of(path: Seq<char>) -> Seq<char> {
    if !has_char(path, '/') || after_last(before_last(path, '/'), '/').len() == 0 {
        "unknown"@
    } else {
        after_last(before_last(path, '/'), '/')
    }
}

/// The name of a path's parent directory.
pub fn dir_name(path: &str) -> (r: String)
    ensures
        r@ == dir_name_of(path@),
{
    let (parent, found) = before_last_str(path, '/');
    if !found {
        return String::from_str("unknown");
    }
    let d = after_last_str(parent, '/');
    if d.unicode_len() == 0 {
        String::from_str("unknown")
    } else {
        d.to_owned()
    }
}

/// The project a compose file belongs to: its declared name, or the name of
/// its parent directory.
pub open spec fn project_of(doc: ComposeFileV, path: Seq<char>) -> Seq<char> {
    match doc.name {
        Option::Some(n) => n,
        Option::None => dir_name_of(path),
    }
}


/// The short source tag a service row shows: the compose file's name, the
/// fallback `compose` when the path has no file-name part, or `runtime` for
/// a live-only service.
pub fn source_label(source: &ServiceSource) -> (r: String)
    ensures
        r@ == (match source.deep_view() {
            ServiceSourceV::Compose { file, service_name } => if after_last(file, '/').len() == 0 {
                "compose"@
            } else {
                after_last(file, '/')
            },
            ServiceSourceV::Runtime => "runtime"@,
        }),
{
    match source {
        ServiceSource::Compose { file, service_name } => {
            let n = after_last_str(file.as_str(), '/');
            if n.unicode_len() == 0 {
                String::from_str("compose")
            } else {
                n.to_owned()
            }
        },
        ServiceSource::Runtime => String::from_str("runtime"),
    }
}

// ---------------------------------------------------------------------------
// Service extraction
// ---------------------------------------------------------------------------

/// What one extracted service record must hold: the declared name and labels
/// decoded, no runtime status yet, and the declared ports as a sorted set.
pub open spec fn extracted_ok(doc: ComposeFileV, path: Seq<char>, sv: ServiceV, i: int) -> bool {
    let name = doc.services[i].0;
    let svc = doc.services[i].1;
    sv.name == name && sv.proxy == decode_labels(canon_of_labels(svc.labels)) && sv.status
        == ContainerStatus::NotDeployed && sv.source == (ServiceSourceV::Compose {
        file: path,
        service_name: name,
    }) && sv.project == project_of(doc, path) && sorted_strict_u16(sv.available_ports) && (
    forall|p: u16| sv.available_ports.contains(p) <==> declared_port(svc, p))
}

/// Extract the declared services of a parsed compose document, together with
/// the resolved project name. Runtime status is merged later; every service
/// starts out `NotDeployed`.
#[verifier::loop_isolation(false)]
pub fn extract_services(compose: &ComposeFile, file_path: &str) -> (r: (String, Vec<Service>))
    ensures
        r.0@ == project_of(compose_file_view(*compose), file_path@),
        r.1@.len() == compose.services@.len(),
        forall|i: int|
            0 <= i < r.1@.len() ==> extracted_ok(
                compose_file_view(*compose),
                file_path@,
                r.1.deep_view()[i],
                i,
            ),
{
    let project_name = match &compose.name {
        Option::Some(n) => n.clone(),
        Option::None => dir_name(file_path),
    };
    let ghost doc = compose_file_view(*compose);
    let mut out: Vec<Service> = Vec::new();
    let mut i: usize = 0;
    while i < compose.services.len()
        invariant
            i <= compose.services.len(),
            out@.len() == i,
            project_name@ == project_of(doc, file_path@),
            forall|j: int| 0 <= j < i ==> extracted_ok(doc, file_path@, out.deep_view()[j], j),
        decreases compose.services.len() - i,
    {
        let entry_name = &compose.services[i].0;
        let svc = &compose.services[i].1;
        let map = svc.labels.to_map();
        let proxy = parse_caddy_labels(&map);
        let available_ports = parse_ports(svc);
        let record = Service {
            name: entry_name.clone(),
            proxy,
            status: ContainerStatus::NotDeployed,
            source: ServiceSource::Compose {
                file: file_path.to_owned(),
                service_name: entry_name.clone(),
            },
            project: project_name.clone(),
            available_ports,
        };
        proof {
            assert(doc.services[i as int] == (
                compose.services@[i as int].0.deep_view(),
                compose_service_view(compose.services@[i as int].1),
            ));
            assert(record.deep_view().name == doc.services[i as int].0);
            assert(extracted_ok(doc, file_path@, record.deep_view(), i as int));
        }
        let ghost prevec = out@;
        let ghost pre = out.deep_view();
        let ghost recv = record.deep_view();
        out.push(record);
        proof {
            assert forall|j: int| 0 <= j < i + 1 implies extracted_ok(
                doc,
                file_path@,
                out.deep_view()[j],
                j,
            ) by {
                assert(out.deep_view()[j] == out@[j].deep_view());
                if j < i {
                    assert(out@[j] == prevec[j]);
                    assert(pre[j] == prevec[j].deep_view());
                } else {
                    assert(out@[j].deep_view() == recv);
                }
            }
        }
        i += 1;
    }
    (project_name, out)
}

// ---------------------------------------------------------------------------
// Override merging
// ---------------------------------------------------------------------------

/// The proxy config an override document declares for `name`: the first
/// service entry with that name whose labels decode.
pub open spec fn override_proxy_in_doc(
    entries: Seq<(Seq<char>, ComposeServiceV)>,
    name: Seq<char>,
) -> Option<ProxyConfigV>
    decreases entries.len(),
{
    if entries.len() == 0 {
        Option::None
    } else if entries[0].0 == name && decode_labels(canon_of_labels(entries[0].1.labels))
        is Some {
        decode_labels(canon_of_labels(entries[0].1.labels))
    } else {
        override_proxy_in_doc(entries.drop_first(), name)
    }
}

/// The proxy config the override documents declare for `name`, first document
/// first.
pub open spec fn override_proxy_for(docs: Seq<ComposeFileV>, name: Seq<char>) -> Option<
    ProxyConfigV,
>
    decreases docs.len(),
{
    if docs.len() == 0 {
        Option::None
    } else if override_proxy_in_doc(docs[0].services, name) is Some {
        override_proxy_in_doc(docs[0].services, name)
    } else {
        override_proxy_for(docs.drop_first(), name)
    }
}

/// Document-wise view of a list of parsed compose files.
pub open spec fn compose_files_view(s: Seq<ComposeFile>) -> Seq<ComposeFileV> {
    s.map_values(|f: ComposeFile| compose_file_view(f))
}

/// A service after the override merger: its own proxy config always wins;
/// only a service without one takes the override's.
pub open spec fn lcp_merged(s: ServiceV, docs: Seq<ComposeFileV>) -> ServiceV {
    if s.proxy is Some {
        s
    } else {
        ServiceV { proxy: override_proxy_for(docs, s.name), ..s }
    }
}

/// A service with a declared proxy config is never altered by the override
/// merger, whatever the override documents say.
pub proof fn lemma_override_preserves_declared(s: ServiceV, docs: Seq<ComposeFileV>)
    requires
        s.proxy is Some,
    ensures
        lcp_merged(s, docs) == s,
{
}

/// Skipping entries that match nothing leaves the document lookup unchanged.
proof fn lemma_override_in_doc_skip(
    entries: Seq<(Seq<char>, ComposeServiceV)>,
    name: Seq<char>,
    i: int,
)
    requires
        0 <= i <= entries.len(),
        forall|j: int|
            0 <= j < i ==> !(entries[j].0 == name && decode_labels(
                canon_of_labels(entries[j].1.labels),
            ) is Some),
    ensures
        override_proxy_in_doc(entries, name) == override_proxy_in_doc(entries.skip(i), name),
    decreases i,
{
    if i == 0 {
        assert(entries.skip(0) =~= entries);
    } else {
        let t = entries.drop_first();
        assert(forall|j: int| 0 <= j < i - 1 ==> t[j] == entries[j + 1]);
        lemma_override_in_doc_skip(t, name, i - 1);
        assert(t.skip(i - 1) =~= entries.skip(i));
    }
}

/// Skipping documents that declare nothing leaves the lookup unchanged.
proof fn lemma_override_for_skip(docs: Seq<ComposeFileV>, name: Seq<char>, k: int)
    requires
        0 <= k <= docs.len(),
        forall|j: int| 0 <= j < k ==> override_proxy_in_doc(docs[j].services, name) is None,
    ensures
        override_proxy_for(docs, name) == override_proxy_for(docs.skip(k), name),
    decreases k,
{
    if k == 0 {
        assert(docs.skip(0) =~= docs);
    } else {
        let t = docs.drop_first();
        assert(forall|j: int| 0 <= j < k - 1 ==> t[j] == docs[j + 1]);
        lemma_override_for_skip(t, name, k - 1);
        assert(t.skip(k - 1) =~= docs.skip(k));
    }
}

/// The proxy config the override documents declare for `name`, if any.
#[verifier::loop_isolation(false)]
pub fn find_override_proxy(overrides: &Vec<ComposeFile>, name: &str) -> (r: Option<ProxyConfig>)
    ensures
        r.deep_view() == override_proxy_for(compose_files_view(overrides@), name@),
{
    let ghost docs = compose_files_view(overrides@);
    let mut k: usize = 0;
    while k < overrides.len()
        invariant
            k <= overrides.len(),
            forall|j: int| 0 <= j < k ==> override_proxy_in_doc(docs[j].services, name@) is None,
        decreases overrides.len() - k,
    {
        let doc = &overrides[k];
        let ghost entries = docs[k as int].services;
        proof {
            assert(docs[k as int] == compose_file_view(overrides@[k as int]));
        }
        let mut e: usize = 0;
        while e < doc.services.len()
            invariant
                k < overrides.len(),
                e <= doc.services.len(),
                doc == &overrides@[k as int],
                entries == docs[k as int].services,
                entries.len() == doc.services@.len(),
                forall|j: int|
                    0 <= j < e ==> !(entries[j].0 == name@ && decode_labels(
                        canon_of_labels(entries[j].1.labels),
                    ) is Some),
            decreases doc.services.len() - e,
        {
            proof {
                assert(entries[e as int] == (
                    doc.services@[e as int].0.deep_view(),
                    compose_service_view(doc.services@[e as int].1),
                ));
            }
            if str_eq(doc.services[e].0.as_str(), name) {
                let map = doc.services[e].1.labels.to_map();
                let p = parse_caddy_labels(&map);
                match p {
                    Option::Some(cfg) => {
                        proof {
                            lemma_override_in_doc_skip(entries, name@, e as int);
                            assert(entries.skip(e as int)[0] == entries[e as int]);
                            assert(entries.skip(e as int).len() > 0);
                            lemma_override_for_skip(docs, name@, k as int);
                            assert(docs.skip(k as int)[0] == docs[k as int]);
                            assert(docs.skip(k as int).len() > 0);
                        }
                        return Option::Some(cfg);
                    },
                    Option::None => {},
                }
            }
            e += 1;
        }
        proof {
            lemma_override_in_doc_skip(entries, name@, entries.len() as int);
            assert(entries.skip(entries.len() as int) =~= Seq::<
                (Seq<char>, ComposeServiceV),
            >::empty());
        }
        k += 1;
    }
    proof {
        lemma_override_for_skip(docs, name@, docs.len() as int);
        assert(docs.skip(docs.len() as int) =~= Seq::<ComposeFileV>::empty());
    }
    Option::None
}

/// Apply the override documents to already-discovered services: a service
/// that still lacks a proxy config takes the first one an override declares
/// for its name; one that has its own is left alone.
#[verifier::loop_isolation(false)]
pub fn merge_lcp_configs(services: &mut Vec<Service>, overrides: &Vec<ComposeFile>)
    ensures
        final(services)@.len() == old(services)@.len(),
        forall|i: int|
            0 <= i < old(services)@.len() ==> final(services).deep_view()[i] == lcp_merged(
                old(services).deep_view()[i],
                compose_files_view(overrides@),
            ),
{
    let ghost docs = compose_files_view(overrides@);
    let mut idx: usize = 0;
    while idx < services.len()
        invariant
            idx <= services@.len(),
            services@.len() == old(services)@.len(),
            forall|j: int| idx <= j < services@.len() ==> services@[j] == old(services)@[j],
            forall|j: int|
                0 <= j < idx ==> services.deep_view()[j] == lcp_merged(
                    old(services).deep_view()[j],
                    docs,
                ),
        decreases services@.len() - idx,
    {
        let ghost pres = services@;
        let ghost pred = services.deep_view();
        let has_proxy = services[idx].proxy.is_some();
        if !has_proxy {
            let found = find_override_proxy(overrides, services[idx].name.as_str());
            match found {
                Option::Some(cfg) => {
                    let elem = &mut services[idx];
                    elem.proxy = Option::Some(cfg);
                    proof {
                        assert(services.deep_view()[idx as int] == lcp_merged(
                            old(services).deep_view()[idx as int],
                            docs,
                        ));
                    }
                },
                Option::None => {
                    proof {
                        assert(services.deep_view()[idx as int] == lcp_merged(
                            old(services).deep_view()[idx as int],
                            docs,
                        ));
                    }
                },
            }
        } else {
            proof {
                assert(services.deep_view()[idx as int] == lcp_merged(
                    old(services).deep_view()[idx as int],
                    docs,
                ));
            }
        }
        proof {
            assert forall|j: int| 0 <= j < idx + 1 implies services.deep_view()[j] == lcp_merged(
                old(services).deep_view()[j],
                docs,
            ) by {
                assert(services.deep_view()[j] == services@[j].deep_view());
                if j < idx {
                    assert(services@[j] == pres[j]);
                    assert(pred[j] == pres[j].deep_view());
                }
            }
        }
        idx += 1;
    }
}

} // verus!
