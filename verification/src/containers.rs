use vstd::prelude::*;
use vstd::string::StrSliceExecFns;
use vstd::string::StringExecFns;

use crate::labels::decode_labels;
use crate::labels::lookup;
use crate::labels::lookup_label;
use crate::labels::parse_caddy_labels;
use crate::model::CaddyProxyStatus;
use crate::model::ContainerStatus;
use crate::model::RuntimeType;
use crate::model::Service;
use crate::model::ServiceSource;
use crate::model::ServiceSourceV;
use crate::model::ServiceV;
use crate::sorted::insert_sorted_u16;
use crate::sorted::sorted_insert;
use crate::sorted::sorted_set_of;
use crate::strutil::ends_with_seq;
use crate::strutil::ends_with_str;
use crate::strutil::lower_seq;
use crate::strutil::starts_with_seq;
use crate::strutil::starts_with_str;
use crate::strutil::str_eq;
use crate::strutil::str_eq_ci;
use crate::strutil::strip_slashes;
use crate::strutil::strip_slashes_str;

verus! {

// ---------------------------------------------------------------------------
// What the engine reports about one container
// ---------------------------------------------------------------------------

/// The raw state the engine reports for a container.
#[derive(Clone, Copy, Debug, PartialEq, Eq, Structural)]
pub enum ContainerState {
    Running,
    Exited,
    Created,
    Empty,
    Other,
}

/// One container as the engine lists it: identifier, reported names, labels,
/// raw state, and private (container-side) ports.
#[derive(Clone, Debug)]
pub struct ContainerRecord {
    pub id: Option<String>,
    pub names: Vec<String>,
    pub labels: Vec<(String, String)>,
    pub state: Option<ContainerState>,
    pub ports: Vec<u16>,
}

/// Mathematical value of a `ContainerRecord`.
pub ghost struct ContainerRecordV {
    pub id: Option<Seq<char>>,
    pub names: Seq<Seq<char>>,
    pub labels: Seq<(Seq<char>, Seq<char>)>,
    pub state: Option<ContainerState>,
    pub ports: Seq<u16>,
}

impl DeepView for ContainerRecord {
    type V = ContainerRecordV;

    open spec fn deep_view(&self) -> ContainerRecordV {
        ContainerRecordV {
            id: self.id.deep_view(),
            names: self.names.deep_view(),
            labels: self.labels.deep_view(),
            state: self.state,
            ports: self.ports.view(),
        }
    }
}

/// The dashboard status derived from an engine state: running is running,
/// exited or created is stopped, and anything else or absent is not
/// deployed.
pub open spec fn status_of_state(state: Option<ContainerState>) -> ContainerStatus {
    match state {
        Option::None => ContainerStatus::NotDeployed,
        Option::Some(ContainerState::Running) => ContainerStatus::Running,
        Option::Some(ContainerState::Exited) => ContainerStatus::Stopped,
        Option::Some(ContainerState::Created) => ContainerStatus::Stopped,
        Option::Some(ContainerState::Empty) => ContainerStatus::NotDeployed,
        Option::Some(ContainerState::Other) => ContainerStatus::NotDeployed,
    }
}

/// The dashboard status derived from an engine state.
pub fn state_to_container_status(state: &Option<ContainerState>) -> (r: ContainerStatus)
    ensures
        r == status_of_state(*state),
{
    match state {
        Option::None => ContainerStatus::NotDeployed,
        Option::Some(ContainerState::Running) => ContainerStatus::Running,
        Option::Some(ContainerState::Exited) => ContainerStatus::Stopped,
        Option::Some(ContainerState::Created) => ContainerStatus::Stopped,
        Option::Some(ContainerState::Empty) => ContainerStatus::NotDeployed,
        Option::Some(ContainerState::Other) => ContainerStatus::NotDeployed,
    }
}

/// The compose command for a runtime.
pub fn compose_command(runtime: &RuntimeType) -> (r: &'static str)
    ensures
        r@ == (match runtime {
            RuntimeType::Docker => "docker"@,
            RuntimeType::Podman => "podman"@,
        }),
{
    match runtime {
        RuntimeType::Docker => "docker",
        RuntimeType::Podman => "podman",
    }
}

// ---------------------------------------------------------------------------
// Containers that carry reverse-proxy labels
// ---------------------------------------------------------------------------

/// Whether a label set carries at least one `caddy` or `caddy.*` key.
pub open spec fn labels_have_caddy(ls: Seq<(Seq<char>, Seq<char>)>) -> bool {
    exists|i: int|
        0 <= i < ls.len() && (ls[i].0 == "caddy"@ || starts_with_seq(ls[i].0, "caddy."@))
}

/// Whether a label set carries at least one `caddy` or `caddy.*` key.
#[verifier::loop_isolation(false)]
pub fn has_caddy_label(labels: &Vec<(String, String)>) -> (r: bool)
    ensures
        r == labels_have_caddy(labels.deep_view()),
{
    let ghost ls = labels.deep_view();
    let mut i: usize = 0;
    while i < labels.len()
        invariant
            i <= labels.len(),
            ls.len() == labels@.len(),
            forall|j: int|
                0 <= j < i ==> !(ls[j].0 == "caddy"@ || starts_with_seq(ls[j].0, "caddy."@)),
        decreases labels.len() - i,
    {
        proof {
            assert(ls[i as int] == (labels@[i as int].0@, labels@[i as int].1@));
        }
        if str_eq(labels[i].0.as_str(), "caddy") || starts_with_str(labels[i].0.as_str(), "caddy.")
        {
            return true;
        }
        i += 1;
    }
    false
}

/// The name a container is shown under: its first reported name with leading
/// slashes cut, or `unknown`.
pub open spec fn primary_name_of(rv: ContainerRecordV) -> Seq<char> {
    if rv.names.len() > 0 {
        strip_slashes(rv.names[0])
    } else {
        "unknown"@
    }
}

/// The project a container belongs to: its compose project label, or the
/// literal fallback `runtime`.
pub open spec fn project_of_labels(ls: Seq<(Seq<char>, Seq<char>)>) -> Seq<char> {
    match lookup(ls, "com.docker.compose.project"@) {
        Option::Some(p) => p,
        Option::None => "runtime"@,
    }
}

/// The service record shown for a live proxy-labelled container.
pub open spec fn runtime_service_of(rv: ContainerRecordV) -> ServiceV {
    ServiceV {
        name: primary_name_of(rv),
        proxy: decode_labels(rv.labels),
        status: status_of_state(rv.state),
        source: ServiceSourceV::Runtime,
        project: project_of_labels(rv.labels),
        available_ports: sorted_set_of(rv.ports),
    }
}

/// The services shown for the proxy-labelled containers, in the order the
/// engine lists them.
pub open spec fn caddy_services_of(rs: Seq<ContainerRecordV>) -> Seq<ServiceV>
    decreases rs.len(),
{
    if rs.len() == 0 {
        Seq::empty()
    } else {
        let rest = caddy_services_of(rs.drop_last());
        if labels_have_caddy(rs.last().labels) {
            rest.push(runtime_service_of(rs.last()))
        } else {
            rest
        }
    }
}

/// The live containers that declare a proxy route, shown as services of the
/// global view. An unreachable engine yields the empty list, never an error.
#[verifier::loop_isolation(false)]
pub fn list_caddy_services(containers: &Option<Vec<ContainerRecord>>) -> (r: Vec<Service>)
    ensures
        match containers {
            Option::Some(cs) => r.deep_view() == caddy_services_of(cs.deep_view()),
            Option::None => r@.len() == 0,
        },
{
    let cs = match containers {
        Option::Some(cs) => cs,
        Option::None => {
            return Vec::new();
        },
    };
    let ghost rsv = cs.deep_view();
    let mut out: Vec<Service> = Vec::new();
    proof {
        assert(rsv.take(0) =~= Seq::<ContainerRecordV>::empty());
        assert(out.deep_view() =~= caddy_services_of(rsv.take(0)));
    }
    let mut i: usize = 0;
    while i < cs.len()
        invariant
            i <= cs.len(),
            rsv.len() == cs@.len(),
            out.deep_view() == caddy_services_of(rsv.take(i as int)),
        decreases cs.len() - i,
    {
        proof {
            assert(rsv[i as int] == cs@[i as int].deep_view());
            assert(rsv.take(i + 1).drop_last() =~= rsv.take(i as int));
            assert(rsv.take(i + 1).last() == rsv[i as int]);
        }
        let rec = &cs[i];
        if has_caddy_label(&rec.labels) {
            let name = if rec.names.len() > 0 {
                proof {
                    assert(rec.names.deep_view()[0] == rec.names@[0]@);
                }
                strip_slashes_str(rec.names[0].as_str()).to_owned()
            } else {
                String::from_str("unknown")
            };
            let proxy = parse_caddy_labels(&rec.labels);
            let status = state_to_container_status(&rec.state);
            let project = match lookup_label(&rec.labels, "com.docker.compose.project") {
                Option::Some(p) => p.clone(),
                Option::None => String::from_str("runtime"),
            };
            let mut ports: Vec<u16> = Vec::new();
            proof {
                assert(rec.ports@.take(0) =~= Seq::<u16>::empty());
            }
            let mut k: usize = 0;
            while k < rec.ports.len()
                invariant
                    k <= rec.ports@.len(),
                    crate::sorted::sorted_strict_u16(ports@),
                    ports@ == sorted_set_of(rec.ports@.take(k as int)),
                decreases rec.ports@.len() - k,
            {
                proof {
                    assert(rec.ports@.take(k + 1).drop_last() =~= rec.ports@.take(k as int));
                    assert(rec.ports@.take(k + 1).last() == rec.ports@[k as int]);
                }
                insert_sorted_u16(&mut ports, rec.ports[k]);
                k += 1;
            }
            proof {
                assert(rec.ports@.take(rec.ports@.len() as int) =~= rec.ports@);
            }
            let record = Service {
                name,
                proxy,
                status,
                source: ServiceSource::Runtime,
                project,
                available_ports: ports,
            };
            proof {
                assert(record.deep_view() == runtime_service_of(rsv[i as int]));
            }
            let ghost prevec = out@;
            let ghost pre = out.deep_view();
            let ghost recv = record.deep_view();
            out.push(record);
            proof {
                assert forall|j: int| 0 <= j < out.deep_view().len() implies out.deep_view()[j]
                    == caddy_services_of(rsv.take(i + 1))[j] by {
                    assert(out.deep_view()[j] == out@[j].deep_view());
                    if j < prevec.len() {
                        assert(out@[j] == prevec[j]);
                        assert(pre[j] == prevec[j].deep_view());
                    } else {
                        assert(out@[j].deep_view() == recv);
                    }
                }
                assert(out.deep_view() =~= caddy_services_of(rsv.take(i + 1)));
            }
        }
        i += 1;
    }
    proof {
        assert(rsv.take(rsv.len() as int) =~= rsv);
    }
    out
}

// ---------------------------------------------------------------------------
// The proxy daemon's own container
// ---------------------------------------------------------------------------

/// A container name that identifies the proxy daemon.
pub open spec fn caddy_proxy_name(n: Seq<char>) -> bool {
    n == "caddy-proxy"@ || ends_with_seq(n, "_caddy-proxy"@) || ends_with_seq(n, "-caddy-proxy"@)
}

/// Whether a container is the proxy daemon: one of its stripped names says
/// so, or its compose-service label is exactly `caddy-proxy`.
pub open spec fn is_caddy_proxy_record(rv: ContainerRecordV) -> bool {
    (exists|i: int| 0 <= i < rv.names.len() && caddy_proxy_name(strip_slashes(rv.names[i]))) || (
    match lookup(rv.labels, "com.docker.compose.service"@) {
        Option::Some(v) => v == "caddy-proxy"@,
        Option::None => false,
    })
}

/// The daemon status read from a container list: the first matching
/// container decides, running meaning up and anything else down; no match at
/// all means unknown.
pub open spec fn proxy_status_of(rs: Seq<ContainerRecordV>) -> CaddyProxyStatus
    decreases rs.len(),
{
    if rs.len() == 0 {
        CaddyProxyStatus::Unknown
    } else if is_caddy_proxy_record(rs[0]) {
        if rs[0].state == Option::Some(ContainerState::Running) {
            CaddyProxyStatus::Up
        } else {
            CaddyProxyStatus::Down
        }
    } else {
        proxy_status_of(rs.drop_first())
    }
}

/// Skipping containers that are not the daemon leaves the status unchanged.
proof fn lemma_proxy_status_skip(rs: Seq<ContainerRecordV>, i: int)
    requires
        0 <= i <= rs.len(),
        forall|j: int| 0 <= j < i ==> !is_caddy_proxy_record(rs[j]),
    ensures
        proxy_status_of(rs) == proxy_status_of(rs.skip(i)),
    decreases i,
{
    if i == 0 {
        assert(rs.skip(0) =~= rs);
    } else {
        let t = rs.drop_first();
        assert(forall|j: int| 0 <= j < i - 1 ==> t[j] == rs[j + 1]);
        lemma_proxy_status_skip(t, i - 1);
        assert(t.skip(i - 1) =~= rs.skip(i));
    }
}

/// Whether this container is the proxy daemon.
#[verifier::loop_isolation(false)]
pub fn is_caddy_proxy(rec: &ContainerRecord) -> (r: bool)
    ensures
        r == is_caddy_proxy_record(rec.deep_view()),
{
    let ghost rv = rec.deep_view();
    let mut i: usize = 0;
    while i < rec.names.len()
        invariant
            i <= rec.names.len(),
            rv.names.len() == rec.names@.len(),
            forall|j: int| 0 <= j < i ==> !caddy_proxy_name(strip_slashes(rv.names[j])),
        decreases rec.names.len() - i,
    {
        proof {
            assert(rv.names[i as int] == rec.names@[i as int]@);
        }
        let stripped = strip_slashes_str(rec.names[i].as_str());
        if str_eq(stripped, "caddy-proxy") || ends_with_str(stripped, "_caddy-proxy")
            || ends_with_str(stripped, "-caddy-proxy") {
            return true;
        }
        i += 1;
    }
    match lookup_label(&rec.labels, "com.docker.compose.service") {
        Option::Some(v) => str_eq(v.as_str(), "caddy-proxy"),
        Option::None => false,
    }
}

/// The proxy daemon's status. An unreachable engine reads as `Unknown`,
/// never as an error.
#[verifier::loop_isolation(false)]
pub fn get_caddy_proxy_status(containers: &Option<Vec<ContainerRecord>>) -> (r: CaddyProxyStatus)
    ensures
        match containers {
            Option::Some(cs) => r == proxy_status_of(cs.deep_view()),
            Option::None => r == CaddyProxyStatus::Unknown,
        },
{
    let cs = match containers {
        Option::Some(cs) => cs,
        Option::None => {
            return CaddyProxyStatus::Unknown;
        },
    };
    let ghost rsv = cs.deep_view();
    let mut i: usize = 0;
    while i < cs.len()
        invariant
            i <= cs.len(),
            rsv.len() == cs@.len(),
            forall|j: int| 0 <= j < i ==> !is_caddy_proxy_record(rsv[j]),
        decreases cs.len() - i,
    {
        proof {
            assert(rsv[i as int] == cs@[i as int].deep_view());
        }
        if is_caddy_proxy(&cs[i]) {
            proof {
                lemma_proxy_status_skip(rsv, i as int);
                assert(rsv.skip(i as int)[0] == rsv[i as int]);
                assert(rsv.skip(i as int).len() > 0);
            }
            let up = match &cs[i].state {
                Option::Some(ContainerState::Running) => true,
                _ => false,
            };
            if up {
                return CaddyProxyStatus::Up;
            }
            return CaddyProxyStatus::Down;
        }
        i += 1;
    }
    proof {
        lemma_proxy_status_skip(rsv, rsv.len() as int);
        assert(rsv.skip(rsv.len() as int) =~= Seq::<ContainerRecordV>::empty());
    }
    CaddyProxyStatus::Unknown
}

// ---------------------------------------------------------------------------
// Merging live status into declared services
// ---------------------------------------------------------------------------

/// Whether a container answers to `key` (a lowercase-folded service name):
/// by one of its stripped names, or by its compose-service label, both
/// case-insensitively by ASCII folding.
pub open spec fn record_matches_key(rv: ContainerRecordV, key: Seq<char>) -> bool {
    (exists|i: int| 0 <= i < rv.names.len() && lower_seq(strip_slashes(rv.names[i])) == key) || (
    match lookup(rv.labels, "com.docker.compose.service"@) {
        Option::Some(v) => lower_seq(v) == key,
        Option::None => false,
    })
}

/// The status the container list gives for `key`: the last matching
/// container wins, as a later listing overwrites an earlier one.
pub open spec fn status_for(rs: Seq<ContainerRecordV>, key: Seq<char>) -> Option<ContainerStatus>
    decreases rs.len(),
{
    if rs.len() == 0 {
        Option::None
    } else if record_matches_key(rs.last(), key) {
        Option::Some(status_of_state(rs.last().state))
    } else {
        status_for(rs.drop_last(), key)
    }
}

/// Containers past `i` that match nothing leave the lookup unchanged.
proof fn lemma_status_for_take(rs: Seq<ContainerRecordV>, key: Seq<char>, i: int)
    requires
        0 <= i <= rs.len(),
        forall|j: int| i <= j < rs.len() ==> !record_matches_key(rs[j], key),
    ensures
        status_for(rs, key) == status_for(rs.take(i), key),
    decreases rs.len() - i,
{
    if i == rs.len() {
        assert(rs.take(i) =~= rs);
    } else {
        assert(!record_matches_key(rs.last(), key));
        let t = rs.drop_last();
        assert(forall|j: int| 0 <= j < t.len() ==> t[j] == rs[j]);
        lemma_status_for_take(t, key, i);
        assert(t.take(i) =~= rs.take(i));
    }
}

/// Whether this container answers to the service name, case-insensitively.
#[verifier::loop_isolation(false)]
fn record_matches(rec: &ContainerRecord, name: &str) -> (r: bool)
    ensures
        r == record_matches_key(rec.deep_view(), lower_seq(name@)),
{
    let ghost rv = rec.deep_view();
    let mut i: usize = 0;
    while i < rec.names.len()
        invariant
            i <= rec.names.len(),
            rv.names.len() == rec.names@.len(),
            forall|j: int|
                0 <= j < i ==> lower_seq(strip_slashes(rv.names[j])) != lower_seq(name@),
        decreases rec.names.len() - i,
    {
        proof {
            assert(rv.names[i as int] == rec.names@[i as int]@);
        }
        let stripped = strip_slashes_str(rec.names[i].as_str());
        if str_eq_ci(stripped, name) {
            return true;
        }
        i += 1;
    }
    match lookup_label(&rec.labels, "com.docker.compose.service") {
        Option::Some(v) => str_eq_ci(v.as_str(), name),
        Option::None => false,
    }
}

/// The status the container list gives for a service name, if any.
#[verifier::loop_isolation(false)]
fn find_runtime_status(containers: &Vec<ContainerRecord>, name: &str) -> (r: Option<
    ContainerStatus,
>)
    ensures
        r == status_for(containers.deep_view(), lower_seq(name@)),
{
    let ghost rsv = containers.deep_view();
    let mut i: usize = containers.len();
    while i > 0
        invariant
            i <= containers.len(),
            rsv.len() == containers@.len(),
            forall|j: int| i <= j < rsv.len() ==> !record_matches_key(rsv[j], lower_seq(name@)),
        decreases i,
    {
        proof {
            assert(rsv[i - 1] == containers@[i - 1].deep_view());
        }
        if record_matches(&containers[i - 1], name) {
            proof {
                lemma_status_for_take(rsv, lower_seq(name@), i as int);
                assert(rsv.take(i as int).last() == rsv[i - 1]);
            }
            let st = state_to_container_status(&containers[i - 1].state);
            return Option::Some(st);
        }
        i -= 1;
    }
    proof {
        lemma_status_for_take(rsv, lower_seq(name@), 0);
        assert(rsv.take(0) =~= Seq::<ContainerRecordV>::empty());
    }
    Option::None
}

/// A declared service after the runtime merge: its status is overwritten by
/// the engine's answer for its name, and left alone when there is none.
pub open spec fn status_merged(s: ServiceV, rs: Seq<ContainerRecordV>) -> ServiceV {
    match status_for(rs, lower_seq(s.name)) {
        Option::Some(st) => ServiceV { status: st, ..s },
        Option::None => s,
    }
}

/// Overwrite each declared service's status with the engine's answer for its
/// name, case-insensitively; services the engine does not know keep their
/// status, and an unreachable engine changes nothing.
#[verifier::loop_isolation(false)]
pub fn merge_runtime_status(services: &mut Vec<Service>, containers: &Option<Vec<ContainerRecord>>)
    ensures
        final(services)@.len() == old(services)@.len(),
        match containers {
            Option::Some(cs) => forall|i: int|
                0 <= i < old(services)@.len() ==> final(services).deep_view()[i] == status_merged(
                    old(services).deep_view()[i],
                    cs.deep_view(),
                ),
            Option::None => final(services)@ == old(services)@,
        },
{
    let cs = match containers {
        Option::Some(cs) => cs,
        Option::None => {
            return ;
        },
    };
    let ghost rsv = cs.deep_view();
    let mut idx: usize = 0;
    while idx < services.len()
        invariant
            idx <= services@.len(),
            services@.len() == old(services)@.len(),
            forall|j: int| idx <= j < services@.len() ==> services@[j] == old(services)@[j],
            forall|j: int|
                0 <= j < idx ==> services.deep_view()[j] == status_merged(
                    old(services).deep_view()[j],
                    rsv,
                ),
        decreases services@.len() - idx,
    {
        let ghost pres = services@;
        let ghost pred = services.deep_view();
        let found = find_runtime_status(cs, services[idx].name.as_str());
        match found {
            Option::Some(st) => {
                let elem = &mut services[idx];
                elem.status = st;
                proof {
                    assert(services.deep_view()[idx as int] == status_merged(
                        old(services).deep_view()[idx as int],
                        rsv,
                    ));
                }
            },
            Option::None => {
                proof {
                    assert(services.deep_view()[idx as int] == status_merged(
                        old(services).deep_view()[idx as int],
                        rsv,
                    ));
                }
            },
        }
        proof {
            assert forall|j: int| 0 <= j < idx + 1 implies services.deep_view()[j] == status_merged(
                old(services).deep_view()[j],
                rsv,
            ) by {
                assert(services.deep_view()[j] == services@[j].deep_view());
                if j < idx {
                    assert(services@[j] == pres[j]);
                    assert(pred[j] == pres[j].deep_view());
                }
            }
        }
        idx += 1;
    }
}

} // verus!
