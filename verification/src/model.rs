use vstd::prelude::*;
use vstd::view::View as _;

verus! {

/// Live state of one service's container, as merged into the dashboard view.
#[derive(Clone, Copy, Debug, PartialEq, Eq, Structural)]
pub enum ContainerStatus {
    Running,
    Stopped,
    NotDeployed,
}

/// State of the reverse-proxy daemon itself.
#[derive(Clone, Copy, Debug, PartialEq, Eq, Structural)]
pub enum CaddyProxyStatus {
    Up,
    Down,
    Unknown,
}

/// How the proxy daemon is started and stopped.
#[derive(Clone, Copy, Debug, PartialEq, Eq, Structural)]
pub enum CaddyControlMethod {
    Systemd,
    Container,
}

/// Which service list the dashboard is showing.
#[derive(Clone, Copy, Debug, PartialEq, Eq, Structural)]
pub enum View {
    Project,
    Global,
}

/// Which overlay, if any, is open on top of the dashboard.
#[derive(Clone, Copy, Debug, PartialEq, Eq, Structural)]
pub enum ActiveModal {
    Closed,
    AddProxy,
    EditProxy,
    CaddyMenu,
    Help,
}

/// A user intent produced from a key press by the presentation layer.
#[derive(Clone, Copy, Debug)]
pub enum AppAction {
    Quit,
    SwitchView,
    MoveUp,
    MoveDown,
    JumpTop,
    JumpBottom,
    AddProxy,
    EditProxy,
    OpenBrowser,
    Refresh,
    CaddyMenu,
    Help,
    CloseModal,
    FormNextField,
    FormPrevField,
    FormConfirm,
    FormCharInput(char),
    FormBackspace,
    CaddyStart,
    CaddyStop,
    CaddyRestart,
    SelectItem(usize),
    Noop,
}

/// Which container runtime the engine socket belongs to.
#[derive(Clone, Copy, Debug, PartialEq, Eq, Structural)]
pub enum RuntimeType {
    Docker,
    Podman,
}

/// Text typed so far into the add/edit proxy form.
#[derive(Clone, Debug)]
pub struct FormState {
    pub focused_field: usize,
    pub domain: String,
    pub port: String,
    pub tls: String,
    pub service_index: usize,
}

impl Default for FormState {
    /// An empty form focused on its first field, with the default TLS policy.
    fn default() -> (r: FormState)
        ensures
            r.focused_field == 0,
            r.domain.deep_view() == Seq::<char>::empty(),
            r.port.deep_view() == Seq::<char>::empty(),
            r.tls.deep_view() == "internal".view(),
            r.service_index == 0,
    {
        FormState {
            focused_field: 0,
            domain: String::new(),
            port: String::new(),
            tls: String::from_str("internal"),
            service_index: 0,
        }
    }
}

/// One reverse-proxy route: public hostname, backend port, TLS policy tag.
#[derive(Clone, Debug)]
pub struct ProxyConfig {
    pub domain: String,
    pub port: u16,
    pub tls: String,
}

/// Mathematical value of a `ProxyConfig`.
pub ghost struct ProxyConfigV {
    pub domain: Seq<char>,
    pub port: u16,
    pub tls: Seq<char>,
}

impl DeepView for ProxyConfig {
    type V = ProxyConfigV;

    open spec fn deep_view(&self) -> ProxyConfigV {
        ProxyConfigV {
            domain: self.domain.deep_view(),
            port: self.port,
            tls: self.tls.deep_view(),
        }
    }
}

/// Where a reconciled service record came from.
#[derive(Clone, Debug)]
pub enum ServiceSource {
    Compose { file: String, service_name: String },
    Runtime,
}

/// Mathematical value of a `ServiceSource`.
pub ghost enum ServiceSourceV {
    Compose { file: Seq<char>, service_name: Seq<char> },
    Runtime,
}

impl DeepView for ServiceSource {
    type V = ServiceSourceV;

    open spec fn deep_view(&self) -> ServiceSourceV {
        match self {
            ServiceSource::Compose { file, service_name } => ServiceSourceV::Compose {
                file: file.deep_view(),
                service_name: service_name.deep_view(),
            },
            ServiceSource::Runtime => ServiceSourceV::Runtime,
        }
    }
}

/// One reconciled service as shown on the dashboard.
#[derive(Clone, Debug)]
pub struct Service {
    pub name: String,
    pub proxy: Option<ProxyConfig>,
    pub status: ContainerStatus,
    pub source: ServiceSource,
    pub project: String,
    pub available_ports: Vec<u16>,
}

/// Mathematical value of a `Service`.
pub ghost struct ServiceV {
    pub name: Seq<char>,
    pub proxy: Option<ProxyConfigV>,
    pub status: ContainerStatus,
    pub source: ServiceSourceV,
    pub project: Seq<char>,
    pub available_ports: Seq<u16>,
}

impl DeepView for Service {
    type V = ServiceV;

    open spec fn deep_view(&self) -> ServiceV {
        ServiceV {
            name: self.name.deep_view(),
            proxy: self.proxy.deep_view(),
            status: self.status,
            source: self.source.deep_view(),
            project: self.project.deep_view(),
            available_ports: self.available_ports.view(),
        }
    }
}

/// A structural YAML (or JSON) value: scalars the engine interprets are kept
/// typed, every other scalar is kept verbatim as text, and lists and mappings
/// keep their entries in document order so that unrecognized structure
/// round-trips unchanged.
#[derive(Debug)]
pub enum YamlValue {
    Null,
    Bool(bool),
    Number(i64),
    Text(String),
    Other(String),
    List(Vec<YamlValue>),
    Mapping(Vec<(String, YamlValue)>),
}

/// Mathematical value of a `YamlValue` tree.
pub ghost enum YamlValueV {
    Null,
    Bool(bool),
    Number(i64),
    Text(Seq<char>),
    Other(Seq<char>),
    List(Seq<YamlValueV>),
    Mapping(Seq<(Seq<char>, YamlValueV)>),
}

/// Mathematical value of a whole YAML tree.
pub open spec fn yaml_view(v: YamlValue) -> YamlValueV
    decreases v,
{
    match v {
        YamlValue::Null => YamlValueV::Null,
        YamlValue::Bool(b) => YamlValueV::Bool(b),
        YamlValue::Number(n) => YamlValueV::Number(n),
        YamlValue::Text(s) => YamlValueV::Text(s.deep_view()),
        YamlValue::Other(s) => YamlValueV::Other(s.deep_view()),
        YamlValue::List(items) => YamlValueV::List(yaml_seq_view(items.view())),
        YamlValue::Mapping(entries) => YamlValueV::Mapping(yaml_entries_view(entries.view())),
    }
}

/// Element-wise view of a sequence of YAML trees.
pub open spec fn yaml_seq_view(s: Seq<YamlValue>) -> Seq<YamlValueV>
    decreases s,
{
    if s.len() == 0 {
        Seq::empty()
    } else {
        seq![yaml_view(s[0])] + yaml_seq_view(s.drop_first())
    }
}

/// Entry-wise view of a sequence of keyed YAML trees.
pub open spec fn yaml_entries_view(s: Seq<(String, YamlValue)>) -> Seq<(Seq<char>, YamlValueV)>
    decreases s,
{
    if s.len() == 0 {
        Seq::empty()
    } else {
        seq![(s[0].0.deep_view(), yaml_view(s[0].1))] + yaml_entries_view(s.drop_first())
    }
}

/// The two wire encodings of a compose `labels` field, or its absence.
#[derive(Debug)]
pub enum ComposeLabels {
    Absent,
    Mapping(Vec<(String, String)>),
    List(Vec<String>),
}

/// Mathematical value of a `ComposeLabels`.
pub ghost enum ComposeLabelsV {
    Absent,
    Mapping(Seq<(Seq<char>, Seq<char>)>),
    List(Seq<Seq<char>>),
}

impl DeepView for ComposeLabels {
    type V = ComposeLabelsV;

    open spec fn deep_view(&self) -> ComposeLabelsV {
        match self {
            ComposeLabels::Absent => ComposeLabelsV::Absent,
            ComposeLabels::Mapping(entries) => ComposeLabelsV::Mapping(entries.deep_view()),
            ComposeLabels::List(items) => ComposeLabelsV::List(items.deep_view()),
        }
    }
}

/// A network definition under the document's top-level `networks` mapping.
#[derive(Clone, Debug)]
pub struct ComposeNetwork {
    pub external: Option<bool>,
    pub name: Option<String>,
}

/// Mathematical value of a `ComposeNetwork`.
pub ghost struct ComposeNetworkV {
    pub external: Option<bool>,
    pub name: Option<Seq<char>>,
}

impl DeepView for ComposeNetwork {
    type V = ComposeNetworkV;

    open spec fn deep_view(&self) -> ComposeNetworkV {
        ComposeNetworkV { external: self.external, name: self.name.deep_view() }
    }
}

/// One service declaration inside a compose document. Fields the engine does
/// not understand are kept verbatim in `extra` so the document round-trips.
#[derive(Debug)]
pub struct ComposeService {
    pub labels: ComposeLabels,
    pub ports: Vec<YamlValue>,
    pub expose: Vec<YamlValue>,
    pub networks: Option<YamlValue>,
    pub extra: Vec<(String, YamlValue)>,
}

/// Mathematical value of a `ComposeService`.
pub ghost struct ComposeServiceV {
    pub labels: ComposeLabelsV,
    pub ports: Seq<YamlValueV>,
    pub expose: Seq<YamlValueV>,
    pub networks: Option<YamlValueV>,
    pub extra: Seq<(Seq<char>, YamlValueV)>,
}

/// Mathematical value of a `ComposeService`.
pub open spec fn compose_service_view(s: ComposeService) -> ComposeServiceV {
    ComposeServiceV {
        labels: s.labels.deep_view(),
        ports: yaml_seq_view(s.ports.view()),
        expose: yaml_seq_view(s.expose.view()),
        networks: match s.networks {
            Option::Some(v) => Option::Some(yaml_view(v)),
            Option::None => Option::None,
        },
        extra: yaml_entries_view(s.extra.view()),
    }
}

/// A parsed compose document: the fields the engine understands, plus a bag of
/// unrecognized top-level fields kept verbatim.
#[derive(Debug)]
pub struct ComposeFile {
    pub name: Option<String>,
    pub services: Vec<(String, ComposeService)>,
    pub networks: Vec<(String, Option<ComposeNetwork>)>,
    pub extra: Vec<(String, YamlValue)>,
}

/// Mathematical value of a `ComposeFile`.
pub ghost struct ComposeFileV {
    pub name: Option<Seq<char>>,
    pub services: Seq<(Seq<char>, ComposeServiceV)>,
    pub networks: Seq<(Seq<char>, Option<ComposeNetworkV>)>,
    pub extra: Seq<(Seq<char>, YamlValueV)>,
}

/// Entry-wise view of a service list.
pub open spec fn service_entries_view(s: Seq<(String, ComposeService)>) -> Seq<
    (Seq<char>, ComposeServiceV),
> {
    s.map_values(|p: (String, ComposeService)| (p.0.deep_view(), compose_service_view(p.1)))
}

/// Mathematical value of a `ComposeFile`.
pub open spec fn compose_file_view(f: ComposeFile) -> ComposeFileV {
    ComposeFileV {
        name: f.name.deep_view(),
        services: service_entries_view(f.services.view()),
        networks: f.networks.deep_view(),
        extra: yaml_entries_view(f.extra.view()),
    }
}


/// Length of the element-wise view.
pub proof fn lemma_yaml_seq_view_len(s: Seq<YamlValue>)
    ensures
        yaml_seq_view(s).len() == s.len(),
    decreases s.len(),
{
    if s.len() > 0 {
        lemma_yaml_seq_view_len(s.drop_first());
    }
}

/// The element-wise view, by index.
pub proof fn lemma_yaml_seq_view_index(s: Seq<YamlValue>, i: int)
    requires
        0 <= i < s.len(),
    ensures
        yaml_seq_view(s).len() == s.len(),
        yaml_seq_view(s)[i] == yaml_view(s[i]),
    decreases s.len(),
{
    lemma_yaml_seq_view_len(s);
    if i > 0 {
        lemma_yaml_seq_view_index(s.drop_first(), i - 1);
    } else {
        lemma_yaml_seq_view_len(s.drop_first());
    }
}

/// Length of the entry-wise view.
pub proof fn lemma_yaml_entries_view_len(s: Seq<(String, YamlValue)>)
    ensures
        yaml_entries_view(s).len() == s.len(),
    decreases s.len(),
{
    if s.len() > 0 {
        lemma_yaml_entries_view_len(s.drop_first());
    }
}

/// The entry-wise view, by index.
pub proof fn lemma_yaml_entries_view_index(s: Seq<(String, YamlValue)>, i: int)
    requires
        0 <= i < s.len(),
    ensures
        yaml_entries_view(s).len() == s.len(),
        yaml_entries_view(s)[i] == (s[i].0.deep_view(), yaml_view(s[i].1)),
    decreases s.len(),
{
    lemma_yaml_entries_view_len(s);
    if i > 0 {
        lemma_yaml_entries_view_index(s.drop_first(), i - 1);
    } else {
        lemma_yaml_entries_view_len(s.drop_first());
    }
}


/// The element-wise view distributes over push.
pub proof fn lemma_yaml_seq_view_push(s: Seq<YamlValue>, v: YamlValue)
    ensures
        yaml_seq_view(s.push(v)) == yaml_seq_view(s).push(yaml_view(v)),
{
    let a = yaml_seq_view(s.push(v));
    let b = yaml_seq_view(s).push(yaml_view(v));
    lemma_yaml_seq_view_len(s.push(v));
    lemma_yaml_seq_view_len(s);
    assert forall|i: int| 0 <= i < a.len() implies a[i] == b[i] by {
        lemma_yaml_seq_view_index(s.push(v), i);
        if i < s.len() {
            lemma_yaml_seq_view_index(s, i);
        }
    }
    assert(a =~= b);
}

/// The entry-wise view distributes over push.
pub proof fn lemma_yaml_entries_view_push(s: Seq<(String, YamlValue)>, e: (String, YamlValue))
    ensures
        yaml_entries_view(s.push(e)) == yaml_entries_view(s).push(
            (e.0.deep_view(), yaml_view(e.1)),
        ),
{
    let a = yaml_entries_view(s.push(e));
    let b = yaml_entries_view(s).push((e.0.deep_view(), yaml_view(e.1)));
    lemma_yaml_entries_view_len(s.push(e));
    lemma_yaml_entries_view_len(s);
    assert forall|i: int| 0 <= i < a.len() implies a[i] == b[i] by {
        lemma_yaml_entries_view_index(s.push(e), i);
        if i < s.len() {
            lemma_yaml_entries_view_index(s, i);
        }
    }
    assert(a =~= b);
}

} // verus!
