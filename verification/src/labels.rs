use vstd::prelude::*;
use vstd::string::StrSliceExecFns;
use vstd::string::StringExecFns;

use crate::model::ComposeLabels;
use crate::model::ComposeLabelsV;
use crate::model::ProxyConfig;
use crate::model::ProxyConfigV;
use crate::strutil::contains_seq;
use crate::strutil::contains_str;
use crate::strutil::digit_filter;
use crate::strutil::last_segment;
use crate::strutil::last_segment_str;
use crate::strutil::parse_port;
use crate::strutil::parse_port_spec;
use crate::strutil::parse_scattered_digits_port;
use crate::strutil::str_eq;
use crate::strutil::trim_seq;
use crate::strutil::trim_str;

verus! {

// ---------------------------------------------------------------------------
// Canonical label mappings as association lists
// ---------------------------------------------------------------------------

/// The value bound to `key`, at its first occurrence.
pub open spec fn lookup(entries: Seq<(Seq<char>, Seq<char>)>, key: Seq<char>) -> Option<Seq<char>>
    decreases entries.len(),
{
    if entries.len() == 0 {
        Option::None
    } else if entries[0].0 == key {
        Option::Some(entries[0].1)
    } else {
        lookup(entries.drop_first(), key)
    }
}

/// No key occurs twice.
pub open spec fn unique_keys(entries: Seq<(Seq<char>, Seq<char>)>) -> bool {
    forall|i: int, j: int| 0 <= i < j < entries.len() ==> entries[i].0 != entries[j].0
}

/// Bind `key` to `val`: replace the value at the key's first occurrence, or
/// append a new entry when the key is absent.
pub open spec fn upsert(
    entries: Seq<(Seq<char>, Seq<char>)>,
    key: Seq<char>,
    val: Seq<char>,
) -> Seq<(Seq<char>, Seq<char>)>
    decreases entries.len(),
{
    if entries.len() == 0 {
        seq![(key, val)]
    } else if entries[0].0 == key {
        seq![(key, val)] + entries.drop_first()
    } else {
        seq![entries[0]] + upsert(entries.drop_first(), key, val)
    }
}

/// The canonical mapping built by binding each pair in order.
pub open spec fn canon_of_pairs(pairs: Seq<(Seq<char>, Seq<char>)>) -> Seq<
    (Seq<char>, Seq<char>),
>
    decreases pairs.len(),
{
    if pairs.len() == 0 {
        Seq::empty()
    } else {
        upsert(canon_of_pairs(pairs.drop_last()), pairs.last().0, pairs.last().1)
    }
}

/// Position of the first `=` in `s`, or `-1` when it has none.
pub open spec fn first_eq(s: Seq<char>) -> int
    decreases s.len(),
{
    if s.len() == 0 {
        -1
    } else if s[0] == '=' {
        0
    } else if first_eq(s.drop_first()) < 0 {
        -1
    } else {
        first_eq(s.drop_first()) + 1
    }
}

/// A `KEY=VALUE` item split at its first `=`, or nothing when it has none.
pub open spec fn split_eq(s: Seq<char>) -> Option<(Seq<char>, Seq<char>)> {
    if first_eq(s) < 0 {
        Option::None
    } else {
        Option::Some((s.take(first_eq(s)), s.skip(first_eq(s) + 1)))
    }
}

/// The canonical mapping of a `KEY=VALUE` list; items without `=` are dropped.
pub open spec fn canon_of_list(items: Seq<Seq<char>>) -> Seq<(Seq<char>, Seq<char>)>
    decreases items.len(),
{
    if items.len() == 0 {
        Seq::empty()
    } else {
        let prev = canon_of_list(items.drop_last());
        match split_eq(items.last()) {
            Option::Some(kv) => upsert(prev, kv.0, kv.1),
            Option::None => prev,
        }
    }
}

/// The canonical key-to-value mapping of a label set, whatever its wire
/// encoding.
pub open spec fn canon_of_labels(l: ComposeLabelsV) -> Seq<(Seq<char>, Seq<char>)> {
    match l {
        ComposeLabelsV::Absent => Seq::empty(),
        ComposeLabelsV::Mapping(entries) => canon_of_pairs(entries),
        ComposeLabelsV::List(items) => canon_of_list(items),
    }
}

// ---------------------------------------------------------------------------
// Lemmas about lookup and upsert
// ---------------------------------------------------------------------------

/// After an upsert the key reads back as the new value.
pub proof fn lemma_lookup_upsert_same(
    entries: Seq<(Seq<char>, Seq<char>)>,
    key: Seq<char>,
    val: Seq<char>,
)
    ensures
        lookup(upsert(entries, key, val), key) == Option::Some(val),
    decreases entries.len(),
{
    if entries.len() == 0 {
    } else if entries[0].0 == key {
    } else {
        lemma_lookup_upsert_same(entries.drop_first(), key, val);
        assert((seq![entries[0]] + upsert(entries.drop_first(), key, val)).drop_first()
            =~= upsert(entries.drop_first(), key, val));
    }
}

/// An upsert leaves every other key's value alone.
pub proof fn lemma_lookup_upsert_other(
    entries: Seq<(Seq<char>, Seq<char>)>,
    key: Seq<char>,
    val: Seq<char>,
    other: Seq<char>,
)
    requires
        other != key,
    ensures
        lookup(upsert(entries, key, val), other) == lookup(entries, other),
    decreases entries.len(),
{
    if entries.len() == 0 {
        assert(upsert(entries, key, val) == seq![(key, val)]);
        assert(upsert(entries, key, val)[0] == (key, val));
        assert(seq![(key, val)].drop_first() =~= Seq::<(Seq<char>, Seq<char>)>::empty());
        assert(lookup(seq![(key, val)].drop_first(), other) is None);
        assert(lookup(entries, other) is None);
    } else if entries[0].0 == key {
        let r = seq![(key, val)] + entries.drop_first();
        assert(r[0] == (key, val));
        assert(r.drop_first() =~= entries.drop_first());
    } else {
        lemma_lookup_upsert_other(entries.drop_first(), key, val, other);
        let r = seq![entries[0]] + upsert(entries.drop_first(), key, val);
        assert(r[0] == entries[0]);
        assert(r.drop_first() =~= upsert(entries.drop_first(), key, val));
    }
}

/// An upsert keeps keys unique.
pub proof fn lemma_upsert_unique(
    entries: Seq<(Seq<char>, Seq<char>)>,
    key: Seq<char>,
    val: Seq<char>,
)
    requires
        unique_keys(entries),
    ensures
        unique_keys(upsert(entries, key, val)),
    decreases entries.len(),
{
    if entries.len() == 0 {
    } else if entries[0].0 == key {
        let r = seq![(key, val)] + entries.drop_first();
        assert forall|i: int, j: int| 0 <= i < j < r.len() implies r[i].0 != r[j].0 by {
            assert(r[j] == entries[j]);
            if i > 0 {
                assert(r[i] == entries[i]);
            }
        }
    } else {
        assert(unique_keys(entries.drop_first()));
        lemma_upsert_unique(entries.drop_first(), key, val);
        let sub = upsert(entries.drop_first(), key, val);
        let r = seq![entries[0]] + sub;
        lemma_upsert_keys(entries.drop_first(), key, val);
        assert forall|i: int, j: int| 0 <= i < j < r.len() implies r[i].0 != r[j].0 by {
            if i == 0 {
                assert(sub.contains(sub[j - 1]));
            } else {
                assert(r[i] == sub[i - 1] && r[j] == sub[j - 1]);
            }
        }
    }
}

/// Every key in an upsert result is the new key or one that was there before.
pub proof fn lemma_upsert_keys(
    entries: Seq<(Seq<char>, Seq<char>)>,
    key: Seq<char>,
    val: Seq<char>,
)
    ensures
        forall|p: (Seq<char>, Seq<char>)|
            #[trigger] upsert(entries, key, val).contains(p) ==> p.0 == key || exists|i: int|
                0 <= i < entries.len() && entries[i].0 == p.0,
    decreases entries.len(),
{
    if entries.len() == 0 {
    } else if entries[0].0 == key {
        assert forall|p: (Seq<char>, Seq<char>)|
            #[trigger] upsert(entries, key, val).contains(p) implies p.0 == key || exists|i: int|
            0 <= i < entries.len() && entries[i].0 == p.0 by {
            let r = seq![(key, val)] + entries.drop_first();
            let k = choose|k: int| 0 <= k < r.len() && r[k] == p;
            if k > 0 {
                assert(entries[k] == p);
            }
        }
    } else {
        lemma_upsert_keys(entries.drop_first(), key, val);
        assert forall|p: (Seq<char>, Seq<char>)|
            #[trigger] upsert(entries, key, val).contains(p) implies p.0 == key || exists|i: int|
            0 <= i < entries.len() && entries[i].0 == p.0 by {
            let sub = upsert(entries.drop_first(), key, val);
            let r = seq![entries[0]] + sub;
            let k = choose|k: int| 0 <= k < r.len() && r[k] == p;
            if k > 0 {
                assert(sub.contains(sub[k - 1]));
                assert(sub[k - 1] == p);
                if p.0 != key {
                    let i = choose|i: int|
                        0 <= i < entries.drop_first().len() && entries.drop_first()[i].0 == p.0;
                    assert(entries[i + 1].0 == p.0);
                }
            }
        }
    }
}

/// A canonical mapping has unique keys.
pub proof fn lemma_canon_of_pairs_unique(pairs: Seq<(Seq<char>, Seq<char>)>)
    ensures
        unique_keys(canon_of_pairs(pairs)),
    decreases pairs.len(),
{
    if pairs.len() > 0 {
        lemma_canon_of_pairs_unique(pairs.drop_last());
        lemma_upsert_unique(canon_of_pairs(pairs.drop_last()), pairs.last().0, pairs.last().1);
    }
}

/// A canonical list mapping has unique keys.
pub proof fn lemma_canon_of_list_unique(items: Seq<Seq<char>>)
    ensures
        unique_keys(canon_of_list(items)),
    decreases items.len(),
{
    if items.len() > 0 {
        lemma_canon_of_list_unique(items.drop_last());
        match split_eq(items.last()) {
            Option::Some(kv) => {
                lemma_upsert_unique(canon_of_list(items.drop_last()), kv.0, kv.1);
            },
            Option::None => {},
        }
    }
}

/// Rebinding a key to the value it already has changes nothing.
pub proof fn lemma_upsert_noop(entries: Seq<(Seq<char>, Seq<char>)>, key: Seq<char>, val: Seq<char>)
    requires
        lookup(entries, key) == Option::Some(val),
    ensures
        upsert(entries, key, val) == entries,
    decreases entries.len(),
{
    if entries.len() == 0 {
    } else if entries[0].0 == key {
        assert(seq![(key, val)] + entries.drop_first() =~= entries);
    } else {
        lemma_upsert_noop(entries.drop_first(), key, val);
        assert(seq![entries[0]] + entries.drop_first() =~= entries);
    }
}

/// Canonicalizing a mapping whose keys are already unique changes nothing.
pub proof fn lemma_canon_of_unique_id(entries: Seq<(Seq<char>, Seq<char>)>)
    requires
        unique_keys(entries),
    ensures
        canon_of_pairs(entries) == entries,
    decreases entries.len(),
{
    if entries.len() > 0 {
        let front = entries.drop_last();
        assert(unique_keys(front));
        lemma_canon_of_unique_id(front);
        lemma_upsert_absent_push(front, entries.last().0, entries.last().1);
        assert(front.push(entries.last()) =~= entries);
    }
}

/// Upserting a key that is absent appends the new entry.
pub proof fn lemma_upsert_absent_push(
    entries: Seq<(Seq<char>, Seq<char>)>,
    key: Seq<char>,
    val: Seq<char>,
)
    requires
        forall|i: int| 0 <= i < entries.len() ==> entries[i].0 != key,
    ensures
        upsert(entries, key, val) == entries.push((key, val)),
    decreases entries.len(),
{
    if entries.len() == 0 {
        assert(seq![(key, val)] =~= entries.push((key, val)));
    } else {
        assert(forall|i: int|
            0 <= i < entries.drop_first().len() ==> entries.drop_first()[i] == entries[i + 1]);
        lemma_upsert_absent_push(entries.drop_first(), key, val);
        assert(seq![entries[0]] + entries.drop_first().push((key, val)) =~= entries.push(
            (key, val),
        ));
    }
}

/// Skipping entries that do not hold the key leaves the lookup unchanged.
pub proof fn lemma_lookup_skip(entries: Seq<(Seq<char>, Seq<char>)>, key: Seq<char>, i: int)
    requires
        0 <= i <= entries.len(),
        forall|j: int| 0 <= j < i ==> entries[j].0 != key,
    ensures
        lookup(entries, key) == lookup(entries.skip(i), key),
    decreases i,
{
    if i == 0 {
        assert(entries.skip(0) =~= entries);
    } else {
        assert(entries[0].0 != key);
        let t = entries.drop_first();
        assert(forall|j: int| 0 <= j < i - 1 ==> t[j] == entries[j + 1]);
        lemma_lookup_skip(t, key, i - 1);
        assert(t.skip(i - 1) =~= entries.skip(i));
    }
}

// ---------------------------------------------------------------------------
// Executable lookup and decoding
// ---------------------------------------------------------------------------

/// The value bound to `key` in a canonical mapping, at its first occurrence.
pub fn lookup_label<'a>(entries: &'a Vec<(String, String)>, key: &str) -> (r: Option<&'a String>)
    ensures
        match r {
            Option::Some(v) => lookup(entries.deep_view(), key@) == Option::Some(v@),
            Option::None => lookup(entries.deep_view(), key@) == Option::None::<Seq<char>>,
        },
{
    let ghost m = entries.deep_view();
    let mut i: usize = 0;
    while i < entries.len()
        invariant
            i <= entries.len(),
            m == entries.deep_view(),
            m.len() == entries.len(),
            forall|j: int| 0 <= j < i ==> m[j].0 != key@,
        decreases entries.len() - i,
    {
        proof {
            assert(m[i as int] == (entries@[i as int].0@, entries@[i as int].1@));
        }
        if str_eq(entries[i].0.as_str(), key) {
            proof {
                lemma_lookup_skip(m, key@, i as int);
                assert(lookup(m.skip(i as int), key@) == Option::Some(m[i as int].1));
            }
            return Option::Some(&entries[i].1);
        }
        i += 1;
    }
    proof {
        lemma_lookup_skip(m, key@, m.len() as int);
        assert(m.skip(m.len() as int) =~= Seq::<(Seq<char>, Seq<char>)>::empty());
    }
    Option::None
}

// ---------------------------------------------------------------------------
// Reverse-proxy label decoding
// ---------------------------------------------------------------------------

/// The backend port encoded in a `caddy.reverse_proxy` label value: an
/// `upstreams` template is read by its digits, anything else by its final
/// non-empty `:`-separated segment.
pub open spec fn decode_port(value: Seq<char>) -> Option<u16> {
    let t = trim_seq(value);
    if contains_seq(t, "upstreams"@) {
        parse_port_spec(digit_filter(t))
    } else {
        parse_port_spec(trim_seq(last_segment(t)))
    }
}

/// The proxy route declared by a canonical label mapping: present exactly when
/// both the `caddy` domain and a decodable `caddy.reverse_proxy` port are,
/// with the TLS policy defaulting to `internal`.
pub open spec fn decode_labels(m: Seq<(Seq<char>, Seq<char>)>) -> Option<ProxyConfigV> {
    match lookup(m, "caddy"@) {
        Option::None => Option::None,
        Option::Some(domain) => match lookup(m, "caddy.reverse_proxy"@) {
            Option::None => Option::None,
            Option::Some(rp) => match decode_port(rp) {
                Option::None => Option::None,
                Option::Some(port) => Option::Some(
                    ProxyConfigV {
                        domain: domain,
                        port: port,
                        tls: match lookup(m, "caddy.tls"@) {
                            Option::Some(t) => t,
                            Option::None => "internal"@,
                        },
                    },
                ),
            },
        },
    }
}

/// Extract the backend port from a `caddy.reverse_proxy` label value.
pub fn parse_port_from_reverse_proxy(value: &str) -> (r: Option<u16>)
    ensures
        r == decode_port(value@),
{
    let t = trim_str(value);
    if contains_str(t, "upstreams") {
        parse_scattered_digits_port(t)
    } else {
        let seg = last_segment_str(t);
        parse_port(trim_str(seg))
    }
}

/// Decode a canonical label mapping into a proxy route, when one is declared.
pub fn parse_caddy_labels(labels: &Vec<(String, String)>) -> (r: Option<ProxyConfig>)
    ensures
        r.deep_view() == decode_labels(labels.deep_view()),
{
    let domain = match lookup_label(labels, "caddy") {
        Option::Some(d) => d.clone(),
        Option::None => {
            return Option::None;
        },
    };
    let rp = match lookup_label(labels, "caddy.reverse_proxy") {
        Option::Some(v) => v,
        Option::None => {
            return Option::None;
        },
    };
    let port = match parse_port_from_reverse_proxy(rp.as_str()) {
        Option::Some(p) => p,
        Option::None => {
            return Option::None;
        },
    };
    let tls = match lookup_label(labels, "caddy.tls") {
        Option::Some(t) => t.clone(),
        Option::None => String::from_str("internal"),
    };
    Option::Some(ProxyConfig { domain, port, tls })
}

/// A label set missing either the `caddy` key or the `caddy.reverse_proxy`
/// key declares no proxy route.
pub proof fn lemma_partial_labels_decode_none(m: Seq<(Seq<char>, Seq<char>)>)
    requires
        lookup(m, "caddy"@) is None || lookup(m, "caddy.reverse_proxy"@) is None,
    ensures
        decode_labels(m) is None,
{
}

// ---------------------------------------------------------------------------
// Canonicalization of a label set
// ---------------------------------------------------------------------------

/// Bind `key` to `val` in a canonical mapping.
pub fn upsert_label(entries: &mut Vec<(String, String)>, key: String, val: String)
    ensures
        final(entries).deep_view() == upsert(old(entries).deep_view(), key@, val@),
{
    let ghost m = old(entries).deep_view();
    let mut i: usize = 0;
    while i < entries.len()
        invariant
            i <= entries.len(),
            entries == old(entries),
            m == entries.deep_view(),
            m.len() == entries.len(),
            forall|j: int| 0 <= j < i ==> m[j].0 != key@,
        decreases entries.len() - i,
    {
        proof {
            assert(m[i as int] == (entries@[i as int].0@, entries@[i as int].1@));
        }
        if str_eq(entries[i].0.as_str(), key.as_str()) {
            proof {
                lemma_upsert_at(m, key@, val@, i as int);
            }
            entries[i] = (key, val);
            proof {
                assert(entries.deep_view() =~= m.update(i as int, (key@, val@)));
            }
            return ;
        }
        i += 1;
    }
    proof {
        lemma_upsert_absent_push(m, key@, val@);
    }
    entries.push((key, val));
    proof {
        assert(entries.deep_view() =~= m.push((key@, val@)));
    }
}

/// When the key first occurs at `i`, an upsert is an update at `i`.
proof fn lemma_upsert_at(entries: Seq<(Seq<char>, Seq<char>)>, key: Seq<char>, val: Seq<char>, i: int)
    requires
        0 <= i < entries.len(),
        entries[i].0 == key,
        forall|j: int| 0 <= j < i ==> entries[j].0 != key,
    ensures
        upsert(entries, key, val) == entries.update(i, (key, val)),
    decreases i,
{
    if i == 0 {
        assert(seq![(key, val)] + entries.drop_first() =~= entries.update(0, (key, val)));
    } else {
        let t = entries.drop_first();
        assert(forall|j: int| 0 <= j < t.len() ==> t[j] == entries[j + 1]);
        lemma_upsert_at(t, key, val, i - 1);
        assert(seq![entries[0]] + t.update(i - 1, (key, val)) =~= entries.update(i, (key, val)));
    }
}

impl ComposeLabels {
    /// The canonical key-to-value mapping of this label set. Keys are unique;
    /// a later binding of a key wins, at the key's first position.
    pub fn to_map(&self) -> (r: Vec<(String, String)>)
        ensures
            r.deep_view() == canon_of_labels(self.deep_view()),
            unique_keys(r.deep_view()),
    {
        match self {
            ComposeLabels::Absent => {
                let r = Vec::new();
                proof {
                    assert(r.deep_view() =~= Seq::<(Seq<char>, Seq<char>)>::empty());
                }
                r
            },
            ComposeLabels::Mapping(entries) => {
                let mut out: Vec<(String, String)> = Vec::new();
                proof {
                    assert(out.deep_view() =~= canon_of_pairs(entries.deep_view().take(0)));
                }
                let mut i: usize = 0;
                while i < entries.len()
                    invariant
                        i <= entries.len(),
                        entries.deep_view().len() == entries.len(),
                        out.deep_view() == canon_of_pairs(entries.deep_view().take(i as int)),
                    decreases entries.len() - i,
                {
                    proof {
                        assert(entries.deep_view()[i as int] == (
                            entries@[i as int].0@,
                            entries@[i as int].1@,
                        ));
                        assert(entries.deep_view().take(i + 1).drop_last() =~= entries.deep_view()
                            .take(i as int));
                        assert(entries.deep_view().take(i + 1).last() == entries.deep_view()[
                            i as int]);
                    }
                    let k = entries[i].0.clone();
                    let v = entries[i].1.clone();
                    upsert_label(&mut out, k, v);
                    i += 1;
                }
                proof {
                    assert(entries.deep_view().take(entries.deep_view().len() as int)
                        =~= entries.deep_view());
                    lemma_canon_of_pairs_unique(entries.deep_view());
                }
                out
            },
            ComposeLabels::List(items) => {
                let mut out: Vec<(String, String)> = Vec::new();
                proof {
                    assert(out.deep_view() =~= canon_of_list(items.deep_view().take(0)));
                }
                let mut i: usize = 0;
                while i < items.len()
                    invariant
                        i <= items.len(),
                        items.deep_view().len() == items.len(),
                        out.deep_view() == canon_of_list(items.deep_view().take(i as int)),
                    decreases items.len() - i,
                {
                    proof {
                        assert(items.deep_view()[i as int] == items@[i as int]@);
                        assert(items.deep_view().take(i + 1).drop_last() =~= items.deep_view().take(
                            i as int,
                        ));
                        assert(items.deep_view().take(i + 1).last() == items.deep_view()[i as int]);
                    }
                    match split_eq_str(&items[i]) {
                        Option::Some(kv) => {
                            upsert_label(&mut out, kv.0, kv.1);
                        },
                        Option::None => {},
                    }
                    i += 1;
                }
                proof {
                    assert(items.deep_view().take(items.deep_view().len() as int) =~= items
                        .deep_view());
                    lemma_canon_of_list_unique(items.deep_view());
                }
                out
            },
        }
    }
}

/// Split a `KEY=VALUE` item at its first `=`.
fn split_eq_str(item: &String) -> (r: Option<(String, String)>)
    ensures
        match r {
            Option::Some(kv) => split_eq(item@) == Option::Some((kv.0@, kv.1@)),
            Option::None => split_eq(item@) == Option::None::<(Seq<char>, Seq<char>)>,
        },
{
    let s = item.as_str();
    let len = s.unicode_len();
    let mut i: usize = 0;
    while i < len && s.get_char(i) != '='
        invariant
            i <= len,
            len == s@.len(),
            forall|j: int| 0 <= j < i ==> s@[j] != '=',
        decreases len - i,
    {
        i += 1;
    }
    proof {
        lemma_first_eq_at(s@, i as int);
    }
    if i == len {
        Option::None
    } else {
        let key = s.substring_char(0, i).to_owned();
        let val = s.substring_char(i + 1, len).to_owned();
        proof {
            assert(key@ =~= item@.take(i as int));
            assert(val@ =~= item@.skip(i + 1));
        }
        Option::Some((key, val))
    }
}

/// When the first `=` sits at `i` (or there is none), `first_eq` says so.
proof fn lemma_first_eq_at(s: Seq<char>, i: int)
    requires
        0 <= i <= s.len(),
        forall|j: int| 0 <= j < i ==> s[j] != '=',
        i == s.len() || s[i] == '=',
    ensures
        i < s.len() ==> first_eq(s) == i,
        i == s.len() ==> first_eq(s) < 0,
    decreases i,
{
    if s.len() == 0 {
    } else if i == 0 {
    } else {
        let t = s.drop_first();
        assert(forall|j: int| 0 <= j < i - 1 ==> t[j] != '=');
        lemma_first_eq_at(t, i - 1);
    }
}

} // verus!
