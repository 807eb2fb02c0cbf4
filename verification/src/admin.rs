use vstd::prelude::*;
use vstd::string::StrSliceExecFns;
use vstd::string::StringExecFns;

use crate::model::YamlValue;
use crate::model::YamlValueV;
use crate::model::lemma_yaml_entries_view_index;
use crate::model::lemma_yaml_entries_view_len;
use crate::model::lemma_yaml_seq_view_index;
use crate::model::lemma_yaml_seq_view_len;
use crate::model::yaml_entries_view;
use crate::model::yaml_seq_view;
use crate::model::yaml_view;
use crate::sorted::insert_sorted_string;
use crate::sorted::sorted_strict_str;
use crate::strutil::str_eq;

verus! {

// ---------------------------------------------------------------------------
// Hostnames in the proxy's configuration tree
// ---------------------------------------------------------------------------

/// The value bound to `key` in a mapping, at its first occurrence.
pub open spec fn ylookup(entries: Seq<(Seq<char>, YamlValueV)>, key: Seq<char>) -> Option<
    YamlValueV,
>
    decreases entries.len(),
{
    if entries.len() == 0 {
        Option::None
    } else if entries[0].0 == key {
        Option::Some(entries[0].1)
    } else {
        ylookup(entries.drop_first(), key)
    }
}

/// The string elements of a list, in order.
pub open spec fn text_items_of(items: Seq<YamlValueV>) -> Seq<Seq<char>>
    decreases items.len(),
{
    if items.len() == 0 {
        Seq::empty()
    } else {
        text_items_of(items.drop_last()) + (match items.last() {
            YamlValueV::Text(s) => seq![s],
            _ => Seq::empty(),
        })
    }
}

/// The strings of a mapping's `host` array, when it has one.
pub open spec fn host_array_of(entries: Seq<(Seq<char>, YamlValueV)>) -> Seq<Seq<char>> {
    match ylookup(entries, "host"@) {
        Option::Some(YamlValueV::List(items)) => text_items_of(items),
        _ => Seq::empty(),
    }
}

/// Every hostname in the configuration tree, in document order: the strings
/// of each `host` array, found by visiting every mapping and list node.
pub open spec fn hosts_of(v: YamlValueV) -> Seq<Seq<char>>
    decreases v,
{
    match v {
        YamlValueV::Mapping(entries) => host_array_of(entries) + hosts_of_entries(entries),
        YamlValueV::List(items) => hosts_of_items(items),
        _ => Seq::empty(),
    }
}

/// The hostnames below each entry of a mapping, in order.
pub open spec fn hosts_of_entries(entries: Seq<(Seq<char>, YamlValueV)>) -> Seq<Seq<char>>
    decreases entries,
{
    if entries.len() == 0 {
        Seq::empty()
    } else {
        hosts_of_entries(entries.drop_last()) + hosts_of(entries.last().1)
    }
}

/// The hostnames below each element of a list, in order.
pub open spec fn hosts_of_items(items: Seq<YamlValueV>) -> Seq<Seq<char>>
    decreases items,
{
    if items.len() == 0 {
        Seq::empty()
    } else {
        hosts_of_items(items.drop_last()) + hosts_of(items.last())
    }
}

/// Skipping entries that are not `host` leaves the lookup unchanged.
proof fn lemma_ylookup_skip(entries: Seq<(Seq<char>, YamlValueV)>, key: Seq<char>, i: int)
    requires
        0 <= i <= entries.len(),
        forall|j: int| 0 <= j < i ==> entries[j].0 != key,
    ensures
        ylookup(entries, key) == ylookup(entries.skip(i), key),
    decreases i,
{
    if i == 0 {
        assert(entries.skip(0) =~= entries);
    } else {
        let t = entries.drop_first();
        assert(forall|j: int| 0 <= j < i - 1 ==> t[j] == entries[j + 1]);
        lemma_ylookup_skip(t, key, i - 1);
        assert(t.skip(i - 1) =~= entries.skip(i));
    }
}

/// The string elements of one list of values.
#[verifier::loop_isolation(false)]
fn collect_text_items(items: &Vec<YamlValue>) -> (r: Vec<String>)
    ensures
        r.deep_view() == text_items_of(yaml_seq_view(items@)),
{
    let ghost iv = yaml_seq_view(items@);
    proof {
        lemma_yaml_seq_view_len(items@);
    }
    let mut out: Vec<String> = Vec::new();
    proof {
        assert(iv.take(0) =~= Seq::<YamlValueV>::empty());
        assert(out.deep_view() =~= text_items_of(iv.take(0)));
    }
    let mut i: usize = 0;
    while i < items.len()
        invariant
            i <= items.len(),
            iv.len() == items@.len(),
            out.deep_view() == text_items_of(iv.take(i as int)),
        decreases items.len() - i,
    {
        proof {
            lemma_yaml_seq_view_index(items@, i as int);
            assert(iv.take(i + 1).drop_last() =~= iv.take(i as int));
            assert(iv.take(i + 1).last() == iv[i as int]);
        }
        match &items[i] {
            YamlValue::Text(s) => {
                let ghost prevec = out@;
                let ghost pre = out.deep_view();
                out.push(s.clone());
                proof {
                    assert forall|j: int| 0 <= j < out.deep_view().len() implies out.deep_view()[j]
                        == text_items_of(iv.take(i + 1))[j] by {
                        assert(out.deep_view()[j] == out@[j].deep_view());
                        if j < prevec.len() {
                            assert(out@[j] == prevec[j]);
                            assert(pre[j] == prevec[j].deep_view());
                        }
                    }
                    assert(out.deep_view() =~= text_items_of(iv.take(i + 1)));
                }
            },
            _ => {
                proof {
                    assert(out.deep_view() =~= text_items_of(iv.take(i + 1)));
                }
            },
        }
        i += 1;
    }
    proof {
        assert(iv.take(iv.len() as int) =~= iv);
    }
    out
}

/// Collect every hostname found in an array under a `host` key anywhere in
/// the configuration tree, in document order.
#[verifier::loop_isolation(false)]
pub fn extract_hosts(v: &YamlValue) -> (r: Vec<String>)
    ensures
        r.deep_view() == hosts_of(yaml_view(*v)),
    decreases *v,
{
    match v {
        YamlValue::Mapping(entries) => {
            let ghost ev = yaml_entries_view(entries@);
            proof {
                lemma_yaml_entries_view_len(entries@);
            }
            let mut out: Vec<String> = Vec::new();
            let mut k: usize = 0;
            while k < entries.len() && !str_eq(entries[k].0.as_str(), "host")
                invariant
                    k <= entries.len(),
                    forall|j: int| 0 <= j < k ==> ev[j].0 != "host"@,
                decreases entries.len() - k,
            {
                proof {
                    lemma_yaml_entries_view_index(entries@, k as int);
                }
                k += 1;
            }
            proof {
                if k < entries.len() {
                    lemma_yaml_entries_view_index(entries@, k as int);
                }
                lemma_ylookup_skip(ev, "host"@, k as int);
                if k < entries.len() {
                    assert(ev.skip(k as int)[0] == ev[k as int]);
                    assert(ev.skip(k as int).len() > 0);
                } else {
                    assert(ev.skip(k as int) =~= Seq::<(Seq<char>, YamlValueV)>::empty());
                }
            }
            if k < entries.len() {
                match &entries[k].1 {
                    YamlValue::List(items) => {
                        let mut texts = collect_text_items(items);
                        out.append(&mut texts);
                    },
                    _ => {},
                }
            }
            proof {
                assert(out.deep_view() =~= host_array_of(ev));
            }
            // recurse into every entry's value
            let mut i: usize = 0;
            while i < entries.len()
                invariant
                    i <= entries.len(),
                    out.deep_view() == host_array_of(ev) + hosts_of_entries(ev.take(i as int)),
                decreases entries.len() - i,
            {
                proof {
                    lemma_yaml_entries_view_index(entries@, i as int);
                    assert(ev.take(i + 1).drop_last() =~= ev.take(i as int));
                    assert(ev.take(i + 1).last() == ev[i as int]);
                    assert(v is Mapping);
                    assert(v->Mapping_0 == *entries);
                    assert((i as int) < v->Mapping_0@.len());
                    assert(decreases_to!(*v => v->Mapping_0));
                    assert(decreases_to!(v->Mapping_0 => v->Mapping_0@));
                    assert(decreases_to!(v->Mapping_0@ => v->Mapping_0@[i as int]));
                    assert(decreases_to!(v->Mapping_0@[i as int] => v->Mapping_0@[i as int].1));
                    assert(decreases_to!(*v => entries@[i as int].1));
                }
                let mut sub = extract_hosts(&entries[i].1);
                let ghost prede = out.deep_view();
                let ghost subd = sub.deep_view();
                out.append(&mut sub);
                proof {
                    assert(out@.len() == prede.len() + subd.len());
                    assert forall|j: int| 0 <= j < out.deep_view().len() implies out.deep_view()[j]
                        == (prede + subd)[j] by {
                        assert(out.deep_view()[j] == out@[j].deep_view());
                    }
                    assert(out.deep_view() =~= prede + subd);
                    assert(out.deep_view() =~= host_array_of(ev) + hosts_of_entries(
                        ev.take(i + 1),
                    ));
                }
                i += 1;
            }
            proof {
                assert(ev.take(ev.len() as int) =~= ev);
            }
            out
        },
        YamlValue::List(items) => {
            let ghost iv = yaml_seq_view(items@);
            proof {
                lemma_yaml_seq_view_len(items@);
            }
            let mut out: Vec<String> = Vec::new();
            proof {
                assert(iv.take(0) =~= Seq::<YamlValueV>::empty());
                assert(out.deep_view() =~= hosts_of_items(iv.take(0)));
            }
            let mut i: usize = 0;
            while i < items.len()
                invariant
                    i <= items.len(),
                    out.deep_view() == hosts_of_items(iv.take(i as int)),
                decreases items.len() - i,
            {
                proof {
                    lemma_yaml_seq_view_index(items@, i as int);
                    assert(iv.take(i + 1).drop_last() =~= iv.take(i as int));
                    assert(iv.take(i + 1).last() == iv[i as int]);
                    assert(v is List);
                    assert(v->List_0 == *items);
                    assert((i as int) < v->List_0@.len());
                    assert(decreases_to!(*v => v->List_0));
                    assert(decreases_to!(v->List_0 => v->List_0@));
                    assert(decreases_to!(v->List_0@ => v->List_0@[i as int]));
                    assert(decreases_to!(*v => items@[i as int]));
                }
                let mut sub = extract_hosts(&items[i]);
                let ghost prede = out.deep_view();
                let ghost subd = sub.deep_view();
                out.append(&mut sub);
                proof {
                    assert(out@.len() == prede.len() + subd.len());
                    assert forall|j: int| 0 <= j < out.deep_view().len() implies out.deep_view()[j]
                        == (prede + subd)[j] by {
                        assert(out.deep_view()[j] == out@[j].deep_view());
                    }
                    assert(out.deep_view() =~= prede + subd);
                    assert(out.deep_view() =~= hosts_of_items(iv.take(i + 1)));
                }
                i += 1;
            }
            proof {
                assert(iv.take(iv.len() as int) =~= iv);
            }
            out
        },
        _ => {
            let r = Vec::new();
            proof {
                assert(r.deep_view() =~= Seq::<Seq<char>>::empty());
            }
            r
        },
    }
}

/// The hostnames the proxy currently routes, as a sorted set without
/// duplicates.
#[verifier::loop_isolation(false)]
pub fn active_domains(config: &YamlValue) -> (r: Vec<String>)
    ensures
        sorted_strict_str(r.deep_view()),
        forall|h: Seq<char>|
            r.deep_view().contains(h) <==> hosts_of(yaml_view(*config)).contains(h),
{
    let hosts = extract_hosts(config);
    let ghost all = hosts.deep_view();
    let mut out: Vec<String> = Vec::new();
    let mut i: usize = 0;
    while i < hosts.len()
        invariant
            i <= hosts.len(),
            all.len() == hosts@.len(),
            sorted_strict_str(out.deep_view()),
            forall|h: Seq<char>|
                out.deep_view().contains(h) <==> (exists|j: int| 0 <= j < i && all[j] == h),
        decreases hosts.len() - i,
    {
        proof {
            assert(all[i as int] == hosts@[i as int]@);
        }
        let ghost pre = out.deep_view();
        insert_sorted_string(&mut out, hosts[i].clone());
        proof {
            assert forall|h: Seq<char>| out.deep_view().contains(h) implies (exists|j: int|
                0 <= j < i + 1 && all[j] == h) by {
                if h != all[i as int] {
                    assert(pre.contains(h));
                }
            }
            assert forall|h: Seq<char>| (exists|j: int| 0 <= j < i + 1 && all[j] == h)
                 implies out.deep_view().contains(h) by {
                let j = choose|j: int| 0 <= j < i + 1 && all[j] == h;
                if j < i {
                    assert(pre.contains(h));
                }
            }
        }
        i += 1;
    }
    proof {
        assert forall|h: Seq<char>| all.contains(h) implies (exists|j: int|
            0 <= j < hosts@.len() && all[j] == h) by {}
    }
    out
}

} // verus!
