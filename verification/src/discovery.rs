use vstd::prelude::*;

use crate::sorted::insert_sorted_string;
use crate::sorted::sorted_strict_str;
use crate::strutil::after_last;
use crate::strutil::after_last_str;
use crate::strutil::contains_ci;
use crate::strutil::contains_seq;
use crate::strutil::ends_with_seq;
use crate::strutil::ends_with_str;
use crate::strutil::lower_seq;
use crate::strutil::starts_with_seq;
use crate::strutil::starts_with_str;

verus! {

// ---------------------------------------------------------------------------
// Which file names count as compose files
// ---------------------------------------------------------------------------

/// A compose file name: `compose*` or `docker-compose*` with a `.yml` or
/// `.yaml` extension.
pub open spec fn matches_compose_name(name: Seq<char>) -> bool {
    (starts_with_seq(name, "compose"@) || starts_with_seq(name, "docker-compose"@)) && (
    ends_with_seq(name, ".yml"@) || ends_with_seq(name, ".yaml"@))
}

/// A name kept away from discovery: its lowercase folding contains `prod`,
/// `staging`, or `production` — the safety policy against touching
/// production definitions. The folding is ASCII: a name that hides the
/// pattern behind non-ASCII case tricks is not excluded.
pub open spec fn is_excluded_name(name: Seq<char>) -> bool {
    contains_seq(lower_seq(name), "prod"@) || contains_seq(lower_seq(name), "staging"@)
        || contains_seq(lower_seq(name), "production"@)
}

/// The file-name part of a path.
pub open spec fn file_name_of(path: Seq<char>) -> Seq<char> {
    after_last(path, '/')
}

/// A path discovery keeps: a compose file name that is not excluded.
pub open spec fn discovered_path(path: Seq<char>) -> bool {
    matches_compose_name(file_name_of(path)) && !is_excluded_name(file_name_of(path))
}

/// Discovery never keeps a path whose file name contains `prod`, `staging`,
/// or `production`, case-insensitively, at any directory depth.
pub proof fn lemma_discovery_excludes(path: Seq<char>)
    requires
        is_excluded_name(file_name_of(path)),
    ensures
        !discovered_path(path),
{
}

/// Whether a file name counts as a compose file.
pub fn is_compose_file_name(name: &str) -> (r: bool)
    ensures
        r == matches_compose_name(name@),
{
    let prefix_ok = starts_with_str(name, "compose") || starts_with_str(name, "docker-compose");
    if !prefix_ok {
        return false;
    }
    ends_with_str(name, ".yml") || ends_with_str(name, ".yaml")
}

/// Whether a file name is excluded from discovery.
pub fn is_excluded_file_name(name: &str) -> (r: bool)
    ensures
        r == is_excluded_name(name@),
{
    contains_ci(name, "prod") || contains_ci(name, "staging") || contains_ci(name, "production")
}

/// Whether discovery keeps this path.
pub fn is_discovered_path(path: &str) -> (r: bool)
    ensures
        r == discovered_path(path@),
{
    let name = after_last_str(path, '/');
    if !is_compose_file_name(name) {
        return false;
    }
    !is_excluded_file_name(name)
}

// ---------------------------------------------------------------------------
// Filtering candidate paths
// ---------------------------------------------------------------------------

/// Keep the candidate paths that look like compose files and are not
/// excluded, as a sorted set without duplicates.
#[verifier::loop_isolation(false)]
pub fn filter_compose_paths(paths: &Vec<String>) -> (r: Vec<String>)
    ensures
        sorted_strict_str(r.deep_view()),
        forall|p: Seq<char>|
            r.deep_view().contains(p) <==> (paths.deep_view().contains(p) && discovered_path(p)),
{
    let mut out: Vec<String> = Vec::new();
    let mut i: usize = 0;
    while i < paths.len()
        invariant
            i <= paths.len(),
            paths.deep_view().len() == paths@.len(),
            sorted_strict_str(out.deep_view()),
            forall|p: Seq<char>|
                out.deep_view().contains(p) <==> (exists|j: int|
                    0 <= j < i && paths.deep_view()[j] == p && discovered_path(p)),
        decreases paths.len() - i,
    {
        proof {
            assert(paths.deep_view()[i as int] == paths@[i as int]@);
        }
        if is_discovered_path(paths[i].as_str()) {
            let ghost pre = out.deep_view();
            insert_sorted_string(&mut out, paths[i].clone());
            proof {
                assert forall|p: Seq<char>|
                    out.deep_view().contains(p) implies (exists|j: int|
                    0 <= j < i + 1 && paths.deep_view()[j] == p && discovered_path(p)) by {
                    if p == paths.deep_view()[i as int] {
                        assert(paths.deep_view()[i as int] == p && discovered_path(p));
                    } else {
                        assert(pre.contains(p));
                    }
                }
                assert forall|p: Seq<char>|
                    (exists|j: int| 0 <= j < i + 1 && paths.deep_view()[j] == p && discovered_path(p))
                     implies out.deep_view().contains(p) by {
                    let j = choose|j: int|
                        0 <= j < i + 1 && paths.deep_view()[j] == p && discovered_path(p);
                    if j < i {
                        assert(pre.contains(p));
                    }
                }
            }
        } else {
            proof {
                assert forall|p: Seq<char>|
                    (exists|j: int| 0 <= j < i + 1 && paths.deep_view()[j] == p && discovered_path(p))
                     implies out.deep_view().contains(p) by {
                    let j = choose|j: int|
                        0 <= j < i + 1 && paths.deep_view()[j] == p && discovered_path(p);
                    assert(j < i);
                }
            }
        }
        i += 1;
    }
    proof {
        assert forall|p: Seq<char>|
            (paths.deep_view().contains(p) && discovered_path(p)) implies (exists|j: int|
            0 <= j < paths@.len() && paths.deep_view()[j] == p && discovered_path(p)) by {
            let j = choose|j: int| 0 <= j < paths.deep_view().len() && paths.deep_view()[j] == p;
        }
    }
    out
}

} // verus!
