//! The resource that the path of a request names.

use vstd::prelude::*;
use vstd::string::*;

use crate::text::{keep_nonempty, nonempty, same, split, split_on, texts};

verus! {

/// A subresource of a Namespace. It stands where the resource of a path in a
/// namespace stands.
pub open spec fn namespace_subresource(s: Seq<char>) -> bool {
    s == "status"@ || s == "finalize"@
}

/// The resource in the segments of a path behind its version: the segment behind
/// `namespaces/<namespace>`, else the first one. In the core group a namespace has
/// subresources of its own.
pub open spec fn resource_segment(core: bool, rest: Seq<Seq<char>>) -> Option<Seq<char>> {
    if rest.len() == 0 {
        None
    } else if rest[0] == "namespaces"@ && rest.len() >= 3 && !(core && rest.len() == 3
        && namespace_subresource(rest[2])) {
        Some(rest[2])
    } else {
        Some(rest[0])
    }
}

/// The `apiVersion` and the resource that the segments of a path name.
pub open spec fn resource_in(segs: Seq<Seq<char>>) -> Option<(Seq<char>, Seq<char>)> {
    if segs.len() >= 2 && segs[0] == "api"@ {
        match resource_segment(true, segs.skip(2)) {
            Some(r) => Some((segs[1], r)),
            None => None,
        }
    } else if segs.len() >= 3 && segs[0] == "apis"@ {
        match resource_segment(false, segs.skip(3)) {
            Some(r) => Some((segs[1] + "/"@ + segs[2], r)),
            None => None,
        }
    } else {
        None
    }
}

/// The `apiVersion` and the resource that a path names.
pub open spec fn resource_of_path(path: Seq<char>) -> Option<(Seq<char>, Seq<char>)> {
    resource_in(nonempty(split(path, '/')))
}

fn segment_behind(segs: &Vec<String>, from: usize, core: bool) -> (r: Option<String>)
    requires
        from <= segs@.len(),
    ensures
        match r {
            Some(s) => resource_segment(core, texts(segs@).skip(from as int)) == Some(s@),
            None => resource_segment(core, texts(segs@).skip(from as int)) is None,
        },
{
    let ghost rest = texts(segs@).skip(from as int);
    let n: usize = segs.len() - from;
    assert(rest.len() == n);
    if n == 0 {
        return None;
    }
    assert(rest[0] == segs@[from as int]@);
    if n >= 3 && same(segs[from].as_str(), "namespaces") {
        let behind = segs[from + 2].as_str();
        assert(rest[2] == behind@);
        if !(core && n == 3 && (same(behind, "status") || same(behind, "finalize"))) {
            return Some(behind.to_owned());
        }
    }
    Some(segs[from].as_str().to_owned())
}

/// Finds the `apiVersion` and the resource that a path names.
pub fn path_resource(path: &str) -> (r: Option<(String, String)>)
    ensures
        match r {
            Some((v, res)) => resource_of_path(path@) == Some((v@, res@)),
            None => resource_of_path(path@) is None,
        },
{
    let segs = keep_nonempty(split_on(path, '/'));
    let ghost ss = texts(segs@);
    assert(ss.len() == segs@.len());
    if segs.len() < 2 {
        return None;
    }
    assert(ss[0] == segs@[0]@ && ss[1] == segs@[1]@);
    if same(segs[0].as_str(), "api") {
        return match segment_behind(&segs, 2, true) {
            Some(res) => Some((segs[1].as_str().to_owned(), res)),
            None => None,
        };
    }
    if segs.len() < 3 || !same(segs[0].as_str(), "apis") {
        return None;
    }
    assert(ss[2] == segs@[2]@);
    match segment_behind(&segs, 3, false) {
        Some(res) => {
            let version = segs[1].as_str().to_owned().concat("/").concat(segs[2].as_str());
            Some((version, res))
        },
        None => None,
    }
}

/// The name of an object does not count: a path names the same resource with it
/// and without it.
pub proof fn law_names_do_not_count(segs: Seq<Seq<char>>, namespace: Seq<char>, name: Seq<char>)
    requires
        segs.len() >= 1,
        segs[0] != "namespaces"@,
    ensures
        resource_segment(true, segs) == Some(segs[0]),
        resource_segment(true, seq!["namespaces"@, namespace].add(segs.push(name))) == Some(segs[0]),
        !namespace_subresource(segs[0]) ==> resource_segment(
            true,
            seq!["namespaces"@, namespace].add(segs),
        ) == Some(segs[0]),
        resource_segment(true, seq!["namespaces"@]) == Some("namespaces"@),
        resource_segment(true, seq!["namespaces"@, name]) == Some("namespaces"@),
        resource_segment(true, seq!["namespaces"@, name, "status"@]) == Some("namespaces"@),
{
    assert(seq!["namespaces"@, namespace].add(segs)[2] == segs[0]);
    assert(seq!["namespaces"@, namespace].add(segs.push(name))[2] == segs[0]);
}

/// The resource of a path is behind its version, or behind its namespace where it names one; a
/// part of a namespace is of the namespace.
pub proof fn law_where_a_path_names_its_resource(
    version: Seq<char>,
    group: Seq<char>,
    ns: Seq<char>,
    r: Seq<char>,
)
    requires
        r != "namespaces"@,
        !namespace_subresource(r),
    ensures
        resource_in(seq!["api"@, version, r]) == Some((version, r)),
        resource_in(seq!["api"@, version, "namespaces"@, ns]) == Some((version, "namespaces"@)),
        resource_in(seq!["api"@, version, "namespaces"@, ns, r]) == Some((version, r)),
        resource_in(seq!["api"@, version, "namespaces"@, ns, "status"@]) == Some(
            (version, "namespaces"@),
        ),
        resource_in(seq!["api"@, version, "namespaces"@, ns, "finalize"@]) == Some(
            (version, "namespaces"@),
        ),
        resource_in(seq!["apis"@, group, version, r]) == Some((group + "/"@ + version, r)),
        resource_in(seq!["apis"@, group, version, "namespaces"@, ns, r]) == Some(
            (group + "/"@ + version, r),
        ),
        resource_in(seq!["api"@, version]) is None,
        resource_in(seq!["apis"@, group, version]) is None,
{
    reveal_strlit("api");
    reveal_strlit("apis");
    assert("api"@.len() == 3);
    assert("apis"@.len() == 4);
    assert(seq!["api"@, version, r].skip(2) =~= seq![r]);
    assert(seq!["api"@, version, "namespaces"@, ns].skip(2) =~= seq!["namespaces"@, ns]);
    assert(seq!["api"@, version, "namespaces"@, ns, r].skip(2) =~= seq!["namespaces"@, ns, r]);
    assert(seq!["api"@, version, "namespaces"@, ns, "status"@].skip(2) =~= seq![
        "namespaces"@,
        ns,
        "status"@,
    ]);
    assert(seq!["api"@, version, "namespaces"@, ns, "finalize"@].skip(2) =~= seq![
        "namespaces"@,
        ns,
        "finalize"@,
    ]);
    assert(seq!["apis"@, group, version, r].skip(3) =~= seq![r]);
    assert(seq!["apis"@, group, version, "namespaces"@, ns, r].skip(3) =~= seq![
        "namespaces"@,
        ns,
        r,
    ]);
    assert(seq!["api"@, version].skip(2) =~= Seq::empty());
    assert(seq!["apis"@, group, version].skip(3) =~= Seq::empty());
}

} // verus!
