//! The `log` subresource of pods: which container is meant, where its kubelet
//! is, and what is asked of it.

use vstd::prelude::*;
use vstd::string::*;

use crate::apiserver::error::{err_bad_request, err_internal, err_not_found, ApiError, ErrorView};
use crate::apiserver::query::{last_param, last_value};
use crate::json::{items_of, str_tree, trees, Json, Tree};
use crate::outside::{form_pairs, pair_texts, query_pairs};
use crate::text::{has_text, join, join_with, opt_str, opt_text, same, texts};

verus! {

/// The names of some containers.
pub open spec fn names_in(items: Seq<Tree>) -> Seq<Seq<char>>
    decreases items.len(),
{
    if items.len() == 0 {
        Seq::empty()
    } else {
        let rest = names_in(items.drop_last());
        match items.last().at("name"@).text() {
            Some(n) => rest.push(n),
            None => rest,
        }
    }
}

/// The names of a pod's containers under a member of its spec.
pub open spec fn container_names(pod: Tree, field: Seq<char>) -> Seq<Seq<char>> {
    names_in(pod.at("spec"@).at(field).items_or_none())
}

/// The names of a pod's containers under a member of its spec.
pub fn container_names_of(pod: &Json, field: &str) -> (r: Vec<String>)
    ensures
        texts(r@) == container_names(pod@, field@),
{
    let mut out: Vec<String> = Vec::new();
    assert(texts(out@) =~= Seq::<Seq<char>>::empty());
    let a = match pod.at("spec").at(field) {
        Json::Array(a) => a,
        _ => {
            return out;
        },
    };
    let ghost ts = trees(a@);
    let mut i: usize = 0;
    while i < a.len()
        invariant
            i <= a.len(),
            ts == trees(a@),
            texts(out@) == names_in(ts.take(i as int)),
        decreases a.len() - i,
    {
        proof {
            assert(ts.take(i + 1).drop_last() =~= ts.take(i as int));
            assert(ts.take(i + 1).last() == a@[i as int]@);
        }
        let ghost was = texts(out@);
        match a[i].at("name").as_str() {
            Some(n) => {
                out.push(n.to_owned());
                assert(texts(out@) =~= was.push(n@));
            },
            None => {},
        }
        i = i + 1;
    }
    assert(ts.take(i as int) =~= ts);
    out
}

/// The refusal of a name that is none of the choices.
pub open spec fn err_no_container(
    name: Seq<char>,
    pod: Seq<char>,
    choices: Seq<Seq<char>>,
) -> ErrorView {
    err_bad_request(
        "container "@ + name + " is not valid for pod "@ + pod + "; choose one of ["@ + join(
            choices,
            ", "@,
        ) + "]"@,
    )
}

/// The refusal where a name is needed.
pub open spec fn err_container_needed(pod: Seq<char>, choices: Seq<Seq<char>>) -> ErrorView {
    err_bad_request(
        "a container name must be specified for pod "@ + pod + ", choose one of: ["@ + join(
            choices,
            ", "@,
        ) + "]"@,
    )
}

pub fn no_container(name: &str, pod: &str, choices: &Vec<String>) -> (r: ApiError)
    ensures
        r@ == err_no_container(name@, pod@, texts(choices@)),
{
    let list = join_with(choices, ", ");
    let m = "container ".to_owned().concat(name).concat(" is not valid for pod ").concat(
        pod,
    ).concat("; choose one of [").concat(list.as_str()).concat("]");
    ApiError::bad_request(m.as_str())
}

pub fn container_needed(pod: &str, choices: &Vec<String>) -> (r: ApiError)
    ensures
        r@ == err_container_needed(pod@, texts(choices@)),
{
    let list = join_with(choices, ", ");
    let m = "a container name must be specified for pod ".to_owned().concat(pod).concat(
        ", choose one of: [",
    ).concat(list.as_str()).concat("]");
    ApiError::bad_request(m.as_str())
}

/// Every container of a pod that a name may mean.
pub open spec fn log_choices(pod: Tree) -> Seq<Seq<char>> {
    container_names(pod, "containers"@) + container_names(pod, "initContainers"@)
        + container_names(pod, "ephemeralContainers"@)
}

/// The container whose log is meant: the one that is named, among all of the
/// pod's; without a name the only one of `spec.containers`.
pub open spec fn log_container(
    pod: Tree,
    asked: Option<Seq<char>>,
    pod_name: Seq<char>,
) -> Result<Seq<char>, ErrorView> {
    let containers = container_names(pod, "containers"@);
    match asked {
        Some(c) => if c.len() == 0 {
            only_container(containers, pod_name)
        } else if log_choices(pod).contains(c) {
            Ok(c)
        } else {
            Err(err_no_container(c, pod_name, log_choices(pod)))
        },
        None => only_container(containers, pod_name),
    }
}

/// The only container of a pod.
pub open spec fn only_container(containers: Seq<Seq<char>>, pod_name: Seq<char>) -> Result<
    Seq<char>,
    ErrorView,
> {
    if containers.len() == 1 {
        Ok(containers[0])
    } else {
        Err(err_container_needed(pod_name, containers))
    }
}

/// The only container of a pod.
pub fn take_only(containers: Vec<String>, pod_name: &str) -> (r: Result<String, ApiError>)
    ensures
        match r {
            Ok(c) => only_container(texts(containers@), pod_name@) == Ok::<Seq<char>, ErrorView>(
                c@,
            ),
            Err(e) => only_container(texts(containers@), pod_name@) == Err::<Seq<char>, ErrorView>(
                e@,
            ),
        },
{
    assert(texts(containers@).len() == containers@.len());
    if containers.len() == 1 {
        assert(texts(containers@)[0] == containers@[0]@);
        Ok(containers[0].clone())
    } else {
        Err(container_needed(pod_name, &containers))
    }
}

/// The container whose log is meant.
pub fn pick_container(pod: &Json, asked: Option<&str>, pod_name: &str) -> (r: Result<
    String,
    ApiError,
>)
    ensures
        match r {
            Ok(c) => log_container(pod@, opt_str(asked), pod_name@) == Ok::<Seq<char>, ErrorView>(
                c@,
            ),
            Err(e) => log_container(pod@, opt_str(asked), pod_name@) == Err::<
                Seq<char>,
                ErrorView,
            >(e@),
        },
{
    let containers = container_names_of(pod, "containers");
    let c = match asked {
        Some(c) => c,
        None => {
            return take_only(containers, pod_name);
        },
    };
    if c.unicode_len() == 0 {
        return take_only(containers, pod_name);
    }
    let mut all = containers;
    let mut init = container_names_of(pod, "initContainers");
    let mut ephemeral = container_names_of(pod, "ephemeralContainers");
    let ghost want = log_choices(pod@);
    all.append(&mut init);
    all.append(&mut ephemeral);
    assert(texts(all@) =~= want);
    if has_text(&all, c) {
        Ok(c.to_owned())
    } else {
        Err(no_container(c, pod_name, &all))
    }
}

// ---------------------------------------------------------------------------
// The node
// ---------------------------------------------------------------------------

/// The first address of a type.
pub open spec fn address_of_type(addresses: Seq<Tree>, kind: Seq<char>) -> Option<Tree>
    decreases addresses.len(),
{
    if addresses.len() == 0 {
        None
    } else if addresses[0].at("type"@) == Tree::String(kind) {
        Some(addresses[0])
    } else {
        address_of_type(addresses.skip(1), kind)
    }
}

/// The text of the first address of a type.
pub open spec fn address_text_of(addresses: Seq<Tree>, kind: Seq<char>) -> Option<Seq<char>> {
    match address_of_type(addresses, kind) {
        Some(a) => a.at("address"@).text(),
        None => None,
    }
}

/// The address under which a node is reached: its `InternalIP`, else its
/// `ExternalIP`, else its `Hostname`.
pub open spec fn address_of_node(node: Tree) -> Option<Seq<char>> {
    let addresses = node.at("status"@).at("addresses"@).items_or_none();
    match address_text_of(addresses, "InternalIP"@) {
        Some(a) => Some(a),
        None => match address_text_of(addresses, "ExternalIP"@) {
            Some(a) => Some(a),
            None => address_text_of(addresses, "Hostname"@),
        },
    }
}

fn find_address<'a>(addresses: &'a Vec<Json>, kind: &str) -> (r: Option<&'a str>)
    ensures
        opt_str(r) == address_text_of(trees(addresses@), kind@),
{
    let ghost ts = trees(addresses@);
    let mut i: usize = 0;
    assert(ts.skip(0) =~= ts);
    while i < addresses.len()
        invariant
            i <= addresses.len(),
            ts == trees(addresses@),
            address_of_type(ts, kind@) == address_of_type(ts.skip(i as int), kind@),
        decreases addresses.len() - i,
    {
        proof {
            assert(ts.skip(i as int)[0] == addresses@[i as int]@);
            assert(ts.skip(i as int).skip(1) =~= ts.skip(i + 1));
        }
        if addresses[i].at("type").is_text(kind) {
            return addresses[i].at("address").as_str();
        }
        i = i + 1;
    }
    None
}

/// The address under which a node is reached.
pub fn node_address(node: &Json) -> (r: Option<String>)
    ensures
        opt_text(r) == address_of_node(node@),
{
    let addresses = items_of(node.at("status").at("addresses"));
    match find_address(&addresses, "InternalIP") {
        Some(a) => {
            return Some(a.to_owned());
        },
        None => {},
    }
    match find_address(&addresses, "ExternalIP") {
        Some(a) => {
            return Some(a.to_owned());
        },
        None => {},
    }
    match find_address(&addresses, "Hostname") {
        Some(a) => Some(a.to_owned()),
        None => None,
    }
}

/// The refusal of a pod that is on no node.
pub open spec fn err_unassigned(namespace: Seq<char>, name: Seq<char>) -> ErrorView {
    err_bad_request(
        "pod "@ + namespace + "/"@ + name + " is not assigned to a node yet"@,
    )
}

/// The node that a pod is on.
pub fn assigned_node(pod: &Json, namespace: &str, name: &str) -> (r: Result<String, ApiError>)
    ensures
        match r {
            Ok(n) => pod@.at("spec"@).at("nodeName"@).some_text() == Some(n@),
            Err(e) => pod@.at("spec"@).at("nodeName"@).some_text() is None && e@ == err_unassigned(
                namespace@,
                name@,
            ),
        },
{
    match pod.at("spec").at("nodeName").some_str() {
        Some(n) => Ok(n.to_owned()),
        None => {
            let m = "pod ".to_owned().concat(namespace).concat("/").concat(name).concat(
                " is not assigned to a node yet",
            );
            Err(ApiError::bad_request(m.as_str()))
        },
    }
}

/// The address of a node that was read, or that it has none.
pub fn reachable(node: Option<&Json>, node_name: &str) -> (r: Result<String, ApiError>)
    ensures
        ({
            let want = match node {
                Some(n) => address_of_node(n@),
                None => None,
            };
            match r {
                Ok(a) => want == Some(a@),
                Err(e) => want is None && e@ == err_internal(
                    "no usable address for node "@ + node_name@,
                ),
            }
        }),
{
    match node {
        Some(n) => match node_address(n) {
            Some(a) => {
                return Ok(a);
            },
            None => {},
        },
        None => {},
    }
    let m = "no usable address for node ".to_owned().concat(node_name);
    Err(ApiError::internal(m.as_str()))
}

// ---------------------------------------------------------------------------
// The request to the kubelet
// ---------------------------------------------------------------------------

/// The options that are handed on.
pub open spec fn log_options() -> Seq<Seq<char>> {
    Seq::empty().push("tailLines"@).push("sinceSeconds"@).push("sinceTime"@).push(
        "timestamps"@,
    ).push("previous"@).push("follow"@).push("limitBytes"@)
}

/// The parameters among some options that a request gives.
pub open spec fn given(pairs: Seq<(Seq<char>, Seq<char>)>, options: Seq<Seq<char>>) -> Seq<
    Seq<char>,
>
    decreases options.len(),
{
    if options.len() == 0 {
        Seq::empty()
    } else {
        let rest = given(pairs, options.drop_last());
        match last_value(pairs, options.last()) {
            Some(v) => rest.push(options.last() + "="@ + v),
            None => rest,
        }
    }
}

/// The address at the kubelet of a container's log.
pub open spec fn log_location(
    addr: Seq<char>,
    namespace: Seq<char>,
    name: Seq<char>,
    container: Seq<char>,
    pairs: Seq<(Seq<char>, Seq<char>)>,
) -> Seq<char> {
    let options = given(pairs, log_options());
    "https://"@ + addr + ":10250/containerLogs/"@ + namespace + "/"@ + name + "/"@ + container + (
    if options.len() == 0 {
        ""@
    } else {
        "?"@ + join(options, "&"@)
    })
}

fn add_option(out: &mut Vec<String>, pairs: &Vec<(String, String)>, option: &str)
    ensures
        texts(final(out)@) == (match last_value(pair_texts(pairs@), option@) {
            Some(v) => texts(old(out)@).push(option@ + "="@ + v),
            None => texts(old(out)@),
        }),
{
    let ghost was = texts(out@);
    match last_param(pairs, option) {
        Some(v) => {
            let s = option.to_owned().concat("=").concat(v);
            let ghost sv = s@;
            out.push(s);
            assert(texts(out@) =~= was.push(sv));
        },
        None => {},
    }
}

proof fn lemma_given_push(
    pairs: Seq<(Seq<char>, Seq<char>)>,
    options: Seq<Seq<char>>,
    option: Seq<char>,
)
    ensures
        given(pairs, options.push(option)) == (match last_value(pairs, option) {
            Some(v) => given(pairs, options).push(option + "="@ + v),
            None => given(pairs, options),
        }),
{
    assert(options.push(option).drop_last() =~= options);
}

/// The address at the kubelet of a container's log, with the options that the
/// client gave. The container is in the path.
pub fn log_url(
    addr: &str,
    namespace: &str,
    name: &str,
    container: &str,
    pairs: &Vec<(String, String)>,
) -> (r: String)
    ensures
        r@ == log_location(addr@, namespace@, name@, container@, pair_texts(pairs@)),
{
    let mut out: Vec<String> = Vec::new();
    let ghost ps = pair_texts(pairs@);
    proof {
        assert(texts(out@) =~= Seq::<Seq<char>>::empty());
        let o0 = Seq::<Seq<char>>::empty();
        let o1 = o0.push("tailLines"@);
        let o2 = o1.push("sinceSeconds"@);
        let o3 = o2.push("sinceTime"@);
        let o4 = o3.push("timestamps"@);
        let o5 = o4.push("previous"@);
        let o6 = o5.push("follow"@);
        lemma_given_push(ps, o0, "tailLines"@);
        lemma_given_push(ps, o1, "sinceSeconds"@);
        lemma_given_push(ps, o2, "sinceTime"@);
        lemma_given_push(ps, o3, "timestamps"@);
        lemma_given_push(ps, o4, "previous"@);
        lemma_given_push(ps, o5, "follow"@);
        lemma_given_push(ps, o6, "limitBytes"@);
    }
    add_option(&mut out, pairs, "tailLines");
    add_option(&mut out, pairs, "sinceSeconds");
    add_option(&mut out, pairs, "sinceTime");
    add_option(&mut out, pairs, "timestamps");
    add_option(&mut out, pairs, "previous");
    add_option(&mut out, pairs, "follow");
    add_option(&mut out, pairs, "limitBytes");
    assert(texts(out@) == given(ps, log_options()));
    assert(texts(out@).len() == out@.len());
    let query = if out.len() == 0 {
        "".to_owned()
    } else {
        "?".to_owned().concat(join_with(&out, "&").as_str())
    };
    "https://".to_owned().concat(addr).concat(":10250/containerLogs/").concat(namespace).concat(
        "/",
    ).concat(name).concat("/").concat(container).concat(query.as_str())
}

/// The client follows the log: the answer has no end, and the request no limit of
/// time.
pub open spec fn follows(pairs: Seq<(Seq<char>, Seq<char>)>) -> bool {
    last_value(pairs, "follow"@) == Some("true"@) || last_value(pairs, "follow"@) == Some("1"@)
}

/// The client follows the log.
pub fn following(pairs: &Vec<(String, String)>) -> (r: bool)
    ensures
        r == follows(pair_texts(pairs@)),
{
    match last_param(pairs, "follow") {
        Some(v) => same(v, "true") || same(v, "1"),
        None => false,
    }
}

/// What a request for a log asks of a pod: the container and the node.
pub fn pod_logs(pod: Option<&Json>, namespace: &str, name: &str, query: &str) -> (r: Result<
    (String, String),
    ApiError,
>)
    ensures
        ({
            let asked = last_value(form_pairs(query@), "container"@);
            match pod {
                None => r is Err && r->Err_0@ == err_not_found("pods"@, name@),
                Some(p) => match log_container(p@, asked, name@) {
                    Err(e) => r is Err && r->Err_0@ == e,
                    Ok(c) => match p@.at("spec"@).at("nodeName"@).some_text() {
                        None => r is Err && r->Err_0@ == err_unassigned(namespace@, name@),
                        Some(n) => r is Ok && r->Ok_0.0@ == c && r->Ok_0.1@ == n,
                    },
                },
            }
        }),
{
    let p = match pod {
        Some(p) => p,
        None => {
            return Err(ApiError::not_found("pods", name));
        },
    };
    let pairs = query_pairs(query);
    let container = match pick_container(p, last_param(&pairs, "container"), name) {
        Ok(c) => c,
        Err(e) => {
            return Err(e);
        },
    };
    match assigned_node(p, namespace, name) {
        Ok(node) => Ok((container, node)),
        Err(e) => Err(e),
    }
}

/// The address of a container's log at the kubelet of a node, for a query string.
pub fn log_request(
    node: Option<&Json>,
    node_name: &str,
    namespace: &str,
    name: &str,
    container: &str,
    query: &str,
) -> (r: Result<(String, bool), ApiError>)
    ensures
        ({
            let want = match node {
                Some(n) => address_of_node(n@),
                None => None,
            };
            match r {
                Ok(l) => want is Some && l.0@ == log_location(
                    want->0,
                    namespace@,
                    name@,
                    container@,
                    form_pairs(query@),
                ) && l.1 == follows(form_pairs(query@)),
                Err(e) => want is None && e@ == err_internal(
                    "no usable address for node "@ + node_name@,
                ),
            }
        }),
{
    let addr = match reachable(node, node_name) {
        Ok(a) => a,
        Err(e) => {
            return Err(e);
        },
    };
    let pairs = query_pairs(query);
    Ok((log_url(addr.as_str(), namespace, name, container, &pairs), following(&pairs)))
}

/// The names of containers are those that they say.
pub proof fn law_a_container_is_named(items: Seq<Tree>, name: Seq<char>)
    ensures
        names_in(items).contains(name) <==> exists|i: int|
            0 <= i < items.len() && (#[trigger] items[i]).at("name"@) == Tree::String(name),
        names_in(items).len() <= items.len(),
    decreases items.len(),
{
    if items.len() > 0 {
        let rest = items.drop_last();
        law_a_container_is_named(rest, name);
        assert(items[items.len() - 1] == items.last());
        assert(forall|i: int| 0 <= i < rest.len() ==> #[trigger] rest[i] == items[i]);
        let most = names_in(rest);
        let all = names_in(items);
        if most.contains(name) {
            let k = most.index_of(name);
            assert(all[k] == name);
            let i = choose|i: int|
                0 <= i < rest.len() && (#[trigger] rest[i]).at("name"@) == Tree::String(name);
            assert(items[i].at("name"@) == Tree::String(name));
        }
        if items.last().at("name"@) == Tree::String(name) {
            assert(all[most.len() as int] == name);
        }
        if all.contains(name) && !most.contains(name) {
            let k = all.index_of(name);
            if k < most.len() {
                assert(most[k] == name);
            }
        }
        if exists|i: int|
            0 <= i < items.len() && (#[trigger] items[i]).at("name"@) == Tree::String(name) {
            let i = choose|i: int|
                0 <= i < items.len() && (#[trigger] items[i]).at("name"@) == Tree::String(name);
            if i < rest.len() {
                assert(rest[i].at("name"@) == Tree::String(name));
            }
        }
    }
}

/// The logs are those of the container that is asked for, of whichever sort, and of no other;
/// where none is asked for, of the only one.
pub proof fn law_the_logs_are_of_the_container_asked_for(
    pod: Tree,
    c: Seq<char>,
    pod_name: Seq<char>,
)
    requires
        c.len() > 0,
    ensures
        ({
            let named = |field: Seq<char>|
                exists|i: int|
                    0 <= i < pod.at("spec"@).at(field).items_or_none().len() && (
                    #[trigger] pod.at("spec"@).at(field).items_or_none()[i]).at("name"@)
                        == Tree::String(c);
            let r = log_container(pod, Some(c), pod_name);
            &&& named("containers"@) || named("initContainers"@) || named("ephemeralContainers"@)
                ==> r == Ok::<Seq<char>, ErrorView>(c)
            &&& !named("containers"@) && !named("initContainers"@) && !named(
                "ephemeralContainers"@,
            ) ==> r is Err && r->Err_0.status == 400
        }),
        container_names(pod, "containers"@) == seq![c] ==> log_container(pod, None, pod_name)
            == Ok::<Seq<char>, ErrorView>(c),
        container_names(pod, "containers"@).len() != 1 ==> log_container(pod, None, pod_name)
            is Err && log_container(pod, None, pod_name)->Err_0.status == 400,
{
    law_a_container_is_named(pod.at("spec"@).at("containers"@).items_or_none(), c);
    law_a_container_is_named(pod.at("spec"@).at("initContainers"@).items_or_none(), c);
    law_a_container_is_named(pod.at("spec"@).at("ephemeralContainers"@).items_or_none(), c);
    let a = container_names(pod, "containers"@);
    let b = container_names(pod, "initContainers"@);
    let e = container_names(pod, "ephemeralContainers"@);
    let all = log_choices(pod);
    if a.contains(c) {
        let k = a.index_of(c);
        assert(all[k] == c);
    }
    if b.contains(c) {
        let k = b.index_of(c);
        assert(all[a.len() + k] == c);
    }
    if e.contains(c) {
        let k = e.index_of(c);
        assert(all[a.len() + b.len() + k] == c);
    }
    if all.contains(c) {
        let k = all.index_of(c);
        if k < a.len() {
            assert(a[k] == c);
        } else if k < a.len() + b.len() {
            assert(b[k - a.len()] == c);
        } else {
            assert(e[k - a.len() - b.len()] == c);
        }
    }
}

proof fn lemma_first_of_type(addresses: Seq<Tree>, kind: Seq<char>)
    ensures
        address_of_type(addresses, kind) is None <==> forall|i: int|
            0 <= i < addresses.len() ==> (#[trigger] addresses[i]).at("type"@) != Tree::String(kind),
        address_of_type(addresses, kind) is Some ==> addresses.contains(
            address_of_type(addresses, kind)->0,
        ) && address_of_type(addresses, kind)->0.at("type"@) == Tree::String(kind),
    decreases addresses.len(),
{
    if addresses.len() > 0 {
        let rest = addresses.skip(1);
        lemma_first_of_type(rest, kind);
        if addresses[0].at("type"@) != Tree::String(kind) {
            assert(forall|i: int| 0 <= i < rest.len() ==> #[trigger] rest[i] == addresses[i + 1]);
            assert(forall|i: int|
                1 <= i < addresses.len() ==> #[trigger] addresses[i] == rest[i - 1]);
            if address_of_type(rest, kind) is Some {
                let k = rest.index_of(address_of_type(rest, kind)->0);
                assert(addresses[k + 1] == address_of_type(rest, kind)->0);
            }
        }
    }
}

/// A node is reached by an address that it has: one from within goes before one from without,
/// and that before its name.
pub proof fn law_a_node_is_reached_from_within_first(node: Tree, i: int)
    requires
        0 <= i < node.at("status"@).at("addresses"@).items_or_none().len(),
        forall|k: int|
            0 <= k < node.at("status"@).at("addresses"@).items_or_none().len() ==> (
            #[trigger] node.at("status"@).at("addresses"@).items_or_none()[k]).at("address"@)
                is String,
    ensures
        ({
            let all = node.at("status"@).at("addresses"@).items_or_none();
            let r = address_of_node(node);
            let of = |kind: Seq<char>|
                exists|k: int|
                    0 <= k < all.len() && (#[trigger] all[k]).at("type"@) == Tree::String(kind)
                        && all[k].at("address"@) == Tree::String(r->0);
            let none = |kind: Seq<char>|
                forall|k: int|
                    0 <= k < all.len() ==> (#[trigger] all[k]).at("type"@) != Tree::String(kind);
            &&& all[i].at("type"@) == str_tree("InternalIP") ==> r is Some && of("InternalIP"@)
            &&& none("InternalIP"@) && all[i].at("type"@) == str_tree("ExternalIP") ==> r is Some
                && of("ExternalIP"@)
            &&& none("InternalIP"@) && none("ExternalIP"@) && all[i].at("type"@) == str_tree(
                "Hostname",
            ) ==> r is Some && of("Hostname"@)
            &&& none("InternalIP"@) && none("ExternalIP"@) && none("Hostname"@) ==> r is None
        }),
{
    let all = node.at("status"@).at("addresses"@).items_or_none();
    lemma_first_of_type(all, "InternalIP"@);
    lemma_first_of_type(all, "ExternalIP"@);
    lemma_first_of_type(all, "Hostname"@);
    if address_of_type(all, "InternalIP"@) is Some {
        let k = all.index_of(address_of_type(all, "InternalIP"@)->0);
        assert(all[k].at("address"@) is String);
    } else if address_of_type(all, "ExternalIP"@) is Some {
        let k = all.index_of(address_of_type(all, "ExternalIP"@)->0);
        assert(all[k].at("address"@) is String);
    } else if address_of_type(all, "Hostname"@) is Some {
        let k = all.index_of(address_of_type(all, "Hostname"@)->0);
        assert(all[k].at("address"@) is String);
    }
}

/// The logs go on where the last word on it says so.
pub proof fn law_logs_follow_where_asked(pairs: Seq<(Seq<char>, Seq<char>)>, v: Seq<char>)
    ensures
        follows(pairs.push(("follow"@, v))) <==> v == "true"@ || v == "1"@,
        !follows(Seq::empty()),
{
    assert(pairs.push(("follow"@, v)).last() == ("follow"@, v));
}

/// An option that is given for the logs is handed on as it is, and what is not one is not.
pub proof fn law_log_options_are_handed_on(
    pairs: Seq<(Seq<char>, Seq<char>)>,
    options: Seq<Seq<char>>,
    option: Seq<char>,
)
    ensures
        options.contains(option) && last_value(pairs, option) is Some ==> given(
            pairs,
            options,
        ).contains(option + "="@ + last_value(pairs, option)->0),
        given(pairs, options).len() <= options.len(),
        forall|k: int|
            0 <= k < given(pairs, options).len() ==> exists|i: int|
                0 <= i < options.len() && last_value(pairs, #[trigger] options[i]) is Some
                    && #[trigger] given(pairs, options)[k] == options[i] + "="@ + last_value(
                    pairs,
                    options[i],
                )->0,
    decreases options.len(),
{
    if options.len() > 0 {
        let rest = options.drop_last();
        law_log_options_are_handed_on(pairs, rest, option);
        let most = given(pairs, rest);
        let all = given(pairs, options);
        assert(options[options.len() - 1] == options.last());
        if options.contains(option) && last_value(pairs, option) is Some {
            let want = option + "="@ + last_value(pairs, option)->0;
            let i = options.index_of(option);
            if i < rest.len() {
                assert(rest[i] == option);
                let k = most.index_of(want);
                assert(all[k] == want);
            } else {
                assert(all[most.len() as int] == want);
            }
        }
        assert forall|k: int| 0 <= k < all.len() implies exists|i: int|
            0 <= i < options.len() && last_value(pairs, #[trigger] options[i]) is Some
                && #[trigger] all[k] == options[i] + "="@ + last_value(pairs, options[i])->0 by {
            if k < most.len() {
                assert(most[k] == all[k]);
                let i = choose|i: int|
                    0 <= i < rest.len() && last_value(pairs, #[trigger] rest[i]) is Some && most[k]
                        == rest[i] + "="@ + last_value(pairs, rest[i])->0;
                assert(options[i] == rest[i]);
            } else {
                assert(last_value(pairs, options[options.len() - 1]) is Some);
            }
        }
    }
}

/// These are the options of the logs.
pub proof fn law_the_options_of_the_logs(
    addr: Seq<char>,
    namespace: Seq<char>,
    name: Seq<char>,
    container: Seq<char>,
)
    ensures
        log_options() == seq![
            "tailLines"@,
            "sinceSeconds"@,
            "sinceTime"@,
            "timestamps"@,
            "previous"@,
            "follow"@,
            "limitBytes"@,
        ],
        log_location(addr, namespace, name, container, Seq::empty()) == "https://"@ + addr
            + ":10250/containerLogs/"@ + namespace + "/"@ + name + "/"@ + container,
{
    assert(log_options() =~= seq![
        "tailLines"@,
        "sinceSeconds"@,
        "sinceTime"@,
        "timestamps"@,
        "previous"@,
        "follow"@,
        "limitBytes"@,
    ]);
    lemma_none_given(log_options());
    reveal_strlit("");
    let base = "https://"@ + addr + ":10250/containerLogs/"@ + namespace + "/"@ + name + "/"@
        + container;
    assert(base + ""@ =~= base);
}

proof fn lemma_none_given(options: Seq<Seq<char>>)
    ensures
        given(Seq::empty(), options).len() == 0,
    decreases options.len(),
{
    if options.len() > 0 {
        lemma_none_given(options.drop_last());
    }
}

/// The options of the logs stand behind the location, each apart from the others.
pub proof fn law_options_stand_behind_the_location(
    addr: Seq<char>,
    namespace: Seq<char>,
    name: Seq<char>,
    container: Seq<char>,
    pairs: Seq<(Seq<char>, Seq<char>)>,
)
    requires
        given(pairs, log_options()).len() > 0,
    ensures
        log_location(addr, namespace, name, container, pairs) == log_location(
            addr,
            namespace,
            name,
            container,
            Seq::empty(),
        ) + "?"@ + join(given(pairs, log_options()), "&"@),
{
    law_the_options_of_the_logs(addr, namespace, name, container);
    let base = "https://"@ + addr + ":10250/containerLogs/"@ + namespace + "/"@ + name + "/"@
        + container;
    let options = join(given(pairs, log_options()), "&"@);
    assert(base + ("?"@ + options) =~= base + "?"@ + options);
}

} // verus!
