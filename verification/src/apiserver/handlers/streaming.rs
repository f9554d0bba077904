//! `exec`, `attach` and `portforward`: the upgrade that is asked of the kubelet,
//! and what it answers.
//!
//! The proxy is transparent but for the query: the kubelet spells the options of
//! a session in its own way.

use vstd::prelude::*;
use vstd::string::*;

use crate::apiserver::error::{err_not_found, ApiError, ErrorView};
use crate::apiserver::handlers::logs::{
    assigned_node, container_names, container_names_of, err_no_container, err_unassigned,
    law_a_container_is_named, no_container, only_container, take_only,
};
use crate::apiserver::query::{first_param, first_value};
use crate::decimal::{
    dec, digit_of, law_numeral_reads_back, law_signs, parse_u64, parse_unsigned, unsigned,
};
use crate::json::{opt_tree, Json, Tree};
use crate::outside::{
    form_encoded, form_pairs, header_name, header_value, is_header_value, is_server_name,
    lossy_text, pair_texts, query_encode, query_pairs, read_header_name, server_name,
    text_of_bytes,
};
use crate::text::{
    find, find_from, has_prefix, has_suffix, has_text, is_white, join, join_with, keep_nonempty,
    law_the_ends_of_a_text, law_words_are_apart_by_white_space, lemma_find_from, lemma_split_whole,
    nonempty, opt_str, opt_text, same, split, split_at_first, split_on, split_once, texts, trim, trim_front, trimmed_text, words,
    words_of,
};

verus! {

/// The kubelet's port.
pub const KUBELET_PORT: u16 = 10250;

/// The longest head of an answer that is read.
pub const MAX_HEAD: usize = 65536;

// ---------------------------------------------------------------------------
// The container
// ---------------------------------------------------------------------------

/// The container that a session is for: the one that is named, among the pod's
/// containers and its ephemeral ones; without a name the only one.
pub open spec fn session_container(
    pod: Tree,
    asked: Option<Seq<char>>,
    pod_name: Seq<char>,
) -> Result<Seq<char>, ErrorView> {
    let containers = container_names(pod, "containers"@);
    match asked {
        Some(c) => if c.len() == 0 {
            only_container(containers, pod_name)
        } else if containers.contains(c) || container_names(
            pod,
            "ephemeralContainers"@,
        ).contains(c) {
            Ok(c)
        } else {
            Err(err_no_container(c, pod_name, containers))
        },
        None => only_container(containers, pod_name),
    }
}

/// The container that a session is for, given the name that is asked for.
pub fn container_for(pod: &Json, asked: Option<&str>, pod_name: &str) -> (r: Result<
    String,
    ApiError,
>)
    ensures
        match r {
            Ok(c) => session_container(pod@, opt_str(asked), pod_name@) == Ok::<
                Seq<char>,
                ErrorView,
            >(c@),
            Err(e) => session_container(pod@, opt_str(asked), pod_name@) == Err::<
                Seq<char>,
                ErrorView,
            >(e@),
        },
{
    let containers = container_names_of(pod, "containers");
    let c = match asked {
        Some(c) => c,
        None => {
            return take_only(containers, pod_name);
        },
    };
    if c.unicode_len() == 0 {
        return take_only(containers, pod_name);
    }
    if has_text(&containers, c) || has_text(
        &container_names_of(pod, "ephemeralContainers"),
        c,
    ) {
        Ok(c.to_owned())
    } else {
        Err(no_container(c, pod_name, &containers))
    }
}

/// The container that a session is for, by its query string.
pub fn pick_container(pod: &Json, query: &str, pod_name: &str) -> (r: Result<String, ApiError>)
    ensures
        ({
            let want = session_container(
                pod@,
                first_value(form_pairs(query@), "container"@),
                pod_name@,
            );
            match r {
                Ok(c) => want == Ok::<Seq<char>, ErrorView>(c@),
                Err(e) => want == Err::<Seq<char>, ErrorView>(e@),
            }
        }),
{
    let pairs = query_pairs(query);
    container_for(pod, first_param(&pairs, "container"), pod_name)
}

// ---------------------------------------------------------------------------
// The query
// ---------------------------------------------------------------------------

/// An option is on.
pub open spec fn is_on(v: Seq<char>) -> bool {
    v == "1"@ || v == "true"@ || v == "True"@
}

/// An option of a session as the kubelet spells it.
pub open spec fn kubelet_option(k: Seq<char>, v: Seq<char>, with_command: bool) -> Option<
    Seq<char>,
> {
    if (k == "stdin"@ || k == "input"@) && is_on(v) {
        Some("input=1"@)
    } else if (k == "stdout"@ || k == "output"@) && is_on(v) {
        Some("output=1"@)
    } else if (k == "stderr"@ || k == "error"@) && is_on(v) {
        Some("error=1"@)
    } else if k == "tty"@ && is_on(v) {
        Some("tty=1"@)
    } else if k == "command"@ && with_command {
        Some("command="@ + form_encoded(v))
    } else {
        None
    }
}

/// The options of a session as the kubelet spells them, in their order.
pub open spec fn kubelet_options(pairs: Seq<(Seq<char>, Seq<char>)>, with_command: bool) -> Seq<
    Seq<char>,
>
    decreases pairs.len(),
{
    if pairs.len() == 0 {
        Seq::empty()
    } else {
        let rest = kubelet_options(pairs.drop_last(), with_command);
        match kubelet_option(pairs.last().0, pairs.last().1, with_command) {
            Some(o) => rest.push(o),
            None => rest,
        }
    }
}

fn spell_option(k: &str, v: &str, with_command: bool) -> (r: Option<String>)
    ensures
        opt_text(r) == kubelet_option(k@, v@, with_command),
{
    let on = same(v, "1") || same(v, "true") || same(v, "True");
    if (same(k, "stdin") || same(k, "input")) && on {
        Some("input=1".to_owned())
    } else if (same(k, "stdout") || same(k, "output")) && on {
        Some("output=1".to_owned())
    } else if (same(k, "stderr") || same(k, "error")) && on {
        Some("error=1".to_owned())
    } else if same(k, "tty") && on {
        Some("tty=1".to_owned())
    } else if same(k, "command") && with_command {
        Some("command=".to_owned().concat(query_encode(v).as_str()))
    } else {
        None
    }
}

/// The kubelet's query for decoded parameters.
pub fn stream_options(pairs: &Vec<(String, String)>, with_command: bool) -> (r: String)
    ensures
        r@ == join(kubelet_options(pair_texts(pairs@), with_command), "&"@),
{
    let mut out: Vec<String> = Vec::new();
    let ghost ps = pair_texts(pairs@);
    assert(texts(out@) =~= Seq::<Seq<char>>::empty());
    let mut i: usize = 0;
    while i < pairs.len()
        invariant
            i <= pairs.len(),
            ps == pair_texts(pairs@),
            texts(out@) == kubelet_options(ps.take(i as int), with_command),
        decreases pairs.len() - i,
    {
        proof {
            assert(ps.take(i + 1).drop_last() =~= ps.take(i as int));
            assert(ps.take(i + 1).last() == ps[i as int]);
        }
        let ghost was = texts(out@);
        match spell_option(pairs[i].0.as_str(), pairs[i].1.as_str(), with_command) {
            Some(o) => {
                let ghost ov = o@;
                out.push(o);
                assert(texts(out@) =~= was.push(ov));
            },
            None => {},
        }
        i = i + 1;
    }
    assert(ps.take(i as int) =~= ps);
    join_with(&out, "&")
}

/// The kubelet's query for a session: `stdin` is `input` there, `stdout` is
/// `output` and `stderr` is `error`; a command keeps its order.
pub fn stream_query(query: &str, with_command: bool) -> (r: String)
    ensures
        r@ == join(kubelet_options(form_pairs(query@), with_command), "&"@),
{
    let pairs = query_pairs(query);
    stream_options(&pairs, with_command)
}

/// Parameters for some ports.
pub open spec fn port_params(ports: Seq<Seq<char>>) -> Seq<Seq<char>> {
    ports.map_values(|p: Seq<char>| "port="@ + form_encoded(p))
}

/// The ports of a query, one parameter each.
pub open spec fn kubelet_ports(pairs: Seq<(Seq<char>, Seq<char>)>) -> Seq<Seq<char>>
    decreases pairs.len(),
{
    if pairs.len() == 0 {
        Seq::empty()
    } else {
        let rest = kubelet_ports(pairs.drop_last());
        if pairs.last().0 == "ports"@ || pairs.last().0 == "port"@ {
            rest + port_params(nonempty(split(pairs.last().1, ',')))
        } else {
            rest
        }
    }
}

fn add_ports(out: &mut Vec<String>, list: &str)
    ensures
        texts(final(out)@) == texts(old(out)@) + port_params(nonempty(split(list@, ','))),
{
    let parts = keep_nonempty(split_on(list, ','));
    let ghost was = texts(out@);
    let ghost ps = texts(parts@);
    let mut i: usize = 0;
    assert(port_params(ps.take(0)) =~= Seq::<Seq<char>>::empty());
    assert(texts(out@) =~= was + port_params(ps.take(0)));
    while i < parts.len()
        invariant
            i <= parts.len(),
            ps == texts(parts@),
            texts(out@) == was + port_params(ps.take(i as int)),
        decreases parts.len() - i,
    {
        let ghost before = texts(out@);
        let p = "port=".to_owned().concat(query_encode(parts[i].as_str()).as_str());
        let ghost pv = p@;
        out.push(p);
        proof {
            assert(texts(out@) =~= before.push(pv));
            assert(ps.take(i + 1) =~= ps.take(i as int).push(ps[i as int]));
            assert(port_params(ps.take(i + 1)) =~= port_params(ps.take(i as int)).push(pv));
            assert(texts(out@) =~= was + port_params(ps.take(i + 1)));
        }
        i = i + 1;
    }
    assert(ps.take(i as int) =~= ps);
}

/// The kubelet's query for decoded parameters of a port forward.
pub fn port_options(pairs: &Vec<(String, String)>) -> (r: String)
    ensures
        r@ == join(kubelet_ports(pair_texts(pairs@)), "&"@),
{
    let mut out: Vec<String> = Vec::new();
    let ghost ps = pair_texts(pairs@);
    assert(texts(out@) =~= Seq::<Seq<char>>::empty());
    let mut i: usize = 0;
    while i < pairs.len()
        invariant
            i <= pairs.len(),
            ps == pair_texts(pairs@),
            texts(out@) == kubelet_ports(ps.take(i as int)),
        decreases pairs.len() - i,
    {
        proof {
            assert(ps.take(i + 1).drop_last() =~= ps.take(i as int));
            assert(ps.take(i + 1).last() == ps[i as int]);
        }
        if same(pairs[i].0.as_str(), "ports") || same(pairs[i].0.as_str(), "port") {
            add_ports(&mut out, pairs[i].1.as_str());
        }
        i = i + 1;
    }
    assert(ps.take(i as int) =~= ps);
    join_with(&out, "&")
}

/// The kubelet's query for a port forward: `ports=8080,9090` becomes
/// `port=8080&port=9090`.
pub fn portforward_query(query: &str) -> (r: String)
    ensures
        r@ == join(kubelet_ports(form_pairs(query@)), "&"@),
{
    let pairs = query_pairs(query);
    port_options(&pairs)
}

// ---------------------------------------------------------------------------
// Sessions
// ---------------------------------------------------------------------------

/// A session at a kubelet.
pub struct Session {
    pub node: String,
    pub path: String,
    pub query: String,
}

/// A [`Session`] as text.
pub ghost struct SessionView {
    pub node: Seq<char>,
    pub path: Seq<char>,
    pub query: Seq<char>,
}

impl View for Session {
    type V = SessionView;

    open spec fn view(&self) -> SessionView {
        SessionView { node: self.node@, path: self.path@, query: self.query@ }
    }
}

/// A session on the node of a pod.
pub open spec fn session_on(
    pod: Tree,
    namespace: Seq<char>,
    name: Seq<char>,
    path: Seq<char>,
    query: Seq<char>,
) -> Result<SessionView, ErrorView> {
    match pod.at("spec"@).at("nodeName"@).some_text() {
        Some(node) => Ok(SessionView { node, path, query }),
        None => Err(err_unassigned(namespace, name)),
    }
}

/// A session in a container of a pod.
pub open spec fn session_in(
    pod: Option<Tree>,
    namespace: Seq<char>,
    name: Seq<char>,
    pairs: Seq<(Seq<char>, Seq<char>)>,
    verb: Seq<char>,
    with_command: bool,
) -> Result<SessionView, ErrorView> {
    match pod {
        None => Err(err_not_found("pods"@, name)),
        Some(p) => match session_container(p, first_value(pairs, "container"@), name) {
            Err(e) => Err(e),
            Ok(c) => session_on(
                p,
                namespace,
                name,
                verb + namespace + "/"@ + name + "/"@ + c,
                join(kubelet_options(pairs, with_command), "&"@),
            ),
        },
    }
}

/// A result as a view.
pub open spec fn session_result(r: Result<Session, ApiError>) -> Result<SessionView, ErrorView> {
    match r {
        Ok(s) => Ok(s@),
        Err(e) => Err(e@),
    }
}

fn open_on(pod: &Json, namespace: &str, name: &str, path: String, query: String) -> (r: Result<
    Session,
    ApiError,
>)
    ensures
        session_result(r) == session_on(pod@, namespace@, name@, path@, query@),
{
    match assigned_node(pod, namespace, name) {
        Ok(node) => Ok(Session { node, path, query }),
        Err(e) => Err(e),
    }
}

fn open_in(
    pod: Option<&Json>,
    namespace: &str,
    name: &str,
    query: &str,
    verb: &str,
    with_command: bool,
) -> (r: Result<Session, ApiError>)
    ensures
        session_result(r) == session_in(
            opt_tree(pod),
            namespace@,
            name@,
            form_pairs(query@),
            verb@,
            with_command,
        ),
{
    let p = match pod {
        Some(p) => p,
        None => {
            return Err(ApiError::not_found("pods", name));
        },
    };
    let container = match pick_container(p, query, name) {
        Ok(c) => c,
        Err(e) => {
            return Err(e);
        },
    };
    let path = verb.to_owned().concat(namespace).concat("/").concat(name).concat("/").concat(
        container.as_str(),
    );
    open_on(p, namespace, name, path, stream_query(query, with_command))
}

/// The session of an `exec`.
pub fn pod_exec(pod: Option<&Json>, namespace: &str, name: &str, query: &str) -> (r: Result<
    Session,
    ApiError,
>)
    ensures
        session_result(r) == session_in(
            opt_tree(pod),
            namespace@,
            name@,
            form_pairs(query@),
            "/exec/"@,
            true,
        ),
{
    open_in(pod, namespace, name, query, "/exec/", true)
}

/// The session of an `attach`, which carries no command.
pub fn pod_attach(pod: Option<&Json>, namespace: &str, name: &str, query: &str) -> (r: Result<
    Session,
    ApiError,
>)
    ensures
        session_result(r) == session_in(
            opt_tree(pod),
            namespace@,
            name@,
            form_pairs(query@),
            "/attach/"@,
            false,
        ),
{
    open_in(pod, namespace, name, query, "/attach/", false)
}

/// The session of a `portforward`.
pub fn pod_portforward(pod: Option<&Json>, namespace: &str, name: &str, query: &str) -> (r: Result<
    Session,
    ApiError,
>)
    ensures
        session_result(r) == (match pod {
            None => Err::<SessionView, ErrorView>(err_not_found("pods"@, name@)),
            Some(p) => session_on(
                p@,
                namespace@,
                name@,
                "/portForward/"@ + namespace@ + "/"@ + name@,
                join(kubelet_ports(form_pairs(query@)), "&"@),
            ),
        }),
{
    let p = match pod {
        Some(p) => p,
        None => {
            return Err(ApiError::not_found("pods", name));
        },
    };
    let path = "/portForward/".to_owned().concat(namespace).concat("/").concat(name);
    open_on(p, namespace, name, path, portforward_query(query))
}

// ---------------------------------------------------------------------------
// The request
// ---------------------------------------------------------------------------

/// A header that the proxy sets itself, or that describes the hop.
pub open spec fn is_hop_header(name: Seq<char>) -> bool {
    name == "host"@ || name == "authorization"@ || name == "content-length"@ || name
        == "transfer-encoding"@
}

/// The client's headers as they are handed on.
pub open spec fn forwarded(headers: Seq<(Seq<char>, Seq<char>)>) -> Seq<char>
    decreases headers.len(),
{
    if headers.len() == 0 {
        Seq::empty()
    } else {
        let rest = forwarded(headers.drop_last());
        let (k, v) = headers.last();
        if is_hop_header(k) {
            rest
        } else {
            rest + (k + ": "@ + v + "\r\n"@)
        }
    }
}

/// The head of the request to a kubelet.
pub open spec fn request_head(
    method: Seq<char>,
    addr: Seq<char>,
    path: Seq<char>,
    query: Seq<char>,
    bearer: Seq<char>,
    headers: Seq<(Seq<char>, Seq<char>)>,
) -> Seq<char> {
    let url = if query.len() == 0 {
        path
    } else {
        path + "?"@ + query
    };
    method + " "@ + url + " HTTP/1.1\r\nHost: "@ + addr + ":10250\r\nAuthorization: Bearer "@
        + bearer + "\r\nContent-Length: 0\r\n"@ + forwarded(headers) + "\r\n"@
}

fn hop_header(name: &str) -> (r: bool)
    ensures
        r == is_hop_header(name@),
{
    same(name, "host") || same(name, "authorization") || same(name, "content-length") || same(
        name,
        "transfer-encoding",
    )
}

/// The head of the request to a kubelet. The client's headers carry the
/// negotiation of the protocol and are handed on as they are; their names are in
/// lower case.
pub fn upgrade_head(
    method: &str,
    addr: &str,
    path: &str,
    query: &str,
    bearer: &str,
    headers: &Vec<(String, String)>,
) -> (r: String)
    ensures
        r@ == request_head(method@, addr@, path@, query@, bearer@, pair_texts(headers@)),
{
    let url = if query.unicode_len() == 0 {
        path.to_owned()
    } else {
        path.to_owned().concat("?").concat(query)
    };
    let start = method.to_owned().concat(" ").concat(url.as_str()).concat(
        " HTTP/1.1\r\nHost: ",
    ).concat(addr).concat(":10250\r\nAuthorization: Bearer ").concat(bearer).concat(
        "\r\nContent-Length: 0\r\n",
    );
    let ghost first = start@;
    let mut head = start;
    let ghost hs = pair_texts(headers@);
    let mut i: usize = 0;
    assert(head@ =~= first + forwarded(hs.take(0)));
    while i < headers.len()
        invariant
            i <= headers.len(),
            hs == pair_texts(headers@),
            head@ == first + forwarded(hs.take(i as int)),
        decreases headers.len() - i,
    {
        proof {
            assert(hs.take(i + 1).drop_last() =~= hs.take(i as int));
            assert(hs.take(i + 1).last() == hs[i as int]);
        }
        let k = headers[i].0.as_str();
        let v = headers[i].1.as_str();
        if !hop_header(k) {
            let line = k.to_owned().concat(": ").concat(v).concat("\r\n");
            head = head.concat(line.as_str());
            assert(head@ =~= first + forwarded(hs.take(i + 1)));
        }
        i = i + 1;
    }
    assert(hs.take(i as int) =~= hs);
    head.concat("\r\n")
}

// ---------------------------------------------------------------------------
// The answer
// ---------------------------------------------------------------------------

/// A blank line stands at a position.
pub open spec fn blank_at(b: Seq<u8>, i: int) -> bool {
    0 <= i && i + 4 <= b.len() && b[i] == 13 && b[i + 1] == 10 && b[i + 2] == 13 && b[i + 3] == 10
}

/// The position behind the first blank line.
pub open spec fn ends_head(b: Seq<u8>, n: int) -> bool {
    blank_at(b, n - 4) && forall|j: int| 0 <= j < n - 4 ==> !(#[trigger] blank_at(b, j))
}

/// The position behind the blank line that ends the head of an answer.
pub fn find_head_end(buf: &[u8]) -> (r: Option<usize>)
    ensures
        match r {
            Some(n) => 4 <= n <= buf@.len() && ends_head(buf@, n as int),
            None => forall|j: int| !(#[trigger] blank_at(buf@, j)),
        },
{
    let len: usize = buf.len();
    let mut i: usize = 0;
    while i < len && len - i >= 4
        invariant
            i <= len,
            len == buf@.len(),
            forall|j: int| 0 <= j < i ==> !(#[trigger] blank_at(buf@, j)),
        decreases len - i,
    {
        if buf[i] == 13 && buf[i + 1] == 10 && buf[i + 2] == 13 && buf[i + 3] == 10 {
            assert(blank_at(buf@, i as int));
            return Some(i + 4);
        }
        i = i + 1;
    }
    None
}

/// What has been read of an answer holds its head, or more is to be read.
pub fn head_step(buf: &[u8]) -> (r: Result<Option<usize>, String>)
    ensures
        match r {
            Ok(Some(n)) => 4 <= n <= buf@.len() && ends_head(buf@, n as int),
            Ok(None) => buf@.len() <= MAX_HEAD && forall|j: int| !(#[trigger] blank_at(buf@, j)),
            Err(e) => buf@.len() > MAX_HEAD && (forall|j: int| !(#[trigger] blank_at(buf@, j)))
                && e@ == "kubelet response head exceeded 65536 bytes"@,
        },
{
    match find_head_end(buf) {
        Some(n) => Ok(Some(n)),
        None => {
            if buf.len() > MAX_HEAD {
                Err("kubelet response head exceeded 65536 bytes".to_owned())
            } else {
                Ok(None)
            }
        },
    }
}

/// The lines of a text.
pub open spec fn lines(s: Seq<char>) -> Seq<Seq<char>>
    decreases s.len(),
{
    match find_from(s, "\r\n"@, 0) {
        Some(i) => if 0 <= i && i + 2 <= s.len() {
            seq![s.take(i)] + lines(s.skip(i + 2))
        } else {
            seq![s]
        },
        None => seq![s],
    }
}

fn lines_of(s: &str) -> (r: Vec<String>)
    ensures
        texts(r@) == lines(s@),
        r@.len() > 0,
{
    let ghost whole = s@;
    let mut out: Vec<String> = Vec::new();
    let mut rest = s;
    proof {
        reveal_strlit("\r\n");
        assert("\r\n"@.len() == 2);
        assert(texts(out@) =~= Seq::<Seq<char>>::empty());
        assert(lines(whole) =~= texts(out@) + lines(rest@));
    }
    loop
        invariant_except_break
            lines(whole) == texts(out@) + lines(rest@),
        invariant
            "\r\n"@.len() == 2,
            whole == s@,
        ensures
            texts(out@) == lines(s@),
            out@.len() > 0,
        decreases rest@.len(),
    {
        let ghost was = texts(out@);
        match find(rest, "\r\n") {
            Some(i) => {
                proof {
                    lemma_find_from(rest@, "\r\n"@, 0);
                }
                let len: usize = rest.unicode_len();
                let line = rest.substring_char(0, i).to_owned();
                let ghost lv = line@;
                let next = rest.substring_char(i + 2, len);
                proof {
                    assert(lv =~= rest@.take(i as int));
                    assert(next@ =~= rest@.skip(i + 2));
                }
                out.push(line);
                proof {
                    assert(texts(out@) =~= was.push(lv));
                    assert(lines(whole) =~= texts(out@) + lines(next@));
                }
                rest = next;
            },
            None => {
                out.push(rest.to_owned());
                proof {
                    assert(texts(out@) =~= was.push(rest@));
                    assert(texts(out@) =~= lines(whole));
                    assert(out@.len() > 0);
                }
                break;
            },
        }
    }
    out
}

/// The header in a line.
pub open spec fn header_in(line: Seq<char>) -> Option<(Seq<char>, Seq<char>)> {
    match split_once(line, ':') {
        Some((k, v)) => match header_name(trimmed_text(k)) {
            Some(name) => if header_value(trimmed_text(v)) {
                Some((name, trimmed_text(v)))
            } else {
                None
            },
            None => None,
        },
        None => None,
    }
}

/// The headers with one more; it takes the place of another of its name.
pub open spec fn with_header(
    headers: Seq<(Seq<char>, Seq<char>)>,
    name: Seq<char>,
    v: Seq<char>,
) -> Seq<(Seq<char>, Seq<char>)>
    decreases headers.len(),
{
    if headers.len() == 0 {
        seq![(name, v)]
    } else if headers[0].0 == name {
        seq![(name, v)] + headers.skip(1)
    } else {
        seq![headers[0]] + with_header(headers.skip(1), name, v)
    }
}

/// The headers in some lines: the last of a name counts.
pub open spec fn headers_in(ls: Seq<Seq<char>>) -> Seq<(Seq<char>, Seq<char>)>
    decreases ls.len(),
{
    if ls.len() == 0 {
        Seq::empty()
    } else {
        let rest = headers_in(ls.drop_last());
        match header_in(ls.last()) {
            Some((k, v)) => with_header(rest, k, v),
            None => rest,
        }
    }
}

/// The status in the first line of an answer: its second word.
pub open spec fn status_in(line: Seq<char>) -> Option<nat> {
    if words(line).len() >= 2 {
        unsigned(words(line)[1], 65535)
    } else {
        None
    }
}

fn read_status(line: &str) -> (r: Option<u16>)
    ensures
        match r {
            Some(n) => status_in(line@) == Some(n as nat),
            None => status_in(line@) is None,
        },
{
    let ws = words_of(line);
    assert(texts(ws@).len() == ws@.len());
    if ws.len() < 2 {
        return None;
    }
    match parse_unsigned(ws[1].as_str(), 65535) {
        Some(n) => Some(n as u16),
        None => None,
    }
}

/// The status and the headers in the head of an answer.
pub open spec fn head_in(text: Seq<char>) -> Result<
    (nat, Seq<(Seq<char>, Seq<char>)>),
    Seq<char>,
> {
    let ls = lines(text);
    match status_in(ls[0]) {
        Some(status) => Ok((status, headers_in(ls.skip(1)))),
        None => Err("unparseable status line from kubelet: "@ + ls[0]),
    }
}

fn read_header(line: &str) -> (r: Option<(String, String)>)
    ensures
        match r {
            Some((k, v)) => header_in(line@) == Some((k@, v@)),
            None => header_in(line@) is None,
        },
{
    match split_at_first(line, ':') {
        Some((k, v)) => {
            let value = trim(v);
            match read_header_name(trim(k)) {
                Some(name) => {
                    if is_header_value(value) {
                        Some((name, value.to_owned()))
                    } else {
                        None
                    }
                },
                None => None,
            }
        },
        None => None,
    }
}

/// Puts a header where one of its name stands, else at the end.
fn put_header(headers: &mut Vec<(String, String)>, name: String, v: String)
    ensures
        pair_texts(final(headers)@) == with_header(pair_texts(old(headers)@), name@, v@),
{
    let ghost all = pair_texts(headers@);
    let ghost n = name@;
    let ghost val = v@;
    let mut i: usize = 0;
    proof {
        assert(all.skip(0) =~= all);
        assert(with_header(all, n, val) =~= all.take(0) + with_header(all.skip(0), n, val));
    }
    while i < headers.len() && !same(headers[i].0.as_str(), name.as_str())
        invariant
            i <= headers.len(),
            headers@ == old(headers)@,
            all == pair_texts(headers@),
            n == name@,
            with_header(all, n, val) == all.take(i as int) + with_header(
                all.skip(i as int),
                n,
                val,
            ),
        decreases headers.len() - i,
    {
        proof {
            assert(all.skip(i as int)[0] == all[i as int]);
            assert(all.skip(i as int).skip(1) =~= all.skip(i + 1));
            assert(all.take(i + 1) =~= all.take(i as int).push(all[i as int]));
            assert(with_header(all, n, val) =~= all.take(i + 1) + with_header(
                all.skip(i + 1),
                n,
                val,
            ));
        }
        i = i + 1;
    }
    if i < headers.len() {
        proof {
            assert(all.skip(i as int)[0] == all[i as int]);
        }
        headers.set(i, (name, v));
        assert(pair_texts(headers@) =~= with_header(all, n, val));
    } else {
        headers.push((name, v));
        assert(pair_texts(headers@) =~= with_header(all, n, val));
    }
}

/// Headers of an answer as a view.
pub open spec fn head_result(r: Result<(u16, Vec<(String, String)>), String>) -> Result<
    (nat, Seq<(Seq<char>, Seq<char>)>),
    Seq<char>,
> {
    match r {
        Ok((status, headers)) => Ok((status as nat, pair_texts(headers@))),
        Err(e) => Err(e@),
    }
}

/// The status and the headers in the text of a head.
pub fn parse_head_text(text: &str) -> (r: Result<(u16, Vec<(String, String)>), String>)
    ensures
        head_result(r) == head_in(text@),
{
    let ls = lines_of(text);
    let ghost lv = lines(text@);
    assert(lv[0] == ls@[0]@);
    let status: u16 = match read_status(ls[0].as_str()) {
        Some(n) => n,
        None => {
            return Err(
                "unparseable status line from kubelet: ".to_owned().concat(ls[0].as_str()),
            );
        },
    };
    let mut headers: Vec<(String, String)> = Vec::new();
    let ghost rest = lv.skip(1);
    let mut i: usize = 1;
    assert(pair_texts(headers@) =~= headers_in(rest.take(0)));
    while i < ls.len()
        invariant
            1 <= i <= ls.len(),
            lv == texts(ls@),
            rest == lv.skip(1),
            pair_texts(headers@) == headers_in(rest.take(i - 1)),
        decreases ls.len() - i,
    {
        proof {
            assert(rest.take(i as int).drop_last() =~= rest.take(i - 1));
            assert(rest.take(i as int).last() == ls@[i as int]@);
        }
        match read_header(ls[i].as_str()) {
            Some((k, v)) => {
                put_header(&mut headers, k, v);
            },
            None => {},
        }
        i = i + 1;
    }
    assert(rest.take(i - 1) =~= rest);
    Ok((status, headers))
}

/// The status and the headers in the head of an answer.
pub fn parse_head(head: &[u8]) -> (r: Result<(u16, Vec<(String, String)>), String>)
    ensures
        head_result(r) == head_in(lossy_text(head@)),
{
    let text = text_of_bytes(head);
    parse_head_text(text.as_str())
}

/// The length of the body that the headers give.
pub fn body_length(headers: &Vec<(String, String)>) -> (r: Option<u64>)
    ensures
        ({
            let want = match first_value(pair_texts(headers@), "content-length"@) {
                Some(v) => unsigned(v, u64::MAX as nat),
                None => None,
            };
            match r {
                Some(n) => want == Some(n as nat),
                None => want is None,
            }
        }),
{
    match first_param(headers, "content-length") {
        Some(v) => parse_u64(v),
        None => None,
    }
}

/// More of a body is to be read: up to its length, or, where it has none, up to a
/// bound.
pub fn wants_more(length: Option<u64>, have: usize) -> (r: bool)
    ensures
        r == (match length {
            Some(n) => have < n,
            None => have < MAX_HEAD,
        }),
{
    match length {
        Some(n) => (have as u64) < n,
        None => have < MAX_HEAD,
    }
}

/// The kubelet took the upgrade.
pub fn is_upgraded(status: u16) -> (r: bool)
    ensures
        r == (status == 101),
{
    status == 101
}

/// The status with which a refusal is passed on: the kubelet's own, where it is
/// one.
pub fn refusal_status(status: u16) -> (r: u16)
    ensures
        r == (if 100 <= status <= 999 {
            status
        } else {
            502
        }),
{
    if 100 <= status && status <= 999 {
        status
    } else {
        502
    }
}

/// A header of the kubelet's answer that the client gets.
pub open spec fn is_passed_back(name: Seq<char>) -> bool {
    name != "content-length"@ && name != "transfer-encoding"@
}

/// The headers that the client gets.
pub open spec fn passed_back(headers: Seq<(Seq<char>, Seq<char>)>) -> Seq<(Seq<char>, Seq<char>)>
    decreases headers.len(),
{
    if headers.len() == 0 {
        Seq::empty()
    } else {
        let rest = passed_back(headers.drop_last());
        if is_passed_back(headers.last().0) {
            rest.push(headers.last())
        } else {
            rest
        }
    }
}

/// The headers of the kubelet's answer that the client gets: all that do not
/// describe the hop.
pub fn response_headers(headers: &Vec<(String, String)>) -> (r: Vec<(String, String)>)
    ensures
        pair_texts(r@) == passed_back(pair_texts(headers@)),
{
    let mut out: Vec<(String, String)> = Vec::new();
    let ghost hs = pair_texts(headers@);
    assert(pair_texts(out@) =~= Seq::<(Seq<char>, Seq<char>)>::empty());
    let mut i: usize = 0;
    while i < headers.len()
        invariant
            i <= headers.len(),
            hs == pair_texts(headers@),
            pair_texts(out@) == passed_back(hs.take(i as int)),
        decreases headers.len() - i,
    {
        proof {
            assert(hs.take(i + 1).drop_last() =~= hs.take(i as int));
            assert(hs.take(i + 1).last() == hs[i as int]);
        }
        let ghost was = pair_texts(out@);
        let k = headers[i].0.as_str();
        if !same(k, "content-length") && !same(k, "transfer-encoding") {
            out.push((headers[i].0.clone(), headers[i].1.clone()));
            assert(pair_texts(out@) =~= was.push(hs[i as int]));
        }
        i = i + 1;
    }
    assert(hs.take(i as int) =~= hs);
    out
}

/// What a kubelet said when it refused, as text.
pub fn refusal_text(body: &[u8]) -> (r: String)
    ensures
        r@ == lossy_text(body@),
{
    text_of_bytes(body)
}

/// The name that TLS to a host is opened with, given whether the host is one: the
/// host, else the loopback address. It only tells the server which name is meant.
pub fn name_or_loopback(host: &str, is_name: bool) -> (r: String)
    ensures
        r@ == (if is_name {
            host@
        } else {
            "127.0.0.1"@
        }),
{
    if is_name {
        host.to_owned()
    } else {
        "127.0.0.1".to_owned()
    }
}

/// The name that TLS to a host is opened with.
pub fn tls_name(host: &str) -> (r: String)
    ensures
        r@ == (if server_name(host@) {
            host@
        } else {
            "127.0.0.1"@
        }),
{
    name_or_loopback(host, is_server_name(host))
}

/// An option that is off is not handed on: the kubelet would read its presence as
/// on.
pub proof fn law_options_that_are_off_are_dropped(k: Seq<char>, v: Seq<char>)
    requires
        !is_on(v),
    ensures
        kubelet_option(k, v, false) is None,
{
}

/// A session without commands hands on none: what an `attach` asks does not
/// depend on the commands that the client gave.
pub proof fn law_attach_carries_no_command(pairs: Seq<(Seq<char>, Seq<char>)>)
    ensures
        kubelet_options(pairs, false) == kubelet_options(
            pairs.filter(|p: (Seq<char>, Seq<char>)| p.0 != "command"@),
            false,
        ),
    decreases pairs.len(),
{
    let keep = |p: (Seq<char>, Seq<char>)| p.0 != "command"@;
    reveal(Seq::filter);
    if pairs.len() > 0 {
        law_attach_carries_no_command(pairs.drop_last());
        let short = pairs.drop_last().filter(keep);
        if keep(pairs.last()) {
            assert(short.push(pairs.last()).drop_last() =~= short);
        } else {
            assert(kubelet_option(pairs.last().0, pairs.last().1, false) is None) by {
                reveal_strlit("command");
                reveal_strlit("stdin");
                reveal_strlit("stdout");
                reveal_strlit("stderr");
                reveal_strlit("input");
                reveal_strlit("output");
                reveal_strlit("error");
                reveal_strlit("tty");
                assert("command"@.len() == 7);
            }
        }
    }
}

/// A session is with the container that is asked for, of the pod's own or one put in later, and
/// with no other; where none is asked for, with the only one.
pub proof fn law_a_session_is_with_the_container_asked_for(
    pod: Tree,
    c: Seq<char>,
    pod_name: Seq<char>,
)
    requires
        c.len() > 0,
    ensures
        ({
            let named = |field: Seq<char>|
                exists|i: int|
                    0 <= i < pod.at("spec"@).at(field).items_or_none().len() && (
                    #[trigger] pod.at("spec"@).at(field).items_or_none()[i]).at("name"@)
                        == Tree::String(c);
            let r = session_container(pod, Some(c), pod_name);
            &&& named("containers"@) || named("ephemeralContainers"@) ==> r == Ok::<
                Seq<char>,
                ErrorView,
            >(c)
            &&& !named("containers"@) && !named("ephemeralContainers"@) ==> r is Err
                && r->Err_0.status == 400
        }),
        container_names(pod, "containers"@) == seq![c] ==> session_container(pod, None, pod_name)
            == Ok::<Seq<char>, ErrorView>(c),
        container_names(pod, "containers"@).len() != 1 ==> session_container(pod, None, pod_name)
            is Err,
{
    law_a_container_is_named(pod.at("spec"@).at("containers"@).items_or_none(), c);
    law_a_container_is_named(pod.at("spec"@).at("ephemeralContainers"@).items_or_none(), c);
}

/// A stream is asked of a node under the node's own word for it, by either of its names.
pub proof fn law_a_stream_has_two_names(v: Seq<char>, with_command: bool)
    requires
        v == "1"@ || v == "true"@ || v == "True"@,
    ensures
        kubelet_option("stdin"@, v, with_command) == Some("input=1"@),
        kubelet_option("input"@, v, with_command) == Some("input=1"@),
        kubelet_option("stdout"@, v, with_command) == Some("output=1"@),
        kubelet_option("output"@, v, with_command) == Some("output=1"@),
        kubelet_option("stderr"@, v, with_command) == Some("error=1"@),
        kubelet_option("error"@, v, with_command) == Some("error=1"@),
        kubelet_option("tty"@, v, with_command) == Some("tty=1"@),
{
    reveal_strlit("stdin");
    reveal_strlit("input");
    reveal_strlit("stdout");
    reveal_strlit("output");
    reveal_strlit("stderr");
    reveal_strlit("error");
    reveal_strlit("tty");
    reveal_strlit("command");
    assert("stdin"@.len() == 5);
    assert("input"@.len() == 5);
    assert("stdout"@.len() == 6);
    assert("output"@.len() == 6);
    assert("stderr"@.len() == 6);
    assert("error"@.len() == 5);
    assert("tty"@.len() == 3);
    assert("command"@.len() == 7);
    assert("stdin"@[0] == 's');
    assert("input"@[0] == 'i');
    assert("error"@[0] == 'e');
    assert("stdout"@[0] == 's');
    assert("output"@[0] == 'o');
    assert("stdout"@[3] == 'o');
    assert("stderr"@[3] == 'e');
    assert("stderr"@[0] == 's');
}

/// What is asked of a node is what was asked here, in its order: each word of a command, and
/// each stream.
pub proof fn law_options_stay_in_order(
    pairs: Seq<(Seq<char>, Seq<char>)>,
    v: Seq<char>,
    key: Seq<char>,
)
    requires
        kubelet_option(key, v, true) is None,
    ensures
        kubelet_options(pairs.push(("command"@, v)), true) == kubelet_options(pairs, true).push(
            "command="@ + form_encoded(v),
        ),
        kubelet_options(pairs.push((key, v)), true) == kubelet_options(pairs, true),
        kubelet_options(Seq::empty(), true).len() == 0,
{
    reveal_strlit("stdin");
    reveal_strlit("input");
    reveal_strlit("stdout");
    reveal_strlit("output");
    reveal_strlit("stderr");
    reveal_strlit("error");
    reveal_strlit("tty");
    reveal_strlit("command");
    assert("stdin"@.len() == 5);
    assert("input"@.len() == 5);
    assert("stdout"@.len() == 6);
    assert("output"@.len() == 6);
    assert("stderr"@.len() == 6);
    assert("error"@.len() == 5);
    assert("tty"@.len() == 3);
    assert("command"@.len() == 7);
    assert("stdin"@[0] == 's');
    assert("input"@[0] == 'i');
    assert("error"@[0] == 'e');
    assert("stdout"@[0] == 's');
    assert("output"@[0] == 'o');
    assert("stdout"@[3] == 'o');
    assert("stderr"@[3] == 'e');
    assert("stderr"@[0] == 's');
    assert(pairs.push(("command"@, v)).drop_last() =~= pairs);
    assert(pairs.push((key, v)).drop_last() =~= pairs);
}

/// Each port that is asked for is asked of the node, by either name.
pub proof fn law_every_port_is_asked_for(
    pairs: Seq<(Seq<char>, Seq<char>)>,
    port: Seq<char>,
    key: Seq<char>,
)
    requires
        port.len() > 0,
        !port.contains(','),
        key != "port"@,
        key != "ports"@,
    ensures
        kubelet_ports(pairs.push(("port"@, port))) == kubelet_ports(pairs).push(
            "port="@ + form_encoded(port),
        ),
        kubelet_ports(pairs.push(("ports"@, port))) == kubelet_ports(pairs).push(
            "port="@ + form_encoded(port),
        ),
        kubelet_ports(pairs.push((key, port))) == kubelet_ports(pairs),
{
    assert(pairs.push(("port"@, port)).drop_last() =~= pairs);
    assert(pairs.push(("ports"@, port)).drop_last() =~= pairs);
    assert(pairs.push((key, port)).drop_last() =~= pairs);
    lemma_split_whole(port, ',');
    let one = seq![port];
    assert(one.drop_last() =~= Seq::empty());
    assert(nonempty(one.drop_last()) =~= Seq::empty());
    assert(nonempty(one) =~= one);
    assert(port_params(one) =~= seq!["port="@ + form_encoded(port)]);
    assert(kubelet_ports(pairs) + port_params(one) =~= kubelet_ports(pairs).push(
        "port="@ + form_encoded(port),
    ));
}

/// A session is on the node of the pod; a pod without one has none.
pub proof fn law_a_session_is_on_the_node_of_the_pod(
    pod: Tree,
    namespace: Seq<char>,
    name: Seq<char>,
    path: Seq<char>,
    query: Seq<char>,
)
    ensures
        ({
            let node = pod.at("spec"@).at("nodeName"@);
            let r = session_on(pod, namespace, name, path, query);
            &&& node is String && (node->String_0).len() > 0 ==> r == Ok::<SessionView, ErrorView>(
                SessionView { node: node->String_0, path, query },
            )
            &&& !(node is String) || (node->String_0).len() == 0 ==> r is Err && r->Err_0.status
                == 400
        }),
{
}

/// What a client sends of itself alone is not handed on; every other header is.
pub proof fn law_credentials_are_not_handed_on(
    headers: Seq<(Seq<char>, Seq<char>)>,
    k: Seq<char>,
    v: Seq<char>,
)
    requires
        k != "host"@,
        k != "authorization"@,
        k != "content-length"@,
        k != "transfer-encoding"@,
    ensures
        forwarded(headers.push(("authorization"@, v))) == forwarded(headers),
        forwarded(headers.push(("host"@, v))) == forwarded(headers),
        forwarded(headers.push(("content-length"@, v))) == forwarded(headers),
        forwarded(headers.push(("transfer-encoding"@, v))) == forwarded(headers),
        forwarded(headers.push((k, v))) == forwarded(headers) + (k + ": "@ + v + "\r\n"@),
{
    assert(headers.push(("authorization"@, v)).drop_last() =~= headers);
    assert(headers.push(("host"@, v)).drop_last() =~= headers);
    assert(headers.push(("content-length"@, v)).drop_last() =~= headers);
    assert(headers.push(("transfer-encoding"@, v)).drop_last() =~= headers);
    assert(headers.push((k, v)).drop_last() =~= headers);
}

/// A later header goes before an earlier of the same name, in its place; the others stay.
pub proof fn law_a_later_header_goes_before(
    headers: Seq<(Seq<char>, Seq<char>)>,
    name: Seq<char>,
    v: Seq<char>,
    other: (Seq<char>, Seq<char>),
)
    requires
        other.0 != name,
    ensures
        with_header(headers, name, v).contains((name, v)),
        with_header(headers, name, v).contains(other) <==> headers.contains(other),
        (forall|i: int| 0 <= i < headers.len() ==> (#[trigger] headers[i]).0 != name)
            ==> with_header(headers, name, v) == headers.push((name, v)),
    decreases headers.len(),
{
    let all = with_header(headers, name, v);
    if headers.len() == 0 {
        assert(all[0] == (name, v));
        assert(all =~= headers.push((name, v)));
        if all.contains(other) {
            let k = all.index_of(other);
            assert(k == 0);
        }
    } else {
        let rest = headers.skip(1);
        law_a_later_header_goes_before(rest, name, v, other);
        assert(forall|i: int| 0 <= i < rest.len() ==> #[trigger] rest[i] == headers[i + 1]);
        assert(forall|i: int| 1 <= i < headers.len() ==> #[trigger] headers[i] == rest[i - 1]);
        if headers[0].0 == name {
            assert(all[0] == (name, v));
            assert(forall|i: int| 1 <= i < all.len() ==> #[trigger] all[i] == headers[i]);
            if headers.contains(other) {
                let k = headers.index_of(other);
                assert(all[k] == other);
            }
            if all.contains(other) {
                let k = all.index_of(other);
                assert(headers[k] == other);
            }
        } else {
            let more = with_header(rest, name, v);
            assert(all[0] == headers[0]);
            assert(forall|i: int| 1 <= i < all.len() ==> #[trigger] all[i] == more[i - 1]);
            let k = more.index_of((name, v));
            assert(all[k + 1] == (name, v));
            if headers.contains(other) {
                let k = headers.index_of(other);
                if k > 0 {
                    assert(rest[k - 1] == other);
                    let n = more.index_of(other);
                    assert(all[n + 1] == other);
                }
            }
            if all.contains(other) {
                let k = all.index_of(other);
                if k > 0 {
                    assert(more[k - 1] == other);
                    let n = rest.index_of(other);
                    assert(headers[n + 1] == other);
                } else {
                    assert(headers[0] == other);
                }
            }
            if forall|i: int| 0 <= i < headers.len() ==> (#[trigger] headers[i]).0 != name {
                assert(more == rest.push((name, v)));
                assert(all =~= headers.push((name, v)));
            }
        }
    }
}

/// What a node says of a body that is not passed on is not passed back; the rest is, in order.
pub proof fn law_what_is_passed_back(headers: Seq<(Seq<char>, Seq<char>)>)
    ensures
        passed_back(headers) == headers.filter(
            |h: (Seq<char>, Seq<char>)| h.0 != "content-length"@ && h.0 != "transfer-encoding"@,
        ),
    decreases headers.len(),
{
    reveal(Seq::filter);
    if headers.len() > 0 {
        law_what_is_passed_back(headers.drop_last());
    }
}

/// A request to a node asks for the path with its query, with the credentials of the server.
pub proof fn law_a_request_asks_for_its_path(
    method: Seq<char>,
    addr: Seq<char>,
    path: Seq<char>,
    query: Seq<char>,
    bearer: Seq<char>,
    headers: Seq<(Seq<char>, Seq<char>)>,
)
    requires
        query.len() > 0,
    ensures
        has_prefix(
            request_head(method, addr, path, query, bearer, headers),
            method + " "@ + path + "?"@ + query + " HTTP/1.1\r\nHost: "@ + addr
                + ":10250\r\nAuthorization: Bearer "@ + bearer + "\r\n"@,
        ),
        has_prefix(
            request_head(method, addr, path, Seq::empty(), bearer, headers),
            method + " "@ + path + " HTTP/1.1\r\nHost: "@ + addr
                + ":10250\r\nAuthorization: Bearer "@ + bearer + "\r\n"@,
        ),
        has_suffix(request_head(method, addr, path, query, bearer, headers), "\r\n"@),
{
    let head = request_head(method, addr, path, query, bearer, headers);
    let bare = request_head(method, addr, path, Seq::empty(), bearer, headers);
    reveal_strlit("\r\n");
    reveal_strlit("\r\nContent-Length: 0\r\n");
    reveal_strlit("Content-Length: 0\r\n");
    assert("\r\nContent-Length: 0\r\n"@ =~= "\r\n"@ + "Content-Length: 0\r\n"@);
    let rest = "Content-Length: 0\r\n"@ + forwarded(headers) + "\r\n"@;
    let a = method + " "@ + path + "?"@ + query + " HTTP/1.1\r\nHost: "@ + addr
        + ":10250\r\nAuthorization: Bearer "@ + bearer + "\r\n"@;
    let b = method + " "@ + path + " HTTP/1.1\r\nHost: "@ + addr
        + ":10250\r\nAuthorization: Bearer "@ + bearer + "\r\n"@;
    assert(head =~= a + rest);
    assert(bare =~= b + rest);
    law_the_ends_of_a_text(a, rest, ' ');
    law_the_ends_of_a_text(b, rest, ' ');
    let most = method + " "@ + (path + "?"@ + query) + " HTTP/1.1\r\nHost: "@ + addr
        + ":10250\r\nAuthorization: Bearer "@ + bearer + "\r\nContent-Length: 0\r\n"@ + forwarded(
        headers,
    );
    assert(head =~= most + "\r\n"@);
    law_the_ends_of_a_text(most, "\r\n"@, ' ');
}

/// A node says with the second word of its first line how it went.
pub proof fn law_the_second_word_is_the_status(
    protocol: Seq<char>,
    code: nat,
    reason: Seq<char>,
)
    requires
        protocol.len() > 0,
        forall|i: int| 0 <= i < protocol.len() ==> !is_white(#[trigger] protocol[i]),
        code <= 65535,
    ensures
        status_in(protocol + seq![' '] + (dec(code) + seq![' '] + reason)) == Some(code),
        status_in(protocol) is None,
{
    let rest = dec(code) + seq![' '] + reason;
    law_signs(code, 65535);
    law_numeral_reads_back(code);
    assert forall|i: int| 0 <= i < dec(code).len() implies !is_white(#[trigger] dec(code)[i]) by {
        assert(digit_of(dec(code)[i]) is Some);
    }
    law_words_are_apart_by_white_space(protocol, ' ', rest);
    law_words_are_apart_by_white_space(dec(code), ' ', reason);
    let t = seq![' '] + rest;
    assert(t.skip(1) =~= rest);
    assert(trim_front(t) == trim_front(rest));
    assert(rest[0] == dec(code)[0]);
    assert(trim_front(rest) == rest);
    lemma_words_behind_white(rest);
    assert(words(protocol + seq![' '] + rest)[1] == words(t)[0]);
    assert(words(t)[0] == words(rest)[0]);
    assert(words(rest)[0] == dec(code));
    assert(words(t).len() > 0);
}

proof fn lemma_words_behind_white(s: Seq<char>)
    requires
        s.len() > 0,
        !is_white(s[0]),
    ensures
        words(seq![' '] + s) == words(s),
{
    let t = seq![' '] + s;
    assert(t.skip(1) =~= s);
    assert(trim_front(t) == trim_front(s));
    assert(trim_front(s) == s);
    assert(words(t) =~= words(s));
}

/// A session is at the path of its pod and container, in the pod's namespace.
pub proof fn law_a_session_is_at_the_path_of_its_container(
    pod: Tree,
    namespace: Seq<char>,
    name: Seq<char>,
    pairs: Seq<(Seq<char>, Seq<char>)>,
    verb: Seq<char>,
    with_command: bool,
)
    requires
        session_in(Some(pod), namespace, name, pairs, verb, with_command) is Ok,
    ensures
        ({
            let s = session_in(Some(pod), namespace, name, pairs, verb, with_command)->Ok_0;
            let c = session_container(pod, first_value(pairs, "container"@), name);
            &&& c is Ok
            &&& s.path == verb + namespace + "/"@ + name + "/"@ + c->Ok_0
            &&& s.query == join(kubelet_options(pairs, with_command), "&"@)
            &&& Tree::String(s.node) == pod.at("spec"@).at("nodeName"@)
        }),
        session_in(None, namespace, name, pairs, verb, with_command) is Err,
        session_in(None, namespace, name, pairs, verb, with_command)->Err_0.status == 404,
{
}

} // verus!
