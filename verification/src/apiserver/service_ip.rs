//! ClusterIP allocation.
//!
//! An address is claimed, not chosen: each address is a key in the store, and
//! claiming it is a create that fails where the key exists. The loser of a race
//! tries the next address.

use vstd::arithmetic::power2::{lemma2_to64, lemma_pow2_pos, lemma_pow2_strictly_increases, pow2};
use vstd::bits::lemma_u32_shl_is_mul;
use vstd::prelude::*;
use vstd::string::*;

use crate::apiserver::error::{err_invalid, ApiError, ErrorView};
use crate::decimal::{parse_unsigned, unsigned};
use crate::ipv4::{address, address_text, format_address, law_address_reads_back, parse_address};
use crate::json::{
    collect_strings, lemma_strings_in, lists_keys, no_items, ordered, str_tree, string_trees, trees,
    Json, Object, Tree,
};
use crate::text::{before, opt_str, same, split_at_first, split_once, texts};

verus! {

/// The key of the claim on an address.
pub open spec fn claim_key(ip: Seq<char>) -> Seq<char> {
    "/registry/serviceipallocations"@ + "/"@ + ip
}

/// The key under which an address is claimed.
pub fn key(ip: &str) -> (r: String)
    ensures
        r@ == claim_key(ip@),
{
    "/registry/serviceipallocations".to_owned().concat("/").concat(ip)
}

/// One address is one key: two claims collide if and only if they are on the
/// same address.
pub proof fn law_one_address_is_one_key(a: Seq<char>, b: Seq<char>)
    ensures
        claim_key(a) == claim_key(b) <==> a == b,
{
    let p = "/registry/serviceipallocations"@ + "/"@;
    assert(claim_key(a).skip(p.len() as int) =~= a);
    assert(claim_key(b).skip(p.len() as int) =~= b);
}

/// A range of addresses: its base and the length of its prefix.
pub open spec fn cidr_of(cidr: Seq<char>) -> Option<(nat, nat)> {
    match split_once(cidr, '/') {
        Some((a, p)) => match (address(a), unsigned(p, u32::MAX as nat)) {
            (Some(base), Some(prefix)) => Some((base, prefix)),
            _ => None,
        },
        None => None,
    }
}

/// `10.96.0.0/12` into its base address and prefix length.
pub fn parse_cidr(cidr: &str) -> (r: Option<(u32, u32)>)
    ensures
        match r {
            Some((base, prefix)) => cidr_of(cidr@) == Some((base as nat, prefix as nat)),
            None => cidr_of(cidr@) is None,
        },
{
    match split_at_first(cidr, '/') {
        Some((a, p)) => match (parse_address(a), parse_unsigned(p, 4294967295)) {
            (Some(base), Some(prefix)) => Some((base, prefix as u32)),
            _ => None,
        },
        None => None,
    }
}

// ---------------------------------------------------------------------------
// Claims
// ---------------------------------------------------------------------------

/// The address that a Service holds.
pub open spec fn held_address(svc: Tree) -> Option<Seq<char>> {
    match svc.at("spec"@).at("clusterIP"@).some_text() {
        Some(ip) => if ip == "None"@ {
            None
        } else {
            Some(ip)
        },
        None => None,
    }
}

/// The namespace and the name of the Service that a claim is for.
pub open spec fn claimant(svc: Tree) -> (Seq<char>, Seq<char>) {
    (
        svc.at("metadata"@).at("namespace"@).text_or("default"@),
        svc.at("metadata"@).at("name"@).text_or_empty(),
    )
}

/// The record of a claim.
pub open spec fn claim_record(ip: Seq<char>, svc: Tree) -> Tree {
    Tree::Object(
        map![
            "ip"@ => Tree::String(ip),
            "namespace"@ => Tree::String(claimant(svc).0),
            "name"@ => Tree::String(claimant(svc).1),
        ],
    )
}

/// A claim: the key to create and the record to create under it.
pub struct Claim {
    pub key: String,
    pub record: Json,
}

/// The address that a Service holds, where it holds one.
pub fn address_of(svc: &Json) -> (r: Option<&str>)
    ensures
        opt_str(r) == held_address(svc@),
{
    match svc.at("spec").at("clusterIP").some_str() {
        Some(ip) => {
            if same(ip, "None") {
                None
            } else {
                Some(ip)
            }
        },
        None => None,
    }
}

/// The claim on an address for a Service.
pub fn claim(ip: &str, svc: &Json) -> (r: Claim)
    ensures
        r.key@ == claim_key(ip@),
        r.record@ == claim_record(ip@, svc@),
{
    let meta = svc.at("metadata");
    let record = Json::object().with("ip", Json::text(ip)).with(
        "namespace",
        Json::text(meta.at("namespace").str_or("default")),
    ).with("name", Json::text(meta.at("name").str_or_empty()));
    Claim { key: key(ip), record }
}

/// The key to delete when a Service is deleted.
pub fn release(svc: &Json) -> (r: Option<String>)
    ensures
        match r {
            Some(k) => held_address(svc@) is Some && k@ == claim_key(held_address(svc@)->0),
            None => held_address(svc@) is None,
        },
{
    match address_of(svc) {
        Some(ip) => Some(key(ip)),
        None => None,
    }
}

/// The claim on the address that a Service carries.
pub fn claim_for(svc: &Json) -> (r: Option<Claim>)
    ensures
        match r {
            Some(c) => held_address(svc@) is Some && c.key@ == claim_key(held_address(svc@)->0)
                && c.record@ == claim_record(held_address(svc@)->0, svc@),
            None => held_address(svc@) is None,
        },
{
    match address_of(svc) {
        Some(ip) => Some(claim(ip, svc)),
        None => None,
    }
}

/// What is claimed for a Service is what its deletion releases.
pub proof fn law_release_undoes_claim(svc: Tree, ip: Seq<char>)
    requires
        held_address(svc) == Some(ip),
    ensures
        claim_record(ip, svc).at("ip"@) == Tree::String(ip),
        claim_key(claim_record(ip, svc).at("ip"@).text_or_empty()) == claim_key(
            held_address(svc)->0,
        ),
{
    reveal_strlit("ip");
    reveal_strlit("name");
    reveal_strlit("namespace");
    assert("ip"@.len() == 2);
    assert("name"@.len() == 4);
    assert("namespace"@.len() == 9);
}

/// The claims on the addresses of some Services, in their order.
pub open spec fn claims_of(svcs: Seq<Tree>) -> Seq<(Seq<char>, Tree)>
    decreases svcs.len(),
{
    if svcs.len() == 0 {
        Seq::empty()
    } else {
        let rest = claims_of(svcs.drop_last());
        match held_address(svcs.last()) {
            Some(ip) => rest.push((claim_key(ip), claim_record(ip, svcs.last()))),
            None => rest,
        }
    }
}

/// Claims as pairs of a key and a record.
pub open spec fn claim_pairs(v: Seq<Claim>) -> Seq<(Seq<char>, Tree)> {
    v.map_values(|c: Claim| (c.key@, c.record@))
}

/// The claims that the Services in the store should have: every address that a
/// Service holds, whichever way it was written.
pub fn reconcile(svcs: &Vec<Json>) -> (r: Vec<Claim>)
    ensures
        claim_pairs(r@) == claims_of(trees(svcs@)),
{
    let mut out: Vec<Claim> = Vec::new();
    let ghost ts = trees(svcs@);
    assert(claim_pairs(out@) =~= Seq::<(Seq<char>, Tree)>::empty());
    let mut i: usize = 0;
    while i < svcs.len()
        invariant
            i <= svcs.len(),
            ts == trees(svcs@),
            claim_pairs(out@) == claims_of(ts.take(i as int)),
        decreases svcs.len() - i,
    {
        proof {
            assert(ts.take(i + 1).drop_last() =~= ts.take(i as int));
            assert(ts.take(i + 1).last() == svcs@[i as int]@);
        }
        let ghost was = claim_pairs(out@);
        match claim_for(&svcs[i]) {
            Some(c) => {
                out.push(c);
                assert(claim_pairs(out@) =~= was.push((c.key@, c.record@)));
            },
            None => {},
        }
        i = i + 1;
    }
    assert(ts.take(i as int) =~= ts);
    out
}

/// Every address that a Service holds is claimed.
pub proof fn law_every_held_address_is_claimed(svcs: Seq<Tree>, i: int)
    requires
        0 <= i < svcs.len(),
        held_address(svcs[i]) is Some,
    ensures
        claims_of(svcs).contains(
            (
                claim_key(held_address(svcs[i])->0),
                claim_record(held_address(svcs[i])->0, svcs[i]),
            ),
        ),
    decreases svcs.len(),
{
    let rest = claims_of(svcs.drop_last());
    if i < svcs.len() - 1 {
        assert(svcs.drop_last()[i] == svcs[i]);
        law_every_held_address_is_claimed(svcs.drop_last(), i);
        let c = (
            claim_key(held_address(svcs[i])->0),
            claim_record(held_address(svcs[i])->0, svcs[i]),
        );
        let k = rest.index_of(c);
        assert(claims_of(svcs)[k] == c);
    } else {
        assert(claims_of(svcs)[rest.len() as int] == claims_of(svcs).last());
    }
}

// ---------------------------------------------------------------------------
// Duplicates
// ---------------------------------------------------------------------------

/// A Service as namespace and name.
pub open spec fn service_label(svc: Tree) -> Seq<char> {
    claimant(svc).0 + "/"@ + claimant(svc).1
}

/// The Services that hold an address, in their order.
pub open spec fn holders(svcs: Seq<Tree>, ip: Seq<char>) -> Seq<Seq<char>>
    decreases svcs.len(),
{
    if svcs.len() == 0 {
        Seq::empty()
    } else {
        let rest = holders(svcs.drop_last(), ip);
        if held_address(svcs.last()) == Some(ip) {
            rest.push(service_label(svcs.last()))
        } else {
            rest
        }
    }
}

/// The addresses of some groups.
pub open spec fn group_addresses(v: Seq<(String, Vec<String>)>) -> Seq<Seq<char>> {
    v.map_values(|g: (String, Vec<String>)| g.0@)
}

/// The holders of every address, by address.
spec fn grouped(m: Map<Seq<char>, Tree>, svcs: Seq<Tree>) -> bool {
    forall|ip: Seq<char>|
        #![trigger m.contains_key(ip)]
        #![trigger holders(svcs, ip)]
        (m.contains_key(ip) <==> holders(svcs, ip).len() > 0) && (m.contains_key(ip) ==> m[ip]
            == Tree::Array(string_trees(holders(svcs, ip))))
}

fn group(svcs: &Vec<Json>) -> (r: Object)
    ensures
        grouped(r.map(), trees(svcs@)),
{
    let mut groups = Object::new();
    let ghost ts = trees(svcs@);
    let mut i: usize = 0;
    while i < svcs.len()
        invariant
            i <= svcs.len(),
            ts == trees(svcs@),
            grouped(groups.map(), ts.take(i as int)),
        decreases svcs.len() - i,
    {
        let svc = &svcs[i];
        let ghost was = groups.map();
        let ghost head = ts.take(i as int);
        let ghost next = ts.take(i + 1);
        proof {
            assert(next.drop_last() =~= head);
            assert(next.last() == svc@);
        }
        match address_of(svc) {
            Some(ip) => {
                let meta = svc.at("metadata");
                let label = meta.at("namespace").str_or("default").to_owned().concat("/").concat(
                    meta.at("name").str_or_empty(),
                );
                let names = match groups.get(ip) {
                    Some(v) => v.dup(),
                    None => Json::list(),
                };
                assert(names@ == Tree::Array(string_trees(holders(head, ip@)))) by {
                    if !was.contains_key(ip@) {
                        assert(string_trees(holders(head, ip@)) =~= Seq::<Tree>::empty());
                    }
                }
                let more = names.and(Json::text(label.as_str()));
                groups = groups.insert(ip, more);
                proof {
                    assert(string_trees(holders(next, ip@)) =~= string_trees(
                        holders(head, ip@),
                    ).push(Tree::String(label@)));
                    assert forall|other: Seq<char>|
                        #![trigger groups.map().contains_key(other)]
                        #![trigger holders(next, other)]
                        (groups.map().contains_key(other) <==> holders(next, other).len() > 0) && (
                        groups.map().contains_key(other) ==> groups.map()[other] == Tree::Array(
                            string_trees(holders(next, other)),
                        )) by {
                        assert(was.contains_key(other) <==> holders(head, other).len() > 0);
                    }
                }
            },
            None => {
                assert forall|other: Seq<char>| holders(next, other) == #[trigger] holders(
                    head,
                    other,
                ) by {}
                assert forall|other: Seq<char>|
                    #![trigger was.contains_key(other)]
                    #![trigger holders(next, other)]
                    (was.contains_key(other) <==> holders(next, other).len() > 0) && (
                    was.contains_key(other) ==> was[other] == Tree::Array(
                        string_trees(holders(next, other)),
                    )) by {
                    assert(holders(next, other) == holders(head, other));
                }
            },
        }
        i = i + 1;
    }
    assert(ts.take(i as int) =~= ts);
    groups
}

/// The addresses that more than one Service holds, in order, each with its
/// holders.
pub fn duplicates(svcs: &Vec<Json>) -> (r: Vec<(String, Vec<String>)>)
    ensures
        ordered(group_addresses(r@)),
        forall|ip: Seq<char>| #[trigger]
            group_addresses(r@).contains(ip) <==> holders(trees(svcs@), ip).len() > 1,
        forall|i: int|
            0 <= i < r@.len() ==> texts((#[trigger] r@[i]).1@) == holders(
                trees(svcs@),
                r@[i].0@,
            ),
{
    let groups = group(svcs);
    let ghost ts = trees(svcs@);
    let n: usize = groups.len();
    let ghost keys = groups.keys();
    let mut out: Vec<(String, Vec<String>)> = Vec::new();
    // the position in `keys` of each group
    let ghost mut at: Seq<int> = Seq::empty();
    let mut i: usize = 0;
    while i < n
        invariant
            i <= n,
            n == keys.len(),
            keys == groups.keys(),
            lists_keys(keys, groups.map()),
            grouped(groups.map(), ts),
            at.len() == out@.len(),
            forall|j: int| 0 <= j < at.len() ==> 0 <= #[trigger] at[j] < i,
            forall|j: int, k: int|
                0 <= j < k < at.len() ==> #[trigger] at[j] < #[trigger] at[k],
            forall|j: int|
                #![trigger out@[j]]
                0 <= j < out@.len() ==> out@[j].0@ == keys[at[j]] && texts(out@[j].1@) == holders(
                    ts,
                    out@[j].0@,
                ) && holders(ts, out@[j].0@).len() > 1,
            forall|k: int|
                0 <= k < i && holders(ts, #[trigger] keys[k]).len() > 1 ==> at.contains(k),
        decreases n - i,
    {
        let ip = groups.key(i);
        let names = collect_strings(groups.value(i));
        let ghost was = at;
        proof {
            assert(groups.map().contains_key(ip@));
            lemma_strings_in(holders(ts, ip@));
            assert(texts(names@).len() == names@.len());
        }
        if names.len() > 1 {
            out.push((ip.to_owned(), names));
            proof {
                at = at.push(i as int);
                assert(at[was.len() as int] == i);
                assert forall|k: int|
                    0 <= k < i + 1 && holders(ts, #[trigger] keys[k]).len()
                        > 1 implies at.contains(k) by {
                    if k < i {
                        assert(was.contains(k));
                        let j = was.index_of(k);
                        assert(at[j] == k);
                    }
                }
            }
        }
        i = i + 1;
    }
    proof {
        let found = group_addresses(out@);
        assert forall|a: int, b: int| 0 <= a < b < found.len() implies before(
            #[trigger] found[a],
            #[trigger] found[b],
        ) by {
            assert(found[a] == out@[a].0@ && found[b] == out@[b].0@);
            assert(at[a] < at[b]);
            assert(before(keys[at[a]], keys[at[b]]));
        }
        assert forall|ip: Seq<char>| #[trigger] found.contains(ip) <==> holders(ts, ip).len()
            > 1 by {
            if found.contains(ip) {
                let j = found.index_of(ip);
                assert(found[j] == out@[j].0@);
            }
            if holders(ts, ip).len() > 1 {
                assert(groups.map().contains_key(ip));
                assert(keys.contains(ip));
                let k = keys.index_of(ip);
                assert(at.contains(k));
                let j = at.index_of(k);
                assert(out@[j].0@ == ip);
                assert(found[j] == ip);
            }
        }
    }
    out
}

// ---------------------------------------------------------------------------
// Allocation
// ---------------------------------------------------------------------------

/// The number of addresses under a prefix, other than 0.
pub open spec fn range_size(prefix: nat) -> nat {
    if prefix >= 32 {
        1
    } else {
        pow2((32 - prefix) as nat)
    }
}

/// The address at an offset into a range, where it may be handed out: not the
/// base, not the last of the range, and an address at all.
pub open spec fn candidate(base: nat, prefix: nat, offset: nat) -> Option<Seq<char>> {
    if 1 <= offset && offset + 1 < range_size(prefix) && base + offset <= u32::MAX {
        Some(address_text(base + offset))
    } else {
        None
    }
}

/// A Service with an address.
pub open spec fn with_addresses(svc: Tree, ip: Seq<char>) -> Tree {
    svc.set(
        "spec"@,
        svc.at("spec"@).set("clusterIPs"@, no_items().plus(Tree::String(ip))),
    )
}

/// A Service with the address that was claimed for it.
pub open spec fn with_cluster_ip(svc: Tree, ip: Seq<char>) -> Tree {
    let spec = svc.at("spec"@).set("clusterIP"@, Tree::String(ip)).set(
        "clusterIPs"@,
        no_items().plus(Tree::String(ip)),
    );
    svc.set(
        "spec"@,
        if spec.at("type"@) is String {
            spec
        } else {
            spec.set("type"@, str_tree("ClusterIP"))
        },
    )
}

/// What to do next for the address of a Service.
pub ghost enum StepView {
    /// The Service, as it is to be stored.
    Done(Tree),
    /// Claim the address that the Service asks for.
    Fixed(Seq<char>),
    /// Claim the address at an offset into the range.
    Try(nat, Seq<char>),
    /// The Service is refused.
    Refused(ErrorView),
}

/// What to do next for the address of a Service.
pub enum Step {
    /// The Service, as it is to be stored.
    Done(Json),
    /// Claim the address that the Service asks for.
    Fixed(String),
    /// Claim the address at an offset into the range.
    Try(u32, String),
    /// The Service is refused.
    Refused(ApiError),
}

impl View for Step {
    type V = StepView;

    open spec fn view(&self) -> StepView {
        match self {
            Step::Done(v) => StepView::Done(v@),
            Step::Fixed(ip) => StepView::Fixed(ip@),
            Step::Try(offset, ip) => StepView::Try(*offset as nat, ip@),
            Step::Refused(e) => StepView::Refused(e@),
        }
    }
}

/// The first step for a Service.
pub open spec fn first_step(cidr: Seq<char>, svc: Tree) -> StepView {
    if svc.at("spec"@).at("type"@) == str_tree("ExternalName") {
        StepView::Done(svc)
    } else if svc.at("spec"@).at("clusterIP"@) == str_tree("None") {
        StepView::Done(with_addresses(svc, "None"@))
    } else {
        match svc.at("spec"@).at("clusterIP"@).some_text() {
            Some(ip) => StepView::Fixed(ip),
            None => match cidr_of(cidr) {
                Some(_) => scan_from(cidr, 1),
                None => StepView::Done(svc),
            },
        }
    }
}

/// The step after a claim: `won` says whether the claim was made.
pub open spec fn next_step(cidr: Seq<char>, svc: Tree, step: StepView, won: bool) -> StepView {
    match step {
        StepView::Fixed(ip) => if won {
            StepView::Done(with_addresses(svc, ip))
        } else {
            StepView::Refused(err_invalid("ClusterIP "@ + ip + " is already allocated"@))
        },
        StepView::Try(offset, ip) => if won {
            StepView::Done(with_cluster_ip(svc, ip))
        } else {
            match cidr_of(cidr) {
                Some(_) => scan_from(cidr, offset + 1),
                None => StepView::Done(svc),
            }
        },
        _ => step,
    }
}

/// The length of the prefix of a range.
pub open spec fn prefix_in(cidr: Seq<char>) -> nat {
    match cidr_of(cidr) {
        Some((_, prefix)) => prefix,
        None => 0,
    }
}

/// The address at an offset into a range, where it may be handed out.
pub open spec fn candidate_in(cidr: Seq<char>, offset: nat) -> Option<Seq<char>> {
    match cidr_of(cidr) {
        Some((base, prefix)) => candidate(base, prefix, offset),
        None => None,
    }
}

/// The next address to try in a range, from an offset on.
pub open spec fn scan_from(cidr: Seq<char>, offset: nat) -> StepView {
    match candidate_in(cidr, offset) {
        Some(ip) => StepView::Try(offset, ip),
        None => StepView::Refused(err_invalid("no ClusterIP available in "@ + cidr)),
    }
}

/// A Service whose address can be written, and a range that has a prefix.
pub open spec fn allocatable(cidr: Seq<char>, svc: Tree) -> bool {
    &&& svc.settable()
    &&& svc.at("spec"@).settable()
    &&& cidr_of(cidr) is Some ==> prefix_in(cidr) > 0
}

proof fn lemma_range_size(prefix: nat)
    requires
        prefix > 0,
    ensures
        1 <= range_size(prefix) <= 0x8000_0000,
{
    lemma2_to64();
    if prefix < 32 {
        let n = (32 - prefix) as nat;
        lemma_pow2_pos(n);
        if n < 31 {
            lemma_pow2_strictly_increases(n, 31);
        }
    }
}

fn size_of_range(prefix: u32) -> (r: u32)
    requires
        prefix > 0,
    ensures
        r == range_size(prefix as nat),
{
    if prefix >= 32 {
        return 1;
    }
    let shift: u32 = 32 - prefix;
    proof {
        lemma_range_size(prefix as nat);
        lemma_u32_shl_is_mul(1, shift);
    }
    1u32 << shift
}

fn try_at(cidr: &str, base: u32, prefix: u32, offset: u32) -> (r: Step)
    requires
        prefix > 0,
        offset > 0,
        cidr_of(cidr@) == Some((base as nat, prefix as nat)),
    ensures
        r@ == scan_from(cidr@, offset as nat),
{
    let size = size_of_range(prefix);
    if size > 0 && offset < size - 1 && base <= 4294967295 - offset {
        Step::Try(offset, format_address(base + offset))
    } else {
        let m = "no ClusterIP available in ".to_owned().concat(cidr);
        Step::Refused(ApiError::invalid(m.as_str()))
    }
}

/// Starts to give a Service a ClusterIP, unless it should not have one.
pub fn allocate(cidr: &str, svc: &Json) -> (r: Step)
    requires
        allocatable(cidr@, svc@),
    ensures
        r@ == first_step(cidr@, svc@),
{
    let spec = svc.at("spec");
    if spec.at("type").is_text("ExternalName") {
        return Step::Done(svc.dup());
    }
    if spec.at("clusterIP").is_text("None") {
        return Step::Done(set_addresses(svc, "None"));
    }
    match spec.at("clusterIP").some_str() {
        Some(ip) => Step::Fixed(ip.to_owned()),
        None => match parse_cidr(cidr) {
            Some((base, prefix)) => try_at(cidr, base, prefix, 1),
            None => Step::Done(svc.dup()),
        },
    }
}

fn set_addresses(svc: &Json, ip: &str) -> (r: Json)
    requires
        svc@.settable(),
        svc@.at("spec"@).settable(),
    ensures
        r@ == with_addresses(svc@, ip@),
{
    let mut out = svc.dup();
    let mut spec = svc.at("spec").dup();
    spec.set("clusterIPs", Json::list().and(Json::text(ip)));
    out.set("spec", spec);
    out
}

fn set_cluster_ip(svc: &Json, ip: &str) -> (r: Json)
    requires
        svc@.settable(),
        svc@.at("spec"@).settable(),
    ensures
        r@ == with_cluster_ip(svc@, ip@),
{
    let mut out = svc.dup();
    let mut spec = svc.at("spec").dup();
    spec.set("clusterIP", Json::text(ip));
    spec.set("clusterIPs", Json::list().and(Json::text(ip)));
    if !spec.at("type").is_string() {
        spec.set("type", Json::text("ClusterIP"));
    }
    out.set("spec", spec);
    out
}

/// Goes on after a claim: `won` says whether the claim was made.
pub fn allocate_next(cidr: &str, svc: &Json, step: Step, won: bool) -> (r: Step)
    requires
        allocatable(cidr@, svc@),
    ensures
        r@ == next_step(cidr@, svc@, step@, won),
{
    match step {
        Step::Fixed(ip) => {
            if won {
                Step::Done(set_addresses(svc, ip.as_str()))
            } else {
                let m = "ClusterIP ".to_owned().concat(ip.as_str()).concat(
                    " is already allocated",
                );
                Step::Refused(ApiError::invalid(m.as_str()))
            }
        },
        Step::Try(offset, ip) => {
            if won {
                return Step::Done(set_cluster_ip(svc, ip.as_str()));
            }
            match parse_cidr(cidr) {
                Some((base, prefix)) => {
                    if offset == 4294967295 {
                        proof {
                            lemma_range_size(prefix as nat);
                        }
                        let m = "no ClusterIP available in ".to_owned().concat(cidr);
                        Step::Refused(ApiError::invalid(m.as_str()))
                    } else {
                        try_at(cidr, base, prefix, offset + 1)
                    }
                },
                None => Step::Done(svc.dup()),
            }
        },
        other => other,
    }
}

/// How many addresses a step may still try.
pub open spec fn tries_left(cidr: Seq<char>, step: StepView) -> nat {
    match (step, cidr_of(cidr)) {
        (StepView::Try(offset, _), Some((_, prefix))) => if offset < range_size(prefix) {
            (range_size(prefix) - offset) as nat
        } else {
            0
        },
        _ => 0,
    }
}

/// Where the steps for a Service end, when the addresses in `claimed` are those
/// that somebody else holds.
pub open spec fn settled(
    cidr: Seq<char>,
    svc: Tree,
    step: StepView,
    claimed: Set<Seq<char>>,
) -> StepView
    decreases tries_left(cidr, step),
{
    match step {
        StepView::Fixed(ip) => next_step(cidr, svc, step, !claimed.contains(ip)),
        StepView::Try(offset, ip) => if claimed.contains(ip) && tries_left(
            cidr,
            next_step(cidr, svc, step, false),
        ) < tries_left(cidr, step) {
            settled(cidr, svc, next_step(cidr, svc, step, false), claimed)
        } else {
            next_step(cidr, svc, step, !claimed.contains(ip))
        },
        _ => step,
    }
}

/// The network address is never handed out, nor the last address of the range:
/// a candidate lies strictly between them.
pub proof fn law_network_address_is_never_handed_out(base: nat, prefix: nat, offset: nat)
    requires
        base <= u32::MAX,
        candidate(base, prefix, offset) is Some,
    ensures
        candidate(base, prefix, offset)->0 != address_text(base),
        address(candidate(base, prefix, offset)->0) == Some(base + offset),
        base < base + offset < base + range_size(prefix) - 1,
{
    law_address_reads_back(base);
    law_address_reads_back(base + offset);
}

/// A Service that asks for no address of its own gets the lowest one that nobody
/// holds.
pub proof fn law_lowest_free_address(
    cidr: Seq<char>,
    svc: Tree,
    claimed: Set<Seq<char>>,
    from: nat,
    free: nat,
)
    requires
        cidr_of(cidr) is Some,
        from <= free,
        candidate_in(cidr, free) is Some,
        !claimed.contains(candidate_in(cidr, free)->0),
        forall|o: nat|
            from <= o < free ==> (#[trigger] candidate_in(cidr, o)) is Some && claimed.contains(
                candidate_in(cidr, o)->0,
            ),
    ensures
        settled(
            cidr,
            svc,
            scan_from(cidr, from),
            claimed,
        ) == StepView::Done(
            with_cluster_ip(svc, candidate_in(cidr, free)->0),
        ),
    decreases free - from,
{
    if from < free {
        assert(candidate_in(cidr, from) is Some);
        law_lowest_free_address(cidr, svc, claimed, from + 1, free);
    }
}

/// Where every address of the range is held, a Service that asks for none of its
/// own is refused.
pub proof fn law_a_full_range_refuses(
    cidr: Seq<char>,
    svc: Tree,
    claimed: Set<Seq<char>>,
    from: nat,
)
    requires
        cidr_of(cidr) is Some,
        from >= 1,
        forall|o: nat|
            (#[trigger] candidate_in(cidr, o)) is Some
                ==> claimed.contains(candidate_in(cidr, o)->0),
    ensures
        settled(
            cidr,
            svc,
            scan_from(cidr, from),
            claimed,
        ) == StepView::Refused(err_invalid("no ClusterIP available in "@ + cidr)),
    decreases range_size(prefix_in(cidr)) - from,
{
    if candidate_in(cidr, from) is Some {
        law_a_full_range_refuses(cidr, svc, claimed, from + 1);
    }
}

/// An address that somebody holds is not given out again: whatever address the
/// steps for a Service claim, nobody held it.
pub proof fn law_no_address_twice(
    cidr: Seq<char>,
    svc: Tree,
    step: StepView,
    claimed: Set<Seq<char>>,
)
    requires
        svc.settable(),
        svc.at("spec"@).settable(),
        step is Fixed || step is Try,
        tries_left(cidr, step) > 0 || step is Fixed,
        settled(cidr, svc, step, claimed) is Done,
    ensures
        settled(cidr, svc, step, claimed)->Done_0.at("spec"@).at("clusterIPs"@).item(
            0,
        ) is String,
        !claimed.contains(
            settled(cidr, svc, step, claimed)->Done_0.at("spec"@).at("clusterIPs"@).item(
                0,
            ).text_or_empty(),
        ),
    decreases tries_left(cidr, step),
{
    reveal_strlit("clusterIP");
    reveal_strlit("clusterIPs");
    reveal_strlit("type");
    assert("clusterIP"@.len() == 9);
    assert("clusterIPs"@.len() == 10);
    assert("type"@.len() == 4);
    match step {
        StepView::Try(offset, ip) => {
            if claimed.contains(ip) {
                let next = next_step(cidr, svc, step, false);
                if next is Try {
                    law_no_address_twice(cidr, svc, next, claimed);
                }
            }
        },
        _ => {},
    }
}

/// A Service that asks for no type and no address of its own.
pub open spec fn asks_for_nothing(svc: Tree) -> bool {
    &&& svc.settable()
    &&& svc.at("spec"@).settable()
    &&& !(svc.at("spec"@).at("type"@) is String)
    &&& !(svc.at("spec"@).at("clusterIP"@) is String)
}

/// The addresses of some Services while they are claimed, side by side and in any
/// order.
pub ghost struct Claiming {
    /// The addresses that are claimed.
    pub claimed: Set<Seq<char>>,
    /// What is next for each Service.
    pub steps: Seq<StepView>,
    /// The address that each Service has won.
    pub won: Seq<Option<Seq<char>>>,
}

/// The address that a step claims.
pub open spec fn claimed_by(step: StepView) -> Option<Seq<char>> {
    match step {
        StepView::Fixed(ip) => Some(ip),
        StepView::Try(_, ip) => Some(ip),
        _ => None,
    }
}

/// Some Services before the first claim.
pub open spec fn before_claims(
    cidr: Seq<char>,
    svcs: Seq<Tree>,
    claimed: Set<Seq<char>>,
) -> Claiming {
    Claiming {
        claimed,
        steps: Seq::new(svcs.len(), |i: int| first_step(cidr, svcs[i])),
        won: Seq::new(svcs.len(), |i: int| None::<Seq<char>>),
    }
}

/// What the claim of one of the Services makes of them: it is won where nobody holds
/// the address, and the address is held from then on.
pub open spec fn after_claim(cidr: Seq<char>, svcs: Seq<Tree>, c: Claiming, i: int) -> Claiming {
    match claimed_by(c.steps[i]) {
        Some(ip) => {
            let won = !c.claimed.contains(ip);
            Claiming {
                claimed: c.claimed.insert(ip),
                steps: c.steps.update(i, next_step(cidr, svcs[i], c.steps[i], won)),
                won: if won {
                    c.won.update(i, Some(ip))
                } else {
                    c.won
                },
            }
        },
        None => c,
    }
}

/// Where a Service that asks for nothing can stand: it tries an address of the
/// range, it has one, or it is refused.
pub open spec fn on_its_way(
    cidr: Seq<char>,
    svc: Tree,
    step: StepView,
    won: Option<Seq<char>>,
) -> bool {
    match step {
        StepView::Try(offset, ip) => won is None && candidate_in(cidr, offset) == Some(ip),
        StepView::Done(v) => won is Some && v == with_cluster_ip(svc, won->0) && exists|offset: nat|
            #[trigger] candidate_in(cidr, offset) == won,
        StepView::Refused(_) => won is None,
        StepView::Fixed(_) => false,
    }
}

/// Every address that was won is held, and no two Services have won the same.
pub open spec fn claims_apart(cidr: Seq<char>, svcs: Seq<Tree>, c: Claiming) -> bool {
    &&& c.steps.len() == svcs.len()
    &&& c.won.len() == svcs.len()
    &&& forall|i: int|
        0 <= i < svcs.len() && claimed_by(#[trigger] c.steps[i]) is Some ==> c.won[i] is None
    &&& forall|i: int|
        0 <= i < svcs.len() && (#[trigger] c.won[i]) is Some ==> c.claimed.contains(c.won[i]->0)
    &&& forall|i: int, j: int|
        0 <= i < j < svcs.len() && (#[trigger] c.won[i]) is Some ==> c.won[i] != #[trigger] c.won[j]
    &&& forall|i: int|
        0 <= i < svcs.len() && asks_for_nothing(#[trigger] svcs[i]) && cidr_of(cidr) is Some
            ==> on_its_way(cidr, svcs[i], c.steps[i], c.won[i])
}

/// Before the first claim nothing is won.
pub proof fn law_claims_begin_apart(cidr: Seq<char>, svcs: Seq<Tree>, claimed: Set<Seq<char>>)
    ensures
        claims_apart(cidr, svcs, before_claims(cidr, svcs, claimed)),
{
    let c = before_claims(cidr, svcs, claimed);
    assert forall|i: int|
        0 <= i < svcs.len() && asks_for_nothing(#[trigger] svcs[i]) && cidr_of(
            cidr,
        ) is Some implies on_its_way(cidr, svcs[i], c.steps[i], c.won[i]) by {
        assert(c.steps[i] == first_step(cidr, svcs[i]));
    }
}

/// A claim keeps the Services apart, whichever of them claims next, and so do the
/// claims of anybody else.
pub proof fn law_claims_stay_apart(
    cidr: Seq<char>,
    svcs: Seq<Tree>,
    c: Claiming,
    i: int,
    others: Set<Seq<char>>,
)
    requires
        claims_apart(cidr, svcs, c),
        0 <= i < svcs.len(),
    ensures
        claims_apart(cidr, svcs, after_claim(cidr, svcs, c, i)),
        claims_apart(cidr, svcs, Claiming { claimed: c.claimed.union(others), ..c }),
{
    let d = after_claim(cidr, svcs, c, i);
    if let Some(ip) = claimed_by(c.steps[i]) {
        assert(c.won[i] is None);
        let won = !c.claimed.contains(ip);
        let next = next_step(cidr, svcs[i], c.steps[i], won);
        assert(d.steps[i] == next);
        assert forall|k: int|
            0 <= k < svcs.len() && claimed_by(#[trigger] d.steps[k]) is Some implies d.won[k] is None by {
            if k != i {
                assert(d.steps[k] == c.steps[k]);
            }
        }
        assert forall|k: int| 0 <= k < svcs.len() && (#[trigger] d.won[k]) is Some implies d.claimed.contains(
            d.won[k]->0,
        ) by {
            if k != i {
                assert(d.won[k] == c.won[k]);
            }
        }
        assert forall|k: int, l: int|
            0 <= k < l < svcs.len() && (#[trigger] d.won[k]) is Some implies d.won[k]
            != #[trigger] d.won[l] by {
            assert(k != i ==> d.won[k] == c.won[k]);
            assert(l != i ==> d.won[l] == c.won[l]);
            if c.won[l] is Some {
                assert(c.claimed.contains(c.won[l]->0));
            }
            if c.won[k] is Some {
                assert(c.claimed.contains(c.won[k]->0));
            }
        }
        assert forall|k: int|
            0 <= k < svcs.len() && asks_for_nothing(#[trigger] svcs[k]) && cidr_of(
                cidr,
            ) is Some implies on_its_way(cidr, svcs[k], d.steps[k], d.won[k]) by {
            assert(on_its_way(cidr, svcs[k], c.steps[k], c.won[k]));
            if k != i {
                assert(d.steps[k] == c.steps[k] && d.won[k] == c.won[k]);
            } else {
                let offset = c.steps[i]->Try_0;
                assert(candidate_in(cidr, offset) == Some(ip));
            }
        }
    }
}

/// Two Services that ask for nothing and are given an address each are given two:
/// each has an address strictly between the first and the last of the range, in
/// both of its fields, and the type `ClusterIP`; and the two differ.
pub proof fn law_two_services_have_two_addresses(
    cidr: Seq<char>,
    svcs: Seq<Tree>,
    c: Claiming,
    i: int,
    j: int,
)
    requires
        claims_apart(cidr, svcs, c),
        cidr_of(cidr) is Some,
        0 <= i < svcs.len(),
        0 <= j < svcs.len(),
        i != j,
        asks_for_nothing(svcs[i]),
        asks_for_nothing(svcs[j]),
        c.steps[i] is Done,
        c.steps[j] is Done,
    ensures
        given_from(cidr, c.steps[i]->Done_0),
        given_from(cidr, c.steps[j]->Done_0),
        c.steps[i]->Done_0.at("spec"@).at("clusterIP"@) != c.steps[j]->Done_0.at("spec"@).at(
            "clusterIP"@,
        ),
{
    assert(on_its_way(cidr, svcs[i], c.steps[i], c.won[i]));
    assert(on_its_way(cidr, svcs[j], c.steps[j], c.won[j]));
    lemma_given(cidr, svcs[i], c.won[i]->0);
    lemma_given(cidr, svcs[j], c.won[j]->0);
    if i < j {
        assert(c.won[i] != c.won[j]);
    } else {
        assert(c.won[j] != c.won[i]);
    }
}

/// A Service has an address strictly between the first and the last of a range, and
/// says so in each of its fields.
pub open spec fn given_from(cidr: Seq<char>, svc: Tree) -> bool {
    let spec = svc.at("spec"@);
    let (base, prefix) = cidr_of(cidr)->0;
    &&& spec.at("clusterIP"@) is String
    &&& spec.at("clusterIPs"@) == no_items().plus(spec.at("clusterIP"@))
    &&& spec.at("type"@) == str_tree("ClusterIP")
    &&& match address(spec.at("clusterIP"@)->String_0) {
        Some(a) => base < a < base + range_size(prefix) - 1,
        None => false,
    }
}

proof fn lemma_given(cidr: Seq<char>, svc: Tree, ip: Seq<char>)
    requires
        cidr_of(cidr) is Some,
        asks_for_nothing(svc),
        exists|offset: nat| #[trigger] candidate_in(cidr, offset) == Some(ip),
    ensures
        given_from(cidr, with_cluster_ip(svc, ip)),
        with_cluster_ip(svc, ip).at("spec"@).at("clusterIP"@) == Tree::String(ip),
{
    reveal_strlit("clusterIP");
    reveal_strlit("clusterIPs");
    reveal_strlit("type");
    assert("clusterIP"@.len() == 9);
    assert("clusterIPs"@.len() == 10);
    assert("type"@.len() == 4);
    let (base, prefix) = cidr_of(cidr)->0;
    let offset = choose|offset: nat| #[trigger] candidate_in(cidr, offset) == Some(ip);
    law_address_reads_back(base + offset);
}

/// Where every address of the range is held, a Service that asks for nothing is
/// refused as invalid.
pub proof fn law_a_full_range_refuses_a_service(
    cidr: Seq<char>,
    svc: Tree,
    claimed: Set<Seq<char>>,
)
    requires
        cidr_of(cidr) is Some,
        asks_for_nothing(svc),
        forall|o: nat|
            (#[trigger] candidate_in(cidr, o)) is Some
                ==> claimed.contains(candidate_in(cidr, o)->0),
    ensures
        settled(cidr, svc, first_step(cidr, svc), claimed) == StepView::Refused(
            err_invalid("no ClusterIP available in "@ + cidr),
        ),
        err_invalid("no ClusterIP available in "@ + cidr).status == 422,
{
    law_a_full_range_refuses(cidr, svc, claimed, 1);
}

/// A Service holds the address that it names, if it names one at all.
pub proof fn law_a_service_holds_what_it_names(svc: Tree)
    ensures
        ({
            let ip = svc.at("spec"@).at("clusterIP"@);
            &&& !(ip is String) ==> held_address(svc) is None
            &&& ip is String && (ip->String_0).len() == 0 ==> held_address(svc) is None
            &&& ip == str_tree("None") ==> held_address(svc) is None
            &&& ip is String && (ip->String_0).len() > 0 && ip->String_0 != "None"@
                ==> held_address(svc) == Some(ip->String_0)
        }),
{
}

/// A claim says for which Service it is.
pub proof fn law_a_claim_names_its_service(ip: Seq<char>, svc: Tree)
    ensures
        ({
            let r = claim_record(ip, svc);
            let meta = svc.at("metadata"@);
            &&& r.at("ip"@) == Tree::String(ip)
            &&& meta.at("namespace"@) is String ==> r.at("namespace"@) == meta.at("namespace"@)
            &&& !(meta.at("namespace"@) is String) ==> r.at("namespace"@) == str_tree("default")
            &&& meta.at("name"@) is String ==> r.at("name"@) == meta.at("name"@)
        }),
{
    reveal_strlit("ip");
    reveal_strlit("namespace");
    reveal_strlit("name");
    assert("ip"@.len() == 2);
    assert("namespace"@.len() == 9);
    assert("name"@.len() == 4);
}

/// What a Service is given is its address, and a type where it has none; nothing else of it
/// changes.
pub proof fn law_an_address_is_all_that_is_given(
    svc: Tree,
    ip: Seq<char>,
    key: Seq<char>,
    field: Seq<char>,
)
    requires
        svc.settable(),
        svc.at("spec"@).settable(),
        key != "spec"@,
        field != "clusterIP"@,
        field != "clusterIPs"@,
        field != "type"@,
    ensures
        ({
            let r = with_cluster_ip(svc, ip);
            &&& r.get(key) == svc.get(key)
            &&& r.at("spec"@).get(field) == svc.at("spec"@).get(field)
            &&& r.at("spec"@).at("clusterIP"@) == Tree::String(ip)
            &&& r.at("spec"@).at("clusterIPs"@) == Tree::Array(seq![Tree::String(ip)])
            &&& svc.at("spec"@).at("type"@) is String ==> r.at("spec"@).at("type"@) == svc.at(
                "spec"@,
            ).at("type"@)
            &&& !(svc.at("spec"@).at("type"@) is String) ==> r.at("spec"@).at("type"@) == str_tree(
                "ClusterIP",
            )
        }),
        ({
            let r = with_addresses(svc, ip);
            &&& r.get(key) == svc.get(key)
            &&& r.at("spec"@).get(field) == svc.at("spec"@).get(field)
            &&& r.at("spec"@).get("clusterIP"@) == svc.at("spec"@).get("clusterIP"@)
            &&& r.at("spec"@).get("type"@) == svc.at("spec"@).get("type"@)
            &&& r.at("spec"@).at("clusterIPs"@) == Tree::Array(seq![Tree::String(ip)])
        }),
{
    reveal_strlit("spec");
    reveal_strlit("clusterIP");
    reveal_strlit("clusterIPs");
    reveal_strlit("type");
    assert("spec"@.len() == 4);
    assert("clusterIP"@.len() == 9);
    assert("clusterIPs"@.len() == 10);
    assert("type"@.len() == 4);
    assert("spec"@[0] == 's');
    assert("type"@[0] == 't');
    assert(no_items().items_or_none().push(Tree::String(ip)) =~= seq![Tree::String(ip)]);
}

/// A Service of an outside name gets no address, a headless one none but the word for that,
/// one that names its address that or nothing, and every other one of the range.
pub proof fn law_what_a_service_asks_for(cidr: Seq<char>, svc: Tree)
    ensures
        ({
            let spec = svc.at("spec"@);
            let named = spec.at("clusterIP"@) is String && (spec.at(
                "clusterIP"@,
            )->String_0).len() > 0;
            let outside = spec.at("type"@) == str_tree("ExternalName");
            &&& outside ==> first_step(cidr, svc) == StepView::Done(svc)
            &&& !outside && spec.at("clusterIP"@) == str_tree("None") ==> first_step(cidr, svc)
                == StepView::Done(with_addresses(svc, "None"@))
            &&& !outside && named && spec.at("clusterIP"@) != str_tree("None") ==> first_step(
                cidr,
                svc,
            ) == StepView::Fixed(spec.at("clusterIP"@)->String_0)
            &&& first_step(cidr, svc) is Try ==> !outside && !named
            &&& first_step(cidr, svc) is Fixed ==> named
            &&& first_step(cidr, svc) is Try ==> first_step(cidr, svc)->Try_0 == 1
        }),
{
    reveal_strlit("None");
    assert("None"@.len() == 4);
}

/// Who names an address has it or is refused; who loses a race for another goes on to the one
/// behind it.
pub proof fn law_the_loser_goes_on(
    cidr: Seq<char>,
    svc: Tree,
    ip: Seq<char>,
    offset: nat,
    won: bool,
)
    ensures
        next_step(cidr, svc, StepView::Fixed(ip), true) == StepView::Done(with_addresses(svc, ip)),
        next_step(cidr, svc, StepView::Fixed(ip), false) is Refused,
        next_step(cidr, svc, StepView::Fixed(ip), false)->Refused_0.status == 422,
        next_step(cidr, svc, StepView::Try(offset, ip), true) == StepView::Done(
            with_cluster_ip(svc, ip),
        ),
        next_step(cidr, svc, StepView::Try(offset, ip), false) is Try ==> next_step(
            cidr,
            svc,
            StepView::Try(offset, ip),
            false,
        )->Try_0 == offset + 1,
        next_step(cidr, svc, StepView::Done(svc), won) == StepView::Done(svc),
{
}

/// A range of one bit more in its prefix is half as large, and one of all bits is one address.
pub proof fn law_a_longer_prefix_is_half_the_range(prefix: nat)
    requires
        prefix < 32,
    ensures
        range_size(32) == 1,
        range_size(prefix) == 2 * range_size((prefix + 1) as nat),
{
    lemma2_to64();
    vstd::arithmetic::power2::lemma_pow2_unfold((32 - prefix) as nat);
}

/// The addresses of a range that are handed out are those between its first and its last.
pub proof fn law_the_ends_of_a_range_are_left_out(base: nat, prefix: nat, offset: nat)
    ensures
        offset == 0 ==> candidate(base, prefix, offset) is None,
        offset >= range_size(prefix) - 1 ==> candidate(base, prefix, offset) is None,
        0 < offset < range_size(prefix) - 1 && base + offset <= u32::MAX ==> candidate(
            base,
            prefix,
            offset,
        ) == Some(address_text(base + offset)),
{
}

/// The holders of an address are all the Services that name it, in their order.
pub proof fn law_the_holders_of_an_address(svcs: Seq<Tree>, ip: Seq<char>)
    ensures
        holders(svcs, ip) == svcs.filter(|svc: Tree| held_address(svc) == Some(ip)).map_values(
            |svc: Tree| service_label(svc),
        ),
    decreases svcs.len(),
{
    reveal(Seq::filter);
    let f = |svc: Tree| held_address(svc) == Some(ip);
    let g = |svc: Tree| service_label(svc);
    if svcs.len() > 0 {
        law_the_holders_of_an_address(svcs.drop_last(), ip);
        let rest = svcs.drop_last().filter(f);
        assert(rest.push(svcs.last()).map_values(g) =~= rest.map_values(g).push(
            service_label(svcs.last()),
        ));
    }
    assert(holders(svcs, ip) =~= svcs.filter(f).map_values(g));
}

} // verus!
