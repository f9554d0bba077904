//! Eviction of pods, within their disruption budgets.

use vstd::prelude::*;
use vstd::string::*;

use crate::apimachinery::quantity::lemma_numeral_is_number;
use crate::apimachinery::selector::{agree, labels_agree};
use crate::decimal::{dec, digit_of, law_signs, parse_i64, signed};
use crate::json::{empty_object, no_items, str_tree, trees, Json, Numeral, Tree};
use crate::numeric::{
    ceil_part, ceiling, is_whole, number_in, parse_number, pow10, whole, NumberView,
};
use crate::text::{has_suffix, law_the_ends_of_a_text, strip_suffix, without_suffix};

verus! {

/// A selector selects labels by `matchLabels` alone: an object without it
/// selects everything.
pub open spec fn picks(selector: Tree, labels: Tree) -> bool {
    match selector.at("matchLabels"@) {
        Tree::Object(want) => labels_agree(want, labels),
        _ => selector is Object,
    }
}

/// Does a selector select labels, by `matchLabels` alone?
pub fn selector_matches(selector: &Json, labels: &Json) -> (r: bool)
    ensures
        r == picks(selector@, labels@),
{
    match selector.at("matchLabels") {
        Json::Object(want) => agree(want, labels),
        _ => selector.is_object(),
    }
}

/// A condition says that a pod is ready.
pub open spec fn says_ready(c: Tree) -> bool {
    c.at("type"@) == str_tree("Ready") && c.at("status"@) == str_tree("True")
}

/// A pod is ready.
pub open spec fn ready(pod: Tree) -> bool {
    exists|i: int|
        0 <= i < pod.at("status"@).at("conditions"@).items_or_none().len() && says_ready(
            #[trigger] pod.at("status"@).at("conditions"@).items_or_none()[i],
        )
}

/// Is the pod ready?
pub fn is_ready(pod: &Json) -> (r: bool)
    ensures
        r == ready(pod@),
{
    let cs = match pod.at("status").at("conditions") {
        Json::Array(a) => a,
        _ => {
            return false;
        },
    };
    let mut i: usize = 0;
    while i < cs.len()
        invariant
            i <= cs.len(),
            pod@.at("status"@).at("conditions"@) == Tree::Array(trees(cs@)),
            forall|j: int| 0 <= j < i ==> !says_ready(#[trigger] trees(cs@)[j]),
        decreases cs.len() - i,
    {
        if cs[i].at("type").is_text("Ready") && cs[i].at("status").is_text("True") {
            assert(says_ready(pod@.at("status"@).at("conditions"@).items_or_none()[i as int]));
            return true;
        }
        i = i + 1;
    }
    false
}

/// The count that a field of a budget stands for: an integer, a numeral, or a
/// percentage of `total`, rounded up.
pub open spec fn count_of(v: Tree, total: nat) -> Option<int> {
    match v.integer() {
        Some(n) => Some(n),
        None => match v.text() {
            Some(s) => {
                let percent = match without_suffix(s, "%"@) {
                    Some(p) => number_in(p),
                    None => None,
                };
                match percent {
                    Some(r) => Some(ceiling(r, -2, total)),
                    None => signed(s),
                }
            },
            None => None,
        },
    }
}

/// The count that a field of a budget stands for.
pub fn intstr_to_count(v: &Json, total: u64) -> (r: Option<i64>)
    ensures
        match r {
            Some(n) => count_of(v@, total as nat) == Some(n as int),
            None => count_of(v@, total as nat) is None,
        },
{
    match v.as_i64() {
        Some(n) => {
            return Some(n);
        },
        None => {},
    }
    let s = match v.as_str() {
        Some(s) => s,
        None => {
            return None;
        },
    };
    match strip_suffix(s, "%") {
        Some(p) => match parse_number(p) {
            Some(n) => {
                return Some(ceil_part(&n, -2, total));
            },
            None => {},
        },
        None => {},
    }
    parse_i64(s)
}

/// How many of the pods a budget covers.
pub open spec fn covered(pods: Seq<Tree>, selector: Tree) -> nat
    decreases pods.len(),
{
    if pods.len() == 0 {
        0
    } else {
        covered(pods.drop_last(), selector) + (if picks(
            selector,
            pods.last().at("metadata"@).at("labels"@),
        ) {
            1nat
        } else {
            0nat
        })
    }
}

/// How many of the pods that a budget covers are ready.
pub open spec fn healthy(pods: Seq<Tree>, selector: Tree) -> nat
    decreases pods.len(),
{
    if pods.len() == 0 {
        0
    } else {
        healthy(pods.drop_last(), selector) + (if picks(
            selector,
            pods.last().at("metadata"@).at("labels"@),
        ) && ready(pods.last()) {
            1nat
        } else {
            0nat
        })
    }
}

/// How many pods a budget wants: `minAvailable`, else all but `maxUnavailable`,
/// else none.
pub open spec fn desired(pdb: Tree, total: nat) -> int {
    match count_of(pdb.at("spec"@).at("minAvailable"@), total) {
        Some(n) => n,
        None => match count_of(pdb.at("spec"@).at("maxUnavailable"@), total) {
            Some(n) => total - n,
            None => 0,
        },
    }
}

/// How many more disruptions a budget permits.
pub open spec fn allowance(pdb: Tree, pods: Seq<Tree>) -> int {
    let selector = pdb.at("spec"@).at("selector"@);
    healthy(pods, selector) - desired(pdb, covered(pods, selector))
}

/// The numbers of a budget can be computed with integers of the machine.
pub open spec fn budget_fits(pdb: Tree, pods: Seq<Tree>) -> bool {
    let total = covered(pods, pdb.at("spec"@).at("selector"@));
    total <= i64::MAX && i64::MIN <= desired(pdb, total) <= i64::MAX && i64::MIN <= allowance(
        pdb,
        pods,
    ) <= i64::MAX
}

fn count_pods(pods: &Vec<Json>, selector: &Json) -> (r: (u64, u64))
    ensures
        r.0 == covered(trees(pods@), selector@),
        r.1 == healthy(trees(pods@), selector@),
        r.1 <= r.0 <= pods@.len(),
{
    let ghost ts = trees(pods@);
    let mut total: u64 = 0;
    let mut well: u64 = 0;
    let mut i: usize = 0;
    while i < pods.len()
        invariant
            i <= pods.len(),
            ts == trees(pods@),
            well <= total <= i,
            total == covered(ts.take(i as int), selector@),
            well == healthy(ts.take(i as int), selector@),
        decreases pods.len() - i,
    {
        let p = &pods[i];
        proof {
            assert(ts.take(i + 1).drop_last() =~= ts.take(i as int));
            assert(ts.take(i + 1).last() == p@);
        }
        if selector_matches(selector, p.at("metadata").at("labels")) {
            total = total + 1;
            if is_ready(p) {
                well = well + 1;
            }
        }
        i = i + 1;
    }
    assert(ts.take(i as int) =~= ts);
    (total, well)
}

/// How many more disruptions a budget permits right now.
pub fn disruptions_allowed(pdb: &Json, pods: &Vec<Json>) -> (r: i64)
    requires
        budget_fits(pdb@, trees(pods@)),
    ensures
        r == allowance(pdb@, trees(pods@)),
{
    let spec = pdb.at("spec");
    let (total, well) = count_pods(pods, spec.at("selector"));
    let want: i64 = match intstr_to_count(spec.at("minAvailable"), total) {
        Some(n) => n,
        None => match intstr_to_count(spec.at("maxUnavailable"), total) {
            Some(n) => total as i64 - n,
            None => 0,
        },
    };
    well as i64 - want
}

/// The budget that forbids an eviction: the first that covers the pod and
/// permits no disruption.
pub open spec fn forbidding(pdbs: Seq<Tree>, labels: Tree, pods: Seq<Tree>) -> Option<Tree>
    decreases pdbs.len(),
{
    if pdbs.len() == 0 {
        None
    } else {
        match forbidding(pdbs.drop_last(), labels, pods) {
            Some(b) => Some(b),
            None => if picks(pdbs.last().at("spec"@).at("selector"@), labels) && allowance(
                pdbs.last(),
                pods,
            ) <= 0 {
                Some(pdbs.last())
            } else {
                None
            },
        }
    }
}

/// The answer to an eviction that a budget forbids.
pub open spec fn too_many(namespace: Seq<char>, pdb: Tree) -> Tree {
    let name = pdb.at("metadata"@).at("name"@).text_or("?"@);
    Tree::Object(
        map![
            "apiVersion"@ => str_tree("v1"),
            "kind"@ => str_tree("Status"),
            "metadata"@ => empty_object(),
            "status"@ => str_tree("Failure"),
            "message"@ => Tree::String(
                "Cannot evict pod as it would violate the pod's disruption budget ("@ + namespace
                    + "/"@ + name + "): disruptionsAllowed=0"@,
            ),
            "reason"@ => str_tree("TooManyRequests"),
            "details"@ => Tree::Object(map![
                "causes"@ => no_items().plus(Tree::Object(map![
                    "reason"@ => str_tree("DisruptionBudget"),
                    "message"@ => Tree::String(
                        "The disruption budget "@ + name + " needs 0 more healthy pods"@,
                    ),
                ])),
            ]),
            "code"@ => Tree::Number(Numeral::PosInt(429)),
        ],
    )
}

/// The answer to an eviction that a budget forbids: 429, which `kubectl drain`
/// tries again.
pub fn eviction_refusal(namespace: &str, pdb: &Json) -> (r: Json)
    ensures
        r@ == too_many(namespace@, pdb@),
{
    let name = pdb.at("metadata").at("name").str_or("?");
    let message = "Cannot evict pod as it would violate the pod's disruption budget (".to_owned()
        .concat(namespace).concat("/").concat(name).concat("): disruptionsAllowed=0");
    let needs = "The disruption budget ".to_owned().concat(name).concat(
        " needs 0 more healthy pods",
    );
    let cause = Json::object().with("reason", Json::text("DisruptionBudget")).with(
        "message",
        Json::String(needs),
    );
    let details = Json::object().with("causes", Json::list().and(cause));
    Json::object().with("apiVersion", Json::text("v1")).with("kind", Json::text("Status")).with(
        "metadata",
        Json::object(),
    ).with("status", Json::text("Failure")).with("message", Json::String(message)).with(
        "reason",
        Json::text("TooManyRequests"),
    ).with("details", details).with("code", Json::uint(429))
}

proof fn lemma_forbidding_stays(pdbs: Seq<Tree>, labels: Tree, pods: Seq<Tree>, n: int)
    requires
        0 <= n <= pdbs.len(),
        forbidding(pdbs.take(n), labels, pods) is Some,
    ensures
        forbidding(pdbs, labels, pods) == forbidding(pdbs.take(n), labels, pods),
    decreases pdbs.len() - n,
{
    if n < pdbs.len() {
        assert(pdbs.take(n + 1).drop_last() =~= pdbs.take(n));
        lemma_forbidding_stays(pdbs, labels, pods, n + 1);
    } else {
        assert(pdbs.take(n) =~= pdbs);
    }
}

/// Decides an eviction: none where every budget permits it, else the answer that
/// refuses it.
pub fn check_eviction(namespace: &str, pod: &Json, pdbs: &Vec<Json>, pods: &Vec<Json>) -> (r:
    Option<Json>)
    requires
        forall|i: int| 0 <= i < pdbs@.len() ==> budget_fits(#[trigger] pdbs@[i]@, trees(pods@)),
    ensures
        match (
            forbidding(trees(pdbs@), pod@.at("metadata"@).at("labels"@), trees(pods@)),
            r,
        ) {
            (Some(pdb), Some(answer)) => answer@ == too_many(namespace@, pdb),
            (None, None) => true,
            _ => false,
        },
{
    let labels = pod.at("metadata").at("labels");
    let ghost ts = trees(pdbs@);
    let mut i: usize = 0;
    while i < pdbs.len()
        invariant
            i <= pdbs.len(),
            ts == trees(pdbs@),
            labels@ == pod@.at("metadata"@).at("labels"@),
            forall|k: int|
                0 <= k < pdbs@.len() ==> budget_fits(#[trigger] pdbs@[k]@, trees(pods@)),
            forbidding(ts.take(i as int), labels@, trees(pods@)) is None,
        decreases pdbs.len() - i,
    {
        let pdb = &pdbs[i];
        proof {
            assert(ts.take(i + 1).drop_last() =~= ts.take(i as int));
            assert(ts.take(i + 1).last() == pdb@);
        }
        if selector_matches(pdb.at("spec").at("selector"), labels) {
            let allowed: i64 = disruptions_allowed(pdb, pods);
            if allowed <= 0 {
                proof {
                    lemma_forbidding_stays(ts, labels@, trees(pods@), i + 1);
                }
                return Some(eviction_refusal(namespace, pdb));
            }
        }
        i = i + 1;
    }
    assert(ts.take(i as int) =~= ts);
    None
}

/// Can the numbers of a budget be computed?
pub fn can_compute(pdb: &Json, pods: &Vec<Json>) -> (r: bool)
    ensures
        r == budget_fits(pdb@, trees(pods@)),
{
    let spec = pdb.at("spec");
    let (total, well) = count_pods(pods, spec.at("selector"));
    if total > i64::MAX as u64 {
        return false;
    }
    let want: i128 = match intstr_to_count(spec.at("minAvailable"), total) {
        Some(n) => n as i128,
        None => match intstr_to_count(spec.at("maxUnavailable"), total) {
            Some(n) => total as i128 - n as i128,
            None => 0,
        },
    };
    let left: i128 = well as i128 - want;
    i64::MIN as i128 <= want && want <= i64::MAX as i128 && i64::MIN as i128 <= left && left
        <= i64::MAX as i128
}

/// The acknowledgement of an eviction.
pub fn evicted(namespace: &str, name: &str) -> (r: Json)
    ensures
        r@ == Tree::Object(
            map![
                "apiVersion"@ => str_tree("policy/v1"),
                "kind"@ => str_tree("Eviction"),
                "metadata"@ => Tree::Object(map![
                    "name"@ => Tree::String(name@),
                    "namespace"@ => Tree::String(namespace@),
                ]),
            ],
        ),
{
    let meta = Json::object().with("name", Json::text(name)).with(
        "namespace",
        Json::text(namespace),
    );
    Json::object().with("apiVersion", Json::text("policy/v1")).with(
        "kind",
        Json::text("Eviction"),
    ).with("metadata", meta)
}

/// A pod is evicted only where every budget that covers it permits one more
/// disruption.
pub proof fn law_every_budget_must_permit(
    pdbs: Seq<Tree>,
    labels: Tree,
    pods: Seq<Tree>,
    i: int,
)
    requires
        forbidding(pdbs, labels, pods) is None,
        0 <= i < pdbs.len(),
        picks(pdbs[i].at("spec"@).at("selector"@), labels),
    ensures
        allowance(pdbs[i], pods) > 0,
    decreases pdbs.len(),
{
    if i < pdbs.len() - 1 {
        law_every_budget_must_permit(pdbs.drop_last(), labels, pods, i);
    }
}

/// The pods that a selector picks.
pub open spec fn covered_pods(pods: Seq<Tree>, selector: Tree) -> Seq<Tree> {
    pods.filter(|p: Tree| picks(selector, p.at("metadata"@).at("labels"@)))
}

/// A budget counts the pods that its selector picks, and those of them that are ready.
pub proof fn law_a_budget_counts_its_pods(pods: Seq<Tree>, selector: Tree)
    ensures
        covered(pods, selector) == covered_pods(pods, selector).len(),
        healthy(pods, selector) == covered_pods(pods, selector).filter(
            |p: Tree| ready(p),
        ).len(),
        healthy(pods, selector) <= covered(pods, selector) <= pods.len(),
    decreases pods.len(),
{
    reveal(Seq::filter);
    let picked = |p: Tree| picks(selector, p.at("metadata"@).at("labels"@));
    let well = |p: Tree| ready(p);
    if pods.len() > 0 {
        law_a_budget_counts_its_pods(pods.drop_last(), selector);
        let rest = pods.drop_last().filter(picked);
        if picked(pods.last()) {
            assert(rest.push(pods.last()).drop_last() =~= rest);
        }
    }
}

/// A pod is ready where one of its conditions is of the type `Ready` with the status
/// `True`, and not otherwise.
pub proof fn law_a_ready_pod_says_so(pod: Tree)
    ensures
        ready(pod) <==> exists|i: int|
            0 <= i < pod.at("status"@).at("conditions"@).items_or_none().len() && (
            #[trigger] pod.at("status"@).at("conditions"@).items_or_none()[i]).at("type"@)
                == str_tree("Ready") && pod.at("status"@).at("conditions"@).items_or_none()[i].at(
                "status"@,
            ) == str_tree("True"),
{
    let cs = pod.at("status"@).at("conditions"@).items_or_none();
    if exists|i: int|
        0 <= i < cs.len() && (#[trigger] cs[i]).at("type"@) == str_tree("Ready") && cs[i].at(
            "status"@,
        ) == str_tree("True") {
        let i = choose|i: int|
            0 <= i < cs.len() && (#[trigger] cs[i]).at("type"@) == str_tree("Ready") && cs[i].at(
                "status"@,
            ) == str_tree("True");
        assert(says_ready(cs[i]));
    }
    if ready(pod) {
        let i = choose|i: int| 0 <= i < cs.len() && says_ready(#[trigger] cs[i]);
        assert(cs[i].at("type"@) == str_tree("Ready"));
    }
}

/// The labels that a selector asks for must all be there; a selector that asks for none
/// picks everything.
pub proof fn law_a_selector_asks_for_labels(selector: Tree, labels: Tree)
    requires
        selector is Object,
    ensures
        selector.at("matchLabels"@) is Object ==> (picks(selector, labels) <==> forall|
            k: Seq<char>,
        |
            #[trigger] (selector.at("matchLabels"@)->Object_0).contains_key(k) ==> labels.get(
                k,
            ) is Some && (labels.get(k)->0).alike((selector.at("matchLabels"@)->Object_0)[k])),
        !(selector.at("matchLabels"@) is Object) ==> picks(selector, labels),
{
    if selector.at("matchLabels"@) is Object {
        let want = selector.at("matchLabels"@)->Object_0;
        if picks(selector, labels) {
            assert forall|k: Seq<char>| #[trigger] want.contains_key(k) implies labels.get(k)
                is Some && (labels.get(k)->0).alike(want[k]) by {}
        }
    }
}

/// A budget with `maxUnavailable` permits as many more disruptions as there may be
/// unavailable pods and are not: the pods that are not ready count against it.
pub proof fn law_unavailable_pods_count(pdb: Tree, pods: Seq<Tree>, n: int)
    requires
        pdb.at("spec"@).at("minAvailable"@) is Null,
        pdb.at("spec"@).at("maxUnavailable"@).integer() == Some(n),
    ensures
        ({
            let picked = covered_pods(pods, pdb.at("spec"@).at("selector"@));
            &&& picked.len() - picked.filter(|p: Tree| ready(p)).len() + allowance(pdb, pods) == n
            &&& allowance(pdb, pods) > 0 <==> picked.len() - picked.filter(
                |p: Tree| ready(p),
            ).len() < n
        }),
{
    law_a_budget_counts_its_pods(pods, pdb.at("spec"@).at("selector"@));
}

/// A budget with `minAvailable` permits as many more disruptions as there are ready pods
/// beyond that number.
pub proof fn law_available_pods_are_kept(pdb: Tree, pods: Seq<Tree>, n: int)
    requires
        pdb.at("spec"@).at("minAvailable"@).integer() == Some(n),
    ensures
        ({
            let picked = covered_pods(pods, pdb.at("spec"@).at("selector"@));
            &&& allowance(pdb, pods) + n == picked.filter(|p: Tree| ready(p)).len()
            &&& allowance(pdb, pods) > 0 <==> picked.filter(|p: Tree| ready(p)).len() > n
        }),
{
    law_a_budget_counts_its_pods(pods, pdb.at("spec"@).at("selector"@));
}

/// A budget that names neither number wants no pod: it permits as many disruptions as
/// there are ready pods.
pub proof fn law_an_empty_budget_wants_nothing(pdb: Tree, pods: Seq<Tree>)
    requires
        pdb.at("spec"@).at("minAvailable"@) is Null,
        pdb.at("spec"@).at("maxUnavailable"@) is Null,
    ensures
        allowance(pdb, pods) == covered_pods(pods, pdb.at("spec"@).at("selector"@)).filter(
            |p: Tree| ready(p),
        ).len(),
{
    law_a_budget_counts_its_pods(pods, pdb.at("spec"@).at("selector"@));
}

/// An eviction is refused only by a budget that covers the pod and permits no more
/// disruption.
pub proof fn law_only_a_spent_budget_refuses(pdbs: Seq<Tree>, labels: Tree, pods: Seq<Tree>)
    requires
        forall|i: int|
            0 <= i < pdbs.len() ==> !picks((#[trigger] pdbs[i]).at("spec"@).at("selector"@), labels)
                || allowance(pdbs[i], pods) > 0,
    ensures
        forbidding(pdbs, labels, pods) is None,
    decreases pdbs.len(),
{
    if pdbs.len() > 0 {
        let rest = pdbs.drop_last();
        assert forall|i: int| 0 <= i < rest.len() implies !picks(
            (#[trigger] rest[i]).at("spec"@).at("selector"@),
            labels,
        ) || allowance(rest[i], pods) > 0 by {
            assert(rest[i] == pdbs[i]);
        }
        law_only_a_spent_budget_refuses(rest, labels, pods);
        assert(pdbs.last() == pdbs[pdbs.len() - 1]);
    }
}

/// A number of a budget is a number, whether it is written as one or as a text; a part of a
/// hundred is that part of the pods, rounded up.
pub proof fn law_a_part_of_a_hundred_is_rounded_up(n: nat, total: nat)
    requires
        n <= i64::MAX,
        n * total <= i64::MAX,
    ensures
        count_of(Tree::Number(Numeral::PosInt(n as u64)), total) == Some(n as int),
        count_of(Tree::String(dec(n)), total) == Some(n as int),
        count_of(Tree::Null, total) is None,
        ({
            let part = count_of(Tree::String(dec(n) + "%"@), total);
            &&& part is Some
            &&& 100 * part->0 >= n * total
            &&& 100 * (part->0 - 1) < n * total
        }),
{
    let s = dec(n);
    let p = s + "%"@;
    lemma_numeral_is_number(n);
    law_signs(n, i64::MAX as nat);
    reveal_strlit("%");
    assert("%"@.len() == 1);
    assert("%"@[0] == '%');
    law_the_ends_of_a_text(s, "%"@, '%');
    assert(without_suffix(p, "%"@) == Some(s));
    if has_suffix(s, "%"@) {
        assert(s.subrange(s.len() - 1, s.len() as int)[0] == '%');
        assert(digit_of(s[s.len() - 1]) is Some);
    }
    assert(without_suffix(s, "%"@) is None);
    assert(pow10(2) == 100) by {
        assert(pow10(0) == 1);
        assert(pow10(1) == 10);
    }
    let m = n * total;
    assert(whole(n, -2, total) == m / 100);
    assert(is_whole(n, -2, total) <==> m % 100 == 0);
    assert(count_of(Tree::String(p), total) == Some(
        ceiling(NumberView::Finite { negative: false, digits: s, exponent: 0 }, -2, total),
    ));
}

/// An eviction that a budget refuses is answered with 429, and with the budget's name.
pub proof fn law_a_refused_eviction_is_told_why(namespace: Seq<char>, pdb: Tree)
    ensures
        ({
            let a = too_many(namespace, pdb);
            &&& a.at("kind"@) == str_tree("Status")
            &&& a.at("status"@) == str_tree("Failure")
            &&& a.at("reason"@) == str_tree("TooManyRequests")
            &&& a.at("code"@) == Tree::Number(Numeral::PosInt(429))
            &&& a.at("details"@).at("causes"@).items_or_none().len() == 1
            &&& a.at("details"@).at("causes"@).items_or_none()[0].at("reason"@) == str_tree(
                "DisruptionBudget",
            )
            &&& pdb.at("metadata"@).at("name"@) is String ==> a.at("message"@) == Tree::String(
                "Cannot evict pod as it would violate the pod's disruption budget ("@ + namespace
                    + "/"@ + pdb.at("metadata"@).at("name"@)->String_0
                    + "): disruptionsAllowed=0"@,
            )
        }),
{
    reveal_strlit("apiVersion");
    reveal_strlit("kind");
    reveal_strlit("metadata");
    reveal_strlit("status");
    reveal_strlit("message");
    reveal_strlit("reason");
    reveal_strlit("details");
    reveal_strlit("code");
    assert("apiVersion"@.len() == 10);
    assert("kind"@.len() == 4);
    assert("metadata"@.len() == 8);
    assert("status"@.len() == 6);
    assert("message"@.len() == 7);
    assert("reason"@.len() == 6);
    assert("details"@.len() == 7);
    assert("code"@.len() == 4);
    assert("kind"@[0] == 'k');
    assert("code"@[0] == 'c');
    assert("status"@[0] == 's');
    assert("reason"@[0] == 'r');
    assert("message"@[0] == 'm');
    assert("details"@[0] == 'd');
}

} // verus!
