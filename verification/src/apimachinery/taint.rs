//! Taints and tolerations, and what a `NoExecute` taint does to pods that are
//! already running.

use vstd::prelude::*;
use vstd::string::*;

use crate::json::{dup_all, lemma_trees_push, str_tree, trees, Json, Tree};
use crate::text::same;

verus! {

/// How long a toleration tolerates a taint: not at all, for ever, or for some
/// seconds.
pub open spec fn tolerance(toleration: Tree, taint: Tree) -> Option<Option<int>> {
    let key = toleration.at("key"@).text_or_empty();
    let effect = toleration.at("effect"@).text_or_empty();
    let op = toleration.at("operator"@).text_or("Equal"@);
    let same_key = key == taint.at("key"@).text_or_empty();
    let same_value = toleration.at("value"@).text_or_empty() == taint.at(
        "value"@,
    ).text_or_empty();
    let covers_effect = effect.len() == 0 || effect == taint.at("effect"@).text_or_empty();
    let covers = if op == "Exists"@ {
        key.len() == 0 || same_key
    } else if op.len() == 0 || op == "Equal"@ {
        same_key && same_value
    } else {
        false
    };
    if covers_effect && covers {
        Some(toleration.at("tolerationSeconds"@).integer())
    } else {
        None
    }
}

/// A number of seconds as an integer.
pub open spec fn window(o: Option<Option<i64>>) -> Option<Option<int>> {
    match o {
        None => None,
        Some(None) => Some(None),
        Some(Some(n)) => Some(Some(n as int)),
    }
}

/// How long a toleration tolerates a taint: none is not at all, `Some(None)` is
/// for ever, and `Some(Some(n))` is for `n` seconds after the taint was added.
pub fn toleration_matches(toleration: &Json, taint: &Json) -> (r: Option<Option<i64>>)
    ensures
        window(r) == tolerance(toleration@, taint@),
{
    let key = toleration.at("key").str_or_empty();
    let effect = toleration.at("effect").str_or_empty();
    let op = toleration.at("operator").str_or("Equal");
    if effect.unicode_len() > 0 && !same(effect, taint.at("effect").str_or_empty()) {
        return None;
    }
    let same_key = same(key, taint.at("key").str_or_empty());
    let covers = if same(op, "Exists") {
        key.unicode_len() == 0 || same_key
    } else if op.unicode_len() == 0 || same(op, "Equal") {
        same_key && same(
            toleration.at("value").str_or_empty(),
            taint.at("value").str_or_empty(),
        )
    } else {
        false
    };
    if covers {
        Some(toleration.at("tolerationSeconds").as_i64())
    } else {
        None
    }
}

/// The longer of two tolerances.
pub open spec fn longer(a: Option<Option<int>>, b: Option<Option<int>>) -> Option<Option<int>> {
    match (a, b) {
        (None, _) => b,
        (_, None) => a,
        (Some(None), _) => a,
        (_, Some(None)) => b,
        (Some(Some(m)), Some(Some(n))) => if m >= n {
            a
        } else {
            b
        },
    }
}

/// The longest of the tolerances.
pub open spec fn longest(tolerations: Seq<Tree>, taint: Tree) -> Option<Option<int>>
    decreases tolerations.len(),
{
    if tolerations.len() == 0 {
        None
    } else {
        longer(
            longest(tolerations.drop_last(), taint),
            tolerance(tolerations.last(), taint),
        )
    }
}

/// How long a pod tolerates a taint: tolerations are permissions, so the longest
/// counts.
pub open spec fn pod_tolerance(pod: Tree, taint: Tree) -> Option<Option<int>> {
    longest(pod.at("spec"@).at("tolerations"@).items_or_none(), taint)
}

proof fn lemma_for_ever_stays(tolerations: Seq<Tree>, taint: Tree, n: int)
    requires
        0 <= n <= tolerations.len(),
        longest(tolerations.take(n), taint) == Some(None::<int>),
    ensures
        longest(tolerations, taint) == Some(None::<int>),
    decreases tolerations.len() - n,
{
    if n < tolerations.len() {
        assert(tolerations.take(n + 1).drop_last() =~= tolerations.take(n));
        lemma_for_ever_stays(tolerations, taint, n + 1);
    } else {
        assert(tolerations.take(n) =~= tolerations);
    }
}

/// How long a pod tolerates a taint.
pub fn pod_tolerates(pod: &Json, taint: &Json) -> (r: Option<Option<i64>>)
    ensures
        window(r) == pod_tolerance(pod@, taint@),
{
    let tolerations = match pod.at("spec").at("tolerations") {
        Json::Array(a) => a,
        _ => {
            return None;
        },
    };
    let ghost ts = trees(tolerations@);
    let mut best: Option<Option<i64>> = None;
    let mut i: usize = 0;
    while i < tolerations.len()
        invariant
            i <= tolerations.len(),
            ts == trees(tolerations@),
            ts == pod@.at("spec"@).at("tolerations"@).items_or_none(),
            window(best) == longest(ts.take(i as int), taint@),
            best != Some(None::<i64>),
        decreases tolerations.len() - i,
    {
        proof {
            assert(ts.take(i + 1).drop_last() =~= ts.take(i as int));
            assert(ts.take(i + 1).last() == tolerations@[i as int]@);
        }
        match toleration_matches(&tolerations[i], taint) {
            None => {},
            Some(None) => {
                proof {
                    assert(longest(ts.take(i + 1), taint@) == Some(None::<int>));
                    lemma_for_ever_stays(ts, taint@, i + 1);
                }
                return Some(None);
            },
            Some(Some(secs)) => {
                best = match best {
                    Some(Some(prev)) if prev >= secs => Some(Some(prev)),
                    _ => Some(Some(secs)),
                };
            },
        }
        i = i + 1;
    }
    assert(ts.take(i as int) =~= ts);
    best
}

/// What a `NoExecute` taint means for a pod.
#[derive(Debug)]
pub enum Verdict {
    /// Nothing is to be done.
    Stay,
    /// The pod goes now, for the taint with this key.
    Evict(String),
    /// The pod goes in so many seconds, for the taint with this key.
    EvictIn(i64, String),
}

/// What a [`Verdict`] says.
pub ghost enum VerdictView {
    Stay,
    Evict(Seq<char>),
    EvictIn(int, Seq<char>),
}

impl View for Verdict {
    type V = VerdictView;

    open spec fn view(&self) -> VerdictView {
        match self {
            Verdict::Stay => VerdictView::Stay,
            Verdict::Evict(k) => VerdictView::Evict(k@),
            Verdict::EvictIn(n, k) => VerdictView::EvictIn(*n as int, k@),
        }
    }
}

impl PartialEq for Verdict {
    fn eq(&self, other: &Verdict) -> (r: bool) {
        match (self, other) {
            (Verdict::Stay, Verdict::Stay) => true,
            (Verdict::Evict(a), Verdict::Evict(b)) => same(a.as_str(), b.as_str()),
            (Verdict::EvictIn(m, a), Verdict::EvictIn(n, b)) => *m == *n && same(
                a.as_str(),
                b.as_str(),
            ),
            _ => false,
        }
    }
}

impl vstd::std_specs::cmp::PartialEqSpecImpl for Verdict {
    open spec fn obeys_eq_spec() -> bool {
        true
    }

    open spec fn eq_spec(&self, other: &Verdict) -> bool {
        self@ == other@
    }
}

/// What is left of the window that a pod has for a taint: none where the taint
/// is not about running pods, or is tolerated for ever; nothing where it is not
/// tolerated.
pub open spec fn remaining(pod: Tree, taint: Tree, age: int) -> Option<int> {
    if taint.at("effect"@) != str_tree("NoExecute") {
        None
    } else {
        match pod_tolerance(pod, taint) {
            None => Some(0),
            Some(None) => None,
            Some(Some(secs)) => Some(secs - age),
        }
    }
}

/// The first taint whose window is over.
pub open spec fn first_over(pod: Tree, taints: Seq<Tree>, ages: Seq<i64>) -> Option<Seq<char>>
    decreases taints.len(),
{
    if taints.len() == 0 {
        None
    } else {
        match first_over(pod, taints.drop_last(), ages) {
            Some(k) => Some(k),
            None => match remaining(pod, taints.last(), ages[taints.len() - 1] as int) {
                Some(n) => if n <= 0 {
                    Some(taints.last().at("key"@).text_or_empty())
                } else {
                    None
                },
                None => None,
            },
        }
    }
}

/// The window that ends first, and the first taint that has it.
pub open spec fn soonest_end(pod: Tree, taints: Seq<Tree>, ages: Seq<i64>) -> Option<
    (int, Seq<char>),
>
    decreases taints.len(),
{
    if taints.len() == 0 {
        None
    } else {
        let rest = soonest_end(pod, taints.drop_last(), ages);
        match remaining(pod, taints.last(), ages[taints.len() - 1] as int) {
            Some(n) => match rest {
                Some((m, k)) => if m <= n {
                    rest
                } else {
                    Some((n, taints.last().at("key"@).text_or_empty()))
                },
                None => Some((n, taints.last().at("key"@).text_or_empty())),
            },
            None => rest,
        }
    }
}

/// What the taints of a node mean for a pod, where the taint `i` has been there
/// for `ages[i]` seconds.
pub open spec fn verdict_of(pod: Tree, taints: Seq<Tree>, ages: Seq<i64>) -> VerdictView {
    match first_over(pod, taints, ages) {
        Some(k) => VerdictView::Evict(k),
        None => match soonest_end(pod, taints, ages) {
            Some((n, k)) => VerdictView::EvictIn(n, k),
            None => VerdictView::Stay,
        },
    }
}

/// The first window that is over decides: the taints behind it do not matter, nor
/// does how long they have been there.
pub proof fn law_the_first_over_decides(pod: Tree, taints: Seq<Tree>, ages: Seq<i64>, n: int)
    requires
        0 <= n <= taints.len(),
        verdict_of(pod, taints.take(n), ages) is Evict,
    ensures
        verdict_of(pod, taints, ages) == verdict_of(pod, taints.take(n), ages),
    decreases taints.len() - n,
{
    if n < taints.len() {
        assert(taints.take(n + 1).drop_last() =~= taints.take(n));
        law_the_first_over_decides(pod, taints, ages, n + 1);
    } else {
        assert(taints.take(n) =~= taints);
    }
}

proof fn lemma_later_ages_do_not_matter(
    pod: Tree,
    taints: Seq<Tree>,
    a: Seq<i64>,
    b: Seq<i64>,
)
    requires
        forall|i: int| 0 <= i < taints.len() ==> a[i] == #[trigger] b[i],
    ensures
        first_over(pod, taints, a) == first_over(pod, taints, b),
        soonest_end(pod, taints, a) == soonest_end(pod, taints, b),
    decreases taints.len(),
{
    if taints.len() > 0 {
        assert(a[taints.len() - 1] == b[taints.len() - 1]);
        lemma_later_ages_do_not_matter(pod, taints.drop_last(), a, b);
    }
}

/// The age of a taint matters for a pod: it is about running pods, and the pod
/// tolerates it for a time.
pub open spec fn age_matters(pod: Tree, taint: Tree) -> bool {
    taint.at("effect"@) == str_tree("NoExecute") && match pod_tolerance(pod, taint) {
        Some(Some(_)) => true,
        _ => false,
    }
}

/// The ages are those that `age_secs` gives for the taints whose age matters.
pub open spec fn ages_given<F: Fn(&Json) -> i64>(
    age_secs: F,
    pod: Tree,
    taints: Seq<Json>,
    ages: Seq<i64>,
) -> bool {
    forall|i: int|
        0 <= i < ages.len() && i < taints.len() && age_matters(pod, taints[i]@)
            ==> age_secs.ensures((&taints[i],), #[trigger] ages[i])
}

/// A verdict was decided by the ages of the taints up to the first whose window is
/// over, or of all.
pub open spec fn decided_by<F: Fn(&Json) -> i64>(
    age_secs: F,
    pod: Tree,
    taints: Seq<Json>,
    ages: Seq<i64>,
    v: VerdictView,
) -> bool {
    &&& ages.len() <= taints.len()
    &&& ages_given(age_secs, pod, taints, ages)
    &&& v == verdict_of(pod, trees(taints).take(ages.len() as int), ages)
    &&& v is Evict || ages.len() == taints.len()
}

/// `age_secs` takes the taints whose age matters, and what they leave of a window is
/// an integer of the machine.
pub open spec fn ages_known<F: Fn(&Json) -> i64>(age_secs: F, pod: Tree, taints: Seq<Json>) -> bool {
    &&& forall|i: int|
        0 <= i < taints.len() && age_matters(pod, (#[trigger] taints[i])@) ==> age_secs.requires(
            (&taints[i],),
        )
    &&& forall|i: int, a: i64|
        0 <= i < taints.len() && age_matters(pod, taints[i]@) && #[trigger] age_secs.ensures(
            (&taints[i],),
            a,
        ) ==> i64::MIN <= remaining(pod, taints[i]@, a as int)->0 <= i64::MAX
}

/// Decides what happens to a pod on a node with these taints. `age_secs` says
/// how long a taint has been there; it is asked of the taints whose age matters, up
/// to the first whose window is over.
pub fn verdict_for<F: Fn(&Json) -> i64>(pod: &Json, taints: &[Json], age_secs: F) -> (r: Verdict)
    requires
        ages_known(age_secs, pod@, taints@),
    ensures
        exists|ages: Seq<i64>| #[trigger] decided_by(age_secs, pod@, taints@, ages, r@),
{
    let ghost ts = trees(taints@);
    let ghost mut ages: Seq<i64> = Seq::empty();
    let mut soonest: Option<(i64, String)> = None;
    let mut i: usize = 0;
    while i < taints.len()
        invariant
            i <= taints@.len(),
            ts == trees(taints@),
            ages_known(age_secs, pod@, taints@),
            ages.len() == i,
            ages_given(age_secs, pod@, taints@, ages),
            first_over(pod@, ts.take(i as int), ages) is None,
            match soonest {
                Some((n, k)) => soonest_end(pod@, ts.take(i as int), ages) == Some((n as int, k@)),
                None => soonest_end(pod@, ts.take(i as int), ages) is None,
            },
        decreases taints@.len() - i,
    {
        let taint = &taints[i];
        let ghost was = ages;
        let running = taint.at("effect").is_text("NoExecute");
        let window = pod_tolerates(pod, taint);
        let age: i64 = match window {
            Some(Some(_)) if running => {
                assert(age_matters(pod@, taints@[i as int]@));
                age_secs(taint)
            },
            _ => 0,
        };
        proof {
            ages = ages.push(age);
            assert(ts.take(i + 1).drop_last() =~= ts.take(i as int));
            assert(ts.take(i + 1).last() == taint@);
            lemma_later_ages_do_not_matter(pod@, ts.take(i as int), was, ages);
            assert forall|k: int|
                0 <= k < ages.len() && k < taints@.len() && age_matters(
                    pod@,
                    taints@[k]@,
                ) implies age_secs.ensures((&taints@[k],), #[trigger] ages[k]) by {
                if k < i {
                    assert(was[k] == ages[k]);
                }
            }
        }
        if running {
            let key = taint.at("key").str_or_empty();
            match window {
                Some(None) => {},
                None => {
                    let v = Verdict::Evict(key.to_owned());
                    assert(decided_by(age_secs, pod@, taints@, ages, v@));
                    return v;
                },
                Some(Some(secs)) => {
                    assert(age_secs.ensures((&taints@[i as int],), age));
                    let left: i64 = secs - age;
                    if left <= 0 {
                        let v = Verdict::Evict(key.to_owned());
                        assert(decided_by(age_secs, pod@, taints@, ages, v@));
                        return v;
                    }
                    let keep = match &soonest {
                        Some((prev, _)) => *prev <= left,
                        None => false,
                    };
                    if !keep {
                        soonest = Some((left, key.to_owned()));
                    }
                },
            }
        }
        i = i + 1;
    }
    let r = match soonest {
        Some((n, k)) => Verdict::EvictIn(n, k),
        None => Verdict::Stay,
    };
    assert(decided_by(age_secs, pod@, taints@, ages, r@));
    r
}

/// Only `NoExecute` taints evict: a pod that runs has been placed.
pub proof fn law_only_no_execute_evicts(pod: Tree, taints: Seq<Tree>, ages: Seq<i64>)
    requires
        forall|i: int|
            0 <= i < taints.len() ==> (#[trigger] taints[i]).at("effect"@) != str_tree(
                "NoExecute",
            ),
    ensures
        verdict_of(pod, taints, ages) is Stay,
{
    lemma_nothing_remains(pod, taints, ages);
}

/// A pod that tolerates every taint for ever stays.
pub proof fn law_tolerating_everything_is_staying(pod: Tree, taints: Seq<Tree>, ages: Seq<i64>)
    requires
        forall|i: int|
            0 <= i < taints.len() ==> pod_tolerance(pod, #[trigger] taints[i]) == Some(
                None::<int>,
            ),
    ensures
        verdict_of(pod, taints, ages) is Stay,
{
    lemma_nothing_remains(pod, taints, ages);
}

proof fn lemma_nothing_remains(pod: Tree, taints: Seq<Tree>, ages: Seq<i64>)
    requires
        forall|i: int|
            0 <= i < taints.len() ==> (#[trigger] taints[i]).at("effect"@) != str_tree("NoExecute")
                || pod_tolerance(pod, taints[i]) == Some(None::<int>),
    ensures
        first_over(pod, taints, ages) is None,
        soonest_end(pod, taints, ages) is None,
    decreases taints.len(),
{
    if taints.len() > 0 {
        let r = taints.drop_last();
        assert forall|i: int| 0 <= i < r.len() implies (#[trigger] r[i]).at("effect"@) != str_tree(
            "NoExecute",
        ) || pod_tolerance(pod, r[i]) == Some(None::<int>) by {
            assert(r[i] == taints[i]);
        }
        lemma_nothing_remains(pod, r, ages);
        assert(taints.last() == taints[taints.len() - 1]);
    }
}

/// The order of a pod's tolerations does not matter: the longest is at least as
/// long as each of them.
pub proof fn law_the_longest_toleration_wins(tolerations: Seq<Tree>, taint: Tree, i: int)
    requires
        0 <= i < tolerations.len(),
    ensures
        longer(longest(tolerations, taint), tolerance(tolerations[i], taint)) == longest(
            tolerations,
            taint,
        ),
    decreases tolerations.len(),
{
    if i < tolerations.len() - 1 {
        law_the_longest_toleration_wins(tolerations.drop_last(), taint, i);
    }
}

/// What a list of tolerations makes of a taint: nothing where none covers it, for
/// ever where one covers it for ever, and else the most seconds that one has for
/// it.
pub proof fn law_tolerations_are_permissions(tolerations: Seq<Tree>, taint: Tree)
    ensures
        longest(tolerations, taint) is None <==> forall|i: int|
            0 <= i < tolerations.len() ==> tolerance(#[trigger] tolerations[i], taint) is None,
        longest(tolerations, taint) == Some(None::<int>) <==> exists|i: int|
            0 <= i < tolerations.len() && tolerance(#[trigger] tolerations[i], taint) == Some(
                None::<int>,
            ),
        longest(tolerations, taint) matches Some(Some(n)) ==> {
            &&& exists|i: int|
                0 <= i < tolerations.len() && tolerance(#[trigger] tolerations[i], taint) == Some(
                    Some(n),
                )
            &&& forall|i: int|
                0 <= i < tolerations.len() ==> match tolerance(#[trigger] tolerations[i], taint) {
                    Some(w) => w is Some && w->0 <= n,
                    None => true,
                }
        },
    decreases tolerations.len(),
{
    if tolerations.len() > 0 {
        let rest = tolerations.drop_last();
        let last = tolerations.len() - 1;
        law_tolerations_are_permissions(rest, taint);
        assert(tolerations[last] == tolerations.last());
        assert forall|i: int| 0 <= i < rest.len() implies rest[i] == #[trigger] tolerations[i] by {}
        match longest(tolerations, taint) {
            None => {
                assert(longest(rest, taint) is None);
                assert forall|i: int| 0 <= i < tolerations.len() implies tolerance(
                    #[trigger] tolerations[i],
                    taint,
                ) is None by {
                    if i < last {
                        assert(tolerance(rest[i], taint) is None);
                    }
                }
            },
            Some(w) => {
                if longest(tolerations, taint) == longest(rest, taint) {
                    let i = choose|i: int|
                        0 <= i < rest.len() && tolerance(#[trigger] rest[i], taint) == Some(w);
                    assert(tolerance(tolerations[i], taint) == Some(w));
                }
            },
        }
        assert forall|i: int| 0 <= i < tolerations.len() implies longer(
            longest(tolerations, taint),
            tolerance(#[trigger] tolerations[i], taint),
        ) == longest(tolerations, taint) by {
            law_the_longest_toleration_wins(tolerations, taint, i);
        }
        if exists|i: int|
            0 <= i < tolerations.len() && tolerance(#[trigger] tolerations[i], taint) == Some(
                None::<int>,
            ) {
            let i = choose|i: int|
                0 <= i < tolerations.len() && tolerance(#[trigger] tolerations[i], taint) == Some(
                    None::<int>,
                );
            law_the_longest_toleration_wins(tolerations, taint, i);
        }
    }
}

/// The order of its tolerations does not matter, nor how often one is repeated: two
/// pods with the same ones tolerate a taint for as long.
pub proof fn law_the_order_of_tolerations_does_not_matter(pod: Tree, other: Tree, taint: Tree)
    requires
        forall|t: Tree|
            pod.at("spec"@).at("tolerations"@).items_or_none().contains(t) <==> other.at(
                "spec"@,
            ).at("tolerations"@).items_or_none().contains(t),
    ensures
        pod_tolerance(pod, taint) == pod_tolerance(other, taint),
{
    let a = pod.at("spec"@).at("tolerations"@).items_or_none();
    let b = other.at("spec"@).at("tolerations"@).items_or_none();
    lemma_reaches_as_far(a, b, taint);
    lemma_reaches_as_far(b, a, taint);
}

proof fn lemma_reaches_as_far(a: Seq<Tree>, b: Seq<Tree>, taint: Tree)
    requires
        forall|t: Tree| a.contains(t) ==> b.contains(t),
    ensures
        longer(longest(b, taint), longest(a, taint)) == longest(b, taint),
    decreases a.len(),
{
    if a.len() > 0 {
        assert forall|t: Tree| a.drop_last().contains(t) implies b.contains(t) by {
            let i = a.drop_last().index_of(t);
            assert(a[i] == t);
        }
        lemma_reaches_as_far(a.drop_last(), b, taint);
        assert(a[a.len() - 1] == a.last());
        assert(b.contains(a.last()));
        law_the_longest_toleration_wins(b, taint, b.index_of(a.last()));
    }
}

// ---------------------------------------------------------------------------
// Tainting nodes
// ---------------------------------------------------------------------------

/// A taint has this key and effect.
pub open spec fn is_taint(t: Tree, key: Seq<char>, effect: Seq<char>) -> bool {
    t.at("key"@) == Tree::String(key) && t.at("effect"@) == Tree::String(effect)
}

/// One of the taints has this key and effect.
pub open spec fn has_taint(taints: Seq<Tree>, key: Seq<char>, effect: Seq<char>) -> bool {
    exists|i: int| 0 <= i < taints.len() && is_taint(#[trigger] taints[i], key, effect)
}

/// The taints without those of this key and effect.
pub open spec fn without_taint(taints: Seq<Tree>, key: Seq<char>, effect: Seq<char>) -> Seq<Tree>
    decreases taints.len(),
{
    if taints.len() == 0 {
        Seq::empty()
    } else {
        let rest = without_taint(taints.drop_last(), key, effect);
        if is_taint(taints.last(), key, effect) {
            rest
        } else {
            rest.push(taints.last())
        }
    }
}

/// The taints of a node.
pub open spec fn taints_of(node: Tree) -> Seq<Tree> {
    node.at("spec"@).at("taints"@).items_or_none()
}

/// The node with these taints.
pub open spec fn with_taints(node: Tree, taints: Seq<Tree>) -> Tree {
    node.set("spec"@, node.at("spec"@).set("taints"@, Tree::Array(taints)))
}

/// A new taint.
pub open spec fn new_taint(key: Seq<char>, effect: Seq<char>, now: Seq<char>) -> Tree {
    Tree::Object(
        map![
            "key"@ => Tree::String(key),
            "effect"@ => Tree::String(effect),
            "timeAdded"@ => Tree::String(now),
        ],
    )
}

fn find_taint(taints: &Vec<Json>, key: &str, effect: &str) -> (r: bool)
    ensures
        r == has_taint(trees(taints@), key@, effect@),
{
    let mut i: usize = 0;
    while i < taints.len()
        invariant
            i <= taints.len(),
            forall|j: int| 0 <= j < i ==> !is_taint(#[trigger] trees(taints@)[j], key@, effect@),
        decreases taints.len() - i,
    {
        if taints[i].at("key").is_text(key) && taints[i].at("effect").is_text(effect) {
            assert(is_taint(trees(taints@)[i as int], key@, effect@));
            return true;
        }
        i = i + 1;
    }
    false
}

fn node_taints(node: &Json) -> (r: Vec<Json>)
    ensures
        trees(r@) == taints_of(node@),
        r@.len() == taints_of(node@).len(),
{
    match node.at("spec").at("taints") {
        Json::Array(a) => dup_all(a),
        _ => {
            let none: Vec<Json> = Vec::new();
            assert(trees(none@) =~= Seq::<Tree>::empty());
            none
        },
    }
}

fn set_taints(node: &mut Json, taints: Vec<Json>)
    requires
        old(node)@.settable(),
        old(node)@.at("spec"@).settable(),
    ensures
        final(node)@ == with_taints(old(node)@, trees(taints@)),
{
    let mut spec = node.at("spec").dup();
    spec.set("taints", Json::Array(taints));
    node.set("spec", spec);
}

/// Adds a taint to a node unless it is there. Says whether it was added.
pub fn add_taint(node: &mut Json, key: &str, effect: &str, now: &str) -> (r: bool)
    requires
        old(node)@.settable(),
        old(node)@.at("spec"@).settable(),
    ensures
        r == !has_taint(taints_of(old(node)@), key@, effect@),
        final(node)@ == (if r {
            with_taints(
                old(node)@,
                taints_of(old(node)@).push(new_taint(key@, effect@, now@)),
            )
        } else {
            old(node)@
        }),
{
    let mut taints = node_taints(node);
    if find_taint(&taints, key, effect) {
        return false;
    }
    let t = Json::object().with("key", Json::text(key)).with("effect", Json::text(effect)).with(
        "timeAdded",
        Json::text(now),
    );
    proof {
        lemma_trees_push(taints@, t);
    }
    taints.push(t);
    set_taints(node, taints);
    true
}

/// Removes a taint from a node. Says whether anything changed.
pub fn remove_taint(node: &mut Json, key: &str, effect: &str) -> (r: bool)
    requires
        old(node)@.settable(),
        old(node)@.at("spec"@).settable(),
    ensures
        r == has_taint(taints_of(old(node)@), key@, effect@),
        final(node)@ == (if r {
            with_taints(old(node)@, without_taint(taints_of(old(node)@), key@, effect@))
        } else {
            old(node)@
        }),
{
    let taints = node_taints(node);
    if !find_taint(&taints, key, effect) {
        return false;
    }
    let ghost ts = trees(taints@);
    let mut out: Vec<Json> = Vec::new();
    let mut i: usize = 0;
    assert(trees(out@) =~= without_taint(ts.take(0), key@, effect@));
    while i < taints.len()
        invariant
            i <= taints.len(),
            ts == trees(taints@),
            trees(out@) == without_taint(ts.take(i as int), key@, effect@),
        decreases taints.len() - i,
    {
        let t = &taints[i];
        proof {
            assert(ts.take(i + 1).drop_last() =~= ts.take(i as int));
            assert(ts.take(i + 1).last() == t@);
        }
        if !(t.at("key").is_text(key) && t.at("effect").is_text(effect)) {
            let c = t.dup();
            proof {
                lemma_trees_push(out@, c);
            }
            out.push(c);
        }
        i = i + 1;
    }
    assert(ts.take(i as int) =~= ts);
    set_taints(node, out);
    true
}

proof fn lemma_without_taint(taints: Seq<Tree>, key: Seq<char>, effect: Seq<char>)
    ensures
        !has_taint(without_taint(taints, key, effect), key, effect),
        !has_taint(taints, key, effect) ==> without_taint(taints, key, effect) == taints,
    decreases taints.len(),
{
    let w = without_taint(taints, key, effect);
    if taints.len() > 0 {
        let r = taints.drop_last();
        lemma_without_taint(r, key, effect);
        let wr = without_taint(r, key, effect);
        assert forall|i: int| 0 <= i < w.len() implies !is_taint(#[trigger] w[i], key, effect) by {
            if i < wr.len() {
                assert(w[i] == wr[i]);
            }
        }
        if !has_taint(taints, key, effect) {
            assert forall|i: int| 0 <= i < r.len() implies !is_taint(
                #[trigger] r[i],
                key,
                effect,
            ) by {
                assert(r[i] == taints[i]);
            }
            assert(taints[taints.len() - 1] == taints.last());
            assert(r.push(taints.last()) =~= taints);
        }
    } else {
        assert(w =~= taints);
    }
}

/// A taint that was added is there, and one that was removed is not: what comes
/// on comes off again, and leaves the taints as they were.
pub proof fn law_a_taint_comes_off_again(
    taints: Seq<Tree>,
    key: Seq<char>,
    effect: Seq<char>,
    now: Seq<char>,
)
    requires
        !has_taint(taints, key, effect),
    ensures
        has_taint(taints.push(new_taint(key, effect, now)), key, effect),
        without_taint(taints.push(new_taint(key, effect, now)), key, effect) == taints,
        !has_taint(without_taint(taints, key, effect), key, effect),
{
    let t = new_taint(key, effect, now);
    reveal_strlit("key");
    reveal_strlit("effect");
    reveal_strlit("timeAdded");
    assert("key"@.len() == 3);
    assert("effect"@.len() == 6);
    assert("timeAdded"@.len() == 9);
    assert(is_taint(t, key, effect));
    assert(taints.push(t)[taints.len() as int] == t);
    assert(taints.push(t).drop_last() =~= taints);
    lemma_without_taint(taints, key, effect);
}

/// A toleration is for the taints that it names: of another effect, another key or,
/// where it compares values, another value it tolerates nothing. Only with `Exists` may
/// it leave the key open. What it tolerates it tolerates for its `tolerationSeconds`, or
/// for ever where it says none.
pub proof fn law_a_toleration_is_for_what_it_names(toleration: Tree, taint: Tree)
    requires
        tolerance(toleration, taint) is Some,
    ensures
        toleration.at("effect"@).text_or_empty().len() == 0 || toleration.at(
            "effect"@,
        ).text_or_empty() == taint.at("effect"@).text_or_empty(),
        toleration.at("key"@).text_or_empty() == taint.at("key"@).text_or_empty() || (
        toleration.at("key"@).text_or_empty().len() == 0 && toleration.at("operator"@) == str_tree(
            "Exists",
        )),
        toleration.at("operator"@) == str_tree("Exists") || toleration.at(
            "value"@,
        ).text_or_empty() == taint.at("value"@).text_or_empty(),
        toleration.at("tolerationSeconds"@) is Null ==> tolerance(toleration, taint) == Some(
            None::<int>,
        ),
        forall|n: int|
            toleration.at("tolerationSeconds"@).integer() == Some(n) ==> tolerance(
                toleration,
                taint,
            ) == Some(Some(n)),
{
    reveal_strlit("Equal");
    reveal_strlit("Exists");
    assert("Equal"@.len() == 5);
    assert("Exists"@.len() == 6);
}

/// What a toleration names it tolerates: the key with `Exists`, the key and the value
/// with `Equal`, and with `Exists` and no key everything; of its effect, or of every
/// effect where it names none.
pub proof fn law_what_a_toleration_names_it_tolerates(toleration: Tree, taint: Tree)
    requires
        toleration.at("effect"@) is Null || toleration.at("effect"@) == taint.at("effect"@),
        ({
            ||| toleration.at("operator"@) == str_tree("Exists") && (toleration.at("key"@) is Null
                || toleration.at("key"@) == taint.at("key"@))
            ||| (toleration.at("operator"@) == str_tree("Equal") || toleration.at("operator"@)
                is Null) && toleration.at("key"@) == taint.at("key"@) && toleration.at("value"@)
                == taint.at("value"@)
        }),
    ensures
        tolerance(toleration, taint) is Some,
{
    reveal_strlit("Equal");
    reveal_strlit("Exists");
    assert("Equal"@.len() == 5);
    assert("Exists"@.len() == 6);
}

proof fn lemma_over_evicts(pod: Tree, taints: Seq<Tree>, ages: Seq<i64>, i: int)
    requires
        0 <= i < taints.len(),
        remaining(pod, taints[i], ages[i] as int) is Some,
        remaining(pod, taints[i], ages[i] as int)->0 <= 0,
    ensures
        first_over(pod, taints, ages) is Some,
    decreases taints.len(),
{
    if i < taints.len() - 1 {
        assert(taints.drop_last()[i] == taints[i]);
        lemma_over_evicts(pod, taints.drop_last(), ages, i);
    }
}

/// A pod does not stay under a `NoExecute` taint that it does not tolerate, nor under one
/// that has been there for as long as it tolerates it.
pub proof fn law_a_pod_leaves_what_it_does_not_tolerate(
    pod: Tree,
    taints: Seq<Tree>,
    ages: Seq<i64>,
    i: int,
)
    requires
        0 <= i < taints.len(),
        taints[i].at("effect"@) == str_tree("NoExecute"),
        match pod_tolerance(pod, taints[i]) {
            None => true,
            Some(None) => false,
            Some(Some(secs)) => ages[i] >= secs,
        },
    ensures
        verdict_of(pod, taints, ages) is Evict,
{
    lemma_over_evicts(pod, taints, ages, i);
}

proof fn lemma_soonest(pod: Tree, taints: Seq<Tree>, ages: Seq<i64>)
    ensures
        match soonest_end(pod, taints, ages) {
            Some((n, k)) => {
                &&& exists|i: int|
                    0 <= i < taints.len() && remaining(
                        pod,
                        #[trigger] taints[i],
                        ages[i] as int,
                    ) == Some(n) && taints[i].at("key"@).text_or_empty() == k
                &&& forall|i: int|
                    0 <= i < taints.len() ==> match remaining(
                        pod,
                        #[trigger] taints[i],
                        ages[i] as int,
                    ) {
                        Some(m) => n <= m,
                        None => true,
                    }
            },
            None => forall|i: int|
                0 <= i < taints.len() ==> remaining(pod, #[trigger] taints[i], ages[i] as int)
                    is None,
        },
    decreases taints.len(),
{
    if taints.len() > 0 {
        let rest = taints.drop_last();
        lemma_soonest(pod, rest, ages);
        assert forall|i: int| 0 <= i < rest.len() implies rest[i] == #[trigger] taints[i] by {}
        let last = taints.len() - 1;
        assert(taints[last] == taints.last());
        match soonest_end(pod, rest, ages) {
            Some((n, k)) => {
                let i = choose|i: int|
                    0 <= i < rest.len() && remaining(pod, #[trigger] rest[i], ages[i] as int)
                        == Some(n) && rest[i].at("key"@).text_or_empty() == k;
                assert(taints[i] == rest[i]);
            },
            None => {},
        }
    }
}

/// A pod that may stay for a while leaves when the first of its windows ends: the verdict
/// names a taint whose window ends then, and none ends sooner. One that may stay for ever
/// tolerates every `NoExecute` taint for ever.
pub proof fn law_the_first_window_to_end_decides(pod: Tree, taints: Seq<Tree>, ages: Seq<i64>)
    ensures
        match verdict_of(pod, taints, ages) {
            VerdictView::EvictIn(n, key) => {
                &&& exists|i: int|
                    0 <= i < taints.len() && (#[trigger] taints[i]).at("effect"@) == str_tree(
                        "NoExecute",
                    ) && taints[i].at("key"@).text_or_empty() == key && pod_tolerance(
                        pod,
                        taints[i],
                    ) == Some(Some(n + ages[i]))
                &&& forall|i: int|
                    0 <= i < taints.len() && (#[trigger] taints[i]).at("effect"@) == str_tree(
                        "NoExecute",
                    ) ==> match pod_tolerance(pod, taints[i]) {
                        Some(Some(secs)) => secs - ages[i] >= n,
                        Some(None) => true,
                        None => n <= 0,
                    }
            },
            VerdictView::Stay => forall|i: int|
                0 <= i < taints.len() && (#[trigger] taints[i]).at("effect"@) == str_tree(
                    "NoExecute",
                ) ==> pod_tolerance(pod, taints[i]) == Some(None::<int>),
            VerdictView::Evict(_) => true,
        },
{
    lemma_soonest(pod, taints, ages);
    match verdict_of(pod, taints, ages) {
        VerdictView::EvictIn(n, key) => {
            let i = choose|i: int|
                0 <= i < taints.len() && remaining(pod, #[trigger] taints[i], ages[i] as int)
                    == Some(n) && taints[i].at("key"@).text_or_empty() == key;
            if pod_tolerance(pod, taints[i]) is None {
                lemma_over_evicts(pod, taints, ages, i);
            }
            assert forall|j: int|
                0 <= j < taints.len() && (#[trigger] taints[j]).at("effect"@) == str_tree(
                    "NoExecute",
                ) implies match pod_tolerance(pod, taints[j]) {
                Some(Some(secs)) => secs - ages[j] >= n,
                Some(None) => true,
                None => n <= 0,
            } by {
                assert(remaining(pod, taints[j], ages[j] as int) is Some ==> n <= remaining(
                    pod,
                    taints[j],
                    ages[j] as int,
                )->0);
            }
        },
        _ => {},
    }
}

/// Removing a taint removes every taint of that key and effect, and leaves the others in
/// their order.
pub proof fn law_removing_a_taint_leaves_the_others(
    taints: Seq<Tree>,
    key: Seq<char>,
    effect: Seq<char>,
)
    ensures
        without_taint(taints, key, effect) == taints.filter(
            |t: Tree|
                !(t.at("key"@) == Tree::String(key) && t.at("effect"@) == Tree::String(effect)),
        ),
    decreases taints.len(),
{
    reveal(Seq::filter);
    if taints.len() > 0 {
        law_removing_a_taint_leaves_the_others(taints.drop_last(), key, effect);
    }
}

/// A taint that is put on a node says its key, its effect and when, behind those that are there;
/// nothing else of the node changes.
pub proof fn law_a_taint_is_put_on(
    node: Tree,
    key: Seq<char>,
    effect: Seq<char>,
    now: Seq<char>,
    field: Seq<char>,
    member: Seq<char>,
)
    requires
        node.settable(),
        node.at("spec"@).settable(),
        field != "taints"@,
        member != "spec"@,
    ensures
        ({
            let had = node.at("spec"@).at("taints"@).items_or_none();
            let after = with_taints(node, taints_of(node).push(new_taint(key, effect, now)));
            let has = after.at("spec"@).at("taints"@).items_or_none();
            &&& has.len() == had.len() + 1
            &&& has.take(had.len() as int) == had
            &&& has.last().at("key"@) == Tree::String(key)
            &&& has.last().at("effect"@) == Tree::String(effect)
            &&& has.last().at("timeAdded"@) == Tree::String(now)
            &&& after.at("spec"@).get(field) == node.at("spec"@).get(field)
            &&& after.get(member) == node.get(member)
        }),
{
    reveal_strlit("key");
    reveal_strlit("effect");
    reveal_strlit("timeAdded");
    assert("key"@.len() == 3);
    assert("effect"@.len() == 6);
    assert("timeAdded"@.len() == 9);
    let had = taints_of(node);
    assert(had.push(new_taint(key, effect, now)).take(had.len() as int) =~= had);
}

} // verus!
