//! Label selectors: `matchLabels` and `matchExpressions`.

use vstd::prelude::*;
use vstd::string::*;

use crate::json::{lists_keys, str_tree, strings_in, trees, Json, Object, Tree};
use crate::text::same;

verus! {

/// An expression holds of labels: an absent label is in no set, and an operator
/// that is not known holds of nothing.
pub open spec fn expression_holds(expr: Tree, labels: Tree) -> bool {
    let op = expr.at("operator"@).text_or_empty();
    let have = labels.at(expr.at("key"@).text_or_empty()).text();
    let values = strings_in(expr.at("values"@).items_or_none());
    if op == "In"@ {
        have is Some && values.contains(have->0)
    } else if op == "NotIn"@ {
        have is None || !values.contains(have->0)
    } else if op == "Exists"@ {
        have is Some
    } else if op == "DoesNotExist"@ {
        have is None
    } else {
        false
    }
}

/// Every label that is asked for is there and equal.
pub open spec fn labels_agree(want: Map<Seq<char>, Tree>, labels: Tree) -> bool {
    forall|k: Seq<char>| #[trigger]
        want.contains_key(k) ==> match labels.get(k) {
            Some(have) => have.alike(want[k]),
            None => false,
        }
}

/// A selector selects labels. An empty one selects everything; one that is no
/// object selects nothing.
pub open spec fn selects(selector: Tree, labels: Tree) -> bool {
    &&& selector is Object
    &&& match selector.at("matchLabels"@) {
        Tree::Object(want) => labels_agree(want, labels),
        _ => true,
    }
    &&& forall|i: int|
        0 <= i < selector.at("matchExpressions"@).items_or_none().len() ==> expression_holds(
            #[trigger] selector.at("matchExpressions"@).items_or_none()[i],
            labels,
        )
}

fn holds(expr: &Json, labels: &Json) -> (r: bool)
    ensures
        r == expression_holds(expr@, labels@),
{
    let op = expr.at("operator").str_or_empty();
    let have = labels.at(expr.at("key").str_or_empty()).as_str();
    let values = crate::json::collect_strings(expr.at("values"));
    if same(op, "In") {
        match have {
            Some(v) => crate::text::has_text(&values, v),
            None => false,
        }
    } else if same(op, "NotIn") {
        match have {
            Some(v) => !crate::text::has_text(&values, v),
            None => true,
        }
    } else if same(op, "Exists") {
        have.is_some()
    } else if same(op, "DoesNotExist") {
        have.is_none()
    } else {
        false
    }
}

/// Are all the labels of `want` there and equal?
pub fn agree(want: &crate::json::Object, labels: &Json) -> (r: bool)
    ensures
        r == labels_agree(want.map(), labels@),
{
    let n: usize = want.len();
    let ghost keys = want.keys();
    let ghost m = want.map();
    let mut i: usize = 0;
    while i < n
        invariant
            i <= n,
            n == keys.len(),
            keys == want.keys(),
            m == want.map(),
            lists_keys(keys, m),
            forall|j: int|
                0 <= j < i ==> match labels@.get(#[trigger] keys[j]) {
                    Some(have) => have.alike(m[keys[j]]),
                    None => false,
                },
        decreases n - i,
    {
        let k = want.key(i);
        let v = want.value(i);
        let ok = match labels.get(k) {
            Some(have) => have.equals(v),
            None => false,
        };
        if !ok {
            assert(m.contains_key(keys[i as int]));
            return false;
        }
        i = i + 1;
    }
    assert forall|k: Seq<char>| #[trigger] m.contains_key(k) implies match labels@.get(k) {
        Some(have) => have.alike(m[k]),
        None => false,
    } by {
        assert(keys.contains(k));
        let j = keys.index_of(k);
        assert(keys[j] == k);
    }
    true
}

/// Do the labels satisfy the selector?
pub fn matches(selector: &Json, labels: &Json) -> (r: bool)
    ensures
        r == selects(selector@, labels@),
{
    if !selector.is_object() {
        return false;
    }
    match selector.at("matchLabels") {
        Json::Object(want) => {
            if !agree(want, labels) {
                return false;
            }
        },
        _ => {},
    }
    let exprs = match selector.at("matchExpressions") {
        Json::Array(a) => a,
        _ => {
            return true;
        },
    };
    let mut i: usize = 0;
    while i < exprs.len()
        invariant
            i <= exprs.len(),
            selector@.at("matchExpressions"@) == Tree::Array(trees(exprs@)),
            forall|j: int| 0 <= j < i ==> expression_holds(#[trigger] trees(exprs@)[j], labels@),
        decreases exprs.len() - i,
    {
        if !holds(&exprs[i], labels) {
            assert(!expression_holds(
                selector@.at("matchExpressions"@).items_or_none()[i as int],
                labels@,
            ));
            return false;
        }
        i = i + 1;
    }
    true
}

/// The empty selector selects everything, and null nothing.
pub proof fn law_empty_selects_all_and_null_nothing(labels: Tree)
    ensures
        selects(crate::json::empty_object(), labels),
        !selects(Tree::Null, labels),
{
}

/// An operator that is not known selects nothing.
pub proof fn law_an_unknown_operator_selects_nothing(selector: Tree, labels: Tree, i: int)
    requires
        0 <= i < selector.at("matchExpressions"@).items_or_none().len(),
        ({
            let op = selector.at("matchExpressions"@).items_or_none()[i].at(
                "operator"@,
            ).text_or_empty();
            op != "In"@ && op != "NotIn"@ && op != "Exists"@ && op != "DoesNotExist"@
        }),
    ensures
        !selects(selector, labels),
{
}

/// What an expression asks of a label: `In` that it is one of the values, `Exists` that it
/// is there. `NotIn` asks the opposite of `In`, `DoesNotExist` that of `Exists`, so a label
/// that is not there is in no set and outside of every one.
pub proof fn law_an_expression_asks_of_its_label(expr: Tree, labels: Tree, key: Seq<char>)
    requires
        expr.at("key"@) == Tree::String(key),
    ensures
        expr.at("operator"@) == str_tree("In") ==> (expression_holds(expr, labels) <==> labels.at(
            key,
        ) is String && exists|i: int|
            0 <= i < expr.at("values"@).items_or_none().len() && #[trigger] expr.at(
                "values"@,
            ).items_or_none()[i] == labels.at(key)),
        expr.at("operator"@) == str_tree("NotIn") ==> (expression_holds(expr, labels) <==> !(
        labels.at(key) is String && exists|i: int|
            0 <= i < expr.at("values"@).items_or_none().len() && #[trigger] expr.at(
                "values"@,
            ).items_or_none()[i] == labels.at(key))),
        expr.at("operator"@) == str_tree("Exists") ==> (expression_holds(expr, labels)
            <==> labels.at(key) is String),
        expr.at("operator"@) == str_tree("DoesNotExist") ==> (expression_holds(expr, labels)
            <==> !(labels.at(key) is String)),
{
    reveal_strlit("In");
    reveal_strlit("NotIn");
    reveal_strlit("Exists");
    reveal_strlit("DoesNotExist");
    assert("In"@.len() == 2);
    assert("NotIn"@.len() == 5);
    assert("Exists"@.len() == 6);
    assert("DoesNotExist"@.len() == 12);
    let values = expr.at("values"@).items_or_none();
    if labels.at(key) is String {
        lemma_listed_text(values, labels.at(key)->String_0);
    }
}

proof fn lemma_listed_text(values: Seq<Tree>, text: Seq<char>)
    ensures
        strings_in(values).contains(text) <==> exists|i: int|
            0 <= i < values.len() && #[trigger] values[i] == Tree::String(text),
    decreases values.len(),
{
    if values.len() > 0 {
        let rest = values.drop_last();
        lemma_listed_text(rest, text);
        assert(values[values.len() - 1] == values.last());
        if exists|i: int| 0 <= i < rest.len() && #[trigger] rest[i] == Tree::String(text) {
            let i = choose|i: int| 0 <= i < rest.len() && #[trigger] rest[i] == Tree::String(text);
            assert(values[i] == rest[i]);
        }
        let all = strings_in(values);
        let before = strings_in(rest);
        if values.last() is String {
            let s = values.last()->String_0;
            assert(all == before.push(s));
            assert(all[before.len() as int] == s);
            if before.contains(text) {
                let i = before.index_of(text);
                assert(all[i] == text);
            }
            if all.contains(text) && text != s {
                let i = all.index_of(text);
                assert(before[i] == text);
            }
        }
        if exists|i: int| 0 <= i < values.len() && #[trigger] values[i] == Tree::String(text) {
            let i = choose|i: int|
                0 <= i < values.len() && #[trigger] values[i] == Tree::String(text);
            if i < rest.len() {
                assert(rest[i] == values[i]);
            }
        }
    }
}

/// A selector asks for everything that it names: each label of `matchLabels` must be there
/// with its value, and each expression must hold.
pub proof fn law_a_selector_asks_for_all_it_names(selector: Tree, labels: Tree)
    requires
        selector is Object,
    ensures
        selects(selector, labels) <==> {
            &&& selector.at("matchLabels"@) is Object ==> forall|k: Seq<char>| #[trigger]
                (selector.at("matchLabels"@)->Object_0).contains_key(k) ==> labels.get(k) is Some
                    && (labels.get(k)->0).alike((selector.at("matchLabels"@)->Object_0)[k])
            &&& forall|i: int|
                0 <= i < selector.at("matchExpressions"@).items_or_none().len()
                    ==> expression_holds(
                    #[trigger] selector.at("matchExpressions"@).items_or_none()[i],
                    labels,
                )
        },
{
    if selector.at("matchLabels"@) is Object && selects(selector, labels) {
        let want = selector.at("matchLabels"@)->Object_0;
        assert forall|k: Seq<char>| #[trigger] want.contains_key(k) implies labels.get(k) is Some
            && (labels.get(k)->0).alike(want[k]) by {}
    }
}

} // verus!
