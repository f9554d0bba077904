//! The subresources of virtual machines: their consoles, and start, stop and
//! restart.

use vstd::prelude::*;
use vstd::string::*;

use crate::apimachinery::kubevirt::{should_run, wants_running};
use crate::apiserver::error::{
    err_bad_request, err_conflict, err_not_found, ApiError, ErrorView, NOT_FOUND,
};
use crate::apiserver::storage::{namespaced_key_of, ResourceStorage};
use crate::json::{empty_object, opt_tree, str_tree, Json, Tree};
use crate::text::opt_text;

verus! {

/// The node that runs an instance: the one in its status, where the machine is,
/// else the one in its spec, where it was asked to go. An empty name is none.
pub open spec fn running_node(vmi: Tree) -> Option<Seq<char>> {
    match vmi.at("status"@).at("nodeName"@).some_text() {
        Some(n) => Some(n),
        None => vmi.at("spec"@).at("nodeName"@).some_text(),
    }
}

/// The node that runs an instance.
pub fn node_of(vmi: &Json) -> (r: Option<String>)
    ensures
        opt_text(r) == running_node(vmi@),
{
    match vmi.at("status").at("nodeName").some_str() {
        Some(n) => Some(n.to_owned()),
        None => match vmi.at("spec").at("nodeName").some_str() {
            Some(n) => Some(n.to_owned()),
            None => None,
        },
    }
}

/// The node and the path of a console of an instance.
pub open spec fn door_of(
    vmi: Option<Tree>,
    namespace: Seq<char>,
    name: Seq<char>,
    door: Seq<char>,
) -> Result<(Seq<char>, Seq<char>), ErrorView> {
    match vmi {
        None => Err(err_not_found("virtualmachineinstances"@, name)),
        Some(v) => match running_node(v) {
            None => Err(
                err_bad_request(
                    "VirtualMachineInstance "@ + namespace + "/"@ + name
                        + " is not running on a node yet"@,
                ),
            ),
            Some(node) => Ok(
                (node, "/vmConsole/"@ + namespace + "/"@ + name + "/"@ + door),
            ),
        },
    }
}

/// Where a console of an instance is reached: the node, and the path at its
/// kubelet. `which` is `serial` or `vnc`.
pub fn door(vmi: Option<&Json>, namespace: &str, name: &str, which: &str) -> (r: Result<
    (String, String),
    ApiError,
>)
    ensures
        match r {
            Ok(d) => door_of(opt_tree(vmi), namespace@, name@, which@) == Ok::<
                (Seq<char>, Seq<char>),
                ErrorView,
            >((d.0@, d.1@)),
            Err(e) => door_of(opt_tree(vmi), namespace@, name@, which@) == Err::<
                (Seq<char>, Seq<char>),
                ErrorView,
            >(e@),
        },
{
    let v = match vmi {
        Some(v) => v,
        None => {
            return Err(ApiError::not_found("virtualmachineinstances", name));
        },
    };
    match node_of(v) {
        Some(node) => {
            let path = "/vmConsole/".to_owned().concat(namespace).concat("/").concat(
                name,
            ).concat("/").concat(which);
            Ok((node, path))
        },
        None => {
            let m = "VirtualMachineInstance ".to_owned().concat(namespace).concat("/").concat(
                name,
            ).concat(" is not running on a node yet");
            Err(ApiError::bad_request(m.as_str()))
        },
    }
}

/// A VirtualMachine that is asked to run, or not to run: the flag says so, and
/// no strategy says otherwise.
pub open spec fn with_running(vm: Tree, running: bool) -> Tree {
    let spec = if vm.at("spec"@).at("runStrategy"@) is String {
        vm.at("spec"@).unset("runStrategy"@)
    } else {
        vm.at("spec"@)
    };
    vm.set("spec"@, spec.set("running"@, Tree::Bool(running)))
}

/// Sets `spec.running`, which is all that `start` and `stop` do.
pub fn set_running(vm: &mut Json, running: bool)
    requires
        old(vm)@.settable(),
        old(vm)@.at("spec"@).settable(),
    ensures
        final(vm)@ == with_running(old(vm)@, running),
{
    let mut spec = vm.at("spec").dup();
    if spec.at("runStrategy").is_string() {
        spec.unset("runStrategy");
    }
    spec.set("running", Json::flag(running));
    vm.set("spec", spec);
}

/// A machine that was started should run, and one that was stopped should not,
/// whatever it said before.
pub proof fn law_the_verb_decides(vm: Tree, running: bool)
    requires
        vm.settable(),
        vm.at("spec"@).settable(),
    ensures
        should_run(with_running(vm, running)) == running,
{
    reveal_strlit("running");
    reveal_strlit("runStrategy");
    assert("running"@.len() == 7);
    assert("runStrategy"@.len() == 11);
}

/// The answer to a verb on a machine.
pub open spec fn verb_answer(namespace: Seq<char>, name: Seq<char>, what: Seq<char>) -> Tree {
    Tree::Object(
        map![
            "kind"@ => str_tree("Status"),
            "apiVersion"@ => str_tree("v1"),
            "metadata"@ => empty_object(),
            "status"@ => str_tree("Success"),
            "message"@ => Tree::String(
                what + " requested for VirtualMachine "@ + namespace + "/"@ + name,
            ),
        ],
    )
}

/// The answer to a verb on a machine: a `Status` of success.
pub fn ok(namespace: &str, name: &str, what: &str) -> (r: Json)
    ensures
        r@ == verb_answer(namespace@, name@, what@),
{
    let message = what.to_owned().concat(" requested for VirtualMachine ").concat(
        namespace,
    ).concat("/").concat(name);
    Json::object().with("kind", Json::text("Status")).with("apiVersion", Json::text("v1")).with(
        "metadata",
        Json::object(),
    ).with("status", Json::text("Success")).with("message", Json::String(message))
}

/// The key of the instance that a restart deletes, or why it may not.
pub open spec fn restart_of(vm: Option<Tree>, namespace: Seq<char>, name: Seq<char>) -> Result<
    Seq<char>,
    ErrorView,
> {
    match vm {
        None => Err(err_not_found("virtualmachines"@, name)),
        Some(v) => if should_run(v) {
            Ok(namespaced_key_of("virtualmachineinstances"@, namespace, name))
        } else {
            Err(
                err_conflict(
                    "VirtualMachine "@ + namespace + "/"@ + name + " is not running"@,
                ),
            )
        },
    }
}

/// A restart deletes the instance of a machine that should run, and leaves it to
/// the controller to make another.
pub fn vm_restart(vm: Option<&Json>, namespace: &str, name: &str) -> (r: Result<String, ApiError>)
    ensures
        match r {
            Ok(k) => restart_of(opt_tree(vm), namespace@, name@) == Ok::<Seq<char>, ErrorView>(k@),
            Err(e) => restart_of(opt_tree(vm), namespace@, name@) == Err::<Seq<char>, ErrorView>(
                e@,
            ),
        },
{
    let v = match vm {
        Some(v) => v,
        None => {
            return Err(ApiError::not_found("virtualmachines", name));
        },
    };
    if !wants_running(v) {
        let m = "VirtualMachine ".to_owned().concat(namespace).concat("/").concat(name).concat(
            " is not running",
        );
        return Err(ApiError::conflict(m.as_str()));
    }
    Ok(ResourceStorage::namespaced_key("virtualmachineinstances", namespace, name))
}

/// The answer to a restart, after the deletion: an instance that is gone already
/// is what was asked for.
pub fn vm_restarted(failure: Option<ApiError>, namespace: &str, name: &str) -> (r: Result<
    Json,
    ApiError,
>)
    ensures
        match failure {
            Some(e) => if e@.status == NOT_FOUND {
                r is Ok && r->Ok_0@ == verb_answer(namespace@, name@, "restart"@)
            } else {
                r is Err && r->Err_0@ == e@
            },
            None => r is Ok && r->Ok_0@ == verb_answer(namespace@, name@, "restart"@),
        },
{
    match failure {
        Some(e) => {
            if e.status == NOT_FOUND {
                Ok(ok(namespace, name, "restart"))
            } else {
                Err(e)
            }
        },
        None => Ok(ok(namespace, name, "restart")),
    }
}

/// A machine is started or stopped by its own word alone, which goes before any strategy;
/// nothing else of it changes.
pub proof fn law_a_verb_sets_the_word_alone(
    vm: Tree,
    running: bool,
    key: Seq<char>,
    field: Seq<char>,
)
    requires
        vm is Object,
        vm.at("spec"@) is Object,
        key != "spec"@,
        field != "running"@,
        field != "runStrategy"@,
    ensures
        with_running(vm, running).at("spec"@).at("running"@) == Tree::Bool(running),
        !(with_running(vm, running).at("spec"@).at("runStrategy"@) is String),
        with_running(vm, running).at("spec"@).get(field) == vm.at("spec"@).get(field),
        with_running(vm, running).get(key) == vm.get(key),
{
    reveal_strlit("running");
    reveal_strlit("runStrategy");
    assert("running"@.len() == 7);
    assert("runStrategy"@.len() == 11);
}

/// The door of a machine is on the node where it runs, by what its status says, else where it
/// was sent; a machine that is not there, or runs nowhere yet, has none.
pub proof fn law_a_door_is_where_the_machine_runs(
    vmi: Tree,
    namespace: Seq<char>,
    name: Seq<char>,
    door: Seq<char>,
)
    ensures
        ({
            let r = door_of(Some(vmi), namespace, name, door);
            let there = vmi.at("status"@).at("nodeName"@);
            let sent = vmi.at("spec"@).at("nodeName"@);
            &&& there is String && (there->String_0).len() > 0 ==> r is Ok && Tree::String(
                r->Ok_0.0,
            ) == there
            &&& (!(there is String) || (there->String_0).len() == 0) && sent is String && (
            sent->String_0).len() > 0 ==> r is Ok && Tree::String(r->Ok_0.0) == sent
            &&& (!(there is String) || (there->String_0).len() == 0) && (!(sent is String) || (
            sent->String_0).len() == 0) ==> r is Err && r->Err_0.status == 400
            &&& r is Ok ==> r->Ok_0.1 == "/vmConsole/"@ + namespace + "/"@ + name + "/"@ + door
        }),
        door_of(None, namespace, name, door) is Err,
        door_of(None, namespace, name, door)->Err_0.status == 404,
{
}

/// Only a machine that is to run is restarted, and its instance is what goes.
pub proof fn law_only_what_runs_is_restarted(vm: Tree, namespace: Seq<char>, name: Seq<char>)
    ensures
        restart_of(None, namespace, name) is Err,
        restart_of(None, namespace, name)->Err_0.status == 404,
        should_run(vm) ==> restart_of(Some(vm), namespace, name) == Ok::<Seq<char>, ErrorView>(
            namespaced_key_of("virtualmachineinstances"@, namespace, name),
        ),
        !should_run(vm) ==> restart_of(Some(vm), namespace, name) is Err && restart_of(
            Some(vm),
            namespace,
            name,
        )->Err_0.status == 409,
{
}

} // verus!
