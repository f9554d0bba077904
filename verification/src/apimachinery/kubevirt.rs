//! What a `VirtualMachine` asks for.

use vstd::prelude::*;

use crate::json::{str_tree, Json, Tree};

verus! {

/// A VirtualMachine should have a running instance: its `runStrategy` decides
/// where it says so, else its `running`. One that says nothing does not run.
pub open spec fn should_run(vm: Tree) -> bool {
    let strategy = vm.at("spec"@).at("runStrategy"@);
    if strategy == str_tree("Always") || strategy == str_tree("RerunOnFailure") {
        true
    } else if strategy == str_tree("Halted") {
        false
    } else {
        vm.at("spec"@).at("running"@).flag() == Some(true)
    }
}

/// Should this VirtualMachine have a running instance?
pub fn wants_running(vm: &Json) -> (r: bool)
    ensures
        r == should_run(vm@),
{
    let spec = vm.at("spec");
    let strategy = spec.at("runStrategy");
    if strategy.is_text("Always") || strategy.is_text("RerunOnFailure") {
        return true;
    }
    if strategy.is_text("Halted") {
        return false;
    }
    match spec.at("running").as_bool() {
        Some(b) => b,
        None => false,
    }
}

/// The strategy wins over the boolean: with one that decides, the boolean does
/// not matter.
pub proof fn law_strategy_wins(vm: Tree, other: Tree)
    requires
        vm.at("spec"@).at("runStrategy"@) == other.at("spec"@).at("runStrategy"@),
        vm.at("spec"@).at("runStrategy"@) == str_tree("Always") || vm.at("spec"@).at(
            "runStrategy"@,
        ) == str_tree("RerunOnFailure") || vm.at("spec"@).at("runStrategy"@) == str_tree(
            "Halted",
        ),
    ensures
        should_run(vm) == should_run(other),
{
}

/// What a VirtualMachine says of running: `Always` and `RerunOnFailure` run it, `Halted`
/// does not, and where no strategy says so its `running` does. One that says nothing does
/// not run.
pub proof fn law_a_machine_runs_as_it_says(vm: Tree)
    ensures
        vm.at("spec"@).at("runStrategy"@) == str_tree("Always") ==> should_run(vm),
        vm.at("spec"@).at("runStrategy"@) == str_tree("RerunOnFailure") ==> should_run(vm),
        vm.at("spec"@).at("runStrategy"@) == str_tree("Halted") ==> !should_run(vm),
        vm.at("spec"@).at("runStrategy"@) == str_tree("Manual") || vm.at("spec"@).at(
            "runStrategy"@,
        ) is Null ==> (should_run(vm) <==> vm.at("spec"@).at("running"@) == Tree::Bool(true)),
{
    reveal_strlit("Always");
    reveal_strlit("RerunOnFailure");
    reveal_strlit("Halted");
    reveal_strlit("Manual");
    assert("Always"@.len() == 6);
    assert("Always"@[0] == 'A');
    assert("RerunOnFailure"@.len() == 14);
    assert("Halted"@.len() == 6);
    assert("Halted"@[0] == 'H');
    assert("Manual"@.len() == 6);
    assert("Manual"@[0] == 'M');
}

} // verus!
