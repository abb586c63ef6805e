//! Bar module rows: where the workspace group sits and how the folded drawer
//! opens.
use crate::text::{same_str, views};
use vstd::prelude::*;

verus! {

/// Index of the first module named `name`, the module count when absent.
pub open spec fn position_of(modules: Seq<String>, name: Seq<char>) -> int
    decreases modules.len(),
{
    if modules.len() == 0 {
        0
    } else if modules[0]@ == name {
        0
    } else {
        1 + position_of(modules.drop_first(), name)
    }
}

proof fn lemma_position_of(modules: Seq<String>, name: Seq<char>, i: int)
    requires
        0 <= i <= modules.len(),
        forall|j: int| 0 <= j < i ==> modules[j]@ != name,
        i == modules.len() || modules[i]@ == name,
    ensures
        position_of(modules, name) == i,
    decreases i,
{
    if i > 0 {
        assert forall|j: int| 0 <= j < i - 1 implies modules.drop_first()[j]@ != name by {
            assert(modules.drop_first()[j] == modules[j + 1]);
        }
        lemma_position_of(modules.drop_first(), name, i - 1);
    }
}

/// The modules before and after the `workspaces` entry, which keeps its
/// configured place; without one, all modules come after it.
pub fn split_workspaces(modules: &[String]) -> (r: (&[String], &[String]))
    ensures
        ({
            let p = position_of(modules@, "workspaces"@);
            if p < modules@.len() {
                r.0@ == modules@.take(p) && r.1@ == modules@.skip(p + 1)
            } else {
                r.0@.len() == 0 && r.1@ == modules@
            }
        }),
{
    let mut i: usize = 0;
    while i < modules.len() && !same_str(modules[i].as_str(), "workspaces")
        invariant
            i <= modules@.len(),
            forall|j: int| 0 <= j < i ==> modules@[j]@ != "workspaces"@,
        decreases modules@.len() - i,
    {
        i += 1;
    }
    proof {
        lemma_position_of(modules@, "workspaces"@, i as int);
    }
    if i < modules.len() {
        let before = vstd::slice::slice_subrange(modules, 0, i);
        let after = vstd::slice::slice_subrange(modules, i + 1, modules.len());
        assert(before@ =~= modules@.take(i as int));
        assert(after@ =~= modules@.skip(i + 1));
        (before, after)
    } else {
        let before = vstd::slice::slice_subrange(modules, 0, 0);
        let after = vstd::slice::slice_subrange(modules, 0, modules.len());
        assert(after@ =~= modules@);
        (before, after)
    }
}

/// Rows of the first `n` modules: each `drawer` entry preceded, while the
/// drawer is expanded, by the folded modules.
pub open spec fn spec_drawer_rows(modules: Seq<Seq<char>>, drawer: Seq<Seq<char>>, expanded: bool, n: int) -> Seq<Seq<char>>
    decreases n,
{
    if n <= 0 {
        Seq::empty()
    } else {
        let before = spec_drawer_rows(modules, drawer, expanded, n - 1);
        let name = modules[n - 1];
        if name == "drawer"@ && expanded { before + drawer.push(name) } else { before.push(name) }
    }
}

/// The module row with the drawer folded in: its modules left of the
/// chevron while expanded, the chevron alone otherwise.
pub fn drawer_rows(modules: &[String], drawer: &[String], expanded: bool) -> (out: Vec<String>)
    ensures
        views(out@) == spec_drawer_rows(views(modules@), views(drawer@), expanded, modules@.len() as int),
{
    let mut out: Vec<String> = Vec::new();
    let mut i: usize = 0;
    while i < modules.len()
        invariant
            i <= modules@.len(),
            views(out@) == spec_drawer_rows(views(modules@), views(drawer@), expanded, i as int),
        decreases modules@.len() - i,
    {
        let name = &modules[i];
        if expanded && same_str(name.as_str(), "drawer") {
            let mut k: usize = 0;
            let ghost start = out@;
            while k < drawer.len()
                invariant
                    k <= drawer@.len(),
                    views(out@) == views(start) + views(drawer@).take(k as int),
                decreases drawer@.len() - k,
            {
                let ghost prev = out@;
                out.push(drawer[k].clone());
                assert(views(out@) =~= views(prev).push(drawer@[k as int]@));
                assert(views(drawer@).take(k + 1) =~= views(drawer@).take(k as int).push(drawer@[k as int]@));
                k += 1;
            }
            assert(views(drawer@).take(k as int) =~= views(drawer@));
        }
        let ghost before = out@;
        out.push(name.clone());
        assert(views(out@) =~= views(before).push(name@));
        i += 1;
    }
    out
}

/// With the drawer folded the row is the configured modules as they are:
/// the chevron alone stands for the folded ones.
pub proof fn folded_drawer_keeps_modules(modules: Seq<Seq<char>>, drawer: Seq<Seq<char>>, n: int)
    requires
        0 <= n <= modules.len(),
    ensures
        spec_drawer_rows(modules, drawer, false, n) == modules.take(n),
    decreases n,
{
    if n > 0 {
        folded_drawer_keeps_modules(modules, drawer, n - 1);
        assert(modules.take(n - 1).push(modules[n - 1]) =~= modules.take(n));
    } else {
        assert(modules.take(0) =~= Seq::<Seq<char>>::empty());
    }
}

} // verus!

