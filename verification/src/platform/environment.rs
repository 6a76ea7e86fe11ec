//! The environment of one sandbox process.

use crate::config::reserved;
use crate::config::validate;
use crate::env::{self, EnvMap, Entries};
use crate::platform::policy::{PolicyView, SandboxLaunchPolicy};
use crate::text;
use vstd::prelude::*;

verus! {

/// The list without the entries of a name.
pub open spec fn without(entries: Entries, name: Seq<char>) -> Entries
    decreases entries.len(),
{
    if entries.len() == 0 {
        entries
    } else {
        let rest = without(entries.drop_last(), name);
        if entries.last().0 == name {
            rest
        } else {
            rest.push(entries.last())
        }
    }
}

/// The list with one entry for a name, at the end.
pub open spec fn replaced(entries: Entries, name: Seq<char>, value: Seq<char>) -> Entries {
    without(entries, name).push((name, value))
}

/// The list after every override took its name over, in order.
pub open spec fn overridden(entries: Entries, overrides: Entries) -> Entries
    decreases overrides.len(),
{
    if overrides.len() == 0 {
        entries
    } else {
        let last = overrides.last();
        replaced(overridden(entries, overrides.drop_last()), last.0, last.1)
    }
}

/// The list after an optional override.
pub open spec fn optionally(
    entries: Entries,
    name: Seq<char>,
    value: Option<Seq<char>>,
) -> Entries {
    match value {
        Some(value) => replaced(entries, name, value),
        None => entries,
    }
}

/// The workspace-scoped basics followed by the operator environment.
pub open spec fn basics(policy: PolicyView, workspace: Seq<char>) -> Entries {
    seq![("HOME"@, workspace), ("PWD"@, workspace), ("SHELL"@, policy.shell)] + policy.sandbox_env
}

/// The environment of one sandbox process: the basics, then the connection's
/// overrides, then the authoritative `TERM` and `TMPDIR`.
pub open spec fn environment_of(
    policy: PolicyView,
    workspace: Seq<char>,
    term: Option<Seq<char>>,
    temp_dir: Option<Seq<char>>,
    overrides: Entries,
) -> Entries {
    optionally(
        optionally(overridden(basics(policy, workspace), overrides), "TERM"@, term),
        "TMPDIR"@,
        temp_dir,
    )
}

/// The contents of an optional text.
pub open spec fn text_of(s: Option<&str>) -> Option<Seq<char>> {
    match s {
        Some(s) => Some(s@),
        None => None,
    }
}

/// Give a name one entry at the end of the list.
fn replace(entries: &Vec<(String, String)>, name: &str, value: &str) -> (r: Vec<(String, String)>)
    ensures
        env::pairs(r@) == replaced(env::pairs(entries@), name@, value@),
{
    let ghost all = env::pairs(entries@);
    let mut out: Vec<(String, String)> = Vec::new();
    let mut i: usize = 0;
    assert(env::pairs(out@) =~= without(all.take(0), name@));
    while i < entries.len()
        invariant
            i <= entries@.len(),
            all == env::pairs(entries@),
            env::pairs(out@) == without(all.take(i as int), name@),
        decreases entries@.len() - i,
    {
        proof {
            assert(all.take(i + 1).drop_last() =~= all.take(i as int));
            assert(all.take(i + 1).last() == all[i as int]);
            assert(all[i as int] == (entries@[i as int].0@, entries@[i as int].1@));
        }
        if !text::same_text(entries[i].0.as_str(), name) {
            let entry = (entries[i].0.clone(), entries[i].1.clone());
            proof {
                assert(env::pairs(out@.push(entry)) =~= env::pairs(out@).push(
                    (entry.0@, entry.1@),
                ));
            }
            out.push(entry);
        }
        i = i + 1;
    }
    proof {
        assert(all.take(all.len() as int) =~= all);
    }
    let entry = (name.to_owned(), value.to_owned());
    proof {
        assert(env::pairs(out@.push(entry)) =~= env::pairs(out@).push((entry.0@, entry.1@)));
    }
    out.push(entry);
    out
}

impl SandboxLaunchPolicy {
    /// The environment of one sandbox process without connection metadata.
    pub fn environment_for(
        &self,
        workspace: &str,
        term: Option<&str>,
        temp_dir: Option<&str>,
    ) -> (r: Vec<(String, String)>)
        ensures
            env::pairs(r@) == environment_of(
                self@,
                workspace@,
                text_of(term),
                text_of(temp_dir),
                Entries::empty(),
            ),
    {
        let none = EnvMap::new();
        self.environment_for_with_overrides(workspace, term, temp_dir, &none)
    }

    /// The environment of one sandbox process: workspace-scoped basics, the
    /// operator environment, and the daemon-authored values that describe the
    /// connection. A terminal request is authoritative for `TERM` and the
    /// runtime temp directory for `TMPDIR`; callers that omit one leave it
    /// untouched.
    pub fn environment_for_with_overrides(
        &self,
        workspace: &str,
        term: Option<&str>,
        temp_dir: Option<&str>,
        overrides: &EnvMap,
    ) -> (r: Vec<(String, String)>)
        ensures
            env::pairs(r@) == environment_of(
                self@,
                workspace@,
                text_of(term),
                text_of(temp_dir),
                overrides@,
            ),
    {
        let mut list = self.basic_environment(workspace);
        let ghost start = env::pairs(list@);
        let entries = overrides.entries();
        let ghost all = env::pairs(entries@);
        let mut i: usize = 0;
        assert(overridden(start, all.take(0)) == start);
        while i < entries.len()
            invariant
                i <= entries@.len(),
                all == env::pairs(entries@),
                env::pairs(list@) == overridden(start, all.take(i as int)),
            decreases entries@.len() - i,
        {
            proof {
                assert(all.take(i + 1).drop_last() =~= all.take(i as int));
                assert(all.take(i + 1).last() == all[i as int]);
                assert(all[i as int] == (entries@[i as int].0@, entries@[i as int].1@));
            }
            list = replace(&list, entries[i].0.as_str(), entries[i].1.as_str());
            i = i + 1;
        }
        proof {
            assert(all.take(all.len() as int) =~= all);
        }
        if let Some(term) = term {
            list = replace(&list, "TERM", term);
        }
        if let Some(temp_dir) = temp_dir {
            list = replace(&list, "TMPDIR", temp_dir);
        }
        list
    }

    fn basic_environment(&self, workspace: &str) -> (r: Vec<(String, String)>)
        ensures
            env::pairs(r@) == basics(self@, workspace@),
    {
        let mut list: Vec<(String, String)> = Vec::new();
        list.push((String::from_str("HOME"), workspace.to_owned()));
        list.push((String::from_str("PWD"), workspace.to_owned()));
        list.push((String::from_str("SHELL"), self.shell().to_owned()));
        let ghost head = env::pairs(list@);
        let sandbox_env = self.sandbox_env();
        let entries = sandbox_env.entries();
        let ghost added = env::pairs(entries@);
        proof {
            assert(head =~= seq![
                ("HOME"@, workspace@),
                ("PWD"@, workspace@),
                ("SHELL"@, self@.shell),
            ]);
            assert(head + added.take(0) =~= head);
        }
        let mut i: usize = 0;
        while i < entries.len()
            invariant
                i <= entries@.len(),
                added == env::pairs(entries@),
                env::pairs(list@) == head + added.take(i as int),
            decreases entries@.len() - i,
        {
            let entry = (entries[i].0.clone(), entries[i].1.clone());
            proof {
                assert(added.take(i + 1) =~= added.take(i as int).push((entry.0@, entry.1@)));
                assert(env::pairs(list@.push(entry)) =~= env::pairs(list@).push(
                    (entry.0@, entry.1@),
                ));
                assert((head + added.take(i as int)).push((entry.0@, entry.1@)) =~= head
                    + added.take(i + 1));
            }
            list.push(entry);
            i = i + 1;
        }
        proof {
            assert(added.take(added.len() as int) =~= added);
        }
        list
    }
}

// ---------------------------------------------------------------------------
// What the environment promises

/// A name has an entry.
pub open spec fn names(entries: Entries, name: Seq<char>) -> bool {
    exists|i: int| 0 <= i < entries.len() && (#[trigger] entries[i]).0 == name
}

/// The value of a name's first entry.
pub open spec fn value_in(entries: Entries, name: Seq<char>) -> Option<Seq<char>>
    decreases entries.len(),
{
    if entries.len() == 0 {
        None
    } else {
        match value_in(entries.drop_last(), name) {
            Some(value) => Some(value),
            None => if entries.last().0 == name {
                Some(entries.last().1)
            } else {
                None
            },
        }
    }
}

/// No name has two entries.
pub open spec fn names_are_unique(entries: Entries) -> bool {
    forall|i: int, j: int|
        0 <= i < j < entries.len() ==> (#[trigger] entries[i]).0 != (#[trigger] entries[j]).0
}

proof fn lemma_without(entries: Entries, name: Seq<char>)
    ensures
        !names(without(entries, name), name),
        forall|other: Seq<char>|
            other != name ==> (#[trigger] names(without(entries, name), other) <==> names(
                entries,
                other,
            )),
        names_are_unique(entries) ==> names_are_unique(without(entries, name)),
    decreases entries.len(),
{
    if entries.len() > 0 {
        let short = entries.drop_last();
        let last = entries.last();
        lemma_without(short, name);
        let rest = without(short, name);
        let result = without(entries, name);
        assert forall|other: Seq<char>| other != name implies (#[trigger] names(result, other)
            <==> names(entries, other)) by {
            if names(entries, other) {
                let k = choose|k: int| 0 <= k < entries.len() && (#[trigger] entries[k]).0 == other;
                if k < short.len() {
                    assert(short[k] == entries[k]);
                    assert(names(rest, other));
                    let m = choose|m: int| 0 <= m < rest.len() && (#[trigger] rest[m]).0 == other;
                    assert(result[m].0 == other);
                } else {
                    assert(result[result.len() - 1] == last);
                }
            }
            if names(result, other) {
                let k = choose|k: int| 0 <= k < result.len() && (#[trigger] result[k]).0 == other;
                if k < rest.len() {
                    assert(rest[k].0 == other);
                    assert(names(rest, other));
                    assert(names(short, other));
                    let m = choose|m: int| 0 <= m < short.len() && (#[trigger] short[m]).0 == other;
                    assert(entries[m].0 == other);
                } else {
                    assert(entries[entries.len() - 1].0 == other);
                }
            }
        }
        if names(result, name) {
            let k = choose|k: int| 0 <= k < result.len() && (#[trigger] result[k]).0 == name;
            if k < rest.len() {
                assert(rest[k].0 == name);
            }
        }
        if names_are_unique(entries) {
            assert forall|i: int, j: int| 0 <= i < j < short.len() implies (
            #[trigger] short[i]).0 != (#[trigger] short[j]).0 by {
                assert(entries[i].0 != entries[j].0);
            }
            if last.0 != name {
                assert forall|i: int, j: int| 0 <= i < j < result.len() implies (
                #[trigger] result[i]).0 != (#[trigger] result[j]).0 by {
                    if j < rest.len() {
                        assert(rest[i].0 != rest[j].0);
                    } else {
                        assert(rest[i].0 == result[i].0);
                        assert(result[j] == last);
                        if result[i].0 == last.0 {
                            assert(names(rest, last.0));
                            assert(names(short, last.0));
                            let m = choose|m: int|
                                0 <= m < short.len() && (#[trigger] short[m]).0 == last.0;
                            assert(entries[m].0 != entries[entries.len() - 1].0);
                        }
                    }
                }
            }
        }
    }
}

proof fn lemma_value_without(entries: Entries, name: Seq<char>, other: Seq<char>)
    ensures
        value_in(without(entries, name), other) == (if other == name {
            None
        } else {
            value_in(entries, other)
        }),
    decreases entries.len(),
{
    if entries.len() > 0 {
        let short = entries.drop_last();
        lemma_value_without(short, name, other);
        let rest = without(short, name);
        if entries.last().0 != name {
            assert(rest.push(entries.last()).drop_last() =~= rest);
        }
    }
}

/// Taking a name over gives it that value and keeps every other name's.
pub proof fn replacing_changes_one_name(
    entries: Entries,
    name: Seq<char>,
    value: Seq<char>,
    other: Seq<char>,
)
    ensures
        value_in(replaced(entries, name, value), other) == (if other == name {
            Some(value)
        } else {
            value_in(entries, other)
        }),
{
    lemma_value_without(entries, name, other);
    let rest = without(entries, name);
    assert(rest.push((name, value)).drop_last() =~= rest);
}

/// Taking a name over leaves it exactly one entry.
pub proof fn replacing_keeps_names_unique(entries: Entries, name: Seq<char>, value: Seq<char>)
    requires
        names_are_unique(entries),
    ensures
        names_are_unique(replaced(entries, name, value)),
{
    lemma_without(entries, name);
    let rest = without(entries, name);
    let result = rest.push((name, value));
    assert forall|i: int, j: int| 0 <= i < j < result.len() implies (#[trigger] result[i]).0 != (
    #[trigger] result[j]).0 by {
        if j < rest.len() {
            assert(rest[i].0 != rest[j].0);
        } else {
            assert(rest[i].0 == result[i].0);
        }
    }
}

/// The terminal request decides `TERM` and the runtime temp directory decides
/// `TMPDIR`: neither the operator environment nor connection metadata can
/// shadow them.
pub proof fn term_and_tmpdir_are_authoritative(
    policy: PolicyView,
    workspace: Seq<char>,
    term: Option<Seq<char>>,
    temp_dir: Option<Seq<char>>,
    overrides: Entries,
)
    ensures
        term is Some ==> value_in(
            environment_of(policy, workspace, term, temp_dir, overrides),
            "TERM"@,
        ) == term,
        temp_dir is Some ==> value_in(
            environment_of(policy, workspace, term, temp_dir, overrides),
            "TMPDIR"@,
        ) == temp_dir,
{
    let first = overridden(basics(policy, workspace), overrides);
    reveal_strlit("TERM");
    reveal_strlit("TMPDIR");
    assert("TERM"@.len() != "TMPDIR"@.len());
    if let Some(value) = term {
        replacing_changes_one_name(first, "TERM"@, value, "TERM"@);
    }
    let second = optionally(first, "TERM"@, term);
    if let Some(value) = temp_dir {
        replacing_changes_one_name(second, "TMPDIR"@, value, "TMPDIR"@);
        replacing_changes_one_name(second, "TMPDIR"@, value, "TERM"@);
    }
}

/// Without a temp directory, `TMPDIR` is what the earlier layers made it; the
/// same holds of `TERM` without a terminal.
pub proof fn omitted_values_are_untouched(
    policy: PolicyView,
    workspace: Seq<char>,
    term: Option<Seq<char>>,
    temp_dir: Option<Seq<char>>,
    overrides: Entries,
)
    ensures
        temp_dir is None ==> value_in(
            environment_of(policy, workspace, term, temp_dir, overrides),
            "TMPDIR"@,
        ) == value_in(overridden(basics(policy, workspace), overrides), "TMPDIR"@),
        term is None ==> value_in(
            environment_of(policy, workspace, term, temp_dir, overrides),
            "TERM"@,
        ) == value_in(overridden(basics(policy, workspace), overrides), "TERM"@),
{
    let first = overridden(basics(policy, workspace), overrides);
    reveal_strlit("TERM");
    reveal_strlit("TMPDIR");
    assert("TERM"@.len() != "TMPDIR"@.len());
    if let Some(value) = term {
        replacing_changes_one_name(first, "TERM"@, value, "TMPDIR"@);
    }
    if let Some(value) = temp_dir {
        replacing_changes_one_name(
            optionally(first, "TERM"@, term),
            "TMPDIR"@,
            value,
            "TERM"@,
        );
    }
}

/// An override decides its name over the operator environment.
pub proof fn overrides_are_applied(entries: Entries, overrides: Entries, i: int)
    requires
        0 <= i < overrides.len(),
        env::is_map(overrides),
    ensures
        value_in(overridden(entries, overrides), overrides[i].0) == Some(overrides[i].1),
    decreases overrides.len(),
{
    let short = overrides.drop_last();
    let last = overrides.last();
    let before = overridden(entries, short);
    assert forall|a: int, b: int| 0 <= a < b < short.len() implies text::before(
        (#[trigger] short[a]).0,
        (#[trigger] short[b]).0,
    ) by {
        assert(text::before(overrides[a].0, overrides[b].0));
    }
    replacing_changes_one_name(before, last.0, last.1, overrides[i].0);
    if i < overrides.len() - 1 {
        assert(text::before(overrides[i].0, overrides[overrides.len() - 1].0));
        text::lemma_before(last.0, last.0, last.0);
        overrides_are_applied(entries, short, i);
    }
}

proof fn lemma_overridden_unique(entries: Entries, overrides: Entries)
    requires
        names_are_unique(entries),
    ensures
        names_are_unique(overridden(entries, overrides)),
    decreases overrides.len(),
{
    if overrides.len() > 0 {
        lemma_overridden_unique(entries, overrides.drop_last());
        let last = overrides.last();
        replacing_keeps_names_unique(
            overridden(entries, overrides.drop_last()),
            last.0,
            last.1,
        );
    }
}

/// With an operator environment that validation accepted, no name occurs twice
/// in a process environment.
pub proof fn accepted_environments_have_unique_names(
    policy: PolicyView,
    workspace: Seq<char>,
    term: Option<Seq<char>>,
    temp_dir: Option<Seq<char>>,
    overrides: Entries,
)
    requires
        env::is_map(policy.sandbox_env),
        validate::env_outcome(Some(policy.sandbox_env)) is Ok,
    ensures
        names_are_unique(environment_of(policy, workspace, term, temp_dir, overrides)),
{
    let base = basics(policy, workspace);
    let extra = policy.sandbox_env;
    reveal_strlit("HOME");
    reveal_strlit("PWD");
    reveal_strlit("SHELL");
    assert("HOME"@.len() == 4 && "PWD"@.len() == 3 && "SHELL"@.len() == 5);
    assert forall|i: int, j: int| 0 <= i < j < base.len() implies (#[trigger] base[i]).0 != (
    #[trigger] base[j]).0 by {
        if j >= 3 {
            assert(base[j] == extra[j - 3]);
            validate::accepted_environments_are_clean(extra, j - 3);
            assert(!reserved::is_managed_name(base[j].0));
            if i >= 3 {
                assert(base[i] == extra[i - 3]);
                assert(text::before(extra[i - 3].0, extra[j - 3].0));
                text::lemma_before(extra[i - 3].0, extra[i - 3].0, extra[i - 3].0);
            }
        }
    }
    lemma_overridden_unique(base, overrides);
    let first = overridden(base, overrides);
    if let Some(value) = term {
        replacing_keeps_names_unique(first, "TERM"@, value);
    }
    if let Some(value) = temp_dir {
        replacing_keeps_names_unique(optionally(first, "TERM"@, term), "TMPDIR"@, value);
    }
}

proof fn lemma_value_of_unnamed(entries: Entries, name: Seq<char>)
    requires
        !names(entries, name),
    ensures
        value_in(entries, name) is None,
    decreases entries.len(),
{
    if entries.len() > 0 {
        let short = entries.drop_last();
        if names(short, name) {
            let k = choose|k: int| 0 <= k < short.len() && (#[trigger] short[k]).0 == name;
            assert(entries[k].0 == name);
        }
        lemma_value_of_unnamed(short, name);
        assert(entries[entries.len() - 1].0 != name);
    }
}

proof fn lemma_value_of_first(entries: Entries, i: int)
    requires
        0 <= i < entries.len(),
        forall|k: int| 0 <= k < i ==> (#[trigger] entries[k]).0 != entries[i].0,
    ensures
        value_in(entries, entries[i].0) == Some(entries[i].1),
    decreases entries.len(),
{
    let short = entries.drop_last();
    if i < short.len() {
        lemma_value_of_first(short, i);
    } else {
        if names(short, entries[i].0) {
            let k = choose|k: int|
                0 <= k < short.len() && (#[trigger] short[k]).0 == entries[i].0;
            assert(entries[k].0 == entries[i].0);
        }
        lemma_value_of_unnamed(short, entries[i].0);
    }
}

proof fn lemma_overridden_elsewhere(entries: Entries, overrides: Entries, name: Seq<char>)
    requires
        !names(overrides, name),
    ensures
        value_in(overridden(entries, overrides), name) == value_in(entries, name),
    decreases overrides.len(),
{
    if overrides.len() > 0 {
        let short = overrides.drop_last();
        let last = overrides.last();
        assert(overrides[overrides.len() - 1].0 != name);
        if names(short, name) {
            let k = choose|k: int| 0 <= k < short.len() && (#[trigger] short[k]).0 == name;
            assert(overrides[k].0 == name);
        }
        lemma_overridden_elsewhere(entries, short, name);
        replacing_changes_one_name(overridden(entries, short), last.0, last.1, name);
    }
}

proof fn lemma_unset_elsewhere(
    policy: PolicyView,
    workspace: Seq<char>,
    term: Option<Seq<char>>,
    temp_dir: Option<Seq<char>>,
    overrides: Entries,
    name: Seq<char>,
)
    requires
        name != "TERM"@,
        name != "TMPDIR"@,
    ensures
        value_in(environment_of(policy, workspace, term, temp_dir, overrides), name) == value_in(
            overridden(basics(policy, workspace), overrides),
            name,
        ),
{
    let first = overridden(basics(policy, workspace), overrides);
    if let Some(value) = term {
        replacing_changes_one_name(first, "TERM"@, value, name);
    }
    if let Some(value) = temp_dir {
        replacing_changes_one_name(optionally(first, "TERM"@, term), "TMPDIR"@, value, name);
    }
}

/// A process finds its workspace in `HOME` and `PWD` and the policy's shell in
/// `SHELL`, unless the connection says otherwise. The operator environment
/// cannot shadow them.
pub proof fn processes_start_in_their_workspace(
    policy: PolicyView,
    workspace: Seq<char>,
    term: Option<Seq<char>>,
    temp_dir: Option<Seq<char>>,
    overrides: Entries,
)
    ensures
        !names(overrides, "HOME"@) ==> value_in(
            environment_of(policy, workspace, term, temp_dir, overrides),
            "HOME"@,
        ) == Some(workspace),
        !names(overrides, "PWD"@) ==> value_in(
            environment_of(policy, workspace, term, temp_dir, overrides),
            "PWD"@,
        ) == Some(workspace),
        !names(overrides, "SHELL"@) ==> value_in(
            environment_of(policy, workspace, term, temp_dir, overrides),
            "SHELL"@,
        ) == Some(policy.shell),
{
    let base = basics(policy, workspace);
    reveal_strlit("HOME");
    reveal_strlit("PWD");
    reveal_strlit("SHELL");
    reveal_strlit("TERM");
    reveal_strlit("TMPDIR");
    assert("HOME"@[0] == 'H' && "TERM"@[0] == 'T');
    assert("HOME"@.len() == 4 && "PWD"@.len() == 3 && "SHELL"@.len() == 5);
    assert("TERM"@.len() == 4 && "TMPDIR"@.len() == 6);
    assert(base[0] == ("HOME"@, workspace));
    assert(base[1] == ("PWD"@, workspace));
    assert(base[2] == ("SHELL"@, policy.shell));
    lemma_value_of_first(base, 0);
    lemma_value_of_first(base, 1);
    lemma_value_of_first(base, 2);
    if !names(overrides, "HOME"@) {
        lemma_overridden_elsewhere(base, overrides, "HOME"@);
        lemma_unset_elsewhere(policy, workspace, term, temp_dir, overrides, "HOME"@);
    }
    if !names(overrides, "PWD"@) {
        lemma_overridden_elsewhere(base, overrides, "PWD"@);
        lemma_unset_elsewhere(policy, workspace, term, temp_dir, overrides, "PWD"@);
    }
    if !names(overrides, "SHELL"@) {
        lemma_overridden_elsewhere(base, overrides, "SHELL"@);
        lemma_unset_elsewhere(policy, workspace, term, temp_dir, overrides, "SHELL"@);
    }
}

/// Every other name has what the connection gives it, or else what the operator
/// gives it, or else nothing: a process sees no variable from anywhere else.
pub proof fn processes_see_nothing_else(
    policy: PolicyView,
    workspace: Seq<char>,
    term: Option<Seq<char>>,
    temp_dir: Option<Seq<char>>,
    overrides: Entries,
    name: Seq<char>,
)
    requires
        name != "HOME"@,
        name != "PWD"@,
        name != "SHELL"@,
        env::is_map(overrides),
    ensures
        value_in(environment_of(policy, workspace, term, temp_dir, overrides), name) == (if name
            == "TERM"@ && term is Some {
            term
        } else if name == "TMPDIR"@ && temp_dir is Some {
            temp_dir
        } else if names(overrides, name) {
            value_in(overrides, name)
        } else {
            value_in(policy.sandbox_env, name)
        }),
{
    let base = basics(policy, workspace);
    let first = overridden(base, overrides);
    term_and_tmpdir_are_authoritative(policy, workspace, term, temp_dir, overrides);
    omitted_values_are_untouched(policy, workspace, term, temp_dir, overrides);
    if name != "TERM"@ && name != "TMPDIR"@ {
        lemma_unset_elsewhere(policy, workspace, term, temp_dir, overrides, name);
    }
    if names(overrides, name) {
        let k = choose|k: int| 0 <= k < overrides.len() && (#[trigger] overrides[k]).0 == name;
        overrides_are_applied(base, overrides, k);
        assert forall|j: int| 0 <= j < k implies (#[trigger] overrides[j]).0 != overrides[k].0 by {
            assert(text::before(overrides[j].0, overrides[k].0));
            text::lemma_before(name, name, name);
        }
        lemma_value_of_first(overrides, k);
    } else {
        lemma_overridden_elsewhere(base, overrides, name);
        lemma_value_after(
            seq![("HOME"@, workspace), ("PWD"@, workspace), ("SHELL"@, policy.shell)],
            policy.sandbox_env,
            name,
        );
    }
}

proof fn lemma_value_after(head: Entries, tail: Entries, name: Seq<char>)
    requires
        !names(head, name),
    ensures
        value_in(head + tail, name) == value_in(tail, name),
    decreases tail.len(),
{
    if tail.len() == 0 {
        assert(head + tail =~= head);
        lemma_value_of_unnamed(head, name);
    } else {
        assert((head + tail).drop_last() =~= head + tail.drop_last());
        lemma_value_after(head, tail.drop_last(), name);
    }
}

} // verus!
