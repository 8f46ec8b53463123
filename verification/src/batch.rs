//! A run of the client takes several commands in one trailing argument list:
//! each argument that is the name of a command starts a new command, and the
//! arguments after it, up to the next command name, are its parameters.

use vstd::prelude::*;

verus! {

/// The grouping of `args` into commands, argument by argument from the left:
/// the first argument opens the first group; a later one opens a new group
/// when it is one of `names`, and joins the group before it otherwise.
pub open spec fn command_groups(args: Seq<Seq<char>>, names: Seq<Seq<char>>) -> Seq<Seq<Seq<char>>>
    decreases args.len(),
{
    if args.len() == 0 {
        Seq::empty()
    } else {
        let before = command_groups(args.drop_last(), names);
        let a = args.last();
        if before.len() == 0 || names.contains(a) {
            before.push(seq![a])
        } else {
            before.update(before.len() - 1, before.last().push(a))
        }
    }
}

/// Whether `arg` is one of the command names.
pub fn is_command_name(names: &Vec<String>, arg: &String) -> (r: bool)
    ensures
        r == names.deep_view().contains(arg@),
{
    let n = names.len();
    let mut j: usize = 0;
    while j < n
        invariant
            n == names.len(),
            j <= n,
            forall|k: int| 0 <= k < j ==> names.deep_view()[k] != arg@,
        decreases n - j,
    {
        if names[j] == *arg {
            assert(names.deep_view()[j as int] == arg@);
            return true;
        }
        j = j + 1;
    }
    proof {
        if names.deep_view().contains(arg@) {
            let k = choose|k: int| 0 <= k < names.deep_view().len() && names.deep_view()[k] == arg@;
            assert(names.deep_view()[k] != arg@);
        }
    }
    false
}

/// Splits the trailing arguments into the commands they hold, given the
/// names of all commands.
pub fn split_commands(args: &Vec<String>, names: &Vec<String>) -> (groups: Vec<Vec<String>>)
    ensures
        groups.deep_view() == command_groups(args.deep_view(), names.deep_view()),
{
    let ghost a = args.deep_view();
    let ghost nm = names.deep_view();
    let mut groups: Vec<Vec<String>> = Vec::new();
    let mut current: Vec<String> = Vec::new();
    let n = args.len();
    let mut i: usize = 0;
    while i < n
        invariant
            n == args.len(),
            a == args.deep_view(),
            nm == names.deep_view(),
            i <= n,
            i == 0 ==> groups.len() == 0 && current.len() == 0,
            i > 0 ==> current.len() > 0 && groups.deep_view().push(current.deep_view())
                == command_groups(a.take(i as int), nm),
        decreases n - i,
    {
        let arg = args[i].clone();
        let ghost prev_groups = groups.deep_view();
        let ghost prev_current = current.deep_view();
        assert(a.take(i + 1).drop_last() == a.take(i as int));
        assert(a.take(i + 1).last() == arg@);
        if i == 0 {
            current.push(arg);
            assert(current.deep_view() == seq![arg@]);
            assert(command_groups(a.take(0), nm) == Seq::<Seq<Seq<char>>>::empty());
            assert(groups.deep_view().push(current.deep_view()) == command_groups(a.take(1), nm));
        } else if is_command_name(names, &arg) {
            groups.push(current);
            current = Vec::new();
            current.push(arg);
            assert(groups.deep_view() == prev_groups.push(prev_current));
            assert(current.deep_view() == seq![arg@]);
        } else {
            current.push(arg);
            assert(current.deep_view() == prev_current.push(arg@));
            assert(groups.deep_view().push(current.deep_view())
                == prev_groups.push(prev_current).update(prev_groups.len() as int, prev_current.push(arg@)));
        }
        i = i + 1;
    }
    assert(a.take(n as int) == a);
    if n > 0 {
        let ghost prev_groups = groups.deep_view();
        groups.push(current);
        assert(groups.deep_view() == prev_groups.push(current.deep_view()));
    }
    groups
}


/// One command of a run, as it is reported back: the name it was given by
/// and the arguments that followed it.
pub struct Invocation {
    pub command: String,
    pub params: Vec<String>,
}

/// Describes a command group: its first argument is the command, the rest
/// are its parameters.
pub fn describe_invocation(group: &Vec<String>) -> (r: Invocation)
    requires
        group.len() > 0,
    ensures
        r.command@ == group@[0]@,
        r.params.deep_view() == group.deep_view().drop_first(),
{
    let command = group[0].clone();
    let mut params: Vec<String> = Vec::new();
    let n = group.len();
    let mut i: usize = 1;
    while i < n
        invariant
            n == group.len(),
            1 <= i <= n,
            params.deep_view() == group.deep_view().subrange(1, i as int),
        decreases n - i,
    {
        let p = group[i].clone();
        let ghost before = params.deep_view();
        params.push(p);
        assert(params.deep_view() == before.push(p@));
        assert(group.deep_view().subrange(1, i + 1) == group.deep_view().subrange(1, i as int).push(
            group.deep_view()[i as int],
        ));
        i = i + 1;
    }
    assert(group.deep_view().subrange(1, n as int) == group.deep_view().drop_first());
    Invocation { command, params }
}

/// What makes a sequence of groups a valid split of `args` into commands:
/// laid end to end the groups are `args`, none is empty, each after the first
/// starts with a command name, and no command name stands inside a group.
pub open spec fn is_command_split(
    groups: Seq<Seq<Seq<char>>>,
    args: Seq<Seq<char>>,
    names: Seq<Seq<char>>,
) -> bool {
    &&& groups.flatten() == args
    &&& forall|i: int| 0 <= i < groups.len() ==> (#[trigger] groups[i]).len() > 0
    &&& forall|i: int| 1 <= i < groups.len() ==> names.contains((#[trigger] groups[i])[0])
    &&& forall|i: int, j: int|
        0 <= i < groups.len() && 1 <= j < groups[i].len() ==> !names.contains(
            #[trigger] groups[i][j],
        )
}

/// The grouping of the command arguments loses, adds and reorders nothing:
/// the groups, laid end to end, are the arguments. Every group is
/// non-empty, every group after the first starts with a command name, and no
/// command name stands anywhere in a group but at its start. There are no
/// groups exactly when there are no arguments.
pub proof fn lemma_command_groups_partition(args: Seq<Seq<char>>, names: Seq<Seq<char>>)
    ensures
        is_command_split(command_groups(args, names), args, names),
        command_groups(args, names).len() == 0 <==> args.len() == 0,
    decreases args.len(),
{
    broadcast use Seq::lemma_flatten_push;

    if args.len() == 0 {
        assert(command_groups(args, names).flatten() =~= args);
    } else {
        let rest = args.drop_last();
        lemma_command_groups_partition(rest, names);
        let before = command_groups(rest, names);
        let a = args.last();
        let g = command_groups(args, names);
        assert(rest.push(a) == args);
        if before.len() == 0 || names.contains(a) {
            assert(g == before.push(seq![a]));
            assert(g.flatten() == before.flatten() + seq![a]);
            assert(g.flatten() =~= args);
            assert forall|i: int| 0 <= i < g.len() implies (#[trigger] g[i]).len() > 0 by {
                if i < before.len() {
                    assert(g[i] == before[i]);
                }
            }
            assert forall|i: int| 1 <= i < g.len() implies names.contains((#[trigger] g[i])[0]) by {
                if i < before.len() {
                    assert(g[i] == before[i]);
                }
            }
            assert forall|i: int, j: int|
                0 <= i < g.len() && 1 <= j < g[i].len() implies !names.contains(#[trigger] g[i][j]) by {
                assert(i < before.len());
                assert(g[i] == before[i]);
            }
        } else {
            let init = before.drop_last();
            assert(before == init.push(before.last()));
            assert(g == init.push(before.last().push(a)));
            assert(g.flatten() == init.flatten() + before.last().push(a));
            assert(before.flatten() == init.flatten() + before.last());
            assert(g.flatten() == before.flatten() + seq![a]);
            assert(g.flatten() =~= args);
            assert forall|i: int| 0 <= i < g.len() implies (#[trigger] g[i]).len() > 0 by {
                if i < g.len() - 1 {
                    assert(g[i] == before[i]);
                }
            }
            assert forall|i: int| 1 <= i < g.len() implies names.contains((#[trigger] g[i])[0]) by {
                if i < g.len() - 1 {
                    assert(g[i] == before[i]);
                } else {
                    assert(g[i][0] == before[i][0]);
                }
            }
            assert forall|i: int, j: int|
                0 <= i < g.len() && 1 <= j < g[i].len() implies !names.contains(#[trigger] g[i][j]) by {
                if i == g.len() - 1 && j == g[i].len() - 1 {
                    assert(g[i][j] == a);
                } else {
                    assert(g[i][j] == before[i][j]);
                }
            }
        }
    }
}


/// There is only one way to split the arguments into commands: any split
/// with the properties above is the one that `split_commands` computes.
pub proof fn lemma_command_split_unique(
    groups: Seq<Seq<Seq<char>>>,
    args: Seq<Seq<char>>,
    names: Seq<Seq<char>>,
)
    requires
        is_command_split(groups, args, names),
    ensures
        groups == command_groups(args, names),
    decreases args.len(),
{
    broadcast use Seq::lemma_flatten_push;

    if groups.len() == 0 {
        assert(args.len() == 0);
    } else {
        let init = groups.drop_last();
        let last = groups.last();
        assert(groups == init.push(last));
        assert(args == init.flatten() + last);
        assert(last.len() > 0);
        assert(args.len() > 0);
        let rest = args.drop_last();
        let a = args.last();
        assert(a == last.last());
        if last.len() == 1 {
            assert(last == seq![a]);
            assert(rest == init.flatten());
            assert(is_command_split(init, rest, names)) by {
                assert forall|i: int| 0 <= i < init.len() implies (#[trigger] init[i]).len() > 0 by {
                    assert(init[i] == groups[i]);
                }
                assert forall|i: int| 1 <= i < init.len() implies names.contains(
                    (#[trigger] init[i])[0],
                ) by {
                    assert(init[i] == groups[i]);
                }
                assert forall|i: int, j: int|
                    0 <= i < init.len() && 1 <= j < init[i].len() implies !names.contains(
                        #[trigger] init[i][j],
                    ) by {
                    assert(init[i] == groups[i]);
                }
            }
            lemma_command_split_unique(init, rest, names);
            if init.len() > 0 {
                assert(names.contains(groups[groups.len() - 1][0]));
            }
        } else {
            let shorter = init.push(last.drop_last());
            assert(last == last.drop_last().push(a));
            assert(args == init.flatten() + last.drop_last() + seq![a]);
            assert(rest == init.flatten() + last.drop_last());
            assert(shorter.flatten() == rest);
            assert(is_command_split(shorter, rest, names)) by {
                assert forall|i: int| 0 <= i < shorter.len() implies (#[trigger] shorter[i]).len()
                    > 0 by {
                    if i < init.len() {
                        assert(shorter[i] == groups[i]);
                    }
                }
                assert forall|i: int| 1 <= i < shorter.len() implies names.contains(
                    (#[trigger] shorter[i])[0],
                ) by {
                    if i < init.len() {
                        assert(shorter[i] == groups[i]);
                    } else {
                        assert(shorter[i][0] == groups[i][0]);
                    }
                }
                assert forall|i: int, j: int|
                    0 <= i < shorter.len() && 1 <= j < shorter[i].len() implies !names.contains(
                        #[trigger] shorter[i][j],
                    ) by {
                    if i < init.len() {
                        assert(shorter[i] == groups[i]);
                    } else {
                        assert(shorter[i][j] == groups[i][j]);
                    }
                }
            }
            lemma_command_split_unique(shorter, rest, names);
            assert(!names.contains(groups[groups.len() - 1][last.len() - 1]));
            assert(groups == shorter.update(shorter.len() - 1, shorter.last().push(a)));
        }
    }
}

} // verus!
