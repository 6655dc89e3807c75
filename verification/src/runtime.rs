use vstd::prelude::*;

use crate::sorted_map::{
    insert_sorted, keys_of, keys_sorted, lemma_keys_contains_lookup, lemma_lookup_insert_sorted,
    lookup, SortedMap,
};
use crate::text::str_lt;
use crate::text::{str_eq, str_views};

verus! {

/// The commands of a multi-call binary, by name.
///
/// `C` is the type of a command's entry point; a combined binary uses
/// `fn() -> i32`, which returns the command's exit code.
pub struct Registry<C> {
    commands: SortedMap<C>,
}

impl<C> Registry<C> {
    /// The registered commands, sorted by name, each name once.
    pub closed spec fn entries(&self) -> Seq<(Seq<char>, C)> {
        self.commands.pairs()
    }

    /// The registered names are sorted and distinct.
    pub proof fn lemma_entries_sorted(r: &Self)
        ensures
            keys_sorted(r.entries()),
    {
        SortedMap::lemma_sorted(&r.commands);
    }

    /// Creates an empty registry.
    pub fn new() -> (r: Self)
        ensures
            r.entries() == Seq::<(Seq<char>, C)>::empty(),
    {
        Registry { commands: SortedMap::new() }
    }

    /// Registers `func` under `name`; a command already registered under that
    /// name is replaced.
    pub fn register(&mut self, name: &str, func: C)
        ensures
            final(self).entries() == insert_sorted(old(self).entries(), name@, func),
    {
        self.commands.insert(name.to_owned(), func);
    }

    /// The command registered under `name`, if any.
    pub fn get(&self, name: &str) -> (r: Option<&C>)
        ensures
            r is Some <==> lookup(self.entries(), name@) is Some,
            r matches Some(f) ==> lookup(self.entries(), name@) == Some(*f),
    {
        self.commands.get(name)
    }

    /// All registered names, in sorted order.
    pub fn list(&self) -> (names: Vec<&str>)
        ensures
            str_views(names@) == keys_of(self.entries()),
    {
        let mut names: Vec<&str> = Vec::new();
        let n = self.commands.len();
        for i in 0..n
            invariant
                n == self.entries().len(),
                str_views(names@) == keys_of(self.entries()).take(i as int),
        {
            let k = self.commands.key_at(i);
            let ks = k.as_str();
            let ghost prev = names@;
            assert(keys_of(self.entries()).take(i as int).len() == i);
            assert(str_views(prev).len() == prev.len());
            assert(prev.len() == i);
            names.push(ks);
            assert(names@.len() == i + 1);
            assert(ks@ == self.entries()[i as int].0);
            assert(str_views(names@)[i as int] == ks@);
            assert(keys_of(self.entries()).take(i + 1)[i as int] == self.entries()[i as int].0);
            assert(str_views(names@).len() == i + 1);
            assert forall|j: int| 0 <= j < i implies str_views(names@)[j] == keys_of(self.entries()).take(i + 1)[j] by {
                assert(str_views(prev)[j] == keys_of(self.entries()).take(i as int)[j]);
            }
            assert(str_views(names@) =~= keys_of(self.entries()).take(i + 1));
        }
        assert(keys_of(self.entries()).take(n as int) =~= keys_of(self.entries()));
        names
    }

    /// Runs the command registered under `name` and gives its exit code, or
    /// `None` when no command has that name.
    pub fn try_run(&self, name: &str) -> (r: Option<i32>) where C: Fn() -> i32
        requires
            lookup(self.entries(), name@) matches Some(f) ==> call_requires(f, ()),
        ensures
            r is Some <==> lookup(self.entries(), name@) is Some,
            r matches Some(code) ==> call_ensures(lookup(self.entries(), name@)->0, (), code),
    {
        match self.commands.get(name) {
            Some(cmd) => Some(cmd()),
            None => None,
        }
    }
}

impl<C> Default for Registry<C> {
    fn default() -> (r: Self)
        ensures
            r.entries() == Seq::<(Seq<char>, C)>::empty(),
    {
        Self::new()
    }
}

/// Registering a command makes it the one found under its name, and leaves the
/// command found under every other name as it was.
pub proof fn law_register_then_get<C>(before: Registry<C>, name: Seq<char>, func: C, other: Seq<char>)
    ensures
        lookup(insert_sorted(before.entries(), name, func), name) == Some(func),
        other != name ==> lookup(insert_sorted(before.entries(), name, func), other) == lookup(
            before.entries(),
            other,
        ),
{
    lemma_lookup_insert_sorted(before.entries(), name, func, name);
    lemma_lookup_insert_sorted(before.entries(), name, func, other);
}

/// The listed names are strictly sorted (so each occurs once), and a name is
/// listed exactly when a command is registered under it.
pub proof fn law_list_sorted_and_complete<C>(r: Registry<C>, name: Seq<char>)
    ensures
        forall|i: int, j: int|
            0 <= i < j < keys_of(r.entries()).len() ==> str_lt(
                #[trigger] keys_of(r.entries())[i],
                #[trigger] keys_of(r.entries())[j],
            ),
        keys_of(r.entries()).contains(name) <==> lookup(r.entries(), name) is Some,
{
    Registry::lemma_entries_sorted(&r);
    assert forall|i: int, j: int| 0 <= i < j < keys_of(r.entries()).len() implies str_lt(
        #[trigger] keys_of(r.entries())[i],
        #[trigger] keys_of(r.entries())[j],
    ) by {
        assert(str_lt(r.entries()[i].0, r.entries()[j].0));
    }
    lemma_keys_contains_lookup(r.entries(), name);
}

/// What a multi-call binary does with its command line.
pub enum DispatchPlan {
    /// Run the command `name`; it sees the process arguments from index `skip` on.
    Run { name: String, skip: usize },
    /// Print the help text and exit with `exit_code`.
    Help { exit_code: i32 },
    /// Print the registered names, one per line, and exit with 0.
    List,
    /// Report that `name` is no command, print the help text and exit with 1.
    Unknown { name: String },
}

/// A [`DispatchPlan`] with its strings taken by their characters.
pub ghost enum DispatchPlanView {
    Run { name: Seq<char>, skip: nat },
    Help { exit_code: int },
    List,
    Unknown { name: Seq<char> },
}

impl View for DispatchPlan {
    type V = DispatchPlanView;

    open spec fn view(&self) -> DispatchPlanView {
        match self {
            DispatchPlan::Run { name, skip } => DispatchPlanView::Run { name: name@, skip: *skip as nat },
            DispatchPlan::Help { exit_code } => DispatchPlanView::Help { exit_code: *exit_code as int },
            DispatchPlan::List => DispatchPlanView::List,
            DispatchPlan::Unknown { name } => DispatchPlanView::Unknown { name: name@ },
        }
    }
}

/// How a binary started as `binary_name` with arguments `args` (`args[0]` being
/// the program path) chooses what to do: a registered binary name runs that
/// command with all arguments (symlink mode); otherwise the first argument is a
/// help flag, a list flag or a command name (subcommand mode); with no argument
/// the help text is shown and the exit code is 1.
pub open spec fn dispatch_plan<C>(
    entries: Seq<(Seq<char>, C)>,
    binary_name: Seq<char>,
    args: Seq<Seq<char>>,
) -> DispatchPlanView {
    if lookup(entries, binary_name) is Some {
        DispatchPlanView::Run { name: binary_name, skip: 0 }
    } else if args.len() > 1 {
        let cmd = args[1];
        if cmd == "--help"@ || cmd == "-h"@ {
            DispatchPlanView::Help { exit_code: 0 }
        } else if cmd == "--list"@ || cmd == "-l"@ {
            DispatchPlanView::List
        } else if lookup(entries, cmd) is Some {
            DispatchPlanView::Run { name: cmd, skip: 1 }
        } else {
            DispatchPlanView::Unknown { name: cmd }
        }
    } else {
        DispatchPlanView::Help { exit_code: 1 }
    }
}

/// Symlink mode comes first: a binary started under the name of a registered
/// command runs that command and hands it every argument, whatever the
/// arguments are (even `--help` or `--list`).
pub proof fn law_dispatch_symlink_first<C>(entries: Seq<(Seq<char>, C)>, binary_name: Seq<char>, args: Seq<Seq<char>>)
    requires
        lookup(entries, binary_name) is Some,
    ensures
        dispatch_plan(entries, binary_name, args) == (DispatchPlanView::Run { name: binary_name, skip: 0 }),
{
}

/// Subcommand mode, for a binary whose own name is no command: the first
/// argument `--help` or `-h` shows the help with exit code 0, `--list` or `-l`
/// lists the commands, a registered name runs that command without the
/// binary's own path, and any other word is an unknown command; with no
/// argument the help is shown with exit code 1.
pub proof fn law_dispatch_subcommand<C>(entries: Seq<(Seq<char>, C)>, binary_name: Seq<char>, args: Seq<Seq<char>>)
    requires
        lookup(entries, binary_name) is None,
    ensures
        args.len() <= 1 ==> dispatch_plan(entries, binary_name, args) == (DispatchPlanView::Help { exit_code: 1 }),
        args.len() > 1 && (args[1] == "--help"@ || args[1] == "-h"@) ==> dispatch_plan(entries, binary_name, args)
            == (DispatchPlanView::Help { exit_code: 0 }),
        args.len() > 1 && (args[1] == "--list"@ || args[1] == "-l"@) ==> dispatch_plan(entries, binary_name, args)
            == DispatchPlanView::List,
        args.len() > 1 && args[1] != "--help"@ && args[1] != "-h"@ && args[1] != "--list"@ && args[1] != "-l"@
            ==> dispatch_plan(entries, binary_name, args) == (if lookup(entries, args[1]) is Some {
            DispatchPlanView::Run { name: args[1], skip: 1 }
        } else {
            DispatchPlanView::Unknown { name: args[1] }
        }),
{
    reveal_strlit("--help");
    reveal_strlit("-h");
    reveal_strlit("--list");
    reveal_strlit("-l");
    assert("--list"@[2] != "--help"@[2]);
    assert("-l"@[1] != "-h"@[1]);
    assert("--list"@ != "-h"@);
    assert("-l"@ != "--help"@);
}

/// Decides what the binary does; see [`dispatch_plan`].
pub fn plan_dispatch<C>(registry: &Registry<C>, binary_name: &str, args: &Vec<String>) -> (p: DispatchPlan)
    ensures
        p@ == dispatch_plan(registry.entries(), binary_name@, args@.map_values(|a: String| a@)),
{
    if registry.get(binary_name).is_some() {
        return DispatchPlan::Run { name: binary_name.to_owned(), skip: 0 };
    }
    if args.len() > 1 {
        let cmd = args[1].as_str();
        if str_eq(cmd, "--help") || str_eq(cmd, "-h") {
            return DispatchPlan::Help { exit_code: 0 };
        }
        if str_eq(cmd, "--list") || str_eq(cmd, "-l") {
            return DispatchPlan::List;
        }
        if registry.get(cmd).is_some() {
            return DispatchPlan::Run { name: cmd.to_owned(), skip: 1 };
        }
        return DispatchPlan::Unknown { name: cmd.to_owned() };
    }
    DispatchPlan::Help { exit_code: 1 }
}

/// The help text of a multi-call binary, line by line: usage, options, and the
/// registered commands in sorted order.
pub open spec fn help_text(binary_name: Seq<char>, names: Seq<Seq<char>>) -> Seq<Seq<char>> {
    seq![
        "Usage: "@ + binary_name + " <command> [args...]"@,
        "       <command> [args...]  (via symlink)"@,
        Seq::empty(),
        "Options:"@,
        "  -h, --help    Show this help message"@,
        "  -l, --list    List available commands"@,
        Seq::empty(),
        "Available commands:"@,
    ] + Seq::new(names.len(), |i: int| "  "@ + names[i])
}

/// The help text starts with the usage line for the binary's own name and
/// ends with one line `  name` per registered command, in the order given;
/// nothing else follows the line `Available commands:`.
pub proof fn law_help_lists_commands(binary_name: Seq<char>, names: Seq<Seq<char>>, i: int)
    ensures
        help_text(binary_name, names)[0] == "Usage: "@ + binary_name + " <command> [args...]"@,
        help_text(binary_name, names).len() == 8 + names.len(),
        help_text(binary_name, names)[7] == "Available commands:"@,
        0 <= i < names.len() ==> help_text(binary_name, names)[8 + i] == "  "@ + names[i],
{
}

/// The help text, line by line; see [`help_text`].
pub fn help_lines<C>(binary_name: &str, registry: &Registry<C>) -> (r: Vec<String>)
    ensures
        crate::text::string_views(r@) == help_text(binary_name@, keys_of(registry.entries())),
{
    let mut r: Vec<String> = Vec::new();
    let mut usage = "Usage: ".to_owned();
    usage.append(binary_name);
    usage.append(" <command> [args...]");
    r.push(usage);
    r.push("       <command> [args...]  (via symlink)".to_owned());
    r.push(String::new());
    r.push("Options:".to_owned());
    r.push("  -h, --help    Show this help message".to_owned());
    r.push("  -l, --list    List available commands".to_owned());
    r.push(String::new());
    r.push("Available commands:".to_owned());
    let ghost head = crate::text::string_views(r@);
    let names = registry.list();
    let ghost ns = keys_of(registry.entries());
    let ghost tail = Seq::new(ns.len(), |i: int| "  "@ + ns[i]);
    for i in 0..names.len()
        invariant
            str_views(names@) == ns,
            tail == Seq::new(ns.len(), |i: int| "  "@ + ns[i]),
            crate::text::string_views(r@) == head + tail.take(i as int),
    {
        let mut line = "  ".to_owned();
        line.append(names[i]);
        let ghost before = r@;
        r.push(line);
        assert(str_views(names@)[i as int] == names@[i as int]@);
        assert(crate::text::string_views(r@) =~= crate::text::string_views(before).push(line@));
        assert(tail.take(i + 1) =~= tail.take(i as int).push(line@));
    }
    assert(tail.take(names.len() as int) =~= tail);
    r
}

} // verus!
