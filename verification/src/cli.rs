//! The command line of the daemon.
use vstd::prelude::*;

use crate::system;
use crate::text;

verus! {

/// What the command line asks for.
pub struct Arguments {
    /// Whether apps are really killed; `None` where no mode was given.
    pub act_mode: Option<bool>,
    /// Whether JSON goes to the standard output.
    pub json_stdout: bool,
    /// Whether the log is never written.
    pub no_log: bool,
    /// Whether only the help is printed.
    pub help: bool,
    /// The arguments that mean nothing.
    pub unknown: Vec<String>,
}

/// What an [`Arguments`] says.
#[verifier::ext_equal]
pub struct ArgumentsModel {
    pub act_mode: Option<bool>,
    pub json_stdout: bool,
    pub no_log: bool,
    pub help: bool,
    pub unknown: Seq<Seq<char>>,
}

impl View for Arguments {
    type V = ArgumentsModel;

    open spec fn view(&self) -> ArgumentsModel {
        ArgumentsModel {
            act_mode: self.act_mode,
            json_stdout: self.json_stdout,
            no_log: self.no_log,
            help: self.help,
            unknown: system::texts(self.unknown@),
        }
    }
}

impl ArgumentsModel {
    /// What an empty command line asks for.
    pub open spec fn nothing() -> ArgumentsModel {
        ArgumentsModel {
            act_mode: None,
            json_stdout: false,
            no_log: false,
            help: false,
            unknown: Seq::empty(),
        }
    }

    /// What is asked for after one more argument. Where help is asked for, nothing else counts any more.
    pub open spec fn with(self, arg: Seq<char>) -> ArgumentsModel {
        if self.help {
            self
        } else if arg == "--act"@ {
            ArgumentsModel { act_mode: Some(true), ..self }
        } else if arg == "--observe"@ {
            ArgumentsModel { act_mode: Some(false), ..self }
        } else if arg == "--json"@ {
            ArgumentsModel { json_stdout: true, ..self }
        } else if arg == "--no-log"@ {
            ArgumentsModel { no_log: true, ..self }
        } else if arg == "-h"@ || arg == "--help"@ {
            ArgumentsModel { help: true, ..self }
        } else {
            ArgumentsModel { unknown: self.unknown.push(arg), ..self }
        }
    }

    /// What the arguments ask for, one after the other.
    pub open spec fn with_all(self, args: Seq<Seq<char>>) -> ArgumentsModel
        decreases args.len(),
    {
        if args.len() == 0 {
            self
        } else {
            self.with_all(args.drop_last()).with(args.last())
        }
    }
}

impl Arguments {
    fn add_argument(&mut self, arg: &str)
        ensures
            final(self)@ == old(self)@.with(arg@),
    {
        if !self.help {
            if text::same(arg, "--act") {
                self.act_mode = Some(true);
            } else if text::same(arg, "--observe") {
                self.act_mode = Some(false);
            } else if text::same(arg, "--json") {
                self.json_stdout = true;
            } else if text::same(arg, "--no-log") {
                self.no_log = true;
            } else if text::same(arg, "-h") || text::same(arg, "--help") {
                self.help = true;
            } else {
                self.unknown.push(arg.to_owned());
            }
        }
        assert(self@ =~= old(self)@.with(arg@));
    }

    /// Reads the arguments that follow the name of the program. The last mode that is given counts.
    pub fn parse(args: &Vec<String>) -> (r: Arguments)
        ensures
            r@ == ArgumentsModel::nothing().with_all(system::texts(args@)),
    {
        let mut r = Arguments {
            act_mode: None,
            json_stdout: false,
            no_log: false,
            help: false,
            unknown: Vec::new(),
        };
        let ghost all = system::texts(args@);
        assert(r@ =~= ArgumentsModel::nothing());
        assert(all.take(0) =~= Seq::<Seq<char>>::empty());
        let mut i: usize = 0;
        while i < args.len()
            invariant
                i <= args@.len(),
                all == system::texts(args@),
                r@ == ArgumentsModel::nothing().with_all(all.take(i as int)),
            decreases args@.len() - i,
        {
            assert(all.take(i + 1).drop_last() =~= all.take(i as int));
            assert(all.take(i + 1).last() == args@[i as int]@);
            r.add_argument(args[i].as_str());
            i = i + 1;
        }
        assert(all.take(all.len() as int) =~= all);
        r
    }
}

proof fn lemma_flags_differ()
    ensures
        "--act"@.len() == 5 && "--observe"@.len() == 9 && "--json"@.len() == 6,
        "--no-log"@.len() == 8 && "-h"@.len() == 2 && "--help"@.len() == 6,
        "--json"@[2] == 'j' && "--help"@[2] == 'h',
{
    reveal_strlit("--act");
    reveal_strlit("--observe");
    reveal_strlit("--json");
    reveal_strlit("--no-log");
    reveal_strlit("-h");
    reveal_strlit("--help");
}

/// What a command line asks for: help where it says so anywhere. Without that, JSON and no log where it says so
/// anywhere, no mode where it gives none, and the arguments that mean nothing are those that are none of these.
pub proof fn law_what_a_command_line_asks_for(args: Seq<Seq<char>>)
    ensures
        ({
            let r = ArgumentsModel::nothing().with_all(args);
            let help = args.contains("-h"@) || args.contains("--help"@);
            &&& r.help == help
            &&& !help ==> r.json_stdout == args.contains("--json"@)
            &&& !help ==> r.no_log == args.contains("--no-log"@)
            &&& !help ==> (r.act_mode is None <==> !args.contains("--act"@) && !args.contains(
                "--observe"@,
            ))
            &&& !help ==> r.unknown == args.filter(
                |a: Seq<char>|
                    a != "--act"@ && a != "--observe"@ && a != "--json"@ && a != "--no-log"@,
            )
        }),
    decreases args.len(),
{
    lemma_flags_differ();
    reveal(Seq::filter);
    let known = |a: Seq<char>|
        a != "--act"@ && a != "--observe"@ && a != "--json"@ && a != "--no-log"@;
    if args.len() == 0 {
        assert(args.filter(known) =~= Seq::<Seq<char>>::empty());
    } else {
        let head = args.drop_last();
        law_what_a_command_line_asks_for(head);
        lemma_contains_last(args, "-h"@);
        lemma_contains_last(args, "--help"@);
        lemma_contains_last(args, "--json"@);
        lemma_contains_last(args, "--no-log"@);
        lemma_contains_last(args, "--act"@);
        lemma_contains_last(args, "--observe"@);
    }
}

proof fn lemma_contains_last(args: Seq<Seq<char>>, a: Seq<char>)
    requires
        args.len() > 0,
    ensures
        args.contains(a) <==> args.drop_last().contains(a) || args.last() == a,
{
    let head = args.drop_last();
    if head.contains(a) {
        let i = choose|i: int| 0 <= i < head.len() && head[i] == a;
        assert(args[i] == a);
    }
    if args.last() == a {
        assert(args[args.len() - 1] == a);
    }
    if args.contains(a) {
        let i = choose|i: int| 0 <= i < args.len() && args[i] == a;
        if i < head.len() {
            assert(head[i] == a);
        }
    }
}

/// The last mode on a command line counts, whatever stands around it, where no help is asked for.
pub proof fn law_the_last_mode_counts(before: Seq<Seq<char>>, act: bool, behind: Seq<Seq<char>>)
    requires
        ({
            let mode = if act {
                "--act"@
            } else {
                "--observe"@
            };
            let args = before.push(mode) + behind;
            !args.contains("-h"@) && !args.contains("--help"@)
        }),
        !behind.contains("--act"@) && !behind.contains("--observe"@),
    ensures
        ({
            let mode = if act {
                "--act"@
            } else {
                "--observe"@
            };
            ArgumentsModel::nothing().with_all(before.push(mode) + behind).act_mode == Some(act)
        }),
    decreases behind.len(),
{
    let mode = if act {
        "--act"@
    } else {
        "--observe"@
    };
    let args = before.push(mode) + behind;
    lemma_flags_differ();
    lemma_contains_last(args, "-h"@);
    lemma_contains_last(args, "--help"@);
    law_what_a_command_line_asks_for(args.drop_last());
    if behind.len() == 0 {
        assert(args =~= before.push(mode));
        assert(args.drop_last() =~= before);
    } else {
        let fewer = behind.drop_last();
        assert(args.drop_last() =~= before.push(mode) + fewer);
        lemma_contains_last(behind, "--act"@);
        lemma_contains_last(behind, "--observe"@);
        law_the_last_mode_counts(before, act, fewer);
        assert(args.last() == behind.last());
    }
}

/// What stands behind a wish for help is not looked at, and what stands before it counts.
pub proof fn law_nothing_counts_behind_help(
    before: Seq<Seq<char>>,
    help: Seq<char>,
    behind: Seq<Seq<char>>,
)
    requires
        help == "-h"@ || help == "--help"@,
    ensures
        ArgumentsModel::nothing().with_all(before.push(help) + behind) == (ArgumentsModel {
            help: true,
            ..ArgumentsModel::nothing().with_all(before)
        }),
    decreases behind.len(),
{
    let args = before.push(help) + behind;
    lemma_flags_differ();
    if behind.len() == 0 {
        assert(args =~= before.push(help));
        assert(args.drop_last() =~= before);
    } else {
        assert(args.drop_last() =~= before.push(help) + behind.drop_last());
        law_nothing_counts_behind_help(before, help, behind.drop_last());
    }
}

} // verus!
