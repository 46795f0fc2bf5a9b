use crate::numerals::str_eq;
use vstd::prelude::*;
use vstd::string::StringExecFns;

verus! {

/// Whether a command token was recognized and handled.
#[derive(Clone, Copy, Debug, PartialEq, Eq)]
pub enum CmdResult {
    Success,
    NoMatch,
}

/// One command with its help text.
pub struct Cmd {
    pub command: &'static str,
    pub help: &'static str,
}

/// A named group of commands.
pub struct Category {
    pub category: &'static str,
    pub commands: Vec<Cmd>,
}

pub ghost struct CmdModel {
    pub command: Seq<char>,
    pub help: Seq<char>,
}

pub ghost struct CategoryModel {
    pub category: Seq<char>,
    pub commands: Seq<CmdModel>,
}

impl View for Cmd {
    type V = CmdModel;

    open spec fn view(&self) -> CmdModel {
        CmdModel { command: self.command@, help: self.help@ }
    }
}

impl View for Category {
    type V = CategoryModel;

    open spec fn view(&self) -> CategoryModel {
        CategoryModel {
            category: self.category@,
            commands: Seq::new(self.commands@.len(), |i: int| self.commands@[i]@),
        }
    }
}

/// Whether the help screen is being shown; toggled by the `help` command and
/// cleared by the front end once the user moves on.
pub struct HelpState {
    shown: bool,
}

impl HelpState {
    pub closed spec fn is_shown(&self) -> bool {
        self.shown
    }

    pub fn new() -> (h: HelpState)
        ensures
            !h.is_shown(),
    {
        HelpState { shown: false }
    }

    fn help(&mut self) -> (r: CmdResult)
        ensures
            final(self).is_shown(),
            r == CmdResult::Success,
    {
        self.shown = true;
        CmdResult::Success
    }

    /// Dispatch a token on this module's commands: `help` shows the help
    /// screen, anything else is not ours.
    pub fn commands(&mut self, cmd: &str) -> (r: CmdResult)
        ensures
            cmd@ == "help"@ ==> r == CmdResult::Success && final(self).is_shown(),
            cmd@ != "help"@ ==> r == CmdResult::NoMatch && *final(self) == *old(self),
    {
        if str_eq(cmd, "help") {
            self.help()
        } else {
            CmdResult::NoMatch
        }
    }

    pub fn clear_help(&mut self)
        ensures
            !final(self).is_shown(),
    {
        self.shown = false;
    }

    pub fn display_help(&self) -> (r: bool)
        ensures
            r == self.is_shown(),
    {
        self.shown
    }
}

pub open spec fn views_of(cats: Seq<Category>) -> Seq<CategoryModel> {
    Seq::new(cats.len(), |i: int| cats[i]@)
}

pub open spec fn arithmetic_category() -> CategoryModel {
    CategoryModel {
        category: "Arithmetic"@,
        commands: seq![
            CmdModel { command: "add"@, help: "Add the top two values"@ },
            CmdModel { command: "sub"@, help: "Subtract the top value from the one below"@ },
            CmdModel { command: "mul"@, help: "Multiply the top two values"@ },
            CmdModel { command: "div"@, help: "Divide the value below the top by the top"@ },
        ],
    }
}

pub open spec fn bitwise_category() -> CategoryModel {
    CategoryModel {
        category: "Bitwise"@,
        commands: seq![
            CmdModel { command: "and"@, help: "Bitwise and of the top two integers"@ },
            CmdModel { command: "or"@, help: "Bitwise or of the top two integers"@ },
            CmdModel { command: "xor"@, help: "Bitwise exclusive or of the top two integers"@ },
            CmdModel { command: "not"@, help: "Bitwise complement of the top integer"@ },
        ],
    }
}

pub open spec fn modes_category() -> CategoryModel {
    CategoryModel {
        category: "Modes"@,
        commands: seq![
            CmdModel { command: "signed"@, help: "Show binary annotations as signed"@ },
            CmdModel { command: "unsigned"@, help: "Show binary annotations as unsigned"@ },
            CmdModel { command: "width8"@, help: "Use 8-bit binary annotations"@ },
            CmdModel { command: "width16"@, help: "Use 16-bit binary annotations"@ },
            CmdModel { command: "width32"@, help: "Use 32-bit binary annotations"@ },
            CmdModel { command: "width64"@, help: "Use 64-bit binary annotations"@ },
        ],
    }
}

pub open spec fn stack_category() -> CategoryModel {
    CategoryModel {
        category: "Stack"@,
        commands: seq![
            CmdModel { command: "drop"@, help: "Remove the top value"@ },
            CmdModel { command: "dup"@, help: "Push a copy of the top value"@ },
            CmdModel { command: "swap"@, help: "Exchange the top two values"@ },
            CmdModel { command: "undo"@, help: "Restore the stack to its previous state"@ },
        ],
    }
}

pub open spec fn all_categories_spec() -> Seq<CategoryModel> {
    seq![arithmetic_category(), bitwise_category(), modes_category(), stack_category()]
}

/// The help lines of one category: its header, one indented line per
/// command, and a blank separator.
pub open spec fn category_lines(c: CategoryModel) -> Seq<Seq<char>> {
    seq!["Category: "@ + c.category] + Seq::new(
        c.commands.len(),
        |i: int| "  "@ + c.commands[i].command + ": "@ + c.commands[i].help,
    ) + seq![Seq::<char>::empty()]
}

pub open spec fn help_lines(cats: Seq<CategoryModel>) -> Seq<Seq<char>>
    decreases cats.len(),
{
    if cats.len() == 0 {
        Seq::empty()
    } else {
        help_lines(cats.drop_last()) + category_lines(cats.last())
    }
}

fn cmd(command: &'static str, help: &'static str) -> (r: Cmd)
    ensures
        r@ == (CmdModel { command: command@, help: help@ }),
{
    Cmd { command, help }
}

/// The command registry, grouped by category.
pub fn help_categories() -> (r: Vec<Category>)
    ensures
        views_of(r@) == all_categories_spec(),
{
    let mut arith: Vec<Cmd> = Vec::new();
    arith.push(cmd("add", "Add the top two values"));
    arith.push(cmd("sub", "Subtract the top value from the one below"));
    arith.push(cmd("mul", "Multiply the top two values"));
    arith.push(cmd("div", "Divide the value below the top by the top"));
    let mut bitwise: Vec<Cmd> = Vec::new();
    bitwise.push(cmd("and", "Bitwise and of the top two integers"));
    bitwise.push(cmd("or", "Bitwise or of the top two integers"));
    bitwise.push(cmd("xor", "Bitwise exclusive or of the top two integers"));
    bitwise.push(cmd("not", "Bitwise complement of the top integer"));
    let mut modes: Vec<Cmd> = Vec::new();
    modes.push(cmd("signed", "Show binary annotations as signed"));
    modes.push(cmd("unsigned", "Show binary annotations as unsigned"));
    modes.push(cmd("width8", "Use 8-bit binary annotations"));
    modes.push(cmd("width16", "Use 16-bit binary annotations"));
    modes.push(cmd("width32", "Use 32-bit binary annotations"));
    modes.push(cmd("width64", "Use 64-bit binary annotations"));
    let mut stack: Vec<Cmd> = Vec::new();
    stack.push(cmd("drop", "Remove the top value"));
    stack.push(cmd("dup", "Push a copy of the top value"));
    stack.push(cmd("swap", "Exchange the top two values"));
    stack.push(cmd("undo", "Restore the stack to its previous state"));
    let mut r: Vec<Category> = Vec::new();
    r.push(Category { category: "Arithmetic", commands: arith });
    r.push(Category { category: "Bitwise", commands: bitwise });
    r.push(Category { category: "Modes", commands: modes });
    r.push(Category { category: "Stack", commands: stack });
    proof {
        assert(r@[0]@.commands =~= arithmetic_category().commands);
        assert(r@[1]@.commands =~= bitwise_category().commands);
        assert(r@[2]@.commands =~= modes_category().commands);
        assert(r@[3]@.commands =~= stack_category().commands);
        assert(views_of(r@) =~= all_categories_spec());
    }
    r
}

/// The help screen: every category's lines in order.
pub fn get_help() -> (r: Vec<String>)
    ensures
        r.deep_view() == help_lines(all_categories_spec()),
{
    let cats = help_categories();
    let mut lines: Vec<String> = Vec::new();
    let mut i: usize = 0;
    proof {
        assert(views_of(cats@).take(0) =~= Seq::<CategoryModel>::empty());
        assert(lines.deep_view() =~~= help_lines(views_of(cats@).take(0)));
    }
    while i < cats.len()
        invariant
            i <= cats.len(),
            views_of(cats@) == all_categories_spec(),
            lines.deep_view() == help_lines(views_of(cats@).take(i as int)),
        decreases cats.len() - i,
    {
        let cat = &cats[i];
        let header = String::from_str("Category: ").concat(cat.category);
        lines.push(header);
        let ghost mid = help_lines(views_of(cats@).take(i as int)) + seq![
            "Category: "@ + cat@.category,
        ];
        proof {
            assert(lines.deep_view() =~~= mid);
        }
        let mut j: usize = 0;
        while j < cat.commands.len()
            invariant
                j <= cat.commands.len(),
                cat@ == views_of(cats@)[i as int],
                i < cats.len(),
                views_of(cats@) == all_categories_spec(),
                mid == help_lines(views_of(cats@).take(i as int)) + seq![
                    "Category: "@ + cat@.category,
                ],
                lines.deep_view() == mid + Seq::new(
                    j as nat,
                    |k: int| "  "@ + cat@.commands[k].command + ": "@ + cat@.commands[k].help,
                ),
            decreases cat.commands.len() - j,
        {
            let c = &cat.commands[j];
            let line = String::from_str("  ").concat(c.command).concat(": ").concat(c.help);
            let ghost before = lines.deep_view();
            lines.push(line);
            j = j + 1;
            proof {
                assert(cat@.commands[j - 1] == cat.commands@[j - 1]@);
                assert(line@ == "  "@ + cat@.commands[j - 1].command + ": "@ + cat@.commands[j
                    - 1].help);
                assert(lines.deep_view() =~~= before.push(line@));
                assert(before.push(line@) =~~= mid + Seq::new(
                    j as nat,
                    |k: int| "  "@ + cat@.commands[k].command + ": "@ + cat@.commands[k].help,
                ));
            }
        }
        let ghost before = lines.deep_view();
        lines.push(String::new());
        i = i + 1;
        proof {
            let cs = views_of(cats@);
            assert(cs.take(i as int).drop_last() =~= cs.take(i - 1));
            assert(cs.take(i as int).last() == cs[i - 1]);
            assert(help_lines(cs.take(i as int)) == help_lines(cs.take(i - 1)) + category_lines(
                cs[i - 1],
            ));
            assert(lines.deep_view() =~~= before.push(Seq::<char>::empty()));
            assert(category_lines(cat@) =~~= seq!["Category: "@ + cat@.category] + Seq::new(
                cat@.commands.len(),
                |k: int| "  "@ + cat@.commands[k].command + ": "@ + cat@.commands[k].help,
            ) + seq![Seq::<char>::empty()]);
            assert(before.push(Seq::<char>::empty()) =~~= help_lines(cs.take(i - 1))
                + category_lines(cat@));
            assert(lines.deep_view() =~~= help_lines(cs.take(i as int)));
        }
    }
    proof {
        assert(views_of(cats@).take(cats@.len() as int) =~= views_of(cats@));
    }
    lines
}

} // verus!
