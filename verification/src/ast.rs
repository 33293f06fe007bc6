//! What a command line parses to.

use crate::lexer::RedirectOp;
use vstd::prelude::*;

verus! {

/// One redirection of a command: the operator and the file it names.
#[derive(Debug, Clone)]
pub struct Redirection {
    pub operator: RedirectOp,
    pub filename: String,
}

/// One simple command: a program, its arguments, its redirections, and whether
/// it was sent to the background with `&`.
#[derive(Debug, Clone)]
pub struct Command {
    pub program: String,
    pub arguments: Vec<String>,
    pub redirections: Vec<Redirection>,
    pub background: bool,
}

/// A parsed statement: one command, or two or more joined by `|`.
#[derive(Debug)]
pub enum Node {
    Command(Command),
    Pipeline(Vec<Command>),
}

pub struct RedirectionView {
    pub operator: RedirectOp,
    pub filename: Seq<char>,
}

pub struct CommandView {
    pub program: Seq<char>,
    pub arguments: Seq<Seq<char>>,
    pub redirections: Seq<RedirectionView>,
    pub background: bool,
}

pub enum NodeView {
    Command(CommandView),
    Pipeline(Seq<CommandView>),
}

/// The texts of a sequence of strings.
pub open spec fn texts(v: Seq<String>) -> Seq<Seq<char>> {
    v.map_values(|s: String| s@)
}

pub open spec fn redirection_views(v: Seq<Redirection>) -> Seq<RedirectionView> {
    v.map_values(|r: Redirection| r@)
}

pub open spec fn command_views(v: Seq<Command>) -> Seq<CommandView> {
    v.map_values(|c: Command| c@)
}

impl View for Redirection {
    type V = RedirectionView;

    open spec fn view(&self) -> RedirectionView {
        RedirectionView { operator: self.operator, filename: self.filename@ }
    }
}

impl View for Command {
    type V = CommandView;

    open spec fn view(&self) -> CommandView {
        CommandView {
            program: self.program@,
            arguments: texts(self.arguments@),
            redirections: redirection_views(self.redirections@),
            background: self.background,
        }
    }
}

impl View for Node {
    type V = NodeView;

    open spec fn view(&self) -> NodeView {
        match *self {
            Node::Command(c) => NodeView::Command(c@),
            Node::Pipeline(v) => NodeView::Pipeline(command_views(v@)),
        }
    }
}

impl NodeView {
    /// A command has a name, and a pipeline has at least two commands, each
    /// with a name.
    pub open spec fn well_formed(self) -> bool {
        match self {
            NodeView::Command(c) => c.program.len() > 0,
            NodeView::Pipeline(v) => v.len() >= 2 && forall|i: int|
                0 <= i < v.len() ==> (#[trigger] v[i]).program.len() > 0,
        }
    }
}

impl Default for Command {
    /// The empty command: no program, no arguments, no redirections, in the
    /// foreground. It is a starting value, not something a parse returns.
    fn default() -> (command: Command)
        ensures
            command@ == (CommandView {
                program: Seq::empty(),
                arguments: Seq::empty(),
                redirections: Seq::empty(),
                background: false,
            }),
    {
        let command = Command {
            program: String::new(),
            arguments: Vec::new(),
            redirections: Vec::new(),
            background: false,
        };
        assert(command@.arguments =~= Seq::empty());
        assert(command@.redirections =~= Seq::empty());
        command
    }
}

} // verus!
