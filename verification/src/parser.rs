//! The parser: tokens to one statement, a command or a pipeline.

use crate::ast::{
    command_views, redirection_views, texts, Command, CommandView, Node, NodeView, Redirection,
    RedirectionView,
};
use crate::lexer::{
    all_words, lemma_tokens_without_operators, no_operators, tokens, Lexer, RedirectOp, Token,
    TokenView,
};
use vstd::prelude::*;

verus! {

/// The message for a statement that does not start with a command name.
pub open spec fn missing_command_name() -> Seq<char> {
    "Expected command name"@
}

/// The message for a redirection operator that no filename follows.
pub open spec fn missing_filename() -> Seq<char> {
    "Expected filename after redirection operator"@
}

/// A command with the given name and nothing else.
pub open spec fn bare_command(program: Seq<char>) -> CommandView {
    CommandView {
        program,
        arguments: Seq::empty(),
        redirections: Seq::empty(),
        background: false,
    }
}

/// Reads the arguments and redirections of `command` from `ts`, up to the
/// token that ends the command. Gives the command, or the error, and the tokens
/// not read. A `&` ends the command, marks it as a background command and is
/// read; `|` and `;` end it and are left.
pub open spec fn parse_arguments(ts: Seq<TokenView>, command: CommandView) -> (
    Result<CommandView, Seq<char>>,
    Seq<TokenView>,
)
    decreases ts.len(),
{
    if ts.len() == 0 {
        (Ok(command), ts)
    } else {
        match ts[0] {
            TokenView::Word(w) => parse_arguments(
                ts.skip(1),
                CommandView { arguments: command.arguments.push(w), ..command },
            ),
            TokenView::Redirect(operator) => {
                if ts.len() > 1 && ts[1] is Word {
                    let redirection = RedirectionView { operator, filename: ts[1]->Word_0 };
                    parse_arguments(
                        ts.skip(2),
                        CommandView {
                            redirections: command.redirections.push(redirection),
                            ..command
                        },
                    )
                } else {
                    (Err(missing_filename()), ts.skip(1))
                }
            },
            TokenView::Background => (Ok(CommandView { background: true, ..command }), ts.skip(1)),
            _ => (Ok(command), ts),
        }
    }
}

/// Reads one simple command from `ts`: a word that is not empty, the name of
/// the program, and then its arguments and redirections.
pub open spec fn parse_simple(ts: Seq<TokenView>) -> (Result<CommandView, Seq<char>>, Seq<TokenView>) {
    if ts.len() > 0 && ts[0] is Word && ts[0]->Word_0.len() > 0 {
        parse_arguments(ts.skip(1), bare_command(ts[0]->Word_0))
    } else {
        (Err(missing_command_name()), ts)
    }
}

/// Reads the commands of one statement from `ts`, after those already in
/// `done`: simple commands joined by `|`. The statement ends after a command
/// that `&` closed, at a `;`, which is read, or where the tokens end.
pub open spec fn parse_commands(ts: Seq<TokenView>, done: Seq<CommandView>) -> (
    Result<Seq<CommandView>, Seq<char>>,
    Seq<TokenView>,
)
    decreases ts.len(),
    via parse_commands_decreases
{
    let (outcome, rest) = parse_simple(ts);
    match outcome {
        Err(message) => (Err(message), rest),
        Ok(command) => {
            let all = done.push(command);
            if command.background || rest.len() == 0 {
                (Ok(all), rest)
            } else if rest[0] is Pipe {
                parse_commands(rest.skip(1), all)
            } else if rest[0] is Semi {
                (Ok(all), rest.skip(1))
            } else {
                (Ok(all), rest)
            }
        },
    }
}

#[via_fn]
proof fn parse_commands_decreases(ts: Seq<TokenView>, done: Seq<CommandView>) {
    lemma_parse_simple_progress(ts);
}

/// The node for the commands of a statement: a lone command stands for itself.
pub open spec fn node_of(commands: Seq<CommandView>) -> NodeView {
    if commands.len() == 1 {
        NodeView::Command(commands[0])
    } else {
        NodeView::Pipeline(commands)
    }
}

/// Reads one statement from `ts`. Gives its node, or the error, and the tokens
/// not read.
pub open spec fn parse_statement(ts: Seq<TokenView>) -> (Result<NodeView, Seq<char>>, Seq<TokenView>) {
    let (outcome, rest) = parse_commands(ts, Seq::empty());
    match outcome {
        Ok(commands) => (Ok(node_of(commands)), rest),
        Err(message) => (Err(message), rest),
    }
}

/// Reading arguments never gives tokens back.
pub proof fn lemma_parse_arguments_progress(ts: Seq<TokenView>, command: CommandView)
    ensures
        parse_arguments(ts, command).1.len() <= ts.len(),
    decreases ts.len(),
{
    if ts.len() > 0 {
        match ts[0] {
            TokenView::Word(w) => {
                lemma_parse_arguments_progress(
                    ts.skip(1),
                    CommandView { arguments: command.arguments.push(w), ..command },
                );
            },
            TokenView::Redirect(operator) => {
                if ts.len() > 1 && ts[1] is Word {
                    let redirection = RedirectionView { operator, filename: ts[1]->Word_0 };
                    lemma_parse_arguments_progress(
                        ts.skip(2),
                        CommandView {
                            redirections: command.redirections.push(redirection),
                            ..command
                        },
                    );
                }
            },
            _ => {},
        }
    }
}

/// A simple command that was read used up at least its name.
pub proof fn lemma_parse_simple_progress(ts: Seq<TokenView>)
    ensures
        parse_simple(ts).1.len() <= ts.len(),
        parse_simple(ts).0 is Ok ==> parse_simple(ts).1.len() < ts.len(),
{
    if ts.len() > 0 && ts[0] is Word && ts[0]->Word_0.len() > 0 {
        lemma_parse_arguments_progress(ts.skip(1), bare_command(ts[0]->Word_0));
    }
}

/// The texts of a run of word tokens.
pub open spec fn word_texts(ts: Seq<TokenView>) -> Seq<Seq<char>> {
    ts.map_values(|t: TokenView| t->Word_0)
}

/// Words only: each becomes an argument, in order, and all are read.
pub proof fn lemma_parse_arguments_of_words(ts: Seq<TokenView>, command: CommandView)
    requires
        all_words(ts),
    ensures
        parse_arguments(ts, command) == (
            Ok::<CommandView, Seq<char>>(
                CommandView { arguments: command.arguments + word_texts(ts), ..command },
            ),
            Seq::<TokenView>::empty(),
        ),
    decreases ts.len(),
{
    if ts.len() == 0 {
        assert(command.arguments + word_texts(ts) =~= command.arguments);
        assert(ts =~= Seq::<TokenView>::empty());
    } else {
        let w = ts[0]->Word_0;
        let next = CommandView { arguments: command.arguments.push(w), ..command };
        assert(ts[0] is Word);
        assert(all_words(ts.skip(1))) by {
            assert forall|i: int| 0 <= i < ts.skip(1).len() implies #[trigger] ts.skip(1)[i] is Word by {
                assert(ts.skip(1)[i] == ts[i + 1]);
            }
        }
        lemma_parse_arguments_of_words(ts.skip(1), next);
        assert(next.arguments + word_texts(ts.skip(1)) =~= command.arguments + word_texts(ts));
    }
}

/// A statement made of words only is a single command: the first word is the
/// program, and the words after it are its arguments, in order.
pub proof fn law_words_are_one_command(ts: Seq<TokenView>)
    requires
        ts.len() > 0,
        all_words(ts),
        ts[0]->Word_0.len() > 0,
    ensures
        parse_statement(ts) == (
            Ok::<NodeView, Seq<char>>(
                NodeView::Command(
                    CommandView {
                        program: ts[0]->Word_0,
                        arguments: word_texts(ts.skip(1)),
                        redirections: Seq::empty(),
                        background: false,
                    },
                ),
            ),
            Seq::<TokenView>::empty(),
        ),
{
    let start = bare_command(ts[0]->Word_0);
    assert(ts[0] is Word);
    assert(all_words(ts.skip(1))) by {
        assert forall|i: int| 0 <= i < ts.skip(1).len() implies #[trigger] ts.skip(1)[i] is Word by {
            assert(ts.skip(1)[i] == ts[i + 1]);
        }
    }
    lemma_parse_arguments_of_words(ts.skip(1), start);
    assert(start.arguments + word_texts(ts.skip(1)) =~= word_texts(ts.skip(1)));
    let command = parse_simple(ts).0->Ok_0;
    assert(Seq::<CommandView>::empty().push(command).len() == 1);
}

/// A command line without any of `;`, `<`, `>`, `|`, `&`, which starts with a
/// word that is not empty, parses to a single command: the first word is the
/// program, and the words after it are its arguments, in order.
pub proof fn law_single_command(input: Seq<char>)
    requires
        no_operators(input),
        tokens(input).len() > 0,
        tokens(input)[0]->Word_0.len() > 0,
    ensures
        parse_statement(tokens(input)).0 == Ok::<NodeView, Seq<char>>(
            NodeView::Command(
                CommandView {
                    program: tokens(input)[0]->Word_0,
                    arguments: word_texts(tokens(input).skip(1)),
                    redirections: Seq::empty(),
                    background: false,
                },
            ),
        ),
{
    lemma_tokens_without_operators(input);
    law_words_are_one_command(tokens(input));
}

/// Tokens that are one whole simple command, not closed by `&`, are read as
/// the same command when a `|` or a `;` follows, and reading stops there.
pub proof fn lemma_parse_arguments_before_separator(
    a: Seq<TokenView>,
    x: Seq<TokenView>,
    start: CommandView,
    command: CommandView,
)
    requires
        parse_arguments(a, start) == (
            Ok::<CommandView, Seq<char>>(command),
            Seq::<TokenView>::empty(),
        ),
        !command.background,
        x.len() == 0 || x[0] is Pipe || x[0] is Semi,
    ensures
        parse_arguments(a + x, start) == (Ok::<CommandView, Seq<char>>(command), x),
    decreases a.len(),
{
    if a.len() == 0 {
        assert(a + x =~= x);
    } else {
        assert((a + x)[0] == a[0]);
        match a[0] {
            TokenView::Word(w) => {
                assert((a + x).skip(1) =~= a.skip(1) + x);
                lemma_parse_arguments_before_separator(
                    a.skip(1),
                    x,
                    CommandView { arguments: start.arguments.push(w), ..start },
                    command,
                );
            },
            TokenView::Redirect(operator) => {
                assert(a.len() > 1 && a[1] is Word);
                assert((a + x)[1] == a[1]);
                assert((a + x).skip(2) =~= a.skip(2) + x);
                let redirection = RedirectionView { operator, filename: a[1]->Word_0 };
                lemma_parse_arguments_before_separator(
                    a.skip(2),
                    x,
                    CommandView { redirections: start.redirections.push(redirection), ..start },
                    command,
                );
            },
            _ => {},
        }
    }
}

/// `A | B`: where `a` and `b` are each one whole simple command, and `a` is
/// not closed by `&`, the statement `a | b` is a pipeline of exactly the two,
/// in that order.
pub proof fn law_pipe_joins_two_commands(
    a: Seq<TokenView>,
    b: Seq<TokenView>,
    first: CommandView,
    second: CommandView,
)
    requires
        parse_simple(a) == (Ok::<CommandView, Seq<char>>(first), Seq::<TokenView>::empty()),
        parse_simple(b) == (Ok::<CommandView, Seq<char>>(second), Seq::<TokenView>::empty()),
        !first.background,
    ensures
        parse_statement(a + seq![TokenView::Pipe] + b) == (
            Ok::<NodeView, Seq<char>>(NodeView::Pipeline(seq![first, second])),
            Seq::<TokenView>::empty(),
        ),
{
    let x = seq![TokenView::Pipe] + b;
    let ts = a + seq![TokenView::Pipe] + b;
    assert(ts =~= a + x);
    assert(ts[0] == a[0]);
    assert(ts.skip(1) =~= a.skip(1) + x);
    lemma_parse_arguments_before_separator(a.skip(1), x, bare_command(a[0]->Word_0), first);
    assert(parse_simple(ts) == (Ok::<CommandView, Seq<char>>(first), x));
    assert(x.skip(1) =~= b);
    let one = Seq::<CommandView>::empty().push(first);
    assert(parse_commands(ts, Seq::empty()) == parse_commands(b, one));
    assert(one.push(second) =~= seq![first, second]);
}

/// A parser over a command line. Its view is the tokens not yet read.
pub struct Parser {
    lexer: Lexer,
    current_token: Token,
}

impl View for Parser {
    type V = Seq<TokenView>;

    closed spec fn view(&self) -> Seq<TokenView> {
        if self.current_token@ is EOF {
            Seq::empty()
        } else {
            seq![self.current_token@] + tokens(self.lexer@)
        }
    }
}

impl Parser {
    /// A parser at the start of `input`.
    pub fn new(input: &str) -> (parser: Parser)
        ensures
            parser@ == tokens(input@),
    {
        let mut lexer = Lexer::new(input);
        let current_token = lexer.next_token();
        Parser { lexer, current_token }
    }

    /// The token at hand is the first of those not yet read; `EOF` stands for
    /// none.
    proof fn lemma_current(&self)
        ensures
            self.current_token@ is EOF <==> self@.len() == 0,
            self@.len() > 0 ==> self@[0] == self.current_token@,
    {
    }

    /// Whether no token is left.
    pub fn is_at_end(&self) -> (end: bool)
        ensures
            end == (self@.len() == 0),
    {
        match &self.current_token {
            Token::EOF => true,
            _ => false,
        }
    }

    fn next_token(&mut self)
        requires
            old(self)@.len() > 0,
        ensures
            final(self)@ == old(self)@.skip(1),
    {
        self.current_token = self.lexer.next_token();
        assert(final(self)@ =~= old(self)@.skip(1));
    }

    /// Parses one statement. On an error the message says what was missing,
    /// and the parser stands at the token that was found in its place.
    pub fn parse_command(&mut self) -> (result: Result<Node, String>)
        ensures
            final(self)@ == parse_statement(old(self)@).1,
            match result {
                Ok(node) => parse_statement(old(self)@).0 == Ok::<NodeView, Seq<char>>(node@)
                    && node@.well_formed(),
                Err(message) => parse_statement(old(self)@).0 == Err::<NodeView, Seq<char>>(
                    message@,
                ),
            },
    {
        let mut commands: Vec<Command> = Vec::new();
        let ghost goal = parse_commands(self@, Seq::empty());
        assert(command_views(commands@) =~= Seq::empty());
        loop
            invariant
                parse_commands(self@, command_views(commands@)) == goal,
                goal == parse_commands(old(self)@, Seq::empty()),
                forall|i: int|
                    0 <= i < commands.len() ==> (#[trigger] commands[i])@.program.len() > 0,
            decreases self@.len(),
        {
            proof {
                lemma_parse_simple_progress(self@);
            }
            let command = match self.parse_simple_command() {
                Ok(command) => command,
                Err(message) => {
                    return Err(message);
                },
            };
            let background = command.background;
            assert(command_views(commands@.push(command)) =~= command_views(commands@).push(
                command@,
            ));
            commands.push(command);
            let mut more = false;
            proof {
                self.lemma_current();
            }
            if !background {
                match &self.current_token {
                    Token::Pipe => {
                        self.next_token();
                        more = true;
                    },
                    Token::Semi => {
                        self.next_token();
                    },
                    _ => {},
                }
            }
            if !more {
                assert(goal == (
                    Ok::<Seq<CommandView>, Seq<char>>(command_views(commands@)),
                    self@,
                ));
                if commands.len() == 1 {
                    let only = commands.pop().unwrap();
                    return Ok(Node::Command(only));
                } else {
                    return Ok(Node::Pipeline(commands));
                }
            }
        }
    }

    fn parse_simple_command(&mut self) -> (result: Result<Command, String>)
        ensures
            final(self)@ == parse_simple(old(self)@).1,
            match result {
                Ok(command) => parse_simple(old(self)@).0 == Ok::<CommandView, Seq<char>>(
                    command@,
                ) && command@.program.len() > 0,
                Err(message) => parse_simple(old(self)@).0 == Err::<CommandView, Seq<char>>(
                    message@,
                ),
            },
    {
        proof {
            self.lemma_current();
        }
        let program = match &self.current_token {
            Token::Word(word) => word.clone(),
            _ => {
                return Err("Expected command name".to_owned());
            },
        };
        if program.as_str().unicode_len() == 0 {
            return Err("Expected command name".to_owned());
        }
        self.next_token();
        let mut command = Command {
            program,
            arguments: Vec::new(),
            redirections: Vec::new(),
            background: false,
        };
        assert(command@ =~= bare_command(command.program@)) by {
            assert(command@.arguments =~= Seq::empty());
            assert(command@.redirections =~= Seq::empty());
        }
        let ghost goal = parse_arguments(self@, command@);
        loop
            invariant
                parse_arguments(self@, command@) == goal,
                goal == parse_simple(old(self)@),
                command@.program.len() > 0,
            decreases self@.len(),
        {
            proof {
                self.lemma_current();
            }
            match &self.current_token {
                Token::Background => {
                    command.background = true;
                    self.next_token();
                    return Ok(command);
                },
                Token::Redirect(operator) => {
                    let operator = *operator;
                    let ghost at_operator = self@;
                    let redirection = match self.parse_redirection(operator) {
                        Ok(redirection) => redirection,
                        Err(message) => {
                            return Err(message);
                        },
                    };
                    assert(redirection_views(command.redirections@.push(redirection))
                        =~= redirection_views(command.redirections@).push(redirection@));
                    assert(at_operator.skip(1).skip(1) =~= at_operator.skip(2));
                    command.redirections.push(redirection);
                },
                Token::Word(word) => {
                    let argument = word.clone();
                    assert(texts(command.arguments@.push(argument)) =~= texts(
                        command.arguments@,
                    ).push(argument@));
                    command.arguments.push(argument);
                    self.next_token();
                },
                _ => {
                    return Ok(command);
                },
            }
        }
    }

    fn parse_redirection(&mut self, operator: RedirectOp) -> (result: Result<Redirection, String>)
        requires
            old(self)@.len() > 0,
        ensures
            match result {
                Ok(redirection) => old(self)@.len() > 1 && old(self)@[1] is Word && redirection@
                    == (RedirectionView { operator, filename: old(self)@[1]->Word_0 })
                    && final(self)@ == old(self)@.skip(2),
                Err(message) => !(old(self)@.len() > 1 && old(self)@[1] is Word) && message@
                    == missing_filename() && final(self)@ == old(self)@.skip(1),
            },
    {
        self.next_token();
        proof {
            self.lemma_current();
        }
        let filename = match &self.current_token {
            Token::Word(word) => word.clone(),
            _ => {
                return Err("Expected filename after redirection operator".to_owned());
            },
        };
        self.next_token();
        assert(old(self)@.skip(1).skip(1) =~= old(self)@.skip(2));
        Ok(Redirection { operator, filename })
    }
}

} // verus!
