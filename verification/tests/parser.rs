use zako::ast::Node;
use zako::lexer::RedirectOp;
use zako::parser::Parser;

#[test]
fn parser_test_simple_command() {
    let mut parser = Parser::new("ls -l");
    let node = parser.parse_command().unwrap();

    match node {
        Node::Command(cmd) => {
            assert_eq!(cmd.program, "ls");
            assert_eq!(cmd.arguments, vec!["-l"]);
            assert!(cmd.redirections.is_empty());
            assert!(!cmd.background);
        }
        _ => panic!("Expected simple command"),
    }
}

#[test]
fn test_pipeline() {
    let mut parser = Parser::new("ls -l | grep foo");
    let node = parser.parse_command().unwrap();

    match node {
        Node::Pipeline(cmds) => {
            assert_eq!(cmds.len(), 2);
            assert_eq!(cmds[0].program, "ls");
            assert_eq!(cmds[0].arguments, vec!["-l"]);
            assert_eq!(cmds[1].program, "grep");
            assert_eq!(cmds[1].arguments, vec!["foo"]);
        }
        _ => panic!("Expected pipeline"),
    }
}

#[test]
fn test_redirection() {
    let mut parser = Parser::new("echo hello > output.txt");
    let node = parser.parse_command().unwrap();

    match node {
        Node::Command(cmd) => {
            assert_eq!(cmd.program, "echo");
            assert_eq!(cmd.arguments, vec!["hello"]);
            assert_eq!(cmd.redirections.len(), 1);
            assert_eq!(cmd.redirections[0].filename, "output.txt");
            assert!(matches!(cmd.redirections[0].operator, RedirectOp::Output));
        }
        _ => panic!("Expected command with redirection"),
    }
}

#[test]
fn test_background() {
    let mut parser = Parser::new("sleep 10 &");
    let node = parser.parse_command().unwrap();

    match node {
        Node::Command(cmd) => {
            assert_eq!(cmd.program, "sleep");
            assert_eq!(cmd.arguments, vec!["10"]);
            assert!(cmd.background);
        }
        _ => panic!("Expected background command"),
    }
}

#[test]
fn empty_input_has_no_command() {
    assert_eq!(Parser::new("").parse_command().unwrap_err(), "Expected command name");
    assert_eq!(Parser::new("   ").parse_command().unwrap_err(), "Expected command name");
}

#[test]
fn statement_must_start_with_a_name() {
    for input in ["| ls", "> out", "& ls", "; ls", "\"\" x", "ls |", "ls | | wc", "ls | > x"] {
        assert_eq!(
            Parser::new(input).parse_command().unwrap_err(),
            "Expected command name",
            "input {:?}",
            input
        );
    }
}

#[test]
fn redirection_needs_a_filename() {
    for input in ["ls >", "ls > > x", "ls < | wc", "ls >> ;", "ls > &"] {
        assert_eq!(
            Parser::new(input).parse_command().unwrap_err(),
            "Expected filename after redirection operator",
            "input {:?}",
            input
        );
    }
}

#[test]
fn redirections_and_arguments_may_mix() {
    let node = Parser::new("sort < in -r >> out x").parse_command().unwrap();
    match node {
        Node::Command(cmd) => {
            assert_eq!(cmd.program, "sort");
            assert_eq!(cmd.arguments, vec!["-r", "x"]);
            assert_eq!(cmd.redirections.len(), 2);
            assert!(matches!(cmd.redirections[0].operator, RedirectOp::Input));
            assert_eq!(cmd.redirections[0].filename, "in");
            assert!(matches!(cmd.redirections[1].operator, RedirectOp::Append));
            assert_eq!(cmd.redirections[1].filename, "out");
            assert!(!cmd.background);
        }
        _ => panic!("Expected simple command"),
    }
}

#[test]
fn semicolon_ends_the_statement() {
    let mut parser = Parser::new("a 1; b 2 | c");
    match parser.parse_command().unwrap() {
        Node::Command(cmd) => {
            assert_eq!(cmd.program, "a");
            assert_eq!(cmd.arguments, vec!["1"]);
        }
        _ => panic!("Expected simple command"),
    }
    assert!(!parser.is_at_end());
    match parser.parse_command().unwrap() {
        Node::Pipeline(cmds) => {
            assert_eq!(cmds.len(), 2);
            assert_eq!(cmds[0].program, "b");
            assert_eq!(cmds[1].program, "c");
        }
        _ => panic!("Expected pipeline"),
    }
    assert!(parser.is_at_end());
}

#[test]
fn ampersand_ends_the_statement() {
    let mut parser = Parser::new("a & | b");
    match parser.parse_command().unwrap() {
        Node::Command(cmd) => {
            assert_eq!(cmd.program, "a");
            assert!(cmd.background);
        }
        _ => panic!("Expected background command"),
    }
    assert!(!parser.is_at_end());
    let mut parser = Parser::new("a | b & c");
    match parser.parse_command().unwrap() {
        Node::Pipeline(cmds) => {
            assert_eq!(cmds.len(), 2);
            assert!(!cmds[0].background);
            assert!(cmds[1].background);
        }
        _ => panic!("Expected pipeline"),
    }
}

#[test]
fn three_commands_in_a_pipeline() {
    match Parser::new("a|b|c d").parse_command().unwrap() {
        Node::Pipeline(cmds) => {
            assert_eq!(cmds.len(), 3);
            assert_eq!(cmds[2].program, "c");
            assert_eq!(cmds[2].arguments, vec!["d"]);
        }
        _ => panic!("Expected pipeline"),
    }
}

#[test]
fn default_command_is_empty() {
    let command = zako::ast::Command::default();
    assert_eq!(command.program, "");
    assert!(command.arguments.is_empty());
    assert!(command.redirections.is_empty());
    assert!(!command.background);
}

#[test]
fn output_redirection() {
    match Parser::new("echo hi > out.txt").parse_command().unwrap() {
        Node::Command(cmd) => {
            assert_eq!(cmd.program, "echo");
            assert_eq!(cmd.arguments, vec!["hi"]);
            assert_eq!(cmd.redirections.len(), 1);
            assert_eq!(cmd.redirections[0].operator, RedirectOp::Output);
            assert_eq!(cmd.redirections[0].filename, "out.txt");
            assert!(!cmd.background);
        }
        _ => panic!("Expected command with redirection"),
    }
}

#[test]
fn two_commands_joined_by_a_pipe() {
    match Parser::new("A | B").parse_command().unwrap() {
        Node::Pipeline(cmds) => {
            assert_eq!(cmds.len(), 2);
            assert_eq!(cmds[0].program, "A");
            assert_eq!(cmds[1].program, "B");
        }
        _ => panic!("Expected pipeline"),
    }
}
