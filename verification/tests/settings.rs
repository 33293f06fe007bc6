use zako::assignment::{
    bound_value, parse_var_definition, plan_line, plan_words, strip, LinePlan, PlanError,
};
use zako::config::{eq_ignore_ascii_case, Config, LogLevel, Settings};
use zako::path::join_path;
use zako::theme::Theme;

fn settings(config_dir: Option<&str>) -> Settings {
    Settings {
        config_dir: config_dir.map(|d| d.to_string()),
        current_dir: "/work".to_string(),
        logger_level: None,
        theme: None,
        editor_mode: None,
    }
}

#[test]
fn config_defaults() {
    let config = Config::new(settings(Some("/etc/zako")));
    assert_eq!(config.name, "zako");
    assert_eq!(config.logger_level, "info");
    assert_eq!(config.theme, "default");
    assert_eq!(config.editor_mode, "vi");
    assert_eq!(config.config_dir, "/etc/zako");
    assert_eq!(config.history_file, "/etc/zako/.zako_history");
    assert_eq!(config.themes_dir, "/etc/zako/themes");
    assert_eq!(config.log_level(), LogLevel::Info);
    assert!(!config.emacs_keys());
}

#[test]
fn config_from_the_environment() {
    let mut given = settings(Some("./conf"));
    given.logger_level = Some("DeBuG".to_string());
    given.theme = Some("dark".to_string());
    given.editor_mode = Some("emacs".to_string());
    let config = Config::new(given);
    assert_eq!(config.config_dir, "/work/conf");
    assert_eq!(config.history_file, "/work/conf/.zako_history");
    assert_eq!(config.logger_level, "DeBuG");
    assert_eq!(config.log_level(), LogLevel::Debug);
    assert_eq!(config.theme, "dark");
    assert!(config.emacs_keys());
}

#[test]
fn config_dir_with_a_tilde() {
    let config = Config::new(settings(None));
    assert!(config.config_dir.ends_with("/.config/zako"));
    assert!(!config.config_dir.starts_with('~'));
    let config = Config::new(settings(Some("~/z")));
    assert!(config.config_dir.ends_with("/z"));
    assert!(!config.config_dir.starts_with('~'));
    assert_eq!(config.themes_dir, format!("{}/themes", config.config_dir));
}

#[test]
fn log_levels() {
    let level = |text: &str| {
        let mut given = settings(Some("/c"));
        given.logger_level = Some(text.to_string());
        Config::new(given).log_level()
    };
    assert_eq!(level("error"), LogLevel::Error);
    assert_eq!(level("WARN"), LogLevel::Warn);
    assert_eq!(level("Info"), LogLevel::Info);
    assert_eq!(level("debug"), LogLevel::Debug);
    assert_eq!(level("tRaCe"), LogLevel::Trace);
    assert_eq!(level("verbose"), LogLevel::Info);
    assert_eq!(level(""), LogLevel::Info);
    assert_eq!(level("errors"), LogLevel::Info);
}

#[test]
fn comparison_ignoring_case() {
    assert!(eq_ignore_ascii_case("AbC", "aBc"));
    assert!(eq_ignore_ascii_case("", ""));
    assert!(!eq_ignore_ascii_case("a", "ab"));
    assert!(!eq_ignore_ascii_case("@", "`"));
    assert!(!eq_ignore_ascii_case("[", "{"));
    assert!(!eq_ignore_ascii_case("É", "é"));
    assert!(eq_ignore_ascii_case("é1", "é1"));
}

#[test]
fn joining_paths() {
    assert_eq!(join_path("/a", "b"), "/a/b");
    assert_eq!(join_path("/a/", "b"), "/a/b");
    assert_eq!(join_path("/a", "/b"), "/b");
    assert_eq!(join_path("", "b"), "b");
    assert_eq!(join_path("/a", ""), "/a/");
    assert_eq!(join_path("/", "b"), "/b");
}

#[test]
fn theme_messages() {
    let theme = Theme::default();
    let prompt = theme.get_message("prompt");
    assert!(prompt == "雑魚～> " || prompt == "雑魚～❥ ");
    assert_eq!(theme.get_message("success_symbol"), "♡");
    assert_eq!(theme.get_message("error_symbol"), "✗");
    let errors = [
        "哼～出错了呢，真是个废物呢！",
        "啊啦～又搞砸了吗？真是拿你没办法呢～",
        "呵～这种低级错误，不愧是你呢～",
        "真是的～连这种错误都会犯，真是个笨蛋呢～",
        "哎呀呀～看来某人的能力还不够呢～",
        "啊～又出错了吗？真是个让人操心的废物呢～",
    ];
    for _ in 0..20 {
        assert!(errors.contains(&theme.get_message("no such occasion").as_str()));
        assert!(errors.contains(&theme.get_message("error").as_str()));
        assert!(!theme.get_message("welcome").is_empty());
    }
}

#[test]
fn theme_table() {
    let table = Theme::init_messages();
    let keys: Vec<&str> = table.iter().map(|e| e.0.as_str()).collect();
    assert_eq!(
        keys,
        vec![
            "prompt",
            "success_symbol",
            "error_symbol",
            "welcome",
            "help",
            "exit",
            "interrupt_signal",
            "eof_signal",
            "command_success",
            "command_error",
            "execution_error",
            "error"
        ]
    );
    assert!(table.iter().all(|e| !e.1.is_empty()));
    assert_eq!(table[0].1, vec!["雑魚～> ", "雑魚～❥ "]);
    assert_eq!(table[3].1.len(), 6);
    let config = Config::new(settings(Some("/c")));
    assert_eq!(Theme::load_theme("default", &config).get_message("error_symbol"), "✗");
    assert!(Theme::load_from_file("/c/themes/x.zsh-theme".to_string()).is_ok());
}

#[test]
fn variable_definitions() {
    assert_eq!(parse_var_definition("A=1"), Some(("A".to_string(), "1".to_string())));
    assert_eq!(parse_var_definition(" A = 1 2 "), Some(("A".to_string(), "1 2".to_string())));
    assert_eq!(parse_var_definition("A=b=c"), Some(("A".to_string(), "b=c".to_string())));
    assert_eq!(parse_var_definition("="), Some(("".to_string(), "".to_string())));
    assert_eq!(parse_var_definition("A"), None);
    assert_eq!(parse_var_definition(""), None);
    assert_eq!(parse_var_definition("A=x\ny"), Some(("A".to_string(), "x\ny".to_string())));
}

#[test]
fn quotes_are_taken_off() {
    assert_eq!(strip("\"\"a\"b\"", '"'), "a\"b");
    assert_eq!(strip("\"\"", '"'), "");
    assert_eq!(strip("", '"'), "");
    assert_eq!(strip("abc", 'x'), "abc");
    assert_eq!(bound_value("\"'a'\""), "a");
    assert_eq!(bound_value("'\"a\"'"), "\"a\"");
    assert_eq!(bound_value("'a b'"), "a b");
}

fn assignments(plan: Result<LinePlan, PlanError>) -> Vec<(String, String, bool)> {
    match plan {
        Ok(LinePlan::Assign(all)) => all.into_iter().map(|a| (a.name, a.value, a.export)).collect(),
        other => panic!("expected assignments, got {:?}", other),
    }
}

#[test]
fn planning_lines() {
    assert!(matches!(plan_line("", "zako"), Ok(LinePlan::Skip)));
    assert!(matches!(plan_line("   ", "zako"), Ok(LinePlan::Skip)));
    assert!(matches!(plan_line("# only a comment", "zako"), Ok(LinePlan::Skip)));
    assert!(matches!(plan_line(" zako ", "zako"), Ok(LinePlan::NestedShell)));
    assert!(matches!(plan_line("zako -x", "zako"), Ok(LinePlan::NestedShell)));
    match plan_line("  echo  'a  b'   \"c\"  ", "zako") {
        Ok(LinePlan::Run(command)) => assert_eq!(command, "echo a  b c"),
        other => panic!("expected a command, got {:?}", other),
    }
    assert_eq!(plan_line("echo 'a", "zako").unwrap_err(), PlanError::UnmatchedQuote);
    assert_eq!(plan_line("echo \"a", "zako").unwrap_err(), PlanError::UnmatchedQuote);
}

#[test]
fn planning_assignments() {
    assert_eq!(
        assignments(plan_line("A=1 B=\"x y\" skipped C='\"z\"'", "zako")),
        vec![
            ("A".to_string(), "1".to_string(), false),
            ("B".to_string(), "x y".to_string(), false),
            ("C".to_string(), "z".to_string(), false),
        ]
    );
    assert_eq!(
        assignments(plan_line("export A=1 B", "zako")),
        vec![("A".to_string(), "1".to_string(), true)]
    );
    assert!(assignments(plan_line("export", "zako")).is_empty());
    assert_eq!(
        assignments(plan_line("export export=1", "zako")),
        vec![("export".to_string(), "1".to_string(), true)]
    );
    let words = vec!["A= 'q' ".to_string()];
    assert_eq!(
        assignments(plan_words(&words, "zako")),
        vec![("A".to_string(), "q".to_string(), false)]
    );
    assert!(matches!(plan_words(&Vec::new(), "zako"), Ok(LinePlan::Skip)));
}

#[test]
fn planning_with_the_environment() {
    assert_eq!(
        plan_line("A=$ZAKO_NO_SUCH_VARIABLE_0123", "zako").unwrap_err(),
        PlanError::UnknownVariable
    );
    match plan_line("A=\\$PATH", "zako") {
        Ok(LinePlan::Assign(all)) => assert_ne!(all[0].value, "$PATH"),
        Err(error) => assert_eq!(error, PlanError::UnknownVariable),
        other => panic!("unexpected plan {:?}", other),
    }
}
