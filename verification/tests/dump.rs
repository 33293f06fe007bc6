use zako::dump::parse_variable_dump;

fn variables(text: &str) -> Vec<(String, String, bool)> {
    parse_variable_dump(text)
        .into_iter()
        .map(|v| (v.name, v.value, v.exported))
        .collect()
}

fn variable(name: &str, value: &str, exported: bool) -> (String, String, bool) {
    (name.to_string(), value.to_string(), exported)
}

#[test]
fn empty_dump_defines_nothing() {
    assert!(variables("").is_empty());
    assert!(variables("\n\n").is_empty());
    assert!(variables("---ENV_VAR_END---\n").is_empty());
    assert!(variables("_x=1\n 2\n").is_empty());
}

#[test]
fn environment_and_shell_variables() {
    let text = "HOME=/root\nPATH=/bin\n---ENV_VAR_END---\nHOME=/root\nPROMPT='> '\nPATH=/bin\n";
    assert_eq!(
        variables(text),
        vec![
            variable("HOME", "/root", true),
            // the last definition of the environment's part is taken in after its end
            variable("PATH", "/bin", false),
            variable("PROMPT", "'> '", false),
        ]
    );
}

#[test]
fn values_over_several_lines() {
    let text = "A=first\n second\n\n\tthird\r\nB = x \n---ENV_VAR_END---\nC=1\n}\nnot a definition\n";
    assert_eq!(
        variables(text),
        vec![
            variable("A", "first\n second\n\tthird", true),
            // the definition before the end of the environment is taken in after it
            variable("B", "x", false),
            variable("C", "1\n}", false),
        ]
    );
}

#[test]
fn later_definitions_win() {
    let text = "A=1\nB=2\nA=3\n---ENV_VAR_END---\nB=4\nlast=5";
    assert_eq!(
        variables(text),
        vec![
            variable("A", "3", true),
            variable("B", "4", true),
            variable("last", "5", false),
        ]
    );
}
