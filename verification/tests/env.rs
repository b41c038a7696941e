use rsh::env::{
    init_environment, parse_environment, parse_variable, resolve_variable, resolve_variables,
    split_assignment, Environment,
};

fn shown(environ: &Environment) -> Vec<String> {
    rsh::env::env(environ)
}

fn value_of(environ: &Environment, name: &str) -> Option<String> {
    environ.get(name).cloned()
}

#[test]
fn new_environment_is_empty() {
    let environ = Environment::new();
    assert_eq!(environ.len(), 0);
    assert_eq!(value_of(&environ, "USER"), None);
    assert_eq!(shown(&environ), Vec::<String>::new());
}

#[test]
fn insert_binds_and_overwrites() {
    let mut environ = Environment::new();
    environ.insert(String::from("FOO"), String::from("bar"));
    environ.insert(String::from("A"), String::from("1"));
    assert_eq!(value_of(&environ, "FOO"), Some(String::from("bar")));
    assert_eq!(value_of(&environ, "A"), Some(String::from("1")));
    assert_eq!(value_of(&environ, "B"), None);
    environ.insert(String::from("FOO"), String::from("baz"));
    assert_eq!(value_of(&environ, "FOO"), Some(String::from("baz")));
    assert_eq!(environ.len(), 2);
}

#[test]
fn init_environment_binds_user() {
    let mut environ = Environment::new();
    init_environment(&mut environ, "alice");
    assert_eq!(value_of(&environ, "USER"), Some(String::from("alice")));
    assert_eq!(environ.len(), 1);
    assert_eq!(shown(&environ), vec!["USER=alice"]);
}

#[test]
fn split_assignment_cuts_at_the_first_equals_sign() {
    assert_eq!(split_assignment("FOO=bar"), Some((String::from("FOO"), String::from("bar"))));
    assert_eq!(split_assignment("A=b=c"), Some((String::from("A"), String::from("b=c"))));
    assert_eq!(split_assignment("A="), Some((String::from("A"), String::from(""))));
    assert_eq!(split_assignment("=x"), Some((String::from(""), String::from("x"))));
    assert_eq!(split_assignment("="), Some((String::from(""), String::from(""))));
    assert_eq!(split_assignment("FOO"), None);
    assert_eq!(split_assignment(""), None);
}

#[test]
fn export_binds_every_assignment() {
    let mut environ = Environment::new();
    parse_environment(&vec!["FOO=bar", "skipped", "A=b=c"], &mut environ);
    assert_eq!(value_of(&environ, "FOO"), Some(String::from("bar")));
    assert_eq!(value_of(&environ, "A"), Some(String::from("b=c")));
    assert_eq!(value_of(&environ, "skipped"), None);
    assert_eq!(environ.len(), 2);
    assert_eq!(shown(&environ), vec!["FOO=bar", "A=b=c"]);
}

#[test]
fn export_again_overwrites_and_does_not_duplicate() {
    let mut environ = Environment::new();
    parse_environment(&vec!["FOO=bar"], &mut environ);
    assert_eq!(shown(&environ), vec!["FOO=bar"]);
    parse_environment(&vec!["FOO=baz"], &mut environ);
    assert_eq!(shown(&environ), vec!["FOO=baz"]);
    assert_eq!(environ.len(), 1);
}

#[test]
fn export_takes_the_last_of_two_assignments_to_one_name() {
    let mut environ = Environment::new();
    parse_environment(&vec!["X=1", "Y=2", "X=3"], &mut environ);
    assert_eq!(shown(&environ), vec!["X=3", "Y=2"]);
}

#[test]
fn export_without_arguments_changes_nothing() {
    let mut environ = Environment::new();
    init_environment(&mut environ, "bob");
    parse_environment(&Vec::new(), &mut environ);
    assert_eq!(shown(&environ), vec!["USER=bob"]);
}

#[test]
fn parse_variable_ends_at_whitespace_dollar_or_end() {
    assert_eq!(parse_variable("hello $NAME", 6), 11);
    assert_eq!(parse_variable("$NAME there", 0), 5);
    assert_eq!(parse_variable("$A$B", 0), 2);
    assert_eq!(parse_variable("$A$B", 2), 4);
    assert_eq!(parse_variable("$", 0), 1);
    assert_eq!(parse_variable("$A\tB", 0), 2);
    assert_eq!(parse_variable("abc", 3), 3);
    assert_eq!(parse_variable("abc", 17), 3);
    assert_eq!(parse_variable("é$ü x", 1), 3);
}

#[test]
fn resolve_replaces_a_bound_variable() {
    let mut environ = Environment::new();
    environ.insert(String::from("NAME"), String::from("world"));
    let resolution = resolve_variables(&vec!["hello $NAME"], &environ);
    assert_eq!(resolution.args, vec!["hello world"]);
    assert_eq!(resolution.diagnostics, Vec::<String>::new());
}

#[test]
fn resolve_drops_an_unbound_variable() {
    let mut environ = Environment::new();
    environ.insert(String::from("NAME"), String::from("world"));
    let resolution = resolve_variables(&vec!["$UNSET"], &environ);
    assert_eq!(resolution.args, Vec::<String>::new());
    assert_eq!(resolution.diagnostics, vec!["Unknown variable: UNSET"]);
}

#[test]
fn resolve_keeps_arguments_without_a_reference() {
    let environ = Environment::new();
    let resolution = resolve_variables(&vec!["-l", "a=b", ""], &environ);
    assert_eq!(resolution.args, vec!["-l", "a=b", ""]);
    assert_eq!(resolution.diagnostics, Vec::<String>::new());
}

#[test]
fn resolve_keeps_the_order_of_what_is_left() {
    let mut environ = Environment::new();
    environ.insert(String::from("A"), String::from("1"));
    let resolution = resolve_variables(&vec!["x", "$B", "$A", "$C", "y"], &environ);
    assert_eq!(resolution.args, vec!["x", "1", "y"]);
    assert_eq!(
        resolution.diagnostics,
        vec!["Unknown variable: B", "Unknown variable: C"]
    );
}

#[test]
fn resolve_handles_the_first_reference_only() {
    let mut environ = Environment::new();
    environ.insert(String::from("A"), String::from("1"));
    environ.insert(String::from("B"), String::from("2"));
    assert_eq!(resolve_variable("$A$B", &environ), Ok(String::from("1$B")));
    assert_eq!(resolve_variable("x$A y$B", &environ), Ok(String::from("x1 y$B")));
    assert_eq!(resolve_variable("$A $A", &environ), Ok(String::from("1 $A")));
    assert_eq!(resolve_variable("$C$A", &environ), Err(String::from("C")));
    assert_eq!(resolve_variable("$", &environ), Err(String::from("")));
    assert_eq!(resolve_variable("a$ b", &environ), Err(String::from("")));
    assert_eq!(resolve_variable("$AB", &environ), Err(String::from("AB")));
}

#[test]
fn resolve_does_not_change_the_environment() {
    let mut environ = Environment::new();
    environ.insert(String::from("NAME"), String::from("world"));
    let _ = resolve_variables(&vec!["$NAME", "$OTHER"], &environ);
    assert_eq!(shown(&environ), vec!["NAME=world"]);
}

#[test]
fn env_shows_one_line_for_each_binding() {
    let mut environ = Environment::new();
    environ.insert(String::from("B"), String::from("two words"));
    environ.insert(String::from("A"), String::from(""));
    assert_eq!(shown(&environ), vec!["B=two words", "A="]);
}
