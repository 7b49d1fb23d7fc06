use taskkit::application::forwarded::{
    compose_command, is_shell_metachar, shell_quote_single, split_at_separator, ForwardedArgs,
};

#[test]
fn test_empty_forwarded() {
    let f = ForwardedArgs::new();
    assert!(f.is_empty());
    assert_eq!(f.len(), 0);
    assert_eq!(f.shell_quote(), "");
}

#[test]
fn test_builder_push() {
    let f = ForwardedArgs::new().push("--release").push("--target=x86_64");
    assert_eq!(f.args, vec!["--release", "--target=x86_64"]);
}

#[test]
fn test_from_slice() {
    let arr = ["a", "b", "c"];
    let f = ForwardedArgs::from_slice(&arr);
    assert_eq!(f.args, vec!["a", "b", "c"]);
}

#[test]
fn test_from_iter_string() {
    let f: ForwardedArgs = vec!["a".to_string(), "b".to_string()].into_iter().collect();
    assert_eq!(f.args.len(), 2);
}

#[test]
fn test_from_iter_str() {
    let f: ForwardedArgs = vec!["a", "b"].into_iter().collect();
    assert_eq!(f.args, vec!["a", "b"]);
}

#[test]
fn test_shell_quote_simple() {
    let f = ForwardedArgs::new().push("--release").push("x86_64");
    assert_eq!(f.shell_quote(), "--release x86_64");
}

#[test]
fn test_shell_quote_empty_arg() {
    let f = ForwardedArgs::new().push("");
    assert_eq!(f.shell_quote(), "''");
}

#[test]
fn test_shell_quote_with_space() {
    let f = ForwardedArgs::new().push("hello world");
    assert_eq!(f.shell_quote(), "'hello world'");
}

#[test]
fn test_shell_quote_with_quote() {
    let f = ForwardedArgs::new().push("it's");
    assert_eq!(f.shell_quote(), "'it'\\''s'");
}

#[test]
fn test_shell_quote_with_dollar() {
    let f = ForwardedArgs::new().push("$HOME");
    assert_eq!(f.shell_quote(), "'$HOME'");
}

#[test]
fn test_shell_quote_single_helper() {
    assert_eq!(shell_quote_single(""), "''");
    assert_eq!(shell_quote_single("plain"), "plain");
    assert_eq!(shell_quote_single("a b"), "'a b'");
    assert_eq!(shell_quote_single("a'b"), "'a'\\''b'");
}

#[test]
fn forwarded_test_display() {
    let f = ForwardedArgs::new().push("hello");
    assert_eq!(f.to_string(), "hello");
}

#[test]
fn test_to_json() {
    let f = ForwardedArgs::new().push("--foo").push("bar");
    let json = f.to_json();
    let expected = serde_json::Value::Array(vec![
        serde_json::Value::String("--foo".to_string()),
        serde_json::Value::String("bar".to_string()),
    ]);
    assert_eq!(json, expected);
}

#[test]
fn test_split_at_separator() {
    let (before, after) = split_at_separator(vec!["a", "b", "--", "c", "d"]);
    assert_eq!(before, vec!["a", "b"]);
    assert_eq!(after, vec!["c", "d"]);
}

#[test]
fn test_split_at_separator_no_sep() {
    let (before, after) = split_at_separator(vec!["a", "b", "c"]);
    assert!(before.is_empty());
    assert_eq!(after, vec!["a", "b", "c"]);
}

#[test]
fn test_split_at_separator_empty() {
    let (before, after): (Vec<String>, Vec<String>) = split_at_separator(Vec::<&str>::new());
    assert!(before.is_empty());
    assert!(after.is_empty());
}

#[test]
fn test_split_at_separator_only_separator() {
    let (before, after) = split_at_separator(vec!["--", "x"]);
    assert!(before.is_empty());
    assert_eq!(after, vec!["x"]);
}

#[test]
fn test_compose_command_empty() {
    let f = ForwardedArgs::new();
    assert_eq!(compose_command("echo hello", &f), "echo hello");
}

#[test]
fn test_compose_command_with_args() {
    let f = ForwardedArgs::new().push("--release").push("x86_64");
    assert_eq!(compose_command("cargo build", &f), "cargo build --release x86_64");
}

#[test]
fn test_compose_command_quotes_special_chars() {
    let f = ForwardedArgs::new().push("hello world");
    assert_eq!(compose_command("echo", &f), "echo 'hello world'");
}

#[test]
fn test_is_shell_metachar() {
    assert!(is_shell_metachar(b' '));
    assert!(is_shell_metachar(b'$'));
    assert!(is_shell_metachar(b'|'));
    assert!(!is_shell_metachar(b'a'));
    assert!(!is_shell_metachar(b'1'));
}

// ---------------------------------------------------------------------------
// Further cases
// ---------------------------------------------------------------------------

#[test]
fn split_uses_first_separator_only() {
    let (before, after) = split_at_separator(vec!["a", "--", "b", "--", "c"]);
    assert_eq!(before, vec!["a"]);
    assert_eq!(after, vec!["b", "--", "c"]);
}

#[test]
fn non_ascii_needs_no_quoting() {
    assert_eq!(shell_quote_single("héllo"), "héllo");
    assert_eq!(shell_quote_single("a,b"), "'a,b'");
}

#[test]
fn compose_with_empty_base_is_quoted_args() {
    let f = ForwardedArgs::new().push("x y");
    assert_eq!(compose_command("", &f), "'x y'");
}

#[test]
fn quoting_keeps_empty_arguments_visible() {
    let f = ForwardedArgs::new().push("").push("");
    assert_eq!(f.shell_quote(), "'' ''");
}
