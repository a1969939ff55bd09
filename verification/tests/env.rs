use r_tools::secrets::{
    env_assignments, escape_val, export_lines, find_secret, load_secrets, parse_args, secrets_path,
    EnvRequest,
};

fn s(v: &[&str]) -> Vec<String> {
    v.iter().map(|x| x.to_string()).collect()
}

fn pairs(v: &[(&str, &str)]) -> Vec<(String, String)> {
    v.iter().map(|(k, x)| (k.to_string(), x.to_string())).collect()
}

#[test]
fn escape_single_quotes() {
    assert_eq!(escape_val("it's"), "it'\\''s");
    assert_eq!(escape_val("plain"), "plain");
    assert_eq!(escape_val("''"), "'\\'''\\''");
    assert_eq!(escape_val(""), "");
}

#[test]
fn arguments_print_or_exec() {
    assert_eq!(parse_args(&[]).err(), Some("no keys specified".to_string()));
    match parse_args(&s(&["A", "B"])) {
        Ok(EnvRequest::Print { keys }) => assert_eq!(keys, s(&["A", "B"])),
        _ => panic!("expected print"),
    }
    assert_eq!(parse_args(&s(&["--", "cmd"])).err(), Some("no keys specified before '--'".to_string()));
    assert_eq!(parse_args(&s(&["A", "--"])).err(), Some("no command specified after '--'".to_string()));
    match parse_args(&s(&["A", "--", "env", "x"])) {
        Ok(EnvRequest::Exec { keys, command }) => {
            assert_eq!(keys, s(&["A"]));
            assert_eq!(command, s(&["env", "x"]));
        }
        _ => panic!("expected exec"),
    }
    match parse_args(&s(&["A", "B", "--", "b", "--", "c"])) {
        Ok(EnvRequest::Exec { keys, command }) => {
            assert_eq!(keys, s(&["A", "B"]));
            assert_eq!(command, s(&["b", "--", "c"]));
        }
        _ => panic!("expected exec"),
    }
}

#[test]
fn secrets_file_contents() {
    let path = "/home/u/.config/r/secrets.json";
    let loaded = load_secrets(path, r#"{"B": "x'y", "A": "1"}"#).unwrap();
    assert_eq!(loaded.len(), 2);
    assert_eq!(find_secret(&loaded, "A"), Some(&"1".to_string()));
    assert_eq!(find_secret(&loaded, "B"), Some(&"x'y".to_string()));
    assert_eq!(find_secret(&loaded, "C"), None);
    assert_eq!(load_secrets(path, "{}").unwrap(), Vec::<(String, String)>::new());
    assert_eq!(
        load_secrets(path, r#"{"A": 1}"#).err(),
        Some("Value for 'A' must be a string".to_string())
    );
    assert_eq!(
        load_secrets(path, "[1, 2]").err(),
        Some(format!("{path} must be a JSON object"))
    );
    let err = load_secrets(path, "{").err().unwrap();
    assert!(err.starts_with(&format!("Failed to parse {path}: ")), "{err}");
}

#[test]
fn export_lines_stop_at_a_missing_key() {
    let secrets = pairs(&[("A", "1"), ("B", "x'y")]);
    let (lines, missing) = export_lines(&s(&["A", "B"]), &secrets);
    assert_eq!(lines, s(&["export A='1';", "export B='x'\\''y';"]));
    assert_eq!(missing, None);
    let (lines, missing) = export_lines(&s(&["A", "C", "B"]), &secrets);
    assert_eq!(lines, s(&["export A='1';"]));
    assert_eq!(missing, Some("key 'C' not found in secrets".to_string()));
}

#[test]
fn environment_for_a_command() {
    let secrets = pairs(&[("A", "1"), ("B", "2")]);
    assert_eq!(env_assignments(&s(&["B", "A"]), &secrets), Ok(pairs(&[("B", "2"), ("A", "1")])));
    assert_eq!(
        env_assignments(&s(&["A", "Z"]), &secrets),
        Err("key 'Z' not found in secrets".to_string())
    );
}

#[test]
fn secrets_file_location() {
    assert_eq!(secrets_path(Some("/home/u")), "/home/u/.config/r/secrets.json");
    assert_eq!(secrets_path(None), "/root/.config/r/secrets.json");
}
