//! Tests for exports, env-file parsing and the ignore-pattern matcher.

use secrets_manager::envfile::parse_env_file;
use secrets_manager::export::format_export;
use secrets_manager::gitignore::{is_file_ignored, matches_wildcard_pattern};
use secrets_manager::models::{ExportFormat, Project};

#[test]
fn shell_export_of_two_secrets() {
    let mut p = Project::new("exp".to_string());
    p.add_secret("FOO".to_string(), "bar".to_string());
    p.add_secret("BAZ".to_string(), "qux".to_string());
    let out = format_export(&p, &ExportFormat::Shell);
    assert_eq!(out, "export FOO='bar'\nexport BAZ='qux'\n");
}

#[test]
fn env_export_of_two_secrets() {
    let mut p = Project::new("exp".to_string());
    p.add_secret("FOO".to_string(), "bar".to_string());
    p.add_secret("BAZ".to_string(), "qux".to_string());
    let out = format_export(&p, &ExportFormat::EnvFile);
    assert_eq!(out, "FOO=bar\nBAZ=qux\n");
}

#[test]
fn json_export_is_a_pretty_object() {
    let mut p = Project::new("exp".to_string());
    p.add_secret("FOO".to_string(), "bar".to_string());
    p.add_secret("BAZ".to_string(), "qux".to_string());
    let out = format_export(&p, &ExportFormat::Json);
    assert_eq!(out, "{\n  \"FOO\": \"bar\",\n  \"BAZ\": \"qux\"\n}");

    let empty = Project::new("none".to_string());
    assert_eq!(format_export(&empty, &ExportFormat::Json), "{}");
}

#[test]
fn env_file_parsing_basics() {
    let content = "# comment\n\nAPI_KEY=abc123\nQUOTED=\"hello world\"\nSINGLE='x'\n  SPACED  =  padded  \nNOEQ\n=novalue\n";
    let vars = parse_env_file(content);
    assert_eq!(
        vars,
        vec![
            ("API_KEY".to_string(), "abc123".to_string()),
            ("QUOTED".to_string(), "hello world".to_string()),
            ("SINGLE".to_string(), "x".to_string()),
            ("SPACED".to_string(), "padded".to_string()),
        ]
    );
}

#[test]
fn env_file_later_lines_override() {
    let vars = parse_env_file("A=1\nB=2\nA=3\n");
    assert_eq!(vars, vec![("A".to_string(), "3".to_string()), ("B".to_string(), "2".to_string())]);
}

#[test]
fn wildcard_matching() {
    assert!(matches_wildcard_pattern("secrets.env", "*.env"));
    assert!(matches_wildcard_pattern("a.txt", "?.txt"));
    assert!(matches_wildcard_pattern("anything", "*"));
    assert!(!matches_wildcard_pattern("a.txt", "*.env"));
    assert!(!matches_wildcard_pattern("ab.txt", "?.txt"));
    assert!(matches_wildcard_pattern("", "*"));
    assert!(!matches_wildcard_pattern("x", ""));
}

#[test]
fn gitignore_matching() {
    let gitignore = "# comment\n.env\nbuild/\n*.secret\n";
    assert!(is_file_ignored(".env", gitignore));
    assert!(is_file_ignored("./.env", gitignore));
    assert!(is_file_ignored("build/out.txt", gitignore));
    assert!(is_file_ignored("deploy.secret", gitignore));
    assert!(!is_file_ignored("main.rs", gitignore));
    assert!(!is_file_ignored("anything", "# only comments\n"));
}
