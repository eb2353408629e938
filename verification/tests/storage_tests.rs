//! Tests for the store: save and load round trips, listing, existence,
//! deletion, name validation, and the payload codec.

use secrets_manager::errors::VaultError;
use secrets_manager::models::Project;
use secrets_manager::payload::{parse_project, serialize_project};
use secrets_manager::storage::SecretStorage;

#[test]
fn test_save_and_load_project() {
    let storage = SecretStorage::new("vault_root".to_string());

    let mut project = Project::new("test_project".to_string());
    project.add_secret("API_KEY".to_string(), "secret123".to_string());

    let password = "test_password";
    let plan = storage.save_project(&project, password).unwrap();

    let loaded = storage.load_project("test_project", password, Some(&plan.contents)).unwrap();
    assert_eq!(project.name, loaded.name);
    assert_eq!(project.secrets, loaded.secrets);
}

#[test]
fn test_list_projects() {
    let storage = SecretStorage::new("vault_root".to_string());

    let project1 = Project::new("project1".to_string());
    let project2 = Project::new("project2".to_string());

    storage.save_project(&project1, "password").unwrap();
    storage.save_project(&project2, "password").unwrap();

    let entries = vec!["project1.encrypted".to_string(), "project2.encrypted".to_string()];
    let projects = storage.list_projects(&entries);
    assert_eq!(projects.len(), 2);
    assert!(projects.contains(&"project1".to_string()));
    assert!(projects.contains(&"project2".to_string()));
}

#[test]
fn listing_is_sorted_and_ignores_other_files() {
    let storage = SecretStorage::new("root".to_string());
    let entries = vec![
        "b.encrypted".to_string(),
        "notes.txt".to_string(),
        "a.encrypted".to_string(),
        ".encrypted".to_string(),
    ];
    let projects = storage.list_projects(&entries);
    assert_eq!(projects, vec!["a".to_string(), "b".to_string()]);
}

#[test]
fn save_plan_targets_the_project_file_atomically() {
    let storage = SecretStorage::new("root".to_string());
    let project = Project::new("demo".to_string());
    let plan = storage.save_project(&project, "pw").unwrap();
    assert_eq!(plan.path, "root/demo.encrypted");
    assert_eq!(plan.temp_path, "root/demo.encrypted.tmp");
    assert!(!plan.contents.is_empty());
}

#[test]
fn delete_and_exists_are_consistent() {
    let storage = SecretStorage::new("root".to_string());
    let entries = vec!["gone.encrypted".to_string()];
    assert!(storage.project_exists("gone", &entries));

    let path = storage.delete_project("gone", true).unwrap();
    assert_eq!(path, "root/gone.encrypted");

    let entries_after: Vec<String> = Vec::new();
    assert!(!storage.project_exists("gone", &entries_after));
    let err = storage.load_project("gone", "pw", None).unwrap_err();
    assert_eq!(err, VaultError::NotFound);
    let err2 = storage.delete_project("gone", false).unwrap_err();
    assert_eq!(err2, VaultError::NotFound);
}

#[test]
fn traversal_names_are_rejected() {
    let storage = SecretStorage::new("root".to_string());
    for bad in ["../evil", "a/b", "a\\b", "..", ".", ""] {
        let err = storage.get_project_path(bad).unwrap_err();
        assert_eq!(err, VaultError::InvalidName);
    }
    assert!(storage.get_project_path("fine-name").is_ok());
}

#[test]
fn demo_scenario_round_trip_and_wrong_password() {
    let storage = SecretStorage::new("root".to_string());
    let mut project = Project::new("demo".to_string());
    project.add_secret("API_KEY".to_string(), "abc123".to_string());

    let plan = storage.save_project(&project, "Tr0ub4dor&3").unwrap();

    let loaded = storage.load_project("demo", "Tr0ub4dor&3", Some(&plan.contents)).unwrap();
    assert_eq!(loaded.get_secret("API_KEY"), Some("abc123".to_string()));

    let err = storage.load_project("demo", "wrong", Some(&plan.contents)).unwrap_err();
    assert_eq!(err, VaultError::AuthenticationFailed);
}

#[test]
fn payload_codec_round_trips_projects() {
    let mut project = Project::new("unicode \"name\" with \\ and \n control".to_string());
    project.add_secret("GREETING".to_string(), "gr\u{00fc}\u{00df} dich \u{1f4bb}".to_string());
    project.add_secret("EMPTY".to_string(), "".to_string());
    let text = serialize_project(&project);
    let back = parse_project(&text).unwrap();
    assert_eq!(back, project);
}

#[test]
fn payload_parser_rejects_garbage() {
    assert!(parse_project("").is_none());
    assert!(parse_project("{}").is_none());
    assert!(parse_project("{\"name\":\"x\"}").is_none());
}

#[test]
fn project_secret_operations() {
    let mut p = Project::new("ops".to_string());
    assert_eq!(p.get_secret("A"), None);
    p.add_secret("A".to_string(), "1".to_string());
    p.add_secret("B".to_string(), "2".to_string());
    p.add_secret("A".to_string(), "3".to_string());
    assert_eq!(p.get_secret("A"), Some("3".to_string()));
    assert_eq!(p.list_secrets(), vec!["A".to_string(), "B".to_string()]);
    assert_eq!(p.remove_secret("A"), Some("3".to_string()));
    assert_eq!(p.remove_secret("A"), None);
    assert_eq!(p.list_secrets(), vec!["B".to_string()]);
    assert!(p.updated_at >= p.created_at);
}
