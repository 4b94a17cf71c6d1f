use requirements_core::registry::{Registry, RegistryError};

#[test]
fn registered_project_is_found() {
    let mut reg = Registry::new();
    reg.register_project("alpha".to_string(), "a.yaml".to_string(), "First".to_string());
    reg.register_project("beta".to_string(), "b.yaml".to_string(), "Second".to_string());
    let p = reg.get_project("alpha").unwrap();
    assert_eq!(p.path, "a.yaml");
    assert_eq!(p.description, "First");
    assert!(reg.get_project("gamma").is_none());
    assert_eq!(reg.list_projects(), vec!["alpha", "beta"]);
}

#[test]
fn registering_again_replaces_in_place() {
    let mut reg = Registry::new();
    reg.register_project("alpha".to_string(), "a.yaml".to_string(), "First".to_string());
    reg.register_project("beta".to_string(), "b.yaml".to_string(), "Second".to_string());
    reg.register_project("alpha".to_string(), "new.yaml".to_string(), "Moved".to_string());
    assert_eq!(reg.projects.len(), 2);
    assert_eq!(reg.list_projects(), vec!["alpha", "beta"]);
    assert_eq!(reg.get_project("alpha").unwrap().path, "new.yaml");
}

#[test]
fn default_project_must_be_registered() {
    let mut reg = Registry::new();
    reg.register_project("alpha".to_string(), "a.yaml".to_string(), "First".to_string());
    let err = reg.set_default_project("missing").unwrap_err();
    assert!(matches!(err, RegistryError::ProjectNotFound(ref n) if n == "missing"));
    assert_eq!(err.message(), "Project 'missing' not found in registry");
    assert!(reg.get_default_project().is_none());
    assert!(reg.set_default_project("alpha").is_ok());
    let (name, project) = reg.get_default_project().unwrap();
    assert_eq!(name, "alpha");
    assert_eq!(project.path, "a.yaml");
    reg.clear_default_project();
    assert!(reg.get_default_project().is_none());
}

#[test]
fn default_registry_holds_the_default_project() {
    let reg = Registry::with_default_project();
    assert_eq!(reg.list_projects(), vec!["default"]);
    let p = reg.get_project("default").unwrap();
    assert_eq!(p.path, "requirements.yaml");
    assert_eq!(p.description, "Default project");
    assert!(reg.default_project.is_none());
}
