use devkit::catalog::get_available_stacks;
use devkit::catalog::get_stack_config;
use devkit::catalog::ConfigError;

#[test]
fn lists_stacks_in_fixed_order() {
    let stacks = get_available_stacks();
    assert_eq!(stacks, vec!["vue".to_string(), "nuxt".to_string(), "fastapi".to_string()]);
}

#[test]
fn resolves_vue_descriptor() {
    let c = get_stack_config("vue").unwrap();
    assert_eq!(c.name, "Vue");
    assert_eq!(c.description, "Vue 3 application with TypeScript");
    assert_eq!(c.files.len(), 3);
    assert_eq!(c.files[0].path, "vue.mk");
    assert_eq!(c.files[1].path, "Dockerfile");
    assert_eq!(c.files[2].path, ".dockerignore");
    assert_eq!(
        c.files[0].content,
        "vue-install:\n\tnpm install\n\nvue-dev:\n\tnpm run dev\n\nvue-build:\n\tnpm run build\n"
    );
    assert!(!c.files[1].content.is_empty());
    assert!(!c.files[2].content.is_empty());
}

#[test]
fn resolves_each_catalog_stack() {
    for id in ["vue", "nuxt", "fastapi"] {
        let c = get_stack_config(id).unwrap();
        assert_eq!(c.files.len(), 3);
        assert_eq!(c.files[0].path, format!("{}.mk", id));
        assert_eq!(c.files[1].path, "Dockerfile");
        assert_eq!(c.files[2].path, ".dockerignore");
    }
}

#[test]
fn rejects_unknown_stack() {
    let r = get_stack_config("rails");
    match r {
        Err(ConfigError::UnknownStack(name)) => assert_eq!(name, "rails"),
        _ => panic!("an unknown identifier must be refused"),
    }
}

#[test]
fn rejects_empty_identifier() {
    assert!(get_stack_config("").is_err());
}
