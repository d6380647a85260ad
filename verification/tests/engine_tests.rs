use devkit::catalog::get_stack_config;
use devkit::catalog::ConfigError;
use devkit::engine::apply_all_stacks;
use devkit::engine::apply_stack_config;
use devkit::engine::generate_makefile;
use devkit::engine::join_path;
use devkit::engine::is_valid_stack;
use devkit::store::FileStore;

fn fragment_of(id: &str) -> String {
    get_stack_config(id).unwrap().files[0].content.clone()
}

fn dockerfile_of(id: &str) -> String {
    get_stack_config(id).unwrap().files[1].content.clone()
}

fn dockerignore_of(id: &str) -> String {
    get_stack_config(id).unwrap().files[2].content.clone()
}

fn header_of(id: &str) -> String {
    format!("# ==== stack: {} ====\n", id)
}

#[test]
fn joins_paths_with_separator() {
    assert_eq!(join_path("out", "Dockerfile"), "out/Dockerfile");
}

#[test]
fn recognizes_catalog_identifiers() {
    assert!(is_valid_stack("vue"));
    assert!(is_valid_stack("nuxt"));
    assert!(is_valid_stack("fastapi"));
    assert!(!is_valid_stack("django"));
    assert!(!is_valid_stack(""));
}

#[test]
fn apply_creates_every_declared_file() {
    let mut store = FileStore::new();
    let written = apply_stack_config("vue", "out", &mut store).unwrap();
    assert_eq!(written, vec!["vue.mk".to_string(), "Dockerfile".to_string(), ".dockerignore".to_string()]);
    assert_eq!(store.lookup("out/vue.mk"), Some(fragment_of("vue")));
    assert_eq!(store.lookup("out/Dockerfile"), Some(dockerfile_of("vue")));
    assert_eq!(store.lookup("out/.dockerignore"), Some(dockerignore_of("vue")));
    assert_eq!(store.lookup("out/Makefile"), None);
}

#[test]
fn apply_twice_is_idempotent_in_content() {
    let mut store = FileStore::new();
    apply_stack_config("nuxt", "out", &mut store).unwrap();
    let first = store.lookup("out/nuxt.mk");
    apply_stack_config("nuxt", "out", &mut store).unwrap();
    assert_eq!(store.lookup("out/nuxt.mk"), first);
    assert_eq!(store.lookup("out/Dockerfile"), Some(dockerfile_of("nuxt")));
    assert_eq!(store.num_entries(), 6);
}

#[test]
fn apply_unknown_stack_leaves_store_untouched() {
    let mut store = FileStore::new();
    let r = apply_stack_config("django", "out", &mut store);
    match r {
        Err(ConfigError::UnknownStack(name)) => assert_eq!(name, "django"),
        _ => panic!("an unknown identifier must be refused"),
    }
    assert_eq!(store.num_entries(), 0);
}

#[test]
fn merged_makefile_delimits_every_fragment() {
    let mut store = FileStore::new();
    let stacks = vec!["vue".to_string(), "nuxt".to_string()];
    generate_makefile(&stacks, "out", &mut store).unwrap();
    let expected = format!(
        "{}{}\n{}{}\n",
        header_of("vue"),
        fragment_of("vue"),
        header_of("nuxt"),
        fragment_of("nuxt")
    );
    assert_eq!(store.lookup("out/Makefile"), Some(expected));
}

#[test]
fn generate_makefile_refuses_unknown_stack() {
    let mut store = FileStore::new();
    let stacks = vec!["vue".to_string(), "flask".to_string()];
    let r = generate_makefile(&stacks, "out", &mut store);
    match r {
        Err(ConfigError::UnknownStack(name)) => assert_eq!(name, "flask"),
        _ => panic!("an unknown identifier must be refused"),
    }
    assert_eq!(store.num_entries(), 0);
}

#[test]
fn apply_all_later_stack_wins_shared_names() {
    let mut store = FileStore::new();
    let stacks = vec!["vue".to_string(), "nuxt".to_string()];
    apply_all_stacks(&stacks, "out", &mut store).unwrap();
    assert_eq!(store.lookup("out/vue.mk"), Some(fragment_of("vue")));
    assert_eq!(store.lookup("out/nuxt.mk"), Some(fragment_of("nuxt")));
    assert_eq!(store.lookup("out/Dockerfile"), Some(dockerfile_of("nuxt")));
    assert_eq!(store.lookup("out/.dockerignore"), Some(dockerignore_of("nuxt")));
    let expected_makefile = format!(
        "{}{}\n{}{}\n",
        header_of("vue"),
        fragment_of("vue"),
        header_of("nuxt"),
        fragment_of("nuxt")
    );
    assert_eq!(store.lookup("out/Makefile"), Some(expected_makefile));
}

#[test]
fn apply_all_skips_unknown_and_reports_first() {
    let mut store = FileStore::new();
    let stacks = vec!["vue".to_string(), "bogus".to_string(), "nuxt".to_string()];
    let r = apply_all_stacks(&stacks, "out", &mut store);
    match r {
        Err(ConfigError::UnknownStack(name)) => assert_eq!(name, "bogus"),
        _ => panic!("the unknown identifier must be reported"),
    }
    assert_eq!(store.lookup("out/vue.mk"), Some(fragment_of("vue")));
    assert_eq!(store.lookup("out/nuxt.mk"), Some(fragment_of("nuxt")));
    let expected_makefile = format!(
        "{}{}\n{}{}\n",
        header_of("vue"),
        fragment_of("vue"),
        header_of("nuxt"),
        fragment_of("nuxt")
    );
    assert_eq!(store.lookup("out/Makefile"), Some(expected_makefile));
}

#[test]
fn sequential_requests_keep_both_fragments() {
    let mut store = FileStore::new();
    apply_all_stacks(&vec!["vue".to_string()], "out", &mut store).unwrap();
    apply_all_stacks(&vec!["nuxt".to_string()], "out", &mut store).unwrap();
    assert_eq!(store.lookup("out/vue.mk"), Some(fragment_of("vue")));
    assert_eq!(store.lookup("out/nuxt.mk"), Some(fragment_of("nuxt")));
    assert_eq!(store.lookup("out/Dockerfile"), Some(dockerfile_of("nuxt")));
    assert_eq!(store.lookup("out/.dockerignore"), Some(dockerignore_of("nuxt")));
    let expected_makefile = format!("{}{}\n", header_of("nuxt"), fragment_of("nuxt"));
    assert_eq!(store.lookup("out/Makefile"), Some(expected_makefile));
}

#[test]
fn store_records_writes_in_order() {
    let mut store = FileStore::new();
    store.write("a".to_string(), "one".to_string());
    store.write("b".to_string(), "two".to_string());
    store.write("a".to_string(), "three".to_string());
    assert_eq!(store.num_entries(), 3);
    assert_eq!(store.entry_path(0), "a");
    assert_eq!(store.entry_content(0), "one");
    assert_eq!(store.entry_path(2), "a");
    assert_eq!(store.lookup("a"), Some("three".to_string()));
    assert_eq!(store.lookup("b"), Some("two".to_string()));
    assert_eq!(store.lookup("c"), None);
}
