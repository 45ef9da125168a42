use pymanifest::manifest::{
    dependency_names, hyphenate, is_reserved_key, license_source, poetry_dependency_name,
    poetry_dependency_names,
};
use pymanifest::{LicenseWeights, Poetry, Project, Pyproject, OBSERVED};

fn strings(items: &[&str]) -> Vec<String> {
    items.iter().map(|s| s.to_string()).collect()
}

fn text(s: &str) -> Option<String> {
    Some(s.to_string())
}

fn manifest(project_deps: Option<&[&str]>, poetry_keys: Option<&[&str]>) -> Pyproject {
    Pyproject {
        project: Project { name: None, license: None, dependencies: project_deps.map(strings) },
        poetry: Poetry { name: None, license: None, dependencies: poetry_keys.map(strings) },
    }
}

#[test]
fn the_default_manifest_declares_nothing() {
    let mut m = Pyproject::default();
    assert_eq!(m.get_name(), None);
    assert_eq!(m.license_text(), None);
    assert!(m.get_dependencies().is_none());
}

#[test]
fn the_name_of_the_project_table_comes_first() {
    let mut m = Pyproject::default();
    m.project.name = text("from-project");
    m.poetry.name = text("from-poetry");
    assert_eq!(m.get_name(), text("from-project"));
    assert_eq!(m.project.name, None);
    assert_eq!(m.poetry.name, text("from-poetry"));
}

#[test]
fn the_poetry_name_stands_in() {
    let mut m = Pyproject::default();
    m.poetry.name = text("from-poetry");
    assert_eq!(m.get_name(), text("from-poetry"));
    assert_eq!(m.poetry.name, None);
    assert_eq!(m.get_name(), None);
}

#[test]
fn a_name_is_taken_once() {
    let mut m = Pyproject::default();
    m.project.name = text("only");
    assert_eq!(m.get_name(), text("only"));
    assert_eq!(m.get_name(), None);
    assert_eq!(m.get_name(), None);
}

#[test]
fn taking_the_name_leaves_the_rest() {
    let mut m = manifest(Some(&["requests"]), Some(&["click"]));
    m.project.name = text("n");
    m.project.license = text("MIT");
    m.poetry.license = text("Apache-2.0");
    assert_eq!(m.get_name(), text("n"));
    assert_eq!(m.project.license, text("MIT"));
    assert_eq!(m.poetry.license, text("Apache-2.0"));
    assert_eq!(m.project.dependencies, Some(strings(&["requests"])));
    assert_eq!(m.poetry.dependencies, Some(strings(&["click"])));
}

#[test]
fn the_license_of_the_project_table_comes_first() {
    let mut m = Pyproject::default();
    m.project.license = text("MIT");
    m.poetry.license = text("GPL-3.0-only");
    assert_eq!(m.license_text(), Some(&"MIT".to_string()));
    assert_eq!(m.license_text(), Some(&"MIT".to_string()));
    m.project.license = None;
    assert_eq!(m.license_text(), Some(&"GPL-3.0-only".to_string()));
    m.poetry.license = None;
    assert_eq!(m.license_text(), None);
}

#[test]
fn each_thing_is_chosen_by_itself() {
    let mut m = manifest(None, Some(&["Django"]));
    m.project.name = text("from-project");
    m.poetry.license = text("BSD-3-Clause");
    assert_eq!(m.license_text(), Some(&"BSD-3-Clause".to_string()));
    assert_eq!(m.get_name(), text("from-project"));
    assert_eq!(m.get_dependencies().unwrap().names(), &vec!["django"]);
}

#[test]
fn project_dependencies_are_normalized() {
    let mut m = manifest(
        Some(&[
            "Click>=7.0",
            "requests",
            "tomli;python_version<'3.11'",
            "# not a dependency",
            "",
            "some_package.name",
            "requests[security]",
        ]),
        None,
    );
    let deps = m.get_dependencies().unwrap();
    assert_eq!(deps.names(), &vec!["click", "requests", "some-package-name", "tomli"]);
    assert_eq!(m.project.dependencies, None);
}

#[test]
fn project_dependencies_alone_count() {
    let mut m = manifest(Some(&["requests"]), Some(&["django", "flask"]));
    let deps = m.get_dependencies().unwrap();
    assert_eq!(deps.names(), &vec!["requests"]);
    assert_eq!(m.project.dependencies, None);
    assert_eq!(m.poetry.dependencies, Some(strings(&["django", "flask"])));
}

#[test]
fn an_empty_project_list_still_counts() {
    let mut m = manifest(Some(&[]), Some(&["django"]));
    let deps = m.get_dependencies().unwrap();
    assert_eq!(deps.len(), 0);
    assert_eq!(m.poetry.dependencies, Some(strings(&["django"])));
}

#[test]
fn poetry_keys_stand_in() {
    let mut m = manifest(None, Some(&["python", "Django", "typing_extensions", "zope.interface"]));
    let deps = m.get_dependencies().unwrap();
    assert_eq!(deps.names(), &vec!["django", "typing-extensions", "zope-interface"]);
    assert_eq!(m.poetry.dependencies, None);
    assert!(m.get_dependencies().is_none());
}

#[test]
fn the_python_key_is_no_dependency() {
    let mut m = manifest(None, Some(&["requests", "python"]));
    let deps = m.get_dependencies().unwrap();
    assert!(!deps.contains(&"python".to_string()));
    assert_eq!(deps.names(), &vec!["requests"]);

    let mut only = manifest(None, Some(&["python"]));
    let deps = only.get_dependencies().unwrap();
    assert_eq!(deps.len(), 0);
}

#[test]
fn only_the_exact_key_is_reserved() {
    assert!(is_reserved_key(&"python".to_string()));
    assert!(!is_reserved_key(&"Python".to_string()));
    assert!(!is_reserved_key(&"python3".to_string()));
    assert!(!is_reserved_key(&"pytho".to_string()));
    assert!(!is_reserved_key(&"".to_string()));
    let names = poetry_dependency_names(strings(&["python-dateutil", "python"]));
    assert_eq!(names.names(), &vec!["python-dateutil"]);
}

#[test]
fn no_dependencies_is_not_the_empty_set() {
    let mut none = manifest(None, None);
    assert!(none.get_dependencies().is_none());
    let mut empty = manifest(None, Some(&[]));
    let deps = empty.get_dependencies();
    assert!(deps.is_some());
    assert_eq!(deps.unwrap().len(), 0);
}

#[test]
fn dependencies_are_taken_once() {
    let mut m = manifest(Some(&["requests"]), Some(&["django"]));
    assert_eq!(m.get_dependencies().unwrap().names(), &vec!["requests"]);
    assert_eq!(m.get_dependencies().unwrap().names(), &vec!["django"]);
    assert!(m.get_dependencies().is_none());
}

#[test]
fn poetry_keys_are_not_read_as_specifiers() {
    let names = poetry_dependency_names(strings(&["boto3", "Py2Neo", "a--b", "x>=1"]));
    assert_eq!(names.names(), &vec!["a--b", "boto3", "py2neo", "x>=1"]);
}

#[test]
fn a_poetry_key_is_lowered_and_hyphenated() {
    assert_eq!(poetry_dependency_name("Django_REST.Framework"), "django-rest-framework");
    assert_eq!(poetry_dependency_name("requests"), "requests");
    assert_eq!(poetry_dependency_name("ÉCOLE_X"), "école-x");
    assert_eq!(poetry_dependency_name(""), "");
}

#[test]
fn hyphenate_rewrites_two_separators() {
    assert_eq!(hyphenate("a_b.c-d"), "a-b-c-d");
    assert_eq!(hyphenate("__..--"), "------");
    assert_eq!(hyphenate("Plain"), "Plain");
    assert_eq!(hyphenate(""), "");
    assert_eq!(hyphenate("x_京.y"), "x-京-y");
}

#[test]
fn dependency_names_drops_what_has_no_name() {
    let names = dependency_names(strings(&["", "#x", "B", "a", "B==1", "  ", "-r more.txt"]));
    assert_eq!(names.names(), &vec!["a", "b"]);
    assert_eq!(dependency_names(Vec::new()).len(), 0);
}

#[test]
fn the_license_source_names_the_manifest() {
    assert_eq!(license_source(), "pyproject.toml");
}

#[test]
fn load_license_records_each_identifier() {
    let mut m = Pyproject::default();
    m.project.license = text("MIT OR Apache-2.0");
    let mut licenses = LicenseWeights::new();
    m.load_license(
        |text, label| {
            assert_eq!(text, "MIT OR Apache-2.0");
            assert_eq!(label, "pyproject.toml");
            strings(&["MIT", "Apache-2.0"])
        },
        &mut licenses,
    );
    assert_eq!(licenses.identifiers(), &vec!["Apache-2.0", "MIT"]);
    assert_eq!(licenses.get(&"MIT".to_string()), Some(OBSERVED));
    assert_eq!(licenses.get(&"Apache-2.0".to_string()), Some(OBSERVED));
    assert_eq!(licenses.get(&"GPL-3.0-only".to_string()), None);
}

#[test]
fn load_license_reads_the_poetry_license_second() {
    let mut m = Pyproject::default();
    m.poetry.license = text("ISC");
    let mut asked = Vec::new();
    let mut licenses = LicenseWeights::new();
    m.load_license(
        |text, _| {
            asked.push(text.to_string());
            strings(&[text])
        },
        &mut licenses,
    );
    m.project.license = text("MIT");
    m.load_license(
        |text, _| {
            asked.push(text.to_string());
            strings(&[text])
        },
        &mut licenses,
    );
    assert_eq!(asked, strings(&["ISC", "MIT"]));
    assert_eq!(licenses.identifiers(), &vec!["ISC", "MIT"]);
}

#[test]
fn load_license_without_a_license_changes_nothing() {
    let m = Pyproject::default();
    let mut called = false;
    let mut licenses = LicenseWeights::new();
    licenses.insert("ISC".to_string(), 5);
    m.load_license(
        |_, _| {
            called = true;
            strings(&["MIT"])
        },
        &mut licenses,
    );
    assert!(!called);
    assert_eq!(licenses.identifiers(), &vec!["ISC"]);
    assert_eq!(licenses.get(&"ISC".to_string()), Some(5));
}

#[test]
fn load_license_with_nothing_read_changes_nothing() {
    let mut m = Pyproject::default();
    m.poetry.license = text("no such license");
    let mut licenses = LicenseWeights::new();
    licenses.insert("ISC".to_string(), 5);
    m.load_license(|_, _| Vec::new(), &mut licenses);
    assert_eq!(licenses.identifiers(), &vec!["ISC"]);
    assert_eq!(licenses.get(&"ISC".to_string()), Some(5));
}

#[test]
fn load_license_replaces_an_earlier_weight() {
    let mut m = Pyproject::default();
    m.project.license = text("MIT");
    let mut licenses = LicenseWeights::new();
    licenses.insert("MIT".to_string(), 40);
    licenses.insert("Zlib".to_string(), 2);
    m.load_license(|_, _| strings(&["MIT"]), &mut licenses);
    assert_eq!(licenses.get(&"MIT".to_string()), Some(1));
    assert_eq!(licenses.get(&"Zlib".to_string()), Some(2));
}

#[test]
fn a_license_seen_twice_weighs_one() {
    let mut first = Pyproject::default();
    first.project.license = text("MIT");
    let mut second = Pyproject::default();
    second.poetry.license = text("MIT");
    let mut licenses = LicenseWeights::new();
    first.load_license(|_, _| strings(&["MIT"]), &mut licenses);
    assert_eq!(licenses.get(&"MIT".to_string()), Some(1));
    second.load_license(|_, _| strings(&["MIT"]), &mut licenses);
    assert_eq!(licenses.get(&"MIT".to_string()), Some(1));
    assert_eq!(licenses.identifiers().len(), 1);
}
