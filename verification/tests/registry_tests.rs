use vstabs::project::Project;
use vstabs::registry::{default_projects, Registry, RegistryError};

fn project(id: &str, env: &str) -> Project {
    Project {
        id: id.to_string(),
        name: id.to_string(),
        icon: "x".to_string(),
        env: env.to_string(),
        wsl_distro: None,
        ssh_host: None,
    }
}

fn ids(r: &Registry) -> Vec<String> {
    r.projects().iter().map(|p| p.id.clone()).collect()
}

#[test]
fn default_projects_are_the_four_samples() {
    let ps = default_projects();
    assert_eq!(ps.len(), 4);
    assert_eq!(ps[0].id, "sample-local");
    assert_eq!(ps[0].name, "sample-local");
    assert_eq!(ps[0].icon, "🏠");
    assert_eq!(ps[0].env, "local");
    assert_eq!(ps[0].wsl_distro, None);
    assert_eq!(ps[0].ssh_host, None);
    assert_eq!(ps[1].id, "sample-wsl");
    assert_eq!(ps[1].icon, "🐧");
    assert_eq!(ps[1].env, "wsl");
    assert_eq!(ps[1].wsl_distro.as_deref(), Some("Ubuntu"));
    assert_eq!(ps[2].id, "sample-cloud");
    assert_eq!(ps[2].icon, "☁️");
    assert_eq!(ps[2].env, "ssh");
    assert_eq!(ps[2].ssh_host.as_deref(), Some("my-cloud-host"));
    assert_eq!(ps[3].id, "sample-remote");
    assert_eq!(ps[3].icon, "🖥");
    assert_eq!(ps[3].ssh_host.as_deref(), Some("my-remote-host"));
}

#[test]
fn default_projects_form_a_valid_registry() {
    let r = Registry::from_projects(default_projects()).unwrap();
    assert_eq!(
        ids(&r),
        vec!["sample-local", "sample-wsl", "sample-cloud", "sample-remote"]
    );
}

#[test]
fn from_projects_refuses_a_repeated_id() {
    let e = Registry::from_projects(vec![project("a", "local"), project("b", "local"), project("a", "ssh")])
        .err()
        .unwrap();
    match &e {
        RegistryError::DuplicateId(id) => assert_eq!(id, "a"),
        other => panic!("unexpected {:?}", other),
    }
    assert_eq!(e.to_string(), "project id already registered: a");
}

#[test]
fn add_appends_and_refuses_duplicates() {
    let mut r = Registry::new();
    r.add(project("a", "local")).unwrap();
    r.add(project("b", "wsl")).unwrap();
    assert_eq!(ids(&r), vec!["a", "b"]);
    let e = r.add(project("a", "ssh")).unwrap_err();
    assert!(matches!(e, RegistryError::DuplicateId(ref id) if id == "a"));
    assert_eq!(ids(&r), vec!["a", "b"]);
    assert_eq!(r.projects()[0].env, "local");
}

#[test]
fn update_replaces_in_place() {
    let mut r = Registry::new();
    r.add(project("a", "local")).unwrap();
    r.add(project("b", "local")).unwrap();
    r.add(project("c", "local")).unwrap();
    r.update(project("b", "ssh")).unwrap();
    assert_eq!(ids(&r), vec!["a", "b", "c"]);
    assert_eq!(r.projects()[1].env, "ssh");
    assert_eq!(r.projects()[0].env, "local");
    assert_eq!(r.projects()[2].env, "local");
}

#[test]
fn update_of_unknown_id_is_refused() {
    let mut r = Registry::new();
    r.add(project("a", "local")).unwrap();
    let e = r.update(project("z", "ssh")).unwrap_err();
    assert_eq!(e.to_string(), "no project with id: z");
    assert_eq!(r.projects()[0].env, "local");
}

#[test]
fn remove_keeps_the_order_of_the_others() {
    let mut r = Registry::new();
    for id in ["a", "b", "c", "d"] {
        r.add(project(id, "local")).unwrap();
    }
    r.remove("b").unwrap();
    assert_eq!(ids(&r), vec!["a", "c", "d"]);
    let e = r.remove("b").unwrap_err();
    assert!(matches!(e, RegistryError::NotFound(ref id) if id == "b"));
    assert_eq!(ids(&r), vec!["a", "c", "d"]);
}

#[test]
fn add_then_remove_restores_the_registry() {
    let mut r = Registry::from_projects(default_projects()).unwrap();
    let before = ids(&r);
    r.add(project("new-tab", "local")).unwrap();
    r.remove("new-tab").unwrap();
    assert_eq!(ids(&r), before);
}

#[test]
fn reorder_puts_projects_in_the_given_order() {
    let mut r = Registry::from_projects(default_projects()).unwrap();
    let order: Vec<String> = ["sample-remote", "sample-local", "sample-cloud", "sample-wsl"]
        .iter()
        .map(|s| s.to_string())
        .collect();
    r.reorder(order.clone()).unwrap();
    assert_eq!(ids(&r), order);
    assert_eq!(r.projects()[0].ssh_host.as_deref(), Some("my-remote-host"));
    assert_eq!(r.projects()[3].wsl_distro.as_deref(), Some("Ubuntu"));
}

#[test]
fn reorder_refuses_orders_that_do_not_name_every_project_once() {
    let mut r = Registry::from_projects(vec![project("a", "local"), project("b", "local")]).unwrap();
    let s = |v: &[&str]| v.iter().map(|x| x.to_string()).collect::<Vec<String>>();
    for bad in [s(&["a"]), s(&["a", "b", "c"]), s(&["a", "a"]), s(&["a", "z"])] {
        let e = r.reorder(bad).unwrap_err();
        assert!(matches!(e, RegistryError::OrderMismatch));
        assert_eq!(e.to_string(), "the new order must list every project exactly once");
        assert_eq!(ids(&r), vec!["a", "b"]);
    }
}

#[test]
fn into_projects_gives_the_list_back() {
    let r = Registry::from_projects(default_projects()).unwrap();
    let ps = r.into_projects();
    assert_eq!(ps.len(), 4);
    assert_eq!(ps[1].id, "sample-wsl");
}

#[test]
fn project_clone_is_equal_field_by_field() {
    let p = default_projects().remove(2);
    let q = p.clone();
    assert_eq!(q.id, p.id);
    assert_eq!(q.ssh_host, p.ssh_host);
    assert_eq!(q.wsl_distro, p.wsl_distro);
}

#[test]
fn from_projects_names_the_first_repeat() {
    let e = Registry::from_projects(vec![
        project("a", "local"),
        project("b", "local"),
        project("b", "ssh"),
        project("a", "ssh"),
    ])
    .err()
    .unwrap();
    assert!(matches!(e, RegistryError::DuplicateId(ref id) if id == "b"));
}

#[test]
fn reorder_keeps_every_project() {
    let mut r = Registry::from_projects(default_projects()).unwrap();
    let order: Vec<String> = ["sample-cloud", "sample-wsl", "sample-remote", "sample-local"]
        .iter()
        .map(|s| s.to_string())
        .collect();
    r.reorder(order).unwrap();
    let mut got = ids(&r);
    got.sort();
    let mut want: Vec<String> = default_projects().into_iter().map(|p| p.id).collect();
    want.sort();
    assert_eq!(got, want);
}
