use package_registry::package::Package;
use package_registry::registry::Registry;

fn pkg(name: &str, url: &str) -> Package {
    Package::new(String::from(name), String::from(url))
}

#[test]
fn count_starts_at_zero() {
    let reg = Registry::new();
    assert_eq!(reg.count(), 0);
    assert!(reg.get_all().is_empty());
}

#[test]
fn upsert_inserts_fresh_names() {
    let mut reg = Registry::new();
    for i in 0..5 {
        reg.upsert(pkg(&format!("pkg{}", i), &format!("http://host/{}", i)));
    }
    assert_eq!(reg.count(), 5);
    let all = reg.get_all();
    assert_eq!(all.len(), 5);
    for i in 0..5 {
        assert_eq!(all[i].name, format!("pkg{}", i));
        assert_eq!(all[i].url, format!("http://host/{}", i));
    }
}

#[test]
fn upsert_existing_name_keeps_count() {
    let mut reg = Registry::new();
    reg.upsert(pkg("a", "http://one"));
    assert_eq!(reg.count(), 1);
    reg.upsert(pkg("a", "http://two"));
    assert_eq!(reg.count(), 1);
    let all = reg.get_all();
    assert_eq!(all.len(), 1);
    assert_eq!(all[0].name, "a");
    assert_eq!(all[0].url, "http://two");
}

#[test]
fn last_write_wins_per_name() {
    let mut reg = Registry::new();
    reg.upsert(pkg("a", "u1"));
    reg.upsert(pkg("b", "u2"));
    reg.upsert(pkg("a", "u3"));
    reg.upsert(pkg("c", "u4"));
    reg.upsert(pkg("b", "u5"));
    let all = reg.get_all();
    assert_eq!(all.len(), 3);
    let lookup = |n: &str| {
        all.iter()
            .filter(|p| p.name == n)
            .map(|p| p.url.clone())
            .collect::<Vec<_>>()
    };
    assert_eq!(lookup("a"), vec![String::from("u3")]);
    assert_eq!(lookup("b"), vec![String::from("u5")]);
    assert_eq!(lookup("c"), vec![String::from("u4")]);
}

#[test]
fn replacement_keeps_first_insertion_order() {
    let mut reg = Registry::new();
    reg.upsert(pkg("a", "u1"));
    reg.upsert(pkg("b", "u2"));
    reg.upsert(pkg("a", "u3"));
    let all = reg.get_all();
    assert_eq!(all.len(), 2);
    assert_eq!(all[0].name, "a");
    assert_eq!(all[0].url, "u3");
    assert_eq!(all[1].name, "b");
}

#[test]
fn snapshot_is_a_copy() {
    let mut reg = Registry::new();
    reg.upsert(pkg("a", "u1"));
    let all = reg.get_all();
    reg.upsert(pkg("a", "u2"));
    assert_eq!(all[0].url, "u1");
    assert_eq!(reg.get_all()[0].url, "u2");
}

#[test]
fn package_new_and_clone() {
    let p = pkg("n", "u");
    let q = p.clone();
    assert_eq!(q.name, "n");
    assert_eq!(q.url, "u");
}
