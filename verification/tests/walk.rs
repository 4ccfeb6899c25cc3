use magicpak::domain::executable::elf::ElfImage;
use magicpak::domain::executable::Host;
use magicpak::domain::Executable;

fn object(path: &str, interpreter: bool, needs: &[&str]) -> Executable {
    let image = ElfImage {
        interpreter: if interpreter { Some(b"/lib64/ld.so".to_vec()) } else { None },
        libraries: needs.iter().map(|s| s.as_bytes().to_vec()).collect(),
        dyns: vec![],
    };
    let host = Host { platform: Some(b"x86_64".to_vec()), ld_library_path: None };
    Executable::load(path.as_bytes(), image, None, &host).unwrap()
}

/// Walks the libraries of an executable, where `graph` says what each
/// library needs.
fn walk(root: &Executable, graph: &[(&str, bool, &[&str])]) -> Vec<(String, String)> {
    let mut asked = Vec::new();
    let mut walk = root.dynamic_libraries();
    loop {
        let (by, soname) = match walk.pending() {
            Some((exe, soname)) => (
                String::from_utf8(exe.name().clone()).unwrap(),
                String::from_utf8(soname.to_vec()).unwrap(),
            ),
            None => break,
        };
        let (name, interpreter, needs) = graph.iter().find(|(n, _, _)| *n == soname).unwrap();
        let path = format!("/usr/lib/{}", name);
        asked.push((by, soname.clone()));
        walk.resolved(path.clone().into_bytes(), object(&path, *interpreter, needs));
    }
    let found: Vec<String> =
        walk.paths().iter().map(|p| String::from_utf8(p.clone()).unwrap()).collect();
    let asked_paths: Vec<String> = asked.iter().map(|(_, s)| format!("/usr/lib/{}", s)).collect();
    assert_eq!(found, asked_paths);
    assert_eq!(walk.into_paths().len(), asked.len());
    asked
}

fn pair(a: &str, b: &str) -> (String, String) {
    (a.to_string(), b.to_string())
}

#[test]
fn libraries_are_walked_depth_first() {
    let graph: &[(&str, bool, &[&str])] = &[
        ("a.so", true, &["c.so", "d.so"]),
        ("b.so", true, &[]),
        ("c.so", true, &["e.so"]),
        ("d.so", true, &[]),
        ("e.so", true, &[]),
    ];
    let root = object("/bin/tool", true, &["a.so", "b.so"]);
    assert_eq!(
        walk(&root, graph),
        vec![
            pair("tool", "a.so"),
            pair("a.so", "c.so"),
            pair("c.so", "e.so"),
            pair("a.so", "d.so"),
            pair("tool", "b.so"),
        ]
    );
}

#[test]
fn a_library_that_two_need_is_walked_twice() {
    let graph: &[(&str, bool, &[&str])] =
        &[("a.so", true, &["c.so"]), ("b.so", true, &["c.so"]), ("c.so", true, &[])];
    let root = object("/bin/tool", true, &["a.so", "b.so"]);
    assert_eq!(
        walk(&root, graph),
        vec![pair("tool", "a.so"), pair("a.so", "c.so"), pair("tool", "b.so"), pair("b.so", "c.so")]
    );
}

#[test]
fn nothing_is_looked_up_for_an_object_without_interpreter() {
    let root = object("/bin/static", false, &["a.so"]);
    let mut walk = root.dynamic_libraries();
    assert!(walk.pending().is_none());
    walk.resolved(b"/x".to_vec(), object("/x", true, &[]));
    assert!(walk.paths().is_empty());

    let graph: &[(&str, bool, &[&str])] = &[("a.so", false, &["hidden.so"]), ("b.so", true, &[])];
    let root = object("/bin/tool", true, &["a.so", "b.so"]);
    assert_eq!(self::walk(&root, graph), vec![pair("tool", "a.so"), pair("tool", "b.so")]);
}

#[test]
fn an_executable_without_libraries_has_an_empty_walk() {
    let root = object("/bin/tool", true, &[]);
    let walk = root.dynamic_libraries();
    assert!(walk.pending().is_none());
    assert!(walk.into_paths().is_empty());
}
