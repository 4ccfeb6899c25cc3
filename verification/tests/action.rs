use magicpak::action::bundle_dynamic_dependencies::{open_handler, Opened};
use magicpak::action::emit::{preflight, Destination};
use magicpak::action::exclude_glob::check_pattern;
use magicpak::action::include_glob::{Dependencies, Included};
use magicpak::action::test::test_outcome;
use magicpak::action::{
    bundle_dynamic_dependencies, bundle_executable, bundle_shared_object_dependencies,
    bundle_shared_object_dependencies_noload, compress_exexcutable, emit, exclude_glob,
    include_glob, include_glob_noload, make_directory,
};
use magicpak::base::trace::Exit;
use magicpak::base::Error;
use magicpak::domain::bundle::{EmitAction, Source};
use magicpak::domain::executable::elf::ElfImage;
use magicpak::domain::executable::Host;
use magicpak::domain::{Bundle, BundlePath, Executable};

fn host() -> Host {
    Host { platform: Some(b"x86_64".to_vec()), ld_library_path: None }
}

fn executable(path: &str, interpreter: Option<&str>) -> Executable {
    let image = ElfImage {
        interpreter: interpreter.map(|i| i.as_bytes().to_vec()),
        libraries: vec![b"libc.so.6".to_vec()],
        dyns: vec![],
    };
    Executable::load(path.as_bytes(), image, None, &host()).unwrap()
}

fn keys(bundle: &Bundle) -> Vec<String> {
    bundle.paths().iter().map(|p| String::from_utf8(p.as_bytes().to_vec()).unwrap()).collect()
}

fn copied(bundle: &Bundle, key: &str) -> Option<Vec<u8>> {
    match bundle.get(BundlePath::new(key.as_bytes())) {
        Some(Source::CopyFrom(from)) => Some(from.clone()),
        _ => None,
    }
}

#[test]
fn basic_bundling_takes_the_executable_its_interpreter_and_its_libraries() {
    let exe = executable("/usr/bin/true", Some("/lib64/ld-linux-x86-64.so.2"));
    let mut bundle = Bundle::new();
    let libraries = vec![b"/lib/x86_64-linux-gnu/libc.so.6".to_vec()];
    bundle_shared_object_dependencies(&mut bundle, &exe, &libraries).unwrap();
    bundle_executable(&mut bundle, &exe, b"/usr/bin/true", None).unwrap();
    assert_eq!(
        keys(&bundle),
        vec!["lib64/ld-linux-x86-64.so.2", "lib/x86_64-linux-gnu/libc.so.6", "usr/bin/true"]
    );
    assert_eq!(
        emit(&bundle, b"/tmp/out").unwrap(),
        vec![
            EmitAction::SyncCopy {
                from: b"/lib64/ld-linux-x86-64.so.2".to_vec(),
                to: BundlePath::new(b"lib64/ld-linux-x86-64.so.2").to_path_buf(),
            },
            EmitAction::SyncCopy {
                from: b"/lib/x86_64-linux-gnu/libc.so.6".to_vec(),
                to: BundlePath::new(b"lib/x86_64-linux-gnu/libc.so.6").to_path_buf(),
            },
            EmitAction::SyncCopy {
                from: b"/usr/bin/true".to_vec(),
                to: BundlePath::new(b"usr/bin/true").to_path_buf(),
            },
        ]
    );
}

#[test]
fn dependencies_without_interpreter_are_the_libraries() {
    let exe = executable("/bin/static", None);
    let mut bundle = Bundle::new();
    bundle_shared_object_dependencies_noload(&mut bundle, &exe, &[b"/l/a.so".to_vec()]).unwrap();
    assert_eq!(keys(&bundle), vec!["l/a.so"]);
    bundle_shared_object_dependencies(&mut bundle, &exe, &[]).unwrap();
    assert_eq!(keys(&bundle), vec!["l/a.so"]);
}

#[test]
fn the_executable_is_installed_where_it_was_asked_for() {
    let exe = executable("/home/me/build/hello", Some("/lib64/ld.so"));
    let mut bundle = Bundle::new();
    bundle_executable(&mut bundle, &exe, b"/home/me/build/hello", None).unwrap();
    assert_eq!(copied(&bundle, "home/me/build/hello"), Some(b"/home/me/build/hello".to_vec()));

    let mut bundle = Bundle::new();
    bundle_executable(&mut bundle, &exe, b"/home/me/build/hello", Some(b"/bin/hi")).unwrap();
    assert_eq!(keys(&bundle), vec!["bin/hi"]);
    assert_eq!(copied(&bundle, "bin/hi"), Some(b"/home/me/build/hello".to_vec()));

    let mut bundle = Bundle::new();
    bundle_executable(&mut bundle, &exe, b"/home/me/build/hello", Some(b"/usr/local/bin/")).unwrap();
    assert_eq!(keys(&bundle), vec!["usr/local/bin/hello"]);

    let mut bundle = Bundle::new();
    bundle_executable(&mut bundle, &exe, b"/x", Some(b"")).unwrap();
    assert_eq!(keys(&bundle), vec![""]);
}

#[test]
fn a_directory_is_made_under_its_projection() {
    let mut bundle = Bundle::new();
    make_directory(&mut bundle, b"/var/run");
    make_directory(&mut bundle, b"tmp");
    assert_eq!(keys(&bundle), vec!["var/run", "tmp"]);
    assert_eq!(bundle.get(BundlePath::new(b"var/run")), Some(&Source::NewDirectory));
}

#[test]
fn the_dynamic_probe_adds_the_files_that_exist() {
    let mut bundle = Bundle::new();
    let opened = vec![
        Opened { pathname: b"/etc/ld.so.cache".to_vec(), is_file: true },
        Opened { pathname: b"/etc/magic.conf".to_vec(), is_file: true },
        Opened { pathname: b"/etc/missing.conf".to_vec(), is_file: false },
        Opened { pathname: b"relative.txt".to_vec(), is_file: true },
        Opened { pathname: b"/etc/magic.conf".to_vec(), is_file: true },
    ];
    assert_eq!(bundle_dynamic_dependencies(&mut bundle, &opened, Exit::Status(0)), Ok(()));
    assert_eq!(keys(&bundle), vec!["etc/ld.so.cache", "etc/magic.conf"]);
    assert_eq!(copied(&bundle, "etc/magic.conf"), Some(b"/etc/magic.conf".to_vec()));
}

#[test]
fn the_dynamic_probe_fails_with_the_traced_executable() {
    let mut bundle = Bundle::new();
    let opened = vec![Opened { pathname: b"/etc/passwd".to_vec(), is_file: true }];
    assert_eq!(
        bundle_dynamic_dependencies(&mut bundle, &opened, Exit::Status(1)),
        Err(Error::DynamicFailed(1))
    );
    assert_eq!(keys(&bundle), vec!["etc/passwd"]);
    assert_eq!(
        bundle_dynamic_dependencies(&mut bundle, &[], Exit::Signal(11)),
        Err(Error::DynamicSignaled(11))
    );
    open_handler(&mut bundle, b"/dev/null", false);
    open_handler(&mut bundle, b"/etc/hosts", true);
    assert_eq!(keys(&bundle), vec!["etc/passwd", "etc/hosts"]);
}

#[test]
fn the_destination_has_to_be_empty() {
    assert_eq!(
        preflight(b"/tmp/out", Destination::Directory { empty: false }),
        Err(Error::NonEmptyDestionation(b"/tmp/out".to_vec()))
    );
    assert_eq!(
        preflight(b"/tmp/out", Destination::NotDirectory),
        Err(Error::InvalidDestination(b"/tmp/out".to_vec()))
    );
    assert_eq!(preflight(b"/tmp/out", Destination::Directory { empty: true }), Ok(false));
    assert_eq!(preflight(b"/tmp/out", Destination::Missing), Ok(true));
}

#[test]
fn a_bundle_is_emitted_to_an_absolute_destination() {
    let mut bundle = Bundle::new();
    make_directory(&mut bundle, b"/proc");
    assert_eq!(
        emit(&bundle, b"/tmp/out"),
        Ok(vec![EmitAction::MakeDirectory { path: b"/tmp/out/proc".to_vec() }])
    );
    assert_eq!(emit(&bundle, b"out"), Err(Error::InvalidDestination(b"out".to_vec())));
}

#[test]
fn excluded_entries_leave_the_bundle() {
    let mut bundle = Bundle::new();
    for path in ["/usr/lib/a.so", "/usr/share/doc/a.txt", "/usr/share/man/a.1", "/etc/a.conf"] {
        bundle.add(path.as_bytes().to_vec());
    }
    exclude_glob(&mut bundle, "/usr/share/**/*").unwrap();
    assert_eq!(keys(&bundle), vec!["usr/lib/a.so", "etc/a.conf"]);
    exclude_glob(&mut bundle, "*.conf").unwrap();
    assert_eq!(keys(&bundle), vec!["usr/lib/a.so"]);
    exclude_glob(&mut bundle, "/usr/lib/?.so").unwrap();
    assert!(keys(&bundle).is_empty());
}

#[test]
fn a_pattern_that_matches_nothing_excludes_nothing() {
    let mut bundle = Bundle::new();
    bundle.add(b"/usr/lib/a.so".to_vec());
    exclude_glob(&mut bundle, "usr/lib/a.so").unwrap();
    exclude_glob(&mut bundle, "/usr/lib/b.so").unwrap();
    assert_eq!(keys(&bundle), vec!["usr/lib/a.so"]);
}

#[test]
fn a_text_that_is_no_pattern_is_refused() {
    let mut bundle = Bundle::new();
    bundle.add(b"/usr/lib/a.so".to_vec());
    assert_eq!(
        exclude_glob(&mut bundle, "a**b"),
        Err(Error::InvalidGlobPattern(
            b"recursive wildcards must form a single path component".to_vec()
        ))
    );
    assert_eq!(
        exclude_glob(&mut bundle, "***"),
        Err(Error::InvalidGlobPattern(
            b"wildcards are either regular `*` or recursive `**`".to_vec()
        ))
    );
    assert_eq!(
        exclude_glob(&mut bundle, "[a"),
        Err(Error::InvalidGlobPattern(b"invalid range pattern".to_vec()))
    );
    assert_eq!(keys(&bundle), vec!["usr/lib/a.so"]);
    assert_eq!(check_pattern("/usr/*"), None);
    assert_eq!(check_pattern("[a"), Some(b"invalid range pattern".to_vec()));
    assert_eq!(
        include_glob(&mut bundle, "[a", &[]),
        Err(Error::InvalidGlobPattern(b"invalid range pattern".to_vec()))
    );
}

#[test]
fn included_files_come_with_what_they_depend_on() {
    let mut bundle = Bundle::new();
    let entries = vec![
        Included {
            path: b"/opt/plugins/p.so".to_vec(),
            object: Some(Dependencies {
                interpreter: Some(b"/lib64/ld.so".to_vec()),
                libraries: vec![b"/usr/lib/libz.so.1".to_vec(), b"/usr/lib/libc.so.6".to_vec()],
            }),
        },
        Included { path: b"/opt/plugins/readme".to_vec(), object: None },
        Included {
            path: b"/opt/plugins/q.so".to_vec(),
            object: Some(Dependencies { interpreter: None, libraries: vec![b"/usr/lib/libc.so.6".to_vec()] }),
        },
    ];
    include_glob(&mut bundle, "/opt/plugins/*", &entries).unwrap();
    assert_eq!(
        keys(&bundle),
        vec![
            "lib64/ld.so",
            "usr/lib/libz.so.1",
            "usr/lib/libc.so.6",
            "opt/plugins/p.so",
            "opt/plugins/readme",
            "opt/plugins/q.so",
        ]
    );
    let mut other = Bundle::new();
    include_glob_noload(&mut other, "/opt/plugins/*", &entries).unwrap();
    assert_eq!(keys(&other), keys(&bundle));
    include_glob(&mut other, "/nothing/*", &[]).unwrap();
    assert_eq!(keys(&other), keys(&bundle));
}

#[test]
fn the_test_runs_the_command_in_a_shell() {
    let exe = executable("/home/me/hello", Some("/lib64/ld.so"));
    let mut bundle = Bundle::new();
    bundle_executable(&mut bundle, &exe, b"/home/me/hello", Some(b"/bin/")).unwrap();

    let run = magicpak::action::test::test(&bundle, &exe, None);
    assert_eq!(run.command, b"hello".to_vec());
    assert_eq!(run.shell, b"/bin/sh".to_vec());
    assert_eq!(run.args, vec![b"-c".to_vec(), b"hello".to_vec()]);
    assert_eq!(keys(&run.bundle), vec!["bin/hello", "proc/self/exe"]);
    assert_eq!(copied(&run.bundle, "proc/self/exe"), Some(b"/home/me/hello".to_vec()));
    assert_eq!(keys(&bundle), vec!["bin/hello"]);

    let run = magicpak::action::test::test(&bundle, &exe, Some(b"hello --version"));
    assert_eq!(run.command, b"hello --version".to_vec());
    assert_eq!(run.args, vec![b"-c".to_vec(), b"hello --version".to_vec()]);
}

#[test]
fn the_test_passes_where_the_output_is_the_expected_one() {
    assert_eq!(test_outcome(b"hello", true, b"hi\n", Some(b"hi")), Ok(()));
    assert_eq!(test_outcome(b"hello", true, b"  hi \r\n", Some(b"hi")), Ok(()));
    assert_eq!(test_outcome(b"hello", true, b"anything", None), Ok(()));
    assert_eq!(test_outcome(b"hello", true, b"", Some(b"")), Ok(()));
    assert_eq!(
        test_outcome(b"hello", true, b"a\xffb\n", Some("a\u{fffd}b".as_bytes())),
        Ok(())
    );
}

#[test]
fn the_test_fails_where_the_output_is_another() {
    assert_eq!(
        test_outcome(b"hello", true, b"hi\n", Some(b"hey")),
        Err(Error::TestStdoutMismatch { expected: b"hey".to_vec(), got: b"hi".to_vec() })
    );
    assert_eq!(
        test_outcome(b"hello", true, b"hi\n", Some(b"hi\n")),
        Err(Error::TestStdoutMismatch { expected: b"hi\n".to_vec(), got: b"hi".to_vec() })
    );
    assert_eq!(
        test_outcome(b"hello", false, b"hi\n", Some(b"hi")),
        Err(Error::TestFailed(b"hello".to_vec()))
    );
    assert_eq!(test_outcome(b"x", false, b"", None), Err(Error::TestFailed(b"x".to_vec())));
}

#[test]
fn the_compressed_executable_takes_the_place_of_the_executable() {
    let mut exe = executable("/home/me/hello", Some("/lib64/ld.so"));
    let packed = ElfImage { interpreter: None, libraries: vec![], dyns: vec![] };
    assert_eq!(
        compress_exexcutable(&mut exe, b"tmp".to_vec(), packed.clone(), None, &host()),
        Err(Error::InvalidObjectPath(b"tmp".to_vec()))
    );
    assert_eq!(exe.path(), b"/home/me/hello");
    compress_exexcutable(&mut exe, b"/tmp/.tmpX1".to_vec(), packed, None, &host()).unwrap();
    assert_eq!(exe.path(), b"/tmp/.tmpX1");
    assert_eq!(exe.name(), &b"hello".to_vec());
    assert!(exe.is_temporary());
    assert_eq!(exe.interpreter(), None);

    let mut bundle = Bundle::new();
    bundle_executable(&mut bundle, &exe, b"/home/me/hello", None).unwrap();
    assert_eq!(copied(&bundle, "home/me/hello"), Some(b"/tmp/.tmpX1".to_vec()));
}
