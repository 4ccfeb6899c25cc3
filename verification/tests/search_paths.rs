use magicpak::domain::executable::search_paths::{expand_tokens, is_64bit, substitute};
use magicpak::domain::executable::SearchPaths;

#[test]
fn test_substitute() {
    let origin = b"/home/user/";
    let platform = b"x86_64";
    assert_eq!(substitute(b"ORIGIN", origin, platform), origin.to_vec());
    assert_eq!(substitute(b"PLATFORM", origin, platform), platform.to_vec());

    assert_eq!(substitute(b"LIB", origin, b"x86_64"), b"lib64".to_vec());
    assert_eq!(substitute(b"LIB", origin, b"x86"), b"lib".to_vec());

    assert_eq!(substitute(b"WTF", origin, platform), b"$WTF".to_vec());
}

#[test]
fn test_expand_tokens() {
    let origin = "/home/user/";
    let platform = "x86_64";
    let expand = |input: &str| expand_tokens(input.as_bytes(), origin.as_bytes(), platform.as_bytes());
    assert_eq!(expand("$ORIGIN/$LIB"), format!("{}/lib64", origin).into_bytes());
    assert_eq!(expand("${ORIGIN}/${LIB}"), format!("{}/lib64", origin).into_bytes());
    assert_eq!(expand("/$ORIGIN$LIB"), format!("/{}lib64", origin).into_bytes());
    assert_eq!(expand("/lib/$PLATFORM"), format!("/lib/{}", platform).into_bytes());
    assert_eq!(expand("${PLATFORM}${ORIGIN}"), format!("{}{}", platform, origin).into_bytes());
}

#[test]
fn expand_keeps_a_path_without_tokens() {
    assert_eq!(expand_tokens(b"/usr/lib/x86_64-linux-gnu", b"/o", b"x86_64"), b"/usr/lib/x86_64-linux-gnu".to_vec());
    assert_eq!(expand_tokens(b"", b"/o", b"x86_64"), b"".to_vec());
}

#[test]
fn expand_keeps_unknown_tokens() {
    assert_eq!(expand_tokens(b"$X", b"/o", b"x86_64"), b"$X".to_vec());
    assert_eq!(expand_tokens(b"/a/$XYZ/b", b"/o", b"x86_64"), b"/a/$XYZ/b".to_vec());
    assert_eq!(expand_tokens(b"$", b"/o", b"x86_64"), b"$".to_vec());
    assert_eq!(expand_tokens(b"$$", b"/o", b"x86_64"), b"$$".to_vec());
    assert_eq!(expand_tokens(b"${XYZ}", b"/o", b"x86_64"), b"$XYZ".to_vec());
}

#[test]
fn expand_keeps_an_open_brace_without_its_end() {
    assert_eq!(expand_tokens(b"/a/${ORIGIN", b"/o", b"x86_64"), b"/a/${ORIGIN".to_vec());
    assert_eq!(expand_tokens(b"${", b"/o", b"x86_64"), b"${".to_vec());
}

#[test]
fn expand_takes_slashes_and_dollars_inside_braces_as_the_name() {
    assert_eq!(expand_tokens(b"${A/B}", b"/o", b"x86_64"), b"$A/B".to_vec());
    assert_eq!(expand_tokens(b"$ORIGIN{x}", b"/o", b"x86_64"), b"$ORIGIN{x}".to_vec());
}

#[test]
fn lib_directory_follows_the_platform() {
    for platform in ["x86_64", "amd64", "aarch64"] {
        assert_eq!(is_64bit(platform.as_bytes()), Some(true));
        assert_eq!(expand_tokens(b"/usr/$LIB", b"/o", platform.as_bytes()), b"/usr/lib64".to_vec());
    }
    for platform in ["i386", "i686", "x86", "arm"] {
        assert_eq!(is_64bit(platform.as_bytes()), Some(false));
        assert_eq!(expand_tokens(b"/usr/$LIB", b"/o", platform.as_bytes()), b"/usr/lib".to_vec());
    }
    assert_eq!(is_64bit(b"riscv64"), None);
    assert_eq!(expand_tokens(b"/usr/${LIB}", b"/o", b"riscv64"), b"/usr/lib".to_vec());
}

#[test]
fn search_paths_start_unset_and_append_expands() {
    let mut paths = SearchPaths::with_platform(b"/opt/app/bin".to_vec(), Some(b"x86_64".to_vec())).unwrap();
    assert!(paths.rpath().is_none());
    assert!(paths.runpath().is_none());
    assert!(paths.iter_rpaths().is_empty());
    assert!(paths.iter_ld_library_paths().is_empty());

    paths.append_rpath(&[b"$ORIGIN/../lib".to_vec(), b"/usr/$LIB".to_vec()]);
    assert_eq!(
        paths.rpath(),
        Some(&vec![b"/opt/app/bin/../lib".to_vec(), b"/usr/lib64".to_vec()])
    );
    paths.append_rpath(&[b"/more".to_vec()]);
    assert_eq!(
        paths.iter_rpaths(),
        vec![b"/opt/app/bin/../lib".to_vec(), b"/usr/lib64".to_vec(), b"/more".to_vec()]
    );
    assert!(paths.runpath().is_none());

    paths.append_runpath(&[]);
    assert_eq!(paths.runpath(), Some(&vec![]));
    paths.append_ld_library_path(&[b"/ld/${PLATFORM}".to_vec()]);
    assert_eq!(paths.iter_ld_library_paths(), vec![b"/ld/x86_64".to_vec()]);
    assert_eq!(paths.origin(), b"/opt/app/bin");
    assert_eq!(paths.platform(), b"x86_64");
}

#[test]
fn search_paths_need_a_platform() {
    assert_eq!(
        SearchPaths::with_platform(b"/o".to_vec(), None).err(),
        Some(magicpak::base::Error::MissingAuxv)
    );
}

#[test]
fn search_paths_read_the_platform_of_the_process() {
    match SearchPaths::new(b"/opt/app".to_vec()) {
        Ok(paths) => {
            assert_eq!(paths.origin(), b"/opt/app");
            assert!(!paths.platform().is_empty());
            assert!(paths.rpath().is_none());
            assert!(paths.runpath().is_none());
        }
        Err(e) => assert_eq!(e, magicpak::base::Error::MissingAuxv),
    }
}
