use std::collections::BTreeMap;

use magicpak::base::path::parent;
use magicpak::domain::bundle::{sync_copy, EmitAction, HostFile, Source, SyncAction, SyncStep};
use magicpak::domain::{Bundle, BundlePath};

#[derive(Debug, Clone, PartialEq, Eq)]
enum Node {
    Dir,
    File(Vec<u8>),
    Link(Vec<u8>),
}

/// A file system in memory, on which the actions of the library are carried
/// out as the program carries them out on a disk.
#[derive(Debug, Default)]
struct Disk {
    nodes: BTreeMap<Vec<u8>, Node>,
}

impl Disk {
    fn write(&mut self, path: &[u8], content: &[u8]) {
        self.nodes.insert(path.to_vec(), Node::File(content.to_vec()));
    }

    fn symlink(&mut self, target: &[u8], link: &[u8]) {
        self.nodes.insert(link.to_vec(), Node::Link(target.to_vec()));
    }

    fn make_dirs(&mut self, path: &[u8]) {
        let mut dir = Some(path.to_vec());
        while let Some(d) = dir {
            if d.is_empty() {
                break;
            }
            self.nodes.entry(d.clone()).or_insert(Node::Dir);
            dir = parent(&d);
        }
    }

    fn probe(&self, path: &[u8]) -> HostFile {
        match self.nodes.get(path) {
            None | Some(Node::Dir) => HostFile::Missing,
            Some(Node::Link(target)) => HostFile::Link(target.clone()),
            Some(Node::File(_)) => HostFile::File,
        }
    }

    fn held_link(&self, path: &[u8]) -> Option<Vec<u8>> {
        match self.nodes.get(path) {
            Some(Node::Link(target)) => Some(target.clone()),
            _ => None,
        }
    }

    /// The content of the file that a path leads to, through links.
    fn read(&self, path: &[u8]) -> Option<Vec<u8>> {
        let mut at = path.to_vec();
        for _ in 0..16 {
            match self.nodes.get(&at)? {
                Node::File(content) => return Some(content.clone()),
                Node::Link(target) => at = target.clone(),
                Node::Dir => return None,
            }
        }
        None
    }

    fn sync_copy(&mut self, from: &[u8], to: BundlePath<'_>, dest: &[u8]) {
        let mut from = from.to_vec();
        let mut to = to.to_path_buf();
        loop {
            let target = to.reify(dest);
            let source = self.probe(&from);
            let held = self.held_link(&target);
            let step: SyncStep = sync_copy(&from, to.as_path(), dest, &source, held.as_deref());
            assert_eq!(step.target, target);
            if let Some(dir) = &step.parent {
                self.make_dirs(dir);
            }
            match step.action {
                SyncAction::Skip => return,
                SyncAction::Copy => {
                    let content = self.read(&from).unwrap();
                    self.write(&step.target, &content);
                    return;
                }
                SyncAction::Link { link_dest, create, next_to } => {
                    if create {
                        assert!(!self.nodes.contains_key(&step.target));
                        self.symlink(&link_dest, &step.target);
                    }
                    from = link_dest;
                    to = next_to;
                }
            }
        }
    }

    fn emit(&mut self, bundle: &Bundle, dest: &[u8]) {
        for action in bundle.emit(dest) {
            match action {
                EmitAction::MakeDirectory { path } => self.make_dirs(&path),
                EmitAction::WriteFile { path, parent, content } => {
                    if let Some(dir) = parent {
                        self.make_dirs(&dir);
                    }
                    self.write(&path, &content);
                }
                EmitAction::SyncCopy { from, to } => self.sync_copy(&from, to.as_path(), dest),
            }
        }
    }

    /// What lies under a destination, without the directories.
    fn tree(&self, dest: &[u8]) -> Vec<(Vec<u8>, Node)> {
        self.nodes
            .iter()
            .filter(|(path, node)| path.starts_with(dest) && **node != Node::Dir)
            .map(|(path, node)| (path.clone(), node.clone()))
            .collect()
    }
}

#[test]
fn test_sync_copy() {
    let mut disk = Disk::default();
    disk.write(b"/tmp/src/x.txt", b"hello");
    let bundle_path = BundlePath::new(b"a/b/c.txt");
    disk.sync_copy(b"/tmp/src/x.txt", bundle_path, b"/dest");
    assert_eq!(disk.read(b"/dest/a/b/c.txt"), Some(b"hello".to_vec()));
    assert_eq!(disk.nodes.get(&b"/dest/a/b".to_vec()), Some(&Node::Dir));
}

#[test]
fn test_sync_copy_nonexistent() {
    let mut disk = Disk::default();
    let bundle_path = BundlePath::new(b"a/b/c.txt");
    disk.sync_copy(b"/tmp/src/nonexistent.txt", bundle_path, b"/dest");
    assert!(!disk.nodes.contains_key(&b"/dest/a/b/c.txt".to_vec()));
    assert_eq!(disk.nodes.get(&b"/dest/a/b".to_vec()), Some(&Node::Dir));
}

#[test]
fn test_sync_copy_link() {
    let mut disk = Disk::default();
    disk.write(b"/tmp/src/x.txt", b"hello");
    disk.symlink(b"/tmp/src/x.txt", b"/tmp/src/y.txt");

    let bundle_path = BundlePath::new(b"a/b/c.txt");
    disk.sync_copy(b"/tmp/src/y.txt", bundle_path, b"/dest");

    assert!(matches!(disk.nodes.get(&b"/dest/a/b/c.txt".to_vec()), Some(Node::Link(_))));
    assert_eq!(
        disk.nodes.get(&b"/dest/a/b/c.txt".to_vec()),
        Some(&Node::Link(b"/tmp/src/x.txt".to_vec()))
    );
    assert_eq!(disk.read(b"/dest/a/b/c.txt"), Some(b"hello".to_vec()));

    let bundle_src_path = b"/dest/tmp/src/x.txt".to_vec();
    assert_eq!(disk.nodes.get(&bundle_src_path), Some(&Node::File(b"hello".to_vec())));
}

#[test]
fn test_mkdir() {
    let mut disk = Disk::default();
    let mut bundle = Bundle::new();
    bundle.mkdir(BundlePath::new(b"dir/dirdir"));
    disk.emit(&bundle, b"/dest");

    assert_eq!(disk.nodes.get(&b"/dest/dir/dirdir".to_vec()), Some(&Node::Dir));
    assert_eq!(
        bundle.emit(b"/dest"),
        vec![EmitAction::MakeDirectory { path: b"/dest/dir/dirdir".to_vec() }]
    );
}

#[test]
fn test_add_file() {
    let mut disk = Disk::default();
    let mut bundle = Bundle::new();
    bundle.add_file(BundlePath::new(b"dir/text.txt"), b"hello".to_vec());
    disk.emit(&bundle, b"/dest");

    assert_eq!(disk.read(b"/dest/dir/text.txt"), Some(b"hello".to_vec()));
    assert_eq!(
        bundle.emit(b"/dest"),
        vec![EmitAction::WriteFile {
            path: b"/dest/dir/text.txt".to_vec(),
            parent: Some(b"/dest/dir".to_vec()),
            content: b"hello".to_vec(),
        }]
    );
}

#[test]
fn test_add_file_from() {
    let mut disk = Disk::default();
    disk.write(b"/tmp/src/x.txt", b"hello");

    let mut bundle = Bundle::new();
    bundle.add_file_from(BundlePath::new(b"dir/text.txt"), b"/tmp/src/x.txt");
    disk.emit(&bundle, b"/dest");

    assert_eq!(disk.read(b"/dest/dir/text.txt"), Some(b"hello".to_vec()));
    assert_eq!(
        bundle.emit(b"/dest"),
        vec![EmitAction::SyncCopy {
            from: b"/tmp/src/x.txt".to_vec(),
            to: BundlePath::new(b"dir/text.txt").to_path_buf(),
        }]
    );
}

#[test]
fn test_filter() {
    let mut disk = Disk::default();

    let mut bundle = Bundle::new();
    bundle.add_file(BundlePath::new(b"a.txt"), b"hello1".to_vec());
    bundle.add_file(BundlePath::new(b"b.txt"), b"hello2".to_vec());
    bundle.filter(|path| path.to_str_lossy().contains("a"));
    disk.emit(&bundle, b"/dest");

    assert_eq!(disk.read(b"/dest/a.txt"), Some(b"hello1".to_vec()));
    assert!(!disk.nodes.contains_key(&b"/dest/b.txt".to_vec()));
    assert_eq!(bundle.len(), 1);
}

#[test]
fn test_chained_sync_copy_link() {
    // z.txt -> y.txt -> x.txt
    // and more than one of these paths are added to bundle
    let mut disk = Disk::default();
    disk.write(b"/tmp/src/x.txt", b"hello");
    disk.symlink(b"/tmp/src/x.txt", b"/tmp/src/y.txt");
    disk.symlink(b"/tmp/src/y.txt", b"/tmp/src/z.txt");

    disk.sync_copy(b"/tmp/src/x.txt", BundlePath::projection(b"/tmp/src/x.txt"), b"/dest");
    disk.sync_copy(b"/tmp/src/y.txt", BundlePath::projection(b"/tmp/src/y.txt"), b"/dest");
    disk.sync_copy(b"/tmp/src/z.txt", BundlePath::projection(b"/tmp/src/z.txt"), b"/dest");

    assert_eq!(
        disk.nodes.get(&b"/dest/tmp/src/y.txt".to_vec()),
        Some(&Node::Link(b"/tmp/src/x.txt".to_vec()))
    );
    assert_eq!(
        disk.nodes.get(&b"/dest/tmp/src/z.txt".to_vec()),
        Some(&Node::Link(b"/tmp/src/y.txt".to_vec()))
    );
    assert_eq!(
        disk.nodes.get(&b"/dest/tmp/src/x.txt".to_vec()),
        Some(&Node::File(b"hello".to_vec()))
    );
}

#[test]
fn a_link_chain_is_kept_when_only_its_first_link_is_added() {
    let mut disk = Disk::default();
    disk.write(b"/h/x", b"bytes");
    disk.symlink(b"/h/x", b"/h/y");
    disk.symlink(b"/h/y", b"/h/z");

    let mut bundle = Bundle::new();
    bundle.add(b"/h/z".to_vec());
    disk.emit(&bundle, b"/out");

    assert_eq!(
        disk.tree(b"/out"),
        vec![
            (b"/out/h/x".to_vec(), Node::File(b"bytes".to_vec())),
            (b"/out/h/y".to_vec(), Node::Link(b"/h/x".to_vec())),
            (b"/out/h/z".to_vec(), Node::Link(b"/h/y".to_vec())),
        ]
    );
}

#[test]
fn a_relative_link_is_taken_from_the_directory_of_the_link() {
    let source = HostFile::Link(b"../lib/libc-2.31.so".to_vec());
    let step = sync_copy(
        b"/usr/lib64/libc.so.6",
        BundlePath::projection(b"/usr/lib64/libc.so.6"),
        b"/out",
        &source,
        None,
    );
    assert_eq!(step.target, b"/out/usr/lib64/libc.so.6".to_vec());
    assert_eq!(step.parent, Some(b"/out/usr/lib64".to_vec()));
    assert_eq!(
        step.action,
        SyncAction::Link {
            link_dest: b"/usr/lib64/../lib/libc-2.31.so".to_vec(),
            create: true,
            next_to: BundlePath::new(b"usr/lib64/../lib/libc-2.31.so").to_path_buf(),
        }
    );
}

#[test]
fn a_link_that_is_there_already_is_not_made_again() {
    let source = HostFile::Link(b"/h/x".to_vec());
    let there = sync_copy(b"/h/y", BundlePath::new(b"h/y"), b"/out", &source, Some(b"/h/x"));
    assert!(matches!(there.action, SyncAction::Link { create: false, .. }));
    let other = sync_copy(b"/h/y", BundlePath::new(b"h/y"), b"/out", &source, Some(b"/h/w"));
    assert!(matches!(other.action, SyncAction::Link { create: true, .. }));
    let missing = sync_copy(b"/h/y", BundlePath::new(b"h/y"), b"/out", &HostFile::Missing, None);
    assert_eq!(missing.action, SyncAction::Skip);
    let file = sync_copy(b"/h/y", BundlePath::new(b"h/y"), b"/out", &HostFile::File, None);
    assert_eq!(file.action, SyncAction::Copy);
}

#[test]
fn adding_the_same_file_again_changes_nothing() {
    let mut once = Bundle::new();
    once.add_file(BundlePath::new(b"first"), b"1".to_vec());
    once.add_file_from(BundlePath::new(b"k"), b"/s");
    once.mkdir(BundlePath::new(b"last"));

    let mut thrice = Bundle::new();
    thrice.add_file(BundlePath::new(b"first"), b"1".to_vec());
    thrice.add_file_from(BundlePath::new(b"k"), b"/s");
    thrice.mkdir(BundlePath::new(b"last"));
    thrice.add_file_from(BundlePath::new(b"k"), b"/s");
    thrice.add_file_from(BundlePath::new(b"k"), b"/s");

    assert_eq!(once.emit(b"/d"), thrice.emit(b"/d"));
    assert_eq!(thrice.len(), 3);

    let mut disk = Disk::default();
    disk.write(b"/s", b"content");
    disk.emit(&thrice, b"/d");
    let mut other = Disk::default();
    other.write(b"/s", b"content");
    other.emit(&once, b"/d");
    assert_eq!(disk.tree(b"/d"), other.tree(b"/d"));
}

#[test]
fn the_last_writer_under_a_path_wins() {
    let mut bundle = Bundle::new();
    bundle.add_file(BundlePath::new(b"a"), b"old".to_vec());
    bundle.mkdir(BundlePath::new(b"b"));
    bundle.add_file_from(BundlePath::new(b"a"), b"/host/a");
    assert_eq!(bundle.len(), 2);
    assert_eq!(bundle.get(BundlePath::new(b"a")), Some(&Source::CopyFrom(b"/host/a".to_vec())));
    assert_eq!(bundle.get(BundlePath::new(b"b")), Some(&Source::NewDirectory));
    assert_eq!(bundle.get(BundlePath::new(b"c")), None);
    assert!(bundle.contains(BundlePath::new(b"a")));
    assert!(!bundle.contains(BundlePath::new(b"c")));
    let paths: Vec<Vec<u8>> = bundle.paths().iter().map(|p| p.as_bytes().to_vec()).collect();
    assert_eq!(paths, vec![b"a".to_vec(), b"b".to_vec()]);
}

#[test]
fn filter_keeps_exactly_what_the_predicate_holds_of() {
    let mut bundle = Bundle::new();
    for name in ["usr/lib/a.so", "usr/share/doc/x", "etc/conf", "usr/lib/b.so"] {
        bundle.add_file(BundlePath::new(name.as_bytes()), name.as_bytes().to_vec());
    }
    bundle.filter(|path| path.as_bytes().starts_with(b"usr/lib/"));
    let actions = bundle.emit(b"/o");
    assert_eq!(
        actions,
        vec![
            EmitAction::WriteFile {
                path: b"/o/usr/lib/a.so".to_vec(),
                parent: Some(b"/o/usr/lib".to_vec()),
                content: b"usr/lib/a.so".to_vec(),
            },
            EmitAction::WriteFile {
                path: b"/o/usr/lib/b.so".to_vec(),
                parent: Some(b"/o/usr/lib".to_vec()),
                content: b"usr/lib/b.so".to_vec(),
            },
        ]
    );
    bundle.filter(|_| false);
    assert_eq!(bundle.len(), 0);
    assert!(bundle.emit(b"/o").is_empty());
}

#[test]
fn resources_are_added_under_their_projections() {
    let mut bundle = Bundle::new();
    bundle.add(b"/lib64/ld-linux-x86-64.so.2".to_vec());
    bundle.add(Some(b"/usr/lib/libm.so.6".to_vec()));
    bundle.add(None::<Vec<u8>>);
    bundle.add(vec![b"/usr/lib/libc.so.6".to_vec(), b"/usr/lib/libm.so.6".to_vec()]);
    let interp = b"/lib64/ld-linux-x86-64.so.2".to_vec();
    bundle.add(Some(&interp));
    bundle.add(&b"/etc/magic.conf"[..]);

    let paths: Vec<Vec<u8>> = bundle.paths().iter().map(|p| p.as_bytes().to_vec()).collect();
    assert_eq!(
        paths,
        vec![
            b"lib64/ld-linux-x86-64.so.2".to_vec(),
            b"usr/lib/libm.so.6".to_vec(),
            b"usr/lib/libc.so.6".to_vec(),
            b"etc/magic.conf".to_vec(),
        ]
    );
    assert_eq!(
        bundle.get(BundlePath::new(b"usr/lib/libc.so.6")),
        Some(&Source::CopyFrom(b"/usr/lib/libc.so.6".to_vec()))
    );
}

#[test]
fn a_copy_of_a_bundle_holds_the_same_entries() {
    let mut bundle = Bundle::new();
    bundle.add_file(BundlePath::new(b"a"), b"1".to_vec());
    bundle.mkdir(BundlePath::new(b"d"));
    let copy = bundle.clone();
    bundle.mkdir(BundlePath::new(b"e"));
    assert_eq!(copy.len(), 2);
    assert_eq!(bundle.len(), 3);
    assert_eq!(copy.emit(b"/x")[..], bundle.emit(b"/x")[..2]);
}
