//! The bundle: which files and directories the root filesystem will hold,
//! and where each of them comes from.
//!
//! A bundle maps bundle paths to sources. Adding under a path that is
//! already there replaces what was there. Emitting a bundle to a destination
//! yields one action for each entry; the caller carries the actions out.

use crate::base::path::{
    is_absolute, join, lemma_parent_absolute, parent, spec_is_absolute, spec_join, spec_parent,
};
use crate::base::text::{bytes_equal, text, views};
use crate::domain::executable::Executable;
use vstd::string::*;
use crate::domain::bundle_path::{spec_projection, spec_reify, BundlePath, BundlePathBuf};
use crate::domain::resource::{all_absolute, Resource};
use vstd::prelude::*;
use vstd::slice::*;

verus! {

/// Where an entry of a bundle comes from.
#[derive(Debug, PartialEq, Eq)]
pub enum Source {
    /// A directory that is made.
    NewDirectory,
    /// A file that is written with the given bytes.
    NewFile(Vec<u8>),
    /// A file that is copied from the given absolute host path, links kept.
    CopyFrom(Vec<u8>),
}

/// What a `Source` holds.
pub enum SourceView {
    NewDirectory,
    NewFile(Seq<u8>),
    CopyFrom(Seq<u8>),
}

impl View for Source {
    type V = SourceView;

    open spec fn view(&self) -> SourceView {
        match *self {
            Source::NewDirectory => SourceView::NewDirectory,
            Source::NewFile(content) => SourceView::NewFile(content@),
            Source::CopyFrom(from) => SourceView::CopyFrom(from@),
        }
    }
}

impl Clone for Source {
    fn clone(&self) -> (r: Source)
        ensures
            r@ == self@,
    {
        match self {
            Source::NewDirectory => Source::NewDirectory,
            Source::NewFile(content) => Source::NewFile(slice_to_vec(content.as_slice())),
            Source::CopyFrom(from) => Source::CopyFrom(slice_to_vec(from.as_slice())),
        }
    }
}

/// One thing to do when a bundle is emitted.
#[derive(Debug, PartialEq, Eq)]
pub enum EmitAction {
    /// Make the directory at `path`, and those above it.
    MakeDirectory { path: Vec<u8> },
    /// Make the directory `parent`, where there is one and it does not
    /// exist, and write `content` to the file at `path`.
    WriteFile { path: Vec<u8>, parent: Option<Vec<u8>>, content: Vec<u8> },
    /// Copy the host file `from` to the bundle path `to`, links kept.
    SyncCopy { from: Vec<u8>, to: BundlePathBuf },
}

/// What an `EmitAction` holds.
pub enum EmitActionView {
    MakeDirectory { path: Seq<u8> },
    WriteFile { path: Seq<u8>, parent: Option<Seq<u8>>, content: Seq<u8> },
    SyncCopy { from: Seq<u8>, to: Seq<u8> },
}

impl View for EmitAction {
    type V = EmitActionView;

    open spec fn view(&self) -> EmitActionView {
        match *self {
            EmitAction::MakeDirectory { path } => EmitActionView::MakeDirectory { path: path@ },
            EmitAction::WriteFile { path, parent, content } => EmitActionView::WriteFile {
                path: path@,
                parent: match parent {
                    Some(dir) => Some(dir@),
                    None => None,
                },
                content: content@,
            },
            EmitAction::SyncCopy { from, to } => EmitActionView::SyncCopy { from: from@, to: to@ },
        }
    }
}

/// The action that emits one entry to a destination.
pub open spec fn spec_emit_entry(key: Seq<u8>, source: SourceView, dest: Seq<u8>) -> EmitActionView {
    match source {
        SourceView::NewDirectory => EmitActionView::MakeDirectory { path: spec_reify(dest, key) },
        SourceView::NewFile(content) => EmitActionView::WriteFile {
            path: spec_reify(dest, key),
            parent: spec_parent(spec_reify(dest, key)),
            content,
        },
        SourceView::CopyFrom(from) => EmitActionView::SyncCopy { from, to: key },
    }
}

/// What a bundle holds: its entries, and the order in which their paths came
/// into it. The order has no meaning for what the bundle is; it fixes the
/// order of the actions on emit.
pub struct BundleView {
    pub order: Seq<Seq<u8>>,
    pub entries: Map<Seq<u8>, SourceView>,
}

impl BundleView {
    /// The bundle without entries.
    pub open spec fn empty() -> BundleView {
        BundleView { order: Seq::empty(), entries: Map::empty() }
    }

    /// Whether the order lists each path of the bundle once.
    pub open spec fn wf(self) -> bool {
        &&& forall|i: int, j: int| 0 <= i < j < self.order.len() ==> self.order[i] != self.order[j]
        &&& forall|k: Seq<u8>| self.entries.dom().contains(k) <==> self.order.contains(k)
    }

    /// Whether the bundle has an entry under a path.
    pub open spec fn contains(self, key: Seq<u8>) -> bool {
        self.entries.dom().contains(key)
    }

    /// The bundle with `source` under `key`, in place of what was there. A
    /// path that was there keeps its place in the order, a new one comes
    /// last.
    pub open spec fn insert(self, key: Seq<u8>, source: SourceView) -> BundleView {
        BundleView {
            order: if self.contains(key) {
                self.order
            } else {
                self.order.push(key)
            },
            entries: self.entries.insert(key, source),
        }
    }

    /// The bundle with a host path added: a copy from the path, under its
    /// projection.
    pub open spec fn add_path(self, host: Seq<u8>) -> BundleView {
        self.insert(spec_projection(host), SourceView::CopyFrom(host))
    }

    /// The bundle with host paths added one after the other.
    pub open spec fn add_paths(self, hosts: Seq<Seq<u8>>) -> BundleView
        decreases hosts.len(),
    {
        if hosts.len() == 0 {
            self
        } else {
            self.add_paths(hosts.drop_last()).add_path(hosts.last())
        }
    }

    /// The bundle with only the entries whose paths satisfy `keep`.
    pub open spec fn retain(self, keep: spec_fn(Seq<u8>) -> bool) -> BundleView {
        BundleView {
            order: self.order.filter(keep),
            entries: self.entries.restrict(Set::new(keep)),
        }
    }

    /// The actions that emit the bundle to a destination: one for each
    /// path, in order.
    pub open spec fn emit(self, dest: Seq<u8>) -> Seq<EmitActionView> {
        Seq::new(
            self.order.len(),
            |i: int| spec_emit_entry(self.order[i], self.entries[self.order[i]], dest),
        )
    }
}

/// The paths of a list of entries, in order.
spec fn keys_of(entries: Seq<(BundlePathBuf, Source)>) -> Seq<Seq<u8>> {
    Seq::new(entries.len(), |i: int| entries[i].0@)
}

/// The mapping that a list of entries stands for; of two entries under one
/// path the later counts.
spec fn map_of(entries: Seq<(BundlePathBuf, Source)>) -> Map<Seq<u8>, SourceView>
    decreases entries.len(),
{
    if entries.len() == 0 {
        Map::empty()
    } else {
        map_of(entries.drop_last()).insert(entries.last().0@, entries.last().1@)
    }
}

/// Whether no path occurs twice in a list of entries.
spec fn keys_distinct(entries: Seq<(BundlePathBuf, Source)>) -> bool {
    forall|i: int, j: int| 0 <= i < j < entries.len() ==> entries[i].0@ != entries[j].0@
}

proof fn lemma_map_of_dom(entries: Seq<(BundlePathBuf, Source)>, key: Seq<u8>)
    ensures
        map_of(entries).dom().contains(key) <==> keys_of(entries).contains(key),
    decreases entries.len(),
{
    if entries.len() != 0 {
        let front = entries.drop_last();
        lemma_map_of_dom(front, key);
        if keys_of(entries).contains(key) {
            let i = choose|i: int| 0 <= i < entries.len() && keys_of(entries)[i] == key;
            if i < entries.len() - 1 {
                assert(keys_of(front)[i] == key);
            }
        }
        if keys_of(front).contains(key) {
            let i = choose|i: int| 0 <= i < front.len() && keys_of(front)[i] == key;
            assert(keys_of(entries)[i] == key);
        }
        if entries.last().0@ == key {
            assert(keys_of(entries)[entries.len() - 1] == key);
        }
    }
}

proof fn lemma_map_of_value(entries: Seq<(BundlePathBuf, Source)>, i: int)
    requires
        keys_distinct(entries),
        0 <= i < entries.len(),
    ensures
        map_of(entries).dom().contains(entries[i].0@),
        map_of(entries)[entries[i].0@] == entries[i].1@,
    decreases entries.len(),
{
    if i < entries.len() - 1 {
        let front = entries.drop_last();
        lemma_map_of_value(front, i);
    }
}

proof fn lemma_map_of_update(
    entries: Seq<(BundlePathBuf, Source)>,
    i: int,
    entry: (BundlePathBuf, Source),
)
    requires
        keys_distinct(entries),
        0 <= i < entries.len(),
        entry.0@ == entries[i].0@,
    ensures
        keys_distinct(entries.update(i, entry)),
        keys_of(entries.update(i, entry)) == keys_of(entries),
        map_of(entries.update(i, entry)) == map_of(entries).insert(entry.0@, entry.1@),
{
    let after = entries.update(i, entry);
    assert(keys_of(after) =~= keys_of(entries));
    assert forall|k: Seq<u8>|
        map_of(after).dom().contains(k) <==> map_of(entries).insert(
            entry.0@,
            entry.1@,
        ).dom().contains(k) by {
        lemma_map_of_dom(after, k);
        lemma_map_of_dom(entries, k);
        assert(keys_of(entries)[i] == entry.0@);
    }
    assert forall|k: Seq<u8>| map_of(after).dom().contains(k) implies map_of(after)[k] == map_of(
        entries,
    ).insert(entry.0@, entry.1@)[k] by {
        lemma_map_of_dom(after, k);
        let j = choose|j: int| 0 <= j < after.len() && keys_of(after)[j] == k;
        lemma_map_of_value(after, j);
        lemma_map_of_value(entries, j);
    }
    assert(map_of(after) =~= map_of(entries).insert(entry.0@, entry.1@));
}

/// The files and directories of a root filesystem, each under its bundle
/// path.
#[derive(Debug)]
pub struct Bundle {
    entries: Vec<(BundlePathBuf, Source)>,
}

impl View for Bundle {
    type V = BundleView;

    closed spec fn view(&self) -> BundleView {
        BundleView { order: keys_of(self.entries@), entries: map_of(self.entries@) }
    }
}

proof fn lemma_view_wf(entries: Seq<(BundlePathBuf, Source)>)
    requires
        keys_distinct(entries),
    ensures
        (BundleView { order: keys_of(entries), entries: map_of(entries) }).wf(),
{
    assert forall|k: Seq<u8>| map_of(entries).dom().contains(k) <==> keys_of(entries).contains(
        k,
    ) by {
        lemma_map_of_dom(entries, k);
    }
}

impl Bundle {
    #[verifier::type_invariant]
    spec fn unique(&self) -> bool {
        keys_distinct(self.entries@)
    }

    /// A bundle without entries.
    pub fn new() -> (r: Bundle)
        ensures
            r@ == BundleView::empty(),
            r@.wf(),
    {
        let r = Bundle { entries: Vec::new() };
        assert(r@.order =~= Seq::<Seq<u8>>::empty());
        r
    }

    /// The number of entries.
    pub fn len(&self) -> (r: usize)
        ensures
            r == self@.order.len(),
            self@.wf(),
    {
        proof {
            use_type_invariant(self);
            lemma_view_wf(self.entries@);
        }
        self.entries.len()
    }

    fn position(&self, key: &[u8]) -> (r: Option<usize>)
        ensures
            match r {
                Some(i) => i < self.entries.len() && self.entries@[i as int].0@ == key@,
                None => !keys_of(self.entries@).contains(key@),
            },
    {
        let mut i: usize = 0;
        while i < self.entries.len()
            invariant
                i <= self.entries.len(),
                forall|k: int| 0 <= k < i ==> self.entries@[k].0@ != key@,
            decreases self.entries.len() - i,
        {
            if bytes_equal(self.entries[i].0.as_bytes(), key) {
                return Some(i);
            }
            i += 1;
        }
        None
    }

    fn insert(&mut self, key: BundlePathBuf, source: Source)
        ensures
            final(self)@ == old(self)@.insert(key@, source@),
            old(self)@.wf(),
            final(self)@.wf(),
    {
        proof {
            use_type_invariant(&*self);
            lemma_map_of_dom(self.entries@, key@);
            lemma_view_wf(self.entries@);
            lemma_insert_wf(self@, key@, source@);
        }
        let found = self.position(key.as_bytes());
        let ghost before = self.entries@;
        let mut entries: Vec<(BundlePathBuf, Source)> = Vec::new();
        core::mem::swap(&mut entries, &mut self.entries);
        match found {
            Some(i) => {
                proof {
                    lemma_map_of_update(before, i as int, (key, source));
                    assert(keys_of(before)[i as int] == key@);
                }
                entries.set(i, (key, source));
            },
            None => {
                entries.push((key, source));
                proof {
                    assert(entries@.drop_last() =~= before);
                    assert(keys_of(entries@) =~= keys_of(before).push(key@));
                    assert forall|i: int, j: int| 0 <= i < j < entries@.len() implies entries@[i].0@
                        != entries@[j].0@ by {
                        if j == before.len() {
                            assert(keys_of(before)[i] == before[i].0@);
                        }
                    }
                }
            },
        }
        core::mem::swap(&mut entries, &mut self.entries);
    }

    /// Adds a directory that is made on emit.
    pub fn mkdir(&mut self, path: BundlePath<'_>)
        ensures
            final(self)@ == old(self)@.insert(path@, SourceView::NewDirectory),
            old(self)@.wf(),
            final(self)@.wf(),
    {
        self.insert(path.to_path_buf(), Source::NewDirectory);
    }

    /// Adds a file that is written with `content` on emit.
    pub fn add_file(&mut self, path: BundlePath<'_>, content: Vec<u8>)
        ensures
            final(self)@ == old(self)@.insert(path@, SourceView::NewFile(content@)),
            old(self)@.wf(),
            final(self)@.wf(),
    {
        self.insert(path.to_path_buf(), Source::NewFile(content));
    }

    /// Adds a file that is copied from the absolute host path `from` on
    /// emit.
    pub fn add_file_from(&mut self, path: BundlePath<'_>, from: &[u8])
        requires
            spec_is_absolute(from@),
        ensures
            final(self)@ == old(self)@.insert(path@, SourceView::CopyFrom(from@)),
            old(self)@.wf(),
            final(self)@.wf(),
    {
        self.insert(path.to_path_buf(), Source::CopyFrom(slice_to_vec(from)));
    }

    /// Adds what a resource stands for: each of its host paths, as a copy
    /// under the projection of the path.
    pub fn add<R: Resource>(&mut self, resource: R)
        requires
            all_absolute(resource.host_paths()),
        ensures
            final(self)@ == old(self)@.add_paths(resource.host_paths()),
            final(self)@.wf(),
    {
        resource.bundle_to(self);
        proof {
            use_type_invariant(&*self);
            lemma_view_wf(self.entries@);
        }
    }

    /// Adds host paths one after the other, each as a copy under the
    /// projection of the path.
    pub fn add_all(&mut self, hosts: &[Vec<u8>])
        requires
            all_absolute(views(hosts@)),
        ensures
            final(self)@ == old(self)@.add_paths(views(hosts@)),
            final(self)@.wf(),
    {
        let mut i: usize = 0;
        proof {
            use_type_invariant(&*self);
            lemma_view_wf(self.entries@);
            assert(views(hosts@).take(0) =~= Seq::<Seq<u8>>::empty());
        }
        while i < hosts.len()
            invariant
                i <= hosts.len(),
                all_absolute(views(hosts@)),
                self@ == old(self)@.add_paths(views(hosts@).take(i as int)),
                self@.wf(),
            decreases hosts.len() - i,
        {
            let host = hosts[i].as_slice();
            proof {
                let all = views(hosts@);
                assert(all.take(i + 1).drop_last() =~= all.take(i as int));
                assert(all.take(i + 1).last() == host@);
                assert(all[i as int] == host@);
            }
            self.add_file_from(BundlePath::projection(host), host);
            i += 1;
        }
        assert(views(hosts@).take(i as int) =~= views(hosts@));
    }

    /// Adds the executable itself under `proc/self/exe`, where a program
    /// that asks for its own path finds it.
    pub fn add_pseudo_proc(&mut self, exe: &Executable)
        ensures
            final(self)@ == old(self)@.insert(
                "proc/self/exe".spec_bytes(),
                SourceView::CopyFrom(exe@.path),
            ),
            final(self)@.wf(),
    {
        let key = text("proc/self/exe");
        self.insert(BundlePathBuf::from_vec(key), Source::CopyFrom(slice_to_vec(exe.path())));
    }

    /// Whether the bundle has an entry under a path.
    pub fn contains(&self, path: BundlePath<'_>) -> (r: bool)
        ensures
            r == self@.contains(path@),
    {
        proof {
            lemma_map_of_dom(self.entries@, path@);
        }
        match self.position(path.as_bytes()) {
            Some(i) => {
                assert(keys_of(self.entries@)[i as int] == path@);
                true
            },
            None => false,
        }
    }

    /// The source of the entry under a path, where there is one.
    pub fn get(&self, path: BundlePath<'_>) -> (r: Option<&Source>)
        ensures
            match r {
                Some(source) => self@.contains(path@) && self@.entries[path@] == source@,
                None => !self@.contains(path@),
            },
    {
        proof {
            use_type_invariant(self);
            lemma_map_of_dom(self.entries@, path@);
        }
        match self.position(path.as_bytes()) {
            Some(i) => {
                proof {
                    lemma_map_of_value(self.entries@, i as int);
                    assert(keys_of(self.entries@)[i as int] == path@);
                }
                Some(&self.entries[i].1)
            },
            None => None,
        }
    }

    /// The paths of the bundle, in the order in which they came into it.
    pub fn paths(&self) -> (r: Vec<BundlePathBuf>)
        ensures
            r@.len() == self@.order.len(),
            forall|i: int| 0 <= i < r@.len() ==> #[trigger] r@[i]@ == self@.order[i],
    {
        let mut r: Vec<BundlePathBuf> = Vec::new();
        let mut i: usize = 0;
        while i < self.entries.len()
            invariant
                i <= self.entries.len(),
                r@.len() == i,
                forall|k: int| 0 <= k < i ==> #[trigger] r@[k]@ == self.entries@[k].0@,
            decreases self.entries.len() - i,
        {
            r.push(self.entries[i].0.as_path().to_path_buf());
            i += 1;
        }
        r
    }

    /// Keeps the entries whose paths the predicate holds of, and drops the
    /// others. The predicate is asked once for each path.
    pub fn filter<P: Fn(&BundlePathBuf) -> bool>(&mut self, predicate: P)
        requires
            forall|path: &BundlePathBuf| predicate.requires((path,)),
        ensures
            final(self)@ == old(self)@.retain(|k: Seq<u8>| final(self)@.contains(k)),
            old(self)@.wf(),
            final(self)@.wf(),
            forall|k: Seq<u8>|
                old(self)@.contains(k) ==> exists|path: BundlePathBuf|
                    path@ == k && predicate.ensures((&path,), final(self)@.contains(k)),
    {
        proof {
            use_type_invariant(&*self);
            lemma_view_wf(self.entries@);
        }
        let ghost before = self.entries@;
        let mut entries: Vec<(BundlePathBuf, Source)> = Vec::new();
        core::mem::swap(&mut entries, &mut self.entries);
        let mut kept: Vec<(BundlePathBuf, Source)> = Vec::new();
        let ghost mut chosen: Set<Seq<u8>> = Set::empty();
        let ghost mut from: Seq<int> = Seq::empty();
        let mut i: usize = 0;
        proof {
            reveal(Seq::filter);
            assert(keys_of(before).take(0) =~= Seq::<Seq<u8>>::empty());
            assert(keys_of(kept@) =~= Seq::<Seq<u8>>::empty());
        }
        while i < entries.len()
            invariant
                i <= entries.len(),
                entries@ == before,
                keys_distinct(before),
                forall|path: &BundlePathBuf| predicate.requires((path,)),
                keys_of(kept@) == keys_of(before).take(i as int).filter(
                    |k: Seq<u8>| chosen.contains(k),
                ),
                forall|k: Seq<u8>|
                    chosen.contains(k) ==> exists|m: int| 0 <= m < i && keys_of(before)[m] == k,
                from.len() == kept@.len(),
                forall|j: int|
                    0 <= j < kept@.len() ==> 0 <= #[trigger] from[j] < i && kept@[j].0@
                        == before[from[j]].0@ && kept@[j].1@ == before[from[j]].1@,
                forall|m: int|
                    0 <= m < i ==> predicate.ensures(
                        (&before[m].0,),
                        chosen.contains(#[trigger] keys_of(before)[m]),
                    ),
            decreases entries.len() - i,
        {
            let ghost keys = keys_of(before);
            let ghost key = keys[i as int];
            let ghost old_chosen = chosen;
            let ghost old_kept = kept@;
            proof {
                reveal(Seq::filter);
                assert(keys.take(i + 1) =~= keys.take(i as int).push(key));
                assert(keys.take(i + 1).drop_last() =~= keys.take(i as int));
                if old_chosen.contains(key) {
                    let m = choose|m: int| 0 <= m < i && keys[m] == key;
                    assert(before[m].0@ == before[i as int].0@);
                }
            }
            let keep = predicate(&entries[i].0);
            if keep {
                kept.push((entries[i].0.as_path().to_path_buf(), entries[i].1.clone()));
                proof {
                    chosen = old_chosen.insert(key);
                    from = from.push(i as int);
                    assert forall|m: int| 0 <= m < i implies old_chosen.contains(keys[m])
                        == chosen.contains(keys[m]) by {
                        assert(before[m].0@ != before[i as int].0@);
                    }
                    lemma_filter_agree(
                        keys.take(i as int),
                        |k: Seq<u8>| old_chosen.contains(k),
                        |k: Seq<u8>| chosen.contains(k),
                    );
                    assert(keys_of(kept@) =~= keys_of(old_kept).push(key));
                    assert forall|k: Seq<u8>| chosen.contains(k) implies exists|m: int|
                        0 <= m < i + 1 && keys_of(before)[m] == k by {
                        if k == key {
                            assert(keys_of(before)[i as int] == k);
                        } else {
                            let m = choose|m: int| 0 <= m < i && keys_of(before)[m] == k;
                            assert(keys_of(before)[m] == k);
                        }
                    }
                }
            }
            i += 1;
        }
        let ghost kept_entries = kept@;
        proof {
            assert(keys_of(before).take(i as int) =~= keys_of(before));
            lemma_retained(before, kept_entries, chosen, from);
        }
        core::mem::swap(&mut kept, &mut self.entries);
        proof {
            assert(self.entries@ == kept_entries);
            lemma_view_wf(kept_entries);
            assert forall|k: Seq<u8>| old(self)@.contains(k) implies self@.contains(k)
                == chosen.contains(k) by {}
            assert forall|k: Seq<u8>| old(self)@.contains(k) implies exists|path: BundlePathBuf|
                path@ == k && predicate.ensures((&path,), self@.contains(k)) by {
                lemma_map_of_dom(before, k);
                let m = choose|m: int| 0 <= m < before.len() && keys_of(before)[m] == k;
                assert(predicate.ensures((&before[m].0,), chosen.contains(keys_of(before)[m])));
                assert(before[m].0@ == k);
            }
            assert forall|m: int| 0 <= m < before.len() implies chosen.contains(keys_of(before)[m])
                == self@.contains(keys_of(before)[m]) by {
                lemma_map_of_dom(before, keys_of(before)[m]);
            }
            lemma_filter_agree(
                keys_of(before),
                |k: Seq<u8>| chosen.contains(k),
                |k: Seq<u8>| self@.contains(k),
            );
            assert(self@.entries =~= old(self)@.entries.restrict(
                Set::new(|k: Seq<u8>| self@.contains(k)),
            ));
        }
    }

    /// The actions that put the bundle under the absolute path `dest`: the
    /// action of each entry, in order.
    pub fn emit(&self, dest: &[u8]) -> (r: Vec<EmitAction>)
        requires
            spec_is_absolute(dest@),
        ensures
            r@.len() == self@.order.len(),
            forall|i: int| 0 <= i < r@.len() ==> #[trigger] r@[i]@ == self@.emit(dest@)[i],
    {
        proof {
            use_type_invariant(self);
        }
        let mut r: Vec<EmitAction> = Vec::new();
        let mut i: usize = 0;
        while i < self.entries.len()
            invariant
                i <= self.entries.len(),
                keys_distinct(self.entries@),
                spec_is_absolute(dest@),
                r@.len() == i,
                forall|k: int|
                    0 <= k < i ==> #[trigger] r@[k]@ == spec_emit_entry(
                        self.entries@[k].0@,
                        self.entries@[k].1@,
                        dest@,
                    ),
            decreases self.entries.len() - i,
        {
            let key = &self.entries[i].0;
            let action = match &self.entries[i].1 {
                Source::NewDirectory => EmitAction::MakeDirectory { path: key.reify(dest) },
                Source::NewFile(content) => {
                    let path = key.reify(dest);
                    let dir = parent(path.as_slice());
                    EmitAction::WriteFile {
                        path,
                        parent: dir,
                        content: slice_to_vec(content.as_slice()),
                    }
                },
                Source::CopyFrom(from) => EmitAction::SyncCopy {
                    from: slice_to_vec(from.as_slice()),
                    to: key.as_path().to_path_buf(),
                },
            };
            r.push(action);
            i += 1;
        }
        proof {
            assert forall|k: int| 0 <= k < r@.len() implies #[trigger] r@[k]@ == self@.emit(
                dest@,
            )[k] by {
                lemma_map_of_value(self.entries@, k);
            }
        }
        r
    }
}

impl Default for Bundle {
    fn default() -> (r: Bundle)
        ensures
            r@ == BundleView::empty(),
    {
        Bundle::new()
    }
}

impl Clone for Bundle {
    fn clone(&self) -> (r: Bundle)
        ensures
            r@ == self@,
    {
        proof {
            use_type_invariant(self);
        }
        let mut entries: Vec<(BundlePathBuf, Source)> = Vec::new();
        let mut i: usize = 0;
        while i < self.entries.len()
            invariant
                i <= self.entries.len(),
                entries@.len() == i,
                forall|k: int|
                    0 <= k < i ==> entries@[k].0@ == self.entries@[k].0@ && entries@[k].1@
                        == self.entries@[k].1@,
            decreases self.entries.len() - i,
        {
            entries.push((self.entries[i].0.as_path().to_path_buf(), self.entries[i].1.clone()));
            i += 1;
        }
        proof {
            lemma_map_of_same(entries@, self.entries@);
        }
        Bundle { entries }
    }
}

proof fn lemma_map_of_same(a: Seq<(BundlePathBuf, Source)>, b: Seq<(BundlePathBuf, Source)>)
    requires
        a.len() == b.len(),
        forall|k: int| 0 <= k < a.len() ==> a[k].0@ == b[k].0@ && a[k].1@ == b[k].1@,
    ensures
        map_of(a) == map_of(b),
        keys_of(a) == keys_of(b),
        keys_distinct(b) ==> keys_distinct(a),
    decreases a.len(),
{
    assert(keys_of(a) =~= keys_of(b));
    if a.len() != 0 {
        lemma_map_of_same(a.drop_last(), b.drop_last());
    }
}

/// Two predicates that agree on the items of a list filter it alike.
proof fn lemma_filter_agree(
    s: Seq<Seq<u8>>,
    p: spec_fn(Seq<u8>) -> bool,
    q: spec_fn(Seq<u8>) -> bool,
)
    requires
        forall|i: int| 0 <= i < s.len() ==> p(s[i]) == q(s[i]),
    ensures
        s.filter(p) == s.filter(q),
    decreases s.len(),
{
    reveal(Seq::filter);
    if s.len() != 0 {
        lemma_filter_agree(s.drop_last(), p, q);
    }
}

/// The items of a filtered list are the items of the list that the
/// predicate holds of.
proof fn lemma_filter_contains(s: Seq<Seq<u8>>, p: spec_fn(Seq<u8>) -> bool, k: Seq<u8>)
    ensures
        s.filter(p).contains(k) <==> s.contains(k) && p(k),
    decreases s.len(),
{
    reveal(Seq::filter);
    if s.len() != 0 {
        let front = s.drop_last();
        lemma_filter_contains(front, p, k);
        if s.contains(k) {
            let i = choose|i: int| 0 <= i < s.len() && s[i] == k;
            if i < s.len() - 1 {
                assert(front[i] == k);
            }
        }
        if front.contains(k) {
            let i = choose|i: int| 0 <= i < front.len() && front[i] == k;
            assert(s[i] == k);
        }
        if p(s.last()) {
            let f = front.filter(p).push(s.last());
            assert(f[f.len() - 1] == s.last());
            if front.filter(p).contains(k) {
                let i = choose|i: int| 0 <= i < front.filter(p).len() && front.filter(p)[i] == k;
                assert(f[i] == k);
            }
        }
        if s.last() == k {
            assert(s[s.len() - 1] == k);
        }
    }
}

/// A filtered list of distinct items holds distinct items.
proof fn lemma_filter_distinct(s: Seq<Seq<u8>>, p: spec_fn(Seq<u8>) -> bool)
    requires
        forall|i: int, j: int| 0 <= i < j < s.len() ==> s[i] != s[j],
    ensures
        forall|i: int, j: int|
            0 <= i < j < s.filter(p).len() ==> s.filter(p)[i] != s.filter(p)[j],
    decreases s.len(),
{
    reveal(Seq::filter);
    if s.len() != 0 {
        let front = s.drop_last();
        lemma_filter_distinct(front, p);
        if p(s.last()) {
            let f = front.filter(p);
            assert forall|i: int| 0 <= i < f.len() implies f[i] != s.last() by {
                lemma_filter_contains(front, p, f[i]);
                let m = choose|m: int| 0 <= m < front.len() && front[m] == f[i];
                assert(s[m] == f[i]);
            }
        }
    }
}

proof fn lemma_retained(
    before: Seq<(BundlePathBuf, Source)>,
    kept: Seq<(BundlePathBuf, Source)>,
    chosen: Set<Seq<u8>>,
    from: Seq<int>,
)
    requires
        keys_distinct(before),
        keys_of(kept) == keys_of(before).filter(|k: Seq<u8>| chosen.contains(k)),
        from.len() == kept.len(),
        forall|j: int|
            0 <= j < kept.len() ==> 0 <= #[trigger] from[j] < before.len() && kept[j].0@
                == before[from[j]].0@ && kept[j].1@ == before[from[j]].1@,
    ensures
        keys_distinct(kept),
        forall|k: Seq<u8>| #[trigger]
            map_of(kept).dom().contains(k) <==> map_of(before).dom().contains(k)
                && chosen.contains(k),
        map_of(kept) == map_of(before).restrict(map_of(kept).dom()),
{
    let keep = |k: Seq<u8>| chosen.contains(k);
    assert forall|i: int, j: int| 0 <= i < j < before.len() implies keys_of(before)[i] != keys_of(
        before,
    )[j] by {}
    lemma_filter_distinct(keys_of(before), keep);
    assert forall|i: int, j: int| 0 <= i < j < kept.len() implies kept[i].0@ != kept[j].0@ by {
        assert(keys_of(kept)[i] == kept[i].0@);
        assert(keys_of(kept)[j] == kept[j].0@);
    }
    assert forall|k: Seq<u8>| #[trigger]
        map_of(kept).dom().contains(k) <==> map_of(before).dom().contains(k) && chosen.contains(
            k,
        ) by {
        lemma_map_of_dom(kept, k);
        lemma_map_of_dom(before, k);
        lemma_filter_contains(keys_of(before), keep, k);
    }
    assert forall|k: Seq<u8>| map_of(kept).dom().contains(k) implies map_of(kept)[k] == map_of(
        before,
    )[k] by {
        lemma_map_of_dom(kept, k);
        let j = choose|j: int| 0 <= j < kept.len() && keys_of(kept)[j] == k;
        lemma_map_of_value(kept, j);
        lemma_map_of_value(before, from[j]);
    }
    assert(map_of(kept) =~= map_of(before).restrict(map_of(kept).dom()));
}

/// What lies at a host path when a copy looks at it.
#[derive(Debug, Clone, PartialEq, Eq)]
pub enum HostFile {
    /// Nothing.
    Missing,
    /// A symbolic link, with the path that it holds.
    Link(Vec<u8>),
    /// Anything else: a file that can be copied.
    File,
}

/// What a `HostFile` holds.
pub enum HostFileView {
    Missing,
    Link(Seq<u8>),
    File,
}

impl View for HostFile {
    type V = HostFileView;

    open spec fn view(&self) -> HostFileView {
        match *self {
            HostFile::Missing => HostFileView::Missing,
            HostFile::Link(link) => HostFileView::Link(link@),
            HostFile::File => HostFileView::File,
        }
    }
}

/// What one step of a copy does at its target.
#[derive(Debug, PartialEq, Eq)]
pub enum SyncAction {
    /// The source does not exist: nothing is copied.
    Skip,
    /// The source is copied to the target.
    Copy,
    /// The source is a link to `link_dest`. Where `create` holds, the target
    /// is made a link to `link_dest`; where it does not, the target is that
    /// link already. The copy then goes on with `link_dest`, which is kept
    /// under the bundle path `next_to`.
    Link { link_dest: Vec<u8>, create: bool, next_to: BundlePathBuf },
}

/// What a `SyncAction` holds.
pub enum SyncActionView {
    Skip,
    Copy,
    Link { link_dest: Seq<u8>, create: bool, next_to: Seq<u8> },
}

impl View for SyncAction {
    type V = SyncActionView;

    open spec fn view(&self) -> SyncActionView {
        match *self {
            SyncAction::Skip => SyncActionView::Skip,
            SyncAction::Copy => SyncActionView::Copy,
            SyncAction::Link { link_dest, create, next_to } => SyncActionView::Link {
                link_dest: link_dest@,
                create,
                next_to: next_to@,
            },
        }
    }
}

/// One step of a copy: the target, the directory that must exist before
/// anything is put there, and what is put there.
#[derive(Debug, PartialEq, Eq)]
pub struct SyncStep {
    pub target: Vec<u8>,
    pub parent: Option<Vec<u8>>,
    pub action: SyncAction,
}

/// What a `SyncStep` holds.
pub struct SyncStepView {
    pub target: Seq<u8>,
    pub parent: Option<Seq<u8>>,
    pub action: SyncActionView,
}

impl View for SyncStep {
    type V = SyncStepView;

    open spec fn view(&self) -> SyncStepView {
        SyncStepView {
            target: self.target@,
            parent: match self.parent {
                Some(dir) => Some(dir@),
                None => None,
            },
            action: self.action@,
        }
    }
}

/// The absolute path that a link at `from` points to: the path that the
/// link holds, taken from the directory of the link where it is relative.
pub open spec fn spec_link_dest(from: Seq<u8>, link: Seq<u8>) -> Seq<u8> {
    if spec_is_absolute(link) {
        link
    } else {
        spec_join(spec_parent(from)->Some_0, link)
    }
}

/// One step of the copy of the host path `from` to the bundle path `to`
/// under `dest`, where `source` lies at `from` and the target, if it is a
/// link, holds `target_link`.
pub open spec fn spec_sync_copy(
    from: Seq<u8>,
    to: Seq<u8>,
    dest: Seq<u8>,
    source: HostFileView,
    target_link: Option<Seq<u8>>,
) -> SyncStepView {
    let target = spec_reify(dest, to);
    SyncStepView {
        target,
        parent: spec_parent(target),
        action: match source {
            HostFileView::Missing => SyncActionView::Skip,
            HostFileView::File => SyncActionView::Copy,
            HostFileView::Link(link) => SyncActionView::Link {
                link_dest: spec_link_dest(from, link),
                create: target_link != Some(spec_link_dest(from, link)),
                next_to: spec_projection(spec_link_dest(from, link)),
            },
        },
    }
}

/// The target of a link at an absolute path is absolute.
pub proof fn lemma_link_dest_absolute(from: Seq<u8>, link: Seq<u8>)
    requires
        spec_is_absolute(from),
        spec_is_absolute(link) || spec_parent(from) is Some,
    ensures
        spec_is_absolute(spec_link_dest(from, link)),
{
    if !spec_is_absolute(link) {
        lemma_parent_absolute(from);
        let dir = spec_parent(from)->Some_0;
        assert(spec_join(dir, link)[0] == dir[0]);
    }
}

/// One step of the copy of the host path `from` to the bundle path `to`
/// under `dest`. The caller says what lies at `from` and, where the target
/// is a link, what that link holds; it makes the directory of the target,
/// carries out the action, and after a link goes on with the copy of the
/// link's target.
pub fn sync_copy(
    from: &[u8],
    to: BundlePath<'_>,
    dest: &[u8],
    source: &HostFile,
    target_link: Option<&[u8]>,
) -> (r: SyncStep)
    requires
        spec_is_absolute(from@),
        spec_is_absolute(dest@),
        match source@ {
            HostFileView::Link(link) => spec_is_absolute(link) || spec_parent(from@) is Some,
            _ => true,
        },
    ensures
        r@ == spec_sync_copy(from@, to@, dest@, source@, match target_link {
            Some(link) => Some(link@),
            None => None,
        }),
        match r.action {
            SyncAction::Link { link_dest, .. } => spec_is_absolute(link_dest@),
            _ => true,
        },
{
    let target = to.reify(dest);
    let dir = parent(target.as_slice());
    let action = match source {
        HostFile::Missing => SyncAction::Skip,
        HostFile::File => SyncAction::Copy,
        HostFile::Link(link) => {
            proof {
                lemma_link_dest_absolute(from@, link@);
            }
            let link_dest = if is_absolute(link.as_slice()) {
                slice_to_vec(link.as_slice())
            } else {
                match parent(from) {
                    Some(dir) => join(dir.as_slice(), link.as_slice()),
                    None => slice_to_vec(link.as_slice()),
                }
            };
            let linked = match target_link {
                Some(held) => bytes_equal(held, link_dest.as_slice()),
                None => false,
            };
            let next_to = BundlePath::projection(link_dest.as_slice()).to_path_buf();
            SyncAction::Link { link_dest, create: !linked, next_to }
        },
    };
    SyncStep { target, parent: dir, action }
}

impl BundleView {
    /// The bundle after `source` was put under `key` a number of times.
    pub open spec fn insert_times(self, key: Seq<u8>, source: SourceView, times: nat) -> BundleView
        decreases times,
    {
        if times == 0 {
            self
        } else {
            self.insert_times(key, source, (times - 1) as nat).insert(key, source)
        }
    }
}

/// Adding the same source under the same path again changes nothing: after
/// any number of additions the bundle is what it is after one, and so is
/// what it emits.
pub proof fn lemma_insert_idempotent(
    bundle: BundleView,
    key: Seq<u8>,
    source: SourceView,
    times: nat,
    dest: Seq<u8>,
)
    requires
        times >= 1,
    ensures
        bundle.insert_times(key, source, times) == bundle.insert(key, source),
        bundle.insert_times(key, source, times).emit(dest) == bundle.insert(key, source).emit(
            dest,
        ),
    decreases times,
{
    let once = bundle.insert(key, source);
    if times == 1 {
        assert(bundle.insert_times(key, source, 0) == bundle);
    } else {
        lemma_insert_idempotent(bundle, key, source, (times - 1) as nat, dest);
        assert(once.insert(key, source).entries =~= once.entries);
    }
}

/// Adding an entry keeps the order of a bundle a list of its paths.
pub proof fn lemma_insert_wf(bundle: BundleView, key: Seq<u8>, source: SourceView)
    requires
        bundle.wf(),
    ensures
        bundle.insert(key, source).wf(),
{
    let after = bundle.insert(key, source);
    if !bundle.contains(key) {
        assert forall|k: Seq<u8>| after.entries.dom().contains(k) <==> after.order.contains(
            k,
        ) by {
            if bundle.order.contains(k) {
                let i = choose|i: int| 0 <= i < bundle.order.len() && bundle.order[i] == k;
                assert(after.order[i] == k);
            }
            if k == key {
                assert(after.order[after.order.len() - 1] == k);
            }
        }
        assert forall|i: int, j: int| 0 <= i < j < after.order.len() implies after.order[i]
            != after.order[j] by {
            if j == bundle.order.len() {
                assert(bundle.order.contains(bundle.order[i]));
            }
        }
    }
}

/// After a filter, emit yields exactly the actions of the entries whose
/// paths the predicate holds of, each once.
pub proof fn lemma_retain_emits(
    bundle: BundleView,
    keep: spec_fn(Seq<u8>) -> bool,
    dest: Seq<u8>,
)
    requires
        bundle.wf(),
    ensures
        bundle.retain(keep).wf(),
        forall|k: Seq<u8>| bundle.retain(keep).contains(k) <==> bundle.contains(k) && keep(k),
        forall|i: int|
            0 <= i < bundle.retain(keep).order.len() ==> #[trigger] bundle.retain(keep).emit(
                dest,
            )[i] == spec_emit_entry(
                bundle.retain(keep).order[i],
                bundle.entries[bundle.retain(keep).order[i]],
                dest,
            ),
{
    let kept = bundle.retain(keep);
    lemma_filter_distinct(bundle.order, keep);
    assert forall|k: Seq<u8>| kept.entries.dom().contains(k) <==> kept.order.contains(k) by {
        lemma_filter_contains(bundle.order, keep, k);
    }
    assert forall|i: int| 0 <= i < kept.order.len() implies #[trigger] kept.emit(dest)[i]
        == spec_emit_entry(kept.order[i], bundle.entries[kept.order[i]], dest) by {
        assert(kept.order.contains(kept.order[i]));
    }
}

/// Two predicates that agree on the paths of a bundle retain the same
/// entries of it.
pub proof fn lemma_retain_agree(
    bundle: BundleView,
    p: spec_fn(Seq<u8>) -> bool,
    q: spec_fn(Seq<u8>) -> bool,
)
    requires
        bundle.wf(),
        forall|k: Seq<u8>| #[trigger] bundle.entries.dom().contains(k) ==> p(k) == q(k),
    ensures
        bundle.retain(p) == bundle.retain(q),
{
    assert forall|i: int| 0 <= i < bundle.order.len() implies p(bundle.order[i]) == q(
        bundle.order[i],
    ) by {
        assert(bundle.order.contains(bundle.order[i]));
        assert(bundle.entries.dom().contains(bundle.order[i]));
    }
    lemma_filter_agree(bundle.order, p, q);
    assert(bundle.entries.restrict(Set::new(p)) =~= bundle.entries.restrict(Set::new(q)));
}

/// What lies at a host path, with what it holds.
pub enum HostNode {
    Missing,
    Link(Seq<u8>),
    File(Seq<u8>),
}

/// What lies at a path under the destination.
pub enum TreeNode {
    Link(Seq<u8>),
    File(Seq<u8>),
}

/// What a copy sees of a host path.
pub open spec fn spec_probe(host: Map<Seq<u8>, HostNode>, path: Seq<u8>) -> HostFileView {
    if host.dom().contains(path) {
        match host[path] {
            HostNode::Missing => HostFileView::Missing,
            HostNode::Link(link) => HostFileView::Link(link),
            HostNode::File(_) => HostFileView::File,
        }
    } else {
        HostFileView::Missing
    }
}

/// What the link at a path under the destination holds, where there is one.
pub open spec fn spec_held_link(tree: Map<Seq<u8>, TreeNode>, path: Seq<u8>) -> Option<Seq<u8>> {
    if tree.dom().contains(path) {
        match tree[path] {
            TreeNode::Link(link) => Some(link),
            TreeNode::File(_) => None,
        }
    } else {
        None
    }
}

/// The files and links under the destination after the copy of the host
/// path `from` to the bundle path `to`, where every step succeeds and the
/// copy follows at most `links` links.
pub open spec fn spec_sync_tree(
    host: Map<Seq<u8>, HostNode>,
    tree: Map<Seq<u8>, TreeNode>,
    from: Seq<u8>,
    to: Seq<u8>,
    dest: Seq<u8>,
    links: nat,
) -> Map<Seq<u8>, TreeNode>
    decreases links,
{
    let step = spec_sync_copy(
        from,
        to,
        dest,
        spec_probe(host, from),
        spec_held_link(tree, spec_reify(dest, to)),
    );
    match step.action {
        SyncActionView::Skip => tree,
        SyncActionView::Copy => tree.insert(
            step.target,
            TreeNode::File(
                match host[from] {
                    HostNode::File(content) => content,
                    _ => Seq::empty(),
                },
            ),
        ),
        SyncActionView::Link { link_dest, create, next_to } => {
            let linked = if create {
                tree.insert(step.target, TreeNode::Link(link_dest))
            } else {
                tree
            };
            if links == 0 {
                linked
            } else {
                spec_sync_tree(host, linked, link_dest, next_to, dest, (links - 1) as nat)
            }
        },
    }
}

/// A chain of links is kept as it is. Where `z` is a link to `y`, `y` a link
/// to `x` and `x` a file, the copy of `z` to an empty destination puts there
/// the file under the path of `x`, a link to `x` under the path of `y`, and
/// a link to `y` under the path of `z`; the copy of `y` puts there the first
/// two, the copy of `x` the file alone.
pub proof fn lemma_link_chain(
    host: Map<Seq<u8>, HostNode>,
    x: Seq<u8>,
    y: Seq<u8>,
    z: Seq<u8>,
    content: Seq<u8>,
    dest: Seq<u8>,
)
    requires
        spec_is_absolute(x),
        spec_is_absolute(y),
        spec_is_absolute(z),
        x != y && y != z && x != z,
        host.dom().contains(x) && host[x] == HostNode::File(content),
        host.dom().contains(y) && host[y] == HostNode::Link(x),
        host.dom().contains(z) && host[z] == HostNode::Link(y),
    ensures
        spec_sync_tree(host, Map::empty(), x, spec_projection(x), dest, 2) == Map::<
            Seq<u8>,
            TreeNode,
        >::empty().insert(dest + x, TreeNode::File(content)),
        spec_sync_tree(host, Map::empty(), y, spec_projection(y), dest, 2) == Map::<
            Seq<u8>,
            TreeNode,
        >::empty().insert(dest + y, TreeNode::Link(x)).insert(dest + x, TreeNode::File(content)),
        spec_sync_tree(host, Map::empty(), z, spec_projection(z), dest, 2) == Map::<
            Seq<u8>,
            TreeNode,
        >::empty().insert(dest + z, TreeNode::Link(y)).insert(dest + y, TreeNode::Link(x)).insert(
            dest + x,
            TreeNode::File(content),
        ),
{
    crate::domain::bundle_path::lemma_reify_projection(dest, x);
    crate::domain::bundle_path::lemma_reify_projection(dest, y);
    crate::domain::bundle_path::lemma_reify_projection(dest, z);
    let empty = Map::<Seq<u8>, TreeNode>::empty();
    let with_z = empty.insert(dest + z, TreeNode::Link(y));
    let with_y = empty.insert(dest + y, TreeNode::Link(x));
    let with_zy = with_z.insert(dest + y, TreeNode::Link(x));
    lemma_append_injective(dest, x, y);
    lemma_append_injective(dest, y, z);
    lemma_append_injective(dest, x, z);
    reveal_with_fuel(spec_sync_tree, 4);
    assert(spec_sync_tree(host, empty, x, spec_projection(x), dest, 2) == empty.insert(
        dest + x,
        TreeNode::File(content),
    ));
    assert(spec_sync_tree(host, with_y, x, spec_projection(x), dest, 1) == with_y.insert(
        dest + x,
        TreeNode::File(content),
    ));
    assert(spec_sync_tree(host, with_zy, x, spec_projection(x), dest, 0) == with_zy.insert(
        dest + x,
        TreeNode::File(content),
    ));
    assert(spec_sync_tree(host, with_z, y, spec_projection(y), dest, 1) == with_zy.insert(
        dest + x,
        TreeNode::File(content),
    ));
}

/// Two paths behind one prefix differ where the paths differ.
proof fn lemma_append_injective(prefix: Seq<u8>, a: Seq<u8>, b: Seq<u8>)
    requires
        a != b,
    ensures
        prefix + a != prefix + b,
{
    if prefix + a == prefix + b {
        assert((prefix + a).skip(prefix.len() as int) =~= a);
        assert((prefix + b).skip(prefix.len() as int) =~= b);
    }
}

} // verus!
