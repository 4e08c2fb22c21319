//! The namespace registry: names, inode numbers and attribute records of the
//! files under the single directory.

use crate::attr::{synthesized, FileAttr, FileKind, HashAttr, Timestamp, ROOT_INO};
use crate::clock::current_time;
use crate::error::FsError;
use crate::names::{less_than, lemma_name_lt_strict_total, lemma_name_lt_transitive, name_lt};
use vstd::prelude::*;

verus! {

/// The name reserved for the directory itself; no file carries it.
pub open spec fn root_name() -> Seq<char> {
    seq!['/']
}

/// Whether some file in `files` is called `name`.
pub open spec fn has_name(files: Seq<(Seq<char>, FileAttr)>, name: Seq<char>) -> bool {
    exists|i: int| 0 <= i < files.len() && #[trigger] files[i].0 == name
}

/// The position of the file called `name`.
pub open spec fn index_of_name(files: Seq<(Seq<char>, FileAttr)>, name: Seq<char>) -> int
    recommends
        has_name(files, name),
{
    choose|i: int| 0 <= i < files.len() && #[trigger] files[i].0 == name
}

/// Whether some file in `files` has inode number `ino`.
pub open spec fn has_ino(files: Seq<(Seq<char>, FileAttr)>, ino: u64) -> bool {
    exists|i: int| 0 <= i < files.len() && #[trigger] files[i].1.ino == ino
}

/// The position of the file with inode number `ino`.
pub open spec fn index_of_ino(files: Seq<(Seq<char>, FileAttr)>, ino: u64) -> int
    recommends
        has_ino(files, ino),
{
    choose|i: int| 0 <= i < files.len() && #[trigger] files[i].1.ino == ino
}

/// Files listed in strictly increasing order of name.
pub open spec fn sorted(files: Seq<(Seq<char>, FileAttr)>) -> bool {
    forall|i: int, j: int| 0 <= i < j < files.len() ==> name_lt(#[trigger] files[i].0, #[trigger] files[j].0)
}

/// `p` is where `name` belongs among `files`: every name before it sorts
/// before `name`, every name from it on after.
pub open spec fn fits_at(files: Seq<(Seq<char>, FileAttr)>, name: Seq<char>, p: int) -> bool {
    &&& 0 <= p <= files.len()
    &&& forall|i: int| 0 <= i < p ==> name_lt(#[trigger] files[i].0, name)
    &&& forall|i: int| p <= i < files.len() ==> name_lt(name, #[trigger] files[i].0)
}

/// Where `name` belongs among `files`.
pub open spec fn insert_position(files: Seq<(Seq<char>, FileAttr)>, name: Seq<char>) -> int {
    choose|p: int| fits_at(files, name, p)
}

/// The names that a list of keys spells.
pub open spec fn key_names(keys: Seq<String>) -> Seq<Seq<char>> {
    keys.map_values(|k: String| k@)
}

/// A listing with its names as character sequences.
pub open spec fn listed(r: Seq<(u64, String)>) -> Seq<(u64, Seq<char>)> {
    r.map_values(|p: (u64, String)| (p.0, p.1@))
}

/// The registry as a mathematical value.
pub struct RegistryModel {
    /// The files, in name order, each with its name and attribute record.
    pub files: Seq<(Seq<char>, FileAttr)>,
    /// The directory's record, present once the registry is initialized.
    pub root: Option<FileAttr>,
    /// The inode number the next allocation receives.
    pub next_ino: u64,
}

impl RegistryModel {
    /// A registry before initialization.
    pub open spec fn empty() -> RegistryModel {
        RegistryModel { files: Seq::empty(), root: None, next_ino: 2 }
    }

    /// Names and inode numbers are each unique, file inode numbers lie between
    /// the directory's and the next one to be minted, and no file takes the
    /// directory's name.
    pub open spec fn wf(self) -> bool {
        &&& forall|i: int, j: int|
            0 <= i < self.files.len() && 0 <= j < self.files.len() && i != j
                ==> #[trigger] self.files[i].0 != #[trigger] self.files[j].0
        &&& forall|i: int, j: int|
            0 <= i < self.files.len() && 0 <= j < self.files.len() && i != j
                ==> (#[trigger] self.files[i]).1.ino != (#[trigger] self.files[j]).1.ino
        &&& forall|i: int|
            0 <= i < self.files.len() ==> ROOT_INO < (#[trigger] self.files[i]).1.ino < self.next_ino
        &&& forall|i: int| 0 <= i < self.files.len() ==> (#[trigger] self.files[i]).0 != root_name()
        &&& sorted(self.files)
        &&& self.next_ino >= 2
        &&& self.root matches Some(r) ==> r.ino == ROOT_INO && r.kind == FileKind::Directory
    }

    /// The inode number of the file called `name`.
    pub open spec fn resolve(self, name: Seq<char>) -> Option<u64> {
        if has_name(self.files, name) {
            Some(self.files[index_of_name(self.files, name)].1.ino)
        } else {
            None
        }
    }

    /// The record of inode `ino`: the directory's, or a file's.
    pub open spec fn attributes_of(self, ino: u64) -> Option<FileAttr> {
        if ino == ROOT_INO {
            self.root
        } else if has_ino(self.files, ino) {
            Some(self.files[index_of_ino(self.files, ino)].1)
        } else {
            None
        }
    }

    /// The name of the file with inode number `ino`.
    pub open spec fn name_of(self, ino: u64) -> Option<Seq<char>> {
        if has_ino(self.files, ino) {
            Some(self.files[index_of_ino(self.files, ino)].0)
        } else {
            None
        }
    }

    /// Mint the next inode number for `name`. A new name takes its place in
    /// name order; a file already called `name` takes the fresh record. Nothing is
    /// allocated for the directory's name or once the numbers are exhausted.
    pub open spec fn allocate(
        self,
        name: Seq<char>,
        kind: FileKind,
        uid: u32,
        gid: u32,
        ts: Timestamp,
    ) -> (RegistryModel, Option<FileAttr>) {
        if name == root_name() || self.next_ino == u64::MAX {
            (self, None)
        } else {
            let a = synthesized(kind, self.next_ino, ts, uid, gid);
            let files = if has_name(self.files, name) {
                self.files.update(index_of_name(self.files, name), (name, a))
            } else {
                self.files.insert(insert_position(self.files, name), (name, a))
            };
            (RegistryModel { files, root: self.root, next_ino: (self.next_ino + 1) as u64 }, Some(a))
        }
    }

    /// Remove the file called `name`; false when there is none.
    pub open spec fn release(self, name: Seq<char>) -> (RegistryModel, bool) {
        if has_name(self.files, name) {
            (
                RegistryModel {
                    files: self.files.remove(index_of_name(self.files, name)),
                    ..self
                },
                true,
            )
        } else {
            (self, false)
        }
    }

    /// The directory's entries as inode number and name.
    pub open spec fn listing(self) -> Seq<(u64, Seq<char>)> {
        self.files.map_values(|e: (Seq<char>, FileAttr)| (e.1.ino, e.0))
    }

    /// A regular file allocated for each of `keys`, in order.
    pub open spec fn allocate_all(self, keys: Seq<Seq<char>>, uid: u32, gid: u32, ts: Timestamp) -> RegistryModel
        decreases keys.len(),
    {
        if keys.len() == 0 {
            self
        } else {
            self.allocate_all(keys.drop_last(), uid, gid, ts).allocate(
                keys.last(),
                FileKind::RegularFile,
                uid,
                gid,
                ts,
            ).0
        }
    }

    /// The directory's record set up, then one file allocated per key.
    pub open spec fn initialize(self, keys: Seq<Seq<char>>, uid: u32, gid: u32, ts: Timestamp) -> RegistryModel {
        RegistryModel {
            root: Some(synthesized(FileKind::Directory, ROOT_INO, ts, uid, gid)),
            ..self
        }.allocate_all(keys, uid, gid, ts)
    }
}

/// A name that no file carries has exactly one place among sorted files.
proof fn lemma_fits_at(files: Seq<(Seq<char>, FileAttr)>, name: Seq<char>)
    requires
        sorted(files),
        !has_name(files, name),
    ensures
        fits_at(files, name, insert_position(files, name)),
        forall|q: int| fits_at(files, name, q) ==> q == insert_position(files, name),
{
    let w = lemma_fits_at_witness(files, name);
    assert forall|q: int| fits_at(files, name, q) implies q == w by {
        if q < w {
            lemma_name_lt_strict_total(files[q].0, name);
        } else if w < q {
            lemma_name_lt_strict_total(files[w].0, name);
        }
    }
}

proof fn lemma_fits_at_witness(files: Seq<(Seq<char>, FileAttr)>, name: Seq<char>) -> (p: int)
    requires
        sorted(files),
        !has_name(files, name),
    ensures
        fits_at(files, name, p),
    decreases files.len(),
{
    if files.len() == 0 {
        0
    } else {
        let n = files.len() - 1;
        let front = files.drop_last();
        assert(!has_name(front, name)) by {
            if has_name(front, name) {
                let j = choose|j: int| 0 <= j < front.len() && #[trigger] front[j].0 == name;
                assert(files[j].0 == name);
            }
        }
        let p2 = lemma_fits_at_witness(front, name);
        if p2 < n {
            assert(name_lt(name, front[p2].0));
            assert(name_lt(files[p2].0, files[n].0));
            lemma_name_lt_transitive(name, files[p2].0, files[n].0);
            assert forall|i: int| p2 <= i < files.len() implies name_lt(name, #[trigger] files[i].0) by {
                if i < n {
                    assert(front[i] == files[i]);
                }
            }
            assert forall|i: int| 0 <= i < p2 implies name_lt(#[trigger] files[i].0, name) by {
                assert(front[i] == files[i]);
            }
            p2
        } else {
            assert(files[n].0 != name);
            lemma_name_lt_strict_total(files[n].0, name);
            assert forall|i: int| 0 <= i < n implies name_lt(#[trigger] files[i].0, name) by {
                assert(front[i] == files[i]);
            }
            if name_lt(files[n].0, name) {
                files.len() as int
            } else {
                n
            }
        }
    }
}

/// Sorted files stay sorted with a name inserted where it belongs.
proof fn lemma_insert_sorted(files: Seq<(Seq<char>, FileAttr)>, name: Seq<char>, a: FileAttr, p: int)
    requires
        sorted(files),
        fits_at(files, name, p),
    ensures
        sorted(files.insert(p, (name, a))),
{
    let g = files.insert(p, (name, a));
    assert forall|i: int, j: int| 0 <= i < j < g.len() implies name_lt(#[trigger] g[i].0, #[trigger] g[j].0) by {
        if j < p {
        } else if j == p {
        } else if i == p {
            assert(g[j] == files[j - 1]);
        } else if i < p {
            assert(g[j] == files[j - 1]);
        } else {
            assert(g[j] == files[j - 1] && g[i] == files[i - 1]);
        }
    }
}

/// Sorted files carry each name at most once.
proof fn lemma_sorted_unique(files: Seq<(Seq<char>, FileAttr)>)
    requires
        sorted(files),
    ensures
        forall|i: int, j: int|
            0 <= i < files.len() && 0 <= j < files.len() && i != j ==> #[trigger] files[i].0 != #[trigger] files[j].0,
{
    assert forall|i: int, j: int|
        0 <= i < files.len() && 0 <= j < files.len() && i != j implies #[trigger] files[i].0 != #[trigger] files[j].0 by {
        lemma_name_lt_strict_total(files[i].0, files[i].0);
    }
}

/// Allocation keeps a registry well formed.
pub proof fn lemma_allocate_wf(m: RegistryModel, name: Seq<char>, kind: FileKind, uid: u32, gid: u32, ts: Timestamp)
    requires
        m.wf(),
    ensures
        m.allocate(name, kind, uid, gid, ts).0.wf(),
{
    if name != root_name() && m.next_ino != u64::MAX {
        let a = synthesized(kind, m.next_ino, ts, uid, gid);
        let g = m.allocate(name, kind, uid, gid, ts).0.files;
        if has_name(m.files, name) {
            let i = index_of_name(m.files, name);
            assert(m.files[i].0 == name);
            assert forall|k: int| 0 <= k < g.len() implies #[trigger] g[k].0 == m.files[k].0 by {}
            assert(sorted(g)) by {
                assert forall|x: int, y: int| 0 <= x < y < g.len() implies name_lt(#[trigger] g[x].0, #[trigger] g[y].0) by {
                    assert(g[x].0 == m.files[x].0 && g[y].0 == m.files[y].0);
                }
            }
        } else {
            lemma_fits_at(m.files, name);
            let p = insert_position(m.files, name);
            lemma_insert_sorted(m.files, name, a, p);
            assert forall|k: int| 0 <= k < g.len() && k != p implies #[trigger] g[k] == (if k < p { m.files[k] } else { m.files[k - 1] }) by {}
        }
        lemma_sorted_unique(g);
    }
}

/// Release keeps a registry well formed.
pub proof fn lemma_release_wf(m: RegistryModel, name: Seq<char>)
    requires
        m.wf(),
    ensures
        m.release(name).0.wf(),
{
    if has_name(m.files, name) {
        let i = index_of_name(m.files, name);
        let g = m.files.remove(i);
        assert forall|k: int| 0 <= k < g.len() implies #[trigger] g[k] == (if k < i { m.files[k] } else { m.files[k + 1] }) by {}
        assert(sorted(g)) by {
            assert forall|x: int, y: int| 0 <= x < y < g.len() implies name_lt(#[trigger] g[x].0, #[trigger] g[y].0) by {
                assert(g[x] == (if x < i { m.files[x] } else { m.files[x + 1] }));
                assert(g[y] == (if y < i { m.files[y] } else { m.files[y + 1] }));
            }
        }
        lemma_sorted_unique(g);
    }
}

/// One change of the namespace.
pub enum RegistryChange {
    /// An allocation of a name, with the kind, owner and time of its record.
    Allocate(Seq<char>, FileKind, u32, u32, Timestamp),
    /// A release of a name.
    Release(Seq<char>),
}

/// `m` after each of `changes`, in order.
pub open spec fn apply_changes(m: RegistryModel, changes: Seq<RegistryChange>) -> RegistryModel
    decreases changes.len(),
{
    if changes.len() == 0 {
        m
    } else {
        let before = apply_changes(m, changes.drop_last());
        match changes.last() {
            RegistryChange::Allocate(name, kind, uid, gid, ts) => before.allocate(name, kind, uid, gid, ts).0,
            RegistryChange::Release(name) => before.release(name).0,
        }
    }
}

/// Whatever changes are made, the registry stays well formed and the next
/// inode number never goes down.
pub proof fn lemma_changes_keep_counter(m: RegistryModel, changes: Seq<RegistryChange>)
    requires
        m.wf(),
    ensures
        apply_changes(m, changes).wf(),
        apply_changes(m, changes).next_ino >= m.next_ino,
    decreases changes.len(),
{
    if changes.len() > 0 {
        lemma_changes_keep_counter(m, changes.drop_last());
        let before = apply_changes(m, changes.drop_last());
        match changes.last() {
            RegistryChange::Allocate(name, kind, uid, gid, ts) => lemma_allocate_wf(before, name, kind, uid, gid, ts),
            RegistryChange::Release(name) => lemma_release_wf(before, name),
        }
    }
}

/// An inode number, once handed out, is never handed out again, whatever
/// allocations and releases come in between; nor is it the number of a file
/// that was already there.
pub proof fn lemma_inode_never_reused(
    m: RegistryModel,
    n1: Seq<char>,
    kind1: FileKind,
    uid1: u32,
    gid1: u32,
    ts1: Timestamp,
    changes: Seq<RegistryChange>,
    n2: Seq<char>,
    kind2: FileKind,
    uid2: u32,
    gid2: u32,
    ts2: Timestamp,
)
    requires
        m.wf(),
    ensures
        ({
            let (m1, a1) = m.allocate(n1, kind1, uid1, gid1, ts1);
            let (m2, a2) = apply_changes(m1, changes).allocate(n2, kind2, uid2, gid2, ts2);
            &&& a1 is Some && a2 is Some ==> a1->Some_0.ino != a2->Some_0.ino
            &&& a1 is Some ==> !has_ino(m.files, a1->Some_0.ino)
        }),
{
    lemma_allocate_wf(m, n1, kind1, uid1, gid1, ts1);
    lemma_changes_keep_counter(m.allocate(n1, kind1, uid1, gid1, ts1).0, changes);
}

/// Once `name` is released it no longer resolves.
pub proof fn lemma_release_then_resolve(m: RegistryModel, name: Seq<char>)
    requires
        m.wf(),
    ensures
        m.release(name).0.resolve(name) is None,
{
    if has_name(m.files, name) {
        let i = index_of_name(m.files, name);
        let f = m.files.remove(i);
        if has_name(f, name) {
            let j = choose|j: int| 0 <= j < f.len() && #[trigger] f[j].0 == name;
            if j < i {
                assert(m.files[j].0 == name);
            } else {
                assert(m.files[j + 1].0 == name);
            }
        }
    }
}

/// The directory is never listed among its own files, and its name can never
/// be released.
pub proof fn lemma_root_protected(m: RegistryModel)
    requires
        m.wf(),
    ensures
        forall|i: int| 0 <= i < m.listing().len() ==> (#[trigger] m.listing()[i]).0 != ROOT_INO,
        m.release(root_name()) == (m, false),
{
    if has_name(m.files, root_name()) {
        let i = index_of_name(m.files, root_name());
        assert(m.files[i].0 == root_name());
    }
}

/// The file that key `i` becomes when `keys` are allocated in order from a
/// fresh registry.
pub open spec fn keyed(keys: Seq<Seq<char>>, i: int, uid: u32, gid: u32, ts: Timestamp) -> (Seq<char>, FileAttr) {
    (keys[i], synthesized(FileKind::RegularFile, (i + 2) as u64, ts, uid, gid))
}

/// The files a fresh registry holds after allocating each of `keys`, all
/// distinct and none the directory's name.
proof fn lemma_allocate_all_fresh(m: RegistryModel, keys: Seq<Seq<char>>, uid: u32, gid: u32, ts: Timestamp)
    requires
        m.wf(),
        m.files.len() == 0,
        m.next_ino == 2,
        forall|i: int, j: int| 0 <= i < keys.len() && 0 <= j < keys.len() && i != j ==> keys[i] != keys[j],
        forall|i: int| 0 <= i < keys.len() ==> keys[i] != root_name(),
        keys.len() + 2 < u64::MAX,
    ensures
        m.allocate_all(keys, uid, gid, ts).wf(),
        m.allocate_all(keys, uid, gid, ts).files.len() == keys.len(),
        m.allocate_all(keys, uid, gid, ts).next_ino == keys.len() + 2,
        m.allocate_all(keys, uid, gid, ts).root == m.root,
        forall|i: int| 0 <= i < keys.len() ==> has_name(m.allocate_all(keys, uid, gid, ts).files, #[trigger] keys[i]),
        forall|j: int|
            #![trigger m.allocate_all(keys, uid, gid, ts).files[j]]
            0 <= j < keys.len() ==> exists|i: int|
                0 <= i < keys.len() && m.allocate_all(keys, uid, gid, ts).files[j] == #[trigger] keyed(keys, i, uid, gid, ts),
    decreases keys.len(),
{
    if keys.len() > 0 {
        let n = keys.len() - 1;
        let front = keys.drop_last();
        let k = keys[n];
        lemma_allocate_all_fresh(m, front, uid, gid, ts);
        let pm = m.allocate_all(front, uid, gid, ts);
        let f = pm.files;
        assert forall|i: int| 0 <= i < n implies #[trigger] keyed(front, i, uid, gid, ts) == keyed(keys, i, uid, gid, ts) by {
            assert(front[i] == keys[i]);
        }
        assert(!has_name(f, k)) by {
            if has_name(f, k) {
                let j = choose|j: int| 0 <= j < f.len() && #[trigger] f[j].0 == k;
                let i = choose|i: int| 0 <= i < front.len() && f[j] == #[trigger] keyed(front, i, uid, gid, ts);
                assert(keyed(front, i, uid, gid, ts) == keyed(keys, i, uid, gid, ts));
            }
        }
        lemma_allocate_wf(pm, k, FileKind::RegularFile, uid, gid, ts);
        lemma_fits_at(f, k);
        let p = insert_position(f, k);
        let g = m.allocate_all(keys, uid, gid, ts).files;
        assert(g == f.insert(p, keyed(keys, n, uid, gid, ts)));
        assert forall|i: int| 0 <= i < keys.len() implies has_name(g, #[trigger] keys[i]) by {
            if i == n {
                assert(g[p].0 == keys[i]);
            } else {
                assert(front[i] == keys[i]);
                assert(has_name(f, front[i]));
                let j = choose|j: int| 0 <= j < f.len() && #[trigger] f[j].0 == front[i];
                if j < p {
                    assert(g[j].0 == keys[i]);
                } else {
                    assert(g[j + 1].0 == keys[i]);
                }
            }
        }
        assert forall|j: int| #![trigger g[j]] 0 <= j < keys.len() implies exists|i: int|
            0 <= i < keys.len() && g[j] == #[trigger] keyed(keys, i, uid, gid, ts) by {
            if j == p {
                assert(g[j] == keyed(keys, n, uid, gid, ts));
            } else {
                let jj = if j < p { j } else { j - 1 };
                assert(g[j] == f[jj]);
                let i = choose|i: int| 0 <= i < front.len() && f[jj] == #[trigger] keyed(front, i, uid, gid, ts);
                assert(g[j] == keyed(keys, i, uid, gid, ts));
            }
        }
    }
}

/// After initialization from distinct keys, none the directory's name, the
/// listing holds exactly one entry per key: as many entries as keys, each
/// key resolving to inode number 2 plus its position among the keys, whose
/// record is a regular file's, and every entry one of the keys with that
/// number. The bound on the number of keys is one no `Vec` can reach.
pub proof fn lemma_initialize_lists_keys(keys: Seq<Seq<char>>, uid: u32, gid: u32, ts: Timestamp)
    requires
        forall|i: int, j: int| 0 <= i < keys.len() && 0 <= j < keys.len() && i != j ==> keys[i] != keys[j],
        forall|i: int| 0 <= i < keys.len() ==> keys[i] != root_name(),
        keys.len() + 2 < u64::MAX,
    ensures
        RegistryModel::empty().initialize(keys, uid, gid, ts).listing().len() == keys.len(),
        forall|i: int|
            0 <= i < keys.len() ==> RegistryModel::empty().initialize(keys, uid, gid, ts).resolve(#[trigger] keys[i])
                == Some((i + 2) as u64),
        forall|j: int|
            #![trigger RegistryModel::empty().initialize(keys, uid, gid, ts).listing()[j]]
            0 <= j < keys.len() ==> exists|i: int|
                0 <= i < keys.len() && RegistryModel::empty().initialize(keys, uid, gid, ts).listing()[j] == ((i + 2) as u64, #[trigger] keys[i]),
        forall|i: int|
            0 <= i < keys.len() ==> #[trigger] RegistryModel::empty().initialize(keys, uid, gid, ts).attributes_of((i + 2) as u64)
                == Some(synthesized(FileKind::RegularFile, (i + 2) as u64, ts, uid, gid)),
{
    let base = RegistryModel {
        root: Some(synthesized(FileKind::Directory, ROOT_INO, ts, uid, gid)),
        ..RegistryModel::empty()
    };
    lemma_allocate_all_fresh(base, keys, uid, gid, ts);
    let m = RegistryModel::empty().initialize(keys, uid, gid, ts);
    assert(m == base.allocate_all(keys, uid, gid, ts));
    assert forall|i: int| 0 <= i < keys.len() implies m.resolve(#[trigger] keys[i]) == Some((i + 2) as u64) by {
        assert(has_name(m.files, keys[i]));
        let x = index_of_name(m.files, keys[i]);
        assert(m.files[x].0 == keys[i]);
        let i2 = choose|i2: int| 0 <= i2 < keys.len() && m.files[x] == #[trigger] keyed(keys, i2, uid, gid, ts);
        assert(keys[i2] == keys[i]);
    }
    assert forall|j: int| #![trigger m.listing()[j]] 0 <= j < keys.len() implies exists|i: int|
        0 <= i < keys.len() && m.listing()[j] == ((i + 2) as u64, #[trigger] keys[i]) by {
        let i = choose|i: int| 0 <= i < keys.len() && m.files[j] == #[trigger] keyed(keys, i, uid, gid, ts);
        assert(m.listing()[j] == ((i + 2) as u64, keys[i]));
    }
    assert forall|i: int| 0 <= i < keys.len() implies #[trigger] m.attributes_of((i + 2) as u64)
        == Some(synthesized(FileKind::RegularFile, (i + 2) as u64, ts, uid, gid)) by {
        assert(has_name(m.files, keys[i]));
        let x = choose|x: int| 0 <= x < m.files.len() && #[trigger] m.files[x].0 == keys[i];
        let i2 = choose|i2: int| 0 <= i2 < keys.len() && m.files[x] == #[trigger] keyed(keys, i2, uid, gid, ts);
        assert(keys[i2] == keys[i]);
        assert(m.files[x].1.ino == (i + 2) as u64);
        assert(has_ino(m.files, (i + 2) as u64));
        let y = index_of_ino(m.files, (i + 2) as u64);
        assert(m.files[y].1.ino == (i + 2) as u64);
        let i3 = choose|i3: int| 0 <= i3 < keys.len() && m.files[y] == #[trigger] keyed(keys, i3, uid, gid, ts);
        assert(i3 == i);
    }
}

/// One file: its name and its record.
pub struct Entry {
    pub name: String,
    pub attr: FileAttr,
}

/// The namespace registry. Files are held in one table, so a name and its
/// record can never drift apart. The table is kept in name order, and
/// listings follow it.
pub struct Registry {
    entries: Vec<Entry>,
    root: Option<FileAttr>,
    next_ino: u64,
}

impl View for Registry {
    type V = RegistryModel;

    closed spec fn view(&self) -> RegistryModel {
        RegistryModel {
            files: self.entries@.map_values(|e: Entry| (e.name@, e.attr)),
            root: self.root,
            next_ino: self.next_ino,
        }
    }
}


/// Whether `name` is the directory's reserved name.
fn is_root_name(name: &String) -> (r: bool)
    ensures
        r == (name@ == root_name()),
{
    let s = name.as_str();
    if s.unicode_len() == 1 && s.get_char(0) == '/' {
        assert(name@ =~= root_name());
        true
    } else {
        false
    }
}

impl Registry {
    /// An empty, uninitialized registry.
    pub fn new() -> (r: Registry)
        ensures
            r@ == RegistryModel::empty(),
            r@.wf(),
    {
        let r = Registry { entries: Vec::new(), root: None, next_ino: 2 };
        assert(r@.files =~= Seq::<(Seq<char>, FileAttr)>::empty());
        r
    }

    /// Whether the directory has been set up.
    pub fn is_initialized(&self) -> (r: bool)
        ensures
            r == self@.root.is_some(),
    {
        self.root.is_some()
    }

    /// The position of the file called `name`.
    fn find_name(&self, name: &String) -> (r: Option<usize>)
        requires
            self@.wf(),
        ensures
            match r {
                Some(i) => has_name(self@.files, name@) && index_of_name(self@.files, name@) == i,
                None => !has_name(self@.files, name@),
            },
    {
        let mut i: usize = 0;
        while i < self.entries.len()
            invariant
                self@.wf(),
                self@.files.len() == self.entries@.len(),
                i <= self.entries@.len(),
                forall|k: int| 0 <= k < i ==> self@.files[k].0 != name@,
            decreases self.entries@.len() - i,
        {
            if self.entries[i].name == *name {
                assert(self@.files[i as int].0 == name@);
                assert(has_name(self@.files, name@));
                let ghost j = index_of_name(self@.files, name@);
                assert(self@.files[j].0 == name@);
                return Some(i);
            }
            i += 1;
        }
        None
    }

    /// The position of the file with inode number `ino`.
    fn find_ino(&self, ino: u64) -> (r: Option<usize>)
        requires
            self@.wf(),
        ensures
            match r {
                Some(i) => has_ino(self@.files, ino) && index_of_ino(self@.files, ino) == i,
                None => !has_ino(self@.files, ino),
            },
    {
        let mut i: usize = 0;
        while i < self.entries.len()
            invariant
                self@.wf(),
                self@.files.len() == self.entries@.len(),
                i <= self.entries@.len(),
                forall|k: int| 0 <= k < i ==> self@.files[k].1.ino != ino,
            decreases self.entries@.len() - i,
        {
            if self.entries[i].attr.ino == ino {
                assert(self@.files[i as int].1.ino == ino);
                assert(has_ino(self@.files, ino));
                let ghost j = index_of_ino(self@.files, ino);
                assert(self@.files[j].1.ino == ino);
                return Some(i);
            }
            i += 1;
        }
        None
    }

    /// Where `name`, which no file carries, belongs in name order.
    fn position_for(&self, name: &String) -> (p: usize)
        requires
            self@.wf(),
            !has_name(self@.files, name@),
        ensures
            p == insert_position(self@.files, name@),
            p <= self@.files.len(),
    {
        proof {
            lemma_fits_at(self@.files, name@);
        }
        let mut p: usize = 0;
        while p < self.entries.len() && less_than(&self.entries[p].name, name)
            invariant
                self@.wf(),
                !has_name(self@.files, name@),
                self@.files.len() == self.entries@.len(),
                p <= self.entries@.len(),
                forall|i: int| 0 <= i < p ==> name_lt(#[trigger] self@.files[i].0, name@),
            decreases self.entries@.len() - p,
        {
            p += 1;
        }
        proof {
            let files = self@.files;
            if p < files.len() {
                assert(!name_lt(files[p as int].0, name@));
                assert(files[p as int].0 != name@);
                lemma_name_lt_strict_total(files[p as int].0, name@);
                assert forall|i: int| p <= i < files.len() implies name_lt(name@, #[trigger] files[i].0) by {
                    if i > p {
                        lemma_name_lt_transitive(name@, files[p as int].0, files[i].0);
                    }
                }
            }
            assert(fits_at(files, name@, p as int));
        }
        p
    }

    /// The inode number of the file called `name`.
    pub fn resolve(&self, name: &String) -> (r: Option<u64>)
        requires
            self@.wf(),
        ensures
            r == self@.resolve(name@),
    {
        match self.find_name(name) {
            Some(i) => Some(self.entries[i].attr.ino),
            None => None,
        }
    }

    /// The record of inode `ino`.
    pub fn attributes_of(&self, ino: u64) -> (r: Option<FileAttr>)
        requires
            self@.wf(),
        ensures
            r == self@.attributes_of(ino),
    {
        if ino == ROOT_INO {
            self.root
        } else {
            match self.find_ino(ino) {
                Some(i) => Some(self.entries[i].attr),
                None => None,
            }
        }
    }

    /// The name of the file with inode number `ino`.
    pub fn name_of(&self, ino: u64) -> (r: Option<String>)
        requires
            self@.wf(),
        ensures
            match r {
                Some(s) => self@.name_of(ino) == Some(s@),
                None => self@.name_of(ino) is None,
            },
    {
        match self.find_ino(ino) {
            Some(i) => Some(self.entries[i].name.clone()),
            None => None,
        }
    }

    /// Mint the next inode number for `name`, with the record stamped `ts`.
    pub fn allocate_at(&mut self, name: &String, kind: FileKind, uid: u32, gid: u32, ts: Timestamp) -> (r: Option<FileAttr>)
        requires
            old(self)@.wf(),
        ensures
            (final(self)@, r) == old(self)@.allocate(name@, kind, uid, gid, ts),
            final(self)@.wf(),
    {
        if self.next_ino == u64::MAX || is_root_name(name) {
            return None;
        }
        let ghost pre = self@;
        let a = HashAttr::new(kind, self.next_ino, ts, uid, gid);
        proof {
            lemma_allocate_wf(pre, name@, kind, uid, gid, ts);
        }
        match self.find_name(name) {
            Some(i) => {
                self.entries.set(i, Entry { name: name.clone(), attr: a });
                assert(self@.files =~= pre.files.update(i as int, (name@, a)));
            },
            None => {
                let p = self.position_for(name);
                self.entries.insert(p, Entry { name: name.clone(), attr: a });
                assert(self@.files =~= pre.files.insert(p as int, (name@, a)));
            },
        }
        self.next_ino = self.next_ino + 1;
        Some(a)
    }

    /// Mint the next inode number for `name`, stamped with the current time.
    pub fn allocate(&mut self, name: &String, kind: FileKind, uid: u32, gid: u32) -> (r: Option<FileAttr>)
        requires
            old(self)@.wf(),
        ensures
            exists|ts: Timestamp| (final(self)@, r) == #[trigger] old(self)@.allocate(name@, kind, uid, gid, ts),
            final(self)@.wf(),
    {
        let ts = current_time();
        self.allocate_at(name, kind, uid, gid, ts)
    }

    /// Remove the file called `name` and retire its inode number.
    pub fn release(&mut self, name: &String) -> (r: Result<(), FsError>)
        requires
            old(self)@.wf(),
        ensures
            final(self)@ == old(self)@.release(name@).0,
            r == (if old(self)@.release(name@).1 { Ok::<(), FsError>(()) } else { Err(FsError::NotFound) }),
            final(self)@.wf(),
    {
        let ghost pre = self@;
        proof {
            lemma_release_wf(pre, name@);
        }
        match self.find_name(name) {
            Some(i) => {
                self.entries.remove(i);
                assert(self@.files =~= pre.files.remove(i as int));
                Ok(())
            },
            None => Err(FsError::NotFound),
        }
    }

    /// The files under the directory as inode number and name.
    pub fn list_root(&self) -> (r: Vec<(u64, String)>)
        ensures
            listed(r@) == self@.listing(),
    {
        let mut out: Vec<(u64, String)> = Vec::new();
        let mut i: usize = 0;
        while i < self.entries.len()
            invariant
                self@.files.len() == self.entries@.len(),
                i <= self.entries@.len(),
                listed(out@) =~= self@.listing().subrange(0, i as int),
            decreases self.entries@.len() - i,
        {
            let e = &self.entries[i];
            let name = e.name.clone();
            assert(name@ == self@.files[i as int].0);
            let ghost prev = out@;
            let ghost item = (e.attr.ino, name);
            assert(listed(prev).len() == i);
            out.push((e.attr.ino, name));
            assert(out@ == prev.push(item));
            assert(listed(out@).len() == i + 1);
            assert(listed(out@)[i as int] == self@.listing()[i as int]);
            assert forall|k: int| 0 <= k < i + 1 implies #[trigger] listed(out@)[k] == self@.listing()[k] by {
                if k < i {
                    assert(listed(prev)[k] == self@.listing().subrange(0, i as int)[k]);
                }
            }
            assert(listed(out@) =~= self@.listing().subrange(0, i + 1));
            i += 1;
        }
        assert(self@.listing().subrange(0, i as int) =~= self@.listing());
        out
    }

    /// Set up the directory's record and allocate a file for each key, in
    /// order, every record stamped `ts`.
    pub fn initialize_at(&mut self, keys: &Vec<String>, uid: u32, gid: u32, ts: Timestamp)
        requires
            old(self)@.wf(),
            old(self)@.root is None,
        ensures
            final(self)@ == #[trigger] old(self)@.initialize(key_names(keys@), uid, gid, ts),
            final(self)@.wf(),
    {
        let ghost kv = key_names(keys@);
        self.root = Some(HashAttr::new(FileKind::Directory, ROOT_INO, ts, uid, gid));
        let ghost start = self@;
        assert(start.allocate_all(kv.subrange(0, 0), uid, gid, ts) == start);
        let mut i: usize = 0;
        while i < keys.len()
            invariant
                kv == key_names(keys@),
                i <= keys@.len(),
                self@.wf(),
                self@ == start.allocate_all(kv.subrange(0, i as int), uid, gid, ts),
            decreases keys@.len() - i,
        {
            let _ = self.allocate_at(&keys[i], FileKind::RegularFile, uid, gid, ts);
            assert(kv.subrange(0, i + 1).drop_last() =~= kv.subrange(0, i as int));
            i += 1;
        }
        assert(kv.subrange(0, i as int) =~= kv);
    }

    /// Set up the directory and one file per key, stamped with the current time.
    pub fn initialize(&mut self, keys: &Vec<String>, uid: u32, gid: u32)
        requires
            old(self)@.wf(),
            old(self)@.root is None,
        ensures
            exists|ts: Timestamp| final(self)@ == #[trigger] old(self)@.initialize(key_names(keys@), uid, gid, ts),
            final(self)@.wf(),
    {
        let ts = current_time();
        self.initialize_at(keys, uid, gid, ts);
    }
} // impl Registry

} // verus!
