//! The filesystem operations: each callback answered from the
//! namespace registry, with the backing-store request it needs.

use crate::attr::{owned_by, FileAttr, FileKind, Timestamp, ROOT_INO};
use crate::error::FsError;
use crate::registry::{Registry, RegistryModel};
use crate::store::{answer, apply, StoreOp, StoreRequest};
use vstd::prelude::*;

verus! {

/// The connection target for a store at `host` and `port`, written one after
/// the other.
pub open spec fn store_url(host: Seq<char>, port: Seq<char>) -> Seq<char> {
    "redis://"@ + host + port + "/"@
}

/// `s` with every double quote taken out.
pub open spec fn without_quotes(s: Seq<char>) -> Seq<char> {
    s.filter(|c: char| c != '"')
}

/// A configuration value's text with its quotes taken out, as the store's
/// host and port are written into the connection target.
pub fn unquote(s: &str) -> (r: String)
    ensures
        r@ == without_quotes(s@),
{
    let n = s.unicode_len();
    let mut out = String::new();
    let mut i: usize = 0;
    proof {
        reveal_with_fuel(Seq::filter, 1);
        assert(s@.subrange(0, 0) =~= Seq::<char>::empty());
    }
    while i < n
        invariant
            n == s@.len(),
            i <= n,
            out@ == without_quotes(s@.subrange(0, i as int)),
        decreases n - i,
    {
        let c = s.get_char(i);
        if c != '"' {
            out.append(s.substring_char(i, i + 1));
        }
        proof {
            let t = s@.subrange(0, i + 1);
            assert(t.drop_last() =~= s@.subrange(0, i as int));
            assert(t.last() == c);
            assert(s@.subrange(i as int, i + 1) =~= seq![c]);
            reveal_with_fuel(Seq::filter, 1);
        }
        i += 1;
    }
    assert(s@.subrange(0, n as int) =~= s@);
    out
}

/// One line of a directory listing: the entry's inode number, the cursor
/// value that follows it, its kind and its name.
pub struct DirEntry {
    pub ino: u64,
    pub offset: i64,
    pub kind: FileKind,
    pub name: String,
}

/// A listing line as a mathematical value.
pub open spec fn dir_entry_view(e: DirEntry) -> (u64, i64, FileKind, Seq<char>) {
    (e.ino, e.offset, e.kind, e.name@)
}

/// A listing as mathematical values.
pub open spec fn dir_view(r: Seq<DirEntry>) -> Seq<(u64, i64, FileKind, Seq<char>)> {
    r.map_values(|e: DirEntry| dir_entry_view(e))
}

/// A registry answer turned into a filesystem result.
pub open spec fn found<T>(o: Option<T>) -> Result<T, FsError> {
    match o {
        Some(v) => Ok(v),
        None => Err(FsError::NotFound),
    }
}

/// A result that carries a request, with the request as a value.
pub open spec fn request_view(r: Result<StoreRequest, FsError>) -> Result<StoreOp, FsError> {
    match r {
        Ok(q) => Ok(q@),
        Err(e) => Err(e),
    }
}

/// What `lookup` answers: the record of the file called `name` under the
/// directory, owned by the caller.
pub open spec fn lookup_spec(ns: RegistryModel, parent: u64, name: Seq<char>, uid: u32, gid: u32) -> Result<FileAttr, FsError> {
    if parent != ROOT_INO {
        Err(FsError::NotFound)
    } else {
        match ns.resolve(name) {
            Some(ino) => match ns.attributes_of(ino) {
                Some(a) => Ok(owned_by(a, uid, gid)),
                None => Err(FsError::NotFound),
            },
            None => Err(FsError::NotFound),
        }
    }
}

/// What `read` asks of the store: the field named after the inode's file.
pub open spec fn read_spec(ns: RegistryModel, ino: u64) -> Result<StoreOp, FsError> {
    match ns.name_of(ino) {
        Some(n) => Ok(StoreOp::Get(n)),
        None => Err(FsError::NotFound),
    }
}

/// What `write` asks of the store: the whole of `data` under the field named
/// after the inode's file.
pub open spec fn write_spec(ns: RegistryModel, ino: u64, data: Seq<u8>) -> Result<StoreOp, FsError> {
    match ns.name_of(ino) {
        Some(n) => Ok(StoreOp::Put(n, data)),
        None => Err(FsError::NotFound),
    }
}

/// What `readdir` lists: every file once, at offset 0 only, with its inode
/// number as the cursor value; nothing but the directory can be listed.
pub open spec fn readdir_spec(ns: RegistryModel, ino: u64, offset: i64) -> Result<Seq<(u64, i64, FileKind, Seq<char>)>, FsError> {
    if ino != ROOT_INO {
        Err(FsError::NotFound)
    } else if offset != 0 {
        Ok(Seq::empty())
    } else {
        Ok(ns.listing().map_values(|p: (u64, Seq<char>)| (p.0, p.0 as i64, FileKind::RegularFile, p.1)))
    }
}

/// What `create` makes of an allocation.
pub open spec fn created(a: Option<FileAttr>) -> Result<FileAttr, FsError> {
    match a {
        Some(a) => Ok(a),
        None => Err(FsError::Conflict),
    }
}

/// A write to a file followed by a read of it, with nothing else touching
/// the hash between them, reads back exactly what was written.
pub proof fn lemma_write_then_read(ns: RegistryModel, ino: u64, data: Seq<u8>, hash: Map<Seq<char>, Seq<u8>>)
    ensures
        write_spec(ns, ino, data) matches Ok(w) ==> (read_spec(ns, ino) matches Ok(g) && answer(
            apply(hash, w),
            g,
        ) == Some(data)),
{
}

/// The filesystem: the namespace of one hash of the store.
pub struct HashFs {
    store_url: String,
    hash_name: String,
    registry: Registry,
}

/// The filesystem as mathematical values.
pub struct HashFsModel {
    pub store_url: Seq<char>,
    pub hash_name: Seq<char>,
    pub ns: RegistryModel,
}

impl View for HashFs {
    type V = HashFsModel;

    closed spec fn view(&self) -> HashFsModel {
        HashFsModel { store_url: self.store_url@, hash_name: self.hash_name@, ns: self.registry@ }
    }
}

impl HashFs {
    /// A filesystem over the hash `hash_name` of the store at `host` and `port`,
    /// not yet initialized.
    pub fn new(hash_name: String, host: &str, port: &str) -> (r: HashFs)
        ensures
            r@.store_url == store_url(host@, port@),
            r@.hash_name == hash_name@,
            r@.ns == RegistryModel::empty(),
            r@.ns.wf(),
    {
        let mut url = String::from_str("redis://");
        url.append(host);
        url.append(port);
        url.append("/");
        HashFs { store_url: url, hash_name, registry: Registry::new() }
    }

    /// The connection target of the store.
    pub fn store_url(&self) -> (r: &String)
        ensures
            r@ == self@.store_url,
    {
        &self.store_url
    }

    /// The hash whose fields are the files.
    pub fn hash_name(&self) -> (r: &String)
        ensures
            r@ == self@.hash_name,
    {
        &self.hash_name
    }

    /// Whether `init` has run.
    pub fn is_initialized(&self) -> (r: bool)
        ensures
            r == self@.ns.root.is_some(),
    {
        self.registry.is_initialized()
    }

    /// Set up the namespace from the hash's keys, as enumerated by the store,
    /// on behalf of the caller `uid`/`gid`.
    pub fn init(&mut self, keys: &Vec<String>, uid: u32, gid: u32)
        requires
            old(self)@.ns.wf(),
            old(self)@.ns.root is None,
        ensures
            exists|ts: Timestamp| final(self)@.ns == #[trigger] old(self)@.ns.initialize(crate::registry::key_names(keys@), uid, gid, ts),
            final(self)@.ns.wf(),
            final(self)@.store_url == old(self)@.store_url,
            final(self)@.hash_name == old(self)@.hash_name,
    {
        self.registry.initialize(keys, uid, gid);
    }

    /// The record of the file called `name`, as seen by the caller.
    pub fn lookup(&self, parent: u64, name: &String, uid: u32, gid: u32) -> (r: Result<FileAttr, FsError>)
        requires
            self@.ns.wf(),
        ensures
            r == lookup_spec(self@.ns, parent, name@, uid, gid),
    {
        if parent != ROOT_INO {
            return Err(FsError::NotFound);
        }
        match self.registry.resolve(name) {
            Some(ino) => match self.registry.attributes_of(ino) {
                Some(a) => Ok(a.with_owner(uid, gid)),
                None => Err(FsError::NotFound),
            },
            None => Err(FsError::NotFound),
        }
    }

    /// The record of inode `ino`, as seen by the caller `uid`/`gid`, who is
    /// shown as its owner.
    pub fn getattr(&self, ino: u64, uid: u32, gid: u32) -> (r: Result<FileAttr, FsError>)
        requires
            self@.ns.wf(),
        ensures
            r == match self@.ns.attributes_of(ino) {
                Some(a) => Ok(owned_by(a, uid, gid)),
                None => Err(FsError::NotFound),
            },
    {
        match self.registry.attributes_of(ino) {
            Some(a) => Ok(a.with_owner(uid, gid)),
            None => Err(FsError::NotFound),
        }
    }

    /// Accepts a change of attributes without making it: the record of `ino`
    /// comes back as it was.
    pub fn setattr(&self, ino: u64) -> (r: Result<FileAttr, FsError>)
        requires
            self@.ns.wf(),
        ensures
            r == found(self@.ns.attributes_of(ino)),
    {
        match self.registry.attributes_of(ino) {
            Some(a) => Ok(a),
            None => Err(FsError::NotFound),
        }
    }

    /// The store request that reads the file `ino`. The whole value is read,
    /// whatever `offset` and `size` ask for.
    pub fn read(&self, ino: u64, _offset: i64, _size: u32) -> (r: Result<StoreRequest, FsError>)
        requires
            self@.ns.wf(),
        ensures
            request_view(r) == read_spec(self@.ns, ino),
    {
        match self.registry.name_of(ino) {
            Some(field) => Ok(StoreRequest::Get { field }),
            None => Err(FsError::NotFound),
        }
    }

    /// The store request that writes all of `data` to the file `ino`, and the
    /// number of bytes accepted.
    pub fn write(&self, ino: u64, _offset: i64, data: Vec<u8>) -> (r: Result<(StoreRequest, usize), FsError>)
        requires
            self@.ns.wf(),
        ensures
            request_view(
                match r {
                    Ok(p) => Ok(p.0),
                    Err(e) => Err(e),
                },
            ) == write_spec(self@.ns, ino, data@),
            r matches Ok(p) ==> p.1 == data@.len(),
    {
        let n = data.len();
        match self.registry.name_of(ino) {
            Some(field) => Ok((StoreRequest::Put { field, value: data }, n)),
            None => Err(FsError::NotFound),
        }
    }

    /// The directory listing: only the directory can be listed, and only a
    /// call at offset 0 lists anything.
    pub fn readdir(&self, ino: u64, offset: i64) -> (r: Result<Vec<DirEntry>, FsError>)
        requires
            self@.ns.wf(),
        ensures
            match r {
                Ok(v) => readdir_spec(self@.ns, ino, offset) == Ok::<_, FsError>(dir_view(v@)),
                Err(e) => readdir_spec(self@.ns, ino, offset) == Err::<Seq<(u64, i64, FileKind, Seq<char>)>, _>(e),
            },
    {
        if ino != ROOT_INO {
            return Err(FsError::NotFound);
        }
        let mut out: Vec<DirEntry> = Vec::new();
        if offset != 0 {
            assert(dir_view(out@) =~= Seq::empty());
            return Ok(out);
        }
        let files = self.registry.list_root();
        let ghost want = self@.ns.listing().map_values(|p: (u64, Seq<char>)| (p.0, p.0 as i64, FileKind::RegularFile, p.1));
        let mut i: usize = 0;
        while i < files.len()
            invariant
                i <= files@.len(),
                crate::registry::listed(files@) == self@.ns.listing(),
                want == self@.ns.listing().map_values(|p: (u64, Seq<char>)| (p.0, p.0 as i64, FileKind::RegularFile, p.1)),
                dir_view(out@) =~= want.subrange(0, i as int),
            decreases files@.len() - i,
        {
            let ino_i = files[i].0;
            let name = files[i].1.clone();
            let ghost prev = out@;
            assert(crate::registry::listed(files@)[i as int] == (ino_i, name@));
            let ghost item = DirEntry { ino: ino_i, offset: ino_i as i64, kind: FileKind::RegularFile, name };
            assert(dir_view(prev).len() == i);
            out.push(DirEntry { ino: ino_i, offset: ino_i as i64, kind: FileKind::RegularFile, name });
            assert(out@ == prev.push(item));
            assert(dir_view(out@).len() == i + 1);
            assert(dir_view(out@)[i as int] == want[i as int]);
            assert forall|k: int| 0 <= k < i + 1 implies #[trigger] dir_view(out@)[k] == want[k] by {
                if k < i {
                    assert(dir_view(prev)[k] == want.subrange(0, i as int)[k]);
                }
            }
            assert(dir_view(out@) =~= want.subrange(0, i + 1));
            i += 1;
        }
        assert(want.subrange(0, i as int) =~= want);
        Ok(out)
    }

    /// Create the file `name` with a record stamped `ts` and owned by the
    /// caller. Nothing is written to the store.
    pub fn create_at(&mut self, _parent: u64, name: &String, _mode: u32, uid: u32, gid: u32, ts: Timestamp) -> (r: Result<FileAttr, FsError>)
        requires
            old(self)@.ns.wf(),
        ensures
            final(self)@.ns == old(self)@.ns.allocate(name@, FileKind::RegularFile, uid, gid, ts).0,
            r == created(old(self)@.ns.allocate(name@, FileKind::RegularFile, uid, gid, ts).1),
            final(self)@.ns.wf(),
            final(self)@.store_url == old(self)@.store_url,
            final(self)@.hash_name == old(self)@.hash_name,
    {
        match self.registry.allocate_at(name, FileKind::RegularFile, uid, gid, ts) {
            Some(a) => Ok(a),
            None => Err(FsError::Conflict),
        }
    }

    /// Create the file `name`, stamped with the current time.
    pub fn create(&mut self, parent: u64, name: &String, mode: u32, uid: u32, gid: u32) -> (r: Result<FileAttr, FsError>)
        requires
            old(self)@.ns.wf(),
        ensures
            exists|ts: Timestamp|
                {
                    &&& final(self)@.ns == (#[trigger] old(self)@.ns.allocate(name@, FileKind::RegularFile, uid, gid, ts)).0
                    &&& r == created(old(self)@.ns.allocate(name@, FileKind::RegularFile, uid, gid, ts).1)
                },
            final(self)@.ns.wf(),
            final(self)@.store_url == old(self)@.store_url,
            final(self)@.hash_name == old(self)@.hash_name,
    {
        let ts = crate::clock::current_time();
        self.create_at(parent, name, mode, uid, gid, ts)
    }

    /// The store request that `unlink` of `name` sends first, whether or not
    /// the name is known.
    pub fn unlink_request(&self, name: &String) -> (r: StoreRequest)
        ensures
            r@ == StoreOp::Delete(name@),
    {
        StoreRequest::Delete { field: name.clone() }
    }

    /// Remove the file `name` from the namespace, once its field is deleted.
    pub fn unlink(&mut self, _parent: u64, name: &String) -> (r: Result<(), FsError>)
        requires
            old(self)@.ns.wf(),
        ensures
            final(self)@.ns == old(self)@.ns.release(name@).0,
            r == (if old(self)@.ns.release(name@).1 { Ok::<(), FsError>(()) } else { Err(FsError::NotFound) }),
            final(self)@.ns.wf(),
            final(self)@.store_url == old(self)@.store_url,
            final(self)@.hash_name == old(self)@.hash_name,
    {
        self.registry.release(name)
    }
}

} // verus!
