//! The repository: an initialized layout holding compressed objects under
//! their identifiers, with the fan-out directories the writer creates lazily.
//!
//! The type models the durable state that the initializer, the writer and the
//! reader share: its view exposes whether the layout exists, the bytes of the
//! default-branch pointer, the set of fan-out directory names, and a map from
//! identifier to the kind and payload stored under it.

use vstd::prelude::*;

use crate::codec::{bytes_eq, frame, lemma_parse_frame, push_all, ObjectHandle};
use crate::compress::{compress_object, decode_stored, zlib_inflate};
use crate::hashing::{id_of, object_id};
use crate::object::{Error, ObjectType};

verus! {

/// The contents of the default-branch pointer file written at
/// initialization: `"ref: refs/heads/main\n"`.
pub open spec fn head_line() -> Seq<u8> {
    seq![
        114u8,
        101u8,
        102u8,
        58u8,
        32u8,
        114u8,
        101u8,
        102u8,
        115u8,
        47u8,
        104u8,
        101u8,
        97u8,
        100u8,
        115u8,
        47u8,
        109u8,
        97u8,
        105u8,
        110u8,
        10u8,
    ]
}

/// The abstract state of a repository.
#[verifier::ext_equal]
pub struct RepoView {
    /// Whether the layout has been created.
    pub initialized: bool,
    /// The bytes of the default-branch pointer file.
    pub head: Seq<u8>,
    /// The names of the fan-out subdirectories that exist under the object
    /// directory.
    pub dirs: Set<Seq<u8>>,
    /// The stored objects: identifier to (kind, payload).
    pub objects: Map<Seq<u8>, (ObjectType, Seq<u8>)>,
}

/// One stored object: its identifier, its compressed bytes, and (ghost) the
/// kind and payload it was written from.
struct Entry {
    id: Vec<u8>,
    data: Vec<u8>,
    kind: Ghost<ObjectType>,
    payload: Ghost<Seq<u8>>,
}

impl Entry {
    /// The stored bytes really are the compressed frame of the recorded kind
    /// and payload, filed under their identifier.
    spec fn inv(self) -> bool {
        &&& self.id@ == id_of(self.kind@, self.payload@)
        &&& zlib_inflate(self.data@) == Some(frame(self.kind@, self.payload@))
        &&& self.payload@.len() <= u64::MAX
    }
}

spec fn dirs_set(s: Seq<Vec<u8>>) -> Set<Seq<u8>>
    decreases s.len(),
{
    if s.len() == 0 {
        Set::empty()
    } else {
        dirs_set(s.drop_last()).insert(s.last()@)
    }
}

spec fn entries_map(s: Seq<Entry>) -> Map<Seq<u8>, (ObjectType, Seq<u8>)>
    decreases s.len(),
{
    if s.len() == 0 {
        Map::empty()
    } else {
        entries_map(s.drop_last()).insert(s.last().id@, (s.last().kind@, s.last().payload@))
    }
}

spec fn lookup(s: Seq<Entry>, x: Seq<u8>) -> Option<Entry>
    decreases s.len(),
{
    if s.len() == 0 {
        None
    } else if s.last().id@ == x {
        Some(s.last())
    } else {
        lookup(s.drop_last(), x)
    }
}

proof fn lemma_dirs_set_contains(s: Seq<Vec<u8>>, x: Seq<u8>)
    ensures
        dirs_set(s).contains(x) <==> (exists|i: int| 0 <= i < s.len() && (#[trigger] s[i])@ == x),
    decreases s.len(),
{
    if s.len() > 0 {
        lemma_dirs_set_contains(s.drop_last(), x);
        if s.last()@ == x {
            assert(s[s.len() - 1]@ == x);
        } else {
            if dirs_set(s).contains(x) {
                let i = choose|i: int|
                    0 <= i < s.drop_last().len() && (#[trigger] s.drop_last()[i])@ == x;
                assert((s[i])@ == x);
            }
            if exists|i: int| 0 <= i < s.len() && (#[trigger] s[i])@ == x {
                let i = choose|i: int| 0 <= i < s.len() && (#[trigger] s[i])@ == x;
                assert(s.drop_last()[i]@ == x);
            }
        }
    }
}

proof fn lemma_lookup_map(s: Seq<Entry>, x: Seq<u8>)
    ensures
        match lookup(s, x) {
            Some(e) => entries_map(s).contains_key(x) && entries_map(s)[x] == (
                e.kind@,
                e.payload@,
            ) && e.id@ == x && (exists|i: int| 0 <= i < s.len() && s[i] == e),
            None => !entries_map(s).contains_key(x),
        },
    decreases s.len(),
{
    if s.len() > 0 {
        lemma_lookup_map(s.drop_last(), x);
        if s.last().id@ == x {
            assert(s[s.len() - 1] == s.last());
        } else {
            match lookup(s.drop_last(), x) {
                Some(e) => {
                    let i = choose|i: int| 0 <= i < s.drop_last().len() && s.drop_last()[i] == e;
                    assert(s[i] == e);
                },
                None => {},
            }
        }
    }
}

/// What persisting an object does to the repository state: the fan-out
/// directory named by the identifier's first two digits exists afterwards,
/// and the object is filed under its identifier.
pub open spec fn spec_write(v: RepoView, t: ObjectType, p: Seq<u8>) -> RepoView {
    RepoView {
        dirs: v.dirs.insert(id_of(t, p).take(2)),
        objects: v.objects.insert(id_of(t, p), (t, p)),
        ..v
    }
}

/// What querying a kind yields: the stored kind, or `NotFound`.
pub open spec fn spec_query_type(v: RepoView, id: Seq<u8>) -> Result<ObjectType, Error> {
    if v.objects.contains_key(id) {
        Ok(v.objects[id].0)
    } else {
        Err(Error::NotFound)
    }
}

/// What querying a size yields: the stored payload's length, or `NotFound`.
pub open spec fn spec_query_size(v: RepoView, id: Seq<u8>) -> Result<int, Error> {
    if v.objects.contains_key(id) {
        Ok(v.objects[id].1.len() as int)
    } else {
        Err(Error::NotFound)
    }
}

/// What reading content yields: the stored payload, or `NotFound`.
pub open spec fn spec_read_content(v: RepoView, id: Seq<u8>) -> Result<Seq<u8>, Error> {
    if v.objects.contains_key(id) {
        Ok(v.objects[id].1)
    } else {
        Err(Error::NotFound)
    }
}

/// The state right after initializing an empty root.
pub open spec fn init_view() -> RepoView {
    RepoView { initialized: true, head: head_line(), dirs: Set::empty(), objects: Map::empty() }
}

/// A repository root. Objects are immutable once written; the reader only
/// observes.
pub struct Repository {
    initialized: bool,
    head: Vec<u8>,
    dirs: Vec<Vec<u8>>,
    entries: Vec<Entry>,
}

impl View for Repository {
    type V = RepoView;

    closed spec fn view(&self) -> RepoView {
        RepoView {
            initialized: self.initialized,
            head: self.head@,
            dirs: dirs_set(self.dirs@),
            objects: entries_map(self.entries@),
        }
    }
}

impl Repository {
    /// Every stored entry is well formed.
    pub closed spec fn wf(self) -> bool {
        forall|i: int| 0 <= i < self.entries@.len() ==> (#[trigger] self.entries@[i]).inv()
    }

    /// An empty root: no layout, no objects.
    pub fn new() -> (r: Repository)
        ensures
            r.wf(),
            r@ == (RepoView {
                initialized: false,
                head: Seq::empty(),
                dirs: Set::empty(),
                objects: Map::empty(),
            }),
    {
        let r = Repository {
            initialized: false,
            head: Vec::new(),
            dirs: Vec::new(),
            entries: Vec::new(),
        };
        proof {
            assert(r@ =~= (RepoView {
                initialized: false,
                head: Seq::empty(),
                dirs: Set::empty(),
                objects: Map::empty(),
            }));
        }
        r
    }

    /// Create the repository layout: fails with `AlreadyExists` if it is
    /// already there, otherwise records the layout and the default-branch
    /// pointer.
    pub fn initialize(&mut self) -> (r: Result<(), Error>)
        requires
            old(self).wf(),
        ensures
            final(self).wf(),
            old(self)@.initialized ==> r == Err::<(), Error>(Error::AlreadyExists) && final(self)@
                == old(self)@,
            !old(self)@.initialized ==> r == Ok::<(), Error>(()) && final(self)@ == (RepoView {
                initialized: true,
                head: head_line(),
                ..old(self)@
            }),
    {
        if self.initialized {
            return Err(Error::AlreadyExists);
        }
        self.initialized = true;
        self.head = default_head();
        proof {
            assert(self@ =~= (RepoView { initialized: true, head: head_line(), ..old(self)@ }));
        }
        Ok(())
    }

    fn has_dir(&self, d: &[u8]) -> (r: bool)
        ensures
            r == self@.dirs.contains(d@),
    {
        let n: usize = self.dirs.len();
        let mut i: usize = 0;
        while i < n
            invariant
                n == self.dirs@.len(),
                0 <= i <= n,
                forall|j: int| 0 <= j < i ==> (#[trigger] self.dirs@[j])@ != d@,
            decreases n - i,
        {
            if bytes_eq(self.dirs[i].as_slice(), d) {
                proof {
                    lemma_dirs_set_contains(self.dirs@, d@);
                }
                return true;
            }
            i += 1;
        }
        proof {
            lemma_dirs_set_contains(self.dirs@, d@);
        }
        false
    }

    /// Store an object. The identifier is computed and returned whether or
    /// not persistence was asked for; with `persist` the object and, if
    /// absent, its fan-out directory are created, which succeeds on every
    /// initialized repository whatever it already holds. Writing into an
    /// uninitialized root is the one storage failure.
    pub fn write_object(&mut self, kind: ObjectType, payload: &[u8], persist: bool) -> (r: Result<
        Vec<u8>,
        Error,
    >)
        requires
            old(self).wf(),
        ensures
            final(self).wf(),
            match r {
                Ok(h) => h@ == id_of(kind, payload@) && h@.len() == 40,
                Err(e) => e == Error::IoFailure,
            },
            !persist ==> (r matches Ok(_) && final(self)@ == old(self)@),
            persist && !old(self)@.initialized ==> (r matches Err(_) && final(self)@ == old(
                self,
            )@),
            persist && old(self)@.initialized ==> (r matches Ok(_) && final(self)@ == spec_write(
                old(self)@,
                kind,
                payload@,
            )),
    {
        // a slice's length fits in usize, so the payload fits the u64 length
        // header and the stored entry's bound on it
        let plen: usize = payload.len();
        proof {
            assert(payload@.len() == plen);
            assert(plen <= usize::MAX);
        }
        let id = object_id(kind, payload);
        if !persist {
            return Ok(id);
        }
        if !self.initialized {
            return Err(Error::IoFailure);
        }
        let compressed = compress_object(kind, payload);
        let mut dir: Vec<u8> = Vec::new();
        dir.push(id[0]);
        dir.push(id[1]);
        proof {
            assert(dir@ =~= id@.take(2));
        }
        let ghost pre_dirs = self.dirs@;
        if !self.has_dir(dir.as_slice()) {
            self.dirs.push(dir);
            proof {
                assert(self.dirs@.drop_last() =~= pre_dirs);
                assert(dirs_set(self.dirs@) =~= dirs_set(pre_dirs).insert(id@.take(2)));
            }
        } else {
            proof {
                assert(dirs_set(self.dirs@) =~= dirs_set(pre_dirs).insert(id@.take(2)));
            }
        }
        let mut ret: Vec<u8> = Vec::new();
        push_all(&mut ret, id.as_slice());
        let ghost pre_entries = self.entries@;
        let entry = Entry { id, data: compressed, kind: Ghost(kind), payload: Ghost(payload@) };
        self.entries.push(entry);
        proof {
            assert(self.entries@.drop_last() =~= pre_entries);
            assert(self.entries@.last().inv());
            assert(forall|i: int|
                0 <= i < pre_entries.len() ==> self.entries@[i] == pre_entries[i]);
            assert(entries_map(self.entries@) =~= entries_map(pre_entries).insert(
                id_of(kind, payload@),
                (kind, payload@),
            ));
            assert(self@ =~= spec_write(old(self)@, kind, payload@));
        }
        Ok(ret)
    }

    fn find_entry(&self, id: &[u8]) -> (r: Option<usize>)
        ensures
            match r {
                Some(j) => j < self.entries@.len() && lookup(self.entries@, id@) == Some(
                    self.entries@[j as int],
                ) && self.entries@[j as int].id@ == id@,
                None => lookup(self.entries@, id@) == None::<Entry>,
            },
    {
        let mut i: usize = self.entries.len();
        proof {
            assert(self.entries@.take(i as int) =~= self.entries@);
        }
        while i > 0
            invariant
                i <= self.entries@.len(),
                lookup(self.entries@, id@) == lookup(self.entries@.take(i as int), id@),
            decreases i,
        {
            let e = &self.entries[i - 1];
            let ghost t = self.entries@.take(i as int);
            proof {
                assert(t.last() == self.entries@[i - 1]);
            }
            if bytes_eq(e.id.as_slice(), id) {
                proof {
                    assert(lookup(t, id@) == Some(t.last()));
                }
                return Some(i - 1);
            }
            proof {
                assert(t.drop_last() =~= self.entries@.take(i - 1));
            }
            i -= 1;
        }
        proof {
            assert(self.entries@.take(0).len() == 0);
        }
        None
    }

    /// Look an object up and decode it. `None` exactly when no object is
    /// stored under the identifier; a stored object always decodes, so a
    /// repository built through this type never reports corruption.
    fn read_entry(&self, id: &[u8]) -> (r: Option<ObjectHandle>)
        requires
            self.wf(),
        ensures
            match r {
                Some(h) => self@.objects.contains_key(id@) && self@.objects[id@] == (
                    h.kind,
                    h.content@,
                ) && h.length as int == h.content@.len(),
                None => !self@.objects.contains_key(id@),
            },
    {
        let idx = match self.find_entry(id) {
            Some(j) => j,
            None => {
                proof {
                    lemma_lookup_map(self.entries@, id@);
                }
                return None;
            },
        };
        let e = &self.entries[idx];
        proof {
            lemma_lookup_map(self.entries@, id@);
            assert(e.inv());
            lemma_parse_frame(e.kind@, e.payload@);
        }
        match decode_stored(e.data.as_slice()) {
            Ok(h) => Some(h),
            Err(_) => {
                proof {
                    assert(false);
                }
                None
            },
        }
    }

    /// The kind of the object stored under `id`, or `NotFound`.
    pub fn query_type(&self, id: &[u8]) -> (r: Result<ObjectType, Error>)
        requires
            self.wf(),
        ensures
            r == spec_query_type(self@, id@),
    {
        match self.read_entry(id) {
            Some(h) => Ok(h.kind),
            None => Err(Error::NotFound),
        }
    }

    /// The declared size of the object stored under `id`, or `NotFound`. The
    /// declared size always equals the payload's length here, because the
    /// writer computes the header from the payload.
    pub fn query_size(&self, id: &[u8]) -> (r: Result<u64, Error>)
        requires
            self.wf(),
        ensures
            match spec_query_size(self@, id@) {
                Ok(l) => r matches Ok(s) && s as int == l,
                Err(e) => r == Err::<u64, Error>(e),
            },
    {
        match self.read_entry(id) {
            Some(h) => Ok(h.length),
            None => Err(Error::NotFound),
        }
    }

    /// The payload of the object stored under `id`, byte for byte, or
    /// `NotFound`; a missing object is never reported as empty content.
    pub fn read_content(&self, id: &[u8]) -> (r: Result<Vec<u8>, Error>)
        requires
            self.wf(),
        ensures
            match spec_read_content(self@, id@) {
                Ok(c) => r matches Ok(v) && v@ == c,
                Err(e) => r == Err::<Vec<u8>, Error>(e),
            },
    {
        match self.read_entry(id) {
            Some(h) => Ok(h.content),
            None => Err(Error::NotFound),
        }
    }
}

/// The bytes of the default-branch pointer file that initialization writes.
pub fn default_head() -> (r: Vec<u8>)
    ensures
        r@ == head_line(),
{
    let mut v: Vec<u8> = Vec::new();
    v.push(114u8);
    v.push(101u8);
    v.push(102u8);
    v.push(58u8);
    v.push(32u8);
    v.push(114u8);
    v.push(101u8);
    v.push(102u8);
    v.push(115u8);
    v.push(47u8);
    v.push(104u8);
    v.push(101u8);
    v.push(97u8);
    v.push(100u8);
    v.push(115u8);
    v.push(47u8);
    v.push(109u8);
    v.push(97u8);
    v.push(105u8);
    v.push(110u8);
    v.push(10u8);
    proof {
        assert(v@ =~= head_line());
    }
    v
}

/// Round trip: once an object has been persisted, each query on its
/// identifier succeeds and returns the written kind, the written payload's
/// length, and the written payload byte for byte.
pub proof fn lemma_write_round_trip(v: RepoView, t: ObjectType, p: Seq<u8>)
    ensures
        spec_query_type(spec_write(v, t, p), id_of(t, p)) == Ok::<ObjectType, Error>(t),
        spec_query_size(spec_write(v, t, p), id_of(t, p)) == Ok::<int, Error>(p.len() as int),
        spec_read_content(spec_write(v, t, p), id_of(t, p)) == Ok::<Seq<u8>, Error>(p),
{
}

/// Writing the same kind and payload again changes nothing: the object file
/// holds the same bytes under the same identifier, and the fan-out directory
/// is already there, which is no error.
pub proof fn lemma_write_idempotent(v: RepoView, t: ObjectType, p: Seq<u8>)
    ensures
        spec_write(spec_write(v, t, p), t, p) == spec_write(v, t, p),
{
    let a = spec_write(v, t, p);
    let b = spec_write(a, t, p);
    assert(b.objects =~= a.objects);
    assert(b.dirs =~= a.dirs);
    assert(b =~= a);
}

/// A well-formed but absent identifier is reported as `NotFound` by every
/// query, never as empty content or some other error.
pub proof fn lemma_missing_object(v: RepoView, id: Seq<u8>)
    requires
        !v.objects.contains_key(id),
    ensures
        spec_query_type(v, id) == Err::<ObjectType, Error>(Error::NotFound),
        spec_query_size(v, id) == Err::<int, Error>(Error::NotFound),
        spec_read_content(v, id) == Err::<Seq<u8>, Error>(Error::NotFound),
{
}

/// Initializing an empty root and then persisting any object lets that
/// object be read back, with no further setup in between.
pub proof fn lemma_init_then_write(t: ObjectType, p: Seq<u8>)
    ensures
        spec_write(init_view(), t, p).initialized,
        spec_read_content(spec_write(init_view(), t, p), id_of(t, p)) == Ok::<Seq<u8>, Error>(p),
{
    lemma_write_round_trip(init_view(), t, p);
}

} // verus!
