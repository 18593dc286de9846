//! A model of the part of the file system that the build reads and writes.
//!
//! Paths are sequences of components. The disk keeps, for each path it knows, the
//! modification time and the contents; it has a clock that never runs behind any
//! modification time, so a write always stamps its path later than everything
//! that was there before.

use vstd::prelude::*;
use crate::modified::Modified;

verus! {

/// Relies on `String::from_utf8`: `Ok` exactly when the bytes are UTF-8, holding
/// the text they encode.
#[verifier::external_body]
fn utf8_to_string(bytes: Vec<u8>) -> (r: Option<String>)
    ensures
        r is Some <==> vstd::utf8::valid_utf8(bytes@),
        r is Some ==> r->Some_0@ == vstd::utf8::decode_utf8(bytes@),
{
    String::from_utf8(bytes).ok()
}

/// What the disk holds at one path.
pub struct Node {
    pub mtime: u64,
    pub is_dir: bool,
    pub bytes: Seq<u8>,
}

/// The abstract state of a disk.
pub struct DiskView {
    pub files: Map<Seq<Seq<char>>, Node>,
    pub clock: u64,
    /// When the program itself was built: outputs older than this are redone.
    pub exe: Modified,
    /// The paths written since the log was last taken, in order.
    pub written: Seq<Seq<Seq<char>>>,
}

/// `child` sits directly inside `dir`.
pub open spec fn is_child(dir: Seq<Seq<char>>, child: Seq<Seq<char>>) -> bool {
    child.len() == dir.len() + 1 && child.subrange(0, dir.len() as int) == dir
}

/// The clock after one write.
pub open spec fn tick(clock: u64) -> u64 {
    if clock < u64::MAX {
        (clock + 1) as u64
    } else {
        clock
    }
}

impl DiskView {
    pub open spec fn wf(self) -> bool {
        &&& forall|p| #[trigger] self.files.contains_key(p) ==> self.files[p].mtime <= self.clock
        &&& self.exe.le(Modified::At(self.clock))
    }

    /// The modification stamp of `p`: `Never` when nothing is there.
    pub open spec fn stamp_of(self, p: Seq<Seq<char>>) -> Modified {
        if self.files.contains_key(p) {
            Modified::At(self.files[p].mtime)
        } else {
            Modified::Never
        }
    }

    /// The text of the file at `p`, when there is a file there and it is UTF-8.
    pub open spec fn text_of(self, p: Seq<Seq<char>>) -> Option<Seq<char>> {
        if self.files.contains_key(p) && !self.files[p].is_dir && vstd::utf8::valid_utf8(
            self.files[p].bytes,
        ) {
            Some(vstd::utf8::decode_utf8(self.files[p].bytes))
        } else {
            None
        }
    }

    /// The disk after `b` was written to `p`. A file that is new there also
    /// restamps its directory, as adding an entry does on a real file system.
    pub open spec fn after_write(self, p: Seq<Seq<char>>, b: Seq<u8>) -> DiskView {
        let t = tick(self.clock);
        let files = self.files.insert(p, Node { mtime: t, is_dir: false, bytes: b });
        let parent = p.take(p.len() - 1);
        DiskView {
            files: if p.len() > 0 && !self.files.contains_key(p) && self.is_dir(parent) {
                files.insert(parent, Node { mtime: t, ..self.files[parent] })
            } else {
                files
            },
            clock: t,
            written: self.written.push(p),
            ..self
        }
    }

    pub open spec fn is_dir(self, p: Seq<Seq<char>>) -> bool {
        self.files.contains_key(p) && self.files[p].is_dir
    }
}

/// A path that could not be read.
#[derive(Debug, Clone, PartialEq, Eq)]
pub struct ReadError {
    pub path: Vec<String>,
}

/// One path as it is stored on the disk.
#[derive(Debug, Clone)]
pub struct Entry {
    pub path: Vec<String>,
    pub mtime: u64,
    pub is_dir: bool,
    pub bytes: Vec<u8>,
}

impl Entry {
    pub open spec fn node(&self) -> Node {
        Node { mtime: self.mtime, is_dir: self.is_dir, bytes: self.bytes@ }
    }
}

/// Whether two paths name the same place.
pub fn same_path(a: &Vec<String>, b: &Vec<String>) -> (r: bool)
    ensures
        r == (a.deep_view() == b.deep_view()),
{
    if a.len() != b.len() {
        assert(a.deep_view().len() != b.deep_view().len());
        return false;
    }
    let mut i: usize = 0;
    while i < a.len()
        invariant
            0 <= i <= a.len(),
            a.len() == b.len(),
            forall|k: int| 0 <= k < i ==> a.deep_view()[k] == b.deep_view()[k],
        decreases a.len() - i,
    {
        let eq = a[i] == b[i];
        if !eq {
            assert(a.deep_view()[i as int] != b.deep_view()[i as int]);
            return false;
        }
        i += 1;
    }
    assert(a.deep_view() =~= b.deep_view());
    true
}

/// `listing` names each path directly inside `dir` on `d`, and nothing else.
pub open spec fn listing_matches(d: DiskView, dir: Seq<Seq<char>>, listing: Vec<Vec<String>>) -> bool {
    &&& forall|k: int|
        0 <= k < listing.len() ==> #[trigger] d.files.contains_key(listing[k].deep_view())
            && is_child(dir, listing[k].deep_view())
    &&& forall|q| #[trigger]
        d.files.contains_key(q) && is_child(dir, q) ==> exists|k: int|
            0 <= k < listing.len() && listing[k].deep_view() == q
    &&& forall|i: int, j: int|
        0 <= i < j < listing.len() ==> listing[i].deep_view() != listing[j].deep_view()
}

/// Whether `child` sits directly inside `dir`.
pub fn is_child_path(dir: &Vec<String>, child: &Vec<String>) -> (r: bool)
    ensures
        r == is_child(dir.deep_view(), child.deep_view()),
{
    if child.len() == 0 || child.len() - 1 != dir.len() {
        return false;
    }
    let mut i: usize = 0;
    while i < dir.len()
        invariant
            0 <= i <= dir.len(),
            child.len() == dir.len() + 1,
            forall|k: int| 0 <= k < i ==> child.deep_view()[k] == dir.deep_view()[k],
        decreases dir.len() - i,
    {
        let eq = child[i] == dir[i];
        if !eq {
            assert(child.deep_view().subrange(0, dir.len() as int)[i as int] != dir.deep_view()[i as int]);
            return false;
        }
        i += 1;
    }
    assert(child.deep_view().subrange(0, dir.len() as int) =~= dir.deep_view());
    true
}

/// The first `k` components of a path.
pub fn path_prefix(p: &Vec<String>, k: usize) -> (r: Vec<String>)
    requires
        k <= p.len(),
    ensures
        r.deep_view() == p.deep_view().take(k as int),
{
    let mut r: Vec<String> = Vec::new();
    let mut i: usize = 0;
    while i < k
        invariant
            k <= p.len(),
            0 <= i <= k,
            r.deep_view() == p.deep_view().take(i as int),
        decreases k - i,
    {
        let ghost before = r.deep_view();
        r.push(p[i].clone());
        assert(r.deep_view() =~= before.push(p.deep_view()[i as int]));
        assert(p.deep_view().take(i + 1) =~= p.deep_view().take(i as int).push(p.deep_view()[i as int]));
        i += 1;
    }
    r
}

/// A copy of a path.
pub fn copy_path(p: &Vec<String>) -> (r: Vec<String>)
    ensures
        r.deep_view() == p.deep_view(),
{
    let r = p.clone();
    assert(r.deep_view() =~= p.deep_view()) by {
        assert forall|k: int| 0 <= k < r.len() implies r.deep_view()[k] == p.deep_view()[k] by {
            assert(vstd::pervasive::cloned(p[k], r[k]));
        }
    }
    r
}

/// The file system model: the entries it holds, its clock, and the build time of
/// the program.
pub struct Disk {
    entries: Vec<Entry>,
    clock: u64,
    exe: Modified,
    written: Vec<Vec<String>>,
    files: Ghost<Map<Seq<Seq<char>>, Node>>,
}

impl View for Disk {
    type V = DiskView;

    closed spec fn view(&self) -> DiskView {
        DiskView {
            files: self.files@,
            clock: self.clock,
            exe: self.exe,
            written: self.written.deep_view(),
        }
    }
}

impl Disk {
    pub closed spec fn wf(&self) -> bool {
        &&& forall|i: int|
            0 <= i < self.entries.len() ==> #[trigger] self.files@.contains_key(
                self.entries[i].path.deep_view(),
            ) && self.files@[self.entries[i].path.deep_view()] == self.entries[i].node()
        &&& forall|p| #[trigger]
            self.files@.contains_key(p) ==> exists|i: int|
                0 <= i < self.entries.len() && self.entries[i].path.deep_view() == p
        &&& forall|i: int, j: int|
            0 <= i < j < self.entries.len() ==> self.entries[i].path.deep_view()
                != self.entries[j].path.deep_view()
        &&& self@.wf()
    }

    pub proof fn lemma_view_wf(&self)
        requires
            self.wf(),
        ensures
            self@.wf(),
    {
    }

    /// An empty disk whose clock reads `now`, for a program built at `exe`.
    pub fn new(now: u64, exe: Modified) -> (r: Disk)
        ensures
            r.wf(),
            r@.files == Map::<Seq<Seq<char>>, Node>::empty(),
            r@.exe == exe,
            r@.written == Seq::<Seq<Seq<char>>>::empty(),
            r@.clock == (match exe {
                Modified::At(t) if t > now => t,
                _ => now,
            }),
    {
        let clock = match exe {
            Modified::At(t) if t > now => t,
            _ => now,
        };
        let r = Disk { entries: Vec::new(), clock, exe, written: Vec::new(), files: Ghost(Map::empty()) };
        assert(r.written.deep_view() =~= Seq::<Seq<Seq<char>>>::empty());
        r
    }

    /// The reading of the disk's clock.
    pub fn now(&self) -> (r: u64)
        ensures
            r == self@.clock,
    {
        self.clock
    }

    /// The build time of the program.
    pub fn exe_modified(&self) -> (r: Modified)
        ensures
            r == self@.exe,
    {
        self.exe
    }

    /// The index of the entry at `path`.
    fn find(&self, path: &Vec<String>) -> (r: Option<usize>)
        requires
            self.wf(),
        ensures
            match r {
                Some(i) => i < self.entries.len() && self.entries[i as int].path.deep_view()
                    == path.deep_view(),
                None => !self@.files.contains_key(path.deep_view()),
            },
    {
        let mut i: usize = 0;
        while i < self.entries.len()
            invariant
                self.wf(),
                0 <= i <= self.entries.len(),
                forall|k: int|
                    0 <= k < i ==> self.entries[k].path.deep_view() != path.deep_view(),
            decreases self.entries.len() - i,
        {
            if same_path(&self.entries[i].path, path) {
                return Some(i);
            }
            i += 1;
        }
        None
    }

    /// The modification stamp of `path`.
    pub fn stamp(&self, path: &Vec<String>) -> (r: Modified)
        requires
            self.wf(),
        ensures
            r == self@.stamp_of(path.deep_view()),
    {
        match self.find(path) {
            Some(i) => Modified::At(self.entries[i].mtime),
            None => Modified::Never,
        }
    }

    /// The whole text of the file at `path`.
    pub fn read_text(&self, path: &Vec<String>) -> (r: Result<String, ReadError>)
        requires
            self.wf(),
        ensures
            match r {
                Ok(s) => self@.text_of(path.deep_view()) == Some(s@),
                Err(e) => self@.text_of(path.deep_view()) is None && e.path.deep_view() == path.deep_view(),
            },
    {
        match self.find(path) {
            Some(i) => {
                if self.entries[i].is_dir {
                    return Err(ReadError { path: copy_path(path) });
                }
                assert(self.files@.contains_key(self.entries[i as int].path.deep_view()));
                let bytes = self.entries[i].bytes.clone();
                assert(bytes@ =~= self.entries[i as int].bytes@);
                match utf8_to_string(bytes) {
                    Some(s) => Ok(s),
                    None => Err(ReadError { path: copy_path(path) }),
                }
            },
            None => Err(ReadError { path: copy_path(path) }),
        }
    }

    /// The paths directly inside the directory at `path`.
    #[verifier::spinoff_prover]
    pub fn list_dir(&self, path: &Vec<String>) -> (r: Result<Vec<Vec<String>>, ReadError>)
        requires
            self.wf(),
        ensures
            r is Ok <==> self@.is_dir(path.deep_view()),
            r is Err ==> r->Err_0.path.deep_view() == path.deep_view(),
            r is Ok ==> listing_matches(self@, path.deep_view(), r->Ok_0),
    {
        match self.find(path) {
            Some(i) => {
                assert(self.files@.contains_key(self.entries[i as int].path.deep_view()));
                if !self.entries[i].is_dir {
                    return Err(ReadError { path: copy_path(path) });
                }
            },
            None => {
                return Err(ReadError { path: copy_path(path) });
            },
        }
        let mut out: Vec<Vec<String>> = Vec::new();
        let mut j: usize = 0;
        while j < self.entries.len()
            invariant
                self.wf(),
                0 <= j <= self.entries.len(),
                forall|k: int|
                    0 <= k < out.len() ==> #[trigger] self@.files.contains_key(
                        out[k].deep_view(),
                    ) && is_child(path.deep_view(), out[k].deep_view()),
                forall|e: int|
                    0 <= e < j && is_child(path.deep_view(), self.entries[e].path.deep_view())
                        ==> exists|k: int|
                        0 <= k < out.len() && #[trigger] out[k].deep_view()
                            == self.entries[e].path.deep_view(),
                forall|k: int|
                    0 <= k < out.len() ==> exists|e: int|
                        0 <= e < j && #[trigger] out[k].deep_view() == self.entries[e].path.deep_view(),
                forall|a: int, b: int|
                    0 <= a < b < out.len() ==> out[a].deep_view() != out[b].deep_view(),
            decreases self.entries.len() - j,
        {
            let ghost old_out = out;
            if is_child_path(path, &self.entries[j].path) {
                assert(self.files@.contains_key(self.entries[j as int].path.deep_view()));
                let c = copy_path(&self.entries[j].path);
                out.push(c);
                proof {
                    let last = out.len() - 1;
                    assert(out[last].deep_view() == self.entries[j as int].path.deep_view());
                    assert forall|k: int| 0 <= k < out.len() implies #[trigger] self@.files.contains_key(
                        out[k].deep_view()) && is_child(path.deep_view(), out[k].deep_view()) by {
                        if k < last {
                            assert(out[k] == old_out[k]);
                            assert(self@.files.contains_key(old_out[k].deep_view()));
                        }
                    }
                    assert forall|e: int|
                        0 <= e < j + 1 && is_child(path.deep_view(), self.entries[e].path.deep_view())
                        implies exists|k: int|
                        0 <= k < out.len() && #[trigger] out[k].deep_view()
                            == self.entries[e].path.deep_view() by {
                        if e < j {
                            let k = choose|k: int| 0 <= k < old_out.len() && #[trigger] old_out[k].deep_view()
                                == self.entries[e].path.deep_view();
                            assert(out[k] == old_out[k]);
                        } else {
                            assert(out[last].deep_view() == self.entries[e].path.deep_view());
                        }
                    }
                    assert forall|k: int| 0 <= k < out.len() implies exists|e: int|
                        0 <= e < j + 1 && #[trigger] out[k].deep_view() == self.entries[e].path.deep_view() by {
                        if k < last {
                            assert(out[k] == old_out[k]);
                            let e = choose|e: int|
                                0 <= e < j && #[trigger] old_out[k].deep_view() == self.entries[e].path.deep_view();
                            assert(out[k].deep_view() == self.entries[e].path.deep_view());
                        } else {
                            assert(out[k].deep_view() == self.entries[j as int].path.deep_view());
                        }
                    }
                    assert forall|a: int, b: int| 0 <= a < b < out.len() implies out[a].deep_view()
                        != out[b].deep_view() by {
                        assert(out[a] == old_out[a]);
                        if b == last {
                            let e = choose|e: int|
                                0 <= e < j && #[trigger] old_out[a].deep_view() == self.entries[e].path.deep_view();
                            assert(self.entries[e].path.deep_view() != self.entries[j as int].path.deep_view());
                        } else {
                            assert(out[b] == old_out[b]);
                        }
                    }
                }
            }
            j += 1;
        }
        assert forall|q| #[trigger] self@.files.contains_key(q) && is_child(path.deep_view(), q)
            implies exists|k: int| 0 <= k < out.len() && out[k].deep_view() == q by {
            let e = choose|e: int|
                0 <= e < self.entries.len() && self.entries[e].path.deep_view() == q;
        }
        Ok(out)
    }

    /// Puts `entry` on the disk in place of whatever was at its path; the clock
    /// runs on to the entry's time if it was behind.
    #[verifier::spinoff_prover]
    fn set_entry(&mut self, entry: Entry)
        requires
            old(self).wf(),
        ensures
            final(self).wf(),
            final(self)@.files == old(self)@.files.insert(entry.path.deep_view(), entry.node()),
            final(self)@.exe == old(self)@.exe,
            final(self)@.written == old(self)@.written,
            final(self)@.clock == (if entry.mtime > old(self)@.clock {
                entry.mtime
            } else {
                old(self)@.clock
            }),
    {
        let found = self.find(&entry.path);
        let ghost old_files = self.files@;
        if entry.mtime > self.clock {
            self.clock = entry.mtime;
        }
        let ghost p = entry.path.deep_view();
        let ghost n = entry.node();
        let ghost old_entries = self.entries@;
        match found {
            Some(i) => {
                self.entries.set(i, entry);
                proof {
                    self.files@ = self.files@.insert(p, n);
                    assert forall|k: int| 0 <= k < self.entries.len() implies #[trigger] self.files@.contains_key(
                        self.entries[k].path.deep_view(),
                    ) && self.files@[self.entries[k].path.deep_view()] == self.entries[k].node() by {
                        if k != i {
                            assert(old_entries[k].path.deep_view() != old_entries[i as int].path.deep_view());
                        }
                    }
                    assert forall|a: int, b: int| 0 <= a < b < self.entries.len() implies
                        self.entries[a].path.deep_view() != self.entries[b].path.deep_view() by {
                        assert(old_entries[a].path.deep_view() != old_entries[b].path.deep_view());
                    }
                    assert forall|q| #[trigger] self.files@.contains_key(q) implies self.files@[q].mtime
                        <= self.clock by {
                        if q != p {
                            assert(old(self)@.files.contains_key(q));
                        } else {
                            assert(self.files@[q] == n);
                            assert(n.mtime == self.entries[i as int].mtime);
                        }
                    }
                    assert forall|q| #[trigger] self.files@.contains_key(q) implies exists|k: int|
                        0 <= k < self.entries.len() && self.entries[k].path.deep_view() == q by {
                        if q != p {
                            let k = choose|k: int|
                                0 <= k < old_entries.len() && old_entries[k].path.deep_view() == q;
                            assert(self.entries[k].path.deep_view() == q);
                        } else {
                            assert(self.entries[i as int].path.deep_view() == q);
                        }
                    }
                    assert(self.wf());
                }
            },
            None => {
                self.entries.push(entry);
                proof {
                    self.files@ = self.files@.insert(p, n);
                    let last = self.entries.len() - 1;
                    assert forall|q| #[trigger] self.files@.contains_key(q) implies exists|k: int|
                        0 <= k < self.entries.len() && self.entries[k].path.deep_view() == q by {
                        if q != p {
                            let k = choose|k: int|
                                0 <= k < old_entries.len() && old_entries[k].path.deep_view() == q;
                            assert(self.entries[k].path.deep_view() == q);
                        } else {
                            assert(self.entries[last].path.deep_view() == q);
                        }
                    }
                    assert forall|a: int, b: int| 0 <= a < b < self.entries.len() implies
                        self.entries[a].path.deep_view() != self.entries[b].path.deep_view() by {
                        if b == last {
                            assert(old_entries[a].path.deep_view() != p);
                        }
                    }
                    assert forall|q| #[trigger] self.files@.contains_key(q) implies self.files@[q].mtime
                        <= self.clock by {
                        if q != p {
                            assert(old_files.contains_key(q));
                        }
                    }
                }
            },
        }
    }

    /// Records what is found at a path of the real file system.
    pub fn observe(&mut self, entry: Entry)
        requires
            old(self).wf(),
        ensures
            final(self).wf(),
            final(self)@.files == old(self)@.files.insert(entry.path.deep_view(), entry.node()),
            final(self)@.exe == old(self)@.exe,
            final(self)@.written == old(self)@.written,
            final(self)@.clock == (if entry.mtime > old(self)@.clock {
                entry.mtime
            } else {
                old(self)@.clock
            }),
    {
        self.set_entry(entry);
    }

    /// Forgets whatever is at `path`, as when it was removed from the real file
    /// system.
    pub fn forget(&mut self, path: &Vec<String>)
        requires
            old(self).wf(),
        ensures
            final(self).wf(),
            final(self)@ == (DiskView { files: old(self)@.files.remove(path.deep_view()), ..old(self)@ }),
    {
        let ghost p = path.deep_view();
        let ghost old_entries = self.entries@;
        match self.find(path) {
            Some(i) => {
                self.entries.remove(i);
                proof {
                    self.files@ = self.files@.remove(p);
                    assert forall|k: int| 0 <= k < self.entries.len() implies #[trigger] self.files@.contains_key(
                        self.entries[k].path.deep_view(),
                    ) && self.files@[self.entries[k].path.deep_view()] == self.entries[k].node() by {
                        let o = if k < i { k } else { k + 1 };
                        assert(self.entries[k] == old_entries[o]);
                        assert(old(self).files@.contains_key(old(self).entries[o].path.deep_view()));
                        assert(old_entries[o].path.deep_view() != old_entries[i as int].path.deep_view());
                    }
                    assert forall|a: int, b: int| 0 <= a < b < self.entries.len() implies
                        self.entries[a].path.deep_view() != self.entries[b].path.deep_view() by {
                        let oa = if a < i { a } else { a + 1 };
                        let ob = if b < i { b } else { b + 1 };
                        assert(old_entries[oa].path.deep_view() != old_entries[ob].path.deep_view());
                    }
                    assert forall|q| #[trigger] self.files@.contains_key(q) implies exists|k: int|
                        0 <= k < self.entries.len() && self.entries[k].path.deep_view() == q by {
                        let o = choose|o: int|
                            0 <= o < old_entries.len() && old_entries[o].path.deep_view() == q;
                        let k = if o < i { o } else { o - 1 };
                        assert(self.entries[k] == old_entries[o]);
                    }
                    assert forall|q| #[trigger] self.files@.contains_key(q) implies self.files@[q].mtime
                        <= self.clock by {
                        assert(old(self)@.files.contains_key(q));
                    }
                }
            },
            None => {
                assert(self.files@.remove(p) =~= self.files@);
            },
        }
    }

    /// Writes `bytes` to the file at `path`, stamping it with the next tick of
    /// the clock, and logs the write.
    pub fn write(&mut self, path: Vec<String>, bytes: Vec<u8>)
        requires
            old(self).wf(),
        ensures
            final(self).wf(),
            final(self)@ == old(self)@.after_write(path.deep_view(), bytes@),
    {
        if self.clock < u64::MAX {
            self.clock = self.clock + 1;
        }
        proof {
            assert forall|q| #[trigger] self.files@.contains_key(q) implies self.files@[q].mtime
                <= self.clock by {
                assert(old(self)@.files.contains_key(q));
            }
        }
        let logged = copy_path(&path);
        let ghost before = self.written.deep_view();
        self.written.push(logged);
        assert(self.written.deep_view() =~= before.push(path.deep_view()));
        let clock = self.clock;
        proof {
            assert forall|i: int|
                0 <= i < self.entries.len() implies #[trigger] self.files@.contains_key(
                    self.entries[i].path.deep_view(),
                ) && self.files@[self.entries[i].path.deep_view()] == self.entries[i].node() by {
                assert(old(self).files@.contains_key(old(self).entries[i].path.deep_view()));
            }
            assert forall|p| #[trigger] self.files@.contains_key(p) implies exists|i: int|
                0 <= i < self.entries.len() && self.entries[i].path.deep_view() == p by {
                assert(old(self).files@.contains_key(p));
                let i = choose|i: int|
                    0 <= i < old(self).entries.len() && old(self).entries[i].path.deep_view() == p;
                assert(self.entries[i].path.deep_view() == p);
            }
        }
        let was_new = self.find(&path).is_none();
        let ghost p = path.deep_view();
        let ghost mid = self@;
        let n = path.len();
        let parent = if n > 0 && was_new {
            Some(path_prefix(&path, n - 1))
        } else {
            None
        };
        self.set_entry(Entry { path, mtime: clock, is_dir: false, bytes });
        if let Some(parent) = parent {
            assert(parent.deep_view().len() != p.len());
            match self.find(&parent) {
                Some(i) => {
                    assert(self.files@.contains_key(self.entries[i as int].path.deep_view()));
                    if self.entries[i].is_dir {
                        let kept = self.entries[i].bytes.clone();
                        assert(kept@ =~= self.entries[i as int].bytes@);
                        self.set_entry(Entry { path: parent, mtime: clock, is_dir: true, bytes: kept });
                        assert(self@.files =~= old(self)@.after_write(p, bytes@).files);
                    } else {
                        assert(self@.files =~= old(self)@.after_write(p, bytes@).files);
                    }
                },
                None => {
                    assert(self@.files =~= old(self)@.after_write(p, bytes@).files);
                },
            }
        } else {
            assert(self@.files =~= old(self)@.after_write(p, bytes@).files);
        }
    }

    /// Moves the clock on by one tick, as at the start of each run of the
    /// build: whatever is stamped with the present is then newer than before.
    pub fn tick(&mut self)
        requires
            old(self).wf(),
        ensures
            final(self).wf(),
            final(self)@ == (DiskView { clock: tick(old(self)@.clock), ..old(self)@ }),
    {
        if self.clock < u64::MAX {
            self.clock = self.clock + 1;
        }
        proof {
            assert forall|q| #[trigger] self.files@.contains_key(q) implies self.files@[q].mtime
                <= self.clock by {
                assert(old(self)@.files.contains_key(q));
            }
            assert forall|i: int|
                0 <= i < self.entries.len() implies #[trigger] self.files@.contains_key(
                    self.entries[i].path.deep_view(),
                ) && self.files@[self.entries[i].path.deep_view()] == self.entries[i].node() by {
                assert(old(self).files@.contains_key(old(self).entries[i].path.deep_view()));
            }
            assert forall|p| #[trigger] self.files@.contains_key(p) implies exists|i: int|
                0 <= i < self.entries.len() && self.entries[i].path.deep_view() == p by {
                assert(old(self).files@.contains_key(p));
                let i = choose|i: int|
                    0 <= i < old(self).entries.len() && old(self).entries[i].path.deep_view() == p;
                assert(self.entries[i].path.deep_view() == p);
            }
        }
    }

    /// The paths written since the last call, in order; the log is emptied.
    pub fn take_written(&mut self) -> (r: Vec<Vec<String>>)
        requires
            old(self).wf(),
        ensures
            final(self).wf(),
            r.deep_view() == old(self)@.written,
            final(self)@ == (DiskView { written: Seq::empty(), ..old(self)@ }),
    {
        let mut r = Vec::new();
        std::mem::swap(&mut r, &mut self.written);
        proof {
            assert forall|i: int|
                0 <= i < self.entries.len() implies #[trigger] self.files@.contains_key(
                    self.entries[i].path.deep_view(),
                ) && self.files@[self.entries[i].path.deep_view()] == self.entries[i].node() by {
                assert(old(self).files@.contains_key(old(self).entries[i].path.deep_view()));
            }
            assert forall|p| #[trigger] self.files@.contains_key(p) implies exists|i: int|
                0 <= i < self.entries.len() && self.entries[i].path.deep_view() == p by {
                assert(old(self).files@.contains_key(p));
                let i = choose|i: int|
                    0 <= i < old(self).entries.len() && old(self).entries[i].path.deep_view() == p;
                assert(self.entries[i].path.deep_view() == p);
            }
            assert forall|q| #[trigger] self.files@.contains_key(q) implies self.files@[q].mtime
                <= self.clock by {
                assert(old(self)@.files.contains_key(q));
            }
        }
        assert(self.written.deep_view() =~= Seq::<Seq<Seq<char>>>::empty());
        r
    }

    /// The bytes of the file at `path`.
    pub fn file_bytes(&self, path: &Vec<String>) -> (r: Option<Vec<u8>>)
        requires
            self.wf(),
        ensures
            match r {
                Some(b) => self@.files.contains_key(path.deep_view()) && !self@.files[path.deep_view()].is_dir
                    && self@.files[path.deep_view()].bytes == b@,
                None => !(self@.files.contains_key(path.deep_view()) && !self@.files[path.deep_view()].is_dir),
            },
    {
        match self.find(path) {
            Some(i) => {
                assert(self.files@.contains_key(self.entries[i as int].path.deep_view()));
                if self.entries[i].is_dir {
                    None
                } else {
                    let b = self.entries[i].bytes.clone();
                    assert(b@ =~= self.entries[i as int].bytes@);
                    Some(b)
                }
            },
            None => None,
        }
    }
}

} // verus!
