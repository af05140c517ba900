//! An explicit model of the filesystem collaborator: file existence,
//! modification times, abstract content identity, and a monotonic clock.
//!
//! The orchestrator is verified against this model. Contents are abstract:
//! two files are byte-identical exactly when their content identifiers are
//! equal. Copying preserves the content identifier; composing produces a
//! fresh one. A destination can be marked as failing, which models the
//! copy or compose collaborator reporting an error; a failed action leaves
//! the model unchanged, matching the collaborator's all-or-nothing
//! contract.

use vstd::prelude::*;

verus! {

/// What the orchestrator observes of one file: its modification time and
/// an abstract content identifier.
#[derive(Debug, Clone, Copy, PartialEq, Eq, Structural)]
pub struct FileMeta {
    pub mtime: u64,
    pub content: u64,
}

/// The model state as contracts see it.
#[verifier::ext_equal]
pub struct FsView {
    pub files: Map<Seq<char>, FileMeta>,
    pub clock: u64,
    pub next_content: u64,
    pub write_fails: Set<Seq<char>>,
}

/// The filesystem model.
pub struct FsState {
    files: Vec<(String, FileMeta)>,
    clock: u64,
    next_content: u64,
    write_fails: Vec<String>,
}

/// Map built from the path/metadata pairs, later entries winning.
pub closed spec fn files_map(s: Seq<(String, FileMeta)>) -> Map<Seq<char>, FileMeta>
    decreases s.len(),
{
    if s.len() == 0 {
        Map::empty()
    } else {
        files_map(s.drop_last()).insert(s.last().0@, s.last().1)
    }
}

pub closed spec fn unique_paths(s: Seq<(String, FileMeta)>) -> bool {
    forall|i: int, j: int| 0 <= i < j < s.len() ==> s[i].0@ != s[j].0@
}

proof fn lemma_files_map_skip_last(s: Seq<(String, FileMeta)>, p: Seq<char>)
    requires
        s.len() > 0,
        s.last().0@ != p,
    ensures
        files_map(s).contains_key(p) == files_map(s.drop_last()).contains_key(p),
        files_map(s).contains_key(p) ==> files_map(s)[p] == files_map(s.drop_last())[p],
{
}

proof fn lemma_files_map_index(s: Seq<(String, FileMeta)>, i: int)
    requires
        unique_paths(s),
        0 <= i < s.len(),
    ensures
        files_map(s).contains_key(s[i].0@),
        files_map(s)[s[i].0@] == s[i].1,
    decreases s.len(),
{
    if i == s.len() - 1 {
    } else {
        assert(unique_paths(s.drop_last())) by {
            assert(forall|a: int, b: int|
                0 <= a < b < s.drop_last().len() ==> s.drop_last()[a] == s[a] && s.drop_last()[b]
                    == s[b]);
        }
        lemma_files_map_index(s.drop_last(), i);
        assert(s.drop_last()[i] == s[i]);
        lemma_files_map_skip_last(s, s[i].0@);
    }
}

proof fn lemma_files_map_dom(s: Seq<(String, FileMeta)>, p: Seq<char>)
    requires
        files_map(s).contains_key(p),
    ensures
        exists|i: int| 0 <= i < s.len() && s[i].0@ == p,
    decreases s.len(),
{
    if s.len() > 0 {
        if s.last().0@ == p {
            assert(s[s.len() - 1].0@ == p);
        } else {
            lemma_files_map_skip_last(s, p);
            lemma_files_map_dom(s.drop_last(), p);
            let i = choose|i: int| 0 <= i < s.drop_last().len() && s.drop_last()[i].0@ == p;
            assert(s[i].0@ == p);
        }
    }
}

proof fn lemma_files_map_of_update(
    s0: Seq<(String, FileMeta)>,
    s1: Seq<(String, FileMeta)>,
    i: int,
    p: Seq<char>,
    meta: FileMeta,
)
    requires
        unique_paths(s0),
        unique_paths(s1),
        0 <= i < s0.len(),
        s1.len() == s0.len(),
        forall|a: int| 0 <= a < s0.len() && a != i ==> s1[a] == s0[a],
        s0[i].0@ == p,
        s1[i].0@ == p,
        s1[i].1 == meta,
    ensures
        files_map(s1) == files_map(s0).insert(p, meta),
{
    let m1 = files_map(s1);
    let m0i = files_map(s0).insert(p, meta);
    lemma_files_map_index(s1, i);
    assert forall|k: Seq<char>| m1.contains_key(k) implies m0i.contains_key(k) by {
        if k != p {
            lemma_files_map_dom(s1, k);
            let a = choose|a: int| 0 <= a < s1.len() && s1[a].0@ == k;
            lemma_files_map_index(s0, a);
        }
    }
    assert forall|k: Seq<char>| m0i.contains_key(k) implies m1.contains_key(k) by {
        if k != p {
            lemma_files_map_dom(s0, k);
            let a = choose|a: int| 0 <= a < s0.len() && s0[a].0@ == k;
            lemma_files_map_index(s1, a);
        }
    }
    assert forall|k: Seq<char>| m1.contains_key(k) && m0i.contains_key(k) implies m1[k]
        == m0i[k] by {
        if k != p {
            lemma_files_map_dom(s1, k);
            let a = choose|a: int| 0 <= a < s1.len() && s1[a].0@ == k;
            lemma_files_map_index(s1, a);
            lemma_files_map_index(s0, a);
        }
    }
    assert(m1 =~= m0i);
}

/// The set of paths whose writes the collaborator refuses.
pub closed spec fn paths_set(s: Seq<String>) -> Set<Seq<char>> {
    s.map_values(|x: String| x@).to_set()
}

proof fn lemma_paths_set_contains(s: Seq<String>, p: Seq<char>)
    ensures
        paths_set(s).contains(p) <==> exists|i: int| 0 <= i < s.len() && s[i]@ == p,
{
    let vs = s.map_values(|x: String| x@);
    if exists|i: int| 0 <= i < s.len() && s[i]@ == p {
        let i = choose|i: int| 0 <= i < s.len() && s[i]@ == p;
        assert(vs[i] == p);
        assert(vs.contains(p));
    }
    if vs.to_set().contains(p) {
        assert(vs.contains(p));
        let i = choose|i: int| 0 <= i < vs.len() && vs[i] == p;
        assert(s[i]@ == p);
    }
}

impl View for FsState {
    type V = FsView;

    closed spec fn view(&self) -> FsView {
        FsView {
            files: files_map(self.files@),
            clock: self.clock,
            next_content: self.next_content,
            write_fails: paths_set(self.write_fails@),
        }
    }
}

/// Every recorded modification time lies before the clock.
pub open spec fn fs_wf(fs: FsView) -> bool {
    forall|p: Seq<char>| #[trigger] fs.files.contains_key(p) ==> fs.files[p].mtime < fs.clock
}

impl FsState {
    /// The model's internal invariant: paths are unique and every
    /// recorded modification time lies strictly before the clock.
    pub closed spec fn inv(&self) -> bool {
        &&& unique_paths(self.files@)
        &&& forall|i: int| 0 <= i < self.files@.len() ==> (#[trigger] self.files@[i]).1.mtime
            < self.clock
    }

    /// The model's view always satisfies [`fs_wf`], which the linking
    /// laws take as a hypothesis.
    pub proof fn lemma_mtimes_bounded(&self)
        requires
            self.inv(),
        ensures
            fs_wf(self@),
    {
        assert forall|p: Seq<char>| #[trigger]
            self@.files.contains_key(p) implies self@.files[p].mtime < self@.clock by {
            lemma_files_map_dom(self.files@, p);
            let i = choose|i: int| 0 <= i < self.files@.len() && self.files@[i].0@ == p;
            lemma_files_map_index(self.files@, i);
        }
    }

    /// An empty filesystem at time zero.
    pub fn new() -> (fs: FsState)
        ensures
            fs.inv(),
            fs@.files == Map::<Seq<char>, FileMeta>::empty(),
            fs@.clock == 0,
            fs@.next_content == 0,
            fs@.write_fails == Set::<Seq<char>>::empty(),
    {
        let fs = FsState { files: Vec::new(), clock: 0, next_content: 0, write_fails: Vec::new() };
        proof {
            assert(paths_set(fs.write_fails@) =~= Set::<Seq<char>>::empty());
        }
        fs
    }

    fn find(&self, path: &String) -> (r: Option<usize>)
        requires
            self.inv(),
        ensures
            match r {
                Some(i) => {
                    &&& i < self.files@.len()
                    &&& self.files@[i as int].0@ == path@
                    &&& self@.files.contains_key(path@)
                    &&& self@.files[path@] == self.files@[i as int].1
                },
                None => !self@.files.contains_key(path@),
            },
    {
        let mut i: usize = 0;
        while i < self.files.len()
            invariant
                self.inv(),
                i <= self.files@.len(),
                forall|k: int| 0 <= k < i ==> self.files@[k].0@ != path@,
            decreases self.files@.len() - i,
        {
            if self.files[i].0 == *path {
                proof {
                    lemma_files_map_index(self.files@, i as int);
                }
                return Some(i);
            }
            i = i + 1;
        }
        proof {
            if self@.files.contains_key(path@) {
                lemma_files_map_dom(self.files@, path@);
            }
        }
        None
    }

    /// Whether the file exists.
    pub fn file_exists(&self, path: &String) -> (r: bool)
        requires
            self.inv(),
        ensures
            r == self@.files.contains_key(path@),
    {
        self.find(path).is_some()
    }

    /// The file's modification time, if it exists.
    pub fn mtime_of(&self, path: &String) -> (r: Option<u64>)
        requires
            self.inv(),
        ensures
            r == if self@.files.contains_key(path@) {
                Some(self@.files[path@].mtime)
            } else {
                None::<u64>
            },
    {
        match self.find(path) {
            Some(i) => Some(self.files[i].1.mtime),
            None => None,
        }
    }

    /// The file's content identifier, if it exists.
    pub fn content_of(&self, path: &String) -> (r: Option<u64>)
        requires
            self.inv(),
        ensures
            r == if self@.files.contains_key(path@) {
                Some(self@.files[path@].content)
            } else {
                None::<u64>
            },
    {
        match self.find(path) {
            Some(i) => Some(self.files[i].1.content),
            None => None,
        }
    }

    /// Writes or replaces the entry for `path`; private plumbing shared by
    /// the mutating operations.
    fn put(&mut self, path: &String, meta: FileMeta)
        requires
            old(self).inv(),
            meta.mtime < old(self)@.clock,
        ensures
            final(self).inv(),
            final(self)@.files == old(self)@.files.insert(path@, meta),
            final(self)@.clock == old(self)@.clock,
            final(self)@.next_content == old(self)@.next_content,
            final(self)@.write_fails == old(self)@.write_fails,
    {
        match self.find(path) {
            Some(i) => {
                let ghost s0 = self.files@;
                self.files[i] = (path.clone(), meta);
                proof {
                    let s1 = self.files@;
                    assert(unique_paths(s1)) by {
                        assert(forall|a: int| 0 <= a < s1.len() ==> s1[a].0@ == s0[a].0@);
                    }
                    lemma_files_map_of_update(s0, s1, i as int, path@, meta);
                }
            },
            None => {
                let ghost s0 = self.files@;
                self.files.push((path.clone(), meta));
                proof {
                    let s1 = self.files@;
                    assert(s1.drop_last() =~= s0);
                    assert(unique_paths(s1)) by {
                        assert(forall|a: int| 0 <= a < s0.len() ==> s1[a] == s0[a]);
                        if exists|a: int| 0 <= a < s0.len() && s0[a].0@ == path@ {
                            let a = choose|a: int| 0 <= a < s0.len() && s0[a].0@ == path@;
                            lemma_files_map_index(s0, a);
                        }
                    }
                }
            },
        }
    }

    /// Models a file appearing or being rewritten from outside the
    /// orchestrator (a build step producing a component binary or stub):
    /// fresh content, stamped at the current clock.
    pub fn place_file(&mut self, path: &String)
        requires
            old(self).inv(),
            old(self)@.clock < u64::MAX,
            old(self)@.next_content < u64::MAX,
        ensures
            final(self).inv(),
            final(self)@.files == old(self)@.files.insert(
                path@,
                FileMeta { mtime: old(self)@.clock, content: old(self)@.next_content },
            ),
            final(self)@.clock == old(self)@.clock + 1,
            final(self)@.next_content == old(self)@.next_content + 1,
            final(self)@.write_fails == old(self)@.write_fails,
    {
        let meta = FileMeta { mtime: self.clock, content: self.next_content };
        self.clock = self.clock + 1;
        self.next_content = self.next_content + 1;
        self.put(path, meta);
    }

    /// Models a file being deleted from outside the orchestrator.
    pub fn remove_file(&mut self, path: &String)
        requires
            old(self).inv(),
        ensures
            final(self).inv(),
            final(self)@.files == old(self)@.files.remove(path@),
            final(self)@.clock == old(self)@.clock,
            final(self)@.next_content == old(self)@.next_content,
            final(self)@.write_fails == old(self)@.write_fails,
    {
        match self.find(path) {
            Some(i) => {
                let ghost s0 = self.files@;
                self.files.remove(i);
                proof {
                    let s1 = self.files@;
                    assert(unique_paths(s1) && forall|a: int|
                        0 <= a < s1.len() ==> #[trigger] s1[a] == if a < i {
                            s0[a]
                        } else {
                            s0[a + 1]
                        }) by {
                        assert(s1 =~= s0.subrange(0, i as int) + s0.subrange(
                            i + 1,
                            s0.len() as int,
                        ));
                    }
                    let m1 = files_map(s1);
                    let m0r = files_map(s0).remove(path@);
                    assert(!m1.contains_key(path@)) by {
                        if m1.contains_key(path@) {
                            lemma_files_map_dom(s1, path@);
                            let a = choose|a: int| 0 <= a < s1.len() && s1[a].0@ == path@;
                            if a < i {
                                assert(s0[a].0@ != s0[i as int].0@);
                            } else {
                                assert(s0[i as int].0@ != s0[a + 1].0@);
                            }
                        }
                    }
                    assert forall|k: Seq<char>| #![trigger m1.dom().contains(k)] #![trigger m0r.dom().contains(k)]
                        m1.dom().contains(k) == m0r.dom().contains(k) && (m1.dom().contains(k)
                        ==> m1[k] == m0r[k]) by {
                        if m1.dom().contains(k) {
                            assert(k != path@);
                            lemma_files_map_dom(s1, k);
                            let a = choose|a: int| 0 <= a < s1.len() && s1[a].0@ == k;
                            lemma_files_map_index(s1, a);
                            if a < i {
                                lemma_files_map_index(s0, a);
                            } else {
                                assert(s1[a] == s0[a + 1]);
                                lemma_files_map_index(s0, a + 1);
                            }
                            assert(m0r.dom().contains(k) && m1[k] == m0r[k]);
                        }
                        if m0r.dom().contains(k) {
                            lemma_files_map_dom(s0, k);
                            let a = choose|a: int| 0 <= a < s0.len() && s0[a].0@ == k;
                            if a < i {
                                assert(s1[a] == s0[a]);
                                lemma_files_map_index(s1, a);
                            } else {
                                assert(a != i);
                                assert(s1[a - 1] == s0[a]);
                                lemma_files_map_index(s1, a - 1);
                            }
                            assert(m1.dom().contains(k));
                        }
                    }
                    assert(m1 =~= m0r);
                }
            },
            None => {
                proof {
                    assert(files_map(self.files@) =~= files_map(self.files@).remove(path@));
                }
            },
        }
    }

    /// Marks a destination as one the collaborator will fail to write.
    pub fn set_write_fail(&mut self, path: &String)
        requires
            old(self).inv(),
        ensures
            final(self).inv(),
            final(self)@.files == old(self)@.files,
            final(self)@.clock == old(self)@.clock,
            final(self)@.next_content == old(self)@.next_content,
            final(self)@.write_fails == old(self)@.write_fails.insert(path@),
    {
        let ghost s0 = self.write_fails@;
        self.write_fails.push(path.clone());
        proof {
            let s1 = self.write_fails@;
            assert(paths_set(s1) =~= paths_set(s0).insert(path@)) by {
                assert forall|k: Seq<char>| paths_set(s1).contains(k) implies paths_set(s0).insert(
                    path@,
                ).contains(k) by {
                    lemma_paths_set_contains(s1, k);
                    let a = choose|a: int| 0 <= a < s1.len() && s1[a]@ == k;
                    if a < s0.len() {
                        lemma_paths_set_contains(s0, k);
                    }
                }
                assert forall|k: Seq<char>| paths_set(s0).insert(path@).contains(k) implies
                    paths_set(s1).contains(k) by {
                    lemma_paths_set_contains(s1, k);
                    if k == path@ {
                        assert(s1[s1.len() - 1]@ == k);
                    } else {
                        lemma_paths_set_contains(s0, k);
                        let a = choose|a: int| 0 <= a < s0.len() && s0[a]@ == k;
                        assert(s1[a]@ == k);
                    }
                }
            }
        }
    }

    /// Clears every injected write failure.
    pub fn clear_write_fails(&mut self)
        requires
            old(self).inv(),
        ensures
            final(self).inv(),
            final(self)@.files == old(self)@.files,
            final(self)@.clock == old(self)@.clock,
            final(self)@.next_content == old(self)@.next_content,
            final(self)@.write_fails == Set::<Seq<char>>::empty(),
    {
        self.write_fails = Vec::new();
        proof {
            assert(paths_set(self.write_fails@) =~= Set::<Seq<char>>::empty());
        }
    }

    fn write_would_fail(&self, path: &String) -> (r: bool)
        requires
            self.inv(),
        ensures
            r == self@.write_fails.contains(path@),
    {
        let mut i: usize = 0;
        proof {
            lemma_paths_set_contains(self.write_fails@, path@);
        }
        while i < self.write_fails.len()
            invariant
                i <= self.write_fails@.len(),
                self@.write_fails.contains(path@) <==> exists|k: int|
                    0 <= k < self.write_fails@.len() && self.write_fails@[k]@ == path@,
                forall|k: int| 0 <= k < i ==> self.write_fails@[k]@ != path@,
            decreases self.write_fails@.len() - i,
        {
            if self.write_fails[i] == *path {
                return true;
            }
            i = i + 1;
        }
        false
    }

    /// A byte-for-byte copy of `source` to `dest`: succeeds exactly when
    /// the source exists and the destination is writable, and then the
    /// destination carries the source's content, stamped at the clock.
    pub fn copy(&mut self, source: &String, dest: &String) -> (r: Result<(), ()>)
        requires
            old(self).inv(),
            old(self)@.clock < u64::MAX,
        ensures
            final(self).inv(),
            r is Ok <==> old(self)@.files.contains_key(source@) && !old(self)@.write_fails.contains(
                dest@,
            ),
            r is Ok ==> final(self)@.files == old(self)@.files.insert(
                dest@,
                FileMeta {
                    mtime: old(self)@.clock,
                    content: old(self)@.files[source@].content,
                },
            ) && final(self)@.clock == old(self)@.clock + 1,
            r is Err ==> final(self)@.files == old(self)@.files && final(self)@.clock == old(
                self,
            )@.clock,
            final(self)@.next_content == old(self)@.next_content,
            final(self)@.write_fails == old(self)@.write_fails,
    {
        if self.write_would_fail(dest) {
            return Err(());
        }
        let content = match self.content_of(source) {
            Some(c) => c,
            None => {
                return Err(());
            },
        };
        let meta = FileMeta { mtime: self.clock, content };
        self.clock = self.clock + 1;
        self.put(dest, meta);
        Ok(())
    }

    /// The composition collaborator: merges the primary binary with the
    /// dependency stubs into `dest`. Opaque and all-or-nothing: it
    /// succeeds exactly when the primary and every stub exist and the
    /// destination is writable, and then the destination carries fresh
    /// content, stamped at the clock.
    pub fn compose(&mut self, primary: &String, stubs: &Vec<String>, dest: &String) -> (r: Result<
        (),
        (),
    >)
        requires
            old(self).inv(),
            old(self)@.clock < u64::MAX,
            old(self)@.next_content < u64::MAX,
        ensures
            final(self).inv(),
            r is Ok <==> (old(self)@.files.contains_key(primary@) && (forall|i: int|
                0 <= i < stubs@.len() ==> old(self)@.files.contains_key(
                    (#[trigger] stubs@[i])@,
                )) && !old(self)@.write_fails.contains(dest@)),
            r is Ok ==> final(self)@.files == old(self)@.files.insert(
                dest@,
                FileMeta { mtime: old(self)@.clock, content: old(self)@.next_content },
            ) && final(self)@.clock == old(self)@.clock + 1 && final(self)@.next_content == old(
                self,
            )@.next_content + 1,
            r is Err ==> final(self)@.files == old(self)@.files && final(self)@.clock == old(
                self,
            )@.clock && final(self)@.next_content == old(self)@.next_content,
            final(self)@.write_fails == old(self)@.write_fails,
    {
        if self.write_would_fail(dest) {
            return Err(());
        }
        if !self.file_exists(primary) {
            return Err(());
        }
        let mut i: usize = 0;
        while i < stubs.len()
            invariant
                self == old(self),
                self.inv(),
                i <= stubs@.len(),
                forall|k: int| 0 <= k < i ==> self@.files.contains_key((#[trigger] stubs@[k])@),
            decreases stubs@.len() - i,
        {
            if !self.file_exists(&stubs[i]) {
                return Err(());
            }
            i = i + 1;
        }
        let meta = FileMeta { mtime: self.clock, content: self.next_content };
        self.clock = self.clock + 1;
        self.next_content = self.next_content + 1;
        self.put(dest, meta);
        Ok(())
    }
}

} // verus!
