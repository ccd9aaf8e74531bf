use vstd::prelude::*;

verus! {

/// The slice of the file system that a transfer touches, modelled in
/// memory: a finite collection of files, each a path together with its
/// byte contents.  Its abstract value is the map from path to contents.
pub struct FileSystem {
    entries: Vec<(String, Vec<u8>)>,
}

/// The map described by a sequence of path/contents entries; a later
/// entry for the same path wins.
spec fn map_of(entries: Seq<(String, Vec<u8>)>) -> Map<Seq<char>, Seq<u8>>
    decreases entries.len(),
{
    if entries.len() == 0 {
        Map::empty()
    } else {
        map_of(entries.drop_last()).insert(entries.last().0@, entries.last().1@)
    }
}

/// Each path appears in at most one entry, so a lookup is unambiguous.
spec fn unique_paths(entries: Seq<(String, Vec<u8>)>) -> bool {
    forall|i: int, j: int|
        0 <= i < j < entries.len() ==> entries[i].0@ != entries[j].0@
}

impl View for FileSystem {
    type V = Map<Seq<char>, Seq<u8>>;

    closed spec fn view(&self) -> Map<Seq<char>, Seq<u8>> {
        map_of(self.entries@)
    }
}

proof fn lemma_map_of_contains(entries: Seq<(String, Vec<u8>)>, k: Seq<char>)
    ensures
        map_of(entries).contains_key(k) <==> (exists|i: int|
            0 <= i < entries.len() && entries[i].0@ == k),
    decreases entries.len(),
{
    if entries.len() > 0 {
        lemma_map_of_contains(entries.drop_last(), k);
        if entries.last().0@ == k {
            assert(entries[entries.len() - 1].0@ == k);
        } else {
            if map_of(entries).contains_key(k) {
                let i = choose|i: int|
                    0 <= i < entries.drop_last().len() && entries.drop_last()[i].0@ == k;
                assert(entries[i].0@ == k);
            }
            if exists|i: int| 0 <= i < entries.len() && entries[i].0@ == k {
                let i = choose|i: int| 0 <= i < entries.len() && entries[i].0@ == k;
                assert(entries.drop_last()[i].0@ == k);
            }
        }
    }
}

proof fn lemma_map_of_index(entries: Seq<(String, Vec<u8>)>, i: int)
    requires
        unique_paths(entries),
        0 <= i < entries.len(),
    ensures
        map_of(entries).contains_key(entries[i].0@),
        map_of(entries)[entries[i].0@] == entries[i].1@,
    decreases entries.len(),
{
    if i == entries.len() - 1 {
    } else {
        lemma_map_of_index(entries.drop_last(), i);
        assert(entries.drop_last()[i] == entries[i]);
        assert(entries[i].0@ != entries.last().0@);
    }
}

proof fn lemma_map_of_push(entries: Seq<(String, Vec<u8>)>, e: (String, Vec<u8>))
    ensures
        map_of(entries.push(e)) == map_of(entries).insert(e.0@, e.1@),
{
    assert(entries.push(e).drop_last() =~= entries);
    assert(entries.push(e).last() == e);
}

proof fn lemma_map_of_remove(entries: Seq<(String, Vec<u8>)>, i: int)
    requires
        unique_paths(entries),
        0 <= i < entries.len(),
    ensures
        unique_paths(entries.remove(i)),
        map_of(entries.remove(i)) == map_of(entries).remove(entries[i].0@),
    decreases entries.len(),
{
    let k = entries[i].0@;
    if i == entries.len() - 1 {
        assert(entries.remove(i) =~= entries.drop_last());
        lemma_map_of_contains(entries.drop_last(), k);
        assert forall|j: int| 0 <= j < entries.drop_last().len()
            implies entries.drop_last()[j].0@ != k by {
            assert(entries[j].0@ != entries[entries.len() - 1].0@);
        }
        assert(!map_of(entries.drop_last()).contains_key(k));
        assert(map_of(entries.drop_last()).insert(k, entries[i].1@).remove(k)
            =~= map_of(entries.drop_last()));
    } else {
        lemma_map_of_remove(entries.drop_last(), i);
        assert(entries.remove(i).drop_last() =~= entries.drop_last().remove(i));
        assert(entries.remove(i).last() == entries.last());
        assert(entries.drop_last()[i] == entries[i]);
        let lk = entries.last().0@;
        let lv = entries.last().1@;
        assert(lk != k);
        assert(map_of(entries.drop_last()).remove(k).insert(lk, lv)
            =~= map_of(entries.drop_last()).insert(lk, lv).remove(k));
        assert(map_of(entries.remove(i)) =~= map_of(entries).remove(k));
    }
}

impl FileSystem {
    /// Each path names at most one file.
    pub closed spec fn wf(&self) -> bool {
        unique_paths(self.entries@)
    }

    /// An empty file system.
    pub fn new() -> (r: FileSystem)
        ensures
            r.wf(),
            r@ == Map::<Seq<char>, Seq<u8>>::empty(),
    {
        FileSystem { entries: Vec::new() }
    }

    fn find_entry(&self, path: &String) -> (r: Option<usize>)
        ensures
            match r {
                Some(i) => i < self.entries@.len() && self.entries@[i as int].0@ == path@,
                None => forall|j: int|
                    0 <= j < self.entries@.len() ==> self.entries@[j].0@ != path@,
            },
    {
        let mut i: usize = 0;
        while i < self.entries.len()
            invariant
                i <= self.entries@.len(),
                forall|j: int| 0 <= j < i ==> self.entries@[j].0@ != path@,
            decreases self.entries@.len() - i,
        {
            if self.entries[i].0 == *path {
                return Some(i);
            }
            i = i + 1;
        }
        None
    }

    /// Whether a file is present at the given path.
    pub fn contains_file(&self, path: &String) -> (r: bool)
        ensures
            r == self@.contains_key(path@),
    {
        proof {
            lemma_map_of_contains(self.entries@, path@);
        }
        self.find_entry(path).is_some()
    }

    /// The contents of the file at the given path, if one is present.
    pub fn read_file(&self, path: &String) -> (r: Option<&Vec<u8>>)
        requires
            self.wf(),
        ensures
            match r {
                Some(v) => self@.contains_key(path@) && v@ == self@[path@],
                None => !self@.contains_key(path@),
            },
    {
        proof {
            lemma_map_of_contains(self.entries@, path@);
        }
        match self.find_entry(path) {
            Some(i) => {
                proof {
                    lemma_map_of_index(self.entries@, i as int);
                }
                Some(&self.entries[i].1)
            },
            None => None,
        }
    }

    /// Creates the file at the given path with the given contents, or
    /// replaces its contents if it is already present.
    pub fn write_file(&mut self, path: String, contents: Vec<u8>)
        requires
            old(self).wf(),
        ensures
            final(self).wf(),
            final(self)@ == old(self)@.insert(path@, contents@),
    {
        let ghost k = path@;
        let ghost v = contents@;
        let ghost map0 = self@;
        match self.find_entry(&path) {
            Some(i) => {
                proof {
                    lemma_map_of_remove(self.entries@, i as int);
                }
                self.entries.remove(i);
                proof {
                    lemma_map_of_contains(self.entries@, k);
                }
            },
            None => {},
        }
        let ghost cur = self.entries@;
        proof {
            assert(forall|j: int| 0 <= j < cur.len() ==> cur[j].0@ != k);
            lemma_map_of_push(cur, (path, contents));
        }
        self.entries.push((path, contents));
        proof {
            let pushed = self.entries@;
            assert forall|a: int, b: int| 0 <= a < b < pushed.len()
                implies pushed[a].0@ != pushed[b].0@ by {
                assert(pushed[a] == cur[a]);
                if b < pushed.len() - 1 {
                    assert(pushed[b] == cur[b]);
                }
            }
            assert(self@ =~= map0.insert(k, v));
        }
    }

    /// Deletes the file at the given path; reports whether one was there.
    pub fn remove_file(&mut self, path: &String) -> (r: bool)
        requires
            old(self).wf(),
        ensures
            final(self).wf(),
            final(self)@ == old(self)@.remove(path@),
            r == old(self)@.contains_key(path@),
    {
        proof {
            lemma_map_of_contains(self.entries@, path@);
        }
        match self.find_entry(path) {
            Some(i) => {
                proof {
                    lemma_map_of_remove(self.entries@, i as int);
                }
                self.entries.remove(i);
                true
            },
            None => {
                proof {
                    assert(self@ =~= self@.remove(path@));
                }
                false
            },
        }
    }

    /// Copies the file at `from` onto `to` (creating or overwriting it)
    /// and reports the number of bytes copied, or `None` when no file is
    /// present at `from`.
    pub fn copy_file(&mut self, from: &String, to: &String) -> (r: Option<u64>)
        requires
            old(self).wf(),
        ensures
            final(self).wf(),
            old(self)@.contains_key(from@) ==> (r matches Some(n)
                && n == old(self)@[from@].len()
                && final(self)@ == old(self)@.insert(to@, old(self)@[from@])),
            !old(self)@.contains_key(from@) ==> r is None && final(self)@ == old(self)@,
    {
        proof {
            lemma_map_of_contains(self.entries@, from@);
        }
        let contents = match self.find_entry(from) {
            Some(i) => {
                proof {
                    lemma_map_of_index(self.entries@, i as int);
                }
                self.entries[i].1.clone()
            },
            None => {
                return None;
            },
        };
        let size = contents.len() as u64;
        self.write_file(to.clone(), contents);
        Some(size)
    }
}

} // verus!
