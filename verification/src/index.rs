//! Finding tracks by key and files by path without going through them all.

use std::collections::HashMap;

use vstd::prelude::*;

use crate::key::{Identity, TrackKey};
use crate::path::FilePath;

verus! {

broadcast use vstd::std_specs::hash::group_hash_axioms;

/// The positions at which `mark` stands, in rising order.
pub(crate) open spec fn positions(marks: Seq<u64>, mark: u64) -> Seq<usize>
    decreases marks.len(),
{
    if marks.len() == 0 {
        Seq::empty()
    } else {
        let earlier = positions(marks.drop_last(), mark);
        if marks.last() == mark {
            earlier.push((marks.len() - 1) as usize)
        } else {
            earlier
        }
    }
}

proof fn lemma_positions(marks: Seq<u64>, mark: u64)
    requires
        marks.len() <= usize::MAX,
    ensures
        forall|a: int|
            0 <= a < positions(marks, mark).len() ==> {
                &&& (#[trigger] positions(marks, mark)[a]) < marks.len()
                &&& marks[positions(marks, mark)[a] as int] == mark
            },
        forall|a: int, b: int|
            0 <= a < b < positions(marks, mark).len() ==> #[trigger] positions(marks, mark)[a]
                < #[trigger] positions(marks, mark)[b],
        forall|i: int|
            0 <= i < marks.len() && #[trigger] marks[i] == mark ==> positions(marks, mark).contains(
                i as usize,
            ),
    decreases marks.len(),
{
    if marks.len() > 0 {
        let shorter = marks.drop_last();
        lemma_positions(shorter, mark);
        let earlier = positions(shorter, mark);
        let all = positions(marks, mark);
        assert forall|a: int| 0 <= a < all.len() implies {
            &&& (#[trigger] all[a]) < marks.len()
            &&& marks[all[a] as int] == mark
        } by {
            if a < earlier.len() {
                assert(all[a] == earlier[a]);
                assert(marks[earlier[a] as int] == shorter[earlier[a] as int]);
            }
        }
        assert forall|a: int, b: int| 0 <= a < b < all.len() implies #[trigger] all[a] < #[trigger] all[b] by {
            assert(all[a] == earlier[a]);
            if b < earlier.len() {
                assert(all[b] == earlier[b]);
            }
        }
        assert forall|i: int| 0 <= i < marks.len() && #[trigger] marks[i] == mark implies all.contains(
            i as usize,
        ) by {
            if i < shorter.len() {
                assert(shorter[i] == mark);
                let at = choose|at: int| 0 <= at < earlier.len() && earlier[at] == i as usize;
                assert(all[at] == i as usize);
            } else {
                assert(all[all.len() - 1] == i as usize);
            }
        }
    }
}

/// A list of marks, with the positions of each mark at hand.
pub(crate) struct Buckets {
    count: usize,
    slots: HashMap<u64, Vec<usize>>,
    marks: Ghost<Seq<u64>>,
}

impl View for Buckets {
    type V = Seq<u64>;

    closed spec fn view(&self) -> Seq<u64> {
        self.marks@
    }
}

impl Buckets {
    pub(crate) closed spec fn wf(self) -> bool {
        &&& self.count == self@.len()
        &&& forall|mark: u64|
            #[trigger] self.slots@.contains_key(mark) ==> self.slots@[mark]@ == positions(self@, mark)
        &&& forall|mark: u64|
            !#[trigger] self.slots@.contains_key(mark) ==> positions(self@, mark).len() == 0
    }

    pub(crate) fn new() -> (buckets: Buckets)
        ensures
            buckets.wf(),
            buckets@ == Seq::<u64>::empty(),
    {
        Buckets { count: 0, slots: HashMap::new(), marks: Ghost(Seq::empty()) }
    }

    pub(crate) fn add_mark(&mut self, mark: u64)
        requires
            old(self).wf(),
            old(self)@.len() < usize::MAX,
        ensures
            final(self).wf(),
            final(self)@ == old(self)@.push(mark),
    {
        let ghost before = self@;
        let ghost held = self.slots@;
        let mut slot: Vec<usize> = match self.slots.remove(&mark) {
            Some(slot) => slot,
            None => Vec::new(),
        };
        assert(slot@ =~= positions(before, mark));
        slot.push(self.count);
        self.slots.insert(mark, slot);
        self.count = self.count + 1;
        self.marks = Ghost(before.push(mark));
        proof {
            assert(before.push(mark).drop_last() =~= before);
            assert forall|other: u64| #[trigger] self.slots@.contains_key(other) implies self.slots@[other]@
                == positions(self@, other) by {
                if other != mark {
                    assert(held.contains_key(other));
                    assert(self.slots@[other] == held[other]);
                }
            }
            assert forall|other: u64| !#[trigger] self.slots@.contains_key(other) implies positions(
                self@,
                other,
            ).len() == 0 by {
                assert(!held.contains_key(other));
            }
        }
    }

    /// The positions of a mark, in rising order, where it occurs at all.
    pub(crate) fn find(&self, mark: u64) -> (slot: Option<&Vec<usize>>)
        requires
            self.wf(),
        ensures
            slot matches Some(s) ==> s@ == positions(self@, mark),
            slot is None ==> positions(self@, mark).len() == 0,
    {
        self.slots.get(&mark)
    }
}

/// The identities of a list of keys.
pub open spec fn identities(keys: Seq<TrackKey>) -> Seq<Identity> {
    keys.map_values(|key: TrackKey| key@)
}

/// A list of keys in which the last occurrence of a key is found by its size.
pub(crate) struct KeyIndex {
    keys: Vec<TrackKey>,
    sizes: Buckets,
}

impl View for KeyIndex {
    type V = Seq<Identity>;

    closed spec fn view(&self) -> Seq<Identity> {
        identities(self.keys@)
    }
}

/// Where an identity occurs last in a list.
pub open spec fn last_of(all: Seq<Identity>, wanted: Identity) -> Option<int>
    decreases all.len(),
{
    if all.len() == 0 {
        None
    } else if all.last() == wanted {
        Some(all.len() - 1)
    } else {
        last_of(all.drop_last(), wanted)
    }
}

pub proof fn lemma_last_of(all: Seq<Identity>, wanted: Identity)
    ensures
        last_of(all, wanted) matches Some(i) ==> {
            &&& 0 <= i < all.len()
            &&& all[i] == wanted
            &&& forall|j: int| i < j < all.len() ==> #[trigger] all[j] != wanted
        },
        last_of(all, wanted) is None ==> !all.contains(wanted),
    decreases all.len(),
{
    if all.len() > 0 && all.last() != wanted {
        let shorter = all.drop_last();
        lemma_last_of(shorter, wanted);
        if last_of(shorter, wanted) is None && all.contains(wanted) {
            let at = choose|at: int| 0 <= at < all.len() && all[at] == wanted;
            assert(shorter[at] == wanted);
        }
        assert forall|j: int| 0 <= j < shorter.len() implies all[j] == shorter[j] by {
        }
    }
}

pub proof fn lemma_last_of_is(all: Seq<Identity>, wanted: Identity, i: int)
    requires
        0 <= i < all.len(),
        all[i] == wanted,
        forall|j: int| i < j < all.len() ==> #[trigger] all[j] != wanted,
    ensures
        last_of(all, wanted) == Some(i),
{
    lemma_last_of(all, wanted);
}

impl KeyIndex {
    pub(crate) closed spec fn wf(self) -> bool {
        &&& self.sizes.wf()
        &&& self.sizes@ == self@.map_values(|key: Identity| key.size)
    }

    pub(crate) fn new() -> (index: KeyIndex)
        ensures
            index.wf(),
            index@ == Seq::<Identity>::empty(),
    {
        let index = KeyIndex { keys: Vec::new(), sizes: Buckets::new() };
        assert(index@ =~= Seq::empty());
        assert(index.sizes@ =~= index@.map_values(|key: Identity| key.size));
        index
    }

    pub(crate) fn add_key(&mut self, key: TrackKey)
        requires
            old(self).wf(),
        ensures
            final(self).wf(),
            final(self)@ == old(self)@.push(key@),
    {
        let ghost before = self@;
        let size = key.size;
        self.keys.push(key);
        let count: usize = self.keys.len();
        assert(before.len() + 1 == count);
        self.sizes.add_mark(size);
        assert(self@ =~= before.push(key@));
        assert(self.sizes@ =~= self@.map_values(|key: Identity| key.size));
    }

    /// Where the key occurs last.
    pub(crate) fn find_last(&self, key: &TrackKey) -> (at: Option<usize>)
        requires
            self.wf(),
        ensures
            at matches Some(i) ==> last_of(self@, key@) == Some(i as int),
            at is None ==> last_of(self@, key@) is None,
    {
        let ghost sizes = self.sizes@;
        let ghost all = self@;
        let len: usize = self.keys.len();
        assert(sizes.len() == len);
        proof {
            lemma_positions(sizes, key.size);
            lemma_last_of(all, key@);
            assert forall|j: int| 0 <= j < all.len() && #[trigger] all[j] == key@ implies positions(
                sizes,
                key.size,
            ).contains(j as usize) by {
                assert(sizes[j] == key.size);
            }
        }
        let slot = match self.sizes.find(key.size) {
            Some(slot) => slot,
            None => {
                proof {
                    if let Some(i) = last_of(all, key@) {
                        assert(all[i] == key@);
                        assert(positions(sizes, key.size).contains(i as usize));
                    }
                }
                return None;
            },
        };
        let mut n: usize = slot.len();
        while n > 0
            invariant
                self.wf(),
                all == self@,
                sizes == self.sizes@,
                len == all.len(),
                sizes.len() == len,
                slot@ == positions(sizes, key.size),
                n <= slot@.len(),
                forall|a: int| 0 <= a < slot@.len() ==> #[trigger] slot@[a] < len,
                forall|a: int, b: int|
                    0 <= a < b < slot@.len() ==> #[trigger] slot@[a] < #[trigger] slot@[b],
                forall|j: int| 0 <= j < all.len() && #[trigger] all[j] == key@ ==> slot@.contains(j as usize),
                forall|a: int| n <= a < slot@.len() ==> all[#[trigger] slot@[a] as int] != key@,
            decreases n,
        {
            let at: usize = slot[n - 1];
            assert(all[at as int] == self.keys@[at as int]@);
            if self.keys[at] == *key {
                proof {
                    assert forall|j: int| at < j < all.len() implies #[trigger] all[j] != key@ by {
                        if all[j] == key@ {
                            let a = choose|a: int| 0 <= a < slot@.len() && slot@[a] == j as usize;
                            assert(slot@[a] == j);
                            if a < n - 1 {
                                assert(slot@[a] < slot@[n - 1]);
                            }
                            assert(false);
                        }
                    }
                    lemma_last_of_is(all, key@, at as int);
                }
                return Some(at);
            }
            n -= 1;
        }
        proof {
            lemma_last_of(all, key@);
            if let Some(i) = last_of(all, key@) {
                assert(all[i] == key@);
                let a = choose|a: int| 0 <= a < slot@.len() && slot@[a] == i as usize;
                assert(all[slot@[a] as int] == key@);
            }
        }
        None
    }
}

/// A number that the same bytes always get.
spec fn mark_of(bytes: Seq<u8>) -> u64
    decreases bytes.len(),
{
    if bytes.len() == 0 {
        0
    } else {
        ((mark_of(bytes.drop_last()) % 0x100_0000_0000_0000) * 31 + bytes.last()) as u64
    }
}

fn mark_bytes(bytes: &Vec<u8>) -> (mark: u64)
    ensures
        mark == mark_of(bytes@),
{
    let mut mark: u64 = 0;
    let mut i: usize = 0;
    while i < bytes.len()
        invariant
            i <= bytes@.len(),
            mark == mark_of(bytes@.take(i as int)),
        decreases bytes@.len() - i,
    {
        mark = (mark % 0x100_0000_0000_0000) * 31 + bytes[i] as u64;
        i += 1;
        assert(bytes@.take(i as int).drop_last() =~= bytes@.take(i - 1));
    }
    assert(bytes@.take(i as int) =~= bytes@);
    mark
}

/// A number that the same path always gets: that of its last component.
spec fn path_mark(parts: Seq<Seq<u8>>) -> u64 {
    if parts.len() == 0 {
        0
    } else {
        mark_of(parts.last())
    }
}

fn mark_path(path: &FilePath) -> (mark: u64)
    ensures
        mark == path_mark(path.parts()),
{
    if path.components.len() == 0 {
        0
    } else {
        let last = &path.components[path.components.len() - 1];
        assert(path.parts().last() == last@);
        mark_bytes(last)
    }
}

/// The identity given for a path; of several the last counts.
pub open spec fn key_for(
    entries: Seq<(Seq<Seq<u8>>, Identity)>,
    wanted: Seq<Seq<u8>>,
) -> Option<Identity>
    decreases entries.len(),
{
    if entries.len() == 0 {
        None
    } else if entries.last().0 == wanted {
        Some(entries.last().1)
    } else {
        key_for(entries.drop_last(), wanted)
    }
}

proof fn lemma_key_for_is(entries: Seq<(Seq<Seq<u8>>, Identity)>, wanted: Seq<Seq<u8>>, i: int)
    requires
        0 <= i < entries.len(),
        entries[i].0 == wanted,
        forall|j: int| i < j < entries.len() ==> (#[trigger] entries[j]).0 != wanted,
    ensures
        key_for(entries, wanted) == Some(entries[i].1),
    decreases entries.len(),
{
    if i < entries.len() - 1 {
        assert(entries[entries.len() - 1].0 != wanted);
        lemma_key_for_is(entries.drop_last(), wanted, i);
    }
}

proof fn lemma_key_for_none(entries: Seq<(Seq<Seq<u8>>, Identity)>, wanted: Seq<Seq<u8>>)
    requires
        forall|j: int| 0 <= j < entries.len() ==> (#[trigger] entries[j]).0 != wanted,
    ensures
        key_for(entries, wanted) is None,
    decreases entries.len(),
{
    if entries.len() > 0 {
        assert(entries[entries.len() - 1].0 != wanted);
        lemma_key_for_none(entries.drop_last(), wanted);
    }
}

/// A list of paths in which a path is found by its file's name.
pub struct PathIndex {
    paths: Vec<FilePath>,
    marks: Buckets,
}

impl View for PathIndex {
    type V = Seq<Seq<Seq<u8>>>;

    closed spec fn view(&self) -> Self::V {
        Seq::new(self.paths@.len(), |i: int| self.paths@[i].parts())
    }
}

impl PathIndex {
    /// What every use keeps.
    pub closed spec fn wf(self) -> bool {
        &&& self.marks.wf()
        &&& self.marks@ == Seq::new(
            self.paths@.len(),
            |i: int| path_mark(self.paths@[i].parts()),
        )
    }

    /// The paths themselves.
    pub closed spec fn list(self) -> Seq<FilePath> {
        self.paths@
    }

    /// A list without paths.
    pub fn new() -> (index: PathIndex)
        ensures
            index.wf(),
            index@ == Seq::<Seq<Seq<u8>>>::empty(),
            index.list() == Seq::<FilePath>::empty(),
    {
        let index = PathIndex { paths: Vec::new(), marks: Buckets::new() };
        assert(index@ =~= Seq::empty());
        assert(index.marks@ =~= Seq::new(
            index.paths@.len(),
            |i: int| path_mark(index.paths@[i].parts()),
        ));
        index
    }

    /// Adds a path at the end.
    pub fn insert(&mut self, path: FilePath)
        requires
            old(self).wf(),
        ensures
            final(self).wf(),
            final(self)@ == old(self)@.push(path.parts()),
            final(self).list() == old(self).list().push(path),
    {
        let ghost before = *self;
        let mark = mark_path(&path);
        self.paths.push(path);
        let count: usize = self.paths.len();
        assert(before@.len() + 1 == count);
        self.marks.add_mark(mark);
        assert(self@ =~= before@.push(path.parts()));
        assert(self.marks@ =~= Seq::new(
            self.paths@.len(),
            |i: int| path_mark(self.paths@[i].parts()),
        ));
    }

    /// Where the path stands last.
    pub fn find_last(&self, path: &FilePath) -> (at: Option<usize>)
        requires
            self.wf(),
        ensures
            at matches Some(i) ==> {
                &&& i < self@.len()
                &&& self@[i as int] == path.parts()
                &&& forall|j: int| i < j < self@.len() ==> #[trigger] self@[j] != path.parts()
            },
            at is None ==> !self@.contains(path.parts()),
    {
        let ghost wanted = path.parts();
        let ghost marks = self.marks@;
        let mark = mark_path(path);
        let len: usize = self.paths.len();
        proof {
            assert(marks.len() == len);
            lemma_positions(marks, mark);
            assert forall|j: int| 0 <= j < self@.len() && #[trigger] self@[j] == wanted implies positions(
                marks,
                mark,
            ).contains(j as usize) by {
                assert(marks[j] == mark);
            }
        }
        let slot = match self.marks.find(mark) {
            Some(slot) => slot,
            None => {
                return None;
            },
        };
        let mut n: usize = slot.len();
        while n > 0
            invariant
                self.wf(),
                wanted == path.parts(),
                len == self@.len(),
                len == self.paths@.len(),
                n <= slot@.len(),
                forall|a: int| 0 <= a < slot@.len() ==> #[trigger] slot@[a] < len,
                forall|a: int, b: int|
                    0 <= a < b < slot@.len() ==> #[trigger] slot@[a] < #[trigger] slot@[b],
                forall|j: int|
                    0 <= j < self@.len() && #[trigger] self@[j] == wanted ==> slot@.contains(j as usize),
                forall|a: int| n <= a < slot@.len() ==> self@[#[trigger] slot@[a] as int] != wanted,
            decreases n,
        {
            let at: usize = slot[n - 1];
            assert(self@[at as int] == self.paths@[at as int].parts());
            if self.paths[at].same_file(path) {
                proof {
                    assert forall|j: int| at < j < self@.len() implies #[trigger] self@[j] != wanted by {
                        if self@[j] == wanted {
                            let a = choose|a: int| 0 <= a < slot@.len() && slot@[a] == j as usize;
                            assert(slot@[a] == j);
                            if a < n - 1 {
                                assert(slot@[a] < slot@[n - 1]);
                            }
                            assert(false);
                        }
                    }
                }
                return Some(at);
            }
            n -= 1;
        }
        proof {
            assert forall|j: int| 0 <= j < self@.len() implies #[trigger] self@[j] != wanted by {
                if self@[j] == wanted {
                    let a = choose|a: int| 0 <= a < slot@.len() && slot@[a] == j as usize;
                    assert(self@[slot@[a] as int] == wanted);
                }
            }
        }
        None
    }

    /// Gives the paths up.
    pub fn into_paths(self) -> (paths: Vec<FilePath>)
        ensures
            paths@ == self.list(),
    {
        self.paths
    }
}

/// The paths taken apart.
pub proof fn lemma_list_parts(index: PathIndex)
    ensures
        index@ == index.list().map_values(|path: FilePath| path.parts()),
{
    assert(index@ =~= index.list().map_values(|path: FilePath| path.parts()));
}

/// The keys of local tracks, found by path.
pub struct PathKeys {
    paths: PathIndex,
    keys: Vec<TrackKey>,
}

impl View for PathKeys {
    type V = Seq<(Seq<Seq<u8>>, Identity)>;

    closed spec fn view(&self) -> Self::V {
        Seq::new(self.paths@.len(), |i: int| (self.paths@[i], self.keys@[i]@))
    }
}

impl PathKeys {
    /// What every use keeps.
    pub closed spec fn wf(self) -> bool {
        self.paths.wf() && self.paths@.len() == self.keys@.len()
    }

    /// A table without paths.
    pub fn new() -> (table: PathKeys)
        ensures
            table.wf(),
            table@ == Seq::<(Seq<Seq<u8>>, Identity)>::empty(),
    {
        let table = PathKeys { paths: PathIndex::new(), keys: Vec::new() };
        assert(table@ =~= Seq::empty());
        table
    }

    /// Gives the path this key.
    pub fn insert(&mut self, path: FilePath, key: TrackKey)
        requires
            old(self).wf(),
        ensures
            final(self).wf(),
            final(self)@ == old(self)@.push((path.parts(), key@)),
    {
        let ghost before = *self;
        self.paths.insert(path);
        self.keys.push(key);
        assert(self@ =~= before@.push((path.parts(), key@)));
    }

    /// The key of the path.
    pub fn get(&self, path: &FilePath) -> (key: Option<&TrackKey>)
        requires
            self.wf(),
        ensures
            key matches Some(k) ==> key_for(self@, path.parts()) == Some(k@),
            key is None ==> key_for(self@, path.parts()) is None,
    {
        match self.paths.find_last(path) {
            Some(at) => {
                proof {
                    assert forall|j: int| at < j < self@.len() implies (#[trigger] self@[j]).0
                        != path.parts() by {
                        assert(self@[j].0 == self.paths@[j]);
                    }
                    lemma_key_for_is(self@, path.parts(), at as int);
                }
                Some(&self.keys[at])
            },
            None => {
                proof {
                    assert forall|j: int| 0 <= j < self@.len() implies (#[trigger] self@[j]).0
                        != path.parts() by {
                        assert(self@[j].0 == self.paths@[j]);
                    }
                    lemma_key_for_none(self@, path.parts());
                }
                None
            },
        }
    }
}

} // verus!
