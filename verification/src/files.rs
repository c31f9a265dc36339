use vstd::prelude::*;

use crate::file::File;
use crate::file::FileV;
use crate::state::State;

verus! {

/// The mathematical content of an entry list: each relative path as a byte
/// sequence, each entry as its model.
pub open spec fn kv_of(entries: Seq<(Vec<u8>, File)>) -> Seq<(Seq<u8>, FileV)> {
    entries.map_values(|e: (Vec<u8>, File)| (e.0@, e.1@))
}

/// The map an entry list denotes; on duplicate keys the later entry wins.
pub open spec fn map_of(s: Seq<(Seq<u8>, FileV)>) -> Map<Seq<u8>, FileV>
    decreases s.len(),
{
    if s.len() == 0 {
        Map::empty()
    } else {
        map_of(s.drop_last()).insert(s.last().0, s.last().1)
    }
}

/// No path occurs twice in the list.
pub open spec fn unique_keys(s: Seq<(Seq<u8>, FileV)>) -> bool {
    forall|i: int, j: int| 0 <= i < j < s.len() ==> s[i].0 != s[j].0
}

pub proof fn lemma_map_of_contains(s: Seq<(Seq<u8>, FileV)>, k: Seq<u8>)
    ensures
        map_of(s).contains_key(k) <==> exists|i: int| 0 <= i < s.len() && s[i].0 == k,
    decreases s.len(),
{
    if s.len() > 0 {
        lemma_map_of_contains(s.drop_last(), k);
        if s.last().0 == k {
            assert(s[s.len() - 1].0 == k);
        } else if map_of(s).contains_key(k) {
            let i = choose|i: int| 0 <= i < s.drop_last().len() && s.drop_last()[i].0 == k;
            assert(s[i].0 == k);
        } else if exists|i: int| 0 <= i < s.len() && s[i].0 == k {
            let i = choose|i: int| 0 <= i < s.len() && s[i].0 == k;
            assert(s.drop_last()[i].0 == k);
        }
    }
}

pub proof fn lemma_map_of_index(s: Seq<(Seq<u8>, FileV)>, i: int)
    requires
        unique_keys(s),
        0 <= i < s.len(),
    ensures
        map_of(s).contains_key(s[i].0),
        map_of(s)[s[i].0] == s[i].1,
    decreases s.len(),
{
    if i == s.len() - 1 {
    } else {
        lemma_map_of_index(s.drop_last(), i);
        assert(s.drop_last()[i] == s[i]);
        assert(s[i].0 != s.last().0);
    }
}

/// True when the two byte strings hold the same bytes.
pub fn bytes_eq(a: &Vec<u8>, b: &Vec<u8>) -> (r: bool)
    ensures
        r == (a@ == b@),
{
    if a.len() != b.len() {
        return false;
    }
    let mut i: usize = 0;
    while i < a.len()
        invariant
            i <= a.len(),
            a@.len() == b@.len(),
            forall|j: int| 0 <= j < i ==> a@[j] == b@[j],
        decreases a.len() - i,
    {
        if a[i] != b[i] {
            return false;
        }
        i += 1;
    }
    proof {
        assert(a@ =~= b@);
    }
    true
}

/// Copy a byte string.
pub fn clone_bytes(v: &Vec<u8>) -> (r: Vec<u8>)
    ensures
        r@ == v@,
{
    let r = v.clone();
    proof {
        assert forall|j: int| 0 <= j < r@.len() implies r@[j] == v@[j] by {}
        assert(r@ =~= v@);
    }
    r
}

/// A snapshot: a mapping from relative file path to `File`, kept as a list
/// of entries with pairwise distinct paths.
#[derive(Debug, Clone, PartialEq)]
pub struct Files {
    pub entries: Vec<(Vec<u8>, File)>,
}

impl View for Files {
    type V = Map<Seq<u8>, FileV>;

    open spec fn view(&self) -> Map<Seq<u8>, FileV> {
        map_of(self.kv())
    }
}

impl Files {
    /// The snapshot's entries, in insertion order, as a mathematical list.
    pub open spec fn kv(&self) -> Seq<(Seq<u8>, FileV)> {
        kv_of(self.entries@)
    }

    /// Paths are pairwise distinct, so the entry list denotes its map
    /// faithfully.
    pub open spec fn wf(&self) -> bool {
        unique_keys(self.kv())
    }

    pub fn empty() -> (r: Self)
        ensures
            r.wf(),
            r@ == Map::<Seq<u8>, FileV>::empty(),
            r.kv().len() == 0,
    {
        Self { entries: Vec::new() }
    }

    pub fn from_map(entries: Vec<(Vec<u8>, File)>) -> (r: Self)
        requires
            unique_keys(kv_of(entries@)),
        ensures
            r.wf(),
            r.kv() == kv_of(entries@),
    {
        Self { entries }
    }

    pub fn data(&self) -> (r: &Vec<(Vec<u8>, File)>)
        ensures
            kv_of(r@) == self.kv(),
    {
        &self.entries
    }

    pub fn len(&self) -> (r: usize)
        ensures
            r == self.kv().len(),
    {
        self.entries.len()
    }

    pub fn get(&self, path: &Vec<u8>) -> (r: Option<&File>)
        requires
            self.wf(),
        ensures
            match r {
                Some(f) => self@.contains_key(path@) && f@ == self@[path@],
                None => !self@.contains_key(path@),
            },
    {
        let n = self.entries.len();
        let mut i: usize = 0;
        while i < n
            invariant
                self.wf(),
                n == self.entries@.len(),
                i <= n,
                forall|j: int| 0 <= j < i ==> self.kv()[j].0 != path@,
            decreases n - i,
        {
            if bytes_eq(&self.entries[i].0, path) {
                proof {
                    lemma_map_of_index(self.kv(), i as int);
                }
                return Some(&self.entries[i].1);
            }
            i += 1;
        }
        proof {
            lemma_map_of_contains(self.kv(), path@);
        }
        None
    }

    pub fn contains_key(&self, path: &Vec<u8>) -> (r: bool)
        requires
            self.wf(),
        ensures
            r == self@.contains_key(path@),
    {
        self.get(path).is_some()
    }

    /// Add an entry for a path the snapshot does not hold yet.
    pub fn insert(&mut self, path: Vec<u8>, file: File)
        requires
            old(self).wf(),
            !old(self)@.contains_key(path@),
        ensures
            final(self).wf(),
            final(self).kv() == old(self).kv().push((path@, file@)),
            final(self)@ == old(self)@.insert(path@, file@),
    {
        proof {
            lemma_map_of_contains(self.kv(), path@);
        }
        self.entries.push((path, file));
        proof {
            assert(self.kv() =~= old(self).kv().push((path@, file@)));
            assert(self.kv().drop_last() =~= old(self).kv());
        }
    }

    /// A copy with the same entries in the same order.
    pub fn duplicate(&self) -> (r: Files)
        ensures
            r.kv() == self.kv(),
            r@ == self@,
            self.wf() ==> r.wf(),
    {
        let mut out: Vec<(Vec<u8>, File)> = Vec::new();
        let n = self.entries.len();
        let mut i: usize = 0;
        while i < n
            invariant
                i <= n,
                n == self.entries@.len(),
                out@.len() == i,
                forall|j: int| 0 <= j < i ==> kv_of(out@)[j] == self.kv()[j],
            decreases n - i,
        {
            let path = clone_bytes(&self.entries[i].0);
            let file = self.entries[i].1;
            out.push((path, file));
            proof {
                assert(kv_of(out@)[i as int] == self.kv()[i as int]);
            }
            i += 1;
        }
        proof {
            assert(kv_of(out@) =~= self.kv());
        }
        Files { entries: out }
    }

    /// Rewrite every entry's tag to `Unchanged`, as the persisted form of a
    /// snapshot requires.
    pub fn set_all_unchanged(&mut self)
        ensures
            final(self).kv() == stored_form(old(self).kv()),
            old(self).wf() ==> final(self).wf(),
    {
        let n = self.entries.len();
        let mut out: Vec<(Vec<u8>, File)> = Vec::new();
        let mut i: usize = 0;
        while i < n
            invariant
                n == self.entries@.len(),
                i <= n,
                self == old(self),
                out@.len() == i,
                forall|j: int| 0 <= j < i ==> kv_of(out@)[j] == stored_form(old(self).kv())[j],
            decreases n - i,
        {
            let path = self.entries[i].0.clone();
            let mut file = self.entries[i].1;
            file.set_state(State::Unchanged);
            let ghost pre = out@;
            let ghost pushed = (path, file);
            out.push((path, file));
            proof {
                let ghost orig = self.entries@[i as int].0@;
                assert forall|j: int| 0 <= j < pushed.0@.len() implies pushed.0@[j] == orig[j] by {}
                assert(pushed.0@ =~= orig);
                assert(out@ == pre.push(pushed));
                assert forall|j: int| 0 <= j <= i implies kv_of(out@)[j] == stored_form(
                    old(self).kv(),
                )[j] by {
                    assert(out@[j] == pre.push(pushed)[j]);
                    if j < i {
                        assert(out@[j] == pre[j]);
                        assert(kv_of(pre)[j] == stored_form(old(self).kv())[j]);
                    } else {
                        assert(out@[j] == pushed);
                    }
                }
            }
            i += 1;
        }
        self.entries = out;
        proof {
            assert(self.kv() =~= stored_form(old(self).kv()));
            if old(self).wf() {
                assert forall|a: int, b: int|
                    0 <= a < b < self.kv().len() implies self.kv()[a].0 != self.kv()[b].0 by {
                    assert(old(self).kv()[a].0 != old(self).kv()[b].0);
                }
            }
        }
    }
}

/// The persisted form of an entry list: every state forced to `Unchanged`.
pub open spec fn stored_form(s: Seq<(Seq<u8>, FileV)>) -> Seq<(Seq<u8>, FileV)> {
    s.map_values(|e: (Seq<u8>, FileV)| (e.0, FileV { state: State::Unchanged, ..e.1 }))
}

} // verus!
