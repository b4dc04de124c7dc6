//! The symbol table: label name to resolved value.  Keys are unique —
//! inserting a name a second time is refused, never silently overwritten.
//! It is filled during pass one and only read during pass two.

use vstd::prelude::*;
use crate::insertable_num::InsertableNum;
use crate::lexical_analyzer::clone_bytes;

verus! {

/// Byte-string equality.
pub fn bytes_eq(a: &Vec<u8>, b: &Vec<u8>) -> (r: bool)
    ensures
        r == (a@ == b@),
{
    if a.len() != b.len() {
        return false;
    }
    let mut i: usize = 0;
    while i < a.len()
        invariant
            i <= a@.len(),
            a@.len() == b@.len(),
            forall|j: int| 0 <= j < i ==> a@[j] == b@[j],
        decreases a@.len() - i,
    {
        if a[i] != b[i] {
            return false;
        }
        i = i + 1;
    }
    proof {
        assert(a@ =~= b@);
    }
    true
}

pub struct SymbolTable {
    entries: Vec<(Vec<u8>, InsertableNum)>,
}

/// The map an entry list stands for; later entries would shadow earlier
/// ones, but the table never holds a key twice.
pub open spec fn entries_map(s: Seq<(Vec<u8>, InsertableNum)>) -> Map<Seq<u8>, InsertableNum>
    decreases s.len(),
{
    if s.len() == 0 {
        Map::empty()
    } else {
        entries_map(s.drop_last()).insert(s.last().0@, s.last().1)
    }
}

proof fn lemma_entries_map_domain(s: Seq<(Vec<u8>, InsertableNum)>, k: Seq<u8>)
    ensures
        entries_map(s).contains_key(k) <==> exists|j: int| 0 <= j < s.len() && s[j].0@ == k,
        entries_map(s).contains_key(k) ==> exists|j: int|
            0 <= j < s.len() && s[j].0@ == k && entries_map(s)[k] == s[j].1,
    decreases s.len(),
{
    if s.len() > 0 {
        lemma_entries_map_domain(s.drop_last(), k);
        if s.last().0@ == k {
            assert(s[s.len() - 1].0@ == k && entries_map(s)[k] == s[s.len() - 1].1);
        } else {
            if entries_map(s).contains_key(k) {
                let j = choose|j: int|
                    0 <= j < s.drop_last().len() && s.drop_last()[j].0@ == k && entries_map(
                        s.drop_last(),
                    )[k] == s.drop_last()[j].1;
                assert(s[j].0@ == k && entries_map(s)[k] == s[j].1);
            }
            if exists|j: int| 0 <= j < s.len() && s[j].0@ == k {
                let j = choose|j: int| 0 <= j < s.len() && s[j].0@ == k;
                assert(s.drop_last()[j].0@ == k);
            }
        }
    }
}

impl SymbolTable {
    /// The mapping the table holds.
    pub closed spec fn view(self) -> Map<Seq<u8>, InsertableNum> {
        entries_map(self.entries@)
    }

    /// Keys are never repeated.
    pub closed spec fn wf(self) -> bool {
        forall|a: int, b: int|
            0 <= a < b < self.entries@.len() ==> (#[trigger] self.entries@[a].0@) != (
            #[trigger] self.entries@[b].0@)
    }

    /// An empty table.
    pub fn new() -> (t: SymbolTable)
        ensures
            t.wf(),
            t@ == Map::<Seq<u8>, InsertableNum>::empty(),
    {
        SymbolTable { entries: Vec::new() }
    }

    /// Looks a name up.
    pub fn get(&self, name: &Vec<u8>) -> (r: Option<InsertableNum>)
        requires
            self.wf(),
        ensures
            self@.contains_key(name@) ==> r == Some(self@[name@]),
            !self@.contains_key(name@) ==> r is None,
    {
        proof {
            lemma_entries_map_domain(self.entries@, name@);
        }
        let mut i: usize = 0;
        while i < self.entries.len()
            invariant
                self.wf(),
                i <= self.entries@.len(),
                forall|j: int| 0 <= j < i ==> self.entries@[j].0@ != name@,
            decreases self.entries@.len() - i,
        {
            if bytes_eq(&self.entries[i].0, name) {
                proof {
                    lemma_entries_map_domain(self.entries@, name@);
                    assert(self@.contains_key(name@));
                    assert(exists|j: int|
                        0 <= j < self.entries@.len() && self.entries@[j].0@ == name@
                            && entries_map(self.entries@)[name@] == self.entries@[j].1);
                    let w = choose|j: int|
                        0 <= j < self.entries@.len() && self.entries@[j].0@ == name@
                            && entries_map(self.entries@)[name@] == self.entries@[j].1;
                    if w < i {
                        assert(self.entries@[w].0@ != name@);
                        assert(false);
                    }
                    if w > i {
                        assert(self.entries@[i as int].0@ != self.entries@[w].0@);
                        assert(false);
                    }
                }
                return Some(self.entries[i].1);
            }
            i = i + 1;
        }
        proof {
            if self@.contains_key(name@) {
                lemma_entries_map_domain(self.entries@, name@);
                assert(false);
            }
        }
        None
    }

    /// Adds a binding.  A name already present is refused and the table is
    /// left unchanged.
    pub fn insert(&mut self, name: Vec<u8>, value: InsertableNum) -> (ok: bool)
        requires
            old(self).wf(),
        ensures
            final(self).wf(),
            ok == !old(self)@.contains_key(name@),
            ok ==> final(self)@ == old(self)@.insert(name@, value),
            !ok ==> final(self)@ == old(self)@,
    {
        let present = match self.get(&name) {
            Some(_) => true,
            None => false,
        };
        if present {
            return false;
        }
        proof {
            lemma_entries_map_domain(self.entries@, name@);
        }
        let ghost pre = self.entries@;
        self.entries.push((name, value));
        proof {
            assert(self.entries@.drop_last() =~= pre);
            assert forall|a: int, b: int|
                0 <= a < b < self.entries@.len() implies self.entries@[a].0@
                != self.entries@[b].0@ by {
                if b == self.entries@.len() - 1 {
                    lemma_entries_map_domain(pre, self.entries@[b].0@);
                    assert(pre[a] == self.entries@[a]);
                }
            }
        }
        true
    }
}

} // verus!
