//! The catalog: item identifiers and their ratings, built once during the
//! load pass and read per keystroke afterwards.
//!
//! Entries keep insertion order, and inserting an identifier a second
//! time replaces its rating in place, so keys stay unique. The typeahead
//! suggestion is the first key, in that order, whose lowercase form
//! contains the lowercase query.

use crate::text::contains_str;
use crate::text::contains_sub;
use crate::text::lower_of;
use crate::text::lowercase;
use vstd::prelude::*;

verus! {

/// Entry list after binding `k` to `v`: the first entry keyed `k` is
/// replaced, or the pair is appended when `k` is absent.
pub open spec fn entries_insert(s: Seq<(Seq<char>, u32)>, k: Seq<char>, v: u32) -> Seq<
    (Seq<char>, u32),
>
    decreases s.len(),
{
    if s.len() == 0 {
        seq![(k, v)]
    } else if s[0].0 == k {
        seq![(k, v)].add(s.skip(1))
    } else {
        seq![s[0]].add(entries_insert(s.skip(1), k, v))
    }
}

/// Rating bound to the first entry keyed `k`, if any.
pub open spec fn entries_lookup(s: Seq<(Seq<char>, u32)>, k: Seq<char>) -> Option<u32>
    decreases s.len(),
{
    if s.len() == 0 {
        None
    } else if s[0].0 == k {
        Some(s[0].1)
    } else {
        entries_lookup(s.skip(1), k)
    }
}

/// Rating for `k`, with an absent key reading as zero.
pub open spec fn rating_or_zero(s: Seq<(Seq<char>, u32)>, k: Seq<char>) -> u32 {
    match entries_lookup(s, k) {
        Some(v) => v,
        None => 0,
    }
}

/// The first key, in entry order, whose lowercase form contains the
/// lowercase query; empty when none matches.
pub open spec fn spec_suggest(s: Seq<(Seq<char>, u32)>, q: Seq<char>) -> Seq<char>
    decreases s.len(),
{
    if s.len() == 0 {
        Seq::empty()
    } else if contains_sub(lower_of(s[0].0), lower_of(q)) {
        s[0].0
    } else {
        spec_suggest(s.skip(1), q)
    }
}

/// In-memory mapping from item identifier to rating in hundredths.
pub struct Catalog {
    entries: Vec<(String, u32)>,
}

impl View for Catalog {
    type V = Seq<(Seq<char>, u32)>;

    closed spec fn view(&self) -> Seq<(Seq<char>, u32)> {
        self.entries@.map_values(|e: (String, u32)| (e.0@, e.1))
    }
}

impl Catalog {
    pub fn new() -> (c: Catalog)
        ensures
            c@ == Seq::<(Seq<char>, u32)>::empty(),
    {
        let c = Catalog { entries: Vec::new() };
        proof {
            assert(c@ =~= Seq::<(Seq<char>, u32)>::empty());
        }
        c
    }

    pub fn len(&self) -> (n: usize)
        ensures
            n == self@.len(),
    {
        self.entries.len()
    }

    /// The entry pairs, in insertion order.
    pub fn entries(&self) -> (r: &Vec<(String, u32)>)
        ensures
            r@.map_values(|e: (String, u32)| (e.0@, e.1)) == self@,
    {
        &self.entries
    }

    /// Binds `name` to `centi`, replacing the rating of an already known
    /// identifier in place.
    pub fn insert(&mut self, name: String, centi: u32)
        ensures
            final(self)@ == entries_insert(old(self)@, name@, centi),
    {
        let mut i: usize = 0;
        let n = self.entries.len();
        while i < n
            invariant
                n == self.entries.len(),
                i <= n,
                *self == *old(self),
                forall|j: int| 0 <= j < i ==> self@[j].0 != name@,
            decreases n - i,
        {
            if self.entries[i].0 == name {
                assert(self@[i as int].0 == name@);
                let _prev = self.entries.remove(i);
                self.entries.insert(i, (name, centi));
                proof {
                    lemma_entries_insert_found(old(self)@, name@, centi, i as int);
                    assert(self@ =~= old(self)@.update(i as int, (name@, centi)));
                }
                return ;
            }
            i += 1;
        }
        self.entries.push((name, centi));
        proof {
            lemma_entries_insert_absent(old(self)@, name@, centi);
            assert(self@ =~= old(self)@.push((name@, centi)));
        }
    }

    /// Rating of `name`, with an unknown identifier reading as zero.
    pub fn get_centi(&self, name: &String) -> (r: u32)
        ensures
            r == rating_or_zero(self@, name@),
    {
        let n = self.entries.len();
        let mut i: usize = 0;
        assert(self@.skip(0) =~= self@);
        while i < n
            invariant
                n == self.entries.len(),
                i <= n,
                entries_lookup(self@, name@) == entries_lookup(self@.skip(i as int), name@),
            decreases n - i,
        {
            assert(self@.skip(i as int)[0] == self@[i as int]);
            if self.entries[i].0 == *name {
                return self.entries[i].1;
            }
            proof {
                assert(self@.skip(i as int).skip(1) =~= self@.skip(i + 1));
            }
            i += 1;
        }
        assert(self@.skip(n as int) =~= Seq::<(Seq<char>, u32)>::empty());
        0
    }

    /// The typeahead suggestion for `query`: the first key whose
    /// lowercase form contains the lowercase query, or empty.
    pub fn suggest(&self, query: &str) -> (r: String)
        ensures
            r@ == spec_suggest(self@, query@),
    {
        let ql = lowercase(query);
        let n = self.entries.len();
        let mut i: usize = 0;
        assert(self@.skip(0) =~= self@);
        while i < n
            invariant
                n == self.entries.len(),
                i <= n,
                ql@ == lower_of(query@),
                spec_suggest(self@, query@) == spec_suggest(self@.skip(i as int), query@),
            decreases n - i,
        {
            assert(self@.skip(i as int)[0] == self@[i as int]);
            let kl = lowercase(self.entries[i].0.as_str());
            if contains_str(kl.as_str(), ql.as_str()) {
                return self.entries[i].0.clone();
            }
            proof {
                assert(self@.skip(i as int).skip(1) =~= self@.skip(i + 1));
            }
            i += 1;
        }
        assert(self@.skip(n as int) =~= Seq::<(Seq<char>, u32)>::empty());
        String::new()
    }
}

/// Inserting a key that first occurs at `i` replaces that entry alone.
pub(crate) proof fn lemma_entries_insert_found(s: Seq<(Seq<char>, u32)>, k: Seq<char>, v: u32, i: int)
    requires
        0 <= i < s.len(),
        s[i].0 == k,
        forall|j: int| 0 <= j < i ==> s[j].0 != k,
    ensures
        entries_insert(s, k, v) == s.update(i, (k, v)),
    decreases i,
{
    if i == 0 {
        assert(entries_insert(s, k, v) =~= s.update(0, (k, v)));
    } else {
        assert(forall|j: int| 0 <= j < i - 1 ==> s.skip(1)[j].0 == s[j + 1].0);
        lemma_entries_insert_found(s.skip(1), k, v, i - 1);
        assert(entries_insert(s, k, v) =~= s.update(i, (k, v)));
    }
}

/// Inserting an absent key appends its entry.
pub(crate) proof fn lemma_entries_insert_absent(s: Seq<(Seq<char>, u32)>, k: Seq<char>, v: u32)
    requires
        forall|j: int| 0 <= j < s.len() ==> s[j].0 != k,
    ensures
        entries_insert(s, k, v) == s.push((k, v)),
    decreases s.len(),
{
    if s.len() == 0 {
        assert(entries_insert(s, k, v) =~= s.push((k, v)));
    } else {
        assert(forall|j: int| 0 <= j < s.skip(1).len() ==> s.skip(1)[j].0 == s[j + 1].0);
        lemma_entries_insert_absent(s.skip(1), k, v);
        assert(entries_insert(s, k, v) =~= s.push((k, v)));
    }
}

} // verus!
