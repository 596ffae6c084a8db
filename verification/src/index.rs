//! The tag index: the objects, tags and object-tag associations that the
//! load pass registers for the host's ranking engine.
//!
//! The ranking engine itself is an opaque collaborator of the host; the
//! library owns the index it is fed from. Each component keeps insertion
//! order and holds no duplicates.

use vstd::prelude::*;
use vstd::string::StringExecFns;

verus! {

/// `s` with `x` appended, unless `x` is already present.
pub open spec fn dedup_insert(s: Seq<Seq<char>>, x: Seq<char>) -> Seq<Seq<char>> {
    if s.contains(x) {
        s
    } else {
        s.push(x)
    }
}

/// `s` with the pair `p` appended, unless `p` is already present.
pub open spec fn pair_insert(s: Seq<(Seq<char>, Seq<char>)>, p: (Seq<char>, Seq<char>)) -> Seq<
    (Seq<char>, Seq<char>),
> {
    if s.contains(p) {
        s
    } else {
        s.push(p)
    }
}

/// The three components of a [`TagIndex`], as character sequences.
pub struct IndexView {
    pub objects: Seq<Seq<char>>,
    pub tags: Seq<Seq<char>>,
    pub pairs: Seq<(Seq<char>, Seq<char>)>,
}

/// Objects, tags, and object-tag associations, in insertion order and
/// without duplicates.
pub struct TagIndex {
    objects: Vec<String>,
    tags: Vec<String>,
    pairs: Vec<(String, String)>,
}

impl View for TagIndex {
    type V = IndexView;

    closed spec fn view(&self) -> IndexView {
        IndexView {
            objects: self.objects@.map_values(|s: String| s@),
            tags: self.tags@.map_values(|s: String| s@),
            pairs: self.pairs@.map_values(|p: (String, String)| (p.0@, p.1@)),
        }
    }
}

/// True when some element of `v` views as `x`.
fn vec_has_string(v: &Vec<String>, x: &String) -> (r: bool)
    ensures
        r == v@.map_values(|s: String| s@).contains(x@),
{
    let ghost m = v@.map_values(|s: String| s@);
    let n = v.len();
    let mut i: usize = 0;
    while i < n
        invariant
            n == v.len(),
            i <= n,
            m == v@.map_values(|s: String| s@),
            forall|j: int| 0 <= j < i ==> m[j] != x@,
        decreases n - i,
    {
        if v[i] == *x {
            assert(m[i as int] == x@);
            return true;
        }
        i += 1;
    }
    assert(forall|j: int| 0 <= j < m.len() ==> m[j] != x@);
    false
}

impl TagIndex {
    pub fn new() -> (ix: TagIndex)
        ensures
            ix@.objects == Seq::<Seq<char>>::empty(),
            ix@.tags == Seq::<Seq<char>>::empty(),
            ix@.pairs == Seq::<(Seq<char>, Seq<char>)>::empty(),
    {
        let ix = TagIndex { objects: Vec::new(), tags: Vec::new(), pairs: Vec::new() };
        proof {
            assert(ix@.objects =~= Seq::<Seq<char>>::empty());
            assert(ix@.tags =~= Seq::<Seq<char>>::empty());
            assert(ix@.pairs =~= Seq::<(Seq<char>, Seq<char>)>::empty());
        }
        ix
    }

    /// Registers `id` as an object; a known object is left as it is.
    pub fn add_object(&mut self, id: &String)
        ensures
            final(self)@.objects == dedup_insert(old(self)@.objects, id@),
            final(self)@.tags == old(self)@.tags,
            final(self)@.pairs == old(self)@.pairs,
    {
        if !vec_has_string(&self.objects, id) {
            self.objects.push(id.clone());
            proof {
                assert(self@.objects =~= old(self)@.objects.push(id@));
            }
        }
    }

    /// Registers `tag`; a known tag is left as it is.
    pub fn add_tag(&mut self, tag: &str)
        ensures
            final(self)@.tags == dedup_insert(old(self)@.tags, tag@),
            final(self)@.objects == old(self)@.objects,
            final(self)@.pairs == old(self)@.pairs,
    {
        let t = String::from_str(tag);
        if !vec_has_string(&self.tags, &t) {
            self.tags.push(t);
            proof {
                assert(self@.tags =~= old(self)@.tags.push(tag@));
            }
        }
    }

    /// Associates `id` with `tag`; an already recorded association is
    /// left as it is.
    pub fn tag_object(&mut self, id: &String, tag: &str)
        ensures
            final(self)@.pairs == pair_insert(old(self)@.pairs, (id@, tag@)),
            final(self)@.objects == old(self)@.objects,
            final(self)@.tags == old(self)@.tags,
    {
        let t = String::from_str(tag);
        let ghost m = self@.pairs;
        let n = self.pairs.len();
        let mut i: usize = 0;
        let mut present = false;
        while i < n
            invariant_except_break
                !present,
            invariant
                n == self.pairs.len(),
                i <= n,
                t@ == tag@,
                *self == *old(self),
                m == self@.pairs,
                forall|j: int| 0 <= j < i ==> m[j] != (id@, tag@),
            ensures
                *self == *old(self),
                present == m.contains((id@, tag@)),
            decreases n - i,
        {
            if self.pairs[i].0 == *id && self.pairs[i].1 == t {
                present = true;
                assert(m[i as int] == (id@, tag@));
                break ;
            }
            i += 1;
        }
        if !present {
            self.pairs.push((id.clone(), t));
            proof {
                assert(self@.pairs =~= old(self)@.pairs.push((id@, tag@)));
            }
        }
    }

    /// The registered objects, in insertion order.
    pub fn objects(&self) -> (r: &Vec<String>)
        ensures
            r@.map_values(|s: String| s@) == self@.objects,
    {
        &self.objects
    }

    /// The registered tags, in insertion order.
    pub fn tags(&self) -> (r: &Vec<String>)
        ensures
            r@.map_values(|s: String| s@) == self@.tags,
    {
        &self.tags
    }

    /// The recorded object-tag associations, in insertion order.
    pub fn pairs(&self) -> (r: &Vec<(String, String)>)
        ensures
            r@.map_values(|p: (String, String)| (p.0@, p.1@)) == self@.pairs,
    {
        &self.pairs
    }
}

} // verus!
