//! The data model: atoms, property/value pairs, and resources.
//!
//! A resource is a subject URI together with a mapping from property URIs to
//! raw value strings. The mapping is held as a vector of pairs with unique
//! property keys; its mathematical view is a `Map<Seq<char>, Seq<char>>`.

use vstd::prelude::*;

verus! {

/// A single property/value pair inside a resource.
#[derive(Debug)]
pub struct PropVal {
    pub property: String,
    pub value: String,
}

/// A single subject/property/value fact; the unit of bulk mutation.
#[derive(Debug)]
pub struct Atom {
    pub subject: String,
    pub property: String,
    pub value: String,
}

/// The mapping that a sequence of property/value pairs denotes,
/// later pairs winning on equal keys.
pub open spec fn props_map(pvs: Seq<PropVal>) -> Map<Seq<char>, Seq<char>>
    decreases pvs.len(),
{
    if pvs.len() == 0 {
        Map::empty()
    } else {
        props_map(pvs.drop_last()).insert(pvs.last().property@, pvs.last().value@)
    }
}

/// The property keys of a pair sequence are pairwise distinct.
pub open spec fn props_unique(pvs: Seq<PropVal>) -> bool {
    forall|i: int, j: int|
        0 <= i < j < pvs.len() ==> pvs[i].property@ != pvs[j].property@
}

/// A key is in the denoted mapping exactly when some pair carries it.
pub proof fn lemma_props_map_dom(pvs: Seq<PropVal>, k: Seq<char>)
    ensures
        props_map(pvs).contains_key(k) <==> exists|i: int|
            0 <= i < pvs.len() && pvs[i].property@ == k,
    decreases pvs.len(),
{
    if pvs.len() > 0 {
        lemma_props_map_dom(pvs.drop_last(), k);
        if props_map(pvs).contains_key(k) {
            if pvs.last().property@ == k {
                assert(pvs[pvs.len() - 1].property@ == k);
            } else {
                let i = choose|i: int| 0 <= i < pvs.drop_last().len()
                    && pvs.drop_last()[i].property@ == k;
                assert(pvs[i].property@ == k);
            }
        }
        if exists|i: int| 0 <= i < pvs.len() && pvs[i].property@ == k {
            let i = choose|i: int| 0 <= i < pvs.len() && pvs[i].property@ == k;
            if i < pvs.len() - 1 {
                assert(pvs.drop_last()[i].property@ == k);
            }
        }
    }
}

/// The value in the denoted mapping is that of the last pair carrying the key.
pub proof fn lemma_props_map_at(pvs: Seq<PropVal>, j: int)
    requires
        0 <= j < pvs.len(),
        forall|i: int| j < i < pvs.len() ==> pvs[i].property@ != pvs[j].property@,
    ensures
        props_map(pvs).contains_key(pvs[j].property@),
        props_map(pvs)[pvs[j].property@] == pvs[j].value@,
    decreases pvs.len(),
{
    if j == pvs.len() - 1 {
    } else {
        assert(pvs.drop_last()[j] == pvs[j]);
        lemma_props_map_at(pvs.drop_last(), j);
    }
}

/// Taking out the pair that carries a key removes the key from the
/// denoted mapping, and keeps the remaining keys distinct.
pub proof fn lemma_props_map_remove_at(pvs: Seq<PropVal>, j: int)
    requires
        0 <= j < pvs.len(),
        props_unique(pvs),
    ensures
        props_unique(pvs.remove(j)),
        props_map(pvs.remove(j)) == props_map(pvs).remove(pvs[j].property@),
    decreases pvs.len(),
{
    let k = pvs[j].property@;
    let rem = pvs.remove(j);
    assert forall|a: int, b: int| 0 <= a < b < rem.len()
        implies rem[a].property@ != rem[b].property@ by {
        assert(rem[a] == if a < j { pvs[a] } else { pvs[a + 1] });
        assert(rem[b] == if b < j { pvs[b] } else { pvs[b + 1] });
    }
    if j == pvs.len() - 1 {
        assert(rem =~= pvs.drop_last());
        lemma_props_map_dom(pvs.drop_last(), k);
        assert(!props_map(pvs.drop_last()).contains_key(k));
        assert(props_map(rem) =~= props_map(pvs).remove(k));
    } else {
        assert(rem.drop_last() =~= pvs.drop_last().remove(j));
        assert(rem.last() == pvs.last());
        assert(props_unique(pvs.drop_last()));
        assert(pvs.drop_last()[j] == pvs[j]);
        lemma_props_map_remove_at(pvs.drop_last(), j);
        assert(pvs.last().property@ != k);
        assert(props_map(rem) =~= props_map(pvs).remove(k));
    }
}

impl PropVal {
    /// An identical copy.
    pub fn duplicate(&self) -> (r: PropVal)
        ensures
            r == *self,
    {
        PropVal { property: self.property.clone(), value: self.value.clone() }
    }
}

/// The materialized state of one subject: its current property values.
#[derive(Debug)]
pub struct Resource {
    pub subject: String,
    pub propvals: Vec<PropVal>,
}

impl Resource {
    /// The mapping from property URIs to raw value strings that this
    /// resource denotes.
    pub open spec fn view(&self) -> Map<Seq<char>, Seq<char>> {
        props_map(self.propvals@)
    }

    /// Well-formed: property keys are pairwise distinct.
    pub open spec fn wf(&self) -> bool {
        props_unique(self.propvals@)
    }

    /// An empty resource for the given subject.
    pub fn new(subject: String) -> (r: Resource)
        ensures
            r.subject@ == subject@,
            r@ == Map::<Seq<char>, Seq<char>>::empty(),
            r.wf(),
            r.propvals@.len() == 0,
    {
        Resource { subject, propvals: Vec::new() }
    }

    /// The current value of a property, if the resource holds one.
    pub fn get<'a>(&'a self, property: &str) -> (r: Option<&'a String>)
        ensures
            match r {
                Some(v) => self@.contains_key(property@) && self@[property@] == v@,
                None => !self@.contains_key(property@),
            },
    {
        let mut i: usize = self.propvals.len();
        while i > 0
            invariant
                i <= self.propvals@.len(),
                forall|k: int| i <= k < self.propvals@.len()
                    ==> self.propvals@[k].property@ != property@,
            decreases i,
        {
            i = i - 1;
            if crate::text::str_eq(self.propvals[i].property.as_str(), property) {
                proof {
                    lemma_props_map_at(self.propvals@, i as int);
                }
                return Some(&self.propvals[i].value);
            }
        }
        proof {
            lemma_props_map_dom(self.propvals@, property@);
        }
        None
    }

    /// Removes a property, if present.
    pub fn remove_propval(&mut self, property: &str)
        requires
            old(self).wf(),
        ensures
            final(self)@ == old(self)@.remove(property@),
            final(self).wf(),
            final(self).subject@ == old(self).subject@,
            final(self).propvals@.len() <= old(self).propvals@.len(),
            !final(self)@.contains_key(property@),
    {
        let ghost pvs0 = self.propvals@;
        let mut i: usize = 0;
        while i < self.propvals.len()
            invariant
                self.propvals@ == pvs0,
                pvs0 == old(self).propvals@,
                self.subject == old(self).subject,
                props_unique(pvs0),
                i <= pvs0.len(),
                forall|k: int| 0 <= k < i ==> pvs0[k].property@ != property@,
            decreases pvs0.len() - i,
        {
            if crate::text::str_eq(self.propvals[i].property.as_str(), property) {
                proof {
                    lemma_props_map_remove_at(pvs0, i as int);
                    lemma_props_map_dom(pvs0.remove(i as int), property@);
                }
                self.propvals.remove(i);
                return;
            }
            i = i + 1;
        }
        proof {
            lemma_props_map_dom(pvs0, property@);
            assert(props_map(pvs0) =~= props_map(pvs0).remove(property@));
        }
    }

    /// Sets a property to a value, replacing any previous value.
    pub fn set_propval(&mut self, property: String, value: String)
        requires
            old(self).wf(),
        ensures
            final(self)@ == old(self)@.insert(property@, value@),
            final(self).wf(),
            final(self).subject@ == old(self).subject@,
    {
        self.remove_propval(property.as_str());
        let ghost mid = self.propvals@;
        let pv = PropVal { property, value };
        self.propvals.push(pv);
        proof {
            assert(self.propvals@.drop_last() =~= mid);
            lemma_props_map_dom(mid, pv.property@);
            assert forall|a: int, b: int| 0 <= a < b < self.propvals@.len()
                implies self.propvals@[a].property@ != self.propvals@[b].property@ by {
                if b == self.propvals@.len() - 1 {
                    assert(mid[a].property@ != pv.property@);
                }
            }
            assert(props_map(self.propvals@)
                =~= old(self)@.insert(pv.property@, pv.value@));
        }
    }

    /// An identical copy.
    pub fn duplicate(&self) -> (r: Resource)
        ensures
            r.subject@ == self.subject@,
            r.propvals@ == self.propvals@,
            r@ == self@,
            r.wf() <==> self.wf(),
    {
        let mut pvs: Vec<PropVal> = Vec::new();
        let mut i: usize = 0;
        while i < self.propvals.len()
            invariant
                i <= self.propvals@.len(),
                pvs@.len() == i,
                forall|k: int| 0 <= k < i ==> pvs@[k] == self.propvals@[k],
            decreases self.propvals@.len() - i,
        {
            pvs.push(self.propvals[i].duplicate());
            i = i + 1;
        }
        proof {
            assert(pvs@ =~= self.propvals@);
        }
        Resource { subject: self.subject.clone(), propvals: pvs }
    }

    /// The atoms that this resource consists of, in pair order.
    pub fn to_atoms(&self) -> (r: Vec<Atom>)
        ensures
            r@.len() == self.propvals@.len(),
            forall|i: int| 0 <= i < r@.len()
                ==> r@[i].subject@ == self.subject@
                    && r@[i].property@ == self.propvals@[i].property@
                    && r@[i].value@ == self.propvals@[i].value@,
    {
        let mut out: Vec<Atom> = Vec::new();
        let mut i: usize = 0;
        while i < self.propvals.len()
            invariant
                i <= self.propvals@.len(),
                out@.len() == i,
                forall|k: int| 0 <= k < i
                    ==> out@[k].subject@ == self.subject@
                        && out@[k].property@ == self.propvals@[k].property@
                        && out@[k].value@ == self.propvals@[k].value@,
            decreases self.propvals@.len() - i,
        {
            out.push(Atom {
                subject: self.subject.clone(),
                property: self.propvals[i].property.clone(),
                value: self.propvals[i].value.clone(),
            });
            i = i + 1;
        }
        out
    }
}

} // verus!
