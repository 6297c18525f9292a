//! The in-memory store: a resource index keyed by subject URI, and the
//! append-only log of accepted commits.
//!
//! The index is held as a vector of resources with unique subjects; its
//! mathematical view is a map from subject to the resource's property map.

use vstd::prelude::*;

use crate::commit::Commit;
use crate::errors::AtomicError;
use crate::resource::Atom;
use crate::resource::PropVal;
use crate::resource::Resource;
use crate::resource::props_map;

verus! {

/// The map from subject URIs to property maps that a resource sequence denotes,
/// later resources winning on equal subjects.
pub open spec fn res_map(rs: Seq<Resource>) -> Map<Seq<char>, Map<Seq<char>, Seq<char>>>
    decreases rs.len(),
{
    if rs.len() == 0 {
        Map::empty()
    } else {
        res_map(rs.drop_last()).insert(rs.last().subject@, rs.last()@)
    }
}

/// The subjects of a resource sequence are pairwise distinct.
pub open spec fn subjects_unique(rs: Seq<Resource>) -> bool {
    forall|i: int, j: int|
        0 <= i < j < rs.len() ==> rs[i].subject@ != rs[j].subject@
}

/// A subject is in the denoted map exactly when some resource carries it.
pub proof fn lemma_res_map_dom(rs: Seq<Resource>, k: Seq<char>)
    ensures
        res_map(rs).contains_key(k) <==> exists|i: int|
            0 <= i < rs.len() && rs[i].subject@ == k,
    decreases rs.len(),
{
    if rs.len() > 0 {
        lemma_res_map_dom(rs.drop_last(), k);
        if res_map(rs).contains_key(k) {
            if rs.last().subject@ == k {
                assert(rs[rs.len() - 1].subject@ == k);
            } else {
                let i = choose|i: int| 0 <= i < rs.drop_last().len()
                    && rs.drop_last()[i].subject@ == k;
                assert(rs[i].subject@ == k);
            }
        }
        if exists|i: int| 0 <= i < rs.len() && rs[i].subject@ == k {
            let i = choose|i: int| 0 <= i < rs.len() && rs[i].subject@ == k;
            if i < rs.len() - 1 {
                assert(rs.drop_last()[i].subject@ == k);
            }
        }
    }
}

/// The denoted map holds the property map of the last resource with a subject.
pub proof fn lemma_res_map_at(rs: Seq<Resource>, j: int)
    requires
        0 <= j < rs.len(),
        forall|i: int| j < i < rs.len() ==> rs[i].subject@ != rs[j].subject@,
    ensures
        res_map(rs).contains_key(rs[j].subject@),
        res_map(rs)[rs[j].subject@] == rs[j]@,
    decreases rs.len(),
{
    if j == rs.len() - 1 {
    } else {
        assert(rs.drop_last()[j] == rs[j]);
        lemma_res_map_at(rs.drop_last(), j);
    }
}

/// Taking out the resource that carries a subject removes the subject from
/// the denoted map, and keeps the remaining subjects distinct.
pub proof fn lemma_res_map_remove_at(rs: Seq<Resource>, j: int)
    requires
        0 <= j < rs.len(),
        subjects_unique(rs),
    ensures
        subjects_unique(rs.remove(j)),
        res_map(rs.remove(j)) == res_map(rs).remove(rs[j].subject@),
    decreases rs.len(),
{
    let k = rs[j].subject@;
    let rem = rs.remove(j);
    assert forall|a: int, b: int| 0 <= a < b < rem.len()
        implies rem[a].subject@ != rem[b].subject@ by {
        assert(rem[a] == if a < j { rs[a] } else { rs[a + 1] });
        assert(rem[b] == if b < j { rs[b] } else { rs[b + 1] });
    }
    if j == rs.len() - 1 {
        assert(rem =~= rs.drop_last());
        lemma_res_map_dom(rs.drop_last(), k);
        assert(res_map(rem) =~= res_map(rs).remove(k));
    } else {
        assert(rem.drop_last() =~= rs.drop_last().remove(j));
        assert(rem.last() == rs.last());
        assert(subjects_unique(rs.drop_last()));
        assert(rs.drop_last()[j] == rs[j]);
        lemma_res_map_remove_at(rs.drop_last(), j);
        assert(rs.last().subject@ != k);
        assert(res_map(rem) =~= res_map(rs).remove(k));
    }
}

/// One atom applied to a store view: the value is set on the subject's
/// property map, the map being created when the subject is new.
pub open spec fn apply_atom_spec(
    m: Map<Seq<char>, Map<Seq<char>, Seq<char>>>,
    subject: Seq<char>,
    property: Seq<char>,
    value: Seq<char>,
) -> Map<Seq<char>, Map<Seq<char>, Seq<char>>> {
    let props = if m.contains_key(subject) {
        m[subject]
    } else {
        Map::empty()
    };
    m.insert(subject, props.insert(property, value))
}

/// A sequence of atoms applied in order, last write per (subject, property)
/// winning.
pub open spec fn apply_atoms_spec(
    m: Map<Seq<char>, Map<Seq<char>, Seq<char>>>,
    atoms: Seq<Atom>,
) -> Map<Seq<char>, Map<Seq<char>, Seq<char>>>
    decreases atoms.len(),
{
    if atoms.len() == 0 {
        m
    } else {
        let a = atoms.last();
        apply_atom_spec(apply_atoms_spec(m, atoms.drop_last()), a.subject@, a.property@, a.value@)
    }
}

/// A sequence of parsed facts applied in order.
pub open spec fn apply_triples_spec(
    m: Map<Seq<char>, Map<Seq<char>, Seq<char>>>,
    ts: Seq<(Seq<char>, Seq<char>, Seq<char>)>,
) -> Map<Seq<char>, Map<Seq<char>, Seq<char>>>
    decreases ts.len(),
{
    if ts.len() == 0 {
        m
    } else {
        let t = ts.last();
        apply_atom_spec(apply_triples_spec(m, ts.drop_last()), t.0, t.1, t.2)
    }
}

/// The facts that a sequence of atoms denotes.
pub open spec fn atoms_triples(atoms: Seq<Atom>) -> Seq<(Seq<char>, Seq<char>, Seq<char>)> {
    Seq::new(atoms.len(), |i: int| (atoms[i].subject@, atoms[i].property@, atoms[i].value@))
}

/// Applying atoms is applying the facts they denote.
pub proof fn lemma_apply_atoms_eq_triples(
    m: Map<Seq<char>, Map<Seq<char>, Seq<char>>>,
    atoms: Seq<Atom>,
)
    ensures
        apply_atoms_spec(m, atoms) == apply_triples_spec(m, atoms_triples(atoms)),
    decreases atoms.len(),
{
    if atoms.len() > 0 {
        lemma_apply_atoms_eq_triples(m, atoms.drop_last());
        assert(atoms_triples(atoms).drop_last() =~= atoms_triples(atoms.drop_last()));
        assert(atoms_triples(atoms).last()
            == (atoms.last().subject@, atoms.last().property@, atoms.last().value@));
    }
}

/// The in-memory store of resources, Properties and Classes, with its
/// append-only commit log.
pub struct Store {
    pub resources: Vec<Resource>,
    pub log: Vec<Commit>,
}

impl Store {
    /// The map from subject URIs to property maps that this store holds.
    pub open spec fn view(&self) -> Map<Seq<char>, Map<Seq<char>, Seq<char>>> {
        res_map(self.resources@)
    }

    /// Well-formed: subjects are pairwise distinct and every resource is
    /// well-formed.
    pub open spec fn wf(&self) -> bool {
        &&& subjects_unique(self.resources@)
        &&& forall|i: int| 0 <= i < self.resources@.len() ==> (#[trigger] self.resources@[i]).wf()
    }

    /// Create an empty store. This is where you start.
    pub fn init() -> (r: Store)
        ensures
            r@ == Map::<Seq<char>, Map<Seq<char>, Seq<char>>>::empty(),
            r.log@ =~= Seq::<Commit>::empty(),
            r.wf(),
    {
        Store { resources: Vec::new(), log: Vec::new() }
    }

    /// The index of the resource carrying a subject, if any.
    fn find_resource(&self, subject: &str) -> (r: Option<usize>)
        requires
            self.wf(),
        ensures
            match r {
                Some(j) => j < self.resources@.len()
                    && self.resources@[j as int].subject@ == subject@
                    && self@.contains_key(subject@)
                    && self@[subject@] == self.resources@[j as int]@,
                None => !self@.contains_key(subject@),
            },
    {
        let mut i: usize = 0;
        while i < self.resources.len()
            invariant
                self.wf(),
                i <= self.resources@.len(),
                forall|k: int| 0 <= k < i ==> self.resources@[k].subject@ != subject@,
            decreases self.resources@.len() - i,
        {
            if crate::text::str_eq(self.resources[i].subject.as_str(), subject) {
                proof {
                    lemma_res_map_at(self.resources@, i as int);
                }
                return Some(i);
            }
            i = i + 1;
        }
        proof {
            lemma_res_map_dom(self.resources@, subject@);
        }
        None
    }

    /// A copy of the resource for a subject, if the store holds one.
    pub fn get_resource_string(&self, subject: &str) -> (r: Option<Resource>)
        requires
            self.wf(),
        ensures
            match r {
                Some(res) => self@.contains_key(subject@)
                    && res@ == self@[subject@]
                    && res.subject@ == subject@
                    && res.wf(),
                None => !self@.contains_key(subject@),
            },
    {
        match self.find_resource(subject) {
            Some(j) => {
                let r = self.resources[j].duplicate();
                proof {
                    assert(self.resources@[j as int].wf());
                }
                Some(r)
            },
            None => None,
        }
    }

    /// The resource for a subject, or `NotFound`.
    pub fn get_resource(&self, subject: &str) -> (r: Result<Resource, AtomicError>)
        requires
            self.wf(),
        ensures
            match r {
                Ok(res) => self@.contains_key(subject@)
                    && res@ == self@[subject@]
                    && res.subject@ == subject@
                    && res.wf(),
                Err(e) => !self@.contains_key(subject@)
                    && (e matches AtomicError::NotFound { subject: s } && s@ == subject@),
            },
    {
        match self.get_resource_string(subject) {
            Some(res) => Ok(res),
            None => {
                let mut s = String::new();
                s.append(subject);
                Err(AtomicError::NotFound { subject: s })
            },
        }
    }

    /// Puts a resource into the index under its subject, replacing any
    /// previous resource for that subject.
    pub fn add_resource(&mut self, resource: Resource)
        requires
            old(self).wf(),
            resource.wf(),
        ensures
            final(self)@ == old(self)@.insert(resource.subject@, resource@),
            final(self).wf(),
            final(self).log@ == old(self).log@,
    {
        self.remove_resource(resource.subject.as_str());
        let ghost mid = self.resources@;
        proof {
            lemma_res_map_dom(mid, resource.subject@);
        }
        self.resources.push(resource);
        proof {
            assert(self.resources@.drop_last() =~= mid);
            assert forall|a: int, b: int| 0 <= a < b < self.resources@.len()
                implies self.resources@[a].subject@ != self.resources@[b].subject@ by {
                if b == self.resources@.len() - 1 {
                    assert(mid[a].subject@ != resource.subject@);
                }
            }
            assert(res_map(self.resources@)
                =~= old(self)@.insert(resource.subject@, resource@));
        }
    }

    /// Removes the resource for a subject from the index, if present.
    /// The commit log is untouched.
    pub fn remove_resource(&mut self, subject: &str)
        requires
            old(self).wf(),
        ensures
            final(self)@ == old(self)@.remove(subject@),
            final(self).wf(),
            final(self).log@ == old(self).log@,
            !final(self)@.contains_key(subject@),
    {
        let ghost rs0 = self.resources@;
        let mut i: usize = 0;
        while i < self.resources.len()
            invariant
                self.resources@ == rs0,
                rs0 == old(self).resources@,
                self.log@ == old(self).log@,
                old(self).wf(),
                i <= rs0.len(),
                forall|k: int| 0 <= k < i ==> rs0[k].subject@ != subject@,
            decreases rs0.len() - i,
        {
            if crate::text::str_eq(self.resources[i].subject.as_str(), subject) {
                proof {
                    lemma_res_map_remove_at(rs0, i as int);
                    lemma_res_map_dom(rs0.remove(i as int), subject@);
                    assert forall|k: int| 0 <= k < rs0.remove(i as int).len()
                        implies (#[trigger] rs0.remove(i as int)[k]).wf() by {
                        assert(rs0.remove(i as int)[k]
                            == if k < i { rs0[k] } else { rs0[k + 1] });
                    }
                }
                self.resources.remove(i);
                return;
            }
            i = i + 1;
        }
        proof {
            lemma_res_map_dom(rs0, subject@);
            assert(res_map(rs0) =~= res_map(rs0).remove(subject@));
        }
    }

    /// Inserts a property map under the given subject, replacing any
    /// previous resource for that subject.
    pub fn add_resource_string(&mut self, subject: String, resource: &Resource)
        -> (r: Result<(), AtomicError>)
        requires
            old(self).wf(),
            resource.wf(),
        ensures
            r is Ok,
            final(self)@ == old(self)@.insert(subject@, resource@),
            final(self).wf(),
            final(self).log@ == old(self).log@,
    {
        let mut copy = resource.duplicate();
        copy.subject = subject;
        self.add_resource(copy);
        Ok(())
    }

    /// Bulk-applies atoms directly to the index, in order, bypassing the
    /// commit pipeline; used only for trusted bulk loads. Last write per
    /// (subject, property) wins.
    pub fn add_atoms(&mut self, atoms: Vec<Atom>) -> (r: Result<(), AtomicError>)
        requires
            old(self).wf(),
        ensures
            r is Ok,
            final(self)@ == apply_atoms_spec(old(self)@, atoms@),
            final(self).wf(),
            final(self).log@ == old(self).log@,
    {
        let mut i: usize = 0;
        while i < atoms.len()
            invariant
                i <= atoms@.len(),
                self.wf(),
                self.log@ == old(self).log@,
                self@ == apply_atoms_spec(old(self)@, atoms@.take(i as int)),
            decreases atoms@.len() - i,
        {
            let a = &atoms[i];
            let mut res = match self.get_resource_string(a.subject.as_str()) {
                Some(r) => r,
                None => Resource::new(a.subject.clone()),
            };
            res.set_propval(a.property.clone(), a.value.clone());
            self.add_resource(res);
            proof {
                assert(atoms@.take(i + 1).drop_last() =~= atoms@.take(i as int));
                assert(atoms@.take(i + 1).last() == atoms@[i as int]);
            }
            i = i + 1;
        }
        proof {
            assert(atoms@.take(atoms@.len() as int) =~= atoms@);
        }
        Ok(())
    }

    /// A snapshot of every resource in the store, one copy per subject.
    pub fn all_resources(&self) -> (r: Vec<Resource>)
        requires
            self.wf(),
        ensures
            r@.len() == self.resources@.len(),
            forall|i: int| 0 <= i < r@.len()
                ==> (#[trigger] r@[i]).subject@ == self.resources@[i].subject@
                    && r@[i]@ == self.resources@[i]@
                    && r@[i].wf()
                    && self@.contains_key(r@[i].subject@)
                    && self@[r@[i].subject@] == r@[i]@,
            forall|k: Seq<char>| self@.contains_key(k)
                ==> exists|i: int| 0 <= i < r@.len() && (#[trigger] r@[i]).subject@ == k,
    {
        let mut out: Vec<Resource> = Vec::new();
        let mut i: usize = 0;
        while i < self.resources.len()
            invariant
                self.wf(),
                i <= self.resources@.len(),
                out@.len() == i,
                forall|k: int| 0 <= k < i
                    ==> (#[trigger] out@[k]).subject@ == self.resources@[k].subject@
                        && out@[k]@ == self.resources@[k]@
                        && out@[k].wf(),
            decreases self.resources@.len() - i,
        {
            out.push(self.resources[i].duplicate());
            proof {
                assert(self.resources@[i as int].wf());
            }
            i = i + 1;
        }
        proof {
            assert forall|i: int| 0 <= i < out@.len()
                implies self@.contains_key(out@[i].subject@)
                    && self@[out@[i].subject@] == out@[i]@ by {
                lemma_res_map_at(self.resources@, i);
            }
            assert forall|k: Seq<char>| self@.contains_key(k)
                implies exists|i: int| 0 <= i < out@.len()
                    && (#[trigger] out@[i]).subject@ == k by {
                lemma_res_map_dom(self.resources@, k);
                let i = choose|i: int| 0 <= i < self.resources@.len()
                    && self.resources@[i].subject@ == k;
                assert(out@[i].subject@ == k);
            }
        }
        out
    }
}

/// Reads a whole AD3 text into atoms, or fails with the 1-based number of
/// the first malformed line. Nothing is applied here.
pub fn parse_ad3_atoms(input: &str) -> (r: Result<Vec<Atom>, AtomicError>)
    requires
        input@.len() < usize::MAX,
    ensures
        match r {
            Ok(atoms) => crate::codec::parse_ad3_spec(input@) is Ok
                && atoms_triples(atoms@) == crate::codec::parse_ad3_spec(input@)->Ok_0,
            Err(e) => crate::codec::parse_ad3_spec(input@) is Err
                && (e matches AtomicError::Parse { line }
                    && line as int == crate::codec::parse_ad3_spec(input@)->Err_0),
        },
{
    let n = input.unicode_len();
    let mut atoms: Vec<Atom> = Vec::new();
    let mut pos: usize = 0;
    let mut lineno: usize = 1;
    proof {
        assert(input@.skip(0) =~= input@);
        assert(atoms_triples(atoms@) =~= Seq::<(Seq<char>, Seq<char>, Seq<char>)>::empty());
        match crate::codec::parse_lines_spec(crate::codec::split_lines(input@), 1int) {
            Err(_) => {},
            Ok(rest) => {
                assert(atoms_triples(atoms@) + rest =~= rest);
            },
        }
    }
    while pos < n
        invariant
            n == input@.len(),
            n < usize::MAX,
            pos <= n,
            1 <= lineno,
            lineno <= pos + 1,
            match crate::codec::parse_lines_spec(
                crate::codec::split_lines(input@.skip(pos as int)), lineno as int) {
                Err(e) => crate::codec::parse_ad3_spec(input@) == Err::<Seq<(Seq<char>, Seq<char>, Seq<char>)>, int>(e),
                Ok(rest) => crate::codec::parse_ad3_spec(input@)
                    == Ok::<Seq<(Seq<char>, Seq<char>, Seq<char>)>, int>(atoms_triples(atoms@) + rest),
            },
        decreases n - pos,
    {
        let ghost remain = input@.skip(pos as int);
        // find the end of the current line
        let mut k: usize = pos;
        while k < n && input.get_char(k) != '\n'
            invariant
                n == input@.len(),
                pos <= k <= n,
                forall|j: int| pos <= j < k ==> input@[j] != '\n',
            decreases n - k,
        {
            k = k + 1;
        }
        proof {
            assert(k < n ==> input@[k as int] == '\n');
            assert forall|j: int| 0 <= j < k - pos implies remain[j] != '\n' by {
                assert(remain[j] == input@[pos + j]);
            }
            if k < n {
                assert(remain[k - pos] == input@[k as int]);
            }
            crate::codec::lemma_first_nl_unique(remain, k - pos);
        }
        let line = input.substring_char(pos, k);
        let ghost lineseq = remain.take(k - pos);
        proof {
            assert(line@ =~= lineseq);
            assert(remain.len() > 0);
            if k == n {
                assert(remain.take(k - pos) =~= remain);
                assert(crate::codec::split_lines(remain) == seq![remain]);
            } else {
                assert(crate::codec::split_lines(remain)
                    == seq![lineseq] + crate::codec::split_lines(input@.skip(pos as int).skip(k - pos + 1)));
                assert(input@.skip(pos as int).skip(k - pos + 1) =~= input@.skip(k + 1));
            }
        }
        let ghost lines = crate::codec::split_lines(remain);
        proof {
            assert(lines.len() >= 1);
            assert(lines[0] == lineseq);
            if k == n {
                assert(lines.skip(1) =~= crate::codec::split_lines(input@.skip(n as int)));
                assert(input@.skip(n as int).len() == 0);
            } else {
                assert(lines.skip(1) =~= crate::codec::split_lines(input@.skip(k + 1)));
            }
        }
        if line.unicode_len() > 0 {
            match crate::codec::parse_line_exec(line) {
                None => {
                    proof {
                        assert(crate::codec::parse_lines_spec(lines, lineno as int)
                            == Err::<Seq<(Seq<char>, Seq<char>, Seq<char>)>, int>(lineno as int));
                    }
                    return Err(AtomicError::Parse { line: lineno });
                },
                Some(v) => {
                    if v.len() != 3 {
                        proof {
                            assert(crate::codec::parse_lines_spec(lines, lineno as int)
                                == Err::<Seq<(Seq<char>, Seq<char>, Seq<char>)>, int>(lineno as int));
                        }
                        return Err(AtomicError::Parse { line: lineno });
                    }
                    let ghost before = atoms_triples(atoms@);
                    let ghost vmap = v@.map_values(|e: String| e@);
                    atoms.push(Atom {
                        subject: v[0].clone(),
                        property: v[1].clone(),
                        value: v[2].clone(),
                    });
                    proof {
                        assert(vmap.len() == 3);
                        assert(atoms_triples(atoms@)
                            =~= before.push((vmap[0], vmap[1], vmap[2])));
                        match crate::codec::parse_lines_spec(lines.skip(1), lineno + 1) {
                            Err(_) => {},
                            Ok(rest) => {
                                assert(before + (seq![(vmap[0], vmap[1], vmap[2])] + rest)
                                    =~= atoms_triples(atoms@) + rest);
                            },
                        }
                    }
                },
            }
        } else {
            proof {
                assert(lineseq.len() == 0);
                match crate::codec::parse_lines_spec(lines.skip(1), lineno + 1) {
                    Err(_) => {},
                    Ok(rest) => {
                        assert(atoms_triples(atoms@) + (Seq::<(Seq<char>, Seq<char>, Seq<char>)>::empty() + rest)
                            =~= atoms_triples(atoms@) + rest);
                    },
                }
            }
        }
        if k < n {
            pos = k + 1;
        } else {
            pos = n;
            proof {
                assert(crate::codec::split_lines(input@.skip(pos as int)).len() == 0);
            }
        }
        lineno = lineno + 1;
    }
    proof {
        assert(input@.skip(pos as int).len() == 0);
        assert(crate::codec::split_lines(input@.skip(pos as int)) =~= Seq::<Seq<char>>::empty());
        match crate::codec::parse_lines_spec(
            crate::codec::split_lines(input@.skip(pos as int)), lineno as int) {
            Err(_) => {},
            Ok(rest) => {
                assert(atoms_triples(atoms@) + rest =~= atoms_triples(atoms@));
            },
        }
    }
    Ok(atoms)
}

impl Store {
    /// Reads an AD3 text and bulk-applies its facts to the index, in
    /// order; a malformed line fails the whole call with its number and
    /// leaves the store untouched.
    pub fn parse_ad3(&mut self, input: &str) -> (r: Result<(), AtomicError>)
        requires
            old(self).wf(),
            input@.len() < usize::MAX,
        ensures
            final(self).wf(),
            final(self).log@ == old(self).log@,
            match r {
                Ok(()) => crate::codec::parse_ad3_spec(input@) is Ok
                    && final(self)@ == apply_triples_spec(
                        old(self)@, crate::codec::parse_ad3_spec(input@)->Ok_0),
                Err(e) => final(self)@ == old(self)@
                    && crate::codec::parse_ad3_spec(input@) is Err
                    && (e matches AtomicError::Parse { line }
                        && line as int == crate::codec::parse_ad3_spec(input@)->Err_0),
            },
    {
        match parse_ad3_atoms(input) {
            Ok(atoms) => {
                proof {
                    lemma_apply_atoms_eq_triples(old(self)@, atoms@);
                }
                let _ = self.add_atoms(atoms);
                Ok(())
            },
            Err(e) => Err(e),
        }
    }
}

/// How a subject is written when a base URL is supplied: a local
/// placeholder `_:name` becomes `base/name`; everything else is kept.
pub open spec fn rewrite_subject(subject: Seq<char>, base: Option<Seq<char>>) -> Seq<char> {
    match base {
        None => subject,
        Some(b) => if subject.len() >= 2 && subject[0] == '_' && subject[1] == ':' {
            b + seq!['/'] + subject.skip(2)
        } else {
            subject
        },
    }
}

/// The view of an optional borrowed string.
pub open spec fn opt_str_view(o: Option<&str>) -> Option<Seq<char>> {
    match o {
        None => None,
        Some(b) => Some(b@),
    }
}

/// Writes a subject, expanding a local placeholder against a base URL
/// when one is supplied.
pub fn rewrite_subject_exec(subject: &str, base: Option<&str>) -> (r: String)
    ensures
        r@ == rewrite_subject(subject@, opt_str_view(base)),
{
    match base {
        None => {
            let mut out = String::new();
            out.append(subject);
            out
        },
        Some(b) => {
            let n = subject.unicode_len();
            if n >= 2 && subject.get_char(0) == '_' && subject.get_char(1) == ':' {
                let mut out = String::new();
                out.append(b);
                crate::text::push_char(&mut out, '/');
                let local = subject.substring_char(2, n);
                out.append(local);
                proof {
                    assert(out@ =~= b@ + seq!['/'] + subject@.skip(2));
                }
                out
            } else {
                let mut out = String::new();
                out.append(subject);
                out
            }
        },
    }
}

/// Writing one more pair appends one more fact line.
pub proof fn lemma_resource_ad3_snoc(subject: Seq<char>, pvs: Seq<PropVal>, pv: PropVal)
    ensures
        crate::codec::resource_ad3(subject, pvs.push(pv))
            == crate::codec::resource_ad3(subject, pvs)
                + crate::codec::triple_line(subject, pv.property@, pv.value@) + seq!['\n'],
    decreases pvs.len(),
{
    let line = crate::codec::triple_line(subject, pv.property@, pv.value@);
    if pvs.len() == 0 {
        assert(pvs.push(pv)[0] == pv);
        assert(pvs.push(pv).skip(1) =~= Seq::<PropVal>::empty());
        assert(crate::codec::resource_ad3(subject, pvs.push(pv))
            == line + seq!['\n'] + crate::codec::resource_ad3(subject, pvs.push(pv).skip(1)));
        assert(crate::codec::resource_ad3(subject, pvs.push(pv))
            =~= crate::codec::resource_ad3(subject, pvs) + line + seq!['\n']);
    } else {
        assert(pvs.push(pv)[0] == pvs[0]);
        assert(pvs.push(pv).skip(1) =~= pvs.skip(1).push(pv));
        lemma_resource_ad3_snoc(subject, pvs.skip(1), pv);
        assert(crate::codec::resource_ad3(subject, pvs.push(pv))
            == crate::codec::triple_line(subject, pvs[0].property@, pvs[0].value@) + seq!['\n']
                + crate::codec::resource_ad3(subject, pvs.skip(1).push(pv)));
        assert(crate::codec::resource_ad3(subject, pvs.push(pv))
            =~= crate::codec::resource_ad3(subject, pvs) + line + seq!['\n']);
    }
}

impl Resource {
    /// The AD3 text of this resource: one fact line per pair, in pair
    /// order, the subject rewritten against the base URL if one is given.
    pub fn to_ad3(&self, base: Option<&str>) -> (r: String)
        ensures
            r@ == crate::codec::resource_ad3(
                rewrite_subject(self.subject@, opt_str_view(base)), self.propvals@),
    {
        let subject = rewrite_subject_exec(self.subject.as_str(), base);
        let ghost sv = subject@;
        let mut out = String::new();
        let mut i: usize = 0;
        proof {
            assert(self.propvals@.take(0) =~= Seq::<PropVal>::empty());
            assert(out@ =~= crate::codec::resource_ad3(sv, self.propvals@.take(0)));
        }
        while i < self.propvals.len()
            invariant
                i <= self.propvals@.len(),
                sv == rewrite_subject(self.subject@, opt_str_view(base)),
                subject@ == sv,
                out@ == crate::codec::resource_ad3(sv, self.propvals@.take(i as int)),
            decreases self.propvals@.len() - i,
        {
            let mut elems: Vec<String> = Vec::new();
            elems.push(subject.clone());
            elems.push(self.propvals[i].property.clone());
            elems.push(self.propvals[i].value.clone());
            let line = crate::codec::serialize_string_array(&elems);
            proof {
                assert(elems@.map_values(|e: String| e@)
                    =~= seq![sv, self.propvals@[i as int].property@, self.propvals@[i as int].value@]);
            }
            out.append(line.as_str());
            crate::text::push_char(&mut out, '\n');
            proof {
                assert(self.propvals@.take(i + 1)
                    =~= self.propvals@.take(i as int).push(self.propvals@[i as int]));
                lemma_resource_ad3_snoc(sv, self.propvals@.take(i as int), self.propvals@[i as int]);
                assert(out@ =~= crate::codec::resource_ad3(sv, self.propvals@.take(i + 1)));
            }
            i = i + 1;
        }
        proof {
            assert(self.propvals@.take(self.propvals@.len() as int) =~= self.propvals@);
        }
        out
    }
}

impl Store {
    /// The AD3 text of one resource of the store, or `NotFound` when the
    /// subject is unknown.
    pub fn resource_to_ad3(&self, subject: &str, base: Option<&str>) -> (r: Result<String, AtomicError>)
        requires
            self.wf(),
        ensures
            match r {
                Ok(out) => self@.contains_key(subject@)
                    && exists|pvs: Seq<PropVal>| props_map(pvs) == self@[subject@]
                        && out@ == crate::codec::resource_ad3(
                            rewrite_subject(subject@, opt_str_view(base)), pvs),
                Err(e) => !self@.contains_key(subject@)
                    && (e matches AtomicError::NotFound { subject: s } && s@ == subject@),
            },
    {
        match self.get_resource_string(subject) {
            Some(res) => {
                let out = res.to_ad3(base);
                proof {
                    assert(props_map(res.propvals@) == self@[subject@]);
                    assert(res.subject@ == subject@);
                }
                Ok(out)
            },
            None => {
                let mut s = String::new();
                s.append(subject);
                Err(AtomicError::NotFound { subject: s })
            },
        }
    }

    /// The AD3 text of the whole store: the text of every resource, in
    /// index order, subjects kept as they are.
    pub fn to_ad3_string(&self) -> (r: String)
        requires
            self.wf(),
        ensures
            r@ == store_ad3(self.resources@),
    {
        let mut out = String::new();
        let mut i: usize = 0;
        while i < self.resources.len()
            invariant
                self.wf(),
                i <= self.resources@.len(),
                out@ == store_ad3(self.resources@.take(i as int)),
            decreases self.resources@.len() - i,
        {
            let part = self.resources[i].to_ad3(None);
            out.append(part.as_str());
            proof {
                assert(self.resources@.take(i + 1).drop_last() =~= self.resources@.take(i as int));
                assert(self.resources@.take(i + 1).last() == self.resources@[i as int]);
            }
            i = i + 1;
        }
        proof {
            assert(self.resources@.take(self.resources@.len() as int) =~= self.resources@);
        }
        out
    }
}

/// The AD3 text of a sequence of resources, in order.
pub open spec fn store_ad3(rs: Seq<Resource>) -> Seq<char>
    decreases rs.len(),
{
    if rs.len() == 0 {
        Seq::empty()
    } else {
        store_ad3(rs.drop_last())
            + crate::codec::resource_ad3(rs.last().subject@, rs.last().propvals@)
    }
}

/// Folding a resource's own facts onto an empty store yields exactly that
/// resource under its subject.
proof fn lemma_apply_resource_triples(subject: Seq<char>, pvs: Seq<PropVal>)
    requires
        pvs.len() >= 1,
    ensures
        apply_triples_spec(Map::empty(), crate::codec::resource_triples(subject, pvs))
            == Map::<Seq<char>, Map<Seq<char>, Seq<char>>>::empty().insert(subject, props_map(pvs)),
    decreases pvs.len(),
{
    let ts = crate::codec::resource_triples(subject, pvs);
    lemma_resource_triples_index(subject, pvs);
    if pvs.len() == 1 {
        assert(ts.len() == 1);
        assert(ts.drop_last() =~= Seq::<(Seq<char>, Seq<char>, Seq<char>)>::empty());
        assert(ts.last() == (subject, pvs[0].property@, pvs[0].value@));
        assert(props_map(pvs.drop_last()) =~= Map::<Seq<char>, Seq<char>>::empty());
        reveal_with_fuel(apply_triples_spec, 2);
        assert(apply_triples_spec(Map::empty(), ts.drop_last())
            == Map::<Seq<char>, Map<Seq<char>, Seq<char>>>::empty());
        assert(apply_triples_spec(Map::empty(), ts)
            == apply_atom_spec(Map::empty(), subject, pvs[0].property@, pvs[0].value@));
        assert(props_map(pvs) == props_map(pvs.drop_last())
            .insert(pvs[0].property@, pvs[0].value@));
        assert(apply_triples_spec(Map::empty(), ts)
            =~~= Map::<Seq<char>, Map<Seq<char>, Seq<char>>>::empty().insert(subject, props_map(pvs)));
    } else {
        lemma_apply_resource_triples(subject, pvs.drop_last());
        lemma_resource_triples_index(subject, pvs.drop_last());
        assert(ts.drop_last() =~= crate::codec::resource_triples(subject, pvs.drop_last()));
        assert(ts.last() == (subject, pvs.last().property@, pvs.last().value@));
        let inner = apply_triples_spec(Map::empty(), ts.drop_last());
        assert(inner == Map::<Seq<char>, Map<Seq<char>, Seq<char>>>::empty()
            .insert(subject, props_map(pvs.drop_last())));
        assert(inner.contains_key(subject));
        assert(inner[subject] == props_map(pvs.drop_last()));
        assert(apply_triples_spec(Map::empty(), ts)
            == inner.insert(subject, props_map(pvs.drop_last())
                .insert(pvs.last().property@, pvs.last().value@)));
        assert(props_map(pvs) == props_map(pvs.drop_last())
            .insert(pvs.last().property@, pvs.last().value@));
        assert(apply_triples_spec(Map::empty(), ts)
            =~~= Map::<Seq<char>, Map<Seq<char>, Seq<char>>>::empty().insert(subject, props_map(pvs)));
    }
}

/// The facts of a resource, fact by fact.
proof fn lemma_resource_triples_index(subject: Seq<char>, pvs: Seq<PropVal>)
    ensures
        crate::codec::resource_triples(subject, pvs).len() == pvs.len(),
        forall|i: int| 0 <= i < pvs.len()
            ==> crate::codec::resource_triples(subject, pvs)[i]
                == (subject, pvs[i].property@, pvs[i].value@),
    decreases pvs.len(),
{
    if pvs.len() > 0 {
        lemma_resource_triples_index(subject, pvs.skip(1));
        let ts = crate::codec::resource_triples(subject, pvs);
        assert forall|i: int| 0 <= i < pvs.len()
            implies ts[i] == (subject, pvs[i].property@, pvs[i].value@) by {
            if i > 0 {
                assert(ts[i] == crate::codec::resource_triples(subject, pvs.skip(1))[i - 1]);
                assert(pvs.skip(1)[i - 1] == pvs[i]);
            }
        }
    }
}

/// Round-trip: the AD3 text written for a resource with at least one
/// property parses back, and applying the parsed facts to an empty store
/// yields exactly that resource's property map under its subject.
pub proof fn lemma_ad3_round_trip(subject: Seq<char>, pvs: Seq<PropVal>)
    requires
        pvs.len() >= 1,
    ensures
        crate::codec::parse_ad3_spec(crate::codec::resource_ad3(subject, pvs)) is Ok,
        apply_triples_spec(
            Map::empty(),
            crate::codec::parse_ad3_spec(crate::codec::resource_ad3(subject, pvs))->Ok_0,
        ) == Map::<Seq<char>, Map<Seq<char>, Seq<char>>>::empty().insert(subject, props_map(pvs)),
{
    crate::codec::lemma_resource_ad3_parses(subject, pvs, 1);
    lemma_apply_resource_triples(subject, pvs);
}

} // verus!
