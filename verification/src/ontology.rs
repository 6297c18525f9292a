//! The default ontology: the built-in Property and Class definitions
//! that the validator and the hierarchy resolver depend on, loadable as
//! an explicit, idempotent bulk step at store initialization.

use vstd::prelude::*;

use crate::resource::Atom;
use crate::store::Store;
use crate::store::apply_triples_spec;
use crate::store::atoms_triples;
use crate::store::lemma_apply_atoms_eq_triples;

verus! {

/// The facts of the default ontology, in load order.
pub open spec fn default_triples() -> Seq<(Seq<char>, Seq<char>, Seq<char>)> {
    seq![
        ("https://atomicdata.dev/properties/shortname"@, "https://atomicdata.dev/properties/isA"@, "[\"https://atomicdata.dev/classes/Property\"]"@),
        ("https://atomicdata.dev/properties/shortname"@, "https://atomicdata.dev/properties/shortname"@, "shortname"@),
        ("https://atomicdata.dev/properties/shortname"@, "https://atomicdata.dev/properties/datatype"@, "https://atomicdata.dev/datatypes/slug"@),
        ("https://atomicdata.dev/properties/description"@, "https://atomicdata.dev/properties/isA"@, "[\"https://atomicdata.dev/classes/Property\"]"@),
        ("https://atomicdata.dev/properties/description"@, "https://atomicdata.dev/properties/shortname"@, "description"@),
        ("https://atomicdata.dev/properties/description"@, "https://atomicdata.dev/properties/datatype"@, "https://atomicdata.dev/datatypes/markdown"@),
        ("https://atomicdata.dev/properties/datatype"@, "https://atomicdata.dev/properties/isA"@, "[\"https://atomicdata.dev/classes/Property\"]"@),
        ("https://atomicdata.dev/properties/datatype"@, "https://atomicdata.dev/properties/shortname"@, "datatype"@),
        ("https://atomicdata.dev/properties/datatype"@, "https://atomicdata.dev/properties/datatype"@, "https://atomicdata.dev/datatypes/atomicURL"@),
        ("https://atomicdata.dev/properties/requires"@, "https://atomicdata.dev/properties/isA"@, "[\"https://atomicdata.dev/classes/Property\"]"@),
        ("https://atomicdata.dev/properties/requires"@, "https://atomicdata.dev/properties/shortname"@, "requires"@),
        ("https://atomicdata.dev/properties/requires"@, "https://atomicdata.dev/properties/datatype"@, "https://atomicdata.dev/datatypes/resourceArray"@),
        ("https://atomicdata.dev/properties/recommends"@, "https://atomicdata.dev/properties/isA"@, "[\"https://atomicdata.dev/classes/Property\"]"@),
        ("https://atomicdata.dev/properties/recommends"@, "https://atomicdata.dev/properties/shortname"@, "recommends"@),
        ("https://atomicdata.dev/properties/recommends"@, "https://atomicdata.dev/properties/datatype"@, "https://atomicdata.dev/datatypes/resourceArray"@),
        ("https://atomicdata.dev/properties/isA"@, "https://atomicdata.dev/properties/isA"@, "[\"https://atomicdata.dev/classes/Property\"]"@),
        ("https://atomicdata.dev/properties/isA"@, "https://atomicdata.dev/properties/shortname"@, "is-a"@),
        ("https://atomicdata.dev/properties/isA"@, "https://atomicdata.dev/properties/datatype"@, "https://atomicdata.dev/datatypes/resourceArray"@),
        ("https://atomicdata.dev/properties/parent"@, "https://atomicdata.dev/properties/isA"@, "[\"https://atomicdata.dev/classes/Property\"]"@),
        ("https://atomicdata.dev/properties/parent"@, "https://atomicdata.dev/properties/shortname"@, "parent"@),
        ("https://atomicdata.dev/properties/parent"@, "https://atomicdata.dev/properties/datatype"@, "https://atomicdata.dev/datatypes/atomicURL"@),
        ("https://atomicdata.dev/properties/write"@, "https://atomicdata.dev/properties/isA"@, "[\"https://atomicdata.dev/classes/Property\"]"@),
        ("https://atomicdata.dev/properties/write"@, "https://atomicdata.dev/properties/shortname"@, "write"@),
        ("https://atomicdata.dev/properties/write"@, "https://atomicdata.dev/properties/datatype"@, "https://atomicdata.dev/datatypes/resourceArray"@),
        ("https://atomicdata.dev/properties/read"@, "https://atomicdata.dev/properties/isA"@, "[\"https://atomicdata.dev/classes/Property\"]"@),
        ("https://atomicdata.dev/properties/read"@, "https://atomicdata.dev/properties/shortname"@, "read"@),
        ("https://atomicdata.dev/properties/read"@, "https://atomicdata.dev/properties/datatype"@, "https://atomicdata.dev/datatypes/resourceArray"@),
        ("https://atomicdata.dev/properties/publicKey"@, "https://atomicdata.dev/properties/isA"@, "[\"https://atomicdata.dev/classes/Property\"]"@),
        ("https://atomicdata.dev/properties/publicKey"@, "https://atomicdata.dev/properties/shortname"@, "public-key"@),
        ("https://atomicdata.dev/properties/publicKey"@, "https://atomicdata.dev/properties/datatype"@, "https://atomicdata.dev/datatypes/string"@),
        ("https://atomicdata.dev/classes/Class"@, "https://atomicdata.dev/properties/isA"@, "[\"https://atomicdata.dev/classes/Class\"]"@),
        ("https://atomicdata.dev/classes/Class"@, "https://atomicdata.dev/properties/shortname"@, "class"@),
        ("https://atomicdata.dev/classes/Class"@, "https://atomicdata.dev/properties/description"@, "A class groups resources and declares the properties they must carry."@),
        ("https://atomicdata.dev/classes/Class"@, "https://atomicdata.dev/properties/requires"@, "[\"https://atomicdata.dev/properties/shortname\",\"https://atomicdata.dev/properties/description\"]"@),
        ("https://atomicdata.dev/classes/Property"@, "https://atomicdata.dev/properties/isA"@, "[\"https://atomicdata.dev/classes/Class\"]"@),
        ("https://atomicdata.dev/classes/Property"@, "https://atomicdata.dev/properties/shortname"@, "property"@),
        ("https://atomicdata.dev/classes/Property"@, "https://atomicdata.dev/properties/description"@, "A property declares the datatype of the values stored under it."@),
        ("https://atomicdata.dev/classes/Property"@, "https://atomicdata.dev/properties/requires"@, "[\"https://atomicdata.dev/properties/shortname\",\"https://atomicdata.dev/properties/datatype\"]"@),
        ("https://atomicdata.dev/classes/Agent"@, "https://atomicdata.dev/properties/isA"@, "[\"https://atomicdata.dev/classes/Class\"]"@),
        ("https://atomicdata.dev/classes/Agent"@, "https://atomicdata.dev/properties/shortname"@, "agent"@),
        ("https://atomicdata.dev/classes/Agent"@, "https://atomicdata.dev/properties/description"@, "An identity that signs commits with its key."@),
        ("https://atomicdata.dev/classes/Agent"@, "https://atomicdata.dev/properties/requires"@, "[\"https://atomicdata.dev/properties/publicKey\"]"@)
    ]
}

/// An atom from three borrowed strings.
fn atom_of(s: &str, p: &str, v: &str) -> (a: Atom)
    ensures
        a.subject@ == s@,
        a.property@ == p@,
        a.value@ == v@,
{
    let mut subject = String::new();
    subject.append(s);
    let mut property = String::new();
    property.append(p);
    let mut value = String::new();
    value.append(v);
    Atom { subject, property, value }
}

impl Store {
    /// Loads the default ontology: the built-in Properties, Classes and
    /// their datatypes. Loading it twice applies the same facts twice,
    /// which leaves the same resources.
    pub fn load_default(&mut self)
        requires
            old(self).wf(),
        ensures
            final(self)@ == apply_triples_spec(old(self)@, default_triples()),
            final(self).wf(),
            final(self).log@ == old(self).log@,
    {
        let mut atoms: Vec<Atom> = Vec::new();
    atoms.push(atom_of(
        "https://atomicdata.dev/properties/shortname",
        "https://atomicdata.dev/properties/isA",
        "[\"https://atomicdata.dev/classes/Property\"]",
    ));
    atoms.push(atom_of(
        "https://atomicdata.dev/properties/shortname",
        "https://atomicdata.dev/properties/shortname",
        "shortname",
    ));
    atoms.push(atom_of(
        "https://atomicdata.dev/properties/shortname",
        "https://atomicdata.dev/properties/datatype",
        "https://atomicdata.dev/datatypes/slug",
    ));
    atoms.push(atom_of(
        "https://atomicdata.dev/properties/description",
        "https://atomicdata.dev/properties/isA",
        "[\"https://atomicdata.dev/classes/Property\"]",
    ));
    atoms.push(atom_of(
        "https://atomicdata.dev/properties/description",
        "https://atomicdata.dev/properties/shortname",
        "description",
    ));
    atoms.push(atom_of(
        "https://atomicdata.dev/properties/description",
        "https://atomicdata.dev/properties/datatype",
        "https://atomicdata.dev/datatypes/markdown",
    ));
    atoms.push(atom_of(
        "https://atomicdata.dev/properties/datatype",
        "https://atomicdata.dev/properties/isA",
        "[\"https://atomicdata.dev/classes/Property\"]",
    ));
    atoms.push(atom_of(
        "https://atomicdata.dev/properties/datatype",
        "https://atomicdata.dev/properties/shortname",
        "datatype",
    ));
    atoms.push(atom_of(
        "https://atomicdata.dev/properties/datatype",
        "https://atomicdata.dev/properties/datatype",
        "https://atomicdata.dev/datatypes/atomicURL",
    ));
    atoms.push(atom_of(
        "https://atomicdata.dev/properties/requires",
        "https://atomicdata.dev/properties/isA",
        "[\"https://atomicdata.dev/classes/Property\"]",
    ));
    atoms.push(atom_of(
        "https://atomicdata.dev/properties/requires",
        "https://atomicdata.dev/properties/shortname",
        "requires",
    ));
    atoms.push(atom_of(
        "https://atomicdata.dev/properties/requires",
        "https://atomicdata.dev/properties/datatype",
        "https://atomicdata.dev/datatypes/resourceArray",
    ));
    atoms.push(atom_of(
        "https://atomicdata.dev/properties/recommends",
        "https://atomicdata.dev/properties/isA",
        "[\"https://atomicdata.dev/classes/Property\"]",
    ));
    atoms.push(atom_of(
        "https://atomicdata.dev/properties/recommends",
        "https://atomicdata.dev/properties/shortname",
        "recommends",
    ));
    atoms.push(atom_of(
        "https://atomicdata.dev/properties/recommends",
        "https://atomicdata.dev/properties/datatype",
        "https://atomicdata.dev/datatypes/resourceArray",
    ));
    atoms.push(atom_of(
        "https://atomicdata.dev/properties/isA",
        "https://atomicdata.dev/properties/isA",
        "[\"https://atomicdata.dev/classes/Property\"]",
    ));
    atoms.push(atom_of(
        "https://atomicdata.dev/properties/isA",
        "https://atomicdata.dev/properties/shortname",
        "is-a",
    ));
    atoms.push(atom_of(
        "https://atomicdata.dev/properties/isA",
        "https://atomicdata.dev/properties/datatype",
        "https://atomicdata.dev/datatypes/resourceArray",
    ));
    atoms.push(atom_of(
        "https://atomicdata.dev/properties/parent",
        "https://atomicdata.dev/properties/isA",
        "[\"https://atomicdata.dev/classes/Property\"]",
    ));
    atoms.push(atom_of(
        "https://atomicdata.dev/properties/parent",
        "https://atomicdata.dev/properties/shortname",
        "parent",
    ));
    atoms.push(atom_of(
        "https://atomicdata.dev/properties/parent",
        "https://atomicdata.dev/properties/datatype",
        "https://atomicdata.dev/datatypes/atomicURL",
    ));
    atoms.push(atom_of(
        "https://atomicdata.dev/properties/write",
        "https://atomicdata.dev/properties/isA",
        "[\"https://atomicdata.dev/classes/Property\"]",
    ));
    atoms.push(atom_of(
        "https://atomicdata.dev/properties/write",
        "https://atomicdata.dev/properties/shortname",
        "write",
    ));
    atoms.push(atom_of(
        "https://atomicdata.dev/properties/write",
        "https://atomicdata.dev/properties/datatype",
        "https://atomicdata.dev/datatypes/resourceArray",
    ));
    atoms.push(atom_of(
        "https://atomicdata.dev/properties/read",
        "https://atomicdata.dev/properties/isA",
        "[\"https://atomicdata.dev/classes/Property\"]",
    ));
    atoms.push(atom_of(
        "https://atomicdata.dev/properties/read",
        "https://atomicdata.dev/properties/shortname",
        "read",
    ));
    atoms.push(atom_of(
        "https://atomicdata.dev/properties/read",
        "https://atomicdata.dev/properties/datatype",
        "https://atomicdata.dev/datatypes/resourceArray",
    ));
    atoms.push(atom_of(
        "https://atomicdata.dev/properties/publicKey",
        "https://atomicdata.dev/properties/isA",
        "[\"https://atomicdata.dev/classes/Property\"]",
    ));
    atoms.push(atom_of(
        "https://atomicdata.dev/properties/publicKey",
        "https://atomicdata.dev/properties/shortname",
        "public-key",
    ));
    atoms.push(atom_of(
        "https://atomicdata.dev/properties/publicKey",
        "https://atomicdata.dev/properties/datatype",
        "https://atomicdata.dev/datatypes/string",
    ));
    atoms.push(atom_of(
        "https://atomicdata.dev/classes/Class",
        "https://atomicdata.dev/properties/isA",
        "[\"https://atomicdata.dev/classes/Class\"]",
    ));
    atoms.push(atom_of(
        "https://atomicdata.dev/classes/Class",
        "https://atomicdata.dev/properties/shortname",
        "class",
    ));
    atoms.push(atom_of(
        "https://atomicdata.dev/classes/Class",
        "https://atomicdata.dev/properties/description",
        "A class groups resources and declares the properties they must carry.",
    ));
    atoms.push(atom_of(
        "https://atomicdata.dev/classes/Class",
        "https://atomicdata.dev/properties/requires",
        "[\"https://atomicdata.dev/properties/shortname\",\"https://atomicdata.dev/properties/description\"]",
    ));
    atoms.push(atom_of(
        "https://atomicdata.dev/classes/Property",
        "https://atomicdata.dev/properties/isA",
        "[\"https://atomicdata.dev/classes/Class\"]",
    ));
    atoms.push(atom_of(
        "https://atomicdata.dev/classes/Property",
        "https://atomicdata.dev/properties/shortname",
        "property",
    ));
    atoms.push(atom_of(
        "https://atomicdata.dev/classes/Property",
        "https://atomicdata.dev/properties/description",
        "A property declares the datatype of the values stored under it.",
    ));
    atoms.push(atom_of(
        "https://atomicdata.dev/classes/Property",
        "https://atomicdata.dev/properties/requires",
        "[\"https://atomicdata.dev/properties/shortname\",\"https://atomicdata.dev/properties/datatype\"]",
    ));
    atoms.push(atom_of(
        "https://atomicdata.dev/classes/Agent",
        "https://atomicdata.dev/properties/isA",
        "[\"https://atomicdata.dev/classes/Class\"]",
    ));
    atoms.push(atom_of(
        "https://atomicdata.dev/classes/Agent",
        "https://atomicdata.dev/properties/shortname",
        "agent",
    ));
    atoms.push(atom_of(
        "https://atomicdata.dev/classes/Agent",
        "https://atomicdata.dev/properties/description",
        "An identity that signs commits with its key.",
    ));
    atoms.push(atom_of(
        "https://atomicdata.dev/classes/Agent",
        "https://atomicdata.dev/properties/requires",
        "[\"https://atomicdata.dev/properties/publicKey\"]",
    ));
        proof {
            assert(atoms_triples(atoms@) =~= default_triples());
            lemma_apply_atoms_eq_triples(old(self)@, atoms@);
        }
        let _ = self.add_atoms(atoms);
    }
}

} // verus!
