//! The multi-format serializer: renders a resource as JSON, JSON-LD, or
//! N-Triples.
//!
//! The JSON forms map property URIs to their shortnames and nest array
//! values; resources referenced through URL or array values are expanded
//! in place while `depth` lasts. The output is defined totally: a
//! property that does not resolve keeps its URI as key and its raw value
//! quoted, so serialization never fails on an unvalidated store; the
//! output is well-formed JSON whenever the store validates. Embedded
//! objects carry their subject under `@id`; the JSON-LD form adds a
//! top-level `@context` mapping shortnames back to property URIs.

use vstd::prelude::*;

use crate::codec::quote;
use crate::errors::AtomicError;
use crate::resource::PropVal;
use crate::resource::Resource;
use crate::schema::property_of;
use crate::store::Store;
use crate::store::res_map;
use crate::value::Datatype;

verus! {

/// The last resource carrying a subject, scanned from the back; under
/// unique subjects it is the only one.
pub open spec fn find_res(rs: Seq<Resource>, subject: Seq<char>) -> Option<Resource>
    decreases rs.len(),
{
    if rs.len() == 0 {
        None
    } else if rs.last().subject@ == subject {
        Some(rs.last())
    } else {
        find_res(rs.drop_last(), subject)
    }
}

/// `find_res` finds a subject exactly when the denoted map holds it, and
/// yields the resource the map holds.
pub proof fn lemma_find_res(rs: Seq<Resource>, subject: Seq<char>)
    ensures
        find_res(rs, subject) is Some <==> res_map(rs).contains_key(subject),
        find_res(rs, subject) is Some ==> {
            let r = find_res(rs, subject)->Some_0;
            r.subject@ == subject && r@ == res_map(rs)[subject]
                && exists|j: int| 0 <= j < rs.len() && rs[j] == r
        },
    decreases rs.len(),
{
    if rs.len() > 0 {
        lemma_find_res(rs.drop_last(), subject);
        if rs.last().subject@ == subject {
            assert(rs[rs.len() - 1] == rs.last());
        } else {
            if find_res(rs.drop_last(), subject) is Some {
                let r = find_res(rs.drop_last(), subject)->Some_0;
                let j = choose|j: int| 0 <= j < rs.drop_last().len() && rs.drop_last()[j] == r;
                assert(rs[j] == r);
            }
        }
    }
}

/// The key a property is written under: its shortname, or its URI when
/// it does not resolve.
pub open spec fn prop_key(m: Map<Seq<char>, Map<Seq<char>, Seq<char>>>, p: Seq<char>) -> Seq<char> {
    match property_of(m, p) {
        Some(pd) => pd.0,
        None => p,
    }
}

/// The datatype a value is written under: plain text when the property
/// does not resolve.
pub open spec fn prop_dt(m: Map<Seq<char>, Map<Seq<char>, Seq<char>>>, p: Seq<char>) -> Datatype {
    match property_of(m, p) {
        Some(pd) => pd.1,
        None => Datatype::PlainString,
    }
}

/// A JSON object for a resource: its subject under `@id`, then its
/// pairs in order.
pub open spec fn obj_json(rs: Seq<Resource>, r: Resource, depth: nat) -> Seq<char>
    decreases depth, 3nat, 0nat,
{
    seq!['{'] + quote("@id"@) + seq![':'] + quote(r.subject@)
        + (if r.propvals@.len() == 0 { Seq::empty() } else { seq![','] + pairs_json(rs, r.propvals@, depth) })
        + seq!['}']
}

/// The comma-separated pairs of an object.
pub open spec fn pairs_json(rs: Seq<Resource>, pvs: Seq<PropVal>, depth: nat) -> Seq<char>
    decreases depth, 2nat, pvs.len(),
{
    if pvs.len() == 0 {
        Seq::empty()
    } else if pvs.len() == 1 {
        pair_json(rs, pvs.last(), depth)
    } else {
        pairs_json(rs, pvs.drop_last(), depth) + seq![','] + pair_json(rs, pvs.last(), depth)
    }
}

/// One `"key":value` pair.
pub open spec fn pair_json(rs: Seq<Resource>, pv: PropVal, depth: nat) -> Seq<char>
    decreases depth, 1nat, 1nat,
{
    quote(prop_key(res_map(rs), pv.property@)) + seq![':']
        + value_json(rs, prop_dt(res_map(rs), pv.property@), pv.value@, depth)
}

/// The JSON text of one raw value under a datatype.
pub open spec fn value_json(rs: Seq<Resource>, dt: Datatype, raw: Seq<char>, depth: nat) -> Seq<char>
    decreases depth, 1nat, 0nat,
{
    match dt {
        Datatype::Integer => raw,
        Datatype::Float => raw,
        Datatype::Boolean => raw,
        Datatype::Timestamp => raw,
        Datatype::AtomicUrl => url_json(rs, raw, depth),
        Datatype::ResourceArray => match crate::codec::parse_line_spec(raw) {
            None => quote(raw),
            Some(es) => seq!['['] + elems_json(rs, es, depth) + seq![']'],
        },
        _ => quote(raw),
    }
}

/// A URL value: the referenced resource expanded in place while depth
/// lasts and the store holds it, else the URL quoted.
pub open spec fn url_json(rs: Seq<Resource>, url: Seq<char>, depth: nat) -> Seq<char>
    decreases depth, 0nat, 1nat,
{
    if depth > 0 && find_res(rs, url) is Some {
        obj_json(rs, find_res(rs, url)->Some_0, (depth - 1) as nat)
    } else {
        quote(url)
    }
}

/// The comma-separated elements of an array value, each a URL.
pub open spec fn elems_json(rs: Seq<Resource>, es: Seq<Seq<char>>, depth: nat) -> Seq<char>
    decreases depth, 0nat, es.len() + 2,
{
    if es.len() == 0 {
        Seq::empty()
    } else if es.len() == 1 {
        url_json(rs, es.last(), depth)
    } else {
        elems_json(rs, es.drop_last(), depth) + seq![','] + url_json(rs, es.last(), depth)
    }
}

/// The `@context` pairs of the JSON-LD form: shortname back to URI, one
/// pair per property, in pair order.
pub open spec fn context_json(m: Map<Seq<char>, Map<Seq<char>, Seq<char>>>, pvs: Seq<PropVal>)
    -> Seq<char>
    decreases pvs.len(),
{
    if pvs.len() == 0 {
        Seq::empty()
    } else if pvs.len() == 1 {
        quote(prop_key(m, pvs.last().property@)) + seq![':'] + quote(pvs.last().property@)
    } else {
        context_json(m, pvs.drop_last()) + seq![',']
            + quote(prop_key(m, pvs.last().property@)) + seq![':'] + quote(pvs.last().property@)
    }
}

/// The whole document for a resource: the object itself, or with
/// `@context` first in the JSON-LD form.
pub open spec fn resource_json(rs: Seq<Resource>, r: Resource, depth: nat, jsonld: bool)
    -> Seq<char> {
    if jsonld {
        seq!['{'] + quote("@context"@) + seq![':']
            + seq!['{'] + context_json(res_map(rs), r.propvals@) + seq!['}'] + seq![',']
            + quote("@id"@) + seq![':'] + quote(r.subject@)
            + (if r.propvals@.len() == 0 { Seq::empty() } else {
                seq![','] + pairs_json(rs, r.propvals@, depth)
            })
        + seq!['}']
    } else {
        obj_json(rs, r, depth)
    }
}

impl Store {
    /// The resource carrying a subject, exactly as the index holds it.
    fn find_res_exec(&self, subject: &str) -> (r: Option<&Resource>)
        ensures
            match r {
                Some(res) => find_res(self.resources@, subject@) == Some(*res),
                None => find_res(self.resources@, subject@) is None,
            },
    {
        let ghost rs = self.resources@;
        let mut i: usize = self.resources.len();
        proof {
            assert(rs.take(i as int) =~= rs);
        }
        while i > 0
            invariant
                rs == self.resources@,
                i <= rs.len(),
                find_res(rs, subject@) == find_res(rs.take(i as int), subject@),
            decreases i,
        {
            i = i - 1;
            proof {
                assert(rs.take(i + 1).last() == rs[i as int]);
                assert(rs.take(i + 1).drop_last() =~= rs.take(i as int));
            }
            if crate::text::str_eq(self.resources[i].subject.as_str(), subject) {
                return Some(&self.resources[i]);
            }
        }
        proof {
            assert(rs.take(0) =~= Seq::<Resource>::empty());
        }
        None
    }

    fn pair_json_exec(&self, pv: &PropVal, depth: usize) -> (out: String)
        requires
            self.wf(),
        ensures
            out@ == pair_json(self.resources@, *pv, depth as nat),
        decreases depth, 1nat, 1nat,
    {
        let mut out = String::new();
        let dt: Datatype = match self.get_property(pv.property.as_str()) {
            Ok(p) => {
                crate::codec::quote_into(&mut out, p.shortname.as_str());
                p.data_type
            },
            Err(_) => {
                crate::codec::quote_into(&mut out, pv.property.as_str());
                Datatype::PlainString
            },
        };
        crate::text::push_char(&mut out, ':');
        let v = self.value_json_exec(&dt, pv.value.as_str(), depth);
        out.append(v.as_str());
        proof {
            assert(out@ =~= pair_json(self.resources@, *pv, depth as nat));
        }
        out
    }

    fn value_json_exec(&self, dt: &Datatype, raw: &str, depth: usize) -> (out: String)
        requires
            self.wf(),
        ensures
            out@ == value_json(self.resources@, *dt, raw@, depth as nat),
        decreases depth, 1nat, 0nat,
    {
        match dt {
            Datatype::Integer | Datatype::Float | Datatype::Boolean | Datatype::Timestamp => {
                let mut out = String::new();
                out.append(raw);
                out
            },
            Datatype::AtomicUrl => self.url_json_exec(raw, depth),
            Datatype::ResourceArray => {
                match crate::codec::parse_line_exec(raw) {
                    None => {
                        let mut out = String::new();
                        crate::codec::quote_into(&mut out, raw);
                        proof {
                            assert(Seq::<char>::empty() + quote(raw@) =~= quote(raw@));
                        }
                        out
                    },
                    Some(es) => {
                        let mut out = String::new();
                        crate::text::push_char(&mut out, '[');
                        let inner = self.elems_json_exec(&es, depth);
                        out.append(inner.as_str());
                        crate::text::push_char(&mut out, ']');
                        proof {
                            assert(out@ =~= seq!['[']
                                + elems_json(self.resources@, es@.map_values(|e: String| e@), depth as nat)
                                + seq![']']);
                        }
                        out
                    },
                }
            },
            _ => {
                let mut out = String::new();
                crate::codec::quote_into(&mut out, raw);
                proof {
                    assert(Seq::<char>::empty() + quote(raw@) =~= quote(raw@));
                }
                out
            },
        }
    }

    fn url_json_exec(&self, url: &str, depth: usize) -> (out: String)
        requires
            self.wf(),
        ensures
            out@ == url_json(self.resources@, url@, depth as nat),
        decreases depth, 0nat, 1nat,
    {
        if depth > 0 {
            let found = self.find_res_exec(url);
            match found {
                Some(res) => {
                    let r = res.duplicate();
                    proof {
                        assert(r.propvals@ == find_res(self.resources@, url@)->Some_0.propvals@);
                        assert(r.subject@ == find_res(self.resources@, url@)->Some_0.subject@);
                    }
                    let obj = self.obj_json_exec(&r, depth - 1);
                    proof {
                        assert(obj_json(self.resources@, r, (depth - 1) as nat)
                            == obj_json(self.resources@, find_res(self.resources@, url@)->Some_0,
                                (depth - 1) as nat));
                    }
                    obj
                },
                None => {
                    let mut out = String::new();
                    crate::codec::quote_into(&mut out, url);
                    proof {
                        assert(Seq::<char>::empty() + quote(url@) =~= quote(url@));
                    }
                    out
                },
            }
        } else {
            let mut out = String::new();
            crate::codec::quote_into(&mut out, url);
            proof {
                assert(Seq::<char>::empty() + quote(url@) =~= quote(url@));
            }
            out
        }
    }

    fn elems_json_exec(&self, es: &Vec<String>, depth: usize) -> (out: String)
        requires
            self.wf(),
        ensures
            out@ == elems_json(self.resources@, es@.map_values(|e: String| e@), depth as nat),
        decreases depth, 0nat, es@.len() + 2,
    {
        let ghost esv = es@.map_values(|e: String| e@);
        let mut out = String::new();
        proof {
            assert(esv.take(0) =~= Seq::<Seq<char>>::empty());
        }
        let mut i: usize = 0;
        while i < es.len()
            invariant
                self.wf(),
                esv == es@.map_values(|e: String| e@),
                i <= es@.len(),
                out@ == elems_json(self.resources@, esv.take(i as int), depth as nat),
            decreases es@.len() - i,
        {
            if i > 0 {
                crate::text::push_char(&mut out, ',');
            }
            let piece = self.url_json_exec(es[i].as_str(), depth);
            out.append(piece.as_str());
            proof {
                assert(esv.take(i + 1).drop_last() =~= esv.take(i as int));
                assert(esv.take(i + 1).last() == esv[i as int]);
                assert(esv[i as int] == es@[i as int]@);
                assert(out@ =~= elems_json(self.resources@, esv.take(i + 1), depth as nat));
            }
            i = i + 1;
        }
        proof {
            assert(esv.take(esv.len() as int) =~= esv);
        }
        out
    }

    fn pairs_json_exec(&self, pvs: &Vec<PropVal>, depth: usize) -> (out: String)
        requires
            self.wf(),
        ensures
            out@ == pairs_json(self.resources@, pvs@, depth as nat),
        decreases depth, 2nat, pvs@.len(),
    {
        let mut out = String::new();
        proof {
            assert(pvs@.take(0) =~= Seq::<PropVal>::empty());
        }
        let mut i: usize = 0;
        while i < pvs.len()
            invariant
                self.wf(),
                i <= pvs@.len(),
                out@ == pairs_json(self.resources@, pvs@.take(i as int), depth as nat),
            decreases pvs@.len() - i,
        {
            if i > 0 {
                crate::text::push_char(&mut out, ',');
            }
            let piece = self.pair_json_exec(&pvs[i], depth);
            out.append(piece.as_str());
            proof {
                assert(pvs@.take(i + 1).drop_last() =~= pvs@.take(i as int));
                assert(pvs@.take(i + 1).last() == pvs@[i as int]);
                assert(out@ =~= pairs_json(self.resources@, pvs@.take(i + 1), depth as nat));
            }
            i = i + 1;
        }
        proof {
            assert(pvs@.take(pvs@.len() as int) =~= pvs@);
        }
        out
    }

    fn obj_json_exec(&self, r: &Resource, depth: usize) -> (out: String)
        requires
            self.wf(),
        ensures
            out@ == obj_json(self.resources@, *r, depth as nat),
        decreases depth, 3nat, 0nat,
    {
        let mut out = String::new();
        crate::text::push_char(&mut out, '{');
        crate::codec::quote_into(&mut out, "@id");
        crate::text::push_char(&mut out, ':');
        crate::codec::quote_into(&mut out, r.subject.as_str());
        if r.propvals.len() > 0 {
            crate::text::push_char(&mut out, ',');
            let pairs = self.pairs_json_exec(&r.propvals, depth);
            out.append(pairs.as_str());
        }
        crate::text::push_char(&mut out, '}');
        proof {
            assert(out@ =~= obj_json(self.resources@, *r, depth as nat));
        }
        out
    }

    fn context_json_exec(&self, pvs: &Vec<PropVal>) -> (out: String)
        requires
            self.wf(),
        ensures
            out@ == context_json(self@, pvs@),
    {
        let mut out = String::new();
        proof {
            assert(pvs@.take(0) =~= Seq::<PropVal>::empty());
        }
        let mut i: usize = 0;
        while i < pvs.len()
            invariant
                self.wf(),
                i <= pvs@.len(),
                out@ == context_json(self@, pvs@.take(i as int)),
            decreases pvs@.len() - i,
        {
            if i > 0 {
                crate::text::push_char(&mut out, ',');
            }
            match self.get_property(pvs[i].property.as_str()) {
                Ok(p) => {
                    crate::codec::quote_into(&mut out, p.shortname.as_str());
                },
                Err(_) => {
                    crate::codec::quote_into(&mut out, pvs[i].property.as_str());
                },
            }
            crate::text::push_char(&mut out, ':');
            crate::codec::quote_into(&mut out, pvs[i].property.as_str());
            proof {
                assert(pvs@.take(i + 1).drop_last() =~= pvs@.take(i as int));
                assert(pvs@.take(i + 1).last() == pvs@[i as int]);
                assert(out@ =~= context_json(self@, pvs@.take(i + 1)));
            }
            i = i + 1;
        }
        proof {
            assert(pvs@.take(pvs@.len() as int) =~= pvs@);
        }
        out
    }

    /// Renders one resource of the store as JSON, or as JSON-LD with an
    /// `@context`; resources referenced through URL or array values are
    /// expanded in place while `depth` lasts. Fails only on an unknown
    /// subject.
    pub fn resource_to_json(&self, subject: &str, depth: usize, jsonld: bool)
        -> (r: Result<String, AtomicError>)
        requires
            self.wf(),
        ensures
            match r {
                Ok(out) => find_res(self.resources@, subject@) is Some
                    && self@.contains_key(subject@)
                    && out@ == resource_json(self.resources@,
                        find_res(self.resources@, subject@)->Some_0, depth as nat, jsonld),
                Err(e) => !self@.contains_key(subject@)
                    && (e matches AtomicError::NotFound { subject: s } && s@ == subject@),
            },
    {
        proof {
            lemma_find_res(self.resources@, subject@);
        }
        let found = self.find_res_exec(subject);
        match found {
            None => {
                let mut s = String::new();
                s.append(subject);
                Err(AtomicError::NotFound { subject: s })
            },
            Some(res) => {
                let r = res.duplicate();
                let ghost target = find_res(self.resources@, subject@)->Some_0;
                proof {
                    assert(r.propvals@ == target.propvals@);
                    assert(r.subject@ == target.subject@);
                }
                if !jsonld {
                    let out = self.obj_json_exec(&r, depth);
                    proof {
                        assert(obj_json(self.resources@, r, depth as nat)
                            == obj_json(self.resources@, target, depth as nat));
                    }
                    Ok(out)
                } else {
                    let mut out = String::new();
                    crate::text::push_char(&mut out, '{');
                    crate::codec::quote_into(&mut out, "@context");
                    crate::text::push_char(&mut out, ':');
                    crate::text::push_char(&mut out, '{');
                    let ctx = self.context_json_exec(&r.propvals);
                    out.append(ctx.as_str());
                    crate::text::push_char(&mut out, '}');
                    crate::text::push_char(&mut out, ',');
                    crate::codec::quote_into(&mut out, "@id");
                    crate::text::push_char(&mut out, ':');
                    crate::codec::quote_into(&mut out, r.subject.as_str());
                    if r.propvals.len() > 0 {
                        crate::text::push_char(&mut out, ',');
                        let pairs = self.pairs_json_exec(&r.propvals, depth);
                        out.append(pairs.as_str());
                    }
                    crate::text::push_char(&mut out, '}');
                    proof {
                        assert(out@ =~= resource_json(self.resources@, target, depth as nat, true));
                    }
                    Ok(out)
                }
            },
        }
    }
}

/// A URI in angle brackets.
pub open spec fn angle(u: Seq<char>) -> Seq<char> {
    seq!['<'] + u + seq!['>']
}

/// The raw datatype URL a property declares, or nothing when the
/// property does not resolve.
pub open spec fn datatype_url(m: Map<Seq<char>, Map<Seq<char>, Seq<char>>>, p: Seq<char>)
    -> Seq<char> {
    if property_of(m, p) is Some {
        m[p][crate::urls::url_datatype()]
    } else {
        Seq::empty()
    }
}

/// The ` .` line ending of one triple.
pub open spec fn triple_end() -> Seq<char> {
    seq![' ', '.', '\n']
}

/// The `^^<datatype>` tag of a typed literal.
pub open spec fn type_tag(m: Map<Seq<char>, Map<Seq<char>, Seq<char>>>, p: Seq<char>)
    -> Seq<char> {
    seq!['^', '^'] + angle(datatype_url(m, p))
}

/// One triple per array element, each element a bare URI object.
pub open spec fn turtle_urls(subject: Seq<char>, p: Seq<char>, es: Seq<Seq<char>>) -> Seq<char>
    decreases es.len(),
{
    if es.len() == 0 {
        Seq::empty()
    } else {
        turtle_urls(subject, p, es.drop_last())
            + angle(subject) + seq![' '] + angle(p) + seq![' '] + angle(es.last()) + triple_end()
    }
}

/// The N-Triples text of one fact: a bare URI object for URL values,
/// one triple per element for arrays, unquoted numeric and boolean
/// literals and quoted text, tagged `^^<datatype>` unless plain text.
pub open spec fn turtle_atom(
    m: Map<Seq<char>, Map<Seq<char>, Seq<char>>>,
    subject: Seq<char>,
    p: Seq<char>,
    raw: Seq<char>,
) -> Seq<char> {
    let head = angle(subject) + seq![' '] + angle(p) + seq![' '];
    match prop_dt(m, p) {
        Datatype::AtomicUrl => head + angle(raw) + triple_end(),
        Datatype::ResourceArray => match crate::codec::parse_line_spec(raw) {
            None => head + quote(raw) + type_tag(m, p) + triple_end(),
            Some(es) => turtle_urls(subject, p, es),
        },
        Datatype::Integer => head + raw + type_tag(m, p) + triple_end(),
        Datatype::Float => head + raw + type_tag(m, p) + triple_end(),
        Datatype::Boolean => head + raw + type_tag(m, p) + triple_end(),
        Datatype::Timestamp => head + raw + type_tag(m, p) + triple_end(),
        Datatype::PlainString => head + quote(raw) + triple_end(),
        _ => head + quote(raw) + type_tag(m, p) + triple_end(),
    }
}

/// The N-Triples text of a sequence of facts, in order.
pub open spec fn turtle_atoms(
    m: Map<Seq<char>, Map<Seq<char>, Seq<char>>>,
    atoms: Seq<crate::resource::Atom>,
) -> Seq<char>
    decreases atoms.len(),
{
    if atoms.len() == 0 {
        Seq::empty()
    } else {
        turtle_atoms(m, atoms.drop_last())
            + turtle_atom(m, atoms.last().subject@, atoms.last().property@, atoms.last().value@)
    }
}

impl Store {
    /// The raw datatype URL of a property, or nothing.
    fn datatype_url_exec(&self, p: &str) -> (r: String)
        requires
            self.wf(),
        ensures
            r@ == datatype_url(self@, p@),
    {
        match self.get_resource_string(p) {
            None => String::new(),
            Some(res) => {
                match res.get(crate::urls::shortname()) {
                    None => String::new(),
                    Some(_) => match res.get(crate::urls::datatype()) {
                        None => String::new(),
                        Some(v) => v.clone(),
                    },
                }
            },
        }
    }
}

/// Appends `<u>` to the output.
fn angle_into(out: &mut String, u: &str)
    ensures
        final(out)@ == old(out)@ + angle(u@),
{
    crate::text::push_char(out, '<');
    out.append(u);
    crate::text::push_char(out, '>');
    proof {
        assert(out@ =~= old(out)@ + angle(u@));
    }
}

/// Renders atoms as N-Triples, one line per triple, against the store's
/// schema.
pub fn serialize_atoms_to_n_triples(atoms: Vec<crate::resource::Atom>, store: &Store)
    -> (r: String)
    requires
        store.wf(),
    ensures
        r@ == turtle_atoms(store@, atoms@),
{
    let mut out = String::new();
    proof {
        assert(atoms@.take(0) =~= Seq::<crate::resource::Atom>::empty());
    }
    let mut i: usize = 0;
    while i < atoms.len()
        invariant
            store.wf(),
            i <= atoms@.len(),
            out@ == turtle_atoms(store@, atoms@.take(i as int)),
        decreases atoms@.len() - i,
    {
        let a = &atoms[i];
        let ghost out0 = out@;
        let dt: Datatype = match store.get_property(a.property.as_str()) {
            Ok(p) => p.data_type,
            Err(_) => Datatype::PlainString,
        };
        let mut is_array_expansion = false;
        let mut elements: Vec<String> = Vec::new();
        if matches!(dt, Datatype::ResourceArray) {
            match crate::codec::parse_line_exec(a.value.as_str()) {
                Some(es) => {
                    elements = es;
                    is_array_expansion = true;
                },
                None => {},
            }
        }
        if is_array_expansion {
            let ghost esv = elements@.map_values(|e: String| e@);
            proof {
                assert(esv.take(0) =~= Seq::<Seq<char>>::empty());
            }
            let mut j: usize = 0;
            while j < elements.len()
                invariant
                    store.wf(),
                    i < atoms@.len(),
                    esv == elements@.map_values(|e: String| e@),
                    j <= elements@.len(),
                    out@ == out0 + turtle_urls(atoms@[i as int].subject@,
                        atoms@[i as int].property@, esv.take(j as int)),
                    atoms@[i as int].subject@ == a.subject@,
                    atoms@[i as int].property@ == a.property@,
                decreases elements@.len() - j,
            {
                let ghost before = out@;
                angle_into(&mut out, a.subject.as_str());
                crate::text::push_char(&mut out, ' ');
                angle_into(&mut out, a.property.as_str());
                crate::text::push_char(&mut out, ' ');
                angle_into(&mut out, elements[j].as_str());
                crate::text::push_char(&mut out, ' ');
                crate::text::push_char(&mut out, '.');
                crate::text::push_char(&mut out, '\n');
                proof {
                    assert(esv.take(j + 1).drop_last() =~= esv.take(j as int));
                    assert(esv.take(j + 1).last() == esv[j as int]);
                    assert(esv[j as int] == elements@[j as int]@);
                    assert(out@ =~= out0 + turtle_urls(atoms@[i as int].subject@,
                        atoms@[i as int].property@, esv.take(j + 1)));
                }
                j = j + 1;
            }
            proof {
                assert(esv.take(esv.len() as int) =~= esv);
                assert(turtle_atom(store@, a.subject@, a.property@, a.value@)
                    == turtle_urls(a.subject@, a.property@, esv));
            }
        } else {
            angle_into(&mut out, a.subject.as_str());
            crate::text::push_char(&mut out, ' ');
            angle_into(&mut out, a.property.as_str());
            crate::text::push_char(&mut out, ' ');
            match dt {
                Datatype::AtomicUrl => {
                    angle_into(&mut out, a.value.as_str());
                },
                Datatype::Integer | Datatype::Float | Datatype::Boolean | Datatype::Timestamp => {
                    out.append(a.value.as_str());
                    crate::text::push_char(&mut out, '^');
                    crate::text::push_char(&mut out, '^');
                    let du = store.datatype_url_exec(a.property.as_str());
                    angle_into(&mut out, du.as_str());
                },
                Datatype::PlainString => {
                    crate::codec::quote_into(&mut out, a.value.as_str());
                },
                _ => {
                    crate::codec::quote_into(&mut out, a.value.as_str());
                    crate::text::push_char(&mut out, '^');
                    crate::text::push_char(&mut out, '^');
                    let du = store.datatype_url_exec(a.property.as_str());
                    angle_into(&mut out, du.as_str());
                },
            }
            crate::text::push_char(&mut out, ' ');
            crate::text::push_char(&mut out, '.');
            crate::text::push_char(&mut out, '\n');
            proof {
                assert(out@ =~= out0
                    + turtle_atom(store@, a.subject@, a.property@, a.value@));
            }
        }
        proof {
            assert(atoms@.take(i + 1).drop_last() =~= atoms@.take(i as int));
            assert(atoms@.take(i + 1).last() == atoms@[i as int]);
            assert(out@ =~= turtle_atoms(store@, atoms@.take(i + 1)));
        }
        i = i + 1;
    }
    proof {
        assert(atoms@.take(atoms@.len() as int) =~= atoms@);
    }
    out
}

/// The content types the codec layer can produce.
#[derive(PartialEq, Eq, Structural, Clone, Copy, Debug)]
pub enum ContentType {
    Ad3,
    Json,
    JsonLd,
    Html,
    Turtle,
    Nt,
}

/// The content type a URL path extension asks for; anything unknown is
/// rendered as a page.
pub open spec fn content_type_from_extension_spec(ext: Seq<char>) -> ContentType {
    if ext == "ad3"@ {
        ContentType::Ad3
    } else if ext == "json"@ {
        ContentType::Json
    } else if ext == "jsonld"@ {
        ContentType::JsonLd
    } else if ext == "ttl"@ {
        ContentType::Turtle
    } else {
        ContentType::Html
    }
}

/// Decides `content_type_from_extension_spec`.
pub fn content_type_from_extension(ext: &str) -> (r: ContentType)
    ensures
        r == content_type_from_extension_spec(ext@),
{
    if crate::text::str_eq(ext, "ad3") {
        ContentType::Ad3
    } else if crate::text::str_eq(ext, "json") {
        ContentType::Json
    } else if crate::text::str_eq(ext, "jsonld") {
        ContentType::JsonLd
    } else if crate::text::str_eq(ext, "ttl") {
        ContentType::Turtle
    } else {
        ContentType::Html
    }
}

impl ContentType {
    /// The MIME name a response carries for this content type.
    pub fn to_mime(&self) -> (r: &'static str)
        ensures
            r@ == (match *self {
                ContentType::Ad3 => "application/ad3-ndjson"@,
                ContentType::Json => "application/json"@,
                ContentType::JsonLd => "application/ld+json"@,
                ContentType::Html => "text/html"@,
                ContentType::Turtle => "text/turtle"@,
                ContentType::Nt => "application/n-triples"@,
            }),
    {
        match self {
            ContentType::Ad3 => "application/ad3-ndjson",
            ContentType::Json => "application/json",
            ContentType::JsonLd => "application/ld+json",
            ContentType::Html => "text/html",
            ContentType::Turtle => "text/turtle",
            ContentType::Nt => "application/n-triples",
        }
    }
}

} // verus!
