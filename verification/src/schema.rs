//! The schema registry and the validator: Property and Class definitions
//! are themselves resources of the store, and every resource is checked
//! against them.

use vstd::prelude::*;

use crate::errors::AtomicError;
use crate::errors::ValidationError;
use crate::resource::Resource;
use crate::store::Store;
use crate::urls;
use crate::value::Datatype;
use crate::value::value_ok;

verus! {

/// A Property definition read out of the store.
#[derive(Debug)]
pub struct Property {
    pub subject: String,
    pub shortname: String,
    pub data_type: Datatype,
}

/// A Class definition read out of the store.
#[derive(Debug)]
pub struct Class {
    pub subject: String,
    pub shortname: String,
    /// URLs of the properties every instance must carry.
    pub requires: Vec<String>,
}

/// The shortname and datatype that a Property URL resolves to: the
/// store must hold the subject with both a shortname and a datatype.
pub open spec fn property_of(
    m: Map<Seq<char>, Map<Seq<char>, Seq<char>>>,
    url: Seq<char>,
) -> Option<(Seq<char>, Datatype)> {
    if m.contains_key(url) {
        let props = m[url];
        if props.contains_key(urls::url_shortname()) && props.contains_key(urls::url_datatype()) {
            Some((props[urls::url_shortname()],
                crate::value::datatype_from_url_spec(props[urls::url_datatype()])))
        } else {
            None
        }
    } else {
        None
    }
}

/// The shortname and required-property URLs that a Class URL resolves
/// to: the subject must be held with a shortname, and its requires
/// list, when present, must be a well-formed array line.
pub open spec fn class_of(
    m: Map<Seq<char>, Map<Seq<char>, Seq<char>>>,
    url: Seq<char>,
) -> Option<(Seq<char>, Seq<Seq<char>>)> {
    if m.contains_key(url) {
        let props = m[url];
        if !props.contains_key(urls::url_shortname()) {
            None
        } else if !props.contains_key(urls::url_requires()) {
            Some((props[urls::url_shortname()], Seq::empty()))
        } else {
            match crate::codec::parse_line_spec(props[urls::url_requires()]) {
                None => None,
                Some(es) => Some((props[urls::url_shortname()], es)),
            }
        }
    } else {
        None
    }
}

/// The class URLs a property map declares through its type list; a
/// missing or malformed list declares none (a malformed one is caught
/// by the datatype pass instead).
pub open spec fn classes_of_props(props: Map<Seq<char>, Seq<char>>) -> Seq<Seq<char>> {
    if props.contains_key(urls::url_is_a()) {
        match crate::codec::parse_line_spec(props[urls::url_is_a()]) {
            None => Seq::empty(),
            Some(es) => es,
        }
    } else {
        Seq::empty()
    }
}

/// One used property resolves and its raw value conforms to the
/// resolved datatype.
pub open spec fn prop_value_valid(
    m: Map<Seq<char>, Map<Seq<char>, Seq<char>>>,
    props: Map<Seq<char>, Seq<char>>,
    p: Seq<char>,
) -> bool {
    property_of(m, p) is Some && value_ok(props[p], property_of(m, p)->Some_0.1)
}

/// One declared class resolves and all its required properties are
/// present.
pub open spec fn class_reqs_met(
    m: Map<Seq<char>, Map<Seq<char>, Seq<char>>>,
    props: Map<Seq<char>, Seq<char>>,
    c: Seq<char>,
) -> bool {
    class_of(m, c) is Some && forall|r: Seq<char>|
        #[trigger] (class_of(m, c)->Some_0.1).contains(r) ==> props.contains_key(r)
}

/// A resource is valid against a store's schema: every used property
/// resolves and its value conforms, and every declared class's required
/// properties are present.
pub open spec fn resource_valid(
    m: Map<Seq<char>, Map<Seq<char>, Seq<char>>>,
    props: Map<Seq<char>, Seq<char>>,
) -> bool {
    &&& (forall|p: Seq<char>| #[trigger] props.contains_key(p) ==> prop_value_valid(m, props, p))
    &&& (forall|c: Seq<char>| #[trigger] classes_of_props(props).contains(c)
            ==> class_reqs_met(m, props, c))
}

/// Every resource of the store is valid against the store's own schema.
pub open spec fn store_valid(m: Map<Seq<char>, Map<Seq<char>, Seq<char>>>) -> bool {
    forall|s: Seq<char>| #[trigger] m.contains_key(s) ==> resource_valid(m, m[s])
}

/// A class that requires a property rejects every resource that
/// declares the class and lacks the property.
pub proof fn lemma_required_property_enforced(
    m: Map<Seq<char>, Map<Seq<char>, Seq<char>>>,
    subject: Seq<char>,
    c: Seq<char>,
    p: Seq<char>,
)
    requires
        m.contains_key(subject),
        classes_of_props(m[subject]).contains(c),
        class_of(m, c) is Some,
        (class_of(m, c)->Some_0.1).contains(p),
        !m[subject].contains_key(p),
    ensures
        !resource_valid(m, m[subject]),
        !store_valid(m),
{
    assert(!class_reqs_met(m, m[subject], c));
}

impl Store {
    /// Resolves a Property definition from the store itself.
    pub fn get_property(&self, url: &str) -> (r: Result<Property, AtomicError>)
        requires
            self.wf(),
        ensures
            match r {
                Ok(p) => property_of(self@, url@) == Some((p.shortname@, p.data_type))
                    && p.subject@ == url@,
                Err(_) => property_of(self@, url@) is None,
            },
    {
        match self.get_resource_string(url) {
            None => {
                let mut s = String::new();
                s.append(url);
                Err(AtomicError::NotFound { subject: s })
            },
            Some(res) => {
                let shortname = match res.get(urls::shortname()) {
                    None => {
                        let mut s = String::new();
                        s.append(url);
                        return Err(AtomicError::NotFound { subject: s });
                    },
                    Some(v) => v.clone(),
                };
                let dt_url = match res.get(urls::datatype()) {
                    None => {
                        let mut s = String::new();
                        s.append(url);
                        return Err(AtomicError::NotFound { subject: s });
                    },
                    Some(v) => v.clone(),
                };
                let data_type = crate::value::datatype_from_url(dt_url.as_str());
                let mut subject = String::new();
                subject.append(url);
                Ok(Property { subject, shortname, data_type })
            },
        }
    }

    /// Resolves a Class definition from the store itself.
    pub fn get_class(&self, url: &str) -> (r: Result<Class, AtomicError>)
        requires
            self.wf(),
        ensures
            match r {
                Ok(c) => class_of(self@, url@)
                    == Some((c.shortname@, c.requires@.map_values(|e: String| e@)))
                    && c.subject@ == url@,
                Err(_) => class_of(self@, url@) is None,
            },
    {
        match self.get_resource_string(url) {
            None => {
                let mut s = String::new();
                s.append(url);
                Err(AtomicError::NotFound { subject: s })
            },
            Some(res) => {
                let shortname = match res.get(urls::shortname()) {
                    None => {
                        let mut s = String::new();
                        s.append(url);
                        return Err(AtomicError::NotFound { subject: s });
                    },
                    Some(v) => v.clone(),
                };
                let mut subject = String::new();
                subject.append(url);
                match res.get(urls::requires_prop()) {
                    None => {
                        let required: Vec<String> = Vec::new();
                        proof {
                            assert(required@.map_values(|e: String| e@)
                                =~= Seq::<Seq<char>>::empty());
                        }
                        Ok(Class { subject, shortname, requires: required })
                    },
                    Some(v) => {
                        match crate::codec::parse_line_exec(v.as_str()) {
                            None => {
                                Err(AtomicError::Validation(ValidationError::InvalidValue {
                                    property: subject,
                                }))
                            },
                            Some(required) => Ok(Class { subject, shortname, requires: required }),
                        }
                    },
                }
            },
        }
    }

    /// Checks every resource of the store against the store's own
    /// schema; a pure read-only pass. Returns `Ok` exactly when the
    /// whole store is valid.
    pub fn validate_store(&self) -> (r: Result<(), AtomicError>)
        requires
            self.wf(),
        ensures
            r is Ok <==> store_valid(self@),
            r is Err ==> (r->Err_0 matches AtomicError::Validation(_))
                || (r->Err_0 matches AtomicError::NotFound { .. }),
    {
        let mut i: usize = 0;
        while i < self.resources.len()
            invariant
                self.wf(),
                i <= self.resources@.len(),
                forall|k: int| 0 <= k < i
                    ==> resource_valid(self@, (#[trigger] self.resources@[k])@),
            decreases self.resources@.len() - i,
        {
            match self.validate_resource(&self.resources[i]) {
                Ok(()) => {},
                Err(e) => {
                    proof {
                        crate::store::lemma_res_map_at(self.resources@, i as int);
                    }
                    return Err(e);
                },
            }
            i = i + 1;
        }
        proof {
            assert forall|s: Seq<char>| #[trigger] self@.contains_key(s)
                implies resource_valid(self@, self@[s]) by {
                crate::store::lemma_res_map_dom(self.resources@, s);
                let k = choose|k: int| 0 <= k < self.resources@.len()
                    && self.resources@[k].subject@ == s;
                crate::store::lemma_res_map_at(self.resources@, k);
            }
        }
        Ok(())
    }

    /// Checks one resource against the store's schema.
    pub fn validate_resource(&self, res: &Resource) -> (r: Result<(), AtomicError>)
        requires
            self.wf(),
            res.wf(),
        ensures
            r is Ok <==> resource_valid(self@, res@),
            r is Err ==> (r->Err_0 matches AtomicError::Validation(_))
                || (r->Err_0 matches AtomicError::NotFound { .. }),
    {
        let ghost m = self@;
        let ghost props = res@;
        // datatype pass: every used property resolves, every value conforms
        let mut i: usize = 0;
        while i < res.propvals.len()
            invariant
                self.wf(),
                res.wf(),
                m == self@,
                props == res@,
                i <= res.propvals@.len(),
                forall|k: int| 0 <= k < i
                    ==> prop_value_valid(m, props, (#[trigger] res.propvals@[k]).property@),
            decreases res.propvals@.len() - i,
        {
            let pv = &res.propvals[i];
            let property = match self.get_property(pv.property.as_str()) {
                Ok(p) => p,
                Err(_) => {
                    proof {
                        crate::resource::lemma_props_map_at(res.propvals@, i as int);
                        assert(props.contains_key(res.propvals@[i as int].property@));
                        assert(!prop_value_valid(m, props, res.propvals@[i as int].property@));
                    }
                    return Err(AtomicError::Validation(ValidationError::UnknownProperty {
                        property: pv.property.clone(),
                    }));
                },
            };
            if !crate::value::value_ok_exec(pv.value.as_str(), &property.data_type) {
                proof {
                    crate::resource::lemma_props_map_at(res.propvals@, i as int);
                    assert(props[res.propvals@[i as int].property@]
                        == res.propvals@[i as int].value@);
                    assert(!prop_value_valid(m, props, res.propvals@[i as int].property@));
                }
                return Err(AtomicError::Validation(ValidationError::InvalidValue {
                    property: pv.property.clone(),
                }));
            }
            proof {
                crate::resource::lemma_props_map_at(res.propvals@, i as int);
            }
            i = i + 1;
        }
        proof {
            assert forall|p: Seq<char>| #[trigger] props.contains_key(p)
                implies prop_value_valid(m, props, p) by {
                crate::resource::lemma_props_map_dom(res.propvals@, p);
                let k = choose|k: int| 0 <= k < res.propvals@.len()
                    && res.propvals@[k].property@ == p;
            }
        }
        // class pass: every declared class resolves and is satisfied
        let classes: Vec<String> = match res.get(urls::is_a()) {
            None => {
                proof {
                    assert(classes_of_props(props) =~= Seq::<Seq<char>>::empty());
                }
                Vec::new()
            },
            Some(v) => match crate::codec::parse_line_exec(v.as_str()) {
                None => {
                    proof {
                        assert(classes_of_props(props) =~= Seq::<Seq<char>>::empty());
                    }
                    Vec::new()
                },
                Some(es) => es,
            },
        };
        let ghost cls = classes@.map_values(|e: String| e@);
        proof {
            assert(classes_of_props(props) == cls);
        }
        let mut ci: usize = 0;
        while ci < classes.len()
            invariant
                self.wf(),
                res.wf(),
                m == self@,
                props == res@,
                cls == classes@.map_values(|e: String| e@),
                classes_of_props(props) == cls,
                ci <= classes@.len(),
                forall|k: int| 0 <= k < ci ==> class_reqs_met(m, props, #[trigger] cls[k]),
            decreases classes@.len() - ci,
        {
            let curl = &classes[ci];
            let ghost curlv = cls[ci as int];
            proof {
                assert(curlv == classes@[ci as int]@);
            }
            let class = match self.get_class(curl.as_str()) {
                Ok(c) => c,
                Err(e) => {
                    proof {
                        assert(cls.contains(curlv));
                        assert(!class_reqs_met(m, props, curlv));
                    }
                    return Err(match e {
                        AtomicError::Validation(ve) => AtomicError::Validation(ve),
                        AtomicError::NotFound { subject } => AtomicError::NotFound { subject },
                        _ => AtomicError::NotFound { subject: curl.clone() },
                    });
                },
            };
            let ghost reqs = class.requires@.map_values(|e: String| e@);
            let mut ri: usize = 0;
            while ri < class.requires.len()
                invariant
                    self.wf(),
                    res.wf(),
                    m == self@,
                    props == res@,
                    class_of(m, curlv) == Some((class.shortname@, reqs)),
                    reqs == class.requires@.map_values(|e: String| e@),
                    cls == classes@.map_values(|e: String| e@),
                    classes_of_props(props) == cls,
                    ci < classes@.len(),
                    curlv == cls[ci as int],
                    ri <= class.requires@.len(),
                    forall|k: int| 0 <= k < ri ==> props.contains_key(#[trigger] reqs[k]),
                decreases class.requires@.len() - ri,
            {
                let requrl = &class.requires[ri];
                proof {
                    assert(reqs[ri as int] == class.requires@[ri as int]@);
                }
                match res.get(requrl.as_str()) {
                    Some(_) => {},
                    None => {
                        proof {
                            assert(cls.contains(curlv));
                            assert((class_of(m, curlv)->Some_0.1).contains(reqs[ri as int]));
                            assert(!class_reqs_met(m, props, curlv));
                        }
                        let shortname = match self.get_property(requrl.as_str()) {
                            Ok(p) => p.shortname,
                            Err(_) => requrl.clone(),
                        };
                        return Err(AtomicError::Validation(ValidationError::MissingRequired {
                            subject: res.subject.clone(),
                            shortname,
                            class: class.subject,
                        }));
                    },
                }
                ri = ri + 1;
            }
            proof {
                assert forall|rq: Seq<char>| #[trigger] (class_of(m, curlv)->Some_0.1).contains(rq)
                    implies props.contains_key(rq) by {
                    let k = choose|k: int| 0 <= k < reqs.len() && reqs[k] == rq;
                }
                assert(class_reqs_met(m, props, curlv));
            }
            ci = ci + 1;
        }
        proof {
            assert forall|c: Seq<char>| #[trigger] classes_of_props(props).contains(c)
                implies class_reqs_met(m, props, c) by {
                let k = choose|k: int| 0 <= k < cls.len() && cls[k] == c;
            }
        }
        Ok(())
    }
}

} // verus!
