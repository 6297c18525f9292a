//! The hierarchy resolver: write permission for an agent on a subject is
//! resolved by walking the parent chain upward until a resource declares
//! an explicit write list. A list on a closer ancestor overrides any
//! further one; a root without a list denies, and so does a chain longer
//! than the store (which a cycle would force): the resolver fails closed.

use vstd::prelude::*;

use crate::resource::Resource;
use crate::store::Store;
use crate::urls;

verus! {

/// Whether an agent URL is named in a write/read list value (an array
/// line of agent URLs); a malformed list names nobody.
pub open spec fn agent_in_list(list_raw: Seq<char>, agent: Seq<char>) -> bool {
    match crate::codec::parse_line_spec(list_raw) {
        None => false,
        Some(es) => es.contains(agent),
    }
}

/// Whether an agent may write a resource with the given properties:
/// its own write list decides if it has one; otherwise the parent
/// decides, with at most `fuel` steps upward; otherwise deny.
pub open spec fn write_allowed(
    m: Map<Seq<char>, Map<Seq<char>, Seq<char>>>,
    props: Map<Seq<char>, Seq<char>>,
    agent: Seq<char>,
    fuel: nat,
) -> bool
    decreases fuel,
{
    if props.contains_key(urls::url_write()) {
        agent_in_list(props[urls::url_write()], agent)
    } else if props.contains_key(urls::url_parent()) {
        if fuel == 0 {
            false
        } else {
            let p = props[urls::url_parent()];
            m.contains_key(p) && write_allowed(m, m[p], agent, (fuel - 1) as nat)
        }
    } else {
        false
    }
}

/// An explicit write list overrides everything above it: permission is
/// exactly membership in that list.
pub proof fn lemma_write_override(
    m: Map<Seq<char>, Map<Seq<char>, Seq<char>>>,
    props: Map<Seq<char>, Seq<char>>,
    agent: Seq<char>,
    fuel: nat,
)
    requires
        props.contains_key(urls::url_write()),
    ensures
        write_allowed(m, props, agent, fuel)
            == agent_in_list(props[urls::url_write()], agent),
{
}

/// Without a write list, permission is inherited from the parent
/// unchanged.
pub proof fn lemma_write_inherit(
    m: Map<Seq<char>, Map<Seq<char>, Seq<char>>>,
    props: Map<Seq<char>, Seq<char>>,
    agent: Seq<char>,
    fuel: nat,
)
    requires
        !props.contains_key(urls::url_write()),
        props.contains_key(urls::url_parent()),
        fuel > 0,
        m.contains_key(props[urls::url_parent()]),
    ensures
        write_allowed(m, props, agent, fuel)
            == write_allowed(m, m[props[urls::url_parent()]], agent, (fuel - 1) as nat),
{
}

/// A root without a write list denies every agent.
pub proof fn lemma_write_root_denies(
    m: Map<Seq<char>, Map<Seq<char>, Seq<char>>>,
    props: Map<Seq<char>, Seq<char>>,
    agent: Seq<char>,
    fuel: nat,
)
    requires
        !props.contains_key(urls::url_write()),
        !props.contains_key(urls::url_parent()),
    ensures
        !write_allowed(m, props, agent, fuel),
{
}

/// Decides list membership for an agent.
pub fn agent_in_list_exec(list_raw: &str, agent: &str) -> (r: bool)
    ensures
        r == agent_in_list(list_raw@, agent@),
{
    match crate::codec::parse_line_exec(list_raw) {
        None => false,
        Some(es) => {
            let ghost esv = es@.map_values(|e: String| e@);
            let mut i: usize = 0;
            while i < es.len()
                invariant
                    esv == es@.map_values(|e: String| e@),
                    crate::codec::parse_line_spec(list_raw@) == Some(esv),
                    i <= es@.len(),
                    forall|k: int| 0 <= k < i ==> esv[k] != agent@,
                decreases es@.len() - i,
            {
                if crate::text::str_eq(es[i].as_str(), agent) {
                    proof {
                        assert(esv[i as int] == agent@);
                        assert(esv.contains(agent@));
                    }
                    return true;
                }
                proof {
                    assert(esv[i as int] == es@[i as int]@);
                }
                i = i + 1;
            }
            proof {
                if esv.contains(agent@) {
                    let k = choose|k: int| 0 <= k < esv.len() && esv[k] == agent@;
                    assert(false);
                }
            }
            false
        },
    }
}

impl Store {
    /// Decides `write_allowed` with `fuel` steps of parent chain left.
    fn check_write_rec(&self, props: &Resource, agent: &str, fuel: usize) -> (r: bool)
        requires
            self.wf(),
        ensures
            r == write_allowed(self@, props@, agent@, fuel as nat),
        decreases fuel,
    {
        match props.get(urls::write()) {
            Some(v) => agent_in_list_exec(v.as_str(), agent),
            None => {
                match props.get(urls::parent()) {
                    Some(p) => {
                        if fuel == 0 {
                            false
                        } else {
                            match self.get_resource_string(p.as_str()) {
                                None => false,
                                Some(next) => self.check_write_rec(&next, agent, fuel - 1),
                            }
                        }
                    },
                    None => false,
                }
            },
        }
    }

    /// Whether the agent may write the given resource, resolved through
    /// the parent hierarchy with the chain bounded by the store's size.
    pub fn check_write(&self, resource: &Resource, agent: &str) -> (r: bool)
        requires
            self.wf(),
        ensures
            r == write_allowed(self@, resource@, agent@, self.resources@.len() as nat),
    {
        self.check_write_rec(resource, agent, self.resources.len())
    }
}

} // verus!
