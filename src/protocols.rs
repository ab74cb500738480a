use vstd::prelude::*;

use crate::names::{is_address_segment, validate_address_segment};

verus! {

/// Identifier of an instance lease.
pub type LeaseId = i64;

/// A component named within a namespace, as plain data.
#[derive(Clone, Debug, PartialEq, Eq)]
pub struct Component {
    pub namespace: String,
    pub name: String,
}

/// An endpoint named within a component and a namespace, as plain data.
#[derive(Clone, Debug, PartialEq, Eq)]
pub struct Endpoint {
    /// Namespace of the component.
    pub namespace: String,
    /// Component of the endpoint.
    pub component: String,
    /// Name of the endpoint.
    pub name: String,
}

/// How requests are spread over the instances of an endpoint.
#[derive(Clone, Copy, Debug, PartialEq, Eq, Structural)]
pub enum RouterType {
    PushRoundRobin,
    PushRandom,
}

impl Default for RouterType {
    fn default() -> (r: RouterType)
        ensures
            r == RouterType::PushRandom,
    {
        RouterType::PushRandom
    }
}

/// A model served by a component, and how its requests are routed.
#[derive(Clone, Debug, PartialEq, Eq)]
pub struct ModelMetaData {
    pub name: String,
    pub component: Component,
    pub router_type: RouterType,
}

/// Why an endpoint address was rejected.
#[derive(Clone, Copy, Debug, PartialEq, Eq, Structural)]
pub enum AddressError {
    /// The address does not have exactly three dot-separated segments.
    InvalidFormat,
    InvalidNamespace,
    InvalidComponent,
    InvalidEndpoint,
}

/// A fully qualified endpoint address `namespace.component.endpoint`.
#[derive(Clone, Debug)]
pub struct EndpointAddress {
    address: String,
    namespace: String,
    component: String,
    name: String,
}

/// The segments of `s` between dots, in order; `s` without a dot is one segment.
pub open spec fn split_dots(s: Seq<char>) -> Seq<Seq<char>>
    decreases s.len(),
{
    if s.len() == 0 {
        seq![Seq::empty()]
    } else {
        let parts = split_dots(s.drop_last());
        if s.last() == '.' {
            parts.push(Seq::empty())
        } else {
            parts.update(parts.len() - 1, parts.last().push(s.last()))
        }
    }
}

proof fn lemma_split_dots_nonempty(s: Seq<char>)
    ensures
        split_dots(s).len() >= 1,
    decreases s.len(),
{
    if s.len() > 0 {
        lemma_split_dots_nonempty(s.drop_last());
    }
}

/// The segments joined by dots.
pub open spec fn join_dots(parts: Seq<Seq<char>>) -> Seq<char>
    decreases parts.len(),
{
    if parts.len() == 0 {
        Seq::empty()
    } else if parts.len() == 1 {
        parts[0]
    } else {
        join_dots(parts.drop_last()) + seq!['.'] + parts.last()
    }
}

/// Splitting at the dots and joining the segments with dots gives the string back.
pub proof fn lemma_join_split_dots(s: Seq<char>)
    ensures
        join_dots(split_dots(s)) == s,
    decreases s.len(),
{
    if s.len() > 0 {
        let t = s.drop_last();
        lemma_join_split_dots(t);
        lemma_split_dots_nonempty(t);
        let p = split_dots(t);
        let q = split_dots(s);
        if s.last() == '.' {
            assert(q.drop_last() =~= p);
            assert(join_dots(q) =~= s);
        } else if p.len() == 1 {
            assert(join_dots(q) =~= s);
        } else {
            assert(q.drop_last() =~= p.drop_last());
            assert(q.last() == p.last().push(s.last()));
            assert(join_dots(q) == join_dots(p.drop_last()) + seq!['.'] + p.last().push(s.last()));
            assert(join_dots(p) == join_dots(p.drop_last()) + seq!['.'] + p.last());
            assert(s =~= t.push(s.last()));
            assert(join_dots(q) =~= s);
        }
    }
}

/// `namespace.component.name`
pub open spec fn joined_address(ns: Seq<char>, comp: Seq<char>, name: Seq<char>) -> Seq<char> {
    ns + seq!['.'] + comp + seq!['.'] + name
}

/// What `EndpointAddress::new` answers for these segments.
pub open spec fn address_check(ns: Seq<char>, comp: Seq<char>, name: Seq<char>) -> Result<
    (),
    AddressError,
> {
    if !is_address_segment(ns) {
        Err(AddressError::InvalidNamespace)
    } else if !is_address_segment(comp) {
        Err(AddressError::InvalidComponent)
    } else if !is_address_segment(name) {
        Err(AddressError::InvalidEndpoint)
    } else {
        Ok(())
    }
}

fn join_address(ns: &str, comp: &str, name: &str) -> (r: String)
    ensures
        r@ == joined_address(ns@, comp@, name@),
{
    let mut s = String::from_str(ns);
    s.push('.');
    s.append(comp);
    s.push('.');
    s.append(name);
    s
}

impl EndpointAddress {
    pub closed spec fn spec_address(&self) -> Seq<char> {
        self.address@
    }

    pub closed spec fn spec_namespace(&self) -> Seq<char> {
        self.namespace@
    }

    pub closed spec fn spec_component(&self) -> Seq<char> {
        self.component@
    }

    pub closed spec fn spec_name(&self) -> Seq<char> {
        self.name@
    }

    /// The address is its three segments joined by dots.
    pub open spec fn wf(&self) -> bool {
        self.spec_address() == joined_address(
            self.spec_namespace(),
            self.spec_component(),
            self.spec_name(),
        )
    }

    /// The address `namespace.component.endpoint`, if every segment is valid; otherwise the
    /// first invalid segment, in that order, is reported.
    pub fn new(namespace: &str, component: &str, endpoint: &str) -> (r: Result<
        EndpointAddress,
        AddressError,
    >)
        ensures
            r is Err <==> address_check(namespace@, component@, endpoint@) is Err,
            r is Err ==> r->Err_0 == address_check(namespace@, component@, endpoint@)->Err_0,
            r is Ok ==> {
                &&& r->Ok_0.wf()
                &&& r->Ok_0.spec_namespace() == namespace@
                &&& r->Ok_0.spec_component() == component@
                &&& r->Ok_0.spec_name() == endpoint@
            },
    {
        if validate_address_segment(namespace).is_err() {
            return Err(AddressError::InvalidNamespace);
        }
        if validate_address_segment(component).is_err() {
            return Err(AddressError::InvalidComponent);
        }
        if validate_address_segment(endpoint).is_err() {
            return Err(AddressError::InvalidEndpoint);
        }
        Ok(
            EndpointAddress {
                address: join_address(namespace, component, endpoint),
                namespace: String::from_str(namespace),
                component: String::from_str(component),
                name: String::from_str(endpoint),
            },
        )
    }

    /// Parse `namespace.component.endpoint`: exactly three dot-separated segments, each valid.
    pub fn parse(s: &str) -> (r: Result<EndpointAddress, AddressError>)
        ensures
            split_dots(s@).len() != 3 ==> r == Err::<EndpointAddress, AddressError>(
                AddressError::InvalidFormat,
            ),
            split_dots(s@).len() == 3 ==> {
                let p = split_dots(s@);
                &&& r is Err <==> address_check(p[0], p[1], p[2]) is Err
                &&& r is Err ==> r->Err_0 == address_check(p[0], p[1], p[2])->Err_0
                &&& r is Ok ==> {
                    &&& r->Ok_0.wf()
                    &&& r->Ok_0.spec_address() == s@
                    &&& r->Ok_0.spec_namespace() == p[0]
                    &&& r->Ok_0.spec_component() == p[1]
                    &&& r->Ok_0.spec_name() == p[2]
                }
            },
    {
        let n = s.unicode_len();
        let mut done: Vec<String> = Vec::new();
        let mut cur = String::new();
        let mut i: usize = 0;
        while i < n
            invariant
                n == s@.len(),
                i <= n,
                split_dots(s@.take(i as int)) == done@.map_values(|x: String| x@).push(cur@),
            decreases n - i,
        {
            let c = s.get_char(i);
            proof {
                assert(s@.take(i + 1).drop_last() =~= s@.take(i as int));
            }
            if c == '.' {
                let ghost before = done@;
                let ghost old_cur = cur@;
                done.push(cur);
                cur = String::new();
                proof {
                    assert(done@.map_values(|x: String| x@) =~= before.map_values(|x: String| x@).push(
                        old_cur,
                    ));
                    assert(split_dots(s@.take(i + 1)) =~= done@.map_values(|x: String| x@).push(
                        cur@,
                    ));
                }
            } else {
                cur.push(c);
                proof {
                    assert(split_dots(s@.take(i + 1)) =~= done@.map_values(|x: String| x@).push(
                        cur@,
                    ));
                }
            }
            i = i + 1;
        }
        proof {
            assert(s@.take(n as int) =~= s@);
        }
        if done.len() != 2 {
            return Err(AddressError::InvalidFormat);
        }
        let r = EndpointAddress::new(done[0].as_str(), done[1].as_str(), cur.as_str());
        proof {
            let p = split_dots(s@);
            lemma_join_split_dots(s@);
            assert(p =~= seq![done@[0]@, done@[1]@, cur@]);
            assert(p.drop_last() =~= seq![p[0], p[1]]);
            assert(seq![p[0], p[1]].drop_last() =~= seq![p[0]]);
            assert(join_dots(seq![p[0]]) == p[0]);
            assert(join_dots(seq![p[0], p[1]]) == p[0] + seq!['.'] + p[1]);
            assert(join_dots(p) == join_dots(seq![p[0], p[1]]) + seq!['.'] + p[2]);
            assert(join_dots(p) =~= joined_address(p[0], p[1], p[2]));
            assert(p[0] == done@[0]@);
            assert(p[1] == done@[1]@);
            assert(p[2] == cur@);
        }
        r
    }

    /// The address as a string.
    pub fn as_str(&self) -> (r: &str)
        ensures
            r@ == self.spec_address(),
    {
        self.address.as_str()
    }

    /// The address as an owned string.
    pub fn to_string(&self) -> (r: String)
        ensures
            r@ == self.spec_address(),
    {
        String::from_str(self.address.as_str())
    }

    /// The address of an endpoint: its segments joined by dots, taken as they are.
    pub fn from_endpoint(endpoint: Endpoint) -> (r: EndpointAddress)
        ensures
            r.wf(),
            r.spec_namespace() == endpoint.namespace@,
            r.spec_component() == endpoint.component@,
            r.spec_name() == endpoint.name@,
    {
        let address = join_address(
            endpoint.namespace.as_str(),
            endpoint.component.as_str(),
            endpoint.name.as_str(),
        );
        EndpointAddress {
            address,
            namespace: endpoint.namespace,
            component: endpoint.component,
            name: endpoint.name,
        }
    }
}

impl Endpoint {
    /// The endpoint named by an address.
    pub fn from_address(addr: EndpointAddress) -> (r: Endpoint)
        ensures
            r.namespace@ == addr.spec_namespace(),
            r.component@ == addr.spec_component(),
            r.name@ == addr.spec_name(),
    {
        Endpoint { namespace: addr.namespace, component: addr.component, name: addr.name }
    }
}

impl PartialEq for EndpointAddress {
    fn eq(&self, other: &EndpointAddress) -> (r: bool) {
        self.address == other.address
    }
}

impl vstd::std_specs::cmp::PartialEqSpecImpl for EndpointAddress {
    open spec fn obeys_eq_spec() -> bool {
        true
    }

    open spec fn eq_spec(&self, other: &EndpointAddress) -> bool {
        self.spec_address() == other.spec_address()
    }
}

impl Eq for EndpointAddress {

}

impl From<Endpoint> for EndpointAddress {
    fn from(endpoint: Endpoint) -> (r: EndpointAddress) {
        EndpointAddress::from_endpoint(endpoint)
    }
}

impl vstd::std_specs::convert::FromSpecImpl<Endpoint> for EndpointAddress {
    open spec fn obeys_from_spec() -> bool {
        false
    }

    open spec fn from_spec(v: Endpoint) -> EndpointAddress {
        arbitrary()
    }
}

impl From<EndpointAddress> for Endpoint {
    fn from(addr: EndpointAddress) -> (r: Endpoint) {
        Endpoint::from_address(addr)
    }
}

impl vstd::std_specs::convert::FromSpecImpl<EndpointAddress> for Endpoint {
    open spec fn obeys_from_spec() -> bool {
        false
    }

    open spec fn from_spec(v: EndpointAddress) -> Endpoint {
        arbitrary()
    }
}

impl std::str::FromStr for EndpointAddress {
    type Err = AddressError;

    fn from_str(s: &str) -> (r: Result<EndpointAddress, AddressError>) {
        EndpointAddress::parse(s)
    }
}

} // verus!
