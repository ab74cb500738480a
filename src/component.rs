use vstd::prelude::*;

use crate::names::{
    bits_of, hex_of, is_address_segment, is_allowed_name, lower_hex, slug_of, slugify,
    validate_address_segment, validate_allowed_chars, ValidationError,
};

verus! {

/// Lowercase hexadecimal of an instance (lease) id.
pub open spec fn id_hex(lease_id: i64) -> Seq<char> {
    hex_of(bits_of(lease_id))
}

/// A namespace: a named group of components.
#[derive(Clone, Debug)]
pub struct Namespace {
    name: String,
}

/// A discoverable unit of a distributed application, in a namespace.
#[derive(Clone, Debug)]
pub struct Component {
    name: String,
    namespace: String,
}

/// A network-reachable endpoint hosted by a component.
#[derive(Clone, Debug)]
pub struct Endpoint {
    component: Component,
    name: String,
}

/// A function hosted by a component, addressed through the component's service.
#[derive(Clone, Debug)]
pub struct Function {
    component: Component,
    name: String,
}

fn join3(a: &str, sep: &str, b: &str) -> (r: String)
    ensures
        r@ == a@ + sep@ + b@,
{
    let mut s = String::from_str(a);
    s.append(sep);
    s.append(b);
    s
}

impl Namespace {
    pub closed spec fn spec_name(&self) -> Seq<char> {
        self.name@
    }

    /// A namespace with this name, if the name is allowed.
    pub fn new(name: String) -> (r: Result<Namespace, ValidationError>)
        ensures
            r is Ok <==> is_allowed_name(name@),
            r is Ok ==> r->Ok_0.spec_name() == name@,
    {
        validate_allowed_chars(name.as_str())?;
        Ok(Namespace { name })
    }

    pub fn name(&self) -> (r: &str)
        ensures
            r@ == self.spec_name(),
    {
        self.name.as_str()
    }

    /// The component `name` of this namespace, if the name is allowed.
    pub fn component(&self, name: &str) -> (r: Result<Component, ValidationError>)
        ensures
            r is Ok <==> is_allowed_name(name@) && is_allowed_name(self.spec_name()),
            r is Ok ==> r->Ok_0.spec_name() == name@ && r->Ok_0.spec_namespace()
                == self.spec_name(),
    {
        Component::new(self.name.as_str(), name)
    }

    /// The subject on which events of the namespace are published.
    pub fn subject(&self) -> (r: String)
        ensures
            r@ == "namespace"@ + "."@ + self.spec_name(),
    {
        join3("namespace", ".", self.name.as_str())
    }
}

impl Component {
    pub closed spec fn spec_name(&self) -> Seq<char> {
        self.name@
    }

    pub closed spec fn spec_namespace(&self) -> Seq<char> {
        self.namespace@
    }

    /// Same name and namespace.
    pub open spec fn same_as(&self, other: Component) -> bool {
        self.spec_name() == other.spec_name() && self.spec_namespace() == other.spec_namespace()
    }

    /// `namespace/components/name`
    pub open spec fn spec_etcd_path(&self) -> Seq<char> {
        self.spec_namespace() + "/components/"@ + self.spec_name()
    }

    /// The slug of `namespace|name`.
    pub open spec fn spec_service_name(&self) -> Seq<char> {
        slug_of(self.spec_namespace() + "|"@ + self.spec_name())
    }

    /// `namespace/name`
    pub open spec fn spec_path(&self) -> Seq<char> {
        self.spec_namespace() + "/"@ + self.spec_name()
    }

    /// Component `name` in `namespace`, if both names are allowed.
    pub fn new(namespace: &str, name: &str) -> (r: Result<Component, ValidationError>)
        ensures
            r is Ok <==> is_allowed_name(name@) && is_allowed_name(namespace@),
            r is Ok ==> r->Ok_0.spec_name() == name@ && r->Ok_0.spec_namespace() == namespace@,
    {
        validate_allowed_chars(name)?;
        validate_allowed_chars(namespace)?;
        Ok(Component { name: String::from_str(name), namespace: String::from_str(namespace) })
    }

    pub fn name(&self) -> (r: &str)
        ensures
            r@ == self.spec_name(),
    {
        self.name.as_str()
    }

    pub fn namespace(&self) -> (r: &str)
        ensures
            r@ == self.spec_namespace(),
    {
        self.namespace.as_str()
    }

    /// The key prefix of the component in the discovery store.
    pub fn etcd_path(&self) -> (r: String)
        ensures
            r@ == self.spec_etcd_path(),
    {
        join3(self.namespace.as_str(), "/components/", self.name.as_str())
    }

    /// The name of the component's service: the slug of `namespace|name`.
    pub fn service_name(&self) -> (r: String)
        ensures
            r@ == self.spec_service_name(),
    {
        let joined = join3(self.namespace.as_str(), "|", self.name.as_str());
        slugify(joined.as_str())
    }

    /// The subject of the component's events called `name`, e.g. its KV events.
    pub fn event_subject(&self, name: &str) -> (r: String)
        ensures
            r@ == self.spec_service_name() + ".events."@ + name@,
    {
        let service = self.service_name();
        join3(service.as_str(), ".events.", name)
    }

    pub fn path(&self) -> (r: String)
        ensures
            r@ == self.spec_path(),
    {
        join3(self.namespace.as_str(), "/", self.name.as_str())
    }

    /// The slug of the component's key prefix.
    pub fn slug(&self) -> (r: String)
        ensures
            r@ == slug_of(self.spec_etcd_path()),
    {
        let path = self.etcd_path();
        slugify(path.as_str())
    }

    /// The endpoint `name` of this component, if the name is allowed.
    pub fn endpoint(&self, name: &str) -> (r: Result<Endpoint, ValidationError>)
        ensures
            r is Ok <==> is_allowed_name(name@),
            r is Ok ==> r->Ok_0.spec_name() == name@ && r->Ok_0.spec_component().same_as(*self),
    {
        validate_allowed_chars(name)?;
        Ok(Endpoint { component: self.clone_component(), name: String::from_str(name) })
    }

    /// The function `name` of this component, if the name is allowed.
    pub fn function(&self, name: &str) -> (r: Result<Function, ValidationError>)
        ensures
            r is Ok <==> is_address_segment(name@),
            r is Ok ==> r->Ok_0.spec_name() == name@ && r->Ok_0.spec_component().same_as(*self),
    {
        Function::new(self.clone_component(), String::from_str(name))
    }

    fn clone_component(&self) -> (r: Component)
        ensures
            r.same_as(*self),
    {
        let r = Component {
            name: String::from_str(self.name.as_str()),
            namespace: String::from_str(self.namespace.as_str()),
        };
        r
    }
}

impl Endpoint {
    pub closed spec fn spec_name(&self) -> Seq<char> {
        self.name@
    }

    pub closed spec fn spec_component(&self) -> Component {
        self.component
    }

    /// `name-<lease id in hex>`
    pub open spec fn spec_name_with_id(&self, lease_id: i64) -> Seq<char> {
        self.spec_name() + "-"@ + id_hex(lease_id)
    }

    /// `<component etcd path>/name`
    pub open spec fn spec_etcd_path(&self) -> Seq<char> {
        self.spec_component().spec_etcd_path() + "/"@ + self.spec_name()
    }

    pub fn name(&self) -> (r: &str)
        ensures
            r@ == self.spec_name(),
    {
        self.name.as_str()
    }

    pub fn component(&self) -> (r: &Component)
        ensures
            *r == self.spec_component(),
    {
        &self.component
    }

    pub fn etcd_path(&self) -> (r: String)
        ensures
            r@ == self.spec_etcd_path(),
    {
        let base = self.component.etcd_path();
        join3(base.as_str(), "/", self.name.as_str())
    }

    /// The key of one instance of the endpoint: `<etcd path>:<lease id in hex>`.
    pub fn etcd_path_with_id(&self, lease_id: i64) -> (r: String)
        ensures
            r@ == self.spec_etcd_path() + ":"@ + id_hex(lease_id),
    {
        let base = self.etcd_path();
        let id = lower_hex(lease_id);
        join3(base.as_str(), ":", id.as_str())
    }

    pub fn name_with_id(&self, lease_id: i64) -> (r: String)
        ensures
            r@ == self.spec_name_with_id(lease_id),
    {
        let id = lower_hex(lease_id);
        join3(self.name.as_str(), "-", id.as_str())
    }

    /// The subject of one instance: `<component slug>.<name>-<lease id in hex>`.
    pub fn subject(&self, lease_id: i64) -> (r: String)
        ensures
            r@ == slug_of(self.spec_component().spec_etcd_path()) + "."@ + self.spec_name_with_id(
                lease_id,
            ),
    {
        let slug = self.component.slug();
        let name = self.name_with_id(lease_id);
        join3(slug.as_str(), ".", name.as_str())
    }
}

impl Function {
    pub closed spec fn spec_name(&self) -> Seq<char> {
        self.name@
    }

    pub closed spec fn spec_component(&self) -> Component {
        self.component
    }

    /// `name-<lease id in hex>`
    pub open spec fn spec_name_with_id(&self, lease_id: i64) -> Seq<char> {
        self.spec_name() + "-"@ + id_hex(lease_id)
    }

    /// `<component etcd path>/name`
    pub open spec fn spec_etcd_path(&self) -> Seq<char> {
        self.spec_component().spec_etcd_path() + "/"@ + self.spec_name()
    }

    /// Function `name` of `component`, if the name is a valid address segment: a lowercase
    /// letter first, a letter or digit last, at least two characters.
    pub fn new(component: Component, name: String) -> (r: Result<Function, ValidationError>)
        ensures
            r is Ok <==> is_address_segment(name@),
            r is Ok ==> r->Ok_0.spec_name() == name@ && r->Ok_0.spec_component() == component,
    {
        validate_address_segment(name.as_str())?;
        Ok(Function { component, name })
    }

    pub fn name(&self) -> (r: &str)
        ensures
            r@ == self.spec_name(),
    {
        self.name.as_str()
    }

    pub fn component(&self) -> (r: &Component)
        ensures
            *r == self.spec_component(),
    {
        &self.component
    }

    /// `<component path>/name`
    pub fn path(&self) -> (r: String)
        ensures
            r@ == self.spec_component().spec_path() + "/"@ + self.spec_name(),
    {
        let base = self.component.path();
        join3(base.as_str(), "/", self.name.as_str())
    }

    pub fn etcd_path(&self) -> (r: String)
        ensures
            r@ == self.spec_etcd_path(),
    {
        let base = self.component.etcd_path();
        join3(base.as_str(), "/", self.name.as_str())
    }

    /// `<etcd path>:<lease id in hex>`
    pub fn etcd_path_with_id(&self, lease_id: i64) -> (r: String)
        ensures
            r@ == self.spec_etcd_path() + ":"@ + id_hex(lease_id),
    {
        let base = self.etcd_path();
        let id = lower_hex(lease_id);
        join3(base.as_str(), ":", id.as_str())
    }

    pub fn name_with_id(&self, lease_id: i64) -> (r: String)
        ensures
            r@ == self.spec_name_with_id(lease_id),
    {
        let id = lower_hex(lease_id);
        join3(self.name.as_str(), "-", id.as_str())
    }

    /// `<service name>.<name>`
    pub fn subject(&self) -> (r: String)
        ensures
            r@ == self.spec_component().spec_service_name() + "."@ + self.spec_name(),
    {
        let service = self.component.service_name();
        join3(service.as_str(), ".", self.name.as_str())
    }

    /// The subject of one instance: `<service name>.<name>-<lease id in hex>`.
    pub fn subject_to(&self, lease_id: i64) -> (r: String)
        ensures
            r@ == self.spec_component().spec_service_name() + "."@ + self.spec_name_with_id(
                lease_id,
            ),
    {
        let service = self.component.service_name();
        let name = self.name_with_id(lease_id);
        join3(service.as_str(), ".", name.as_str())
    }
}

} // verus!

verus! {

/// The transport on which an endpoint instance is reachable.
#[derive(Clone, Debug, PartialEq, Eq)]
pub enum TransportType {
    NatsTcp(String),
}

/// What the discovery store records for one endpoint instance.
#[derive(Clone, Debug)]
pub struct ComponentEndpointInfo {
    pub component: String,
    pub endpoint: String,
    pub namespace: String,
    pub lease_id: i64,
    pub transport: TransportType,
}

} // verus!
