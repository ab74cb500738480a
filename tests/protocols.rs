use kv_router::protocols::{
    AddressError, Component, Endpoint, EndpointAddress, ModelMetaData, RouterType,
};

#[test]
fn test_component_creation() {
    let component = Component {
        name: "test_name".to_string(),
        namespace: "test_namespace".to_string(),
    };

    assert_eq!(component.name, "test_name");
    assert_eq!(component.namespace, "test_namespace");
}

#[test]
fn test_endpoint_creation() {
    let endpoint = Endpoint {
        name: "test_endpoint".to_string(),
        component: "test_component".to_string(),
        namespace: "test_namespace".to_string(),
    };

    assert_eq!(endpoint.name, "test_endpoint");
    assert_eq!(endpoint.component, "test_component");
    assert_eq!(endpoint.namespace, "test_namespace");
}

#[test]
fn test_router_type_default() {
    let default_router = RouterType::default();
    assert_eq!(default_router, RouterType::PushRandom);
}

#[test]
fn test_model_metadata_creation() {
    let component = Component {
        name: "test_component".to_string(),
        namespace: "test_namespace".to_string(),
    };

    let metadata = ModelMetaData {
        name: "test_model".to_string(),
        component,
        router_type: RouterType::PushRoundRobin,
    };

    assert_eq!(metadata.name, "test_model");
    assert_eq!(metadata.component.name, "test_component");
    assert_eq!(metadata.component.namespace, "test_namespace");
    assert_eq!(metadata.router_type, RouterType::PushRoundRobin);
}

#[test]
fn test_valid_endpoint_address() {
    let valid_cases = vec![
        ("ns1", "comp1", "ep1"),
        ("my-ns", "my-comp", "my-ep"),
        ("ns_1", "comp_1", "ep_1"),
        ("ns-1", "comp-1", "ep-1"),
    ];

    for (ns, comp, ep) in valid_cases {
        let addr = EndpointAddress::new(ns, comp, ep);
        assert!(addr.is_ok());
        let addr = addr.unwrap();
        assert_eq!(addr.to_string(), format!("{}.{}.{}", ns, comp, ep));
    }
}

#[test]
fn test_invalid_endpoint_address() {
    let invalid_cases = vec![
        ("NS1", "comp1", "ep1"),    // uppercase not allowed
        ("my ns", "comp1", "ep1"),  // spaces not allowed
        ("my.ns", "comp1", "ep1"),  // dots not allowed in segments
        ("my@ns", "comp1", "ep1"),  // special chars not allowed
        ("my-ns", "_comp1", "ep1"), // leading underscore not allowed
        ("", "comp1", "ep1"),       // empty not allowed
    ];

    for (ns, comp, ep) in invalid_cases {
        let addr = EndpointAddress::new(ns, comp, ep);
        assert!(
            addr.is_err(),
            "Expected error for invalid address: {}.{}.{}",
            ns,
            comp,
            ep
        );
    }
}

#[test]
fn test_parse_endpoint_address() {
    let valid = "ns1.comp1.ep1";
    let addr = valid.parse::<EndpointAddress>();
    assert!(addr.is_ok());
    assert_eq!(addr.unwrap().to_string(), valid);

    let invalid = "ns1.comp1"; // missing segment
    let addr = invalid.parse::<EndpointAddress>();
    assert!(addr.is_err());
}

#[test]
fn test_endpoint_conversions() {
    let addr = EndpointAddress::new("ns1", "comp1", "ep1").unwrap();

    // Convert to Endpoint
    let endpoint: Endpoint = addr.clone().into();
    assert_eq!(endpoint.namespace, "ns1");
    assert_eq!(endpoint.component, "comp1");
    assert_eq!(endpoint.name, "ep1");

    // Convert back to EndpointAddress
    let converted_addr: EndpointAddress = endpoint.into();
    assert_eq!(converted_addr, addr);
}

#[test]
fn address_errors_name_the_first_bad_segment() {
    assert_eq!(
        EndpointAddress::new("NS", "comp1", "ep1").unwrap_err(),
        AddressError::InvalidNamespace
    );
    assert_eq!(
        EndpointAddress::new("ns1", "c", "ep1").unwrap_err(),
        AddressError::InvalidComponent
    );
    assert_eq!(
        EndpointAddress::new("ns1", "comp1", "ep-").unwrap_err(),
        AddressError::InvalidEndpoint
    );
    assert_eq!(
        "a1.b1.c1.d1".parse::<EndpointAddress>().unwrap_err(),
        AddressError::InvalidFormat
    );
    assert_eq!(
        "ns1..ep1".parse::<EndpointAddress>().unwrap_err(),
        AddressError::InvalidComponent
    );
}

#[test]
fn address_parts_round_trip() {
    let addr: EndpointAddress = "my-ns.my_comp.ep-2".parse().unwrap();
    assert_eq!(addr.as_str(), "my-ns.my_comp.ep-2");
    let endpoint: Endpoint = addr.into();
    assert_eq!(endpoint.namespace, "my-ns");
    assert_eq!(endpoint.component, "my_comp");
    assert_eq!(endpoint.name, "ep-2");
}
