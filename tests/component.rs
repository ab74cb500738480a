use kv_router::component::{Component, Function, Namespace};
use kv_router::names::{
    slugify, validate_address_segment, validate_allowed_chars, worker_id_from_subject,
};

#[test]
fn test_valid_names() {
    // Valid strings
    let valid_inputs = vec![
        "abc",       // Lowercase letters
        "abc123",    // Letters and numbers
        "a-b-c",     // Letters with hyphens
        "a_b_c",     // Letters with underscores
        "a-b_c-123", // Mixed valid characters
        "a",         // Single character
        "a_b",       // Short valid pattern
        "123456",    // Only numbers
    ];

    for input in valid_inputs {
        let result = validate_allowed_chars(input);
        assert!(result.is_ok(), "Expected '{}' to be valid", input);
    }
}

#[test]
fn test_invalid_names() {
    // Invalid strings
    let invalid_inputs = vec![
        "abc!",     // Invalid character `!`
        "abc@",     // Invalid character `@`
        "123$",     // Invalid character `$`
        "foo.bar",  // Invalid character `.`
        "foo/bar",  // Invalid character `/`
        "foo\\bar", // Invalid character `\`
        "abc#",     // Invalid character `#`
        "abc def",  // Spaces are not allowed
        "foo,",     // Invalid character `,`
        "",         // Empty string
    ];

    for input in invalid_inputs {
        let result = validate_allowed_chars(input);
        assert!(result.is_err(), "Expected '{}' to be invalid", input);
    }
}

#[test]
fn test_struct_validation_valid() {
    let name = "valid-name_123".to_string();
    assert!(validate_allowed_chars(&name).is_ok());
}

#[test]
fn test_struct_validation_invalid() {
    let name = "invalid!name".to_string();
    let result = validate_allowed_chars(&name);
    assert!(result.is_err());

    if let Err(error) = result {
        assert_eq!(error.code, "invalid_characters");
    }
}

#[test]
fn test_edge_cases() {
    // Edge cases
    let edge_inputs = vec![
        ("-", false),  // Single hyphen
        ("_", true),   // Single underscore
        ("a-", false), // Letter with hyphen
        ("--", false), // Repeated hyphens
        ("-a", false), // Hyphen at the beginning
        ("a-", false), // Hyphen at the end
    ];

    for (input, expected_validity) in edge_inputs {
        let result = validate_allowed_chars(input);
        if expected_validity {
            assert!(result.is_ok(), "Expected '{}' to be valid", input);
        } else {
            assert!(result.is_err(), "Expected '{}' to be invalid", input);
        }
    }
}

#[test]
fn names_allow_runs_of_hyphens_between_words() {
    assert!(validate_allowed_chars("a--b").is_ok());
    assert!(validate_allowed_chars("A").is_err());
}

#[test]
fn address_segments_are_stricter_than_names() {
    assert!(validate_address_segment("ab").is_ok());
    assert!(validate_address_segment("a").is_err());
    assert!(validate_address_segment("1a").is_err());
    assert!(validate_address_segment("a_").is_err());
    assert_eq!(
        validate_address_segment("a!b").unwrap_err().code,
        "invalid_characters"
    );
}

#[test]
fn slug_replaces_disallowed_characters() {
    assert_eq!(slugify("ns|Comp/x.y"), "ns_comp_x_y");
    assert_eq!(slugify("ok-name_1"), "ok-name_1");
}

#[test]
fn component_paths_and_subjects() {
    let ns = Namespace::new("dynamo".to_string()).unwrap();
    assert_eq!(ns.name(), "dynamo");
    assert_eq!(ns.subject(), "namespace.dynamo");
    let comp = ns.component("vllm-worker").unwrap();
    assert_eq!(comp.etcd_path(), "dynamo/components/vllm-worker");
    assert_eq!(comp.path(), "dynamo/vllm-worker");
    assert_eq!(comp.service_name(), "dynamo_vllm-worker");
    assert_eq!(comp.event_subject("kv_events"), "dynamo_vllm-worker.events.kv_events");
    assert_eq!(comp.slug(), "dynamo_components_vllm-worker");
    assert!(ns.component("bad name").is_err());
    assert!(Namespace::new("Bad".to_string()).is_err());
}

#[test]
fn endpoint_paths_and_subjects() {
    let comp = Component::new("ns", "comp").unwrap();
    let ep = comp.endpoint("generate").unwrap();
    assert_eq!(ep.name(), "generate");
    assert_eq!(ep.component().name(), "comp");
    assert_eq!(ep.etcd_path(), "ns/components/comp/generate");
    assert_eq!(ep.etcd_path_with_id(0x1a2b), "ns/components/comp/generate:1a2b");
    assert_eq!(ep.name_with_id(255), "generate-ff");
    assert_eq!(ep.name_with_id(-1), "generate-ffffffffffffffff");
    assert_eq!(ep.subject(16), "ns_components_comp.generate-10");
    assert!(comp.endpoint("gen!").is_err());
}

#[test]
fn function_paths_and_subjects() {
    let comp = Component::new("ns", "comp").unwrap();
    let f = comp.function("embed").unwrap();
    assert_eq!(f.name(), "embed");
    assert_eq!(f.component().namespace(), "ns");
    assert_eq!(f.path(), "ns/comp/embed");
    assert_eq!(f.etcd_path(), "ns/components/comp/embed");
    assert_eq!(f.etcd_path_with_id(0), "ns/components/comp/embed:0");
    assert_eq!(f.name_with_id(10), "embed-a");
    assert_eq!(f.subject(), "ns_comp.embed");
    assert_eq!(f.subject_to(4096), "ns_comp.embed-1000");
    assert!(Function::new(comp.clone(), "-x".to_string()).is_err());
    assert!(Function::new(comp.clone(), "a".to_string()).is_err());
    assert!(Function::new(comp.clone(), "1a".to_string()).is_err());
    assert!(Function::new(comp.clone(), "a-".to_string()).is_err());
    assert!(Function::new(comp.clone(), "a-b_c1".to_string()).is_ok());
    assert!(comp.function("a").is_err());
    assert!(comp.function("ab").is_ok());
}

#[test]
fn worker_id_is_read_back_from_subject() {
    let comp = Component::new("ns", "comp").unwrap();
    let ep = comp.endpoint("generate").unwrap();
    assert_eq!(worker_id_from_subject(&ep.subject(0x7f3a)), Some(0x7f3a));
    assert_eq!(worker_id_from_subject("ns_comp.generate-DEAD"), Some(0xdead));
    assert_eq!(worker_id_from_subject("abc"), Some(0xabc));
    assert_eq!(worker_id_from_subject("generate-"), None);
    assert_eq!(worker_id_from_subject("generate-12g"), None);
    assert_eq!(worker_id_from_subject("x-7fffffffffffffff"), Some(i64::MAX));
    assert_eq!(worker_id_from_subject(&ep.subject(-1)), None);
}

#[test]
fn kv_events_subject_of_component() {
    let comp = Component::new("dynamo", "backend").unwrap();
    assert_eq!(
        kv_router::router::kv_event_subject(&comp),
        "dynamo_backend.events.kv_events"
    );
}
