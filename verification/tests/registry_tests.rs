use sentinel::drift::detect_drift;
use sentinel::drift::new_tool_report;
use sentinel::drift::DriftLevel;
use sentinel::json::canonicalize;
use sentinel::json::key_lt_exec;
use sentinel::json::JsonValue;
use sentinel::merkle::MerkleTree;
use sentinel::registry::hash_tool_schema;
use sentinel::registry::RegistryGuard;
use sentinel::registry::ToolSchema;
use sentinel::registry::VerifyResult;

fn obj(entries: Vec<(&str, JsonValue)>) -> JsonValue {
    JsonValue::Object(
        entries
            .into_iter()
            .map(|(k, v)| (k.to_string(), v))
            .collect(),
    )
}

fn text(s: &str) -> JsonValue {
    JsonValue::Text(s.to_string())
}

fn make_tool(name: &str, desc: &str) -> ToolSchema {
    ToolSchema {
        name: name.to_string(),
        description: desc.to_string(),
        input_schema: obj(vec![("type", text("object"))]),
        output_schema: obj(vec![("type", text("string"))]),
    }
}

#[test]
fn test_drift_level_ordering() {
    assert!(DriftLevel::NoDrift < DriftLevel::Minor);
    assert!(DriftLevel::Minor < DriftLevel::Major);
    assert!(DriftLevel::Major < DriftLevel::Critical);
}

#[test]
fn test_verify_result_variants() {
    let valid = VerifyResult::Valid;
    let invalid = VerifyResult::Invalid {
        expected: vec![0u8; 32],
        actual: vec![1u8; 32],
    };
    let unknown = VerifyResult::Unknown;

    assert_eq!(valid, VerifyResult::Valid);
    assert_ne!(invalid, VerifyResult::Valid);
    assert_ne!(unknown, VerifyResult::Valid);
}

#[test]
fn test_utf16_sorting() {
    assert!(key_lt_exec("a", "b"));
    assert!(!key_lt_exec("b", "a"));
    assert!(!key_lt_exec("a", "a"));
}

#[test]
fn test_canonicalize_key_sorting() {
    let v = obj(vec![
        ("z", JsonValue::Int(1)),
        ("a", JsonValue::Int(2)),
        ("m", JsonValue::Int(3)),
    ]);
    assert_eq!(canonicalize(&v), "{\"a\":2,\"m\":3,\"z\":1}");
}

#[test]
fn test_canonicalize_scalars() {
    assert_eq!(canonicalize(&JsonValue::Null), "null");
    assert_eq!(canonicalize(&JsonValue::Bool(true)), "true");
    assert_eq!(canonicalize(&JsonValue::Bool(false)), "false");
    assert_eq!(canonicalize(&JsonValue::Int(0)), "0");
    assert_eq!(canonicalize(&JsonValue::Int(-1)), "-1");
    assert_eq!(canonicalize(&JsonValue::Int(123456789)), "123456789");
    assert_eq!(canonicalize(&JsonValue::UInt(18446744073709551615)), "18446744073709551615");
    assert_eq!(canonicalize(&text("he\"llo")), "\"he\\\"llo\"");
    assert_eq!(canonicalize(&text("line\nbreak")), "\"line\\nbreak\"");
    assert_eq!(
        canonicalize(&JsonValue::Array(vec![JsonValue::Int(1), JsonValue::Int(2)])),
        "[1,2]"
    );
}

// hash determinism on a concrete pair: objects equal up to key order
// hash identically
#[test]
fn test_hash_determinism_key_order() {
    let t1 = ToolSchema {
        name: "t".to_string(),
        description: "d".to_string(),
        input_schema: obj(vec![("b", JsonValue::Int(1)), ("a", JsonValue::Int(2))]),
        output_schema: JsonValue::Null,
    };
    let t2 = ToolSchema {
        name: "t".to_string(),
        description: "d".to_string(),
        input_schema: obj(vec![("a", JsonValue::Int(2)), ("b", JsonValue::Int(1))]),
        output_schema: JsonValue::Null,
    };
    assert_eq!(hash_tool_schema(&t1), hash_tool_schema(&t2));
}

// hash sensitivity on a concrete pair: any difference in canonical
// bytes gives a different digest
#[test]
fn test_hash_sensitivity() {
    let t1 = make_tool("t", "one");
    let t2 = make_tool("t", "two");
    assert_ne!(hash_tool_schema(&t1), hash_tool_schema(&t2));
}

#[test]
fn test_register_and_verify() {
    let mut registry = RegistryGuard::new();
    let tool = make_tool("test", "A test tool");

    let hash = registry.register_tool(&tool);
    assert_ne!(hash, vec![0u8; 32]);

    assert!(matches!(registry.verify_tool(&tool), VerifyResult::Valid));
}

#[test]
fn test_verify_unknown() {
    let registry = RegistryGuard::new();
    let tool = make_tool("unknown", "Not registered");

    assert!(matches!(registry.verify_tool(&tool), VerifyResult::Unknown));
}

#[test]
fn test_verify_invalid() {
    let mut registry = RegistryGuard::new();
    let original = make_tool("test", "Original description");

    registry.register_tool(&original);

    let modified = make_tool("test", "Modified description");
    match registry.verify_tool(&modified) {
        VerifyResult::Invalid { expected, actual } => {
            assert_ne!(expected, actual);
        }
        _ => panic!("expected an Invalid result"),
    }
}

#[test]
fn test_registry_merkle_proof() {
    let mut registry = RegistryGuard::new();

    registry.register_tool(&make_tool("a", "Tool A"));
    registry.register_tool(&make_tool("b", "Tool B"));

    let root = registry.get_root();

    let proof_a = registry.get_merkle_proof("a").unwrap();
    assert!(MerkleTree::verify_proof(&proof_a, &root));

    let proof_b = registry.get_merkle_proof("b").unwrap();
    assert!(MerkleTree::verify_proof(&proof_b, &root));
}

#[test]
fn test_root_changes() {
    let mut registry = RegistryGuard::new();

    let root1 = registry.get_root();

    registry.register_tool(&make_tool("a", "A"));
    let root2 = registry.get_root();

    registry.register_tool(&make_tool("b", "B"));
    let root3 = registry.get_root();

    assert_ne!(root1, root2);
    assert_ne!(root2, root3);
}

#[test]
fn test_list_and_contains() {
    let mut registry = RegistryGuard::new();

    assert!(registry.is_empty());
    assert!(!registry.contains("test"));

    registry.register_tool(&make_tool("test", "Test"));

    assert!(!registry.is_empty());
    assert!(registry.contains("test"));
    assert_eq!(registry.len(), 1);

    let tools = registry.list_tools();
    assert!(tools.contains(&"test".to_string()));
}

#[test]
fn test_remove() {
    let mut registry = RegistryGuard::new();

    registry.register_tool(&make_tool("test", "Test"));
    assert!(registry.contains("test"));

    let removed = registry.remove_tool("test");
    assert!(removed);
    assert!(!registry.contains("test"));

    let removed_again = registry.remove_tool("test");
    assert!(!removed_again);
}

#[test]
fn test_get_tool_hash() {
    let mut registry = RegistryGuard::new();
    let tool = make_tool("test", "Test");

    assert!(registry.get_tool_hash("test").is_none());

    let registered_hash = registry.register_tool(&tool);
    let retrieved_hash = registry.get_tool_hash("test").unwrap();

    assert_eq!(registered_hash, retrieved_hash);
}

// register then verify: the freshly registered schema is Valid
#[test]
fn test_register_then_verify_valid() {
    let mut registry = RegistryGuard::new();
    let tool = make_tool("round_trip", "same schema both times");
    registry.register_tool(&tool);
    assert!(matches!(registry.verify_tool(&tool), VerifyResult::Valid));
}

// registering twice in a row overwrites idempotently; the root moves
// only when the digest changed
#[test]
fn test_reregister_idempotent() {
    let mut registry = RegistryGuard::new();
    let tool = make_tool("twice", "same");

    registry.register_tool(&tool);
    let root1 = registry.get_root();

    registry.register_tool(&tool);
    let root2 = registry.get_root();
    assert_eq!(root1, root2);
    assert_eq!(registry.len(), 1);

    let changed = make_tool("twice", "different");
    registry.register_tool(&changed);
    let root3 = registry.get_root();
    assert_ne!(root2, root3);
    assert_eq!(registry.len(), 1);
}

#[test]
fn test_drift_identical_schemas() {
    let tool = make_tool("test", "A test tool");
    let report = detect_drift(&tool, &tool);
    assert_eq!(report.level, DriftLevel::NoDrift);
    assert!(report.changes.is_empty());
}

#[test]
fn test_drift_name_change_critical() {
    let old = make_tool("read_file", "Read a file");
    let new = make_tool("read_files", "Read a file");

    let report = detect_drift(&old, &new);
    assert_eq!(report.level, DriftLevel::Critical);
}

#[test]
fn test_drift_minor_description_change() {
    let old = make_tool("tool", "Read a file from disk");
    let new = make_tool("tool", "Read a file from the disk");

    let report = detect_drift(&old, &new);
    assert_eq!(report.level, DriftLevel::Minor);
}

#[test]
fn test_drift_major_description_change() {
    let old = make_tool("tool", "Read a file from disk");
    let new = make_tool("tool", "Execute arbitrary commands");

    let report = detect_drift(&old, &new);
    assert!(report.level >= DriftLevel::Major);
}

#[test]
fn test_drift_type_change_is_critical() {
    let mut old = make_tool("tool", "A tool");
    let mut new = make_tool("tool", "A tool");
    old.input_schema = obj(vec![("type", text("object"))]);
    new.input_schema = obj(vec![("type", text("array"))]);

    let report = detect_drift(&old, &new);
    assert_eq!(report.level, DriftLevel::Critical);
}

#[test]
fn test_drift_removed_required_is_critical() {
    let mut old = make_tool("tool", "A tool");
    let mut new = make_tool("tool", "A tool");
    old.input_schema = obj(vec![
        ("type", text("object")),
        ("properties", obj(vec![("path", obj(vec![("type", text("string"))]))])),
        ("required", JsonValue::Array(vec![text("path")])),
    ]);
    new.input_schema = obj(vec![
        ("type", text("object")),
        ("properties", obj(vec![])),
    ]);

    let report = detect_drift(&old, &new);
    assert_eq!(report.level, DriftLevel::Critical);
}

// drift monotonicity on a concrete case: the critical removal keeps the
// report Critical although minor changes co-occur
#[test]
fn test_drift_critical_dominates() {
    let mut old = make_tool("tool", "A tool");
    let mut new = make_tool("tool", "A modified tool description");
    old.input_schema = obj(vec![
        ("type", text("object")),
        ("properties", obj(vec![("path", obj(vec![("type", text("string"))]))])),
        ("required", JsonValue::Array(vec![text("path")])),
    ]);
    new.input_schema = obj(vec![
        ("type", text("object")),
        ("properties", obj(vec![("encoding", obj(vec![("type", text("string"))]))])),
    ]);

    let report = detect_drift(&old, &new);
    assert_eq!(report.level, DriftLevel::Critical);
}

#[test]
fn test_drift_new_required_property_is_major() {
    let mut old = make_tool("tool", "A tool");
    let mut new = make_tool("tool", "A tool");
    old.input_schema = obj(vec![
        ("type", text("object")),
        ("properties", obj(vec![("path", obj(vec![("type", text("string"))]))])),
    ]);
    new.input_schema = obj(vec![
        ("type", text("object")),
        ("properties", obj(vec![
            ("path", obj(vec![("type", text("string"))])),
            ("force", obj(vec![("type", text("boolean"))])),
        ])),
        ("required", JsonValue::Array(vec![text("force")])),
    ]);

    let report = detect_drift(&old, &new);
    assert!(report.level >= DriftLevel::Major);
    assert!(report.changes.iter().any(|c| c.contains("force")));
}

#[test]
fn test_drift_new_optional_property_is_minor() {
    let mut old = make_tool("tool", "A tool");
    let mut new = make_tool("tool", "A tool");
    old.input_schema = obj(vec![
        ("type", text("object")),
        ("properties", obj(vec![("path", obj(vec![("type", text("string"))]))])),
    ]);
    new.input_schema = obj(vec![
        ("type", text("object")),
        ("properties", obj(vec![
            ("path", obj(vec![("type", text("string"))])),
            ("encoding", obj(vec![("type", text("string"))])),
        ])),
    ]);

    let report = detect_drift(&old, &new);
    assert_eq!(report.level, DriftLevel::Minor);
}

#[test]
fn test_new_tool_report() {
    let tool = make_tool("new_tool", "A new tool");
    let report = new_tool_report(&tool);

    assert_eq!(report.level, DriftLevel::NoDrift);
    assert!(report.old_hash.is_none());
}

#[test]
fn test_registry_detect_drift() {
    let mut registry = RegistryGuard::new();
    let original = make_tool("test", "Original");

    registry.register_tool(&original);

    let modified = make_tool("test", "Modified description here");
    let report = registry.detect_drift(&modified);

    assert!(report.level >= DriftLevel::Minor);
    assert!(!report.changes.is_empty());
}

#[test]
fn test_drift_removed_optional_property_is_major() {
    let old_schema = ToolSchema {
        name: "tool".to_string(),
        description: "d".to_string(),
        input_schema: obj(vec![
            ("type", text("object")),
            (
                "properties",
                obj(vec![
                    ("keep", obj(vec![("type", text("string"))])),
                    ("extra", obj(vec![("type", text("string"))])),
                ]),
            ),
        ]),
        output_schema: obj(vec![("type", text("string"))]),
    };
    let new_schema = ToolSchema {
        name: "tool".to_string(),
        description: "d".to_string(),
        input_schema: obj(vec![
            ("type", text("object")),
            ("properties", obj(vec![("keep", obj(vec![("type", text("string"))]))])),
        ]),
        output_schema: obj(vec![("type", text("string"))]),
    };
    let report = detect_drift(&old_schema, &new_schema);
    assert_eq!(report.level, DriftLevel::Major);
}

#[test]
fn test_drift_newly_required_property_is_major() {
    let old_schema = ToolSchema {
        name: "tool".to_string(),
        description: "d".to_string(),
        input_schema: obj(vec![
            ("type", text("object")),
            ("properties", obj(vec![("field", obj(vec![("type", text("string"))]))])),
        ]),
        output_schema: obj(vec![("type", text("string"))]),
    };
    let new_schema = ToolSchema {
        name: "tool".to_string(),
        description: "d".to_string(),
        input_schema: obj(vec![
            ("type", text("object")),
            ("properties", obj(vec![("field", obj(vec![("type", text("string"))]))])),
            ("required", JsonValue::Array(vec![text("field")])),
        ]),
        output_schema: obj(vec![("type", text("string"))]),
    };
    let report = detect_drift(&old_schema, &new_schema);
    assert_eq!(report.level, DriftLevel::Major);
}
