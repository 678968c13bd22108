use openshell::records::{draft_chunk, ObjectForTest, ObjectId, ObjectName, ObjectType};

#[test]
fn draft_chunk_has_its_defaults() {
    let chunk = draft_chunk("dc1", "sandbox-1", "api.example.com", 443, "/usr/bin/curl");
    assert_eq!(chunk.id, "dc1");
    assert_eq!(chunk.sandbox_id, "sandbox-1");
    assert_eq!(chunk.draft_version, 1);
    assert_eq!(chunk.status, "pending");
    assert_eq!(chunk.rule_name, "allow-api.example.com-443");
    assert_eq!(chunk.proposed_rule, b"rule-payload");
    assert_eq!(chunk.rationale, "agent requested this endpoint");
    assert_eq!(chunk.security_notes, "low risk");
    assert!((f64::from(chunk.confidence_percent) / 100.0 - 0.9).abs() < f64::EPSILON);
    assert_eq!(chunk.host, "api.example.com");
    assert_eq!(chunk.port, 443);
    assert_eq!(chunk.binary, "/usr/bin/curl");
    assert_eq!(chunk.hit_count, 1);
    assert_eq!(chunk.first_seen_ms, 1000);
    assert_eq!(chunk.last_seen_ms, 1000);
    assert_eq!(chunk.created_at_ms, 1000);
    assert_eq!(chunk.decided_at_ms, None);
}

#[test]
fn draft_chunk_names_any_port() {
    for port in [0, 7, 10, 65535, -1, i32::MIN, i32::MAX] {
        let chunk = draft_chunk("a", "b", "h", port, "c");
        assert_eq!(chunk.rule_name, format!("allow-h-{port}"));
    }
}

#[test]
fn object_has_type_id_and_name() {
    let object = ObjectForTest {
        id: "abc".to_string(),
        name: "test-object".to_string(),
        count: 42,
    };
    assert_eq!(ObjectForTest::object_type(), "object_for_test");
    assert_eq!(object.object_id(), "abc");
    assert_eq!(object.object_name(), "test-object");
    assert_eq!(object.count, 42);
}

#[test]
fn decimal_text() {
    for n in [0, 9, 10, 99, 100, 12345, u64::MAX] {
        let mut text = String::from("n=");
        openshell::text::append_decimal(&mut text, n);
        assert_eq!(text, format!("n={n}"));
    }
    for n in [0, -1, 10, -10, i32::MAX, i32::MIN] {
        let mut text = String::new();
        openshell::text::append_signed_decimal(&mut text, n);
        assert_eq!(text, format!("{n}"));
    }
}
