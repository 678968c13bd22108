//! Records that the server keeps.

use crate::text::append_signed_decimal;
use vstd::prelude::*;

verus! {

/// A kind of stored object.
pub trait ObjectType {
    /// The name under which objects of this kind are stored.
    fn object_type() -> &'static str;
}

/// A stored object with an id.
pub trait ObjectId {
    fn object_id(&self) -> &str;
}

/// A stored object with a name.
pub trait ObjectName {
    fn object_name(&self) -> &str;
}

/// A small object to store.
#[derive(Debug, Clone)]
pub struct ObjectForTest {
    pub id: String,
    pub name: String,
    pub count: u32,
}

impl ObjectType for ObjectForTest {
    fn object_type() -> (r: &'static str)
        ensures
            r@ == "object_for_test"@,
    {
        "object_for_test"
    }
}

impl ObjectId for ObjectForTest {
    fn object_id(&self) -> (r: &str)
        ensures
            r@ == self.id@,
    {
        self.id.as_str()
    }
}

impl ObjectName for ObjectForTest {
    fn object_name(&self) -> (r: &str)
        ensures
            r@ == self.name@,
    {
        self.name.as_str()
    }
}

/// A proposed network rule that waits for a decision.
#[derive(Debug, Clone)]
pub struct DraftChunkRecord {
    pub id: String,
    pub sandbox_id: String,
    pub draft_version: i64,
    pub status: String,
    pub rule_name: String,
    pub proposed_rule: Vec<u8>,
    pub rationale: String,
    pub security_notes: String,
    /// Confidence in the proposal, in percent.
    pub confidence_percent: u8,
    pub created_at_ms: i64,
    pub decided_at_ms: Option<i64>,
    pub host: String,
    pub port: i32,
    pub binary: String,
    pub hit_count: i32,
    pub first_seen_ms: i64,
    pub last_seen_ms: i64,
}

/// The name of a rule that allows an endpoint.
pub open spec fn rule_name(host: Seq<char>, port: int) -> Seq<char> {
    "allow-"@ + host + "-"@ + crate::text::signed_decimal(port)
}

/// The bytes of `rule-payload`.
pub open spec fn rule_payload() -> Seq<u8> {
    seq![114, 117, 108, 101, 45, 112, 97, 121, 108, 111, 97, 100]
}

/// Build a `DraftChunkRecord` with sensible defaults, overriding the fields that
/// matter for dedup and lifecycle.
pub fn draft_chunk(id: &str, sandbox_id: &str, host: &str, port: i32, binary: &str) -> (r:
    DraftChunkRecord)
    ensures
        r.id@ == id@,
        r.sandbox_id@ == sandbox_id@,
        r.draft_version == 1,
        r.status@ == "pending"@,
        r.rule_name@ == rule_name(host@, port as int),
        r.proposed_rule@ == rule_payload(),
        r.rationale@ == "agent requested this endpoint"@,
        r.security_notes@ == "low risk"@,
        r.confidence_percent == 90,
        r.created_at_ms == 1000,
        r.decided_at_ms is None,
        r.host@ == host@,
        r.port == port,
        r.binary@ == binary@,
        r.hit_count == 1,
        r.first_seen_ms == 1000,
        r.last_seen_ms == 1000,
{
    let mut rule_name = String::new();
    rule_name.append("allow-");
    rule_name.append(host);
    rule_name.append("-");
    append_signed_decimal(&mut rule_name, port);
    assert(rule_name@ =~= self::rule_name(host@, port as int));
    let proposed_rule: Vec<u8> = vec![114, 117, 108, 101, 45, 112, 97, 121, 108, 111, 97, 100];
    assert(proposed_rule@ =~= rule_payload());
    DraftChunkRecord {
        id: id.to_owned(),
        sandbox_id: sandbox_id.to_owned(),
        draft_version: 1,
        status: "pending".to_owned(),
        rule_name,
        proposed_rule,
        rationale: "agent requested this endpoint".to_owned(),
        security_notes: "low risk".to_owned(),
        confidence_percent: 90,
        created_at_ms: 1000,
        decided_at_ms: None,
        host: host.to_owned(),
        port,
        binary: binary.to_owned(),
        hit_count: 1,
        first_seen_ms: 1000,
        last_seen_ms: 1000,
    }
}

/// The name of a rule is `allow-`, the host, a dash and the port, with nothing left out and
/// nothing between; so the names of two rules for one host are the same only for one port.
pub proof fn law_rule_name(host: Seq<char>, port: int, other: int)
    ensures
        rule_name(host, port) == "allow-"@ + host + "-"@ + crate::text::signed_decimal(port),
        rule_name(host, port) == rule_name(host, other) ==> port == other,
{
    let head = "allow-"@ + host + "-"@;
    let a = crate::text::signed_decimal(port);
    let b = crate::text::signed_decimal(other);
    crate::text::law_signed_decimal_reads_back(port);
    crate::text::law_signed_decimal_reads_back(other);
    assert((head + a).skip(head.len() as int) =~= a);
    assert((head + b).skip(head.len() as int) =~= b);
}

/// The payload is the bytes of its text.
pub proof fn law_rule_payload()
    ensures
        rule_payload().len() == "rule-payload"@.len(),
        forall|i: int|
            0 <= i < rule_payload().len() ==> #[trigger] rule_payload()[i] == "rule-payload"@[i]
                as int,
{
    reveal_strlit("rule-payload");
    let text = "rule-payload"@;
    assert(text.len() == 12);
    assert(text[0] == 'r' && text[1] == 'u' && text[2] == 'l' && text[3] == 'e' && text[4] == '-'
        && text[5] == 'p' && text[6] == 'a' && text[7] == 'y' && text[8] == 'l' && text[9] == 'o'
        && text[10] == 'a' && text[11] == 'd');
}

} // verus!
