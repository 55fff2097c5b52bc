//! Deployment records, counted before anything of them is allocated.
use kasumi_engine::deployment_preflight::{
    greater_decoded, inspect_current_deployment, Decoded, Inventory, Parser,
};

fn numbers(keys: &[&str]) -> String {
    keys.iter().map(|key| format!("\"{key}\":7")).collect::<Vec<_>>().join(",")
}

fn limits(max_grants: u64) -> String {
    format!(
        "{{\"history\":{{{}}},\"atomic\":{{{}}},{},\"max_policy_grants\":{max_grants},{},\"audit_retention\":{{{}}},{}}}",
        numbers(&["max_feed_events", "max_feed_bytes", "max_archive_segments"]),
        numbers(&[
            "max_operations",
            "max_read_assertions",
            "max_transaction_bytes",
            "max_active_transactions",
            "max_reserved_staging_bytes",
            "max_permanent_staged_bytes",
            "max_snapshot_leases",
            "max_snapshot_lease_bytes",
        ]),
        numbers(&[
            "max_document_bytes",
            "max_batch_operations",
            "max_batch_bytes",
            "max_documents",
            "max_collections",
            "max_schema_bytes",
            "max_schema_activation_bytes",
            "max_retirement_bytes",
            "max_target_resolution_bytes",
            "max_backup_binding_bytes",
        ]),
        numbers(&["max_logical_bytes", "max_snapshot_bytes", "max_mutation_receipt_bytes"]),
        numbers(&["hot_bytes", "archive_bytes"]),
        numbers(&[
            "max_query_candidates",
            "max_query_groups",
            "max_result_bytes",
            "max_page_size",
            "max_cursors",
            "max_cursor_bytes",
            "cursor_ttl_ms",
        ]),
    )
}

const GRANT: &str =
    "{\"principal\":\"owner\",\"collection\":null,\"actions\":[\"read\",\"write\"]}";

fn voters(ids: &[u64]) -> String {
    let rows: Vec<String> = ids
        .iter()
        .map(|id| format!("\"{id}\":{{\"address\":\"a{id}\",\"failure_domain\":\"z{id}\"}}"))
        .collect();
    format!("{{{}}}", rows.join(","))
}

fn record(genesis: &str, grants: &str, max_grants: u64, voters: &str) -> String {
    format!(
        "[\"replicated\",{{\"genesis\":{genesis},\"incarnation\":\"i\",\"initial_policy\":{{\"grants\":[{grants}],\"strict_read_audit\":true}},\"initial_limits\":{},\"voters\":{voters}}}]",
        limits(max_grants)
    )
}

fn application() -> String {
    record("{\"kind\":\"application\"}", GRANT, 1, &voters(&[1, 2, 3]))
}

fn inspect(text: &str) -> Result<Inventory, &'static str> {
    inspect_current_deployment(text.as_bytes(), text.len())
}

#[test]
fn an_application_deployment_is_counted() {
    let text = application();
    let inventory = inspect(&text).unwrap();
    assert_eq!(inventory.encoded_bytes, text.len() as u64);
    assert_eq!(inventory.voters, 3);
    assert_eq!(inventory.grants, 1);
    assert_eq!(inventory.control_nodes, 0);
    assert_eq!(inventory.max_depth, 6);
    // The tag, its kind and the incarnation, the owner and two actions, and each
    // voter's two texts; every key is a string too.
    assert!(inventory.strings > 12);
    assert!(inventory.decoded_string_bytes < text.len() as u64);
}

#[test]
fn a_control_deployment_counts_nodes_tenants_and_partitions() {
    let partition = "{\"authority_id\":\"a\",\"manifest_sha256\":\"m\",\"partition\":0,\"signing_public_key\":\"k\",\"maximum_lifetime_ms\":1,\"drain_ms\":1}";
    let control = format!(
        "{{\"kind\":\"control\",\"control\":{{\"topology\":{{\"nodes\":{{\"1\":{{\"endpoint\":\"e\",\"failure_domain\":\"z\",\"certificate_pins\":[\"a\",\"b\"]}}}},\"tenants\":{{\"t\":{{\"incarnation\":\"i\",\"mode\":\"local\",\"voters\":[1,2,3]}},\"u\":{{\"incarnation\":\"i\",\"mode\":\"replicated\",\"voters\":[]}}}}}},\"lifecycle\":{{\"kind\":\"installed\",\"command_id\":\"c\",\"installation\":{{\"root\":{{\"control_incarnation\":\"i\",\"public_key\":\"k\"}},\"generation\":1,\"partitions\":{{\"a\":{partition},\"b\":{partition}}},\"max_intents\":1,\"max_changes\":1,\"max_state_bytes\":1}}}}}}}}"
    );
    let text = record(&control, GRANT, 1, &voters(&[1, 2, 3]));
    let inventory = inspect(&text).unwrap();
    assert_eq!(inventory.control_nodes, 1);
    assert_eq!(inventory.control_tenants, 2);
    assert_eq!(inventory.lifecycle_partitions, 2);
    assert_eq!(inventory.max_depth, 8);
    let unordered = text.replace("[\"a\",\"b\"]", "[\"b\",\"a\"]");
    assert_eq!(inspect(&unordered), Err("Control certificate pins not strictly ordered"));
    let many = text.replace("[1,2,3]}", "[1,2,3,4]}");
    assert_eq!(inspect(&many), Err("numeric set exceeds schema limit"));
    let same = text.replace("\"u\":{\"incarnation\"", "\"t\":{\"incarnation\"");
    assert_eq!(inspect(&same), Err("Control tenant keys not strictly ordered"));
}

#[test]
fn every_deployment_has_exactly_three_voters() {
    let with = |ids: &[u64]| {
        inspect(&record("{\"kind\":\"application\"}", GRANT, 1, &voters(ids)))
    };
    assert_eq!(with(&[1, 2, 3]).unwrap().voters, 3);
    assert_eq!(with(&[1, 2]), Err("exactly three initial voters required"));
    assert_eq!(with(&[1, 2, 3, 4]), Err("more than three initial voters"));
    assert!(with(&[1, 3, 2]).is_err());
}

#[test]
fn grants_stay_within_the_deployment_quota() {
    let two = format!("{GRANT},{GRANT}");
    let kind = "{\"kind\":\"application\"}";
    assert_eq!(inspect(&record(kind, &two, 2, &voters(&[1, 2, 3]))).unwrap().grants, 2);
    assert_eq!(
        inspect(&record(kind, &two, 1, &voters(&[1, 2, 3]))),
        Err("deployment grant quota exceeded")
    );
    let unordered = GRANT.replace("\"read\",\"write\"", "\"write\",\"read\"");
    assert_eq!(
        inspect(&record(kind, &unordered, 1, &voters(&[1, 2, 3]))),
        Err("policy actions not strictly ordered")
    );
    let unknown = GRANT.replace("\"read\"", "\"own\"");
    assert_eq!(
        inspect(&record(kind, &unknown, 1, &voters(&[1, 2, 3]))),
        Err("unsupported policy action")
    );
}

#[test]
fn a_record_is_bounded_utf_8_and_nothing_follows_it() {
    let text = application();
    assert_eq!(
        inspect_current_deployment(text.as_bytes(), text.len() - 1),
        Err("deployment exceeds paired writer byte bound")
    );
    let mut bytes = text.clone().into_bytes();
    let at = bytes.len() - 3;
    bytes[at] = 0xff;
    assert_eq!(
        inspect_current_deployment(&bytes, bytes.len()),
        Err("deployment is not UTF-8")
    );
    assert_eq!(inspect(&format!("{text} ")), Err("trailing deployment bytes"));
    let escaped = text.replace("\"incarnation\":\"i\"", "\"incarnation\":\"\\u00e9\\ud83d\\ude00\\n\"");
    let counted = inspect(&escaped).unwrap().decoded_string_bytes;
    assert_eq!(counted, inspect(&text).unwrap().decoded_string_bytes - 1 + 2 + 4 + 1);
    assert!(inspect(&text.replace("\"incarnation\":\"i\"", "\"incarnation\":\"\\ud83d\"")).is_err());
    assert!(inspect("").is_err());
    for end in 0..text.len() {
        assert!(inspect_current_deployment(text[..end].as_bytes(), text.len()).is_err(), "{end}");
    }
    for tail in ["]", "}", "0", "[]", "\u{e9}"] {
        assert_eq!(inspect(&format!("{text}{tail}")), Err("trailing deployment bytes"));
    }
    assert_eq!(inspect_current_deployment(text.as_bytes(), 1 << 30), inspect(&text));
}

fn parser(text: &[u8]) -> Parser<'_> {
    Parser { bytes: text, pos: 0, result: Inventory::default() }
}

#[test]
fn a_string_yields_the_bytes_that_its_reading_counts() {
    for (text, decoded) in [
        (br#""plain""#.as_slice(), "plain"),
        (br#""""#.as_slice(), ""),
        (br#""\u00e9\ud83d\ude00\n\/""#.as_slice(), "\u{e9}\u{1f600}\n/"),
    ] {
        let mut read = parser(text);
        let raw = read.string().unwrap();
        assert_eq!(read.pos, text.len());
        assert_eq!(read.result.strings, 1);
        assert_eq!(read.result.decoded_string_bytes, decoded.len() as u64);
        let mut bytes = Decoded::new(raw);
        for byte in decoded.bytes() {
            assert_eq!(bytes.next(), Some(byte));
        }
        assert_eq!(bytes.next(), None);
        assert_eq!(bytes.next(), None);
    }
    let mut broken = parser(br#""\ud83d\u0041""#);
    assert_eq!(broken.string(), Err("invalid JSON surrogate pair"));
    assert_eq!(broken.result, Inventory::default());
}

#[test]
fn a_number_is_canonical_and_counts_nothing() {
    for (text, read) in [
        ("0", Ok((0, 1))),
        ("10,", Ok((10, 2))),
        ("18446744073709551615", Ok((u64::MAX, 20))),
        ("18446744073709551616", Err("deployment integer overflow")),
        ("01", Err("noncanonical leading zero")),
        ("-1", Err("deployment integer must be unsigned")),
        ("", Err("missing deployment integer")),
    ] {
        let mut number = parser(text.as_bytes());
        assert_eq!(number.number().map(|value| (value, number.pos)), read);
        assert_eq!(number.result, Inventory::default());
    }
}

#[test]
fn keys_are_ordered_by_what_they_decode_to() {
    let keys = [r"\u0041", "B", r"\u0061", "ab", "b"];
    for (i, a) in keys.iter().enumerate() {
        for (j, b) in keys.iter().enumerate() {
            assert_eq!(greater_decoded(a.as_bytes(), b.as_bytes()), i < j, "{a} {b}");
        }
    }
    assert!(!greater_decoded(br"\u0041", b"A") && !greater_decoded(b"A", br"\u0041"));
}
