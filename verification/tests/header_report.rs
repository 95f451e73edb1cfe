use xonaix_library_tools::header::{
    extract_frontmatter, validate_header, Authority, DocumentHeader, FieldValue, HeaderParse,
    Integrity,
};
use xonaix_library_tools::report::{
    collect_debt, lowercase_ascii, parse_document, parse_output_format, summarize, OutputFormat,
};

fn complete_header() -> DocumentHeader {
    DocumentHeader {
        schema: Some("xonaix-document-header".to_string()),
        schema_version: Some("2.1".to_string()),
        repo: Some("xonaix-library".to_string()),
        path: Some("specs/standards/a.md".to_string()),
        unit_id: Some("unit-a".to_string()),
        title: Some("Unit A".to_string()),
        document_type: Some("standard".to_string()),
        language: Some("en".to_string()),
        version: Some("XLIB-1.0.0".to_string()),
        baseline: FieldValue::Absent,
        status: Some("approved".to_string()),
        trust_class: FieldValue::Text("L1".to_string()),
        classification: Some("internal".to_string()),
        compliance: None,
        owner: Some("governance".to_string()),
        approved_by: FieldValue::Absent,
        authority_tier: Some("T1".to_string()),
        authority: Some(Authority {
            repo: Some("xonaix-library".to_string()),
            ref_name: Some("main".to_string()),
            version: FieldValue::Absent,
        }),
        depends_on: None,
        supersedes: FieldValue::Absent,
        superseded_by: FieldValue::Absent,
        implements: None,
        integrity: Some(Integrity {
            hash_alg: FieldValue::Text("sha256".to_string()),
            content_hash: FieldValue::Text("abc123".to_string()),
            signature: FieldValue::Text("sig".to_string()),
            signed_by: FieldValue::Text("sealer".to_string()),
            signed_at: FieldValue::Text("2024-01-01".to_string()),
        }),
        constitutional_conformance: None,
        created: Some("2024-01-01".to_string()),
        last_updated: Some("2024-02-01".to_string()),
    }
}

#[test]
fn complete_header_is_clean() {
    let r = validate_header(&HeaderParse::Parsed(complete_header()));
    assert!(r.errors.is_empty(), "unexpected errors: {:?}", r.errors);
    assert!(r.warnings.is_empty(), "unexpected warnings: {:?}", r.warnings);
}

#[test]
fn missing_frontmatter_is_one_error() {
    let r = validate_header(&HeaderParse::MissingFrontmatter);
    assert_eq!(r.errors, vec!["Missing YAML frontmatter".to_string()]);
    assert!(r.warnings.is_empty());
}

#[test]
fn invalid_yaml_carries_cause() {
    let r = validate_header(&HeaderParse::InvalidYaml("mapping expected".to_string()));
    assert_eq!(r.errors, vec!["Invalid YAML: mapping expected".to_string()]);
}

#[test]
fn sealed_without_integrity() {
    let mut h = complete_header();
    h.status = Some("sealed".to_string());
    h.integrity = None;
    let r = validate_header(&HeaderParse::Parsed(h));
    assert_eq!(
        r.errors,
        vec![
            "status is 'sealed' but content_hash is missing".to_string(),
            "status is 'sealed' but signature is missing".to_string(),
        ]
    );
}

#[test]
fn legacy_active_status_is_a_warning() {
    let mut h = complete_header();
    h.status = Some("active".to_string());
    let r = validate_header(&HeaderParse::Parsed(h));
    assert!(r.errors.is_empty());
    assert_eq!(
        r.warnings,
        vec!["status 'active' is deprecated in v2.1, use 'approved' or 'sealed'".to_string()]
    );
}

#[test]
fn old_schema_version_is_a_warning() {
    let mut h = complete_header();
    h.schema_version = Some("2.0".to_string());
    let r = validate_header(&HeaderParse::Parsed(h));
    assert!(r.errors.is_empty());
    assert_eq!(
        r.warnings,
        vec!["schema_version is 2.0, should migrate to 2.1".to_string()]
    );
}

#[test]
fn bad_enumerated_values() {
    let mut h = complete_header();
    h.document_type = Some("memo".to_string());
    h.trust_class = FieldValue::Text("L9".to_string());
    h.classification = Some("secret".to_string());
    h.authority_tier = Some("T9".to_string());
    h.version = Some("V-1".to_string());
    let r = validate_header(&HeaderParse::Parsed(h));
    assert_eq!(
        r.errors,
        vec![
            "Invalid document_type: memo".to_string(),
            "Invalid version prefix: V-1".to_string(),
            "Invalid trust_class: L9".to_string(),
            "Invalid classification: secret".to_string(),
            "Invalid authority_tier: T9".to_string(),
        ]
    );
}

#[test]
fn empty_header_reports_every_missing_field() {
    let h = DocumentHeader {
        schema: None,
        schema_version: None,
        repo: None,
        path: None,
        unit_id: None,
        title: None,
        document_type: None,
        language: None,
        version: None,
        baseline: FieldValue::Absent,
        status: None,
        trust_class: FieldValue::Absent,
        classification: None,
        compliance: None,
        owner: None,
        approved_by: FieldValue::Absent,
        authority_tier: None,
        authority: None,
        depends_on: None,
        supersedes: FieldValue::Absent,
        superseded_by: FieldValue::Absent,
        implements: None,
        integrity: None,
        constitutional_conformance: None,
        created: None,
        last_updated: None,
    };
    let r = validate_header(&HeaderParse::Parsed(h));
    assert_eq!(r.errors.len(), 16);
    assert_eq!(r.errors[0], "schema must be \"xonaix-document-header\"");
    assert_eq!(r.errors[15], "Missing last_updated");
}

#[test]
fn frontmatter_extraction() {
    let doc = "---\ntitle: x\nstatus: draft\n---\nbody text";
    assert_eq!(extract_frontmatter(doc), Some("\ntitle: x\nstatus: draft"));
    assert_eq!(extract_frontmatter("no marker here"), None);
    assert_eq!(extract_frontmatter("---\nnever closed"), None);
}

#[test]
fn document_report_records_debt() {
    let mut h = complete_header();
    h.status = Some("sealed".to_string());
    h.integrity = None;
    let d = parse_document("specs/standards/a.md", &HeaderParse::Parsed(h))
        .expect("parsed header yields a report");
    assert_eq!(d.path, "specs/standards/a.md");
    assert_eq!(d.trust_class, Some("L1".to_string()));
    assert!(!d.integrity.has_content_hash);
    assert_eq!(
        d.governance_debt,
        vec![
            "content_hash missing (sealed/deprecated/superseded)".to_string(),
            "signature missing (sealed/deprecated/superseded)".to_string(),
        ]
    );
    assert!(parse_document("x.md", &HeaderParse::MissingFrontmatter).is_none());
}

#[test]
fn summary_counts() {
    let mut h1 = complete_header();
    h1.status = Some("approved".to_string());
    let mut h2 = complete_header();
    h2.status = Some("draft".to_string());
    h2.schema_version = Some("2.0".to_string());
    h2.integrity = None;
    let mut h3 = complete_header();
    h3.status = Some("approved".to_string());
    h3.trust_class = FieldValue::Absent;
    let docs = vec![
        parse_document("a.md", &HeaderParse::Parsed(h1)).unwrap(),
        parse_document("b.md", &HeaderParse::Parsed(h2)).unwrap(),
        parse_document("c.md", &HeaderParse::Parsed(h3)).unwrap(),
    ];
    let s = summarize(&docs);
    assert_eq!(s.total_documents, 3);
    let approved = s.by_status.iter().find(|(k, _)| k == "approved").unwrap().1;
    assert_eq!(approved, 2);
    let draft = s.by_status.iter().find(|(k, _)| k == "draft").unwrap().1;
    assert_eq!(draft, 1);
    let unspec = s.by_trust_class.iter().find(|(k, _)| k == "unspecified").unwrap().1;
    assert_eq!(unspec, 1);
    assert_eq!(s.integrity_counts.with_content_hash, 2);
    assert_eq!(s.integrity_counts.without_content_hash, 1);
    assert_eq!(s.integrity_counts.fully_sealed, 2);
    assert_eq!(s.schema_metrics.v2_1_documents, 2);
    assert_eq!(s.schema_metrics.v2_0_documents, 1);
}

#[test]
fn debt_collection() {
    let mut h1 = complete_header();
    h1.status = Some("sealed".to_string());
    h1.integrity = None;
    let h2 = complete_header();
    let docs = vec![
        parse_document("a.md", &HeaderParse::Parsed(h1)).unwrap(),
        parse_document("b.md", &HeaderParse::Parsed(h2)).unwrap(),
    ];
    let debt = collect_debt(&docs);
    assert_eq!(debt.total_debt_items, 2);
    assert_eq!(debt.documents_with_debt, 1);
    assert_eq!(debt.debt_items.len(), 2);
    assert_eq!(debt.debt_items[0].path, "a.md");
    assert_eq!(debt.debt_items[0].debt_type, "missing_content_hash");
    assert_eq!(debt.debt_items[0].severity, "error");
    assert_eq!(debt.debt_items[1].debt_type, "missing_signature");
    let hash_count = debt
        .debt_by_type
        .iter()
        .find(|(k, _)| k == "missing_content_hash")
        .unwrap()
        .1;
    assert_eq!(hash_count, 1);
}

#[test]
fn output_format_names() {
    assert_eq!(parse_output_format("json"), Ok(OutputFormat::Json));
    assert_eq!(parse_output_format("JSON"), Ok(OutputFormat::Json));
    assert_eq!(parse_output_format("json-pretty"), Ok(OutputFormat::JsonPretty));
    assert_eq!(parse_output_format("Table"), Ok(OutputFormat::Table));
    assert_eq!(parse_output_format("summary"), Ok(OutputFormat::Summary));
    assert_eq!(
        parse_output_format("yaml"),
        Err("Unknown format: yaml".to_string())
    );
    assert_eq!("json".parse::<OutputFormat>(), Ok(OutputFormat::Json));
}

#[test]
fn frontmatter_with_unicode_body() {
    let doc = "---\ntitle: caf\u{e9} \u{1F600}\n---\nrest";
    assert_eq!(extract_frontmatter(doc), Some("\ntitle: caf\u{e9} \u{1F600}"));
}

#[test]
fn lowercase_leaves_non_ascii_alone() {
    assert_eq!(lowercase_ascii("JSON-Pretty"), "json-pretty");
    assert_eq!(lowercase_ascii("CAF\u{c9}"), "caf\u{c9}");
}
