//! Document header validation against the v2.1 schema.
//!
//! Reading files, walking the repository and parsing YAML happen outside
//! the library; the header arrives here as plain values (`HeaderParse`),
//! and `validate_header` is specified exactly: it returns precisely the
//! error and warning messages the schema checks call for.

use vstd::prelude::*;
use crate::text::{contains_at, has_prefix, has_sub, str_eq, str_has_prefix};

verus! {

/// A scalar field of the header as the checks see it: absent, an
/// explicit null, a string, or some other YAML value.
pub enum FieldValue {
    Absent,
    Null,
    Text(String),
    Other,
}

/// Whether a field value is null or absent.
pub open spec fn fv_is_null(v: FieldValue) -> bool {
    v is Absent || v is Null
}

/// Whether a field value is null or represents null.
pub fn is_yaml_null(v: &FieldValue) -> (r: bool)
    ensures
        r == fv_is_null(*v),
{
    match v {
        FieldValue::Absent => true,
        FieldValue::Null => true,
        _ => false,
    }
}

/// The string a field holds, if it holds one.
pub fn get_yaml_string(v: &FieldValue) -> (r: Option<&String>)
    ensures
        match r {
            Some(s) => *v matches FieldValue::Text(t) && t == s,
            None => !(*v is Text),
        },
{
    match v {
        FieldValue::Text(s) => Some(s),
        _ => None,
    }
}

/// The `authority` section of a header.
pub struct Authority {
    pub repo: Option<String>,
    pub ref_name: Option<String>,
    pub version: FieldValue,
}

/// The `integrity` section of a header.
pub struct Integrity {
    pub hash_alg: FieldValue,
    pub content_hash: FieldValue,
    pub signature: FieldValue,
    pub signed_by: FieldValue,
    pub signed_at: FieldValue,
}

/// The `constitutional_conformance` section of a header.
pub struct ConstitutionalConformance {
    pub constitution_version: FieldValue,
    pub constitution_hash: FieldValue,
    pub zero_point_version: FieldValue,
    pub zero_point_hash: FieldValue,
    pub deviations: Option<Vec<String>>,
    pub last_verified: FieldValue,
    pub verified_by: FieldValue,
}

/// A document header, as declared in a document's YAML frontmatter.
pub struct DocumentHeader {
    pub schema: Option<String>,
    pub schema_version: Option<String>,
    pub repo: Option<String>,
    pub path: Option<String>,
    pub unit_id: Option<String>,
    pub title: Option<String>,
    pub document_type: Option<String>,
    pub language: Option<String>,
    pub version: Option<String>,
    pub baseline: FieldValue,
    pub status: Option<String>,
    pub trust_class: FieldValue,
    pub classification: Option<String>,
    pub compliance: Option<Vec<String>>,
    pub owner: Option<String>,
    pub approved_by: FieldValue,
    pub authority_tier: Option<String>,
    pub authority: Option<Authority>,
    pub depends_on: Option<Vec<FieldValue>>,
    pub supersedes: FieldValue,
    pub superseded_by: FieldValue,
    pub implements: Option<Vec<FieldValue>>,
    pub integrity: Option<Integrity>,
    pub constitutional_conformance: Option<ConstitutionalConformance>,
    pub created: Option<String>,
    pub last_updated: Option<String>,
}

/// What extracting and parsing a document's frontmatter produced.
pub enum HeaderParse {
    MissingFrontmatter,
    InvalidYaml(String),
    Parsed(DocumentHeader),
}

/// Errors and warnings for one document.
pub struct ValidationResult {
    pub errors: Vec<String>,
    pub warnings: Vec<String>,
}

// ----- the enumerated valid values of the v2.1 schema -----

pub open spec fn valid_header_status(s: Seq<char>) -> bool {
    ||| s == "draft"@
    ||| s == "internal_review"@
    ||| s == "proposed"@
    ||| s == "approved"@
    ||| s == "sealed"@
    ||| s == "deprecated"@
    ||| s == "superseded"@
}

pub open spec fn valid_trust_class(s: Seq<char>) -> bool {
    ||| s == "L0"@
    ||| s == "L1"@
    ||| s == "L2"@
    ||| s == "L3"@
    ||| s == "L4"@
    ||| s == "L1/L2"@
    ||| s == "L3/L4"@
}

pub open spec fn valid_authority_tier(s: Seq<char>) -> bool {
    s == "T0"@ || s == "T1"@ || s == "T2"@ || s == "T3"@
}

pub open spec fn valid_document_type(s: Seq<char>) -> bool {
    s == "standard"@ || s == "mini-standard"@ || s == "template"@ || s == "contract"@
}

pub open spec fn valid_classification(s: Seq<char>) -> bool {
    s == "public"@ || s == "internal"@ || s == "confidential"@ || s == "restricted"@
}

pub open spec fn valid_version_prefix(v: Seq<char>) -> bool {
    ||| has_prefix(v, "XZERO-"@)
    ||| has_prefix(v, "XCORT-"@)
    ||| has_prefix(v, "XCODE-"@)
    ||| has_prefix(v, "XNEX-"@)
    ||| has_prefix(v, "XBLADE-"@)
    ||| has_prefix(v, "XINFRA-"@)
    ||| has_prefix(v, "XLIB-"@)
    ||| has_prefix(v, "XGOV-"@)
    ||| has_prefix(v, "XUX-"@)
}

/// A status whose documents must carry a content hash and a signature.
pub open spec fn sealed_like(s: Seq<char>) -> bool {
    s == "sealed"@ || s == "deprecated"@ || s == "superseded"@
}

/// Whether the header's integrity section carries a non-null content hash.
pub open spec fn header_has_content_hash(h: DocumentHeader) -> bool {
    h.integrity matches Some(i) && !fv_is_null(i.content_hash)
}

/// Whether the header's integrity section carries a non-null signature.
pub open spec fn header_has_signature(h: DocumentHeader) -> bool {
    h.integrity matches Some(i) && !fv_is_null(i.signature)
}

// ----- the exact messages of the header checks, group by group -----

/// One message when the option is absent, none otherwise.
pub open spec fn missing_msg(o: Option<String>, msg: Seq<char>) -> Seq<Seq<char>> {
    if o is None {
        seq![msg]
    } else {
        Seq::empty()
    }
}

pub open spec fn e_schema(h: DocumentHeader) -> Seq<Seq<char>> {
    if h.schema matches Some(s) && s@ == "xonaix-document-header"@ {
        Seq::empty()
    } else {
        seq!["schema must be \"xonaix-document-header\""@]
    }
}

pub open spec fn e_schema_version(h: DocumentHeader) -> Seq<Seq<char>> {
    match h.schema_version {
        Some(v) => if v@ == "2.0"@ || v@ == "2.1"@ {
            Seq::empty()
        } else {
            seq!["Unknown schema_version: "@ + v@]
        },
        None => seq!["Missing schema_version"@],
    }
}

pub open spec fn e_document_type(h: DocumentHeader) -> Seq<Seq<char>> {
    match h.document_type {
        Some(t) => if valid_document_type(t@) {
            Seq::empty()
        } else {
            seq!["Invalid document_type: "@ + t@]
        },
        None => seq!["Missing document_type"@],
    }
}

pub open spec fn e_version(h: DocumentHeader) -> Seq<Seq<char>> {
    match h.version {
        Some(v) => if valid_version_prefix(v@) {
            Seq::empty()
        } else {
            seq!["Invalid version prefix: "@ + v@]
        },
        None => seq!["Missing version"@],
    }
}

pub open spec fn e_status(h: DocumentHeader) -> Seq<Seq<char>> {
    match h.status {
        Some(st) => (if !valid_header_status(st@) && st@ != "active"@ {
            seq!["Invalid status: "@ + st@]
        } else {
            Seq::empty()
        }) + (if sealed_like(st@) && !header_has_content_hash(h) {
            seq!["status is '"@ + st@ + "' but content_hash is missing"@]
        } else {
            Seq::empty()
        }) + (if sealed_like(st@) && !header_has_signature(h) {
            seq!["status is '"@ + st@ + "' but signature is missing"@]
        } else {
            Seq::empty()
        }),
        None => seq!["Missing status"@],
    }
}

pub open spec fn e_trust_class(h: DocumentHeader) -> Seq<Seq<char>> {
    match h.trust_class {
        FieldValue::Text(tc) => if valid_trust_class(tc@) {
            Seq::empty()
        } else {
            seq!["Invalid trust_class: "@ + tc@]
        },
        _ => Seq::empty(),
    }
}

pub open spec fn e_classification(h: DocumentHeader) -> Seq<Seq<char>> {
    match h.classification {
        Some(c) => if valid_classification(c@) {
            Seq::empty()
        } else {
            seq!["Invalid classification: "@ + c@]
        },
        None => seq!["Missing classification"@],
    }
}

pub open spec fn e_authority_tier(h: DocumentHeader) -> Seq<Seq<char>> {
    match h.authority_tier {
        Some(t) => if valid_authority_tier(t@) {
            Seq::empty()
        } else {
            seq!["Invalid authority_tier: "@ + t@]
        },
        None => seq!["Missing authority_tier"@],
    }
}

pub open spec fn e_authority(h: DocumentHeader) -> Seq<Seq<char>> {
    match h.authority {
        Some(a) => missing_msg(a.repo, "Missing authority.repo"@) + missing_msg(
            a.ref_name,
            "Missing authority.ref"@,
        ),
        None => seq!["Missing authority section"@],
    }
}

/// All error messages of the header checks, in check order.
pub open spec fn header_errors(h: DocumentHeader) -> Seq<Seq<char>> {
    e_schema(h) + e_schema_version(h) + missing_msg(h.repo, "Missing repo"@) + missing_msg(
        h.path,
        "Missing path"@,
    ) + missing_msg(h.unit_id, "Missing unit_id"@) + missing_msg(h.title, "Missing title"@)
        + e_document_type(h) + missing_msg(h.language, "Missing language"@) + e_version(h)
        + e_status(h) + e_trust_class(h) + e_classification(h) + e_authority_tier(h) + e_authority(
        h,
    ) + missing_msg(h.owner, "Missing owner"@) + missing_msg(h.created, "Missing created"@)
        + missing_msg(h.last_updated, "Missing last_updated"@)
}

pub open spec fn w_schema_version(h: DocumentHeader) -> Seq<Seq<char>> {
    if h.schema_version matches Some(v) && v@ == "2.0"@ {
        seq!["schema_version is 2.0, should migrate to 2.1"@]
    } else {
        Seq::empty()
    }
}

pub open spec fn w_active_status(h: DocumentHeader) -> Seq<Seq<char>> {
    if h.status matches Some(st) && !valid_header_status(st@) && st@ == "active"@ {
        seq!["status 'active' is deprecated in v2.1, use 'approved' or 'sealed'"@]
    } else {
        Seq::empty()
    }
}

pub open spec fn w_approved_hash(h: DocumentHeader) -> Seq<Seq<char>> {
    if h.status matches Some(st) && st@ == "approved"@ && !header_has_content_hash(h) {
        seq!["status is 'approved' but content_hash is missing (governance debt)"@]
    } else {
        Seq::empty()
    }
}

/// All warning messages of the header checks, in check order.
pub open spec fn header_warnings(h: DocumentHeader) -> Seq<Seq<char>> {
    w_schema_version(h) + w_active_status(h) + w_approved_hash(h)
}

/// The errors a parse outcome yields: its own message for a missing or
/// unparseable frontmatter, the schema checks otherwise.
pub open spec fn parse_errors(p: HeaderParse) -> Seq<Seq<char>> {
    match p {
        HeaderParse::MissingFrontmatter => seq!["Missing YAML frontmatter"@],
        HeaderParse::InvalidYaml(cause) => seq!["Invalid YAML: "@ + cause@],
        HeaderParse::Parsed(h) => header_errors(h),
    }
}

/// The warnings a parse outcome yields.
pub open spec fn parse_warnings(p: HeaderParse) -> Seq<Seq<char>> {
    match p {
        HeaderParse::MissingFrontmatter => Seq::empty(),
        HeaderParse::InvalidYaml(cause) => Seq::empty(),
        HeaderParse::Parsed(h) => header_warnings(h),
    }
}

// ----- executable forms of the enumerated-value checks -----

fn is_valid_header_status(s: &str) -> (r: bool)
    ensures
        r == valid_header_status(s@),
{
    str_eq(s, "draft") || str_eq(s, "internal_review") || str_eq(s, "proposed") || str_eq(
        s,
        "approved",
    ) || str_eq(s, "sealed") || str_eq(s, "deprecated") || str_eq(s, "superseded")
}

fn is_valid_trust_class(s: &str) -> (r: bool)
    ensures
        r == valid_trust_class(s@),
{
    str_eq(s, "L0") || str_eq(s, "L1") || str_eq(s, "L2") || str_eq(s, "L3") || str_eq(s, "L4")
        || str_eq(s, "L1/L2") || str_eq(s, "L3/L4")
}

fn is_valid_authority_tier(s: &str) -> (r: bool)
    ensures
        r == valid_authority_tier(s@),
{
    str_eq(s, "T0") || str_eq(s, "T1") || str_eq(s, "T2") || str_eq(s, "T3")
}

fn is_valid_document_type(s: &str) -> (r: bool)
    ensures
        r == valid_document_type(s@),
{
    str_eq(s, "standard") || str_eq(s, "mini-standard") || str_eq(s, "template") || str_eq(
        s,
        "contract",
    )
}

fn is_valid_classification(s: &str) -> (r: bool)
    ensures
        r == valid_classification(s@),
{
    str_eq(s, "public") || str_eq(s, "internal") || str_eq(s, "confidential") || str_eq(
        s,
        "restricted",
    )
}

fn has_valid_version_prefix(s: &str) -> (r: bool)
    ensures
        r == valid_version_prefix(s@),
{
    str_has_prefix(s, "XZERO-") || str_has_prefix(s, "XCORT-") || str_has_prefix(s, "XCODE-")
        || str_has_prefix(s, "XNEX-") || str_has_prefix(s, "XBLADE-") || str_has_prefix(
        s,
        "XINFRA-",
    ) || str_has_prefix(s, "XLIB-") || str_has_prefix(s, "XGOV-") || str_has_prefix(s, "XUX-")
}

fn integrity_has_content_hash(h: &DocumentHeader) -> (r: bool)
    ensures
        r == header_has_content_hash(*h),
{
    match &h.integrity {
        Some(i) => !is_yaml_null(&i.content_hash),
        None => false,
    }
}

fn integrity_has_signature(h: &DocumentHeader) -> (r: bool)
    ensures
        r == header_has_signature(*h),
{
    match &h.integrity {
        Some(i) => !is_yaml_null(&i.signature),
        None => false,
    }
}

/// Push `msg` when the field is absent.
fn push_if_missing(errors: &mut Vec<String>, o: &Option<String>, msg: &str)
    ensures
        final(errors).deep_view() == old(errors).deep_view() + missing_msg(*o, msg@),
{
    broadcast use crate::text::lemma_string_vec_deep_view;

    let ghost d0 = errors.deep_view();
    if o.is_none() {
        errors.push(String::from_str(msg));
    }
    proof {
        assert(errors.deep_view() =~= d0 + missing_msg(*o, msg@));
    }
}

/// Validate one document's parse outcome against the v2.1 schema: a
/// missing frontmatter or a YAML failure is itself the single error;
/// a parsed header yields one error per violated check and one warning
/// per advisory condition, in check order.
fn check_schema(errors: &mut Vec<String>, h: &DocumentHeader)
    ensures
        final(errors).deep_view() == old(errors).deep_view() + e_schema(*h),
{
    broadcast use crate::text::lemma_string_vec_deep_view;

    let ghost d0 = errors.deep_view();
    let schema_ok = match &h.schema {
        Some(s) => str_eq(s.as_str(), "xonaix-document-header"),
        None => false,
    };
    if !schema_ok {
        errors.push(String::from_str("schema must be \"xonaix-document-header\""));
    }
    proof {
        assert(errors.deep_view() =~= d0 + e_schema(*h));
    }
}

fn check_schema_version(errors: &mut Vec<String>, warnings: &mut Vec<String>, h: &DocumentHeader)
    ensures
        final(errors).deep_view() == old(errors).deep_view() + e_schema_version(*h),
        final(warnings).deep_view() == old(warnings).deep_view() + w_schema_version(*h),
{
    broadcast use crate::text::lemma_string_vec_deep_view;

    let ghost d0 = errors.deep_view();
    let ghost w0 = warnings.deep_view();
    match &h.schema_version {
        Some(v) => {
            if str_eq(v.as_str(), "2.0") {
                warnings.push(String::from_str("schema_version is 2.0, should migrate to 2.1"));
            } else if !str_eq(v.as_str(), "2.1") {
                errors.push(String::from_str("Unknown schema_version: ").concat(v.as_str()));
            }
        },
        None => {
            errors.push(String::from_str("Missing schema_version"));
        },
    }
    proof {
        assert(errors.deep_view() =~= d0 + e_schema_version(*h));
        assert(warnings.deep_view() =~= w0 + w_schema_version(*h));
    }
}

fn check_document_type(errors: &mut Vec<String>, h: &DocumentHeader)
    ensures
        final(errors).deep_view() == old(errors).deep_view() + e_document_type(*h),
{
    broadcast use crate::text::lemma_string_vec_deep_view;

    let ghost d0 = errors.deep_view();
    match &h.document_type {
        Some(t) => {
            if !is_valid_document_type(t.as_str()) {
                errors.push(String::from_str("Invalid document_type: ").concat(t.as_str()));
            }
        },
        None => {
            errors.push(String::from_str("Missing document_type"));
        },
    }
    proof {
        assert(errors.deep_view() =~= d0 + e_document_type(*h));
    }
}

fn check_version(errors: &mut Vec<String>, h: &DocumentHeader)
    ensures
        final(errors).deep_view() == old(errors).deep_view() + e_version(*h),
{
    broadcast use crate::text::lemma_string_vec_deep_view;

    let ghost d0 = errors.deep_view();
    match &h.version {
        Some(v) => {
            if !has_valid_version_prefix(v.as_str()) {
                errors.push(String::from_str("Invalid version prefix: ").concat(v.as_str()));
            }
        },
        None => {
            errors.push(String::from_str("Missing version"));
        },
    }
    proof {
        assert(errors.deep_view() =~= d0 + e_version(*h));
    }
}

#[verifier::rlimit(60)]
fn check_status(errors: &mut Vec<String>, warnings: &mut Vec<String>, h: &DocumentHeader)
    ensures
        final(errors).deep_view() == old(errors).deep_view() + e_status(*h),
        final(warnings).deep_view() == old(warnings).deep_view() + w_active_status(*h)
            + w_approved_hash(*h),
{
    broadcast use crate::text::lemma_string_vec_deep_view;

    let ghost d0 = errors.deep_view();
    let ghost w0 = warnings.deep_view();
    let has_hash = integrity_has_content_hash(h);
    let has_sig = integrity_has_signature(h);
    match &h.status {
        Some(st) => {
            if !is_valid_header_status(st.as_str()) {
                if str_eq(st.as_str(), "active") {
                    warnings.push(
                        String::from_str(
                            "status 'active' is deprecated in v2.1, use 'approved' or 'sealed'",
                        ),
                    );
                } else {
                    errors.push(String::from_str("Invalid status: ").concat(st.as_str()));
                }
            }
            if str_eq(st.as_str(), "approved") && !has_hash {
                warnings.push(
                    String::from_str(
                        "status is 'approved' but content_hash is missing (governance debt)",
                    ),
                );
            }
            let sealed = str_eq(st.as_str(), "sealed") || str_eq(st.as_str(), "deprecated")
                || str_eq(st.as_str(), "superseded");
            if sealed && !has_hash {
                errors.push(
                    String::from_str("status is '").concat(st.as_str()).concat(
                        "' but content_hash is missing",
                    ),
                );
            }
            if sealed && !has_sig {
                errors.push(
                    String::from_str("status is '").concat(st.as_str()).concat(
                        "' but signature is missing",
                    ),
                );
            }
        },
        None => {
            errors.push(String::from_str("Missing status"));
        },
    }
    proof {
        assert(errors.deep_view() =~= d0 + e_status(*h));
        assert(warnings.deep_view() =~= w0 + w_active_status(*h) + w_approved_hash(*h));
    }
}

fn check_trust_class(errors: &mut Vec<String>, h: &DocumentHeader)
    ensures
        final(errors).deep_view() == old(errors).deep_view() + e_trust_class(*h),
{
    broadcast use crate::text::lemma_string_vec_deep_view;

    let ghost d0 = errors.deep_view();
    match get_yaml_string(&h.trust_class) {
        Some(tc) => {
            if !is_valid_trust_class(tc.as_str()) {
                errors.push(String::from_str("Invalid trust_class: ").concat(tc.as_str()));
            }
        },
        None => {},
    }
    proof {
        assert(errors.deep_view() =~= d0 + e_trust_class(*h));
    }
}

fn check_classification(errors: &mut Vec<String>, h: &DocumentHeader)
    ensures
        final(errors).deep_view() == old(errors).deep_view() + e_classification(*h),
{
    broadcast use crate::text::lemma_string_vec_deep_view;

    let ghost d0 = errors.deep_view();
    match &h.classification {
        Some(c) => {
            if !is_valid_classification(c.as_str()) {
                errors.push(String::from_str("Invalid classification: ").concat(c.as_str()));
            }
        },
        None => {
            errors.push(String::from_str("Missing classification"));
        },
    }
    proof {
        assert(errors.deep_view() =~= d0 + e_classification(*h));
    }
}

fn check_authority_tier(errors: &mut Vec<String>, h: &DocumentHeader)
    ensures
        final(errors).deep_view() == old(errors).deep_view() + e_authority_tier(*h),
{
    broadcast use crate::text::lemma_string_vec_deep_view;

    let ghost d0 = errors.deep_view();
    match &h.authority_tier {
        Some(t) => {
            if !is_valid_authority_tier(t.as_str()) {
                errors.push(String::from_str("Invalid authority_tier: ").concat(t.as_str()));
            }
        },
        None => {
            errors.push(String::from_str("Missing authority_tier"));
        },
    }
    proof {
        assert(errors.deep_view() =~= d0 + e_authority_tier(*h));
    }
}

fn check_authority(errors: &mut Vec<String>, h: &DocumentHeader)
    ensures
        final(errors).deep_view() == old(errors).deep_view() + e_authority(*h),
{
    broadcast use crate::text::lemma_string_vec_deep_view;

    let ghost d0 = errors.deep_view();
    match &h.authority {
        Some(a) => {
            push_if_missing(errors, &a.repo, "Missing authority.repo");
            push_if_missing(errors, &a.ref_name, "Missing authority.ref");
            proof {
                assert((d0 + missing_msg(a.repo, "Missing authority.repo"@)) + missing_msg(
                    a.ref_name,
                    "Missing authority.ref"@,
                ) =~= d0 + (missing_msg(a.repo, "Missing authority.repo"@) + missing_msg(
                    a.ref_name,
                    "Missing authority.ref"@,
                )));
            }
        },
        None => {
            errors.push(String::from_str("Missing authority section"));
            proof {
                assert(errors.deep_view() =~= d0 + e_authority(*h));
            }
        },
    }
}

/// Validate one document's parse outcome against the v2.1 schema: a
/// missing frontmatter or a YAML failure is itself the single error;
/// a parsed header yields one error per violated check and one warning
/// per advisory condition, in check order.
pub fn validate_header(parse: &HeaderParse) -> (r: ValidationResult)
    ensures
        r.errors.deep_view() == parse_errors(*parse),
        r.warnings.deep_view() == parse_warnings(*parse),
{
    broadcast use crate::text::lemma_string_vec_deep_view;

    let mut errors: Vec<String> = Vec::new();
    let mut warnings: Vec<String> = Vec::new();
    proof {
        assert(errors.deep_view() =~= Seq::<Seq<char>>::empty());
        assert(warnings.deep_view() =~= Seq::<Seq<char>>::empty());
    }
    let h = match parse {
        HeaderParse::MissingFrontmatter => {
            errors.push(String::from_str("Missing YAML frontmatter"));
            proof {
                assert(errors.deep_view() =~= parse_errors(*parse));
            }
            return ValidationResult { errors, warnings };
        },
        HeaderParse::InvalidYaml(cause) => {
            errors.push(String::from_str("Invalid YAML: ").concat(cause.as_str()));
            proof {
                assert(errors.deep_view() =~= parse_errors(*parse));
            }
            return ValidationResult { errors, warnings };
        },
        HeaderParse::Parsed(h) => h,
    };
    check_schema(&mut errors, h);
    check_schema_version(&mut errors, &mut warnings, h);
    push_if_missing(&mut errors, &h.repo, "Missing repo");
    push_if_missing(&mut errors, &h.path, "Missing path");
    push_if_missing(&mut errors, &h.unit_id, "Missing unit_id");
    push_if_missing(&mut errors, &h.title, "Missing title");
    check_document_type(&mut errors, h);
    push_if_missing(&mut errors, &h.language, "Missing language");
    check_version(&mut errors, h);
    check_status(&mut errors, &mut warnings, h);
    check_trust_class(&mut errors, h);
    check_classification(&mut errors, h);
    check_authority_tier(&mut errors, h);
    check_authority(&mut errors, h);
    push_if_missing(&mut errors, &h.owner, "Missing owner");
    push_if_missing(&mut errors, &h.created, "Missing created");
    push_if_missing(&mut errors, &h.last_updated, "Missing last_updated");
    proof {
        assert(Seq::<Seq<char>>::empty() + e_schema(*h) =~= e_schema(*h));
        assert(Seq::<Seq<char>>::empty() + w_schema_version(*h) =~= w_schema_version(*h));
        assert(errors.deep_view() == header_errors(*h));
        assert(warnings.deep_view() == header_warnings(*h));
    }
    ValidationResult { errors, warnings }
}


/// Paths excluded from header validation.
pub open spec fn spec_should_exclude(path: Seq<char>) -> bool {
    ||| has_sub(path, "_deprecated/"@)
    ||| has_sub(path, "_deprecated\\"@)
    ||| has_sub(path, "_reference/"@)
    ||| has_sub(path, "_reference\\"@)
    ||| has_sub(path, ".git/"@)
    ||| has_sub(path, ".git\\"@)
    ||| has_sub(path, "/target/"@)
    ||| has_sub(path, "\target\\"@)
    ||| has_sub(path, "manifests/"@)
    ||| has_sub(path, "manifests\\"@)
    ||| has_sub(path, "_roadmap/"@)
    ||| has_sub(path, "_roadmap\\"@)
}

/// Whether a path is excluded from header validation.
pub fn should_exclude(path: &str) -> (r: bool)
    ensures
        r == spec_should_exclude(path@),
{
    crate::text::str_contains(path, "_deprecated/") || crate::text::str_contains(
        path,
        "_deprecated\\",
    ) || crate::text::str_contains(path, "_reference/") || crate::text::str_contains(
        path,
        "_reference\\",
    ) || crate::text::str_contains(path, ".git/") || crate::text::str_contains(path, ".git\\")
        || crate::text::str_contains(path, "/target/") || crate::text::str_contains(
        path,
        "\target\\",
    ) || crate::text::str_contains(path, "manifests/") || crate::text::str_contains(
        path,
        "manifests\\",
    ) || crate::text::str_contains(path, "_roadmap/") || crate::text::str_contains(
        path,
        "_roadmap\\",
    )
}

/// Extract the YAML frontmatter of a markdown document: the text between
/// the opening `---` and the first following `\n---`.
pub fn extract_frontmatter(content: &str) -> (r: Option<&str>)
    ensures
        match r {
            Some(fm) => {
                &&& has_prefix(content@, "---"@)
                &&& exists|j: int|
                    {
                        &&& 3 <= j
                        &&& #[trigger] contains_at(content@, "\n---"@, j)
                        &&& (forall|j2: int| 3 <= j2 < j ==> !contains_at(content@, "\n---"@, j2))
                        &&& fm@ == content@.subrange(3, j)
                    }
            },
            None => !has_prefix(content@, "---"@) || (forall|j: int|
                3 <= j ==> !contains_at(content@, "\n---"@, j)),
        },
{
    crate::text::frontmatter(content)
}

} // verus!
