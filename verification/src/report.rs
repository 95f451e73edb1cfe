//! Governance report aggregation: per-document reports derived from
//! parsed headers, and the summary metrics over a document set.
//! Walking the repository, parsing YAML and rendering the report happen
//! outside the library.

use vstd::prelude::*;
use crate::header::{
    header_has_content_hash, header_has_signature, sealed_like, DocumentHeader, FieldValue,
    HeaderParse, Integrity,
};
use crate::text::{clone_opt_string, has_sub, str_contains, str_eq};

verus! {

broadcast use crate::text::lemma_string_vec_deep_view;

/// Integrity facts recorded for one document.
pub struct DocumentIntegrity {
    pub has_content_hash: bool,
    pub has_signature: bool,
    pub hash_algorithm: Option<String>,
    pub signed_by: Option<String>,
    pub signed_at: Option<String>,
}

/// Everything the report records about one document.
pub struct DocumentReport {
    pub path: String,
    pub title: Option<String>,
    pub unit_id: Option<String>,
    pub document_type: Option<String>,
    pub status: Option<String>,
    pub trust_class: Option<String>,
    pub classification: Option<String>,
    pub authority_tier: Option<String>,
    pub owner: Option<String>,
    pub schema_version: Option<String>,
    pub integrity: DocumentIntegrity,
    pub governance_debt: Vec<String>,
    pub created: Option<String>,
    pub last_updated: Option<String>,
}

/// Schema-version counts over a document set.
pub struct SchemaMetrics {
    pub v2_1_documents: u32,
    pub v2_0_documents: u32,
    pub other_version_documents: u32,
    pub missing_schema: u32,
}

/// Integrity counts over a document set.
pub struct IntegrityCounts {
    pub with_content_hash: u32,
    pub without_content_hash: u32,
    pub with_signature: u32,
    pub without_signature: u32,
    pub fully_sealed: u32,
}

/// Summary metrics over a document set; each `by_*` list maps a value
/// to how many documents carry it.
pub struct ReportSummary {
    pub total_documents: u32,
    pub by_status: Vec<(String, u32)>,
    pub by_document_type: Vec<(String, u32)>,
    pub by_trust_class: Vec<(String, u32)>,
    pub by_classification: Vec<(String, u32)>,
    pub by_authority_tier: Vec<(String, u32)>,
    pub integrity_counts: IntegrityCounts,
    pub schema_metrics: SchemaMetrics,
}

/// One recorded debt: where, what kind, the message, and how severe.
pub struct DebtItem {
    pub path: String,
    pub debt_type: String,
    pub description: String,
    pub severity: String,
}

/// All recorded debt over a document set.
pub struct GovernanceDebt {
    pub total_debt_items: u32,
    pub documents_with_debt: u32,
    pub debt_by_type: Vec<(String, u32)>,
    pub debt_items: Vec<DebtItem>,
}

// ----- deriving one document's report from its header -----

/// The debt messages one header yields, in check order.
pub open spec fn doc_debt_msgs(h: DocumentHeader) -> Seq<Seq<char>> {
    (if h.status matches Some(st) && st@ == "approved"@ && !header_has_content_hash(h) {
        seq!["content_hash missing (approved status)"@]
    } else {
        Seq::empty()
    }) + (if h.status matches Some(st) && sealed_like(st@) && !header_has_content_hash(h) {
        seq!["content_hash missing (sealed/deprecated/superseded)"@]
    } else {
        Seq::empty()
    }) + (if h.status matches Some(st) && sealed_like(st@) && !header_has_signature(h) {
        seq!["signature missing (sealed/deprecated/superseded)"@]
    } else {
        Seq::empty()
    }) + (if h.schema_version matches Some(v) && v@ == "2.0"@ {
        seq!["schema_version 2.0 (should migrate to 2.1)"@]
    } else {
        Seq::empty()
    })
}

/// The string of a text field, if any.
pub open spec fn field_text(v: FieldValue) -> Option<String> {
    match v {
        FieldValue::Text(s) => Some(s),
        _ => None,
    }
}

/// The string of an integrity sub-field, if the section and the field
/// are present.
pub open spec fn integrity_text(o: Option<Integrity>, which: int) -> Option<String> {
    match o {
        Some(i) => field_text(
            if which == 0 {
                i.hash_alg
            } else if which == 1 {
                i.signed_by
            } else {
                i.signed_at
            },
        ),
        None => None,
    }
}

/// `d` is the report of a document at `path` whose header is `h`.
pub open spec fn report_matches(d: DocumentReport, path: Seq<char>, h: DocumentHeader) -> bool {
    &&& d.path@ == path
    &&& d.title == h.title
    &&& d.unit_id == h.unit_id
    &&& d.document_type == h.document_type
    &&& d.status == h.status
    &&& d.trust_class == field_text(h.trust_class)
    &&& d.classification == h.classification
    &&& d.authority_tier == h.authority_tier
    &&& d.owner == h.owner
    &&& d.schema_version == h.schema_version
    &&& d.integrity.has_content_hash == header_has_content_hash(h)
    &&& d.integrity.has_signature == header_has_signature(h)
    &&& d.integrity.hash_algorithm == integrity_text(h.integrity, 0)
    &&& d.integrity.signed_by == integrity_text(h.integrity, 1)
    &&& d.integrity.signed_at == integrity_text(h.integrity, 2)
    &&& d.governance_debt.deep_view() == doc_debt_msgs(h)
    &&& d.created == h.created
    &&& d.last_updated == h.last_updated
}

fn field_text_of(v: &FieldValue) -> (r: Option<String>)
    ensures
        r == field_text(*v),
{
    match v {
        FieldValue::Text(s) => Some(s.clone()),
        _ => None,
    }
}

fn integrity_text_of(o: &Option<Integrity>, which: u8) -> (r: Option<String>)
    requires
        which < 3,
    ensures
        r == integrity_text(*o, which as int),
{
    match o {
        Some(i) => {
            if which == 0 {
                field_text_of(&i.hash_alg)
            } else if which == 1 {
                field_text_of(&i.signed_by)
            } else {
                field_text_of(&i.signed_at)
            }
        },
        None => None,
    }
}

/// Derive one document's report from its parse outcome: a document
/// whose frontmatter is missing or unparseable yields no report; a
/// parsed header yields its recorded fields, integrity facts and debt
/// messages, exactly.
pub fn parse_document(path: &str, parse: &HeaderParse) -> (r: Option<DocumentReport>)
    ensures
        match parse {
            HeaderParse::Parsed(h) => r matches Some(d) && report_matches(d, path@, *h),
            _ => r is None,
        },
{
    let h = match parse {
        HeaderParse::Parsed(h) => h,
        _ => {
            return None;
        },
    };
    let has_hash = match &h.integrity {
        Some(i) => !crate::header::is_yaml_null(&i.content_hash),
        None => false,
    };
    let has_sig = match &h.integrity {
        Some(i) => !crate::header::is_yaml_null(&i.signature),
        None => false,
    };
    let mut debt: Vec<String> = Vec::new();
    let approved = match &h.status {
        Some(st) => str_eq(st.as_str(), "approved"),
        None => false,
    };
    let sealed = match &h.status {
        Some(st) => str_eq(st.as_str(), "sealed") || str_eq(st.as_str(), "deprecated") || str_eq(
            st.as_str(),
            "superseded",
        ),
        None => false,
    };
    let v20 = match &h.schema_version {
        Some(v) => str_eq(v.as_str(), "2.0"),
        None => false,
    };
    if approved && !has_hash {
        debt.push(String::from_str("content_hash missing (approved status)"));
    }
    if sealed && !has_hash {
        debt.push(String::from_str("content_hash missing (sealed/deprecated/superseded)"));
    }
    if sealed && !has_sig {
        debt.push(String::from_str("signature missing (sealed/deprecated/superseded)"));
    }
    if v20 {
        debt.push(String::from_str("schema_version 2.0 (should migrate to 2.1)"));
    }
    proof {
        assert(debt.deep_view() =~= doc_debt_msgs(*h));
    }
    Some(
        DocumentReport {
            path: String::from_str(path),
            title: clone_opt_string(&h.title),
            unit_id: clone_opt_string(&h.unit_id),
            document_type: clone_opt_string(&h.document_type),
            status: clone_opt_string(&h.status),
            trust_class: field_text_of(&h.trust_class),
            classification: clone_opt_string(&h.classification),
            authority_tier: clone_opt_string(&h.authority_tier),
            owner: clone_opt_string(&h.owner),
            schema_version: clone_opt_string(&h.schema_version),
            integrity: DocumentIntegrity {
                has_content_hash: has_hash,
                has_signature: has_sig,
                hash_algorithm: integrity_text_of(&h.integrity, 0),
                signed_by: integrity_text_of(&h.integrity, 1),
                signed_at: integrity_text_of(&h.integrity, 2),
            },
            governance_debt: debt,
            created: clone_opt_string(&h.created),
            last_updated: clone_opt_string(&h.last_updated),
        },
    )
}

/// Paths excluded from the report.
pub open spec fn spec_should_exclude(path: Seq<char>) -> bool {
    ||| has_sub(path, "_deprecated"@)
    ||| has_sub(path, ".git"@)
    ||| has_sub(path, "target"@)
    ||| has_sub(path, "manifests"@)
}

/// Whether a path is excluded from the report.
pub fn should_exclude(path: &str) -> (r: bool)
    ensures
        r == spec_should_exclude(path@),
{
    str_contains(path, "_deprecated") || str_contains(path, ".git") || str_contains(path, "target")
        || str_contains(path, "manifests")
}

/// Extract the YAML frontmatter of a markdown document: the text between
/// the opening `---` and the first following `\n---`.
pub fn extract_frontmatter(content: &str) -> (r: Option<&str>)
    ensures
        match r {
            Some(fm) => {
                &&& crate::text::has_prefix(content@, "---"@)
                &&& exists|j: int|
                    {
                        &&& 3 <= j
                        &&& #[trigger] crate::text::contains_at(content@, "\n---"@, j)
                        &&& (forall|j2: int|
                            3 <= j2 < j ==> !crate::text::contains_at(content@, "\n---"@, j2))
                        &&& fm@ == content@.subrange(3, j)
                    }
            },
            None => !crate::text::has_prefix(content@, "---"@) || (forall|j: int|
                3 <= j ==> !crate::text::contains_at(content@, "\n---"@, j)),
        },
{
    crate::text::frontmatter(content)
}

/// How a report is rendered.
#[derive(Debug, Clone, Copy, PartialEq, Eq)]
pub enum OutputFormat {
    Json,
    JsonPretty,
    Table,
    Summary,
}

/// ASCII lower-casing of one character.
pub open spec fn ascii_lower_char(c: char) -> char {
    if 65 <= c as u32 <= 90 {
        (((c as u32) + 32) as u8) as char
    } else {
        c
    }
}

/// ASCII lower-casing of a character sequence.
pub open spec fn ascii_lower(s: Seq<char>) -> Seq<char> {
    s.map_values(|c: char| ascii_lower_char(c))
}

/// ASCII lower-casing of a string.
pub fn lowercase_ascii(s: &str) -> (r: String)
    ensures
        r@ == ascii_lower(s@),
{
    let cs = crate::text::chars_of(s);
    let mut r = String::new();
    let mut i: usize = 0;
    while i < cs.len()
        invariant
            cs@ == s@,
            i <= cs@.len(),
            r@ =~= ascii_lower(s@).take(i as int),
        decreases cs@.len() - i,
    {
        let c = cs[i];
        let u = c as u32;
        if 65 <= u && u <= 90 {
            r.push(((u + 32) as u8) as char);
        } else {
            r.push(c);
        }
        proof {
            assert(r@ =~= ascii_lower(s@).take(i + 1));
        }
        i = i + 1;
    }
    proof {
        assert(r@ =~= ascii_lower(s@));
    }
    r
}

/// The format a name denotes, compared without regard to ASCII case.
pub open spec fn format_of(lowered: Seq<char>) -> Option<OutputFormat> {
    if lowered == "json"@ {
        Some(OutputFormat::Json)
    } else if lowered == "json-pretty"@ {
        Some(OutputFormat::JsonPretty)
    } else if lowered == "table"@ {
        Some(OutputFormat::Table)
    } else if lowered == "summary"@ {
        Some(OutputFormat::Summary)
    } else {
        None
    }
}

/// Parse a format name: `json`, `json-pretty`, `table` or `summary`,
/// in any ASCII case; anything else is rejected with a message naming
/// the input.
pub fn parse_output_format(s: &str) -> (r: Result<OutputFormat, String>)
    ensures
        match format_of(ascii_lower(s@)) {
            Some(f) => r matches Ok(g) && g == f,
            None => r matches Err(m) && m@ == "Unknown format: "@ + s@,
        },
{
    let low = lowercase_ascii(s);
    if str_eq(low.as_str(), "json") {
        Ok(OutputFormat::Json)
    } else if str_eq(low.as_str(), "json-pretty") {
        Ok(OutputFormat::JsonPretty)
    } else if str_eq(low.as_str(), "table") {
        Ok(OutputFormat::Table)
    } else if str_eq(low.as_str(), "summary") {
        Ok(OutputFormat::Summary)
    } else {
        Err(String::from_str("Unknown format: ").concat(s))
    }
}

impl core::str::FromStr for OutputFormat {
    type Err = String;

    fn from_str(s: &str) -> Result<Self, String> {
        parse_output_format(s)
    }
}


// ----- counting maps: association lists from value to count -----

/// The count recorded for `k`, zero when `k` has no entry.
pub open spec fn lookup(m: Seq<(String, u32)>, k: Seq<char>) -> int
    decreases m.len(),
{
    if m.len() == 0 {
        0
    } else if m[0].0@ == k {
        m[0].1 as int
    } else {
        lookup(m.drop_first(), k)
    }
}

proof fn lemma_lookup_nonneg(m: Seq<(String, u32)>, k: Seq<char>)
    ensures
        lookup(m, k) >= 0,
    decreases m.len(),
{
    if m.len() > 0 && m[0].0@ != k {
        lemma_lookup_nonneg(m.drop_first(), k);
    }
}

proof fn lemma_lookup_at(m: Seq<(String, u32)>, i: int, k: Seq<char>)
    requires
        0 <= i < m.len(),
        m[i].0@ == k,
        forall|j: int| 0 <= j < i ==> (#[trigger] m[j]).0@ != k,
    ensures
        lookup(m, k) == m[i].1 as int,
    decreases i,
{
    if i > 0 {
        lemma_lookup_at(m.drop_first(), i - 1, k);
    }
}

proof fn lemma_lookup_update(m: Seq<(String, u32)>, i: int, p: (String, u32), k: Seq<char>)
    requires
        0 <= i < m.len(),
        p.0@ == m[i].0@,
        forall|j: int| 0 <= j < i ==> (#[trigger] m[j]).0@ != m[i].0@,
    ensures
        lookup(m.update(i, p), k) == if k == m[i].0@ {
            p.1 as int
        } else {
            lookup(m, k)
        },
    decreases i,
{
    let mu = m.update(i, p);
    if i == 0 {
        assert(mu.drop_first() =~= m.drop_first());
    } else {
        assert(mu.drop_first() =~= m.drop_first().update(i - 1, p));
        lemma_lookup_update(m.drop_first(), i - 1, p, k);
        assert(mu[0] == m[0]);
    }
}

proof fn lemma_lookup_push(m: Seq<(String, u32)>, p: (String, u32), k: Seq<char>)
    requires
        forall|j: int| 0 <= j < m.len() ==> (#[trigger] m[j]).0@ != p.0@,
    ensures
        lookup(m.push(p), k) == if k == p.0@ {
            p.1 as int
        } else {
            lookup(m, k)
        },
    decreases m.len(),
{
    let mp = m.push(p);
    if m.len() == 0 {
        assert(mp.len() == 1);
        assert(mp[0] == p);
        assert(mp.drop_first() =~= Seq::<(String, u32)>::empty());
        if k == p.0@ {
            assert(lookup(mp, k) == p.1 as int);
        } else {
            assert(lookup(mp, k) == lookup(mp.drop_first(), k));
        }
    } else {
        assert(mp.drop_first() =~= m.drop_first().push(p));
        lemma_lookup_push(m.drop_first(), p, k);
        assert(mp[0] == m[0]);
    }
}

/// Add one to the count recorded for `key`.
fn bump(m: &mut Vec<(String, u32)>, key: &String)
    requires
        lookup(old(m)@, key@) < u32::MAX,
    ensures
        forall|k: Seq<char>| #[trigger] lookup(final(m)@, k) == if k == key@ {
            lookup(old(m)@, k) + 1
        } else {
            lookup(old(m)@, k)
        },
{
    let mut i: usize = 0;
    while i < m.len()
        invariant
            i <= m@.len(),
            m@ == old(m)@,
            lookup(m@, key@) < u32::MAX,
            forall|j: int| 0 <= j < i ==> (#[trigger] m@[j]).0@ != key@,
        decreases m@.len() - i,
    {
        if m[i].0 == *key {
            proof {
                lemma_lookup_at(m@, i as int, key@);
            }
            let cur = m[i].1;
            let fresh = (m[i].0.clone(), cur + 1);
            let ghost before = m@;
            m[i] = fresh;
            proof {
                assert forall|k: Seq<char>| #[trigger] lookup(m@, k) == (if k == key@ {
                    lookup(before, k) + 1
                } else {
                    lookup(before, k)
                }) by {
                    lemma_lookup_update(before, i as int, fresh, k);
                }
            }
            return ;
        }
        i = i + 1;
    }
    let fresh = (key.clone(), 1u32);
    let ghost before = m@;
    m.push(fresh);
    proof {
        assert forall|k: Seq<char>| #[trigger] lookup(m@, k) == (if k == key@ {
            lookup(before, k) + 1
        } else {
            lookup(before, k)
        }) by {
            lemma_lookup_push(before, fresh, k);
            if k == key@ {
                lemma_lookup_at(before.push(fresh), before.len() as int, k);
                assert(lookup(before, k) == 0) by {
                    lemma_lookup_absent(before, k);
                }
            }
        }
    }
}

proof fn lemma_lookup_absent(m: Seq<(String, u32)>, k: Seq<char>)
    requires
        forall|j: int| 0 <= j < m.len() ==> (#[trigger] m[j]).0@ != k,
    ensures
        lookup(m, k) == 0,
    decreases m.len(),
{
    if m.len() > 0 {
        lemma_lookup_absent(m.drop_first(), k);
    }
}

// ----- what the summary counts, field by field -----

/// How many documents from position `i` on carry status `k`.
pub open spec fn status_count(docs: Seq<DocumentReport>, k: Seq<char>, i: int) -> nat
    decreases docs.len() - i,
{
    if i < 0 || i >= docs.len() {
        0
    } else {
        (if docs[i].status matches Some(s) && s@ == k {
            1nat
        } else {
            0nat
        }) + status_count(docs, k, i + 1)
    }
}

/// How many documents from position `i` on carry document type `k`.
pub open spec fn doc_type_count(docs: Seq<DocumentReport>, k: Seq<char>, i: int) -> nat
    decreases docs.len() - i,
{
    if i < 0 || i >= docs.len() {
        0
    } else {
        (if docs[i].document_type matches Some(s) && s@ == k {
            1nat
        } else {
            0nat
        }) + doc_type_count(docs, k, i + 1)
    }
}

/// The trust-class key a document counts under: its trust class, or
/// `unspecified` when it declares none.
pub open spec fn trust_key(d: DocumentReport) -> Seq<char> {
    match d.trust_class {
        Some(s) => s@,
        None => "unspecified"@,
    }
}

/// How many documents from position `i` on count under trust class `k`.
pub open spec fn trust_count(docs: Seq<DocumentReport>, k: Seq<char>, i: int) -> nat
    decreases docs.len() - i,
{
    if i < 0 || i >= docs.len() {
        0
    } else {
        (if trust_key(docs[i]) == k {
            1nat
        } else {
            0nat
        }) + trust_count(docs, k, i + 1)
    }
}

/// How many documents from position `i` on carry classification `k`.
pub open spec fn classification_count(docs: Seq<DocumentReport>, k: Seq<char>, i: int) -> nat
    decreases docs.len() - i,
{
    if i < 0 || i >= docs.len() {
        0
    } else {
        (if docs[i].classification matches Some(s) && s@ == k {
            1nat
        } else {
            0nat
        }) + classification_count(docs, k, i + 1)
    }
}

/// How many documents from position `i` on carry authority tier `k`.
pub open spec fn tier_count(docs: Seq<DocumentReport>, k: Seq<char>, i: int) -> nat
    decreases docs.len() - i,
{
    if i < 0 || i >= docs.len() {
        0
    } else {
        (if docs[i].authority_tier matches Some(s) && s@ == k {
            1nat
        } else {
            0nat
        }) + tier_count(docs, k, i + 1)
    }
}

/// How many documents from position `i` on satisfy the selected flag:
/// 0 a content hash, 1 a signature, 2 both, 3 any recorded debt.
pub open spec fn flag_count(docs: Seq<DocumentReport>, which: int, i: int) -> nat
    decreases docs.len() - i,
{
    if i < 0 || i >= docs.len() {
        0
    } else {
        (if doc_flag(docs[i], which) {
            1nat
        } else {
            0nat
        }) + flag_count(docs, which, i + 1)
    }
}

pub open spec fn doc_flag(d: DocumentReport, which: int) -> bool {
    if which == 0 {
        d.integrity.has_content_hash
    } else if which == 1 {
        d.integrity.has_signature
    } else if which == 2 {
        d.integrity.has_content_hash && d.integrity.has_signature
    } else {
        d.governance_debt@.len() > 0
    }
}

/// The schema-version class a document counts under: 0 version 2.1,
/// 1 version 2.0, 2 another version, 3 no version.
pub open spec fn schema_class(d: DocumentReport) -> int {
    match d.schema_version {
        Some(v) => if v@ == "2.1"@ {
            0
        } else if v@ == "2.0"@ {
            1
        } else {
            2
        },
        None => 3,
    }
}

/// How many documents from position `i` on fall in schema class `c`.
pub open spec fn schema_count(docs: Seq<DocumentReport>, c: int, i: int) -> nat
    decreases docs.len() - i,
{
    if i < 0 || i >= docs.len() {
        0
    } else {
        (if schema_class(docs[i]) == c {
            1nat
        } else {
            0nat
        }) + schema_count(docs, c, i + 1)
    }
}

fn tally_status(docs: &Vec<DocumentReport>) -> (m: Vec<(String, u32)>)
    requires
        docs@.len() <= u32::MAX,
    ensures
        forall|k: Seq<char>| #[trigger] lookup(m@, k) == status_count(docs@, k, 0),
{
    let mut m: Vec<(String, u32)> = Vec::new();
    let mut i: usize = 0;
    while i < docs.len()
        invariant
            docs@.len() <= u32::MAX,
            i <= docs@.len(),
            forall|k: Seq<char>| #[trigger] lookup(m@, k) + status_count(docs@, k, i as int)
                == status_count(docs@, k, 0),
            forall|k: Seq<char>| #[trigger] lookup(m@, k) <= i,
        decreases docs@.len() - i,
    {
        let ghost before = m@;
        match &docs[i].status {
            Some(s) => {
                bump(&mut m, s);
            },
            None => {},
        }
        proof {
            assert forall|k: Seq<char>| #[trigger] lookup(m@, k) + status_count(
                docs@,
                k,
                i + 1,
            ) == status_count(docs@, k, 0) by {
                assert(lookup(before, k) + status_count(docs@, k, i as int) == status_count(
                    docs@,
                    k,
                    0,
                ));
            }
        }
        i = i + 1;
    }
    m
}

fn tally_doc_type(docs: &Vec<DocumentReport>) -> (m: Vec<(String, u32)>)
    requires
        docs@.len() <= u32::MAX,
    ensures
        forall|k: Seq<char>| #[trigger] lookup(m@, k) == doc_type_count(docs@, k, 0),
{
    let mut m: Vec<(String, u32)> = Vec::new();
    let mut i: usize = 0;
    while i < docs.len()
        invariant
            docs@.len() <= u32::MAX,
            i <= docs@.len(),
            forall|k: Seq<char>| #[trigger] lookup(m@, k) + doc_type_count(docs@, k, i as int)
                == doc_type_count(docs@, k, 0),
            forall|k: Seq<char>| #[trigger] lookup(m@, k) <= i,
        decreases docs@.len() - i,
    {
        let ghost before = m@;
        match &docs[i].document_type {
            Some(s) => {
                bump(&mut m, s);
            },
            None => {},
        }
        proof {
            assert forall|k: Seq<char>| #[trigger] lookup(m@, k) + doc_type_count(
                docs@,
                k,
                i + 1,
            ) == doc_type_count(docs@, k, 0) by {
                assert(lookup(before, k) + doc_type_count(docs@, k, i as int) == doc_type_count(
                    docs@,
                    k,
                    0,
                ));
            }
        }
        i = i + 1;
    }
    m
}

fn tally_trust_class(docs: &Vec<DocumentReport>) -> (m: Vec<(String, u32)>)
    requires
        docs@.len() <= u32::MAX,
    ensures
        forall|k: Seq<char>| #[trigger] lookup(m@, k) == trust_count(docs@, k, 0),
{
    let mut m: Vec<(String, u32)> = Vec::new();
    let mut i: usize = 0;
    while i < docs.len()
        invariant
            docs@.len() <= u32::MAX,
            i <= docs@.len(),
            forall|k: Seq<char>| #[trigger] lookup(m@, k) + trust_count(docs@, k, i as int)
                == trust_count(docs@, k, 0),
            forall|k: Seq<char>| #[trigger] lookup(m@, k) <= i,
        decreases docs@.len() - i,
    {
        let ghost before = m@;
        match &docs[i].trust_class {
            Some(s) => {
                bump(&mut m, s);
            },
            None => {
                let unspecified = String::from_str("unspecified");
                bump(&mut m, &unspecified);
            },
        }
        proof {
            assert forall|k: Seq<char>| #[trigger] lookup(m@, k) + trust_count(
                docs@,
                k,
                i + 1,
            ) == trust_count(docs@, k, 0) by {
                assert(lookup(before, k) + trust_count(docs@, k, i as int) == trust_count(
                    docs@,
                    k,
                    0,
                ));
            }
        }
        i = i + 1;
    }
    m
}

fn tally_classification(docs: &Vec<DocumentReport>) -> (m: Vec<(String, u32)>)
    requires
        docs@.len() <= u32::MAX,
    ensures
        forall|k: Seq<char>| #[trigger] lookup(m@, k) == classification_count(docs@, k, 0),
{
    let mut m: Vec<(String, u32)> = Vec::new();
    let mut i: usize = 0;
    while i < docs.len()
        invariant
            docs@.len() <= u32::MAX,
            i <= docs@.len(),
            forall|k: Seq<char>| #[trigger] lookup(m@, k) + classification_count(
                docs@,
                k,
                i as int,
            ) == classification_count(docs@, k, 0),
            forall|k: Seq<char>| #[trigger] lookup(m@, k) <= i,
        decreases docs@.len() - i,
    {
        let ghost before = m@;
        match &docs[i].classification {
            Some(s) => {
                bump(&mut m, s);
            },
            None => {},
        }
        proof {
            assert forall|k: Seq<char>| #[trigger] lookup(m@, k) + classification_count(
                docs@,
                k,
                i + 1,
            ) == classification_count(docs@, k, 0) by {
                assert(lookup(before, k) + classification_count(docs@, k, i as int)
                    == classification_count(docs@, k, 0));
            }
        }
        i = i + 1;
    }
    m
}

fn tally_tier(docs: &Vec<DocumentReport>) -> (m: Vec<(String, u32)>)
    requires
        docs@.len() <= u32::MAX,
    ensures
        forall|k: Seq<char>| #[trigger] lookup(m@, k) == tier_count(docs@, k, 0),
{
    let mut m: Vec<(String, u32)> = Vec::new();
    let mut i: usize = 0;
    while i < docs.len()
        invariant
            docs@.len() <= u32::MAX,
            i <= docs@.len(),
            forall|k: Seq<char>| #[trigger] lookup(m@, k) + tier_count(docs@, k, i as int)
                == tier_count(docs@, k, 0),
            forall|k: Seq<char>| #[trigger] lookup(m@, k) <= i,
        decreases docs@.len() - i,
    {
        let ghost before = m@;
        match &docs[i].authority_tier {
            Some(s) => {
                bump(&mut m, s);
            },
            None => {},
        }
        proof {
            assert forall|k: Seq<char>| #[trigger] lookup(m@, k) + tier_count(docs@, k, i + 1)
                == tier_count(docs@, k, 0) by {
                assert(lookup(before, k) + tier_count(docs@, k, i as int) == tier_count(
                    docs@,
                    k,
                    0,
                ));
            }
        }
        i = i + 1;
    }
    m
}

/// Summarise a document set: the total, the per-value counts for
/// status, document type, trust class, classification and authority
/// tier, the integrity counts, and the schema-version counts -- each
/// exactly the number of documents that carry the value.
pub fn summarize(documents: &Vec<DocumentReport>) -> (r: ReportSummary)
    requires
        documents@.len() <= u32::MAX,
    ensures
        r.total_documents == documents@.len(),
        forall|k: Seq<char>| #[trigger] lookup(r.by_status@, k) == status_count(documents@, k, 0),
        forall|k: Seq<char>| #[trigger] lookup(r.by_document_type@, k) == doc_type_count(
            documents@,
            k,
            0,
        ),
        forall|k: Seq<char>| #[trigger] lookup(r.by_trust_class@, k) == trust_count(
            documents@,
            k,
            0,
        ),
        forall|k: Seq<char>| #[trigger] lookup(r.by_classification@, k) == classification_count(
            documents@,
            k,
            0,
        ),
        forall|k: Seq<char>| #[trigger] lookup(r.by_authority_tier@, k) == tier_count(
            documents@,
            k,
            0,
        ),
        r.integrity_counts.with_content_hash == flag_count(documents@, 0, 0),
        r.integrity_counts.without_content_hash == documents@.len() - flag_count(documents@, 0, 0),
        r.integrity_counts.with_signature == flag_count(documents@, 1, 0),
        r.integrity_counts.without_signature == documents@.len() - flag_count(documents@, 1, 0),
        r.integrity_counts.fully_sealed == flag_count(documents@, 2, 0),
        r.schema_metrics.v2_1_documents == schema_count(documents@, 0, 0),
        r.schema_metrics.v2_0_documents == schema_count(documents@, 1, 0),
        r.schema_metrics.other_version_documents == schema_count(documents@, 2, 0),
        r.schema_metrics.missing_schema == schema_count(documents@, 3, 0),
{
    let total = documents.len() as u32;
    let mut with_hash: u32 = 0;
    let mut with_sig: u32 = 0;
    let mut sealed: u32 = 0;
    let mut v21: u32 = 0;
    let mut v20: u32 = 0;
    let mut other: u32 = 0;
    let mut missing: u32 = 0;
    let mut i: usize = 0;
    while i < documents.len()
        invariant
            documents@.len() <= u32::MAX,
            i <= documents@.len(),
            with_hash <= i && with_sig <= i && sealed <= i,
            v21 <= i && v20 <= i && other <= i && missing <= i,
            with_hash + flag_count(documents@, 0, i as int) == flag_count(documents@, 0, 0),
            with_sig + flag_count(documents@, 1, i as int) == flag_count(documents@, 1, 0),
            sealed + flag_count(documents@, 2, i as int) == flag_count(documents@, 2, 0),
            v21 + schema_count(documents@, 0, i as int) == schema_count(documents@, 0, 0),
            v20 + schema_count(documents@, 1, i as int) == schema_count(documents@, 1, 0),
            other + schema_count(documents@, 2, i as int) == schema_count(documents@, 2, 0),
            missing + schema_count(documents@, 3, i as int) == schema_count(documents@, 3, 0),
        decreases documents@.len() - i,
    {
        let d = &documents[i];
        if d.integrity.has_content_hash {
            with_hash = with_hash + 1;
        }
        if d.integrity.has_signature {
            with_sig = with_sig + 1;
        }
        if d.integrity.has_content_hash && d.integrity.has_signature {
            sealed = sealed + 1;
        }
        match &d.schema_version {
            Some(v) => {
                if str_eq(v.as_str(), "2.1") {
                    v21 = v21 + 1;
                } else if str_eq(v.as_str(), "2.0") {
                    v20 = v20 + 1;
                } else {
                    other = other + 1;
                }
            },
            None => {
                missing = missing + 1;
            },
        }
        i = i + 1;
    }
    proof {
        assert(flag_count(documents@, 0, 0) <= documents@.len()) by {
            assert(with_hash <= documents@.len());
        }
        assert(flag_count(documents@, 1, 0) <= documents@.len()) by {
            assert(with_sig <= documents@.len());
        }
    }
    ReportSummary {
        total_documents: total,
        by_status: tally_status(documents),
        by_document_type: tally_doc_type(documents),
        by_trust_class: tally_trust_class(documents),
        by_classification: tally_classification(documents),
        by_authority_tier: tally_tier(documents),
        integrity_counts: IntegrityCounts {
            with_content_hash: with_hash,
            without_content_hash: total - with_hash,
            with_signature: with_sig,
            without_signature: total - with_sig,
            fully_sealed: sealed,
        },
        schema_metrics: SchemaMetrics {
            v2_1_documents: v21,
            v2_0_documents: v20,
            other_version_documents: other,
            missing_schema: missing,
        },
    }
}


// ----- recorded debt over a document set -----

/// The kind recorded for one debt message.
pub open spec fn debt_type_of(desc: Seq<char>) -> Seq<char> {
    if has_sub(desc, "content_hash"@) {
        "missing_content_hash"@
    } else if has_sub(desc, "signature"@) {
        "missing_signature"@
    } else if has_sub(desc, "schema_version"@) {
        "schema_migration"@
    } else {
        "other"@
    }
}

/// The severity recorded for one debt message.
pub open spec fn severity_of(desc: Seq<char>) -> Seq<char> {
    if has_sub(desc, "sealed"@) || has_sub(desc, "deprecated"@) {
        "error"@
    } else {
        "warning"@
    }
}

/// The debt entries of one document from message `j` on: its path
/// paired with each debt message, in order.
pub open spec fn doc_entries(path: Seq<char>, debts: Seq<Seq<char>>, j: int) -> Seq<
    (Seq<char>, Seq<char>),
>
    decreases debts.len() - j,
{
    if j < 0 || j >= debts.len() {
        Seq::empty()
    } else {
        seq![(path, debts[j])] + doc_entries(path, debts, j + 1)
    }
}

/// The debt entries of the documents from position `i` on.
pub open spec fn all_entries(docs: Seq<DocumentReport>, i: int) -> Seq<(Seq<char>, Seq<char>)>
    decreases docs.len() - i,
{
    if i < 0 || i >= docs.len() {
        Seq::empty()
    } else {
        doc_entries(docs[i].path@, docs[i].governance_debt.deep_view(), 0) + all_entries(
            docs,
            i + 1,
        )
    }
}

/// `it` records the entry `(path, desc)`: kind and severity derived
/// from the message.
pub open spec fn debt_item_matches(it: DebtItem, path: Seq<char>, desc: Seq<char>) -> bool {
    &&& it.path@ == path
    &&& it.description@ == desc
    &&& it.debt_type@ == debt_type_of(desc)
    &&& it.severity@ == severity_of(desc)
}

/// `items` records exactly `entries`, in order.
pub open spec fn items_match(items: Seq<DebtItem>, entries: Seq<(Seq<char>, Seq<char>)>) -> bool {
    &&& items.len() == entries.len()
    &&& forall|x: int|
        0 <= x < items.len() ==> debt_item_matches(
            #[trigger] items[x],
            entries[x].0,
            entries[x].1,
        )
}

/// How many entries from position `j` on carry kind `k`.
pub open spec fn entry_type_count(entries: Seq<(Seq<char>, Seq<char>)>, k: Seq<char>, j: int) -> nat
    decreases entries.len() - j,
{
    if j < 0 || j >= entries.len() {
        0
    } else {
        (if debt_type_of(entries[j].1) == k {
            1nat
        } else {
            0nat
        }) + entry_type_count(entries, k, j + 1)
    }
}

fn debt_kind_of(desc: &str) -> (r: String)
    ensures
        r@ == debt_type_of(desc@),
{
    if str_contains(desc, "content_hash") {
        String::from_str("missing_content_hash")
    } else if str_contains(desc, "signature") {
        String::from_str("missing_signature")
    } else if str_contains(desc, "schema_version") {
        String::from_str("schema_migration")
    } else {
        String::from_str("other")
    }
}

fn debt_severity_of(desc: &str) -> (r: String)
    ensures
        r@ == severity_of(desc@),
{
    if str_contains(desc, "sealed") || str_contains(desc, "deprecated") {
        String::from_str("error")
    } else {
        String::from_str("warning")
    }
}

/// Collect the recorded debt of a document set: one item per debt
/// message of each document, in order, with its kind and severity; how
/// many documents carry any debt; and the per-kind counts.
#[verifier::rlimit(60)]
pub fn collect_debt(documents: &Vec<DocumentReport>) -> (r: GovernanceDebt)
    requires
        documents@.len() <= u32::MAX,
        all_entries(documents@, 0).len() <= u32::MAX,
    ensures
        r.documents_with_debt == flag_count(documents@, 3, 0),
        items_match(r.debt_items@, all_entries(documents@, 0)),
        r.total_debt_items == r.debt_items@.len(),
        forall|k: Seq<char>| #[trigger] lookup(r.debt_by_type@, k) == entry_type_count(
            all_entries(documents@, 0),
            k,
            0,
        ),
{
    broadcast use crate::text::lemma_string_vec_deep_view;

    let ghost all0 = all_entries(documents@, 0);
    let mut items: Vec<DebtItem> = Vec::new();
    let mut map: Vec<(String, u32)> = Vec::new();
    let mut count: u32 = 0;
    let mut with_debt: u32 = 0;
    let ghost mut done: Seq<(Seq<char>, Seq<char>)> = Seq::empty();
    let mut i: usize = 0;
    proof {
        assert(done + all_entries(documents@, 0) =~= all0);
    }
    while i < documents.len()
        invariant
            documents@.len() <= u32::MAX,
            all0 == all_entries(documents@, 0),
            all0.len() <= u32::MAX,
            i <= documents@.len(),
            with_debt <= i,
            with_debt + flag_count(documents@, 3, i as int) == flag_count(documents@, 3, 0),
            done + all_entries(documents@, i as int) == all0,
            items_match(items@, done),
            count == items@.len(),
            count == done.len(),
            forall|k: Seq<char>| #[trigger] lookup(map@, k) + entry_type_count(
                all0,
                k,
                done.len() as int,
            ) == entry_type_count(all0, k, 0),
            forall|k: Seq<char>| #[trigger] lookup(map@, k) <= done.len(),
        decreases documents@.len() - i,
    {
        let d = &documents[i];
        if d.governance_debt.len() > 0 {
            with_debt = with_debt + 1;
        }
        let ghost debts_view = d.governance_debt.deep_view();
        let mut j: usize = 0;
        proof {
            assert(done + (doc_entries(d.path@, debts_view, 0) + all_entries(
                documents@,
                i + 1,
            )) =~= all0);
        }
        while j < d.governance_debt.len()
            invariant
                documents@.len() <= u32::MAX,
                all0.len() <= u32::MAX,
                i < documents@.len(),
                d == documents@[i as int],
                debts_view == d.governance_debt.deep_view(),
                debts_view.len() == d.governance_debt@.len(),
                j <= debts_view.len(),
                done + (doc_entries(d.path@, debts_view, j as int) + all_entries(
                    documents@,
                    i + 1,
                )) == all0,
                items_match(items@, done),
                count == items@.len(),
                count == done.len(),
                forall|k: Seq<char>| #[trigger] lookup(map@, k) + entry_type_count(
                    all0,
                    k,
                    done.len() as int,
                ) == entry_type_count(all0, k, 0),
                forall|k: Seq<char>| #[trigger] lookup(map@, k) <= done.len(),
            decreases debts_view.len() - j,
        {
            let desc = &d.governance_debt[j];
            let kind = debt_kind_of(desc.as_str());
            let severity = debt_severity_of(desc.as_str());
            let ghost entry = (d.path@, debts_view[j as int]);
            proof {
                assert(doc_entries(d.path@, debts_view, j as int) == seq![entry] + doc_entries(
                    d.path@,
                    debts_view,
                    j + 1,
                ));
                assert(all0[done.len() as int] == entry) by {
                    assert((seq![entry] + doc_entries(d.path@, debts_view, j + 1)
                        + all_entries(documents@, i + 1))[0] == entry);
                    assert(all0 =~= done + (seq![entry] + (doc_entries(d.path@, debts_view, j + 1)
                        + all_entries(documents@, i + 1))));
                }
                assert(done.len() < all0.len()) by {
                    assert(all0.len() == done.len() + (doc_entries(d.path@, debts_view, j as int)
                        + all_entries(documents@, i + 1)).len());
                    assert(doc_entries(d.path@, debts_view, j as int).len() >= 1) by {
                        assert(doc_entries(d.path@, debts_view, j as int) == seq![entry]
                            + doc_entries(d.path@, debts_view, j + 1));
                    }
                }
            }
            let item = DebtItem {
                path: d.path.clone(),
                debt_type: kind.clone(),
                description: desc.clone(),
                severity: severity,
            };
            let ghost items_before = items@;
            let ghost map_before = map@;
            let ghost done_before = done;
            items.push(item);
            bump(&mut map, &kind);
            count = count + 1;
            proof {
                done = done.push(entry);
                assert(done =~= done_before.push(entry));
                assert forall|x: int|
                    0 <= x < items@.len() implies debt_item_matches(
                    #[trigger] items@[x],
                    done[x].0,
                    done[x].1,
                ) by {
                    if x < items_before.len() {
                        assert(items@[x] == items_before[x]);
                        assert(done[x] == done_before[x]);
                    } else {
                        assert(items@[x] == item);
                        assert(done[x] == entry);
                    }
                }
                assert(items_match(items@, done));
                // the processed entry moves from the remaining suffix to
                // the recorded prefix
                assert(done + (doc_entries(d.path@, debts_view, j + 1) + all_entries(
                    documents@,
                    i + 1,
                )) =~= all0);
                assert forall|k: Seq<char>| #[trigger] lookup(map@, k) + entry_type_count(
                    all0,
                    k,
                    done.len() as int,
                ) == entry_type_count(all0, k, 0) by {
                    assert(lookup(map_before, k) + entry_type_count(
                        all0,
                        k,
                        done_before.len() as int,
                    ) == entry_type_count(all0, k, 0));
                    assert(entry_type_count(all0, k, done_before.len() as int) == (if debt_type_of(
                        all0[done_before.len() as int].1,
                    ) == k {
                        1nat
                    } else {
                        0nat
                    }) + entry_type_count(all0, k, done_before.len() as int + 1));
                }
            }
            j = j + 1;
        }
        proof {
            assert(doc_entries(d.path@, debts_view, debts_view.len() as int)
                =~= Seq::<(Seq<char>, Seq<char>)>::empty());
            assert(done + all_entries(documents@, i + 1) =~= all0);
        }
        i = i + 1;
    }
    proof {
        assert(done + all_entries(documents@, documents@.len() as int) =~= done);
        assert(done == all0);
    }
    GovernanceDebt {
        total_debt_items: count,
        documents_with_debt: with_debt,
        debt_by_type: map,
        debt_items: items,
    }
}

} // verus!
