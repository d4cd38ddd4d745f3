//! Drift analysis between two versions of a tool schema: a structural
//! diff categorised on a four-level scale, where the report's level is
//! the maximum severity across all detected changes.

use vstd::prelude::*;
use vstd::string::StrSliceExecFns;
use vstd::string::StringExecFns;

use crate::json::JsonValue;
use crate::json::canon;
use crate::json::canonicalize;
use crate::json::duplicate;
use crate::registry::ToolSchema;
use crate::registry::hash_tool_schema;
use crate::registry::spec_schema_hash;
use crate::text::str_eq;

verus! {

/// The severity of schema drift, in rising order.
#[derive(Debug, Clone, Copy, PartialEq, Eq, PartialOrd, Ord, Structural)]
pub enum DriftLevel {
    /// No change detected.
    NoDrift,
    /// A cosmetic change.
    Minor,
    /// A functional change.
    Major,
    /// A fundamental change.
    Critical,
}

impl DriftLevel {
    /// The level's position on the scale.
    pub open spec fn spec_rank(self) -> int {
        match self {
            DriftLevel::NoDrift => 0,
            DriftLevel::Minor => 1,
            DriftLevel::Major => 2,
            DriftLevel::Critical => 3,
        }
    }

    /// The position on the scale, executable form.
    pub fn rank(&self) -> (r: u8)
        ensures
            r as int == self.spec_rank(),
    {
        match self {
            DriftLevel::NoDrift => 0,
            DriftLevel::Minor => 1,
            DriftLevel::Major => 2,
            DriftLevel::Critical => 3,
        }
    }

    /// The higher of two levels.
    pub fn max_with(self, other: DriftLevel) -> (r: DriftLevel)
        ensures
            r.spec_rank() == if self.spec_rank() >= other.spec_rank() {
                self.spec_rank()
            } else {
                other.spec_rank()
            },
            r == self || r == other,
    {
        if self.rank() >= other.rank() {
            self
        } else {
            other
        }
    }
}

/// A drift report: the overall level, the change descriptions, and the
/// digests of both versions.
#[derive(Debug, Clone, PartialEq, Eq)]
pub struct DriftReport {
    /// The maximum severity across all detected changes.
    pub level: DriftLevel,
    /// One description per detected change.
    pub changes: Vec<String>,
    /// The digest of the registered version, when there was one.
    pub old_hash: Option<Vec<u8>>,
    /// The digest of the observed version.
    pub new_hash: Vec<u8>,
}

/// The value stored under a key of a JSON object; nothing for other
/// shapes.
pub open spec fn spec_obj_get(v: JsonValue, key: Seq<char>) -> Option<JsonValue> {
    match v {
        JsonValue::Object(es) => spec_entry_get(
            es@.map_values(|e: (String, JsonValue)| (e.0@, e.1)),
            key,
        ),
        _ => None,
    }
}

/// The first entry under a key.
pub open spec fn spec_entry_get(es: Seq<(Seq<char>, JsonValue)>, key: Seq<char>) -> Option<
    JsonValue,
>
    decreases es.len(),
{
    if es.len() == 0 {
        None
    } else if es[0].0 == key {
        Some(es[0].1)
    } else {
        spec_entry_get(es.drop_first(), key)
    }
}

/// The declared `type` of a schema document: the string under its
/// `type` key, or `unknown`.
pub open spec fn spec_type_of(v: JsonValue) -> Seq<char> {
    match spec_obj_get(v, "type"@) {
        Some(t) => match t {
            JsonValue::Text(s) => s@,
            _ => "unknown"@,
        },
        None => "unknown"@,
    }
}

/// The document's properties: the entries of the object under
/// `properties`, or nothing.
pub open spec fn spec_props(v: JsonValue) -> Seq<(Seq<char>, JsonValue)> {
    match spec_obj_get(v, "properties"@) {
        Some(p) => match p {
            JsonValue::Object(es) => es@.map_values(|e: (String, JsonValue)| (e.0@, e.1)),
            _ => Seq::empty(),
        },
        None => Seq::empty(),
    }
}

/// The names under the document's `required` array.
pub open spec fn spec_required(v: JsonValue) -> Seq<Seq<char>> {
    match spec_obj_get(v, "required"@) {
        Some(p) => match p {
            JsonValue::Array(xs) => spec_text_views(xs@),
            _ => Seq::empty(),
        },
        None => Seq::empty(),
    }
}

/// The views of the string elements, other elements skipped.
pub open spec fn spec_text_views(xs: Seq<JsonValue>) -> Seq<Seq<char>>
    decreases xs.len(),
{
    if xs.len() == 0 {
        Seq::empty()
    } else {
        let rest = spec_text_views(xs.drop_last());
        match xs.last() {
            JsonValue::Text(s) => rest.push(s@),
            _ => rest,
        }
    }
}

/// A name among a list of names.
pub open spec fn spec_name_in(names: Seq<Seq<char>>, name: Seq<char>) -> bool {
    exists|i: int| 0 <= i < names.len() && names[i] == name
}

/// A property that the old document required has disappeared.
pub open spec fn spec_removed_required(a: JsonValue, b: JsonValue) -> bool {
    exists|i: int|
        0 <= i < spec_props(a).len() && spec_entry_get(
            spec_props(b),
            (#[trigger] spec_props(a)[i]).0,
        ) is None && spec_name_in(spec_required(a), spec_props(a)[i].0)
}

/// A property present in both documents changed its declared type.
pub open spec fn spec_prop_type_changed(a: JsonValue, b: JsonValue) -> bool {
    exists|i: int|
        0 <= i < spec_props(a).len() && match spec_entry_get(
            spec_props(b),
            (#[trigger] spec_props(a)[i]).0,
        ) {
            Some(pb) => spec_type_of(spec_props(a)[i].1) != spec_type_of(pb),
            None => false,
        }
}

/// A property of the old document has disappeared though nothing
/// required it.
pub open spec fn spec_removed_optional(a: JsonValue, b: JsonValue) -> bool {
    exists|i: int|
        0 <= i < spec_props(a).len() && spec_entry_get(
            spec_props(b),
            (#[trigger] spec_props(a)[i]).0,
        ) is None && !spec_name_in(spec_required(a), spec_props(a)[i].0)
}

/// A property has arrived that the new document requires.
pub open spec fn spec_added_required(a: JsonValue, b: JsonValue) -> bool {
    exists|j: int|
        0 <= j < spec_props(b).len() && spec_entry_get(
            spec_props(a),
            (#[trigger] spec_props(b)[j]).0,
        ) is None && spec_name_in(spec_required(b), spec_props(b)[j].0)
}

/// A property present in both documents is newly required.
pub open spec fn spec_newly_required(a: JsonValue, b: JsonValue) -> bool {
    exists|w: int|
        0 <= w < spec_required(b).len() && spec_entry_get(
            spec_props(a),
            #[trigger] spec_required(b)[w],
        ) is Some && !spec_name_in(spec_required(a), spec_required(b)[w])
}

/// A change of the document that the table counts as Major: for object
/// documents of the same declared type whose canonical forms differ, the
/// removal of an optional property, the arrival of a required one, or an
/// existing property becoming required.
pub open spec fn spec_major_doc(a: JsonValue, b: JsonValue) -> bool {
    &&& canon(a) != canon(b)
    &&& spec_type_of(a) == spec_type_of(b)
    &&& spec_type_of(a) == "object"@
    &&& (spec_removed_optional(a, b) || spec_added_required(a, b) || spec_newly_required(a, b))
}

/// A change of the document that the table counts as Critical: a
/// different top-level type, the removal of a required property, or a
/// change of a property's type — for documents whose canonical forms
/// differ at all.
pub open spec fn spec_doc_critical(a: JsonValue, b: JsonValue) -> bool {
    &&& canon(a) != canon(b)
    &&& (spec_type_of(a) != spec_type_of(b) || (spec_type_of(a) == "object"@ && (
    spec_removed_required(a, b) || spec_prop_type_changed(a, b))))
}

/// The two schemas are identical component by component, up to canonical
/// form of the documents.
pub open spec fn spec_schema_identical(a: ToolSchema, b: ToolSchema) -> bool {
    &&& a.name@ == b.name@
    &&& a.description@ == b.description@
    &&& canon(a.input_schema) == canon(b.input_schema)
    &&& canon(a.output_schema) == canon(b.output_schema)
}

/// A drift that the table classifies Critical: a changed name, or a
/// critical change of either schema document.
pub open spec fn spec_critical_drift(a: ToolSchema, b: ToolSchema) -> bool {
    ||| a.name@ != b.name@
    ||| spec_doc_critical(a.input_schema, b.input_schema)
    ||| spec_doc_critical(a.output_schema, b.output_schema)
}

/// Compares two versions of a schema and reports every detected change
/// under the highest severity found. Identical schemas — component by
/// component, up to canonical form — drift at level `None` with no
/// changes; any Critical change of the table forces level `Critical`,
/// whatever else co-occurs.
pub fn detect_drift(old: &ToolSchema, new: &ToolSchema) -> (r: DriftReport)
    ensures
        r.new_hash@ == spec_schema_hash(*new),
        r.old_hash matches Some(h) && h@ == spec_schema_hash(*old),
        spec_schema_identical(*old, *new) <==> r.level == DriftLevel::NoDrift,
        (r.changes@.len() == 0) <==> r.level == DriftLevel::NoDrift,
        spec_critical_drift(*old, *new) <==> r.level == DriftLevel::Critical,
        r.level == DriftLevel::Major <==> (!spec_critical_drift(*old, *new) && (
        spec_drastic_description(old.description@, new.description@) || spec_major_doc(
            old.input_schema,
            new.input_schema,
        ) || spec_major_doc(old.output_schema, new.output_schema))),
{
    let old_hash = hash_tool_schema(old);
    let new_hash = hash_tool_schema(new);

    // fast path: identical component by component
    let old_in = canonicalize(&old.input_schema);
    let new_in = canonicalize(&new.input_schema);
    let old_out = canonicalize(&old.output_schema);
    let new_out = canonicalize(&new.output_schema);
    let same_name = str_eq(old.name.as_str(), new.name.as_str());
    let same_desc = str_eq(old.description.as_str(), new.description.as_str());
    let same_in = str_eq(old_in.as_str(), new_in.as_str());
    let same_out = str_eq(old_out.as_str(), new_out.as_str());
    if same_name && same_desc && same_in && same_out {
        return DriftReport {
            level: DriftLevel::NoDrift,
            changes: Vec::new(),
            old_hash: Some(old_hash),
            new_hash,
        };
    }

    let mut changes: Vec<String> = Vec::new();
    let mut level = DriftLevel::NoDrift;

    if !same_name {
        let mut msg = String::from_str("tool name changed: '");
        msg.append(old.name.as_str());
        msg.append("' -> '");
        msg.append(new.name.as_str());
        msg.append("'");
        changes.push(msg);
        level = level.max_with(DriftLevel::Critical);
    }

    if !same_desc {
        let (inter, combined) = description_similarity(
            old.description.as_str(),
            new.description.as_str(),
        );
        // similarity below 0.30 is a drastic rewording
        if (inter as u128) * 10 < (combined as u128) * 3 {
            changes.push(String::from_str("description drastically changed"));
            level = level.max_with(DriftLevel::Major);
        } else if (inter as u128) * 10 < (combined as u128) * 7 {
            changes.push(String::from_str("description significantly modified"));
            level = level.max_with(DriftLevel::Minor);
        } else {
            changes.push(String::from_str("description slightly modified"));
            level = level.max_with(DriftLevel::Minor);
        }
    }

    let (in_changes, in_level) = compare_docs(&old.input_schema, &new.input_schema, "input");
    let mut in_changes = in_changes;
    changes.append(&mut in_changes);
    level = level.max_with(in_level);

    let (out_changes, out_level) = compare_docs(&old.output_schema, &new.output_schema, "output");
    let mut out_changes = out_changes;
    changes.append(&mut out_changes);
    level = level.max_with(out_level);

    proof {
        if same_name && same_desc {
            assert(!same_in || !same_out);
        }
    }
    DriftReport { level, changes, old_hash: Some(old_hash), new_hash }
}

/// The report for a first registration: no prior version, level `None`.
pub fn new_tool_report(tool: &ToolSchema) -> (r: DriftReport)
    ensures
        r.level == DriftLevel::NoDrift,
        r.old_hash is None,
        r.new_hash@ == spec_schema_hash(*tool),
        r.changes@.len() == 1,
{
    let new_hash = hash_tool_schema(tool);
    let mut changes: Vec<String> = Vec::new();
    changes.push(String::from_str("new tool registration"));
    DriftReport { level: DriftLevel::NoDrift, changes, old_hash: None, new_hash }
}

/// The entries of the object under `properties`, as owned copies.
fn props_of(v: &JsonValue) -> (r: Vec<(String, JsonValue)>)
    ensures
        r@.map_values(|e: (String, JsonValue)| (e.0@, e.1)).len() == spec_props(*v).len(),
        forall|i: int|
            0 <= i < r@.len() ==> (#[trigger] r@[i]).0@ == spec_props(*v)[i].0 && crate::json::jeq(
                r@[i].1,
                spec_props(*v)[i].1,
            ),
    {
    match v {
        JsonValue::Object(es) => {
            let n = es.len();
            let mut i: usize = 0;
            while i < n
                invariant
                    n == es@.len(),
                    i <= n,
                    v matches JsonValue::Object(q) && q@ == es@,
                    forall|k: int| 0 <= k < i ==> (#[trigger] es@[k]).0@ != "properties"@,
                decreases n - i,
            {
                if str_eq(es[i].0.as_str(), "properties") {
                    proof {
                        lemma_entry_get_at(
                            es@.map_values(|e: (String, JsonValue)| (e.0@, e.1)),
                            "properties"@,
                            i as int,
                        );
                    }
                    match &es[i].1 {
                        JsonValue::Object(ps) => {
                            return clone_prop_entries(ps, &es[i].1);
                        },
                        _ => {
                            return Vec::new();
                        },
                    }
                }
                i = i + 1;
            }
            proof {
                lemma_entry_get_none(
                    es@.map_values(|e: (String, JsonValue)| (e.0@, e.1)),
                    "properties"@,
                );
            }
            Vec::new()
        },
        _ => Vec::new(),
    }
}

fn clone_prop_entries(ps: &Vec<(String, JsonValue)>, owner: &JsonValue) -> (r: Vec<(String, JsonValue)>)
    requires
        owner matches JsonValue::Object(q) && q@ == ps@,
    ensures
        r@.len() == ps@.len(),
        forall|i: int|
            0 <= i < r@.len() ==> (#[trigger] r@[i]).0@ == ps@[i].0@ && crate::json::jeq(
                r@[i].1,
                ps@[i].1,
            ),
{
    let n = ps.len();
    let mut out: Vec<(String, JsonValue)> = Vec::new();
    let mut i: usize = 0;
    while i < n
        invariant
            n == ps@.len(),
            i <= n,
            out@.len() == i,
            owner matches JsonValue::Object(q) && q@ == ps@,
            forall|k: int|
                0 <= k < i ==> (#[trigger] out@[k]).0@ == ps@[k].0@ && crate::json::jeq(
                    out@[k].1,
                    ps@[k].1,
                ),
        decreases n - i,
    {
        proof {
            crate::json::lemma_jsize_entries_elem(ps@, ps@.len() as int, i as int);
        }
        let d = duplicate(&ps[i].1);
        out.push((ps[i].0.clone(), d));
        i = i + 1;
    }
    out
}

proof fn lemma_entry_get_at(es: Seq<(Seq<char>, JsonValue)>, key: Seq<char>, i: int)
    requires
        0 <= i < es.len(),
        es[i].0 == key,
        forall|k: int| 0 <= k < i ==> (#[trigger] es[k]).0 != key,
    ensures
        spec_entry_get(es, key) == Some(es[i].1),
    decreases es.len(),
{
    if i > 0 {
        assert(forall|k: int|
            0 <= k < es.drop_first().len() ==> #[trigger] es.drop_first()[k] == es[k + 1]);
        lemma_entry_get_at(es.drop_first(), key, i - 1);
    }
}

proof fn lemma_entry_get_none(es: Seq<(Seq<char>, JsonValue)>, key: Seq<char>)
    requires
        forall|k: int| 0 <= k < es.len() ==> (#[trigger] es[k]).0 != key,
    ensures
        spec_entry_get(es, key) is None,
    decreases es.len(),
{
    if es.len() > 0 {
        assert(forall|k: int|
            0 <= k < es.drop_first().len() ==> #[trigger] es.drop_first()[k] == es[k + 1]);
        lemma_entry_get_none(es.drop_first(), key);
    }
}

/// Compares two schema documents and reports their changes with the
/// highest severity among them; level `NoDrift` exactly for canonically
/// equal documents, `Critical` exactly when the document's Critical
/// conditions hold, and `Major` exactly when its Major conditions hold
/// without a Critical one.
fn compare_docs(a: &JsonValue, b: &JsonValue, label: &str) -> (r: (Vec<String>, DriftLevel))
    ensures
        (r.1 == DriftLevel::NoDrift) <==> canon(*a) == canon(*b),
        spec_doc_critical(*a, *b) <==> r.1 == DriftLevel::Critical,
        (r.1 == DriftLevel::Major) <==> (!spec_doc_critical(*a, *b) && spec_major_doc(*a, *b)),
        (r.0@.len() == 0) <==> (r.1 == DriftLevel::NoDrift),
{
    let ca = canonicalize(a);
    let cb = canonicalize(b);
    if str_eq(ca.as_str(), cb.as_str()) {
        return (Vec::new(), DriftLevel::NoDrift);
    }

    let mut changes: Vec<String> = Vec::new();

    let ta = schema_type(a);
    let tb = schema_type(b);
    if !str_eq(ta.as_str(), tb.as_str()) {
        let mut msg = label.to_owned();
        msg.append(" schema type changed");
        changes.push(msg);
        return (changes, DriftLevel::Critical);
    }

    let mut found_critical = false;
    let mut found_major = false;

    if str_eq(ta.as_str(), "object") {
        let props_a = props_of(a);
        let props_b = props_of(b);
        let req_a = required_of(a);
        let req_b = required_of(b);
        let ghost spa = spec_props(*a);
        let ghost spb = spec_props(*b);

        // removed properties
        let na = props_a.len();
        let mut i: usize = 0;
        while i < na
            invariant
                na == props_a@.len(),
                i <= na,
                spa == spec_props(*a),
                spb == spec_props(*b),
                na == spa.len(),
                props_b@.len() == spb.len(),
                forall|k: int| 0 <= k < na ==> (#[trigger] props_a@[k]).0@ == spa[k].0,
                forall|k: int|
                    0 <= k < props_b@.len() ==> (#[trigger] props_b@[k]).0@ == spb[k].0,
                forall|k: int|
                    0 <= k < req_a@.len() ==> (#[trigger] req_a@[k])@ == spec_required(*a)[k],
                req_a@.len() == spec_required(*a).len(),
                found_critical ==> spec_doc_critical(*a, *b),
                found_critical || found_major ==> changes@.len() > 0,
                canon(*a) != canon(*b),
                spec_type_of(*a) == spec_type_of(*b),
                spec_type_of(*a) == "object"@,
                spec_removed_required_upto(*a, *b, i as int) ==> found_critical,
                found_major == spec_removed_optional_upto(*a, *b, i as int),
            decreases na - i,
        {
            let present = entry_get_idx(&props_b, props_a[i].0.as_str());
            match present {
                Some(jb) => {
                    proof {
                        assert forall|k: int| 0 <= k < jb implies (#[trigger] spb[k]).0
                            != props_a@[i as int].0@ by {
                            assert(props_b@[k].0@ != props_a@[i as int].0@);
                        }
                        assert(spb[jb as int].0 == props_a@[i as int].0@);
                        lemma_entry_found(spb, props_a@[i as int].0@, jb as int);
                        assert(spec_entry_get(spb, spa[i as int].0) is Some);
                    }
                },
                None => {
                    proof {
                        assert forall|k: int| 0 <= k < spb.len() implies (#[trigger] spb[k]).0
                            != props_a@[i as int].0@ by {
                            assert(props_b@[k].0@ != props_a@[i as int].0@);
                        }
                        lemma_entry_not_found(spb, props_a@[i as int].0@);
                        assert(req_a@.map_values(|t: String| t@) =~= spec_required(*a));
                    }
                    if name_in(&req_a, props_a[i].0.as_str()) {
                        let mut msg = label.to_owned();
                        msg.append(" schema: required property '");
                        msg.append(props_a[i].0.as_str());
                        msg.append("' removed");
                        changes.push(msg);
                        found_critical = true;
                        proof {
                            assert(spa[i as int].0 == props_a@[i as int].0@);
                            assert(spec_removed_required(*a, *b));
                            assert(spec_name_in(spec_required(*a), spa[i as int].0));
                        }
                    } else {
                        let mut msg = label.to_owned();
                        msg.append(" schema: optional property '");
                        msg.append(props_a[i].0.as_str());
                        msg.append("' removed");
                        changes.push(msg);
                        found_major = true;
                        proof {
                            assert(spa[i as int].0 == props_a@[i as int].0@);
                            assert(!spec_name_in(spec_required(*a), spa[i as int].0));
                            assert(spec_removed_optional_upto(*a, *b, i + 1));
                        }
                    }
                },
            }
            i = i + 1;
        }
        proof {
            if spec_removed_required(*a, *b) {
                assert(spec_removed_required_upto(*a, *b, na as int));
            }
            if spec_removed_optional(*a, *b) {
                assert(spec_removed_optional_upto(*a, *b, na as int));
            }
            assert(found_major == spec_removed_optional(*a, *b));
        }

        // added properties
        let nb = props_b.len();
        let mut j: usize = 0;
        while j < nb
            invariant
                nb == props_b@.len(),
                j <= nb,
                spa == spec_props(*a),
                spb == spec_props(*b),
                nb == spb.len(),
                forall|k: int|
                    0 <= k < nb ==> (#[trigger] props_b@[k]).0@ == spb[k].0,
                forall|k: int|
                    0 <= k < req_b@.len() ==> (#[trigger] req_b@[k])@ == spec_required(*b)[k],
                req_b@.len() == spec_required(*b).len(),
                na == props_a@.len(),
                na == spa.len(),
                forall|k: int| 0 <= k < na ==> (#[trigger] props_a@[k]).0@ == spa[k].0,
                found_critical ==> spec_doc_critical(*a, *b),
                found_critical || found_major ==> changes@.len() > 0,
                canon(*a) != canon(*b),
                spec_type_of(*a) == spec_type_of(*b),
                spec_type_of(*a) == "object"@,
                spec_removed_required(*a, *b) ==> found_critical,
                found_major == (spec_removed_optional(*a, *b) || spec_added_required_upto(
                    *a,
                    *b,
                    j as int,
                )),
            decreases nb - j,
        {
            let present = entry_get_idx(&props_a, props_b[j].0.as_str());
            proof {
                assert(req_b@.map_values(|t: String| t@) =~= spec_required(*b));
            }
            match present {
                Some(ja) => {
                    proof {
                        assert forall|k: int| 0 <= k < ja implies (#[trigger] spa[k]).0
                            != props_b@[j as int].0@ by {
                            assert(props_a@[k].0@ != props_b@[j as int].0@);
                        }
                        assert(spa[ja as int].0 == props_b@[j as int].0@);
                        lemma_entry_found(spa, props_b@[j as int].0@, ja as int);
                        assert(spec_entry_get(spa, spb[j as int].0) is Some);
                    }
                },
                None => {
                    proof {
                        assert forall|k: int| 0 <= k < spa.len() implies (#[trigger] spa[k]).0
                            != props_b@[j as int].0@ by {
                            assert(props_a@[k].0@ != props_b@[j as int].0@);
                        }
                        lemma_entry_not_found(spa, props_b@[j as int].0@);
                    }
                    if name_in(&req_b, props_b[j].0.as_str()) {
                        let mut msg = label.to_owned();
                        msg.append(" schema: new required property '");
                        msg.append(props_b[j].0.as_str());
                        msg.append("' added");
                        changes.push(msg);
                        found_major = true;
                        proof {
                            assert(spb[j as int].0 == props_b@[j as int].0@);
                            assert(spec_name_in(spec_required(*b), spb[j as int].0));
                            assert(spec_added_required_upto(*a, *b, j + 1));
                        }
                    } else {
                        let mut msg = label.to_owned();
                        msg.append(" schema: new optional property '");
                        msg.append(props_b[j].0.as_str());
                        msg.append("' added");
                        changes.push(msg);
                        proof {
                            assert(!spec_name_in(spec_required(*b), spb[j as int].0));
                        }
                    }
                },
            }
            j = j + 1;
        }

        proof {
            if spec_added_required(*a, *b) {
                assert(spec_added_required_upto(*a, *b, nb as int));
            }
            assert(found_major == (spec_removed_optional(*a, *b) || spec_added_required(
                *a,
                *b,
            )));
        }

        // modified properties
        let mut m: usize = 0;
        while m < na
            invariant
                na == props_a@.len(),
                m <= na,
                spa == spec_props(*a),
                spb == spec_props(*b),
                na == spa.len(),
                forall|k: int|
                    0 <= k < na ==> (#[trigger] props_a@[k]).0@ == spa[k].0,
                forall|k: int|
                    0 <= k < na ==> crate::json::jeq((#[trigger] props_a@[k]).1, spa[k].1),
                forall|k: int|
                    0 <= k < props_b@.len() ==> (#[trigger] props_b@[k]).0@ == spb[k].0,
                forall|k: int|
                    0 <= k < props_b@.len() ==> crate::json::jeq(
                        (#[trigger] props_b@[k]).1,
                        spb[k].1,
                    ),
                props_b@.len() == spb.len(),
                found_critical ==> spec_doc_critical(*a, *b),
                found_critical || found_major ==> changes@.len() > 0,
                canon(*a) != canon(*b),
                spec_type_of(*a) == spec_type_of(*b),
                spec_type_of(*a) == "object"@,
                spec_removed_required(*a, *b) ==> found_critical,
                spec_prop_type_changed_upto(*a, *b, m as int) ==> found_critical,
                found_major == (spec_removed_optional(*a, *b) || spec_added_required(*a, *b)),
            decreases na - m,
        {
            let present = entry_get_idx(&props_b, props_a[m].0.as_str());
            match present {
                Some(jb) => {
                    proof {
                        assert forall|k: int| 0 <= k < jb implies (#[trigger] spb[k]).0
                            != props_a@[m as int].0@ by {
                            assert(props_b@[k].0@ != props_a@[m as int].0@);
                        }
                        assert(spb[jb as int].0 == props_a@[m as int].0@);
                        lemma_entry_found(spb, props_a@[m as int].0@, jb as int);
                    }
                    let ta2 = schema_type(&props_a[m].1);
                    let tb2 = schema_type(&props_b[jb].1);
                    proof {
                        lemma_jeq_type(props_a@[m as int].1, spa[m as int].1);
                        lemma_jeq_type(props_b@[jb as int].1, spb[jb as int].1);
                    }
                    if !str_eq(ta2.as_str(), tb2.as_str()) {
                        let mut msg = label.to_owned();
                        msg.append(" schema: property '");
                        msg.append(props_a[m].0.as_str());
                        msg.append("' type changed");
                        changes.push(msg);
                        found_critical = true;
                        proof {
                            assert(spa[m as int].0 == props_a@[m as int].0@);
                            assert(spec_prop_type_changed(*a, *b));
                        }
                    } else {
                        let pa_c = canonicalize(&props_a[m].1);
                        let pb_c = canonicalize(&props_b[jb].1);
                        if !str_eq(pa_c.as_str(), pb_c.as_str()) {
                            let mut msg = label.to_owned();
                            msg.append(" schema: property '");
                            msg.append(props_a[m].0.as_str());
                            msg.append("' modified");
                            changes.push(msg);
                        }
                    }
                },
                None => {
                    proof {
                        assert forall|k: int| 0 <= k < spb.len() implies (#[trigger] spb[k]).0
                            != props_a@[m as int].0@ by {
                            assert(props_b@[k].0@ != props_a@[m as int].0@);
                        }
                        lemma_entry_not_found(spb, props_a@[m as int].0@);
                    }
                },
            }
            m = m + 1;
        }
        proof {
            if spec_prop_type_changed(*a, *b) {
                assert(spec_prop_type_changed_upto(*a, *b, na as int));
            }
        }

        // changes to the required list
        let ra = req_a.len();
        let mut q: usize = 0;
        while q < ra
            invariant
                ra == req_a@.len(),
                q <= ra,
                found_critical ==> spec_doc_critical(*a, *b),
                found_critical || found_major ==> changes@.len() > 0,
                spec_removed_required(*a, *b) ==> found_critical,
                spec_prop_type_changed(*a, *b) ==> found_critical,
                found_major == (spec_removed_optional(*a, *b) || spec_added_required(*a, *b)),
            decreases ra - q,
        {
            let still_present = entry_get_idx(&props_b, req_a[q].as_str());
            match still_present {
                Some(_) => {
                    if !name_in(&req_b, req_a[q].as_str()) {
                        let mut msg = label.to_owned();
                        msg.append(" schema: property '");
                        msg.append(req_a[q].as_str());
                        msg.append("' no longer required");
                        changes.push(msg);
                    }
                },
                None => {},
            }
            q = q + 1;
        }
        let rb = req_b.len();
        let mut w: usize = 0;
        while w < rb
            invariant
                rb == req_b@.len(),
                w <= rb,
                spa == spec_props(*a),
                spb == spec_props(*b),
                na == props_a@.len(),
                na == spa.len(),
                forall|k: int| 0 <= k < na ==> (#[trigger] props_a@[k]).0@ == spa[k].0,
                forall|k: int|
                    0 <= k < req_b@.len() ==> (#[trigger] req_b@[k])@ == spec_required(*b)[k],
                req_b@.len() == spec_required(*b).len(),
                forall|k: int|
                    0 <= k < req_a@.len() ==> (#[trigger] req_a@[k])@ == spec_required(*a)[k],
                req_a@.len() == spec_required(*a).len(),
                found_critical ==> spec_doc_critical(*a, *b),
                found_critical || found_major ==> changes@.len() > 0,
                spec_removed_required(*a, *b) ==> found_critical,
                spec_prop_type_changed(*a, *b) ==> found_critical,
                found_major == (spec_removed_optional(*a, *b) || spec_added_required(*a, *b)
                    || spec_newly_required_upto(*a, *b, w as int)),
            decreases rb - w,
        {
            let was_present = entry_get_idx(&props_a, req_b[w].as_str());
            proof {
                assert(req_a@.map_values(|t: String| t@) =~= spec_required(*a));
                assert(req_b@[w as int]@ == spec_required(*b)[w as int]);
            }
            match was_present {
                Some(ja) => {
                    proof {
                        assert forall|k: int| 0 <= k < ja implies (#[trigger] spa[k]).0
                            != req_b@[w as int]@ by {
                            assert(props_a@[k].0@ != req_b@[w as int]@);
                        }
                        assert(spa[ja as int].0 == req_b@[w as int]@);
                        lemma_entry_found(spa, req_b@[w as int]@, ja as int);
                        assert(spec_entry_get(spa, spec_required(*b)[w as int]) is Some);
                    }
                    if !name_in(&req_a, req_b[w].as_str()) {
                        let mut msg = label.to_owned();
                        msg.append(" schema: property '");
                        msg.append(req_b[w].as_str());
                        msg.append("' now required");
                        changes.push(msg);
                        found_major = true;
                        proof {
                            assert(!spec_name_in(spec_required(*a), spec_required(*b)[w as int]));
                            assert(spec_newly_required_upto(*a, *b, w + 1));
                        }
                    } else {
                        proof {
                            assert(spec_name_in(spec_required(*a), spec_required(*b)[w as int]));
                        }
                    }
                },
                None => {
                    proof {
                        assert forall|k: int| 0 <= k < spa.len() implies (#[trigger] spa[k]).0
                            != req_b@[w as int]@ by {
                            assert(props_a@[k].0@ != req_b@[w as int]@);
                        }
                        lemma_entry_not_found(spa, req_b@[w as int]@);
                        assert(spec_entry_get(spa, spec_required(*b)[w as int]) is None);
                    }
                },
            }
            w = w + 1;
        }
        proof {
            if spec_newly_required(*a, *b) {
                assert(spec_newly_required_upto(*a, *b, rb as int));
            }
            assert(found_major == (spec_removed_optional(*a, *b) || spec_added_required(*a, *b)
                || spec_newly_required(*a, *b)));
        }
    }

    if changes.len() == 0 {
        let mut msg = label.to_owned();
        msg.append(" schema modified");
        changes.push(msg);
    }

    let level = if found_critical {
        DriftLevel::Critical
    } else if found_major {
        DriftLevel::Major
    } else {
        DriftLevel::Minor
    };
    (changes, level)
}

/// The removed-required condition, restricted to the first `n` old
/// properties.
pub open spec fn spec_removed_required_upto(a: JsonValue, b: JsonValue, n: int) -> bool {
    exists|i: int|
        0 <= i < n && i < spec_props(a).len() && spec_entry_get(
            spec_props(b),
            (#[trigger] spec_props(a)[i]).0,
        ) is None && spec_name_in(spec_required(a), spec_props(a)[i].0)
}

/// The type-change condition, restricted to the first `n` old
/// properties.
pub open spec fn spec_prop_type_changed_upto(a: JsonValue, b: JsonValue, n: int) -> bool {
    exists|i: int|
        0 <= i < n && i < spec_props(a).len() && match spec_entry_get(
            spec_props(b),
            (#[trigger] spec_props(a)[i]).0,
        ) {
            Some(pb) => spec_type_of(spec_props(a)[i].1) != spec_type_of(pb),
            None => false,
        }
}

/// The removed-optional condition, restricted to the first `n` old
/// properties.
pub open spec fn spec_removed_optional_upto(a: JsonValue, b: JsonValue, n: int) -> bool {
    exists|i: int|
        0 <= i < n && i < spec_props(a).len() && spec_entry_get(
            spec_props(b),
            (#[trigger] spec_props(a)[i]).0,
        ) is None && !spec_name_in(spec_required(a), spec_props(a)[i].0)
}

/// The added-required condition, restricted to the first `n` new
/// properties.
pub open spec fn spec_added_required_upto(a: JsonValue, b: JsonValue, n: int) -> bool {
    exists|j: int|
        0 <= j < n && j < spec_props(b).len() && spec_entry_get(
            spec_props(a),
            (#[trigger] spec_props(b)[j]).0,
        ) is None && spec_name_in(spec_required(b), spec_props(b)[j].0)
}

/// The newly-required condition, restricted to the first `n` names the
/// new document requires.
pub open spec fn spec_newly_required_upto(a: JsonValue, b: JsonValue, n: int) -> bool {
    exists|w: int|
        0 <= w < n && w < spec_required(b).len() && spec_entry_get(
            spec_props(a),
            #[trigger] spec_required(b)[w],
        ) is Some && !spec_name_in(spec_required(a), spec_required(b)[w])
}

/// Structurally equal documents declare the same type.
proof fn lemma_jeq_type(a: JsonValue, b: JsonValue)
    requires
        crate::json::jeq(a, b),
    ensures
        spec_type_of(a) == spec_type_of(b),
{
    match (a, b) {
        (JsonValue::Object(es), JsonValue::Object(fs)) => {
            crate::json::lemma_jeq_entries_index_pub(es@, fs@);
            lemma_entry_get_jeq(
                es@.map_values(|e: (String, JsonValue)| (e.0@, e.1)),
                fs@.map_values(|e: (String, JsonValue)| (e.0@, e.1)),
                "type"@,
            );
        },
        _ => {},
    }
}

proof fn lemma_entry_get_jeq(
    es: Seq<(Seq<char>, JsonValue)>,
    fs: Seq<(Seq<char>, JsonValue)>,
    key: Seq<char>,
)
    requires
        es.len() == fs.len(),
        forall|i: int|
            0 <= i < es.len() ==> (#[trigger] es[i]).0 == fs[i].0 && crate::json::jeq(
                es[i].1,
                fs[i].1,
            ),
    ensures
        match (spec_entry_get(es, key), spec_entry_get(fs, key)) {
            (Some(x), Some(y)) => crate::json::jeq(x, y),
            (None, None) => true,
            _ => false,
        },
    decreases es.len(),
{
    if es.len() > 0 && es[0].0 != key {
        assert(forall|k: int|
            0 <= k < es.drop_first().len() ==> #[trigger] es.drop_first()[k] == es[k + 1]);
        assert(forall|k: int|
            0 <= k < fs.drop_first().len() ==> #[trigger] fs.drop_first()[k] == fs[k + 1]);
        lemma_entry_get_jeq(es.drop_first(), fs.drop_first(), key);
    }
}

/// The index of the entry with the given key.
fn entry_get_idx(es: &Vec<(String, JsonValue)>, key: &str) -> (r: Option<usize>)
    ensures
        r matches Some(i) ==> i < es@.len() && es@[i as int].0@ == key@ && forall|k: int|
            0 <= k < i ==> (#[trigger] es@[k]).0@ != key@,
        r is None ==> forall|k: int| 0 <= k < es@.len() ==> (#[trigger] es@[k]).0@ != key@,
{
    let n = es.len();
    let mut i: usize = 0;
    while i < n
        invariant
            n == es@.len(),
            i <= n,
            forall|k: int| 0 <= k < i ==> (#[trigger] es@[k]).0@ != key@,
        decreases n - i,
    {
        if str_eq(es[i].0.as_str(), key) {
            return Some(i);
        }
        i = i + 1;
    }
    None
}

proof fn lemma_entry_not_found(es: Seq<(Seq<char>, JsonValue)>, key: Seq<char>)
    requires
        forall|k: int| 0 <= k < es.len() ==> (#[trigger] es[k]).0 != key,
    ensures
        spec_entry_get(es, key) is None,
{
    lemma_entry_get_none(es, key);
}

proof fn lemma_entry_found(es: Seq<(Seq<char>, JsonValue)>, key: Seq<char>, i: int)
    requires
        0 <= i < es.len(),
        es[i].0 == key,
        forall|k: int| 0 <= k < i ==> (#[trigger] es[k]).0 != key,
    ensures
        spec_entry_get(es, key) == Some(es[i].1),
{
    lemma_entry_get_at(es, key, i);
}

/// Whether a name stands in the list.
fn name_in(names: &Vec<String>, name: &str) -> (r: bool)
    ensures
        r == spec_name_in(names@.map_values(|s: String| s@), name@),
{
    let n = names.len();
    let mut i: usize = 0;
    while i < n
        invariant
            n == names@.len(),
            i <= n,
            forall|k: int| 0 <= k < i ==> (#[trigger] names@[k])@ != name@,
        decreases n - i,
    {
        if str_eq(names[i].as_str(), name) {
            proof {
                assert(names@.map_values(|s: String| s@)[i as int] == name@);
            }
            return true;
        }
        i = i + 1;
    }
    proof {
        let ghost views = names@.map_values(|s: String| s@);
        assert forall|k: int| 0 <= k < views.len() implies #[trigger] views[k] != name@ by {
            assert(views[k] == names@[k]@);
        }
    }
    false
}

/// The names under `required`, as owned strings.
fn required_of(v: &JsonValue) -> (r: Vec<String>)
    ensures
        r@.len() == spec_required(*v).len(),
        forall|i: int| 0 <= i < r@.len() ==> (#[trigger] r@[i])@ == spec_required(*v)[i],
{
    match v {
        JsonValue::Object(es) => {
            let n = es.len();
            let mut i: usize = 0;
            while i < n
                invariant
                    n == es@.len(),
                    i <= n,
                    v matches JsonValue::Object(q) && q@ == es@,
                    forall|k: int| 0 <= k < i ==> (#[trigger] es@[k]).0@ != "required"@,
                decreases n - i,
            {
                if str_eq(es[i].0.as_str(), "required") {
                    proof {
                        lemma_entry_get_at(
                            es@.map_values(|e: (String, JsonValue)| (e.0@, e.1)),
                            "required"@,
                            i as int,
                        );
                    }
                    match &es[i].1 {
                        JsonValue::Array(xs) => {
                            return text_views_of(xs, &es[i].1);
                        },
                        _ => {
                            return Vec::new();
                        },
                    }
                }
                i = i + 1;
            }
            proof {
                lemma_entry_get_none(
                    es@.map_values(|e: (String, JsonValue)| (e.0@, e.1)),
                    "required"@,
                );
            }
            Vec::new()
        },
        _ => Vec::new(),
    }
}

fn text_views_of(xs: &Vec<JsonValue>, owner: &JsonValue) -> (r: Vec<String>)
    requires
        owner matches JsonValue::Array(q) && q@ == xs@,
    ensures
        r@.len() == spec_text_views(xs@).len(),
        forall|i: int| 0 <= i < r@.len() ==> (#[trigger] r@[i])@ == spec_text_views(xs@)[i],
{
    let n = xs.len();
    let mut out: Vec<String> = Vec::new();
    let mut i: usize = 0;
    while i < n
        invariant
            n == xs@.len(),
            i <= n,
            out@.len() == spec_text_views(xs@.take(i as int)).len(),
            forall|k: int|
                0 <= k < out@.len() ==> (#[trigger] out@[k])@ == spec_text_views(
                    xs@.take(i as int),
                )[k],
        decreases n - i,
    {
        let ghost pre = xs@.take(i as int);
        match &xs[i] {
            JsonValue::Text(s) => {
                out.push(s.clone());
            },
            _ => {},
        }
        i = i + 1;
        proof {
            assert(xs@.take(i as int).drop_last() =~= pre);
            assert(xs@.take(i as int).last() == xs@[i - 1]);
        }
    }
    proof {
        assert(xs@.take(n as int) =~= xs@);
    }
    out
}

/// The declared type of a schema document, as an owned string.
pub fn schema_type(v: &JsonValue) -> (r: String)
    ensures
        r@ == spec_type_of(*v),
{
    match v {
        JsonValue::Object(es) => {
            let n = es.len();
            let mut i: usize = 0;
            while i < n
                invariant
                    n == es@.len(),
                    i <= n,
                    v matches JsonValue::Object(q) && q@ == es@,
                    forall|k: int| 0 <= k < i ==> (#[trigger] es@[k]).0@ != "type"@,
                decreases n - i,
            {
                if str_eq(es[i].0.as_str(), "type") {
                    proof {
                        lemma_entry_get_at(
                            es@.map_values(|e: (String, JsonValue)| (e.0@, e.1)),
                            "type"@,
                            i as int,
                        );
                    }
                    match &es[i].1 {
                        JsonValue::Text(s) => {
                            return s.clone();
                        },
                        _ => {
                            return String::from_str("unknown");
                        },
                    }
                }
                i = i + 1;
            }
            proof {
                lemma_entry_get_none(
                    es@.map_values(|e: (String, JsonValue)| (e.0@, e.1)),
                    "type"@,
                );
            }
            String::from_str("unknown")
        },
        _ => String::from_str("unknown"),
    }
}

/// A whitespace character for the purpose of splitting a description
/// into words.
pub open spec fn spec_word_ws(c: char) -> bool {
    let u = c as u32;
    u == 0x20 || u == 0x9 || u == 0xA || u == 0xB || u == 0xC || u == 0xD || u == 0x85 || u
        == 0xA0 || u == 0x1680 || (0x2000 <= u && u <= 0x200A) || u == 0x2028 || u == 0x2029 || u
        == 0x202F || u == 0x205F || u == 0x3000
}

/// The end of the word that starts at `i`: the first position at or
/// after it holding whitespace, or the text's end.
pub open spec fn spec_word_end(s: Seq<char>, i: int) -> int
    decreases s.len() - i,
{
    if 0 <= i && i < s.len() && !spec_word_ws(s[i]) {
        spec_word_end(s, i + 1)
    } else {
        i
    }
}

/// The word's end never lies before its start, nor past the text's end.
pub proof fn lemma_word_end_bounds(s: Seq<char>, i: int)
    requires
        0 <= i <= s.len(),
    ensures
        i <= spec_word_end(s, i) <= s.len(),
    decreases s.len() - i,
{
    if i < s.len() && !spec_word_ws(s[i]) {
        lemma_word_end_bounds(s, i + 1);
    }
}

/// The whitespace-separated words of the text from position `i` on, in
/// order.
pub open spec fn spec_words_from(s: Seq<char>, i: int) -> Seq<Seq<char>>
    decreases s.len() - i,
    via spec_words_from_dec
{
    if i < 0 || i >= s.len() {
        Seq::empty()
    } else if spec_word_ws(s[i]) {
        spec_words_from(s, i + 1)
    } else {
        seq![s.subrange(i, spec_word_end(s, i))] + spec_words_from(s, spec_word_end(s, i))
    }
}

#[via_fn]
proof fn spec_words_from_dec(s: Seq<char>, i: int) {
    if 0 <= i < s.len() && !spec_word_ws(s[i]) {
        lemma_word_end_bounds(s, i + 1);
    }
}

/// The whitespace-separated words of the text.
pub open spec fn spec_words(s: Seq<char>) -> Seq<Seq<char>> {
    spec_words_from(s, 0)
}

/// A word among a list of words.
pub open spec fn spec_word_in(xs: Seq<Seq<char>>, x: Seq<char>) -> bool {
    exists|k: int| 0 <= k < xs.len() && xs[k] == x
}

/// The list with every later repetition of a word removed: each word's
/// first occurrence, in order.
pub open spec fn spec_dedup(xs: Seq<Seq<char>>) -> Seq<Seq<char>>
    decreases xs.len(),
{
    if xs.len() == 0 {
        Seq::empty()
    } else if spec_word_in(xs.drop_last(), xs.last()) {
        spec_dedup(xs.drop_last())
    } else {
        spec_dedup(xs.drop_last()).push(xs.last())
    }
}

/// Removing repetitions keeps exactly the words that were there.
pub proof fn lemma_dedup_membership(xs: Seq<Seq<char>>, x: Seq<char>)
    ensures
        spec_word_in(spec_dedup(xs), x) == spec_word_in(xs, x),
    decreases xs.len(),
{
    if xs.len() > 0 {
        let ys = xs.drop_last();
        lemma_dedup_membership(ys, x);
        assert(forall|k: int| 0 <= k < ys.len() ==> #[trigger] ys[k] == xs[k]);
        if spec_word_in(xs, x) {
            let k = choose|k: int| 0 <= k < xs.len() && xs[k] == x;
            if k < xs.len() - 1 {
                assert(ys[k] == x);
                assert(spec_word_in(ys, x));
                assert(spec_word_in(spec_dedup(ys), x));
                let m = choose|m: int| 0 <= m < spec_dedup(ys).len() && spec_dedup(ys)[m] == x;
                if spec_word_in(ys, xs.last()) {
                    assert(spec_dedup(xs)[m] == x);
                } else {
                    assert(spec_dedup(xs) == spec_dedup(ys).push(xs.last()));
                    assert(spec_dedup(xs)[m] == x);
                }
                assert(spec_word_in(spec_dedup(xs), x));
            } else {
                assert(xs.last() == x);
                if spec_word_in(ys, xs.last()) {
                    assert(spec_word_in(spec_dedup(ys), x));
                    let m = choose|m: int|
                        0 <= m < spec_dedup(ys).len() && spec_dedup(ys)[m] == x;
                    assert(spec_dedup(xs)[m] == x);
                } else {
                    assert(spec_dedup(xs) == spec_dedup(ys).push(xs.last()));
                    assert(spec_dedup(xs)[spec_dedup(xs).len() - 1] == x);
                }
                assert(spec_word_in(spec_dedup(xs), x));
            }
        }
        if spec_word_in(spec_dedup(xs), x) {
            let m = choose|m: int| 0 <= m < spec_dedup(xs).len() && spec_dedup(xs)[m] == x;
            if spec_word_in(ys, xs.last()) {
                assert(spec_dedup(ys)[m] == x);
                assert(spec_word_in(spec_dedup(ys), x));
                assert(spec_word_in(ys, x));
                let k2 = choose|k2: int| 0 <= k2 < ys.len() && ys[k2] == x;
                assert(xs[k2] == x);
                assert(spec_word_in(xs, x));
            } else {
                assert(spec_dedup(xs) == spec_dedup(ys).push(xs.last()));
                if m < spec_dedup(xs).len() - 1 {
                    assert(spec_dedup(ys)[m] == x);
                    assert(spec_word_in(spec_dedup(ys), x));
                    assert(spec_word_in(ys, x));
                    let k2 = choose|k2: int| 0 <= k2 < ys.len() && ys[k2] == x;
                    assert(xs[k2] == x);
                    assert(spec_word_in(xs, x));
                } else {
                    assert(x == xs.last());
                    assert(xs[xs.len() - 1] == x);
                    assert(spec_word_in(xs, x));
                }
            }
        }
    }
}

/// How many of the words of `ua` stand in `ub` too.
pub open spec fn spec_inter_count(ua: Seq<Seq<char>>, ub: Seq<Seq<char>>) -> int
    decreases ua.len(),
{
    if ua.len() == 0 {
        0
    } else {
        spec_inter_count(ua.drop_last(), ub) + if spec_word_in(ub, ua.last()) {
            1int
        } else {
            0int
        }
    }
}

/// The shared count never exceeds the list's length.
pub proof fn lemma_inter_count_bound(ua: Seq<Seq<char>>, ub: Seq<Seq<char>>)
    ensures
        0 <= spec_inter_count(ua, ub) <= ua.len(),
    decreases ua.len(),
{
    if ua.len() > 0 {
        lemma_inter_count_bound(ua.drop_last(), ub);
    }
}

/// The word-set overlap of two descriptions: how many distinct words
/// they share, against how many they have in all. Equal texts count as
/// fully similar, an empty side as fully dissimilar, and two texts whose
/// distinct words coincide as fully similar.
pub open spec fn spec_desc_overlap(a: Seq<char>, b: Seq<char>) -> (int, int) {
    if a == b {
        (1int, 1int)
    } else if a.len() == 0 || b.len() == 0 {
        (0int, 1int)
    } else {
        let ua = spec_dedup(spec_words(a));
        let ub = spec_dedup(spec_words(b));
        let inter = spec_inter_count(ua, ub);
        if ua.len() + ub.len() > usize::MAX {
            (0int, 1int)
        } else {
            let combined = ua.len() + ub.len() - inter;
            if combined == 0 {
                (1int, 1int)
            } else {
                (inter, combined)
            }
        }
    }
}

/// A drastic rewording: the descriptions' word-set overlap falls below
/// three tenths.
pub open spec fn spec_drastic_description(a: Seq<char>, b: Seq<char>) -> bool {
    let (inter, combined) = spec_desc_overlap(a, b);
    inter * 10 < combined * 3
}

/// The word-set overlap of two descriptions: how many distinct
/// whitespace-separated tokens they share, and how many they have in
/// all. Equal strings count as fully similar, and an empty side as
/// fully dissimilar.
fn description_similarity(a: &str, b: &str) -> (r: (usize, usize))
    ensures
        r.0 as int == spec_desc_overlap(a@, b@).0,
        r.1 as int == spec_desc_overlap(a@, b@).1,
{
    if str_eq(a, b) {
        return (1, 1);
    }
    if a.is_empty() || b.is_empty() {
        return (0, 1);
    }
    let ta = tokens_of(a);
    let tb = tokens_of(b);
    let ua = dedup(&ta);
    let ub = dedup(&tb);
    let ghost sua = ua@.map_values(|t: String| t@);
    let ghost sub = ub@.map_values(|t: String| t@);
    let na = ua.len();
    let mut inter: usize = 0;
    let mut i: usize = 0;
    while i < na
        invariant
            na == ua@.len(),
            i <= na,
            inter <= i,
            sua == ua@.map_values(|t: String| t@),
            sub == ub@.map_values(|t: String| t@),
            inter as int == spec_inter_count(sua.take(i as int), sub),
        decreases na - i,
    {
        let ghost prefix = sua.take(i as int);
        let shared = string_list_has(&ub, ua[i].as_str());
        proof {
            assert(sua.take(i + 1).drop_last() =~= prefix);
            assert(sua.take(i + 1).last() == sua[i as int]);
            assert(sua[i as int] == ua@[i as int]@);
        }
        if shared {
            inter = inter + 1;
        }
        i = i + 1;
    }
    proof {
        assert(sua.take(na as int) =~= sua);
        lemma_inter_count_bound(sua, sub);
    }
    if na > usize::MAX - ub.len() {
        return (0, 1);
    }
    let both = na + ub.len();
    let combined = both - inter;
    if combined == 0 {
        (1, 1)
    } else {
        (inter, combined)
    }
}

fn string_list_has(names: &Vec<String>, name: &str) -> (r: bool)
    ensures
        r == spec_word_in(names@.map_values(|t: String| t@), name@),
{
    let n = names.len();
    let mut i: usize = 0;
    while i < n
        invariant
            n == names@.len(),
            i <= n,
            forall|k: int| 0 <= k < i ==> (#[trigger] names@[k])@ != name@,
        decreases n - i,
    {
        if str_eq(names[i].as_str(), name) {
            proof {
                assert(names@.map_values(|t: String| t@)[i as int] == name@);
            }
            return true;
        }
        i = i + 1;
    }
    proof {
        let ghost views = names@.map_values(|t: String| t@);
        assert forall|k: int| 0 <= k < views.len() implies #[trigger] views[k] != name@ by {
            assert(views[k] == names@[k]@);
        }
    }
    false
}

/// The list with every later repetition removed: each word's first
/// occurrence, in order.
fn dedup(names: &Vec<String>) -> (r: Vec<String>)
    ensures
        r@.map_values(|t: String| t@) == spec_dedup(names@.map_values(|t: String| t@)),
{
    let ghost sv = names@.map_values(|t: String| t@);
    let n = names.len();
    let mut out: Vec<String> = Vec::new();
    let mut i: usize = 0;
    while i < n
        invariant
            n == names@.len(),
            i <= n,
            sv == names@.map_values(|t: String| t@),
            out@.map_values(|t: String| t@) == spec_dedup(sv.take(i as int)),
        decreases n - i,
    {
        let ghost pre = sv.take(i as int);
        let seen = string_list_has(&out, names[i].as_str());
        proof {
            assert(sv.take(i + 1).drop_last() =~= pre);
            assert(sv.take(i + 1).last() == sv[i as int]);
            assert(sv[i as int] == names@[i as int]@);
            lemma_dedup_membership(pre, sv[i as int]);
        }
        if !seen {
            out.push(names[i].clone());
            proof {
                assert(out@.map_values(|t: String| t@) =~= spec_dedup(pre).push(sv[i as int]));
            }
        }
        i = i + 1;
    }
    proof {
        assert(sv.take(n as int) =~= sv);
    }
    out
}

/// Whether the character splits words.
fn is_word_ws(c: char) -> (r: bool)
    ensures
        r == spec_word_ws(c),
{
    let u = c as u32;
    u == 0x20 || u == 0x9 || u == 0xA || u == 0xB || u == 0xC || u == 0xD || u == 0x85 || u
        == 0xA0 || u == 0x1680 || (0x2000 <= u && u <= 0x200A) || u == 0x2028 || u == 0x2029 || u
        == 0x202F || u == 0x205F || u == 0x3000
}

/// Whitespace-separated words of a string.
fn tokens_of(s: &str) -> (r: Vec<String>)
    ensures
        r@.map_values(|t: String| t@) == spec_words(s@),
{
    let cs = crate::text::chars_of(s);
    let n = cs.len();
    let mut out: Vec<String> = Vec::new();
    let mut i: usize = 0;
    while i < n
        invariant
            n == cs@.len(),
            cs@ == s@,
            i <= n,
            spec_words(s@) == out@.map_values(|t: String| t@) + spec_words_from(s@, i as int),
        decreases n - i,
    {
        let ghost pre = out@.map_values(|t: String| t@);
        if is_word_ws(cs[i]) {
            i = i + 1;
        } else {
            let start = i;
            let mut tok = String::new();
            while i < n && !is_word_ws(cs[i])
                invariant
                    n == cs@.len(),
                    cs@ == s@,
                    start <= i <= n,
                    start < n,
                    !spec_word_ws(s@[start as int]),
                    tok@ == s@.subrange(start as int, i as int),
                    spec_word_end(s@, start as int) == spec_word_end(s@, i as int),
                decreases n - i,
            {
                crate::text::push_char(&mut tok, cs[i]);
                proof {
                    assert(s@.subrange(start as int, i + 1) =~= s@.subrange(
                        start as int,
                        i as int,
                    ).push(s@[i as int]));
                }
                i = i + 1;
            }
            let ghost tv = tok@;
            out.push(tok);
            proof {
                assert(spec_word_end(s@, i as int) == i);
                assert(spec_word_end(s@, start as int) == i);
                assert(spec_words_from(s@, start as int) == seq![
                    s@.subrange(start as int, i as int),
                ] + spec_words_from(s@, i as int));
                assert(out@.map_values(|t: String| t@) =~= pre.push(tv));
                assert(pre + spec_words_from(s@, start as int) =~= out@.map_values(
                    |t: String| t@,
                ) + spec_words_from(s@, i as int));
            }
        }
    }
    proof {
        assert(spec_words_from(s@, n as int) =~= Seq::<Seq<char>>::empty());
        assert(out@.map_values(|t: String| t@) + spec_words_from(s@, n as int) =~= out@.map_values(
            |t: String| t@,
        ));
    }
    out
}

} // verus!
