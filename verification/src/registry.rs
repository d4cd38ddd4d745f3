//! The tool schema registry: content-addressed identities, a Merkle
//! digest over the registered tools, verification, and drift analysis.

use vstd::prelude::*;
use vstd::string::StrSliceExecFns;
use vstd::string::StringExecFns;

use crate::hash::bytes_eq;
use crate::hash::copy_bytes;
use crate::hash::sha256;
use crate::hash::sha256_of;
use crate::json::JsonValue;
use crate::json::canon;
use crate::json::canon_string;
use crate::json::canonicalize;
use crate::json::duplicate;
use crate::json::jeq;
use crate::json::lemma_jeq_canon;
use crate::json::render_json_string;
use crate::merkle::EntriesView;
use crate::merkle::MerkleProof;
use crate::merkle::MerkleTree;
use crate::merkle::spec_digests;
use crate::merkle::spec_insert_sorted;
use crate::merkle::spec_lookup;
use crate::merkle::spec_remove_key;
use crate::merkle::spec_root_of;
use crate::text::str_eq;

verus! {

/// A tool's declared contract: its name, a description, and its input
/// and output schema documents.
#[derive(Debug)]
pub struct ToolSchema {
    /// The unique tool name.
    pub name: String,
    /// A human-readable description.
    pub description: String,
    /// The schema of the tool's input.
    pub input_schema: JsonValue,
    /// The schema of the tool's output.
    pub output_schema: JsonValue,
}

/// Two schemas with the same name, description and structurally equal
/// schema documents.
pub open spec fn spec_schema_sim(a: ToolSchema, b: ToolSchema) -> bool {
    &&& a.name@ == b.name@
    &&& a.description@ == b.description@
    &&& jeq(a.input_schema, b.input_schema)
    &&& jeq(a.output_schema, b.output_schema)
}

/// The canonical rendering of the schema quadruple, as the canonical
/// JSON object over its four keys — which already stand in canonical
/// key order.
pub open spec fn spec_schema_canon(s: ToolSchema) -> Seq<char> {
    seq!['{'] + canon_string("description"@) + seq![':'] + canon_string(s.description@) + seq![',']
        + canon_string("input_schema"@) + seq![':'] + canon(s.input_schema) + seq![',']
        + canon_string("name"@) + seq![':'] + canon_string(s.name@) + seq![','] + canon_string(
        "output_schema"@,
    ) + seq![':'] + canon(s.output_schema) + seq!['}']
}

/// The schema's content address: SHA-256 over the UTF-8 bytes of its
/// canonical rendering.
pub open spec fn spec_schema_hash(s: ToolSchema) -> Seq<u8> {
    sha256_of(vstd::utf8::encode_utf8(spec_schema_canon(s)))
}

/// Hash determinism: schemas that agree on name and description and
/// whose schema documents are equal up to JSON object-key ordering
/// canonicalise — and therefore hash — identically.
pub proof fn lemma_schema_equiv_hash(a: ToolSchema, b: ToolSchema)
    requires
        a.name@ == b.name@,
        a.description@ == b.description@,
        crate::json::json_equiv(a.input_schema, b.input_schema),
        crate::json::json_equiv(a.output_schema, b.output_schema),
    ensures
        spec_schema_canon(a) == spec_schema_canon(b),
        spec_schema_hash(a) == spec_schema_hash(b),
{
    crate::json::lemma_json_equiv_canon(a.input_schema, b.input_schema);
    crate::json::lemma_json_equiv_canon(a.output_schema, b.output_schema);
}

/// Structurally equal schemas share their canonical form and hash.
pub proof fn lemma_schema_sim_hash(a: ToolSchema, b: ToolSchema)
    requires
        spec_schema_sim(a, b),
    ensures
        spec_schema_canon(a) == spec_schema_canon(b),
        spec_schema_hash(a) == spec_schema_hash(b),
{
    lemma_jeq_canon(a.input_schema, b.input_schema);
    lemma_jeq_canon(a.output_schema, b.output_schema);
}

impl ToolSchema {
    /// An owned copy, structurally equal to the original.
    pub fn duplicate(&self) -> (r: ToolSchema)
        ensures
            spec_schema_sim(r, *self),
    {
        ToolSchema {
            name: self.name.clone(),
            description: self.description.clone(),
            input_schema: duplicate(&self.input_schema),
            output_schema: duplicate(&self.output_schema),
        }
    }
}

/// Canonicalises the schema quadruple and hashes the bytes.
pub fn hash_tool_schema(schema: &ToolSchema) -> (r: Vec<u8>)
    ensures
        r@ == spec_schema_hash(*schema),
        r@.len() == 32,
{
    let mut out = String::new();
    crate::text::push_char(&mut out, '{');
    let k1 = render_json_string("description");
    out.append(k1.as_str());
    crate::text::push_char(&mut out, ':');
    let v1 = render_json_string(schema.description.as_str());
    out.append(v1.as_str());
    crate::text::push_char(&mut out, ',');
    let k2 = render_json_string("input_schema");
    out.append(k2.as_str());
    crate::text::push_char(&mut out, ':');
    let v2 = canonicalize(&schema.input_schema);
    out.append(v2.as_str());
    crate::text::push_char(&mut out, ',');
    let k3 = render_json_string("name");
    out.append(k3.as_str());
    crate::text::push_char(&mut out, ':');
    let v3 = render_json_string(schema.name.as_str());
    out.append(v3.as_str());
    crate::text::push_char(&mut out, ',');
    let k4 = render_json_string("output_schema");
    out.append(k4.as_str());
    crate::text::push_char(&mut out, ':');
    let v4 = canonicalize(&schema.output_schema);
    out.append(v4.as_str());
    crate::text::push_char(&mut out, '}');
    proof {
        assert(out@ =~= spec_schema_canon(*schema));
    }
    sha256(out.as_str().as_bytes())
}

/// The outcome of verifying a schema against its registered identity.
#[derive(Debug, Clone, PartialEq, Eq)]
pub enum VerifyResult {
    /// The schema matches the registered digest exactly.
    Valid,
    /// The schema differs from the registered one.
    Invalid {
        /// The digest the registry holds.
        expected: Vec<u8>,
        /// The digest the presented schema hashes to.
        actual: Vec<u8>,
    },
    /// The tool has never been registered.
    Unknown,
}

/// The registry: schemas by name, and a Merkle tree over their digests.
pub struct RegistryGuard {
    schemas: Vec<(String, ToolSchema)>,
    merkle: MerkleTree,
}

impl RegistryGuard {
    /// The Merkle entries: names and digests, in sorted order.
    pub open spec fn spec_merkle_entries(self) -> EntriesView {
        self.spec_merkle().spec_entries()
    }

    pub closed spec fn spec_merkle(self) -> MerkleTree {
        self.merkle
    }

    pub closed spec fn spec_schemas(self) -> Seq<(Seq<char>, ToolSchema)> {
        self.schemas@.map_values(|e: (String, ToolSchema)| (e.0@, e.1))
    }

    /// The registered schema for a name, if any.
    pub open spec fn spec_schema_lookup(self, name: Seq<char>) -> Option<ToolSchema> {
        spec_assoc(self.spec_schemas(), name)
    }

    /// Consistency: schema names are unique, every stored schema's digest
    /// stands in the Merkle tree, and every Merkle name has a schema.
    pub open spec fn wf(self) -> bool {
        &&& self.spec_merkle().wf()
        &&& (forall|i: int, j: int|
            0 <= i < j < self.spec_schemas().len() ==> (#[trigger] self.spec_schemas()[i]).0 != (
            #[trigger] self.spec_schemas()[j]).0)
        &&& (forall|i: int|
            0 <= i < self.spec_schemas().len() ==> spec_lookup(
                self.spec_merkle_entries(),
                (#[trigger] self.spec_schemas()[i]).0,
            ) == Some(spec_schema_hash(self.spec_schemas()[i].1)))
        &&& (forall|m: Seq<char>|
            (#[trigger] spec_lookup(self.spec_merkle_entries(), m)) is Some ==> spec_assoc(
                self.spec_schemas(),
                m,
            ) is Some)
    }

    /// An empty registry.
    pub fn new() -> (r: RegistryGuard)
        ensures
            r.wf(),
            r.spec_schemas() == Seq::<(Seq<char>, ToolSchema)>::empty(),
            r.spec_merkle_entries() == Seq::<(Seq<char>, Seq<u8>)>::empty(),
    {
        let r = RegistryGuard { schemas: Vec::new(), merkle: MerkleTree::new() };
        proof {
            assert(r.spec_schemas() =~= Seq::<(Seq<char>, ToolSchema)>::empty());
        }
        r
    }

    /// Registers a schema: canonicalise, hash, store under its name —
    /// overwriting any previous registration — and update the tree.
    /// Returns the digest.
    pub fn register_tool(&mut self, tool: &ToolSchema) -> (r: Vec<u8>)
        requires
            old(self).wf(),
        ensures
            final(self).wf(),
            r@ == spec_schema_hash(*tool),
            final(self).spec_merkle_entries() == spec_insert_sorted(
                old(self).spec_merkle_entries(),
                tool.name@,
                spec_schema_hash(*tool),
            ),
            final(self).spec_schema_lookup(tool.name@) matches Some(s) && spec_schema_sim(
                s,
                *tool,
            ),
            forall|m: Seq<char>|
                m != tool.name@ ==> #[trigger] final(self).spec_schema_lookup(m) == old(
                    self,
                ).spec_schema_lookup(m),
    {
        let digest = hash_tool_schema(tool);
        let stored = tool.duplicate();
        proof {
            lemma_schema_sim_hash(stored, *tool);
        }

        let ghost ss0 = self.spec_schemas();
        let ghost me0 = self.spec_merkle_entries();

        // replace or append in the schema list
        let n = self.schemas.len();
        let mut i: usize = 0;
        let mut replaced = false;
        while i < n && !replaced
            invariant
                n == self.schemas@.len(),
                i <= n,
                *self == *old(self),
                ss0 == self.spec_schemas(),
                replaced ==> i < n && (ss0[i as int]).0 == tool.name@,
                forall|k: int| 0 <= k < i ==> (#[trigger] ss0[k]).0 != tool.name@,
            decreases n - i + (if replaced { 0int } else { 1int }),
        {
            if str_eq(self.schemas[i].0.as_str(), tool.name.as_str()) {
                replaced = true;
            } else {
                i = i + 1;
            }
        }
        if replaced {
            self.schemas.set(i, (tool.name.clone(), stored));
        } else {
            self.schemas.push((tool.name.clone(), stored));
        }
        self.merkle.insert(tool.name.as_str(), copy_bytes(&digest));

        proof {
            lemma_lookup_insert(me0, tool.name@, digest@);
            if replaced {
                assert(self.spec_schemas() =~= ss0.update(i as int, (tool.name@, stored)));
                lemma_assoc_at(ss0, tool.name@, i as int);
                lemma_assoc_update(ss0, tool.name@, stored, i as int);
            } else {
                assert(self.spec_schemas() =~= ss0.push((tool.name@, stored)));
                lemma_assoc_none(ss0, tool.name@);
                lemma_assoc_push(ss0, tool.name@, stored);
            }
            lemma_registry_wf_after_insert(
                ss0,
                me0,
                self.spec_schemas(),
                self.spec_merkle_entries(),
                tool.name@,
                stored,
                digest@,
            );
        }
        digest
    }

    /// Verifies a schema against the registered digest for its name:
    /// `Valid` exactly when the stored and freshly computed digests
    /// agree, `Invalid` with both digests when they differ, and
    /// `Unknown` for an unregistered name.
    pub fn verify_tool(&self, tool: &ToolSchema) -> (r: VerifyResult)
        ensures
            ({
                let stored = spec_lookup(self.spec_merkle_entries(), tool.name@);
                match stored {
                    Option::None => r == VerifyResult::Unknown,
                    Option::Some(expected) => {
                        if expected == spec_schema_hash(*tool) {
                            r == VerifyResult::Valid
                        } else {
                            r matches VerifyResult::Invalid { expected: e, actual: a } && e@
                                == expected && a@ == spec_schema_hash(*tool)
                        }
                    },
                }
            }),
    {
        let actual = hash_tool_schema(tool);
        match self.merkle.get(tool.name.as_str()) {
            Some(expected) => {
                if bytes_eq(&expected, &actual) {
                    VerifyResult::Valid
                } else {
                    VerifyResult::Invalid { expected, actual }
                }
            },
            None => VerifyResult::Unknown,
        }
    }

    /// Analyses drift between the registered version of the tool's name
    /// and the presented schema; an unregistered name reports a first
    /// registration.
    pub fn detect_drift(&self, tool: &ToolSchema) -> (r: crate::drift::DriftReport)
        ensures
            self.spec_schema_lookup(tool.name@) is None ==> r.level
                == crate::drift::DriftLevel::NoDrift && r.old_hash is None && r.new_hash@
                == spec_schema_hash(*tool),
            self.spec_schema_lookup(tool.name@) matches Some(s) ==> exists|s2: ToolSchema|
                #[trigger] spec_drift_outcome(s2, s, *tool, r),
    {
        match self.get_schema(tool.name.as_str()) {
            Some(stored) => {
                let report = crate::drift::detect_drift(&stored, tool);
                proof {
                    let s = self.spec_schema_lookup(tool.name@)->0;
                    lemma_schema_sim_hash(stored, s);
                    assert(spec_drift_outcome(stored, s, *tool, report));
                }
                report
            },
            None => crate::drift::new_tool_report(tool),
        }
    }

    /// The registered schema for a name, as an owned copy.
    pub fn get_schema(&self, name: &str) -> (r: Option<ToolSchema>)
        ensures
            match self.spec_schema_lookup(name@) {
                Some(s) => r matches Some(c) && spec_schema_sim(c, s),
                None => r is None,
            },
    {
        let n = self.schemas.len();
        let mut i: usize = 0;
        while i < n
            invariant
                n == self.schemas@.len(),
                i <= n,
                forall|k: int| 0 <= k < i ==> (#[trigger] self.spec_schemas()[k]).0 != name@,
            decreases n - i,
        {
            if str_eq(self.schemas[i].0.as_str(), name) {
                proof {
                    lemma_assoc_at(self.spec_schemas(), name@, i as int);
                }
                return Some(self.schemas[i].1.duplicate());
            }
            i = i + 1;
        }
        proof {
            lemma_assoc_none(self.spec_schemas(), name@);
        }
        None
    }

    /// The current Merkle root over the registered digests.
    pub fn get_root(&mut self) -> (r: Vec<u8>)
        requires
            old(self).wf(),
        ensures
            final(self).wf(),
            final(self).spec_merkle_entries() == old(self).spec_merkle_entries(),
            final(self).spec_schemas() == old(self).spec_schemas(),
            r@ == spec_root_of(spec_digests(old(self).spec_merkle_entries())),
    {
        self.merkle.get_root()
    }

    /// A membership proof for a registered name; absent names get none.
    pub fn get_merkle_proof(&mut self, tool_name: &str) -> (r: Option<MerkleProof>)
        requires
            old(self).wf(),
        ensures
            final(self).wf(),
            final(self).spec_merkle_entries() == old(self).spec_merkle_entries(),
            final(self).spec_schemas() == old(self).spec_schemas(),
            (r is Some) == (spec_lookup(old(self).spec_merkle_entries(), tool_name@) is Some),
            r matches Some(p) ==> {
                &&& Some(p.leaf_hash@) == spec_lookup(
                    old(self).spec_merkle_entries(),
                    tool_name@,
                )
                &&& p.root_hash@ == spec_root_of(spec_digests(old(self).spec_merkle_entries()))
                &&& crate::merkle::spec_fold_path(p.leaf_hash@, p.path@) == p.root_hash@
            },
    {
        self.merkle.get_proof(tool_name)
    }

    /// The stored digest for a name.
    pub fn get_tool_hash(&self, tool_name: &str) -> (r: Option<Vec<u8>>)
        ensures
            match spec_lookup(self.spec_merkle_entries(), tool_name@) {
                Some(d) => r matches Some(v) && v@ == d,
                None => r is None,
            },
    {
        self.merkle.get(tool_name)
    }

    /// Whether a name is registered.
    pub fn contains(&self, tool_name: &str) -> (r: bool)
        ensures
            r == (spec_lookup(self.spec_merkle_entries(), tool_name@) is Some),
    {
        match self.merkle.get(tool_name) {
            Some(_) => true,
            None => false,
        }
    }

    /// The registered names, in sorted order.
    pub fn list_tools(&self) -> (r: Vec<String>)
        ensures
            r@.len() == self.spec_merkle_entries().len(),
            forall|i: int|
                0 <= i < r@.len() ==> (#[trigger] r@[i])@ == self.spec_merkle_entries()[i].0,
    {
        self.merkle.names()
    }

    /// Removes a tool; reports whether it was present.
    pub fn remove_tool(&mut self, tool_name: &str) -> (r: bool)
        requires
            old(self).wf(),
        ensures
            final(self).wf(),
            r == (spec_lookup(old(self).spec_merkle_entries(), tool_name@) is Some),
            final(self).spec_merkle_entries() == spec_remove_key(
                old(self).spec_merkle_entries(),
                tool_name@,
            ),
            forall|m: Seq<char>|
                m != tool_name@ ==> #[trigger] final(self).spec_schema_lookup(m) == old(
                    self,
                ).spec_schema_lookup(m),
            final(self).spec_schema_lookup(tool_name@) is None,
    {
        let ghost ss0 = self.spec_schemas();
        let ghost me0 = self.spec_merkle_entries();
        let present = match self.merkle.remove(tool_name) {
            Some(_) => true,
            None => false,
        };

        // drop the schema entry, if any
        let n = self.schemas.len();
        let mut i: usize = 0;
        let mut found = false;
        while i < n && !found
            invariant
                n == self.schemas@.len(),
                i <= n,
                ss0 == self.spec_schemas(),
                self.spec_merkle_entries() == spec_remove_key(me0, tool_name@),
                self.spec_merkle().wf(),
                found ==> i < n && (ss0[i as int]).0 == tool_name@,
                forall|k: int| 0 <= k < i ==> (#[trigger] ss0[k]).0 != tool_name@,
            decreases n - i + (if found { 0int } else { 1int }),
        {
            if str_eq(self.schemas[i].0.as_str(), tool_name) {
                found = true;
            } else {
                i = i + 1;
            }
        }
        if found {
            self.schemas.remove(i);
            proof {
                assert(self.spec_schemas() =~= ss0.remove(i as int));
                lemma_assoc_at(ss0, tool_name@, i as int);
                lemma_assoc_remove(ss0, tool_name@, i as int);
            }
        } else {
            proof {
                lemma_assoc_none(ss0, tool_name@);
            }
        }
        proof {
            crate::merkle::lemma_wf_entries_sorted(old(self).spec_merkle());
            lemma_lookup_remove(me0, tool_name@);
            lemma_registry_wf_after_remove(
                ss0,
                me0,
                self.spec_schemas(),
                self.spec_merkle_entries(),
                tool_name@,
            );
        }
        present
    }

    /// The number of registered tools.
    pub fn len(&self) -> (r: usize)
        ensures
            r == self.spec_merkle_entries().len(),
    {
        self.merkle.len()
    }

    /// Whether nothing is registered.
    pub fn is_empty(&self) -> (r: bool)
        ensures
            r == (self.spec_merkle_entries().len() == 0),
    {
        self.merkle.is_empty()
    }
}

/// The drift report `r` compares the presented schema against a stored
/// copy `s2` of the registered schema `s`: the copy is structurally
/// equal to `s`, the report's digests name both versions, identity means
/// level `NoDrift`, and any Critical change of the table forces
/// `Critical`.
pub open spec fn spec_drift_outcome(
    s2: ToolSchema,
    s: ToolSchema,
    tool: ToolSchema,
    r: crate::drift::DriftReport,
) -> bool {
    &&& spec_schema_sim(s2, s)
    &&& (crate::drift::spec_schema_identical(s2, tool) <==> r.level
        == crate::drift::DriftLevel::NoDrift)
    &&& (crate::drift::spec_critical_drift(s2, tool) <==> r.level
        == crate::drift::DriftLevel::Critical)
    &&& r.old_hash matches Some(h) && h@ == spec_schema_hash(s)
    &&& r.new_hash@ == spec_schema_hash(tool)
}

/// The first schema under a name, if any.
pub open spec fn spec_assoc(es: Seq<(Seq<char>, ToolSchema)>, name: Seq<char>) -> Option<ToolSchema>
    decreases es.len(),
{
    if es.len() == 0 {
        None
    } else if es[0].0 == name {
        Some(es[0].1)
    } else {
        spec_assoc(es.drop_first(), name)
    }
}

proof fn lemma_assoc_at(es: Seq<(Seq<char>, ToolSchema)>, name: Seq<char>, i: int)
    requires
        0 <= i < es.len(),
        es[i].0 == name,
        forall|k: int| 0 <= k < i ==> (#[trigger] es[k]).0 != name,
    ensures
        spec_assoc(es, name) == Some(es[i].1),
    decreases es.len(),
{
    if i > 0 {
        assert(forall|k: int|
            0 <= k < es.drop_first().len() ==> #[trigger] es.drop_first()[k] == es[k + 1]);
        lemma_assoc_at(es.drop_first(), name, i - 1);
    }
}

proof fn lemma_assoc_none(es: Seq<(Seq<char>, ToolSchema)>, name: Seq<char>)
    requires
        forall|k: int| 0 <= k < es.len() ==> (#[trigger] es[k]).0 != name,
    ensures
        spec_assoc(es, name) is None,
    decreases es.len(),
{
    if es.len() > 0 {
        assert(forall|k: int|
            0 <= k < es.drop_first().len() ==> #[trigger] es.drop_first()[k] == es[k + 1]);
        lemma_assoc_none(es.drop_first(), name);
    }
}

proof fn lemma_assoc_update(es: Seq<(Seq<char>, ToolSchema)>, name: Seq<char>, v: ToolSchema, i: int)
    requires
        0 <= i < es.len(),
        es[i].0 == name,
        forall|k: int| 0 <= k < i ==> (#[trigger] es[k]).0 != name,
    ensures
        spec_assoc(es.update(i, (name, v)), name) == Some(v),
        forall|m: Seq<char>|
            m != name ==> #[trigger] spec_assoc(es.update(i, (name, v)), m) == spec_assoc(es, m),
    decreases es.len(),
{
    let r = es.update(i, (name, v));
    if i == 0 {
        assert(r[0] == (name, v));
        assert(r.drop_first() =~= es.drop_first());
        assert forall|m: Seq<char>| m != name implies #[trigger] spec_assoc(r, m) == spec_assoc(
            es,
            m,
        ) by {
            assert(spec_assoc(r, m) == spec_assoc(r.drop_first(), m));
            assert(spec_assoc(es, m) == spec_assoc(es.drop_first(), m));
        }
    } else {
        assert(es[0].0 != name);
        lemma_assoc_update(es.drop_first(), name, v, i - 1);
        assert(forall|k: int|
            0 <= k < es.drop_first().len() ==> #[trigger] es.drop_first()[k] == es[k + 1]);
        assert(r[0] == es[0]);
        assert(r.drop_first() =~= es.drop_first().update(i - 1, (name, v)));
        assert(spec_assoc(r, name) == spec_assoc(r.drop_first(), name));
        assert forall|m: Seq<char>| m != name implies #[trigger] spec_assoc(r, m) == spec_assoc(
            es,
            m,
        ) by {
            if es[0].0 == m {
                assert(spec_assoc(r, m) == Some(r[0].1));
                assert(spec_assoc(es, m) == Some(es[0].1));
            } else {
                assert(spec_assoc(es.drop_first().update(i - 1, (name, v)), m) == spec_assoc(
                    es.drop_first(),
                    m,
                ));
                assert(spec_assoc(r, m) == spec_assoc(r.drop_first(), m));
                assert(spec_assoc(es, m) == spec_assoc(es.drop_first(), m));
            }
        }
    }
}

proof fn lemma_assoc_push(es: Seq<(Seq<char>, ToolSchema)>, name: Seq<char>, v: ToolSchema)
    requires
        forall|k: int| 0 <= k < es.len() ==> (#[trigger] es[k]).0 != name,
    ensures
        spec_assoc(es.push((name, v)), name) == Some(v),
        forall|m: Seq<char>|
            m != name ==> #[trigger] spec_assoc(es.push((name, v)), m) == spec_assoc(es, m),
    decreases es.len(),
{
    let r = es.push((name, v));
    if es.len() == 0 {
        assert(r[0] == (name, v));
        assert forall|m: Seq<char>| m != name implies #[trigger] spec_assoc(r, m) == spec_assoc(
            es,
            m,
        ) by {
            assert(r.drop_first() =~= Seq::<(Seq<char>, ToolSchema)>::empty());
            assert(spec_assoc(r, m) == spec_assoc(r.drop_first(), m));
            assert(spec_assoc(r.drop_first(), m) is None);
        }
    } else {
        assert(es[0].0 != name);
        lemma_assoc_push(es.drop_first(), name, v);
        assert(forall|k: int|
            0 <= k < es.drop_first().len() ==> #[trigger] es.drop_first()[k] == es[k + 1]);
        assert(r[0] == es[0]);
        assert(r.drop_first() =~= es.drop_first().push((name, v)));
        assert(spec_assoc(r, name) == spec_assoc(r.drop_first(), name));
        assert forall|m: Seq<char>| m != name implies #[trigger] spec_assoc(r, m) == spec_assoc(
            es,
            m,
        ) by {
            if es[0].0 == m {
                assert(spec_assoc(r, m) == Some(r[0].1));
                assert(spec_assoc(es, m) == Some(es[0].1));
            } else {
                assert(spec_assoc(es.drop_first().push((name, v)), m) == spec_assoc(
                    es.drop_first(),
                    m,
                ));
                assert(spec_assoc(r, m) == spec_assoc(r.drop_first(), m));
                assert(spec_assoc(es, m) == spec_assoc(es.drop_first(), m));
            }
        }
    }
}

proof fn lemma_assoc_remove(es: Seq<(Seq<char>, ToolSchema)>, name: Seq<char>, i: int)
    requires
        0 <= i < es.len(),
        es[i].0 == name,
        forall|k: int| 0 <= k < i ==> (#[trigger] es[k]).0 != name,
        forall|a: int, b: int|
            0 <= a < b < es.len() ==> (#[trigger] es[a]).0 != (#[trigger] es[b]).0,
    ensures
        spec_assoc(es.remove(i), name) is None,
        forall|m: Seq<char>|
            m != name ==> #[trigger] spec_assoc(es.remove(i), m) == spec_assoc(es, m),
    decreases es.len(),
{
    let r = es.remove(i);
    if i == 0 {
        assert(r =~= es.drop_first());
        assert forall|k: int| 0 <= k < r.len() implies (#[trigger] r[k]).0 != name by {
            assert(r[k] == es[k + 1]);
        }
        lemma_assoc_none(r, name);
        assert forall|m: Seq<char>| m != name implies #[trigger] spec_assoc(r, m) == spec_assoc(
            es,
            m,
        ) by {
            assert(spec_assoc(es, m) == spec_assoc(es.drop_first(), m));
        }
    } else {
        assert(es[0].0 != name);
        assert(forall|k: int|
            0 <= k < es.drop_first().len() ==> #[trigger] es.drop_first()[k] == es[k + 1]);
        assert(forall|a: int, b: int|
            0 <= a < b < es.drop_first().len() ==> (#[trigger] es.drop_first()[a]).0 != (
            #[trigger] es.drop_first()[b]).0);
        lemma_assoc_remove(es.drop_first(), name, i - 1);
        assert(r[0] == es[0]);
        assert(r.drop_first() =~= es.drop_first().remove(i - 1));
        assert(spec_assoc(r, name) == spec_assoc(r.drop_first(), name));
        assert forall|m: Seq<char>| m != name implies #[trigger] spec_assoc(r, m) == spec_assoc(
            es,
            m,
        ) by {
            if es[0].0 == m {
                assert(spec_assoc(r, m) == Some(r[0].1));
                assert(spec_assoc(es, m) == Some(es[0].1));
            } else {
                assert(spec_assoc(es.drop_first().remove(i - 1), m) == spec_assoc(
                    es.drop_first(),
                    m,
                ));
                assert(spec_assoc(r, m) == spec_assoc(r.drop_first(), m));
                assert(spec_assoc(es, m) == spec_assoc(es.drop_first(), m));
            }
        }
    }
}

/// Looking a name up after a sorted insertion: the inserted name maps to
/// the new digest, every other name is untouched.
pub proof fn lemma_lookup_insert(es: EntriesView, name: Seq<char>, digest: Seq<u8>)
    ensures
        spec_lookup(spec_insert_sorted(es, name, digest), name) == Some(digest),
        forall|m: Seq<char>|
            m != name ==> #[trigger] spec_lookup(spec_insert_sorted(es, name, digest), m)
                == spec_lookup(es, m),
    decreases es.len(),
{
    let r = spec_insert_sorted(es, name, digest);
    if es.len() == 0 {
        assert(r[0] == (name, digest));
        assert forall|m: Seq<char>| m != name implies #[trigger] spec_lookup(r, m) == spec_lookup(
            es,
            m,
        ) by {
            assert(r.drop_first() =~= Seq::<(Seq<char>, Seq<u8>)>::empty());
            assert(spec_lookup(r, m) == spec_lookup(r.drop_first(), m));
            assert(spec_lookup(r.drop_first(), m) is None);
        }
    } else if crate::text::cp_lt(name, es[0].0) {
        assert(r =~= seq![(name, digest)] + es);
        assert(r[0] == (name, digest));
        assert(r.drop_first() =~= es);
        assert forall|m: Seq<char>| m != name implies #[trigger] spec_lookup(r, m) == spec_lookup(
            es,
            m,
        ) by {
            assert(spec_lookup(r, m) == spec_lookup(r.drop_first(), m));
        }
    } else if name == es[0].0 {
        assert(r =~= seq![(name, digest)] + es.drop_first());
        assert(r[0] == (name, digest));
        assert(r.drop_first() =~= es.drop_first());
        assert forall|m: Seq<char>| m != name implies #[trigger] spec_lookup(r, m) == spec_lookup(
            es,
            m,
        ) by {
            assert(spec_lookup(r, m) == spec_lookup(r.drop_first(), m));
            assert(spec_lookup(es, m) == spec_lookup(es.drop_first(), m));
        }
    } else {
        lemma_lookup_insert(es.drop_first(), name, digest);
        assert(r =~= seq![es[0]] + spec_insert_sorted(es.drop_first(), name, digest));
        assert(r[0] == es[0]);
        assert(r.drop_first() =~= spec_insert_sorted(es.drop_first(), name, digest));
        assert(es[0].0 != name);
        assert(spec_lookup(r, name) == spec_lookup(r.drop_first(), name));
        assert forall|m: Seq<char>| m != name implies #[trigger] spec_lookup(r, m) == spec_lookup(
            es,
            m,
        ) by {
            if es[0].0 == m {
                assert(spec_lookup(r, m) == Some(r[0].1));
                assert(spec_lookup(es, m) == Some(es[0].1));
            } else {
                assert(spec_lookup(spec_insert_sorted(es.drop_first(), name, digest), m)
                    == spec_lookup(es.drop_first(), m));
                assert(spec_lookup(r, m) == spec_lookup(r.drop_first(), m));
                assert(spec_lookup(es, m) == spec_lookup(es.drop_first(), m));
            }
        }
    }
}

/// Looking a name up after a removal: the removed name is gone, every
/// other name is untouched. Requires no duplicate among the names ahead
/// of the first match, which sorted entries provide.
pub proof fn lemma_lookup_remove(es: EntriesView, name: Seq<char>)
    requires
        forall|a: int, b: int|
            0 <= a < b < es.len() ==> (#[trigger] es[a]).0 != (#[trigger] es[b]).0,
    ensures
        spec_lookup(spec_remove_key(es, name), name) is None,
        forall|m: Seq<char>|
            m != name ==> #[trigger] spec_lookup(spec_remove_key(es, name), m) == spec_lookup(
                es,
                m,
            ),
    decreases es.len(),
{
    let r = spec_remove_key(es, name);
    if es.len() == 0 {
    } else if es[0].0 == name {
        assert(r =~= es.drop_first());
        assert(forall|k: int|
            0 <= k < es.drop_first().len() ==> #[trigger] es.drop_first()[k] == es[k + 1]);
        lemma_merkle_lookup_none(es.drop_first(), name);
        assert forall|m: Seq<char>| m != name implies #[trigger] spec_lookup(r, m) == spec_lookup(
            es,
            m,
        ) by {
            assert(spec_lookup(es, m) == spec_lookup(es.drop_first(), m));
        }
    } else {
        assert(forall|k: int|
            0 <= k < es.drop_first().len() ==> #[trigger] es.drop_first()[k] == es[k + 1]);
        assert(forall|a: int, b: int|
            0 <= a < b < es.drop_first().len() ==> (#[trigger] es.drop_first()[a]).0 != (
            #[trigger] es.drop_first()[b]).0);
        lemma_lookup_remove(es.drop_first(), name);
        assert(r =~= seq![es[0]] + spec_remove_key(es.drop_first(), name));
        assert(r[0] == es[0]);
        assert(r.drop_first() =~= spec_remove_key(es.drop_first(), name));
        assert(spec_lookup(r, name) == spec_lookup(r.drop_first(), name));
        assert forall|m: Seq<char>| m != name implies #[trigger] spec_lookup(r, m) == spec_lookup(
            es,
            m,
        ) by {
            if es[0].0 == m {
                assert(spec_lookup(r, m) == Some(r[0].1));
                assert(spec_lookup(es, m) == Some(es[0].1));
            } else {
                assert(spec_lookup(spec_remove_key(es.drop_first(), name), m) == spec_lookup(
                    es.drop_first(),
                    m,
                ));
                assert(spec_lookup(r, m) == spec_lookup(r.drop_first(), m));
                assert(spec_lookup(es, m) == spec_lookup(es.drop_first(), m));
            }
        }
    }
}

proof fn lemma_merkle_lookup_none(es: EntriesView, name: Seq<char>)
    requires
        forall|k: int| 0 <= k < es.len() ==> (#[trigger] es[k]).0 != name,
    ensures
        spec_lookup(es, name) is None,
    decreases es.len(),
{
    if es.len() > 0 {
        assert(forall|k: int|
            0 <= k < es.drop_first().len() ==> #[trigger] es.drop_first()[k] == es[k + 1]);
        lemma_merkle_lookup_none(es.drop_first(), name);
    }
}

proof fn lemma_registry_wf_after_insert(
    ss0: Seq<(Seq<char>, ToolSchema)>,
    me0: EntriesView,
    ss1: Seq<(Seq<char>, ToolSchema)>,
    me1: EntriesView,
    name: Seq<char>,
    stored: ToolSchema,
    digest: Seq<u8>,
)
    requires
        me1 == spec_insert_sorted(me0, name, digest),
        digest == spec_schema_hash(stored),
        // old registry invariants
        forall|i: int, j: int| 0 <= i < j < ss0.len() ==> (#[trigger] ss0[i]).0 != (#[trigger] ss0[j]).0,
        forall|i: int|
            0 <= i < ss0.len() ==> spec_lookup(me0, (#[trigger] ss0[i]).0) == Some(
                spec_schema_hash(ss0[i].1),
            ),
        forall|m: Seq<char>|
            (#[trigger] spec_lookup(me0, m)) is Some ==> spec_assoc(ss0, m) is Some,
        // how the schema list changed: either an in-place update or a push
        ({
            exists|i: int|
                0 <= i < ss0.len() && (#[trigger] ss0[i]).0 == name && ss1 == ss0.update(
                    i,
                    (name, stored),
                )
        } || (ss1 == ss0.push((name, stored)) && forall|k: int|
            0 <= k < ss0.len() ==> (#[trigger] ss0[k]).0 != name)),
    ensures
        forall|i: int, j: int| 0 <= i < j < ss1.len() ==> (#[trigger] ss1[i]).0 != (#[trigger] ss1[j]).0,
        forall|i: int|
            0 <= i < ss1.len() ==> spec_lookup(me1, (#[trigger] ss1[i]).0) == Some(
                spec_schema_hash(ss1[i].1),
            ),
        forall|m: Seq<char>|
            (#[trigger] spec_lookup(me1, m)) is Some ==> spec_assoc(ss1, m) is Some,
{
    lemma_lookup_insert(me0, name, digest);
    if exists|i: int|
        0 <= i < ss0.len() && (#[trigger] ss0[i]).0 == name && ss1 == ss0.update(
            i,
            (name, stored),
        ) {
        let i = choose|i: int|
            0 <= i < ss0.len() && (#[trigger] ss0[i]).0 == name && ss1 == ss0.update(
                i,
                (name, stored),
            );
        assert forall|a: int, b: int| 0 <= a < b < ss1.len() implies (#[trigger] ss1[a]).0 != (
        #[trigger] ss1[b]).0 by {
            assert(ss0[a].0 != ss0[b].0);
            assert(ss1[a].0 == if a == i {
                name
            } else {
                ss0[a].0
            });
            assert(ss1[b].0 == if b == i {
                name
            } else {
                ss0[b].0
            });
        }
        assert forall|k: int| 0 <= k < ss1.len() implies spec_lookup(
            me1,
            (#[trigger] ss1[k]).0,
        ) == Some(spec_schema_hash(ss1[k].1)) by {
            if k == i {
            } else {
                assert(ss1[k] == ss0[k]);
                assert(ss0[k].0 != name);
            }
        }
        assert forall|m: Seq<char>| (#[trigger] spec_lookup(me1, m)) is Some implies spec_assoc(
            ss1,
            m,
        ) is Some by {
            if m == name {
                lemma_assoc_at_any(ss1, name, i);
            } else {
                assert(spec_lookup(me0, m) is Some);
                lemma_assoc_some_update(ss0, ss1, m, i, name, stored);
            }
        }
    } else {
        assert(ss1 == ss0.push((name, stored)));
        assert forall|a: int, b: int| 0 <= a < b < ss1.len() implies (#[trigger] ss1[a]).0 != (
        #[trigger] ss1[b]).0 by {
            if b < ss0.len() {
                assert(ss1[a] == ss0[a] && ss1[b] == ss0[b]);
            } else {
                assert(ss1[b] == (name, stored));
                assert(ss1[a] == ss0[a]);
                assert(ss0[a].0 != name);
            }
        }
        assert forall|k: int| 0 <= k < ss1.len() implies spec_lookup(
            me1,
            (#[trigger] ss1[k]).0,
        ) == Some(spec_schema_hash(ss1[k].1)) by {
            if k < ss0.len() {
                assert(ss1[k] == ss0[k]);
                assert(ss0[k].0 != name);
            } else {
                assert(ss1[k] == (name, stored));
            }
        }
        assert forall|m: Seq<char>| (#[trigger] spec_lookup(me1, m)) is Some implies spec_assoc(
            ss1,
            m,
        ) is Some by {
            if m == name {
                lemma_assoc_at_any(ss1, name, ss0.len() as int);
            } else {
                assert(spec_lookup(me0, m) is Some);
                lemma_assoc_some_push(ss0, m, name, stored);
            }
        }
    }
}

/// A name that stands at some position is found.
proof fn lemma_assoc_at_any(es: Seq<(Seq<char>, ToolSchema)>, name: Seq<char>, i: int)
    requires
        0 <= i < es.len(),
        es[i].0 == name,
    ensures
        spec_assoc(es, name) is Some,
    decreases es.len(),
{
    if es[0].0 != name {
        assert(forall|k: int|
            0 <= k < es.drop_first().len() ==> #[trigger] es.drop_first()[k] == es[k + 1]);
        lemma_assoc_at_any(es.drop_first(), name, i - 1);
    }
}

proof fn lemma_assoc_some_update(
    ss0: Seq<(Seq<char>, ToolSchema)>,
    ss1: Seq<(Seq<char>, ToolSchema)>,
    m: Seq<char>,
    i: int,
    name: Seq<char>,
    stored: ToolSchema,
)
    requires
        0 <= i < ss0.len(),
        ss0[i].0 == name,
        ss1 == ss0.update(i, (name, stored)),
        m != name,
        spec_assoc(ss0, m) is Some,
    ensures
        spec_assoc(ss1, m) is Some,
{
    lemma_assoc_found_index(ss0, m);
    let k = choose|k: int| 0 <= k < ss0.len() && (#[trigger] ss0[k]).0 == m;
    assert(k != i);
    assert(ss1[k].0 == m);
    lemma_assoc_at_any(ss1, m, k);
}

proof fn lemma_assoc_some_push(
    ss0: Seq<(Seq<char>, ToolSchema)>,
    m: Seq<char>,
    name: Seq<char>,
    stored: ToolSchema,
)
    requires
        m != name,
        spec_assoc(ss0, m) is Some,
    ensures
        spec_assoc(ss0.push((name, stored)), m) is Some,
{
    lemma_assoc_found_index(ss0, m);
    let k = choose|k: int| 0 <= k < ss0.len() && (#[trigger] ss0[k]).0 == m;
    assert(ss0.push((name, stored))[k].0 == m);
    lemma_assoc_at_any(ss0.push((name, stored)), m, k);
}

/// A found name stands at some position.
proof fn lemma_assoc_found_index(es: Seq<(Seq<char>, ToolSchema)>, m: Seq<char>)
    requires
        spec_assoc(es, m) is Some,
    ensures
        exists|k: int| 0 <= k < es.len() && (#[trigger] es[k]).0 == m,
    decreases es.len(),
{
    if es.len() > 0 {
        if es[0].0 == m {
            assert(es[0].0 == m);
        } else {
            lemma_assoc_found_index(es.drop_first(), m);
            let k = choose|k: int|
                0 <= k < es.drop_first().len() && (#[trigger] es.drop_first()[k]).0 == m;
            assert(es[k + 1].0 == m);
        }
    }
}

#[verifier::rlimit(50)]
proof fn lemma_registry_wf_after_remove(
    ss0: Seq<(Seq<char>, ToolSchema)>,
    me0: EntriesView,
    ss1: Seq<(Seq<char>, ToolSchema)>,
    me1: EntriesView,
    name: Seq<char>,
)
    requires
        me1 == spec_remove_key(me0, name),
        forall|a: int, b: int|
            0 <= a < b < me0.len() ==> (#[trigger] me0[a]).0 != (#[trigger] me0[b]).0,
        forall|i: int, j: int| 0 <= i < j < ss0.len() ==> (#[trigger] ss0[i]).0 != (#[trigger] ss0[j]).0,
        forall|i: int|
            0 <= i < ss0.len() ==> spec_lookup(me0, (#[trigger] ss0[i]).0) == Some(
                spec_schema_hash(ss0[i].1),
            ),
        forall|m: Seq<char>|
            (#[trigger] spec_lookup(me0, m)) is Some ==> spec_assoc(ss0, m) is Some,
        // the schema list: either one entry bearing `name` was removed, or none bore it
        ({
            exists|i: int|
                0 <= i < ss0.len() && (#[trigger] ss0[i]).0 == name && ss1 == ss0.remove(i)
                    && forall|k: int| 0 <= k < i ==> (#[trigger] ss0[k]).0 != name
        } || (ss1 == ss0 && forall|k: int| 0 <= k < ss0.len() ==> (#[trigger] ss0[k]).0 != name)),
    ensures
        forall|i: int, j: int| 0 <= i < j < ss1.len() ==> (#[trigger] ss1[i]).0 != (#[trigger] ss1[j]).0,
        forall|i: int|
            0 <= i < ss1.len() ==> spec_lookup(me1, (#[trigger] ss1[i]).0) == Some(
                spec_schema_hash(ss1[i].1),
            ),
        forall|m: Seq<char>|
            (#[trigger] spec_lookup(me1, m)) is Some ==> spec_assoc(ss1, m) is Some,
{
    lemma_lookup_remove(me0, name);
    if exists|i: int|
        0 <= i < ss0.len() && (#[trigger] ss0[i]).0 == name && ss1 == ss0.remove(i) && forall|
            k: int,
        | 0 <= k < i ==> (#[trigger] ss0[k]).0 != name {
        let i = choose|i: int|
            0 <= i < ss0.len() && (#[trigger] ss0[i]).0 == name && ss1 == ss0.remove(i)
                && forall|k: int| 0 <= k < i ==> (#[trigger] ss0[k]).0 != name;
        assert forall|a: int, b: int| 0 <= a < b < ss1.len() implies (#[trigger] ss1[a]).0 != (
        #[trigger] ss1[b]).0 by {
            let a2 = if a < i {
                a
            } else {
                a + 1
            };
            let b2 = if b < i {
                b
            } else {
                b + 1
            };
            assert(ss1[a] == ss0[a2] && ss1[b] == ss0[b2]);
        }
        assert forall|k: int| 0 <= k < ss1.len() implies spec_lookup(
            me1,
            (#[trigger] ss1[k]).0,
        ) == Some(spec_schema_hash(ss1[k].1)) by {
            let k2 = if k < i {
                k
            } else {
                k + 1
            };
            assert(ss1[k] == ss0[k2]);
            assert(ss0[k2].0 != name);
        }
        assert forall|m: Seq<char>| (#[trigger] spec_lookup(me1, m)) is Some implies spec_assoc(
            ss1,
            m,
        ) is Some by {
            assert(m != name);
            assert(spec_lookup(me0, m) is Some);
            lemma_assoc_found_index(ss0, m);
            let k = choose|k: int| 0 <= k < ss0.len() && (#[trigger] ss0[k]).0 == m;
            let k2 = if k < i {
                k
            } else {
                k - 1
            };
            assert(k != i);
            assert(ss1[k2].0 == m);
            lemma_assoc_at_any(ss1, m, k2);
        }
    } else {
        assert(ss1 == ss0);
        assert forall|k: int| 0 <= k < ss1.len() implies spec_lookup(
            me1,
            (#[trigger] ss1[k]).0,
        ) == Some(spec_schema_hash(ss1[k].1)) by {
            assert(ss0[k].0 != name);
        }
        assert forall|m: Seq<char>| (#[trigger] spec_lookup(me1, m)) is Some implies spec_assoc(
            ss1,
            m,
        ) is Some by {
            assert(m != name);
            assert(spec_lookup(me0, m) is Some);
        }
    }
}

/// Register then verify: the digest stored for the inserted name is the
/// inserted digest, so verifying the same schema right after registering
/// it reports `Valid`.
pub proof fn lemma_register_then_verify(es: EntriesView, name: Seq<char>, digest: Seq<u8>)
    ensures
        spec_lookup(spec_insert_sorted(es, name, digest), name) == Some(digest),
{
    lemma_lookup_insert(es, name, digest);
}

/// Registering the same schema twice in a row changes nothing the second
/// time: the entries, and with them the Merkle root, stay as they were.
pub proof fn lemma_reregister_idempotent(es: EntriesView, name: Seq<char>, digest: Seq<u8>)
    ensures
        spec_insert_sorted(spec_insert_sorted(es, name, digest), name, digest)
            == spec_insert_sorted(es, name, digest),
        spec_root_of(
            spec_digests(spec_insert_sorted(spec_insert_sorted(es, name, digest), name, digest)),
        ) == spec_root_of(spec_digests(spec_insert_sorted(es, name, digest))),
    decreases es.len(),
{
    lemma_insert_insert(es, name, digest, digest);
}

/// A second insertion under the same name overwrites the first.
pub proof fn lemma_insert_insert(es: EntriesView, name: Seq<char>, d1: Seq<u8>, d2: Seq<u8>)
    ensures
        spec_insert_sorted(spec_insert_sorted(es, name, d1), name, d2) == spec_insert_sorted(
            es,
            name,
            d2,
        ),
    decreases es.len(),
{
    crate::text::lemma_cp_lt_irrefl(name);
    let r1 = spec_insert_sorted(es, name, d1);
    if es.len() == 0 {
        assert(spec_insert_sorted(r1, name, d2) =~= spec_insert_sorted(es, name, d2));
    } else if crate::text::cp_lt(name, es[0].0) {
        assert(r1 =~= seq![(name, d1)] + es);
        assert(r1[0] == (name, d1));
        assert(r1.drop_first() =~= es);
        assert(spec_insert_sorted(r1, name, d2) =~= spec_insert_sorted(es, name, d2));
    } else if name == es[0].0 {
        assert(r1 =~= seq![(name, d1)] + es.drop_first());
        assert(r1[0] == (name, d1));
        assert(r1.drop_first() =~= es.drop_first());
        assert(spec_insert_sorted(r1, name, d2) =~= spec_insert_sorted(es, name, d2));
    } else {
        lemma_insert_insert(es.drop_first(), name, d1, d2);
        assert(r1 =~= seq![es[0]] + spec_insert_sorted(es.drop_first(), name, d1));
        assert(r1[0] == es[0]);
        assert(r1.drop_first() =~= spec_insert_sorted(es.drop_first(), name, d1));
        assert(spec_insert_sorted(r1, name, d2) =~= seq![es[0]] + spec_insert_sorted(
            spec_insert_sorted(es.drop_first(), name, d1),
            name,
            d2,
        ));
        assert(spec_insert_sorted(es, name, d2) =~= seq![es[0]] + spec_insert_sorted(
            es.drop_first(),
            name,
            d2,
        ));
    }
}

} // verus!
