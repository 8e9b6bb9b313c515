//! The schema-driven mapping layer: a declarative description of how a host
//! record type corresponds to one template, and the operations derived
//! mechanically from it — field accessors on the host record and on a live
//! fact, an assert operation, and an optional recovery operation.

use crate::fact::{
    assert_ok, asserted_fact, env_after_assert, has_slot, lookup_slot, staged_value, BuilderModel,
    Fact, FactModel, SlotModel,
};
use crate::value::{Value, ValueModel};
use crate::{find_template_model, EnvModel, Environment};
use vstd::prelude::*;

verus! {

/// How a generated field accessor returns the field: by reference, by shallow
/// copy, or by deep clone. `Default` defers the choice to the field's host
/// type.
#[derive(Clone, Copy, Debug, PartialEq, Eq, Structural)]
pub enum ReturnType {
    Default,
    Ref,
    Copy,
    Clone,
}

/// The host types a mapped field may carry across the value protocol.
#[derive(Clone, Copy, Debug, PartialEq, Eq, Structural)]
pub enum HostType {
    Bool,
    I8,
    I16,
    I32,
    I64,
    U8,
    U16,
    U32,
    U64,
    F32,
    F64,
    Text,
    TextRef,
    Sym,
}

/// Whether an unspecified return policy resolves to a shallow copy for this
/// host type: scalars and references do, owned values are borrowed.
pub open spec fn copy_resolved(ty: HostType) -> bool {
    match ty {
        HostType::Bool => true,
        HostType::I8 => true,
        HostType::I16 => true,
        HostType::I32 => true,
        HostType::I64 => true,
        HostType::U8 => true,
        HostType::U16 => true,
        HostType::U32 => true,
        HostType::U64 => true,
        HostType::F32 => true,
        HostType::F64 => true,
        HostType::Text => false,
        HostType::TextRef => true,
        HostType::Sym => false,
    }
}

/// The return policy a field accessor ends up with: an explicit policy
/// stands; an unspecified one becomes `Copy` for scalars and references and
/// `Ref` (borrow) for every other type.
pub open spec fn resolved_policy(p: ReturnType, ty: HostType) -> ReturnType {
    match p {
        ReturnType::Default => if copy_resolved(ty) {
            ReturnType::Copy
        } else {
            ReturnType::Ref
        },
        other => other,
    }
}

impl ReturnType {
    /// Resolves the policy for a field of the given host type.
    pub fn choose_if_default(&self, ty: HostType) -> (r: ReturnType)
        ensures
            r == resolved_policy(*self, ty),
    {
        match self {
            ReturnType::Default => {
                match ty {
                    HostType::Text => ReturnType::Ref,
                    HostType::Sym => ReturnType::Ref,
                    _ => ReturnType::Copy,
                }
            },
            ReturnType::Ref => ReturnType::Ref,
            ReturnType::Copy => ReturnType::Copy,
            ReturnType::Clone => ReturnType::Clone,
        }
    }
}

impl Default for ReturnType {
    fn default() -> (r: Self)
        ensures
            r == ReturnType::Default,
    {
        ReturnType::Default
    }
}

/// Whether a tagged value carries what the host type expects: the tag must
/// match, and a boolean must carry one of the two canonical lexemes.
pub open spec fn tag_matches(ty: HostType, m: ValueModel) -> bool {
    match ty {
        HostType::Bool => m matches ValueModel::Symbol(s) && (s == "TRUE"@ || s == "FALSE"@),
        HostType::I8 => m is Integer,
        HostType::I16 => m is Integer,
        HostType::I32 => m is Integer,
        HostType::I64 => m is Integer,
        HostType::U8 => m is Integer,
        HostType::U16 => m is Integer,
        HostType::U32 => m is Integer,
        HostType::U64 => m is Integer,
        HostType::F32 => m is Float,
        HostType::F64 => m is Float,
        HostType::Text => m is Str,
        HostType::TextRef => m is Str,
        HostType::Sym => m is Symbol,
    }
}

/// Mathematical model of one field mapping.
#[verifier::ext_equal]
pub struct FieldModel {
    pub field_name: Seq<char>,
    pub host_type: HostType,
    pub rename: Option<Seq<char>>,
    pub return_type: ReturnType,
}

impl FieldModel {
    /// The slot this field maps to: the explicit rename, or the field's own
    /// name.
    pub open spec fn slot_name(self) -> Seq<char> {
        match self.rename {
            Some(n) => n,
            None => self.field_name,
        }
    }
}

/// How one field of a host record type maps to one slot: the field's name and
/// host type, an optional slot rename, and the accessor return policy.
pub struct FieldMapping {
    pub field_name: String,
    pub host_type: HostType,
    pub rename: Option<String>,
    pub return_type: ReturnType,
}

impl View for FieldMapping {
    type V = FieldModel;

    open spec fn view(&self) -> FieldModel {
        FieldModel {
            field_name: self.field_name@,
            host_type: self.host_type,
            rename: match self.rename {
                Some(n) => Some(n@),
                None => None,
            },
            return_type: self.return_type,
        }
    }
}

impl FieldMapping {
    /// The slot this field maps to.
    pub fn slot_name(&self) -> (r: &String)
        ensures
            r@ == self@.slot_name(),
    {
        match &self.rename {
            Some(n) => n,
            None => &self.field_name,
        }
    }

    /// The resolved return policy of this field's accessor.
    pub fn return_type(&self) -> (r: ReturnType)
        ensures
            r == resolved_policy(self@.return_type, self@.host_type),
    {
        self.return_type.choose_if_default(self.host_type)
    }
}

/// Mathematical model of a schema mapping.
#[verifier::ext_equal]
pub struct MappingModel {
    pub template: Seq<char>,
    pub consume_on_assert: bool,
    pub recoverable: bool,
    pub fields: Seq<FieldModel>,
}

/// A declarative mapping between a host record type and one template: the
/// template's name, whether the assert operation consumes the host value,
/// whether a recovery operation is generated, and the ordered field mappings.
/// This is the whole configuration surface of the mapping layer.
pub struct SchemaMapping {
    pub template: String,
    pub consume_on_assert: bool,
    pub recoverable: bool,
    pub fields: Vec<FieldMapping>,
}

impl View for SchemaMapping {
    type V = MappingModel;

    open spec fn view(&self) -> MappingModel {
        MappingModel {
            template: self.template@,
            consume_on_assert: self.consume_on_assert,
            recoverable: self.recoverable,
            fields: self.fields@.map_values(|f: FieldMapping| f@),
        }
    }
}

impl SchemaMapping {
    /// Whether the assert operation takes the host value by move.
    pub fn consumes_self(&self) -> (r: bool)
        ensures
            r == self@.consume_on_assert,
    {
        self.consume_on_assert
    }
}

/// The views of a record's field values.
pub open spec fn values_view(vals: Seq<Value>) -> Seq<ValueModel> {
    vals.map_values(|v: Value| v@)
}

/// The position of the field with the given name, or `-1` when there is none.
pub open spec fn field_position(fields: Seq<FieldModel>, name: Seq<char>) -> int
    decreases fields.len(),
{
    if fields.len() == 0 {
        -1
    } else if fields[0].field_name == name {
        0
    } else {
        let p = field_position(fields.subrange(1, fields.len() as int), name);
        if p < 0 {
            -1
        } else {
            p + 1
        }
    }
}

proof fn lemma_field_position_found(fields: Seq<FieldModel>, name: Seq<char>, i: int)
    requires
        0 <= i < fields.len(),
        fields[i].field_name == name,
        forall|k: int| 0 <= k < i ==> (#[trigger] fields[k]).field_name != name,
    ensures
        field_position(fields, name) == i,
    decreases i,
{
    if i > 0 {
        assert(forall|k: int|
            0 <= k < i - 1 ==> (#[trigger] fields.subrange(1, fields.len() as int)[k]).field_name
                != name);
        assert(fields.subrange(1, fields.len() as int)[i - 1] == fields[i]);
        lemma_field_position_found(fields.subrange(1, fields.len() as int), name, i - 1);
    }
}

proof fn lemma_field_position_none(fields: Seq<FieldModel>, name: Seq<char>)
    requires
        forall|k: int| 0 <= k < fields.len() ==> (#[trigger] fields[k]).field_name != name,
    ensures
        field_position(fields, name) == -1,
    decreases fields.len(),
{
    if fields.len() > 0 {
        assert(forall|k: int|
            0 <= k < fields.len() - 1 ==> (#[trigger] fields.subrange(
                1,
                fields.len() as int,
            )[k]).field_name != name);
        lemma_field_position_none(fields.subrange(1, fields.len() as int), name);
    }
}

/// The host-record implementation of the accessor contract: the named field's
/// value, read straight off the record.
pub fn record_field(mapping: &SchemaMapping, values: &Vec<Value>, field: &str) -> (r: Option<
    Value,
>)
    ensures
        ({
            let p = field_position(mapping@.fields, field@);
            if 0 <= p < values@.len() {
                r matches Some(v) && v@ == values_view(values@)[p]
            } else {
                r is None
            }
        }),
{
    let ghost fs = mapping@.fields;
    let mut i: usize = 0;
    while i < mapping.fields.len()
        invariant
            fs == mapping@.fields,
            fs.len() == mapping.fields@.len(),
            0 <= i <= mapping.fields.len(),
            forall|k: int| 0 <= k < i ==> (#[trigger] fs[k]).field_name != field@,
        decreases mapping.fields.len() - i,
    {
        if crate::value::str_eq(mapping.fields[i].field_name.as_str(), field) {
            proof {
                lemma_field_position_found(fs, field@, i as int);
            }
            if i < values.len() {
                return Some(values[i].clone());
            } else {
                return None;
            }
        }
        i += 1;
    }
    proof {
        lemma_field_position_none(fs, field@);
    }
    None
}

/// The fact-wrapper implementation of the accessor contract: the named
/// field's value, read from the live fact's mapped slot. The mapping is
/// assumed to agree with the schema the fact was asserted against; a missing
/// field or slot is a programmer error, excluded by precondition.
pub fn fact_field(mapping: &SchemaMapping, fact: &Fact, field: &str) -> (r: Value)
    requires
        field_position(mapping@.fields, field@) >= 0,
        has_slot(fact@.slots, mapping@.fields[field_position(mapping@.fields, field@)].slot_name()),
    ensures
        Some(r@) == lookup_slot(
            fact@.slots,
            mapping@.fields[field_position(mapping@.fields, field@)].slot_name(),
        ),
{
    let ghost fs = mapping@.fields;
    let mut i: usize = 0;
    while i < mapping.fields.len()
        invariant
            fs == mapping@.fields,
            fs.len() == mapping.fields@.len(),
            field_position(fs, field@) >= 0,
            has_slot(fact@.slots, fs[field_position(fs, field@)].slot_name()),
            0 <= i <= mapping.fields.len(),
            forall|k: int| 0 <= k < i ==> (#[trigger] fs[k]).field_name != field@,
        decreases mapping.fields.len() - i,
    {
        if crate::value::str_eq(mapping.fields[i].field_name.as_str(), field) {
            proof {
                lemma_field_position_found(fs, field@, i as int);
            }
            return fact.slot(mapping.fields[i].slot_name().as_str());
        }
        i += 1;
    }
    proof {
        lemma_field_position_none(fs, field@);
        assert(false);
    }
    unreached()
}

/// The slot writes the assert operation stages: one per field, in declaration
/// order, under the field's mapped slot name.
pub open spec fn mapped_staged(fields: Seq<FieldModel>, vals: Seq<ValueModel>) -> Seq<SlotModel> {
    Seq::new(fields.len(), |i: int| SlotModel { name: fields[i].slot_name(), value: vals[i] })
}

/// The builder state the assert operation reaches just before asserting.
pub open spec fn mapped_builder(e: EnvModel, m: MappingModel, vals: Seq<ValueModel>) -> BuilderModel {
    BuilderModel {
        template: m.template,
        schema: match find_template_model(e.templates, m.template) {
            Some(t) => Some(t.slots),
            None => None,
        },
        staged: mapped_staged(m.fields, vals),
    }
}

/// Whether the assert operation succeeds: one value per field, and the staged
/// fact is accepted by the environment.
pub open spec fn assert_record_ok(e: EnvModel, m: MappingModel, vals: Seq<ValueModel>) -> bool {
    &&& vals.len() == m.fields.len()
    &&& assert_ok(e, mapped_builder(e, m, vals))
}

/// The fact the assert operation adds on success.
pub open spec fn mapped_fact(e: EnvModel, m: MappingModel, vals: Seq<ValueModel>) -> FactModel {
    asserted_fact(e, mapped_builder(e, m, vals))
}

/// The assert operation: opens a builder against the mapping's template, puts
/// every field value under its mapped slot name in declaration order, then
/// asserts. Any slot-write failure and any assertion failure collapse into
/// the one opaque failure signal, with the environment unchanged (fail-fast,
/// no partial state).
pub fn assert_record(mapping: &SchemaMapping, values: &Vec<Value>, env: &mut Environment) -> (r:
    Result<Fact, ()>)
    ensures
        r is Ok <==> assert_record_ok(old(env)@, mapping@, values_view(values@)),
        r is Err ==> final(env)@ == old(env)@,
        r matches Ok(f) ==> f@ == mapped_fact(old(env)@, mapping@, values_view(values@))
            && final(env)@ == env_after_assert(
            old(env)@,
            mapped_builder(old(env)@, mapping@, values_view(values@)),
        ),
        old(env)@.wf() && r is Ok ==> final(env)@.wf(),
    {
        let ghost e0 = env@;
        let ghost m = mapping@;
        let ghost vals = values_view(values@);
        if values.len() != mapping.fields.len() {
            // a malformed record can never stage one write per field
            proof {
                assert(!assert_record_ok(e0, m, vals));
            }
            return Err(());
        }
        let mut fb = env.new_fact_builder(mapping.template.as_str());
        let mut i: usize = 0;
        while i < mapping.fields.len()
            invariant
                e0 == env@,
                env@ == old(env)@,
                m == mapping@,
                vals == values_view(values@),
                m.fields.len() == mapping.fields@.len(),
                vals.len() == m.fields.len(),
                values@.len() == vals.len(),
                0 <= i <= mapping.fields.len(),
                fb@.template == m.template,
                (match find_template_model(e0.templates, m.template) {
                    Some(t) => fb@.schema == Some(t.slots),
                    None => fb@.schema is None,
                }),
                fb@.staged == mapped_staged(m.fields.take(i as int), vals.take(i as int)),
                forall|k: int|
                    0 <= k < i ==> (fb@.schema matches Some(schema) && schema.contains(
                        (#[trigger] m.fields[k]).slot_name(),
                    )),
            decreases mapping.fields.len() - i,
        {
            let v = values[i].clone();
            match fb.put(env, mapping.fields[i].slot_name().as_str(), v) {
                Ok(()) => {
                    proof {
                        assert(fb@.staged =~= mapped_staged(
                            m.fields.take(i + 1),
                            vals.take(i + 1),
                        ));
                    }
                },
                Err(_) => {
                    // the template is undefined or the slot does not belong
                    // to it: the staged fact could never be asserted
                    proof {
                        if fb@.schema is Some {
                            let t = find_template_model(e0.templates, m.template).unwrap();
                            assert(!t.slots.contains(m.fields[i as int].slot_name()));
                            assert(mapped_staged(m.fields, vals)[i as int].name == m.fields[
                                i as int
                            ].slot_name());
                            assert(!assert_ok(e0, mapped_builder(e0, m, vals)));
                        } else {
                            assert(find_template_model(e0.templates, m.template) is None);
                        }
                        assert(!assert_record_ok(e0, m, vals));
                    }
                    fb.abort();
                    return Err(());
                },
            }
            i += 1;
        }
        proof {
            assert(m.fields.take(m.fields.len() as int) =~= m.fields);
            assert(vals.take(vals.len() as int) =~= vals);
            assert(fb@ =~= mapped_builder(e0, m, vals));
        }
        fb.assert_fact(env)
    }

/// Whether a live fact can recover a host record under the mapping: every
/// mapped slot exists and carries a value of the field's host type. The
/// mapping and the schema are assumed to be co-designed; a mismatch is a
/// programmer error, excluded by precondition.
pub open spec fn recover_compatible(m: MappingModel, f: FactModel) -> bool {
    forall|i: int|
        0 <= i < m.fields.len() ==> {
            let v = lookup_slot(f.slots, (#[trigger] m.fields[i]).slot_name());
            v matches Some(val) && tag_matches(m.fields[i].host_type, val)
        }
}

/// The field values recovery reads back, in declaration order.
pub open spec fn recovered_values(m: MappingModel, f: FactModel) -> Seq<ValueModel> {
    Seq::new(m.fields.len(), |i: int| lookup_slot(f.slots, m.fields[i].slot_name()).unwrap())
}

/// The recovery operation: reads every mapped slot off the live fact and
/// reconstructs the host record's field values, in declaration order.
pub fn recover_record(mapping: &SchemaMapping, fact: &Fact) -> (r: Vec<Value>)
    requires
        mapping@.recoverable,
        recover_compatible(mapping@, fact@),
    ensures
        values_view(r@) == recovered_values(mapping@, fact@),
{
    let ghost m = mapping@;
    let mut out: Vec<Value> = Vec::new();
    let mut i: usize = 0;
    while i < mapping.fields.len()
        invariant
            m == mapping@,
            m.fields.len() == mapping.fields@.len(),
            recover_compatible(m, fact@),
            0 <= i <= mapping.fields.len(),
            out@.len() == i as int,
            forall|k: int|
                0 <= k < i ==> (#[trigger] out@[k])@ == lookup_slot(
                    fact@.slots,
                    m.fields[k].slot_name(),
                ).unwrap(),
        decreases mapping.fields.len() - i,
    {
        proof {
            assert(lookup_slot(fact@.slots, m.fields[i as int].slot_name()) is Some);
        }
        let v = fact.slot(mapping.fields[i].slot_name().as_str());
        out.push(v);
        i += 1;
    }
    proof {
        assert(values_view(out@) =~= recovered_values(m, fact@));
    }
    out
}

/// Whether a record's field values carry what their declared host types
/// expect.
pub open spec fn record_matches(m: MappingModel, vals: Seq<ValueModel>) -> bool {
    &&& vals.len() == m.fields.len()
    &&& forall|i: int|
        0 <= i < vals.len() ==> tag_matches((#[trigger] m.fields[i]).host_type, vals[i])
}

/// The slot names the mapping's fields resolve to, in declaration order.
pub open spec fn mapped_slot_names(fields: Seq<FieldModel>) -> Seq<Seq<char>> {
    fields.map_values(|f: FieldModel| f.slot_name())
}

proof fn lemma_lookup_value_of_name(
    slots: Seq<SlotModel>,
    name: Seq<char>,
    f: spec_fn(Seq<char>) -> ValueModel,
)
    requires
        forall|k: int| 0 <= k < slots.len() ==> (#[trigger] slots[k]).value == f(slots[k].name),
        exists|k: int| 0 <= k < slots.len() && (#[trigger] slots[k]).name == name,
    ensures
        lookup_slot(slots, name) == Some(f(name)),
    decreases slots.len(),
{
    if slots[0].name == name {
        assert(slots[0].value == f(slots[0].name));
    } else {
        let sub = slots.subrange(1, slots.len() as int);
        assert(forall|k: int| 0 <= k < sub.len() ==> #[trigger] sub[k] == slots[k + 1]);
        let k = choose|k: int| 0 <= k < slots.len() && (#[trigger] slots[k]).name == name;
        assert(sub[k - 1].name == name);
        lemma_lookup_value_of_name(sub, name, f);
    }
}

proof fn lemma_staged_lookup(fields: Seq<FieldModel>, vals: Seq<ValueModel>, i: int)
    requires
        vals.len() == fields.len(),
        0 <= i < fields.len(),
        crate::distinct_seqs(mapped_slot_names(fields)),
    ensures
        staged_value(mapped_staged(fields, vals), fields[i].slot_name()) == Some(vals[i]),
    decreases fields.len(),
{
    let staged = mapped_staged(fields, vals);
    let last = fields.len() - 1;
    assert(staged.last() == (SlotModel { name: fields[last].slot_name(), value: vals[last] }));
    if i == last {
    } else {
        assert(mapped_slot_names(fields)[i] == fields[i].slot_name());
        assert(mapped_slot_names(fields)[last] == fields[last].slot_name());
        assert(fields[last].slot_name() != fields[i].slot_name());
        assert(staged.drop_last() =~= mapped_staged(fields.drop_last(), vals.drop_last()));
        assert(mapped_slot_names(fields.drop_last()) =~= mapped_slot_names(fields).drop_last());
        assert(crate::distinct_seqs(mapped_slot_names(fields.drop_last())));
        lemma_staged_lookup(fields.drop_last(), vals.drop_last(), i);
        assert(fields.drop_last()[i] == fields[i]);
    }
}

/// Mapping round trip: with recovery enabled, recovering a record from the
/// fact its assertion produced reproduces the asserted field values exactly,
/// field for field, as long as no two fields resolve to one slot name.
pub proof fn lemma_mapping_roundtrip(e: EnvModel, m: MappingModel, vals: Seq<ValueModel>)
    requires
        m.recoverable,
        assert_record_ok(e, m, vals),
        record_matches(m, vals),
        crate::distinct_seqs(mapped_slot_names(m.fields)),
    ensures
        recover_compatible(m, mapped_fact(e, m, vals)),
        recovered_values(m, mapped_fact(e, m, vals)) == vals,
{
    let b = mapped_builder(e, m, vals);
    let f = mapped_fact(e, m, vals);
    let t = find_template_model(e.templates, m.template).unwrap();
    let staged = mapped_staged(m.fields, vals);
    assert forall|i: int| 0 <= i < m.fields.len() implies {
        let v = lookup_slot(f.slots, (#[trigger] m.fields[i]).slot_name());
        v == Some(vals[i]) && tag_matches(m.fields[i].host_type, vals[i])
    } by {
        let n = m.fields[i].slot_name();
        assert(staged[i].name == n);
        assert(t.slots.contains(n));
        let k = choose|k: int| 0 <= k < t.slots.len() && t.slots[k] == n;
        assert(f.slots[k].name == n);
        lemma_lookup_value_of_name(
            f.slots,
            n,
            |nm: Seq<char>| crate::fact::resolved_value(staged, nm),
        );
        lemma_staged_lookup(m.fields, vals, i);
        assert(lookup_slot(f.slots, n) == Some(crate::fact::resolved_value(staged, n)));
        assert(crate::fact::resolved_value(staged, n) == vals[i]);
    }
    assert(recovered_values(m, f) =~= vals);
}

} // verus!
