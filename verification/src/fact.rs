//! Staged fact construction, live-fact handles, retraction, and iteration
//! over the environment's working memory.

use crate::value::{EnvAllocatable, Value, ValueModel};
use crate::{find_template_model, slot_names_of, EnvModel, Environment};
use vstd::prelude::*;

verus! {

/// Mathematical model of one named slot of a fact.
#[verifier::ext_equal]
pub struct SlotModel {
    pub name: Seq<char>,
    pub value: ValueModel,
}

/// Mathematical model of a live fact: its stable index, the template it was
/// asserted against, and its slot values in the template's slot order.
#[verifier::ext_equal]
pub struct FactModel {
    pub index: u64,
    pub template: Seq<char>,
    pub slots: Seq<SlotModel>,
}

#[derive(Debug, PartialEq, Eq)]
pub(crate) struct SlotEntry {
    pub(crate) name: String,
    pub(crate) value: Value,
}

/// A handle to one asserted fact. The handle carries the fact's stable index
/// and a snapshot of its slot values, which are immutable for as long as the
/// fact is live; the fact itself is owned by the environment's store.
#[derive(Debug, PartialEq, Eq)]
pub struct Fact {
    pub(crate) index: u64,
    pub(crate) template: String,
    pub(crate) slots: Vec<SlotEntry>,
}

impl View for SlotEntry {
    type V = SlotModel;

    closed spec fn view(&self) -> SlotModel {
        SlotModel { name: self.name@, value: self.value@ }
    }
}

impl View for Fact {
    type V = FactModel;

    closed spec fn view(&self) -> FactModel {
        FactModel {
            index: self.index,
            template: self.template@,
            slots: self.slots@.map_values(|e: SlotEntry| e@),
        }
    }
}

/// The value of the first slot with the given name, if any.
pub open spec fn lookup_slot(slots: Seq<SlotModel>, name: Seq<char>) -> Option<ValueModel>
    decreases slots.len(),
{
    if slots.len() == 0 {
        None
    } else if slots[0].name == name {
        Some(slots[0].value)
    } else {
        lookup_slot(slots.subrange(1, slots.len() as int), name)
    }
}

/// Whether a slot with the given name exists.
pub open spec fn has_slot(slots: Seq<SlotModel>, name: Seq<char>) -> bool {
    lookup_slot(slots, name) is Some
}

proof fn lemma_lookup_slot_skip(slots: Seq<SlotModel>, name: Seq<char>, i: int)
    requires
        0 <= i <= slots.len(),
        forall|k: int| 0 <= k < i ==> (#[trigger] slots[k]).name != name,
    ensures
        lookup_slot(slots, name) == lookup_slot(slots.subrange(i, slots.len() as int), name),
    decreases i,
{
    if i > 0 {
        assert(forall|k: int|
            0 <= k < i - 1 ==> (#[trigger] slots.subrange(1, slots.len() as int)[k]).name != name);
        assert(slots.subrange(1, slots.len() as int).subrange(i - 1, slots.len() - 1) =~= slots
            .subrange(i, slots.len() as int));
        lemma_lookup_slot_skip(slots.subrange(1, slots.len() as int), name, i - 1);
    } else {
        assert(slots.subrange(0, slots.len() as int) =~= slots);
    }
}

impl Clone for SlotEntry {
    fn clone(&self) -> (r: Self)
        ensures
            r@ == self@,
    {
        SlotEntry { name: self.name.clone(), value: self.value.clone() }
    }
}

impl Clone for Fact {
    fn clone(&self) -> (r: Self)
        ensures
            r@ == self@,
    {
        let mut slots: Vec<SlotEntry> = Vec::new();
        let mut i: usize = 0;
        while i < self.slots.len()
            invariant
                i <= self.slots.len(),
                slots@.len() == i as int,
                forall|k: int| 0 <= k < i ==> (#[trigger] slots@[k])@ == self.slots@[k]@,
            decreases self.slots.len() - i,
        {
            slots.push(self.slots[i].clone());
            i += 1;
        }
        let r = Fact { index: self.index, template: self.template.clone(), slots };
        proof {
            assert(r@.slots =~= self@.slots);
            assert(r@ =~= self@);
        }
        r
    }
}

impl Fact {
    /// The fact's stable index, assigned at assertion time and unique among
    /// the environment's currently live facts.
    pub fn index(&self) -> (r: u64)
        ensures
            r == self@.index,
    {
        self.index
    }

    /// Reads the current value of the named slot.
    ///
    /// A nonexistent slot name means the compiled-in schema knowledge and the
    /// live schema disagree — a programmer error, excluded by precondition
    /// rather than reported as a recoverable result.
    pub fn slot(&self, name: &str) -> (r: Value)
        requires
            has_slot(self@.slots, name@),
        ensures
            Some(r@) == lookup_slot(self@.slots, name@),
    {
        let mut i: usize = 0;
        while i < self.slots.len()
            invariant
                has_slot(self@.slots, name@),
                0 <= i <= self.slots.len(),
                forall|k: int| 0 <= k < i ==> (#[trigger] self@.slots[k]).name != name@,
            decreases self.slots.len() - i,
        {
            if crate::value::str_eq(self.slots[i].name.as_str(), name) {
                let v = self.slots[i].value.clone();
                proof {
                    lemma_lookup_slot_skip(self@.slots, name@, i as int);
                    assert(self@.slots.subrange(i as int, self@.slots.len() as int)[0]
                        == self@.slots[i as int]);
                }
                return v;
            }
            i += 1;
        }
        proof {
            lemma_lookup_slot_skip(self@.slots, name@, self.slots.len() as int);
            assert(self@.slots.subrange(
                self.slots.len() as int,
                self@.slots.len() as int,
            ) =~= Seq::<SlotModel>::empty());
            assert(false);
        }
        unreached()
    }
}

impl EnvAllocatable for Fact {
    open spec fn foreign_model(&self) -> ValueModel {
        ValueModel::FactRef(self@.index)
    }

    fn allocate(&self, _env: &Environment) -> (r: Value)
    {
        Value::of_fact_index(self.index)
    }
}

/// A slot write failure. Writes are validated against the builder's schema
/// and leave the builder's staged slots unchanged when they fail.
#[derive(Clone, Copy, Debug, PartialEq, Eq, Structural)]
pub enum SlotError {
    /// The builder was created for a template that is not defined.
    InvalidTarget,
    /// The named slot does not exist in the builder's template.
    NoSuchSlot,
}

/// A retraction failure: the fact is not live (it was already retracted, or
/// the handle is stale).
#[derive(Clone, Copy, Debug, PartialEq, Eq, Structural)]
pub enum RetractError {
    NoSuchFact,
}

/// Mathematical model of a fact builder: the template it is bound to, that
/// template's slot names as captured at creation (absent when the template
/// was not defined), and the staged writes in order.
#[verifier::ext_equal]
pub struct BuilderModel {
    pub template: Seq<char>,
    pub schema: Option<Seq<Seq<char>>>,
    pub staged: Seq<SlotModel>,
}

/// A staged, write-once construction context for one fact, bound to one named
/// template. Exactly one of [`FactBuilder::assert_fact`] or [`FactBuilder::abort`]
/// consumes it; dropping it without either discards the staged slots.
pub struct FactBuilder {
    template: String,
    schema: Option<Vec<String>>,
    staged: Vec<SlotEntry>,
}

impl View for FactBuilder {
    type V = BuilderModel;

    closed spec fn view(&self) -> BuilderModel {
        BuilderModel {
            template: self.template@,
            schema: match self.schema {
                Some(s) => Some(s@.map_values(|n: String| n@)),
                None => None,
            },
            staged: self.staged@.map_values(|e: SlotEntry| e@),
        }
    }
}

/// The value staged for the given slot name, taking the latest write when the
/// same slot was written more than once.
pub open spec fn staged_value(staged: Seq<SlotModel>, name: Seq<char>) -> Option<ValueModel>
    decreases staged.len(),
{
    if staged.len() == 0 {
        None
    } else if staged.last().name == name {
        Some(staged.last().value)
    } else {
        staged_value(staged.drop_last(), name)
    }
}

/// The value a freshly asserted fact carries in the given slot: the staged
/// value, or the engine's `nil` symbol when the slot was never written.
pub open spec fn resolved_value(staged: Seq<SlotModel>, name: Seq<char>) -> ValueModel {
    match staged_value(staged, name) {
        Some(v) => v,
        None => ValueModel::Symbol("nil"@),
    }
}

/// Whether asserting the builder against the environment succeeds: the
/// builder's template is defined, every staged slot name belongs to it, and
/// an index is still available.
pub open spec fn assert_ok(e: EnvModel, b: BuilderModel) -> bool {
    &&& find_template_model(e.templates, b.template) is Some
    &&& forall|i: int|
        0 <= i < b.staged.len() ==> find_template_model(
            e.templates,
            b.template,
        ).unwrap().slots.contains((#[trigger] b.staged[i]).name)
    &&& e.next_index < u64::MAX
}

/// The fact a successful assertion adds: the environment's next index, and
/// one slot per template slot, in the template's order, resolved from the
/// staged writes.
pub open spec fn asserted_fact(e: EnvModel, b: BuilderModel) -> FactModel {
    let t = find_template_model(e.templates, b.template).unwrap();
    FactModel {
        index: e.next_index,
        template: b.template,
        slots: Seq::new(
            t.slots.len(),
            |i: int| SlotModel { name: t.slots[i], value: resolved_value(b.staged, t.slots[i]) },
        ),
    }
}

/// The environment after a successful assertion.
pub open spec fn env_after_assert(e: EnvModel, b: BuilderModel) -> EnvModel {
    EnvModel {
        facts: e.facts.push(asserted_fact(e, b)),
        next_index: (e.next_index + 1) as u64,
        ..e
    }
}

/// Whether a name occurs in a list of names.
pub(crate) fn contains_name(names: &Vec<String>, name: &str) -> (r: bool)
    ensures
        r == names@.map_values(|s: String| s@).contains(name@),
{
    let ghost views = names@.map_values(|s: String| s@);
    let mut i: usize = 0;
    while i < names.len()
        invariant
            0 <= i <= names.len(),
            views == names@.map_values(|s: String| s@),
            forall|k: int| 0 <= k < i ==> views[k] != name@,
        decreases names.len() - i,
    {
        if crate::value::str_eq(names[i].as_str(), name) {
            proof {
                assert(views[i as int] == name@);
            }
            return true;
        }
        i += 1;
    }
    proof {
        assert(forall|k: int| 0 <= k < views.len() ==> views[k] != name@);
    }
    false
}

/// Clones a list of names, keeping its view.
pub(crate) fn clone_names(names: &Vec<String>) -> (r: Vec<String>)
    ensures
        r@.map_values(|s: String| s@) == names@.map_values(|s: String| s@),
{
    let mut out: Vec<String> = Vec::new();
    let mut i: usize = 0;
    while i < names.len()
        invariant
            0 <= i <= names.len(),
            out@.len() == i as int,
            forall|k: int| 0 <= k < i ==> (#[trigger] out@[k])@ == names@[k]@,
        decreases names.len() - i,
    {
        out.push(names[i].clone());
        i += 1;
    }
    proof {
        assert(out@.map_values(|s: String| s@) =~= names@.map_values(|s: String| s@));
    }
    out
}

impl FactBuilder {
    /// Creates a builder bound to the named template, capturing that
    /// template's slot names. Reached through
    /// [`Environment::new_fact_builder`].
    pub(crate) fn new(env: &Environment, template: &str) -> (r: FactBuilder)
        ensures
            r@.template == template@,
            r@.staged == Seq::<SlotModel>::empty(),
            (match find_template_model(env@.templates, template@) {
                Some(t) => r@.schema == Some(t.slots),
                None => r@.schema is None,
            }),
    {
        let schema = match env.find_template_index(template) {
            Some(p) => Some(clone_names(&env.templates[p].slots)),
            None => None,
        };
        let r = FactBuilder { template: template.to_owned(), schema, staged: Vec::new() };
        proof {
            assert(r@.staged =~= Seq::<SlotModel>::empty());
        }
        r
    }

    /// Stages one slot write. Fails, leaving the staged slots unchanged, when
    /// the builder's template is undefined or the slot does not belong to it;
    /// several writes to one slot are allowed, and the last one wins.
    pub fn put<V: EnvAllocatable>(&mut self, env: &Environment, slot: &str, value: V) -> (r: Result<
        (),
        SlotError,
    >)
        ensures
            final(self)@.template == old(self)@.template,
            final(self)@.schema == old(self)@.schema,
            (match old(self)@.schema {
                None => r == Err::<(), SlotError>(SlotError::InvalidTarget) && final(self)@
                    == old(self)@,
                Some(schema) => {
                    if schema.contains(slot@) {
                        r == Ok::<(), SlotError>(()) && final(self)@.staged == old(
                            self,
                        )@.staged.push(SlotModel { name: slot@, value: value.foreign_model() })
                    } else {
                        r == Err::<(), SlotError>(SlotError::NoSuchSlot) && final(self)@ == old(
                            self,
                        )@
                    }
                },
            }),
    {
        match &self.schema {
            None => Err(SlotError::InvalidTarget),
            Some(schema) => {
                if contains_name(schema, slot) {
                    let v = value.allocate(env);
                    self.staged.push(SlotEntry { name: slot.to_owned(), value: v });
                    Ok(())
                } else {
                    Err(SlotError::NoSuchSlot)
                }
            },
        }
    }

    /// Asserts the staged fact, consuming the builder. On success the new
    /// fact is appended to the environment's working memory, with every
    /// template slot resolved to its latest staged value (or the `nil`
    /// symbol), and a live handle to it is returned. On failure — the
    /// template is undefined, a staged slot does not belong to it, or no
    /// index is available — the environment is unchanged; the failure is
    /// reported as a single opaque signal, and the builder's resources are
    /// released either way.
    pub fn assert_fact(self, env: &mut Environment) -> (r: Result<Fact, ()>)
        ensures
            r is Ok <==> assert_ok(old(env)@, self@),
            r is Err ==> final(env)@ == old(env)@,
            r matches Ok(f) ==> f@ == asserted_fact(old(env)@, self@) && final(env)@
                == env_after_assert(old(env)@, self@),
            r is Ok ==> final(env)@.facts.len() == old(env)@.facts.len() + 1,
            old(env)@.wf() && final(env)@ == env_after_assert(old(env)@, self@)
                ==> final(env)@.wf(),
    {
        let ghost e0 = env@;
        let ghost b = self@;
        let tpos = match env.find_template_index(&self.template) {
            Some(p) => p,
            None => {
                return Err(());
            },
        };
        if env.next_index == u64::MAX {
            return Err(());
        }
        // validate every staged slot name against the template
        let mut i: usize = 0;
        while i < self.staged.len()
            invariant
                tpos < env.templates@.len(),
                find_template_model(e0.templates, b.template) == Some(
                    env.templates@[tpos as int]@,
                ),
                0 <= i <= self.staged.len(),
                b == self@,
                e0 == env@,
                env@ == old(env)@,
                b.staged.len() == self.staged@.len(),
                forall|k: int|
                    0 <= k < i ==> find_template_model(e0.templates, b.template).unwrap(
                    ).slots.contains((#[trigger] b.staged[k]).name),
            decreases self.staged.len() - i,
        {
            if !contains_name(&env.templates[tpos].slots, self.staged[i].name.as_str()) {
                proof {
                    assert(!find_template_model(e0.templates, b.template).unwrap().slots.contains(
                        b.staged[i as int].name,
                    ));
                }
                return Err(());
            }
            i += 1;
        }
        proof {
            assert(assert_ok(e0, b));
        }
        // build the fact's slots in the template's order
        let tslots = clone_names(&env.templates[tpos].slots);
        let ghost tmodel = find_template_model(e0.templates, b.template).unwrap();
        let mut slots: Vec<SlotEntry> = Vec::new();
        let mut j: usize = 0;
        while j < tslots.len()
            invariant
                tslots@.map_values(|s: String| s@) == tmodel.slots,
                b == self@,
                e0 == env@,
                0 <= j <= tslots.len(),
                slots@.len() == j as int,
                forall|k: int|
                    0 <= k < j ==> (#[trigger] slots@[k])@ == (SlotModel {
                        name: tmodel.slots[k],
                        value: resolved_value(b.staged, tmodel.slots[k]),
                    }),
            decreases tslots.len() - j,
        {
            let value = match self.resolve_staged(tslots[j].as_str()) {
                Some(v) => v,
                None => Value::of_symbol("nil".to_owned()),
            };
            slots.push(SlotEntry { name: tslots[j].clone(), value });
            j += 1;
        }
        let fact = Fact { index: env.next_index, template: self.template, slots };
        proof {
            assert(fact@.slots =~= asserted_fact(e0, b).slots);
            assert(fact@ =~= asserted_fact(e0, b));
        }
        let handle = fact.clone();
        env.facts.push(fact);
        env.next_index = env.next_index + 1;
        proof {
            assert(env@.facts =~= e0.facts.push(asserted_fact(e0, b)));
            assert(env@.templates =~= e0.templates);
            assert(env@ =~= env_after_assert(e0, b));
            if e0.wf() {
                lemma_assert_preserves_wf(e0, b);
            }
        }
        Ok(handle)
    }

    /// Discards the staged slots and releases the builder, creating no fact.
    pub fn abort(self) {
    }

    /// The latest staged value for the given slot name, if any.
    fn resolve_staged(&self, name: &str) -> (r: Option<Value>)
        ensures
            (match r {
                Some(v) => staged_value(self@.staged, name@) == Some(v@),
                None => staged_value(self@.staged, name@) is None,
            }),
    {
        let ghost staged = self@.staged;
        let mut cur: Option<Value> = None;
        let mut i: usize = 0;
        while i < self.staged.len()
            invariant
                staged == self@.staged,
                staged.len() == self.staged@.len(),
                0 <= i <= self.staged.len(),
                (match cur {
                    Some(v) => staged_value(staged.take(i as int), name@) == Some(v@),
                    None => staged_value(staged.take(i as int), name@) is None,
                }),
            decreases self.staged.len() - i,
        {
            proof {
                assert(staged.take(i + 1).drop_last() =~= staged.take(i as int));
                assert(staged.take(i + 1).last() == staged[i as int]);
            }
            if crate::value::str_eq(self.staged[i].name.as_str(), name) {
                cur = Some(self.staged[i].value.clone());
            }
            i += 1;
        }
        proof {
            assert(staged.take(self.staged@.len() as int) =~= staged);
        }
        cur
    }
}

/// The position of the first live fact with the given index, or `-1` when
/// none is live.
pub open spec fn fact_position(facts: Seq<FactModel>, index: u64) -> int
    decreases facts.len(),
{
    if facts.len() == 0 {
        -1
    } else if facts[0].index == index {
        0
    } else {
        let p = fact_position(facts.subrange(1, facts.len() as int), index);
        if p < 0 {
            -1
        } else {
            p + 1
        }
    }
}

proof fn lemma_fact_position_found(facts: Seq<FactModel>, index: u64, i: int)
    requires
        0 <= i < facts.len(),
        facts[i].index == index,
        forall|k: int| 0 <= k < i ==> (#[trigger] facts[k]).index != index,
    ensures
        fact_position(facts, index) == i,
    decreases i,
{
    if i > 0 {
        assert(forall|k: int|
            0 <= k < i - 1 ==> (#[trigger] facts.subrange(1, facts.len() as int)[k]).index
                != index);
        assert(facts.subrange(1, facts.len() as int)[i - 1] == facts[i]);
        lemma_fact_position_found(facts.subrange(1, facts.len() as int), index, i - 1);
    }
}

proof fn lemma_fact_position_none(facts: Seq<FactModel>, index: u64)
    requires
        forall|k: int| 0 <= k < facts.len() ==> (#[trigger] facts[k]).index != index,
    ensures
        fact_position(facts, index) == -1,
    decreases facts.len(),
{
    if facts.len() > 0 {
        assert(forall|k: int|
            0 <= k < facts.len() - 1 ==> (#[trigger] facts.subrange(
                1,
                facts.len() as int,
            )[k]).index != index);
        lemma_fact_position_none(facts.subrange(1, facts.len() as int), index);
    }
}

impl Fact {
    /// Retracts the fact, consuming the handle. On success the fact is
    /// removed from the environment's working memory and its index becomes
    /// reusable by future assertions. Retraction fails exactly when no live
    /// fact carries the handle's index — the fact was already retracted —
    /// and the handle is consumed either way; the environment is then
    /// unchanged.
    pub fn retract(self, env: &mut Environment) -> (r: Result<(), RetractError>)
        ensures
            r is Ok <==> fact_position(old(env)@.facts, self@.index) >= 0,
            r is Err ==> final(env)@ == old(env)@ && r == Err::<(), RetractError>(
                RetractError::NoSuchFact,
            ),
            r is Ok ==> final(env)@ == (EnvModel {
                facts: old(env)@.facts.remove(fact_position(old(env)@.facts, self@.index)),
                ..old(env)@
            }),
            r is Ok ==> final(env)@.facts.len() == old(env)@.facts.len() - 1,
            old(env)@.wf() ==> final(env)@.wf(),
    {
        let ghost e0 = env@;
        let mut i: usize = 0;
        while i < env.facts.len()
            invariant
                e0 == env@,
                env@ == old(env)@,
                e0.facts.len() == env.facts@.len(),
                0 <= i <= env.facts.len(),
                forall|k: int| 0 <= k < i ==> (#[trigger] e0.facts[k]).index != self@.index,
            decreases env.facts.len() - i,
        {
            if env.facts[i].index == self.index {
                proof {
                    lemma_fact_position_found(e0.facts, self@.index, i as int);
                }
                env.facts.remove(i);
                proof {
                    assert(env@.facts =~= e0.facts.remove(i as int));
                    assert(env@ =~= (EnvModel { facts: e0.facts.remove(i as int), ..e0 }));
                    if e0.wf() {
                        lemma_remove_preserves_wf(e0, i as int);
                    }
                }
                return Ok(());
            }
            i += 1;
        }
        proof {
            lemma_fact_position_none(e0.facts, self@.index);
        }
        Err(RetractError::NoSuchFact)
    }
}

/// Removing one fact keeps a well-formed environment well formed.
proof fn lemma_remove_preserves_wf(e: EnvModel, i: int)
    requires
        e.wf(),
        0 <= i < e.facts.len(),
    ensures
        (EnvModel { facts: e.facts.remove(i), ..e }).wf(),
{
    let fs = e.facts.remove(i);
    assert(forall|k: int|
        0 <= k < fs.len() ==> #[trigger] fs[k] == (if k < i {
            e.facts[k]
        } else {
            e.facts[k + 1]
        }));
}

/// The live facts asserted against the named template, in assertion order.
pub open spec fn facts_named(facts: Seq<FactModel>, name: Seq<char>) -> Seq<FactModel>
    decreases facts.len(),
{
    if facts.len() == 0 {
        Seq::empty()
    } else {
        let rest = facts_named(facts.drop_last(), name);
        if facts.last().template == name {
            rest.push(facts.last())
        } else {
            rest
        }
    }
}

/// The live facts asserted against any other template, in assertion order.
pub open spec fn facts_not_named(facts: Seq<FactModel>, name: Seq<char>) -> Seq<FactModel>
    decreases facts.len(),
{
    if facts.len() == 0 {
        Seq::empty()
    } else {
        let rest = facts_not_named(facts.drop_last(), name);
        if facts.last().template != name {
            rest.push(facts.last())
        } else {
            rest
        }
    }
}

/// Iteration completeness: the facts one template's iterator visits and the
/// facts every other template's iteration would visit together are exactly
/// the whole store, which the global iterator visits. In particular, with
/// `k` live facts under the named template and `m` under others, the scoped
/// iterator yields exactly `k` facts and the global one exactly `k + m`.
pub proof fn lemma_iteration_partition(facts: Seq<FactModel>, name: Seq<char>)
    ensures
        facts_named(facts, name).len() + facts_not_named(facts, name).len() == facts.len(),
    decreases facts.len(),
{
    if facts.len() > 0 {
        lemma_iteration_partition(facts.drop_last(), name);
    }
}

/// A scoped iterator visits only facts of its own template, keeping their
/// assertion order.
pub proof fn lemma_facts_named_template(facts: Seq<FactModel>, name: Seq<char>)
    ensures
        forall|j: int|
            0 <= j < facts_named(facts, name).len() ==> (#[trigger] facts_named(facts, name)[
                j
            ]).template == name,
    decreases facts.len(),
{
    if facts.len() > 0 {
        lemma_facts_named_template(facts.drop_last(), name);
        let rest = facts_named(facts.drop_last(), name);
        assert forall|j: int| 0 <= j < facts_named(facts, name).len() implies (
        #[trigger] facts_named(facts, name)[j]).template == name by {
            if facts.last().template == name && j == rest.len() {
                assert(facts_named(facts, name)[j] == facts.last());
            } else {
                assert(facts_named(facts, name)[j] == rest[j]);
            }
        }
    }
}

/// Mathematical model of a fact iterator: the facts it visits and how many it
/// has already yielded.
#[verifier::ext_equal]
pub struct IterModel {
    pub items: Seq<FactModel>,
    pub pos: int,
}

/// An iterator over every live fact of an environment, oldest to newest in
/// assertion order. It is single-pass: once it has yielded its last fact it
/// yields nothing permanently, and a fresh iterator must be constructed to
/// iterate again.
pub struct Iter {
    items: Vec<Fact>,
    pos: usize,
}

impl View for Iter {
    type V = IterModel;

    closed spec fn view(&self) -> IterModel {
        IterModel { items: self.items@.map_values(|f: Fact| f@), pos: self.pos as int }
    }
}

impl Iter {
    /// Creates an iterator over all facts currently live in the environment.
    pub fn new(env: &Environment) -> (r: Iter)
        ensures
            r@.items == env@.facts,
            r@.pos == 0,
    {
        let items = clone_facts(&env.facts);
        Iter { items, pos: 0 }
    }

    /// Yields the next fact, or `None` — permanently — after the last one.
    pub fn next(&mut self) -> (r: Option<Fact>)
        ensures
            final(self)@.items == old(self)@.items,
            old(self)@.pos < old(self)@.items.len() ==> (r matches Some(f) && f@ == old(
                self,
            )@.items[old(self)@.pos] && final(self)@.pos == old(self)@.pos + 1),
            old(self)@.pos >= old(self)@.items.len() ==> r is None && final(self)@ == old(self)@,
    {
        if self.pos < self.items.len() {
            let f = self.items[self.pos].clone();
            self.pos = self.pos + 1;
            Some(f)
        } else {
            None
        }
    }
}

/// An iterator over the live facts of one template, oldest to newest in
/// assertion order; single-pass, like [`Iter`].
pub struct TemplateIter {
    items: Vec<Fact>,
    pos: usize,
}

impl View for TemplateIter {
    type V = IterModel;

    closed spec fn view(&self) -> IterModel {
        IterModel { items: self.items@.map_values(|f: Fact| f@), pos: self.pos as int }
    }
}

impl TemplateIter {
    fn new(env: &Environment, name: &str) -> (r: TemplateIter)
        ensures
            r@.items == facts_named(env@.facts, name@),
            r@.pos == 0,
    {
        let ghost fs = env@.facts;
        let mut items: Vec<Fact> = Vec::new();
        let mut i: usize = 0;
        while i < env.facts.len()
            invariant
                fs == env@.facts,
                fs.len() == env.facts@.len(),
                0 <= i <= env.facts.len(),
                items@.map_values(|f: Fact| f@) == facts_named(fs.take(i as int), name@),
            decreases env.facts.len() - i,
        {
            proof {
                assert(fs.take(i + 1).drop_last() =~= fs.take(i as int));
                assert(fs.take(i + 1).last() == fs[i as int]);
            }
            if crate::value::str_eq(env.facts[i].template.as_str(), name) {
                items.push(env.facts[i].clone());
                proof {
                    assert(items@.map_values(|f: Fact| f@) =~= facts_named(
                        fs.take(i + 1),
                        name@,
                    ));
                }
            }
            i += 1;
        }
        proof {
            assert(fs.take(fs.len() as int) =~= fs);
        }
        TemplateIter { items, pos: 0 }
    }

    /// Yields the next fact of the template, or `None` — permanently —
    /// after the last one.
    pub fn next(&mut self) -> (r: Option<Fact>)
        ensures
            final(self)@.items == old(self)@.items,
            old(self)@.pos < old(self)@.items.len() ==> (r matches Some(f) && f@ == old(
                self,
            )@.items[old(self)@.pos] && final(self)@.pos == old(self)@.pos + 1),
            old(self)@.pos >= old(self)@.items.len() ==> r is None && final(self)@ == old(self)@,
    {
        if self.pos < self.items.len() {
            let f = self.items[self.pos].clone();
            self.pos = self.pos + 1;
            Some(f)
        } else {
            None
        }
    }
}

/// Clones a list of facts, keeping its view.
fn clone_facts(facts: &Vec<Fact>) -> (r: Vec<Fact>)
    ensures
        r@.map_values(|f: Fact| f@) == facts@.map_values(|f: Fact| f@),
{
    let mut out: Vec<Fact> = Vec::new();
    let mut i: usize = 0;
    while i < facts.len()
        invariant
            0 <= i <= facts.len(),
            out@.len() == i as int,
            forall|k: int| 0 <= k < i ==> (#[trigger] out@[k])@ == facts@[k]@,
        decreases facts.len() - i,
    {
        out.push(facts[i].clone());
        i += 1;
    }
    proof {
        assert(out@.map_values(|f: Fact| f@) =~= facts@.map_values(|f: Fact| f@));
    }
    out
}

/// A named template (schema) reference, used to scope fact iteration.
pub struct Template {
    name: String,
}

impl View for Template {
    type V = Seq<char>;

    closed spec fn view(&self) -> Seq<char> {
        self.name@
    }
}

impl Template {
    pub(crate) fn of_name(name: String) -> (r: Template)
        ensures
            r@ == name@,
    {
        Template { name }
    }

    /// Returns an iterator over the environment's live facts asserted
    /// against this template.
    pub fn fact_iter(&self, env: &Environment) -> (r: TemplateIter)
        ensures
            r@.items == facts_named(env@.facts, self@),
            r@.pos == 0,
    {
        TemplateIter::new(env, self.name.as_str())
    }

    /// Returns an iterator over the environment's live facts asserted
    /// against this template, consuming the template itself.
    ///
    /// This is useful when the iterator needs to be carried around
    /// independently of the template.
    pub fn into_fact_iter(self, env: &Environment) -> (r: TemplateIter)
        ensures
            r@.items == facts_named(env@.facts, self@),
            r@.pos == 0,
    {
        TemplateIter::new(env, self.name.as_str())
    }
}

/// A successful assertion yields a handle with a fresh, previously-unused
/// index: no fact live before the assertion carries the new fact's index.
pub proof fn lemma_fresh_index(e: EnvModel, b: BuilderModel)
    requires
        e.wf(),
        assert_ok(e, b),
    ensures
        forall|i: int|
            0 <= i < e.facts.len() ==> (#[trigger] e.facts[i]).index != asserted_fact(e, b).index,
{
}

/// A successful assertion against a well-formed environment keeps it well
/// formed: the new fact carries a fresh index below the new `next_index` and
/// conforms to its template.
proof fn lemma_assert_preserves_wf(e: EnvModel, b: BuilderModel)
    requires
        e.wf(),
        assert_ok(e, b),
    ensures
        env_after_assert(e, b).wf(),
{
    let e1 = env_after_assert(e, b);
    let f = asserted_fact(e, b);
    let t = find_template_model(e.templates, b.template).unwrap();
    assert(slot_names_of(f.slots) =~= t.slots);
    assert(f.wf(e.templates));
    assert(forall|i: int|
        0 <= i < e1.facts.len() ==> e1.facts[i] == (if i < e.facts.len() {
            e.facts[i]
        } else {
            f
        }));
}

} // verus!
