//! A typed binding layer over a fact-based rule-processing engine's working
//! memory: tagged values, staged fact construction, live-fact handles with
//! retraction and iteration, schema (template) definitions loaded from
//! `deftemplate` source text, and a schema-driven record mapping layer.

use vstd::prelude::*;

pub mod fact;
pub mod mapping;
pub mod parse;
pub mod value;

pub use fact::{Fact, FactBuilder, Template};
pub use value::{EnvAllocatable, FloatBits, Symbol, Type, Value, ValueAccess};

use fact::{FactModel, SlotModel};

verus! {

/// Mathematical model of an environment: the defined templates and the live
/// facts, in assertion order, together with the next fact index to hand out.
#[verifier::ext_equal]
pub struct EnvModel {
    pub templates: Seq<TemplateModel>,
    pub facts: Seq<FactModel>,
    pub next_index: u64,
}

/// Mathematical model of a template: a named schema with an ordered list of
/// slot names.
#[verifier::ext_equal]
pub struct TemplateModel {
    pub name: Seq<char>,
    pub slots: Seq<Seq<char>>,
}

/// The environment owning one engine working memory: all templates and all
/// currently live facts.
pub struct Environment {
    pub(crate) templates: Vec<TemplateDef>,
    pub(crate) facts: Vec<Fact>,
    pub(crate) next_index: u64,
}

pub(crate) struct TemplateDef {
    pub(crate) name: String,
    pub(crate) slots: Vec<String>,
}

impl View for TemplateDef {
    type V = TemplateModel;

    closed spec fn view(&self) -> TemplateModel {
        TemplateModel { name: self.name@, slots: self.slots@.map_values(|s: String| s@) }
    }
}

impl View for Environment {
    type V = EnvModel;

    closed spec fn view(&self) -> EnvModel {
        EnvModel {
            templates: self.templates@.map_values(|t: TemplateDef| t@),
            facts: self.facts@.map_values(|f: Fact| f@),
            next_index: self.next_index,
        }
    }
}

/// All names in the sequence are pairwise distinct.
pub open spec fn distinct_seqs(s: Seq<Seq<char>>) -> bool {
    forall|i: int, j: int| 0 <= i < j < s.len() ==> s[i] != s[j]
}

/// The first template with the given name, if any.
pub open spec fn find_template_model(ts: Seq<TemplateModel>, name: Seq<char>) -> Option<
    TemplateModel,
>
    decreases ts.len(),
{
    if ts.len() == 0 {
        None
    } else if ts[0].name == name {
        Some(ts[0])
    } else {
        find_template_model(ts.subrange(1, ts.len() as int), name)
    }
}

/// The slot names of a fact, in order.
pub open spec fn slot_names_of(slots: Seq<SlotModel>) -> Seq<Seq<char>> {
    slots.map_values(|s: SlotModel| s.name)
}

pub(crate) proof fn lemma_find_template_skip(ts: Seq<TemplateModel>, name: Seq<char>, i: int)
    requires
        0 <= i <= ts.len(),
        forall|k: int| 0 <= k < i ==> (#[trigger] ts[k]).name != name,
    ensures
        find_template_model(ts, name) == find_template_model(
            ts.subrange(i, ts.len() as int),
            name,
        ),
    decreases i,
{
    if i > 0 {
        assert(forall|k: int|
            0 <= k < i - 1 ==> (#[trigger] ts.subrange(1, ts.len() as int)[k]).name != name);
        assert(ts.subrange(1, ts.len() as int).subrange(i - 1, ts.len() - 1) =~= ts.subrange(
            i,
            ts.len() as int,
        ));
        lemma_find_template_skip(ts.subrange(1, ts.len() as int), name, i - 1);
    } else {
        assert(ts.subrange(0, ts.len() as int) =~= ts);
    }
}

/// No template carries the name exactly when the lookup fails.
pub proof fn lemma_find_template_none(ts: Seq<TemplateModel>, name: Seq<char>)
    ensures
        (find_template_model(ts, name) is None) <==> (forall|i: int|
            0 <= i < ts.len() ==> (#[trigger] ts[i]).name != name),
    decreases ts.len(),
{
    if ts.len() > 0 && ts[0].name != name {
        let sub = ts.subrange(1, ts.len() as int);
        lemma_find_template_none(sub, name);
        assert(forall|k: int| 0 <= k < sub.len() ==> #[trigger] sub[k] == ts[k + 1]);
        if find_template_model(ts, name) is None {
            assert forall|i: int| 0 <= i < ts.len() implies (#[trigger] ts[i]).name != name by {
                if i > 0 {
                    assert(sub[i - 1] == ts[i]);
                }
            }
        } else {
            assert(!(forall|k: int| 0 <= k < sub.len() ==> (#[trigger] sub[k]).name != name));
            let k = choose|k: int| 0 <= k < sub.len() && (#[trigger] sub[k]).name == name;
            assert(ts[k + 1].name == name);
        }
    }
}

/// Looking a name up after appending one template: an existing template still
/// wins; otherwise the new one is found exactly when it carries the name.
pub proof fn lemma_find_template_push(ts: Seq<TemplateModel>, t: TemplateModel, name: Seq<char>)
    ensures
        find_template_model(ts.push(t), name) == (match find_template_model(ts, name) {
            Some(x) => Some(x),
            None => if t.name == name {
                Some(t)
            } else {
                None
            },
        }),
    decreases ts.len(),
{
    reveal_with_fuel(find_template_model, 3);
    if ts.len() == 0 {
        assert(ts.push(t)[0] == t);
        assert(ts.push(t).subrange(1, 1) =~= Seq::<TemplateModel>::empty());
    } else {
        assert(ts.push(t)[0] == ts[0]);
        assert(ts.push(t).subrange(1, ts.len() as int + 1) =~= ts.subrange(
            1,
            ts.len() as int,
        ).push(t));
        lemma_find_template_push(ts.subrange(1, ts.len() as int), t, name);
    }
}

/// Looking a name up in a concatenation: the front list wins.
pub proof fn lemma_find_template_append(
    ts1: Seq<TemplateModel>,
    ts2: Seq<TemplateModel>,
    name: Seq<char>,
)
    ensures
        find_template_model(ts1 + ts2, name) == (match find_template_model(ts1, name) {
            Some(x) => Some(x),
            None => find_template_model(ts2, name),
        }),
    decreases ts1.len(),
{
    if ts1.len() == 0 {
        assert(ts1 + ts2 =~= ts2);
    } else {
        assert((ts1 + ts2)[0] == ts1[0]);
        assert((ts1 + ts2).subrange(1, ts1.len() as int + ts2.len() as int) =~= ts1.subrange(
            1,
            ts1.len() as int,
        ) + ts2);
        lemma_find_template_append(ts1.subrange(1, ts1.len() as int), ts2, name);
    }
}

/// Whether a parsed batch of templates can be added to the existing ones:
/// each is fresh among the existing templates and among the batch so far, and
/// each has pairwise distinct slot names. Loading is atomic: a batch that is
/// not addable changes nothing.
pub open spec fn additions_ok(existing: Seq<TemplateModel>, ts: Seq<TemplateModel>) -> bool {
    forall|a: int|
        0 <= a < ts.len() ==> {
            &&& find_template_model(existing, (#[trigger] ts[a]).name) is None
            &&& distinct_seqs(ts[a].slots)
            &&& forall|b: int| 0 <= b < a ==> (#[trigger] ts[b]).name != ts[a].name
        }
}

/// Whether loading the source text into the environment succeeds: the text
/// parses as a sequence of template definitions and the batch is addable.
pub open spec fn load_ok(e: EnvModel, s: Seq<char>) -> bool {
    &&& parse::parse_templates(s) is Some
    &&& additions_ok(e.templates, parse::parse_templates(s).unwrap())
}

impl TemplateModel {
    /// A template is well formed when its slot names are pairwise distinct.
    pub open spec fn wf(self) -> bool {
        distinct_seqs(self.slots)
    }
}

impl FactModel {
    /// A fact is well formed with respect to a set of templates when its
    /// index is assigned, its template is defined, and its slots are exactly
    /// the template's slots, in the template's order.
    pub open spec fn wf(self, templates: Seq<TemplateModel>) -> bool {
        &&& find_template_model(templates, self.template) matches Some(t) && slot_names_of(
            self.slots,
        ) == t.slots
    }
}

impl EnvModel {
    /// The environment invariant: template names are distinct and each
    /// template is well formed; fact indices are strictly increasing (hence
    /// unique and in assertion order) and below `next_index`; every fact
    /// conforms to its template.
    pub open spec fn wf(self) -> bool {
        &&& distinct_seqs(self.templates.map_values(|t: TemplateModel| t.name))
        &&& forall|i: int| 0 <= i < self.templates.len() ==> (#[trigger] self.templates[i]).wf()
        &&& self.next_index >= 1
        &&& forall|i: int, j: int|
            #![trigger self.facts[i].index, self.facts[j].index]
            0 <= i < j < self.facts.len() ==> self.facts[i].index < self.facts[j].index
        &&& forall|i: int|
            0 <= i < self.facts.len() ==> (#[trigger] self.facts[i]).index < self.next_index
        &&& forall|i: int|
            0 <= i < self.facts.len() ==> (#[trigger] self.facts[i]).wf(self.templates)
    }
}

impl Environment {
    /// Creates a new environment with no templates and no facts.
    ///
    /// Creation always succeeds; the `Result` is kept so that callers treat
    /// environment acquisition as fallible, as an engine binding must.
    pub fn new() -> (r: Result<Self, ()>)
        ensures
            r matches Ok(env) && env@ == (EnvModel {
                templates: Seq::<TemplateModel>::empty(),
                facts: Seq::<FactModel>::empty(),
                next_index: 1,
            }),
            r matches Ok(env) ==> env@.wf(),
    {
        let env = Environment { templates: Vec::new(), facts: Vec::new(), next_index: 1 };
        proof {
            assert(env@.templates =~= Seq::<TemplateModel>::empty());
            assert(env@.facts =~= Seq::<FactModel>::empty());
        }
        Ok(env)
    }

    /// Returns the number of currently live facts.
    pub fn number_of_facts(&self) -> (r: usize)
        ensures
            r == self@.facts.len(),
    {
        self.facts.len()
    }

    /// The position of the template with the given name, if it is defined.
    pub(crate) fn find_template_index(&self, name: &str) -> (r: Option<usize>)
        ensures
            (match r {
                Some(p) => p < self@.templates.len() && find_template_model(
                    self@.templates,
                    name@,
                ) == Some(self@.templates[p as int]),
                None => find_template_model(self@.templates, name@) is None,
            }),
    {
        let ghost ts = self@.templates;
        let mut i: usize = 0;
        while i < self.templates.len()
            invariant
                ts == self@.templates,
                0 <= i <= self.templates.len(),
                ts.len() == self.templates@.len(),
                forall|k: int| 0 <= k < i ==> (#[trigger] ts[k]).name != name@,
            decreases self.templates.len() - i,
        {
            if value::str_eq(self.templates[i].name.as_str(), name) {
                proof {
                    lemma_find_template_skip(ts, name@, i as int);
                    assert(ts.subrange(i as int, ts.len() as int)[0] == ts[i as int]);
                }
                return Some(i);
            }
            i += 1;
        }
        proof {
            lemma_find_template_skip(ts, name@, ts.len() as int);
            assert(ts.subrange(ts.len() as int, ts.len() as int) =~= Seq::<TemplateModel>::empty());
        }
        None
    }

    /// The main entry point for building new facts. Takes the template name
    /// the fact will be asserted against.
    pub fn new_fact_builder(&self, template: &str) -> (r: fact::FactBuilder)
        ensures
            r@.template == template@,
            r@.staged == Seq::<SlotModel>::empty(),
            (match find_template_model(self@.templates, template@) {
                Some(t) => r@.schema == Some(t.slots),
                None => r@.schema is None,
            }),
    {
        fact::FactBuilder::new(self, template)
    }

    /// Returns an iterator over all currently live facts, oldest to newest in
    /// assertion order.
    pub fn fact_iter(&self) -> (r: fact::Iter)
        ensures
            r@.items == self@.facts,
            r@.pos == 0,
    {
        fact::Iter::new(self)
    }

    /// Finds a template by name, if one is defined.
    pub fn find_template(&self, template: &str) -> (r: Option<fact::Template>)
        ensures
            r is Some <==> find_template_model(self@.templates, template@) is Some,
            r matches Some(t) ==> t@ == template@,
    {
        match self.find_template_index(template) {
            Some(_) => Some(fact::Template::of_name(template.to_owned())),
            None => None,
        }
    }

    /// Defines one template. Fails, leaving the environment unchanged, when a
    /// template with the same name is already defined or the slot names are
    /// not pairwise distinct.
    pub(crate) fn define_template(&mut self, name: String, slots: Vec<String>) -> (r: Result<
        (),
        (),
    >)
        ensures
            r is Ok <==> (find_template_model(old(self)@.templates, name@) is None && distinct_seqs(
                slots@.map_values(|s: String| s@),
            )),
            r is Err ==> final(self)@ == old(self)@,
            r is Ok ==> final(self)@ == (EnvModel {
                templates: old(self)@.templates.push(
                    TemplateModel { name: name@, slots: slots@.map_values(|s: String| s@) },
                ),
                ..old(self)@
            }),
            old(self)@.wf() ==> final(self)@.wf(),
    {
        let ghost e0 = self@;
        if self.find_template_index(name.as_str()).is_some() {
            return Err(());
        }
        if !distinct_names_exec(&slots) {
            return Err(());
        }
        let ghost t = TemplateModel { name: name@, slots: slots@.map_values(|s: String| s@) };
        self.templates.push(TemplateDef { name, slots });
        proof {
            assert(self@.templates =~= e0.templates.push(t));
            assert(self@.facts =~= e0.facts);
            assert(self@ =~= (EnvModel { templates: e0.templates.push(t), ..e0 }));
            if e0.wf() {
                lemma_define_preserves_wf(e0, t);
            }
        }
        Ok(())
    }
}

impl Environment {
    /// Loads a set of constructs into the environment from a memory-based
    /// source (as opposed to an existing file). Template definitions are the
    /// constructs in scope for this layer: the source must be a sequence of
    /// `deftemplate` forms, each naming a fresh template with pairwise
    /// distinct slot names. Loading is atomic — on any failure the
    /// environment is unchanged.
    pub fn load_string(&mut self, source: &str) -> (r: Result<(), ()>)
        ensures
            r is Ok <==> load_ok(old(self)@, source@),
            r is Err ==> final(self)@ == old(self)@,
            r is Ok ==> final(self)@ == (EnvModel {
                templates: old(self)@.templates + parse::parse_templates(source@).unwrap(),
                ..old(self)@
            }),
            old(self)@.wf() ==> final(self)@.wf(),
    {
        let ghost e0 = self@;
        let toks = parse::tokenize_exec(source);
        let defs = match parse::parse_exec(&toks) {
            Some(d) => d,
            None => {
                return Err(());
            },
        };
        let ghost tv = parse::template_views(defs@);
        proof {
            assert(parse::parse_templates(source@) == Some(tv));
        }
        // validate the whole batch before changing anything: loading is atomic
        let mut a: usize = 0;
        while a < defs.len()
            invariant
                e0 == self@,
                self@ == old(self)@,
                parse::parse_templates(source@) == Some(tv),
                tv == parse::template_views(defs@),
                tv.len() == defs@.len(),
                0 <= a <= defs@.len(),
                forall|x: int|
                    0 <= x < a ==> {
                        &&& find_template_model(e0.templates, (#[trigger] tv[x]).name) is None
                        &&& distinct_seqs(tv[x].slots)
                        &&& forall|y: int| 0 <= y < x ==> (#[trigger] tv[y]).name != tv[x].name
                    },
            decreases defs@.len() - a,
        {
            if self.find_template_index(defs[a].name.as_str()).is_some() {
                proof {
                    assert(find_template_model(e0.templates, tv[a as int].name) is Some);
                }
                return Err(());
            }
            if !distinct_names_exec(&defs[a].slots) {
                proof {
                    assert(!distinct_seqs(tv[a as int].slots));
                }
                return Err(());
            }
            let mut b: usize = 0;
            while b < a
                invariant
                    e0 == self@,
                    self@ == old(self)@,
                    parse::parse_templates(source@) == Some(tv),
                    tv == parse::template_views(defs@),
                    tv.len() == defs@.len(),
                    0 <= b <= a < defs@.len(),
                    forall|y: int| 0 <= y < b ==> (#[trigger] tv[y]).name != tv[a as int].name,
                decreases a - b,
            {
                if value::str_eq(defs[b].name.as_str(), defs[a].name.as_str()) {
                    proof {
                        assert(tv[b as int].name == tv[a as int].name);
                        assert(!additions_ok(e0.templates, tv));
                    }
                    return Err(());
                }
                b += 1;
            }
            a += 1;
        }
        proof {
            assert(additions_ok(e0.templates, tv));
        }
        // apply the batch; every definition is now known to succeed
        let mut k: usize = 0;
        while k < defs.len()
            invariant
                parse::parse_templates(source@) == Some(tv),
                tv == parse::template_views(defs@),
                tv.len() == defs@.len(),
                additions_ok(e0.templates, tv),
                e0 == old(self)@,
                0 <= k <= defs@.len(),
                self@.templates == e0.templates + tv.take(k as int),
                self@.facts == e0.facts,
                self@.next_index == e0.next_index,
                e0.wf() ==> self@.wf(),
            decreases defs@.len() - k,
        {
            let name = defs[k].name.clone();
            let slots = fact::clone_names(&defs[k].slots);
            let ghost t = tv[k as int];
            proof {
                assert(name@ == t.name);
                assert(slots@.map_values(|s: String| s@) == t.slots);
                assert(find_template_model(e0.templates, t.name) is None);
                assert(forall|y: int| 0 <= y < k ==> (#[trigger] tv[y]).name != t.name);
                assert(forall|y: int|
                    0 <= y < k ==> (#[trigger] tv.take(k as int)[y]).name != t.name);
                lemma_find_template_none(tv.take(k as int), t.name);
                lemma_find_template_append(e0.templates, tv.take(k as int), t.name);
                assert(find_template_model(self@.templates, t.name) is None);
            }
            match self.define_template(name, slots) {
                Ok(()) => {
                    proof {
                        assert(self@.templates =~= e0.templates + tv.take(k + 1));
                    }
                },
                Err(()) => {
                    proof {
                        assert(false);
                    }
                },
            }
            k += 1;
        }
        proof {
            assert(tv.take(defs@.len() as int) =~= tv);
            assert(self@ =~= (EnvModel { templates: e0.templates + tv, ..e0 }));
        }
        Ok(())
    }
}

/// Whether the names are pairwise distinct.
fn distinct_names_exec(names: &Vec<String>) -> (r: bool)
    ensures
        r == distinct_seqs(names@.map_values(|s: String| s@)),
{
    let ghost views = names@.map_values(|s: String| s@);
    let mut i: usize = 0;
    while i < names.len()
        invariant
            views == names@.map_values(|s: String| s@),
            views.len() == names@.len(),
            0 <= i <= names.len(),
            forall|a: int, b: int| 0 <= a < b < views.len() && a < i ==> views[a] != views[b],
        decreases names.len() - i,
    {
        let mut j: usize = i + 1;
        while j < names.len()
            invariant
                views == names@.map_values(|s: String| s@),
                views.len() == names@.len(),
                0 <= i < j <= names.len(),
                forall|b: int| i < b < j ==> views[i as int] != views[b],
            decreases names.len() - j,
        {
            if value::str_eq(names[i].as_str(), names[j].as_str()) {
                proof {
                    assert(views[i as int] == views[j as int]);
                }
                return false;
            }
            j += 1;
        }
        i += 1;
    }
    true
}

/// Defining a fresh, well-formed template keeps a well-formed environment
/// well formed: existing facts still find their templates unchanged.
proof fn lemma_define_preserves_wf(e: EnvModel, t: TemplateModel)
    requires
        e.wf(),
        find_template_model(e.templates, t.name) is None,
        distinct_seqs(t.slots),
    ensures
        (EnvModel { templates: e.templates.push(t), ..e }).wf(),
{
    let ts1 = e.templates.push(t);
    lemma_find_template_none(e.templates, t.name);
    assert(forall|i: int|
        0 <= i < ts1.len() ==> ts1[i] == (if i < e.templates.len() {
            e.templates[i]
        } else {
            t
        }));
    let names0 = e.templates.map_values(|x: TemplateModel| x.name);
    let names1 = ts1.map_values(|x: TemplateModel| x.name);
    assert forall|i: int, j: int| 0 <= i < j < names1.len() implies #[trigger] names1[i]
        != #[trigger] names1[j] by {
        assert(names1[i] == ts1[i].name);
        assert(names1[j] == ts1[j].name);
        if j == ts1.len() - 1 {
            assert(ts1[i] == e.templates[i]);
            assert(ts1[j] == t);
            assert(e.templates[i].name != t.name);
        } else {
            assert(ts1[i] == e.templates[i]);
            assert(ts1[j] == e.templates[j]);
            assert(names0[i] == e.templates[i].name);
            assert(names0[j] == e.templates[j].name);
            assert(names0[i] != names0[j]);
        }
    }
    assert forall|i: int| 0 <= i < e.facts.len() implies (#[trigger] e.facts[i]).wf(ts1) by {
        lemma_find_template_push(e.templates, t, e.facts[i].template);
    }
}

} // verus!
