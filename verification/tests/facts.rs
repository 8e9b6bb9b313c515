use clips::fact::{Iter, RetractError, SlotError};
use clips::{Environment, Fact, Symbol, Type, ValueAccess};

#[test]
fn assert_fact() {
    let mut env = Environment::new().unwrap();
    env.load_string(
        r#"
        (deftemplate f1 (slot a) (slot b))
        "#,
    ).unwrap();
    assert_eq!(env.number_of_facts(), 0);
    let mut fb = env.new_fact_builder("f1");
    fb.put(&env, "a", 1).unwrap();
    fb.put(&env, "b", "a").unwrap();
    fb.assert_fact(&mut env).unwrap();
    assert_eq!(env.number_of_facts(), 1);
}

#[test]
fn fact_slot() {
    let mut env = Environment::new().unwrap();
    env.load_string(
        r#"
        (deftemplate f1 (slot a) (slot b))
        "#,
    ).unwrap();
    assert_eq!(env.number_of_facts(), 0);
    let mut fb = env.new_fact_builder("f1");
    fb.put(&env, "a", 1).unwrap();
    fb.put(&env, "b", "a").unwrap();
    let fact = fb.assert_fact(&mut env).unwrap();
    assert_eq!(env.number_of_facts(), 1);
    let mut fb = env.new_fact_builder("f1");
    fb.put(&env, "a", 1).unwrap();
    fb.put(&env, "b", fact).unwrap();
    fb.assert_fact(&mut env).unwrap();
    assert_eq!(env.number_of_facts(), 2);
}

#[test]
fn retract() {
    let mut env = Environment::new().unwrap();
    env.load_string(
        r#"
        (deftemplate f1 (slot a) (slot b))
        "#,
    ).unwrap();
    assert_eq!(env.number_of_facts(), 0);
    let mut fb = env.new_fact_builder("f1");
    fb.put(&env, "a", 1).unwrap();
    fb.put(&env, "b", "a").unwrap();
    let fact = fb.assert_fact(&mut env).unwrap();
    assert_eq!(env.number_of_facts(), 1);
    fact.retract(&mut env).unwrap();
    assert_eq!(env.number_of_facts(), 0);
}

#[test]
fn access_fact_slot_value() {
    let mut env = Environment::new().unwrap();
    env.load_string(
        r#"
        (deftemplate f1 (slot a) (slot b))
        "#,
    ).unwrap();
    assert_eq!(env.number_of_facts(), 0);
    let mut fb = env.new_fact_builder("f1");
    fb.put(&env, "a", 1).unwrap();
    fb.put(&env, "b", "a").unwrap();
    let fact = fb.assert_fact(&mut env).unwrap();
    let val = fact.slot("a");
    assert_eq!(val.type_of(), Type::Integer);
    assert_eq!((ValueAccess::value(&val) as Option<i64>).unwrap(), 1);
    let val = fact.slot("b");
    assert_eq!(val.type_of(), Type::String);
    assert_eq!((ValueAccess::value(&val) as Option<String>).unwrap(), "a");
}

fn collect_iter(mut iter: Iter) -> Vec<Fact> {
    let mut facts: Vec<Fact> = Vec::new();
    while let Some(fact) = iter.next() {
        facts.push(fact);
    }
    facts
}

#[test]
fn fact_iterator() {
    let mut env = Environment::new().unwrap();
    env.load_string(
        r#"
        (deftemplate f1 (slot a) (slot b))
        "#,
    ).unwrap();
    let mut fb = env.new_fact_builder("f1");
    fb.put(&env, "a", 1).unwrap();
    fb.put(&env, "b", "a").unwrap();
    fb.assert_fact(&mut env).unwrap();
    let mut facts: Vec<Fact> = collect_iter(env.fact_iter());
    assert_eq!(facts.len(), 1);
    let fact = facts.pop().unwrap();
    let val = fact.slot("a");
    assert_eq!(val.type_of(), Type::Integer);
    assert_eq!((ValueAccess::value(&val) as Option<i64>).unwrap(), 1);
    let val = fact.slot("b");
    assert_eq!(val.type_of(), Type::String);
    assert_eq!((ValueAccess::value(&val) as Option<String>).unwrap(), "a");
}

#[test]
fn template_fact_iterator() {
    let mut env = Environment::new().unwrap();
    env.load_string(
        r#"
        (deftemplate f1 (slot a) (slot b))
        (deftemplate f2 (slot a) (slot b))
        "#,
    ).unwrap();
    let mut fb = env.new_fact_builder("f1");
    fb.put(&env, "a", 1).unwrap();
    fb.put(&env, "b", "a").unwrap();
    fb.assert_fact(&mut env).unwrap();
    let mut fb = env.new_fact_builder("f2");
    fb.put(&env, "a", 1).unwrap();
    fb.put(&env, "b", "a").unwrap();
    fb.assert_fact(&mut env).unwrap();
    let template = env.find_template("f1").unwrap();
    let mut iter = template.fact_iter(&env);
    let mut facts: Vec<Fact> = Vec::new();
    while let Some(fact) = iter.next() {
        facts.push(fact);
    }
    assert_eq!(facts.len(), 1);
    let fact = facts.pop().unwrap();
    let val = fact.slot("a");
    assert_eq!(val.type_of(), Type::Integer);
    assert_eq!((ValueAccess::value(&val) as Option<i64>).unwrap(), 1);
    let val = fact.slot("b");
    assert_eq!(val.type_of(), Type::String);
    assert_eq!((ValueAccess::value(&val) as Option<String>).unwrap(), "a");
}

#[test]
fn template_consuming_fact_iterator() {
    let mut env = Environment::new().unwrap();
    env.load_string(
        r#"
        (deftemplate f1 (slot a) (slot b))
        (deftemplate f2 (slot a) (slot b))
        "#,
    ).unwrap();
    let mut fb = env.new_fact_builder("f1");
    fb.put(&env, "a", 1).unwrap();
    fb.put(&env, "b", "a").unwrap();
    fb.assert_fact(&mut env).unwrap();
    let mut fb = env.new_fact_builder("f2");
    fb.put(&env, "a", 1).unwrap();
    fb.put(&env, "b", "a").unwrap();
    fb.assert_fact(&mut env).unwrap();
    let template = env.find_template("f1").unwrap();
    let mut iter = template.into_fact_iter(&env);
    let mut facts: Vec<Fact> = Vec::new();
    while let Some(fact) = iter.next() {
        facts.push(fact);
    }
    assert_eq!(facts.len(), 1);
}

#[test]
fn find_template() {
    let mut env = Environment::new().unwrap();
    env.load_string(
        r#"
        (deftemplate tpl1)
        "#,
    ).unwrap();
    assert!(env.find_template("tpl1").is_some());
    assert!(env.find_template("tpl2").is_none());
}

#[test]
fn put_unknown_slot_is_rejected() {
    let mut env = Environment::new().unwrap();
    env.load_string("(deftemplate f1 (slot a))").unwrap();
    let mut fb = env.new_fact_builder("f1");
    assert_eq!(fb.put(&env, "nope", 1), Err(SlotError::NoSuchSlot));
    // the failed write stages nothing; the builder is still usable
    fb.put(&env, "a", 1).unwrap();
    fb.assert_fact(&mut env).unwrap();
    assert_eq!(env.number_of_facts(), 1);
}

#[test]
fn put_unknown_template_is_rejected() {
    let mut env = Environment::new().unwrap();
    let mut fb = env.new_fact_builder("missing");
    assert_eq!(fb.put(&env, "a", 1), Err(SlotError::InvalidTarget));
    assert_eq!(fb.assert_fact(&mut env), Err(()));
    assert_eq!(env.number_of_facts(), 0);
}

#[test]
fn abort_creates_no_fact() {
    let mut env = Environment::new().unwrap();
    env.load_string("(deftemplate f1 (slot a))").unwrap();
    let mut fb = env.new_fact_builder("f1");
    fb.put(&env, "a", 1).unwrap();
    fb.abort();
    assert_eq!(env.number_of_facts(), 0);
}

#[test]
fn retract_twice_is_rejected() {
    let mut env = Environment::new().unwrap();
    env.load_string("(deftemplate f1 (slot a))").unwrap();
    let mut fb = env.new_fact_builder("f1");
    fb.put(&env, "a", 1).unwrap();
    fb.assert_fact(&mut env).unwrap();
    // two handles to the same live fact, via two fresh iterators
    let first = collect_iter(env.fact_iter()).pop().unwrap();
    let second = collect_iter(env.fact_iter()).pop().unwrap();
    assert_eq!(first.retract(&mut env), Ok(()));
    assert_eq!(env.number_of_facts(), 0);
    assert_eq!(second.retract(&mut env), Err(RetractError::NoSuchFact));
    assert_eq!(env.number_of_facts(), 0);
}

#[test]
fn indices_are_fresh() {
    let mut env = Environment::new().unwrap();
    env.load_string("(deftemplate f1 (slot a))").unwrap();
    let fb = env.new_fact_builder("f1");
    let f1 = fb.assert_fact(&mut env).unwrap();
    let fb = env.new_fact_builder("f1");
    let f2 = fb.assert_fact(&mut env).unwrap();
    assert_eq!(f1.index(), 1);
    assert_eq!(f2.index(), 2);
    f2.retract(&mut env).unwrap();
    let fb = env.new_fact_builder("f1");
    let f3 = fb.assert_fact(&mut env).unwrap();
    // never equal to the index of a currently live fact
    assert_ne!(f3.index(), f1.index());
}

#[test]
fn unwritten_slot_defaults_to_nil() {
    let mut env = Environment::new().unwrap();
    env.load_string("(deftemplate f1 (slot a))").unwrap();
    let fb = env.new_fact_builder("f1");
    let fact = fb.assert_fact(&mut env).unwrap();
    let val = fact.slot("a");
    assert_eq!(val.type_of(), Type::Symbol);
    assert_eq!(Symbol::value(&val), Some(Symbol(String::from("nil"))));
}

#[test]
fn last_write_per_slot_wins() {
    let mut env = Environment::new().unwrap();
    env.load_string("(deftemplate f1 (slot a))").unwrap();
    let mut fb = env.new_fact_builder("f1");
    fb.put(&env, "a", 1).unwrap();
    fb.put(&env, "a", 2).unwrap();
    let fact = fb.assert_fact(&mut env).unwrap();
    assert_eq!(i64::value(&fact.slot("a")), Some(2));
}

#[test]
fn iteration_counts_partition_the_store() {
    let mut env = Environment::new().unwrap();
    env.load_string(
        r#"
        (deftemplate f1 (slot a))
        (deftemplate f2 (slot a))
        "#,
    ).unwrap();
    let mut indices: Vec<u64> = Vec::new();
    for k in 0..2 {
        let mut fb = env.new_fact_builder("f1");
        fb.put(&env, "a", k as i64).unwrap();
        indices.push(fb.assert_fact(&mut env).unwrap().index());
    }
    let fb = env.new_fact_builder("f2");
    fb.assert_fact(&mut env).unwrap();

    let scoped = {
        let template = env.find_template("f1").unwrap();
        let mut iter = template.fact_iter(&env);
        let mut facts: Vec<Fact> = Vec::new();
        while let Some(fact) = iter.next() {
            facts.push(fact);
        }
        facts
    };
    assert_eq!(scoped.len(), 2);
    // assertion order is kept
    assert_eq!(scoped[0].index(), indices[0]);
    assert_eq!(scoped[1].index(), indices[1]);

    let all = collect_iter(env.fact_iter());
    assert_eq!(all.len(), 3);
    assert!(all[0].index() < all[1].index() && all[1].index() < all[2].index());
}

#[test]
fn iterator_stays_finished() {
    let mut env = Environment::new().unwrap();
    env.load_string("(deftemplate f1 (slot a))").unwrap();
    let fb = env.new_fact_builder("f1");
    fb.assert_fact(&mut env).unwrap();
    let mut iter = env.fact_iter();
    assert!(iter.next().is_some());
    assert!(iter.next().is_none());
    assert!(iter.next().is_none());
}

#[test]
fn typed_scenario_two_slots() {
    // schema f1 with slots a (integer) and b (text): assert {a:1, b:"a"},
    // read both back, retract, and watch the live count
    let mut env = Environment::new().unwrap();
    env.load_string("(deftemplate f1 (slot a) (slot b))").unwrap();
    let mut fb = env.new_fact_builder("f1");
    fb.put(&env, "a", 1).unwrap();
    fb.put(&env, "b", "a").unwrap();
    let fact = fb.assert_fact(&mut env).unwrap();
    assert_eq!(env.number_of_facts(), 1);
    let val = fact.slot("a");
    assert_eq!(val.type_of(), Type::Integer);
    assert_eq!(i64::value(&val), Some(1));
    let val = fact.slot("b");
    assert_eq!(val.type_of(), Type::String);
    assert_eq!(String::value(&val), Some(String::from("a")));
    fact.retract(&mut env).unwrap();
    assert_eq!(env.number_of_facts(), 0);
}

#[test]
fn fact_reference_slot_discriminates() {
    // a fact written into a slot of a second fact reads back as a
    // fact-address, not as text
    let mut env = Environment::new().unwrap();
    env.load_string("(deftemplate f1 (slot a) (slot b))").unwrap();
    let mut fb = env.new_fact_builder("f1");
    fb.put(&env, "a", 1).unwrap();
    fb.put(&env, "b", "a").unwrap();
    let first = fb.assert_fact(&mut env).unwrap();
    let first_index = first.index();
    let mut fb = env.new_fact_builder("f1");
    fb.put(&env, "a", 2).unwrap();
    fb.put(&env, "b", first).unwrap();
    let second = fb.assert_fact(&mut env).unwrap();
    let val = second.slot("b");
    assert_eq!(val.type_of(), Type::FactAddress);
    assert_ne!(val.type_of(), Type::String);
    assert_eq!(String::value(&val), None);
    // the first fact still reads back as asserted
    let all = collect_iter(env.fact_iter());
    assert_eq!(all[0].index(), first_index);
}

#[test]
fn load_string_rejects_malformed_source() {
    let mut env = Environment::new().unwrap();
    assert_eq!(env.load_string("(deftemplate f1 (slot a)"), Err(()));
    assert_eq!(env.load_string("(defrule r1 (f1) => )"), Err(()));
    assert!(env.find_template("f1").is_none());
}

#[test]
fn load_string_is_atomic() {
    let mut env = Environment::new().unwrap();
    // the second form is malformed, so the first must not be defined either
    assert_eq!(env.load_string("(deftemplate ok (slot a)) (deftemplate bad (slot"), Err(()));
    assert!(env.find_template("ok").is_none());
}

#[test]
fn load_string_rejects_duplicate_template() {
    let mut env = Environment::new().unwrap();
    env.load_string("(deftemplate t1 (slot a))").unwrap();
    assert_eq!(env.load_string("(deftemplate t1 (slot a))"), Err(()));
    assert!(env.find_template("t1").is_some());
}

#[test]
fn load_string_accepts_empty_source() {
    let mut env = Environment::new().unwrap();
    assert_eq!(env.load_string(""), Ok(()));
    assert_eq!(env.load_string("   \n\t  "), Ok(()));
    assert_eq!(env.number_of_facts(), 0);
}

#[test]
fn empty_environment_iterates_nothing() {
    let env = Environment::new().unwrap();
    let mut iter = env.fact_iter();
    assert!(iter.next().is_none());
}

#[test]
fn asserting_n_facts_raises_count_by_n() {
    let mut env = Environment::new().unwrap();
    env.load_string("(deftemplate f1 (slot a))").unwrap();
    for k in 0..3 {
        assert_eq!(env.number_of_facts(), k);
        let mut fb = env.new_fact_builder("f1");
        fb.put(&env, "a", k as i64).unwrap();
        fb.assert_fact(&mut env).unwrap();
        assert_eq!(env.number_of_facts(), k + 1);
    }
}

#[test]
fn load_string_rejects_duplicate_slot() {
    let mut env = Environment::new().unwrap();
    assert_eq!(env.load_string("(deftemplate t1 (slot a) (slot a))"), Err(()));
    assert!(env.find_template("t1").is_none());
}
