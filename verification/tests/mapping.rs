use clips::mapping::{
    assert_record, fact_field, record_field, recover_record, FieldMapping, HostType, ReturnType,
    SchemaMapping,
};
use clips::{EnvAllocatable, Environment, Value, ValueAccess};

fn field(name: &str, host_type: HostType) -> FieldMapping {
    FieldMapping {
        field_name: String::from(name),
        host_type,
        rename: None,
        return_type: ReturnType::Default,
    }
}

fn fact_mapping() -> SchemaMapping {
    SchemaMapping {
        template: String::from("fact"),
        consume_on_assert: false,
        recoverable: true,
        fields: vec![
            field("test", HostType::Text),
            FieldMapping {
                field_name: String::from("test1"),
                host_type: HostType::Text,
                rename: None,
                return_type: ReturnType::Clone,
            },
            field("i0", HostType::I64),
        ],
    }
}

fn read_text(v: &Value) -> String {
    (ValueAccess::value(v) as Option<String>).unwrap()
}

#[test]
fn test_trait_getter() {
    let env = Environment::new().unwrap();
    let mapping = fact_mapping();
    let values: Vec<Value> = vec![
        "Hello".allocate(&env),
        "Hi".allocate(&env),
        0i64.allocate(&env),
    ];
    let got = record_field(&mapping, &values, "test").unwrap();
    assert_eq!(read_text(&got), "Hello");
}

#[test]
fn asserting() {
    let mut env = Environment::new().unwrap();

    let mapping = fact_mapping();
    let values: Vec<Value> = vec![
        "Hello".allocate(&env),
        "a".allocate(&env),
        0i64.allocate(&env),
    ];

    env.load_string("(deftemplate fact (slot test) (slot test1) (slot i0))").unwrap();

    let f = assert_record(&mapping, &values, &mut env).unwrap();
    assert_eq!(
        fact_field(&mapping, &f, "test"),
        record_field(&mapping, &values, "test").unwrap()
    );
    assert_eq!(
        fact_field(&mapping, &f, "test1"),
        record_field(&mapping, &values, "test1").unwrap()
    );
    assert_eq!(
        fact_field(&mapping, &f, "i0"),
        record_field(&mapping, &values, "i0").unwrap()
    );
}

#[test]
fn ref_slot() {
    let env = Environment::new().unwrap();
    let mapping = SchemaMapping {
        template: String::from("ref"),
        consume_on_assert: false,
        recoverable: true,
        fields: vec![field("test", HostType::TextRef)],
    };
    let values: Vec<Value> = vec!["test".allocate(&env)];
    let got = record_field(&mapping, &values, "test").unwrap();
    assert_eq!(read_text(&got), "test");
}

#[test]
fn non_consumable_assert() {
    let non_consumable = SchemaMapping {
        template: String::from("tpl"),
        consume_on_assert: false,
        recoverable: true,
        fields: vec![],
    };
    let mut env = Environment::new().unwrap();

    env.load_string("(deftemplate tpl)").unwrap();

    let values: Vec<Value> = vec![];
    assert_record(&non_consumable, &values, &mut env).unwrap();
    assert_record(&non_consumable, &values, &mut env).unwrap();
    assert!(!non_consumable.consumes_self());
}

#[test]
fn consumable_assert() {
    let consumable = SchemaMapping {
        template: String::from("tpl"),
        consume_on_assert: true,
        recoverable: true,
        fields: vec![],
    };
    let mut env = Environment::new().unwrap();

    env.load_string("(deftemplate tpl)").unwrap();

    let values: Vec<Value> = vec![];
    assert_record(&consumable, &values, &mut env).unwrap();
    assert!(consumable.consumes_self());
}

#[test]
fn recoverable() {
    let env_values = |env: &Environment| -> Vec<Value> {
        vec![String::from("hello").allocate(env), 1i8.allocate(env)]
    };

    let mut env = Environment::new().unwrap();
    env.load_string("(deftemplate tpl (slot value) (slot value1))").unwrap();

    let mapping = SchemaMapping {
        template: String::from("tpl"),
        consume_on_assert: false,
        recoverable: true,
        fields: vec![field("value", HostType::Text), field("value1", HostType::I8)],
    };
    let values = env_values(&env);
    let f = assert_record(&mapping, &values, &mut env).unwrap();
    let recovered = recover_record(&mapping, &f);
    assert_eq!(recovered, values);
    assert_eq!(i8::value(&recovered[1]), Some(1i8));
}

#[test]
fn renamed_slot_mapping() {
    let mut env = Environment::new().unwrap();
    env.load_string("(deftemplate person (slot full-name))").unwrap();
    let mapping = SchemaMapping {
        template: String::from("person"),
        consume_on_assert: false,
        recoverable: true,
        fields: vec![FieldMapping {
            field_name: String::from("name"),
            host_type: HostType::Text,
            rename: Some(String::from("full-name")),
            return_type: ReturnType::Default,
        }],
    };
    let values: Vec<Value> = vec!["Ada".allocate(&env)];
    let f = assert_record(&mapping, &values, &mut env).unwrap();
    let got = fact_field(&mapping, &f, "name");
    assert_eq!(read_text(&got), "Ada");
    let recovered = recover_record(&mapping, &f);
    assert_eq!(recovered, values);
}

#[test]
fn assert_record_fails_fast() {
    let mut env = Environment::new().unwrap();
    env.load_string("(deftemplate tpl (slot value))").unwrap();
    // a field that maps to no slot of the template
    let mapping = SchemaMapping {
        template: String::from("tpl"),
        consume_on_assert: false,
        recoverable: false,
        fields: vec![field("value", HostType::Text), field("other", HostType::I64)],
    };
    let values: Vec<Value> = vec!["x".allocate(&env), 1i64.allocate(&env)];
    assert_eq!(assert_record(&mapping, &values, &mut env), Err(()));
    assert_eq!(env.number_of_facts(), 0);
    // an undefined template
    let mapping = SchemaMapping {
        template: String::from("missing"),
        consume_on_assert: false,
        recoverable: false,
        fields: vec![],
    };
    let values: Vec<Value> = vec![];
    assert_eq!(assert_record(&mapping, &values, &mut env), Err(()));
    // one value too few
    let mapping = SchemaMapping {
        template: String::from("tpl"),
        consume_on_assert: false,
        recoverable: false,
        fields: vec![field("value", HostType::Text)],
    };
    let values: Vec<Value> = vec![];
    assert_eq!(assert_record(&mapping, &values, &mut env), Err(()));
    assert_eq!(env.number_of_facts(), 0);
}

#[test]
fn return_policy_resolution() {
    // scalars and references copy; owned values are borrowed; an explicit
    // policy stands
    assert_eq!(ReturnType::Default.choose_if_default(HostType::Bool), ReturnType::Copy);
    assert_eq!(ReturnType::Default.choose_if_default(HostType::I64), ReturnType::Copy);
    assert_eq!(ReturnType::Default.choose_if_default(HostType::U8), ReturnType::Copy);
    assert_eq!(ReturnType::Default.choose_if_default(HostType::F32), ReturnType::Copy);
    assert_eq!(ReturnType::Default.choose_if_default(HostType::F64), ReturnType::Copy);
    assert_eq!(ReturnType::Default.choose_if_default(HostType::TextRef), ReturnType::Copy);
    assert_eq!(ReturnType::Default.choose_if_default(HostType::Text), ReturnType::Ref);
    assert_eq!(ReturnType::Default.choose_if_default(HostType::Sym), ReturnType::Ref);
    assert_eq!(ReturnType::Clone.choose_if_default(HostType::Text), ReturnType::Clone);
    assert_eq!(ReturnType::Copy.choose_if_default(HostType::Text), ReturnType::Copy);
    assert_eq!(ReturnType::Ref.choose_if_default(HostType::I64), ReturnType::Ref);
    assert_eq!(ReturnType::default(), ReturnType::Default);
}

#[test]
fn field_resolution() {
    let plain = field("value", HostType::Text);
    assert_eq!(plain.slot_name().as_str(), "value");
    assert_eq!(plain.return_type(), ReturnType::Ref);
    let renamed = FieldMapping {
        field_name: String::from("value"),
        host_type: HostType::I32,
        rename: Some(String::from("v")),
        return_type: ReturnType::Default,
    };
    assert_eq!(renamed.slot_name().as_str(), "v");
    assert_eq!(renamed.return_type(), ReturnType::Copy);
    assert_eq!(record_field(&SchemaMapping {
        template: String::from("t"),
        consume_on_assert: false,
        recoverable: false,
        fields: vec![],
    }, &vec![], "anything"), None);
}
