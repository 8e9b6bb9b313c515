use clips::{EnvAllocatable, Environment, FloatBits, Symbol, Type, ValueAccess};

#[test]
pub fn integer() {
    let env = Environment::new().unwrap();
    assert_eq!(0u8.allocate(&env).type_of(), Type::Integer);
    assert_eq!(0i8.allocate(&env).type_of(), Type::Integer);
    assert_eq!(0u16.allocate(&env).type_of(), Type::Integer);
    assert_eq!(0i16.allocate(&env).type_of(), Type::Integer);
    assert_eq!(0u32.allocate(&env).type_of(), Type::Integer);
    assert_eq!(0i32.allocate(&env).type_of(), Type::Integer);
    assert_eq!(0u64.allocate(&env).type_of(), Type::Integer);
    assert_eq!(0i64.allocate(&env).type_of(), Type::Integer);
}

#[test]
pub fn integer_value_access() {
    let env = Environment::new().unwrap();
    let val = 1u8.allocate(&env);
    let access = i64::value(&val).unwrap();
    assert_eq!(access, 1);
}

#[test]
pub fn float() {
    let env = Environment::new().unwrap();
    assert_eq!(FloatBits::new((0f32 as f64).to_bits()).allocate(&env).type_of(), Type::Float);
    assert_eq!(FloatBits::new(0f64.to_bits()).allocate(&env).type_of(), Type::Float);
}

#[test]
pub fn float_value_access() {
    let env = Environment::new().unwrap();
    let val = FloatBits::new((1f32 as f64).to_bits()).allocate(&env);
    let access = FloatBits::value(&val).unwrap();
    assert_eq!(f64::from_bits(access.bits), 1f64);
}

#[test]
pub fn string() {
    let env = Environment::new().unwrap();
    assert_eq!("test".allocate(&env).type_of(), Type::String);
}

#[test]
pub fn string_value_access() {
    let env = Environment::new().unwrap();
    let val = "test".allocate(&env);
    let access: String = ValueAccess::value(&val).unwrap();
    assert_eq!(access, "test");
}

#[test]
pub fn symbol() {
    let env = Environment::new().unwrap();
    assert_eq!(Symbol(String::from("test")).allocate(&env).type_of(), Type::Symbol);
}

#[test]
pub fn symbol_value_access() {
    let env = Environment::new().unwrap();
    let val = Symbol(String::from("test")).allocate(&env);
    let access = Symbol::value(&val).unwrap();
    assert_eq!(access, Symbol(String::from("test")));
}

#[test]
pub fn boolean() {
    let env = Environment::new().unwrap();
    assert_eq!(true.allocate(&env).type_of(), Type::Symbol);
    assert_eq!(false.allocate(&env).type_of(), Type::Symbol);
}

#[test]
pub fn bool_value_access() {
    let env = Environment::new().unwrap();
    let val = true.allocate(&env);
    let access = bool::value(&val).unwrap();
    assert!(access);
    // invalid symbols lead to None
    let val = Symbol(String::from("something")).allocate(&env);
    let access = bool::value(&val);
    assert!(access.is_none());
}

#[test]
fn roundtrip_all_scalar_types() {
    let env = Environment::new().unwrap();
    assert_eq!(i8::value(&(-5i8).allocate(&env)), Some(-5i8));
    assert_eq!(i16::value(&(-500i16).allocate(&env)), Some(-500i16));
    assert_eq!(i32::value(&(-70000i32).allocate(&env)), Some(-70000i32));
    assert_eq!(i64::value(&i64::MIN.allocate(&env)), Some(i64::MIN));
    assert_eq!(u8::value(&250u8.allocate(&env)), Some(250u8));
    assert_eq!(u16::value(&65000u16.allocate(&env)), Some(65000u16));
    assert_eq!(u32::value(&4000000000u32.allocate(&env)), Some(4000000000u32));
    assert_eq!(u64::value(&7u64.allocate(&env)), Some(7u64));
    assert_eq!(
        String::value(&String::from("hello").allocate(&env)),
        Some(String::from("hello"))
    );
    assert_eq!(
        Symbol::value(&Symbol(String::from("sym")).allocate(&env)),
        Some(Symbol(String::from("sym")))
    );
    assert_eq!(bool::value(&false.allocate(&env)), Some(false));
    let f = FloatBits::new(2.5f64.to_bits());
    assert_eq!(FloatBits::value(&f.allocate(&env)), Some(f));
}

#[test]
fn roundtrip_u64_wraparound() {
    // the engine integer is a signed 64-bit value; a large u64 wraps through
    // it and wraps back unchanged
    let env = Environment::new().unwrap();
    let val = u64::MAX.allocate(&env);
    assert_eq!(val.type_of(), Type::Integer);
    assert_eq!(u64::value(&val), Some(u64::MAX));
    assert_eq!(i64::value(&val), Some(-1i64));
}

#[test]
fn tag_discrimination_across_families() {
    let env = Environment::new().unwrap();
    let int_val = 1i64.allocate(&env);
    let str_val = "1".allocate(&env);
    let sym_val = Symbol(String::from("1")).allocate(&env);
    let float_val = FloatBits::new(1f64.to_bits()).allocate(&env);

    assert_eq!(String::value(&int_val), None);
    assert_eq!(Symbol::value(&int_val), None);
    assert_eq!(FloatBits::value(&int_val), None);
    assert_eq!(bool::value(&int_val), None);

    assert_eq!(i64::value(&str_val), None);
    assert_eq!(Symbol::value(&str_val), None);
    assert_eq!(FloatBits::value(&str_val), None);
    assert_eq!(bool::value(&str_val), None);

    assert_eq!(i64::value(&sym_val), None);
    assert_eq!(String::value(&sym_val), None);
    assert_eq!(FloatBits::value(&sym_val), None);

    assert_eq!(i64::value(&float_val), None);
    assert_eq!(String::value(&float_val), None);
    assert_eq!(Symbol::value(&float_val), None);
    assert_eq!(bool::value(&float_val), None);
}

#[test]
fn boolean_lexemes_are_canonical() {
    let env = Environment::new().unwrap();
    // a boolean travels as a symbol with a canonical lexeme, so it also reads
    // back as that symbol; only the two canonical lexemes read back as bool
    let val = true.allocate(&env);
    assert_eq!(Symbol::value(&val), Some(Symbol(String::from("TRUE"))));
    let val = false.allocate(&env);
    assert_eq!(Symbol::value(&val), Some(Symbol(String::from("FALSE"))));
    let val = Symbol(String::from("TRUE")).allocate(&env);
    assert_eq!(bool::value(&val), Some(true));
}
