use actix_lua::message::LuaMessage;
use actix_lua::native::NativeValue;

#[test]
fn constructors() {
    assert_eq!(LuaMessage::from(42), LuaMessage::Integer(42));
    assert_eq!(LuaMessage::from(0), LuaMessage::Integer(0));
    assert_eq!(
        LuaMessage::from("foo"),
        LuaMessage::String("foo".to_string())
    );
    assert_eq!(LuaMessage::from(true), LuaMessage::Boolean(true));

    let mut t = Vec::new();
    t.push(("bar".to_string(), LuaMessage::from("abc")));
    let mut t2 = Vec::new();
    t2.push(("bar".to_string(), LuaMessage::from("abc")));
    assert_eq!(LuaMessage::from(t), LuaMessage::Table(t2));
}

#[test]
fn to_lua() {
    assert!(matches!(
        LuaMessage::Integer(42).to_lua(),
        Ok(NativeValue::Integer(42))
    ));
    assert!(matches!(
        LuaMessage::String("foo".to_string()).to_lua(),
        Ok(NativeValue::String(s)) if s == "foo"
    ));
    assert!(matches!(
        LuaMessage::Number((42.5f64).to_bits()).to_lua(),
        Ok(NativeValue::Number(bits)) if f64::from_bits(bits) == 42.5
    ));
    assert!(matches!(
        LuaMessage::Boolean(true).to_lua(),
        Ok(NativeValue::Boolean(true))
    ));
    assert!(matches!(LuaMessage::Nil.to_lua(), Ok(NativeValue::Nil)));

    let mut t = Vec::new();
    t.push(("bar".to_string(), LuaMessage::from("abc")));
    assert!(matches!(
        LuaMessage::Table(t).to_lua(),
        Ok(NativeValue::Table(_))
    ));
}

#[test]
fn from_lua() {
    assert!(matches!(
        LuaMessage::from_lua(&NativeValue::Integer(42)),
        Ok(LuaMessage::Integer(42))
    ));
    assert!(matches!(
        LuaMessage::from_lua(&NativeValue::Number((42.5f64).to_bits())),
        Ok(LuaMessage::Number(bits)) if f64::from_bits(bits) == 42.5
    ));
    assert!(matches!(
        LuaMessage::from_lua(&NativeValue::String("foo".to_string())),
        Ok(LuaMessage::String(s)) if s == "foo"
    ));
    assert!(matches!(
        LuaMessage::from_lua(&NativeValue::Boolean(true)),
        Ok(LuaMessage::Boolean(true))
    ));
    assert!(matches!(
        LuaMessage::from_lua(&NativeValue::Nil),
        Ok(LuaMessage::Nil)
    ));

    let mut t = Vec::new();
    t.push(("bar".to_string(), NativeValue::String("abc".to_string())));
    assert!(matches!(
        LuaMessage::from_lua(&NativeValue::Table(t)),
        Ok(LuaMessage::Table(_))
    ));
}

#[should_panic]
#[test]
fn from_lua_error() {
    LuaMessage::from_lua(&NativeValue::Error("foo".to_string())).unwrap();
}
