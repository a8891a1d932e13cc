use actix_lua::codec::split_sentinel;
use actix_lua::message::{table_get, LuaMessage};
use actix_lua::native::{DecodeError, EncodeError, NativeValue};

fn scalar_cases() -> Vec<LuaMessage> {
    vec![
        LuaMessage::String("plain text".to_string()),
        LuaMessage::Integer(-7),
        LuaMessage::Number((42.5f64).to_bits()),
        LuaMessage::Boolean(false),
        LuaMessage::Nil,
    ]
}

#[test]
fn round_trip_scalars() {
    let originals = scalar_cases();
    let expected = scalar_cases();
    for (v, e) in originals.iter().zip(expected) {
        let encoded = v.to_lua().expect("scalar must encode");
        let back = LuaMessage::from_lua(&encoded).expect("scalar must decode");
        assert_eq!(back, e);
    }
}

fn nested_table() -> LuaMessage {
    let inner = vec![
        ("deep".to_string(), LuaMessage::Integer(3)),
        ("text".to_string(), LuaMessage::String("abc".to_string())),
    ];
    let outer = vec![
        ("child".to_string(), LuaMessage::Table(inner)),
        ("flag".to_string(), LuaMessage::Boolean(true)),
        ("pi_bits".to_string(), LuaMessage::Number((3.25f64).to_bits())),
    ];
    LuaMessage::Table(outer)
}

#[test]
fn round_trip_nested_table() {
    let original = nested_table();
    let encoded = original.to_lua().expect("table must encode");
    let back = LuaMessage::from_lua(&encoded).expect("table must decode");
    assert_eq!(back, nested_table());
}

#[test]
fn round_trip_empty_table() {
    let original = LuaMessage::Table(Vec::new());
    let encoded = original.to_lua().expect("empty table must encode");
    let back = LuaMessage::from_lua(&encoded).expect("empty table must decode");
    assert_eq!(back, LuaMessage::Table(Vec::new()));
}

#[test]
fn sentinel_detection() {
    let hit = LuaMessage::from_lua(&NativeValue::String("__suspended__abc123".to_string()));
    assert_eq!(
        hit.unwrap(),
        LuaMessage::ThreadYield("abc123".to_string())
    );

    let wrong_prefix = LuaMessage::from_lua(&NativeValue::String("__suspendedXabc".to_string()));
    assert_eq!(
        wrong_prefix.unwrap(),
        LuaMessage::String("__suspendedXabc".to_string())
    );

    let empty_suffix = LuaMessage::from_lua(&NativeValue::String("__suspended__".to_string()));
    assert_eq!(
        empty_suffix.unwrap(),
        LuaMessage::String("__suspended__".to_string())
    );
}

#[test]
fn sentinel_split_direct() {
    assert_eq!(split_sentinel("__suspended__t"), Some("t".to_string()));
    assert_eq!(split_sentinel("__suspended__"), None);
    assert_eq!(split_sentinel("plain"), None);
    assert_eq!(split_sentinel(""), None);
}

#[test]
fn encode_rejects_thread_yield() {
    let r = LuaMessage::ThreadYield("x".to_string()).to_lua();
    assert!(matches!(r, Err(EncodeError::UnsupportedEncode)));
}

#[test]
fn encode_rejects_nested_thread_yield() {
    let t = vec![("y".to_string(), LuaMessage::ThreadYield("x".to_string()))];
    let r = LuaMessage::Table(t).to_lua();
    assert!(matches!(r, Err(EncodeError::UnsupportedEncode)));
}

#[test]
fn decode_rejects_error() {
    match LuaMessage::from_lua(&NativeValue::Error("boom".to_string())) {
        Err(DecodeError::ScriptRuntimeError(msg)) => assert_eq!(msg, "boom"),
        other => panic!("expected a script runtime error, got {:?}", other),
    }
}

#[test]
fn decode_rejects_unsupported_kind() {
    let r = LuaMessage::from_lua(&NativeValue::Other);
    assert_eq!(r, Err(DecodeError::UnsupportedDecode));
}

#[test]
fn decode_rejects_error_nested_in_table() {
    let t = NativeValue::Table(vec![(
        "k".to_string(),
        NativeValue::Error("inner".to_string()),
    )]);
    match LuaMessage::from_lua(&t) {
        Err(DecodeError::ScriptRuntimeError(msg)) => assert_eq!(msg, "inner"),
        other => panic!("expected a script runtime error, got {:?}", other),
    }
}

#[test]
fn table_equality_is_structural() {
    let a = LuaMessage::Table(vec![
        ("one".to_string(), LuaMessage::Integer(1)),
        ("two".to_string(), LuaMessage::String("abc".to_string())),
    ]);
    let b = LuaMessage::Table(vec![
        ("two".to_string(), LuaMessage::String("abc".to_string())),
        ("one".to_string(), LuaMessage::Integer(1)),
    ]);
    assert_eq!(a, b);

    let c = LuaMessage::Table(vec![
        ("two".to_string(), LuaMessage::String("abc".to_string())),
        ("one".to_string(), LuaMessage::Integer(2)),
    ]);
    assert_ne!(a, c);
}

#[test]
fn table_lookup_last_binding_wins() {
    let entries = vec![
        ("k".to_string(), LuaMessage::Integer(1)),
        ("k".to_string(), LuaMessage::Integer(2)),
    ];
    match table_get(&entries, &"k".to_string()) {
        Some(v) => assert_eq!(*v, LuaMessage::Integer(2)),
        None => panic!("key must be found"),
    }
    assert!(table_get(&entries, &"missing".to_string()).is_none());
}

#[test]
fn constructor_widths() {
    assert_eq!(LuaMessage::from(5u8), LuaMessage::Integer(5));
    assert_eq!(LuaMessage::from(-5i8), LuaMessage::Integer(-5));
    assert_eq!(LuaMessage::from(500u16), LuaMessage::Integer(500));
    assert_eq!(LuaMessage::from(-500i16), LuaMessage::Integer(-500));
    assert_eq!(LuaMessage::from(70000u32), LuaMessage::Integer(70000));
    assert_eq!(LuaMessage::from(-70000i32), LuaMessage::Integer(-70000));
    assert_eq!(LuaMessage::from(i64::MIN), LuaMessage::Integer(i64::MIN));
    assert_eq!(
        LuaMessage::from(usize::MAX),
        LuaMessage::Integer(usize::MAX as i64)
    );
    assert_eq!(LuaMessage::from(-3isize), LuaMessage::Integer(-3));
    assert_eq!(
        LuaMessage::from(String::from("owned")),
        LuaMessage::String("owned".to_string())
    );
}

#[test]
fn clone_preserves_value() {
    let original = nested_table();
    let copy = original.clone();
    assert_eq!(copy, original);
}
