use vstd::prelude::*;

verus! {

/// Mathematical model of a native runtime value, mirroring [`NativeValue`].
pub enum SpecNative {
    Nil,
    Boolean(bool),
    Integer(int),
    Number(u64),
    String(Seq<char>),
    Table(Seq<(Seq<char>, SpecNative)>),
    Error(Seq<char>),
    Other,
}

/// The scripting runtime's own dynamic value space, as a closed tagged
/// union at the language boundary.
///
/// The embedding layer turns the runtime's values into this type and back;
/// the codec works on it alone, so both directions are exhaustive matches.
/// `Number` holds the IEEE-754 bit pattern of the native 64-bit float.
/// `Error` carries the message of an error value raised inside the runtime.
/// `Other` stands for every native kind outside the enumerated set (a
/// function, a thread, userdata): the decoder must fail on it explicitly
/// rather than coerce it silently.
#[derive(Debug)]
pub enum NativeValue {
    Nil,
    Boolean(bool),
    Integer(i64),
    Number(u64),
    String(String),
    Table(Vec<(String, NativeValue)>),
    Error(String),
    Other,
}

impl View for NativeValue {
    type V = SpecNative;

    open spec fn view(&self) -> SpecNative
        decreases self,
    {
        match self {
            NativeValue::Nil => SpecNative::Nil,
            NativeValue::Boolean(b) => SpecNative::Boolean(*b),
            NativeValue::Integer(i) => SpecNative::Integer(*i as int),
            NativeValue::Number(bits) => SpecNative::Number(*bits),
            NativeValue::String(s) => SpecNative::String(s@),
            NativeValue::Table(entries) => SpecNative::Table(native_entries_view(entries@)),
            NativeValue::Error(msg) => SpecNative::Error(msg@),
            NativeValue::Other => SpecNative::Other,
        }
    }
}

/// The model of a native table's entry list: each key and value replaced by
/// its view.
pub open spec fn native_entries_view(s: Seq<(String, NativeValue)>) -> Seq<
    (Seq<char>, SpecNative),
>
    decreases s,
{
    if s.len() == 0 {
        Seq::empty()
    } else {
        native_entries_view(s.drop_last()).push((s.last().0@, s.last().1@))
    }
}

/// `native_entries_view` is the pointwise view of the entry list.
pub proof fn lemma_native_entries_view(s: Seq<(String, NativeValue)>)
    ensures
        native_entries_view(s).len() == s.len(),
        forall|i: int| 0 <= i < s.len() ==> native_entries_view(s)[i] == (s[i].0@, s[i].1@),
    decreases s.len(),
{
    if s.len() > 0 {
        lemma_native_entries_view(s.drop_last());
        assert(native_entries_view(s) == native_entries_view(s.drop_last()).push(
            (s.last().0@, s.last().1@),
        ));
        assert forall|i: int| 0 <= i < s.len() implies native_entries_view(s)[i] == (
        s[i].0@,
        s[i].1@,
        ) by {
            if i < s.len() - 1 {
                assert(native_entries_view(s)[i] == native_entries_view(s.drop_last())[i]);
                assert(s.drop_last()[i] == s[i]);
            }
        }
    }
}

/// The keys of a native entry list are pairwise distinct.
pub open spec fn native_keys_unique(entries: Seq<(Seq<char>, SpecNative)>) -> bool {
    forall|i: int, j: int| 0 <= i < j < entries.len() ==> entries[i].0 != entries[j].0
}

/// Well-formedness of a native value: every table, at every nesting depth,
/// has pairwise distinct keys — as every table of the real scripting
/// runtime has.
pub open spec fn spec_native_wf(v: SpecNative) -> bool
    decreases v,
{
    match v {
        SpecNative::Table(entries) => {
            &&& native_keys_unique(entries)
            &&& forall|i: int| 0 <= i < entries.len() ==> spec_native_wf(#[trigger] entries[i].1)
        },
        _ => true,
    }
}

/// Why decoding a native value failed.
#[derive(Debug, PartialEq, Eq)]
pub enum DecodeError {
    /// The native value is of a kind outside the enumerated set.
    UnsupportedDecode,
    /// The native value is an error raised inside the scripting runtime;
    /// the payload is its message text.
    ScriptRuntimeError(String),
}

/// Mathematical model of a [`DecodeError`].
pub enum SpecDecodeError {
    UnsupportedDecode,
    ScriptRuntimeError(Seq<char>),
}

impl View for DecodeError {
    type V = SpecDecodeError;

    open spec fn view(&self) -> SpecDecodeError {
        match self {
            DecodeError::UnsupportedDecode => SpecDecodeError::UnsupportedDecode,
            DecodeError::ScriptRuntimeError(msg) => SpecDecodeError::ScriptRuntimeError(msg@),
        }
    }
}

/// Why encoding a value for the native runtime failed.
#[derive(Debug, PartialEq, Eq, Structural)]
pub enum EncodeError {
    /// `ThreadYield` is host-side mail only and is never placed back into
    /// the scripting runtime.
    UnsupportedEncode,
}

} // verus!
