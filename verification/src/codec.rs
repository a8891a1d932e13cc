use vstd::prelude::*;

use crate::message::{entries_view, lemma_entries_view, spec_wf, LuaMessage, SpecValue};
use crate::native::{
    lemma_native_entries_view, native_entries_view, spec_native_wf, DecodeError, EncodeError,
    NativeValue, SpecDecodeError, SpecNative,
};

verus! {

/// The fixed prefix of the suspension sentinel.
pub open spec fn sentinel_prefix() -> Seq<char> {
    "__suspended__"@
}

/// A native string is a suspension sentinel when it starts with the fixed
/// prefix and a nonempty suffix, the token, follows. A bare prefix with an
/// empty suffix is an ordinary string.
pub open spec fn is_sentinel(s: Seq<char>) -> bool {
    s.len() > sentinel_prefix().len() && s.subrange(0, sentinel_prefix().len() as int)
        == sentinel_prefix()
}

/// The token of a sentinel string: everything after the fixed prefix,
/// passed through verbatim.
pub open spec fn sentinel_token(s: Seq<char>) -> Seq<char> {
    s.subrange(sentinel_prefix().len() as int, s.len() as int)
}

/// Splits a suspension sentinel into its token, or reports that the string
/// is no sentinel. Every native string runs through this check,
/// unconditionally: a literal script string that happens to carry the
/// prefix and a nonempty suffix is reinterpreted as a control signal — a
/// known limitation of the convention, which has no escaping mechanism.
pub fn split_sentinel(s: &str) -> (r: Option<String>)
    ensures
        match r {
            Some(token) => is_sentinel(s@) && token@ == sentinel_token(s@),
            None => !is_sentinel(s@),
        },
{
    let prefix = "__suspended__";
    proof {
        reveal_strlit("__suspended__");
        assert(prefix@ == sentinel_prefix());
        assert(prefix@.len() == 13);
    }
    let n = s.unicode_len();
    if n <= 13 {
        return None;
    }
    let mut i: usize = 0;
    while i < 13
        invariant
            i <= 13,
            n == s@.len(),
            n > 13,
            prefix@ == sentinel_prefix(),
            prefix@.len() == 13,
            forall|k: int| 0 <= k < i ==> s@[k] == sentinel_prefix()[k],
        decreases 13 - i,
    {
        if s.get_char(i) != prefix.get_char(i) {
            proof {
                assert(s@.subrange(0, 13)[i as int] == s@[i as int]);
            }
            return None;
        }
        i = i + 1;
    }
    proof {
        assert(s@.subrange(0, 13) =~= sentinel_prefix());
    }
    let token = s.substring_char(13, n);
    Some(token.to_owned())
}

/// What decoding a native value yields: the rule of the codec, stated once
/// over the models.
///
/// A native string is sentinel-checked and becomes `ThreadYield` or
/// `String`; integers, floats, booleans and nil map to their own variants;
/// a table is decoded entry by entry through the same rule; an error value
/// fails with its message; every other native kind fails as unsupported.
pub open spec fn spec_decode(v: SpecNative) -> Result<SpecValue, SpecDecodeError>
    decreases v,
{
    match v {
        SpecNative::String(s) => if is_sentinel(s) {
            Ok(SpecValue::ThreadYield(sentinel_token(s)))
        } else {
            Ok(SpecValue::String(s))
        },
        SpecNative::Integer(n) => Ok(SpecValue::Integer(n)),
        SpecNative::Number(bits) => Ok(SpecValue::Number(bits)),
        SpecNative::Boolean(b) => Ok(SpecValue::Boolean(b)),
        SpecNative::Nil => Ok(SpecValue::Nil),
        SpecNative::Table(entries) => match spec_decode_entries(entries) {
            Ok(decoded) => Ok(SpecValue::Table(decoded)),
            Err(e) => Err(e),
        },
        SpecNative::Error(msg) => Err(SpecDecodeError::ScriptRuntimeError(msg)),
        SpecNative::Other => Err(SpecDecodeError::UnsupportedDecode),
    }
}

/// Decodes a native table's entries in order, keeping the keys; the first
/// failing value aborts the whole table with its error.
pub open spec fn spec_decode_entries(entries: Seq<(Seq<char>, SpecNative)>) -> Result<
    Seq<(Seq<char>, SpecValue)>,
    SpecDecodeError,
>
    decreases entries,
{
    if entries.len() == 0 {
        Ok(Seq::empty())
    } else {
        match spec_decode_entries(entries.drop_last()) {
            Err(e) => Err(e),
            Ok(rest) => match spec_decode(entries.last().1) {
                Err(e) => Err(e),
                Ok(m) => Ok(rest.push((entries.last().0, m))),
            },
        }
    }
}

/// What encoding a value yields: scalars and strings map to their native
/// kinds unchanged, a table is encoded entry by entry, and `ThreadYield`
/// always fails — it is never placed back into the scripting runtime.
pub open spec fn spec_encode(m: SpecValue) -> Result<SpecNative, EncodeError>
    decreases m,
{
    match m {
        SpecValue::String(s) => Ok(SpecNative::String(s)),
        SpecValue::Integer(n) => Ok(SpecNative::Integer(n)),
        SpecValue::Number(bits) => Ok(SpecNative::Number(bits)),
        SpecValue::Boolean(b) => Ok(SpecNative::Boolean(b)),
        SpecValue::Nil => Ok(SpecNative::Nil),
        SpecValue::Table(entries) => match spec_encode_entries(entries) {
            Ok(encoded) => Ok(SpecNative::Table(encoded)),
            Err(e) => Err(e),
        },
        SpecValue::ThreadYield(_) => Err(EncodeError::UnsupportedEncode),
    }
}

/// Encodes a table's entries in order, keeping the keys; the first failing
/// value aborts the whole table with its error.
pub open spec fn spec_encode_entries(entries: Seq<(Seq<char>, SpecValue)>) -> Result<
    Seq<(Seq<char>, SpecNative)>,
    EncodeError,
>
    decreases entries,
{
    if entries.len() == 0 {
        Ok(Seq::empty())
    } else {
        match spec_encode_entries(entries.drop_last()) {
            Err(e) => Err(e),
            Ok(rest) => match spec_encode(entries.last().1) {
                Err(e) => Err(e),
                Ok(v) => Ok(rest.push((entries.last().0, v))),
            },
        }
    }
}

/// No `ThreadYield` stands anywhere in the value, so encoding it is defined.
pub open spec fn spec_yield_free(m: SpecValue) -> bool
    decreases m,
{
    match m {
        SpecValue::ThreadYield(_) => false,
        SpecValue::Table(entries) => forall|i: int|
            0 <= i < entries.len() ==> spec_yield_free(#[trigger] entries[i].1),
        _ => true,
    }
}

/// No string anywhere in the value has the shape of the suspension
/// sentinel, so decoding will not reinterpret any of its text as a control
/// signal.
pub open spec fn spec_sentinel_free(m: SpecValue) -> bool
    decreases m,
{
    match m {
        SpecValue::String(s) => !is_sentinel(s),
        SpecValue::Table(entries) => forall|i: int|
            0 <= i < entries.len() ==> spec_sentinel_free(#[trigger] entries[i].1),
        _ => true,
    }
}

/// Decoding a native string detects the suspension sentinel, and nothing
/// else: a sentinel-shaped string yields `ThreadYield` with its token, any
/// other string passes through unchanged.
pub proof fn lemma_sentinel_detection(s: Seq<char>)
    ensures
        is_sentinel(s) ==> spec_decode(SpecNative::String(s)) == Ok::<
            SpecValue,
            SpecDecodeError,
        >(SpecValue::ThreadYield(sentinel_token(s))),
        !is_sentinel(s) ==> spec_decode(SpecNative::String(s)) == Ok::<
            SpecValue,
            SpecDecodeError,
        >(SpecValue::String(s)),
{
}

/// Encoding a `ThreadYield` always fails, explicitly, as unsupported.
pub proof fn lemma_encode_rejects_thread_yield(token: Seq<char>)
    ensures
        spec_encode(SpecValue::ThreadYield(token)) == Err::<SpecNative, EncodeError>(
            EncodeError::UnsupportedEncode,
        ),
{
}

/// Decoding a native error value always fails with a runtime error
/// carrying the original message, and never yields a value.
pub proof fn lemma_decode_rejects_error(msg: Seq<char>)
    ensures
        spec_decode(SpecNative::Error(msg)) == Err::<SpecValue, SpecDecodeError>(
            SpecDecodeError::ScriptRuntimeError(msg),
        ),
{
}

/// Round trip: a value without `ThreadYield` and without sentinel-shaped
/// strings encodes successfully, and decoding the encoded value gives the
/// original back exactly — variant, payload, every table key and every
/// nested value. A sentinel-shaped string payload is excluded because the
/// decoder reinterprets it as `ThreadYield` by design.
pub proof fn lemma_round_trip(m: SpecValue)
    requires
        spec_yield_free(m),
        spec_sentinel_free(m),
    ensures
        spec_encode(m) is Ok,
        spec_decode(spec_encode(m)->Ok_0) == Ok::<SpecValue, SpecDecodeError>(m),
    decreases m,
{
    match m {
        SpecValue::Table(entries) => {
            lemma_round_trip_entries(entries);
        },
        _ => {},
    }
}

/// Round trip of a table's entry list, key by key and value by value.
proof fn lemma_round_trip_entries(entries: Seq<(Seq<char>, SpecValue)>)
    requires
        forall|i: int| 0 <= i < entries.len() ==> spec_yield_free(#[trigger] entries[i].1),
        forall|i: int| 0 <= i < entries.len() ==> spec_sentinel_free(#[trigger] entries[i].1),
    ensures
        spec_encode_entries(entries) is Ok,
        spec_decode_entries(spec_encode_entries(entries)->Ok_0) == Ok::<
            Seq<(Seq<char>, SpecValue)>,
            SpecDecodeError,
        >(entries),
    decreases entries,
{
    if entries.len() > 0 {
        let rest = entries.drop_last();
        assert(forall|i: int| 0 <= i < rest.len() ==> rest[i] == entries[i]);
        lemma_round_trip_entries(rest);
        lemma_round_trip(entries.last().1);
        let rest_enc = spec_encode_entries(rest)->Ok_0;
        let enc = spec_encode_entries(entries)->Ok_0;
        assert(enc == rest_enc.push((entries.last().0, spec_encode(entries.last().1)->Ok_0)));
        assert(enc.drop_last() =~= rest_enc);
        assert(enc.last() == (entries.last().0, spec_encode(entries.last().1)->Ok_0));
        assert(spec_decode_entries(enc) is Ok);
        assert(spec_decode_entries(enc)->Ok_0 =~= entries);
        assert(spec_decode_entries(enc) == Ok::<Seq<(Seq<char>, SpecValue)>, SpecDecodeError>(
            entries,
        ));
    } else {
        let enc = spec_encode_entries(entries)->Ok_0;
        assert(enc.len() == 0);
        assert(spec_decode_entries(enc)->Ok_0 =~= entries);
        assert(spec_decode_entries(enc) == Ok::<Seq<(Seq<char>, SpecValue)>, SpecDecodeError>(
            entries,
        ));
    }
}

/// Decoding a well-formed native value yields a well-formed value: the
/// keys of every decoded table are the native table's keys, so pairwise
/// distinctness carries over at every depth.
pub proof fn lemma_decode_preserves_wf(v: SpecNative)
    requires
        spec_native_wf(v),
        spec_decode(v) is Ok,
    ensures
        spec_wf(spec_decode(v)->Ok_0),
    decreases v,
{
    match v {
        SpecNative::Table(entries) => {
            lemma_decode_entries_wf(entries);
        },
        _ => {},
    }
}

/// Decoded table entries keep their keys in place, and every decoded value
/// is well-formed.
proof fn lemma_decode_entries_wf(entries: Seq<(Seq<char>, SpecNative)>)
    requires
        forall|i: int| 0 <= i < entries.len() ==> spec_native_wf(#[trigger] entries[i].1),
        spec_decode_entries(entries) is Ok,
    ensures
        spec_decode_entries(entries)->Ok_0.len() == entries.len(),
        forall|i: int|
            0 <= i < entries.len() ==> (#[trigger] spec_decode_entries(entries)->Ok_0[i]).0
                == entries[i].0,
        forall|i: int|
            0 <= i < entries.len() ==> spec_wf(
                (#[trigger] spec_decode_entries(entries)->Ok_0[i]).1,
            ),
    decreases entries,
{
    if entries.len() > 0 {
        let rest = entries.drop_last();
        assert(forall|i: int| 0 <= i < rest.len() ==> rest[i] == entries[i]);
        lemma_decode_entries_wf(rest);
        lemma_decode_preserves_wf(entries.last().1);
        let d = spec_decode_entries(entries)->Ok_0;
        let rest_d = spec_decode_entries(rest)->Ok_0;
        assert(d == rest_d.push((entries.last().0, spec_decode(entries.last().1)->Ok_0)));
        assert forall|i: int| 0 <= i < entries.len() implies (#[trigger] d[i]).0 == entries[i].0
            && spec_wf(d[i].1) by {
            if i < entries.len() - 1 {
                assert(d[i] == rest_d[i]);
            }
        }
    }
}

/// Encoding a well-formed value yields a well-formed native value: the
/// keys of every encoded table are the table's own keys, so pairwise
/// distinctness carries over at every depth.
pub proof fn lemma_encode_preserves_wf(m: SpecValue)
    requires
        spec_wf(m),
        spec_encode(m) is Ok,
    ensures
        spec_native_wf(spec_encode(m)->Ok_0),
    decreases m,
{
    match m {
        SpecValue::Table(entries) => {
            lemma_encode_entries_wf(entries);
        },
        _ => {},
    }
}

/// Encoded table entries keep their keys in place, and every encoded value
/// is well-formed.
proof fn lemma_encode_entries_wf(entries: Seq<(Seq<char>, SpecValue)>)
    requires
        forall|i: int| 0 <= i < entries.len() ==> spec_wf(#[trigger] entries[i].1),
        spec_encode_entries(entries) is Ok,
    ensures
        spec_encode_entries(entries)->Ok_0.len() == entries.len(),
        forall|i: int|
            0 <= i < entries.len() ==> (#[trigger] spec_encode_entries(entries)->Ok_0[i]).0
                == entries[i].0,
        forall|i: int|
            0 <= i < entries.len() ==> spec_native_wf(
                (#[trigger] spec_encode_entries(entries)->Ok_0[i]).1,
            ),
    decreases entries,
{
    if entries.len() > 0 {
        let rest = entries.drop_last();
        assert(forall|i: int| 0 <= i < rest.len() ==> rest[i] == entries[i]);
        lemma_encode_entries_wf(rest);
        lemma_encode_preserves_wf(entries.last().1);
        let e = spec_encode_entries(entries)->Ok_0;
        let rest_e = spec_encode_entries(rest)->Ok_0;
        assert(e == rest_e.push((entries.last().0, spec_encode(entries.last().1)->Ok_0)));
        assert forall|i: int| 0 <= i < entries.len() implies (#[trigger] e[i]).0 == entries[i].0
            && spec_native_wf(e[i].1) by {
            if i < entries.len() - 1 {
                assert(e[i] == rest_e[i]);
            }
        }
    }
}

/// Unfolds `spec_encode_entries` one step at the right end of a prefix.
proof fn lemma_encode_entries_step(s: Seq<(Seq<char>, SpecValue)>, i: int)
    requires
        0 <= i < s.len(),
    ensures
        spec_encode_entries(s.subrange(0, i + 1)) == (match spec_encode_entries(
            s.subrange(0, i),
        ) {
            Err(e) => Err(e),
            Ok(rest) => match spec_encode(s[i].1) {
                Err(e) => Err(e),
                Ok(v) => Ok(rest.push((s[i].0, v))),
            },
        }),
{
    let sub1 = s.subrange(0, i + 1);
    assert(sub1.last() == s[i]);
    assert(sub1.drop_last() =~= s.subrange(0, i));
}

/// A failing prefix decides the whole entry list.
proof fn lemma_encode_entries_err(s: Seq<(Seq<char>, SpecValue)>, j: int)
    requires
        0 <= j <= s.len(),
        spec_encode_entries(s.subrange(0, j)) is Err,
    ensures
        spec_encode_entries(s) == spec_encode_entries(s.subrange(0, j)),
    decreases s.len() - j,
{
    if j == s.len() {
        assert(s.subrange(0, j) =~= s);
    } else {
        lemma_encode_entries_step(s, j);
        lemma_encode_entries_err(s, j + 1);
    }
}

/// Unfolds `spec_decode_entries` one step at the right end of a prefix.
proof fn lemma_decode_entries_step(s: Seq<(Seq<char>, SpecNative)>, i: int)
    requires
        0 <= i < s.len(),
    ensures
        spec_decode_entries(s.subrange(0, i + 1)) == (match spec_decode_entries(
            s.subrange(0, i),
        ) {
            Err(e) => Err(e),
            Ok(rest) => match spec_decode(s[i].1) {
                Err(e) => Err(e),
                Ok(m) => Ok(rest.push((s[i].0, m))),
            },
        }),
{
    let sub1 = s.subrange(0, i + 1);
    assert(sub1.last() == s[i]);
    assert(sub1.drop_last() =~= s.subrange(0, i));
}

/// A failing prefix decides the whole entry list.
proof fn lemma_decode_entries_err(s: Seq<(Seq<char>, SpecNative)>, j: int)
    requires
        0 <= j <= s.len(),
        spec_decode_entries(s.subrange(0, j)) is Err,
    ensures
        spec_decode_entries(s) == spec_decode_entries(s.subrange(0, j)),
    decreases s.len() - j,
{
    if j == s.len() {
        assert(s.subrange(0, j) =~= s);
    } else {
        lemma_decode_entries_step(s, j);
        lemma_decode_entries_err(s, j + 1);
    }
}

impl LuaMessage {
    /// Decodes one native runtime value into a `LuaMessage`, by the rule of
    /// [`spec_decode`]: the sentinel check on every native string, recursion
    /// through tables, an explicit error for a native error value and for
    /// every unenumerated native kind.
    pub fn from_lua(v: &NativeValue) -> (r: Result<LuaMessage, DecodeError>)
        ensures
            match r {
                Ok(m) => spec_decode(v@) == Ok::<SpecValue, SpecDecodeError>(m@),
                Err(e) => spec_decode(v@) == Err::<SpecValue, SpecDecodeError>(e@),
            },
        decreases *v,
    {
        match v {
            NativeValue::String(s) => match split_sentinel(s.as_str()) {
                Some(token) => Ok(LuaMessage::ThreadYield(token)),
                None => Ok(LuaMessage::String(s.clone())),
            },
            NativeValue::Integer(n) => Ok(LuaMessage::Integer(*n)),
            NativeValue::Number(bits) => Ok(LuaMessage::Number(*bits)),
            NativeValue::Boolean(b) => Ok(LuaMessage::Boolean(*b)),
            NativeValue::Nil => Ok(LuaMessage::Nil),
            NativeValue::Table(entries) => {
                let ghost gv = native_entries_view(entries@);
                proof {
                    lemma_native_entries_view(entries@);
                }
                let mut out: Vec<(String, LuaMessage)> = Vec::new();
                let mut i: usize = 0;
                proof {
                    assert(gv.subrange(0, 0) =~= Seq::<(Seq<char>, SpecNative)>::empty());
                    assert(entries_view(out@) =~= Seq::<(Seq<char>, SpecValue)>::empty());
                }
                while i < entries.len()
                    invariant
                        i <= entries.len(),
                        *v == NativeValue::Table(*entries),
                        gv == native_entries_view(entries@),
                        gv.len() == entries@.len(),
                        forall|k: int|
                            0 <= k < entries@.len() ==> gv[k] == (entries@[k].0@, entries@[k].1@),
                        spec_decode_entries(gv.subrange(0, i as int)) == Ok::<
                            Seq<(Seq<char>, SpecValue)>,
                            SpecDecodeError,
                        >(entries_view(out@)),
                    decreases entries@.len() - i,
                {
                    proof {
                        lemma_decode_entries_step(gv, i as int);
                    }
                    match LuaMessage::from_lua(&entries[i].1) {
                        Err(e) => {
                            proof {
                                lemma_decode_entries_err(gv, i as int + 1);
                            }
                            return Err(e);
                        },
                        Ok(m) => {
                            let ghost old_out = out@;
                            out.push((entries[i].0.clone(), m));
                            proof {
                                assert(out@.drop_last() =~= old_out);
                                assert(entries_view(out@) == entries_view(old_out).push(
                                    (entries@[i as int].0@, m@),
                                ));
                            }
                        },
                    }
                    i = i + 1;
                }
                proof {
                    assert(gv.subrange(0, entries@.len() as int) =~= gv);
                }
                Ok(LuaMessage::Table(out))
            },
            NativeValue::Error(msg) => Err(DecodeError::ScriptRuntimeError(msg.clone())),
            NativeValue::Other => Err(DecodeError::UnsupportedDecode),
        }
    }

    /// Encodes this value for the native runtime, by the rule of
    /// [`spec_encode`]: scalars and strings pass through, tables recurse,
    /// and `ThreadYield` is refused explicitly.
    pub fn to_lua(&self) -> (r: Result<NativeValue, EncodeError>)
        ensures
            match r {
                Ok(v) => spec_encode(self@) == Ok::<SpecNative, EncodeError>(v@),
                Err(e) => spec_encode(self@) == Err::<SpecNative, EncodeError>(e),
            },
        decreases *self,
    {
        match self {
            LuaMessage::String(s) => Ok(NativeValue::String(s.clone())),
            LuaMessage::Integer(n) => Ok(NativeValue::Integer(*n)),
            LuaMessage::Number(bits) => Ok(NativeValue::Number(*bits)),
            LuaMessage::Boolean(b) => Ok(NativeValue::Boolean(*b)),
            LuaMessage::Nil => Ok(NativeValue::Nil),
            LuaMessage::Table(entries) => {
                let ghost gv = entries_view(entries@);
                proof {
                    lemma_entries_view(entries@);
                }
                let mut out: Vec<(String, NativeValue)> = Vec::new();
                let mut i: usize = 0;
                proof {
                    assert(gv.subrange(0, 0) =~= Seq::<(Seq<char>, SpecValue)>::empty());
                    assert(native_entries_view(out@) =~= Seq::<(Seq<char>, SpecNative)>::empty());
                }
                while i < entries.len()
                    invariant
                        i <= entries.len(),
                        *self == LuaMessage::Table(*entries),
                        gv == entries_view(entries@),
                        gv.len() == entries@.len(),
                        forall|k: int|
                            0 <= k < entries@.len() ==> gv[k] == (entries@[k].0@, entries@[k].1@),
                        spec_encode_entries(gv.subrange(0, i as int)) == Ok::<
                            Seq<(Seq<char>, SpecNative)>,
                            EncodeError,
                        >(native_entries_view(out@)),
                    decreases entries@.len() - i,
                {
                    proof {
                        lemma_encode_entries_step(gv, i as int);
                    }
                    match entries[i].1.to_lua() {
                        Err(e) => {
                            proof {
                                lemma_encode_entries_err(gv, i as int + 1);
                            }
                            return Err(e);
                        },
                        Ok(nv) => {
                            let ghost old_out = out@;
                            out.push((entries[i].0.clone(), nv));
                            proof {
                                assert(out@.drop_last() =~= old_out);
                                assert(native_entries_view(out@) == native_entries_view(
                                    old_out,
                                ).push((entries@[i as int].0@, nv@)));
                            }
                        },
                    }
                    i = i + 1;
                }
                proof {
                    assert(gv.subrange(0, entries@.len() as int) =~= gv);
                }
                Ok(NativeValue::Table(out))
            },
            LuaMessage::ThreadYield(_) => Err(EncodeError::UnsupportedEncode),
        }
    }
}

} // verus!
