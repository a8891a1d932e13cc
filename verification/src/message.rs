use vstd::prelude::*;

verus! {

/// Mathematical model of a script value.
///
/// `Number` carries the IEEE-754 bit pattern of the 64-bit float payload:
/// the library never computes with the float, it only carries it across the
/// boundary, so the bits are the most faithful plain representation.
/// `Table` is modelled as a sequence of key/value pairs in insertion order;
/// structural (order-irrelevant) equality is a separate relation,
/// [`spec_equiv`].
pub enum SpecValue {
    String(Seq<char>),
    Integer(int),
    Number(u64),
    Boolean(bool),
    Nil,
    Table(Seq<(Seq<char>, SpecValue)>),
    ThreadYield(Seq<char>),
}

/// A value exchanged with the embedded scripting runtime.
///
/// Exactly one variant is active at a time. `Number` holds the bit pattern
/// of the 64-bit float it stands for. `Table` holds its entries by value,
/// recursively, with no sharing; a well-formed table has pairwise distinct
/// keys (see [`spec_wf`]). `ThreadYield` is a host-side control
/// signal recovered from the suspension sentinel during decoding; it is
/// never produced by the host-side constructors.
#[derive(Debug)]
pub enum LuaMessage {
    String(String),
    Integer(i64),
    Number(u64),
    Boolean(bool),
    Nil,
    Table(Vec<(String, LuaMessage)>),
    ThreadYield(String),
}

impl View for LuaMessage {
    type V = SpecValue;

    open spec fn view(&self) -> SpecValue
        decreases self,
    {
        match self {
            LuaMessage::String(s) => SpecValue::String(s@),
            LuaMessage::Integer(i) => SpecValue::Integer(*i as int),
            LuaMessage::Number(bits) => SpecValue::Number(*bits),
            LuaMessage::Boolean(b) => SpecValue::Boolean(*b),
            LuaMessage::Nil => SpecValue::Nil,
            LuaMessage::Table(entries) => SpecValue::Table(entries_view(entries@)),
            LuaMessage::ThreadYield(s) => SpecValue::ThreadYield(s@),
        }
    }
}

/// The model of a table's entry list: each key and value replaced by its view.
pub open spec fn entries_view(s: Seq<(String, LuaMessage)>) -> Seq<(Seq<char>, SpecValue)>
    decreases s,
{
    if s.len() == 0 {
        Seq::empty()
    } else {
        entries_view(s.drop_last()).push((s.last().0@, s.last().1@))
    }
}

/// `entries_view` is the pointwise view of the entry list.
pub proof fn lemma_entries_view(s: Seq<(String, LuaMessage)>)
    ensures
        entries_view(s).len() == s.len(),
        forall|i: int| 0 <= i < s.len() ==> entries_view(s)[i] == (s[i].0@, s[i].1@),
    decreases s.len(),
{
    if s.len() > 0 {
        lemma_entries_view(s.drop_last());
        assert(entries_view(s) == entries_view(s.drop_last()).push((s.last().0@, s.last().1@)));
        assert forall|i: int| 0 <= i < s.len() implies entries_view(s)[i] == (
        s[i].0@,
        s[i].1@,
        ) by {
            if i < s.len() - 1 {
                assert(entries_view(s)[i] == entries_view(s.drop_last())[i]);
                assert(s.drop_last()[i] == s[i]);
            }
        }
    }
}

/// The keys of an entry list are pairwise distinct.
pub open spec fn keys_unique(entries: Seq<(Seq<char>, SpecValue)>) -> bool {
    forall|i: int, j: int| 0 <= i < j < entries.len() ==> entries[i].0 != entries[j].0
}

/// Well-formedness: every table, at every nesting depth, has pairwise
/// distinct keys. Decoding a well-formed native value yields such a value;
/// on a table that is not well-formed, the last binding of a key wins
/// (see [`spec_lookup`]).
pub open spec fn spec_wf(v: SpecValue) -> bool
    decreases v,
{
    match v {
        SpecValue::Table(entries) => {
            &&& keys_unique(entries)
            &&& forall|i: int| 0 <= i < entries.len() ==> spec_wf(#[trigger] entries[i].1)
        },
        _ => true,
    }
}

/// The binding of `key` in an entry list; the last binding of a key wins,
/// as it does when the entries are poured into an associative structure
/// one by one.
pub open spec fn spec_lookup(entries: Seq<(Seq<char>, SpecValue)>, key: Seq<char>) -> Option<
    SpecValue,
>
    decreases entries.len(),
{
    if entries.len() == 0 {
        None
    } else if entries.last().0 == key {
        Some(entries.last().1)
    } else {
        spec_lookup(entries.drop_last(), key)
    }
}

/// Structural equality on the model: scalar payloads must match exactly;
/// two tables are equivalent when every key of one is bound in the other,
/// and either, with structurally equivalent values — the order of the
/// entries carries no meaning.
pub open spec fn spec_equiv(a: SpecValue, b: SpecValue) -> bool
    decreases a,
{
    match (a, b) {
        (SpecValue::String(x), SpecValue::String(y)) => x == y,
        (SpecValue::Integer(x), SpecValue::Integer(y)) => x == y,
        (SpecValue::Number(x), SpecValue::Number(y)) => x == y,
        (SpecValue::Boolean(x), SpecValue::Boolean(y)) => x == y,
        (SpecValue::Nil, SpecValue::Nil) => true,
        (SpecValue::Table(ea), SpecValue::Table(eb)) => {
            &&& forall|i: int|
                0 <= i < ea.len() ==> ((#[trigger] spec_lookup(eb, ea[i].0)) matches Some(w)
                    && spec_equiv(ea[i].1, w))
            &&& forall|j: int|
                0 <= j < eb.len() ==> (#[trigger] spec_lookup(ea, eb[j].0)) is Some
        },
        (SpecValue::ThreadYield(x), SpecValue::ThreadYield(y)) => x == y,
        _ => false,
    }
}

/// Looks `key` up in a table's entry list, scanning from the end so that
/// the last binding of a duplicated key wins, as [`spec_lookup`] says.
pub fn table_get<'a>(entries: &'a Vec<(String, LuaMessage)>, key: &String) -> (r: Option<
    &'a LuaMessage,
>)
    ensures
        match r {
            Some(v) => spec_lookup(entries_view(entries@), key@) == Some(v@),
            None => spec_lookup(entries_view(entries@), key@) is None,
        },
{
    let ghost gentries = entries_view(entries@);
    proof {
        lemma_entries_view(entries@);
        assert(gentries.subrange(0, entries@.len() as int) =~= gentries);
    }
    let mut i: usize = entries.len();
    while i > 0
        invariant
            i <= entries.len(),
            gentries == entries_view(entries@),
            gentries.len() == entries@.len(),
            forall|k: int|
                0 <= k < entries@.len() ==> gentries[k] == (entries@[k].0@, entries@[k].1@),
            spec_lookup(gentries, key@) == spec_lookup(gentries.subrange(0, i as int), key@),
        decreases i,
    {
        i = i - 1;
        proof {
            let sub1 = gentries.subrange(0, i as int + 1);
            assert(sub1.last() == gentries[i as int]);
            assert(sub1.drop_last() =~= gentries.subrange(0, i as int));
        }
        if entries[i].0 == *key {
            return Some(&entries[i].1);
        }
    }
    proof {
        assert(gentries.subrange(0, 0) =~= Seq::<(Seq<char>, SpecValue)>::empty());
    }
    None
}

impl LuaMessage {
    /// Structural equality, [`spec_equiv`] made executable: scalars by
    /// payload, tables by key set and the winning binding of each key,
    /// whatever order the entries stand in.
    pub fn deep_eq(&self, other: &LuaMessage) -> (r: bool)
        ensures
            r == spec_equiv(self@, other@),
        decreases *self,
    {
        match (self, other) {
            (LuaMessage::String(a), LuaMessage::String(b)) => {
                return *a == *b;
            },
            (LuaMessage::Integer(a), LuaMessage::Integer(b)) => {
                return *a == *b;
            },
            (LuaMessage::Number(a), LuaMessage::Number(b)) => {
                return *a == *b;
            },
            (LuaMessage::Boolean(a), LuaMessage::Boolean(b)) => {
                return *a == *b;
            },
            (LuaMessage::Nil, LuaMessage::Nil) => {
                return true;
            },
            (LuaMessage::ThreadYield(a), LuaMessage::ThreadYield(b)) => {
                return *a == *b;
            },
            (LuaMessage::Table(ea), LuaMessage::Table(eb)) => {
                let ghost eav = entries_view(ea@);
                let ghost ebv = entries_view(eb@);
                proof {
                    lemma_entries_view(ea@);
                    lemma_entries_view(eb@);
                }
                let mut i: usize = 0;
                while i < ea.len()
                    invariant
                        i <= ea.len(),
                        eav == entries_view(ea@),
                        ebv == entries_view(eb@),
                        eav.len() == ea@.len(),
                        forall|k: int|
                            0 <= k < ea@.len() ==> eav[k] == (ea@[k].0@, ea@[k].1@),
                        *self == LuaMessage::Table(*ea),
                        *other == LuaMessage::Table(*eb),
                        forall|k: int|
                            0 <= k < i ==> ((#[trigger] spec_lookup(ebv, eav[k].0)) matches Some(
                            w,
                            ) && spec_equiv(eav[k].1, w)),
                    decreases ea.len() - i,
                {
                    match table_get(eb, &ea[i].0) {
                        None => {
                            proof {
                                assert(spec_lookup(ebv, eav[i as int].0) is None);
                                assert(!spec_equiv(self@, other@));
                            }
                            return false;
                        },
                        Some(w) => {
                            if !ea[i].1.deep_eq(w) {
                                proof {
                                    assert(spec_lookup(ebv, eav[i as int].0) == Some(w@));
                                    assert(!spec_equiv(eav[i as int].1, w@));
                                    assert(!spec_equiv(self@, other@));
                                }
                                return false;
                            }
                        },
                    }
                    i = i + 1;
                }
                let mut j: usize = 0;
                while j < eb.len()
                    invariant
                        j <= eb.len(),
                        eav == entries_view(ea@),
                        ebv == entries_view(eb@),
                        eav.len() == ea@.len(),
                        ebv.len() == eb@.len(),
                        forall|k: int|
                            0 <= k < eb@.len() ==> ebv[k] == (eb@[k].0@, eb@[k].1@),
                        *self == LuaMessage::Table(*ea),
                        *other == LuaMessage::Table(*eb),
                        forall|k: int|
                            0 <= k < eav.len() ==> ((#[trigger] spec_lookup(ebv, eav[k].0)) matches Some(
                            w,
                            ) && spec_equiv(eav[k].1, w)),
                        forall|k: int|
                            0 <= k < j ==> (#[trigger] spec_lookup(eav, ebv[k].0)) is Some,
                    decreases eb.len() - j,
                {
                    if table_get(ea, &eb[j].0).is_none() {
                        proof {
                            assert(spec_lookup(eav, ebv[j as int].0) is None);
                            assert(!spec_equiv(self@, other@));
                        }
                        return false;
                    }
                    j = j + 1;
                }
                proof {
                    assert(self@ == SpecValue::Table(eav));
                    assert(other@ == SpecValue::Table(ebv));
                    assert(spec_equiv(self@, other@));
                }
                return true;
            },
            _ => {
                proof {
                    assert(!spec_equiv(self@, other@));
                }
                return false;
            },
        }
    }
}

impl Clone for LuaMessage {
    /// A deep copy: the clone models the same value.
    fn clone(&self) -> (r: LuaMessage)
        ensures
            r@ == self@,
        decreases *self,
    {
        match self {
            LuaMessage::String(s) => LuaMessage::String(s.clone()),
            LuaMessage::Integer(n) => LuaMessage::Integer(*n),
            LuaMessage::Number(bits) => LuaMessage::Number(*bits),
            LuaMessage::Boolean(b) => LuaMessage::Boolean(*b),
            LuaMessage::Nil => LuaMessage::Nil,
            LuaMessage::Table(entries) => {
                let ghost gv = entries_view(entries@);
                proof {
                    lemma_entries_view(entries@);
                }
                let mut out: Vec<(String, LuaMessage)> = Vec::new();
                let mut i: usize = 0;
                proof {
                    assert(entries_view(out@) =~= Seq::<(Seq<char>, SpecValue)>::empty());
                    assert(gv.subrange(0, 0) =~= Seq::<(Seq<char>, SpecValue)>::empty());
                }
                while i < entries.len()
                    invariant
                        i <= entries.len(),
                        *self == LuaMessage::Table(*entries),
                        gv == entries_view(entries@),
                        gv.len() == entries@.len(),
                        forall|k: int|
                            0 <= k < entries@.len() ==> gv[k] == (entries@[k].0@, entries@[k].1@),
                        entries_view(out@) == gv.subrange(0, i as int),
                    decreases entries@.len() - i,
                {
                    proof {
                        assert(decreases_to!(*self => (*self)->Table_0));
                        assert((*self)->Table_0 == *entries);
                        assert(decreases_to!(*entries => entries@));
                        assert(decreases_to!(entries@ => entries@[i as int]));
                        assert(decreases_to!(entries@[i as int] => entries@[i as int].1));
                        assert(decreases_to!(*self => entries@[i as int].1));
                    }
                    let copied = entries[i].1.clone();
                    let ghost old_out = out@;
                    out.push((entries[i].0.clone(), copied));
                    proof {
                        assert(out@.drop_last() =~= old_out);
                        assert(entries_view(out@) == entries_view(old_out).push(
                            (entries@[i as int].0@, copied@),
                        ));
                        assert(entries_view(out@) =~= gv.subrange(0, i as int + 1));
                    }
                    i = i + 1;
                }
                proof {
                    assert(gv.subrange(0, entries@.len() as int) =~= gv);
                }
                LuaMessage::Table(out)
            },
            LuaMessage::ThreadYield(s) => LuaMessage::ThreadYield(s.clone()),
        }
    }
}

impl PartialEq for LuaMessage {
    /// `==` is the structural equality of [`spec_equiv`], as `eq_spec` below says.
    fn eq(&self, other: &LuaMessage) -> (r: bool) {
        self.deep_eq(other)
    }
}

impl vstd::std_specs::cmp::PartialEqSpecImpl for LuaMessage {
    open spec fn obeys_eq_spec() -> bool {
        true
    }

    open spec fn eq_spec(&self, other: &LuaMessage) -> bool {
        spec_equiv(self@, other@)
    }
}

impl From<bool> for LuaMessage {
    /// A boolean maps to `Boolean` directly; there is no truthiness coercion.
    fn from(s: bool) -> (r: LuaMessage) {
        LuaMessage::Boolean(s)
    }
}

impl vstd::std_specs::convert::FromSpecImpl<bool> for LuaMessage {
    open spec fn obeys_from_spec() -> bool {
        true
    }

    open spec fn from_spec(s: bool) -> LuaMessage {
        LuaMessage::Boolean(s)
    }
}

impl From<String> for LuaMessage {
    /// An owned string maps to `String`, the text unchanged.
    fn from(s: String) -> (r: LuaMessage) {
        LuaMessage::String(s)
    }
}

impl vstd::std_specs::convert::FromSpecImpl<String> for LuaMessage {
    open spec fn obeys_from_spec() -> bool {
        true
    }

    open spec fn from_spec(s: String) -> LuaMessage {
        LuaMessage::String(s)
    }
}

impl<'l> From<&'l str> for LuaMessage {
    /// A borrowed string maps to `String` by copying the text verbatim —
    /// never to `ThreadYield` or any other variant.
    fn from(s: &'l str) -> (r: LuaMessage)
        ensures
            r@ == SpecValue::String(s@),
    {
        LuaMessage::String(s.to_owned())
    }
}

impl<'l> vstd::std_specs::convert::FromSpecImpl<&'l str> for LuaMessage {
    /// No spec-level `String` value can be named for an arbitrary `&str`,
    /// so `from_spec` cannot fix the result as a value; the impl's own
    /// `ensures` above fixes it by its view instead.
    open spec fn obeys_from_spec() -> bool {
        false
    }

    open spec fn from_spec(s: &'l str) -> LuaMessage {
        LuaMessage::Nil
    }
}

impl From<Vec<(String, LuaMessage)>> for LuaMessage {
    /// A string-keyed entry list maps to `Table` by moving the whole list.
    fn from(s: Vec<(String, LuaMessage)>) -> (r: LuaMessage) {
        LuaMessage::Table(s)
    }
}

impl vstd::std_specs::convert::FromSpecImpl<Vec<(String, LuaMessage)>> for LuaMessage {
    open spec fn obeys_from_spec() -> bool {
        true
    }

    open spec fn from_spec(s: Vec<(String, LuaMessage)>) -> LuaMessage {
        LuaMessage::Table(s)
    }
}

impl From<i8> for LuaMessage {
    /// Maps to `Integer`, widened to 64 bits without loss.
    fn from(s: i8) -> (r: LuaMessage) {
        LuaMessage::Integer(s as i64)
    }
}

impl vstd::std_specs::convert::FromSpecImpl<i8> for LuaMessage {
    open spec fn obeys_from_spec() -> bool {
        true
    }

    open spec fn from_spec(s: i8) -> LuaMessage {
        LuaMessage::Integer(s as i64)
    }
}

impl From<u8> for LuaMessage {
    /// Maps to `Integer`, widened to 64 bits without loss.
    fn from(s: u8) -> (r: LuaMessage) {
        LuaMessage::Integer(s as i64)
    }
}

impl vstd::std_specs::convert::FromSpecImpl<u8> for LuaMessage {
    open spec fn obeys_from_spec() -> bool {
        true
    }

    open spec fn from_spec(s: u8) -> LuaMessage {
        LuaMessage::Integer(s as i64)
    }
}

impl From<i16> for LuaMessage {
    /// Maps to `Integer`, widened to 64 bits without loss.
    fn from(s: i16) -> (r: LuaMessage) {
        LuaMessage::Integer(s as i64)
    }
}

impl vstd::std_specs::convert::FromSpecImpl<i16> for LuaMessage {
    open spec fn obeys_from_spec() -> bool {
        true
    }

    open spec fn from_spec(s: i16) -> LuaMessage {
        LuaMessage::Integer(s as i64)
    }
}

impl From<u16> for LuaMessage {
    /// Maps to `Integer`, widened to 64 bits without loss.
    fn from(s: u16) -> (r: LuaMessage) {
        LuaMessage::Integer(s as i64)
    }
}

impl vstd::std_specs::convert::FromSpecImpl<u16> for LuaMessage {
    open spec fn obeys_from_spec() -> bool {
        true
    }

    open spec fn from_spec(s: u16) -> LuaMessage {
        LuaMessage::Integer(s as i64)
    }
}

impl From<i32> for LuaMessage {
    /// Maps to `Integer`, widened to 64 bits without loss.
    fn from(s: i32) -> (r: LuaMessage) {
        LuaMessage::Integer(s as i64)
    }
}

impl vstd::std_specs::convert::FromSpecImpl<i32> for LuaMessage {
    open spec fn obeys_from_spec() -> bool {
        true
    }

    open spec fn from_spec(s: i32) -> LuaMessage {
        LuaMessage::Integer(s as i64)
    }
}

impl From<u32> for LuaMessage {
    /// Maps to `Integer`, widened to 64 bits without loss.
    fn from(s: u32) -> (r: LuaMessage) {
        LuaMessage::Integer(s as i64)
    }
}

impl vstd::std_specs::convert::FromSpecImpl<u32> for LuaMessage {
    open spec fn obeys_from_spec() -> bool {
        true
    }

    open spec fn from_spec(s: u32) -> LuaMessage {
        LuaMessage::Integer(s as i64)
    }
}

impl From<i64> for LuaMessage {
    /// Maps to `Integer` unchanged.
    fn from(s: i64) -> (r: LuaMessage) {
        LuaMessage::Integer(s)
    }
}

impl vstd::std_specs::convert::FromSpecImpl<i64> for LuaMessage {
    open spec fn obeys_from_spec() -> bool {
        true
    }

    open spec fn from_spec(s: i64) -> LuaMessage {
        LuaMessage::Integer(s)
    }
}

impl From<usize> for LuaMessage {
    /// Maps to `Integer` by the two's-complement reinterpretation of the
    /// pointer-sized value: a value above `i64::MAX` wraps, the accepted
    /// platform-dependent truncation of this conversion family.
    fn from(s: usize) -> (r: LuaMessage) {
        #[verifier::truncate]
        let n = s as i64;
        LuaMessage::Integer(n)
    }
}

impl vstd::std_specs::convert::FromSpecImpl<usize> for LuaMessage {
    open spec fn obeys_from_spec() -> bool {
        true
    }

    open spec fn from_spec(s: usize) -> LuaMessage {
        LuaMessage::Integer(s as i64)
    }
}

impl From<isize> for LuaMessage {
    /// Maps to `Integer`, widened to 64 bits without loss.
    fn from(s: isize) -> (r: LuaMessage) {
        LuaMessage::Integer(s as i64)
    }
}

impl vstd::std_specs::convert::FromSpecImpl<isize> for LuaMessage {
    open spec fn obeys_from_spec() -> bool {
        true
    }

    open spec fn from_spec(s: isize) -> LuaMessage {
        LuaMessage::Integer(s as i64)
    }
}

/// With pairwise distinct keys, looking an entry's own key up finds exactly
/// that entry.
pub proof fn lemma_lookup_at(entries: Seq<(Seq<char>, SpecValue)>, i: int)
    requires
        keys_unique(entries),
        0 <= i < entries.len(),
    ensures
        spec_lookup(entries, entries[i].0) == Some(entries[i].1),
    decreases entries.len(),
{
    if i < entries.len() - 1 {
        assert(entries.last().0 != entries[i].0);
        assert(entries.drop_last()[i] == entries[i]);
        lemma_lookup_at(entries.drop_last(), i);
    }
}

/// Structural equivalence is reflexive on well-formed values.
pub proof fn lemma_equiv_reflexive(v: SpecValue)
    requires
        spec_wf(v),
    ensures
        spec_equiv(v, v),
    decreases v,
{
    match v {
        SpecValue::Table(entries) => {
            assert forall|i: int| 0 <= i < entries.len() implies ((#[trigger] spec_lookup(
                entries,
                entries[i].0,
            )) matches Some(w) && spec_equiv(entries[i].1, w)) by {
                lemma_lookup_at(entries, i);
                lemma_equiv_reflexive(entries[i].1);
            }
            assert forall|j: int| 0 <= j < entries.len() implies (#[trigger] spec_lookup(
                entries,
                entries[j].0,
            )) is Some by {
                lemma_lookup_at(entries, j);
            }
        },
        _ => {},
    }
}

/// Table equality is structural: two well-formed tables holding the same
/// key/value pairs, in whatever insertion order, are structurally
/// equivalent — and so compare equal under `==`.
pub proof fn lemma_table_equiv_permutation(
    ea: Seq<(Seq<char>, SpecValue)>,
    eb: Seq<(Seq<char>, SpecValue)>,
)
    requires
        spec_wf(SpecValue::Table(ea)),
        spec_wf(SpecValue::Table(eb)),
        ea.to_multiset() == eb.to_multiset(),
    ensures
        spec_equiv(SpecValue::Table(ea), SpecValue::Table(eb)),
{
    broadcast use vstd::seq_lib::group_to_multiset_ensures;

    assert forall|i: int| 0 <= i < ea.len() implies ((#[trigger] spec_lookup(eb, ea[i].0)) matches
    Some(w) && spec_equiv(ea[i].1, w)) by {
        assert(ea.contains(ea[i]));
        assert(eb.to_multiset().count(ea[i]) > 0);
        assert(eb.contains(ea[i]));
        let j = choose|j: int| 0 <= j < eb.len() && eb[j] == ea[i];
        lemma_lookup_at(eb, j);
        lemma_equiv_reflexive(ea[i].1);
    }
    assert forall|j: int| 0 <= j < eb.len() implies (#[trigger] spec_lookup(ea, eb[j].0)) is Some by {
        assert(eb.contains(eb[j]));
        assert(ea.to_multiset().count(eb[j]) > 0);
        assert(ea.contains(eb[j]));
        let i = choose|i: int| 0 <= i < ea.len() && ea[i] == eb[j];
        lemma_lookup_at(ea, i);
    }
}

} // verus!
