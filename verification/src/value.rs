//! The dynamic value domain of the scripting engine: strings, 32-bit
//! integers, string-keyed maps, lists and null, together with the exact
//! coercions between them.
//!
//! Contracts speak about values through [`ValueModel`], a pure mathematical
//! mirror of [`Value`] in which strings are `Seq<char>`, integers are `int`,
//! and maps are association sequences of key/model pairs kept in insertion
//! order.
use crate::error::Error;
use crate::text::chars_of;
use crate::text::i32_to_string;
use crate::text::int_dec_str;
use crate::text::parse_i32_chars;
use crate::text::parse_i32_model;
use vstd::prelude::*;

verus! {

use vstd::string::StringExecFns;

/// A dynamic value: the domain scripts compute in.
#[derive(Debug)]
pub enum Value {
    String(String),
    Int(i32),
    Dict(VarMap),
    List(Vec<Value>),
    Null,
}

/// A name-to-value store preserving insertion order, with unique keys as
/// long as every write goes through [`VarMap::insert`].
#[derive(Debug)]
pub struct VarMap {
    pub entries: Vec<(String, Value)>,
}

/// The mathematical mirror of [`Value`].
pub enum ValueModel {
    String(Seq<char>),
    Int(int),
    Dict(Seq<(Seq<char>, ValueModel)>),
    List(Seq<ValueModel>),
    Null,
}

impl Value {
    pub open spec fn model(self) -> ValueModel
        decreases self,
    {
        match self {
            Value::String(s) => ValueModel::String(s@),
            Value::Int(i) => ValueModel::Int(i as int),
            Value::Dict(m) => ValueModel::Dict(Value::model_entries(m.entries@)),
            Value::List(items) => ValueModel::List(Value::model_seq(items@)),
            Value::Null => ValueModel::Null,
        }
    }

    pub open spec fn model_entries(s: Seq<(String, Value)>) -> Seq<(Seq<char>, ValueModel)>
        decreases s,
    {
        if s.len() == 0 {
            Seq::empty()
        } else {
            Value::model_entries(s.drop_last()).push((s.last().0@, s.last().1.model()))
        }
    }

    pub open spec fn model_seq(s: Seq<Value>) -> Seq<ValueModel>
        decreases s,
    {
        if s.len() == 0 {
            Seq::empty()
        } else {
            Value::model_seq(s.drop_last()).push(s.last().model())
        }
    }
}

impl View for Value {
    type V = ValueModel;

    open spec fn view(&self) -> ValueModel {
        self.model()
    }
}

pub broadcast proof fn lemma_model_entries_props(s: Seq<(String, Value)>)
    ensures
        #![trigger Value::model_entries(s)]
        Value::model_entries(s).len() == s.len(),
        forall|i: int|
            0 <= i < s.len() ==> Value::model_entries(s)[i] == (s[i].0@, s[i].1.model()),
    decreases s.len(),
{
    if s.len() > 0 {
        lemma_model_entries_props(s.drop_last());
        assert(forall|i: int|
            0 <= i < s.len() - 1 ==> s.drop_last()[i] == #[trigger] s[i]);
    }
}

pub broadcast proof fn lemma_model_seq_props(s: Seq<Value>)
    ensures
        #![trigger Value::model_seq(s)]
        Value::model_seq(s).len() == s.len(),
        forall|i: int| 0 <= i < s.len() ==> Value::model_seq(s)[i] == s[i].model(),
    decreases s.len(),
{
    if s.len() > 0 {
        lemma_model_seq_props(s.drop_last());
        assert(forall|i: int|
            0 <= i < s.len() - 1 ==> s.drop_last()[i] == #[trigger] s[i]);
    }
}

/// First value bound to key `k` in the association sequence `s`, if any.
pub open spec fn assoc_find(s: Seq<(Seq<char>, ValueModel)>, k: Seq<char>) -> Option<ValueModel>
    decreases s.len(),
{
    if s.len() == 0 {
        None
    } else if s[0].0 == k {
        Some(s[0].1)
    } else {
        assoc_find(s.drop_first(), k)
    }
}

pub open spec fn assoc_contains(s: Seq<(Seq<char>, ValueModel)>, k: Seq<char>) -> bool {
    assoc_find(s, k) is Some
}

/// `s` with key `k` bound to `v`: the first existing binding of `k` is
/// replaced in place, otherwise the pair is appended.
pub open spec fn assoc_set(
    s: Seq<(Seq<char>, ValueModel)>,
    k: Seq<char>,
    v: ValueModel,
) -> Seq<(Seq<char>, ValueModel)>
    decreases s.len(),
{
    if s.len() == 0 {
        seq![(k, v)]
    } else if s[0].0 == k {
        seq![(k, v)] + s.drop_first()
    } else {
        seq![s[0]] + assoc_set(s.drop_first(), k, v)
    }
}

impl View for VarMap {
    type V = Seq<(Seq<char>, ValueModel)>;

    open spec fn view(&self) -> Seq<(Seq<char>, ValueModel)> {
        Value::model_entries(self.entries@)
    }
}

impl VarMap {
    pub fn new() -> (r: VarMap)
        ensures
            r@ == Seq::<(Seq<char>, ValueModel)>::empty(),
    {
        VarMap { entries: Vec::new() }
    }

    pub fn len(&self) -> (r: usize)
        ensures
            r == self@.len(),
    {
        proof {
            broadcast use lemma_model_entries_props;

        }
        self.entries.len()
    }

    /// The `i`-th binding, in insertion order.
    pub fn entry(&self, i: usize) -> (r: &(String, Value))
        requires
            i < self@.len(),
        ensures
            (r.0@, r.1.model()) == self@[i as int],
    {
        proof {
            broadcast use lemma_model_entries_props;

        }
        &self.entries[i]
    }

    /// Looks `name` up; `None` exactly when no binding carries that key.
    #[verifier::loop_isolation(false)]
    pub fn get(&self, name: &str) -> (r: Option<&Value>)
        ensures
            match r {
                Some(v) => assoc_find(self@, name@) == Some(v.model()),
                None => assoc_find(self@, name@) is None,
            },
    {
        broadcast use lemma_model_entries_props;

        let name_s = String::from_str(name);
        let mut i: usize = 0;
        proof {
            assert(self@.skip(0) =~= self@);
        }
        while i < self.entries.len()
            invariant
                i <= self.entries.len(),
                name_s@ == name@,
                assoc_find(self@, name@) == assoc_find(self@.skip(i as int), name@),
            decreases self.entries.len() - i,
        {
            if self.entries[i].0 == name_s {
                proof {
                    assert(self@.skip(i as int)[0] == self@[i as int]);
                }
                return Some(&self.entries[i].1);
            }
            proof {
                assert(self@.skip(i as int)[0] == self@[i as int]);
                assert(self@.skip(i as int).drop_first() =~= self@.skip(i + 1));
            }
            i = i + 1;
        }
        proof {
            assert(self@.skip(i as int).len() == 0);
        }
        None
    }

    /// Whether some binding carries key `name`.
    pub fn contains_key(&self, name: &str) -> (r: bool)
        ensures
            r == assoc_contains(self@, name@),
    {
        self.get(name).is_some()
    }

    /// Binds `name` to `value`: replaces the existing binding in place, or
    /// appends a new one.
    #[verifier::loop_isolation(false)]
    pub fn insert(&mut self, name: &str, value: Value)
        ensures
            final(self)@ == assoc_set(old(self)@, name@, value.model()),
    {
        broadcast use lemma_model_entries_props;

        let ghost k = name@;
        let ghost vm = value.model();
        let name_s = String::from_str(name);
        let mut i: usize = 0;
        while i < self.entries.len()
            invariant
                i <= self.entries.len(),
                name_s@ == name@,
                *self == *old(self),
                forall|j: int| 0 <= j < i ==> self@[j].0 != k,
            decreases self.entries.len() - i,
        {
            if self.entries[i].0 == name_s {
                let pair = (String::from_str(name), value);
                self.entries[i] = pair;
                proof {
                    lemma_assoc_set_at(old(self)@, k, vm, i as int);
                    assert(self@ =~= old(self)@.update(i as int, (k, vm)));
                }
                return ;
            }
            i = i + 1;
        }
        let pair = (String::from_str(name), value);
        self.entries.push(pair);
        proof {
            lemma_assoc_set_missing(old(self)@, k, vm);
            assert(self@ =~= old(self)@.push((k, vm)));
        }
    }
}

/// When `k` first occurs at index `i`, setting `k` updates index `i` in place.
proof fn lemma_assoc_set_at(s: Seq<(Seq<char>, ValueModel)>, k: Seq<char>, v: ValueModel, i: int)
    requires
        0 <= i < s.len(),
        s[i].0 == k,
        forall|j: int| 0 <= j < i ==> s[j].0 != k,
    ensures
        assoc_set(s, k, v) == s.update(i, (k, v)),
    decreases s.len(),
{
    if i == 0 {
        assert(assoc_set(s, k, v) =~= s.update(0, (k, v)));
    } else {
        assert(forall|j: int| 0 <= j < i - 1 ==> s.drop_first()[j] == #[trigger] s[j + 1]);
        lemma_assoc_set_at(s.drop_first(), k, v, i - 1);
        assert(assoc_set(s, k, v) =~= s.update(i, (k, v)));
    }
}

/// When `k` occurs nowhere, setting `k` appends the pair.
proof fn lemma_assoc_set_missing(s: Seq<(Seq<char>, ValueModel)>, k: Seq<char>, v: ValueModel)
    requires
        forall|j: int| 0 <= j < s.len() ==> s[j].0 != k,
    ensures
        assoc_set(s, k, v) == s.push((k, v)),
    decreases s.len(),
{
    if s.len() == 0 {
        assert(assoc_set(s, k, v) =~= s.push((k, v)));
    } else {
        assert(forall|j: int| 0 <= j < s.len() - 1 ==> s.drop_first()[j] == #[trigger] s[j + 1]);
        lemma_assoc_set_missing(s.drop_first(), k, v);
        assert(assoc_set(s, k, v) =~= s.push((k, v)));
    }
}

} // verus!

verus! {

/// Structural equality of two values, decided recursively.
#[verifier::loop_isolation(false)]
fn value_eq(a: &Value, b: &Value) -> (r: bool)
    ensures
        r == (a.model() == b.model()),
    decreases a,
{
    broadcast use lemma_model_seq_props, lemma_model_entries_props;

    match (a, b) {
        (Value::String(x), Value::String(y)) => {
            return *x == *y;
        },
        (Value::Int(x), Value::Int(y)) => {
            return *x == *y;
        },
        (Value::Null, Value::Null) => {
            return true;
        },
        (Value::Dict(x), Value::Dict(y)) => {
            let ghost xm = Value::model_entries(x.entries@);
            let ghost ym = Value::model_entries(y.entries@);
            if x.entries.len() != y.entries.len() {
                proof {
                    assert(xm.len() != ym.len());
                }
                return false;
            }
            let mut i: usize = 0;
            while i < x.entries.len()
                invariant
                    i <= x.entries.len(),
                    forall|j: int| 0 <= j < i ==> xm[j] == ym[j],
                decreases x.entries.len() - i,
            {
                if !(*(&x.entries[i].0) == *(&y.entries[i].0)) {
                    proof {
                        assert(xm[i as int].0 != ym[i as int].0);
                    }
                    return false;
                }
                if !value_eq(&x.entries[i].1, &y.entries[i].1) {
                    proof {
                        assert(xm[i as int].1 != ym[i as int].1);
                    }
                    return false;
                }
                i = i + 1;
            }
            proof {
                assert(xm =~= ym);
            }
            return true;
        },
        (Value::List(x), Value::List(y)) => {
            let ghost xm = Value::model_seq(x@);
            let ghost ym = Value::model_seq(y@);
            if x.len() != y.len() {
                proof {
                    assert(xm.len() != ym.len());
                }
                return false;
            }
            let mut i: usize = 0;
            while i < x.len()
                invariant
                    i <= x.len(),
                    forall|j: int| 0 <= j < i ==> xm[j] == ym[j],
                decreases x.len() - i,
            {
                if !value_eq(&x[i], &y[i]) {
                    proof {
                        assert(xm[i as int] != ym[i as int]);
                    }
                    return false;
                }
                i = i + 1;
            }
            proof {
                assert(xm =~= ym);
            }
            return true;
        },
        _ => {
            return false;
        },
    }
}

/// A deep copy of the entry vector of a map.
#[verifier::loop_isolation(false)]
fn clone_entries(entries: &Vec<(String, Value)>) -> (r: Vec<(String, Value)>)
    ensures
        Value::model_entries(r@) == Value::model_entries(entries@),
    decreases entries,
{
    broadcast use lemma_model_entries_props;

    let mut out: Vec<(String, Value)> = Vec::new();
    let mut i: usize = 0;
    while i < entries.len()
        invariant
            i <= entries.len(),
            out@.len() == i,
            forall|j: int|
                0 <= j < i ==> (out@[j].0@, out@[j].1.model()) == (
                    entries@[j].0@,
                    entries@[j].1.model(),
                ),
        decreases entries.len() - i,
    {
        let key = entries[i].0.clone();
        let val = clone_value(&entries[i].1);
        out.push((key, val));
        i = i + 1;
    }
    proof {
        assert(Value::model_entries(out@) =~= Value::model_entries(entries@));
    }
    out
}

/// A deep copy of a value; the copy denotes the same model.
#[verifier::loop_isolation(false)]
fn clone_value(v: &Value) -> (r: Value)
    ensures
        r.model() == v.model(),
    decreases v,
{
    broadcast use lemma_model_seq_props, lemma_model_entries_props;

    match v {
        Value::String(s) => Value::String(s.clone()),
        Value::Int(i) => Value::Int(*i),
        Value::Null => Value::Null,
        Value::Dict(m) => Value::Dict(VarMap { entries: clone_entries(&m.entries) }),
        Value::List(items) => {
            let mut out: Vec<Value> = Vec::new();
            let mut i: usize = 0;
            while i < items.len()
                invariant
                    i <= items.len(),
                    out@.len() == i,
                    forall|j: int| 0 <= j < i ==> out@[j].model() == items@[j].model(),
                decreases items.len() - i,
            {
                out.push(clone_value(&items[i]));
                i = i + 1;
            }
            proof {
                assert(Value::model_seq(out@) =~= Value::model_seq(items@));
            }
            Value::List(out)
        },
    }
}

impl PartialEq for Value {
    fn eq(&self, other: &Value) -> (r: bool) {
        value_eq(self, other)
    }
}

impl vstd::std_specs::cmp::PartialEqSpecImpl for Value {
    open spec fn obeys_eq_spec() -> bool {
        true
    }

    open spec fn eq_spec(&self, other: &Value) -> bool {
        self.model() == other.model()
    }
}

impl PartialEq for VarMap {
    fn eq(&self, other: &VarMap) -> (r: bool) {
        let a = Value::Dict(VarMap { entries: clone_entries(&self.entries) });
        let b = Value::Dict(VarMap { entries: clone_entries(&other.entries) });
        value_eq(&a, &b)
    }
}

impl vstd::std_specs::cmp::PartialEqSpecImpl for VarMap {
    open spec fn obeys_eq_spec() -> bool {
        true
    }

    open spec fn eq_spec(&self, other: &VarMap) -> bool {
        self@ == other@
    }
}

impl Clone for Value {
    /// The copy denotes the same model as the original.
    fn clone(&self) -> (r: Value)
        ensures
            r.model() == self.model(),
    {
        clone_value(self)
    }
}

impl Clone for VarMap {
    /// The copy holds the same bindings as the original.
    fn clone(&self) -> (r: VarMap)
        ensures
            r@ == self@,
    {
        VarMap { entries: clone_entries(&self.entries) }
    }
}

} // verus!

verus! {

/// Values that coerce to a string: strings themselves, integers (rendered
/// in decimal) and null (the empty string).
pub open spec fn string_coercible(m: ValueModel) -> bool {
    match m {
        ValueModel::String(_) => true,
        ValueModel::Int(_) => true,
        ValueModel::Null => true,
        _ => false,
    }
}

pub open spec fn as_string_model(m: ValueModel) -> Seq<char> {
    match m {
        ValueModel::String(s) => s,
        ValueModel::Int(i) => int_dec_str(i),
        _ => Seq::empty(),
    }
}

/// Values that coerce to an integer: integers, strings that parse as a
/// decimal `i32`, and null (zero).
pub open spec fn int_coercible(m: ValueModel) -> bool {
    match m {
        ValueModel::Int(_) => true,
        ValueModel::Null => true,
        ValueModel::String(s) => parse_i32_model(s) is Some,
        _ => false,
    }
}

pub open spec fn as_int_model(m: ValueModel) -> int {
    match m {
        ValueModel::Int(i) => i,
        ValueModel::String(s) => parse_i32_model(s)->0,
        _ => 0,
    }
}

/// The message reported when a value refuses string coercion.
pub open spec fn as_string_err_msg(m: ValueModel) -> Seq<char> {
    if m is Dict {
        "Map cannot be converted to String"@
    } else {
        "List cannot be converted to String"@
    }
}

/// The message reported when a value refuses integer coercion.
pub open spec fn as_int_err_msg(m: ValueModel) -> Seq<char> {
    match m {
        ValueModel::String(s) => "String '"@ + s + "' cannot be converted to Int"@,
        ValueModel::Dict(_) => "Map cannot be converted to Int"@,
        _ => "List cannot be converted to Int"@,
    }
}

/// The message reported when a value refuses map coercion.
pub open spec fn as_map_err_msg(m: ValueModel) -> Seq<char> {
    match m {
        ValueModel::String(s) => "String '"@ + s + "' cannot be converted to Map"@,
        ValueModel::Int(i) => "Int '"@ + int_dec_str(i) + "' cannot be converted to Map"@,
        _ => "List cannot be converted to Map"@,
    }
}

/// The message reported when a value refuses list coercion.
pub open spec fn as_list_err_msg(m: ValueModel) -> Seq<char> {
    match m {
        ValueModel::String(s) => "String '"@ + s + "' cannot be converted to List"@,
        ValueModel::Int(i) => "Int '"@ + int_dec_str(i) + "' cannot be converted to List"@,
        _ => "Map cannot be converted to List"@,
    }
}

impl Value {
    /// String coercion.  `Ok` exactly on strings, integers and null; maps
    /// and lists yield a `ScriptError` with the message the engine reports.
    pub fn as_string(&self) -> (r: Result<String, Error>)
        ensures
            r is Ok <==> string_coercible(self.model()),
            r matches Ok(s) ==> s@ == as_string_model(self.model()),
            r matches Err(e) ==> e matches Error::ScriptError(m) && m@ == as_string_err_msg(
                self.model(),
            ),
    {
        match self {
            Value::String(v) => Ok(v.clone()),
            Value::Int(v) => Ok(i32_to_string(*v)),
            Value::Dict(_) => Err(
                Error::ScriptError(String::from_str("Map cannot be converted to String")),
            ),
            Value::List(_) => Err(
                Error::ScriptError(String::from_str("List cannot be converted to String")),
            ),
            Value::Null => {
                proof {
                    reveal_strlit("");
                }
                Ok(String::from_str(""))
            },
        }
    }

    /// Integer coercion.  `Ok` exactly on integers, null, and strings that
    /// parse as a decimal `i32`; everything else yields a `ScriptError`.
    pub fn as_int(&self) -> (r: Result<i32, Error>)
        ensures
            r is Ok <==> int_coercible(self.model()),
            r matches Ok(v) ==> v as int == as_int_model(self.model()),
            r matches Err(e) ==> e matches Error::ScriptError(m) && m@ == as_int_err_msg(
                self.model(),
            ),
    {
        match self {
            Value::String(v) => {
                let cs = chars_of(v.as_str());
                match parse_i32_chars(&cs) {
                    Some(n) => Ok(n),
                    None => {
                        let msg = String::from_str("String '").concat(v.as_str()).concat(
                            "' cannot be converted to Int",
                        );
                        proof {
                            assert(msg@ =~= "String '"@ + v@ + "' cannot be converted to Int"@);
                        }
                        Err(Error::ScriptError(msg))
                    },
                }
            },
            Value::Int(v) => Ok(*v),
            Value::Dict(_) => Err(
                Error::ScriptError(String::from_str("Map cannot be converted to Int")),
            ),
            Value::List(_) => Err(
                Error::ScriptError(String::from_str("List cannot be converted to Int")),
            ),
            Value::Null => Ok(0),
        }
    }

    /// Map coercion.  `Ok` exactly on maps (a deep copy) and null (the
    /// empty map); everything else yields a `ScriptError`.
    pub fn as_map(&self) -> (r: Result<VarMap, Error>)
        ensures
            r is Ok <==> (self.model() is Dict || self.model() is Null),
            r matches Ok(m) ==> m@ == (match self.model() {
                ValueModel::Dict(entries) => entries,
                _ => Seq::<(Seq<char>, ValueModel)>::empty(),
            }),
            r matches Err(e) ==> e matches Error::ScriptError(m) && m@ == as_map_err_msg(
                self.model(),
            ),
    {
        match self {
            Value::String(v) => {
                let msg = String::from_str("String '").concat(v.as_str()).concat(
                    "' cannot be converted to Map",
                );
                proof {
                    assert(msg@ =~= "String '"@ + v@ + "' cannot be converted to Map"@);
                }
                Err(Error::ScriptError(msg))
            },
            Value::Int(v) => {
                let rendered = i32_to_string(*v);
                let msg = String::from_str("Int '").concat(rendered.as_str()).concat(
                    "' cannot be converted to Map",
                );
                proof {
                    assert(msg@ =~= "Int '"@ + int_dec_str(*v as int)
                        + "' cannot be converted to Map"@);
                }
                Err(Error::ScriptError(msg))
            },
            Value::Dict(m) => Ok(m.clone()),
            Value::List(_) => Err(
                Error::ScriptError(String::from_str("List cannot be converted to Map")),
            ),
            Value::Null => Ok(VarMap::new()),
        }
    }

    /// List coercion.  `Ok` exactly on lists (a deep copy) and null (the
    /// empty list); everything else yields a `ScriptError`.
    pub fn as_list(&self) -> (r: Result<Vec<Value>, Error>)
        ensures
            r is Ok <==> (self.model() is List || self.model() is Null),
            r matches Ok(items) ==> Value::model_seq(items@) == (match self.model() {
                ValueModel::List(models) => models,
                _ => Seq::<ValueModel>::empty(),
            }),
            r matches Err(e) ==> e matches Error::ScriptError(m) && m@ == as_list_err_msg(
                self.model(),
            ),
    {
        match self {
            Value::String(v) => {
                let msg = String::from_str("String '").concat(v.as_str()).concat(
                    "' cannot be converted to List",
                );
                proof {
                    assert(msg@ =~= "String '"@ + v@ + "' cannot be converted to List"@);
                }
                Err(Error::ScriptError(msg))
            },
            Value::Int(v) => {
                let rendered = i32_to_string(*v);
                let msg = String::from_str("Int '").concat(rendered.as_str()).concat(
                    "' cannot be converted to List",
                );
                proof {
                    assert(msg@ =~= "Int '"@ + int_dec_str(*v as int)
                        + "' cannot be converted to List"@);
                }
                Err(Error::ScriptError(msg))
            },
            Value::Dict(_) => Err(
                Error::ScriptError(String::from_str("Map cannot be converted to List")),
            ),
            Value::List(items) => {
                let cloned = clone_value(self);
                match cloned {
                    Value::List(out) => Ok(out),
                    _ => Ok(Vec::new()),
                }
            },
            Value::Null => Ok(Vec::new()),
        }
    }
}

} // verus!

verus! {

/// Looking up the key just set yields the value just bound.
pub broadcast proof fn lemma_assoc_find_set_same(
    s: Seq<(Seq<char>, ValueModel)>,
    k: Seq<char>,
    v: ValueModel,
)
    ensures
        #[trigger] assoc_find(assoc_set(s, k, v), k) == Some(v),
    decreases s.len(),
{
    let out = assoc_set(s, k, v);
    if s.len() == 0 {
        assert(out[0] == (k, v));
        assert(assoc_find(out, k) == Some(v));
    } else if s[0].0 == k {
        assert(out[0] == (k, v));
        assert(assoc_find(out, k) == Some(v));
    } else {
        lemma_assoc_find_set_same(s.drop_first(), k, v);
        assert(out[0] == s[0]);
        assert(out.drop_first() =~= assoc_set(s.drop_first(), k, v));
        assert(assoc_find(out, k) == assoc_find(out.drop_first(), k));
    }
}

/// Setting one key leaves every other key's binding unchanged.
pub broadcast proof fn lemma_assoc_find_set_other(
    s: Seq<(Seq<char>, ValueModel)>,
    k: Seq<char>,
    v: ValueModel,
    k2: Seq<char>,
)
    requires
        k2 != k,
    ensures
        #[trigger] assoc_find(assoc_set(s, k, v), k2) == assoc_find(s, k2),
    decreases s.len(),
{
    let out = assoc_set(s, k, v);
    if s.len() == 0 {
        assert(out[0] == (k, v));
        assert(out.drop_first() =~= Seq::<(Seq<char>, ValueModel)>::empty());
        assert(assoc_find(out, k2) == assoc_find(out.drop_first(), k2));
        assert(assoc_find(out, k2) is None);
    } else if s[0].0 == k {
        assert(out[0] == (k, v));
        assert(out.drop_first() =~= s.drop_first());
        assert(assoc_find(out, k2) == assoc_find(s.drop_first(), k2));
        assert(assoc_find(s, k2) == assoc_find(s.drop_first(), k2));
    } else {
        lemma_assoc_find_set_other(s.drop_first(), k, v, k2);
        assert(out[0] == s[0]);
        assert(out.drop_first() =~= assoc_set(s.drop_first(), k, v));
        if s[0].0 == k2 {
            assert(assoc_find(out, k2) == Some(out[0].1));
            assert(assoc_find(s, k2) == Some(s[0].1));
        } else {
            assert(assoc_find(out, k2) == assoc_find(out.drop_first(), k2));
            assert(assoc_find(s, k2) == assoc_find(s.drop_first(), k2));
        }
    }
}

} // verus!
