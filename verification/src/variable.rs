//! Variable references: the parsed form of a script token such as
//! `responseHeaders['content-type'][0]`, and their evaluation against a
//! script context.
use crate::context::ScriptContext;
use crate::error::Error;
use crate::text::chars_of;
use crate::text::i32_to_string;
use crate::text::int_dec_str;
use crate::text::parse_i32_chars;
use crate::text::parse_i32_model;
use crate::text::string_of;
use crate::text::sub_chars;
use crate::value::as_list_err_msg;
use crate::value::as_map_err_msg;
use crate::value::assoc_find;
use crate::value::Value;
use crate::value::ValueModel;
use vstd::prelude::*;

verus! {

use vstd::string::StringExecFns;

/// One step of a nested reference: a map key or a list index.
#[derive(Debug)]
pub enum NestedVariableType {
    MapKey(String),
    ListIndex(i32),
}

/// A parsed variable reference.
#[derive(Debug)]
pub enum Variable {
    Constant(Value),
    Variable(String),
    VariableMap(String, String),
    VariableList(String, i32),
    NestedVariables(String, Vec<NestedVariableType>),
}

/// The mathematical mirror of [`NestedVariableType`].
pub enum NestedKeyModel {
    MapKey(Seq<char>),
    ListIndex(int),
}

/// The mathematical mirror of [`Variable`].
pub enum VariableModel {
    Constant(ValueModel),
    Variable(Seq<char>),
    VariableMap(Seq<char>, Seq<char>),
    VariableList(Seq<char>, int),
    NestedVariables(Seq<char>, Seq<NestedKeyModel>),
}

impl NestedVariableType {
    pub open spec fn model(self) -> NestedKeyModel {
        match self {
            NestedVariableType::MapKey(k) => NestedKeyModel::MapKey(k@),
            NestedVariableType::ListIndex(i) => NestedKeyModel::ListIndex(i as int),
        }
    }
}

pub open spec fn model_keys(s: Seq<NestedVariableType>) -> Seq<NestedKeyModel> {
    s.map_values(|k: NestedVariableType| k.model())
}

impl Variable {
    pub open spec fn model(self) -> VariableModel {
        match self {
            Variable::Constant(v) => VariableModel::Constant(v.model()),
            Variable::Variable(n) => VariableModel::Variable(n@),
            Variable::VariableMap(n, k) => VariableModel::VariableMap(n@, k@),
            Variable::VariableList(n, i) => VariableModel::VariableList(n@, i as int),
            Variable::NestedVariables(n, ks) => VariableModel::NestedVariables(
                n@,
                model_keys(ks@),
            ),
        }
    }
}

/// The message reported when a map lacks the requested key.
pub open spec fn key_not_found_msg(key: Seq<char>, map_name: Seq<char>) -> Seq<char> {
    "Key '"@ + key + "' not found in map '"@ + map_name + "'"@
}

/// The message reported when a list index falls outside the list.
pub open spec fn index_out_msg(index: int, list_name: Seq<char>) -> Seq<char> {
    "Index '"@ + int_dec_str(index) + "' out of range in list '"@ + list_name + "'"@
}

/// The message reported when neither context layer binds a name.
pub open spec fn var_not_found_msg(name: Seq<char>) -> Seq<char> {
    "Variable '"@ + name + "' not found"@
}

/// The entries a value offers when read as a map: its own for a map,
/// none for null.
pub open spec fn entries_of(m: ValueModel) -> Seq<(Seq<char>, ValueModel)> {
    match m {
        ValueModel::Dict(es) => es,
        _ => Seq::empty(),
    }
}

/// The items a value offers when read as a list: its own for a list,
/// none for null.
pub open spec fn items_of(m: ValueModel) -> Seq<ValueModel> {
    match m {
        ValueModel::List(is) => is,
        _ => Seq::empty(),
    }
}

/// Walks a nested reference left to right from `v`; a missing key, an
/// out-of-range index or a step into a non-collection stops the walk with
/// the corresponding message.
pub open spec fn eval_nested(
    v: ValueModel,
    keys: Seq<NestedKeyModel>,
    var_name: Seq<char>,
) -> Result<ValueModel, Seq<char>>
    decreases keys.len(),
{
    if keys.len() == 0 {
        Ok(v)
    } else {
        match keys[0] {
            NestedKeyModel::MapKey(k) => {
                if !(v is Dict || v is Null) {
                    Err(as_map_err_msg(v))
                } else {
                    match assoc_find(entries_of(v), k) {
                        Some(x) => eval_nested(x, keys.drop_first(), var_name),
                        None => Err(key_not_found_msg(k, var_name)),
                    }
                }
            },
            NestedKeyModel::ListIndex(i) => {
                if !(v is List || v is Null) {
                    Err(as_list_err_msg(v))
                } else {
                    if 0 <= i < items_of(v).len() {
                        eval_nested(items_of(v)[i], keys.drop_first(), var_name)
                    } else {
                        Err(index_out_msg(i, var_name))
                    }
                }
            },
        }
    }
}

/// What a reference denotes in a context: a value, or the message of the
/// `ScriptError` its evaluation reports.
pub open spec fn eval_variable(vm: VariableModel, ctx: ScriptContext) -> Result<
    ValueModel,
    Seq<char>,
> {
    match vm {
        VariableModel::Constant(c) => Ok(c),
        VariableModel::Variable(n) => match ctx.lookup(n) {
            Some(v) => Ok(v),
            None => Err(var_not_found_msg(n)),
        },
        VariableModel::VariableMap(n, k) => match ctx.lookup(n) {
            None => Err(var_not_found_msg(n)),
            Some(v) => {
                if !(v is Dict || v is Null) {
                    Err(as_map_err_msg(v))
                } else {
                    match assoc_find(entries_of(v), k) {
                        Some(x) => Ok(x),
                        None => Err(key_not_found_msg(k, n)),
                    }
                }
            },
        },
        VariableModel::VariableList(n, i) => match ctx.lookup(n) {
            None => Err(var_not_found_msg(n)),
            Some(v) => {
                if !(v is List || v is Null) {
                    Err(as_list_err_msg(v))
                } else {
                    if 0 <= i < items_of(v).len() {
                        Ok(items_of(v)[i])
                    } else {
                        Err(index_out_msg(i, n))
                    }
                }
            },
        },
        VariableModel::NestedVariables(n, keys) => match ctx.lookup(n) {
            None => Err(var_not_found_msg(n)),
            Some(v) => eval_nested(v, keys, n),
        },
    }
}

impl Variable {
    /// Evaluates the reference against `ctx`, with the exact value and
    /// error behaviour of [`eval_variable`].
    pub fn get_value(&self, ctx: &ScriptContext) -> (r: Result<Value, Error>)
        ensures
            match (r, eval_variable(self.model(), *ctx)) {
                (Ok(v), Ok(m)) => v.model() == m,
                (Err(e), Err(msg)) => e matches Error::ScriptError(mm) && mm@ == msg,
                _ => false,
            },
    {
        match self {
            Variable::Constant(v) => Ok(v.clone()),
            Variable::Variable(name) => ctx.must_get_variable(name.as_str()),
            Variable::VariableMap(map_name, key) => {
                let map_value = match ctx.must_get_variable(map_name.as_str()) {
                    Ok(v) => v,
                    Err(e) => {
                        return Err(e);
                    },
                };
                let map = match map_value.as_map() {
                    Ok(m) => m,
                    Err(e) => {
                        return Err(e);
                    },
                };
                match map.get(key.as_str()) {
                    Some(v) => Ok(v.clone()),
                    None => Err(Error::ScriptError(key_not_found_message(key, map_name))),
                }
            },
            Variable::VariableList(list_name, index) => {
                let list_value = match ctx.must_get_variable(list_name.as_str()) {
                    Ok(v) => v,
                    Err(e) => {
                        return Err(e);
                    },
                };
                let list = match list_value.as_list() {
                    Ok(l) => l,
                    Err(e) => {
                        return Err(e);
                    },
                };
                if 0 <= *index && (*index as usize) < list.len() {
                    let i = *index as usize;
                    proof {
                        broadcast use crate::value::lemma_model_seq_props;

                    }
                    Ok(list[i].clone())
                } else {
                    proof {
                        broadcast use crate::value::lemma_model_seq_props;

                    }
                    Err(Error::ScriptError(index_out_message(*index, list_name)))
                }
            },
            Variable::NestedVariables(var_name, keys) => {
                let mut var = match ctx.must_get_variable(var_name.as_str()) {
                    Ok(v) => v,
                    Err(e) => {
                        return Err(e);
                    },
                };
                let ghost keys_model = model_keys(keys@);
                let ghost start = var.model();
                proof {
                    assert(keys_model.skip(0) =~= keys_model);
                }
                let mut j: usize = 0;
                #[verifier::loop_isolation(false)]
                while j < keys.len()
                    invariant
                        j <= keys.len(),
                        eval_nested(start, keys_model, var_name@) == eval_nested(
                            var.model(),
                            keys_model.skip(j as int),
                            var_name@,
                        ),
                    decreases keys.len() - j,
                {
                    proof {
                        assert(keys_model.skip(j as int)[0] == keys@[j as int].model());
                        assert(keys_model.skip(j as int).drop_first() =~= keys_model.skip(j + 1));
                    }
                    match &keys[j] {
                        NestedVariableType::MapKey(k) => {
                            let map = match var.as_map() {
                                Ok(m) => m,
                                Err(e) => {
                                    return Err(e);
                                },
                            };
                            match map.get(k.as_str()) {
                                Some(v) => {
                                    var = v.clone();
                                },
                                None => {
                                    return Err(
                                        Error::ScriptError(key_not_found_message(k, var_name)),
                                    );
                                },
                            }
                        },
                        NestedVariableType::ListIndex(i) => {
                            let list = match var.as_list() {
                                Ok(l) => l,
                                Err(e) => {
                                    return Err(e);
                                },
                            };
                            proof {
                                broadcast use crate::value::lemma_model_seq_props;

                            }
                            if 0 <= *i && (*i as usize) < list.len() {
                                let idx = *i as usize;
                                var = list[idx].clone();
                            } else {
                                return Err(
                                    Error::ScriptError(index_out_message(*i, var_name)),
                                );
                            }
                        },
                    }
                    j = j + 1;
                }
                proof {
                    assert(keys_model.skip(keys@.len() as int).len() == 0);
                }
                Ok(var)
            },
        }
    }
}

/// Builds the missing-key message.
fn key_not_found_message(key: &String, map_name: &String) -> (r: String)
    ensures
        r@ == key_not_found_msg(key@, map_name@),
{
    let r = String::from_str("Key '").concat(key.as_str()).concat("' not found in map '").concat(
        map_name.as_str(),
    ).concat("'");
    proof {
        assert(r@ =~= key_not_found_msg(key@, map_name@));
    }
    r
}

/// Builds the index-out-of-range message.
fn index_out_message(index: i32, list_name: &String) -> (r: String)
    ensures
        r@ == index_out_msg(index as int, list_name@),
{
    let rendered = i32_to_string(index);
    let r = String::from_str("Index '").concat(rendered.as_str()).concat(
        "' out of range in list '",
    ).concat(list_name.as_str()).concat("'");
    proof {
        assert(r@ =~= index_out_msg(index as int, list_name@));
    }
    r
}

} // verus!

verus! {

/// The scanner state of `parse_square_brackets`: the variable name, the
/// finished keys, the key being collected, and whether characters still
/// belong to the variable name.
pub open spec fn sb_init() -> (Seq<char>, Seq<Seq<char>>, Seq<char>, bool) {
    (Seq::empty(), Seq::empty(), Seq::empty(), true)
}

/// One scanner step: `[` stops collecting the name, `]` finishes the
/// current key, any other character extends the name or the current key.
pub open spec fn sb_step(
    st: (Seq<char>, Seq<Seq<char>>, Seq<char>, bool),
    c: char,
) -> (Seq<char>, Seq<Seq<char>>, Seq<char>, bool) {
    if c == '[' {
        (st.0, st.1, st.2, false)
    } else if c == ']' {
        (st.0, st.1.push(st.2), Seq::empty(), st.3)
    } else if st.3 {
        (st.0.push(c), st.1, st.2, st.3)
    } else {
        (st.0, st.1, st.2.push(c), st.3)
    }
}

/// The scanner state after reading all of `s`.
pub open spec fn sb_fold(s: Seq<char>) -> (Seq<char>, Seq<Seq<char>>, Seq<char>, bool)
    decreases s.len(),
{
    if s.len() == 0 {
        sb_init()
    } else {
        sb_step(sb_fold(s.drop_last()), s.last())
    }
}

/// Whether `s` is a single-quoted token (at least two characters long).
pub open spec fn is_quoted(s: Seq<char>) -> bool {
    s.len() >= 2 && s[0] == '\'' && s[s.len() - 1] == '\''
}

/// The content of a single-quoted token.
pub open spec fn unquote(s: Seq<char>) -> Seq<char> {
    s.subrange(1, s.len() - 1)
}

/// How one bracket key reads: a quoted token is a map key, an integer is
/// a list index, anything else is a map key as written.
pub open spec fn key_model_of(k: Seq<char>) -> NestedKeyModel {
    if is_quoted(k) {
        NestedKeyModel::MapKey(unquote(k))
    } else if parse_i32_model(k) is Some {
        NestedKeyModel::ListIndex(parse_i32_model(k)->0)
    } else {
        NestedKeyModel::MapKey(k)
    }
}

/// How a whole reference token reads, per the grammar `from_str` accepts.
pub open spec fn from_str_model(s: Seq<char>) -> VariableModel {
    let st = sb_fold(s);
    let name = st.0;
    let keys = st.1;
    if keys.len() == 0 {
        if is_quoted(name) {
            VariableModel::Constant(ValueModel::String(unquote(name)))
        } else if parse_i32_model(name) is Some {
            VariableModel::Constant(ValueModel::Int(parse_i32_model(name)->0))
        } else {
            VariableModel::Variable(name)
        }
    } else if keys.len() == 1 {
        let k = keys[0];
        if is_quoted(k) {
            VariableModel::VariableMap(name, unquote(k))
        } else if parse_i32_model(k) is Some {
            VariableModel::VariableList(name, parse_i32_model(k)->0)
        } else {
            VariableModel::VariableMap(name, k)
        }
    } else {
        VariableModel::NestedVariables(name, keys.map_values(|k: Seq<char>| key_model_of(k)))
    }
}

impl Variable {
    /// Splits `responseHeaders['content-type'][0]` into the name before
    /// the first bracket and the raw keys between brackets, exactly as the
    /// scanner of [`sb_fold`] reads them.
    pub fn parse_square_brackets(s: &str) -> (r: (String, Vec<String>))
        ensures
            r.0@ == sb_fold(s@).0,
            r.1.deep_view() == sb_fold(s@).1,
    {
        let cs = chars_of(s);
        let mut variable_name: Vec<char> = Vec::new();
        let mut keys: Vec<String> = Vec::new();
        let mut current_key: Vec<char> = Vec::new();
        let mut reading_variable = true;
        let mut i: usize = 0;
        proof {
            assert(s@.take(0) =~= Seq::<char>::empty());
            assert(keys.deep_view() =~= Seq::<Seq<char>>::empty());
        }
        #[verifier::loop_isolation(false)]
        while i < cs.len()
            invariant
                i <= cs.len(),
                (variable_name@, keys.deep_view(), current_key@, reading_variable) == sb_fold(
                    s@.take(i as int),
                ),
            decreases cs.len() - i,
        {
            let c = cs[i];
            proof {
                assert(s@.take(i + 1).drop_last() =~= s@.take(i as int));
                assert(s@.take(i + 1).last() == s@[i as int]);
            }
            if c == '[' {
                reading_variable = false;
            } else if c == ']' {
                let finished = string_of(&current_key);
                keys.push(finished);
                current_key = Vec::new();
                proof {
                    assert(keys.deep_view() =~= sb_fold(s@.take(i + 1)).1);
                }
            } else if reading_variable {
                variable_name.push(c);
            } else {
                current_key.push(c);
            }
            i = i + 1;
        }
        proof {
            assert(s@.take(cs.len() as int) =~= s@);
        }
        (string_of(&variable_name), keys)
    }

    /// Parses a reference token: quoted text and integers become
    /// constants, a bare name a variable, and bracketed forms map, list or
    /// nested references, exactly as [`from_str_model`] reads them.
    pub fn from_str(s: &str) -> (r: Variable)
        ensures
            r.model() == from_str_model(s@),
    {
        let (name, keys) = Variable::parse_square_brackets(s);
        if keys.len() == 0 {
            let name_chars = chars_of(name.as_str());
            if name_chars.len() >= 2 && name_chars[0] == '\'' && name_chars[name_chars.len() - 1]
                == '\'' {
                let content = sub_chars(&name_chars, 1, name_chars.len() - 1);
                Variable::Constant(Value::String(string_of(&content)))
            } else {
                match parse_i32_chars(&name_chars) {
                    Some(v) => Variable::Constant(Value::Int(v)),
                    None => Variable::Variable(name),
                }
            }
        } else if keys.len() == 1 {
            let key = &keys[0];
            let key_chars = chars_of(key.as_str());
            proof {
                assert(keys.deep_view()[0] == keys@[0]@);
            }
            if key_chars.len() >= 2 && key_chars[0] == '\'' && key_chars[key_chars.len() - 1]
                == '\'' {
                let content = sub_chars(&key_chars, 1, key_chars.len() - 1);
                Variable::VariableMap(name, string_of(&content))
            } else {
                match parse_i32_chars(&key_chars) {
                    Some(v) => Variable::VariableList(name, v),
                    None => {
                        let copy = string_of(&key_chars);
                        Variable::VariableMap(name, copy)
                    },
                }
            }
        } else {
            broadcast use Seq::lemma_push_map_commute, Seq::lemma_map_take_succ;

            let ghost key_views = sb_fold(s@).1;
            let mut nested_var_keys: Vec<NestedVariableType> = Vec::new();
            let mut i: usize = 0;
            #[verifier::loop_isolation(false)]
            while i < keys.len()
                invariant
                    i <= keys.len(),
                    keys.deep_view() == key_views,
                    model_keys(nested_var_keys@) == key_views.take(i as int).map_values(
                        |k: Seq<char>| key_model_of(k),
                    ),
                decreases keys.len() - i,
            {
                let key = &keys[i];
                let key_chars = chars_of(key.as_str());
                proof {
                    assert(keys.deep_view()[i as int] == keys@[i as int]@);
                }
                let parsed: NestedVariableType = if key_chars.len() >= 2 && key_chars[0] == '\''
                    && key_chars[key_chars.len() - 1] == '\'' {
                    let content = sub_chars(&key_chars, 1, key_chars.len() - 1);
                    NestedVariableType::MapKey(string_of(&content))
                } else {
                    match parse_i32_chars(&key_chars) {
                        Some(v) => NestedVariableType::ListIndex(v),
                        None => NestedVariableType::MapKey(string_of(&key_chars)),
                    }
                };
                proof {
                    assert(parsed.model() == key_model_of(key_views[i as int]));
                }
                let ghost before = nested_var_keys@;
                nested_var_keys.push(parsed);
                proof {
                    assert(forall|j: int|
                        0 <= j < before.len() ==> nested_var_keys@[j] == #[trigger] before[j]);
                    assert(model_keys(nested_var_keys@) =~= key_views.take(i + 1).map_values(
                        |k: Seq<char>| key_model_of(k),
                    ));
                }
                i = i + 1;
            }
            proof {
                assert(key_views.take(keys@.len() as int) =~= key_views);
            }
            Variable::NestedVariables(name, nested_var_keys)
        }
    }
}

} // verus!
