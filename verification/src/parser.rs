//! The line-oriented script parser: one statement per non-empty,
//! non-`#` line, tokens separated by single spaces.
use crate::error::Error;
use crate::function::find_last;
use crate::function::find_last_from;
use crate::function::split_model;
use crate::function::CopyFunction;
use crate::function::Function;
use crate::function::LastIndexOfFunction;
use crate::function::NowFunction;
use crate::function::PlusFunction;
use crate::function::RandomFunction;
use crate::function::SubStringFunction;
use crate::context::ScriptContext;
use crate::script::model_vars;
use crate::script::AssertOperator;
use crate::script::AssertScript;
use crate::script::DefScript;
use crate::script::Statement;
use crate::text::chars_of;
use crate::text::str_eqs;
use crate::text::string_of;
use crate::text::sub_chars;
use crate::variable::from_str_model;
use crate::variable::Variable;
use crate::variable::VariableModel;
use vstd::prelude::*;

verus! {

use vstd::string::StringExecFns;

/// The characters the call tokenizer treats as word characters.
pub open spec fn is_word_char(c: char) -> bool {
    ('a' <= c && c <= 'z') || ('A' <= c && c <= 'Z') || ('0' <= c && c <= '9') || c == '_'
}

/// End of the word run starting at `i`: the first position at or after
/// `i` holding no word character.
pub open spec fn word_end(s: Seq<char>, i: int) -> int
    recommends
        0 <= i <= s.len(),
    decreases s.len() - i,
{
    if i < 0 || i >= s.len() || !is_word_char(s[i]) {
        i
    } else {
        word_end(s, i + 1)
    }
}

/// Whether some `)` stands strictly after position `j`.
pub open spec fn has_rparen_after(s: Seq<char>, j: int) -> bool {
    exists|k: int| j < k < s.len() && s[k] == ')'
}

/// First start of a maximal word run that is directly followed by `(`
/// with a `)` somewhere after it, searching from `i`; -1 when none.
pub open spec fn call_start(s: Seq<char>, i: int) -> int
    recommends
        0 <= i,
    decreases s.len() - i,
{
    if i < 0 || i >= s.len() {
        -1
    } else if is_word_char(s[i]) && (i == 0 || !is_word_char(s[i - 1])) && word_end(s, i) < s.len()
        && s[word_end(s, i)] == '(' && has_rparen_after(s, word_end(s, i)) {
        i
    } else {
        call_start(s, i + 1)
    }
}

/// How the engine reads a function call out of a token: the name is the
/// first eligible word run, the arguments run from its `(` to the last
/// `)` of the whole token.
pub open spec fn call_model(s: Seq<char>) -> Option<(Seq<char>, Seq<char>)> {
    let i = call_start(s, 0);
    if i == -1 {
        None
    } else {
        let j = word_end(s, i);
        let k = find_last(s, seq![')']);
        Some((s.subrange(i, j), s.subrange(j + 1, k)))
    }
}

/// Whether `c` is a word character, computed.
fn is_word_char_exec(c: char) -> (r: bool)
    ensures
        r == is_word_char(c),
{
    ('a' <= c && c <= 'z') || ('A' <= c && c <= 'Z') || ('0' <= c && c <= '9') || c == '_'
}

/// Extracts the function call from a token; mirrors [`call_model`].
fn find_call(s: &Vec<char>) -> (r: Option<(String, String)>)
    ensures
        match r {
            Some((name, args)) => call_model(s@) matches Some(m) && m.0 == name@ && m.1 == args@,
            None => call_model(s@) is None,
        },
{
    let close = one_char_vec(')');
    let last_rp = crate::function::find_last_exec(s, &close);
    let mut i: usize = 0;
    #[verifier::loop_isolation(false)]
    while i < s.len()
        invariant
            i <= s@.len(),
            call_start(s@, 0) == call_start(s@, i as int),
            match last_rp {
                Some(k) => find_last(s@, seq![')']) == k as int && k < s@.len(),
                None => find_last(s@, seq![')']) == -1,
            },
            close@ == seq![')'],
        decreases s@.len() - i,
    {
        let at_run_start = is_word_char_exec(s[i]) && (i == 0 || !is_word_char_exec(s[i - 1]));
        if at_run_start {
            // walk to the end of the word run
            let mut j: usize = i;
            #[verifier::loop_isolation(false)]
            while j < s.len() && is_word_char_exec(s[j])
                invariant
                    i <= j <= s@.len(),
                    word_end(s@, i as int) == word_end(s@, j as int),
                decreases s@.len() - j,
            {
                j = j + 1;
            }
            proof {
                assert(word_end(s@, j as int) == j);
            }
            if j < s.len() && s[j] == '(' {
                let has_close = match last_rp {
                    Some(k) => k > j,
                    None => false,
                };
                proof {
                    if has_close {
                        let k = last_rp->0;
                        let fl = find_last(s@, seq![')']);
                        assert(fl == k as int);
                        lemma_find_last_is_match(s@, seq![')']);
                        assert(s@[k as int] == ')');
                        assert(has_rparen_after(s@, j as int));
                    } else {
                        if has_rparen_after(s@, j as int) {
                            let k = choose|k: int| j < k < s@.len() && s@[k] == ')';
                            assert(s@.subrange(k, k + 1) =~= seq![')']);
                            assert(crate::function::match_at(s@, seq![')'], k));
                            crate::function::lemma_match_implies_found(s@, seq![')'], k);
                            assert(false);
                        }
                    }
                }
                if has_close {
                    let k = match last_rp {
                        Some(k) => k,
                        None => 0,
                    };
                    proof {
                        assert(call_start(s@, i as int) == i);
                        assert(call_start(s@, 0) == i);
                    }
                    let name_cs = sub_chars(s, i, j);
                    let args_cs = sub_chars(s, j + 1, k);
                    let name = string_of(&name_cs);
                    let args = string_of(&args_cs);
                    return Some((name, args));
                }
            }
            proof {
                assert(call_start(s@, i as int) == call_start(s@, i + 1));
            }
        } else {
            proof {
                assert(call_start(s@, i as int) == call_start(s@, i + 1));
            }
        }
        i = i + 1;
    }
    proof {
        assert(call_start(s@, i as int) == -1);
    }
    None
}

/// The last match of a one-character pattern lands on that character.
proof fn lemma_find_last_is_match(s: Seq<char>, p: Seq<char>)
    requires
        p.len() == 1,
        find_last(s, p) >= 0,
    ensures
        0 <= find_last(s, p) < s.len() && s[find_last(s, p)] == p[0],
{
    lemma_find_last_from_match(s, p, s.len() - p.len());
}

proof fn lemma_find_last_from_match(s: Seq<char>, p: Seq<char>, j: int)
    requires
        p.len() == 1,
        find_last_from(s, p, j) >= 0,
        j + p.len() <= s.len(),
    ensures
        0 <= find_last_from(s, p, j) < s.len() && s[find_last_from(s, p, j)] == p[0],
    decreases j + 1,
{
    if j >= 0 {
        if crate::function::match_at(s, p, j) {
            assert(s.subrange(j, j + 1)[0] == s[j]);
        } else {
            lemma_find_last_from_match(s, p, j - 1);
        }
    }
}


} // verus!

verus! {

use crate::function::split_all;
use crate::function::FunctionModel;
use crate::script::StatementModel;

/// How a `def` line reads, given its space-separated parts.
pub open spec fn parse_def_model(parts: Seq<Seq<char>>) -> Result<StatementModel, Seq<char>>
    recommends
        parts.len() >= 4,
{
    if parts[2] != "="@ {
        Err("invalid script, expected '='"@)
    } else if parts.len() == 4 {
        let target = parts[1];
        let rhs = parts[3];
        let dot_parts = split_model(rhs, seq!['.']);
        if dot_parts.len() == 2 {
            match call_model(dot_parts[1]) {
                Some(call) => {
                    if call.0 == "substring"@ {
                        Ok(
                            StatementModel::Def(
                                target,
                                FunctionModel::SubString,
                                seq![from_str_model(dot_parts[0]), from_str_model(call.1)],
                            ),
                        )
                    } else if call.0 == "lastIndexOf"@ {
                        Ok(
                            StatementModel::Def(
                                target,
                                FunctionModel::LastIndexOf,
                                seq![from_str_model(dot_parts[0]), from_str_model(call.1)],
                            ),
                        )
                    } else {
                        Err("invalid script, expected function"@)
                    }
                },
                None => Err("invalid script, expected function"@),
            }
        } else {
            match call_model(rhs) {
                Some(call) => {
                    if call.0 == "now"@ {
                        Ok(StatementModel::Def(target, FunctionModel::Now, Seq::empty()))
                    } else if call.0 == "random"@ {
                        let fa = split_model(call.1, seq![',']);
                        if fa.len() != 2 {
                            Err("invalid script, random function requires 2 arguments"@)
                        } else {
                            Ok(
                                StatementModel::Def(
                                    target,
                                    FunctionModel::Random,
                                    seq![from_str_model(fa[0]), from_str_model(fa[1])],
                                ),
                            )
                        }
                    } else {
                        Err("invalid script, function '"@ + call.0 + "' not found"@)
                    }
                },
                None => Ok(
                    StatementModel::Def(
                        target,
                        FunctionModel::Copy,
                        seq![from_str_model(rhs)],
                    ),
                ),
            }
        }
    } else if parts.len() == 6 {
        if parts[4] != "+"@ {
            Err("invalid script, only '+' operator is supported"@)
        } else {
            Ok(
                StatementModel::Def(
                    parts[1],
                    FunctionModel::Plus,
                    seq![from_str_model(parts[3]), from_str_model(parts[5])],
                ),
            )
        }
    } else {
        Err("invalid script, expected function"@)
    }
}

/// How an `assert` line reads, given its space-separated parts.
pub open spec fn parse_assert_model(parts: Seq<Seq<char>>) -> Result<StatementModel, Seq<char>>
    recommends
        parts.len() >= 4,
{
    if parts[2] == "=="@ {
        Ok(
            StatementModel::Assert(
                from_str_model(parts[1]),
                AssertOperator::Equal,
                from_str_model(parts[3]),
            ),
        )
    } else if parts[2] == "!="@ {
        Ok(
            StatementModel::Assert(
                from_str_model(parts[1]),
                AssertOperator::NotEqual,
                from_str_model(parts[3]),
            ),
        )
    } else {
        Err("invalid script, operator '==' or '!=' expected"@)
    }
}

/// How one trimmed line reads: at least four space-separated parts,
/// starting with `def` or `assert`.
pub open spec fn parse_line_model(line: Seq<char>) -> Result<StatementModel, Seq<char>> {
    let parts = split_model(line, seq![' ']);
    if parts.len() < 4 {
        Err("invalid script, expected at least 4 parts"@)
    } else if parts[0] == "def"@ {
        parse_def_model(parts)
    } else if parts[0] == "assert"@ {
        parse_assert_model(parts)
    } else {
        Err("invalid script, expected 'def' or 'assert'"@)
    }
}

/// The line parser.
pub struct Parser {}

impl Parser {
    /// Parses one statement line, exactly as [`parse_line_model`] reads
    /// it.
    pub fn parse_line(line: &str) -> (r: Result<Statement, Error>)
        ensures
            match (r, parse_line_model(line@)) {
                (Ok(st), Ok(m)) => st.model() == m,
                (Err(e), Err(msg)) => e matches Error::ScriptError(mm) && mm@ == msg,
                _ => false,
            },
    {
        let line_chars = chars_of(line);
        let space = one_char_vec(' ');
        let parts = split_all(&line_chars, &space);
        let ghost pm = split_model(line@, seq![' ']);
        if parts.len() < 4 {
            return Err(
                Error::ScriptError(String::from_str("invalid script, expected at least 4 parts")),
            );
        }
        proof {
            assert(parts.deep_view()[0] == parts@[0]@);
        }
        if str_eqs(parts[0].as_str(), "def") {
            Self::parse_def_script(&parts)
        } else if str_eqs(parts[0].as_str(), "assert") {
            Self::parse_assert_script(&parts)
        } else {
            Err(Error::ScriptError(String::from_str("invalid script, expected 'def' or 'assert'")))
        }
    }

    /// Parses an `assert` line from its parts.
    fn parse_assert_script(parts: &Vec<String>) -> (r: Result<Statement, Error>)
        requires
            parts.deep_view().len() >= 4,
        ensures
            match (r, parse_assert_model(parts.deep_view())) {
                (Ok(st), Ok(m)) => st.model() == m,
                (Err(e), Err(msg)) => e matches Error::ScriptError(mm) && mm@ == msg,
                _ => false,
            },
    {
        proof {
            assert(parts.deep_view()[1] == parts@[1]@);
            assert(parts.deep_view()[2] == parts@[2]@);
            assert(parts.deep_view()[3] == parts@[3]@);
        }
        let operator = if str_eqs(parts[2].as_str(), "==") {
            AssertOperator::Equal
        } else if str_eqs(parts[2].as_str(), "!=") {
            AssertOperator::NotEqual
        } else {
            return Err(
                Error::ScriptError(
                    String::from_str("invalid script, operator '==' or '!=' expected"),
                ),
            );
        };
        let lhs = Variable::from_str(parts[1].as_str());
        let rhs = Variable::from_str(parts[3].as_str());
        Ok(Statement::Assert(AssertScript { lhs, rhs, operator }))
    }

    /// Parses a `def` line from its parts.
    fn parse_def_script(parts: &Vec<String>) -> (r: Result<Statement, Error>)
        requires
            parts.deep_view().len() >= 4,
        ensures
            match (r, parse_def_model(parts.deep_view())) {
                (Ok(st), Ok(m)) => st.model() == m,
                (Err(e), Err(msg)) => e matches Error::ScriptError(mm) && mm@ == msg,
                _ => false,
            },
    {
        proof {
            assert(parts.deep_view()[1] == parts@[1]@);
            assert(parts.deep_view()[2] == parts@[2]@);
            assert(parts.deep_view()[3] == parts@[3]@);
        }
        if !str_eqs(parts[2].as_str(), "=") {
            return Err(Error::ScriptError(String::from_str("invalid script, expected '='")));
        }
        if parts.len() == 4 {
            let target_chars = chars_of(parts[1].as_str());
            let target = string_of(&target_chars);
            let rhs = &parts[3];
            let rhs_chars = chars_of(rhs.as_str());
            let dot = one_char_vec('.');
            let dot_parts = split_all(&rhs_chars, &dot);
            proof {
                crate::function::lemma_split_model_nonempty(rhs@, seq!['.']);
            }
            if dot_parts.len() == 2 {
                proof {
                    assert(dot_parts.deep_view()[0] == dot_parts@[0]@);
                    assert(dot_parts.deep_view()[1] == dot_parts@[1]@);
                }
                let second_chars = chars_of(dot_parts[1].as_str());
                match find_call(&second_chars) {
                    Some((func_name, func_arg)) => {
                        if str_eqs(func_name.as_str(), "substring") {
                            let arg0 = Variable::from_str(dot_parts[0].as_str());
                            let arg1 = Variable::from_str(func_arg.as_str());
                            let mut args: Vec<Variable> = Vec::new();
                            args.push(arg0);
                            args.push(arg1);
                            proof {
                                assert(model_vars(args@) =~= seq![
                                    from_str_model(dot_parts.deep_view()[0]),
                                    from_str_model(func_arg@),
                                ]);
                            }
                            Ok(
                                Statement::Def(
                                    DefScript {
                                        return_var_name: target,
                                        function: Function::SubString(SubStringFunction),
                                        args,
                                    },
                                ),
                            )
                        } else if str_eqs(func_name.as_str(), "lastIndexOf") {
                            let arg0 = Variable::from_str(dot_parts[0].as_str());
                            let arg1 = Variable::from_str(func_arg.as_str());
                            let mut args: Vec<Variable> = Vec::new();
                            args.push(arg0);
                            args.push(arg1);
                            proof {
                                assert(model_vars(args@) =~= seq![
                                    from_str_model(dot_parts.deep_view()[0]),
                                    from_str_model(func_arg@),
                                ]);
                            }
                            Ok(
                                Statement::Def(
                                    DefScript {
                                        return_var_name: target,
                                        function: Function::LastIndexOf(LastIndexOfFunction),
                                        args,
                                    },
                                ),
                            )
                        } else {
                            Err(
                                Error::ScriptError(
                                    String::from_str("invalid script, expected function"),
                                ),
                            )
                        }
                    },
                    None => Err(
                        Error::ScriptError(String::from_str("invalid script, expected function")),
                    ),
                }
            } else {
                match find_call(&rhs_chars) {
                    Some((func_name, func_args)) => {
                        if str_eqs(func_name.as_str(), "now") {
                            let args: Vec<Variable> = Vec::new();
                            proof {
                                assert(model_vars(args@) =~= Seq::<VariableModel>::empty());
                            }
                            Ok(
                                Statement::Def(
                                    DefScript {
                                        return_var_name: target,
                                        function: Function::Now(NowFunction),
                                        args,
                                    },
                                ),
                            )
                        } else if str_eqs(func_name.as_str(), "random") {
                            let fa_chars = chars_of(func_args.as_str());
                            let comma = one_char_vec(',');
                            let fa = split_all(&fa_chars, &comma);
                            if fa.len() != 2 {
                                return Err(
                                    Error::ScriptError(
                                        String::from_str(
                                            "invalid script, random function requires 2 arguments",
                                        ),
                                    ),
                                );
                            }
                            proof {
                                assert(fa.deep_view()[0] == fa@[0]@);
                                assert(fa.deep_view()[1] == fa@[1]@);
                            }
                            let arg0 = Variable::from_str(fa[0].as_str());
                            let arg1 = Variable::from_str(fa[1].as_str());
                            let mut args: Vec<Variable> = Vec::new();
                            args.push(arg0);
                            args.push(arg1);
                            proof {
                                assert(model_vars(args@) =~= seq![
                                    from_str_model(fa.deep_view()[0]),
                                    from_str_model(fa.deep_view()[1]),
                                ]);
                            }
                            Ok(
                                Statement::Def(
                                    DefScript {
                                        return_var_name: target,
                                        function: Function::Random(RandomFunction),
                                        args,
                                    },
                                ),
                            )
                        } else {
                            let msg = String::from_str("invalid script, function '").concat(
                                func_name.as_str(),
                            ).concat("' not found");
                            proof {
                                assert(msg@ =~= "invalid script, function '"@ + func_name@
                                    + "' not found"@);
                            }
                            Err(Error::ScriptError(msg))
                        }
                    },
                    None => {
                        let arg0 = Variable::from_str(rhs.as_str());
                        let mut args: Vec<Variable> = Vec::new();
                        args.push(arg0);
                        proof {
                            assert(model_vars(args@) =~= seq![from_str_model(rhs@)]);
                        }
                        Ok(
                            Statement::Def(
                                DefScript {
                                    return_var_name: target,
                                    function: Function::Copy(CopyFunction),
                                    args,
                                },
                            ),
                        )
                    },
                }
            }
        } else if parts.len() == 6 {
            proof {
                assert(parts.deep_view()[4] == parts@[4]@);
                assert(parts.deep_view()[5] == parts@[5]@);
            }
            if !str_eqs(parts[4].as_str(), "+") {
                return Err(
                    Error::ScriptError(
                        String::from_str("invalid script, only '+' operator is supported"),
                    ),
                );
            }
            let target_chars = chars_of(parts[1].as_str());
            let target = string_of(&target_chars);
            let arg0 = Variable::from_str(parts[3].as_str());
            let arg1 = Variable::from_str(parts[5].as_str());
            let mut args: Vec<Variable> = Vec::new();
            args.push(arg0);
            args.push(arg1);
            proof {
                assert(model_vars(args@) =~= seq![
                    from_str_model(parts.deep_view()[3]),
                    from_str_model(parts.deep_view()[5]),
                ]);
            }
            Ok(
                Statement::Def(
                    DefScript {
                        return_var_name: target,
                        function: Function::Plus(PlusFunction),
                        args,
                    },
                ),
            )
        } else {
            Err(Error::ScriptError(String::from_str("invalid script, expected function")))
        }
    }
}

/// A one-element vector holding `c`.
fn one_char_vec(c: char) -> (r: Vec<char>)
    ensures
        r@ == seq![c],
{
    let mut v: Vec<char> = Vec::new();
    v.push(c);
    proof {
        assert(v@ =~= seq![c]);
    }
    v
}

} // verus!

verus! {

use crate::script::script_run;

/// The characters `str::trim` removes: the Unicode white space set.
pub open spec fn is_space_char(c: char) -> bool {
    c == '\u{0009}' || c == '\u{000A}' || c == '\u{000B}' || c == '\u{000C}' || c == '\u{000D}'
        || c == ' ' || c == '\u{0085}' || c == '\u{00A0}' || c == '\u{1680}' || ('\u{2000}' <= c
        && c <= '\u{200A}') || c == '\u{2028}' || c == '\u{2029}' || c == '\u{202F}' || c
        == '\u{205F}' || c == '\u{3000}'
}

pub open spec fn trim_start_model(s: Seq<char>) -> Seq<char>
    decreases s.len(),
{
    if s.len() > 0 && is_space_char(s[0]) {
        trim_start_model(s.drop_first())
    } else {
        s
    }
}

pub open spec fn trim_end_model(s: Seq<char>) -> Seq<char>
    decreases s.len(),
{
    if s.len() > 0 && is_space_char(s.last()) {
        trim_end_model(s.drop_last())
    } else {
        s
    }
}

/// `s` without leading and trailing white space, as `str::trim` leaves it.
pub open spec fn trim_model(s: Seq<char>) -> Seq<char> {
    trim_end_model(trim_start_model(s))
}

/// Whether `c` is trimmed white space, computed.
fn is_space_char_exec(c: char) -> (r: bool)
    ensures
        r == is_space_char(c),
{
    c == '\u{0009}' || c == '\u{000A}' || c == '\u{000B}' || c == '\u{000C}' || c == '\u{000D}'
        || c == ' ' || c == '\u{0085}' || c == '\u{00A0}' || c == '\u{1680}' || ('\u{2000}' <= c
        && c <= '\u{200A}') || c == '\u{2028}' || c == '\u{2029}' || c == '\u{202F}' || c
        == '\u{205F}' || c == '\u{3000}'
}

/// Trims white space from both ends; mirrors [`trim_model`].
fn trim_chars(s: &Vec<char>) -> (r: Vec<char>)
    ensures
        r@ == trim_model(s@),
{
    let mut a: usize = 0;
    proof {
        assert(s@.skip(0) =~= s@);
    }
    #[verifier::loop_isolation(false)]
    while a < s.len() && is_space_char_exec(s[a])
        invariant
            a <= s@.len(),
            trim_start_model(s@) == trim_start_model(s@.skip(a as int)),
        decreases s@.len() - a,
    {
        proof {
            assert(s@.skip(a as int)[0] == s@[a as int]);
            assert(s@.skip(a as int).drop_first() =~= s@.skip(a + 1));
        }
        a = a + 1;
    }
    proof {
        if a < s@.len() {
            assert(s@.skip(a as int)[0] == s@[a as int]);
        }
        assert(trim_start_model(s@.skip(a as int)) == s@.skip(a as int));
    }
    let ghost t = s@.skip(a as int);
    let mut b: usize = s.len();
    proof {
        assert(t.take(b - a) =~= t);
    }
    #[verifier::loop_isolation(false)]
    while b > a && is_space_char_exec(s[b - 1])
        invariant
            a <= b <= s@.len(),
            trim_end_model(t) == trim_end_model(t.take(b - a)),
        decreases b,
    {
        proof {
            assert(t.take(b - a).last() == s@[b - 1]);
            assert(t.take(b - a).drop_last() =~= t.take(b - 1 - a));
        }
        b = b - 1;
    }
    proof {
        if b > a {
            assert(t.take(b - a).last() == s@[b - 1]);
        }
        assert(trim_end_model(t.take(b - a)) == t.take(b - a));
    }
    let out = sub_chars(s, a, b);
    proof {
        assert(out@ =~= t.take(b - a));
    }
    out
}

/// A line with one trailing carriage return removed, as `str::lines`
/// leaves it.
pub open spec fn strip_cr(l: Seq<char>) -> Seq<char> {
    if l.len() > 0 && l.last() == '\r' {
        l.drop_last()
    } else {
        l
    }
}

/// The lines of `s`, as `str::lines` yields them: cut at `\n`, one
/// trailing `\r` removed per line, and no final empty line.
pub open spec fn lines_model(s: Seq<char>) -> Seq<Seq<char>> {
    let parts = split_model(s, seq!['\n']);
    let kept = if parts.len() > 0 && parts.last().len() == 0 {
        parts.drop_last()
    } else {
        parts
    };
    kept.map_values(|l: Seq<char>| strip_cr(l))
}

/// Parses the kept lines in order: blank lines and `#` comments are
/// skipped; the first grammar error stops the parse, with the offending
/// line preserved in the message for diagnostics.
pub open spec fn parse_lines_model(lines: Seq<Seq<char>>) -> Result<Seq<StatementModel>, Seq<char>>
    decreases lines.len(),
{
    if lines.len() == 0 {
        Ok(Seq::empty())
    } else {
        let t = trim_model(lines[0]);
        if t.len() == 0 || t[0] == '#' {
            parse_lines_model(lines.drop_first())
        } else {
            match parse_line_model(t) {
                Err(m) => Err(m + ": "@ + t),
                Ok(st) => match parse_lines_model(lines.drop_first()) {
                    Err(m) => Err(m),
                    Ok(ms) => Ok(seq![st] + ms),
                },
            }
        }
    }
}

/// What parsing a whole script block yields.
pub open spec fn parse_script_model(s: Seq<char>) -> Result<Seq<StatementModel>, Seq<char>> {
    parse_lines_model(lines_model(s))
}

/// A parsed script: an ordered list of statements.
#[derive(Debug)]
pub struct Scripts {
    pub scripts: Vec<Statement>,
}

impl Scripts {
    /// The models of the statements, in order.
    pub open spec fn models(self) -> Seq<StatementModel> {
        self.scripts@.map_values(|st: Statement| st.model())
    }

    /// Parses a script block line by line, exactly as
    /// [`parse_script_model`] reads it.
    pub fn parse(raw_script: &str) -> (r: Result<Scripts, Error>)
        ensures
            match (r, parse_script_model(raw_script@)) {
                (Ok(sc), Ok(ms)) => sc.models() == ms,
                (Err(e), Err(msg)) => e matches Error::ScriptError(mm) && mm@ == msg,
                _ => false,
            },
    {
        broadcast use Seq::lemma_push_map_commute, Seq::lemma_map_take_succ;

        let raw_chars = chars_of(raw_script);
        let newline = one_char_vec('\n');
        let mut parts = split_all(&raw_chars, &newline);
        proof {
            crate::function::lemma_split_model_nonempty(raw_script@, seq!['\n']);
            assert(parts.deep_view()[parts.deep_view().len() - 1] == parts@[parts@.len() - 1]@);
        }
        if parts.len() > 0 && parts[parts.len() - 1].as_str().is_empty() {
            let popped = parts.pop();
            proof {
                assert(parts.deep_view() =~= split_model(raw_script@, seq!['\n']).drop_last());
            }
        }
        let ghost lm = lines_model(raw_script@);
        proof {
            assert(parts.deep_view().map_values(|l: Seq<char>| strip_cr(l)) == lm);
        }
        let mut scripts: Vec<Statement> = Vec::new();
        let mut i: usize = 0;
        proof {
            assert(lm.skip(0) =~= lm);
            assert(scripts@.map_values(|st: Statement| st.model()) =~= Seq::<
                StatementModel,
            >::empty());
        }
        #[verifier::loop_isolation(false)]
        while i < parts.len()
            invariant
                i <= parts@.len(),
                parts.deep_view().map_values(|l: Seq<char>| strip_cr(l)) == lm,
                parse_lines_model(lm) == (match parse_lines_model(lm.skip(i as int)) {
                    Ok(rest) => Ok::<Seq<StatementModel>, Seq<char>>(
                        scripts@.map_values(|st: Statement| st.model()) + rest,
                    ),
                    Err(m) => Err::<Seq<StatementModel>, Seq<char>>(m),
                }),
            decreases parts@.len() - i,
        {
            proof {
                assert(parts.deep_view()[i as int] == parts@[i as int]@);
                assert(lm[i as int] == strip_cr(parts@[i as int]@));
                assert(lm.skip(i as int)[0] == lm[i as int]);
                assert(lm.skip(i as int).drop_first() =~= lm.skip(i + 1));
            }
            let mut line_chars = chars_of(parts[i].as_str());
            if line_chars.len() > 0 && line_chars[line_chars.len() - 1] == '\r' {
                let dropped = line_chars.pop();
                proof {
                    assert(line_chars@ =~= strip_cr(parts@[i as int]@));
                }
            }
            proof {
                assert(line_chars@ == lm[i as int]);
            }
            let trimmed = trim_chars(&line_chars);
            if trimmed.len() == 0 {
                i = i + 1;
                continue ;
            }
            if trimmed[0] == '#' {
                i = i + 1;
                continue ;
            }
            let line = string_of(&trimmed);
            match Parser::parse_line(line.as_str()) {
                Ok(st) => {
                    let ghost before = scripts@.map_values(|st: Statement| st.model());
                    scripts.push(st);
                    proof {
                        let ea = parse_lines_model(lm.skip(i + 1));
                        if ea is Ok {
                            let rest = ea->Ok_0;
                            assert(before + (seq![scripts@.last().model()] + rest) =~= scripts@.map_values(
                                |st: Statement| st.model(),
                            ) + rest);
                        }
                    }
                },
                Err(e) => {
                    match e {
                        Error::ScriptError(msg) => {
                            let full = msg.concat(": ").concat(line.as_str());
                            proof {
                                assert(full@ =~= msg@ + ": "@ + line@);
                            }
                            return Err(Error::ScriptError(full));
                        },
                        _ => {
                            proof {
                                assert(false);
                            }
                            return Err(e);
                        },
                    }
                },
            }
            i = i + 1;
        }
        proof {
            assert(lm.skip(parts@.len() as int).len() == 0);
            assert(scripts@.map_values(|st: Statement| st.model()) + Seq::<
                StatementModel,
            >::empty() =~= scripts@.map_values(|st: Statement| st.model()));
        }
        Ok(Scripts { scripts })
    }

    /// Runs the statements in order against `context`, stopping at the
    /// first error; the whole run satisfies [`script_run`].
    pub fn execute(&self, context: &mut ScriptContext) -> (r: Result<(), Error>)
        ensures
            script_run(self.scripts@, *old(context), *final(context), r),
    {
        let ghost ss = self.scripts@;
        let ghost c0 = *context;
        let mut i: usize = 0;
        proof {
            assert(ss.skip(0) =~= ss);
        }
        #[verifier::loop_isolation(false)]
        while i < self.scripts.len()
            invariant
                i <= ss.len(),
                c0 == *old(context),
                forall|cf: ScriptContext, rr: Result<(), Error>|
                    script_run(ss.skip(i as int), *context, cf, rr) ==> #[trigger] script_run(
                        ss,
                        c0,
                        cf,
                        rr,
                    ),
            decreases ss.len() - i,
        {
            let ghost cur = *context;
            proof {
                assert(ss.skip(i as int)[0] == ss[i as int]);
                assert(ss.skip(i as int).drop_first() =~= ss.skip(i + 1));
            }
            match self.scripts[i].execute(context) {
                Ok(_) => {
                    let ghost c2 = *context;
                    proof {
                        assert(crate::script::stmt_post(ss[i as int], cur, c2, Ok(())));
                        assert forall|cf: ScriptContext, rr: Result<(), Error>|
                            script_run(ss.skip(i + 1), c2, cf, rr) implies #[trigger] script_run(
                            ss,
                            c0,
                            cf,
                            rr,
                        ) by {
                            assert(crate::script::stmt_post(
                                ss.skip(i as int)[0],
                                cur,
                                c2,
                                Ok(()),
                            ));
                            assert(script_run(ss.skip(i as int).drop_first(), c2, cf, rr));
                            assert(script_run(ss.skip(i as int), cur, cf, rr));
                        }
                    }
                },
                Err(e) => {
                    let ghost c2 = *context;
                    proof {
                        assert(crate::script::stmt_post(
                            ss.skip(i as int)[0],
                            cur,
                            c2,
                            Err(e),
                        ));
                        assert(script_run(ss.skip(i as int), cur, c2, Err(e)));
                    }
                    return Err(e);
                },
            }
            i = i + 1;
        }
        proof {
            assert(ss.skip(ss.len() as int).len() == 0);
            assert(script_run(ss.skip(ss.len() as int), *context, *context, Ok(())));
        }
        Ok(())
    }
}

} // verus!

verus! {

use crate::function::apply_ok_value;
use crate::function::wrap_i32;
use crate::script::def_post;
use crate::script::eval_args_model;
use crate::value::as_int_model;
use crate::value::int_coercible;

/// Script round-trip for additions: a line that parses as
/// `def x = a + b`, executed successfully against a context in which both
/// operands evaluate to integer-coercible values, leaves `x` bound to
/// their wrapping 32-bit sum — the parser, the evaluator and the function
/// table compose exactly.
pub proof fn lemma_script_round_trip_plus(
    line: Seq<char>,
    st: Statement,
    c0: ScriptContext,
    c1: ScriptContext,
)
    requires
        parse_line_model(line) matches Ok(m) && m == st.model() && m matches StatementModel::Def(
            name,
            FunctionModel::Plus,
            argms,
        ),
        crate::script::stmt_post(st, c0, c1, Ok(())),
        eval_args_model(
            match st.model() {
                StatementModel::Def(_, _, argms) => argms,
                _ => Seq::empty(),
            },
            c0,
        ) matches Ok(am) && am.len() == 2 && int_coercible(am[0]) && int_coercible(am[1]),
    ensures
        ({
            let name = match st.model() {
                StatementModel::Def(name, _, _) => name,
                _ => Seq::empty(),
            };
            let am = eval_args_model(
                match st.model() {
                    StatementModel::Def(_, _, argms) => argms,
                    _ => Seq::empty(),
                },
                c0,
            )->Ok_0;
            c1.lookup(name) == Some(
                crate::value::ValueModel::Int(wrap_i32(as_int_model(am[0]) + as_int_model(am[1]))),
            )
        }),
{
    match st {
        Statement::Def(d) => {
            let name = d.return_var_name@;
            let argms = model_vars(d.args@);
            let am = eval_args_model(argms, c0)->Ok_0;
            assert(d.function is Plus);
            assert(def_post(d.function, argms, name, c0, c1, Ok(())));
            let vm = choose|vm: crate::value::ValueModel|
                #[trigger] apply_ok_value(d.function, am, vm) && crate::script::ctx_after_set(
                    c0,
                    c1,
                    name,
                    vm,
                );
            assert(apply_ok_value(d.function, am, vm) && crate::script::ctx_after_set(
                c0,
                c1,
                name,
                vm,
            ));
            assert(vm == crate::value::ValueModel::Int(
                wrap_i32(as_int_model(am[0]) + as_int_model(am[1])),
            ));
            crate::context::lemma_get_after_set(c0.local.variables@, c1.global.variables@, name, vm);
            assert(c1.lookup(name) == Some(vm));
        },
        Statement::Assert(_) => {
            assert(false);
        },
    }
}

} // verus!
