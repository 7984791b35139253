//! The request template: `${name}` placeholder substitution in path and
//! body, the ready-to-send request, and the binder that projects a
//! response back into the script context.
use crate::config;
use crate::context::ScriptContext;
use crate::error::Error;
use crate::function::find_first;
use crate::http::method_model;
use crate::http::HttpRequest;
use crate::http::HttpResponse;
use crate::http::Method;
use crate::parser::parse_script_model;
use crate::parser::Scripts;
use crate::script::script_run;
use crate::text::chars_of;
use crate::text::string_of;
use crate::text::sub_chars;
use crate::value::as_string_err_msg;
use crate::value::as_string_model;
use crate::value::assoc_find;
use crate::value::string_coercible;
use crate::value::Value;
use crate::value::ValueModel;
use crate::variable::var_not_found_msg;
use vstd::prelude::*;

verus! {

use vstd::string::StringExecFns;

/// What serde_json accepts as a JSON document.
pub uninterp spec fn json_wf(s: Seq<char>) -> bool;

/// Relies on serde_json::from_str::<serde_json::Value>: whether the text
/// parses as a JSON document.
#[verifier::external_body]
fn is_valid_json(s: &str) -> (r: bool)
    ensures
        r == json_wf(s@),
{
    serde_json::from_str::<serde_json::Value>(s).is_ok()
}

/// The `${name}` placeholder names of `s`, in order of occurrence.
/// An unclosed `${` or an empty `${}` stays literal text.
pub open spec fn placeholders(s: Seq<char>) -> Seq<Seq<char>>
    decreases s.len(),
{
    if s.len() < 2 {
        Seq::empty()
    } else if s[0] == '$' && s[1] == '{' {
        let j = find_first(s, seq!['}']);
        if 3 <= j < s.len() {
            seq![s.subrange(2, j)] + placeholders(s.skip(j + 1))
        } else {
            placeholders(s.drop_first())
        }
    } else {
        placeholders(s.drop_first())
    }
}

/// `s` with every placeholder replaced by the string coercion of the
/// context value it names, left to right in a single pass; the first
/// unresolvable or uncoercible name stops the rendering with its message.
pub open spec fn render_model(s: Seq<char>, ctx: ScriptContext) -> Result<Seq<char>, Seq<char>>
    decreases s.len(),
{
    if s.len() < 2 {
        Ok(s)
    } else if s[0] == '$' && s[1] == '{' {
        let j = find_first(s, seq!['}']);
        if 3 <= j < s.len() {
            let name = s.subrange(2, j);
            match ctx.lookup(name) {
                None => Err(var_not_found_msg(name)),
                Some(v) => if !string_coercible(v) {
                    Err(as_string_err_msg(v))
                } else {
                    match render_model(s.skip(j + 1), ctx) {
                        Err(m) => Err(m),
                        Ok(t) => Ok(as_string_model(v) + t),
                    }
                },
            }
        } else {
            match render_model(s.drop_first(), ctx) {
                Err(m) => Err(m),
                Ok(t) => Ok(seq![s[0]] + t),
            }
        }
    } else {
        match render_model(s.drop_first(), ctx) {
            Err(m) => Err(m),
            Ok(t) => Ok(seq![s[0]] + t),
        }
    }
}

/// Renders `s` against `ctx`; mirrors [`render_model`].
fn render_chars(s: &Vec<char>, ctx: &ScriptContext) -> (r: Result<Vec<char>, Error>)
    ensures
        match (r, render_model(s@, *ctx)) {
            (Ok(out), Ok(t)) => out@ == t,
            (Err(e), Err(m)) => e matches Error::ScriptError(mm) && mm@ == m,
            _ => false,
        },
{
    let mut out: Vec<char> = Vec::new();
    let mut i: usize = 0;
    proof {
        assert(s@.skip(0) =~= s@);
        assert(out@ =~= Seq::<char>::empty());
    }
    #[verifier::loop_isolation(false)]
    while i < s.len()
        invariant
            i <= s@.len(),
            render_model(s@, *ctx) == (match render_model(s@.skip(i as int), *ctx) {
                Ok(t) => Ok::<Seq<char>, Seq<char>>(out@ + t),
                Err(m) => Err::<Seq<char>, Seq<char>>(m),
            }),
        decreases s@.len() - i,
    {
        let ghost suffix = s@.skip(i as int);
        proof {
            assert(suffix.drop_first() =~= s@.skip(i + 1));
            if suffix.len() >= 1 {
                assert(suffix[0] == s@[i as int]);
            }
            if suffix.len() >= 2 {
                assert(suffix[1] == s@[i + 1]);
            }
        }
        let mut consumed = false;
        if i + 1 < s.len() && s[i] == '$' && s[i + 1] == '{' {
            let tail = sub_chars(s, i, s.len());
            let close = one_close_brace();
            match crate::function::find_first_exec(&tail, &close) {
                Some(j) => {
                    if 3 <= j {
                        let name_cs = sub_chars(&tail, 2, j);
                        let name = string_of(&name_cs);
                        proof {
                            assert(name@ =~= suffix.subrange(2, j as int));
                        }
                        match ctx.must_get_variable(name.as_str()) {
                            Ok(v) => {
                                match v.as_string() {
                                    Ok(rendered) => {
                                        let rendered_cs = chars_of(rendered.as_str());
                                        let ghost before = out@;
                                        let mut k: usize = 0;
                                        #[verifier::loop_isolation(false)]
                                        while k < rendered_cs.len()
                                            invariant
                                                k <= rendered_cs@.len(),
                                                out@ == before + rendered_cs@.take(k as int),
                                            decreases rendered_cs@.len() - k,
                                        {
                                            out.push(rendered_cs[k]);
                                            proof {
                                                assert(out@ =~= before + rendered_cs@.take(
                                                    k + 1,
                                                ));
                                            }
                                            k = k + 1;
                                        }
                                        proof {
                                            assert(rendered_cs@.take(rendered_cs@.len() as int)
                                                =~= rendered_cs@);
                                            assert(suffix.skip(j + 1) =~= s@.skip(
                                                i + j + 1,
                                            ));
                                            let mr = render_model(s@.skip(i + j + 1), *ctx);
                                            if mr is Ok {
                                                assert((before + rendered_cs@) + mr->Ok_0
                                                    =~= before + (rendered_cs@ + mr->Ok_0));
                                            }
                                        }
                                        i = i + j + 1;
                                        consumed = true;
                                    },
                                    Err(e) => {
                                        return Err(e);
                                    },
                                }
                            },
                            Err(e) => {
                                return Err(e);
                            },
                        }
                    }
                },
                None => {
                },
            }
        }
        if !consumed {
            proof {
                if suffix.len() == 1 {
                    assert(suffix =~= seq![s@[i as int]]);
                    assert(out@ + suffix =~= (out@.push(s@[i as int])) + Seq::<char>::empty());
                }
                let mr = render_model(s@.skip(i + 1), *ctx);
                if mr is Ok {
                    assert((out@.push(s@[i as int])) + mr->Ok_0 =~= out@ + (seq![s@[i as int]]
                        + mr->Ok_0));
                }
            }
            out.push(s[i]);
            i = i + 1;
        }
    }
    proof {
        assert(s@.skip(s@.len() as int).len() == 0);
        assert(out@ + Seq::<char>::empty() =~= out@);
    }
    Ok(out)
}

/// A one-element vector holding `}`.
fn one_close_brace() -> (r: Vec<char>)
    ensures
        r@ == seq!['}'],
{
    let mut v: Vec<char> = Vec::new();
    v.push('}');
    proof {
        assert(v@ =~= seq!['}']);
    }
    v
}

/// The placeholder names of `s`, in order; mirrors [`placeholders`].
pub fn find_variable_name(s: &str) -> (r: Vec<String>)
    ensures
        r.deep_view() == placeholders(s@),
{
    let cs = chars_of(s);
    let mut found: Vec<String> = Vec::new();
    let mut i: usize = 0;
    proof {
        assert(cs@.skip(0) =~= cs@);
        assert(found.deep_view() =~= Seq::<Seq<char>>::empty());
        assert(Seq::<Seq<char>>::empty() + placeholders(cs@) =~= placeholders(cs@));
    }
    #[verifier::loop_isolation(false)]
    while i < cs.len()
        invariant
            i <= cs@.len(),
            cs@ == s@,
            placeholders(s@) == found.deep_view() + placeholders(cs@.skip(i as int)),
        decreases cs@.len() - i,
    {
        let ghost suffix = cs@.skip(i as int);
        proof {
            assert(suffix.drop_first() =~= cs@.skip(i + 1));
            if suffix.len() >= 1 {
                assert(suffix[0] == cs@[i as int]);
            }
            if suffix.len() >= 2 {
                assert(suffix[1] == cs@[i + 1]);
            }
        }
        let mut consumed = false;
        if i + 1 < cs.len() && cs[i] == '$' && cs[i + 1] == '{' {
            let tail = sub_chars(&cs, i, cs.len());
            let close = one_close_brace();
            match crate::function::find_first_exec(&tail, &close) {
                Some(j) => {
                    if 3 <= j {
                        let name_cs = sub_chars(&tail, 2, j);
                        let name = string_of(&name_cs);
                        let ghost before = found.deep_view();
                        found.push(name);
                        proof {
                            assert(name_cs@ =~= suffix.subrange(2, j as int));
                            assert(found.deep_view() =~= before.push(suffix.subrange(2, j as int)));
                            assert(suffix.skip(j + 1) =~= cs@.skip(i + j + 1));
                            assert(before + (seq![suffix.subrange(2, j as int)] + placeholders(
                                cs@.skip(i + j + 1),
                            )) =~= found.deep_view() + placeholders(cs@.skip(i + j + 1)));
                        }
                        i = i + j + 1;
                        consumed = true;
                    }
                },
                None => {
                },
            }
        }
        if !consumed {
            i = i + 1;
        }
    }
    proof {
        assert(placeholders(cs@.skip(cs@.len() as int)) =~= Seq::<Seq<char>>::empty());
        assert(found.deep_view() + Seq::<Seq<char>>::empty() =~= found.deep_view());
    }
    found
}

} // verus!

verus! {

use crate::variable::items_of;
use crate::script::ctx_after_set;
use crate::value::assoc_set;

/// The lowercase form of a header name.
pub uninterp spec fn lower_of(s: Seq<char>) -> Seq<char>;

/// Relies on str::to_lowercase: the result depends on the characters
/// alone.
#[verifier::external_body]
fn lowercase(s: &str) -> (r: String)
    ensures
        r@ == lower_of(s@),
{
    s.to_lowercase()
}

/// One header folded into the accumulated header map: appended to the
/// list already under its lowercased name, or starting a fresh list.
pub open spec fn bind_one(
    acc: Seq<(Seq<char>, ValueModel)>,
    ln: Seq<char>,
    v: Seq<char>,
) -> Seq<(Seq<char>, ValueModel)> {
    match assoc_find(acc, ln) {
        Some(ex) => assoc_set(acc, ln, ValueModel::List(items_of(ex).push(ValueModel::String(v)))),
        None => assoc_set(acc, ln, ValueModel::List(seq![ValueModel::String(v)])),
    }
}

/// The response headers projected into the script value domain:
/// lowercased names mapping to the lists of values in arrival order.
pub open spec fn bind_headers(hs: Seq<(Seq<char>, Seq<char>)>) -> Seq<(Seq<char>, ValueModel)>
    decreases hs.len(),
{
    if hs.len() == 0 {
        Seq::empty()
    } else {
        bind_one(bind_headers(hs.drop_last()), lower_of(hs.last().0), hs.last().1)
    }
}

/// A request template, immutable after construction: the configured
/// method, path and body with their placeholder names, the timeout, and
/// the optional before/after scripts.
#[derive(Debug)]
pub struct Request {

    pub name: String,
    pub base_url: String,
    pub method: Method,
    pub headers: Option<Vec<(String, String)>>,
    pub uri: String,
    pub uri_var_name: Vec<String>,
    pub body: Option<String>,
    pub body_var_name: Vec<String>,
    pub timeout_millis: u64,
    pub before: Option<Scripts>,
    pub after: Option<Scripts>,
}

/// A copy of an optional header list, pair by pair.
fn clone_headers(h: &Option<Vec<(String, String)>>) -> (r: Option<Vec<(String, String)>>)
    ensures
        r.deep_view() == h.deep_view(),
{
    match h {
        None => None,
        Some(pairs) => {
            let mut out: Vec<(String, String)> = Vec::new();
            let mut i: usize = 0;
            #[verifier::loop_isolation(false)]
            while i < pairs.len()
                invariant
                    i <= pairs@.len(),
                    out.deep_view() =~= pairs@.take(i as int).map_values(
                        |p: (String, String)| p.deep_view(),
                    ),
                decreases pairs@.len() - i,
            {
                broadcast use Seq::lemma_push_map_commute, Seq::lemma_map_take_succ;

                let k = pairs[i].0.clone();
                let v = pairs[i].1.clone();
                out.push((k, v));
                proof {
                    assert(out.deep_view() =~= pairs@.take(i + 1).map_values(
                        |p: (String, String)| p.deep_view(),
                    ));
                }
                i = i + 1;
            }
            proof {
                assert(pairs@.take(pairs@.len() as int) =~= pairs@);
                assert(out.deep_view() =~= pairs.deep_view());
            }
            Some(out)
        },
    }
}

/// A copy of a string.
fn clone_string(s: &String) -> (r: String)
    ensures
        r@ == s@,
{
    let cs = chars_of(s.as_str());
    string_of(&cs)
}

impl Request {
    /// What construction from a configured request guarantees: every
    /// field mirrors its configuration, the placeholder-name lists are
    /// exactly the placeholders of path and body, and the before/after
    /// scripts are the parses of their configured text.
    pub open spec fn built_from(self, config: config::Request, base_url: Seq<char>) -> bool {
        &&& self.name@ == config.name@
        &&& self.base_url@ == base_url
        &&& method_model(config.method@) == Some(self.method)
        &&& self.uri@ == config.path@
        &&& self.uri_var_name.deep_view() == placeholders(config.path@)
        &&& match (config.body, self.body) {
            (Some(b), Some(rb)) => rb@ == b@ && self.body_var_name.deep_view() == placeholders(
                b@,
            ),
            (None, None) => self.body_var_name.deep_view() == placeholders(Seq::empty()),
            _ => false,
        }
        &&& self.headers.deep_view() == config.headers.deep_view()
        &&& self.timeout_millis == config.timeout_millis
        &&& match (config.before, self.before) {
            (Some(s), Some(sc)) => parse_script_model(s.scripts@) == Ok::<
                Seq<crate::script::StatementModel>,
                Seq<char>,
            >(sc.models()),
            (None, None) => true,
            _ => false,
        }
        &&& match (config.after, self.after) {
            (Some(s), Some(sc)) => parse_script_model(s.scripts@) == Ok::<
                Seq<crate::script::StatementModel>,
                Seq<char>,
            >(sc.models()),
            (None, None) => true,
            _ => false,
        }
    }

    /// Builds the template from its configuration: placeholder names are
    /// collected from path and body, the before/after scripts are parsed,
    /// and the method name is checked.  A script grammar error or an
    /// unknown method refuses the template.
    pub fn new(config: &config::Request, base_url: &str) -> (r: Result<Request, Error>)
        ensures
            r matches Ok(req) ==> req.built_from(*config, base_url@),
            r is Ok <==> {
                &&& (config.before matches Some(s) ==> parse_script_model(s.scripts@) is Ok)
                &&& (config.after matches Some(s) ==> parse_script_model(s.scripts@) is Ok)
                &&& method_model(config.method@) is Some
            },
            r matches Err(e) ==> !(e is AssertError),
    {
        let body_text: String = match &config.body {
            Some(b) => clone_string(b),
            None => String::new(),
        };
        proof {
            reveal_strlit("");
        }
        let body_var_name = find_variable_name(body_text.as_str());
        let uri_var_name = find_variable_name(config.path.as_str());
        let before = match &config.before {
            Some(s) => {
                match Scripts::parse(s.scripts.as_str()) {
                    Ok(sc) => Some(sc),
                    Err(e) => {
                        return Err(e);
                    },
                }
            },
            None => None,
        };
        let after = match &config.after {
            Some(s) => {
                match Scripts::parse(s.scripts.as_str()) {
                    Ok(sc) => Some(sc),
                    Err(e) => {
                        return Err(e);
                    },
                }
            },
            None => None,
        };
        let method = match Method::from_str(config.method.as_str()) {
            Ok(m) => m,
            Err(e) => {
                return Err(e);
            },
        };
        let body = match &config.body {
            Some(b) => Some(clone_string(b)),
            None => None,
        };
        Ok(
            Request {
                name: clone_string(&config.name),
                base_url: String::from_str(base_url),
                method,
                headers: clone_headers(&config.headers),
                uri: clone_string(&config.path),
                uri_var_name,
                body,
                body_var_name,
                timeout_millis: config.timeout_millis,
                before,
                after,
            },
        )
    }

    /// Renders the template against `ctx` into a ready-to-send request:
    /// placeholders in body and path are substituted, the substituted
    /// body must be JSON, and the URI is the base URL followed by the
    /// substituted path.
    pub fn new_http_request(&mut self, ctx: &ScriptContext) -> (r: Result<HttpRequest, Error>)
        ensures
            *final(self) == *old(self),
            r matches Ok(req) ==> {
                &&& match (&old(self).body, &req.body) {
                    (Some(b), Some(rb)) => render_model(b@, *ctx) == Ok::<Seq<char>, Seq<char>>(
                        rb@,
                    ) && json_wf(rb@),
                    (None, None) => true,
                    _ => false,
                }
                &&& render_model(old(self).uri@, *ctx) matches Ok(u) && req.uri@
                    == old(self).base_url@ + u
                &&& req.method == old(self).method
                &&& req.headers.deep_view() == old(self).headers.deep_view()
                &&& req.timeout_millis == old(self).timeout_millis
            },
            r is Ok <==> {
                &&& (old(self).body matches Some(b) ==> (render_model(b@, *ctx) matches Ok(t)
                    && json_wf(t)))
                &&& render_model(old(self).uri@, *ctx) is Ok
            },
            r matches Err(e) ==> !(e is AssertError),
    {
        let body: Option<String> = match &self.body {
            Some(b) => {
                let bc = chars_of(b.as_str());
                match render_chars(&bc, ctx) {
                    Ok(rendered) => {
                        let text = string_of(&rendered);
                        if !is_valid_json(text.as_str()) {
                            return Err(
                                Error::ScriptError(
                                    String::from_str("invalid JSON in request body"),
                                ),
                            );
                        }
                        Some(text)
                    },
                    Err(e) => {
                        return Err(e);
                    },
                }
            },
            None => None,
        };
        let uri_cs = chars_of(self.uri.as_str());
        let rendered_uri = match render_chars(&uri_cs, ctx) {
            Ok(u) => u,
            Err(e) => {
                return Err(e);
            },
        };
        let uri = self.base_url.clone().concat(string_of(&rendered_uri).as_str());
        Ok(
            HttpRequest {
                uri,
                method: self.method,
                headers: clone_headers(&self.headers),
                body,
                timeout_millis: self.timeout_millis,
            },
        )
    }

    /// Binds a response into the context: `responseStatus` becomes the
    /// status code, `responseHeaders` the lowercased multi-valued header
    /// map, and `response` the projected body when one is present.
    pub fn from_response(&self, ctx: &mut ScriptContext, response: &HttpResponse) -> (r: Result<
        (),
        Error,
    >)
        ensures
            r is Ok,
            exists|c1: ScriptContext, c2: ScriptContext|
                {
                    &&& #[trigger] ctx_after_set(
                        *old(ctx),
                        c1,
                        "responseStatus"@,
                        ValueModel::Int(response.status as int),
                    )
                    &&& #[trigger] ctx_after_set(
                        c1,
                        c2,
                        "responseHeaders"@,
                        ValueModel::Dict(bind_headers(response.headers.deep_view())),
                    )
                    &&& match response.body {
                        Some(b) => ctx_after_set(c2, *final(ctx), "response"@, b.model()),
                        None => *final(ctx) == c2,
                    }
                },
    {
        broadcast use crate::value::lemma_model_seq_props;

        let status = response.status as i32;
        ctx.set_variable("responseStatus", Value::Int(status));
        let ghost c1 = *ctx;
        proof {
            assert(ctx_after_set(
                *old(ctx),
                c1,
                "responseStatus"@,
                ValueModel::Int(response.status as int),
            ));
        }
        let ghost hs = response.headers.deep_view();
        let mut header_map = crate::value::VarMap::new();
        let mut i: usize = 0;
        proof {
            assert(hs.take(0) =~= Seq::<(Seq<char>, Seq<char>)>::empty());
            assert(header_map@ =~= bind_headers(hs.take(0)));
        }
        #[verifier::loop_isolation(false)]
        while i < response.headers.len()
            invariant
                i <= hs.len(),
                hs == response.headers.deep_view(),
                hs.len() == response.headers@.len(),
                header_map@ == bind_headers(hs.take(i as int)),
            decreases hs.len() - i,
        {
            proof {
                assert(hs[i as int] == (response.headers@[i as int].0@, response.headers@[i as int].1@));
                assert(hs.take(i + 1).drop_last() =~= hs.take(i as int));
                assert(hs.take(i + 1).last() == hs[i as int]);
            }
            let lname = lowercase(response.headers[i].0.as_str());
            let val = clone_string(&response.headers[i].1);
            let existing = header_map.get(lname.as_str());
            let mut list: Vec<Value> = match existing {
                Some(v) => {
                    match v.as_list() {
                        Ok(l) => l,
                        Err(_) => Vec::new(),
                    }
                },
                None => Vec::new(),
            };
            list.push(Value::String(val));
            proof {
                let ghost acc = bind_headers(hs.take(i as int));
                match assoc_find(acc, lower_of(response.headers@[i as int].0@)) {
                    Some(ex) => {
                        assert(crate::value::Value::model_seq(list@) =~= items_of(ex).push(
                            ValueModel::String(response.headers@[i as int].1@),
                        ));
                    },
                    None => {
                        assert(crate::value::Value::model_seq(list@) =~= seq![
                            ValueModel::String(response.headers@[i as int].1@),
                        ]);
                    },
                }
            }
            header_map.insert(lname.as_str(), Value::List(list));
            i = i + 1;
        }
        proof {
            assert(hs.take(hs.len() as int) =~= hs);
        }
        ctx.set_variable("responseHeaders", Value::Dict(header_map));
        let ghost c2 = *ctx;
        proof {
            assert(ctx_after_set(
                c1,
                c2,
                "responseHeaders"@,
                ValueModel::Dict(bind_headers(response.headers.deep_view())),
            ));
        }
        match &response.body {
            Some(b) => {
                let copy = b.clone();
                ctx.set_variable("response", copy);
                proof {
                    assert(ctx_after_set(c2, *ctx, "response"@, b.model()));
                }
            },
            None => {
            },
        }
        Ok(())
    }

    /// Runs the before script, when one is configured.
    pub fn run_before(&self, ctx: &mut ScriptContext) -> (r: Result<(), Error>)
        ensures
            match &self.before {
                Some(sc) => script_run(sc.scripts@, *old(ctx), *final(ctx), r),
                None => r is Ok && *final(ctx) == *old(ctx),
            },
    {
        match &self.before {
            Some(s) => s.execute(ctx),
            None => Ok(()),
        }
    }

    /// Runs the after script, when one is configured.
    pub fn run_after(&self, ctx: &mut ScriptContext) -> (r: Result<(), Error>)
        ensures
            match &self.after {
                Some(sc) => script_run(sc.scripts@, *old(ctx), *final(ctx), r),
                None => r is Ok && *final(ctx) == *old(ctx),
            },
    {
        match &self.after {
            Some(s) => s.execute(ctx),
            None => Ok(()),
        }
    }
}

} // verus!

verus! {

/// Whether every placeholder of `s` resolves in `ctx` to a
/// string-coercible value.
pub open spec fn resolves_all(s: Seq<char>, ctx: ScriptContext) -> bool {
    forall|i: int|
        0 <= i < placeholders(s).len() ==> (#[trigger] ctx.lookup(placeholders(s)[i]) matches Some(
            v,
        ) && string_coercible(v))
}

/// Placeholder fidelity, absence half: text without placeholders renders
/// unchanged.
pub proof fn lemma_render_no_placeholders(s: Seq<char>, ctx: ScriptContext)
    requires
        placeholders(s).len() == 0,
    ensures
        render_model(s, ctx) == Ok::<Seq<char>, Seq<char>>(s),
    decreases s.len(),
{
    if s.len() < 2 {
    } else if s[0] == '$' && s[1] == '{' && 3 <= find_first(s, seq!['}']) < s.len() {
        assert(placeholders(s).len() >= 1);
    } else {
        lemma_render_no_placeholders(s.drop_first(), ctx);
        assert(seq![s[0]] + s.drop_first() =~= s);
    }
}

/// Placeholder fidelity, resolution half: rendering succeeds exactly when
/// every placeholder resolves to a string-coercible value; a single
/// unresolvable placeholder fails the whole request.
pub proof fn lemma_render_ok_iff_resolvable(s: Seq<char>, ctx: ScriptContext)
    ensures
        render_model(s, ctx) is Ok <==> resolves_all(s, ctx),
    decreases s.len(),
{
    if s.len() < 2 {
    } else if s[0] == '$' && s[1] == '{' && 3 <= find_first(s, seq!['}']) < s.len() {
        let j = find_first(s, seq!['}']);
        let name = s.subrange(2, j);
        let rest = s.skip(j + 1);
        lemma_render_ok_iff_resolvable(rest, ctx);
        assert(placeholders(s) == seq![name] + placeholders(rest));
        assert(placeholders(s)[0] == name);
        assert(forall|i: int|
            0 <= i < placeholders(rest).len() ==> placeholders(s)[i + 1] == #[trigger] placeholders(
                rest,
            )[i]);
        if render_model(s, ctx) is Ok {
            assert forall|i: int| 0 <= i < placeholders(s).len() implies (#[trigger] ctx.lookup(
                placeholders(s)[i],
            ) matches Some(v) && string_coercible(v)) by {
                if i > 0 {
                    assert(placeholders(s)[i] == placeholders(rest)[i - 1]);
                }
            }
        }
        if resolves_all(s, ctx) {
            assert(ctx.lookup(placeholders(s)[0]) matches Some(v) && string_coercible(v));
            assert forall|i: int| 0 <= i < placeholders(rest).len() implies (
            #[trigger] ctx.lookup(placeholders(rest)[i]) matches Some(v) && string_coercible(
                v,
            )) by {
                assert(placeholders(rest)[i] == placeholders(s)[i + 1]);
                assert(ctx.lookup(placeholders(s)[i + 1]) matches Some(v) && string_coercible(v));
            }
        }
    } else {
        lemma_render_ok_iff_resolvable(s.drop_first(), ctx);
        assert(placeholders(s) == placeholders(s.drop_first()));
    }
}

/// Placeholder fidelity, substitution half: a placeholder at the front
/// renders to exactly the string coercion of its value, followed by the
/// rendering of the remainder — the value lands literally, and nothing
/// else changes.
pub proof fn lemma_render_head_placeholder(
    name: Seq<char>,
    rest: Seq<char>,
    ctx: ScriptContext,
    v: ValueModel,
)
    requires
        name.len() > 0,
        forall|i: int| 0 <= i < name.len() ==> name[i] != '}',
        ctx.lookup(name) == Some(v),
        string_coercible(v),
    ensures
        render_model(seq!['$', '{'] + name + seq!['}'] + rest, ctx) == (match render_model(
            rest,
            ctx,
        ) {
            Ok(t) => Ok::<Seq<char>, Seq<char>>(as_string_model(v) + t),
            Err(m) => Err::<Seq<char>, Seq<char>>(m),
        }),
{
    let s = seq!['$', '{'] + name + seq!['}'] + rest;
    let j: int = name.len() as int + 2;
    assert(s[0] == '$');
    assert(s[1] == '{');
    assert(s[j] == '}');
    assert(s.subrange(j, j + 1) =~= seq!['}']);
    assert(crate::function::match_at(s, seq!['}'], j));
    assert forall|k: int| 0 <= k < j implies !crate::function::match_at(s, seq!['}'], k) by {
        if k >= 2 {
            assert(s[k] == name[k - 2]);
            assert(s.subrange(k, k + 1)[0] == s[k]);
        } else {
            assert(s.subrange(k, k + 1)[0] == s[k]);
        }
    }
    crate::function::lemma_find_first_at(s, seq!['}'], j);
    assert(s.subrange(2, j) =~= name);
    assert(s.skip(j + 1) =~= rest);
}

} // verus!
