//! Configuration data as the runner consumes it: plain values only.
//! Loading the YAML document, parsing `humantime` durations and applying
//! dotted-path overrides to the raw document happen outside the library;
//! what arrives here is already plain.
use crate::error::Error;
use crate::text::chars_of;
use crate::text::parse_i64_chars;
use crate::text::parse_i64_model;
use crate::text::string_of;
use vstd::prelude::*;

verus! {

/// Log verbosity, mirrored into the logger by the embedding program.
#[derive(Debug, PartialEq, Eq, Structural, Copy, Clone)]
pub enum LogLevel {
    Off,
    Error,
    Warn,
    Info,
    Debug,
    Trace,
}

/// The whole configuration document.
#[derive(Debug, Clone)]
pub struct Config {
    pub log_level: LogLevel,
    pub parallel: u8,
    pub runner: RunnerConfig,
}

/// The runner section: rate, duration, batch sizing, the base URL, the
/// global init script and the request mix.
#[derive(Debug, Clone)]
pub struct RunnerConfig {
    pub target_rps: u32,
    pub duration_millis: u64,
    pub batch_size: BatchSize,
    pub base_url: String,
    pub global: Global,
    pub requests: Vec<Request>,
}

/// Batch sizing: a fixed size, or `auto` (derived from the target rate).
#[derive(Debug, Clone)]
pub enum BatchSize {
    Auto(String),
    Fixed(u32),
}

/// The global section: the script run once per worker before the load
/// starts, whose bindings become the worker's global variables.
#[derive(Debug, Clone)]
pub struct Global {
    pub scripts: String,
}

/// One request template as configured: method and path, optional headers
/// (a list of single pairs, so a name may repeat), optional body text,
/// a timeout, and optional before/after scripts.
#[derive(Debug, Clone)]
pub struct Request {
    pub name: String,
    pub method: String,
    pub path: String,
    pub headers: Option<Vec<(String, String)>>,
    pub body: Option<String>,
    pub timeout_millis: u64,
    pub before: Option<Script>,
    pub after: Option<Script>,
}

/// A block of script text.
#[derive(Debug, Clone)]
pub struct Script {
    pub scripts: String,
}

/// How many `=` characters `s` holds.
pub open spec fn count_char(s: Seq<char>, c: char) -> int
    decreases s.len(),
{
    if s.len() == 0 {
        0
    } else {
        count_char(s.drop_last(), c) + if s.last() == c {
            1int
        } else {
            0int
        }
    }
}

/// First index of `c` in `s`, or `s.len()` when absent.
pub open spec fn first_index_of(s: Seq<char>, c: char) -> int
    decreases s.len(),
{
    if s.len() == 0 {
        0
    } else if s[0] == c {
        0
    } else {
        1 + first_index_of(s.drop_first(), c)
    }
}

/// Splits a `key=value` override argument.  `Ok` exactly when the text
/// holds a single `=`; the key is what stands before it, the value what
/// stands after.
pub fn parse_override(override_str: &str) -> (r: Result<(String, String), Error>)
    ensures
        r is Ok <==> count_char(override_str@, '=') == 1,
        r matches Ok((k, v)) ==> {
            let i = first_index_of(override_str@, '=');
            k@ == override_str@.take(i) && v@ == override_str@.skip(i + 1)
        },
        r matches Err(e) ==> e matches Error::ConfigError(m) && m@ == "Invalid override"@,
{
    let cs = chars_of(override_str);
    let ghost s = override_str@;
    let mut eq_count: usize = 0;
    let mut eq_pos: usize = 0;
    let mut i: usize = 0;
    #[verifier::loop_isolation(false)]
    while i < cs.len()
        invariant
            i <= cs.len(),
            eq_count <= i,
            eq_count == count_char(s.take(i as int), '='),
            eq_count > 0 ==> (eq_pos < i && s[eq_pos as int] == '=' && forall|j: int|
                0 <= j < eq_pos ==> s[j] != '='),
            eq_count == 0 ==> forall|j: int| 0 <= j < i ==> s[j] != '=',
        decreases cs.len() - i,
    {
        if cs[i] == '=' {
            if eq_count == 0 {
                eq_pos = i;
            }
            eq_count = eq_count + 1;
        }
        proof {
            assert(s.take(i + 1).drop_last() =~= s.take(i as int));
            assert(s.take(i + 1).last() == s[i as int]);
        }
        i = i + 1;
    }
    proof {
        assert(s.take(cs.len() as int) =~= s);
    }
    if eq_count != 1 {
        return Err(Error::ConfigError(String::from_str("Invalid override")));
    }
    proof {
        lemma_first_index_prefix_free(s, eq_pos as int);
    }
    let mut key_chars: Vec<char> = Vec::new();
    let mut j: usize = 0;
    #[verifier::loop_isolation(false)]
    while j < eq_pos
        invariant
            j <= eq_pos,
            key_chars@ == s.take(j as int),
        decreases eq_pos - j,
    {
        key_chars.push(cs[j]);
        proof {
            assert(key_chars@ =~= s.take(j + 1));
        }
        j = j + 1;
    }
    let mut val_chars: Vec<char> = Vec::new();
    let mut m: usize = eq_pos + 1;
    #[verifier::loop_isolation(false)]
    while m < cs.len()
        invariant
            eq_pos + 1 <= m <= cs.len(),
            val_chars@ == s.subrange(eq_pos + 1, m as int),
        decreases cs.len() - m,
    {
        val_chars.push(cs[m]);
        proof {
            assert(val_chars@ =~= s.subrange(eq_pos + 1, m + 1));
        }
        m = m + 1;
    }
    proof {
        assert(s.subrange(eq_pos + 1, s.len() as int) =~= s.skip(eq_pos + 1));
    }
    Ok((string_of(&key_chars), string_of(&val_chars)))
}

proof fn lemma_first_index_prefix_free(s: Seq<char>, p: int)
    requires
        0 <= p < s.len(),
        forall|j: int| 0 <= j < p ==> s[j] != '=',
        s[p] == '=',
    ensures
        first_index_of(s, '=') == p,
    decreases p,
{
    if p > 0 {
        assert(forall|j: int| 0 <= j < p - 1 ==> s.drop_first()[j] == #[trigger] s[j + 1]);
        assert(s.drop_first()[p - 1] == s[p]);
        lemma_first_index_prefix_free(s.drop_first(), p - 1);
    }
}

/// An override value after coercion: text that parses as a decimal `i64`
/// becomes a number, anything else stays text.
#[derive(Debug)]
pub enum OverrideValue {
    Number(i64),
    Text(String),
}

/// Coerces an override value the way the configuration layer does.
pub fn classify_override_value(value: &str) -> (r: OverrideValue)
    ensures
        match r {
            OverrideValue::Number(n) => parse_i64_model(value@) == Some(n as int),
            OverrideValue::Text(t) => parse_i64_model(value@) is None && t@ == value@,
        },
{
    let cs = chars_of(value);
    match parse_i64_chars(&cs) {
        Some(n) => OverrideValue::Number(n),
        None => OverrideValue::Text(string_of(&cs)),
    }
}

} // verus!
