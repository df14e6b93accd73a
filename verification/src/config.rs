//! Application configuration: parsing and defaulting of the environment
//! values the embedding application reads.

use vstd::prelude::*;
use crate::strutil::{str_chars, str_eq, string_from_chars, u64_to_string, decimal_digits};
use crate::text::trim_spec;
use crate::text::trim_chars;
use vstd::string::StringExecFns;

verus! {

// ----------------------------------------------------------------------
// Decimal parsing
// ----------------------------------------------------------------------

pub open spec fn is_digit(c: char) -> bool {
    0x30 <= (c as u32) <= 0x39
}

pub open spec fn digit_of(c: char) -> int {
    (c as u32) - 0x30
}

pub open spec fn all_digits(s: Seq<char>) -> bool {
    forall|i: int| 0 <= i < s.len() ==> is_digit(#[trigger] s[i])
}

/// The value of a digit string, most significant digit first.
pub open spec fn digits_value(s: Seq<char>) -> int
    decreases s.len(),
{
    if s.len() == 0 {
        0
    } else {
        digits_value(s.drop_last()) * 10 + digit_of(s.last())
    }
}

/// What a decimal field parses to: the number when the text is all digits,
/// nonempty, and within the bound.
pub open spec fn parse_decimal_spec(s: Seq<char>, max: int) -> Option<int> {
    if s.len() >= 1 && all_digits(s) && digits_value(s) <= max {
        Some(digits_value(s))
    } else {
        None
    }
}

proof fn lemma_digits_value_nonneg(s: Seq<char>)
    requires
        all_digits(s),
    ensures
        digits_value(s) >= 0,
    decreases s.len(),
{
    if s.len() > 0 {
        assert(all_digits(s.drop_last())) by {
            assert(forall|i: int| 0 <= i < s.len() - 1 ==> s.drop_last()[i] == s[i]);
        }
        lemma_digits_value_nonneg(s.drop_last());
    }
}

proof fn lemma_digits_value_extend(s: Seq<char>, i: int)
    requires
        all_digits(s),
        0 <= i <= s.len(),
    ensures
        digits_value(s) >= digits_value(s.take(i)),
    decreases s.len() - i,
{
    if i < s.len() {
        lemma_digits_value_extend(s, i + 1);
        assert(s.take(i + 1).drop_last() =~= s.take(i));
        assert(s.take(i + 1).last() == s[i]);
        assert(all_digits(s.take(i))) by {
            assert(forall|k: int| 0 <= k < i ==> s.take(i)[k] == s[k]);
        }
        lemma_digits_value_nonneg(s.take(i));
        assert(digits_value(s.take(i + 1)) == digits_value(s.take(i)) * 10 + digit_of(s[i]));
        assert(is_digit(s[i]));
        assert(digit_of(s[i]) >= 0);
        assert(digits_value(s.take(i)) * 10 >= digits_value(s.take(i))) by (nonlinear_arith)
            requires
                digits_value(s.take(i)) >= 0,
        ;
        assert(digits_value(s.take(i + 1)) >= digits_value(s.take(i)));
    } else {
        assert(s.take(i) =~= s);
    }
}

/// Parse an unsigned decimal field, rejecting values beyond `max`.
pub fn parse_decimal(s: &str, max: u64) -> (r: Option<u64>)
    requires
        max <= 1_000_000_000_000,
    ensures
        match r {
            Some(v) => parse_decimal_spec(s@, max as int) == Some(v as int),
            None => parse_decimal_spec(s@, max as int) is None,
        },
{
    let v = str_chars(s);
    let n = v.len();
    if n == 0 {
        return None;
    }
    let mut acc: u64 = 0;
    let mut i: usize = 0;
    while i < n
        invariant
            i <= n,
            n == v@.len(),
            n >= 1,
            v@ == s@,
            all_digits(v@.take(i as int)),
            acc == digits_value(v@.take(i as int)),
            acc <= max,
            max <= 1_000_000_000_000,
        decreases n - i,
    {
        let c = v[i];
        let u = c as u32;
        if u < 0x30 || u > 0x39 {
            proof {
                assert(!is_digit(v@[i as int]));
                assert(!all_digits(v@));
                assert(parse_decimal_spec(s@, max as int) is None);
            }
            return None;
        }
        let d: u64 = (u - 0x30) as u64;
        proof {
            assert(v@.take(i + 1).drop_last() =~= v@.take(i as int));
            assert(forall|k: int| 0 <= k < i ==> v@.take(i + 1)[k] == v@.take(i as int)[k]);
            assert(v@.take(i + 1).last() == v@[i as int]);
            assert(is_digit(v@[i as int]));
            assert(digit_of(v@[i as int]) == d);
            assert(all_digits(v@.take(i + 1)));
            assert(digits_value(v@.take(i + 1)) == acc * 10 + d);
        }
        if d > max || acc > (max - d) / 10 {
            // the value already exceeds the bound here, and later digits
            // only grow it further
            proof {
                assert(acc * 10 + d > max) by (nonlinear_arith)
                    requires
                        d > max || acc > (max as int - d) / 10,
                        0 <= d <= 9,
                        acc >= 0,
                        max >= 0,
                ;
                if all_digits(v@) {
                    lemma_digits_value_extend(v@, i + 1);
                    assert(digits_value(v@) >= digits_value(v@.take(i + 1)));
                }
                assert(parse_decimal_spec(s@, max as int) is None);
            }
            return None;
        }
        proof {
            assert(acc * 10 + d <= max) by (nonlinear_arith)
                requires
                    acc <= (max as int - d) / 10,
                    d <= max,
                    0 <= d <= 9,
                    acc >= 0,
                    max >= 0,
            ;
        }
        acc = acc * 10 + d;
        i += 1;
    }
    proof {
        assert(v@.take(n as int) =~= v@);
    }
    Some(acc)
}

// ----------------------------------------------------------------------
// Comma splitting
// ----------------------------------------------------------------------

/// One step of comma splitting: the parts completed so far and the part
/// being accumulated.
pub open spec fn split_step(acc: (Seq<Seq<char>>, Seq<char>), c: char) -> (
    Seq<Seq<char>>,
    Seq<char>,
) {
    if c == ',' {
        (acc.0.push(acc.1), Seq::empty())
    } else {
        (acc.0, acc.1.push(c))
    }
}

pub open spec fn split_fold(s: Seq<char>, i: int) -> (Seq<Seq<char>>, Seq<char>)
    decreases i,
{
    if i <= 0 {
        (Seq::empty(), Seq::empty())
    } else {
        split_step(split_fold(s, i - 1), s[i - 1])
    }
}

/// The comma-separated parts of `s`, each trimmed.
pub open spec fn split_trimmed(s: Seq<char>) -> Seq<Seq<char>> {
    let f = split_fold(s, s.len() as int);
    f.0.push(f.1).map_values(|p: Seq<char>| trim_spec(p))
}

// ----------------------------------------------------------------------
// Configuration
// ----------------------------------------------------------------------

/// Application configuration.
#[derive(Debug, Clone)]
pub struct Config {
    pub server: ServerConfig,
    pub database: DatabaseConfig,
    pub cors: CorsConfig,
    pub llm: LlmConfig,
}

/// Server configuration.
#[derive(Debug, Clone)]
pub struct ServerConfig {
    /// Host to bind to.
    pub host: String,
    /// Port to listen on.
    pub port: u16,
    /// Log level.
    pub log_level: String,
}

/// Database configuration.
#[derive(Debug, Clone)]
pub struct DatabaseConfig {
    /// Database URL.
    pub url: String,
    /// Maximum number of connections.
    pub max_connections: u32,
}

/// CORS configuration.
#[derive(Debug, Clone)]
pub struct CorsConfig {
    /// Allowed origins ("*" alone means any).
    pub allowed_origins: Vec<String>,
    /// Allow credentials.
    pub allow_credentials: bool,
}

/// Model provider configuration.
#[derive(Debug, Clone)]
pub struct LlmConfig {
    pub anthropic_api_key: Option<String>,
    pub openai_api_key: Option<String>,
    pub google_api_key: Option<String>,
    /// Default model for evaluation.
    pub default_model: String,
    /// Maximum tokens for generation.
    pub max_tokens: u32,
}

/// The raw environment values configuration is parsed from; the embedding
/// application reads them from the process environment.
#[derive(Debug, Default)]
pub struct EnvVars {
    pub host: Option<String>,
    pub port: Option<String>,
    pub log_level: Option<String>,
    pub database_url: Option<String>,
    pub database_max_connections: Option<String>,
    pub cors_origins: Option<String>,
    pub cors_allow_credentials: Option<String>,
    pub anthropic_api_key: Option<String>,
    pub openai_api_key: Option<String>,
    pub google_api_key: Option<String>,
    pub gemini_api_key: Option<String>,
    pub llm_default_model: Option<String>,
    pub llm_max_tokens: Option<String>,
}

/// A decimal field's parsed value, or the default.
pub open spec fn decimal_or(v: Option<String>, max: int, default: int) -> int {
    match v {
        Some(s) => match parse_decimal_spec(s@, max) {
            Some(n) => n,
            None => default,
        },
        None => default,
    }
}

/// A text field's value, or the default.
pub open spec fn text_or(v: Option<String>, default: Seq<char>) -> Seq<char> {
    match v {
        Some(s) => s@,
        None => default,
    }
}

impl ServerConfig {
    fn from_env(host: Option<String>, port: Option<String>, log_level: Option<String>) -> (r:
        ServerConfig)
        ensures
            r.host@ == text_or(host, "0.0.0.0"@),
            r.port == decimal_or(port, 65_535, 3001),
            r.log_level@ == text_or(log_level, "engram_backend=debug,tower_http=debug"@),
    {
        let h: String = match host {
            Some(s) => s,
            None => "0.0.0.0".to_owned(),
        };
        let p: u16 = match port {
            Some(s) => match parse_decimal(s.as_str(), 65_535) {
                Some(v) => v as u16,
                None => 3001,
            },
            None => 3001,
        };
        let l: String = match log_level {
            Some(s) => s,
            None => "engram_backend=debug,tower_http=debug".to_owned(),
        };
        ServerConfig { host: h, port: p, log_level: l }
    }

    /// The address to bind: "host:port".
    pub fn bind_addr(&self) -> (r: String)
        ensures
            r@ == self.host@ + ":"@ + decimal_digits(self.port as int),
    {
        proof {
            reveal_strlit(":");
        }
        let mut s = self.host.clone();
        s.append(":");
        let digits = u64_to_string(self.port as u64);
        s.append(digits.as_str());
        s
    }
}

impl DatabaseConfig {
    fn from_env(url: Option<String>, max_connections: Option<String>) -> (r: DatabaseConfig)
        ensures
            r.url@ == text_or(url, "sqlite:engram.db?mode=rwc"@),
            r.max_connections == decimal_or(max_connections, 0xffff_ffff, 5),
    {
        let u: String = match url {
            Some(s) => s,
            None => "sqlite:engram.db?mode=rwc".to_owned(),
        };
        let m: u32 = match max_connections {
            Some(s) => match parse_decimal(s.as_str(), 0xffff_ffff) {
                Some(v) => v as u32,
                None => 5,
            },
            None => 5,
        };
        DatabaseConfig { url: u, max_connections: m }
    }
}

impl CorsConfig {
    fn from_env(origins: Option<String>, allow_credentials: Option<String>) -> (r: CorsConfig)
        ensures
            ({
                let o = text_or(origins, "*"@);
                &&& (o == "*"@ ==> r.allowed_origins@.len() == 1 && r.allowed_origins@[0]@
                    == "*"@)
                &&& (o != "*"@ ==> {
                    let parts = split_trimmed(o);
                    &&& r.allowed_origins@.len() == parts.len()
                    &&& forall|i: int| 0 <= i < parts.len() ==> (
                    #[trigger] r.allowed_origins@[i])@ == parts[i]
                })
            }),
            r.allow_credentials == ({
                match allow_credentials {
                    Some(s) => s@ == "true"@ || s@ == "1"@,
                    None => false,
                }
            }),
    {
        let o: String = match origins {
            Some(s) => s,
            None => "*".to_owned(),
        };
        let allowed: Vec<String> = if str_eq(o.as_str(), "*") {
            let mut v: Vec<String> = Vec::new();
            v.push("*".to_owned());
            v
        } else {
            split_and_trim(o.as_str())
        };
        let creds: bool = match allow_credentials {
            Some(s) => str_eq(s.as_str(), "true") || str_eq(s.as_str(), "1"),
            None => false,
        };
        CorsConfig { allowed_origins: allowed, allow_credentials: creds }
    }

    /// Whether all origins are allowed: the list is exactly ["*"].
    pub fn is_any_origin(&self) -> (r: bool)
        ensures
            r == (self.allowed_origins@.len() == 1 && self.allowed_origins@[0]@ == "*"@),
    {
        if self.allowed_origins.len() == 1 {
            str_eq(self.allowed_origins[0].as_str(), "*")
        } else {
            false
        }
    }
}

/// Split on commas and trim each part.
fn split_and_trim(s: &str) -> (r: Vec<String>)
    ensures
        r@.len() == split_trimmed(s@).len(),
        forall|i: int| 0 <= i < r@.len() ==> (#[trigger] r@[i])@ == split_trimmed(s@)[i],
{
    let v = str_chars(s);
    let n = v.len();
    let mut parts: Vec<String> = Vec::new();
    let mut current: Vec<char> = Vec::new();
    let mut i: usize = 0;
    while i < n
        invariant
            i <= n,
            n == v@.len(),
            current@ == split_fold(v@, i as int).1,
            parts@.len() == split_fold(v@, i as int).0.len(),
            forall|k: int| 0 <= k < parts@.len() ==> (#[trigger] parts@[k])@ == trim_spec(
                split_fold(v@, i as int).0[k],
            ),
        decreases n - i,
    {
        let c = v[i];
        if c == ',' {
            let ghost pre = parts@;
            let trimmed = trim_chars(&current);
            parts.push(string_from_chars(&trimmed));
            current = Vec::new();
            proof {
                assert forall|k: int| 0 <= k < parts@.len() implies (#[trigger] parts@[k])@
                    == trim_spec(split_fold(v@, i + 1).0[k]) by {
                    if k < pre.len() {
                        assert(parts@[k] == pre[k]);
                    }
                }
            }
        } else {
            current.push(c);
        }
        i += 1;
    }
    let ghost pre = parts@;
    let trimmed = trim_chars(&current);
    parts.push(string_from_chars(&trimmed));
    proof {
        let f = split_fold(v@, n as int);
        assert(split_trimmed(v@).len() == f.0.push(f.1).len());
        assert forall|k: int| 0 <= k < parts@.len() implies (#[trigger] parts@[k])@
            == split_trimmed(v@)[k] by {
            assert(split_trimmed(v@)[k] == trim_spec(f.0.push(f.1)[k]));
            if k < pre.len() {
                assert(parts@[k] == pre[k]);
                assert(f.0.push(f.1)[k] == f.0[k]);
            } else {
                assert(f.0.push(f.1)[k] == f.1);
            }
        }
    }
    parts
}

impl LlmConfig {
    fn from_env(
        anthropic: Option<String>,
        openai: Option<String>,
        google: Option<String>,
        gemini: Option<String>,
        default_model: Option<String>,
        max_tokens: Option<String>,
    ) -> (r: LlmConfig)
        ensures
            r.anthropic_api_key == anthropic,
            r.openai_api_key == openai,
            google is Some ==> r.google_api_key == google,
            google is None ==> r.google_api_key == gemini,
            r.default_model@ == text_or(default_model, "gemini-1.5-flash"@),
            r.max_tokens == decimal_or(max_tokens, 0xffff_ffff, 2048),
    {
        let g: Option<String> = match google {
            Some(k) => Some(k),
            None => gemini,
        };
        let m: String = match default_model {
            Some(s) => s,
            None => "gemini-1.5-flash".to_owned(),
        };
        let t: u32 = match max_tokens {
            Some(s) => match parse_decimal(s.as_str(), 0xffff_ffff) {
                Some(v) => v as u32,
                None => 2048,
            },
            None => 2048,
        };
        LlmConfig {
            anthropic_api_key: anthropic,
            openai_api_key: openai,
            google_api_key: g,
            default_model: m,
            max_tokens: t,
        }
    }

    /// Whether any provider credential is configured.
    pub fn has_any_provider(&self) -> (r: bool)
        ensures
            r == (self.anthropic_api_key is Some || self.openai_api_key is Some
                || self.google_api_key is Some),
    {
        self.anthropic_api_key.is_some() || self.openai_api_key.is_some()
            || self.google_api_key.is_some()
    }
}

impl Config {
    /// Build the configuration from raw environment values, applying the
    /// documented defaults wherever a value is missing or unparsable.
    pub fn from_env(vars: EnvVars) -> (r: Config)
        ensures
            r.server.host@ == text_or(vars.host, "0.0.0.0"@),
            r.server.port == decimal_or(vars.port, 65_535, 3001),
            r.server.log_level@ == text_or(vars.log_level, "engram_backend=debug,tower_http=debug"@),
            r.database.url@ == text_or(vars.database_url, "sqlite:engram.db?mode=rwc"@),
            r.database.max_connections == decimal_or(vars.database_max_connections, 0xffff_ffff, 5),
            ({
                let o = text_or(vars.cors_origins, "*"@);
                &&& (o == "*"@ ==> r.cors.allowed_origins@.len() == 1
                    && r.cors.allowed_origins@[0]@ == "*"@)
                &&& (o != "*"@ ==> {
                    let parts = split_trimmed(o);
                    &&& r.cors.allowed_origins@.len() == parts.len()
                    &&& forall|i: int| 0 <= i < parts.len() ==> (
                    #[trigger] r.cors.allowed_origins@[i])@ == parts[i]
                })
            }),
            r.cors.allow_credentials == ({
                match vars.cors_allow_credentials {
                    Some(s) => s@ == "true"@ || s@ == "1"@,
                    None => false,
                }
            }),
            r.llm.anthropic_api_key == vars.anthropic_api_key,
            r.llm.openai_api_key == vars.openai_api_key,
            vars.google_api_key is Some ==> r.llm.google_api_key == vars.google_api_key,
            vars.google_api_key is None ==> r.llm.google_api_key == vars.gemini_api_key,
            r.llm.default_model@ == text_or(vars.llm_default_model, "gemini-1.5-flash"@),
            r.llm.max_tokens == decimal_or(vars.llm_max_tokens, 0xffff_ffff, 2048),
    {
        Config {
            server: ServerConfig::from_env(vars.host, vars.port, vars.log_level),
            database: DatabaseConfig::from_env(vars.database_url, vars.database_max_connections),
            cors: CorsConfig::from_env(vars.cors_origins, vars.cors_allow_credentials),
            llm: LlmConfig::from_env(
                vars.anthropic_api_key,
                vars.openai_api_key,
                vars.google_api_key,
                vars.gemini_api_key,
                vars.llm_default_model,
                vars.llm_max_tokens,
            ),
        }
    }
}

} // verus!
