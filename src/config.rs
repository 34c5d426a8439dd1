//! Process configuration: server address, cache TTL, ICS sources and the
//! optional OAuth client of the external calendar; defaults, environment
//! overrides and validation.

use crate::datetime::{all_digits, digits_value};
use crate::meeting::opt_view;
use crate::text::{
    append_decimal, chars_of, comma_list, decimal_text, is_blank, is_blank_str, split_comma_list, starts_with, string_views, };
use vstd::prelude::*;
use vstd::string::*;

verus! {

/// Cache TTL used when nothing else is configured, in seconds.
pub const DEFAULT_CACHE_TTL: u64 = 300;

#[derive(Debug, Clone)]
pub struct ServerConfig {
    pub host: String,
    pub port: u16,
    pub cache_ttl_seconds: u64,
}

#[derive(Debug, Clone)]
pub struct IcsConfig {
    pub file_paths: Vec<String>,
}

#[derive(Debug, Clone)]
pub struct GoogleConfig {
    pub client_id: Option<String>,
    pub client_secret: Option<String>,
    pub redirect_uri: Option<String>,
}

#[derive(Debug, Clone)]
pub struct Config {
    pub server: ServerConfig,
    pub ics: IcsConfig,
    pub google: GoogleConfig,
}

/// The environment variables the configuration reads, as found in the process
/// environment (`None` for an unset one).
#[derive(Debug, Clone)]
pub struct EnvVars {
    /// `CALENDAR_MONITOR_HOST`
    pub host: Option<String>,
    /// `CALENDAR_MONITOR_PORT`
    pub port: Option<String>,
    /// `CALENDAR_MONITOR_CACHE_TTL`
    pub cache_ttl: Option<String>,
    /// `ICS_FILE_PATHS`, comma separated
    pub ics_file_paths: Option<String>,
    /// `ICS_FILE_PATH`, a single path
    pub ics_file_path: Option<String>,
    /// `GOOGLE_CLIENT_ID`
    pub google_client_id: Option<String>,
    /// `GOOGLE_CLIENT_SECRET`
    pub google_client_secret: Option<String>,
    /// `GOOGLE_REDIRECT_URI`
    pub google_redirect_uri: Option<String>,
}

#[derive(Debug, Clone, Copy, PartialEq, Eq, Structural)]
pub enum ConfigError {
    /// Neither an ICS path nor a complete OAuth client is configured.
    NoSources,
    /// Some but not all of the three OAuth fields are set.
    IncompleteGoogleOAuth,
    EmptyClientId,
    EmptyClientSecret,
    EmptyRedirectUri,
    /// The redirect URI is not an `http://` or `https://` URL.
    InvalidRedirectUri,
    /// `CALENDAR_MONITOR_PORT` is not a port number.
    InvalidPort,
    /// `CALENDAR_MONITOR_CACHE_TTL` is not a number of seconds.
    InvalidCacheTtl,
}

/// The content of a [`Config`].
pub struct ConfigView {
    pub host: Seq<char>,
    pub port: u16,
    pub cache_ttl_seconds: u64,
    pub file_paths: Seq<Seq<char>>,
    pub client_id: Option<Seq<char>>,
    pub client_secret: Option<Seq<char>>,
    pub redirect_uri: Option<Seq<char>>,
}

impl View for Config {
    type V = ConfigView;

    open spec fn view(&self) -> ConfigView {
        ConfigView {
            host: self.server.host@,
            port: self.server.port,
            cache_ttl_seconds: self.server.cache_ttl_seconds,
            file_paths: string_views(self.ics.file_paths@),
            client_id: opt_view(self.google.client_id),
            client_secret: opt_view(self.google.client_secret),
            redirect_uri: opt_view(self.google.redirect_uri),
        }
    }
}

/// The content of an [`EnvVars`].
pub struct EnvView {
    pub host: Option<Seq<char>>,
    pub port: Option<Seq<char>>,
    pub cache_ttl: Option<Seq<char>>,
    pub ics_file_paths: Option<Seq<char>>,
    pub ics_file_path: Option<Seq<char>>,
    pub google_client_id: Option<Seq<char>>,
    pub google_client_secret: Option<Seq<char>>,
    pub google_redirect_uri: Option<Seq<char>>,
}

impl View for EnvVars {
    type V = EnvView;

    open spec fn view(&self) -> EnvView {
        EnvView {
            host: opt_view(self.host),
            port: opt_view(self.port),
            cache_ttl: opt_view(self.cache_ttl),
            ics_file_paths: opt_view(self.ics_file_paths),
            ics_file_path: opt_view(self.ics_file_path),
            google_client_id: opt_view(self.google_client_id),
            google_client_secret: opt_view(self.google_client_secret),
            google_redirect_uri: opt_view(self.google_redirect_uri),
        }
    }
}

impl Default for EnvVars {
    /// An environment in which none of the variables is set.
    fn default() -> (r: EnvVars)
        ensures
            r@ == (EnvView {
                host: None,
                port: None,
                cache_ttl: None,
                ics_file_paths: None,
                ics_file_path: None,
                google_client_id: None,
                google_client_secret: None,
                google_redirect_uri: None,
            }),
    {
        EnvVars {
            host: None,
            port: None,
            cache_ttl: None,
            ics_file_paths: None,
            ics_file_path: None,
            google_client_id: None,
            google_client_secret: None,
            google_redirect_uri: None,
        }
    }
}

/// The value of an unsigned decimal text as `str::parse` reads it: an optional
/// `+`, then at least one digit; `None` when it is no number or exceeds `max`.
pub open spec fn unsigned_value(s: Seq<char>, max: int) -> Option<int> {
    let body = if s.len() > 0 && s[0] == '+' {
        s.drop_first()
    } else {
        s
    };
    if body.len() > 0 && all_digits(body) && digits_value(body) <= max {
        Some(digits_value(body))
    } else {
        None
    }
}

proof fn lemma_digits_value_prefix(s: Seq<char>, k: int)
    requires
        all_digits(s),
        0 <= k <= s.len(),
    ensures
        0 <= digits_value(s.subrange(0, k)) <= digits_value(s),
    decreases s.len(),
{
    if s.len() > 0 {
        if k == s.len() {
            assert(s.subrange(0, k) =~= s);
            lemma_digits_value_prefix(s.drop_last(), k - 1);
            assert(s.drop_last().subrange(0, k - 1) =~= s.drop_last());
        } else {
            lemma_digits_value_prefix(s.drop_last(), k);
            assert(s.drop_last().subrange(0, k) =~= s.subrange(0, k));
            lemma_digits_value_prefix(s.drop_last(), s.len() - 1);
            assert(s.drop_last().subrange(0, s.len() - 1) =~= s.drop_last());
        }
    } else {
        assert(s.subrange(0, k) =~= s);
    }
}

/// Reads an unsigned decimal number no greater than `max`.
pub fn parse_unsigned(s: &str, max: u64) -> (r: Option<u64>)
    ensures
        match r {
            Some(v) => unsigned_value(s@, max as int) == Some(v as int),
            None => unsigned_value(s@, max as int) is None,
        },
{
    let cs = chars_of(s);
    let start: usize = if cs.len() > 0 && cs[0] == '+' {
        1
    } else {
        0
    };
    let ghost body = if s@.len() > 0 && s@[0] == '+' {
        s@.drop_first()
    } else {
        s@
    };
    assert(body =~= s@.subrange(start as int, s@.len() as int));
    if start >= cs.len() {
        return None;
    }
    let mut acc: u64 = 0;
    let mut i: usize = start;
    while i < cs.len()
        invariant
            cs@ == s@,
            start <= i <= cs@.len(),
            body == s@.subrange(start as int, s@.len() as int),
            body == (if s@.len() > 0 && s@[0] == '+' {
                s@.drop_first()
            } else {
                s@
            }),
            all_digits(body.subrange(0, i - start)),
            acc as int == digits_value(body.subrange(0, i - start)),
            acc <= max,
        decreases cs@.len() - i,
    {
        let c = cs[i];
        assert(body.subrange(0, i + 1 - start).drop_last() =~= body.subrange(0, i - start));
        assert(body[i - start] == c);
        if !('0' <= c && c <= '9') {
            assert(!all_digits(body)) by {
                assert(!crate::datetime::is_digit(body[i - start]));
            }
            return None;
        }
        let d = (c as u32 - '0' as u32) as u64;
        assert(digits_value(body.subrange(0, i + 1 - start)) == acc * 10 + d);
        if d > max || acc > (max - d) / 10 {
            assert(acc * 10 + d > max) by (nonlinear_arith)
                requires
                    d > max || acc > (max - d) / 10,
                    acc >= 0,
                    d >= 0,
            ;
            proof {
                if all_digits(body) {
                    lemma_digits_value_prefix(body, i + 1 - start);
                }
            }
            return None;
        }
        assert(acc * 10 + d <= max) by (nonlinear_arith)
            requires
                d <= max,
                acc <= (max - d) / 10,
        ;
        acc = acc * 10 + d;
        i = i + 1;
    }
    assert(body.subrange(0, i - start) =~= body);
    Some(acc)
}

/// The three OAuth fields, when all are set.
pub open spec fn oauth_fields(c: ConfigView) -> Option<(Seq<char>, Seq<char>, Seq<char>)> {
    match (c.client_id, c.client_secret, c.redirect_uri) {
        (Some(id), Some(secret), Some(uri)) => Some((id, secret, uri)),
        _ => None,
    }
}

pub open spec fn count_set(c: ConfigView) -> int {
    (if c.client_id is Some { 1int } else { 0int }) + (if c.client_secret is Some { 1int } else { 0int })
        + (if c.redirect_uri is Some { 1int } else { 0int })
}

/// The outcome of validating a configuration, checks in order.
pub open spec fn validation(c: ConfigView) -> Result<(), ConfigError> {
    if c.file_paths.len() == 0 && oauth_fields(c) is None {
        Err(ConfigError::NoSources)
    } else if 0 < count_set(c) < 3 {
        Err(ConfigError::IncompleteGoogleOAuth)
    } else {
        match oauth_fields(c) {
            Some((id, secret, uri)) => if is_blank(id) {
                Err(ConfigError::EmptyClientId)
            } else if is_blank(secret) {
                Err(ConfigError::EmptyClientSecret)
            } else if is_blank(uri) {
                Err(ConfigError::EmptyRedirectUri)
            } else if !starts_with(uri, "http://"@) && !starts_with(uri, "https://"@) {
                Err(ConfigError::InvalidRedirectUri)
            } else {
                Ok(())
            },
            None => Ok(()),
        }
    }
}

/// Applies one environment override after another; the first bad number stops
/// the pass, keeping what was applied before it.
pub open spec fn with_env(c: ConfigView, env: EnvView) -> (ConfigView, Result<(), ConfigError>) {
    let c1 = match env.host {
        Some(h) => ConfigView { host: h, ..c },
        None => c,
    };
    match env.port {
        Some(p) if unsigned_value(p, 65535) is None => (c1, Err(ConfigError::InvalidPort)),
        _ => {
            let c2 = match env.port {
                Some(p) => ConfigView { port: unsigned_value(p, 65535)->0 as u16, ..c1 },
                None => c1,
            };
            match env.cache_ttl {
                Some(t) if unsigned_value(t, u64::MAX as int) is None => (c2, Err(ConfigError::InvalidCacheTtl)),
                _ => {
                    let c3 = match env.cache_ttl {
                        Some(t) => ConfigView { cache_ttl_seconds: unsigned_value(t, u64::MAX as int)->0 as u64, ..c2 },
                        None => c2,
                    };
                    let c4 = match env.ics_file_paths {
                        Some(v) => ConfigView { file_paths: comma_list(v), ..c3 },
                        None => c3,
                    };
                    let c5 = match env.ics_file_path {
                        Some(p) => if c4.file_paths.len() == 0 {
                            ConfigView { file_paths: seq![p], ..c4 }
                        } else {
                            c4
                        },
                        None => c4,
                    };
                    let c6 = ConfigView {
                        client_id: if env.google_client_id is Some { env.google_client_id } else { c5.client_id },
                        client_secret: if env.google_client_secret is Some { env.google_client_secret } else { c5.client_secret },
                        redirect_uri: if env.google_redirect_uri is Some { env.google_redirect_uri } else { c5.redirect_uri },
                        ..c5
                    };
                    (c6, Ok(()))
                },
            }
        },
    }
}

fn clone_opt(o: &Option<String>) -> (r: Option<String>)
    ensures
        opt_view(r) == opt_view(*o),
{
    match o {
        Some(s) => Some(s.clone()),
        None => None,
    }
}

fn starts_with_str(s: &str, p: &str) -> (r: bool)
    ensures
        r == starts_with(s@, p@),
{
    let cs = chars_of(s);
    let ps = chars_of(p);
    crate::text::matches_at(&cs, &ps, 0)
}

impl Config {
    /// Checks that some source is configured and that the OAuth client is either
    /// absent or complete, non-blank and redirecting to an HTTP(S) URL.
    pub fn validate(&self) -> (r: Result<(), ConfigError>)
        ensures
            r == validation(self@),
    {
        proof {
            reveal_strlit("http://");
            reveal_strlit("https://");
        }
        if self.ics.file_paths.len() == 0 && self.google_oauth_config().is_none() {
            return Err(ConfigError::NoSources);
        }
        let filled: u8 = (if self.google.client_id.is_some() { 1u8 } else { 0u8 })
            + (if self.google.client_secret.is_some() { 1u8 } else { 0u8 })
            + (if self.google.redirect_uri.is_some() { 1u8 } else { 0u8 });
        if filled > 0 && filled < 3 {
            return Err(ConfigError::IncompleteGoogleOAuth);
        }
        if let (Some(client_id), Some(client_secret), Some(redirect_uri)) = (
            &self.google.client_id,
            &self.google.client_secret,
            &self.google.redirect_uri,
        ) {
            if is_blank_str(client_id.as_str()) {
                return Err(ConfigError::EmptyClientId);
            }
            if is_blank_str(client_secret.as_str()) {
                return Err(ConfigError::EmptyClientSecret);
            }
            if is_blank_str(redirect_uri.as_str()) {
                return Err(ConfigError::EmptyRedirectUri);
            }
            if !starts_with_str(redirect_uri.as_str(), "http://") && !starts_with_str(
                redirect_uri.as_str(),
                "https://",
            ) {
                return Err(ConfigError::InvalidRedirectUri);
            }
        }
        Ok(())
    }

    /// The OAuth client id, secret and redirect URI, when all three are set.
    pub fn google_oauth_config(&self) -> (r: Option<(String, String, String)>)
        ensures
            match r {
                Some(t) => oauth_fields(self@) == Some((t.0@, t.1@, t.2@)),
                None => oauth_fields(self@) is None,
            },
    {
        match (&self.google.client_id, &self.google.client_secret, &self.google.redirect_uri) {
            (Some(id), Some(secret), Some(uri)) => Some((id.clone(), secret.clone(), uri.clone())),
            _ => None,
        }
    }

    /// `host:port` for the listener.
    pub fn bind_address(&self) -> (r: String)
        ensures
            r@ == self.server.host@ + seq![':'] + decimal_text(self.server.port as nat),
    {
        let mut out = self.server.host.clone();
        out.append(":");
        append_decimal(&mut out, self.server.port as u64);
        proof {
            reveal_strlit(":");
        }
        assert(out@ =~= self.server.host@ + seq![':'] + decimal_text(self.server.port as nat));
        out
    }

    /// Overrides configured values with those set in the environment.
    pub fn apply_env_vars(&mut self, env: &EnvVars) -> (r: Result<(), ConfigError>)
        ensures
            final(self)@ == with_env(old(self)@, env@).0,
            r == with_env(old(self)@, env@).1,
    {
        if let Some(host) = &env.host {
            self.server.host = host.clone();
        }
        if let Some(port) = &env.port {
            match parse_unsigned(port.as_str(), 65535) {
                Some(p) => {
                    self.server.port = p as u16;
                },
                None => {
                    return Err(ConfigError::InvalidPort);
                },
            }
        }
        if let Some(ttl) = &env.cache_ttl {
            match parse_unsigned(ttl.as_str(), u64::MAX) {
                Some(t) => {
                    self.server.cache_ttl_seconds = t;
                },
                None => {
                    return Err(ConfigError::InvalidCacheTtl);
                },
            }
        }
        if let Some(paths) = &env.ics_file_paths {
            self.ics.file_paths = split_comma_list(paths.as_str());
        }
        if let Some(path) = &env.ics_file_path {
            if self.ics.file_paths.len() == 0 {
                let ghost before = self.ics.file_paths@;
                self.ics.file_paths.push(path.clone());
                assert(string_views(self.ics.file_paths@) =~= seq![path@]);
            }
        }
        if env.google_client_id.is_some() {
            self.google.client_id = clone_opt(&env.google_client_id);
        }
        if env.google_client_secret.is_some() {
            self.google.client_secret = clone_opt(&env.google_client_secret);
        }
        if env.google_redirect_uri.is_some() {
            self.google.redirect_uri = clone_opt(&env.google_redirect_uri);
        }
        Ok(())
    }

    /// The configuration to run with: the file configuration (or the defaults
    /// when there is none), overridden by the environment, then validated.
    pub fn load(file_config: Option<Config>, env: &EnvVars) -> (r: Result<Config, ConfigError>)
        ensures
            ({
                let base = match file_config {
                    Some(c) => c@,
                    None => default_config(),
                };
                let (applied, outcome) = with_env(base, env@);
                match r {
                    Ok(c) => outcome is Ok && validation(applied) is Ok && c@ == applied,
                    Err(e) => (outcome is Err && outcome == Err::<(), ConfigError>(e)) || (outcome is Ok
                        && validation(applied) == Err::<(), ConfigError>(e)),
                }
            }),
    {
        let mut config = match file_config {
            Some(c) => c,
            None => Config::default(),
        };
        match config.apply_env_vars(env) {
            Ok(()) => {},
            Err(e) => {
                return Err(e);
            },
        }
        match config.validate() {
            Ok(()) => Ok(config),
            Err(e) => Err(e),
        }
    }

    /// An example configuration showing every field.
    pub fn create_sample_config() -> (r: Config)
        ensures
            r@ == sample_config(),
    {
        proof {
            reveal_strlit("0.0.0.0");
            reveal_strlit("https://example.com/calendar.ics");
            reveal_strlit("/path/to/local/calendar.ics");
            reveal_strlit("your-google-client-id");
            reveal_strlit("your-google-client-secret");
            reveal_strlit("http://localhost:3000/auth/google/callback");
        }
        let mut file_paths: Vec<String> = Vec::new();
        file_paths.push("https://example.com/calendar.ics".to_owned());
        file_paths.push("/path/to/local/calendar.ics".to_owned());
        let r = Config {
            server: ServerConfig { host: "0.0.0.0".to_owned(), port: 3000, cache_ttl_seconds: 300 },
            ics: IcsConfig { file_paths },
            google: GoogleConfig {
                client_id: Some("your-google-client-id".to_owned()),
                client_secret: Some("your-google-client-secret".to_owned()),
                redirect_uri: Some("http://localhost:3000/auth/google/callback".to_owned()),
            },
        };
        assert(r@.file_paths =~= sample_config().file_paths);
        r
    }
}

/// The defaults: `127.0.0.1:3000`, a five-minute cache, no sources.
pub open spec fn default_config() -> ConfigView {
    ConfigView {
        host: "127.0.0.1"@,
        port: 3000,
        cache_ttl_seconds: 300,
        file_paths: Seq::empty(),
        client_id: None,
        client_secret: None,
        redirect_uri: None,
    }
}

pub open spec fn sample_config() -> ConfigView {
    ConfigView {
        host: "0.0.0.0"@,
        port: 3000,
        cache_ttl_seconds: 300,
        file_paths: seq!["https://example.com/calendar.ics"@, "/path/to/local/calendar.ics"@],
        client_id: Some("your-google-client-id"@),
        client_secret: Some("your-google-client-secret"@),
        redirect_uri: Some("http://localhost:3000/auth/google/callback"@),
    }
}

impl Default for Config {
    fn default() -> (r: Config)
        ensures
            r@ == default_config(),
    {
        proof {
            reveal_strlit("127.0.0.1");
        }
        let r = Config {
            server: ServerConfig {
                host: "127.0.0.1".to_owned(),
                port: 3000,
                cache_ttl_seconds: DEFAULT_CACHE_TTL,
            },
            ics: IcsConfig { file_paths: Vec::new() },
            google: GoogleConfig { client_id: None, client_secret: None, redirect_uri: None },
        };
        assert(r@.file_paths =~= Seq::<Seq<char>>::empty());
        r
    }
}

} // verus!
