//! Server configuration, made of environment values.
//!
//! Everything is an environment variable because the server's real home is a
//! container: `docker-compose` and Portainer both set environment cleanly,
//! whereas a config file inside an image means a bind mount for one small file.

use vstd::prelude::*;

use crate::auth::SECOND;
use crate::path;
use crate::path::FilePath;
use crate::server::ServerError;
use crate::text;
use crate::text::{append_text, chars_of, lower_ascii_all, same_chars, text_of, trim_of};

verus! {

/// Where the music lives. Read-only as far as the server is concerned.
pub const MUSIC_ROOT: &'static str = "ALBUMPLAYER_MUSIC_ROOT";

/// Writable directory for the database and the cover cache.
pub const DATA_DIR: &'static str = "ALBUMPLAYER_DATA_DIR";

pub const BIND: &'static str = "ALBUMPLAYER_BIND";

pub const PASSWORD: &'static str = "ALBUMPLAYER_PASSWORD";

pub const SCAN_ON_START: &'static str = "ALBUMPLAYER_SCAN_ON_START";

/// How long a login stays valid, in hours.
pub const SESSION_HOURS: &'static str = "ALBUMPLAYER_SESSION_HOURS";

/// Directory holding the built web UI.
pub const UI_DIR: &'static str = "ALBUMPLAYER_UI_DIR";

/// Whether the client address is read from forwarding headers.
pub const TRUST_PROXY: &'static str = "ALBUMPLAYER_TRUST_PROXY";

/// Characters that a password must have at least.
pub const MIN_PASSWORD_CHARS: usize = 8;

/// The values of the variables, where they are set.
pub struct Env {
    pub music_root: Option<String>,
    pub data_dir: Option<String>,
    pub bind: Option<String>,
    pub password: Option<String>,
    pub scan_on_start: Option<String>,
    pub session_hours: Option<String>,
    pub ui_dir: Option<String>,
    pub trust_proxy: Option<String>,
}

#[derive(Debug)]
pub struct Config {
    pub music_root: FilePath,
    pub data_dir: FilePath,
    /// The socket address to listen on.
    pub bind: String,
    pub password: String,
    pub scan_on_start: bool,
    /// How long a login stays valid, in nanoseconds.
    pub session_ttl: u128,
    /// Built web UI to serve, if present. Absent means API only.
    pub ui_dir: Option<FilePath>,
    /// Whether a proxy in front is trusted to say who the client is.
    pub trust_proxy: bool,
}

/// A variable's value, or a fallback when it is not set or blank.
pub open spec fn value_or(value: Option<String>, fallback: Seq<char>) -> Seq<char> {
    match value {
        Some(v) if !text::is_blank(v@) => v@,
        _ => fallback,
    }
}

fn env_or(value: &Option<String>, fallback: &str) -> (r: String)
    ensures
        r@ == value_or(*value, fallback@),
{
    if let Some(v) = value {
        if !text::blank(v) {
            return v.clone();
        }
    }
    fallback.to_owned()
}

/// The spellings of yes that people actually write in a compose file.
pub open spec fn is_yes(value: Seq<char>) -> bool {
    let v = text::ascii_lowered(text::trimmed(value));
    v == "1"@ || v == "true"@ || v == "yes"@ || v == "on"@
}

/// Accept the spellings people actually write in a compose file.
pub fn truthy(value: &str) -> (r: bool)
    ensures
        r == is_yes(value@),
{
    let v = lower_ascii_all(&trim_of(&chars_of(value)));
    same_chars(&v, &chars_of("1")) || same_chars(&v, &chars_of("true")) || same_chars(
        &v,
        &chars_of("yes"),
    ) || same_chars(&v, &chars_of("on"))
}

/// Why `str::parse` refuses a text as an unsigned 64-bit number.
pub uninterp spec fn number_fault(s: Seq<char>) -> Seq<char>;

/// Calls `str::parse` for an unsigned 64-bit number: digits with an optional `+`
/// in front, when the number fits, and why not otherwise.
#[verifier::external_body]
fn parse_number(s: &str) -> (r: Result<u64, String>)
    ensures
        match r {
            Ok(n) => text::parse_unsigned(s@, u64::MAX as nat) == Some(n as nat),
            Err(e) => text::parse_unsigned(s@, u64::MAX as nat) is None && e@ == number_fault(s@),
        },
{
    s.parse::<u64>().map_err(|e| e.to_string())
}

fn fault(name: &str, what: &str, why: &str) -> (r: ServerError)
    ensures
        r matches ServerError::Config(m) && m@ == name@ + what@ + why@,
{
    let mut out = chars_of(name);
    append_text(&mut out, what);
    append_text(&mut out, why);
    ServerError::Config(text_of(&out))
}

fn refused(name: &str, what: &str) -> (r: ServerError)
    ensures
        r matches ServerError::Config(m) && m@ == name@ + what@,
{
    let mut out = chars_of(name);
    append_text(&mut out, what);
    ServerError::Config(text_of(&out))
}

/// The message of a configuration that is refused, given what is wrong with the
/// socket address, if anything.
pub open spec fn refusal(env: Env, bind_fault: Option<Seq<char>>) -> Option<Seq<char>> {
    let password = match env.password {
        Some(p) => p@,
        None => Seq::empty(),
    };
    let hours = value_or(env.session_hours, "720"@);
    if text::is_blank(password) {
        Some(PASSWORD@ + " must be set; refusing to start without a password"@)
    } else if password.len() < MIN_PASSWORD_CHARS {
        Some(PASSWORD@ + " must be at least 8 characters"@)
    } else if bind_fault is Some {
        Some(BIND@ + " is not a socket address: "@ + bind_fault.unwrap())
    } else if text::parse_unsigned(hours, u64::MAX as nat) is None {
        Some(SESSION_HOURS@ + " is not a number: "@ + number_fault(hours))
    } else {
        None
    }
}

impl Env {
    /// The socket address to listen on, as text.
    pub fn bind_text(&self) -> (r: String)
        ensures
            r@ == value_or(self.bind, "0.0.0.0:8080"@),
    {
        env_or(&self.bind, "0.0.0.0:8080")
    }

    /// The page whose presence tells that there is a web UI to serve.
    pub fn ui_index(&self) -> (r: FilePath)
        ensures
            r@ == path::path_of(value_or(self.ui_dir, "/app/ui"@)).join(
                path::path_of("index.html"@),
            ),
    {
        FilePath::parse(&env_or(&self.ui_dir, "/app/ui")).join(&FilePath::parse("index.html"))
    }
}

impl Config {
    /// The configuration that an environment which is not refused asks for.
    pub open spec fn is_for(self, env: Env, has_ui: bool) -> bool {
        &&& self.music_root@ == path::path_of(value_or(env.music_root, "/music"@))
        &&& self.data_dir@ == path::path_of(value_or(env.data_dir, "/data"@))
        &&& self.bind@ == value_or(env.bind, "0.0.0.0:8080"@)
        &&& env.password == Some(self.password)
        &&& self.scan_on_start == is_yes(value_or(env.scan_on_start, "true"@))
        &&& text::parse_unsigned(
            value_or(env.session_hours, "720"@),
            u64::MAX as nat,
        ) matches Some(hours) && self.session_ttl == hours * 3600 * SECOND
        &&& match self.ui_dir {
            Some(dir) => has_ui && dir@ == path::path_of(value_or(env.ui_dir, "/app/ui"@)),
            None => !has_ui,
        }
        &&& self.trust_proxy == is_yes(value_or(env.trust_proxy, "false"@))
    }

    /// Make the configuration, failing loudly on anything missing or nonsensical.
    /// `bind_fault` says what is wrong with the socket address, if anything, and
    /// `has_ui` whether there is a web UI.
    ///
    /// There is deliberately no default password. A music server that ships with
    /// a known credential and is then exposed to the internet is a liability, so
    /// refusing to start is the correct behaviour.
    pub fn from_env(env: &Env, bind_fault: Option<String>, has_ui: bool) -> (r: Result<
        Config,
        ServerError,
    >)
        ensures
            match refusal(*env, text::opt_text(bind_fault)) {
                Some(m) => r matches Err(ServerError::Config(t)) && t@ == m,
                None => r matches Ok(c) && c.is_for(*env, has_ui),
            },
    {
        let password = match &env.password {
            Some(p) => p.clone(),
            None => String::new(),
        };
        if text::blank(&password) {
            return Err(
                refused(PASSWORD, " must be set; refusing to start without a password"),
            );
        }
        if chars_of(&password).len() < MIN_PASSWORD_CHARS {
            return Err(refused(PASSWORD, " must be at least 8 characters"));
        }
        if let Some(e) = bind_fault {
            return Err(fault(BIND, " is not a socket address: ", &e));
        }
        let hours: u64 = match parse_number(&env_or(&env.session_hours, "720")) {
            Ok(n) => n,
            Err(e) => {
                return Err(fault(SESSION_HOURS, " is not a number: ", &e));
            },
        };
        // Serving the UI is optional: the API is useful on its own, and a missing
        // bundle should not stop the server booting.
        let ui_dir = if has_ui {
            Some(FilePath::parse(&env_or(&env.ui_dir, "/app/ui")))
        } else {
            None
        };
        Ok(
            Config {
                music_root: FilePath::parse(&env_or(&env.music_root, "/music")),
                data_dir: FilePath::parse(&env_or(&env.data_dir, "/data")),
                bind: env.bind_text(),
                password,
                scan_on_start: truthy(&env_or(&env.scan_on_start, "true")),
                session_ttl: (hours as u128) * 3600 * SECOND,
                ui_dir,
                trust_proxy: truthy(&env_or(&env.trust_proxy, "false")),
            },
        )
    }

    pub fn database_path(&self) -> (r: FilePath)
        ensures
            r@ == self.data_dir@.join(path::path_of("library.db"@)),
    {
        self.data_dir.join(&FilePath::parse("library.db"))
    }

    /// Where fetched covers live.
    ///
    /// Overridable so the server and the command that fetches artwork can be
    /// pointed at the same directory inside a container.
    pub fn art_cache_dir(&self, art_dir: Option<String>) -> (r: FilePath)
        ensures
            r@ == match art_dir {
                Some(dir) if dir@.len() > 0 => path::path_of(dir@),
                _ => self.data_dir@.join(path::path_of("art"@)),
            },
    {
        if let Some(dir) = art_dir {
            if chars_of(&dir).len() > 0 {
                return FilePath::parse(&dir);
            }
        }
        self.data_dir.join(&FilePath::parse("art"))
    }
}

} // verus!
