//! The server's settings: each has a default except the database address
//! and the secret shared with the authentication service, and the upload
//! limits must fit each other and the platform.
use vstd::prelude::*;

use crate::input::opt_view;
use crate::number::{parse_u64, parse_u64_spec};
use crate::text::{chars_of, string_from, utf8_len};

verus! {

/// The server's settings.
pub struct Config {
    pub port: u16,
    pub database_url: String,
    pub database_max_connections: u32,
    pub upload_root: String,
    pub public_base_url: String,
    pub auth_internal_url: String,
    pub auth_bridge_secret: String,
    pub server_max_upload_bytes: u64,
    pub legacy_max_upload_bytes: u64,
    pub upload_disk_reserve_bytes: u64,
    pub tus_chunk_size_bytes: u64,
    pub tus_session_ttl_seconds: u64,
}

/// The raw settings, one per environment variable: `None` when the
/// variable is unset or not Unicode.
pub struct ConfigInput {
    pub port: Option<String>,
    pub database_url: Option<String>,
    pub database_max_connections: Option<String>,
    pub upload_root: Option<String>,
    pub public_base_url: Option<String>,
    pub auth_internal_url: Option<String>,
    pub auth_bridge_secret: Option<String>,
    pub server_max_upload_bytes: Option<String>,
    pub legacy_max_upload_bytes: Option<String>,
    pub upload_disk_reserve_bytes: Option<String>,
    pub tus_chunk_size_bytes: Option<String>,
    pub tus_session_ttl_seconds: Option<String>,
}

/// A numeric setting: the default when unset, otherwise the value of its
/// text if that is an unsigned number no larger than `max`; `None` when
/// the text is invalid.
pub open spec fn numeric_setting(value: Option<Seq<char>>, default: u64, max: u64) -> Option<u64> {
    match value {
        None => Some(default),
        Some(s) => match parse_u64_spec(s) {
            Some(v) => if v <= max {
                Some(v)
            } else {
                None
            },
            None => None,
        },
    }
}

/// `s` without its trailing slashes.
pub open spec fn trim_trailing_slashes(s: Seq<char>) -> Seq<char>
    decreases s.len(),
{
    if s.len() > 0 && s.last() == '/' {
        trim_trailing_slashes(s.drop_last())
    } else {
        s
    }
}

/// A text setting, or its default.
pub open spec fn text_setting(value: Option<Seq<char>>, default: Seq<char>) -> Seq<char> {
    match value {
        Some(s) => s,
        None => default,
    }
}

/// The first problem with the raw settings, in the order they are read
/// and checked, or `None` when they are acceptable.
pub open spec fn config_error(i: ConfigInput) -> Option<Seq<char>> {
    let server = numeric_setting(opt_view(i.server_max_upload_bytes), 10737418240, u64::MAX);
    let legacy = numeric_setting(opt_view(i.legacy_max_upload_bytes), 104857600, u64::MAX);
    let chunk = numeric_setting(opt_view(i.tus_chunk_size_bytes), 16777216, u64::MAX);
    let ttl = numeric_setting(opt_view(i.tus_session_ttl_seconds), 604800, u64::MAX);
    if i.auth_bridge_secret is None {
        Some("missing required environment variable AUTH_BRIDGE_SECRET"@)
    } else if utf8_len(i.auth_bridge_secret->0@) < 32 {
        Some("AUTH_BRIDGE_SECRET must contain at least 32 characters"@)
    } else if numeric_setting(opt_view(i.port), 8080, 65535) is None {
        Some("invalid PORT"@)
    } else if i.database_url is None {
        Some("missing required environment variable DATABASE_URL"@)
    } else if numeric_setting(opt_view(i.database_max_connections), 20, 4294967295) is None {
        Some("invalid DATABASE_MAX_CONNECTIONS"@)
    } else if server is None {
        Some("invalid SERVER_MAX_UPLOAD_BYTES"@)
    } else if legacy is None {
        Some("invalid LEGACY_MAX_UPLOAD_BYTES"@)
    } else if numeric_setting(opt_view(i.upload_disk_reserve_bytes), 21474836480, u64::MAX) is None {
        Some("invalid UPLOAD_DISK_RESERVE_BYTES"@)
    } else if chunk is None {
        Some("invalid TUS_CHUNK_SIZE_BYTES"@)
    } else if ttl is None {
        Some("invalid TUS_SESSION_TTL_SECONDS"@)
    } else if server->0 == 0 || server->0 > i64::MAX {
        Some("SERVER_MAX_UPLOAD_BYTES must be between 1 and 9223372036854775807"@)
    } else if legacy->0 == 0 || legacy->0 > server->0 || legacy->0 + 1048576 > usize::MAX {
        Some("LEGACY_MAX_UPLOAD_BYTES must fit the request platform and not exceed the server maximum"@)
    } else if chunk->0 == 0 || chunk->0 > legacy->0 || chunk->0 > usize::MAX {
        Some("TUS_CHUNK_SIZE_BYTES must be positive, fit memory, and not exceed the legacy request limit"@)
    } else if ttl->0 == 0 || ttl->0 > i64::MAX {
        Some("TUS_SESSION_TTL_SECONDS is outside the supported range"@)
    } else {
        None
    }
}

/// Reads a numeric setting.
fn read_setting(value: &Option<String>, default: u64, max: u64) -> (r: Option<u64>)
    ensures
        r == numeric_setting(opt_view(*value), default, max),
{
    match value {
        None => Some(default),
        Some(s) => {
            let c = chars_of(s.as_str());
            match parse_u64(c.as_slice()) {
                Some(v) => if v <= max {
                    Some(v)
                } else {
                    None
                },
                None => None,
            }
        },
    }
}

/// Text without its trailing slashes.
fn without_trailing_slashes(s: &str) -> (r: String)
    ensures
        r@ == trim_trailing_slashes(s@),
{
    let c = chars_of(s);
    let mut n: usize = c.len();
    assert(c@.take(n as int) =~= c@);
    while n > 0 && c[n - 1] == '/'
        invariant
            n <= c@.len(),
            trim_trailing_slashes(c@) == trim_trailing_slashes(c@.take(n as int)),
        decreases n,
    {
        assert(c@.take(n as int).drop_last() =~= c@.take(n - 1));
        n = n - 1;
    }
    let mut out: Vec<char> = Vec::new();
    let mut i: usize = 0;
    while i < n
        invariant
            i <= n <= c@.len(),
            out@ == c@.take(i as int),
        decreases n - i,
    {
        out.push(c[i]);
        i = i + 1;
        assert(out@ =~= c@.take(i as int));
    }
    assert(trim_trailing_slashes(c@.take(n as int)) == c@.take(n as int));
    string_from(out.as_slice())
}

/// A text setting, or its default.
fn text_or(value: Option<String>, default: &str) -> (r: String)
    ensures
        r@ == text_setting(opt_view(value), default@),
{
    match value {
        Some(s) => s,
        None => String::from_str(default),
    }
}

impl Config {
    /// The settings that the raw values describe, or the message of the
    /// first problem with them.
    pub fn from_vars(input: ConfigInput) -> (r: Result<Config, String>)
        ensures
            match r {
                Err(m) => config_error(input) == Some(m@),
                Ok(c) => {
                    &&& config_error(input) is None
                    &&& numeric_setting(opt_view(input.port), 8080, 65535) == Some(c.port as u64)
                    &&& opt_view(input.database_url) == Some(c.database_url@)
                    &&& numeric_setting(opt_view(input.database_max_connections), 20, 4294967295) == Some(
                        c.database_max_connections as u64,
                    )
                    &&& c.upload_root@ == text_setting(opt_view(input.upload_root), "/data/uploads"@)
                    &&& c.public_base_url@ == trim_trailing_slashes(
                        text_setting(opt_view(input.public_base_url), "http://localhost:8080"@),
                    )
                    &&& c.auth_internal_url@ == trim_trailing_slashes(
                        text_setting(opt_view(input.auth_internal_url), "http://auth:3001"@),
                    )
                    &&& opt_view(input.auth_bridge_secret) == Some(c.auth_bridge_secret@)
                    &&& numeric_setting(opt_view(input.server_max_upload_bytes), 10737418240, u64::MAX) == Some(
                        c.server_max_upload_bytes,
                    )
                    &&& numeric_setting(opt_view(input.legacy_max_upload_bytes), 104857600, u64::MAX) == Some(
                        c.legacy_max_upload_bytes,
                    )
                    &&& numeric_setting(opt_view(input.upload_disk_reserve_bytes), 21474836480, u64::MAX) == Some(
                        c.upload_disk_reserve_bytes,
                    )
                    &&& numeric_setting(opt_view(input.tus_chunk_size_bytes), 16777216, u64::MAX) == Some(
                        c.tus_chunk_size_bytes,
                    )
                    &&& numeric_setting(opt_view(input.tus_session_ttl_seconds), 604800, u64::MAX) == Some(
                        c.tus_session_ttl_seconds,
                    )
                },
            },
    {
        let ghost i = input;
        let auth_bridge_secret = match input.auth_bridge_secret {
            Some(s) => s,
            None => {
                return Err(String::from_str("missing required environment variable AUTH_BRIDGE_SECRET"));
            },
        };
        if auth_bridge_secret.as_str().len() < 32 {
            return Err(String::from_str("AUTH_BRIDGE_SECRET must contain at least 32 characters"));
        }
        let port = match read_setting(&input.port, 8080, 65535) {
            Some(v) => v as u16,
            None => {
                return Err(String::from_str("invalid PORT"));
            },
        };
        let database_url = match input.database_url {
            Some(s) => s,
            None => {
                return Err(String::from_str("missing required environment variable DATABASE_URL"));
            },
        };
        let database_max_connections = match read_setting(&input.database_max_connections, 20, 4294967295) {
            Some(v) => v as u32,
            None => {
                return Err(String::from_str("invalid DATABASE_MAX_CONNECTIONS"));
            },
        };
        let upload_root = text_or(input.upload_root, "/data/uploads");
        let public_base = text_or(input.public_base_url, "http://localhost:8080");
        let public_base_url = without_trailing_slashes(public_base.as_str());
        let auth_internal = text_or(input.auth_internal_url, "http://auth:3001");
        let auth_internal_url = without_trailing_slashes(auth_internal.as_str());
        let server_max_upload_bytes = match read_setting(&input.server_max_upload_bytes, 10737418240, u64::MAX) {
            Some(v) => v,
            None => {
                return Err(String::from_str("invalid SERVER_MAX_UPLOAD_BYTES"));
            },
        };
        let legacy_max_upload_bytes = match read_setting(&input.legacy_max_upload_bytes, 104857600, u64::MAX) {
            Some(v) => v,
            None => {
                return Err(String::from_str("invalid LEGACY_MAX_UPLOAD_BYTES"));
            },
        };
        let upload_disk_reserve_bytes = match read_setting(
            &input.upload_disk_reserve_bytes,
            21474836480,
            u64::MAX,
        ) {
            Some(v) => v,
            None => {
                return Err(String::from_str("invalid UPLOAD_DISK_RESERVE_BYTES"));
            },
        };
        let tus_chunk_size_bytes = match read_setting(&input.tus_chunk_size_bytes, 16777216, u64::MAX) {
            Some(v) => v,
            None => {
                return Err(String::from_str("invalid TUS_CHUNK_SIZE_BYTES"));
            },
        };
        let tus_session_ttl_seconds = match read_setting(&input.tus_session_ttl_seconds, 604800, u64::MAX) {
            Some(v) => v,
            None => {
                return Err(String::from_str("invalid TUS_SESSION_TTL_SECONDS"));
            },
        };
        if server_max_upload_bytes == 0 || server_max_upload_bytes > 9223372036854775807 {
            return Err(String::from_str("SERVER_MAX_UPLOAD_BYTES must be between 1 and 9223372036854775807"));
        }
        let legacy_with_slack: u64 = if legacy_max_upload_bytes > u64::MAX - 1048576 {
            u64::MAX
        } else {
            legacy_max_upload_bytes + 1048576
        };
        if legacy_max_upload_bytes == 0 || legacy_max_upload_bytes > server_max_upload_bytes
            || legacy_with_slack as u128 > usize::MAX as u128 {
            proof {
                assert(legacy_with_slack as u128 > usize::MAX as u128 ==> legacy_max_upload_bytes + 1048576 > usize::MAX);
            }
            return Err(
                String::from_str(
                    "LEGACY_MAX_UPLOAD_BYTES must fit the request platform and not exceed the server maximum",
                ),
            );
        }
        if tus_chunk_size_bytes == 0 || tus_chunk_size_bytes > legacy_max_upload_bytes
            || tus_chunk_size_bytes as u128 > usize::MAX as u128 {
            return Err(
                String::from_str(
                    "TUS_CHUNK_SIZE_BYTES must be positive, fit memory, and not exceed the legacy request limit",
                ),
            );
        }
        if tus_session_ttl_seconds == 0 || tus_session_ttl_seconds > 9223372036854775807 {
            return Err(String::from_str("TUS_SESSION_TTL_SECONDS is outside the supported range"));
        }
        Ok(Config {
            port,
            database_url,
            database_max_connections,
            upload_root,
            public_base_url,
            auth_internal_url,
            auth_bridge_secret,
            server_max_upload_bytes,
            legacy_max_upload_bytes,
            upload_disk_reserve_bytes,
            tus_chunk_size_bytes,
            tus_session_ttl_seconds,
        })
    }
}

} // verus!
