use vstd::prelude::*;
use crate::text::chars_of;
use crate::text::owned;
use crate::text::slice_chars;
use crate::version::all_digits;
use crate::version::digits_value;
use crate::version::parse_u64;
use crate::version::parse_digits;
use crate::version::is_u64_number;
use crate::version::u64_value;

verus! {

/// The API server's settings.
#[derive(Clone, Debug)]
pub struct Config {
    pub database_url: String,
    pub jwt_secret: String,
    pub jwt_expiry_hours: i64,
    pub server_addr: String,
    pub gitea_api_url: String,
    pub gitea_token: String,
    pub cors_origin: String,
}

/// What `str::parse::<i64>` reads: an optional sign and digits, in range.
pub open spec fn i64_value(s: Seq<char>) -> Option<int> {
    if s.len() > 0 && s[0] == '-' {
        let d = s.skip(1);
        if d.len() > 0 && all_digits(d) && digits_value(d) <= 9223372036854775808 {
            Some(-(digits_value(d) as int))
        } else {
            None
        }
    } else if is_u64_number(s) && u64_value(s) <= i64::MAX {
        Some(u64_value(s) as int)
    } else {
        None
    }
}

/// `str::parse::<i64>`.
pub fn parse_i64(s: &str) -> (r: Option<i64>)
    ensures
        match r {
            Some(v) => i64_value(s@) == Some(v as int),
            None => i64_value(s@) is None,
        },
{
    let c = chars_of(s);
    if c.len() > 0 && c[0] == '-' {
        let d = slice_chars(&c, 1, c.len());
        assert(d@ =~= s@.skip(1));
        match parse_digits(&d) {
            Some(v) => {
                if v <= 9223372036854775807 {
                    let x = v as i64;
                    Some(-x)
                } else if v == 9223372036854775808 {
                    Some(i64::MIN)
                } else {
                    None
                }
            },
            None => {
                proof {
                    if d@.len() > 0 && all_digits(d@) && digits_value(d@) <= 9223372036854775808 {
                        assert(digits_value(d@) <= u64::MAX);
                    }
                }
                None
            },
        }
    } else {
        match parse_u64(&c) {
            Some(v) => {
                if v <= 9223372036854775807 {
                    Some(v as i64)
                } else {
                    None
                }
            },
            None => None,
        }
    }
}

/// `value`, or `default` when it is not set.
pub open spec fn setting_or(value: Option<String>, default: Seq<char>) -> Seq<char> {
    match value {
        Some(v) => v@,
        None => default,
    }
}

fn setting(value: Option<String>, default: &str) -> (r: String)
    ensures
        r@ == setting_or(value, default@),
{
    match value {
        Some(v) => v,
        None => owned(default),
    }
}

impl Config {
    /// The settings from the values of `DATABASE_URL`, `JWT_SECRET`,
    /// `JWT_EXPIRY_HOURS`, `SERVER_ADDR`, `GITEA_API_URL`, `GITEA_TOKEN` and
    /// `CORS_ORIGIN` (`None` where a variable is unset or unreadable), each
    /// with its default; an expiry that is no `i64` counts as 24 hours.
    pub fn from_settings(
        database_url: Option<String>,
        jwt_secret: Option<String>,
        jwt_expiry_hours: Option<String>,
        server_addr: Option<String>,
        gitea_api_url: Option<String>,
        gitea_token: Option<String>,
        cors_origin: Option<String>,
    ) -> (r: Self)
        ensures
            r.database_url@ == setting_or(database_url, "sqlite:data/pagancms.db?mode=rwc"@),
            r.jwt_secret@ == setting_or(jwt_secret, "paganlinux-cms-secret-change-in-production"@),
            r.jwt_expiry_hours == match i64_value(setting_or(jwt_expiry_hours, "24"@)) {
                Some(v) => v,
                None => 24,
            },
            r.server_addr@ == setting_or(server_addr, "0.0.0.0:3000"@),
            r.gitea_api_url@ == setting_or(gitea_api_url, "https://git.paganlinux.eu/api/v1"@),
            r.gitea_token@ == setting_or(gitea_token, ""@),
            r.cors_origin@ == setting_or(cors_origin, "http://localhost:5173"@),
    {
        let hours_text = setting(jwt_expiry_hours, "24");
        let hours = match parse_i64(hours_text.as_str()) {
            Some(v) => v,
            None => 24,
        };
        Config {
            database_url: setting(database_url, "sqlite:data/pagancms.db?mode=rwc"),
            jwt_secret: setting(jwt_secret, "paganlinux-cms-secret-change-in-production"),
            jwt_expiry_hours: hours,
            server_addr: setting(server_addr, "0.0.0.0:3000"),
            gitea_api_url: setting(gitea_api_url, "https://git.paganlinux.eu/api/v1"),
            gitea_token: setting(gitea_token, ""),
            cors_origin: setting(cors_origin, "http://localhost:5173"),
        }
    }
}

} // verus!
