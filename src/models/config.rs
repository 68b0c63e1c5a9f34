//! Settings: where the data lives, how times are written, and in which
//! time zone they are read.

use vstd::prelude::*;

use chrono::TimeZone;

use crate::errors::{AppError, AppResult, ErrorKind};

verus! {

/// The seconds since the Unix epoch of `text`, read with `format` as a local
/// time in the zone so named, where the zone is known and the text fits.
pub uninterp spec fn local_time_of(zone: Seq<char>, text: Seq<char>, format: Seq<char>) -> Option<i64>;

/// Relies on chrono's `TimeZone::datetime_from_str`, for the chrono-tz zone
/// that the name gives (looked up with `Tz`'s `FromStr`): the result is a
/// function of the zone's name, the text and the format alone.
#[verifier::external_body]
#[allow(deprecated)]
fn local_seconds(zone: &str, text: &str, format: &str) -> (r: Option<i64>)
    ensures
        r == local_time_of(zone@, text@, format@),
{
    let tz: chrono_tz::Tz = zone.parse().ok()?;
    tz.datetime_from_str(text, format).ok().map(|t| t.timestamp())
}

/// Where the data lives and how times are shown.
#[derive(Debug)]
pub struct Config {
    pub data_dir: String,
    pub time_format: String,
    pub full_time_format: String,
    pub timezone: String,
}

/// The name of this program's directory under the configuration directory.
pub const FARAMIR_DIR: &'static str = "faramir-tt";

/// `part` joined under `base` with one `/` between them, as a path is
/// extended by a relative part.
pub open spec fn joined(base: Seq<char>, part: Seq<char>) -> Seq<char> {
    if base.len() == 0 {
        part
    } else if base.last() == '/' {
        base + part
    } else {
        base + seq!['/'] + part
    }
}

/// `part` joined under `base`.
pub fn join_path(base: &str, part: &str) -> (r: String)
    ensures
        r@ == joined(base@, part@),
{
    let n = base.unicode_len();
    let mut out = base.to_string();
    if n == 0 {
        return part.to_string();
    }
    if base.get_char(n - 1) != '/' {
        out.append("/");
        proof {
            reveal_strlit("/");
        }
    }
    out.append(part);
    assert(out@ =~= joined(base@, part@));
    out
}

/// The configuration directory: `$XDG_CONFIG_HOME`, else `$HOME/.config`,
/// else the working directory, each with the program's directory under it.
pub open spec fn config_dir_of(xdg_config_home: Option<Seq<char>>, home: Option<Seq<char>>) -> Seq<char> {
    let base = match xdg_config_home {
        Some(x) => x,
        None => match home {
            Some(h) => joined(h, ".config"@),
            None => "."@,
        },
    };
    joined(base, FARAMIR_DIR@)
}

pub open spec fn text_of(s: Option<&str>) -> Option<Seq<char>> {
    match s {
        Some(t) => Some(t@),
        None => None,
    }
}

impl Config {
    /// The program's configuration directory, from the values of
    /// `XDG_CONFIG_HOME` and `HOME` where they are set.
    pub fn default_config_dir(xdg_config_home: Option<&str>, home: Option<&str>) -> (r: String)
        ensures
            r@ == config_dir_of(text_of(xdg_config_home), text_of(home)),
    {
        let base = match xdg_config_home {
            Some(x) => x.to_string(),
            None => match home {
                Some(h) => join_path(h, ".config"),
                None => ".".to_string(),
            },
        };
        join_path(base.as_str(), FARAMIR_DIR)
    }

    /// The configuration file, `config.json` in the configuration directory.
    pub fn default_config_path(xdg_config_home: Option<&str>, home: Option<&str>) -> (r: String)
        ensures
            r@ == joined(config_dir_of(text_of(xdg_config_home), text_of(home)), "config.json"@),
    {
        let dir = Config::default_config_dir(xdg_config_home, home);
        join_path(dir.as_str(), "config.json")
    }

    /// Reads a date and time written in the short time format as a local
    /// time in the configured zone; the result counts seconds since the Unix
    /// epoch. Fails with `StringParse` exactly where the zone is unknown or
    /// the text does not fit the format.
    pub fn parse_time(&self, text: &str) -> (r: AppResult<i64>)
        ensures
            r is Err ==> r->Err_0.0 is StringParse,
            r is Ok <==> local_time_of(self.timezone@, text@, self.time_format@) is Some,
            r matches Ok(x) ==> local_time_of(self.timezone@, text@, self.time_format@) == Some(x),
    {
        match local_seconds(self.timezone.as_str(), text, self.time_format.as_str()) {
            Some(secs) => Ok(secs),
            None => Err(
                AppError(
                    ErrorKind::StringParse(
                        "The time zone is unknown or the time does not fit the format.".to_string(),
                    ),
                ),
            ),
        }
    }

    /// The default settings, with the data kept in `data_dir`.
    pub fn with_data_dir(data_dir: String) -> (r: Config)
        ensures
            r.data_dir == data_dir,
            r.time_format@ == "%Y/%m/%d %H:%M:%S"@,
            r.full_time_format@ == "%Y/%m/%d %H:%M:%.3f, Day %j, Week %U"@,
            r.timezone@ == "America/New_York"@,
    {
        Config {
            data_dir,
            time_format: "%Y/%m/%d %H:%M:%S".to_string(),
            full_time_format: "%Y/%m/%d %H:%M:%.3f, Day %j, Week %U".to_string(),
            timezone: "America/New_York".to_string(),
        }
    }
}

} // verus!
