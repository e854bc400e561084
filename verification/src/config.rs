//! The final configuration record and the pure part of its resolution:
//! merging partial configurations by precedence, the static defaults, the
//! expiry-duration syntax (`7d`, `12h`, `30m`, `45s`, or plain seconds),
//! and the checks that turn a merged partial configuration into a final
//! one. Reading arguments, environment variables and files is left to the
//! caller; this module only decides.

use vstd::prelude::*;

use crate::text::{parse_u32, parse_u32_spec, str_eq};

verus! {

/// A configuration error: a failed read, an unparsable value, or a
/// missing required option.
#[derive(Debug)]
pub enum ConfigError {
    Io(String),
    Parse(String),
    Missing(String),
}

impl ConfigError {
    /// The error as text, as it is reported to the user.
    pub fn message(&self) -> (r: String)
        ensures
            r@ == (match self {
                ConfigError::Io(m) => "Error: "@ + m@,
                ConfigError::Parse(m) => "Error: "@ + m@,
                ConfigError::Missing(m) => "Error: Missing config option: "@ + m@,
            }),
    {
        match self {
            ConfigError::Io(m) => {
                let mut s = String::from_str("Error: ");
                s.append(m.as_str());
                s
            },
            ConfigError::Parse(m) => {
                let mut s = String::from_str("Error: ");
                s.append(m.as_str());
                s
            },
            ConfigError::Missing(m) => {
                let mut s = String::from_str("Error: Missing config option: ");
                s.append(m.as_str());
                s
            },
        }
    }
}

/// How the archive is compressed.
#[derive(Clone, Copy, Debug, PartialEq, Eq, Structural)]
pub enum CompressionMthd {
    Deflate,
    Bzip2,
    Stored,
    Zstd,
}

/// The compression method a name denotes, if any.
pub open spec fn compression_from_name(s: Seq<char>) -> Option<CompressionMthd> {
    if s == "deflate"@ {
        Some(CompressionMthd::Deflate)
    } else if s == "bzip2"@ {
        Some(CompressionMthd::Bzip2)
    } else if s == "stored"@ || s == "store"@ {
        Some(CompressionMthd::Stored)
    } else if s == "zstd"@ {
        Some(CompressionMthd::Zstd)
    } else {
        None
    }
}

impl CompressionMthd {
    /// Reads a compression method from its name.
    pub fn from_name(name: &str) -> (r: Option<CompressionMthd>)
        ensures
            r == compression_from_name(name@),
    {
        if str_eq(name, "deflate") {
            Some(CompressionMthd::Deflate)
        } else if str_eq(name, "bzip2") {
            Some(CompressionMthd::Bzip2)
        } else if str_eq(name, "stored") || str_eq(name, "store") {
            Some(CompressionMthd::Stored)
        } else if str_eq(name, "zstd") {
            Some(CompressionMthd::Zstd)
        } else {
            None
        }
    }
}

/// An access-key / secret-key pair.
#[derive(Clone)]
pub struct KeyPair {
    pub access_key: String,
    pub secret_key: String,
}

/// The final, immutable configuration of one run.
#[derive(Clone)]
pub struct Config {
    /// How long the link stays valid, in seconds.
    pub expires: u32,
    /// Which bucket to upload to.
    pub bucket: String,
    /// The endpoint URL.
    pub url: String,
    /// The path to upload.
    pub path: String,
    /// The storage credentials.
    pub credentials: KeyPair,
    /// The region.
    pub region: String,
    /// How to compress the archive.
    pub compression: CompressionMthd,
    /// Whether to archive a single file too.
    pub zip_single_file: bool,
    /// Whether to purge expired objects before uploading.
    pub purge: bool,
}

/// A partial configuration: every option, each optional. Partial
/// configurations from several sources are merged by precedence.
pub struct PartialConfig {
    pub expires: Option<String>,
    pub bucket: Option<String>,
    pub url: Option<String>,
    pub path: Option<String>,
    pub region: Option<String>,
    pub credentials: Option<KeyPair>,
    pub compression: Option<CompressionMthd>,
    pub zip_single_file: Option<bool>,
    pub purge: Option<bool>,
}

impl PartialConfig {
    /// An empty partial configuration.
    pub fn empty() -> (r: PartialConfig)
        ensures
            r.expires is None,
            r.bucket is None,
            r.url is None,
            r.path is None,
            r.region is None,
            r.credentials is None,
            r.compression is None,
            r.zip_single_file is None,
            r.purge is None,
    {
        PartialConfig {
            expires: None,
            bucket: None,
            url: None,
            path: None,
            region: None,
            credentials: None,
            compression: None,
            zip_single_file: None,
            purge: None,
        }
    }

    /// Merges two partial configurations: for every option, a value in
    /// `self` wins over one in `other`.
    pub fn merge(self, other: PartialConfig) -> (r: PartialConfig)
        ensures
            r.expires == (if self.expires is Some { self.expires } else { other.expires }),
            r.bucket == (if self.bucket is Some { self.bucket } else { other.bucket }),
            r.url == (if self.url is Some { self.url } else { other.url }),
            r.path == (if self.path is Some { self.path } else { other.path }),
            r.region == (if self.region is Some { self.region } else { other.region }),
            r.credentials == (if self.credentials is Some { self.credentials } else {
                other.credentials
            }),
            r.compression == (if self.compression is Some { self.compression } else {
                other.compression
            }),
            r.zip_single_file == (if self.zip_single_file is Some { self.zip_single_file } else {
                other.zip_single_file
            }),
            r.purge == (if self.purge is Some { self.purge } else { other.purge }),
    {
        PartialConfig {
            expires: match self.expires {
                Some(v) => Some(v),
                None => other.expires,
            },
            bucket: match self.bucket {
                Some(v) => Some(v),
                None => other.bucket,
            },
            url: match self.url {
                Some(v) => Some(v),
                None => other.url,
            },
            path: match self.path {
                Some(v) => Some(v),
                None => other.path,
            },
            region: match self.region {
                Some(v) => Some(v),
                None => other.region,
            },
            credentials: match self.credentials {
                Some(v) => Some(v),
                None => other.credentials,
            },
            compression: match self.compression {
                Some(v) => Some(v),
                None => other.compression,
            },
            zip_single_file: match self.zip_single_file {
                Some(v) => Some(v),
                None => other.zip_single_file,
            },
            purge: match self.purge {
                Some(v) => Some(v),
                None => other.purge,
            },
        }
    }

    /// The built-in defaults, merged in last: a week of validity, the
    /// `eu-central-1` region, zstd compression, no single-file archiving,
    /// no purge.
    pub fn static_default() -> (r: PartialConfig)
        ensures
            r.expires matches Some(e) && e@ == "7d"@,
            r.bucket is None,
            r.url is None,
            r.path is None,
            r.region matches Some(g) && g@ == "eu-central-1"@,
            r.credentials is None,
            r.compression == Some(CompressionMthd::Zstd),
            r.zip_single_file == Some(false),
            r.purge == Some(false),
    {
        PartialConfig {
            expires: Some(String::from_str("7d")),
            bucket: None,
            url: None,
            path: None,
            region: Some(String::from_str("eu-central-1")),
            credentials: None,
            compression: Some(CompressionMthd::Zstd),
            zip_single_file: Some(false),
            purge: Some(false),
        }
    }
}

/// The number of seconds one unit suffix stands for, or 0 for a character
/// that is no unit suffix.
pub open spec fn unit_seconds(c: char) -> int {
    if c == 'd' {
        86400
    } else if c == 'h' {
        3600
    } else if c == 'm' {
        60
    } else if c == 's' {
        1
    } else {
        0
    }
}

/// What a duration string denotes: a number with a `d`, `h`, `m` or `s`
/// suffix scaled to seconds, or a bare number of seconds; nothing if the
/// number does not parse or the result overflows 32 bits.
pub open spec fn time_from_spec(s: Seq<char>) -> Option<u32> {
    if s.len() == 0 {
        None
    } else {
        let u = unit_seconds(s.last());
        if u == 0 {
            parse_u32_spec(s)
        } else {
            match parse_u32_spec(s.drop_last()) {
                Some(v) => if v * u <= u32::MAX {
                    Some((v * u) as u32)
                } else {
                    None
                },
                None => None,
            }
        }
    }
}

/// Reads a duration such as `7d` as a number of seconds.
pub fn get_time_from_str(input: &str) -> (r: Option<u32>)
    requires
        input@.len() >= 1,
    ensures
        r == time_from_spec(input@),
{
    let n = input.unicode_len();
    let last = input.get_char(n - 1);
    let mult: u32 = match last {
        'd' => 86400,
        'h' => 3600,
        'm' => 60,
        's' => 1,
        _ => 0,
    };
    if mult == 0 {
        parse_u32(input)
    } else {
        let prefix = input.substring_char(0, n - 1);
        proof {
            assert(prefix@ =~= input@.drop_last());
        }
        match parse_u32(prefix) {
            Some(v) => v.checked_mul(mult),
            None => None,
        }
    }
}

impl Config {
    /// Turns a fully merged partial configuration into the final one:
    /// a path must be given, the duration must parse, and bucket, URL and
    /// credentials must be present; everything that the defaults supply
    /// is required to have been merged in already.
    pub fn from_partial(p: PartialConfig) -> (r: Result<Config, ConfigError>)
        requires
            p.expires is Some,
            p.expires->0@.len() >= 1,
            p.region is Some,
            p.compression is Some,
            p.zip_single_file is Some,
            p.purge is Some,
        ensures
            r is Ok <==> (p.path is Some && time_from_spec(p.expires->0@) is Some
                && p.bucket is Some && p.url is Some && p.credentials is Some),
            r is Ok ==> {
                let c = r->Ok_0;
                &&& Some(c.expires) == time_from_spec(p.expires->0@)
                &&& c.bucket == p.bucket->0
                &&& c.url == p.url->0
                &&& c.path == p.path->0
                &&& c.credentials == p.credentials->0
                &&& c.region == p.region->0
                &&& c.compression == p.compression->0
                &&& c.zip_single_file == p.zip_single_file->0
                &&& c.purge == p.purge->0
            },
            p.path is None ==> (r matches Err(ConfigError::Parse(m)) && m@ == "No path given"@),
            p.path is Some && time_from_spec(p.expires->0@) is None ==> (r matches Err(
                ConfigError::Parse(m),
            ) && m@ == "Could not parse expires: \""@ + p.expires->0@ + "\""@),
            p.path is Some && time_from_spec(p.expires->0@) is Some && p.bucket is None ==> (r
                matches Err(ConfigError::Missing(m)) && m@ == "bucket"@),
            p.path is Some && time_from_spec(p.expires->0@) is Some && p.bucket is Some
                && p.url is None ==> (r matches Err(ConfigError::Missing(m)) && m@ == "url"@),
            p.path is Some && time_from_spec(p.expires->0@) is Some && p.bucket is Some
                && p.url is Some && p.credentials is None ==> (r matches Err(
                ConfigError::Missing(m),
            ) && m@ == "credentials"@),
    {
        let PartialConfig {
            expires,
            bucket,
            url,
            path,
            region,
            credentials,
            compression,
            zip_single_file,
            purge,
        } = p;
        let path = match path {
            Some(x) => x,
            None => {
                return Err(ConfigError::Parse(String::from_str("No path given")));
            },
        };
        let expires_str = match expires {
            Some(x) => x,
            None => {
                proof {
                    assert(false);
                }
                return Err(ConfigError::Parse(String::new()));
            },
        };
        let expires_secs = match get_time_from_str(expires_str.as_str()) {
            Some(v) => v,
            None => {
                let mut m = String::from_str("Could not parse expires: \"");
                m.append(expires_str.as_str());
                m.append("\"");
                return Err(ConfigError::Parse(m));
            },
        };
        let bucket = match bucket {
            Some(b) => b,
            None => {
                return Err(ConfigError::Missing(String::from_str("bucket")));
            },
        };
        let url = match url {
            Some(u) => u,
            None => {
                return Err(ConfigError::Missing(String::from_str("url")));
            },
        };
        let credentials = match credentials {
            Some(c) => c,
            None => {
                return Err(ConfigError::Missing(String::from_str("credentials")));
            },
        };
        let region = match region {
            Some(g) => g,
            None => {
                proof {
                    assert(false);
                }
                return Err(ConfigError::Missing(String::new()));
            },
        };
        let compression = match compression {
            Some(c) => c,
            None => {
                proof {
                    assert(false);
                }
                return Err(ConfigError::Missing(String::new()));
            },
        };
        let zip_single_file = match zip_single_file {
            Some(z) => z,
            None => {
                proof {
                    assert(false);
                }
                return Err(ConfigError::Missing(String::new()));
            },
        };
        let purge = match purge {
            Some(g) => g,
            None => {
                proof {
                    assert(false);
                }
                return Err(ConfigError::Missing(String::new()));
            },
        };
        Ok(
            Config {
                expires: expires_secs,
                bucket,
                url,
                path,
                credentials,
                region,
                compression,
                zip_single_file,
                purge,
            },
        )
    }
}

} // verus!
