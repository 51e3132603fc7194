//! Fetch configuration: origin, pinned public key, destination and the units
//! to restart after an install.

use vstd::prelude::*;
use crate::backend::{uri_parses, uri_valid};
use crate::error::Error;
use crate::keys::{base64_text, decode_base64_text, to_array32};
use crate::version::str_eq;

verus! {

pub const MSG_NO_EQUALS: &'static str = "Line contains no '='. Expected 'Origin=https://example.com'-like key-value pair.";
pub const MSG_UNKNOWN_KEY: &'static str = "Unknown key. Expected 'Origin', 'PublicKey', 'Destination', or 'RestartUnit'.";
pub const MSG_DUPLICATE_KEY: &'static str = "Key set twice. 'Origin', 'PublicKey' and 'Destination' may each appear once.";
pub const MSG_NO_ORIGIN: &'static str = "Origin not set. Expected 'Origin='-line.";
pub const MSG_NO_PUBLIC_KEY: &'static str = "Public key not set. Expected 'PublicKey='-line.";
pub const MSG_NO_DESTINATION: &'static str = "Destination not set. Expected 'Destination=/path'-line.";

/// A validated fetch configuration.
#[derive(Debug)]
pub struct Config {
    /// The URI of the server directory. `Config::parse` only gives configs
    /// whose origin hyper accepts; a config built by hand carries no such
    /// guarantee.
    pub origin: String,
    pub public_key: [u8; 32],
    pub destination: String,
    /// The units to restart after an install, in order.
    pub restart_units: Vec<String>,
}

/// What a configuration holds.
pub struct ConfigView {
    pub origin: Seq<char>,
    pub public_key: Seq<u8>,
    pub destination: Seq<char>,
    pub restart_units: Seq<Seq<char>>,
}

/// The settings read from the lines so far.
pub struct Settings {
    pub origin: Option<Seq<char>>,
    pub public_key: Option<Seq<u8>>,
    pub destination: Option<Seq<char>>,
    pub restart_units: Seq<Seq<char>>,
}

/// The index of the first `=` of a line, or its length where it has none.
pub open spec fn equals_index(s: Seq<char>) -> int
    decreases s.len(),
{
    if s.len() == 0 || s[0] == '=' {
        0
    } else {
        1 + equals_index(s.drop_first())
    }
}

/// The settings after one more line, with its zero-based number. An empty line
/// changes nothing; a later line overrides an earlier one with the same key,
/// but restart units accumulate.
pub open spec fn apply_line(acc: Settings, line: Seq<char>, lineno: usize) -> Result<Settings, Error> {
    let i = equals_index(line);
    if line.len() == 0 {
        Ok(acc)
    } else if i == line.len() {
        Err(Error::InvalidConfig(lineno, MSG_NO_EQUALS))
    } else {
        let key = line.subrange(0, i);
        let value = line.subrange(i + 1, line.len() as int);
        if (key == "Origin"@ && acc.origin is Some) || (key == "PublicKey"@ && acc.public_key is Some) || (key
            == "Destination"@ && acc.destination is Some) {
            Err(Error::InvalidConfig(lineno, MSG_DUPLICATE_KEY))
        } else if key == "Origin"@ {
            if uri_valid(value) {
                Ok(Settings { origin: Some(value), ..acc })
            } else {
                Err(Error::InvalidUri(lineno))
            }
        } else if key == "PublicKey"@ {
            match base64_text(value) {
                None => Err(Error::InvalidPublicKeyData(lineno)),
                Some(b) => if b.len() == 32 {
                    Ok(Settings { public_key: Some(b), ..acc })
                } else {
                    Err(Error::InvalidPublicKeyData(lineno))
                },
            }
        } else if key == "Destination"@ {
            Ok(Settings { destination: Some(value), ..acc })
        } else if key == "RestartUnit"@ {
            Ok(Settings { restart_units: acc.restart_units.push(value), ..acc })
        } else {
            Err(Error::InvalidConfig(lineno, MSG_UNKNOWN_KEY))
        }
    }
}

/// The settings after the first `n` lines, or the first error.
pub open spec fn scan_lines(lines: Seq<Seq<char>>, n: nat) -> Result<Settings, Error>
    decreases n,
{
    if n == 0 {
        Ok(Settings { origin: None, public_key: None, destination: None, restart_units: seq![] })
    } else {
        match scan_lines(lines, (n - 1) as nat) {
            Err(e) => Err(e),
            Ok(acc) => apply_line(acc, lines[n - 1], (n - 1) as usize),
        }
    }
}

/// The configuration that a list of lines gives, or the error it fails with.
pub open spec fn config_of(lines: Seq<Seq<char>>) -> Result<ConfigView, Error> {
    match scan_lines(lines, lines.len()) {
        Err(e) => Err(e),
        Ok(acc) => if acc.origin is None {
            Err(Error::IncompleteConfig(MSG_NO_ORIGIN))
        } else if acc.public_key is None {
            Err(Error::IncompleteConfig(MSG_NO_PUBLIC_KEY))
        } else if acc.destination is None {
            Err(Error::IncompleteConfig(MSG_NO_DESTINATION))
        } else {
            Ok(
                ConfigView {
                    origin: acc.origin.unwrap(),
                    public_key: acc.public_key.unwrap(),
                    destination: acc.destination.unwrap(),
                    restart_units: acc.restart_units,
                },
            )
        },
    }
}

pub open spec fn line_views(lines: Seq<&str>) -> Seq<Seq<char>> {
    Seq::new(lines.len(), |i: int| lines[i]@)
}

pub open spec fn string_views(v: Seq<String>) -> Seq<Seq<char>> {
    Seq::new(v.len(), |i: int| v[i]@)
}

impl View for Config {
    type V = ConfigView;

    open spec fn view(&self) -> ConfigView {
        ConfigView {
            origin: self.origin@,
            public_key: self.public_key@,
            destination: self.destination@,
            restart_units: string_views(self.restart_units@),
        }
    }
}

/// Decodes the base64 public key on a config line; it must be 32 bytes. Every
/// cause of failure gives the same error.
fn parse_public_key(lineno: usize, value: &str) -> (r: Result<[u8; 32], Error>)
    ensures
        r is Ok <==> (base64_text(value@) matches Some(b) && b.len() == 32),
        r matches Ok(k) ==> base64_text(value@) == Some(k@),
        r matches Err(e) ==> e == Error::InvalidPublicKeyData(lineno),
{
    match decode_base64_text(value) {
        None => Err(Error::InvalidPublicKeyData(lineno)),
        Some(bytes) => {
            if bytes.len() != 32 {
                return Err(Error::InvalidPublicKeyData(lineno));
            }
            Ok(to_array32(&bytes))
        },
    }
}

fn is_key(key: &str, name: &str) -> (r: bool)
    ensures
        r == (key@ == name@),
{
    str_eq(key, name)
}

impl Config {
    /// Parses the lines of a config file. Unknown keys, lines without `=`,
    /// malformed values and missing keys fail the whole load.
    pub fn parse(lines: &[&str]) -> (r: Result<Config, Error>)
        ensures
            r matches Ok(c) ==> config_of(line_views(lines@)) == Ok::<ConfigView, Error>(c@),
            r matches Err(e) ==> config_of(line_views(lines@)) == Err::<ConfigView, Error>(e),
    {
        let ghost ls = line_views(lines@);
        let mut origin: Option<String> = None;
        let mut public_key: Option<[u8; 32]> = None;
        let mut destination: Option<String> = None;
        let mut restart_units: Vec<String> = Vec::new();
        let mut n: usize = 0;
        proof {
            assert(string_views(restart_units@) =~= seq![]);
        }
        while n < lines.len()
            invariant
                ls == line_views(lines@),
                n <= lines@.len(),
                scan_lines(ls, n as nat) matches Ok(acc) && acc == (Settings {
                    origin: match origin { Some(o) => Some(o@), None => None },
                    public_key: match public_key { Some(k) => Some(k@), None => None },
                    destination: match destination { Some(d) => Some(d@), None => None },
                    restart_units: string_views(restart_units@),
                }),
            decreases lines@.len() - n,
        {
            let line: &str = lines[n];
            let ghost acc = scan_lines(ls, n as nat).unwrap();
            proof {
                assert(ls[n as int] == line@);
                reveal_strlit("Origin");
                reveal_strlit("PublicKey");
                reveal_strlit("Destination");
                reveal_strlit("RestartUnit");
            }
            let len = line.unicode_len();
            if len > 0 {
                let mut i: usize = 0;
                while i < len && line.get_char(i) != '='
                    invariant
                        len == line@.len(),
                        i <= len,
                        forall|k: int| 0 <= k < i ==> line@[k] != '=',
                    decreases len - i,
                {
                    i += 1;
                }
                proof {
                    lemma_equals_index(line@, i as int);
                }
                if i == len {
                    proof {
                        lemma_scan_err(ls, (n + 1) as nat, ls.len());
                    }
                    return Err(Error::InvalidConfig(n, MSG_NO_EQUALS));
                }
                let key = line.substring_char(0, i);
                let value = line.substring_char(i + 1, len);
                let repeated = (is_key(key, "Origin") && origin.is_some()) || (is_key(key, "PublicKey")
                    && public_key.is_some()) || (is_key(key, "Destination") && destination.is_some());
                if repeated {
                    proof {
                        lemma_scan_err(ls, (n + 1) as nat, ls.len());
                    }
                    return Err(Error::InvalidConfig(n, MSG_DUPLICATE_KEY));
                }
                if is_key(key, "Origin") {
                    if uri_parses(value) {
                        origin = Some(String::from_str(value));
                    } else {
                        proof {
                            lemma_scan_err(ls, (n + 1) as nat, ls.len());
                        }
                        return Err(Error::InvalidUri(n));
                    }
                } else if is_key(key, "PublicKey") {
                    match parse_public_key(n, value) {
                        Ok(k) => {
                            public_key = Some(k);
                        },
                        Err(e) => {
                            proof {
                                lemma_scan_err(ls, (n + 1) as nat, ls.len());
                            }
                            return Err(e);
                        },
                    }
                } else if is_key(key, "Destination") {
                    destination = Some(String::from_str(value));
                } else if is_key(key, "RestartUnit") {
                    let ghost old_units = restart_units@;
                    restart_units.push(String::from_str(value));
                    proof {
                        assert(string_views(restart_units@) =~= string_views(old_units).push(value@));
                    }
                } else {
                    proof {
                        lemma_scan_err(ls, (n + 1) as nat, ls.len());
                    }
                    return Err(Error::InvalidConfig(n, MSG_UNKNOWN_KEY));
                }
            }
            n += 1;
        }
        proof {
            assert(ls.len() == n);
        }
        let origin = match origin {
            Some(o) => o,
            None => {
                return Err(Error::IncompleteConfig(MSG_NO_ORIGIN));
            },
        };
        let public_key = match public_key {
            Some(k) => k,
            None => {
                return Err(Error::IncompleteConfig(MSG_NO_PUBLIC_KEY));
            },
        };
        let destination = match destination {
            Some(d) => d,
            None => {
                return Err(Error::IncompleteConfig(MSG_NO_DESTINATION));
            },
        };
        Ok(Config { origin, public_key, destination, restart_units })
    }
}

proof fn lemma_scan_err(lines: Seq<Seq<char>>, k: nat, m: nat)
    requires
        k <= m,
        scan_lines(lines, k) is Err,
    ensures
        scan_lines(lines, m) == scan_lines(lines, k),
    decreases m,
{
    if m > k {
        lemma_scan_err(lines, k, (m - 1) as nat);
    }
}

pub(crate) proof fn lemma_equals_index(s: Seq<char>, j: int)
    requires
        0 <= j <= s.len(),
        forall|i: int| 0 <= i < j ==> s[i] != '=',
        j == s.len() || s[j] == '=',
    ensures
        equals_index(s) == j,
    decreases j,
{
    if j > 0 {
        lemma_equals_index(s.drop_first(), j - 1);
    }
}

} // verus!
