//! What a run is told from outside: the object's length and digest, and the
//! server to ask.

use crate::decimal::{parse_u32, parse_u32_spec};
use crate::text::{char_is_hex_digit, is_hex_digit, trim, trimmed};
use vstd::prelude::*;
use vstd::std_specs::iter::IteratorSpec;
use vstd::string::*;

verus! {

/// Number of hexadecimal digits in a SHA-256 digest.
pub const DIGEST_LEN: usize = 64;

/// Length and digest of the object to fetch.
#[derive(Clone, Debug, PartialEq, Eq)]
pub struct DataConfig {
    /// Number of bytes of the object.
    pub len: u32,
    /// SHA-256 digest of the object, as hexadecimal digits.
    pub hash: String,
}

/// The server that holds the object.
#[derive(Clone, Debug, PartialEq, Eq)]
pub struct ServerConfig {
    /// Where the server listens, as `host:port`.
    pub addr: String,
}

/// Configuration taken from the command line.
#[derive(Clone, Debug, PartialEq, Eq)]
pub struct Config {
    /// Length and digest of the object to fetch.
    pub data: DataConfig,
}

/// True for a text of 64 hexadecimal digits.
pub open spec fn is_digest(s: Seq<char>) -> bool {
    s.len() == DIGEST_LEN && forall|i: int| 0 <= i < s.len() ==> is_hex_digit(#[trigger] s[i])
}

/// What the command line `args` configures: the first argument after the
/// program's name is the length, the second the digest. The error names the
/// first thing that is missing or malformed.
pub open spec fn build_spec(args: Seq<String>) -> Result<(u32, Seq<char>), Seq<char>> {
    if args.len() < 2 {
        Err("Didn't get data length"@)
    } else if parse_u32_spec(args[1]@) is None {
        Err("Could not parse data length"@)
    } else if args.len() < 3 {
        Err("Didn't get data hash"@)
    } else if !is_digest(args[2]@) {
        Err("Could not parse data hash"@)
    } else {
        Ok((parse_u32_spec(args[1]@)->0, args[2]@))
    }
}

/// Tells whether `s` is a text of 64 hexadecimal digits.
pub fn check_digest(s: &str) -> (valid: bool)
    ensures
        valid == is_digest(s@),
{
    let len: usize = s.unicode_len();
    if len != DIGEST_LEN {
        return false;
    }
    let mut i: usize = 0;
    while i < len
        invariant
            i <= len,
            len == s@.len(),
            forall|j: int| 0 <= j < i ==> is_hex_digit(#[trigger] s@[j]),
        decreases len - i,
    {
        if !char_is_hex_digit(s.get_char(i)) {
            return false;
        }
        i = i + 1;
    }
    true
}

/// Reads the object's length from a line of input: a `u32` in decimal
/// notation, white space around it ignored.
pub fn length_from_line(line: &str) -> (len: Option<u32>)
    ensures
        len == parse_u32_spec(trimmed(line@)),
{
    parse_u32(trim(line))
}

/// Reads the object's digest from a line of input: 64 hexadecimal digits,
/// white space around them ignored.
pub fn hash_from_line(line: &str) -> (hash: Option<String>)
    ensures
        match hash {
            Some(h) => is_digest(h@) && h@ == trimmed(line@),
            None => !is_digest(trimmed(line@)),
        },
{
    let inner = trim(line);
    if check_digest(inner) {
        Some(String::from_str(inner))
    } else {
        None
    }
}

impl DataConfig {
    /// The configuration of an object of `len` bytes with digest `hash`.
    /// Any text is taken as a digest; one that is no digest matches no
    /// object.
    pub fn new(len: u32, hash: String) -> (config: Self)
        ensures
            config.len == len,
            config.hash == hash,
    {
        Self { len, hash }
    }

    /// True when the digest has the form of a SHA-256 digest.
    pub open spec fn well_formed(&self) -> bool {
        is_digest(self.hash@)
    }

    /// Tells whether the digest has the form of a SHA-256 digest.
    pub fn is_well_formed(&self) -> (valid: bool)
        ensures
            valid == self.well_formed(),
    {
        check_digest(self.hash.as_str())
    }
}

impl ServerConfig {
    /// The configuration of the server at `addr`.
    pub fn new(addr: String) -> (config: Self)
        ensures
            config.addr == addr,
    {
        Self { addr }
    }
}

impl Config {
    /// Reads the configuration from the program's arguments, the program's
    /// name first.
    pub fn build(mut args: impl Iterator<Item = String>) -> (result: Result<Self, &'static str>)
        ensures
            args.obeys_prophetic_iter_laws() ==> match result {
                Ok(config) => build_spec(args.remaining()) == Ok::<_, Seq<char>>(
                    (config.data.len, config.data.hash@),
                ),
                Err(message) => build_spec(args.remaining()) == Err::<(u32, Seq<char>), _>(
                    message@,
                ),
            },
    {
        let _ = args.next();
        let len: u32 = match args.next() {
            None => {
                return Err("Didn't get data length");
            },
            Some(text) => match parse_u32(text.as_str()) {
                None => {
                    return Err("Could not parse data length");
                },
                Some(len) => len,
            },
        };
        let hash = match args.next() {
            None => {
                return Err("Didn't get data hash");
            },
            Some(hash) => hash,
        };
        if !check_digest(hash.as_str()) {
            return Err("Could not parse data hash");
        }
        Ok(Self { data: DataConfig { len, hash } })
    }
}

} // verus!
