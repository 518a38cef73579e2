//! Configuration: the party roster, the ports, the key-material paths, and
//! the session id derivation.
//!
//! Reading the configuration file itself is the surrounding program's job: it
//! hands the parsed raw values over, and this module applies the defaulting
//! rules and derives the session.

use vstd::prelude::*;
use vstd::string::StringExecFnsIsAscii;

use crate::crypto::sha256_of;
use crate::errors::SessionError;
use crate::{PartyID, SessionID};

verus! {

/// A network port.
pub type Port = u16;

/// Default listener port for parties that name none.
pub const DEFAULT_PORT: Port = 5000;

/// Idle timeout of the transport, in seconds.
pub const DEFAULT_TIMEOUT_SECS: u64 = 600;

/// Capacity of the command channels between the runtime's tasks.
pub const CHANNEL_CAPACITY: usize = 10;

/// A party's origin could not be parsed.
#[derive(Debug)]
pub struct ParseNameError(pub String);

/// Why a party origin string was rejected.
#[derive(Debug)]
pub enum ParseError {
    /// The port part did not parse as a number.
    ParseInt,
    /// The string had more than one separator.
    ParseName(ParseNameError),
}

/// Where a party listens: its host name, and its port if it names one.
#[derive(Debug, Clone)]
pub struct PartyOrigin {
    pub name: String,
    pub port: Option<Port>,
}

/// How the configuration gives the session id: as a value, as a decimal or
/// hexadecimal string to parse, or as text whose hash becomes the session id.
/// The strings stand as their UTF-8 bytes.
#[derive(Debug, Clone)]
pub enum Session {
    /// The session id itself.
    Value(SessionID),
    /// A decimal or hexadecimal string representation of the session id.
    Parse(Vec<u8>),
    /// Text that is hashed; the digest's first sixteen bytes, little-endian,
    /// become the session id.
    Text(Vec<u8>),
}

/// The numeric value of one digit byte in a radix, if it is one: the decimal
/// digits, and for radix sixteen the letters of either case.
pub open spec fn spec_digit_value(byte: u8, radix: u8) -> Option<u8> {
    let value: Option<u8> = if 48 <= byte <= 57 {
        Some((byte - 48) as u8)
    } else if 97 <= byte <= 102 {
        Some((byte - 87) as u8)
    } else if 65 <= byte <= 70 {
        Some((byte - 55) as u8)
    } else {
        None
    };
    match value {
        Some(d) => if d < radix {
            Some(d)
        } else {
            None
        },
        None => None,
    }
}

/// What parsing a digit string in a radix yields: the value, or nothing if a
/// byte is no digit of the radix, the string is empty, or the value exceeds
/// the session range.
pub open spec fn spec_parse_radix(bytes: Seq<u8>, radix: u8) -> Option<u128>
    decreases bytes.len(),
{
    if bytes.len() == 0 {
        None
    } else {
        match spec_digit_value(bytes.last(), radix) {
            None => None,
            Some(digit) => if bytes.len() == 1 {
                Some(digit as u128)
            } else {
                match spec_parse_radix(bytes.drop_last(), radix) {
                    None => None,
                    Some(high) => if high <= (u128::MAX - digit) as int / radix as int {
                        Some((high * radix + digit) as u128)
                    } else {
                        None
                    },
                }
            },
        }
    }
}

/// The session value a parse string gives, as std's unsigned parse reads it,
/// extended by the hexadecimal form: an optional leading plus sign, then
/// either hexadecimal digits marked by a `0x` or `0X` prefix, or decimal
/// digits.
pub open spec fn spec_parse_session_value(bytes: Seq<u8>) -> Option<u128> {
    let body = if bytes.len() > 0 && bytes[0] == 43 {
        bytes.skip(1)
    } else {
        bytes
    };
    if body.len() >= 2 && body[0] == 48 && (body[1] == 120 || body[1] == 88) {
        spec_parse_radix(body.skip(2), 16)
    } else {
        spec_parse_radix(body, 10)
    }
}

/// The numeric value of one digit byte in a radix, if it is one.
fn digit_value(byte: u8, radix: u8) -> (r: Option<u8>)
    ensures
        r == spec_digit_value(byte, radix),
{
    let value: Option<u8> = if 48 <= byte && byte <= 57 {
        Some(byte - 48)
    } else if 97 <= byte && byte <= 102 {
        Some(byte - 87)
    } else if 65 <= byte && byte <= 70 {
        Some(byte - 55)
    } else {
        None
    };
    match value {
        Some(d) => if d < radix {
            Some(d)
        } else {
            None
        },
        None => None,
    }
}

/// Parse the digits of a byte string from an offset, in a radix.
fn parse_radix(bytes: &[u8], offset: usize, radix: u8) -> (r: Option<u128>)
    requires
        offset <= bytes@.len(),
        radix == 10 || radix == 16,
    ensures
        r == spec_parse_radix(bytes@.skip(offset as int), radix),
{
    let ghost body = bytes@.skip(offset as int);
    if bytes.len() == offset {
        return None;
    }
    let mut value: u128 = 0;
    let mut i: usize = offset;
    while i < bytes.len()
        invariant
            offset <= i <= bytes@.len(),
            offset < bytes@.len(),
            radix == 10 || radix == 16,
            body == bytes@.skip(offset as int),
            i > offset ==> spec_parse_radix(body.take(i - offset), radix) == Some(value),
            i == offset ==> value == 0,
        decreases bytes@.len() - i,
    {
        let ghost k = i - offset;
        let byte = *vstd::slice::slice_index_get(bytes, i);
        proof {
            assert(body[k as int] == bytes@[i as int]);
            assert(body.take(k + 1).drop_last() =~= body.take(k as int));
            assert(body.take(k + 1).last() == body[k as int]);
        }
        let digit = match digit_value(byte, radix) {
            Some(digit) => digit,
            None => {
                proof {
                    lemma_parse_radix_bad_digit(body, radix, k as int);
                }
                return None;
            },
        };
        let wide = digit as u128;
        if i > offset {
            if value > (u128::MAX - wide) / (radix as u128) {
                proof {
                    lemma_parse_radix_none_persists(body, radix, k + 1);
                }
                return None;
            }
            value = value * (radix as u128) + wide;
        } else {
            value = wide;
        }
        i = i + 1;
    }
    proof {
        assert(body.take(body.len() as int) == body);
    }
    Some(value)
}

/// Parse a session value string: an optional leading plus sign, then either
/// hexadecimal digits marked by a `0x` or `0X` prefix, or decimal digits.
pub fn parse_session_value(bytes: &[u8]) -> (r: Option<u128>)
    ensures
        r == spec_parse_session_value(bytes@),
{
    let mut offset: usize = 0;
    if bytes.len() > 0 && *vstd::slice::slice_index_get(bytes, 0) == 43 {
        offset = 1;
    }
    let ghost body = bytes@.skip(offset as int);
    proof {
        assert(bytes@.skip(0) =~= bytes@);
        assert(forall|j: int| 0 <= j < body.len() ==> body[j] == bytes@[j + offset]);
    }
    if bytes.len() >= offset + 2 && *vstd::slice::slice_index_get(bytes, offset) == 48 {
        let marker = *vstd::slice::slice_index_get(bytes, offset + 1);
        if marker == 120 || marker == 88 {
            let r = parse_radix(bytes, offset + 2, 16);
            proof {
                assert(bytes@.skip(offset as int + 2) =~= body.skip(2));
            }
            return r;
        }
    }
    parse_radix(bytes, offset, 10)
}

proof fn lemma_parse_radix_bad_digit(bytes: Seq<u8>, radix: u8, i: int)
    requires
        0 <= i < bytes.len(),
        spec_digit_value(bytes[i], radix) is None,
    ensures
        spec_parse_radix(bytes, radix) is None,
    decreases bytes.len(),
{
    if i < bytes.len() - 1 {
        assert(bytes.drop_last()[i] == bytes[i]);
        lemma_parse_radix_bad_digit(bytes.drop_last(), radix, i);
    }
}

proof fn lemma_parse_radix_none_persists(bytes: Seq<u8>, radix: u8, n: int)
    requires
        0 < n <= bytes.len(),
        spec_parse_radix(bytes.take(n), radix) is None,
    ensures
        spec_parse_radix(bytes, radix) is None,
    decreases bytes.len() - n,
{
    if n == bytes.len() {
        assert(bytes.take(n) == bytes);
    } else {
        assert(bytes.take(n + 1).drop_last() =~= bytes.take(n));
        lemma_parse_radix_none_persists(bytes, radix, n + 1);
    }
}

/// The session id a session entry gives: a value as it is; a decimal string
/// parsed; text hashed, the digest's first sixteen bytes read little-endian.
pub open spec fn spec_resolve_session(s: Session) -> Result<SessionID, SessionError> {
    match s {
        Session::Value(value) => Ok(value),
        Session::Parse(bytes) => match spec_parse_session_value(bytes@) {
            Some(value) => Ok(value),
            None => Err(SessionError::Parse),
        },
        Session::Text(bytes) => Ok(
            vstd::bytes::spec_u128_from_le_bytes(sha256_of(bytes@).subrange(0, 16)),
        ),
    }
}

impl Session {
    /// The session id this gives: a value as it is; a decimal string parsed;
    /// text hashed, the digest's first sixteen bytes read little-endian.
    pub fn resolve(&self) -> (r: Result<SessionID, SessionError>)
        ensures
            r == spec_resolve_session(*self),
    {
        match self {
            Session::Value(value) => Ok(*value),
            Session::Parse(s) => match parse_session_value(s.as_slice()) {
                Some(value) => Ok(value),
                None => Err(SessionError::Parse),
            },
            Session::Text(s) => {
                let digest = crate::crypto::hash(s.as_slice());
                let value = vstd::bytes::u128_from_le_bytes(
                    vstd::slice::slice_subrange(digest.as_slice(), 0, 16),
                );
                Ok(value)
            },
        }
    }
}

/// The raw configuration as a file gives it: every directory and the session
/// may be missing and is then defaulted.
#[derive(Debug, Clone)]
pub struct RawConfig {
    pub parties: Vec<(PartyID, PartyOrigin)>,
    pub port: Option<Port>,
    pub cert_dir: Option<String>,
    pub cert_keys_dir: Option<String>,
    pub sign_verify_dir: Option<String>,
    pub sign_keys_dir: Option<String>,
    pub session: Option<Session>,
}

/// The resolved configuration: the party roster ordered by id, the default
/// port, the key-material directories, and the session id.
#[derive(Debug, Clone)]
pub struct Config {
    pub parties: Vec<(PartyID, PartyOrigin)>,
    pub port: Option<Port>,
    pub cert_dir: String,
    pub cert_keys_dir: String,
    pub sign_verify_dir: String,
    pub sign_keys_dir: String,
    pub session: SessionID,
}

/// The position of a party in a roster, if it is in it.
pub open spec fn spec_party_index(parties: Seq<(PartyID, PartyOrigin)>, id: PartyID) -> Option<int>
    decreases parties.len(),
{
    if parties.len() == 0 {
        None
    } else if parties.last().0 == id {
        Some(parties.len() - 1)
    } else {
        spec_party_index(parties.drop_last(), id)
    }
}

impl Config {
    /// Resolve a raw configuration: directories default to the conventional
    /// ones under `base_dir`; the session comes from the environment value if
    /// one is given, else from the configuration, and is required.
    pub fn from_raw(raw: RawConfig, base_dir: &str, env_session: Option<Session>) -> (r: Result<
        Config,
        SessionError,
    >)
        ensures
            ({
                let source = if env_session is Some {
                    env_session
                } else {
                    raw.session
                };
                match source {
                    None => r == Err::<Config, SessionError>(SessionError::NotFound),
                    Some(session) => match spec_resolve_session(session) {
                        Ok(value) => r is Ok && r->Ok_0.session == value,
                        Err(e) => r == Err::<Config, SessionError>(e),
                    },
                }
            }),
            r matches Ok(config) ==> {
                &&& config.parties@ == raw.parties@
                &&& config.port == raw.port
                &&& (raw.cert_dir is Some ==> config.cert_dir@ == raw.cert_dir->Some_0@)
                &&& (raw.cert_dir is None ==> config.cert_dir@ == base_dir@ + "/cert"@)
                &&& (raw.cert_keys_dir is Some ==> config.cert_keys_dir@
                    == raw.cert_keys_dir->Some_0@)
                &&& (raw.cert_keys_dir is None ==> config.cert_keys_dir@ == base_dir@
                    + "/cert-keys"@)
                &&& (raw.sign_verify_dir is Some ==> config.sign_verify_dir@
                    == raw.sign_verify_dir->Some_0@)
                &&& (raw.sign_verify_dir is None ==> config.sign_verify_dir@ == base_dir@
                    + "/sign-verify"@)
                &&& (raw.sign_keys_dir is Some ==> config.sign_keys_dir@
                    == raw.sign_keys_dir->Some_0@)
                &&& (raw.sign_keys_dir is None ==> config.sign_keys_dir@ == base_dir@
                    + "/sign-keys"@)
            },
    {
        let session_source = match env_session {
            Some(session) => Some(session),
            None => raw.session,
        };
        let session = match session_source {
            None => {
                return Err(SessionError::NotFound);
            },
            Some(source) => {
                match source.resolve() {
                    Ok(session) => session,
                    Err(e) => {
                        return Err(e);
                    },
                }
            },
        };
        let cert_dir = resolve_dir(raw.cert_dir, base_dir, "/cert");
        let cert_keys_dir = resolve_dir(raw.cert_keys_dir, base_dir, "/cert-keys");
        let sign_verify_dir = resolve_dir(raw.sign_verify_dir, base_dir, "/sign-verify");
        let sign_keys_dir = resolve_dir(raw.sign_keys_dir, base_dir, "/sign-keys");
        Ok(
            Config {
                parties: raw.parties,
                port: raw.port,
                cert_dir,
                cert_keys_dir,
                sign_verify_dir,
                sign_keys_dir,
                session,
            },
        )
    }

    /// Locate a party in the roster.
    fn party_index(&self, id: PartyID) -> (r: Option<usize>)
        ensures
            match r {
                Some(j) => spec_party_index(self.parties@, id) == Some(j as int) && j
                    < self.parties@.len(),
                None => spec_party_index(self.parties@, id) is None,
            },
    {
        let mut idx: Option<usize> = None;
        let mut m: usize = 0;
        while m < self.parties.len()
            invariant
                m <= self.parties@.len(),
                match idx {
                    Some(w) => w < m && self.parties@[w as int].0 == id && forall|k: int|
                        w < k < m ==> (#[trigger] self.parties@[k]).0 != id,
                    None => forall|k: int| 0 <= k < m ==> (#[trigger] self.parties@[k]).0 != id,
                },
            decreases self.parties@.len() - m,
        {
            if self.parties[m].0 == id {
                idx = Some(m);
            }
            m = m + 1;
        }
        proof {
            match idx {
                Some(w) => lemma_party_index_at(self.parties@, id, w as int),
                None => lemma_party_index_absent(self.parties@, id),
            }
        }
        idx
    }

    /// The port of a party: its own if it names one, else the configuration's
    /// default, else the built-in default.
    pub fn port(&self, id: PartyID) -> (r: Port)
        ensures
            r == ({
                let own = match spec_party_index(self.parties@, id) {
                    Some(j) => self.parties@[j].1.port,
                    None => None,
                };
                match own {
                    Some(port) => port,
                    None => match self.port {
                        Some(port) => port,
                        None => DEFAULT_PORT,
                    },
                }
            }),
    {
        let own = match self.party_index(id) {
            Some(j) => self.parties[j].1.port,
            None => None,
        };
        match own {
            Some(port) => port,
            None => match self.port {
                Some(port) => port,
                None => DEFAULT_PORT,
            },
        }
    }

    /// The host name of a party, which must be in the roster.
    pub fn name(&self, id: PartyID) -> (r: String)
        requires
            spec_party_index(self.parties@, id) is Some,
        ensures
            r@ == self.parties@[spec_party_index(self.parties@, id)->Some_0].1.name@,
    {
        match self.party_index(id) {
            Some(j) => {
                let name: &String = &self.parties[j].1.name;
                let copy: String = name.clone();
                copy
            },
            None => vstd::pervasive::unreached(),
        }
    }

    /// The file name of a party's certificate.
    pub fn cert_filename(&self, id: PartyID) -> (r: String)
        ensures
            r@ == self.cert_dir@ + "/"@ + spec_u16_decimal(id) + ".x509.cert.der"@,
    {
        build_filename(&self.cert_dir, id, ".x509.cert.der")
    }

    /// The file name of a party's certificate private key.
    pub fn cert_key_filename(&self, id: PartyID) -> (r: String)
        ensures
            r@ == self.cert_keys_dir@ + "/"@ + spec_u16_decimal(id) + ".cert-private.key.der"@,
    {
        build_filename(&self.cert_keys_dir, id, ".cert-private.key.der")
    }

    /// The file name of a party's signature-verification key.
    pub fn verification_key_filename(&self, id: PartyID) -> (r: String)
        ensures
            r@ == self.sign_verify_dir@ + "/"@ + spec_u16_decimal(id)
                + ".ed25519-public.key.bin"@,
    {
        build_filename(&self.sign_verify_dir, id, ".ed25519-public.key.bin")
    }

    /// The file name of a party's signing key.
    pub fn signing_key_filename(&self, id: PartyID) -> (r: String)
        ensures
            r@ == self.sign_keys_dir@ + "/"@ + spec_u16_decimal(id) + ".ed25519-private.key.der"@,
    {
        build_filename(&self.sign_keys_dir, id, ".ed25519-private.key.der")
    }
}

proof fn lemma_party_index_at(parties: Seq<(PartyID, PartyOrigin)>, id: PartyID, j: int)
    requires
        0 <= j < parties.len(),
        parties[j].0 == id,
        forall|k: int| j < k < parties.len() ==> (#[trigger] parties[k]).0 != id,
    ensures
        spec_party_index(parties, id) == Some(j),
    decreases parties.len(),
{
    if j < parties.len() - 1 {
        assert(parties.drop_last()[j] == parties[j]);
        assert(forall|k: int| j < k < parties.len() - 1 ==> (#[trigger] parties.drop_last()[k])
            == parties[k]);
        lemma_party_index_at(parties.drop_last(), id, j);
    }
}

proof fn lemma_party_index_absent(parties: Seq<(PartyID, PartyOrigin)>, id: PartyID)
    requires
        forall|k: int| 0 <= k < parties.len() ==> (#[trigger] parties[k]).0 != id,
    ensures
        spec_party_index(parties, id) is None,
    decreases parties.len(),
{
    if parties.len() > 0 {
        assert(forall|k: int| 0 <= k < parties.len() - 1 ==> (#[trigger] parties.drop_last()[k])
            == parties[k]);
        lemma_party_index_absent(parties.drop_last(), id);
    }
}

/// A directory as given, or the default one under the base directory.
fn resolve_dir(given: Option<String>, base_dir: &str, default_suffix: &str) -> (r: String)
    ensures
        given is Some ==> r@ == given->Some_0@,
        given is None ==> r@ == base_dir@ + default_suffix@,
{
    match given {
        Some(dir) => dir,
        None => {
            let mut out = base_dir.to_owned();
            out.append(default_suffix);
            out
        },
    }
}

/// The decimal digits of a number, most significant first.
pub open spec fn spec_u16_decimal(n: u16) -> Seq<char>
    decreases n,
{
    if n < 10 {
        seq![spec_digit_char(n as u8)]
    } else {
        spec_u16_decimal(n / 10).push(spec_digit_char((n % 10) as u8))
    }
}

/// The character of one decimal digit.
pub open spec fn spec_digit_char(d: u8) -> char {
    if d == 0 {
        '0'
    } else if d == 1 {
        '1'
    } else if d == 2 {
        '2'
    } else if d == 3 {
        '3'
    } else if d == 4 {
        '4'
    } else if d == 5 {
        '5'
    } else if d == 6 {
        '6'
    } else if d == 7 {
        '7'
    } else if d == 8 {
        '8'
    } else {
        '9'
    }
}

/// The string of one decimal digit.
fn digit_str(d: u8) -> (r: &'static str)
    requires
        d < 10,
    ensures
        r@ == seq![spec_digit_char(d)],
{
    proof {
        reveal_strlit("0");
        reveal_strlit("1");
        reveal_strlit("2");
        reveal_strlit("3");
        reveal_strlit("4");
        reveal_strlit("5");
        reveal_strlit("6");
        reveal_strlit("7");
        reveal_strlit("8");
        reveal_strlit("9");
    }
    if d == 0 {
        "0"
    } else if d == 1 {
        "1"
    } else if d == 2 {
        "2"
    } else if d == 3 {
        "3"
    } else if d == 4 {
        "4"
    } else if d == 5 {
        "5"
    } else if d == 6 {
        "6"
    } else if d == 7 {
        "7"
    } else if d == 8 {
        "8"
    } else {
        "9"
    }
}

/// Append the decimal digits of a number to a string.
fn push_u16_decimal(out: &mut String, n: u16)
    ensures
        final(out)@ == old(out)@ + spec_u16_decimal(n),
    decreases n,
{
    if n >= 10 {
        push_u16_decimal(out, n / 10);
    }
    out.append(digit_str((n % 10) as u8));
    proof {
        assert(out@ =~= old(out)@ + spec_u16_decimal(n));
    }
}

/// Build the path of one party's key-material file: the directory, the
/// party's id in decimal, and the file-kind suffix.
fn build_filename(dir: &String, id: PartyID, suffix: &str) -> (r: String)
    ensures
        r@ == dir@ + "/"@ + spec_u16_decimal(id) + suffix@,
{
    let mut out = dir.clone();
    out.append("/");
    push_u16_decimal(&mut out, id);
    out.append(suffix);
    out
}

/// The fallback configuration path.
pub fn fallback_path() -> (r: String)
    ensures
        r@ == "mpc.yaml"@,
{
    let r = String::from_str("mpc.yaml");
    r
}

/// The configuration path to read: the environment's path when one is set,
/// else the given one, else the fallback path.
pub fn resolve_config_path(env_path: Option<String>, given: Option<String>) -> (r: String)
    ensures
        env_path matches Some(path) ==> r@ == path@,
        env_path is None && given is Some ==> r@ == given->Some_0@,
        env_path is None && given is None ==> r@ == "mpc.yaml"@,
{
    match env_path {
        Some(path) => path,
        None => match given {
            Some(path) => path,
            None => fallback_path(),
        },
    }
}

} // verus!
