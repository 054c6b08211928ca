//! Request authentication: parsing HTTP Basic credentials.  Password
//! hashing and session handling are outside collaborators; the library
//! holds the pure parsing rule.

use vstd::prelude::*;
use vstd::string::StrSliceExecFns;

verus! {

/// A username and password as a client presented them.
#[derive(Debug)]
pub struct Credentials {
    pub username: String,
    pub password: String,
}

/// Why an Authorization header was rejected.
#[derive(Clone, Copy, PartialEq, Eq, Structural, Debug)]
pub enum BasicAuthError {
    MissingScheme,
    InvalidBase64,
    InvalidUtf8,
    MissingPassword,
}

/// Errors of the login flow; the HTTP shape of each is the caller's
/// business.
pub enum LoginError {
    AuthError(String),
    UnexpectedError(String),
}

/// What base64's standard-alphabet engine decodes a string to, or
/// nothing where it rejects the string; a function of the text alone.
pub uninterp spec fn base64_standard_decoding(s: Seq<char>) -> Option<Seq<u8>>;

/// Relies on base64's STANDARD engine decode, whose result depends on
/// the text alone.
#[verifier::external_body]
fn base64_decode(s: &str) -> (r: Option<Vec<u8>>)
    ensures
        match r {
            Some(v) => base64_standard_decoding(s@) == Some(v@),
            None => base64_standard_decoding(s@) is None,
        },
{
    match base64::Engine::decode(&base64::engine::general_purpose::STANDARD, s) {
        Ok(v) => Some(v),
        Err(_) => None,
    }
}

/// What UTF-8 decoding makes of a byte string, or nothing where the
/// bytes are not valid UTF-8; a function of the bytes alone.
pub uninterp spec fn utf8_decoding(bytes: Seq<u8>) -> Option<Seq<char>>;

/// Relies on String::from_utf8, whose result depends on the bytes alone.
#[verifier::external_body]
fn utf8_decode(bytes: Vec<u8>) -> (r: Option<String>)
    ensures
        match r {
            Some(t) => utf8_decoding(bytes@) == Some(t@),
            None => utf8_decoding(bytes@) is None,
        },
{
    match String::from_utf8(bytes) {
        Ok(s) => Some(s),
        Err(_) => None,
    }
}

/// The position of the first colon in `s`, where the credential string
/// splits into username and password.
pub open spec fn first_colon(s: Seq<char>) -> Option<int>
    decreases s.len(),
{
    if s.len() == 0 {
        None
    } else if s[0] == ':' {
        Some(0)
    } else {
        match first_colon(s.skip(1)) {
            Some(j) => Some(j + 1),
            None => None,
        }
    }
}

/// What [`first_colon`] returns: the least index holding a colon, or
/// nothing when there is none.
pub proof fn lemma_first_colon_props(s: Seq<char>)
    ensures
        match first_colon(s) {
            Some(i) => 0 <= i < s.len() && s[i] == ':' && (forall|j: int|
                0 <= j < i ==> s[j] != ':'),
            None => forall|j: int| 0 <= j < s.len() ==> s[j] != ':',
        },
    decreases s.len(),
{
    if s.len() > 0 && s[0] != ':' {
        lemma_first_colon_props(s.skip(1));
        match first_colon(s.skip(1)) {
            Some(j) => {
                assert(s.skip(1)[j] == s[j + 1]);
                assert forall|k: int| 0 <= k < j + 1 implies s[k] != ':' by {
                    if k > 0 {
                        assert(s.skip(1)[k - 1] != ':');
                        assert(s.skip(1)[k - 1] == s[k]);
                    }
                }
            },
            None => {
                assert forall|k: int| 0 <= k < s.len() implies s[k] != ':' by {
                    if k > 0 {
                        assert(s.skip(1)[k - 1] != ':');
                        assert(s.skip(1)[k - 1] == s[k]);
                    }
                }
            },
        }
    }
}

/// What parsing an Authorization header yields: the username and
/// password split at the first colon of the decoded credential string,
/// or the first failure along the way.
pub open spec fn basic_authentication_spec(header: Seq<char>) -> Result<
    (Seq<char>, Seq<char>),
    BasicAuthError,
> {
    if !(header.len() >= 6 && header.take(6) == "Basic "@) {
        Err(BasicAuthError::MissingScheme)
    } else {
        match base64_standard_decoding(header.skip(6)) {
            None => Err(BasicAuthError::InvalidBase64),
            Some(bytes) => match utf8_decoding(bytes) {
                None => Err(BasicAuthError::InvalidUtf8),
                Some(text) => match first_colon(text) {
                    None => Err(BasicAuthError::MissingPassword),
                    Some(i) => Ok((text.take(i), text.skip(i + 1))),
                },
            },
        }
    }
}

/// Parses an Authorization header carrying HTTP Basic credentials:
/// strips the scheme, decodes the base64 segment, and splits the decoded
/// text at its first colon.
pub fn basic_authentication(header_value: &str) -> (r: Result<Credentials, BasicAuthError>)
    ensures
        match r {
            Ok(c) => basic_authentication_spec(header_value@) matches Ok(p) && c.username@ == p.0
                && c.password@ == p.1,
            Err(e) => basic_authentication_spec(header_value@) == Err::<
                (Seq<char>, Seq<char>),
                BasicAuthError,
            >(e),
        },
{
    proof {
        reveal_strlit("Basic ");
    }
    let header_len = header_value.unicode_len();
    if header_len < 6 {
        return Err(BasicAuthError::MissingScheme);
    }
    let prefix = String::from_str(header_value.substring_char(0, 6));
    proof {
        assert(prefix@ =~= header_value@.take(6));
    }
    if !(prefix == String::from_str("Basic ")) {
        return Err(BasicAuthError::MissingScheme);
    }
    let segment = header_value.substring_char(6, header_len);
    proof {
        assert(segment@ =~= header_value@.skip(6));
    }
    let decoded_bytes = match base64_decode(segment) {
        Some(v) => v,
        None => {
            return Err(BasicAuthError::InvalidBase64);
        },
    };
    let text = match utf8_decode(decoded_bytes) {
        Some(t) => t,
        None => {
            return Err(BasicAuthError::InvalidUtf8);
        },
    };
    let text_str = text.as_str();
    let text_len = text_str.unicode_len();
    proof {
        assert(basic_authentication_spec(header_value@) == (match first_colon(text_str@) {
            None => Err::<(Seq<char>, Seq<char>), BasicAuthError>(BasicAuthError::MissingPassword),
            Some(k) => Ok::<(Seq<char>, Seq<char>), BasicAuthError>(
                (text_str@.take(k), text_str@.skip(k + 1)),
            ),
        }));
    }
    let mut i: usize = 0;
    while i < text_len
        invariant
            text_len == text_str@.len(),
            0 <= i <= text_len,
            forall|j: int| 0 <= j < i ==> text_str@[j] != ':',
            basic_authentication_spec(header_value@) == (match first_colon(text_str@) {
                None => Err::<(Seq<char>, Seq<char>), BasicAuthError>(
                    BasicAuthError::MissingPassword,
                ),
                Some(k) => Ok::<(Seq<char>, Seq<char>), BasicAuthError>(
                    (text_str@.take(k), text_str@.skip(k + 1)),
                ),
            }),
        decreases text_len - i,
    {
        if text_str.get_char(i) == ':' {
            proof {
                lemma_first_colon_props(text_str@);
                match first_colon(text_str@) {
                    Some(k) => {
                        if k < i {
                            assert(text_str@[k] != ':');
                            assert(false);
                        } else if k > i {
                            assert(text_str@[i as int] != ':');
                            assert(false);
                        }
                    },
                    None => {
                        assert(text_str@[i as int] != ':');
                        assert(false);
                    },
                }
            }
            let username = String::from_str(text_str.substring_char(0, i));
            let password = String::from_str(text_str.substring_char(i + 1, text_len));
            proof {
                assert(username@ =~= text_str@.take(i as int));
                assert(password@ =~= text_str@.skip(i as int + 1));
            }
            return Ok(Credentials { username, password });
        }
        i = i + 1;
    }
    proof {
        lemma_first_colon_props(text_str@);
        match first_colon(text_str@) {
            Some(k) => {
                assert(text_str@[k] != ':');
                assert(false);
            },
            None => {},
        }
    }
    Err(BasicAuthError::MissingPassword)
}


/// The shortest password the admin password-change flow accepts.
pub open spec fn min_password_length() -> int {
    12
}

/// The password-change rule: the new password must match its
/// confirmation and be at least [`min_password_length`] characters long.
/// Hashing and storage are outside collaborators.
pub fn new_password_acceptable(new_password: &String, new_password_check: &String) -> (r: bool)
    ensures
        r == (new_password@ == new_password_check@ && new_password@.len()
            >= min_password_length()),
{
    if !(String::eq(new_password, new_password_check)) {
        return false;
    }
    new_password.as_str().unicode_len() >= 12
}

} // verus!
