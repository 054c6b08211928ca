//! Settings the running service is wired with.  Loading them from files
//! and the environment is I/O and lives outside the library; here are the
//! plain settings types and the pure parsing rules.

use vstd::prelude::*;

verus! {

/// Where the HTTP listener binds.
pub struct AppSettings {
    pub host: [u8; 4],
    pub port: u16,
}

/// The default timeout for the outbound email client, in milliseconds.
pub fn default_timeout_milliseconds() -> (r: u64)
    ensures
        r == 10000,
{
    10_000
}

/// What str::to_lowercase returns for a string; a function of the text
/// alone.
pub uninterp spec fn lower_of(s: Seq<char>) -> Seq<char>;

/// Relies on str::to_lowercase, whose result depends on the characters
/// alone.
#[verifier::external_body]
fn lowercase(s: &str) -> (r: String)
    ensures
        r@ == lower_of(s@),
{
    s.to_lowercase()
}

/// Which configuration profile the process runs under.
#[derive(Clone, Copy, PartialEq, Eq, Structural, Debug)]
pub enum RunningEnv {
    Local,
    Production,
}

impl RunningEnv {
    /// The profile's name, as configuration files spell it.
    pub fn as_str(&self) -> (r: &'static str)
        ensures
            *self is Local ==> r@ == "local"@,
            *self is Production ==> r@ == "production"@,
    {
        match self {
            RunningEnv::Local => "local",
            RunningEnv::Production => "production",
        }
    }

    /// Parses a profile name, ignoring case: exactly the strings that
    /// lowercase to a profile's name are accepted.
    pub fn from_str(s: &str) -> (r: Result<RunningEnv, &'static str>)
        ensures
            ({
                let l = lower_of(s@);
                match r {
                    Ok(e) => (e is Local && l == "local"@) || (e is Production && l
                        == "production"@),
                    Err(_) => l != "local"@ && l != "production"@,
                }
            }),
    {
        proof {
            reveal_strlit("local");
            reveal_strlit("production");
        }
        let lowered = lowercase(s);
        if lowered == String::from_str("local") {
            Ok(RunningEnv::Local)
        } else if lowered == String::from_str("production") {
            Ok(RunningEnv::Production)
        } else {
            Err("Invalid environment specified")
        }
    }
}

} // verus!
