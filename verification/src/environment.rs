use vstd::prelude::*;
use crate::errors::ConfigError;

verus! {

/// The possible runtime environments for the application.
#[derive(Clone, Copy, Debug, PartialEq, Eq, Structural)]
pub enum Environment {
    Local,
    Production,
}

/// ASCII lowercasing of one character.
pub open spec fn lower_char(c: char) -> char {
    if 65 <= c as u32 <= 90 {
        (((c as u32) + 32) as u8) as char
    } else {
        c
    }
}

/// ASCII lowercasing of a character sequence.
pub open spec fn lower_seq(s: Seq<char>) -> Seq<char> {
    Seq::new(s.len(), |i: int| lower_char(s[i]))
}

/// `s` matches `t` up to ASCII case, where `t` is already lowercase.
pub open spec fn matches_ci(s: Seq<char>, t: Seq<char>) -> bool {
    lower_seq(s) == t
}

/// What resolving a candidate environment string yields: the matching
/// variant under case-insensitive comparison, or the offending string.
pub open spec fn resolve_v(cand: Seq<char>) -> Result<Environment, Seq<char>> {
    if matches_ci(cand, "local"@) {
        Ok(Environment::Local)
    } else if matches_ci(cand, "production"@) {
        Ok(Environment::Production)
    } else {
        Err(cand)
    }
}

pub(crate) fn lower_char_x(c: char) -> (r: char)
    ensures
        r == lower_char(c),
{
    let cu = c as u32;
    if 65 <= cu && cu <= 90 {
        ((cu + 32) as u8) as char
    } else {
        c
    }
}

/// `s` equals the (lowercase) literal `t` up to ASCII case.
fn eq_ci(s: &str, t: &str) -> (r: bool)
    ensures
        r == matches_ci(s@, t@),
{
    let n = s.unicode_len();
    let m = t.unicode_len();
    if n != m {
        proof {
            assert(lower_seq(s@).len() == s@.len());
        }
        return false;
    }
    let mut i: usize = 0;
    while i < n
        invariant
            i <= n,
            n == s@.len(),
            n == t@.len(),
            forall|j: int| 0 <= j < i ==> lower_seq(s@)[j] == t@[j],
        decreases n - i,
    {
        let c = lower_char_x(s.get_char(i));
        let d = t.get_char(i);
        if c != d {
            proof {
                assert(lower_seq(s@)[i as int] != t@[i as int]);
            }
            return false;
        }
        i += 1;
    }
    proof {
        assert(lower_seq(s@) =~= t@);
    }
    true
}

impl Environment {
    /// Canonical lowercase name of the environment.
    pub open spec fn name(self) -> Seq<char> {
        match self {
            Environment::Local => "local"@,
            Environment::Production => "production"@,
        }
    }

    pub fn as_str(&self) -> (r: &'static str)
        ensures
            r@ == self.name(),
    {
        match self {
            Environment::Local => "local",
            Environment::Production => "production",
        }
    }

    /// Name of the environment-specific configuration file.
    pub fn file_name(&self) -> (r: &'static str)
        ensures
            r@ == self.name() + ".yaml"@,
    {
        proof {
            reveal_strlit("local");
            reveal_strlit("production");
            reveal_strlit(".yaml");
            reveal_strlit("local.yaml");
            reveal_strlit("production.yaml");
        }
        match self {
            Environment::Local => {
                proof {
                    assert("local.yaml"@ =~= "local"@ + ".yaml"@);
                }
                "local.yaml"
            },
            Environment::Production => {
                proof {
                    assert("production.yaml"@ =~= "production"@ + ".yaml"@);
                }
                "production.yaml"
            },
        }
    }

    /// Match `s` case-insensitively against the closed set of environment
    /// names; any other string is rejected, never defaulted.
    pub fn try_from(s: &str) -> (r: Result<Environment, ConfigError>)
        ensures
            match r {
                Ok(e) => resolve_v(s@) == Ok::<Environment, Seq<char>>(e),
                Err(e) => e@ is UnsupportedEnvironment && e@->UnsupportedEnvironment_0 == s@
                    && resolve_v(s@) == Err::<Environment, Seq<char>>(s@),
            },
    {
        if eq_ci(s, "local") {
            Ok(Environment::Local)
        } else if eq_ci(s, "production") {
            Ok(Environment::Production)
        } else {
            Err(ConfigError::UnsupportedEnvironment(String::from_str(s)))
        }
    }

    /// Resolve the raw value of the environment-selection variable;
    /// absence defaults to `local`.
    pub fn resolve(raw: Option<&str>) -> (r: Result<Environment, ConfigError>)
        ensures
            ({
                let cand = match raw {
                    Some(s) => s@,
                    None => "local"@,
                };
                match r {
                    Ok(e) => resolve_v(cand) == Ok::<Environment, Seq<char>>(e),
                    Err(e) => e@ is UnsupportedEnvironment && e@->UnsupportedEnvironment_0 == cand
                        && resolve_v(cand) == Err::<Environment, Seq<char>>(cand),
                }
            }),
    {
        match raw {
            Some(s) => Environment::try_from(s),
            None => Environment::try_from("local"),
        }
    }
}

/// Case variants accepted: a string that lowercases to an environment's
/// canonical name resolves to that environment, whose name is that
/// canonical lowercase name.
pub proof fn lemma_case_variants_accepted(s: Seq<char>)
    requires
        lower_seq(s) == "local"@ || lower_seq(s) == "production"@,
    ensures
        resolve_v(s) is Ok,
        resolve_v(s)->Ok_0.name() == lower_seq(s),
{
    reveal_strlit("local");
    reveal_strlit("production");
    assert(!("local"@ =~= "production"@));
}

/// Any string outside the closed set is rejected, carrying the offending
/// value.
pub proof fn lemma_unsupported_rejected(s: Seq<char>)
    requires
        lower_seq(s) != "local"@,
        lower_seq(s) != "production"@,
    ensures
        resolve_v(s) == Err::<Environment, Seq<char>>(s),
{
}

} // verus!
