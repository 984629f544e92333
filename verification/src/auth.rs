//! Credential resolution for providers. The engine only consumes the chosen
//! [`AuthMethod`]; probing the file system and the process environment is the
//! host's work, which feeds its findings into [`AuthManager::resolve_auth`].

use vstd::prelude::*;
use vstd::string::*;
use crate::strmap::StrMap;
use crate::strutil::str_eq;

verus! {

/// How a provider is authenticated.
#[derive(Debug)]
pub enum AuthMethod {
    /// A provider-managed account session.
    AccountBased { provider: String, session_token: Option<String> },
    /// An explicit API key.
    ApiKey { key: String },
    /// A browser-based flow reachable at a callback URL.
    BrowserAuth { callback_url: String },
    /// A locally detected CLI or desktop session.
    CliAuth,
}

/// A provider paired with its resolved method.
#[derive(Debug)]
pub struct ProviderAuth {
    pub provider: String,
    pub method: AuthMethod,
}

/// Errors of credential resolution.
#[derive(Debug)]
pub enum AuthError {
    /// No credential source yielded anything for the provider.
    NoAuthFound { provider: String },
    /// The provider has no known session-marker locations.
    UnknownProvider { provider: String },
}

impl AuthError {
    /// A short description of the failure, naming the provider.
    pub fn message(&self) -> (r: String)
        ensures
            r@ == (match *self {
                AuthError::NoAuthFound { provider } => "No authentication found for provider: "@
                    + provider@,
                AuthError::UnknownProvider { provider } => "Unknown provider: "@ + provider@,
            }),
    {
        match self {
            AuthError::NoAuthFound { provider } => {
                let mut s = String::from_str("No authentication found for provider: ");
                s.append(provider.as_str());
                s
            },
            AuthError::UnknownProvider { provider } => {
                let mut s = String::from_str("Unknown provider: ");
                s.append(provider.as_str());
                s
            },
        }
    }
}

/// Stores explicitly supplied API keys and decides which credential wins.
pub struct AuthManager {
    api_keys: StrMap,
}

impl AuthManager {
    /// The stored keys, provider name to key.
    pub closed spec fn keys(&self) -> Map<Seq<char>, Seq<char>> {
        self.api_keys@
    }

    /// A manager with no stored keys.
    pub fn new() -> (r: Self)
        ensures
            r.keys() == Map::<Seq<char>, Seq<char>>::empty(),
    {
        AuthManager { api_keys: StrMap::new() }
    }

    /// Store an explicit API key for a provider.
    pub fn set_api_key(&mut self, provider: &str, api_key: &str)
        ensures
            final(self).keys() == old(self).keys().insert(provider@, api_key@),
    {
        self.api_keys.insert(String::from_str(provider), String::from_str(api_key));
    }

    /// The stored key for a provider, if any.
    pub fn get_api_key(&self, provider: &str) -> (r: Option<&String>)
        ensures
            match r {
                Some(k) => self.keys().contains_key(provider@) && k@ == self.keys()[provider@],
                None => !self.keys().contains_key(provider@),
            },
    {
        self.api_keys.get(provider)
    }

    /// Decide the credential for a provider from what the host probed, in the
    /// fixed precedence order: a detected CLI/desktop session wins, then a
    /// stored API key, then a key found in the environment; with nothing
    /// found, resolution fails.
    pub fn resolve_auth(&self, provider: &str, cli_session_found: bool, env_key: Option<String>) -> (r:
        Result<AuthMethod, AuthError>)
        ensures
            cli_session_found ==> r matches Ok(AuthMethod::CliAuth),
            !cli_session_found && self.keys().contains_key(provider@) ==> (r matches Ok(
                AuthMethod::ApiKey { key },
            ) && key@ == self.keys()[provider@]),
            (!cli_session_found && !self.keys().contains_key(provider@) && env_key is Some) ==> (r
                matches Ok(AuthMethod::ApiKey { key }) && key == env_key.unwrap()),
            !cli_session_found && !self.keys().contains_key(provider@) && env_key is None ==> (r
                matches Err(AuthError::NoAuthFound { provider: p }) && p@ == provider@),
    {
        if cli_session_found {
            return Ok(AuthMethod::CliAuth);
        }
        match self.api_keys.get(provider) {
            Some(key) => Ok(AuthMethod::ApiKey { key: key.clone() }),
            None => match env_key {
                Some(key) => Ok(AuthMethod::ApiKey { key }),
                None => Err(AuthError::NoAuthFound { provider: String::from_str(provider) }),
            },
        }
    }

    /// The file paths whose existence marks a live CLI or desktop session for
    /// a provider, in probe order, built from the home directory and, when
    /// set, the platform's application-data directory.
    pub fn cli_session_candidates(&self, provider: &str, home: &str, appdata: Option<&String>) -> (r:
        Result<Vec<String>, AuthError>)
        ensures
            r matches Ok(paths) ==> paths.deep_view() == session_candidate_paths(
                provider@,
                home@,
                match appdata {
                    Some(a) => Some(a@),
                    None => None,
                },
            ).unwrap(),
            r is Ok <==> session_candidate_paths(provider@, home@, match appdata {
                Some(a) => Some(a@),
                None => None,
            }) is Some,
            r matches Err(e) ==> (e matches AuthError::UnknownProvider { provider: p } && p@
                == provider@),
    {
        proof {
            lemma_provider_names_distinct();
        }
        let mut paths: Vec<String> = Vec::new();
        if str_eq(provider, "anthropic") {
            paths.push(join_path(home, ANTHROPIC_VSCODE_MAC));
            paths.push(join_path(home, ANTHROPIC_VSCODE_LINUX));
            match appdata {
                Some(a) => {
                    paths.push(join_path(a.as_str(), ANTHROPIC_VSCODE_WINDOWS));
                },
                None => {},
            }
            paths.push(join_path(home, ANTHROPIC_LEGACY_CONFIG));
            proof {
                assert(paths.deep_view() =~= session_candidate_paths(provider@, home@, match appdata {
                    Some(a) => Some(a@),
                    None => None,
                }).unwrap());
            }
            Ok(paths)
        } else if str_eq(provider, "gemini") {
            paths.push(join_path(home, GCLOUD_ADC));
            match appdata {
                Some(a) => {
                    paths.push(join_path(a.as_str(), GCLOUD_ADC_WINDOWS));
                },
                None => {},
            }
            paths.push(join_path(home, GEMINI_CONFIG));
            proof {
                assert(paths.deep_view() =~= session_candidate_paths(provider@, home@, match appdata {
                    Some(a) => Some(a@),
                    None => None,
                }).unwrap());
            }
            Ok(paths)
        } else if str_eq(provider, "codex") {
            paths.push(join_path(home, CODEX_CONFIG));
            proof {
                assert(paths.deep_view() =~= session_candidate_paths(provider@, home@, match appdata {
                    Some(a) => Some(a@),
                    None => None,
                }).unwrap());
            }
            Ok(paths)
        } else {
            Err(AuthError::UnknownProvider { provider: String::from_str(provider) })
        }
    }

    /// The environment variable names that may hold a provider's API key, in
    /// probe order: provider-specific aliases first, then the generic
    /// `<PROVIDER>_API_KEY`. The generic name maps the provider to upper
    /// case ASCII letter by ASCII letter; other characters pass through
    /// unchanged.
    pub fn env_key_aliases(&self, provider: &str) -> (r: Vec<String>)
        ensures
            r.deep_view() == env_alias_names(provider@),
    {
        proof {
            lemma_provider_names_distinct();
        }
        let mut names: Vec<String> = Vec::new();
        if str_eq(provider, "anthropic") {
            names.push(String::from_str("ANTHROPIC_API_KEY"));
        } else if str_eq(provider, "gemini") {
            names.push(String::from_str("GEMINI_API_KEY"));
            names.push(String::from_str("GOOGLE_API_KEY"));
        } else if str_eq(provider, "codex") {
            names.push(String::from_str("CODEX_API_KEY"));
        } else {
            let mut generic = upper_ascii(provider);
            generic.append("_API_KEY");
            names.push(generic);
        }
        proof {
            assert(names.deep_view() =~= env_alias_names(provider@));
        }
        names
    }
}

/// The three built-in provider names differ pairwise.
pub proof fn lemma_provider_names_distinct()
    ensures
        "anthropic"@ != "gemini"@,
        "anthropic"@ != "codex"@,
        "gemini"@ != "codex"@,
{
    reveal_strlit("anthropic");
    reveal_strlit("gemini");
    reveal_strlit("codex");
    assert("anthropic"@.len() == 9);
    assert("gemini"@.len() == 6);
    assert("codex"@.len() == 5);
}

/// Session-marker locations under the home directory, by provider. Editors
/// may store a session or state file here; only existence is probed, never
/// contents.
pub open spec fn session_candidate_paths(
    provider: Seq<char>,
    home: Seq<char>,
    appdata: Option<Seq<char>>,
) -> Option<Seq<Seq<char>>> {
    if provider == "anthropic"@ {
        Some(
            seq![home + seq!['/'] + ANTHROPIC_VSCODE_MAC@, home + seq!['/'] + ANTHROPIC_VSCODE_LINUX@]
                + (match appdata {
                Some(a) => seq![a + seq!['/'] + ANTHROPIC_VSCODE_WINDOWS@],
                None => Seq::empty(),
            }) + seq![home + seq!['/'] + ANTHROPIC_LEGACY_CONFIG@],
        )
    } else if provider == "gemini"@ {
        Some(
            seq![home + seq!['/'] + GCLOUD_ADC@] + (match appdata {
                Some(a) => seq![a + seq!['/'] + GCLOUD_ADC_WINDOWS@],
                None => Seq::empty(),
            }) + seq![home + seq!['/'] + GEMINI_CONFIG@],
        )
    } else if provider == "codex"@ {
        Some(seq![home + seq!['/'] + CODEX_CONFIG@])
    } else {
        None
    }
}

/// The environment variables probed for each provider.
pub open spec fn env_alias_names(provider: Seq<char>) -> Seq<Seq<char>> {
    if provider == "anthropic"@ {
        seq!["ANTHROPIC_API_KEY"@]
    } else if provider == "gemini"@ {
        seq!["GEMINI_API_KEY"@, "GOOGLE_API_KEY"@]
    } else if provider == "codex"@ {
        seq!["CODEX_API_KEY"@]
    } else {
        seq![upper_seq(provider) + "_API_KEY"@]
    }
}

/// The ASCII-uppercase counterpart of a character; defined as the inverse
/// direction of [`lower_char`] on letters.
pub open spec fn upper_char(c: char) -> char {
    if c == 'a' {
        'A'
    } else if c == 'b' {
        'B'
    } else if c == 'c' {
        'C'
    } else if c == 'd' {
        'D'
    } else if c == 'e' {
        'E'
    } else if c == 'f' {
        'F'
    } else if c == 'g' {
        'G'
    } else if c == 'h' {
        'H'
    } else if c == 'i' {
        'I'
    } else if c == 'j' {
        'J'
    } else if c == 'k' {
        'K'
    } else if c == 'l' {
        'L'
    } else if c == 'm' {
        'M'
    } else if c == 'n' {
        'N'
    } else if c == 'o' {
        'O'
    } else if c == 'p' {
        'P'
    } else if c == 'q' {
        'Q'
    } else if c == 'r' {
        'R'
    } else if c == 's' {
        'S'
    } else if c == 't' {
        'T'
    } else if c == 'u' {
        'U'
    } else if c == 'v' {
        'V'
    } else if c == 'w' {
        'W'
    } else if c == 'x' {
        'X'
    } else if c == 'y' {
        'Y'
    } else if c == 'z' {
        'Z'
    } else {
        c
    }
}

/// A string mapped to ASCII uppercase, character by character.
pub open spec fn upper_seq(s: Seq<char>) -> Seq<char> {
    s.map(|i: int, c: char| upper_char(c))
}

fn upper_char_exec(c: char) -> (r: char)
    ensures
        r == upper_char(c),
{
    if c == 'a' {
        'A'
    } else if c == 'b' {
        'B'
    } else if c == 'c' {
        'C'
    } else if c == 'd' {
        'D'
    } else if c == 'e' {
        'E'
    } else if c == 'f' {
        'F'
    } else if c == 'g' {
        'G'
    } else if c == 'h' {
        'H'
    } else if c == 'i' {
        'I'
    } else if c == 'j' {
        'J'
    } else if c == 'k' {
        'K'
    } else if c == 'l' {
        'L'
    } else if c == 'm' {
        'M'
    } else if c == 'n' {
        'N'
    } else if c == 'o' {
        'O'
    } else if c == 'p' {
        'P'
    } else if c == 'q' {
        'Q'
    } else if c == 'r' {
        'R'
    } else if c == 's' {
        'S'
    } else if c == 't' {
        'T'
    } else if c == 'u' {
        'U'
    } else if c == 'v' {
        'V'
    } else if c == 'w' {
        'W'
    } else if c == 'x' {
        'X'
    } else if c == 'y' {
        'Y'
    } else if c == 'z' {
        'Z'
    } else {
        c
    }
}

/// Map a name to upper case, character by character; only ASCII letters are
/// folded, every other character passes through unchanged.
fn upper_ascii(s: &str) -> (r: String)
    ensures
        r@ == upper_seq(s@),
{
    let n = s.unicode_len();
    let mut out = String::new();
    let mut i: usize = 0;
    while i < n
        invariant
            i <= n,
            n == s@.len(),
            out@ =~= upper_seq(s@).take(i as int),
        decreases n - i,
    {
        let c = upper_char_exec(s.get_char(i));
        append_char(&mut out, c);
        proof {
            assert(out@ =~= upper_seq(s@).take(i as int + 1));
        }
        i = i + 1;
    }
    proof {
        assert(upper_seq(s@).take(n as int) =~= upper_seq(s@));
    }
    out
}

/// Relies on String::push from std: appends exactly one character.
#[verifier::external_body]
fn append_char(s: &mut String, c: char)
    ensures
        final(s)@ == old(s)@.push(c),
{
    s.push(c);
}

/// Join a directory and a relative path with a slash.
fn join_path(dir: &str, rel: &str) -> (r: String)
    ensures
        r@ == dir@ + seq!['/'] + rel@,
{
    let mut s = String::from_str(dir);
    s.append("/");
    s.append(rel);
    proof {
        reveal_strlit("/");
        assert("/"@ =~= seq!['/']);
        assert(dir@ + seq!['/'] + rel@ =~= (dir@ + seq!['/']) + rel@);
    }
    s
}

/// Where each editor or tool may keep a session marker.
pub const ANTHROPIC_VSCODE_MAC: &'static str =
    "Library/Application Support/Code/User/globalStorage/anthropic.copilot";

pub const ANTHROPIC_VSCODE_LINUX: &'static str = ".config/Code/User/globalStorage/anthropic.copilot";

pub const ANTHROPIC_VSCODE_WINDOWS: &'static str = "Code/User/globalStorage/anthropic.copilot";

pub const ANTHROPIC_LEGACY_CONFIG: &'static str = ".anthropic/config.json";

pub const GCLOUD_ADC: &'static str = ".config/gcloud/application_default_credentials.json";

pub const GCLOUD_ADC_WINDOWS: &'static str = "gcloud/application_default_credentials.json";

pub const GEMINI_CONFIG: &'static str = ".gemini/config.json";

pub const CODEX_CONFIG: &'static str = ".codex/config.json";

} // verus!
