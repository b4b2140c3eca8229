use crate::error::{CredentialError, ErrorKind};
use crate::keyed::scopes_view;
use crate::token::Token;
use vstd::prelude::*;

verus! {

/// The earliest instant the date library represents: -9999-01-01T00:00:00Z.
pub const MIN_UNIX_TIMESTAMP: i64 = -377705116800;

/// The latest instant the date library represents: 9999-12-31T23:59:59Z.
pub const MAX_UNIX_TIMESTAMP: i64 = 253402300799;

pub open spec fn is_digit(c: char) -> bool {
    '0' <= c && c <= '9'
}

/// The value of a string of decimal digits.
pub open spec fn digits_value(s: Seq<char>) -> int
    decreases s.len(),
{
    if s.len() == 0 {
        0
    } else {
        digits_value(s.drop_last()) * 10 + (s.last() as int - '0' as int)
    }
}

/// The `i64` that a decimal string denotes: an optional `+` or `-`, then one or
/// more digits, the value within range.
pub open spec fn decimal_i64(s: Seq<char>) -> Option<i64> {
    let neg = s.len() > 0 && s[0] == '-';
    let body = if s.len() > 0 && (s[0] == '-' || s[0] == '+') {
        s.drop_first()
    } else {
        s
    };
    let v = if neg {
        -digits_value(body)
    } else {
        digits_value(body)
    };
    if body.len() > 0 && (forall|i: int| 0 <= i < body.len() ==> is_digit(#[trigger] body[i]))
        && i64::MIN <= v <= i64::MAX {
        Some(v as i64)
    } else {
        None
    }
}

/// Relies on `<i64 as FromStr>::from_str`: an optional `+` or `-` followed by
/// one or more ASCII digits, failing on anything else (whitespace included) and
/// on overflow.
#[verifier::external_body]
fn parse_i64(s: &str) -> (r: Option<i64>)
    ensures
        r == decimal_i64(s@),
{
    s.parse::<i64>().ok()
}

/// Relies on `time::OffsetDateTime::from_unix_timestamp`: it succeeds exactly
/// on the instants from `Date::MIN` to `Date::MAX`, years -9999 to 9999 when the
/// `large-dates` feature is off (no crate here turns it on).
#[verifier::external_body]
fn representable_timestamp(t: i64) -> (r: bool)
    ensures
        r == (MIN_UNIX_TIMESTAMP <= t && t <= MAX_UNIX_TIMESTAMP),
{
    time::OffsetDateTime::from_unix_timestamp(t).is_ok()
}

pub open spec fn parse_error_message(s: Seq<char>) -> Seq<char> {
    "unable to parse expiration_date '"@ + s
}

/// The expiry, in Unix seconds, that a CLI response's `expiration_date` denotes.
pub open spec fn expiration_of(s: Seq<char>) -> Option<i64> {
    match decimal_i64(s) {
        Some(t) => if MIN_UNIX_TIMESTAMP <= t && t <= MAX_UNIX_TIMESTAMP {
            Some(t)
        } else {
            None
        },
        None => None,
    }
}

/// Reads an `expiration_date` of the CLI's output: a decimal count of Unix
/// seconds that names a representable instant.
pub fn parse(s: &str) -> (r: Result<i64, CredentialError>)
    ensures
        match r {
            Ok(t) => expiration_of(s@) == Some(t),
            Err(e) => expiration_of(s@) is None && e.kind == ErrorKind::DataConversion
                && e.message@ == parse_error_message(s@),
        },
{
    match parse_i64(s) {
        Some(t) => {
            if representable_timestamp(t) {
                return Ok(t);
            }
        },
        None => {},
    }
    let mut m = String::from_str("unable to parse expiration_date '");
    m.append(s);
    Err(CredentialError::new(ErrorKind::DataConversion, m))
}

/// The token of a CLI response, from its `token` and `expiration_date` fields.
pub fn cli_token(access_token: String, expiration_date: &str) -> (r: Result<Token, CredentialError>)
    ensures
        match r {
            Ok(t) => t.secret == access_token && expiration_of(expiration_date@) == Some(
                t.expires_on,
            ),
            Err(e) => expiration_of(expiration_date@) is None && e.kind == ErrorKind::DataConversion
                && e.message@ == parse_error_message(expiration_date@),
        },
{
    match parse(expiration_date) {
        Ok(t) => Ok(Token::new(access_token, t)),
        Err(e) => Err(e),
    }
}

/// Authentication mode.
///
/// While the azureauth CLI supports device code, device-code users should use
/// the device-code credential.
#[derive(PartialEq, Eq, Structural, Clone, Copy, Debug)]
pub enum AzureauthCliMode {
    All,
    IntegratedWindowsAuth,
    Broker,
    Web,
}

/// The `--mode` value for `m`; the Windows-only modes apply only where the
/// Windows executable runs.
pub open spec fn mode_name(m: AzureauthCliMode, windows: bool) -> Option<Seq<char>> {
    match m {
        AzureauthCliMode::All => Some("all"@),
        AzureauthCliMode::IntegratedWindowsAuth => if windows {
            Some("iwa"@)
        } else {
            None
        },
        AzureauthCliMode::Broker => if windows {
            Some("broker"@)
        } else {
            None
        },
        AzureauthCliMode::Web => Some("web"@),
    }
}

pub open spec fn scope_args(scopes: Seq<Seq<char>>) -> Seq<Seq<char>>
    decreases scopes.len(),
{
    if scopes.len() == 0 {
        Seq::empty()
    } else {
        scope_args(scopes.drop_last()) + seq!["--scope"@, scopes.last()]
    }
}

pub open spec fn mode_args(modes: Seq<AzureauthCliMode>, windows: bool) -> Seq<Seq<char>>
    decreases modes.len(),
{
    if modes.len() == 0 {
        Seq::empty()
    } else {
        mode_args(modes.drop_last(), windows) + match mode_name(modes.last(), windows) {
            Some(n) => seq!["--mode"@, n],
            None => Seq::empty(),
        }
    }
}

pub open spec fn hint_args(hint: Option<Seq<char>>) -> Seq<Seq<char>> {
    match hint {
        Some(h) => seq!["--prompt-hint"@, h],
        None => Seq::empty(),
    }
}

/// The arguments of one `azureauth` run.
pub open spec fn cli_args(
    client_id: Seq<char>,
    tenant_id: Seq<char>,
    scopes: Seq<Seq<char>>,
    hint: Option<Seq<char>>,
    modes: Seq<AzureauthCliMode>,
    windows: bool,
) -> Seq<Seq<char>> {
    seq!["aad"@, "--client"@, client_id, "--tenant"@, tenant_id, "--output"@, "json"@]
        + scope_args(scopes) + hint_args(hint) + mode_args(modes, windows)
}

/// The executables searched for, in order: the Windows one first, so that it is
/// found from WSL too.
pub fn executable_candidates() -> (r: Vec<String>)
    ensures
        scopes_view(r@) == seq!["azureauth.exe"@, "azureauth"@],
{
    let mut r: Vec<String> = Vec::new();
    r.push(String::from_str("azureauth.exe"));
    r.push(String::from_str("azureauth"));
    assert(scopes_view(r@) =~= seq!["azureauth.exe"@, "azureauth"@]);
    r
}

/// Whether the executable found is the Windows one, which supports the
/// Windows-only modes.
pub fn uses_windows_features(cmd_name: &str) -> (r: bool)
    ensures
        r == (cmd_name@ == "azureauth.exe"@),
{
    String::from_str(cmd_name) == String::from_str("azureauth.exe")
}

/// The failure when no azureauth executable can be run.
pub fn cli_not_installed() -> (r: CredentialError)
    ensures
        r.kind == ErrorKind::Other,
        r.message@ == "azureauth CLI not installed"@,
{
    CredentialError::new(ErrorKind::Other, String::from_str("azureauth CLI not installed"))
}

/// The failure when the executable ran and exited unsuccessfully.
pub fn command_failed(stderr: &str) -> (r: CredentialError)
    ensures
        r.kind == ErrorKind::Credential,
        r.message@ == "'azureauth' command failed: "@ + stderr@,
{
    let mut m = String::from_str("'azureauth' command failed: ");
    m.append(stderr);
    CredentialError::new(ErrorKind::Credential, m)
}

/// Configuration of authentication through the azureauth CLI.
pub struct AzureauthCliCredential {
    tenant_id: String,
    client_id: String,
    modes: Vec<AzureauthCliMode>,
    prompt_hint: Option<String>,
}

pub open spec fn hint_view(h: Option<String>) -> Option<Seq<char>> {
    match h {
        Some(s) => Some(s@),
        None => None,
    }
}

impl AzureauthCliCredential {
    pub closed spec fn tenant_id_spec(&self) -> Seq<char> {
        self.tenant_id@
    }

    pub closed spec fn client_id_spec(&self) -> Seq<char> {
        self.client_id@
    }

    pub closed spec fn modes_spec(&self) -> Seq<AzureauthCliMode> {
        self.modes@
    }

    pub closed spec fn prompt_hint_spec(&self) -> Option<Seq<char>> {
        hint_view(self.prompt_hint)
    }

    /// A credential for `tenant_id` and `client_id`, with no mode and no prompt hint.
    pub fn new(tenant_id: String, client_id: String) -> (r: Self)
        ensures
            r.tenant_id_spec() == tenant_id@,
            r.client_id_spec() == client_id@,
            r.modes_spec().len() == 0,
            r.prompt_hint_spec() is None,
    {
        AzureauthCliCredential { tenant_id, client_id, modes: Vec::new(), prompt_hint: None }
    }

    /// Adds `mode` after the modes already chosen.
    pub fn add_mode(self, mode: AzureauthCliMode) -> (r: Self)
        ensures
            r.modes_spec() == self.modes_spec().push(mode),
            r.tenant_id_spec() == self.tenant_id_spec(),
            r.client_id_spec() == self.client_id_spec(),
            r.prompt_hint_spec() == self.prompt_hint_spec(),
    {
        let mut s = self;
        s.modes.push(mode);
        s
    }

    /// Replaces the modes with `modes`.
    pub fn with_modes(self, modes: Vec<AzureauthCliMode>) -> (r: Self)
        ensures
            r.modes_spec() == modes@,
            r.tenant_id_spec() == self.tenant_id_spec(),
            r.client_id_spec() == self.client_id_spec(),
            r.prompt_hint_spec() == self.prompt_hint_spec(),
    {
        let mut s = self;
        s.modes = modes;
        s
    }

    /// Sets the prompt hint shown by the CLI.
    pub fn with_prompt_hint(self, hint: String) -> (r: Self)
        ensures
            r.prompt_hint_spec() == Some(hint@),
            r.modes_spec() == self.modes_spec(),
            r.tenant_id_spec() == self.tenant_id_spec(),
            r.client_id_spec() == self.client_id_spec(),
    {
        let mut s = self;
        s.prompt_hint = Some(hint);
        s
    }

    /// The arguments that run `azureauth` for `scopes`; `windows` tells whether
    /// the Windows executable was found.
    pub fn command_args(&self, scopes: &Vec<String>, windows: bool) -> (r: Vec<String>)
        ensures
            scopes_view(r@) == cli_args(
                self.client_id_spec(),
                self.tenant_id_spec(),
                scopes_view(scopes@),
                self.prompt_hint_spec(),
                self.modes_spec(),
                windows,
            ),
    {
        let mut r: Vec<String> = Vec::new();
        r.push(String::from_str("aad"));
        r.push(String::from_str("--client"));
        r.push(self.client_id.clone());
        r.push(String::from_str("--tenant"));
        r.push(self.tenant_id.clone());
        r.push(String::from_str("--output"));
        r.push(String::from_str("json"));
        let ghost head = scopes_view(r@);
        assert(head =~= seq!["aad"@, "--client"@, self.client_id@, "--tenant"@, self.tenant_id@, "--output"@, "json"@]);
        let ghost sv = scopes_view(scopes@);
        let mut i: usize = 0;
        while i < scopes.len()
            invariant
                i <= scopes.len(),
                sv == scopes_view(scopes@),
                scopes_view(r@) == head + scope_args(sv.subrange(0, i as int)),
            decreases scopes.len() - i,
        {
            let ghost before = scopes_view(r@);
            r.push(String::from_str("--scope"));
            r.push(scopes[i].clone());
            proof {
                assert(sv.subrange(0, i + 1).drop_last() =~= sv.subrange(0, i as int));
                assert(scopes_view(r@) =~= before + seq!["--scope"@, sv[i as int]]);
            }
            i = i + 1;
        }
        assert(sv.subrange(0, scopes.len() as int) =~= sv);
        let ghost with_scopes = scopes_view(r@);
        match &self.prompt_hint {
            Some(h) => {
                r.push(String::from_str("--prompt-hint"));
                r.push(h.clone());
                assert(scopes_view(r@) =~= with_scopes + seq!["--prompt-hint"@, h@]);
            },
            None => {
                assert(scopes_view(r@) =~= with_scopes + Seq::<Seq<char>>::empty());
            },
        }
        let ghost with_hint = scopes_view(r@);
        let ghost ms = self.modes@;
        let mut j: usize = 0;
        while j < self.modes.len()
            invariant
                j <= self.modes.len(),
                ms == self.modes@,
                scopes_view(r@) == with_hint + mode_args(ms.subrange(0, j as int), windows),
            decreases self.modes.len() - j,
        {
            let ghost before = scopes_view(r@);
            proof {
                assert(ms.subrange(0, j + 1).drop_last() =~= ms.subrange(0, j as int));
            }
            let name: Option<&str> = match self.modes[j] {
                AzureauthCliMode::All => Some("all"),
                AzureauthCliMode::IntegratedWindowsAuth => if windows {
                    Some("iwa")
                } else {
                    None
                },
                AzureauthCliMode::Broker => if windows {
                    Some("broker")
                } else {
                    None
                },
                AzureauthCliMode::Web => Some("web"),
            };
            match name {
                Some(n) => {
                    r.push(String::from_str("--mode"));
                    r.push(String::from_str(n));
                    assert(scopes_view(r@) =~= before + seq!["--mode"@, n@]);
                },
                None => {
                    assert(scopes_view(r@) =~= before + Seq::<Seq<char>>::empty());
                },
            }
            j = j + 1;
        }
        assert(ms.subrange(0, self.modes.len() as int) =~= ms);
        r
    }
}

} // verus!
