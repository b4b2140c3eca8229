//! Refresh tokens: the exchange request and the token endpoint's answers.
use crate::chained_token_credential::join;
use crate::error::{CredentialError, ErrorKind};
use crate::keyed::scopes_view;
use vstd::prelude::*;

verus! {

/// A secret of the identity library; this crate only carries it.
#[verifier::external_type_specification]
#[verifier::external_body]
pub struct ExSecret(azure_core::credentials::Secret);

/// The `application/x-www-form-urlencoded` encoding of one name or value.
pub uninterp spec fn form_component(s: Seq<char>) -> Seq<char>;

pub open spec fn pairs_view(p: Seq<(String, String)>) -> Seq<(Seq<char>, Seq<char>)> {
    p.map_values(|x: (String, String)| (x.0@, x.1@))
}

/// Each pair written as its encoded name, `=`, and its encoded value.
pub open spec fn form_fields(pairs: Seq<(Seq<char>, Seq<char>)>) -> Seq<Seq<char>> {
    pairs.map_values(|p: (Seq<char>, Seq<char>)| form_component(p.0) + "="@ + form_component(p.1))
}

/// The form body of `pairs`: their fields in order, separated by `&`.
pub open spec fn form_encoded(pairs: Seq<(Seq<char>, Seq<char>)>) -> Seq<char> {
    join(form_fields(pairs), "&"@)
}

/// Relies on `url::form_urlencoded::Serializer::extend_pairs` and `finish`: on
/// an empty target, each pair is appended as its encoded name, `=` and its
/// encoded value, with `&` before every pair but the first.
#[verifier::external_body]
fn encode_form(pairs: &Vec<(String, String)>) -> (r: String)
    ensures
        r@ == join(form_fields(pairs_view(pairs@)), "&"@) && forall|i: int|
            0 <= i < pairs@.len() ==> #[trigger] form_fields(pairs_view(pairs@))[i]
                == form_component(pairs@[i].0@) + "="@ + form_component(pairs@[i].1@),
{
    url::form_urlencoded::Serializer::new(String::new()).extend_pairs(pairs.iter()).finish()
}

pub open spec fn opt_view(s: Option<&str>) -> Option<Seq<char>> {
    match s {
        Some(x) => Some(x@),
        None => None,
    }
}

/// The form fields of a refresh-token exchange.
pub open spec fn refresh_pairs(
    client_id: Seq<char>,
    client_secret: Option<Seq<char>>,
    refresh_token: Seq<char>,
) -> Seq<(Seq<char>, Seq<char>)> {
    seq![
        ("grant_type"@, "refresh_token"@),
        ("client_id"@, client_id),
        ("refresh_token"@, refresh_token),
    ] + match client_secret {
        Some(s) => seq![("client_secret"@, s)],
        None => Seq::empty(),
    }
}

/// The form body that exchanges `refresh_token` for a new access token; the
/// client secret is sent only when given.
pub fn exchange_body(client_id: &str, client_secret: Option<&str>, refresh_token: &str) -> (r:
    String)
    ensures
        r@ == form_encoded(refresh_pairs(client_id@, opt_view(client_secret), refresh_token@)),
{
    let mut pairs: Vec<(String, String)> = Vec::new();
    pairs.push((String::from_str("grant_type"), String::from_str("refresh_token")));
    pairs.push((String::from_str("client_id"), String::from_str(client_id)));
    pairs.push((String::from_str("refresh_token"), String::from_str(refresh_token)));
    match client_secret {
        Some(s) => {
            pairs.push((String::from_str("client_secret"), String::from_str(s)));
        },
        None => {},
    }
    assert(pairs_view(pairs@) =~= refresh_pairs(
        client_id@,
        opt_view(client_secret),
        refresh_token@,
    ));
    encode_form(&pairs)
}

/// The token endpoint of `tenant_id`.
pub fn token_endpoint(tenant_id: &str) -> (r: String)
    ensures
        r@ == "https://login.microsoftonline.com/"@ + tenant_id@ + "/oauth2/v2.0/token"@,
{
    let mut u = String::from_str("https://login.microsoftonline.com/");
    u.append(tenant_id);
    u.append("/oauth2/v2.0/token");
    u
}

/// `s` split at every `sep`, as `str::split` does: `n` separators give `n + 1`
/// pieces, empty ones included.
pub open spec fn split_on(s: Seq<char>, sep: char) -> Seq<Seq<char>>
    decreases s.len(),
{
    if s.len() == 0 {
        seq![Seq::empty()]
    } else {
        let p = split_on(s.drop_last(), sep);
        if s.last() == sep {
            p.push(Seq::empty())
        } else {
            p.update(p.len() - 1, p.last().push(s.last()))
        }
    }
}

proof fn lemma_split_nonempty(s: Seq<char>, sep: char)
    ensures
        split_on(s, sep).len() >= 1,
    decreases s.len(),
{
    if s.len() > 0 {
        lemma_split_nonempty(s.drop_last(), sep);
    }
}

/// The scopes of a token response's `scope` field, separated by single spaces.
pub fn split(scope: &str) -> (r: Vec<String>)
    ensures
        scopes_view(r@) == split_on(scope@, ' '),
{
    let n = scope.unicode_len();
    let mut pieces: Vec<String> = Vec::new();
    let mut start: usize = 0;
    let mut i: usize = 0;
    assert(scope@.subrange(0, 0) =~= Seq::<char>::empty());
    assert(scopes_view(pieces@).push(scope@.subrange(0, 0)) =~= seq![Seq::<char>::empty()]);
    while i < n
        invariant
            n == scope@.len(),
            start <= i <= n,
            scopes_view(pieces@).push(scope@.subrange(start as int, i as int)) == split_on(
                scope@.subrange(0, i as int),
                ' ',
            ),
        decreases n - i,
    {
        let c = scope.get_char(i);
        let ghost prefix = scope@.subrange(0, i + 1);
        proof {
            assert(prefix.drop_last() =~= scope@.subrange(0, i as int));
            lemma_split_nonempty(scope@.subrange(0, i as int), ' ');
        }
        let ghost old_view = scopes_view(pieces@);
        let ghost old_start = start;
        assert(prefix.last() == c);
        if c == ' ' {
            let piece = scope.substring_char(start, i);
            pieces.push(String::from_str(piece));
            start = i + 1;
            proof {
                assert(scopes_view(pieces@) =~= old_view.push(scope@.subrange(old_start as int, i as int)));
                assert(scope@.subrange(start as int, i + 1) =~= Seq::<char>::empty());
                assert(scopes_view(pieces@).push(scope@.subrange(start as int, i + 1))
                    =~= split_on(prefix, ' '));
            }
        } else {
            proof {
                let old_p = split_on(scope@.subrange(0, i as int), ' ');
                assert(scope@.subrange(start as int, i + 1) =~= scope@.subrange(
                    start as int,
                    i as int,
                ).push(c));
                assert(scopes_view(pieces@).push(scope@.subrange(start as int, i + 1))
                    =~= old_p.update(old_p.len() - 1, old_p.last().push(c)));
            }
        }
        i = i + 1;
    }
    let last = scope.substring_char(start, n);
    pieces.push(String::from_str(last));
    assert(scope@.subrange(0, n as int) =~= scope@);
    assert(scopes_view(pieces@) =~= split_on(scope@, ' '));
    pieces
}

/// A successful answer of the token endpoint.
pub struct RefreshTokenResponse {
    token_type: String,
    scopes: Vec<String>,
    expires_in: u64,
    ext_expires_in: u64,
    access_token: azure_core::credentials::Secret,
    refresh_token: azure_core::credentials::Secret,
}

impl RefreshTokenResponse {
    pub closed spec fn token_type_spec(&self) -> Seq<char> {
        self.token_type@
    }

    pub closed spec fn scopes_spec(&self) -> Seq<String> {
        self.scopes@
    }

    pub closed spec fn expires_in_spec(&self) -> u64 {
        self.expires_in
    }

    pub closed spec fn ext_expires_in_spec(&self) -> u64 {
        self.ext_expires_in
    }

    pub closed spec fn access_token_spec(&self) -> azure_core::credentials::Secret {
        self.access_token
    }

    pub closed spec fn refresh_token_spec(&self) -> azure_core::credentials::Secret {
        self.refresh_token
    }

    /// A response from its fields; `scope` is the space-separated `scope` field.
    pub fn new(
        token_type: String,
        scope: &str,
        expires_in: u64,
        ext_expires_in: u64,
        access_token: azure_core::credentials::Secret,
        refresh_token: azure_core::credentials::Secret,
    ) -> (r: Self)
        ensures
            r.token_type_spec() == token_type@,
            scopes_view(r.scopes_spec()) == split_on(scope@, ' '),
            r.expires_in_spec() == expires_in,
            r.ext_expires_in_spec() == ext_expires_in,
            r.access_token_spec() == access_token,
            r.refresh_token_spec() == refresh_token,
    {
        RefreshTokenResponse {
            token_type,
            scopes: split(scope),
            expires_in,
            ext_expires_in,
            access_token,
            refresh_token,
        }
    }

    /// The `token_type`; always `Bearer` for the identity platform.
    pub fn token_type(&self) -> (r: &str)
        ensures
            r@ == self.token_type_spec(),
    {
        self.token_type.as_str()
    }

    /// The scopes that the access token is valid for.
    pub fn scopes(&self) -> (r: &[String])
        ensures
            r@ == self.scopes_spec(),
    {
        self.scopes.as_slice()
    }

    /// Number of seconds the access token is valid for.
    pub fn expires_in(&self) -> (r: u64)
        ensures
            r == self.expires_in_spec(),
    {
        self.expires_in
    }

    /// The access token issued for the scopes that were requested.
    pub fn access_token(&self) -> (r: &azure_core::credentials::Secret)
        ensures
            *r == self.access_token_spec(),
    {
        &self.access_token
    }

    /// The new refresh token, which replaces the old one.
    pub fn refresh_token(&self) -> (r: &azure_core::credentials::Secret)
        ensures
            *r == self.refresh_token_spec(),
    {
        &self.refresh_token
    }

    /// The extended lifetime of the access token, in seconds.
    pub fn ext_expires_in(&self) -> (r: u64)
        ensures
            r == self.ext_expires_in_spec(),
    {
        self.ext_expires_in
    }
}

/// The error body of the token endpoint.
#[derive(Debug)]
pub struct RefreshTokenError {
    pub error: String,
    pub error_description: String,
    pub error_codes: Vec<i64>,
    pub timestamp: Option<String>,
    pub trace_id: Option<String>,
    pub correlation_id: Option<String>,
    pub suberror: Option<String>,
    pub claims: Option<String>,
}

/// The report of an error body: its error, its suberror when present, and its
/// description, one line each.
pub open spec fn refresh_error_text(
    error: Seq<char>,
    suberror: Option<Seq<char>>,
    description: Seq<char>,
) -> Seq<char> {
    "error: "@ + error + "\n"@ + match suberror {
        Some(s) => "suberror: "@ + s + "\n"@,
        None => Seq::empty(),
    } + "description: "@ + description + "\n"@
}

pub open spec fn opt_string_view(s: Option<String>) -> Option<Seq<char>> {
    match s {
        Some(x) => Some(x@),
        None => None,
    }
}

impl RefreshTokenError {
    /// The report of this error body.
    pub fn to_string(&self) -> (r: String)
        ensures
            r@ == refresh_error_text(
                self.error@,
                opt_string_view(self.suberror),
                self.error_description@,
            ),
    {
        let mut m = String::from_str("error: ");
        m.append(self.error.as_str());
        m.append("\n");
        let ghost head = m@;
        match &self.suberror {
            Some(s) => {
                m.append("suberror: ");
                m.append(s.as_str());
                m.append("\n");
            },
            None => {},
        }
        let ghost mid = m@;
        m.append("description: ");
        m.append(self.error_description.as_str());
        m.append("\n");
        proof {
            let sub = match opt_string_view(self.suberror) {
                Some(x) => "suberror: "@ + x + "\n"@,
                None => Seq::<char>::empty(),
            };
            assert(mid =~= head + sub);
            assert(m@ =~= refresh_error_text(
                self.error@,
                opt_string_view(self.suberror),
                self.error_description@,
            ));
        }
        m
    }

    /// The failure that a rejected exchange reports.
    pub fn to_error(&self) -> (r: CredentialError)
        ensures
            r.kind == ErrorKind::Credential,
            r.message@ == refresh_error_text(
                self.error@,
                opt_string_view(self.suberror),
                self.error_description@,
            ),
    {
        CredentialError::new(ErrorKind::Credential, self.to_string())
    }
}

} // verus!
