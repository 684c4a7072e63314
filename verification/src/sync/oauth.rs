//! OAuth 2.0 with PKCE for the cloud backends: provider names, keyring keys,
//! URL parameters and the access-token cache.
use vstd::prelude::*;
use crate::codec::{base64url, base64url_of, sha256, sha256_of, url_decode, url_decoded, url_encode, url_encoded};
use crate::text::{chars_of, push_str, str_eq, string_of, trim, trim_chars};

verus! {

/// Service name of the secrets kept in the system keyring.
pub const KEYRING_SERVICE: &'static str = "rustty";

/// Path of the local redirect that receives the authorisation code.
pub const OAUTH_CALLBACK_PATH: &'static str = "/oauth/callback";

/// Safety margin before an access token expires, in nanoseconds (60 s).
pub const TOKEN_EXPIRY_MARGIN_NANOS: u128 = 60_000_000_000;

/// A cloud provider reached through OAuth.
#[derive(Debug, Clone, Copy, PartialEq, Eq, Structural)]
pub enum OAuthProvider {
    GoogleDrive,
}

pub open spec fn provider_names_google(v: Seq<char>) -> bool {
    v == "google_drive"@ || v == "googledrive"@ || v == "google"@
}

pub open spec fn msg_unknown_provider(v: Seq<char>) -> Seq<char> {
    "Proveedor OAuth no soportado: "@ + v
}

impl OAuthProvider {
    /// The provider a front-end name stands for.
    pub fn parse(value: &str) -> (r: Result<Self, String>)
        ensures
            match r {
                Ok(p) => provider_names_google(value@) && p == OAuthProvider::GoogleDrive,
                Err(e) => !provider_names_google(value@) && e@ == msg_unknown_provider(value@),
            },
    {
        if str_eq(value, "google_drive") || str_eq(value, "googledrive") || str_eq(value, "google") {
            Ok(OAuthProvider::GoogleDrive)
        } else {
            let mut msg = String::new();
            push_str(&mut msg, "Proveedor OAuth no soportado: ");
            push_str(&mut msg, value);
            Err(msg)
        }
    }

    /// The provider's part of the keyring keys.
    pub fn key_part(self) -> (r: &'static str)
        ensures
            r@ == "google_drive"@,
    {
        match self {
            OAuthProvider::GoogleDrive => "google_drive",
        }
    }
}

/// Keyring key of a provider's refresh token.
pub fn oauth_refresh_key(provider: OAuthProvider) -> (r: String)
    ensures
        r@ == "sync:oauth:"@ + "google_drive"@ + ":refresh_token"@,
{
    let mut s = String::new();
    push_str(&mut s, "sync:oauth:");
    push_str(&mut s, provider.key_part());
    push_str(&mut s, ":refresh_token");
    s
}

/// Keyring key of the Google Drive client secret.
pub fn google_client_secret_key() -> (r: String)
    ensures
        r@ == "sync:oauth:"@ + "google_drive"@ + ":client_secret"@,
{
    let mut s = String::new();
    push_str(&mut s, "sync:oauth:");
    push_str(&mut s, OAuthProvider::GoogleDrive.key_part());
    push_str(&mut s, ":client_secret");
    s
}

/// The PKCE challenge of a verifier's bytes: unpadded URL-safe base64 of
/// their SHA-256 (RFC 7636, method `S256`).
pub fn pkce_challenge(verifier: &[u8]) -> (r: String)
    ensures
        r@ == base64url_of(sha256_of(verifier@)),
{
    let digest = sha256(verifier);
    base64url(digest.as_slice())
}

/// Appends `key=value` to a URL, after `?` for the first parameter and `&`
/// for the next ones; the value is percent-encoded.
pub fn append_param(url: &mut String, key: &str, value: &str)
    ensures
        final(url)@ == old(url)@ + seq![if old(url)@.contains('?') {
            '&'
        } else {
            '?'
        }] + key@ + seq!['='] + url_encoded(value@),
{
    let cs = chars_of(url.as_str());
    let mut has_q = false;
    let mut i: usize = 0;
    while i < cs.len()
        invariant
            i <= cs@.len(),
            cs@ == old(url)@,
            *url == *old(url),
            has_q == exists|k: int| 0 <= k < i && cs@[k] == '?',
        decreases cs.len() - i,
    {
        if cs[i] == '?' {
            has_q = true;
        }
        i += 1;
    }
    proof {
        if old(url)@.contains('?') {
            let k = choose|k: int| 0 <= k < old(url)@.len() && old(url)@[k] == '?';
            assert(cs@[k] == '?');
        }
    }
    if has_q {
        crate::text::push_char(url, '&');
    } else {
        crate::text::push_char(url, '?');
    }
    push_str(url, key);
    crate::text::push_char(url, '=');
    let enc = url_encode(value);
    push_str(url, enc.as_str());
}

/// `s.split(c)`: the pieces between the occurrences of `c`.
pub open spec fn split_char(s: Seq<char>, c: char) -> Seq<Seq<char>>
    decreases s.len(),
{
    if s.len() == 0 {
        seq![seq![]]
    } else {
        let rest = split_char(s.drop_last(), c);
        if s.last() == c {
            rest.push(seq![])
        } else {
            rest.update(rest.len() - 1, rest.last().push(s.last()))
        }
    }
}

/// The key and the value of a `key=value` piece (`value` empty without `=`).
pub open spec fn pair_parts(p: Seq<char>) -> (Seq<char>, Seq<char>) {
    match crate::text::split_once(p, seq!['=']) {
        Some((k, v)) => (k, v),
        None => (p, seq![]),
    }
}

/// The decoded value of the first `name=` piece among `pieces`; `None` when
/// there is none, or when its value does not decode.
pub open spec fn lookup_param(pieces: Seq<Seq<char>>, name: Seq<char>) -> Option<Seq<char>>
    decreases pieces.len(),
{
    if pieces.len() == 0 {
        None
    } else if pair_parts(pieces[0]).0 == name {
        url_decoded(pair_parts(pieces[0]).1)
    } else {
        lookup_param(pieces.drop_first(), name)
    }
}

proof fn lemma_split_char_len(s: Seq<char>, c: char)
    ensures
        split_char(s, c).len() >= 1,
    decreases s.len(),
{
    if s.len() > 0 {
        lemma_split_char_len(s.drop_last(), c);
    }
}

/// The pieces of a text split by a character.
fn split_char_exec(s: &Vec<char>, c: char) -> (r: Vec<Vec<char>>)
    ensures
        r@.len() == split_char(s@, c).len(),
        forall|i: int| 0 <= i < r@.len() ==> (#[trigger] r@[i])@ == split_char(s@, c)[i],
{
    let mut out: Vec<Vec<char>> = Vec::new();
    let mut cur: Vec<char> = Vec::new();
    let mut i: usize = 0;
    while i < s.len()
        invariant
            i <= s@.len(),
            out@.len() + 1 == split_char(s@.take(i as int), c).len(),
            forall|k: int| 0 <= k < out@.len() ==> (#[trigger] out@[k])@ == split_char(s@.take(i as int), c)[k],
            cur@ == split_char(s@.take(i as int), c).last(),
        decreases s.len() - i,
    {
        proof {
            lemma_split_char_len(s@.take(i as int), c);
            assert(s@.take(i + 1).drop_last() =~= s@.take(i as int));
            assert(s@.take(i + 1).last() == s@[i as int]);
        }
        if s[i] == c {
            let done = cur;
            out.push(done);
            cur = Vec::new();
            assert(cur@ =~= Seq::<char>::empty());
        } else {
            cur.push(s[i]);
        }
        i += 1;
    }
    assert(s@.take(i as int) =~= s@);
    out.push(cur);
    out
}

/// The decoded value of parameter `name` in a query string (`a=1&b=2`): the
/// first piece with that key wins; `None` when it is missing or its value
/// does not decode.
pub fn query_param(query: &str, name: &str) -> (r: Option<String>)
    ensures
        match r {
            Some(v) => lookup_param(split_char(query@, '&'), name@) == Some(v@),
            None => lookup_param(split_char(query@, '&'), name@) is None,
        },
{
    let pieces = split_char_exec(&chars_of(query), '&');
    let ghost ps = split_char(query@, '&');
    let eq: Vec<char> = vec!['='];
    assert(eq@ =~= seq!['=']);
    assert(ps.skip(0) =~= ps);
    let mut i: usize = 0;
    while i < pieces.len()
        invariant
            i <= pieces@.len(),
            pieces@.len() == ps.len(),
            forall|k: int| 0 <= k < pieces@.len() ==> (#[trigger] pieces@[k])@ == ps[k],
            eq@ == seq!['='],
            lookup_param(ps, name@) == lookup_param(ps.skip(i as int), name@),
            ps == split_char(query@, '&'),
        decreases pieces.len() - i,
    {
        let p = &pieces[i];
        let (key, value) = match crate::text::split_once_chars(p, &eq) {
            Some((k, v)) => (k, v),
            None => (crate::text::chars_range(p, 0, p.len()), Vec::new()),
        };
        proof {
            assert(p@.subrange(0, p@.len() as int) =~= p@);
            assert(ps.skip(i as int)[0] == ps[i as int]);
            assert(ps.skip(i as int).drop_first() =~= ps.skip(i + 1));
            if crate::text::split_once(p@, seq!['=']) is None {
                assert(value@ =~= Seq::<char>::empty());
            }
            assert(key@ == pair_parts(p@).0);
            assert(value@ == pair_parts(p@).1);
            assert(p@ == ps[i as int]);
        }
        let nm = chars_of(name);
        if crate::text::chars_eq(&key, &nm) {
            assert(key@ == name@);
            assert(lookup_param(ps.skip(i as int), name@) == url_decoded(value@));
            let v = string_of(&value);
            let r = url_decode(v.as_str());
            assert(lookup_param(split_char(query@, '&'), name@) == url_decoded(v@));
            return r;
        }
        i += 1;
    }
    assert(ps.skip(i as int) =~= Seq::<Seq<char>>::empty());
    None
}

// ─── Authorisation request and token endpoint ────────────────────────────────

/// Port of the local redirect that receives the authorisation code.
pub const OAUTH_CALLBACK_PORT: u16 = 53682;

/// The redirect URI registered for the flow.
pub const OAUTH_REDIRECT_URI: &'static str = "http://127.0.0.1:53682/oauth/callback";

/// Google's authorisation endpoint.
pub const GOOGLE_AUTH_URL: &'static str = "https://accounts.google.com/o/oauth2/v2/auth";

/// Google's token endpoint.
pub const GOOGLE_TOKEN_URL: &'static str = "https://oauth2.googleapis.com/token";

/// Scope asked of Google Drive: the application's own hidden folder.
pub const GOOGLE_DRIVE_SCOPE: &'static str = "https://www.googleapis.com/auth/drive.appdata";

/// Lifetime assumed for an access token whose answer gives none, in seconds.
pub const DEFAULT_TOKEN_LIFETIME_SECS: u64 = 3600;

/// `url` with the parameter `key=value` appended (as [`append_param`]).
pub open spec fn with_param(url: Seq<char>, key: Seq<char>, value: Seq<char>) -> Seq<char> {
    url + seq![if url.contains('?') { '&' } else { '?' }] + key + seq!['='] + url_encoded(value)
}

pub open spec fn auth_url_spec(client_id: Seq<char>, redirect_uri: Seq<char>, state: Seq<char>, challenge: Seq<char>) -> Seq<char> {
    let u = with_param(GOOGLE_AUTH_URL@, "response_type"@, "code"@);
    let u = with_param(u, "client_id"@, client_id);
    let u = with_param(u, "redirect_uri"@, redirect_uri);
    let u = with_param(u, "state"@, state);
    let u = with_param(u, "code_challenge"@, challenge);
    let u = with_param(u, "code_challenge_method"@, "S256"@);
    let u = with_param(u, "scope"@, GOOGLE_DRIVE_SCOPE@);
    let u = with_param(u, "access_type"@, "offline"@);
    with_param(u, "prompt"@, "consent"@)
}

/// The URL the browser is sent to for the user's consent: code flow with
/// PKCE (`S256`), offline access and a forced consent screen.
pub fn authorization_url(provider: OAuthProvider, client_id: &str, redirect_uri: &str, state: &str, challenge: &str) -> (r: String)
    ensures
        r@ == auth_url_spec(client_id@, redirect_uri@, state@, challenge@),
{
    let mut url = String::new();
    match provider {
        OAuthProvider::GoogleDrive => push_str(&mut url, GOOGLE_AUTH_URL),
    }
    assert(url@ =~= GOOGLE_AUTH_URL@);
    append_param(&mut url, "response_type", "code");
    append_param(&mut url, "client_id", client_id);
    append_param(&mut url, "redirect_uri", redirect_uri);
    append_param(&mut url, "state", state);
    append_param(&mut url, "code_challenge", challenge);
    append_param(&mut url, "code_challenge_method", "S256");
    match provider {
        OAuthProvider::GoogleDrive => {
            append_param(&mut url, "scope", GOOGLE_DRIVE_SCOPE);
            append_param(&mut url, "access_type", "offline");
            append_param(&mut url, "prompt", "consent");
        },
    }
    url
}

/// A configured value: the field of the configuration, trimmed, when it is
/// not blank; else `fallback` (the keyring, a build-time default).
pub fn configured_value(field: &str, fallback: Option<String>) -> (r: Option<String>)
    ensures
        if trim(field@).len() > 0 {
            r matches Some(v) && v@ == trim(field@)
        } else {
            r == fallback
        },
{
    let t = trim_chars(&chars_of(field));
    if t.len() > 0 {
        Some(string_of(&t))
    } else {
        fallback
    }
}

/// The fields of a token endpoint's answer that the flows read.
#[derive(Debug, Clone, PartialEq, Eq)]
pub struct TokenResponse {
    pub access_token: Option<String>,
    pub refresh_token: Option<String>,
    /// Seconds the access token lives.
    pub expires_in: Option<u64>,
    pub error: Option<String>,
    pub error_description: Option<String>,
}

/// The reason an answer gives, or `fallback`.
pub open spec fn reason(token: TokenResponse, fallback: Seq<char>) -> Seq<char> {
    match token.error_description {
        Some(d) => d@,
        None => match token.error {
            Some(e) => e@,
            None => fallback,
        },
    }
}

pub open spec fn token_error_msg(token: TokenResponse, fallback: Seq<char>) -> Seq<char> {
    "google_drive"@ + " OAuth: "@ + reason(token, fallback)
}

fn reason_message(provider: OAuthProvider, token: &TokenResponse, fallback: &str) -> (r: String)
    ensures
        r@ == token_error_msg(*token, fallback@),
{
    let mut m = String::new();
    push_str(&mut m, provider.key_part());
    push_str(&mut m, " OAuth: ");
    match &token.error_description {
        Some(d) => push_str(&mut m, d.as_str()),
        None => match &token.error {
            Some(e) => push_str(&mut m, e.as_str()),
            None => push_str(&mut m, fallback),
        },
    }
    m
}

/// The error of an answer without an access token.
pub fn token_error(provider: OAuthProvider, token: &TokenResponse) -> (r: String)
    ensures
        r@ == token_error_msg(*token, "respuesta OAuth sin access_token"@),
{
    reason_message(provider, token, "respuesta OAuth sin access_token")
}

/// The error of an answer without a refresh token.
pub fn token_missing_refresh_error(provider: OAuthProvider, token: &TokenResponse) -> (r: String)
    ensures
        r@ == token_error_msg(*token, "respuesta OAuth sin refresh_token"@),
{
    reason_message(provider, token, "respuesta OAuth sin refresh_token")
}

/// What a refresh of the access token came to.
#[derive(Debug, Clone, PartialEq, Eq)]
pub enum RefreshOutcome {
    /// A fresh access token and its lifetime in seconds.
    Token { access_token: String, expires_in_secs: u64 },
    /// The user revoked the access or the refresh token expired: the stored
    /// refresh token is to be forgotten.
    Revoked(String),
    /// Any other refusal.
    Failed(String),
}

pub open spec fn msg_revoked() -> Seq<char> {
    "La autorización de Google Drive fue revocada o ha caducado. Vuelve a conectar la cuenta en Preferencias → Copias de seguridad."@
}

/// The outcome of the token endpoint's answer to a refresh.
pub fn refresh_outcome(provider: OAuthProvider, token: TokenResponse) -> (r: RefreshOutcome)
    ensures
        match token.access_token {
            Some(a) => r == RefreshOutcome::Token {
                access_token: a,
                expires_in_secs: match token.expires_in {
                    Some(e) => e,
                    None => DEFAULT_TOKEN_LIFETIME_SECS,
                },
            },
            None => if token.error matches Some(e) && e@ == "invalid_grant"@ {
                r matches RefreshOutcome::Revoked(m) && m@ == msg_revoked()
            } else {
                r matches RefreshOutcome::Failed(m) && m@ == token_error_msg(
                    token,
                    "respuesta OAuth sin access_token"@,
                )
            },
        },
{
    let expires = match token.expires_in {
        Some(e) => e,
        None => DEFAULT_TOKEN_LIFETIME_SECS,
    };
    let revoked = match &token.error {
        Some(e) => str_eq(e.as_str(), "invalid_grant"),
        None => false,
    };
    let failure = if revoked {
        let mut m = String::new();
        push_str(
            &mut m,
            "La autorización de Google Drive fue revocada o ha caducado. Vuelve a conectar la cuenta en Preferencias → Copias de seguridad.",
        );
        RefreshOutcome::Revoked(m)
    } else {
        RefreshOutcome::Failed(token_error(provider, &token))
    };
    match token.access_token {
        Some(a) => RefreshOutcome::Token { access_token: a, expires_in_secs: expires },
        None => failure,
    }
}

/// The refresh token of the answer to the code exchange, or its error.
pub fn exchange_outcome(provider: OAuthProvider, token: TokenResponse) -> (r: Result<String, String>)
    ensures
        match token.refresh_token {
            Some(t) => r == Ok::<String, String>(t),
            None => r matches Err(m) && m@ == token_error_msg(token, "respuesta OAuth sin refresh_token"@),
        },
{
    let err = token_missing_refresh_error(provider, &token);
    match token.refresh_token {
        Some(t) => Ok(t),
        None => Err(err),
    }
}

pub open spec fn pair_views(v: Seq<(String, String)>) -> Seq<(Seq<char>, Seq<char>)> {
    v.map_values(|p: (String, String)| (p.0@, p.1@))
}

pub open spec fn client_params(client_id: Seq<char>, client_secret: Option<Seq<char>>) -> Seq<(Seq<char>, Seq<char>)> {
    seq![("client_id"@, client_id)] + match client_secret {
        Some(s) => seq![("client_secret"@, s)],
        None => seq![],
    }
}

fn own(s: &str) -> (r: String)
    ensures
        r@ == s@,
{
    let mut m = String::new();
    push_str(&mut m, s);
    m
}

fn push_client(params: &mut Vec<(String, String)>, client_id: &str, client_secret: Option<&str>)
    ensures
        pair_views(final(params)@) == pair_views(old(params)@) + client_params(
            client_id@,
            match client_secret {
                Some(s) => Some(s@),
                None => None,
            },
        ),
{
    let ghost before = pair_views(params@);
    params.push((own("client_id"), own(client_id)));
    if let Some(secret) = client_secret {
        params.push((own("client_secret"), own(secret)));
    }
    assert(pair_views(params@) =~= before + client_params(
        client_id@,
        match client_secret {
            Some(s) => Some(s@),
            None => None,
        },
    ));
}

/// Form of the refresh of an access token.
pub fn refresh_params(refresh_token: &str, client_id: &str, client_secret: Option<&str>) -> (r: Vec<(String, String)>)
    ensures
        pair_views(r@) == seq![("grant_type"@, "refresh_token"@), ("refresh_token"@, refresh_token@)]
            + client_params(
            client_id@,
            match client_secret {
                Some(s) => Some(s@),
                None => None,
            },
        ),
{
    let mut params: Vec<(String, String)> = Vec::new();
    params.push((own("grant_type"), own("refresh_token")));
    params.push((own("refresh_token"), own(refresh_token)));
    assert(pair_views(params@) =~= seq![("grant_type"@, "refresh_token"@), ("refresh_token"@, refresh_token@)]);
    push_client(&mut params, client_id, client_secret);
    params
}

/// Form of the exchange of an authorisation code (with the PKCE verifier).
pub fn exchange_params(code: &str, redirect_uri: &str, verifier: &str, client_id: &str, client_secret: Option<&str>) -> (r: Vec<(String, String)>)
    ensures
        pair_views(r@) == seq![
            ("grant_type"@, "authorization_code"@),
            ("code"@, code@),
            ("redirect_uri"@, redirect_uri@),
            ("code_verifier"@, verifier@),
        ] + client_params(
            client_id@,
            match client_secret {
                Some(s) => Some(s@),
                None => None,
            },
        ),
{
    let mut params: Vec<(String, String)> = Vec::new();
    params.push((own("grant_type"), own("authorization_code")));
    params.push((own("code"), own(code)));
    params.push((own("redirect_uri"), own(redirect_uri)));
    params.push((own("code_verifier"), own(verifier)));
    assert(pair_views(params@) =~= seq![
        ("grant_type"@, "authorization_code"@),
        ("code"@, code@),
        ("redirect_uri"@, redirect_uri@),
        ("code_verifier"@, verifier@),
    ]);
    push_client(&mut params, client_id, client_secret);
    params
}

// ─── Authorisation callback ──────────────────────────────────────────────────

/// What a request to the local redirect comes to.
#[derive(Debug, Clone, PartialEq, Eq)]
pub enum CallbackVerdict {
    /// Not the callback (the favicon, a probe): answer 404, keep waiting.
    NotFound,
    /// The callback of another flow (`state` differs): answer failure, keep
    /// waiting.
    ForeignState,
    /// The right `state` without `code` nor `error`: answer failure, keep
    /// waiting.
    NoCode,
    /// The provider reports an error: answer failure and stop with it.
    Error(String),
    /// The authorisation code: answer success and stop.
    Code(String),
}

/// The first line of a text (before the first line feed).
pub open spec fn first_line(t: Seq<char>) -> Seq<char> {
    match crate::text::first_occ(t, seq!['\n']) {
        Some(i) => t.take(i),
        None => t,
    }
}

/// The request target: the second word of the request line, or empty.
pub open spec fn request_target(t: Seq<char>) -> Seq<char> {
    match crate::text::ws_token(first_line(t), 1) {
        Some(x) => x,
        None => seq![],
    }
}

/// The query of a callback target (after `?`, empty without one).
pub open spec fn callback_query(rest: Seq<char>) -> Seq<char> {
    match crate::text::strip_prefix(rest, seq!['?']) {
        Some(q) => q,
        None => seq![],
    }
}

pub open spec fn callback_spec(t: Seq<char>, expected: Seq<char>, r: CallbackVerdict) -> bool {
    match crate::text::strip_prefix(request_target(t), OAUTH_CALLBACK_PATH@) {
        None => r == CallbackVerdict::NotFound,
        Some(rest) => {
            let pieces = split_char(callback_query(rest), '&');
            let state = match lookup_param(pieces, "state"@) {
                Some(v) => v,
                None => seq![],
            };
            if state != expected {
                r == CallbackVerdict::ForeignState
            } else {
                match lookup_param(pieces, "error"@) {
                    Some(e) => r matches CallbackVerdict::Error(m) && m@ == "OAuth error: "@ + e,
                    None => match lookup_param(pieces, "code"@) {
                        Some(c) => r matches CallbackVerdict::Code(v) && v@ == c,
                        None => r == CallbackVerdict::NoCode,
                    },
                }
            }
        },
    }
}

/// What to do with a request read from the local redirect (`request` is
/// what arrived, decoded as UTF-8 with replacement), given the `state` of
/// the flow in progress.
pub fn oauth_callback(request: &[u8], expected_state: &str) -> (r: CallbackVerdict)
    ensures
        callback_spec(crate::text::lossy_utf8(request@), expected_state@, r),
{
    let text = crate::text::lossy_string(request);
    let cs = chars_of(text.as_str());
    let nl: Vec<char> = vec!['\n'];
    assert(nl@ =~= seq!['\n']);
    let line = match crate::text::find(&cs, &nl) {
        Some(i) => crate::text::chars_range(&cs, 0, i),
        None => crate::text::chars_range(&cs, 0, cs.len()),
    };
    assert(line@ =~= first_line(cs@));
    let words = crate::text::split_ws(&line);
    let target: Vec<char> = if words.len() > 1 {
        let w = crate::text::chars_range(&words[1], 0, words[1].len());
        assert(w@ =~= words@[1]@);
        assert(words@.map_values(|v: Vec<char>| v@)[1] == words@[1]@);
        w
    } else {
        Vec::new()
    };
    assert(target@ =~= request_target(cs@));
    let rest = match crate::text::strip_lit(&target, OAUTH_CALLBACK_PATH) {
        Some(rest) => rest,
        None => return CallbackVerdict::NotFound,
    };
    let q: Vec<char> = vec!['?'];
    assert(q@ =~= seq!['?']);
    let query = match crate::text::strip_prefix_chars(&rest, &q) {
        Some(x) => x,
        None => Vec::new(),
    };
    assert(query@ =~= callback_query(rest@));
    let query = string_of(&query);
    let state = match query_param(query.as_str(), "state") {
        Some(v) => v,
        None => String::new(),
    };
    if !str_eq(state.as_str(), expected_state) {
        return CallbackVerdict::ForeignState;
    }
    if let Some(e) = query_param(query.as_str(), "error") {
        let mut m = String::new();
        push_str(&mut m, "OAuth error: ");
        push_str(&mut m, e.as_str());
        return CallbackVerdict::Error(m);
    }
    match query_param(query.as_str(), "code") {
        Some(c) => CallbackVerdict::Code(c),
        None => CallbackVerdict::NoCode,
    }
}

// ─── Access-token cache ──────────────────────────────────────────────────────

/// The cached access token and the instant it expires, in nanoseconds of a
/// monotonic clock.
pub struct TokenCache {
    token: Option<(String, u128)>,
}

impl TokenCache {
    pub closed spec fn entry(&self) -> Option<(Seq<char>, u128)> {
        match self.token {
            Some((t, e)) => Some((t@, e)),
            None => None,
        }
    }

    /// An empty cache.
    pub fn new() -> (r: Self)
        ensures
            r.entry() is None,
    {
        TokenCache { token: None }
    }

    /// The token, while `now` plus the safety margin is before its expiry.
    pub fn get(&self, now: u128) -> (r: Option<String>)
        ensures
            match self.entry() {
                Some((t, e)) => if now + TOKEN_EXPIRY_MARGIN_NANOS < e {
                    r matches Some(v) && v@ == t
                } else {
                    r is None
                },
                None => r is None,
            },
    {
        match &self.token {
            Some((t, e)) => {
                if now < *e && *e - now > TOKEN_EXPIRY_MARGIN_NANOS {
                    Some(t.clone())
                } else {
                    None
                }
            },
            None => None,
        }
    }

    /// Keeps `token`, valid for `expires_in_secs` seconds from `now`.
    pub fn put(&mut self, token: String, expires_in_secs: u64, now: u128)
        requires
            now + expires_in_secs * 1_000_000_000 <= u128::MAX,
        ensures
            final(self).entry() == Some((token@, (now + expires_in_secs * 1_000_000_000) as u128)),
    {
        let expiry: u128 = now + (expires_in_secs as u128) * 1_000_000_000;
        self.token = Some((token, expiry));
    }

    /// Forgets the token.
    pub fn clear(&mut self)
        ensures
            final(self).entry() is None,
    {
        self.token = None;
    }
}

} // verus!
