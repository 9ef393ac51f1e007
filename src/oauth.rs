//! The identity callback: the service's client settings, the authorization
//! link that carries a correlation token, and the data the provider returns.
use vstd::prelude::*;

use crate::digits::{digits_of, format_unsigned, parse_unsigned, parse_unsigned_spec};
use crate::text::{chars_of, string_of};

verus! {

/// What `url::form_urlencoded::byte_serialize` makes of a text's UTF-8 bytes.
pub uninterp spec fn form_urlencoded_of(s: Seq<char>) -> Seq<char>;

/// Relies on `url::form_urlencoded::byte_serialize`, collected into a
/// `String`: the result depends on the bytes of `s` alone.
#[verifier::external_body]
fn form_urlencode(s: &str) -> (r: String)
    ensures
        r@ == form_urlencoded_of(s@),
{
    url::form_urlencoded::byte_serialize(s.as_bytes()).collect()
}

/// The client settings of the identity provider.
pub struct DiscordConfig {
    pub client_id: String,
    pub secret: String,
    pub redirect_uri: String,
    pub redirect_uri_encoded: String,
    pub guild_id: String,
}

pub open spec fn authorize_prefix() -> Seq<char> {
    "https://discord.com/oauth2/authorize?client_id="@
}

pub open spec fn authorize_redirect() -> Seq<char> {
    "&response_type=code&redirect_uri="@
}

pub open spec fn authorize_state() -> Seq<char> {
    "&state="@
}

pub open spec fn authorize_suffix() -> Seq<char> {
    "&scope=identify+guilds.members.read&prompt=none"@
}

/// The authorization link for `token`: the token travels as upper-case
/// hexadecimal in the `state` parameter.
pub open spec fn authorize_url_spec(client_id: Seq<char>, redirect_encoded: Seq<char>, token: u128) -> Seq<char> {
    authorize_prefix() + client_id + authorize_redirect() + redirect_encoded + authorize_state()
        + digits_of(token as nat, 16) + authorize_suffix()
}

pub open spec fn token_body_spec(code: Seq<char>, redirect_encoded: Seq<char>) -> Seq<char> {
    "grant_type=authorization_code&code="@ + code + "&redirect_uri="@ + redirect_encoded
}

fn append_chars(dst: &mut Vec<char>, src: &[char])
    ensures
        final(dst)@ == old(dst)@ + src@,
{
    let mut i: usize = 0;
    while i < src.len()
        invariant
            i <= src.len(),
            dst@ == old(dst)@ + src@.subrange(0, i as int),
        decreases src.len() - i,
    {
        dst.push(src[i]);
        i += 1;
        assert(dst@ =~= old(dst)@ + src@.subrange(0, i as int));
    }
    assert(src@.subrange(0, src@.len() as int) =~= src@);
}

fn append_str(dst: &mut Vec<char>, src: &str)
    ensures
        final(dst)@ == old(dst)@ + src@,
{
    let v = chars_of(src);
    append_chars(dst, v.as_slice());
}

impl DiscordConfig {
    /// Settings whose redirect address is already form-encoded.
    pub fn with_encoded(
        client_id: String,
        secret: String,
        redirect_uri: String,
        redirect_uri_encoded: String,
        guild_id: String,
    ) -> (r: DiscordConfig)
        ensures
            r.client_id@ == client_id@,
            r.secret@ == secret@,
            r.redirect_uri@ == redirect_uri@,
            r.redirect_uri_encoded@ == redirect_uri_encoded@,
            r.guild_id@ == guild_id@,
    {
        DiscordConfig { client_id, secret, redirect_uri, redirect_uri_encoded, guild_id }
    }

    /// Settings from their parts; the redirect address is form-encoded once
    /// here for the links that carry it.
    pub fn new(client_id: String, secret: String, redirect_uri: String, guild_id: String) -> (r: DiscordConfig)
        ensures
            r.client_id@ == client_id@,
            r.secret@ == secret@,
            r.redirect_uri@ == redirect_uri@,
            r.redirect_uri_encoded@ == form_urlencoded_of(redirect_uri@),
            r.guild_id@ == guild_id@,
    {
        let encoded = form_urlencode(redirect_uri.as_str());
        DiscordConfig::with_encoded(client_id, secret, redirect_uri, encoded, guild_id)
    }

    /// The link that sends the learner to the provider with `token` as state.
    pub fn authorize_url(&self, token: u128) -> (r: String)
        ensures
            r@ == authorize_url_spec(self.client_id@, self.redirect_uri_encoded@, token),
    {
        let mut v: Vec<char> = Vec::new();
        append_str(&mut v, "https://discord.com/oauth2/authorize?client_id=");
        append_str(&mut v, self.client_id.as_str());
        append_str(&mut v, "&response_type=code&redirect_uri=");
        append_str(&mut v, self.redirect_uri_encoded.as_str());
        append_str(&mut v, "&state=");
        let hex = format_unsigned(token, 16);
        append_chars(&mut v, hex.as_slice());
        append_str(&mut v, "&scope=identify+guilds.members.read&prompt=none");
        string_of(v.as_slice())
    }

    /// The form body that trades an authorization code for an access token.
    pub fn token_request_body(&self, code: &str) -> (r: String)
        ensures
            r@ == token_body_spec(code@, self.redirect_uri_encoded@),
    {
        let mut v: Vec<char> = Vec::new();
        append_str(&mut v, "grant_type=authorization_code&code=");
        append_str(&mut v, code);
        append_str(&mut v, "&redirect_uri=");
        append_str(&mut v, self.redirect_uri_encoded.as_str());
        string_of(v.as_slice())
    }
}

/// The token that an authorization link carries comes back out of the
/// callback's `state` as the same token.
pub proof fn lemma_state_round_trip(token: u128)
    ensures
        parse_unsigned_spec(digits_of(token as nat, 16), 16, u128::MAX as nat) == Some(token as nat),
{
    crate::digits::lemma_parse_digits_round_trip(token as nat, 16, u128::MAX as nat);
}

/// The query of the provider's callback.
pub struct OauthRedirectUrlParams {
    pub code: String,
    pub state: String,
}

impl OauthRedirectUrlParams {
    /// The correlation token that `state` carries in hexadecimal, if it is one.
    pub fn state_token(&self) -> (r: Option<u128>)
        ensures
            match parse_unsigned_spec(self.state@, 16, u128::MAX as nat) {
                Some(v) => r == Some(v as u128),
                None => r is None,
            },
    {
        let s = chars_of(self.state.as_str());
        parse_unsigned(s.as_slice(), 16, u128::MAX)
    }
}

/// The provider's answer to a token request.
pub struct OauthResponse {
    pub token_type: String,
    pub access_token: String,
    pub expires_in: usize,
    pub refresh_token: String,
    pub scope: String,
}

/// A user account at the provider.
pub struct DiscordUser {
    pub id: String,
    pub username: String,
    pub global_name: Option<String>,
    pub avatar: Option<String>,
}

/// A user's membership in the study's server.
pub struct DiscordGuildMember {
    pub user: DiscordUser,
    pub nick: Option<String>,
}

/// The name to greet a member by: the server nickname, else the global
/// display name, else the user name.
pub open spec fn display_name_spec(m: DiscordGuildMember) -> Seq<char> {
    match m.nick {
        Some(n) => n@,
        None => match m.user.global_name {
            Some(g) => g@,
            None => m.user.username@,
        },
    }
}

impl DiscordGuildMember {
    pub fn display_name(&self) -> (r: String)
        ensures
            r@ == display_name_spec(*self),
    {
        match &self.nick {
            Some(n) => n.clone(),
            None => match &self.user.global_name {
                Some(g) => g.clone(),
                None => self.user.username.clone(),
            },
        }
    }

    /// The identity that results are recorded under.
    pub fn identity(&self) -> (r: String)
        ensures
            r@ == self.user.id@,
    {
        self.user.id.clone()
    }
}

} // verus!
