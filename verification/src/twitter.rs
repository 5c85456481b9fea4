//! What the client keeps of its dealings with Twitter's login: the key
//! pairs, the token, the pending authorisation and the user.

use vstd::prelude::*;

verus! {

/// A key and its secret.
#[derive(Debug)]
pub struct KeyPair {
    pub key: String,
    pub secret: String,
}

impl Clone for KeyPair {
    fn clone(&self) -> (copy: Self)
        ensures
            copy == *self,
    {
        KeyPair { key: self.key.clone(), secret: self.secret.clone() }
    }
}

/// What authorises a request to Twitter.
#[derive(Debug)]
pub enum Token {
    /// The application's key pair and the one that the user granted.
    Access { consumer: KeyPair, access: KeyPair },
    /// A bearer string.
    Bearer(String),
}

impl Clone for Token {
    fn clone(&self) -> (copy: Self)
        ensures
            copy == *self,
    {
        match self {
            Token::Access { consumer, access } => Token::Access {
                consumer: consumer.clone(),
                access: access.clone(),
            },
            Token::Bearer(bearer) => Token::Bearer(bearer.clone()),
        }
    }
}

/// The page on which the user grants access, for the request token with the
/// key `key`.
pub open spec fn authorize_page(key: Seq<char>) -> Seq<char> {
    "https://api.twitter.com/oauth/authorize?oauth_token="@ + key
}

/// Calls `egg_mode::auth::authorize_url`.  Trusted: that the URL is that of
/// Twitter's authorisation page, with the key of the request token as the
/// value of `oauth_token`.
#[verifier::external_body]
fn authorize_url(request_token: &KeyPair) -> (url: String)
    ensures
        url@ == authorize_page(request_token.key@),
{
    egg_mode::auth::authorize_url(
        &egg_mode::KeyPair::new(request_token.key.clone(), request_token.secret.clone()),
    )
}

/// A login that waits for the user's PIN.
#[derive(Debug)]
pub struct AuthRequest {
    token: KeyPair,
}

impl Clone for AuthRequest {
    fn clone(&self) -> (copy: Self)
        ensures
            copy == *self,
    {
        AuthRequest { token: self.token.clone() }
    }
}

impl AuthRequest {
    /// The request token that Twitter gave for this login.
    pub closed spec fn token(&self) -> KeyPair {
        self.token
    }

    /// A login with the request token that Twitter gave.
    pub fn new(token: KeyPair) -> (request: Self)
        ensures
            request.token() == token,
    {
        AuthRequest { token }
    }

    /// The request token that Twitter gave for this login.
    pub fn request_token(&self) -> (token: &KeyPair)
        ensures
            *token == self.token(),
    {
        &self.token
    }

    /// The page on which the user gets the PIN.
    pub fn url(&self) -> (url: String)
        ensures
            url@ == authorize_page(self.token().key@),
    {
        authorize_url(&self.token)
    }

    /// The user that Twitter's answer to the PIN names, or the failure as it
    /// came.
    pub fn authenticate(self, answer: Result<(Token, u64, String), String>) -> (user: Result<
        User,
        String,
    >)
        ensures
            user == match answer {
                Ok((token, id, name)) => Ok::<User, String>((User { token, id, name })),
                Err(failure) => Err::<User, String>(failure),
            },
    {
        match answer {
            Ok((token, id, name)) => Ok(User { token, id, name }),
            Err(failure) => Err(failure),
        }
    }
}

/// The user who is logged in.
#[derive(Debug)]
pub struct User {
    pub token: Token,
    pub id: u64,
    pub name: String,
}

impl Clone for User {
    fn clone(&self) -> (copy: Self)
        ensures
            copy == *self,
    {
        User { token: self.token.clone(), id: self.id, name: self.name.clone() }
    }
}

impl User {
    /// The user that Twitter's answer to a stored token names, with that
    /// token, or the failure as it came.
    pub fn login_with_token(token: Token, answer: Result<(u64, String), String>) -> (user: Result<
        User,
        String,
    >)
        ensures
            user == match answer {
                Ok((id, name)) => Ok::<User, String>((User { token, id, name })),
                Err(failure) => Err::<User, String>(failure),
            },
    {
        match answer {
            Ok((id, name)) => Ok(User { token, id, name }),
            Err(failure) => Err(failure),
        }
    }
}

} // verus!
