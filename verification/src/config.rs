//! The settings that outlast the process: the token and the tweet that was
//! read last.

use crate::twitter::{KeyPair, Token};
use vstd::prelude::*;

verus! {

/// The stored settings.
#[derive(Debug)]
pub struct Config {
    pub twitter: TwitterConfig,
}

/// The stored login.  Either the two halves of an access key are there, or a
/// bearer string, or nothing.
#[derive(Debug)]
pub struct TwitterConfig {
    pub access_key: Option<String>,
    pub access_secret: Option<String>,
    pub bearer: Option<String>,
    /// The id of the tweet that the user read last.
    pub latest: Option<u64>,
}

fn copy_of(text: &Option<String>) -> (copy: Option<String>)
    ensures
        copy == *text,
{
    match text {
        Some(s) => Some(s.clone()),
        None => None,
    }
}

impl Default for TwitterConfig {
    fn default() -> (config: Self)
        ensures
            config == (TwitterConfig {
                access_key: None,
                access_secret: None,
                bearer: None,
                latest: None,
            }),
    {
        TwitterConfig { access_key: None, access_secret: None, bearer: None, latest: None }
    }
}

impl Clone for TwitterConfig {
    fn clone(&self) -> (copy: Self)
        ensures
            copy == *self,
    {
        TwitterConfig {
            access_key: copy_of(&self.access_key),
            access_secret: copy_of(&self.access_secret),
            bearer: copy_of(&self.bearer),
            latest: self.latest,
        }
    }
}

impl Default for Config {
    fn default() -> (config: Self)
        ensures
            config == Config::fresh(),
    {
        Config { twitter: TwitterConfig::default() }
    }
}

impl Clone for Config {
    fn clone(&self) -> (copy: Self)
        ensures
            copy == *self,
    {
        Config { twitter: self.twitter.clone() }
    }
}

impl Config {
    /// The settings of a first start: no login, nothing read.
    pub open spec fn fresh() -> Config {
        Config {
            twitter: TwitterConfig {
                access_key: None,
                access_secret: None,
                bearer: None,
                latest: None,
            },
        }
    }

    /// The settings to start with, given what was found stored.  Where
    /// nothing was found, or nothing that could be read, these are the
    /// settings of a first start, and the flag tells the caller to store them.
    pub fn load(stored: Option<Config>) -> (loaded: (Config, bool))
        ensures
            loaded == match stored {
                Some(config) => (config, false),
                None => (Config::fresh(), true),
            },
    {
        match stored {
            Some(config) => (config, false),
            None => (Config::default(), true),
        }
    }
}

impl TwitterConfig {
    /// The token that is stored, for an application with the key pair
    /// `consumer`.
    pub open spec fn token(&self, consumer: KeyPair) -> Option<Token> {
        if self.access_key is Some && self.access_secret is Some {
            Some(
                Token::Access {
                    consumer,
                    access: KeyPair {
                        key: self.access_key.unwrap(),
                        secret: self.access_secret.unwrap(),
                    },
                },
            )
        } else if self.bearer is Some {
            Some(Token::Bearer(self.bearer.unwrap()))
        } else {
            None
        }
    }

    /// The settings with the login of `token` in place of the one that was
    /// stored.  The application's own key pair is not stored.
    pub open spec fn with_token(self, token: Token) -> TwitterConfig {
        match token {
            Token::Access { consumer, access } => TwitterConfig {
                access_key: Some(access.key),
                access_secret: Some(access.secret),
                bearer: None,
                latest: self.latest,
            },
            Token::Bearer(bearer) => TwitterConfig {
                access_key: None,
                access_secret: None,
                bearer: Some(bearer),
                latest: self.latest,
            },
        }
    }

    /// Forgets the login.
    pub fn clear_token(&mut self)
        ensures
            final(self).access_key is None,
            final(self).access_secret is None,
            final(self).bearer is None,
            final(self).latest == old(self).latest,
    {
        self.access_key = None;
        self.access_secret = None;
        self.bearer = None;
    }

    /// Stores the login of `token` in place of the one that was stored.
    pub fn set_token(&mut self, token: &Token)
        ensures
            *final(self) == old(self).with_token(*token),
    {
        self.clear_token();
        match token {
            Token::Access { access, .. } => {
                self.access_key = Some(access.key.clone());
                self.access_secret = Some(access.secret.clone());
            },
            Token::Bearer(bearer) => {
                self.bearer = Some(bearer.clone());
            },
        }
    }

    /// The token that is stored, for an application with the key pair
    /// `consumer`.
    pub fn get_token(&self, consumer: &KeyPair) -> (token: Option<Token>)
        ensures
            token == self.token(*consumer),
    {
        match (&self.access_key, &self.access_secret) {
            (Some(key), Some(secret)) => Some(
                Token::Access {
                    consumer: consumer.clone(),
                    access: KeyPair { key: key.clone(), secret: secret.clone() },
                },
            ),
            _ => match &self.bearer {
                Some(bearer) => Some(Token::Bearer(bearer.clone())),
                None => None,
            },
        }
    }
}

/// A token of this application that was stored is read back as it was, and
/// the pair of an access key never stands beside a bearer string.
pub proof fn lemma_stored_token_is_read_back(config: TwitterConfig, token: Token, consumer: KeyPair)
    requires
        token matches Token::Access { consumer: own, .. } ==> own == consumer,
    ensures
        config.with_token(token).token(consumer) == Some(token),
        config.with_token(token).latest == config.latest,
        config.with_token(token).bearer is Some ==> config.with_token(token).access_key is None
            && config.with_token(token).access_secret is None,
{
}

} // verus!
