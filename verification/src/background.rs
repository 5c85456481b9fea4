//! The engine that runs beside the UI.
//!
//! The engine waits for nothing itself.  Each of its functions takes what
//! happened (a message of the UI, the answer to a request, a tick of the
//! clock), moves the engine on, and names the effects that are now due: what
//! to tell the UI, what to store, what to ask of the network.  The caller
//! carries the effects out, in their order, and comes back with the answers.

use crate::config::Config;
use crate::image::{Key, LoadContext, ToUIImage};
use crate::timeline::{merge_page, Timeline, Tweet};
use crate::twitter::{authorize_page, AuthRequest, KeyPair, Token, User};
use vstd::prelude::*;

verus! {

/// How many tweets a page holds at most.
pub const PAGE_SIZE: u32 = 10;

/// New versions are looked for once the last look is longer ago than this
/// many whole seconds.
pub const VERSION_CHECK_SECS: u64 = 3600;

/// Where the feed was read last: the bounds from which the next page is
/// asked for.  The engine keeps the cursor and hands it on; what it means is
/// the business of whoever loads the pages.
#[derive(Clone, Copy, Debug, PartialEq, Eq, Structural)]
pub struct Cursor {
    /// The smallest id of the page that was loaded last; a page of older
    /// tweets ends below it.
    pub min_id: Option<u64>,
    /// The largest id of the page that was loaded last; a page of newer
    /// tweets starts above it.
    pub max_id: Option<u64>,
}

/// Which page of the feed to load.
#[derive(Clone, Copy, Debug, PartialEq, Eq, Structural)]
pub enum Direction {
    /// The most recent page.
    Start,
    /// The page before the oldest tweet held.
    Older,
    /// The page after the newest tweet held.
    Newer,
}

/// Where the login stands.
#[derive(Debug)]
pub enum BackgroundState {
    NotLoggedIn,
    /// The user was sent to Twitter and has yet to enter the PIN.
    Authing(AuthRequest),
    /// Logged in, with the token that the feed is read with.  While
    /// `loading`, a page of the feed is on its way, and no other is asked for.
    LoggedIn { token: Token, timeline: Cursor, loading: bool },
}

/// What the UI asks of the engine.
#[derive(Debug)]
pub enum ToBackground {
    OpenTwitterLogin,
    TwitterPin { pin: String },
    LoadInitialTweets,
    LoadOlderTweets,
    LoadNewerTweets,
    LoadImage { key: Key, context: LoadContext },
    SetLatestTweet { id: u64 },
}

/// What the engine tells the UI.
#[derive(Debug)]
pub enum ToUI {
    Repaint,
    Disconnect,
    Loading,
    LoggedIn { user: User },
    Error { error: String },
    /// All tweets held, oldest first, and the id of the tweet read last.
    Tweets { tweets: Vec<Tweet>, latest: Option<u64> },
    ImageLoaded(ToUIImage),
    NewVersionAvailable { url: String },
}

impl ToUI {
    /// The message that only asks the UI to draw again.
    pub fn repaint_signal() -> (message: Self)
        ensures
            message is Repaint,
    {
        ToUI::Repaint
    }

    /// Whether the message only asks the UI to draw again.
    pub fn is_repaint_signal(&self) -> (repaint: bool)
        ensures
            repaint == (self is Repaint),
    {
        match self {
            ToUI::Repaint => true,
            _ => false,
        }
    }
}

/// What the caller is to do for the engine.
#[derive(Debug)]
pub enum Effect {
    /// Deliver the message to the UI.  If that fails, call
    /// `Runner::delivery_failed`, whether the engine still runs or not.
    SendToUI(ToUI),
    /// Store the settings.
    SaveConfig(Config),
    /// Ask Twitter for a request token, and answer with
    /// `Runner::token_requested`.
    RequestToken,
    /// Show the page to the user.
    OpenBrowser(String),
    /// Exchange the PIN for a token, and answer with
    /// `Runner::handle_login_result`.
    Authenticate { request: AuthRequest, pin: String },
    /// Ask Twitter whose token this is, and answer with
    /// `Runner::handle_login_result`.
    VerifyToken(Token),
    /// Load a page of the feed with the token, and answer with
    /// `Runner::tweets_loaded`.
    LoadTweets { token: Token, direction: Direction, timeline: Cursor, page_size: u32 },
    /// Fetch the image, and hand what came to `image::load_image_async`.
    LoadImage { key: Key, context: LoadContext },
    /// Look for a new version.
    CheckForNewVersion,
}

/// The engine.
#[derive(Debug)]
pub struct Runner {
    /// Cleared when the engine is to stop.
    pub running: bool,
    pub config: Config,
    /// The application's own key pair.
    pub consumer: KeyPair,
    pub state: BackgroundState,
    /// When new versions were last looked for, in milliseconds.
    pub last_new_version_check: u64,
    /// The tweets held.
    pub tweets: Timeline,
}

/// The settings that the engine starts with.
pub open spec fn starting_config(stored: Option<Config>) -> Config {
    match stored {
        Some(config) => config,
        None => Config::fresh(),
    }
}

/// What is due when the engine starts: fresh settings are stored; with a
/// stored token the UI is told to wait and the token is verified; and new
/// versions are looked for.
pub open spec fn startup_effects(stored: Option<Config>, consumer: KeyPair) -> Seq<Effect> {
    let save = if stored is None {
        seq![Effect::SaveConfig(Config::fresh())]
    } else {
        Seq::<Effect>::empty()
    };
    let login = match starting_config(stored).twitter.token(consumer) {
        Some(token) => seq![Effect::SendToUI(ToUI::Loading), Effect::VerifyToken(token)],
        None => Seq::<Effect>::empty(),
    };
    save + login + seq![Effect::CheckForNewVersion]
}

/// The last look for new versions is longer ago than an hour of whole
/// seconds.
pub open spec fn version_check_due(last: u64, now: u64) -> bool {
    (now - last) / 1000 > VERSION_CHECK_SECS
}

/// The cursor of a fresh login: nothing older than the tweet read last.
pub open spec fn first_cursor(config: Config) -> Cursor {
    Cursor { min_id: config.twitter.latest, max_id: None }
}

/// The engine stopped because its inbox was closed or the UI is gone: it no
/// longer runs, and the UI is told so, should it still listen.
pub open spec fn stopped(before: Runner, after: Runner, effects: Seq<Effect>) -> bool {
    &&& after == (Runner { running: false, ..before })
    &&& effects == seq![Effect::SendToUI(ToUI::Disconnect)]
}

/// A message could not be delivered.  An engine that runs stops; one that
/// had stopped already stays as it is, and nothing more is due.
pub open spec fn delivery_lost(before: Runner, after: Runner, effects: Seq<Effect>) -> bool {
    if before.running {
        stopped(before, after, effects)
    } else {
        after == before && effects.len() == 0
    }
}

/// The UI asked for a login.  Unless the user is logged in, a request token is
/// asked for; the state changes only when it arrives.
pub open spec fn login_opened(before: Runner, after: Runner, effects: Seq<Effect>) -> bool {
    &&& after == before
    &&& effects == if before.state is LoggedIn {
        Seq::<Effect>::empty()
    } else {
        seq![Effect::RequestToken]
    }
}

/// Twitter answered the request for a request token.  With a token the login
/// waits for the PIN, and the user is shown the page that gives it; an answer
/// that comes when the user is logged in is dropped.  A failure leaves the
/// state as it is and is reported to the UI.
pub open spec fn token_answered(
    before: Runner,
    answer: Result<KeyPair, String>,
    after: Runner,
    effects: Seq<Effect>,
) -> bool {
    match answer {
        Ok(token) => if before.state is LoggedIn {
            after == before && effects.len() == 0
        } else {
            &&& after.state matches BackgroundState::Authing(request)
            &&& request.token() == token
            &&& after == (Runner { state: after.state, ..before })
            &&& effects.len() == 1
            &&& effects[0] matches Effect::OpenBrowser(url)
            &&& url@ == authorize_page(token.key@)
        },
        Err(failure) => {
            &&& after == before
            &&& effects == seq![Effect::SendToUI(ToUI::Error { error: failure })]
        },
    }
}

/// The UI sent a PIN.  While a login waits for it, the exchange is asked for;
/// at any other time the PIN is dropped.  The state does not change.
pub open spec fn pin_entered(
    before: Runner,
    pin: String,
    after: Runner,
    effects: Seq<Effect>,
) -> bool {
    &&& after == before
    &&& effects == match before.state {
        BackgroundState::Authing(request) => seq![Effect::Authenticate { request, pin }],
        _ => Seq::<Effect>::empty(),
    }
}

/// Twitter answered a login.  With a user, the token is stored, the feed
/// starts after the tweet read last, and the UI is told who is logged in.  A
/// failure leaves everything as it is and is reported to the UI.
pub open spec fn login_answered(
    before: Runner,
    user: Result<User, String>,
    after: Runner,
    effects: Seq<Effect>,
) -> bool {
    match user {
        Ok(user) => {
            let config = Config { twitter: before.config.twitter.with_token(user.token) };
            &&& after == (Runner {
                config,
                state: BackgroundState::LoggedIn {
                    token: user.token,
                    timeline: first_cursor(config),
                    loading: false,
                },
                ..before
            })
            &&& effects == seq![
                Effect::SaveConfig(config),
                Effect::SendToUI(ToUI::LoggedIn { user }),
            ]
        },
        Err(failure) => {
            &&& after == before
            &&& effects == seq![Effect::SendToUI(ToUI::Error { error: failure })]
        },
    }
}

/// The UI asked for a page of the feed.  While logged in with no page on its
/// way, the page is asked for; at any other time the request is dropped.
pub open spec fn page_requested(
    before: Runner,
    direction: Direction,
    after: Runner,
    effects: Seq<Effect>,
) -> bool {
    match before.state {
        BackgroundState::LoggedIn { token, timeline, loading: false } => {
            &&& after == (Runner {
                state: BackgroundState::LoggedIn { token, timeline, loading: true },
                ..before
            })
            &&& effects == seq![
                Effect::LoadTweets { token, direction, timeline, page_size: PAGE_SIZE },
            ]
        },
        _ => after == before && effects.len() == 0,
    }
}

/// Twitter answered the request for a page.  While logged in, a page is
/// merged into the tweets held, the cursor moves on, and the UI gets all
/// tweets held; a failure leaves tweets and cursor as they are and is
/// reported.  Either way the next page may be asked for.  After a logout a
/// page is dropped, and a failure is still reported.
pub open spec fn page_answered(
    before: Runner,
    answer: Result<(Cursor, Vec<Tweet>), String>,
    after: Runner,
    effects: Seq<Effect>,
) -> bool {
    match (before.state, answer) {
        (BackgroundState::LoggedIn { token, timeline, loading }, Ok((next, page))) => {
            &&& after.tweets@ == merge_page(before.tweets@, page@)
            &&& after == (Runner {
                state: BackgroundState::LoggedIn { token, timeline: next, loading: false },
                tweets: after.tweets,
                ..before
            })
            &&& effects.len() == 1
            &&& effects[0] matches Effect::SendToUI(ToUI::Tweets { tweets, latest })
            &&& tweets@ == after.tweets@
            &&& latest == before.config.twitter.latest
        },
        (BackgroundState::LoggedIn { token, timeline, loading }, Err(failure)) => {
            &&& after == (Runner {
                state: BackgroundState::LoggedIn { token, timeline, loading: false },
                ..before
            })
            &&& effects == seq![Effect::SendToUI(ToUI::Error { error: failure })]
        },
        (_, Ok(_)) => after == before && effects.len() == 0,
        (_, Err(failure)) => {
            &&& after == before
            &&& effects == seq![Effect::SendToUI(ToUI::Error { error: failure })]
        },
    }
}

/// The UI named the tweet that was read last: it is stored.
pub open spec fn latest_set(before: Runner, id: u64, after: Runner, effects: Seq<Effect>) -> bool {
    let config = Config {
        twitter: crate::config::TwitterConfig { latest: Some(id), ..before.config.twitter },
    };
    &&& after == (Runner { config, ..before })
    &&& effects == seq![Effect::SaveConfig(config)]
}

/// What a message of the UI, or the end of all messages, does to the engine.
pub open spec fn received(
    before: Runner,
    recv: Option<ToBackground>,
    after: Runner,
    effects: Seq<Effect>,
) -> bool {
    match recv {
        None => stopped(before, after, effects),
        Some(ToBackground::OpenTwitterLogin) => login_opened(before, after, effects),
        Some(ToBackground::TwitterPin { pin }) => pin_entered(before, pin, after, effects),
        Some(ToBackground::LoadInitialTweets) => page_requested(
            before,
            Direction::Start,
            after,
            effects,
        ),
        Some(ToBackground::LoadOlderTweets) => page_requested(
            before,
            Direction::Older,
            after,
            effects,
        ),
        Some(ToBackground::LoadNewerTweets) => page_requested(
            before,
            Direction::Newer,
            after,
            effects,
        ),
        Some(ToBackground::LoadImage { key, context }) => {
            &&& after == before
            &&& effects == seq![Effect::LoadImage { key, context }]
        },
        Some(ToBackground::SetLatestTweet { id }) => latest_set(before, id, after, effects),
    }
}

impl Runner {
    /// Starts the engine at the time `now`, with the settings that were found
    /// stored, if any were.
    pub fn new(stored: Option<Config>, consumer: KeyPair, now: u64) -> (started: (
        Runner,
        Vec<Effect>,
    ))
        ensures
            started.0.running,
            started.0.config == starting_config(stored),
            started.0.consumer == consumer,
            started.0.state is NotLoggedIn,
            started.0.last_new_version_check == now,
            started.0.tweets@.len() == 0,
            started.1@ == startup_effects(stored, consumer),
    {
        let mut effects: Vec<Effect> = Vec::new();
        let (config, created) = Config::load(stored);
        if created {
            effects.push(Effect::SaveConfig(config.clone()));
        }
        match config.twitter.get_token(&consumer) {
            Some(token) => {
                effects.push(Effect::SendToUI(ToUI::Loading));
                effects.push(Effect::VerifyToken(token));
            },
            None => {},
        }
        effects.push(Effect::CheckForNewVersion);
        proof {
            assert(effects@ =~= startup_effects(stored, consumer));
        }
        let runner = Runner {
            running: true,
            config,
            consumer,
            state: BackgroundState::NotLoggedIn,
            last_new_version_check: now,
            tweets: Timeline::new(),
        };
        (runner, effects)
    }

    /// Whether the caller is to go on.
    pub fn is_running(&self) -> (running: bool)
        ensures
            running == self.running,
    {
        self.running
    }

    /// The clock ticked.  Once an hour new versions are looked for.
    pub fn tick(&mut self, now: u64) -> (effects: Vec<Effect>)
        ensures
            version_check_due(old(self).last_new_version_check, now) ==> *final(self) == (Runner {
                last_new_version_check: now,
                ..*old(self)
            }) && effects@ == seq![Effect::CheckForNewVersion],
            !version_check_due(old(self).last_new_version_check, now) ==> *final(self) == *old(
                self,
            ) && effects@.len() == 0,
    {
        let mut effects: Vec<Effect> = Vec::new();
        if now > self.last_new_version_check && (now - self.last_new_version_check) / 1000
            > VERSION_CHECK_SECS {
            self.last_new_version_check = now;
            effects.push(Effect::CheckForNewVersion);
        }
        effects
    }

    /// A message could not be delivered: the UI is gone, and the engine
    /// stops, unless it had stopped already.
    pub fn delivery_failed(&mut self) -> (effects: Vec<Effect>)
        ensures
            delivery_lost(*old(self), *final(self), effects@),
    {
        if self.running {
            self.stop()
        } else {
            Vec::new()
        }
    }

    fn stop(&mut self) -> (effects: Vec<Effect>)
        ensures
            stopped(*old(self), *final(self), effects@),
    {
        self.running = false;
        let mut effects: Vec<Effect> = Vec::new();
        effects.push(Effect::SendToUI(ToUI::Disconnect));
        effects
    }

    /// Takes a message of the UI, or the news that there will be no more.
    pub fn handle_recv(&mut self, recv: Option<ToBackground>) -> (effects: Vec<Effect>)
        ensures
            received(*old(self), recv, *final(self), effects@),
    {
        match recv {
            None => self.stop(),
            Some(ToBackground::OpenTwitterLogin) => self.open_twitter_login(),
            Some(ToBackground::TwitterPin { pin }) => self.login(pin),
            Some(ToBackground::LoadInitialTweets) => self.load_tweets(Direction::Start),
            Some(ToBackground::LoadOlderTweets) => self.load_tweets(Direction::Older),
            Some(ToBackground::LoadNewerTweets) => self.load_tweets(Direction::Newer),
            Some(ToBackground::LoadImage { key, context }) => {
                let mut effects: Vec<Effect> = Vec::new();
                effects.push(Effect::LoadImage { key, context });
                effects
            },
            Some(ToBackground::SetLatestTweet { id }) => self.set_latest_tweet(id),
        }
    }

    /// The UI asked for a login.
    pub fn open_twitter_login(&mut self) -> (effects: Vec<Effect>)
        ensures
            login_opened(*old(self), *final(self), effects@),
    {
        let mut effects: Vec<Effect> = Vec::new();
        match &self.state {
            BackgroundState::LoggedIn { .. } => {},
            _ => {
                effects.push(Effect::RequestToken);
            },
        }
        effects
    }

    /// Twitter answered the request for a request token.
    pub fn token_requested(&mut self, answer: Result<KeyPair, String>) -> (effects: Vec<Effect>)
        ensures
            token_answered(*old(self), answer, *final(self), effects@),
    {
        let mut effects: Vec<Effect> = Vec::new();
        match answer {
            Ok(token) => {
                match &self.state {
                    BackgroundState::LoggedIn { .. } => {},
                    _ => {
                        let request = AuthRequest::new(token);
                        effects.push(Effect::OpenBrowser(request.url()));
                        self.state = BackgroundState::Authing(request);
                    },
                }
            },
            Err(failure) => {
                effects.push(Effect::SendToUI(ToUI::Error { error: failure }));
            },
        }
        effects
    }

    /// The UI sent the PIN.
    pub fn login(&mut self, pin: String) -> (effects: Vec<Effect>)
        ensures
            pin_entered(*old(self), pin, *final(self), effects@),
    {
        let mut effects: Vec<Effect> = Vec::new();
        match &self.state {
            BackgroundState::Authing(request) => {
                effects.push(Effect::Authenticate { request: request.clone(), pin });
            },
            _ => {},
        }
        effects
    }

    /// Twitter answered a login, by PIN or by stored token.
    pub fn handle_login_result(&mut self, user: Result<User, String>) -> (effects: Vec<Effect>)
        ensures
            login_answered(*old(self), user, *final(self), effects@),
    {
        let mut effects: Vec<Effect> = Vec::new();
        match user {
            Ok(user) => {
                self.config.twitter.set_token(&user.token);
                effects.push(Effect::SaveConfig(self.config.clone()));
                self.state = BackgroundState::LoggedIn {
                    token: user.token.clone(),
                    timeline: Cursor { min_id: self.config.twitter.latest, max_id: None },
                    loading: false,
                };
                effects.push(Effect::SendToUI(ToUI::LoggedIn { user }));
                proof {
                    assert(effects@ =~= seq![
                        Effect::SaveConfig(self.config),
                        Effect::SendToUI(ToUI::LoggedIn { user }),
                    ]);
                }
            },
            Err(failure) => {
                effects.push(Effect::SendToUI(ToUI::Error { error: failure }));
            },
        }
        effects
    }

    /// The UI asked for a page of the feed.
    pub fn load_tweets(&mut self, direction: Direction) -> (effects: Vec<Effect>)
        ensures
            page_requested(*old(self), direction, *final(self), effects@),
    {
        let mut effects: Vec<Effect> = Vec::new();
        let idle = match &self.state {
            BackgroundState::LoggedIn { token, timeline, loading: false } => Some(
                (token.clone(), *timeline),
            ),
            _ => None,
        };
        match idle {
            Some((token, timeline)) => {
                effects.push(
                    Effect::LoadTweets {
                        token: token.clone(),
                        direction,
                        timeline,
                        page_size: PAGE_SIZE,
                    },
                );
                self.state = BackgroundState::LoggedIn { token, timeline, loading: true };
            },
            None => {},
        }
        effects
    }

    /// Twitter answered the request for a page of the feed.
    pub fn tweets_loaded(&mut self, answer: Result<(Cursor, Vec<Tweet>), String>) -> (effects: Vec<
        Effect,
    >)
        ensures
            page_answered(*old(self), answer, *final(self), effects@),
    {
        let mut effects: Vec<Effect> = Vec::new();
        let logged_in = match &self.state {
            BackgroundState::LoggedIn { token, timeline, .. } => Some((token.clone(), *timeline)),
            _ => None,
        };
        match answer {
            Ok((next, page)) => {
                match logged_in {
                    Some((token, _)) => {
                        self.tweets.merge(&page);
                        self.state = BackgroundState::LoggedIn {
                            token,
                            timeline: next,
                            loading: false,
                        };
                        effects.push(
                            Effect::SendToUI(
                                ToUI::Tweets {
                                    tweets: self.tweets.to_vec(),
                                    latest: self.config.twitter.latest,
                                },
                            ),
                        );
                    },
                    None => {},
                }
            },
            Err(failure) => {
                match logged_in {
                    Some((token, timeline)) => {
                        self.state = BackgroundState::LoggedIn { token, timeline, loading: false };
                    },
                    None => {},
                }
                effects.push(Effect::SendToUI(ToUI::Error { error: failure }));
            },
        }
        effects
    }

    /// The UI named the tweet that was read last.
    pub fn set_latest_tweet(&mut self, id: u64) -> (effects: Vec<Effect>)
        ensures
            latest_set(*old(self), id, *final(self), effects@),
    {
        self.config.twitter.latest = Some(id);
        let mut effects: Vec<Effect> = Vec::new();
        effects.push(Effect::SaveConfig(self.config.clone()));
        effects
    }
}

/// A login that succeeded is there again after a restart: the settings that
/// the engine stores on login make the next engine verify the same token,
/// and ask the user for nothing.
pub proof fn lemma_login_survives_restart(
    before: Runner,
    user: User,
    after: Runner,
    effects: Seq<Effect>,
)
    requires
        login_answered(before, Ok(user), after, effects),
        user.token matches Token::Access { consumer, .. } ==> consumer == before.consumer,
    ensures
        after.state is LoggedIn,
        effects[0] == Effect::SaveConfig(after.config),
        startup_effects(Some(after.config), after.consumer) == seq![
            Effect::SendToUI(ToUI::Loading),
            Effect::VerifyToken(user.token),
            Effect::CheckForNewVersion,
        ],
{
    crate::config::lemma_stored_token_is_read_back(
        before.config.twitter,
        user.token,
        before.consumer,
    );
    assert(startup_effects(Some(after.config), after.consumer) =~= seq![
        Effect::SendToUI(ToUI::Loading),
        Effect::VerifyToken(user.token),
        Effect::CheckForNewVersion,
    ]);
}

/// One page at a time: while a page of the feed is on its way, no message of
/// the UI has another one asked for.
pub proof fn lemma_one_page_at_a_time(
    before: Runner,
    recv: Option<ToBackground>,
    after: Runner,
    effects: Seq<Effect>,
)
    requires
        before.state matches BackgroundState::LoggedIn { loading: true, .. },
        received(before, recv, after, effects),
    ensures
        after.state == before.state,
        forall|i: int| 0 <= i < effects.len() ==> !(#[trigger] effects[i] is LoadTweets),
{
}

/// Who is logged in stays logged in, whatever the UI sends and whatever
/// answers come.
pub proof fn lemma_logged_in_stays(before: Runner, after: Runner, effects: Seq<Effect>)
    requires
        before.state is LoggedIn,
    ensures
        forall|recv: Option<ToBackground>|
            received(before, recv, after, effects) ==> after.state is LoggedIn,
        forall|answer: Result<KeyPair, String>|
            token_answered(before, answer, after, effects) ==> after.state is LoggedIn,
        forall|user: Result<User, String>|
            login_answered(before, user, after, effects) ==> after.state is LoggedIn,
        forall|answer: Result<(Cursor, Vec<Tweet>), String>|
            page_answered(before, answer, after, effects) ==> after.state is LoggedIn,
{
}

/// Only a login that succeeds logs the user in: a message of the UI, a
/// request token, or a page of the feed never does.
pub proof fn lemma_only_login_logs_in(before: Runner, after: Runner, effects: Seq<Effect>)
    requires
        !(before.state is LoggedIn),
    ensures
        forall|recv: Option<ToBackground>|
            received(before, recv, after, effects) ==> after.state == before.state,
        forall|answer: Result<KeyPair, String>|
            token_answered(before, answer, after, effects) ==> !(after.state is LoggedIn),
        forall|failure: String|
            login_answered(before, Err(failure), after, effects) ==> after.state == before.state,
        forall|answer: Result<(Cursor, Vec<Tweet>), String>|
            page_answered(before, answer, after, effects) ==> after.state == before.state,
{
}

} // verus!
