//! Quakes from the PHIVOLCS Twitter account: the error type of the Twitter
//! side, and the state that decides which tweets to ask for next.

use vstd::prelude::*;
use crate::quake::{Quake, QuakeView, quake_views};
use crate::tweet_parser::{TweetParser, quakes_of_tweets, tweet_views, tweets_ok};
use crate::twitter_client::{Tweet, TwitterClient, TwitterClientView};

verus! {

/// The error of the Twitter side: a description of what went wrong.
#[derive(Clone, Debug)]
pub struct TwitterError {
    description: String,
}

impl TwitterError {
    pub closed spec fn spec_description(&self) -> Seq<char> {
        self.description@
    }

    pub fn new(description: String) -> (e: TwitterError)
        ensures
            e.spec_description() == description@,
    {
        TwitterError { description }
    }

    pub fn description(&self) -> (d: &str)
        ensures
            d@ == self.spec_description(),
    {
        self.description.as_str()
    }

    /// The text the error shows: `"Twitter error: "` and the description.
    pub fn message(&self) -> (m: String)
        ensures
            m@ == "Twitter error: "@ + self.spec_description(),
    {
        let mut m = String::from_str("Twitter error: ");
        m.append(self.description.as_str());
        m
    }

    /// The error for a failed read or write, given the text of the I/O error.
    pub fn from_io_error(error_text: &str) -> (e: TwitterError)
        ensures
            e.spec_description() == "IO error in Twitter: "@ + error_text@,
    {
        let mut d = String::from_str("IO error in Twitter: ");
        d.append(error_text);
        TwitterError { description: d }
    }

    /// The error for a response body that could not be read, given the error's text.
    pub fn from_payload_error(error_text: &str) -> (e: TwitterError)
        ensures
            e.spec_description() == "Twitter payload error: "@ + error_text@,
    {
        let mut d = String::from_str("Twitter payload error: ");
        d.append(error_text);
        TwitterError { description: d }
    }

    /// The error for a request that could not be sent, given the error's text.
    pub fn from_send_error(error_text: &str) -> (e: TwitterError)
        ensures
            e.spec_description() == "Twitter send error: "@ + error_text@,
    {
        let mut d = String::from_str("Twitter send error: ");
        d.append(error_text);
        TwitterError { description: d }
    }

    /// The error for a response that is not UTF-8, given the decoding error's text.
    pub fn from_utf8_error(error_text: &str) -> (e: TwitterError)
        ensures
            e.spec_description() == "Scraper decoding error: "@ + error_text@,
    {
        let mut d = String::from_str("Scraper decoding error: ");
        d.append(error_text);
        TwitterError { description: d }
    }
}

pub open spec fn spec_twitter_url() -> Seq<char> {
    "https://api.twitter.com"@
}

pub open spec fn spec_screen_name() -> Seq<char> {
    "phivolcs_dost"@
}

/// The account whose tweets are read.
pub fn phivolcs_screen_name() -> (s: String)
    ensures
        s@ == spec_screen_name(),
{
    String::from_str("phivolcs_dost")
}

/// The client settings and the id of the last tweet taken in (0 before the first).
#[derive(Clone, Debug)]
pub struct TwitterQuakes {
    client: TwitterClient,
    last_tweet_id: u64,
}

impl TwitterQuakes {
    pub closed spec fn spec_last_tweet_id(&self) -> u64 {
        self.last_tweet_id
    }

    pub closed spec fn spec_client(&self) -> TwitterClientView {
        self.client@
    }

    pub fn new(key: String, secret: String) -> (t: TwitterQuakes)
        ensures
            t.spec_last_tweet_id() == 0,
            t.spec_client() == (TwitterClientView {
                url: spec_twitter_url(),
                key: key@,
                secret: secret@,
                token: Seq::<char>::empty(),
            }),
    {
        let url = String::from_str("https://api.twitter.com");
        let client = TwitterClient::new(url, key, secret);
        TwitterQuakes { client, last_tweet_id: 0 }
    }

    /// Whether tweets have been taken in already.
    pub fn has_started(&self) -> (b: bool)
        ensures
            b == (self.spec_last_tweet_id() > 0),
    {
        self.last_tweet_id > 0
    }

    /// The `since_id` of the next timeline request: none for the first one
    /// (which asks for the latest tweets), else the last tweet taken in.
    pub fn since_id(&self) -> (r: Option<u64>)
        ensures
            r == (if self.spec_last_tweet_id() > 0 {
                Some(self.spec_last_tweet_id())
            } else {
                None::<u64>
            }),
    {
        if self.has_started() {
            Some(self.last_tweet_id)
        } else {
            None
        }
    }

    pub fn get_client(&self) -> (c: TwitterClient)
        ensures
            c@ == self.spec_client(),
    {
        self.client.clone()
    }

    /// Keeps the bearer token the client obtained.
    pub fn set_token(&mut self, token: String)
        ensures
            final(self).spec_client() == (TwitterClientView { token: token@, ..old(self).spec_client() }),
            final(self).spec_last_tweet_id() == old(self).spec_last_tweet_id(),
    {
        self.client.set_token(token);
    }

    /// Takes in the tweets of a timeline response: the last of them becomes
    /// the last tweet taken in, and their quakes are read.
    pub fn process(&mut self, tweets: Vec<Tweet>) -> (r: Result<Vec<Quake>, TwitterError>)
        requires
            tweets_ok(tweet_views(tweets@)),
        ensures
            final(self).spec_last_tweet_id() == (if tweets@.len() > 0 {
                tweets@.last()@.id
            } else {
                old(self).spec_last_tweet_id()
            }),
            final(self).spec_client() == old(self).spec_client(),
            match r {
                Ok(qs) => quakes_of_tweets(tweet_views(tweets@)) == Ok::<Seq<QuakeView>, Seq<char>>(quake_views(qs@)),
                Err(e) => quakes_of_tweets(tweet_views(tweets@)) == Err::<Seq<QuakeView>, Seq<char>>(e.spec_description()),
            },
    {
        if tweets.len() > 0 {
            self.last_tweet_id = tweets[tweets.len() - 1].get_tweet_id();
        }
        let parser = TweetParser::new(tweets);
        parser.get_quakes()
    }
}

} // verus!
