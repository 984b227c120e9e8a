//! Tweets as the Twitter API gives them, and the requests the Twitter client
//! sends: the token request and the timeline request of an account.

use vstd::prelude::*;
use crate::text::{decimal, decimal_exec, string_of};

verus! {

/// A link of a tweet, in its expanded form.
#[derive(Debug)]
pub struct Url {
    expanded_url: String,
}

impl Url {
    pub closed spec fn spec_expanded_url(&self) -> Seq<char> {
        self.expanded_url@
    }

    pub fn new(expanded_url: String) -> (u: Url)
        ensures
            u.spec_expanded_url() == expanded_url@,
    {
        Url { expanded_url }
    }

    pub fn get_expanded_url(&self) -> (r: String)
        ensures
            r@ == self.spec_expanded_url(),
    {
        self.expanded_url.clone()
    }
}

impl Clone for Url {
    fn clone(&self) -> (r: Self)
        ensures
            r.spec_expanded_url() == self.spec_expanded_url(),
    {
        Url { expanded_url: self.expanded_url.clone() }
    }
}

/// The links of a tweet.
#[derive(Debug)]
pub struct Entities {
    urls: Vec<Url>,
}

pub open spec fn url_views(urls: Seq<Url>) -> Seq<Seq<char>> {
    urls.map_values(|u: Url| u.spec_expanded_url())
}

impl Entities {
    pub closed spec fn spec_urls(&self) -> Seq<Seq<char>> {
        url_views(self.urls@)
    }

    pub fn new(urls: Vec<Url>) -> (e: Entities)
        ensures
            e.spec_urls() == url_views(urls@),
    {
        Entities { urls }
    }

    pub fn get_urls(&self) -> (r: Vec<Url>)
        ensures
            url_views(r@) == self.spec_urls(),
    {
        let mut r: Vec<Url> = Vec::new();
        let mut i: usize = 0;
        while i < self.urls.len()
            invariant
                i <= self.urls.len(),
                url_views(r@) == url_views(self.urls@).subrange(0, i as int),
            decreases self.urls.len() - i,
        {
            let c = self.urls[i].clone();
            assert(c.spec_expanded_url() == self.urls@[i as int].spec_expanded_url());
            let ghost prev = r@;
            r.push(c);
            proof {
                assert(r@ == prev.push(c));
                assert(url_views(r@) =~= url_views(prev).push(c.spec_expanded_url()));
                assert(url_views(r@) =~= url_views(self.urls@).subrange(0, i + 1));
            }
            i = i + 1;
        }
        proof {
            assert(url_views(self.urls@).subrange(0, self.urls@.len() as int) =~= url_views(self.urls@));
        }
        r
    }
}

/// What a tweet holds, as plain values.
pub struct TweetView {
    pub created_at: Seq<char>,
    pub id: u64,
    pub text: Seq<char>,
    pub urls: Seq<Seq<char>>,
}

/// A tweet: when it was made, its id, its full text and its links.
#[derive(Debug)]
pub struct Tweet {
    created_at: String,
    id: u64,
    full_text: String,
    entities: Entities,
}

impl View for Tweet {
    type V = TweetView;

    closed spec fn view(&self) -> TweetView {
        TweetView {
            created_at: self.created_at@,
            id: self.id,
            text: self.full_text@,
            urls: self.entities.spec_urls(),
        }
    }
}

/// The last link of a tweet.
pub open spec fn last_url(urls: Seq<Seq<char>>) -> Option<Seq<char>> {
    if urls.len() > 0 {
        Some(urls.last())
    } else {
        None
    }
}

impl Tweet {
    pub fn new(created_at: String, id: u64, full_text: String, entities: Entities) -> (t: Tweet)
        ensures
            t@ == (TweetView {
                created_at: created_at@,
                id,
                text: full_text@,
                urls: entities.spec_urls(),
            }),
    {
        Tweet { created_at, id, full_text, entities }
    }

    pub fn get_text(&self) -> (r: String)
        ensures
            r@ == self@.text,
    {
        self.full_text.clone()
    }

    /// The tweet's last link, if it has one.
    pub fn get_url(&self) -> (r: Option<String>)
        ensures
            match r {
                Some(u) => last_url(self@.urls) == Some(u@),
                None => last_url(self@.urls) is None,
            },
    {
        let n = self.entities.urls.len();
        if n > 0 {
            Some(self.entities.urls[n - 1].get_expanded_url())
        } else {
            None
        }
    }

    pub fn get_tweet_id(&self) -> (r: u64)
        ensures
            r == self@.id,
    {
        self.id
    }

    pub fn get_created_at(&self) -> (r: String)
        ensures
            r@ == self@.created_at,
    {
        self.created_at.clone()
    }

    pub fn get_entities(&self) -> (r: Entities)
        ensures
            r.spec_urls() == self@.urls,
    {
        Entities::new(self.entities.get_urls())
    }
}

impl Clone for Tweet {
    fn clone(&self) -> (r: Self)
        ensures
            r@ == self@,
    {
        Tweet {
            created_at: self.created_at.clone(),
            id: self.id,
            full_text: self.full_text.clone(),
            entities: Entities::new(self.entities.get_urls()),
        }
    }
}

/// The settings of the Twitter client: the API's address, the consumer key
/// and secret, and the bearer token (empty until one has been obtained).
#[derive(Debug)]
pub struct TwitterClient {
    url: String,
    key: String,
    secret: String,
    token: String,
}

pub struct TwitterClientView {
    pub url: Seq<char>,
    pub key: Seq<char>,
    pub secret: Seq<char>,
    pub token: Seq<char>,
}

impl View for TwitterClient {
    type V = TwitterClientView;

    closed spec fn view(&self) -> TwitterClientView {
        TwitterClientView {
            url: self.url@,
            key: self.key@,
            secret: self.secret@,
            token: self.token@,
        }
    }
}

impl Clone for TwitterClient {
    fn clone(&self) -> (r: Self)
        ensures
            r@ == self@,
    {
        TwitterClient {
            url: self.url.clone(),
            key: self.key.clone(),
            secret: self.secret.clone(),
            token: self.token.clone(),
        }
    }
}

/// The address of the token request.
pub open spec fn spec_token_uri(url: Seq<char>) -> Seq<char> {
    url + "/oauth2/token"@
}

/// The address of the timeline request of `screen_name`: the last five
/// tweets, or those after `last_tweet_id`.
pub open spec fn spec_timeline_uri(url: Seq<char>, screen_name: Seq<char>, last_tweet_id: Option<u64>) -> Seq<char> {
    url + "/"@ + "/1.1/statuses/user_timeline.json"@ + "?"@ + "tweet_mode=extended&screen_name="@
        + screen_name + match last_tweet_id {
        None => "&count=5"@,
        Some(id) => "&since_id="@ + decimal(id as nat),
    }
}

impl TwitterClient {
    pub fn new(url: String, key: String, secret: String) -> (c: TwitterClient)
        ensures
            c@ == (TwitterClientView { url: url@, key: key@, secret: secret@, token: Seq::<char>::empty() }),
    {
        TwitterClient { url, key, secret, token: String::new() }
    }

    /// Whether a token has to be obtained before the timeline can be read.
    pub fn needs_token(&self) -> (b: bool)
        ensures
            b == (self@.token.len() == 0),
    {
        self.token.as_str().is_empty()
    }

    pub fn set_token(&mut self, token: String)
        ensures
            final(self)@ == (TwitterClientView { token: token@, ..old(self)@ }),
    {
        self.token = token;
    }

    pub fn get_key(&self) -> (r: String)
        ensures
            r@ == self@.key,
    {
        self.key.clone()
    }

    pub fn get_secret(&self) -> (r: String)
        ensures
            r@ == self@.secret,
    {
        self.secret.clone()
    }

    pub fn get_token(&self) -> (r: String)
        ensures
            r@ == self@.token,
    {
        self.token.clone()
    }

    pub fn token_uri(&self) -> (r: String)
        ensures
            r@ == spec_token_uri(self@.url),
    {
        let mut r = self.url.clone();
        r.append("/oauth2/token");
        r
    }

    pub fn timeline_uri(&self, screen_name: &str, last_tweet_id: Option<u64>) -> (r: String)
        ensures
            r@ == spec_timeline_uri(self@.url, screen_name@, last_tweet_id),
    {
        let mut r = self.url.clone();
        r.append("/");
        r.append("/1.1/statuses/user_timeline.json");
        r.append("?");
        r.append("tweet_mode=extended&screen_name=");
        r.append(screen_name);
        match last_tweet_id {
            None => {
                r.append("&count=5");
            },
            Some(id) => {
                r.append("&since_id=");
                let digits = string_of(&decimal_exec(id));
                r.append(digits.as_str());
            },
        }
        proof {
            assert(r@ =~= spec_timeline_uri(self@.url, screen_name@, last_tweet_id));
        }
        r
    }
}

} // verus!
