//! The request side of the feed service: the feeds it describes and the
//! validation of skeleton requests.

use vstd::prelude::*;

use crate::algos::{
    algorithm_names, feed, feed_outcome, feed_result, list, FeedError, FeedOutput, FeedParams,
};
use crate::atproto::{at_uri_text, parse_at_uri, AtUri};
use crate::models::posts::{PostTable, PostView};

verus! {

/// The service's identity.
#[derive(Debug, Clone)]
pub struct Config {
    /// The did of the feed generator service.
    pub service_did: String,
    /// The did of the account that publishes the feeds.
    pub publisher_did: String,
    /// The host name the service is reached at.
    pub hostname: String,
}

/// The collection of feed generator records.
pub open spec fn generator_collection() -> Seq<char> {
    "app.bsky.feed.generator"@
}

/// The uris of the described feeds: one generator record of the publisher per
/// served feed name, in order.
pub fn describe_feed_generator(config: &Config) -> (r: Vec<String>)
    ensures
        r@.len() == algorithm_names().len(),
        forall|i: int|
            0 <= i < r@.len() ==> (#[trigger] r@[i])@ == at_uri_text(
                config.publisher_did@,
                generator_collection(),
                algorithm_names()[i],
            ),
{
    let names = list();
    let mut r: Vec<String> = Vec::new();
    let mut i: usize = 0;
    while i < names.len()
        invariant
            i <= names@.len(),
            names@.len() == algorithm_names().len(),
            forall|j: int| 0 <= j < names@.len() ==> (#[trigger] names@[j])@ == algorithm_names()[j],
            r@.len() == i,
            forall|j: int|
                0 <= j < i ==> (#[trigger] r@[j])@ == at_uri_text(
                    config.publisher_did@,
                    generator_collection(),
                    algorithm_names()[j],
                ),
        decreases names@.len() - i,
    {
        let uri = AtUri {
            did: config.publisher_did.clone(),
            collection: String::from_str("app.bsky.feed.generator"),
            rkey: String::from_str(names[i]),
        };
        r.push(uri.to_string());
        i += 1;
    }
    r
}

/// The service endpoint advertised in the service's did document: `https://<hostname>`.
pub fn service_endpoint(config: &Config) -> (r: String)
    ensures
        r@ == "https://"@ + config.hostname@,
{
    let mut r = String::from_str("https://");
    r.append(config.hostname.as_str());
    r
}

/// What a skeleton request returns: refused when the feed uri does not parse
/// or is not a generator record of this publisher; else the named feed's page.
pub open spec fn skeleton_result(config: Config, posts: Seq<PostView>, params: FeedParams) -> Result<Seq<PostView>, FeedError> {
    match parse_at_uri(params.feed@) {
        Err(_) => Err(FeedError::UnparsableFeed),
        Ok(u) => if u.did != config.publisher_did@ || u.collection != generator_collection() {
            Err(FeedError::UnsupportedAlgorithm)
        } else {
            feed_result(u.rkey, posts, params)
        },
    }
}

/// Answers a skeleton request.
pub fn get_feed_skeleton(config: &Config, posts: &PostTable, params: &FeedParams) -> (r: Result<FeedOutput, FeedError>)
    ensures
        feed_outcome(r, skeleton_result(*config, posts@, *params), params.limit),
{
    let uri = match AtUri::from_str(params.feed.as_str()) {
        Err(_) => return Err(FeedError::UnparsableFeed),
        Ok(u) => u,
    };
    if !(uri.did == config.publisher_did) || !(uri.collection == String::from_str("app.bsky.feed.generator")) {
        return Err(FeedError::UnsupportedAlgorithm);
    }
    feed(uri.rkey.as_str(), posts, params)
}

} // verus!
