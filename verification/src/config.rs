//! The durable configuration: sink credentials and the ordered collection of
//! tracked feeds, each with its per-feed state.

use vstd::prelude::*;

use crate::errors::Cause;

verus! {

/// One tracked feed and its durable state.
pub struct FeedConfiguration {
    /// Stable identity of the feed; unique within a configuration.
    pub url: String,
    /// Free-form tag string attached to every entry pushed from this feed;
    /// empty means no tags.
    pub tags: String,
    /// Trimmed entry links already delivered or deliberately skipped, oldest
    /// first; append-only within a run, used only for membership tests.
    pub processed_entries: Vec<String>,
    /// Caching validators from the most recent fully successful fetch; used
    /// to make the next fetch conditional.
    pub last_modified: Option<String>,
    pub last_e_tag: Option<String>,
}

/// The mathematical value of a feed's state: plain sequences of characters.
pub struct FeedStateView {
    pub url: Seq<char>,
    pub tags: Seq<char>,
    pub processed_entries: Seq<Seq<char>>,
    pub last_modified: Option<Seq<char>>,
    pub last_e_tag: Option<Seq<char>>,
}

pub open spec fn opt_string_view(o: Option<String>) -> Option<Seq<char>> {
    match o {
        Option::Some(s) => Option::Some(s@),
        Option::None => Option::None,
    }
}

/// The scratch and backup names of the atomic save: the updated
/// configuration is written to the first, the original is parked at the
/// second while the two renames swap them.
pub fn backup_file_names(config_file_name: &str) -> (r: (String, String))
    ensures
        r.0@ == config_file_name@ + ".new"@,
        r.1@ == config_file_name@ + ".old"@,
{
    let mut new_name = String::new();
    new_name.append(config_file_name);
    new_name.append(".new");
    let mut old_name = String::new();
    old_name.append(config_file_name);
    old_name.append(".old");
    proof {
        assert(new_name@ =~= config_file_name@ + ".new"@);
        assert(old_name@ =~= config_file_name@ + ".old"@);
    }
    (new_name, old_name)
}

/// A copy of an optional string, equal to the original.
pub fn clone_opt_string(o: &Option<String>) -> (r: Option<String>)
    ensures
        r == *o,
{
    match o {
        Some(s) => Some(s.clone()),
        None => None,
    }
}

/// A copy of a list of strings, equal to the original.
pub fn clone_string_vec(v: &Vec<String>) -> (r: Vec<String>)
    ensures
        r@ == v@,
{
    let mut r: Vec<String> = Vec::new();
    let mut i: usize = 0;
    while i < v.len()
        invariant
            0 <= i <= v@.len(),
            r@ == v@.take(i as int),
        decreases v@.len() - i,
    {
        r.push(v[i].clone());
        proof {
            assert(r@ =~= v@.take(i + 1));
        }
        i = i + 1;
    }
    proof {
        assert(v@.take(v@.len() as int) =~= v@);
    }
    r
}

impl View for FeedConfiguration {
    type V = FeedStateView;

    open spec fn view(&self) -> FeedStateView {
        FeedStateView {
            url: self.url@,
            tags: self.tags@,
            processed_entries: self.processed_entries.deep_view(),
            last_modified: opt_string_view(self.last_modified),
            last_e_tag: opt_string_view(self.last_e_tag),
        }
    }
}

impl FeedConfiguration {
    /// The tags to attach when delivering an entry from this feed: an empty
    /// tag string means "no tags", not a tag that is the empty string.
    pub fn delivery_tags(&self) -> (r: Option<String>)
        ensures
            r is None <==> self@.tags.len() == 0,
            r matches Some(t) ==> t@ == self@.tags,
    {
        if self.tags.as_str().is_empty() {
            None
        } else {
            Some(self.tags.clone())
        }
    }

    /// A newly tracked feed: no entry processed yet, no validators observed.
    pub fn new(url: String, tags: String) -> (r: FeedConfiguration)
        ensures
            r@.url == url@,
            r@.tags == tags@,
            r@.processed_entries == Seq::<Seq<char>>::empty(),
            r@.last_modified is None,
            r@.last_e_tag is None,
    {
        let r = FeedConfiguration {
            url,
            tags,
            processed_entries: Vec::new(),
            last_modified: None,
            last_e_tag: None,
        };
        proof {
            assert(r.processed_entries.deep_view() =~= Seq::<Seq<char>>::empty());
        }
        r
    }
}

/// The process-wide durable root: optional sink credentials and the ordered
/// feeds. Loaded once at start, mutated in memory, written back at the end.
pub struct Configuration {
    pub consumer_key: Option<String>,
    pub access_token: Option<String>,
    pub feeds: Vec<FeedConfiguration>,
}

impl Default for Configuration {
    /// An empty configuration: no credentials, no feeds.
    fn default() -> (r: Configuration)
        ensures
            r.consumer_key is None,
            r.access_token is None,
            r.feeds@.len() == 0,
    {
        Configuration { consumer_key: None, access_token: None, feeds: Vec::new() }
    }
}

/// The sequence of feed states a configuration holds.
pub open spec fn feeds_view(feeds: Seq<FeedConfiguration>) -> Seq<FeedStateView> {
    feeds.map_values(|f: FeedConfiguration| f@)
}

impl Configuration {
    /// Record the consumer key obtained from the sink's developer site.
    pub fn set_consumer_key(&mut self, key: String)
        ensures
            final(self).consumer_key == Some(key),
            final(self).access_token == old(self).access_token,
            final(self).feeds == old(self).feeds,
    {
        self.consumer_key = Some(key);
    }

    /// Record the access token obtained by the login exchange.
    pub fn set_access_token(&mut self, token: String)
        ensures
            final(self).access_token == Some(token),
            final(self).consumer_key == old(self).consumer_key,
            final(self).feeds == old(self).feeds,
    {
        self.access_token = Some(token);
    }

    /// Whether some tracked feed has this URL.
    pub open spec fn has_feed(&self, url: Seq<char>) -> bool {
        exists|i: int| 0 <= i < self.feeds@.len() && feeds_view(self.feeds@)[i].url == url
    }

    /// Track a feed, or update the tags of the feed already tracked under the
    /// same URL. When the URL is new, a fresh feed is appended with the given
    /// tags (empty when none are given); when it is already tracked, the
    /// first feed with that URL keeps all its state and only its tags are
    /// replaced, and only if tags were given. Returns whether a feed was
    /// created.
    pub fn upsert_feed(&mut self, feed_url: &String, tags: Option<String>) -> (created: bool)
        ensures
            final(self).consumer_key == old(self).consumer_key,
            final(self).access_token == old(self).access_token,
            created == !old(self).has_feed(feed_url@),
            created ==> {
                &&& final(self).feeds@.len() == old(self).feeds@.len() + 1
                &&& final(self).feeds@.drop_last() == old(self).feeds@
                &&& final(self).feeds@.last()@.url == feed_url@
                &&& final(self).feeds@.last()@.tags == match tags {
                    Some(t) => t@,
                    None => Seq::<char>::empty(),
                }
                &&& final(self).feeds@.last()@.processed_entries == Seq::<Seq<char>>::empty()
                &&& final(self).feeds@.last()@.last_modified is None
                &&& final(self).feeds@.last()@.last_e_tag is None
            },
            !created ==> exists|i: int|
                {
                    &&& 0 <= i < old(self).feeds@.len()
                    &&& old(self).feeds@[i]@.url == feed_url@
                    &&& (forall|k: int|
                        0 <= k < i ==> (#[trigger] old(self).feeds@[k])@.url != feed_url@)
                    &&& final(self).feeds@ == old(self).feeds@.update(
                        i,
                        final(self).feeds@[i],
                    )
                    &&& final(self).feeds@[i]@ == FeedStateView {
                        tags: match tags {
                            Some(t) => t@,
                            None => old(self).feeds@[i]@.tags,
                        },
                        ..old(self).feeds@[i]@
                    }
                },
    {
        let n = self.feeds.len();
        let mut i: usize = 0;
        while i < n
            invariant
                0 <= i <= n,
                n == self.feeds@.len(),
                self.feeds == old(self).feeds,
                self.consumer_key == old(self).consumer_key,
                self.access_token == old(self).access_token,
                forall|k: int| 0 <= k < i ==> (#[trigger] self.feeds@[k])@.url != feed_url@,
            decreases n - i,
        {
            if self.feeds[i].url.eq(feed_url) {
                proof {
                    assert(feeds_view(old(self).feeds@)[i as int].url == feed_url@);
                }
                match tags {
                    Some(t) => {
                        let mut entry = self.feeds.remove(i);
                        entry.tags = t;
                        self.feeds.insert(i, entry);
                        proof {
                            assert(self.feeds@ =~= old(self).feeds@.update(
                                i as int,
                                self.feeds@[i as int],
                            ));
                        }
                    },
                    None => {
                        proof {
                            assert(self.feeds@ =~= old(self).feeds@.update(
                                i as int,
                                self.feeds@[i as int],
                            ));
                        }
                    },
                }
                return false;
            }
            i = i + 1;
        }
        let tag_string = match tags {
            Some(t) => t,
            None => String::new(),
        };
        let feed = FeedConfiguration::new(feed_url.clone(), tag_string);
        self.feeds.push(feed);
        proof {
            assert(self.feeds@.drop_last() =~= old(self).feeds@);
        }
        true
    }

    /// Stop tracking the feed with this URL. Every feed whose URL differs is
    /// kept, in order; when no feed has the URL, the configuration is left
    /// unchanged and the failure is reported.
    pub fn remove_feed(&mut self, feed_url: &String) -> (r: Result<(), Cause>)
        ensures
            final(self).consumer_key == old(self).consumer_key,
            final(self).access_token == old(self).access_token,
            final(self).feeds@ == old(self).feeds@.filter(
                |f: FeedConfiguration| f@.url != feed_url@,
            ),
            r is Ok <==> old(self).has_feed(feed_url@),
            r matches Err(c) ==> c == Cause::FeedNotFound(*feed_url),
    {
        let ghost orig = self.feeds@;
        let ghost pred = |f: FeedConfiguration| f@.url != feed_url@;
        let mut kept: Vec<FeedConfiguration> = Vec::new();
        let mut removed_any = false;
        let mut i: usize = 0;
        proof {
            assert(orig.take(0).filter(pred) =~= Seq::<FeedConfiguration>::empty());
            assert(self.feeds@ =~= orig.skip(0));
            assert(vstd::std_specs::vec::spec_vec_len(&self.feeds) == orig.len());
        }
        while self.feeds.len() > 0
            invariant
                0 <= i <= orig.len(),
                orig.len() <= usize::MAX,
                orig.len() == i + self.feeds@.len(),
                self.feeds@ == orig.skip(i as int),
                self.consumer_key == old(self).consumer_key,
                self.access_token == old(self).access_token,
                kept@ == orig.take(i as int).filter(pred),
                pred == (|f: FeedConfiguration| f@.url != feed_url@),
                removed_any <==> exists|k: int|
                    0 <= k < i && (#[trigger] orig[k])@.url == feed_url@,
            decreases self.feeds@.len(),
        {
            let f = self.feeds.remove(0);
            proof {
                assert(f == orig[i as int]);
                assert(self.feeds@ =~= orig.skip(i + 1));
                assert(orig.take(i + 1) =~= orig.take(i as int).push(orig[i as int]));
                orig.take(i as int).lemma_filter_push(orig[i as int], pred);
            }
            if f.url.eq(feed_url) {
                removed_any = true;
                proof {
                    assert(kept@ =~= orig.take(i + 1).filter(pred));
                }
            } else {
                kept.push(f);
                proof {
                    assert(kept@ =~= orig.take(i + 1).filter(pred));
                }
            }
            i = i + 1;
        }
        proof {
            assert(orig.take(orig.len() as int) =~= orig);
            if removed_any {
                let k = choose|k: int| 0 <= k < i && (#[trigger] orig[k])@.url == feed_url@;
                assert(feeds_view(orig)[k].url == feed_url@);
            }
            if old(self).has_feed(feed_url@) {
                let k = choose|k: int|
                    0 <= k < orig.len() && feeds_view(orig)[k].url == feed_url@;
                assert((orig[k])@.url == feed_url@);
            }
        }
        self.feeds = kept;
        if removed_any {
            Ok(())
        } else {
            Err(Cause::FeedNotFound(feed_url.clone()))
        }
    }
}

} // verus!
