//! Feeds at the boundary: classifying a conditional fetch's response, turning
//! a fetched body into candidate entry links through the two feed parsers
//! (Atom first, RSS as the fallback), and planning what a run has to do.

use vstd::prelude::*;

use crate::config::opt_string_view;
use crate::errors::{Cause, FeedError};

verus! {

/// What a conditional fetch produced: nothing new, or a body together with
/// the caching validators the response carried.
pub enum FetchOutcome {
    Unchanged,
    Fetched { body: String, last_modified: Option<String>, e_tag: Option<String> },
}

/// The statuses that count as success: the 2xx range.
pub open spec fn success_status(status: u16) -> bool {
    200 <= status < 300
}

/// Classify a fetch response: 304 means the feed is unchanged and the run
/// has nothing to do; a 2xx status hands over the body and the response's
/// validators; anything else fails this feed's run.
pub fn classify_feed_response(
    status: u16,
    last_modified: Option<String>,
    e_tag: Option<String>,
    body: String,
) -> (r: Result<FetchOutcome, Cause>)
    ensures
        status == 304 ==> (r matches Ok(o) && o is Unchanged),
        status != 304 && success_status(status) ==> (r matches Ok(o) && (o matches
            FetchOutcome::Fetched { body: b, last_modified: l, e_tag: t } && b == body && l
            == last_modified && t == e_tag)),
        status != 304 && !success_status(status) ==> (r matches Err(c) && c
            == Cause::UnacceptableStatus(status)),
{
    if status == 304 {
        Ok(FetchOutcome::Unchanged)
    } else if 200 <= status && status < 300 {
        Ok(FetchOutcome::Fetched { body, last_modified, e_tag })
    } else {
        Err(Cause::UnacceptableStatus(status))
    }
}

/// What the Atom parser extracts from a body: for each entry in document
/// order, its links as (relation, href) pairs; nothing when the body is not
/// an Atom feed. A function of the body alone.
pub uninterp spec fn atom_entry_links(body: Seq<char>) -> Option<Seq<Seq<(Seq<char>, Seq<char>)>>>;

/// What the RSS parser extracts from a body: for each item in document
/// order, its link if it has one; nothing when the body is not an RSS
/// channel. A function of the body alone.
pub uninterp spec fn rss_item_links(body: Seq<char>) -> Option<Seq<Option<Seq<char>>>>;

pub open spec fn link_pair_view(p: (String, String)) -> (Seq<char>, Seq<char>) {
    (p.0@, p.1@)
}

pub open spec fn entry_links_view(v: Vec<(String, String)>) -> Seq<(Seq<char>, Seq<char>)> {
    v@.map_values(|p: (String, String)| link_pair_view(p))
}

pub open spec fn atom_links_view(v: Seq<Vec<(String, String)>>) -> Seq<Seq<(Seq<char>, Seq<char>)>> {
    v.map_values(|e: Vec<(String, String)>| entry_links_view(e))
}

pub open spec fn rss_links_view(v: Seq<Option<String>>) -> Seq<Option<Seq<char>>> {
    v.map_values(|o: Option<String>| opt_string_view(o))
}

/// Relies on atom_syndication::Feed's `FromStr` together with
/// `Feed::entries`, `Entry::links`, `Link::rel` and `Link::href`: parses the
/// body as an Atom feed and lists, per entry in document order, each link's
/// relation and href; the error text is the parser's own message.
#[verifier::external_body]
fn parse_atom_links(body: &str) -> (r: Result<Vec<Vec<(String, String)>>, String>)
    ensures
        r is Ok <==> atom_entry_links(body@) is Some,
        r matches Ok(v) ==> Some(atom_links_view(v@)) == atom_entry_links(body@),
{
    match body.parse::<atom_syndication::Feed>() {
        Ok(feed) => Ok(
            feed.entries().iter().map(
                |entry| entry.links().iter().map(
                    |link| (link.rel().to_string(), link.href().to_string()),
                ).collect(),
            ).collect(),
        ),
        Err(e) => Err(format!("{}", e)),
    }
}

/// Relies on rss::Channel's `FromStr` together with `Channel::items` and
/// `Item::link`: parses the body as an RSS channel and lists, per item in
/// document order, its link when it has one; the error text is the parser's
/// own message.
#[verifier::external_body]
fn parse_rss_links(body: &str) -> (r: Result<Vec<Option<String>>, String>)
    ensures
        r is Ok <==> rss_item_links(body@) is Some,
        r matches Ok(v) ==> Some(rss_links_view(v@)) == rss_item_links(body@),
{
    match body.parse::<rss::Channel>() {
        Ok(channel) => Ok(
            channel.items().iter().map(|item| item.link().map(|s| s.to_string())).collect(),
        ),
        Err(e) => Err(format!("{}", e)),
    }
}

/// The two relation values that mark a human-readable alternate link.
pub open spec fn alternate_rel(rel: Seq<char>) -> bool {
    rel == "alternate"@ || rel == "http://www.iana.org/assignments/relation/alternate"@
}

fn is_alternate_rel(rel: &String) -> (r: bool)
    ensures
        r == alternate_rel(rel@),
{
    let short = String::from_str("alternate");
    let long = String::from_str("http://www.iana.org/assignments/relation/alternate");
    rel.eq(&short) || rel.eq(&long)
}

/// The alternate-link hrefs of one entry, in document order.
pub open spec fn entry_alternate_hrefs(links: Seq<(Seq<char>, Seq<char>)>) -> Seq<Seq<char>>
    decreases links.len(),
{
    if links.len() == 0 {
        Seq::<Seq<char>>::empty()
    } else {
        entry_alternate_hrefs(links.drop_last()) + (if alternate_rel(links.last().0) {
            seq![links.last().1]
        } else {
            Seq::<Seq<char>>::empty()
        })
    }
}

/// The candidates an Atom feed yields: entries in reverse document order
/// (feeds list newest first, the engine wants oldest first), each entry
/// contributing its alternate-link hrefs in document order.
pub open spec fn atom_candidates(entries: Seq<Seq<(Seq<char>, Seq<char>)>>) -> Seq<Seq<char>>
    decreases entries.len(),
{
    if entries.len() == 0 {
        Seq::<Seq<char>>::empty()
    } else {
        entry_alternate_hrefs(entries.last()) + atom_candidates(entries.drop_last())
    }
}

/// The candidates an RSS channel yields: items in reverse document order,
/// each contributing its link when it has one.
pub open spec fn rss_candidates(items: Seq<Option<Seq<char>>>) -> Seq<Seq<char>>
    decreases items.len(),
{
    if items.len() == 0 {
        Seq::<Seq<char>>::empty()
    } else {
        (match items.last() {
            Some(l) => seq![l],
            None => Seq::<Seq<char>>::empty(),
        }) + rss_candidates(items.drop_last())
    }
}

/// The candidate links of a feed body: what the Atom parser yields when it
/// accepts the body, otherwise what the RSS parser yields, otherwise
/// nothing.
pub open spec fn feed_links(body: Seq<char>) -> Option<Seq<Seq<char>>> {
    match atom_entry_links(body) {
        Some(entries) => Some(atom_candidates(entries)),
        None => match rss_item_links(body) {
            Some(items) => Some(rss_candidates(items)),
            None => None,
        },
    }
}

proof fn lemma_atom_candidates_prepend(
    e: Seq<(Seq<char>, Seq<char>)>,
    s: Seq<Seq<(Seq<char>, Seq<char>)>>,
)
    ensures
        atom_candidates(seq![e] + s) =~= atom_candidates(s) + entry_alternate_hrefs(e),
    decreases s.len(),
{
    if s.len() == 0 {
        assert(seq![e] + s =~= seq![e]);
        assert(seq![e].drop_last() =~= Seq::<Seq<(Seq<char>, Seq<char>)>>::empty());
        assert(seq![e].last() == e);
        assert(atom_candidates(Seq::<Seq<(Seq<char>, Seq<char>)>>::empty())
            == Seq::<Seq<char>>::empty());
        assert(atom_candidates(seq![e] + s) =~= atom_candidates(s) + entry_alternate_hrefs(e));
    } else {
        assert((seq![e] + s).last() == s.last());
        assert((seq![e] + s).drop_last() =~= seq![e] + s.drop_last());
        lemma_atom_candidates_prepend(e, s.drop_last());
        assert(entry_alternate_hrefs(s.last()) + (atom_candidates(s.drop_last())
            + entry_alternate_hrefs(e)) =~= (entry_alternate_hrefs(s.last()) + atom_candidates(
            s.drop_last(),
        )) + entry_alternate_hrefs(e));
    }
}

proof fn lemma_rss_candidates_prepend(o: Option<Seq<char>>, s: Seq<Option<Seq<char>>>)
    ensures
        rss_candidates(seq![o] + s) =~= rss_candidates(s) + (match o {
            Some(l) => seq![l],
            None => Seq::<Seq<char>>::empty(),
        }),
    decreases s.len(),
{
    let head = (match o {
        Some(l) => seq![l],
        None => Seq::<Seq<char>>::empty(),
    });
    if s.len() == 0 {
        assert(seq![o] + s =~= seq![o]);
        assert(seq![o].drop_last() =~= Seq::<Option<Seq<char>>>::empty());
        assert(seq![o].last() == o);
        assert(rss_candidates(Seq::<Option<Seq<char>>>::empty()) == Seq::<Seq<char>>::empty());
        assert(rss_candidates(seq![o] + s) =~= rss_candidates(s) + head);
    } else {
        assert((seq![o] + s).last() == s.last());
        assert((seq![o] + s).drop_last() =~= seq![o] + s.drop_last());
        lemma_rss_candidates_prepend(o, s.drop_last());
        let mid = (match s.last() {
            Some(l) => seq![l],
            None => Seq::<Seq<char>>::empty(),
        });
        assert(mid + (rss_candidates(s.drop_last()) + head) =~= (mid + rss_candidates(
            s.drop_last(),
        )) + head);
    }
}

/// Turn a fetched body into the candidate entry links for reconciliation, in
/// chronological (reverse document) order: the Atom parse when it succeeds,
/// the RSS parse as the fallback, and both parsers' messages when neither
/// accepts the body.
pub fn feed_candidates(body: &str) -> (r: Result<Vec<String>, FeedError>)
    ensures
        r is Ok <==> feed_links(body@) is Some,
        r matches Ok(v) ==> Some(v.deep_view()) == feed_links(body@),
{
    let atom = parse_atom_links(body);
    match atom {
        Ok(entries) => {
            let ghost es = atom_links_view(entries@);
            let mut out: Vec<String> = Vec::new();
            let n = entries.len();
            let mut i: usize = 0;
            proof {
                assert(es.skip(n as int) =~= Seq::<Seq<(Seq<char>, Seq<char>)>>::empty());
                assert(out.deep_view() =~= atom_candidates(es.skip(n as int)));
            }
            while i < n
                invariant
                    0 <= i <= n,
                    n == entries@.len(),
                    es == atom_links_view(entries@),
                    out.deep_view() == atom_candidates(es.skip(n - i)),
                decreases n - i,
            {
                let links = &entries[n - 1 - i];
                let ghost ls = entry_links_view(*links);
                let m = links.len();
                let mut j: usize = 0;
                proof {
                    assert(es[n - 1 - i] == ls);
                    assert(ls.take(0) =~= Seq::<(Seq<char>, Seq<char>)>::empty());
                    assert(out.deep_view() + entry_alternate_hrefs(ls.take(0)) =~= out.deep_view());
                }
                let ghost out_before = out.deep_view();
                while j < m
                    invariant
                        0 <= j <= m,
                        m == links@.len(),
                        ls == entry_links_view(*links),
                        out.deep_view() == out_before + entry_alternate_hrefs(ls.take(j as int)),
                    decreases m - j,
                {
                    proof {
                        assert(ls.take(j + 1).drop_last() =~= ls.take(j as int));
                        assert(ls.take(j + 1).last() == ls[j as int]);
                        assert(ls[j as int] == link_pair_view(links@[j as int]));
                    }
                    if is_alternate_rel(&links[j].0) {
                        let ghost pre = out.deep_view();
                        out.push(links[j].1.clone());
                        proof {
                            assert(out.deep_view() =~= pre.push(ls[j as int].1));
                            assert(entry_alternate_hrefs(ls.take(j + 1)) =~= entry_alternate_hrefs(
                                ls.take(j as int),
                            ) + seq![ls[j as int].1]);
                            assert(out.deep_view() =~= out_before + entry_alternate_hrefs(
                                ls.take(j + 1),
                            ));
                        }
                    } else {
                        proof {
                            assert(out.deep_view() =~= out_before + entry_alternate_hrefs(
                                ls.take(j + 1),
                            ));
                        }
                    }
                    j = j + 1;
                }
                proof {
                    assert(ls.take(m as int) =~= ls);
                    assert(es.skip(n - i - 1) =~= seq![es[n - 1 - i]] + es.skip(n - i));
                    lemma_atom_candidates_prepend(es[n - 1 - i], es.skip(n - i));
                    assert(out.deep_view() =~= atom_candidates(es.skip(n - i - 1)));
                }
                i = i + 1;
            }
            proof {
                assert(es.skip(0) =~= es);
            }
            Ok(out)
        },
        Err(atom_error) => {
            let rss = parse_rss_links(body);
            match rss {
                Ok(items) => {
                    let ghost its = rss_links_view(items@);
                    let mut out: Vec<String> = Vec::new();
                    let n = items.len();
                    let mut i: usize = 0;
                    proof {
                        assert(its.skip(n as int) =~= Seq::<Option<Seq<char>>>::empty());
                        assert(out.deep_view() =~= rss_candidates(its.skip(n as int)));
                    }
                    while i < n
                        invariant
                            0 <= i <= n,
                            n == items@.len(),
                            its == rss_links_view(items@),
                            out.deep_view() == rss_candidates(its.skip(n - i)),
                        decreases n - i,
                    {
                        proof {
                            assert(its[n - 1 - i] == opt_string_view(items@[n - 1 - i]));
                            assert(its.skip(n - i - 1) =~= seq![its[n - 1 - i]] + its.skip(n - i));
                            lemma_rss_candidates_prepend(its[n - 1 - i], its.skip(n - i));
                        }
                        match &items[n - 1 - i] {
                            Some(link) => {
                                out.push(link.clone());
                                proof {
                                    assert(out.deep_view() =~= rss_candidates(its.skip(n - i - 1)));
                                }
                            },
                            None => {
                                proof {
                                    assert(out.deep_view() =~= rss_candidates(its.skip(n - i - 1)));
                                }
                            },
                        }
                        i = i + 1;
                    }
                    proof {
                        assert(its.skip(0) =~= its);
                    }
                    Ok(out)
                },
                Err(rss_error) => Err(FeedError { atom_error, rss_error }),
            }
        },
    }
}

/// What one feed's run has to do after its fetch was classified.
pub enum RunPlan {
    /// The fetch came back unchanged: zero entry-level work, the feed's
    /// state stays untouched, and the feed is already fully represented by
    /// its stored validators.
    UpToDate,
    /// Candidates to reconcile, oldest first, with the validators the fetch
    /// observed.
    Entries { candidates: Vec<String>, last_modified: Option<String>, e_tag: Option<String> },
}

/// Plan a feed's run from its fetch outcome: an unchanged fetch plans no
/// work at all; a fetched body is parsed into chronological candidates, and
/// a body neither parser accepts fails the run with both messages.
pub fn plan_run(outcome: FetchOutcome) -> (r: Result<RunPlan, FeedError>)
    ensures
        outcome is Unchanged ==> (r matches Ok(p) && p is UpToDate),
        outcome matches FetchOutcome::Fetched { body, last_modified, e_tag } ==> (match feed_links(
            body@,
        ) {
            Some(links) => (r matches Ok(p) && (p matches RunPlan::Entries {
                candidates: c,
                last_modified: l,
                e_tag: t,
            } && c.deep_view() == links && l == last_modified && t == e_tag)),
            None => r is Err,
        }),
{
    match outcome {
        FetchOutcome::Unchanged => Ok(RunPlan::UpToDate),
        FetchOutcome::Fetched { body, last_modified, e_tag } => {
            match feed_candidates(body.as_str()) {
                Ok(candidates) => Ok(RunPlan::Entries { candidates, last_modified, e_tag }),
                Err(e) => Err(e),
            }
        },
    }
}

} // verus!
