//! The incremental feed-sync reconciliation engine: given a feed's candidate
//! entries in chronological order and its persisted history, decide which
//! entries are new, hand each of those to the sink one at a time, and compute
//! the updated persisted state. State grows only by entries that were
//! delivered or deliberately skipped; caching validators are replaced only
//! when no delivery failed.

use vstd::prelude::*;

use crate::config::{opt_string_view, FeedConfiguration};
use crate::text::{trim_str, trimmed, vec_contains_string};
use crate::urls::{url_accepts, url_ok};

verus! {

/// What became of one candidate entry.
#[derive(Clone, Copy, PartialEq, Eq, Structural, Debug)]
pub enum Outcome {
    /// The sink accepted the entry; it is now recorded as processed.
    Delivered,
    /// No sink was configured for this run; the entry was recorded as
    /// processed on the assumption that the user has already read it.
    SkippedAsRead,
    /// The entry's link is not a well-formed absolute URL; recorded as
    /// processed so it is never attempted, and never retried.
    SkippedInvalidUrl,
    /// The sink rejected the entry; it is not recorded, so the next run
    /// retries it.
    Failed,
}

/// The mathematical state of a reconciliation run: the recorded entries, the
/// outcome attached to each classified entry, whether every attempt so far
/// succeeded, the delivery verdicts not yet consumed, the entries handed to
/// the sink, and whether the supplied verdicts have sufficed.
#[verifier::ext_equal]
pub struct RunModel {
    pub processed: Seq<Seq<char>>,
    pub outcomes: Seq<(Seq<char>, Outcome)>,
    pub all_ok: bool,
    pub verdicts: Seq<bool>,
    pub deliveries: Seq<Seq<char>>,
    pub fed: bool,
}

/// A new entry is attempted against the sink exactly when one is configured
/// and its trimmed link parses as an absolute URL.
pub open spec fn needs_delivery(processed: Seq<Seq<char>>, e: Seq<char>, sink: bool) -> bool {
    !processed.contains(e) && sink && url_ok(e)
}

/// One candidate entry, processed: trim, skip if already recorded, otherwise
/// classify; a delivery consumes the next verdict.
pub open spec fn engine_step(m: RunModel, raw: Seq<char>, sink: bool) -> RunModel {
    let e = trimmed(raw);
    if m.processed.contains(e) {
        m
    } else if !sink {
        RunModel {
            processed: m.processed.push(e),
            outcomes: m.outcomes.push((e, Outcome::SkippedAsRead)),
            ..m
        }
    } else if !url_ok(e) {
        RunModel {
            processed: m.processed.push(e),
            outcomes: m.outcomes.push((e, Outcome::SkippedInvalidUrl)),
            ..m
        }
    } else if m.verdicts.len() == 0 {
        RunModel { fed: false, ..m }
    } else if m.verdicts.first() {
        RunModel {
            processed: m.processed.push(e),
            outcomes: m.outcomes.push((e, Outcome::Delivered)),
            verdicts: m.verdicts.drop_first(),
            deliveries: m.deliveries.push(e),
            ..m
        }
    } else {
        RunModel {
            outcomes: m.outcomes.push((e, Outcome::Failed)),
            all_ok: false,
            verdicts: m.verdicts.drop_first(),
            deliveries: m.deliveries.push(e),
            ..m
        }
    }
}

/// The candidates processed in order, oldest first.
pub open spec fn engine_run_from(m: RunModel, candidates: Seq<Seq<char>>, sink: bool) -> RunModel
    decreases candidates.len(),
{
    if candidates.len() == 0 {
        m
    } else {
        engine_step(engine_run_from(m, candidates.drop_last(), sink), candidates.last(), sink)
    }
}

/// The state a run starts from: the feed's recorded entries, no outcome yet,
/// nothing failed, the whole verdict supply ahead.
pub open spec fn start_model(processed: Seq<Seq<char>>, verdicts: Seq<bool>) -> RunModel {
    RunModel {
        processed,
        outcomes: Seq::<(Seq<char>, Outcome)>::empty(),
        all_ok: true,
        verdicts,
        deliveries: Seq::<Seq<char>>::empty(),
        fed: true,
    }
}

/// A whole reconciliation run over the candidates, as a function of the
/// feed's recorded entries, the candidate list, the delivery verdicts, and
/// whether a sink is configured.
pub open spec fn engine_run(
    processed: Seq<Seq<char>>,
    candidates: Seq<Seq<char>>,
    verdicts: Seq<bool>,
    sink: bool,
) -> RunModel {
    engine_run_from(start_model(processed, verdicts), candidates, sink)
}

/// The validators a finished run leaves behind: the freshly observed ones
/// when every outcome was a success or a deliberate skip, the previous ones
/// untouched otherwise.
pub open spec fn final_validator(
    all_ok: bool,
    orig: Option<Seq<char>>,
    new: Option<Seq<char>>,
) -> Option<Seq<char>> {
    if all_ok {
        new
    } else {
        orig
    }
}

/// Once the verdict supply has run dry, it stays dry.
proof fn lemma_fed_monotone(m: RunModel, candidates: Seq<Seq<char>>, sink: bool)
    requires
        !m.fed,
    ensures
        !engine_run_from(m, candidates, sink).fed,
    decreases candidates.len(),
{
    if candidates.len() > 0 {
        lemma_fed_monotone(m, candidates.drop_last(), sink);
    }
}

/// A run that stayed within its verdict supply also did so at every prefix.
proof fn lemma_fed_prefix(m: RunModel, candidates: Seq<Seq<char>>, sink: bool)
    requires
        engine_run_from(m, candidates, sink).fed,
        candidates.len() > 0,
    ensures
        engine_run_from(m, candidates.drop_last(), sink).fed,
{
    if !engine_run_from(m, candidates.drop_last(), sink).fed {
        lemma_fed_monotone(engine_run_from(m, candidates.drop_last(), sink), seq![candidates.last()], sink);
        assert(seq![candidates.last()].drop_last() =~= Seq::<Seq<char>>::empty());
        assert(engine_run_from(m, candidates, sink) == engine_step(
            engine_run_from(m, candidates.drop_last(), sink),
            candidates.last(),
            sink,
        ));
    }
}

/// Appending verdicts that a run never needed changes nothing but the unused
/// supply, which they join at the end.
proof fn lemma_run_more_verdicts(
    m: RunModel,
    candidates: Seq<Seq<char>>,
    sink: bool,
    extra: Seq<bool>,
)
    requires
        engine_run_from(m, candidates, sink).fed,
    ensures
        ({
            let base = engine_run_from(m, candidates, sink);
            engine_run_from(RunModel { verdicts: m.verdicts + extra, ..m }, candidates, sink)
                =~= (RunModel { verdicts: base.verdicts + extra, ..base })
        }),
    decreases candidates.len(),
{
    let m_ext = RunModel { verdicts: m.verdicts + extra, ..m };
    if candidates.len() == 0 {
        assert(engine_run_from(m_ext, candidates, sink) =~= m_ext);
    } else {
        let prev = engine_run_from(m, candidates.drop_last(), sink);
        lemma_fed_prefix(m, candidates, sink);
        lemma_run_more_verdicts(m, candidates.drop_last(), sink, extra);
        let prev_ext = engine_run_from(m_ext, candidates.drop_last(), sink);
        assert(prev_ext =~= (RunModel { verdicts: prev.verdicts + extra, ..prev }));
        let e = trimmed(candidates.last());
        if prev.processed.contains(e) {
        } else if !sink {
        } else if !url_ok(e) {
        } else {
            if prev.verdicts.len() == 0 {
                assert(!engine_run_from(m, candidates, sink).fed);
            } else {
                assert((prev.verdicts + extra).first() == prev.verdicts.first());
                assert((prev.verdicts + extra).drop_first() =~= prev.verdicts.drop_first() + extra);
            }
        }
    }
}

/// Processing splits: running over a concatenation is running over the first
/// part, then the second.
proof fn lemma_run_concat(m: RunModel, cs1: Seq<Seq<char>>, cs2: Seq<Seq<char>>, sink: bool)
    ensures
        engine_run_from(m, cs1 + cs2, sink) == engine_run_from(
            engine_run_from(m, cs1, sink),
            cs2,
            sink,
        ),
    decreases cs2.len(),
{
    if cs2.len() == 0 {
        assert(cs1 + cs2 =~= cs1);
    } else {
        assert((cs1 + cs2).drop_last() =~= cs1 + cs2.drop_last());
        assert((cs1 + cs2).last() == cs2.last());
        lemma_run_concat(m, cs1, cs2.drop_last(), sink);
    }
}

/// The entry texts and outcomes a run reports, as plain sequences.
pub open spec fn outcomes_view(v: Seq<(String, Outcome)>) -> Seq<(Seq<char>, Outcome)> {
    v.map_values(|p: (String, Outcome)| (p.0@, p.1))
}

/// One feed's reconciliation in progress. The candidates are consumed oldest
/// first; entries that need no delivery are classified outright, and each
/// entry that must reach the sink is handed out by `next_delivery` and
/// settled by `resolve_delivery` with the sink's verdict. `into_feed` then
/// yields the updated feed state: exactly `engine_run` of the initial
/// entries, the candidates, and the verdicts received.
pub struct Reconciliation {
    url: String,
    tags: String,
    processed: Vec<String>,
    outcomes: Vec<(String, Outcome)>,
    all_ok: bool,
    candidates: Vec<String>,
    idx: usize,
    pending: Option<String>,
    prior_last_modified: Option<String>,
    prior_e_tag: Option<String>,
    new_last_modified: Option<String>,
    new_e_tag: Option<String>,
    sink: bool,
    init_entries: Ghost<Seq<Seq<char>>>,
    given: Ghost<Seq<bool>>,
}

impl Reconciliation {
    /// The feed's recorded entries when the run began.
    pub closed spec fn initial_entries(&self) -> Seq<Seq<char>> {
        self.init_entries@
    }

    /// The candidate entries, oldest first, as handed to `start`.
    pub closed spec fn candidate_list(&self) -> Seq<Seq<char>> {
        self.candidates.deep_view()
    }

    /// How many candidates have been fully settled.
    pub closed spec fn consumed(&self) -> int {
        self.idx as int
    }

    /// The delivery verdicts received so far, in order.
    pub closed spec fn verdicts_given(&self) -> Seq<bool> {
        self.given@
    }

    /// Whether this run has a sink to deliver to.
    pub closed spec fn sink_configured(&self) -> bool {
        self.sink
    }

    /// The entry handed out for delivery and not yet settled, if any.
    pub closed spec fn pending_entry(&self) -> Option<Seq<char>> {
        opt_string_view(self.pending)
    }

    pub closed spec fn feed_url(&self) -> Seq<char> {
        self.url@
    }

    pub closed spec fn feed_tags(&self) -> Seq<char> {
        self.tags@
    }

    /// The validators the feed held before the run.
    pub closed spec fn prior_validators(&self) -> (Option<Seq<char>>, Option<Seq<char>>) {
        (opt_string_view(self.prior_last_modified), opt_string_view(self.prior_e_tag))
    }

    /// The validators observed by the fetch that produced the candidates.
    pub closed spec fn fresh_validators(&self) -> (Option<Seq<char>>, Option<Seq<char>>) {
        (opt_string_view(self.new_last_modified), opt_string_view(self.new_e_tag))
    }

    /// The session's exec state mirrors the engine model of the settled
    /// prefix, with every received verdict consumed.
    pub closed spec fn wf(&self) -> bool {
        let st = engine_run(
            self.init_entries@,
            self.candidates.deep_view().take(self.idx as int),
            self.given@,
            self.sink,
        );
        &&& self.idx <= self.candidates@.len()
        &&& st.fed
        &&& st.verdicts.len() == 0
        &&& st.processed == self.processed.deep_view()
        &&& st.outcomes == outcomes_view(self.outcomes@)
        &&& st.all_ok == self.all_ok
        &&& match self.pending {
            Some(p) => {
                &&& self.idx < self.candidates@.len()
                &&& p@ == trimmed(self.candidates.deep_view()[self.idx as int])
                &&& needs_delivery(st.processed, p@, self.sink)
            },
            None => true,
        }
    }

    /// Begin a run over candidates parsed from a fresh fetch, remembering the
    /// validators that fetch observed.
    pub fn start(
        feed: &FeedConfiguration,
        candidates: Vec<String>,
        new_last_modified: Option<String>,
        new_e_tag: Option<String>,
        sink: bool,
    ) -> (r: Reconciliation)
        ensures
            r.wf(),
            r.initial_entries() == feed@.processed_entries,
            r.candidate_list() == candidates.deep_view(),
            r.consumed() == 0,
            r.verdicts_given() == Seq::<bool>::empty(),
            r.pending_entry() is None,
            r.sink_configured() == sink,
            r.feed_url() == feed@.url,
            r.feed_tags() == feed@.tags,
            r.prior_validators() == (feed@.last_modified, feed@.last_e_tag),
            r.fresh_validators() == (
                opt_string_view(new_last_modified),
                opt_string_view(new_e_tag),
            ),
    {
        let r = Reconciliation {
            url: feed.url.clone(),
            tags: feed.tags.clone(),
            processed: crate::config::clone_string_vec(&feed.processed_entries),
            outcomes: Vec::new(),
            all_ok: true,
            candidates,
            idx: 0,
            pending: None,
            prior_last_modified: crate::config::clone_opt_string(&feed.last_modified),
            prior_e_tag: crate::config::clone_opt_string(&feed.last_e_tag),
            new_last_modified,
            new_e_tag,
            sink,
            init_entries: Ghost(feed.processed_entries.deep_view()),
            given: Ghost(Seq::<bool>::empty()),
        };
        proof {
            assert(r.candidates.deep_view().take(0) =~= Seq::<Seq<char>>::empty());
            assert(r.processed.deep_view() =~= feed.processed_entries.deep_view());
            assert(outcomes_view(r.outcomes@) =~= Seq::<(Seq<char>, Outcome)>::empty());
        }
        r
    }

    /// Settle candidates until one needs the sink: entries already recorded
    /// are passed over, and entries that need no delivery are classified and
    /// recorded. Returns the next entry to hand to the sink, or `None` when
    /// every candidate is settled.
    pub fn next_delivery(&mut self) -> (r: Option<String>)
        requires
            old(self).wf(),
            old(self).pending_entry() is None,
        ensures
            final(self).wf(),
            final(self).initial_entries() == old(self).initial_entries(),
            final(self).candidate_list() == old(self).candidate_list(),
            final(self).verdicts_given() == old(self).verdicts_given(),
            final(self).sink_configured() == old(self).sink_configured(),
            final(self).feed_url() == old(self).feed_url(),
            final(self).feed_tags() == old(self).feed_tags(),
            final(self).prior_validators() == old(self).prior_validators(),
            final(self).fresh_validators() == old(self).fresh_validators(),
            old(self).consumed() <= final(self).consumed(),
            match r {
                Some(u) => {
                    &&& final(self).pending_entry() == Some(u@)
                    &&& final(self).consumed() < final(self).candidate_list().len()
                    &&& u@ == trimmed(final(self).candidate_list()[final(self).consumed()])
                },
                None => {
                    &&& final(self).pending_entry() is None
                    &&& final(self).consumed() == final(self).candidate_list().len()
                },
            },
    {
        while self.idx < self.candidates.len()
            invariant
                self.wf(),
                self.pending is None,
                self.init_entries == old(self).init_entries,
                self.candidates == old(self).candidates,
                self.given == old(self).given,
                self.sink == old(self).sink,
                self.url == old(self).url,
                self.tags == old(self).tags,
                self.prior_last_modified == old(self).prior_last_modified,
                self.prior_e_tag == old(self).prior_e_tag,
                self.new_last_modified == old(self).new_last_modified,
                self.new_e_tag == old(self).new_e_tag,
                old(self).idx <= self.idx,
            decreases self.candidates@.len() - self.idx,
        {
            let ghost dv = self.candidates.deep_view();
            let ghost st = engine_run(self.init_entries@, dv.take(self.idx as int), self.given@, self.sink);
            let raw = self.candidates[self.idx].clone();
            let entry = trim_str(raw.as_str());
            proof {
                assert(dv[self.idx as int] == self.candidates@[self.idx as int]@);
                assert(dv.take(self.idx + 1).drop_last() =~= dv.take(self.idx as int));
                assert(dv.take(self.idx + 1).last() == dv[self.idx as int]);
            }
            if vec_contains_string(&self.processed, &entry) {
                proof {
                    assert(engine_run_from(start_model(self.init_entries@, self.given@), dv.take(self.idx + 1), self.sink)
                        == engine_step(st, dv[self.idx as int], self.sink));
                }
                self.idx = self.idx + 1;
            } else if !self.sink {
                let ghost old_processed = self.processed.deep_view();
                let ghost old_outcomes = self.outcomes@;
                self.processed.push(entry.clone());
                self.outcomes.push((entry, Outcome::SkippedAsRead));
                self.idx = self.idx + 1;
                proof {
                    assert(self.processed.deep_view() =~= old_processed.push(
                        trimmed(dv[self.idx - 1]),
                    ));
                    assert(outcomes_view(self.outcomes@) =~= outcomes_view(old_outcomes).push(
                        (trimmed(dv[self.idx - 1]), Outcome::SkippedAsRead),
                    ));
                }
            } else if !url_accepts(entry.as_str()) {
                let ghost old_processed = self.processed.deep_view();
                let ghost old_outcomes = self.outcomes@;
                self.processed.push(entry.clone());
                self.outcomes.push((entry, Outcome::SkippedInvalidUrl));
                self.idx = self.idx + 1;
                proof {
                    assert(self.processed.deep_view() =~= old_processed.push(
                        trimmed(dv[self.idx - 1]),
                    ));
                    assert(outcomes_view(self.outcomes@) =~= outcomes_view(old_outcomes).push(
                        (trimmed(dv[self.idx - 1]), Outcome::SkippedInvalidUrl),
                    ));
                }
            } else {
                self.pending = Some(entry.clone());
                return Some(entry);
            }
        }
        None
    }

    /// Record the sink's verdict for the entry handed out by the last
    /// `next_delivery`: on success the entry joins the record with outcome
    /// `Delivered`; on failure it is left out, with outcome `Failed`, and the
    /// run is marked as not fully successful.
    pub fn resolve_delivery(&mut self, success: bool)
        requires
            old(self).wf(),
            old(self).pending_entry() is Some,
        ensures
            final(self).wf(),
            final(self).initial_entries() == old(self).initial_entries(),
            final(self).candidate_list() == old(self).candidate_list(),
            final(self).verdicts_given() == old(self).verdicts_given().push(success),
            final(self).sink_configured() == old(self).sink_configured(),
            final(self).feed_url() == old(self).feed_url(),
            final(self).feed_tags() == old(self).feed_tags(),
            final(self).prior_validators() == old(self).prior_validators(),
            final(self).fresh_validators() == old(self).fresh_validators(),
            final(self).consumed() == old(self).consumed() + 1,
            final(self).pending_entry() is None,
    {
        let ghost dv = self.candidates.deep_view();
        let ghost st = engine_run(self.init_entries@, dv.take(self.idx as int), self.given@, self.sink);
        let entry = match &self.pending {
            Some(p) => p.clone(),
            None => vstd::pervasive::unreached(),
        };
        self.pending = None;
        let ghost old_processed = self.processed.deep_view();
        let ghost old_outcomes = self.outcomes@;
        if success {
            self.processed.push(entry.clone());
            self.outcomes.push((entry, Outcome::Delivered));
        } else {
            self.outcomes.push((entry, Outcome::Failed));
            self.all_ok = false;
        }
        proof {
            let start = start_model(self.init_entries@, self.given@);
            let start_ext = start_model(self.init_entries@, self.given@.push(success));
            lemma_run_more_verdicts(start, dv.take(self.idx as int), self.sink, seq![success]);
            assert(start_ext =~= (RunModel { verdicts: start.verdicts + seq![success], ..start }));
            let st_ext = engine_run_from(start_ext, dv.take(self.idx as int), self.sink);
            assert(st_ext =~= (RunModel { verdicts: st.verdicts + seq![success], ..st }));
            assert(st_ext.verdicts =~= seq![success]);
            assert(dv.take(self.idx + 1).drop_last() =~= dv.take(self.idx as int));
            assert(dv.take(self.idx + 1).last() == dv[self.idx as int]);
            let after = engine_step(st_ext, dv[self.idx as int], self.sink);
            assert(engine_run(self.init_entries@, dv.take(self.idx + 1), self.given@.push(success), self.sink) == after);
            assert(st_ext.verdicts.first() == success);
            assert(st_ext.verdicts.drop_first() =~= Seq::<bool>::empty());
            if success {
                assert(self.processed.deep_view() =~= old_processed.push(trimmed(dv[self.idx as int])));
                assert(outcomes_view(self.outcomes@) =~= outcomes_view(old_outcomes).push(
                    (trimmed(dv[self.idx as int]), Outcome::Delivered),
                ));
            } else {
                assert(outcomes_view(self.outcomes@) =~= outcomes_view(old_outcomes).push(
                    (trimmed(dv[self.idx as int]), Outcome::Failed),
                ));
            }
        }
        proof {
            assert(vstd::std_specs::vec::spec_vec_len(&self.candidates) == self.candidates@.len());
        }
        self.idx = self.idx + 1;
        self.given = Ghost(self.given@.push(success));
    }

    /// Finish the run: the updated feed state, the outcome attached to each
    /// classified entry, and whether every attempt succeeded. The recorded
    /// entries, outcomes and success flag are exactly `engine_run` of the
    /// initial entries, the candidates and the verdicts; the validators are
    /// replaced by the freshly observed ones only when nothing failed.
    pub fn into_feed(self) -> (r: (FeedConfiguration, Vec<(String, Outcome)>, bool))
        requires
            self.wf(),
            self.pending_entry() is None,
            self.consumed() == self.candidate_list().len(),
        ensures
            ({
                let m = engine_run(
                    self.initial_entries(),
                    self.candidate_list(),
                    self.verdicts_given(),
                    self.sink_configured(),
                );
                &&& r.0@.url == self.feed_url()
                &&& r.0@.tags == self.feed_tags()
                &&& r.0@.processed_entries == m.processed
                &&& outcomes_view(r.1@) == m.outcomes
                &&& r.2 == m.all_ok
                &&& r.0@.last_modified == final_validator(
                    m.all_ok,
                    self.prior_validators().0,
                    self.fresh_validators().0,
                )
                &&& r.0@.last_e_tag == final_validator(
                    m.all_ok,
                    self.prior_validators().1,
                    self.fresh_validators().1,
                )
            }),
    {
        proof {
            assert(self.candidates.deep_view().take(self.idx as int) =~= self.candidates.deep_view());
        }
        let Reconciliation {
            url,
            tags,
            processed,
            outcomes,
            all_ok,
            prior_last_modified,
            prior_e_tag,
            new_last_modified,
            new_e_tag,
            ..
        } = self;
        let (last_modified, last_e_tag) = if all_ok {
            (new_last_modified, new_e_tag)
        } else {
            (prior_last_modified, prior_e_tag)
        };
        let feed = FeedConfiguration { url, tags, processed_entries: processed, last_modified, last_e_tag };
        (feed, outcomes, all_ok)
    }
}

/// Everything recorded stays recorded: a run only appends to the record.
pub proof fn lemma_processed_append_only(m: RunModel, candidates: Seq<Seq<char>>, sink: bool)
    ensures
        m.processed.is_prefix_of(engine_run_from(m, candidates, sink).processed),
    decreases candidates.len(),
{
    if candidates.len() > 0 {
        lemma_processed_append_only(m, candidates.drop_last(), sink);
        let prev = engine_run_from(m, candidates.drop_last(), sink);
        let e = trimmed(candidates.last());
        if !prev.processed.contains(e) {
            assert(m.processed.is_prefix_of(prev.processed.push(e)));
        }
    }
}

/// The record grows only by entries that were delivered or deliberately
/// skipped: every entry recorded by a run and not present before carries an
/// outcome other than `Failed`.
pub proof fn lemma_growth_is_accounted_for(m: RunModel, candidates: Seq<Seq<char>>, sink: bool)
    ensures
        forall|x: Seq<char>|
            engine_run_from(m, candidates, sink).processed.contains(x) && !m.processed.contains(x)
                ==> #[trigger] engine_run_from(m, candidates, sink).outcomes.contains(
                (x, Outcome::Delivered),
            ) || engine_run_from(m, candidates, sink).outcomes.contains((x, Outcome::SkippedAsRead))
                || engine_run_from(m, candidates, sink).outcomes.contains(
                (x, Outcome::SkippedInvalidUrl),
            ),
    decreases candidates.len(),
{
    if candidates.len() > 0 {
        lemma_growth_is_accounted_for(m, candidates.drop_last(), sink);
        let prev = engine_run_from(m, candidates.drop_last(), sink);
        let after = engine_run_from(m, candidates, sink);
        let e = trimmed(candidates.last());
        assert forall|x: Seq<char>|
            after.processed.contains(x) && !m.processed.contains(x) implies #[trigger] after.outcomes.contains(
            (x, Outcome::Delivered),
        ) || after.outcomes.contains((x, Outcome::SkippedAsRead)) || after.outcomes.contains(
            (x, Outcome::SkippedInvalidUrl),
        ) by {
            if prev.processed.contains(x) {
                lemma_outcome_membership_persists(prev, after, x);
            } else {
                assert(after.processed == prev.processed.push(e) || after.processed
                    == prev.processed);
                if after.processed == prev.processed.push(e) {
                    let k = choose|k: int|
                        0 <= k < after.processed.len() && after.processed[k] == x;
                    if k < prev.processed.len() {
                        assert(prev.processed.contains(x));
                    } else {
                        assert(x == e);
                        assert(after.outcomes.last().0 == e);
                        assert(after.outcomes.last().1 != Outcome::Failed);
                        assert(after.outcomes.contains(after.outcomes.last()));
                    }
                } else {
                    let k = choose|k: int|
                        0 <= k < after.processed.len() && after.processed[k] == x;
                    assert(prev.processed[k] == x);
                }
            }
        }
    }
}

/// Membership in the outcome list survives one more step.
proof fn lemma_outcome_membership_persists(prev: RunModel, after: RunModel, x: Seq<char>)
    requires
        after.outcomes == prev.outcomes || (exists|p: (Seq<char>, Outcome)|
            after.outcomes == prev.outcomes.push(p)),
    ensures
        prev.outcomes.contains((x, Outcome::Delivered)) ==> after.outcomes.contains(
            (x, Outcome::Delivered),
        ),
        prev.outcomes.contains((x, Outcome::SkippedAsRead)) ==> after.outcomes.contains(
            (x, Outcome::SkippedAsRead),
        ),
        prev.outcomes.contains((x, Outcome::SkippedInvalidUrl)) ==> after.outcomes.contains(
            (x, Outcome::SkippedInvalidUrl),
        ),
{
    if after.outcomes == prev.outcomes {
    } else {
        let p = choose|p: (Seq<char>, Outcome)| after.outcomes == prev.outcomes.push(p);
        if prev.outcomes.contains((x, Outcome::Delivered)) {
            let k = choose|k: int|
                0 <= k < prev.outcomes.len() && prev.outcomes[k] == (x, Outcome::Delivered);
            assert(after.outcomes[k] == (x, Outcome::Delivered));
        }
        if prev.outcomes.contains((x, Outcome::SkippedAsRead)) {
            let k = choose|k: int|
                0 <= k < prev.outcomes.len() && prev.outcomes[k] == (x, Outcome::SkippedAsRead);
            assert(after.outcomes[k] == (x, Outcome::SkippedAsRead));
        }
        if prev.outcomes.contains((x, Outcome::SkippedInvalidUrl)) {
            let k = choose|k: int|
                0 <= k < prev.outcomes.len() && prev.outcomes[k] == (
                    x,
                    Outcome::SkippedInvalidUrl,
                );
            assert(after.outcomes[k] == (x, Outcome::SkippedInvalidUrl));
        }
    }
}

/// The success flag is exactly the absence of a failed outcome: the run ends
/// fully successful (and so replaces the caching validators) precisely when
/// no entry's delivery failed.
pub proof fn lemma_ok_means_no_failure(
    processed: Seq<Seq<char>>,
    candidates: Seq<Seq<char>>,
    verdicts: Seq<bool>,
    sink: bool,
)
    ensures
        ({
            let m = engine_run(processed, candidates, verdicts, sink);
            m.all_ok <==> (forall|i: int|
                0 <= i < m.outcomes.len() ==> (#[trigger] m.outcomes[i]).1 != Outcome::Failed)
        }),
{
    lemma_ok_means_no_failure_from(start_model(processed, verdicts), candidates, sink);
}

proof fn lemma_ok_means_no_failure_from(m: RunModel, candidates: Seq<Seq<char>>, sink: bool)
    requires
        m.all_ok <==> (forall|i: int|
            0 <= i < m.outcomes.len() ==> (#[trigger] m.outcomes[i]).1 != Outcome::Failed),
    ensures
        ({
            let after = engine_run_from(m, candidates, sink);
            after.all_ok <==> (forall|i: int|
                0 <= i < after.outcomes.len() ==> (#[trigger] after.outcomes[i]).1
                    != Outcome::Failed)
        }),
    decreases candidates.len(),
{
    if candidates.len() > 0 {
        lemma_ok_means_no_failure_from(m, candidates.drop_last(), sink);
        let prev = engine_run_from(m, candidates.drop_last(), sink);
        let after = engine_run_from(m, candidates, sink);
        let e = trimmed(candidates.last());
        if prev.processed.contains(e) {
        } else if !sink {
            lemma_push_keeps_failure_equivalence(prev, after, (e, Outcome::SkippedAsRead));
        } else if !url_ok(e) {
            lemma_push_keeps_failure_equivalence(prev, after, (e, Outcome::SkippedInvalidUrl));
        } else if prev.verdicts.len() == 0 {
        } else if prev.verdicts.first() {
            lemma_push_keeps_failure_equivalence(prev, after, (e, Outcome::Delivered));
        } else {
            lemma_push_keeps_failure_equivalence(prev, after, (e, Outcome::Failed));
        }
    }
}

proof fn lemma_push_keeps_failure_equivalence(
    prev: RunModel,
    after: RunModel,
    p: (Seq<char>, Outcome),
)
    requires
        after.outcomes == prev.outcomes.push(p),
        after.all_ok == (prev.all_ok && p.1 != Outcome::Failed),
        prev.all_ok <==> (forall|i: int|
            0 <= i < prev.outcomes.len() ==> (#[trigger] prev.outcomes[i]).1 != Outcome::Failed),
    ensures
        after.all_ok <==> (forall|i: int|
            0 <= i < after.outcomes.len() ==> (#[trigger] after.outcomes[i]).1 != Outcome::Failed),
{
    if after.all_ok {
        assert forall|i: int|
            0 <= i < after.outcomes.len() implies (#[trigger] after.outcomes[i]).1
            != Outcome::Failed by {
            if i < prev.outcomes.len() {
                assert(after.outcomes[i] == prev.outcomes[i]);
            } else {
                assert(after.outcomes[i] == p);
            }
        }
    } else {
        if !prev.all_ok {
            let k = choose|k: int|
                0 <= k < prev.outcomes.len() && (#[trigger] prev.outcomes[k]).1
                    == Outcome::Failed;
            assert(after.outcomes[k].1 == Outcome::Failed);
        } else {
            assert(after.outcomes[prev.outcomes.len() as int] == p);
        }
    }
}

/// Reconciling a feed whose candidates are all already recorded changes
/// nothing: the record, the success flag and the verdict supply come out as
/// they went in, and no outcome is reported. Running reconciliation twice in
/// a row over unchanged feed content therefore leaves the recorded entries
/// untouched the second time.
pub proof fn lemma_rerun_with_no_new_content(
    processed: Seq<Seq<char>>,
    candidates: Seq<Seq<char>>,
    verdicts: Seq<bool>,
    sink: bool,
)
    requires
        forall|i: int|
            0 <= i < candidates.len() ==> processed.contains(#[trigger] trimmed(candidates[i])),
    ensures
        engine_run(processed, candidates, verdicts, sink) == start_model(processed, verdicts),
    decreases candidates.len(),
{
    if candidates.len() > 0 {
        assert(forall|i: int|
            0 <= i < candidates.drop_last().len() ==> processed.contains(
                #[trigger] trimmed(candidates.drop_last()[i]),
            ));
        lemma_rerun_with_no_new_content(processed, candidates.drop_last(), verdicts, sink);
        assert(processed.contains(trimmed(candidates.last())));
    }
}

/// Success never returns once lost: a step can only clear the flag.
proof fn lemma_ok_prefix(m: RunModel, candidates: Seq<Seq<char>>, sink: bool)
    requires
        engine_run_from(m, candidates, sink).all_ok,
        candidates.len() > 0,
    ensures
        engine_run_from(m, candidates.drop_last(), sink).all_ok,
{
}

/// After a fully successful run, every candidate's trimmed link is among the
/// recorded entries: each was delivered, deliberately skipped, or already
/// there.
pub proof fn lemma_successful_run_records_all(
    m: RunModel,
    candidates: Seq<Seq<char>>,
    sink: bool,
)
    requires
        engine_run_from(m, candidates, sink).fed,
        engine_run_from(m, candidates, sink).all_ok,
    ensures
        forall|i: int|
            0 <= i < candidates.len() ==> engine_run_from(m, candidates, sink).processed.contains(
                #[trigger] trimmed(candidates[i]),
            ),
    decreases candidates.len(),
{
    if candidates.len() > 0 {
        lemma_fed_prefix(m, candidates, sink);
        lemma_ok_prefix(m, candidates, sink);
        lemma_successful_run_records_all(m, candidates.drop_last(), sink);
        let prev = engine_run_from(m, candidates.drop_last(), sink);
        let after = engine_run_from(m, candidates, sink);
        let e = trimmed(candidates.last());
        assert(after.processed.contains(e)) by {
            if prev.processed.contains(e) {
                if !(after.processed == prev.processed) {
                    let k = choose|k: int|
                        0 <= k < prev.processed.len() && prev.processed[k] == e;
                    assert(after.processed[k] == e);
                }
            } else {
                assert(after.processed == prev.processed.push(e));
                assert(after.processed[prev.processed.len() as int] == e);
            }
        }
        assert forall|i: int|
            0 <= i < candidates.drop_last().len() implies after.processed.contains(
            #[trigger] trimmed(candidates.drop_last()[i]),
        ) by {
            let x = trimmed(candidates.drop_last()[i]);
            assert(prev.processed.contains(x));
            if !(after.processed == prev.processed) {
                let k = choose|k: int|
                    0 <= k < prev.processed.len() && prev.processed[k] == x;
                assert(after.processed[k] == x);
            }
        }
        assert(forall|i: int|
            0 <= i < candidates.len() ==> candidates[i] == if i < candidates.len() - 1 {
                candidates.drop_last()[i]
            } else {
                candidates.last()
            });
    }
}

/// Idempotence: after a fully successful run, an immediately repeated run
/// over the same candidates finds every entry already recorded and so
/// changes nothing — it records nothing, reports no outcome, keeps the
/// success flag, and consumes no verdicts.
pub proof fn lemma_second_run_changes_nothing(
    processed: Seq<Seq<char>>,
    candidates: Seq<Seq<char>>,
    verdicts: Seq<bool>,
    sink: bool,
    second_verdicts: Seq<bool>,
    second_sink: bool,
)
    requires
        engine_run(processed, candidates, verdicts, sink).fed,
        engine_run(processed, candidates, verdicts, sink).all_ok,
    ensures
        ({
            let first = engine_run(processed, candidates, verdicts, sink);
            engine_run(first.processed, candidates, second_verdicts, second_sink) == start_model(
                first.processed,
                second_verdicts,
            )
        }),
{
    let first = engine_run(processed, candidates, verdicts, sink);
    lemma_successful_run_records_all(start_model(processed, verdicts), candidates, sink);
    lemma_rerun_with_no_new_content(first.processed, candidates, second_verdicts, second_sink);
}

proof fn lemma_no_redelivery_from(m: RunModel, candidates: Seq<Seq<char>>, sink: bool, e: Seq<char>)
    requires
        m.processed.contains(e),
        !m.deliveries.contains(e),
    ensures
        engine_run_from(m, candidates, sink).processed.contains(e),
        !engine_run_from(m, candidates, sink).deliveries.contains(e),
    decreases candidates.len(),
{
    if candidates.len() > 0 {
        lemma_no_redelivery_from(m, candidates.drop_last(), sink, e);
        let prev = engine_run_from(m, candidates.drop_last(), sink);
        let d = trimmed(candidates.last());
        if !prev.processed.contains(d) {
            assert(d != e);
            assert(prev.processed.push(d).contains(e)) by {
                let k = choose|k: int|
                    0 <= k < prev.processed.len() && prev.processed[k] == e;
                assert(prev.processed.push(d)[k] == e);
            }
            assert(!prev.deliveries.push(d).contains(e)) by {
                if prev.deliveries.push(d).contains(e) {
                    let k = choose|k: int|
                        0 <= k < prev.deliveries.push(d).len() && prev.deliveries.push(d)[k] == e;
                    assert(prev.deliveries[k] == e);
                }
            }
        }
    }
}

/// At-most-once forward progress: an entry already present among the
/// recorded entries is never handed to the sink again, however often it
/// reappears among the candidates.
pub proof fn lemma_processed_entry_never_redelivered(
    processed: Seq<Seq<char>>,
    candidates: Seq<Seq<char>>,
    verdicts: Seq<bool>,
    sink: bool,
    e: Seq<char>,
)
    requires
        processed.contains(e),
    ensures
        !engine_run(processed, candidates, verdicts, sink).deliveries.contains(e),
        engine_run(processed, candidates, verdicts, sink).processed.contains(e),
{
    lemma_no_redelivery_from(start_model(processed, verdicts), candidates, sink, e);
}

/// A run without a sink delivers nothing and consumes no verdicts: every new
/// candidate is recorded as read, the success flag is untouched, and
/// afterwards every candidate's trimmed link is among the recorded entries.
pub proof fn lemma_no_sink_no_delivery(m: RunModel, candidates: Seq<Seq<char>>)
    ensures
        engine_run_from(m, candidates, false).fed == m.fed,
        engine_run_from(m, candidates, false).verdicts == m.verdicts,
        engine_run_from(m, candidates, false).deliveries == m.deliveries,
        engine_run_from(m, candidates, false).all_ok == m.all_ok,
        forall|i: int|
            0 <= i < candidates.len() ==> engine_run_from(m, candidates, false).processed.contains(
                #[trigger] trimmed(candidates[i]),
            ),
    decreases candidates.len(),
{
    if candidates.len() > 0 {
        lemma_no_sink_no_delivery(m, candidates.drop_last());
        let prev = engine_run_from(m, candidates.drop_last(), false);
        let e = trimmed(candidates.last());
        let after = engine_run_from(m, candidates, false);
        assert(after.processed.contains(e)) by {
            if prev.processed.contains(e) {
            } else {
                assert(prev.processed.push(e)[prev.processed.len() as int] == e);
            }
        }
        assert(forall|i: int|
            0 <= i < candidates.drop_last().len() ==> after.processed.contains(
                #[trigger] trimmed(candidates.drop_last()[i]),
            )) by {
            assert forall|i: int|
                0 <= i < candidates.drop_last().len() implies after.processed.contains(
                #[trigger] trimmed(candidates.drop_last()[i]),
            ) by {
                assert(prev.processed.contains(trimmed(candidates.drop_last()[i])));
                if !prev.processed.contains(e) {
                    let k = choose|k: int|
                        0 <= k < prev.processed.len() && prev.processed[k] == trimmed(
                            candidates.drop_last()[i],
                        );
                    assert(prev.processed.push(e)[k] == trimmed(candidates.drop_last()[i]));
                }
            }
        }
        assert(forall|i: int|
            0 <= i < candidates.len() ==> candidates[i] == if i < candidates.len() - 1 {
                candidates.drop_last()[i]
            } else {
                candidates.last()
            });
    }
}

/// Partial failure: with three new, distinct, well-formed candidates in
/// chronological order, if the middle delivery fails while the other two
/// succeed, the record gains exactly the first and third entries, the run is
/// not fully successful, and the caching validators are therefore withheld
/// so that the next run refetches and retries the middle entry.
pub proof fn lemma_partial_failure_retry(
    processed: Seq<Seq<char>>,
    a: Seq<char>,
    b: Seq<char>,
    c: Seq<char>,
    prior: Option<Seq<char>>,
    fresh: Option<Seq<char>>,
)
    requires
        !processed.contains(trimmed(a)),
        !processed.contains(trimmed(b)),
        !processed.contains(trimmed(c)),
        trimmed(a) != trimmed(b),
        trimmed(b) != trimmed(c),
        trimmed(a) != trimmed(c),
        url_ok(trimmed(a)),
        url_ok(trimmed(b)),
        url_ok(trimmed(c)),
    ensures
        ({
            let m = engine_run(processed, seq![a, b, c], seq![true, false, true], true);
            &&& m.processed =~= processed.push(trimmed(a)).push(trimmed(c))
            &&& m.outcomes =~= seq![
                (trimmed(a), Outcome::Delivered),
                (trimmed(b), Outcome::Failed),
                (trimmed(c), Outcome::Delivered),
            ]
            &&& !m.all_ok
            &&& m.fed
            &&& m.deliveries =~= seq![trimmed(a), trimmed(b), trimmed(c)]
            &&& final_validator(m.all_ok, prior, fresh) == prior
        }),
{
    let cs = seq![a, b, c];
    let vs = seq![true, false, true];
    let start = start_model(processed, vs);
    assert(cs.drop_last() =~= seq![a, b]);
    assert(cs.drop_last().drop_last() =~= seq![a]);
    assert(cs.drop_last().drop_last().drop_last() =~= Seq::<Seq<char>>::empty());
    let m1 = engine_step(start, a, true);
    assert(vs.first());
    assert(vs.drop_first() =~= seq![false, true]);
    assert(m1.processed == processed.push(trimmed(a)));
    assert(!m1.processed.contains(trimmed(b))) by {
        if m1.processed.contains(trimmed(b)) {
            let k = choose|k: int| 0 <= k < m1.processed.len() && m1.processed[k] == trimmed(b);
            if k < processed.len() {
                assert(processed[k] == trimmed(b));
            }
        }
    }
    let m2 = engine_step(m1, b, true);
    assert(!m1.verdicts.first());
    assert(m1.verdicts.drop_first() =~= seq![true]);
    assert(!m2.processed.contains(trimmed(c))) by {
        if m2.processed.contains(trimmed(c)) {
            let k = choose|k: int| 0 <= k < m2.processed.len() && m2.processed[k] == trimmed(c);
            if k < processed.len() {
                assert(processed[k] == trimmed(c));
            }
        }
    }
    let m3 = engine_step(m2, c, true);
    assert(m2.verdicts.first());
    assert(m2.verdicts.drop_first() =~= Seq::<bool>::empty());
    assert(seq![a].last() == a);
    assert(seq![a, b].last() == b);
    assert(cs.last() == c);
    assert(engine_run_from(start, Seq::<Seq<char>>::empty(), true) == start);
    assert(engine_run_from(start, seq![a], true) == m1);
    assert(engine_run_from(start, seq![a, b], true) == m2);
    assert(engine_run(processed, cs, vs, true) == m3);
    assert(m3.outcomes =~= seq![
        (trimmed(a), Outcome::Delivered),
        (trimmed(b), Outcome::Failed),
        (trimmed(c), Outcome::Delivered),
    ]);
    assert(m3.deliveries =~= seq![trimmed(a), trimmed(b), trimmed(c)]);
}

/// Drive a whole reconciliation run from a list of delivery verdicts, oldest
/// candidate first: the pure form of the engine, used when the verdicts are
/// known up front. Returns the updated feed state, the per-entry outcomes and
/// the success flag, or nothing when the verdicts run out before every
/// delivery is settled.
pub fn run_with_verdicts(
    feed: &FeedConfiguration,
    candidates: Vec<String>,
    new_last_modified: Option<String>,
    new_e_tag: Option<String>,
    sink: bool,
    verdicts: Vec<bool>,
) -> (r: Option<(FeedConfiguration, Vec<(String, Outcome)>, bool)>)
    ensures
        ({
            let m = engine_run(feed@.processed_entries, candidates.deep_view(), verdicts@, sink);
            match r {
                Some(t) => {
                    &&& m.fed
                    &&& t.0@.url == feed@.url
                    &&& t.0@.tags == feed@.tags
                    &&& t.0@.processed_entries == m.processed
                    &&& outcomes_view(t.1@) == m.outcomes
                    &&& t.2 == m.all_ok
                    &&& t.0@.last_modified == final_validator(
                        m.all_ok,
                        feed@.last_modified,
                        opt_string_view(new_last_modified),
                    )
                    &&& t.0@.last_e_tag == final_validator(
                        m.all_ok,
                        feed@.last_e_tag,
                        opt_string_view(new_e_tag),
                    )
                },
                None => !m.fed,
            }
        }),
{
    let ghost cdv = candidates.deep_view();
    let ghost init = feed@.processed_entries;
    let mut session = Reconciliation::start(feed, candidates, new_last_modified, new_e_tag, sink);
    let mut vi: usize = 0;
    let mut done = false;
    while !done
        invariant
            init == feed@.processed_entries,
            cdv == candidates.deep_view(),
            session.wf(),
            session.pending_entry() is None,
            session.initial_entries() == init,
            session.candidate_list() == cdv,
            session.sink_configured() == sink,
            session.feed_url() == feed@.url,
            session.feed_tags() == feed@.tags,
            session.prior_validators() == (feed@.last_modified, feed@.last_e_tag),
            session.fresh_validators() == (
                opt_string_view(new_last_modified),
                opt_string_view(new_e_tag),
            ),
            0 <= vi <= verdicts@.len(),
            session.verdicts_given() == verdicts@.take(vi as int),
            done ==> session.consumed() == cdv.len(),
        decreases cdv.len() - session.consumed(), (if done { 0int } else { 1int }),
    {
        match session.next_delivery() {
            Some(_entry) => {
                if vi < verdicts.len() {
                    let v = verdicts[vi];
                    proof {
                        assert(verdicts@.take(vi as int).push(v) =~= verdicts@.take(vi + 1));
                    }
                    session.resolve_delivery(v);
                    vi = vi + 1;
                } else {
                    proof {
                        assert(verdicts@.take(vi as int) =~= verdicts@);
                        let st = engine_run(init, cdv.take(session.consumed()), verdicts@, sink);
                        lemma_run_concat(
                            start_model(init, verdicts@),
                            cdv.take(session.consumed()),
                            cdv.skip(session.consumed()),
                            sink,
                        );
                        assert(cdv.take(session.consumed()) + cdv.skip(session.consumed()) =~= cdv);
                        let tail = cdv.skip(session.consumed());
                        assert(tail.len() > 0);
                        assert(seq![tail[0]] + tail.skip(1) =~= tail);
                        lemma_run_concat(st, seq![tail[0]], tail.skip(1), sink);
                        assert(seq![tail[0]].drop_last() =~= Seq::<Seq<char>>::empty());
                        assert(seq![tail[0]].last() == tail[0]);
                        assert(engine_run_from(st, Seq::<Seq<char>>::empty(), sink) == st);
                        assert(tail[0] == cdv[session.consumed()]);
                        assert(st.verdicts.len() == 0);
                        assert(needs_delivery(st.processed, trimmed(tail[0]), sink));
                        let st1 = engine_step(st, tail[0], sink);
                        assert(engine_run_from(st, seq![tail[0]], sink) == st1);
                        assert(!st1.fed);
                        lemma_fed_monotone(st1, tail.skip(1), sink);
                        assert(engine_run_from(
                            start_model(init, verdicts@),
                            cdv.take(session.consumed()) + tail,
                            sink,
                        ) == engine_run_from(st, tail, sink));
                        assert(engine_run_from(st, tail, sink) == engine_run_from(
                            st1,
                            tail.skip(1),
                            sink,
                        ));
                        assert(!engine_run(init, cdv, verdicts@, sink).fed);
                    }
                    return None;
                }
            },
            None => {
                done = true;
            },
        }
    }
    proof {
        let used = verdicts@.take(vi as int);
        assert(session.consumed() == cdv.len());
        assert(cdv.take(cdv.len() as int) =~= cdv);
        let m_used = engine_run(init, cdv, used, sink);
        assert(m_used.fed);
        lemma_run_more_verdicts(start_model(init, used), cdv, sink, verdicts@.skip(vi as int));
        assert(used + verdicts@.skip(vi as int) =~= verdicts@);
        assert(start_model(init, verdicts@) =~= (RunModel {
            verdicts: used + verdicts@.skip(vi as int),
            ..start_model(init, used)
        }));
    }
    let (updated, outcomes, ok) = session.into_feed();
    Some((updated, outcomes, ok))
}

/// Reconcile without a sink: every candidate not yet recorded is marked as
/// read without any delivery, as when a feed is first adopted. The run always
/// completes, never fails, and therefore installs the fresh validators.
pub fn reconcile_all_read(
    feed: &FeedConfiguration,
    candidates: Vec<String>,
    new_last_modified: Option<String>,
    new_e_tag: Option<String>,
) -> (r: (FeedConfiguration, Vec<(String, Outcome)>))
    ensures
        ({
            let m = engine_run(
                feed@.processed_entries,
                candidates.deep_view(),
                Seq::<bool>::empty(),
                false,
            );
            &&& r.0@.url == feed@.url
            &&& r.0@.tags == feed@.tags
            &&& r.0@.processed_entries == m.processed
            &&& outcomes_view(r.1@) == m.outcomes
            &&& m.deliveries == Seq::<Seq<char>>::empty()
            &&& m.all_ok
            &&& r.0@.last_modified == opt_string_view(new_last_modified)
            &&& r.0@.last_e_tag == opt_string_view(new_e_tag)
        }),
{
    let ghost cdv = candidates.deep_view();
    let ghost init = feed@.processed_entries;
    proof {
        lemma_no_sink_no_delivery(start_model(init, Seq::<bool>::empty()), cdv);
    }
    let r = run_with_verdicts(feed, candidates, new_last_modified, new_e_tag, false, Vec::new());
    match r {
        Some((updated, outcomes, _ok)) => (updated, outcomes),
        None => vstd::pervasive::unreached(),
    }
}

} // verus!
