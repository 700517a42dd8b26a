//! The dispatcher's runtime state: which critics are online, the review
//! queue, the critic being waited on, and the decisions taken on each
//! notification, admin request and relay request.
use vstd::prelude::*;
use vstd::string::*;
use vstd::utf8::*;
use crate::plaza::{base64_decode, base64_decode_seq, prompt_seq, shell_safe, shell_safe_seq, PlazaConfig, ReviewerJsonConfig};
use crate::text::{utf8_decode, decimal, decimal_seq, has_subseq, join_seq, lowercase_of, owned, str_contains, str_eq};
use std::collections::VecDeque;

verus! {

/// A filmstrip notification: who posted which frame about what.
pub struct PlazaEvent {
    pub speaker: String,
    pub frame: u64,
    pub topic: String,
    pub channel: String,
    /// Base64-encoded full content from the blessings entry file.
    pub content_b64: String,
}

impl PlazaEvent {
    /// A copy of the event.
    pub fn duplicate(&self) -> (r: PlazaEvent)
        ensures
            r == *self,
    {
        PlazaEvent {
            speaker: self.speaker.clone(),
            frame: self.frame,
            topic: self.topic.clone(),
            channel: self.channel.clone(),
            content_b64: self.content_b64.clone(),
        }
    }
}

/// Whether one critic is currently taking reviews.
pub struct ReviewerStatus {
    pub name: String,
    pub online: bool,
}

/// The dispatcher's shared state.
pub struct PlazaState {
    pub status: Vec<ReviewerStatus>,
    pub queue: VecDeque<(usize, PlazaEvent)>,
    pub active_reviewer: Option<String>,
    pub subject_frame: Option<u64>,
    /// A cycle was started or advanced and its next turn has not been taken
    /// yet: further callbacks are not counted until it is.
    pub dispatch_pending: bool,
    pub plaza_secret: String,
    pub config: PlazaConfig,
}

/// What a notification led to.
pub enum PlazaOutcome {
    /// The token did not match.
    Unauthorized,
    /// Cody posted while a review cycle was still running; nothing changed.
    Busy,
    /// Cody posted: a new review cycle is queued and dispatching should start.
    ReviewStarted,
    /// The awaited critic posted: Cody is to be told `notice`, then the next
    /// critic dispatched.
    Advanced { notice: String },
    /// A post that does not move the cycle on.
    Ignored,
}

/// What a relay request to Cody led to.
pub enum AiryOutcome {
    Unauthorized,
    Empty,
    /// The keys to send to Cody's session.
    Send { keys: String },
}

/// How a prompt reaches a critic.
pub enum DispatchMethod {
    /// Typed into the critic's tmux session.
    Tmux,
    /// Sent through Chrome; the dispatcher scrapes and pushes the answer.
    CdpScrape,
    /// Sent through Chrome; the critic pushes its own answer.
    CdpSelfPush,
    /// The configured method is neither "tmux" nor "cdp".
    Unknown,
}

/// A critic's turn: how to reach it and what to send.
pub struct DispatchPlan {
    pub method: DispatchMethod,
    pub message: String,
}

/// A browser tab as the DevTools listing describes it.
pub struct TabInfo {
    pub url: Option<String>,
    pub title: Option<String>,
    pub tab_type: Option<String>,
    pub ws_url: Option<String>,
}

// ---------------------------------------------------------------------------
// The model of the critic status table.
// ---------------------------------------------------------------------------

/// The status table as (name, online) pairs.
pub open spec fn status_view(st: Seq<ReviewerStatus>) -> Seq<(Seq<char>, bool)> {
    st.map_values(|r: ReviewerStatus| (r.name@, r.online))
}

/// No name appears twice.
pub open spec fn names_distinct(sv: Seq<(Seq<char>, bool)>) -> bool {
    forall|i: int, j: int| 0 <= i < j < sv.len() ==> sv[i].0 != sv[j].0
}

/// The table holds an entry for `n`.
pub open spec fn has_name(sv: Seq<(Seq<char>, bool)>, n: Seq<char>) -> bool {
    exists|i: int| 0 <= i < sv.len() && sv[i].0 == n
}

/// The position of the entry for `n` (meaningful when `has_name`).
pub open spec fn name_pos(sv: Seq<(Seq<char>, bool)>, n: Seq<char>) -> int {
    choose|i: int| 0 <= i < sv.len() && sv[i].0 == n
}

/// The table after recording `online` for `n`: the entry is updated in place,
/// or appended when there is none (a map insert).
pub open spec fn upsert(sv: Seq<(Seq<char>, bool)>, n: Seq<char>, online: bool) -> Seq<(Seq<char>, bool)> {
    if has_name(sv, n) {
        sv.update(name_pos(sv, n), (n, online))
    } else {
        sv.push((n, online))
    }
}

/// The table built from the configured critics: each name records the
/// `enabled` flag of the last critic that carries it.
pub open spec fn initial_status(rs: Seq<ReviewerJsonConfig>) -> Seq<(Seq<char>, bool)>
    decreases rs.len(),
{
    if rs.len() == 0 {
        Seq::empty()
    } else {
        upsert(initial_status(rs.drop_last()), rs.last().name@, rs.last().enabled)
    }
}

/// Whether a critic counts as online; unknown names count as online.
pub open spec fn is_online(sv: Seq<(Seq<char>, bool)>, n: Seq<char>) -> bool {
    if has_name(sv, n) {
        sv[name_pos(sv, n)].1
    } else {
        true
    }
}

/// The review queue for `event`: each online critic, in configuration
/// order, paired with the event.
pub open spec fn review_queue(
    rs: Seq<ReviewerJsonConfig>,
    sv: Seq<(Seq<char>, bool)>,
    event: PlazaEvent,
) -> Seq<(usize, PlazaEvent)>
    decreases rs.len(),
{
    if rs.len() == 0 {
        Seq::empty()
    } else {
        let q = review_queue(rs.drop_last(), sv, event);
        if is_online(sv, rs.last().name@) {
            q.push(((rs.len() - 1) as usize, event))
        } else {
            q
        }
    }
}

/// A new review cycle queues exactly the online critics, each once, in
/// configuration order, each with the notification that started the cycle.
pub proof fn lemma_review_queue_exact(
    rs: Seq<ReviewerJsonConfig>,
    sv: Seq<(Seq<char>, bool)>,
    event: PlazaEvent,
)
    requires
        rs.len() <= usize::MAX,
    ensures
        ({
            let q = review_queue(rs, sv, event);
            &&& forall|k: int|
                0 <= k < q.len() ==> #[trigger] q[k].0 < rs.len() && is_online(sv, rs[q[k].0 as int].name@)
                    && q[k].1 == event
            &&& forall|i: int, j: int| 0 <= i < j < q.len() ==> #[trigger] q[i].0 < #[trigger] q[j].0
            &&& forall|idx: int|
                0 <= idx < rs.len() && is_online(sv, #[trigger] rs[idx].name@) ==> exists|k: int|
                    0 <= k < q.len() && q[k].0 == idx
        }),
    decreases rs.len(),
{
    if rs.len() > 0 {
        let prev = rs.drop_last();
        lemma_review_queue_exact(prev, sv, event);
        let q0 = review_queue(prev, sv, event);
        let q = review_queue(rs, sv, event);
        assert forall|k: int| 0 <= k < q0.len() implies #[trigger] q0[k].0 < prev.len() by {}
        assert forall|idx: int| 0 <= idx < rs.len() && is_online(sv, #[trigger] rs[idx].name@) implies exists|
            k: int,
        | 0 <= k < q.len() && q[k].0 == idx by {
            if idx < prev.len() {
                assert(prev[idx] == rs[idx]);
                let k = choose|k: int| 0 <= k < q0.len() && q0[k].0 == idx;
                assert(q[k] == q0[k]);
            } else {
                assert(q[q.len() - 1].0 == idx);
            }
        }
        assert forall|k: int| 0 <= k < q.len() implies #[trigger] q[k].0 < rs.len() && is_online(
            sv,
            rs[q[k].0 as int].name@,
        ) && q[k].1 == event by {
            if k < q0.len() {
                assert(q[k] == q0[k]);
                assert(prev[q0[k].0 as int] == rs[q0[k].0 as int]);
            }
        }
    }
}

/// A callback counts once: once a post has advanced the cycle (which leaves
/// the state with a callback pending, see `handle_plaza`), a repeat of that
/// post, or any other critic's post, advances nothing, so it is ignored and
/// changes no state, until the next turn has been taken.
pub proof fn lemma_callback_counts_once(s: PlazaState, repeat: PlazaEvent)
    requires
        s.dispatch_pending,
    ensures
        !s.advances(repeat),
{
}

/// Which posts move the cycle on while a critic is awaited and no callback
/// is pending: the awaited critic's post does, unless it names a frame
/// (non-zero) older than the frame under review; a post of the subject frame,
/// a newer one, or one with no frame (0) all count. Another critic's post
/// never does.
pub proof fn lemma_awaited_post_advances(s: PlazaState, e: PlazaEvent)
    requires
        !s.dispatch_pending,
        s.active_reviewer is Some,
    ensures
        e.speaker@ != s.active_reviewer->0@ ==> !s.advances(e),
        e.speaker@ == s.active_reviewer->0@ && s.subject_frame is None ==> s.advances(e),
        e.speaker@ == s.active_reviewer->0@ && (s.subject_frame matches Some(sf) && (e.frame == 0 || e.frame
            >= sf)) ==> s.advances(e),
        e.speaker@ == s.active_reviewer->0@ && (s.subject_frame matches Some(sf) && 0 < e.frame < sf)
            ==> !s.advances(e),
{
}

/// The name of an optional string.
pub open spec fn opt_view(o: Option<String>) -> Option<Seq<char>> {
    match o {
        Some(s) => Some(s@),
        None => None,
    }
}

/// The text Cody is told when a critic has posted.
pub open spec fn posted_notice(speaker: Seq<char>, frame: u64, topic: Seq<char>) -> Seq<char> {
    speaker + " posted FRAME #"@ + decimal_seq(frame as nat) + " — "@ + topic + ". Check the tape."@
}

/// The text Cody is told when a scraped review has been pushed.
pub open spec fn scraped_notice(display_name: Seq<char>) -> Seq<char> {
    display_name + " review scraped and pushed. Check the tape."@
}

/// One `"name":"online"` entry of the status report.
pub open spec fn status_entry(e: (Seq<char>, bool)) -> Seq<char> {
    "\""@ + e.0 + "\":\""@ + (if e.1 { "online"@ } else { "offline"@ }) + "\""@
}

/// The status report: every table entry, then the queue length.
pub open spec fn status_report(sv: Seq<(Seq<char>, bool)>, queue_len: nat) -> Seq<char> {
    "{\"critics\":{"@ + join_seq(sv.map_values(|e: (Seq<char>, bool)| status_entry(e)), ","@)
        + "},\"queue_length\":"@ + decimal_seq(queue_len) + "}"@
}

/// The text of a notification's content: the base64 content decoded as UTF-8
/// when there is content, falling back to the topic when it is not base64 or
/// not UTF-8; the topic when there is no content.
pub open spec fn content_seq(event: PlazaEvent) -> Seq<char> {
    if event.content_b64@.len() > 0 {
        match base64_decode_seq(encode_utf8(event.content_b64@)) {
            Some(bytes) => if valid_utf8(bytes) {
                decode_utf8(bytes)
            } else {
                event.topic@
            },
            None => event.topic@,
        }
    } else {
        event.topic@
    }
}

/// Whether a tab's title, lowercased, holds `m` (lowercased); a tab without a
/// title matches by its URL only.
pub open spec fn title_matches(title: Option<String>, m: Seq<char>) -> bool {
    match title {
        Some(t) => has_subseq(lowercase_of(t@), lowercase_of(m)),
        None => false,
    }
}

/// The DevTools tab matched by title or URL: a page tab whose URL or title
/// (lowercased) holds `m` (lowercased) and whose URL does not hold
/// "codex/cloud"; the search gives up at the first tab without a URL or a type.
pub open spec fn find_tab_seq(tabs: Seq<TabInfo>, m: Seq<char>) -> Option<Seq<char>>
    decreases tabs.len(),
{
    if tabs.len() == 0 {
        None
    } else {
        match (tabs[0].url, tabs[0].tab_type) {
            (Some(u), Some(t)) => {
                let url = lowercase_of(u@);
                if t@ == "page"@ && (has_subseq(url, lowercase_of(m)) || title_matches(tabs[0].title, m))
                    && !has_subseq(url, "codex/cloud"@) {
                    opt_view(tabs[0].ws_url)
                } else {
                    find_tab_seq(tabs.drop_first(), m)
                }
            },
            _ => None,
        }
    }
}

/// The first page whose URL (lowercased) holds `m` (lowercased) and not "codex/cloud".
pub open spec fn page_matches(url: Seq<char>, m: Seq<char>) -> bool {
    has_subseq(lowercase_of(url), lowercase_of(m)) && !has_subseq(lowercase_of(url), "codex/cloud"@)
}

// ---------------------------------------------------------------------------
// The state machine.
// ---------------------------------------------------------------------------

impl PlazaState {
    /// The critic status table as (name, online) pairs.
    pub open spec fn status_pairs(&self) -> Seq<(Seq<char>, bool)> {
        status_view(self.status@)
    }

    /// Well-formed: names in the table are distinct and every queued index
    /// names a configured critic.
    pub open spec fn wf(&self) -> bool {
        &&& names_distinct(self.status_pairs())
        &&& forall|k: int| 0 <= k < self.queue@.len() ==> #[trigger] self.queue@[k].0 < self.config.reviewers@.len()
    }

    /// Whether a request carries the shared secret (an empty secret admits no one).
    pub open spec fn admits(&self, provided: Seq<char>) -> bool {
        provided == self.plaza_secret@ && self.plaza_secret@.len() > 0
    }

    /// Whether a post by a critic moves the cycle on: no accepted callback
    /// may still be waiting for its turn to be taken; the post must come from the
    /// awaited critic and not be older than the subject frame (frame 0 is
    /// never stale); with no awaited critic, any post advances a non-empty queue.
    pub open spec fn advances(&self, event: PlazaEvent) -> bool {
        !self.dispatch_pending && match self.active_reviewer {
            Some(a) => event.speaker@ == a@ && !(self.subject_frame matches Some(sf) && event.frame > 0
                && event.frame < sf),
            None => self.queue@.len() > 0,
        }
    }

    /// Fresh state: the status table built from the configured critics, an
    /// empty queue, no awaited critic and no subject frame.
    pub fn new(config: PlazaConfig, plaza_secret: String) -> (r: PlazaState)
        ensures
            r.wf(),
            r.status_pairs() == initial_status(config.reviewers@),
            r.queue@.len() == 0,
            r.active_reviewer is None,
            r.subject_frame is None,
            !r.dispatch_pending,
            r.plaza_secret == plaza_secret,
            r.config == config,
    {
        let mut status: Vec<ReviewerStatus> = Vec::new();
        let mut i: usize = 0;
        while i < config.reviewers.len()
            invariant
                i <= config.reviewers.len(),
                status_view(status@) == initial_status(config.reviewers@.take(i as int)),
                names_distinct(status_view(status@)),
            decreases config.reviewers.len() - i,
        {
            let r = &config.reviewers[i];
            proof {
                assert(config.reviewers@.take(i + 1).drop_last() =~= config.reviewers@.take(i as int));
            }
            record_status(&mut status, r.name.as_str(), r.enabled);
            i += 1;
        }
        assert(config.reviewers@.take(config.reviewers.len() as int) =~= config.reviewers@);
        PlazaState {
            status,
            queue: VecDeque::new(),
            active_reviewer: None,
            subject_frame: None,
            dispatch_pending: false,
            plaza_secret,
            config,
        }
    }

    /// Whether `provided` is the shared secret.
    pub fn authorized(&self, provided: &str) -> (r: bool)
        ensures
            r == self.admits(provided@),
    {
        str_eq(provided, self.plaza_secret.as_str()) && !self.plaza_secret.as_str().is_empty()
    }

    /// Whether the named critic is online (unknown names are).
    pub fn reviewer_online(&self, name: &str) -> (r: bool)
        requires
            self.wf(),
        ensures
            r == is_online(self.status_pairs(), name@),
    {
        match status_index(&self.status, name) {
            Some(k) => {
                proof {
                    lemma_pos_unique(self.status_pairs(), name@, k as int);
                }
                self.status[k].online
            },
            None => true,
        }
    }

    /// A filmstrip notification. Cody's post starts a review cycle over the
    /// online critics unless one is running; a critic's post advances the
    /// cycle when it is the one awaited.
    pub fn handle_plaza(&mut self, provided: &str, event: PlazaEvent) -> (o: PlazaOutcome)
        requires
            old(self).wf(),
        ensures
            final(self).wf(),
            !old(self).admits(provided@) ==> o is Unauthorized && *final(self) == *old(self),
            old(self).admits(provided@) && event.speaker@ == "cody"@ && (old(self).active_reviewer is Some
                || old(self).queue@.len() > 0) ==> o is Busy && *final(self) == *old(self),
            old(self).admits(provided@) && event.speaker@ == "cody"@ && old(self).active_reviewer is None
                && old(self).queue@.len() == 0 ==> {
                &&& o is ReviewStarted
                &&& final(self).queue@ == review_queue(old(self).config.reviewers@, old(self).status_pairs(), event)
                &&& final(self).subject_frame == Some(event.frame)
                &&& final(self).active_reviewer is None
                &&& final(self).dispatch_pending
                &&& final(self).status == old(self).status
                &&& final(self).plaza_secret == old(self).plaza_secret
                &&& final(self).config == old(self).config
            },
            old(self).admits(provided@) && event.speaker@ != "cody"@ && old(self).advances(event) ==> {
                &&& (o matches PlazaOutcome::Advanced { notice } && notice@ == posted_notice(event.speaker@, event.frame, event.topic@))
                &&& final(self).active_reviewer is None
                &&& final(self).dispatch_pending
                &&& final(self).queue == old(self).queue
                &&& final(self).subject_frame == old(self).subject_frame
                &&& final(self).status == old(self).status
                &&& final(self).plaza_secret == old(self).plaza_secret
                &&& final(self).config == old(self).config
            },
            old(self).admits(provided@) && event.speaker@ != "cody"@ && !old(self).advances(event) ==> o is Ignored
                && *final(self) == *old(self),
            old(self).admits(provided@) && event.speaker@ != "cody"@ && !old(self).dispatch_pending && (old(
                self,
            ).active_reviewer matches Some(a) && event.speaker@ == a@) && (old(self).subject_frame matches Some(sf)
                ==> (event.frame == 0 || event.frame >= sf)) ==> o is Advanced,
    {
        if !self.authorized(provided) {
            return PlazaOutcome::Unauthorized;
        }
        if str_eq(event.speaker.as_str(), "cody") {
            if self.active_reviewer.is_some() || self.queue.len() > 0 {
                return PlazaOutcome::Busy;
            }
            let q = self.build_queue(&event);
            self.queue = q;
            self.subject_frame = Some(event.frame);
            self.active_reviewer = None;
            self.dispatch_pending = true;
            PlazaOutcome::ReviewStarted
        } else {
            let advance = !self.dispatch_pending && match &self.active_reviewer {
                Some(active) => {
                    if !str_eq(event.speaker.as_str(), active.as_str()) {
                        false
                    } else {
                        match self.subject_frame {
                            Some(sf) => !(event.frame > 0 && event.frame < sf),
                            None => true,
                        }
                    }
                },
                None => self.queue.len() > 0,
            };
            if advance {
                self.active_reviewer = None;
                self.dispatch_pending = true;
                PlazaOutcome::Advanced {
                    notice: posted_notice_text(event.speaker.as_str(), event.frame, event.topic.as_str()),
                }
            } else {
                PlazaOutcome::Ignored
            }
        }
    }

    /// The queue of online critics for a new cycle.
    fn build_queue(&self, event: &PlazaEvent) -> (q: VecDeque<(usize, PlazaEvent)>)
        requires
            self.wf(),
        ensures
            q@ == review_queue(self.config.reviewers@, self.status_pairs(), *event),
            forall|k: int| 0 <= k < q@.len() ==> #[trigger] q@[k].0 < self.config.reviewers@.len(),
    {
        let mut q: VecDeque<(usize, PlazaEvent)> = VecDeque::new();
        let n = self.config.reviewers.len();
        let mut i: usize = 0;
        while i < n
            invariant
                self.wf(),
                n == self.config.reviewers@.len(),
                i <= n,
                q@ == review_queue(self.config.reviewers@.take(i as int), self.status_pairs(), *event),
                forall|k: int| 0 <= k < q@.len() ==> #[trigger] q@[k].0 < i,
            decreases n - i,
        {
            let online = self.reviewer_online(self.config.reviewers[i].name.as_str());
            proof {
                let t = self.config.reviewers@.take(i + 1);
                assert(t.drop_last() =~= self.config.reviewers@.take(i as int));
            }
            if online {
                q.push_back((i, event.duplicate()));
            }
            i += 1;
        }
        assert(self.config.reviewers@.take(n as int) =~= self.config.reviewers@);
        q
    }

    /// Takes the next queued turn, if any, and marks its critic as awaited;
    /// with an empty queue nobody is awaited. Either way the pending
    /// callback, if any, has now been acted on.
    pub fn pop_next(&mut self) -> (r: Option<(usize, PlazaEvent)>)
        requires
            old(self).wf(),
        ensures
            final(self).wf(),
            old(self).queue@.len() == 0 ==> r is None && final(self).active_reviewer is None
                && final(self).queue@ == old(self).queue@,
            old(self).queue@.len() > 0 ==> {
                &&& r == Some(old(self).queue@[0])
                &&& old(self).queue@[0].0 < old(self).config.reviewers@.len()
                &&& final(self).queue@ == old(self).queue@.drop_first()
                &&& opt_view(final(self).active_reviewer) == Some(
                    old(self).config.reviewers@[old(self).queue@[0].0 as int].name@,
                )
            },
            !final(self).dispatch_pending,
            final(self).status == old(self).status,
            final(self).subject_frame == old(self).subject_frame,
            final(self).plaza_secret == old(self).plaza_secret,
            final(self).config == old(self).config,
    {
        self.active_reviewer = None;
        self.dispatch_pending = false;
        match self.queue.pop_front() {
            Some((idx, event)) => {
                assert(old(self).queue@[0].0 < old(self).config.reviewers@.len());
                let name = self.config.reviewers[idx].name.clone();
                self.active_reviewer = Some(name);
                proof {
                    assert forall|k: int| 0 <= k < self.queue@.len() implies #[trigger] self.queue@[k].0
                        < self.config.reviewers@.len() by {
                        assert(self.queue@[k] == old(self).queue@[k + 1]);
                    }
                }
                Some((idx, event))
            },
            None => None,
        }
    }

    /// A scraping critic has finished: nobody is awaited any more.
    pub fn finish_scrape(&mut self)
        requires
            old(self).wf(),
        ensures
            final(self).wf(),
            final(self).active_reviewer is None,
            final(self).queue == old(self).queue,
            final(self).status == old(self).status,
            final(self).subject_frame == old(self).subject_frame,
            final(self).dispatch_pending == old(self).dispatch_pending,
            final(self).plaza_secret == old(self).plaza_secret,
            final(self).config == old(self).config,
    {
        self.active_reviewer = None;
    }

    /// How to reach the critic at `idx` with `event`, and the prompt to send.
    pub fn dispatch_plan(&self, idx: usize, event: &PlazaEvent) -> (p: DispatchPlan)
        requires
            idx < self.config.reviewers@.len(),
        ensures
            p.message@ == prompt_seq(self.config, self.config.reviewers@[idx as int], content_seq(*event)),
            ({
                let r = self.config.reviewers@[idx as int];
                &&& r.dispatch@ == "tmux"@ ==> p.method is Tmux
                &&& r.dispatch@ == "cdp"@ && r.scrape ==> p.method is CdpScrape
                &&& r.dispatch@ == "cdp"@ && !r.scrape ==> p.method is CdpSelfPush
                &&& r.dispatch@ != "tmux"@ && r.dispatch@ != "cdp"@ ==> p.method is Unknown
            }),
    {
        proof {
            reveal_strlit("tmux");
            reveal_strlit("cdp");
            assert("tmux"@.len() == 4 && "cdp"@.len() == 3);
        }
        let reviewer = &self.config.reviewers[idx];
        let content = event_content(event);
        let message = self.config.build_prompt(reviewer, content.as_str());
        let method = if str_eq(reviewer.dispatch.as_str(), "tmux") {
            DispatchMethod::Tmux
        } else if str_eq(reviewer.dispatch.as_str(), "cdp") {
            if reviewer.scrape {
                DispatchMethod::CdpScrape
            } else {
                DispatchMethod::CdpSelfPush
            }
        } else {
            DispatchMethod::Unknown
        };
        DispatchPlan { method, message }
    }

    /// An admin request: take critics online or offline (one by name, or
    /// "all"), or report the status table and queue length.
    pub fn handle_admin(&mut self, provided: &str, action: &str, reviewer: &str) -> (r: (u16, String))
        requires
            old(self).wf(),
        ensures
            final(self).wf(),
            final(self).queue == old(self).queue,
            final(self).active_reviewer == old(self).active_reviewer,
            final(self).subject_frame == old(self).subject_frame,
            final(self).dispatch_pending == old(self).dispatch_pending,
            final(self).plaza_secret == old(self).plaza_secret,
            final(self).config == old(self).config,
            !old(self).admits(provided@) ==> r.0 == 401 && r.1@ == "unauthorized"@
                && final(self).status == old(self).status,
            old(self).admits(provided@) && (action@ == "online"@ || action@ == "offline"@) && reviewer@ == "all"@
                ==> {
                &&& r.0 == 200
                &&& r.1@ == "{\""@ + reviewer@ + "\":\""@ + action@ + "\"}"@
                &&& final(self).status_pairs() == old(self).status_pairs().map_values(
                    |e: (Seq<char>, bool)| (e.0, action@ == "online"@),
                )
            },
            old(self).admits(provided@) && (action@ == "online"@ || action@ == "offline"@) && reviewer@ != "all"@
                && has_name(old(self).status_pairs(), reviewer@) ==> {
                &&& r.0 == 200
                &&& r.1@ == "{\""@ + reviewer@ + "\":\""@ + action@ + "\"}"@
                &&& final(self).status_pairs() == upsert(old(self).status_pairs(), reviewer@, action@ == "online"@)
            },
            old(self).admits(provided@) && (action@ == "online"@ || action@ == "offline"@) && reviewer@ != "all"@
                && !has_name(old(self).status_pairs(), reviewer@) ==> r.0 == 400 && r.1@ == "unknown critic: "@
                + reviewer@ && final(self).status == old(self).status,
            old(self).admits(provided@) && action@ == "status"@ ==> r.0 == 200 && r.1@ == status_report(
                old(self).status_pairs(),
                old(self).queue@.len(),
            ) && final(self).status == old(self).status,
            old(self).admits(provided@) && action@ != "online"@ && action@ != "offline"@ && action@ != "status"@
                ==> r.0 == 400 && r.1@ == "unknown action: "@ + action@ && final(self).status == old(self).status,
    {
        proof {
            reveal_strlit("online");
            reveal_strlit("offline");
            reveal_strlit("status");
            assert("online"@[0] == 'o' && "offline"@[0] == 'o' && "status"@[0] == 's');
        }
        if !self.authorized(provided) {
            return (401, owned("unauthorized"));
        }
        let is_on = str_eq(action, "online");
        if is_on || str_eq(action, "offline") {
            if str_eq(reviewer, "all") {
                set_all_status(&mut self.status, is_on);
            } else {
                match status_index(&self.status, reviewer) {
                    Some(k) => {
                        proof {
                            lemma_pos_unique(self.status_pairs(), reviewer@, k as int);
                        }
                        let ghost before = self.status_pairs();
                        self.status.set(k, ReviewerStatus { name: owned(reviewer), online: is_on });
                        proof {
                            assert(self.status_pairs() =~= before.update(k as int, (reviewer@, is_on)));
                            lemma_update_distinct(before, k as int, reviewer@, is_on);
                        }
                    },
                    None => {
                        let mut msg = owned("unknown critic: ");
                        msg.append(reviewer);
                        return (400, msg);
                    },
                }
            }
            let mut body = owned("{\"");
            body.append(reviewer);
            body.append("\":\"");
            body.append(action);
            body.append("\"}");
            (200, body)
        } else if str_eq(action, "status") {
            (200, status_report_text(&self.status, self.queue.len()))
        } else {
            let mut msg = owned("unknown action: ");
            msg.append(action);
            (400, msg)
        }
    }

    /// A relay request from Airy to Cody: the command, made shell-safe, is to be
    /// typed into Cody's session.
    pub fn handle_airy(&self, provided: &str, command: &str) -> (o: AiryOutcome)
        ensures
            !self.admits(provided@) ==> o is Unauthorized,
            self.admits(provided@) && command@.len() == 0 ==> o is Empty,
            self.admits(provided@) && command@.len() > 0 ==> (o matches AiryOutcome::Send { keys } && keys@
                == shell_safe_seq(command@)),
    {
        if !self.authorized(provided) {
            AiryOutcome::Unauthorized
        } else if command.is_empty() {
            AiryOutcome::Empty
        } else {
            AiryOutcome::Send { keys: shell_safe(command) }
        }
    }
}

impl DispatchPlan {
    /// Whether the next turn is taken at once: only after a turn whose answer
    /// the dispatcher scraped itself; tmux and self-pushing turns wait for
    /// their critic's callback, and an unknown method stops the cycle.
    pub fn goes_on(&self) -> (r: bool)
        ensures
            r == (self.method is CdpScrape),
    {
        match self.method {
            DispatchMethod::CdpScrape => true,
            _ => false,
        }
    }
}

impl PlazaOutcome {
    /// The HTTP status and body the notification is answered with.
    pub fn reply(&self) -> (r: (u16, &'static str))
        ensures
            self is Unauthorized ==> r.0 == 401 && r.1@ == "unauthorized"@,
            self is Busy ==> r.0 == 200 && r.1@ == "busy"@,
            !(self is Unauthorized) && !(self is Busy) ==> r.0 == 200 && r.1@ == "ok"@,
    {
        match self {
            PlazaOutcome::Unauthorized => (401, "unauthorized"),
            PlazaOutcome::Busy => (200, "busy"),
            _ => (200, "ok"),
        }
    }
}

impl AiryOutcome {
    /// The HTTP status and body the relay request is answered with.
    pub fn reply(&self) -> (r: (u16, &'static str))
        ensures
            self is Unauthorized ==> r.0 == 401 && r.1@ == "unauthorized"@,
            self is Empty ==> r.0 == 200 && r.1@ == "empty"@,
            self is Send ==> r.0 == 200 && r.1@ == "{\"status\":\"sent\"}"@,
    {
        match self {
            AiryOutcome::Unauthorized => (401, "unauthorized"),
            AiryOutcome::Empty => (200, "empty"),
            AiryOutcome::Send { .. } => (200, "{\"status\":\"sent\"}"),
        }
    }
}

// ---------------------------------------------------------------------------
// Helpers.
// ---------------------------------------------------------------------------

proof fn lemma_pos_unique(sv: Seq<(Seq<char>, bool)>, n: Seq<char>, k: int)
    requires
        names_distinct(sv),
        0 <= k < sv.len(),
        sv[k].0 == n,
    ensures
        has_name(sv, n),
        name_pos(sv, n) == k,
{
    assert(has_name(sv, n));
    let p = name_pos(sv, n);
    if p != k {
        if p < k {
            assert(sv[p].0 != sv[k].0);
        } else {
            assert(sv[k].0 != sv[p].0);
        }
    }
}

proof fn lemma_update_distinct(sv: Seq<(Seq<char>, bool)>, k: int, n: Seq<char>, b: bool)
    requires
        names_distinct(sv),
        0 <= k < sv.len(),
        sv[k].0 == n,
    ensures
        names_distinct(sv.update(k, (n, b))),
{
    let u = sv.update(k, (n, b));
    assert forall|i: int, j: int| 0 <= i < j < u.len() implies u[i].0 != u[j].0 by {
        assert(u[i].0 == sv[i].0);
        assert(u[j].0 == sv[j].0);
    }
}

/// The position of `name` in the table, if it is there.
fn status_index(st: &Vec<ReviewerStatus>, name: &str) -> (r: Option<usize>)
    ensures
        r matches Some(k) ==> k < st@.len() && st@[k as int].name@ == name@,
        r is None ==> !has_name(status_view(st@), name@),
{
    let mut k: usize = 0;
    while k < st.len()
        invariant
            k <= st.len(),
            forall|j: int| 0 <= j < k ==> st@[j].name@ != name@,
        decreases st.len() - k,
    {
        if str_eq(st[k].name.as_str(), name) {
            return Some(k);
        }
        k += 1;
    }
    assert forall|j: int| 0 <= j < status_view(st@).len() implies status_view(st@)[j].0 != name@ by {
        assert(status_view(st@)[j].0 == st@[j].name@);
    }
    None
}

/// Records `online` for `name`: updates the entry or appends one.
fn record_status(st: &mut Vec<ReviewerStatus>, name: &str, online: bool)
    requires
        names_distinct(status_view(old(st)@)),
    ensures
        status_view(final(st)@) == upsert(status_view(old(st)@), name@, online),
        names_distinct(status_view(final(st)@)),
{
    let ghost before = status_view(st@);
    match status_index(st, name) {
        Some(k) => {
            proof {
                assert(before[k as int].0 == name@);
                lemma_pos_unique(before, name@, k as int);
                lemma_update_distinct(before, k as int, name@, online);
            }
            st.set(k, ReviewerStatus { name: owned(name), online });
            assert(status_view(st@) =~= before.update(k as int, (name@, online)));
        },
        None => {
            st.push(ReviewerStatus { name: owned(name), online });
            assert(status_view(st@) =~= before.push((name@, online)));
            assert forall|i: int, j: int| 0 <= i < j < status_view(st@).len() implies status_view(st@)[i].0
                != status_view(st@)[j].0 by {
                if j == before.len() {
                    assert(status_view(st@)[i].0 == before[i].0);
                }
            }
        },
    }
}

/// Sets every entry of the table to `online`.
fn set_all_status(st: &mut Vec<ReviewerStatus>, online: bool)
    requires
        names_distinct(status_view(old(st)@)),
    ensures
        status_view(final(st)@) == status_view(old(st)@).map_values(|e: (Seq<char>, bool)| (e.0, online)),
        names_distinct(status_view(final(st)@)),
{
    let ghost before = status_view(st@);
    let mut k: usize = 0;
    while k < st.len()
        invariant
            k <= st.len() == before.len(),
            forall|j: int| 0 <= j < k ==> #[trigger] status_view(st@)[j] == (before[j].0, online),
            forall|j: int| k <= j < st.len() ==> #[trigger] status_view(st@)[j] == before[j],
        decreases st.len() - k,
    {
        assert(status_view(st@)[k as int] == before[k as int]);
        let name = st[k].name.clone();
        let ghost prev = st@;
        st.set(k, ReviewerStatus { name, online });
        proof {
            assert(status_view(st@)[k as int] == (before[k as int].0, online));
            assert forall|j: int| 0 <= j < st@.len() && j != k implies #[trigger] status_view(st@)[j] == status_view(
                prev,
            )[j] by {
                assert(st@[j] == prev[j]);
            }
        }
        k += 1;
    }
    assert(status_view(st@) =~= before.map_values(|e: (Seq<char>, bool)| (e.0, online)));
}

/// The text Cody is told when a critic has posted.
pub fn posted_notice_text(speaker: &str, frame: u64, topic: &str) -> (r: String)
    ensures
        r@ == posted_notice(speaker@, frame, topic@),
{
    let mut r = owned(speaker);
    r.append(" posted FRAME #");
    r.append(decimal(frame).as_str());
    r.append(" — ");
    r.append(topic);
    r.append(". Check the tape.");
    r
}

/// The text Cody is told when a scraped review has been pushed.
pub fn scraped_notice_text(display_name: &str) -> (r: String)
    ensures
        r@ == scraped_notice(display_name@),
{
    let mut r = owned(display_name);
    r.append(" review scraped and pushed. Check the tape.");
    r
}

/// The status report for the table and queue length.
fn status_report_text(st: &Vec<ReviewerStatus>, queue_len: usize) -> (r: String)
    ensures
        r@ == status_report(status_view(st@), queue_len as nat),
{
    let ghost entries = status_view(st@).map_values(|e: (Seq<char>, bool)| status_entry(e));
    let mut r = owned("{\"critics\":{");
    let ghost head = r@;
    let mut k: usize = 0;
    while k < st.len()
        invariant
            k <= st.len(),
            entries == status_view(st@).map_values(|e: (Seq<char>, bool)| status_entry(e)),
            r@ == head + join_seq(entries.take(k as int), ","@),
        decreases st.len() - k,
    {
        let ghost before = r@;
        if k != 0 {
            r.append(",");
        }
        r.append("\"");
        r.append(st[k].name.as_str());
        r.append("\":\"");
        if st[k].online {
            r.append("online");
        } else {
            r.append("offline");
        }
        r.append("\"");
        proof {
            let t = entries.take(k + 1);
            assert(t.drop_last() =~= entries.take(k as int));
            assert(t.last() == status_entry(status_view(st@)[k as int]));
            if k == 0 {
                assert(join_seq(t, ","@) == t[0]);
                assert(r@ =~= head + t[0]);
            } else {
                assert(r@ =~= head + join_seq(entries.take(k as int), ","@) + ","@ + t.last());
            }
        }
        k += 1;
    }
    assert(entries.take(st.len() as int) =~= entries);
    r.append("},\"queue_length\":");
    r.append(decimal(queue_len as u64).as_str());
    r.append("}");
    r
}

/// The text of a notification's content (see `content_seq`).
pub fn event_content(event: &PlazaEvent) -> (r: String)
    ensures
        r@ == content_seq(*event),
{
    if !event.content_b64.as_str().is_empty() {
        match base64_decode(event.content_b64.as_str()) {
            Some(decoded) => match utf8_decode(decoded.as_slice()) {
                Some(s) => s,
                None => event.topic.clone(),
            },
            None => event.topic.clone(),
        }
    } else {
        event.topic.clone()
    }
}

/// The websocket address of the first page tab matched by title or URL (see `find_tab_seq`).
pub fn find_tab_ws(tabs: &Vec<TabInfo>, tab_match: &str) -> (r: Option<String>)
    ensures
        opt_view(r) == find_tab_seq(tabs@, tab_match@),
{
    let lower = tab_match.to_lowercase();
    let mut k: usize = 0;
    assert(tabs@.skip(0) =~= tabs@);
    while k < tabs.len()
        invariant
            k <= tabs.len(),
            lower@ == lowercase_of(tab_match@),
            find_tab_seq(tabs@, tab_match@) == find_tab_seq(tabs@.skip(k as int), tab_match@),
        decreases tabs.len() - k,
    {
        let t = &tabs[k];
        proof {
            assert(tabs@.skip(k as int)[0] == tabs@[k as int]);
            assert(tabs@.skip(k as int).drop_first() =~= tabs@.skip(k + 1));
        }
        let url = match &t.url {
            Some(u) => u.as_str().to_lowercase(),
            None => { return None; },
        };
        let tab_type = match &t.tab_type {
            Some(ty) => ty,
            None => { return None; },
        };
        let title_hit = match &t.title {
            Some(title) => str_contains(title.as_str().to_lowercase().as_str(), lower.as_str()),
            None => false,
        };
        if str_eq(tab_type.as_str(), "page") && (str_contains(url.as_str(), lower.as_str()) || title_hit)
            && !str_contains(url.as_str(), "codex/cloud") {
            return match &t.ws_url {
                Some(w) => Some(w.clone()),
                None => None,
            };
        }
        k += 1;
    }
    None
}

/// The position of the first page whose URL matches (see `page_matches`).
pub fn find_page(urls: &Vec<String>, tab_match: &str) -> (r: Option<usize>)
    ensures
        r matches Some(k) ==> k < urls@.len() && page_matches(urls@[k as int]@, tab_match@) && forall|j: int|
            0 <= j < k ==> !page_matches(#[trigger] urls@[j]@, tab_match@),
        r is None ==> forall|j: int| 0 <= j < urls@.len() ==> !page_matches(#[trigger] urls@[j]@, tab_match@),
{
    let lower = tab_match.to_lowercase();
    let mut k: usize = 0;
    while k < urls.len()
        invariant
            k <= urls.len(),
            lower@ == lowercase_of(tab_match@),
            forall|j: int| 0 <= j < k ==> !page_matches(#[trigger] urls@[j]@, tab_match@),
        decreases urls.len() - k,
    {
        let url = urls[k].as_str().to_lowercase();
        if str_contains(url.as_str(), lower.as_str()) && !str_contains(url.as_str(), "codex/cloud") {
            return Some(k);
        }
        k += 1;
    }
    None
}

} // verus!
