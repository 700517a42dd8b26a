//! Collecting a browser critic's answer: polling the page until it shows
//! a finished answer, checking what came back, and where in the review
//! repository it is written and committed.
use vstd::prelude::*;
use crate::plaza::PlazaConfig;
use crate::text::{decimal, decimal_seq, owned, str_eq, str_starts_with};
use crate::tts::{byte_len, views};

verus! {

/// How many times the page is polled for the answer.
pub const SCRAPE_ATTEMPTS: u32 = 24;

/// An answer shorter than this many bytes is not taken.
pub const MIN_SCRAPE_BYTES: usize = 20;

/// An answer longer than this many bytes is not taken.
pub const MAX_SCRAPE_BYTES: usize = 50000;

/// What one poll of the page reported.
pub enum PollReply {
    /// The page shows a finished answer with this text.
    Scraped { text: String },
    /// The critic is still writing.
    Streaming,
    /// Anything else (no answer on the page yet).
    Other,
}

/// The marker in front of a finished answer.
pub open spec fn scraped_marker() -> Seq<char> {
    "SCRAPED:"@
}

/// The answer a poll reply carries: what follows the marker, if it starts with it.
pub open spec fn scraped_seq(reply: Seq<char>) -> Option<Seq<char>> {
    if reply.len() >= 8 && reply.take(8) == scraped_marker() {
        Some(reply.skip(8))
    } else {
        None
    }
}

/// Reads one poll reply (see `scraped_seq`; "streaming" means not finished).
pub fn classify_poll(reply: &str) -> (r: PollReply)
    ensures
        match scraped_seq(reply@) {
            Some(t) => r matches PollReply::Scraped { text } && text@ == t,
            None => if reply@ == "streaming"@ {
                r is Streaming
            } else {
                r is Other
            },
        },
{
    proof {
        reveal_strlit("SCRAPED:");
    }
    if str_starts_with(reply, "SCRAPED:") {
        let v = crate::text::chars_of(reply);
        let text = crate::text::string_of_range(&v, 8, v.len());
        assert(v@.subrange(8, v@.len() as int) =~= reply@.skip(8));
        PollReply::Scraped { text }
    } else if str_eq(reply, "streaming") {
        PollReply::Streaming
    } else {
        PollReply::Other
    }
}

/// Progress of the polls for one answer.
pub struct ScrapeProgress {
    /// Polls made so far.
    pub attempts: u32,
    /// The answer, once a poll returned one.
    pub text: Option<String>,
}

impl ScrapeProgress {
    /// No poll made yet.
    pub fn new() -> (r: ScrapeProgress)
        ensures
            r.attempts == 0,
            r.text is None,
    {
        ScrapeProgress { attempts: 0, text: None }
    }

    /// Whether another poll is due: no answer yet and fewer than
    /// `SCRAPE_ATTEMPTS` polls made.
    pub fn should_poll(&self) -> (r: bool)
        ensures
            r == (self.text is None && self.attempts < SCRAPE_ATTEMPTS),
    {
        self.text.is_none() && self.attempts < SCRAPE_ATTEMPTS
    }

    /// Records one poll; `reply` is `None` where the poll failed or timed out.
    /// A finished answer ends the polling, even an empty one.
    pub fn record(&mut self, reply: Option<&str>)
        requires
            old(self).text is None,
            old(self).attempts < SCRAPE_ATTEMPTS,
        ensures
            final(self).attempts == old(self).attempts + 1,
            match reply {
                Some(s) => opt_seq(final(self).text) == scraped_seq(s@),
                None => final(self).text is None,
            },
    {
        self.attempts = self.attempts + 1;
        if let Some(s) = reply {
            if let PollReply::Scraped { text } = classify_poll(s) {
                self.text = Some(text);
            }
        }
    }

    /// The answer collected: what the first finished poll carried, or the
    /// empty text when none came.
    pub fn answer(&self) -> (r: String)
        ensures
            r@ == match self.text {
                Some(t) => t@,
                None => Seq::<char>::empty(),
            },
    {
        match &self.text {
            Some(t) => t.clone(),
            None => String::new(),
        }
    }
}

/// An optional string as an optional character sequence.
pub open spec fn opt_seq(o: Option<String>) -> Option<Seq<char>> {
    match o {
        Some(s) => Some(s@),
        None => None,
    }
}

/// Why a collected answer is not written.
pub enum ScrapeError {
    Empty,
    TooShort { bytes: usize },
    TooLarge { bytes: usize },
}

/// Checks an answer's size in UTF-8 bytes: it must be present, at least
/// `MIN_SCRAPE_BYTES` and at most `MAX_SCRAPE_BYTES`.
pub fn validate_scrape(text: &str) -> (r: Result<(), ScrapeError>)
    ensures
        byte_len(text@) == 0 ==> r matches Err(ScrapeError::Empty),
        0 < byte_len(text@) < MIN_SCRAPE_BYTES ==> (r matches Err(ScrapeError::TooShort { bytes })
            && bytes == byte_len(text@)),
        byte_len(text@) > MAX_SCRAPE_BYTES ==> (r matches Err(ScrapeError::TooLarge { bytes })
            && bytes == byte_len(text@)),
        MIN_SCRAPE_BYTES <= byte_len(text@) <= MAX_SCRAPE_BYTES ==> r is Ok,
{
    let n = text.len();
    if n == 0 {
        Err(ScrapeError::Empty)
    } else if n < MIN_SCRAPE_BYTES {
        Err(ScrapeError::TooShort { bytes: n })
    } else if n > MAX_SCRAPE_BYTES {
        Err(ScrapeError::TooLarge { bytes: n })
    } else {
        Ok(())
    }
}

// ---------------------------------------------------------------------------
// Where answers go.
// ---------------------------------------------------------------------------

/// `a/b`.
pub open spec fn path2(a: Seq<char>, b: Seq<char>) -> Seq<char> {
    a + "/"@ + b
}

/// `a` and `b` joined by `/`.
pub fn join_path(a: &str, b: &str) -> (r: String)
    ensures
        r@ == path2(a@, b@),
{
    let mut r = owned(a);
    r.append("/");
    r.append(b);
    r
}

/// The repository an answer is committed to, its branch, and the directory
/// of entry files in it.
pub struct ScrapeTarget {
    pub repo_path: String,
    pub branch: String,
    pub blessings_dir: String,
}

/// The repository checkout used when none is given: under the home directory.
pub open spec fn default_repo_seq(home: Seq<char>) -> Seq<char> {
    home + "/dodo-bird-c3-tion-777333"@
}

impl ScrapeTarget {
    /// The target from the environment's settings, each optional: the
    /// checkout defaults to one under `home` (empty when unknown), the branch
    /// to "main", the directory to "blessings".
    pub fn from_settings(
        repo_path: Option<String>,
        home: Option<String>,
        branch: Option<String>,
        blessings_dir: Option<String>,
    ) -> (r: ScrapeTarget)
        ensures
            r.repo_path@ == match repo_path {
                Some(p) => p@,
                None => default_repo_seq(
                    match home {
                        Some(h) => h@,
                        None => Seq::<char>::empty(),
                    },
                ),
            },
            r.branch@ == match branch {
                Some(b) => b@,
                None => "main"@,
            },
            r.blessings_dir@ == match blessings_dir {
                Some(d) => d@,
                None => "blessings"@,
            },
    {
        let repo_path = match repo_path {
            Some(p) => p,
            None => {
                let mut r = match home {
                    Some(h) => h,
                    None => String::new(),
                };
                r.append("/dodo-bird-c3-tion-777333");
                r
            },
        };
        let branch = match branch {
            Some(b) => b,
            None => owned("main"),
        };
        let blessings_dir = match blessings_dir {
            Some(d) => d,
            None => owned("blessings"),
        };
        ScrapeTarget { repo_path, branch, blessings_dir }
    }

    /// The file the answer is written to: `<repo>/<dir>/<entry_file>`.
    pub fn entry_path(&self, entry_file: &str) -> (r: String)
        ensures
            r@ == path2(path2(self.repo_path@, self.blessings_dir@), entry_file@),
    {
        let d = join_path(self.repo_path.as_str(), self.blessings_dir.as_str());
        join_path(d.as_str(), entry_file)
    }

    /// The path given to `git add`, relative to the checkout: `<dir>/<entry_file>`.
    pub fn add_path(&self, entry_file: &str) -> (r: String)
        ensures
            r@ == path2(self.blessings_dir@, entry_file@),
    {
        join_path(self.blessings_dir.as_str(), entry_file)
    }
}

/// The commit message for a scraped answer.
pub open spec fn commit_message_seq(display_name: Seq<char>) -> Seq<char> {
    display_name + " review via plaza-ant scrape"@
}

/// The commit message for a scraped answer (see `commit_message_seq`).
pub fn commit_message(display_name: &str) -> (r: String)
    ensures
        r@ == commit_message_seq(display_name@),
{
    let mut r = owned(display_name);
    r.append(" review via plaza-ant scrape");
    r
}

/// How many pull–add–commit–push rounds are tried before giving up.
pub const PUSH_ROUNDS: u32 = 3;

/// One git command of a publishing round, in the order they run.
#[derive(PartialEq, Eq, Structural, Clone, Copy)]
pub enum GitStep {
    Pull,
    Add,
    Commit,
    Push,
}

/// The arguments given to `git` for `step`.
pub open spec fn git_args_seq(
    step: GitStep,
    target: ScrapeTarget,
    entry_file: Seq<char>,
    display_name: Seq<char>,
) -> Seq<Seq<char>> {
    match step {
        GitStep::Pull => seq!["pull"@, "--no-rebase"@],
        GitStep::Add => seq!["add"@, path2(target.blessings_dir@, entry_file)],
        GitStep::Commit => seq!["commit"@, "-m"@, commit_message_seq(display_name)],
        GitStep::Push => seq!["push"@, "origin"@, target.branch@],
    }
}

/// How publishing a scraped answer stands: rounds finished, the command due
/// next within the current round, and whether a push went through.
pub struct PushRetry {
    pub rounds: u32,
    pub next: GitStep,
    pub pushed: bool,
}

impl PushRetry {
    /// At most `PUSH_ROUNDS` rounds are ever finished, and a successful push
    /// is the last thing that happens.
    pub open spec fn wf(&self) -> bool {
        &&& self.rounds <= PUSH_ROUNDS
        &&& self.pushed ==> self.next == GitStep::Push
    }

    /// Whether nothing more is to be run: the answer was pushed, or every
    /// round failed.
    pub open spec fn done(&self) -> bool {
        self.pushed || self.rounds >= PUSH_ROUNDS
    }

    /// Nothing run yet: the first round starts with a pull.
    pub fn new() -> (r: PushRetry)
        ensures
            r.wf(),
            r.rounds == 0,
            r.next == GitStep::Pull,
            !r.pushed,
    {
        PushRetry { rounds: 0, next: GitStep::Pull, pushed: false }
    }

    /// The arguments of the git command to run next in the checkout, or
    /// `None` once publishing is over.
    pub fn next_command(&self, target: &ScrapeTarget, entry_file: &str, display_name: &str) -> (r: Option<
        Vec<String>,
    >)
        ensures
            self.done() ==> r is None,
            !self.done() ==> (r matches Some(v) && views(v@) == git_args_seq(
                self.next,
                *target,
                entry_file@,
                display_name@,
            )),
    {
        if self.pushed || self.rounds >= PUSH_ROUNDS {
            return None;
        }
        let mut v: Vec<String> = Vec::new();
        match self.next {
            GitStep::Pull => {
                v.push(owned("pull"));
                v.push(owned("--no-rebase"));
            },
            GitStep::Add => {
                v.push(owned("add"));
                v.push(target.add_path(entry_file));
            },
            GitStep::Commit => {
                v.push(owned("commit"));
                v.push(owned("-m"));
                v.push(commit_message(display_name));
            },
            GitStep::Push => {
                v.push(owned("push"));
                v.push(owned("origin"));
                v.push(owned(target.branch.as_str()));
            },
        }
        proof {
            assert(views(v@) =~= git_args_seq(self.next, *target, entry_file@, display_name@));
        }
        Some(v)
    }

    /// The state after the command due next went as told: `started` is
    /// false where git could not be run at all, `succeeded` tells a command
    /// that ran whether it exited successfully. A pull or an add that could
    /// not be run ends the round; the commit's result is not looked at; the
    /// push ends the round, and publishing too when it succeeded.
    pub open spec fn after(self, started: bool, succeeded: bool) -> PushRetry {
        match self.next {
            GitStep::Pull => if started {
                PushRetry { next: GitStep::Add, ..self }
            } else {
                PushRetry { rounds: (self.rounds + 1) as u32, next: GitStep::Pull, ..self }
            },
            GitStep::Add => if started {
                PushRetry { next: GitStep::Commit, ..self }
            } else {
                PushRetry { rounds: (self.rounds + 1) as u32, next: GitStep::Pull, ..self }
            },
            GitStep::Commit => PushRetry { next: GitStep::Push, ..self },
            GitStep::Push => if started && succeeded {
                PushRetry { pushed: true, ..self }
            } else {
                PushRetry { rounds: (self.rounds + 1) as u32, next: GitStep::Pull, ..self }
            },
        }
    }

    /// How many more commands can run at most: four per round left, less
    /// those of the current round already run; none once done.
    pub open spec fn budget(self) -> int {
        if self.done() {
            0
        } else {
            (PUSH_ROUNDS - self.rounds) * 4 - match self.next {
                GitStep::Pull => 0int,
                GitStep::Add => 1int,
                GitStep::Commit => 2int,
                GitStep::Push => 3int,
            }
        }
    }

    /// Records how the command from `next_command` went (see `after`). The
    /// result is whether to pause before the next round: after a failed push.
    pub fn record(&mut self, started: bool, succeeded: bool) -> (pause: bool)
        requires
            old(self).wf(),
            !old(self).done(),
        ensures
            *final(self) == old(self).after(started, succeeded),
            pause == (old(self).next == GitStep::Push && !(started && succeeded)),
    {
        match self.next {
            GitStep::Pull => {
                if started {
                    self.next = GitStep::Add;
                } else {
                    self.rounds = self.rounds + 1;
                }
                false
            },
            GitStep::Add => {
                if started {
                    self.next = GitStep::Commit;
                } else {
                    self.rounds = self.rounds + 1;
                    self.next = GitStep::Pull;
                }
                false
            },
            GitStep::Commit => {
                self.next = GitStep::Push;
                false
            },
            GitStep::Push => {
                if started && succeeded {
                    self.pushed = true;
                    false
                } else {
                    self.rounds = self.rounds + 1;
                    self.next = GitStep::Pull;
                    true
                }
            },
        }
    }

    /// Whether the answer went out.
    pub fn pushed(&self) -> (r: bool)
        ensures
            r == self.pushed,
    {
        self.pushed
    }
}

/// Publishing runs at most four commands in each of `PUSH_ROUNDS` rounds,
/// whatever the commands do: every recorded command keeps the state well
/// formed and uses up budget, which starts at twelve and never goes below
/// zero; and a successful push is the last command run.
pub proof fn lemma_publishing_is_bounded(s: PushRetry, started: bool, succeeded: bool)
    requires
        s.wf(),
        !s.done(),
    ensures
        s.after(started, succeeded).wf(),
        0 <= s.after(started, succeeded).budget() < s.budget() <= 4 * PUSH_ROUNDS,
        s.next == GitStep::Push && started && succeeded ==> s.after(started, succeeded).done(),
        (PushRetry { rounds: 0, next: GitStep::Pull, pushed: false }).budget() == 4 * PUSH_ROUNDS,
{
}

// ---------------------------------------------------------------------------
// The review repository's layout.
// ---------------------------------------------------------------------------

/// The files set up before the first review: the entry directory, the frame
/// counter with its first value, and one entry file per critic.
pub struct BlessingsLayout {
    pub dir: String,
    pub counter_path: String,
    pub counter_text: String,
    pub entry_paths: Vec<String>,
}

impl PlazaConfig {
    /// Where the entry directory, the frame counter and each critic's entry
    /// file lie, and what a new counter file holds.
    pub fn blessings_layout(&self) -> (r: BlessingsLayout)
        ensures
            r.dir@ == path2(self.target.local.repo_path@, self.target.local.blessings_dir@),
            r.counter_path@ == path2(r.dir@, "frame_counter.txt"@),
            r.counter_text@ == decimal_seq(self.frame_counter_start as nat),
            r.entry_paths@.len() == self.reviewers@.len(),
            forall|i: int|
                0 <= i < r.entry_paths@.len() ==> #[trigger] r.entry_paths@[i]@ == path2(
                    r.dir@,
                    self.reviewers@[i].entry_file@,
                ),
    {
        let dir = join_path(self.target.local.repo_path.as_str(), self.target.local.blessings_dir.as_str());
        let counter_path = join_path(dir.as_str(), "frame_counter.txt");
        let counter_text = decimal(self.frame_counter_start);
        let mut entry_paths: Vec<String> = Vec::new();
        let mut i: usize = 0;
        while i < self.reviewers.len()
            invariant
                i <= self.reviewers@.len(),
                entry_paths@.len() == i,
                forall|j: int|
                    0 <= j < i ==> #[trigger] entry_paths@[j]@ == path2(dir@, self.reviewers@[j].entry_file@),
            decreases self.reviewers@.len() - i,
        {
            let p = join_path(dir.as_str(), self.reviewers[i].entry_file.as_str());
            entry_paths.push(p);
            i += 1;
        }
        BlessingsLayout { dir, counter_path, counter_text, entry_paths }
    }
}

// ---------------------------------------------------------------------------
// Reporting a failed browser dispatch.
// ---------------------------------------------------------------------------

/// The report when no tab matches a critic's pattern.
pub open spec fn missing_tab_seq(tab_match: Seq<char>, display_name: Seq<char>, frame: u64) -> Seq<char> {
    "no tab matching '"@ + tab_match + "' — "@ + display_name + " will miss FRAME #"@ + decimal_seq(
        frame as nat,
    )
}

/// The report when no tab matches a critic's pattern (see `missing_tab_seq`).
pub fn missing_tab_message(tab_match: &str, display_name: &str, frame: u64) -> (r: String)
    ensures
        r@ == missing_tab_seq(tab_match@, display_name@, frame),
{
    let mut r = owned("no tab matching '");
    r.append(tab_match);
    r.append("' — ");
    r.append(display_name);
    r.append(" will miss FRAME #");
    r.append(decimal(frame).as_str());
    r
}

/// What focusing the critic's input answered: it worked when the page
/// reports "focused..."; otherwise the report names what the page said.
pub fn focus_result(reply: &str) -> (r: Result<(), String>)
    ensures
        r is Ok <==> ("focused"@.len() <= reply@.len() && reply@.take(7) == "focused"@),
        r matches Err(e) ==> e@ == "could not focus input: "@ + reply@,
{
    proof {
        reveal_strlit("focused");
    }
    if str_starts_with(reply, "focused") {
        Ok(())
    } else {
        let mut e = owned("could not focus input: ");
        e.append(reply);
        Err(e)
    }
}

/// The report when the critic's tab is gone by the time the prompt is typed.
pub fn lost_tab_message(display_name: &str) -> (r: String)
    ensures
        r@ == "lost tab for "@ + display_name@,
{
    let mut r = owned("lost tab for ");
    r.append(display_name);
    r
}

} // verus!
