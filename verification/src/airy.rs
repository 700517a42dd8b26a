//! Talking to the browser assistant through Chrome's DevTools: which tab is
//! its chat, the script that reads its newest answer, and when an answer
//! counts as finished.
use vstd::prelude::*;
use crate::dispatch::opt_view;
use crate::text::{has_subseq, lowercase_of, owned, signed_decimal, signed_decimal_seq, str_contains};
use crate::tts::byte_len;

verus! {

/// How many times the chat is polled for an answer (every two seconds).
pub const AIRY_POLLS: u32 = 30;

/// The error when no answer came within the polls.
pub const AIRY_TIMEOUT: &'static str = "Timeout waiting for Airy's response";

/// A tab as the DevTools listing describes it.
pub struct PageInfo {
    pub url: Option<String>,
    pub title: Option<String>,
    pub ws_url: Option<String>,
}

/// A missing field reads as the empty text.
pub open spec fn or_empty(o: Option<String>) -> Seq<char> {
    match o {
        Some(s) => s@,
        None => Seq::empty(),
    }
}

/// A tab is the chat when its URL, or its title in lower case, contains the
/// pattern, and its URL is none of the pages that merely embed the site.
pub open spec fn airy_candidate(url: Seq<char>, title: Seq<char>, m: Seq<char>) -> bool {
    &&& (has_subseq(url, m) || has_subseq(lowercase_of(title), m))
    &&& !has_subseq(url, "accounts.google"@)
    &&& !has_subseq(url, "youtube"@)
    &&& !has_subseq(url, "stripe"@)
    &&& !has_subseq(url, "blob:"@)
}

/// The websocket address of the first candidate tab, in listing order.
pub open spec fn find_airy_seq(pages: Seq<PageInfo>, m: Seq<char>) -> Option<Seq<char>>
    decreases pages.len(),
{
    if pages.len() == 0 {
        None
    } else if airy_candidate(or_empty(pages[0].url), or_empty(pages[0].title), m) {
        opt_view(pages[0].ws_url)
    } else {
        find_airy_seq(pages.drop_first(), m)
    }
}

/// The websocket address of the chat tab (see `find_airy_seq`).
pub fn find_airy_tab(pages: &Vec<PageInfo>, tab_match: &str) -> (r: Option<String>)
    ensures
        opt_view(r) == find_airy_seq(pages@, tab_match@),
{
    let mut k: usize = 0;
    assert(pages@.skip(0) =~= pages@);
    while k < pages.len()
        invariant
            k <= pages.len(),
            find_airy_seq(pages@, tab_match@) == find_airy_seq(pages@.skip(k as int), tab_match@),
        decreases pages.len() - k,
    {
        let p = &pages[k];
        proof {
            assert(pages@.skip(k as int)[0] == pages@[k as int]);
            assert(pages@.skip(k as int).drop_first() =~= pages@.skip(k + 1));
        }
        let url = match &p.url {
            Some(u) => u.clone(),
            None => String::new(),
        };
        let title_raw = match &p.title {
            Some(t) => t.clone(),
            None => String::new(),
        };
        let title = title_raw.as_str().to_lowercase();
        let hit = (str_contains(url.as_str(), tab_match) || str_contains(title.as_str(), tab_match))
            && !str_contains(url.as_str(), "accounts.google") && !str_contains(url.as_str(), "youtube")
            && !str_contains(url.as_str(), "stripe") && !str_contains(url.as_str(), "blob:");
        if hit {
            return match &p.ws_url {
                Some(w) => Some(w.clone()),
                None => None,
            };
        }
        k += 1;
    }
    None
}

/// The error when no tab matches the chat's pattern.
pub fn no_tab_error(tab_match: &str) -> (r: String)
    ensures
        r@ == "No "@ + tab_match@ + " tab found in Chrome"@,
{
    let mut r = owned("No ");
    r.append(tab_match);
    r.append(" tab found in Chrome");
    r
}

/// The script that returns the text of the newest answer (the last element
/// matching `selectors`) once there are more than `before` of them on the
/// page, and the empty text until then.
pub open spec fn scrape_script_seq(selectors: Seq<char>, before: int) -> Seq<char> {
    "(() => {\n                const msgs = document.querySelectorAll('"@ + selectors
        + "');\n                if (msgs.length > "@ + signed_decimal_seq(before)
        + ") {\n                    const last = msgs[msgs.length - 1];\n                    return last.innerText?.trim() || '';\n                }\n                return '';\n            })()"@
}

/// The polling script for a chat whose answers match `selectors` and that
/// had `before` answers when the prompt was sent (see `scrape_script_seq`).
pub fn scrape_script(selectors: &str, before: i64) -> (r: String)
    ensures
        r@ == scrape_script_seq(selectors@, before as int),
{
    let mut r = owned("(() => {\n                const msgs = document.querySelectorAll('");
    r.append(selectors);
    r.append("');\n                if (msgs.length > ");
    r.append(signed_decimal(before).as_str());
    r.append(") {\n                    const last = msgs[msgs.length - 1];\n                    return last.innerText?.trim() || '';\n                }\n                return '';\n            })()");
    r
}

/// A polled answer is worth confirming when it is longer than five bytes:
/// then its length is kept to compare with the next read.
pub fn awaiting_confirmation(text: &str) -> (r: Option<usize>)
    ensures
        byte_len(text@) > 5 ==> r == Some(byte_len(text@) as usize),
        byte_len(text@) <= 5 ==> r is None,
{
    let n = text.len();
    if n > 5 {
        Some(n)
    } else {
        None
    }
}

/// The second read finishes the answer when it has not shrunk since the first.
pub fn confirmed_reply(prev_len: usize, final_text: String) -> (r: Option<String>)
    ensures
        byte_len(final_text@) >= prev_len ==> r == Some(final_text),
        byte_len(final_text@) < prev_len ==> r is None,
{
    if final_text.as_str().len() >= prev_len {
        Some(final_text)
    } else {
        None
    }
}


/// What one poll gives: where the first read is longer than five bytes and
/// the read taken three seconds later has not shrunk, that later read is the
/// answer; otherwise the poll gives none.
pub open spec fn poll_answer(first: Seq<char>, second: Option<Seq<char>>) -> Option<Seq<char>> {
    if byte_len(first) > 5 {
        match second {
            Some(t) => if byte_len(t) >= byte_len(first) {
                Some(t)
            } else {
                None
            },
            None => None,
        }
    } else {
        None
    }
}

/// Waiting for the chat's answer: the polls made so far and the answer,
/// once one was confirmed.
pub struct AiryChat {
    pub polls: u32,
    pub answer: Option<String>,
}

impl AiryChat {
    /// No more than `AIRY_POLLS` polls, and an answer is always longer than
    /// five bytes.
    pub open spec fn wf(&self) -> bool {
        &&& self.polls <= AIRY_POLLS
        &&& self.answer matches Some(a) ==> byte_len(a@) > 5
    }

    /// Nothing polled yet.
    pub fn new() -> (r: AiryChat)
        ensures
            r.wf(),
            r.polls == 0,
            r.answer is None,
    {
        AiryChat { polls: 0, answer: None }
    }

    /// Whether another poll is due: no answer yet and fewer than
    /// `AIRY_POLLS` polls made.
    pub fn should_poll(&self) -> (r: bool)
        ensures
            r == (self.answer is None && self.polls < AIRY_POLLS),
    {
        self.answer.is_none() && self.polls < AIRY_POLLS
    }

    /// Whether the first read of a poll calls for a second one, three
    /// seconds later (see `awaiting_confirmation`).
    pub fn wants_second_read(&self, first: &str) -> (r: bool)
        ensures
            r == (byte_len(first@) > 5),
    {
        awaiting_confirmation(first).is_some()
    }

    /// Records one poll: its first read, and the second read where one was
    /// taken.
    pub fn record(&mut self, first: &str, second: Option<String>)
        requires
            old(self).wf(),
            old(self).answer is None,
            old(self).polls < AIRY_POLLS,
        ensures
            final(self).wf(),
            final(self).polls == old(self).polls + 1,
            opt_view(final(self).answer) == poll_answer(first@, opt_view(second)),
    {
        self.polls = self.polls + 1;
        if let Some(prev_len) = awaiting_confirmation(first) {
            if let Some(text) = second {
                self.answer = confirmed_reply(prev_len, text);
            }
        }
    }

    /// How the wait ended: the confirmed answer, or the timeout error when
    /// none came.
    pub fn outcome(&self) -> (r: Result<String, String>)
        ensures
            match self.answer {
                Some(a) => (r matches Ok(t) && t@ == a@),
                None => (r matches Err(e) && e@ == AIRY_TIMEOUT@),
            },
    {
        match &self.answer {
            Some(a) => Ok(a.clone()),
            None => Err(owned(AIRY_TIMEOUT)),
        }
    }
}

/// Whatever the chat shows, what a poll hands back as the answer is the
/// second read, longer than five bytes and no shorter than the first read
/// before it.
pub proof fn lemma_airy_answer_is_confirmed(first: Seq<char>, second: Option<Seq<char>>)
    ensures
        poll_answer(first, second) matches Some(t) ==> byte_len(t) > 5 && second == Some(t)
            && byte_len(t) >= byte_len(first),
{
}

} // verus!
