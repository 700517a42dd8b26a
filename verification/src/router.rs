//! The router's modes: where recognised speech goes in each, how the mode
//! is switched over HTTP, and when the audio bridge to the browser runs.
use vstd::prelude::*;
use crate::text::{owned, str_eq};

verus! {

/// Speech is dropped.
pub const MODE_OFF: u8 = 0;
/// Speech is typed into the focused window.
pub const MODE_CONSOLE: u8 = 1;
/// Speech goes to the language model.
pub const MODE_LLM: u8 = 2;
/// The microphone is bridged to the browser assistant; speech text is dropped.
pub const MODE_AIRY: u8 = 3;

/// A mode's name.
pub open spec fn mode_name_seq(m: u8) -> Seq<char> {
    if m == MODE_OFF {
        "off"@
    } else if m == MODE_CONSOLE {
        "console"@
    } else if m == MODE_LLM {
        "llm"@
    } else if m == MODE_AIRY {
        "airy"@
    } else {
        "unknown"@
    }
}

/// A mode's name (see `mode_name_seq`).
pub fn mode_name(m: u8) -> (r: &'static str)
    ensures
        r@ == mode_name_seq(m),
{
    if m == MODE_OFF {
        "off"
    } else if m == MODE_CONSOLE {
        "console"
    } else if m == MODE_LLM {
        "llm"
    } else if m == MODE_AIRY {
        "airy"
    } else {
        "unknown"
    }
}

/// The mode a request names.
pub open spec fn parse_mode_seq(s: Seq<char>) -> Option<u8> {
    if s == "console"@ {
        Some(MODE_CONSOLE)
    } else if s == "llm"@ {
        Some(MODE_LLM)
    } else if s == "airy"@ {
        Some(MODE_AIRY)
    } else if s == "off"@ {
        Some(MODE_OFF)
    } else {
        None
    }
}

/// The mode a request names (see `parse_mode_seq`).
pub fn parse_mode(s: &str) -> (r: Option<u8>)
    ensures
        r == parse_mode_seq(s@),
{
    if str_eq(s, "console") {
        Some(MODE_CONSOLE)
    } else if str_eq(s, "llm") {
        Some(MODE_LLM)
    } else if str_eq(s, "airy") {
        Some(MODE_AIRY)
    } else if str_eq(s, "off") {
        Some(MODE_OFF)
    } else {
        None
    }
}

/// Where a recognised utterance goes.
pub enum Route {
    Console,
    Llm,
    Dropped,
}

/// Where an utterance goes in mode `m`: empty ones nowhere, and only the
/// console and model modes pass text on.
pub fn route(m: u8, payload_len: usize) -> (r: Route)
    ensures
        payload_len == 0 ==> r is Dropped,
        payload_len > 0 && m == MODE_CONSOLE ==> r is Console,
        payload_len > 0 && m == MODE_LLM ==> r is Llm,
        m != MODE_CONSOLE && m != MODE_LLM ==> r is Dropped,
{
    if payload_len == 0 {
        Route::Dropped
    } else if m == MODE_CONSOLE {
        Route::Console
    } else if m == MODE_LLM {
        Route::Llm
    } else {
        Route::Dropped
    }
}

/// `{"mode":"<name>"}`.
pub open spec fn mode_json_seq(name: Seq<char>) -> Seq<char> {
    "{\"mode\":\""@ + name + "\"}"@
}

/// The answer to a status request (see `mode_json_seq`).
pub fn status_json(m: u8) -> (r: String)
    ensures
        r@ == mode_json_seq(mode_name_seq(m)),
{
    let mut r = owned("{\"mode\":\"");
    r.append(mode_name(m));
    r.append("\"}");
    r
}

/// What the bridge process has to do on a mode change.
pub struct BridgeChange {
    pub stop: bool,
    pub start: bool,
}

/// The router's state: its mode and whether the bridge process runs.
pub struct RouterState {
    pub mode: u8,
    pub bridge_running: bool,
}

/// The state after a request, the bridge start succeeding when made: the
/// named mode, and the bridge running exactly in airy mode.
pub open spec fn switch_seq(st: (u8, bool), req: Seq<char>) -> (u8, bool) {
    match parse_mode_seq(req) {
        Some(m) => {
            let bridge = if st.0 == MODE_AIRY && m != MODE_AIRY {
                false
            } else if m == MODE_AIRY && st.0 != MODE_AIRY {
                true
            } else {
                st.1
            };
            (m, bridge)
        },
        None => st,
    }
}

/// The state after a run of requests from the start (console mode, no bridge).
pub open spec fn router_after(reqs: Seq<Seq<char>>) -> (u8, bool)
    decreases reqs.len(),
{
    if reqs.len() == 0 {
        (MODE_CONSOLE, false)
    } else {
        switch_seq(router_after(reqs.drop_last()), reqs.last())
    }
}

impl RouterState {
    /// Console mode, no bridge.
    pub fn new() -> (r: RouterState)
        ensures
            r.mode == MODE_CONSOLE,
            !r.bridge_running,
    {
        RouterState { mode: MODE_CONSOLE, bridge_running: false }
    }

    /// A request to switch to the mode named `req`. A known mode is taken
    /// and answered with `{"mode":"<req>"}`; leaving airy mode stops the
    /// bridge and entering it starts the bridge. An unknown name changes
    /// nothing and is answered with an error.
    pub fn switch(&mut self, req: &str) -> (r: (String, BridgeChange))
        ensures
            match parse_mode_seq(req@) {
                Some(m) => {
                    &&& r.0@ == mode_json_seq(req@)
                    &&& final(self).mode == m
                    &&& r.1.stop == (old(self).mode == MODE_AIRY && m != MODE_AIRY)
                    &&& r.1.start == (m == MODE_AIRY && old(self).mode != MODE_AIRY)
                    &&& (final(self).mode, final(self).bridge_running) == switch_seq(
                        (old(self).mode, old(self).bridge_running),
                        req@,
                    )
                },
                None => {
                    &&& r.0@ == "{\"error\":\"unknown mode: "@ + req@ + "\"}"@
                    &&& !r.1.stop && !r.1.start
                    &&& *final(self) == *old(self)
                },
            },
    {
        match parse_mode(req) {
            Some(m) => {
                let old_mode = self.mode;
                self.mode = m;
                let stop = old_mode == MODE_AIRY && m != MODE_AIRY;
                let start = m == MODE_AIRY && old_mode != MODE_AIRY;
                if stop {
                    self.bridge_running = false;
                }
                if start {
                    self.bridge_running = true;
                }
                let mut reply = owned("{\"mode\":\"");
                reply.append(req);
                reply.append("\"}");
                (reply, BridgeChange { stop, start })
            },
            None => {
                let mut reply = owned("{\"error\":\"unknown mode: ");
                reply.append(req);
                reply.append("\"}");
                (reply, BridgeChange { stop: false, start: false })
            },
        }
    }

    /// The bridge process could not be started.
    pub fn bridge_failed(&mut self)
        ensures
            final(self).mode == old(self).mode,
            !final(self).bridge_running,
    {
        self.bridge_running = false;
    }
}

/// The bridge runs exactly while the router is in airy mode, whatever
/// requests came, as long as each start of the bridge succeeded.
pub proof fn lemma_bridge_follows_mode(reqs: Seq<Seq<char>>)
    ensures
        router_after(reqs).1 == (router_after(reqs).0 == MODE_AIRY),
    decreases reqs.len(),
{
    if reqs.len() > 0 {
        lemma_bridge_follows_mode(reqs.drop_last());
    }
}

/// A mode's name names that mode again.
pub proof fn lemma_mode_name_roundtrip(m: u8)
    requires
        m <= MODE_AIRY,
    ensures
        parse_mode_seq(mode_name_seq(m)) == Some(m),
{
    reveal_strlit("off");
    reveal_strlit("console");
    reveal_strlit("llm");
    reveal_strlit("airy");
    assert("off"@ != "console"@ && "off"@ != "llm"@ && "off"@ != "airy"@) by {
        assert("off"@.len() != "console"@.len());
        assert("off"@[0] != "llm"@[0]);
        assert("off"@[0] != "airy"@[0]);
    }
    assert("llm"@ != "console"@) by {
        assert("llm"@.len() != "console"@.len());
    }
    assert("airy"@ != "console"@ && "airy"@ != "llm"@) by {
        assert("airy"@.len() != "console"@.len());
        assert("airy"@.len() != "llm"@.len());
    }
}

} // verus!
