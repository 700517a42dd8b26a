//! Settings and webhook answers of the gateway that passes raw call audio to the bus.
use vstd::prelude::*;
use crate::call::{stream_twiml, twiml_seq, ws_url, ws_url_seq};
use crate::text::owned;

verus! {

/// Where the gateway is reached.
pub struct WebConfig {
    pub server_url: String,
    pub port: u16,
}

/// The greeting before a call to the assistant is connected.
pub const WELCOME: &'static str = "Welcome to Sparked Matter. One moment please.";

/// The greeting before a call is patched through to the browser assistant.
pub const PATCH_THROUGH: &'static str = "Patching you through to Airy. One moment.";

/// The public server address used when the configuration names none.
pub fn d_url() -> (r: String)
    ensures
        r@ == "https://emils-macbook-pro.tail12e909.ts.net"@,
{
    owned("https://emils-macbook-pro.tail12e909.ts.net")
}

/// The port used when the configuration names none.
pub fn d_port() -> (r: u16)
    ensures
        r == 5050,
{
    5050
}

impl Default for WebConfig {
    fn default() -> (r: Self)
        ensures
            r.server_url@ == "https://emils-macbook-pro.tail12e909.ts.net"@,
            r.port == 5050,
    {
        WebConfig { server_url: d_url(), port: d_port() }
    }
}

impl WebConfig {
    /// The answer to a call for the assistant: greet, then stream to `/ws`.
    pub fn voice_twiml(&self) -> (r: String)
        ensures
            r@ == twiml_seq(ws_url_seq(self.server_url@), Some(WELCOME@)),
    {
        let ws = ws_url(self.server_url.as_str());
        stream_twiml(ws.as_str(), Some(WELCOME))
    }

    /// The answer to a call for the browser assistant: greet, then stream to `/ws`.
    pub fn bridge_twiml(&self) -> (r: String)
        ensures
            r@ == twiml_seq(ws_url_seq(self.server_url@), Some(PATCH_THROUGH@)),
    {
        let ws = ws_url(self.server_url.as_str());
        stream_twiml(ws.as_str(), Some(PATCH_THROUGH))
    }
}

} // verus!
