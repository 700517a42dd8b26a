//! Settings and webhook answer of the gateway that converts call audio itself.
use vstd::prelude::*;
use crate::call::{stream_twiml, twiml_seq, ws_url, ws_url_seq};
use crate::text::owned;

verus! {

/// Where the gateway is reached and which number it calls from.
pub struct TwilioConfig {
    pub twilio_from: String,
    pub server_url: String,
    pub port: u16,
}

/// The calling number used when the configuration names none.
pub fn d_from() -> (r: String)
    ensures
        r@ == "+18136076219"@,
{
    owned("+18136076219")
}

/// The public server address used when the configuration names none.
pub fn d_url() -> (r: String)
    ensures
        r@ == "https://emils-macbook-pro.tail12e909.ts.net"@,
{
    owned("https://emils-macbook-pro.tail12e909.ts.net")
}

/// The port used when the configuration names none.
pub fn d_port() -> (r: u16)
    ensures
        r == 5050,
{
    5050
}

impl Default for TwilioConfig {
    fn default() -> (r: Self)
        ensures
            r.twilio_from@ == "+18136076219"@,
            r.server_url@ == "https://emils-macbook-pro.tail12e909.ts.net"@,
            r.port == 5050,
    {
        TwilioConfig { twilio_from: d_from(), server_url: d_url(), port: d_port() }
    }
}

impl TwilioConfig {
    /// The answer to an incoming call: stream it to this server's `/ws`.
    pub fn voice_twiml(&self) -> (r: String)
        ensures
            r@ == twiml_seq(ws_url_seq(self.server_url@), None),
    {
        let ws = ws_url(self.server_url.as_str());
        stream_twiml(ws.as_str(), None)
    }
}

} // verus!
