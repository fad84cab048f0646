//! The connection status shown to the user.

use vstd::prelude::*;
use crate::client::LcuReply;
use crate::number::{decimal_u64, decimal_digits};
use crate::text::joined;

verus! {

/// Whether the League Client answers, with a message for the user and the
/// port in use when one was found.
#[derive(Debug, Clone)]
pub struct LcuStatus {
    pub connected: bool,
    pub message: String,
    pub port: Option<u16>,
}

/// The status when no client credentials were found.
pub fn status_without_client() -> (s: LcuStatus)
    ensures
        !s.connected,
        s.message@ == "League Client not found (no port/auth)."@,
        s.port is None,
{
    LcuStatus {
        connected: false,
        message: "League Client not found (no port/auth).".to_owned(),
        port: None,
    }
}

/// The message for the reply of the current-summoner probe.
pub open spec fn probe_message(reply: LcuReply) -> Seq<char> {
    match reply {
        Ok((status, _)) => if status == 200 {
            "Connected to League Client."@
        } else {
            "LCU returned status "@ + decimal_digits(status as nat) + "."@
        },
        Err(e) => "LCU request failed: "@ + e@,
    }
}

/// The status after probing the current-summoner endpoint of the client on
/// `port`: connected exactly when the client answered 200.
pub fn status_from_probe(port: u16, reply: &LcuReply) -> (s: LcuStatus)
    ensures
        s.connected == (reply matches Ok((status, _)) && status == 200),
        s.message@ == probe_message(*reply),
        s.port == Some(port),
{
    match reply {
        Ok((status, _)) => {
            if *status == 200 {
                LcuStatus { connected: true, message: "Connected to League Client.".to_owned(), port: Some(port) }
            } else {
                let mut message = "LCU returned status ".to_owned();
                let code = decimal_u64(*status as u64);
                message.append(code.as_str());
                message.append(".");
                LcuStatus { connected: false, message, port: Some(port) }
            }
        },
        Err(e) => LcuStatus {
            connected: false,
            message: joined("LCU request failed: ", e.as_str()),
            port: Some(port),
        },
    }
}

} // verus!
