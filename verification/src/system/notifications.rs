//! Desktop notifications: the request that is sent over the session bus.
use vstd::prelude::*;

use crate::text::owned;

verus! {

/// The arguments of `org.freedesktop.Notifications.Notify`, without hints.
pub struct NotifyRequest {
    pub app_name: String,
    pub replaces_id: u32,
    pub app_icon: String,
    pub summary: String,
    pub body: String,
    pub actions: Vec<String>,
    /// `-1`: the server's default expiry.
    pub expire_timeout: i32,
}

/// The notification to send, or `None` where the session bus could not be
/// reached: then nothing is sent, and that is no failure.
pub fn send_system_notification(summary: &str, body: &str, session_bus: bool) -> (res: Option<NotifyRequest>)
    ensures
        match res {
            Some(r) => session_bus && r.app_name@ == "rKlipperScreen"@ && r.replaces_id == 0
                && r.app_icon@ == "printer"@ && r.summary@ == summary@ && r.body@ == body@
                && r.actions@.len() == 0 && r.expire_timeout == -1,
            None => !session_bus,
        },
{
    if !session_bus {
        return None;
    }
    Some(
        NotifyRequest {
            app_name: owned("rKlipperScreen"),
            replaces_id: 0,
            app_icon: owned("printer"),
            summary: owned(summary),
            body: owned(body),
            actions: Vec::new(),
            expire_timeout: -1,
        },
    )
}

} // verus!
