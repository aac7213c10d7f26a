//! What a clicked system notification asks the shell to do.
use vstd::prelude::*;

verus! {

/// The action attached to a notification, handed to the page when it is clicked.
#[derive(Debug, Clone, PartialEq, Eq)]
pub struct NotificationAction {
    pub kind: String,
    pub session_id: Option<String>,
    pub url: Option<String>,
    pub path: Option<String>,
}

/// The action of the "ready" notification: focus the window at `url`.
pub fn focus_action(url: &str) -> (r: NotificationAction)
    ensures
        r.kind@ == "focus"@,
        r.session_id is None,
        r.url matches Some(u) && u@ == url@,
        r.path is None,
{
    NotificationAction {
        kind: String::from_str("focus"),
        session_id: None,
        url: Some(crate::text::to_string(url)),
        path: None,
    }
}

/// The action of the "update downloaded" notification: open the installer at `path`.
pub fn open_update_action(path: &str) -> (r: NotificationAction)
    ensures
        r.kind@ == "open_update"@,
        r.session_id is None,
        r.url is None,
        r.path matches Some(p) && p@ == path@,
{
    NotificationAction {
        kind: String::from_str("open_update"),
        session_id: None,
        url: None,
        path: Some(crate::text::to_string(path)),
    }
}

} // verus!
