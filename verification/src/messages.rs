//! The messages between the browser extension and the daemon.

use vstd::prelude::*;

verus! {

/// Messages received from the extension.
#[derive(Debug, Clone)]
pub enum ExtensionMessage {
    TabCreated {
        tab_id: i64,
        url: String,
        title: Option<String>,
        opener_tab_id: Option<i64>,
        /// Milliseconds since the Unix epoch, as the extension reports them.
        created_at: i64,
    },
    TabActivated { tab_id: i64 },
    TabRemoved { tab_id: i64 },
    TabUpdated {
        tab_id: i64,
        url: Option<String>,
        title: Option<String>,
        status: Option<String>,
    },
    /// Sent in response to a `RequestContent` command.
    TabContent { tab_id: i64, text: String, title: Option<String> },
}

/// Commands sent to the extension.
#[derive(Debug, Clone)]
pub enum DaemonCommand {
    RequestContent { tab_id: i64 },
    CloseTab { tab_id: i64 },
    ReopenUrls { urls: Vec<String> },
}

}
