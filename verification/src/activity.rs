//! What the client's window shows of its background tasks: the log and
//! whether a send or a fetch is under way.
use vstd::prelude::*;

verus! {

/// A report from a background task.
pub enum TaskMessage {
    /// A line for the log.
    Log(String),
    /// The send task ended.
    SendDone,
    /// The fetch task ended.
    FetchDone,
}

/// Appends `text` to `s`.
///
/// Calls `String::push_str` (std), trusted to append the characters.
#[verifier::external_body]
fn push_text(s: &mut String, text: &str)
    ensures
        final(s)@ == old(s)@ + text@,
{
    s.push_str(text);
}

/// The log text that starts a session.
pub open spec fn ready_text() -> Seq<char> {
    "NymX Mail ready.\n"@
}

/// The log and the busy flags of the window.
pub struct Activity {
    pub log: String,
    pub is_sending: bool,
    pub is_fetching: bool,
}

impl Activity {
    /// A fresh session: the greeting in the log, nothing under way.
    pub fn new() -> (a: Self)
        ensures
            a.log@ == ready_text(),
            !a.is_sending,
            !a.is_fetching,
    {
        Activity { log: String::from_str("NymX Mail ready.\n"), is_sending: false, is_fetching: false }
    }

    /// Takes in one report: a log line is appended with a newline; the end
    /// of a task clears its flag and is noted in the log.
    pub fn apply(&mut self, message: TaskMessage)
        ensures
            match message {
                TaskMessage::Log(text) => {
                    &&& final(self).log@ == old(self).log@ + text@ + "\n"@
                    &&& final(self).is_sending == old(self).is_sending
                    &&& final(self).is_fetching == old(self).is_fetching
                },
                TaskMessage::SendDone => {
                    &&& final(self).log@ == old(self).log@ + "[INFO] Send task finished.\n"@
                    &&& !final(self).is_sending
                    &&& final(self).is_fetching == old(self).is_fetching
                },
                TaskMessage::FetchDone => {
                    &&& final(self).log@ == old(self).log@ + "[INFO] Fetch task finished.\n"@
                    &&& final(self).is_sending == old(self).is_sending
                    &&& !final(self).is_fetching
                },
            },
    {
        match message {
            TaskMessage::Log(text) => {
                push_text(&mut self.log, text.as_str());
                push_text(&mut self.log, "\n");
            },
            TaskMessage::SendDone => {
                self.is_sending = false;
                push_text(&mut self.log, "[INFO] Send task finished.\n");
            },
            TaskMessage::FetchDone => {
                self.is_fetching = false;
                push_text(&mut self.log, "[INFO] Fetch task finished.\n");
            },
        }
    }

    /// A send starts: it is under way and noted in the log.
    pub fn begin_send(&mut self)
        ensures
            final(self).is_sending,
            final(self).is_fetching == old(self).is_fetching,
            final(self).log@ == old(self).log@ + "\n[INFO] Starting send process...\n"@,
    {
        self.is_sending = true;
        push_text(&mut self.log, "\n[INFO] Starting send process...\n");
    }

    /// A fetch starts: it is under way and noted in the log.
    pub fn begin_fetch(&mut self)
        ensures
            final(self).is_fetching,
            final(self).is_sending == old(self).is_sending,
            final(self).log@ == old(self).log@ + "\n[INFO] Starting fetch process...\n"@,
    {
        self.is_fetching = true;
        push_text(&mut self.log, "\n[INFO] Starting fetch process...\n");
    }

    /// The log starts afresh, noting that the fields were cleared.
    pub fn clear_log(&mut self)
        ensures
            final(self).log@ == ready_text() + "[INFO] All fields cleared.\n"@,
            final(self).is_sending == old(self).is_sending,
            final(self).is_fetching == old(self).is_fetching,
    {
        self.log = String::from_str("NymX Mail ready.\n");
        push_text(&mut self.log, "[INFO] All fields cleared.\n");
    }
}

} // verus!
