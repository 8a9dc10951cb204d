//! Alerts and their conversations: who said what, how severe, which state.

use vstd::prelude::*;

verus! {

/// How severe an alert is.
#[derive(Clone, Copy, Debug, PartialEq, Eq, Structural)]
pub enum AlertSeverity {
    Critical,
    Warning,
    Info,
}

/// Where an alert conversation stands.
#[derive(Clone, Copy, Debug, PartialEq, Eq, Structural)]
pub enum AlertState {
    /// The assistant is still looking into it.
    Investigating,
    /// A fix has been suggested and waits for the operator.
    AwaitingAction,
    /// An automatic fix was applied.
    Remediated,
    /// The issue went away or the operator resolved it.
    Resolved,
    /// The operator dismissed the alert.
    Dismissed,
}

/// Who wrote a message of an alert conversation.
#[derive(Clone, Copy, Debug, PartialEq, Eq, Structural)]
pub enum AlertSender {
    Orca,
    Operator,
    System,
}

/// An alert's severity as its lowercase label.
pub open spec fn severity_label_spec(s: AlertSeverity) -> Seq<char> {
    match s {
        AlertSeverity::Critical => "critical"@,
        AlertSeverity::Warning => "warning"@,
        AlertSeverity::Info => "info"@,
    }
}

/// An alert's severity as its lowercase label.
pub fn severity_label(s: AlertSeverity) -> (res: &'static str)
    ensures
        res@ == severity_label_spec(s),
{
    match s {
        AlertSeverity::Critical => "critical",
        AlertSeverity::Warning => "warning",
        AlertSeverity::Info => "info",
    }
}

/// Whether a conversation in state `s` still needs attention.
pub open spec fn is_open_state(s: AlertState) -> bool {
    !(s is Resolved || s is Dismissed || s is Remediated)
}


/// One message of an alert conversation. Times are nanoseconds since the
/// Unix epoch, UTC.
#[derive(Clone, Debug)]
pub struct AlertMessage {
    pub timestamp: i64,
    pub sender: AlertSender,
    pub content: String,
    pub suggested_command: Option<String>,
}

/// A message as plain values.
pub struct MessageView {
    pub timestamp: i64,
    pub sender: AlertSender,
    pub content: Seq<char>,
    pub suggested_command: Option<Seq<char>>,
}

impl View for AlertMessage {
    type V = MessageView;

    open spec fn view(&self) -> MessageView {
        MessageView {
            timestamp: self.timestamp,
            sender: self.sender,
            content: self.content@,
            suggested_command: match self.suggested_command {
                Some(c) => Some(c@),
                None => None,
            },
        }
    }
}

/// A living alert thread: what triggered it, what the assistant found and
/// suggested, what the operator answered.
#[derive(Clone, Debug)]
pub struct AlertConversation {
    pub id: u128,
    pub service: String,
    pub severity: AlertSeverity,
    pub state: AlertState,
    pub started_at: i64,
    pub resolved_at: Option<i64>,
    pub messages: Vec<AlertMessage>,
}

/// A conversation as plain values.
pub struct ConversationView {
    pub id: u128,
    pub service: Seq<char>,
    pub severity: AlertSeverity,
    pub state: AlertState,
    pub started_at: i64,
    pub resolved_at: Option<i64>,
    pub messages: Seq<MessageView>,
}

/// Messages as plain values.
pub open spec fn messages_view(v: Seq<AlertMessage>) -> Seq<MessageView> {
    v.map_values(|m: AlertMessage| m@)
}

impl View for AlertConversation {
    type V = ConversationView;

    open spec fn view(&self) -> ConversationView {
        ConversationView {
            id: self.id,
            service: self.service@,
            severity: self.severity,
            state: self.state,
            started_at: self.started_at,
            resolved_at: self.resolved_at,
            messages: messages_view(self.messages@),
        }
    }
}

/// Whether a conversation in state `s` is still open.
pub fn is_open(s: AlertState) -> (res: bool)
    ensures
        res == is_open_state(s),
{
    match s {
        AlertState::Resolved | AlertState::Dismissed | AlertState::Remediated => false,
        _ => true,
    }
}

} // verus!
