//! The alert conversations the assistant keeps: each alert is a thread where
//! the model reports what it found and suggests a fix, and the operator
//! answers, dismisses or resolves it.
//!
//! The model itself is asked by the caller: this engine hands out the
//! messages to send and records what came back.

use vstd::prelude::*;
use vstd::string::*;

use crate::ai::stamps::{in_order, new_id, next_in_order, now_nanos, uuid_v7_value};

use crate::ai::alert::{
    is_open, is_open_state, messages_view, AlertConversation, AlertMessage, AlertSender,
    AlertSeverity, AlertState, ConversationView, MessageView,
};
use crate::ai::backend::{chat_view, ChatMessage, Role};
use crate::ai::command_parser::{extract_line_command, first_command, opt_view};
use crate::ai::context::{system_prompt, ClusterContext};
use crate::text::{chars_of, join2, lines, owned, push_str, trim, trim_bounds};

verus! {

/// Why an operation on a conversation failed.
#[derive(Clone, Copy, Debug, PartialEq, Eq, Structural)]
pub enum ConversationError {
    /// No conversation has the given id.
    NotFound,
}

impl ConversationError {
    /// What the operator is told.
    pub fn message(self) -> (res: &'static str)
        ensures
            res@ == match self {
                ConversationError::NotFound => "conversation not found"@,
            },
    {
        match self {
            ConversationError::NotFound => "conversation not found",
        }
    }
}

/// The conversations kept by an engine, oldest first.
pub open spec fn convs_view(v: Seq<AlertConversation>) -> Seq<ConversationView> {
    v.map_values(|c: AlertConversation| c@)
}

/// The first conversation at or after `i` with the given id.
pub open spec fn find_from(cs: Seq<ConversationView>, id: u128, i: int) -> Option<int>
    decreases cs.len() - i,
{
    if i < 0 || i >= cs.len() {
        None
    } else if cs[i].id == id {
        Some(i)
    } else {
        find_from(cs, id, i + 1)
    }
}

/// The first conversation with the given id.
pub open spec fn find_conv(cs: Seq<ConversationView>, id: u128) -> Option<int> {
    find_from(cs, id, 0)
}

proof fn lemma_find_from(cs: Seq<ConversationView>, id: u128, i: int)
    ensures
        find_from(cs, id, i) matches Some(k) ==> i <= k < cs.len() && 0 <= k && cs[k].id == id,
    decreases cs.len() - i,
{
    if 0 <= i < cs.len() && cs[i].id != id {
        lemma_find_from(cs, id, i + 1);
    }
}

/// The conversations of `cs` that are still open, in order.
pub open spec fn open_ones(cs: Seq<ConversationView>) -> Seq<ConversationView>
    decreases cs.len(),
{
    if cs.len() == 0 {
        cs
    } else if is_open_state(cs.last().state) {
        open_ones(cs.drop_last()).push(cs.last())
    } else {
        open_ones(cs.drop_last())
    }
}

/// The text the model is first asked about an alert.
pub open spec fn open_request(service: Seq<char>, trigger: Seq<char>) -> Seq<char> {
    "Alert triggered for service '"@ + service + "': "@ + trigger
        + "\n\nInvestigate this issue. Explain what's happening, the likely root cause, and suggest a fix as an `orca` command. If the issue might resolve itself, say so."@
}

/// A message of an alert thread.
pub open spec fn message(t: i64, sender: AlertSender, content: Seq<char>, cmd: Option<Seq<char>>) -> MessageView {
    MessageView { timestamp: t, sender, content, suggested_command: cmd }
}

/// The assistant's opening message: its answer and the command the answer
/// suggests, or, when the model could not be asked, why.
pub open spec fn opening(diagnosis: Result<Seq<char>, Seq<char>>) -> (Seq<char>, Option<Seq<char>>) {
    match diagnosis {
        Ok(a) => (a, first_command(lines(a), false)),
        Err(reason) => ("AI diagnosis unavailable ("@ + reason + ")"@, None),
    }
}

/// A diagnosis, or why there is none, as plain text.
pub open spec fn diagnosis_view(d: Result<String, String>) -> Result<Seq<char>, Seq<char>> {
    match d {
        Ok(a) => Ok(a@),
        Err(r) => Err(r@),
    }
}

/// A conversation as opened at time `t`.
pub open spec fn opened(
    id: u128,
    t: i64,
    service: Seq<char>,
    severity: AlertSeverity,
    trigger: Seq<char>,
    diagnosis: Result<Seq<char>, Seq<char>>,
) -> ConversationView {
    let (content, cmd) = opening(diagnosis);
    ConversationView {
        id,
        service,
        severity,
        state: if cmd is Some {
            AlertState::AwaitingAction
        } else {
            AlertState::Investigating
        },
        started_at: t,
        resolved_at: None,
        messages: seq![message(t, AlertSender::System, trigger, None), message(t, AlertSender::Orca, content, cmd)],
    }
}

/// `s` spells the word whose lowercase letters are `lower` and uppercase
/// letters `upper`, each letter in either case.
pub open spec fn spells(s: Seq<char>, lower: Seq<char>, upper: Seq<char>) -> bool {
    s.len() == lower.len() && forall|i: int| 0 <= i < s.len() ==> s[i] == lower[i] || s[i] == upper[i]
}

/// The operator dismisses the alert: "dismiss" or "ignore", in any case,
/// with any surrounding whitespace.
pub open spec fn is_dismissal(msg: Seq<char>) -> bool {
    spells(trim(msg), "dismiss"@, "DISMISS"@) || spells(trim(msg), "ignore"@, "IGNORE"@)
}

/// The operator resolves the alert: "resolve" or "resolved", in any case,
/// with any surrounding whitespace.
pub open spec fn is_resolution(msg: Seq<char>) -> bool {
    spells(trim(msg), "resolve"@, "RESOLVE"@) || spells(trim(msg), "resolved"@, "RESOLVED"@)
}

/// Conversation `c` after the operator wrote `msg` at time `t`.
pub open spec fn replied(c: ConversationView, t: i64, msg: Seq<char>) -> ConversationView {
    let with_msg = c.messages.push(message(t, AlertSender::Operator, msg, None));
    if is_dismissal(msg) {
        ConversationView {
            state: AlertState::Dismissed,
            resolved_at: Some(t),
            messages: with_msg.push(message(t, AlertSender::System, "Alert dismissed by operator."@, None)),
            ..c
        }
    } else if is_resolution(msg) {
        ConversationView {
            state: AlertState::Resolved,
            resolved_at: Some(t),
            messages: with_msg.push(
                message(t, AlertSender::System, "Alert marked as resolved by operator."@, None),
            ),
            ..c
        }
    } else {
        ConversationView { messages: with_msg, ..c }
    }
}

/// The role a message of an alert thread has when the thread is replayed
/// to the model.
pub open spec fn role_of(s: AlertSender) -> Role {
    match s {
        AlertSender::Orca => Role::Assistant,
        _ => Role::User,
    }
}

/// The model conversation that continues an alert thread.
pub open spec fn history(ctx: ClusterContext, msgs: Seq<MessageView>) -> Seq<(Role, Seq<char>)> {
    seq![(Role::System, system_prompt(ctx))] + msgs.map_values(|m: MessageView| (role_of(m.sender), m.content))
}

/// Conversation `c` after the model answered `answer` at time `t`.
pub open spec fn answered(c: ConversationView, t: i64, answer: Seq<char>) -> ConversationView {
    let cmd = first_command(lines(answer), false);
    ConversationView {
        state: if cmd is Some {
            AlertState::AwaitingAction
        } else {
            c.state
        },
        messages: c.messages.push(message(t, AlertSender::Orca, answer, cmd)),
        ..c
    }
}

/// Conversation `c` after an automatic fix `action` was applied at time `t`.
pub open spec fn remediated(c: ConversationView, t: i64, action: Seq<char>) -> ConversationView {
    ConversationView {
        state: AlertState::Remediated,
        resolved_at: Some(t),
        messages: c.messages.push(
            message(t, AlertSender::System, "Auto-remediation applied: "@ + action, None),
        ),
        ..c
    }
}

/// `new` keeps every conversation of `old`, in order, with its identity and
/// every message it had; new conversations may follow.
pub open spec fn keeps_history(old: Seq<ConversationView>, new: Seq<ConversationView>) -> bool {
    &&& old.len() <= new.len()
    &&& forall|i: int|
        0 <= i < old.len() ==> {
            &&& (#[trigger] new[i]).id == old[i].id
            &&& new[i].service == old[i].service
            &&& new[i].severity == old[i].severity
            &&& new[i].started_at == old[i].started_at
            &&& old[i].messages.len() <= new[i].messages.len()
            &&& new[i].messages.take(old[i].messages.len() as int) == old[i].messages
        }
}

/// The outcome of an operator's reply.
pub enum ReplyStep {
    /// The reply closed the alert; the model is not asked.
    Closed,
    /// The model is to be asked with these messages; its answer is then
    /// recorded with `record_answer`.
    AskModel(Vec<ChatMessage>),
}

/// Alert conversations, oldest first, and the greatest id given out.
pub struct ConversationEngine {
    conversations: Vec<AlertConversation>,
    last_id: u128,
}

impl View for ConversationEngine {
    type V = Seq<ConversationView>;

    closed spec fn view(&self) -> Seq<ConversationView> {
        convs_view(self.conversations@)
    }
}

/// Whether `s[lo..hi]` spells the word `lower` / `upper`.
fn spells_at(cs: &Vec<char>, lo: usize, hi: usize, lower: &str, upper: &str) -> (res: bool)
    requires
        lo <= hi <= cs.len(),
        lower@.len() == upper@.len(),
    ensures
        res == spells(cs@.subrange(lo as int, hi as int), lower@, upper@),
{
    let lw = chars_of(lower);
    let up = chars_of(upper);
    if hi - lo != lw.len() {
        return false;
    }
    let mut i: usize = 0;
    while i < lw.len()
        invariant
            lw@ == lower@,
            up@ == upper@,
            lw.len() == up.len(),
            hi - lo == lw.len(),
            lo <= hi <= cs.len(),
            i <= lw.len(),
            forall|j: int| 0 <= j < i ==> cs@[lo + j] == lw@[j] || cs@[lo + j] == up@[j],
        decreases lw.len() - i,
    {
        if cs[lo + i] != lw[i] && cs[lo + i] != up[i] {
            return false;
        }
        i = i + 1;
    }
    true
}

/// Whether the operator's message dismisses, and whether it resolves.
fn keywords(msg: &str) -> (res: (bool, bool))
    ensures
        res.0 == is_dismissal(msg@),
        res.1 == is_resolution(msg@),
{
    let cs = chars_of(msg);
    let (lo, hi) = trim_bounds(&cs);
    proof {
        reveal_strlit("dismiss");
        reveal_strlit("DISMISS");
        reveal_strlit("ignore");
        reveal_strlit("IGNORE");
        reveal_strlit("resolve");
        reveal_strlit("RESOLVE");
        reveal_strlit("resolved");
        reveal_strlit("RESOLVED");
    }
    let dismiss = spells_at(&cs, lo, hi, "dismiss", "DISMISS") || spells_at(&cs, lo, hi, "ignore", "IGNORE");
    let resolve = spells_at(&cs, lo, hi, "resolve", "RESOLVE") || spells_at(&cs, lo, hi, "resolved", "RESOLVED");
    (dismiss, resolve)
}

/// A message of an alert thread.
fn new_message(t: i64, sender: AlertSender, content: String, cmd: Option<String>) -> (res: AlertMessage)
    ensures
        res@ == message(t, sender, content@, opt_view(cmd)),
{
    AlertMessage { timestamp: t, sender, content, suggested_command: cmd }
}

/// The messages that ask the model about a new alert: the cluster's system
/// prompt, then the alert.
pub fn open_prompt(service: &str, trigger: &str, ctx: &ClusterContext) -> (res: Vec<ChatMessage>)
    ensures
        chat_view(res@) == seq![(Role::System, system_prompt(*ctx)), (Role::User, open_request(service@, trigger@))],
{
    let mut ask = String::new();
    push_str(&mut ask, "Alert triggered for service '");
    push_str(&mut ask, service);
    push_str(&mut ask, "': ");
    push_str(&mut ask, trigger);
    push_str(
        &mut ask,
        "\n\nInvestigate this issue. Explain what's happening, the likely root cause, and suggest a fix as an `orca` command. If the issue might resolve itself, say so.",
    );
    let mut res: Vec<ChatMessage> = Vec::new();
    res.push(ChatMessage { role: Role::System, content: ctx.to_system_prompt() });
    res.push(ChatMessage { role: Role::User, content: ask });
    assert(chat_view(res@) =~= seq![(Role::System, system_prompt(*ctx)), (Role::User, open_request(service@, trigger@))]);
    res
}

impl ConversationEngine {
    /// The greatest id this engine has given out (0 before the first).
    pub closed spec fn last_id(&self) -> u128 {
        self.last_id
    }

    /// No conversations.
    pub fn new() -> (res: ConversationEngine)
        ensures
            res@ == Seq::<ConversationView>::empty(),
            res.last_id() == 0,
    {
        let res = ConversationEngine { conversations: Vec::new(), last_id: 0 };
        assert(res@ =~= Seq::<ConversationView>::empty());
        res
    }

    /// Where the first conversation with `id` stands.
    fn position(&self, id: u128) -> (res: Option<usize>)
        ensures
            match res {
                Some(i) => find_conv(self@, id) == Some(i as int),
                None => find_conv(self@, id) is None,
            },
    {
        let ghost cs = self@;
        let mut i: usize = 0;
        while i < self.conversations.len()
            invariant
                cs == convs_view(self.conversations@),
                i <= self.conversations.len(),
                find_conv(cs, id) == find_from(cs, id, i as int),
            decreases self.conversations.len() - i,
        {
            assert(cs[i as int] == self.conversations@[i as int]@);
            if self.conversations[i].id == id {
                return Some(i);
            }
            i = i + 1;
        }
        None
    }

    /// Open a conversation about an alert on `service`, raised by `trigger`,
    /// with the model's diagnosis, or why there is none. Returns the new
    /// conversation's id; the conversation comes last.
    pub fn record_open(
        &mut self,
        service: &str,
        severity: AlertSeverity,
        trigger: &str,
        diagnosis: Result<String, String>,
    ) -> (id: u128)
        ensures
            final(self)@.len() == old(self)@.len() + 1,
            final(self)@ == old(self)@.push(
                opened(
                    id,
                    final(self)@.last().started_at,
                    service@,
                    severity,
                    trigger@,
                    diagnosis_view(diagnosis),
                ),
            ),
            final(self)@.last().started_at >= 0,
            exists|r: Seq<u8>|
                #![trigger uuid_v7_value((final(self)@.last().started_at / 1_000_000) as u64, r)]
                r.len() == 10 && id == in_order(
                    uuid_v7_value((final(self)@.last().started_at / 1_000_000) as u64, r) as u128,
                    old(self).last_id(),
                ),
            final(self).last_id() == id,
            old(self).last_id() < u128::MAX ==> id > old(self).last_id(),
    {
        let ghost d = diagnosis_view(diagnosis);
        let t = now_nanos();
        let candidate = new_id(t, self.conversations.len() as u64);
        let id = next_in_order(candidate, self.last_id);
        proof {
            let r = choose|r: Seq<u8>| r.len() == 10 && candidate as int == uuid_v7_value((t / 1_000_000) as u64, r);
            assert(uuid_v7_value((t / 1_000_000) as u64, r) as u128 == candidate);
        }
        self.last_id = id;
        let (content, cmd) = match diagnosis {
            Ok(answer) => {
                let (cmd, content) = extract_line_command(answer.as_str());
                (content, cmd)
            },
            Err(reason) => {
                let mut text = owned("AI diagnosis unavailable (");
                push_str(&mut text, reason.as_str());
                push_str(&mut text, ")");
                (text, None)
            },
        };
        let state = if cmd.is_some() {
            AlertState::AwaitingAction
        } else {
            AlertState::Investigating
        };
        let mut messages: Vec<AlertMessage> = Vec::new();
        messages.push(new_message(t, AlertSender::System, owned(trigger), None));
        messages.push(new_message(t, AlertSender::Orca, content, cmd));
        let conv = AlertConversation {
            id,
            service: owned(service),
            severity,
            state,
            started_at: t,
            resolved_at: None,
            messages,
        };
        let ghost before = self.conversations@;
        self.conversations.push(conv);
        proof {
            assert(messages_view(conv.messages@) =~= opened(id, t, service@, severity, trigger@, d).messages);
            assert(conv@ == opened(id, t, service@, severity, trigger@, d));
            assert(convs_view(self.conversations@) =~= convs_view(before).push(conv@));
        }
        id
    }

    /// The operator answers conversation `id` with `msg`. A dismissal or a
    /// resolution closes it; anything else is to be put to the model,
    /// with the returned messages.
    pub fn operator_reply(&mut self, id: u128, msg: &str, ctx: &ClusterContext) -> (res: Result<ReplyStep, ConversationError>)
        ensures
            find_conv(old(self)@, id) is None <==> res is Err,
            res is Err ==> final(self)@ == old(self)@ && res == Err::<ReplyStep, ConversationError>(ConversationError::NotFound),
            find_conv(old(self)@, id) matches Some(i) ==> exists|t: i64|
                #[trigger] final(self)@ == old(self)@.update(i, replied(old(self)@[i], t, msg@)),
            find_conv(old(self)@, id) matches Some(i) ==> match res {
                Ok(ReplyStep::Closed) => is_dismissal(msg@) || is_resolution(msg@),
                Ok(ReplyStep::AskModel(h)) => !is_dismissal(msg@) && !is_resolution(msg@)
                    && chat_view(h@) == history(*ctx, final(self)@[i].messages),
                Err(_) => false,
            },
            final(self).last_id() == old(self).last_id(),
    {
        let pos = self.position(id);
        let i = match pos {
            Some(i) => i,
            None => {
                return Err(ConversationError::NotFound);
            },
        };
        proof {
            lemma_find_from(self@, id, 0);
        }
        let t = now_nanos();
        let ghost before = self.conversations@;
        let mut conv = self.conversations.remove(i);
        let ghost c0 = conv@;
        assert(c0 == old(self)@[i as int]);
        let ghost m0 = conv.messages@;
        conv.messages.push(new_message(t, AlertSender::Operator, owned(msg), None));
        let (dismiss, resolve) = keywords(msg);
        let step = if dismiss {
            conv.state = AlertState::Dismissed;
            conv.resolved_at = Some(t);
            conv.messages.push(new_message(t, AlertSender::System, owned("Alert dismissed by operator."), None));
            ReplyStep::Closed
        } else if resolve {
            conv.state = AlertState::Resolved;
            conv.resolved_at = Some(t);
            conv.messages.push(new_message(t, AlertSender::System, owned("Alert marked as resolved by operator."), None));
            ReplyStep::Closed
        } else {
            ReplyStep::AskModel(replay(&conv, ctx))
        };
        proof {
            assert(messages_view(conv.messages@) =~= replied(c0, t, msg@).messages);
            assert(conv@ == replied(c0, t, msg@));
        }
        self.conversations.insert(i, conv);
        proof {
            assert(convs_view(self.conversations@) =~= old(self)@.update(i as int, replied(c0, t, msg@)));
            assert(self@[i as int] == conv@);
        }
        Ok(step)
    }

    /// Feed new information into conversation `id`, as the operator's reply
    /// "[System update] " followed by `update`.
    pub fn update_alert(&mut self, id: u128, update: &str, ctx: &ClusterContext) -> (res: Result<ReplyStep, ConversationError>)
        ensures
            find_conv(old(self)@, id) is None <==> res is Err,
            res is Err ==> final(self)@ == old(self)@,
            find_conv(old(self)@, id) matches Some(i) ==> exists|t: i64|
                #[trigger] final(self)@ == old(self)@.update(
                    i,
                    replied(old(self)@[i], t, "[System update] "@ + update@),
                ),
            final(self).last_id() == old(self).last_id(),
    {
        let msg = join2("[System update] ", update);
        self.operator_reply(id, msg.as_str(), ctx)
    }

    /// Record the model's answer in conversation `id`. A suggested command
    /// moves it to awaiting the operator's action.
    pub fn record_answer(&mut self, id: u128, answer: &str) -> (res: Result<(), ConversationError>)
        ensures
            find_conv(old(self)@, id) is None <==> res is Err,
            res is Err ==> final(self)@ == old(self)@,
            find_conv(old(self)@, id) matches Some(i) ==> exists|t: i64|
                #[trigger] final(self)@ == old(self)@.update(i, answered(old(self)@[i], t, answer@)),
            final(self).last_id() == old(self).last_id(),
    {
        let pos = self.position(id);
        let i = match pos {
            Some(i) => i,
            None => {
                return Err(ConversationError::NotFound);
            },
        };
        proof {
            lemma_find_from(self@, id, 0);
        }
        let t = now_nanos();
        let mut conv = self.conversations.remove(i);
        let ghost c0 = conv@;
        assert(c0 == old(self)@[i as int]);
        let (cmd, content) = extract_line_command(answer);
        if cmd.is_some() {
            conv.state = AlertState::AwaitingAction;
        }
        conv.messages.push(new_message(t, AlertSender::Orca, content, cmd));
        proof {
            assert(messages_view(conv.messages@) =~= answered(c0, t, answer@).messages);
            assert(conv@ == answered(c0, t, answer@));
        }
        self.conversations.insert(i, conv);
        proof {
            assert(convs_view(self.conversations@) =~= old(self)@.update(i as int, answered(c0, t, answer@)));
        }
        Ok(())
    }

    /// Mark conversation `id` remediated: an automatic fix `action` was
    /// applied. An unknown id changes nothing.
    pub fn mark_remediated(&mut self, id: u128, action: &str)
        ensures
            find_conv(old(self)@, id) is None ==> final(self)@ == old(self)@,
            find_conv(old(self)@, id) matches Some(i) ==> exists|t: i64|
                #[trigger] final(self)@ == old(self)@.update(i, remediated(old(self)@[i], t, action@)),
            final(self).last_id() == old(self).last_id(),
    {
        let pos = self.position(id);
        if let Some(i) = pos {
            proof {
                lemma_find_from(self@, id, 0);
            }
            let t = now_nanos();
            let mut conv = self.conversations.remove(i);
            let ghost c0 = conv@;
            assert(c0 == old(self)@[i as int]);
            conv.state = AlertState::Remediated;
            conv.resolved_at = Some(t);
            let text = join2("Auto-remediation applied: ", action);
            conv.messages.push(new_message(t, AlertSender::System, text, None));
            proof {
                assert(messages_view(conv.messages@) =~= remediated(c0, t, action@).messages);
                assert(conv@ == remediated(c0, t, action@));
            }
            self.conversations.insert(i, conv);
            proof {
                assert(convs_view(self.conversations@) =~= old(self)@.update(i as int, remediated(c0, t, action@)));
            }
        }
    }

    /// The conversations still open, oldest first.
    pub fn active_conversations(&self) -> (res: Vec<&AlertConversation>)
        ensures
            res@.map_values(|c: &AlertConversation| c@) == open_ones(self@),
    {
        let ghost cs = self@;
        let mut res: Vec<&AlertConversation> = Vec::new();
        let mut i: usize = 0;
        while i < self.conversations.len()
            invariant
                cs == convs_view(self.conversations@),
                i <= self.conversations.len(),
                res@.map_values(|c: &AlertConversation| c@) == open_ones(cs.take(i as int)),
            decreases self.conversations.len() - i,
        {
            assert(cs.take(i + 1).drop_last() =~= cs.take(i as int));
            let c = &self.conversations[i];
            assert(cs[i as int] == c@);
            if is_open(c.state) {
                let ghost before = res@;
                res.push(c);
                assert(res@.map_values(|c: &AlertConversation| c@) =~= before.map_values(
                    |c: &AlertConversation| c@,
                ).push(cs[i as int]));
            }
            i = i + 1;
        }
        assert(cs.take(i as int) =~= cs);
        res
    }

    /// The first conversation with `id`.
    pub fn get_conversation(&self, id: u128) -> (res: Option<&AlertConversation>)
        ensures
            match find_conv(self@, id) {
                Some(i) => res matches Some(c) && c@ == self@[i],
                None => res is None,
            },
    {
        match self.position(id) {
            Some(i) => {
                proof {
                    lemma_find_from(self@, id, 0);
                }
                Some(&self.conversations[i])
            },
            None => None,
        }
    }

    /// Every conversation, oldest first.
    pub fn all_conversations(&self) -> (res: &[AlertConversation])
        ensures
            convs_view(res@) == self@,
    {
        self.conversations.as_slice()
    }
}

/// The model conversation that continues `conv`: the cluster's system
/// prompt, then each message, the assistant's as the assistant's and every
/// other as the user's.
fn replay(conv: &AlertConversation, ctx: &ClusterContext) -> (res: Vec<ChatMessage>)
    ensures
        chat_view(res@) == history(*ctx, conv@.messages),
{
    let ghost ms = conv@.messages;
    let mut res: Vec<ChatMessage> = Vec::new();
    res.push(ChatMessage { role: Role::System, content: ctx.to_system_prompt() });
    let mut i: usize = 0;
    while i < conv.messages.len()
        invariant
            ms == messages_view(conv.messages@),
            i <= conv.messages.len(),
            chat_view(res@) == history(*ctx, ms.take(i as int)),
        decreases conv.messages.len() - i,
    {
        let m = &conv.messages[i];
        let role = match m.sender {
            AlertSender::Orca => Role::Assistant,
            _ => Role::User,
        };
        let ghost before = res@;
        let content = m.content.clone();
        assert(ms[i as int] == m@);
        assert(role == role_of(m.sender));
        res.push(ChatMessage { role, content });
        assert(ms.take(i + 1) =~= ms.take(i as int).push(ms[i as int]));
        assert(ms.take(i + 1).map_values(|m: MessageView| (role_of(m.sender), m.content)) =~= ms.take(
            i as int,
        ).map_values(|m: MessageView| (role_of(m.sender), m.content)).push((role, content@)));
        assert(chat_view(res@) =~= chat_view(before).push((role, content@)));
        assert(chat_view(res@) =~= history(*ctx, ms.take(i + 1)));
        i = i + 1;
    }
    assert(ms.take(i as int) =~= ms);
    res
}


/// Every operation on the conversations keeps their history: opening
/// appends a conversation, and a reply, a model's answer or a remediation
/// only appends messages to the one conversation it is about.
pub proof fn law_history_is_kept(
    cs: Seq<ConversationView>,
    i: int,
    t: i64,
    text: Seq<char>,
    opened_conv: ConversationView,
)
    requires
        0 <= i < cs.len(),
    ensures
        keeps_history(cs, cs.push(opened_conv)),
        keeps_history(cs, cs.update(i, replied(cs[i], t, text))),
        keeps_history(cs, cs.update(i, answered(cs[i], t, text))),
        keeps_history(cs, cs.update(i, remediated(cs[i], t, text))),
{
    let c = cs[i];
    let r = replied(c, t, text);
    let m = c.messages.push(message(t, AlertSender::Operator, text, None));
    assert(m.take(c.messages.len() as int) =~= c.messages);
    assert(r.messages.take(c.messages.len() as int) =~= c.messages);
    let a = answered(c, t, text);
    assert(a.messages.take(c.messages.len() as int) =~= c.messages);
    let d = remediated(c, t, text);
    assert(d.messages.take(c.messages.len() as int) =~= c.messages);
    assert forall|j: int| 0 <= j < cs.len() implies (#[trigger] cs[j]).messages.take(cs[j].messages.len() as int)
        == cs[j].messages by {
        assert(cs[j].messages.take(cs[j].messages.len() as int) =~= cs[j].messages);
    }
}

/// Closing a conversation takes it off the active list and leaves the
/// others on it as they were: the list is as if it had never been there.
pub proof fn law_closed_leaves_active(cs: Seq<ConversationView>, i: int, closed: ConversationView)
    requires
        0 <= i < cs.len(),
        !is_open_state(closed.state),
    ensures
        open_ones(cs.update(i, closed)) == open_ones(cs.remove(i)),
    decreases cs.len(),
{
    let u = cs.update(i, closed);
    if i == cs.len() - 1 {
        assert(u.drop_last() =~= cs.drop_last());
        assert(cs.remove(i) =~= cs.drop_last());
    } else {
        law_closed_leaves_active(cs.drop_last(), i, closed);
        assert(u.drop_last() =~= cs.drop_last().update(i, closed));
        assert(cs.remove(i).drop_last() =~= cs.drop_last().remove(i));
        assert(cs.remove(i).last() == cs.last());
        assert(u.last() == cs.last());
    }
}

/// A dismissal or a resolution closes the conversation it answers, as an
/// applied fix does; any other reply leaves its state as it was.
pub proof fn law_replies_close(c: ConversationView, t: i64, text: Seq<char>)
    ensures
        is_dismissal(text) ==> replied(c, t, text).state == AlertState::Dismissed,
        !is_dismissal(text) && is_resolution(text) ==> replied(c, t, text).state == AlertState::Resolved,
        !is_dismissal(text) && !is_resolution(text) ==> replied(c, t, text).state == c.state,
        is_dismissal(text) || is_resolution(text) ==> !is_open_state(replied(c, t, text).state)
            && replied(c, t, text).resolved_at == Some(t),
        !is_open_state(remediated(c, t, text).state),
{
}

/// An operator who answers "resolve" or "resolved", in any mix of cases
/// (each letter as `lower` or as `upper` has it) and with any whitespace
/// around it, closes the conversation as Resolved: the reply and the note
/// "Alert marked as resolved by operator." are added, it is resolved at the
/// reply's time, and the reply is neither a dismissal nor one to put to the
/// model.
pub proof fn law_resolve_words_close(c: ConversationView, t: i64, text: Seq<char>, lower: Seq<char>, upper: Seq<char>)
    requires
        (lower == "resolve"@ && upper == "RESOLVE"@) || (lower == "resolved"@ && upper == "RESOLVED"@),
        trim(text).len() == lower.len(),
        forall|i: int| 0 <= i < lower.len() ==> #[trigger] trim(text)[i] == lower[i] || trim(text)[i] == upper[i],
    ensures
        is_resolution(text),
        !is_dismissal(text),
        replied(c, t, text).state == AlertState::Resolved,
        replied(c, t, text).resolved_at == Some(t),
        replied(c, t, text).messages == c.messages.push(message(t, AlertSender::Operator, text, None)).push(
            message(t, AlertSender::System, "Alert marked as resolved by operator."@, None),
        ),
{
    reveal_strlit("resolve");
    reveal_strlit("RESOLVE");
    reveal_strlit("resolved");
    reveal_strlit("RESOLVED");
    reveal_strlit("dismiss");
    reveal_strlit("DISMISS");
    reveal_strlit("ignore");
    reveal_strlit("IGNORE");
    let s = trim(text);
    assert(s[0] == lower[0] || s[0] == upper[0]);
    assert(!spells(s, "dismiss"@, "DISMISS"@));
    assert(!spells(s, "ignore"@, "IGNORE"@));
}

} // verus!
