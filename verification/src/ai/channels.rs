//! How an alert event is put into words for each delivery channel: a Slack
//! message, an email's subject, text and HTML. Delivery itself is the
//! caller's.

use vstd::prelude::*;

use crate::ai::alert::{
    AlertMessage, severity_label, severity_label_spec, AlertConversation, AlertSender, AlertSeverity, AlertState,
    ConversationView, MessageView,
};
use crate::text::{decimal, digit, owned, push_char, push_str};

verus! {

/// What just happened to a conversation.
#[derive(Clone, Copy, Debug, PartialEq, Eq, Structural)]
pub enum AlertEvent {
    /// The first message: the initial diagnosis.
    Opened,
    /// The operator replied or new context arrived.
    Updated,
    /// An automatic fix was applied.
    Remediated,
    /// The issue resolved itself or the operator resolved it.
    Resolved,
    /// The operator dismissed the alert.
    Dismissed,
}

/// The name of an event as channels show it.
pub open spec fn event_label(e: AlertEvent) -> Seq<char> {
    match e {
        AlertEvent::Opened => "Opened"@,
        AlertEvent::Updated => "Updated"@,
        AlertEvent::Remediated => "Remediated"@,
        AlertEvent::Resolved => "Resolved"@,
        AlertEvent::Dismissed => "Dismissed"@,
    }
}

impl AlertEvent {
    /// The name of the event as channels show it.
    pub fn label(self) -> (res: &'static str)
        ensures
            res@ == event_label(self),
    {
        match self {
            AlertEvent::Opened => "Opened",
            AlertEvent::Updated => "Updated",
            AlertEvent::Remediated => "Remediated",
            AlertEvent::Resolved => "Resolved",
            AlertEvent::Dismissed => "Dismissed",
        }
    }
}

/// The delivery channels a configuration names.
#[derive(Clone, Copy, Debug, PartialEq, Eq, Structural)]
pub enum ChannelKind {
    Slack,
    Webhook,
    Email,
}

/// The channels to build, in order, for which of Slack, a webhook and
/// email are configured; unconfigured ones are skipped.
pub fn configured_channels(slack: bool, webhook: bool, email: bool) -> (res: Vec<ChannelKind>)
    ensures
        res@ == (if slack { seq![ChannelKind::Slack] } else { Seq::empty() }) + (if webhook {
            seq![ChannelKind::Webhook]
        } else {
            Seq::empty()
        }) + (if email { seq![ChannelKind::Email] } else { Seq::empty() }),
{
    let mut res: Vec<ChannelKind> = Vec::new();
    if slack {
        res.push(ChannelKind::Slack);
    }
    if webhook {
        res.push(ChannelKind::Webhook);
    }
    if email {
        res.push(ChannelKind::Email);
    }
    assert(res@ =~= (if slack { seq![ChannelKind::Slack] } else { Seq::empty() }) + (if webhook {
        seq![ChannelKind::Webhook]
    } else {
        Seq::empty()
    }) + (if email { seq![ChannelKind::Email] } else { Seq::empty() }));
    res
}

// ---------------------------------------------------------------------------
// Slack
// ---------------------------------------------------------------------------

/// The emoji a Slack header opens with.
pub open spec fn severity_emoji(s: AlertSeverity) -> Seq<char> {
    match s {
        AlertSeverity::Critical => ":rotating_light:"@,
        AlertSeverity::Warning => ":warning:"@,
        AlertSeverity::Info => ":information_source:"@,
    }
}

fn emoji_of(s: AlertSeverity) -> (res: &'static str)
    ensures
        res@ == severity_emoji(s),
{
    match s {
        AlertSeverity::Critical => ":rotating_light:",
        AlertSeverity::Warning => ":warning:",
        AlertSeverity::Info => ":information_source:",
    }
}

/// The header of a Slack message: emoji, event, service and severity.
pub open spec fn slack_header(c: ConversationView, e: AlertEvent) -> Seq<char> {
    severity_emoji(c.severity) + " "@ + event_label(e) + " — "@ + c.service + " ("@ + severity_label_spec(
        c.severity,
    ) + ")"@
}

/// The latest message not written by the operator, empty if none.
pub open spec fn latest_report(ms: Seq<MessageView>) -> Seq<char>
    decreases ms.len(),
{
    if ms.len() == 0 {
        Seq::empty()
    } else if ms.last().sender != AlertSender::Operator {
        ms.last().content
    } else {
        latest_report(ms.drop_last())
    }
}

/// A position that falls between whole characters of `s`, counted in
/// UTF-8 bytes.
pub open spec fn is_char_boundary(s: Seq<char>, byte: nat) -> bool {
    exists|k: int| 0 <= k <= s.len() && crate::agent::reporting::utf8_len(#[trigger] s.take(k)) == byte
}

/// `s` if it is at most `max` bytes, otherwise its first `max` bytes and
/// `…`. The cut must fall between characters.
pub open spec fn truncate_spec(s: Seq<char>, max: nat) -> Seq<char> {
    if crate::agent::reporting::utf8_len(s) <= max {
        s
    } else {
        s.take(choose|k: int| 0 <= k <= s.len() && crate::agent::reporting::utf8_len(#[trigger] s.take(k)) == max)
            + "…"@
    }
}

proof fn lemma_utf8_prefix_grows(s: Seq<char>, j: int, k: int)
    requires
        0 <= j <= k <= s.len(),
    ensures
        crate::agent::reporting::utf8_len(s.take(j)) <= crate::agent::reporting::utf8_len(s.take(k)),
        j < k ==> crate::agent::reporting::utf8_len(s.take(j)) < crate::agent::reporting::utf8_len(s.take(k)),
    decreases k - j,
{
    if j < k {
        lemma_utf8_prefix_grows(s, j, k - 1);
        assert(s.take(k).drop_last() =~= s.take(k - 1));
    }
}

/// Whether byte `byte` of `s` falls between two characters (or at an end).
pub fn char_boundary_at(s: &str, byte: usize) -> (res: bool)
    ensures
        res == is_char_boundary(s@, byte as nat),
{
    let cs = crate::text::chars_of(s);
    let mut i: usize = 0;
    let mut used: usize = 0;
    while i < cs.len() && used < byte
        invariant
            cs@ == s@,
            i <= cs.len(),
            used <= byte,
            used as nat == crate::agent::reporting::utf8_len(cs@.take(i as int)),
            forall|k: int| 0 <= k < i ==> crate::agent::reporting::utf8_len(#[trigger] cs@.take(k)) < byte,
        decreases cs.len() - i,
    {
        let w: usize = if (cs[i] as u32) < 0x80 {
            1
        } else if (cs[i] as u32) < 0x800 {
            2
        } else if (cs[i] as u32) < 0x10000 {
            3
        } else {
            4
        };
        proof {
            assert(cs@.take(i + 1).drop_last() =~= cs@.take(i as int));
            assert(cs@.take(i + 1).last() == cs@[i as int]);
        }
        if w > byte - used {
            // The next character straddles `byte`.
            proof {
                assert forall|k: int| 0 <= k <= s@.len() implies crate::agent::reporting::utf8_len(
                    #[trigger] s@.take(k),
                ) != byte by {
                    if k > i {
                        lemma_utf8_prefix_grows(s@, i + 1, k);
                    }
                }
            }
            return false;
        }
        used = used + w;
        i = i + 1;
    }
    proof {
        if used == byte {
            assert(crate::agent::reporting::utf8_len(s@.take(i as int)) == byte);
        } else {
            assert forall|k: int| 0 <= k <= s@.len() implies crate::agent::reporting::utf8_len(
                #[trigger] s@.take(k),
            ) != byte by {
                if k >= i {
                    lemma_utf8_prefix_grows(s@, i as int, k);
                    if used < byte {
                        assert(i == cs.len());
                        assert(k == i);
                    }
                }
            }
        }
    }
    used == byte
}

/// Whether a conversation's latest report can be cut for a Slack section,
/// so that `slack_message` may be called on it.
pub fn slack_ready_exec(c: &AlertConversation) -> (res: bool)
    ensures
        res == slack_ready(c@),
{
    let r = latest_report_of(c);
    crate::agent::reporting::fits_bytes(r.as_str(), SLACK_SECTION_BYTES) || char_boundary_at(
        r.as_str(),
        SLACK_SECTION_BYTES,
    )
}

/// `s` cut to `max` bytes, marked with `…` if cut.
pub fn truncate(s: &str, max: usize) -> (res: String)
    requires
        crate::agent::reporting::utf8_len(s@) <= max || is_char_boundary(s@, max as nat),
    ensures
        res@ == truncate_spec(s@, max as nat),
{
    let cs = crate::text::chars_of(s);
    let mut i: usize = 0;
    let mut used: usize = 0;
    while i < cs.len() && used < max
        invariant
            cs@ == s@,
            i <= cs.len(),
            used <= max,
            used as nat == crate::agent::reporting::utf8_len(cs@.take(i as int)),
            crate::agent::reporting::utf8_len(s@) <= max || is_char_boundary(s@, max as nat),
        decreases cs.len() - i,
    {
        let w: usize = if (cs[i] as u32) < 0x80 {
            1
        } else if (cs[i] as u32) < 0x800 {
            2
        } else if (cs[i] as u32) < 0x10000 {
            3
        } else {
            4
        };
        proof {
            assert(cs@.take(i + 1).drop_last() =~= cs@.take(i as int));
            assert(cs@.take(i + 1).last() == cs@[i as int]);
            if used + w > max {
                // The cut would fall inside this character: impossible at a boundary.
                if crate::agent::reporting::utf8_len(s@) > max {
                    let k = choose|k: int| 0 <= k <= s@.len() && crate::agent::reporting::utf8_len(#[trigger] s@.take(k)) == max;
                    if k <= i {
                        lemma_utf8_prefix_grows(s@, k, i as int);
                    } else {
                        lemma_utf8_prefix_grows(s@, i + 1, k);
                    }
                } else {
                    crate::agent::reporting::lemma_utf8_len_prefix(s@, i + 1);
                }
            }
        }
        used = used + w;
        i = i + 1;
    }
    if i == cs.len() && used <= max {
        assert(cs@.take(i as int) =~= s@);
        return owned(s);
    }
    proof {
        assert(used == max);
        let k = choose|k: int| 0 <= k <= s@.len() && crate::agent::reporting::utf8_len(#[trigger] s@.take(k)) == max;
        if crate::agent::reporting::utf8_len(s@) <= max {
            if i < cs.len() {
                crate::agent::reporting::lemma_utf8_len_prefix(s@, i + 1);
                lemma_utf8_prefix_grows(s@, i as int, i + 1);
            }
        }
        if k < i {
            lemma_utf8_prefix_grows(s@, k, i as int);
        } else if k > i {
            lemma_utf8_prefix_grows(s@, i as int, k);
        }
    }
    let mut out = crate::text::string_of(&cs, 0, i);
    push_str(&mut out, "…");
    out
}

/// A Slack message: the header (also the notification text), the latest
/// report, and the suggested fix if the last message carries one.
pub struct SlackMessage {
    pub header: String,
    pub body: String,
    pub suggested_fix: Option<String>,
}

/// The byte length at which a Slack section is cut.
pub const SLACK_SECTION_BYTES: usize = 2900;

/// A conversation's latest report can be cut for a Slack section without
/// splitting a character.
pub open spec fn slack_ready(c: ConversationView) -> bool {
    crate::agent::reporting::utf8_len(latest_report(c.messages)) <= SLACK_SECTION_BYTES || is_char_boundary(
        latest_report(c.messages),
        SLACK_SECTION_BYTES as nat,
    )
}

fn latest_report_of(c: &AlertConversation) -> (res: String)
    ensures
        res@ == latest_report(c@.messages),
{
    let ghost ms = c@.messages;
    let mut i: usize = c.messages.len();
    assert(ms.take(i as int) =~= ms);
    while i > 0
        invariant
            ms == crate::ai::alert::messages_view(c.messages@),
            i <= c.messages.len(),
            latest_report(ms) == latest_report(ms.take(i as int)),
        decreases i,
    {
        let m = &c.messages[i - 1];
        assert(ms.take(i as int).drop_last() =~= ms.take(i - 1));
        assert(ms.take(i as int).last() == m@);
        match m.sender {
            AlertSender::Operator => {},
            _ => {
                return owned(m.content.as_str());
            },
        }
        i = i - 1;
    }
    String::new()
}

/// The Slack message for `event` on conversation `c`.
pub fn slack_message(c: &AlertConversation, event: AlertEvent) -> (res: SlackMessage)
    requires
        slack_ready(c@),
    ensures
        res.header@ == slack_header(c@, event),
        res.body@ == truncate_spec(latest_report(c@.messages), SLACK_SECTION_BYTES as nat),
        match (if c@.messages.len() > 0 { c@.messages.last().suggested_command } else { None }) {
            Some(cmd) => res.suggested_fix matches Some(f) && f@ == "Suggested fix:\n```"@ + cmd + "```"@,
            None => res.suggested_fix is None,
        },
{
    let mut header = owned(emoji_of(c.severity));
    push_str(&mut header, " ");
    push_str(&mut header, event.label());
    push_str(&mut header, " — ");
    push_str(&mut header, c.service.as_str());
    push_str(&mut header, " (");
    push_str(&mut header, severity_label(c.severity));
    push_str(&mut header, ")");
    let latest = latest_report_of(c);
    let body = truncate(latest.as_str(), SLACK_SECTION_BYTES);
    let n = c.messages.len();
    let suggested_fix = if n > 0 {
        match &c.messages[n - 1].suggested_command {
            Some(cmd) => {
                let mut f = owned("Suggested fix:\n```");
                push_str(&mut f, cmd.as_str());
                push_str(&mut f, "```");
                Some(f)
            },
            None => None,
        }
    } else {
        None
    };
    proof {
        if n > 0 {
            assert(c@.messages.last() == c.messages@[n - 1]@);
        }
    }
    SlackMessage { header, body, suggested_fix }
}

// ---------------------------------------------------------------------------
// Email
// ---------------------------------------------------------------------------

/// The tag an email subject opens with.
pub open spec fn severity_tag(s: AlertSeverity) -> Seq<char> {
    match s {
        AlertSeverity::Critical => "[CRITICAL]"@,
        AlertSeverity::Warning => "[WARN]"@,
        AlertSeverity::Info => "[INFO]"@,
    }
}

/// An email subject: severity tag, event and service.
pub open spec fn subject_spec(c: ConversationView, e: AlertEvent) -> Seq<char> {
    severity_tag(c.severity) + " "@ + event_label(e) + " — "@ + c.service
}

/// The subject of the email for `event` on conversation `c`.
pub fn email_subject(c: &AlertConversation, event: AlertEvent) -> (res: String)
    ensures
        res@ == subject_spec(c@, event),
{
    let tag = match c.severity {
        AlertSeverity::Critical => "[CRITICAL]",
        AlertSeverity::Warning => "[WARN]",
        AlertSeverity::Info => "[INFO]",
    };
    let mut s = owned(tag);
    push_str(&mut s, " ");
    push_str(&mut s, event.label());
    push_str(&mut s, " — ");
    push_str(&mut s, c.service.as_str());
    s
}

/// A severity's name as the email shows it.
pub open spec fn severity_name(s: AlertSeverity) -> Seq<char> {
    match s {
        AlertSeverity::Critical => "Critical"@,
        AlertSeverity::Warning => "Warning"@,
        AlertSeverity::Info => "Info"@,
    }
}

/// A state's name as the email shows it.
pub open spec fn state_name(s: AlertState) -> Seq<char> {
    match s {
        AlertState::Investigating => "Investigating"@,
        AlertState::AwaitingAction => "AwaitingAction"@,
        AlertState::Remediated => "Remediated"@,
        AlertState::Resolved => "Resolved"@,
        AlertState::Dismissed => "Dismissed"@,
    }
}

/// Who wrote a message, as the email shows it.
pub open spec fn sender_name(s: AlertSender) -> Seq<char> {
    match s {
        AlertSender::Orca => "orca"@,
        AlertSender::Operator => "operator"@,
        AlertSender::System => "system"@,
    }
}

/// A time in RFC 3339 form, UTC, as `chrono`'s `DateTime::to_rfc3339`
/// writes it for `t` nanoseconds after the Unix epoch.
pub uninterp spec fn rfc3339_utc(t: i64) -> Seq<char>;

/// `chrono::DateTime::<Utc>::from_timestamp_nanos` then `to_rfc3339`; every
/// `i64` of nanoseconds is in chrono's range. The result is named.
#[verifier::external_body]
fn rfc3339(t: i64) -> (res: String)
    ensures
        res@ == rfc3339_utc(t),
{
    chrono::DateTime::from_timestamp_nanos(t).to_rfc3339()
}

/// Two digits of `n`, with a leading zero.
pub open spec fn two_digits(n: int) -> Seq<char> {
    seq![crate::text::digit_char((n / 10) as nat), crate::text::digit_char((n % 10) as nat)]
}

/// The time of day, `HH:MM:SS` in UTC, of `t` nanoseconds after the Unix
/// epoch (earlier times count back from it).
pub open spec fn clock_spec(t: i64) -> Seq<char> {
    let secs = (t as int) / 1_000_000_000;
    let day = secs % 86400;
    two_digits(day / 3600) + ":"@ + two_digits(day % 3600 / 60) + ":"@ + two_digits(day % 60)
}

fn push_two_digits(s: &mut String, n: u64)
    requires
        n < 100,
    ensures
        final(s)@ == old(s)@ + two_digits(n as int),
{
    push_char(s, digit(n / 10));
    push_char(s, digit(n % 10));
    assert(s@ =~= old(s)@ + two_digits(n as int));
}

/// The time of day of `t`, `HH:MM:SS` in UTC.
pub fn clock(t: i64) -> (res: String)
    ensures
        res@ == clock_spec(t),
{
    let day: u64 = if t >= 0 {
        let u = t as u64;
        let secs = u / 1_000_000_000;
        proof {
            vstd::arithmetic::div_mod::lemma_fundamental_div_mod_converse(t as int, 1_000_000_000, secs as int, (u % 1_000_000_000) as int);
            vstd::arithmetic::div_mod::lemma_fundamental_div_mod_converse(
                secs as int,
                86400,
                (secs / 86400) as int,
                (secs % 86400) as int,
            );
        }
        secs % 86400
    } else {
        let a: u64 = (-(t + 1)) as u64;
        let q = a / 1_000_000_000;
        let r1 = a % 1_000_000_000;
        let q2 = q / 86400;
        let r2 = q % 86400;
        proof {
            assert(t as int == (-(q as int) - 1) * 1_000_000_000 + (999_999_999 - r1)) by (nonlinear_arith)
                requires
                    a as int == -(t as int + 1),
                    a as int == q as int * 1_000_000_000 + r1 as int,
            ;
            vstd::arithmetic::div_mod::lemma_fundamental_div_mod_converse(t as int, 1_000_000_000, -(q as int) - 1, 999_999_999 - r1 as int);
            assert(-(q as int) - 1 == (-(q2 as int) - 1) * 86400 + (86399 - r2)) by (nonlinear_arith)
                requires
                    q as int == q2 as int * 86400 + r2 as int,
            ;
            vstd::arithmetic::div_mod::lemma_fundamental_div_mod_converse(
                -(q as int) - 1,
                86400,
                -(q2 as int) - 1,
                86399 - r2 as int,
            );
        }
        86399 - r2
    };
    assert(day as int == (t as int / 1_000_000_000) % 86400);
    let mut out = String::new();
    push_two_digits(&mut out, day / 3600);
    push_str(&mut out, ":");
    push_two_digits(&mut out, day % 3600 / 60);
    push_str(&mut out, ":");
    push_two_digits(&mut out, day % 60);
    out
}

/// The plain-text line of one message, with its suggested fix below it.
pub open spec fn message_lines(m: MessageView) -> Seq<char> {
    "["@ + clock_spec(m.timestamp) + "] "@ + sender_name(m.sender) + ": "@ + m.content + "\n"@ + match m.suggested_command {
        Some(cmd) => "  fix: "@ + cmd + "\n"@,
        None => Seq::empty(),
    }
}

/// The plain text of an alert email: a header of facts, then the whole
/// conversation.
pub open spec fn body_spec(c: ConversationView, e: AlertEvent) -> Seq<char> {
    "Service: "@ + c.service + "\n"@ + "Severity: "@ + severity_name(c.severity) + "\n"@ + "State: "@
        + state_name(c.state) + "\n"@ + "Event: "@ + event_label(e) + "\n"@ + "Started: "@ + rfc3339_utc(
        c.started_at,
    ) + "\n"@ + match c.resolved_at {
        Some(r) => "Resolved: "@ + rfc3339_utc(r) + "\n"@,
        None => Seq::empty(),
    } + "\n--- Conversation ---\n"@ + crate::text::concat_map(c.messages, |m: MessageView| message_lines(m))
}

fn severity_name_of(s: AlertSeverity) -> (res: &'static str)
    ensures
        res@ == severity_name(s),
{
    match s {
        AlertSeverity::Critical => "Critical",
        AlertSeverity::Warning => "Warning",
        AlertSeverity::Info => "Info",
    }
}

fn state_name_of(s: AlertState) -> (res: &'static str)
    ensures
        res@ == state_name(s),
{
    match s {
        AlertState::Investigating => "Investigating",
        AlertState::AwaitingAction => "AwaitingAction",
        AlertState::Remediated => "Remediated",
        AlertState::Resolved => "Resolved",
        AlertState::Dismissed => "Dismissed",
    }
}

fn sender_name_of(s: AlertSender) -> (res: &'static str)
    ensures
        res@ == sender_name(s),
{
    match s {
        AlertSender::Orca => "orca",
        AlertSender::Operator => "operator",
        AlertSender::System => "system",
    }
}

fn push_message_lines(out: &mut String, m: &AlertMessage)
    ensures
        final(out)@ == old(out)@ + message_lines(m@),
{
    push_str(out, "[");
    let t = clock(m.timestamp);
    push_str(out, t.as_str());
    push_str(out, "] ");
    push_str(out, sender_name_of(m.sender));
    push_str(out, ": ");
    push_str(out, m.content.as_str());
    push_str(out, "\n");
    if let Some(cmd) = &m.suggested_command {
        push_str(out, "  fix: ");
        push_str(out, cmd.as_str());
        push_str(out, "\n");
    }
    assert(out@ =~= old(out)@ + message_lines(m@));
}

/// The plain text of the email for `event` on conversation `c`.
pub fn email_body(c: &AlertConversation, event: AlertEvent) -> (res: String)
    ensures
        res@ == body_spec(c@, event),
{
    let mut out = String::new();
    push_str(&mut out, "Service: ");
    push_str(&mut out, c.service.as_str());
    push_str(&mut out, "\n");
    push_str(&mut out, "Severity: ");
    push_str(&mut out, severity_name_of(c.severity));
    push_str(&mut out, "\n");
    push_str(&mut out, "State: ");
    push_str(&mut out, state_name_of(c.state));
    push_str(&mut out, "\n");
    push_str(&mut out, "Event: ");
    push_str(&mut out, event.label());
    push_str(&mut out, "\n");
    push_str(&mut out, "Started: ");
    let started = rfc3339(c.started_at);
    push_str(&mut out, started.as_str());
    push_str(&mut out, "\n");
    if let Some(r) = c.resolved_at {
        push_str(&mut out, "Resolved: ");
        let resolved = rfc3339(r);
        push_str(&mut out, resolved.as_str());
        push_str(&mut out, "\n");
    }
    push_str(&mut out, "\n--- Conversation ---\n");
    let ghost head = out@;
    let ghost ms = c@.messages;
    let ghost f = |m: MessageView| message_lines(m);
    let mut i: usize = 0;
    while i < c.messages.len()
        invariant
            ms == crate::ai::alert::messages_view(c.messages@),
            f == (|m: MessageView| message_lines(m)),
            i <= c.messages.len(),
            out@ == head + crate::text::concat_map(ms.take(i as int), f),
        decreases c.messages.len() - i,
    {
        proof {
            crate::text::lemma_concat_map_step(ms, i as int, f);
        }
        let m = &c.messages[i];
        assert(ms[i as int] == m@);
        push_message_lines(&mut out, m);
        i = i + 1;
    }
    assert(ms.take(i as int) =~= ms);
    proof {
        assert(out@ =~= body_spec(c@, event));
    }
    out
}

/// The HTML `comrak` renders from `markdown` with the table,
/// strikethrough, tag-filter and autolink extensions on and every other
/// option at its default.
pub uninterp spec fn comrak_html(markdown: Seq<char>) -> Seq<char>;

/// `comrak::markdown_to_html` with `Options::default()` and the table,
/// strikethrough, tagfilter and autolink extensions switched on. The
/// result is named, not described. That the renderer returns for every
/// input, without panicking, is relied on: neither comrak's source nor its
/// documentation shows it.
#[verifier::external_body]
fn markdown_to_html(markdown: &str) -> (res: String)
    ensures
        res@ == comrak_html(markdown@),
{
    let mut opts = comrak::Options::default();
    opts.extension.table = true;
    opts.extension.strikethrough = true;
    opts.extension.tagfilter = true;
    opts.extension.autolink = true;
    comrak::markdown_to_html(markdown, &opts)
}

/// The document an HTML email wraps around the rendered body: inline
/// styles so common clients show tables and code blocks without help.
pub const HTML_HEAD: &'static str = "<!DOCTYPE html><html><head><meta charset=\"utf-8\"><style>body{font-family:-apple-system,system-ui,sans-serif;font-size:14px;color:#222;max-width:760px;margin:0 auto;padding:16px;line-height:1.5}code{background:#f4f4f4;border-radius:3px;padding:1px 4px;font-family:ui-monospace,Menlo,monospace}pre{background:#f4f4f4;border-radius:4px;padding:10px;overflow-x:auto;font-family:ui-monospace,Menlo,monospace;font-size:13px}pre code{background:transparent;padding:0}table{border-collapse:collapse;margin:8px 0}th,td{border:1px solid #ccc;padding:6px 10px;text-align:left}th{background:#f7f7f7}h1,h2,h3{margin-top:1em;margin-bottom:0.4em}blockquote{margin:0;padding-left:12px;border-left:3px solid #ddd;color:#666}</style></head><body>";

/// What closes the HTML document.
pub const HTML_TAIL: &'static str = "</body></html>";

/// The HTML version of an email body: its markdown rendered, in a small
/// styled document.
pub fn render_html(body: &str) -> (res: String)
    ensures
        res@ == HTML_HEAD@ + comrak_html(body@) + HTML_TAIL@,
{
    let mut out = owned(HTML_HEAD);
    let rendered = markdown_to_html(body);
    push_str(&mut out, rendered.as_str());
    push_str(&mut out, HTML_TAIL);
    out
}

} // verus!
