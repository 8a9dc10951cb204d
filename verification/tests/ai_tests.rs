use orca::ai::alert::{AlertConversation, AlertMessage, AlertSender, AlertSeverity, AlertState};
use orca::ai::backend::Role;
use orca::ai::channels::{
    char_boundary_at, slack_ready_exec, clock, configured_channels, email_body, email_subject, render_html, slack_message, truncate,
    AlertEvent, ChannelKind,
};
use orca::ai::command_parser::{extract_command, extract_line_command};
use orca::ai::context::{ClusterContext, NodeSummary, ServiceSummary};
use orca::ai::conversation::{open_prompt, ConversationEngine, ConversationError, ReplyStep};
use orca::ai::monitor_plan::{plan_alerts, self_resolved, DownTimers};
use orca::ai::stamps::{id_from, nanos_from_reading, next_in_order};
use orca::ai::ops::{
    ask_messages, backend_settings, chat_url, extract_toml_block, generate_messages, AiSettings,
    SettingsError, ASK_SYSTEM_PROMPT, GENERATE_SYSTEM_PROMPT,
};

#[test]
fn test_extract_command_plain_orca_command() {
    let response = "The service is overloaded. I recommend scaling it up:\norca scale api 5\nThis should help with the load.";
    let (cmd, _content) = extract_command(response);
    assert_eq!(cmd.unwrap(), "orca scale api 5");
}

#[test]
fn test_extract_command_backtick_wrapped() {
    let response = "Try running `orca config set max-replicas 10` to increase the limit.";
    let (cmd, _content) = extract_command(response);
    assert_eq!(cmd.unwrap(), "orca config set max-replicas 10");
}

#[test]
fn test_extract_command_no_command_returns_none() {
    let response = "Everything looks fine. No action needed at this time.";
    let (cmd, content) = extract_command(response);
    assert!(cmd.is_none());
    assert_eq!(content, response);
}

#[test]
fn the_engine_reads_whole_line_commands_only() {
    let (cmd, _) = extract_line_command("Try `orca scale api 5` now");
    assert!(cmd.is_none());
    let (cmd, _) = extract_line_command("Fix:\n```orca redeploy api```\n");
    assert_eq!(cmd.as_deref(), Some("orca redeploy api"));
}

fn service(name: &str, running: u32, desired: u32) -> ServiceSummary {
    ServiceSummary {
        name: name.to_string(),
        runtime: "container".to_string(),
        replicas_running: running,
        replicas_desired: desired,
        status: "degraded".to_string(),
        uses_gpu: false,
        recent_logs: vec![],
        error_count_1h: 0,
        restart_count_24h: 0,
    }
}

fn ctx(services: Vec<ServiceSummary>) -> ClusterContext {
    ClusterContext {
        cluster_name: "t".into(),
        nodes: Vec::new(),
        services,
        recent_events: Vec::new(),
        active_alerts: Vec::new(),
    }
}

#[test]
fn test_cluster_context_system_prompt_contains_sections() {
    let ctx = ClusterContext {
        cluster_name: "test-cluster".to_string(),
        nodes: vec![NodeSummary {
            id: "node-1".to_string(),
            address: "10.0.0.1".to_string(),
            status: "healthy".to_string(),
            cpu_percent: "42".to_string(),
            memory_percent: "60".to_string(),
            gpu_summary: vec![],
        }],
        services: vec![ServiceSummary {
            name: "api".to_string(),
            runtime: "container".to_string(),
            replicas_running: 2,
            replicas_desired: 3,
            status: "degraded".to_string(),
            uses_gpu: false,
            recent_logs: vec![],
            error_count_1h: 5,
            restart_count_24h: 1,
        }],
        recent_events: vec!["node-1 joined".to_string()],
        active_alerts: vec![],
    };
    let prompt = ctx.to_system_prompt();
    assert!(prompt.contains("test-cluster"));
    assert!(prompt.contains("## Nodes"));
    assert!(prompt.contains("## Services"));
    assert!(prompt.contains("## Recent Events"));
    assert!(prompt.contains("node-1"));
    assert!(prompt.contains("api"));
}

#[test]
fn test_system_prompt_includes_command_reference() {
    let ctx = ClusterContext {
        cluster_name: "x".into(),
        nodes: vec![],
        services: vec![],
        recent_events: vec![],
        active_alerts: vec![],
    };
    let prompt = ctx.to_system_prompt();
    assert!(prompt.contains("## Available `orca` commands"));
    assert!(prompt.contains("orca redeploy"));
    assert!(prompt.contains("orca logs"));
    assert!(prompt.contains("orca rollback"));
    assert!(prompt.contains("Not supported"));
    assert!(prompt.contains("`orca service <verb>`"));
}

#[test]
fn test_system_prompt_contains_sections() {
    assert!(ASK_SYSTEM_PROMPT.contains("orca"));
    assert!(ASK_SYSTEM_PROMPT.contains("Orca AI"));
    assert!(ASK_SYSTEM_PROMPT.contains("Diagnose"));
    assert!(GENERATE_SYSTEM_PROMPT.contains("orca"));
    assert!(GENERATE_SYSTEM_PROMPT.contains("service.toml"));
}

#[test]
fn test_build_context_with_empty_status() {
    let config = AiSettings {
        provider: "litellm".to_string(),
        endpoint: None,
        model: None,
        api_key: None,
    };
    let result = backend_settings(&config);
    assert!(result.is_err());
    assert!(result.unwrap_err().message().contains("No AI endpoint configured"));
}

#[test]
fn a_configured_backend_needs_a_model_too() {
    let config = AiSettings {
        provider: "litellm".to_string(),
        endpoint: Some("http://llm:4000/".to_string()),
        model: None,
        api_key: None,
    };
    assert_eq!(backend_settings(&config).unwrap_err(), SettingsError::NoModel);
    assert_eq!(chat_url("http://llm:4000//"), "http://llm:4000/v1/chat/completions");
}

#[test]
fn questions_carry_status_and_logs_or_say_they_are_missing() {
    let m = ask_messages("why?", "", "");
    assert_eq!(m.len(), 2);
    assert_eq!(m[0].role, Role::System);
    assert_eq!(m[0].content, ASK_SYSTEM_PROMPT);
    assert_eq!(
        m[1].content,
        "Context:\n(no status available — server may not be running)\n\nLogs:\n(no recent logs)\n\nQuestion: why?"
    );
    let g = generate_messages("a postgres");
    assert_eq!(g[1].content, "a postgres");
    assert_eq!(g[0].content, GENERATE_SYSTEM_PROMPT);
}

#[test]
fn test_extract_toml_block_with_fence() {
    let input = "Here is the config:\n```toml\n[[service]]\nname = \"pg\"\n```\nDone.";
    let result = extract_toml_block(input);
    assert_eq!(result, "[[service]]\nname = \"pg\"");
}

#[test]
fn test_extract_toml_block_no_fence() {
    let input = "[[service]]\nname = \"pg\"";
    let result = extract_toml_block(input);
    assert_eq!(result, input);
}

#[test]
fn an_unclosed_fence_leaves_the_answer_as_is() {
    let input = "```toml\n[[service]]";
    assert_eq!(extract_toml_block(input), input);
}

fn conv_with(suggested: Option<&str>) -> AlertConversation {
    AlertConversation {
        id: 7,
        service: "api".into(),
        severity: AlertSeverity::Critical,
        state: AlertState::AwaitingAction,
        started_at: 0,
        resolved_at: None,
        messages: vec![AlertMessage {
            timestamp: 0,
            sender: AlertSender::Orca,
            content: "Service is crash-looping. OOM in last 5 minutes.".into(),
            suggested_command: suggested.map(String::from),
        }],
    }
}

#[test]
fn payload_has_header_and_section_blocks() {
    let m = slack_message(&conv_with(None), AlertEvent::Opened);
    assert!(m.header.contains("Opened"));
    assert!(m.header.contains("api"));
    assert!(m.header.contains("critical"));
    assert_eq!(m.body, "Service is crash-looping. OOM in last 5 minutes.");
    assert!(m.suggested_fix.is_none());
}

#[test]
fn payload_includes_suggested_command_when_present() {
    let m = slack_message(&conv_with(Some("orca redeploy api")), AlertEvent::Opened);
    let last = m.suggested_fix.unwrap();
    assert!(last.contains("orca redeploy api"));
    assert!(last.contains("Suggested fix"));
}

#[test]
fn truncate_caps_long_strings() {
    let long = "x".repeat(5000);
    let out = truncate(&long, 100);
    assert!(out.ends_with("…"));
    assert!(out.len() < 200);
}

#[test]
fn the_slack_body_is_the_latest_report_not_the_operator() {
    let mut c = conv_with(None);
    c.messages.push(AlertMessage {
        timestamp: 1,
        sender: AlertSender::Operator,
        content: "what now?".into(),
        suggested_command: None,
    });
    let m = slack_message(&c, AlertEvent::Updated);
    assert_eq!(m.body, "Service is crash-looping. OOM in last 5 minutes.");
    assert_eq!(m.header, ":rotating_light: Updated — api (critical)");
}

#[test]
fn subject_includes_severity_event_and_service() {
    let mut conv = conv_with(Some("orca redeploy api"));
    conv.messages[0].content = "OOM detected".into();
    let s = email_subject(&conv, AlertEvent::Opened);
    assert!(s.contains("[CRITICAL]"));
    assert!(s.contains("Opened"));
    assert!(s.contains("api"));
}

#[test]
fn body_renders_messages_and_suggested_fix() {
    let mut conv = conv_with(Some("orca redeploy api"));
    conv.messages[0].content = "OOM detected".into();
    let body = email_body(&conv, AlertEvent::Opened);
    assert!(body.contains("Service: api"));
    assert!(body.contains("OOM detected"));
    assert!(body.contains("fix: orca redeploy api"));
}

#[test]
fn the_email_body_states_the_facts_first() {
    let mut conv = conv_with(None);
    conv.messages[0].timestamp = 3_723_000_000_000; // 01:02:03
    conv.resolved_at = Some(1_500_000_123);
    let body = email_body(&conv, AlertEvent::Resolved);
    assert!(body.contains("\nResolved: 1970-01-01T00:00:01.500000123+00:00\n"));
    assert!(body.starts_with("Service: api\nSeverity: Critical\nState: AwaitingAction\nEvent: Resolved\nStarted: 1970-01-01T00:00:00+00:00\n"));
    assert!(body.contains("\n--- Conversation ---\n[01:02:03] orca: Service is crash-looping."));
    assert_eq!(clock(-1_000_000_000), "23:59:59");
    assert_eq!(clock(-1), "23:59:59");
    assert_eq!(clock(86_399_999_999_999), "23:59:59");
    assert_eq!(clock(3_723_000_000_000), "01:02:03");
}

#[test]
fn html_wraps_the_rendered_markdown() {
    let html = render_html("**bold**");
    assert!(html.starts_with("<!DOCTYPE html>"));
    assert!(html.contains("<strong>bold</strong>"));
    assert!(html.ends_with("</body></html>"));
}

#[test]
fn channels_follow_the_configuration() {
    assert_eq!(configured_channels(true, false, true), vec![ChannelKind::Slack, ChannelKind::Email]);
    assert!(configured_channels(false, false, false).is_empty());
    assert_eq!(AlertEvent::Remediated.label(), "Remediated");
}

#[test]
fn down_within_grace_does_not_open_alert() {
    let c = ctx(vec![service("api", 0, 2)]);
    let mut timers = DownTimers::new();
    let active: Vec<String> = vec![];
    assert!(plan_alerts(&c, 1_000, 120_000, &mut timers, &active).is_empty());
    assert!(plan_alerts(&c, 2_000, 120_000, &mut timers, &active).is_empty());
    assert_eq!(timers.since(&"api".to_string()), Some(1_000));
}

#[test]
fn down_past_grace_opens_single_alert() {
    let c = ctx(vec![service("api", 0, 2)]);
    let mut timers = DownTimers::new();
    let first = plan_alerts(&c, 1_000, 0, &mut timers, &vec![]);
    assert_eq!(first.len(), 1);
    assert_eq!(first[0].severity, AlertSeverity::Critical);
    assert!(first[0].trigger.contains("0/2 replicas running"));
    // The alert is open now: the next cycle plans nothing more for it.
    let second = plan_alerts(&c, 2_000, 0, &mut timers, &vec!["api".to_string()]);
    assert!(second.is_empty());
}

#[test]
fn recovery_resets_grace_clock() {
    let mut c = ctx(vec![service("api", 0, 2)]);
    let mut timers = DownTimers::new();
    plan_alerts(&c, 1_000, 0, &mut timers, &vec![]);
    assert!(!timers.is_empty());
    c.services[0].replicas_running = 2;
    plan_alerts(&c, 2_000, 0, &mut timers, &vec![]);
    assert!(timers.is_empty(), "recovery must clear the per-service down timer");
}

#[test]
fn one_alert_per_service_and_the_first_rule_wins() {
    let mut s = service("api", 1, 2);
    s.restart_count_24h = 11;
    s.error_count_1h = 500;
    let plan = plan_alerts(&ctx(vec![s]), 0, 0, &mut DownTimers::new(), &vec![]);
    assert_eq!(plan.len(), 1);
    assert_eq!(plan[0].severity, AlertSeverity::Warning);
    assert!(plan[0].trigger.contains("has restarted 11 times"));
}

#[test]
fn healthy_services_resolve_their_alerts() {
    let c = ctx(vec![service("api", 2, 2), service("db", 0, 1)]);
    let a = conv_with(None);
    let mut b = conv_with(None);
    b.id = 8;
    b.service = "db".into();
    let active = vec![&a, &b];
    assert_eq!(self_resolved(&active, &c), vec![7]);
}

#[test]
fn a_conversation_opens_replies_and_closes() {
    let mut engine = ConversationEngine::new();
    let id = engine.record_open("api", AlertSeverity::Critical, "0/1 replicas running", Ok("OOM.\norca redeploy api".into()));
    let c = engine.get_conversation(id).unwrap();
    assert_eq!(c.state, AlertState::AwaitingAction);
    // A version 7 UUID whose time is the conversation's start.
    assert_eq!((id >> 76) & 0xF, 7);
    assert_eq!((id >> 62) & 0x3, 2);
    assert_eq!((id >> 80) as i64, c.started_at / 1_000_000);
    assert!(c.started_at > 1_600_000_000_000_000_000);
    assert_eq!(c.messages[0].sender, AlertSender::System);
    assert_eq!(c.messages[1].suggested_command.as_deref(), Some("orca redeploy api"));
    assert_eq!(engine.active_conversations().len(), 1);

    match engine.operator_reply(id, "why?", &ctx(vec![])).unwrap() {
        ReplyStep::AskModel(history) => {
            assert_eq!(history.len(), 4);
            assert_eq!(history[0].role, Role::System);
            assert_eq!(history[2].role, Role::Assistant);
            assert_eq!(history[3].content, "why?");
        }
        ReplyStep::Closed => panic!("a question is put to the model"),
    }
    engine.record_answer(id, "It ran out of memory.").unwrap();

    assert!(matches!(engine.operator_reply(id, "  DISMISS ", &ctx(vec![])), Ok(ReplyStep::Closed)));
    let c = engine.get_conversation(id).unwrap();
    assert_eq!(c.state, AlertState::Dismissed);
    assert_eq!(c.messages.last().unwrap().content, "Alert dismissed by operator.");
    assert!(engine.active_conversations().is_empty());
    assert_eq!(engine.all_conversations().len(), 1);
}

#[test]
fn a_failed_diagnosis_still_opens_an_alert() {
    let mut engine = ConversationEngine::new();
    let id = engine.record_open("litellm", AlertSeverity::Critical, "0/1 replicas running", Err("connection refused".into()));
    let c = engine.get_conversation(id).unwrap();
    assert_eq!(c.state, AlertState::Investigating);
    assert_eq!(c.messages[1].content, "AI diagnosis unavailable (connection refused)");
}

#[test]
fn unknown_conversations_are_reported() {
    assert_eq!(ConversationError::NotFound.message(), "conversation not found");
    let mut engine = ConversationEngine::new();
    assert_eq!(engine.record_answer(1, "x").unwrap_err(), ConversationError::NotFound);
    assert!(engine.operator_reply(1, "resolve", &ctx(vec![])).is_err());
    engine.mark_remediated(1, "restarted");
    assert!(engine.all_conversations().is_empty());
}

#[test]
fn remediation_closes_and_records_the_action() {
    let mut engine = ConversationEngine::new();
    let id = engine.record_open("api", AlertSeverity::Warning, "t", Ok("fine".into()));
    engine.mark_remediated(id, "redeployed api");
    let c = engine.get_conversation(id).unwrap();
    assert_eq!(c.state, AlertState::Remediated);
    assert!(c.resolved_at.is_some());
    assert_eq!(c.messages.last().unwrap().content, "Auto-remediation applied: redeployed api");
}

#[test]
fn the_opening_prompt_names_the_service_and_trigger() {
    let m = open_prompt("api", "boom", &ctx(vec![]));
    assert_eq!(m.len(), 2);
    assert!(m[1].content.starts_with("Alert triggered for service 'api': boom\n\nInvestigate this issue."));
}

#[test]
fn char_boundaries_fall_between_characters() {
    assert!(char_boundary_at("héllo", 0));
    assert!(char_boundary_at("héllo", 1));
    assert!(!char_boundary_at("héllo", 2));
    assert!(char_boundary_at("héllo", 3));
    assert!(char_boundary_at("héllo", 6));
    assert!(!char_boundary_at("héllo", 7));
    assert!(char_boundary_at("", 0));
}

#[test]
fn a_report_cut_inside_a_character_is_not_ready_for_slack() {
    assert!(slack_ready_exec(&conv_with(None)));
    let mut long = conv_with(None);
    long.messages[0].content = format!("{}é{}", "a".repeat(2899), "b".repeat(10));
    assert!(!slack_ready_exec(&long));
    long.messages[0].content = format!("{}é{}", "a".repeat(2898), "b".repeat(10));
    assert!(slack_ready_exec(&long));
    assert!(slack_message(&long, AlertEvent::Updated).body.ends_with("é…"));
}

#[test]
fn clock_readings_become_nanoseconds() {
    assert_eq!(nanos_from_reading(None), 0);
    assert_eq!(nanos_from_reading(Some((1, 5))), 1_000_000_005);
    assert_eq!(nanos_from_reading(Some((9_223_372_035, 999_999_999))), 9_223_372_035_999_999_999);
    assert_eq!(nanos_from_reading(Some((9_223_372_036, 0))), i64::MAX);
}

#[test]
fn ids_are_version_7_uuids_in_creation_order() {
    let drawn = [0xab, 0xcd, 0xff, 1, 2, 3, 4, 5, 6, 7];
    let id = id_from(1_497_624_119_000_001_234, 0, Some(drawn));
    assert_eq!(id, 0x015cb15a_86d8_7bcd_bf01_0203_0405_0607);
    let fallback = id_from(0, 0x0102_0304_0506_0708, None);
    assert_eq!(fallback, 0x0000_0000_0000_7000_8102_0304_0506_0708);
    assert_eq!(next_in_order(5, 3), 5);
    assert_eq!(next_in_order(3, 3), 4);
    assert_eq!(next_in_order(2, 3), 4);
    let mut engine = ConversationEngine::new();
    let a = engine.record_open("a", AlertSeverity::Info, "t", Err("x".into()));
    let b = engine.record_open("b", AlertSeverity::Info, "t", Err("x".into()));
    assert!(b > a);
}
