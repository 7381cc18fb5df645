use server_monitor::alert::{budget_alert, marker_to_store, usage_alert};
use server_monitor::marker::parse_marker;
use server_monitor::config::{AppConfig, MonitorConfig, TelegramConfig};
use server_monitor::sink::{delivered, rejection, send_request, SendRequest, SinkError};
use server_monitor::size::{SizeValue, Unit};
use server_monitor::threshold::{classify, evaluate, UsageBand};

#[test]
fn over_budget_alerts_with_both_sizes() {
    let budget = SizeValue::from_parts(10, Unit::GB);
    let current = SizeValue::from_bytes(13_249_974_108);
    assert_eq!(
        budget_alert(current, budget),
        Some(String::from(
            "\u{26a0}\u{fe0f} Server Alert: ~/.local/state is 12.33GB, exceeds threshold of 10GB"
        ))
    );
}

#[test]
fn at_or_under_budget_is_silent() {
    let budget = SizeValue::from_parts(10, Unit::GB);
    assert_eq!(budget_alert(budget, budget), None);
    assert_eq!(budget_alert(SizeValue::from_bytes(0), budget), None);
    assert_eq!(budget_alert(SizeValue::from_bytes(budget.bytes - 1), budget), None);
    assert!(budget_alert(SizeValue::from_bytes(budget.bytes + 1), budget).is_some());
}

#[test]
fn over_budget_alerts_on_every_cycle() {
    let budget = SizeValue::from_bytes(100);
    let current = SizeValue::from_bytes(101);
    let first = budget_alert(current, budget);
    let second = budget_alert(current, budget);
    assert_eq!(
        first,
        Some(String::from(
            "\u{26a0}\u{fe0f} Server Alert: ~/.local/state is 101B, exceeds threshold of 100B"
        ))
    );
    assert_eq!(first, second);
}

#[test]
fn a_new_rung_alerts_with_usage_and_rung() {
    assert_eq!(
        usage_alert(92, 90, None),
        Some(String::from(
            "\u{26a0}\u{fe0f} Server Alert: / disk usage at 92% (crossed 90% threshold)"
        ))
    );
    assert_eq!(
        usage_alert(100, 95, Some(90)),
        Some(String::from(
            "\u{26a0}\u{fe0f} Server Alert: / disk usage at 100% (crossed 95% threshold)"
        ))
    );
}

#[test]
fn a_known_rung_raises_no_alert() {
    assert_eq!(usage_alert(92, 90, Some(90)), None);
    assert_eq!(usage_alert(92, 90, Some(95)), None);
}

#[test]
fn the_marker_is_written_only_after_delivery() {
    assert_eq!(marker_to_store(90, true), Some(String::from("90")));
    assert_eq!(marker_to_store(50, true), Some(String::from("50")));
    assert_eq!(marker_to_store(90, false), None);
    let stored = marker_to_store(90, true).unwrap();
    assert!(usage_alert(92, 90, parse_marker(&stored)).is_none());
    assert!(usage_alert(96, 95, parse_marker(&stored)).is_some());
}

#[test]
fn an_undelivered_alert_is_raised_again() {
    let before = Some(70);
    assert!(usage_alert(92, 90, before).is_some());
    assert_eq!(marker_to_store(90, false), None);
    assert!(usage_alert(92, 90, before).is_some());
}

#[test]
fn the_request_names_bot_chat_and_text() {
    let config = TelegramConfig {
        bot_token: String::from("123:abc"),
        alerts_chat: String::from("-1001"),
    };
    assert_eq!(
        send_request(&config, "disk is full"),
        SendRequest {
            url: String::from("https://api.telegram.org/bot123:abc/sendMessage"),
            chat_id: String::from("-1001"),
            text: String::from("disk is full"),
        }
    );
}

#[test]
fn only_a_2xx_answer_is_a_delivery() {
    for status in [200u16, 201, 204, 299] {
        assert!(delivered(status), "{}", status);
    }
    for status in [0u16, 100, 199, 300, 301, 400, 404, 500, 65535] {
        assert!(!delivered(status), "{}", status);
    }
}

#[test]
fn a_rejection_carries_the_body() {
    let error = rejection("chat not found");
    assert_eq!(
        error,
        SinkError::Rejected {
            message: String::from("Failed to send Telegram message: chat not found")
        }
    );
    assert_eq!(error.message(), "Failed to send Telegram message: chat not found");
}

#[test]
fn default_settings() {
    let monitor = MonitorConfig::default();
    assert_eq!(monitor.max_size, SizeValue { bytes: 10_737_418_240 });
    assert_eq!(monitor.max_size.render(), "10GB");
    let telegram = TelegramConfig::default();
    assert_eq!(telegram.bot_token, "");
    assert_eq!(telegram.alerts_chat, "");
    let all = AppConfig::default();
    assert_eq!(all.monitor.max_size, monitor.max_size);
    assert_eq!(all.telegram.bot_token, "");
    let copy = all.clone();
    assert_eq!(copy.telegram.alerts_chat, all.telegram.alerts_chat);
}

#[test]
fn the_alert_follows_the_tracker() {
    for usage in 0..=255u8 {
        for marker in [None, Some(0), Some(50), Some(55), Some(90), Some(95), Some(255)] {
            let decision = evaluate(usage, marker);
            match classify(usage) {
                UsageBand::AtRung(rung) => {
                    let message = usage_alert(usage, rung, marker);
                    assert_eq!(message.is_some(), decision.alert == Some(rung));
                    if message.is_some() {
                        assert_eq!(parse_marker(&marker_to_store(rung, true).unwrap()), decision.marker);
                    }
                }
                UsageBand::Quiet => assert_eq!(decision.marker, marker),
                UsageBand::BelowFloor => assert_eq!(decision.marker, None),
            }
            if decision.alert.is_some() {
                assert_eq!(evaluate(usage, None).alert, decision.alert);
            }
        }
    }
}
