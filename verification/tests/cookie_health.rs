use biliup_common::cookie_health::{
    classify_error, display, effective_quality_alert, notify_alert, notify_douyin_quality_fallback,
    quality_below_alert, quality_display, quality_rank, redact_sensitive, webhook_answer,
    webhook_request, webhook_verdict, CookieHealth, DingtalkReply, HealthErrorKind, WebhookRequest,
    ERROR_DEBOUNCE_MS,
};

#[test]
fn notify_alert_with_none_webhook_is_noop() {
    assert!(notify_alert(None, "t", "c").is_none());
    assert!(notify_alert(Some(""), "t", "c").is_none());
    assert!(notify_alert(Some("  "), "t", "c").is_none());
}

#[test]
fn timeout_is_transport_not_authentication() {
    assert_eq!(
        classify_error("request timed out while connecting"),
        HealthErrorKind::Transport
    );
}

#[test]
fn forbidden_is_authentication() {
    assert_eq!(
        classify_error("HTTP status 403 Forbidden"),
        HealthErrorKind::Authentication
    );
}

#[test]
fn signed_query_and_cookie_are_redacted() {
    let redacted = redact_sensitive(
        "GET https://example.test/live.flv?msToken=secret&a_bogus=also-secret Cookie=sessionid",
    );
    assert!(!redacted.contains("secret"));
    assert!(!redacted.contains("msToken="));
    assert!(!redacted.contains("a_bogus="));
    assert!(!redacted.contains("sessionid"));
}

#[test]
fn a_text_without_secrets_stays_as_it_is() {
    assert_eq!(redact_sensitive("nothing to hide here"), "nothing to hide here");
}

#[test]
fn effective_threshold_resolves_default_and_passthrough() {
    assert_eq!(effective_quality_alert(None), "uhd");
    assert_eq!(effective_quality_alert(Some("")), "uhd");
    assert_eq!(effective_quality_alert(Some("  ")), "uhd");
    assert_eq!(effective_quality_alert(Some("hd")), "hd");
    assert_eq!(effective_quality_alert(Some(" off ")), "off");
}

#[test]
fn below_threshold_triggers() {
    assert!(quality_below_alert("hd", Some("uhd")));
}

#[test]
fn at_or_above_threshold_no_trigger() {
    assert!(!quality_below_alert("uhd", Some("uhd")));
    assert!(!quality_below_alert("origin", Some("uhd")));
}

#[test]
fn off_disables() {
    assert!(!quality_below_alert("md", Some("off")));
}

#[test]
fn none_or_empty_defaults_to_uhd() {
    assert!(quality_below_alert("hd", None));
    assert!(quality_below_alert("hd", Some("")));
    assert!(!quality_below_alert("uhd", None));
}

#[test]
fn display_maps_codes() {
    assert_eq!(quality_display("uhd"), "蓝光");
    assert_eq!(quality_display("hd"), "超清");
    assert_eq!(quality_display("xxx"), "xxx");
}

#[test]
fn platforms_and_qualities_have_their_places() {
    assert_eq!(display("Douyin"), "抖音");
    assert_eq!(display("Other"), "Other");
    assert_eq!(quality_rank("origin"), 0);
    assert_eq!(quality_rank("md"), 5);
    assert_eq!(quality_rank("nonsense"), 6);
}

#[test]
fn a_degraded_recording_is_reported_with_both_qualities() {
    assert!(notify_douyin_quality_fallback("甲", None, None).is_none());
    assert!(notify_douyin_quality_fallback("甲", Some("origin"), None).is_none());
    let alert = notify_douyin_quality_fallback("甲", Some("hd"), Some("uhd")).unwrap();
    assert_eq!(alert.title, "⚠️ 抖音录制画质已降级");
    assert_eq!(
        alert.content,
        "甲：当前录制画质为 超清(hd)，低于告警阈值 蓝光(uhd)。可能由候选线路熔断或 cookie（sessionid）失效触发，建议检查。"
    );
}

#[test]
fn only_the_state_machine_declares_unhealthy_and_recovered() {
    let platform = "SyntheticTransition";
    let mut health = CookieHealth::new();
    let mut changes = Vec::new();
    for step in 0..3 {
        let report = health.record_error_at(platform, "401 unauthorized", step * ERROR_DEBOUNCE_MS * 2);
        assert_eq!(report.kind, HealthErrorKind::Authentication);
        assert!(report.reported);
        changes.push(report.became_unhealthy);
    }
    assert_eq!(changes, vec![None, None, Some(3)]);
    assert!(health.snapshot()[0].unhealthy);
    assert!(health.record_success(platform, 200_000).is_some());
    assert!(!health.snapshot()[0].unhealthy);

    // A second success does not repeat the recovery: the state is already healthy.
    assert!(health.record_success(platform, 200_001).is_none());
}

#[test]
fn debounced_repeats_do_not_multiply_events() {
    let platform = "SyntheticDebounce";
    let mut health = CookieHealth::new();
    let mut reported = 0;
    for step in 0..5 {
        let report = health.record_error_at(platform, "403 forbidden", 1_000 + step * 100);
        if report.reported {
            reported += 1;
        }
        assert_eq!(report.became_unhealthy, None);
    }
    assert_eq!(reported, 1);
}

#[test]
fn failure_kind_is_typed_and_carries_no_error_text() {
    let platform = "SyntheticKinds";
    let secret = "connection reset while fetching \
         https://example.invalid/live?token=super-secret-value";
    let mut health = CookieHealth::new();
    let kinds = vec![
        health.record_error_at(platform, secret, 1_000),
        health.record_error_at(platform, "503 service unavailable", 2_000),
        health.record_error_at(platform, "unexpected payload", 3_000),
    ];
    let found: Vec<HealthErrorKind> = kinds.iter().map(|report| report.kind).collect();
    assert_eq!(
        found,
        vec![
            HealthErrorKind::Transport,
            HealthErrorKind::Server,
            HealthErrorKind::InvalidResponse
        ]
    );
    for report in &kinds {
        assert_eq!(report.became_unhealthy, None);
        assert!(report.alert.is_none());
    }
    let stored = health.snapshot();
    assert_eq!(stored.len(), 1);
    assert!(!stored[0].unhealthy);
    assert_eq!(stored[0].transport_errors, 1);
    assert_eq!(stored[0].server_errors, 1);
    assert_eq!(stored[0].invalid_response_errors, 1);

    let mut one = CookieHealth::new();
    one.record_error_at(platform, secret, 1_000);
    let kept = one.snapshot()[0].last_error.clone().unwrap();
    assert!(!kept.contains("super-secret-value"));
}

#[test]
fn messages_go_out_in_the_form_of_their_receiver() {
    let WebhookRequest::PostText { url, text, dingtalk } =
        webhook_request("https://oapi.dingtalk.com/robot?x=1", "标题", "内容")
    else {
        panic!("a chat robot gets a text message");
    };
    assert_eq!(url, "https://oapi.dingtalk.com/robot?x=1");
    assert_eq!(text, "【biliup】标题\n内容");
    assert!(dingtalk);
    let WebhookRequest::PostText { text, dingtalk, .. } =
        webhook_request("https://qyapi.weixin.qq.com/hook", "a", "b")
    else {
        panic!("a chat robot gets a text message");
    };
    assert_eq!(text, "a\nb");
    assert!(!dingtalk);
    let WebhookRequest::Get { url } = webhook_request("https://push.test/{title}/{content}", "a b", "c&d")
    else {
        panic!("places in the address are filled in");
    };
    assert_eq!(url, "https://push.test/a%20b/c%26d");
    assert!(matches!(
        webhook_request("https://push.test/", "a", "b"),
        WebhookRequest::PostJson { .. }
    ));
}

#[test]
fn a_webhook_answer_is_judged_by_status_and_code() {
    assert_eq!(webhook_verdict(true, "200 OK", None), Ok(()));
    assert_eq!(
        webhook_verdict(false, "500 Internal Server Error", None),
        Err("Webhook 返回 HTTP 500 Internal Server Error".to_string())
    );
    assert_eq!(
        webhook_verdict(
            true,
            "200 OK",
            Some(DingtalkReply::Answer {
                errcode: Some(0),
                errmsg: None
            })
        ),
        Ok(())
    );
    assert_eq!(
        webhook_verdict(
            true,
            "200 OK",
            Some(DingtalkReply::Answer {
                errcode: Some(310000),
                errmsg: Some("keywords not in content".to_string())
            })
        ),
        Err("钉钉机器人拒绝消息：keywords not in content".to_string())
    );
    assert_eq!(
        webhook_verdict(
            true,
            "200 OK",
            Some(DingtalkReply::Answer {
                errcode: None,
                errmsg: None
            })
        ),
        Err("钉钉机器人拒绝消息：未知错误".to_string())
    );
    assert_eq!(
        webhook_verdict(
            true,
            "200 OK",
            Some(DingtalkReply::NotJson {
                error: "eof".to_string()
            })
        ),
        Err("钉钉响应不是合法 JSON：eof".to_string())
    );
}

#[test]
fn no_query_of_an_address_gets_through() {
    let shown = redact_sensitive(
        "why? see https://a.example/live.flv?sig=1&t=2#part and http://b.example/x?y=1, #2",
    );
    assert_eq!(shown, "why? see https://a.example/live.flv and http://b.example/x #2");
    let odd = redact_sensitive("GET https://[bad?sig=1 failed");
    assert_eq!(odd, "GET [REDACTED_URL] failed");
}

#[test]
fn the_start_of_a_bad_time_is_held_only_while_it_lasts() {
    let mut health = CookieHealth::new();
    for step in 0..3 {
        health.record_error_at("p", "401 unauthorized", 5 + step * ERROR_DEBOUNCE_MS * 2);
    }
    let held = &health.snapshot()[0];
    assert!(held.unhealthy);
    assert_eq!(held.since_ms, Some(5 + 2 * ERROR_DEBOUNCE_MS * 2));
    health.record_success("p", 900_000);
    let held = &health.snapshot()[0];
    assert!(!held.unhealthy);
    assert_eq!((held.since_ms, held.consecutive_errors), (None, 0));
}

#[test]
fn an_error_is_redacted_before_anything_is_made_of_it() {
    let raw = "401 unauthorized Cookie=sessionid-abc https://a.test/x?token=t-secret";
    let mut health = CookieHealth::new();
    for step in 0..3 {
        let report = health.record_error_at("p", raw, step * ERROR_DEBOUNCE_MS * 2);
        let shown = report.alert.map(|alert| alert.content).unwrap_or_default();
        assert!(!shown.contains("sessionid-abc") && !shown.contains("t-secret"));
    }
    let held = &health.snapshot()[0];
    assert!(held.unhealthy);
    let kept = held.last_error.as_deref().unwrap();
    assert_eq!(kept, redact_sensitive(raw));
    assert!(!kept.contains("sessionid-abc") && !kept.contains("t-secret"));
    assert_eq!(held.last_error_kind, Some(HealthErrorKind::Authentication));

    health.record_success("p", 900_000);
    let held = &health.snapshot()[0];
    assert_eq!((held.last_error.as_deref(), held.last_error_kind), (None, None));

    let mut plain = CookieHealth::new();
    plain.record_redacted_error("p", "503", 1);
    assert_eq!(plain.snapshot()[0].last_error.as_deref(), Some("503"));
}

#[test]
fn the_body_of_dingtalk_decides() {
    let ok = |body: &str| webhook_answer(true, "200 OK", true, body);
    assert_eq!(ok(r#"{"errcode":0,"errmsg":"ok"}"#), Ok(()));
    assert_eq!(
        ok(r#"{"errmsg":"keywords not in content","errcode":310000}"#),
        Err("钉钉机器人拒绝消息：keywords not in content".to_string())
    );
    for body in ["{}", "[]", "null", r#"{"errcode":"0","errmsg":7}"#, r#"{"errcode":0.0}"#] {
        assert_eq!(ok(body), Err("钉钉机器人拒绝消息：未知错误".to_string()), "{body}");
    }
    assert_eq!(
        ok("<html>"),
        Err("钉钉响应不是合法 JSON：expected value at line 1 column 1".to_string())
    );
    assert_eq!(webhook_answer(true, "200 OK", false, "<html>"), Ok(()));
    for dingtalk in [false, true] {
        assert_eq!(
            webhook_answer(false, "502 Bad Gateway", dingtalk, r#"{"errcode":0}"#),
            Err("Webhook 返回 HTTP 502 Bad Gateway".to_string())
        );
    }
}
