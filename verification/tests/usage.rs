//! Quota records: exhaustion, labels, and the policy of weekly resets.
use cxa::app_server::{
    normalize_cancellable_query, parse_bucket, parse_usage, query_profile, read_line,
    unavailable_usage, usage_of, CancellationToken,
};
use cxa::boost_policy::{
    check_deadline, has_weekly_quota, parse_deadline, weekly_reset_detected, WEEKLY_WINDOW_MINUTES,
};
use cxa::cli::usage_to_write;
use cxa::error::Error;
use cxa::json::Json;
use cxa::percent::{complement, filled_cells, from_integer, Percent};
use cxa::usage::{UsageBucket, UsageRecord, UsageWindow};

const NOW: i64 = 1_789_200_000;

fn percent(value: f64) -> Percent {
    Percent { bits: value.to_bits() }
}

fn json(text: &str) -> Json {
    match read_line(&text.as_bytes().to_vec()) {
        Ok(value) => value,
        Err(complaint) => panic!("{complaint}"),
    }
}

fn label(usage: &UsageRecord, now: i64) -> String {
    let used: Vec<String> = usage
        .windows()
        .iter()
        .map(|window| {
            window
                .used_percent
                .map(|percent| format!("{}", f64::from_bits(percent.bits)))
                .unwrap_or_default()
        })
        .collect();
    usage.label(now, &usage.shown(&used))
}

fn limit(used: f64, resets_at: Option<i64>) -> UsageWindow {
    UsageWindow { used_percent: Some(percent(used)), resets_at, window_minutes: None }
}

#[test]
fn quota_label_reports_windows_credits_and_age() {
    let now = 10_000;
    let usage = UsageRecord {
        observed_at: now - 7_200,
        primary_window: Some(UsageWindow {
            used_percent: Some(percent(100.0)),
            resets_at: Some(now - 1),
            window_minutes: Some(300),
        }),
        reached: true,
        has_credits: Some(false),
        unlimited: Some(false),
        balance: Some(Json::Text("0".to_owned())),
        ..UsageRecord::default()
    };

    let label = label(&usage, now);
    assert!(label.contains("primary 100% used"));
    assert!(label.contains("(passed)"));
    assert!(!label.contains("EXHAUSTED"));
    assert!(label.contains("no credits"));
    assert!(label.contains("seen 2h ago"));
}

#[test]
fn a_label_says_how_far_the_end_of_a_window_is() {
    let now = 10_000;
    let usage = UsageRecord {
        observed_at: now,
        primary_window: Some(limit(12.5, Some(now + 7_200))),
        plan_type: Some("plus".to_owned()),
        ..UsageRecord::default()
    };

    let label = label(&usage, now);
    assert!(label.starts_with("primary 12.5% used, primary resets "));
    assert!(label.ends_with(" (in 2h), plus, seen just now"));

    let beyond = UsageRecord {
        secondary_window: Some(limit(1.0, Some(i64::MAX))),
        ..UsageRecord::default()
    };
    let shown = beyond.shown(&vec!["1".to_owned()]);
    assert_eq!(shown[0].used, "1");
    assert_eq!(shown[0].when, "9223372036854775807");
}

#[test]
fn the_local_time_of_a_reset_is_shown() {
    let usage = UsageRecord {
        primary_window: Some(limit(1.0, Some(1_789_254_000))),
        ..UsageRecord::default()
    };

    let shown = usage.shown(&vec!["1".to_owned()]);
    let expected = chrono::DateTime::from_timestamp(1_789_254_000, 0)
        .unwrap()
        .with_timezone(&chrono::Local)
        .format("%b %d %H:%M")
        .to_string();
    assert_eq!(shown[0].when, expected);
    assert!(shown[0].when.starts_with("Sep 1"));
}

#[test]
fn expired_percent_limit_is_not_currently_exhausted() {
    let now = 10_000;
    let usage = UsageRecord {
        primary_window: Some(limit(100.0, Some(now - 1))),
        reached: true,
        ..UsageRecord::default()
    };

    assert!(!usage.exhausted_now(now));
}

#[test]
fn spend_control_remains_exhausted_after_a_percent_window_resets() {
    let now = 10_000;
    let usage = UsageRecord {
        primary_window: Some(limit(100.0, Some(now - 1))),
        individual_window: Some(limit(100.0, Some(now + 1))),
        reached: true,
        spend_control_reached: true,
        ..UsageRecord::default()
    };

    assert!(usage.exhausted_now(now));
}

#[test]
fn spend_control_expires_with_its_individual_limit() {
    let now = 10_000;
    let usage = UsageRecord {
        individual_window: Some(limit(75.0, Some(now - 1))),
        reached: true,
        spend_control_reached: true,
        ..UsageRecord::default()
    };

    assert!(!usage.exhausted_now(now));
}

#[test]
fn credit_depletion_is_currently_exhausted() {
    let usage = UsageRecord {
        reached: true,
        reached_type: Some("workspace_member_credits_depleted".to_owned()),
        ..UsageRecord::default()
    };

    assert!(usage.exhausted_now(10_000));
}

#[test]
fn exhaustion_only_ends_as_time_goes_on() {
    let usage = UsageRecord {
        primary_window: Some(limit(100.0, Some(500))),
        reached: true,
        ..UsageRecord::default()
    };

    assert!(usage.exhausted_now(499));
    assert!(!usage.exhausted_now(500));
    assert!(!usage.exhausted_now(10_000));
}

#[test]
fn an_account_is_exhausted_until_the_last_of_its_groups_is_not() {
    let group = |resets_at| UsageBucket {
        limit_id: "codex".to_owned(),
        primary_window: Some(limit(100.0, Some(resets_at))),
        reached: true,
        ..UsageBucket::default()
    };
    let usage = UsageRecord { buckets: vec![group(500), group(900)], ..UsageRecord::default() };

    assert!(usage.exhausted_now(499));
    assert!(usage.exhausted_now(899));
    assert!(!usage.exhausted_now(900));
    assert!(!usage.exhausted_now(10_000));
}

#[test]
fn the_largest_current_percentage_counts() {
    let usage = UsageRecord {
        primary_window: Some(limit(30.0, Some(500))),
        secondary_window: Some(limit(70.5, Some(900))),
        ..UsageRecord::default()
    };

    assert_eq!(usage.max_current_used_percent(100), Some(percent(70.5)));
    assert_eq!(usage.max_current_used_percent(600), Some(percent(70.5)));
    assert_eq!(usage.max_current_used_percent(1_000), None);
    assert_eq!(UsageRecord::default().max_current_used_percent(0), None);
}

// ---------------------------------------------------------------- reading answers

#[test]
fn parses_quota_windows() {
    let usage = parse_usage(
        &json(
            r#"{"rateLimits": {
                "primary": {"usedPercent": 25.0, "resetsAt": 1234},
                "credits": {"hasCredits": false, "unlimited": false}
            }}"#,
        ),
        NOW,
    )
    .ok()
    .unwrap();

    let bucket = &usage.buckets[0];
    assert_eq!(bucket.primary_window.unwrap().used_percent, Some(percent(25.0)));
    assert_eq!(bucket.primary_window.unwrap().resets_at, Some(1234));
    assert!(!usage.exhausted_now(NOW));
    assert!(!label(&usage, NOW).contains("no credits"));
}

#[test]
fn parses_every_named_quota_bucket() {
    let usage = parse_usage(
        &json(
            r#"{
                "rateLimits": {"primary": {"usedPercent": 1.0}},
                "rateLimitsByLimitId": {
                    "codex": {"limitId": "codex", "primary": {"usedPercent": 25.0}},
                    "codex_other": {
                        "limitId": "codex_other",
                        "limitName": "Other models",
                        "primary": {"usedPercent": 100.0}
                    }
                }
            }"#,
        ),
        NOW,
    )
    .ok()
    .unwrap();

    assert_eq!(usage.buckets.len(), 2);
    assert_eq!(usage.buckets[1].limit_name.as_deref(), Some("Other models"));
    assert!(usage.exhausted_now(NOW));
    assert!(label(&usage, NOW).contains("Other models EXHAUSTED"));
}

#[test]
fn an_answer_without_limits_is_a_protocol_error() {
    let error = parse_usage(&json("{}"), NOW).err().unwrap();
    assert!(matches!(&error, Error::Protocol(text)
        if text == "account/rateLimits/read returned no limits"));
    assert!(usage_of(Err(Error::Timeout), NOW).is_err());
    assert!(usage_of(Ok(json(r#"{"rateLimits": {}}"#)), NOW).is_ok());
}

#[test]
fn a_bucket_holds_what_its_limits_say() {
    let bucket = parse_bucket(
        "codex",
        &json(
            r#"{
                "limitName": "Codex",
                "secondary": {"usedPercent": 3, "windowDurationMins": 10080},
                "planType": "plus",
                "rateLimitReachedType": "rate_limit_reached"
            }"#,
        ),
    );

    assert_eq!(bucket.limit_id, "codex");
    assert_eq!(bucket.limit_name.as_deref(), Some("Codex"));
    assert!(bucket.primary_window.is_none());
    let weekly = bucket.secondary_window.unwrap();
    assert_eq!(weekly.used_percent, Some(percent(3.0)));
    assert_eq!(weekly.window_minutes, Some(10_080));
    assert_eq!(bucket.plan_type.as_deref(), Some("plus"));
}

#[test]
fn cancellable_queries_only_propagate_cancellation() {
    let (usage, session_changed) = normalize_cancellable_query(
        Err(Error::Protocol("temporary setup failure".to_owned())),
        NOW,
    )
    .ok()
    .unwrap();
    assert!(!session_changed);
    assert!(usage.error.as_deref().unwrap().contains("Protocol"));
    assert!(matches!(
        normalize_cancellable_query(Err(Error::Cancelled), NOW),
        Err(Error::Cancelled)
    ));
    assert!(matches!(
        normalize_cancellable_query(Ok((Err(Error::Cancelled), false)), NOW),
        Err(Error::Cancelled)
    ));
}

#[test]
fn a_failed_reading_is_recorded_as_unavailable() {
    let (usage, changed) = query_profile(Ok((Err(Error::Timeout), true)), NOW);
    assert_eq!(usage.error.as_deref(), Some("quota unavailable (Timeout)"));
    assert_eq!(usage.observed_at, NOW);
    assert!(changed);
    assert_eq!(
        unavailable_usage(&Error::RecoveryDeferred, 7).error.as_deref(),
        Some("quota unavailable (Error)")
    );
}

#[test]
fn a_cancelled_token_stays_cancelled() {
    let mut token = CancellationToken::new();
    assert!(!token.is_cancelled());
    token.cancel();
    token.cancel();
    assert!(token.is_cancelled());
}

// ---------------------------------------------------------------- what is recorded

#[test]
fn failed_refresh_preserves_successful_usage() {
    let previous = UsageRecord { observed_at: 1, last_attempted_at: 1, ..UsageRecord::default() };
    let failed = UsageRecord {
        observed_at: 2,
        last_attempted_at: 2,
        error: Some("quota unavailable (Timeout)".to_owned()),
        ..UsageRecord::default()
    };

    let retained = usage_to_write(Some(&previous), &failed);
    assert_eq!(retained.observed_at, 1);
    assert_eq!(retained.last_attempted_at, 2);
    assert!(retained.succeeded());

    let later = usage_to_write(Some(&retained), &failed);
    assert_eq!(later.observed_at, 1);
    assert!(later.succeeded());
    assert!(!usage_to_write(None, &failed).succeeded());
    assert_eq!(usage_to_write(Some(&failed), &previous).observed_at, 1);
}

// ---------------------------------------------------------------- weekly resets

fn window(used: f64, resets_at: Option<i64>) -> UsageWindow {
    UsageWindow {
        used_percent: Some(percent(used)),
        resets_at,
        window_minutes: Some(WEEKLY_WINDOW_MINUTES),
    }
}

fn usage(observed_at: i64, bucket: UsageBucket) -> UsageRecord {
    UsageRecord {
        observed_at,
        last_attempted_at: observed_at,
        buckets: vec![bucket],
        ..UsageRecord::default()
    }
}

fn bucket(limit_id: &str, limit_name: Option<&str>, weekly: UsageWindow) -> UsageBucket {
    UsageBucket {
        limit_id: limit_id.to_owned(),
        limit_name: limit_name.map(|name| name.to_owned()),
        secondary_window: Some(weekly),
        ..UsageBucket::default()
    }
}

#[test]
fn parses_timezone_qualified_future_deadline() {
    let deadline = parse_deadline("2026-09-13T09:00:00+10:00", 1_789_200_000).ok().unwrap();

    assert_eq!(deadline, 1_789_254_000);
}

#[test]
fn rejects_deadline_without_timezone_or_in_the_past() {
    assert!(parse_deadline("2026-09-13T09:00:00", 0).is_err());
    assert!(parse_deadline("2026-09-13T09:00:00Z", 1_789_290_000).is_err());
    assert!(check_deadline(10, 10).is_err());
    assert_eq!(check_deadline(11, 10).ok(), Some(11));
}

#[test]
fn detects_weekly_usage_drop_in_regular_codex_bucket() {
    let previous = usage(100, bucket("codex", None, window(64.0, None)));
    let current = usage(200, bucket("codex", None, window(3.0, None)));

    assert!(weekly_reset_detected(&previous, &current));
}

#[test]
fn weekly_monitoring_requires_usable_regular_quota() {
    let mut snapshot = usage(100, bucket("codex", None, window(64.0, None)));
    assert!(has_weekly_quota(&snapshot));

    snapshot.buckets[0].secondary_window.as_mut().unwrap().used_percent = None;
    assert!(!has_weekly_quota(&snapshot));
    snapshot.buckets[0].secondary_window = Some(window(64.0, None));
    snapshot.buckets[0].limit_id = "codex_bengalfox".to_owned();
    assert!(!has_weekly_quota(&snapshot));
    snapshot.buckets[0].limit_id = "codex".to_owned();
    snapshot.error = Some("quota unavailable".to_owned());
    assert!(!has_weekly_quota(&snapshot));
}

#[test]
fn detects_zero_to_zero_rollover_at_announced_boundary() {
    let previous = usage(100, bucket("codex", None, window(0.0, Some(150))));
    let current = usage(200, bucket("codex", None, window(0.0, Some(750))));

    assert!(weekly_reset_detected(&previous, &current));
}

#[test]
fn ignores_spark_and_non_codex_buckets() {
    for candidate in [
        bucket("codex_bengalfox", None, window(80.0, None)),
        bucket("codex_special", Some("GPT-5.3-Codex-Spark"), window(80.0, None)),
        bucket("api", Some("API"), window(80.0, None)),
    ] {
        let previous = usage(100, candidate.clone());
        let mut current_bucket = candidate;
        current_bucket.secondary_window = Some(window(1.0, None));
        let current = usage(200, current_bucket);

        assert!(!weekly_reset_detected(&previous, &current));
    }
}

#[test]
fn requires_fresh_successful_observations_with_valid_weekly_percentages() {
    let previous = usage(100, bucket("codex", None, window(80.0, None)));

    let mut stale = usage(100, bucket("codex", None, window(1.0, None)));
    assert!(!weekly_reset_detected(&previous, &stale));

    stale.observed_at = 200;
    stale.error = Some("quota unavailable".to_owned());
    assert!(!weekly_reset_detected(&previous, &stale));

    let missing = UsageRecord { observed_at: 200, ..UsageRecord::default() };
    assert!(!weekly_reset_detected(&previous, &missing));

    let invalid = usage(200, bucket("codex", None, window(f64::NAN, None)));
    assert!(!weekly_reset_detected(&previous, &invalid));

    let mut five_hour = window(1.0, None);
    five_hour.window_minutes = Some(300);
    let wrong_duration = usage(200, bucket("codex", None, five_hour));
    assert!(!weekly_reset_detected(&previous, &wrong_duration));
}

#[test]
fn reset_timestamp_advance_without_crossing_boundary_is_not_enough() {
    let previous = usage(100, bucket("codex", None, window(40.0, Some(300))));
    let current = usage(200, bucket("codex", None, window(40.0, Some(900))));

    assert!(!weekly_reset_detected(&previous, &current));
}

// ---------------------------------------------------------------- percentages

#[test]
fn percentages_agree_with_floating_point() {
    for a in [0.0, 0.5, 1.0, 43.0, 79.999, 80.0, 99.9, 100.0, 120.0] {
        for b in [0.0, 0.5, 1.0, 43.0, 79.999, 80.0, 99.9, 100.0, 120.0] {
            assert_eq!(percent(a).below(percent(b)), a < b);
        }
        assert_eq!(percent(a).reaches_hundred(), a >= 100.0);
        assert_eq!(percent(a).reaches_eighty(), a >= 80.0);
    }
    for n in [0i128, 1, 2, 3, 100, 255, 4_503_599_627_370_497, 9_007_199_254_740_993] {
        assert_eq!(from_integer(n), percent(n as f64));
        assert_eq!(from_integer(-n).bits, if n == 0 { 0 } else { (-(n as f64)).to_bits() });
    }
    assert!(!percent(f64::NAN).is_valid());
    assert!(percent(43.0).is_valid());
}

#[test]
fn cells_and_complements_are_rounded() {
    assert_eq!(filled_cells(percent(43.0)), 7);
    assert_eq!(filled_cells(percent(120.0)), 16);
    assert_eq!(filled_cells(percent(3.125)), 1);
    for value in [0.0, 0.1, 12.5, 33.3, 57.0, 99.99, 100.0] {
        assert_eq!(complement(percent(value)), percent(100.0 - value));
    }
}
