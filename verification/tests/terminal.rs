//! What is shown on the terminal.
use cxa::cli::{interval_label, watch_status};
use cxa::effects::Key;
use cxa::percent::Percent;
use cxa::terminal::{
    age_label, bucket_name, format_percent, paint, plan_label, progress_bar, render_usage,
    rendered_rows, reset_label, spinner_frame, title_case, usage_plan, usage_recency, usage_style,
    watch_exit_key, window_label, LiveRegion, Style, ACCENT, ERROR, MUTED, SUCCESS, WARNING,
};
use cxa::usage::{UsageBucket, UsageRecord, UsageWindow};

fn percent(value: f64) -> Percent {
    Percent { bits: value.to_bits() }
}

#[test]
fn progress_bar_clamps_and_fills_to_percentage() {
    assert_eq!(progress_bar(Some(percent(0.0))), "[░░░░░░░░░░░░░░░░]");
    assert_eq!(progress_bar(Some(percent(43.0))), "[███████░░░░░░░░░]");
    assert_eq!(progress_bar(Some(percent(100.0))), "[████████████████]");
    assert_eq!(progress_bar(Some(percent(120.0))), "[████████████████]");
}

#[test]
fn a_bar_is_always_as_wide() {
    for value in [0.0, 1.0, 3.125, 50.0, 99.0, 1e300] {
        assert_eq!(progress_bar(Some(percent(value))).chars().count(), 18);
    }
    assert_eq!(progress_bar(None).chars().count(), 18);
}

#[test]
fn a_bar_fills_as_more_is_used() {
    let mut filled = 0;
    for tenth in 0..1_300 {
        let bar = progress_bar(Some(percent(f64::from(tenth) / 10.0)));
        let now = bar.chars().filter(|&sign| sign == '█').count();
        assert!(filled <= now, "{tenth}");
        filled = now;
    }
    assert_eq!(filled, 16);
    assert_eq!(progress_bar(None), "[░░░░░░░░░░░░░░░░]");
}

#[test]
fn window_duration_has_a_human_label() {
    assert_eq!(window_label("primary", Some(300)), "5-hour");
    assert_eq!(window_label("secondary", Some(10_080)), "Weekly");
    assert_eq!(window_label("primary", None), "Primary");
}

#[test]
fn reset_time_is_compact() {
    assert_eq!(reset_label(1_000 + 4 * 3_600 + 59 * 60, 1_000), "resets in 4h 59m");
    assert_eq!(reset_label(1_000 + 6 * 86_400 + 11 * 3_600, 1_000), "resets in 6d 11h");
    assert_eq!(reset_label(900, 1_000), "reset pending");
}

#[test]
fn age_is_readable_without_timestamps() {
    assert_eq!(age_label(1_000, 1_030), "just now");
    assert_eq!(age_label(1_000, 1_300), "5m ago");
    assert_eq!(age_label(1_000, 8_200), "2h ago");
    assert_eq!(age_label(1_000, 260_200), "3d ago");
}

#[test]
fn pro_variants_show_the_selected_multiplier_mapping() {
    assert_eq!(plan_label("pro"), "Pro 20x");
    assert_eq!(plan_label("prolite"), "Pro 5x");
}

#[test]
fn other_plans_begin_with_a_capital() {
    assert_eq!(plan_label("team"), "Business");
    assert_eq!(plan_label("edu_plus"), "Edu Plus");
    assert_eq!(plan_label("free"), "Free");
    assert_eq!(title_case("straße"), "Straße");
    assert_eq!(title_case("ßa"), "SSa");
    assert_eq!(title_case(""), "");
}

#[test]
fn watch_exit_keys_are_q_and_control_c() {
    assert!(watch_exit_key(Key::Char('q'), false));
    assert!(watch_exit_key(Key::Char('Q'), false));
    assert!(watch_exit_key(Key::Char('c'), true));
    assert!(!watch_exit_key(Key::Char('c'), false));
    assert!(!watch_exit_key(Key::Other, true));
}

#[test]
fn rendered_row_count_ignores_styles_and_includes_wrapping() {
    assert_eq!(rendered_rows("12345\n", 5), 1);
    assert_eq!(rendered_rows("123456\n", 5), 2);
    assert_eq!(
        rendered_rows(&format!("{}123456{}\n", SUCCESS.start(), SUCCESS.end()), 5),
        2
    );
    assert_eq!(rendered_rows("\n", 5), 1);
}

#[test]
fn styles_are_written_as_control_sequences() {
    let accent = anstyle::AnsiColor::Cyan.on_default().effects(anstyle::Effects::BOLD);
    assert_eq!(paint(ACCENT, "x"), format!("{accent}x{accent:#}"));
    let muted = anstyle::Style::new().effects(anstyle::Effects::DIMMED);
    assert_eq!(paint(MUTED, "x"), format!("{muted}x{muted:#}"));
    assert_eq!(Style::Muted.end(), "\u{1b}[0m");
}

#[test]
fn the_colour_of_a_bar_tells_how_much_is_used() {
    assert_eq!(usage_style(Some(percent(100.0))), ERROR);
    assert_eq!(usage_style(Some(percent(80.0))), WARNING);
    assert_eq!(usage_style(Some(percent(79.9))), SUCCESS);
    assert_eq!(usage_style(None), MUTED);
}

#[test]
fn percentages_are_shown_to_one_place() {
    for value in [0.0, 1.0, 12.5, 12.25, 12.75, 99.95, 33.333, 100.0] {
        let expected = if value == f64::trunc(value) {
            format!("{value:.0}")
        } else {
            format!("{value:.1}")
        };
        assert_eq!(format_percent(percent(value)), expected);
    }
}

fn record() -> UsageRecord {
    UsageRecord {
        observed_at: 1_000,
        last_attempted_at: 1_000,
        buckets: vec![UsageBucket {
            limit_id: "codex".to_owned(),
            plan_type: Some("plus".to_owned()),
            primary_window: Some(UsageWindow {
                used_percent: Some(percent(25.0)),
                resets_at: Some(4_600),
                window_minutes: Some(300),
            }),
            ..UsageBucket::default()
        }],
        ..UsageRecord::default()
    }
}

#[test]
fn a_record_is_drawn_with_a_bar_for_each_window() {
    let text = render_usage(Some(&record()), 1_000);
    assert!(text.contains("5-hour"));
    assert!(text.contains("████"));
    assert!(text.contains("resets in 1h"));
    assert_eq!(usage_plan(Some(&record())).as_deref(), Some("Plus"));
    assert_eq!(usage_plan(None), None);
    assert_eq!(usage_recency(Some(&record()), 1_300).as_deref(), Some("updated 5m ago"));
}

#[test]
fn groups_of_models_have_a_name() {
    let mut bucket = UsageBucket { limit_id: "codex".to_owned(), ..UsageBucket::default() };
    assert_eq!(bucket_name(&bucket), "Codex");
    bucket.limit_name = Some("GPT-5.3-Codex-Spark".to_owned());
    assert_eq!(bucket_name(&bucket), "Codex Spark");
    bucket.limit_name = Some("Other-models".to_owned());
    assert_eq!(bucket_name(&bucket), "Other models");
}

#[test]
fn spinners_go_round() {
    assert_eq!(spinner_frame(0), "⠋");
    assert_eq!(spinner_frame(9), "⠏");
    assert_eq!(spinner_frame(10), spinner_frame(0));
}

#[test]
fn watch_countdown_uses_compact_time() {
    assert_eq!(interval_label(5), "5s");
    assert_eq!(interval_label(60), "1m 00s");
    assert_eq!(interval_label(125), "2m 05s");
}

#[test]
fn the_watch_line_asks_for_a_restart_where_one_is_needed() {
    assert!(watch_status(65, false).contains("Watching · refresh in 1m 05s · Ctrl-C to exit"));
    assert!(watch_status(5, true).contains("! Restart Codex/ChatGPT"));
}

#[test]
fn a_region_is_drawn_over_what_it_showed_before() {
    let mut region = LiveRegion::new(true);
    assert!(region.is_active());
    assert_eq!(region.width(Some((40, 10))), 40);
    assert_eq!(region.redraw("one\ntwo\n", Some((40, 10))), "\n\n\u{1b}[2A\u{1b}[s");
    assert_eq!(region.redraw("three\n", Some((40, 10))), "\u{1b}[u\u{1b}[J");
    let long = "line\n".repeat(9);
    assert_eq!(
        region.redraw(&long, Some((40, 10))),
        "\u{1b}[u\u{1b}[J\u{1b}[H\u{1b}[2J"
    );
    assert_eq!(region.redraw("short\n", Some((40, 10))), "\u{1b}[H\u{1b}[2J");
    assert_eq!(LiveRegion::new(false).redraw("one\n", None), "");
    assert!(!LiveRegion::new(false).is_active());
}
