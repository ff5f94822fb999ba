//! What is shown on the terminal.
use crate::effects::{
    ask, done, done_run, flag, flag_run, mismatch, mismatched, told, Halt, Key, Reply, Request,
    RequestView, Run, TerminalEvent,
};
use crate::percent::{bar_cells, filled_cells, law_bar_fills, lemma_cells, show, shown, Percent};
use crate::text::{
    chars_of, decimal, decimal_text, replace, replaced, same, text_of, to_uppercase, uppercase_of,
};
use crate::usage::{window_views, UsageBucket, UsageRecord, UsageWindow};
use vstd::prelude::*;

verus! {

/// A way to set off text.
#[derive(Clone, Copy, PartialEq, Eq, Structural, Debug)]
pub enum Style {
    Accent,
    Success,
    Warning,
    Error,
    Emphasis,
    Muted,
}

pub const ACCENT: Style = Style::Accent;

pub const SUCCESS: Style = Style::Success;

pub const WARNING: Style = Style::Warning;

pub const ERROR: Style = Style::Error;

pub const EMPHASIS: Style = Style::Emphasis;

pub const MUTED: Style = Style::Muted;

/// How many cells a bar has.
pub const BAR_WIDTH: usize = 16;

// ---------------------------------------------------------------- styles

/// The number of a style's color, if it has one.
pub open spec fn color_of(style: Style) -> Option<u8> {
    match style {
        Style::Accent => Some(6u8),
        Style::Success => Some(2u8),
        Style::Warning => Some(3u8),
        Style::Error => Some(1u8),
        Style::Emphasis | Style::Muted => None,
    }
}

/// The control sequences that switch effects and one of the eight colors on.
pub open spec fn sequences(color: Option<u8>, bold: bool, dimmed: bool) -> Seq<char> {
    (if bold {
        "\x1b[1m"@
    } else {
        ""@
    }) + (if dimmed {
        "\x1b[2m"@
    } else {
        ""@
    }) + (match color {
        Some(number) => "\x1b[3"@ + decimal_text(number as nat) + "m"@,
        None => ""@,
    })
}

/// `anstyle::Style::render`: the control sequences of the effects, in the order bold and dimmed,
/// and of the color, which `Ansi256Color::into_ansi` picks by its number.
#[verifier::external_body]
fn render_start(color: Option<u8>, bold: bool, dimmed: bool) -> (r: String)
    requires
        color matches Some(number) ==> number < 8,
    ensures
        r@ == sequences(color, bold, dimmed),
{
    let color = color.and_then(|number| anstyle::Ansi256Color(number).into_ansi()).map(anstyle::Color::Ansi);
    let effects = anstyle::Effects::new().set(anstyle::Effects::BOLD, bold).set(anstyle::Effects::DIMMED, dimmed);
    anstyle::Style::new().fg_color(color).effects(effects).render().to_string()
}

/// `anstyle::Style::render_reset`: the control sequence that ends a style, nothing where there is
/// nothing to end.
#[verifier::external_body]
fn render_end(color: Option<u8>, bold: bool, dimmed: bool) -> (r: String)
    requires
        color matches Some(number) ==> number < 8,
    ensures
        r@ == (if color is Some || bold || dimmed {
            "\x1b[0m"@
        } else {
            ""@
        }),
{
    let color = color.and_then(|number| anstyle::Ansi256Color(number).into_ansi()).map(anstyle::Color::Ansi);
    let effects = anstyle::Effects::new().set(anstyle::Effects::BOLD, bold).set(anstyle::Effects::DIMMED, dimmed);
    anstyle::Style::new().fg_color(color).effects(effects).render_reset().to_string()
}

impl Style {
    /// What begins text in this style.
    pub open spec fn opening(self) -> Seq<char> {
        sequences(color_of(self), self != Style::Muted, self == Style::Muted)
    }

    /// What ends text in this style.
    pub open spec fn closing(self) -> Seq<char> {
        "\x1b[0m"@
    }

    fn color(self) -> (r: Option<u8>)
        ensures
            r == color_of(self),
    {
        match self {
            Style::Accent => Some(6),
            Style::Success => Some(2),
            Style::Warning => Some(3),
            Style::Error => Some(1),
            Style::Emphasis | Style::Muted => None,
        }
    }

    /// What begins text in this style.
    pub fn start(self) -> (r: String)
        ensures
            r@ == self.opening(),
    {
        render_start(self.color(), self != Style::Muted, self == Style::Muted)
    }

    /// What ends text in this style.
    pub fn end(self) -> (r: String)
        ensures
            r@ == self.closing(),
    {
        render_end(self.color(), self != Style::Muted, self == Style::Muted)
    }
}

/// Text in a style.
pub open spec fn styled(style: Style, text: Seq<char>) -> Seq<char> {
    style.opening() + text + style.closing()
}

/// Text in a style.
pub fn paint(style: Style, text: &str) -> (r: String)
    ensures
        r@ == styled(style, text@),
{
    style.start().concat(text).concat(&style.end())
}

// ---------------------------------------------------------------- labels

/// A text with its first character in upper case.
pub open spec fn titled(text: Seq<char>) -> Seq<char> {
    if text.len() == 0 {
        Seq::empty()
    } else {
        uppercase_of(text[0]) + text.skip(1)
    }
}

/// A text with its first character in upper case.
pub fn title_case(text: &str) -> (r: String)
    ensures
        r@ == titled(text@),
{
    let chars = chars_of(text);
    if chars.len() == 0 {
        return String::new();
    }
    proof {
        assert(chars@.subrange(1, chars@.len() as int) =~= text@.skip(1));
    }
    to_uppercase(chars[0]).concat(&text_of(&chars, 1, chars.len()))
}

/// The name of a plan.
pub open spec fn plan_name(plan: Seq<char>) -> Seq<char> {
    if plan == "pro"@ {
        "Pro 20x"@
    } else if plan == "prolite"@ {
        "Pro 5x"@
    } else if plan == "self_serve_business_prolite"@ {
        "Business Pro Lite"@
    } else if plan == "self_serve_business_usage_based"@ || plan == "business"@ || plan == "team"@ {
        "Business"@
    } else if plan == "edu_plus"@ {
        "Edu Plus"@
    } else if plan == "edu_pro"@ {
        "Edu Pro"@
    } else {
        titled(plan)
    }
}

/// The name of a plan.
pub fn plan_label(plan: &str) -> (r: String)
    ensures
        r@ == plan_name(plan@),
{
    if same(plan, "pro") {
        "Pro 20x".to_owned()
    } else if same(plan, "prolite") {
        "Pro 5x".to_owned()
    } else if same(plan, "self_serve_business_prolite") {
        "Business Pro Lite".to_owned()
    } else if same(plan, "self_serve_business_usage_based") || same(plan, "business") || same(
        plan,
        "team",
    ) {
        "Business".to_owned()
    } else if same(plan, "edu_plus") {
        "Edu Plus".to_owned()
    } else if same(plan, "edu_pro") {
        "Edu Pro".to_owned()
    } else {
        title_case(plan)
    }
}

/// How long ago something was.
pub open spec fn age_text(timestamp: i64, now: i64) -> Seq<char> {
    let age = if now - timestamp > i64::MAX {
        i64::MAX as int
    } else {
        now - timestamp
    };
    if age < 60 {
        "just now"@
    } else if age < 3_600 {
        decimal_text((age / 60) as nat) + "m ago"@
    } else if age < 86_400 {
        decimal_text((age / 3_600) as nat) + "h ago"@
    } else {
        decimal_text((age / 86_400) as nat) + "d ago"@
    }
}

/// How long ago something was.
pub fn age_label(timestamp: i64, now: i64) -> (r: String)
    ensures
        r@ == age_text(timestamp, now),
{
    let exact: i128 = now as i128 - timestamp as i128;
    if exact < 60 {
        return "just now".to_owned();
    }
    let age: u64 = if exact > 0x7fff_ffff_ffff_ffff {
        0x7fff_ffff_ffff_ffff
    } else {
        exact as u64
    };
    if age < 3_600 {
        decimal(age / 60).concat("m ago")
    } else if age < 86_400 {
        decimal(age / 3_600).concat("h ago")
    } else {
        decimal(age / 86_400).concat("d ago")
    }
}

/// How long it is until a window starts anew.
pub open spec fn reset_text(reset: i64, now: i64) -> Seq<char> {
    let left = reset - now;
    let days = left / 86_400;
    let hours = (left % 86_400) / 3_600;
    let minutes = (left % 3_600) / 60;
    if left <= 0 {
        "reset pending"@
    } else if days > 0 {
        "resets in "@ + decimal_text(days as nat) + "d "@ + decimal_text(hours as nat) + "h"@
    } else if hours > 0 {
        "resets in "@ + decimal_text(hours as nat) + "h "@ + decimal_text(minutes as nat) + "m"@
    } else {
        "resets in "@ + decimal_text(
            (if minutes < 1 {
                1
            } else {
                minutes
            }) as nat,
        ) + "m"@
    }
}

/// How long it is until a window starts anew.
pub fn reset_label(reset: i64, now: i64) -> (r: String)
    ensures
        r@ == reset_text(reset, now),
{
    if reset <= now {
        return "reset pending".to_owned();
    }
    let left: u64 = (reset as i128 - now as i128) as u64;
    let days: u64 = left / 86_400;
    let hours: u64 = (left % 86_400) / 3_600;
    let minutes: u64 = (left % 3_600) / 60;
    if days > 0 {
        "resets in ".to_owned().concat(&decimal(days)).concat("d ").concat(&decimal(hours)).concat(
            "h",
        )
    } else if hours > 0 {
        "resets in ".to_owned().concat(&decimal(hours)).concat("h ").concat(
            &decimal(minutes),
        ).concat("m")
    } else {
        let shown: u64 = if minutes < 1 {
            1
        } else {
            minutes
        };
        "resets in ".to_owned().concat(&decimal(shown)).concat("m")
    }
}

/// The name of a window of this many minutes.
pub open spec fn window_name(fallback: Seq<char>, minutes: Option<i64>) -> Seq<char> {
    match minutes {
        Some(minutes) => if minutes == 300 {
            "5-hour"@
        } else if minutes == 1_440 {
            "Daily"@
        } else if minutes == 10_080 {
            "Weekly"@
        } else if minutes > 0 && minutes as int % 1_440 == 0 {
            decimal_text((minutes as int / 1_440) as nat) + "-day"@
        } else if minutes > 0 && minutes as int % 60 == 0 {
            decimal_text((minutes as int / 60) as nat) + "-hour"@
        } else {
            titled(fallback)
        },
        None => titled(fallback),
    }
}

/// The name of a window of this many minutes.
pub fn window_label(fallback: &str, minutes: Option<i64>) -> (r: String)
    ensures
        r@ == window_name(fallback@, minutes),
{
    if let Some(minutes) = minutes {
        if minutes == 300 {
            return "5-hour".to_owned();
        }
        if minutes == 1_440 {
            return "Daily".to_owned();
        }
        if minutes == 10_080 {
            return "Weekly".to_owned();
        }
        if minutes > 0 {
            let n: u64 = minutes as u64;
            if n % 1_440 == 0 {
                return decimal(n / 1_440).concat("-day");
            }
            if n % 60 == 0 {
                return decimal(n / 60).concat("-hour");
            }
        }
    }
    title_case(fallback)
}

/// The name of a group of models.
pub open spec fn group_name(bucket: UsageBucket) -> Seq<char> {
    match bucket.limit_name {
        Some(name) => if name@ == "GPT-5.3-Codex-Spark"@ {
            "Codex Spark"@
        } else {
            replaced(name@, '-', ' ')
        },
        None => if bucket.limit_id@ == "codex"@ {
            "Codex"@
        } else {
            replaced(bucket.limit_id@, '_', ' ')
        },
    }
}

/// The name of a group of models.
pub fn bucket_name(bucket: &UsageBucket) -> (r: String)
    ensures
        r@ == group_name(*bucket),
{
    match &bucket.limit_name {
        Some(name) => if same(name, "GPT-5.3-Codex-Spark") {
            "Codex Spark".to_owned()
        } else {
            replace(name, '-', ' ')
        },
        None => if same(&bucket.limit_id, "codex") {
            "Codex".to_owned()
        } else {
            replace(&bucket.limit_id, '_', ' ')
        },
    }
}

/// A character so many times.
pub open spec fn repeated(c: char, count: nat) -> Seq<char> {
    Seq::new(count, |i: int| c)
}

fn push_repeated(out: &mut String, c: char, count: usize)
    ensures
        final(out)@ == old(out)@ + repeated(c, count as nat),
{
    let mut i: usize = 0;
    proof {
        assert(old(out)@ + repeated(c, 0) =~= old(out)@);
    }
    while i < count
        invariant
            i <= count,
            out@ == old(out)@ + repeated(c, i as nat),
        decreases count - i,
    {
        out.push(c);
        i += 1;
        proof {
            assert(out@ =~= old(out)@ + repeated(c, i as nat));
        }
    }
}

/// How many cells of a bar are filled.
pub open spec fn filled_of(percent: Option<Percent>) -> nat {
    match percent {
        Some(percent) => bar_cells(percent),
        None => 0,
    }
}

/// A bar that is filled to a percentage.
pub open spec fn bar_text(percent: Option<Percent>) -> Seq<char> {
    "["@ + repeated('█', filled_of(percent)) + repeated(
        '░',
        (BAR_WIDTH - filled_of(percent)) as nat,
    ) + "]"@
}

/// A bar that is filled to a percentage.
pub fn progress_bar(percent: Option<Percent>) -> (r: String)
    ensures
        r@ == bar_text(percent),
{
    let filled: usize = match percent {
        Some(percent) => filled_cells(percent),
        None => 0,
    };
    let mut out = "[".to_owned();
    push_repeated(&mut out, '█', filled);
    push_repeated(&mut out, '░', BAR_WIDTH - filled);
    out.concat("]")
}

/// The style that a percentage is shown in.
pub open spec fn style_of(percent: Option<Percent>) -> Style {
    match percent {
        Some(percent) => if percent.reaches(100) {
            Style::Error
        } else if percent.reaches(80) {
            Style::Warning
        } else {
            Style::Success
        },
        None => Style::Muted,
    }
}

/// The style that a percentage is shown in.
pub fn usage_style(percent: Option<Percent>) -> (r: Style)
    ensures
        r == style_of(percent),
{
    match percent {
        Some(percent) => if percent.reaches_hundred() {
            ERROR
        } else if percent.reaches_eighty() {
            WARNING
        } else {
            SUCCESS
        },
        None => MUTED,
    }
}

/// A percentage in decimal.
pub fn format_percent(percent: Percent) -> (r: String)
    ensures
        r@ == shown(percent),
{
    show(percent)
}

/// A bar is as wide for every percentage.
pub proof fn law_bar_width(percent: Option<Percent>)
    ensures
        bar_text(percent).len() == BAR_WIDTH + 2,
{
    reveal_strlit("[");
    reveal_strlit("]");
    if let Some(p) = percent {
        lemma_cells(p);
    }
}

/// A bar for a larger percentage is filled at least as far, and one for no percentage not at all.
pub proof fn law_bar_grows(a: Percent, b: Percent)
    requires
        a.finite() && b.finite(),
        a.scaled() <= b.scaled(),
    ensures
        filled_of(None) == 0,
        filled_of(Some(a)) <= filled_of(Some(b)) <= BAR_WIDTH,
{
    law_bar_fills(a, b);
    lemma_cells(b);
}

// ---------------------------------------------------------------- quotas

/// The plan that all groups of models with a plan agree on.
pub open spec fn plan_of(usage: UsageRecord, plan: Seq<char>) -> bool {
    &&& exists|i: int|
        0 <= i < usage.buckets@.len() && has_plan(#[trigger] usage.buckets@[i], plan)
    &&& forall|i: int|
        0 <= i < usage.buckets@.len() && (#[trigger] usage.buckets@[i]).plan_type is Some
            ==> has_plan(usage.buckets@[i], plan)
}

pub open spec fn has_plan(bucket: UsageBucket, plan: Seq<char>) -> bool {
    bucket.plan_type matches Some(text) && text@ == plan
}

/// The name of the plan that all groups of models with a plan agree on, if there is one.
pub fn usage_plan(usage: Option<&UsageRecord>) -> (r: Option<String>)
    ensures
        match usage {
            Some(usage) => match r {
                Some(label) => exists|plan: Seq<char>| #[trigger]
                    plan_of(*usage, plan) && label@ == plan_name(plan),
                None => forall|plan: Seq<char>| !#[trigger] plan_of(*usage, plan),
            },
            None => r is None,
        },
{
    let record = match usage {
        Some(record) => record,
        None => return None,
    };
    let buckets = &record.buckets;
    let mut first: Option<&String> = None;
    let mut i: usize = 0;
    while i < buckets.len()
        invariant
            i <= buckets.len(),
            usage == Some(record),
            *buckets == record.buckets,
            match first {
                Some(plan) => (exists|k: int|
                    0 <= k < i && has_plan(#[trigger] buckets@[k], plan@)) && forall|k: int|
                    0 <= k < i && (#[trigger] buckets@[k]).plan_type is Some ==> has_plan(
                        buckets@[k],
                        plan@,
                    ),
                None => forall|k: int| 0 <= k < i ==> (#[trigger] buckets@[k]).plan_type is None,
            },
        decreases buckets.len() - i,
    {
        if let Some(plan) = &buckets[i].plan_type {
            match first {
                Some(known) => {
                    if !same(plan, known) {
                        proof {
                            assert forall|p: Seq<char>| !#[trigger] plan_of(*record, p) by {
                                let k = choose|k: int|
                                    0 <= k < i && has_plan(#[trigger] buckets@[k], known@);
                                assert(record.buckets@[k].plan_type is Some);
                                assert(record.buckets@[i as int].plan_type is Some);
                            }
                        }
                        return None;
                    }
                },
                None => {
                    first = Some(plan);
                },
            }
            assert(has_plan(buckets@[i as int], first->0@));
        }
        i += 1;
    }
    match first {
        Some(plan) => {
            assert(plan_of(*record, plan@));
            Some(plan_label(plan))
        },
        None => None,
    }
}

/// When the quota was read or asked for.
pub open spec fn recency(usage: UsageRecord, now: i64) -> Seq<char> {
    if usage.error is Some || usage.buckets@.len() == 0 {
        "checked "@ + age_text(
            if usage.last_attempted_at >= usage.observed_at {
                usage.last_attempted_at
            } else {
                usage.observed_at
            },
            now,
        )
    } else {
        "updated "@ + age_text(usage.observed_at, now)
    }
}

/// When the quota was read or asked for.
pub fn usage_recency(usage: Option<&UsageRecord>, now: i64) -> (r: Option<String>)
    ensures
        match usage {
            Some(usage) => r matches Some(label) && label@ == recency(*usage, now),
            None => r is None,
        },
{
    let usage = match usage {
        Some(usage) => usage,
        None => return None,
    };
    if usage.error.is_some() || usage.buckets.len() == 0 {
        let latest: i64 = if usage.last_attempted_at >= usage.observed_at {
            usage.last_attempted_at
        } else {
            usage.observed_at
        };
        Some("checked ".to_owned().concat(&age_label(latest, now)))
    } else {
        Some("updated ".to_owned().concat(&age_label(usage.observed_at, now)))
    }
}

/// How many spaces fill a text up to a width.
pub open spec fn gap(text: Seq<char>, width: nat) -> nat {
    if text.len() >= width {
        0
    } else {
        (width - text.len()) as nat
    }
}

/// One window's line.
pub open spec fn window_text(fallback: Seq<char>, window: UsageWindow, now: i64) -> Seq<char> {
    let label = window_name(fallback, window.window_minutes);
    let percent = match window.used_percent {
        Some(percent) => shown(percent),
        None => "--"@,
    };
    let style = style_of(window.used_percent);
    let reset = match window.resets_at {
        Some(reset) => "  "@ + reset_text(reset, now),
        None => ""@,
    };
    "      "@ + styled(Style::Muted, label + repeated(' ', gap(label, 8))) + " "@ + styled(
        style,
        bar_text(window.used_percent),
    ) + " "@ + styled(style, repeated(' ', gap(percent, 3)) + percent + "% used"@) + styled(
        Style::Muted,
        reset,
    ) + "\n"@
}

fn fill(out: &mut String, text: &str, width: usize)
    ensures
        final(out)@ == old(out)@ + repeated(' ', gap(text@, width as nat)),
{
    let length: usize = chars_of(text).len();
    let count: usize = if length >= width {
        0
    } else {
        width - length
    };
    push_repeated(out, ' ', count);
}

fn window_line(fallback: &str, window: &UsageWindow, now: i64) -> (r: String)
    ensures
        r@ == window_text(fallback@, *window, now),
{
    let mut label = window_label(fallback, window.window_minutes);
    let name = label.clone();
    fill(&mut label, &name, 8);
    let percent = match window.used_percent {
        Some(percent) => format_percent(percent),
        None => "--".to_owned(),
    };
    let mut used = String::new();
    fill(&mut used, &percent, 3);
    proof {
        assert(Seq::<char>::empty() + repeated(' ', gap(percent@, 3)) =~= repeated(
            ' ',
            gap(percent@, 3),
        ));
    }
    let used = used.concat(&percent).concat("% used");
    let style = usage_style(window.used_percent);
    let reset = match window.resets_at {
        Some(reset) => "  ".to_owned().concat(&reset_label(reset, now)),
        None => "".to_owned(),
    };
    "      ".to_owned().concat(&paint(MUTED, &label)).concat(" ").concat(
        &paint(style, &progress_bar(window.used_percent)),
    ).concat(" ").concat(&paint(style, &used)).concat(&paint(MUTED, &reset)).concat("\n")
}

/// The lines of windows.
pub open spec fn windows_text(windows: Seq<(Seq<char>, UsageWindow)>, now: i64) -> Seq<char>
    decreases windows.len(),
{
    if windows.len() == 0 {
        Seq::empty()
    } else {
        windows_text(windows.drop_last(), now) + window_text(
            windows.last().0,
            windows.last().1,
            now,
        )
    }
}

/// The lines of a group of models.
pub open spec fn bucket_text(bucket: UsageBucket, now: i64) -> Seq<char> {
    "    "@ + (if bucket.exhausted(now) {
        styled(Style::Error, group_name(bucket) + "  EXHAUSTED"@)
    } else {
        styled(Style::Emphasis, group_name(bucket))
    }) + "\n"@ + windows_text(bucket.named_windows(), now)
}

fn bucket_lines(bucket: &UsageBucket, now: i64) -> (r: String)
    ensures
        r@ == bucket_text(*bucket, now),
{
    let name = bucket_name(bucket);
    let title = if bucket.exhausted_now(now) {
        paint(ERROR, &name.concat("  EXHAUSTED"))
    } else {
        paint(EMPHASIS, &name)
    };
    let head = "    ".to_owned().concat(&title).concat("\n");
    let windows = bucket.windows();
    let ghost all = bucket.named_windows();
    let mut lines = String::new();
    let mut i: usize = 0;
    proof {
        assert(all.take(0) =~= Seq::empty());
    }
    while i < windows.len()
        invariant
            i <= windows.len(),
            window_views(windows@) == all,
            lines@ == windows_text(all.take(i as int), now),
        decreases windows.len() - i,
    {
        proof {
            assert(all.take(i + 1).drop_last() =~= all.take(i as int));
            assert(all.take(i + 1).last() == (windows@[i as int].0@, windows@[i as int].1));
        }
        lines = lines.concat(&window_line(windows[i].0, &windows[i].1, now));
        i += 1;
    }
    proof {
        assert(all.take(i as int) =~= all);
    }
    head.concat(&lines)
}

/// The lines of groups of models.
pub open spec fn buckets_text(buckets: Seq<UsageBucket>, now: i64) -> Seq<char>
    decreases buckets.len(),
{
    if buckets.len() == 0 {
        Seq::empty()
    } else {
        buckets_text(buckets.drop_last(), now) + bucket_text(buckets.last(), now)
    }
}

/// The lines of an account's quota.
pub open spec fn usage_text(usage: Option<UsageRecord>, now: i64) -> Seq<char> {
    match usage {
        None => "    "@ + styled(Style::Warning, "Usage unknown"@) + "\n"@,
        Some(usage) => match usage.error {
            Some(error) => "    "@ + styled(Style::Warning, error@) + "\n"@,
            None => if usage.buckets@.len() == 0 {
                "    "@ + styled(Style::Warning, "No quota data"@) + "\n"@
            } else {
                buckets_text(usage.buckets@, now)
            },
        },
    }
}

pub open spec fn opt_record(usage: Option<&UsageRecord>) -> Option<UsageRecord> {
    match usage {
        Some(usage) => Some(*usage),
        None => None,
    }
}

fn warn(text: &str) -> (r: String)
    ensures
        r@ == "    "@ + styled(Style::Warning, text@) + "\n"@,
{
    "    ".to_owned().concat(&paint(WARNING, text)).concat("\n")
}

/// The lines of an account's quota.
pub fn render_usage(usage: Option<&UsageRecord>, now: i64) -> (r: String)
    ensures
        r@ == usage_text(opt_record(usage), now),
{
    let usage = match usage {
        Some(usage) => usage,
        None => return warn("Usage unknown"),
    };
    if let Some(error) = &usage.error {
        return warn(error);
    }
    if usage.buckets.len() == 0 {
        return warn("No quota data");
    }
    let mut out = String::new();
    let mut i: usize = 0;
    proof {
        assert(usage.buckets@.take(0) =~= Seq::empty());
    }
    while i < usage.buckets.len()
        invariant
            i <= usage.buckets.len(),
            out@ == buckets_text(usage.buckets@.take(i as int), now),
        decreases usage.buckets.len() - i,
    {
        proof {
            assert(usage.buckets@.take(i + 1).drop_last() =~= usage.buckets@.take(i as int));
        }
        out = out.concat(&bucket_lines(&usage.buckets[i], now));
        i += 1;
    }
    proof {
        assert(usage.buckets@.take(i as int) =~= usage.buckets@);
    }
    out
}

// ---------------------------------------------------------------- the screen

/// Where the cursor is, in rows and columns that are filled so far.
pub struct Layout {
    pub rows: nat,
    pub columns: nat,
    pub escape: bool,
}

/// How many rows so many columns take.
pub open spec fn rows_for(columns: nat, width: nat) -> nat {
    ((columns + width - 1) / width as int) as nat
}

/// Where the cursor is after one more character. A control sequence, which ends with an `m`,
/// takes no room.
pub open spec fn advance(layout: Layout, c: char, width: nat) -> Layout {
    if layout.escape {
        Layout { escape: c != 'm', ..layout }
    } else if c == '\x1b' {
        Layout { escape: true, ..layout }
    } else if c == '\n' {
        Layout {
            rows: layout.rows + rows_for(
                if layout.columns == 0 {
                    1
                } else {
                    layout.columns
                },
                width,
            ),
            columns: 0,
            escape: false,
        }
    } else if c == '\r' {
        Layout { columns: 0, ..layout }
    } else {
        Layout { columns: layout.columns + 1, ..layout }
    }
}

/// Where the cursor is after a text.
pub open spec fn laid_out(text: Seq<char>, width: nat) -> Layout
    decreases text.len(),
{
    if text.len() == 0 {
        Layout { rows: 0, columns: 0, escape: false }
    } else {
        advance(laid_out(text.drop_last(), width), text.last(), width)
    }
}

/// How many rows a text takes on a screen of this width.
pub open spec fn row_count(text: Seq<char>, width: nat) -> nat {
    let wide = if width == 0 {
        1
    } else {
        width
    };
    let end = laid_out(text, wide);
    let rows = end.rows + (if end.columns > 0 {
        rows_for(end.columns, wide)
    } else {
        0
    });
    if rows == 0 {
        1
    } else {
        rows
    }
}

fn rows_of(columns: usize, width: usize) -> (r: usize)
    requires
        columns >= 1,
        width >= 1,
    ensures
        r == rows_for(columns as nat, width as nat),
        1 <= r <= columns,
{
    let r: usize = (columns - 1) / width + 1;
    proof {
        vstd::arithmetic::div_mod::lemma_div_plus_one(columns - 1, width as int);
        vstd::arithmetic::div_mod::lemma_div_is_ordered_by_denominator(
            columns - 1,
            1,
            width as int,
        );
    }
    r
}

/// How many rows a text takes on a screen of this width.
pub fn rendered_rows(output: &str, width: usize) -> (r: usize)
    ensures
        r == row_count(output@, width as nat),
{
    let wide: usize = if width == 0 {
        1
    } else {
        width
    };
    let chars = chars_of(output);
    let mut rows: usize = 0;
    let mut columns: usize = 0;
    let mut escape = false;
    let mut i: usize = 0;
    proof {
        assert(output@.take(0) =~= Seq::<char>::empty());
    }
    while i < chars.len()
        invariant
            i <= chars.len(),
            chars@ == output@,
            wide >= 1,
            rows + columns <= i,
            laid_out(output@.take(i as int), wide as nat) == (Layout {
                rows: rows as nat,
                columns: columns as nat,
                escape,
            }),
        decreases chars.len() - i,
    {
        proof {
            assert(output@.take(i + 1).drop_last() =~= output@.take(i as int));
        }
        let c = chars[i];
        if escape {
            if c == 'm' {
                escape = false;
            }
        } else if c == '\x1b' {
            escape = true;
        } else if c == '\n' {
            let filled: usize = if columns == 0 {
                1
            } else {
                columns
            };
            rows = rows + rows_of(filled, wide);
            columns = 0;
        } else if c == '\r' {
            columns = 0;
        } else {
            columns += 1;
        }
        i += 1;
    }
    proof {
        assert(output@.take(i as int) =~= output@);
    }
    if columns > 0 {
        rows = rows + rows_of(columns, wide);
    }
    if rows == 0 {
        1
    } else {
        rows
    }
}

/// The part of the screen that is drawn over and over.
#[derive(Clone, Copy, PartialEq, Eq, Structural, Debug)]
pub struct LiveRegion {
    pub origin_saved: bool,
    pub reserved_rows: usize,
    pub full_screen: bool,
    pub active: bool,
}

/// The region after it was drawn over with so many rows, and the control sequences for that.
pub open spec fn redrawn(region: LiveRegion, rows: nat, height: nat) -> (LiveRegion, Seq<char>) {
    if !region.active {
        (region, Seq::empty())
    } else if region.full_screen {
        (region, "\x1b[H\x1b[2J"@)
    } else if rows + 1 >= height {
        (
            LiveRegion { origin_saved: false, full_screen: true, ..region },
            (if region.origin_saved {
                "\x1b[u\x1b[J"@
            } else {
                ""@
            }) + "\x1b[H\x1b[2J"@,
        )
    } else if !region.origin_saved || rows > region.reserved_rows {
        (
            LiveRegion { origin_saved: true, reserved_rows: rows as usize, ..region },
            (if region.origin_saved {
                "\x1b[u\x1b[J"@
            } else {
                ""@
            }) + repeated('\n', rows) + "\x1b["@ + decimal_text(rows) + "A\x1b[s"@,
        )
    } else {
        (region, "\x1b[u\x1b[J"@)
    }
}

/// How many columns a screen has, where its size is known.
pub open spec fn columns_of(size: Option<(u16, u16)>) -> usize {
    match size {
        Some((columns, _)) if columns > 0 => columns as usize,
        _ => 80,
    }
}

/// How many rows a screen has, where its size is known.
pub open spec fn height_of(size: Option<(u16, u16)>) -> usize {
    match size {
        Some((_, rows)) if rows > 0 => rows as usize,
        _ => 24,
    }
}

impl LiveRegion {
    /// A region that nothing was drawn in, on a terminal or elsewhere.
    pub fn new(terminal: bool) -> (r: LiveRegion)
        ensures
            r == (LiveRegion {
                origin_saved: false,
                reserved_rows: 0,
                full_screen: false,
                active: terminal,
            }),
    {
        LiveRegion { origin_saved: false, reserved_rows: 0, full_screen: false, active: terminal }
    }

    /// Whether the region is drawn over.
    pub fn is_active(&self) -> (r: bool)
        ensures
            r == self.active,
    {
        self.active
    }

    /// How wide the region is.
    pub fn width(&self, size: Option<(u16, u16)>) -> (r: usize)
        ensures
            r == columns_of(size),
    {
        match size {
            Some((columns, _)) => if columns > 0 {
                columns as usize
            } else {
                80
            },
            None => 80,
        }
    }

    /// Draws the region over: the control sequences that go before the output.
    pub fn redraw(&mut self, output: &str, size: Option<(u16, u16)>) -> (r: String)
        ensures
            (*final(self), r@) == redrawn(
                *old(self),
                row_count(output@, columns_of(size) as nat),
                height_of(size) as nat,
            ),
    {
        if !self.active {
            return String::new();
        }
        let rows: usize = rendered_rows(output, self.width(size));
        let height: usize = match size {
            Some((_, rows)) => if rows > 0 {
                rows as usize
            } else {
                24
            },
            None => 24,
        };
        let back = if self.origin_saved {
            "\x1b[u\x1b[J"
        } else {
            ""
        };
        if self.full_screen {
            "\x1b[H\x1b[2J".to_owned()
        } else if rows >= height || rows + 1 >= height {
            self.origin_saved = false;
            self.full_screen = true;
            back.to_owned().concat("\x1b[H\x1b[2J")
        } else if !self.origin_saved || rows > self.reserved_rows {
            let mut control = back.to_owned();
            push_repeated(&mut control, '\n', rows);
            self.origin_saved = true;
            self.reserved_rows = rows;
            control.concat("\x1b[").concat(&decimal(rows as u64)).concat("A\x1b[s")
        } else {
            "\x1b[u\x1b[J".to_owned()
        }
    }
}

/// Once a region fills the screen it keeps filling it, and one that is not drawn over stays as
/// it is.
pub proof fn law_region_stays_full(region: LiveRegion, rows: nat, height: nat)
    ensures
        region.full_screen ==> redrawn(region, rows, height).0 == region,
        !region.active ==> redrawn(region, rows, height).0 == region,
        redrawn(region, rows, height).0.active == region.active,
{
}

/// The picture that a spinner shows at its turn.
pub fn spinner_frame(turn: usize) -> (r: &'static str)
    ensures
        r@ == (match turn % 10 {
            0 => "⠋"@,
            1 => "⠙"@,
            2 => "⠹"@,
            3 => "⠸"@,
            4 => "⠼"@,
            5 => "⠴"@,
            6 => "⠦"@,
            7 => "⠧"@,
            8 => "⠇"@,
            _ => "⠏"@,
        }),
{
    match turn % 10 {
        0 => "⠋",
        1 => "⠙",
        2 => "⠹",
        3 => "⠸",
        4 => "⠼",
        5 => "⠴",
        6 => "⠦",
        7 => "⠧",
        8 => "⠇",
        _ => "⠏",
    }
}

// ---------------------------------------------------------------- leaving the watch

/// Whether a key ends the watch: q, or c with the control key.
pub open spec fn exit_key(key: Key, control: bool) -> bool {
    key == Key::Char('q') || key == Key::Char('Q') || (key == Key::Char('c') && control)
}

/// Whether a key ends the watch.
pub fn watch_exit_key(key: Key, control: bool) -> (r: bool)
    ensures
        r == exit_key(key, control),
{
    match key {
        Key::Char(c) => c == 'q' || c == 'Q' || (c == 'c' && control),
        Key::Other => false,
    }
}

/// What a failure while waiting comes to: a request to end where a signal came, else the failure.
pub open spec fn interrupted_run(
    log: Seq<Reply>,
    at: nat,
    error: crate::error::ErrorView,
) -> Run<bool> {
    flag_run(log, at, RequestView::Signalled).bind(
        |signalled: bool, n: nat|
            if signalled {
                Run::Done(true, n)
            } else {
                Run::Fail(error, n)
            },
    )
}

/// Waits for a request to end the watch: a signal or a key, until the time is up. The terminal is
/// looked at once even where no time is left at `first`.
pub open spec fn exit_run(log: Seq<Reply>, at: nat, first: bool) -> Run<bool>
    decreases log.len() - at,
{
    match flag_run(log, at, RequestView::Signalled) {
        Run::Ask(request) => Run::Ask(request),
        Run::Fail(error, n) => Run::Fail(error, n),
        Run::Done(true, n) => Run::Done(true, n),
        Run::Done(false, _) => if at + 1 >= log.len() {
            Run::Ask(RequestView::Remaining)
        } else {
            match log[at + 1int] {
                Reply::Number(left) => if !first && left == 0 {
                    Run::Done(false, at + 2)
                } else if at + 2 >= log.len() {
                    Run::Ask(RequestView::PollEvent(left))
                } else {
                    match log[at + 2int] {
                        Reply::Flag(false) => flag_run(log, at + 3, RequestView::Signalled),
                        Reply::Flag(true) => if at + 3 >= log.len() {
                            Run::Ask(RequestView::ReadEvent)
                        } else {
                            match log[at + 3int] {
                                Reply::Event(event) => match event {
                                    TerminalEvent::Key { key, control, release } => if !release
                                        && exit_key(key, control) {
                                        Run::Done(true, at + 4)
                                    } else {
                                        exit_run(log, at + 4, false)
                                    },
                                    TerminalEvent::Other => exit_run(log, at + 4, false),
                                },
                                Reply::Failed(error) => interrupted_run(log, at + 4, error@),
                                _ => Run::Fail(mismatch(), at + 4),
                            }
                        },
                        Reply::Failed(error) => interrupted_run(log, at + 3, error@),
                        _ => Run::Fail(mismatch(), at + 3),
                    }
                },
                Reply::Failed(error) => Run::Fail(error@, at + 2),
                _ => Run::Fail(mismatch(), at + 2),
            }
        },
    }
}

fn interrupted(error: &crate::error::Error, log: &Vec<Reply>, at: &mut usize) -> (r: Result<
    bool,
    Halt,
>)
    requires
        *old(at) <= log.len(),
    ensures
        *final(at) <= log.len(),
        told(r, *final(at), interrupted_run(log@, *old(at) as nat, error@)),
{
    if flag(log, at, Request::Signalled)? {
        Ok(true)
    } else {
        Err(Halt::Fail(error.clone()))
    }
}

/// Waits for a request to end the watch: a signal or a key, for so many nanoseconds.
pub open spec fn watch_exit_run(log: Seq<Reply>, at: nat, timeout: u64) -> Run<bool> {
    done_run(log, at, RequestView::StartTimer(timeout)).next(|n: nat| exit_run(log, n, true))
}

/// Waits for a request to end the watch: a signal or a key, for so many nanoseconds.
pub fn watch_exit_requested(timeout: u64, log: &Vec<Reply>, at: &mut usize) -> (r: Result<
    bool,
    Halt,
>)
    requires
        *old(at) <= log.len(),
    ensures
        *final(at) <= log.len(),
        told(r, *final(at), watch_exit_run(log@, *old(at) as nat, timeout)),
{
    done(log, at, Request::StartTimer(timeout))?;
    let ghost begin = *at as nat;
    let mut first = true;
    loop
        invariant
            *at <= log.len(),
            watch_exit_run(log@, *old(at) as nat, timeout) == exit_run(log@, begin, true),
            exit_run(log@, begin, true) == exit_run(log@, *at as nat, first),
        decreases log.len() - *at,
    {
        if flag(log, at, Request::Signalled)? {
            return Ok(true);
        }
        let left: u64 = match ask(log, at, Request::Remaining)? {
            Reply::Number(left) => *left,
            Reply::Failed(error) => {
                return Err(Halt::Fail(error.clone()));
            },
            _ => {
                return Err(mismatched());
            },
        };
        if !first && left == 0 {
            return Ok(false);
        }
        first = false;
        match ask(log, at, Request::PollEvent(left))? {
            Reply::Flag(ready) => {
                if !*ready {
                    return flag(log, at, Request::Signalled);
                }
            },
            Reply::Failed(error) => {
                return interrupted(error, log, at);
            },
            _ => {
                return Err(mismatched());
            },
        }
        match ask(log, at, Request::ReadEvent)? {
            Reply::Event(event) => {
                if let TerminalEvent::Key { key, control, release } = *event {
                    if !release && watch_exit_key(key, control) {
                        return Ok(true);
                    }
                }
            },
            Reply::Failed(error) => {
                return interrupted(error, log, at);
            },
            _ => {
                return Err(mismatched());
            },
        }
    }
}

}
