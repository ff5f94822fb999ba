//! Quota records: what the service reported of an account, whether it is exhausted now, and how
//! it is put in one line.
use crate::json::{Json, JsonView};
use crate::percent::Percent;
use crate::text::{
    copy_opt, decimal, decimal_text, join, joined_by, opt_text, same, signed, signed_text,
    texts, two_digits,
};
use vstd::prelude::*;

verus! {

/// One quota window.
#[derive(Clone, Copy, PartialEq, Eq, Structural, Debug)]
pub struct UsageWindow {
    pub used_percent: Option<Percent>,
    /// When the window starts anew, in seconds since the Unix epoch.
    pub resets_at: Option<i64>,
    pub window_minutes: Option<i64>,
}

/// The quota of one group of models.
pub struct UsageBucket {
    pub limit_id: String,
    pub limit_name: Option<String>,
    pub primary_window: Option<UsageWindow>,
    pub secondary_window: Option<UsageWindow>,
    pub individual_window: Option<UsageWindow>,
    pub reached: bool,
    pub reached_type: Option<String>,
    pub spend_control_reached: bool,
    pub plan_type: Option<String>,
}

/// One observation of an account's quota: its limits, given for the account as a whole or by
/// group of models, or the reason why they could not be read.
pub struct UsageRecord {
    pub observed_at: i64,
    pub last_attempted_at: i64,
    pub primary_window: Option<UsageWindow>,
    pub secondary_window: Option<UsageWindow>,
    pub individual_window: Option<UsageWindow>,
    pub reached: bool,
    pub reached_type: Option<String>,
    pub spend_control_reached: bool,
    pub has_credits: Option<bool>,
    pub unlimited: Option<bool>,
    pub balance: Option<Json>,
    pub plan_type: Option<String>,
    pub buckets: Vec<UsageBucket>,
    pub error: Option<String>,
}

/// What is known of a group of models.
pub struct BucketView {
    pub limit_id: Seq<char>,
    pub limit_name: Option<Seq<char>>,
    pub primary_window: Option<UsageWindow>,
    pub secondary_window: Option<UsageWindow>,
    pub individual_window: Option<UsageWindow>,
    pub reached: bool,
    pub reached_type: Option<Seq<char>>,
    pub spend_control_reached: bool,
    pub plan_type: Option<Seq<char>>,
}

impl View for UsageBucket {
    type V = BucketView;

    open spec fn view(&self) -> BucketView {
        BucketView {
            limit_id: self.limit_id@,
            limit_name: opt_text(self.limit_name),
            primary_window: self.primary_window,
            secondary_window: self.secondary_window,
            individual_window: self.individual_window,
            reached: self.reached,
            reached_type: opt_text(self.reached_type),
            spend_control_reached: self.spend_control_reached,
            plan_type: opt_text(self.plan_type),
        }
    }
}

/// What is known of groups of models.
pub open spec fn bucket_views(buckets: Seq<UsageBucket>) -> Seq<BucketView> {
    buckets.map_values(|b: UsageBucket| b@)
}

/// What is known of an observation.
pub struct UsageView {
    pub observed_at: i64,
    pub last_attempted_at: i64,
    pub primary_window: Option<UsageWindow>,
    pub secondary_window: Option<UsageWindow>,
    pub individual_window: Option<UsageWindow>,
    pub reached: bool,
    pub reached_type: Option<Seq<char>>,
    pub spend_control_reached: bool,
    pub has_credits: Option<bool>,
    pub unlimited: Option<bool>,
    pub balance: Option<JsonView>,
    pub plan_type: Option<Seq<char>>,
    pub buckets: Seq<BucketView>,
    pub error: Option<Seq<char>>,
}

impl View for UsageRecord {
    type V = UsageView;

    open spec fn view(&self) -> UsageView {
        UsageView {
            observed_at: self.observed_at,
            last_attempted_at: self.last_attempted_at,
            primary_window: self.primary_window,
            secondary_window: self.secondary_window,
            individual_window: self.individual_window,
            reached: self.reached,
            reached_type: opt_text(self.reached_type),
            spend_control_reached: self.spend_control_reached,
            has_credits: self.has_credits,
            unlimited: self.unlimited,
            balance: match self.balance {
                Some(balance) => Some(balance@),
                None => None,
            },
            plan_type: opt_text(self.plan_type),
            buckets: bucket_views(self.buckets@),
            error: opt_text(self.error),
        }
    }
}

fn copy_buckets(buckets: &Vec<UsageBucket>) -> (r: Vec<UsageBucket>)
    ensures
        r@ == buckets@,
{
    let mut out: Vec<UsageBucket> = Vec::new();
    let mut i: usize = 0;
    while i < buckets.len()
        invariant
            i <= buckets.len(),
            out@ == buckets@.take(i as int),
        decreases buckets.len() - i,
    {
        out.push(buckets[i].clone());
        i += 1;
        proof {
            assert(out@ =~= buckets@.take(i as int));
        }
    }
    proof {
        assert(buckets@.take(i as int) =~= buckets@);
    }
    out
}

impl UsageRecord {
    /// A copy of the observation.
    pub fn copy(&self) -> (r: UsageRecord)
        ensures
            r@ == self@,
    {
        UsageRecord {
            observed_at: self.observed_at,
            last_attempted_at: self.last_attempted_at,
            primary_window: self.primary_window,
            secondary_window: self.secondary_window,
            individual_window: self.individual_window,
            reached: self.reached,
            reached_type: copy_opt(&self.reached_type),
            spend_control_reached: self.spend_control_reached,
            has_credits: self.has_credits,
            unlimited: self.unlimited,
            balance: match &self.balance {
                Some(balance) => Some(balance.copy()),
                None => None,
            },
            plan_type: copy_opt(&self.plan_type),
            buckets: copy_buckets(&self.buckets),
            error: copy_opt(&self.error),
        }
    }
}

impl Default for UsageWindow {
    fn default() -> (r: UsageWindow)
        ensures
            r == (UsageWindow { used_percent: None, resets_at: None, window_minutes: None }),
    {
        UsageWindow { used_percent: None, resets_at: None, window_minutes: None }
    }
}

impl Default for UsageBucket {
    fn default() -> (r: UsageBucket)
        ensures
            r.limit_id@ == ""@,
            r.limit_name is None,
            r.primary_window is None,
            r.secondary_window is None,
            r.individual_window is None,
            !r.reached,
            r.reached_type is None,
            !r.spend_control_reached,
            r.plan_type is None,
    {
        UsageBucket {
            limit_id: "".to_owned(),
            limit_name: None,
            primary_window: None,
            secondary_window: None,
            individual_window: None,
            reached: false,
            reached_type: None,
            spend_control_reached: false,
            plan_type: None,
        }
    }
}

impl Default for UsageRecord {
    fn default() -> (r: UsageRecord)
        ensures
            r.observed_at == 0,
            r.last_attempted_at == 0,
            r.primary_window is None,
            r.secondary_window is None,
            r.individual_window is None,
            !r.reached,
            r.reached_type is None,
            !r.spend_control_reached,
            r.has_credits is None,
            r.unlimited is None,
            r.balance is None,
            r.plan_type is None,
            r.buckets@ == Seq::<UsageBucket>::empty(),
            r.error is None,
    {
        UsageRecord {
            observed_at: 0,
            last_attempted_at: 0,
            primary_window: None,
            secondary_window: None,
            individual_window: None,
            reached: false,
            reached_type: None,
            spend_control_reached: false,
            has_credits: None,
            unlimited: None,
            balance: None,
            plan_type: None,
            buckets: Vec::new(),
            error: None,
        }
    }
}

impl Clone for UsageBucket {
    fn clone(&self) -> (r: UsageBucket)
        ensures
            r == *self,
    {
        UsageBucket {
            limit_id: self.limit_id.clone(),
            limit_name: copy_opt(&self.limit_name),
            primary_window: self.primary_window,
            secondary_window: self.secondary_window,
            individual_window: self.individual_window,
            reached: self.reached,
            reached_type: copy_opt(&self.reached_type),
            spend_control_reached: self.spend_control_reached,
            plan_type: copy_opt(&self.plan_type),
        }
    }
}

// ---------------------------------------------------------------- exhaustion

/// Whether a limit that ends at `reset` still holds: one without an end does.
pub open spec fn open(reset: Option<i64>, now: i64) -> bool {
    match reset {
        Some(reset) => reset > now,
        None => true,
    }
}

/// The end of an optional window.
pub open spec fn reset_of(window: Option<UsageWindow>) -> Option<i64> {
    match window {
        Some(window) => window.resets_at,
        None => None,
    }
}

/// Whether a window is used up.
pub open spec fn full(window: Option<UsageWindow>) -> bool {
    match window {
        Some(window) => match window.used_percent {
            Some(percent) => percent.reaches(100),
            None => false,
        },
        None => false,
    }
}

/// Whether a window is used up and has not started anew.
pub open spec fn full_now(window: Option<UsageWindow>, now: i64) -> bool {
    full(window) && open(reset_of(window), now)
}

/// Whether an account has to have credits and has none.
pub open spec fn no_credits(has_credits: Option<bool>, unlimited: Option<bool>) -> bool {
    has_credits == Some(false) && unlimited == Some(false)
}

/// Whether a workspace ran out of credits.
pub open spec fn credits_gone(reached_type: Option<Seq<char>>) -> bool {
    reached_type == Some("workspace_owner_credits_depleted"@) || reached_type == Some(
        "workspace_member_credits_depleted"@,
    )
}

fn is_open(reset: Option<i64>, now: i64) -> (r: bool)
    ensures
        r == open(reset, now),
{
    match reset {
        Some(reset) => reset > now,
        None => true,
    }
}

fn is_full(window: &Option<UsageWindow>) -> (r: bool)
    ensures
        r == full(*window),
{
    match window {
        Some(window) => match window.used_percent {
            Some(percent) => percent.reaches_hundred(),
            None => false,
        },
        None => false,
    }
}

fn end_of(window: &Option<UsageWindow>) -> (r: Option<i64>)
    ensures
        r == reset_of(*window),
{
    match window {
        Some(window) => window.resets_at,
        None => None,
    }
}

fn is_full_now(window: &Option<UsageWindow>, now: i64) -> (r: bool)
    ensures
        r == full_now(*window, now),
{
    is_full(window) && is_open(end_of(window), now)
}

fn credits_are_gone(reached_type: &Option<String>) -> (r: bool)
    ensures
        r == credits_gone(opt_text(*reached_type)),
{
    match reached_type {
        Some(kind) => same(kind, "workspace_owner_credits_depleted") || same(
            kind,
            "workspace_member_credits_depleted",
        ),
        None => false,
    }
}

impl UsageBucket {
    pub open spec fn any_full(self) -> bool {
        full(self.primary_window) || full(self.secondary_window) || full(self.individual_window)
    }

    pub open spec fn any_full_now(self, now: i64) -> bool {
        full_now(self.primary_window, now) || full_now(self.secondary_window, now) || full_now(
            self.individual_window,
            now,
        )
    }

    /// Whether the group of models cannot be used now. A spending limit holds until its own end;
    /// spent credits hold; a full window holds until it starts anew; without a full window the
    /// service's word holds.
    pub open spec fn exhausted(self, now: i64) -> bool {
        if self.spend_control_reached {
            open(reset_of(self.individual_window), now)
        } else if self.reached && credits_gone(opt_text(self.reached_type)) {
            true
        } else if self.any_full() {
            self.any_full_now(now)
        } else {
            self.reached
        }
    }

    /// The windows that are there, each with its name.
    pub open spec fn named_windows(self) -> Seq<(Seq<char>, UsageWindow)> {
        named("primary"@, self.primary_window) + named("secondary"@, self.secondary_window) + named(
            "individual"@,
            self.individual_window,
        )
    }

    /// Whether the group of models cannot be used now.
    pub fn exhausted_now(&self, now: i64) -> (r: bool)
        ensures
            r == self.exhausted(now),
    {
        if self.spend_control_reached {
            return is_open(end_of(&self.individual_window), now);
        }
        if self.reached && credits_are_gone(&self.reached_type) {
            return true;
        }
        if is_full(&self.primary_window) || is_full(&self.secondary_window) || is_full(
            &self.individual_window,
        ) {
            is_full_now(&self.primary_window, now) || is_full_now(&self.secondary_window, now)
                || is_full_now(&self.individual_window, now)
        } else {
            self.reached
        }
    }

    /// The windows that are there, each with its name, in the order of display.
    pub fn windows(&self) -> (r: Vec<(&'static str, UsageWindow)>)
        ensures
            window_views(r@) == self.named_windows(),
    {
        let mut out: Vec<(&'static str, UsageWindow)> = Vec::new();
        if let Some(window) = self.primary_window {
            out.push(("primary", window));
        }
        if let Some(window) = self.secondary_window {
            out.push(("secondary", window));
        }
        if let Some(window) = self.individual_window {
            out.push(("individual", window));
        }
        proof {
            assert(window_views(out@) =~= self.named_windows());
        }
        out
    }
}

/// An optional window under its name.
pub open spec fn named(name: Seq<char>, window: Option<UsageWindow>) -> Seq<
    (Seq<char>, UsageWindow),
> {
    match window {
        Some(window) => seq![(name, window)],
        None => Seq::empty(),
    }
}

/// Named windows, with the names as texts.
pub open spec fn window_views(windows: Seq<(&'static str, UsageWindow)>) -> Seq<
    (Seq<char>, UsageWindow),
> {
    windows.map_values(|w: (&'static str, UsageWindow)| (w.0@, w.1))
}

/// The order of percentages: that of their values, an infinite one beyond all others.
pub open spec fn rank(percent: Percent) -> int {
    if percent.negative() {
        -(percent.magnitude() as int)
    } else {
        percent.magnitude() as int
    }
}

/// The larger of two percentages; an undefined one gives way.
pub open spec fn larger(a: Percent, b: Percent) -> Percent {
    if a.nan() {
        b
    } else if b.nan() || rank(b) <= rank(a) {
        a
    } else {
        b
    }
}

/// The percentage of a window that has not started anew.
pub open spec fn current_percent(window: Option<UsageWindow>, now: i64) -> Option<Percent> {
    match window {
        Some(window) => if open(window.resets_at, now) {
            window.used_percent
        } else {
            None
        },
        None => None,
    }
}

/// The larger of two optional percentages.
pub open spec fn larger_of(a: Option<Percent>, b: Option<Percent>) -> Option<Percent> {
    match (a, b) {
        (Some(x), Some(y)) => Some(larger(x, y)),
        (Some(_), None) => a,
        (None, _) => b,
    }
}

fn signed_rank(percent: Percent) -> (r: i128)
    ensures
        r == rank(percent),
{
    let size: i128 = (percent.bits % crate::percent::SIGN) as i128;
    if percent.bits >= crate::percent::SIGN {
        -size
    } else {
        size
    }
}

fn is_nan(percent: Percent) -> (r: bool)
    ensures
        r == percent.nan(),
{
    percent.bits % crate::percent::SIGN > 2047 * crate::percent::LEAD
}

fn max_percent(a: Option<Percent>, b: Option<Percent>) -> (r: Option<Percent>)
    ensures
        r == larger_of(a, b),
{
    match (a, b) {
        (Some(x), Some(y)) => if is_nan(x) {
            Some(y)
        } else if is_nan(y) || signed_rank(y) <= signed_rank(x) {
            Some(x)
        } else {
            Some(y)
        },
        (Some(x), None) => Some(x),
        (None, _) => b,
    }
}

fn percent_now(window: &Option<UsageWindow>, now: i64) -> (r: Option<Percent>)
    ensures
        r == current_percent(*window, now),
{
    match window {
        Some(window) => if is_open(window.resets_at, now) {
            window.used_percent
        } else {
            None
        },
        None => None,
    }
}

/// Whether one of the groups of models cannot be used now.
pub open spec fn any_exhausted(buckets: Seq<UsageBucket>, now: i64) -> bool {
    exists|i: int| 0 <= i < buckets.len() && (#[trigger] buckets[i]).exhausted(now)
}

impl UsageRecord {
    pub open spec fn any_full(self) -> bool {
        full(self.primary_window) || full(self.secondary_window) || full(self.individual_window)
    }

    pub open spec fn any_full_now(self, now: i64) -> bool {
        full_now(self.primary_window, now) || full_now(self.secondary_window, now) || full_now(
            self.individual_window,
            now,
        )
    }

    /// Whether the limits of the account as a whole are reached now. A spending limit holds until
    /// its own end; spent credits hold; a reached limit holds unless every full window has
    /// started anew.
    pub open spec fn exhausted_as_whole(self, now: i64) -> bool {
        if self.spend_control_reached {
            open(reset_of(self.individual_window), now)
        } else if !self.reached {
            false
        } else {
            credits_gone(opt_text(self.reached_type)) || !self.any_full() || self.any_full_now(now)
        }
    }

    /// Whether the account, or one of its groups of models, cannot be used now.
    pub open spec fn exhausted(self, now: i64) -> bool {
        self.exhausted_as_whole(now) || any_exhausted(self.buckets@, now)
    }

    /// Whether the quota could be read.
    pub fn succeeded(&self) -> (r: bool)
        ensures
            r == self.error is None,
    {
        self.error.is_none()
    }

    /// Whether an account without unlimited use has no credits left.
    pub fn credits_depleted(&self) -> (r: bool)
        ensures
            r == (self.has_credits == Some(false) && self.unlimited == Some(false)),
            r == no_credits(self.has_credits, self.unlimited),
    {
        self.has_credits == Some(false) && self.unlimited == Some(false)
    }

    fn whole_exhausted(&self, now: i64) -> (r: bool)
        ensures
            r == self.exhausted_as_whole(now),
    {
        if self.spend_control_reached {
            return is_open(end_of(&self.individual_window), now);
        }
        if !self.reached {
            return false;
        }
        if credits_are_gone(&self.reached_type) {
            return true;
        }
        let some_full = is_full(&self.primary_window) || is_full(&self.secondary_window) || is_full(
            &self.individual_window,
        );
        !some_full || is_full_now(&self.primary_window, now) || is_full_now(
            &self.secondary_window,
            now,
        ) || is_full_now(&self.individual_window, now)
    }

    /// Whether the account, or one of its groups of models, cannot be used now.
    pub fn exhausted_now(&self, now: i64) -> (r: bool)
        ensures
            r == self.exhausted(now),
    {
        if self.whole_exhausted(now) {
            return true;
        }
        let mut i: usize = 0;
        while i < self.buckets.len()
            invariant
                i <= self.buckets.len(),
                forall|j: int| 0 <= j < i ==> !(#[trigger] self.buckets@[j]).exhausted(now),
            decreases self.buckets.len() - i,
        {
            if self.buckets[i].exhausted_now(now) {
                return true;
            }
            i += 1;
        }
        false
    }

    /// The highest percentage among the windows that have not started anew.
    pub fn max_current_used_percent(&self, now: i64) -> (r: Option<Percent>)
        ensures
            r == larger_of(
                larger_of(
                    current_percent(self.primary_window, now),
                    current_percent(self.secondary_window, now),
                ),
                current_percent(self.individual_window, now),
            ),
    {
        max_percent(
            max_percent(
                percent_now(&self.primary_window, now),
                percent_now(&self.secondary_window, now),
            ),
            percent_now(&self.individual_window, now),
        )
    }
}

// ---------------------------------------------------------------- one line

/// How a window's numbers are shown: its percentage, and the local time at which it starts anew.
pub struct Shown {
    pub used: String,
    pub when: String,
}

/// How far away the end of a window is.
pub open spec fn distance(reset: i64, now: i64) -> Seq<char> {
    if reset > now {
        " (in "@ + decimal_text(((reset - now) / 3600) as nat) + "h)"@
    } else {
        " (passed)"@
    }
}

/// What is said of one window.
pub open spec fn window_bits(
    label: Seq<char>,
    window: UsageWindow,
    used: Seq<char>,
    when: Seq<char>,
    now: i64,
) -> Seq<Seq<char>> {
    (match window.used_percent {
        Some(_) => seq![label + " "@ + used + "% used"@],
        None => Seq::empty(),
    }) + (match window.resets_at {
        Some(reset) => seq![label + " resets "@ + when + distance(reset, now)],
        None => Seq::empty(),
    })
}

/// What is said of windows, each name after `prefix`.
pub open spec fn windows_bits(
    prefix: Seq<char>,
    windows: Seq<(Seq<char>, UsageWindow)>,
    shown: Seq<Shown>,
    now: i64,
) -> Seq<Seq<char>>
    decreases windows.len(),
{
    if windows.len() == 0 || shown.len() < windows.len() {
        Seq::empty()
    } else {
        let n = windows.len() - 1;
        windows_bits(prefix, windows.drop_last(), shown, now) + window_bits(
            prefix + windows[n].0,
            windows[n].1,
            shown[n].used@,
            shown[n].when@,
            now,
        )
    }
}

/// The prefix of what is said of a group of models.
pub open spec fn bucket_prefix(bucket: UsageBucket) -> Seq<char> {
    match opt_text(bucket.limit_name) {
        Some(name) => name + " "@,
        None => ""@,
    }
}

/// What is said of a group of models.
pub open spec fn bucket_bits(bucket: UsageBucket, shown: Seq<Shown>, now: i64) -> Seq<Seq<char>> {
    windows_bits(bucket_prefix(bucket), bucket.named_windows(), shown, now) + (if bucket.exhausted(
        now,
    ) {
        seq![bucket_prefix(bucket) + "EXHAUSTED"@]
    } else {
        Seq::empty()
    })
}

/// What is said of groups of models; each takes as many shown numbers as it has windows.
pub open spec fn buckets_bits(buckets: Seq<UsageBucket>, shown: Seq<Shown>, now: i64) -> Seq<
    Seq<char>,
>
    decreases buckets.len(),
{
    if buckets.len() == 0 {
        Seq::empty()
    } else {
        let before = buckets.drop_last();
        buckets_bits(before, shown, now) + bucket_bits(
            buckets.last(),
            shown.skip(window_count(before) as int),
            now,
        )
    }
}

/// How many windows groups of models have.
pub open spec fn window_count(buckets: Seq<UsageBucket>) -> nat
    decreases buckets.len(),
{
    if buckets.len() == 0 {
        0
    } else {
        window_count(buckets.drop_last()) + buckets.last().named_windows().len()
    }
}

/// How long ago something was, in whole hours.
pub open spec fn seen(observed_at: i64, now: i64) -> Seq<char> {
    let gap = now - observed_at;
    let age = if gap > i64::MAX {
        i64::MAX as int
    } else if gap < i64::MIN {
        i64::MIN as int
    } else {
        gap
    };
    if age < 3600 {
        "seen just now"@
    } else {
        "seen "@ + decimal_text((age / 3600) as nat) + "h ago"@
    }
}

/// An optional text as a list.
pub open spec fn listed(text: Option<Seq<char>>) -> Seq<Seq<char>> {
    match text {
        Some(text) => seq![text],
        None => Seq::empty(),
    }
}

/// A text that is said only under a condition.
pub open spec fn said_if(condition: bool, text: Seq<char>) -> Seq<Seq<char>> {
    if condition {
        seq![text]
    } else {
        Seq::empty()
    }
}

impl UsageRecord {
    /// The windows of the account as a whole, each with its name.
    pub open spec fn named_windows(self) -> Seq<(Seq<char>, UsageWindow)> {
        named("primary"@, self.primary_window) + named("secondary"@, self.secondary_window) + named(
            "individual"@,
            self.individual_window,
        )
    }

    /// Everything that is said of the quota.
    pub open spec fn bits(self, shown: Seq<Shown>, now: i64) -> Seq<Seq<char>> {
        windows_bits(""@, self.named_windows(), shown, now) + said_if(
            self.exhausted_as_whole(now),
            "EXHAUSTED"@,
        ) + buckets_bits(self.buckets@, shown.skip(self.named_windows().len() as int), now) + listed(
            opt_text(self.plan_type),
        ) + said_if(
            self.has_credits == Some(false) && self.unlimited == Some(false),
            "no credits"@,
        ) + seq![seen(self.observed_at, now)]
    }

    /// The quota in one line.
    pub open spec fn line(self, shown: Seq<Shown>, now: i64) -> Seq<char> {
        match opt_text(self.error) {
            Some(error) => error,
            None => joined_by(self.bits(shown, now), ", "@),
        }
    }

    /// How many windows the record has.
    pub open spec fn shown_count(self) -> nat {
        self.named_windows().len() + window_count(self.buckets@)
    }

    /// Every window of the record: those of the account as a whole, then those of each group of
    /// models.
    pub fn windows(&self) -> (r: Vec<UsageWindow>)
        ensures
            r@ == record_windows(*self),
            r@.len() == self.shown_count(),
    {
        let mut out: Vec<UsageWindow> = Vec::new();
        if let Some(window) = self.primary_window {
            out.push(window);
        }
        if let Some(window) = self.secondary_window {
            out.push(window);
        }
        if let Some(window) = self.individual_window {
            out.push(window);
        }
        let ghost whole = out@;
        proof {
            assert(whole =~= only_windows(self.named_windows()));
            assert(self.buckets@.take(0) =~= Seq::<UsageBucket>::empty());
            assert(whole + buckets_windows(Seq::<UsageBucket>::empty()) =~= whole);
        }
        let mut i: usize = 0;
        while i < self.buckets.len()
            invariant
                i <= self.buckets.len(),
                out@ == whole + buckets_windows(self.buckets@.take(i as int)),
            decreases self.buckets.len() - i,
        {
            let named = self.buckets[i].windows();
            let ghost before = out@;
            let mut j: usize = 0;
            while j < named.len()
                invariant
                    j <= named.len(),
                    out@ == before + only_windows(window_views(named@)).take(j as int),
                decreases named.len() - j,
            {
                out.push(named[j].1);
                j += 1;
                proof {
                    assert(out@ =~= before + only_windows(window_views(named@)).take(j as int));
                }
            }
            proof {
                assert(only_windows(window_views(named@)).take(j as int) =~= only_windows(
                    window_views(named@),
                ));
                assert(self.buckets@.take(i + 1).drop_last() =~= self.buckets@.take(i as int));
                assert(self.buckets@.take(i + 1).last() == self.buckets@[i as int]);
                assert(out@ =~= whole + buckets_windows(self.buckets@.take(i + 1)));
            }
            i += 1;
        }
        proof {
            assert(self.buckets@.take(i as int) =~= self.buckets@);
            lemma_window_count(self.buckets@);
        }
        out
    }

    /// The quota in one line. `shown` holds the numbers of each window, in the order of
    /// `windows`, as they are to be shown.
    pub fn label(&self, now: i64, shown: &Vec<Shown>) -> (r: String)
        requires
            shown.len() == self.shown_count(),
        ensures
            r@ == self.line(shown@, now),
    {
        if let Some(error) = &self.error {
            return error.clone();
        }
        let mut bits: Vec<String> = Vec::new();
        let mut at: usize = 0;
        proof {
            assert(texts(bits@) =~= Seq::<Seq<char>>::empty());
        }
        self.whole_bits(now, shown, &mut bits, &mut at);
        if self.whole_exhausted(now) {
            say(&mut bits, "EXHAUSTED".to_owned());
        }
        self.grouped_bits(now, shown, &mut bits, &mut at);
        if let Some(plan) = &self.plan_type {
            say(&mut bits, plan.clone());
        }
        if self.credits_depleted() {
            say(&mut bits, "no credits".to_owned());
        }
        say(&mut bits, seen_label(self.observed_at, now));
        proof {
            assert(texts(bits@) =~= self.bits(shown@, now));
        }
        join(&bits, ", ")
    }

    fn whole_bits(&self, now: i64, shown: &Vec<Shown>, bits: &mut Vec<String>, at: &mut usize)
        requires
            shown.len() == self.shown_count(),
            *old(at) == 0,
        ensures
            *final(at) == self.named_windows().len(),
            texts(final(bits)@) == texts(old(bits)@) + windows_bits(
                ""@,
                self.named_windows(),
                shown@,
                now,
            ),
    {
        let mut named_list: Vec<(&'static str, UsageWindow)> = Vec::new();
        if let Some(window) = self.primary_window {
            named_list.push(("primary", window));
        }
        if let Some(window) = self.secondary_window {
            named_list.push(("secondary", window));
        }
        if let Some(window) = self.individual_window {
            named_list.push(("individual", window));
        }
        proof {
            assert(window_views(named_list@) =~= self.named_windows());
            assert(shown@.skip(0) =~= shown@);
        }
        say_windows("", &named_list, shown, 0, now, bits);
        *at = named_list.len();
        proof {
            assert(window_views(named_list@).len() == named_list.len());
        }
    }

    fn grouped_bits(&self, now: i64, shown: &Vec<Shown>, bits: &mut Vec<String>, at: &mut usize)
        requires
            shown.len() == self.shown_count(),
            *old(at) == self.named_windows().len(),
        ensures
            texts(final(bits)@) == texts(old(bits)@) + buckets_bits(
                self.buckets@,
                shown@.skip(self.named_windows().len() as int),
                now,
            ),
    {
        let ghost rest = shown@.skip(self.named_windows().len() as int);
        let ghost start = texts(bits@);
        let mut i: usize = 0;
        proof {
            assert(self.buckets@.take(0) =~= Seq::<UsageBucket>::empty());
            assert(start + Seq::<Seq<char>>::empty() =~= start);
        }
        while i < self.buckets.len()
            invariant
                i <= self.buckets.len(),
                shown.len() == self.shown_count(),
                rest == shown@.skip(self.named_windows().len() as int),
                *at == self.named_windows().len() + window_count(self.buckets@.take(i as int)),
                texts(bits@) == start + buckets_bits(self.buckets@.take(i as int), rest, now),
            decreases self.buckets.len() - i,
        {
            let bucket = &self.buckets[i];
            let windows = bucket.windows();
            let prefix = prefix_of(bucket);
            let ghost upto = self.buckets@.take(i + 1);
            proof {
                assert(upto.drop_last() =~= self.buckets@.take(i as int));
                assert(upto.last() == *bucket);
                assert(window_views(windows@).len() == windows.len());
                lemma_count_grows(self.buckets@, i + 1);
                assert(rest.skip(window_count(self.buckets@.take(i as int)) as int) =~= shown@.skip(
                    *at as int,
                ));
            }
            let ghost before = texts(bits@);
            say_windows(&prefix, &windows, shown, *at, now, bits);
            if bucket.exhausted_now(now) {
                say(bits, prefix.concat("EXHAUSTED"));
            }
            *at = *at + windows.len();
            i += 1;
            proof {
                assert(texts(bits@) =~= before + bucket_bits(
                    *bucket,
                    rest.skip(window_count(self.buckets@.take(i - 1)) as int),
                    now,
                ));
                assert(texts(bits@) =~= start + buckets_bits(upto, rest, now));
            }
        }
        proof {
            assert(self.buckets@.take(i as int) =~= self.buckets@);
        }
    }
}

/// The windows without their names.
pub open spec fn only_windows(named: Seq<(Seq<char>, UsageWindow)>) -> Seq<UsageWindow> {
    named.map_values(|w: (Seq<char>, UsageWindow)| w.1)
}

/// The windows of groups of models, one group after the other.
pub open spec fn buckets_windows(buckets: Seq<UsageBucket>) -> Seq<UsageWindow>
    decreases buckets.len(),
{
    if buckets.len() == 0 {
        Seq::empty()
    } else {
        buckets_windows(buckets.drop_last()) + only_windows(buckets.last().named_windows())
    }
}

/// Every window of a record.
pub open spec fn record_windows(record: UsageRecord) -> Seq<UsageWindow> {
    only_windows(record.named_windows()) + buckets_windows(record.buckets@)
}

proof fn lemma_window_count(buckets: Seq<UsageBucket>)
    ensures
        buckets_windows(buckets).len() == window_count(buckets),
    decreases buckets.len(),
{
    if buckets.len() > 0 {
        lemma_window_count(buckets.drop_last());
    }
}

proof fn lemma_count_grows(buckets: Seq<UsageBucket>, i: int)
    requires
        0 <= i <= buckets.len(),
    ensures
        window_count(buckets.take(i)) <= window_count(buckets),
    decreases buckets.len() - i,
{
    if i == buckets.len() {
        assert(buckets.take(i) =~= buckets);
    } else {
        lemma_count_grows(buckets, i + 1);
        assert(buckets.take(i + 1).drop_last() =~= buckets.take(i));
    }
}

fn say(bits: &mut Vec<String>, text: String)
    ensures
        texts(final(bits)@) == texts(old(bits)@).push(text@),
{
    bits.push(text);
    proof {
        assert(texts(bits@) =~= texts(old(bits)@).push(text@));
    }
}

fn prefix_of(bucket: &UsageBucket) -> (r: String)
    ensures
        r@ == bucket_prefix(*bucket),
{
    match &bucket.limit_name {
        Some(name) => name.clone().concat(" "),
        None => "".to_owned(),
    }
}

fn seen_label(observed_at: i64, now: i64) -> (r: String)
    ensures
        r@ == seen(observed_at, now),
{
    let gap: i128 = now as i128 - observed_at as i128;
    let age: i128 = if gap > i64::MAX as i128 {
        i64::MAX as i128
    } else {
        gap
    };
    if age < 3600 {
        "seen just now".to_owned()
    } else {
        "seen ".to_owned().concat(&decimal((age / 3600) as u64)).concat("h ago")
    }
}

fn say_windows(
    prefix: &str,
    windows: &Vec<(&'static str, UsageWindow)>,
    shown: &Vec<Shown>,
    from: usize,
    now: i64,
    bits: &mut Vec<String>,
)
    requires
        from + windows.len() <= shown.len(),
    ensures
        texts(final(bits)@) == texts(old(bits)@) + windows_bits(
            prefix@,
            window_views(windows@),
            shown@.skip(from as int),
            now,
        ),
{
    let ghost start = texts(bits@);
    let ghost all = window_views(windows@);
    let ghost rest = shown@.skip(from as int);
    let mut i: usize = 0;
    proof {
        assert(all.take(0) =~= Seq::<(Seq<char>, UsageWindow)>::empty());
        assert(start + Seq::<Seq<char>>::empty() =~= start);
    }
    while i < windows.len()
        invariant
            i <= windows.len(),
            from + windows.len() <= shown.len(),
            all == window_views(windows@),
            rest == shown@.skip(from as int),
            texts(bits@) == start + windows_bits(prefix@, all.take(i as int), rest, now),
        decreases windows.len() - i,
    {
        let window = windows[i].1;
        let label = prefix.to_owned().concat(windows[i].0);
        let numbers = &shown[from + i];
        let ghost before = texts(bits@);
        proof {
            assert(all.take(i + 1).drop_last() =~= all.take(i as int));
            assert(all.take(i + 1)[i as int] == (windows@[i as int].0@, window));
            assert(rest[i as int] == *numbers);
        }
        if window.used_percent.is_some() {
            say(bits, label.clone().concat(" ").concat(&numbers.used).concat("% used"));
        }
        if let Some(reset) = window.resets_at {
            let suffix = if reset > now {
                let hours: i128 = (reset as i128 - now as i128) / 3600;
                " (in ".to_owned().concat(&decimal(hours as u64)).concat("h)")
            } else {
                " (passed)".to_owned()
            };
            say(
                bits,
                label.concat(" resets ").concat(&numbers.when).concat(&suffix),
            );
        }
        i += 1;
        proof {
            assert(texts(bits@) =~= before + window_bits(
                prefix@ + windows@[i - 1].0@,
                window,
                numbers.used@,
                numbers.when@,
                now,
            ));
            assert(texts(bits@) =~= start + windows_bits(prefix@, all.take(i as int), rest, now));
        }
    }
    proof {
        assert(all.take(i as int) =~= all);
    }
}

/// Whether a moment, in seconds since the Unix epoch, lies in the years that the calendar covers.
pub open spec fn in_calendar(seconds: int) -> bool {
    -8_334_601_228_800 <= seconds <= 8_210_266_876_799
}

/// A month by its short English name.
pub open spec fn month_name(month: Seq<char>) -> bool {
    ||| month == "Jan"@ || month == "Feb"@ || month == "Mar"@ || month == "Apr"@
    ||| month == "May"@ || month == "Jun"@ || month == "Jul"@ || month == "Aug"@
    ||| month == "Sep"@ || month == "Oct"@ || month == "Nov"@ || month == "Dec"@
}

/// A day of a month with a time of day.
pub open spec fn day_text(month: Seq<char>, day: nat, hour: nat, minute: nat) -> Seq<char> {
    month + " "@ + two_digits(day) + " "@ + two_digits(hour) + ":"@ + two_digits(minute)
}

/// Whether a text is a day of a month with the time of day of a moment, given in seconds on a clock
/// that showed midnight at zero.
pub open spec fn at_time_of(text: Seq<char>, moment: int) -> bool {
    exists|month: Seq<char>, day: nat|
        month_name(month) && 1 <= day <= 31 && text == #[trigger] day_text(
            month,
            day,
            (moment % 86400 / 3600) as nat,
            (moment % 3600 / 60) as nat,
        )
}

/// The day and the time that `chrono` shows for a moment on a local clock, in seconds since that
/// clock showed the Unix epoch.
pub uninterp spec fn moment_text(moment: int) -> Seq<char>;

/// `chrono::FixedOffset::local_minus_utc` of the machine's time zone at a moment: how far, in
/// seconds, the machine's clock is ahead of universal time, always less than a day. There is an
/// answer for every moment of the calendar, from its year -262143 to its year 262142, and none for
/// another. How far it is depends on the machine, so nothing more is said of it.
#[verifier::external_body]
fn local_offset(seconds: i64) -> (r: Option<i32>)
    ensures
        r is Some <==> in_calendar(seconds as int),
        r matches Some(offset) ==> -86400 < offset < 86400,
{
    chrono::DateTime::from_timestamp(seconds, 0).map(|time| time.with_timezone(&chrono::Local).offset().local_minus_utc())
}

/// `chrono::DateTime::format` with `%b %d %H:%M`, in a zone that is so many seconds ahead of
/// universal time: it depends only on what a clock of that zone shows, the time of day is that of
/// this clock, and there is a text for every moment of the calendar and none for another.
#[verifier::external_body]
fn time_in_zone(seconds: i64, offset: i32) -> (r: Option<String>)
    requires
        -86400 < offset < 86400,
    ensures
        r is Some <==> in_calendar(seconds as int),
        r matches Some(text) ==> text@ == moment_text(seconds + offset),
        r matches Some(text) ==> at_time_of(text@, seconds + offset),
{
    let zone = chrono::FixedOffset::east_opt(offset)?;
    chrono::DateTime::from_timestamp(seconds, 0).map(|time| time.with_timezone(&zone).format("%b %d %H:%M").to_string())
}

/// Whether a text shows a moment as a clock does that is so many seconds ahead of universal time.
pub open spec fn shown_ahead(text: Seq<char>, moment: int, offset: int) -> bool {
    &&& -86400 < offset < 86400
    &&& text == moment_text(moment + offset)
    &&& at_time_of(text, moment + offset)
}

/// How the end of a window is shown: as the day and the time of some time zone, or by its number
/// of seconds where it lies beyond the calendar.
pub open spec fn shown_end(window: UsageWindow, when: Seq<char>) -> bool {
    match window.resets_at {
        Some(reset) => if in_calendar(reset as int) {
            exists|offset: int| #[trigger] shown_ahead(when, reset as int, offset)
        } else {
            when == signed_text(reset as int)
        },
        None => when == ""@,
    }
}

/// A moment in the machine's time zone, or by its number of seconds where it lies beyond the
/// calendar.
fn local_time(moment: i64) -> (r: String)
    ensures
        in_calendar(moment as int) ==> exists|offset: int| #[trigger]
            shown_ahead(r@, moment as int, offset),
        !in_calendar(moment as int) ==> r@ == signed_text(moment as int),
{
    match local_offset(moment) {
        Some(offset) => match time_in_zone(moment, offset) {
            Some(text) => {
                assert(shown_ahead(text@, moment as int, offset as int));
                text
            },
            None => signed(moment),
        },
        None => signed(moment),
    }
}

impl UsageRecord {
    /// The numbers of each window as they are to be shown: the given percentages, and the local
    /// times at which the windows start anew.
    pub fn shown(&self, used: &Vec<String>) -> (r: Vec<Shown>)
        requires
            used.len() == self.shown_count(),
        ensures
            r.len() == self.shown_count(),
            forall|i: int|
                0 <= i < r.len() ==> (#[trigger] r@[i]).used@ == used@[i]@ && shown_end(
                    record_windows(*self)[i],
                    r@[i].when@,
                ),
    {
        let windows = self.windows();
        let mut out: Vec<Shown> = Vec::new();
        let mut i: usize = 0;
        while i < windows.len()
            invariant
                i <= windows.len() == used.len(),
                windows@ == record_windows(*self),
                out.len() == i,
                forall|j: int|
                    0 <= j < i ==> (#[trigger] out@[j]).used@ == used@[j]@ && shown_end(
                        record_windows(*self)[j],
                        out@[j].when@,
                    ),
            decreases windows.len() - i,
        {
            let when = match windows[i].resets_at {
                Some(reset) => local_time(reset),
                None => "".to_owned(),
            };
            out.push(Shown { used: used[i].clone(), when });
            i += 1;
        }
        out
    }
}

// ---------------------------------------------------------------- laws

/// A limit that does not hold now never holds again without a new observation: exhaustion of
/// the account as a whole only ever ends as time goes on.
pub proof fn law_exhaustion_ends(record: UsageRecord, now: i64, later: i64)
    requires
        now <= later,
        record.exhausted_as_whole(later),
    ensures
        record.exhausted_as_whole(now),
{
}

/// The same of each group of models.
pub proof fn law_bucket_exhaustion_ends(bucket: UsageBucket, now: i64, later: i64)
    requires
        now <= later,
        bucket.exhausted(later),
    ensures
        bucket.exhausted(now),
{
}

/// An account that can be used stays usable without a new observation: exhaustion of the account
/// or of one of its groups of models only ever ends as time goes on.
pub proof fn law_exhaustion_of_accounts_ends(record: UsageRecord, now: i64, later: i64)
    requires
        now <= later,
        record.exhausted(later),
    ensures
        record.exhausted(now),
{
    if any_exhausted(record.buckets@, later) {
        let i = choose|i: int|
            0 <= i < record.buckets@.len() && (#[trigger] record.buckets@[i]).exhausted(later);
        law_bucket_exhaustion_ends(record.buckets@[i], now, later);
    }
}

}
