//! Data-limit alerts: which threshold crossings are announced, and that each is
//! announced once per day or month.
use vstd::prelude::*;
use crate::clock::{is_date_label, is_month_label, local_date_label, local_month_label};
use crate::decimal::{decimal_text, format_u64};
use crate::text::text_equals;

verus! {

/// The period a data limit covers.
#[derive(Clone, Copy, Debug, PartialEq, Eq)]
pub enum LimitScope {
    Daily,
    Monthly,
}

pub open spec fn scope_word(scope: LimitScope) -> Seq<char> {
    match scope {
        LimitScope::Daily => "daily"@,
        LimitScope::Monthly => "monthly"@,
    }
}

/// The key under which an announced crossing is remembered: scope, threshold
/// and period label, joined by `_`.
pub open spec fn alert_key(scope: LimitScope, threshold: u64, label: Seq<char>) -> Seq<char> {
    scope_word(scope) + "_"@ + decimal_text(threshold as nat) + "_"@ + label
}

/// The text of the alert for a crossed threshold.
pub open spec fn alert_message(scope: LimitScope, threshold: u64) -> Seq<char> {
    if threshold == 100 {
        "You have reached your "@ + scope_word(scope) + " data limit."@
    } else {
        "You have used "@ + decimal_text(threshold as nat) + "% of your "@ + scope_word(scope)
            + " data limit."@
    }
}

/// The threshold announced when `pct` percent of the limit is used: 100 before
/// 80, each only if it was reached and not announced before in this period.
pub open spec fn fired_threshold(
    announced: Set<Seq<char>>,
    scope: LimitScope,
    pct: u64,
    label: Seq<char>,
) -> Option<u64> {
    if pct >= 100 && !announced.contains(alert_key(scope, 100, label)) {
        Some(100)
    } else if pct >= 80 && !announced.contains(alert_key(scope, 80, label)) {
        Some(80)
    } else {
        None
    }
}

/// Whether a data limit is checked at all: a limit of 0 bytes means none is set.
pub fn limit_is_set(limit_bytes: u64) -> (r: bool)
    ensures
        r == (limit_bytes > 0),
{
    limit_bytes > 0
}

/// The crossings announced so far.
pub struct AlertLedger {
    keys: Vec<String>,
}

impl View for AlertLedger {
    type V = Set<Seq<char>>;

    closed spec fn view(&self) -> Set<Seq<char>> {
        self.keys@.map_values(|s: String| s@).to_set()
    }
}

fn scope_text(scope: LimitScope) -> (s: &'static str)
    ensures
        s@ == scope_word(scope),
{
    match scope {
        LimitScope::Daily => "daily",
        LimitScope::Monthly => "monthly",
    }
}

fn alert_key_text(scope: LimitScope, threshold: u64, label: &str) -> (k: String)
    ensures
        k@ == alert_key(scope, threshold, label@),
{
    let mut k = String::from_str(scope_text(scope));
    k.append("_");
    let digits = format_u64(threshold);
    k.append(digits.as_str());
    k.append("_");
    k.append(label);
    k
}

fn alert_message_text(scope: LimitScope, threshold: u64) -> (m: String)
    ensures
        m@ == alert_message(scope, threshold),
{
    if threshold == 100 {
        let mut m = String::from_str("You have reached your ");
        m.append(scope_text(scope));
        m.append(" data limit.");
        m
    } else {
        let mut m = String::from_str("You have used ");
        let digits = format_u64(threshold);
        m.append(digits.as_str());
        m.append("% of your ");
        m.append(scope_text(scope));
        m.append(" data limit.");
        m
    }
}

impl AlertLedger {
    /// A ledger with nothing announced.
    pub fn new() -> (l: AlertLedger)
        ensures
            l@ == Set::<Seq<char>>::empty(),
    {
        let l = AlertLedger { keys: Vec::new() };
        assert(l@ =~= Set::<Seq<char>>::empty());
        l
    }

    /// Whether the crossing remembered under `key` was announced.
    pub fn contains(&self, key: &str) -> (r: bool)
        ensures
            r == self@.contains(key@),
    {
        let ghost views = self.keys@.map_values(|s: String| s@);
        let mut i: usize = 0;
        while i < self.keys.len()
            invariant
                views == self.keys@.map_values(|s: String| s@),
                i <= self.keys.len(),
                forall|j: int| 0 <= j < i ==> self.keys@[j]@ != key@,
            decreases self.keys.len() - i,
        {
            if text_equals(self.keys[i].as_str(), key) {
                assert(views[i as int] == key@);
                return true;
            }
            i = i + 1;
        }
        proof {
            if views.contains(key@) {
                let j = choose|j: int| 0 <= j < views.len() && views[j] == key@;
                assert(self.keys@[j]@ == key@);
            }
        }
        false
    }

    fn insert(&mut self, key: String)
        ensures
            final(self)@ == old(self)@.insert(key@),
    {
        let ghost before = self.keys@.map_values(|s: String| s@);
        let ghost kv = key@;
        self.keys.push(key);
        proof {
            assert(self.keys@.map_values(|s: String| s@) =~= before.push(kv));
            before.lemma_push_to_set_commute(kv);
        }
    }

    /// Announces at most one crossing of the data limit of `scope`, with `pct`
    /// percent of it used in the period labelled `label`; returns the alert
    /// text and remembers the crossing.
    pub fn evaluate(&mut self, scope: LimitScope, pct: u64, label: &str) -> (r: Option<String>)
        ensures
            match fired_threshold(old(self)@, scope, pct, label@) {
                Some(t) => {
                    &&& r matches Some(m) && m@ == alert_message(scope, t)
                    &&& final(self)@ == old(self)@.insert(alert_key(scope, t, label@))
                },
                None => r is None && final(self)@ == old(self)@,
            },
    {
        let k100 = alert_key_text(scope, 100, label);
        if pct >= 100 && !self.contains(k100.as_str()) {
            self.insert(k100);
            return Some(alert_message_text(scope, 100));
        }
        let k80 = alert_key_text(scope, 80, label);
        if pct >= 80 && !self.contains(k80.as_str()) {
            self.insert(k80);
            return Some(alert_message_text(scope, 80));
        }
        None
    }

    /// Announces at most one crossing of the daily limit, for today's local date:
    /// the crossings are keyed by a `%Y-%m-%d` day label, never by a month.
    pub fn check_daily(&mut self, pct: u64) -> (r: Option<String>)
        ensures
            exists|label: Seq<char>|
                is_date_label(label) && match #[trigger] fired_threshold(
                    old(self)@,
                    LimitScope::Daily,
                    pct,
                    label,
                ) {
                    Some(t) => {
                        &&& r matches Some(m) && m@ == alert_message(LimitScope::Daily, t)
                        &&& final(self)@ == old(self)@.insert(alert_key(LimitScope::Daily, t, label))
                    },
                    None => r is None && final(self)@ == old(self)@,
                },
    {
        let today = local_date_label();
        self.evaluate(LimitScope::Daily, pct, today.as_str())
    }

    /// Announces at most one crossing of the monthly limit, for the current local
    /// month: the crossings are keyed by a `%Y-%m` month label.
    pub fn check_monthly(&mut self, pct: u64) -> (r: Option<String>)
        ensures
            exists|label: Seq<char>|
                is_month_label(label) && match #[trigger] fired_threshold(
                    old(self)@,
                    LimitScope::Monthly,
                    pct,
                    label,
                ) {
                    Some(t) => {
                        &&& r matches Some(m) && m@ == alert_message(LimitScope::Monthly, t)
                        &&& final(self)@ == old(self)@.insert(alert_key(LimitScope::Monthly, t, label))
                    },
                    None => r is None && final(self)@ == old(self)@,
                },
    {
        let month = local_month_label();
        self.evaluate(LimitScope::Monthly, pct, month.as_str())
    }
}

/// A crossing is announced at most once per period: once a threshold has fired
/// for a scope and period, no later check in that period fires it again,
/// whatever share of the limit is used by then.
pub proof fn lemma_alert_not_repeated(
    announced: Set<Seq<char>>,
    scope: LimitScope,
    pct1: u64,
    pct2: u64,
    label: Seq<char>,
)
    ensures
        fired_threshold(announced, scope, pct1, label) matches Some(t) ==> fired_threshold(
            announced.insert(alert_key(scope, t, label)),
            scope,
            pct2,
            label,
        ) != Some(t),
{
}

/// Crossings of different periods are remembered apart: the same scope and
/// threshold give different keys for different period labels.
pub proof fn lemma_alert_key_separates_periods(scope: LimitScope, threshold: u64, l1: Seq<char>, l2: Seq<char>)
    ensures
        alert_key(scope, threshold, l1) == alert_key(scope, threshold, l2) ==> l1 == l2,
{
    let p = scope_word(scope) + "_"@ + decimal_text(threshold as nat) + "_"@;
    assert(alert_key(scope, threshold, l1) =~= p + l1);
    assert(alert_key(scope, threshold, l2) =~= p + l2);
    if alert_key(scope, threshold, l1) == alert_key(scope, threshold, l2) {
        assert(l1 =~= (p + l1).subrange(p.len() as int, (p + l1).len() as int));
        assert(l2 =~= (p + l2).subrange(p.len() as int, (p + l2).len() as int));
    }
}

/// Reaching the whole limit in a new period fires again: a crossing announced
/// for one period (say one day) does not silence the same crossing in another,
/// so with the limit reached and nothing yet announced for the new period, the
/// 100% alert fires.
pub proof fn lemma_limit_fires_again_in_new_period(
    announced: Set<Seq<char>>,
    scope: LimitScope,
    pct: u64,
    earlier: Seq<char>,
    later: Seq<char>,
)
    requires
        earlier != later,
        pct >= 100,
        !announced.contains(alert_key(scope, 100, later)),
    ensures
        fired_threshold(announced.insert(alert_key(scope, 100, earlier)), scope, pct, later) == Some(
            100u64,
        ),
{
    lemma_alert_key_separates_periods(scope, 100, earlier, later);
}

} // verus!
