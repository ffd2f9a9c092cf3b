//! Several accounts behind one provider: which account serves a call, and what their limits are
//! together.

use vstd::prelude::*;

use super::contract::HealthReport;
use super::contract::HealthState;
use super::rate_limit::RateBucket;
use super::rate_limit::RateLimitProfile;
use super::PluginError;
use crate::text::dec_digits;
use crate::text::push_decimal;
use crate::text::push_text;
use crate::text::string_of;
use crate::types::DeleteOutcome;
use crate::types::HealthScore;
use crate::types::QuotaState;
use crate::types::RateLimitState;
use crate::types::Timestamp;
use crate::types::UpdateCapability;

verus! {

/// How the account of a call is chosen.
#[derive(Clone, Copy, PartialEq, Eq, Structural, Debug)]
pub enum AccountStrategy {
    /// Each in turn.
    RoundRobin,
    /// The one that has served least, and the first of several.
    LeastUsed,
}

/// The accounts of a provider, by number, and how often each has served.
pub struct AccountRotator {
    strategy: AccountStrategy,
    next: usize,
    usage: Vec<u32>,
}

/// A write that is being offered to one account after the other.
pub struct PutRotation {
    tried: Vec<bool>,
    attempts: usize,
    last: Option<usize>,
}

/// Whether account `i` has served least among those that were not tried, and is the first that
/// did.
pub open spec fn is_least_used(usage: Seq<u32>, tried: Seq<bool>, i: int) -> bool {
    &&& 0 <= i < usage.len()
    &&& !tried[i]
    &&& forall|j: int| 0 <= j < usage.len() && !tried[j] ==> usage[i] <= #[trigger] usage[j]
    &&& forall|j: int| 0 <= j < i && !tried[j] ==> usage[i] < #[trigger] usage[j]
}

/// How many accounts were tried.
pub open spec fn tried_count(tried: Seq<bool>) -> nat
    decreases tried.len(),
{
    if tried.len() == 0 {
        0
    } else {
        tried_count(tried.drop_last()) + (if tried.last() {
            1nat
        } else {
            0nat
        })
    }
}

proof fn lemma_tried_bound(tried: Seq<bool>)
    ensures
        tried_count(tried) <= tried.len(),
        tried_count(tried) == tried.len() ==> forall|i: int| 0 <= i < tried.len() ==> tried[i],
    decreases tried.len(),
{
    if tried.len() > 0 {
        lemma_tried_bound(tried.drop_last());
        if tried_count(tried) == tried.len() {
            assert forall|i: int| 0 <= i < tried.len() implies tried[i] by {
                if i < tried.len() - 1 {
                    assert(tried.drop_last()[i] == tried[i]);
                }
            }
        }
    }
}

proof fn lemma_untried_exists(tried: Seq<bool>)
    requires
        tried_count(tried) < tried.len(),
    ensures
        exists|i: int| 0 <= i < tried.len() && !tried[i],
    decreases tried.len(),
{
    if tried.last() {
        lemma_untried_exists(tried.drop_last());
        let i = choose|i: int| 0 <= i < tried.drop_last().len() && !tried.drop_last()[i];
        assert(!tried[i]);
    } else {
        assert(!tried[tried.len() - 1]);
    }
}

proof fn lemma_tried_update(tried: Seq<bool>, at: int)
    requires
        0 <= at < tried.len(),
    ensures
        tried_count(tried.update(at, true)) <= tried_count(tried) + 1,
    decreases tried.len(),
{
    let t = tried.update(at, true);
    if at == tried.len() - 1 {
        assert(t.drop_last() =~= tried.drop_last());
    } else {
        assert(t.drop_last() =~= tried.drop_last().update(at, true));
        lemma_tried_update(tried.drop_last(), at);
    }
}

impl PutRotation {
    /// Which accounts were tried.
    pub closed spec fn tried(self) -> Seq<bool> {
        self.tried@
    }

    /// How many attempts were made.
    pub closed spec fn attempts(self) -> int {
        self.attempts as int
    }

    /// The account that failed last.
    pub closed spec fn last(self) -> Option<usize> {
        self.last
    }

    /// Whether no more accounts are marked than attempts were made.
    pub closed spec fn wf(self, accounts: int) -> bool {
        &&& self.tried@.len() == accounts
        &&& tried_count(self.tried@) <= self.attempts <= accounts
    }

    /// Takes the failure of an account. One that cannot serve now gives way to the next; any other
    /// error is handed back, and ends the write.
    pub fn failed(&mut self, account: usize, err: PluginError) -> (r: Option<PluginError>)
        ensures
            forall|n: int| #[trigger] old(self).wf(n) ==> final(self).wf(n),
            final(self).tried() == old(self).tried(),
            final(self).attempts() == old(self).attempts(),
            if err is RateLimited || err is Unavailable {
                r is None && final(self).last() == Some(account)
            } else {
                r == Some(err) && final(self).last() == old(self).last()
            },
    {
        let yields: bool = match &err {
            PluginError::RateLimited { .. } => true,
            PluginError::Unavailable(_) => true,
            _ => false,
        };
        if yields {
            self.last = Some(account);
            None
        } else {
            Some(err)
        }
    }

    /// The error of a write that no account served.
    pub fn exhausted(&self) -> (r: PluginError)
        ensures
            match self.last() {
                Some(i) => r matches PluginError::Unavailable(m) && m@ == "rotator: account "@
                    + dec_digits(i as nat) + " unavailable"@,
                None => r matches PluginError::Plugin(m) && m@ == "rotator: all accounts exhausted"@,
            },
    {
        match self.last {
            Some(i) => {
                let mut m: Vec<char> = Vec::new();
                push_text(&mut m, "rotator: account ");
                push_decimal(&mut m, i as u64);
                push_text(&mut m, " unavailable");
                assert(m@ =~= "rotator: account "@ + dec_digits(i as nat) + " unavailable"@);
                PluginError::Unavailable(string_of(&m))
            },
            None => PluginError::Plugin("rotator: all accounts exhausted".to_owned()),
        }
    }
}

impl AccountRotator {
    /// How often each account has served.
    pub closed spec fn usage(self) -> Seq<u32> {
        self.usage@
    }

    /// How the account of a call is chosen.
    pub closed spec fn strategy(self) -> AccountStrategy {
        self.strategy
    }

    /// The number of the next turn.
    pub closed spec fn turn(self) -> usize {
        self.next
    }

    /// A rotator over accounts that have not served yet. There must be at least one.
    pub fn new(accounts: usize, strategy: AccountStrategy) -> (r: Self)
        requires
            accounts > 0,
        ensures
            r.usage() == Seq::new(accounts as nat, |i: int| 0u32),
            r.strategy() == strategy,
            r.turn() == 0,
    {
        let mut usage: Vec<u32> = Vec::new();
        let mut i: usize = 0;
        while i < accounts
            invariant
                0 <= i <= accounts,
                usage@.len() == i,
                forall|j: int| 0 <= j < i ==> usage@[j] == 0u32,
            decreases accounts - i,
        {
            usage.push(0u32);
            i = i + 1;
        }
        assert(usage@ =~= Seq::new(accounts as nat, |i: int| 0u32));
        AccountRotator { strategy, next: 0, usage }
    }

    /// How many accounts there are.
    pub fn len(&self) -> (r: usize)
        ensures
            r == self.usage().len(),
    {
        self.usage.len()
    }

    /// Whether there are no accounts.
    pub fn is_empty(&self) -> (r: bool)
        ensures
            r == (self.usage().len() == 0),
    {
        self.usage.len() == 0
    }

    /// How often each account has served.
    pub fn usage_snapshot(&self) -> (r: Vec<u32>)
        ensures
            r@ == self.usage(),
    {
        let mut out: Vec<u32> = Vec::new();
        let mut i: usize = 0;
        while i < self.usage.len()
            invariant
                0 <= i <= self.usage@.len(),
                out@ == self.usage@.take(i as int),
            decreases self.usage@.len() - i,
        {
            out.push(self.usage[i]);
            assert(out@ =~= self.usage@.take(i + 1));
            i = i + 1;
        }
        assert(out@ =~= self.usage@);
        out
    }

    /// Starts a write.
    pub fn begin_put(&self) -> (r: PutRotation)
        ensures
            r.wf(self.usage().len() as int),
            r.attempts() == 0,
            r.last() is None,
            r.tried() == Seq::new(self.usage().len(), |i: int| false),
    {
        let n: usize = self.usage.len();
        let mut tried: Vec<bool> = Vec::new();
        let mut i: usize = 0;
        while i < n
            invariant
                0 <= i <= n,
                tried@.len() == i,
                forall|j: int| 0 <= j < i ==> !tried@[j],
                tried_count(tried@) == 0,
            decreases n - i,
        {
            let ghost before = tried@;
            tried.push(false);
            assert(tried@.drop_last() =~= before);
            i = i + 1;
        }
        assert(tried@ =~= Seq::new(n as nat, |i: int| false));
        PutRotation { tried, attempts: 0, last: None }
    }

    /// The account to offer a write to next; `None` once every account has had its turn. In turn,
    /// the turns of all writes go on from one another. By use, the account that has served least
    /// among those that this write was not offered to.
    pub fn next_account(&mut self, put: &mut PutRotation) -> (r: Option<usize>)
        requires
            old(self).usage().len() > 0,
            old(put).wf(old(self).usage().len() as int),
        ensures
            final(put).wf(final(self).usage().len() as int),
            final(self).usage() == old(self).usage(),
            final(self).strategy() == old(self).strategy(),
            final(put).last() == old(put).last(),
            if old(put).attempts() == old(self).usage().len() {
                &&& r is None
                &&& final(put).attempts() == old(put).attempts()
                &&& final(put).tried() == old(put).tried()
                &&& final(self).turn() == old(self).turn()
            } else {
                &&& r matches Some(i) && i < old(self).usage().len() && final(put).tried() == old(
                    put,
                ).tried().update(i as int, true) && match old(self).strategy() {
                    AccountStrategy::RoundRobin => i == old(self).turn() as int % old(
                        self,
                    ).usage().len() as int && final(self).turn() == (if old(self).turn()
                        == usize::MAX {
                        0
                    } else {
                        old(self).turn() + 1
                    }),
                    AccountStrategy::LeastUsed => is_least_used(
                        old(self).usage(),
                        old(put).tried(),
                        i as int,
                    ) && final(self).turn() == old(self).turn(),
                }
                &&& final(put).attempts() == old(put).attempts() + 1
            },
    {
        let n: usize = self.usage.len();
        if put.attempts == n {
            return None;
        }
        let i: usize = match self.strategy {
            AccountStrategy::RoundRobin => {
                let i: usize = self.next % n;
                self.next = if self.next == usize::MAX {
                    0
                } else {
                    self.next + 1
                };
                i
            },
            AccountStrategy::LeastUsed => self.least_used(put),
        };
        proof {
            lemma_tried_update(put.tried@, i as int);
        }
        put.tried.set(i, true);
        put.attempts = put.attempts + 1;
        Some(i)
    }

    fn least_used(&self, put: &PutRotation) -> (r: usize)
        requires
            put.wf(self.usage().len() as int),
            put.attempts() < self.usage().len(),
        ensures
            is_least_used(self.usage(), put.tried(), r as int),
    {
        let n: usize = self.usage.len();
        proof {
            lemma_untried_exists(put.tried@);
        }
        let mut best: usize = n;
        let mut j: usize = 0;
        while j < n
            invariant
                n == self.usage@.len(),
                n == put.tried@.len(),
                0 <= j <= n,
                best == n || best < j,
                best == n ==> forall|k: int| 0 <= k < j ==> put.tried@[k],
                best < n ==> !put.tried@[best as int] && (forall|k: int|
                    0 <= k < j && !put.tried@[k] ==> self.usage@[best as int] <= #[trigger] self.usage@[k])
                    && (forall|k: int|
                    0 <= k < best && !put.tried@[k] ==> self.usage@[best as int] < #[trigger] self.usage@[k]),
            decreases n - j,
        {
            if !put.tried[j] {
                if best == n || self.usage[j] < self.usage[best] {
                    best = j;
                }
            }
            j = j + 1;
        }
        best
    }

    /// Counts that an account has served.
    pub fn record_use(&mut self, account: usize)
        ensures
            final(self).strategy() == old(self).strategy(),
            final(self).turn() == old(self).turn(),
            final(self).usage() == (if account < old(self).usage().len() {
                old(self).usage().update(
                    account as int,
                    if old(self).usage()[account as int] == u32::MAX {
                        u32::MAX
                    } else {
                        (old(self).usage()[account as int] + 1) as u32
                    },
                )
            } else {
                old(self).usage()
            }),
    {
        if account < self.usage.len() {
            let n: u32 = self.usage[account].saturating_add(1);
            self.usage.set(account, n);
        }
    }
}

/// What to do after an account answered a read or an update of a handle: only the account that
/// gave the handle out knows it, so the others are asked too.
#[derive(Clone, Copy, PartialEq, Eq, Structural, Debug)]
pub enum FanOut {
    /// The answer is the result.
    Stop,
    /// Ask the next account.
    Continue,
}

/// A read goes on only while accounts do not know the handle.
pub fn after_get(err: Option<&PluginError>) -> (r: FanOut)
    ensures
        r == (if err is Some && *err.unwrap() is NotFound {
            FanOut::Continue
        } else {
            FanOut::Stop
        }),
{
    match err {
        Some(PluginError::NotFound(_)) => FanOut::Continue,
        _ => FanOut::Stop,
    }
}

/// An update goes on after any error, except that it stops where updates are not supported.
pub fn after_update(err: Option<&PluginError>) -> (r: FanOut)
    ensures
        r == (if err is Some && !(*err.unwrap() is NotSupported) {
            FanOut::Continue
        } else {
            FanOut::Stop
        }),
{
    match err {
        None => FanOut::Stop,
        Some(PluginError::NotSupported(_)) => FanOut::Stop,
        Some(_) => FanOut::Continue,
    }
}

/// The error where no account knows a handle.
pub fn unknown_handle() -> (r: PluginError)
    ensures
        r matches PluginError::NotFound(m) && m@ == "rotator: no account had this handle"@,
{
    PluginError::NotFound("rotator: no account had this handle".to_owned())
}

/// The first answer to a delete that is not that the object is not there, among those of accounts
/// that answered; where there is none, the last answer.
pub fn pick_delete(answers: &Vec<DeleteOutcome>) -> (r: Option<usize>)
    ensures
        match r {
            Some(i) => {
                &&& i < answers@.len()
                &&& if answers@[i as int] == DeleteOutcome::NotFound {
                    i == answers@.len() - 1 && forall|j: int|
                        0 <= j < answers@.len() ==> #[trigger] answers@[j] == DeleteOutcome::NotFound
                } else {
                    forall|j: int| 0 <= j < i ==> #[trigger] answers@[j] == DeleteOutcome::NotFound
                }
            },
            None => answers@.len() == 0,
        },
{
    let mut i: usize = 0;
    while i < answers.len()
        invariant
            0 <= i <= answers@.len(),
            forall|j: int| 0 <= j < i ==> #[trigger] answers@[j] == DeleteOutcome::NotFound,
        decreases answers@.len() - i,
    {
        if answers[i] != DeleteOutcome::NotFound {
            return Some(i);
        }
        i = i + 1;
    }
    if answers.len() == 0 {
        None
    } else {
        Some(answers.len() - 1)
    }
}

/// The health of all accounts together: sound where any account is.
pub fn joint_health(any_healthy: bool) -> (r: HealthReport)
    ensures
        r.state == (if any_healthy {
            HealthState::Healthy
        } else {
            HealthState::Unhealthy
        }),
        r.score == HealthScore(
            if any_healthy {
                1000
            } else {
                0
            },
        ),
        r.quota == (QuotaState { total: None, used: None, untrusted: true }),
        r.rate_limit.remaining == u32::MAX,
        r.rate_limit.reset_at.0@ == "rotator"@,
{
    HealthReport {
        state: if any_healthy {
            HealthState::Healthy
        } else {
            HealthState::Unhealthy
        },
        quota: QuotaState { total: None, used: None, untrusted: true },
        rate_limit: RateLimitState {
            remaining: u32::MAX,
            reset_at: Timestamp::from_string("rotator"),
        },
        score: HealthScore(
            if any_healthy {
                1000
            } else {
                0
            },
        ),
    }
}

/// Two rates together.
pub open spec fn bucket_sum(a: RateBucket, b: RateBucket) -> RateBucket {
    RateBucket {
        per_sec_milli: if a.per_sec_milli + b.per_sec_milli > u64::MAX {
            u64::MAX
        } else {
            (a.per_sec_milli + b.per_sec_milli) as u64
        },
        burst: sum32(a.burst, b.burst),
    }
}

/// `a + b`, or the largest number.
pub open spec fn sum32(a: u32, b: u32) -> u32 {
    if a + b > u32::MAX {
        u32::MAX
    } else {
        (a + b) as u32
    }
}

fn sum_bucket(a: RateBucket, b: RateBucket) -> (r: RateBucket)
    ensures
        r == bucket_sum(a, b),
{
    RateBucket {
        per_sec_milli: a.per_sec_milli.saturating_add(b.per_sec_milli),
        burst: a.burst.saturating_add(b.burst),
    }
}

/// The limits of two accounts together, but for the label: the smaller object, the sum of rates,
/// budgets and quotas, and the better way to overwrite.
pub open spec fn profiles_joined(a: RateLimitProfile, b: RateLimitProfile) -> RateLimitProfile {
    RateLimitProfile {
        label: a.label,
        puts: bucket_sum(a.puts, b.puts),
        gets: bucket_sum(a.gets, b.gets),
        peeks: bucket_sum(a.peeks, b.peeks),
        deletes: bucket_sum(a.deletes, b.deletes),
        max_concurrent: sum32(a.max_concurrent, b.max_concurrent),
        max_object_bytes: match (a.max_object_bytes, b.max_object_bytes) {
            (Some(x), Some(y)) => Some(if x < y {
                x
            } else {
                y
            }),
            (None, y) => y,
            (x, None) => x,
        },
        total_quota_bytes: match (a.total_quota_bytes, b.total_quota_bytes) {
            (Some(x), Some(y)) => Some(
                if x + y > u64::MAX {
                    u64::MAX
                } else {
                    (x + y) as u64
                },
            ),
            _ => None,
        },
        daily_op_budget: match (a.daily_op_budget, b.daily_op_budget) {
            (Some(x), Some(y)) => Some(sum32(x, y)),
            _ => None,
        },
        update_capability: if b.update_capability == UpdateCapability::TrueUpdate
            || a.update_capability == UpdateCapability::Unsupported {
            b.update_capability
        } else {
            a.update_capability
        },
    }
}

/// The limits of the first `n` accounts together, but for the label.
pub open spec fn profiles_upto(p: Seq<RateLimitProfile>, n: int) -> RateLimitProfile
    decreases n,
{
    if n <= 1 {
        p[0]
    } else {
        profiles_joined(profiles_upto(p, n - 1), p[n - 1])
    }
}

/// The limits of all accounts together. The label is that of the first, and says how many there
/// are.
pub fn merge_profiles(profiles: &Vec<RateLimitProfile>) -> (r: RateLimitProfile)
    requires
        profiles@.len() > 0,
    ensures
        r.label@ == profiles@[0].label@ + "-rotator("@ + dec_digits(profiles@.len()) + ")"@,
        r == (RateLimitProfile {
            label: r.label,
            ..profiles_upto(profiles@, profiles@.len() as int)
        }),
{
    let first = &profiles[0];
    let mut m = RateLimitProfile {
        label: first.label.clone(),
        puts: first.puts,
        gets: first.gets,
        peeks: first.peeks,
        deletes: first.deletes,
        max_concurrent: first.max_concurrent,
        max_object_bytes: first.max_object_bytes,
        total_quota_bytes: first.total_quota_bytes,
        daily_op_budget: first.daily_op_budget,
        update_capability: first.update_capability,
    };
    let mut i: usize = 1;
    while i < profiles.len()
        invariant
            1 <= i <= profiles@.len(),
            m == profiles_upto(profiles@, i as int),
        decreases profiles@.len() - i,
    {
        let p = &profiles[i];
        m.max_object_bytes = match (m.max_object_bytes, p.max_object_bytes) {
            (Some(x), Some(y)) => Some(
                if x < y {
                    x
                } else {
                    y
                },
            ),
            (None, y) => y,
            (x, None) => x,
        };
        m.puts = sum_bucket(m.puts, p.puts);
        m.gets = sum_bucket(m.gets, p.gets);
        m.peeks = sum_bucket(m.peeks, p.peeks);
        m.deletes = sum_bucket(m.deletes, p.deletes);
        m.max_concurrent = m.max_concurrent.saturating_add(p.max_concurrent);
        m.total_quota_bytes = match (m.total_quota_bytes, p.total_quota_bytes) {
            (Some(x), Some(y)) => Some(x.saturating_add(y)),
            _ => None,
        };
        m.daily_op_budget = match (m.daily_op_budget, p.daily_op_budget) {
            (Some(x), Some(y)) => Some(x.saturating_add(y)),
            _ => None,
        };
        if p.update_capability == UpdateCapability::TrueUpdate || m.update_capability
            == UpdateCapability::Unsupported {
            m.update_capability = p.update_capability;
        }
        i = i + 1;
    }
    let mut label: Vec<char> = Vec::new();
    push_text(&mut label, profiles[0].label.as_str());
    push_text(&mut label, "-rotator(");
    push_decimal(&mut label, profiles.len() as u64);
    push_text(&mut label, ")");
    assert(label@ =~= profiles@[0].label@ + "-rotator("@ + dec_digits(profiles@.len()) + ")"@);
    m.label = string_of(&label);
    m
}

/// The total of some limits.
pub open spec fn total_of(limits: Seq<u32>) -> nat
    decreases limits.len(),
{
    if limits.len() == 0 {
        0
    } else {
        total_of(limits.drop_last()) + limits[limits.len() - 1] as nat
    }
}

/// Together some accounts may do at once what each may do, added up, as far as the number goes.
pub proof fn lemma_accounts_add_up(p: Seq<RateLimitProfile>, n: int)
    requires
        1 <= n <= p.len(),
    ensures
        ({
            let total = total_of(p.take(n).map_values(|x: RateLimitProfile| x.max_concurrent));
            profiles_upto(p, n).max_concurrent == (if total > u32::MAX {
                u32::MAX as nat
            } else {
                total
            })
        }),
        ({
            let total = total_of(p.take(n).map_values(|x: RateLimitProfile| x.puts.burst));
            profiles_upto(p, n).puts.burst == (if total > u32::MAX {
                u32::MAX as nat
            } else {
                total
            })
        }),
    decreases n,
{
    let a = p.take(n).map_values(|x: RateLimitProfile| x.max_concurrent);
    let b = p.take(n).map_values(|x: RateLimitProfile| x.puts.burst);
    assert(a.drop_last() =~= p.take(n - 1).map_values(|x: RateLimitProfile| x.max_concurrent));
    assert(b.drop_last() =~= p.take(n - 1).map_values(|x: RateLimitProfile| x.puts.burst));
    if n == 1 {
        assert(total_of(a.drop_last()) == 0);
        assert(total_of(b.drop_last()) == 0);
    } else {
        lemma_accounts_add_up(p, n - 1);
    }
}

/// No account is held back by the others: the joined rates are at least its own. An object has to
/// fit into each account, and a limit on the object that all keep is one that some account has.
pub proof fn lemma_accounts_limits(p: Seq<RateLimitProfile>, n: int, i: int)
    requires
        0 <= i < n <= p.len(),
    ensures
        ({
            let all = profiles_upto(p, n);
            &&& all.puts.per_sec_milli >= p[i].puts.per_sec_milli
            &&& all.gets.per_sec_milli >= p[i].gets.per_sec_milli
            &&& all.peeks.per_sec_milli >= p[i].peeks.per_sec_milli
            &&& all.deletes.per_sec_milli >= p[i].deletes.per_sec_milli
            &&& all.puts.burst >= p[i].puts.burst
            &&& all.gets.burst >= p[i].gets.burst
            &&& all.peeks.burst >= p[i].peeks.burst
            &&& all.deletes.burst >= p[i].deletes.burst
            &&& p[i].max_object_bytes matches Some(x) ==> all.max_object_bytes is Some
                && all.max_object_bytes.unwrap() <= x
            &&& p[i].total_quota_bytes is None ==> all.total_quota_bytes is None
            &&& p[i].daily_op_budget is None ==> all.daily_op_budget is None
            &&& p[i].total_quota_bytes matches Some(x) ==> (all.total_quota_bytes matches Some(y)
                ==> x <= y)
            &&& p[i].update_capability == UpdateCapability::TrueUpdate ==> all.update_capability
                == UpdateCapability::TrueUpdate
            &&& p[i].update_capability != UpdateCapability::Unsupported ==> all.update_capability
                != UpdateCapability::Unsupported
            &&& all.label == p[0].label
        }),
    decreases n,
{
    if n > 1 {
        if i < n - 1 {
            lemma_accounts_limits(p, n - 1, i);
        } else {
            lemma_accounts_limits(p, n - 1, 0);
        }
    }
}

/// The joined limits come from the accounts: what bounds the size of an object bounds it for some
/// account, there is no total and no daily budget only where some account has none, and what the
/// accounts can update some account can.
pub proof fn lemma_limits_from_accounts(p: Seq<RateLimitProfile>, n: int)
    requires
        1 <= n <= p.len(),
    ensures
        ({
            let all = profiles_upto(p, n);
            &&& exists|i: int|
                0 <= i < n && (#[trigger] p[i]).max_object_bytes == all.max_object_bytes
            &&& all.total_quota_bytes is None ==> exists|i: int|
                0 <= i < n && (#[trigger] p[i]).total_quota_bytes is None
            &&& all.daily_op_budget is None ==> exists|i: int|
                0 <= i < n && (#[trigger] p[i]).daily_op_budget is None
            &&& exists|i: int|
                0 <= i < n && (#[trigger] p[i]).update_capability == all.update_capability
        }),
    decreases n,
{
    let all = profiles_upto(p, n);
    if n == 1 {
        assert(all == p[0]);
    } else {
        let head = profiles_upto(p, n - 1);
        lemma_limits_from_accounts(p, n - 1);
        let last = p[n - 1];
        if all.max_object_bytes == head.max_object_bytes {
            let i = choose|i: int|
                0 <= i < n - 1 && (#[trigger] p[i]).max_object_bytes == head.max_object_bytes;
            assert(p[i].max_object_bytes == all.max_object_bytes);
        } else {
            assert(p[n - 1].max_object_bytes == all.max_object_bytes);
        }
        if all.update_capability == head.update_capability {
            let i = choose|i: int|
                0 <= i < n - 1 && (#[trigger] p[i]).update_capability == head.update_capability;
            assert(p[i].update_capability == all.update_capability);
        } else {
            assert(p[n - 1].update_capability == all.update_capability);
        }
        if all.total_quota_bytes is None {
            if head.total_quota_bytes is None {
                let i = choose|i: int| 0 <= i < n - 1 && (#[trigger] p[i]).total_quota_bytes is None;
                assert(p[i].total_quota_bytes is None);
            } else {
                assert(p[n - 1].total_quota_bytes is None);
            }
        }
        if all.daily_op_budget is None {
            if head.daily_op_budget is None {
                let i = choose|i: int| 0 <= i < n - 1 && (#[trigger] p[i]).daily_op_budget is None;
                assert(p[i].daily_op_budget is None);
            } else {
                assert(p[n - 1].daily_op_budget is None);
            }
        }
    }
}

/// Two accounts give what both give: rates, bursts, totals and budgets are added, each as far as
/// its number goes.
pub proof fn lemma_two_accounts(a: RateLimitProfile, b: RateLimitProfile)
    ensures
        ({
            let j = profiles_joined(a, b);
            &&& a.puts.per_sec_milli + b.puts.per_sec_milli <= u64::MAX ==> j.puts.per_sec_milli
                == a.puts.per_sec_milli + b.puts.per_sec_milli
            &&& a.gets.per_sec_milli + b.gets.per_sec_milli <= u64::MAX ==> j.gets.per_sec_milli
                == a.gets.per_sec_milli + b.gets.per_sec_milli
            &&& a.peeks.per_sec_milli + b.peeks.per_sec_milli <= u64::MAX ==> j.peeks.per_sec_milli
                == a.peeks.per_sec_milli + b.peeks.per_sec_milli
            &&& a.deletes.per_sec_milli + b.deletes.per_sec_milli <= u64::MAX
                ==> j.deletes.per_sec_milli == a.deletes.per_sec_milli + b.deletes.per_sec_milli
            &&& a.gets.burst + b.gets.burst <= u32::MAX ==> j.gets.burst == a.gets.burst
                + b.gets.burst
            &&& a.peeks.burst + b.peeks.burst <= u32::MAX ==> j.peeks.burst == a.peeks.burst
                + b.peeks.burst
            &&& a.deletes.burst + b.deletes.burst <= u32::MAX ==> j.deletes.burst
                == a.deletes.burst + b.deletes.burst
            &&& a.total_quota_bytes matches Some(x) ==> (b.total_quota_bytes matches Some(y) ==> x
                + y <= u64::MAX ==> j.total_quota_bytes == Some((x + y) as u64))
            &&& a.daily_op_budget matches Some(x) ==> (b.daily_op_budget matches Some(y) ==> x + y
                <= u32::MAX ==> j.daily_op_budget == Some((x + y) as u32))
        }),
{
}

/// The account that is taken next has not been tried, none that has not been tried is used less,
/// and of those used as little it is the first.
pub proof fn lemma_least_used(usage: Seq<u32>, tried: Seq<bool>, i: int, j: int)
    requires
        is_least_used(usage, tried, i),
        0 <= j < usage.len(),
        !tried[j],
    ensures
        0 <= i < usage.len(),
        !tried[i],
        usage[i] <= usage[j],
        usage[i] == usage[j] ==> i <= j,
{
}

} // verus!
