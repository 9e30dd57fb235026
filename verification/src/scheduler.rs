//! Fan-out scheduling: how many branches of a fan-out may run at once.
use vstd::prelude::*;

use crate::text::str_eq;

verus! {

/// Concurrency when nothing is configured: fan-outs run serially.
pub const DEFAULT_MAX_FANOUT_CONCURRENCY: usize = 1;

/// The ceiling on any configured concurrency.
pub const HARD_MAX_FANOUT_CONCURRENCY: usize = 64;

/// The environment variable that configures fan-out concurrency.
pub const RUNX_MAX_FANOUT_CONCURRENCY_ENV: &'static str = "RUNX_MAX_FANOUT_CONCURRENCY";

/// The value of a string of decimal digits.
pub open spec fn digits_value(s: Seq<char>) -> int
    decreases s.len(),
{
    if s.len() == 0 {
        0
    } else {
        digits_value(s.drop_last()) * 10 + (s.last() as int - '0' as int)
    }
}

pub open spec fn all_digits(s: Seq<char>) -> bool {
    s.len() > 0 && forall|i: int| 0 <= i < s.len() ==> '0' <= #[trigger] s[i] <= '9'
}

/// `str::parse::<usize>`: an optional `+`, then decimal digits only, with
/// a value that fits.
pub open spec fn parse_usize_spec(s: Seq<char>) -> Option<int> {
    let body = if s.len() > 0 && s[0] == '+' {
        s.drop_first()
    } else {
        s
    };
    if all_digits(body) && digits_value(body) <= usize::MAX {
        Some(digits_value(body))
    } else {
        None
    }
}

proof fn lemma_digits_value_nonneg(s: Seq<char>)
    requires
        forall|i: int| 0 <= i < s.len() ==> '0' <= #[trigger] s[i] <= '9',
    ensures
        digits_value(s) >= 0,
    decreases s.len(),
{
    if s.len() > 0 {
        lemma_digits_value_nonneg(s.drop_last());
    }
}

/// More digits never give a smaller value.
proof fn lemma_digits_value_grows(s: Seq<char>, k: int)
    requires
        0 <= k <= s.len(),
        forall|i: int| 0 <= i < s.len() ==> '0' <= #[trigger] s[i] <= '9',
    ensures
        digits_value(s) >= digits_value(s.subrange(0, k)),
    decreases s.len(),
{
    if k < s.len() {
        let d = s.drop_last();
        assert(d.subrange(0, k) =~= s.subrange(0, k));
        lemma_digits_value_grows(d, k);
        lemma_digits_value_nonneg(d);
    } else {
        assert(s.subrange(0, k) =~= s);
    }
}

/// `str::parse::<usize>`: an optional `+`, then decimal digits whose value
/// fits.
fn parse_usize(s: &str) -> (r: Option<usize>)
    ensures
        match parse_usize_spec(s@) {
            Some(v) => r matches Some(n) && n == v,
            None => r is None,
        },
{
    let chars = crate::text::chars_of(s);
    let start: usize = if chars.len() > 0 && chars[0] == '+' {
        1
    } else {
        0
    };
    let ghost body = if s@.len() > 0 && s@[0] == '+' {
        s@.drop_first()
    } else {
        s@
    };
    assert(body =~= s@.subrange(start as int, s@.len() as int));
    if start >= chars.len() {
        return None;
    }
    let mut value: usize = 0;
    let mut i: usize = start;
    assert(body.subrange(0, 0) =~= Seq::<char>::empty());
    while i < chars.len()
        invariant
            start <= i <= chars@.len(),
            chars@ == s@,
            body == s@.subrange(start as int, s@.len() as int),
            body == if s@.len() > 0 && s@[0] == '+' {
                s@.drop_first()
            } else {
                s@
            },
            forall|j: int| 0 <= j < i - start ==> '0' <= #[trigger] body[j] <= '9',
            value == digits_value(body.subrange(0, i - start)),
        decreases chars.len() - i,
    {
        let c = chars[i];
        if c < '0' || c > '9' {
            assert(!all_digits(body)) by {
                assert(body[i - start] == c);
            }
            return None;
        }
        let d: usize = ((c as u32) - ('0' as u32)) as usize;
        let ghost prefix = body.subrange(0, i + 1 - start);
        assert(prefix.drop_last() =~= body.subrange(0, i - start));
        assert(digits_value(prefix) == value * 10 + d);
        if value > (usize::MAX - d) / 10 {
            proof {
                assert(value * 10 + d > usize::MAX) by (nonlinear_arith)
                    requires
                        value > (usize::MAX - d) / 10,
                        d <= 9,
                ;
                if all_digits(body) {
                    lemma_digits_value_grows(body, i + 1 - start);
                }
            }
            return None;
        }
        assert(value * 10 + d <= usize::MAX) by (nonlinear_arith)
            requires
                value <= (usize::MAX - d) / 10,
                d <= 9,
        ;
        value = value * 10 + d;
        i = i + 1;
    }
    assert(body.subrange(0, i - start) =~= body);
    Some(value)
}

/// The value of the first entry of `env` named `key`.
pub open spec fn env_lookup(env: Seq<(String, String)>, key: Seq<char>) -> Option<Seq<char>>
    decreases env.len(),
{
    if env.len() == 0 {
        None
    } else if env[0].0@ == key {
        Some(env[0].1@)
    } else {
        env_lookup(env.drop_first(), key)
    }
}

fn env_get<'a>(env: &'a Vec<(String, String)>, key: &str) -> (r: Option<&'a String>)
    ensures
        match env_lookup(env@, key@) {
            Some(v) => r matches Some(s) && s@ == v,
            None => r is None,
        },
{
    let mut i: usize = 0;
    assert(env@.subrange(0, env@.len() as int) =~= env@);
    while i < env.len()
        invariant
            i <= env@.len(),
            env_lookup(env@, key@) == env_lookup(env@.subrange(i as int, env@.len() as int), key@),
        decreases env.len() - i,
    {
        assert(env@.subrange(i as int, env@.len() as int).drop_first() =~= env@.subrange(
            i + 1,
            env@.len() as int,
        ));
        if str_eq(env[i].0.as_str(), key) {
            return Some(&env[i].1);
        }
        i = i + 1;
    }
    None
}

/// The configured concurrency: a positive number from the environment, or
/// the default, never above the hard ceiling.
pub open spec fn configured_spec(value: Option<Seq<char>>) -> int {
    let chosen = match value {
        Some(v) => match parse_usize_spec(v) {
            Some(n) => if n > 0 {
                n
            } else {
                DEFAULT_MAX_FANOUT_CONCURRENCY as int
            },
            None => DEFAULT_MAX_FANOUT_CONCURRENCY as int,
        },
        None => DEFAULT_MAX_FANOUT_CONCURRENCY as int,
    };
    if chosen < HARD_MAX_FANOUT_CONCURRENCY {
        chosen
    } else {
        HARD_MAX_FANOUT_CONCURRENCY as int
    }
}

/// The fan-out concurrency `env` configures.
pub fn configured_max_concurrency(env: &Vec<(String, String)>) -> (r: usize)
    ensures
        r == configured_spec(env_lookup(env@, RUNX_MAX_FANOUT_CONCURRENCY_ENV@)),
        1 <= r <= HARD_MAX_FANOUT_CONCURRENCY,
{
    let chosen = match env_get(env, RUNX_MAX_FANOUT_CONCURRENCY_ENV) {
        Some(value) => match parse_usize(value.as_str()) {
            Some(n) => if n > 0 {
                n
            } else {
                DEFAULT_MAX_FANOUT_CONCURRENCY
            },
            None => DEFAULT_MAX_FANOUT_CONCURRENCY,
        },
        None => DEFAULT_MAX_FANOUT_CONCURRENCY,
    };
    if chosen < HARD_MAX_FANOUT_CONCURRENCY {
        chosen
    } else {
        HARD_MAX_FANOUT_CONCURRENCY
    }
}

/// One branch of a fan-out: its step, attempt, and the adapter's limit on
/// parallel runs (`None`: it cannot run in parallel).
#[derive(Clone, Copy, Debug, PartialEq, Eq)]
pub struct ScheduledFanoutStep<'a> {
    pub step_id: &'a str,
    pub attempt: u32,
    pub parallel_limit: Option<usize>,
}

/// A parallel schedule and its concurrency.
#[derive(Debug, PartialEq, Eq)]
pub struct ParallelFanoutSchedule<'a> {
    pub steps: Vec<ScheduledFanoutStep<'a>>,
    pub max_concurrency: usize,
}

/// How a fan-out runs.
#[derive(Debug, PartialEq, Eq)]
pub enum FanoutSchedule<'a> {
    Serial(Vec<ScheduledFanoutStep<'a>>),
    Parallel(ParallelFanoutSchedule<'a>),
}

/// Chooses between serial and parallel fan-out.
#[derive(Debug)]
pub struct FanoutScheduler {
    pub max_concurrency: usize,
}

/// The narrowest limit of the steps, if every step has one.
pub open spec fn narrowest_limit(steps: Seq<ScheduledFanoutStep>) -> Option<int>
    decreases steps.len(),
{
    if steps.len() == 0 {
        Some(usize::MAX as int)
    } else {
        match (narrowest_limit(steps.drop_last()), steps.last().parallel_limit) {
            (Some(m), Some(l)) => Some(if l < m {
                l as int
            } else {
                m
            }),
            _ => None,
        }
    }
}

/// The schedule for `steps` under a concurrency ceiling.
pub open spec fn schedule_spec<'a>(max_concurrency: usize, steps: Seq<ScheduledFanoutStep<'a>>) -> (
    bool,
    int,
) {
    if max_concurrency <= 1 || steps.len() <= 1 {
        (false, 0)
    } else {
        match narrowest_limit(steps) {
            None => (false, 0),
            Some(limit) => (true, if limit < max_concurrency {
                limit
            } else {
                max_concurrency as int
            }),
        }
    }
}

/// A step of a fan-out.
pub fn scheduled_step<'a>(step_id: &'a str, attempt: u32, parallel_limit: Option<usize>) -> (r:
    ScheduledFanoutStep<'a>)
    ensures
        r == (ScheduledFanoutStep { step_id, attempt, parallel_limit }),
{
    ScheduledFanoutStep { step_id, attempt, parallel_limit }
}

impl FanoutScheduler {
    /// A scheduler with the concurrency `env` configures.
    pub fn from_env(env: &Vec<(String, String)>) -> (r: Self)
        ensures
            r.max_concurrency == configured_spec(env_lookup(env@, RUNX_MAX_FANOUT_CONCURRENCY_ENV@)),
    {
        FanoutScheduler { max_concurrency: configured_max_concurrency(env) }
    }

    /// Runs the fan-out serially unless concurrency is allowed, there are
    /// several steps and every step can run in parallel; a parallel schedule
    /// runs at most as many at once as the narrowest step limit allows.
    pub fn schedule<'a>(&self, steps: Vec<ScheduledFanoutStep<'a>>) -> (r: FanoutSchedule<'a>)
        ensures
            schedule_spec(self.max_concurrency, steps@).0 ==> (r matches FanoutSchedule::Parallel(p)
                && p.steps@ == steps@ && p.max_concurrency == schedule_spec(
                self.max_concurrency,
                steps@,
            ).1),
            !schedule_spec(self.max_concurrency, steps@).0 ==> r == FanoutSchedule::Serial(steps),
    {
        if self.max_concurrency <= 1 || steps.len() <= 1 {
            return FanoutSchedule::Serial(steps);
        }
        let mut limit: usize = usize::MAX;
        let mut i: usize = 0;
        while i < steps.len()
            invariant
                i <= steps@.len(),
                narrowest_limit(steps@.subrange(0, i as int)) == Some(limit as int),
            decreases steps.len() - i,
        {
            assert(steps@.subrange(0, i + 1).drop_last() =~= steps@.subrange(0, i as int));
            match steps[i].parallel_limit {
                Some(step_limit) => {
                    if step_limit < limit {
                        limit = step_limit;
                    }
                },
                None => {
                    proof {
                        lemma_narrowest_none(steps@, i as int);
                    }
                    return FanoutSchedule::Serial(steps);
                },
            }
            i = i + 1;
        }
        assert(steps@.subrange(0, steps@.len() as int) =~= steps@);
        let max_concurrency = if limit < self.max_concurrency {
            limit
        } else {
            self.max_concurrency
        };
        FanoutSchedule::Parallel(ParallelFanoutSchedule { steps, max_concurrency })
    }
}

proof fn lemma_narrowest_bounds(steps: Seq<ScheduledFanoutStep>)
    ensures
        narrowest_limit(steps) matches Some(m) ==> (forall|k: int|
            0 <= k < steps.len() ==> (#[trigger] steps[k]).parallel_limit is Some && m
                <= steps[k].parallel_limit->0) && (m == usize::MAX || exists|k: int|
            0 <= k < steps.len() && (#[trigger] steps[k]).parallel_limit == Some(m as usize)),
        (forall|k: int| 0 <= k < steps.len() ==> (#[trigger] steps[k]).parallel_limit is Some)
            ==> narrowest_limit(steps) is Some,
    decreases steps.len(),
{
    if steps.len() > 0 {
        let d = steps.drop_last();
        let n = steps.len() - 1;
        lemma_narrowest_bounds(d);
        assert(steps[n] == steps.last());
        assert forall|k: int| 0 <= k < n implies #[trigger] steps[k] == d[k] by {}
        if let Some(m) = narrowest_limit(steps) {
            let m0 = narrowest_limit(d)->Some_0;
            if m != m0 {
                assert(steps[n].parallel_limit == Some(m as usize));
            } else if m0 != usize::MAX {
                let k = choose|k: int| 0 <= k < d.len() && (#[trigger] d[k]).parallel_limit == Some(m0 as usize);
                assert(steps[k] == d[k]);
            }
        }
    }
}

/// A fan-out runs in parallel exactly when concurrency above one is
/// allowed, there are several steps and every step has a parallel limit;
/// then it runs at most as many at once as the ceiling and every step's
/// limit allow, and that number is the ceiling or one step's limit.
pub proof fn lemma_schedule_law(max_concurrency: usize, steps: Seq<ScheduledFanoutStep>)
    ensures
        schedule_spec(max_concurrency, steps).0 <==> (max_concurrency > 1 && steps.len() > 1
            && forall|k: int| 0 <= k < steps.len() ==> (#[trigger] steps[k]).parallel_limit is Some),
        schedule_spec(max_concurrency, steps).0 ==> {
            let c = schedule_spec(max_concurrency, steps).1;
            &&& c <= max_concurrency
            &&& forall|k: int| 0 <= k < steps.len() ==> c <= (#[trigger] steps[k]).parallel_limit->0
            &&& (c == max_concurrency || exists|k: int|
                0 <= k < steps.len() && (#[trigger] steps[k]).parallel_limit == Some(c as usize))
        },
{
    lemma_narrowest_bounds(steps);
    if max_concurrency > 1 && steps.len() > 1 {
        if exists|k: int| 0 <= k < steps.len() && (#[trigger] steps[k]).parallel_limit is None {
            let k = choose|k: int| 0 <= k < steps.len() && (#[trigger] steps[k]).parallel_limit is None;
            lemma_narrowest_none(steps, k);
        }
    }
}

/// A step without a limit keeps the whole fan-out serial.
proof fn lemma_narrowest_none(steps: Seq<ScheduledFanoutStep>, i: int)
    requires
        0 <= i < steps.len(),
        steps[i].parallel_limit is None,
    ensures
        narrowest_limit(steps) is None,
    decreases steps.len(),
{
    if i < steps.len() - 1 {
        lemma_narrowest_none(steps.drop_last(), i);
    }
}

} // verus!
