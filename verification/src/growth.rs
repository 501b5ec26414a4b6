use crate::errors::ErrorCode;
use vstd::prelude::*;

verus! {

/// Largest permitted backing-storage size for one account, mirroring the
/// host's cap on account data (10 MiB).
pub const MAX_ACCOUNT_DATA: u64 = 10485760;

/// Storage overhead the rent schedule charges per account, in bytes.
pub const RENT_OVERHEAD: u64 = 128;

/// Price in lamports of one rent-counted byte under the default schedule.
pub const RENT_LAMPORTS_PER_BYTE: u64 = 6960;

/// The minimum funding balance that keeps an account with `size` bytes of
/// data alive under the default rent schedule.
pub open spec fn rent_exempt_minimum(size: int) -> int {
    (RENT_OVERHEAD + size) * RENT_LAMPORTS_PER_BYTE
}

/// Relies on `solana_program::rent::Rent::minimum_balance`: under the
/// default schedule (`Rent::default()`) the rent-exempt minimum for a
/// permitted data size is `(128 + size) * 6960` lamports; the call panics
/// above the host's 10 MiB cap, which the precondition rules out.
#[verifier::external_body]
pub(crate) fn rent_minimum_balance(size: u64) -> (r: u64)
    requires
        size <= MAX_ACCOUNT_DATA,
    ensures
        r == rent_exempt_minimum(size as int),
{
    solana_program::rent::Rent::default().minimum_balance(size as usize)
}

/// How capacity grows when occupancy crosses the threshold.
#[derive(Clone, Copy, PartialEq, Eq, Structural, Debug)]
pub enum GrowthRule {
    /// Add a fixed number of bytes each step.
    Fixed(u64),
    /// Add the given percentage of the current capacity each step, and at
    /// least one byte.
    Proportional(u64),
}

/// The storage-growth policy: grow whenever occupancy exceeds
/// `threshold_percent`, by the given rule, until it falls strictly below
/// the threshold again.
#[derive(Clone, Copy, PartialEq, Eq, Structural, Debug)]
pub struct GrowthConfig {
    /// Occupancy percentage above which the account must grow.
    pub threshold_percent: u64,
    /// How much one growth step adds.
    pub rule: GrowthRule,
}

/// A usable policy: a threshold strictly between zero and full, and steps
/// that always add at least one byte.
pub open spec fn config_wf(cfg: GrowthConfig) -> bool {
    &&& 0 < cfg.threshold_percent < 100
    &&& match cfg.rule {
        GrowthRule::Fixed(n) => n >= 1,
        GrowthRule::Proportional(p) => p >= 1,
    }
}

/// Occupancy of `data` bytes in `cap` bytes of storage exceeds the
/// configured threshold.
pub open spec fn needs_growth(cfg: GrowthConfig, data: int, cap: int) -> bool {
    data * 100 > cfg.threshold_percent * cap
}

/// The capacity after one growth step, always strictly above `cap`.
pub open spec fn grow_step(cfg: GrowthConfig, cap: u64) -> int {
    match cfg.rule {
        GrowthRule::Fixed(n) => cap + n,
        GrowthRule::Proportional(p) => if cap * p / 100 >= 1 {
            cap + cap * p / 100
        } else {
            cap + 1
        },
    }
}

/// The capacity reached by growing step by step until occupancy of `data`
/// falls strictly below the threshold, or `None` if the host cap would be
/// crossed first.
pub open spec fn grown_capacity(cfg: GrowthConfig, data: u64, cap: u64) -> Option<int>
    decreases MAX_ACCOUNT_DATA + 1 - cap,
        when cap <= MAX_ACCOUNT_DATA && config_wf(cfg)
{
    if data * 100 < cfg.threshold_percent * cap {
        Some(cap as int)
    } else if grow_step(cfg, cap) > MAX_ACCOUNT_DATA {
        None
    } else {
        grown_capacity(cfg, data, grow_step(cfg, cap) as u64)
    }
}

/// The capacity the policy settles on: unchanged when the threshold is not
/// exceeded, otherwise grown until occupancy is strictly below it.
pub open spec fn target_capacity(cfg: GrowthConfig, data: u64, cap: u64) -> Option<int> {
    if needs_growth(cfg, data as int, cap as int) {
        grown_capacity(cfg, data, cap)
    } else {
        Some(cap as int)
    }
}

/// Computes the capacity the policy calls for when `data` bytes must live
/// in storage currently `cap` bytes large. The capacity never shrinks, and
/// whenever a growth step ran, the resulting occupancy lies strictly below
/// the threshold. Fails with `ResizeFailure` exactly when no permitted
/// capacity satisfies the policy.
pub fn ensure_capacity(cfg: &GrowthConfig, data: u64, cap: u64) -> (r: Result<u64, ErrorCode>)
    requires
        config_wf(*cfg),
        cap <= MAX_ACCOUNT_DATA,
        data <= MAX_ACCOUNT_DATA,
    ensures
        match r {
            Ok(c) => {
                &&& Some(c as int) == target_capacity(*cfg, data, cap)
                &&& c >= cap
                &&& c <= MAX_ACCOUNT_DATA
                &&& (needs_growth(*cfg, data as int, cap as int) ==> data * 100
                    < cfg.threshold_percent * c)
            },
            Err(e) => e == ErrorCode::ResizeFailure && target_capacity(*cfg, data, cap) is None,
        },
{
    let lhs: u64 = data * 100;
    proof {
        lemma_mul_le_left(cfg.threshold_percent as int, 99, cap as int);
    }
    if !(lhs > cfg.threshold_percent * cap) {
        return Ok(cap);
    }
    let mut c = cap;
    loop
        invariant
            config_wf(*cfg),
            data <= MAX_ACCOUNT_DATA,
            cap <= c <= MAX_ACCOUNT_DATA,
            lhs == data * 100,
            needs_growth(*cfg, data as int, cap as int),
            grown_capacity(*cfg, data, c) == grown_capacity(*cfg, data, cap),
        ensures
            config_wf(*cfg),
            cap <= c <= MAX_ACCOUNT_DATA,
            data * 100 < cfg.threshold_percent * c,
            grown_capacity(*cfg, data, c) == grown_capacity(*cfg, data, cap),
        decreases MAX_ACCOUNT_DATA - c,
    {
        proof {
            lemma_mul_le_left(cfg.threshold_percent as int, 99, c as int);
        }
        let rhs: u64 = cfg.threshold_percent * c;
        if lhs < rhs {
            assert(grown_capacity(*cfg, data, c) == Some(c as int));
            break ;
        }
        let step: u128 = match cfg.rule {
            GrowthRule::Fixed(n) => n as u128,
            GrowthRule::Proportional(p) => {
                proof {
                    lemma_mul_le_left(c as int, MAX_ACCOUNT_DATA as int, p as int);
                }
                let inc = c as u128 * p as u128 / 100;
                if inc >= 1 {
                    inc
                } else {
                    1
                }
            },
        };
        let next: u128 = c as u128 + step;
        assert(next == grow_step(*cfg, c));
        if next > MAX_ACCOUNT_DATA as u128 {
            assert(grown_capacity(*cfg, data, c) is None);
            return Err(ErrorCode::ResizeFailure);
        }
        assert(next > c);
        c = next as u64;
    }
    Ok(c)
}

/// The capacity left after replaying a whole history of required sizes
/// through the policy, one append after another.
pub open spec fn capacity_after(cfg: GrowthConfig, sizes: Seq<u64>, cap: u64) -> Option<int>
    decreases sizes.len(),
{
    if sizes.len() == 0 {
        Some(cap as int)
    } else {
        match target_capacity(cfg, sizes[0], cap) {
            Some(c) => capacity_after(cfg, sizes.drop_first(), c as u64),
            None => None,
        }
    }
}

/// Growth monotonicity over whole histories: for every sequence of
/// appends the policy serves, the allocated capacity never decreases —
/// the capacity after replaying any history is at least the capacity it
/// started from, and stays within the host's cap.
pub proof fn lemma_capacity_monotone_over_sequence(cfg: GrowthConfig, sizes: Seq<u64>, cap: u64)
    requires
        config_wf(cfg),
        cap <= MAX_ACCOUNT_DATA,
    ensures
        match capacity_after(cfg, sizes, cap) {
            Some(c) => cap <= c <= MAX_ACCOUNT_DATA,
            None => true,
        },
    decreases sizes.len(),
{
    if sizes.len() > 0 {
        lemma_growth_monotone(cfg, sizes[0], cap);
        match target_capacity(cfg, sizes[0], cap) {
            Some(c) => {
                lemma_capacity_monotone_over_sequence(cfg, sizes.drop_first(), c as u64);
            },
            None => {},
        }
    }
}

/// Data whose occupancy is at or below a threshold of less than one
/// hundred percent fits within the capacity.
pub proof fn lemma_mul_occupancy(cfg: GrowthConfig, data: int, cap: int)
    requires
        config_wf(cfg),
        0 <= cap,
        data * 100 <= cfg.threshold_percent * cap,
    ensures
        data <= cap,
{
    lemma_mul_le_left(cfg.threshold_percent as int, 99, cap);
}

/// Multiplying by a larger left factor never lowers a product of
/// non-negative integers.
proof fn lemma_mul_le_left(a: int, b: int, c: int)
    by (nonlinear_arith)
    requires
        0 <= a <= b,
        0 <= c,
    ensures
        a * c <= b * c,
{
}

/// Growth monotonicity: whatever capacity the policy settles on is never
/// below the capacity it started from, and whenever the threshold was
/// exceeded the new occupancy lies strictly below the threshold.
pub proof fn lemma_growth_monotone(cfg: GrowthConfig, data: u64, cap: u64)
    requires
        config_wf(cfg),
        cap <= MAX_ACCOUNT_DATA,
    ensures
        match target_capacity(cfg, data, cap) {
            Some(c) => c >= cap && c <= MAX_ACCOUNT_DATA && (needs_growth(
                cfg,
                data as int,
                cap as int,
            ) ==> data * 100 < cfg.threshold_percent * c),
            None => true,
        },
    decreases MAX_ACCOUNT_DATA + 1 - cap,
{
    if needs_growth(cfg, data as int, cap as int) {
        lemma_grown_monotone(cfg, data, cap);
    }
}

/// Step-by-step growth never lowers the capacity, and settles strictly
/// below the threshold.
pub proof fn lemma_grown_monotone(cfg: GrowthConfig, data: u64, cap: u64)
    requires
        config_wf(cfg),
        cap <= MAX_ACCOUNT_DATA,
    ensures
        match grown_capacity(cfg, data, cap) {
            Some(c) => cap <= c <= MAX_ACCOUNT_DATA && data * 100 < cfg.threshold_percent * c,
            None => true,
        },
    decreases MAX_ACCOUNT_DATA + 1 - cap,
{
    if data * 100 < cfg.threshold_percent * cap {
    } else if grow_step(cfg, cap) > MAX_ACCOUNT_DATA {
    } else {
        lemma_grown_monotone(cfg, data, (grow_step(cfg, cap)) as u64);
    }
}

} // verus!
