use vstd::prelude::*;
use vstd::string::*;
use crate::queues::{decimal, to_decimal};

verus! {

/// An ASCII decimal digit.
pub open spec fn is_digit(c: char) -> bool {
    '0' <= c && c <= '9'
}

/// The value of a decimal digit.
pub open spec fn digit_value(c: char) -> nat {
    (c as nat - '0' as nat) as nat
}

/// Every character is a decimal digit.
pub open spec fn all_digits(s: Seq<char>) -> bool {
    forall|i: int| 0 <= i < s.len() ==> is_digit(#[trigger] s[i])
}

/// The number that a string of decimal digits denotes.
pub open spec fn digits_value(s: Seq<char>) -> nat
    decreases s.len(),
{
    if s.len() == 0 {
        0
    } else {
        digits_value(s.drop_last()) * 10 + digit_value(s.last())
    }
}

/// The digits of an interrupt number: a single leading `+` is allowed.
pub open spec fn unsigned_digits(s: Seq<char>) -> Seq<char> {
    if s.len() > 0 && s[0] == '+' {
        s.drop_first()
    } else {
        s
    }
}

/// What reading `s` as an unsigned 32-bit decimal number gives: an optional
/// `+`, then one or more digits whose value fits in 32 bits.
pub open spec fn parse_u32(s: Seq<char>) -> Option<u32> {
    let d = unsigned_digits(s);
    if d.len() > 0 && all_digits(d) && digits_value(d) <= u32::MAX {
        Some(digits_value(d) as u32)
    } else {
        None
    }
}

/// Reads an interrupt number.
pub fn parse_irq(s: &str) -> (r: Option<u32>)
    ensures
        r == parse_u32(s@),
{
    let big: u64 = 0x1_0000_0000;
    let mut acc: u64 = 0;
    let mut ok = true;
    let mut plus = false;
    let mut first = true;
    let mut any = false;
    for c in it: s.chars()
        invariant
            it.seq() == s@,
            it.index() <= s@.len(),
            big == 0x1_0000_0000u64,
            first == (it.index() == 0),
            plus == (it.index() > 0 && s@[0] == '+'),
            any == (it.index() > (if plus { 1int } else { 0int })),
            ok == all_digits(s@.subrange(if plus { 1int } else { 0int }, it.index() as int)),
            ok ==> acc as nat == (if digits_value(s@.subrange(if plus { 1int } else { 0int }, it.index() as int)) < big {
                digits_value(s@.subrange(if plus { 1int } else { 0int }, it.index() as int))
            } else {
                big as nat
            }),
    {
        let ghost pos = it.index();
        let ghost start: int = if plus { 1int } else { 0int };
        let ghost before = s@.subrange(start, pos as int);
        if first && c == '+' {
            plus = true;
            proof {
                assert(s@.subrange(1, 1) =~= Seq::<char>::empty());
            }
        } else {
            let ghost d = s@.subrange(start, pos + 1);
            proof {
                assert(d.drop_last() =~= before);
                assert(d.last() == c);
            }
            any = true;
            if ok && '0' <= c && c <= '9' {
                let v = (c as u32 - '0' as u32) as u64;
                let next = acc * 10 + v;
                proof {
                    let dv = digits_value(before);
                    assert(digits_value(d) == dv * 10 + digit_value(c));
                    if dv >= big {
                        assert(dv * 10 + digit_value(c) >= big) by (nonlinear_arith)
                            requires dv >= big;
                    }
                }
                acc = if next < big { next } else { big };
            } else {
                ok = false;
                proof {
                    assert(!is_digit(d[d.len() - 1]) || !all_digits(before));
                    if all_digits(d) {
                        assert forall|i: int| 0 <= i < before.len() implies is_digit(#[trigger] before[i]) by {
                            assert(before[i] == d[i]);
                        }
                    }
                }
            }
            proof {
                assert(ok == all_digits(d));
            }
        }
        first = false;
    }
    proof {
        let start: int = if plus { 1int } else { 0int };
        assert(s@.subrange(start, s@.len() as int) =~= unsigned_digits(s@));
    }
    if ok && any && acc < big {
        Some(acc as u32)
    } else {
        None
    }
}

/// A character allowed in an affinity list: a digit, `-` or `,`.
pub open spec fn is_affinity_char(c: char) -> bool {
    is_digit(c) || c == '-' || c == ','
}

/// The affinity list holds only digits, hyphens and commas, so nothing else
/// reaches the kernel's control file.
pub open spec fn is_affinity_list(s: Seq<char>) -> bool {
    forall|i: int| 0 <= i < s.len() ==> is_affinity_char(#[trigger] s[i])
}

/// Checks an affinity list before it is written.
pub fn affinity_list_is_valid(s: &str) -> (r: bool)
    ensures
        r == is_affinity_list(s@),
{
    let mut ok = true;
    for c in it: s.chars()
        invariant
            it.seq() == s@,
            ok == (forall|j: int| 0 <= j < it.index() ==> is_affinity_char(#[trigger] s@[j])),
    {
        let good = ('0' <= c && c <= '9') || c == '-' || c == ',';
        ok = ok && good;
    }
    ok
}

/// The kernel's affinity-list control file of interrupt `irq`.
pub open spec fn irq_affinity_path(irq: u32) -> Seq<char> {
    "/proc/irq/"@ + decimal(irq as nat) + "/smp_affinity_list"@
}

/// Names the affinity-list control file of interrupt `irq`.
pub fn affinity_path(irq: u32) -> (r: String)
    ensures
        r@ == irq_affinity_path(irq),
{
    let mut r = String::from_str("/proc/irq/");
    let n = to_decimal(irq as usize);
    r.append(n.as_str());
    r.append("/smp_affinity_list");
    r
}

/// One checked affinity setting: the list to write and the control file to
/// write it to.
#[derive(Debug)]
pub struct AffinityWrite {
    pub irq: u32,
    pub path: String,
    pub affinity: String,
}

/// Why an affinity setting was refused.
#[derive(Clone, Copy, Debug, PartialEq, Eq)]
pub enum AffinityError {
    /// The interrupt number is not an unsigned 32-bit decimal number.
    InvalidIrq,
    /// The affinity list holds a character other than a digit, `-` or `,`.
    InvalidAffinityList,
}

/// What checking the pair (`irq`, `affinity`) gives: the interrupt number is
/// read first, then the list is checked.
pub open spec fn affinity_setting(irq: Seq<char>, affinity: Seq<char>) -> Result<(u32, Seq<char>), AffinityError> {
    match parse_u32(irq) {
        None => Err(AffinityError::InvalidIrq),
        Some(n) => if is_affinity_list(affinity) {
            Ok((n, affinity))
        } else {
            Err(AffinityError::InvalidAffinityList)
        },
    }
}

/// `w` is the write that the setting `(n, a)` calls for.
pub open spec fn write_matches(w: AffinityWrite, setting: (u32, Seq<char>)) -> bool {
    &&& w.irq == setting.0
    &&& w.affinity@ == setting.1
    &&& w.path@ == irq_affinity_path(setting.0)
}

/// Checks one interrupt's setting and, when it is sound, says what to write
/// where. Nothing is written: a refused setting never reaches a file.
pub fn prepare_affinity(irq: &str, affinity: &str) -> (r: Result<AffinityWrite, AffinityError>)
    ensures
        match affinity_setting(irq@, affinity@) {
            Ok(setting) => r matches Ok(w) && write_matches(w, setting),
            Err(e) => r == Err::<AffinityWrite, AffinityError>(e),
        },
{
    let n = match parse_irq(irq) {
        None => return Err(AffinityError::InvalidIrq),
        Some(n) => n,
    };
    if !affinity_list_is_valid(affinity) {
        return Err(AffinityError::InvalidAffinityList);
    }
    Ok(AffinityWrite { irq: n, path: affinity_path(n), affinity: String::from_str(affinity) })
}

/// An affinity list holding any character other than a digit, `-` or `,` is
/// refused whatever the interrupt number, so no write is ever prepared from it.
pub proof fn lemma_bad_affinity_refused(irq: Seq<char>, affinity: Seq<char>, i: int)
    requires
        0 <= i < affinity.len(),
        !is_affinity_char(affinity[i]),
    ensures
        affinity_setting(irq, affinity) is Err,
{
}

/// How many times a write to an interrupt's control file is attempted.
pub const AFFINITY_WRITE_ATTEMPTS: u32 = 5;

/// Pause between two attempts, in milliseconds.
pub const RETRY_PAUSE_MS: u64 = 100;

/// What to do after an attempt.
#[derive(Clone, Copy, Debug, PartialEq, Eq)]
pub enum RetryStep {
    /// The attempt succeeded: stop.
    Done,
    /// The attempt failed and attempts are left: pause, then try again.
    PauseAndRetry,
    /// The attempt failed and it was the last one.
    GiveUp,
}

/// Bounded retry with a fixed pause between attempts, stopping at the first
/// success.
#[derive(Clone, Copy, Debug, PartialEq, Eq)]
pub struct RetryPolicy {
    pub max_attempts: u32,
    pub pause_ms: u64,
}

/// The step after attempt number `attempt` (counted from 1) of at most `max`.
pub open spec fn retry_step(max: nat, attempt: nat, succeeded: bool) -> RetryStep {
    if succeeded {
        RetryStep::Done
    } else if attempt < max {
        RetryStep::PauseAndRetry
    } else {
        RetryStep::GiveUp
    }
}

/// Runs the policy on the attempt results `results` (`results[i]` is the
/// result of attempt `i + 1`), from attempt `made + 1` on: the last step taken
/// and the number of attempts made by then.
pub open spec fn retry_run(max: nat, results: Seq<bool>, made: nat) -> (RetryStep, nat)
    decreases max - made,
{
    if made >= max {
        (RetryStep::GiveUp, made)
    } else {
        let step = retry_step(max, made + 1, results[made as int]);
        if step == RetryStep::PauseAndRetry {
            retry_run(max, results, made + 1)
        } else {
            (step, made + 1)
        }
    }
}

impl RetryPolicy {
    /// Five attempts, 100 ms apart: the policy for interrupt control files.
    pub fn affinity_writes() -> (r: RetryPolicy)
        ensures
            r.max_attempts == AFFINITY_WRITE_ATTEMPTS,
            r.pause_ms == RETRY_PAUSE_MS,
    {
        RetryPolicy { max_attempts: AFFINITY_WRITE_ATTEMPTS, pause_ms: RETRY_PAUSE_MS }
    }

    /// Decides what follows attempt number `attempt`, counted from 1, that
    /// succeeded or not. A success ends the run at once; a failure is followed
    /// by a pause and another attempt until `max_attempts` have been made.
    pub fn after_attempt(&self, attempt: u32, succeeded: bool) -> (r: RetryStep)
        requires
            1 <= attempt <= self.max_attempts,
        ensures
            r == retry_step(self.max_attempts as nat, attempt as nat, succeeded),
    {
        if succeeded {
            RetryStep::Done
        } else if attempt < self.max_attempts {
            RetryStep::PauseAndRetry
        } else {
            RetryStep::GiveUp
        }
    }
}

proof fn lemma_retry_run_from(max: nat, results: Seq<bool>, made: nat)
    requires
        made < max,
        results.len() >= max,
        forall|j: int| 0 <= j < made ==> !results[j],
    ensures
        ({
            let (step, n) = retry_run(max, results, made);
            &&& made < n <= max
            &&& step == RetryStep::Done || step == RetryStep::GiveUp
            &&& step == RetryStep::Done <==> exists|i: int| 0 <= i < max && results[i]
            &&& step == RetryStep::Done ==> results[n - 1] && forall|j: int| 0 <= j < n - 1 ==> !results[j]
            &&& step == RetryStep::GiveUp ==> n == max
        }),
    decreases max - made,
{
    if results[made as int] {
    } else if made + 1 < max {
        lemma_retry_run_from(max, results, made + 1);
    } else {
        assert forall|i: int| 0 <= i < max implies !results[i] by {
            if i < made {
            } else {
                assert(i == made);
            }
        }
    }
}

/// Under a policy of `max` attempts, for any results of the attempts: the run
/// ends with a success exactly when one of the first `max` attempts succeeds,
/// and then after the first successful one; otherwise it gives up after
/// exactly `max` attempts, never fewer and never more.
pub proof fn lemma_retry_bound(max: nat, results: Seq<bool>)
    requires
        max >= 1,
        results.len() >= max,
    ensures
        ({
            let (step, n) = retry_run(max, results, 0);
            &&& 1 <= n <= max
            &&& step == RetryStep::Done <==> exists|i: int| 0 <= i < max && results[i]
            &&& step == RetryStep::Done ==> results[n - 1] && forall|j: int| 0 <= j < n - 1 ==> !results[j]
            &&& step != RetryStep::Done ==> step == RetryStep::GiveUp && n == max && forall|j: int| 0 <= j < max ==> !results[j]
        }),
{
    lemma_retry_run_from(max, results, 0);
}

} // verus!
