//! Start-up decisions of the runtime that are pure computation.

use vstd::prelude::*;

verus! {

/// Whether thread creation has to be held back because the process runs
/// under a memory debugger on a system whose thread segments are reclaimed
/// slowly. No system that has the futex is such a system.
pub fn limit_thread_creation_due_to_osx_and_valgrind() -> (limited: bool)
    ensures
        !limited,
{
    false
}

/// The number that a string of decimal digits stands for.
pub open spec fn decimal(digits: Seq<u8>) -> nat
    decreases digits.len(),
{
    if digits.len() == 0 {
        0
    } else {
        decimal(digits.drop_last()) * 10 + (digits.last() - 48) as nat
    }
}

/// Whether every byte is a decimal digit, and there is at least one.
pub open spec fn is_decimal(digits: Seq<u8>) -> bool {
    digits.len() > 0 && forall|i: int| 0 <= i < digits.len() ==> 48 <= #[trigger] digits[i] <= 57
}

/// A longer string of digits does not stand for a smaller number.
pub proof fn lemma_decimal_grows(digits: Seq<u8>, n: int)
    requires
        forall|i: int| 0 <= i < digits.len() ==> 48 <= #[trigger] digits[i] <= 57,
        0 <= n <= digits.len(),
    ensures
        decimal(digits.take(n)) <= decimal(digits),
    decreases digits.len() - n,
{
    if n < digits.len() {
        lemma_decimal_grows(digits, n + 1);
        assert(digits.take(n + 1).drop_last() =~= digits.take(n));
    } else {
        assert(digits.take(n) =~= digits);
    }
}

/// Reads a thread count written in decimal digits. There is a result iff
/// the text is made of digits alone, at least one, and the number fits.
pub fn parse_threads(text: &[u8]) -> (r: Option<usize>)
    ensures
        r is Some <==> is_decimal(text@) && decimal(text@) <= usize::MAX,
        r matches Some(n) ==> n == decimal(text@),
{
    if text.len() == 0 {
        return None;
    }
    let mut n: usize = 0;
    let mut i: usize = 0;
    while i < text.len()
        invariant
            i <= text.len(),
            forall|k: int| 0 <= k < i ==> 48 <= #[trigger] text@[k] <= 57,
            n == decimal(text@.take(i as int)),
        decreases text.len() - i,
    {
        let b = text[i];
        if b < 48 || b > 57 {
            return None;
        }
        proof {
            assert(text@.take(i + 1).drop_last() =~= text@.take(i as int));
        }
        let d: usize = (b - 48) as usize;
        if n > (usize::MAX - d) / 10 {
            proof {
                assert(decimal(text@.take(i + 1)) > usize::MAX) by (nonlinear_arith)
                    requires
                        decimal(text@.take(i + 1)) == n * 10 + d,
                        n > (usize::MAX - d) / 10,
                ;
                if is_decimal(text@) {
                    lemma_decimal_grows(text@, i + 1);
                }
            }
            return None;
        }
        assert(n * 10 + d <= usize::MAX) by (nonlinear_arith)
            requires
                n <= (usize::MAX - d) / 10,
                d <= usize::MAX,
        ;
        n = n * 10 + d;
        i += 1;
    }
    proof {
        assert(text@.take(i as int) =~= text@);
    }
    Some(n)
}

/// The number of scheduler threads to start: what the environment asks
/// for where it asks for anything, else one where thread creation is held
/// back, else one for each processor. There is no result iff the request
/// is not a number that fits.
pub fn default_sched_threads(requested: Option<&[u8]>, cpus: usize) -> (r: Option<usize>)
    ensures
        match requested {
            Some(text) => {
                &&& r is Some <==> is_decimal(text@) && decimal(text@) <= usize::MAX
                &&& r matches Some(n) ==> n == decimal(text@)
            },
            None => r == Some(cpus),
        },
{
    match requested {
        Some(text) => parse_threads(text),
        None => {
            if limit_thread_creation_due_to_osx_and_valgrind() {
                Some(1)
            } else {
                Some(cpus)
            }
        },
    }
}

} // verus!
