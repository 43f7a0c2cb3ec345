//! Seed material from the operating system.

use vstd::prelude::*;

verus! {

/// The error of the operating system's random number source, as the
/// `getrandom` crate reports it.
#[verifier::external_type_specification]
#[verifier::external_body]
pub struct ExGetrandomError(getrandom::Error);

/// The operating system could not supply random bytes.
#[derive(Debug, Clone, Copy, PartialEq, Eq, Hash)]
pub struct EntropyError {
    /// The error code of the source: from the operating system, or one of
    /// the source's own. It is never zero.
    pub code: u32,
}

/// Calls `getrandom::Error::code` and hands out the number in it.
///
/// The code is held in a `NonZeroU32`, so it is not zero.
#[verifier::external_body]
fn error_code(error: getrandom::Error) -> (code: u32)
    ensures
        code != 0,
{
    error.code().get()
}

/// What the library makes of the source's answer, whatever it is: a success
/// stays a success, and a failure is handed on with the source's error code,
/// which is never zero.
fn outcome_of(answer: Result<(), getrandom::Error>) -> (outcome: Result<(), EntropyError>)
    ensures
        outcome is Ok <==> answer is Ok,
        outcome matches Err(e) ==> e.code != 0,
{
    match answer {
        Ok(()) => Ok(()),
        Err(error) => Err(EntropyError { code: error_code(error) }),
    }
}

/// Fills `words` with random 64-bit words from the operating system.
///
/// Whether that succeeds is up to the operating system: a failure of the
/// source is handed on with its code, a success of the source is a success
/// here. Only for an array without elements is the outcome known before:
/// there is nothing to ask for, and the call succeeds.
///
/// On success the words are random; on failure nothing is known of them.
pub(crate) fn random_u64s<const N: usize>(words: &mut [u64; N]) -> (filled: Result<
    (),
    EntropyError,
>)
    ensures
        N == 0 ==> filled is Ok,
        filled matches Err(e) ==> e.code != 0,
{
    outcome_of(fill_u64s(words))
}

/// Fills `words` with random 32-bit words from the operating system.
///
/// The outcome is as for the 64-bit words.
pub(crate) fn random_u32s<const N: usize>(words: &mut [u32; N]) -> (filled: Result<
    (),
    EntropyError,
>)
    ensures
        N == 0 ==> filled is Ok,
        filled matches Err(e) ==> e.code != 0,
{
    outcome_of(fill_u32s(words))
}

/// Calls `getrandom::getrandom` on the bytes of `words`, which
/// `bytemuck::bytes_of_mut` hands out.
///
/// Nothing is known of the words afterwards, whether the call succeeds or
/// fails: they are random on success, and the source promises nothing of
/// them on failure. The source documents that it succeeds at once on an
/// empty buffer, without asking the operating system, and an array without
/// elements has no bytes.
#[verifier::external_body]
fn fill_u64s<const N: usize>(words: &mut [u64; N]) -> (filled: Result<(), getrandom::Error>)
    ensures
        N == 0 ==> filled is Ok,
{
    getrandom::getrandom(bytemuck::bytes_of_mut(words))
}

/// Calls `getrandom::getrandom` on the bytes of `words`, which
/// `bytemuck::bytes_of_mut` hands out.
///
/// Nothing is known of the words afterwards, whether the call succeeds or
/// fails. The source documents that it succeeds at once on an empty buffer,
/// without asking the operating system, and an array without elements has no
/// bytes.
#[verifier::external_body]
fn fill_u32s<const N: usize>(words: &mut [u32; N]) -> (filled: Result<(), getrandom::Error>)
    ensures
        N == 0 ==> filled is Ok,
{
    getrandom::getrandom(bytemuck::bytes_of_mut(words))
}

} // verus!
