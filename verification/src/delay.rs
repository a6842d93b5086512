//! The delay with written arguments: `mix`, `feedback` and `time` are read
//! from the text of an entry, and the feedback delay is applied with them.
use crate::arithmetic::Arithmetic;
use crate::chain::numbered;
use crate::effect_modules::delay::{delay_applied, delay_check, delay_refused, Delay, DelayRun};
use crate::number::{check_literal, is_float_literal};
use crate::text::chars_of;
use crate::types::{
    value_view, Argument, ArgumentSet, AudioBuffer, ProcessingError, ValidationError, Warning,
};
use vstd::hash_map::StringHashMap;
use vstd::prelude::*;
use vstd::string::*;

verus! {

/// Why a delay with written arguments is refused.
#[derive(Clone, Copy, Debug, PartialEq, Eq, Structural)]
pub enum DelayError {
    /// The argument was not written, or was written without a value.
    Missing(Argument),
    /// The value of the argument is no number.
    Invalid(Argument),
    /// The delay refuses the numbers or the buffer.
    Refused(ProcessingError),
}

/// The text written for a key, if it is a number.
pub open spec fn written_number(
    arguments: Map<Seq<char>, Option<String>>,
    key: Seq<char>,
    argument: Argument,
) -> Result<Seq<char>, DelayError> {
    if !arguments.contains_key(key) {
        Err(DelayError::Missing(argument))
    } else {
        match value_view(arguments[key]) {
            None => Err(DelayError::Missing(argument)),
            Some(text) => if is_float_literal(text) {
                Ok(text)
            } else {
                Err(DelayError::Invalid(argument))
            },
        }
    }
}

/// The first of the three arguments, in the order mix, feedback, time, that is
/// missing or no number.
pub open spec fn written_fault(arguments: Map<Seq<char>, Option<String>>) -> Option<DelayError> {
    match written_number(arguments, "mix"@, Argument::Mix) {
        Err(e) => Some(e),
        Ok(_) => match written_number(arguments, "feedback"@, Argument::Feedback) {
            Err(e) => Some(e),
            Ok(_) => match written_number(arguments, "time"@, Argument::Time) {
                Err(e) => Some(e),
                Ok(_) => None,
            },
        },
    }
}

/// The argument set holds the numbers of the three written arguments, under
/// the keys of the feedback delay.
pub open spec fn written_numbers<M: Arithmetic>(
    math: &M,
    arguments: Map<Seq<char>, Option<String>>,
    typed: Map<Seq<char>, u32>,
) -> bool {
    &&& written_fault(arguments) is None
    &&& typed.dom() =~= set!["mix"@, "fb"@, "time"@]
    &&& numbered(math, written_number(arguments, "mix"@, Argument::Mix)->Ok_0, typed["mix"@])
    &&& numbered(
        math,
        written_number(arguments, "feedback"@, Argument::Feedback)->Ok_0,
        typed["fb"@],
    )
    &&& numbered(math, written_number(arguments, "time"@, Argument::Time)->Ok_0, typed["time"@])
}

/// Reads the number that is written for a key.
fn read_written<M: Arithmetic>(
    arguments: &StringHashMap<Option<String>>,
    key: &str,
    argument: Argument,
    math: &M,
) -> (r: Result<u32, DelayError>)
    ensures
        match r {
            Ok(value) => written_number(arguments@, key@, argument) is Ok && numbered(
                math,
                written_number(arguments@, key@, argument)->Ok_0,
                value,
            ),
            Err(e) => written_number(arguments@, key@, argument) == Err::<Seq<char>, DelayError>(e),
        },
{
    match arguments.get(key) {
        Some(Some(text)) => {
            let digits: Vec<char> = chars_of(text.as_str());
            match check_literal(&digits) {
                Ok(()) => Ok(math.number(text.as_str())),
                Err(_) => Err(DelayError::Invalid(argument)),
            }
        },
        _ => Err(DelayError::Missing(argument)),
    }
}

proof fn lemma_keys_differ()
    ensures
        "mix"@ != "fb"@,
        "mix"@ != "time"@,
        "fb"@ != "time"@,
{
    reveal_strlit("mix");
    reveal_strlit("fb");
    reveal_strlit("time");
    assert("mix"@.len() == 3);
    assert("fb"@.len() == 2);
    assert("time"@.len() == 4);
}

/// Applies the feedback delay with the arguments `mix`, `feedback` and `time`
/// as they were written. Where the delay is refused, the buffer is left as it
/// was.
pub fn delay<M: Arithmetic>(
    audio_buffer: &mut AudioBuffer,
    arguments: &StringHashMap<Option<String>>,
    tail_length: Option<u32>,
    math: &M,
) -> (r: Result<Option<Warning>, DelayError>)
    ensures
        final(audio_buffer).format == old(audio_buffer).format,
        r is Err ==> final(audio_buffer).samples@ == old(audio_buffer).samples@,
        match r {
            Ok(warning) => exists|typed: Map<Seq<char>, u32>, run: DelayRun|
                {
                    &&& #[trigger] delay_applied(
                        math,
                        old(audio_buffer).format,
                        old(audio_buffer).samples@,
                        typed,
                        tail_length,
                        final(audio_buffer).samples@,
                        run,
                    )
                    &&& written_numbers(math, arguments@, typed)
                    &&& delay_check(typed, tail_length) == Ok::<Option<Warning>, ValidationError>(
                        warning,
                    )
                },
            Err(DelayError::Refused(e)) => exists|typed: Map<Seq<char>, u32>|
                {
                    &&& #[trigger] delay_refused(
                        math,
                        old(audio_buffer).format,
                        old(audio_buffer).samples@,
                        typed,
                        tail_length,
                        e,
                    )
                    &&& written_numbers(math, arguments@, typed)
                },
            Err(e) => written_fault(arguments@) == Some(e),
        },
{
    let mix: u32 = match read_written(arguments, "mix", Argument::Mix, math) {
        Ok(v) => v,
        Err(e) => {
            return Err(e);
        },
    };
    let feedback: u32 = match read_written(arguments, "feedback", Argument::Feedback, math) {
        Ok(v) => v,
        Err(e) => {
            return Err(e);
        },
    };
    let time: u32 = match read_written(arguments, "time", Argument::Time, math) {
        Ok(v) => v,
        Err(e) => {
            return Err(e);
        },
    };
    let mut typed: ArgumentSet = ArgumentSet::new();
    typed.insert("mix", mix);
    typed.insert("fb", feedback);
    typed.insert("time", time);
    proof {
        lemma_keys_differ();
        assert(typed@.dom() =~= set!["mix"@, "fb"@, "time"@]);
        assert(written_numbers(math, arguments@, typed@));
    }
    let effect = Delay;
    let warning: Option<Warning> = match effect.validate_arguments(&typed, &tail_length) {
        Ok(warning) => warning,
        Err(e) => None,
    };
    match effect.apply_effect(audio_buffer, &typed, &tail_length, math) {
        Ok(()) => Ok(warning),
        Err(e) => {
            proof {
                assert(delay_refused(
                    math,
                    old(audio_buffer).format,
                    old(audio_buffer).samples@,
                    typed@,
                    tail_length,
                    e,
                ));
            }
            Err(DelayError::Refused(e))
        },
    }
}

} // verus!
