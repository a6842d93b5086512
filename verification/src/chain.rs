//! The effect chain: the registry of effects, and the dispatcher that checks
//! every entry of a chain before it applies the first.
use crate::arithmetic::{Arithmetic, FilterShape};
use crate::dynamics::{amplified, amplify, clipped, normalize, normalized, soft_clip};
use crate::effect_modules::delay::{delay_applied, delay_check, delay_refused, Delay, DelayRun};
use crate::effect_modules::eqband::{
    apply_filter, filter_applied, filter_check, validate_filter, FilterRun,
};
use crate::ieee::ONE32;
use crate::number::{check_literal, literal_check};
use crate::text::chars_of;
use crate::types::{
    argument_key, kind_name, processing_message, validation_message, whole_frames, Argument,
    ArgumentSet, AudioBuffer, EffectKind, EffectSpec, EffectSpecView, ParseError, ParseErrorView,
    ProcessingError, SampleFormat, ValidationError, Warning,
};
use vstd::hash_map::StringHashMap;
use vstd::prelude::*;
use vstd::string::*;

verus! {

/// One entry of a chain: the name of an effect and its numeric arguments.
pub struct ChainEntry {
    pub name: String,
    pub arguments: ArgumentSet,
}

/// What a `ChainEntry` stands for.
pub struct ChainEntryView {
    pub name: Seq<char>,
    pub arguments: Map<Seq<char>, u32>,
}

impl View for ChainEntry {
    type V = ChainEntryView;

    open spec fn view(&self) -> ChainEntryView {
        ChainEntryView { name: self.name@, arguments: self.arguments@ }
    }
}

/// What a chain stands for.
pub open spec fn chain_view(chain: Seq<ChainEntry>) -> Seq<ChainEntryView> {
    chain.map_values(|entry: ChainEntry| entry@)
}

/// The text that an entry gives for an argument, if it gives one.
pub open spec fn written(entry: EffectSpecView, argument: Argument) -> Option<Seq<char>> {
    if entry.arguments.contains_key(argument_key(argument)) {
        entry.arguments[argument_key(argument)]
    } else {
        None
    }
}

/// What is wrong with the text that an entry gives for an argument, if it
/// gives one and it is no number.
pub open spec fn fault(entry: EffectSpecView, argument: Argument) -> Option<ParseErrorView> {
    match written(entry, argument) {
        Some(text) => match literal_check(text) {
            Err(fault) => Some(
                ParseErrorView::BadNumber {
                    argument: argument_key(argument),
                    effect: entry.effect_name,
                    fault,
                },
            ),
            Ok(()) => None,
        },
        None => None,
    }
}

/// The first fault among the arguments of an entry, taken in the order mix,
/// feedback, time, db, frequency, q.
pub open spec fn entry_fault(entry: EffectSpecView) -> Option<ParseErrorView> {
    if fault(entry, Argument::Mix) is Some {
        fault(entry, Argument::Mix)
    } else if fault(entry, Argument::Feedback) is Some {
        fault(entry, Argument::Feedback)
    } else if fault(entry, Argument::Time) is Some {
        fault(entry, Argument::Time)
    } else if fault(entry, Argument::Db) is Some {
        fault(entry, Argument::Db)
    } else if fault(entry, Argument::Frequency) is Some {
        fault(entry, Argument::Frequency)
    } else {
        fault(entry, Argument::Q)
    }
}

/// `value` is the number that the arithmetic reads from `text`.
pub open spec fn numbered<M: Arithmetic>(math: &M, text: Seq<char>, value: u32) -> bool {
    exists|literal: &str| literal@ == text && #[trigger] call_ensures(
        M::number,
        (math, literal),
        value,
    )
}

/// The argument set holds, of the arguments in `among`, those for which the
/// entry gives a text, each with the number that the arithmetic reads from it,
/// and nothing else.
pub open spec fn holds_numbers<M: Arithmetic>(
    math: &M,
    entry: EffectSpecView,
    arguments: Map<Seq<char>, u32>,
    among: Set<Argument>,
) -> bool {
    &&& forall|key: Seq<char>| #[trigger]
        arguments.contains_key(key) <==> exists|argument: Argument|
            among.contains(argument) && key == #[trigger] argument_key(argument) && written(
                entry,
                argument,
            ) is Some
    &&& forall|argument: Argument|
        among.contains(argument) && written(entry, argument) is Some ==> numbered(
            math,
            written(entry, argument)->0,
            #[trigger] arguments[argument_key(argument)],
        )
}

/// Reads the number of one argument of an entry into an argument set.
fn read_number<M: Arithmetic>(
    entry: &EffectSpec,
    argument: Argument,
    arguments: &mut ArgumentSet,
    math: &M,
    Ghost(among): Ghost<Set<Argument>>,
) -> (r: Result<(), ParseError>)
    requires
        holds_numbers(math, entry@, old(arguments)@, among),
    ensures
        match r {
            Ok(()) => fault(entry@, argument) is None && holds_numbers(
                math,
                entry@,
                final(arguments)@,
                among.insert(argument),
            ),
            Err(e) => fault(entry@, argument) == Some(e@) && final(arguments)@ == old(arguments)@,
        },
{
    let key: &'static str = argument.key();
    let ghost before = arguments@;
    match entry.argument(key) {
        Some(Some(text)) => {
            let digits: Vec<char> = chars_of(text);
            if let Err(fault) = check_literal(&digits) {
                return Err(
                    ParseError::BadNumber {
                        argument: String::from_str(key),
                        effect: entry.effect_name.clone(),
                        fault,
                    },
                );
            }
            let value: u32 = math.number(text);
            arguments.insert(key, value);
            proof {
                let after = arguments@;
                let wider = among.insert(argument);
                assert(numbered(math, written(entry@, argument)->0, value));
                assert forall|k: Seq<char>| #[trigger]
                    after.contains_key(k) <==> exists|a: Argument|
                        wider.contains(a) && k == #[trigger] argument_key(a) && written(
                            entry@,
                            a,
                        ) is Some by {
                    if after.contains_key(k) {
                        if k == key@ {
                            assert(wider.contains(argument) && k == argument_key(argument));
                        } else {
                            assert(before.contains_key(k));
                            let a = choose|a: Argument|
                                among.contains(a) && k == #[trigger] argument_key(a) && written(
                                    entry@,
                                    a,
                                ) is Some;
                            assert(wider.contains(a) && k == argument_key(a));
                        }
                    }
                    if exists|a: Argument|
                        wider.contains(a) && k == #[trigger] argument_key(a) && written(
                            entry@,
                            a,
                        ) is Some {
                        let a = choose|a: Argument|
                            wider.contains(a) && k == #[trigger] argument_key(a) && written(
                                entry@,
                                a,
                            ) is Some;
                        if a != argument {
                            assert(among.contains(a) && k == argument_key(a));
                            assert(before.contains_key(k));
                        }
                    }
                }
                assert forall|a: Argument|
                    wider.contains(a) && written(entry@, a) is Some implies numbered(
                    math,
                    written(entry@, a)->0,
                    #[trigger] after[argument_key(a)],
                ) by {
                    if argument_key(a) != key@ {
                        assert(among.contains(a));
                        assert(after[argument_key(a)] == before[argument_key(a)]);
                    }
                }
            }
            Ok(())
        },
        _ => {
            proof {
                let wider = among.insert(argument);
                assert forall|k: Seq<char>| #[trigger]
                    before.contains_key(k) <==> exists|a: Argument|
                        wider.contains(a) && k == #[trigger] argument_key(a) && written(
                            entry@,
                            a,
                        ) is Some by {
                    if before.contains_key(k) {
                        let a = choose|a: Argument|
                            among.contains(a) && k == #[trigger] argument_key(a) && written(
                                entry@,
                                a,
                            ) is Some;
                        assert(wider.contains(a) && k == argument_key(a));
                    }
                    if exists|a: Argument|
                        wider.contains(a) && k == #[trigger] argument_key(a) && written(
                            entry@,
                            a,
                        ) is Some {
                        let a = choose|a: Argument|
                            wider.contains(a) && k == #[trigger] argument_key(a) && written(
                                entry@,
                                a,
                            ) is Some;
                        assert(among.contains(a) && k == argument_key(a));
                    }
                }
            }
            Ok(())
        },
    }
}

/// Reads the numbers of an entry that was read from text: the arguments that
/// an effect of the engine takes, as far as the entry gives a value for them.
/// Other arguments of the entry are left aside, and so is an argument that was
/// written without a value. Fails where one of the values is no number.
pub fn typed_entry<M: Arithmetic>(entry: &EffectSpec, math: &M) -> (r: Result<
    ChainEntry,
    ParseError,
>)
    ensures
        match r {
            Ok(typed) => {
                &&& entry_fault(entry@) is None
                &&& typed@.name == entry@.effect_name
                &&& holds_numbers(math, entry@, typed@.arguments, Set::full())
            },
            Err(e) => entry_fault(entry@) == Some(e@),
        },
{
    let mut arguments: ArgumentSet = ArgumentSet::new();
    let ghost mut among: Set<Argument> = Set::empty();
    if let Err(e) = read_number(entry, Argument::Mix, &mut arguments, math, Ghost(among)) {
        return Err(e);
    }
    proof {
        among = among.insert(Argument::Mix);
    }
    if let Err(e) = read_number(entry, Argument::Feedback, &mut arguments, math, Ghost(among)) {
        return Err(e);
    }
    proof {
        among = among.insert(Argument::Feedback);
    }
    if let Err(e) = read_number(entry, Argument::Time, &mut arguments, math, Ghost(among)) {
        return Err(e);
    }
    proof {
        among = among.insert(Argument::Time);
    }
    if let Err(e) = read_number(entry, Argument::Db, &mut arguments, math, Ghost(among)) {
        return Err(e);
    }
    proof {
        among = among.insert(Argument::Db);
    }
    if let Err(e) = read_number(entry, Argument::Frequency, &mut arguments, math, Ghost(among)) {
        return Err(e);
    }
    proof {
        among = among.insert(Argument::Frequency);
    }
    if let Err(e) = read_number(entry, Argument::Q, &mut arguments, math, Ghost(among)) {
        return Err(e);
    }
    proof {
        among = among.insert(Argument::Q);
        assert forall|a: Argument| among.contains(a) by {
            match a {
                Argument::Mix => {},
                Argument::Feedback => {},
                Argument::Time => {},
                Argument::Db => {},
                Argument::Frequency => {},
                Argument::Q => {},
            }
        }
        assert(among =~= Set::full());
    }
    Ok(ChainEntry { name: entry.effect_name.clone(), arguments })
}

/// Entry `i` of `typed` holds the numbers of entry `i` of `entries`.
pub open spec fn typed_at<M: Arithmetic>(
    math: &M,
    entries: Seq<EffectSpec>,
    typed: Seq<ChainEntry>,
    i: int,
) -> bool {
    &&& typed[i]@.name == entries[i]@.effect_name
    &&& holds_numbers(math, entries[i]@, typed[i]@.arguments, Set::full())
}

/// Reads the numbers of every entry of a chain that was read from text.
/// Fails with the first fault of the first entry that has one.
pub fn typed_chain<M: Arithmetic>(entries: &Vec<EffectSpec>, math: &M) -> (r: Result<
    Vec<ChainEntry>,
    ParseError,
>)
    ensures
        match r {
            Ok(typed) => {
                &&& typed@.len() == entries@.len()
                &&& forall|i: int|
                    0 <= i < entries@.len() ==> entry_fault(#[trigger] entries@[i]@) is None
                &&& forall|i: int|
                    0 <= i < entries@.len() ==> #[trigger] typed_at(math, entries@, typed@, i)
            },
            Err(e) => exists|i: int|
                {
                    &&& 0 <= i < entries@.len()
                    &&& entry_fault(#[trigger] entries@[i]@) == Some(e@)
                    &&& forall|j: int| 0 <= j < i ==> entry_fault(#[trigger] entries@[j]@) is None
                },
        },
{
    let mut typed: Vec<ChainEntry> = Vec::new();
    let mut i: usize = 0;
    while i < entries.len()
        invariant
            i <= entries@.len(),
            typed@.len() == i,
            forall|j: int| 0 <= j < i ==> entry_fault(#[trigger] entries@[j]@) is None,
            forall|j: int| 0 <= j < i ==> #[trigger] typed_at(math, entries@, typed@, j),
        decreases entries@.len() - i,
    {
        let ghost before = typed@;
        match typed_entry(&entries[i], math) {
            Ok(entry) => {
                typed.push(entry);
                proof {
                    assert forall|j: int| 0 <= j < i + 1 implies #[trigger] typed_at(
                        math,
                        entries@,
                        typed@,
                        j,
                    ) by {
                        if j < i {
                            assert(typed_at(math, entries@, before, j));
                        }
                    }
                }
            },
            Err(e) => {
                return Err(e);
            },
        }
        i += 1;
    }
    Ok(typed)
}

/// Why a chain was not applied, or not to its end.
#[derive(Debug, PartialEq, Eq)]
pub enum ChainError {
    /// The chain names an effect that is not registered.
    UnknownEffect { name: String },
    /// An effect refuses its arguments. Nothing was applied.
    Invalid { effect: EffectKind, error: ValidationError },
    /// An effect failed. The effects before it were applied.
    Failed { effect: EffectKind, failure: ProcessingError },
}

/// What a `ChainError` stands for.
pub enum ChainErrorView {
    UnknownEffect { name: Seq<char> },
    Invalid { effect: EffectKind, error: ValidationError },
    Failed { effect: EffectKind, failure: ProcessingError },
}

impl View for ChainError {
    type V = ChainErrorView;

    open spec fn view(&self) -> ChainErrorView {
        match self {
            ChainError::UnknownEffect { name } => ChainErrorView::UnknownEffect { name: name@ },
            ChainError::Invalid { effect, error } => ChainErrorView::Invalid {
                effect: *effect,
                error: *error,
            },
            ChainError::Failed { effect, failure } => ChainErrorView::Failed {
                effect: *effect,
                failure: *failure,
            },
        }
    }
}

/// The message of a chain error: it names the effect.
pub open spec fn chain_message(e: ChainErrorView) -> Seq<char> {
    match e {
        ChainErrorView::UnknownEffect { name } => "unknown effect '"@ + name + "'"@,
        ChainErrorView::Invalid { effect, error } => kind_name(effect) + " -> "@
            + validation_message(error),
        ChainErrorView::Failed { effect, failure } => kind_name(effect) + " -> "@
            + processing_message(failure),
    }
}

impl ChainError {
    /// The message of the error.
    pub fn message(&self) -> (r: String)
        ensures
            r@ == chain_message(self@),
    {
        match self {
            ChainError::UnknownEffect { name } => {
                let mut r: String = String::from_str("unknown effect '");
                r.append(name.as_str());
                r.append("'");
                r
            },
            ChainError::Invalid { effect, error } => {
                let mut r: String = String::from_str(effect.name());
                r.append(" -> ");
                let inner: String = error.message();
                r.append(inner.as_str());
                r
            },
            ChainError::Failed { effect, failure } => {
                let mut r: String = String::from_str(effect.name());
                r.append(" -> ");
                let inner: String = failure.message();
                r.append(inner.as_str());
                r
            },
        }
    }
}

/// What the validation of an effect that needs `db` and nothing else answers.
pub open spec fn db_check(effect: EffectKind, arguments: Map<Seq<char>, u32>) -> Result<
    Option<Warning>,
    ValidationError,
> {
    if arguments.contains_key("db"@) {
        Ok(None)
    } else {
        Err(ValidationError::Missing { effect, argument: Argument::Db })
    }
}

/// What the validation of an effect answers.
pub open spec fn effect_check(
    kind: EffectKind,
    arguments: Map<Seq<char>, u32>,
    tail_length: Option<u32>,
) -> Result<Option<Warning>, ValidationError> {
    match kind {
        EffectKind::Delay => delay_check(arguments, tail_length),
        EffectKind::EqBand => filter_check(FilterShape::Peaking, arguments),
        EffectKind::BandPass => filter_check(FilterShape::BandPass, arguments),
        EffectKind::LowShelf => filter_check(FilterShape::LowShelf, arguments),
        EffectKind::HighShelf => filter_check(FilterShape::HighShelf, arguments),
        EffectKind::Gain => db_check(kind, arguments),
        EffectKind::Softclip => db_check(kind, arguments),
        EffectKind::Normalize => Ok(None),
    }
}

/// The stream `ys` is what the effect makes of the stream `xs`.
pub open spec fn effect_applied<M: Arithmetic>(
    math: &M,
    kind: EffectKind,
    format: SampleFormat,
    xs: Seq<u32>,
    arguments: Map<Seq<char>, u32>,
    tail_length: Option<u32>,
    ys: Seq<u32>,
) -> bool {
    match kind {
        EffectKind::Delay => exists|run: DelayRun| #[trigger]
            delay_applied(math, format, xs, arguments, tail_length, ys, run),
        EffectKind::EqBand => exists|run: FilterRun| #[trigger]
            filter_applied(math, FilterShape::Peaking, format, xs, arguments, ys, run),
        EffectKind::BandPass => exists|run: FilterRun| #[trigger]
            filter_applied(math, FilterShape::BandPass, format, xs, arguments, ys, run),
        EffectKind::LowShelf => exists|run: FilterRun| #[trigger]
            filter_applied(math, FilterShape::LowShelf, format, xs, arguments, ys, run),
        EffectKind::HighShelf => exists|run: FilterRun| #[trigger]
            filter_applied(math, FilterShape::HighShelf, format, xs, arguments, ys, run),
        EffectKind::Gain => amplified(math, xs, ys, arguments["db"@]),
        EffectKind::Softclip => clipped(math, xs, ys, arguments["db"@]),
        EffectKind::Normalize => if arguments.contains_key("db"@) {
            exists|ceiling: u32| #[trigger]
                call_ensures(M::amplitude, (math, arguments["db"@]), ceiling) && normalized(
                    math,
                    xs,
                    ys,
                    ceiling,
                )
        } else {
            normalized(math, xs, ys, ONE32)
        },
    }
}

/// The effect refuses the stream `xs` with the error `e`.
pub open spec fn effect_refused<M: Arithmetic>(
    math: &M,
    kind: EffectKind,
    format: SampleFormat,
    xs: Seq<u32>,
    arguments: Map<Seq<char>, u32>,
    tail_length: Option<u32>,
    e: ProcessingError,
) -> bool {
    match kind {
        EffectKind::Delay => delay_refused(math, format, xs, arguments, tail_length, e),
        _ => effect_check(kind, arguments, tail_length) matches Err(inner) && e
            == ProcessingError::Rejected(inner),
    }
}

impl EffectKind {
    /// Checks the arguments of the effect. Nothing is changed.
    pub fn validate(&self, arguments: &ArgumentSet, tail_length: &Option<u32>) -> (r: Result<
        Option<Warning>,
        ValidationError,
    >)
        ensures
            r == effect_check(*self, arguments@, *tail_length),
    {
        match self {
            EffectKind::Delay => Delay.validate_arguments(arguments, tail_length),
            EffectKind::EqBand => validate_filter(FilterShape::Peaking, arguments),
            EffectKind::BandPass => validate_filter(FilterShape::BandPass, arguments),
            EffectKind::LowShelf => validate_filter(FilterShape::LowShelf, arguments),
            EffectKind::HighShelf => validate_filter(FilterShape::HighShelf, arguments),
            EffectKind::Gain | EffectKind::Softclip => {
                if arguments.get("db").is_some() {
                    Ok(None)
                } else {
                    Err(ValidationError::Missing { effect: *self, argument: Argument::Db })
                }
            },
            EffectKind::Normalize => Ok(None),
        }
    }

    /// Applies the effect to the buffer, in place. Where the effect refuses,
    /// the buffer is left as it was.
    pub fn apply<M: Arithmetic>(
        &self,
        buffer: &mut AudioBuffer,
        arguments: &ArgumentSet,
        tail_length: &Option<u32>,
        math: &M,
    ) -> (r: Result<(), ProcessingError>)
        ensures
            final(buffer).format == old(buffer).format,
            match r {
                Ok(()) => {
                    &&& effect_check(*self, arguments@, *tail_length) is Ok
                    &&& effect_applied(
                        math,
                        *self,
                        old(buffer).format,
                        old(buffer).samples@,
                        arguments@,
                        *tail_length,
                        final(buffer).samples@,
                    )
                },
                Err(e) => {
                    &&& final(buffer).samples@ == old(buffer).samples@
                    &&& effect_refused(
                        math,
                        *self,
                        old(buffer).format,
                        old(buffer).samples@,
                        arguments@,
                        *tail_length,
                        e,
                    )
                },
            },
    {
        match self {
            EffectKind::Delay => Delay.apply_effect(buffer, arguments, tail_length, math),
            EffectKind::EqBand => apply_filter(FilterShape::Peaking, buffer, arguments, math),
            EffectKind::BandPass => apply_filter(FilterShape::BandPass, buffer, arguments, math),
            EffectKind::LowShelf => apply_filter(FilterShape::LowShelf, buffer, arguments, math),
            EffectKind::HighShelf => apply_filter(FilterShape::HighShelf, buffer, arguments, math),
            EffectKind::Gain => {
                match arguments.get("db") {
                    Some(db) => {
                        amplify(&mut buffer.samples, db, math);
                        Ok(())
                    },
                    None => Err(
                        ProcessingError::Rejected(
                            ValidationError::Missing { effect: *self, argument: Argument::Db },
                        ),
                    ),
                }
            },
            EffectKind::Softclip => {
                match arguments.get("db") {
                    Some(db) => {
                        soft_clip(&mut buffer.samples, db, math);
                        Ok(())
                    },
                    None => Err(
                        ProcessingError::Rejected(
                            ValidationError::Missing { effect: *self, argument: Argument::Db },
                        ),
                    ),
                }
            },
            EffectKind::Normalize => {
                let ceiling: u32 = match arguments.get("db") {
                    Some(db) => math.amplitude(db),
                    None => ONE32,
                };
                normalize(&mut buffer.samples, ceiling, math);
                Ok(())
            },
        }
    }
}

/// Registers an effect under its name, in place of any effect that had the
/// name.
pub fn add_effect(effect: EffectKind, effect_map: &mut StringHashMap<EffectKind>)
    ensures
        final(effect_map)@ == old(effect_map)@.insert(kind_name(effect), effect),
{
    effect_map.insert(String::from_str(effect.name()), effect);
}

/// The registry with every effect of the engine.
pub open spec fn all_effects() -> Map<Seq<char>, EffectKind> {
    Map::<Seq<char>, EffectKind>::empty().insert(
        kind_name(EffectKind::Delay),
        EffectKind::Delay,
    ).insert(kind_name(EffectKind::Gain), EffectKind::Gain).insert(
        kind_name(EffectKind::Softclip),
        EffectKind::Softclip,
    ).insert(kind_name(EffectKind::Normalize), EffectKind::Normalize).insert(
        kind_name(EffectKind::EqBand),
        EffectKind::EqBand,
    ).insert(kind_name(EffectKind::BandPass), EffectKind::BandPass).insert(
        kind_name(EffectKind::HighShelf),
        EffectKind::HighShelf,
    ).insert(kind_name(EffectKind::LowShelf), EffectKind::LowShelf)
}

/// Makes the registry with every effect of the engine.
pub fn standard_effects() -> (effect_map: StringHashMap<EffectKind>)
    ensures
        effect_map@ == all_effects(),
{
    let mut effect_map: StringHashMap<EffectKind> = StringHashMap::new();
    add_effect(EffectKind::Delay, &mut effect_map);
    add_effect(EffectKind::Gain, &mut effect_map);
    add_effect(EffectKind::Softclip, &mut effect_map);
    add_effect(EffectKind::Normalize, &mut effect_map);
    add_effect(EffectKind::EqBand, &mut effect_map);
    add_effect(EffectKind::BandPass, &mut effect_map);
    add_effect(EffectKind::HighShelf, &mut effect_map);
    add_effect(EffectKind::LowShelf, &mut effect_map);
    effect_map
}

/// What the validation of one entry answers: the name has to be registered,
/// and the effect has to accept the arguments.
pub open spec fn entry_check(
    effects: Map<Seq<char>, EffectKind>,
    entry: ChainEntryView,
    tail_length: Option<u32>,
) -> Result<Option<Warning>, ChainErrorView> {
    if !effects.contains_key(entry.name) {
        Err(ChainErrorView::UnknownEffect { name: entry.name })
    } else {
        match effect_check(effects[entry.name], entry.arguments, tail_length) {
            Ok(warning) => Ok(warning),
            Err(error) => Err(ChainErrorView::Invalid { effect: effects[entry.name], error }),
        }
    }
}

/// What the validation of a chain answers: the error of the first entry that
/// fails, or else the warnings of all entries, in order.
pub open spec fn chain_check(
    effects: Map<Seq<char>, EffectKind>,
    entries: Seq<ChainEntryView>,
    tail_length: Option<u32>,
) -> Result<Seq<Option<Warning>>, ChainErrorView>
    decreases entries.len(),
{
    if entries.len() == 0 {
        Ok(Seq::empty())
    } else {
        match chain_check(effects, entries.drop_last(), tail_length) {
            Err(e) => Err(e),
            Ok(warnings) => match entry_check(effects, entries.last(), tail_length) {
                Err(e) => Err(e),
                Ok(warning) => Ok(warnings.push(warning)),
            },
        }
    }
}

/// Entry `i` of the chain made the stream `states[i + 1]` of the stream
/// `states[i]`.
pub open spec fn chain_step<M: Arithmetic>(
    math: &M,
    effects: Map<Seq<char>, EffectKind>,
    format: SampleFormat,
    tail_length: Option<u32>,
    entries: Seq<ChainEntryView>,
    states: Seq<Seq<u32>>,
    i: int,
) -> bool {
    effect_applied(
        math,
        effects[entries[i].name],
        format,
        states[i],
        entries[i].arguments,
        tail_length,
        states[i + 1],
    )
}

/// The effects of the first `done` entries were applied one after the other.
/// `states` holds the stream before the first effect and after each.
pub open spec fn chain_applied<M: Arithmetic>(
    math: &M,
    effects: Map<Seq<char>, EffectKind>,
    format: SampleFormat,
    tail_length: Option<u32>,
    entries: Seq<ChainEntryView>,
    states: Seq<Seq<u32>>,
    done: int,
) -> bool {
    &&& 0 <= done <= entries.len()
    &&& states.len() == done + 1
    &&& forall|i: int|
        0 <= i < done ==> #[trigger] chain_step(
            math,
            effects,
            format,
            tail_length,
            entries,
            states,
            i,
        )
}

/// The effects of the first `done` entries were applied, and the effect of the
/// next entry refused what they gave with `error`.
pub open spec fn chain_failed<M: Arithmetic>(
    math: &M,
    effects: Map<Seq<char>, EffectKind>,
    format: SampleFormat,
    tail_length: Option<u32>,
    entries: Seq<ChainEntryView>,
    states: Seq<Seq<u32>>,
    done: int,
    error: ChainErrorView,
) -> bool {
    &&& done < entries.len()
    &&& chain_applied(math, effects, format, tail_length, entries, states, done)
    &&& error matches ChainErrorView::Failed { effect, failure } && effect
        == effects[entries[done].name] && effect_refused(
        math,
        effect,
        format,
        states[done],
        entries[done].arguments,
        tail_length,
        failure,
    )
}

/// Every effect leaves whole frames: applied to a stream of whole frames, it
/// gives a stream of whole frames.
pub proof fn lemma_effect_keeps_whole_frames<M: Arithmetic>(
    math: &M,
    kind: EffectKind,
    format: SampleFormat,
    xs: Seq<u32>,
    arguments: Map<Seq<char>, u32>,
    tail_length: Option<u32>,
    ys: Seq<u32>,
)
    requires
        whole_frames(format, xs.len()),
        effect_applied(math, kind, format, xs, arguments, tail_length, ys),
    ensures
        whole_frames(format, ys.len()),
{
}

/// A chain leaves whole frames: after each of its effects the stream holds
/// whole frames, if it did so before the first.
pub proof fn lemma_chain_keeps_whole_frames<M: Arithmetic>(
    math: &M,
    effects: Map<Seq<char>, EffectKind>,
    format: SampleFormat,
    tail_length: Option<u32>,
    entries: Seq<ChainEntryView>,
    states: Seq<Seq<u32>>,
    done: int,
    i: int,
)
    requires
        chain_applied(math, effects, format, tail_length, entries, states, done),
        whole_frames(format, states[0].len()),
        0 <= i <= done,
    ensures
        whole_frames(format, states[i].len()),
    decreases i,
{
    if i > 0 {
        lemma_chain_keeps_whole_frames(
            math,
            effects,
            format,
            tail_length,
            entries,
            states,
            done,
            i - 1,
        );
        assert(chain_step(math, effects, format, tail_length, entries, states, i - 1));
        lemma_effect_keeps_whole_frames(
            math,
            effects[entries[i - 1].name],
            format,
            states[i - 1],
            entries[i - 1].arguments,
            tail_length,
            states[i],
        );
    }
}

/// Checks every entry of a chain. Nothing is changed.
pub fn validate_chain(
    chain: &Vec<ChainEntry>,
    effect_map: &StringHashMap<EffectKind>,
    tail_length: &Option<u32>,
) -> (r: Result<Vec<Option<Warning>>, ChainError>)
    ensures
        match r {
            Ok(warnings) => chain_check(effect_map@, chain_view(chain@), *tail_length) == Ok::<
                Seq<Option<Warning>>,
                ChainErrorView,
            >(warnings@),
            Err(e) => chain_check(effect_map@, chain_view(chain@), *tail_length) == Err::<
                Seq<Option<Warning>>,
                ChainErrorView,
            >(e@),
        },
{
    let ghost entries = chain_view(chain@);
    let mut warnings: Vec<Option<Warning>> = Vec::new();
    let mut i: usize = 0;
    proof {
        assert(entries.take(0) =~= Seq::empty());
    }
    while i < chain.len()
        invariant
            i <= chain@.len(),
            entries == chain_view(chain@),
            chain_check(effect_map@, entries.take(i as int), *tail_length) == Ok::<
                Seq<Option<Warning>>,
                ChainErrorView,
            >(warnings@),
        decreases chain@.len() - i,
    {
        let entry: &ChainEntry = &chain[i];
        proof {
            assert(entries.take(i + 1).drop_last() =~= entries.take(i as int));
            assert(entries.take(i + 1).last() == entry@);
        }
        let kind: EffectKind = match effect_map.get(entry.name.as_str()) {
            Some(kind) => *kind,
            None => {
                proof {
                    lemma_check_fails(effect_map@, entries, i + 1, *tail_length);
                }
                return Err(ChainError::UnknownEffect { name: entry.name.clone() });
            },
        };
        match kind.validate(&entry.arguments, tail_length) {
            Ok(warning) => {
                warnings.push(warning);
            },
            Err(error) => {
                proof {
                    lemma_check_fails(effect_map@, entries, i + 1, *tail_length);
                }
                return Err(ChainError::Invalid { effect: kind, error });
            },
        }
        i += 1;
    }
    proof {
        assert(entries.take(i as int) =~= entries);
    }
    Ok(warnings)
}

/// Once a prefix of a chain fails its validation, the whole chain fails in
/// the same way.
proof fn lemma_check_fails(
    effects: Map<Seq<char>, EffectKind>,
    entries: Seq<ChainEntryView>,
    n: int,
    tail_length: Option<u32>,
)
    requires
        0 <= n <= entries.len(),
        chain_check(effects, entries.take(n), tail_length) is Err,
    ensures
        chain_check(effects, entries, tail_length) == chain_check(
            effects,
            entries.take(n),
            tail_length,
        ),
    decreases entries.len() - n,
{
    if n < entries.len() {
        assert(entries.take(n + 1).drop_last() =~= entries.take(n));
        lemma_check_fails(effects, entries, n + 1, tail_length);
    } else {
        assert(entries.take(n) =~= entries);
    }
}

/// Where a chain passes its validation, each entry names a registered effect
/// that accepts its arguments.
proof fn lemma_check_passes(
    effects: Map<Seq<char>, EffectKind>,
    entries: Seq<ChainEntryView>,
    i: int,
    tail_length: Option<u32>,
)
    requires
        0 <= i < entries.len(),
        chain_check(effects, entries, tail_length) is Ok,
    ensures
        entry_check(effects, entries[i], tail_length) is Ok,
    decreases entries.len(),
{
    if i < entries.len() - 1 {
        lemma_check_passes(effects, entries.drop_last(), i, tail_length);
    }
}

/// What `apply_entry` answers with where it fails: the name of the entry is
/// not registered, or the effect refuses the stream.
pub open spec fn entry_refused<M: Arithmetic>(
    math: &M,
    effects: Map<Seq<char>, EffectKind>,
    format: SampleFormat,
    xs: Seq<u32>,
    entry: ChainEntryView,
    tail_length: Option<u32>,
    error: ChainErrorView,
) -> bool {
    if !effects.contains_key(entry.name) {
        error == (ChainErrorView::UnknownEffect { name: entry.name })
    } else {
        error matches ChainErrorView::Failed { effect, failure } && effect == effects[entry.name]
            && effect_refused(math, effect, format, xs, entry.arguments, tail_length, failure)
    }
}

/// Applies the effect of one entry to the buffer, in place. Where it fails,
/// the buffer is left as it was.
pub fn apply_entry<M: Arithmetic>(
    buffer: &mut AudioBuffer,
    entry: &ChainEntry,
    effect_map: &StringHashMap<EffectKind>,
    tail_length: &Option<u32>,
    math: &M,
) -> (r: Result<(), ChainError>)
    ensures
        final(buffer).format == old(buffer).format,
        match r {
            Ok(()) => {
                &&& effect_map@.contains_key(entry@.name)
                &&& effect_check(effect_map@[entry@.name], entry@.arguments, *tail_length) is Ok
                &&& effect_applied(
                    math,
                    effect_map@[entry@.name],
                    old(buffer).format,
                    old(buffer).samples@,
                    entry@.arguments,
                    *tail_length,
                    final(buffer).samples@,
                )
            },
            Err(e) => {
                &&& final(buffer).samples@ == old(buffer).samples@
                &&& entry_refused(
                    math,
                    effect_map@,
                    old(buffer).format,
                    old(buffer).samples@,
                    entry@,
                    *tail_length,
                    e@,
                )
            },
        },
{
    let kind: EffectKind = match effect_map.get(entry.name.as_str()) {
        Some(kind) => *kind,
        None => {
            return Err(ChainError::UnknownEffect { name: entry.name.clone() });
        },
    };
    match kind.apply(buffer, &entry.arguments, tail_length, math) {
        Ok(()) => Ok(()),
        Err(failure) => Err(ChainError::Failed { effect: kind, failure }),
    }
}

/// Runs a chain over the buffer. Every entry is checked before the first
/// effect is applied: where one fails its check, the buffer is left as it was.
/// Then the effects are applied in the order of the chain. Where one fails,
/// the chain ends there, and the buffer holds what the effects before it made.
pub fn apply_chain<M: Arithmetic>(
    buffer: &mut AudioBuffer,
    chain: &Vec<ChainEntry>,
    effect_map: &StringHashMap<EffectKind>,
    tail_length: &Option<u32>,
    math: &M,
) -> (r: Result<Vec<Option<Warning>>, ChainError>)
    ensures
        final(buffer).format == old(buffer).format,
        match r {
            Ok(warnings) => {
                &&& chain_check(effect_map@, chain_view(chain@), *tail_length) == Ok::<
                    Seq<Option<Warning>>,
                    ChainErrorView,
                >(warnings@)
                &&& exists|states: Seq<Seq<u32>>|
                    {
                        &&& #[trigger] chain_applied(
                            math,
                            effect_map@,
                            old(buffer).format,
                            *tail_length,
                            chain_view(chain@),
                            states,
                            chain@.len() as int,
                        )
                        &&& states.first() == old(buffer).samples@
                        &&& states.last() == final(buffer).samples@
                    }
            },
            Err(e) => match chain_check(effect_map@, chain_view(chain@), *tail_length) {
                Err(refusal) => e@ == refusal && final(buffer).samples@ == old(buffer).samples@,
                Ok(_) => exists|states: Seq<Seq<u32>>, done: int|
                    {
                        &&& #[trigger] chain_failed(
                            math,
                            effect_map@,
                            old(buffer).format,
                            *tail_length,
                            chain_view(chain@),
                            states,
                            done,
                            e@,
                        )
                        &&& states.first() == old(buffer).samples@
                        &&& states.last() == final(buffer).samples@
                    },
            },
        },
{
    let warnings: Vec<Option<Warning>> = match validate_chain(chain, effect_map, tail_length) {
        Ok(warnings) => warnings,
        Err(e) => {
            return Err(e);
        },
    };
    let ghost entries = chain_view(chain@);
    let ghost format = buffer.format;
    let ghost mut states: Seq<Seq<u32>> = seq![buffer.samples@];
    let mut i: usize = 0;
    while i < chain.len()
        invariant
            i <= chain@.len(),
            entries == chain_view(chain@),
            buffer.format == format,
            format == old(buffer).format,
            chain_check(effect_map@, entries, *tail_length) is Ok,
            chain_applied(math, effect_map@, format, *tail_length, entries, states, i as int),
            states.first() == old(buffer).samples@,
            states.last() == buffer.samples@,
        decreases chain@.len() - i,
    {
        let entry: &ChainEntry = &chain[i];
        let ghost before = states;
        proof {
            lemma_check_passes(effect_map@, entries, i as int, *tail_length);
            assert(entries[i as int] == entry@);
        }
        match apply_entry(buffer, entry, effect_map, tail_length, math) {
            Ok(()) => {
                proof {
                    states = before.push(buffer.samples@);
                    assert forall|k: int| 0 <= k < i + 1 implies #[trigger] chain_step(
                        math,
                        effect_map@,
                        format,
                        *tail_length,
                        entries,
                        states,
                        k,
                    ) by {
                        if k < i {
                            assert(chain_step(
                                math,
                                effect_map@,
                                format,
                                *tail_length,
                                entries,
                                before,
                                k,
                            ));
                        }
                    }
                }
            },
            Err(e) => {
                proof {
                    assert(chain_failed(
                        math,
                        effect_map@,
                        format,
                        *tail_length,
                        entries,
                        states,
                        i as int,
                        e@,
                    ));
                }
                return Err(e);
            },
        }
        i += 1;
    }
    Ok(warnings)
}

} // verus!
