//! The data that the engine passes around: the sample buffer and its format,
//! effect-chain entries, argument sets, and the errors.
use crate::number::LiteralError;
use vstd::hash_map::StringHashMap;
use vstd::prelude::*;
use vstd::string::*;

verus! {

/// How the samples of a file are encoded.
#[derive(Clone, Copy, Debug, PartialEq, Eq, Structural)]
pub enum SampleEncoding {
    /// Signed integers.
    Int,
    /// Floating-point numbers.
    Float,
}

/// The format of a sample stream. It is fixed when a file is decoded and is
/// consumed again when the stream is encoded; no effect changes it.
#[derive(Clone, Copy, Debug, PartialEq, Eq, Structural)]
pub struct SampleFormat {
    /// Frames per second.
    pub sample_rate: u32,
    /// Samples per frame.
    pub channels: u16,
    /// Width of a sample in the file.
    pub bits_per_sample: u16,
    /// Kind of number that a sample is in the file.
    pub encoding: SampleEncoding,
}

impl SampleFormat {
    /// The format is one that the engine works on: a positive rate, at least
    /// one channel, and 16 or 32 bits per sample.
    pub open spec fn supported(&self) -> bool {
        &&& self.sample_rate > 0
        &&& self.channels > 0
        &&& (self.bits_per_sample == 16 || self.bits_per_sample == 32)
    }

    /// Tells whether the engine works on this format.
    pub fn is_supported(&self) -> (r: bool)
        ensures
            r == self.supported(),
    {
        self.sample_rate > 0 && self.channels > 0 && (self.bits_per_sample == 16
            || self.bits_per_sample == 32)
    }
}

/// A sample stream and its format. The samples are binary32 bit patterns,
/// interleaved by channel: full scale is the range from -1 to 1, and an effect
/// may leave a sample outside it.
pub struct AudioBuffer {
    pub format: SampleFormat,
    pub samples: Vec<u32>,
}

/// A stream of `len` samples holds whole frames in a supported format.
pub open spec fn whole_frames(format: SampleFormat, len: nat) -> bool {
    &&& format.supported()
    &&& len % (format.channels as nat) == 0
}

impl AudioBuffer {
    /// The stream holds whole frames in a supported format.
    pub open spec fn wf(&self) -> bool {
        whole_frames(self.format, self.samples@.len())
    }

    /// Tells whether the stream holds whole frames in a supported format.
    pub fn is_wf(&self) -> (r: bool)
        ensures
            r == self.wf(),
    {
        self.format.is_supported() && self.samples.len() % (self.format.channels as usize) == 0
    }

    /// Makes a buffer of a stream, if the format is supported and the stream
    /// holds whole frames.
    pub fn new(format: SampleFormat, samples: Vec<u32>) -> (r: Option<AudioBuffer>)
        ensures
            r is Some <==> format.supported() && samples@.len() % (format.channels as nat) == 0,
            r matches Some(buffer) ==> buffer.wf() && buffer.format == format && buffer.samples@
                == samples@,
    {
        if format.is_supported() && samples.len() % (format.channels as usize) == 0 {
            Some(AudioBuffer { format, samples })
        } else {
            None
        }
    }

    /// Number of whole frames in the stream; zero where the format has no
    /// channel.
    pub fn frames(&self) -> (n: usize)
        ensures
            self.format.channels > 0 ==> n == self.samples@.len() / (self.format.channels as nat),
            self.format.channels == 0 ==> n == 0,
            self.wf() ==> n * self.format.channels == self.samples@.len(),
    {
        let channels: usize = self.format.channels as usize;
        if channels == 0 {
            return 0;
        }
        let n: usize = self.samples.len() / channels;
        proof {
            let len = self.samples@.len() as int;
            let c = channels as int;
            assert(len == c * (len / c) + len % c) by (nonlinear_arith)
                requires
                    c > 0,
            ;
            assert(n * c == c * (len / c)) by (nonlinear_arith)
                requires
                    n == len / c,
            ;
        }
        n
    }
}

/// One entry of an effect chain: the name of an effect and its arguments as
/// they were written. An argument written without a value is kept as `None`.
pub struct EffectSpec {
    pub effect_name: String,
    pub arguments: StringHashMap<Option<String>>,
}

/// What an `EffectSpec` stands for.
pub struct EffectSpecView {
    pub effect_name: Seq<char>,
    pub arguments: Map<Seq<char>, Option<Seq<char>>>,
}

/// The text of an optional value.
pub open spec fn value_view(v: Option<String>) -> Option<Seq<char>> {
    match v {
        Some(s) => Some(s@),
        None => None,
    }
}

/// The written arguments, with each value as text.
pub open spec fn arguments_view(m: Map<Seq<char>, Option<String>>) -> Map<
    Seq<char>,
    Option<Seq<char>>,
> {
    Map::new(|k: Seq<char>| m.contains_key(k), |k: Seq<char>| value_view(m[k]))
}

impl View for EffectSpec {
    type V = EffectSpecView;

    open spec fn view(&self) -> EffectSpecView {
        EffectSpecView {
            effect_name: self.effect_name@,
            arguments: arguments_view(self.arguments@),
        }
    }
}

impl EffectSpec {
    /// The name of the effect.
    pub fn name(&self) -> (r: &str)
        ensures
            r@ == self@.effect_name,
    {
        self.effect_name.as_str()
    }

    /// Number of distinct argument names.
    pub fn argument_count(&self) -> (n: usize)
        ensures
            n == self@.arguments.dom().len(),
    {
        broadcast use vstd::hash_map::group_hash_map_axioms;

        assert(self@.arguments.dom() =~= self.arguments@.dom());
        self.arguments.len()
    }

    /// Tells whether an argument of that name was written.
    pub fn has_argument(&self, key: &str) -> (r: bool)
        ensures
            r == self@.arguments.contains_key(key@),
    {
        self.arguments.contains_key(key)
    }

    /// The value written for an argument: `None` where the name was not
    /// written, `Some(None)` where it was written without a value.
    pub fn argument(&self, key: &str) -> (r: Option<Option<&str>>)
        ensures
            match r {
                None => !self@.arguments.contains_key(key@),
                Some(None) => self@.arguments.contains_key(key@) && self@.arguments[key@]
                    is None,
                Some(Some(text)) => self@.arguments.contains_key(key@) && self@.arguments[key@]
                    == Some(text@),
            },
    {
        match self.arguments.get(key) {
            None => None,
            Some(None) => Some(None),
            Some(Some(text)) => Some(Some(text.as_str())),
        }
    }
}

/// The numeric arguments of one effect: a value for each name, as a binary32
/// bit pattern. The order in which they were written plays no part.
pub struct ArgumentSet {
    pub values: StringHashMap<u32>,
}

impl View for ArgumentSet {
    type V = Map<Seq<char>, u32>;

    open spec fn view(&self) -> Map<Seq<char>, u32> {
        self.values@
    }
}

impl ArgumentSet {
    /// A set without arguments.
    pub fn new() -> (r: ArgumentSet)
        ensures
            r@ == Map::<Seq<char>, u32>::empty(),
    {
        ArgumentSet { values: StringHashMap::new() }
    }

    /// Gives the argument `key` the value `value`, in place of any value that
    /// it had.
    pub fn insert(&mut self, key: &str, value: u32)
        ensures
            final(self)@ == old(self)@.insert(key@, value),
    {
        self.values.insert(String::from_str(key), value);
    }

    /// The value of the argument `key`, if the set has one.
    pub fn get(&self, key: &str) -> (r: Option<u32>)
        ensures
            r == if self@.contains_key(key@) {
                Some(self@[key@])
            } else {
                None
            },
    {
        match self.values.get(key) {
            Some(value) => Some(*value),
            None => None,
        }
    }
}

/// The effects of the engine.
#[derive(Clone, Copy, Debug, PartialEq, Eq, Structural)]
pub enum EffectKind {
    /// Feedback delay.
    Delay,
    /// Peaking equalizer band.
    EqBand,
    /// Band-pass filter.
    BandPass,
    /// Low-shelf filter.
    LowShelf,
    /// High-shelf filter.
    HighShelf,
    /// Gain in decibels.
    Gain,
    /// Soft clipping.
    Softclip,
    /// Peak normalization.
    Normalize,
}

/// The arguments that effects take.
#[derive(Clone, Copy, Debug, PartialEq, Eq, Structural)]
pub enum Argument {
    Mix,
    Feedback,
    Time,
    Db,
    Frequency,
    Q,
}

/// Why the arguments of an effect are refused.
#[derive(Clone, Copy, Debug, PartialEq, Eq, Structural)]
pub enum ValidationError {
    /// The effect needs an argument that was not given.
    Missing { effect: EffectKind, argument: Argument },
    /// The feedback of a delay is 1 or more and no tail length was given: the
    /// echo would never die away.
    TailRequired,
    /// The time of a delay is less than 1 millisecond.
    TimeTooShort,
    /// The mix of a delay is negative.
    NegativeMix,
    /// The feedback of a delay is negative.
    NegativeFeedback,
    /// The frequency of a filter is not a positive finite number.
    BadFrequency,
    /// The quality of a filter is not a positive finite number.
    BadQ,
}

/// What the user should know of arguments that are accepted.
#[derive(Clone, Copy, Debug, PartialEq, Eq, Structural)]
pub enum Warning {
    /// The feedback of a delay is close to 1 and no tail length was given:
    /// the result will take long and be large.
    LongTail,
}

/// Why an effect could not be applied. The buffer is then as it was.
#[derive(Clone, Copy, Debug, PartialEq, Eq, Structural)]
pub enum ProcessingError {
    /// The arguments do not pass the effect's validation.
    Rejected(ValidationError),
    /// The buffer does not hold whole frames in a supported format.
    MalformedBuffer,
    /// The delay time comes to less than one sample.
    EmptyDelayLine,
    /// The delay time comes to more samples than a delay line may hold.
    DelayLineTooLong,
    /// The stream with its tail would be longer than a buffer may be.
    StreamTooLong,
}

/// The name by which a chain refers to an effect.
pub open spec fn kind_name(kind: EffectKind) -> Seq<char> {
    match kind {
        EffectKind::Delay => "delay"@,
        EffectKind::EqBand => "eqband"@,
        EffectKind::BandPass => "bandpass"@,
        EffectKind::LowShelf => "lowshelf"@,
        EffectKind::HighShelf => "highshelf"@,
        EffectKind::Gain => "gain"@,
        EffectKind::Softclip => "softclip"@,
        EffectKind::Normalize => "normalize"@,
    }
}

/// The key under which an argument is written.
pub open spec fn argument_key(argument: Argument) -> Seq<char> {
    match argument {
        Argument::Mix => "mix"@,
        Argument::Feedback => "fb"@,
        Argument::Time => "time"@,
        Argument::Db => "db"@,
        Argument::Frequency => "freq"@,
        Argument::Q => "q"@,
    }
}

/// The message of a validation error.
pub open spec fn validation_message(e: ValidationError) -> Seq<char> {
    match e {
        ValidationError::Missing { effect, argument } => "missing "@ + kind_name(effect)
            + " argument '"@ + argument_key(argument) + "' (add '"@ + argument_key(argument)
            + "=x' to '"@ + kind_name(effect) + ":')"@,
        ValidationError::TailRequired =>
            "tail length (--tail, -t) is required for delay feedback >= 1 to avoid infinite feedback cycles"@,
        ValidationError::TimeTooShort => "delay time must be >= 1"@,
        ValidationError::NegativeMix => "delay mix must be >= 0"@,
        ValidationError::NegativeFeedback => "delay feedback must be >= 0"@,
        ValidationError::BadFrequency => "filter frequency must be a positive number"@,
        ValidationError::BadQ => "filter q must be a positive number"@,
    }
}

/// The message of a warning.
pub open spec fn warning_message(w: Warning) -> Seq<char> {
    match w {
        Warning::LongTail =>
            "delay feedback level ~1 was requested: processing may take a while and your file may be quite large"@,
    }
}

/// The message of a processing error.
pub open spec fn processing_message(e: ProcessingError) -> Seq<char> {
    match e {
        ProcessingError::Rejected(inner) => validation_message(inner),
        ProcessingError::MalformedBuffer => "the sample stream does not hold whole frames"@,
        ProcessingError::EmptyDelayLine => "delay time is shorter than one sample"@,
        ProcessingError::DelayLineTooLong => "delay time is too long"@,
        ProcessingError::StreamTooLong => "the stream with its tail is too long"@,
    }
}

impl EffectKind {
    /// The name by which a chain refers to the effect.
    pub fn name(&self) -> (r: &'static str)
        ensures
            r@ == kind_name(*self),
    {
        match self {
            EffectKind::Delay => "delay",
            EffectKind::EqBand => "eqband",
            EffectKind::BandPass => "bandpass",
            EffectKind::LowShelf => "lowshelf",
            EffectKind::HighShelf => "highshelf",
            EffectKind::Gain => "gain",
            EffectKind::Softclip => "softclip",
            EffectKind::Normalize => "normalize",
        }
    }
}

impl Argument {
    /// The key under which the argument is written.
    pub fn key(&self) -> (r: &'static str)
        ensures
            r@ == argument_key(*self),
    {
        match self {
            Argument::Mix => "mix",
            Argument::Feedback => "fb",
            Argument::Time => "time",
            Argument::Db => "db",
            Argument::Frequency => "freq",
            Argument::Q => "q",
        }
    }
}

impl ValidationError {
    /// The message of the error: it names the effect and the argument.
    pub fn message(&self) -> (r: String)
        ensures
            r@ == validation_message(*self),
    {
        match self {
            ValidationError::Missing { effect, argument } => {
                let mut r: String = String::from_str("missing ");
                r.append(effect.name());
                r.append(" argument '");
                r.append(argument.key());
                r.append("' (add '");
                r.append(argument.key());
                r.append("=x' to '");
                r.append(effect.name());
                r.append(":')");
                r
            },
            ValidationError::TailRequired => String::from_str(
                "tail length (--tail, -t) is required for delay feedback >= 1 to avoid infinite feedback cycles",
            ),
            ValidationError::TimeTooShort => String::from_str("delay time must be >= 1"),
            ValidationError::NegativeMix => String::from_str("delay mix must be >= 0"),
            ValidationError::NegativeFeedback => String::from_str("delay feedback must be >= 0"),
            ValidationError::BadFrequency => String::from_str(
                "filter frequency must be a positive number",
            ),
            ValidationError::BadQ => String::from_str("filter q must be a positive number"),
        }
    }
}

impl Warning {
    /// The message of the warning.
    pub fn message(&self) -> (r: String)
        ensures
            r@ == warning_message(*self),
    {
        match self {
            Warning::LongTail => String::from_str(
                "delay feedback level ~1 was requested: processing may take a while and your file may be quite large",
            ),
        }
    }
}

impl ProcessingError {
    /// The message of the error.
    pub fn message(&self) -> (r: String)
        ensures
            r@ == processing_message(*self),
    {
        match self {
            ProcessingError::Rejected(inner) => inner.message(),
            ProcessingError::MalformedBuffer => String::from_str(
                "the sample stream does not hold whole frames",
            ),
            ProcessingError::EmptyDelayLine => String::from_str(
                "delay time is shorter than one sample",
            ),
            ProcessingError::DelayLineTooLong => String::from_str("delay time is too long"),
            ProcessingError::StreamTooLong => String::from_str(
                "the stream with its tail is too long",
            ),
        }
    }
}

/// Why the text of an effect chain could not be read.
#[derive(Debug, PartialEq, Eq)]
pub enum ParseError {
    /// Nothing but whitespace stands where the effect's name belongs.
    EmptyName,
    /// Two colons follow each other, or a colon ends the entry.
    EmptyArgument { effect: String },
    /// An argument does not have the form that the grammar asks for.
    MalformedArgument { argument: String, effect: String },
    /// The value of an argument is no number.
    BadNumber { argument: String, effect: String, fault: LiteralError },
}

/// What a `ParseError` stands for.
pub enum ParseErrorView {
    EmptyName,
    EmptyArgument { effect: Seq<char> },
    MalformedArgument { argument: Seq<char>, effect: Seq<char> },
    BadNumber { argument: Seq<char>, effect: Seq<char>, fault: LiteralError },
}

impl View for ParseError {
    type V = ParseErrorView;

    open spec fn view(&self) -> ParseErrorView {
        match self {
            ParseError::EmptyName => ParseErrorView::EmptyName,
            ParseError::EmptyArgument { effect } => ParseErrorView::EmptyArgument {
                effect: effect@,
            },
            ParseError::MalformedArgument { argument, effect } => {
                ParseErrorView::MalformedArgument { argument: argument@, effect: effect@ }
            },
            ParseError::BadNumber { argument, effect, fault } => ParseErrorView::BadNumber {
                argument: argument@,
                effect: effect@,
                fault: *fault,
            },
        }
    }
}

/// The message of an error, as the user reads it.
pub open spec fn parse_error_message(e: ParseErrorView) -> Seq<char> {
    match e {
        ParseErrorView::EmptyName => "empty effect name"@,
        ParseErrorView::EmptyArgument { effect } => "malformed arguments for effect '"@ + effect
            + "'"@,
        ParseErrorView::MalformedArgument { argument, effect } => "malformed argument '"@
            + argument + "' for effect '"@ + effect + "'"@,
        ParseErrorView::BadNumber { argument, effect, fault } => literal_message(fault)
            + " for argument '"@ + argument + "' of effect '"@ + effect + "'"@,
    }
}

/// What is wrong with a text that is no number, in words.
pub open spec fn literal_message(fault: LiteralError) -> Seq<char> {
    match fault {
        LiteralError::Empty => "cannot parse float from empty string"@,
        LiteralError::Invalid => "invalid float literal"@,
    }
}

impl ParseError {
    /// The message of the error: it names the effect, and the argument where
    /// one is at fault.
    pub fn message(&self) -> (r: String)
        ensures
            r@ == parse_error_message(self@),
    {
        match self {
            ParseError::EmptyName => String::from_str("empty effect name"),
            ParseError::EmptyArgument { effect } => {
                let mut r: String = String::from_str("malformed arguments for effect '");
                r.append(effect.as_str());
                r.append("'");
                r
            },
            ParseError::MalformedArgument { argument, effect } => {
                let mut r: String = String::from_str("malformed argument '");
                r.append(argument.as_str());
                r.append("' for effect '");
                r.append(effect.as_str());
                r.append("'");
                r
            },
            ParseError::BadNumber { argument, effect, fault } => {
                let mut r: String = match fault {
                    LiteralError::Empty => String::from_str("cannot parse float from empty string"),
                    LiteralError::Invalid => String::from_str("invalid float literal"),
                };
                r.append(" for argument '");
                r.append(argument.as_str());
                r.append("' of effect '");
                r.append(effect.as_str());
                r.append("'");
                r
            },
        }
    }
}

} // verus!
