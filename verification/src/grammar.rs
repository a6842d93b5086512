//! The text form of an effect chain.
//!
//! An entry is `name:argument:argument...`, and a chain is a list of entries.
//! Names, keys and values are trimmed and lower-cased. A key written twice
//! keeps what was written last. Two syntaxes of an argument are in use:
//!
//! - `Syntax::Flags`: `key=value`, or a bare `key`, which is kept without a
//!   value. A value may be any text.
//! - `Syntax::Numbers`: `key=value` only, and the value is a floating-point
//!   literal.
use crate::number::{check_literal, literal_check};
use crate::text::{
    chars_of, lowercase, lowercase_of, split, split_at_each, string_from_chars, trim, trimmed,
    views,
};
use crate::types::{arguments_view, EffectSpec, EffectSpecView, ParseError, ParseErrorView};
use vstd::hash_map::StringHashMap;
use vstd::prelude::*;
use vstd::string::*;

verus! {

/// The form in which the arguments of an entry are written.
#[derive(Clone, Copy, Debug, PartialEq, Eq, Structural)]
pub enum Syntax {
    /// `key=value` or a bare `key`.
    Flags,
    /// `key=value`, where the value is a number.
    Numbers,
}

/// A piece of an entry as it is stored: trimmed, then lower-cased.
pub open spec fn normal(s: Seq<char>) -> Seq<char> {
    lowercase_of(trim(s))
}

/// One argument of an entry: its text as it was written, and the parts of
/// that text between equal signs, each as it is stored.
pub struct WrittenArgument {
    pub text: String,
    pub parts: Vec<String>,
}

/// What a `WrittenArgument` stands for.
pub struct WrittenArgumentView {
    pub text: Seq<char>,
    pub parts: Seq<Seq<char>>,
}

/// The texts of a list of strings.
pub open spec fn texts(input: Seq<String>) -> Seq<Seq<char>> {
    input.map_values(|s: String| s@)
}

impl View for WrittenArgument {
    type V = WrittenArgumentView;

    open spec fn view(&self) -> WrittenArgumentView {
        WrittenArgumentView { text: self.text@, parts: texts(self.parts@) }
    }
}

/// What a list of written arguments stands for.
pub open spec fn written_views(arguments: Seq<WrittenArgument>) -> Seq<WrittenArgumentView> {
    arguments.map_values(|a: WrittenArgument| a@)
}

/// What one argument of an entry of the effect `effect` gives: its key and
/// its value, or an error. An empty text is refused. One part is a bare key,
/// which only the syntax with flags takes. Two parts are a key and a value,
/// and the syntax with numbers asks that the value be a number. Anything else
/// is refused.
pub open spec fn place_argument(
    syntax: Syntax,
    argument: WrittenArgumentView,
    effect: Seq<char>,
) -> Result<(Seq<char>, Option<Seq<char>>), ParseErrorView> {
    let parts = argument.parts;
    if argument.text.len() == 0 {
        Err(ParseErrorView::EmptyArgument { effect })
    } else if parts.len() == 1 && syntax == Syntax::Flags {
        Ok((parts[0], None))
    } else if parts.len() == 2 {
        match literal_check(parts[1]) {
            Err(fault) if syntax == Syntax::Numbers => Err(
                ParseErrorView::BadNumber { argument: parts[0], effect, fault },
            ),
            _ => Ok((parts[0], Some(parts[1]))),
        }
    } else {
        Err(ParseErrorView::MalformedArgument { argument: argument.text, effect })
    }
}

/// What the arguments of an entry give, taken from left to right: the error
/// of the first that fails, or else the map of all of them, a later one
/// replacing an earlier one of the same key.
pub open spec fn place_arguments(
    syntax: Syntax,
    arguments: Seq<WrittenArgumentView>,
    effect: Seq<char>,
) -> Result<Map<Seq<char>, Option<Seq<char>>>, ParseErrorView>
    decreases arguments.len(),
{
    if arguments.len() == 0 {
        Ok(Map::empty())
    } else {
        match place_arguments(syntax, arguments.drop_last(), effect) {
            Err(e) => Err(e),
            Ok(m) => match place_argument(syntax, arguments.last(), effect) {
                Err(e) => Err(e),
                Ok((key, value)) => Ok(m.insert(key, value)),
            },
        }
    }
}

/// The entry that a name and arguments make: the name must not be empty, and
/// every argument has to find its place.
pub open spec fn assemble(
    syntax: Syntax,
    name: Seq<char>,
    arguments: Seq<WrittenArgumentView>,
) -> Result<EffectSpecView, ParseErrorView> {
    if name.len() == 0 {
        Err(ParseErrorView::EmptyName)
    } else {
        match place_arguments(syntax, arguments, name) {
            Err(e) => Err(e),
            Ok(arguments) => Ok(EffectSpecView { effect_name: name, arguments }),
        }
    }
}

/// The argument that a piece of an entry is.
pub open spec fn written_argument(piece: Seq<char>) -> WrittenArgumentView {
    WrittenArgumentView {
        text: piece,
        parts: split(piece, '=').map_values(|part: Seq<char>| normal(part)),
    }
}

/// What one entry of a chain reads as: the pieces between colons are the name
/// and the arguments.
pub open spec fn read_entry(syntax: Syntax, input: Seq<char>) -> Result<
    EffectSpecView,
    ParseErrorView,
> {
    let pieces = split(input, ':');
    assemble(
        syntax,
        normal(pieces[0]),
        pieces.skip(1).map_values(|piece: Seq<char>| written_argument(piece)),
    )
}

/// What a chain reads as: the error of the first entry that fails, or else all
/// entries in the order in which they were written.
pub open spec fn read_chain(syntax: Syntax, inputs: Seq<Seq<char>>) -> Result<
    Seq<EffectSpecView>,
    ParseErrorView,
>
    decreases inputs.len(),
{
    if inputs.len() == 0 {
        Ok(Seq::empty())
    } else {
        match read_chain(syntax, inputs.drop_last()) {
            Err(e) => Err(e),
            Ok(entries) => match read_entry(syntax, inputs.last()) {
                Err(e) => Err(e),
                Ok(entry) => Ok(entries.push(entry)),
            },
        }
    }
}

/// What a list of entries stands for.
pub open spec fn entries_view(entries: Seq<EffectSpec>) -> Seq<EffectSpecView> {
    entries.map_values(|e: EffectSpec| e@)
}

/// Trims and lower-cases a piece of an entry.
pub fn normalized(piece: &Vec<char>) -> (r: String)
    ensures
        r@ == normal(piece@),
{
    let core: Vec<char> = trimmed(piece);
    let text: String = string_from_chars(&core);
    lowercase(text.as_str())
}

/// Makes an entry of a name and arguments that are already trimmed and
/// lower-cased.
pub fn assemble_entry(
    syntax: Syntax,
    effect_name: String,
    arguments: &Vec<WrittenArgument>,
) -> (r: Result<EffectSpec, ParseError>)
    ensures
        match r {
            Ok(entry) => assemble(syntax, effect_name@, written_views(arguments@)) == Ok::<
                EffectSpecView,
                ParseErrorView,
            >(entry@),
            Err(e) => assemble(syntax, effect_name@, written_views(arguments@)) == Err::<
                EffectSpecView,
                ParseErrorView,
            >(e@),
        },
{
    if effect_name.as_str().is_empty() {
        return Err(ParseError::EmptyName);
    }
    let ghost written = written_views(arguments@);
    let mut map: StringHashMap<Option<String>> = StringHashMap::new();
    let mut i: usize = 0;
    proof {
        assert(written.take(0) =~= Seq::empty());
        assert(arguments_view(map@) =~= Map::empty());
    }
    while i < arguments.len()
        invariant
            i <= arguments@.len(),
            written == written_views(arguments@),
            effect_name@.len() != 0,
            place_arguments(syntax, written.take(i as int), effect_name@) == Ok::<
                Map<Seq<char>, Option<Seq<char>>>,
                ParseErrorView,
            >(arguments_view(map@)),
        decreases arguments@.len() - i,
    {
        let argument: &WrittenArgument = &arguments[i];
        let ghost next = written.take(i + 1);
        proof {
            assert(next.drop_last() =~= written.take(i as int));
            assert(next.last() == argument@);
        }
        if argument.text.as_str().is_empty() {
            proof {
                assert(place_arguments(syntax, next, effect_name@) is Err);
                lemma_failed_prefix(syntax, written, i + 1, effect_name@);
            }
            return Err(ParseError::EmptyArgument { effect: effect_name });
        }
        if argument.parts.len() == 1 && matches!(syntax, Syntax::Flags) {
            let key: String = argument.parts[0].clone();
            let ghost before = map@;
            map.insert(key, None);
            assert(arguments_view(map@) =~= arguments_view(before).insert(key@, None));
        } else if argument.parts.len() == 2 {
            let key: String = argument.parts[0].clone();
            let value: String = argument.parts[1].clone();
            if matches!(syntax, Syntax::Numbers) {
                let digits: Vec<char> = chars_of(value.as_str());
                if let Err(e) = check_literal(&digits) {
                    proof {
                        assert(place_arguments(syntax, next, effect_name@) is Err);
                        lemma_failed_prefix(syntax, written, i + 1, effect_name@);
                    }
                    return Err(
                        ParseError::BadNumber { argument: key, effect: effect_name, fault: e },
                    );
                }
            }
            let ghost before = map@;
            map.insert(key, Some(value));
            assert(arguments_view(map@) =~= arguments_view(before).insert(key@, Some(value@)));
        } else {
            proof {
                assert(place_arguments(syntax, next, effect_name@) is Err);
                lemma_failed_prefix(syntax, written, i + 1, effect_name@);
            }
            return Err(
                ParseError::MalformedArgument {
                    argument: argument.text.clone(),
                    effect: effect_name,
                },
            );
        }
        i += 1;
    }
    proof {
        assert(written.take(i as int) =~= written);
    }
    Ok(EffectSpec { effect_name, arguments: map })
}

/// Takes a piece of an entry apart at its equal signs, and trims and
/// lower-cases the parts.
pub fn write_argument(piece: &Vec<char>) -> (r: WrittenArgument)
    ensures
        r@ == written_argument(piece@),
{
    let pair: Vec<Vec<char>> = split_at_each(piece, '=');
    let ghost raw = split(piece@, '=');
    let mut parts: Vec<String> = Vec::new();
    let mut i: usize = 0;
    while i < pair.len()
        invariant
            i <= pair@.len(),
            views(pair@) == raw,
            parts@.len() == i,
            forall|k: int| 0 <= k < i ==> (#[trigger] parts@[k])@ == normal(raw[k]),
        decreases pair@.len() - i,
    {
        let part: String = normalized(&pair[i]);
        proof {
            assert(raw[i as int] == pair@[i as int]@);
        }
        parts.push(part);
        i += 1;
    }
    let r = WrittenArgument { text: string_from_chars(piece), parts };
    proof {
        assert(r@.parts =~= written_argument(piece@).parts);
    }
    r
}

/// Reads one entry of an effect chain.
pub fn parse_entry(input: &str, syntax: Syntax) -> (r: Result<EffectSpec, ParseError>)
    ensures
        match r {
            Ok(entry) => read_entry(syntax, input@) == Ok::<EffectSpecView, ParseErrorView>(entry@),
            Err(e) => read_entry(syntax, input@) == Err::<EffectSpecView, ParseErrorView>(e@),
        },
{
    let chars: Vec<char> = chars_of(input);
    let buffer: Vec<Vec<char>> = split_at_each(&chars, ':');
    let ghost pieces = split(input@, ':');
    let effect_name: String = normalized(&buffer[0]);
    let mut arguments: Vec<WrittenArgument> = Vec::new();
    let mut i: usize = 1;
    while i < buffer.len()
        invariant
            1 <= i <= buffer@.len(),
            views(buffer@) == pieces,
            arguments@.len() == i - 1,
            forall|k: int|
                0 <= k < i - 1 ==> (#[trigger] arguments@[k])@ == written_argument(pieces[k + 1]),
        decreases buffer@.len() - i,
    {
        let argument: WrittenArgument = write_argument(&buffer[i]);
        proof {
            assert(pieces[i as int] == buffer@[i as int]@);
        }
        arguments.push(argument);
        i += 1;
    }
    proof {
        assert(written_views(arguments@) =~= pieces.skip(1).map_values(
            |piece: Seq<char>| written_argument(piece),
        ));
    }
    assemble_entry(syntax, effect_name, &arguments)
}

/// Reads an effect chain, one entry per string.
pub fn parse_chain(input: &Vec<String>, syntax: Syntax) -> (r: Result<Vec<EffectSpec>, ParseError>)
    ensures
        match r {
            Ok(entries) => read_chain(syntax, texts(input@)) == Ok::<Seq<EffectSpecView>, ParseErrorView>(
                entries_view(entries@),
            ),
            Err(e) => read_chain(syntax, texts(input@)) == Err::<Seq<EffectSpecView>, ParseErrorView>(e@),
        },
{
    let mut result: Vec<EffectSpec> = Vec::new();
    let mut i: usize = 0;
    let ghost inputs = texts(input@);
    proof {
        assert(inputs.take(0) =~= Seq::empty());
        assert(entries_view(result@) =~= Seq::empty());
    }
    while i < input.len()
        invariant
            i <= input@.len(),
            inputs == texts(input@),
            read_chain(syntax, inputs.take(i as int)) == Ok::<Seq<EffectSpecView>, ParseErrorView>(
                entries_view(result@),
            ),
        decreases input@.len() - i,
    {
        let ghost done = inputs.take(i as int);
        let ghost next = inputs.take(i + 1);
        proof {
            assert(next.drop_last() =~= done);
            assert(next.last() == input@[i as int]@);
        }
        match parse_entry(input[i].as_str(), syntax) {
            Ok(entry) => {
                assert(entries_view(result@.push(entry)) =~= entries_view(result@).push(entry@));
                result.push(entry);
            },
            Err(e) => {
                proof {
                    lemma_failed_chain_prefix(syntax, inputs, i + 1);
                }
                return Err(e);
            },
        }
        i += 1;
    }
    proof {
        assert(inputs.take(i as int) =~= inputs);
    }
    Ok(result)
}

/// A chain that can be read keeps its order: it has as many entries as were
/// written, and each is what its text reads as.
pub proof fn lemma_chain_keeps_order(syntax: Syntax, inputs: Seq<Seq<char>>, i: int)
    requires
        read_chain(syntax, inputs) is Ok,
        0 <= i < inputs.len(),
    ensures
        read_chain(syntax, inputs)->Ok_0.len() == inputs.len(),
        read_entry(syntax, inputs[i]) == Ok::<EffectSpecView, ParseErrorView>(
            read_chain(syntax, inputs)->Ok_0[i],
        ),
    decreases inputs.len(),
{
    let rest = inputs.drop_last();
    assert(read_chain(syntax, rest) is Ok);
    if rest.len() > 0 {
        let j = if i < rest.len() {
            i
        } else {
            0
        };
        lemma_chain_keeps_order(syntax, rest, j);
        assert(rest[j] == inputs[j]);
    } else {
        assert(read_chain(syntax, rest)->Ok_0.len() == 0);
    }
}

/// A key keeps what was written for it last: where the arguments of an entry
/// find their places, the map gives for the key of an argument the value of
/// that argument, unless a later argument has the same key.
pub proof fn lemma_last_argument_wins(
    syntax: Syntax,
    arguments: Seq<WrittenArgumentView>,
    effect: Seq<char>,
    i: int,
)
    requires
        place_arguments(syntax, arguments, effect) is Ok,
        0 <= i < arguments.len(),
        forall|j: int|
            i < j < arguments.len() ==> (#[trigger] place_argument(
                syntax,
                arguments[j],
                effect,
            ))->Ok_0.0 != place_argument(syntax, arguments[i], effect)->Ok_0.0,
    ensures
        place_argument(syntax, arguments[i], effect) is Ok,
        place_arguments(syntax, arguments, effect)->Ok_0.contains_key(
            place_argument(syntax, arguments[i], effect)->Ok_0.0,
        ),
        place_arguments(syntax, arguments, effect)->Ok_0[place_argument(
            syntax,
            arguments[i],
            effect,
        )->Ok_0.0] == place_argument(syntax, arguments[i], effect)->Ok_0.1,
    decreases arguments.len(),
{
    let rest = arguments.drop_last();
    assert(place_arguments(syntax, rest, effect) is Ok);
    assert(place_argument(syntax, arguments.last(), effect) is Ok);
    if i < rest.len() {
        assert(rest[i] == arguments[i]);
        assert forall|j: int| i < j < rest.len() implies (#[trigger] place_argument(
            syntax,
            rest[j],
            effect,
        ))->Ok_0.0 != place_argument(syntax, rest[i], effect)->Ok_0.0 by {
            assert(rest[j] == arguments[j]);
        }
        lemma_last_argument_wins(syntax, rest, effect, i);
        assert(place_argument(syntax, arguments[arguments.len() - 1], effect)->Ok_0.0
            != place_argument(syntax, arguments[i], effect)->Ok_0.0);
    }
}

/// Once a prefix of the arguments fails, the whole list fails in the same way.
proof fn lemma_failed_prefix(
    syntax: Syntax,
    arguments: Seq<WrittenArgumentView>,
    n: int,
    effect: Seq<char>,
)
    requires
        0 <= n <= arguments.len(),
        place_arguments(syntax, arguments.take(n), effect) is Err,
    ensures
        place_arguments(syntax, arguments, effect) == place_arguments(
            syntax,
            arguments.take(n),
            effect,
        ),
    decreases arguments.len() - n,
{
    if n < arguments.len() {
        let longer = arguments.take(n + 1);
        assert(longer.drop_last() =~= arguments.take(n));
        lemma_failed_prefix(syntax, arguments, n + 1, effect);
    } else {
        assert(arguments.take(n) =~= arguments);
    }
}

/// Once a prefix of a chain fails, the whole chain fails in the same way.
proof fn lemma_failed_chain_prefix(syntax: Syntax, inputs: Seq<Seq<char>>, n: int)
    requires
        0 <= n <= inputs.len(),
        read_chain(syntax, inputs.take(n)) is Err,
    ensures
        read_chain(syntax, inputs) == read_chain(syntax, inputs.take(n)),
    decreases inputs.len() - n,
{
    if n < inputs.len() {
        let longer = inputs.take(n + 1);
        assert(longer.drop_last() =~= inputs.take(n));
        lemma_failed_chain_prefix(syntax, inputs, n + 1);
    } else {
        assert(inputs.take(n) =~= inputs);
    }
}

} // verus!
