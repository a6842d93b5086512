//! The effect-chain grammar with numeric arguments: an argument is `key=value`,
//! and the value is a floating-point literal.
use crate::grammar::{
    entries_view, parse_chain, parse_entry, read_chain, read_entry, texts, Syntax,
};
use crate::types::{EffectSpec, EffectSpecView, ParseError, ParseErrorView};
use vstd::prelude::*;

verus! {

/// Reads one entry of an effect chain.
pub fn parse_effect_spec(input: &str) -> (r: Result<EffectSpec, ParseError>)
    ensures
        match r {
            Ok(entry) => read_entry(Syntax::Numbers, input@) == Ok::<EffectSpecView, ParseErrorView>(
                entry@,
            ),
            Err(e) => read_entry(Syntax::Numbers, input@) == Err::<EffectSpecView, ParseErrorView>(
                e@,
            ),
        },
{
    parse_entry(input, Syntax::Numbers)
}

/// Reads an effect chain, one entry per string. Fails with the error of the
/// first entry that cannot be read.
pub fn parse_effects(input: &Vec<String>) -> (r: Result<Vec<EffectSpec>, ParseError>)
    ensures
        match r {
            Ok(entries) => read_chain(Syntax::Numbers, texts(input@)) == Ok::<
                Seq<EffectSpecView>,
                ParseErrorView,
            >(entries_view(entries@)),
            Err(e) => read_chain(Syntax::Numbers, texts(input@)) == Err::<
                Seq<EffectSpecView>,
                ParseErrorView,
            >(e@),
        },
{
    parse_chain(input, Syntax::Numbers)
}

} // verus!
