use fiis::effect_parser;
use fiis::grammar::{assemble_entry, write_argument, Syntax, WrittenArgument};
use fiis::number::LiteralError;
use fiis::parse_utils;
use fiis::types::ParseError;

fn strings(items: &[&str]) -> Vec<String> {
    items.iter().map(|s| s.to_string()).collect()
}

#[test]
fn flags_entry_with_values_and_flags() {
    let entry = effect_parser::parse_effect_spec(" Delay : Mix = 0.5 :FB=0.25: wet ").unwrap();
    assert_eq!(entry.name(), "delay");
    assert_eq!(entry.argument_count(), 3);
    assert_eq!(entry.argument("mix"), Some(Some("0.5")));
    assert_eq!(entry.argument("fb"), Some(Some("0.25")));
    assert_eq!(entry.argument("wet"), Some(None));
    assert_eq!(entry.argument("time"), None);
    assert!(entry.has_argument("wet"));
    assert!(!entry.has_argument("Mix"));
}

#[test]
fn later_key_replaces_earlier() {
    let entry = effect_parser::parse_effect_spec("gain:db=1:db=2").unwrap();
    assert_eq!(entry.argument_count(), 1);
    assert_eq!(entry.argument("db"), Some(Some("2")));
}

#[test]
fn empty_name_is_rejected() {
    assert_eq!(effect_parser::parse_effect_spec("").err(), Some(ParseError::EmptyName));
    assert_eq!(effect_parser::parse_effect_spec("  \t:db=1").err(), Some(ParseError::EmptyName));
    assert_eq!(parse_utils::parse_effect_spec(":db=1").err(), Some(ParseError::EmptyName));
    assert_eq!(ParseError::EmptyName.message(), "empty effect name");
}

#[test]
fn empty_argument_is_rejected() {
    let e = effect_parser::parse_effect_spec("Gain::db=1").err().unwrap();
    assert_eq!(e, ParseError::EmptyArgument { effect: "gain".to_string() });
    assert_eq!(e.message(), "malformed arguments for effect 'gain'");
    let e = parse_utils::parse_effect_spec("gain:").err().unwrap();
    assert_eq!(e, ParseError::EmptyArgument { effect: "gain".to_string() });
}

#[test]
fn argument_with_two_equal_signs_is_rejected() {
    let e = effect_parser::parse_effect_spec("gain:db=1=2").err().unwrap();
    assert_eq!(
        e,
        ParseError::MalformedArgument { argument: "db=1=2".to_string(), effect: "gain".to_string() }
    );
    assert_eq!(e.message(), "malformed argument 'db=1=2' for effect 'gain'");
}

#[test]
fn numbers_syntax_refuses_bare_flag() {
    let e = parse_utils::parse_effect_spec("gain:db").err().unwrap();
    assert_eq!(
        e,
        ParseError::MalformedArgument { argument: "db".to_string(), effect: "gain".to_string() }
    );
}

#[test]
fn numbers_syntax_checks_values() {
    let entry = parse_utils::parse_effect_spec("delay:mix=0.5:fb= 5E-1 :time=10").unwrap();
    assert_eq!(entry.name(), "delay");
    assert_eq!(entry.argument("mix"), Some(Some("0.5")));
    assert_eq!(entry.argument("fb"), Some(Some("5e-1")));
    assert_eq!(entry.argument("time"), Some(Some("10")));
    let bad = |fault| ParseError::BadNumber {
        argument: "mix".to_string(),
        effect: "delay".to_string(),
        fault,
    };
    let e = parse_utils::parse_effect_spec("Delay: Mix =loud").err().unwrap();
    assert_eq!(e, bad(LiteralError::Invalid));
    assert_eq!(e.message(), "invalid float literal for argument 'mix' of effect 'delay'");
    let e = parse_utils::parse_effect_spec("delay:mix=").err().unwrap();
    assert_eq!(e, bad(LiteralError::Empty));
    assert_eq!(
        e.message(),
        "cannot parse float from empty string for argument 'mix' of effect 'delay'"
    );
    assert!(e.message().starts_with(&"".parse::<f32>().err().unwrap().to_string()));
    assert!(bad(LiteralError::Invalid)
        .message()
        .starts_with(&"x".parse::<f32>().err().unwrap().to_string()));
}

#[test]
fn first_error_in_a_pair_wins() {
    let e = parse_utils::parse_effect_spec("delay:mix=x:").err().unwrap();
    assert_eq!(
        e,
        ParseError::BadNumber {
            argument: "mix".to_string(),
            effect: "delay".to_string(),
            fault: LiteralError::Invalid
        }
    );
    let e = parse_utils::parse_effect_spec("delay::mix=x").err().unwrap();
    assert_eq!(e, ParseError::EmptyArgument { effect: "delay".to_string() });
}

#[test]
fn chain_keeps_order() {
    let chain = parse_utils::parse_effects(&strings(&["gain:db=6", "softclip:db=0"])).unwrap();
    assert_eq!(chain.len(), 2);
    assert_eq!(chain[0].name(), "gain");
    assert_eq!(chain[0].argument("db"), Some(Some("6")));
    assert_eq!(chain[1].name(), "softclip");
    assert_eq!(chain[1].argument("db"), Some(Some("0")));
    assert_eq!(effect_parser::parse_effects(&strings(&[])).unwrap().len(), 0);
}

#[test]
fn chain_fails_with_first_bad_entry() {
    let e = effect_parser::parse_effects(&strings(&["gain:db=6", "", "x::"])).err().unwrap();
    assert_eq!(e, ParseError::EmptyName);
    let e = effect_parser::parse_effects(&strings(&["gain:db=6", "x::", ""])).err().unwrap();
    assert_eq!(e, ParseError::EmptyArgument { effect: "x".to_string() });
}

#[test]
fn lowercasing_follows_unicode() {
    let entry = effect_parser::parse_effect_spec("\u{3000}ÉCHO\u{2009}:Ñ=Ü").unwrap();
    assert_eq!(entry.name(), "écho");
    assert_eq!(entry.argument("ñ"), Some(Some("ü")));
}

fn written(text: &str, parts: &[&str]) -> WrittenArgument {
    WrittenArgument { text: text.to_string(), parts: strings(parts) }
}

#[test]
fn assemble_refuses_an_empty_name() {
    let e = assemble_entry(Syntax::Flags, String::new(), &vec![written("db=1", &["db", "1"])]);
    assert_eq!(e.err(), Some(ParseError::EmptyName));
    let e = assemble_entry(Syntax::Numbers, String::new(), &vec![]);
    assert_eq!(e.err(), Some(ParseError::EmptyName));
}

#[test]
fn assemble_places_arguments_in_order() {
    let arguments = vec![
        written("Mix = 0.5", &["mix", "0.5"]),
        written("wet", &["wet"]),
        written("mix=1", &["mix", "1"]),
        written("note=loud", &["note", "loud"]),
    ];
    let entry = assemble_entry(Syntax::Flags, "delay".to_string(), &arguments).ok().unwrap();
    assert_eq!(entry.name(), "delay");
    assert_eq!(entry.argument_count(), 3);
    assert_eq!(entry.argument("mix"), Some(Some("1")));
    assert_eq!(entry.argument("wet"), Some(None));
    assert_eq!(entry.argument("note"), Some(Some("loud")));
    let none = assemble_entry(Syntax::Numbers, "gain".to_string(), &vec![]).ok().unwrap();
    assert_eq!(none.name(), "gain");
    assert_eq!(none.argument_count(), 0);
}

#[test]
fn assemble_reports_the_first_argument_that_fails() {
    let effect = || "delay".to_string();
    let arguments = vec![
        written("mix=0.5", &["mix", "0.5"]),
        written("", &[""]),
        written("a=b=c", &["a", "b", "c"]),
    ];
    assert_eq!(
        assemble_entry(Syntax::Flags, effect(), &arguments).err(),
        Some(ParseError::EmptyArgument { effect: effect() })
    );
    let arguments = vec![written("a=b=c", &["a", "b", "c"]), written("", &[""])];
    assert_eq!(
        assemble_entry(Syntax::Flags, effect(), &arguments).err(),
        Some(ParseError::MalformedArgument { argument: "a=b=c".to_string(), effect: effect() })
    );
    let arguments = vec![written("wet", &["wet"])];
    assert_eq!(
        assemble_entry(Syntax::Numbers, effect(), &arguments).err(),
        Some(ParseError::MalformedArgument { argument: "wet".to_string(), effect: effect() })
    );
    let arguments = vec![written("mix=1", &["mix", "1"]), written("fb=much", &["fb", "much"])];
    assert_eq!(
        assemble_entry(Syntax::Numbers, effect(), &arguments).err(),
        Some(ParseError::BadNumber {
            argument: "fb".to_string(),
            effect: effect(),
            fault: LiteralError::Invalid
        })
    );
    assert!(assemble_entry(Syntax::Flags, effect(), &arguments).is_ok());
    let arguments = vec![written("fb=", &["fb", ""])];
    assert_eq!(
        assemble_entry(Syntax::Numbers, effect(), &arguments).err(),
        Some(ParseError::BadNumber {
            argument: "fb".to_string(),
            effect: effect(),
            fault: LiteralError::Empty
        })
    );
}

#[test]
fn write_argument_takes_a_piece_apart() {
    let piece: Vec<char> = " Mix = 0.5E1 ".chars().collect();
    let argument = write_argument(&piece);
    assert_eq!(argument.text, " Mix = 0.5E1 ");
    assert_eq!(argument.parts, strings(&["mix", "0.5e1"]));
    let bare = write_argument(&"WET".chars().collect());
    assert_eq!(bare.text, "WET");
    assert_eq!(bare.parts, strings(&["wet"]));
    let empty = write_argument(&Vec::new());
    assert_eq!(empty.text, "");
    assert_eq!(empty.parts, strings(&[""]));
}
