//! The grammar of a decimal floating-point literal.
//!
//! ```text
//! Float  ::= Sign? ( 'inf' | 'infinity' | 'nan' | Number )
//! Number ::= ( Digit+ | Digit+ '.' Digit* | Digit* '.' Digit+ ) Exp?
//! Exp    ::= 'e' Sign? Digit+
//! Sign   ::= [+-]
//! Digit  ::= [0-9]
//! ```
//!
//! Letters match in either case. This is the grammar that the standard
//! library's conversions from text to a floating-point number accept, so a text
//! that passes here converts without error.
use vstd::prelude::*;

verus! {

/// Why a text is no floating-point literal.
#[derive(Clone, Copy, Debug, PartialEq, Eq, Structural)]
pub enum LiteralError {
    /// The text is empty.
    Empty,
    /// The text is not empty and does not match the grammar.
    Invalid,
}

/// An ASCII decimal digit.
pub open spec fn is_digit(c: char) -> bool {
    0x30 <= c as u32 <= 0x39
}

/// A plus or minus sign.
pub open spec fn is_sign(c: char) -> bool {
    c == '+' || c == '-'
}

/// The character is the lower-case ASCII letter `letter` or its upper-case form.
pub open spec fn is_letter(c: char, letter: char) -> bool {
    c == letter || c as u32 + 0x20 == letter as u32
}

/// Number of digits at the start of the text.
pub open spec fn digits(s: Seq<char>) -> int
    decreases s.len(),
{
    if s.len() > 0 && is_digit(s[0]) {
        1 + digits(s.drop_first())
    } else {
        0
    }
}

/// The text without a leading sign.
pub open spec fn unsigned(s: Seq<char>) -> Seq<char> {
    if s.len() > 0 && is_sign(s[0]) {
        s.drop_first()
    } else {
        s
    }
}

/// The text spells `word`, a word of lower-case ASCII letters, in any case.
pub open spec fn spells(s: Seq<char>, word: Seq<char>) -> bool {
    s.len() == word.len() && forall|i: int| 0 <= i < s.len() ==> is_letter(s[i], #[trigger] word[i])
}

/// `inf`, `infinity` or `nan`.
pub open spec fn is_special(s: Seq<char>) -> bool {
    ||| spells(s, seq!['i', 'n', 'f'])
    ||| spells(s, seq!['i', 'n', 'f', 'i', 'n', 'i', 't', 'y'])
    ||| spells(s, seq!['n', 'a', 'n'])
}

/// What may follow the mantissa: nothing, or an exponent.
pub open spec fn is_exponent_or_end(s: Seq<char>) -> bool {
    s.len() == 0 || (is_letter(s[0], 'e') && {
        let t = unsigned(s.drop_first());
        t.len() > 0 && digits(t) == t.len()
    })
}

/// `Number` of the grammar.
pub open spec fn is_number(s: Seq<char>) -> bool {
    let whole = digits(s);
    let rest = s.skip(whole);
    if rest.len() > 0 && rest[0] == '.' {
        let fraction = digits(rest.drop_first());
        whole + fraction >= 1 && is_exponent_or_end(rest.drop_first().skip(fraction))
    } else {
        whole >= 1 && is_exponent_or_end(rest)
    }
}

/// `Float` of the grammar.
pub open spec fn is_float_literal(s: Seq<char>) -> bool {
    is_special(unsigned(s)) || is_number(unsigned(s))
}

/// What `check_literal` answers for a text.
pub open spec fn literal_check(s: Seq<char>) -> Result<(), LiteralError> {
    if s.len() == 0 {
        Err(LiteralError::Empty)
    } else if is_float_literal(s) {
        Ok(())
    } else {
        Err(LiteralError::Invalid)
    }
}

proof fn lemma_digits(s: Seq<char>, n: int)
    requires
        0 <= n <= s.len(),
        forall|k: int| 0 <= k < n ==> is_digit(s[k]),
        n < s.len() ==> !is_digit(s[n]),
    ensures
        digits(s) == n,
    decreases n,
{
    if n > 0 {
        let rest = s.drop_first();
        assert forall|k: int| 0 <= k < n - 1 implies is_digit(rest[k]) by {
            assert(rest[k] == s[k + 1]);
        }
        lemma_digits(rest, n - 1);
    }
}

fn digit(c: char) -> (r: bool)
    ensures
        r == is_digit(c),
{
    let u: u32 = c as u32;
    0x30 <= u && u <= 0x39
}

fn letter(c: char, l: char) -> (r: bool)
    ensures
        r == is_letter(c, l),
{
    let u: u32 = c as u32;
    let w: u32 = l as u32;
    u == w || u + 0x20 == w
}

/// Index of the first character at or after `from` that is no digit.
fn skip_digits(v: &Vec<char>, from: usize) -> (to: usize)
    requires
        from <= v@.len(),
    ensures
        from <= to <= v@.len(),
        to - from == digits(v@.skip(from as int)),
{
    let n: usize = v.len();
    let mut i: usize = from;
    while i < n && digit(v[i])
        invariant
            n == v@.len(),
            from <= i <= n,
            forall|k: int| from <= k < i ==> is_digit(v@[k]),
        decreases n - i,
    {
        i += 1;
    }
    proof {
        let rest = v@.skip(from as int);
        assert forall|k: int| 0 <= k < i - from implies is_digit(rest[k]) by {
            assert(rest[k] == v@[k + from]);
        }
        if i < n {
            assert(rest[i - from] == v@[i as int]);
        }
        lemma_digits(rest, i - from);
    }
    i
}

/// Tells whether the characters from `from` on spell one of the three words.
fn special_from(v: &Vec<char>, from: usize) -> (r: bool)
    requires
        from <= v@.len(),
    ensures
        r == is_special(v@.skip(from as int)),
{
    let n: usize = v.len() - from;
    let ghost s = v@.skip(from as int);
    assert(forall|k: int| 0 <= k < s.len() ==> s[k] == v@[k + from]);
    if n == 3 {
        let inf: bool = letter(v[from], 'i') && letter(v[from + 1], 'n') && letter(
            v[from + 2],
            'f',
        );
        let nan: bool = letter(v[from], 'n') && letter(v[from + 1], 'a') && letter(
            v[from + 2],
            'n',
        );
        proof {
            let w1 = seq!['i', 'n', 'f'];
            let w2 = seq!['n', 'a', 'n'];
            assert(w1[0] == 'i' && w1[1] == 'n' && w1[2] == 'f');
            assert(w2[0] == 'n' && w2[1] == 'a' && w2[2] == 'n');
            assert(inf == spells(s, w1));
            assert(nan == spells(s, w2));
        }
        inf || nan
    } else if n == 8 {
        let r: bool = letter(v[from], 'i') && letter(v[from + 1], 'n') && letter(v[from + 2], 'f')
            && letter(v[from + 3], 'i') && letter(v[from + 4], 'n') && letter(v[from + 5], 'i')
            && letter(v[from + 6], 't') && letter(v[from + 7], 'y');
        proof {
            let w = seq!['i', 'n', 'f', 'i', 'n', 'i', 't', 'y'];
            assert(w[0] == 'i' && w[1] == 'n' && w[2] == 'f' && w[3] == 'i' && w[4] == 'n' && w[5]
                == 'i' && w[6] == 't' && w[7] == 'y');
            assert(r == spells(s, w));
        }
        r
    } else {
        false
    }
}

/// Tells whether the characters from `from` on are empty or an exponent.
fn exponent_from(v: &Vec<char>, from: usize) -> (r: bool)
    requires
        from <= v@.len(),
    ensures
        r == is_exponent_or_end(v@.skip(from as int)),
{
    let n: usize = v.len();
    let ghost s = v@.skip(from as int);
    if from == n {
        return true;
    }
    assert(s[0] == v@[from as int]);
    if !letter(v[from], 'e') {
        return false;
    }
    let mut i: usize = from + 1;
    assert(s.drop_first() =~= v@.skip(i as int));
    if i < n && (v[i] == '+' || v[i] == '-') {
        assert(v@.skip(i as int)[0] == v@[i as int]);
        assert(v@.skip(i as int).drop_first() =~= v@.skip(i + 1));
        i += 1;
    } else if i < n {
        assert(v@.skip(i as int)[0] == v@[i as int]);
    }
    assert(unsigned(s.drop_first()) == v@.skip(i as int));
    let to: usize = skip_digits(v, i);
    i < n && to == n
}

/// Tells whether the characters from `from` on are a `Number` of the grammar.
fn number_from(v: &Vec<char>, from: usize) -> (r: bool)
    requires
        from <= v@.len(),
    ensures
        r == is_number(v@.skip(from as int)),
{
    let n: usize = v.len();
    let ghost s = v@.skip(from as int);
    let dot: usize = skip_digits(v, from);
    assert(s.skip(dot - from) =~= v@.skip(dot as int));
    if dot < n && v[dot] == '.' {
        assert(v@.skip(dot as int)[0] == v@[dot as int]);
        assert(v@.skip(dot as int).drop_first() =~= v@.skip(dot + 1));
        let end: usize = skip_digits(v, dot + 1);
        assert(v@.skip(dot + 1).skip(end - (dot + 1)) =~= v@.skip(end as int));
        (dot - from) + (end - (dot + 1)) >= 1 && exponent_from(v, end)
    } else {
        if dot < n {
            assert(v@.skip(dot as int)[0] == v@[dot as int]);
        }
        dot > from && exponent_from(v, dot)
    }
}

/// Tells whether the text is a floating-point literal.
pub fn float_literal(v: &Vec<char>) -> (r: bool)
    ensures
        r == is_float_literal(v@),
{
    let n: usize = v.len();
    let from: usize = if n > 0 && (v[0] == '+' || v[0] == '-') {
        1
    } else {
        0
    };
    proof {
        assert(v@.skip(0) =~= v@);
        assert(v@.drop_first() =~= v@.skip(1));
        assert(unsigned(v@) == v@.skip(from as int));
    }
    special_from(v, from) || number_from(v, from)
}

/// Checks a text against the grammar, and says in which way it fails.
pub fn check_literal(v: &Vec<char>) -> (r: Result<(), LiteralError>)
    ensures
        r == literal_check(v@),
{
    if v.len() == 0 {
        Err(LiteralError::Empty)
    } else if float_literal(v) {
        Ok(())
    } else {
        Err(LiteralError::Invalid)
    }
}

} // verus!
