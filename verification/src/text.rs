//! Text as sequences of characters: whitespace, trimming and splitting.
use vstd::prelude::*;
use vstd::std_specs::iter::IteratorSpec;
use vstd::string::*;

verus! {

/// The characters of a string, in order.
pub fn chars_of(s: &str) -> (v: Vec<char>)
    ensures
        v@ == s@,
{
    broadcast use group_string_axioms;

    let n: usize = s.unicode_len();
    let mut v: Vec<char> = Vec::new();
    let mut it = s.chars();
    let mut i: usize = 0;
    while i < n
        invariant
            n == s@.len(),
            i == v@.len(),
            i <= n,
            v@ + it.remaining() == s@,
        decreases n - i,
    {
        let ghost before = it.remaining();
        if let Some(c) = it.next() {
            v.push(c);
            assert(v@ + it.remaining() =~= s@) by {
                assert(before =~= seq![c] + it.remaining());
            }
        }
        i += 1;
    }
    assert(v@ =~= s@);
    v
}

/// The characters that count as whitespace: those with the Unicode property
/// `White_Space`.
pub open spec fn is_space(c: char) -> bool {
    let u = c as u32;
    ||| 0x9 <= u <= 0xd
    ||| u == 0x20
    ||| u == 0x85
    ||| u == 0xa0
    ||| u == 0x1680
    ||| 0x2000 <= u <= 0x200a
    ||| u == 0x2028
    ||| u == 0x2029
    ||| u == 0x202f
    ||| u == 0x205f
    ||| u == 0x3000
}

/// The text without its leading whitespace.
pub open spec fn trim_start(s: Seq<char>) -> Seq<char>
    decreases s.len(),
{
    if s.len() > 0 && is_space(s[0]) {
        trim_start(s.drop_first())
    } else {
        s
    }
}

/// The text without its trailing whitespace.
pub open spec fn trim_end(s: Seq<char>) -> Seq<char>
    decreases s.len(),
{
    if s.len() > 0 && is_space(s.last()) {
        trim_end(s.drop_last())
    } else {
        s
    }
}

/// The text without leading and trailing whitespace.
pub open spec fn trim(s: Seq<char>) -> Seq<char> {
    trim_end(trim_start(s))
}

/// Index of the first occurrence of `sep` in `s`, or the length of `s` where
/// there is none.
pub open spec fn find(s: Seq<char>, sep: char) -> int
    decreases s.len(),
{
    if s.len() == 0 || s[0] == sep {
        0
    } else {
        1 + find(s.drop_first(), sep)
    }
}

/// The pieces of `s` between occurrences of `sep`. A text without `sep` is one
/// piece, the empty text too; `n` occurrences give `n + 1` pieces.
pub open spec fn split(s: Seq<char>, sep: char) -> Seq<Seq<char>>
    decreases s.len(),
{
    let i = find(s, sep);
    if 0 <= i < s.len() {
        seq![s.take(i)] + split(s.skip(i + 1), sep)
    } else {
        seq![s]
    }
}

/// The views of a list of texts.
pub open spec fn views(pieces: Seq<Vec<char>>) -> Seq<Seq<char>> {
    pieces.map_values(|piece: Vec<char>| piece@)
}

proof fn lemma_find(s: Seq<char>, sep: char, i: int)
    requires
        0 <= i <= s.len(),
        forall|k: int| 0 <= k < i ==> s[k] != sep,
        i < s.len() ==> s[i] == sep,
    ensures
        find(s, sep) == i,
    decreases i,
{
    if i > 0 {
        let rest = s.drop_first();
        assert forall|k: int| 0 <= k < i - 1 implies rest[k] != sep by {
            assert(rest[k] == s[k + 1]);
        }
        lemma_find(rest, sep, i - 1);
    }
}

proof fn lemma_trim_start(s: Seq<char>, a: int)
    requires
        0 <= a <= s.len(),
        forall|k: int| 0 <= k < a ==> is_space(s[k]),
        a < s.len() ==> !is_space(s[a]),
    ensures
        trim_start(s) == s.skip(a),
    decreases a,
{
    if a > 0 {
        let rest = s.drop_first();
        assert forall|k: int| 0 <= k < a - 1 implies is_space(rest[k]) by {
            assert(rest[k] == s[k + 1]);
        }
        lemma_trim_start(rest, a - 1);
        assert(rest.skip(a - 1) =~= s.skip(a));
    } else {
        assert(s.skip(0) =~= s);
    }
}

proof fn lemma_trim_end(s: Seq<char>, b: int)
    requires
        0 <= b <= s.len(),
        forall|k: int| b <= k < s.len() ==> is_space(s[k]),
        b > 0 ==> !is_space(s[b - 1]),
    ensures
        trim_end(s) == s.take(b),
    decreases s.len() - b,
{
    if b < s.len() {
        let rest = s.drop_last();
        lemma_trim_end(rest, b);
        assert(rest.take(b) =~= s.take(b));
    } else {
        assert(s.take(b) =~= s);
    }
}

/// Tells whether the character is whitespace.
pub fn is_whitespace(c: char) -> (r: bool)
    ensures
        r == is_space(c),
{
    let u: u32 = c as u32;
    (0x9 <= u && u <= 0xd) || u == 0x20 || u == 0x85 || u == 0xa0 || u == 0x1680 || (0x2000 <= u
        && u <= 0x200a) || u == 0x2028 || u == 0x2029 || u == 0x202f || u == 0x205f || u == 0x3000
}

/// Copies the characters of `v` from index `from` up to, not including, `to`.
fn slice_of(v: &Vec<char>, from: usize, to: usize) -> (r: Vec<char>)
    requires
        from <= to <= v@.len(),
    ensures
        r@ == v@.subrange(from as int, to as int),
{
    let mut r: Vec<char> = Vec::new();
    let mut i: usize = from;
    while i < to
        invariant
            from <= i <= to <= v@.len(),
            r@ == v@.subrange(from as int, i as int),
        decreases to - i,
    {
        r.push(v[i]);
        i += 1;
        assert(r@ =~= v@.subrange(from as int, i as int));
    }
    r
}

/// Removes leading and trailing whitespace.
pub fn trimmed(v: &Vec<char>) -> (r: Vec<char>)
    ensures
        r@ == trim(v@),
{
    let n: usize = v.len();
    let mut a: usize = 0;
    while a < n && is_whitespace(v[a])
        invariant
            n == v@.len(),
            a <= n,
            forall|k: int| 0 <= k < a ==> is_space(v@[k]),
        decreases n - a,
    {
        a += 1;
    }
    let mut b: usize = n;
    while b > a && is_whitespace(v[b - 1])
        invariant
            n == v@.len(),
            a <= b <= n,
            forall|k: int| b <= k < n ==> is_space(v@[k]),
        decreases b,
    {
        b -= 1;
    }
    proof {
        lemma_trim_start(v@, a as int);
        let rest = v@.skip(a as int);
        assert forall|k: int| b - a <= k < rest.len() implies is_space(rest[k]) by {
            assert(rest[k] == v@[k + a]);
        }
        if b > a {
            assert(rest[b - a - 1] == v@[b - 1]);
        }
        lemma_trim_end(rest, b - a);
        assert(rest.take(b - a) =~= v@.subrange(a as int, b as int));
    }
    slice_of(v, a, b)
}

/// Splits the text at every occurrence of `sep`.
pub fn split_at_each(v: &Vec<char>, sep: char) -> (pieces: Vec<Vec<char>>)
    ensures
        views(pieces@) == split(v@, sep),
        pieces@.len() >= 1,
{
    let n: usize = v.len();
    let mut pieces: Vec<Vec<char>> = Vec::new();
    let mut start: usize = 0;
    let mut i: usize = 0;
    proof {
        assert(v@.skip(0) =~= v@);
        assert(views(pieces@) + split(v@, sep) =~= split(v@, sep));
    }
    while i < n
        invariant
            n == v@.len(),
            start <= i <= n,
            forall|k: int| start <= k < i ==> v@[k] != sep,
            split(v@, sep) == views(pieces@) + split(v@.skip(start as int), sep),
        decreases n - i,
    {
        if v[i] == sep {
            let piece: Vec<char> = slice_of(v, start, i);
            proof {
                let rest = v@.skip(start as int);
                assert forall|k: int| 0 <= k < i - start implies rest[k] != sep by {
                    assert(rest[k] == v@[k + start]);
                }
                assert(rest[i - start] == sep);
                lemma_find(rest, sep, i - start);
                assert(rest.take(i - start) =~= piece@);
                assert(rest.skip(i - start + 1) =~= v@.skip(i + 1));
                assert(views(pieces@.push(piece)) =~= views(pieces@) + seq![piece@]);
            }
            pieces.push(piece);
            start = i + 1;
        }
        i += 1;
    }
    let last: Vec<char> = slice_of(v, start, n);
    proof {
        let rest = v@.skip(start as int);
        assert forall|k: int| 0 <= k < rest.len() implies rest[k] != sep by {
            assert(rest[k] == v@[k + start]);
        }
        lemma_find(rest, sep, rest.len() as int);
        assert(rest =~= last@);
        assert(views(pieces@.push(last)) =~= views(pieces@) + seq![last@]);
    }
    pieces.push(last);
    pieces
}

/// The text that `str::to_lowercase` gives for a text.
pub uninterp spec fn lowercase_of(s: Seq<char>) -> Seq<char>;

/// Lower-cases a text with `str::to_lowercase`.
///
/// Trusted: the result depends on the characters of the argument alone. Which
/// characters it holds is decided by the Unicode case tables of the standard
/// library and is not stated here.
#[verifier::external_body]
pub(crate) fn lowercase(s: &str) -> (r: String)
    ensures
        r@ == lowercase_of(s@),
{
    s.to_lowercase()
}

/// Collects characters into a `String` with `String::from_iter`.
///
/// Trusted: the string holds the characters of the argument, in order.
#[verifier::external_body]
pub(crate) fn string_from_chars(v: &Vec<char>) -> (r: String)
    ensures
        r@ == v@,
{
    String::from_iter(v.iter())
}

} // verus!
