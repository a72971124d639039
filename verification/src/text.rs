//! Character classification and string primitives shared by the tokenizer,
//! the evaluator and the clause builders.

use vstd::prelude::*;
use vstd::string::StrSliceExecFns;

verus! {

/// Whether a character has the Unicode `Alphabetic` property, as
/// `char::is_alphabetic` decides it.
pub uninterp spec fn alphabetic(c: char) -> bool;

/// Whether a character is in a Unicode `Number` category, as
/// `char::is_numeric` decides it.
pub uninterp spec fn numeric(c: char) -> bool;

/// Whether a character has the Unicode `White_Space` property, as
/// `char::is_whitespace` decides it.
pub uninterp spec fn whitespace(c: char) -> bool;

/// Relies on `char::is_alphabetic`: true exactly for characters with the
/// Unicode `Alphabetic` property; the result depends on the character alone.
#[verifier::external_body]
pub fn char_is_alphabetic(c: char) -> (r: bool)
    ensures
        r == alphabetic(c),
{
    c.is_alphabetic()
}

/// Relies on `char::is_numeric`: true exactly for characters in a Unicode
/// `Number` category; the result depends on the character alone.
#[verifier::external_body]
pub fn char_is_numeric(c: char) -> (r: bool)
    ensures
        r == numeric(c),
{
    c.is_numeric()
}

/// Relies on `char::is_whitespace`: true exactly for characters with the
/// Unicode `White_Space` property; the result depends on the character alone.
#[verifier::external_body]
pub fn char_is_whitespace(c: char) -> (r: bool)
    ensures
        r == whitespace(c),
{
    c.is_whitespace()
}

/// Relies on `String`'s `FromIterator<char>` impl: collecting characters
/// yields the string of exactly those characters, in order.
#[verifier::external_body]
pub fn chars_to_string(v: &Vec<char>) -> (r: String)
    ensures
        r@ == v@,
{
    v.iter().collect()
}

/// The characters of a string, as a vector.
pub fn str_chars(s: &str) -> (r: Vec<char>)
    ensures
        r@ == s@,
{
    let n = s.unicode_len();
    let mut r: Vec<char> = Vec::new();
    let mut i: usize = 0;
    while i < n
        invariant
            i <= n,
            n == s@.len(),
            r@ == s@.take(i as int),
        decreases n - i,
    {
        let c = s.get_char(i);
        r.push(c);
        i = i + 1;
        proof {
            assert(s@.take(i as int) =~= s@.take(i - 1).push(s@[i - 1]));
        }
    }
    proof {
        assert(s@.take(n as int) =~= s@);
    }
    r
}

/// Whether two strings hold the same characters.
pub fn str_eq(a: &str, b: &str) -> (r: bool)
    ensures
        r == (a@ == b@),
{
    let na = a.unicode_len();
    let nb = b.unicode_len();
    if na != nb {
        return false;
    }
    let mut i: usize = 0;
    while i < na
        invariant
            i <= na,
            na == a@.len(),
            na == b@.len(),
            forall|j: int| 0 <= j < i ==> a@[j] == b@[j],
        decreases na - i,
    {
        if a.get_char(i) != b.get_char(i) {
            return false;
        }
        i = i + 1;
    }
    proof {
        assert(a@ =~= b@);
    }
    true
}

/// The length of the longest prefix whose elements all satisfy `p`.
pub open spec fn prefix_len<T>(s: Seq<T>, p: spec_fn(T) -> bool) -> nat
    decreases s.len(),
{
    if s.len() == 0 {
        0
    } else if p(s[0]) {
        1 + prefix_len(s.drop_first(), p)
    } else {
        0
    }
}

/// `prefix_len` is exactly the scan position where `p` first fails.
pub proof fn lemma_prefix_len<T>(s: Seq<T>, p: spec_fn(T) -> bool, n: int)
    requires
        0 <= n <= s.len(),
        forall|j: int| 0 <= j < n ==> p(s[j]),
        n < s.len() ==> !p(s[n]),
    ensures
        prefix_len(s, p) == n,
    decreases s.len(),
{
    if s.len() > 0 {
        if n == 0 {
        } else {
            assert(p(s[0]));
            lemma_prefix_len(s.drop_first(), p, n - 1);
        }
    }
}

/// What `prefix_len` measures: a position within the sequence, everything
/// before it satisfying `p`, and the element there (if any) failing `p`.
pub proof fn lemma_prefix_len_props<T>(s: Seq<T>, p: spec_fn(T) -> bool)
    ensures
        ({
            let n = prefix_len(s, p);
            &&& n <= s.len()
            &&& forall|j: int| 0 <= j < n ==> p(s[j])
            &&& n < s.len() ==> !p(s[n as int])
        }),
    decreases s.len(),
{
    if s.len() > 0 && p(s[0]) {
        lemma_prefix_len_props(s.drop_first(), p);
        let n = prefix_len(s, p);
        assert(forall|j: int| 1 <= j < n ==> p(s.drop_first()[j - 1]) && s[j] == s.drop_first()[j
            - 1]);
    }
}

/// An advance forced into the closed interval `[1, len]`, so that a scan
/// using it makes progress and stays within its input. The scans' advances
/// are already in that interval (see [`lemma_prefix_len`]); the clamp only
/// makes that plain to the termination check.
pub open spec fn cap_adv(n: nat, len: nat) -> nat {
    if n < 1 {
        1
    } else if n > len {
        len
    } else {
        n
    }
}

/// The pieces of a character sequence between its commas: one piece more
/// than there are commas, in order, commas not included. An input without
/// commas is one piece, even when empty.
pub open spec fn split_commas_spec(s: Seq<char>) -> Seq<Seq<char>>
    decreases s.len(),
{
    let n = prefix_len(s, |c: char| c != ',');
    if n == s.len() {
        seq![s]
    } else {
        seq![s.take(n as int)] + split_commas_spec(s.skip(cap_adv((n + 1) as nat, s.len()) as int))
    }
}

/// Splits a string at its commas.
pub fn split_commas(s: &str) -> (r: Vec<String>)
    ensures
        r.deep_view() == split_commas_spec(s@),
{
    let chars = str_chars(s);
    let total = chars.len();
    let mut r: Vec<String> = Vec::new();
    let mut start: usize = 0;
    let mut i: usize = 0;
    let mut current: Vec<char> = Vec::new();
    proof {
        assert(chars@.skip(0) =~= chars@);
        assert(r.deep_view() + split_commas_spec(chars@) =~= split_commas_spec(chars@));
    }
    loop
        invariant
            start <= i <= total,
            total == chars@.len(),
            chars@ == s@,
            current@ == chars@.subrange(start as int, i as int),
            forall|j: int| start <= j < i ==> chars@[j] != ',',
            r.deep_view() + split_commas_spec(chars@.skip(start as int)) == split_commas_spec(
                chars@,
            ),
        ensures
            start <= i <= total,
            i == total,
            total == chars@.len(),
            current@ == chars@.subrange(start as int, total as int),
            forall|j: int| start <= j < total ==> chars@[j] != ',',
            r.deep_view() + split_commas_spec(chars@.skip(start as int)) == split_commas_spec(
                chars@,
            ),
        decreases total - i,
    {
        if i >= total {
            break ;
        }
        let c = chars[i];
        if c == ',' {
            proof {
                lemma_prefix_len(
                    chars@.skip(start as int),
                    |c: char| c != ',',
                    i - start,
                );
                assert(chars@.skip(start as int).take(i - start) =~= chars@.subrange(
                    start as int,
                    i as int,
                ));
                assert(chars@.skip(start as int).skip(i + 1 - start) =~= chars@.skip(i + 1));
                assert(r.deep_view().push(current@) + split_commas_spec(chars@.skip(i + 1)) =~= r.deep_view()
                    + (seq![current@] + split_commas_spec(chars@.skip(i + 1))));
            }
            r.push(chars_to_string(&current));
            current = Vec::new();
            i = i + 1;
            start = i;
        } else {
            current.push(c);
            proof {
                assert(chars@.subrange(start as int, i + 1) =~= chars@.subrange(
                    start as int,
                    i as int,
                ).push(chars@[i as int]));
            }
            i = i + 1;
        }
    }
    proof {
        lemma_prefix_len(chars@.skip(start as int), |c: char| c != ',', total - start);
        assert(chars@.skip(start as int).take(total - start) =~= chars@.skip(start as int));
        assert(chars@.subrange(start as int, total as int) =~= chars@.skip(start as int));
        assert(r.deep_view().push(chars@.skip(start as int)) =~= r.deep_view() + seq![
            chars@.skip(start as int),
        ]);
    }
    r.push(chars_to_string(&current));
    r
}

/// The character sequences joined by single commas.
pub open spec fn join_comma(vals: Seq<Seq<char>>) -> Seq<char>
    decreases vals.len(),
{
    if vals.len() == 0 {
        Seq::empty()
    } else if vals.len() == 1 {
        vals[0]
    } else {
        join_comma(vals.drop_last()) + seq![','] + vals.last()
    }
}

/// Joins the strings with single commas.
pub fn join_with_commas(vals: &Vec<String>) -> (r: String)
    ensures
        r@ == join_comma(vals.deep_view()),
{
    let mut out: Vec<char> = Vec::new();
    let n = vals.len();
    let mut i: usize = 0;
    while i < n
        invariant
            i <= n,
            n == vals@.len(),
            out@ == join_comma(vals.deep_view().take(i as int)),
        decreases n - i,
    {
        if i > 0 {
            out.push(',');
        }
        let mut piece = str_chars(vals[i].as_str());
        out.append(&mut piece);
        proof {
            let vs = vals.deep_view().take(i + 1);
            assert(vs.drop_last() =~= vals.deep_view().take(i as int));
            assert(vs.last() == vals.deep_view()[i as int]);
            assert(vals.deep_view()[i as int] == vals@[i as int]@);
            if i == 0 {
                assert(out@ =~= join_comma(vs));
            } else {
                assert(out@ =~= join_comma(vs.drop_last()) + seq![','] + vs.last());
            }
        }
        i = i + 1;
    }
    proof {
        assert(vals.deep_view().take(n as int) =~= vals.deep_view());
    }
    chars_to_string(&out)
}

/// A character sequence with its leading and trailing whitespace removed.
pub open spec fn trim_spec(s: Seq<char>) -> Seq<char> {
    let start = prefix_len(s, |c: char| whitespace(c)) as int;
    let end = s.len() - prefix_len(s.reverse(), |c: char| whitespace(c)) as int;
    if start < end {
        s.subrange(start, end)
    } else {
        Seq::empty()
    }
}

/// Removes leading and trailing whitespace from a string.
pub fn trim_str(s: &str) -> (r: String)
    ensures
        r@ == trim_spec(s@),
{
    let chars = str_chars(s);
    let total = chars.len();
    let mut start: usize = 0;
    while start < total && char_is_whitespace(chars[start])
        invariant
            start <= total,
            total == chars@.len(),
            chars@ == s@,
            forall|j: int| 0 <= j < start ==> whitespace(chars@[j]),
        decreases total - start,
    {
        start = start + 1;
    }
    proof {
        lemma_prefix_len(chars@, |c: char| whitespace(c), start as int);
    }
    let mut end: usize = total;
    while end > start && char_is_whitespace(chars[end - 1])
        invariant
            start <= end <= total,
            total == chars@.len(),
            chars@ == s@,
            forall|j: int| 0 <= j < start ==> whitespace(chars@[j]),
            start < total ==> !whitespace(chars@[start as int]),
            forall|j: int| end <= j < total ==> whitespace(chars@[j]),
        decreases end,
    {
        end = end - 1;
    }
    let mut piece: Vec<char> = Vec::new();
    let mut i: usize = start;
    while i < end
        invariant
            start <= i <= end <= total,
            total == chars@.len(),
            piece@ == chars@.subrange(start as int, i as int),
        decreases end - i,
    {
        piece.push(chars[i]);
        proof {
            assert(chars@.subrange(start as int, i + 1) =~= chars@.subrange(
                start as int,
                i as int,
            ).push(chars@[i as int]));
        }
        i = i + 1;
    }
    proof {
        let white = |c: char| whitespace(c);
        if end == start {
            // all of the input between the scans is whitespace, so the whole
            // input is whitespace and the trim is empty
            assert(forall|j: int| 0 <= j < total ==> whitespace(chars@[j]));
            assert(forall|j: int| 0 <= j < total ==> white(chars@.reverse()[j]));
            lemma_prefix_len(chars@.reverse(), white, total as int);
            assert(trim_spec(s@) =~= piece@);
        } else {
            assert(!whitespace(chars@[end - 1]));
            assert(forall|j: int| 0 <= j < total - end ==> white(chars@.reverse()[j]));
            assert(chars@.reverse()[total - end] == chars@[end - 1]);
            lemma_prefix_len(chars@.reverse(), white, total - end as int);
            assert(trim_spec(s@) =~= piece@);
        }
    }
    chars_to_string(&piece)
}

/// Splits a string at its commas and trims each piece.
pub fn split_trim_commas(s: &str) -> (r: Vec<String>)
    ensures
        r.deep_view() == split_commas_spec(s@).map_values(|t: Seq<char>| trim_spec(t)),
{
    let pieces = split_commas(s);
    let mut r: Vec<String> = Vec::new();
    let n = pieces.len();
    let mut i: usize = 0;
    while i < n
        invariant
            i <= n,
            n == pieces@.len(),
            pieces.deep_view() == split_commas_spec(s@),
            r.deep_view() == pieces.deep_view().take(i as int).map_values(
                |t: Seq<char>| trim_spec(t),
            ),
        decreases n - i,
    {
        let piece = trim_str(pieces[i].as_str());
        r.push(piece);
        proof {
            let f = |t: Seq<char>| trim_spec(t);
            assert(pieces.deep_view()[i as int] == pieces@[i as int]@);
            assert(pieces.deep_view().take(i + 1) =~= pieces.deep_view().take(i as int).push(
                pieces.deep_view()[i as int],
            ));
            assert(pieces.deep_view().take(i + 1).map_values(f) =~= pieces.deep_view().take(
                i as int,
            ).map_values(f).push(f(pieces.deep_view()[i as int])));
        }
        i = i + 1;
    }
    proof {
        assert(pieces.deep_view().take(n as int) =~= pieces.deep_view());
    }
    r
}

/// A character sequence with every single-quote character removed.
pub open spec fn strip_quotes_spec(s: Seq<char>) -> Seq<char> {
    s.filter(|c: char| c != '\'')
}

/// Removes every single-quote character from a string.
pub fn strip_quotes(s: &str) -> (r: String)
    ensures
        r@ == strip_quotes_spec(s@),
{
    let chars = str_chars(s);
    let mut kept: Vec<char> = Vec::new();
    let mut i: usize = 0;
    while i < chars.len()
        invariant
            i <= chars@.len(),
            chars@ == s@,
            kept@ == chars@.take(i as int).filter(|c: char| c != '\''),
        decreases chars@.len() - i,
    {
        let c = chars[i];
        proof {
            chars@.take(i as int).lemma_filter_push(c, |c: char| c != '\'');
            assert(chars@.take(i + 1) =~= chars@.take(i as int).push(chars@[i as int]));
        }
        if c != '\'' {
            kept.push(c);
        }
        i = i + 1;
    }
    proof {
        assert(chars@.take(chars@.len() as int) =~= chars@);
    }
    chars_to_string(&kept)
}

/// Returns true if some element of `v` holds the same characters as `s`.
pub fn contains_str(v: &Vec<String>, s: &str) -> (r: bool)
    ensures
        r == v.deep_view().contains(s@),
{
    let mut i: usize = 0;
    while i < v.len()
        invariant
            i <= v@.len(),
            forall|j: int| 0 <= j < i ==> v.deep_view()[j] != s@,
        decreases v@.len() - i,
    {
        proof {
            assert(v.deep_view()[i as int] == v@[i as int]@);
        }
        if str_eq(v[i].as_str(), s) {
            return true;
        }
        i = i + 1;
    }
    proof {
        assert(forall|j: int| 0 <= j < v.deep_view().len() ==> v.deep_view()[j] != s@);
    }
    false
}

/// The index of the first element of `v` that holds the same characters as
/// `s`, if any.
pub fn position_str(v: &Vec<String>, s: &str) -> (r: Option<usize>)
    ensures
        ({
            let p = prefix_len(v.deep_view(), |t: Seq<char>| t != s@);
            match r {
                Some(i) => i == p && p < v.deep_view().len() && v.deep_view()[p as int] == s@,
                None => p == v.deep_view().len(),
            }
        }),
{
    let mut i: usize = 0;
    while i < v.len()
        invariant
            i <= v@.len(),
            forall|j: int| 0 <= j < i ==> v.deep_view()[j] != s@,
        decreases v@.len() - i,
    {
        proof {
            assert(v.deep_view()[i as int] == v@[i as int]@);
        }
        if str_eq(v[i].as_str(), s) {
            proof {
                lemma_prefix_len(v.deep_view(), |t: Seq<char>| t != s@, i as int);
            }
            return Some(i);
        }
        i = i + 1;
    }
    proof {
        lemma_prefix_len(v.deep_view(), |t: Seq<char>| t != s@, v.deep_view().len() as int);
    }
    None
}

/// Lexicographic order on character sequences: compare code point by code
/// point; a strict prefix comes first. This is the order in which Rust
/// compares its strings.
pub open spec fn lex_lt(a: Seq<char>, b: Seq<char>) -> bool
    decreases a.len(),
{
    if b.len() == 0 {
        false
    } else if a.len() == 0 {
        true
    } else if a[0] == b[0] {
        lex_lt(a.drop_first(), b.drop_first())
    } else {
        (a[0] as u32) < (b[0] as u32)
    }
}

/// Lexicographic order is a strict total order: of two distinct sequences
/// exactly one comes first, and no sequence comes before itself.
pub proof fn lemma_lex_lt_trichotomy(a: Seq<char>, b: Seq<char>)
    ensures
        lex_lt(a, b) ==> !lex_lt(b, a) && a != b,
        !lex_lt(a, b) && !lex_lt(b, a) ==> a == b,
    decreases a.len(),
{
    if b.len() == 0 {
        if a.len() == 0 {
            assert(a =~= b);
        }
    } else if a.len() == 0 {
    } else if a[0] == b[0] {
        lemma_lex_lt_trichotomy(a.drop_first(), b.drop_first());
        assert(lex_lt(a, b) == lex_lt(a.drop_first(), b.drop_first()));
        assert(lex_lt(b, a) == lex_lt(b.drop_first(), a.drop_first()));
        assert(forall|j: int|
            1 <= j < a.len() ==> #[trigger] a[j] == a.drop_first()[j - 1]);
        assert(forall|j: int|
            1 <= j < b.len() ==> #[trigger] b[j] == b.drop_first()[j - 1]);
        if !lex_lt(a, b) && !lex_lt(b, a) {
            assert(a.drop_first() == b.drop_first());
            assert(a =~= b);
        }
        if lex_lt(a, b) && a == b {
            assert(a.drop_first() =~= b.drop_first());
        }
    } else {
        if (a[0] as u32) == (b[0] as u32) {
            vstd::utf8::char_u32_cast(a[0], a[0] as u32);
            vstd::utf8::char_u32_cast(b[0], b[0] as u32);
            assert(a[0] == b[0]);
        }
    }
}

/// An equal prefix on both sides does not change how the remainders compare.
proof fn lemma_lex_lt_skip(a: Seq<char>, b: Seq<char>, i: int)
    requires
        0 <= i <= a.len(),
        i <= b.len(),
        forall|j: int| 0 <= j < i ==> a[j] == b[j],
    ensures
        lex_lt(a, b) == lex_lt(a.skip(i), b.skip(i)),
    decreases i,
{
    if i == 0 {
        assert(a.skip(0) =~= a);
        assert(b.skip(0) =~= b);
    } else {
        assert(a.len() > 0 && b.len() > 0 && a[0] == b[0]);
        lemma_lex_lt_skip(a.drop_first(), b.drop_first(), i - 1);
        assert(a.drop_first().skip(i - 1) =~= a.skip(i));
        assert(b.drop_first().skip(i - 1) =~= b.skip(i));
    }
}

/// Whether the characters of `a` come lexicographically before those of `b`.
pub fn str_lt(a: &str, b: &str) -> (r: bool)
    ensures
        r == lex_lt(a@, b@),
{
    let na = a.unicode_len();
    let nb = b.unicode_len();
    let mut i: usize = 0;
    while i < na && i < nb
        invariant
            i <= na,
            i <= nb,
            na == a@.len(),
            nb == b@.len(),
            forall|j: int| 0 <= j < i ==> a@[j] == b@[j],
        decreases na - i,
    {
        let ca = a.get_char(i);
        let cb = b.get_char(i);
        if ca != cb {
            proof {
                lemma_lex_lt_skip(a@, b@, i as int);
            }
            return (ca as u32) < (cb as u32);
        }
        i = i + 1;
    }
    proof {
        lemma_lex_lt_skip(a@, b@, i as int);
    }
    na < nb
}

} // verus!
