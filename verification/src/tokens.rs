//! The tokenizer: converts a raw statement into an ordered sequence of
//! lexical tokens.
//!
//! Scanning runs left to right over the characters, longest match first, with
//! the statement terminator `;` stripped beforehand:
//! - a run of alphabetic characters or underscores is one token;
//! - a run of numeric characters is one token;
//! - a single-quoted span is one token holding the span's interior (an
//!   unterminated quote consumes to the end of the input);
//! - a parenthesized span is one token holding the span's interior;
//! - whitespace and commas separate tokens without producing one;
//! - any other run of non-alphanumeric, non-whitespace characters is one
//!   token.
//!
//! Empty tokens are discarded; the output keeps the input's order.

use vstd::prelude::*;

use crate::text::{
    alphabetic, cap_adv, char_is_alphabetic, char_is_numeric, char_is_whitespace, chars_to_string,
    lemma_prefix_len, numeric, prefix_len, str_chars, whitespace,
};

verus! {

/// The input with every statement terminator removed.
pub open spec fn strip_semicolons(s: Seq<char>) -> Seq<char> {
    s.filter(|c: char| c != ';')
}

/// Whether a character continues an identifier/keyword run.
pub open spec fn word_char(c: char) -> bool {
    alphabetic(c) || c == '_'
}

/// Whether a character continues an "other" run: neither alphabetic nor
/// numeric nor whitespace.
pub open spec fn other_char(c: char) -> bool {
    !(alphabetic(c) || numeric(c)) && !whitespace(c)
}

/// The raw token sequence of a terminator-free input, empty tokens included
/// (a quoted or parenthesized span may be empty).
pub open spec fn scan(s: Seq<char>) -> Seq<Seq<char>>
    decreases s.len(),
{
    if s.len() == 0 {
        Seq::empty()
    } else {
        let c = s[0];
        if word_char(c) {
            let n = prefix_len(s, |c: char| word_char(c));
            seq![s.take(n as int)] + scan(s.skip(cap_adv(n, s.len()) as int))
        } else if numeric(c) {
            let n = prefix_len(s, |c: char| numeric(c));
            seq![s.take(n as int)] + scan(s.skip(cap_adv(n, s.len()) as int))
        } else if c == '\'' {
            let inner = s.drop_first();
            let n = prefix_len(inner, |c: char| c != '\'');
            let adv: nat = if n == inner.len() {
                1 + n
            } else {
                2 + n
            };
            seq![inner.take(n as int)] + scan(s.skip(cap_adv(adv, s.len()) as int))
        } else if c == '(' {
            let inner = s.drop_first();
            let n = prefix_len(inner, |c: char| c != ')');
            let adv: nat = if n == inner.len() {
                1 + n
            } else {
                2 + n
            };
            seq![inner.take(n as int)] + scan(s.skip(cap_adv(adv, s.len()) as int))
        } else if whitespace(c) || c == ',' {
            scan(s.drop_first())
        } else {
            let n = prefix_len(s, |c: char| other_char(c));
            seq![s.take(n as int)] + scan(s.skip(cap_adv(n, s.len()) as int))
        }
    }
}

/// The tokens of a query: strip the terminators, scan, and discard empty
/// tokens.
pub open spec fn spec_tokens(s: Seq<char>) -> Seq<Seq<char>> {
    scan(strip_semicolons(s)).filter(|t: Seq<char>| t.len() != 0)
}

/// Converts a query string into a vector of tokens.
pub fn tokens_from_query(string: &str) -> (r: Vec<String>)
    ensures
        r.deep_view() == spec_tokens(string@),
{
    let raw = str_chars(string);
    let mut chars: Vec<char> = Vec::new();
    let mut k: usize = 0;
    while k < raw.len()
        invariant
            k <= raw@.len(),
            raw@ == string@,
            chars@ == raw@.take(k as int).filter(|c: char| c != ';'),
        decreases raw@.len() - k,
    {
        let c = raw[k];
        proof {
            raw@.take(k as int).lemma_filter_push(c, |c: char| c != ';');
            assert(raw@.take(k + 1) =~= raw@.take(k as int).push(raw@[k as int]));
        }
        if c != ';' {
            chars.push(c);
        }
        k = k + 1;
    }
    proof {
        assert(raw@.take(raw@.len() as int) =~= raw@);
    }

    let mut tokens: Vec<String> = Vec::new();
    let mut index: usize = 0;
    proof {
        assert(chars@.skip(0) =~= chars@);
        assert(tokens.deep_view() + scan(chars@) =~= scan(chars@));
    }
    while index < chars.len()
        invariant
            index <= chars@.len(),
            tokens.deep_view() + scan(chars@.skip(index as int)) == scan(chars@),
        decreases chars@.len() - index,
    {
        let c = chars[index];
        let ghost i0 = index as int;
        let ghost s = chars@.skip(i0);
        let ghost tks0 = tokens.deep_view();
        if char_is_alphabetic(c) || c == '_' {
            index = process_alphabetic(&chars, index, &mut tokens);
            proof {
                let n = prefix_len(s, |c: char| word_char(c));
                assert(s.take(n as int) =~= chars@.subrange(i0, index as int));
                assert(s.skip(n as int) =~= chars@.skip(index as int));
                lemma_invariant_step(chars@, tks0, chars@.subrange(i0, index as int), i0, index as int);
            }
        } else if char_is_numeric(c) {
            index = process_numeric(&chars, index, &mut tokens);
            proof {
                let n = prefix_len(s, |c: char| numeric(c));
                assert(s.take(n as int) =~= chars@.subrange(i0, index as int));
                assert(s.skip(n as int) =~= chars@.skip(index as int));
                lemma_invariant_step(chars@, tks0, chars@.subrange(i0, index as int), i0, index as int);
            }
        } else if c == '\'' {
            index = process_quotes(&chars, index, &mut tokens);
            proof {
                let inner = s.drop_first();
                let n = prefix_len(inner, |c: char| c != '\'');
                let adv: nat = if n == inner.len() {
                    1 + n
                } else {
                    2 + n
                };
                assert(inner.take(n as int) =~= chars@.subrange(i0 + 1, i0 + 1 + n));
                assert(s.skip(adv as int) =~= chars@.skip(index as int));
                lemma_invariant_step(chars@, tks0, chars@.subrange(i0 + 1, i0 + 1 + n), i0, index as int);
            }
        } else if c == '(' {
            index = process_paren(&chars, index, &mut tokens);
            proof {
                let inner = s.drop_first();
                let n = prefix_len(inner, |c: char| c != ')');
                let adv: nat = if n == inner.len() {
                    1 + n
                } else {
                    2 + n
                };
                assert(inner.take(n as int) =~= chars@.subrange(i0 + 1, i0 + 1 + n));
                assert(s.skip(adv as int) =~= chars@.skip(index as int));
                lemma_invariant_step(chars@, tks0, chars@.subrange(i0 + 1, i0 + 1 + n), i0, index as int);
            }
        } else if char_is_whitespace(c) || c == ',' {
            proof {
                assert(chars@.skip(i0).drop_first() =~= chars@.skip(i0 + 1));
            }
            index = index + 1;
        } else {
            index = process_other(&chars, index, &mut tokens);
            proof {
                let n = prefix_len(s, |c: char| other_char(c));
                assert(s.take(n as int) =~= chars@.subrange(i0, index as int));
                assert(s.skip(n as int) =~= chars@.skip(index as int));
                lemma_invariant_step(chars@, tks0, chars@.subrange(i0, index as int), i0, index as int);
            }
        }
    }
    proof {
        assert(chars@.skip(chars@.len() as int) =~= Seq::<char>::empty());
        assert(tokens.deep_view() + Seq::<Seq<char>>::empty() =~= tokens.deep_view());
        assert(tokens.deep_view() == scan(chars@));
    }

    let mut result: Vec<String> = Vec::new();
    let mut k2: usize = 0;
    while k2 < tokens.len()
        invariant
            k2 <= tokens@.len(),
            tokens.deep_view() == scan(chars@),
            chars@ == strip_semicolons(string@),
            result.deep_view() == tokens.deep_view().take(k2 as int).filter(
                |t: Seq<char>| t.len() != 0,
            ),
        decreases tokens@.len() - k2,
    {
        let t = &tokens[k2];
        proof {
            tokens.deep_view().take(k2 as int).lemma_filter_push(
                tokens.deep_view()[k2 as int],
                |t: Seq<char>| t.len() != 0,
            );
            assert(tokens.deep_view().take(k2 + 1) =~= tokens.deep_view().take(k2 as int).push(
                tokens.deep_view()[k2 as int],
            ));
            assert(tokens.deep_view()[k2 as int] == tokens@[k2 as int]@);
        }
        if !t.as_str().is_empty() {
            let copy = t.clone();
            assert(copy@ == t@);
            result.push(copy);
            proof {
                assert(result.deep_view() =~= result.deep_view());
            }
        }
        k2 = k2 + 1;
    }
    proof {
        assert(tokens.deep_view().take(tokens@.len() as int) =~= tokens.deep_view());
    }
    result
}

/// Consumes a run of alphabetic or underscore characters starting at `index`
/// and pushes it as one token; returns the position after the run.
pub fn process_alphabetic(chars: &Vec<char>, index: usize, tokens: &mut Vec<String>) -> (ni: usize)
    requires
        index < chars@.len(),
        word_char(chars@[index as int]),
    ensures
        ({
            let n = prefix_len(chars@.skip(index as int), |c: char| word_char(c));
            &&& ni == index + n
            &&& index < ni <= chars@.len()
            &&& final(tokens).deep_view() == old(tokens).deep_view().push(
                chars@.subrange(index as int, ni as int),
            )
        }),
{
    let mut current: Vec<char> = Vec::new();
    let mut i: usize = index;
    loop
        invariant
            index <= i <= chars@.len(),
            current@ == chars@.subrange(index as int, i as int),
            forall|j: int| index <= j < i ==> word_char(chars@[j]),
            tokens == old(tokens),
        ensures
            index <= i <= chars@.len(),
            current@ == chars@.subrange(index as int, i as int),
            forall|j: int| index <= j < i ==> word_char(chars@[j]),
            i < chars@.len() ==> !word_char(chars@[i as int]),
            tokens == old(tokens),
        decreases chars@.len() - i,
    {
        if i >= chars.len() {
            break ;
        }
        let c = chars[i];
        if char_is_alphabetic(c) || c == '_' {
            current.push(c);
            proof {
                assert(chars@.subrange(index as int, i + 1) =~= chars@.subrange(
                    index as int,
                    i as int,
                ).push(chars@[i as int]));
            }
            i = i + 1;
        } else {
            break ;
        }
    }
    proof {
        lemma_prefix_len_at(chars@, index as int, i as int, |c: char| word_char(c));
    }
    tokens.push(chars_to_string(&current));
    proof {
        assert(final(tokens).deep_view() =~= old(tokens).deep_view().push(
            chars@.subrange(index as int, i as int),
        ));
    }
    i
}

/// Consumes a run of numeric characters starting at `index` and pushes it as
/// one token; returns the position after the run.
pub fn process_numeric(chars: &Vec<char>, index: usize, tokens: &mut Vec<String>) -> (ni: usize)
    requires
        index < chars@.len(),
        numeric(chars@[index as int]),
    ensures
        ({
            let n = prefix_len(chars@.skip(index as int), |c: char| numeric(c));
            &&& ni == index + n
            &&& index < ni <= chars@.len()
            &&& final(tokens).deep_view() == old(tokens).deep_view().push(
                chars@.subrange(index as int, ni as int),
            )
        }),
{
    let mut current: Vec<char> = Vec::new();
    let mut i: usize = index;
    loop
        invariant
            index <= i <= chars@.len(),
            current@ == chars@.subrange(index as int, i as int),
            forall|j: int| index <= j < i ==> numeric(chars@[j]),
            tokens == old(tokens),
        ensures
            index <= i <= chars@.len(),
            current@ == chars@.subrange(index as int, i as int),
            forall|j: int| index <= j < i ==> numeric(chars@[j]),
            i < chars@.len() ==> !numeric(chars@[i as int]),
            tokens == old(tokens),
        decreases chars@.len() - i,
    {
        if i >= chars.len() {
            break ;
        }
        let c = chars[i];
        if char_is_numeric(c) {
            current.push(c);
            proof {
                assert(chars@.subrange(index as int, i + 1) =~= chars@.subrange(
                    index as int,
                    i as int,
                ).push(chars@[i as int]));
            }
            i = i + 1;
        } else {
            break ;
        }
    }
    proof {
        lemma_prefix_len_at(chars@, index as int, i as int, |c: char| numeric(c));
    }
    tokens.push(chars_to_string(&current));
    proof {
        assert(final(tokens).deep_view() =~= old(tokens).deep_view().push(
            chars@.subrange(index as int, i as int),
        ));
    }
    i
}

/// Consumes a single-quoted span starting at the opening quote at `index` and
/// pushes the span's interior as one token; an unterminated quote consumes to
/// the end of the input. Returns the position after the consumed span.
pub fn process_quotes(chars: &Vec<char>, index: usize, tokens: &mut Vec<String>) -> (ni: usize)
    requires
        index < chars@.len(),
    ensures
        ({
            let inner = chars@.skip(index as int).drop_first();
            let n = prefix_len(inner, |c: char| c != '\'');
            &&& ni == index + (if n == inner.len() {
                1 + n
            } else {
                2 + n
            })
            &&& index < ni <= chars@.len()
            &&& final(tokens).deep_view() == old(tokens).deep_view().push(
                chars@.subrange(index + 1, index + 1 + n),
            )
        }),
{
    let ghost inner = chars@.skip(index as int).drop_first();
    proof {
        assert(inner =~= chars@.skip(index + 1));
    }
    let total = chars.len();
    let mut current: Vec<char> = Vec::new();
    let mut i: usize = index + 1;
    loop
        invariant
            index + 1 <= i <= chars@.len(),
            inner == chars@.skip(index as int).drop_first(),
            inner =~= chars@.skip(index + 1),
            current@ == chars@.subrange(index + 1, i as int),
            forall|j: int| index + 1 <= j < i ==> chars@[j] != '\'',
            tokens == old(tokens),
        ensures
            index + 1 <= i <= chars@.len(),
            current@ == chars@.subrange(index + 1, i as int),
            forall|j: int| index + 1 <= j < i ==> chars@[j] != '\'',
            i < chars@.len() ==> chars@[i as int] == '\'',
            tokens == old(tokens),
        decreases chars@.len() - i,
    {
        if i >= chars.len() {
            break ;
        }
        let c = chars[i];
        if c == '\'' {
            break ;
        }
        current.push(c);
        proof {
            assert(chars@.subrange(index + 1, i + 1) =~= chars@.subrange(index + 1, i as int).push(
                chars@[i as int],
            ));
        }
        i = i + 1;
    }
    proof {
        lemma_prefix_len_at(chars@, index + 1, i as int, |c: char| c != '\'');
        assert(prefix_len(inner, |c: char| c != '\'') == i - index - 1);
    }
    let ni = if i < chars.len() {
        i + 1
    } else {
        i
    };
    tokens.push(chars_to_string(&current));
    proof {
        assert(final(tokens).deep_view() =~= old(tokens).deep_view().push(
            chars@.subrange(index + 1, i as int),
        ));
    }
    ni
}

/// Consumes a parenthesized span starting at the opening parenthesis at
/// `index` and pushes the span's interior as one token; an unterminated span
/// consumes to the end of the input. Returns the position after the span.
pub fn process_paren(chars: &Vec<char>, index: usize, tokens: &mut Vec<String>) -> (ni: usize)
    requires
        index < chars@.len(),
    ensures
        ({
            let inner = chars@.skip(index as int).drop_first();
            let n = prefix_len(inner, |c: char| c != ')');
            &&& ni == index + (if n == inner.len() {
                1 + n
            } else {
                2 + n
            })
            &&& index < ni <= chars@.len()
            &&& final(tokens).deep_view() == old(tokens).deep_view().push(
                chars@.subrange(index + 1, index + 1 + n),
            )
        }),
{
    let ghost inner = chars@.skip(index as int).drop_first();
    proof {
        assert(inner =~= chars@.skip(index + 1));
    }
    let total = chars.len();
    let mut current: Vec<char> = Vec::new();
    let mut i: usize = index + 1;
    loop
        invariant
            index + 1 <= i <= chars@.len(),
            inner == chars@.skip(index as int).drop_first(),
            inner =~= chars@.skip(index + 1),
            current@ == chars@.subrange(index + 1, i as int),
            forall|j: int| index + 1 <= j < i ==> chars@[j] != ')',
            tokens == old(tokens),
        ensures
            index + 1 <= i <= chars@.len(),
            current@ == chars@.subrange(index + 1, i as int),
            forall|j: int| index + 1 <= j < i ==> chars@[j] != ')',
            i < chars@.len() ==> chars@[i as int] == ')',
            tokens == old(tokens),
        decreases chars@.len() - i,
    {
        if i >= chars.len() {
            break ;
        }
        let c = chars[i];
        if c == ')' {
            break ;
        }
        current.push(c);
        proof {
            assert(chars@.subrange(index + 1, i + 1) =~= chars@.subrange(index + 1, i as int).push(
                chars@[i as int],
            ));
        }
        i = i + 1;
    }
    proof {
        lemma_prefix_len_at(chars@, index + 1, i as int, |c: char| c != ')');
        assert(prefix_len(inner, |c: char| c != ')') == i - index - 1);
    }
    let ni = if i < chars.len() {
        i + 1
    } else {
        i
    };
    tokens.push(chars_to_string(&current));
    proof {
        assert(final(tokens).deep_view() =~= old(tokens).deep_view().push(
            chars@.subrange(index + 1, i as int),
        ));
    }
    ni
}

/// Consumes a run of characters that are neither alphanumeric nor whitespace,
/// starting at `index`, and pushes it as one token; returns the position
/// after the run.
pub fn process_other(chars: &Vec<char>, index: usize, tokens: &mut Vec<String>) -> (ni: usize)
    requires
        index < chars@.len(),
        other_char(chars@[index as int]),
    ensures
        ({
            let n = prefix_len(chars@.skip(index as int), |c: char| other_char(c));
            &&& ni == index + n
            &&& index < ni <= chars@.len()
            &&& final(tokens).deep_view() == old(tokens).deep_view().push(
                chars@.subrange(index as int, ni as int),
            )
        }),
{
    let mut current: Vec<char> = Vec::new();
    let mut i: usize = index;
    loop
        invariant
            index <= i <= chars@.len(),
            current@ == chars@.subrange(index as int, i as int),
            forall|j: int| index <= j < i ==> other_char(chars@[j]),
            tokens == old(tokens),
        ensures
            index <= i <= chars@.len(),
            current@ == chars@.subrange(index as int, i as int),
            forall|j: int| index <= j < i ==> other_char(chars@[j]),
            i < chars@.len() ==> !other_char(chars@[i as int]),
            tokens == old(tokens),
        decreases chars@.len() - i,
    {
        if i >= chars.len() {
            break ;
        }
        let c = chars[i];
        if char_is_alphabetic(c) || char_is_numeric(c) || char_is_whitespace(c) {
            break ;
        }
        current.push(c);
        proof {
            assert(chars@.subrange(index as int, i + 1) =~= chars@.subrange(
                index as int,
                i as int,
            ).push(chars@[i as int]));
        }
        i = i + 1;
    }
    proof {
        lemma_prefix_len_at(chars@, index as int, i as int, |c: char| other_char(c));
    }
    tokens.push(chars_to_string(&current));
    proof {
        assert(final(tokens).deep_view() =~= old(tokens).deep_view().push(
            chars@.subrange(index as int, i as int),
        ));
    }
    i
}

/// One scan step extends the collected tokens by the step's token and moves
/// the remainder forward.
proof fn lemma_invariant_step(all: Seq<char>, tks0: Seq<Seq<char>>, tok: Seq<char>, i0: int, ni: int)
    requires
        scan(all.skip(i0)) == seq![tok] + scan(all.skip(ni)),
    ensures
        tks0.push(tok) + scan(all.skip(ni)) == tks0 + scan(all.skip(i0)),
{
    assert(tks0.push(tok) + scan(all.skip(ni)) =~= tks0 + (seq![tok] + scan(all.skip(ni))));
}

/// A scan over `s` from `start` that stopped at `stop` measured the prefix
/// length of the suffix at `start`.
proof fn lemma_prefix_len_at(s: Seq<char>, start: int, stop: int, p: spec_fn(char) -> bool)
    requires
        0 <= start <= stop <= s.len(),
        forall|j: int| start <= j < stop ==> p(s[j]),
        stop < s.len() ==> !p(s[stop]),
    ensures
        prefix_len(s.skip(start), p) == stop - start,
{
    let suffix = s.skip(start);
    assert(forall|j: int| 0 <= j < stop - start ==> p(suffix[j]));
    lemma_prefix_len(suffix, p, stop - start);
}

} // verus!
