//! Splitting a display name into tokens: at whitespace, and inside each piece
//! at the boundaries between lower case, upper case and everything else.

use vstd::prelude::*;
use vstd::string::StrSliceExecFns;
use crate::text::{
    char_is_alphabetic, char_is_lowercase, char_is_whitespace, chars_of, is_alphabetic,
    is_lowercase, is_whitespace, str_eq, views,
};

verus! {

/// The class of one character.
#[derive(Clone, Copy, Debug, PartialEq, Eq, Structural)]
pub enum Case {
    /// Not alphabetic: digits, punctuation, symbols.
    Other,
    /// Alphabetic and lowercase.
    Lower,
    /// Alphabetic and not lowercase.
    Upper,
}

/// How the class changes from one character to the next.
#[derive(Clone, Copy, Debug, PartialEq, Eq, Structural)]
pub enum Diff {
    /// Both characters have the same class.
    Same,
    /// Lower case, then upper case.
    Rising,
    /// Upper case, then lower case.
    Sinking,
    /// Into or out of the non-alphabetic class.
    CharType,
}

/// The class of a character with the given two properties.
pub open spec fn case_from(alphabetic: bool, lowercase: bool) -> Case {
    if !alphabetic {
        Case::Other
    } else if lowercase {
        Case::Lower
    } else {
        Case::Upper
    }
}

/// The class of `c`.
pub open spec fn case_of(c: char) -> Case {
    case_from(char_is_alphabetic(c), char_is_lowercase(c))
}

/// The classes of the characters of `s`, position by position.
pub open spec fn cases_of(s: Seq<char>) -> Seq<Case> {
    Seq::new(s.len(), |i: int| case_of(s[i]))
}

/// The change of class from `prev` to `next`.
pub open spec fn diff_of(prev: Case, next: Case) -> Diff {
    match (prev, next) {
        (Case::Other, Case::Other) | (Case::Lower, Case::Lower) | (Case::Upper, Case::Upper) => {
            Diff::Same
        },
        (Case::Lower, Case::Upper) => Diff::Rising,
        (Case::Upper, Case::Lower) => Diff::Sinking,
        _ => Diff::CharType,
    }
}

impl Case {
    /// The class of a character that is alphabetic, lowercase, both or neither.
    pub fn classify(alphabetic: bool, lowercase: bool) -> (case: Case)
        ensures
            case == case_from(alphabetic, lowercase),
    {
        match (alphabetic, lowercase) {
            (false, _) => Case::Other,
            (true, true) => Case::Lower,
            (true, false) => Case::Upper,
        }
    }

    /// The class of `target`.
    pub fn from(target: char) -> (case: Case)
        ensures
            case == case_of(target),
    {
        Case::classify(is_alphabetic(target), is_lowercase(target))
    }

    /// The change of class from `self` to `another`.
    pub fn diff(&self, another: &Case) -> (d: Diff)
        ensures
            d == diff_of(*self, *another),
    {
        match (*self, *another) {
            (Case::Other, Case::Other) | (Case::Lower, Case::Lower) | (Case::Upper, Case::Upper) => {
                Diff::Same
            },
            (Case::Lower, Case::Upper) => Diff::Rising,
            (Case::Upper, Case::Lower) => Diff::Sinking,
            _ => Diff::CharType,
        }
    }
}

/// Whether a token ends just before position `i`.
///
/// A change into or out of the non-alphabetic class always ends a token, and
/// so does a change from lower to upper case. A change from upper to lower
/// case ends one only after a run of two or more capitals: a single capital
/// stays with the small letters that follow it.
pub open spec fn is_camel_boundary(cases: Seq<Case>, i: int) -> bool {
    &&& 0 < i < cases.len()
    &&& match diff_of(cases[i - 1], cases[i]) {
        Diff::Same => false,
        Diff::Rising => true,
        Diff::CharType => true,
        Diff::Sinking => i >= 2 && cases[i - 2] == Case::Upper,
    }
}

/// The pieces of `s` from position `start` on, cut at every boundary at or
/// after position `i`.
pub open spec fn segments(s: Seq<char>, start: int, i: int) -> Seq<Seq<char>>
    decreases s.len() - i,
{
    if i >= s.len() {
        seq![s.subrange(start, s.len() as int)]
    } else if is_camel_boundary(cases_of(s), i) {
        seq![s.subrange(start, i)] + segments(s, i, i + 1)
    } else {
        segments(s, start, i + 1)
    }
}

/// The tokens of one piece of text without whitespace: `s` cut at each of its
/// boundaries. The empty string has no tokens.
pub open spec fn camel_tokens(s: Seq<char>) -> Seq<Seq<char>> {
    if s.len() == 0 {
        Seq::empty()
    } else {
        segments(s, 0, 1)
    }
}

/// The positions at which a text with these classes is cut, in increasing
/// order.
///
/// Walks the classes once, remembering where the current token began: a
/// change from upper to lower case cuts only when the token so far is longer
/// than one character.
pub fn camel_boundaries(cases: &Vec<Case>) -> (cuts: Vec<usize>)
    ensures
        forall|a: int, b: int| 0 <= a < b < cuts@.len() ==> cuts@[a] < cuts@[b],
        forall|k: int| 0 <= k < cuts@.len() ==> is_camel_boundary(cases@, #[trigger] cuts@[k] as int),
        forall|i: int| is_camel_boundary(cases@, i) ==> cuts@.contains(i as usize),
{
    let mut cuts: Vec<usize> = Vec::new();
    if cases.len() == 0 {
        return cuts;
    }
    let mut start_index: usize = 0;
    let mut prev_case = cases[0];
    let mut index: usize = 1;
    while index < cases.len()
        invariant
            1 <= index <= cases@.len(),
            start_index < index,
            prev_case == cases@[index - 1],
            start_index == 0 || is_camel_boundary(cases@, start_index as int),
            forall|j: int| start_index < j < index ==> !is_camel_boundary(cases@, j),
            cuts@.len() == 0 ==> start_index == 0,
            cuts@.len() > 0 ==> cuts@[cuts@.len() - 1] == start_index,
            forall|a: int, b: int| 0 <= a < b < cuts@.len() ==> cuts@[a] < cuts@[b],
            forall|k: int|
                0 <= k < cuts@.len() ==> is_camel_boundary(cases@, #[trigger] cuts@[k] as int),
            forall|i: int|
                0 <= i < index && is_camel_boundary(cases@, i) ==> cuts@.contains(i as usize),
        decreases cases@.len() - index,
    {
        let case = cases[index];
        let diff = prev_case.diff(&case);
        let cut = match diff {
            Diff::Sinking => index - start_index > 1,
            Diff::CharType => true,
            Diff::Rising => true,
            Diff::Same => false,
        };
        assert(cut == is_camel_boundary(cases@, index as int)) by {
            if diff == Diff::Sinking && index - start_index > 1 {
                assert(!is_camel_boundary(cases@, index - 1));
            }
        }
        if cut {
            let ghost before = cuts@;
            cuts.push(index);
            start_index = index;
            proof {
                assert forall|i: int|
                    0 <= i < index + 1 && is_camel_boundary(cases@, i) implies cuts@.contains(
                    i as usize,
                ) by {
                    if i < index {
                        let k = choose|k: int| 0 <= k < before.len() && before[k] == i as usize;
                        assert(cuts@[k] == i as usize);
                    } else {
                        assert(cuts@[before.len() as int] == i as usize);
                    }
                }
            }
        }
        prev_case = case;
        index += 1;
    }
    cuts
}

proof fn lemma_segments_skip(s: Seq<char>, start: int, i: int, c: int)
    requires
        0 <= start < i <= c <= s.len(),
        forall|j: int| i <= j < c ==> !is_camel_boundary(cases_of(s), j),
    ensures
        segments(s, start, i) == segments(s, start, c),
    decreases c - i,
{
    if i < c {
        lemma_segments_skip(s, start, i + 1, c);
    }
}

/// Appends to `out` the tokens of the characters of `name` in `from..to`.
fn camel_tokens_in<'a>(
    name: &'a str,
    chars: &Vec<char>,
    from: usize,
    to: usize,
    out: &mut Vec<&'a str>,
)
    requires
        chars@ == name@,
        from <= to <= chars@.len(),
    ensures
        views(final(out)@) == views(old(out)@) + camel_tokens(chars@.subrange(from as int, to as int)),
{
    let ghost piece = chars@.subrange(from as int, to as int);
    let ghost before = views(out@);
    if from == to {
        return;
    }
    let mut cases: Vec<Case> = Vec::new();
    let mut i: usize = from;
    while i < to
        invariant
            from <= i <= to <= chars@.len(),
            cases@.len() == i - from,
            forall|k: int| 0 <= k < cases@.len() ==> cases@[k] == case_of(chars@[from + k]),
        decreases to - i,
    {
        cases.push(Case::from(chars[i]));
        i += 1;
    }
    let cuts = camel_boundaries(&cases);
    let ghost mut done: Seq<Seq<char>> = Seq::empty();
    let mut start: usize = 0;
    let mut k: usize = 0;
    while k < cuts.len()
        invariant
            chars@ == name@,
            from < to <= chars@.len(),
            piece == chars@.subrange(from as int, to as int),
            cases@ == cases_of(piece),
            k <= cuts@.len(),
            0 <= start < piece.len(),
            k == 0 ==> start == 0,
            k > 0 ==> start == cuts@[k - 1],
            forall|a: int, b: int| 0 <= a < b < cuts@.len() ==> cuts@[a] < cuts@[b],
            forall|m: int|
                0 <= m < cuts@.len() ==> is_camel_boundary(cases@, #[trigger] cuts@[m] as int),
            forall|i: int| is_camel_boundary(cases@, i) ==> cuts@.contains(i as usize),
            views(out@) == before + done,
            done + segments(piece, start as int, start + 1) == camel_tokens(piece),
        decreases cuts@.len() - k,
    {
        let cut = cuts[k];
        proof {
            assert forall|j: int| start < j < cut implies !is_camel_boundary(cases@, j) by {
                if is_camel_boundary(cases@, j) {
                    assert(cuts@.contains(j as usize));
                }
            }
            lemma_segments_skip(piece, start as int, start + 1, cut as int);
        }
        let token = name.substring_char(from + start, from + cut);
        let ghost old_out = out@;
        out.push(token);
        proof {
            assert(token@ =~= piece.subrange(start as int, cut as int));
            assert(views(out@) =~= views(old_out).push(token@));
            done = done.push(token@);
        }
        start = cut;
        k += 1;
    }
    proof {
        assert forall|j: int| start < j < piece.len() implies !is_camel_boundary(cases@, j) by {
            if is_camel_boundary(cases@, j) {
                assert(cuts@.contains(j as usize));
            }
        }
        lemma_segments_skip(piece, start as int, start + 1, piece.len() as int);
    }
    let token = name.substring_char(from + start, to);
    let ghost old_out = out@;
    out.push(token);
    proof {
        assert(token@ =~= piece.subrange(start as int, piece.len() as int));
        assert(views(out@) =~= views(old_out).push(token@));
    }
}

/// Cuts one piece of text into its tokens: at every change
/// between lower case, upper case and non-alphabetic characters, except that
/// a single capital stays with the small letters after it.
pub fn tokenize_camel_case<'a>(name: &'a str) -> (tokens: Vec<&'a str>)
    ensures
        views(tokens@) == camel_tokens(name@),
{
    let chars = chars_of(name);
    let mut tokens: Vec<&'a str> = Vec::new();
    camel_tokens_in(name, &chars, 0, chars.len(), &mut tokens);
    assert(chars@.subrange(0, chars@.len() as int) =~= name@);
    tokens
}

/// The position of the first whitespace character in `s`, or its length if
/// it has none.
pub open spec fn first_whitespace(s: Seq<char>) -> int
    decreases s.len(),
{
    if s.len() == 0 || char_is_whitespace(s[0]) {
        0
    } else {
        1 + first_whitespace(s.skip(1))
    }
}

/// The tokens of a name: it is split at each whitespace character, and each
/// piece is cut at its case boundaries. No piece has whitespace left at its
/// ends, and a piece that is empty gives no token.
pub open spec fn tokens_of(s: Seq<char>) -> Seq<Seq<char>>
    decreases s.len(),
{
    let i = first_whitespace(s);
    let head = camel_tokens(s.take(i));
    if 0 <= i < s.len() {
        head + tokens_of(s.skip(i + 1))
    } else {
        head
    }
}

/// A token that carries no meaning for matching.
pub open spec fn is_stop_word(token: Seq<char>) -> bool {
    token == "and"@ || token == "&"@ || token == "And"@
}

/// The tokens of a name that count when a query is matched against it:
/// its tokens without the stop words.
pub open spec fn clean_tokens_of(s: Seq<char>) -> Seq<Seq<char>> {
    tokens_of(s).filter(|token: Seq<char>| !is_stop_word(token))
}

proof fn lemma_first_whitespace(s: Seq<char>, i: int)
    requires
        0 <= i <= s.len(),
        forall|k: int| 0 <= k < i ==> !char_is_whitespace(s[k]),
        i == s.len() || char_is_whitespace(s[i]),
    ensures
        first_whitespace(s) == i,
    decreases i,
{
    if i > 0 {
        lemma_first_whitespace(s.skip(1), i - 1);
    }
}

/// Splits a name into tokens: at whitespace, and inside each piece at its
/// case boundaries. Pieces that hold nothing give no token.
pub fn tokenize<'a>(name: &'a str) -> (tokens: Vec<&'a str>)
    ensures
        views(tokens@) == tokens_of(name@),
{
    let chars = chars_of(name);
    let n = chars.len();
    let mut tokens: Vec<&'a str> = Vec::new();
    let mut pos: usize = 0;
    assert(chars@.skip(0) =~= chars@);
    loop
        invariant_except_break
            pos <= n,
            views(tokens@) + tokens_of(chars@.skip(pos as int)) == tokens_of(chars@),
        invariant
            chars@ == name@,
            n == chars@.len(),
        ensures
            views(tokens@) == tokens_of(chars@),
        decreases n - pos,
    {
        let ghost rest = chars@.skip(pos as int);
        let mut end: usize = pos;
        while end < n && !is_whitespace(chars[end])
            invariant
                pos <= end <= n,
                n == chars@.len(),
                forall|k: int| pos <= k < end ==> !char_is_whitespace(chars@[k]),
            decreases n - end,
        {
            end += 1;
        }
        proof {
            lemma_first_whitespace(rest, end - pos);
            assert(rest.take(end - pos) =~= chars@.subrange(pos as int, end as int));
        }
        camel_tokens_in(name, &chars, pos, end, &mut tokens);
        if end >= n {
            break;
        }
        proof {
            assert(rest.skip(end - pos + 1) =~= chars@.skip(end + 1));
        }
        pos = end + 1;
    }
    tokens
}

/// Splits a name into the tokens that count when a query is matched against
/// it: the tokens of `tokenize`, without the stop words `and`, `&` and `And`.
pub fn tokenize_and_clean<'a>(name: &'a str) -> (tokens: Vec<&'a str>)
    ensures
        views(tokens@) == clean_tokens_of(name@),
{
    let all = tokenize(name);
    let mut tokens: Vec<&'a str> = Vec::new();
    let ghost keep = |token: Seq<char>| !is_stop_word(token);
    let mut k: usize = 0;
    assert(views(tokens@) =~= views(all@).take(0).filter(keep)) by {
        reveal(Seq::filter);
    }
    while k < all.len()
        invariant
            k <= all@.len(),
            keep == |token: Seq<char>| !is_stop_word(token),
            views(tokens@) == views(all@).take(k as int).filter(keep),
        decreases all@.len() - k,
    {
        let token = all[k];
        let stop = str_eq(token, "and") || str_eq(token, "&") || str_eq(token, "And");
        if !stop {
            tokens.push(token);
        }
        proof {
            reveal(Seq::filter);
            let next = views(all@).take(k + 1);
            assert(next.drop_last() =~= views(all@).take(k as int));
        }
        k += 1;
    }
    assert(views(all@).take(all@.len() as int) =~= views(all@));
    tokens
}

/// The tokens of a piece are a partition of it: none is empty, and put one
/// after the other they give the piece back.
pub proof fn lemma_camel_tokens_partition(s: Seq<char>)
    ensures
        camel_tokens(s).flatten() == s,
        forall|k: int| 0 <= k < camel_tokens(s).len() ==> (#[trigger] camel_tokens(s)[k]).len() > 0,
{
    if s.len() > 0 {
        lemma_segments_partition(s, 0, 1);
    }
}

proof fn lemma_segments_partition(s: Seq<char>, start: int, i: int)
    requires
        0 <= start < i <= s.len(),
    ensures
        segments(s, start, i).flatten() == s.subrange(start, s.len() as int),
        forall|k: int|
            0 <= k < segments(s, start, i).len() ==> (#[trigger] segments(s, start, i)[k]).len()
                > 0,
    decreases s.len() - i,
{
    let all = segments(s, start, i);
    if i >= s.len() {
        assert(all.drop_first().flatten() =~= Seq::<char>::empty());
    } else if is_camel_boundary(cases_of(s), i) {
        lemma_segments_partition(s, i, i + 1);
        assert(all.drop_first() =~= segments(s, i, i + 1));
    } else {
        lemma_segments_partition(s, start, i + 1);
    }
}

/// Whether `s` holds no whitespace.
pub open spec fn has_no_whitespace(s: Seq<char>) -> bool {
    forall|j: int| 0 <= j < s.len() ==> !char_is_whitespace(#[trigger] s[j])
}

/// No token of a name is empty, and none holds whitespace: there is nothing
/// left to trim from a piece, and nothing left of a piece that held
/// whitespace only.
pub proof fn lemma_tokens_are_words(s: Seq<char>)
    ensures
        forall|k: int|
            0 <= k < tokens_of(s).len() ==> (#[trigger] tokens_of(s)[k]).len() > 0
                && has_no_whitespace(tokens_of(s)[k]),
    decreases s.len(),
{
    let i = first_whitespace(s);
    let piece = s.take(i);
    lemma_first_whitespace_bounds(s);
    lemma_camel_tokens_partition(piece);
    assert(has_no_whitespace(piece));
    if piece.len() > 0 {
        lemma_segments_hold_no_whitespace(piece, 0, 1);
    }
    if i < s.len() {
        lemma_tokens_are_words(s.skip(i + 1));
        assert(tokens_of(s) == camel_tokens(piece) + tokens_of(s.skip(i + 1)));
    }
}

proof fn lemma_first_whitespace_bounds(s: Seq<char>)
    ensures
        0 <= first_whitespace(s) <= s.len(),
        forall|k: int| 0 <= k < first_whitespace(s) ==> !char_is_whitespace(#[trigger] s[k]),
    decreases s.len(),
{
    if s.len() > 0 && !char_is_whitespace(s[0]) {
        let rest = s.skip(1);
        lemma_first_whitespace_bounds(rest);
        assert forall|k: int| 0 <= k < first_whitespace(s) implies !char_is_whitespace(
            #[trigger] s[k],
        ) by {
            if k > 0 {
                assert(s[k] == rest[k - 1]);
            }
        }
    }
}

proof fn lemma_segments_hold_no_whitespace(s: Seq<char>, start: int, i: int)
    requires
        0 <= start < i <= s.len(),
        has_no_whitespace(s),
    ensures
        forall|k: int|
            0 <= k < segments(s, start, i).len() ==> has_no_whitespace(
                #[trigger] segments(s, start, i)[k],
            ),
    decreases s.len() - i,
{
    let all = segments(s, start, i);
    if i >= s.len() {
        let only = s.subrange(start, s.len() as int);
        assert(has_no_whitespace(only));
        assert(all == seq![only]);
    } else if is_camel_boundary(cases_of(s), i) {
        let head = s.subrange(start, i);
        lemma_segments_hold_no_whitespace(s, i, i + 1);
        assert(has_no_whitespace(head));
        assert(all == seq![head] + segments(s, i, i + 1));
    } else {
        lemma_segments_hold_no_whitespace(s, start, i + 1);
        assert(all == segments(s, start, i + 1));
    }
}

} // verus!
