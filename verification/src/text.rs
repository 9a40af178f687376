//! Character sequences: searching, splitting, trimming and decimal numerals.
//!
//! Every text of the protocol is modelled as a `Seq<char>`. The executable
//! functions work on `Vec<char>` and are proved against the spec functions
//! defined here.

use itertools::Itertools;
use vstd::prelude::*;

verus! {

/// `pat` stands in `s` at index `at`.
pub open spec fn occurs_at(s: Seq<char>, pat: Seq<char>, at: int) -> bool {
    0 <= at && at + pat.len() <= s.len() && s.subrange(at, at + pat.len()) == pat
}

/// The least index at or after `from` at which `pat` stands in `s`.
pub open spec fn first_occurrence_from(s: Seq<char>, pat: Seq<char>, from: int) -> Option<int>
    decreases s.len() + 1 - from,
{
    if from < 0 || from + pat.len() > s.len() {
        None
    } else if occurs_at(s, pat, from) {
        Some(from)
    } else {
        first_occurrence_from(s, pat, from + 1)
    }
}

/// The index of the leftmost occurrence of `pat` in `s`.
pub open spec fn first_occurrence(s: Seq<char>, pat: Seq<char>) -> Option<int> {
    first_occurrence_from(s, pat, 0)
}

/// `first_occurrence_from` finds an occurrence that no other one at or after
/// `from` precedes, and finds none only where there is none.
pub proof fn lemma_first_occurrence_from(s: Seq<char>, pat: Seq<char>, from: int)
    requires
        0 <= from,
    ensures
        match first_occurrence_from(s, pat, from) {
            Some(at) => from <= at && occurs_at(s, pat, at) && forall|j: int|
                from <= j < at ==> !occurs_at(s, pat, j),
            None => forall|j: int| from <= j ==> !occurs_at(s, pat, j),
        },
    decreases s.len() + 1 - from,
{
    if from + pat.len() <= s.len() && !occurs_at(s, pat, from) {
        lemma_first_occurrence_from(s, pat, from + 1);
    }
}

/// Searching the rest of `s` after `from` finds what searching `s` from
/// `from` finds, counted from `from`.
pub proof fn lemma_first_occurrence_skip(s: Seq<char>, pat: Seq<char>, from: int)
    requires
        0 <= from <= s.len(),
    ensures
        first_occurrence(s.skip(from), pat) == match first_occurrence_from(s, pat, from) {
            Some(at) => Some(at - from),
            None => None::<int>,
        },
{
    let rest = s.skip(from);
    assert forall|j: int| 0 <= j implies occurs_at(rest, pat, j) == occurs_at(s, pat, j + from) by {
        if j + pat.len() <= rest.len() {
            assert(rest.subrange(j, j + pat.len()) =~= s.subrange(j + from, j + from + pat.len()));
        }
    }
    lemma_first_occurrence_from(s, pat, from);
    lemma_first_occurrence_from(rest, pat, 0);
    match first_occurrence_from(s, pat, from) {
        Some(at) => {
            assert(occurs_at(rest, pat, at - from));
            match first_occurrence(rest, pat) {
                Some(found) => {
                    assert(occurs_at(s, pat, found + from));
                },
                None => {},
            }
        },
        None => {
            match first_occurrence(rest, pat) {
                Some(found) => {
                    assert(occurs_at(s, pat, found + from));
                },
                None => {},
            }
        },
    }
}

/// `pat` stands nowhere in `s`.
pub open spec fn free_of(s: Seq<char>, pat: Seq<char>) -> bool {
    forall|i: int| !occurs_at(s, pat, i)
}

/// A text that holds the first character of a pattern nowhere holds the
/// pattern nowhere.
pub proof fn lemma_free_of(s: Seq<char>, pat: Seq<char>)
    requires
        pat.len() > 0,
        forall|i: int| 0 <= i < s.len() ==> s[i] != pat[0],
    ensures
        free_of(s, pat),
{
    assert forall|i: int| !occurs_at(s, pat, i) by {
        if 0 <= i && i + pat.len() <= s.len() {
            assert(s.subrange(i, i + pat.len())[0] == s[i]);
        }
    }
}

/// The pieces of `s` between the occurrences of `sep`, leftmost occurrence
/// first, occurrences not overlapping. There is always at least one piece;
/// with an empty `sep` the one piece is `s` itself.
pub open spec fn split(s: Seq<char>, sep: Seq<char>) -> Seq<Seq<char>>
    decreases s.len(),
{
    if sep.len() == 0 {
        seq![s]
    } else {
        match first_occurrence(s, sep) {
            Some(at) => {
                proof {
                    lemma_first_occurrence_from(s, sep, 0);
                }
                seq![s.take(at)] + split(s.skip(at + sep.len()), sep)
            },
            None => seq![s],
        }
    }
}

/// The text of each piece.
pub open spec fn texts(parts: Seq<Vec<char>>) -> Seq<Seq<char>> {
    parts.map_values(|part: Vec<char>| part@)
}

/// The text of each string.
pub open spec fn string_texts(parts: Seq<String>) -> Seq<Seq<char>> {
    parts.map_values(|part: String| part@)
}

/// The parts one after the other, with `sep` between each two.
pub open spec fn join(parts: Seq<Seq<char>>, sep: Seq<char>) -> Seq<char>
    decreases parts.len(),
{
    if parts.len() == 0 {
        Seq::empty()
    } else if parts.len() == 1 {
        parts[0]
    } else {
        join(parts.drop_last(), sep) + sep + parts.last()
    }
}

/// The parts one after the other.
pub open spec fn concat(parts: Seq<Seq<char>>) -> Seq<char>
    decreases parts.len(),
{
    if parts.len() == 0 {
        Seq::empty()
    } else {
        concat(parts.drop_last()) + parts.last()
    }
}

/// Joining with nothing in between is concatenation.
pub proof fn lemma_join_empty_separator(parts: Seq<Seq<char>>)
    ensures
        join(parts, Seq::empty()) == concat(parts),
    decreases parts.len(),
{
    if parts.len() == 1 {
        assert(concat(parts.drop_last()) =~= Seq::<char>::empty());
        assert(concat(parts) =~= parts[0]);
    } else if parts.len() > 1 {
        lemma_join_empty_separator(parts.drop_last());
        assert(join(parts, Seq::empty()) =~= concat(parts));
    }
}

/// The characters with the Unicode property White_Space.
pub open spec fn is_whitespace(c: char) -> bool {
    ||| '\u{9}' <= c <= '\u{d}'
    ||| c == ' '
    ||| c == '\u{85}'
    ||| c == '\u{a0}'
    ||| c == '\u{1680}'
    ||| '\u{2000}' <= c <= '\u{200a}'
    ||| c == '\u{2028}'
    ||| c == '\u{2029}'
    ||| c == '\u{202f}'
    ||| c == '\u{205f}'
    ||| c == '\u{3000}'
}

/// `s` without the whitespace at its end.
pub open spec fn trim_end(s: Seq<char>) -> Seq<char>
    decreases s.len(),
{
    if s.len() > 0 && is_whitespace(s.last()) {
        trim_end(s.drop_last())
    } else {
        s
    }
}

/// Where the run of characters that are not whitespace ends, which begins
/// at `from`: the index of the first whitespace at or after `from`, or the
/// length of `s` where none follows.
pub open spec fn word_end(s: Seq<char>, from: int) -> int
    decreases s.len() - from,
{
    if from < 0 || from >= s.len() || is_whitespace(s[from]) {
        from
    } else {
        word_end(s, from + 1)
    }
}

/// `word_end` stops at the first whitespace, or at the end of the text.
pub proof fn lemma_word_end(s: Seq<char>, from: int)
    requires
        0 <= from <= s.len(),
    ensures
        from <= word_end(s, from) <= s.len(),
        forall|j: int| from <= j < word_end(s, from) ==> !is_whitespace(s[j]),
        word_end(s, from) == s.len() || is_whitespace(s[word_end(s, from)]),
        from < s.len() && !is_whitespace(s[from]) ==> from < word_end(s, from),
    decreases s.len() - from,
{
    if from < s.len() && !is_whitespace(s[from]) {
        lemma_word_end(s, from + 1);
    }
}

/// The tokens of `s` that begin at or after `from`.
pub open spec fn tokens_from(s: Seq<char>, from: int) -> Seq<Seq<char>>
    decreases s.len() - from,
{
    if from < 0 || from >= s.len() {
        Seq::empty()
    } else if is_whitespace(s[from]) {
        tokens_from(s, from + 1)
    } else {
        proof {
            lemma_word_end(s, from);
        }
        seq![s.subrange(from, word_end(s, from))] + tokens_from(s, word_end(s, from))
    }
}

/// The whitespace-delimited tokens of `s`: its maximal runs of characters
/// that are not whitespace, in order. Whitespace at either end, and more
/// than one whitespace between two tokens, gives no empty token.
pub open spec fn tokens(s: Seq<char>) -> Seq<Seq<char>> {
    tokens_from(s, 0)
}

/// No token is empty, and none holds whitespace.
pub proof fn lemma_tokens_are_words(s: Seq<char>, from: int)
    requires
        0 <= from,
    ensures
        forall|i: int|
            0 <= i < tokens_from(s, from).len() ==> (#[trigger] tokens_from(s, from)[i]).len() > 0,
        forall|i: int, j: int|
            0 <= i < tokens_from(s, from).len() && 0 <= j < tokens_from(s, from)[i].len()
                ==> !is_whitespace(#[trigger] tokens_from(s, from)[i][j]),
    decreases s.len() - from,
{
    if from < s.len() {
        if is_whitespace(s[from]) {
            lemma_tokens_are_words(s, from + 1);
            assert(tokens_from(s, from) == tokens_from(s, from + 1));
        } else {
            lemma_word_end(s, from);
            let end = word_end(s, from);
            let first = s.subrange(from, end);
            let rest = tokens_from(s, end);
            lemma_tokens_are_words(s, end);
            let all = tokens_from(s, from);
            assert(all == seq![first] + rest);
            assert(all[0] == first && first.len() > 0);
            assert forall|i: int| 0 <= i < all.len() implies (#[trigger] all[i]).len() > 0 by {
                if i > 0 {
                    assert(all[i] == rest[i - 1]);
                }
            }
            assert forall|i: int, j: int| 0 <= i < all.len() && 0 <= j < all[i].len()
                implies !is_whitespace(#[trigger] all[i][j]) by {
                if i > 0 {
                    assert(all[i] == rest[i - 1]);
                } else {
                    assert(all[0][j] == s[from + j]);
                }
            }
        }
    }
}

/// The ten decimal digits, in order of their value.
pub open spec fn digits() -> Seq<char> {
    seq!['0', '1', '2', '3', '4', '5', '6', '7', '8', '9']
}

/// The decimal numeral of `n`, without leading zeros.
pub open spec fn decimal(n: nat) -> Seq<char>
    decreases n,
{
    if n < 10 {
        seq![digits()[n as int]]
    } else {
        decimal(n / 10).push(digits()[(n % 10) as int])
    }
}

/// The value of a decimal digit.
pub open spec fn digit_value(c: char) -> nat {
    if '0' <= c <= '9' {
        (c as int - '0' as int) as nat
    } else {
        0
    }
}

/// The number that a decimal numeral stands for.
pub open spec fn decimal_value(s: Seq<char>) -> nat
    decreases s.len(),
{
    if s.len() == 0 {
        0
    } else {
        decimal_value(s.drop_last()) * 10 + digit_value(s.last())
    }
}

/// Each digit has its place in `digits` as its value.
pub proof fn lemma_digit_value(d: nat)
    requires
        d < 10,
    ensures
        '0' <= digits()[d as int] <= '9',
        digit_value(digits()[d as int]) == d,
        digits()[d as int] as int == '0' as int + d,
{
    let all = digits();
    assert(all[0] == '0' && all[1] == '1' && all[2] == '2' && all[3] == '3' && all[4] == '4');
    assert(all[5] == '5' && all[6] == '6' && all[7] == '7' && all[8] == '8' && all[9] == '9');
}

/// A numeral stands for the number it was written from.
pub proof fn lemma_decimal_value(n: nat)
    ensures
        decimal_value(decimal(n)) == n,
        decimal(n).len() > 0,
    decreases n,
{
    lemma_digit_value(n % 10);
    if n < 10 {
        assert(decimal(n).drop_last() =~= Seq::<char>::empty());
        assert(decimal_value(Seq::<char>::empty()) == 0);
    } else {
        lemma_decimal_value(n / 10);
        assert(decimal(n).drop_last() =~= decimal(n / 10));
    }
}

/// A numeral is made of digits.
pub proof fn lemma_decimal_digits(n: nat)
    ensures
        forall|i: int| 0 <= i < decimal(n).len() ==> '0' <= #[trigger] decimal(n)[i] <= '9',
    decreases n,
{
    lemma_digit_value(n % 10);
    if n >= 10 {
        lemma_decimal_digits(n / 10);
        let front = decimal(n / 10);
        assert forall|i: int| 0 <= i < decimal(n).len() implies '0' <= #[trigger] decimal(n)[i]
            <= '9' by {
            if i < front.len() {
                assert(decimal(n)[i] == front[i]);
            }
        }
    }
}

/// `Itertools::collect_vec` on `str::chars`: the characters of `s`, in order.
#[verifier::external_body]
pub(crate) fn chars_of(s: &str) -> (chars: Vec<char>)
    ensures
        chars@ == s@,
{
    s.chars().collect_vec()
}

/// `Itertools::join` on the strings of `parts`: each string as it is, in
/// order, with `sep` between each two and none before the first or after the
/// last.
#[verifier::external_body]
pub(crate) fn join_with(parts: &Vec<String>, sep: &str) -> (joined: String)
    ensures
        joined@ == join(string_texts(parts@), sep@),
{
    parts.iter().join(sep)
}

/// `String::push` appends one character.
pub assume_specification[ String::push ](s: &mut String, ch: char)
    ensures
        final(s)@ == old(s)@.push(ch),
;

/// The string that holds `chars[from..to]`.
pub fn string_of(chars: &Vec<char>, from: usize, to: usize) -> (s: String)
    requires
        from <= to <= chars.len(),
    ensures
        s@ == chars@.subrange(from as int, to as int),
{
    let mut s = String::new();
    let mut i: usize = from;
    while i < to
        invariant
            from <= i <= to <= chars.len(),
            s@ == chars@.subrange(from as int, i as int),
        decreases to - i,
    {
        s.push(chars[i]);
        i += 1;
        assert(chars@.subrange(from as int, i as int) =~= chars@.subrange(
            from as int,
            i - 1,
        ).push(chars@[i - 1]));
    }
    s
}

/// A copy of `chars[from..to]`.
pub fn slice_of(chars: &Vec<char>, from: usize, to: usize) -> (part: Vec<char>)
    requires
        from <= to <= chars.len(),
    ensures
        part@ == chars@.subrange(from as int, to as int),
{
    let mut part: Vec<char> = Vec::new();
    let mut i: usize = from;
    while i < to
        invariant
            from <= i <= to <= chars.len(),
            part@ == chars@.subrange(from as int, i as int),
        decreases to - i,
    {
        part.push(chars[i]);
        i += 1;
        assert(chars@.subrange(from as int, i as int) =~= chars@.subrange(
            from as int,
            i - 1,
        ).push(chars@[i - 1]));
    }
    part
}

/// Whether two character sequences are the same.
pub fn same_text(a: &Vec<char>, b: &Vec<char>) -> (same: bool)
    ensures
        same == (a@ == b@),
{
    if a.len() != b.len() {
        return false;
    }
    let mut i: usize = 0;
    while i < a.len()
        invariant
            i <= a.len() == b.len(),
            forall|j: int| 0 <= j < i ==> a@[j] == b@[j],
        decreases a.len() - i,
    {
        if a[i] != b[i] {
            return false;
        }
        i += 1;
    }
    assert(a@ =~= b@);
    true
}

/// Whether `pat` stands in `s` at index `at`.
pub fn occurs(s: &Vec<char>, pat: &Vec<char>, at: usize) -> (found: bool)
    ensures
        found == occurs_at(s@, pat@, at as int),
{
    if pat.len() > s.len() || at > s.len() - pat.len() {
        return false;
    }
    let mut k: usize = 0;
    while k < pat.len()
        invariant
            k <= pat.len(),
            at + pat.len() <= s.len(),
            forall|j: int| 0 <= j < k ==> s@[at + j] == pat@[j],
        decreases pat.len() - k,
    {
        if s[at + k] != pat[k] {
            assert(s@.subrange(at as int, at + pat.len())[k as int] != pat@[k as int]);
            return false;
        }
        k += 1;
    }
    assert(s@.subrange(at as int, at + pat.len()) =~= pat@);
    true
}

/// The index of the leftmost occurrence of `pat` in `s` at or after `from`.
pub fn find_from(s: &Vec<char>, pat: &Vec<char>, from: usize) -> (found: Option<usize>)
    ensures
        match found {
            Some(at) => first_occurrence_from(s@, pat@, from as int) == Some(at as int),
            None => first_occurrence_from(s@, pat@, from as int) is None,
        },
{
    if pat.len() > s.len() || from > s.len() - pat.len() {
        return None;
    }
    let last: usize = s.len() - pat.len();
    let mut i: usize = from;
    loop
        invariant
            from <= i <= last,
            last == s.len() - pat.len(),
            first_occurrence_from(s@, pat@, from as int) == first_occurrence_from(
                s@,
                pat@,
                i as int,
            ),
        decreases last - i,
    {
        if occurs(s, pat, i) {
            return Some(i);
        }
        if i == last {
            assert(first_occurrence_from(s@, pat@, i + 1) is None);
            return None;
        }
        i += 1;
    }
}

/// The pieces of `s` between the occurrences of `sep`.
pub fn split_on(s: &Vec<char>, sep: &Vec<char>) -> (parts: Vec<Vec<char>>)
    ensures
        texts(parts@) == split(s@, sep@),
{
    let mut parts: Vec<Vec<char>> = Vec::new();
    let mut start: usize = 0;
    if sep.len() > 0 {
        assert(s@.skip(0) =~= s@);
        assert(texts(parts@) + split(s@, sep@) =~= split(s@, sep@));
        loop
            invariant_except_break
                start <= s.len(),
                sep.len() > 0,
                split(s@, sep@) == texts(parts@) + split(s@.skip(start as int), sep@),
            ensures
                start <= s.len(),
                split(s@, sep@) == texts(parts@).push(s@.skip(start as int)),
            decreases s.len() - start,
        {
            proof {
                lemma_first_occurrence_skip(s@, sep@, start as int);
                lemma_first_occurrence_from(s@, sep@, start as int);
            }
            match find_from(s, sep, start) {
                Some(at) => {
                    let ghost before = texts(parts@);
                    let ghost rest = s@.skip(start as int);
                    parts.push(slice_of(s, start, at));
                    proof {
                        assert(rest.take(at - start) =~= s@.subrange(start as int, at as int));
                        assert(rest.skip(at - start + sep.len()) =~= s@.skip(at + sep.len()));
                        assert(texts(parts@) =~= before.push(rest.take(at - start)));
                        assert(split(s@, sep@) =~= texts(parts@) + split(
                            s@.skip(at + sep.len()),
                            sep@,
                        ));
                    }
                    start = at + sep.len();
                },
                None => {
                    proof {
                        assert(texts(parts@) + seq![s@.skip(start as int)] =~= texts(parts@).push(
                            s@.skip(start as int),
                        ));
                    }
                    break ;
                },
            }
        }
    } else {
        assert(s@.skip(0) =~= s@);
        assert(texts(parts@).push(s@) =~= seq![s@]);
    }
    let ghost before = texts(parts@);
    parts.push(slice_of(s, start, s.len()));
    proof {
        assert(s@.subrange(start as int, s.len() as int) =~= s@.skip(start as int));
        assert(texts(parts@) =~= before.push(s@.skip(start as int)));
    }
    parts
}

/// Whether `c` is whitespace.
pub fn is_space(c: char) -> (space: bool)
    ensures
        space == is_whitespace(c),
{
    ('\u{9}' <= c && c <= '\u{d}') || c == ' ' || c == '\u{85}' || c == '\u{a0}' || c
        == '\u{1680}' || ('\u{2000}' <= c && c <= '\u{200a}') || c == '\u{2028}' || c
        == '\u{2029}' || c == '\u{202f}' || c == '\u{205f}' || c == '\u{3000}'
}

/// The length of `s` without the whitespace at its end.
pub fn trimmed_len(s: &Vec<char>) -> (len: usize)
    ensures
        len <= s.len(),
        s@.take(len as int) == trim_end(s@),
{
    let mut len: usize = s.len();
    assert(s@.take(len as int) =~= s@);
    while len > 0 && is_space(s[len - 1])
        invariant
            len <= s.len(),
            trim_end(s@.take(len as int)) == trim_end(s@),
        decreases len,
    {
        assert(s@.take(len as int).drop_last() =~= s@.take(len - 1));
        len -= 1;
    }
    len
}

/// The whitespace-delimited tokens of `s`.
pub fn tokens_of(s: &Vec<char>) -> (parts: Vec<Vec<char>>)
    ensures
        texts(parts@) == tokens(s@),
{
    let mut parts: Vec<Vec<char>> = Vec::new();
    let mut i: usize = 0;
    assert(texts(parts@) + tokens_from(s@, 0) =~= tokens(s@));
    while i < s.len()
        invariant
            i <= s.len(),
            tokens(s@) == texts(parts@) + tokens_from(s@, i as int),
        decreases s.len() - i,
    {
        if is_space(s[i]) {
            i += 1;
        } else {
            let mut end: usize = i + 1;
            while end < s.len() && !is_space(s[end])
                invariant
                    i < end <= s.len(),
                    word_end(s@, i as int) == word_end(s@, end as int),
                decreases s.len() - end,
            {
                end += 1;
            }
            let ghost before = texts(parts@);
            parts.push(slice_of(s, i, end));
            proof {
                assert(texts(parts@) =~= before.push(s@.subrange(i as int, end as int)));
                assert(before + (seq![s@.subrange(i as int, end as int)] + tokens_from(
                    s@,
                    end as int,
                )) =~= texts(parts@) + tokens_from(s@, end as int));
            }
            i = end;
        }
    }
    assert(texts(parts@) + tokens_from(s@, i as int) =~= texts(parts@));
    parts
}

/// The decimal numeral of `n`.
pub fn decimal_string(n: usize) -> (s: String)
    ensures
        s@ == decimal(n as nat),
{
    let mut reversed: Vec<char> = Vec::new();
    let mut rest: usize = n;
    loop
        invariant_except_break
            decimal(n as nat) == decimal(rest as nat) + reversed@.reverse(),
        ensures
            decimal(n as nat) == reversed@.reverse(),
        decreases rest,
    {
        let ghost before = reversed@;
        let digit: u8 = (rest % 10) as u8;
        reversed.push((48u8 + digit) as char);
        proof {
            lemma_digit_value((rest % 10) as nat);
        }
        assert(reversed@.last() == digits()[(rest % 10) as int]);
        assert(reversed@.reverse() =~= seq![reversed@.last()] + before.reverse());
        if rest < 10 {
            break ;
        }
        assert(decimal(rest as nat) + before.reverse() =~= decimal((rest / 10) as nat)
            + reversed@.reverse());
        rest = rest / 10;
    }
    let mut s = String::new();
    let mut i: usize = reversed.len();
    while i > 0
        invariant
            i <= reversed.len(),
            s@ == reversed@.reverse().take(reversed.len() - i),
        decreases i,
    {
        i -= 1;
        s.push(reversed[i]);
        assert(reversed@.reverse().take(reversed.len() - i) =~= reversed@.reverse().take(
            reversed.len() - i - 1,
        ).push(reversed@[i as int]));
    }
    assert(reversed@.reverse().take(reversed.len() as int) =~= reversed@.reverse());
    s
}

} // verus!
