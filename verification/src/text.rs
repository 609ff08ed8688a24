//! Text as a sequence of characters: trimming, searching, replacing, joining and decimal numbers.

use vstd::prelude::*;

use crate::json::option_text;

verus! {

/// `String::push` appends one character.
pub assume_specification[ String::push ](s: &mut String, c: char)
    ensures
        final(s)@ == old(s)@.push(c),
;

/// `String::push_str` appends a text.
pub assume_specification[ String::push_str ](s: &mut String, t: &str)
    ensures
        final(s)@ == old(s)@ + t@,
;

/// `String::is_empty` tells whether a text has no character.
pub assume_specification[ String::is_empty ](s: &String) -> (empty: bool)
    ensures
        empty == (s@.len() == 0),
;

/// `==` on `str`: two texts are equal when they hold the same characters.
#[verifier::external_body]
pub(crate) fn same_text(a: &str, b: &str) -> (same: bool)
    ensures
        same == (a@ == b@),
{
    a == b
}

/// The characters with the Unicode property White_Space.
pub open spec fn is_space(c: char) -> bool {
    ||| '\u{9}' <= c <= '\u{d}'
    ||| c == ' '
    ||| c == '\u{85}'
    ||| c == '\u{a0}'
    ||| c == '\u{1680}'
    ||| '\u{2000}' <= c <= '\u{200a}'
    ||| c == '\u{2028}'
    ||| c == '\u{2029}'
    ||| c == '\u{202f}'
    ||| c == '\u{205f}'
    ||| c == '\u{3000}'
}

/// Whether `c` is white space.
pub fn char_is_space(c: char) -> (space: bool)
    ensures
        space == is_space(c),
{
    ('\u{9}' <= c && c <= '\u{d}') || c == ' ' || c == '\u{85}' || c == '\u{a0}' || c == '\u{1680}'
        || ('\u{2000}' <= c && c <= '\u{200a}') || c == '\u{2028}' || c == '\u{2029}' || c
        == '\u{202f}' || c == '\u{205f}' || c == '\u{3000}'
}

/// `s` without its leading white space.
pub open spec fn trim_start_of(s: Seq<char>) -> Seq<char>
    decreases s.len(),
{
    if s.len() > 0 && is_space(s[0]) {
        trim_start_of(s.drop_first())
    } else {
        s
    }
}

/// `s` without its trailing white space.
pub open spec fn trim_end_of(s: Seq<char>) -> Seq<char>
    decreases s.len(),
{
    if s.len() > 0 && is_space(s.last()) {
        trim_end_of(s.drop_last())
    } else {
        s
    }
}

/// `s` without white space at either end.
pub open spec fn trim_of(s: Seq<char>) -> Seq<char> {
    trim_end_of(trim_start_of(s))
}

proof fn lemma_trim_start(s: Seq<char>)
    ensures
        trim_start_of(s).len() > 0 ==> !is_space(trim_start_of(s)[0]),
    decreases s.len(),
{
    if s.len() > 0 && is_space(s[0]) {
        lemma_trim_start(s.drop_first());
    }
}

proof fn lemma_trim_end(s: Seq<char>)
    ensures
        trim_end_of(s).len() <= s.len(),
        trim_end_of(s) == s.take(trim_end_of(s).len() as int),
        trim_end_of(s).len() > 0 ==> !is_space(trim_end_of(s).last()),
    decreases s.len(),
{
    if s.len() > 0 && is_space(s.last()) {
        lemma_trim_end(s.drop_last());
        let kept = trim_end_of(s).len() as int;
        assert(s.drop_last().take(kept) =~= s.take(kept));
    } else {
        assert(s.take(s.len() as int) =~= s);
    }
}

/// A text that was trimmed is not changed by trimming it again.
pub proof fn law_trimmed_once(s: Seq<char>)
    ensures
        trim_of(trim_of(s)) == trim_of(s),
{
    lemma_trim_start(s);
    lemma_trim_end(trim_start_of(s));
}

/// The characters of a text.
pub fn chars_of(s: &str) -> (chars: Vec<char>)
    ensures
        chars@ == s@,
{
    let mut chars: Vec<char> = Vec::new();
    for c in it: s.chars()
        invariant
            chars@ == s@.take(it.index()),
            it.seq() == s@,
    {
        chars.push(c);
        proof {
            assert(s@.take(it.index() + 1) =~= s@.take(it.index()).push(s@[it.index()]));
        }
    }
    assert(s@.take(s@.len() as int) =~= s@);
    chars
}

/// The text made of the characters from `from` up to `to`.
pub fn text_between(chars: &Vec<char>, from: usize, to: usize) -> (s: String)
    requires
        from <= to <= chars@.len(),
    ensures
        s@ == chars@.subrange(from as int, to as int),
{
    let mut s = String::new();
    let mut i: usize = from;
    while i < to
        invariant
            from <= i <= to <= chars@.len(),
            s@ == chars@.subrange(from as int, i as int),
        decreases to - i,
    {
        s.push(chars[i]);
        assert(chars@.subrange(from as int, i as int).push(chars@[i as int]) =~= chars@.subrange(
            from as int,
            i + 1,
        ));
        i += 1;
    }
    s
}

/// The first position at or after `from` that is not white space, or the length.
fn skip_spaces(chars: &Vec<char>) -> (start: usize)
    ensures
        start <= chars@.len(),
        trim_start_of(chars@) == chars@.skip(start as int),
{
    let mut i: usize = 0;
    assert(chars@.skip(0) =~= chars@);
    while i < chars.len() && char_is_space(chars[i])
        invariant
            i <= chars@.len(),
            trim_start_of(chars@) == trim_start_of(chars@.skip(i as int)),
        decreases chars@.len() - i,
    {
        assert(chars@.skip(i as int).drop_first() =~= chars@.skip(i + 1));
        i += 1;
    }
    i
}

/// `s` without its leading white space.
pub fn trim_start(s: &str) -> (r: String)
    ensures
        r@ == trim_start_of(s@),
{
    let chars = chars_of(s);
    let start: usize = skip_spaces(&chars);
    text_between(&chars, start, chars.len())
}

/// `s` without its trailing white space.
pub fn trim_end(s: &str) -> (r: String)
    ensures
        r@ == trim_end_of(s@),
{
    let chars = chars_of(s);
    let mut end: usize = chars.len();
    assert(chars@.take(end as int) =~= chars@);
    while end > 0 && char_is_space(chars[end - 1])
        invariant
            end <= chars@.len(),
            trim_end_of(chars@) == trim_end_of(chars@.take(end as int)),
        decreases end,
    {
        assert(chars@.take(end as int).drop_last() =~= chars@.take(end - 1));
        end -= 1;
    }
    assert(chars@.take(end as int) =~= chars@.subrange(0, end as int));
    text_between(&chars, 0, end)
}

/// `s` without white space at either end.
pub fn trim(s: &str) -> (r: String)
    ensures
        r@ == trim_of(s@),
{
    let front = trim_start(s);
    trim_end(&front)
}

/// `s` without the characters `c` at its end.
pub open spec fn trim_end_char_of(s: Seq<char>, c: char) -> Seq<char>
    decreases s.len(),
{
    if s.len() > 0 && s.last() == c {
        trim_end_char_of(s.drop_last(), c)
    } else {
        s
    }
}

/// `s` without the characters `c` at its end.
pub fn trim_end_char(s: &str, c: char) -> (r: String)
    ensures
        r@ == trim_end_char_of(s@, c),
{
    let chars = chars_of(s);
    let mut end: usize = chars.len();
    assert(chars@.take(end as int) =~= chars@);
    while end > 0 && chars[end - 1] == c
        invariant
            end <= chars@.len(),
            trim_end_char_of(chars@, c) == trim_end_char_of(chars@.take(end as int), c),
        decreases end,
    {
        assert(chars@.take(end as int).drop_last() =~= chars@.take(end - 1));
        end -= 1;
    }
    assert(chars@.take(end as int) =~= chars@.subrange(0, end as int));
    text_between(&chars, 0, end)
}

/// The first `n` characters of `s`, or all of them where there are fewer.
pub open spec fn first_chars_of(s: Seq<char>, n: int) -> Seq<char> {
    if s.len() <= n {
        s
    } else {
        s.take(n)
    }
}

/// The first `n` characters of `s`, or all of them where there are fewer.
pub fn first_chars(s: &str, n: usize) -> (r: String)
    ensures
        r@ == first_chars_of(s@, n as int),
{
    let chars = chars_of(s);
    let end: usize = if chars.len() <= n {
        chars.len()
    } else {
        n
    };
    let r = text_between(&chars, 0, end);
    assert(r@ =~= first_chars_of(s@, n as int));
    r
}

/// Whether nothing but white space is in `s`.
pub open spec fn is_blank(s: Seq<char>) -> bool {
    trim_of(s).len() == 0
}

/// Whether nothing but white space is in `s`.
pub fn blank(s: &str) -> (r: bool)
    ensures
        r == is_blank(s@),
{
    trim(s).is_empty()
}

/// Whether `pat` stands in `s` at position `at`.
pub open spec fn occurs_at(s: Seq<char>, pat: Seq<char>, at: int) -> bool {
    0 <= at && at + pat.len() <= s.len() && s.subrange(at, at + pat.len()) == pat
}

/// Whether `pat` stands anywhere in `s`.
pub open spec fn has_text(s: Seq<char>, pat: Seq<char>) -> bool {
    exists|at: int| occurs_at(s, pat, at)
}

/// The first position from `from` on at which `pat` stands in `s`.
pub open spec fn find_from(s: Seq<char>, pat: Seq<char>, from: int) -> Option<int>
    decreases s.len() - from + 1,
{
    if from < 0 || from + pat.len() > s.len() {
        None
    } else if occurs_at(s, pat, from) {
        Some(from)
    } else {
        find_from(s, pat, from + 1)
    }
}

/// Whether `pat` stands in `s` at `at`.
pub fn stands_at(s: &Vec<char>, pat: &Vec<char>, at: usize) -> (r: bool)
    requires
        at <= s@.len(),
    ensures
        r == occurs_at(s@, pat@, at as int),
{
    if pat.len() > s.len() - at {
        return false;
    }
    let mut k: usize = 0;
    while k < pat.len()
        invariant
            at + pat.len() <= s.len(),
            k <= pat@.len(),
            forall|j: int| 0 <= j < k ==> s@[at + j] == #[trigger] pat@[j],
        decreases pat@.len() - k,
    {
        if s[at + k] != pat[k] {
            assert(s@.subrange(at as int, at + pat@.len())[k as int] != pat@[k as int]);
            return false;
        }
        k += 1;
    }
    assert(s@.subrange(at as int, at + pat@.len()) =~= pat@);
    true
}

/// The first position from `from` on at which `pat` stands in `s`.
pub fn find_at(s: &Vec<char>, pat: &Vec<char>, from: usize) -> (r: Option<usize>)
    requires
        from <= s@.len(),
    ensures
        match r {
            Some(i) => find_from(s@, pat@, from as int) == Some(i as int),
            None => find_from(s@, pat@, from as int) is None,
        },
{
    let mut i: usize = from;
    loop
        invariant
            from <= i <= s@.len(),
            find_from(s@, pat@, from as int) == find_from(s@, pat@, i as int),
        decreases s@.len() - i,
    {
        if pat.len() > s.len() - i {
            return None;
        }
        if stands_at(s, pat, i) {
            return Some(i);
        }
        if i == s.len() {
            assert(s@.subrange(i as int, i as int) =~= pat@);
            return None;
        }
        i += 1;
    }
}

/// A position that `find_from` gives is the first one.
pub proof fn lemma_find_first(s: Seq<char>, pat: Seq<char>, from: int)
    requires
        0 <= from,
    ensures
        match find_from(s, pat, from) {
            Some(i) => from <= i && occurs_at(s, pat, i) && forall|j: int|
                from <= j < i ==> !occurs_at(s, pat, j),
            None => forall|j: int| from <= j ==> !occurs_at(s, pat, j),
        },
    decreases s.len() - from + 1,
{
    if from + pat.len() > s.len() || occurs_at(s, pat, from) {
    } else {
        lemma_find_first(s, pat, from + 1);
    }
}

/// Whether `pat` stands anywhere in `s`.
pub fn contains_text(s: &str, pat: &str) -> (r: bool)
    ensures
        r == has_text(s@, pat@),
{
    let chars = chars_of(s);
    let wanted = chars_of(pat);
    proof {
        lemma_find_first(s@, pat@, 0);
    }
    find_at(&chars, &wanted, 0).is_some()
}

/// Whether `s` holds the character `c`.
pub fn contains_char(s: &str, c: char) -> (r: bool)
    ensures
        r == s@.contains(c),
{
    let chars = chars_of(s);
    let mut i: usize = 0;
    while i < chars.len()
        invariant
            i <= chars@.len(),
            chars@ == s@,
            forall|j: int| 0 <= j < i ==> chars@[j] != c,
        decreases chars@.len() - i,
    {
        if chars[i] == c {
            return true;
        }
        i += 1;
    }
    false
}

/// Whether `s` begins with `prefix`.
pub open spec fn begins_with(s: Seq<char>, prefix: Seq<char>) -> bool {
    occurs_at(s, prefix, 0)
}

/// Whether `s` begins with `prefix`.
pub fn starts_with(s: &str, prefix: &str) -> (r: bool)
    ensures
        r == begins_with(s@, prefix@),
{
    let chars = chars_of(s);
    let wanted = chars_of(prefix);
    stands_at(&chars, &wanted, 0)
}

/// Whether `s` ends with `suffix`.
pub open spec fn finishes_with(s: Seq<char>, suffix: Seq<char>) -> bool {
    occurs_at(s, suffix, s.len() - suffix.len())
}

/// Whether `s` ends with `suffix`.
pub fn ends_with(s: &str, suffix: &str) -> (r: bool)
    ensures
        r == finishes_with(s@, suffix@),
{
    let chars = chars_of(s);
    let wanted = chars_of(suffix);
    if wanted.len() > chars.len() {
        return false;
    }
    stands_at(&chars, &wanted, chars.len() - wanted.len())
}

/// What follows `prefix` in `s`, where `s` begins with it.
pub open spec fn without_prefix(s: Seq<char>, prefix: Seq<char>) -> Option<Seq<char>> {
    if begins_with(s, prefix) {
        Some(s.skip(prefix.len() as int))
    } else {
        None
    }
}

/// What follows `prefix` in `s`, where `s` begins with it.
pub fn strip_prefix(s: &str, prefix: &str) -> (r: Option<String>)
    ensures
        match r {
            Some(rest) => without_prefix(s@, prefix@) == Some(rest@),
            None => without_prefix(s@, prefix@) is None,
        },
{
    let chars = chars_of(s);
    let wanted = chars_of(prefix);
    if stands_at(&chars, &wanted, 0) {
        let rest = text_between(&chars, wanted.len(), chars.len());
        assert(rest@ =~= s@.skip(prefix@.len() as int));
        Some(rest)
    } else {
        None
    }
}

/// `s` without any `prefix` at its start, however often it stands there.
pub open spec fn trim_prefix_of(s: Seq<char>, prefix: Seq<char>) -> Seq<char>
    decreases s.len(),
{
    if prefix.len() > 0 && begins_with(s, prefix) {
        trim_prefix_of(s.skip(prefix.len() as int), prefix)
    } else {
        s
    }
}

/// `s` without any `prefix` at its start, however often it stands there.
pub fn trim_prefix(s: &str, prefix: &str) -> (r: String)
    ensures
        r@ == trim_prefix_of(s@, prefix@),
{
    let mut rest = s.to_owned();
    if prefix.is_empty() {
        return rest;
    }
    loop
        invariant
            prefix@.len() > 0,
            trim_prefix_of(s@, prefix@) == trim_prefix_of(rest@, prefix@),
        decreases rest@.len(),
    {
        match strip_prefix(&rest, prefix) {
            Some(shorter) => {
                rest = shorter;
            },
            None => {
                return rest;
            },
        }
    }
}

/// The texts before and after the first `pat` in `s`.
pub open spec fn split_once_of(s: Seq<char>, pat: Seq<char>) -> Option<(Seq<char>, Seq<char>)> {
    match find_from(s, pat, 0) {
        Some(i) => Some((s.take(i), s.skip(i + pat.len()))),
        None => None,
    }
}

/// The texts before and after the first `pat` in `s`.
pub fn split_once(s: &str, pat: &str) -> (r: Option<(String, String)>)
    ensures
        match r {
            Some(p) => split_once_of(s@, pat@) == Some((p.0@, p.1@)),
            None => split_once_of(s@, pat@) is None,
        },
{
    let chars = chars_of(s);
    let wanted = chars_of(pat);
    proof {
        lemma_find_first(s@, pat@, 0);
    }
    match find_at(&chars, &wanted, 0) {
        Some(i) => {
            let before = text_between(&chars, 0, i);
            assert(occurs_at(s@, pat@, i as int));
            assert(i + wanted.len() <= chars.len());
            let after = text_between(&chars, i + wanted.len(), chars.len());
            assert(before@ =~= s@.take(i as int));
            assert(after@ =~= s@.skip(i + pat@.len()));
            Some((before, after))
        },
        None => None,
    }
}

/// `s` from position `i` on, with every `pat` replaced by `with`, from left to right.
pub open spec fn replaced_from(s: Seq<char>, pat: Seq<char>, with: Seq<char>, i: int) -> Seq<char>
    decreases s.len() - i,
{
    if i < 0 || i >= s.len() || pat.len() == 0 {
        s.skip(i)
    } else if occurs_at(s, pat, i) {
        with + replaced_from(s, pat, with, i + pat.len())
    } else {
        seq![s[i]] + replaced_from(s, pat, with, i + 1)
    }
}

/// `s` with `with` before, between and behind its characters.
pub open spec fn spread_of(s: Seq<char>, with: Seq<char>) -> Seq<char>
    decreases s.len(),
{
    if s.len() == 0 {
        with
    } else {
        spread_of(s.drop_last(), with).push(s.last()) + with
    }
}

/// `s` with every `pat` replaced by `with`, from left to right. The empty text stands before,
/// between and behind all characters.
pub open spec fn replace_of(s: Seq<char>, pat: Seq<char>, with: Seq<char>) -> Seq<char> {
    if pat.len() == 0 {
        spread_of(s, with)
    } else {
        replaced_from(s, pat, with, 0)
    }
}

/// `s` with every `pat` replaced by `with`, from left to right.
pub fn replace(s: &str, pat: &str, with: &str) -> (r: String)
    ensures
        r@ == replace_of(s@, pat@, with@),
{
    let chars = chars_of(s);
    let wanted = chars_of(pat);
    let mut out = String::new();
    let mut i: usize = 0;
    if wanted.len() == 0 {
        out.push_str(with);
        assert(out@ =~= spread_of(chars@.take(0), with@));
        while i < chars.len()
            invariant
                i <= chars@.len(),
                out@ == spread_of(chars@.take(i as int), with@),
            decreases chars@.len() - i,
        {
            out.push(chars[i]);
            out.push_str(with);
            assert(chars@.take(i + 1).drop_last() =~= chars@.take(i as int));
            i += 1;
        }
        assert(chars@.take(i as int) =~= s@);
        return out;
    }
    while i < chars.len()
        invariant
            i <= chars@.len(),
            chars@ == s@,
            wanted@ == pat@,
            pat@.len() > 0,
            out@ + replaced_from(s@, pat@, with@, i as int) =~= replace_of(s@, pat@, with@),
        decreases chars@.len() - i,
    {
        if stands_at(&chars, &wanted, i) {
            out.push_str(with);
            i += wanted.len();
        } else {
            out.push(chars[i]);
            i += 1;
        }
    }
    out
}

/// The pieces of `parts` with `sep` between each two.
pub open spec fn join_of(parts: Seq<Seq<char>>, sep: Seq<char>) -> Seq<char>
    decreases parts.len(),
{
    if parts.len() == 0 {
        Seq::empty()
    } else if parts.len() == 1 {
        parts[0]
    } else {
        join_of(parts.drop_last(), sep) + sep + parts.last()
    }
}

/// The texts of a list of strings.
pub open spec fn texts(list: Seq<String>) -> Seq<Seq<char>> {
    Seq::new(list.len(), |i: int| list[i]@)
}

/// The pieces of `parts` with `sep` between each two.
pub fn join(parts: &Vec<String>, sep: &str) -> (r: String)
    ensures
        r@ == join_of(texts(parts@), sep@),
{
    let mut out = String::new();
    let mut i: usize = 0;
    while i < parts.len()
        invariant
            i <= parts@.len(),
            out@ == join_of(texts(parts@).take(i as int), sep@),
        decreases parts@.len() - i,
    {
        if i > 0 {
            out.push_str(sep);
        }
        out.push_str(&parts[i]);
        proof {
            let next = texts(parts@).take(i + 1);
            assert(next.drop_last() =~= texts(parts@).take(i as int));
            assert(next.last() == parts@[i as int]@);
        }
        i += 1;
    }
    assert(texts(parts@).take(i as int) =~= texts(parts@));
    out
}

/// The pieces of `s` between the characters `sep`.
pub open spec fn split_of(s: Seq<char>, sep: char) -> Seq<Seq<char>>
    decreases s.len(),
{
    if s.len() == 0 {
        seq![Seq::empty()]
    } else {
        let front = split_of(s.drop_last(), sep);
        if s.last() == sep {
            front.push(Seq::empty())
        } else {
            front.drop_last().push(front.last().push(s.last()))
        }
    }
}

/// There is always at least one piece.
pub proof fn lemma_split_nonempty(s: Seq<char>, sep: char)
    ensures
        split_of(s, sep).len() >= 1,
    decreases s.len(),
{
    if s.len() > 0 {
        lemma_split_nonempty(s.drop_last(), sep);
    }
}

/// The pieces of `s` between the characters `sep`.
pub fn split(s: &str, sep: char) -> (parts: Vec<String>)
    ensures
        texts(parts@) == split_of(s@, sep),
{
    let chars = chars_of(s);
    let mut parts: Vec<String> = Vec::new();
    let mut current = String::new();
    let mut i: usize = 0;
    assert(texts(parts@).push(current@) =~= split_of(chars@.take(0), sep));
    while i < chars.len()
        invariant
            i <= chars@.len(),
            texts(parts@).push(current@) =~= split_of(chars@.take(i as int), sep),
        decreases chars@.len() - i,
    {
        proof {
            lemma_split_nonempty(chars@.take(i as int), sep);
            assert(chars@.take(i + 1).drop_last() =~= chars@.take(i as int));
            assert(chars@.take(i + 1).last() == chars@[i as int]);
        }
        let ghost before = texts(parts@).push(current@);
        assert(before.drop_last() =~= texts(parts@));
        if chars[i] == sep {
            parts.push(current);
            assert(texts(parts@) =~= before);
            current = String::new();
        } else {
            current.push(chars[i]);
        }
        i += 1;
    }
    assert(chars@.take(i as int) =~= s@);
    let ghost before = texts(parts@).push(current@);
    parts.push(current);
    assert(texts(parts@) =~= before);
    parts
}

/// The decimal digit for `d`.
pub open spec fn digit_of(d: nat) -> char {
    (48 + d) as char
}

/// `n` in decimal.
pub open spec fn decimal_of(n: nat) -> Seq<char>
    decreases n,
{
    if n < 10 {
        seq![digit_of(n)]
    } else {
        decimal_of(n / 10).push(digit_of(n % 10))
    }
}

/// A decimal number has at least one digit.
pub proof fn lemma_decimal_nonempty(n: nat)
    ensures
        decimal_of(n).len() >= 1,
    decreases n,
{
    if n >= 10 {
        lemma_decimal_nonempty(n / 10);
    }
}

/// Different numbers are written differently.
pub proof fn lemma_decimal_injective(a: nat, b: nat)
    requires
        decimal_of(a) == decimal_of(b),
    ensures
        a == b,
    decreases a,
{
    assert(digit_of(a % 10) as int == 48 + a % 10);
    assert(digit_of(b % 10) as int == 48 + b % 10);
    if a < 10 && b < 10 {
        assert(decimal_of(a)[0] == digit_of(a % 10));
        assert(decimal_of(b)[0] == digit_of(b % 10));
    } else if a < 10 {
        lemma_decimal_nonempty(b / 10);
        assert(decimal_of(b).len() == decimal_of(b / 10).len() + 1);
        assert(decimal_of(a).len() == 1);
    } else if b < 10 {
        lemma_decimal_nonempty(a / 10);
        assert(decimal_of(a).len() == decimal_of(a / 10).len() + 1);
        assert(decimal_of(b).len() == 1);
    } else {
        assert(decimal_of(a).last() == digit_of(a % 10));
        assert(decimal_of(b).last() == digit_of(b % 10));
        assert(decimal_of(a).drop_last() =~= decimal_of(a / 10));
        assert(decimal_of(b).drop_last() =~= decimal_of(b / 10));
        assert(decimal_of(a).last() == decimal_of(b).last());
        lemma_decimal_injective(a / 10, b / 10);
    }
}

/// `n` in decimal, with a minus sign where it is negative.
pub open spec fn signed_decimal_of(n: int) -> Seq<char> {
    if n < 0 {
        seq!['-'] + decimal_of((-n) as nat)
    } else {
        decimal_of(n as nat)
    }
}

/// `n` in decimal.
pub fn decimal(n: u64) -> (s: String)
    ensures
        s@ == decimal_of(n as nat),
    decreases n,
{
    let digit: u8 = (n % 10) as u8;
    let last = (48u8 + digit) as char;
    if n < 10 {
        let mut s = String::new();
        s.push(last);
        assert(s@ =~= seq![digit_of(n as nat)]);
        s
    } else {
        let mut s = decimal(n / 10);
        s.push(last);
        s
    }
}

/// `n` in decimal, with a minus sign where it is negative.
pub fn signed_decimal(n: i64) -> (s: String)
    ensures
        s@ == signed_decimal_of(n as int),
{
    if n < 0 {
        let size: u64 = if n == i64::MIN {
            9223372036854775808
        } else {
            (-n) as u64
        };
        let mut s = String::new();
        s.push('-');
        let digits = decimal(size);
        s.push_str(&digits);
        assert(s@ =~= seq!['-'] + decimal_of((-n) as nat));
        s
    } else {
        decimal(n as u64)
    }
}

/// Whether `c` is a decimal digit.
pub open spec fn is_digit(c: char) -> bool {
    '0' <= c <= '9'
}

/// The number that a sequence of decimal digits writes.
pub open spec fn number_of(s: Seq<char>) -> nat
    decreases s.len(),
{
    if s.len() == 0 {
        0
    } else {
        number_of(s.drop_last()) * 10 + (s.last() as nat - 48) as nat
    }
}

/// Whether `s` is one or more decimal digits.
pub open spec fn all_digits(s: Seq<char>) -> bool {
    s.len() > 0 && forall|i: int| 0 <= i < s.len() ==> is_digit(#[trigger] s[i])
}

/// The `u64` that `s` writes in decimal, with or without a leading plus sign.
pub open spec fn parse_u64_of(s: Seq<char>) -> Option<u64> {
    let digits = if s.len() > 0 && s[0] == '+' {
        s.skip(1)
    } else {
        s
    };
    if all_digits(digits) && number_of(digits) <= u64::MAX {
        Some(number_of(digits) as u64)
    } else {
        None
    }
}

/// Digits in front of others only make the number larger.
proof fn lemma_number_grows(s: Seq<char>, n: int)
    requires
        0 <= n <= s.len(),
        forall|i: int| 0 <= i < s.len() ==> is_digit(#[trigger] s[i]),
    ensures
        number_of(s.take(n)) <= number_of(s),
    decreases s.len() - n,
{
    if n < s.len() {
        lemma_number_grows(s, n + 1);
        assert(s.take(n + 1).drop_last() =~= s.take(n));
    } else {
        assert(s.take(n) =~= s);
    }
}

/// The `u64` that `s` writes in decimal, with or without a leading plus sign.
pub fn parse_u64(s: &str) -> (r: Option<u64>)
    ensures
        r == parse_u64_of(s@),
{
    let chars = chars_of(s);
    let start: usize = if chars.len() > 0 && chars[0] == '+' {
        1
    } else {
        0
    };
    let ghost digits = chars@.skip(start as int);
    assert(start == 0 ==> digits =~= chars@);
    if start == chars.len() {
        return None;
    }
    let mut value: u64 = 0;
    let mut i: usize = start;
    let mut j: usize = start;
    while j < chars.len()
        invariant
            start <= j <= chars@.len(),
            start <= 1,
            chars@ == s@,
            start == (if s@.len() > 0 && s@[0] == '+' { 1int } else { 0int }),
            digits == (if start == 1 { s@.skip(1) } else { s@ }),
            forall|k: int| 0 <= k < j - start ==> is_digit(#[trigger] digits[k]),
        decreases chars@.len() - j,
    {
        if chars[j] < '0' || chars[j] > '9' {
            assert(digits[j - start] == chars@[j as int]);
            return None;
        }
        j += 1;
    }
    while i < chars.len()
        invariant
            start <= i <= chars@.len(),
            start <= 1,
            chars@ == s@,
            start == (if s@.len() > 0 && s@[0] == '+' { 1int } else { 0int }),
            digits == (if start == 1 { s@.skip(1) } else { s@ }),
            all_digits(digits),
            value == number_of(digits.take(i - start)),
        decreases chars@.len() - i,
    {
        assert(digits[i - start] == chars@[i as int]);
        let digit: u64 = chars[i] as u64 - 48;
        proof {
            assert(digits.take(i - start + 1).drop_last() =~= digits.take(i - start));
            lemma_number_grows(digits, i - start + 1);
        }
        if value > 1844674407370955161 || (value == 1844674407370955161 && digit > 5) {
            return None;
        }
        value = value * 10 + digit;
        i += 1;
    }
    assert(digits.take(i - start) =~= digits);
    Some(value)
}

/// The `i64` that `s` writes in decimal, with or without a leading sign.
pub open spec fn parse_i64_of(s: Seq<char>) -> Option<i64> {
    let negative = s.len() > 0 && s[0] == '-';
    let digits = if s.len() > 0 && (s[0] == '+' || s[0] == '-') {
        s.skip(1)
    } else {
        s
    };
    let value = if negative {
        -(number_of(digits) as int)
    } else {
        number_of(digits) as int
    };
    if all_digits(digits) && i64::MIN <= value <= i64::MAX {
        Some(value as i64)
    } else {
        None
    }
}

/// The `i64` that `s` writes in decimal, with or without a leading sign.
pub fn parse_i64(s: &str) -> (r: Option<i64>)
    ensures
        r == parse_i64_of(s@),
{
    let chars = chars_of(s);
    if chars.len() > 0 && chars[0] == '-' {
        let rest = text_between(&chars, 1, chars.len());
        assert(rest@ =~= s@.skip(1));
        if rest.is_empty() {
            return None;
        }
        let head = chars[1];
        if head == '+' {
            assert(!is_digit(rest@[0]));
            return None;
        }
        match parse_u64(&rest) {
            None => None,
            Some(size) => {
                if size < 9223372036854775808 {
                    Some(-(size as i64))
                } else if size == 9223372036854775808 {
                    Some(i64::MIN)
                } else {
                    None
                }
            },
        }
    } else {
        match parse_u64(s) {
            None => None,
            Some(size) => {
                if size <= 9223372036854775807 {
                    Some(size as i64)
                } else {
                    None
                }
            },
        }
    }
}

/// Whether a text comes before another in the order of its characters.
pub open spec fn text_before(a: Seq<char>, b: Seq<char>) -> bool
    decreases a.len(),
{
    if b.len() == 0 {
        false
    } else if a.len() == 0 {
        true
    } else if a[0] != b[0] {
        (a[0] as int) < (b[0] as int)
    } else {
        text_before(a.skip(1), b.skip(1))
    }
}

fn char_is_less(a: char, b: char) -> (r: bool)
    ensures
        r == ((a as int) < (b as int)),
{
    (a as u32) < (b as u32)
}

/// Whether a text comes before another in the order of its characters.
pub fn is_before(a: &str, b: &str) -> (r: bool)
    ensures
        r == text_before(a@, b@),
{
    let left = chars_of(a);
    let right = chars_of(b);
    let mut i: usize = 0;
    assert(a@.skip(0) =~= a@);
    assert(b@.skip(0) =~= b@);
    while i < left.len() && i < right.len() && left[i] == right[i]
        invariant
            i <= left@.len(),
            i <= right@.len(),
            left@ == a@,
            right@ == b@,
            text_before(a@, b@) == text_before(a@.skip(i as int), b@.skip(i as int)),
        decreases left@.len() - i,
    {
        assert(a@.skip(i as int).skip(1) =~= a@.skip(i + 1));
        assert(b@.skip(i as int).skip(1) =~= b@.skip(i + 1));
        i += 1;
    }
    if i >= right.len() {
        false
    } else if i >= left.len() {
        true
    } else {
        char_is_less(left[i], right[i])
    }
}

/// The number of words of a text, which white space parts.
pub open spec fn words_of(s: Seq<char>) -> nat
    decreases s.len(),
{
    if s.len() == 0 {
        0
    } else {
        words_of(s.drop_last()) + (if !is_space(s.last()) && (s.len() == 1 || is_space(
            s[s.len() - 2],
        )) {
            1nat
        } else {
            0
        })
    }
}

/// The number of words of a text, which white space parts.
pub fn count_words(s: &str) -> (n: usize)
    ensures
        n == words_of(s@),
{
    let chars = chars_of(s);
    let mut n: usize = 0;
    let mut after_space = true;
    let mut i: usize = 0;
    while i < chars.len()
        invariant
            i <= chars@.len(),
            chars@ == s@,
            n <= i,
            n == words_of(s@.take(i as int)),
            after_space == (i == 0 || is_space(s@[i - 1])),
        decreases chars@.len() - i,
    {
        assert(s@.take(i + 1).drop_last() =~= s@.take(i as int));
        let space = char_is_space(chars[i]);
        if !space && after_space {
            n += 1;
        }
        after_space = space;
        i += 1;
    }
    assert(s@.take(i as int) =~= s@);
    n
}

/// The number of a character, with a capital letter of ASCII counted as its small one.
pub open spec fn lower_code(c: char) -> int {
    if 'A' <= c && c <= 'Z' {
        c as int + 32
    } else {
        c as int
    }
}

/// Whether a text, with the capital letters of ASCII made small, is another one.
pub open spec fn is_lowered(s: Seq<char>, lower: Seq<char>) -> bool {
    s.len() == lower.len() && forall|i: int|
        0 <= i < s.len() ==> lower_code(#[trigger] s[i]) == lower[i] as int
}

fn char_lower_code(c: char) -> (r: u32)
    ensures
        r == lower_code(c),
{
    if 'A' <= c && c <= 'Z' {
        c as u32 + 32
    } else {
        c as u32
    }
}

fn char_code(c: char) -> (r: u32)
    ensures
        r == c as int,
{
    c as u32
}

/// Whether a text, with the capital letters of ASCII made small, is another one.
pub fn lowered_is(s: &str, lower: &str) -> (r: bool)
    ensures
        r == is_lowered(s@, lower@),
{
    let left = chars_of(s);
    let right = chars_of(lower);
    if left.len() != right.len() {
        return false;
    }
    let mut i: usize = 0;
    while i < left.len()
        invariant
            i <= left@.len(),
            left@.len() == right@.len(),
            left@ == s@,
            right@ == lower@,
            forall|j: int| 0 <= j < i ==> lower_code(#[trigger] s@[j]) == lower@[j] as int,
        decreases left@.len() - i,
    {
        if char_lower_code(left[i]) != char_code(right[i]) {
            assert(lower_code(s@[i as int]) != lower@[i as int] as int);
            return false;
        }
        i += 1;
    }
    true
}

/// How far the first word of a text reaches.
pub open spec fn word_end(s: Seq<char>) -> int
    decreases s.len(),
{
    if s.len() == 0 || is_space(s[0]) {
        0
    } else {
        1 + word_end(s.skip(1))
    }
}

/// The first word of a text, and the rest of it.
pub fn split_first_word(s: &str) -> (r: (String, String))
    ensures
        r.0@ == s@.take(word_end(s@)),
        r.1@ == s@.skip(word_end(s@)),
{
    let chars = chars_of(s);
    let mut i: usize = 0;
    assert(s@.skip(0) =~= s@);
    while i < chars.len() && !char_is_space(chars[i])
        invariant
            i <= chars@.len(),
            chars@ == s@,
            word_end(s@) == i + word_end(s@.skip(i as int)),
        decreases chars@.len() - i,
    {
        assert(s@.skip(i as int).skip(1) =~= s@.skip(i + 1));
        i += 1;
    }
    let word = text_between(&chars, 0, i);
    let rest = text_between(&chars, i, chars.len());
    assert(word@ =~= s@.take(i as int));
    assert(rest@ =~= s@.skip(i as int));
    (word, rest)
}

/// Whether a text holds white space.
pub open spec fn has_space(s: Seq<char>) -> bool {
    exists|i: int| 0 <= i < s.len() && is_space(#[trigger] s[i])
}

/// Whether a text holds white space.
pub fn contains_space(s: &str) -> (r: bool)
    ensures
        r == has_space(s@),
{
    let chars = chars_of(s);
    let mut i: usize = 0;
    while i < chars.len()
        invariant
            i <= chars@.len(),
            chars@ == s@,
            forall|j: int| 0 <= j < i ==> !is_space(#[trigger] s@[j]),
        decreases chars@.len() - i,
    {
        if char_is_space(chars[i]) {
            assert(is_space(s@[i as int]));
            return true;
        }
        i += 1;
    }
    false
}

/// Ordered texts with one more, behind those that do not come after it.
pub open spec fn text_inserted(sorted: Seq<Seq<char>>, text: Seq<char>) -> Seq<Seq<char>>
    decreases sorted.len(),
{
    if sorted.len() == 0 || !text_before(text, sorted.last()) {
        sorted.push(text)
    } else {
        text_inserted(sorted.drop_last(), text).push(sorted.last())
    }
}

/// Texts in the order of their characters.
pub open spec fn texts_in_order(list: Seq<Seq<char>>) -> Seq<Seq<char>>
    decreases list.len(),
{
    if list.len() == 0 {
        Seq::empty()
    } else {
        text_inserted(texts_in_order(list.drop_last()), list.last())
    }
}

proof fn lemma_text_inserted_at(sorted: Seq<Seq<char>>, text: Seq<char>, at: int)
    requires
        0 <= at <= sorted.len(),
        at > 0 ==> !text_before(text, sorted[at - 1]),
        forall|i: int| at <= i < sorted.len() ==> text_before(text, #[trigger] sorted[i]),
    ensures
        text_inserted(sorted, text) =~= sorted.insert(at, text),
    decreases sorted.len(),
{
    if at < sorted.len() {
        let front = sorted.drop_last();
        assert forall|i: int| at <= i < front.len() implies text_before(
            text,
            #[trigger] front[i],
        ) by {
            assert(front[i] == sorted[i]);
        }
        lemma_text_inserted_at(front, text, at);
        assert(text_inserted(sorted, text) =~= sorted.insert(at, text));
    } else {
        assert(sorted.insert(at, text) =~= sorted.push(text));
    }
}

/// Of two texts at most one comes before the other.
pub proof fn lemma_text_before_strict(a: Seq<char>, b: Seq<char>)
    ensures
        text_before(a, b) ==> !text_before(b, a),
    decreases a.len(),
{
    if a.len() > 0 && b.len() > 0 && a[0] == b[0] {
        lemma_text_before_strict(a.skip(1), b.skip(1));
    }
}

/// What comes before a text comes before those that do not come ahead of it.
pub proof fn lemma_text_not_before_transitive(a: Seq<char>, b: Seq<char>, c: Seq<char>)
    ensures
        !text_before(b, a) && text_before(c, a) ==> text_before(c, b),
    decreases a.len(),
{
    if a.len() > 0 && b.len() > 0 && c.len() > 0 && a[0] == b[0] && c[0] == a[0] {
        lemma_text_not_before_transitive(a.skip(1), b.skip(1), c.skip(1));
    }
}

/// Whether no text comes before one that stands ahead of it.
pub open spec fn texts_ordered(list: Seq<Seq<char>>) -> bool {
    forall|i: int, j: int|
        0 <= i < j < list.len() ==> !text_before(
            #[trigger] list[j],
            #[trigger] list[i],
        )
}

proof fn lemma_text_inserted_ordered(sorted: Seq<Seq<char>>, text: Seq<char>)
    requires
        texts_ordered(sorted),
    ensures
        texts_ordered(text_inserted(sorted, text)),
        text_inserted(sorted, text).to_multiset() =~= sorted.to_multiset().insert(text),
        forall|i: int|
            0 <= i < text_inserted(sorted, text).len() ==> #[trigger] text_inserted(sorted, text)[i]
                == text || sorted.contains(text_inserted(sorted, text)[i]),
    decreases sorted.len(),
{
    broadcast use vstd::seq_lib::group_to_multiset_ensures;

    let r = text_inserted(sorted, text);
    if sorted.len() == 0 || !text_before(text, sorted.last()) {
        assert forall|i: int, j: int| 0 <= i < j < r.len() implies !text_before(
            #[trigger] r[j],
            #[trigger] r[i],
        ) by {
            if j == sorted.len() && i < sorted.len() - 1 {
                assert(!text_before(sorted[sorted.len() - 1], sorted[i]));
                lemma_text_not_before_transitive(sorted[i], sorted.last(), text);
            }
        }
        assert forall|i: int| 0 <= i < r.len() implies #[trigger] r[i] == text
            || sorted.contains(r[i]) by {
            if i < sorted.len() {
                assert(sorted[i] == r[i]);
            }
        }
    } else {
        let front = sorted.drop_last();
        let last = sorted.last();
        assert(texts_ordered(front)) by {
            assert forall|i: int, j: int| 0 <= i < j < front.len() implies !text_before(
                #[trigger] front[j],
                #[trigger] front[i],
            ) by {
                assert(front[j] == sorted[j] && front[i] == sorted[i]);
            }
        }
        lemma_text_inserted_ordered(front, text);
        let part = text_inserted(front, text);
        assert(sorted =~= front.push(last));
        assert forall|i: int, j: int| 0 <= i < j < r.len() implies !text_before(
            #[trigger] r[j],
            #[trigger] r[i],
        ) by {
            if j == part.len() {
                assert(r[i] == part[i]);
                if part[i] == text {
                    lemma_text_before_strict(text, last);
                } else {
                    let k = choose|k: int| 0 <= k < front.len() && front[k] == part[i];
                    assert(sorted[k] == part[i]);
                    assert(!text_before(sorted[sorted.len() - 1], sorted[k]));
                }
            } else {
                assert(r[j] == part[j] && r[i] == part[i]);
            }
        }
        assert forall|i: int| 0 <= i < r.len() implies #[trigger] r[i] == text
            || sorted.contains(r[i]) by {
            if i < part.len() {
                assert(r[i] == part[i]);
                if part[i] != text {
                    let k = choose|k: int| 0 <= k < front.len() && front[k] == part[i];
                    assert(sorted[k] == r[i]);
                }
            } else {
                assert(sorted[sorted.len() - 1] == r[i]);
            }
        }
        assert(r.to_multiset() =~= part.to_multiset().insert(last));
    }
}

/// Texts that are put in order are the same texts, and none comes before one ahead of it.
pub proof fn law_sorted_texts_are_ordered(list: Seq<Seq<char>>)
    ensures
        texts_ordered(texts_in_order(list)),
        texts_in_order(list).to_multiset() =~= list.to_multiset(),
    decreases list.len(),
{
    broadcast use vstd::seq_lib::group_to_multiset_ensures;

    if list.len() > 0 {
        law_sorted_texts_are_ordered(list.drop_last());
        lemma_text_inserted_ordered(texts_in_order(list.drop_last()), list.last());
        assert(list =~= list.drop_last().push(list.last()));
    } else {
        assert(list =~= Seq::empty());
    }
}

/// Puts texts in the order of their characters.
pub fn sort_texts(list: Vec<String>) -> (r: Vec<String>)
    ensures
        texts(r@) == texts_in_order(texts(list@)),
{
    let ghost all = texts(list@);
    let ghost strings = list@;
    let mut rest = list;
    let mut sorted: Vec<String> = Vec::new();
    let ghost mut done: int = 0;
    assert(all.take(0) =~= Seq::empty());
    assert(texts(sorted@) =~= Seq::empty());
    while rest.len() > 0
        invariant
            0 <= done <= strings.len(),
            all == texts(strings),
            rest@ =~= strings.skip(done),
            texts(sorted@) == texts_in_order(all.take(done)),
        decreases rest@.len(),
    {
        let text = rest.remove(0);
        assert(text == strings[done]);
        let ghost shown = texts(sorted@);
        let mut at: usize = sorted.len();
        while at > 0 && is_before(&text, &sorted[at - 1])
            invariant
                at <= sorted@.len(),
                shown == texts(sorted@),
                forall|i: int| at <= i < shown.len() ==> text_before(text@, #[trigger] shown[i]),
            decreases at,
        {
            assert(shown[at - 1] == sorted@[at - 1]@);
            at -= 1;
        }
        proof {
            if at > 0 {
                assert(shown[at - 1] == sorted@[at - 1]@);
            }
            lemma_text_inserted_at(shown, text@, at as int);
            assert(all.take(done + 1).drop_last() =~= all.take(done));
        }
        let ghost added = text@;
        sorted.insert(at, text);
        assert(texts(sorted@) =~= shown.insert(at as int, added));
        proof {
            done = done + 1;
        }
    }
    assert(all.take(done) =~= all);
    sorted
}

/// The words of a text that white space parts.
pub open spec fn word_list(s: Seq<char>) -> Seq<Seq<char>>
    decreases s.len(),
{
    if s.len() == 0 {
        Seq::empty()
    } else if is_space(s.last()) {
        word_list(s.drop_last())
    } else if s.len() == 1 || is_space(s[s.len() - 2]) {
        word_list(s.drop_last()).push(seq![s.last()])
    } else {
        let before = word_list(s.drop_last());
        before.drop_last().push(before.last().push(s.last()))
    }
}

proof fn lemma_word_list(s: Seq<char>)
    ensures
        s.len() > 0 && !is_space(s.last()) ==> word_list(s).len() > 0,
    decreases s.len(),
{
    if s.len() > 0 {
        lemma_word_list(s.drop_last());
    }
}

/// The words of a text that white space parts.
pub fn split_words(s: &str) -> (r: Vec<String>)
    ensures
        texts(r@) == word_list(s@),
{
    let chars = chars_of(s);
    let mut words: Vec<String> = Vec::new();
    let mut i: usize = 0;
    assert(s@.take(0) =~= Seq::empty());
    assert(texts(words@) =~= Seq::empty());
    while i < chars.len()
        invariant
            i <= chars@.len(),
            chars@ == s@,
            texts(words@) == word_list(s@.take(i as int)),
        decreases chars@.len() - i,
    {
        let ghost before = texts(words@);
        let c = chars[i];
        assert(s@.take(i + 1).drop_last() =~= s@.take(i as int));
        if !char_is_space(c) {
            let begins = i == 0 || char_is_space(chars[i - 1]);
            if begins {
                let mut word = String::new();
                word.push(c);
                assert(word@ =~= seq![c]);
                words.push(word);
                assert(texts(words@) =~= before.push(seq![c]));
            } else {
                proof {
                    lemma_word_list(s@.take(i as int));
                    assert(texts(words@).len() == words@.len());
                }
                if let Some(mut word) = words.pop() {
                    let ghost short = word@;
                    word.push(c);
                    assert(word@ =~= short.push(c));
                    words.push(word);
                    assert(texts(words@) =~= before.drop_last().push(before.last().push(c)));
                }
            }
        }
        i += 1;
    }
    assert(s@.take(i as int) =~= s@);
    words
}

/// How many bytes a character takes.
pub open spec fn char_bytes(c: char) -> nat {
    if (c as int) < 0x80 {
        1
    } else if (c as int) < 0x800 {
        2
    } else if (c as int) < 0x10000 {
        3
    } else {
        4
    }
}

/// How many bytes a text takes.
pub open spec fn text_bytes(s: Seq<char>) -> nat
    decreases s.len(),
{
    if s.len() == 0 {
        0
    } else {
        text_bytes(s.drop_last()) + char_bytes(s.last())
    }
}

/// How many characters from the front fit in so many bytes, of the first `n`.
pub open spec fn fitting(s: Seq<char>, n: nat, max_bytes: nat) -> nat
    decreases n,
{
    if n == 0 || text_bytes(s.take(n as int)) <= max_bytes {
        n
    } else {
        fitting(s, (n - 1) as nat, max_bytes)
    }
}

/// A text that takes no more than so many bytes; where something is cut off, a sign for it follows.
pub open spec fn cut_to_bytes(s: Seq<char>, max_bytes: nat) -> Seq<char> {
    if text_bytes(s) <= max_bytes {
        s
    } else {
        s.take(fitting(s, s.len(), max_bytes) as int).push('…')
    }
}

fn count_char_bytes(c: char) -> (r: usize)
    ensures
        r == char_bytes(c),
{
    let code: u32 = char_code(c);
    if code < 0x80 {
        1
    } else if code < 0x800 {
        2
    } else if code < 0x10000 {
        3
    } else {
        4
    }
}

proof fn lemma_fitting(s: Seq<char>, k: nat, n: nat, max_bytes: nat)
    requires
        k < n <= s.len(),
        text_bytes(s.take(k as int)) <= max_bytes,
        text_bytes(s.take((k + 1) as int)) > max_bytes,
    ensures
        fitting(s, n, max_bytes) == k,
        text_bytes(s.take(n as int)) > max_bytes,
    decreases n,
{
    if n > k + 1 {
        lemma_fitting(s, k, (n - 1) as nat, max_bytes);
        assert(s.take(n as int).drop_last() =~= s.take(n - 1));
    } else {
        assert(fitting(s, k, max_bytes) == k);
    }
}

/// Cuts a text so that it takes no more than so many bytes; where something is cut off, a sign for
/// it follows.
pub fn truncate_utf8(s: &str, max_bytes: usize) -> (r: String)
    ensures
        r@ == cut_to_bytes(s@, max_bytes as nat),
{
    let chars = chars_of(s);
    let mut used: usize = 0;
    let mut i: usize = 0;
    assert(s@.take(0) =~= Seq::empty());
    while i < chars.len()
        invariant
            i <= chars@.len(),
            chars@ == s@,
            used == text_bytes(s@.take(i as int)),
            used <= max_bytes,
        decreases chars@.len() - i,
    {
        assert(s@.take(i + 1).drop_last() =~= s@.take(i as int));
        let more: usize = count_char_bytes(chars[i]);
        if more > max_bytes - used {
            proof {
                lemma_fitting(s@, i as nat, s@.len(), max_bytes as nat);
                assert(s@.take(s@.len() as int) =~= s@);
            }
            let mut r = text_between(&chars, 0, i);
            assert(r@ =~= s@.take(i as int));
            r.push('…');
            return r;
        }
        used += more;
        i += 1;
    }
    assert(s@.take(i as int) =~= s@);
    s.to_owned()
}

/// Whether a character is a letter or a digit of ASCII.
pub open spec fn is_ascii_word_char(c: char) -> bool {
    ('a' <= c && c <= 'z') || ('A' <= c && c <= 'Z') || ('0' <= c && c <= '9')
}

/// Whether a text holds nothing but letters and digits of ASCII, `_` and, where allowed, `-`.
pub open spec fn is_plain_name(s: Seq<char>, hyphens: bool) -> bool {
    forall|i: int|
        0 <= i < s.len() ==> is_ascii_word_char(#[trigger] s[i]) || s[i] == '_' || (hyphens && s[i]
            == '-')
}

/// Whether a text holds nothing but letters and digits of ASCII, `_` and, where allowed, `-`.
pub fn plain_name(s: &str, hyphens: bool) -> (r: bool)
    ensures
        r == is_plain_name(s@, hyphens),
{
    let chars = chars_of(s);
    let mut i: usize = 0;
    while i < chars.len()
        invariant
            i <= chars@.len(),
            chars@ == s@,
            forall|j: int|
                0 <= j < i ==> is_ascii_word_char(#[trigger] s@[j]) || s@[j] == '_' || (hyphens
                    && s@[j] == '-'),
        decreases chars@.len() - i,
    {
        let c = chars[i];
        let fits = ('a' <= c && c <= 'z') || ('A' <= c && c <= 'Z') || ('0' <= c && c <= '9') || c
            == '_' || (hyphens && c == '-');
        if !fits {
            assert(s@[i as int] == c);
            return false;
        }
        i += 1;
    }
    true
}

/// A decimal number is read as the number that it writes.
pub proof fn lemma_decimal_reads(n: nat)
    ensures
        all_digits(decimal_of(n)),
        number_of(decimal_of(n)) == n,
    decreases n,
{
    assert(digit_code(n % 10));
    if n < 10 {
        let s = decimal_of(n);
        assert(s.drop_last() =~= Seq::empty());
        assert(number_of(s.drop_last()) == 0);
    } else {
        lemma_decimal_reads(n / 10);
        let s = decimal_of(n);
        assert(s.drop_last() =~= decimal_of(n / 10));
        assert forall|i: int| 0 <= i < s.len() implies is_digit(#[trigger] s[i]) by {
            if i < s.len() - 1 {
                assert(s[i] == decimal_of(n / 10)[i]);
            }
        }
    }
}

spec fn digit_code(d: nat) -> bool {
    digit_of(d) as int == 48 + d
}

/// A number in decimal is read as that number, and holds no colon.
pub proof fn lemma_signed_decimal_reads(n: i64)
    ensures
        parse_i64_of(signed_decimal_of(n as int)) == Some(n),
        !signed_decimal_of(n as int).contains(':'),
{
    let s = signed_decimal_of(n as int);
    if n < 0 {
        let digits = decimal_of((-n) as nat);
        lemma_decimal_reads((-n) as nat);
        assert(s.skip(1) =~= digits);
        assert forall|i: int| 0 <= i < s.len() implies s[i] != ':' by {
            if i > 0 {
                assert(s[i] == digits[i - 1]);
                assert(is_digit(digits[i - 1]));
            }
        }
    } else {
        lemma_decimal_reads(n as nat);
        lemma_decimal_nonempty(n as nat);
        assert(is_digit(s[0]));
        assert forall|i: int| 0 <= i < s.len() implies s[i] != ':' by {
            assert(is_digit(s[i]));
        }
    }
}

/// Whether a text is in a list.
pub open spec fn listed(list: Seq<String>, text: Seq<char>) -> bool {
    exists|i: int| 0 <= i < list.len() && (#[trigger] list[i])@ == text
}

/// Whether a text is in a list.
pub fn is_listed(list: &Vec<String>, text: &str) -> (r: bool)
    ensures
        r == listed(list@, text@),
{
    let mut i: usize = 0;
    while i < list.len()
        invariant
            i <= list@.len(),
            forall|j: int| 0 <= j < i ==> (#[trigger] list@[j])@ != text@,
        decreases list@.len() - i,
    {
        if same_text(&list[i], text) {
            return true;
        }
        i += 1;
    }
    false
}

/// A text is in a list where it is one of its texts.
pub proof fn lemma_listed(list: Seq<String>, text: Seq<char>)
    ensures
        listed(list, text) == texts(list).contains(text),
{
    if listed(list, text) {
        let i = choose|i: int| 0 <= i < list.len() && (#[trigger] list[i])@ == text;
        assert(texts(list)[i] == text);
    }
    if texts(list).contains(text) {
        let i = texts(list).index_of(text);
        assert(list[i]@ == text);
    }
}

/// A text as `{:?}` writes it: between quotation marks, with what cannot be printed escaped.
pub uninterp spec fn quoted(text: Seq<char>) -> Seq<char>;

/// `std::format!` with `{:?}` on a text. What it writes is named; claimed of it is that letters and
/// digits of ASCII, `_` and `-` are written as they are.
#[verifier::external_body]
pub(crate) fn quote(text: &str) -> (r: String)
    ensures
        r@ == quoted(text@),
        is_plain_name(text@, true) ==> r@ == "\""@ + text@ + "\""@,
{
    format!("{:?}", text)
}

/// An optional text as `{:?}` writes it.
pub open spec fn quoted_option(text: Option<Seq<char>>) -> Seq<char> {
    match text {
        Some(text) => "Some("@ + quoted(text) + ")"@,
        None => "None"@,
    }
}

/// An optional text as `{:?}` writes it.
pub fn quote_option(text: &Option<String>) -> (r: String)
    ensures
        r@ == quoted_option(option_text(*text)),
        *text matches Some(t) ==> is_plain_name(t@, true) ==> r@ == "Some(\""@ + t@ + "\")"@,
{
    match text {
        Some(text) => {
            let mut r = "Some(".to_owned();
            r.push_str(&quote(text));
            r.push_str(")");
            proof {
                reveal_strlit("Some(");
                reveal_strlit(")");
                reveal_strlit("\"");
                reveal_strlit("Some(\"");
                reveal_strlit("\")");
                if is_plain_name(text@, true) {
                    assert(r@ =~= "Some(\""@ + text@ + "\")"@);
                }
            }
            r
        },
        None => "None".to_owned(),
    }
}

/// Whether texts stand in another one between two positions, one behind the other, each at its start.
pub open spec fn stand_in_order(
    text: Seq<char>,
    pieces: Seq<Seq<char>>,
    starts: Seq<int>,
    from: int,
    to: int,
) -> bool {
    &&& starts.len() == pieces.len()
    &&& forall|i: int|
        0 <= i < pieces.len() ==> from <= #[trigger] starts[i] && starts[i] + pieces[i].len() <= to
            && occurs_at(text, pieces[i], starts[i])
    &&& forall|i: int, j: int|
        0 <= i < j < pieces.len() ==> (#[trigger] starts[i]) + pieces[i].len() <= (
        #[trigger] starts[j])
}

/// Whether a piece is what a text holds between two positions.
pub open spec fn lies_between(text: Seq<char>, piece: Seq<char>, from: int, to: int) -> bool {
    0 <= from <= to <= text.len() && text.subrange(from, to) == piece
}

/// Whether texts make up another one, one right behind the other: piece `i` stands between `ends[i]`
/// and `ends[i + 1]`.
pub open spec fn made_of(text: Seq<char>, pieces: Seq<Seq<char>>, ends: Seq<int>) -> bool {
    &&& ends.len() == pieces.len() + 1
    &&& ends[0] == 0
    &&& ends.last() == text.len()
    &&& forall|i: int|
        0 <= i < pieces.len() ==> lies_between(text, #[trigger] pieces[i], ends[i], ends[i + 1])
}

/// Nothing is made of no texts.
pub proof fn lemma_made_of_none()
    ensures
        made_of(Seq::empty(), Seq::empty(), seq![0int]),
{
}

/// One more text behind those that make up a text.
pub proof fn lemma_made_of_more(
    text: Seq<char>,
    pieces: Seq<Seq<char>>,
    ends: Seq<int>,
    piece: Seq<char>,
)
    requires
        made_of(text, pieces, ends),
    ensures
        made_of(text + piece, pieces.push(piece), ends.push((text.len() + piece.len()) as int)),
{
    let all = pieces.push(piece);
    let after = ends.push((text.len() + piece.len()) as int);
    let longer = text + piece;
    assert forall|i: int| 0 <= i < all.len() implies lies_between(
        longer,
        #[trigger] all[i],
        after[i],
        after[i + 1],
    ) by {
        if i < pieces.len() {
            assert(all[i] == pieces[i]);
            assert(longer.subrange(ends[i], ends[i + 1]) =~= text.subrange(ends[i], ends[i + 1]));
        } else {
            assert(ends[i] == ends.last());
            assert(longer.subrange(text.len() as int, longer.len() as int) =~= piece);
        }
    }
    assert(after.len() == all.len() + 1);
    assert(after[0] == ends[0]);
    assert(after.last() == longer.len());
}

/// A text that stands in another stands in what begins with that.
pub proof fn lemma_occurs_in_front(text: Seq<char>, more: Seq<char>, piece: Seq<char>, at: int)
    requires
        occurs_at(text, piece, at),
    ensures
        occurs_at(text + more, piece, at),
{
    assert((text + more).subrange(at, at + piece.len()) =~= text.subrange(at, at + piece.len()));
}

/// A text that stands in another stands in what ends with that.
pub proof fn lemma_occurs_behind(before: Seq<char>, text: Seq<char>, piece: Seq<char>, at: int)
    requires
        occurs_at(text, piece, at),
    ensures
        occurs_at(before + text, piece, before.len() + at),
{
    assert((before + text).subrange(before.len() + at, before.len() + at + piece.len())
        =~= text.subrange(at, at + piece.len()));
}

/// A text stands at the end of what ends with it.
pub proof fn lemma_occurs_at_end(before: Seq<char>, piece: Seq<char>)
    ensures
        occurs_at(before + piece, piece, before.len() as int),
{
    assert((before + piece).subrange(before.len() as int, (before + piece).len() as int)
        =~= piece);
}

/// Texts that stand in a text stand in a longer one, as much further on as was put before it.
pub proof fn lemma_stand_in_longer(
    before: Seq<char>,
    text: Seq<char>,
    after: Seq<char>,
    pieces: Seq<Seq<char>>,
    starts: Seq<int>,
    from: int,
    to: int,
) -> (moved: Seq<int>)
    requires
        stand_in_order(text, pieces, starts, from, to),
    ensures
        stand_in_order(
            before + text + after,
            pieces,
            moved,
            before.len() + from,
            before.len() + to,
        ),
{
    let moved = Seq::new(starts.len(), |i: int| before.len() + starts[i]);
    assert forall|i: int| 0 <= i < pieces.len() implies before.len() + from <= #[trigger] moved[i]
        && moved[i] + pieces[i].len() <= before.len() + to && occurs_at(
        before + text + after,
        pieces[i],
        moved[i],
    ) by {
        assert(starts[i] >= from);
        lemma_occurs_behind(before, text, pieces[i], starts[i]);
        lemma_occurs_in_front(before + text, after, pieces[i], moved[i]);
    }
    moved
}

/// One more text behind those that stand in a text.
pub proof fn lemma_stand_one_more(
    text: Seq<char>,
    pieces: Seq<Seq<char>>,
    starts: Seq<int>,
    gap: Seq<char>,
    piece: Seq<char>,
)
    requires
        stand_in_order(text, pieces, starts, 0, text.len() as int),
    ensures
        stand_in_order(
            text + gap + piece,
            pieces.push(piece),
            starts.push((text.len() + gap.len()) as int),
            0,
            (text + gap + piece).len() as int,
        ),
{
    let all = pieces.push(piece);
    let more = starts.push((text.len() + gap.len()) as int);
    let longer = text + gap + piece;
    assert forall|i: int| 0 <= i < all.len() implies 0 <= #[trigger] more[i] && more[i]
        + all[i].len() <= longer.len() && occurs_at(longer, all[i], more[i]) by {
        if i < pieces.len() {
            assert(starts[i] >= 0);
            lemma_occurs_in_front(text, gap, pieces[i], starts[i]);
            lemma_occurs_in_front(text + gap, piece, pieces[i], starts[i]);
        } else {
            lemma_occurs_at_end(text + gap, piece);
        }
    }
    assert forall|i: int, j: int| 0 <= i < j < all.len() implies (#[trigger] more[i])
        + all[i].len() <= (#[trigger] more[j]) by {
        assert(starts[i] >= 0);
        if j < pieces.len() {
            assert(starts[j] >= 0);
        }
    }
}

/// Every text that is joined stands in the joined text.
pub proof fn lemma_joined(parts: Seq<Seq<char>>, sep: Seq<char>, k: int)
    requires
        0 <= k < parts.len(),
    ensures
        has_text(join_of(parts, sep), parts[k]),
    decreases parts.len(),
{
    let whole = join_of(parts, sep);
    if parts.len() == 1 {
        assert(whole.subrange(0, whole.len() as int) =~= parts[k]);
        assert(occurs_at(whole, parts[k], 0));
    } else {
        let front = join_of(parts.drop_last(), sep);
        if k == parts.len() - 1 {
            lemma_occurs_at_end(front + sep, parts[k]);
            assert(occurs_at(whole, parts[k], (front + sep).len() as int));
        } else {
            assert(parts.drop_last()[k] == parts[k]);
            lemma_joined(parts.drop_last(), sep, k);
            let at = choose|at: int| occurs_at(front, parts[k], at);
            lemma_occurs_in_front(front, sep + parts.last(), parts[k], at);
            assert(front + (sep + parts.last()) =~= whole);
            assert(occurs_at(whole, parts[k], at));
        }
    }
}

proof fn lemma_replaced_shift(
    x: Seq<char>,
    t: Seq<char>,
    pat: Seq<char>,
    with: Seq<char>,
    i: int,
)
    requires
        0 <= i <= t.len(),
        pat.len() > 0,
    ensures
        replaced_from(x + t, pat, with, x.len() + i) == replaced_from(t, pat, with, i),
    decreases t.len() - i,
{
    let s = x + t;
    if i == t.len() {
        assert(s.skip(x.len() + i) =~= t.skip(i));
    } else {
        assert(occurs_at(s, pat, x.len() + i) == occurs_at(t, pat, i)) by {
            if x.len() + i + pat.len() <= s.len() {
                assert(s.subrange(x.len() + i, x.len() + i + pat.len()) =~= t.subrange(
                    i,
                    i + pat.len(),
                ));
            }
        }
        if occurs_at(t, pat, i) {
            lemma_replaced_shift(x, t, pat, with, i + pat.len());
            assert(x.len() + i + pat.len() == x.len() + (i + pat.len()));
        } else {
            lemma_replaced_shift(x, t, pat, with, i + 1);
            assert(x.len() + i + 1 == x.len() + (i + 1));
        }
    }
}

proof fn lemma_replaced_until(
    s: Seq<char>,
    pat: Seq<char>,
    with: Seq<char>,
    i: int,
    at: int,
)
    requires
        0 <= i <= at <= s.len(),
        pat.len() > 0,
        forall|j: int| i <= j < at ==> !#[trigger] occurs_at(s, pat, j),
    ensures
        replaced_from(s, pat, with, i) =~= s.subrange(i, at) + replaced_from(s, pat, with, at),
    decreases at - i,
{
    if i < at {
        assert(!occurs_at(s, pat, i));
        lemma_replaced_until(s, pat, with, i + 1, at);
    }
}

/// A text in which a pattern does not stand is not changed by replacing it. Where the pattern stands
/// first, the new text takes its place; what stands before stays, and replacing goes on behind it.
pub proof fn law_the_first_is_replaced(s: Seq<char>, pat: Seq<char>, with: Seq<char>, at: int)
    requires
        pat.len() > 0,
    ensures
        !has_text(s, pat) ==> replace_of(s, pat, with) == s,
        (occurs_at(s, pat, at) && forall|j: int| 0 <= j < at ==> !#[trigger] occurs_at(s, pat, j))
            ==> replace_of(s, pat, with) == s.take(at) + with + replace_of(
            s.skip(at + pat.len()),
            pat,
            with,
        ),
{
    if !has_text(s, pat) {
        lemma_replaced_until(s, pat, with, 0, s.len() as int);
        assert(s.subrange(0, s.len() as int) =~= s);
        assert(s.skip(s.len() as int) =~= Seq::empty());
        assert(replace_of(s, pat, with) =~= s);
    }
    if occurs_at(s, pat, at) && forall|j: int| 0 <= j < at ==> !#[trigger] occurs_at(s, pat, j) {
        lemma_replaced_until(s, pat, with, 0, at);
        let x = s.take(at + pat.len());
        let t = s.skip(at + pat.len());
        assert(x + t =~= s);
        lemma_replaced_shift(x, t, pat, with, 0);
        assert(s.subrange(0, at) =~= s.take(at));
        assert(replaced_from(s, pat, with, at) == with + replaced_from(
            s,
            pat,
            with,
            at + pat.len(),
        ));
        assert(replace_of(s, pat, with) =~= s.take(at) + with + replace_of(t, pat, with));
    }
}

/// A name in a template, where a value is to stand.
pub open spec fn mark(name: Seq<char>) -> Seq<char> {
    "{{"@ + name + "}}"@
}

/// Whether no brace stands in a text.
pub open spec fn no_braces(s: Seq<char>) -> bool {
    forall|k: int| 0 <= k < s.len() ==> #[trigger] s[k] != '{' && s[k] != '}'
}

/// Whether no opening brace stands in a text.
pub open spec fn no_opening(s: Seq<char>) -> bool {
    forall|k: int| 0 <= k < s.len() ==> #[trigger] s[k] != '{'
}

proof fn lemma_mark_chars(name: Seq<char>)
    ensures
        mark(name).len() == name.len() + 4,
        mark(name)[0] == '{',
        mark(name)[1] == '{',
        forall|k: int| 0 <= k < name.len() ==> mark(name)[k + 2] == #[trigger] name[k],
        mark(name)[name.len() as int + 2] == '}',
        mark(name)[name.len() as int + 3] == '}',
{
    reveal_strlit("{{");
    reveal_strlit("}}");
}

/// A text without opening braces holds no mark.
pub proof fn lemma_no_mark(s: Seq<char>, name: Seq<char>, with: Seq<char>)
    requires
        no_opening(s),
    ensures
        !has_text(s, mark(name)),
        replace_of(s, mark(name), with) == s,
{
    lemma_mark_chars(name);
    if has_text(s, mark(name)) {
        let at = choose|at: int| occurs_at(s, mark(name), at);
        assert(s.subrange(at, at + mark(name).len())[0] == s[at]);
    }
    law_the_first_is_replaced(s, mark(name), with, 0);
}

/// Whether two braces open nowhere in a text but at a place.
spec fn opens_only_at(s: Seq<char>, place: int) -> bool {
    forall|j: int|
        0 <= j && j != place && j + 2 <= s.len() ==> !(#[trigger] s[j] == '{' && s[j + 1] == '{')
}

proof fn lemma_opens_only_at(a: Seq<char>, name: Seq<char>, b: Seq<char>)
    requires
        no_opening(a),
        no_opening(b),
        no_braces(name),
    ensures
        opens_only_at(a + mark(name) + b, a.len() as int),
{
    let s = a + mark(name) + b;
    lemma_mark_chars(name);
    assert forall|j: int| 0 <= j && j != a.len() && j + 2 <= s.len() implies !(#[trigger] s[j] == '{'
        && s[j + 1] == '{') by {
        if j < a.len() {
            assert(s[j] == a[j]);
        } else if j >= a.len() + mark(name).len() {
            assert(s[j] == b[j - a.len() - mark(name).len()]);
        } else {
            let k = j - a.len();
            assert(s[j] == mark(name)[k]);
            if k == 1 {
                if name.len() > 0 {
                    assert(s[j + 1] == mark(name)[2]);
                    assert(mark(name)[2] == name[0]);
                } else {
                    assert(s[j + 1] == mark(name)[2]);
                }
            } else if 2 <= k < name.len() + 2 {
                assert(mark(name)[k] == name[k - 2]);
            }
        }
    }
}

proof fn lemma_mark_stands_once(
    a: Seq<char>,
    name: Seq<char>,
    b: Seq<char>,
    other: Seq<char>,
)
    requires
        no_opening(a),
        no_opening(b),
        no_braces(name),
        no_braces(other),
    ensures
        forall|at: int|
            #[trigger] occurs_at(a + mark(name) + b, mark(other), at) ==> at == a.len() && other
                == name,
{
    let s = a + mark(name) + b;
    lemma_mark_chars(name);
    lemma_mark_chars(other);
    lemma_opens_only_at(a, name, b);
    assert forall|at: int| #[trigger] occurs_at(s, mark(other), at) implies at == a.len() && other
        == name by {
        let found = s.subrange(at, at + mark(other).len());
        assert(found == mark(other));
        assert(found[0] == s[at] && found[1] == s[at + 1]);
        assert(at == a.len());
        assert forall|k: int| 0 <= k < mark(name).len() implies s[at + k] == mark(name)[k] by {}
        if other.len() < name.len() {
            assert(found[other.len() as int + 2] == s[at + (other.len() + 2)]);
            assert(s[at + (other.len() + 2)] == mark(name)[other.len() as int + 2]);
            assert(mark(name)[other.len() as int + 2] == name[other.len() as int]);
            assert(false);
        } else if name.len() < other.len() {
            assert(found[name.len() as int + 2] == s[at + (name.len() + 2)]);
            assert(s[at + (name.len() + 2)] == mark(name)[name.len() as int + 2]);
            assert(mark(other)[name.len() as int + 2] == other[name.len() as int]);
            assert(false);
        } else {
            assert forall|k: int| 0 <= k < name.len() implies other[k] == name[k] by {
                assert(found[k + 2] == s[at + (k + 2)]);
                assert(s[at + (k + 2)] == mark(name)[k + 2]);
                assert(mark(other)[k + 2] == other[k]);
            }
            assert(other =~= name);
        }
    }
}

/// A text with one mark: another mark does not stand in it, and the mark itself is replaced.
pub proof fn lemma_one_mark(
    a: Seq<char>,
    name: Seq<char>,
    b: Seq<char>,
    other: Seq<char>,
    with: Seq<char>,
)
    requires
        no_opening(a),
        no_opening(b),
        no_braces(name),
        no_braces(other),
    ensures
        other != name ==> !has_text(a + mark(name) + b, mark(other)) && replace_of(
            a + mark(name) + b,
            mark(other),
            with,
        ) == a + mark(name) + b,
        replace_of(a + mark(name) + b, mark(name), with) == a + with + b,
{
    let s = a + mark(name) + b;
    lemma_mark_chars(name);
    lemma_mark_chars(other);
    lemma_mark_stands_once(a, name, b, other);
    lemma_mark_stands_once(a, name, b, name);
    law_the_first_is_replaced(s, mark(other), with, 0);
    assert(s.subrange(a.len() as int, a.len() as int + mark(name).len()) =~= mark(name));
    assert(occurs_at(s, mark(name), a.len() as int));
    law_the_first_is_replaced(s, mark(name), with, a.len() as int);
    assert(s.take(a.len() as int) =~= a);
    assert(s.skip(a.len() as int + mark(name).len()) =~= b);
    lemma_no_mark(b, name, with);
}

} // verus!
