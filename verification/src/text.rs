//! Text as sequences of characters: the few string operations the feeder is
//! written with, each stated over `Seq<char>` and proved.
use vstd::prelude::*;

verus! {

// ---------------------------------------------------------------------------
// Model
// ---------------------------------------------------------------------------
/// The characters with the Unicode property `White_Space`.
pub open spec fn is_space(c: char) -> bool {
    ||| '\u{9}' <= c <= '\u{d}'
    ||| c == ' '
    ||| c == '\u{85}'
    ||| c == '\u{a0}'
    ||| c == '\u{1680}'
    ||| '\u{2000}' <= c <= '\u{200a}'
    ||| c == '\u{2028}'
    ||| c == '\u{2029}'
    ||| c == '\u{202f}'
    ||| c == '\u{205f}'
    ||| c == '\u{3000}'
}

pub open spec fn is_digit(c: char) -> bool {
    '0' <= c <= '9'
}

/// `s` without its leading white space.
pub open spec fn trimmed_start(s: Seq<char>) -> Seq<char>
    decreases s.len(),
{
    if s.len() > 0 && is_space(s[0]) {
        trimmed_start(s.skip(1))
    } else {
        s
    }
}

/// `s` without its trailing white space.
pub open spec fn trimmed_end(s: Seq<char>) -> Seq<char>
    decreases s.len(),
{
    if s.len() > 0 && is_space(s.last()) {
        trimmed_end(s.drop_last())
    } else {
        s
    }
}

/// `s` without its leading and trailing white space.
pub open spec fn trimmed(s: Seq<char>) -> Seq<char> {
    trimmed_end(trimmed_start(s))
}

/// `s` is empty or made of white space only.
pub open spec fn is_blank(s: Seq<char>) -> bool {
    trimmed(s).len() == 0
}

/// `s` without its trailing `c`s.
pub open spec fn without_trailing(s: Seq<char>, c: char) -> Seq<char>
    decreases s.len(),
{
    if s.len() > 0 && s.last() == c {
        without_trailing(s.drop_last(), c)
    } else {
        s
    }
}

/// `part` stands in `s` at index `i`.
pub open spec fn occurs_at(s: Seq<char>, part: Seq<char>, i: int) -> bool {
    0 <= i && i + part.len() <= s.len() && s.subrange(i, i + part.len()) == part
}

/// The first index, from `from` on, at which `part` stands in `s`.
pub open spec fn position_from(s: Seq<char>, part: Seq<char>, from: int) -> Option<int>
    decreases s.len() - from + 1,
{
    if from < 0 || from + part.len() > s.len() {
        None
    } else if occurs_at(s, part, from) {
        Some(from)
    } else {
        position_from(s, part, from + 1)
    }
}

/// The first index at which `part` stands in `s`.
pub open spec fn position(s: Seq<char>, part: Seq<char>) -> Option<int> {
    position_from(s, part, 0)
}

pub open spec fn has_part(s: Seq<char>, part: Seq<char>) -> bool {
    exists|i: int| occurs_at(s, part, i)
}

pub open spec fn has_prefix(s: Seq<char>, prefix: Seq<char>) -> bool {
    prefix.len() <= s.len() && s.take(prefix.len() as int) == prefix
}

/// What follows `prefix` in `s`, where `s` begins with it.
pub open spec fn after_prefix(s: Seq<char>, prefix: Seq<char>) -> Option<Seq<char>> {
    if has_prefix(s, prefix) {
        Some(s.skip(prefix.len() as int))
    } else {
        None
    }
}

/// `s` up to the first `mark`, or all of it where `mark` does not occur.
pub open spec fn before(s: Seq<char>, mark: Seq<char>) -> Seq<char> {
    match position(s, mark) {
        Some(i) => s.take(i),
        None => s,
    }
}

/// `s` with every `from` replaced by `to`, from left to right and without
/// looking again at what was put in.
pub open spec fn replaced(s: Seq<char>, from: Seq<char>, to: Seq<char>) -> Seq<char>
    decreases s.len(),
{
    if from.len() == 0 || s.len() < from.len() {
        s
    } else if has_prefix(s, from) {
        to + replaced(s.skip(from.len() as int), from, to)
    } else {
        seq![s[0]] + replaced(s.skip(1), from, to)
    }
}

/// The first index from `i` on that holds no white space.
pub open spec fn space_end(s: Seq<char>, i: int) -> int
    decreases s.len() - i,
{
    if 0 <= i < s.len() && is_space(s[i]) {
        space_end(s, i + 1)
    } else {
        i
    }
}

/// The first index from `i` on that ends a word.
pub open spec fn word_end(s: Seq<char>, i: int) -> int
    decreases s.len() - i,
{
    if 0 <= i < s.len() && !is_space(s[i]) {
        word_end(s, i + 1)
    } else {
        i
    }
}

pub proof fn lemma_space_end(s: Seq<char>, i: int)
    requires
        0 <= i <= s.len(),
    ensures
        i <= space_end(s, i) <= s.len(),
        space_end(s, i) < s.len() ==> !is_space(s[space_end(s, i)]),
        forall|k: int| i <= k < space_end(s, i) ==> is_space(s[k]),
    decreases s.len() - i,
{
    if i < s.len() && is_space(s[i]) {
        lemma_space_end(s, i + 1);
    }
}

pub proof fn lemma_word_end(s: Seq<char>, i: int)
    requires
        0 <= i <= s.len(),
    ensures
        i <= word_end(s, i) <= s.len(),
        i < s.len() && !is_space(s[i]) ==> i < word_end(s, i),
        word_end(s, i) < s.len() ==> is_space(s[word_end(s, i)]),
        forall|k: int| i <= k < word_end(s, i) ==> !is_space(s[k]),
    decreases s.len() - i,
{
    if i < s.len() && !is_space(s[i]) {
        lemma_word_end(s, i + 1);
    }
}

/// The words of `s` from index `i` on: its maximal runs without white space.
pub open spec fn words_from(s: Seq<char>, i: int) -> Seq<Seq<char>>
    decreases s.len() - i,
{
    if i < 0 || i > s.len() {
        Seq::empty()
    } else {
        let b = space_end(s, i);
        let e = word_end(s, b);
        proof {
            lemma_space_end(s, i);
            lemma_word_end(s, b);
        }
        if b >= s.len() {
            Seq::empty()
        } else {
            seq![s.subrange(b, e)] + words_from(s, e)
        }
    }
}

pub open spec fn words(s: Seq<char>) -> Seq<Seq<char>> {
    words_from(s, 0)
}

/// `parts`, one after the other, with `sep` between each two.
pub open spec fn joined(parts: Seq<Seq<char>>, sep: Seq<char>) -> Seq<char>
    decreases parts.len(),
{
    if parts.len() == 0 {
        Seq::empty()
    } else if parts.len() == 1 {
        parts[0]
    } else {
        joined(parts.drop_last(), sep) + sep + parts.last()
    }
}

/// The texts that a list of strings holds.
pub open spec fn texts(list: Seq<String>) -> Seq<Seq<char>> {
    list.map_values(|s: String| s@)
}

/// The text that an optional string holds.
pub open spec fn text_opt(s: Option<String>) -> Option<Seq<char>> {
    match s {
        Some(s) => Some(s@),
        None => None,
    }
}

/// The text that an optional borrowed string holds.
pub open spec fn str_opt(s: Option<&str>) -> Option<Seq<char>> {
    match s {
        Some(s) => Some(s@),
        None => None,
    }
}

pub open spec fn digit(n: nat) -> char {
    ('0' as nat + n) as char
}

/// `n` in decimal, without leading zeros.
pub open spec fn decimal(n: nat) -> Seq<char>
    decreases n,
{
    if n < 10 {
        seq![digit(n)]
    } else {
        decimal(n / 10).push(digit(n % 10))
    }
}

/// `s`, filled up on the left with zeros to at least `width` characters.
pub open spec fn zero_padded(s: Seq<char>, width: nat) -> Seq<char> {
    if s.len() < width {
        Seq::new((width - s.len()) as nat, |i: int| '0') + s
    } else {
        s
    }
}

/// The number that a run of decimal digits writes.
pub open spec fn number_of(s: Seq<char>) -> nat
    decreases s.len(),
{
    if s.len() == 0 {
        0
    } else {
        10 * number_of(s.drop_last()) + (s.last() as nat - '0' as nat) as nat
    }
}

pub open spec fn all_digits(s: Seq<char>) -> bool {
    forall|i: int| 0 <= i < s.len() ==> is_digit(#[trigger] s[i])
}

/// `c` with the letters `A` to `Z` made small.
pub open spec fn ascii_lower(c: char) -> char {
    if 'A' <= c <= 'Z' {
        (c as u32 + 32) as char
    } else {
        c
    }
}

/// `a` and `b` are equal but for the case of ASCII letters.
pub open spec fn equal_ignoring_ascii_case(a: Seq<char>, b: Seq<char>) -> bool {
    a.len() == b.len() && forall|i: int|
        0 <= i < a.len() ==> ascii_lower(#[trigger] a[i]) == ascii_lower(b[i])
}

// ---------------------------------------------------------------------------
// Characters and strings
// ---------------------------------------------------------------------------
/// `String::push` appends the character `c` to the end of the string.
pub assume_specification[ String::push ](s: &mut String, c: char)
    ensures
        final(s)@ == old(s)@.push(c),
;

/// The characters of `s`.
pub fn chars_of(s: &str) -> (v: Vec<char>)
    ensures
        v@ == s@,
{
    let mut v: Vec<char> = Vec::new();
    for c in it: s.chars()
        invariant
            it.seq() == s@,
            v@ == s@.take(it.index()),
    {
        v.push(c);
    }
    assert(s@.take(s@.len() as int) == s@);
    v
}

/// The string made of the characters `v`.
pub fn string_of(v: &[char]) -> (s: String)
    ensures
        s@ == v@,
{
    let mut s = String::new();
    let mut i: usize = 0;
    while i < v.len()
        invariant
            i <= v@.len(),
            s@ == v@.take(i as int),
        decreases v@.len() - i,
    {
        s.push(v[i]);
        i += 1;
    }
    assert(v@.take(v@.len() as int) == v@);
    s
}

/// Whether `a` and `b` hold the same text.
pub fn same(a: &str, b: &str) -> (r: bool)
    ensures
        r == (a@ == b@),
{
    a.to_owned() == b.to_owned()
}

pub fn is_whitespace(c: char) -> (r: bool)
    ensures
        r == is_space(c),
{
    ('\u{9}' <= c && c <= '\u{d}') || c == ' ' || c == '\u{85}' || c == '\u{a0}' || c == '\u{1680}'
        || ('\u{2000}' <= c && c <= '\u{200a}') || c == '\u{2028}' || c == '\u{2029}' || c
        == '\u{202f}' || c == '\u{205f}' || c == '\u{3000}'
}

// ---------------------------------------------------------------------------
// Trimming
// ---------------------------------------------------------------------------
/// Where the trimmed text of `v` begins and ends.
fn trim_bounds(v: &[char]) -> (r: (usize, usize))
    ensures
        r.0 <= r.1 <= v@.len(),
        v@.subrange(r.0 as int, r.1 as int) == trimmed(v@),
{
    let mut b: usize = 0;
    assert(v@.skip(0) == v@);
    while b < v.len() && is_whitespace(v[b])
        invariant
            b <= v@.len(),
            trimmed_start(v@) == trimmed_start(v@.skip(b as int)),
        decreases v@.len() - b,
    {
        assert(v@.skip(b as int).skip(1) == v@.skip(b + 1));
        b += 1;
    }
    let mut e: usize = v.len();
    assert(v@.subrange(b as int, e as int) == v@.skip(b as int));
    while b < e && is_whitespace(v[e - 1])
        invariant
            b <= e <= v@.len(),
            trimmed_end(v@.skip(b as int)) == trimmed_end(v@.subrange(b as int, e as int)),
        decreases e,
    {
        assert(v@.subrange(b as int, e as int).drop_last() == v@.subrange(b as int, e - 1));
        e -= 1;
    }
    (b, e)
}

/// `s` without its leading and trailing white space.
pub fn trim(s: &str) -> (r: &str)
    ensures
        r@ == trimmed(s@),
{
    let v = chars_of(s);
    let (b, e) = trim_bounds(v.as_slice());
    s.substring_char(b, e)
}

/// `s` without its trailing `c`s.
pub fn trim_end_matches(s: &str, c: char) -> (r: &str)
    ensures
        r@ == without_trailing(s@, c),
{
    let v = chars_of(s);
    let mut e: usize = v.len();
    assert(v@.take(e as int) == v@);
    while 0 < e && v[e - 1] == c
        invariant
            e <= v@.len(),
            without_trailing(v@, c) == without_trailing(v@.take(e as int), c),
        decreases e,
    {
        assert(v@.take(e as int).drop_last() == v@.take(e - 1));
        e -= 1;
    }
    assert(v@.subrange(0, e as int) == v@.take(e as int));
    s.substring_char(0, e)
}

// ---------------------------------------------------------------------------
// Searching
// ---------------------------------------------------------------------------
pub proof fn lemma_position_from(s: Seq<char>, part: Seq<char>, from: int)
    requires
        0 <= from,
    ensures
        match position_from(s, part, from) {
            Some(i) => from <= i && occurs_at(s, part, i) && forall|j: int|
                from <= j < i ==> !occurs_at(s, part, j),
            None => forall|j: int| from <= j ==> !occurs_at(s, part, j),
        },
    decreases s.len() - from + 1,
{
    if from + part.len() <= s.len() && !occurs_at(s, part, from) {
        lemma_position_from(s, part, from + 1);
    }
}

/// Whether `part` stands in `s` at index `i`.
pub fn occurs(s: &[char], part: &[char], i: usize) -> (r: bool)
    requires
        i <= s@.len(),
    ensures
        r == occurs_at(s@, part@, i as int),
{
    if part.len() > s.len() - i {
        return false;
    }
    let n: usize = s.len();
    let mut k: usize = 0;
    while k < part.len()
        invariant
            k <= part@.len(),
            n == s@.len(),
            i + part@.len() <= n,
            forall|m: int| 0 <= m < k ==> s@[i + m] == part@[m],
        decreases part@.len() - k,
    {
        if s[i + k] != part[k] {
            assert(s@.subrange(i as int, i + part@.len())[k as int] == s@[i + k]);
            return false;
        }
        k += 1;
    }
    assert(s@.subrange(i as int, i + part@.len()) =~= part@);
    true
}

/// The first index from `from` on at which `part` stands in `s`.
pub fn find_from(s: &[char], part: &[char], from: usize) -> (r: Option<usize>)
    requires
        from <= s@.len(),
    ensures
        match r {
            Some(i) => position_from(s@, part@, from as int) == Some(i as int) && i + part@.len()
                <= s@.len(),
            None => position_from(s@, part@, from as int) is None,
        },
{
    let mut i: usize = from;
    while i <= s.len() && part.len() <= s.len() - i
        invariant
            from <= i <= s@.len() + 1,
            position_from(s@, part@, from as int) == position_from(s@, part@, i as int),
        decreases s@.len() + 1 - i,
    {
        if occurs(s, part, i) {
            return Some(i);
        }
        if i == s.len() {
            assert(s@.subrange(i as int, i + part@.len()) =~= part@);
            return None;
        }
        i += 1;
    }
    None
}

/// Whether `part` occurs in `s`.
pub fn contains(s: &str, part: &str) -> (r: bool)
    ensures
        r == has_part(s@, part@),
{
    let v = chars_of(s);
    let p = chars_of(part);
    proof {
        lemma_position_from(s@, part@, 0);
    }
    find_from(v.as_slice(), p.as_slice(), 0).is_some()
}

/// Whether `s` begins with `prefix`.
pub fn starts_with(s: &str, prefix: &str) -> (r: bool)
    ensures
        r == has_prefix(s@, prefix@),
{
    let v = chars_of(s);
    let p = chars_of(prefix);
    assert(prefix@.len() <= s@.len() ==> s@.subrange(0, prefix@.len() as int) == s@.take(
        prefix@.len() as int,
    ));
    occurs(v.as_slice(), p.as_slice(), 0)
}

/// A text begins as its prefix does.
pub proof fn lemma_has_prefix(s: Seq<char>, prefix: Seq<char>, i: int)
    requires
        has_prefix(s, prefix),
        0 <= i < prefix.len(),
    ensures
        s[i] == prefix[i],
{
    assert(s.take(prefix.len() as int)[i] == s[i]);
}

/// What follows `prefix` in `s`, where `s` begins with it.
pub fn strip_prefix<'a>(s: &'a str, prefix: &str) -> (r: Option<&'a str>)
    ensures
        str_opt(r) == after_prefix(s@, prefix@),
{
    if starts_with(s, prefix) {
        let from: usize = prefix.unicode_len();
        let to: usize = s.unicode_len();
        assert(s@.subrange(from as int, to as int) == s@.skip(from as int));
        Some(s.substring_char(from, to))
    } else {
        None
    }
}

// ---------------------------------------------------------------------------
// Rewriting
// ---------------------------------------------------------------------------
/// `s` with every `from` replaced by `to`.
pub fn replace(s: &[char], from: &[char], to: &[char]) -> (r: Vec<char>)
    requires
        from@.len() > 0,
    ensures
        r@ == replaced(s@, from@, to@),
{
    let mut out: Vec<char> = Vec::new();
    let mut i: usize = 0;
    assert(s@.skip(0) == s@);
    while i < s.len()
        invariant
            i <= s@.len(),
            from@.len() > 0,
            replaced(s@, from@, to@) == out@ + replaced(s@.skip(i as int), from@, to@),
        decreases s@.len() - i,
    {
        let ghost rest = s@.skip(i as int);
        assert(rest.len() >= from@.len() ==> rest.take(from@.len() as int) == s@.subrange(
            i as int,
            i + from@.len(),
        ));
        if occurs(s, from, i) {
            assert(rest.skip(from@.len() as int) == s@.skip(i + from@.len()));
            let ghost before = out@;
            let mut k: usize = 0;
            while k < to.len()
                invariant
                    k <= to@.len(),
                    out@ == before + to@.take(k as int),
                decreases to@.len() - k,
            {
                out.push(to[k]);
                assert(to@.take(k + 1) == to@.take(k as int).push(to@[k as int]));
                k += 1;
            }
            assert(to@.take(to@.len() as int) == to@);
            i += from.len();
        } else {
            out.push(s[i]);
            assert(rest.skip(1) == s@.skip(i + 1));
            assert(rest.len() < from@.len() ==> s@.skip(i + 1).len() < from@.len());
            assert(replaced(rest, from@, to@) =~= seq![s@[i as int]] + replaced(
                s@.skip(i + 1),
                from@,
                to@,
            ));
            i += 1;
        }
    }
    assert(s@.skip(s@.len() as int) == Seq::<char>::empty());
    out
}

/// The words of `s`, in order.
pub fn split_words(s: &str) -> (r: Vec<String>)
    ensures
        texts(r@) == words(s@),
{
    let v = chars_of(s);
    let mut out: Vec<String> = Vec::new();
    let mut i: usize = 0;
    while i < v.len()
        invariant
            i <= v@.len(),
            v@ == s@,
            words(s@) == texts(out@) + words_from(s@, i as int),
        decreases v@.len() - i,
    {
        let ghost start = i as int;
        proof {
            lemma_space_end(s@, start);
            lemma_word_end(s@, space_end(s@, start));
        }
        while i < v.len() && is_whitespace(v[i])
            invariant
                start <= i <= v@.len(),
                v@ == s@,
                space_end(s@, start) == space_end(s@, i as int),
            decreases v@.len() - i,
        {
            i += 1;
        }
        let b: usize = i;
        while i < v.len() && !is_whitespace(v[i])
            invariant
                b <= i <= v@.len(),
                v@ == s@,
                word_end(s@, b as int) == word_end(s@, i as int),
            decreases v@.len() - i,
        {
            i += 1;
        }
        if b < i {
            let w = s.substring_char(b, i);
            let ghost sofar = out@;
            out.push(w.to_owned());
            assert(texts(out@) =~= texts(sofar).push(w@));
        }
    }
    proof {
        lemma_space_end(s@, i as int);
    }
    out
}

/// `parts` with `sep` between each two.
pub fn join(parts: &[String], sep: &str) -> (r: String)
    ensures
        r@ == joined(texts(parts@), sep@),
{
    let mut out = String::new();
    let mut i: usize = 0;
    while i < parts.len()
        invariant
            i <= parts@.len(),
            out@ == joined(texts(parts@).take(i as int), sep@),
        decreases parts@.len() - i,
    {
        let ghost list = texts(parts@);
        assert(list.take(i + 1).drop_last() == list.take(i as int));
        if i > 0 {
            out.append(sep);
        }
        out.append(parts[i].as_str());
        assert(out@ =~= joined(list.take(i + 1), sep@));
        i += 1;
    }
    assert(texts(parts@).take(parts@.len() as int) == texts(parts@));
    out
}

// ---------------------------------------------------------------------------
// Numbers
// ---------------------------------------------------------------------------
/// `n` in decimal.
pub fn decimal_of(n: u64) -> (r: String)
    ensures
        r@ == decimal(n as nat),
    decreases n,
{
    let last: u8 = (n % 10) as u8;
    let mut s = if n < 10 {
        String::new()
    } else {
        decimal_of(n / 10)
    };
    s.push((48 + last) as char);
    assert(s@ =~= decimal(n as nat));
    s
}

/// `s` filled up on the left with zeros to at least `width` characters.
pub fn zero_pad(s: String, width: usize) -> (r: String)
    ensures
        r@ == zero_padded(s@, width as nat),
{
    let have: usize = s.as_str().unicode_len();
    let mut out = String::new();
    let mut i: usize = have;
    while i < width
        invariant
            have <= i,
            i <= width || i == have,
            out@ == Seq::new((i - have) as nat, |k: int| '0'),
        decreases width - i,
    {
        out.push('0');
        i += 1;
        assert(out@ =~= Seq::new((i - have) as nat, |k: int| '0'));
    }
    out.append(s.as_str());
    assert(out@ =~= zero_padded(s@, width as nat));
    out
}

/// The number that `s` writes, in the form that `usize` is read from text: an
/// optional `+`, then decimal digits only.
pub open spec fn usize_in(s: Seq<char>) -> Option<usize> {
    let d = if s.len() > 0 && s[0] == '+' {
        s.skip(1)
    } else {
        s
    };
    if d.len() > 0 && all_digits(d) && number_of(d) <= usize::MAX {
        Some(number_of(d) as usize)
    } else {
        None
    }
}

proof fn lemma_number_of_take(s: Seq<char>, i: int)
    requires
        0 <= i <= s.len(),
        all_digits(s),
    ensures
        number_of(s.take(i)) <= number_of(s),
    decreases s.len(),
{
    if i < s.len() {
        assert(s.drop_last().take(i) == s.take(i));
        assert(all_digits(s.drop_last()));
        lemma_number_of_take(s.drop_last(), i);
    } else {
        assert(s.take(i) == s);
    }
}

/// Reads a `usize`.
pub fn parse_usize(s: &str) -> (r: Option<usize>)
    ensures
        r == usize_in(s@),
{
    let v = chars_of(s);
    let from: usize = if v.len() > 0 && v[0] == '+' {
        1
    } else {
        0
    };
    let ghost d = if s@.len() > 0 && s@[0] == '+' {
        s@.skip(1)
    } else {
        s@
    };
    assert(d == v@.skip(from as int));
    if from == v.len() {
        return None;
    }
    let mut n: usize = 0;
    let mut i: usize = from;
    assert(d.take(0) == Seq::<char>::empty());
    while i < v.len()
        invariant
            from <= i <= v@.len(),
            d == v@.skip(from as int),
            d == if s@.len() > 0 && s@[0] == '+' {
                s@.skip(1)
            } else {
                s@
            },
            n == number_of(d.take(i - from)),
            forall|k: int| 0 <= k < i - from ==> is_digit(#[trigger] d[k]),
        decreases v@.len() - i,
    {
        let c: char = v[i];
        assert(c == d[i - from]);
        if !('0' <= c && c <= '9') {
            return None;
        }
        let k: usize = ((c as u8) - 48) as usize;
        assert(d.take(i - from + 1).drop_last() == d.take(i - from));
        let next = match n.checked_mul(10) {
            Some(m) => m.checked_add(k),
            None => None,
        };
        match next {
            Some(m) => {
                n = m;
            },
            None => {
                proof {
                    if all_digits(d) {
                        lemma_number_of_take(d, i - from + 1);
                    }
                }
                return None;
            },
        }
        i += 1;
    }
    assert(d.take(d.len() as int) == d);
    Some(n)
}

// ---------------------------------------------------------------------------
// Letter case
// ---------------------------------------------------------------------------
fn lower_ascii(c: char) -> (r: char)
    ensures
        r == ascii_lower(c),
{
    if 'A' <= c && c <= 'Z' {
        (c as u8 + 32) as char
    } else {
        c
    }
}

/// Whether `a` and `b` are equal but for the case of ASCII letters.
pub fn eq_ignore_ascii_case(a: &str, b: &str) -> (r: bool)
    ensures
        r == equal_ignoring_ascii_case(a@, b@),
{
    let x = chars_of(a);
    let y = chars_of(b);
    if x.len() != y.len() {
        return false;
    }
    let mut i: usize = 0;
    while i < x.len()
        invariant
            i <= x@.len(),
            x@ == a@,
            y@ == b@,
            x@.len() == y@.len(),
            forall|k: int| 0 <= k < i ==> ascii_lower(#[trigger] a@[k]) == ascii_lower(b@[k]),
        decreases x@.len() - i,
    {
        if lower_ascii(x[i]) != lower_ascii(y[i]) {
            assert(ascii_lower(a@[i as int]) != ascii_lower(b@[i as int]));
            return false;
        }
        i += 1;
    }
    true
}

/// The text that `str::to_lowercase` gives for `s`.
pub uninterp spec fn lowercase(s: Seq<char>) -> Seq<char>;

/// `str::to_lowercase`, the Unicode lower-case mapping. Its result is a function
/// of the text alone, which `lowercase` names; what the mapping is, is not said.
#[verifier::external_body]
pub(crate) fn to_lowercase(s: &str) -> (r: String)
    ensures
        r@ == lowercase(s@),
{
    s.to_lowercase()
}

// ---------------------------------------------------------------------------
// Laws
// ---------------------------------------------------------------------------
proof fn lemma_trimmed_end(s: Seq<char>)
    ensures
        trimmed_end(s).len() <= s.len(),
        trimmed_end(s) == s.take(trimmed_end(s).len() as int),
        trimmed_end(s).len() > 0 ==> !is_space(trimmed_end(s).last()),
        forall|i: int| trimmed_end(s).len() <= i < s.len() ==> is_space(#[trigger] s[i]),
    decreases s.len(),
{
    if s.len() > 0 && is_space(s.last()) {
        let init = s.drop_last();
        lemma_trimmed_end(init);
        let n = trimmed_end(init).len() as int;
        assert(init.take(n) =~= s.take(n));
        assert forall|i: int| n <= i < s.len() implies is_space(#[trigger] s[i]) by {
            if i < init.len() {
                assert(init[i] == s[i]);
            }
        }
    } else {
        assert(s.take(s.len() as int) =~= s);
    }
}

proof fn lemma_trimmed_start(s: Seq<char>)
    ensures
        trimmed_start(s).len() <= s.len(),
        trimmed_start(s) == s.skip(s.len() - trimmed_start(s).len()),
        trimmed_start(s).len() > 0 ==> !is_space(trimmed_start(s)[0]),
        forall|i: int|
            0 <= i < s.len() - trimmed_start(s).len() ==> is_space(#[trigger] s[i]),
    decreases s.len(),
{
    if s.len() > 0 && is_space(s[0]) {
        let rest = s.skip(1);
        lemma_trimmed_start(rest);
        let n = rest.len() - trimmed_start(rest).len();
        assert(rest.skip(n) =~= s.skip(n + 1));
        assert forall|i: int| 0 <= i < n + 1 implies is_space(#[trigger] s[i]) by {
            if i > 0 {
                assert(rest[i - 1] == s[i]);
            }
        }
    } else {
        assert(s.skip(0) =~= s);
    }
}

/// A trimmed text neither begins nor ends with white space, stands within the text
/// with nothing but white space around it, and stays as it is when trimmed again.
pub proof fn law_trimmed(s: Seq<char>)
    ensures
        ({
            let t = trimmed(s);
            &&& t.len() > 0 ==> !is_space(t[0]) && !is_space(t.last())
            &&& trimmed(t) == t
            &&& exists|b: int| #[trigger]
                occurs_at(s, t, b) && (forall|i: int|
                    0 <= i < b || b + t.len() <= i < s.len() ==> is_space(#[trigger] s[i]))
        }),
{
    let u = trimmed_start(s);
    let t = trimmed_end(u);
    lemma_trimmed_start(s);
    lemma_trimmed_end(u);
    let b = s.len() - u.len();
    if t.len() > 0 {
        assert(t[0] == u[0]);
    }
    assert(s.subrange(b, b + t.len()) =~= t);
    assert(occurs_at(s, t, b));
    assert forall|i: int| 0 <= i < b || b + t.len() <= i < s.len() implies is_space(
        #[trigger] s[i],
    ) by {
        if i >= b {
            assert(u[i - b] == s[i]);
        }
    }
}

/// A text is blank exactly where all its characters are white space.
pub proof fn law_blank(s: Seq<char>)
    ensures
        is_blank(s) <==> forall|i: int| 0 <= i < s.len() ==> is_space(#[trigger] s[i]),
{
    law_trimmed(s);
    let t = trimmed(s);
    let b = choose|b: int| #[trigger]
        occurs_at(s, t, b) && (forall|i: int|
            0 <= i < b || b + t.len() <= i < s.len() ==> is_space(#[trigger] s[i]));
    if t.len() > 0 {
        assert(s[b] == s.subrange(b, b + t.len())[0]);
    }
}

/// `w` is a word: not empty, and without white space.
pub open spec fn is_word(w: Seq<char>) -> bool {
    w.len() > 0 && forall|i: int| 0 <= i < w.len() ==> !is_space(#[trigger] w[i])
}

proof fn lemma_words_from(s: Seq<char>, i: int)
    requires
        0 <= i <= s.len(),
    ensures
        forall|k: int| 0 <= k < words_from(s, i).len() ==> is_word(#[trigger] words_from(s, i)[k]),
    decreases s.len() - i,
{
    let b = space_end(s, i);
    lemma_space_end(s, i);
    lemma_word_end(s, b);
    if b < s.len() {
        let e = word_end(s, b);
        lemma_words_from(s, e);
        let w = s.subrange(b, e);
        assert forall|k: int| 0 <= k < w.len() implies !is_space(#[trigger] w[k]) by {
            assert(w[k] == s[b + k]);
        }
        let rest = words_from(s, e);
        assert forall|k: int| 0 <= k < words_from(s, i).len() implies is_word(
            #[trigger] words_from(s, i)[k],
        ) by {
            if k > 0 {
                assert(words_from(s, i)[k] == rest[k - 1]);
            }
        }
    }
}

/// Where the white space from `i` on ends does not depend on how it is found out.
proof fn lemma_space_end_is(s: Seq<char>, i: int, b: int)
    requires
        0 <= i <= b <= s.len(),
        forall|k: int| i <= k < b ==> is_space(#[trigger] s[k]),
        b < s.len() ==> !is_space(s[b]),
    ensures
        space_end(s, i) == b,
    decreases b - i,
{
    if i < b {
        assert(is_space(s[i]));
        lemma_space_end_is(s, i + 1, b);
    }
}

proof fn lemma_word_end_is(s: Seq<char>, i: int, e: int)
    requires
        0 <= i <= e <= s.len(),
        forall|k: int| i <= k < e ==> !is_space(#[trigger] s[k]),
        e < s.len() ==> is_space(s[e]),
    ensures
        word_end(s, i) == e,
    decreases e - i,
{
    if i < e {
        assert(!is_space(s[i]));
        lemma_word_end_is(s, i + 1, e);
    }
}

/// A space and a word behind a text add that word to its words.
proof fn lemma_words_append(s: Seq<char>, w: Seq<char>, i: int)
    requires
        0 <= i <= s.len(),
        is_word(w),
    ensures
        words_from(s.push(' ') + w, i) == words_from(s, i).push(w),
    decreases s.len() - i,
{
    let t = s.push(' ') + w;
    let n = s.len() as int;
    let b = space_end(s, i);
    lemma_space_end(s, i);
    lemma_word_end(s, b);
    assert(forall|k: int| 0 <= k < n ==> #[trigger] t[k] == s[k]);
    if b < n {
        let e = word_end(s, b);
        lemma_space_end_is(t, i, b);
        assert(t[n] == ' ');
        lemma_word_end_is(t, b, e);
        assert(t.subrange(b, e) =~= s.subrange(b, e));
        lemma_words_append(s, w, e);
        assert(words_from(t, i) =~= words_from(s, i).push(w));
    } else {
        assert forall|k: int| n + 1 <= k < t.len() implies !is_space(#[trigger] t[k]) by {
            assert(t[k] == w[k - n - 1]);
        }
        assert(t[n] == ' ');
        lemma_space_end_is(t, i, n + 1);
        lemma_word_end_is(t, n + 1, t.len() as int);
        assert(t.subrange(n + 1, t.len() as int) =~= w);
        lemma_space_end_is(t, t.len() as int, t.len() as int);
        assert(words_from(t, t.len() as int) == Seq::<Seq<char>>::empty());
        assert(words_from(t, i) =~= seq![w]);
        assert(words_from(s, i) =~= Seq::empty());
    }
}

proof fn lemma_words_joined(list: Seq<Seq<char>>)
    requires
        forall|k: int| 0 <= k < list.len() ==> is_word(#[trigger] list[k]),
    ensures
        words(joined(list, " "@)) == list,
    decreases list.len(),
{
    reveal_strlit(" ");
    let s = joined(list, " "@);
    if list.len() == 0 {
        assert(words(s) =~= list);
    } else if list.len() == 1 {
        let w = list[0];
        lemma_space_end_is(w, 0, 0);
        lemma_word_end_is(w, 0, w.len() as int);
        assert(w.subrange(0, w.len() as int) =~= w);
        lemma_space_end_is(w, w.len() as int, w.len() as int);
        assert(words_from(w, w.len() as int) == Seq::<Seq<char>>::empty());
        assert(words(s) =~= list);
    } else {
        let init = list.drop_last();
        let w = list.last();
        assert forall|k: int| 0 <= k < init.len() implies is_word(#[trigger] init[k]) by {
            assert(init[k] == list[k]);
        }
        lemma_words_joined(init);
        assert(is_word(list[list.len() - 1]));
        let head = joined(init, " "@);
        assert(s =~= head.push(' ') + w);
        lemma_words_append(head, w, 0);
        assert(words(s) =~= list);
    }
}

/// Each word of a text is not empty and has no white space, and the words with single
/// spaces between them make a text of the same words.
pub proof fn law_words(s: Seq<char>)
    ensures
        forall|k: int| 0 <= k < words(s).len() ==> is_word(#[trigger] words(s)[k]),
        words(joined(words(s), " "@)) == words(s),
{
    lemma_words_from(s, 0);
    lemma_words_joined(words(s));
}

/// White space is what Unicode calls so, by its code points.
pub proof fn law_space(c: char)
    ensures
        is_space(c) <==> {
            let n = c as u32;
            9 <= n <= 13 || n == 32 || n == 133 || n == 160 || n == 5760 || 8192 <= n <= 8202 || n
                == 8232 || n == 8233 || n == 8239 || n == 8287 || n == 12288
        },
{
}

/// What is left of a text without its trailing `c`s is its beginning: it does not end in
/// `c`, and nothing but `c`s was taken away.
pub proof fn law_without_trailing(s: Seq<char>, c: char)
    ensures
        ({
            let r = without_trailing(s, c);
            &&& r.len() <= s.len()
            &&& r == s.take(r.len() as int)
            &&& r.len() > 0 ==> r.last() != c
            &&& forall|i: int| r.len() <= i < s.len() ==> #[trigger] s[i] == c
        }),
    decreases s.len(),
{
    if s.len() > 0 && s.last() == c {
        let init = s.drop_last();
        law_without_trailing(init, c);
        let n = without_trailing(init, c).len() as int;
        assert(init.take(n) =~= s.take(n));
        assert forall|i: int| n <= i < s.len() implies #[trigger] s[i] == c by {
            if i < init.len() {
                assert(init[i] == s[i]);
            }
        }
    } else {
        assert(s.take(s.len() as int) =~= s);
    }
}

/// A text begins with `prefix` exactly where it is `prefix` and something behind it, and
/// that is what follows `prefix`.
pub proof fn law_prefix(s: Seq<char>, prefix: Seq<char>, rest: Seq<char>)
    ensures
        has_prefix(s, prefix) <==> after_prefix(s, prefix) is Some,
        after_prefix(s, prefix) matches Some(t) ==> s == prefix + t,
        after_prefix(prefix + rest, prefix) == Some(rest),
{
    let whole = prefix + rest;
    assert(whole.take(prefix.len() as int) =~= prefix);
    assert(whole.skip(prefix.len() as int) =~= rest);
    if has_prefix(s, prefix) {
        assert(s =~= s.take(prefix.len() as int) + s.skip(prefix.len() as int));
    }
}

/// A part of a text stands where something is before it and something behind it.
pub proof fn law_part(s: Seq<char>, part: Seq<char>, i: int, a: Seq<char>, b: Seq<char>)
    ensures
        occurs_at(s, part, i) ==> s == s.take(i) + part + s.skip(i + part.len()),
        occurs_at(a + part + b, part, a.len() as int),
        has_part(a + part + b, part),
{
    let whole = a + part + b;
    assert(whole.subrange(a.len() as int, (a.len() + part.len()) as int) =~= part);
    assert(occurs_at(whole, part, a.len() as int));
    if occurs_at(s, part, i) {
        assert(s =~= s.take(i) + s.subrange(i, i + part.len()) + s.skip(i + part.len()));
    }
}

/// Where a part stands first: it stands there and nowhere before, and there is such a
/// place wherever it stands at all.
pub proof fn law_position(s: Seq<char>, part: Seq<char>)
    ensures
        match position(s, part) {
            Some(i) => occurs_at(s, part, i) && forall|j: int|
                0 <= j < i ==> !occurs_at(s, part, j),
            None => !has_part(s, part),
        },
{
    lemma_position_from(s, part, 0);
}

/// What stands before the first `mark` is the beginning of the text, up to where `mark`
/// stands first, or all of it.
pub proof fn law_before(s: Seq<char>, mark: Seq<char>)
    ensures
        ({
            let r = before(s, mark);
            &&& r.len() <= s.len()
            &&& r == s.take(r.len() as int)
            &&& forall|j: int| 0 <= j < r.len() ==> !occurs_at(s, mark, j)
            &&& r == s || occurs_at(s, mark, r.len() as int)
        }),
{
    lemma_position_from(s, mark, 0);
    assert(s.take(s.len() as int) =~= s);
}

/// A text without `from` stays as it is. In any other, what stands before the first
/// `from` stays, `from` makes way for `to`, and so on with the rest.
pub proof fn law_replaced(a: Seq<char>, b: Seq<char>, from: Seq<char>, to: Seq<char>)
    requires
        from.len() > 0,
    ensures
        !has_part(a, from) ==> replaced(a, from, to) == a,
        (forall|j: int| 0 <= j < a.len() ==> !occurs_at(a + from + b, from, j)) ==> replaced(
            a + from + b,
            from,
            to,
        ) == a + to + replaced(b, from, to),
{
    if !has_part(a, from) {
        lemma_replaced_absent(a, from, to);
    }
    if forall|j: int| 0 <= j < a.len() ==> !occurs_at(a + from + b, from, j) {
        lemma_replaced_first(a, b, from, to);
    }
}

proof fn lemma_replaced_absent(s: Seq<char>, from: Seq<char>, to: Seq<char>)
    requires
        from.len() > 0,
        !has_part(s, from),
    ensures
        replaced(s, from, to) == s,
    decreases s.len(),
{
    if s.len() >= from.len() {
        assert(!has_prefix(s, from)) by {
            if has_prefix(s, from) {
                assert(s.subrange(0, from.len() as int) =~= s.take(from.len() as int));
                assert(occurs_at(s, from, 0));
            }
        }
        let rest = s.skip(1);
        assert(!has_part(rest, from)) by {
            if has_part(rest, from) {
                let i = choose|i: int| occurs_at(rest, from, i);
                assert(s.subrange(i + 1, i + 1 + from.len()) =~= rest.subrange(
                    i,
                    i + from.len(),
                ));
                assert(occurs_at(s, from, i + 1));
            }
        }
        lemma_replaced_absent(rest, from, to);
        assert(seq![s[0]] + rest =~= s);
    }
}

proof fn lemma_replaced_first(a: Seq<char>, b: Seq<char>, from: Seq<char>, to: Seq<char>)
    requires
        from.len() > 0,
        forall|j: int| 0 <= j < a.len() ==> !occurs_at(a + from + b, from, j),
    ensures
        replaced(a + from + b, from, to) == a + to + replaced(b, from, to),
    decreases a.len(),
{
    let s = a + from + b;
    if a.len() == 0 {
        assert(s.take(from.len() as int) =~= from);
        assert(s.skip(from.len() as int) =~= b);
        assert(a + to + replaced(b, from, to) =~= to + replaced(b, from, to));
    } else {
        assert(!has_prefix(s, from)) by {
            assert(!occurs_at(s, from, 0));
            assert(s.subrange(0, from.len() as int) =~= s.take(from.len() as int));
        }
        let rest = a.skip(1);
        assert(s.skip(1) =~= rest + from + b);
        assert forall|j: int| 0 <= j < rest.len() implies !occurs_at(rest + from + b, from, j) by {
            assert(!occurs_at(s, from, j + 1));
            assert(s.subrange(j + 1, j + 1 + from.len()) =~= (rest + from + b).subrange(
                j,
                j + from.len(),
            ));
        }
        lemma_replaced_first(rest, b, from, to);
        assert(seq![s[0]] + (rest + to + replaced(b, from, to)) =~= a + to + replaced(
            b,
            from,
            to,
        ));
    }
}

/// The words of a text behind some other text are those of the text alone.
proof fn lemma_words_shift(p: Seq<char>, b: Seq<char>, i: int)
    requires
        0 <= i <= b.len(),
    ensures
        words_from(p + b, p.len() + i) == words_from(b, i),
    decreases b.len() - i,
{
    let t = p + b;
    let n = p.len() as int;
    let x = space_end(b, i);
    lemma_space_end(b, i);
    lemma_word_end(b, x);
    assert forall|k: int| n + i <= k < n + x implies is_space(#[trigger] t[k]) by {
        assert(is_space(b[k - n]));
    }
    lemma_space_end_is(t, n + i, n + x);
    if x < b.len() {
        let e = word_end(b, x);
        assert forall|k: int| n + x <= k < n + e implies !is_space(#[trigger] t[k]) by {
            assert(!is_space(b[k - n]));
        }
        lemma_word_end_is(t, n + x, n + e);
        assert(t.subrange(n + x, n + e) =~= b.subrange(x, e));
        lemma_words_shift(p, b, e);
    }
}

proof fn lemma_words_until(a: Seq<char>, c: char, b: Seq<char>, i: int)
    requires
        is_space(c),
        0 <= i <= a.len(),
    ensures
        words_from(a.push(c) + b, i) == words_from(a, i) + words_from(
            a.push(c) + b,
            (a.len() + 1) as int,
        ),
    decreases a.len() - i,
{
    let t = a.push(c) + b;
    let n = a.len() as int;
    let x = space_end(a, i);
    lemma_space_end(a, i);
    lemma_word_end(a, x);
    assert(forall|k: int| 0 <= k < n ==> #[trigger] t[k] == a[k]);
    assert(t[n] == c);
    if x < n {
        let e = word_end(a, x);
        lemma_space_end_is(t, i, x);
        lemma_word_end_is(t, x, e);
        assert(t.subrange(x, e) =~= a.subrange(x, e));
        lemma_words_until(a, c, b, e);
        assert(words_from(t, i) =~= words_from(a, i) + words_from(t, n + 1));
    } else {
        lemma_space_end(t, n + 1);
        let y = space_end(t, n + 1);
        assert forall|k: int| i <= k < y implies is_space(#[trigger] t[k]) by {
            if k < n {
                assert(is_space(a[k]));
            }
        }
        lemma_space_end_is(t, i, y);
        assert(words_from(a, i) =~= Seq::empty());
        assert(words_from(t, i) =~= words_from(t, n + 1));
        assert(words_from(t, i) =~= words_from(a, i) + words_from(t, n + 1));
    }
}

/// Words with single spaces between them are the words of the text that they make.
pub proof fn law_words_of_list(list: Seq<Seq<char>>)
    requires
        forall|k: int| 0 <= k < list.len() ==> is_word(#[trigger] list[k]),
    ensures
        words(joined(list, " "@)) == list,
{
    lemma_words_joined(list);
}

/// White space parts words and is otherwise of no account: the words of two texts with
/// white space between them are the words of the one and then those of the other, and a
/// text without white space is one word.
pub proof fn law_words_of_parts(a: Seq<char>, c: char, b: Seq<char>)
    requires
        is_space(c),
    ensures
        words(a.push(c) + b) == words(a) + words(b),
        is_word(a) ==> words(a) == seq![a],
        a.len() == 0 ==> words(a).len() == 0,
{
    lemma_words_until(a, c, b, 0);
    lemma_words_shift(a.push(c), b, 0);
    if is_word(a) {
        let one = seq![a];
        lemma_words_joined(one);
    }
    if a.len() == 0 {
        lemma_space_end(a, 0);
    }
}

/// Texts are joined one after the other with the separator between them: two lists make
/// what the one and what the other makes, and a single text makes itself.
pub proof fn law_joined(a: Seq<Seq<char>>, b: Seq<Seq<char>>, sep: Seq<char>, one: Seq<char>)
    ensures
        joined(seq![one], sep) == one,
        joined(Seq::empty(), sep) == Seq::<char>::empty(),
        a.len() > 0 && b.len() > 0 ==> joined(a + b, sep) == joined(a, sep) + sep + joined(b, sep),
    decreases b.len(),
{
    if a.len() > 0 && b.len() > 0 {
        let all = a + b;
        assert(all.last() == b.last());
        if b.len() == 1 {
            assert(all.drop_last() =~= a);
        } else {
            let init = b.drop_last();
            law_joined(a, init, sep, one);
            assert(all.drop_last() =~= a + init);
            assert(joined(all, sep) =~= joined(a, sep) + sep + joined(b, sep));
        }
    }
}

/// A number is written in decimal: its digits read back as the number, there are no
/// zeros in front, and one more digit makes ten times the number and that digit.
pub proof fn law_decimal(n: nat, d: nat)
    requires
        d < 10,
    ensures
        decimal(n).len() > 0,
        all_digits(decimal(n)),
        number_of(decimal(n)) == n,
        n > 0 ==> decimal(n)[0] != '0',
        decimal(d).len() == 1 && decimal(d)[0] as u32 == 48 + d,
        n > 0 ==> decimal(10 * n + d) == decimal(n) + decimal(d),
{
    lemma_decimal(n);
    let m = 10 * n + d;
    assert(m / 10 == n && m % 10 == d);
    if n > 0 {
        assert(decimal(n).push(digit(d)) =~= decimal(n) + decimal(d));
    }
}

proof fn lemma_decimal(n: nat)
    ensures
        decimal(n).len() > 0,
        all_digits(decimal(n)),
        number_of(decimal(n)) == n,
        n > 0 ==> decimal(n)[0] != '0',
    decreases n,
{
    let s = decimal(n);
    if n < 10 {
        assert(s.drop_last() =~= Seq::<char>::empty());
        assert(number_of(s.drop_last()) == 0);
    } else {
        lemma_decimal(n / 10);
        assert(s.drop_last() =~= decimal(n / 10));
        assert forall|i: int| 0 <= i < s.len() implies is_digit(#[trigger] s[i]) by {
            if i < s.len() - 1 {
                assert(s[i] == decimal(n / 10)[i]);
            }
        }
        assert(s[0] == decimal(n / 10)[0]);
    }
}

/// Two numbers are written alike only where they are the same.
pub proof fn law_decimal_tells_apart(m: nat, n: nat)
    ensures
        decimal(m) == decimal(n) <==> m == n,
{
    lemma_decimal(m);
    lemma_decimal(n);
}

/// What is filled up with zeros ends as it was, has zeros and nothing else in front, and
/// is as long as asked for, or as it was where that is longer.
pub proof fn law_zero_padded(s: Seq<char>, width: nat)
    ensures
        ({
            let r = zero_padded(s, width);
            &&& r.len() == if s.len() < width {
                width
            } else {
                s.len()
            }
            &&& r.skip(r.len() - s.len()) == s
            &&& forall|i: int| 0 <= i < r.len() - s.len() ==> #[trigger] r[i] == '0'
        }),
{
    let r = zero_padded(s, width);
    assert(r.skip(r.len() - s.len()) =~= s);
}

/// A number that is written in decimal is read back, with a `+` in front as well. What is
/// read is a run of digits, perhaps behind a `+`, and the number that they write.
pub proof fn law_usize_in(n: usize, s: Seq<char>)
    ensures
        usize_in(decimal(n as nat)) == Some(n),
        usize_in(seq!['+'] + decimal(n as nat)) == Some(n),
        usize_in(s) matches Some(m) ==> {
            ||| s.len() > 0 && all_digits(s) && m == number_of(s)
            ||| s.len() > 1 && s[0] == '+' && all_digits(s.skip(1)) && m == number_of(s.skip(1))
        },
        s.len() > 0 && all_digits(s) && number_of(s) <= usize::MAX ==> usize_in(s) is Some,
{
    let d = decimal(n as nat);
    lemma_decimal(n as nat);
    assert(is_digit(d[0]));
    let signed = seq!['+'] + d;
    assert(signed.skip(1) =~= d);
    if s.len() > 0 && all_digits(s) {
        assert(is_digit(s[0]));
    }
}

/// Two characters are the same but for the case of ASCII letters where they are the same,
/// or one is a letter `A` to `Z` and the other stands 32 places behind it.
pub proof fn law_letter_case(a: char, b: char)
    ensures
        ascii_lower(a) == ascii_lower(b) <==> {
            ||| a == b
            ||| 65 <= a as u32 <= 90 && b as u32 == a as u32 + 32
            ||| 65 <= b as u32 <= 90 && a as u32 == b as u32 + 32
        },
{
}

/// Texts are equal but for the case of ASCII letters where they are as long and each two
/// characters are, so that letters may be large or small and nothing else may differ.
pub proof fn law_equal_ignoring_case(a: Seq<char>, b: Seq<char>)
    ensures
        equal_ignoring_ascii_case(a, a),
        equal_ignoring_ascii_case(a, b) <==> {
            &&& a.len() == b.len()
            &&& forall|i: int|
                0 <= i < a.len() ==> {
                    ||| #[trigger] a[i] == b[i]
                    ||| 'A' <= a[i] <= 'Z' && b[i] == ascii_lower(a[i])
                    ||| 'A' <= b[i] <= 'Z' && a[i] == ascii_lower(b[i])
                }
        },
{
    assert forall|x: char, y: char| #[trigger] ascii_lower(x) == #[trigger] ascii_lower(y) <==> {
        ||| x == y
        ||| 'A' <= x <= 'Z' && y == ascii_lower(x)
        ||| 'A' <= y <= 'Z' && x == ascii_lower(y)
    } by {
        law_letter_case(x, y);
    }
}

/// Zeros in front change no number.
pub proof fn law_leading_zero(s: Seq<char>)
    ensures
        number_of(seq!['0'] + s) == number_of(s),
    decreases s.len(),
{
    let t = seq!['0'] + s;
    if s.len() == 0 {
        assert(t =~= seq!['0']);
        assert(t.drop_last() =~= Seq::<char>::empty());
        assert(number_of(t.drop_last()) == 0);
    } else {
        law_leading_zero(s.drop_last());
        assert(t.drop_last() =~= seq!['0'] + s.drop_last());
        assert(t.last() == s.last());
    }
}

/// A list of strings holds the text of each of them, in order, and a string that may be
/// absent holds its text where it is there.
pub proof fn law_texts(list: Seq<String>, i: int, s: String, t: &str)
    ensures
        texts(list).len() == list.len(),
        0 <= i < list.len() ==> texts(list)[i] == list[i]@,
        text_opt(Some(s)) == Some(s@),
        text_opt(None) is None,
        str_opt(Some(t)) == Some(t@),
        str_opt(None) is None,
{
}

} // verus!
