//! Text as sequences of characters.
//!
//! The SDP helpers and the messages of errors work on characters. A text is
//! taken apart into a `Vec<char>` once and put together again at the end; what
//! happens in between is stated over `Seq<char>`.

use vstd::prelude::*;

verus! {

/// `String::push` appends the character.
pub assume_specification[ String::push ](s: &mut String, c: char)
    ensures
        final(s)@ == old(s)@.push(c),
;

/// The views of a list of texts.
pub open spec fn views(texts: Seq<Vec<char>>) -> Seq<Seq<char>> {
    Seq::new(texts.len(), |i: int| texts[i]@)
}

/// The characters of `text`.
pub fn chars_of(text: &str) -> (chars: Vec<char>)
    ensures
        chars@ == text@,
{
    let mut chars: Vec<char> = Vec::new();
    for c in iter: text.chars()
        invariant
            iter.seq() == text@,
            chars@ == text@.take(iter.index() as int),
    {
        chars.push(c);
    }
    assert(text@.take(text@.len() as int) =~= text@);
    chars
}

/// The text made of `chars`.
pub fn text_of(chars: &[char]) -> (text: String)
    ensures
        text@ == chars@,
{
    let mut text = String::new();
    for i in 0..chars.len()
        invariant
            text@ == chars@.take(i as int),
    {
        text.push(chars[i]);
    }
    assert(chars@.take(chars@.len() as int) =~= chars@);
    text
}

/// A copy of the characters from `from` up to `to`.
pub fn copy_chars(s: &[char], from: usize, to: usize) -> (out: Vec<char>)
    requires
        from <= to <= s@.len(),
    ensures
        out@ == s@.subrange(from as int, to as int),
{
    let mut out: Vec<char> = Vec::new();
    for i in from..to
        invariant
            from <= to <= s@.len(),
            out@ == s@.subrange(from as int, i as int),
    {
        out.push(s[i]);
    }
    out
}

/// Whether two texts are the same.
pub fn same_chars(a: &[char], b: &[char]) -> (same: bool)
    ensures
        same == (a@ == b@),
{
    if a.len() != b.len() {
        return false;
    }
    for i in 0..a.len()
        invariant
            a@.len() == b@.len(),
            forall|j: int| 0 <= j < i ==> a@[j] == b@[j],
    {
        if a[i] != b[i] {
            return false;
        }
    }
    assert(a@ =~= b@);
    true
}

/// Whether `s` continues with `prefix` at position `at`.
pub open spec fn has_at(s: Seq<char>, at: int, prefix: Seq<char>) -> bool {
    0 <= at && at + prefix.len() <= s.len() && s.subrange(at, at + prefix.len()) == prefix
}

/// Whether `s` continues with `prefix` at position `at`.
pub fn continues_with(s: &[char], at: usize, prefix: &[char]) -> (yes: bool)
    requires
        at <= s@.len(),
    ensures
        yes == has_at(s@, at as int, prefix@),
{
    if s.len() - at < prefix.len() {
        return false;
    }
    let part = copy_chars(s, at, at + prefix.len());
    same_chars(part.as_slice(), prefix)
}

/// The first position of `c` in `s` at or after `from`; the length of `s` where
/// there is none.
pub open spec fn index_from(s: Seq<char>, c: char, from: int) -> int
    decreases s.len() - from,
{
    if from >= s.len() {
        s.len() as int
    } else if s[from] == c {
        from
    } else {
        index_from(s, c, from + 1)
    }
}

/// What [`index_from`] finds is the first such position.
pub proof fn lemma_index_from(s: Seq<char>, c: char, from: int)
    requires
        0 <= from <= s.len(),
    ensures
        from <= index_from(s, c, from) <= s.len(),
        forall|j: int| from <= j < index_from(s, c, from) ==> s[j] != c,
        index_from(s, c, from) < s.len() ==> s[index_from(s, c, from)] == c,
    decreases s.len() - from,
{
    if from < s.len() && s[from] != c {
        lemma_index_from(s, c, from + 1);
    }
}

/// Where the first such position is known, [`index_from`] is that position.
pub proof fn lemma_index_is(s: Seq<char>, c: char, from: int, at: int)
    requires
        0 <= from <= at <= s.len(),
        forall|j: int| from <= j < at ==> s[j] != c,
        at < s.len() ==> s[at] == c,
    ensures
        index_from(s, c, from) == at,
{
    lemma_index_from(s, c, from);
}

/// The first position of `c` in `s` at or after `from`, else the length of `s`.
pub fn find_char(s: &[char], c: char, from: usize) -> (at: usize)
    requires
        from <= s@.len(),
    ensures
        at == index_from(s@, c, from as int),
        from <= at <= s@.len(),
{
    let mut i: usize = from;
    while i < s.len()
        invariant
            from <= i <= s@.len(),
            index_from(s@, c, from as int) == index_from(s@, c, i as int),
        decreases s@.len() - i,
    {
        if s[i] == c {
            return i;
        }
        i = i + 1;
    }
    i
}

// ---- lines ----
/// The line that stands between `from` and its end `to`: a carriage return just
/// in front of a line feed belongs to the line's end.
pub open spec fn line_between(s: Seq<char>, from: int, to: int) -> Seq<char> {
    if to < s.len() && from < to && s[to - 1] == '\r' {
        s.subrange(from, to - 1)
    } else {
        s.subrange(from, to)
    }
}

/// The lines of `s` from position `from` on.
pub open spec fn lines_from(s: Seq<char>, from: int) -> Seq<Seq<char>>
    decreases s.len() - from,
    when 0 <= from
    via lines_from_shrinks
{
    if from >= s.len() {
        Seq::empty()
    } else {
        let to = index_from(s, '\n', from);
        if to < s.len() {
            seq![line_between(s, from, to)] + lines_from(s, to + 1)
        } else {
            seq![line_between(s, from, to)]
        }
    }
}

#[via_fn]
proof fn lines_from_shrinks(s: Seq<char>, from: int) {
    if from < s.len() {
        lemma_index_from(s, '\n', from);
    }
}

/// The lines of `s`, without their ends.
pub open spec fn lines(s: Seq<char>) -> Seq<Seq<char>> {
    lines_from(s, 0)
}

/// Whole lines at the beginning of a text are lines of it, with the others behind
/// them.
pub proof fn lemma_lines_continue(before: Seq<char>, rest: Seq<char>, from: int)
    requires
        0 <= from <= before.len(),
        before.len() > 0 ==> before.last() == '\n',
    ensures
        lines_from(before + rest, from) == lines_from(before, from) + lines_from(
            before + rest,
            before.len() as int,
        ),
    decreases before.len() - from,
{
    let s = before + rest;
    if from < before.len() {
        let to = index_from(before, '\n', from);
        lemma_index_from(before, '\n', from);
        assert(to < before.len());
        lemma_index_is(s, '\n', from, to);
        assert(line_between(s, from, to) =~= line_between(before, from, to));
        lemma_lines_continue(before, rest, to + 1);
        assert(lines_from(s, from) =~= lines_from(before, from) + lines_from(
            s,
            before.len() as int,
        ));
    } else {
        assert(lines_from(before, from) =~= Seq::empty());
        assert(lines_from(s, from) =~= Seq::<Seq<char>>::empty() + lines_from(s, from));
    }
}

/// The lines of `s`, without their ends.
pub fn split_lines(s: &[char]) -> (out: Vec<Vec<char>>)
    ensures
        views(out@) == lines(s@),
{
    let mut out: Vec<Vec<char>> = Vec::new();
    let mut from: usize = 0;
    assert(views(out@) + lines_from(s@, 0) =~= lines(s@));
    while from < s.len()
        invariant
            from <= s@.len(),
            views(out@) + lines_from(s@, from as int) == lines(s@),
        decreases s@.len() - from,
    {
        let to = find_char(s, '\n', from);
        let line = if to < s.len() && from < to && s[to - 1] == '\r' {
            copy_chars(s, from, to - 1)
        } else {
            copy_chars(s, from, to)
        };
        let ghost before = views(out@);
        let ghost rest = if to < s@.len() {
            lines_from(s@, to + 1)
        } else {
            Seq::empty()
        };
        assert(lines_from(s@, from as int) =~= seq![line@] + rest);
        out.push(line);
        assert(views(out@) =~= before.push(line@));
        assert(views(out@) + rest =~= before + (seq![line@] + rest));
        if to < s.len() {
            from = to + 1;
        } else {
            from = to;
            assert(lines_from(s@, to as int) =~= Seq::empty());
        }
    }
    assert(views(out@) =~= lines(s@));
    out
}

// ---- white space ----
/// The characters with the Unicode property `White_Space`.
pub open spec fn white(c: char) -> bool {
    let u = c as u32;
    ||| 0x09 <= u <= 0x0d
    ||| u == 0x20
    ||| u == 0x85
    ||| u == 0xa0
    ||| u == 0x1680
    ||| 0x2000 <= u <= 0x200a
    ||| u == 0x2028
    ||| u == 0x2029
    ||| u == 0x202f
    ||| u == 0x205f
    ||| u == 0x3000
}

/// Whether `c` is white space.
pub fn is_white(c: char) -> (yes: bool)
    ensures
        yes == white(c),
{
    let u: u32 = c as u32;
    (0x09 <= u && u <= 0x0d) || u == 0x20 || u == 0x85 || u == 0xa0 || u == 0x1680 || (0x2000 <= u
        && u <= 0x200a) || u == 0x2028 || u == 0x2029 || u == 0x202f || u == 0x205f || u == 0x3000
}

/// The first position at or after `from` that is not white space.
pub open spec fn white_end(s: Seq<char>, from: int) -> int
    decreases s.len() - from,
{
    if from < s.len() && white(s[from]) {
        white_end(s, from + 1)
    } else {
        from
    }
}

/// The first position at or after `from` that is white space, else the length.
pub open spec fn word_end(s: Seq<char>, from: int) -> int
    decreases s.len() - from,
{
    if from < s.len() && !white(s[from]) {
        word_end(s, from + 1)
    } else {
        from
    }
}

/// The position behind the last character before `to` that is not white space.
pub open spec fn trim_end_at(s: Seq<char>, to: int) -> int
    decreases to,
{
    if to > 0 && white(s[to - 1]) {
        trim_end_at(s, to - 1)
    } else {
        to
    }
}

/// `s` without the white space at its two ends.
pub open spec fn trimmed(s: Seq<char>) -> Seq<char> {
    let from = white_end(s, 0);
    if from >= s.len() {
        Seq::empty()
    } else {
        s.subrange(from, trim_end_at(s, s.len() as int))
    }
}

proof fn lemma_white_end(s: Seq<char>, from: int)
    requires
        0 <= from <= s.len(),
    ensures
        from <= white_end(s, from) <= s.len(),
        forall|j: int| from <= j < white_end(s, from) ==> white(#[trigger] s[j]),
        white_end(s, from) < s.len() ==> !white(s[white_end(s, from)]),
    decreases s.len() - from,
{
    if from < s.len() && white(s[from]) {
        lemma_white_end(s, from + 1);
    }
}

proof fn lemma_word_end(s: Seq<char>, from: int)
    requires
        0 <= from <= s.len(),
    ensures
        from <= word_end(s, from) <= s.len(),
        from < s.len() && !white(s[from]) ==> from < word_end(s, from),
        forall|j: int| from <= j < word_end(s, from) ==> !white(#[trigger] s[j]),
    decreases s.len() - from,
{
    if from < s.len() && !white(s[from]) {
        lemma_word_end(s, from + 1);
    }
}

/// Trimming keeps a text that neither begins nor ends with white space.
pub proof fn lemma_trimmed_is_kept(s: Seq<char>)
    requires
        s.len() > 0 ==> !white(s[0]) && !white(s.last()),
    ensures
        trimmed(s) == s,
{
    if s.len() > 0 {
        assert(white_end(s, 0) == 0);
        assert(trim_end_at(s, s.len() as int) == s.len());
        assert(s.subrange(0, s.len() as int) =~= s);
    } else {
        assert(trimmed(s) =~= s);
    }
}

/// `s` without the white space at its two ends.
pub fn trim(s: &[char]) -> (out: Vec<char>)
    ensures
        out@ == trimmed(s@),
{
    let mut from: usize = 0;
    while from < s.len() && is_white(s[from])
        invariant
            from <= s@.len(),
            white_end(s@, 0) == white_end(s@, from as int),
        decreases s@.len() - from,
    {
        from = from + 1;
    }
    if from >= s.len() {
        return Vec::new();
    }
    let mut to: usize = s.len();
    proof {
        lemma_trim_end_stops(s@, s@.len() as int, from as int);
    }
    while to > from && is_white(s[to - 1])
        invariant
            from <= to <= s@.len(),
            from < trim_end_at(s@, s@.len() as int),
            trim_end_at(s@, s@.len() as int) == trim_end_at(s@, to as int),
        decreases to,
    {
        to = to - 1;
    }
    proof {
        lemma_trim_end_bound(s@, to as int);
    }
    copy_chars(s, from, to)
}

/// Trimming keeps a text that begins without white space up to any character that
/// is none.
pub proof fn lemma_trimmed_keeps(s: Seq<char>, at: int)
    requires
        0 <= at < s.len(),
        !white(s[0]),
        !white(s[at]),
    ensures
        at < trimmed(s).len() <= s.len(),
        trimmed(s) == s.take(trimmed(s).len() as int),
{
    assert(white_end(s, 0) == 0);
    lemma_trim_end_stops(s, s.len() as int, at);
    assert(trimmed(s) =~= s.take(trim_end_at(s, s.len() as int)));
}

proof fn lemma_trim_end_stops(s: Seq<char>, to: int, at: int)
    requires
        0 <= at < to <= s.len(),
        !white(s[at]),
    ensures
        at < trim_end_at(s, to) <= to,
    decreases to,
{
    if white(s[to - 1]) {
        lemma_trim_end_stops(s, to - 1, at);
    }
}

proof fn lemma_trim_end_bound(s: Seq<char>, to: int)
    ensures
        trim_end_at(s, to) <= to,
    decreases to,
{
    if to > 0 && white(s[to - 1]) {
        lemma_trim_end_bound(s, to - 1);
    }
}

/// The words of `s` from `from` on: the longest runs without white space.
pub open spec fn words_from(s: Seq<char>, from: int) -> Seq<Seq<char>>
    decreases s.len() - from,
    when 0 <= from <= s.len()
    via words_from_shrinks
{
    let begin = white_end(s, from);
    if begin >= s.len() {
        Seq::empty()
    } else {
        let end = word_end(s, begin);
        seq![s.subrange(begin, end)] + words_from(s, end)
    }
}

#[via_fn]
proof fn words_from_shrinks(s: Seq<char>, from: int) {
    lemma_white_end(s, from);
    if white_end(s, from) < s.len() {
        lemma_word_end(s, white_end(s, from));
    }
}

/// The words of `s`, which white space separates.
pub open spec fn words(s: Seq<char>) -> Seq<Seq<char>> {
    words_from(s, 0)
}

/// The words of `s`, which white space separates.
pub fn split_words(s: &[char]) -> (out: Vec<Vec<char>>)
    ensures
        views(out@) == words(s@),
{
    let mut out: Vec<Vec<char>> = Vec::new();
    let mut from: usize = 0;
    assert(views(out@) + words_from(s@, 0) =~= words(s@));
    while from < s.len()
        invariant
            from <= s@.len(),
            views(out@) + words_from(s@, from as int) == words(s@),
        decreases s@.len() - from,
    {
        let ghost start = from as int;
        let mut begin: usize = from;
        while begin < s.len() && is_white(s[begin])
            invariant
                start <= begin <= s@.len(),
                white_end(s@, start) == white_end(s@, begin as int),
            decreases s@.len() - begin,
        {
            begin = begin + 1;
        }
        if begin >= s.len() {
            assert(words_from(s@, start) =~= Seq::empty());
            assert(words_from(s@, begin as int) =~= Seq::empty());
            from = begin;
        } else {
            let mut end: usize = begin;
            while end < s.len() && !is_white(s[end])
                invariant
                    begin <= end <= s@.len(),
                    word_end(s@, begin as int) == word_end(s@, end as int),
                decreases s@.len() - end,
            {
                end = end + 1;
            }
            proof {
                lemma_word_end(s@, begin as int);
            }
            let word = copy_chars(s, begin, end);
            let ghost before = views(out@);
            let ghost rest = words_from(s@, end as int);
            out.push(word);
            assert(views(out@) =~= before.push(word@));
            assert(views(out@) + rest =~= before + (seq![word@] + rest));
            from = end;
        }
    }
    assert(words_from(s@, from as int) =~= Seq::empty());
    assert(views(out@) =~= words(s@));
    out
}

// ---- numbers ----
/// Whether `c` is a decimal digit.
pub open spec fn is_digit(c: char) -> bool {
    '0' <= c && c <= '9'
}

/// The number that the decimal digits `s` write.
pub open spec fn digits_value(s: Seq<char>) -> nat
    decreases s.len(),
{
    if s.len() == 0 {
        0
    } else {
        digits_value(s.drop_last()) * 10 + (s.last() as nat - '0' as nat) as nat
    }
}

/// The digits of a number behind an optional plus sign.
pub open spec fn unsigned_digits(s: Seq<char>) -> Seq<char> {
    if s.len() > 0 && s[0] == '+' {
        s.skip(1)
    } else {
        s
    }
}

/// The octet that `s` writes in decimal: at least one digit, perhaps behind a
/// plus sign, and a value of at most 255.
pub open spec fn octet_of(s: Seq<char>) -> Option<u8> {
    let digits = unsigned_digits(s);
    if digits.len() > 0 && (forall|i: int| 0 <= i < digits.len() ==> is_digit(#[trigger] digits[i]))
        && digits_value(digits) <= 255 {
        Some(digits_value(digits) as u8)
    } else {
        None
    }
}

proof fn lemma_digits_grow(s: Seq<char>, n: int)
    requires
        0 <= n <= s.len(),
    ensures
        digits_value(s.take(n)) <= digits_value(s),
    decreases s.len(),
{
    if n < s.len() {
        assert(s.drop_last().take(n) =~= s.take(n));
        lemma_digits_grow(s.drop_last(), n);
    } else {
        assert(s.take(n) =~= s);
    }
}

/// The octet that `s` writes in decimal.
pub fn parse_octet(s: &[char]) -> (v: Option<u8>)
    ensures
        v == octet_of(s@),
{
    let from: usize = if s.len() > 0 && s[0] == '+' {
        1
    } else {
        0
    };
    let ghost digits = unsigned_digits(s@);
    assert(digits =~= s@.skip(from as int));
    if from >= s.len() {
        return None;
    }
    let mut value: u32 = 0;
    let mut i: usize = from;
    assert(digits.take(0) =~= Seq::empty());
    while i < s.len()
        invariant
            from <= i <= s@.len(),
            digits == s@.skip(from as int),
            digits == unsigned_digits(s@),
            value == digits_value(digits.take(i - from)),
            value <= 255,
            forall|j: int| 0 <= j < i - from ==> is_digit(#[trigger] digits[j]),
        decreases s@.len() - i,
    {
        let c = s[i];
        assert(c == digits[i - from]);
        if c < '0' || '9' < c {
            return None;
        }
        assert(digits.take(i + 1 - from).drop_last() =~= digits.take(i - from));
        value = value * 10 + (c as u32 - '0' as u32);
        if value > 255 {
            proof {
                lemma_digits_grow(digits, i + 1 - from);
            }
            return None;
        }
        i = i + 1;
    }
    assert(digits.take(digits.len() as int) =~= digits);
    Some(value as u8)
}

/// The decimal digits of `n`.
pub open spec fn decimal(n: nat) -> Seq<char>
    decreases n,
{
    if n < 10 {
        seq![('0' as u32 + n) as char]
    } else {
        decimal(n / 10).push(('0' as u32 + n % 10) as char)
    }
}

/// Appends `n` in decimal.
pub fn push_decimal(out: &mut String, n: u64)
    ensures
        final(out)@ == old(out)@ + decimal(n as nat),
    decreases n,
{
    if n >= 10 {
        push_decimal(out, n / 10);
    }
    let digit: u8 = (n % 10) as u8 + 48;
    out.push(digit as char);
    assert(out@ =~= old(out)@ + decimal(n as nat));
}

/// The hexadecimal digit, in lower case, for a number below 16.
pub open spec fn hex_digit(n: int) -> char {
    if n < 10 {
        ('0' as u32 + n) as char
    } else {
        ('a' as u32 + (n - 10)) as char
    }
}

/// The four hexadecimal digits of `n`.
pub open spec fn hex4(n: u16) -> Seq<char> {
    seq![
        hex_digit(n as int / 0x1000),
        hex_digit(n as int / 0x100 % 16),
        hex_digit(n as int / 16 % 16),
        hex_digit(n as int % 16),
    ]
}

/// The hexadecimal digit for a number below 16.
fn hex_char(n: u8) -> (c: char)
    requires
        n < 16,
    ensures
        c == hex_digit(n as int),
{
    if n < 10 {
        (n + 48) as char
    } else {
        (n + 87) as char
    }
}

/// Appends the four hexadecimal digits of `n`.
pub fn push_hex4(out: &mut String, n: u16)
    ensures
        final(out)@ == old(out)@ + hex4(n),
{
    out.push(hex_char((n / 0x1000) as u8));
    out.push(hex_char((n / 0x100 % 16) as u8));
    out.push(hex_char((n / 16 % 16) as u8));
    out.push(hex_char((n % 16) as u8));
    assert(out@ =~= old(out)@ + hex4(n));
}

/// The decimal digits of a number write that number, and nothing but digits, the first
/// of which is no zero unless it is the only one.
pub proof fn law_decimal_writes_the_number(n: nat)
    ensures
        digits_value(decimal(n)) == n,
        decimal(n).len() > 0,
        forall|i: int| 0 <= i < decimal(n).len() ==> '0' <= #[trigger] decimal(n)[i] <= '9',
        n > 0 ==> decimal(n)[0] != '0',
        n == 0 ==> decimal(n) == seq!['0'],
        n < 10 ==> decimal(n).len() == 1,
    decreases n,
{
    reveal_with_fuel(digits_value, 2);
    if n >= 10 {
        law_decimal_writes_the_number(n / 10);
        let all = decimal(n);
        let rest = decimal(n / 10);
        let digit = ('0' as u32 + n % 10) as char;
        assert(all == rest.push(digit));
        assert(all.drop_last() =~= rest);
        assert(all.last() == digit);
        assert(digit as nat - '0' as nat == n % 10);
        assert forall|i: int| 0 <= i < all.len() implies '0' <= #[trigger] all[i] <= '9' by {
            if i < rest.len() {
                assert(all[i] == rest[i]);
            }
        }
        assert(all[0] == rest[0]);
    } else {
        let one = seq![('0' as u32 + n) as char];
        assert(decimal(n) == one);
        assert(one.drop_last() =~= Seq::empty());
    }
}

/// Behind another digit a number is ten times as much and the digit.
pub proof fn law_digits_count_tenfold(s: Seq<char>, digit: char)
    requires
        '0' <= digit <= '9',
    ensures
        digits_value(Seq::empty()) == 0,
        digits_value(s.push(digit)) == digits_value(s) * 10 + (digit as nat - 48),
{
    assert(s.push(digit).drop_last() =~= s);
}

/// Whether `digits` are decimal digits that write `v`.
pub open spec fn writes(digits: Seq<char>, v: nat) -> bool {
    &&& digits.len() > 0
    &&& forall|i: int| 0 <= i < digits.len() ==> '0' <= #[trigger] digits[i] <= '9'
    &&& digits_value(digits) == v
}

/// An octet is read from its digits, with or without a plus sign, and from nothing
/// else.
pub proof fn law_octets_are_read(n: u8, s: Seq<char>)
    ensures
        octet_of(decimal(n as nat)) == Some(n),
        octet_of(seq!['+'] + decimal(n as nat)) == Some(n),
        octet_of(s) matches Some(v) ==> (s[0] == '+' && writes(s.skip(1), v as nat)) || writes(
            s,
            v as nat,
        ),
        octet_of(Seq::empty()) is None,
        forall|m: nat| m > 255 ==> octet_of(#[trigger] decimal(m)) is None,
{
    law_decimal_writes_the_number(n as nat);
    let d = decimal(n as nat);
    assert(d[0] != '+');
    assert((seq!['+'] + d).skip(1) =~= d);
    assert forall|m: nat| m > 255 implies octet_of(#[trigger] decimal(m)) is None by {
        law_decimal_writes_the_number(m);
        assert(decimal(m)[0] != '+');
    }
}

/// Four hexadecimal digits, the most significant first, in lower case.
pub proof fn law_hex4_writes_the_number(n: u16, i: int)
    requires
        0 <= i < 4,
    ensures
        hex4(n).len() == 4,
        ({
            let nibble = if i == 0 {
                n as int / 4096
            } else if i == 1 {
                n as int / 256 % 16
            } else if i == 2 {
                n as int / 16 % 16
            } else {
                n as int % 16
            };
            &&& nibble < 10 ==> hex4(n)[i] as u32 == 48 + nibble
            &&& nibble >= 10 ==> hex4(n)[i] as u32 == 87 + nibble
        }),
{
}

/// Trimming takes white space off both ends, all of it, and nothing else.
pub proof fn law_trimming_takes_white_space_off(s: Seq<char>)
    ensures
        exists|from: int, to: int|
            {
                &&& 0 <= from <= to <= s.len()
                &&& trimmed(s) == #[trigger] s.subrange(from, to)
                &&& forall|i: int| 0 <= i < from ==> white(#[trigger] s[i])
                &&& forall|i: int| to <= i < s.len() ==> white(#[trigger] s[i])
            },
        trimmed(s).len() > 0 ==> !white(trimmed(s)[0]) && !white(trimmed(s).last()),
{
    lemma_white_end(s, 0);
    let from = white_end(s, 0);
    if from < s.len() {
        let to = trim_end_at(s, s.len() as int);
        lemma_trim_end_stops(s, s.len() as int, from);
        lemma_trim_end_is_white(s, s.len() as int);
        assert(trimmed(s) == s.subrange(from, to));
    } else {
        assert(trimmed(s) =~= s.subrange(s.len() as int, s.len() as int));
    }
}

proof fn lemma_trim_end_is_white(s: Seq<char>, to: int)
    requires
        0 <= to <= s.len(),
    ensures
        0 <= trim_end_at(s, to) <= to,
        forall|i: int| trim_end_at(s, to) <= i < to ==> white(#[trigger] s[i]),
        trim_end_at(s, to) > 0 ==> !white(s[trim_end_at(s, to) - 1]),
    decreases to,
{
    if to > 0 && white(s[to - 1]) {
        lemma_trim_end_is_white(s, to - 1);
    }
}

/// What white space is: tab to carriage return, the space, and the other characters
/// that Unicode counts.
pub proof fn law_white_space(c: char)
    ensures
        white(' ') && white('\t') && white('\n') && white('\r'),
        0x21 <= c as u32 <= 0x7e ==> !white(c),
        white(c) && (c as u32) < 0x80 ==> c == ' ' || 9 <= c as u32 <= 13,
{
}

/// A line feed ends a line, with a carriage return in front of it or without; what
/// stands behind it is the next line.
pub proof fn law_line_feeds_end_lines(line: Seq<char>, rest: Seq<char>, carriage: bool)
    requires
        !line.contains('\n'),
        line.len() > 0 ==> line.last() != '\r',
    ensures
        ({
            let end = if carriage {
                seq!['\r', '\n']
            } else {
                seq!['\n']
            };
            lines(line + end + rest) == seq![line] + lines(rest)
        }),
        line.len() > 0 ==> lines(line) == seq![line],
        lines(Seq::empty()) == Seq::<Seq<char>>::empty(),
{
    let end = if carriage {
        seq!['\r', '\n']
    } else {
        seq!['\n']
    };
    let s = line + end + rest;
    let at = line.len() + end.len() - 1;
    assert(forall|j: int| 0 <= j < line.len() ==> line[j] != '\n');
    assert(forall|j: int| 0 <= j < line.len() ==> s[j] == line[j]);
    assert(s[at] == '\n');
    if carriage {
        assert(s[at - 1] == '\r');
    }
    lemma_index_is(s, '\n', 0, at);
    if !carriage && line.len() > 0 {
        assert(s[at - 1] == line.last());
    }
    assert(line_between(s, 0, at) =~= line);
    lemma_lines_shift(line + end, rest, 0);
    if line.len() > 0 {
        lemma_index_is(line, '\n', 0, line.len() as int);
        assert(line_between(line, 0, line.len() as int) =~= line);
    }
}

/// White space separates words: the first one is what stands between the white space
/// at the beginning and the next, and the others are those of the rest.
pub proof fn law_white_space_separates_words(gap: Seq<char>, word: Seq<char>, rest: Seq<char>)
    requires
        forall|i: int| 0 <= i < gap.len() ==> white(#[trigger] gap[i]),
        forall|i: int| 0 <= i < word.len() ==> !white(#[trigger] word[i]),
        word.len() > 0,
        rest.len() > 0 ==> white(rest[0]),
    ensures
        words(gap + word + rest) == seq![word] + words(rest),
        words(gap) == Seq::<Seq<char>>::empty(),
{
    let s = gap + word + rest;
    let (begin, end) = (gap.len() as int, (gap.len() + word.len()) as int);
    assert(forall|i: int| 0 <= i < begin ==> s[i] == gap[i]);
    assert(forall|i: int| begin <= i < end ==> s[i] == word[i - begin]);
    assert(end < s.len() ==> s[end] == rest[0]);
    lemma_white_end(s, 0);
    assert(white_end(s, 0) == begin) by {
        if white_end(s, 0) < begin {
            assert(white(s[white_end(s, 0)]));
        } else if white_end(s, 0) > begin {
            assert(white(s[begin]));
        }
    }
    lemma_word_end(s, begin);
    lemma_word_end_stops(s, begin);
    assert(word_end(s, begin) == end) by {
        if word_end(s, begin) > end {
            assert(!white(s[end]));
        }
    }
    assert(s.subrange(begin, end) =~= word);
    lemma_words_shift(gap + word, rest, 0);
    lemma_white_end(gap, 0);
    assert(words(gap) =~= Seq::<Seq<char>>::empty());
}

proof fn lemma_index_shift(a: Seq<char>, b: Seq<char>, c: char, from: int)
    requires
        0 <= from <= b.len(),
    ensures
        index_from(a + b, c, a.len() + from) == a.len() + index_from(b, c, from),
    decreases b.len() - from,
{
    if from < b.len() {
        assert((a + b)[a.len() + from] == b[from]);
        if b[from] != c {
            lemma_index_shift(a, b, c, from + 1);
        }
    }
}

proof fn lemma_lines_shift(a: Seq<char>, b: Seq<char>, from: int)
    requires
        0 <= from <= b.len(),
    ensures
        lines_from(a + b, a.len() + from) == lines_from(b, from),
    decreases b.len() - from,
{
    if from < b.len() {
        let n = a.len() as int;
        let to = index_from(b, '\n', from);
        lemma_index_from(b, '\n', from);
        lemma_index_shift(a, b, '\n', from);
        assert(line_between(a + b, n + from, n + to) =~= line_between(b, from, to));
        if to < b.len() {
            lemma_lines_shift(a, b, to + 1);
        }
    }
}

proof fn lemma_ends_shift(a: Seq<char>, b: Seq<char>, from: int)
    requires
        0 <= from <= b.len(),
    ensures
        white_end(a + b, a.len() + from) == a.len() + white_end(b, from),
        word_end(a + b, a.len() + from) == a.len() + word_end(b, from),
    decreases b.len() - from,
{
    if from < b.len() {
        assert((a + b)[a.len() + from] == b[from]);
        lemma_ends_shift(a, b, from + 1);
    }
}

proof fn lemma_words_shift(a: Seq<char>, b: Seq<char>, from: int)
    requires
        0 <= from <= b.len(),
    ensures
        words_from(a + b, a.len() + from) == words_from(b, from),
    decreases b.len() - from,
{
    let n = a.len() as int;
    let begin = white_end(b, from);
    lemma_white_end(b, from);
    lemma_ends_shift(a, b, from);
    if begin < b.len() {
        let end = word_end(b, begin);
        lemma_word_end(b, begin);
        lemma_ends_shift(a, b, begin);
        assert((a + b).subrange(n + begin, n + end) =~= b.subrange(begin, end));
        lemma_words_shift(a, b, end);
    }
}

proof fn lemma_word_end_stops(s: Seq<char>, from: int)
    requires
        0 <= from <= s.len(),
    ensures
        word_end(s, from) < s.len() ==> white(s[word_end(s, from)]),
    decreases s.len() - from,
{
    if from < s.len() && !white(s[from]) {
        lemma_word_end_stops(s, from + 1);
    }
}

/// A text stands at a position where the characters from there on are its own.
pub proof fn law_texts_are_found_in_place(before: Seq<char>, prefix: Seq<char>, after: Seq<char>)
    ensures
        has_at(before + prefix + after, before.len() as int, prefix),
        forall|s: Seq<char>, at: int|
            0 <= at && #[trigger] has_at(s, at, prefix) ==> at + prefix.len() <= s.len()
                && s.subrange(at, at + prefix.len()) == prefix,
{
    let s = before + prefix + after;
    assert(s.subrange(before.len() as int, (before.len() + prefix.len()) as int) =~= prefix);
}

/// Searching finds the first occurrence.
pub proof fn law_searching_finds_the_first(before: Seq<char>, c: char, after: Seq<char>)
    requires
        !before.contains(c),
    ensures
        index_from(before + seq![c] + after, c, 0) == before.len(),
        index_from(before, c, 0) == before.len(),
{
    let s = before + seq![c] + after;
    assert(forall|j: int| 0 <= j < before.len() ==> before[j] != c);
    lemma_index_is(s, c, 0, before.len() as int);
    lemma_index_is(before, c, 0, before.len() as int);
}

} // verus!
