//! Text as the line protocols use it: decimal numbers, words and joined lists.
use vstd::prelude::*;

verus! {

/// The decimal digit `d` as a character.
pub open spec fn digit_char(d: nat) -> char {
    (d + 48) as char
}

/// The decimal notation of `n`, without leading zeros.
pub open spec fn dec(n: nat) -> Seq<char>
    decreases n,
{
    if n < 10 {
        seq![digit_char(n)]
    } else {
        dec(n / 10).push(digit_char(n % 10))
    }
}

pub open spec fn is_digit(c: char) -> bool {
    '0' <= c <= '9'
}

/// The number that a run of decimal digits denotes.
pub open spec fn digits_value(s: Seq<char>) -> nat
    decreases s.len(),
{
    if s.len() == 0 {
        0
    } else {
        (digits_value(s.drop_last()) * 10 + (s.last() as nat - 48)) as nat
    }
}

pub open spec fn all_digits(s: Seq<char>) -> bool {
    forall|i: int| 0 <= i < s.len() ==> is_digit(#[trigger] s[i])
}

/// The digits of a number's text: an unsigned number may start with a plus sign.
pub open spec fn unsigned_digits(s: Seq<char>) -> Seq<char> {
    if s.len() > 0 && s[0] == '+' {
        s.skip(1)
    } else {
        s
    }
}

/// The number that `s` denotes, if `s` is an unsigned number not above `max`.
pub open spec fn parsed(s: Seq<char>, max: nat) -> Option<nat> {
    let digits = unsigned_digits(s);
    if digits.len() > 0 && all_digits(digits) && digits_value(digits) <= max {
        Some(digits_value(digits))
    } else {
        None
    }
}

/// Appends the decimal digit `d` to `out`.
fn append_digit(out: &mut String, d: u128)
    requires
        d < 10,
    ensures
        final(out)@ == old(out)@.push(digit_char(d as nat)),
{
    let digits = "0123456789";
    proof {
        reveal_strlit("0123456789");
    }
    let i: usize = d as usize;
    let ghost before = out@;
    out.append(digits.substring_char(i, i + 1));
    assert(out@ =~= before.push(digit_char(d as nat)));
}

/// Appends the decimal notation of `n` to `out`.
pub fn append_decimal(out: &mut String, n: u128)
    ensures
        final(out)@ == old(out)@ + dec(n as nat),
    decreases n,
{
    let ghost before = out@;
    if n >= 10 {
        append_decimal(out, n / 10);
    }
    append_digit(out, n % 10);
    assert(out@ =~= before + dec(n as nat));
}

/// The characters of `s`, one by one.
pub fn chars_of(s: &str) -> (chars: Vec<char>)
    ensures
        chars@ == s@,
{
    let mut chars: Vec<char> = Vec::new();
    for c in it: s.chars()
        invariant
            it.seq() == s@,
            chars@ == s@.take(it.index()),
    {
        chars.push(c);
        assert(s@.take(it.index() + 1) =~= s@.take(it.index()).push(c));
    }
    assert(s@.take(s@.len() as int) =~= s@);
    chars
}

/// Whether a character separates words: the characters with the Unicode property `White_Space`.
pub open spec fn is_white(c: char) -> bool {
    ||| '\u{9}' <= c <= '\u{d}'
    ||| c == ' '
    ||| c == '\u{85}'
    ||| c == '\u{a0}'
    ||| c == '\u{1680}'
    ||| '\u{2000}' <= c <= '\u{200a}'
    ||| c == '\u{2028}'
    ||| c == '\u{2029}'
    ||| c == '\u{202f}'
    ||| c == '\u{205f}'
    ||| c == '\u{3000}'
}

/// Whether a character separates words.
pub fn separates(c: char) -> (result: bool)
    ensures
        result == is_white(c),
{
    ('\u{9}' <= c && c <= '\u{d}') || c == ' ' || c == '\u{85}' || c == '\u{a0}' || c == '\u{1680}' || (
    '\u{2000}' <= c && c <= '\u{200a}') || c == '\u{2028}' || c == '\u{2029}' || c == '\u{202f}' || c
        == '\u{205f}' || c == '\u{3000}'
}

/// The length of the word at the start of `s`.
pub open spec fn word_len(s: Seq<char>) -> nat
    decreases s.len(),
{
    if s.len() == 0 || is_white(s[0]) {
        0
    } else {
        1 + word_len(s.skip(1))
    }
}

/// A word lies within the text that it begins, and has no white space in it.
pub proof fn lemma_word_len(s: Seq<char>)
    ensures
        word_len(s) <= s.len(),
        forall|i: int| 0 <= i < word_len(s) ==> !is_white(#[trigger] s[i]),
    decreases s.len(),
{
    if s.len() > 0 && !is_white(s[0]) {
        let rest = s.skip(1);
        lemma_word_len(rest);
        assert forall|i: int| 0 <= i < word_len(s) implies !is_white(#[trigger] s[i]) by {
            if i > 0 {
                assert(s[i] == rest[i - 1]);
            }
        }
    }
}

/// The words of `s`: its longest runs without white space, in their order.
pub open spec fn words(s: Seq<char>) -> Seq<Seq<char>>
    decreases s.len(),
    via words_decreases
{
    if s.len() == 0 {
        seq![]
    } else if is_white(s[0]) {
        words(s.skip(1))
    } else {
        seq![s.take(word_len(s) as int)] + words(s.skip(word_len(s) as int))
    }
}

#[via_fn]
proof fn words_decreases(s: Seq<char>) {
    if s.len() > 0 && !is_white(s[0]) {
        lemma_word_len(s);
        assert(word_len(s) >= 1);
    }
}

/// The contents of a list of strings.
pub open spec fn texts(v: Seq<String>) -> Seq<Seq<char>> {
    Seq::new(v.len(), |i: int| v[i]@)
}

/// The words of `line`.
pub fn split_words(line: &str) -> (result: Vec<String>)
    ensures
        texts(result@) == words(line@),
{
    let chars = chars_of(line);
    let n: usize = chars.len();
    let ghost s = line@;
    let mut result: Vec<String> = Vec::new();
    let mut i: usize = 0;
    assert(s.skip(0) =~= s);
    assert(texts(result@) + words(s) =~= words(s));
    while i < n
        invariant
            i <= n,
            n == chars@.len(),
            chars@ == s,
            s == line@,
            texts(result@) + words(s.skip(i as int)) == words(s),
        decreases n - i,
    {
        let ghost tail = s.skip(i as int);
        assert(tail[0] == s[i as int]);
        if separates(chars[i]) {
            assert(tail.skip(1) =~= s.skip(i + 1));
            i = i + 1;
        } else {
            let start: usize = i;
            let ghost before = result@;
            assert(s.skip(i as int) =~= tail);
            while i < n && !separates(chars[i])
                invariant
                    start <= i <= n,
                    n == chars@.len(),
                    chars@ == s,
                    word_len(s.skip(start as int)) == (i - start) + word_len(s.skip(i as int)),
                decreases n - i,
            {
                assert(s.skip(i as int)[0] == s[i as int]);
                assert(s.skip(i as int).skip(1) =~= s.skip(i + 1));
                i = i + 1;
            }
            proof {
                if i < n {
                    assert(s.skip(i as int)[0] == s[i as int]);
                }
                assert(word_len(s.skip(i as int)) == 0);
                assert(word_len(tail) == i - start);
                assert(!is_white(s[start as int]));
                assert(i > start);
            }
            result.push(line.substring_char(start, i).to_owned());
            proof {
                assert(s.subrange(start as int, i as int) =~= tail.take(i - start));
                assert(tail.skip(i - start) =~= s.skip(i as int));
                assert(texts(result@) =~= texts(before).push(tail.take(i - start)));
                assert(texts(result@) + words(s.skip(i as int)) =~= texts(before) + words(tail));
            }
        }
    }
    assert(s.skip(n as int) =~= seq![]);
    assert(texts(result@) + words(s.skip(n as int)) =~= texts(result@));
    result
}

/// Whether two texts are the same.
pub fn same(a: &str, b: &str) -> (result: bool)
    ensures
        result == (a@ == b@),
{
    a.to_owned() == b.to_owned()
}

proof fn lemma_digits_prefix(s: Seq<char>, i: int)
    requires
        all_digits(s),
        0 <= i <= s.len(),
    ensures
        digits_value(s.take(i)) <= digits_value(s),
    decreases s.len(),
{
    if i < s.len() {
        let rest = s.drop_last();
        assert forall|j: int| 0 <= j < rest.len() implies is_digit(#[trigger] rest[j]) by {
            assert(is_digit(s[j]));
        }
        lemma_digits_prefix(rest, i);
        assert(rest.take(i) =~= s.take(i));
        assert(is_digit(s[s.len() - 1]));
    } else {
        assert(s.take(i) =~= s);
    }
}

/// The unsigned number that `s` denotes, where it is one and not above `max`.
pub fn parse_unsigned(s: &str, max: u64) -> (result: Option<u64>)
    ensures
        match result {
            Some(n) => parsed(s@, max as nat) == Some(n as nat),
            None => parsed(s@, max as nat) is None,
        },
{
    let chars = chars_of(s);
    let n: usize = chars.len();
    let start: usize = if n > 0 && chars[0] == '+' { 1 } else { 0 };
    let ghost digits = unsigned_digits(s@);
    assert(digits =~= s@.skip(start as int));
    if start == n {
        return None;
    }
    let mut value: u64 = 0;
    let mut i: usize = start;
    assert(digits.take(0) =~= seq![]);
    while i < n
        invariant
            start <= i <= n,
            start < n,
            n == chars@.len(),
            chars@ == s@,
            digits == unsigned_digits(s@),
            digits == s@.skip(start as int),
            forall|j: int| 0 <= j < i - start ==> is_digit(#[trigger] digits[j]),
            value == digits_value(digits.take(i - start)),
            value <= max,
        decreases n - i,
    {
        let c: char = chars[i];
        assert(digits[i - start] == c);
        if c < '0' || c > '9' {
            assert(!is_digit(digits[i - start]));
            return None;
        }
        let next: u128 = value as u128 * 10 + (c as u32 - 48) as u128;
        proof {
            let longer = digits.take(i - start + 1);
            assert(longer.drop_last() =~= digits.take(i - start));
            assert(digits_value(longer) == next);
            if next > max && all_digits(digits) {
                lemma_digits_prefix(digits, i - start + 1);
            }
        }
        if next > max as u128 {
            return None;
        }
        value = next as u64;
        i = i + 1;
    }
    assert(digits.take(n - start) =~= digits);
    Some(value)
}

/// Decimal notation reads back as the number.
pub proof fn law_decimal_reads_back(n: nat, max: nat)
    requires
        n <= max,
    ensures
        parsed(dec(n), max) == Some(n),
{
    lemma_dec(n);
    assert(is_digit(dec(n)[0]));
}

/// Decimal notation is a run of digits with the value of the number.
pub proof fn lemma_dec(n: nat)
    ensures
        dec(n).len() > 0,
        all_digits(dec(n)),
        digits_value(dec(n)) == n,
    decreases n,
{
    if n >= 10 {
        lemma_dec(n / 10);
        assert(dec(n).drop_last() =~= dec(n / 10));
        assert forall|i: int| 0 <= i < dec(n).len() implies is_digit(#[trigger] dec(n)[i]) by {
            if i < dec(n / 10).len() {
                assert(is_digit(dec(n / 10)[i]));
            }
        }
    } else {
        assert(dec(n).drop_last() =~= seq![]);
        assert(digits_value(dec(n).drop_last()) == 0);
    }
}

/// `parts` in their order, with `separator` between them.
pub open spec fn joined(parts: Seq<Seq<char>>, separator: Seq<char>) -> Seq<char>
    decreases parts.len(),
{
    if parts.len() == 0 {
        seq![]
    } else if parts.len() == 1 {
        parts[0]
    } else {
        joined(parts.drop_last(), separator) + separator + parts.last()
    }
}

/// Joins `parts` with `separator` between them.
pub fn join(parts: &Vec<String>, separator: &str) -> (result: String)
    ensures
        result@ == joined(texts(parts@), separator@),
{
    let n: usize = parts.len();
    let ghost all = texts(parts@);
    if n == 0 {
        let nothing = String::new();
        assert(nothing@ =~= joined(all, separator@));
        return nothing;
    }
    let mut result = parts[0].clone();
    let mut i: usize = 1;
    assert(all.take(1).len() == 1);
    while i < n
        invariant
            1 <= i <= n,
            n == parts@.len(),
            all == texts(parts@),
            result@ == joined(all.take(i as int), separator@),
        decreases n - i,
    {
        proof {
            assert(all.take(i + 1).drop_last() =~= all.take(i as int));
            assert(all.take(i + 1).last() == parts@[i as int]@);
        }
        result.append(separator);
        result.append(parts[i].as_str());
        i = i + 1;
    }
    assert(all.take(n as int) =~= all);
    result
}

/// The decimal notation of `n`, filled up with leading zeros to `width` digits.
pub open spec fn padded(n: nat, width: nat) -> Seq<char> {
    let digits = dec(n);
    if digits.len() < width {
        Seq::new((width - digits.len()) as nat, |i: int| '0') + digits
    } else {
        digits
    }
}

/// Appends the decimal notation of `n`, filled up with zeros to `width` digits.
pub fn append_padded(out: &mut String, n: u128, width: usize)
    ensures
        final(out)@ == old(out)@ + padded(n as nat, width as nat),
{
    let mut digits = String::new();
    append_decimal(&mut digits, n);
    assert(digits@ =~= dec(n as nat));
    let ghost start = out@;
    let mut len: usize = digits.as_str().unicode_len();
    let ghost first = len;
    assert(start + Seq::new(0, |i: int| '0') =~= start);
    while len < width
        invariant
            first <= len,
            len <= width || len == first,
            out@ == start + Seq::new((len - first) as nat, |i: int| '0'),
        decreases width - len,
    {
        proof {
            reveal_strlit("0");
        }
        let ghost before = out@;
        out.append("0");
        len = len + 1;
        assert(out@ =~= start + Seq::new((len - first) as nat, |i: int| '0'));
    }
    let ghost zeros = Seq::new((len - first) as nat, |i: int| '0');
    out.append(digits.as_str());
    assert(out@ =~= start + padded(n as nat, width as nat));
}

/// The place of the first `c` in `s`, or the length of `s` where there is none.
pub open spec fn upto(s: Seq<char>, c: char) -> nat
    decreases s.len(),
{
    if s.len() == 0 || s[0] == c {
        0
    } else {
        1 + upto(s.skip(1), c)
    }
}

pub proof fn lemma_upto(s: Seq<char>, c: char)
    ensures
        upto(s, c) <= s.len(),
        upto(s, c) < s.len() ==> s[upto(s, c) as int] == c,
        forall|i: int| 0 <= i < upto(s, c) ==> #[trigger] s[i] != c,
    decreases s.len(),
{
    if s.len() > 0 && s[0] != c {
        lemma_upto(s.skip(1), c);
        assert forall|i: int| 0 <= i < upto(s, c) implies #[trigger] s[i] != c by {
            if i > 0 {
                assert(s.skip(1)[i - 1] == s[i]);
            }
        }
    }
}

/// The first `c` is behind a part that has none, where a `c` follows.
pub proof fn lemma_upto_concat(a: Seq<char>, b: Seq<char>, c: char)
    requires
        forall|i: int| 0 <= i < a.len() ==> #[trigger] a[i] != c,
        b.len() > 0,
        b[0] == c,
    ensures
        upto(a + b, c) == a.len(),
    decreases a.len(),
{
    if a.len() == 0 {
        assert(a + b =~= b);
    } else {
        assert((a + b).skip(1) =~= a.skip(1) + b);
        assert forall|i: int| 0 <= i < a.skip(1).len() implies #[trigger] a.skip(1)[i] != c by {
            assert(a[i + 1] != c);
        }
        lemma_upto_concat(a.skip(1), b, c);
        assert((a + b)[0] == a[0]);
    }
}

/// The place of the first `c` from `start` on.
pub fn find(chars: &Vec<char>, start: usize, c: char) -> (result: usize)
    requires
        start <= chars@.len(),
    ensures
        result == start + upto(chars@.skip(start as int), c),
        start <= result <= chars@.len(),
{
    let n: usize = chars.len();
    let mut i: usize = start;
    while i < n && chars[i] != c
        invariant
            start <= i <= n,
            n == chars@.len(),
            upto(chars@.skip(start as int), c) == (i - start) + upto(chars@.skip(i as int), c),
        decreases n - i,
    {
        assert(chars@.skip(i as int)[0] == chars@[i as int]);
        assert(chars@.skip(i as int).skip(1) =~= chars@.skip(i + 1));
        i = i + 1;
    }
    proof {
        if i < n {
            assert(chars@.skip(i as int)[0] == chars@[i as int]);
        }
    }
    i
}

/// A line without the carriage return at its end, if it has one.
pub open spec fn chomped(line: Seq<char>) -> Seq<char> {
    if line.len() > 0 && line.last() == '\r' {
        line.drop_last()
    } else {
        line
    }
}

/// The lines of a text. A line ends with a line feed, or with a carriage return and a line feed;
/// the last one may also end with the text.
pub open spec fn lines(s: Seq<char>) -> Seq<Seq<char>>
    decreases s.len(),
    via lines_decreases
{
    if s.len() == 0 {
        seq![]
    } else if upto(s, '\n') == s.len() {
        seq![s]
    } else {
        let end = upto(s, '\n') as int;
        seq![chomped(s.take(end))] + lines(s.skip(end + 1))
    }
}

#[via_fn]
proof fn lines_decreases(s: Seq<char>) {
    lemma_upto(s, '\n');
}

/// The lines of a text.
pub fn split_lines(source: &str) -> (result: Vec<String>)
    ensures
        texts(result@) == lines(source@),
{
    let chars = chars_of(source);
    let n: usize = chars.len();
    let ghost s = source@;
    let mut result: Vec<String> = Vec::new();
    let mut i: usize = 0;
    assert(s.skip(0) =~= s);
    assert(texts(result@) + lines(s) =~= lines(s));
    while i < n
        invariant
            i <= n,
            n == chars@.len(),
            chars@ == s,
            s == source@,
            texts(result@) + lines(s.skip(i as int)) == lines(s),
        decreases n - i,
    {
        let ghost tail = s.skip(i as int);
        let ghost before = result@;
        let end: usize = find(&chars, i, '\n');
        if end == n {
            result.push(source.substring_char(i, n).to_owned());
            assert(s.subrange(i as int, n as int) =~= tail);
            assert(texts(result@) =~= texts(before) + seq![tail]);
            assert(s.skip(n as int) =~= seq![]);
            assert(texts(result@) + lines(s.skip(n as int)) =~= texts(result@));
            i = n;
        } else {
            let ghost line = tail.take(end - i);
            assert(line =~= s.subrange(i as int, end as int));
            let stop: usize = if end > i && chars[end - 1] == '\r' { end - 1 } else { end };
            assert(s.subrange(i as int, stop as int) =~= chomped(line));
            result.push(source.substring_char(i, stop).to_owned());
            assert(tail.skip(end - i + 1) =~= s.skip(end + 1));
            assert(texts(result@) =~= texts(before).push(chomped(line)));
            assert(texts(result@) + lines(s.skip(end + 1)) =~= texts(before) + lines(tail));
            i = end + 1;
        }
    }
    assert(s.skip(n as int) =~= seq![]);
    assert(texts(result@) + lines(s.skip(n as int)) =~= texts(result@));
    result
}

/// A text without line breaks.
pub open spec fn unbroken(s: Seq<char>) -> bool {
    forall|i: int| 0 <= i < s.len() ==> #[trigger] s[i] != '\n' && s[i] != '\r'
}

pub proof fn lemma_unbroken_concat(a: Seq<char>, b: Seq<char>)
    requires
        unbroken(a),
        unbroken(b),
    ensures
        unbroken(a + b),
{
    assert forall|i: int| 0 <= i < (a + b).len() implies #[trigger] (a + b)[i] != '\n' && (a + b)[i]
        != '\r' by {
        if i < a.len() {
            assert((a + b)[i] == a[i]);
        } else {
            assert((a + b)[i] == b[i - a.len()]);
        }
    }
}

pub proof fn lemma_unbroken_dec(n: nat)
    ensures
        unbroken(dec(n)),
{
    lemma_dec(n);
    assert forall|i: int| 0 <= i < dec(n).len() implies #[trigger] dec(n)[i] != '\n' && dec(n)[i]
        != '\r' by {
        assert(is_digit(dec(n)[i]));
    }
}

/// Each of `parts` as a line of its own.
pub open spec fn as_lines(parts: Seq<Seq<char>>) -> Seq<char>
    decreases parts.len(),
{
    if parts.len() == 0 {
        seq![]
    } else {
        parts[0].push('\n') + as_lines(parts.skip(1))
    }
}

/// Texts without line breaks that were written as lines are read back as they were.
pub proof fn law_lines_read_back(parts: Seq<Seq<char>>)
    requires
        forall|i: int| 0 <= i < parts.len() ==> unbroken(#[trigger] parts[i]),
    ensures
        lines(as_lines(parts)) == parts,
    decreases parts.len(),
{
    if parts.len() > 0 {
        let first = parts[0];
        let rest = parts.skip(1);
        assert(unbroken(first));
        assert forall|i: int| 0 <= i < rest.len() implies unbroken(#[trigger] rest[i]) by {
            assert(unbroken(parts[i + 1]));
        }
        law_lines_read_back(rest);
        let all = as_lines(parts);
        let tail = seq!['\n'] + as_lines(rest);
        assert(all =~= first + tail);
        lemma_upto_concat(first, tail, '\n');
        assert(all.take(first.len() as int) =~= first);
        assert(all.skip(first.len() as int + 1) =~= as_lines(rest));
        assert(chomped(first) == first) by {
            if first.len() > 0 {
                assert(first[first.len() - 1] != '\r');
            }
        }
        assert(lines(all) =~= seq![first] + rest);
        assert(seq![first] + rest =~= parts);
    }
}

/// The lines of a text that ends with a whole line, and then those of what follows.
pub proof fn lemma_lines_concat(a: Seq<char>, b: Seq<char>)
    requires
        a.len() > 0 ==> a.last() == '\n',
    ensures
        lines(a + b) == lines(a) + lines(b),
    decreases a.len(),
{
    if a.len() == 0 {
        assert(a + b =~= b);
        assert(lines(a) + lines(b) =~= lines(b));
    } else {
        let end = upto(a, '\n') as int;
        lemma_upto(a, '\n');
        if end == a.len() {
            assert(a[a.len() - 1] != '\n');
        }
        let rest = a.skip(end + 1);
        if rest.len() > 0 {
            assert(rest.last() == a.last());
        }
        lemma_lines_concat(rest, b);
        let all = a + b;
        assert(all =~= a.take(end) + (a.skip(end) + b));
        assert((a.skip(end) + b)[0] == a[end]);
        lemma_upto_concat(a.take(end), a.skip(end) + b, '\n');
        assert(all.take(end) =~= a.take(end));
        assert(all.skip(end + 1) =~= rest + b);
        assert(lines(all) =~= lines(a) + lines(b));
    }
}

/// Decimal notation writes the digits of a number from the highest to the lowest: a number of one
/// digit is that digit, and ten times a number and a digit is the number with the digit behind it.
pub proof fn law_decimal_is_written_digit_by_digit(n: nat, d: nat)
    requires
        d < 10,
    ensures
        dec(d) == seq![(48 + d) as char],
        n > 0 ==> dec(10 * n + d) == dec(n).push((48 + d) as char),
{
    assert((10 * n + d) / 10 == n && (10 * n + d) % 10 == d);
}

/// A number is read digit by digit: a text of one more character is a number if and only if the
/// text before it is one, or empty, or a lone plus sign, the character is a digit, and ten times the
/// number and the digit is not too large. A plus sign in front of a number changes nothing.
pub proof fn law_number_is_read_digit_by_digit(s: Seq<char>, c: char, max: nat)
    ensures
        parsed(seq![], max) is None,
        parsed(seq!['+'], max) is None,
        s.len() > 0 && s != seq!['+'] ==> parsed(s.push(c), max) == (if parsed(s, max) is Some && '0' <= c <= '9'
            && 10 * parsed(s, max)->0 + (c as nat - 48) <= max {
            Some((10 * parsed(s, max)->0 + (c as nat - 48)) as nat)
        } else {
            None
        }),
        s.len() == 0 && c != '+' ==> parsed(seq![c], max) == (if '0' <= c <= '9' && c as nat - 48 <= max {
            Some((c as nat - 48) as nat)
        } else {
            None
        }),
        s.len() > 0 && s[0] != '+' ==> parsed(seq!['+'] + s, max) == parsed(s, max),
{
    let empty = Seq::<char>::empty();
    assert(seq!['+'].skip(1) =~= empty);
    assert(digits_value(empty) == 0);
    if s.len() == 0 && c != '+' {
        let one = seq![c];
        assert(one.drop_last() =~= empty);
        assert(digits_value(one) == (c as nat - 48) as nat || !is_digit(c));
        if all_digits(one) {
            assert(is_digit(one[0]));
        }
    }
    if s.len() > 0 && s[0] != '+' {
        assert((seq!['+'] + s).skip(1) =~= s);
    }
    if s.len() > 0 && s != seq!['+'] {
        let longer = s.push(c);
        let digits = unsigned_digits(s);
        let more = unsigned_digits(longer);
        if s[0] == '+' {
            if s.len() == 1 {
                assert(s =~= seq!['+']);
            }
            assert(longer.skip(1) =~= s.skip(1).push(c));
        }
        assert(more =~= digits.push(c));
        assert(digits.len() > 0);
        assert(more.drop_last() =~= digits);
        if all_digits(more) {
            assert(is_digit(more[more.len() - 1]));
            assert forall|j: int| 0 <= j < digits.len() implies is_digit(#[trigger] digits[j]) by {
                assert(is_digit(more[j]));
            }
        }
        if all_digits(digits) && is_digit(c) {
            assert forall|j: int| 0 <= j < more.len() implies is_digit(#[trigger] more[j]) by {
                if j < digits.len() {
                    assert(is_digit(digits[j]));
                }
            }
            assert(digits_value(more) == 10 * digits_value(digits) + (c as nat - 48));
        }
    }
}

/// The characters that separate words, by their code points.
pub proof fn law_white_space_by_code_points(c: char)
    ensures
        is_white(c) <==> {
            let n = c as nat;
            ||| 9 <= n <= 13
            ||| n == 32
            ||| n == 0x85
            ||| n == 0xa0
            ||| n == 0x1680
            ||| 0x2000 <= n <= 0x200a
            ||| n == 0x2028
            ||| n == 0x2029
            ||| n == 0x202f
            ||| n == 0x205f
            ||| n == 0x3000
        },
{
}

/// White space separates words and is no part of any: what stands before it and behind it has the
/// words that it has alone.
pub proof fn law_white_space_only_separates(a: Seq<char>, c: char, b: Seq<char>)
    requires
        is_white(c),
    ensures
        words(a + seq![c] + b) == words(a) + words(b),
    decreases a.len(),
{
    let all = a + seq![c] + b;
    if a.len() == 0 {
        assert(all[0] == c);
        assert(all.skip(1) =~= b);
        assert(words(a) + words(b) =~= words(b));
    } else {
        assert(all[0] == a[0]);
        if is_white(a[0]) {
            assert(all.skip(1) =~= a.skip(1) + seq![c] + b);
            law_white_space_only_separates(a.skip(1), c, b);
        } else {
            lemma_word_len(a);
            lemma_word_stops(a, seq![c] + b);
            let n = word_len(a) as int;
            assert(all =~= a + (seq![c] + b));
            assert(n >= 1);
            assert(all.take(n) =~= a.take(n));
            assert(all.skip(n) =~= a.skip(n) + seq![c] + b);
            law_white_space_only_separates(a.skip(n), c, b);
            assert(words(all) =~= words(a) + words(b));
        }
    }
}

proof fn lemma_word_stops(a: Seq<char>, rest: Seq<char>)
    requires
        rest.len() > 0,
        is_white(rest[0]),
    ensures
        word_len(a + rest) == word_len(a),
    decreases a.len(),
{
    let all = a + rest;
    if a.len() == 0 {
        assert(all =~= rest);
    } else {
        assert(all[0] == a[0]);
        if !is_white(a[0]) {
            assert(all.skip(1) =~= a.skip(1) + rest);
            lemma_word_stops(a.skip(1), rest);
        }
    }
}

/// A text ends a line with a line feed, or with a carriage return and a line feed; what is left at
/// the end is a line too.
pub proof fn law_lines_end_with_line_feeds(line: Seq<char>, rest: Seq<char>)
    requires
        unbroken(line),
    ensures
        lines(seq![]) == Seq::<Seq<char>>::empty(),
        line.len() > 0 ==> lines(line) == seq![line],
        lines(line + seq!['\n'] + rest) == seq![line] + lines(rest),
        lines(line + seq!['\r', '\n'] + rest) == seq![line] + lines(rest),
{
    lemma_upto(line, '\n');
    if upto(line, '\n') < line.len() {
        assert(line[upto(line, '\n') as int] != '\n');
    }
    let plain = line + seq!['\n'] + rest;
    assert(plain =~= line + (seq!['\n'] + rest));
    lemma_upto_concat(line, seq!['\n'] + rest, '\n');
    assert(plain.take(line.len() as int) =~= line);
    assert(plain.skip(line.len() as int + 1) =~= rest);
    assert(chomped(line) == line) by {
        if line.len() > 0 {
            assert(line[line.len() - 1] != '\r');
        }
    }
    let marked = line.push('\r');
    let both = line + seq!['\r', '\n'] + rest;
    assert(both =~= marked + (seq!['\n'] + rest));
    lemma_upto_concat(marked, seq!['\n'] + rest, '\n');
    assert(both.take(marked.len() as int) =~= marked);
    assert(both.skip(marked.len() as int + 1) =~= rest);
    assert(marked.drop_last() =~= line);
}

/// A joined list is its parts in turn, with the separator between each two of them.
pub proof fn law_parts_are_joined_in_turn(parts: Seq<Seq<char>>, part: Seq<char>, separator: Seq<char>)
    ensures
        joined(seq![], separator) == Seq::<char>::empty(),
        joined(seq![part], separator) == part,
        parts.len() > 0 ==> joined(parts.push(part), separator) == joined(parts, separator) + separator + part,
{
    assert(parts.push(part).drop_last() =~= parts);
}

/// A padded number has at least the width, is a run of digits, and has the value of the number.
pub proof fn law_padding_keeps_the_number(n: nat, width: nat)
    ensures
        padded(n, width).len() == (if dec(n).len() < width {
            width
        } else {
            dec(n).len()
        }),
        all_digits(padded(n, width)),
        digits_value(padded(n, width)) == n,
{
    lemma_dec(n);
    if dec(n).len() < width {
        lemma_leading_zeros((width - dec(n).len()) as nat, dec(n));
    }
}

proof fn lemma_leading_zeros(count: nat, digits: Seq<char>)
    ensures
        digits_value(Seq::new(count, |i: int| '0') + digits) == digits_value(digits),
    decreases digits.len() + count,
{
    let zeros = Seq::new(count, |i: int| '0');
    let all = zeros + digits;
    if digits.len() > 0 {
        lemma_leading_zeros(count, digits.drop_last());
        assert(all.drop_last() =~= zeros + digits.drop_last());
    } else if count > 0 {
        lemma_leading_zeros((count - 1) as nat, digits);
        assert(all.drop_last() =~= Seq::new((count - 1) as nat, |i: int| '0') + digits);
    } else {
        assert(all =~= digits);
    }
}

} // verus!
