//! Plain text: decimal numbers, white space, lines and the pieces of a line.
use vstd::prelude::*;
use vstd::string::*;

verus! {

/// The decimal digit for `d`.
pub open spec fn digit(d: nat) -> char
    recommends
        d < 10,
{
    if d == 0 { '0' } else if d == 1 { '1' } else if d == 2 { '2' } else if d == 3 { '3' }
    else if d == 4 { '4' } else if d == 5 { '5' } else if d == 6 { '6' } else if d == 7 { '7' }
    else if d == 8 { '8' } else { '9' }
}

/// `n` written in decimal, without leading zeros.
pub open spec fn decimal_text(n: nat) -> Seq<char>
    decreases n,
{
    if n < 10 {
        seq![digit(n)]
    } else {
        decimal_text(n / 10).push(digit(n % 10))
    }
}

fn digit_str(d: u64) -> (r: &'static str)
    requires
        d < 10,
    ensures
        r@ == seq![digit(d as nat)],
{
    proof {
        reveal_strlit("0");
        reveal_strlit("1");
        reveal_strlit("2");
        reveal_strlit("3");
        reveal_strlit("4");
        reveal_strlit("5");
        reveal_strlit("6");
        reveal_strlit("7");
        reveal_strlit("8");
        reveal_strlit("9");
    }
    match d {
        0 => "0",
        1 => "1",
        2 => "2",
        3 => "3",
        4 => "4",
        5 => "5",
        6 => "6",
        7 => "7",
        8 => "8",
        _ => "9",
    }
}

/// Writes a number in decimal.
pub fn decimal(n: u64) -> (r: String)
    ensures
        r@ == decimal_text(n as nat),
    decreases n,
{
    if n < 10 {
        digit_str(n).to_owned()
    } else {
        let mut s = decimal(n / 10);
        s.append(digit_str(n % 10));
        s
    }
}

/// The characters of a string, as a vector.
pub fn chars_of(s: &str) -> (r: Vec<char>)
    ensures
        r@ == s@,
{
    let mut v: Vec<char> = Vec::new();
    for c in it: s.chars()
        invariant
            it.seq() == s@,
            v@ == s@.take(it.index() as int),
    {
        v.push(c);
    }
    v
}

/// The view of a text that may be missing.
pub open spec fn opt_str(s: Option<&str>) -> Option<Seq<char>> {
    match s {
        Some(t) => Some(t@),
        None => None,
    }
}

/// Whether two strings hold the same text.
pub fn same_text(a: &str, b: &str) -> (r: bool)
    ensures
        r == (a@ == b@),
{
    a.to_owned() == b.to_owned()
}

/// Whether `s` begins with `p`.
pub open spec fn begins_with(s: Seq<char>, p: Seq<char>) -> bool {
    p.len() <= s.len() && s.take(p.len() as int) == p
}

/// Whether `s` begins with `p`.
pub fn starts_with(s: &str, p: &str) -> (r: bool)
    ensures
        r == begins_with(s@, p@),
{
    let n: usize = p.unicode_len();
    if s.unicode_len() < n {
        return false;
    }
    same_text(s.substring_char(0, n), p)
}

/// Whether `s` begins with the character `c`.
pub open spec fn begins_with_char(s: Seq<char>, c: char) -> bool {
    s.len() > 0 && s[0] == c
}

/// Whether `s` begins with the character `c`.
pub fn starts_with_char(s: &str, c: char) -> (r: bool)
    ensures
        r == begins_with_char(s@, c),
{
    !s.is_empty() && s.get_char(0) == c
}

/// The characters with the Unicode property `White_Space`.
pub open spec fn is_space(c: char) -> bool {
    ||| '\u{9}' <= c <= '\u{d}'
    ||| c == ' '
    ||| c == '\u{85}'
    ||| c == '\u{a0}'
    ||| c == '\u{1680}'
    ||| '\u{2000}' <= c <= '\u{200a}'
    ||| c == '\u{2028}'
    ||| c == '\u{2029}'
    ||| c == '\u{202f}'
    ||| c == '\u{205f}'
    ||| c == '\u{3000}'
}

/// Whether a character has the Unicode property `White_Space`.
pub fn is_white_space(c: char) -> (r: bool)
    ensures
        r == is_space(c),
{
    ('\u{9}' <= c && c <= '\u{d}') || c == ' ' || c == '\u{85}' || c == '\u{a0}' || c == '\u{1680}'
        || ('\u{2000}' <= c && c <= '\u{200a}') || c == '\u{2028}' || c == '\u{2029}'
        || c == '\u{202f}' || c == '\u{205f}' || c == '\u{3000}'
}

/// `s` without the white space that it begins with.
pub open spec fn trimmed_start(s: Seq<char>) -> Seq<char>
    decreases s.len(),
{
    if s.len() > 0 && is_space(s[0]) {
        trimmed_start(s.drop_first())
    } else {
        s
    }
}

/// `s` without the white space that it ends with.
pub open spec fn trimmed_end(s: Seq<char>) -> Seq<char>
    decreases s.len(),
{
    if s.len() > 0 && is_space(s.last()) {
        trimmed_end(s.drop_last())
    } else {
        s
    }
}

/// `s` without the white space at either end.
pub open spec fn trimmed(s: Seq<char>) -> Seq<char> {
    trimmed_end(trimmed_start(s))
}

/// Removes the white space at either end.
pub fn trim<'a>(s: &'a str) -> (r: &'a str)
    ensures
        r@ == trimmed(s@),
{
    let chars = chars_of(s);
    let n: usize = chars.len();
    let mut lo: usize = 0;
    assert(s@.skip(0) == s@);
    while lo < n && is_white_space(chars[lo])
        invariant
            lo <= n,
            n == s@.len(),
            chars@ == s@,
            trimmed_start(s@.skip(lo as int)) == trimmed_start(s@),
        decreases n - lo,
    {
        assert(s@.skip(lo as int).drop_first() == s@.skip(lo + 1));
        lo = lo + 1;
    }
    let ghost t = trimmed_start(s@);
    assert(t == s@.subrange(lo as int, n as int));
    let mut hi: usize = n;
    while lo < hi && is_white_space(chars[hi - 1])
        invariant
            lo <= hi <= n,
            n == s@.len(),
            chars@ == s@,
            trimmed_end(s@.subrange(lo as int, hi as int)) == trimmed_end(t),
        decreases hi - lo,
    {
        assert(s@.subrange(lo as int, hi as int).drop_last() == s@.subrange(lo as int, hi - 1));
        hi = hi - 1;
    }
    s.substring_char(lo, hi)
}

/// Where `c` first stands in `s`; the length of `s` where it does not.
pub open spec fn first_index(s: Seq<char>, c: char) -> int
    decreases s.len(),
{
    if s.len() == 0 || s[0] == c {
        0
    } else {
        1 + first_index(s.drop_first(), c)
    }
}

pub proof fn lemma_first_index(s: Seq<char>, c: char)
    ensures
        0 <= first_index(s, c) <= s.len(),
        forall|j: int| 0 <= j < first_index(s, c) ==> s[j] != c,
        first_index(s, c) < s.len() ==> s[first_index(s, c)] == c,
    decreases s.len(),
{
    if s.len() > 0 && s[0] != c {
        let rest = s.drop_first();
        lemma_first_index(rest, c);
        assert forall|j: int| 0 <= j < first_index(s, c) implies s[j] != c by {
            if j > 0 {
                assert(rest[j - 1] != c);
            }
        }
    }
}

/// An index that `c` stands at, with no `c` before it, is the first one.
pub proof fn lemma_first_index_is(s: Seq<char>, c: char, i: int)
    requires
        0 <= i <= s.len(),
        forall|j: int| 0 <= j < i ==> s[j] != c,
        i < s.len() ==> s[i] == c,
    ensures
        first_index(s, c) == i,
{
    lemma_first_index(s, c);
    let k = first_index(s, c);
    if k < i {
        assert(s[k] != c);
    }
    if i < k {
        assert(s[i] != c);
    }
}

/// Looks for the first `c` at or after `from`.
fn find_char(chars: &Vec<char>, from: usize, c: char) -> (r: usize)
    requires
        from <= chars@.len(),
    ensures
        from <= r <= chars@.len(),
        r == from + first_index(chars@.skip(from as int), c),
{
    let n: usize = chars.len();
    let mut i: usize = from;
    while i < n && chars[i] != c
        invariant
            from <= i <= n,
            n == chars@.len(),
            forall|j: int| from <= j < i ==> chars@[j] != c,
        decreases n - i,
    {
        i = i + 1;
    }
    proof {
        lemma_first_index_is(chars@.skip(from as int), c, i - from);
    }
    i
}

/// `s` without one carriage return at its end.
pub open spec fn without_cr(s: Seq<char>) -> Seq<char> {
    if s.len() > 0 && s.last() == '\r' {
        s.drop_last()
    } else {
        s
    }
}

/// The lines of a text. A line ends with a line feed, or with a carriage return and a line
/// feed; the end of the last line may be missing.
pub open spec fn lines_of(s: Seq<char>) -> Seq<Seq<char>>
    decreases s.len(),
    via lines_of_shrinks
{
    if s.len() == 0 {
        seq![]
    } else {
        let i = first_index(s, '\n');
        if i >= s.len() {
            seq![s]
        } else {
            seq![without_cr(s.take(i))] + lines_of(s.skip(i + 1))
        }
    }
}

#[via_fn]
proof fn lines_of_shrinks(s: Seq<char>) {
    lemma_first_index(s, '\n');
}

/// The views of a list of strings.
pub open spec fn texts(v: Seq<String>) -> Seq<Seq<char>> {
    v.map_values(|s: String| s@)
}

/// Splits a text into its lines.
pub fn lines(s: &str) -> (r: Vec<String>)
    ensures
        texts(r@) == lines_of(s@),
{
    let chars = chars_of(s);
    let n: usize = chars.len();
    let mut out: Vec<String> = Vec::new();
    let mut pos: usize = 0;
    assert(s@.skip(0) == s@);
    assert(texts(out@) + lines_of(s@) == lines_of(s@));
    while pos < n
        invariant
            pos <= n,
            n == s@.len(),
            chars@ == s@,
            texts(out@) + lines_of(s@.skip(pos as int)) == lines_of(s@),
        decreases n - pos,
    {
        let ghost rest = s@.skip(pos as int);
        let ghost before = out@;
        let i: usize = find_char(&chars, pos, '\n');
        if i >= n {
            let line = s.substring_char(pos, n).to_owned();
            out.push(line);
            proof {
                assert(line@ == rest);
                assert(lines_of(rest) == seq![rest]);
                assert(texts(out@) == texts(before).push(rest));
                assert(texts(before).push(rest) == texts(before) + seq![rest]);
                assert(s@.skip(n as int) == Seq::<char>::empty());
                assert(lines_of(s@.skip(n as int)) == Seq::<Seq<char>>::empty());
                assert(texts(out@) + lines_of(s@.skip(n as int)) == texts(out@));
            }
            pos = n;
        } else {
            let end: usize = if i > pos && chars[i - 1] == '\r' { i - 1 } else { i };
            let line = s.substring_char(pos, end).to_owned();
            out.push(line);
            proof {
                let k = i - pos;
                assert(k == first_index(rest, '\n'));
                assert(rest.take(k) == s@.subrange(pos as int, i as int));
                assert(line@ == without_cr(rest.take(k)));
                assert(rest.skip(k + 1) == s@.skip(i + 1));
                assert(texts(out@) == texts(before).push(line@));
                assert(texts(out@) + lines_of(s@.skip(i + 1)) == texts(before) + (seq![line@]
                    + lines_of(s@.skip(i + 1))));
            }
            pos = i + 1;
        }
    }
    proof {
        assert(s@.skip(n as int) == Seq::<char>::empty());
        assert(texts(out@) + Seq::<Seq<char>>::empty() == texts(out@));
    }
    out
}

/// The pieces of `s` between the occurrences of `c`.
pub open spec fn pieces_of(s: Seq<char>, c: char) -> Seq<Seq<char>>
    decreases s.len(),
    via pieces_of_shrinks
{
    let i = first_index(s, c);
    if i >= s.len() {
        seq![s]
    } else {
        seq![s.take(i)] + pieces_of(s.skip(i + 1), c)
    }
}

#[via_fn]
proof fn pieces_of_shrinks(s: Seq<char>, c: char) {
    lemma_first_index(s, c);
}

/// Splits a text at every `c`.
pub fn split(s: &str, c: char) -> (r: Vec<String>)
    ensures
        texts(r@) == pieces_of(s@, c),
{
    let chars = chars_of(s);
    let n: usize = chars.len();
    let mut out: Vec<String> = Vec::new();
    let mut pos: usize = 0;
    assert(s@.skip(0) == s@);
    assert(texts(out@) + pieces_of(s@, c) == pieces_of(s@, c));
    let mut i: usize = find_char(&chars, pos, c);
    while i < n
        invariant
            pos <= i <= n,
            n == s@.len(),
            chars@ == s@,
            i == pos + first_index(s@.skip(pos as int), c),
            texts(out@) + pieces_of(s@.skip(pos as int), c) == pieces_of(s@, c),
        decreases n - pos,
    {
        let ghost rest = s@.skip(pos as int);
        let ghost before = out@;
        let piece = s.substring_char(pos, i).to_owned();
        out.push(piece);
        proof {
            let k = i - pos;
            assert(rest.take(k) == piece@);
            assert(rest.skip(k + 1) == s@.skip(i + 1));
            assert(texts(out@) == texts(before).push(piece@));
            assert(texts(out@) + pieces_of(s@.skip(i + 1), c) == texts(before) + (seq![piece@]
                + pieces_of(s@.skip(i + 1), c)));
        }
        pos = i + 1;
        i = find_char(&chars, pos, c);
    }
    let ghost before = out@;
    let piece = s.substring_char(pos, n).to_owned();
    out.push(piece);
    proof {
        assert(piece@ == s@.skip(pos as int));
        assert(texts(out@) == texts(before) + seq![piece@]);
    }
    out
}

/// What stands before the first `c` of `s`, if there is one.
pub open spec fn before_char(s: Seq<char>, c: char) -> Option<Seq<char>> {
    if first_index(s, c) < s.len() {
        Some(s.take(first_index(s, c)))
    } else {
        None
    }
}

/// What stands before the first `c`, if there is one.
pub fn before<'a>(s: &'a str, c: char) -> (r: Option<&'a str>)
    ensures
        r is Some == before_char(s@, c) is Some,
        r is Some ==> r->0@ == before_char(s@, c)->0,
{
    let chars = chars_of(s);
    assert(chars@.skip(0) == s@);
    let i: usize = find_char(&chars, 0, c);
    if i < chars.len() {
        Some(s.substring_char(0, i))
    } else {
        None
    }
}

/// The value of a decimal digit.
pub open spec fn digit_value(c: char) -> Option<nat> {
    if '0' <= c <= '9' {
        Some((c as nat - '0' as nat) as nat)
    } else {
        None
    }
}

/// The number that a string of decimal digits stands for; `None` where another character
/// stands in it.
pub open spec fn digits_value(s: Seq<char>) -> Option<nat>
    decreases s.len(),
{
    if s.len() == 0 {
        Some(0)
    } else {
        match (digits_value(s.drop_last()), digit_value(s.last())) {
            (Some(n), Some(d)) => Some(n * 10 + d),
            _ => None,
        }
    }
}

/// The `u64` that `s` writes: one or more decimal digits, with at most one `+` before them.
pub open spec fn parsed_u64(s: Seq<char>) -> Option<u64> {
    let digits = if s.len() > 0 && s[0] == '+' { s.drop_first() } else { s };
    if digits.len() == 0 {
        None
    } else {
        match digits_value(digits) {
            Some(n) => if n <= u64::MAX { Some(n as u64) } else { None },
            None => None,
        }
    }
}

/// A longer string of digits stands for no smaller number.
proof fn lemma_digits_grow(s: Seq<char>, k: int)
    requires
        0 <= k <= s.len(),
    ensures
        digits_value(s.take(k)) is None ==> digits_value(s) is None,
        digits_value(s) is Some ==> digits_value(s.take(k))->0 <= digits_value(s)->0,
    decreases s.len() - k,
{
    if k == s.len() {
        assert(s.take(k) == s);
    } else {
        lemma_digits_grow(s, k + 1);
        assert(s.take(k + 1).drop_last() == s.take(k));
        if digits_value(s) is Some {
            assert(digits_value(s.take(k + 1)) is Some);
        }
    }
}

/// Reads a `u64` written in decimal.
pub fn parse_u64(s: &str) -> (r: Option<u64>)
    ensures
        r == parsed_u64(s@),
{
    let chars = chars_of(s);
    let n: usize = chars.len();
    let start: usize = if n > 0 && chars[0] == '+' { 1 } else { 0 };
    let ghost digits = if s@.len() > 0 && s@[0] == '+' { s@.drop_first() } else { s@ };
    assert(digits == s@.skip(start as int));
    if start == n {
        return None;
    }
    let mut value: u64 = 0;
    let mut i: usize = start;
    while i < n
        invariant
            start <= i <= n,
            n == s@.len(),
            chars@ == s@,
            digits == s@.skip(start as int),
            digits_value(digits.take(i - start)) == Some(value as nat),
            parsed_u64(s@) == (match digits_value(digits) {
                Some(m) => if m <= u64::MAX { Some(m as u64) } else { None },
                None => None,
            }),
        decreases n - i,
    {
        let c = chars[i];
        proof {
            let k = i - start;
            lemma_digits_grow(digits, k + 1);
            assert(digits.take(k + 1).drop_last() == digits.take(k));
            assert(digits.take(k + 1).last() == c);
        }
        if c < '0' || '9' < c {
            return None;
        }
        let d: u64 = c as u64 - '0' as u64;
        if value > (u64::MAX - d) / 10 {
            return None;
        }
        value = value * 10 + d;
        i = i + 1;
    }
    assert(digits.take(n - start) == digits);
    Some(value)
}

/// Every character of `s` is a decimal digit.
pub open spec fn all_digits(s: Seq<char>) -> bool {
    forall|i: int| 0 <= i < s.len() ==> '0' <= #[trigger] s[i] <= '9'
}

/// Reading the digits of a number gives the number.
pub proof fn lemma_decimal_digits(n: nat)
    ensures
        digits_value(decimal_text(n)) == Some(n),
        all_digits(decimal_text(n)),
        decimal_text(n).len() > 0,
    decreases n,
{
    let s = decimal_text(n);
    if n < 10 {
        assert(s.drop_last() == Seq::<char>::empty());
        assert(digits_value(s.drop_last()) == Some(0nat));
        assert(s.last() == digit(n));
    } else {
        lemma_decimal_digits(n / 10);
        assert(s.drop_last() == decimal_text(n / 10));
        assert(s.last() == digit(n % 10));
        assert forall|i: int| 0 <= i < s.len() implies '0' <= #[trigger] s[i] <= '9' by {
            if i < s.len() - 1 {
                assert(s[i] == decimal_text(n / 10)[i]);
            }
        }
    }
}

/// A number that was written in decimal is read back as it was.
pub proof fn law_decimal_reads_back(n: u64)
    ensures
        parsed_u64(decimal_text(n as nat)) == Some(n),
{
    lemma_decimal_digits(n as nat);
}

/// Splitting a text at the first `c` in it.
pub proof fn lemma_pieces_step(a: Seq<char>, c: char, b: Seq<char>)
    requires
        !a.contains(c),
    ensures
        pieces_of(a + seq![c] + b, c) == seq![a] + pieces_of(b, c),
        pieces_of(a, c) == seq![a],
{
    let s = a + seq![c] + b;
    assert forall|j: int| 0 <= j < a.len() implies s[j] != c by {
        assert(s[j] == a[j]);
    }
    lemma_first_index_is(s, c, a.len() as int);
    lemma_first_index_is(a, c, a.len() as int);
    assert(s.take(a.len() as int) == a);
    assert(s.skip(a.len() as int + 1) == b);
}

/// White space at either end of a text that neither begins nor ends with white space.
pub proof fn lemma_trimmed(before: Seq<char>, s: Seq<char>, after: Seq<char>)
    requires
        forall|i: int| 0 <= i < before.len() ==> is_space(#[trigger] before[i]),
        forall|i: int| 0 <= i < after.len() ==> is_space(#[trigger] after[i]),
        s.len() > 0,
        !is_space(s[0]),
        !is_space(s.last()),
    ensures
        trimmed(before + s + after) == s,
{
    lemma_trimmed_start(before, s + after);
    assert(before + s + after == before + (s + after));
    lemma_trimmed_end(s, after);
}

proof fn lemma_trimmed_start(before: Seq<char>, s: Seq<char>)
    requires
        forall|i: int| 0 <= i < before.len() ==> is_space(#[trigger] before[i]),
        s.len() > 0 ==> !is_space(s[0]),
    ensures
        trimmed_start(before + s) == s,
    decreases before.len(),
{
    if before.len() == 0 {
        assert(before + s == s);
    } else {
        assert((before + s)[0] == before[0]);
        assert((before + s).drop_first() == before.drop_first() + s);
        assert forall|i: int| 0 <= i < before.drop_first().len() implies is_space(
            #[trigger] before.drop_first()[i],
        ) by {
            assert(before.drop_first()[i] == before[i + 1]);
        }
        lemma_trimmed_start(before.drop_first(), s);
    }
}

proof fn lemma_trimmed_end(s: Seq<char>, after: Seq<char>)
    requires
        forall|i: int| 0 <= i < after.len() ==> is_space(#[trigger] after[i]),
        s.len() > 0 ==> !is_space(s.last()),
    ensures
        trimmed_end(s + after) == s,
    decreases after.len(),
{
    if after.len() == 0 {
        assert(s + after == s);
    } else {
        assert((s + after).last() == after.last());
        assert((s + after).drop_last() == s + after.drop_last());
        lemma_trimmed_end(s, after.drop_last());
    }
}

/// A text that ends a line, and what follows it, have the lines of both.
pub proof fn lemma_lines_append(a: Seq<char>, b: Seq<char>)
    ensures
        lines_of(a + seq!['\n'] + b) == lines_of(a + seq!['\n']) + lines_of(b),
    decreases a.len(),
{
    let nl = seq!['\n'];
    let i = first_index(a, '\n');
    lemma_first_index(a, '\n');
    let s = a + nl;
    let w = a + nl + b;
    assert forall|j: int| 0 <= j < i implies s[j] != '\n' && w[j] != '\n' by {
        assert(s[j] == a[j]);
        assert(w[j] == a[j]);
    }
    if i < a.len() {
        let rest = a.skip(i + 1);
        assert(s[i] == a[i] && w[i] == a[i]);
        lemma_first_index_is(s, '\n', i);
        lemma_first_index_is(w, '\n', i);
        assert(s.take(i) == a.take(i));
        assert(w.take(i) == a.take(i));
        assert(s.skip(i + 1) == rest + nl);
        assert(w.skip(i + 1) == rest + nl + b);
        lemma_lines_append(rest, b);
        let first = seq![without_cr(a.take(i))];
        assert(lines_of(s) == first + lines_of(rest + nl));
        assert(lines_of(w) == first + lines_of(rest + nl + b));
        assert(first + (lines_of(rest + nl) + lines_of(b)) == (first + lines_of(rest + nl))
            + lines_of(b));
    } else {
        lemma_first_index_is(s, '\n', i);
        lemma_first_index_is(w, '\n', i);
        assert(s.take(i) == a);
        assert(w.take(i) == a);
        assert(s.skip(i + 1) == Seq::<char>::empty());
        assert(w.skip(i + 1) == b);
        let first = seq![without_cr(a)];
        assert(lines_of(s) == first + lines_of(Seq::<char>::empty()));
        assert(lines_of(s) == first);
    }
}

/// A number in decimal is that of its tenth with one digit more.
pub proof fn law_decimal_goes_by_tens(n: nat, d: nat)
    requires
        d < 10,
    ensures
        decimal_text(d).len() == 1,
        decimal_text(d)[0] as nat == '0' as nat + d,
        n > 0 ==> decimal_text(10 * n + d) == decimal_text(n) + decimal_text(d),
{
    if n > 0 {
        assert((10 * n + d) / 10 == n);
        assert((10 * n + d) % 10 == d);
        assert(decimal_text(n).push(digit(d)) == decimal_text(n) + seq![digit(d)]);
    }
}

/// Trimming takes away white space at either end, all of it, and nothing else.
pub proof fn law_trim_takes_white_space_only(s: &str, r: &str) -> (cut: (Seq<char>, Seq<char>))
    requires
        call_ensures(trim, (s,), r),
    ensures
        s@ == cut.0 + r@ + cut.1,
        forall|i: int| 0 <= i < cut.0.len() ==> is_space(#[trigger] cut.0[i]),
        forall|i: int| 0 <= i < cut.1.len() ==> is_space(#[trigger] cut.1[i]),
        r@.len() > 0 ==> !is_space(r@[0]) && !is_space(r@.last()),
{
    let a = lemma_cut_start(s@);
    let t = trimmed_start(s@);
    let b = lemma_cut_end(t);
    assert(s@ == a + (r@ + b));
    assert(a + (r@ + b) == a + r@ + b);
    if r@.len() > 0 {
        assert(t[0] == r@[0]);
    }
    (a, b)
}

proof fn lemma_cut_start(s: Seq<char>) -> (cut: Seq<char>)
    ensures
        s == cut + trimmed_start(s),
        forall|i: int| 0 <= i < cut.len() ==> is_space(#[trigger] cut[i]),
        trimmed_start(s).len() > 0 ==> !is_space(trimmed_start(s)[0]),
    decreases s.len(),
{
    if s.len() > 0 && is_space(s[0]) {
        let rest = lemma_cut_start(s.drop_first());
        let cut = seq![s[0]] + rest;
        assert(s == cut + trimmed_start(s)) by {
            assert(s == seq![s[0]] + s.drop_first());
        }
        assert forall|i: int| 0 <= i < cut.len() implies is_space(#[trigger] cut[i]) by {
            if i > 0 {
                assert(cut[i] == rest[i - 1]);
            }
        }
        cut
    } else {
        assert(s == Seq::<char>::empty() + s);
        seq![]
    }
}

proof fn lemma_cut_end(s: Seq<char>) -> (cut: Seq<char>)
    ensures
        s == trimmed_end(s) + cut,
        forall|i: int| 0 <= i < cut.len() ==> is_space(#[trigger] cut[i]),
        trimmed_end(s).len() > 0 ==> !is_space(trimmed_end(s).last()),
    decreases s.len(),
{
    if s.len() > 0 && is_space(s.last()) {
        let rest = lemma_cut_end(s.drop_last());
        let cut = rest.push(s.last());
        assert(s == trimmed_end(s) + cut) by {
            assert(s == s.drop_last().push(s.last()));
        }
        cut
    } else {
        assert(s == s + Seq::<char>::empty());
        seq![]
    }
}

/// The first line of a text ends at its first line feed; a carriage return before that belongs
/// to the end of the line.
pub proof fn law_lines_end_at_line_feeds(line: Seq<char>, rest: Seq<char>)
    requires
        !line.contains('\n'),
    ensures
        line.len() == 0 || line.last() != '\r' ==> lines_of(line + seq!['\n'] + rest) == seq![line]
            + lines_of(rest),
        lines_of(line + seq!['\r', '\n'] + rest) == seq![line] + lines_of(rest),
        line.len() > 0 ==> lines_of(line) == seq![line],
        lines_of(Seq::<char>::empty()).len() == 0,
{
    let s = line + seq!['\n'] + rest;
    assert forall|j: int| 0 <= j < line.len() implies s[j] != '\n' by {
        assert(s[j] == line[j]);
    }
    lemma_first_index_is(s, '\n', line.len() as int);
    assert(s.take(line.len() as int) == line);
    assert(s.skip(line.len() as int + 1) == rest);
    lemma_first_index_is(line, '\n', line.len() as int);
    let t = line + seq!['\r', '\n'] + rest;
    assert forall|j: int| 0 <= j < line.len() implies t[j] != '\n' by {
        assert(t[j] == line[j]);
    }
    lemma_first_index_is(t, '\n', line.len() as int + 1);
    assert(t.take(line.len() as int + 1) == line.push('\r'));
    assert(line.push('\r').drop_last() == line);
    assert(t.skip(line.len() as int + 2) == rest);
}

/// A number is read only from decimal digits, with at most one `+` before them, and a digit more
/// makes it ten times as large, plus the digit.
pub proof fn law_numbers_are_read_by_tens(s: Seq<char>, c: char)
    requires
        s.len() > 0,
        '0' <= s[0] <= '9',
    ensures
        parsed_u64(s.push(c)) == (match parsed_u64(s) {
            Some(n) => if '0' <= c <= '9' && 10 * n + (c as nat - '0' as nat) <= u64::MAX {
                Some((10 * n + (c as nat - '0' as nat)) as u64)
            } else {
                None
            },
            None => None,
        }),
        parsed_u64(seq!['+'] + s) == parsed_u64(s),
        parsed_u64(seq![s[0]]) == Some((s[0] as nat - '0' as nat) as u64),
        parsed_u64(Seq::<char>::empty()) is None,
        parsed_u64(seq!['+']) is None,
{
    let t = s.push(c);
    assert(t.drop_last() == s);
    assert(t[0] == s[0]);
    assert((seq!['+'] + s).drop_first() == s);
    let one = seq![s[0]];
    assert(one.drop_last() == Seq::<char>::empty());
    assert(digits_value(one.drop_last()) == Some(0nat));
    assert(seq!['+'].drop_first() == Seq::<char>::empty());
}

/// What stands before the first of a character has none of it, and is followed by it.
pub proof fn law_before_stops_at_the_first(s: &str, c: char, r: Option<&str>)
    requires
        call_ensures(before, (s, c), r),
    ensures
        r is Some == s@.contains(c),
        r matches Some(t) ==> !t@.contains(c) && t@.len() < s@.len() && s@.take(t@.len() as int)
            == t@ && s@[t@.len() as int] == c,
{
    lemma_first_index(s@, c);
    if s@.contains(c) {
        let i = choose|i: int| 0 <= i < s@.len() && s@[i] == c;
        assert(!(i < first_index(s@, c)));
    } else {
        if first_index(s@, c) < s@.len() {
            assert(s@.contains(s@[first_index(s@, c)]));
        }
    }
    if let Some(t) = r {
        let k = first_index(s@, c);
        if t@.contains(c) {
            let i = choose|i: int| 0 <= i < t@.len() && t@[i] == c;
            assert(s@[i] == c);
        }
    }
}

} // verus!
