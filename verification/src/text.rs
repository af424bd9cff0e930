//! Text helpers: number formatting, number parsing and substring tests, each
//! stated over sequences of characters.

use vstd::prelude::*;

verus! {

/// The character of a digit below sixteen, in lower case.
pub open spec fn digit_char(d: nat) -> char {
    if d < 10 {
        (48 + d) as char
    } else {
        (87 + d) as char
    }
}

/// `n` written in the given base, most significant digit first.
pub open spec fn digits(n: nat, base: nat) -> Seq<char>
    decreases n,
{
    if base < 2 || n < base {
        seq![digit_char(n)]
    } else {
        proof {
            assert(n / base < n) by (nonlinear_arith)
                requires
                    n >= base,
                    base >= 2,
            ;
        }
        digits(n / base, base).push(digit_char(n % base))
    }
}

/// `n` in decimal.
pub open spec fn decimal(n: nat) -> Seq<char> {
    digits(n, 10)
}

/// A signed number in decimal, with a leading minus where it is negative.
pub open spec fn signed_decimal(n: int) -> Seq<char> {
    if n < 0 {
        seq!['-'] + decimal((-n) as nat)
    } else {
        decimal(n as nat)
    }
}

/// `n` in lower-case hexadecimal behind `0x`.
pub open spec fn prefixed_hex(n: nat) -> Seq<char> {
    seq!['0', 'x'] + digits(n, 16)
}

/// Whether every character is a decimal digit.
pub open spec fn all_digits(s: Seq<char>) -> bool {
    forall|i: int| 0 <= i < s.len() ==> '0' <= #[trigger] s[i] <= '9'
}

/// The number that a sequence of decimal digits denotes.
pub open spec fn digits_value(s: Seq<char>) -> nat
    decreases s.len(),
{
    if s.len() == 0 {
        0
    } else {
        (digits_value(s.drop_last()) * 10 + (s.last() as u32 - 48)) as nat
    }
}

/// The digits of a number literal: what follows an optional leading plus.
pub open spec fn unsigned_body(s: Seq<char>) -> Seq<char> {
    if s.len() > 0 && s[0] == '+' {
        s.skip(1)
    } else {
        s
    }
}

/// The unsigned number that `s` denotes: an optional plus sign followed by one
/// or more decimal digits and nothing else.
pub open spec fn unsigned_value(s: Seq<char>) -> Option<nat> {
    let body = unsigned_body(s);
    if body.len() > 0 && all_digits(body) {
        Some(digits_value(body))
    } else {
        None
    }
}

/// The one-character text of a digit below sixteen.
fn digit_str(d: u64) -> (r: &'static str)
    requires
        d < 16,
    ensures
        r@ == seq![digit_char(d as nat)],
{
    proof {
        reveal_strlit("0");
        reveal_strlit("1");
        reveal_strlit("2");
        reveal_strlit("3");
        reveal_strlit("4");
        reveal_strlit("5");
        reveal_strlit("6");
        reveal_strlit("7");
        reveal_strlit("8");
        reveal_strlit("9");
        reveal_strlit("a");
        reveal_strlit("b");
        reveal_strlit("c");
        reveal_strlit("d");
        reveal_strlit("e");
        reveal_strlit("f");
    }
    let r: &'static str = match d {
        0 => "0",
        1 => "1",
        2 => "2",
        3 => "3",
        4 => "4",
        5 => "5",
        6 => "6",
        7 => "7",
        8 => "8",
        9 => "9",
        10 => "a",
        11 => "b",
        12 => "c",
        13 => "d",
        14 => "e",
        _ => "f",
    };
    assert(r@ =~= seq![digit_char(d as nat)]);
    r
}

/// Writes `n` in the given base.
fn write_digits(n: u64, base: u64) -> (r: String)
    requires
        2 <= base <= 16,
    ensures
        r@ == digits(n as nat, base as nat),
    decreases n,
{
    if n < base {
        digit_str(n).to_owned()
    } else {
        proof {
            assert(n / base < n) by (nonlinear_arith)
                requires
                    n >= base,
                    base >= 2,
            ;
        }
        let mut r = write_digits(n / base, base);
        r.append(digit_str(n % base));
        proof {
            assert(r@ =~= digits(n as nat, base as nat));
        }
        r
    }
}

/// Writes an unsigned number in decimal.
pub fn dec(n: u64) -> (r: String)
    ensures
        r@ == decimal(n as nat),
{
    write_digits(n, 10)
}

/// Writes a signed number in decimal.
pub fn signed_dec(n: i64) -> (r: String)
    ensures
        r@ == signed_decimal(n as int),
{
    if n < 0 {
        proof {
            reveal_strlit("-");
        }
        let magnitude: u64 = if n == i64::MIN {
            0x8000_0000_0000_0000
        } else {
            (-n) as u64
        };
        let mut r = "-".to_owned();
        let body = dec(magnitude);
        r.append(body.as_str());
        proof {
            assert(r@ =~= signed_decimal(n as int));
        }
        r
    } else {
        dec(n as u64)
    }
}

/// Writes an unsigned number in hexadecimal behind `0x`.
pub fn hex(n: u64) -> (r: String)
    ensures
        r@ == prefixed_hex(n as nat),
{
    proof {
        reveal_strlit("0x");
    }
    let mut r = "0x".to_owned();
    let body = write_digits(n, 16);
    r.append(body.as_str());
    proof {
        assert(r@ =~= prefixed_hex(n as nat));
    }
    r
}

/// Whether two texts are the same.
pub fn same_text(a: &str, b: &str) -> (r: bool)
    ensures
        r == (a@ == b@),
{
    a.to_owned() == b.to_owned()
}

/// Whether `s` begins with `prefix`.
pub fn starts_with(s: &str, prefix: &str) -> (r: bool)
    ensures
        r == prefix@.is_prefix_of(s@),
{
    let n = s.unicode_len();
    let m = prefix.unicode_len();
    if m > n {
        return false;
    }
    let head = s.substring_char(0, m);
    same_text(head, prefix)
}

/// Whether `s` ends with `suffix`.
pub fn ends_with(s: &str, suffix: &str) -> (r: bool)
    ensures
        r == suffix@.is_suffix_of(s@),
{
    let n = s.unicode_len();
    let m = suffix.unicode_len();
    if m > n {
        return false;
    }
    let tail = s.substring_char(n - m, n);
    same_text(tail, suffix)
}

/// Whether `c` occurs in `s`.
pub fn contains_char(s: &str, c: char) -> (r: bool)
    ensures
        r == s@.contains(c),
{
    find_char(s, c).is_some()
}

/// The position of the first `c` in `s`.
pub fn find_char(s: &str, c: char) -> (r: Option<usize>)
    ensures
        match r {
            Some(i) => i < s@.len() && s@[i as int] == c && (forall|j: int|
                0 <= j < i ==> s@[j] != c),
            None => !s@.contains(c),
        },
{
    let n = s.unicode_len();
    let mut i: usize = 0;
    while i < n
        invariant
            i <= n,
            n == s@.len(),
            forall|j: int| 0 <= j < i ==> s@[j] != c,
        decreases n - i,
    {
        if s.get_char(i) == c {
            return Some(i);
        }
        i = i + 1;
    }
    None
}

/// Joins texts with a separator between neighbours.
pub open spec fn joined(parts: Seq<String>, sep: Seq<char>) -> Seq<char>
    decreases parts.len(),
{
    if parts.len() == 0 {
        Seq::empty()
    } else if parts.len() == 1 {
        parts[0]@
    } else {
        joined(parts.drop_last(), sep) + sep + parts.last()@
    }
}

/// Joins texts with a separator between neighbours.
pub fn join(parts: &[String], sep: &str) -> (r: String)
    ensures
        r@ == joined(parts@, sep@),
{
    let mut r = String::new();
    let mut i: usize = 0;
    proof {
        assert(parts@.take(0) =~= Seq::empty());
        assert(""@.len() == 0) by {
            reveal_strlit("");
        }
    }
    while i < parts.len()
        invariant
            i <= parts.len(),
            r@ == joined(parts@.take(i as int), sep@),
        decreases parts.len() - i,
    {
        if i > 0 {
            r.append(sep);
        }
        r.append(parts[i].as_str());
        proof {
            assert(parts@.take(i + 1).drop_last() =~= parts@.take(i as int));
            if i == 0 {
                assert(r@ =~= parts@[0]@);
            } else {
                assert(r@ =~= joined(parts@.take(i as int), sep@) + sep@ + parts@[i as int]@);
            }
        }
        i = i + 1;
    }
    proof {
        assert(parts@.take(parts@.len() as int) =~= parts@);
    }
    r
}

proof fn lemma_digits_value_grows(s: Seq<char>, k: int)
    requires
        all_digits(s),
        0 <= k <= s.len(),
    ensures
        digits_value(s.take(k)) <= digits_value(s),
    decreases s.len() - k,
{
    if k == s.len() {
        assert(s.take(k) =~= s);
    } else {
        lemma_digits_value_grows(s, k + 1);
        assert(s.take(k + 1).drop_last() =~= s.take(k));
        assert('0' <= s[k] <= '9');
    }
}

/// Reads an unsigned number, as the standard parser for `u64` does.
///
/// The text is an optional plus sign and then decimal digits only; a value
/// that does not fit gives `None` as well.
pub fn parse_u64(s: &str) -> (r: Option<u64>)
    ensures
        match unsigned_value(s@) {
            Some(v) => if v <= u64::MAX {
                r == Some(v as u64)
            } else {
                r is None
            },
            None => r is None,
        },
{
    let n = s.unicode_len();
    let start: usize = if n > 0 && s.get_char(0) == '+' {
        1
    } else {
        0
    };
    let ghost body = unsigned_body(s@);
    proof {
        assert(body =~= s@.skip(start as int));
    }
    if start == n {
        return None;
    }
    let mut value: u64 = 0;
    let mut i: usize = start;
    proof {
        assert(body.take(0) =~= Seq::empty());
    }
    while i < n
        invariant
            start <= i <= n,
            n == s@.len(),
            body == s@.skip(start as int),
            body == unsigned_body(s@),
            body.len() > 0,
            forall|j: int| 0 <= j < i - start ==> '0' <= #[trigger] body[j] <= '9',
            value == digits_value(body.take(i - start)),
        decreases n - i,
    {
        let c = s.get_char(i);
        assert(c == body[i - start]);
        if c < '0' || c > '9' {
            return None;
        }
        let d: u64 = (c as u32 - 48) as u64;
        proof {
            assert(body.take(i - start + 1).drop_last() =~= body.take(i - start));
            if all_digits(body) {
                lemma_digits_value_grows(body, i - start + 1);
            }
        }
        if value > (u64::MAX - d) / 10 {
            return None;
        }
        value = value * 10 + d;
        i = i + 1;
    }
    proof {
        assert(body.take(body.len() as int) =~= body);
    }
    Some(value)
}

/// Reads an unsigned number that fits in 32 bits.
pub fn parse_u32(s: &str) -> (r: Option<u32>)
    ensures
        match unsigned_value(s@) {
            Some(v) => if v <= u32::MAX {
                r == Some(v as u32)
            } else {
                r is None
            },
            None => r is None,
        },
{
    match parse_u64(s) {
        Some(v) => if v <= u32::MAX as u64 {
            Some(v as u32)
        } else {
            None
        },
        None => None,
    }
}

/// One text after another.
pub fn plus(a: String, b: &str) -> (r: String)
    ensures
        r@ == a@ + b@,
{
    let mut r = a;
    r.append(b);
    r
}

/// What the standard library's `Debug` shows of a text: the text in double
/// quotes, with what cannot be shown plainly escaped.
pub uninterp spec fn shown_quoted(s: Seq<char>) -> Seq<char>;

/// Calls the `Debug` implementation of `str` through `format!`. Its escapes are
/// left to the name.
#[verifier::external_body]
pub(crate) fn quoted(s: &str) -> (r: String)
    ensures
        r@ == shown_quoted(s@),
{
    format!("{:?}", s)
}

/// What the standard library says of a text from which no `u32` can be parsed.
pub uninterp spec fn u32_error(s: Seq<char>) -> Seq<char>;

/// Calls `str::parse::<u32>` and shows what it answers: of a text that is no such
/// number, the error. How the error is worded is left to the name.
#[verifier::external_body]
pub(crate) fn why_no_u32(s: &str) -> (r: String)
    requires
        unsigned_value(s@) is None || unsigned_value(s@)->0 > u32::MAX,
    ensures
        r@ == u32_error(s@),
{
    match s.parse::<u32>() {
        Ok(n) => n.to_string(),
        Err(e) => e.to_string(),
    }
}

/// What the standard library says of a text from which no `u64` can be parsed.
pub uninterp spec fn u64_error(s: Seq<char>) -> Seq<char>;

/// Calls `str::parse::<u64>` and shows what it answers: of a text that is no such
/// number, the error. How the error is worded is left to the name.
#[verifier::external_body]
pub(crate) fn why_no_u64(s: &str) -> (r: String)
    requires
        unsigned_value(s@) is None || unsigned_value(s@)->0 > u64::MAX,
    ensures
        r@ == u64_error(s@),
{
    match s.parse::<u64>() {
        Ok(n) => n.to_string(),
        Err(e) => e.to_string(),
    }
}

/// Whether a character is white space.
pub open spec fn is_space(c: char) -> bool {
    ||| '\u{9}' <= c <= '\u{d}'
    ||| c == ' '
    ||| c == '\u{85}'
    ||| c == '\u{a0}'
    ||| c == '\u{1680}'
    ||| '\u{2000}' <= c <= '\u{200a}'
    ||| c == '\u{2028}'
    ||| c == '\u{2029}'
    ||| c == '\u{202f}'
    ||| c == '\u{205f}'
    ||| c == '\u{3000}'
}

/// Whether a character is white space.
pub fn is_white(c: char) -> (r: bool)
    ensures
        r == is_space(c),
{
    ('\u{9}' <= c && c <= '\u{d}') || c == ' ' || c == '\u{85}' || c == '\u{a0}' || c
        == '\u{1680}' || ('\u{2000}' <= c && c <= '\u{200a}') || c == '\u{2028}' || c
        == '\u{2029}' || c == '\u{202f}' || c == '\u{205f}' || c == '\u{3000}'
}

/// Where the first `c` stands; the length if there is none.
pub open spec fn first_at(s: Seq<char>, c: char) -> nat
    decreases s.len(),
{
    if s.len() == 0 || s[0] == c {
        0
    } else {
        1 + first_at(s.drop_first(), c)
    }
}

/// The first `c` stands where no earlier one does.
pub proof fn lemma_first_at(s: Seq<char>, c: char, i: int)
    requires
        0 <= i <= s.len(),
        i < s.len() ==> s[i] == c,
        forall|j: int| 0 <= j < i ==> s[j] != c,
    ensures
        first_at(s, c) == i,
    decreases i,
{
    if i > 0 {
        let t = s.drop_first();
        assert forall|j: int| 0 <= j < i - 1 implies t[j] != c by {
            assert(s[j + 1] != c);
        }
        lemma_first_at(t, c, i - 1);
    }
}

/// How many of the first characters are white space.
pub open spec fn space_len(s: Seq<char>) -> nat
    decreases s.len(),
{
    if s.len() > 0 && is_space(s[0]) {
        1 + space_len(s.drop_first())
    } else {
        0
    }
}

/// How many of the first characters are not white space.
pub open spec fn word_len(s: Seq<char>) -> nat
    decreases s.len(),
{
    if s.len() > 0 && !is_space(s[0]) {
        1 + word_len(s.drop_first())
    } else {
        0
    }
}

/// What is left of a text once leading white space is gone.
pub open spec fn without_space(s: Seq<char>) -> Seq<char> {
    s.skip(space_len(s) as int)
}

/// A text without white space at either end.
pub open spec fn trimmed(s: Seq<char>) -> Seq<char> {
    without_space(without_space(s).reverse()).reverse()
}

/// The word of a text with an index, words being what white space separates.
pub open spec fn word_at(s: Seq<char>, n: nat) -> Option<Seq<char>>
    decreases n,
{
    let t = without_space(s);
    if t.len() == 0 {
        None
    } else if n == 0 {
        Some(t.take(word_len(t) as int))
    } else {
        word_at(t.skip(word_len(t) as int), (n - 1) as nat)
    }
}

proof fn lemma_space_len(s: Seq<char>, i: int)
    requires
        0 <= i <= s.len(),
        forall|j: int| 0 <= j < i ==> is_space(#[trigger] s[j]),
        i < s.len() ==> !is_space(s[i]),
    ensures
        space_len(s) == i,
    decreases i,
{
    if i > 0 {
        let t = s.drop_first();
        assert forall|j: int| 0 <= j < i - 1 implies is_space(#[trigger] t[j]) by {
            assert(is_space(s[j + 1]));
        }
        assert(is_space(s[0]));
        lemma_space_len(t, i - 1);
    }
}

proof fn lemma_word_len(s: Seq<char>, i: int)
    requires
        0 <= i <= s.len(),
        forall|j: int| 0 <= j < i ==> !is_space(#[trigger] s[j]),
        i < s.len() ==> is_space(s[i]),
    ensures
        word_len(s) == i,
    decreases i,
{
    if i > 0 {
        let t = s.drop_first();
        assert forall|j: int| 0 <= j < i - 1 implies !is_space(#[trigger] t[j]) by {
            assert(!is_space(s[j + 1]));
        }
        assert(!is_space(s[0]));
        lemma_word_len(t, i - 1);
    }
}

/// The word of a text with an index.
pub fn word<'a>(s: &'a str, n: usize) -> (r: Option<&'a str>)
    ensures
        match r {
            Some(w) => word_at(s@, n as nat) == Some(w@),
            None => word_at(s@, n as nat) is None,
        },
{
    let len = s.unicode_len();
    let mut from: usize = 0;
    let mut left = n;
    proof {
        assert(s@.skip(0) =~= s@);
    }
    loop
        invariant
            len == s@.len(),
            from <= len,
            left <= n,
            word_at(s@, n as nat) == word_at(s@.skip(from as int), left as nat),
        decreases left,
    {
        let ghost rest = s@.skip(from as int);
        let mut start = from;
        while start < len && is_white(s.get_char(start))
            invariant
                len == s@.len(),
                from <= start <= len,
                rest == s@.skip(from as int),
                forall|j: int| 0 <= j < start - from ==> is_space(#[trigger] rest[j]),
            decreases len - start,
        {
            start = start + 1;
        }
        proof {
            lemma_space_len(rest, start - from);
            assert(without_space(rest) =~= s@.skip(start as int));
        }
        if start == len {
            return None;
        }
        let ghost t = s@.skip(start as int);
        let mut end = start;
        while end < len && !is_white(s.get_char(end))
            invariant
                len == s@.len(),
                start <= end <= len,
                t == s@.skip(start as int),
                forall|j: int| 0 <= j < end - start ==> !is_space(#[trigger] t[j]),
            decreases len - end,
        {
            end = end + 1;
        }
        proof {
            lemma_word_len(t, end - start);
            assert(t.take(end - start) =~= s@.subrange(start as int, end as int));
            assert(t.skip(end - start) =~= s@.skip(end as int));
        }
        if left == 0 {
            return Some(s.substring_char(start, end));
        }
        from = end;
        left = left - 1;
    }
}

/// A text without white space at either end.
pub fn trim<'a>(s: &'a str) -> (r: &'a str)
    ensures
        r@ == trimmed(s@),
{
    let len = s.unicode_len();
    let mut start: usize = 0;
    while start < len && is_white(s.get_char(start))
        invariant
            len == s@.len(),
            start <= len,
            forall|j: int| 0 <= j < start ==> is_space(#[trigger] s@[j]),
        decreases len - start,
    {
        start = start + 1;
    }
    let ghost head = s@.skip(start as int);
    let ghost back = head.reverse();
    proof {
        lemma_space_len(s@, start as int);
    }
    let mut end = len;
    while end > start && is_white(s.get_char(end - 1))
        invariant
            len == s@.len(),
            start <= end <= len,
            head == s@.skip(start as int),
            back == head.reverse(),
            forall|j: int| 0 <= j < len - end ==> is_space(#[trigger] back[j]),
        decreases end,
    {
        proof {
            assert(back[len - end] == s@[end - 1]);
        }
        end = end - 1;
    }
    proof {
        if end > start {
            assert(back[len - end] == s@[end - 1]);
        }
        lemma_space_len(back, len - end);
        assert(trimmed(s@) =~= s@.subrange(start as int, end as int));
    }
    s.substring_char(start, end)
}

/// Whether one text comes before another, character by character.
pub open spec fn text_before(a: Seq<char>, b: Seq<char>) -> bool
    decreases a.len(),
{
    if b.len() == 0 {
        false
    } else if a.len() == 0 {
        true
    } else if a[0] == b[0] {
        text_before(a.drop_first(), b.drop_first())
    } else {
        a[0] < b[0]
    }
}

/// Whether one text comes before another.
pub fn comes_before(a: &str, b: &str) -> (r: bool)
    ensures
        r == text_before(a@, b@),
{
    let n = a.unicode_len();
    let m = b.unicode_len();
    let mut i: usize = 0;
    proof {
        assert(a@.skip(0) =~= a@);
        assert(b@.skip(0) =~= b@);
    }
    while i < n && i < m
        invariant
            n == a@.len(),
            m == b@.len(),
            i <= n,
            i <= m,
            text_before(a@, b@) == text_before(a@.skip(i as int), b@.skip(i as int)),
        decreases n - i,
    {
        let x = a.get_char(i);
        let y = b.get_char(i);
        proof {
            assert(a@.skip(i as int).drop_first() =~= a@.skip(i + 1));
            assert(b@.skip(i as int).drop_first() =~= b@.skip(i + 1));
        }
        if x != y {
            return x < y;
        }
        i = i + 1;
    }
    i < m
}

/// No text comes before itself.
pub proof fn lemma_not_before_itself(a: Seq<char>)
    ensures
        !text_before(a, a),
    decreases a.len(),
{
    if a.len() > 0 {
        lemma_not_before_itself(a.drop_first());
    }
}

/// What comes before a text comes before whatever that comes before.
pub proof fn lemma_before_is_transitive(a: Seq<char>, b: Seq<char>, c: Seq<char>)
    requires
        text_before(a, b),
        text_before(b, c),
    ensures
        text_before(a, c),
    decreases a.len(),
{
    if a.len() > 0 && b.len() > 0 && c.len() > 0 {
        if a[0] == b[0] && b[0] == c[0] {
            lemma_before_is_transitive(a.drop_first(), b.drop_first(), c.drop_first());
        }
    }
}

/// Of two different texts one comes before the other.
pub proof fn lemma_before_is_total(a: Seq<char>, b: Seq<char>)
    ensures
        text_before(a, b) || text_before(b, a) || a == b,
    decreases a.len(),
{
    if a.len() > 0 && b.len() > 0 && a[0] == b[0] {
        lemma_before_is_total(a.drop_first(), b.drop_first());
        if a.drop_first() == b.drop_first() {
            assert(a =~= seq![a[0]] + a.drop_first());
            assert(b =~= seq![b[0]] + b.drop_first());
        }
    } else if a.len() == 0 && b.len() == 0 {
        assert(a =~= b);
    }
}

/// A letter of the Latin alphabet in lower case; another character as it is.
pub open spec fn lower_char(c: char) -> char {
    if 'A' <= c <= 'Z' {
        (c as u32 + 32) as char
    } else {
        c
    }
}

/// A text with its letters of the Latin alphabet in lower case.
pub open spec fn lowered(s: Seq<char>) -> Seq<char> {
    s.map_values(|c: char| lower_char(c))
}

/// Whether a text is another that is in lower case, whatever its own case.
pub fn is_word(s: &str, lower: &str) -> (r: bool)
    ensures
        r == (lowered(s@) == lower@),
{
    let n = s.unicode_len();
    if n != lower.unicode_len() {
        proof {
            assert(lowered(s@).len() == s@.len());
        }
        return false;
    }
    let mut i: usize = 0;
    while i < n
        invariant
            i <= n,
            n == s@.len(),
            n == lower@.len(),
            forall|j: int| 0 <= j < i ==> lower_char(#[trigger] s@[j]) == lower@[j],
        decreases n - i,
    {
        let c = s.get_char(i);
        let l = if 'A' <= c && c <= 'Z' {
            ((c as u8) + 32) as char
        } else {
            c
        };
        if l != lower.get_char(i) {
            proof {
                assert(lowered(s@)[i as int] == lower_char(s@[i as int]));
            }
            return false;
        }
        i = i + 1;
    }
    proof {
        assert(lowered(s@) =~= lower@);
    }
    true
}

/// Whether a text stands in another, at a position.
pub open spec fn stands_at(s: Seq<char>, part: Seq<char>, i: int) -> bool {
    0 <= i && i + part.len() <= s.len() && s.subrange(i, i + part.len()) == part
}

/// Whether a text stands in another.
pub open spec fn holds_text(s: Seq<char>, part: Seq<char>) -> bool {
    exists|i: int| #[trigger] stands_at(s, part, i)
}

/// Whether a text stands in another.
pub fn contains_text(s: &str, part: &str) -> (r: bool)
    ensures
        r == holds_text(s@, part@),
{
    let n = s.unicode_len();
    let m = part.unicode_len();
    if m > n {
        return false;
    }
    let mut i: usize = 0;
    while i <= n - m
        invariant
            n == s@.len(),
            m == part@.len(),
            m <= n,
            i <= n - m + 1,
            forall|j: int| 0 <= j < i ==> !#[trigger] stands_at(s@, part@, j),
        decreases n - m + 1 - i,
    {
        if same_text(s.substring_char(i, i + m), part) {
            proof {
                assert(stands_at(s@, part@, i as int));
            }
            return true;
        }
        if i == n - m {
            proof {
                assert forall|j: int| !#[trigger] stands_at(s@, part@, j) by {
                    if 0 <= j <= n - m {
                        if j < i {
                            assert(!stands_at(s@, part@, j));
                        }
                    }
                }
            }
            return false;
        }
        i = i + 1;
    }
    false
}

/// The value of a hexadecimal digit.
pub open spec fn hex_digit(c: char) -> Option<nat> {
    if '0' <= c <= '9' {
        Some((c as u32 - '0' as u32) as nat)
    } else if 'a' <= c <= 'f' {
        Some((c as u32 - 'a' as u32 + 10) as nat)
    } else if 'A' <= c <= 'F' {
        Some((c as u32 - 'A' as u32 + 10) as nat)
    } else {
        None
    }
}

/// The value of hexadecimal digits.
pub open spec fn hex_value(s: Seq<char>) -> Option<nat>
    decreases s.len(),
{
    if s.len() == 0 {
        Some(0)
    } else {
        match (hex_value(s.drop_last()), hex_digit(s.last())) {
            (Some(v), Some(d)) => Some(v * 16 + d),
            _ => None,
        }
    }
}

/// The value of a hexadecimal number: an optional plus sign and at least one
/// digit.
pub open spec fn hex_number(s: Seq<char>) -> Option<nat> {
    let body = unsigned_body(s);
    if body.len() == 0 {
        None
    } else {
        hex_value(body)
    }
}

proof fn lemma_hex_prefix(s: Seq<char>, k: int)
    requires
        0 <= k <= s.len(),
        hex_value(s) is Some,
    ensures
        hex_value(s.take(k)) is Some,
        hex_value(s.take(k))->0 <= hex_value(s)->0,
    decreases s.len() - k,
{
    if k == s.len() {
        assert(s.take(k) =~= s);
    } else {
        lemma_hex_prefix(s, k + 1);
        assert(s.take(k + 1).drop_last() =~= s.take(k));
    }
}

fn digit_of(c: char) -> (r: Option<u64>)
    ensures
        match r {
            Some(d) => hex_digit(c) == Some(d as nat) && d < 16,
            None => hex_digit(c) is None,
        },
{
    if '0' <= c && c <= '9' {
        Some((c as u32 - '0' as u32) as u64)
    } else if 'a' <= c && c <= 'f' {
        Some((c as u32 - 'a' as u32 + 10) as u64)
    } else if 'A' <= c && c <= 'F' {
        Some((c as u32 - 'A' as u32 + 10) as u64)
    } else {
        None
    }
}

/// Reads a hexadecimal number, as the standard parser for `u64` does; a value
/// that does not fit gives `None` as well.
pub fn parse_hex(s: &str) -> (r: Option<u64>)
    ensures
        match hex_number(s@) {
            Some(v) => if v <= u64::MAX {
                r == Some(v as u64)
            } else {
                r is None
            },
            None => r is None,
        },
{
    let n = s.unicode_len();
    let mut i: usize = 0;
    if n > 0 && s.get_char(0) == '+' {
        i = 1;
    }
    let ghost start = i;
    let ghost body = unsigned_body(s@);
    proof {
        assert(body =~= s@.skip(start as int));
    }
    if i == n {
        return None;
    }
    let mut value: u64 = 0;
    proof {
        assert(body.take(0) =~= Seq::<char>::empty());
    }
    while i < n
        invariant
            n == s@.len(),
            start <= i <= n,
            start < n,
            body == unsigned_body(s@),
            body == s@.skip(start as int),
            hex_value(body.take(i - start)) == Some(value as nat),
        decreases n - i,
    {
        let c = s.get_char(i);
        proof {
            let next = body.take(i - start + 1);
            assert(next.drop_last() =~= body.take(i - start));
            assert(next.last() == s@[i as int]);
            if hex_value(body) is Some {
                lemma_hex_prefix(body, i - start + 1);
            }
        }
        let d = match digit_of(c) {
            Some(d) => d,
            None => {
                return None;
            },
        };
        if value > (u64::MAX - d) / 16 {
            return None;
        }
        value = value * 16 + d;
        i = i + 1;
    }
    proof {
        assert(body.take(i - start) =~= body);
    }
    Some(value)
}

/// A number survives being written down in decimal and read back, and it is written
/// without a leading zero. In hexadecimal it survives too.
pub proof fn law_numbers_survive_being_written(n: nat)
    ensures
        unsigned_value(decimal(n)) == Some(n),
        decimal(n).len() > 1 ==> decimal(n)[0] != '0',
        hex_value(digits(n, 16)) == Some(n),
        digits(n, 16).len() > 1 ==> digits(n, 16)[0] != '0',
{
    lemma_decimal(n);
    lemma_hexadecimal(n);
}

proof fn lemma_decimal(n: nat)
    ensures
        decimal(n).len() > 0,
        all_digits(decimal(n)),
        digits_value(decimal(n)) == n,
        decimal(n)[0] == '0' <==> n == 0,
    decreases n,
{
    if n < 10 {
        let s = seq![digit_char(n)];
        assert(decimal(n) == s);
        assert(s.drop_last() =~= Seq::empty());
        assert(digits_value(s.drop_last()) == 0);
    } else {
        lemma_decimal(n / 10);
        let front = decimal(n / 10);
        let s = decimal(n);
        assert(s == front.push(digit_char(n % 10)));
        assert(s.drop_last() =~= front);
        assert forall|i: int| 0 <= i < s.len() implies '0' <= #[trigger] s[i] <= '9' by {
            if i < front.len() {
                assert(s[i] == front[i]);
            }
        }
        assert(s[0] == front[0]);
    }
}

proof fn lemma_hexadecimal(n: nat)
    ensures
        digits(n, 16).len() > 0,
        hex_value(digits(n, 16)) == Some(n),
        digits(n, 16)[0] == '0' <==> n == 0,
    decreases n,
{
    if n < 16 {
        let s = seq![digit_char(n)];
        assert(digits(n, 16) == s);
        assert(s.drop_last() =~= Seq::empty());
        assert(hex_value(s.drop_last()) == Some(0nat));
    } else {
        lemma_hexadecimal(n / 16);
        let front = digits(n / 16, 16);
        let s = digits(n, 16);
        assert(s == front.push(digit_char(n % 16)));
        assert(s.drop_last() =~= front);
        assert(s[0] == front[0]);
    }
}

/// A signed number is its size, behind a minus exactly if it is below zero.
pub proof fn law_signs_are_written(n: int)
    ensures
        n >= 0 ==> signed_decimal(n) == decimal(n as nat) && signed_decimal(n)[0] != '-',
        n < 0 ==> signed_decimal(n)[0] == '-' && signed_decimal(n).skip(1) == decimal((-n) as nat),
        prefixed_hex(n as nat).skip(2) == digits(n as nat, 16),
        prefixed_hex(n as nat)[0] == '0' && prefixed_hex(n as nat)[1] == 'x',
{
    if n >= 0 {
        lemma_decimal(n as nat);
    } else {
        assert(signed_decimal(n).skip(1) =~= decimal((-n) as nat));
    }
    assert(prefixed_hex(n as nat).skip(2) =~= digits(n as nat, 16));
}

/// Signs other than a leading plus, letters and nothing at all are no numbers.
pub proof fn law_only_digits_are_numbers(s: Seq<char>, i: int)
    requires
        0 < i < s.len() || (i == 0 && s.len() > 0 && s[0] != '+'),
        !('0' <= s[i] <= '9'),
    ensures
        unsigned_value(s) is None,
        unsigned_value(Seq::empty()) is None,
        unsigned_value(seq!['+']) is None,
{
    let body = unsigned_body(s);
    if s[0] == '+' {
        assert(body[i - 1] == s[i]);
    } else {
        assert(body[i] == s[i]);
    }
    assert(seq!['+'].skip(1).len() == 0);
}

/// A text with a leading plus is the number behind it.
pub proof fn law_a_plus_changes_nothing(n: nat)
    ensures
        unsigned_value(seq!['+'] + decimal(n)) == Some(n),
        unsigned_value(seq!['0'] + decimal(n)) == Some(n),
{
    lemma_decimal(n);
    let s = seq!['+'] + decimal(n);
    assert(s.skip(1) =~= decimal(n));
    let z = seq!['0'] + decimal(n);
    lemma_leading_zero(decimal(n));
    assert forall|i: int| 0 <= i < z.len() implies '0' <= #[trigger] z[i] <= '9' by {
        if i > 0 {
            assert(z[i] == decimal(n)[i - 1]);
        }
    }
}

proof fn lemma_leading_zero(s: Seq<char>)
    ensures
        digits_value(seq!['0'] + s) == digits_value(s),
    decreases s.len(),
{
    let z = seq!['0'] + s;
    if s.len() == 0 {
        assert(z.drop_last() =~= Seq::empty());
        assert(digits_value(z.drop_last()) == 0);
    } else {
        lemma_leading_zero(s.drop_last());
        assert(z.drop_last() =~= seq!['0'] + s.drop_last());
    }
}

/// Among the characters of ASCII a space, a tab and the line breaks are white space, and
/// no others.
pub proof fn law_white_space_of_ascii(c: char)
    requires
        (c as u32) < 128,
    ensures
        is_space(c) <==> c == ' ' || c == '\t' || c == '\n' || c == '\r' || c as u32 == 11
            || c as u32 == 12,
{
}

/// A text is trimmed by taking white space off both ends, as much as there is and nothing
/// else.
pub proof fn law_trimming_takes_white_space_off_both_ends(
    before: Seq<char>,
    s: Seq<char>,
    after: Seq<char>,
)
    requires
        forall|i: int| 0 <= i < before.len() ==> is_space(#[trigger] before[i]),
        forall|i: int| 0 <= i < after.len() ==> is_space(#[trigger] after[i]),
        s.len() > 0,
        !is_space(s[0]),
        !is_space(s.last()),
    ensures
        trimmed(before + s + after) == s,
        trimmed(before) == Seq::<char>::empty(),
{
    let t = before + s + after;
    let n = before.len() as int;
    assert forall|i: int| 0 <= i < n implies is_space(#[trigger] t[i]) by {
        assert(t[i] == before[i]);
    }
    assert(t[n] == s[0]);
    lemma_space_len(t, n);
    let u = without_space(t);
    assert(u =~= s + after);
    let w = u.reverse();
    let m = after.len() as int;
    assert forall|i: int| 0 <= i < m implies is_space(#[trigger] w[i]) by {
        assert(w[i] == after[m - 1 - i]);
    }
    assert(w[m] == s.last());
    lemma_space_len(w, m);
    assert(without_space(w).reverse() =~= s);
    lemma_space_len(before, n);
    assert(without_space(before) =~= Seq::<char>::empty());
    let e = Seq::<char>::empty().reverse();
    assert(e =~= Seq::<char>::empty());
    lemma_space_len(e, 0);
    assert(without_space(e).reverse() =~= Seq::<char>::empty());
}

/// Words are what white space separates: the first word of a text is what stands between
/// the white space before it and the white space after it, and the others are the words of
/// what follows it.
pub proof fn law_words_are_what_white_space_separates(
    before: Seq<char>,
    word: Seq<char>,
    after: Seq<char>,
    n: nat,
)
    requires
        forall|i: int| 0 <= i < before.len() ==> is_space(#[trigger] before[i]),
        word.len() > 0,
        forall|i: int| 0 <= i < word.len() ==> !is_space(#[trigger] word[i]),
        after.len() > 0 ==> is_space(after[0]),
    ensures
        word_at(before + word + after, 0) == Some(word),
        word_at(before + word + after, n + 1) == word_at(after, n),
        word_at(before, n) is None,
{
    let s = before + word + after;
    let b = before.len() as int;
    assert forall|i: int| 0 <= i < b implies is_space(#[trigger] s[i]) by {
        assert(s[i] == before[i]);
    }
    assert(s[b] == word[0]);
    lemma_space_len(s, b);
    let t = without_space(s);
    assert(t =~= word + after);
    assert forall|i: int| 0 <= i < word.len() implies !is_space(#[trigger] t[i]) by {
        assert(t[i] == word[i]);
    }
    lemma_word_len(t, word.len() as int);
    assert(t.take(word.len() as int) =~= word);
    assert(t.skip(word.len() as int) =~= after);
    lemma_space_len(before, b);
    assert(without_space(before).len() == 0);
}

/// Lower case differs from a text only in its capital letters, of which it has none.
pub proof fn law_lower_case_has_no_capitals(s: Seq<char>, i: int)
    requires
        0 <= i < s.len(),
    ensures
        lowered(s).len() == s.len(),
        'A' <= s[i] <= 'Z' ==> lowered(s)[i] as u32 == s[i] as u32 + 32,
        !('A' <= s[i] <= 'Z') ==> lowered(s)[i] == s[i],
        !('A' <= lowered(s)[i] <= 'Z'),
        lowered(lowered(s)) == lowered(s),
{
    assert forall|k: int| 0 <= k < s.len() implies lowered(lowered(s))[k] == #[trigger] lowered(
        s,
    )[k] by {
        assert(lowered(s)[k] == lower_char(s[k]));
    }
    assert(lowered(lowered(s)) =~= lowered(s));
}

/// Texts are joined with the separator between neighbours and nowhere else.
pub proof fn law_texts_are_joined_between_neighbours(parts: Seq<String>, p: String, sep: Seq<char>)
    ensures
        joined(Seq::empty(), sep) == Seq::<char>::empty(),
        joined(seq![p], sep) == p@,
        parts.len() > 0 ==> joined(parts.push(p), sep) == joined(parts, sep) + sep + p@,
{
    assert(parts.push(p).drop_last() =~= parts);
}

/// The first occurrence of a character is one, and there is none before it.
pub proof fn law_the_first_occurrence_is_first(s: Seq<char>, c: char, i: int)
    ensures
        first_at(s, c) <= s.len(),
        first_at(s, c) < s.len() ==> s[first_at(s, c) as int] == c,
        0 <= i < first_at(s, c) ==> s[i] != c,
    decreases s.len(),
{
    if s.len() > 0 && s[0] != c {
        law_the_first_occurrence_is_first(s.drop_first(), c, i - 1);
        if 0 < i < s.len() {
            assert(s[i] == s.drop_first()[i - 1]);
        }
    }
}

/// One text comes before another at the first place where they differ, by the characters
/// there; a text comes before every longer one that begins with it.
pub proof fn law_texts_are_ordered_by_their_first_difference(
    same: Seq<char>,
    a: Seq<char>,
    b: Seq<char>,
)
    ensures
        a.len() == 0 && b.len() > 0 ==> text_before(same + a, same + b),
        b.len() == 0 ==> !text_before(same + a, same + b),
        a.len() > 0 && b.len() > 0 && a[0] != b[0] ==> (text_before(same + a, same + b) <==> a[0]
            < b[0]),
    decreases same.len(),
{
    if same.len() > 0 {
        let rest = same.drop_first();
        law_texts_are_ordered_by_their_first_difference(rest, a, b);
        assert((same + a).drop_first() =~= rest + a);
        assert((same + b).drop_first() =~= rest + b);
    } else {
        assert(same + a =~= a);
        assert(same + b =~= b);
    }
}

/// Hexadecimal digits are no signs and no white space.
pub proof fn lemma_hex_chars(s: Seq<char>)
    requires
        hex_value(s) is Some,
    ensures
        forall|i: int| 0 <= i < s.len() ==> hex_digit(#[trigger] s[i]) is Some,
        forall|i: int|
            0 <= i < s.len() ==> (#[trigger] s[i]) != '-' && s[i] != ' ' && s[i] != '+',
    decreases s.len(),
{
    if s.len() > 0 {
        let front = s.drop_last();
        lemma_hex_chars(front);
        assert forall|i: int| 0 <= i < s.len() implies hex_digit(#[trigger] s[i]) is Some by {
            if i < front.len() {
                assert(front[i] == s[i]);
            }
        }
    }
}

/// A number has digits.
pub proof fn lemma_some_digits(n: nat, base: nat)
    ensures
        digits(n, base).len() > 0,
{
}

/// A number in decimal begins and ends with what is no white space.
pub proof fn lemma_decimal_chars(n: nat)
    ensures
        decimal(n).len() > 0,
        forall|i: int| 0 <= i < decimal(n).len() ==> !is_space(#[trigger] decimal(n)[i]),
{
    lemma_decimal(n);
}

/// A hexadecimal digit counts from zero to fifteen, in small and in capital letters alike,
/// and nothing else is one.
pub proof fn law_hexadecimal_digits(c: char, i: nat)
    ensures
        hex_digit(c) is Some ==> hex_digit(c)->0 < 16,
        '0' <= c <= '9' && i < 10 ==> (hex_digit(c) == Some(i) <==> c as u32 == 0x30 + i),
        'a' <= c <= 'f' && i < 16 ==> (hex_digit(c) == Some(i) <==> c as u32 == 0x61 + i - 10),
        'A' <= c <= 'F' && i < 16 ==> (hex_digit(c) == Some(i) <==> c as u32 == 0x41 + i - 10),
        c < '0' || '9' < c < 'A' || 'F' < c < 'a' || 'f' < c ==> hex_digit(c) is None,
{
}

/// Each further hexadecimal digit counts one against sixteen of those before it; a number
/// has at least one, nothing in it is no digit, and a plus before it changes nothing.
pub proof fn law_hexadecimal_numbers(s: Seq<char>, c: char)
    ensures
        hex_number(Seq::empty()) is None,
        hex_number(seq![c]) == hex_digit(c),
        s.len() > 0 && s[0] != '+' && hex_number(s) is Some && hex_digit(c) is Some
            ==> hex_number(s.push(c)) == Some(16 * hex_number(s)->0 + hex_digit(c)->0),
        s.len() > 0 && s[0] != '+' && (hex_number(s) is None || hex_digit(c) is None)
            ==> hex_number(s.push(c)) is None,
        s.len() > 0 && s[0] != '+' ==> hex_number(seq!['+'] + s) == hex_number(s),
{
    let one = seq![c];
    assert(one.drop_last() =~= Seq::<char>::empty());
    assert(hex_value(one.drop_last()) == Some(0nat));
    if c == '+' {
        assert(one.skip(1) =~= Seq::<char>::empty());
    }
    if s.len() > 0 && s[0] != '+' {
        assert(s.push(c).drop_last() =~= s);
        assert(s.push(c)[0] == s[0]);
        assert((seq!['+'] + s).skip(1) =~= s);
    }
}

} // verus!
