//! The lexical layer: character classes, runs of characters, keywords and
//! decimal numbers, each as a mathematical definition and as code that
//! computes it.

use vstd::prelude::*;
use vstd::string::*;

verus! {

/// The classes of characters that the grammar reads in runs.
#[derive(Clone, Copy, Debug, PartialEq, Eq)]
pub enum Class {
    /// Blank, tab, line feed, carriage return.
    Space,
    /// `0` to `9`.
    Digit,
    /// ASCII letters, digits and the underscore.
    Word,
}

pub open spec fn is_space(c: char) -> bool {
    c == ' ' || c == '\t' || c == '\n' || c == '\r'
}

pub open spec fn is_digit(c: char) -> bool {
    '0' <= c <= '9'
}

pub open spec fn is_upper(c: char) -> bool {
    'A' <= c <= 'Z'
}

pub open spec fn is_lower(c: char) -> bool {
    'a' <= c <= 'z'
}

/// A character that may begin a name.
pub open spec fn is_word_start(c: char) -> bool {
    is_upper(c) || is_lower(c) || c == '_'
}

pub open spec fn is_word(c: char) -> bool {
    is_word_start(c) || is_digit(c)
}

pub open spec fn in_class(k: Class, c: char) -> bool {
    match k {
        Class::Space => is_space(c),
        Class::Digit => is_digit(c),
        Class::Word => is_word(c),
    }
}

/// Two characters are the same letter when they are equal or are the two
/// cases of one ASCII letter.
pub open spec fn same_letter(a: char, b: char) -> bool {
    a == b || (is_upper(a) && is_lower(b) && a as int + 32 == b as int) || (is_lower(a)
        && is_upper(b) && b as int + 32 == a as int)
}

/// The length of the longest prefix of `s` whose characters are all in `k`.
pub open spec fn span(s: Seq<char>, k: Class) -> nat
    decreases s.len(),
{
    if s.len() > 0 && in_class(k, s[0]) {
        1 + span(s.skip(1), k)
    } else {
        0
    }
}

/// `s` begins with the word `kw`, whatever the case of its letters.
pub open spec fn has_keyword(s: Seq<char>, kw: Seq<char>) -> bool {
    s.len() >= kw.len() && forall|i: int| 0 <= i < kw.len() ==> same_letter(#[trigger] s[i], kw[i])
}

/// `s` begins with exactly the characters of `lit`.
pub open spec fn has_prefix(s: Seq<char>, lit: Seq<char>) -> bool {
    s.len() >= lit.len() && s.take(lit.len() as int) == lit
}

/// The digit that a character stands for.
pub open spec fn digit_of(c: char) -> int {
    c as int - 48
}

/// The character that stands for a digit.
pub open spec fn digit_char(d: int) -> char {
    (d + 48) as char
}

/// The number that a run of digits stands for.
pub open spec fn digits_value(s: Seq<char>) -> int
    decreases s.len(),
{
    if s.len() == 0 {
        0
    } else {
        digits_value(s.drop_last()) * 10 + digit_of(s.last())
    }
}

/// The decimal digits of a number, without leading zeros.
pub open spec fn digits(n: int) -> Seq<char>
    decreases n,
{
    if n < 10 {
        seq![digit_char(n)]
    } else {
        digits(n / 10).push(digit_char(n % 10))
    }
}

/// A number at the head of `s`: its value and the number of characters it
/// takes. There is none where `s` begins with no digit or the digits stand
/// for more than 64 bits hold.
pub open spec fn spec_number(s: Seq<char>) -> Option<(int, nat)> {
    let n = span(s, Class::Digit);
    if n > 0 && digits_value(s.take(n as int)) <= u64::MAX {
        Some((digits_value(s.take(n as int)), n))
    } else {
        None
    }
}

/// A name at the head of `s`: a letter or underscore, then letters, digits
/// and underscores.
pub open spec fn spec_ident(s: Seq<char>) -> Option<(Seq<char>, nat)> {
    let n = span(s, Class::Word);
    if n > 0 && is_word_start(s[0]) {
        Some((s.take(n as int), n))
    } else {
        None
    }
}

/// A text that `spec_ident` reads back whole.
pub open spec fn is_ident(t: Seq<char>) -> bool {
    t.len() > 0 && is_word_start(t[0]) && forall|i: int| 0 <= i < t.len() ==> is_word(#[trigger] t[i])
}

/// Skipping twice is skipping once.
pub proof fn lemma_skip(s: Seq<char>, i: int, a: int)
    requires
        0 <= i <= a <= s.len(),
    ensures
        s.skip(i).skip(a - i) == s.skip(a),
        s.skip(i).len() == s.len() - i,
        a < s.len() ==> s.skip(i)[a - i] == s[a],
{
    assert(s.skip(i).skip(a - i) =~= s.skip(a));
}

/// A run ends where the class ends.
pub proof fn lemma_span(s: Seq<char>, k: Class, n: nat)
    requires
        n <= s.len(),
        forall|i: int| 0 <= i < n ==> in_class(k, #[trigger] s[i]),
        n == s.len() || !in_class(k, s[n as int]),
    ensures
        span(s, k) == n,
    decreases n,
{
    if n > 0 {
        let t = s.skip(1);
        assert forall|i: int| 0 <= i < n - 1 implies in_class(k, #[trigger] t[i]) by {
            assert(t[i] == s[i + 1]);
        }
        lemma_span(t, k, (n - 1) as nat);
    }
}

/// What a run is: within the text, all of one class, and not longer than it could be.
pub proof fn lemma_span_props(s: Seq<char>, k: Class)
    ensures
        span(s, k) <= s.len(),
        forall|i: int| 0 <= i < span(s, k) ==> in_class(k, #[trigger] s[i]),
        span(s, k) == s.len() || !in_class(k, s[span(s, k) as int]),
    decreases s.len(),
{
    if s.len() > 0 && in_class(k, s[0]) {
        let t = s.skip(1);
        lemma_span_props(t, k);
        assert forall|i: int| 0 <= i < span(s, k) implies in_class(k, #[trigger] s[i]) by {
            if i > 0 {
                assert(s[i] == t[i - 1]);
            }
        }
        if span(s, k) != s.len() {
            assert(s[span(s, k) as int] == t[span(t, k) as int]);
        }
    }
}

/// A run of digits stands for no less than any of its prefixes.
pub proof fn lemma_value_prefix(s: Seq<char>, m: nat)
    requires
        m <= s.len(),
        forall|i: int| 0 <= i < s.len() ==> is_digit(#[trigger] s[i]),
    ensures
        0 <= digits_value(s.take(m as int)) <= digits_value(s),
    decreases s.len(),
{
    if m == s.len() {
        assert(s.take(m as int) =~= s);
        if s.len() > 0 {
            lemma_value_prefix(s.drop_last(), (m - 1) as nat);
            assert(s.drop_last().take(m - 1) =~= s.drop_last());
        }
    } else {
        lemma_value_prefix(s.drop_last(), m);
        assert(s.drop_last().take(m as int) =~= s.take(m as int));
    }
}

/// The digits of a number are digits, and stand for it.
pub proof fn lemma_digits(n: int)
    requires
        0 <= n,
    ensures
        digits(n).len() > 0,
        forall|i: int| 0 <= i < digits(n).len() ==> is_digit(#[trigger] digits(n)[i]),
        digits_value(digits(n)) == n,
    decreases n,
{
    if n < 10 {
        let s = seq![digit_char(n)];
        assert(s.drop_last() =~= Seq::<char>::empty());
        assert(digits_value(s.drop_last()) == 0);
        assert(s.last() == digit_char(n));
    } else {
        lemma_digits(n / 10);
        let s = digits(n / 10).push(digit_char(n % 10));
        assert(s.drop_last() =~= digits(n / 10));
        assert(s.last() == digit_char(n % 10));
        assert forall|i: int| 0 <= i < s.len() implies is_digit(#[trigger] s[i]) by {
            if i < s.len() - 1 {
                assert(s[i] == digits(n / 10)[i]);
            }
        }
    }
}

/// `t` does not go on a run of class `k`: it is empty or begins outside it.
pub open spec fn stops(t: Seq<char>, k: Class) -> bool {
    t.len() == 0 || !in_class(k, t[0])
}

/// A text of one class, followed by a text that stops it, is a run.
pub proof fn lemma_span_concat(a: Seq<char>, t: Seq<char>, k: Class)
    requires
        forall|i: int| 0 <= i < a.len() ==> in_class(k, #[trigger] a[i]),
        stops(t, k),
    ensures
        span(a + t, k) == a.len(),
{
    let s = a + t;
    assert forall|i: int| 0 <= i < a.len() implies in_class(k, #[trigger] s[i]) by {
        assert(s[i] == a[i]);
    }
    if t.len() > 0 {
        assert(s[a.len() as int] == t[0]);
    }
    lemma_span(s, k, a.len());
}

/// A name is read back whole before a text that stops it.
pub proof fn lemma_ident_reads(x: Seq<char>, t: Seq<char>)
    requires
        is_ident(x),
        stops(t, Class::Word),
    ensures
        spec_ident(x + t) == Some((x, x.len())),
{
    lemma_span_concat(x, t, Class::Word);
    assert((x + t).take(x.len() as int) =~= x);
    assert((x + t)[0] == x[0]);
}

/// The digits of a number are read back as the number before a text that
/// stops them.
pub proof fn lemma_number_reads(n: int, t: Seq<char>)
    requires
        0 <= n <= u64::MAX,
        stops(t, Class::Digit),
    ensures
        spec_number(digits(n) + t) == Some((n, digits(n).len())),
{
    lemma_digits(n);
    lemma_span_concat(digits(n), t, Class::Digit);
    assert((digits(n) + t).take(digits(n).len() as int) =~= digits(n));
}

/// No number is read where the text begins with no digit.
pub proof fn lemma_number_fails(s: Seq<char>)
    requires
        stops(s, Class::Digit),
    ensures
        spec_number(s) is None,
{
}

/// A word is read at the head of any text that begins with it.
pub proof fn lemma_keyword_reads(kw: Seq<char>, t: Seq<char>)
    ensures
        has_keyword(kw + t, kw),
        has_prefix(kw + t, kw),
{
    assert forall|i: int| 0 <= i < kw.len() implies same_letter(#[trigger] (kw + t)[i], kw[i]) by {
        assert((kw + t)[i] == kw[i]);
    }
    assert((kw + t).take(kw.len() as int) =~= kw);
}

/// A text that differs from a literal at one place does not begin with it.
pub proof fn lemma_prefix_fails(s: Seq<char>, lit: Seq<char>, i: int)
    requires
        0 <= i < lit.len(),
        s.len() <= i || s[i] != lit[i],
    ensures
        !has_prefix(s, lit),
{
    if s.len() >= lit.len() {
        assert(s.take(lit.len() as int)[i] == s[i]);
    }
}

/// A text that differs from a word at one place, by more than case, does
/// not begin with it.
pub proof fn lemma_keyword_fails(s: Seq<char>, kw: Seq<char>, i: int)
    requires
        0 <= i < kw.len(),
        s.len() <= i || !same_letter(s[i], kw[i]),
    ensures
        !has_keyword(s, kw),
{
}

/// One blank before a text that begins with no blank is a run of one.
pub proof fn lemma_one_space(x: Seq<char>)
    requires
        stops(x, Class::Space),
    ensures
        span(" "@ + x, Class::Space) == 1,
        (" "@ + x).skip(1) == x,
{
    reveal_strlit(" ");
    lemma_span_concat(" "@, x, Class::Space);
    assert((" "@ + x).skip(1) =~= x);
}

/// What is read as a name is a name, and lies within the text.
pub proof fn lemma_ident_is_ident(s: Seq<char>)
    ensures
        spec_ident(s) matches Some((x, n)) ==> is_ident(x) && 0 < n <= s.len(),
{
    lemma_span_props(s, Class::Word);
    let n = span(s, Class::Word);
    let x = s.take(n as int);
    assert forall|i: int| 0 <= i < x.len() implies is_word(#[trigger] x[i]) by {
        assert(x[i] == s[i]);
    }
}

/// What is read as a number fits 64 bits, and lies within the text.
pub proof fn lemma_number_bounds(s: Seq<char>)
    ensures
        spec_number(s) matches Some((v, n)) ==> 0 <= v <= u64::MAX && 0 < n <= s.len(),
{
    lemma_span_props(s, Class::Digit);
    let n = span(s, Class::Digit);
    let x = s.take(n as int);
    assert forall|i: int| 0 <= i < x.len() implies is_digit(#[trigger] x[i]) by {
        assert(x[i] == s[i]);
    }
    lemma_value_prefix(x, x.len());
    assert(x.take(x.len() as int) =~= x);
}

/// The characters of a text.
pub fn chars_of(s: &str) -> (v: Vec<char>)
    ensures
        v@ == s@,
{
    let mut v: Vec<char> = Vec::new();
    let n = s.unicode_len();
    let mut i: usize = 0;
    while i < n
        invariant
            n == s@.len(),
            i <= n,
            v@ == s@.subrange(0, i as int),
        decreases n - i,
    {
        v.push(s.get_char(i));
        i += 1;
        assert(v@ =~= s@.subrange(0, i as int));
    }
    assert(v@ =~= s@);
    v
}

pub fn class_of(k: Class, c: char) -> (b: bool)
    ensures
        b == in_class(k, c),
{
    match k {
        Class::Space => c == ' ' || c == '\t' || c == '\n' || c == '\r',
        Class::Digit => c >= '0' && c <= '9',
        Class::Word => (c >= 'a' && c <= 'z') || (c >= 'A' && c <= 'Z') || c == '_' || (c >= '0'
            && c <= '9'),
    }
}

pub fn starts_word(c: char) -> (b: bool)
    ensures
        b == is_word_start(c),
{
    (c >= 'a' && c <= 'z') || (c >= 'A' && c <= 'Z') || c == '_'
}

pub fn letters_match(a: char, b: char) -> (r: bool)
    ensures
        r == same_letter(a, b),
{
    let x: u32 = a as u32;
    let y: u32 = b as u32;
    a == b || (a >= 'A' && a <= 'Z' && b >= 'a' && b <= 'z' && x + 32 == y) || (a >= 'a' && a
        <= 'z' && b >= 'A' && b <= 'Z' && y + 32 == x)
}

/// The end of the run of class `k` that begins at `i`.
pub fn scan(cs: &Vec<char>, i: usize, k: Class) -> (j: usize)
    requires
        i <= cs.len(),
    ensures
        i <= j <= cs.len(),
        j - i == span(cs@.skip(i as int), k),
{
    let mut j: usize = i;
    while j < cs.len() && class_of(k, cs[j])
        invariant
            i <= j <= cs.len(),
            forall|t: int| i <= t < j ==> in_class(k, #[trigger] cs@[t]),
        decreases cs.len() - j,
    {
        j += 1;
    }
    proof {
        let s = cs@.skip(i as int);
        assert forall|t: int| 0 <= t < j - i implies in_class(k, #[trigger] s[t]) by {
            assert(s[t] == cs@[i + t]);
        }
        lemma_span(s, k, (j - i) as nat);
    }
    j
}

/// Whether the text at `i` begins with the word `kw`, in any case; if so,
/// the position behind it.
pub fn keyword(cs: &Vec<char>, i: usize, kw: &str) -> (r: Option<usize>)
    requires
        i <= cs.len(),
    ensures
        match r {
            Some(j) => has_keyword(cs@.skip(i as int), kw@) && j == i + kw@.len(),
            None => !has_keyword(cs@.skip(i as int), kw@),
        },
{
    let n = kw.unicode_len();
    if cs.len() - i < n {
        return None;
    }
    let ghost s = cs@.skip(i as int);
    let mut t: usize = 0;
    while t < n
        invariant
            n == kw@.len(),
            i + n <= cs.len(),
            t <= n,
            s == cs@.skip(i as int),
            forall|u: int| 0 <= u < t ==> same_letter(#[trigger] s[u], kw@[u]),
        decreases n - t,
    {
        if !letters_match(cs[i + t], kw.get_char(t)) {
            assert(s[t as int] == cs@[i + t]);
            return None;
        }
        assert(s[t as int] == cs@[i + t]);
        t += 1;
    }
    Some(i + n)
}

/// Whether the text at `i` begins with exactly `lit`; if so, the position
/// behind it.
pub fn literal(cs: &Vec<char>, i: usize, lit: &str) -> (r: Option<usize>)
    requires
        i <= cs.len(),
    ensures
        match r {
            Some(j) => has_prefix(cs@.skip(i as int), lit@) && j == i + lit@.len(),
            None => !has_prefix(cs@.skip(i as int), lit@),
        },
{
    let n = lit.unicode_len();
    if cs.len() - i < n {
        return None;
    }
    let ghost s = cs@.skip(i as int);
    let mut t: usize = 0;
    while t < n
        invariant
            n == lit@.len(),
            i + n <= cs.len(),
            t <= n,
            s == cs@.skip(i as int),
            forall|u: int| 0 <= u < t ==> #[trigger] s[u] == lit@[u],
        decreases n - t,
    {
        if cs[i + t] != lit.get_char(t) {
            assert(s[t as int] == cs@[i + t]);
            assert(s.take(n as int)[t as int] == s[t as int]);
            return None;
        }
        assert(s[t as int] == cs@[i + t]);
        t += 1;
    }
    assert(s.take(n as int) =~= lit@);
    Some(i + n)
}

/// The number at `i`, if there is one, and the position behind it.
pub fn number(cs: &Vec<char>, i: usize) -> (r: Option<(u64, usize)>)
    requires
        i <= cs.len(),
    ensures
        match r {
            Some((v, j)) => i < j <= cs.len() && spec_number(cs@.skip(i as int)) == Some(
                (v as int, (j - i) as nat),
            ),
            None => spec_number(cs@.skip(i as int)) is None,
        },
{
    let e = scan(cs, i, Class::Digit);
    if e == i {
        return None;
    }
    let ghost s = cs@.skip(i as int);
    let ghost run = s.take(e - i);
    proof {
        lemma_span_props(s, Class::Digit);
        assert forall|t: int| 0 <= t < run.len() implies is_digit(#[trigger] run[t]) by {
            assert(run[t] == s[t]);
        }
    }
    let mut acc: u64 = 0;
    let mut j: usize = i;
    while j < e
        invariant
            i <= j <= e <= cs.len(),
            s == cs@.skip(i as int),
            run == s.take(e - i),
            e - i == span(s, Class::Digit),
            forall|t: int| 0 <= t < run.len() ==> is_digit(#[trigger] run[t]),
            acc == digits_value(run.take(j - i)),
        decreases e - j,
    {
        let c = cs[j];
        let ghost next = run.take(j - i + 1);
        proof {
            assert(run[j - i] == c);
            assert(next.drop_last() =~= run.take(j - i));
            assert(next.last() == c);
            lemma_value_prefix(run, (j - i + 1) as nat);
        }
        let d: u64 = (c as u32 - 48) as u64;
        let grown = match acc.checked_mul(10) {
            Some(m) => m.checked_add(d),
            None => None,
        };
        match grown {
            Some(v) => {
                acc = v;
            },
            None => {
                proof {
                    assert(d == digit_of(c));
                    assert(digits_value(next) == acc * 10 + digit_of(c));
                    assert(acc * 10 + d > u64::MAX);
                    assert(digits_value(run) >= digits_value(next));
                    assert(span(s, Class::Digit) == e - i);
                }
                return None;
            },
        }
        j += 1;
    }
    assert(run.take(e - i) =~= run);
    Some((acc, e))
}

/// The name at `i`, if there is one, and the position behind it. `src` is
/// the text that `cs` holds the characters of.
pub fn ident(src: &str, cs: &Vec<char>, i: usize) -> (r: Option<(String, usize)>)
    requires
        cs@ == src@,
        i <= cs.len(),
    ensures
        match r {
            Some((name, j)) => i < j <= cs.len() && spec_ident(cs@.skip(i as int)) == Some(
                (name@, (j - i) as nat),
            ),
            None => spec_ident(cs@.skip(i as int)) is None,
        },
{
    let e = scan(cs, i, Class::Word);
    if e == i || !starts_word(cs[i]) {
        return None;
    }
    let name = src.substring_char(i, e).to_owned();
    assert(name@ =~= cs@.skip(i as int).take(e - i));
    Some((name, e))
}

/// The one-character text of a digit.
pub fn digit_str(d: u64) -> (r: &'static str)
    requires
        d < 10,
    ensures
        r@ == seq![digit_char(d as int)],
{
    proof {
        reveal_strlit("0");
        reveal_strlit("1");
        reveal_strlit("2");
        reveal_strlit("3");
        reveal_strlit("4");
        reveal_strlit("5");
        reveal_strlit("6");
        reveal_strlit("7");
        reveal_strlit("8");
        reveal_strlit("9");
    }
    let r = if d == 0 {
        "0"
    } else if d == 1 {
        "1"
    } else if d == 2 {
        "2"
    } else if d == 3 {
        "3"
    } else if d == 4 {
        "4"
    } else if d == 5 {
        "5"
    } else if d == 6 {
        "6"
    } else if d == 7 {
        "7"
    } else if d == 8 {
        "8"
    } else {
        "9"
    };
    assert(r@ =~= seq![digit_char(d as int)]);
    r
}

/// Writes the decimal digits of `n` behind what `out` holds.
pub fn write_number(out: &mut String, n: u64)
    ensures
        final(out)@ == old(out)@ + digits(n as int),
    decreases n,
{
    if n >= 10 {
        write_number(out, n / 10);
    }
    out.append(digit_str(n % 10));
    proof {
        if n >= 10 {
            assert(old(out)@ + digits(n as int / 10) + seq![digit_char(n as int % 10)] =~= old(
                out,
            )@ + digits(n as int));
        }
    }
}

} // verus!
