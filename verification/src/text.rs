//! Decimal rendering of numbers and text assembly for operator output.

use vstd::prelude::*;

verus! {

/// The ASCII digit for `d` (`d < 10`).
pub open spec fn digit_char(d: nat) -> char {
    (48 + d) as char
}

/// The decimal digits of `n`, most significant first, without leading zeros.
pub open spec fn spec_decimal(n: nat) -> Seq<char>
    decreases n,
{
    if n < 10 {
        seq![digit_char(n)]
    } else {
        spec_decimal(n / 10).push(digit_char(n % 10))
    }
}

/// The one-character text of a decimal digit.
pub fn digit_str(d: u64) -> (r: &'static str)
    requires
        d < 10,
    ensures
        r@ == seq![digit_char(d as nat)],
{
    proof {
        reveal_strlit("0");
        reveal_strlit("1");
        reveal_strlit("2");
        reveal_strlit("3");
        reveal_strlit("4");
        reveal_strlit("5");
        reveal_strlit("6");
        reveal_strlit("7");
        reveal_strlit("8");
        reveal_strlit("9");
    }
    let r = if d == 0 {
        "0"
    } else if d == 1 {
        "1"
    } else if d == 2 {
        "2"
    } else if d == 3 {
        "3"
    } else if d == 4 {
        "4"
    } else if d == 5 {
        "5"
    } else if d == 6 {
        "6"
    } else if d == 7 {
        "7"
    } else if d == 8 {
        "8"
    } else {
        "9"
    };
    assert(r@ =~= seq![digit_char(d as nat)]);
    r
}

/// Appends the decimal digits of `n`.
pub fn push_decimal(out: &mut String, n: u64)
    ensures
        final(out)@ == old(out)@ + spec_decimal(n as nat),
    decreases n,
{
    if n < 10 {
        out.append(digit_str(n));
    } else {
        push_decimal(out, n / 10);
        out.append(digit_str(n % 10));
        assert(final(out)@ =~= old(out)@ + spec_decimal(n as nat));
    }
}

/// The decimal rendering of `n`.
pub fn decimal(n: u64) -> (r: String)
    ensures
        r@ == spec_decimal(n as nat),
{
    let mut s = String::new();
    push_decimal(&mut s, n);
    assert(s@ =~= spec_decimal(n as nat));
    s
}

/// Appends `s`.
pub fn push_str(out: &mut String, s: &str)
    ensures
        final(out)@ == old(out)@ + s@,
{
    out.append(s);
}

/// Whether `c` is an ASCII decimal digit.
pub open spec fn is_digit(c: char) -> bool {
    '0' <= c && c <= '9'
}

/// Whether every character of `cs` is a decimal digit.
pub open spec fn all_digits(cs: Seq<char>) -> bool {
    forall|i: int| 0 <= i < cs.len() ==> is_digit(#[trigger] cs[i])
}

/// The number that the decimal digits `cs` spell.
pub open spec fn dec_value(cs: Seq<char>) -> nat
    decreases cs.len(),
{
    if cs.len() == 0 {
        0
    } else {
        dec_value(cs.drop_last()) * 10 + ((cs.last() as nat) - 48) as nat
    }
}

/// Decimal text of an unsigned integer at most `max`, as std's integer
/// parsing reads it: an optional leading `+`, then one or more digits
/// (leading zeros allowed).
pub open spec fn spec_parse_unsigned(cs: Seq<char>, max: nat) -> Option<nat> {
    let digits = if cs.len() > 0 && cs[0] == '+' {
        cs.skip(1)
    } else {
        cs
    };
    if digits.len() == 0 || !all_digits(digits) || dec_value(digits) > max {
        None
    } else {
        Some(dec_value(digits))
    }
}

/// The index of the first `c` in `cs`, or -1.
pub open spec fn first_index(cs: Seq<char>, c: char) -> int
    decreases cs.len(),
{
    if cs.len() == 0 {
        -1
    } else if cs[0] == c {
        0
    } else {
        let r = first_index(cs.skip(1), c);
        if r < 0 {
            -1
        } else {
            r + 1
        }
    }
}

/// What `first_index` gives, stated by position.
pub proof fn lemma_first_index(cs: Seq<char>, c: char, i: int)
    requires
        0 <= i <= cs.len(),
        forall|j: int| 0 <= j < i ==> cs[j] != c,
        i == cs.len() || cs[i] == c,
    ensures
        first_index(cs, c) == (if i == cs.len() { -1 } else { i }),
    decreases cs.len(),
{
    if cs.len() > 0 && i > 0 {
        assert forall|j: int| 0 <= j < i - 1 implies cs.skip(1)[j] != c by {
            assert(cs.skip(1)[j] == cs[j + 1]);
        }
        lemma_first_index(cs.skip(1), c, i - 1);
    }
}

/// The decimal text of `n` is a non-empty run of digits that spells `n`.
pub proof fn lemma_decimal_digits(n: nat)
    ensures
        spec_decimal(n).len() >= 1,
        all_digits(spec_decimal(n)),
        dec_value(spec_decimal(n)) == n,
    decreases n,
{
    let d = spec_decimal(n);
    if n < 10 {
        assert(d.drop_last() =~= Seq::<char>::empty());
        assert(d.last() as nat == 48 + n);
        assert(dec_value(d.drop_last()) == 0);
        assert(dec_value(d) == dec_value(d.drop_last()) * 10 + ((d.last() as nat) - 48) as nat);
    } else {
        lemma_decimal_digits(n / 10);
        let h = spec_decimal(n / 10);
        assert(d.drop_last() =~= h);
        assert(d.last() as nat == 48 + n % 10);
        assert(dec_value(d) == dec_value(h) * 10 + ((d.last() as nat) - 48) as nat);
        assert forall|i: int| 0 <= i < d.len() implies is_digit(#[trigger] d[i]) by {
            if i < h.len() {
                assert(d[i] == h[i]);
            }
        }
    }
}

/// The characters of a string.
pub fn chars_of(s: &str) -> (r: Vec<char>)
    ensures
        r@ == s@,
{
    let n = s.unicode_len();
    let mut out: Vec<char> = Vec::new();
    let mut i: usize = 0;
    while i < n
        invariant
            i <= n,
            n == s@.len(),
            out@ == s@.take(i as int),
        decreases n - i,
    {
        out.push(s.get_char(i));
        i = i + 1;
        assert(out@ =~= s@.take(i as int));
    }
    assert(s@.take(n as int) =~= s@);
    out
}

/// Whether two strings are equal.
pub fn str_equal(a: &str, b: &str) -> (r: bool)
    ensures
        r == (a@ == b@),
{
    let ca = chars_of(a);
    let cb = chars_of(b);
    if ca.len() != cb.len() {
        assert(ca@.len() != cb@.len());
        return false;
    }
    let mut i: usize = 0;
    while i < ca.len()
        invariant
            i <= ca@.len(),
            ca@.len() == cb@.len(),
            ca@ == a@,
            cb@ == b@,
            forall|j: int| 0 <= j < i ==> ca@[j] == cb@[j],
        decreases ca@.len() - i,
    {
        if ca[i] != cb[i] {
            assert(ca@[i as int] != cb@[i as int]);
            return false;
        }
        i = i + 1;
    }
    assert(ca@ =~= cb@);
    true
}

/// The position of the first `c` in `cs`.
pub fn find_char(cs: &[char], c: char) -> (r: Option<usize>)
    ensures
        match r {
            Some(i) => i < cs@.len() && first_index(cs@, c) == i,
            None => first_index(cs@, c) == -1,
        },
{
    let mut i: usize = 0;
    while i < cs.len()
        invariant
            i <= cs@.len(),
            forall|j: int| 0 <= j < i ==> cs@[j] != c,
        decreases cs@.len() - i,
    {
        if cs[i] == c {
            proof {
                lemma_first_index(cs@, c, i as int);
            }
            return Some(i);
        }
        i = i + 1;
    }
    proof {
        lemma_first_index(cs@, c, cs@.len() as int);
    }
    None
}

/// Reads an unsigned decimal at most `max`, as `spec_parse_unsigned` says.
pub fn parse_unsigned(cs: &[char], max: u64) -> (r: Option<u64>)
    requires
        max < 0x1_0000_0000,
    ensures
        match spec_parse_unsigned(cs@, max as nat) {
            Some(v) => r == Some(v as u64),
            None => r is None,
        },
{
    let start: usize = if cs.len() > 0 && cs[0] == '+' {
        1
    } else {
        0
    };
    let ghost digits = cs@.skip(start as int);
    assert(digits =~= if cs@.len() > 0 && cs@[0] == '+' {
        cs@.skip(1)
    } else {
        cs@
    });
    if cs.len() - start == 0 {
        return None;
    }
    let mut i: usize = start;
    while i < cs.len()
        invariant
            start <= i <= cs@.len(),
            digits == cs@.skip(start as int),
            digits == (if cs@.len() > 0 && cs@[0] == '+' {
                cs@.skip(1)
            } else {
                cs@
            }),
            forall|j: int| start <= j < i ==> is_digit(#[trigger] cs@[j]),
        decreases cs@.len() - i,
    {
        if !(cs[i] >= '0' && cs[i] <= '9') {
            assert(digits[i - start] == cs@[i as int]);
            assert(!is_digit(digits[i - start]));
            return None;
        }
        i = i + 1;
    }
    assert(all_digits(digits)) by {
        assert forall|j: int| 0 <= j < digits.len() implies is_digit(#[trigger] digits[j]) by {
            assert(digits[j] == cs@[j + start]);
        }
    }
    assert forall|j: int| start <= j < cs@.len() implies is_digit(#[trigger] cs@[j]) by {
        assert(cs@[j] == digits[j - start]);
    }
    let mut acc: u64 = 0;
    let mut k: usize = start;
    assert(digits.take(0) =~= Seq::<char>::empty());
    while k < cs.len()
        invariant
            start <= k <= cs@.len(),
            digits == cs@.skip(start as int),
            digits == (if cs@.len() > 0 && cs@[0] == '+' {
                cs@.skip(1)
            } else {
                cs@
            }),
            digits.len() > 0,
            all_digits(digits),
            forall|j: int| start <= j < cs@.len() ==> is_digit(#[trigger] cs@[j]),
            max < 0x1_0000_0000,
            acc as nat == if dec_value(digits.take(k - start)) <= max {
                dec_value(digits.take(k - start))
            } else {
                max as nat + 1
            },
        decreases cs@.len() - k,
    {
        let d = (cs[k] as u32 - 48) as u64;
        proof {
            let t = digits.take(k - start + 1);
            assert(t.drop_last() =~= digits.take(k - start));
            assert(t.last() == cs@[k as int]);
            assert(is_digit(digits[k - start]));
        }
        if acc > max {
            acc = max + 1;
        } else {
            let v = acc * 10 + d;
            acc = if v > max {
                max + 1
            } else {
                v
            };
        }
        k = k + 1;
    }
    assert(digits.take(k - start) =~= digits);
    if acc > max {
        None
    } else {
        Some(acc)
    }
}

/// `cs` split at its first `c`: the text before it and the text after it.
pub open spec fn spec_split_once(cs: Seq<char>, c: char) -> Option<(Seq<char>, Seq<char>)> {
    let i = first_index(cs, c);
    if i < 0 {
        None
    } else {
        Some((cs.take(i), cs.skip(i + 1)))
    }
}

/// The characters of `cs` from `a` up to `b`.
pub fn sub_chars(cs: &[char], a: usize, b: usize) -> (r: Vec<char>)
    requires
        a <= b <= cs@.len(),
    ensures
        r@ == cs@.subrange(a as int, b as int),
{
    let mut out: Vec<char> = Vec::new();
    let mut i: usize = a;
    while i < b
        invariant
            a <= i <= b <= cs@.len(),
            out@ == cs@.subrange(a as int, i as int),
        decreases b - i,
    {
        out.push(cs[i]);
        i = i + 1;
        assert(out@ =~= cs@.subrange(a as int, i as int));
    }
    out
}

/// Splits `cs` at its first `c`, as `spec_split_once` says.
pub fn split_once(cs: &[char], c: char) -> (r: Option<(Vec<char>, Vec<char>)>)
    ensures
        match r {
            Some((x, y)) => spec_split_once(cs@, c) == Some((x@, y@)),
            None => spec_split_once(cs@, c) is None,
        },
{
    match find_char(cs, c) {
        None => None,
        Some(i) => {
            let n = cs.len();
            assert(i < n);
            let x = sub_chars(cs, 0, i);
            let y = sub_chars(cs, i + 1, n);
            assert(x@ =~= cs@.take(i as int));
            assert(y@ =~= cs@.skip(i + 1));
            Some((x, y))
        },
    }
}

/// `n` copies of `c`.
pub open spec fn repeat_char(c: char, n: nat) -> Seq<char> {
    Seq::new(n, |i: int| c)
}

/// `s` padded with spaces on the right to at least `w` characters (as std's
/// `{:<w}` does).
pub open spec fn pad_right(s: Seq<char>, w: nat) -> Seq<char> {
    if s.len() >= w {
        s
    } else {
        s + repeat_char(' ', (w - s.len()) as nat)
    }
}

/// `s` padded with spaces on the left to at least `w` characters (as std's
/// `{:>w}` does).
pub open spec fn pad_left(s: Seq<char>, w: nat) -> Seq<char> {
    if s.len() >= w {
        s
    } else {
        repeat_char(' ', (w - s.len()) as nat) + s
    }
}

/// Appends `n` copies of the one-character text `c`.
pub fn push_repeat(out: &mut String, c: &str, n: usize)
    requires
        c@.len() == 1,
    ensures
        final(out)@ == old(out)@ + repeat_char(c@[0], n as nat),
{
    let mut i: usize = 0;
    while i < n
        invariant
            i <= n,
            c@.len() == 1,
            out@ == old(out)@ + repeat_char(c@[0], i as nat),
        decreases n - i,
    {
        out.append(c);
        i = i + 1;
        assert(out@ =~= old(out)@ + repeat_char(c@[0], i as nat));
    }
}

/// Appends `s` padded on the right to `w` characters.
pub fn push_pad_right(out: &mut String, s: &str, w: usize)
    ensures
        final(out)@ == old(out)@ + pad_right(s@, w as nat),
{
    proof {
        reveal_strlit(" ");
    }
    let n = s.unicode_len();
    out.append(s);
    if n < w {
        push_repeat(out, " ", w - n);
    }
    assert(final(out)@ =~= old(out)@ + pad_right(s@, w as nat));
}

/// Appends `s` padded on the left to `w` characters.
pub fn push_pad_left(out: &mut String, s: &str, w: usize)
    ensures
        final(out)@ == old(out)@ + pad_left(s@, w as nat),
{
    proof {
        reveal_strlit(" ");
    }
    let n = s.unicode_len();
    if n < w {
        push_repeat(out, " ", w - n);
    }
    out.append(s);
    assert(final(out)@ =~= old(out)@ + pad_left(s@, w as nat));
}

/// Whether `c` is white space as Unicode defines it (`char::is_whitespace`).
pub open spec fn is_ws(c: char) -> bool {
    ('\t' <= c && c <= '\r') || c == ' ' || c == '\u{85}' || c == '\u{a0}' || c == '\u{1680}' || (
    '\u{2000}' <= c && c <= '\u{200a}') || c == '\u{2028}' || c == '\u{2029}' || c == '\u{202f}'
        || c == '\u{205f}' || c == '\u{3000}'
}

/// Whether `c` is white space.
pub fn is_whitespace(c: char) -> (r: bool)
    ensures
        r == is_ws(c),
{
    ('\t' <= c && c <= '\r') || c == ' ' || c == '\u{85}' || c == '\u{a0}' || c == '\u{1680}' || (
    '\u{2000}' <= c && c <= '\u{200a}') || c == '\u{2028}' || c == '\u{2029}' || c == '\u{202f}'
        || c == '\u{205f}' || c == '\u{3000}'
}

/// Reading `cs` left to right: the words completed so far and the word in
/// progress.
pub open spec fn words_acc(cs: Seq<char>) -> (Seq<Seq<char>>, Seq<char>)
    decreases cs.len(),
{
    if cs.len() == 0 {
        (Seq::empty(), Seq::empty())
    } else {
        let (ws, cur) = words_acc(cs.drop_last());
        if is_ws(cs.last()) {
            if cur.len() > 0 {
                (ws.push(cur), Seq::empty())
            } else {
                (ws, Seq::empty())
            }
        } else {
            (ws, cur.push(cs.last()))
        }
    }
}

/// The maximal runs of non-white-space characters of `cs`, in order (as
/// `str::split_whitespace` gives them).
pub open spec fn spec_words(cs: Seq<char>) -> Seq<Seq<char>> {
    let (ws, cur) = words_acc(cs);
    if cur.len() > 0 {
        ws.push(cur)
    } else {
        ws
    }
}

/// The words of `s`, each as the text it spans.
pub fn split_whitespace<'a>(s: &'a str) -> (r: Vec<&'a str>)
    ensures
        r@.len() == spec_words(s@).len(),
        forall|i: int| 0 <= i < r@.len() ==> (#[trigger] r@[i])@ == spec_words(s@)[i],
{
    let n = s.unicode_len();
    let mut out: Vec<&'a str> = Vec::new();
    let mut start: usize = 0;
    let mut in_word = false;
    let mut i: usize = 0;
    while i < n
        invariant
            i <= n,
            n == s@.len(),
            start <= i,
            ({
                let (ws, cur) = words_acc(s@.take(i as int));
                &&& out@.len() == ws.len()
                &&& forall|j: int| 0 <= j < out@.len() ==> (#[trigger] out@[j])@ == ws[j]
                &&& (in_word ==> cur == s@.subrange(start as int, i as int) && cur.len() > 0)
                &&& (!in_word ==> cur.len() == 0)
            }),
        decreases n - i,
    {
        let c = s.get_char(i);
        proof {
            assert(s@.take(i + 1).drop_last() =~= s@.take(i as int));
            assert(s@.take(i + 1).last() == c);
        }
        if is_whitespace(c) {
            if in_word {
                let w = s.substring_char(start, i);
                out.push(w);
                in_word = false;
            }
        } else {
            if !in_word {
                start = i;
                in_word = true;
                assert(s@.subrange(start as int, i + 1) =~= seq![c]);
            } else {
                assert(s@.subrange(start as int, i + 1) =~= s@.subrange(start as int, i as int).push(c));
            }
        }
        i = i + 1;
    }
    assert(s@.take(n as int) =~= s@);
    if in_word {
        let w = s.substring_char(start, n);
        out.push(w);
    }
    out
}

} // verus!
