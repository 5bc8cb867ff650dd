use vstd::arithmetic::div_mod::lemma_fundamental_div_mod;
use vstd::prelude::*;
use vstd::string::is_ascii;

verus! {

/// The white space that separates tokens on a protocol line.
pub open spec fn is_space(c: char) -> bool {
    c == ' ' || c == '\t' || c == '\n' || c == '\r' || c == '\x0B' || c == '\x0C'
}

/// The maximal runs of non-space characters of `s`, in order. Read from the
/// end: a space adds nothing, a character after a space starts a new token,
/// a character after a non-space extends the last token.
pub open spec fn tokens(s: Seq<char>) -> Seq<Seq<char>>
    decreases s.len(),
{
    if s.len() == 0 {
        Seq::empty()
    } else {
        let init = s.drop_last();
        let c = s.last();
        let t = tokens(init);
        if is_space(c) {
            t
        } else if init.len() > 0 && !is_space(init.last()) {
            t.update(t.len() - 1, t.last().push(c))
        } else {
            t.push(seq![c])
        }
    }
}

/// `s` is a word: at least one character and no white space.
pub open spec fn is_word(s: Seq<char>) -> bool {
    s.len() > 0 && forall|i: int| 0 <= i < s.len() ==> !is_space(#[trigger] s[i])
}

pub open spec fn is_digit(c: char) -> bool {
    '0' <= c <= '9'
}

pub open spec fn digit_of(c: char) -> nat {
    (c as u32 - '0' as u32) as nat
}

/// The character of the decimal digit `d`.
pub open spec fn digit_char(d: nat) -> char {
    if d == 0 {
        '0'
    } else if d == 1 {
        '1'
    } else if d == 2 {
        '2'
    } else if d == 3 {
        '3'
    } else if d == 4 {
        '4'
    } else if d == 5 {
        '5'
    } else if d == 6 {
        '6'
    } else if d == 7 {
        '7'
    } else if d == 8 {
        '8'
    } else {
        '9'
    }
}

pub open spec fn all_digits(s: Seq<char>) -> bool {
    forall|i: int| 0 <= i < s.len() ==> is_digit(#[trigger] s[i])
}

/// The value of a string of decimal digits.
pub open spec fn digits_value(s: Seq<char>) -> nat
    decreases s.len(),
{
    if s.len() == 0 {
        0
    } else {
        digits_value(s.drop_last()) * 10 + digit_of(s.last())
    }
}

/// The number that `s` writes as an optional `+` and one or more decimal
/// digits, if it has that form.
pub open spec fn unsigned_text(s: Seq<char>) -> Option<nat> {
    let d = if s.len() > 0 && s[0] == '+' {
        s.drop_first()
    } else {
        s
    };
    if d.len() > 0 && all_digits(d) {
        Some(digits_value(d))
    } else {
        None
    }
}

/// The unsigned number written by `s`, if it has that form and is at most
/// `max`.
pub open spec fn unsigned_at_most(s: Seq<char>, max: nat) -> Option<nat> {
    match unsigned_text(s) {
        Some(v) => if v <= max {
            Some(v)
        } else {
            None
        },
        None => None,
    }
}

/// The number that `s` writes as an optional sign and one or more decimal
/// digits, if it has that form and fits in an `i64`.
pub open spec fn i64_text(s: Seq<char>) -> Option<int> {
    if s.len() > 0 && s[0] == '-' {
        let d = s.drop_first();
        if d.len() > 0 && all_digits(d) && digits_value(d) <= 0x8000_0000_0000_0000 {
            Some(-digits_value(d))
        } else {
            None
        }
    } else {
        match unsigned_at_most(s, 0x7fff_ffff_ffff_ffff) {
            Some(v) => Some(v as int),
            None => None,
        }
    }
}

/// The shortest decimal writing of `n`.
pub open spec fn decimal(n: nat) -> Seq<char>
    decreases n,
{
    if n < 10 {
        seq![digit_char(n)]
    } else {
        decimal(n / 10).push(digit_char(n % 10))
    }
}

/// The characters of `s`. An ASCII line, the protocol's own text, is read
/// byte by byte; any other goes character by character.
pub fn chars_of(s: &str) -> (r: Vec<char>)
    ensures
        r@ == s@,
{
    let n = s.unicode_len();
    let ascii = s.is_ascii();
    let mut r: Vec<char> = Vec::new();
    let mut i: usize = 0;
    while i < n
        invariant
            n == s@.len(),
            ascii == is_ascii(s),
            i <= n,
            r@ == s@.take(i as int),
        decreases n - i,
    {
        let c = if ascii {
            let b = s.get_ascii(i);
            proof {
                let sc = s@[i as int];
                assert('\0' <= sc <= '\u{7f}');
                assert(sc as u8 == b);
                assert((sc as u32) < 128);
                assert((b as char) == sc);
            }
            b as char
        } else {
            s.get_char(i)
        };
        r.push(c);
        i += 1;
        assert(r@ =~= s@.take(i as int));
    }
    assert(r@ =~= s@);
    r
}

/// The tokens of a vector of tokens, as character sequences.
pub open spec fn texts(v: Seq<Vec<char>>) -> Seq<Seq<char>> {
    v.map_values(|t: Vec<char>| t@)
}

pub fn is_space_char(c: char) -> (r: bool)
    ensures
        r == is_space(c),
{
    c == ' ' || c == '\t' || c == '\n' || c == '\r' || c == '\x0B' || c == '\x0C'
}

/// Split `s` into its white-space separated tokens.
pub fn split_tokens(s: &Vec<char>) -> (r: Vec<Vec<char>>)
    ensures
        texts(r@) == tokens(s@),
{
    let mut r: Vec<Vec<char>> = Vec::new();
    let mut i: usize = 0;
    while i < s.len()
        invariant
            i <= s.len(),
            texts(r@) == tokens(s@.take(i as int)),
            i > 0 && !is_space(s@[i - 1]) ==> r.len() > 0,
        decreases s.len() - i,
    {
        let c = s[i];
        let ghost before = texts(r@);
        assert(s@.take(i + 1).drop_last() =~= s@.take(i as int));
        if is_space_char(c) {
        } else if i > 0 && !is_space_char(s[i - 1]) {
            let last = r.len() - 1;
            let mut word: Vec<char> = Vec::new();
            std::mem::swap(&mut word, &mut r[last]);
            word.push(c);
            std::mem::swap(&mut word, &mut r[last]);
            assert(texts(r@) =~= before.update(last as int, before[last as int].push(c)));
        } else {
            let mut word: Vec<char> = Vec::new();
            word.push(c);
            r.push(word);
            assert(texts(r@) =~= before.push(seq![c]));
        }
        i += 1;
    }
    assert(s@.take(s.len() as int) =~= s@);
    r
}

/// Whether the characters `t` spell exactly `w`.
pub fn same_text(t: &Vec<char>, w: &str) -> (r: bool)
    ensures
        r == (t@ == w@),
{
    let n = w.unicode_len();
    if t.len() != n {
        return false;
    }
    let mut i: usize = 0;
    while i < n
        invariant
            n == w@.len(),
            n == t.len(),
            i <= n,
            t@.take(i as int) == w@.take(i as int),
        decreases n - i,
    {
        if t[i] != w.get_char(i) {
            assert(t@[i as int] != w@[i as int]);
            return false;
        }
        i += 1;
        assert forall|j: int| 0 <= j < i implies t@.take(i as int)[j] == w@.take(i as int)[j] by {
            if j < i - 1 {
                assert(t@.take(i - 1)[j] == w@.take(i - 1)[j]);
            }
        }
        assert(t@.take(i as int) =~= w@.take(i as int));
    }
    assert(t@ =~= w@) by {
        assert(t@.take(n as int) =~= t@);
        assert(w@.take(n as int) =~= w@);
    }
    true
}

/// Read the decimal digits `t[start..]` into a value, giving `None` when
/// one is not a digit or the value exceeds `max`.
fn digits_at_most(t: &Vec<char>, start: usize, max: u64) -> (r: Option<u64>)
    requires
        start < t.len(),
    ensures
        ({
            let d = t@.skip(start as int);
            match r {
                Some(v) => all_digits(d) && digits_value(d) == v && v <= max,
                None => !all_digits(d) || digits_value(d) > max,
            }
        }),
{
    let ghost d = t@.skip(start as int);
    let mut i: usize = start;
    let mut acc: u64 = 0;
    let mut over = false;
    while i < t.len()
        invariant
            start <= i <= t.len(),
            d == t@.skip(start as int),
            all_digits(t@.subrange(start as int, i as int)),
            !over ==> acc == digits_value(t@.subrange(start as int, i as int)) && acc <= max,
            over ==> digits_value(t@.subrange(start as int, i as int)) > max,
        decreases t.len() - i,
    {
        let c = t[i];
        if !('0' <= c && c <= '9') {
            assert(d[i - start] == c);
            return None;
        }
        let dv = (c as u32 - '0' as u32) as u64;
        let ghost prev = t@.subrange(start as int, i as int);
        let ghost next = t@.subrange(start as int, i + 1);
        assert(next.drop_last() =~= prev);
        assert(digits_value(next) == digits_value(prev) * 10 + dv);
        if !over {
            let wide = acc as u128 * 10 + dv as u128;
            if wide > max as u128 {
                over = true;
            } else {
                acc = wide as u64;
            }
        }
        i += 1;
    }
    assert(t@.subrange(start as int, t.len() as int) =~= d);
    if over {
        None
    } else {
        Some(acc)
    }
}

/// Parse an unsigned decimal number of at most `max`: an optional `+`
/// followed by one or more digits.
pub fn parse_unsigned(t: &Vec<char>, max: u64) -> (r: Option<u64>)
    ensures
        r is Some == unsigned_at_most(t@, max as nat) is Some,
        r is Some ==> r->0 == unsigned_at_most(t@, max as nat)->0,
{
    let start: usize = if t.len() > 0 && t[0] == '+' {
        1
    } else {
        0
    };
    assert(t@.skip(start as int) =~= if t@.len() > 0 && t@[0] == '+' {
        t@.drop_first()
    } else {
        t@
    });
    if start >= t.len() {
        return None;
    }
    digits_at_most(t, start, max)
}

/// Parse a decimal `i64`: an optional `+` or `-` followed by one or more
/// digits, within the range of the type.
pub fn parse_i64(t: &Vec<char>) -> (r: Option<i64>)
    ensures
        r is Some == i64_text(t@) is Some,
        r is Some ==> r->0 == i64_text(t@)->0,
{
    if t.len() > 0 && t[0] == '-' {
        assert(t@.skip(1) =~= t@.drop_first());
        if t.len() == 1 {
            return None;
        }
        match digits_at_most(t, 1, 0x8000_0000_0000_0000) {
            Some(m) => {
                if m == 0x8000_0000_0000_0000 {
                    Some(i64::MIN)
                } else {
                    Some(-(m as i64))
                }
            },
            None => None,
        }
    } else {
        match parse_unsigned(t, 0x7fff_ffff_ffff_ffff) {
            Some(v) => Some(v as i64),
            None => None,
        }
    }
}

/// The one-character text of the decimal digit `d`.
fn digit_text(d: u64) -> (r: &'static str)
    requires
        d < 10,
    ensures
        r@ == seq![digit_char(d as nat)],
{
    if d == 0 {
        proof { reveal_strlit("0"); }
        "0"
    } else if d == 1 {
        proof { reveal_strlit("1"); }
        "1"
    } else if d == 2 {
        proof { reveal_strlit("2"); }
        "2"
    } else if d == 3 {
        proof { reveal_strlit("3"); }
        "3"
    } else if d == 4 {
        proof { reveal_strlit("4"); }
        "4"
    } else if d == 5 {
        proof { reveal_strlit("5"); }
        "5"
    } else if d == 6 {
        proof { reveal_strlit("6"); }
        "6"
    } else if d == 7 {
        proof { reveal_strlit("7"); }
        "7"
    } else if d == 8 {
        proof { reveal_strlit("8"); }
        "8"
    } else {
        proof { reveal_strlit("9"); }
        "9"
    }
}

/// Append the decimal writing of `n` to `out`.
pub fn push_decimal(out: &mut String, n: u64)
    ensures
        final(out)@ == old(out)@ + decimal(n as nat),
    decreases n,
{
    if n >= 10 {
        push_decimal(out, n / 10);
    }
    out.append(digit_text(n % 10));
    assert(out@ =~= old(out)@ + decimal(n as nat));
}

proof fn lemma_digit_char(d: nat)
    requires
        d < 10,
    ensures
        is_digit(digit_char(d)),
        digit_of(digit_char(d)) == d,
        !is_space(digit_char(d)),
        digit_char(d) != '+',
{
}

/// The decimal writing of `n` is a word of digits that reads back as `n`.
pub proof fn lemma_decimal(n: nat)
    ensures
        is_word(decimal(n)),
        all_digits(decimal(n)),
        digits_value(decimal(n)) == n,
        decimal(n)[0] != '+',
        decimal(n)[0] != '-',
    decreases n,
{
    if n < 10 {
        lemma_digit_char(n);
        assert(decimal(n).drop_last() =~= Seq::<char>::empty());
        assert(digits_value(Seq::<char>::empty()) == 0);
        assert(digits_value(decimal(n)) == n);
    } else {
        lemma_decimal(n / 10);
        lemma_digit_char(n % 10);
        let d = decimal(n);
        assert(d.drop_last() =~= decimal(n / 10));
        assert(forall|i: int| 0 <= i < d.len() - 1 ==> d[i] == decimal(n / 10)[i]);
        assert(digits_value(d) == (n / 10) * 10 + n % 10);
        lemma_fundamental_div_mod(n as int, 10);
        assert(digits_value(d) == n);
    }
}

/// Any number up to `max` written in decimal parses back to itself.
pub proof fn lemma_decimal_round_trip(n: nat, max: nat)
    requires
        n <= max,
    ensures
        unsigned_at_most(decimal(n), max) == Some(n),
{
    lemma_decimal(n);
}

/// A trailing space adds no token.
pub proof fn lemma_tokens_space(a: Seq<char>, c: char)
    requires
        is_space(c),
    ensures
        tokens(a.push(c)) == tokens(a),
{
    assert(a.push(c).drop_last() =~= a);
}

/// A word written after a space (or at the start) is one more token.
pub proof fn lemma_tokens_word(a: Seq<char>, w: Seq<char>)
    requires
        a.len() == 0 || is_space(a.last()),
        is_word(w),
    ensures
        tokens(a + w) == tokens(a).push(w),
    decreases w.len(),
{
    let s = a + w;
    let c = w.last();
    assert(s.drop_last() =~= a + w.drop_last());
    assert(!is_space(w[w.len() - 1]));
    if w.len() == 1 {
        assert(w =~= seq![c]);
        assert(s.drop_last() =~= a);
    } else {
        let v = w.drop_last();
        assert(!is_space(w[w.len() - 2]));
        assert(is_word(v)) by {
            assert(forall|i: int| 0 <= i < v.len() ==> v[i] == w[i]);
        }
        lemma_tokens_word(a, v);
        assert(v.push(c) =~= w);
        assert(tokens(a).push(v).update(tokens(a).len() as int, v.push(c)) =~= tokens(a).push(w));
    }
}

} // verus!
