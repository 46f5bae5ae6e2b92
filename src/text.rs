use vstd::prelude::*;

verus! {

/// What `str::to_lowercase` makes of a text.
pub uninterp spec fn lowercase_of(s: Seq<char>) -> Seq<char>;

/// Relies on `String::push`: appends one character at the end.
#[verifier::external_body]
pub fn push_char(s: &mut String, c: char)
    ensures
        final(s)@ == old(s)@.push(c),
{
    s.push(c);
}

/// Relies on `str::to_lowercase`: the result depends on the characters alone.
#[verifier::external_body]
pub fn to_lower(s: &str) -> (r: String)
    ensures
        r@ == lowercase_of(s@),
{
    s.to_lowercase()
}

/// The characters of `s`, in order.
pub fn chars_of(s: &str) -> (r: Vec<char>)
    ensures
        r@ == s@,
{
    let mut r: Vec<char> = Vec::new();
    for c in it: s.chars()
        invariant
            r@ == it.seq().take(it.index() as int),
    {
        r.push(c);
    }
    r
}

/// A string holding the characters of `v`.
pub fn string_of(v: &Vec<char>) -> (r: String)
    ensures
        r@ == v@,
{
    let mut r = String::new();
    let mut i: usize = 0;
    while i < v.len()
        invariant
            i <= v.len(),
            r@ == v@.take(i as int),
        decreases v.len() - i,
    {
        push_char(&mut r, v[i]);
        i += 1;
        assert(v@.take(i as int) == v@.take(i - 1).push(v@[i - 1]));
    }
    assert(v@.take(v.len() as int) == v@);
    r
}

/// Appends the characters of `v` to `s`.
pub fn push_all(s: &mut String, v: &Vec<char>)
    ensures
        final(s)@ == old(s)@ + v@,
{
    let mut i: usize = 0;
    while i < v.len()
        invariant
            i <= v.len(),
            s@ == old(s)@ + v@.take(i as int),
        decreases v.len() - i,
    {
        push_char(s, v[i]);
        i += 1;
        assert(v@.take(i as int) == v@.take(i - 1).push(v@[i - 1]));
    }
    assert(v@.take(v.len() as int) == v@);
}

/// Whether two character sequences are equal.
pub fn same_chars(a: &Vec<char>, b: &Vec<char>) -> (r: bool)
    ensures
        r == (a@ == b@),
{
    if a.len() != b.len() {
        return false;
    }
    let mut i: usize = 0;
    while i < a.len()
        invariant
            i <= a.len(),
            a.len() == b.len(),
            forall|k: int| 0 <= k < i ==> a@[k] == b@[k],
        decreases a.len() - i,
    {
        if a[i] != b[i] {
            return false;
        }
        i += 1;
    }
    assert(a@ == b@);
    true
}

/// Whether `a` and `b` hold the same text.
pub fn same_text(a: &str, b: &str) -> (r: bool)
    ensures
        r == (a@ == b@),
{
    let x = chars_of(a);
    let y = chars_of(b);
    same_chars(&x, &y)
}

/// `prefix` stands at the start of `s`.
pub open spec fn starts_with(s: Seq<char>, prefix: Seq<char>) -> bool {
    prefix.len() <= s.len() && s.take(prefix.len() as int) == prefix
}

/// `needle` stands at position `at` of `s`.
pub open spec fn occurs_at(s: Seq<char>, needle: Seq<char>, at: int) -> bool {
    0 <= at && at + needle.len() <= s.len() && s.subrange(at, at + needle.len()) == needle
}

/// `needle` stands somewhere in `s`.
pub open spec fn contains(s: Seq<char>, needle: Seq<char>) -> bool {
    exists|at: int| occurs_at(s, needle, at)
}

/// Whether `needle` stands at position `at` of `s`.
pub fn matches_at(s: &Vec<char>, needle: &Vec<char>, at: usize) -> (r: bool)
    ensures
        r == occurs_at(s@, needle@, at as int),
{
    if at > s.len() || needle.len() > s.len() - at {
        return false;
    }
    let mut i: usize = 0;
    while i < needle.len()
        invariant
            i <= needle.len(),
            at + needle.len() <= s.len(),
            forall|k: int| 0 <= k < i ==> s@[at + k] == needle@[k],
        decreases needle.len() - i,
    {
        if s[at + i] != needle[i] {
            return false;
        }
        i += 1;
    }
    assert(s@.subrange(at as int, at + needle.len()) == needle@);
    true
}

/// Whether `s` begins with `prefix`.
pub fn has_prefix(s: &Vec<char>, prefix: &str) -> (r: bool)
    ensures
        r == starts_with(s@, prefix@),
{
    let p = chars_of(prefix);
    let r = matches_at(s, &p, 0);
    proof {
        if starts_with(s@, p@) {
            assert(s@.subrange(0, p@.len() as int) == s@.take(p@.len() as int));
        }
    }
    r
}

/// Whether `needle` stands somewhere in `s`.
pub fn has_infix(s: &Vec<char>, needle: &str) -> (r: bool)
    ensures
        r == contains(s@, needle@),
{
    let n = chars_of(needle);
    let mut at: usize = 0;
    while at < s.len()
        invariant
            n@ == needle@,
            at <= s.len(),
            forall|k: int| 0 <= k < at ==> !occurs_at(s@, n@, k),
        decreases s.len() - at,
    {
        if matches_at(s, &n, at) {
            return true;
        }
        at += 1;
    }
    if matches_at(s, &n, at) {
        return true;
    }
    assert forall|k: int| !occurs_at(s@, n@, k) by {
        if occurs_at(s@, n@, k) {
            assert(k < at);
        }
    }
    false
}

/// The decimal digit for `d`, below ten.
pub open spec fn digit_char(d: int) -> char {
    (('0' as int) + d) as char
}

/// `n` written in decimal.
pub open spec fn decimal(n: nat) -> Seq<char>
    decreases n,
{
    if n < 10 {
        seq![digit_char(n as int)]
    } else {
        decimal(n / 10).push(digit_char((n % 10) as int))
    }
}

/// `n` written in decimal.
pub fn decimal_chars(n: usize) -> (r: Vec<char>)
    ensures
        r@ == decimal(n as nat),
    decreases n,
{
    let d = (n % 10) as u32;
    let c = char_of_digit(d);
    if n < 10 {
        let mut v: Vec<char> = Vec::new();
        v.push(c);
        v
    } else {
        let mut v = decimal_chars(n / 10);
        v.push(c);
        v
    }
}

fn char_of_digit(d: u32) -> (r: char)
    requires
        d < 10,
    ensures
        r == digit_char(d as int),
{
    match d {
        0 => '0',
        1 => '1',
        2 => '2',
        3 => '3',
        4 => '4',
        5 => '5',
        6 => '6',
        7 => '7',
        8 => '8',
        _ => '9',
    }
}

/// Appends `n`, written in decimal, to `s`.
pub fn push_decimal(s: &mut String, n: usize)
    ensures
        final(s)@ == old(s)@ + decimal(n as nat),
{
    let v = decimal_chars(n);
    push_all(s, &v);
}

/// Appends the text `t` to `s`.
pub fn push_text(s: &mut String, t: &str)
    ensures
        final(s)@ == old(s)@ + t@,
{
    let v = chars_of(t);
    push_all(s, &v);
}

/// The characters with Unicode's White_Space property.
pub open spec fn is_white_space(c: char) -> bool {
    ('\u{9}' <= c <= '\u{d}') || c == ' ' || c == '\u{85}' || c == '\u{a0}' || c == '\u{1680}'
        || ('\u{2000}' <= c <= '\u{200a}') || c == '\u{2028}' || c == '\u{2029}' || c
        == '\u{202f}' || c == '\u{205f}' || c == '\u{3000}'
}

/// Whether `c` has Unicode's White_Space property.
pub fn white_space(c: char) -> (r: bool)
    ensures
        r == is_white_space(c),
{
    ('\u{9}' <= c && c <= '\u{d}') || c == ' ' || c == '\u{85}' || c == '\u{a0}' || c
        == '\u{1680}' || ('\u{2000}' <= c && c <= '\u{200a}') || c == '\u{2028}' || c
        == '\u{2029}' || c == '\u{202f}' || c == '\u{205f}' || c == '\u{3000}'
}

/// Position of the first character of `s` at or after `i` that is not white
/// space, or the length.
pub open spec fn skip_space(s: Seq<char>, i: int) -> int
    decreases s.len() - i,
{
    if i >= s.len() {
        s.len() as int
    } else if !is_white_space(s[i]) {
        i
    } else {
        skip_space(s, i + 1)
    }
}

/// Position of the first white space of `s` at or after `i`, or the length.
pub open spec fn skip_word(s: Seq<char>, i: int) -> int
    decreases s.len() - i,
{
    if i >= s.len() {
        s.len() as int
    } else if is_white_space(s[i]) {
        i
    } else {
        skip_word(s, i + 1)
    }
}

proof fn lemma_skip_space_is(s: Seq<char>, i: int, c: int)
    requires
        0 <= i <= c <= s.len(),
        forall|k: int| i <= k < c ==> is_white_space(#[trigger] s[k]),
        c < s.len() ==> !is_white_space(s[c]),
    ensures
        skip_space(s, i) == c,
    decreases c - i,
{
    if i < c {
        lemma_skip_space_is(s, i + 1, c);
    }
}

proof fn lemma_skip_word_is(s: Seq<char>, i: int, c: int)
    requires
        0 <= i <= c <= s.len(),
        forall|k: int| i <= k < c ==> !is_white_space(#[trigger] s[k]),
        c < s.len() ==> is_white_space(s[c]),
    ensures
        skip_word(s, i) == c,
    decreases c - i,
{
    if i < c {
        lemma_skip_word_is(s, i + 1, c);
    }
}

/// The words of `s`: its maximal runs without white space, in order.
pub open spec fn words(s: Seq<char>) -> Seq<Seq<char>>
    decreases s.len(),
{
    let a = skip_space(s, 0);
    let b = skip_word(s, a);
    if 0 <= a < b <= s.len() {
        seq![s.subrange(a, b)] + words(s.skip(b))
    } else {
        Seq::empty()
    }
}

/// The words of `s`, as `str::split_whitespace` gives them.
pub fn split_words(s: &str) -> (r: Vec<Vec<char>>)
    ensures
        r@.map_values(|w: Vec<char>| w@) == words(s@),
{
    let c = chars_of(s);
    let mut r: Vec<Vec<char>> = Vec::new();
    let mut pos: usize = 0;
    assert(c@.skip(0) == c@);
    assert(r@.map_values(|w: Vec<char>| w@) == Seq::<Seq<char>>::empty());
    while pos < c.len()
        invariant
            pos <= c.len(),
            c@ == s@,
            r@.map_values(|w: Vec<char>| w@) + words(c@.skip(pos as int)) == words(c@),
        decreases c.len() - pos,
    {
        let ghost rest = c@.skip(pos as int);
        let mut a: usize = pos;
        while a < c.len() && white_space(c[a])
            invariant
                pos <= a <= c.len(),
                forall|k: int| pos <= k < a ==> is_white_space(c@[k]),
            decreases c.len() - a,
        {
            a += 1;
        }
        let mut b: usize = a;
        while b < c.len() && !white_space(c[b])
            invariant
                a <= b <= c.len(),
                forall|k: int| a <= k < b ==> !is_white_space(c@[k]),
            decreases c.len() - b,
        {
            b += 1;
        }
        proof {
            assert forall|k: int| 0 <= k < a - pos implies is_white_space(#[trigger] rest[k]) by {
                assert(rest[k] == c@[pos + k]);
            }
            if a < c.len() {
                assert(rest[a - pos] == c@[a as int]);
            }
            lemma_skip_space_is(rest, 0, a - pos);
            assert forall|k: int| a - pos <= k < b - pos implies !is_white_space(#[trigger] rest[k]) by {
                assert(rest[k] == c@[pos + k]);
            }
            if b < c.len() {
                assert(rest[b - pos] == c@[b as int]);
            }
            lemma_skip_word_is(rest, a - pos, b - pos);
        }
        if a < b {
            let mut w: Vec<char> = Vec::new();
            let mut k: usize = a;
            while k < b
                invariant
                    a <= k <= b <= c.len(),
                    w@ == c@.subrange(a as int, k as int),
                decreases b - k,
            {
                w.push(c[k]);
                k += 1;
                assert(c@.subrange(a as int, k as int) == c@.subrange(a as int, k - 1).push(c@[k - 1]));
            }
            let ghost before = r@.map_values(|w: Vec<char>| w@);
            r.push(w);
            proof {
                assert(rest.subrange(a - pos, b - pos) == w@);
                assert(rest.skip(b - pos) == c@.skip(b as int));
                assert(r@.map_values(|w: Vec<char>| w@) == before.push(w@));
            }
        } else {
            proof {
                assert(b == c.len());
                assert(words(rest) == Seq::<Seq<char>>::empty());
                assert(c@.skip(b as int) == Seq::<char>::empty());
                assert(words(c@.skip(b as int)) == Seq::<Seq<char>>::empty());
            }
        }
        pos = b;
    }
    assert(c@.skip(c.len() as int) == Seq::<char>::empty());
    r
}

} // verus!
