use vstd::prelude::*;

use crate::text::{chars_of, decimal, decimal_chars, push_all, same_chars, string_of};

verus! {

/// What `char::is_alphanumeric` says of `c`.
pub uninterp spec fn alphanumeric(c: char) -> bool;

/// What `char::is_alphabetic` says of `c`.
pub uninterp spec fn alphabetic(c: char) -> bool;

/// Relies on `char::is_alphanumeric`: whether `c` is a Unicode letter or number.
#[verifier::external_body]
fn is_alphanumeric(c: char) -> (r: bool)
    ensures
        r == alphanumeric(c),
{
    c.is_alphanumeric()
}

/// Relies on `char::is_alphabetic`: whether `c` is a Unicode letter.
#[verifier::external_body]
fn is_alphabetic(c: char) -> (r: bool)
    ensures
        r == alphabetic(c),
{
    c.is_alphabetic()
}

/// Longest host variable name, in bytes.
pub const MAX_NAME_BYTES: usize = 32;

/// Longest stem of a name that gets a numeric suffix, in bytes.
pub const MAX_STEM_BYTES: usize = 28;

/// Words that the host reserves, which no variable may be named.
pub open spec fn reserved_words() -> Seq<Seq<char>> {
    seq![
        "aggregate"@, "array"@, "boolean"@, "break"@, "byte"@, "case"@, "catch"@, "class"@,
        "colvector"@, "complex"@, "const"@, "continue"@, "default"@, "delegate"@, "delete"@,
        "do"@, "double"@, "else"@, "eltypedef"@, "end"@, "enum"@, "explicit"@, "export"@,
        "external"@, "float"@, "for"@, "friend"@, "function"@, "global"@, "goto"@, "if"@,
        "inline"@, "int"@, "local"@, "long"@, "NULL"@, "pragma"@, "protected"@, "quad"@,
        "rowvector"@, "short"@, "typedef"@, "typename"@, "virtual"@, "_all"@, "_N"@, "_skip"@,
        "_b"@, "_pi"@, "str#"@, "in"@, "_pred"@, "strL"@, "_coef"@, "_rc"@, "using"@, "_cons"@,
        "_se"@, "with"@, "_n"@,
    ]
}

/// UTF-8 length of one character.
pub open spec fn char_bytes(c: char) -> int {
    if (c as u32) < 0x80 {
        1
    } else if (c as u32) < 0x800 {
        2
    } else if (c as u32) < 0x10000 {
        3
    } else {
        4
    }
}

/// UTF-8 length of a name.
pub open spec fn name_bytes(s: Seq<char>) -> int
    decreases s.len(),
{
    if s.len() == 0 {
        0
    } else {
        name_bytes(s.drop_last()) + char_bytes(s.last())
    }
}

/// The longest prefix of `s` of at most `n` bytes.
pub open spec fn truncated(s: Seq<char>, n: int) -> Seq<char>
    decreases s.len(),
{
    if name_bytes(s) <= n || s.len() == 0 {
        s
    } else {
        truncated(s.drop_last(), n)
    }
}

/// Every character that is neither a letter, a number nor `_` becomes `_`.
pub open spec fn sanitized(s: Seq<char>) -> Seq<char> {
    s.map_values(|c: char| if alphanumeric(c) || c == '_' { c } else { '_' })
}

/// A name that starts with neither a letter nor `_` gets a leading `_`.
pub open spec fn with_leading(s: Seq<char>) -> Seq<char> {
    if s.len() > 0 && !alphabetic(s[0]) && s[0] != '_' {
        seq!['_'] + s
    } else {
        s
    }
}

/// A reserved word gets a leading `_`.
pub open spec fn unreserved(s: Seq<char>) -> Seq<char> {
    if reserved_words().contains(s) {
        seq!['_'] + s
    } else {
        s
    }
}

/// The host-valid form of a column name, before collisions are settled.
pub open spec fn processed_name(s: Seq<char>) -> Seq<char> {
    truncated(unreserved(with_leading(sanitized(s))), MAX_NAME_BYTES as int)
}

fn utf8_len(c: char) -> (r: usize)
    ensures
        r == char_bytes(c),
{
    if (c as u32) < 0x80 {
        1
    } else if (c as u32) < 0x800 {
        2
    } else if (c as u32) < 0x10000 {
        3
    } else {
        4
    }
}

proof fn lemma_name_bytes_prefix(s: Seq<char>, k: int)
    requires
        0 <= k <= s.len(),
    ensures
        name_bytes(s.take(k)) <= name_bytes(s),
        k < s.len() ==> name_bytes(s.take(k + 1)) == name_bytes(s.take(k)) + char_bytes(s[k]),
    decreases s.len() - k,
{
    if k < s.len() {
        assert(s.take(k + 1).drop_last() == s.take(k));
        lemma_name_bytes_prefix(s.drop_last(), k);
        assert(s.drop_last().take(k) == s.take(k));
        assert(char_bytes(s.last()) > 0);
    } else {
        assert(s.take(k) == s);
    }
}

proof fn lemma_truncated_is_prefix(s: Seq<char>, n: int, k: int)
    requires
        0 <= k <= s.len(),
        n >= 0,
        name_bytes(s.take(k)) <= n,
        k == s.len() || name_bytes(s.take(k + 1)) > n,
    ensures
        truncated(s, n) == s.take(k),
    decreases s.len(),
{
    if s.len() == 0 {
        assert(s.take(k) == s);
    } else if name_bytes(s) <= n {
        if k < s.len() {
            lemma_name_bytes_prefix(s, k + 1);
        }
        assert(s.take(k) == s);
    } else {
        assert(k < s.len()) by {
            if k == s.len() {
                assert(s.take(k) == s);
            }
        }
        let t = s.drop_last();
        assert(t.take(k) == s.take(k));
        if k < t.len() {
            assert(t.take(k + 1) == s.take(k + 1));
        }
        lemma_truncated_is_prefix(t, n, k);
    }
}

/// The longest prefix of `s` of at most `n` bytes.
fn truncate_bytes(s: &Vec<char>, n: usize) -> (r: Vec<char>)
    ensures
        r@ == truncated(s@, n as int),
{
    let mut r: Vec<char> = Vec::new();
    let mut used: usize = 0;
    let mut k: usize = 0;
    while k < s.len()
        invariant
            k <= s.len(),
            r@ == s@.take(k as int),
            used == name_bytes(s@.take(k as int)),
            used <= n,
        decreases s.len() - k,
    {
        let w = utf8_len(s[k]);
        proof {
            lemma_name_bytes_prefix(s@, k as int);
        }
        if w > n - used {
            proof {
                lemma_truncated_is_prefix(s@, n as int, k as int);
            }
            return r;
        }
        r.push(s[k]);
        used = used + w;
        k += 1;
        assert(s@.take(k as int) == s@.take(k - 1).push(s@[k - 1]));
    }
    proof {
        lemma_truncated_is_prefix(s@, n as int, k as int);
    }
    r
}

fn is_reserved(s: &Vec<char>) -> (r: bool)
    ensures
        r == reserved_words().contains(s@),
{
    let words: Vec<&str> = vec![
        "aggregate", "array", "boolean", "break", "byte", "case", "catch", "class", "colvector",
        "complex", "const", "continue", "default", "delegate", "delete", "do", "double", "else",
        "eltypedef", "end", "enum", "explicit", "export", "external", "float", "for", "friend",
        "function", "global", "goto", "if", "inline", "int", "local", "long", "NULL", "pragma",
        "protected", "quad", "rowvector", "short", "typedef", "typename", "virtual", "_all", "_N",
        "_skip", "_b", "_pi", "str#", "in", "_pred", "strL", "_coef", "_rc", "using", "_cons",
        "_se", "with", "_n",
    ];
    assert(words@.map_values(|w: &str| w@) == reserved_words());
    let mut i: usize = 0;
    while i < words.len()
        invariant
            i <= words.len(),
            words@.map_values(|w: &str| w@) == reserved_words(),
            forall|k: int| 0 <= k < i ==> words@[k]@ != s@,
        decreases words.len() - i,
    {
        let w = chars_of(words[i]);
        if crate::text::same_chars(&w, s) {
            assert(reserved_words()[i as int] == s@);
            return true;
        }
        i += 1;
    }
    assert forall|k: int| 0 <= k < reserved_words().len() implies reserved_words()[k] != s@ by {
        assert(reserved_words()[k] == words@[k]@);
    }
    false
}

/// The host-valid form of the column name `name`, before collisions are
/// settled: other characters than letters, numbers and `_` become `_`, a
/// leading `_` guards a name that starts otherwise or is reserved, and the
/// result is cut to 32 bytes.
pub fn process_name(name: &str) -> (r: Vec<char>)
    ensures
        r@ == processed_name(name@),
{
    let c = chars_of(name);
    let mut s: Vec<char> = Vec::new();
    let mut i: usize = 0;
    while i < c.len()
        invariant
            i <= c.len(),
            c@ == name@,
            s@ == sanitized(c@.take(i as int)),
        decreases c.len() - i,
    {
        let ch = c[i];
        s.push(if is_alphanumeric(ch) || ch == '_' { ch } else { '_' });
        i += 1;
        assert(sanitized(c@.take(i as int)) == sanitized(c@.take(i - 1)).push(
            if alphanumeric(ch) || ch == '_' { ch } else { '_' },
        ));
    }
    assert(c@.take(c.len() as int) == c@);
    let led: Vec<char> = if s.len() > 0 && !is_alphabetic(s[0]) && s[0] != '_' {
        let mut v: Vec<char> = Vec::new();
        v.push('_');
        let mut k: usize = 0;
        while k < s.len()
            invariant
                k <= s.len(),
                v@ == seq!['_'] + s@.take(k as int),
            decreases s.len() - k,
        {
            v.push(s[k]);
            k += 1;
            assert(s@.take(k as int) == s@.take(k - 1).push(s@[k - 1]));
        }
        assert(s@.take(s.len() as int) == s@);
        v
    } else {
        s
    };
    let guarded: Vec<char> = if is_reserved(&led) {
        let mut v: Vec<char> = Vec::new();
        v.push('_');
        let mut k: usize = 0;
        while k < led.len()
            invariant
                k <= led.len(),
                v@ == seq!['_'] + led@.take(k as int),
            decreases led.len() - k,
        {
            v.push(led[k]);
            k += 1;
            assert(led@.take(k as int) == led@.take(k - 1).push(led@[k - 1]));
        }
        assert(led@.take(led.len() as int) == led@);
        v
    } else {
        led
    };
    truncate_bytes(&guarded, MAX_NAME_BYTES)
}

/// `k` in decimal, padded with zeros to at least three digits.
pub open spec fn padded3(k: nat) -> Seq<char> {
    let d = decimal(k);
    if d.len() < 3 {
        Seq::new((3 - d.len()) as nat, |i: int| '0') + d
    } else {
        d
    }
}

/// The name with numeric suffix `k` on `stem`.
pub open spec fn suffixed(stem: Seq<char>, k: nat) -> Seq<char> {
    stem + seq!['_'] + padded3(k)
}

/// The first suffix from `k` on, up to `limit`, whose name is not in `used`;
/// `limit` where all are taken.
pub open spec fn first_free(stem: Seq<char>, used: Seq<Seq<char>>, k: nat, limit: nat) -> nat
    decreases limit - k,
{
    if k >= limit || !used.contains(suffixed(stem, k)) {
        k
    } else {
        first_free(stem, used, k + 1, limit)
    }
}

/// How many of the first `n` names of `ps` equal `p`.
pub open spec fn occurrences(ps: Seq<Seq<char>>, p: Seq<char>, n: int) -> nat
    decreases n,
{
    if n <= 0 {
        0
    } else {
        occurrences(ps, p, n - 1) + if ps[n - 1] == p { 1nat } else { 0nat }
    }
}

/// The names among the first `n` of `names` that are valid as they are and
/// stay, in order.
pub open spec fn kept_names(names: Seq<Seq<char>>, n: int) -> Seq<Seq<char>>
    decreases n,
{
    if n <= 0 {
        Seq::empty()
    } else {
        kept_names(names, n - 1) + if processed_name(names[n - 1]) == names[n - 1] {
            seq![names[n - 1]]
        } else {
            Seq::empty()
        }
    }
}

/// A name that differs from every name of `used`: it is as long as `used`,
/// and differs from the `i`-th name at position `i`.
pub open spec fn diagonal(used: Seq<Seq<char>>) -> Seq<char> {
    Seq::new(
        used.len(),
        |i: int| if i < used[i].len() && used[i][i] == 'a' { 'b' } else { 'a' },
    )
}

/// The new name for a column whose processed name is `p`, where `unique`
/// says no other column has that processed name and `used` holds the names
/// taken: `p` itself where it is unique and free, else the stem of `p` with
/// the first free numeric suffix; a name of `diagonal` where every suffix
/// tried is taken.
pub open spec fn chosen_name(p: Seq<char>, unique: bool, used: Seq<Seq<char>>) -> Seq<char> {
    if unique && !used.contains(p) {
        p
    } else {
        let stem = truncated(p, MAX_STEM_BYTES as int);
        let c = suffixed(stem, first_free(stem, used, 1, (used.len() + 1) as nat));
        if !used.contains(c) {
            c
        } else {
            diagonal(used)
        }
    }
}

/// The renames of the first `n` columns of `names`, and the names taken: at
/// first those of the columns that keep their name; then each column whose
/// processed name differs from its name is renamed as `chosen_name` says,
/// and the new name is taken.
pub open spec fn rename_pairs(names: Seq<Seq<char>>, n: int) -> (Seq<(Seq<char>, Seq<char>)>, Seq<Seq<char>>)
    decreases n,
{
    if n <= 0 {
        (Seq::empty(), kept_names(names, names.len() as int))
    } else {
        let (pairs, used) = rename_pairs(names, n - 1);
        let name = names[n - 1];
        let p = processed_name(name);
        let all = names.map_values(|x: Seq<char>| processed_name(x));
        if p == name {
            (pairs, used)
        } else {
            let f = chosen_name(p, occurrences(all, p, names.len() as int) == 1, used);
            (pairs.push((name, f)), used.push(f))
        }
    }
}

proof fn lemma_kept_len(names: Seq<Seq<char>>, m: int, n: int)
    requires
        0 <= m <= n,
    ensures
        0 <= kept_names(names, n).len() - kept_names(names, m).len() <= n - m,
    decreases n - m,
{
    if m < n {
        lemma_kept_len(names, m, n - 1);
    }
}

proof fn lemma_pairs_len(names: Seq<Seq<char>>, n: int)
    requires
        0 <= n <= names.len(),
    ensures
        rename_pairs(names, n).0.len() == n - kept_names(names, n).len(),
    decreases n,
{
    if n > 0 {
        lemma_pairs_len(names, n - 1);
    }
}

proof fn lemma_kept_contains(names: Seq<Seq<char>>, n: int, k: int)
    requires
        0 <= k < n <= names.len(),
        processed_name(names[k]) == names[k],
    ensures
        kept_names(names, n).contains(names[k]),
    decreases n,
{
    let prev = kept_names(names, n - 1);
    if k < n - 1 {
        lemma_kept_contains(names, n - 1, k);
        let j = choose|j: int| 0 <= j < prev.len() && prev[j] == names[k];
        assert(kept_names(names, n)[j] == names[k]);
    } else {
        assert(kept_names(names, n)[prev.len() as int] == names[k]);
    }
}

proof fn lemma_diagonal_fresh(used: Seq<Seq<char>>)
    ensures
        !used.contains(diagonal(used)),
{
    let d = diagonal(used);
    if used.contains(d) {
        let i = choose|i: int| 0 <= i < used.len() && used[i] == d;
        assert(d[i] != used[i][i]);
    }
}

proof fn lemma_chosen_fresh(p: Seq<char>, unique: bool, used: Seq<Seq<char>>)
    ensures
        !used.contains(chosen_name(p, unique, used)),
{
    lemma_diagonal_fresh(used);
}

/// The new names are pairwise distinct, none of them is the name of a column
/// that keeps its name, and the names taken are the kept names followed by
/// the new ones.
pub proof fn lemma_renames_distinct(names: Seq<Seq<char>>, n: int)
    ensures
        ({
            let (pairs, used) = rename_pairs(names, n);
            let kept = kept_names(names, names.len() as int);
            &&& used == kept + pairs.map_values(|q: (Seq<char>, Seq<char>)| q.1)
            &&& forall|i: int, j: int| 0 <= i < j < pairs.len() ==> pairs[i].1 != pairs[j].1
            &&& forall|i: int, k: int| 0 <= i < pairs.len() && 0 <= k < kept.len() ==> pairs[i].1 != kept[k]
        }),
    decreases n,
{
    let kept = kept_names(names, names.len() as int);
    if n <= 0 {
        assert(kept + Seq::<(Seq<char>, Seq<char>)>::empty().map_values(|q: (Seq<char>, Seq<char>)| q.1) == kept);
    } else {
        lemma_renames_distinct(names, n - 1);
        let (pairs, used) = rename_pairs(names, n - 1);
        let name = names[n - 1];
        let p = processed_name(name);
        let all = names.map_values(|x: Seq<char>| processed_name(x));
        if p != name {
            let f = chosen_name(p, occurrences(all, p, names.len() as int) == 1, used);
            lemma_chosen_fresh(p, occurrences(all, p, names.len() as int) == 1, used);
            let np = pairs.push((name, f));
            let pv = pairs.map_values(|q: (Seq<char>, Seq<char>)| q.1);
            assert(np.map_values(|q: (Seq<char>, Seq<char>)| q.1) == pv.push(f));
            assert(used.push(f) == kept + pv.push(f));
            assert forall|i: int| 0 <= i < pairs.len() implies np[i].1 != f by {
                assert(used[kept.len() + i] == pairs[i].1);
            }
            assert forall|k: int| 0 <= k < kept.len() implies f != kept[k] by {
                assert(used[k] == kept[k]);
            }
            assert forall|i: int, j: int| 0 <= i < j < np.len() implies np[i].1 != np[j].1 by {
                if j < pairs.len() {
                    assert(np[i] == pairs[i] && np[j] == pairs[j]);
                }
            }
            assert forall|i: int, k: int| 0 <= i < np.len() && 0 <= k < kept.len() implies np[i].1
                != kept[k] by {
                if i < pairs.len() {
                    assert(np[i] == pairs[i]);
                }
            }
        }
    }
}

fn padded_chars(k: usize) -> (r: Vec<char>)
    ensures
        r@ == padded3(k as nat),
{
    let d = decimal_chars(k);
    if d.len() < 3 {
        let mut r: Vec<char> = Vec::new();
        let pad = 3 - d.len();
        let mut i: usize = 0;
        while i < pad
            invariant
                i <= pad,
                r@ == Seq::new(i as nat, |j: int| '0'),
            decreases pad - i,
        {
            r.push('0');
            i += 1;
            assert(r@ == Seq::new(i as nat, |j: int| '0'));
        }
        let mut s = string_of(&r);
        push_all(&mut s, &d);
        chars_of(s.as_str())
    } else {
        d
    }
}

fn contains_name(used: &Vec<Vec<char>>, x: &Vec<char>) -> (r: bool)
    ensures
        r == used@.map_values(|v: Vec<char>| v@).contains(x@),
{
    let ghost u = used@.map_values(|v: Vec<char>| v@);
    let mut i: usize = 0;
    while i < used.len()
        invariant
            i <= used.len(),
            u == used@.map_values(|v: Vec<char>| v@),
            forall|k: int| 0 <= k < i ==> u[k] != x@,
        decreases used.len() - i,
    {
        if same_chars(&used[i], x) {
            assert(u[i as int] == x@);
            return true;
        }
        i += 1;
    }
    false
}

/// A name that differs from every name of `used`.
fn diagonal_name(used: &Vec<Vec<char>>) -> (r: Vec<char>)
    ensures
        r@ == diagonal(used@.map_values(|v: Vec<char>| v@)),
{
    let ghost u = used@.map_values(|v: Vec<char>| v@);
    let mut r: Vec<char> = Vec::new();
    let mut i: usize = 0;
    while i < used.len()
        invariant
            i <= used.len(),
            u == used@.map_values(|v: Vec<char>| v@),
            r@ == diagonal(u).take(i as int),
        decreases used.len() - i,
    {
        let w = &used[i];
        assert(u[i as int] == w@);
        let c = if i < w.len() && w[i] == 'a' { 'b' } else { 'a' };
        r.push(c);
        i += 1;
        assert(diagonal(u).take(i as int) == diagonal(u).take(i - 1).push(c));
    }
    assert(diagonal(u).take(used.len() as int) == diagonal(u));
    r
}

fn copy_chars(v: &Vec<char>) -> (r: Vec<char>)
    ensures
        r@ == v@,
{
    let s = string_of(v);
    chars_of(s.as_str())
}

/// The renames that make the column names `names` valid and distinct host
/// variable names, in column order; a name that is valid as it is stays out.
/// The new names are pairwise distinct and differ from the names that stay.
pub fn generate_rename_map(names: &Vec<String>) -> (r: Vec<(String, String)>)
    ensures
        r@.map_values(|p: (String, String)| (p.0@, p.1@)) == rename_pairs(
            names@.map_values(|s: String| s@),
            names@.len() as int,
        ).0,
        forall|i: int, j: int| 0 <= i < j < r@.len() ==> r@[i].1@ != r@[j].1@,
        forall|i: int, k: int|
            0 <= i < r@.len() && 0 <= k < names@.len() && processed_name(names@[k]@) == names@[k]@
                ==> r@[i].1@ != names@[k]@,
{
    let ghost nv = names@.map_values(|s: String| s@);
    let ghost all = nv.map_values(|x: Seq<char>| processed_name(x));
    let mut processed: Vec<Vec<char>> = Vec::new();
    let mut i: usize = 0;
    while i < names.len()
        invariant
            i <= names.len(),
            nv == names@.map_values(|s: String| s@),
            all == nv.map_values(|x: Seq<char>| processed_name(x)),
            processed@.len() == i,
            forall|k: int| 0 <= k < i ==> #[trigger] processed@[k]@ == all[k],
        decreases names.len() - i,
    {
        processed.push(process_name(names[i].as_str()));
        i += 1;
    }
    let mut used: Vec<Vec<char>> = Vec::new();
    let mut i: usize = 0;
    while i < names.len()
        invariant
            i <= names.len(),
            nv == names@.map_values(|s: String| s@),
            all == nv.map_values(|x: Seq<char>| processed_name(x)),
            processed@.len() == names@.len(),
            forall|k: int| 0 <= k < names@.len() ==> #[trigger] processed@[k]@ == all[k],
            used@.map_values(|v: Vec<char>| v@) == kept_names(nv, i as int),
        decreases names.len() - i,
    {
        let name = chars_of(names[i].as_str());
        assert(nv[i as int] == name@);
        assert(all[i as int] == processed_name(nv[i as int]));
        let ghost uv = used@.map_values(|v: Vec<char>| v@);
        if same_chars(&processed[i], &name) {
            used.push(name);
            assert(used@.map_values(|v: Vec<char>| v@) == uv.push(nv[i as int]));
        } else {
            assert(used@.map_values(|v: Vec<char>| v@) == uv);
        }
        assert(kept_names(nv, i + 1) == kept_names(nv, i as int) + if processed_name(nv[i as int]) == nv[i as int] {
            seq![nv[i as int]]
        } else {
            Seq::empty()
        });
        i += 1;
    }
    assert(nv.len() == names@.len());
    let mut r: Vec<(String, String)> = Vec::new();
    let mut i: usize = 0;
    while i < names.len()
        invariant
            i <= names.len(),
            nv == names@.map_values(|s: String| s@),
            all == nv.map_values(|x: Seq<char>| processed_name(x)),
            processed@.len() == names@.len(),
            forall|k: int| 0 <= k < names@.len() ==> #[trigger] processed@[k]@ == all[k],
            r@.map_values(|p: (String, String)| (p.0@, p.1@)) == rename_pairs(nv, i as int).0,
            used@.map_values(|v: Vec<char>| v@) == rename_pairs(nv, i as int).1,
        decreases names.len() - i,
    {
        let name = chars_of(names[i].as_str());
        let p = &processed[i];
        assert(nv[i as int] == name@);
        assert(all[i as int] == processed_name(nv[i as int]));
        assert(p@ == processed_name(name@));
        assert(all.len() == names@.len());
        let ghost rv = r@.map_values(|q: (String, String)| (q.0@, q.1@));
        let ghost uv = used@.map_values(|v: Vec<char>| v@);
        proof {
            lemma_renames_distinct(nv, i as int);
            lemma_pairs_len(nv, i as int);
            lemma_kept_len(nv, i as int, nv.len() as int);
            lemma_kept_len(nv, 0, i as int);
            assert(uv.len() == used@.len());
            assert(used@.len() <= names@.len());
        }
        if !same_chars(p, &name) {
            proof {
                lemma_kept_len(nv, i + 1, nv.len() as int);
                assert(kept_names(nv, i + 1).len() == kept_names(nv, i as int).len());
                assert(used@.len() < names@.len());
            }
            let mut count: usize = 0;
            let mut j: usize = 0;
            while j < processed.len()
                invariant
                    j <= processed.len(),
                    count <= j,
                    all.len() == names@.len(),
                    processed@.len() == names@.len(),
                    forall|k: int| 0 <= k < names@.len() ==> #[trigger] processed@[k]@ == all[k],
                    count == occurrences(all, p@, j as int),
                decreases processed.len() - j,
            {
                if same_chars(&processed[j], p) {
                    count += 1;
                }
                j += 1;
            }
            let chosen: Vec<char> = if count == 1 && !contains_name(&used, p) {
                copy_chars(p)
            } else {
                let stem = truncate_bytes(p, MAX_STEM_BYTES);
                let limit: usize = used.len() + 1;
                let mut k: usize = 1;
                let mut candidate: Vec<char> = Vec::new();
                loop
                    invariant_except_break
                        k <= limit,
                    invariant
                        1 <= k <= limit,
                        limit == used@.len() + 1,
                        uv == used@.map_values(|v: Vec<char>| v@),
                        stem@ == truncated(p@, MAX_STEM_BYTES as int),
                        first_free(stem@, uv, 1, limit as nat) == first_free(stem@, uv, k as nat, limit as nat),
                    ensures
                        first_free(stem@, uv, 1, limit as nat) == k,
                        candidate@ == suffixed(stem@, k as nat),
                        stem@ == truncated(p@, MAX_STEM_BYTES as int),
                    decreases limit - k,
                {
                    let mut c = string_of(&stem);
                    push_all(&mut c, &vec!['_']);
                    let pad = padded_chars(k);
                    push_all(&mut c, &pad);
                    candidate = chars_of(c.as_str());
                    assert(candidate@ == suffixed(stem@, k as nat));
                    if k >= limit || !contains_name(&used, &candidate) {
                        break;
                    }
                    k += 1;
                }
                if contains_name(&used, &candidate) {
                    diagonal_name(&used)
                } else {
                    candidate
                }
            };
            assert(chosen@ == chosen_name(p@, occurrences(all, p@, names@.len() as int) == 1, uv));
            let mut old_name = String::new();
            push_all(&mut old_name, &name);
            let new_name = string_of(&chosen);
            r.push((old_name, new_name));
            used.push(chosen);
            proof {
                assert(r@.map_values(|q: (String, String)| (q.0@, q.1@)) == rv.push((name@, new_name@)));
                assert(used@.map_values(|v: Vec<char>| v@) == uv.push(new_name@));
            }
        }
        i += 1;
    }
    assert(nv.len() == names@.len());
    proof {
        lemma_renames_distinct(nv, nv.len() as int);
        let pairs = rename_pairs(nv, nv.len() as int).0;
        let kept = kept_names(nv, nv.len() as int);
        assert forall|i: int| 0 <= i < r@.len() implies #[trigger] r@[i].1@ == pairs[i].1 by {
            assert(r@.map_values(|p: (String, String)| (p.0@, p.1@))[i] == pairs[i]);
        }
        assert forall|i: int, k: int|
            0 <= i < r@.len() && 0 <= k < names@.len() && processed_name(names@[k]@) == names@[k]@
                implies r@[i].1@ != names@[k]@ by {
            assert(nv[k] == names@[k]@);
            lemma_kept_contains(nv, nv.len() as int, k);
            let j = choose|j: int| 0 <= j < kept.len() && kept[j] == nv[k];
            assert(r@[i].1@ == pairs[i].1);
        }
        assert forall|i: int, j: int| 0 <= i < j < r@.len() implies r@[i].1@ != r@[j].1@ by {
            assert(r@[i].1@ == pairs[i].1);
            assert(r@[j].1@ == pairs[j].1);
        }
    }
    r
}

proof fn lemma_truncated_fits(s: Seq<char>, n: int)
    requires
        n >= 0,
    ensures
        name_bytes(truncated(s, n)) <= n,
        truncated(s, n).len() <= s.len(),
        truncated(s, n) == s.take(truncated(s, n).len() as int),
    decreases s.len(),
{
    if name_bytes(s) <= n || s.len() == 0 {
        assert(s.take(s.len() as int) == s);
    } else {
        lemma_truncated_fits(s.drop_last(), n);
        let t = truncated(s.drop_last(), n);
        assert(s.drop_last().take(t.len() as int) == s.take(t.len() as int));
    }
}

/// The processed form of a column name takes at most 32 bytes and is a
/// prefix of the guarded, sanitised name.
pub proof fn lemma_processed_name_fits(s: Seq<char>)
    ensures
        name_bytes(processed_name(s)) <= MAX_NAME_BYTES,
        processed_name(s) == unreserved(with_leading(sanitized(s))).take(processed_name(s).len() as int),
{
    lemma_truncated_fits(unreserved(with_leading(sanitized(s))), MAX_NAME_BYTES as int);
}

} // verus!
