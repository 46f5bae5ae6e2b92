use vstd::prelude::*;

use crate::text::{chars_of, push_all, push_char, string_of};

verus! {

/// What `regex::Regex::new(pattern)` followed by `replace_all(text, replacement)`
/// gives: `None` where the pattern does not compile.
pub uninterp spec fn regex_replaced(
    pattern: Seq<char>,
    text: Seq<char>,
    replacement: Seq<char>,
) -> Option<Seq<char>>;

/// Relies on `regex::Regex::new` and `regex::Regex::replace_all`: compiles
/// `pattern` and replaces every match in `text` by `replacement`, in which
/// `$1`, `$2`, ... stand for the capture groups.
#[verifier::external_body]
fn regex_replace_all(pattern: &str, text: &str, replacement: &str) -> (r: Option<String>)
    ensures
        match r {
            Some(x) => regex_replaced(pattern@, text@, replacement@) == Some(x@),
            None => regex_replaced(pattern@, text@, replacement@) is None,
        },
{
    match regex::Regex::new(pattern) {
        Ok(re) => Some(re.replace_all(text, replacement).into_owned()),
        Err(_) => None,
    }
}

/// The host's filter functions and operators, as patterns with their SQL
/// replacements, applied in this order.
pub open spec fn conversion_rules() -> Seq<(Seq<char>, Seq<char>)> {
    seq![
        (r"!missing\s*\(\s*([^)]+)\s*\)"@, "$1 IS NOT NULL"@),
        (r"missing\s*\(\s*([^)]+)\s*\)"@, "$1 IS NULL"@),
        (r"inrange\s*\(\s*([^,]+)\s*,\s*([^,]+)\s*,\s*([^)]+)\s*\)"@, "$1 BETWEEN $2 AND $3"@),
        (r"inlist\s*\(\s*([^,]+)\s*,\s*([^)]+)\s*\)"@, "$1 IN ($2)"@),
        (r"mod\s*\(\s*([^,]+)\s*,\s*([^)]+)\s*\)"@, "($1 % $2)"@),
        (r"ceil\s*\(\s*([^)]+)\s*\)"@, "CEILING($1)"@),
        (r"floor\s*\(\s*([^)]+)\s*\)"@, "FLOOR($1)"@),
        (r"round\s*\(\s*([^)]+)\s*\)"@, "ROUND($1)"@),
        (r"real\s*\(\s*([^)]+)\s*\)"@, "CAST($1 AS REAL)"@),
        (r"string\s*\(\s*([^)]+)\s*\)"@, "CAST($1 AS VARCHAR)"@),
        (r"\s*&\s*"@, " AND "@),
        (r"\s*\|\s*"@, " OR "@),
        ("=="@, "="@),
        (r"!\s*\("@, "NOT ("@),
    ]
}

/// Translates the host's filter expressions into SQL predicates.
pub struct StataToSqlRegexConverter {
    replacements: Vec<(String, String)>,
}

/// The text after the first `n` rules, each applied to every match in turn; a
/// rule whose pattern does not compile changes nothing.
pub open spec fn apply_rules(rules: Seq<(Seq<char>, Seq<char>)>, t: Seq<char>, n: int) -> Seq<char>
    decreases n,
{
    if n <= 0 {
        t
    } else {
        let before = apply_rules(rules, t, n - 1);
        match regex_replaced(rules[n - 1].0, before, rules[n - 1].1) {
            Some(x) => x,
            None => before,
        }
    }
}

pub open spec fn is_quote(c: char) -> bool {
    c == '"' || c == '\''
}

/// Position of the first quote character of `s` at or after `i`, or the length.
pub open spec fn next_quote(s: Seq<char>, i: int) -> int
    decreases s.len() - i,
{
    if i >= s.len() {
        s.len() as int
    } else if is_quote(s[i]) {
        i
    } else {
        next_quote(s, i + 1)
    }
}

/// Position of the first `q` of `s` at or after `i`, or the length.
pub open spec fn next_char(s: Seq<char>, i: int, q: char) -> int
    decreases s.len() - i,
{
    if i >= s.len() {
        s.len() as int
    } else if s[i] == q {
        i
    } else {
        next_char(s, i + 1, q)
    }
}

/// Length of the first segment of a non-empty text: a run without quotes, or a
/// quoted stretch up to and including its closing quote, or to the end where
/// it is not closed.
pub open spec fn segment_len(s: Seq<char>) -> int {
    if is_quote(s[0]) {
        let close = next_char(s, 1, s[0]);
        if close < s.len() {
            close + 1
        } else {
            s.len() as int
        }
    } else {
        next_quote(s, 0)
    }
}

proof fn lemma_next_quote_bounds(s: Seq<char>, i: int)
    requires
        0 <= i <= s.len(),
    ensures
        i <= next_quote(s, i) <= s.len(),
        forall|k: int| i <= k < next_quote(s, i) ==> !is_quote(#[trigger] s[k]),
        next_quote(s, i) < s.len() ==> is_quote(s[next_quote(s, i)]),
    decreases s.len() - i,
{
    if i < s.len() && !is_quote(s[i]) {
        lemma_next_quote_bounds(s, i + 1);
    }
}

proof fn lemma_next_char_bounds(s: Seq<char>, i: int, q: char)
    requires
        0 <= i <= s.len(),
    ensures
        i <= next_char(s, i, q) <= s.len(),
        forall|k: int| i <= k < next_char(s, i, q) ==> #[trigger] s[k] != q,
        next_char(s, i, q) < s.len() ==> s[next_char(s, i, q)] == q,
    decreases s.len() - i,
{
    if i < s.len() && s[i] != q {
        lemma_next_char_bounds(s, i + 1, q);
    }
}

proof fn lemma_next_char_is(s: Seq<char>, i: int, q: char, c: int)
    requires
        0 <= i <= c <= s.len(),
        forall|k: int| i <= k < c ==> #[trigger] s[k] != q,
        c < s.len() ==> s[c] == q,
    ensures
        next_char(s, i, q) == c,
    decreases c - i,
{
    if i < c {
        lemma_next_char_is(s, i + 1, q, c);
    }
}

proof fn lemma_next_quote_is(s: Seq<char>, i: int, c: int)
    requires
        0 <= i <= c <= s.len(),
        forall|k: int| i <= k < c ==> !is_quote(#[trigger] s[k]),
        c < s.len() ==> is_quote(s[c]),
    ensures
        next_quote(s, i) == c,
    decreases c - i,
{
    if i < c {
        lemma_next_quote_is(s, i + 1, c);
    }
}

/// The text split into quoted and unquoted segments, each with whether it is
/// quoted.
pub open spec fn segments(s: Seq<char>) -> Seq<(Seq<char>, bool)>
    decreases s.len(),
{
    if s.len() == 0 {
        Seq::empty()
    } else {
        let n = segment_len(s);
        if 0 < n <= s.len() {
            seq![(s.take(n), is_quote(s[0]))] + segments(s.skip(n))
        } else {
            Seq::empty()
        }
    }
}

/// The segments rejoined, the rules applied to the unquoted ones.
pub open spec fn converted(parts: Seq<(Seq<char>, bool)>, rules: Seq<(Seq<char>, Seq<char>)>) -> Seq<
    char,
>
    decreases parts.len(),
{
    if parts.len() == 0 {
        Seq::empty()
    } else {
        let last = parts.last();
        converted(parts.drop_last(), rules) + if last.1 {
            last.0
        } else {
            apply_rules(rules, last.0, rules.len() as int)
        }
    }
}

/// Stands in for a quoted segment while the rules are applied.
pub const QUOTE_MARK: char = '\u{E000}';

/// The segments rejoined, each quoted one replaced by the mark.
pub open spec fn masked(parts: Seq<(Seq<char>, bool)>) -> Seq<char>
    decreases parts.len(),
{
    if parts.len() == 0 {
        Seq::empty()
    } else {
        let last = parts.last();
        masked(parts.drop_last()) + if last.1 {
            seq![QUOTE_MARK]
        } else {
            last.0
        }
    }
}

/// The quoted segments, in order.
pub open spec fn quoted_texts(parts: Seq<(Seq<char>, bool)>) -> Seq<Seq<char>>
    decreases parts.len(),
{
    if parts.len() == 0 {
        Seq::empty()
    } else {
        let last = parts.last();
        quoted_texts(parts.drop_last()) + if last.1 {
            seq![last.0]
        } else {
            Seq::empty()
        }
    }
}

/// `t` with its marks, from the `j`-th on, replaced by the quoted segments
/// `q[j]`, `q[j + 1]`, ... in turn; marks beyond the last segment stay.
pub open spec fn restored(t: Seq<char>, q: Seq<Seq<char>>, j: int) -> Seq<char>
    decreases t.len(),
{
    if t.len() == 0 {
        Seq::empty()
    } else if t[0] == QUOTE_MARK && 0 <= j < q.len() {
        q[j] + restored(t.skip(1), q, j + 1)
    } else {
        seq![t[0]] + restored(t.skip(1), q, j + if t[0] == QUOTE_MARK { 1int } else { 0 })
    }
}

/// The SQL predicate for the host's filter expression `s`: the rules are
/// applied to the whole expression with each quoted segment masked, so that
/// nothing inside quotes is translated, and the segments are then put back.
/// An expression that holds the mark itself is translated segment by segment.
pub open spec fn sql_of(s: Seq<char>) -> Seq<char> {
    if s.contains(QUOTE_MARK) {
        converted(segments(s), conversion_rules())
    } else {
        restored(
            apply_rules(conversion_rules(), masked(segments(s)), conversion_rules().len() as int),
            quoted_texts(segments(s)),
            0,
        )
    }
}

impl StataToSqlRegexConverter {
    pub closed spec fn rules(&self) -> Seq<(Seq<char>, Seq<char>)> {
        self.replacements@.map_values(|p: (String, String)| (p.0@, p.1@))
    }

    /// A converter holding the host's filter functions and operators.
    pub fn new() -> (r: Self)
        ensures
            r.rules() == conversion_rules(),
    {
        let mut converter = StataToSqlRegexConverter { replacements: Vec::new() };
        converter.add_patterns();
        converter
    }

    fn add_patterns(&mut self)
        requires
            old(self).rules().len() == 0,
        ensures
            final(self).rules() == conversion_rules(),
    {
        self.add_replacement(r"!missing\s*\(\s*([^)]+)\s*\)", "$1 IS NOT NULL");
        self.add_replacement(r"missing\s*\(\s*([^)]+)\s*\)", "$1 IS NULL");
        self.add_replacement(
            r"inrange\s*\(\s*([^,]+)\s*,\s*([^,]+)\s*,\s*([^)]+)\s*\)",
            "$1 BETWEEN $2 AND $3",
        );
        self.add_replacement(r"inlist\s*\(\s*([^,]+)\s*,\s*([^)]+)\s*\)", "$1 IN ($2)");
        self.add_replacement(r"mod\s*\(\s*([^,]+)\s*,\s*([^)]+)\s*\)", "($1 % $2)");
        self.add_replacement(r"ceil\s*\(\s*([^)]+)\s*\)", "CEILING($1)");
        self.add_replacement(r"floor\s*\(\s*([^)]+)\s*\)", "FLOOR($1)");
        self.add_replacement(r"round\s*\(\s*([^)]+)\s*\)", "ROUND($1)");
        self.add_replacement(r"real\s*\(\s*([^)]+)\s*\)", "CAST($1 AS REAL)");
        self.add_replacement(r"string\s*\(\s*([^)]+)\s*\)", "CAST($1 AS VARCHAR)");
        self.add_replacement(r"\s*&\s*", " AND ");
        self.add_replacement(r"\s*\|\s*", " OR ");
        self.add_replacement(r"==", "=");
        self.add_replacement(r"!\s*\(", "NOT (");
        assert(self.rules() == conversion_rules());
    }

    fn add_replacement(&mut self, pattern: &str, replacement: &str)
        ensures
            final(self).rules() == old(self).rules().push((pattern@, replacement@)),
    {
        let p = pattern.to_owned();
        let r = replacement.to_owned();
        self.replacements.push((p, r));
        assert(self.rules() == old(self).rules().push((pattern@, replacement@)));
    }

    /// `text` with every rule applied in turn.
    fn apply_all(&self, text: String) -> (r: String)
        ensures
            r@ == apply_rules(self.rules(), text@, self.rules().len() as int),
    {
        let mut processed = text;
        let mut i: usize = 0;
        while i < self.replacements.len()
            invariant
                i <= self.replacements.len(),
                self.rules().len() == self.replacements@.len(),
                processed@ == apply_rules(self.rules(), text@, i as int),
            decreases self.replacements.len() - i,
        {
            let (pattern, replacement) = &self.replacements[i];
            assert(self.rules()[i as int] == (pattern@, replacement@));
            match regex_replace_all(pattern.as_str(), processed.as_str(), replacement.as_str()) {
                Some(next) => {
                    processed = next;
                },
                None => {},
            }
            i += 1;
        }
        processed
    }

    /// The SQL predicate for the host's filter expression `input`, as
    /// `sql_of` describes it for this converter's rules.
    pub fn convert(&self, input: &str) -> (r: String)
        ensures
            r@ == (if input@.contains(QUOTE_MARK) {
                converted(segments(input@), self.rules())
            } else {
                restored(
                    apply_rules(self.rules(), masked(segments(input@)), self.rules().len() as int),
                    quoted_texts(segments(input@)),
                    0,
                )
            }),
    {
        let chars = chars_of(input);
        let mut has_mark = false;
        let mut i: usize = 0;
        while i < chars.len()
            invariant
                i <= chars.len(),
                chars@ == input@,
                has_mark == (exists|k: int| 0 <= k < i && chars@[k] == QUOTE_MARK),
            decreases chars.len() - i,
        {
            if chars[i] == QUOTE_MARK {
                has_mark = true;
            }
            i += 1;
        }
        if has_mark {
            return self.convert_by_segment(input);
        }
        let parts = self.split_preserving_quotes(input);
        let ghost segs = segments(input@);
        let mut masked_text = String::new();
        let mut quoted: Vec<Vec<char>> = Vec::new();
        let mut i: usize = 0;
        while i < parts.len()
            invariant
                i <= parts.len(),
                parts@.map_values(|p: (String, bool)| (p.0@, p.1)) == segs,
                masked_text@ == masked(segs.take(i as int)),
                quoted@.map_values(|v: Vec<char>| v@) == quoted_texts(segs.take(i as int)),
            decreases parts.len() - i,
        {
            let (content, is_quoted) = &parts[i];
            assert(segs[i as int] == (content@, *is_quoted));
            assert(segs.take(i + 1).drop_last() == segs.take(i as int));
            let v = chars_of(content.as_str());
            let ghost qv = quoted@.map_values(|v: Vec<char>| v@);
            if *is_quoted {
                push_char(&mut masked_text, QUOTE_MARK);
                quoted.push(v);
                assert(quoted@.map_values(|v: Vec<char>| v@) == qv.push(content@));
            } else {
                push_all(&mut masked_text, &v);
                assert(quoted@.map_values(|v: Vec<char>| v@) == qv);
            }
            i += 1;
        }
        assert(segs.take(parts@.len() as int) == segs);
        let t = self.apply_all(masked_text);
        restore_quoted(t.as_str(), &quoted)
    }

    /// The SQL predicate for the host's filter expression `input`, each
    /// unquoted segment translated on its own.
    fn convert_by_segment(&self, input: &str) -> (r: String)
        ensures
            r@ == converted(segments(input@), self.rules()),
    {
        let parts = self.split_preserving_quotes(input);
        let mut result = String::new();
        let mut i: usize = 0;
        while i < parts.len()
            invariant
                i <= parts.len(),
                parts@.map_values(|p: (String, bool)| (p.0@, p.1)) == segments(input@),
                result@ == converted(
                    segments(input@).take(i as int),
                    self.rules(),
                ),
            decreases parts.len() - i,
        {
            let (content, is_quoted) = &parts[i];
            let ghost segs = segments(input@);
            assert(segs[i as int] == (content@, *is_quoted));
            assert(segs.take(i + 1).drop_last() == segs.take(i as int));
            if *is_quoted {
                let v = chars_of(content.as_str());
                push_all(&mut result, &v);
            } else {
                let processed = self.apply_all(content.clone());
                let v = chars_of(processed.as_str());
                push_all(&mut result, &v);
            }
            i += 1;
        }
        assert(segments(input@).take(parts@.len() as int) == segments(input@));
        result
    }

    /// The segments of `input`: runs without quotes, and quoted stretches
    /// with their quotes, each with whether it is quoted.
    fn split_preserving_quotes(&self, input: &str) -> (r: Vec<(String, bool)>)
        ensures
            r@.map_values(|p: (String, bool)| (p.0@, p.1)) == segments(input@),
    {
        let s = chars_of(input);
        let mut parts: Vec<(String, bool)> = Vec::new();
        let mut pos: usize = 0;
        assert(s@.skip(0) == s@);
        assert(parts@.map_values(|p: (String, bool)| (p.0@, p.1)) == Seq::<(Seq<char>, bool)>::empty());
        while pos < s.len()
            invariant
                pos <= s.len(),
                s@ == input@,
                parts@.map_values(|p: (String, bool)| (p.0@, p.1)) + segments(s@.skip(pos as int))
                    == segments(s@),
            decreases s.len() - pos,
        {
            let ghost rest = s@.skip(pos as int);
            let first = s[pos];
            let quoted = first == '"' || first == '\'';
            let mut end: usize = pos + 1;
            if quoted {
                while end < s.len() && s[end] != first
                    invariant
                        pos < end <= s.len(),
                        forall|k: int| pos < k < end ==> s@[k] != first,
                    decreases s.len() - end,
                {
                    end += 1;
                }
                proof {
                    assert forall|k: int| 1 <= k < end - pos implies #[trigger] rest[k] != first by {
                        assert(rest[k] == s@[pos + k]);
                    }
                    if end < s.len() {
                        assert(rest[end - pos] == s@[end as int]);
                    }
                    lemma_next_char_is(rest, 1, first, end - pos);
                }
                if end < s.len() {
                    end += 1;
                }
            } else {
                while end < s.len() && !(s[end] == '"' || s[end] == '\'')
                    invariant
                        pos < end <= s.len(),
                        forall|k: int| pos <= k < end ==> !is_quote(s@[k]),
                    decreases s.len() - end,
                {
                    end += 1;
                }
                proof {
                    assert forall|k: int| 0 <= k < end - pos implies !is_quote(#[trigger] rest[k]) by {
                        assert(rest[k] == s@[pos + k]);
                    }
                    if end < s.len() {
                        assert(rest[end - pos] == s@[end as int]);
                    }
                    lemma_next_quote_is(rest, 0, end - pos);
                }
            }
            proof {
                assert(rest[0] == first);
                assert(end - pos == segment_len(rest));
            }
            let mut piece: Vec<char> = Vec::new();
            let mut k: usize = pos;
            while k < end
                invariant
                    pos <= k <= end <= s.len(),
                    piece@ == s@.subrange(pos as int, k as int),
                decreases end - k,
            {
                piece.push(s[k]);
                k += 1;
                assert(s@.subrange(pos as int, k as int) == s@.subrange(pos as int, k - 1).push(s@[k - 1]));
            }
            let ghost before = parts@.map_values(|p: (String, bool)| (p.0@, p.1));
            parts.push((string_of(&piece), quoted));
            proof {
                let n = segment_len(rest);
                assert(rest.take(n) == piece@);
                assert(rest.skip(n) == s@.skip(end as int));
                assert(segments(rest) == seq![(rest.take(n), is_quote(rest[0]))] + segments(rest.skip(n)));
                assert(parts@.map_values(|p: (String, bool)| (p.0@, p.1)) == before.push((piece@, quoted)));
            }
            pos = end;
        }
        assert(s@.skip(s.len() as int) == Seq::<char>::empty());
        parts
    }
}

/// `text` with its marks replaced by the quoted segments `quoted`, in turn;
/// marks beyond the last segment stay.
pub fn restore_quoted(text: &str, quoted: &Vec<Vec<char>>) -> (r: String)
    ensures
        r@ == restored(text@, quoted@.map_values(|v: Vec<char>| v@), 0),
{
    let tc = chars_of(text);
    let ghost q = quoted@.map_values(|v: Vec<char>| v@);
    let mut out = String::new();
    let mut k: usize = 0;
    let mut j: usize = 0;
    assert(tc@.skip(0) == tc@);
    while k < tc.len()
        invariant
            k <= tc.len(),
            j <= k,
            tc@ == text@,
            q == quoted@.map_values(|v: Vec<char>| v@),
            out@ + restored(tc@.skip(k as int), q, j as int) == restored(tc@, q, 0),
        decreases tc.len() - k,
    {
        let c = tc[k];
        let ghost rest = tc@.skip(k as int);
        assert(rest[0] == c);
        assert(rest.skip(1) == tc@.skip(k + 1));
        if c == QUOTE_MARK && j < quoted.len() {
            push_all(&mut out, &quoted[j]);
        } else {
            push_char(&mut out, c);
        }
        if c == QUOTE_MARK {
            j += 1;
        }
        k += 1;
    }
    assert(tc@.skip(tc.len() as int) == Seq::<char>::empty());
    out
}

/// The SQL predicate for the host's filter expression `input`.
pub fn stata_to_sql(input: &str) -> (r: String)
    ensures
        r@ == sql_of(input@),
{
    let converter = StataToSqlRegexConverter::new();
    converter.convert(input)
}

} // verus!
