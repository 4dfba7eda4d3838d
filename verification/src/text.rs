//! Verified text primitives: splitting into lines, joining, substring
//! search, prefix tests, digit parsing and lexicographic comparison.
//! Everything downstream (the loader, the macro expander, the link graph)
//! is specified over these spec functions.

use vstd::prelude::*;

verus! {

/// The lines of `s`, split at every newline character; the separators are
/// dropped and empty segments are kept, so the result always has at least
/// one element (mirrors `str::split('\n')`).
pub open spec fn split_lines(s: Seq<char>) -> Seq<Seq<char>>
    decreases s.len(),
{
    if s.len() == 0 {
        seq![Seq::<char>::empty()]
    } else if s[0] == '\n' {
        seq![Seq::<char>::empty()] + split_lines(s.drop_first())
    } else {
        let rest = split_lines(s.drop_first());
        seq![seq![s[0]] + rest[0]] + rest.drop_first()
    }
}

/// The lines joined back with a single newline between consecutive lines
/// (mirrors `[String]::join("\n")`).
pub open spec fn join_lines(ls: Seq<Seq<char>>) -> Seq<char>
    decreases ls.len(),
{
    if ls.len() == 0 {
        Seq::<char>::empty()
    } else if ls.len() == 1 {
        ls[0]
    } else {
        ls[0] + seq!['\n'] + join_lines(ls.drop_first())
    }
}

/// The lines of a text file as a reader sees them: like `split_lines`, but
/// a final empty segment (the effect of a trailing newline, or of an empty
/// file) is not a line (mirrors `BufRead::lines` on newline-terminated text).
pub open spec fn text_lines(s: Seq<char>) -> Seq<Seq<char>> {
    let ls = split_lines(s);
    if ls.last().len() == 0 {
        ls.drop_last()
    } else {
        ls
    }
}

/// The lines concatenated with a trailing newline after every line.
pub open spec fn unlines(ls: Seq<Seq<char>>) -> Seq<char>
    decreases ls.len(),
{
    if ls.len() == 0 {
        Seq::<char>::empty()
    } else {
        ls[0] + seq!['\n'] + unlines(ls.drop_first())
    }
}

/// `pat` occurs in `s` starting at position `i`.
pub open spec fn match_at(s: Seq<char>, pat: Seq<char>, i: int) -> bool {
    0 <= i && i + pat.len() <= s.len() && s.subrange(i, i + pat.len()) == pat
}

/// Some occurrence of `pat` begins at or after `from`.
pub open spec fn has_match_from(s: Seq<char>, pat: Seq<char>, from: int) -> bool {
    exists|i: int| from <= i && match_at(s, pat, i)
}

/// `pat` occurs somewhere in `s`.
pub open spec fn contains_seq(s: Seq<char>, pat: Seq<char>) -> bool {
    has_match_from(s, pat, 0)
}

/// `r` is the position of the leftmost occurrence of `pat` in `s` at or
/// after `from` (`None` when there is none).
pub open spec fn is_first_match(s: Seq<char>, pat: Seq<char>, from: int, r: Option<int>) -> bool {
    match r {
        Some(i) => from <= i && match_at(s, pat, i) && (forall|j: int|
            from <= j < i ==> !match_at(s, pat, j)),
        None => !has_match_from(s, pat, from),
    }
}

/// Strict lexicographic order on character sequences, by code point.
pub open spec fn lex_lt(a: Seq<char>, b: Seq<char>) -> bool
    decreases a.len(),
{
    if b.len() == 0 {
        false
    } else if a.len() == 0 {
        true
    } else if a[0] != b[0] {
        (a[0] as u32) < (b[0] as u32)
    } else {
        lex_lt(a.drop_first(), b.drop_first())
    }
}

/// The lexicographic order never puts a text below itself.
pub proof fn lemma_lex_lt_irrefl(a: Seq<char>)
    ensures
        !lex_lt(a, a),
    decreases a.len(),
{
    if a.len() > 0 {
        lemma_lex_lt_irrefl(a.drop_first());
    }
}

/// The lexicographic order chains.
pub proof fn lemma_lex_lt_trans(a: Seq<char>, b: Seq<char>, c: Seq<char>)
    requires
        lex_lt(a, b),
        lex_lt(b, c),
    ensures
        lex_lt(a, c),
    decreases a.len(),
{
    if a.len() == 0 {
    } else {
        if a[0] == b[0] {
            if b[0] == c[0] {
                lemma_lex_lt_trans(a.drop_first(), b.drop_first(), c.drop_first());
            }
        }
    }
}

pub open spec fn is_digit(c: char) -> bool {
    '0' <= c && c <= '9'
}

pub open spec fn digit_val(c: char) -> int {
    c as int - '0' as int
}

pub open spec fn all_digits(s: Seq<char>) -> bool {
    s.len() > 0 && forall|i: int| 0 <= i < s.len() ==> is_digit(s[i])
}

/// The number that a sequence of decimal digits denotes.
pub open spec fn digits_val(s: Seq<char>) -> int
    decreases s.len(),
{
    if s.len() == 0 {
        0
    } else {
        digits_val(s.drop_last()) * 10 + digit_val(s.last())
    }
}

/// Every character of `s` in the half-open index range `[from, to)` differs
/// from `c`.
pub open spec fn no_char_in(s: Seq<char>, c: char, from: int, to: int) -> bool {
    forall|j: int| from <= j < to ==> s[j] != c
}

/// `s` with every occurrence of the character `from` replaced by `to`.
pub open spec fn map_replace_char(s: Seq<char>, from: char, to: char) -> Seq<char> {
    s.map_values(|c: char| if c == from { to } else { c })
}

pub proof fn lemma_split_lines_len(s: Seq<char>)
    ensures
        split_lines(s).len() >= 1,
    decreases s.len(),
{
    if s.len() == 0 {
    } else if s[0] == '\n' {
        lemma_split_lines_len(s.drop_first());
    } else {
        lemma_split_lines_len(s.drop_first());
    }
}

/// Splitting a newline-free text yields that text as the single line.
pub proof fn lemma_split_no_nl(s: Seq<char>)
    requires
        no_char_in(s, '\n', 0, s.len() as int),
    ensures
        split_lines(s) =~~= seq![s],
    decreases s.len(),
{
    if s.len() == 0 {
    } else {
        lemma_split_no_nl(s.drop_first());
    }
}

/// Splitting at the leftmost newline: the prefix is the first line and the
/// rest splits on its own.
pub proof fn lemma_split_at_first_nl(s: Seq<char>, i: int)
    requires
        0 <= i < s.len(),
        s[i] == '\n',
        no_char_in(s, '\n', 0, i),
    ensures
        split_lines(s) =~~= seq![s.take(i)] + split_lines(s.skip(i + 1)),
    decreases i,
{
    lemma_split_lines_len(s.skip(i + 1));
    if i == 0 {
        assert(s.drop_first() =~= s.skip(1));
        assert(s.take(0) =~= Seq::<char>::empty());
    } else {
        let t = s.drop_first();
        lemma_split_at_first_nl(t, i - 1);
        assert(t.skip(i) =~= s.skip(i + 1));
        assert(seq![s[0]] + t.take(i - 1) =~= s.take(i));
        lemma_split_lines_len(s.skip(i + 1));
        assert(split_lines(t)[0] == t.take(i - 1));
        assert(split_lines(s) =~~= seq![s.take(i)] + split_lines(s.skip(i + 1)));
    }
}

/// Joining after appending one more line appends a separator and that line.
pub proof fn lemma_join_push(ls: Seq<Seq<char>>, l: Seq<char>)
    requires
        ls.len() >= 1,
    ensures
        join_lines(ls.push(l)) =~= join_lines(ls) + seq!['\n'] + l,
    decreases ls.len(),
{
    if ls.len() == 1 {
        assert(ls.push(l).drop_first() =~~= seq![l]);
        assert(ls.push(l).len() == 2);
        assert(ls.push(l)[0] == ls[0]);
        assert(join_lines(seq![l]) == l);
        assert(join_lines(ls.push(l)) == ls.push(l)[0] + seq!['\n'] + join_lines(
            ls.push(l).drop_first(),
        ));
        assert(join_lines(ls) == ls[0]);
    } else {
        lemma_join_push(ls.drop_first(), l);
        assert(ls.push(l).drop_first() =~~= ls.drop_first().push(l));
        assert(join_lines(ls.push(l)) == ls[0] + seq!['\n'] + join_lines(
            ls.drop_first().push(l),
        ));
        assert(join_lines(ls) == ls[0] + seq!['\n'] + join_lines(ls.drop_first()));
    }
}

/// `unlines` after appending one more line appends that line and a newline.
pub proof fn lemma_unlines_push(ls: Seq<Seq<char>>, l: Seq<char>)
    ensures
        unlines(ls.push(l)) =~= unlines(ls) + l + seq!['\n'],
    decreases ls.len(),
{
    if ls.len() == 0 {
        assert(ls.push(l).drop_first() =~~= Seq::<Seq<char>>::empty());
        assert(ls.push(l)[0] == l);
        assert(unlines(ls.push(l)) == l + seq!['\n'] + unlines(Seq::<Seq<char>>::empty()));
        assert(unlines(ls) == Seq::<char>::empty());
    } else {
        lemma_unlines_push(ls.drop_first(), l);
        assert(ls.push(l).drop_first() =~~= ls.drop_first().push(l));
        assert(unlines(ls.push(l)) == ls[0] + seq!['\n'] + unlines(ls.drop_first().push(l)));
        assert(unlines(ls) == ls[0] + seq!['\n'] + unlines(ls.drop_first()));
    }
}

/// Joining the split of a text restores the text.
pub proof fn lemma_join_split(s: Seq<char>)
    ensures
        join_lines(split_lines(s)) =~= s,
    decreases s.len(),
{
    if s.len() == 0 {
    } else if s[0] == '\n' {
        lemma_join_split(s.drop_first());
        lemma_split_lines_len(s.drop_first());
        assert((seq![Seq::<char>::empty()] + split_lines(s.drop_first())).drop_first()
            =~~= split_lines(s.drop_first()));
    } else {
        lemma_join_split(s.drop_first());
        lemma_split_lines_len(s.drop_first());
        let rest = split_lines(s.drop_first());
        let whole = seq![seq![s[0]] + rest[0]] + rest.drop_first();
        assert(split_lines(s) =~~= whole);
        if rest.len() == 1 {
            assert(join_lines(whole) =~= seq![s[0]] + join_lines(rest));
        } else {
            assert(whole.drop_first() =~~= rest.drop_first());
            assert(join_lines(whole) == whole[0] + seq!['\n'] + join_lines(whole.drop_first()));
            assert(join_lines(rest) == rest[0] + seq!['\n'] + join_lines(rest.drop_first()));
            assert(join_lines(whole) =~= seq![s[0]] + join_lines(rest));
        }
    }
}

/// The view of the one-character newline literal.
pub proof fn lemma_nl_lit()
    ensures
        ("\n")@ =~= seq!['\n'],
{
    reveal_strlit("\n");
}

/// Splits `s` at every newline, keeping empty segments.
pub fn split_nl(s: &str) -> (r: Vec<String>)
    ensures
        r.deep_view() =~~= split_lines(s@),
{
    let n = s.unicode_len();
    let mut r: Vec<String> = Vec::new();
    let mut start: usize = 0;
    let mut i: usize = 0;
    proof {
        assert(s@.skip(0) =~= s@);
        assert(r.deep_view() + split_lines(s@.skip(0)) =~~= split_lines(s@));
    }
    while i < n
        invariant
            start <= i <= n,
            n == s@.len(),
            no_char_in(s@, '\n', start as int, i as int),
            split_lines(s@) =~~= r.deep_view() + split_lines(s@.skip(start as int)),
        decreases n - i,
    {
        if s.get_char(i) == '\n' {
            let piece = s.substring_char(start, i);
            let ghost prev = r.deep_view();
            r.push(piece.to_owned());
            proof {
                assert(r.deep_view() =~~= prev.push(s@.subrange(start as int, i as int)));
                let tail = s@.skip(start as int);
                assert(tail[i - start] == '\n');
                assert(no_char_in(tail, '\n', 0, i - start));
                lemma_split_at_first_nl(tail, i - start as int);
                assert(tail.take(i - start as int) =~= s@.subrange(start as int, i as int));
                assert(tail.skip(i - start + 1) =~= s@.skip(i + 1));
                assert(split_lines(s@) =~~= r.deep_view() + split_lines(s@.skip(i + 1)));
            }
            start = i + 1;
        }
        i += 1;
    }
    let piece = s.substring_char(start, n);
    let ghost prev = r.deep_view();
    r.push(piece.to_owned());
    proof {
        assert(r.deep_view() =~~= prev.push(s@.subrange(start as int, n as int)));
        let tail = s@.skip(start as int);
        lemma_split_no_nl(tail);
        assert(tail =~= s@.subrange(start as int, n as int));
        assert(r.deep_view() =~~= split_lines(s@));
    }
    r
}

/// The lines of a text file: like `split_nl`, but without the empty segment
/// that a trailing newline (or an empty file) leaves at the end.
pub fn lines_of(s: &str) -> (r: Vec<String>)
    ensures
        r.deep_view() =~~= text_lines(s@),
{
    let mut r = split_nl(s);
    proof {
        lemma_split_lines_len(s@);
    }
    let last = r.len() - 1;
    if r[last].as_str().unicode_len() == 0 {
        let _ = r.pop();
        proof {
            assert(r.deep_view() =~~= split_lines(s@).drop_last());
        }
    }
    r
}

/// Joins lines with a single newline between consecutive lines.
pub fn join_nl(v: &Vec<String>) -> (r: String)
    ensures
        r@ =~= join_lines(v.deep_view()),
{
    let mut r = String::new();
    let mut i: usize = 0;
    while i < v.len()
        invariant
            i <= v@.len(),
            r@ =~= join_lines(v.deep_view().take(i as int)),
        decreases v@.len() - i,
    {
        proof {
            lemma_nl_lit();
        }
        if i > 0 {
            r.append("\n");
        }
        r.append(v[i].as_str());
        proof {
            let pre = v.deep_view().take(i as int);
            assert(v.deep_view().take(i + 1) =~~= pre.push(v@[i as int]@));
            if i > 0 {
                lemma_join_push(pre, v@[i as int]@);
            } else {
                assert(join_lines(pre.push(v@[i as int]@)) == v@[i as int]@);
            }
        }
        i += 1;
    }
    proof {
        assert(v.deep_view().take(v@.len() as int) =~~= v.deep_view());
    }
    r
}

/// Concatenates lines, terminating every line with a newline.
pub fn unlines_vec(v: &Vec<String>, from: usize) -> (r: String)
    requires
        from <= v@.len(),
    ensures
        r@ =~= unlines(v.deep_view().skip(from as int)),
{
    let mut r = String::new();
    let mut i: usize = from;
    while i < v.len()
        invariant
            from <= i <= v@.len(),
            r@ =~= unlines(v.deep_view().subrange(from as int, i as int)),
        decreases v@.len() - i,
    {
        r.append(v[i].as_str());
        r.append("\n");
        proof {
            lemma_nl_lit();
            let pre = v.deep_view().subrange(from as int, i as int);
            assert(v.deep_view().subrange(from as int, i + 1) =~~= pre.push(v@[i as int]@));
            lemma_unlines_push(pre, v@[i as int]@);
        }
        i += 1;
    }
    proof {
        assert(v.deep_view().subrange(from as int, v@.len() as int) =~~= v.deep_view().skip(
            from as int,
        ));
    }
    r
}

/// Character-sequence equality of two string slices.
pub fn eq_str(a: &str, b: &str) -> (r: bool)
    ensures
        r == (a@ == b@),
{
    let na = a.unicode_len();
    let nb = b.unicode_len();
    if na != nb {
        return false;
    }
    let mut i: usize = 0;
    while i < na
        invariant
            i <= na,
            na == a@.len(),
            na == b@.len(),
            forall|j: int| 0 <= j < i ==> a@[j] == b@[j],
        decreases na - i,
    {
        if a.get_char(i) != b.get_char(i) {
            return false;
        }
        i += 1;
    }
    proof {
        assert(a@ =~= b@);
    }
    true
}

/// Does `p` begin at position `at` of `s`?
pub fn matches_at(s: &str, p: &str, at: usize) -> (r: bool)
    requires
        at <= s@.len(),
    ensures
        r == match_at(s@, p@, at as int),
{
    let n = s.unicode_len();
    let m = p.unicode_len();
    if m > n - at {
        return false;
    }
    let mut i: usize = 0;
    while i < m
        invariant
            i <= m,
            m == p@.len(),
            n == s@.len(),
            at + m <= n,
            forall|j: int| 0 <= j < i ==> s@[at + j] == p@[j],
        decreases m - i,
    {
        if s.get_char(at + i) != p.get_char(i) {
            assert(s@.subrange(at as int, at + m) != p@) by {
                assert(s@.subrange(at as int, at + m)[i as int] != p@[i as int]);
            }
            return false;
        }
        i += 1;
    }
    proof {
        assert(s@.subrange(at as int, at + m) =~= p@);
    }
    true
}

/// `s` begins with `p`.
pub fn starts_with(s: &str, p: &str) -> (r: bool)
    ensures
        r == match_at(s@, p@, 0),
{
    if p.unicode_len() > s.unicode_len() {
        return false;
    }
    matches_at(s, p, 0)
}

/// Position of the leftmost occurrence of `p` in `s` at or after `from`.
pub fn find_from(s: &str, p: &str, from: usize) -> (r: Option<usize>)
    requires
        from <= s@.len(),
    ensures
        is_first_match(s@, p@, from as int, match r {
            Some(i) => Some(i as int),
            None => None,
        }),
        r is Some ==> r.unwrap() + p@.len() <= s@.len(),
{
    let n = s.unicode_len();
    let mut i: usize = from;
    while i < n
        invariant
            from <= i <= n,
            n == s@.len(),
            forall|j: int| from <= j < i ==> !match_at(s@, p@, j),
        decreases n - i,
    {
        if matches_at(s, p, i) {
            return Some(i);
        }
        i += 1;
    }
    if matches_at(s, p, n) {
        return Some(n);
    }
    proof {
        assert forall|j: int| from <= j && match_at(s@, p@, j) implies false by {
            assert(j + p@.len() <= s@.len());
            assert(j <= n);
        }
    }
    None
}

/// Position of the leftmost occurrence of the character `c` at or after
/// `from` (`None` when there is none).
pub fn find_char_from(s: &str, c: char, from: usize) -> (r: Option<usize>)
    requires
        from <= s@.len(),
    ensures
        match r {
            Some(i) => from <= i < s@.len() && s@[i as int] == c && no_char_in(
                s@,
                c,
                from as int,
                i as int,
            ),
            None => no_char_in(s@, c, from as int, s@.len() as int),
        },
{
    let n = s.unicode_len();
    let mut i: usize = from;
    while i < n
        invariant
            from <= i <= n,
            n == s@.len(),
            no_char_in(s@, c, from as int, i as int),
        decreases n - i,
    {
        if s.get_char(i) == c {
            return Some(i);
        }
        i += 1;
    }
    None
}

/// Appends the single character `s[i]` to `out`.
pub fn push_char_of(out: &mut String, s: &str, i: usize)
    requires
        i < s@.len(),
        s@.len() <= usize::MAX,
    ensures
        final(out)@ =~= old(out)@ + seq![s@[i as int]],
{
    let piece = s.substring_char(i, i + 1);
    out.append(piece);
}

/// Strict lexicographic comparison of two string slices, by code point.
pub fn str_lt(a: &str, b: &str) -> (r: bool)
    ensures
        r == lex_lt(a@, b@),
{
    let na = a.unicode_len();
    let nb = b.unicode_len();
    let mut i: usize = 0;
    proof {
        assert(a@.skip(0) =~= a@);
        assert(b@.skip(0) =~= b@);
    }
    loop
        invariant
            i <= na,
            i <= nb,
            na == a@.len(),
            nb == b@.len(),
            forall|j: int| 0 <= j < i ==> a@[j] == b@[j],
            lex_lt(a@, b@) == lex_lt(a@.skip(i as int), b@.skip(i as int)),
        decreases na - i,
    {
        if i >= nb {
            // b is exhausted: a is not less.
            assert(!lex_lt(a@.skip(i as int), b@.skip(i as int)));
            return false;
        }
        if i >= na {
            // a is a strict prefix of b.
            assert(b@.skip(i as int).len() > 0);
            assert(lex_lt(a@.skip(i as int), b@.skip(i as int)));
            return true;
        }
        let ca = a.get_char(i);
        let cb = b.get_char(i);
        if ca != cb {
            proof {
                let sa = a@.skip(i as int);
                let sb = b@.skip(i as int);
                assert(sa[0] == ca && sb[0] == cb);
            }
            return (ca as u32) < (cb as u32);
        }
        proof {
            let sa = a@.skip(i as int);
            let sb = b@.skip(i as int);
            assert(sa.drop_first() =~= a@.skip(i + 1));
            assert(sb.drop_first() =~= b@.skip(i + 1));
        }
        i += 1;
    }
}

/// Reads a run of decimal digits as a number, reporting overflow past `u32`.
pub fn parse_digits_u32(s: &str) -> (r: Option<u32>)
    ensures
        match r {
            Some(v) => all_digits(s@) && digits_val(s@) == v as int,
            None => !all_digits(s@) || digits_val(s@) > u32::MAX,
        },
{
    let n = s.unicode_len();
    if n == 0 {
        return None;
    }
    let mut v: u64 = 0;
    let mut i: usize = 0;
    while i < n
        invariant
            i <= n,
            n == s@.len(),
            forall|j: int| 0 <= j < i ==> is_digit(s@[j]),
            v as int == digits_val(s@.take(i as int)),
            v <= u32::MAX as u64,
        decreases n - i,
    {
        let c = s.get_char(i);
        if c < '0' || c > '9' {
            return None;
        }
        let d = (c as u32) - ('0' as u32);
        let next: u64 = v * 10 + (d as u64);
        proof {
            assert(s@.take(i + 1).drop_last() =~= s@.take(i as int));
            assert(s@.take(i + 1).last() == s@[i as int]);
        }
        if next > u32::MAX as u64 {
            proof {
                if all_digits(s@) {
                    lemma_digits_val_monotonic(s@, i + 1);
                }
            }
            return None;
        }
        v = next;
        i += 1;
    }
    proof {
        assert(s@.take(n as int) =~= s@);
    }
    Some(v as u32)
}

/// A digit prefix never denotes more than the whole digit string.
proof fn lemma_digits_val_monotonic(s: Seq<char>, i: int)
    requires
        0 <= i <= s.len(),
        forall|j: int| 0 <= j < s.len() ==> is_digit(s[j]),
    ensures
        digits_val(s) >= digits_val(s.take(i)),
        digits_val(s) >= 0,
    decreases s.len() - i,
{
    if i == s.len() {
        assert(s.take(i) =~= s);
        lemma_digits_val_nonneg(s);
    } else {
        lemma_digits_val_monotonic(s, i + 1);
        lemma_digits_val_nonneg(s.take(i));
        assert(s.take(i + 1).drop_last() =~= s.take(i));
        assert(digits_val(s.take(i + 1)) == digits_val(s.take(i)) * 10 + digit_val(
            s.take(i + 1).last(),
        ));
    }
}

proof fn lemma_digits_val_nonneg(s: Seq<char>)
    requires
        forall|j: int| 0 <= j < s.len() ==> is_digit(s[j]),
    ensures
        digits_val(s) >= 0,
    decreases s.len(),
{
    if s.len() > 0 {
        lemma_digits_val_nonneg(s.drop_last());
    }
}

/// Position of the leftmost occurrence of `pat` at or after `from`, as a
/// recursive definition.
pub open spec fn sub_index(s: Seq<char>, pat: Seq<char>, from: int) -> Option<int>
    decreases s.len() - from,
{
    if from < 0 || from + pat.len() > s.len() {
        Option::None
    } else if pat.len() == 0 {
        Option::Some(from)
    } else if match_at(s, pat, from) {
        Option::Some(from)
    } else {
        sub_index(s, pat, from + 1)
    }
}

proof fn lemma_sub_index_of_first(s: Seq<char>, pat: Seq<char>, from: int, r: Option<int>)
    requires
        0 <= from <= s.len(),
        is_first_match(s, pat, from, r),
    ensures
        sub_index(s, pat, from) == r,
    decreases s.len() - from,
{
    if from + pat.len() > s.len() {
        match r {
            Option::Some(i) => {
                assert(match_at(s, pat, i));
                assert(false);
            },
            Option::None => {},
        }
    } else if pat.len() == 0 {
        assert(s.subrange(from, from + pat.len()) =~= pat);
        assert(match_at(s, pat, from));
        match r {
            Option::Some(i) => {
                if i != from {
                    assert(!match_at(s, pat, from));
                }
            },
            Option::None => {
                assert(has_match_from(s, pat, from));
            },
        }
    } else if match_at(s, pat, from) {
        match r {
            Option::Some(i) => {
                if i != from {
                    assert(!match_at(s, pat, from));
                }
            },
            Option::None => {
                assert(has_match_from(s, pat, from));
            },
        }
    } else {
        match r {
            Option::Some(i) => {
                assert(i != from);
                assert(is_first_match(s, pat, from + 1, r));
            },
            Option::None => {
                assert forall|j: int| from + 1 <= j implies !match_at(s, pat, j) by {
                    assert(!has_match_from(s, pat, from));
                }
                assert(is_first_match(s, pat, from + 1, r));
            },
        }
        lemma_sub_index_of_first(s, pat, from + 1, r);
    }
}

/// Where nothing matches, `sub_index` finds nothing.
pub proof fn lemma_sub_index_none(s: Seq<char>, pat: Seq<char>)
    requires
        !has_match_from(s, pat, 0),
    ensures
        sub_index(s, pat, 0) == Option::None::<int>,
{
    lemma_sub_index_of_first(s, pat, 0, Option::None);
}

/// A match inside one line of a text is a match inside the text.
pub proof fn lemma_line_contains_lifts(s: Seq<char>, pat: Seq<char>, i: int)
    requires
        0 <= i < split_lines(s).len(),
        contains_seq(split_lines(s)[i], pat),
    ensures
        contains_seq(s, pat),
    decreases s.len(),
{
    lemma_char_index_first(s, '\n');
    match char_index(s, '\n') {
        Option::None => {
            lemma_split_no_nl(s);
            assert(split_lines(s)[0] == s);
        },
        Option::Some(f) => {
            lemma_split_at_first_nl(s, f);
            if i == 0 {
                assert(split_lines(s)[0] == s.take(f));
                let k = choose|k: int| 0 <= k && match_at(s.take(f), pat, k);
                assert(s.subrange(k, k + pat.len()) =~= s.take(f).subrange(k, k + pat.len()));
                assert(match_at(s, pat, k));
            } else {
                let t = s.skip(f + 1);
                assert(split_lines(s)[i] == split_lines(t)[i - 1]);
                lemma_line_contains_lifts(t, pat, i - 1);
                let k = choose|k: int| 0 <= k && match_at(t, pat, k);
                assert(s.subrange(k + f + 1, k + f + 1 + pat.len()) =~= t.subrange(
                    k,
                    k + pat.len(),
                ));
                assert(match_at(s, pat, k + f + 1));
            }
        },
    }
}

/// The position `sub_index` names, as an executable search.
pub fn find_sub(s: &str, p: &str, from: usize) -> (r: Option<usize>)
    requires
        from <= s@.len(),
    ensures
        sub_index(s@, p@, from as int) == (match r {
            Some(i) => Option::Some(i as int),
            None => Option::None,
        }),
        r matches Some(i) ==> from <= i && i + p@.len() <= s@.len() && match_at(
            s@,
            p@,
            i as int,
        ),
        r is None ==> !has_match_from(s@, p@, from as int),
{
    let r = find_from(s, p, from);
    proof {
        lemma_sub_index_of_first(
            s@,
            p@,
            from as int,
            match r {
                Option::Some(i) => Option::Some(i as int),
                Option::None => Option::None,
            },
        );
    }
    r
}

/// Index of the leftmost occurrence of `c` at or after `from`.
pub open spec fn char_index_from(s: Seq<char>, c: char, from: int) -> Option<int> {
    if 0 <= from <= s.len() {
        match char_index(s.skip(from), c) {
            Option::Some(k) => Option::Some(from + k),
            Option::None => Option::None,
        }
    } else {
        Option::None
    }
}

/// Index of the leftmost occurrence of `c` in `s`.
pub open spec fn char_index(s: Seq<char>, c: char) -> Option<int>
    decreases s.len(),
{
    if s.len() == 0 {
        Option::None
    } else if s[0] == c {
        Option::Some(0)
    } else {
        match char_index(s.drop_first(), c) {
            Option::Some(i) => Option::Some(i + 1),
            Option::None => Option::None,
        }
    }
}

/// Index of the rightmost occurrence of `c` in `s`.
pub open spec fn char_rindex(s: Seq<char>, c: char) -> Option<int>
    decreases s.len(),
{
    if s.len() == 0 {
        Option::None
    } else if s.last() == c {
        Option::Some(s.len() - 1)
    } else {
        char_rindex(s.drop_last(), c)
    }
}

pub proof fn lemma_char_index_at(s: Seq<char>, c: char, i: int)
    requires
        0 <= i < s.len(),
        s[i] == c,
        no_char_in(s, c, 0, i),
    ensures
        char_index(s, c) == Option::Some(i),
    decreases i,
{
    if i > 0 {
        lemma_char_index_at(s.drop_first(), c, i - 1);
    }
}

proof fn lemma_char_index_none(s: Seq<char>, c: char)
    requires
        no_char_in(s, c, 0, s.len() as int),
    ensures
        char_index(s, c) == Option::None::<int>,
    decreases s.len(),
{
    if s.len() > 0 {
        lemma_char_index_none(s.drop_first(), c);
    }
}

proof fn lemma_char_rindex_at(s: Seq<char>, c: char, i: int)
    requires
        0 <= i < s.len(),
        s[i] == c,
        no_char_in(s, c, i + 1, s.len() as int),
    ensures
        char_rindex(s, c) == Option::Some(i),
    decreases s.len(),
{
    if i < s.len() - 1 {
        lemma_char_rindex_at(s.drop_last(), c, i);
    }
}

proof fn lemma_char_rindex_none(s: Seq<char>, c: char)
    requires
        no_char_in(s, c, 0, s.len() as int),
    ensures
        char_rindex(s, c) == Option::None::<int>,
    decreases s.len(),
{
    if s.len() > 0 {
        lemma_char_rindex_none(s.drop_last(), c);
    }
}

/// What `char_index` returns is the leftmost occurrence.
pub proof fn lemma_char_index_first(s: Seq<char>, c: char)
    ensures
        match char_index(s, c) {
            Option::Some(f) => 0 <= f < s.len() && s[f] == c && no_char_in(s, c, 0, f),
            Option::None => no_char_in(s, c, 0, s.len() as int),
        },
    decreases s.len(),
{
    if s.len() > 0 && s[0] != c {
        let t = s.drop_first();
        lemma_char_index_first(t, c);
        match char_index(t, c) {
            Option::Some(f) => {
                assert(s[f + 1] == t[f]);
                assert forall|j: int| 0 <= j < f + 1 implies s[j] != c by {
                    if j > 0 {
                        assert(t[j - 1] != c);
                    }
                }
            },
            Option::None => {
                assert forall|j: int| 0 <= j < s.len() implies s[j] != c by {
                    if j > 0 {
                        assert(t[j - 1] != c);
                    }
                }
            },
        }
    }
}

/// The position `char_index_from` names, as an executable search.
pub fn index_of_char_from(s: &str, c: char, from: usize) -> (r: Option<usize>)
    requires
        from <= s@.len(),
    ensures
        char_index_from(s@, c, from as int) == (match r {
            Some(i) => Option::Some(i as int),
            None => Option::None,
        }),
        r matches Some(i) ==> from <= i < s@.len() && s@[i as int] == c && no_char_in(
            s@,
            c,
            from as int,
            i as int,
        ),
{
    let r = find_char_from(s, c, from);
    proof {
        let tail = s@.skip(from as int);
        match r {
            Option::Some(i) => {
                assert(tail[i - from] == c);
                assert(no_char_in(tail, c, 0, i - from));
                lemma_char_index_at(tail, c, i - from);
            },
            Option::None => {
                assert(no_char_in(tail, c, 0, tail.len() as int));
                lemma_char_index_none(tail, c);
            },
        }
    }
    r
}

/// The position `char_index` names, as an executable search.
pub fn index_of_char(s: &str, c: char) -> (r: Option<usize>)
    ensures
        char_index(s@, c) == (match r {
            Some(i) => Option::Some(i as int),
            None => Option::None,
        }),
        r matches Some(i) ==> i < s@.len(),
{
    let r = find_char_from(s, c, 0);
    proof {
        match r {
            Option::Some(i) => lemma_char_index_at(s@, c, i as int),
            Option::None => lemma_char_index_none(s@, c),
        }
    }
    r
}

/// The position `char_rindex` names, as an executable search from the end.
pub fn rindex_of_char(s: &str, c: char) -> (r: Option<usize>)
    ensures
        char_rindex(s@, c) == (match r {
            Some(i) => Option::Some(i as int),
            None => Option::None,
        }),
        r matches Some(i) ==> i < s@.len(),
{
    let n = s.unicode_len();
    let mut b: usize = n;
    while b > 0
        invariant
            b <= n,
            n == s@.len(),
            no_char_in(s@, c, b as int, n as int),
        decreases b,
    {
        if s.get_char(b - 1) == c {
            proof {
                lemma_char_rindex_at(s@, c, b - 1);
            }
            return Some(b - 1);
        }
        b -= 1;
    }
    proof {
        lemma_char_rindex_none(s@, c);
    }
    None
}

/// `s` with every occurrence of `pat` replaced by `rep`, left to right and
/// without rescanning what was substituted (mirrors `str::replace`).
pub open spec fn replace_all(s: Seq<char>, pat: Seq<char>, rep: Seq<char>) -> Seq<char>
    decreases s.len(),
{
    if pat.len() == 0 {
        s
    } else {
        match sub_index(s, pat, 0) {
            Option::None => s,
            Option::Some(i) => if i < 0 || i + pat.len() > s.len() {
                s
            } else {
                s.take(i) + rep + replace_all(s.skip(i + pat.len()), pat, rep)
            },
        }
    }
}

/// Replaces every occurrence of `pat` with `rep`, left to right.
pub fn replace_str(s: &str, pat: &str, rep: &str) -> (r: String)
    requires
        pat@.len() > 0,
    ensures
        r@ == replace_all(s@, pat@, rep@),
    decreases s@.len(),
{
    let n = s.unicode_len();
    match find_sub(s, pat, 0) {
        None => s.to_owned(),
        Some(i) => {
            let plen = pat.unicode_len();
            let tail = s.substring_char(i + plen, n);
            proof {
                assert(tail@ =~= s@.skip(i + pat@.len()));
            }
            let rest = replace_str(tail, pat, rep);
            let mut out = s.substring_char(0, i).to_owned();
            proof {
                assert(out@ =~= s@.take(i as int));
            }
            out.append(rep);
            out.append(rest.as_str());
            out
        },
    }
}

/// Blank space as the front-matter grammar knows it.
pub open spec fn is_space(c: char) -> bool {
    c == ' ' || c == '\t'
}

pub open spec fn trim_front_spec(s: Seq<char>) -> Seq<char>
    decreases s.len(),
{
    if s.len() > 0 && is_space(s[0]) {
        trim_front_spec(s.drop_first())
    } else {
        s
    }
}

pub open spec fn trim_back_spec(s: Seq<char>) -> Seq<char>
    decreases s.len(),
{
    if s.len() > 0 && is_space(s.last()) {
        trim_back_spec(s.drop_last())
    } else {
        s
    }
}

/// `s` without leading and trailing blank space.
pub open spec fn trim_spec(s: Seq<char>) -> Seq<char> {
    trim_back_spec(trim_front_spec(s))
}

proof fn lemma_trim_front_at(s: Seq<char>, a: int)
    requires
        0 <= a <= s.len(),
        forall|j: int| 0 <= j < a ==> is_space(s[j]),
        a < s.len() ==> !is_space(s[a]),
    ensures
        trim_front_spec(s) =~= s.skip(a),
    decreases a,
{
    if a == 0 {
        assert(s.skip(0) =~= s);
    } else {
        lemma_trim_front_at(s.drop_first(), a - 1);
        assert(s.drop_first().skip(a - 1) =~= s.skip(a));
    }
}

proof fn lemma_trim_back_at(s: Seq<char>, b: int)
    requires
        0 <= b <= s.len(),
        forall|j: int| b <= j < s.len() ==> is_space(s[j]),
        b > 0 ==> !is_space(s[b - 1]),
    ensures
        trim_back_spec(s) =~= s.take(b),
    decreases s.len() - b,
{
    if b == s.len() {
        assert(s.take(b) =~= s);
    } else {
        lemma_trim_back_at(s.drop_last(), b);
        assert(s.drop_last().take(b) =~= s.take(b));
    }
}

fn scan_front(s: &str) -> (a: usize)
    ensures
        a <= s@.len(),
        forall|j: int| 0 <= j < a ==> is_space(s@[j]),
        a < s@.len() ==> !is_space(s@[a as int]),
{
    let n = s.unicode_len();
    let mut a: usize = 0;
    while a < n
        invariant
            a <= n,
            n == s@.len(),
            forall|j: int| 0 <= j < a ==> is_space(s@[j]),
        decreases n - a,
    {
        let c = s.get_char(a);
        if c != ' ' && c != '\t' {
            return a;
        }
        a += 1;
    }
    a
}

fn scan_back(s: &str, a: usize) -> (b: usize)
    requires
        a <= s@.len(),
        a < s@.len() ==> !is_space(s@[a as int]),
    ensures
        a <= b <= s@.len(),
        forall|j: int| b <= j < s@.len() ==> is_space(s@[j]),
        a < s@.len() ==> b > a && !is_space(s@[b - 1]),
{
    let n = s.unicode_len();
    let mut b: usize = n;
    while b > a
        invariant
            a <= b <= n,
            n == s@.len(),
            forall|j: int| b <= j < n ==> is_space(s@[j]),
            a < n ==> !is_space(s@[a as int]),
        decreases b,
    {
        let c = s.get_char(b - 1);
        if c != ' ' && c != '\t' {
            return b;
        }
        if b - 1 == a {
            // s[a] is not blank, so the scan cannot pass it.
            assert(false);
        }
        b -= 1;
    }
    b
}

/// `s` with leading and trailing blank space removed.
pub fn trim(s: &str) -> (r: String)
    ensures
        r@ =~= trim_spec(s@),
{
    let n = s.unicode_len();
    let a = scan_front(s);
    if a == n {
        proof {
            lemma_trim_front_at(s@, n as int);
            assert(s@.skip(n as int) =~= Seq::<char>::empty());
        }
        return String::new();
    }
    let b = scan_back(s, a);
    proof {
        lemma_trim_front_at(s@, a as int);
        let t = s@.skip(a as int);
        lemma_trim_back_at(t, b - a as int);
        assert(t.take(b - a as int) =~= s@.subrange(a as int, b as int));
    }
    let piece = s.substring_char(a, b);
    piece.to_owned()
}

/// Trimming does nothing to a text with solid ends.
pub proof fn lemma_trim_stable(s: Seq<char>)
    requires
        s.len() > 0,
        !is_space(s[0]),
        !is_space(s.last()),
    ensures
        trim_spec(s) == s,
{
}

/// Splitting a line-terminated block followed by a remainder yields the
/// block's lines followed by the remainder's split.
pub proof fn lemma_split_unlines(ls: Seq<Seq<char>>, rest: Seq<char>)
    requires
        forall|i: int|
            0 <= i < ls.len() ==> no_char_in(#[trigger] ls[i], '\n', 0, ls[i].len() as int),
    ensures
        split_lines(unlines(ls) + rest) =~~= ls + split_lines(rest),
    decreases ls.len(),
{
    if ls.len() == 0 {
        assert(unlines(ls) + rest =~= rest);
    } else {
        let l0 = ls[0];
        let s = unlines(ls) + rest;
        let tail = unlines(ls.drop_first()) + rest;
        assert(s =~= l0 + seq!['\n'] + tail);
        assert(s[l0.len() as int] == '\n');
        assert forall|j: int| 0 <= j < l0.len() implies s[j] != '\n' by {
            assert(s[j] == l0[j]);
        }
        lemma_split_at_first_nl(s, l0.len() as int);
        assert(s.take(l0.len() as int) =~= l0);
        assert(s.skip(l0.len() as int + 1) =~= tail);
        assert forall|i: int|
            0 <= i < ls.drop_first().len() implies no_char_in(
            #[trigger] ls.drop_first()[i],
            '\n',
            0,
            ls.drop_first()[i].len() as int,
        ) by {
            assert(ls.drop_first()[i] == ls[i + 1]);
        }
        lemma_split_unlines(ls.drop_first(), rest);
        assert(seq![l0] + (ls.drop_first() + split_lines(rest)) =~~= ls + split_lines(rest));
    }
}

/// `s` without one pair of enclosing double quotes, when both are there.
pub open spec fn unquote_spec(s: Seq<char>) -> Seq<char> {
    if s.len() >= 2 && s[0] == '"' && s.last() == '"' {
        s.subrange(1, s.len() - 1)
    } else {
        s
    }
}

/// Strips one pair of enclosing double quotes, when both are there.
pub fn unquote(s: &str) -> (r: String)
    ensures
        r@ =~= unquote_spec(s@),
{
    let n = s.unicode_len();
    if n >= 2 && s.get_char(0) == '"' && s.get_char(n - 1) == '"' {
        let piece = s.substring_char(1, n - 1);
        piece.to_owned()
    } else {
        s.to_owned()
    }
}

/// Replaces every occurrence of the character `from` with `to`.
pub fn replace_char(s: &str, from: char, to: &str) -> (r: String)
    requires
        to@.len() == 1,
    ensures
        r@ =~= map_replace_char(s@, from, to@[0]),
{
    let n = s.unicode_len();
    let mut r = String::new();
    let mut i: usize = 0;
    while i < n
        invariant
            i <= n,
            n == s@.len(),
            to@.len() == 1,
            r@ =~= map_replace_char(s@.take(i as int), from, to@[0]),
        decreases n - i,
    {
        let c = s.get_char(i);
        if c == from {
            r.append(to);
        } else {
            push_char_of(&mut r, s, i);
        }
        proof {
            assert(s@.take(i + 1) =~= s@.take(i as int).push(s@[i as int]));
            assert(map_replace_char(s@.take(i + 1), from, to@[0]) =~= map_replace_char(
                s@.take(i as int),
                from,
                to@[0],
            ).push(if s@[i as int] == from { to@[0] } else { s@[i as int] }));
        }
        i += 1;
    }
    proof {
        assert(s@.take(n as int) =~= s@);
    }
    r
}

} // verus!
