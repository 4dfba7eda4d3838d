//! Small text filters the site templates lean on: `topath` turns arbitrary
//! text into something usable in a URL, and `filter_words` keeps only
//! plain alphanumeric phrases for keyword lists.

use vstd::prelude::*;

use crate::text::{eq_str, map_replace_char, replace_char};

verus! {

/// What `str::to_lowercase` returns for these characters; the result
/// depends on the characters alone.
pub uninterp spec fn lower_of(s: Seq<char>) -> Seq<char>;

/// Relies on str::to_lowercase: Unicode lowercasing of the text.
#[verifier::external_body]
pub(crate) fn lowercase(s: &str) -> (r: String)
    ensures
        r@ == lower_of(s@),
{
    s.to_lowercase()
}

/// Whether `char::is_alphanumeric` accepts the character.
pub uninterp spec fn alphanumeric(c: char) -> bool;

/// Relies on char::is_alphanumeric: the Unicode letter/number classes.
#[verifier::external_body]
fn is_alphanumeric_char(c: char) -> (r: bool)
    ensures
        r == alphanumeric(c),
{
    c.is_alphanumeric()
}

/// What `topath` returns: a named replacement for a lone punctuation
/// character, else the text with spaces underscored and lowercased.
pub open spec fn topath_spec(s: Seq<char>) -> Seq<char> {
    if s == "!"@ {
        "exclamation-mark"@
    } else if s == "\""@ {
        "double-quote"@
    } else if s == "#"@ {
        "number-sign"@
    } else if s == "$"@ {
        "dollar"@
    } else if s == "%"@ {
        "percent-sign"@
    } else if s == "&"@ {
        "ampersand"@
    } else if s == "'"@ {
        "single-quote"@
    } else if s == "("@ {
        "open-parenthesis"@
    } else if s == ")"@ {
        "close-parenthesis"@
    } else if s == "*"@ {
        "asterisk"@
    } else if s == "+"@ {
        "plus"@
    } else if s == ","@ {
        "comma"@
    } else if s == "-"@ {
        "hyphen-minus"@
    } else if s == "."@ {
        "full-stop"@
    } else if s == "/"@ {
        "forward-slash"@
    } else if s == ":"@ {
        "colon"@
    } else if s == ";"@ {
        "semi-colon"@
    } else if s == "<"@ {
        "less-than"@
    } else if s == "="@ {
        "equals"@
    } else if s == ">"@ {
        "greater-than"@
    } else if s == "?"@ {
        "question-mark"@
    } else if s == "@"@ {
        "at-sign"@
    } else if s == "["@ {
        "opening-bracket"@
    } else if s == "\\"@ {
        "back-slash"@
    } else if s == "]"@ {
        "closing-bracket"@
    } else if s == "^"@ {
        "caret"@
    } else if s == "`"@ {
        "backtick"@
    } else {
        lower_of(map_replace_char(s, ' ', '_'))
    }
}

/// Converts text to something usable as a path in a URL: a few lone
/// punctuation marks get names, everything else is underscored and
/// lowercased.
pub fn topath(text: &str) -> (r: String)
    ensures
        r@ == topath_spec(text@),
{
    if eq_str(text, "!") {
        "exclamation-mark".to_owned()
    } else if eq_str(text, "\"") {
        "double-quote".to_owned()
    } else if eq_str(text, "#") {
        "number-sign".to_owned()
    } else if eq_str(text, "$") {
        "dollar".to_owned()
    } else if eq_str(text, "%") {
        "percent-sign".to_owned()
    } else if eq_str(text, "&") {
        "ampersand".to_owned()
    } else if eq_str(text, "'") {
        "single-quote".to_owned()
    } else if eq_str(text, "(") {
        "open-parenthesis".to_owned()
    } else if eq_str(text, ")") {
        "close-parenthesis".to_owned()
    } else if eq_str(text, "*") {
        "asterisk".to_owned()
    } else if eq_str(text, "+") {
        "plus".to_owned()
    } else if eq_str(text, ",") {
        "comma".to_owned()
    } else if eq_str(text, "-") {
        "hyphen-minus".to_owned()
    } else if eq_str(text, ".") {
        "full-stop".to_owned()
    } else if eq_str(text, "/") {
        "forward-slash".to_owned()
    } else if eq_str(text, ":") {
        "colon".to_owned()
    } else if eq_str(text, ";") {
        "semi-colon".to_owned()
    } else if eq_str(text, "<") {
        "less-than".to_owned()
    } else if eq_str(text, "=") {
        "equals".to_owned()
    } else if eq_str(text, ">") {
        "greater-than".to_owned()
    } else if eq_str(text, "?") {
        "question-mark".to_owned()
    } else if eq_str(text, "@") {
        "at-sign".to_owned()
    } else if eq_str(text, "[") {
        "opening-bracket".to_owned()
    } else if eq_str(text, "\\") {
        "back-slash".to_owned()
    } else if eq_str(text, "]") {
        "closing-bracket".to_owned()
    } else if eq_str(text, "^") {
        "caret".to_owned()
    } else if eq_str(text, "`") {
        "backtick".to_owned()
    } else {
        proof {
            reveal_strlit("_");
        }
        let underscored = replace_char(text, ' ', "_");
        lowercase(underscored.as_str())
    }
}

/// The liquid-facing marker for the `topath` filter.
#[derive(Clone, Copy, Debug, Default)]
pub struct ToPath;

/// The parsed `topath` filter: evaluation applies `topath` to its input.
#[derive(Debug, Default)]
pub struct ToPathFilter;

impl ToPathFilter {
    /// Applies the filter to one input value.
    pub fn evaluate(&self, input: &str) -> (r: String)
        ensures
            r@ == topath_spec(input@),
    {
        topath(input)
    }
}

/// A word fit for a keyword list: alphanumeric characters and spaces only.
pub open spec fn word_clean(w: Seq<char>) -> bool {
    forall|i: int| 0 <= i < w.len() ==> alphanumeric(w[i]) || w[i] == ' '
}

/// The clean words, in order.
pub open spec fn filter_clean(ws: Seq<Seq<char>>) -> Seq<Seq<char>>
    decreases ws.len(),
{
    if ws.len() == 0 {
        Seq::empty()
    } else if word_clean(ws[0]) {
        seq![ws[0]] + filter_clean(ws.drop_first())
    } else {
        filter_clean(ws.drop_first())
    }
}

fn word_clean_exec(w: &str) -> (r: bool)
    ensures
        r == word_clean(w@),
{
    let n = w.unicode_len();
    let mut i: usize = 0;
    while i < n
        invariant
            i <= n,
            n == w@.len(),
            forall|j: int| 0 <= j < i ==> alphanumeric(w@[j]) || w@[j] == ' ',
        decreases n - i,
    {
        let c = w.get_char(i);
        if !is_alphanumeric_char(c) && c != ' ' {
            return false;
        }
        i += 1;
    }
    true
}

/// Keeps the words made only of alphanumeric characters and spaces.
pub fn filter_words(words: &Vec<String>) -> (r: Vec<String>)
    ensures
        r.deep_view() == filter_clean(words.deep_view()),
{
    let ghost wv = words.deep_view();
    let mut out: Vec<String> = Vec::new();
    let mut k: usize = 0;
    proof {
        assert(wv.skip(0) =~~= wv);
        assert(out.deep_view() + filter_clean(wv) =~~= filter_clean(wv));
    }
    while k < words.len()
        invariant
            k <= words@.len(),
            wv == words.deep_view(),
            filter_clean(wv) =~~= out.deep_view() + filter_clean(wv.skip(k as int)),
        decreases words@.len() - k,
    {
        proof {
            assert(wv.skip(k as int)[0] == wv[k as int]);
            assert(wv.skip(k as int).drop_first() =~~= wv.skip(k + 1));
        }
        if word_clean_exec(words[k].as_str()) {
            let ghost prev = out.deep_view();
            out.push(words[k].clone());
            proof {
                assert(out.deep_view() =~~= prev.push(wv[k as int]));
                let rest = filter_clean(wv.skip(k + 1));
                assert(prev.push(wv[k as int]) + rest =~~= prev + (seq![wv[k as int]] + rest));
            }
        }
        k += 1;
    }
    proof {
        assert(wv.skip(words@.len() as int) =~~= Seq::<Seq<char>>::empty());
        assert(out.deep_view() + Seq::<Seq<char>>::empty() =~~= out.deep_view());
    }
    out
}

} // verus!
