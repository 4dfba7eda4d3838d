//! The inline macros of the expander: the cross-reference list (`latest`),
//! the video embed (`youtube`), and the file-embedding tag.  Each macro is
//! a whitespace-tolerant bracket expression `{% ... %}`; a bracket
//! expression that does not parse as the macro at hand is left untouched.

use vstd::prelude::*;

use crate::model::{Config, Page};
use crate::text::{
    all_digits, char_index, digits_val, eq_str, find_sub, index_of_char, is_space, match_at,
    parse_digits_u32, sub_index,
};
use crate::loader::{basename, basename_exec, ext_of, ext_of_exec};
use crate::languages::{language_for, language_of};

verus! {

// ------------------------------------------------------------------
// Lexing the inside of a bracket expression
// ------------------------------------------------------------------

/// A token of the macro argument list.
enum Token {
    Word(String),
    Lit(String),
    Eq,
}

pub ghost enum TokV {
    Word(Seq<char>),
    Lit(Seq<char>),
    Eq,
}

impl View for Token {
    type V = TokV;

    closed spec fn view(&self) -> TokV {
        match self {
            Token::Word(s) => TokV::Word(s@),
            Token::Lit(s) => TokV::Lit(s@),
            Token::Eq => TokV::Eq,
        }
    }
}

impl DeepView for Token {
    type V = TokV;

    closed spec fn deep_view(&self) -> TokV {
        self.view()
    }
}

pub open spec fn is_tok_delim(c: char) -> bool {
    is_space(c) || c == '=' || c == '"'
}

/// Length of the bare word at the head of `s`.
pub open spec fn word_len(s: Seq<char>) -> int
    decreases s.len(),
{
    if s.len() == 0 || is_tok_delim(s[0]) {
        0
    } else {
        1 + word_len(s.drop_first())
    }
}

proof fn lemma_word_len_bounds(s: Seq<char>)
    ensures
        0 <= word_len(s) <= s.len(),
    decreases s.len(),
{
    if s.len() > 0 && !is_tok_delim(s[0]) {
        lemma_word_len_bounds(s.drop_first());
    }
}

proof fn lemma_word_len_at(s: Seq<char>, e: int)
    requires
        0 <= e <= s.len(),
        forall|j: int| 0 <= j < e ==> !is_tok_delim(s[j]),
        e < s.len() ==> is_tok_delim(s[e]),
    ensures
        word_len(s) == e,
    decreases e,
{
    if e > 0 {
        lemma_word_len_at(s.drop_first(), e - 1);
    }
}

/// The tokens of a macro argument list: bare words, double-quoted
/// literals, and `=`; `None` on an unterminated quote.
pub open spec fn lex(s: Seq<char>) -> Option<Seq<TokV>>
    decreases s.len(),
{
    if s.len() == 0 {
        Option::Some(Seq::empty())
    } else if is_space(s[0]) {
        lex(s.drop_first())
    } else if s[0] == '"' {
        match char_index(s.skip(1), '"') {
            Option::None => Option::None,
            Option::Some(k) => if k < 0 || k + 2 > s.len() {
                Option::None
            } else {
                match lex(s.skip(k + 2)) {
                    Option::None => Option::None,
                    Option::Some(ts) => Option::Some(seq![TokV::Lit(s.subrange(1, k + 1))] + ts),
                }
            },
        }
    } else if s[0] == '=' {
        match lex(s.drop_first()) {
            Option::None => Option::None,
            Option::Some(ts) => Option::Some(seq![TokV::Eq] + ts),
        }
    } else {
        let w = word_len(s);
        if w < 1 || w > s.len() {
            Option::None
        } else {
            match lex(s.skip(w)) {
                Option::None => Option::None,
                Option::Some(ts) => Option::Some(seq![TokV::Word(s.take(w))] + ts),
            }
        }
    }
}

fn scan_word(s: &str) -> (e: usize)
    ensures
        e <= s@.len(),
        word_len(s@) == e,
{
    let n = s.unicode_len();
    let mut e: usize = 0;
    while e < n
        invariant
            e <= n,
            n == s@.len(),
            forall|j: int| 0 <= j < e ==> !is_tok_delim(s@[j]),
        decreases n - e,
    {
        let c = s.get_char(e);
        if c == ' ' || c == '\t' || c == '=' || c == '"' {
            proof {
                lemma_word_len_at(s@, e as int);
            }
            return e;
        }
        e += 1;
    }
    proof {
        lemma_word_len_at(s@, n as int);
    }
    e
}

/// Tokenizes a macro argument list.
fn lex_exec(s: &str) -> (r: Option<Vec<Token>>)
    ensures
        match r {
            Some(v) => lex(s@) == Option::Some(v.deep_view()),
            None => lex(s@) is None,
        },
    decreases s@.len(),
{
    let n = s.unicode_len();
    if n == 0 {
        let out: Vec<Token> = Vec::new();
        proof {
            assert(out.deep_view() =~~= Seq::<TokV>::empty());
        }
        return Some(out);
    }
    let c0 = s.get_char(0);
    if c0 == ' ' || c0 == '\t' {
        let rest = s.substring_char(1, n);
        proof {
            assert(rest@ =~= s@.drop_first());
        }
        return lex_exec(rest);
    }
    if c0 == '"' {
        let tail = s.substring_char(1, n);
        proof {
            assert(tail@ =~= s@.skip(1));
        }
        match index_of_char(tail, '"') {
            None => {
                return None;
            },
            Some(k) => {
                let lit = s.substring_char(1, k + 1);
                let rest = s.substring_char(k + 2, n);
                proof {
                    assert(lit@ =~= s@.subrange(1, k + 1));
                    assert(rest@ =~= s@.skip(k + 2));
                }
                match lex_exec(rest) {
                    None => {
                        return None;
                    },
                    Some(ts) => {
                        let ghost tsv = ts.deep_view();
                        let mut out = ts;
                        out.insert(0, Token::Lit(lit.to_owned()));
                        proof {
                            assert(out.deep_view() =~~= seq![
                                TokV::Lit(s@.subrange(1, k + 1)),
                            ] + tsv);
                        }
                        return Some(out);
                    },
                }
            },
        }
    }
    if c0 == '=' {
        let rest = s.substring_char(1, n);
        proof {
            assert(rest@ =~= s@.drop_first());
        }
        match lex_exec(rest) {
            None => {
                return None;
            },
            Some(ts) => {
                let ghost tsv = ts.deep_view();
                let mut out = ts;
                out.insert(0, Token::Eq);
                proof {
                    assert(out.deep_view() =~~= seq![TokV::Eq] + tsv);
                }
                return Some(out);
            },
        }
    }
    let w = scan_word(s);
    proof {
        lemma_word_len_bounds(s@.drop_first());
        assert(!is_tok_delim(s@[0]));
        assert(word_len(s@) >= 1);
    }
    let word = s.substring_char(0, w);
    let rest = s.substring_char(w, n);
    proof {
        assert(word@ =~= s@.take(w as int));
        assert(rest@ =~= s@.skip(w as int));
    }
    match lex_exec(rest) {
        None => None,
        Some(ts) => {
            let ghost tsv = ts.deep_view();
            let mut out = ts;
            out.insert(0, Token::Word(word.to_owned()));
            proof {
                assert(out.deep_view() =~~= seq![TokV::Word(s@.take(w as int))] + tsv);
            }
            Some(out)
        },
    }
}

// ------------------------------------------------------------------
// Argument shapes
// ------------------------------------------------------------------

/// `latest limit=<digits> [tag=<value>]`: the limit word and the optional
/// tag filter.
pub open spec fn latest_args(toks: Seq<TokV>) -> Option<(Seq<char>, Option<Seq<char>>)> {
    if toks.len() >= 4 && toks[0] == TokV::Word("latest"@) && toks[1] == TokV::Word("limit"@)
        && toks[2] == TokV::Eq && toks[3] is Word {
        let w = toks[3]->Word_0;
        if toks.len() == 4 {
            Option::Some((w, Option::None))
        } else if toks.len() == 7 && toks[4] == TokV::Word("tag"@) && toks[5] == TokV::Eq && (
        toks[6] is Word || toks[6] is Lit) {
            let v = if toks[6] is Word {
                toks[6]->Word_0
            } else {
                toks[6]->Lit_0
            };
            Option::Some((w, Option::Some(v)))
        } else {
            Option::None
        }
    } else {
        Option::None
    }
}

/// `youtube id=<value>`: the video identifier.
pub open spec fn youtube_args(toks: Seq<TokV>) -> Option<Seq<char>> {
    if toks.len() == 4 && toks[0] == TokV::Word("youtube"@) && toks[1] == TokV::Word("id"@)
        && toks[2] == TokV::Eq && (toks[3] is Word || toks[3] is Lit) {
        Option::Some(
            if toks[3] is Word {
                toks[3]->Word_0
            } else {
                toks[3]->Lit_0
            },
        )
    } else {
        Option::None
    }
}

/// `include file="<path>"`: the embedded file's path.
pub open spec fn embed_args(toks: Seq<TokV>) -> Option<Seq<char>> {
    if toks.len() == 4 && toks[0] == TokV::Word("include"@) && toks[1] == TokV::Word("file"@)
        && toks[2] == TokV::Eq && toks[3] is Lit {
        Option::Some(toks[3]->Lit_0)
    } else {
        Option::None
    }
}

fn tok_is_word(t: &Token, w: &str) -> (r: bool)
    ensures
        r == (t@ == TokV::Word(w@)),
{
    match t {
        Token::Word(s) => eq_str(s.as_str(), w),
        _ => false,
    }
}

fn tok_is_eq(t: &Token) -> (r: bool)
    ensures
        r == (t@ == TokV::Eq),
{
    match t {
        Token::Eq => true,
        _ => false,
    }
}

fn parse_latest_args(toks: &Vec<Token>) -> (r: Option<(String, Option<String>)>)
    ensures
        latest_args(toks.deep_view()) == (match r {
            Some(p) => Option::Some(
                (p.0@, match p.1 {
                    Some(ref t) => Option::Some(t@),
                    None => Option::None::<Seq<char>>,
                }),
            ),
            None => Option::None::<(Seq<char>, Option<Seq<char>>)>,
        }),
{
    if toks.len() >= 4 && tok_is_word(&toks[0], "latest") && tok_is_word(&toks[1], "limit")
        && tok_is_eq(&toks[2]) {
        let w = match &toks[3] {
            Token::Word(s) => s.clone(),
            _ => {
                return None;
            },
        };
        if toks.len() == 4 {
            return Some((w, None));
        }
        if toks.len() == 7 && tok_is_word(&toks[4], "tag") && tok_is_eq(&toks[5]) {
            match &toks[6] {
                Token::Word(s) => {
                    return Some((w, Some(s.clone())));
                },
                Token::Lit(s) => {
                    return Some((w, Some(s.clone())));
                },
                Token::Eq => {
                    return None;
                },
            }
        }
        None
    } else {
        None
    }
}

fn parse_youtube_args(toks: &Vec<Token>) -> (r: Option<String>)
    ensures
        youtube_args(toks.deep_view()) == (match r {
            Some(ref v) => Option::Some(v@),
            None => Option::None::<Seq<char>>,
        }),
{
    if toks.len() == 4 && tok_is_word(&toks[0], "youtube") && tok_is_word(&toks[1], "id")
        && tok_is_eq(&toks[2]) {
        match &toks[3] {
            Token::Word(s) => Some(s.clone()),
            Token::Lit(s) => Some(s.clone()),
            Token::Eq => None,
        }
    } else {
        None
    }
}

fn parse_embed_args(toks: &Vec<Token>) -> (r: Option<String>)
    ensures
        embed_args(toks.deep_view()) == (match r {
            Some(ref v) => Option::Some(v@),
            None => Option::None::<Seq<char>>,
        }),
{
    if toks.len() == 4 && tok_is_word(&toks[0], "include") && tok_is_word(&toks[1], "file")
        && tok_is_eq(&toks[2]) {
        match &toks[3] {
            Token::Lit(s) => Some(s.clone()),
            _ => None,
        }
    } else {
        None
    }
}

// ------------------------------------------------------------------
// The cross-reference list
// ------------------------------------------------------------------

/// The document has the tag.
pub open spec fn has_tag(p: Page, t: Seq<char>) -> bool {
    exists|k: int| 0 <= k < p.tags@.len() && p.tags@[k]@ == t
}

/// The cross-reference list names this document: not the site root, not
/// the archive, and carrying the tag when one is asked for.
pub open spec fn latest_selects(p: Page, tag: Option<Seq<char>>) -> bool {
    &&& p.url_path@.len() != 0
    &&& p.url_path@ != "archive"@
    &&& match tag {
        Option::Some(t) => has_tag(p, t),
        Option::None => true,
    }
}

/// One emitted list item.
pub open spec fn item_text(p: Page) -> Seq<char> {
    "* ["@ + p.title@ + "](/"@ + p.url_path@ + ")\n"@
}

/// The list items the macro emits, in corpus order: up to `limit` of the
/// selected documents, all of them when `limit` is zero.
pub open spec fn latest_items(pages: Seq<Page>, tag: Option<Seq<char>>, limit: int) -> Seq<
    Seq<char>,
>
    decreases pages.len(),
{
    if pages.len() == 0 {
        Seq::empty()
    } else if latest_selects(pages[0], tag) {
        if limit == 1 {
            seq![item_text(pages[0])]
        } else {
            seq![item_text(pages[0])] + latest_items(
                pages.drop_first(),
                tag,
                if limit == 0 {
                    0
                } else {
                    limit - 1
                },
            )
        }
    } else {
        latest_items(pages.drop_first(), tag, limit)
    }
}

pub open spec fn concat_all(ls: Seq<Seq<char>>) -> Seq<char>
    decreases ls.len(),
{
    if ls.len() == 0 {
        Seq::empty()
    } else {
        ls[0] + concat_all(ls.drop_first())
    }
}

/// The text the cross-reference list expands to.
pub open spec fn latest_emit(pages: Seq<Page>, tag: Option<Seq<char>>, limit: int) -> Seq<char> {
    concat_all(latest_items(pages, tag, limit))
}

/// How many documents of the corpus the filter selects.
pub open spec fn match_count(pages: Seq<Page>, tag: Option<Seq<char>>) -> int
    decreases pages.len(),
{
    if pages.len() == 0 {
        0int
    } else {
        (if latest_selects(pages[0], tag) {
            1int
        } else {
            0int
        }) + match_count(pages.drop_first(), tag)
    }
}

/// The cross-reference list emits exactly `min(limit, n)` items for a
/// corpus with `n` matching documents when the limit is positive, and all
/// `n` when the limit is zero; the synthetic archive and the site root are
/// never among them (they are never selected).
pub proof fn lemma_latest_count(pages: Seq<Page>, tag: Option<Seq<char>>, limit: int)
    requires
        limit >= 0,
    ensures
        match_count(pages, tag) >= 0,
        limit == 0 ==> latest_items(pages, tag, limit).len() == match_count(pages, tag),
        limit > 0 ==> latest_items(pages, tag, limit).len() == (if limit <= match_count(
            pages,
            tag,
        ) {
            limit
        } else {
            match_count(pages, tag)
        }),
    decreases pages.len(),
{
    if pages.len() == 0 {
    } else if latest_selects(pages[0], tag) {
        if limit == 1 {
            lemma_latest_count(pages.drop_first(), tag, 0);
        } else if limit == 0 {
            lemma_latest_count(pages.drop_first(), tag, 0);
        } else {
            lemma_latest_count(pages.drop_first(), tag, limit - 1);
        }
    } else {
        lemma_latest_count(pages.drop_first(), tag, limit);
    }
}

fn has_tag_exec(p: &Page, t: &str) -> (r: bool)
    ensures
        r == has_tag(*p, t@),
{
    let mut k: usize = 0;
    while k < p.tags.len()
        invariant
            k <= p.tags@.len(),
            forall|j: int| 0 <= j < k ==> p.tags@[j]@ != t@,
        decreases p.tags@.len() - k,
    {
        if eq_str(p.tags[k].as_str(), t) {
            return true;
        }
        k += 1;
    }
    false
}

fn latest_emit_exec(pages: &Vec<Page>, i: usize, tag: &Option<String>, limit: u32) -> (r: String)
    requires
        i <= pages@.len(),
    ensures
        r@ == latest_emit(pages@.skip(i as int), match tag {
            Some(t) => Option::Some(t@),
            None => Option::None::<Seq<char>>,
        }, limit as int),
    decreases pages@.len() - i,
{
    let ghost tv: Option<Seq<char>> = match tag {
        Some(t) => Option::Some(t@),
        None => Option::None,
    };
    if i == pages.len() {
        proof {
            assert(pages@.skip(i as int) =~= Seq::<Page>::empty());
        }
        return String::new();
    }
    let p = &pages[i];
    proof {
        assert(pages@.skip(i as int)[0] == pages@[i as int]);
        assert(pages@.skip(i as int).drop_first() =~= pages@.skip(i + 1));
    }
    let selected = p.url_path.as_str().unicode_len() > 0 && !eq_str(p.url_path.as_str(), "archive")
        && (match tag {
        Some(t) => has_tag_exec(p, t.as_str()),
        None => true,
    });
    if selected {
        let mut item = String::new();
        item.append("* [");
        item.append(p.title.as_str());
        item.append("](/");
        item.append(p.url_path.as_str());
        item.append(")\n");
        proof {
            assert(item@ == item_text(pages@[i as int]));
        }
        if limit == 1 {
            proof {
                let single = seq![item_text(pages@[i as int])];
                assert(single.drop_first() =~~= Seq::<Seq<char>>::empty());
                assert(concat_all(single) == single[0] + concat_all(single.drop_first()));
                assert(concat_all(single) =~= item_text(pages@[i as int]));
            }
            return item;
        }
        let rest = latest_emit_exec(pages, i + 1, tag, if limit == 0 {
            0
        } else {
            limit - 1
        });
        let out = item.concat(rest.as_str());
        proof {
            let items_rest = latest_items(pages@.skip(i + 1), tv, if limit == 0 {
                0int
            } else {
                limit - 1
            });
            assert((seq![item_text(pages@[i as int])] + items_rest).drop_first() =~~= items_rest);
            assert(concat_all(seq![item_text(pages@[i as int])] + items_rest) =~= item_text(
                pages@[i as int],
            ) + concat_all(items_rest));
        }
        out
    } else {
        latest_emit_exec(pages, i + 1, tag, limit)
    }
}

// ------------------------------------------------------------------
// The passes over one line
// ------------------------------------------------------------------

/// Expands every cross-reference-list macro of one line against the
/// corpus; a malformed limit is a fatal error.
pub open spec fn latest_pass(pages: Seq<Page>, s: Seq<char>) -> Result<Seq<char>, Seq<char>>
    decreases s.len(),
{
    match sub_index(s, "{%"@, 0) {
        Option::None => Result::Ok(s),
        Option::Some(i) => if i < 0 || i + 2 > s.len() {
            Result::Ok(s)
        } else {
            match sub_index(s, "%}"@, i + 2) {
                Option::None => Result::Ok(s),
                Option::Some(j) => if j < i + 2 || j + 2 > s.len() {
                    Result::Ok(s)
                } else {
                    let inner = s.subrange(i + 2, j);
                let parsed = match lex(inner) {
                    Option::None => Option::None,
                    Option::Some(toks) => latest_args(toks),
                };
                match parsed {
                    Option::Some((w, tag)) => {
                        if all_digits(w) && digits_val(w) <= u32::MAX {
                            match latest_pass(pages, s.skip(j + 2)) {
                                Result::Ok(rest) => Result::Ok(
                                    s.take(i) + latest_emit(pages, tag, digits_val(w)) + rest,
                                ),
                                Result::Err(e) => Result::Err(e),
                            }
                        } else {
                            Result::Err("Expected number"@)
                        }
                    },
                    Option::None => match latest_pass(pages, s.skip(i + 1)) {
                        Result::Ok(rest) => Result::Ok(s.take(i + 1) + rest),
                        Result::Err(e) => Result::Err(e),
                    },
                    }
                },
            }
        },
    }
}

/// Expands the cross-reference-list macros of one line of text, reading
/// the whole corpus for the latest matching documents.
pub fn process_liquid_tags_for_text(text: &str, all_pages: &Vec<Page>) -> (r: Result<
    String,
    String,
>)
    ensures
        latest_pass(all_pages@, text@) == (match r {
            Ok(ref x) => Result::<Seq<char>, Seq<char>>::Ok(x@),
            Err(ref e) => Result::<Seq<char>, Seq<char>>::Err(e@),
        }),
    decreases text@.len(),
{
    proof {
        reveal_strlit("{%");
        reveal_strlit("%}");
    }
    let n = text.unicode_len();
    let i = match find_sub(text, "{%", 0) {
        Some(i) => i,
        None => {
            return Ok(text.to_owned());
        },
    };
    let j = match find_sub(text, "%}", i + 2) {
        Some(j) => j,
        None => {
            return Ok(text.to_owned());
        },
    };
    let inner = text.substring_char(i + 2, j);
    proof {
        assert(inner@ =~= text@.subrange(i + 2, j as int));
    }
    let parsed = match lex_exec(inner) {
        Some(toks) => parse_latest_args(&toks),
        None => None,
    };
    match parsed {
        Some((w, tag)) => {
            match parse_digits_u32(w.as_str()) {
                Some(limit) => {
                    let emitted = latest_emit_exec(all_pages, 0, &tag, limit);
                    let tail = text.substring_char(j + 2, n);
                    proof {
                        assert(tail@ =~= text@.skip(j + 2));
                        assert(all_pages@.skip(0) =~= all_pages@);
                    }
                    match process_liquid_tags_for_text(tail, all_pages) {
                        Ok(rest) => {
                            let mut out = text.substring_char(0, i).to_owned();
                            proof {
                                assert(out@ =~= text@.take(i as int));
                            }
                            out.append(emitted.as_str());
                            out.append(rest.as_str());
                            Ok(out)
                        },
                        Err(e) => Err(e),
                    }
                },
                None => Err("Expected number".to_owned()),
            }
        },
        None => {
            let tail = text.substring_char(i + 1, n);
            proof {
                assert(tail@ =~= text@.skip(i + 1));
            }
            match process_liquid_tags_for_text(tail, all_pages) {
                Ok(rest) => {
                    let mut out = text.substring_char(0, i + 1).to_owned();
                    proof {
                        assert(out@ =~= text@.take(i + 1));
                    }
                    out.append(rest.as_str());
                    Ok(out)
                },
                Err(e) => Err(e),
            }
        },
    }
}

// ------------------------------------------------------------------
// The video embed
// ------------------------------------------------------------------

/// The markup one video identifier expands to, newline-terminated.
pub open spec fn youtube_embed(id: Seq<char>) -> Seq<char> {
    "<iframe width=\"560\" height=\"315\" src=\"https://www.youtube.com/embed/"@ + id
        + "\" title=\"YouTube video player\" frameborder=\"0\" allow=\"accelerometer; autoplay; clipboard-write; encrypted-media; gyroscope; picture-in-picture; web-share\" allowfullscreen></iframe>\n"@
}

/// Renders the embed markup for one identifier.
pub fn youtube_render(id: &str) -> (r: String)
    ensures
        r@ == youtube_embed(id@),
{
    let mut r = String::new();
    r.append("<iframe width=\"560\" height=\"315\" src=\"https://www.youtube.com/embed/");
    r.append(id);
    r.append(
        "\" title=\"YouTube video player\" frameborder=\"0\" allow=\"accelerometer; autoplay; clipboard-write; encrypted-media; gyroscope; picture-in-picture; web-share\" allowfullscreen></iframe>\n",
    );
    r
}

/// Expands every video-embed macro of one line; this macro cannot fail.
pub open spec fn youtube_pass(s: Seq<char>) -> Seq<char>
    decreases s.len(),
{
    match sub_index(s, "{%"@, 0) {
        Option::None => s,
        Option::Some(i) => if i < 0 || i + 2 > s.len() {
            s
        } else {
            match sub_index(s, "%}"@, i + 2) {
                Option::None => s,
                Option::Some(j) => if j < i + 2 || j + 2 > s.len() {
                    s
                } else {
                    let parsed = match lex(s.subrange(i + 2, j)) {
                        Option::None => Option::None,
                        Option::Some(toks) => youtube_args(toks),
                    };
                    match parsed {
                        Option::Some(id) => s.take(i) + youtube_embed(id) + youtube_pass(
                            s.skip(j + 2),
                        ),
                        Option::None => s.take(i + 1) + youtube_pass(s.skip(i + 1)),
                    }
                },
            }
        },
    }
}

/// Expands the video-embed macros of one line of text.
pub fn process_liquid_tags_youtube(text: &str) -> (r: String)
    ensures
        r@ == youtube_pass(text@),
    decreases text@.len(),
{
    proof {
        reveal_strlit("{%");
        reveal_strlit("%}");
    }
    let n = text.unicode_len();
    let i = match find_sub(text, "{%", 0) {
        Some(i) => i,
        None => {
            return text.to_owned();
        },
    };
    let j = match find_sub(text, "%}", i + 2) {
        Some(j) => j,
        None => {
            return text.to_owned();
        },
    };
    let inner = text.substring_char(i + 2, j);
    proof {
        assert(inner@ =~= text@.subrange(i + 2, j as int));
    }
    let parsed = match lex_exec(inner) {
        Some(toks) => parse_youtube_args(&toks),
        None => None,
    };
    match parsed {
        Some(id) => {
            let embed = youtube_render(id.as_str());
            let tail = text.substring_char(j + 2, n);
            proof {
                assert(tail@ =~= text@.skip(j + 2));
            }
            let rest = process_liquid_tags_youtube(tail);
            let mut out = text.substring_char(0, i).to_owned();
            proof {
                assert(out@ =~= text@.take(i as int));
            }
            out.append(embed.as_str());
            out.append(rest.as_str());
            out
        },
        None => {
            let tail = text.substring_char(i + 1, n);
            proof {
                assert(tail@ =~= text@.skip(i + 1));
            }
            let rest = process_liquid_tags_youtube(tail);
            let mut out = text.substring_char(0, i + 1).to_owned();
            proof {
                assert(out@ =~= text@.take(i + 1));
            }
            out.append(rest.as_str());
            out
        },
    }
}

// ------------------------------------------------------------------
// The file-embedding tag
// ------------------------------------------------------------------

/// One file the expander may embed: its corpus-relative path and its text.
pub struct FileEntry {
    pub path: String,
    pub content: String,
}

pub ghost struct FileEntryV {
    pub path: Seq<char>,
    pub content: Seq<char>,
}

impl View for FileEntry {
    type V = FileEntryV;

    open spec fn view(&self) -> FileEntryV {
        FileEntryV { path: self.path@, content: self.content@ }
    }
}

impl DeepView for FileEntry {
    type V = FileEntryV;

    open spec fn deep_view(&self) -> FileEntryV {
        self.view()
    }
}

/// The content recorded for a path, first entry wins.
pub open spec fn lookup_file(files: Seq<FileEntryV>, path: Seq<char>) -> Option<Seq<char>>
    decreases files.len(),
{
    if files.len() == 0 {
        Option::None
    } else if files[0].path == path {
        Option::Some(files[0].content)
    } else {
        lookup_file(files.drop_first(), path)
    }
}

fn lookup_file_exec(files: &Vec<FileEntry>, path: &str) -> (r: Option<String>)
    ensures
        lookup_file(files.deep_view(), path@) == (match r {
            Some(ref c) => Option::Some(c@),
            None => Option::None::<Seq<char>>,
        }),
{
    let mut k: usize = 0;
    proof {
        assert(files.deep_view().skip(0) =~~= files.deep_view());
    }
    while k < files.len()
        invariant
            k <= files@.len(),
            lookup_file(files.deep_view(), path@) == lookup_file(
                files.deep_view().skip(k as int),
                path@,
            ),
        decreases files@.len() - k,
    {
        proof {
            assert(files.deep_view().skip(k as int)[0] == files@[k as int]@);
            assert(files.deep_view().skip(k as int).drop_first() =~~= files.deep_view().skip(
                k + 1,
            ));
        }
        if eq_str(files[k].path.as_str(), path) {
            return Some(files[k].content.clone());
        }
        k += 1;
    }
    proof {
        assert(files.deep_view().skip(files@.len() as int) =~~= Seq::<FileEntryV>::empty());
    }
    None
}

/// A path resolved against the content root.
pub open spec fn join_path(root: Seq<char>, p: Seq<char>) -> Seq<char> {
    if root.len() == 0 {
        p
    } else if root.last() == '/' {
        root + p
    } else {
        root + "/"@ + p
    }
}

fn join_path_exec(root: &str, p: &str) -> (r: String)
    ensures
        r@ == join_path(root@, p@),
{
    let n = root.unicode_len();
    if n == 0 {
        p.to_owned()
    } else if root.get_char(n - 1) == '/' {
        let mut r = root.to_owned();
        r.append(p);
        r
    } else {
        let mut r = root.to_owned();
        r.append("/");
        r.append(p);
        r
    }
}

/// What one file-embedding macro expands to: a byline linking the file in
/// the repository, then the file fenced and labeled; or the fatal error.
pub open spec fn embed_render(
    root: Seq<char>,
    repo: Seq<char>,
    branch: Seq<char>,
    files: Seq<FileEntryV>,
    file: Seq<char>,
) -> Result<Seq<char>, Seq<char>> {
    let name = basename(file);
    if name.len() == 0 {
        Result::Err("file_name not found in include tag '"@ + file + "'"@)
    } else {
        let lang_or = if name == ".gitignore"@ {
            Result::Ok("gitignore"@)
        } else {
            match ext_of(name) {
                Option::None => Result::Err(
                    "extension not found in include tag '"@ + file + "'"@,
                ),
                Option::Some(ext) => match language_of(ext) {
                    Option::None => Result::Err(
                        "Unhandled extension '"@ + ext + "' in "@ + file,
                    ),
                    Option::Some(lang) => Result::Ok(lang),
                },
            }
        };
        match lang_or {
            Result::Err(e) => Result::Err(e),
            Result::Ok(lang) => {
                let full = join_path(root, file);
                match lookup_file(files, full) {
                    Option::None => Result::Err("Failed to read file \""@ + full + "\""@),
                    Option::Some(content) => Result::Ok(
                        "**["@ + file + "]("@ + repo + "/tree/"@ + branch + "/"@ + file + ")**\n```"@
                            + lang + "\n"@ + content + "\n```\n"@,
                    ),
                }
            },
        }
    }
}

fn embed_render_exec(
    root: &str,
    repo: &str,
    branch: &str,
    files: &Vec<FileEntry>,
    file: &str,
) -> (r: Result<String, String>)
    ensures
        embed_render(root@, repo@, branch@, files.deep_view(), file@) == (match r {
            Ok(ref x) => Result::<Seq<char>, Seq<char>>::Ok(x@),
            Err(ref e) => Result::<Seq<char>, Seq<char>>::Err(e@),
        }),
{
    let name = basename_exec(file);
    if name.as_str().unicode_len() == 0 {
        let mut e = String::new();
        e.append("file_name not found in include tag '");
        e.append(file);
        e.append("'");
        return Err(e);
    }
    let lang: String = if eq_str(name.as_str(), ".gitignore") {
        "gitignore".to_owned()
    } else {
        match ext_of_exec(name.as_str()) {
            None => {
                let mut e = String::new();
                e.append("extension not found in include tag '");
                e.append(file);
                e.append("'");
                return Err(e);
            },
            Some(ext) => match language_for(ext.as_str()) {
                None => {
                    let mut e = String::new();
                    e.append("Unhandled extension '");
                    e.append(ext.as_str());
                    e.append("' in ");
                    e.append(file);
                    return Err(e);
                },
                Some(lang) => lang,
            },
        }
    };
    let full = join_path_exec(root, file);
    match lookup_file_exec(files, full.as_str()) {
        None => {
            let mut e = String::new();
            e.append("Failed to read file \"");
            e.append(full.as_str());
            e.append("\"");
            Err(e)
        },
        Some(content) => {
            let mut out = String::new();
            out.append("**[");
            out.append(file);
            out.append("](");
            out.append(repo);
            out.append("/tree/");
            out.append(branch);
            out.append("/");
            out.append(file);
            out.append(")**\n```");
            out.append(lang.as_str());
            out.append("\n");
            out.append(content.as_str());
            out.append("\n```\n");
            Ok(out)
        },
    }
}

/// Expands every file-embedding macro of one line; an unresolvable target
/// is a fatal error.
pub open spec fn embed_pass(
    root: Seq<char>,
    repo: Seq<char>,
    branch: Seq<char>,
    files: Seq<FileEntryV>,
    s: Seq<char>,
) -> Result<Seq<char>, Seq<char>>
    decreases s.len(),
{
    match sub_index(s, "{%"@, 0) {
        Option::None => Result::Ok(s),
        Option::Some(i) => if i < 0 || i + 2 > s.len() {
            Result::Ok(s)
        } else {
            match sub_index(s, "%}"@, i + 2) {
                Option::None => Result::Ok(s),
                Option::Some(j) => if j < i + 2 || j + 2 > s.len() {
                    Result::Ok(s)
                } else {
                    let parsed = match lex(s.subrange(i + 2, j)) {
                        Option::None => Option::None,
                        Option::Some(toks) => embed_args(toks),
                    };
                    match parsed {
                        Option::Some(file) => match embed_render(root, repo, branch, files, file) {
                            Result::Err(e) => Result::Err(e),
                            Result::Ok(rep) => match embed_pass(
                                root,
                                repo,
                                branch,
                                files,
                                s.skip(j + 2),
                            ) {
                                Result::Ok(rest) => Result::Ok(s.take(i) + rep + rest),
                                Result::Err(e) => Result::Err(e),
                            },
                        },
                        Option::None => match embed_pass(root, repo, branch, files, s.skip(i + 1)) {
                            Result::Ok(rest) => Result::Ok(s.take(i + 1) + rest),
                            Result::Err(e) => Result::Err(e),
                        },
                    }
                },
            }
        },
    }
}

/// Expands the file-embedding macros of one line of text, drawing the
/// embedded files from the given set and the byline from the repository
/// settings of the configuration.
pub fn process_liquid_include(
    config: &Config,
    root: &str,
    text: &str,
    files: &Vec<FileEntry>,
) -> (r: Result<String, String>)
    ensures
        embed_pass(root@, config.repo@, config.branch@, files.deep_view(), text@) == (match r {
            Ok(ref x) => Result::<Seq<char>, Seq<char>>::Ok(x@),
            Err(ref e) => Result::<Seq<char>, Seq<char>>::Err(e@),
        }),
    decreases text@.len(),
{
    proof {
        reveal_strlit("{%");
        reveal_strlit("%}");
    }
    let n = text.unicode_len();
    let i = match find_sub(text, "{%", 0) {
        Some(i) => i,
        None => {
            return Ok(text.to_owned());
        },
    };
    let j = match find_sub(text, "%}", i + 2) {
        Some(j) => j,
        None => {
            return Ok(text.to_owned());
        },
    };
    let inner = text.substring_char(i + 2, j);
    proof {
        assert(inner@ =~= text@.subrange(i + 2, j as int));
    }
    let parsed = match lex_exec(inner) {
        Some(toks) => parse_embed_args(&toks),
        None => None,
    };
    match parsed {
        Some(file) => {
            let rep = match embed_render_exec(
                root,
                config.repo.as_str(),
                config.branch.as_str(),
                files,
                file.as_str(),
            ) {
                Ok(rep) => rep,
                Err(e) => {
                    return Err(e);
                },
            };
            let tail = text.substring_char(j + 2, n);
            proof {
                assert(tail@ =~= text@.skip(j + 2));
            }
            match process_liquid_include(config, root, tail, files) {
                Ok(rest) => {
                    let mut out = text.substring_char(0, i).to_owned();
                    proof {
                        assert(out@ =~= text@.take(i as int));
                    }
                    out.append(rep.as_str());
                    out.append(rest.as_str());
                    Ok(out)
                },
                Err(e) => Err(e),
            }
        },
        None => {
            let tail = text.substring_char(i + 1, n);
            proof {
                assert(tail@ =~= text@.skip(i + 1));
            }
            match process_liquid_include(config, root, tail, files) {
                Ok(rest) => {
                    let mut out = text.substring_char(0, i + 1).to_owned();
                    proof {
                        assert(out@ =~= text@.take(i + 1));
                    }
                    out.append(rest.as_str());
                    Ok(out)
                },
                Err(e) => Err(e),
            }
        },
    }
}

// ------------------------------------------------------------------
// Macro-free lines pass through every pass
// ------------------------------------------------------------------

/// A line without an opening bracket expression is left untouched by the
/// cross-reference pass.
pub proof fn lemma_latest_pass_noop(pages: Seq<Page>, s: Seq<char>)
    requires
        !crate::text::contains_seq(s, "{%"@),
    ensures
        latest_pass(pages, s) == Result::<Seq<char>, Seq<char>>::Ok(s),
{
    crate::text::lemma_sub_index_none(s, "{%"@);
}

/// A line without an opening bracket expression is left untouched by the
/// video-embed pass.
pub proof fn lemma_youtube_pass_noop(s: Seq<char>)
    requires
        !crate::text::contains_seq(s, "{%"@),
    ensures
        youtube_pass(s) == s,
{
    crate::text::lemma_sub_index_none(s, "{%"@);
}

/// A line without an opening bracket expression is left untouched by the
/// file-embedding pass.
pub proof fn lemma_embed_pass_noop(
    root: Seq<char>,
    repo: Seq<char>,
    branch: Seq<char>,
    files: Seq<FileEntryV>,
    s: Seq<char>,
)
    requires
        !crate::text::contains_seq(s, "{%"@),
    ensures
        embed_pass(root, repo, branch, files, s) == Result::<Seq<char>, Seq<char>>::Ok(s),
{
    crate::text::lemma_sub_index_none(s, "{%"@);
}

// ------------------------------------------------------------------
// Tag markers and corpus items
// ------------------------------------------------------------------

/// Marker for the cross-reference-list tag.
#[derive(Clone, Copy, Debug, Default)]
pub struct LatestTag;

impl LatestTag {
    /// The keyword this tag answers to.
    pub fn tag(&self) -> (r: &'static str)
        ensures
            r@ == "latest"@,
    {
        "latest"
    }
}

/// Marker for the video-embed tag.
#[derive(Clone, Copy, Debug, Default)]
pub struct YoutubeTag;

impl YoutubeTag {
    /// The keyword this tag answers to.
    pub fn tag(&self) -> (r: &'static str)
        ensures
            r@ == "youtube"@,
    {
        "youtube"
    }
}

/// Marker for the file-embedding tag.
#[derive(Clone, Copy, Debug, Default)]
pub struct IncludeTag;

impl IncludeTag {
    /// The keyword this tag answers to.
    pub fn tag(&self) -> (r: &'static str)
        ensures
            r@ == "include"@,
    {
        "include"
    }
}

/// A bare corpus item as the cross-reference list sees one: a title, a URL
/// path, and tags.
#[derive(Debug, Clone, PartialEq)]
pub struct Item {
    pub title: String,
    pub url_path: String,
    pub tags: Vec<String>,
}

impl Item {
    pub fn new(title: &str, url_path: &str, tags: &Vec<String>) -> (r: Item)
        ensures
            r.title@ == title@,
            r.url_path@ == url_path@,
            r.tags.deep_view() == tags.deep_view(),
    {
        Item { title: title.to_owned(), url_path: url_path.to_owned(), tags: tags.clone() }
    }
}

} // verus!

