//! The macro expander over whole documents: every line outside fenced code
//! regions goes through the three macro passes, lines inside fenced code
//! pass through untouched.  Also here: the pre-publish scan that rejects
//! leftover macro-like text, and the collection of image files a corpus
//! needs copied.

use vstd::prelude::*;

use crate::model::{BuildError, Config, Page, PageV};
use crate::loader::{basename, basename_exec, ext_of, ext_of_exec};
use crate::tags::{
    embed_pass, latest_pass, process_liquid_include, process_liquid_tags_for_text,
    process_liquid_tags_youtube, youtube_pass, FileEntry, FileEntryV,
};
use crate::text::{
    char_index_from, contains_seq, eq_str, find_sub, index_of_char_from, join_lines, join_nl,
    match_at, split_lines, split_nl, starts_with, sub_index,
};

verus! {

/// A fenced-code delimiter row.
pub open spec fn starts_fence(r: Seq<char>) -> bool {
    match_at(r, "```"@, 0)
}

/// One row through the three passes, in their fixed order: the
/// cross-reference list, then the video embed, then the file embed.
pub open spec fn row_expand(
    all_pages: Seq<Page>,
    root: Seq<char>,
    repo: Seq<char>,
    branch: Seq<char>,
    files: Seq<FileEntryV>,
    row: Seq<char>,
) -> Result<Seq<char>, Seq<char>> {
    match latest_pass(all_pages, row) {
        Result::Err(e) => Result::Err(e),
        Result::Ok(a) => embed_pass(root, repo, branch, files, youtube_pass(a)),
    }
}

/// All rows, threading the fence state; the first failing row aborts.
pub open spec fn expand_rows(
    all_pages: Seq<Page>,
    root: Seq<char>,
    repo: Seq<char>,
    branch: Seq<char>,
    files: Seq<FileEntryV>,
    rows: Seq<Seq<char>>,
    code: bool,
) -> Result<Seq<Seq<char>>, Seq<char>>
    decreases rows.len(),
{
    if rows.len() == 0 {
        Result::Ok(Seq::empty())
    } else {
        let r0 = rows[0];
        let c = if starts_fence(r0) {
            !code
        } else {
            code
        };
        let first = if c {
            Result::Ok(r0)
        } else {
            row_expand(all_pages, root, repo, branch, files, r0)
        };
        match first {
            Result::Err(e) => Result::Err(e),
            Result::Ok(x) => match expand_rows(
                all_pages,
                root,
                repo,
                branch,
                files,
                rows.drop_first(),
                c,
            ) {
                Result::Err(e) => Result::Err(e),
                Result::Ok(rest) => Result::Ok(seq![x] + rest),
            },
        }
    }
}

/// A whole body: split into rows, expanded, joined back.
#[verifier::opaque]
pub open spec fn expand_content(
    all_pages: Seq<Page>,
    root: Seq<char>,
    repo: Seq<char>,
    branch: Seq<char>,
    files: Seq<FileEntryV>,
    content: Seq<char>,
) -> Result<Seq<char>, Seq<char>> {
    match expand_rows(all_pages, root, repo, branch, files, split_lines(content), false) {
        Result::Err(e) => Result::Err(e),
        Result::Ok(rs) => Result::Ok(join_lines(rs)),
    }
}

/// Expands one body against the corpus and the embeddable files.
fn expand_text(
    config: &Config,
    root: &str,
    all_pages: &Vec<Page>,
    files: &Vec<FileEntry>,
    content: &str,
) -> (r: Result<String, String>)
    ensures
        expand_content(
            all_pages@,
            root@,
            config.repo@,
            config.branch@,
            files.deep_view(),
            content@,
        ) == (match r {
            Ok(ref x) => Result::<Seq<char>, Seq<char>>::Ok(x@),
            Err(ref e) => Result::<Seq<char>, Seq<char>>::Err(e@),
        }),
{
    proof {
        reveal(expand_content);
    }
    let ghost pv = all_pages@;
    let ghost fv = files.deep_view();
    let rows = split_nl(content);
    let ghost rv = rows.deep_view();
    let mut out: Vec<String> = Vec::new();
    let mut code = false;
    let mut i: usize = 0;
    proof {
        assert(rv.skip(0) =~~= rv);
        assert(out.deep_view() + rv =~~= rv);
    }
    while i < rows.len()
        invariant
            i <= rows@.len(),
            rv == rows.deep_view(),
            rv == split_lines(content@),
            pv == all_pages@,
            fv == files.deep_view(),
            out@.len() == i,
            match expand_rows(pv, root@, config.repo@, config.branch@, fv, rv.skip(i as int), code) {
                Result::Ok(rest) => expand_rows(pv, root@, config.repo@, config.branch@, fv, rv, false)
                    == Result::<Seq<Seq<char>>, Seq<char>>::Ok(out.deep_view() + rest),
                Result::Err(e) => expand_rows(pv, root@, config.repo@, config.branch@, fv, rv, false)
                    == Result::<Seq<Seq<char>>, Seq<char>>::Err(e),
            },
        decreases rows@.len() - i,
    {
        proof {
            reveal(expand_content);
            assert(rv.skip(i as int)[0] == rv[i as int]);
            assert(rv.skip(i as int).drop_first() =~~= rv.skip(i + 1));
        }
        let row = &rows[i];
        if starts_with(row.as_str(), "```") {
            code = !code;
        }
        let expanded: String = if code {
            row.clone()
        } else {
            let a = match process_liquid_tags_for_text(row.as_str(), all_pages) {
                Ok(a) => a,
                Err(e) => {
                    return Err(e);
                },
            };
            let b = process_liquid_tags_youtube(a.as_str());
            match process_liquid_include(config, root, b.as_str(), files) {
                Ok(c) => c,
                Err(e) => {
                    return Err(e);
                },
            }
        };
        let ghost xv = expanded@;
        let ghost prev = out.deep_view();
        out.push(expanded);
        proof {
            assert(out.deep_view() =~~= prev.push(xv));
            let after = expand_rows(pv, root@, config.repo@, config.branch@, fv, rv.skip(i + 1), code);
            match after {
                Result::Ok(rest) => {
                    assert(prev.push(xv) + rest =~~= prev + (seq![xv] + rest));
                },
                Result::Err(_) => {},
            }
        }
        i += 1;
    }
    proof {
        assert(rv.skip(rows@.len() as int) =~~= Seq::<Seq<char>>::empty());
        assert(out.deep_view() + Seq::<Seq<char>>::empty() =~~= out.deep_view());
    }
    let joined = join_nl(&out);
    Ok(joined)
}

/// The fence state while a row is handled: the state before the block,
/// toggled by every delimiter row up to and including this one.
pub open spec fn code_during(rows: Seq<Seq<char>>, code: bool, i: int) -> bool
    decreases i,
{
    let c0 = if starts_fence(rows[0]) {
        !code
    } else {
        code
    };
    if i <= 0 {
        c0
    } else {
        code_during(rows.drop_first(), c0, i - 1)
    }
}

/// The fenced-code invariant: whatever the expander returns, every row
/// that the fence-toggle state marks as inside code comes back verbatim.
pub proof fn lemma_fenced_rows_pass_through(
    all_pages: Seq<Page>,
    root: Seq<char>,
    repo: Seq<char>,
    branch: Seq<char>,
    files: Seq<FileEntryV>,
    rows: Seq<Seq<char>>,
    code: bool,
)
    ensures
        match expand_rows(all_pages, root, repo, branch, files, rows, code) {
            Result::Ok(out) => out.len() == rows.len() && forall|i: int|
                0 <= i < rows.len() && code_during(rows, code, i) ==> out[i] == rows[i],
            Result::Err(_) => true,
        },
    decreases rows.len(),
{
    if rows.len() == 0 {
    } else {
        let r0 = rows[0];
        let c = if starts_fence(r0) {
            !code
        } else {
            code
        };
        lemma_fenced_rows_pass_through(all_pages, root, repo, branch, files, rows.drop_first(), c);
        match expand_rows(all_pages, root, repo, branch, files, rows, code) {
            Result::Ok(out) => {
                match expand_rows(all_pages, root, repo, branch, files, rows.drop_first(), c) {
                    Result::Ok(rest) => {
                        assert forall|i: int|
                            0 <= i < rows.len() && code_during(rows, code, i) implies out[i]
                            == rows[i] by {
                            if i == 0 {
                            } else {
                                assert(out[i] == rest[i - 1]);
                                assert(code_during(rows.drop_first(), c, i - 1));
                            }
                        }
                    },
                    Result::Err(_) => {},
                }
            },
            Result::Err(_) => {},
        }
    }
}

/// The fenced-code invariant over a whole body: in a successful
/// expansion, the rows the fence state marks as inside code stand in the
/// result verbatim, and the result is those rows joined back together.
pub proof fn lemma_fenced_code_never_expanded(
    all_pages: Seq<Page>,
    root: Seq<char>,
    repo: Seq<char>,
    branch: Seq<char>,
    files: Seq<FileEntryV>,
    content: Seq<char>,
)
    ensures
        match expand_rows(all_pages, root, repo, branch, files, split_lines(content), false) {
            Result::Ok(out) => expand_content(all_pages, root, repo, branch, files, content)
                == Result::<Seq<char>, Seq<char>>::Ok(join_lines(out)) && out.len() == split_lines(
                content,
            ).len() && forall|i: int|
                0 <= i < split_lines(content).len() && code_during(split_lines(content), false, i)
                    ==> out[i] == split_lines(content)[i],
            Result::Err(e) => expand_content(all_pages, root, repo, branch, files, content)
                == Result::<Seq<char>, Seq<char>>::Err(e),
        },
{
    reveal(expand_content);
    lemma_fenced_rows_pass_through(
        all_pages,
        root,
        repo,
        branch,
        files,
        split_lines(content),
        false,
    );
}

/// Expansion is a no-op on a body that holds no bracket expression at
/// all: without an opening `{%` anywhere, every pass leaves every line
/// untouched and the body comes back verbatim.
pub proof fn lemma_expand_no_macros(
    all_pages: Seq<Page>,
    root: Seq<char>,
    repo: Seq<char>,
    branch: Seq<char>,
    files: Seq<FileEntryV>,
    content: Seq<char>,
)
    requires
        !contains_seq(content, "{%"@),
    ensures
        expand_content(all_pages, root, repo, branch, files, content) == Result::<
            Seq<char>,
            Seq<char>,
        >::Ok(content),
{
    reveal(expand_content);
    let rows = split_lines(content);
    assert forall|i: int| 0 <= i < rows.len() implies !contains_seq(rows[i], "{%"@) by {
        if contains_seq(rows[i], "{%"@) {
            crate::text::lemma_line_contains_lifts(content, "{%"@, i);
        }
    }
    lemma_expand_rows_noop(all_pages, root, repo, branch, files, rows, false);
    crate::text::lemma_join_split(content);
}

proof fn lemma_expand_rows_noop(
    all_pages: Seq<Page>,
    root: Seq<char>,
    repo: Seq<char>,
    branch: Seq<char>,
    files: Seq<FileEntryV>,
    rows: Seq<Seq<char>>,
    code: bool,
)
    requires
        forall|i: int| 0 <= i < rows.len() ==> !contains_seq(#[trigger] rows[i], "{%"@),
    ensures
        expand_rows(all_pages, root, repo, branch, files, rows, code) == Result::<
            Seq<Seq<char>>,
            Seq<char>,
        >::Ok(rows),
    decreases rows.len(),
{
    if rows.len() == 0 {
        assert(Seq::<Seq<char>>::empty() =~~= rows);
    } else {
        let r0 = rows[0];
        let c = if starts_fence(r0) {
            !code
        } else {
            code
        };
        if !c {
            crate::tags::lemma_latest_pass_noop(all_pages, r0);
            crate::tags::lemma_youtube_pass_noop(r0);
            crate::tags::lemma_embed_pass_noop(root, repo, branch, files, r0);
        }
        assert forall|i: int|
            0 <= i < rows.drop_first().len() implies !contains_seq(
            #[trigger] rows.drop_first()[i],
            "{%"@,
        ) by {
            assert(rows.drop_first()[i] == rows[i + 1]);
        }
        lemma_expand_rows_noop(all_pages, root, repo, branch, files, rows.drop_first(), c);
        assert(seq![r0] + rows.drop_first() =~~= rows);
    }
}

/// The message a failing document reports, naming the document.
pub open spec fn macro_err_msg(filename: Seq<char>, detail: Seq<char>) -> Seq<char> {
    "Error while parsing '"@ + filename + "': "@ + detail
}

/// Every page's expansion succeeded and only the content changed.
pub open spec fn pages_expanded(
    all_pages: Seq<Page>,
    root: Seq<char>,
    repo: Seq<char>,
    branch: Seq<char>,
    files: Seq<FileEntryV>,
    out: Seq<Page>,
) -> bool {
    &&& out.len() == all_pages.len()
    &&& forall|k: int|
        0 <= k < all_pages.len() ==> expand_content(
            all_pages,
            root,
            repo,
            branch,
            files,
            all_pages[k].content@,
        ) == Result::<Seq<char>, Seq<char>>::Ok(#[trigger] out[k]@.content)
    &&& forall|k: int|
        0 <= k < all_pages.len() ==> #[trigger] out[k]@ == (PageV {
            content: out[k]@.content,
            ..all_pages[k]@
        })
}

/// Expands the macros of every page against the whole corpus.  The fence
/// state is kept per line within each page; a line inside a fenced region
/// is never expanded.  The first unresolvable macro fails the build,
/// naming the document.
#[verifier::rlimit(100)]
pub fn process_liquid_tags(
    config: &Config,
    root: &str,
    pages: Vec<Page>,
    files: &Vec<FileEntry>,
) -> (r: Result<Vec<Page>, BuildError>)
    ensures
        match r {
            Ok(out) => pages_expanded(
                pages@,
                root@,
                config.repo@,
                config.branch@,
                files.deep_view(),
                out@,
            ),
            Err(e) => exists|k: int|
                #![trigger pages@[k]]
                0 <= k < pages@.len() && (forall|l: int|
                    0 <= l < k ==> (#[trigger] expand_content(
                        pages@,
                        root@,
                        config.repo@,
                        config.branch@,
                        files.deep_view(),
                        pages@[l].content@,
                    )) is Ok) && (match expand_content(
                    pages@,
                    root@,
                    config.repo@,
                    config.branch@,
                    files.deep_view(),
                    pages@[k].content@,
                ) {
                    Result::Err(d) => e matches BuildError::MacroError { detail } && detail@
                        == macro_err_msg(pages@[k].filename@, d),
                    Result::Ok(_) => false,
                }),
        },
{
    let ghost pv = pages@;
    let ghost fv = files.deep_view();
    let mut out: Vec<Page> = Vec::new();
    let mut k: usize = 0;
    while k < pages.len()
        invariant
            k <= pages@.len(),
            pv == pages@,
            fv == files.deep_view(),
            out@.len() == k,
            forall|l: int|
                0 <= l < k ==> expand_content(pv, root@, config.repo@, config.branch@, fv, pv[l].content@)
                    == Result::<Seq<char>, Seq<char>>::Ok(#[trigger] out@[l]@.content),
            forall|l: int|
                0 <= l < k ==> #[trigger] out@[l]@ == (PageV { content: out@[l]@.content, ..pv[l]@ }),
        decreases pages@.len() - k,
    {
        let page = &pages[k];
        match expand_text(config, root, &pages, files, page.content.as_str()) {
            Ok(expanded) => {
                let mut updated = page.duplicate();
                updated.content = expanded;
                out.push(updated);
            },
            Err(e) => {
                proof {
                    assert forall|l: int| 0 <= l < k implies (#[trigger] expand_content(
                        pv,
                        root@,
                        config.repo@,
                        config.branch@,
                        fv,
                        pv[l].content@,
                    )) is Ok by {
                        assert(expand_content(pv, root@, config.repo@, config.branch@, fv, pv[l].content@)
                            == Result::<Seq<char>, Seq<char>>::Ok(out@[l]@.content));
                    }
                    assert(pv[k as int] == pages@[k as int]);
                }
                let mut detail = String::new();
                detail.append("Error while parsing '");
                detail.append(page.filename.as_str());
                detail.append("': ");
                detail.append(e.as_str());
                return Err(BuildError::MacroError { detail });
            },
        }
        k += 1;
    }
    Ok(out)
}

// ------------------------------------------------------------------
// The pre-publish scan for leftover macro-like text
// ------------------------------------------------------------------

/// The first row outside fenced code that still holds macro-like text.
pub open spec fn curly_scan_rows(rows: Seq<Seq<char>>, code: bool) -> Option<Seq<char>>
    decreases rows.len(),
{
    if rows.len() == 0 {
        Option::None
    } else {
        let r0 = rows[0];
        if starts_fence(r0) {
            curly_scan_rows(rows.drop_first(), !code)
        } else if !code && contains_seq(r0, "{%"@) {
            Option::Some(r0)
        } else {
            curly_scan_rows(rows.drop_first(), code)
        }
    }
}

/// The first page with such a row, and that row; the fence state starts
/// fresh on every page.
pub open spec fn curly_scan_pages(pages: Seq<Page>) -> Option<(Seq<char>, Seq<char>)>
    decreases pages.len(),
{
    if pages.len() == 0 {
        Option::None
    } else {
        match curly_scan_rows(split_lines(pages[0].content@), false) {
            Option::Some(row) => Option::Some((row, pages[0].filename@)),
            Option::None => curly_scan_pages(pages.drop_first()),
        }
    }
}

fn curly_scan_rows_exec(rows: &Vec<String>) -> (r: Option<String>)
    ensures
        curly_scan_rows(rows.deep_view(), false) == (match r {
            Some(ref row) => Option::Some(row@),
            None => Option::None::<Seq<char>>,
        }),
{
    let ghost rv = rows.deep_view();
    let mut code = false;
    let mut i: usize = 0;
    proof {
        assert(rv.skip(0) =~~= rv);
    }
    while i < rows.len()
        invariant
            i <= rows@.len(),
            rv == rows.deep_view(),
            curly_scan_rows(rv, false) == curly_scan_rows(rv.skip(i as int), code),
        decreases rows@.len() - i,
    {
        proof {
            assert(rv.skip(i as int)[0] == rv[i as int]);
            assert(rv.skip(i as int).drop_first() =~~= rv.skip(i + 1));
            reveal_strlit("```");
        }
        let row = &rows[i];
        if starts_with(row.as_str(), "```") {
            code = !code;
        } else if !code {
            match find_sub(row.as_str(), "{%", 0) {
                Some(at) => {
                    proof {
                        assert(contains_seq(row@, "{%"@)) by {
                            assert(match_at(row@, "{%"@, at as int));
                        }
                    }
                    return Some(row.clone());
                },
                None => {
                    proof {
                        assert(!contains_seq(row@, "{%"@));
                    }
                },
            }
        }
        i += 1;
    }
    proof {
        assert(rv.skip(rows@.len() as int) =~~= Seq::<Seq<char>>::empty());
    }
    None
}

/// Scans every page for macro-like text left outside fenced code; such
/// text is a corpus error that must stop the publish.
pub fn check_for_invalid_curly_code(pages: &Vec<Page>) -> (r: Result<(), BuildError>)
    ensures
        match r {
            Ok(()) => curly_scan_pages(pages@) is None,
            Err(e) => match curly_scan_pages(pages@) {
                Option::Some(p) => e matches BuildError::InvalidCurly { row, filename } && row@
                    == p.0 && filename@ == p.1,
                Option::None => false,
            },
        },
{
    let ghost pv = pages@;
    let mut k: usize = 0;
    proof {
        assert(pv.skip(0) =~~= pv);
    }
    while k < pages.len()
        invariant
            k <= pages@.len(),
            pv == pages@,
            curly_scan_pages(pv) == curly_scan_pages(pv.skip(k as int)),
        decreases pages@.len() - k,
    {
        proof {
            assert(pv.skip(k as int)[0] == pv[k as int]);
            assert(pv.skip(k as int).drop_first() =~~= pv.skip(k + 1));
        }
        let rows = split_nl(pages[k].content.as_str());
        match curly_scan_rows_exec(&rows) {
            Some(row) => {
                return Err(
                    BuildError::InvalidCurly { row, filename: pages[k].filename.clone() },
                );
            },
            None => {},
        }
        k += 1;
    }
    proof {
        assert(pv.skip(pages@.len() as int) =~~= Seq::<Page>::empty());
    }
    Ok(())
}

// ------------------------------------------------------------------
// Collecting the image files the corpus references
// ------------------------------------------------------------------

/// The target of the leftmost image reference at or after `from`:
/// a bang-bracket text, then a parenthesized nonempty target.
pub open spec fn image_scan(s: Seq<char>, from: int) -> Option<Seq<char>>
    decreases s.len() - from,
{
    if from < 0 || from > s.len() {
        Option::None
    } else {
        match sub_index(s, "!["@, from) {
            Option::None => Option::None,
            Option::Some(i) => if i < from || i + 2 > s.len() {
                Option::None
            } else {
                match char_index_from(s, ']', i + 2) {
                    Option::None => Option::None,
                    Option::Some(k) => if k < i + 2 || k >= s.len() {
                        Option::None
                    } else if k + 1 >= s.len() || s[k + 1] != '(' {
                        image_scan(s, i + 1)
                    } else {
                        match char_index_from(s, ')', k + 2) {
                            Option::None => Option::None,
                            Option::Some(m) => if m < k + 2 || m >= s.len() {
                                Option::None
                            } else if m == k + 2 {
                                image_scan(s, i + 1)
                            } else {
                                Option::Some(s.subrange(k + 2, m))
                            },
                        }
                    },
                }
            },
        }
    }
}

/// The leftmost image reference of a row, executable.
fn first_image(row: &str) -> (r: Option<String>)
    ensures
        image_scan(row@, 0) == (match r {
            Some(ref p) => Option::Some(p@),
            None => Option::None::<Seq<char>>,
        }),
{
    let n = row.unicode_len();
    let mut cur: usize = 0;
    loop
        invariant
            cur <= n,
            n == row@.len(),
            image_scan(row@, 0) == image_scan(row@, cur as int),
        decreases n - cur,
    {
        proof {
            reveal_strlit("![");
        }
        let i = match find_sub(row, "![", cur) {
            Some(i) => i,
            None => {
                return None;
            },
        };
        let k = match index_of_char_from(row, ']', i + 2) {
            Some(k) => k,
            None => {
                return None;
            },
        };
        if k + 1 >= n || row.get_char(k + 1) != '(' {
            cur = i + 1;
            continue;
        }
        let m = match index_of_char_from(row, ')', k + 2) {
            Some(m) => m,
            None => {
                return None;
            },
        };
        if m == k + 2 {
            cur = i + 1;
            continue;
        }
        let piece = row.substring_char(k + 2, m);
        proof {
            assert(piece@ =~= row@.subrange(k + 2, m as int));
        }
        return Some(piece.to_owned());
    }
}

/// An image extension the copier accepts.
pub open spec fn image_ext(e: Seq<char>) -> bool {
    e == "png"@ || e == "jpg"@ || e == "jpeg"@ || e == "gif"@
}

/// The image targets of the rows, threading the fence state across rows;
/// a target without a known image extension stops the collection with its
/// file name.
pub open spec fn copy_scan_rows(rows: Seq<Seq<char>>, code: bool) -> Result<
    (Seq<Seq<char>>, bool),
    Seq<char>,
>
    decreases rows.len(),
{
    if rows.len() == 0 {
        Result::Ok((Seq::empty(), code))
    } else {
        let r0 = rows[0];
        if starts_fence(r0) {
            copy_scan_rows(rows.drop_first(), !code)
        } else if code {
            copy_scan_rows(rows.drop_first(), code)
        } else {
            match image_scan(r0, 0) {
                Option::None => copy_scan_rows(rows.drop_first(), code),
                Option::Some(p) => {
                    let ok = match ext_of(basename(p)) {
                        Option::Some(e) => image_ext(e),
                        Option::None => false,
                    };
                    if ok {
                        match copy_scan_rows(rows.drop_first(), code) {
                            Result::Ok(rest) => Result::Ok((seq![p] + rest.0, rest.1)),
                            Result::Err(e) => Result::Err(e),
                        }
                    } else {
                        Result::Err(basename(p))
                    }
                },
            }
        }
    }
}

/// The image targets of the whole corpus; the fence state carries over
/// from page to page, as one continuous scan.
pub open spec fn copy_scan_pages(pages: Seq<Page>, code: bool) -> Result<Seq<Seq<char>>, Seq<char>>
    decreases pages.len(),
{
    if pages.len() == 0 {
        Result::Ok(Seq::empty())
    } else {
        match copy_scan_rows(split_lines(pages[0].content@), code) {
            Result::Err(e) => Result::Err(e),
            Result::Ok(first) => match copy_scan_pages(pages.drop_first(), first.1) {
                Result::Err(e) => Result::Err(e),
                Result::Ok(rest) => Result::Ok(first.0 + rest),
            },
        }
    }
}

fn copy_scan_rows_exec(rows: &Vec<String>, code0: bool) -> (r: Result<(Vec<String>, bool), String>)
    ensures
        copy_scan_rows(rows.deep_view(), code0) == (match r {
            Ok(ref p) => Result::<(Seq<Seq<char>>, bool), Seq<char>>::Ok((p.0.deep_view(), p.1)),
            Err(ref e) => Result::<(Seq<Seq<char>>, bool), Seq<char>>::Err(e@),
        }),
{
    let ghost rv = rows.deep_view();
    let mut out: Vec<String> = Vec::new();
    let mut code = code0;
    let mut i: usize = 0;
    proof {
        assert(rv.skip(0) =~~= rv);
        assert(out.deep_view() =~~= Seq::<Seq<char>>::empty());
    }
    while i < rows.len()
        invariant
            i <= rows@.len(),
            rv == rows.deep_view(),
            match copy_scan_rows(rv.skip(i as int), code) {
                Result::Ok(rest) => copy_scan_rows(rv, code0) == Result::<
                    (Seq<Seq<char>>, bool),
                    Seq<char>,
                >::Ok((out.deep_view() + rest.0, rest.1)),
                Result::Err(e) => copy_scan_rows(rv, code0) == Result::<
                    (Seq<Seq<char>>, bool),
                    Seq<char>,
                >::Err(e),
            },
        decreases rows@.len() - i,
    {
        proof {
            assert(rv.skip(i as int)[0] == rv[i as int]);
            assert(rv.skip(i as int).drop_first() =~~= rv.skip(i + 1));
            reveal_strlit("```");
        }
        let row = &rows[i];
        if starts_with(row.as_str(), "```") {
            code = !code;
        } else if !code {
            match first_image(row.as_str()) {
                None => {},
                Some(p) => {
                    let name = basename_exec(p.as_str());
                    let good = match ext_of_exec(name.as_str()) {
                        Some(e) => eq_str(e.as_str(), "png") || eq_str(e.as_str(), "jpg") || eq_str(
                            e.as_str(),
                            "jpeg",
                        ) || eq_str(e.as_str(), "gif"),
                        None => false,
                    };
                    if !good {
                        return Err(name);
                    }
                    let ghost pview = p@;
                    let ghost prev = out.deep_view();
                    out.push(p);
                    proof {
                        assert(out.deep_view() =~~= prev.push(pview));
                        let after = copy_scan_rows(rv.skip(i + 1), code);
                        match after {
                            Result::Ok(rest) => {
                                assert(prev.push(pview) + rest.0 =~~= prev + (seq![pview]
                                    + rest.0));
                            },
                            Result::Err(_) => {},
                        }
                    }
                },
            }
        }
        i += 1;
    }
    proof {
        assert(rv.skip(rows@.len() as int) =~~= Seq::<Seq<char>>::empty());
        assert(out.deep_view() + Seq::<Seq<char>>::empty() =~~= out.deep_view());
    }
    Ok((out, code))
}

/// Collects every image file the published corpus references; the fence
/// state is one continuous scan over all pages, and a reference to a file
/// that is not a known image stops the build.
pub fn get_files_to_copy(pages: &Vec<Page>) -> (r: Result<Vec<String>, BuildError>)
    ensures
        match r {
            Ok(v) => copy_scan_pages(pages@, false) == Result::<Seq<Seq<char>>, Seq<char>>::Ok(
                v.deep_view(),
            ),
            Err(e) => match copy_scan_pages(pages@, false) {
                Result::Err(name) => e matches BuildError::UnsupportedImage { path } && path@
                    == name,
                Result::Ok(_) => false,
            },
        },
{
    let ghost pv = pages@;
    let mut out: Vec<String> = Vec::new();
    let mut code = false;
    let mut k: usize = 0;
    proof {
        assert(pv.skip(0) =~~= pv);
        assert(out.deep_view() =~~= Seq::<Seq<char>>::empty());
    }
    while k < pages.len()
        invariant
            k <= pages@.len(),
            pv == pages@,
            match copy_scan_pages(pv.skip(k as int), code) {
                Result::Ok(rest) => copy_scan_pages(pv, false) == Result::<
                    Seq<Seq<char>>,
                    Seq<char>,
                >::Ok(out.deep_view() + rest),
                Result::Err(e) => copy_scan_pages(pv, false) == Result::<
                    Seq<Seq<char>>,
                    Seq<char>,
                >::Err(e),
            },
        decreases pages@.len() - k,
    {
        proof {
            assert(pv.skip(k as int)[0] == pv[k as int]);
            assert(pv.skip(k as int).drop_first() =~~= pv.skip(k + 1));
        }
        let rows = split_nl(pages[k].content.as_str());
        match copy_scan_rows_exec(&rows, code) {
            Err(name) => {
                return Err(BuildError::UnsupportedImage { path: name });
            },
            Ok((mut found, code2)) => {
                let ghost prevout = out.deep_view();
                let ghost foundv = found.deep_view();
                let mut fi: usize = 0;
                while fi < found.len()
                    invariant
                        fi <= found@.len(),
                        foundv == found.deep_view(),
                        out.deep_view() =~~= prevout + foundv.take(fi as int),
                    decreases found@.len() - fi,
                {
                    let ghost pr = out.deep_view();
                    out.push(found[fi].clone());
                    proof {
                        assert(out.deep_view() =~~= pr.push(foundv[fi as int]));
                        assert(pr.push(foundv[fi as int]) =~~= prevout + foundv.take(fi + 1));
                    }
                    fi += 1;
                }
                proof {
                    assert(foundv.take(found@.len() as int) =~~= foundv);
                    let after = copy_scan_pages(pv.skip(k + 1), code2);
                    match after {
                        Result::Ok(rest) => {
                            assert((prevout + foundv) + rest =~~= prevout + (foundv + rest));
                        },
                        Result::Err(_) => {},
                    }
                }
                code = code2;
            },
        }
        k += 1;
    }
    proof {
        assert(pv.skip(pages@.len() as int) =~~= Seq::<Page>::empty());
        assert(out.deep_view() + Seq::<Seq<char>>::empty() =~~= out.deep_view());
    }
    Ok(out)
}

} // verus!
