//! Corpus assembly: the uniqueness checks, the timestamp ordering, the
//! synthetic archive entry, and the corpus-wide selections (tags, recent
//! documents, drafts, outstanding notes, author resolution).

use vstd::prelude::*;

use crate::filters::{lower_of, lowercase};
use crate::model::{Author, AuthorV, BuildError, Config, Page, PageV};
use crate::text::{eq_str, lex_lt, str_lt};

verus! {

/// The page at `k` repeats an earlier page's timestamp.
pub open spec fn dup_at(pages: Seq<Page>, k: int) -> bool {
    exists|j: int| 0 <= j < k && pages[j].timestamp@ == pages[k].timestamp@
}

/// Rejects a corpus in which two documents share a timestamp, naming the
/// first repeated timestamp.
pub fn check_unique_dates(pages: &Vec<Page>) -> (r: Result<(), BuildError>)
    ensures
        match r {
            Ok(()) => forall|k: int| 0 <= k < pages@.len() ==> !dup_at(pages@, k),
            Err(e) => exists|k: int|
                #![trigger pages@[k]]
                0 <= k < pages@.len() && dup_at(pages@, k) && (forall|k2: int|
                    0 <= k2 < k ==> !dup_at(pages@, k2)) && (e matches
                BuildError::DuplicateTimestamp { timestamp } && timestamp@
                    == pages@[k].timestamp@),
        },
{
    let mut k: usize = 0;
    while k < pages.len()
        invariant
            k <= pages@.len(),
            forall|k2: int| 0 <= k2 < k ==> !dup_at(pages@, k2),
        decreases pages@.len() - k,
    {
        let mut j: usize = 0;
        while j < k
            invariant
                j <= k < pages@.len(),
                forall|k2: int| 0 <= k2 < k ==> !dup_at(pages@, k2),
                forall|j2: int| 0 <= j2 < j ==> pages@[j2].timestamp@ != pages@[k as int].timestamp@,
            decreases k - j,
        {
            if eq_str(pages[j].timestamp.as_str(), pages[k].timestamp.as_str()) {
                proof {
                    assert(dup_at(pages@, k as int));
                }
                return Err(
                    BuildError::DuplicateTimestamp { timestamp: pages[k].timestamp.clone() },
                );
            }
            j += 1;
        }
        k += 1;
    }
    Ok(())
}

/// Two authors share a nickname: the first repeated nickname fails the
/// configuration.
pub open spec fn nick_dup_at(authors: Seq<Author>, k: int) -> bool {
    exists|j: int| 0 <= j < k && authors[j].nickname@ == authors[k].nickname@
}

/// Rejects a configuration in which two authors share a nickname.
pub fn check_unique_nicknames(authors: &Vec<Author>) -> (r: Result<(), BuildError>)
    ensures
        match r {
            Ok(()) => forall|k: int| 0 <= k < authors@.len() ==> !nick_dup_at(authors@, k),
            Err(e) => exists|k: int|
                #![trigger authors@[k]]
                0 <= k < authors@.len() && nick_dup_at(authors@, k) && (forall|k2: int|
                    0 <= k2 < k ==> !nick_dup_at(authors@, k2)) && (e matches
                BuildError::DuplicateNickname { nickname } && nickname@
                    == authors@[k].nickname@),
        },
{
    let mut k: usize = 0;
    while k < authors.len()
        invariant
            k <= authors@.len(),
            forall|k2: int| 0 <= k2 < k ==> !nick_dup_at(authors@, k2),
        decreases authors@.len() - k,
    {
        let mut j: usize = 0;
        while j < k
            invariant
                j <= k < authors@.len(),
                forall|k2: int| 0 <= k2 < k ==> !nick_dup_at(authors@, k2),
                forall|j2: int|
                    0 <= j2 < j ==> authors@[j2].nickname@ != authors@[k as int].nickname@,
            decreases k - j,
        {
            if eq_str(authors[j].nickname.as_str(), authors[k].nickname.as_str()) {
                proof {
                    assert(nick_dup_at(authors@, k as int));
                }
                return Err(
                    BuildError::DuplicateNickname { nickname: authors[k].nickname.clone() },
                );
            }
            j += 1;
        }
        k += 1;
    }
    Ok(())
}

/// Stable insertion into a timestamp-descending list.
pub open spec fn insert_page_desc(x: Page, s: Seq<Page>) -> Seq<Page>
    decreases s.len(),
{
    if s.len() == 0 {
        seq![x]
    } else if lex_lt(s[0].timestamp@, x.timestamp@) {
        seq![x] + s
    } else {
        seq![s[0]] + insert_page_desc(x, s.drop_first())
    }
}

/// Stable sort by timestamp, newest first.
pub open spec fn sort_pages_desc(ls: Seq<Page>) -> Seq<Page>
    decreases ls.len(),
{
    if ls.len() == 0 {
        Seq::empty()
    } else {
        insert_page_desc(ls.last(), sort_pages_desc(ls.drop_last()))
    }
}

/// The views of a sequence of pages.
pub open spec fn pviews(s: Seq<Page>) -> Seq<PageV> {
    s.map_values(|p: Page| p@)
}

/// Newest first: no page sits above a strictly newer one.
pub open spec fn pages_sorted_desc(s: Seq<Page>) -> bool {
    forall|i: int, j: int| 0 <= i < j < s.len() ==> !lex_lt(s[i].timestamp@, s[j].timestamp@)
}

proof fn lemma_insert_page_sorted(x: Page, s: Seq<Page>)
    requires
        pages_sorted_desc(s),
    ensures
        pages_sorted_desc(insert_page_desc(x, s)),
        forall|k: int|
            0 <= k < insert_page_desc(x, s).len() ==> insert_page_desc(x, s)[k] == x || s.contains(
                #[trigger] insert_page_desc(x, s)[k],
            ),
    decreases s.len(),
{
    let r = insert_page_desc(x, s);
    if s.len() == 0 {
        assert(r[0] == x);
    } else if lex_lt(s[0].timestamp@, x.timestamp@) {
        assert forall|i: int, j: int| 0 <= i < j < r.len() implies !lex_lt(
            r[i].timestamp@,
            r[j].timestamp@,
        ) by {
            if i == 0 {
                assert(r[j] == s[j - 1]);
                if lex_lt(x.timestamp@, s[j - 1].timestamp@) {
                    crate::text::lemma_lex_lt_trans(
                        s[0].timestamp@,
                        x.timestamp@,
                        s[j - 1].timestamp@,
                    );
                    if j - 1 == 0 {
                        crate::text::lemma_lex_lt_irrefl(s[0].timestamp@);
                    }
                }
            } else {
                assert(r[i] == s[i - 1] && r[j] == s[j - 1]);
            }
        }
        assert forall|k: int| 0 <= k < r.len() implies r[k] == x || s.contains(#[trigger] r[k]) by {
            if k > 0 {
                assert(r[k] == s[k - 1]);
            }
        }
    } else {
        assert forall|i: int, j: int|
            0 <= i < j < s.drop_first().len() implies !lex_lt(
            #[trigger] s.drop_first()[i].timestamp@,
            #[trigger] s.drop_first()[j].timestamp@,
        ) by {
            assert(s.drop_first()[i] == s[i + 1] && s.drop_first()[j] == s[j + 1]);
        }
        lemma_insert_page_sorted(x, s.drop_first());
        let inner = insert_page_desc(x, s.drop_first());
        assert forall|i: int, j: int| 0 <= i < j < r.len() implies !lex_lt(
            r[i].timestamp@,
            r[j].timestamp@,
        ) by {
            if i == 0 {
                assert(r[j] == inner[j - 1]);
                if inner[j - 1] == x {
                } else {
                    assert(s.drop_first().contains(inner[j - 1]));
                    let w = choose|w: int|
                        0 <= w < s.drop_first().len() && s.drop_first()[w] == inner[j - 1];
                    assert(s[w + 1] == inner[j - 1]);
                }
            } else {
                assert(r[i] == inner[i - 1] && r[j] == inner[j - 1]);
            }
        }
        assert forall|k: int| 0 <= k < r.len() implies r[k] == x || s.contains(#[trigger] r[k]) by {
            if k > 0 {
                assert(r[k] == inner[k - 1]);
                if inner[k - 1] == x {
                } else {
                    assert(s.drop_first().contains(inner[k - 1]));
                    let w = choose|w: int|
                        0 <= w < s.drop_first().len() && s.drop_first()[w] == inner[k - 1];
                    assert(s[w + 1] == inner[k - 1]);
                }
            } else {
                assert(r[0] == s[0]);
            }
        }
    }
}

/// The corpus order is by timestamp, newest first: the sort the assembler
/// applies leaves no document above a strictly newer one.
pub proof fn lemma_corpus_order(ls: Seq<Page>)
    ensures
        pages_sorted_desc(sort_pages_desc(ls)),
    decreases ls.len(),
{
    if ls.len() > 0 {
        lemma_corpus_order(ls.drop_last());
        lemma_insert_page_sorted(ls.last(), sort_pages_desc(ls.drop_last()));
    }
}

proof fn lemma_insert_page_at(x: Page, s: Seq<Page>, j: int)
    requires
        0 <= j <= s.len(),
        forall|jj: int| 0 <= jj < j ==> !lex_lt(s[jj].timestamp@, x.timestamp@),
        j < s.len() ==> lex_lt(s[j as int].timestamp@, x.timestamp@),
    ensures
        insert_page_desc(x, s) =~~= s.take(j) + seq![x] + s.skip(j),
    decreases j,
{
    if s.len() == 0 {
        assert(s.take(0) =~~= Seq::<Page>::empty());
        assert(s.skip(0) =~~= Seq::<Page>::empty());
    } else if j == 0 {
        assert(s.take(0) =~~= Seq::<Page>::empty());
        assert(s.skip(0) =~~= s);
    } else {
        lemma_insert_page_at(x, s.drop_first(), j - 1);
        assert(s.drop_first().take(j - 1) =~~= s.take(j).drop_first());
        assert(s.drop_first().skip(j - 1) =~~= s.skip(j));
        assert(seq![s[0]] + (s.take(j).drop_first() + seq![x] + s.skip(j)) =~~= s.take(j)
            + seq![x] + s.skip(j));
    }
}

/// Sorts pages by timestamp, newest first; view for view, the result is
/// the stable insertion sort of the input.
pub fn sort_pages_exec(pages: &Vec<Page>) -> (r: Vec<Page>)
    ensures
        pviews(r@) =~~= pviews(sort_pages_desc(pages@)),
{
    let ghost lv = pages@;
    let mut out: Vec<Page> = Vec::new();
    let mut k: usize = 0;
    proof {
        assert(lv.take(0) =~~= Seq::<Page>::empty());
        assert(pviews(out@) =~~= pviews(sort_pages_desc(lv.take(0))));
    }
    while k < pages.len()
        invariant
            k <= pages@.len(),
            lv == pages@,
            out@.len() == sort_pages_desc(lv.take(k as int)).len(),
            pviews(out@) =~~= pviews(sort_pages_desc(lv.take(k as int))),
        decreases pages@.len() - k,
    {
        let ghost sorted_prev = sort_pages_desc(lv.take(k as int));
        let x = pages[k].duplicate();
        let ghost xv = x@;
        let ghost prev = out@;
        let mut j: usize = 0;
        while j < out.len()
            invariant
                j <= out@.len(),
                prev == out@,
                xv == x@,
                forall|jj: int| 0 <= jj < j ==> !lex_lt(prev[jj].timestamp@, xv.timestamp),
            ensures
                j <= out@.len(),
                prev == out@,
                xv == x@,
                forall|jj: int| 0 <= jj < j ==> !lex_lt(prev[jj].timestamp@, xv.timestamp),
                j < out@.len() ==> lex_lt(prev[j as int].timestamp@, xv.timestamp),
            decreases out@.len() - j,
        {
            if str_lt(out[j].timestamp.as_str(), x.timestamp.as_str()) {
                break;
            }
            j += 1;
        }
        proof {
            assert forall|jj: int| 0 <= jj < j implies !lex_lt(
                sorted_prev[jj].timestamp@,
                xv.timestamp,
            ) by {
                assert(pviews(prev)[jj] == prev[jj]@);
                assert(pviews(sorted_prev)[jj] == sorted_prev[jj]@);
            }
            if j < out@.len() {
                assert(pviews(prev)[j as int] == prev[j as int]@);
                assert(pviews(sorted_prev)[j as int] == sorted_prev[j as int]@);
                assert(lex_lt(sorted_prev[j as int].timestamp@, xv.timestamp));
            }
            assert(xv == lv[k as int]@);
            assert(xv.timestamp == lv[k as int].timestamp@);
            lemma_insert_page_at(lv[k as int], sorted_prev, j as int);
            assert(lv.take(k + 1).drop_last() =~~= lv.take(k as int));
            assert(lv.take(k + 1).last() == lv[k as int]);
            lemma_insert_page_len(lv[k as int], sorted_prev);
        }
        out.insert(j, x);
        proof {
            let target = sorted_prev.take(j as int) + seq![lv[k as int]] + sorted_prev.skip(
                j as int,
            );
            assert(insert_page_desc(lv[k as int], sorted_prev) =~~= target);
            assert(sort_pages_desc(lv.take(k + 1)) == insert_page_desc(
                lv[k as int],
                sorted_prev,
            ));
            assert(out@.len() == target.len());
            assert forall|idx: int| 0 <= idx < out@.len() implies pviews(out@)[idx] == pviews(
                target,
            )[idx] by {
                assert(pviews(out@)[idx] == out@[idx]@);
                assert(pviews(target)[idx] == target[idx]@);
                if idx < j {
                    assert(out@[idx] == prev[idx]);
                    assert(target[idx] == sorted_prev[idx]);
                    assert(pviews(prev)[idx] == prev[idx]@);
                    assert(pviews(sorted_prev)[idx] == sorted_prev[idx]@);
                } else if idx == j {
                    assert(out@[idx]@ == xv);
                    assert(target[idx] == lv[k as int]);
                } else {
                    assert(out@[idx] == prev[idx - 1]);
                    assert(target[idx] == sorted_prev[idx - 1]);
                    assert(pviews(prev)[idx - 1] == prev[idx - 1]@);
                    assert(pviews(sorted_prev)[idx - 1] == sorted_prev[idx - 1]@);
                }
            }
            assert(pviews(out@) =~~= pviews(target));
        }
        k += 1;
    }
    proof {
        assert(lv.take(pages@.len() as int) =~~= lv);
    }
    out
}

/// The synthesized archive entry: first of the corpus, published, carrying
/// the newest timestamp (or the build time over an empty corpus).
pub open spec fn archive_page(stamp: Seq<char>) -> PageV {
    PageV {
        url_path: "archive"@,
        published: true,
        timestamp: stamp,
        ..crate::model::empty_page()
    }
}

/// Assembles the ordered corpus from the loaded documents: timestamps must
/// be unique; the documents are ordered newest first; the archive entry is
/// prepended, carrying the newest timestamp, or `now` when the corpus is
/// empty.
pub fn assemble_pages(pages: Vec<Page>, now: &str) -> (r: Result<Vec<Page>, BuildError>)
    ensures
        match r {
            Ok(out) => {
                &&& forall|k: int| 0 <= k < pages@.len() ==> !dup_at(pages@, k)
                &&& out@.len() == pages@.len() + 1
                &&& out@[0]@ == archive_page(
                    if pages@.len() == 0 {
                        now@
                    } else {
                        sort_pages_desc(pages@)[0].timestamp@
                    },
                )
                &&& forall|i: int|
                    0 <= i < pages@.len() ==> #[trigger] out@[i + 1]@ == sort_pages_desc(
                        pages@,
                    )[i]@
            },
            Err(e) => exists|k: int|
                #![trigger pages@[k]]
                0 <= k < pages@.len() && dup_at(pages@, k) && (forall|k2: int|
                    0 <= k2 < k ==> !dup_at(pages@, k2)) && (e matches
                BuildError::DuplicateTimestamp { timestamp } && timestamp@
                    == pages@[k].timestamp@),
        },
{
    match check_unique_dates(&pages) {
        Ok(()) => {},
        Err(e) => {
            return Err(e);
        },
    }
    let sorted = sort_pages_exec(&pages);
    proof {
        lemma_sort_pages_len(pages@);
        assert(sorted@.len() == pviews(sorted@).len());
        assert(pviews(sort_pages_desc(pages@)).len() == sort_pages_desc(pages@).len());
    }
    let mut archive = Page::new();
    archive.url_path = "archive".to_owned();
    archive.published = true;
    archive.timestamp = if sorted.len() == 0 {
        now.to_owned()
    } else {
        proof {
            assert(pviews(sorted@)[0] == sorted@[0]@);
            assert(pviews(sort_pages_desc(pages@))[0] == sort_pages_desc(pages@)[0]@);
        }
        sorted[0].timestamp.clone()
    };
    let mut out: Vec<Page> = Vec::new();
    out.push(archive);
    proof {
        assert(out@[0]@ =~~= archive_page(
            if pages@.len() == 0 {
                now@
            } else {
                sort_pages_desc(pages@)[0].timestamp@
            },
        ));
    }
    let mut i: usize = 0;
    while i < sorted.len()
        invariant
            i <= sorted@.len(),
            out@.len() == i + 1,
            out@[0]@ == archive_page(
                if pages@.len() == 0 {
                    now@
                } else {
                    sort_pages_desc(pages@)[0].timestamp@
                },
            ),
            pviews(sorted@) =~~= pviews(sort_pages_desc(pages@)),
            sorted@.len() == sort_pages_desc(pages@).len(),
            forall|l: int| 0 <= l < i ==> #[trigger] out@[l + 1]@ == sort_pages_desc(pages@)[l]@,
        decreases sorted@.len() - i,
    {
        let one = sorted[i].duplicate();
        out.push(one);
        proof {
            assert(pviews(sorted@)[i as int] == sorted@[i as int]@);
            assert(pviews(sort_pages_desc(pages@))[i as int] == sort_pages_desc(pages@)[i as int]@);
        }
        i += 1;
    }
    proof {
        lemma_sort_pages_len(pages@);
    }
    Ok(out)
}

proof fn lemma_sort_pages_len(ls: Seq<Page>)
    ensures
        sort_pages_desc(ls).len() == ls.len(),
    decreases ls.len(),
{
    if ls.len() > 0 {
        lemma_sort_pages_len(ls.drop_last());
        lemma_insert_page_len(ls.last(), sort_pages_desc(ls.drop_last()));
    }
}

proof fn lemma_insert_page_len(x: Page, s: Seq<Page>)
    ensures
        insert_page_desc(x, s).len() == s.len() + 1,
    decreases s.len(),
{
    if s.len() > 0 && !lex_lt(s[0].timestamp@, x.timestamp@) {
        lemma_insert_page_len(x, s.drop_first());
    }
}

// ------------------------------------------------------------------
// Corpus-wide selections
// ------------------------------------------------------------------

/// Adds the lowercased tags of one page to the accumulator, skipping ones
/// already present.
pub open spec fn add_page_tags(acc: Seq<Seq<char>>, p: Page, g: int) -> Seq<Seq<char>>
    decreases p.tags@.len() - g,
{
    if g < 0 || g >= p.tags@.len() {
        acc
    } else {
        let t = lower_of(p.tags@[g]@);
        add_page_tags(
            if acc.contains(t) {
                acc
            } else {
                acc.push(t)
            },
            p,
            g + 1,
        )
    }
}

/// The distinct lowercased tags of the published, non-redirect pages, in
/// first-appearance order.
pub open spec fn collect_tags_rec(acc: Seq<Seq<char>>, pages: Seq<Page>, k: int) -> Seq<Seq<char>>
    decreases pages.len() - k,
{
    if k < 0 || k >= pages.len() {
        acc
    } else {
        let next = if pages[k].published && pages[k]@.redirect is None {
            add_page_tags(acc, pages[k], 0)
        } else {
            acc
        };
        collect_tags_rec(next, pages, k + 1)
    }
}

fn contains_str(v: &Vec<String>, t: &str) -> (r: bool)
    ensures
        r == v.deep_view().contains(t@),
{
    let mut i: usize = 0;
    while i < v.len()
        invariant
            i <= v@.len(),
            forall|j: int| 0 <= j < i ==> v.deep_view()[j] != t@,
        decreases v@.len() - i,
    {
        if eq_str(v[i].as_str(), t) {
            proof {
                assert(v.deep_view()[i as int] == t@);
            }
            return true;
        }
        i += 1;
    }
    proof {
        assert forall|j: int| 0 <= j < v.deep_view().len() implies v.deep_view()[j] != t@ by {}
    }
    false
}

/// Collects every tag of the published, non-redirect pages, lowercased and
/// without repetition, in first-appearance order.
pub fn collect_tags(pages: &Vec<Page>) -> (r: Vec<String>)
    ensures
        r.deep_view() == collect_tags_rec(Seq::empty(), pages@, 0),
{
    let ghost pv = pages@;
    let mut out: Vec<String> = Vec::new();
    let mut k: usize = 0;
    proof {
        assert(out.deep_view() =~~= Seq::<Seq<char>>::empty());
    }
    while k < pages.len()
        invariant
            k <= pages@.len(),
            pv == pages@,
            collect_tags_rec(Seq::empty(), pv, 0) == collect_tags_rec(out.deep_view(), pv, k as int),
        decreases pages@.len() - k,
    {
        let p = &pages[k];
        if p.published && p.redirect.is_none() {
            let mut g: usize = 0;
            let ghost accv = out.deep_view();
            while g < p.tags.len()
                invariant
                    g <= p.tags@.len(),
                    *p == pv[k as int],
                    add_page_tags(accv, pv[k as int], 0) == add_page_tags(
                        out.deep_view(),
                        pv[k as int],
                        g as int,
                    ),
                decreases p.tags@.len() - g,
            {
                let t = lowercase(p.tags[g].as_str());
                if !contains_str(&out, t.as_str()) {
                    let ghost prev = out.deep_view();
                    let ghost tv = t@;
                    out.push(t);
                    proof {
                        assert(out.deep_view() =~~= prev.push(tv));
                    }
                }
                g += 1;
            }
        }
        k += 1;
    }
    proof {
        assert(collect_tags_rec(out.deep_view(), pv, pv.len() as int) == out.deep_view());
    }
    out
}

/// The pages a recency cutoff selects: real documents (not the site root,
/// not the archive) strictly newer than the cutoff.
pub open spec fn recent_filter(pages: Seq<Page>, cutoff: Seq<char>) -> Seq<Page>
    decreases pages.len(),
{
    if pages.len() == 0 {
        Seq::empty()
    } else {
        let keep = pages[0].url_path@.len() != 0 && pages[0].url_path@ != "archive"@ && lex_lt(
            cutoff,
            pages[0].timestamp@,
        );
        if keep {
            seq![pages[0]] + recent_filter(pages.drop_first(), cutoff)
        } else {
            recent_filter(pages.drop_first(), cutoff)
        }
    }
}

/// Selects the documents published after the cutoff timestamp, skipping
/// the site root and the archive entry.
pub fn get_recent(pages: &Vec<Page>, cutoff: &str) -> (r: Vec<Page>)
    ensures
        pviews(r@) =~~= pviews(recent_filter(pages@, cutoff@)),
{
    let ghost pv = pages@;
    let mut out: Vec<Page> = Vec::new();
    let mut k: usize = 0;
    proof {
        assert(pv.skip(0) =~~= pv);
        assert(pviews(out@) + pviews(recent_filter(pv, cutoff@)) =~~= pviews(
            recent_filter(pv, cutoff@),
        ));
    }
    while k < pages.len()
        invariant
            k <= pages@.len(),
            pv == pages@,
            pviews(recent_filter(pv, cutoff@)) =~~= pviews(out@) + pviews(
                recent_filter(pv.skip(k as int), cutoff@),
            ),
        decreases pages@.len() - k,
    {
        proof {
            assert(pv.skip(k as int)[0] == pv[k as int]);
            assert(pv.skip(k as int).drop_first() =~~= pv.skip(k + 1));
        }
        let p = &pages[k];
        let keep = p.url_path.as_str().unicode_len() > 0 && !eq_str(
            p.url_path.as_str(),
            "archive",
        ) && str_lt(cutoff, p.timestamp.as_str());
        if keep {
            let ghost prev = out@;
            let one = p.duplicate();
            out.push(one);
            proof {
                let rest = recent_filter(pv.skip(k + 1), cutoff@);
                assert(pviews(out@) =~~= pviews(prev).push(pv[k as int]@));
                assert(pviews(seq![pv[k as int]] + rest) =~~= seq![pv[k as int]@] + pviews(rest));
                assert(pviews(prev).push(pv[k as int]@) + pviews(rest) =~~= pviews(prev) + (seq![
                    pv[k as int]@,
                ] + pviews(rest)));
            }
        }
        k += 1;
    }
    proof {
        assert(pv.skip(pages@.len() as int) =~~= Seq::<Page>::empty());
        assert(pviews(out@) + pviews(Seq::<Page>::empty()) =~~= pviews(out@));
    }
    out
}

/// The unpublished documents, in corpus order.
pub open spec fn drafts_filter(pages: Seq<Page>) -> Seq<Page>
    decreases pages.len(),
{
    if pages.len() == 0 {
        Seq::empty()
    } else if !pages[0].published {
        seq![pages[0]] + drafts_filter(pages.drop_first())
    } else {
        drafts_filter(pages.drop_first())
    }
}

/// Selects the documents that are not yet published.
pub fn select_drafts(pages: &Vec<Page>) -> (r: Vec<Page>)
    ensures
        pviews(r@) =~~= pviews(drafts_filter(pages@)),
{
    let ghost pv = pages@;
    let mut out: Vec<Page> = Vec::new();
    let mut k: usize = 0;
    proof {
        assert(pv.skip(0) =~~= pv);
        assert(pviews(out@) + pviews(drafts_filter(pv)) =~~= pviews(drafts_filter(pv)));
    }
    while k < pages.len()
        invariant
            k <= pages@.len(),
            pv == pages@,
            pviews(drafts_filter(pv)) =~~= pviews(out@) + pviews(drafts_filter(pv.skip(k as int))),
        decreases pages@.len() - k,
    {
        proof {
            assert(pv.skip(k as int)[0] == pv[k as int]);
            assert(pv.skip(k as int).drop_first() =~~= pv.skip(k + 1));
        }
        if !pages[k].published {
            let ghost prev = out@;
            let one = pages[k].duplicate();
            out.push(one);
            proof {
                let rest = drafts_filter(pv.skip(k + 1));
                assert(pviews(out@) =~~= pviews(prev).push(pv[k as int]@));
                assert(pviews(seq![pv[k as int]] + rest) =~~= seq![pv[k as int]@] + pviews(rest));
                assert(pviews(prev).push(pv[k as int]@) + pviews(rest) =~~= pviews(prev) + (seq![
                    pv[k as int]@,
                ] + pviews(rest)));
            }
        }
        k += 1;
    }
    proof {
        assert(pv.skip(pages@.len() as int) =~~= Seq::<Page>::empty());
        assert(pviews(out@) + pviews(Seq::<Page>::empty()) =~~= pviews(out@));
    }
    out
}

/// The non-redirect documents with outstanding notes, in corpus order.
pub open spec fn todo_filter(pages: Seq<Page>) -> Seq<Page>
    decreases pages.len(),
{
    if pages.len() == 0 {
        Seq::empty()
    } else if pages[0]@.redirect is None && pages[0].todo@.len() > 0 {
        seq![pages[0]] + todo_filter(pages.drop_first())
    } else {
        todo_filter(pages.drop_first())
    }
}

/// Selects the documents that still carry outstanding notes.
pub fn select_todo_pages(pages: &Vec<Page>) -> (r: Vec<Page>)
    ensures
        pviews(r@) =~~= pviews(todo_filter(pages@)),
{
    let ghost pv = pages@;
    let mut out: Vec<Page> = Vec::new();
    let mut k: usize = 0;
    proof {
        assert(pv.skip(0) =~~= pv);
        assert(pviews(out@) + pviews(todo_filter(pv)) =~~= pviews(todo_filter(pv)));
    }
    while k < pages.len()
        invariant
            k <= pages@.len(),
            pv == pages@,
            pviews(todo_filter(pv)) =~~= pviews(out@) + pviews(todo_filter(pv.skip(k as int))),
        decreases pages@.len() - k,
    {
        proof {
            assert(pv.skip(k as int)[0] == pv[k as int]);
            assert(pv.skip(k as int).drop_first() =~~= pv.skip(k + 1));
        }
        if pages[k].redirect.is_none() && pages[k].todo.len() > 0 {
            let ghost prev = out@;
            let one = pages[k].duplicate();
            out.push(one);
            proof {
                let rest = todo_filter(pv.skip(k + 1));
                assert(pviews(out@) =~~= pviews(prev).push(pv[k as int]@));
                assert(pviews(seq![pv[k as int]] + rest) =~~= seq![pv[k as int]@] + pviews(rest));
                assert(pviews(prev).push(pv[k as int]@) + pviews(rest) =~~= pviews(prev) + (seq![
                    pv[k as int]@,
                ] + pviews(rest)));
            }
        }
        k += 1;
    }
    proof {
        assert(pv.skip(pages@.len() as int) =~~= Seq::<Page>::empty());
        assert(pviews(out@) + pviews(Seq::<Page>::empty()) =~~= pviews(out@));
    }
    out
}

/// The directory holding the documents: a given pages directory, or
/// `pages` under the content root.
pub fn get_pages_path(root: &str, pages: &str) -> (r: String)
    ensures
        pages@.len() == 0 ==> r@ == root@ + "/pages"@,
        pages@.len() != 0 ==> r@ == pages@,
{
    if pages.unicode_len() == 0 {
        let mut r = root.to_owned();
        r.append("/pages");
        r
    } else {
        pages.to_owned()
    }
}

/// The first configured author with this nickname.
pub open spec fn author_index(authors: Seq<Author>, nick: Seq<char>) -> Option<int>
    decreases authors.len(),
{
    if authors.len() == 0 {
        Option::None
    } else if authors[0].nickname@ == nick {
        Option::Some(0)
    } else {
        match author_index(authors.drop_first(), nick) {
            Option::Some(i) => Option::Some(i + 1),
            Option::None => Option::None,
        }
    }
}

/// The empty author used for unattributed documents.
pub open spec fn anonymous_author() -> AuthorV {
    AuthorV {
        name: Seq::empty(),
        nickname: Seq::empty(),
        picture: Seq::empty(),
        text: Seq::empty(),
    }
}

/// Resolves a document's author reference: an empty reference yields the
/// anonymous author; a reference the configuration lacks fails the build,
/// naming the nickname and the document.
pub fn resolve_author(config: &Config, page: &Page) -> (r: Result<Author, BuildError>)
    ensures
        match r {
            Ok(a) => {
                if page.author@.len() == 0 {
                    a@ == anonymous_author()
                } else {
                    match author_index(config.authors@, page.author@) {
                        Option::Some(i) => a@ == config.authors@[i]@,
                        Option::None => false,
                    }
                }
            },
            Err(e) => page.author@.len() != 0 && author_index(config.authors@, page.author@)
                is None && (e matches BuildError::UnknownAuthor { nickname, filename } && nickname@
                == page.author@ && filename@ == page.filename@),
        },
{
    if page.author.as_str().unicode_len() == 0 {
        let a = Author {
            name: String::new(),
            nickname: String::new(),
            picture: String::new(),
            text: String::new(),
        };
        return Ok(a);
    }
    let ghost av = config.authors@;
    let mut k: usize = 0;
    proof {
        assert(av.skip(0) =~~= av);
    }
    while k < config.authors.len()
        invariant
            k <= config.authors@.len(),
            av == config.authors@,
            page.author@.len() != 0,
            match author_index(av.skip(k as int), page.author@) {
                Option::Some(i) => author_index(av, page.author@) == Option::Some(i + k),
                Option::None => author_index(av, page.author@) is None,
            },
        decreases config.authors@.len() - k,
    {
        proof {
            assert(av.skip(k as int)[0] == av[k as int]);
            assert(av.skip(k as int).drop_first() =~~= av.skip(k + 1));
        }
        let a = &config.authors[k];
        if eq_str(a.nickname.as_str(), page.author.as_str()) {
            let copy = Author {
                name: a.name.clone(),
                nickname: a.nickname.clone(),
                picture: a.picture.clone(),
                text: a.text.clone(),
            };
            return Ok(copy);
        }
        k += 1;
    }
    proof {
        assert(av.skip(config.authors@.len() as int) =~~= Seq::<Author>::empty());
    }
    Err(
        BuildError::UnknownAuthor {
            nickname: page.author.clone(),
            filename: page.filename.clone(),
        },
    )
}

} // verus!
