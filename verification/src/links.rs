//! The link graph: every markdown-style inline link of rendered content
//! becomes a directed edge, external targets excluded; each document then
//! receives the edges that point at it, ordered by origin title,
//! descending.

use vstd::prelude::*;

use crate::model::{Link, LinkV, Page, PageV};
use crate::text::{
    char_index_from, index_of_char_from, lemma_lex_lt_trans, lex_lt, match_at, str_lt, sub_index,
};

verus! {

/// An external target: one the link graph never records.
pub open spec fn starts_http(t: Seq<char>) -> bool {
    match_at(t, "http://"@, 0) || match_at(t, "https://"@, 0)
}

/// The internal links of one document's content at or after `from`: each
/// `[text](target)` with nonempty text and target, except those whose
/// target is external.
pub open spec fn links_from(
    title: Seq<char>,
    path: Seq<char>,
    s: Seq<char>,
    from: int,
) -> Seq<LinkV>
    decreases s.len() - from,
{
    if from < 0 || from > s.len() {
        Seq::empty()
    } else {
        match char_index_from(s, '[', from) {
            Option::None => Seq::empty(),
            Option::Some(i) => if i < from || i >= s.len() {
                Seq::empty()
            } else {
                match char_index_from(s, ']', i + 1) {
                    Option::None => Seq::empty(),
                    Option::Some(k) => if k < i + 1 || k >= s.len() {
                        Seq::empty()
                    } else if k == i + 1 || k + 1 >= s.len() || s[k + 1] != '(' {
                        links_from(title, path, s, i + 1)
                    } else {
                        match char_index_from(s, ')', k + 2) {
                            Option::None => Seq::empty(),
                            Option::Some(m) => if m < k + 2 || m >= s.len() {
                                Seq::empty()
                            } else if m == k + 2 {
                                links_from(title, path, s, i + 1)
                            } else {
                                let target = s.subrange(k + 2, m);
                                let rest = links_from(title, path, s, m + 1);
                                if starts_http(target) {
                                    rest
                                } else {
                                    seq![
                                        LinkV {
                                            from_title: title,
                                            from_path: path,
                                            to_title: s.subrange(i + 1, k),
                                            to_path: target,
                                        },
                                    ] + rest
                                }
                            },
                        }
                    },
                }
            },
        }
    }
}

/// No recorded link has an external target.
pub proof fn lemma_no_external_links(title: Seq<char>, path: Seq<char>, s: Seq<char>, from: int)
    ensures
        forall|x: int|
            0 <= x < links_from(title, path, s, from).len() ==> !starts_http(
                #[trigger] links_from(title, path, s, from)[x].to_path,
            ),
    decreases s.len() - from,
{
    let cur = links_from(title, path, s, from);
    if from < 0 || from > s.len() {
    } else {
        match char_index_from(s, '[', from) {
            Option::None => {},
            Option::Some(i) => {
                if i < from || i >= s.len() {
                } else {
                    match char_index_from(s, ']', i + 1) {
                        Option::None => {},
                        Option::Some(k) => {
                            if k < i + 1 || k >= s.len() {
                            } else if k == i + 1 || k + 1 >= s.len() || s[k + 1] != '(' {
                                lemma_no_external_links(title, path, s, i + 1);
                                assert forall|x: int| 0 <= x < cur.len() implies !starts_http(
                                    #[trigger] cur[x].to_path,
                                ) by {
                                    assert(cur[x] == links_from(title, path, s, i + 1)[x]);
                                }
                            } else {
                                match char_index_from(s, ')', k + 2) {
                                    Option::None => {},
                                    Option::Some(m) => {
                                        if m < k + 2 || m >= s.len() {
                                        } else if m == k + 2 {
                                            lemma_no_external_links(title, path, s, i + 1);
                                            assert forall|x: int|
                                                0 <= x < cur.len() implies !starts_http(
                                                #[trigger] cur[x].to_path,
                                            ) by {
                                                assert(cur[x] == links_from(
                                                    title,
                                                    path,
                                                    s,
                                                    i + 1,
                                                )[x]);
                                            }
                                        } else {
                                            lemma_no_external_links(title, path, s, m + 1);
                                            let rest = links_from(title, path, s, m + 1);
                                            assert forall|x: int|
                                                0 <= x < cur.len() implies !starts_http(
                                                #[trigger] cur[x].to_path,
                                            ) by {
                                                if starts_http(s.subrange(k + 2, m)) {
                                                    assert(cur[x] == rest[x]);
                                                } else if x > 0 {
                                                    assert(cur[x] == rest[x - 1]);
                                                }
                                            }
                                        }
                                    },
                                }
                            }
                        },
                    }
                }
            },
        }
    }
}

/// Every recorded link names its origin document.
pub proof fn lemma_links_name_origin(title: Seq<char>, path: Seq<char>, s: Seq<char>, from: int)
    ensures
        forall|x: int|
            0 <= x < links_from(title, path, s, from).len() ==> (#[trigger] links_from(
                title,
                path,
                s,
                from,
            )[x]).from_title == title && links_from(title, path, s, from)[x].from_path == path,
    decreases s.len() - from,
{
    let cur = links_from(title, path, s, from);
    if from < 0 || from > s.len() {
    } else {
        match char_index_from(s, '[', from) {
            Option::None => {},
            Option::Some(i) => {
                if i < from || i >= s.len() {
                } else {
                    match char_index_from(s, ']', i + 1) {
                        Option::None => {},
                        Option::Some(k) => {
                            if k < i + 1 || k >= s.len() {
                            } else if k == i + 1 || k + 1 >= s.len() || s[k + 1] != '(' {
                                lemma_links_name_origin(title, path, s, i + 1);
                                assert forall|x: int| 0 <= x < cur.len() implies (#[trigger] cur[x]).from_title
                                    == title && cur[x].from_path == path by {
                                    assert(cur[x] == links_from(title, path, s, i + 1)[x]);
                                }
                            } else {
                                match char_index_from(s, ')', k + 2) {
                                    Option::None => {},
                                    Option::Some(m) => {
                                        if m < k + 2 || m >= s.len() {
                                        } else if m == k + 2 {
                                            lemma_links_name_origin(title, path, s, i + 1);
                                            assert forall|x: int|
                                                0 <= x < cur.len() implies (#[trigger] cur[x]).from_title
                                                == title && cur[x].from_path == path by {
                                                assert(cur[x] == links_from(
                                                    title,
                                                    path,
                                                    s,
                                                    i + 1,
                                                )[x]);
                                            }
                                        } else {
                                            lemma_links_name_origin(title, path, s, m + 1);
                                            let rest = links_from(title, path, s, m + 1);
                                            assert forall|x: int|
                                                0 <= x < cur.len() implies (#[trigger] cur[x]).from_title
                                                == title && cur[x].from_path == path by {
                                                if starts_http(s.subrange(k + 2, m)) {
                                                    assert(cur[x] == rest[x]);
                                                } else if x > 0 {
                                                    assert(cur[x] == rest[x - 1]);
                                                }
                                            }
                                        }
                                    },
                                }
                            }
                        },
                    }
                }
            },
        }
    }
}

/// The internal links of one document.
pub fn find_links(page: &Page) -> (r: Vec<Link>)
    ensures
        r.deep_view() == links_from(page.title@, page.url_path@, page.content@, 0),
{
    let s = page.content.as_str();
    let n = s.unicode_len();
    let mut out: Vec<Link> = Vec::new();
    let mut cur: usize = 0;
    proof {
        assert(out.deep_view() + links_from(page.title@, page.url_path@, s@, 0) =~~= links_from(
            page.title@,
            page.url_path@,
            s@,
            0,
        ));
    }
    loop
        invariant
            cur <= n,
            n == s@.len(),
            s@ == page.content@,
            links_from(page.title@, page.url_path@, s@, 0) =~~= out.deep_view() + links_from(
                page.title@,
                page.url_path@,
                s@,
                cur as int,
            ),
        ensures
            links_from(page.title@, page.url_path@, s@, 0) =~~= out.deep_view(),
        decreases n - cur,
    {
        let i = match index_of_char_from(s, '[', cur) {
            Some(i) => i,
            None => {
                break;
            },
        };
        let k = match index_of_char_from(s, ']', i + 1) {
            Some(k) => k,
            None => {
                break;
            },
        };
        if k == i + 1 || k + 1 >= n || s.get_char(k + 1) != '(' {
            cur = i + 1;
            continue;
        }
        let m = match index_of_char_from(s, ')', k + 2) {
            Some(m) => m,
            None => {
                break;
            },
        };
        if m == k + 2 {
            cur = i + 1;
            continue;
        }
        let target = s.substring_char(k + 2, m);
        proof {
            assert(target@ =~= s@.subrange(k + 2, m as int));
            reveal_strlit("http://");
            reveal_strlit("https://");
        }
        let external = crate::text::starts_with(target, "http://") || crate::text::starts_with(
            target,
            "https://",
        );
        if !external {
            let text = s.substring_char(i + 1, k);
            proof {
                assert(text@ =~= s@.subrange(i + 1, k as int));
            }
            let ghost prev = out.deep_view();
            let link = Link {
                from_title: page.title.clone(),
                from_path: page.url_path.clone(),
                to_title: text.to_owned(),
                to_path: target.to_owned(),
            };
            let ghost lv = link@;
            out.push(link);
            proof {
                assert(out.deep_view() =~~= prev.push(lv));
                let rest = links_from(page.title@, page.url_path@, s@, m + 1);
                assert(prev.push(lv) + rest =~~= prev + (seq![lv] + rest));
            }
        }
        cur = m + 1;
    }
    proof {
        assert(out.deep_view() + Seq::<LinkV>::empty() =~~= out.deep_view());
    }
    out
}

/// The internal links of every document, in corpus order.
pub open spec fn all_links(pages: Seq<Page>) -> Seq<LinkV>
    decreases pages.len(),
{
    if pages.len() == 0 {
        Seq::empty()
    } else {
        links_from(pages[0].title@, pages[0].url_path@, pages[0].content@, 0) + all_links(
            pages.drop_first(),
        )
    }
}

/// Collects the internal links of the whole corpus.
pub fn collect_all_the_internal_links(pages: &Vec<Page>) -> (r: Vec<Link>)
    ensures
        r.deep_view() == all_links(pages@),
{
    let ghost pv = pages@;
    let mut out: Vec<Link> = Vec::new();
    let mut k: usize = 0;
    proof {
        assert(pv.skip(0) =~~= pv);
        assert(out.deep_view() + all_links(pv) =~~= all_links(pv));
    }
    while k < pages.len()
        invariant
            k <= pages@.len(),
            pv == pages@,
            all_links(pv) =~~= out.deep_view() + all_links(pv.skip(k as int)),
        decreases pages@.len() - k,
    {
        proof {
            assert(pv.skip(k as int)[0] == pv[k as int]);
            assert(pv.skip(k as int).drop_first() =~~= pv.skip(k + 1));
        }
        let mut found = find_links(&pages[k]);
        let ghost prevout = out.deep_view();
        let ghost foundv = found.deep_view();
        let mut fi: usize = 0;
        while fi < found.len()
            invariant
                fi <= found@.len(),
                foundv == found.deep_view(),
                out.deep_view() =~~= prevout + foundv.take(fi as int),
            decreases found@.len() - fi,
        {
            let ghost pr = out.deep_view();
            let one = found[fi].duplicate();
            out.push(one);
            proof {
                assert(out.deep_view() =~~= pr.push(foundv[fi as int]));
                assert(pr.push(foundv[fi as int]) =~~= prevout + foundv.take(fi + 1));
            }
            fi += 1;
        }
        proof {
            assert(foundv.take(found@.len() as int) =~~= foundv);
            let rest = all_links(pv.skip(k + 1));
            assert((prevout + foundv) + rest =~~= prevout + (foundv + rest));
        }
        k += 1;
    }
    proof {
        assert(pv.skip(pages@.len() as int) =~~= Seq::<Page>::empty());
        assert(out.deep_view() + Seq::<LinkV>::empty() =~~= out.deep_view());
    }
    out
}

/// The links that point at the document with this URL path.
pub open spec fn bl_filter(links: Seq<LinkV>, slug: Seq<char>) -> Seq<LinkV>
    decreases links.len(),
{
    if links.len() == 0 {
        Seq::empty()
    } else if links[0].to_path == "/"@ + slug {
        seq![links[0]] + bl_filter(links.drop_first(), slug)
    } else {
        bl_filter(links.drop_first(), slug)
    }
}

/// Stable insertion into a title-descending list: the new link goes after
/// every entry whose title is not below its own.
pub open spec fn insert_desc(x: LinkV, s: Seq<LinkV>) -> Seq<LinkV>
    decreases s.len(),
{
    if s.len() == 0 {
        seq![x]
    } else if lex_lt(s[0].from_title, x.from_title) {
        seq![x] + s
    } else {
        seq![s[0]] + insert_desc(x, s.drop_first())
    }
}

/// Stable sort by origin title, descending.
pub open spec fn sort_desc(ls: Seq<LinkV>) -> Seq<LinkV>
    decreases ls.len(),
{
    if ls.len() == 0 {
        Seq::empty()
    } else {
        insert_desc(ls.last(), sort_desc(ls.drop_last()))
    }
}

/// Descending by origin title: no entry sits above a strictly greater one.
pub open spec fn links_sorted_desc(s: Seq<LinkV>) -> bool {
    forall|i: int, j: int| 0 <= i < j < s.len() ==> !lex_lt(s[i].from_title, s[j].from_title)
}

proof fn lemma_insert_desc_sorted(x: LinkV, s: Seq<LinkV>)
    requires
        links_sorted_desc(s),
    ensures
        links_sorted_desc(insert_desc(x, s)),
        forall|k: int|
            0 <= k < insert_desc(x, s).len() ==> insert_desc(x, s)[k] == x || s.contains(
                #[trigger] insert_desc(x, s)[k],
            ),
    decreases s.len(),
{
    let r = insert_desc(x, s);
    if s.len() == 0 {
        assert(r[0] == x);
    } else if lex_lt(s[0].from_title, x.from_title) {
        assert forall|i: int, j: int| 0 <= i < j < r.len() implies !lex_lt(
            r[i].from_title,
            r[j].from_title,
        ) by {
            if i == 0 {
                assert(r[j] == s[j - 1]);
                if lex_lt(x.from_title, s[j - 1].from_title) {
                    lemma_lex_lt_trans(s[0].from_title, x.from_title, s[j - 1].from_title);
                    if j - 1 == 0 {
                        crate::text::lemma_lex_lt_irrefl(s[0].from_title);
                    }
                }
            } else {
                assert(r[i] == s[i - 1] && r[j] == s[j - 1]);
            }
        }
        assert forall|k: int| 0 <= k < r.len() implies r[k] == x || s.contains(#[trigger] r[k]) by {
            if k > 0 {
                assert(r[k] == s[k - 1]);
            }
        }
    } else {
        assert forall|i: int, j: int|
            0 <= i < j < s.drop_first().len() implies !lex_lt(
            #[trigger] s.drop_first()[i].from_title,
            #[trigger] s.drop_first()[j].from_title,
        ) by {
            assert(s.drop_first()[i] == s[i + 1] && s.drop_first()[j] == s[j + 1]);
        }
        lemma_insert_desc_sorted(x, s.drop_first());
        let inner = insert_desc(x, s.drop_first());
        assert forall|i: int, j: int| 0 <= i < j < r.len() implies !lex_lt(
            r[i].from_title,
            r[j].from_title,
        ) by {
            if i == 0 {
                assert(r[j] == inner[j - 1]);
                if inner[j - 1] == x {
                } else {
                    assert(s.drop_first().contains(inner[j - 1]));
                    let w = choose|w: int|
                        0 <= w < s.drop_first().len() && s.drop_first()[w] == inner[j - 1];
                    assert(s[w + 1] == inner[j - 1]);
                }
            } else {
                assert(r[i] == inner[i - 1] && r[j] == inner[j - 1]);
            }
        }
        assert forall|k: int| 0 <= k < r.len() implies r[k] == x || s.contains(#[trigger] r[k]) by {
            if k > 0 {
                assert(r[k] == inner[k - 1]);
                if inner[k - 1] == x {
                } else {
                    assert(s.drop_first().contains(inner[k - 1]));
                    let w = choose|w: int|
                        0 <= w < s.drop_first().len() && s.drop_first()[w] == inner[k - 1];
                    assert(s[w + 1] == inner[k - 1]);
                }
            } else {
                assert(r[0] == s[0]);
            }
        }
    }
}

/// The backlink order is descending by origin title: the stable sort the
/// backlink lists go through leaves no entry above a strictly greater one.
pub proof fn lemma_sort_desc_sorted(ls: Seq<LinkV>)
    ensures
        links_sorted_desc(sort_desc(ls)),
    decreases ls.len(),
{
    if ls.len() > 0 {
        lemma_sort_desc_sorted(ls.drop_last());
        lemma_insert_desc_sorted(ls.last(), sort_desc(ls.drop_last()));
    }
}

proof fn lemma_insert_desc_at(x: LinkV, s: Seq<LinkV>, j: int)
    requires
        0 <= j <= s.len(),
        forall|jj: int| 0 <= jj < j ==> !lex_lt(s[jj].from_title, x.from_title),
        j < s.len() ==> lex_lt(s[j].from_title, x.from_title),
    ensures
        insert_desc(x, s) =~~= s.take(j) + seq![x] + s.skip(j),
    decreases j,
{
    if s.len() == 0 {
        assert(s.take(0) =~~= Seq::<LinkV>::empty());
        assert(s.skip(0) =~~= Seq::<LinkV>::empty());
    } else if j == 0 {
        assert(s.take(0) =~~= Seq::<LinkV>::empty());
        assert(s.skip(0) =~~= s);
    } else {
        lemma_insert_desc_at(x, s.drop_first(), j - 1);
        assert(s.drop_first().take(j - 1) =~~= s.take(j).drop_first());
        assert(s.drop_first().skip(j - 1) =~~= s.skip(j));
        assert(seq![s[0]] + (s.take(j).drop_first() + seq![x] + s.skip(j)) =~~= s.take(j)
            + seq![x] + s.skip(j));
    }
}

/// Inserting keeps every member.
proof fn lemma_insert_desc_contains(x: LinkV, s: Seq<LinkV>, l: LinkV)
    requires
        s.contains(l) || l == x,
    ensures
        insert_desc(x, s).contains(l),
    decreases s.len(),
{
    if s.len() == 0 {
        assert(insert_desc(x, s)[0] == x);
    } else if lex_lt(s[0].from_title, x.from_title) {
        if l == x {
            assert(insert_desc(x, s)[0] == x);
        } else {
            let w = choose|w: int| 0 <= w < s.len() && s[w] == l;
            assert(insert_desc(x, s)[w + 1] == l);
        }
    } else {
        if l == s[0] {
            assert(insert_desc(x, s)[0] == l);
        } else {
            if l != x {
                let w = choose|w: int| 0 <= w < s.len() && s[w] == l;
                assert(s.drop_first()[w - 1] == l);
            }
            lemma_insert_desc_contains(x, s.drop_first(), l);
            let w2 = choose|w2: int|
                0 <= w2 < insert_desc(x, s.drop_first()).len() && insert_desc(
                    x,
                    s.drop_first(),
                )[w2] == l;
            assert(insert_desc(x, s)[w2 + 1] == l);
        }
    }
}

/// Sorting keeps every member.
pub proof fn lemma_sort_desc_contains(ls: Seq<LinkV>, l: LinkV)
    requires
        ls.contains(l),
    ensures
        sort_desc(ls).contains(l),
    decreases ls.len(),
{
    let w = choose|w: int| 0 <= w < ls.len() && ls[w] == l;
    if w == ls.len() - 1 {
        lemma_insert_desc_contains(ls.last(), sort_desc(ls.drop_last()), l);
    } else {
        assert(ls.drop_last()[w] == l);
        lemma_sort_desc_contains(ls.drop_last(), l);
        lemma_insert_desc_contains(ls.last(), sort_desc(ls.drop_last()), l);
    }
}

fn bl_filter_exec(links: &Vec<Link>, slug: &str) -> (r: Vec<Link>)
    ensures
        r.deep_view() == bl_filter(links.deep_view(), slug@),
{
    let ghost lv = links.deep_view();
    let mut prefix = String::new();
    prefix.append("/");
    prefix.append(slug);
    proof {
        assert(prefix@ =~= "/"@ + slug@);
    }
    let mut out: Vec<Link> = Vec::new();
    let mut k: usize = 0;
    proof {
        assert(lv.skip(0) =~~= lv);
        assert(out.deep_view() + bl_filter(lv, slug@) =~~= bl_filter(lv, slug@));
    }
    while k < links.len()
        invariant
            k <= links@.len(),
            lv == links.deep_view(),
            prefix@ == "/"@ + slug@,
            bl_filter(lv, slug@) =~~= out.deep_view() + bl_filter(lv.skip(k as int), slug@),
        decreases links@.len() - k,
    {
        proof {
            assert(lv.skip(k as int)[0] == lv[k as int]);
            assert(lv.skip(k as int).drop_first() =~~= lv.skip(k + 1));
        }
        if crate::text::eq_str(links[k].to_path.as_str(), prefix.as_str()) {
            let ghost prev = out.deep_view();
            let one = links[k].duplicate();
            out.push(one);
            proof {
                assert(out.deep_view() =~~= prev.push(lv[k as int]));
                let rest = bl_filter(lv.skip(k + 1), slug@);
                assert(prev.push(lv[k as int]) + rest =~~= prev + (seq![lv[k as int]] + rest));
            }
        }
        k += 1;
    }
    proof {
        assert(lv.skip(links@.len() as int) =~~= Seq::<LinkV>::empty());
        assert(out.deep_view() + Seq::<LinkV>::empty() =~~= out.deep_view());
    }
    out
}

fn sort_links_exec(links: Vec<Link>) -> (r: Vec<Link>)
    ensures
        r.deep_view() == sort_desc(links.deep_view()),
{
    let ghost lv = links.deep_view();
    let mut out: Vec<Link> = Vec::new();
    let mut k: usize = 0;
    while k < links.len()
        invariant
            k <= links@.len(),
            lv == links.deep_view(),
            out.deep_view() =~~= sort_desc(lv.take(k as int)),
        decreases links@.len() - k,
    {
        let x = links[k].duplicate();
        let ghost xv = x@;
        let ghost prev = out.deep_view();
        let mut j: usize = 0;
        while j < out.len()
            invariant
                j <= out@.len(),
                prev == out.deep_view(),
                xv == x@,
                forall|jj: int| 0 <= jj < j ==> !lex_lt(prev[jj].from_title, xv.from_title),
            ensures
                j <= out@.len(),
                prev == out.deep_view(),
                xv == x@,
                forall|jj: int| 0 <= jj < j ==> !lex_lt(prev[jj].from_title, xv.from_title),
                j < out@.len() ==> lex_lt(prev[j as int].from_title, xv.from_title),
            decreases out@.len() - j,
        {
            if str_lt(out[j].from_title.as_str(), x.from_title.as_str()) {
                break;
            }
            j += 1;
        }
        proof {
            lemma_insert_desc_at(xv, prev, j as int);
        }
        out.insert(j, x);
        proof {
            assert(out.deep_view() =~~= prev.take(j as int) + seq![xv] + prev.skip(j as int));
            assert(lv.take(k + 1).drop_last() =~~= lv.take(k as int));
            assert(lv.take(k + 1).last() == lv[k as int]);
        }
        k += 1;
    }
    proof {
        assert(lv.take(links@.len() as int) =~~= lv);
    }
    out
}

/// The backlinks every page receives: the links whose target is that
/// page's URL path, sorted by origin title descending; everything else
/// about the page is untouched.
pub fn collect_backlinks(pages: Vec<Page>) -> (r: Vec<Page>)
    ensures
        r@.len() == pages@.len(),
        forall|k: int|
            0 <= k < pages@.len() ==> #[trigger] r@[k]@ == (PageV {
                backlinks: sort_desc(bl_filter(all_links(pages@), pages@[k].url_path@)),
                ..pages@[k]@
            }),
{
    let ghost pv = pages@;
    let links = collect_all_the_internal_links(&pages);
    let mut out: Vec<Page> = Vec::new();
    let mut k: usize = 0;
    while k < pages.len()
        invariant
            k <= pages@.len(),
            pv == pages@,
            links.deep_view() == all_links(pv),
            out@.len() == k,
            forall|l: int|
                0 <= l < k ==> #[trigger] out@[l]@ == (PageV {
                    backlinks: sort_desc(bl_filter(all_links(pv), pv[l].url_path@)),
                    ..pv[l]@
                }),
        decreases pages@.len() - k,
    {
        let filtered = bl_filter_exec(&links, pages[k].url_path.as_str());
        let sorted = sort_links_exec(filtered);
        let mut updated = pages[k].duplicate();
        updated.backlinks = sorted;
        out.push(updated);
        k += 1;
    }
    out
}

/// Every inbound internal link shows up among the target's backlinks: if a
/// document's content links to `/slug`, the backlinks computed for the
/// page with that URL path contain that very link, which names its origin.
pub proof fn lemma_backlink_membership(pages: Seq<Page>, s: int, d: int, l: LinkV)
    requires
        0 <= s < pages.len(),
        0 <= d < pages.len(),
        links_from(pages[s].title@, pages[s].url_path@, pages[s].content@, 0).contains(l),
        l.to_path == "/"@ + pages[d].url_path@,
    ensures
        sort_desc(bl_filter(all_links(pages), pages[d].url_path@)).contains(l),
        l.from_path == pages[s].url_path@,
        l.from_title == pages[s].title@,
    decreases pages.len(),
{
    lemma_links_name_origin(pages[s].title@, pages[s].url_path@, pages[s].content@, 0);
    lemma_all_links_contains(pages, s, l);
    lemma_bl_filter_contains(all_links(pages), pages[d].url_path@, l);
    lemma_sort_desc_contains(bl_filter(all_links(pages), pages[d].url_path@), l);
}

/// A link of one page is a link of the corpus.
proof fn lemma_all_links_contains(pages: Seq<Page>, s: int, l: LinkV)
    requires
        0 <= s < pages.len(),
        links_from(pages[s].title@, pages[s].url_path@, pages[s].content@, 0).contains(l),
    ensures
        all_links(pages).contains(l),
    decreases pages.len(),
{
    if s == 0 {
        let own = links_from(pages[0].title@, pages[0].url_path@, pages[0].content@, 0);
        let w = choose|w: int| 0 <= w < own.len() && own[w] == l;
        assert(all_links(pages)[w] == l);
    } else {
        lemma_all_links_contains(pages.drop_first(), s - 1, l);
        let rest = all_links(pages.drop_first());
        let own = links_from(pages[0].title@, pages[0].url_path@, pages[0].content@, 0);
        let w = choose|w: int| 0 <= w < rest.len() && rest[w] == l;
        assert(all_links(pages)[own.len() + w] == l);
    }
}

/// Filtering keeps every link that points at the slug.
proof fn lemma_bl_filter_contains(links: Seq<LinkV>, slug: Seq<char>, l: LinkV)
    requires
        links.contains(l),
        l.to_path == "/"@ + slug,
    ensures
        bl_filter(links, slug).contains(l),
    decreases links.len(),
{
    if links[0] == l {
        assert(bl_filter(links, slug)[0] == l);
    } else {
        let w = choose|w: int| 0 <= w < links.len() && links[w] == l;
        assert(links.drop_first()[w - 1] == l);
        lemma_bl_filter_contains(links.drop_first(), slug, l);
        let rest = bl_filter(links.drop_first(), slug);
        let w2 = choose|w2: int| 0 <= w2 < rest.len() && rest[w2] == l;
        if links[0].to_path == "/"@ + slug {
            assert(bl_filter(links, slug)[w2 + 1] == l);
        }
    }
}

} // verus!
