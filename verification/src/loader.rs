//! The document loader: splits a raw document into front matter and body,
//! validates the front matter against the strict field schema, and builds a
//! `Page`.  The grammar accepted here is the metadata subset the corpus
//! uses: `key: value` lines with optionally double-quoted scalars, and
//! block lists of `- item` lines under `todo:` and `tags:`.

use vstd::prelude::*;

use crate::model::{BuildError, Page, PageV};
use crate::text::{
    char_index, char_rindex, is_space, lemma_char_index_at, lemma_split_unlines,
    lemma_trim_stable, lines_of, no_char_in, split_lines, text_lines, trim, trim_spec, unlines,
    unlines_vec, unquote, unquote_spec, eq_str, index_of_char, rindex_of_char, is_digit,
    digits_val, parse_digits_u32,
};

verus! {

/// The state of the front-matter reader after some prefix of the block:
/// which fields were seen and with what values, which list is open, and
/// the first schema violation if one occurred.
pub ghost struct FmSt {
    pub title: Option<Seq<char>>,
    pub timestamp: Option<Seq<char>>,
    pub description: Option<Seq<char>>,
    pub author: Option<Seq<char>>,
    pub redirect: Option<Option<Seq<char>>>,
    pub published: Option<bool>,
    pub show_related: Option<bool>,
    pub todo: Option<Seq<Seq<char>>>,
    pub tags: Option<Seq<Seq<char>>>,
    /// 0: no list open; 1: `todo`; 2: `tags`.
    pub open_list: int,
    pub err: Option<Seq<char>>,
}

pub open spec fn fm_init() -> FmSt {
    FmSt {
        title: Option::None,
        timestamp: Option::None,
        description: Option::None,
        author: Option::None,
        redirect: Option::None,
        published: Option::None,
        show_related: Option::None,
        todo: Option::None,
        tags: Option::None,
        open_list: 0,
        err: Option::None,
    }
}

pub open spec fn unknown_field_msg(key: Seq<char>) -> Seq<char> {
    "unknown field `"@ + key + "`"@
}

pub open spec fn dup_field_msg(key: Seq<char>) -> Seq<char> {
    "duplicate field `"@ + key + "`"@
}

pub open spec fn bad_value_msg(key: Seq<char>) -> Seq<char> {
    "invalid value for field `"@ + key + "`"@
}

pub open spec fn bad_line_msg(t: Seq<char>) -> Seq<char> {
    "invalid front matter line `"@ + t + "`"@
}

pub open spec fn missing_field_msg(key: Seq<char>) -> Seq<char> {
    "missing field `"@ + key + "`"@
}

/// One `key: value` line applied to the reader state.
pub open spec fn fm_key_step(st: FmSt, t: Seq<char>) -> FmSt {
    match char_index(t, ':') {
        Option::None => FmSt { err: Option::Some(bad_line_msg(t)), ..st },
        Option::Some(ci) => {
            let key = trim_spec(t.take(ci));
            let raw = trim_spec(t.skip(ci + 1));
            if key == "title"@ {
                if st.title is Some {
                    FmSt { err: Option::Some(dup_field_msg(key)), ..st }
                } else {
                    FmSt { title: Option::Some(unquote_spec(raw)), open_list: 0, ..st }
                }
            } else if key == "timestamp"@ {
                if st.timestamp is Some {
                    FmSt { err: Option::Some(dup_field_msg(key)), ..st }
                } else {
                    FmSt { timestamp: Option::Some(unquote_spec(raw)), open_list: 0, ..st }
                }
            } else if key == "description"@ {
                if st.description is Some {
                    FmSt { err: Option::Some(dup_field_msg(key)), ..st }
                } else {
                    FmSt { description: Option::Some(unquote_spec(raw)), open_list: 0, ..st }
                }
            } else if key == "author"@ {
                if st.author is Some {
                    FmSt { err: Option::Some(dup_field_msg(key)), ..st }
                } else {
                    FmSt { author: Option::Some(unquote_spec(raw)), open_list: 0, ..st }
                }
            } else if key == "redirect"@ {
                if st.redirect is Some {
                    FmSt { err: Option::Some(dup_field_msg(key)), ..st }
                } else {
                    let v = if raw.len() == 0 {
                        Option::None
                    } else {
                        Option::Some(unquote_spec(raw))
                    };
                    FmSt { redirect: Option::Some(v), open_list: 0, ..st }
                }
            } else if key == "published"@ {
                if st.published is Some {
                    FmSt { err: Option::Some(dup_field_msg(key)), ..st }
                } else if raw == "true"@ {
                    FmSt { published: Option::Some(true), open_list: 0, ..st }
                } else if raw == "false"@ {
                    FmSt { published: Option::Some(false), open_list: 0, ..st }
                } else {
                    FmSt { err: Option::Some(bad_value_msg(key)), ..st }
                }
            } else if key == "show_related"@ {
                if st.show_related is Some {
                    FmSt { err: Option::Some(dup_field_msg(key)), ..st }
                } else if raw == "true"@ {
                    FmSt { show_related: Option::Some(true), open_list: 0, ..st }
                } else if raw == "false"@ {
                    FmSt { show_related: Option::Some(false), open_list: 0, ..st }
                } else {
                    FmSt { err: Option::Some(bad_value_msg(key)), ..st }
                }
            } else if key == "todo"@ {
                if st.todo is Some {
                    FmSt { err: Option::Some(dup_field_msg(key)), ..st }
                } else if raw.len() > 0 {
                    FmSt { err: Option::Some(bad_value_msg(key)), ..st }
                } else {
                    FmSt { todo: Option::Some(Seq::empty()), open_list: 1, ..st }
                }
            } else if key == "tags"@ {
                if st.tags is Some {
                    FmSt { err: Option::Some(dup_field_msg(key)), ..st }
                } else if raw.len() > 0 {
                    FmSt { err: Option::Some(bad_value_msg(key)), ..st }
                } else {
                    FmSt { tags: Option::Some(Seq::empty()), open_list: 2, ..st }
                }
            } else {
                FmSt { err: Option::Some(unknown_field_msg(key)), ..st }
            }
        },
    }
}

/// One raw front-matter line applied to the reader state.
pub open spec fn fm_step(st: FmSt, line: Seq<char>) -> FmSt {
    if st.err is Some {
        st
    } else {
        let t = trim_spec(line);
        if t.len() == 0 {
            st
        } else if t[0] == '-' {
            if t.len() >= 2 && t[1] == ' ' {
                let item = unquote_spec(trim_spec(t.skip(2)));
                if st.open_list == 1 {
                    FmSt { todo: Option::Some(st.todo->Some_0.push(item)), ..st }
                } else if st.open_list == 2 {
                    FmSt { tags: Option::Some(st.tags->Some_0.push(item)), ..st }
                } else {
                    FmSt { err: Option::Some(bad_line_msg(t)), ..st }
                }
            } else {
                FmSt { err: Option::Some(bad_line_msg(t)), ..st }
            }
        } else {
            fm_key_step(st, t)
        }
    }
}

/// The reader state after a whole front-matter block.
pub open spec fn fm_run(lines: Seq<Seq<char>>) -> FmSt
    decreases lines.len(),
{
    if lines.len() == 0 {
        fm_init()
    } else {
        fm_step(fm_run(lines.drop_last()), lines.last())
    }
}

/// The schema violation a finished block reports, if any: the first error
/// hit while reading, else a missing required field.
pub open spec fn fm_error(st: FmSt) -> Option<Seq<char>> {
    if st.err is Some {
        st.err
    } else if st.title is None {
        Option::Some(missing_field_msg("title"@))
    } else if st.timestamp is None {
        Option::Some(missing_field_msg("timestamp"@))
    } else if st.published is None {
        Option::Some(missing_field_msg("published"@))
    } else {
        Option::None
    }
}

/// The page a violation-free block denotes, with defaults for the optional
/// fields; identity and content fields stay empty here.
pub open spec fn fm_page(st: FmSt) -> PageV {
    PageV {
        title: st.title->Some_0,
        timestamp: st.timestamp->Some_0,
        description: match st.description {
            Option::Some(d) => d,
            Option::None => Seq::empty(),
        },
        author: match st.author {
            Option::Some(a) => a,
            Option::None => Seq::empty(),
        },
        redirect: match st.redirect {
            Option::Some(r) => r,
            Option::None => Option::None,
        },
        published: st.published->Some_0,
        show_related: match st.show_related {
            Option::Some(b) => b,
            Option::None => true,
        },
        todo: match st.todo {
            Option::Some(v) => v,
            Option::None => Seq::empty(),
        },
        tags: match st.tags {
            Option::Some(v) => v,
            Option::None => Seq::empty(),
        },
        url_path: Seq::empty(),
        filename: Seq::empty(),
        content: Seq::empty(),
        backlinks: Seq::empty(),
    }
}

struct FmState {
    title: Option<String>,
    timestamp: Option<String>,
    description: Option<String>,
    author: Option<String>,
    redirect: Option<Option<String>>,
    published: Option<bool>,
    show_related: Option<bool>,
    todo: Option<Vec<String>>,
    tags: Option<Vec<String>>,
    open_list: u8,
    err: Option<String>,
}

impl View for FmState {
    type V = FmSt;

    closed spec fn view(&self) -> FmSt {
        FmSt {
            title: match self.title {
                Option::Some(ref s) => Option::Some(s@),
                Option::None => Option::None,
            },
            timestamp: match self.timestamp {
                Option::Some(ref s) => Option::Some(s@),
                Option::None => Option::None,
            },
            description: match self.description {
                Option::Some(ref s) => Option::Some(s@),
                Option::None => Option::None,
            },
            author: match self.author {
                Option::Some(ref s) => Option::Some(s@),
                Option::None => Option::None,
            },
            redirect: match self.redirect {
                Option::Some(ref r) => Option::Some(
                    match r {
                        Option::Some(ref s) => Option::Some(s@),
                        Option::None => Option::None,
                    },
                ),
                Option::None => Option::None,
            },
            published: self.published,
            show_related: self.show_related,
            todo: match self.todo {
                Option::Some(ref v) => Option::Some(v.deep_view()),
                Option::None => Option::None,
            },
            tags: match self.tags {
                Option::Some(ref v) => Option::Some(v.deep_view()),
                Option::None => Option::None,
            },
            open_list: self.open_list as int,
            err: match self.err {
                Option::Some(ref s) => Option::Some(s@),
                Option::None => Option::None,
            },
        }
    }
}

impl FmState {
    fn new() -> (st: FmState)
        ensures
            st@ == fm_init(),
    {
        FmState {
            title: None,
            timestamp: None,
            description: None,
            author: None,
            redirect: None,
            published: None,
            show_related: None,
            todo: None,
            tags: None,
            open_list: 0,
            err: None,
        }
    }

    fn set_err(&mut self, msg: String)
        ensures
            final(self)@ == (FmSt { err: Option::Some(msg@), ..old(self)@ }),
    {
        self.err = Some(msg);
    }
}

fn msg_around(before: &str, inner: &str, after: &str) -> (r: String)
    ensures
        r@ == before@ + inner@ + after@,
{
    let mut r = String::new();
    r.append(before);
    r.append(inner);
    r.append(after);
    r
}

/// Applies one `key: value` line to the reader state.
fn fm_key_step_exec(st: &mut FmState, t: &str, ci: usize)
    requires
        char_index(t@, ':') == Option::Some(ci as int),
        ci < t@.len(),
        old(st)@.err is None,
    ensures
        final(st)@ == fm_key_step(old(st)@, t@),
{
    let n = t.unicode_len();
    let key = trim(t.substring_char(0, ci));
    let raw = trim(t.substring_char(ci + 1, n));
    proof {
        assert(t@.subrange(0, ci as int) =~= t@.take(ci as int));
        assert(t@.subrange(ci + 1, n as int) =~= t@.skip(ci + 1));
    }
    if eq_str(key.as_str(), "title") {
        if st.title.is_some() {
            st.set_err(msg_around("duplicate field `", key.as_str(), "`"));
        } else {
            st.title = Some(unquote(raw.as_str()));
            st.open_list = 0;
        }
    } else if eq_str(key.as_str(), "timestamp") {
        if st.timestamp.is_some() {
            st.set_err(msg_around("duplicate field `", key.as_str(), "`"));
        } else {
            st.timestamp = Some(unquote(raw.as_str()));
            st.open_list = 0;
        }
    } else if eq_str(key.as_str(), "description") {
        if st.description.is_some() {
            st.set_err(msg_around("duplicate field `", key.as_str(), "`"));
        } else {
            st.description = Some(unquote(raw.as_str()));
            st.open_list = 0;
        }
    } else if eq_str(key.as_str(), "author") {
        if st.author.is_some() {
            st.set_err(msg_around("duplicate field `", key.as_str(), "`"));
        } else {
            st.author = Some(unquote(raw.as_str()));
            st.open_list = 0;
        }
    } else if eq_str(key.as_str(), "redirect") {
        if st.redirect.is_some() {
            st.set_err(msg_around("duplicate field `", key.as_str(), "`"));
        } else {
            if raw.as_str().unicode_len() == 0 {
                st.redirect = Some(None);
            } else {
                st.redirect = Some(Some(unquote(raw.as_str())));
            }
            st.open_list = 0;
        }
    } else if eq_str(key.as_str(), "published") {
        if st.published.is_some() {
            st.set_err(msg_around("duplicate field `", key.as_str(), "`"));
        } else if eq_str(raw.as_str(), "true") {
            st.published = Some(true);
            st.open_list = 0;
        } else if eq_str(raw.as_str(), "false") {
            st.published = Some(false);
            st.open_list = 0;
        } else {
            st.set_err(msg_around("invalid value for field `", key.as_str(), "`"));
        }
    } else if eq_str(key.as_str(), "show_related") {
        if st.show_related.is_some() {
            st.set_err(msg_around("duplicate field `", key.as_str(), "`"));
        } else if eq_str(raw.as_str(), "true") {
            st.show_related = Some(true);
            st.open_list = 0;
        } else if eq_str(raw.as_str(), "false") {
            st.show_related = Some(false);
            st.open_list = 0;
        } else {
            st.set_err(msg_around("invalid value for field `", key.as_str(), "`"));
        }
    } else if eq_str(key.as_str(), "todo") {
        if st.todo.is_some() {
            st.set_err(msg_around("duplicate field `", key.as_str(), "`"));
        } else if raw.as_str().unicode_len() > 0 {
            st.set_err(msg_around("invalid value for field `", key.as_str(), "`"));
        } else {
            let fresh: Vec<String> = Vec::new();
            proof {
                assert(fresh.deep_view() =~~= Seq::<Seq<char>>::empty());
            }
            st.todo = Some(fresh);
            st.open_list = 1;
        }
    } else if eq_str(key.as_str(), "tags") {
        if st.tags.is_some() {
            st.set_err(msg_around("duplicate field `", key.as_str(), "`"));
        } else if raw.as_str().unicode_len() > 0 {
            st.set_err(msg_around("invalid value for field `", key.as_str(), "`"));
        } else {
            let fresh: Vec<String> = Vec::new();
            proof {
                assert(fresh.deep_view() =~~= Seq::<Seq<char>>::empty());
            }
            st.tags = Some(fresh);
            st.open_list = 2;
        }
    } else {
        st.set_err(msg_around("unknown field `", key.as_str(), "`"));
    }
}

/// An open list always has its vector: what `fm_step` preserves.
pub open spec fn fm_inv(st: FmSt) -> bool {
    &&& st.open_list == 1 ==> st.todo is Some
    &&& st.open_list == 2 ==> st.tags is Some
}

proof fn lemma_fm_step_inv(st: FmSt, line: Seq<char>)
    requires
        fm_inv(st),
    ensures
        fm_inv(fm_step(st, line)),
{
}

/// Applies one raw front-matter line to the reader state.
fn fm_step_exec(st: &mut FmState, line: &str)
    requires
        fm_inv(old(st)@),
    ensures
        final(st)@ == fm_step(old(st)@, line@),
{
    if st.err.is_some() {
        return ;
    }
    let t = trim(line);
    let tn = t.as_str().unicode_len();
    if tn == 0 {
        return ;
    }
    if t.as_str().get_char(0) == '-' {
        if tn >= 2 && t.as_str().get_char(1) == ' ' {
            let item = unquote(trim(t.as_str().substring_char(2, tn)).as_str());
            proof {
                assert(t@.subrange(2, tn as int) =~= t@.skip(2));
            }
            if st.open_list == 1 {
                match &mut st.todo {
                    Some(v) => {
                        let ghost prev = v.deep_view();
                        v.push(item);
                        proof {
                            assert(v.deep_view() =~~= prev.push(item@));
                        }
                    },
                    None => {
                        // An open todo list always has a todo vector.
                        assert(false);
                    },
                }
            } else if st.open_list == 2 {
                match &mut st.tags {
                    Some(v) => {
                        let ghost prev = v.deep_view();
                        v.push(item);
                        proof {
                            assert(v.deep_view() =~~= prev.push(item@));
                        }
                    },
                    None => {
                        assert(false);
                    },
                }
            } else {
                st.set_err(msg_around("invalid front matter line `", t.as_str(), "`"));
            }
        } else {
            st.set_err(msg_around("invalid front matter line `", t.as_str(), "`"));
        }
    } else {
        match index_of_char(t.as_str(), ':') {
            Some(ci) => fm_key_step_exec(st, t.as_str(), ci),
            None => {
                st.set_err(msg_around("invalid front matter line `", t.as_str(), "`"));
            },
        }
    }
}

/// Reads the front-matter block `lines[lo..hi]`.
fn fm_parse(lines: &Vec<String>, lo: usize, hi: usize) -> (st: FmState)
    requires
        lo <= hi <= lines@.len(),
    ensures
        st@ == fm_run(lines.deep_view().subrange(lo as int, hi as int)),
{
    let mut st = FmState::new();
    let mut i: usize = lo;
    proof {
        assert(lines.deep_view().subrange(lo as int, lo as int) =~~= Seq::<Seq<char>>::empty());
    }
    while i < hi
        invariant
            lo <= i <= hi <= lines@.len(),
            st@ == fm_run(lines.deep_view().subrange(lo as int, i as int)),
            fm_inv(st@),
        decreases hi - i,
    {
        proof {
            lemma_fm_step_inv(st@, lines@[i as int]@);
        }
        fm_step_exec(&mut st, lines[i].as_str());
        proof {
            let pre = lines.deep_view().subrange(lo as int, i as int);
            let cur = lines.deep_view().subrange(lo as int, i + 1);
            assert(cur.drop_last() =~~= pre);
            assert(cur.last() == lines@[i as int]@);
        }
        i += 1;
    }
    st
}

// ------------------------------------------------------------------
// Timestamps
// ------------------------------------------------------------------

/// `s` has the shape `YYYY-MM-DDTHH:MM:SS`: 19 characters, digits in the
/// six fields, the four separators in place.
pub open spec fn ts_shape(s: Seq<char>) -> bool {
    &&& s.len() == 19
    &&& s[4] == '-' && s[7] == '-' && s[10] == 'T' && s[13] == ':' && s[16] == ':'
    &&& forall|i: int|
        0 <= i < 19 && i != 4 && i != 7 && i != 10 && i != 13 && i != 16 ==> is_digit(s[i])
}

pub open spec fn ts_year(s: Seq<char>) -> int {
    digits_val(s.subrange(0, 4))
}

pub open spec fn ts_month(s: Seq<char>) -> int {
    digits_val(s.subrange(5, 7))
}

pub open spec fn ts_day(s: Seq<char>) -> int {
    digits_val(s.subrange(8, 10))
}

pub open spec fn ts_hour(s: Seq<char>) -> int {
    digits_val(s.subrange(11, 13))
}

pub open spec fn ts_minute(s: Seq<char>) -> int {
    digits_val(s.subrange(14, 16))
}

pub open spec fn ts_second(s: Seq<char>) -> int {
    digits_val(s.subrange(17, 19))
}

pub open spec fn leap_year(y: int) -> bool {
    y % 4 == 0 && (y % 100 != 0 || y % 400 == 0)
}

pub open spec fn days_in_month(y: int, m: int) -> int {
    if m == 2 {
        if leap_year(y) {
            29
        } else {
            28
        }
    } else if m == 4 || m == 6 || m == 9 || m == 11 {
        30
    } else {
        31
    }
}

/// A calendar-valid timestamp in the required format.
pub open spec fn valid_timestamp(s: Seq<char>) -> bool {
    &&& ts_shape(s)
    &&& 1 <= ts_month(s) <= 12
    &&& 1 <= ts_day(s) <= days_in_month(ts_year(s), ts_month(s))
    &&& ts_hour(s) <= 23
    &&& ts_minute(s) <= 59
    &&& ts_second(s) <= 59
}

/// Why an invalid timestamp fails to parse, in the words the build prints.
pub open spec fn ts_detail(s: Seq<char>) -> Seq<char> {
    if s.len() < 19 {
        "premature end of input"@
    } else if s.len() > 19 {
        "trailing input"@
    } else if !ts_shape(s) {
        "input contains invalid characters"@
    } else {
        "input is out of range"@
    }
}

/// Up to four decimal digits denote at most 9999.
proof fn lemma_digits_val_bound(s: Seq<char>)
    requires
        forall|j: int| 0 <= j < s.len() ==> is_digit(s[j]),
    ensures
        0 <= digits_val(s),
        s.len() <= 1 ==> digits_val(s) <= 9,
        s.len() <= 2 ==> digits_val(s) <= 99,
        s.len() <= 3 ==> digits_val(s) <= 999,
        s.len() <= 4 ==> digits_val(s) <= 9999,
    decreases s.len(),
{
    if s.len() > 0 {
        lemma_digits_val_bound(s.drop_last());
    }
}

/// Checks the timestamp format; `None` when valid, else the parse detail.
pub fn timestamp_error(s: &str) -> (r: Option<String>)
    ensures
        r is None <==> valid_timestamp(s@),
        r matches Some(d) ==> d@ == ts_detail(s@),
{
    let n = s.unicode_len();
    if n < 19 {
        return Some("premature end of input".to_owned());
    }
    if n > 19 {
        return Some("trailing input".to_owned());
    }
    if s.get_char(4) != '-' || s.get_char(7) != '-' || s.get_char(10) != 'T' || s.get_char(13)
        != ':' || s.get_char(16) != ':' {
        return Some("input contains invalid characters".to_owned());
    }
    let mut i: usize = 0;
    while i < 19
        invariant
            i <= 19,
            n == s@.len(),
            n == 19,
            forall|j: int|
                0 <= j < i && j != 4 && j != 7 && j != 10 && j != 13 && j != 16 ==> is_digit(
                    s@[j],
                ),
        decreases 19 - i,
    {
        if i != 4 && i != 7 && i != 10 && i != 13 && i != 16 {
            let c = s.get_char(i);
            if c < '0' || c > '9' {
                return Some("input contains invalid characters".to_owned());
            }
        }
        i += 1;
    }
    assert(ts_shape(s@));
    let ys = s.substring_char(0, 4);
    let year = match parse_digits_u32(ys) {
        Some(v) => v,
        None => {
            proof {
                lemma_digits_val_bound(ys@);
            }
            assert(false);
            0
        },
    };
    let ms = s.substring_char(5, 7);
    let month = match parse_digits_u32(ms) {
        Some(v) => v,
        None => {
            proof {
                lemma_digits_val_bound(ms@);
            }
            assert(false);
            0
        },
    };
    let ds = s.substring_char(8, 10);
    let day = match parse_digits_u32(ds) {
        Some(v) => v,
        None => {
            proof {
                lemma_digits_val_bound(ds@);
            }
            assert(false);
            0
        },
    };
    let hs = s.substring_char(11, 13);
    let hour = match parse_digits_u32(hs) {
        Some(v) => v,
        None => {
            proof {
                lemma_digits_val_bound(hs@);
            }
            assert(false);
            0
        },
    };
    let mis = s.substring_char(14, 16);
    let minute = match parse_digits_u32(mis) {
        Some(v) => v,
        None => {
            proof {
                lemma_digits_val_bound(mis@);
            }
            assert(false);
            0
        },
    };
    let ss = s.substring_char(17, 19);
    let second = match parse_digits_u32(ss) {
        Some(v) => v,
        None => {
            proof {
                lemma_digits_val_bound(ss@);
            }
            assert(false);
            0
        },
    };
    let leap = year % 4 == 0 && (year % 100 != 0 || year % 400 == 0);
    let dim: u32 = if month == 2 {
        if leap {
            29
        } else {
            28
        }
    } else if month == 4 || month == 6 || month == 9 || month == 11 {
        30
    } else {
        31
    };
    if 1 <= month && month <= 12 && 1 <= day && day <= dim && hour <= 23 && minute <= 59 && second
        <= 59 {
        None
    } else {
        Some("input is out of range".to_owned())
    }
}

// ------------------------------------------------------------------
// Paths and regions
// ------------------------------------------------------------------

/// The final path component: everything after the last slash.
pub open spec fn basename(p: Seq<char>) -> Seq<char> {
    match char_rindex(p, '/') {
        Option::Some(i) => p.skip(i + 1),
        Option::None => p,
    }
}

/// The name without its extension: up to the last dot, unless the dot
/// leads the name.
pub open spec fn strip_ext(name: Seq<char>) -> Seq<char> {
    match char_rindex(name, '.') {
        Option::Some(i) => if i > 0 {
            name.take(i)
        } else {
            name
        },
        Option::None => name,
    }
}

/// The extension of a file name: what follows the last dot, unless that
/// dot leads the name.
pub open spec fn ext_of(name: Seq<char>) -> Option<Seq<char>> {
    match char_rindex(name, '.') {
        Option::Some(i) => if i > 0 {
            Option::Some(name.skip(i + 1))
        } else {
            Option::None
        },
        Option::None => Option::None,
    }
}

/// The extension of a file name, executable.
pub fn ext_of_exec(name: &str) -> (r: Option<String>)
    ensures
        ext_of(name@) == (match r {
            Some(ref e) => Option::Some(e@),
            None => Option::None::<Seq<char>>,
        }),
{
    let n = name.unicode_len();
    match rindex_of_char(name, '.') {
        Some(i) => {
            if i > 0 {
                let piece = name.substring_char(i + 1, n);
                proof {
                    assert(name@.subrange(i + 1, n as int) =~= name@.skip(i + 1));
                }
                Some(piece.to_owned())
            } else {
                None
            }
        },
        None => None,
    }
}

/// The URL path a file name denotes; the sentinel `index` collapses to the
/// site root.
pub open spec fn slug_of(p: Seq<char>) -> Seq<char> {
    let stem = strip_ext(basename(p));
    if stem == "index"@ {
        Seq::empty()
    } else {
        stem
    }
}

/// The final path component, executable.
pub fn basename_exec(p: &str) -> (r: String)
    ensures
        r@ == basename(p@),
{
    let n = p.unicode_len();
    match rindex_of_char(p, '/') {
        Some(i) => {
            let piece = p.substring_char(i + 1, n);
            proof {
                assert(p@.subrange(i + 1, n as int) =~= p@.skip(i + 1));
            }
            piece.to_owned()
        },
        None => p.to_owned(),
    }
}

/// The name without its extension, executable.
pub fn strip_ext_exec(name: &str) -> (r: String)
    ensures
        r@ == strip_ext(name@),
{
    match rindex_of_char(name, '.') {
        Some(i) => {
            if i > 0 {
                let piece = name.substring_char(0, i);
                proof {
                    assert(name@.subrange(0, i as int) =~= name@.take(i as int));
                }
                piece.to_owned()
            } else {
                name.to_owned()
            }
        },
        None => name.to_owned(),
    }
}

/// A front-matter delimiter line.
pub open spec fn delim_line(l: Seq<char>) -> bool {
    l == "---"@
}

/// `j` closes the front-matter block that the first line opens.
pub open spec fn fm_close_at(lines: Seq<Seq<char>>, j: int) -> bool {
    1 <= j < lines.len() && delim_line(lines[j]) && forall|k: int|
        1 <= k < j ==> !delim_line(lines[k])
}

/// The loaded page a well-formed document denotes: the front-matter fields
/// plus identity from the path and the body wrapped line by line.
pub open spec fn loaded_page(path: Seq<char>, st: FmSt, body: Seq<char>) -> PageV {
    PageV { filename: basename(path), url_path: slug_of(path), content: body, ..fm_page(st) }
}

/// What `read_md_text` returns, for every input.
pub open spec fn load_result_is(path: Seq<char>, text: Seq<char>, r: Result<Page, BuildError>) -> bool {
    let lines = text_lines(text);
    let blocked = lines.len() > 0 && delim_line(lines[0]);
    let closed = exists|j: int| fm_close_at(lines, j);
    if blocked && closed {
        let j = choose|j: int| fm_close_at(lines, j);
        let st = fm_run(lines.subrange(1, j));
        let body = unlines(lines.skip(j + 1));
        match fm_error(st) {
            Option::Some(d) => r matches Err(BuildError::MetadataParseError { path: p, detail: dd })
                && p@ == path && dd@ == d,
            Option::None => {
                let p0 = fm_page(st);
                if exists|i: int| 0 <= i < p0.tags.len() && p0.tags[i].len() == 0 {
                    r matches Err(BuildError::EmptyTag { path: p }) && p@ == path
                } else if p0.title.len() == 0 {
                    r matches Err(BuildError::MissingTitle { path: p }) && p@ == path
                } else if !valid_timestamp(p0.timestamp) {
                    r matches Err(BuildError::InvalidTimestamp { path: p, timestamp: t, detail: d })
                        && p@ == path && t@ == p0.timestamp && d@ == ts_detail(p0.timestamp)
                } else {
                    r matches Ok(pg) && pg@ == loaded_page(path, st, body)
                }
            },
        }
    } else {
        r matches Err(BuildError::MissingTitle { path: p }) && p@ == path
    }
}

/// Finds the line that closes the front-matter block the first line opens.
fn find_close(lines: &Vec<String>) -> (r: Option<usize>)
    requires
        lines@.len() >= 1,
    ensures
        match r {
            Some(j) => fm_close_at(lines.deep_view(), j as int),
            None => forall|j: int| !fm_close_at(lines.deep_view(), j),
        },
{
    let mut k: usize = 1;
    while k < lines.len()
        invariant
            1 <= k,
            k <= lines@.len() || lines@.len() == 0,
            lines@.len() >= 1,
            forall|i: int| 1 <= i < k ==> !delim_line(lines.deep_view()[i]),
        decreases lines@.len() - k,
    {
        if eq_str(lines[k].as_str(), "---") {
            return Some(k);
        }
        k += 1;
    }
    proof {
        assert forall|j: int| !fm_close_at(lines.deep_view(), j) by {
            if 1 <= j < lines.deep_view().len() {
                assert(!delim_line(lines.deep_view()[j]));
            }
        }
    }
    None
}

/// Loads one document from its raw text.  The path only names the document
/// in errors and provides the file name and slug; the caller has already
/// read the file.
pub fn read_md_text(path: &str, text: &str) -> (r: Result<Page, BuildError>)
    ensures
        load_result_is(path@, text@, r),
{
    let lines = lines_of(text);
    let ghost lv = lines.deep_view();
    let blocked = lines.len() > 0 && eq_str(lines[0].as_str(), "---");
    let close: Option<usize> = if blocked {
        find_close(&lines)
    } else {
        None
    };
    match close {
        Some(j) => {
            proof {
                assert(fm_close_at(lv, j as int));
                let cj = choose|jj: int| fm_close_at(lv, jj);
                assert(fm_close_at(lv, cj));
                if cj < j {
                    assert(!delim_line(lv[cj]));
                } else if cj > j {
                    assert(!delim_line(lv[j as int]));
                }
                assert(cj == j as int);
            }
            let st = fm_parse(&lines, 1, j);
            let ghost stv = st@;
            let body = unlines_vec(&lines, j + 1);
            proof {
                assert(lv.skip(j + 1) =~~= lv.subrange(j + 1, lv.len() as int));
            }
            match &st.err {
                Some(e) => {
                    return Err(
                        BuildError::MetadataParseError {
                            path: path.to_owned(),
                            detail: e.clone(),
                        },
                    );
                },
                None => {},
            }
            if st.title.is_none() {
                return Err(
                    BuildError::MetadataParseError {
                        path: path.to_owned(),
                        detail: msg_around("missing field `", "title", "`"),
                    },
                );
            }
            if st.timestamp.is_none() {
                return Err(
                    BuildError::MetadataParseError {
                        path: path.to_owned(),
                        detail: msg_around("missing field `", "timestamp", "`"),
                    },
                );
            }
            if st.published.is_none() {
                return Err(
                    BuildError::MetadataParseError {
                        path: path.to_owned(),
                        detail: msg_around("missing field `", "published", "`"),
                    },
                );
            }
            proof {
                assert(fm_error(stv) is None);
            }
            let FmState {
                title,
                timestamp,
                description,
                author,
                redirect,
                published,
                show_related,
                todo,
                tags,
                open_list: _,
                err: _,
            } = st;
            let title = match title {
                Some(s) => s,
                None => String::new(),
            };
            let timestamp = match timestamp {
                Some(s) => s,
                None => String::new(),
            };
            let description = match description {
                Some(s) => s,
                None => String::new(),
            };
            let author = match author {
                Some(s) => s,
                None => String::new(),
            };
            let redirect = match redirect {
                Some(r) => r,
                None => None,
            };
            let published = match published {
                Some(b) => b,
                None => false,
            };
            let show_related = match show_related {
                Some(b) => b,
                None => true,
            };
            let todo = match todo {
                Some(v) => v,
                None => {
                    let fresh: Vec<String> = Vec::new();
                    proof {
                        assert(fresh.deep_view() =~~= Seq::<Seq<char>>::empty());
                    }
                    fresh
                },
            };
            let tags = match tags {
                Some(v) => v,
                None => {
                    let fresh: Vec<String> = Vec::new();
                    proof {
                        assert(fresh.deep_view() =~~= Seq::<Seq<char>>::empty());
                    }
                    fresh
                },
            };
            let ghost p0 = fm_page(stv);
            proof {
                assert(p0.tags == tags.deep_view());
                assert(p0.todo == todo.deep_view());
                assert(p0.title == title@);
                assert(p0.timestamp == timestamp@);
                assert(p0.description == description@);
                assert(p0.author == author@);
            }
            // Reject the empty tag first, as the corpus invariant demands.
            let mut ti: usize = 0;
            #[verifier::loop_isolation(false)]
            while ti < tags.len()
                invariant
                    ti <= tags@.len(),
                    forall|i: int| 0 <= i < ti ==> tags@[i]@.len() != 0,
                    p0.tags == tags.deep_view(),
                decreases tags@.len() - ti,
            {
                if tags[ti].as_str().unicode_len() == 0 {
                    proof {
                        assert(tags.deep_view()[ti as int].len() == 0);
                        assert(exists|i: int|
                            0 <= i < p0.tags.len() && p0.tags[i].len() == 0) by {
                            assert(p0.tags[ti as int].len() == 0);
                        }
                    }
                    return Err(BuildError::EmptyTag { path: path.to_owned() });
                }
                ti += 1;
            }
            proof {
                assert forall|i: int| 0 <= i < p0.tags.len() implies p0.tags[i].len() != 0 by {
                    assert(tags@[i]@.len() != 0);
                }
            }
            if title.as_str().unicode_len() == 0 {
                return Err(BuildError::MissingTitle { path: path.to_owned() });
            }
            match timestamp_error(timestamp.as_str()) {
                Some(d) => {
                    return Err(
                        BuildError::InvalidTimestamp {
                            path: path.to_owned(),
                            timestamp,
                            detail: d,
                        },
                    );
                },
                None => {},
            }
            let filename = basename_exec(path);
            let mut url_path = strip_ext_exec(filename.as_str());
            if eq_str(url_path.as_str(), "index") {
                url_path = String::new();
            }
            let page = Page {
                title,
                timestamp,
                description,
                author,
                redirect,
                published,
                show_related,
                todo,
                tags,
                filename,
                url_path,
                content: body,
                backlinks: Vec::new(),
            };
            proof {
                assert(page.backlinks.deep_view() =~~= Seq::<crate::model::LinkV>::empty());
                assert(page@ =~~= loaded_page(path@, stv, unlines(lv.skip(j + 1))));
            }
            Ok(page)
        },
        None => {
            Err(BuildError::MissingTitle { path: path.to_owned() })
        },
    }
}

// ------------------------------------------------------------------
// The round-trip law
// ------------------------------------------------------------------

/// A scalar that front-matter serialization and parsing carry through
/// unchanged: nonempty, solid ends, not wrapped in quotes, one line.
pub open spec fn clean_value(v: Seq<char>) -> bool {
    &&& v.len() > 0
    &&& !is_space(v[0])
    &&& !is_space(v.last())
    &&& !(v.len() >= 2 && v[0] == '"' && v.last() == '"')
    &&& no_char_in(v, '\n', 0, v.len() as int)
}

/// The list-item lines a tag list serializes to.
pub open spec fn tag_lines(tags: Seq<Seq<char>>) -> Seq<Seq<char>> {
    tags.map_values(|g: Seq<char>| "- "@ + g)
}

/// The front-matter block a document with these fields serializes to.
pub open spec fn round_trip_fm(
    title: Seq<char>,
    stamp: Seq<char>,
    tags: Seq<Seq<char>>,
) -> Seq<Seq<char>> {
    seq![
        "title: "@ + title,
        "timestamp: "@ + stamp,
        "published: true"@,
        "tags:"@,
    ] + tag_lines(tags)
}

/// A whole document with these fields and this raw body.
pub open spec fn round_trip_doc(
    title: Seq<char>,
    stamp: Seq<char>,
    tags: Seq<Seq<char>>,
    body: Seq<char>,
) -> Seq<char> {
    unlines(seq!["---"@] + round_trip_fm(title, stamp, tags) + seq!["---"@]) + body
}

/// The reader state the block leaves behind.
pub open spec fn round_trip_state(
    title: Seq<char>,
    stamp: Seq<char>,
    tags: Seq<Seq<char>>,
) -> FmSt {
    FmSt {
        title: Option::Some(title),
        timestamp: Option::Some(stamp),
        description: Option::None,
        author: Option::None,
        redirect: Option::None,
        published: Option::Some(true),
        show_related: Option::None,
        todo: Option::None,
        tags: Option::Some(tags),
        open_list: 2,
        err: Option::None,
    }
}

proof fn lemma_key_chars()
    ensures
        ("title: "@).len() == 7 && ("title: "@)[0] == 't' && ("title: "@)[5] == ':' && (
        "title: "@)[6] == ' ',
        ("title"@).len() == 5 && ("title"@)[0] == 't' && ("title"@)[4] == 'e',
        ("timestamp: "@).len() == 11 && ("timestamp: "@)[0] == 't' && ("timestamp: "@)[9] == ':'
            && ("timestamp: "@)[10] == ' ',
        ("timestamp"@).len() == 9 && ("timestamp"@)[0] == 't' && ("timestamp"@)[8] == 'p',
        ("published: true"@).len() == 15 && ("published: true"@)[0] == 'p' && (
        "published: true"@)[9] == ':' && ("published: true"@)[10] == ' ',
        ("published"@).len() == 9 && ("published"@)[0] == 'p' && ("published"@)[8] == 'd',
        ("true"@).len() == 4 && ("true"@)[0] == 't' && ("true"@)[3] == 'e',
        ("tags:"@).len() == 5 && ("tags:"@)[0] == 't' && ("tags:"@)[1] == 'a' && ("tags:"@)[4]
            == ':',
        ("tags"@).len() == 4 && ("tags"@)[0] == 't' && ("tags"@)[1] == 'a' && ("tags"@)[3] == 's',
        ("- "@).len() == 2 && ("- "@)[0] == '-' && ("- "@)[1] == ' ',
        ("---"@).len() == 3 && ("---"@)[0] == '-' && ("---"@)[1] == '-' && ("---"@)[2] == '-',
        ("description"@).len() == 11,
        ("author"@).len() == 6,
        ("redirect"@).len() == 8,
        ("show_related"@).len() == 12,
        ("todo"@).len() == 4 && ("todo"@)[0] == 't' && ("todo"@)[1] == 'o',
        forall|j: int| 0 <= j < 5 ==> ("title: "@)[j] != ':',
        forall|j: int| 0 <= j < 9 ==> ("timestamp: "@)[j] != ':',
        forall|j: int| 0 <= j < 9 ==> ("published: true"@)[j] != ':',
        forall|j: int| 0 <= j < 4 ==> ("tags:"@)[j] != ':',
{
    reveal_strlit("title: ");
    reveal_strlit("title");
    reveal_strlit("timestamp: ");
    reveal_strlit("timestamp");
    reveal_strlit("published: true");
    reveal_strlit("published");
    reveal_strlit("true");
    reveal_strlit("tags:");
    reveal_strlit("tags");
    reveal_strlit("- ");
    reveal_strlit("---");
    reveal_strlit("description");
    reveal_strlit("author");
    reveal_strlit("redirect");
    reveal_strlit("show_related");
    reveal_strlit("todo");
}

/// Trimming a key line built as `prefix + value` does nothing, its first
/// colon sits at the end of the bare key, and the raw value parses back.
proof fn lemma_scalar_line(prefix: Seq<char>, key: Seq<char>, v: Seq<char>, ci: int)
    requires
        clean_value(v),
        prefix.len() >= 2,
        ci == prefix.len() - 2,
        prefix[ci] == ':',
        prefix[ci + 1] == ' ',
        !is_space(prefix[0]),
        no_char_in(prefix, ':', 0, ci),
        key =~= prefix.take(ci),
        key.len() > 0,
        !is_space(key[0]),
        !is_space(key.last()),
    ensures
        trim_spec(prefix + v) == prefix + v,
        char_index(prefix + v, ':') == Option::Some(ci),
        trim_spec((prefix + v).take(ci)) == key,
        unquote_spec(trim_spec((prefix + v).skip(ci + 1))) == v,
{
    let line = prefix + v;
    assert(line[0] == prefix[0]);
    assert(line.last() == v.last());
    lemma_trim_stable(line);
    assert forall|j: int| 0 <= j < ci implies line[j] != ':' by {
        assert(line[j] == prefix[j]);
    }
    assert(line[ci] == ':');
    lemma_char_index_at(line, ':', ci);
    assert(line.take(ci) =~= key);
    lemma_trim_stable(key);
    let after = line.skip(ci + 1);
    assert(after =~= seq![' '] + v);
    assert(after.drop_first() =~= v);
    assert(is_space(after[0]));
    assert(crate::text::trim_front_spec(after) == crate::text::trim_front_spec(v));
    assert(crate::text::trim_front_spec(v) == v);
    assert(crate::text::trim_back_spec(v) == v);
    assert(trim_spec(after) == v);
    assert(unquote_spec(v) == v);
}

/// The reader state the serialized block denotes: each field comes back
/// exactly, the tags in order.
proof fn lemma_fm_round_trip(title: Seq<char>, stamp: Seq<char>, tags: Seq<Seq<char>>)
    requires
        clean_value(title),
        clean_value(stamp),
        forall|i: int| 0 <= i < tags.len() ==> clean_value(#[trigger] tags[i]),
    ensures
        fm_run(round_trip_fm(title, stamp, tags)) == round_trip_state(title, stamp, tags),
    decreases tags.len(),
{
    lemma_key_chars();
    reveal_strlit("title: ");
    reveal_strlit("title");
    reveal_strlit("timestamp: ");
    reveal_strlit("timestamp");
    reveal_strlit("published: true");
    reveal_strlit("published");
    reveal_strlit("true");
    reveal_strlit("tags:");
    reveal_strlit("tags");
    reveal_strlit("- ");
    reveal_strlit("---");
    reveal_strlit("description");
    reveal_strlit("author");
    reveal_strlit("redirect");
    reveal_strlit("show_related");
    reveal_strlit("todo");
    if tags.len() == 0 {
        let lines = round_trip_fm(title, stamp, tags);
        assert(lines.len() == 4);
        // Evaluate the four steps in order, last line first by definition.
        let l0 = "title: "@ + title;
        let l1 = "timestamp: "@ + stamp;
        let l2 = "published: true"@;
        let l3 = "tags:"@;
        assert(lines =~~= seq![l0, l1, l2, l3]);
        lemma_scalar_line("title: "@, "title"@, title, 5);
        lemma_scalar_line("timestamp: "@, "timestamp"@, stamp, 9);
        let st0 = fm_run(seq![l0]);
        assert(seq![l0].drop_last() =~~= Seq::<Seq<char>>::empty());
        assert(seq![l0].last() == l0);
        assert(fm_run(seq![l0].drop_last()) == fm_init());
        assert(st0 == fm_step(fm_run(seq![l0].drop_last()), seq![l0].last()));
        assert(st0 == fm_step(fm_init(), l0));
        assert(st0 == (FmSt { title: Option::Some(title), ..fm_init() }));
        let st1 = fm_run(seq![l0, l1]);
        assert(seq![l0, l1].drop_last() =~~= seq![l0]);
        assert(("timestamp"@) != ("title"@));
        assert(st1 == fm_step(st0, l1));
        assert(st1 == (FmSt {
            title: Option::Some(title),
            timestamp: Option::Some(stamp),
            ..fm_init()
        }));
        let st2 = fm_run(seq![l0, l1, l2]);
        assert(seq![l0, l1, l2].drop_last() =~~= seq![l0, l1]);
        // The published line is one literal; trim leaves it, the colon
        // sits at position nine, and the raw value is `true`.
        lemma_trim_stable(l2);
        lemma_char_index_at(l2, ':', 9);
        assert(l2.take(9) =~= "published"@);
        lemma_trim_stable("published"@);
        assert(("published"@) != ("title"@));
        assert(("published"@) != ("timestamp"@)) by {
            assert(("published"@)[0] == 'p' && ("timestamp"@)[0] == 't');
        }
        assert(("published"@) != ("description"@));
        assert(("published"@) != ("author"@));
        assert(("published"@) != ("redirect"@));
        let after2 = l2.skip(10);
        assert(after2 =~= seq![' '] + "true"@);
        assert(after2.drop_first() =~= "true"@);
        assert(crate::text::trim_front_spec(after2) == crate::text::trim_front_spec("true"@));
        assert(crate::text::trim_front_spec("true"@) == "true"@);
        assert(crate::text::trim_back_spec("true"@) == "true"@);
        assert(trim_spec(after2) == "true"@);
        assert(st2 == fm_step(st1, l2));
        assert(st2 == (FmSt {
            title: Option::Some(title),
            timestamp: Option::Some(stamp),
            published: Option::Some(true),
            ..fm_init()
        }));
        let st3 = fm_run(lines);
        assert(lines.drop_last() =~~= seq![l0, l1, l2]);
        lemma_trim_stable(l3);
        lemma_char_index_at(l3, ':', 4);
        assert(l3.take(4) =~= "tags"@);
        lemma_trim_stable("tags"@);
        assert(("tags"@) != ("title"@));
        assert(("tags"@) != ("timestamp"@));
        assert(("tags"@) != ("description"@));
        assert(("tags"@) != ("author"@));
        assert(("tags"@) != ("redirect"@));
        assert(("tags"@) != ("published"@));
        assert(("tags"@) != ("show_related"@));
        assert(("tags"@) != ("todo"@)) by {
            assert(("tags"@)[1] == 'a' && ("todo"@)[1] == 'o');
        }
        let after3 = l3.skip(5);
        assert(after3 =~= Seq::<char>::empty());
        assert(trim_spec(after3) == Seq::<char>::empty());
        assert(st3 == fm_step(st2, l3));
        assert(tag_lines(tags).len() == 0);
        assert(st3.tags == Option::Some(Seq::<Seq<char>>::empty()));
        assert(st3.tags->Some_0 =~~= tags);
        assert(st3 == round_trip_state(title, stamp, tags));
    } else {
        lemma_fm_round_trip(title, stamp, tags.drop_last());
        let lines = round_trip_fm(title, stamp, tags);
        let shorter = round_trip_fm(title, stamp, tags.drop_last());
        assert(lines.drop_last() =~~= shorter) by {
            assert(tag_lines(tags).drop_last() =~~= tag_lines(tags.drop_last()));
        }
        let last = "- "@ + tags.last();
        assert(lines.last() == last) by {
            assert(tag_lines(tags).last() == last);
        }
        assert(fm_run(lines) == fm_step(round_trip_state(title, stamp, tags.drop_last()), last));
        // The item line: solid ends, a dash and a space, the value back.
        assert(last[0] == '-');
        assert(last[1] == ' ');
        assert(last.last() == tags.last().last());
        assert(clean_value(tags.last()));
        lemma_trim_stable(last);
        assert(last.skip(2) =~= tags.last());
        lemma_trim_stable(tags.last());
        assert(unquote_spec(trim_spec(last.skip(2))) == tags.last());
        let st = fm_step(round_trip_state(title, stamp, tags.drop_last()), last);
        assert(st.tags == Option::Some(tags.drop_last().push(tags.last())));
        assert(tags.drop_last().push(tags.last()) =~~= tags);
        assert(st == round_trip_state(title, stamp, tags));
    }
}

/// The round-trip law: loading a document serialized from a title, a
/// timestamp, a tag list, and a raw body yields exactly those fields, the
/// body rewrapped with a trailing newline per line, and the identity
/// fields from the path.  The hypothesis is the loader's own contract, so
/// this speaks about every value `read_md_text` can return.
pub proof fn lemma_load_round_trip(
    path: Seq<char>,
    title: Seq<char>,
    stamp: Seq<char>,
    tags: Seq<Seq<char>>,
    body: Seq<char>,
    r: Result<Page, BuildError>,
)
    requires
        clean_value(title),
        clean_value(stamp),
        valid_timestamp(stamp),
        forall|i: int| 0 <= i < tags.len() ==> clean_value(#[trigger] tags[i]),
        load_result_is(path, round_trip_doc(title, stamp, tags, body), r),
    ensures
        r matches Ok(p) && p@.title == title && p@.timestamp == stamp && p@.tags =~~= tags
            && p@.published && p@.show_related && p@.todo =~~= Seq::<Seq<char>>::empty()
            && p@.description =~= Seq::<char>::empty() && p@.author =~= Seq::<char>::empty()
            && p@.redirect is None && p@.content =~= unlines(text_lines(body)) && p@.filename
            == basename(path) && p@.url_path == slug_of(path),
{
    lemma_key_chars();
    reveal_strlit("title: ");
    reveal_strlit("title");
    reveal_strlit("timestamp: ");
    reveal_strlit("timestamp");
    reveal_strlit("published: true");
    reveal_strlit("published");
    reveal_strlit("true");
    reveal_strlit("tags:");
    reveal_strlit("tags");
    reveal_strlit("- ");
    reveal_strlit("---");
    reveal_strlit("description");
    reveal_strlit("author");
    reveal_strlit("redirect");
    reveal_strlit("show_related");
    reveal_strlit("todo");
    let fm = round_trip_fm(title, stamp, tags);
    let block = seq!["---"@] + fm + seq!["---"@];
    let doc = round_trip_doc(title, stamp, tags, body);
    let n = fm.len();
    assert(n == 4 + tags.len());
    // Every serialized line is newline-free, so the document splits back
    // into the block's lines followed by the body's lines.
    assert forall|i: int|
        0 <= i < block.len() implies no_char_in(#[trigger] block[i], '\n', 0, block[i].len() as int) by {
        if i == 0 || i == block.len() - 1 {
        } else if i <= 4 {
            if i == 1 {
                assert(block[i] == "title: "@ + title);
                assert forall|j: int| 0 <= j < block[i].len() implies block[i][j] != '\n' by {
                    reveal_strlit("title: ");
                    if j >= 7 {
                        assert(block[i][j] == title[j - 7]);
                    }
                }
            } else if i == 2 {
                assert(block[i] == "timestamp: "@ + stamp);
                assert forall|j: int| 0 <= j < block[i].len() implies block[i][j] != '\n' by {
                    reveal_strlit("timestamp: ");
                    if j >= 11 {
                        assert(block[i][j] == stamp[j - 11]);
                    }
                }
            } else if i == 3 {
                assert(block[i] == "published: true"@);
                reveal_strlit("published: true");
            } else {
                assert(block[i] == "tags:"@);
                reveal_strlit("tags:");
            }
        } else {
            assert(block[i] == tag_lines(tags)[i - 1 - 4]);
            assert(block[i] == "- "@ + tags[i - 5]);
            assert forall|j: int| 0 <= j < block[i].len() implies block[i][j] != '\n' by {
                if j >= 2 {
                    assert(block[i][j] == tags[i - 5][j - 2]);
                }
            }
        }
    }
    lemma_split_unlines(block, body);
    assert(split_lines(doc) =~~= block + split_lines(body));
    // A trailing empty segment can only come from the body.
    let lines = text_lines(doc);
    assert(split_lines(doc).len() == block.len() + split_lines(body).len());
    assert(split_lines(body).len() >= 1) by {
        crate::text::lemma_split_lines_len(body);
    }
    assert(split_lines(doc).last() == split_lines(body).last());
    assert(lines =~~= block + text_lines(body)) by {
        if split_lines(body).last().len() == 0 {
            assert(lines =~~= split_lines(doc).drop_last());
        } else {
            assert(lines =~~= split_lines(doc));
        }
    }
    // The block is delimited exactly where it was written.
    assert(lines.len() >= block.len());
    assert(lines[0] == "---"@);
    let close = (n + 1) as int;
    assert(lines[close] == "---"@);
    assert forall|k: int| 1 <= k < close implies !delim_line(#[trigger] lines[k]) by {
        assert(lines[k] == fm[k - 1]);
        if k <= 4 {
            if k == 1 {
                assert(fm[0] == "title: "@ + title);
                assert(fm[0][0] == 't');
            } else if k == 2 {
                assert(fm[1][0] == 't');
            } else if k == 3 {
                assert(fm[2][0] == 'p');
            } else {
                assert(fm[3][0] == 't');
            }
            assert(("---"@)[0] == '-');
        } else {
            assert(fm[k - 1] == "- "@ + tags[k - 5]);
            assert(fm[k - 1][1] == ' ');
            assert(("---"@)[1] == '-');
        }
    }
    assert(fm_close_at(lines, close));
    let cj = choose|jj: int| fm_close_at(lines, jj);
    assert(fm_close_at(lines, cj));
    if cj < close {
        assert(!delim_line(lines[cj]));
    } else if cj > close {
        assert(!delim_line(lines[close]));
    }
    assert(cj == close);
    assert(lines.subrange(1, close) =~~= fm);
    lemma_fm_round_trip(title, stamp, tags);
    let st = fm_run(lines.subrange(1, close));
    assert(st == round_trip_state(title, stamp, tags));
    assert(fm_error(st) is None);
    let p0 = fm_page(st);
    assert(p0.tags == tags);
    assert forall|i: int| 0 <= i < p0.tags.len() implies p0.tags[i].len() != 0 by {
        assert(clean_value(tags[i]));
    }
    assert(p0.title == title && title.len() != 0);
    assert(valid_timestamp(p0.timestamp));
    assert(lines.skip(close + 1) =~~= text_lines(body));
}

} // verus!
