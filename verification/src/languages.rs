//! The static extension-to-language table used to label embedded code
//! blocks for syntax highlighting.

use vstd::prelude::*;

use crate::text::eq_str;

verus! {

/// The label a file extension maps to, if the table knows it.
pub open spec fn language_of(ext: Seq<char>) -> Option<Seq<char>> {
    if ext == "css"@ {
        Option::Some("css"@)
    } else if ext == "gitignore"@ {
        Option::Some("gitignore"@)
    } else if ext == "go"@ {
        Option::Some("go"@)
    } else if ext == "html"@ {
        Option::Some("html"@)
    } else if ext == "js"@ {
        Option::Some("javascript"@)
    } else if ext == "json"@ {
        Option::Some("json"@)
    } else if ext == "md"@ {
        Option::Some("markdown"@)
    } else if ext == "pl"@ {
        Option::Some("perl"@)
    } else if ext == "py"@ {
        Option::Some("python"@)
    } else if ext == "rs"@ {
        Option::Some("rust"@)
    } else if ext == "sh"@ {
        Option::Some("bash"@)
    } else if ext == "toml"@ {
        Option::Some("toml"@)
    } else if ext == "txt"@ {
        Option::Some("text"@)
    } else if ext == "yaml"@ {
        Option::Some("yaml"@)
    } else if ext == "yml"@ {
        Option::Some("yaml"@)
    } else {
        Option::None
    }
}

/// Looks an extension up in the table.
pub fn language_for(ext: &str) -> (r: Option<String>)
    ensures
        language_of(ext@) == (match r {
            Some(ref l) => Option::Some(l@),
            None => Option::None::<Seq<char>>,
        }),
{
    if eq_str(ext, "css") {
        Some("css".to_owned())
    } else if eq_str(ext, "gitignore") {
        Some("gitignore".to_owned())
    } else if eq_str(ext, "go") {
        Some("go".to_owned())
    } else if eq_str(ext, "html") {
        Some("html".to_owned())
    } else if eq_str(ext, "js") {
        Some("javascript".to_owned())
    } else if eq_str(ext, "json") {
        Some("json".to_owned())
    } else if eq_str(ext, "md") {
        Some("markdown".to_owned())
    } else if eq_str(ext, "pl") {
        Some("perl".to_owned())
    } else if eq_str(ext, "py") {
        Some("python".to_owned())
    } else if eq_str(ext, "rs") {
        Some("rust".to_owned())
    } else if eq_str(ext, "sh") {
        Some("bash".to_owned())
    } else if eq_str(ext, "toml") {
        Some("toml".to_owned())
    } else if eq_str(ext, "txt") {
        Some("text".to_owned())
    } else if eq_str(ext, "yaml") {
        Some("yaml".to_owned())
    } else if eq_str(ext, "yml") {
        Some("yaml".to_owned())
    } else {
        None
    }
}

/// The whole table, extension first, label second.
pub fn read_languages() -> (r: Vec<(String, String)>)
    ensures
        r@.len() == 15,
        forall|i: int| 0 <= i < r@.len() ==> language_of(#[trigger] r@[i].0@) == Option::Some(
            r@[i].1@,
        ),
{
    proof {
        reveal_strlit("css");
        reveal_strlit("gitignore");
        reveal_strlit("go");
        reveal_strlit("html");
        reveal_strlit("js");
        reveal_strlit("javascript");
        reveal_strlit("json");
        reveal_strlit("md");
        reveal_strlit("markdown");
        reveal_strlit("pl");
        reveal_strlit("perl");
        reveal_strlit("py");
        reveal_strlit("python");
        reveal_strlit("rs");
        reveal_strlit("rust");
        reveal_strlit("sh");
        reveal_strlit("bash");
        reveal_strlit("toml");
        reveal_strlit("txt");
        reveal_strlit("text");
        reveal_strlit("yaml");
        reveal_strlit("yml");
    }
    let mut r: Vec<(String, String)> = Vec::new();
    r.push(("css".to_owned(), "css".to_owned()));
    r.push(("gitignore".to_owned(), "gitignore".to_owned()));
    r.push(("go".to_owned(), "go".to_owned()));
    r.push(("html".to_owned(), "html".to_owned()));
    r.push(("js".to_owned(), "javascript".to_owned()));
    r.push(("json".to_owned(), "json".to_owned()));
    r.push(("md".to_owned(), "markdown".to_owned()));
    r.push(("pl".to_owned(), "perl".to_owned()));
    r.push(("py".to_owned(), "python".to_owned()));
    r.push(("rs".to_owned(), "rust".to_owned()));
    r.push(("sh".to_owned(), "bash".to_owned()));
    r.push(("toml".to_owned(), "toml".to_owned()));
    r.push(("txt".to_owned(), "text".to_owned()));
    r.push(("yaml".to_owned(), "yaml".to_owned()));
    r.push(("yml".to_owned(), "yaml".to_owned()));
    proof {
        assert(("css"@).len() == 3 && ("css"@)[0] == 'c');
        assert(("gitignore"@).len() == 9);
        assert(("go"@).len() == 2 && ("go"@)[0] == 'g');
        assert(("html"@).len() == 4 && ("html"@)[0] == 'h');
        assert(("js"@).len() == 2 && ("js"@)[0] == 'j');
        assert(("json"@).len() == 4 && ("json"@)[0] == 'j');
        assert(("md"@).len() == 2 && ("md"@)[0] == 'm');
        assert(("pl"@).len() == 2 && ("pl"@)[0] == 'p' && ("pl"@)[1] == 'l');
        assert(("py"@).len() == 2 && ("py"@)[0] == 'p' && ("py"@)[1] == 'y');
        assert(("rs"@).len() == 2 && ("rs"@)[0] == 'r');
        assert(("sh"@).len() == 2 && ("sh"@)[0] == 's');
        assert(("toml"@).len() == 4 && ("toml"@)[0] == 't');
        assert(("txt"@).len() == 3 && ("txt"@)[0] == 't');
        assert(("yaml"@).len() == 4 && ("yaml"@)[0] == 'y');
        assert(("yml"@).len() == 3 && ("yml"@)[0] == 'y');
        assert forall|i: int| 0 <= i < r@.len() implies language_of(#[trigger] r@[i].0@)
            == Option::Some(r@[i].1@) by {
            if i == 0 {
                assert(r@[0].0@ == "css"@ && r@[0].1@ == "css"@);
            } else if i == 1 {
                assert(r@[1].0@ == "gitignore"@ && r@[1].1@ == "gitignore"@);
            } else if i == 2 {
                assert(r@[2].0@ == "go"@ && r@[2].1@ == "go"@);
            } else if i == 3 {
                assert(r@[3].0@ == "html"@ && r@[3].1@ == "html"@);
            } else if i == 4 {
                assert(r@[4].0@ == "js"@ && r@[4].1@ == "javascript"@);
            } else if i == 5 {
                assert(r@[5].0@ == "json"@ && r@[5].1@ == "json"@);
            } else if i == 6 {
                assert(r@[6].0@ == "md"@ && r@[6].1@ == "markdown"@);
            } else if i == 7 {
                assert(r@[7].0@ == "pl"@ && r@[7].1@ == "perl"@);
            } else if i == 8 {
                assert(r@[8].0@ == "py"@ && r@[8].1@ == "python"@);
            } else if i == 9 {
                assert(r@[9].0@ == "rs"@ && r@[9].1@ == "rust"@);
            } else if i == 10 {
                assert(r@[10].0@ == "sh"@ && r@[10].1@ == "bash"@);
            } else if i == 11 {
                assert(r@[11].0@ == "toml"@ && r@[11].1@ == "toml"@);
            } else if i == 12 {
                assert(r@[12].0@ == "txt"@ && r@[12].1@ == "text"@);
            } else if i == 13 {
                assert(r@[13].0@ == "yaml"@ && r@[13].1@ == "yaml"@);
            } else {
                assert(r@[14].0@ == "yml"@ && r@[14].1@ == "yaml"@);
            }
        }
    }
    r
}

} // verus!
