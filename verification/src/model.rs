//! The data model of the pipeline: documents (`Page`), discovered links,
//! authors, site configuration, and the error taxonomy.  Each exec type has
//! a ghost view over character sequences so that contracts can speak of a
//! whole value at once.

use vstd::prelude::*;

verus! {

/// A directed edge discovered in rendered content.
#[derive(Debug, Clone, PartialEq)]
pub struct Link {
    pub from_title: String,
    pub from_path: String,
    pub to_title: String,
    pub to_path: String,
}

pub ghost struct LinkV {
    pub from_title: Seq<char>,
    pub from_path: Seq<char>,
    pub to_title: Seq<char>,
    pub to_path: Seq<char>,
}

impl View for Link {
    type V = LinkV;

    open spec fn view(&self) -> LinkV {
        LinkV {
            from_title: self.from_title@,
            from_path: self.from_path@,
            to_title: self.to_title@,
            to_path: self.to_path@,
        }
    }
}

impl DeepView for Link {
    type V = LinkV;

    open spec fn deep_view(&self) -> LinkV {
        self.view()
    }
}

/// One document of the corpus.
#[derive(Debug, Clone, PartialEq)]
pub struct Page {
    pub title: String,
    pub timestamp: String,
    pub url_path: String,
    pub filename: String,
    pub description: String,
    pub todo: Vec<String>,
    pub tags: Vec<String>,
    pub content: String,
    pub backlinks: Vec<Link>,
    pub author: String,
    pub redirect: Option<String>,
    pub published: bool,
    pub show_related: bool,
}

pub ghost struct PageV {
    pub title: Seq<char>,
    pub timestamp: Seq<char>,
    pub url_path: Seq<char>,
    pub filename: Seq<char>,
    pub description: Seq<char>,
    pub todo: Seq<Seq<char>>,
    pub tags: Seq<Seq<char>>,
    pub content: Seq<char>,
    pub backlinks: Seq<LinkV>,
    pub author: Seq<char>,
    pub redirect: Option<Seq<char>>,
    pub published: bool,
    pub show_related: bool,
}

impl View for Page {
    type V = PageV;

    open spec fn view(&self) -> PageV {
        PageV {
            title: self.title@,
            timestamp: self.timestamp@,
            url_path: self.url_path@,
            filename: self.filename@,
            description: self.description@,
            todo: self.todo.deep_view(),
            tags: self.tags.deep_view(),
            content: self.content@,
            backlinks: self.backlinks.deep_view(),
            author: self.author@,
            redirect: match self.redirect {
                Option::Some(ref s) => Option::Some(s@),
                Option::None => Option::None,
            },
            published: self.published,
            show_related: self.show_related,
        }
    }
}

impl DeepView for Page {
    type V = PageV;

    open spec fn deep_view(&self) -> PageV {
        self.view()
    }
}

/// The view of a fresh, empty page: everything blank, unpublished, related
/// entries shown.
pub open spec fn empty_page() -> PageV {
    PageV {
        title: Seq::empty(),
        timestamp: Seq::empty(),
        url_path: Seq::empty(),
        filename: Seq::empty(),
        description: Seq::empty(),
        todo: Seq::empty(),
        tags: Seq::empty(),
        content: Seq::empty(),
        backlinks: Seq::empty(),
        author: Seq::empty(),
        redirect: Option::None,
        published: false,
        show_related: true,
    }
}

impl Page {
    /// A fresh page with every field empty, unpublished, `show_related` on.
    pub fn new() -> (p: Page)
        ensures
            p@ == empty_page(),
    {
        let p = Page {
            title: String::new(),
            timestamp: String::new(),
            description: String::new(),
            url_path: String::new(),
            filename: String::new(),
            content: String::new(),
            todo: Vec::new(),
            tags: Vec::new(),
            backlinks: Vec::new(),
            published: false,
            redirect: None,
            show_related: true,
            author: String::new(),
        };
        proof {
            assert(p.todo.deep_view() =~~= Seq::<Seq<char>>::empty());
            assert(p.tags.deep_view() =~~= Seq::<Seq<char>>::empty());
            assert(p.backlinks.deep_view() =~~= Seq::<LinkV>::empty());
            assert(p@ =~~= empty_page());
        }
        p
    }
}

/// Copies a vector of strings, view for view.
pub fn dup_strings(v: &Vec<String>) -> (r: Vec<String>)
    ensures
        r.deep_view() == v.deep_view(),
{
    let mut r: Vec<String> = Vec::new();
    let mut i: usize = 0;
    while i < v.len()
        invariant
            i <= v@.len(),
            r.deep_view() =~~= v.deep_view().take(i as int),
        decreases v@.len() - i,
    {
        let ghost prev = r.deep_view();
        r.push(v[i].clone());
        proof {
            assert(r.deep_view() =~~= prev.push(v@[i as int]@));
            assert(r.deep_view() =~~= v.deep_view().take(i + 1));
        }
        i += 1;
    }
    proof {
        assert(v.deep_view().take(v@.len() as int) =~~= v.deep_view());
    }
    r
}

impl Link {
    /// A fresh link with the same fields.
    pub fn duplicate(&self) -> (r: Link)
        ensures
            r@ == self@,
    {
        Link {
            from_title: self.from_title.clone(),
            from_path: self.from_path.clone(),
            to_title: self.to_title.clone(),
            to_path: self.to_path.clone(),
        }
    }
}

/// Copies a vector of links, view for view.
pub fn dup_links(v: &Vec<Link>) -> (r: Vec<Link>)
    ensures
        r.deep_view() == v.deep_view(),
{
    let mut r: Vec<Link> = Vec::new();
    let mut i: usize = 0;
    while i < v.len()
        invariant
            i <= v@.len(),
            r.deep_view() =~~= v.deep_view().take(i as int),
        decreases v@.len() - i,
    {
        let ghost prev = r.deep_view();
        let copy = v[i].duplicate();
        r.push(copy);
        proof {
            assert(r.deep_view() =~~= prev.push(v@[i as int]@));
            assert(r.deep_view() =~~= v.deep_view().take(i + 1));
        }
        i += 1;
    }
    proof {
        assert(v.deep_view().take(v@.len() as int) =~~= v.deep_view());
    }
    r
}

impl Page {
    /// A fresh page with the same fields.
    pub fn duplicate(&self) -> (r: Page)
        ensures
            r@ == self@,
    {
        let r = Page {
            title: self.title.clone(),
            timestamp: self.timestamp.clone(),
            url_path: self.url_path.clone(),
            filename: self.filename.clone(),
            description: self.description.clone(),
            todo: dup_strings(&self.todo),
            tags: dup_strings(&self.tags),
            content: self.content.clone(),
            backlinks: dup_links(&self.backlinks),
            author: self.author.clone(),
            redirect: match &self.redirect {
                Some(s) => Some(s.clone()),
                None => None,
            },
            published: self.published,
            show_related: self.show_related,
        };
        proof {
            assert(r@ =~~= self@);
        }
        r
    }
}

impl Default for Page {
    fn default() -> (p: Self)
        ensures
            p@ == empty_page(),
    {
        Self::new()
    }
}

/// A named contributor.
#[derive(Debug, Clone, PartialEq)]
pub struct Author {
    pub name: String,
    pub nickname: String,
    pub picture: String,
    pub text: String,
}

pub ghost struct AuthorV {
    pub name: Seq<char>,
    pub nickname: Seq<char>,
    pub picture: Seq<char>,
    pub text: Seq<char>,
}

impl View for Author {
    type V = AuthorV;

    open spec fn view(&self) -> AuthorV {
        AuthorV {
            name: self.name@,
            nickname: self.nickname@,
            picture: self.picture@,
            text: self.text@,
        }
    }
}

impl DeepView for Author {
    type V = AuthorV;

    open spec fn deep_view(&self) -> AuthorV {
        self.view()
    }
}

/// One navigation entry of the site chrome.
#[derive(Debug, Clone, PartialEq)]
pub struct ConfigNavbarLink {
    pub path: String,
    pub title: String,
}

/// Navigation entries at the two ends of the navigation bar.
#[derive(Debug, Clone, PartialEq)]
pub struct ConfigNavbar {
    pub start: Vec<ConfigNavbarLink>,
    pub end: Vec<ConfigNavbarLink>,
}

/// The sender of the notification digest.
#[derive(Debug, Clone, PartialEq)]
pub struct ConfigFrom {
    pub name: String,
    pub email: String,
}

/// Title and description of the archive page.
#[derive(Debug, Clone, PartialEq)]
pub struct ConfigArchive {
    pub title: String,
    pub description: String,
}

/// Title and description of the tag index.
#[derive(Debug, Clone, PartialEq)]
pub struct ConfigTag {
    pub description: String,
    pub title: String,
}

/// The per-corpus configuration, validated once at load time.
#[derive(Debug, Clone, PartialEq)]
pub struct Config {
    pub url: String,
    pub repo: String,
    pub branch: String,
    pub link_to_source: bool,
    pub tags: ConfigTag,
    pub archive: ConfigArchive,
    pub from: Option<ConfigFrom>,
    pub authors: Vec<Author>,
    pub footer: String,
    pub site_name: String,
    pub author_name: String,
    pub navbar: ConfigNavbar,
    pub google_analytics: String,
    pub show_related: bool,
    pub related_pages_title: String,
}

/// Why a build fails.  Every fatal condition of the pipeline is one of
/// these; the loop that drives the build is the only place that may stop
/// the process on one.
#[derive(Debug, Clone, PartialEq)]
pub enum BuildError {
    /// A referenced file does not exist.
    NotFound { path: String },
    /// Front matter or configuration failed strict schema validation.
    MetadataParseError { path: String, detail: String },
    /// The document has no title after parsing.
    MissingTitle { path: String },
    /// The timestamp does not match `YYYY-MM-DDTHH:MM:SS`.
    InvalidTimestamp { path: String, timestamp: String, detail: String },
    /// A tag is the empty string.
    EmptyTag { path: String },
    /// Two documents share a timestamp.
    DuplicateTimestamp { timestamp: String },
    /// Two authors share a nickname.
    DuplicateNickname { nickname: String },
    /// A document references a nickname that the configuration lacks.
    UnknownAuthor { nickname: String, filename: String },
    /// A recognized macro has an unresolvable target.
    MacroError { detail: String },
    /// A referenced image has no extension the copier knows.
    UnsupportedImage { path: String },
    /// Macro-like text stands outside any macro and outside fenced code.
    InvalidCurly { row: String, filename: String },
}

/// The human-readable message of an error, as the build prints it.
pub open spec fn message_of(e: BuildError) -> Seq<char> {
    match e {
        BuildError::NotFound { path } => "File '"@ + path@ + "' not found"@,
        BuildError::MetadataParseError { path, detail } => "YAML parsing error in '"@ + path@
            + "' "@ + detail@,
        BuildError::MissingTitle { path } => "Missing title in '"@ + path@ + "'"@,
        BuildError::InvalidTimestamp { path, timestamp, detail } => "Invalid date '"@ + timestamp@
            + "' in "@ + path@ + ": "@ + detail@,
        BuildError::EmptyTag { path } => "There is an empty tag in "@ + path@,
        BuildError::DuplicateTimestamp { timestamp } => "duplicate timestamp '"@ + timestamp@
            + "'"@,
        BuildError::DuplicateNickname { nickname } => "nickname '"@ + nickname@
            + "' appears twice in config.yaml"@,
        BuildError::UnknownAuthor { nickname, filename } => "The nickname '"@ + nickname@
            + "' used in the file '"@ + filename@ + "' is not in the config.yaml file."@,
        BuildError::MacroError { detail } => detail@,
        BuildError::UnsupportedImage { path } => "Unhandled extension for file to be copied '"@
            + path@ + "'"@,
        BuildError::InvalidCurly { row, filename } => "Invalid curly code '"@ + row@ + "' in '"@
            + filename@ + "'"@,
    }
}

impl BuildError {
    /// Renders the error as the message the build prints.
    pub fn message(&self) -> (r: String)
        ensures
            r@ == message_of(*self),
    {
        let mut r = String::new();
        match self {
            BuildError::NotFound { path } => {
                r.append("File '");
                r.append(path.as_str());
                r.append("' not found");
            },
            BuildError::MetadataParseError { path, detail } => {
                r.append("YAML parsing error in '");
                r.append(path.as_str());
                r.append("' ");
                r.append(detail.as_str());
            },
            BuildError::MissingTitle { path } => {
                r.append("Missing title in '");
                r.append(path.as_str());
                r.append("'");
            },
            BuildError::InvalidTimestamp { path, timestamp, detail } => {
                r.append("Invalid date '");
                r.append(timestamp.as_str());
                r.append("' in ");
                r.append(path.as_str());
                r.append(": ");
                r.append(detail.as_str());
            },
            BuildError::EmptyTag { path } => {
                r.append("There is an empty tag in ");
                r.append(path.as_str());
            },
            BuildError::DuplicateTimestamp { timestamp } => {
                r.append("duplicate timestamp '");
                r.append(timestamp.as_str());
                r.append("'");
            },
            BuildError::DuplicateNickname { nickname } => {
                r.append("nickname '");
                r.append(nickname.as_str());
                r.append("' appears twice in config.yaml");
            },
            BuildError::UnknownAuthor { nickname, filename } => {
                r.append("The nickname '");
                r.append(nickname.as_str());
                r.append("' used in the file '");
                r.append(filename.as_str());
                r.append("' is not in the config.yaml file.");
            },
            BuildError::MacroError { detail } => {
                r.append(detail.as_str());
            },
            BuildError::UnsupportedImage { path } => {
                r.append("Unhandled extension for file to be copied '");
                r.append(path.as_str());
                r.append("'");
            },
            BuildError::InvalidCurly { row, filename } => {
                r.append("Invalid curly code '");
                r.append(row.as_str());
                r.append("' in '");
                r.append(filename.as_str());
                r.append("'");
            },
        }
        proof {
            assert(r@ =~= message_of(*self));
        }
        r
    }
}

} // verus!
