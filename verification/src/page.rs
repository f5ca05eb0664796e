//! Acquiring a title and a page. The requests themselves are made by the
//! caller; this module says what to ask for and what to make of the answer.

use vstd::prelude::*;
use crate::error::{SourceError, SourceErrorView};
use crate::escape::{escape, escaped};
use crate::redact::{redact, redacted};

verus! {

/// The address that asks for the extract of the page titled `title`. The
/// title stands behind the query in escaped form, so that no character of it
/// can change the query.
pub open spec fn page_query(title: Seq<char>) -> Seq<char> {
    "https://en.wikipedia.org/w/api.php?prop=extracts&redirects&format=json&action=query&titles="@
        + escaped(title)
}

/// The address that asks for the title of one random page of the main
/// namespace.
pub open spec fn random_title_query() -> Seq<char> {
    "https://en.wikipedia.org/w/api.php?list=random&rnnamespace=0&rnlimit=1&format=json&action=query"@
}

/// What is said when the answer holds no page.
pub open spec fn page_missing() -> Seq<char> {
    "Something went wrong when fetching the wikipedia page."@
}

/// What is said when the answer holds no random title.
pub open spec fn title_missing() -> Seq<char> {
    "Something went wrong when fetching a random wikipedia page title."@
}

/// The address that asks for the extract of the page titled `title`.
pub fn page_query_url(title: &str) -> (url: String)
    ensures
        url@ == page_query(title@),
{
    let mut url =
        "https://en.wikipedia.org/w/api.php?prop=extracts&redirects&format=json&action=query&titles=".to_owned();
    let safe = escape(title);
    url.append(safe.as_str());
    url
}

/// The address that asks for the title of one random page.
pub fn random_title_url() -> (url: String)
    ensures
        url@ == random_title_query(),
{
    "https://en.wikipedia.org/w/api.php?list=random&rnnamespace=0&rnlimit=1&format=json&action=query".to_owned()
}

/// Where a random title is to come from.
pub enum TitleRequestView {
    /// From the list of this name.
    FromList { name: Seq<char> },
    /// From the content service, at this address.
    FromService { url: Seq<char> },
}

/// Where a random title is to come from.
#[derive(Debug, Clone, PartialEq, Eq)]
pub enum TitleRequest {
    /// From the list of this name.
    FromList { name: String },
    /// From the content service, at this address.
    FromService { url: String },
}

impl View for TitleRequest {
    type V = TitleRequestView;

    open spec fn view(&self) -> TitleRequestView {
        match self {
            TitleRequest::FromList { name } => TitleRequestView::FromList { name: name@ },
            TitleRequest::FromService { url } => TitleRequestView::FromService { url: url@ },
        }
    }
}

/// Where a random title is to come from: from the list that is named, or,
/// where none is named, from the content service.
pub fn title_request(list: Option<String>) -> (request: TitleRequest)
    ensures
        list matches Some(name) ==> request@ == (TitleRequestView::FromList { name: name@ }),
        list is None ==> request@ == (TitleRequestView::FromService { url: random_title_query() }),
{
    match list {
        Some(name) => TitleRequest::FromList { name },
        None => TitleRequest::FromService { url: random_title_url() },
    }
}

/// The title that the content service drew: the first of those it sent. It
/// fails, as not found, exactly if the service sent none.
pub fn drawn_title(titles: &Vec<String>) -> (outcome: Result<String, SourceError>)
    ensures
        titles@.len() == 0 <==> outcome is Err,
        outcome matches Ok(title) ==> title@ == titles@[0]@,
        outcome matches Err(e) ==> e@ == (SourceErrorView::NotFound { message: title_missing() }),
{
    if titles.len() > 0 {
        Ok(titles[0].clone())
    } else {
        Err(
            SourceError::NotFound {
                message: "Something went wrong when fetching a random wikipedia page title.".to_owned(),
            },
        )
    }
}

/// A page as the contracts see it.
pub struct PageView {
    pub id: int,
    pub title: Seq<char>,
    pub extract: Seq<char>,
}

/// A page of the content service: its number, its title and its extract.
#[derive(Debug, Clone, PartialEq, Eq)]
pub struct Page {
    pub id: i32,
    pub title: String,
    pub extract: String,
}

impl View for Page {
    type V = PageView;

    open spec fn view(&self) -> PageView {
        PageView { id: self.id as int, title: self.title@, extract: self.extract@ }
    }
}

/// `pages[at]` is the page that an answer stands for: the one with the
/// lowest number, and among equals the first.
pub open spec fn is_first_page(pages: Seq<Page>, at: int) -> bool {
    &&& 0 <= at < pages.len()
    &&& forall|k: int| 0 <= k < pages.len() ==> pages[at].id <= (#[trigger] pages[k]).id
    &&& forall|k: int| 0 <= k < at ==> pages[at].id < (#[trigger] pages[k]).id
}

/// The position of the page that the answer stands for. It fails, as not
/// found, exactly if the answer holds no page.
pub fn first_page(pages: &Vec<Page>) -> (outcome: Result<usize, SourceError>)
    ensures
        pages@.len() == 0 <==> outcome is Err,
        outcome matches Ok(at) ==> is_first_page(pages@, at as int),
        outcome matches Err(e) ==> e@ == (SourceErrorView::NotFound { message: page_missing() }),
{
    if pages.len() == 0 {
        return Err(
            SourceError::NotFound {
                message: "Something went wrong when fetching the wikipedia page.".to_owned(),
            },
        );
    }
    let mut best: usize = 0;
    let mut i: usize = 1;
    while i < pages.len()
        invariant
            0 <= best < i <= pages.len(),
            forall|k: int| 0 <= k < i ==> pages@[best as int].id <= (#[trigger] pages@[k]).id,
            forall|k: int| 0 <= k < best ==> pages@[best as int].id < (#[trigger] pages@[k]).id,
        decreases pages.len() - i,
    {
        if pages[i].id < pages[best].id {
            best = i;
        }
        i = i + 1;
    }
    Ok(best)
}

/// The markup that shows `page`: its redacted title as a heading, then its
/// redacted extract.
pub open spec fn page_markup(page: PageView) -> Seq<char> {
    "<h1 id=\"the-title\">"@ + redacted(page.title) + "</h1>"@ + redacted(page.extract)
}

/// The markup that shows `page`.
pub fn render_page(page: &Page) -> (markup: String)
    ensures
        markup@ == page_markup(page@),
{
    let mut markup = "<h1 id=\"the-title\">".to_owned();
    let title = redact(page.title.as_str());
    markup.append(title.as_str());
    markup.append("</h1>");
    let extract = redact(page.extract.as_str());
    markup.append(extract.as_str());
    markup
}

/// The markup that shows the page which the answer stands for. It fails, as
/// not found, exactly if the answer holds no page.
pub fn render_answer(pages: &Vec<Page>) -> (outcome: Result<String, SourceError>)
    ensures
        pages@.len() == 0 <==> outcome is Err,
        outcome matches Ok(markup) ==> exists|at: int|
            is_first_page(pages@, at) && markup@ == page_markup(pages@[at]@),
        outcome matches Err(e) ==> e@ == (SourceErrorView::NotFound { message: page_missing() }),
{
    match first_page(pages) {
        Ok(at) => Ok(render_page(&pages[at])),
        Err(e) => Err(e),
    }
}

} // verus!
