//! What the pages' forms and links send, field by field.

use vstd::prelude::*;

use crate::publication_post::{contributors, trimmed_pairs};
use crate::raw_input::{WorkRawInput, texts, work_input_view};
use crate::text::{trim, trim_seq};

verus! {

/// The import entry page's link: whether to open it with the "Import more" box checked.
pub struct EntryQuery {
    pub more: Option<String>,
}

/// Everything the import entry page posts under a fixed key.
pub struct StartForm {
    pub query: String,
    /// Present when the "Import more" box is checked; browsers send "on".
    pub more: Option<String>,
}

/// A login or first-password submission.
pub struct LoginForm {
    pub password: String,
    /// Present only on submissions of the claim form.
    pub confirm: Option<String>,
    /// Where to go once logged in
    pub back: Option<String>,
}

/// A change-password submission.
pub struct PasswordForm {
    pub current: String,
    pub new: String,
    pub confirm: String,
}

/// A search, optionally within one library.
pub struct SearchQuery {
    pub q: String,
    pub library: Option<i64>,
}

/// A page of the audit log.
pub struct AuditQuery {
    /// The cursor the previous page handed back; absent on the first page
    pub before: Option<i64>,
}

/// Which page opened the work edit page, so Save and Cancel can return to it.
pub struct BackQuery {
    pub back: Option<String>,
}

/// What a title search has typed so far.
pub struct TitleQuery {
    pub q: String,
}

/// A submitted person form.
pub struct PersonPost {
    pub name: String,
    pub link: Vec<String>,
}

/// A person's fields as typed.
#[derive(Debug, PartialEq, Eq)]
pub struct PersonRawInput {
    pub name: String,
    /// Pages about the person elsewhere
    pub links: Vec<String>,
}

impl PersonRawInput {
    /// The input a person form posts: every value trimmed.
    pub fn from_post(post: PersonPost) -> (r: Self)
        ensures
            r.name@ == trim_seq(post.name@),
            texts(r.links@) == post.link@.map_values(|l: String| trim_seq(l@)),
    {
        let mut links: Vec<String> = Vec::new();
        let mut i: usize = 0;
        while i < post.link.len()
            invariant
                i <= post.link.len(),
                links@.len() == i,
                forall|j: int| 0 <= j < i ==> (#[trigger] links@[j])@ == trim_seq(post.link@[j]@),
            decreases post.link.len() - i,
        {
            links.push(trim(post.link[i].as_str()));
            i = i + 1;
        }
        assert(texts(links@) =~= post.link@.map_values(|l: String| trim_seq(l@)));
        PersonRawInput { name: trim(post.name.as_str()), links }
    }
}

/// A submitted work form. The stored work edit page and the draft work page post the same shape.
pub struct WorkPost {
    pub title: String,
    pub key: String,
    pub time_signature: String,
    pub instrumentation: String,
    pub contributor_name: Vec<String>,
    pub contributor_role: Vec<String>,
    pub catalog_number: Vec<String>,
}

impl WorkRawInput {
    /// The input a work form posts: every value trimmed, and no id, since the page that submitted
    /// it names the work it belongs to.
    pub fn from_post(post: WorkPost) -> (r: Self)
        ensures
            work_input_view(r) == (
                None::<i64>,
                trim_seq(post.title@),
                trim_seq(post.key@),
                trim_seq(post.time_signature@),
                trim_seq(post.instrumentation@),
                trimmed_pairs(post.contributor_name@, post.contributor_role@),
                post.catalog_number@.map_values(|n: String| trim_seq(n@)),
            ),
    {
        let mut numbers: Vec<String> = Vec::new();
        let mut i: usize = 0;
        while i < post.catalog_number.len()
            invariant
                i <= post.catalog_number.len(),
                numbers@.len() == i,
                forall|j: int|
                    0 <= j < i ==> (#[trigger] numbers@[j])@ == trim_seq(post.catalog_number@[j]@),
            decreases post.catalog_number.len() - i,
        {
            numbers.push(trim(post.catalog_number[i].as_str()));
            i = i + 1;
        }
        assert(texts(numbers@) =~= post.catalog_number@.map_values(|n: String| trim_seq(n@)));
        let ghost names = post.contributor_name@;
        let ghost roles = post.contributor_role@;
        let credits = contributors(post.contributor_name, post.contributor_role);
        WorkRawInput {
            id: None,
            title: trim(post.title.as_str()),
            key: trim(post.key.as_str()),
            time_signature: trim(post.time_signature.as_str()),
            instrumentation: trim(post.instrumentation.as_str()),
            contributors: credits,
            catalog_numbers: numbers,
        }
    }
}

} // verus!
