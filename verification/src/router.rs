//! What the pages decide and show, apart from rendering and the requests themselves.

pub mod audit;
pub mod publication;
pub mod requests;
pub mod search;
pub mod suggest;
pub mod tag;

use vstd::prelude::*;

use crate::auth::PasswordCheck;
use crate::db::pending_import::PendingImport;
use crate::db::publication::Publication;
use crate::db::work::Work;
use crate::publication_form::{id_text, opt_view};
use crate::db::work::lead_of;
use crate::import::{role_views, row_view, row_views};
use crate::publication_post::lead_contributor;
use crate::raw_input::{HoldingRawInput, PublicationRawInput, WorkRawInput};
use crate::session::{hex, hex_string};
use crate::text::{decimal, decimal_i64, decimal_usize, owned, push_str, str_eq};

verus! {

/// A library, as the pages name and link it.
#[derive(Debug, PartialEq, Eq)]
pub struct Library {
    pub id: i64,
    pub name: String,
    /// Hidden from visitors who are not logged in
    pub private: bool,
}

/// One step of the trail of links at the top of a page.
#[derive(Debug, PartialEq, Eq)]
pub struct Crumb {
    pub label: String,
    pub href: String,
}

pub open spec fn library_href(library_id: i64) -> Seq<char> {
    "/library/"@ + decimal(library_id as int)
}

/// The path of something a library holds, such as "/library/3/work/7".
pub open spec fn item_href(library_id: i64, what: Seq<char>, id: i64) -> Seq<char> {
    library_href(library_id) + "/"@ + what + "/"@ + decimal(id as int)
}

/// `prefix` followed by the decimal digits of `id`.
fn with_id(prefix: &str, id: i64) -> (r: String)
    ensures
        r@ == prefix@ + decimal(id as int),
{
    let mut r = owned(prefix);
    let digits = decimal_i64(id);
    push_str(&mut r, digits.as_str());
    r
}

fn library_path(library_id: i64) -> (r: String)
    ensures
        r@ == library_href(library_id),
{
    with_id("/library/", library_id)
}

pub(crate) fn item_path(library_id: i64, what: &str, id: i64) -> (r: String)
    ensures
        r@ == item_href(library_id, what@, id),
{
    let mut r = library_path(library_id);
    push_str(&mut r, "/");
    push_str(&mut r, what);
    push_str(&mut r, "/");
    let digits = decimal_i64(id);
    push_str(&mut r, digits.as_str());
    assert(r@ =~= item_href(library_id, what@, id));
    r
}

impl Crumb {
    pub fn home() -> (r: Self)
        ensures
            r.label@ == "Home"@,
            r.href@ == "/"@,
    {
        Crumb { label: owned("Home"), href: owned("/") }
    }

    pub fn library(library: &Library) -> (r: Self)
        ensures
            r.label@ == library.name@,
            r.href@ == library_href(library.id),
    {
        Crumb { label: library.name.clone(), href: library_path(library.id) }
    }

    pub fn import(library: &Library) -> (r: Self)
        ensures
            r.label@ == "Import"@,
            r.href@ == library_href(library.id) + "/import"@,
    {
        let mut href = library_path(library.id);
        push_str(&mut href, "/import");
        Crumb { label: owned("Import"), href }
    }

    pub fn publication(publication: &Publication) -> (r: Self)
        ensures
            r.label@ == publication.title@,
            r.href@ == item_href(publication.library_id, "publication"@, publication.id),
    {
        Crumb {
            label: publication.title.clone(),
            href: item_path(publication.library_id, "publication", publication.id),
        }
    }

    /// The import under review, by the label its page shows.
    pub fn import_review(import: &PendingImport, label: &str) -> (r: Self)
        ensures
            r.label@ == label@,
            r.href@ == item_href(import.library_id, "import"@, import.id),
    {
        Crumb { label: owned(label), href: item_path(import.library_id, "import", import.id) }
    }

    pub fn settings() -> (r: Self)
        ensures
            r.label@ == "Settings"@,
            r.href@ == "/settings"@,
    {
        Crumb { label: owned("Settings"), href: owned("/settings") }
    }

    pub fn work(work: &Work) -> (r: Self)
        ensures
            r.label@ == work.title@,
            r.href@ == item_href(work.library_id, "work"@, work.id),
    {
        Crumb { label: work.title.clone(), href: item_path(work.library_id, "work", work.id) }
    }
}

/// What every page's header needs.
pub struct BaseContext {
    pub title: String,
    /// The request path, so header links to the current page can be hidden.
    pub path: String,
    pub logged_in: bool,
    pub demo: bool,
    /// Imports awaiting review, for the header badge. Zero when logged out.
    pub pending_import_count: i64,
    pub breadcrumbs: Vec<Crumb>,
    pub bootstrap_css: String,
    pub bootstrap_icons_css: String,
    pub bootstrap_js: String,
}

impl BaseContext {
    /// Finish the context with what only the handler knows.
    pub fn page(self, title: String, breadcrumbs: Vec<Crumb>) -> (r: Self)
        ensures
            r.title == title,
            r.breadcrumbs == breadcrumbs,
            r.path == self.path,
            r.logged_in == self.logged_in,
            r.demo == self.demo,
            r.pending_import_count == self.pending_import_count,
            r.bootstrap_css == self.bootstrap_css,
            r.bootstrap_icons_css == self.bootstrap_icons_css,
            r.bootstrap_js == self.bootstrap_js,
    {
        BaseContext { title, breadcrumbs, ..self }
    }
}

/// What a work's edit control does, which is a property of the page rather than the work.
pub enum WorkEdit {
    /// Link to the stored work's edit page, which returns to `back` when it is done
    Stored { back: String },
    /// Save the draft and open the draft work, since a draft work has no stable link of its own
    Draft,
}

impl Default for WorkEdit {
    fn default() -> (r: Self)
        ensures
            r is Draft,
    {
        WorkEdit::Draft
    }
}

impl WorkEdit {
    pub fn is_draft(&self) -> (r: bool)
        ensures
            r == (*self is Draft),
    {
        matches!(self, WorkEdit::Draft)
    }

    /// Where a stored work's edit link returns to. Empty for a draft work, which has no link.
    pub fn back(&self) -> (r: &str)
        ensures
            r@ == (match *self {
                WorkEdit::Stored { back } => back@,
                WorkEdit::Draft => seq![],
            }),
    {
        match self {
            WorkEdit::Stored { back } => back.as_str(),
            WorkEdit::Draft => {
                proof {
                    reveal_strlit("");
                }
                ""
            },
        }
    }
}

/// One copy as the form shows it. The form takes plain strings, so that a filled copy and the
/// blank template copy render through the same code.
pub struct ShownHolding {
    /// The hidden field's value: the stored copy's id, empty for one being added
    pub id: String,
    pub kind: &'static str,
    pub location: String,
    pub message: String,
}

/// One work as the publication form shows it: its title, and the one catalog number and the one
/// contributor the page picks.
pub struct ShownWork {
    /// The hidden field's value: the work's id, empty for one being added
    pub id: String,
    pub title: String,
    pub catalog_number: String,
    pub recognized: bool,
    /// How many catalog numbers the form does not show, empty when it shows them all
    pub more_numbers: String,
    pub name: String,
    pub role: String,
    /// How many contributors the form does not show, empty when it shows them all
    pub more: String,
    pub message: String,
}

/// One catalog number as the work form shows it, with what the parser made of it
pub struct ShownCatalogNumber {
    pub value: String,
    pub recognized: bool,
    pub message: String,
}

/// The problems with a work's fields, each as the message the page shows.
pub struct WorkErrors {
    pub title: Option<String>,
    /// One slot per credit
    pub contributors: Vec<Option<String>>,
    /// One slot per catalog number
    pub catalog_numbers: Vec<Option<String>>,
}

/// The message at slot `i`, if there is such a slot and it holds one.
pub open spec fn slot_message(slots: Seq<Option<String>>, i: int) -> Option<Seq<char>> {
    if 0 <= i < slots.len() {
        opt_view(slots[i])
    } else {
        None
    }
}

/// Some slot holds a message.
pub open spec fn any_message(slots: Seq<Option<String>>) -> bool {
    exists|i: int| 0 <= i < slots.len() && (#[trigger] slots[i]) is Some
}

/// What a work says on the publication form: the problem with a field it shows, else a note that
/// the problem is one the form cannot reach, so a refused submit is always explainable.
pub open spec fn work_message_of(errors: WorkErrors, lead: Option<int>, lead_number: Option<int>) -> Seq<
    char,
> {
    let number_message = match lead_number {
        Some(i) => slot_message(errors.catalog_numbers@, i),
        None => None,
    };
    let lead_message = match lead {
        Some(i) => slot_message(errors.contributors@, i),
        None => None,
    };
    match errors.title {
        Some(t) => t@,
        None => match number_message {
            Some(m) => m,
            None => match lead_message {
                Some(m) => m,
                None => if any_message(errors.contributors@) || any_message(
                    errors.catalog_numbers@,
                ) {
                    hidden_work_problem()
                } else {
                    seq![]
                },
            },
        },
    }
}

pub open spec fn hidden_work_problem() -> Seq<char> {
    "A hidden field is incomplete. Open the work to fix it."@
}

const HIDDEN_WORK_PROBLEM: &'static str = "A hidden field is incomplete. Open the work to fix it.";

fn slot(slots: &Vec<Option<String>>, i: usize) -> (r: Option<&String>)
    ensures
        match r {
            Some(m) => slot_message(slots@, i as int) == Some(m@),
            None => slot_message(slots@, i as int) is None,
        },
{
    if i < slots.len() {
        match &slots[i] {
            Some(m) => Some(m),
            None => None,
        }
    } else {
        None
    }
}

fn has_message(slots: &Vec<Option<String>>) -> (r: bool)
    ensures
        r == any_message(slots@),
{
    let mut i: usize = 0;
    while i < slots.len()
        invariant
            i <= slots.len(),
            forall|j: int| 0 <= j < i ==> (#[trigger] slots@[j]) is None,
        decreases slots.len() - i,
    {
        if slots[i].is_some() {
            return true;
        }
        i = i + 1;
    }
    false
}

/// What a work says on the publication form: the problem with a field it shows, else a note that
/// the problem is one the form cannot reach, so a refused submit is always explainable.
pub fn work_message(errors: &WorkErrors, lead: Option<usize>, lead_number: Option<usize>) -> (r:
    String)
    ensures
        r@ == work_message_of(
            *errors,
            match lead {
                Some(i) => Some(i as int),
                None => None,
            },
            match lead_number {
                Some(i) => Some(i as int),
                None => None,
            },
        ),
{
    if let Some(error) = &errors.title {
        return error.clone();
    }
    if let Some(i) = lead_number {
        if let Some(error) = slot(&errors.catalog_numbers, i) {
            return error.clone();
        }
    }
    if let Some(i) = lead {
        if let Some(error) = slot(&errors.contributors, i) {
            return error.clone();
        }
    }
    if has_message(&errors.contributors) || has_message(&errors.catalog_numbers) {
        return owned(HIDDEN_WORK_PROBLEM);
    }
    String::new()
}

/// How many of a work's values the form does not show, when it shows one: nothing when it shows
/// them all.
pub open spec fn more_count(n: int) -> Seq<char> {
    if n <= 1 {
        seq![]
    } else {
        decimal(n - 1)
    }
}

fn more_of(n: usize) -> (r: String)
    ensures
        r@ == more_count(n as int),
{
    if n <= 1 {
        String::new()
    } else {
        decimal_usize(n - 1)
    }
}

/// The message a work's row shows, from the work's slot of the errors, if it has one.
pub open spec fn row_message(
    errors: Seq<WorkErrors>,
    i: int,
    lead: Option<int>,
    lead_number: Option<int>,
) -> Seq<char> {
    if 0 <= i < errors.len() {
        work_message_of(errors[i], lead, lead_number)
    } else {
        seq![]
    }
}

/// Each work as the publication form shows it: its title, the lead contributor, the catalog
/// number the page leads with, how many of each it does not show, and its message.
/// `lead_numbers` says which catalog number each work leads with and `recognized` whether that
/// number uses a known scheme; the catalog number rules decide both.
pub fn shown_works(
    contents: &[WorkRawInput],
    errors: &Vec<WorkErrors>,
    lead_numbers: &Vec<Option<usize>>,
    recognized: &Vec<bool>,
) -> (r: Vec<ShownWork>)
    requires
        lead_numbers@.len() == contents@.len(),
        recognized@.len() == contents@.len(),
        forall|i: int|
            0 <= i < contents@.len() ==> (#[trigger] lead_numbers@[i] matches Some(k) ==> k
                < contents@[i].catalog_numbers@.len()),
    ensures
        r@.len() == contents@.len(),
        forall|i: int|
            0 <= i < r@.len() ==> {
                let w = #[trigger] contents@[i];
                let lead = lead_of(role_views(row_views(w.contributors@)));
                let ln = match lead_numbers@[i] {
                    Some(k) => Some(k as int),
                    None => None,
                };
                &&& r@[i].id@ == id_text(w.id)
                &&& r@[i].title@ == w.title@
                &&& r@[i].catalog_number@ == (match ln {
                    Some(k) => w.catalog_numbers@[k]@,
                    None => seq![],
                })
                &&& r@[i].recognized == recognized@[i]
                &&& r@[i].more_numbers@ == more_count(w.catalog_numbers@.len() as int)
                &&& (r@[i].name@, r@[i].role@) == (match lead {
                    Some(k) => row_view(w.contributors@[k]),
                    None => (seq![], seq![]),
                })
                &&& r@[i].more@ == more_count(w.contributors@.len() as int)
                &&& r@[i].message@ == row_message(errors@, i, lead, ln)
            },
{
    let mut r: Vec<ShownWork> = Vec::new();
    let mut i: usize = 0;
    while i < contents.len()
        invariant
            i <= contents@.len(),
            r@.len() == i,
            lead_numbers@.len() == contents@.len(),
            recognized@.len() == contents@.len(),
            forall|j: int|
                0 <= j < contents@.len() ==> (#[trigger] lead_numbers@[j] matches Some(k) ==> k
                    < contents@[j].catalog_numbers@.len()),
            forall|j: int|
                0 <= j < i ==> {
                    let w = #[trigger] contents@[j];
                    let lead = lead_of(role_views(row_views(w.contributors@)));
                    let ln = match lead_numbers@[j] {
                        Some(k) => Some(k as int),
                        None => None,
                    };
                    &&& r@[j].id@ == id_text(w.id)
                    &&& r@[j].title@ == w.title@
                    &&& r@[j].catalog_number@ == (match ln {
                        Some(k) => w.catalog_numbers@[k]@,
                        None => seq![],
                    })
                    &&& r@[j].recognized == recognized@[j]
                    &&& r@[j].more_numbers@ == more_count(w.catalog_numbers@.len() as int)
                    &&& (r@[j].name@, r@[j].role@) == (match lead {
                        Some(k) => row_view(w.contributors@[k]),
                        None => (seq![], seq![]),
                    })
                    &&& r@[j].more@ == more_count(w.contributors@.len() as int)
                    &&& r@[j].message@ == row_message(errors@, j, lead, ln)
                },
        decreases contents@.len() - i,
    {
        let work = &contents[i];
        let lead = lead_contributor(work.contributors.as_slice());
        proof {
            crate::db::work::lemma_lead_of(role_views(row_views(work.contributors@)));
        }
        let (name, role) = match lead {
            Some(k) => (work.contributors[k].name.clone(), work.contributors[k].role.clone()),
            None => (String::new(), String::new()),
        };
        let lead_number = lead_numbers[i];
        let number = match lead_number {
            Some(k) => work.catalog_numbers[k].clone(),
            None => String::new(),
        };
        let message = if i < errors.len() {
            work_message(&errors[i], lead, lead_number)
        } else {
            String::new()
        };
        r.push(
            ShownWork {
                id: crate::publication_form::id_value(work.id),
                title: work.title.clone(),
                catalog_number: number,
                recognized: recognized[i],
                more_numbers: more_of(work.catalog_numbers.len()),
                name,
                role,
                more: more_of(work.contributors.len()),
                message,
            },
        );
        i = i + 1;
    }
    r
}

/// A message for the page, empty when there is nothing wrong.
pub fn message(error: Option<&String>) -> (r: String)
    ensures
        r@ == (match error {
            Some(m) => m@,
            None => seq![],
        }),
{
    match error {
        Some(m) => m.clone(),
        None => String::new(),
    }
}

/// Each copy as the form shows it, with the message of its slot.
pub fn shown_holdings(holdings: &[HoldingRawInput], errors: &Vec<Option<String>>) -> (r: Vec<
    ShownHolding,
>)
    ensures
        r@.len() == holdings@.len(),
        forall|i: int|
            0 <= i < r@.len() ==> {
                &&& (#[trigger] r@[i]).id@ == id_text(holdings@[i].id)
                &&& r@[i].kind@ == holdings@[i].kind.name()
                &&& r@[i].location@ == holdings@[i].location@
                &&& r@[i].message@ == (match slot_message(errors@, i) {
                    Some(m) => m,
                    None => seq![],
                })
            },
{
    let mut r: Vec<ShownHolding> = Vec::new();
    let mut i: usize = 0;
    while i < holdings.len()
        invariant
            i <= holdings.len(),
            r@.len() == i,
            forall|j: int|
                0 <= j < i ==> {
                    &&& (#[trigger] r@[j]).id@ == id_text(holdings@[j].id)
                    &&& r@[j].kind@ == holdings@[j].kind.name()
                    &&& r@[j].location@ == holdings@[j].location@
                    &&& r@[j].message@ == (match slot_message(errors@, j) {
                        Some(m) => m,
                        None => seq![],
                    })
                },
        decreases holdings.len() - i,
    {
        let holding = &holdings[i];
        r.push(
            ShownHolding {
                id: holding.id_value(),
                kind: holding.kind.as_str(),
                location: holding.location.clone(),
                message: message(slot(errors, i)),
            },
        );
        i = i + 1;
    }
    r
}

/// Pair each value with its message. An input that parsed clean has no message slots at all, so
/// the values cannot simply be zipped with the errors.
pub fn pair_messages<T: Clone>(values: &[T], errors: &Vec<Option<String>>) -> (r: Vec<(T, String)>)
    ensures
        r@.len() == values@.len(),
        forall|i: int|
            0 <= i < r@.len() ==> cloned::<T>(values@[i], (#[trigger] r@[i]).0) && r@[i].1@ == (
            match slot_message(errors@, i) {
                Some(m) => m,
                None => seq![],
            }),
{
    let mut r: Vec<(T, String)> = Vec::new();
    let mut i: usize = 0;
    while i < values.len()
        invariant
            i <= values.len(),
            r@.len() == i,
            forall|j: int|
                0 <= j < i ==> cloned::<T>(values@[j], (#[trigger] r@[j]).0) && r@[j].1@ == (
                match slot_message(errors@, j) {
                    Some(m) => m,
                    None => seq![],
                }),
        decreases values.len() - i,
    {
        let value = values[i].clone();
        r.push((value, message(slot(errors, i))));
        i = i + 1;
    }
    r
}

/// A path on this site: it starts with one slash, not two, and not a slash and a backslash, which
/// browsers read as two slashes.
pub open spec fn local_path(back: Seq<char>) -> bool {
    &&& back.len() >= 1
    &&& back[0] == '/'
    &&& !(back.len() >= 2 && (back[1] == '/' || back[1] == '\\'))
}

/// Where Save and Cancel lead: the page that opened the edit page, else the work page.
pub open spec fn back_target(library_id: i64, id: i64, back: Option<Seq<char>>) -> Seq<char> {
    match back {
        Some(b) => if local_path(b) {
            b
        } else {
            item_href(library_id, "work"@, id)
        },
        None => item_href(library_id, "work"@, id),
    }
}

/// Where Save and Cancel lead: the page that opened this one, else the work page.
///
/// Only a path on this site is honored, so the parameter cannot send the user elsewhere. Browsers
/// read a backslash as a slash when parsing a URL, so "/\evil.example" is "//evil.example" to them
/// and is refused the same way.
pub fn back_to(library_id: i64, id: i64, back: Option<String>) -> (r: String)
    ensures
        r@ == back_target(
            library_id,
            id,
            match back {
                Some(b) => Some(b@),
                None => None,
            },
        ),
{
    if let Some(b) = back {
        let local = {
            let s = b.as_str();
            if s.is_empty() {
                false
            } else {
                let first = s.get_char(0);
                if first != '/' {
                    false
                } else if s.unicode_len() >= 2 {
                    let second = s.get_char(1);
                    second != '/' && second != '\\'
                } else {
                    true
                }
            }
        };
        if local {
            return b;
        }
    }
    item_path(library_id, "work", id)
}

/// What to call a pending import: its draft's title, else what was typed, else a placeholder.
pub open spec fn import_label(title: Seq<char>, query: Seq<char>) -> Seq<char> {
    if title.len() > 0 {
        title
    } else if query.len() > 0 {
        query
    } else {
        "Untitled import"@
    }
}

/// What to call a pending import: its draft's title, else what was typed, else a placeholder.
pub fn label(import: &PendingImport, draft: &PublicationRawInput) -> (r: String)
    ensures
        r@ == import_label(draft.title@, import.query@),
{
    if !draft.title.as_str().is_empty() {
        draft.title.clone()
    } else if !import.query.as_str().is_empty() {
        import.query.clone()
    } else {
        owned("Untitled import")
    }
}

/// Who may see a library.
#[derive(Debug, Clone, Copy, PartialEq, Eq, Structural)]
pub enum Visibility {
    Public,
    /// A radio group always posts a value, but if one is missing, the safe choice is to hide
    Private,
}

impl Default for Visibility {
    fn default() -> (r: Self)
        ensures
            r == Visibility::Private,
    {
        Visibility::Private
    }
}

impl Visibility {
    pub open spec fn name(self) -> Seq<char> {
        match self {
            Visibility::Public => "public"@,
            Visibility::Private => "private"@,
        }
    }

    pub fn as_str(self) -> (r: &'static str)
        ensures
            r@ == self.name(),
    {
        match self {
            Visibility::Public => "public",
            Visibility::Private => "private",
        }
    }

    pub fn is_private(self) -> (r: bool)
        ensures
            r == (self == Visibility::Private),
    {
        self == Visibility::Private
    }

    pub fn from_private(private: bool) -> (r: Self)
        ensures
            r == (if private {
                Visibility::Private
            } else {
                Visibility::Public
            }),
    {
        if private {
            Visibility::Private
        } else {
            Visibility::Public
        }
    }
}

/// A library's settings as the create and edit forms post them.
pub struct LibraryForm {
    pub name: String,
    pub visibility: Visibility,
}

/// How many sizes the tag cloud renders a tag in
pub const SIZES: i64 = 5;

/// The size a tag is shown at in the cloud, from 1 to [SIZES], growing with how often it is used
/// next to the most used tag. Every tag used the same number of times makes them all the same
/// size.
pub open spec fn tag_size_of(uses: int, most: int) -> int {
    if most == 1 {
        1
    } else {
        1 + (uses - 1) * (SIZES - 1) / (most - 1)
    }
}

/// The size a tag is shown at in the cloud.
pub fn tag_size(uses: i64, most: i64) -> (r: i64)
    requires
        1 <= uses <= most,
        (uses - 1) * (SIZES - 1) <= i64::MAX,
    ensures
        r == tag_size_of(uses as int, most as int),
        1 <= r <= SIZES,
{
    if most == 1 {
        1
    } else {
        let scaled = (uses - 1) * (SIZES - 1);
        proof {
            assert((uses - 1) * (SIZES - 1) / (most - 1) <= SIZES - 1) by (nonlinear_arith)
                requires
                    1 <= uses <= most,
                    most > 1,
            ;
            assert((uses - 1) * (SIZES - 1) / (most - 1) >= 0) by (nonlinear_arith)
                requires
                    1 <= uses <= most,
                    most > 1,
            ;
        }
        1 + scaled / (most - 1)
    }
}

/// The cache-busting URL of an asset: its path, and the first eight bytes of the hash of its
/// content in hexadecimal, which tell versions apart and keep URLs readable.
pub open spec fn asset_url(name: Seq<char>, hash: Seq<u8>) -> Seq<char> {
    "/assets/"@ + name + "?v="@ + hex(hash.take(8))
}

/// The cache-busting URL of an asset, from the hash of its content.
pub fn url(name: &str, hash: &[u8]) -> (r: String)
    requires
        hash@.len() >= 8,
    ensures
        r@ == asset_url(name@, hash@),
{
    let mut half: Vec<u8> = Vec::new();
    let mut i: usize = 0;
    while i < 8
        invariant
            i <= 8,
            8 <= hash@.len(),
            half@ == hash@.take(i as int),
        decreases 8 - i,
    {
        half.push(hash[i]);
        assert(hash@.take(i + 1) =~= hash@.take(i as int).push(hash@[i as int]));
        i = i + 1;
    }
    let hex_part = hex_string(half.as_slice());
    let mut r = owned("/assets/");
    push_str(&mut r, name);
    push_str(&mut r, "?v=");
    push_str(&mut r, hex_part.as_str());
    r
}


// ---------------------------------------------------------------------------------------------
// Logging in and changing the password
// ---------------------------------------------------------------------------------------------

/// What a login submission leads to, before the password is claimed or checked.
#[derive(Debug, PartialEq, Eq)]
pub enum LoginStep {
    /// Show the form that sets the first password again, with this message
    ClaimForm(&'static str),
    /// Show the login form, with this message
    LoginForm(&'static str),
    /// Set the typed password as the first one
    Claim,
    /// Check the typed password against the stored one
    Verify,
}

/// What a login submission leads to. `claimed` is whether a password is set, read again on every
/// submission because the form the browser rendered may be stale; `confirm` is present only on
/// the form that sets the first password.
pub fn login_step(claimed: bool, password: &str, confirm: Option<&str>) -> (r: LoginStep)
    ensures
        r == (match (claimed, confirm) {
            (false, Some(c)) => if password@.len() == 0 {
                LoginStep::ClaimForm("The password must not be empty.")
            } else if c@ != password@ {
                LoginStep::ClaimForm("The passwords did not match.")
            } else {
                LoginStep::Claim
            },
            (false, None) => LoginStep::ClaimForm("No password is set yet. Set one first."),
            (true, Some(_)) => LoginStep::LoginForm("A password is already set. Log in with it."),
            (true, None) => LoginStep::Verify,
        }),
{
    match (claimed, confirm) {
        (false, Some(c)) => {
            if password.is_empty() {
                LoginStep::ClaimForm("The password must not be empty.")
            } else if !str_eq(c, password) {
                LoginStep::ClaimForm("The passwords did not match.")
            } else {
                LoginStep::Claim
            }
        },
        (false, None) => LoginStep::ClaimForm("No password is set yet. Set one first."),
        (true, Some(_)) => LoginStep::LoginForm("A password is already set. Log in with it."),
        (true, None) => LoginStep::Verify,
    }
}

/// What a claim leads to: a session when it set the password, else the login form with this
/// message, since a concurrent claim won the race.
pub fn claim_outcome(won: bool) -> (r: Option<&'static str>)
    ensures
        won ==> r is None,
        !won ==> r == Some("A password was already set. Log in with it."),
{
    if won {
        None
    } else {
        Some("A password was already set. Log in with it.")
    }
}

/// What checking a login attempt leads to: a session for the right password, else the login form
/// with this message.
pub fn verify_outcome(check: PasswordCheck) -> (r: Option<&'static str>)
    ensures
        check == PasswordCheck::Correct ==> r is None,
        check != PasswordCheck::Correct ==> r == Some("Login failed"),
{
    match check {
        PasswordCheck::Correct => None,
        PasswordCheck::Wrong | PasswordCheck::Unclaimed => Some("Login failed"),
    }
}

/// What is wrong with a new password as typed twice, if anything.
pub fn new_password_problem(new: &str, confirm: &str) -> (r: Option<&'static str>)
    ensures
        new@ != confirm@ ==> r == Some("The new passwords did not match."),
        new@ == confirm@ && new@.len() == 0 ==> r == Some("The new password must not be empty."),
        new@ == confirm@ && new@.len() > 0 ==> r is None,
{
    if !str_eq(new, confirm) {
        Some("The new passwords did not match.")
    } else if new.is_empty() {
        Some("The new password must not be empty.")
    } else {
        None
    }
}

/// Whether the current password, as checked, allows a change: only the right one does.
pub fn current_password_problem(check: PasswordCheck) -> (r: Option<&'static str>)
    ensures
        check == PasswordCheck::Correct ==> r is None,
        check != PasswordCheck::Correct ==> r == Some("Wrong current password."),
{
    match check {
        PasswordCheck::Correct => None,
        PasswordCheck::Wrong | PasswordCheck::Unclaimed => Some("Wrong current password."),
    }
}

pub open spec fn password_page_head() -> Seq<char> {
    "<!doctype html>\n<title>Change password</title>\n<h1>Change password</h1>\n"@
}

pub open spec fn password_page_form() -> Seq<char> {
    "<form method=\"post\" action=\"/password\">\n<label>Current password <input type=\"password\" name=\"current\" required></label>\n<label>New password <input type=\"password\" name=\"new\" required></label>\n<label>Confirm new password <input type=\"password\" name=\"confirm\" required></label>\n<button>Change password</button>\n</form>\n"@
}

/// The change-password page, with the problem of the last attempt as a paragraph if there was one.
pub fn password_page(error: Option<&str>) -> (r: String)
    ensures
        r@ == password_page_head() + (match error {
            Some(e) => "<p>"@ + e@ + "</p>\n"@,
            None => seq![],
        }) + password_page_form(),
{
    let mut r = owned(
        "<!doctype html>\n<title>Change password</title>\n<h1>Change password</h1>\n",
    );
    if let Some(e) = error {
        push_str(&mut r, "<p>");
        push_str(&mut r, e);
        push_str(&mut r, "</p>\n");
    }
    push_str(
        &mut r,
        "<form method=\"post\" action=\"/password\">\n<label>Current password <input type=\"password\" name=\"current\" required></label>\n<label>New password <input type=\"password\" name=\"new\" required></label>\n<label>Confirm new password <input type=\"password\" name=\"confirm\" required></label>\n<button>Change password</button>\n</form>\n",
    );
    r
}


/// Save and Cancel only ever lead to a path on this site: the parameter is honored only when it
/// is one, and the work page the fallback names is one.
pub proof fn lemma_back_stays_on_site(library_id: i64, id: i64, back: Option<Seq<char>>)
    ensures
        local_path(back_target(library_id, id, back)),
{
    reveal_strlit("/library/");
    let h = item_href(library_id, "work"@, id);
    assert(h[0] == '/');
    assert(h[1] == 'l');
}

/// A library's visibility survives being stored as a flag and read back.
pub proof fn lemma_visibility_roundtrip(v: Visibility, private: bool)
    ensures
        (if v == Visibility::Private {
            Visibility::Private
        } else {
            Visibility::Public
        }) == v,
        (if private {
            Visibility::Private
        } else {
            Visibility::Public
        } == Visibility::Private) == private,
{
}

/// The cloud's sizes never shrink as a tag is used more.
pub proof fn lemma_tag_size_monotone(a: int, b: int, most: int)
    requires
        1 <= a <= b <= most,
    ensures
        tag_size_of(a, most) <= tag_size_of(b, most),
{
    if most > 1 {
        assert((a - 1) * (SIZES - 1) <= (b - 1) * (SIZES - 1)) by (nonlinear_arith)
            requires
                1 <= a <= b,
        ;
        vstd::arithmetic::div_mod::lemma_div_is_ordered(
            (a - 1) * (SIZES - 1),
            (b - 1) * (SIZES - 1),
            most - 1,
        );
    }
}

} // verus!
