//! The work form: a work's fields as typed, the rules that check them, and what a clean form
//! becomes.

use vstd::prelude::*;

use crate::db::work::Work;
use crate::publication_form::{
    self, ContributorRow, all_none, contributor_messages, msgs, nonempty, none_set, opt_view,
    or_empty, title_required,
};
use crate::text::{is_empty, owned, trim, trim_seq};

verus! {

/// A work's editable fields as typed, before validation.
#[derive(Debug, PartialEq, Eq)]
pub struct WorkForm {
    pub title: String,
    pub key: String,
    pub time_signature: String,
    pub instrumentation: String,
    pub contributors: Vec<ContributorRow>,
}

impl Default for WorkForm {
    fn default() -> (r: Self)
        ensures
            r.title@.len() == 0,
            r.key@.len() == 0,
            r.time_signature@.len() == 0,
            r.instrumentation@.len() == 0,
            r.contributors@.len() == 0,
    {
        WorkForm {
            title: String::new(),
            key: String::new(),
            time_signature: String::new(),
            instrumentation: String::new(),
            contributors: Vec::new(),
        }
    }
}

impl Clone for WorkForm {
    fn clone(&self) -> (r: Self)
        ensures
            r.same(*self),
    {
        let r = WorkForm {
            title: self.title.clone(),
            key: self.key.clone(),
            time_signature: self.time_signature.clone(),
            instrumentation: self.instrumentation.clone(),
            contributors: self.contributors.clone(),
        };
        assert(r.contributors@ =~= self.contributors@);
        r
    }
}

impl WorkForm {
    /// The two forms hold the same values.
    pub open spec fn same(self, other: WorkForm) -> bool {
        &&& self.title == other.title
        &&& self.key == other.key
        &&& self.time_signature == other.time_signature
        &&& self.instrumentation == other.instrumentation
        &&& self.contributors@ == other.contributors@
    }
}

/// A form's typed values, ready to be written.
#[derive(Debug, PartialEq, Eq)]
pub struct WorkUpdate {
    pub title: String,
    pub key: Option<String>,
    pub time_signature: Option<String>,
    pub instrumentation: Option<String>,
    pub contributors: Vec<ContributorRow>,
}

/// Problems with a form, one message per field. Empty means it can be submitted.
#[derive(Debug, PartialEq, Eq)]
pub struct Errors {
    pub title: Option<String>,
    /// One slot per row, aligned with the form's rows
    pub contributors: Vec<Option<String>>,
}

impl Default for Errors {
    fn default() -> (r: Self)
        ensures
            r.clear(),
            r.contributors@.len() == 0,
    {
        Errors { title: None, contributors: Vec::new() }
    }
}

impl Errors {
    /// Nothing is wrong.
    pub open spec fn clear(self) -> bool {
        self.title is None && none_set(self.contributors@)
    }

    pub fn is_empty(&self) -> (r: bool)
        ensures
            r == self.clear(),
    {
        if self.title.is_some() {
            return false;
        }
        let mut i: usize = 0;
        while i < self.contributors.len()
            invariant
                i <= self.contributors.len(),
                forall|j: int| 0 <= j < i ==> (#[trigger] self.contributors@[j]) is None,
            decreases self.contributors.len() - i,
        {
            if self.contributors[i].is_some() {
                return false;
            }
            i = i + 1;
        }
        true
    }
}

impl WorkForm {
    pub open spec fn title_message(self) -> Option<Seq<char>> {
        if self.title@.len() == 0 {
            Some(title_required())
        } else {
            None
        }
    }

    /// The form passes every rule.
    pub open spec fn acceptable(self) -> bool {
        self.title_message() is None && all_none(contributor_messages(self.contributors@))
    }

    /// What a form that passes becomes: its values, an empty free-text field being none.
    pub open spec fn became(self, u: WorkUpdate) -> bool {
        &&& u.title@ == self.title@
        &&& opt_view(u.key) == nonempty(self.key@)
        &&& opt_view(u.time_signature) == nonempty(self.time_signature@)
        &&& opt_view(u.instrumentation) == nonempty(self.instrumentation@)
        &&& u.contributors@ == self.contributors@
    }

    /// Check and convert the form. Every problem is reported, not just the first.
    ///
    /// The key, the time signature and the instrumentation are free text: they are written in too
    /// many conventions to check, and a work missing one is no less of a work.
    pub fn parse(&self) -> (r: Result<WorkUpdate, Errors>)
        ensures
            r is Ok <==> self.acceptable(),
            r matches Ok(u) ==> self.became(u),
            r matches Err(e) ==> opt_view(e.title) == self.title_message() && msgs(
                e.contributors@,
            ) == contributor_messages(self.contributors@),
    {
        let errors = Errors {
            title: if is_empty(self.title.as_str()) {
                Some(owned("A title is required."))
            } else {
                None
            },
            contributors: publication_form::parse_contributors(self.contributors.as_slice()),
        };
        proof {
            if none_set(errors.contributors@) {
                assert forall|i: int| 0 <= i < contributor_messages(self.contributors@).len() implies (
                #[trigger] contributor_messages(self.contributors@)[i]) is None by {
                    assert(msgs(errors.contributors@)[i] == opt_view(errors.contributors@[i]));
                }
            }
            if all_none(contributor_messages(self.contributors@)) {
                assert forall|i: int| 0 <= i < errors.contributors@.len() implies (
                #[trigger] errors.contributors@[i]) is None by {
                    assert(msgs(errors.contributors@)[i] == contributor_messages(self.contributors@)[i]);
                }
            }
        }
        if !errors.is_empty() {
            return Err(errors);
        }
        let contributors = self.contributors.clone();
        assert(contributors@ =~= self.contributors@);
        Ok(
            WorkUpdate {
                title: self.title.clone(),
                key: optional(&self.key),
                time_signature: optional(&self.time_signature),
                instrumentation: optional(&self.instrumentation),
                contributors,
            },
        )
    }

    /// The form a stored work opens in: its values as typed, with a row per contributor. Unlike a
    /// work row on a publication form, this page shows and edits all of them.
    pub fn stored(work: &Work) -> (r: Self)
        ensures
            r.title@ == work.title@,
            r.key@ == or_empty(work.key),
            r.time_signature@ == or_empty(work.time_signature),
            r.instrumentation@ == or_empty(work.instrumentation),
            r.contributors@.len() == work.contributors@.len(),
            forall|i: int|
                0 <= i < r.contributors@.len() ==> (#[trigger] r.contributors@[i]).name@
                    == work.contributors@[i].name@ && r.contributors@[i].role@
                    == work.contributors@[i].role@,
    {
        let mut contributors: Vec<ContributorRow> = Vec::new();
        let mut i: usize = 0;
        while i < work.contributors.len()
            invariant
                i <= work.contributors.len(),
                contributors@.len() == i,
                forall|j: int|
                    0 <= j < i ==> (#[trigger] contributors@[j]).name@ == work.contributors@[j].name@
                        && contributors@[j].role@ == work.contributors@[j].role@,
            decreases work.contributors.len() - i,
        {
            let c = &work.contributors[i];
            contributors.push(ContributorRow { name: c.name.clone(), role: c.role.clone() });
            i = i + 1;
        }
        WorkForm {
            title: work.title.clone(),
            key: or_default(&work.key),
            time_signature: or_default(&work.time_signature),
            instrumentation: or_default(&work.instrumentation),
            contributors,
        }
    }
}

fn optional(value: &String) -> (r: Option<String>)
    ensures
        opt_view(r) == nonempty(value@),
{
    if is_empty(value.as_str()) {
        None
    } else {
        Some(value.clone())
    }
}

fn or_default(o: &Option<String>) -> (r: String)
    ensures
        r@ == or_empty(*o),
{
    match o {
        Some(s) => s.clone(),
        None => String::new(),
    }
}

/// A submitted form, as the browser sends it. The stored work edit page and the draft work page
/// post the same shape.
pub struct Submission {
    pub title: String,
    pub key: String,
    pub time_signature: String,
    pub instrumentation: String,
    pub contributor_name: Vec<String>,
    pub contributor_role: Vec<String>,
}

impl WorkForm {
    /// The form a submission stands for: every value trimmed, one row per name and role.
    pub fn from_submission(submission: Submission) -> (r: WorkForm)
        ensures
            r.title@ == trim_seq(submission.title@),
            r.key@ == trim_seq(submission.key@),
            r.time_signature@ == trim_seq(submission.time_signature@),
            r.instrumentation@ == trim_seq(submission.instrumentation@),
            r.contributors@.len() == if submission.contributor_name@.len()
                <= submission.contributor_role@.len() {
                submission.contributor_name@.len()
            } else {
                submission.contributor_role@.len()
            },
            forall|i: int|
                0 <= i < r.contributors@.len() ==> (#[trigger] r.contributors@[i]).name@
                    == trim_seq(submission.contributor_name@[i]@) && r.contributors@[i].role@
                    == trim_seq(submission.contributor_role@[i]@),
    {
        WorkForm {
            title: trim(submission.title.as_str()),
            key: trim(submission.key.as_str()),
            time_signature: trim(submission.time_signature.as_str()),
            instrumentation: trim(submission.instrumentation.as_str()),
            contributors: publication_form::contributor_rows(
                submission.contributor_name,
                submission.contributor_role,
            ),
        }
    }
}

} // verus!
