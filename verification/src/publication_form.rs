//! The publication form: its rows as typed, the rules that check them, and what a clean form
//! becomes.

use vstd::prelude::*;

use crate::db::person::roles;
use crate::db::publication::{HoldingKind, Publication};
use crate::db::work::{Work, lead_contributor, lead_of};
use crate::identifier::{self, Kind, Normalized, normalized};
use crate::text::{
    decimal, decimal_i64, is_empty, join, owned, parse_i64, parse_i64_seq, parse_trimmed_i64,
    push_str, str_eq, trim, trim_seq, words,
};

verus! {

/// An optional string by its characters.
pub open spec fn opt_view(o: Option<String>) -> Option<Seq<char>> {
    match o {
        Some(s) => Some(s@),
        None => None,
    }
}

/// Per-row messages by their characters.
pub open spec fn msgs(v: Seq<Option<String>>) -> Seq<Option<Seq<char>>> {
    v.map_values(|o: Option<String>| opt_view(o))
}

/// An empty value is no value at all.
pub open spec fn nonempty(s: Seq<char>) -> Option<Seq<char>> {
    if s.len() == 0 {
        None
    } else {
        Some(s)
    }
}

pub open spec fn fill_in() -> Seq<char> {
    "Fill this in or remove it."@
}

pub open spec fn title_required() -> Seq<char> {
    "A title is required."@
}

pub open spec fn name_required() -> Seq<char> {
    "A name is required."@
}

pub open spec fn role_required() -> Seq<char> {
    "A role is required."@
}

pub open spec fn already_listed() -> Seq<char> {
    "Already listed."@
}

pub open spec fn year_not_number() -> Seq<char> {
    "The year must be a number."@
}

pub open spec fn choose_file() -> Seq<char> {
    "Choose a file for a digital copy."@
}

pub open spec fn needs_copy() -> Seq<char> {
    "A publication needs at least one copy."@
}

pub open spec fn unknown_kind() -> Seq<char> {
    "Unknown identifier kind."@
}

/// A publication's editable fields as typed, before validation.
#[derive(Debug, PartialEq, Eq)]
pub struct PublicationForm {
    pub title: String,
    pub publisher: String,
    pub year: String,
    pub holdings: Vec<HoldingRow>,
    pub identifiers: Vec<IdentifierRow>,
    pub contributors: Vec<ContributorRow>,
    pub works: Vec<WorkRow>,
}

#[derive(Debug, PartialEq, Eq)]
pub struct HoldingRow {
    pub id: Option<i64>,
    pub kind: HoldingKind,
    /// Freeform for physical, a file path for digital; empty means none
    pub location: String,
}

impl HoldingRow {
    /// The hidden id field's value, empty for a copy being added.
    pub fn id_value(&self) -> (r: String)
        ensures
            r@ == id_text(self.id),
    {
        id_value(self.id)
    }
}

/// The hidden id field's value for an optional id: its decimal, or nothing.
pub open spec fn id_text(id: Option<i64>) -> Seq<char> {
    match id {
        Some(i) => decimal(i as int),
        None => seq![],
    }
}

/// A hidden id field reads back as the id it was written from, whatever whitespace the browser
/// sends around it: what `id_value` writes, the submission's `parsed_id` reads.
pub proof fn lemma_id_reads_back(id: Option<i64>)
    ensures
        parsed_id(id_text(id)) == id,
{
    match id {
        Some(i) => {
            crate::text::lemma_decimal_reads_back(i as int);
        },
        None => {
            crate::text::lemma_trim_start_char(Seq::<char>::empty(), 0);
            crate::text::lemma_trim_end_char(Seq::<char>::empty(), 0);
        },
    }
}

pub(crate) fn id_value(id: Option<i64>) -> (r: String)
    ensures
        r@ == id_text(id),
{
    match id {
        Some(i) => decimal_i64(i),
        None => String::new(),
    }
}

#[derive(Debug, PartialEq, Eq)]
pub struct IdentifierRow {
    /// One of the `identifier::Kind` names
    pub kind: String,
    pub value: String,
}

#[derive(Debug, PartialEq, Eq)]
pub struct ContributorRow {
    pub name: String,
    pub role: String,
}

#[derive(Debug, PartialEq, Eq)]
pub struct WorkRow {
    /// The stored work this row edits; None for one being added
    pub id: Option<i64>,
    pub title: String,
    /// The work's lead contributor; both fields empty means none
    pub contributor: ContributorRow,
}

impl WorkRow {
    /// The hidden id field's value, empty for a work being added.
    pub fn id_value(&self) -> (r: String)
        ensures
            r@ == id_text(self.id),
    {
        id_value(self.id)
    }
}

impl Clone for HoldingRow {
    fn clone(&self) -> (r: Self)
        ensures
            r == *self,
    {
        HoldingRow { id: self.id, kind: self.kind, location: self.location.clone() }
    }
}

impl Clone for IdentifierRow {
    fn clone(&self) -> (r: Self)
        ensures
            r == *self,
    {
        IdentifierRow { kind: self.kind.clone(), value: self.value.clone() }
    }
}

impl Clone for ContributorRow {
    fn clone(&self) -> (r: Self)
        ensures
            r == *self,
    {
        ContributorRow { name: self.name.clone(), role: self.role.clone() }
    }
}

impl Clone for WorkRow {
    fn clone(&self) -> (r: Self)
        ensures
            r == *self,
    {
        WorkRow { id: self.id, title: self.title.clone(), contributor: self.contributor.clone() }
    }
}

impl Clone for PublicationForm {
    fn clone(&self) -> (r: Self)
        ensures
            r.same(*self),
    {
        let r = PublicationForm {
            title: self.title.clone(),
            publisher: self.publisher.clone(),
            year: self.year.clone(),
            holdings: self.holdings.clone(),
            identifiers: self.identifiers.clone(),
            contributors: self.contributors.clone(),
            works: self.works.clone(),
        };
        assert(r.holdings@ =~= self.holdings@);
        assert(r.identifiers@ =~= self.identifiers@);
        assert(r.contributors@ =~= self.contributors@);
        assert(r.works@ =~= self.works@);
        r
    }
}

impl PublicationForm {
    /// The two forms hold the same values.
    pub open spec fn same(self, other: PublicationForm) -> bool {
        &&& self.title == other.title
        &&& self.publisher == other.publisher
        &&& self.year == other.year
        &&& self.holdings@ == other.holdings@
        &&& self.identifiers@ == other.identifiers@
        &&& self.contributors@ == other.contributors@
        &&& self.works@ == other.works@
    }
}

impl Default for IdentifierRow {
    fn default() -> (r: Self)
        ensures
            r.kind@.len() == 0 && r.value@.len() == 0,
    {
        IdentifierRow { kind: String::new(), value: String::new() }
    }
}

impl Default for ContributorRow {
    fn default() -> (r: Self)
        ensures
            r.name@.len() == 0 && r.role@.len() == 0,
    {
        ContributorRow { name: String::new(), role: String::new() }
    }
}

impl Default for WorkRow {
    fn default() -> (r: Self)
        ensures
            r.id is None && r.title@.len() == 0 && r.contributor.name@.len() == 0
                && r.contributor.role@.len() == 0,
    {
        WorkRow { id: None, title: String::new(), contributor: ContributorRow::default() }
    }
}

/// A form's typed values, ready to become catalog rows.
#[derive(Debug, PartialEq, Eq)]
pub struct PublicationUpdate {
    pub title: String,
    pub publisher: Option<String>,
    pub year: Option<i64>,
    pub holdings: Vec<HoldingUpdate>,
    pub identifiers: Vec<(identifier::Kind, identifier::Normalized)>,
    pub contributors: Vec<ContributorRow>,
    pub works: Vec<WorkRow>,
}

#[derive(Debug, PartialEq, Eq)]
pub struct HoldingUpdate {
    pub id: Option<i64>,
    pub kind: HoldingKind,
    pub location: Option<String>,
}

impl HoldingUpdate {
    /// The copy a row stands for, by its values.
    pub open spec fn view(self) -> (Option<i64>, HoldingKind, Option<Seq<char>>) {
        (self.id, self.kind, opt_view(self.location))
    }
}

/// An identifier row that passed, by its values.
pub open spec fn identifier_view(p: (Kind, Normalized)) -> (Kind, Seq<char>) {
    (p.0, p.1@)
}

/// Problems with a form, one message per field. Empty means it can be submitted.
#[derive(Debug, PartialEq, Eq)]
pub struct Errors {
    pub title: Option<String>,
    pub year: Option<String>,
    /// One slot per row, aligned with the form's rows
    pub holdings: Vec<Option<String>>,
    pub no_holdings: Option<String>,
    pub identifiers: Vec<Option<String>>,
    pub contributors: Vec<Option<String>>,
    pub works: Vec<Option<String>>,
}

impl Default for Errors {
    fn default() -> (r: Self)
        ensures
            r.clear(),
            r.holdings@.len() == 0 && r.identifiers@.len() == 0 && r.contributors@.len() == 0
                && r.works@.len() == 0,
    {
        Errors {
            title: None,
            year: None,
            holdings: Vec::new(),
            no_holdings: None,
            identifiers: Vec::new(),
            contributors: Vec::new(),
            works: Vec::new(),
        }
    }
}

/// No slot holds a message.
pub open spec fn none_set(v: Seq<Option<String>>) -> bool {
    forall|i: int| 0 <= i < v.len() ==> (#[trigger] v[i]) is None
}

/// No message holds.
pub open spec fn all_none(v: Seq<Option<Seq<char>>>) -> bool {
    forall|i: int| 0 <= i < v.len() ==> (#[trigger] v[i]) is None
}

fn all_slots_empty(v: &Vec<Option<String>>) -> (r: bool)
    ensures
        r == none_set(v@),
{
    let mut i: usize = 0;
    while i < v.len()
        invariant
            i <= v.len(),
            forall|j: int| 0 <= j < i ==> (#[trigger] v@[j]) is None,
        decreases v.len() - i,
    {
        if v[i].is_some() {
            return false;
        }
        i = i + 1;
    }
    true
}

impl Errors {
    /// Nothing is wrong.
    pub open spec fn clear(self) -> bool {
        &&& self.title is None
        &&& self.year is None
        &&& none_set(self.holdings@)
        &&& self.no_holdings is None
        &&& none_set(self.identifiers@)
        &&& none_set(self.contributors@)
        &&& none_set(self.works@)
    }

    pub fn is_empty(&self) -> (r: bool)
        ensures
            r == self.clear(),
    {
        self.title.is_none() && self.year.is_none() && all_slots_empty(&self.holdings)
            && self.no_holdings.is_none() && all_slots_empty(&self.identifiers)
            && all_slots_empty(&self.contributors) && all_slots_empty(&self.works)
    }

    /// These are exactly the messages the form's rules give.
    pub open spec fn report(self, form: PublicationForm) -> bool {
        &&& opt_view(self.title) == form.title_message()
        &&& opt_view(self.year) == form.year_message()
        &&& msgs(self.holdings@) == holding_messages(form.holdings@)
        &&& opt_view(self.no_holdings) == no_holdings_message(form.holdings@)
        &&& msgs(self.identifiers@) == identifier_messages(form.identifiers@)
        &&& msgs(self.contributors@) == contributor_messages(form.contributors@)
        &&& msgs(self.works@) == work_messages(form.works@)
    }
}

// ---------------------------------------------------------------------------------------------
// The rules, row by row
// ---------------------------------------------------------------------------------------------

/// The message for a contributor row: both fields empty, one empty, or the same name and role
/// as an earlier row.
pub open spec fn contributor_message(rows: Seq<ContributorRow>, i: int) -> Option<Seq<char>> {
    let row = rows[i];
    if row.name@.len() == 0 && row.role@.len() == 0 {
        Some(fill_in())
    } else if row.name@.len() == 0 {
        Some(name_required())
    } else if row.role@.len() == 0 {
        Some(role_required())
    } else if exists|j: int|
        0 <= j < i && (#[trigger] rows[j]).name@ == row.name@ && rows[j].role@ == row.role@ {
        Some(already_listed())
    } else {
        None
    }
}

pub open spec fn contributor_messages(rows: Seq<ContributorRow>) -> Seq<Option<Seq<char>>> {
    Seq::new(rows.len(), |i: int| contributor_message(rows, i))
}

/// What an identifier row becomes, or the message it gets, before duplicates are considered.
pub open spec fn identifier_outcome(row: IdentifierRow) -> Result<(Kind, Seq<char>), Seq<char>> {
    if row.value@.len() == 0 {
        Err(fill_in())
    } else {
        match Kind::named(row.kind@) {
            None => Err(unknown_kind()),
            Some(kind) => match normalized(kind, row.value@) {
                Err(e) => Err(e.text()),
                Ok(v) => Ok((kind, v)),
            },
        }
    }
}

/// The message for an identifier row: its own problem, or normalizing to the same identifier as
/// an earlier row.
pub open spec fn identifier_message(rows: Seq<IdentifierRow>, i: int) -> Option<Seq<char>> {
    match identifier_outcome(rows[i]) {
        Err(m) => Some(m),
        Ok(p) => if exists|j: int|
            0 <= j < i && identifier_outcome(#[trigger] rows[j]) == Ok::<(Kind, Seq<char>), Seq<char>>(p) {
            Some(already_listed())
        } else {
            None
        },
    }
}

pub open spec fn identifier_messages(rows: Seq<IdentifierRow>) -> Seq<Option<Seq<char>>> {
    Seq::new(rows.len(), |i: int| identifier_message(rows, i))
}

/// The identifiers of the rows that passed, in row order, among the first `n`.
pub open spec fn accepted_identifiers(rows: Seq<IdentifierRow>, n: int) -> Seq<(Kind, Seq<char>)>
    decreases n,
{
    if n <= 0 {
        seq![]
    } else {
        let rest = accepted_identifiers(rows, n - 1);
        match (identifier_message(rows, n - 1), identifier_outcome(rows[n - 1])) {
            (None, Ok(p)) => rest.push(p),
            _ => rest,
        }
    }
}

/// The message for a work row: nothing filled, no title, or a contributor half filled. Both
/// contributor fields empty is allowed: an anonymous or folk piece has no contributor.
pub open spec fn work_message(row: WorkRow) -> Option<Seq<char>> {
    let name = row.contributor.name@;
    let role = row.contributor.role@;
    if row.title@.len() == 0 && name.len() == 0 && role.len() == 0 {
        Some(fill_in())
    } else if row.title@.len() == 0 {
        Some(title_required())
    } else if name.len() == 0 && role.len() != 0 {
        Some(name_required())
    } else if role.len() == 0 && name.len() != 0 {
        Some(role_required())
    } else {
        None
    }
}

pub open spec fn work_messages(rows: Seq<WorkRow>) -> Seq<Option<Seq<char>>> {
    rows.map_values(|row: WorkRow| work_message(row))
}

/// The message for a copy row: a digital copy needs a file.
pub open spec fn holding_message(row: HoldingRow) -> Option<Seq<char>> {
    if row.kind == HoldingKind::Digital && row.location@.len() == 0 {
        Some(choose_file())
    } else {
        None
    }
}

pub open spec fn holding_messages(rows: Seq<HoldingRow>) -> Seq<Option<Seq<char>>> {
    rows.map_values(|row: HoldingRow| holding_message(row))
}

pub open spec fn no_holdings_message(rows: Seq<HoldingRow>) -> Option<Seq<char>> {
    if rows.len() == 0 {
        Some(needs_copy())
    } else {
        None
    }
}

/// The copy a row becomes, by its values: an empty location is none.
pub open spec fn holding_update_of(row: HoldingRow) -> (Option<i64>, HoldingKind, Option<Seq<char>>) {
    (row.id, row.kind, nonempty(row.location@))
}

/// The copies of the rows that passed, in row order.
pub open spec fn accepted_holdings(rows: Seq<HoldingRow>) -> Seq<
    (Option<i64>, HoldingKind, Option<Seq<char>>),
>
    decreases rows.len(),
{
    if rows.len() == 0 {
        seq![]
    } else {
        let rest = accepted_holdings(rows.drop_last());
        if holding_message(rows.last()) is None {
            rest.push(holding_update_of(rows.last()))
        } else {
            rest
        }
    }
}

/// The year as typed: empty is none, anything else must be a number.
pub open spec fn year_of(year: Seq<char>) -> Option<int> {
    if year.len() == 0 {
        None
    } else {
        parse_i64_seq(year)
    }
}

impl PublicationForm {
    pub open spec fn title_message(self) -> Option<Seq<char>> {
        if self.title@.len() == 0 {
            Some(title_required())
        } else {
            None
        }
    }

    pub open spec fn year_message(self) -> Option<Seq<char>> {
        if self.year@.len() != 0 && parse_i64_seq(self.year@) is None {
            Some(year_not_number())
        } else {
            None
        }
    }

    /// The form passes every rule.
    pub open spec fn acceptable(self) -> bool {
        &&& self.title_message() is None
        &&& self.year_message() is None
        &&& all_none(holding_messages(self.holdings@))
        &&& no_holdings_message(self.holdings@) is None
        &&& all_none(identifier_messages(self.identifiers@))
        &&& all_none(contributor_messages(self.contributors@))
        &&& all_none(work_messages(self.works@))
    }

    /// What a form that passes becomes.
    pub open spec fn became(self, u: PublicationUpdate) -> bool {
        &&& u.title@ == self.title@
        &&& opt_view(u.publisher) == nonempty(self.publisher@)
        &&& (match u.year {
            Some(y) => year_of(self.year@) == Some(y as int),
            None => year_of(self.year@) is None,
        })
        &&& u.holdings@.map_values(|h: HoldingUpdate| h.view()) == self.holdings@.map_values(
            |row: HoldingRow| holding_update_of(row),
        )
        &&& u.identifiers@.map_values(|p: (Kind, Normalized)| identifier_view(p))
            == self.identifiers@.map_values(
            |row: IdentifierRow| identifier_outcome(row)->Ok_0,
        )
        &&& u.contributors@ == self.contributors@
        &&& u.works@ == self.works@
    }
}

// ---------------------------------------------------------------------------------------------
// Checking
// ---------------------------------------------------------------------------------------------

/// Is this row the same name and role as one of the rows before `i`?
fn listed_before(rows: &[ContributorRow], i: usize) -> (r: bool)
    requires
        i < rows.len(),
    ensures
        r == exists|j: int|
            0 <= j < i && (#[trigger] rows@[j]).name@ == rows@[i as int].name@ && rows@[j].role@
                == rows@[i as int].role@,
{
    let mut j: usize = 0;
    while j < i
        invariant
            i < rows.len(),
            j <= i,
            forall|k: int|
                0 <= k < j ==> !((#[trigger] rows@[k]).name@ == rows@[i as int].name@
                    && rows@[k].role@ == rows@[i as int].role@),
        decreases i - j,
    {
        if str_eq(rows[j].name.as_str(), rows[i].name.as_str()) && str_eq(
            rows[j].role.as_str(),
            rows[i].role.as_str(),
        ) {
            return true;
        }
        j = j + 1;
    }
    false
}

/// Check contributor rows, one message per row. A work form credits people the same way a
/// publication form does, so both check their rows here.
pub fn parse_contributors(rows: &[ContributorRow]) -> (r: Vec<Option<String>>)
    ensures
        msgs(r@) == contributor_messages(rows@),
{
    let mut r: Vec<Option<String>> = Vec::new();
    let mut i: usize = 0;
    while i < rows.len()
        invariant
            i <= rows.len(),
            r@.len() == i,
            forall|j: int| 0 <= j < i ==> opt_view(#[trigger] r@[j]) == contributor_message(rows@, j),
        decreases rows.len() - i,
    {
        let row = &rows[i];
        let message = if is_empty(row.name.as_str()) && is_empty(row.role.as_str()) {
            Some(owned("Fill this in or remove it."))
        } else if is_empty(row.name.as_str()) {
            Some(owned("A name is required."))
        } else if is_empty(row.role.as_str()) {
            Some(owned("A role is required."))
        } else if listed_before(rows, i) {
            Some(owned("Already listed."))
        } else {
            None
        };
        r.push(message);
        i = i + 1;
    }
    assert(msgs(r@) =~= contributor_messages(rows@));
    r
}

/// Contributor rows from a submission's parallel keys.
pub fn contributor_rows(name: Vec<String>, role: Vec<String>) -> (r: Vec<ContributorRow>)
    ensures
        r@.len() == if name@.len() <= role@.len() {
            name@.len()
        } else {
            role@.len()
        },
        forall|i: int|
            0 <= i < r@.len() ==> (#[trigger] r@[i]).name@ == trim_seq(name@[i]@) && r@[i].role@
                == trim_seq(role@[i]@),
{
    let mut r: Vec<ContributorRow> = Vec::new();
    let mut i: usize = 0;
    while i < name.len() && i < role.len()
        invariant
            i <= name.len(),
            i <= role.len(),
            r@.len() == i,
            forall|j: int|
                0 <= j < i ==> (#[trigger] r@[j]).name@ == trim_seq(name@[j]@) && r@[j].role@
                    == trim_seq(role@[j]@),
        decreases name.len() - i,
    {
        r.push(ContributorRow { name: trim(name[i].as_str()), role: trim(role[i].as_str()) });
        i = i + 1;
    }
    r
}

/// Check copy rows, filling the holding slots of `errors`
pub fn parse_holdings(rows: &[HoldingRow], errors: &mut Errors) -> (r: Vec<HoldingUpdate>)
    ensures
        r@.map_values(|h: HoldingUpdate| h.view()) == accepted_holdings(rows@),
        msgs(final(errors).holdings@) == holding_messages(rows@),
        opt_view(final(errors).no_holdings) == (if rows@.len() == 0 {
            Some(needs_copy())
        } else {
            opt_view(old(errors).no_holdings)
        }),
        final(errors).title == old(errors).title,
        final(errors).year == old(errors).year,
        final(errors).identifiers == old(errors).identifiers,
        final(errors).contributors == old(errors).contributors,
        final(errors).works == old(errors).works,
{
    if rows.len() == 0 {
        errors.no_holdings = Some(owned("A publication needs at least one copy."));
    }
    let mut holdings: Vec<HoldingUpdate> = Vec::new();
    let mut messages: Vec<Option<String>> = Vec::new();
    let mut i: usize = 0;
    while i < rows.len()
        invariant
            i <= rows.len(),
            messages@.len() == i,
            forall|j: int|
                0 <= j < i ==> opt_view(#[trigger] messages@[j]) == holding_message(rows@[j]),
            holdings@.map_values(|h: HoldingUpdate| h.view()) == accepted_holdings(
                rows@.take(i as int),
            ),
        decreases rows.len() - i,
    {
        let row = &rows[i];
        let ghost before = holdings@;
        assert(rows@.take(i + 1).drop_last() =~= rows@.take(i as int));
        if row.kind == HoldingKind::Digital && is_empty(row.location.as_str()) {
            messages.push(Some(owned("Choose a file for a digital copy.")));
        } else {
            let location = if is_empty(row.location.as_str()) {
                None
            } else {
                Some(row.location.clone())
            };
            holdings.push(HoldingUpdate { id: row.id, kind: row.kind, location });
            assert(holdings@.map_values(|h: HoldingUpdate| h.view()) =~= before.map_values(
                |h: HoldingUpdate| h.view(),
            ).push(holding_update_of(rows@[i as int])));
            messages.push(None);
        }
        i = i + 1;
    }
    assert(rows@.take(rows.len() as int) =~= rows@);
    assert(msgs(messages@) =~= holding_messages(rows@));
    errors.holdings = messages;
    holdings
}

/// Does an earlier successful row normalize to this identifier?
fn seen_before(seen: &Vec<(Kind, Normalized)>, kind: Kind, value: &Normalized) -> (r: bool)
    ensures
        r == exists|k: int| 0 <= k < seen@.len() && identifier_view(#[trigger] seen@[k]) == (kind, value@),
{
    let mut k: usize = 0;
    while k < seen.len()
        invariant
            k <= seen.len(),
            forall|m: int| 0 <= m < k ==> identifier_view(#[trigger] seen@[m]) != (kind, value@),
        decreases seen.len() - k,
    {
        if seen[k].0 == kind && str_eq(seen[k].1.as_str(), value.as_str()) {
            assert(identifier_view(seen@[k as int]) == (kind, value@));
            return true;
        }
        k = k + 1;
    }
    false
}

/// What one identifier row becomes, or its message, before duplicates are considered.
fn identifier_row_outcome(row: &IdentifierRow) -> (r: Result<(Kind, Normalized), String>)
    ensures
        match r {
            Ok(p) => identifier_outcome(*row) == Ok::<(Kind, Seq<char>), Seq<char>>(identifier_view(p)),
            Err(m) => identifier_outcome(*row) == Err::<(Kind, Seq<char>), Seq<char>>(m@),
        },
{
    if is_empty(row.value.as_str()) {
        return Err(owned("Fill this in or remove it."));
    }
    let kind = match Kind::from_name(row.kind.as_str()) {
        Ok(kind) => kind,
        Err(_) => return Err(owned("Unknown identifier kind.")),
    };
    match identifier::normalize(kind, row.value.as_str()) {
        Ok(n) => Ok((kind, n)),
        Err(e) => Err(e.message()),
    }
}

/// Check identifier rows: one message per row, and the identifiers of the rows that passed.
#[verifier::rlimit(80)]
fn parse_identifiers(rows: &[IdentifierRow]) -> (r: (Vec<Option<String>>, Vec<(Kind, Normalized)>))
    ensures
        msgs(r.0@) == identifier_messages(rows@),
        r.1@.map_values(|p: (Kind, Normalized)| identifier_view(p)) == accepted_identifiers(
            rows@,
            rows@.len() as int,
        ),
{
    let mut messages: Vec<Option<String>> = Vec::new();
    let mut accepted: Vec<(Kind, Normalized)> = Vec::new();
    let mut i: usize = 0;
    while i < rows.len()
        invariant
            i <= rows.len(),
            messages@.len() == i,
            forall|j: int|
                0 <= j < i ==> opt_view(#[trigger] messages@[j]) == identifier_message(rows@, j),
            accepted@.map_values(|p: (Kind, Normalized)| identifier_view(p)) == accepted_identifiers(
                rows@,
                i as int,
            ),
            // Every earlier row that normalized has its identifier among those accepted
            forall|j: int|
                0 <= j < i && identifier_outcome(#[trigger] rows@[j]) is Ok ==> exists|k: int|
                    0 <= k < accepted@.len() && identifier_view(accepted@[k]) == identifier_outcome(
                        rows@[j],
                    )->Ok_0,
            // and every accepted identifier is that of an earlier row
            forall|k: int|
                0 <= k < accepted@.len() ==> exists|j: int|
                    0 <= j < i && identifier_outcome(rows@[j]) == Ok::<(Kind, Seq<char>), Seq<char>>(
                        identifier_view(#[trigger] accepted@[k]),
                    ),
        decreases rows.len() - i,
    {
        let ghost before = accepted@;
        match identifier_row_outcome(&rows[i]) {
            Err(m) => {
                messages.push(Some(m));
            },
            Ok((kind, n)) => {
                let ghost p = (kind, n@);
                if seen_before(&accepted, kind, &n) {
                    messages.push(Some(owned("Already listed.")));
                    proof {
                        let k = choose|k: int|
                            0 <= k < accepted@.len() && identifier_view(#[trigger] accepted@[k]) == p;
                        let j = choose|j: int|
                            0 <= j < i && identifier_outcome(rows@[j]) == Ok::<
                                (Kind, Seq<char>),
                                Seq<char>,
                            >(identifier_view(#[trigger] accepted@[k]));
                        assert(identifier_outcome(rows@[j]) == Ok::<(Kind, Seq<char>), Seq<char>>(p));
                    }
                } else {
                    proof {
                        if exists|j: int|
                            0 <= j < i && identifier_outcome(#[trigger] rows@[j]) == Ok::<
                                (Kind, Seq<char>),
                                Seq<char>,
                            >(p) {
                            let j = choose|j: int|
                                0 <= j < i && identifier_outcome(#[trigger] rows@[j]) == Ok::<
                                    (Kind, Seq<char>),
                                    Seq<char>,
                                >(p);
                            assert(identifier_outcome(rows@[j]) is Ok);
                            let k = choose|k: int|
                                0 <= k < accepted@.len() && identifier_view(accepted@[k])
                                    == identifier_outcome(rows@[j])->Ok_0;
                            assert(identifier_view(accepted@[k]) == p);
                            assert(false);
                        }
                    }
                    accepted.push((kind, n));
                    messages.push(None);
                    proof {
                        assert(accepted@.map_values(|q: (Kind, Normalized)| identifier_view(q))
                            =~= before.map_values(|q: (Kind, Normalized)| identifier_view(q)).push(
                            p,
                        ));
                        assert forall|j: int|
                            0 <= j < i + 1 && identifier_outcome(#[trigger] rows@[j]) is Ok implies exists|k: int|
                                0 <= k < accepted@.len() && identifier_view(accepted@[k])
                                    == identifier_outcome(rows@[j])->Ok_0 by {
                            if j == i {
                                assert(identifier_view(accepted@[before.len() as int]) == p);
                            } else {
                                let k = choose|k: int|
                                    0 <= k < before.len() && identifier_view(before[k])
                                        == identifier_outcome(rows@[j])->Ok_0;
                                assert(accepted@[k] == before[k]);
                            }
                        }
                        assert forall|k: int| 0 <= k < accepted@.len() implies exists|j: int|
                            0 <= j < i + 1 && identifier_outcome(rows@[j]) == Ok::<
                                (Kind, Seq<char>),
                                Seq<char>,
                            >(identifier_view(#[trigger] accepted@[k])) by {
                            if k == before.len() {
                                assert(identifier_outcome(rows@[i as int]) == Ok::<
                                    (Kind, Seq<char>),
                                    Seq<char>,
                                >(identifier_view(accepted@[k])));
                            } else {
                                assert(before[k] == accepted@[k]);
                                let j = choose|j: int|
                                    0 <= j < i && identifier_outcome(rows@[j]) == Ok::<
                                        (Kind, Seq<char>),
                                        Seq<char>,
                                    >(identifier_view(#[trigger] before[k]));
                                assert(identifier_outcome(rows@[j]) == Ok::<
                                    (Kind, Seq<char>),
                                    Seq<char>,
                                >(identifier_view(accepted@[k])));
                            }
                        }
                    }
                }
            },
        }
        i = i + 1;
    }
    assert(msgs(messages@) =~= identifier_messages(rows@));
    (messages, accepted)
}

/// Check work rows, one message per row.
fn parse_work_rows(rows: &[WorkRow]) -> (r: Vec<Option<String>>)
    ensures
        msgs(r@) == work_messages(rows@),
{
    let mut r: Vec<Option<String>> = Vec::new();
    let mut i: usize = 0;
    while i < rows.len()
        invariant
            i <= rows.len(),
            r@.len() == i,
            forall|j: int| 0 <= j < i ==> opt_view(#[trigger] r@[j]) == work_message(rows@[j]),
        decreases rows.len() - i,
    {
        let row = &rows[i];
        let title_empty = is_empty(row.title.as_str());
        let name_empty = is_empty(row.contributor.name.as_str());
        let role_empty = is_empty(row.contributor.role.as_str());
        let message = if title_empty && name_empty && role_empty {
            Some(owned("Fill this in or remove it."))
        } else if title_empty {
            Some(owned("A title is required."))
        } else if name_empty && !role_empty {
            Some(owned("A name is required."))
        } else if role_empty && !name_empty {
            Some(owned("A role is required."))
        } else {
            None
        };
        r.push(message);
        i = i + 1;
    }
    assert(msgs(r@) =~= work_messages(rows@));
    r
}

/// With every row passing, the accepted copies are all of them.
proof fn lemma_accepted_holdings_all(rows: Seq<HoldingRow>)
    requires
        all_none(holding_messages(rows)),
    ensures
        accepted_holdings(rows) == rows.map_values(|row: HoldingRow| holding_update_of(row)),
    decreases rows.len(),
{
    if rows.len() > 0 {
        assert(all_none(holding_messages(rows.drop_last()))) by {
            assert forall|i: int| 0 <= i < rows.drop_last().len() implies (#[trigger] holding_messages(
                rows.drop_last(),
            )[i]) is None by {
                assert(holding_messages(rows)[i] is None);
            }
        }
        lemma_accepted_holdings_all(rows.drop_last());
        assert(holding_messages(rows)[rows.len() - 1] is None);
        assert(rows.map_values(|row: HoldingRow| holding_update_of(row)) =~= rows.drop_last().map_values(
            |row: HoldingRow| holding_update_of(row),
        ).push(holding_update_of(rows.last())));
    }
}

/// With every row passing, the accepted identifiers are all of them, in row order.
proof fn lemma_accepted_identifiers_all(rows: Seq<IdentifierRow>, n: int)
    requires
        all_none(identifier_messages(rows)),
        0 <= n <= rows.len(),
    ensures
        accepted_identifiers(rows, n) == rows.take(n).map_values(
            |row: IdentifierRow| identifier_outcome(row)->Ok_0,
        ),
    decreases n,
{
    if n > 0 {
        lemma_accepted_identifiers_all(rows, n - 1);
        assert(identifier_messages(rows)[n - 1] is None);
        assert(identifier_outcome(rows[n - 1]) is Ok);
        assert(rows.take(n).map_values(|row: IdentifierRow| identifier_outcome(row)->Ok_0)
            =~= rows.take(n - 1).map_values(|row: IdentifierRow| identifier_outcome(row)->Ok_0).push(
            identifier_outcome(rows[n - 1])->Ok_0,
        ));
    } else {
        assert(rows.take(0).map_values(|row: IdentifierRow| identifier_outcome(row)->Ok_0) =~= seq![]);
    }
}

impl PublicationForm {
    /// Check and convert the form. Every problem is reported, not just the first.
    pub fn parse(&self) -> (r: Result<PublicationUpdate, Errors>)
        ensures
            r is Ok <==> self.acceptable(),
            r matches Ok(u) ==> self.became(u),
            r matches Err(e) ==> e.report(*self),
    {
        let mut errors = Errors::default();
        if is_empty(self.title.as_str()) {
            errors.title = Some(owned("A title is required."));
        }
        let year = if is_empty(self.year.as_str()) {
            None
        } else {
            match parse_i64(self.year.as_str()) {
                Some(year) => Some(year),
                None => {
                    errors.year = Some(owned("The year must be a number."));
                    None
                },
            }
        };
        let holdings = parse_holdings(self.holdings.as_slice(), &mut errors);
        let (identifier_errors, identifiers) = parse_identifiers(self.identifiers.as_slice());
        errors.identifiers = identifier_errors;
        errors.contributors = parse_contributors(self.contributors.as_slice());
        errors.works = parse_work_rows(self.works.as_slice());

        proof {
            assert(errors.report(*self));
            // Every message slot is empty exactly when the form passes
            assert(none_set(errors.holdings@) <==> all_none(holding_messages(self.holdings@))) by {
                if none_set(errors.holdings@) {
                    assert forall|i: int| 0 <= i < holding_messages(self.holdings@).len() implies (
                    #[trigger] holding_messages(self.holdings@)[i]) is None by {
                        assert(msgs(errors.holdings@)[i] == opt_view(errors.holdings@[i]));
                    }
                }
                if all_none(holding_messages(self.holdings@)) {
                    assert forall|i: int| 0 <= i < errors.holdings@.len() implies (
                    #[trigger] errors.holdings@[i]) is None by {
                        assert(msgs(errors.holdings@)[i] == holding_messages(self.holdings@)[i]);
                    }
                }
            }
            assert(none_set(errors.identifiers@) <==> all_none(identifier_messages(self.identifiers@))) by {
                if none_set(errors.identifiers@) {
                    assert forall|i: int| 0 <= i < identifier_messages(self.identifiers@).len() implies (
                    #[trigger] identifier_messages(self.identifiers@)[i]) is None by {
                        assert(msgs(errors.identifiers@)[i] == opt_view(errors.identifiers@[i]));
                    }
                }
                if all_none(identifier_messages(self.identifiers@)) {
                    assert forall|i: int| 0 <= i < errors.identifiers@.len() implies (
                    #[trigger] errors.identifiers@[i]) is None by {
                        assert(msgs(errors.identifiers@)[i] == identifier_messages(self.identifiers@)[i]);
                    }
                }
            }
            assert(none_set(errors.contributors@) <==> all_none(contributor_messages(self.contributors@))) by {
                if none_set(errors.contributors@) {
                    assert forall|i: int| 0 <= i < contributor_messages(self.contributors@).len() implies (
                    #[trigger] contributor_messages(self.contributors@)[i]) is None by {
                        assert(msgs(errors.contributors@)[i] == opt_view(errors.contributors@[i]));
                    }
                }
                if all_none(contributor_messages(self.contributors@)) {
                    assert forall|i: int| 0 <= i < errors.contributors@.len() implies (
                    #[trigger] errors.contributors@[i]) is None by {
                        assert(msgs(errors.contributors@)[i] == contributor_messages(self.contributors@)[i]);
                    }
                }
            }
            assert(none_set(errors.works@) <==> all_none(work_messages(self.works@))) by {
                if none_set(errors.works@) {
                    assert forall|i: int| 0 <= i < work_messages(self.works@).len() implies (
                    #[trigger] work_messages(self.works@)[i]) is None by {
                        assert(msgs(errors.works@)[i] == opt_view(errors.works@[i]));
                    }
                }
                if all_none(work_messages(self.works@)) {
                    assert forall|i: int| 0 <= i < errors.works@.len() implies (
                    #[trigger] errors.works@[i]) is None by {
                        assert(msgs(errors.works@)[i] == work_messages(self.works@)[i]);
                    }
                }
            }
        }

        if !errors.is_empty() {
            return Err(errors);
        }
        proof {
            lemma_accepted_holdings_all(self.holdings@);
            lemma_accepted_identifiers_all(self.identifiers@, self.identifiers@.len() as int);
            assert(self.identifiers@.take(self.identifiers@.len() as int) =~= self.identifiers@);
        }
        let publisher = if is_empty(self.publisher.as_str()) {
            None
        } else {
            Some(self.publisher.clone())
        };
        let contributors = self.contributors.clone();
        let works = self.works.clone();
        assert(contributors@ =~= self.contributors@);
        assert(works@ =~= self.works@);
        Ok(
            PublicationUpdate {
                title: self.title.clone(),
                publisher,
                year,
                holdings,
                identifiers,
                contributors,
                works,
            },
        )
    }
}

} // verus!

verus! {

// ---------------------------------------------------------------------------------------------
// Submissions
// ---------------------------------------------------------------------------------------------

/// The id a hidden field carries: a number once trimmed, else none.
pub open spec fn parsed_id(s: Seq<char>) -> Option<i64> {
    match parse_i64_seq(trim_seq(s)) {
        Some(v) => Some(v as i64),
        None => None,
    }
}

/// The id at position `i` of a hidden id list, read by position: none past its end.
pub open spec fn id_at(ids: Seq<String>, i: int) -> Option<i64> {
    if i < ids.len() {
        parsed_id(ids[i]@)
    } else {
        None
    }
}

pub(crate) fn parse_id_at(ids: &Vec<String>, i: usize) -> (r: Option<i64>)
    ensures
        r == id_at(ids@, i as int),
{
    if i < ids.len() {
        match parse_trimmed_i64(ids[i].as_str()) {
            Some(v) => Some(v),
            None => None,
        }
    } else {
        None
    }
}

/// The kinds of the copy rows, from the kind tokens a submission carries.
pub open spec fn holding_kinds_of(tokens: Seq<HoldingKind>) -> Seq<HoldingKind>
    decreases tokens.len(),
{
    if tokens.len() == 0 {
        seq![]
    } else {
        let kinds = holding_kinds_of(tokens.drop_last());
        let token = tokens.last();
        if token == HoldingKind::Digital && kinds.len() > 0 {
            kinds.update(kinds.len() - 1, HoldingKind::Digital)
        } else {
            kinds.push(token)
        }
    }
}

/// How many of the kind tokens are the constant "physical" every row posts.
pub open spec fn physical_count(tokens: Seq<HoldingKind>) -> int
    decreases tokens.len(),
{
    if tokens.len() == 0 {
        0
    } else {
        physical_count(tokens.drop_last()) + if tokens.last() == HoldingKind::Physical {
            1int
        } else {
            0int
        }
    }
}

/// The constant "physical" is what keeps the rows countable: there is one row per "physical"
/// token, plus one for a "digital" token that comes before any.
pub proof fn lemma_holding_kinds_count(tokens: Seq<HoldingKind>)
    ensures
        holding_kinds_of(tokens).len() == physical_count(tokens) + if tokens.len() > 0
            && tokens[0] == HoldingKind::Digital {
            1int
        } else {
            0int
        },
    decreases tokens.len(),
{
    if tokens.len() > 0 {
        let rest = tokens.drop_last();
        lemma_holding_kinds_count(rest);
        if rest.len() > 0 {
            assert(rest[0] == tokens[0]);
            lemma_holding_kinds_nonempty(rest);
        }
    }
}

proof fn lemma_holding_kinds_nonempty(tokens: Seq<HoldingKind>)
    requires
        tokens.len() > 0,
    ensures
        holding_kinds_of(tokens).len() > 0,
    decreases tokens.len(),
{
    if tokens.len() > 1 {
        lemma_holding_kinds_nonempty(tokens.drop_last());
    }
}

/// A copy row's kind arrives as a constant "physical" followed by a "digital" when the row's
/// toggle is checked: the toggle is a checkbox, which submits nothing while unchecked, so the
/// constant is what keeps the rows countable.
pub fn holding_kinds(tokens: Vec<HoldingKind>) -> (r: Vec<HoldingKind>)
    ensures
        r@ == holding_kinds_of(tokens@),
{
    let mut kinds: Vec<HoldingKind> = Vec::new();
    let mut i: usize = 0;
    while i < tokens.len()
        invariant
            i <= tokens.len(),
            kinds@ == holding_kinds_of(tokens@.take(i as int)),
        decreases tokens.len() - i,
    {
        let token = tokens[i];
        assert(tokens@.take(i + 1).drop_last() =~= tokens@.take(i as int));
        if token == HoldingKind::Digital && kinds.len() > 0 {
            let last = kinds.len() - 1;
            kinds.set(last, HoldingKind::Digital);
        } else {
            kinds.push(token);
        }
        i = i + 1;
    }
    assert(tokens@.take(tokens.len() as int) =~= tokens@);
    kinds
}

/// The least of three lengths, which is how many rows parallel lists make.
pub open spec fn min3(a: int, b: int, c: int) -> int {
    if a <= b && a <= c {
        a
    } else if b <= c {
        b
    } else {
        c
    }
}

/// The copy row at position `i` of a submission's parallel keys.
pub open spec fn holding_row_at(
    ids: Seq<String>,
    kinds: Seq<HoldingKind>,
    location: Seq<String>,
    file: Seq<String>,
    i: int,
) -> (Option<i64>, HoldingKind, Seq<char>) {
    (
        id_at(ids, i),
        kinds[i],
        trim_seq(
            if kinds[i] == HoldingKind::Physical {
                location[i]@
            } else {
                file[i]@
            },
        ),
    )
}

/// A copy row by its values.
pub open spec fn holding_row_view(row: HoldingRow) -> (Option<i64>, HoldingKind, Seq<char>) {
    (row.id, row.kind, row.location@)
}

/// Copy rows from a submission's parallel keys. Every row submits a location and a file, and the
/// kind picks which one counts.
///
/// The ids are read by position rather than zipped: a missing or short id list leaves the rows it
/// does not reach naming no stored copy, which is what a page with nothing stored yet submits.
pub fn holding_rows(
    id: Vec<String>,
    kind: Vec<HoldingKind>,
    location: Vec<String>,
    file: Vec<String>,
) -> (r: Vec<HoldingRow>)
    ensures
        r@.len() == min3(
            holding_kinds_of(kind@).len() as int,
            location@.len() as int,
            file@.len() as int,
        ),
        forall|i: int|
            0 <= i < r@.len() ==> holding_row_view(#[trigger] r@[i]) == holding_row_at(
                id@,
                holding_kinds_of(kind@),
                location@,
                file@,
                i,
            ),
{
    let kinds = holding_kinds(kind);
    let mut r: Vec<HoldingRow> = Vec::new();
    let mut i: usize = 0;
    while i < kinds.len() && i < location.len() && i < file.len()
        invariant
            kinds@ == holding_kinds_of(kind@),
            i <= kinds.len(),
            i <= location.len(),
            i <= file.len(),
            r@.len() == i,
            forall|j: int|
                0 <= j < i ==> holding_row_view(#[trigger] r@[j]) == holding_row_at(
                    id@,
                    kinds@,
                    location@,
                    file@,
                    j,
                ),
        decreases kinds.len() - i,
    {
        let k = kinds[i];
        let chosen = match k {
            HoldingKind::Physical => trim(location[i].as_str()),
            HoldingKind::Digital => trim(file[i].as_str()),
        };
        r.push(HoldingRow { id: parse_id_at(&id, i), kind: k, location: chosen });
        i = i + 1;
    }
    r
}

/// A submitted form, as the browser sends it: one repeated key per column, so every row list
/// arrives as parallel arrays. The import review page and the publication edit page post the same
/// shape.
pub struct Submission {
    pub title: String,
    pub publisher: String,
    pub year: String,
    pub holding_id: Vec<String>,
    pub holding_kind: Vec<HoldingKind>,
    pub holding_location: Vec<String>,
    pub holding_file: Vec<String>,
    pub identifier_kind: Vec<String>,
    pub identifier_value: Vec<String>,
    pub contributor_name: Vec<String>,
    pub contributor_role: Vec<String>,
    pub work_id: Vec<String>,
    pub work_title: Vec<String>,
    pub work_contributor_name: Vec<String>,
    pub work_contributor_role: Vec<String>,
}

/// A work row by its values.
pub open spec fn work_row_view(row: WorkRow) -> (Option<i64>, Seq<char>, Seq<char>, Seq<char>) {
    (row.id, row.title@, row.contributor.name@, row.contributor.role@)
}

impl PublicationForm {
    /// The form a submission stands for: every value trimmed, rows from the parallel keys.
    pub fn from_submission(submission: Submission) -> (r: PublicationForm)
        ensures
            r.title@ == trim_seq(submission.title@),
            r.publisher@ == trim_seq(submission.publisher@),
            r.year@ == trim_seq(submission.year@),
            r.holdings@.len() == min3(
                holding_kinds_of(submission.holding_kind@).len() as int,
                submission.holding_location@.len() as int,
                submission.holding_file@.len() as int,
            ),
            forall|i: int|
                0 <= i < r.holdings@.len() ==> holding_row_view(#[trigger] r.holdings@[i])
                    == holding_row_at(
                    submission.holding_id@,
                    holding_kinds_of(submission.holding_kind@),
                    submission.holding_location@,
                    submission.holding_file@,
                    i,
                ),
            r.identifiers@.len() == if submission.identifier_kind@.len()
                <= submission.identifier_value@.len() {
                submission.identifier_kind@.len()
            } else {
                submission.identifier_value@.len()
            },
            forall|i: int|
                0 <= i < r.identifiers@.len() ==> (#[trigger] r.identifiers@[i]).kind@ == trim_seq(
                    submission.identifier_kind@[i]@,
                ) && r.identifiers@[i].value@ == trim_seq(submission.identifier_value@[i]@),
            r.contributors@.len() == if submission.contributor_name@.len()
                <= submission.contributor_role@.len() {
                submission.contributor_name@.len()
            } else {
                submission.contributor_role@.len()
            },
            forall|i: int|
                0 <= i < r.contributors@.len() ==> (#[trigger] r.contributors@[i]).name@
                    == trim_seq(submission.contributor_name@[i]@) && r.contributors@[i].role@
                    == trim_seq(submission.contributor_role@[i]@),
            r.works@.len() == min3(
                submission.work_title@.len() as int,
                submission.work_contributor_name@.len() as int,
                submission.work_contributor_role@.len() as int,
            ),
            forall|i: int|
                0 <= i < r.works@.len() ==> work_row_view(#[trigger] r.works@[i]) == (
                    id_at(submission.work_id@, i),
                    trim_seq(submission.work_title@[i]@),
                    trim_seq(submission.work_contributor_name@[i]@),
                    trim_seq(submission.work_contributor_role@[i]@),
                ),
    {
        let mut identifiers: Vec<IdentifierRow> = Vec::new();
        let mut i: usize = 0;
        while i < submission.identifier_kind.len() && i < submission.identifier_value.len()
            invariant
                i <= submission.identifier_kind.len(),
                i <= submission.identifier_value.len(),
                identifiers@.len() == i,
                forall|j: int|
                    0 <= j < i ==> (#[trigger] identifiers@[j]).kind@ == trim_seq(
                        submission.identifier_kind@[j]@,
                    ) && identifiers@[j].value@ == trim_seq(submission.identifier_value@[j]@),
            decreases submission.identifier_kind.len() - i,
        {
            identifiers.push(
                IdentifierRow {
                    kind: trim(submission.identifier_kind[i].as_str()),
                    value: trim(submission.identifier_value[i].as_str()),
                },
            );
            i = i + 1;
        }
        // The ids are read by position rather than zipped, as the copy rows do, so a submission
        // with no ids at all still yields rows naming no stored work.
        let mut works: Vec<WorkRow> = Vec::new();
        let mut i: usize = 0;
        while i < submission.work_title.len() && i < submission.work_contributor_name.len() && i
            < submission.work_contributor_role.len()
            invariant
                i <= submission.work_title.len(),
                i <= submission.work_contributor_name.len(),
                i <= submission.work_contributor_role.len(),
                works@.len() == i,
                forall|j: int|
                    0 <= j < i ==> work_row_view(#[trigger] works@[j]) == (
                        id_at(submission.work_id@, j),
                        trim_seq(submission.work_title@[j]@),
                        trim_seq(submission.work_contributor_name@[j]@),
                        trim_seq(submission.work_contributor_role@[j]@),
                    ),
            decreases submission.work_title.len() - i,
        {
            works.push(
                WorkRow {
                    id: parse_id_at(&submission.work_id, i),
                    title: trim(submission.work_title[i].as_str()),
                    contributor: ContributorRow {
                        name: trim(submission.work_contributor_name[i].as_str()),
                        role: trim(submission.work_contributor_role[i].as_str()),
                    },
                },
            );
            i = i + 1;
        }
        let title = trim(submission.title.as_str());
        let publisher = trim(submission.publisher.as_str());
        let year = trim(submission.year.as_str());
        let contributors = contributor_rows(submission.contributor_name, submission.contributor_role);
        let holdings = holding_rows(
            submission.holding_id,
            submission.holding_kind,
            submission.holding_location,
            submission.holding_file,
        );
        PublicationForm { title, publisher, year, holdings, identifiers, contributors, works }
    }
}

// ---------------------------------------------------------------------------------------------
// Stored publications
// ---------------------------------------------------------------------------------------------

/// An optional string by its characters, empty when absent.
pub open spec fn or_empty(o: Option<String>) -> Seq<char> {
    match o {
        Some(s) => s@,
        None => seq![],
    }
}

/// The year field of a stored publication: its decimal, or empty.
pub open spec fn year_text(year: Option<i64>) -> Seq<char> {
    match year {
        Some(y) => decimal(y as int),
        None => seq![],
    }
}

/// The row a stored work opens as: its id and title, and the lead contributor if any.
pub open spec fn stored_work_row(w: Work) -> (Option<i64>, Seq<char>, Seq<char>, Seq<char>) {
    match lead_of(roles(w.contributors@)) {
        Some(i) => (Some(w.id), w.title@, w.contributors@[i].name@, w.contributors@[i].role@),
        None => (Some(w.id), w.title@, seq![], seq![]),
    }
}

fn string_or_empty(o: &Option<String>) -> (r: String)
    ensures
        r@ == or_empty(*o),
{
    match o {
        Some(s) => s.clone(),
        None => String::new(),
    }
}

impl PublicationForm {
    /// The form a stored publication opens in: its values as typed, every copy and work naming
    /// itself.
    pub fn stored(publication: &Publication, works: &[Work]) -> (r: Self)
        ensures
            r.title@ == publication.title@,
            r.publisher@ == or_empty(publication.publisher),
            r.year@ == year_text(publication.year),
            r.holdings@.len() == publication.holdings@.len(),
            forall|i: int|
                0 <= i < r.holdings@.len() ==> holding_row_view(#[trigger] r.holdings@[i]) == (
                    Some(publication.holdings@[i].id),
                    publication.holdings@[i].kind,
                    or_empty(publication.holdings@[i].location),
                ),
            r.identifiers@.len() == publication.identifiers@.len(),
            forall|i: int|
                0 <= i < r.identifiers@.len() ==> (#[trigger] r.identifiers@[i]).kind@
                    == publication.identifiers@[i].kind.name() && r.identifiers@[i].value@
                    == publication.identifiers@[i].value@,
            r.contributors@.len() == publication.contributors@.len(),
            forall|i: int|
                0 <= i < r.contributors@.len() ==> (#[trigger] r.contributors@[i]).name@
                    == publication.contributors@[i].name@ && r.contributors@[i].role@
                    == publication.contributors@[i].role@,
            r.works@.len() == works@.len(),
            forall|i: int|
                0 <= i < r.works@.len() ==> work_row_view(#[trigger] r.works@[i])
                    == stored_work_row(works@[i]),
    {
        let year = match publication.year {
            Some(y) => decimal_i64(y),
            None => String::new(),
        };
        let mut holdings: Vec<HoldingRow> = Vec::new();
        let mut i: usize = 0;
        while i < publication.holdings.len()
            invariant
                i <= publication.holdings.len(),
                holdings@.len() == i,
                forall|j: int|
                    0 <= j < i ==> holding_row_view(#[trigger] holdings@[j]) == (
                        Some(publication.holdings@[j].id),
                        publication.holdings@[j].kind,
                        or_empty(publication.holdings@[j].location),
                    ),
            decreases publication.holdings.len() - i,
        {
            let h = &publication.holdings[i];
            holdings.push(
                HoldingRow { id: Some(h.id), kind: h.kind, location: string_or_empty(&h.location) },
            );
            i = i + 1;
        }
        let mut identifiers: Vec<IdentifierRow> = Vec::new();
        let mut i: usize = 0;
        while i < publication.identifiers.len()
            invariant
                i <= publication.identifiers.len(),
                identifiers@.len() == i,
                forall|j: int|
                    0 <= j < i ==> (#[trigger] identifiers@[j]).kind@
                        == publication.identifiers@[j].kind.name() && identifiers@[j].value@
                        == publication.identifiers@[j].value@,
            decreases publication.identifiers.len() - i,
        {
            let id = &publication.identifiers[i];
            identifiers.push(
                IdentifierRow { kind: owned(id.kind.as_str()), value: id.value.clone() },
            );
            i = i + 1;
        }
        let mut contributors: Vec<ContributorRow> = Vec::new();
        let mut i: usize = 0;
        while i < publication.contributors.len()
            invariant
                i <= publication.contributors.len(),
                contributors@.len() == i,
                forall|j: int|
                    0 <= j < i ==> (#[trigger] contributors@[j]).name@
                        == publication.contributors@[j].name@ && contributors@[j].role@
                        == publication.contributors@[j].role@,
            decreases publication.contributors.len() - i,
        {
            let c = &publication.contributors[i];
            contributors.push(ContributorRow { name: c.name.clone(), role: c.role.clone() });
            i = i + 1;
        }
        let mut rows: Vec<WorkRow> = Vec::new();
        let mut i: usize = 0;
        while i < works.len()
            invariant
                i <= works.len(),
                rows@.len() == i,
                forall|j: int|
                    0 <= j < i ==> work_row_view(#[trigger] rows@[j]) == stored_work_row(works@[j]),
            decreases works.len() - i,
        {
            let w = &works[i];
            proof {
                crate::db::work::lemma_lead_of(roles(w.contributors@));
            }
            let contributor = match lead_contributor(w.contributors.as_slice()) {
                Some(k) => ContributorRow {
                    name: w.contributors[k].name.clone(),
                    role: w.contributors[k].role.clone(),
                },
                None => ContributorRow::default(),
            };
            rows.push(WorkRow { id: Some(w.id), title: w.title.clone(), contributor });
            i = i + 1;
        }
        PublicationForm {
            title: publication.title.clone(),
            publisher: string_or_empty(&publication.publisher),
            year,
            holdings,
            identifiers,
            contributors,
            works: rows,
        }
    }
}

/// How a name sorts: its last word first, then a comma and the rest; a name of one word (or
/// none) sorts as itself.
pub open spec fn sort_name_of(name: Seq<char>) -> Seq<char> {
    let w = words(name);
    if w.len() >= 2 {
        w.last() + seq![',', ' '] + join(w.drop_last(), seq![' '])
    } else {
        name
    }
}

/// "Erik Satie" sorts as "Satie, Erik". Compound surnames ("Ralph Vaughan Williams") come out
/// wrong and get fixed on the person page; the heuristic only has to be right often enough that
/// the user rarely types a name twice.
pub fn sort_name(name: &str) -> (r: String)
    ensures
        r@ == sort_name_of(name@),
{
    let mut parts = crate::text::split_whitespace(name);
    if parts.len() >= 2 {
        let ghost all = parts@.map_values(|w: String| w@);
        let last = parts.pop().unwrap();
        assert(parts@.map_values(|w: String| w@) =~= all.drop_last());
        let rest = crate::text::join_strings(&parts, " ");
        let mut r = last;
        push_str(&mut r, ", ");
        push_str(&mut r, rest.as_str());
        proof {
            reveal_strlit(", ");
            reveal_strlit(" ");
            assert(", "@ =~= seq![',', ' ']);
            assert(" "@ =~= seq![' ']);
        }
        r
    } else {
        owned(name)
    }
}

} // verus!
