//! How the settings page's audit log words each event.

use vstd::prelude::*;

use crate::text::{concat, join, join_strings, owned, push_char};

verus! {

/// What an audit event did.
#[derive(Debug, Clone, Copy, PartialEq, Eq, Structural)]
pub enum Action {
    Created,
    Updated,
    Deleted,
    Merged,
    Renamed,
    ImportStarted,
    ImportAccepted,
    ImportDiscarded,
    PasswordClaimed,
    PasswordChanged,
}

/// The line an event reads as, naming the kind of thing it touched where it touched one.
pub open spec fn summary_of(action: Action, noun: Seq<char>) -> Seq<char> {
    match action {
        Action::Created => "Created "@ + noun,
        Action::Updated => "Updated "@ + noun,
        Action::Deleted => "Deleted "@ + noun,
        Action::Merged => "Merged into "@ + noun,
        Action::Renamed => "Renamed "@ + noun + " to"@,
        Action::ImportStarted => "Started import"@,
        Action::ImportAccepted => "Accepted import as "@ + noun,
        Action::ImportDiscarded => "Discarded import"@,
        Action::PasswordClaimed => "Claimed the password"@,
        Action::PasswordChanged => "Changed the password"@,
    }
}

/// The line an event reads as. Every wording lives here, so a new action does not compile until
/// it reads as something.
pub fn summary(action: Action, noun: &str) -> (r: String)
    ensures
        r@ == summary_of(action, noun@),
{
    match action {
        Action::Created => concat("Created ", noun),
        Action::Updated => concat("Updated ", noun),
        Action::Deleted => concat("Deleted ", noun),
        Action::Merged => concat("Merged into ", noun),
        Action::Renamed => {
            let head = concat("Renamed ", noun);
            concat(head.as_str(), " to")
        },
        Action::ImportStarted => owned("Started import"),
        Action::ImportAccepted => concat("Accepted import as ", noun),
        Action::ImportDiscarded => owned("Discarded import"),
        Action::PasswordClaimed => owned("Claimed the password"),
        Action::PasswordChanged => owned("Changed the password"),
    }
}

/// A stored name as a page reads it: its underscores as spaces.
pub open spec fn spaced_of(s: Seq<char>) -> Seq<char> {
    s.map_values(|c: char| if c == '_' { ' ' } else { c })
}

/// A stored name as a page reads it: its underscores as spaces.
pub fn spaced(s: &str) -> (r: String)
    ensures
        r@ == spaced_of(s@),
{
    let v = crate::text::chars_of(s);
    let mut r = String::new();
    let mut i: usize = 0;
    while i < v.len()
        invariant
            i <= v.len(),
            v@ == s@,
            r@ == spaced_of(v@.take(i as int)),
        decreases v.len() - i,
    {
        let c = v[i];
        push_char(&mut r, if c == '_' { ' ' } else { c });
        assert(spaced_of(v@.take(i + 1)) =~= spaced_of(v@.take(i as int)).push(
            if c == '_' { ' ' } else { c },
        ));
        i = i + 1;
    }
    assert(v@.take(v.len() as int) =~= v@);
    r
}

/// The fields an update changed, as one line: each spaced out, separated by commas.
pub fn changed_fields(fields: &Vec<String>) -> (r: String)
    ensures
        r@ == join(fields@.map_values(|f: String| spaced_of(f@)), ", "@),
{
    let mut spaced_fields: Vec<String> = Vec::new();
    let mut i: usize = 0;
    while i < fields.len()
        invariant
            i <= fields.len(),
            spaced_fields@.len() == i,
            forall|k: int| 0 <= k < i ==> (#[trigger] spaced_fields@[k])@ == spaced_of(fields@[k]@),
        decreases fields.len() - i,
    {
        spaced_fields.push(spaced(fields[i].as_str()));
        i = i + 1;
    }
    assert(spaced_fields@.map_values(|f: String| f@) =~= fields@.map_values(
        |f: String| spaced_of(f@),
    ));
    join_strings(&spaced_fields, ", ")
}


/// What an audit event touched: the kind's name, its id and library, and the label it had.
pub struct EntityRef {
    pub kind: String,
    pub id: i64,
    pub library_id: Option<i64>,
    pub label: String,
}

/// One recorded change.
pub struct AuditEvent {
    pub action: Action,
    pub entity: Option<EntityRef>,
    /// The fields an update changed, by their stored names
    pub fields: Vec<String>,
}

/// One line of the audit log.
pub struct AuditEntry {
    /// The entry this one follows as part of one change; None for the first of a group
    pub group_id: Option<i64>,
    /// Unix seconds
    pub created_at: i64,
    /// What made the change, by its stored name
    pub source: String,
    pub event: AuditEvent,
}

/// One line of the audit log as the settings page shows it.
pub struct ShownEntry {
    pub heads_a_group: bool,
    pub source: String,
    pub summary: String,
    pub label: String,
    /// None when the entity is gone, or when the event names no entity
    pub href: Option<String>,
    /// "title, publisher", empty when the action is not an update
    pub fields: String,
}

/// An audit entry as the page shows it, given where its entity's page is, if it still has one.
pub fn shown_entry(entry: &AuditEntry, href: Option<String>) -> (r: ShownEntry)
    ensures
        r.heads_a_group == entry.group_id is None,
        r.source@ == spaced_of(entry.source@),
        r.summary@ == summary_of(
            entry.event.action,
            match entry.event.entity {
                Some(e) => e.kind@,
                None => seq![],
            },
        ),
        r.label@ == (match entry.event.entity {
            Some(e) => e.label@,
            None => seq![],
        }),
        r.href == (match entry.event.entity {
            Some(_) => href,
            None => None,
        }),
        r.fields@ == join(entry.event.fields@.map_values(|f: String| spaced_of(f@)), ", "@),
{
    let (noun, label, href) = match &entry.event.entity {
        Some(entity) => (entity.kind.as_str(), entity.label.clone(), href),
        None => ("", String::new(), None),
    };
    proof {
        reveal_strlit("");
    }
    ShownEntry {
        heads_a_group: entry.group_id.is_none(),
        source: spaced(entry.source.as_str()),
        summary: summary(entry.event.action, noun),
        label,
        href,
        fields: changed_fields(&entry.event.fields),
    }
}

} // verus!
