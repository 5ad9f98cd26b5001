//! The plan record: a title, a description and the moment it was written
//! down, kept as two RFC 3339 texts of one instant. A record is written as
//! one line: a JSON object with exactly these four members, each a string.

use vstd::prelude::*;
use vstd::string::*;
use crate::clock::{display_text, display_time, local_text, utc_text, Instant};
use crate::json::{
    lemma_one_line_object, lemma_scan_object_text, member_text, members_text, object_text,
    one_line, push_quoted, read_object, scan_object, Member,
};
use crate::text::{blank, is_blank};

verus! {

/// What a plan holds, as plain text: the model that contracts speak of.
pub struct Record {
    pub title: Seq<char>,
    pub description: Seq<char>,
    pub created_utc: Seq<char>,
    pub created_local: Seq<char>,
}

/// One entry of the planner.
#[derive(Debug)]
pub struct Plan {
    pub title: String,
    pub description: String,
    /// The creation time in UTC.
    pub created_utc: String,
    /// The same instant at the planner's local offset.
    pub created_local: String,
}

/// Why a plan could not be made.
#[derive(Clone, Copy, Debug, PartialEq, Eq, Structural)]
pub enum CreateError {
    /// Nothing is left of the title once it is trimmed.
    BlankTitle,
}

/// What is wrong with a line that is no record.
#[derive(Clone, Copy, Debug, PartialEq, Eq, Structural)]
pub enum Fault {
    /// The line is not one JSON object of string members.
    Syntax,
    /// The object's members are not the four of a record, each once.
    Fields,
}

/// A line that could not be read as a record.
#[derive(Debug)]
pub struct DecodeError {
    /// The line as it was given.
    pub line: String,
    pub fault: Fault,
}

impl View for Plan {
    type V = Record;

    open spec fn view(&self) -> Record {
        Record {
            title: self.title@,
            description: self.description@,
            created_utc: self.created_utc@,
            created_local: self.created_local@,
        }
    }
}

impl DeepView for Plan {
    type V = Record;

    open spec fn deep_view(&self) -> Record {
        self@
    }
}

/// The value of the first member with the given key.
pub open spec fn lookup(members: Seq<Member>, key: Seq<char>) -> Option<Seq<char>>
    decreases members.len(),
{
    if members.len() == 0 {
        None
    } else if members[0].0 == key {
        Some(members[0].1)
    } else {
        lookup(members.drop_first(), key)
    }
}

/// A record's four members, in the order in which they are written.
pub open spec fn members_of(r: Record) -> Seq<Member> {
    seq![
        ("title"@, r.title),
        ("description"@, r.description),
        ("created_utc"@, r.created_utc),
        ("created_local"@, r.created_local),
    ]
}

/// The record that four members make: one of each key, in any order.
pub open spec fn record_of(members: Seq<Member>) -> Option<Record> {
    if members.len() == 4 {
        match (
            lookup(members, "title"@),
            lookup(members, "description"@),
            lookup(members, "created_utc"@),
            lookup(members, "created_local"@),
        ) {
            (Some(title), Some(description), Some(created_utc), Some(created_local)) => Some(
                Record { title, description, created_utc, created_local },
            ),
            _ => None,
        }
    } else {
        None
    }
}

/// The line that holds a record.
pub open spec fn encoded(r: Record) -> Seq<char> {
    object_text(members_of(r))
}

/// The record that a line holds, or what is wrong with the line.
pub open spec fn decoded(line: Seq<char>) -> Result<Record, Fault> {
    match scan_object(line) {
        Some(members) => match record_of(members) {
            Some(r) => Ok(r),
            None => Err(Fault::Fields),
        },
        None => Err(Fault::Syntax),
    }
}

/// How a plan's time is shown: under the display pattern, or as it is stored
/// where the stored text cannot be read as a time.
pub open spec fn time_label(r: Record) -> Seq<char> {
    match display_text(r.created_local) {
        Some(text) => text,
        None => r.created_local,
    }
}

proof fn lemma_keys_differ()
    ensures
        "title"@ != "description"@,
        "title"@ != "created_utc"@,
        "title"@ != "created_local"@,
        "description"@ != "created_utc"@,
        "description"@ != "created_local"@,
        "created_utc"@ != "created_local"@,
{
    reveal_strlit("title");
    reveal_strlit("description");
    reveal_strlit("created_utc");
    reveal_strlit("created_local");
    assert("title"@.len() == 5);
    assert("description"@.len() == 11);
    assert("created_utc"@.len() == 11);
    assert("created_local"@.len() == 13);
    assert("description"@[0] == 'd');
    assert("created_utc"@[0] == 'c');
}

/// The four members of a record make that record.
pub proof fn lemma_record_of_members(r: Record)
    ensures
        record_of(members_of(r)) == Some(r),
{
    lemma_keys_differ();
    let m0 = members_of(r);
    let m1 = m0.drop_first();
    let m2 = m1.drop_first();
    let m3 = m2.drop_first();
    assert(m1[0] == m0[1]);
    assert(m2[0] == m0[2]);
    assert(m3[0] == m0[3]);
    assert(lookup(m0, "title"@) == Some(r.title));
    assert(lookup(m1, "description"@) == Some(r.description));
    assert(lookup(m2, "created_utc"@) == Some(r.created_utc));
    assert(lookup(m3, "created_local"@) == Some(r.created_local));
    assert(lookup(m2, "created_local"@) == Some(r.created_local));
    assert(lookup(m1, "created_utc"@) == Some(r.created_utc));
    assert(lookup(m1, "created_local"@) == Some(r.created_local));
}

/// Reading the line that holds a record gives the record back, whatever its
/// four texts are.
pub proof fn lemma_round_trip(r: Record)
    ensures
        decoded(encoded(r)) == Ok::<Record, Fault>(r),
{
    lemma_scan_object_text(members_of(r));
    lemma_record_of_members(r);
}

/// Appends a member: key, colon, value.
fn push_member(out: &mut String, key: &str, value: &str)
    ensures
        final(out)@ == old(out)@ + member_text((key@, value@)),
{
    let ghost before = out@;
    push_quoted(out, key);
    out.push(':');
    push_quoted(out, value);
    assert(out@ =~= before + member_text((key@, value@)));
}

/// The index of the first member with the given key.
fn find(members: &Vec<(String, String)>, key: &str) -> (r: Option<usize>)
    ensures
        match r {
            Some(i) => i < members.len() && lookup(members.deep_view(), key@) == Some(
                members[i as int].1@,
            ),
            None => lookup(members.deep_view(), key@) is None,
        },
{
    let wanted: String = String::from_str(key);
    let mut i: usize = 0;
    assert(members.deep_view().skip(0) =~= members.deep_view());
    while i < members.len()
        invariant
            i <= members.len(),
            wanted@ == key@,
            lookup(members.deep_view(), key@) == lookup(members.deep_view().skip(i as int), key@),
        decreases members.len() - i,
    {
        let ghost rest = members.deep_view().skip(i as int);
        assert(rest[0] == members.deep_view()[i as int]);
        assert(members.deep_view()[i as int] == members[i as int].deep_view());
        assert(rest.drop_first() =~= members.deep_view().skip(i + 1));
        if members[i].0 == wanted {
            return Some(i);
        }
        i += 1;
    }
    None
}

impl Plan {
    /// A plan that is stamped with the instant `at`. The description may be
    /// empty; a title that is empty or all white space is refused.
    pub fn new(title: String, description: String, at: Instant) -> (r: Result<Plan, CreateError>)
        requires
            at.valid(),
        ensures
            match r {
                Ok(plan) => !is_blank(title@) && plan@ == (Record {
                    title: title@,
                    description: description@,
                    created_utc: utc_text(at),
                    created_local: local_text(at),
                }),
                Err(e) => is_blank(title@) && e == CreateError::BlankTitle,
            },
    {
        if blank(title.as_str()) {
            return Err(CreateError::BlankTitle);
        }
        let created_utc = at.utc_text();
        let created_local = at.local_text();
        Ok(Plan { title, description, created_utc, created_local })
    }

    /// The title.
    pub fn get_title(&self) -> (r: &str)
        ensures
            r@ == self@.title,
    {
        self.title.as_str()
    }

    /// The description.
    pub fn get_desc(&self) -> (r: &str)
        ensures
            r@ == self@.description,
    {
        self.description.as_str()
    }

    /// The creation time in UTC, as it is stored.
    pub fn get_time_utc(&self) -> (r: &str)
        ensures
            r@ == self@.created_utc,
    {
        self.created_utc.as_str()
    }

    /// The creation time at the local offset, as it is stored.
    pub fn get_time_local(&self) -> (r: &str)
        ensures
            r@ == self@.created_local,
    {
        self.created_local.as_str()
    }

    /// The line that holds this plan. It has no line break in it, and
    /// reading it gives the plan back.
    pub fn encode(&self) -> (line: String)
        ensures
            line@ == encoded(self@),
            one_line(line@),
            decoded(line@) == Ok::<Record, Fault>(self@),
    {
        let mut line = String::new();
        line.push('{');
        push_member(&mut line, "title", self.title.as_str());
        line.push(',');
        push_member(&mut line, "description", self.description.as_str());
        line.push(',');
        push_member(&mut line, "created_utc", self.created_utc.as_str());
        line.push(',');
        push_member(&mut line, "created_local", self.created_local.as_str());
        line.push('}');
        proof {
            let ms = members_of(self@);
            let m1 = ms.drop_first();
            let m2 = m1.drop_first();
            let m3 = m2.drop_first();
            assert(m1[0] == ms[1] && m2[0] == ms[2] && m3[0] == ms[3]);
            assert(members_text(m3) == member_text(ms[3]));
            assert(members_text(m2) == member_text(ms[2]) + seq![','] + member_text(ms[3]));
            assert(members_text(m1) == member_text(ms[1]) + seq![','] + members_text(m2));
            assert(members_text(ms) == member_text(ms[0]) + seq![','] + members_text(m1));
            assert(line@ =~= encoded(self@));
            lemma_one_line_object(ms);
            lemma_round_trip(self@);
        }
        line
    }

    /// The plan that a line holds. The line has to be one JSON object whose
    /// members are the four of a plan, each once and each a string; blanks
    /// may stand between the tokens and the members may come in any order.
    pub fn parse(json_line: &str) -> (r: Result<Plan, DecodeError>)
        ensures
            match r {
                Ok(plan) => decoded(json_line@) == Ok::<Record, Fault>(plan@),
                Err(e) => decoded(json_line@) == Err::<Record, Fault>(e.fault) && e.line@
                    == json_line@,
            },
    {
        let members: Vec<(String, String)> = match read_object(json_line) {
            Some(members) => members,
            None => {
                return Err(DecodeError { line: String::from_str(json_line), fault: Fault::Syntax });
            },
        };
        if members.len() == 4 {
            match (
                find(&members, "title"),
                find(&members, "description"),
                find(&members, "created_utc"),
                find(&members, "created_local"),
            ) {
                (Some(t), Some(d), Some(u), Some(l)) => {
                    return Ok(
                        Plan {
                            title: members[t].1.clone(),
                            description: members[d].1.clone(),
                            created_utc: members[u].1.clone(),
                            created_local: members[l].1.clone(),
                        },
                    );
                },
                _ => {},
            }
        }
        Err(DecodeError { line: String::from_str(json_line), fault: Fault::Fields })
    }

    /// The local creation time as day, month name, year and time of day, or
    /// nothing where the stored text cannot be read as a time.
    pub fn formatted_dt(&self) -> (r: Option<String>)
        ensures
            match r {
                Some(text) => display_text(self@.created_local) == Some(text@),
                None => display_text(self@.created_local) is None,
            },
    {
        display_time(self.created_local.as_str())
    }

    /// The creation time as the list shows it: formatted where that can be
    /// done, else the stored text as it is.
    pub fn time_label(&self) -> (label: String)
        ensures
            label@ == time_label(self@),
    {
        shown_or_stored(self.formatted_dt(), self.created_local.as_str())
    }
}

/// A time as the list shows it: the formatted text where there is one, else
/// the stored text as it is.
pub fn shown_or_stored(formatted: Option<String>, stored: &str) -> (label: String)
    ensures
        label@ == (match formatted {
            Some(text) => text@,
            None => stored@,
        }),
{
    match formatted {
        Some(text) => text,
        None => String::from_str(stored),
    }
}

} // verus!
