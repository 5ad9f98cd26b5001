//! The store: a text of one record per line, in the order in which the
//! records were added. Adding a record appends its line; deleting one writes
//! the whole text anew.
//!
//! Reading and writing the file is the caller's part. A line ends at a line
//! break; what follows the last break counts as a line if it is not empty.

use vstd::prelude::*;
use vstd::string::*;
use crate::json::{lemma_one_line_object, lemma_stands_part, one_line, stands_at};
use crate::plan::{
    decoded, encoded, lemma_round_trip, members_of, DecodeError, Fault, Plan, Record,
};
use crate::text::chars_of;

verus! {

/// A text that could not be loaded: the first line that is no record.
#[derive(Debug)]
pub struct LoadError {
    /// The line's index, counted from 0.
    pub index: usize,
    pub error: DecodeError,
}

/// The first position from `from` on that holds a line break, or the text's
/// length where there is none.
pub open spec fn line_end(text: Seq<char>, from: int) -> int
    decreases text.len() - from,
{
    if 0 <= from < text.len() && text[from] != '\n' {
        line_end(text, from + 1)
    } else {
        from
    }
}

/// The lines of a text from `from` on.
pub open spec fn lines_from(text: Seq<char>, from: int) -> Seq<Seq<char>>
    decreases text.len() - from,
{
    if 0 <= from < text.len() {
        let end = line_end(text, from);
        if from <= end < text.len() {
            seq![text.subrange(from, end)] + lines_from(text, end + 1)
        } else {
            seq![text.subrange(from, text.len() as int)]
        }
    } else {
        Seq::empty()
    }
}

/// The lines of a text.
pub open spec fn lines_of(text: Seq<char>) -> Seq<Seq<char>> {
    lines_from(text, 0)
}

/// What reading the lines one by one gives: every record, or the index of
/// the first line that is none, with what is wrong with it.
pub open spec fn loaded(lines: Seq<Seq<char>>) -> Result<Seq<Record>, (int, Fault)>
    decreases lines.len(),
{
    if lines.len() == 0 {
        Ok(Seq::empty())
    } else {
        match loaded(lines.drop_last()) {
            Ok(records) => match decoded(lines.last()) {
                Ok(r) => Ok(records.push(r)),
                Err(fault) => Err((lines.len() - 1, fault)),
            },
            Err(first) => Err(first),
        }
    }
}

/// A line and the line break that ends it.
pub open spec fn with_break(line: Seq<char>) -> Seq<char> {
    line + seq!['\n']
}

/// The line of a record as the store holds it: the record, then a line break.
pub open spec fn stored_line(r: Record) -> Seq<char> {
    with_break(encoded(r))
}

/// The text of a store that holds these records.
pub open spec fn store_text(records: Seq<Record>) -> Seq<char>
    decreases records.len(),
{
    if records.len() == 0 {
        Seq::empty()
    } else {
        stored_line(records[0]) + store_text(records.drop_first())
    }
}

/// The lines of a store that holds these records.
pub open spec fn encoded_all(records: Seq<Record>) -> Seq<Seq<char>> {
    Seq::new(records.len(), |i: int| encoded(records[i]))
}

/// Adding a record to a store appends its line to the store's text and
/// touches nothing before it.
pub proof fn lemma_append(records: Seq<Record>, r: Record)
    ensures
        store_text(records.push(r)) == store_text(records) + stored_line(r),
    decreases records.len(),
{
    let longer = records.push(r);
    if records.len() == 0 {
        assert(longer.drop_first() =~= Seq::<Record>::empty());
        assert(store_text(longer.drop_first()) =~= Seq::<char>::empty());
        assert(store_text(longer) =~= store_text(records) + stored_line(r));
    } else {
        lemma_append(records.drop_first(), r);
        assert(longer.drop_first() =~= records.drop_first().push(r));
        assert(longer[0] == records[0]);
        assert(store_text(longer) =~= store_text(records) + stored_line(r));
    }
}

proof fn lemma_line_end(text: Seq<char>, from: int, end: int)
    requires
        0 <= from <= end <= text.len(),
        forall|i: int| from <= i < end ==> text[i] != '\n',
        end < text.len() ==> text[end] == '\n',
    ensures
        line_end(text, from) == end,
    decreases end - from,
{
    if from < end {
        lemma_line_end(text, from + 1, end);
    }
}

proof fn lemma_lines_of_store(text: Seq<char>, from: int, records: Seq<Record>)
    requires
        stands_at(text, from, store_text(records)),
        from + store_text(records).len() == text.len(),
    ensures
        lines_from(text, from) == encoded_all(records),
    decreases records.len(),
{
    if records.len() == 0 {
        assert(encoded_all(records) =~= Seq::<Seq<char>>::empty());
    } else {
        let line = encoded(records[0]);
        let br = seq!['\n'];
        let tail = records.drop_first();
        let rest = store_text(tail);
        let end = from + line.len();
        lemma_one_line_object(members_of(records[0]));
        assert(store_text(records) =~= Seq::<char>::empty() + line + (br + rest));
        lemma_stands_part(text, from, Seq::empty(), line, br + rest);
        assert(store_text(records) =~= line + br + rest);
        lemma_stands_part(text, from, line, br, rest);
        assert(text.subrange(end, end + 1)[0] == br[0]);
        assert(store_text(records) =~= (line + br) + rest + Seq::<char>::empty());
        lemma_stands_part(text, from, line + br, rest, Seq::empty());
        assert forall|i: int| from <= i < end implies text[i] != '\n' by {
            assert(text.subrange(from, end)[i - from] == line[i - from]);
        }
        lemma_line_end(text, from, end);
        lemma_lines_of_store(text, end + 1, tail);
        assert(seq![line] + encoded_all(tail) =~= encoded_all(records));
    }
}

proof fn lemma_loaded_encoded(records: Seq<Record>)
    ensures
        loaded(encoded_all(records)) == Ok::<Seq<Record>, (int, Fault)>(records),
    decreases records.len(),
{
    let lines = encoded_all(records);
    if records.len() == 0 {
        assert(records =~= Seq::<Record>::empty());
    } else {
        lemma_loaded_encoded(records.drop_last());
        assert(lines.drop_last() =~= encoded_all(records.drop_last()));
        lemma_round_trip(records.last());
        assert(records.drop_last().push(records.last()) =~= records);
    }
}

/// Loading the text of a store gives the records that it holds, each one and
/// in their order.
pub proof fn lemma_load_store(records: Seq<Record>)
    ensures
        lines_of(store_text(records)) == encoded_all(records),
        loaded(lines_of(store_text(records))) == Ok::<Seq<Record>, (int, Fault)>(records),
{
    let text = store_text(records);
    assert(text.subrange(0, text.len() as int) =~= text);
    lemma_lines_of_store(text, 0, records);
    lemma_loaded_encoded(records);
}

proof fn lemma_lines_then_line(text: Seq<char>, line: Seq<char>, from: int)
    requires
        0 <= from <= text.len(),
        text.len() > 0 ==> text.last() == '\n',
        one_line(line),
        line.len() > 0,
    ensures
        lines_from(text + with_break(line), from) == lines_from(text, from).push(line),
    decreases text.len() - from,
{
    let tail = with_break(line);
    let whole = text + tail;
    if from == text.len() {
        assert forall|i: int| from <= i < from + line.len() implies whole[i] != '\n' by {
            assert(whole[i] == line[i - from]);
        }
        assert(whole[from + line.len()] == '\n');
        lemma_line_end(whole, from, from + line.len());
        assert(whole.subrange(from, from + line.len()) =~= line);
        assert(lines_from(whole, from + line.len() + 1) =~= Seq::<Seq<char>>::empty());
        assert(lines_from(text, from) =~= Seq::<Seq<char>>::empty());
        assert(seq![line] + Seq::<Seq<char>>::empty() =~= Seq::<Seq<char>>::empty().push(line));
    } else {
        let end = line_end(text, from);
        lemma_line_end_in(text, from);
        assert(end < text.len()) by {
            if end == text.len() {
                assert(text[text.len() - 1] != '\n');
            }
        }
        assert forall|i: int| from <= i < end implies whole[i] != '\n' by {
            assert(whole[i] == text[i]);
        }
        assert(whole[end] == text[end]);
        lemma_line_end(whole, from, end);
        assert(whole.subrange(from, end) =~= text.subrange(from, end));
        lemma_lines_then_line(text, line, end + 1);
        assert(seq![text.subrange(from, end)] + lines_from(text, end + 1).push(line) =~= (
        seq![text.subrange(from, end)] + lines_from(text, end + 1)).push(line));
    }
}

proof fn lemma_line_end_in(text: Seq<char>, from: int)
    requires
        0 <= from <= text.len(),
    ensures
        from <= line_end(text, from) <= text.len(),
        forall|i: int| from <= i < line_end(text, from) ==> text[i] != '\n',
        line_end(text, from) < text.len() ==> text[line_end(text, from)] == '\n',
    decreases text.len() - from,
{
    if from < text.len() && text[from] != '\n' {
        lemma_line_end_in(text, from + 1);
    }
}

/// Appending a plan's line to a text that is empty or ends in a line break
/// adds that line after the text's lines and changes none of them. If the
/// text loaded as some plans, it now loads as those and then the new one.
pub proof fn lemma_append_line(text: Seq<char>, r: Record)
    requires
        text.len() > 0 ==> text.last() == '\n',
    ensures
        lines_of(text + stored_line(r)) == lines_of(text).push(encoded(r)),
        loaded(lines_of(text)) matches Ok(records) ==> loaded(lines_of(text + stored_line(r)))
            == Ok::<Seq<Record>, (int, Fault)>(records.push(r)),
{
    lemma_one_line_object(members_of(r));
    lemma_lines_then_line(text, encoded(r), 0);
    lemma_round_trip(r);
    let after = lines_of(text).push(encoded(r));
    assert(after.drop_last() =~= lines_of(text));
}

/// A line that fails makes every longer list of lines fail in the same way.
proof fn lemma_first_failure(lines: Seq<Seq<char>>, upto: int)
    requires
        0 <= upto <= lines.len(),
        loaded(lines.take(upto)) is Err,
    ensures
        loaded(lines) == loaded(lines.take(upto)),
    decreases lines.len() - upto,
{
    if upto == lines.len() {
        assert(lines.take(upto) =~= lines);
    } else {
        assert(lines.take(upto + 1).drop_last() =~= lines.take(upto));
        lemma_first_failure(lines, upto + 1);
    }
}

/// The lines of a text.
pub fn split_lines(text: &str) -> (lines: Vec<String>)
    ensures
        lines.deep_view() == lines_of(text@),
{
    let chars: Vec<char> = chars_of(text);
    let mut lines: Vec<String> = Vec::new();
    let mut current = String::new();
    let mut start: usize = 0;
    let mut i: usize = 0;
    assert(lines.deep_view() =~= Seq::<Seq<char>>::empty());
    assert(chars@.subrange(0, 0) =~= Seq::<char>::empty());
    while i < chars.len()
        invariant
            chars@ == text@,
            start <= i <= chars.len(),
            lines_of(text@) == lines.deep_view() + lines_from(text@, start as int),
            current@ == text@.subrange(start as int, i as int),
            forall|j: int| start <= j < i ==> text@[j] != '\n',
        decreases chars.len() - i,
    {
        let c: char = chars[i];
        if c == '\n' {
            proof {
                lemma_line_end(text@, start as int, i as int);
                let before = lines.deep_view();
                let line = current@;
                let rest = lines_from(text@, i + 1);
                assert(before + (seq![line] + rest) =~= before.push(line) + rest);
                assert(text@.subrange(i + 1, i + 1) =~= Seq::<char>::empty());
            }
            let ghost before = lines.deep_view();
            let ghost line = current@;
            lines.push(current);
            assert(lines.deep_view() =~= before.push(line));
            current = String::new();
            start = i + 1;
        } else {
            current.push(c);
            assert(current@ =~= text@.subrange(start as int, i + 1));
        }
        i += 1;
    }
    if start < i {
        proof {
            lemma_line_end(text@, start as int, i as int);
            let before = lines.deep_view();
            assert(before + seq![current@] =~= before.push(current@));
        }
        let ghost before = lines.deep_view();
        let ghost line = current@;
        lines.push(current);
        assert(lines.deep_view() =~= before.push(line));
    } else {
        assert(lines.deep_view() + Seq::<Seq<char>>::empty() =~= lines.deep_view());
    }
    lines
}

/// The plans that a store's text holds, in its order. The first line that is
/// no record fails the whole load.
pub fn load(text: &str) -> (r: Result<Vec<Plan>, LoadError>)
    ensures
        match r {
            Ok(plans) => loaded(lines_of(text@)) == Ok::<Seq<Record>, (int, Fault)>(
                plans.deep_view(),
            ),
            Err(e) => {
                &&& loaded(lines_of(text@)) == Err::<Seq<Record>, (int, Fault)>(
                    (e.index as int, e.error.fault),
                )
                &&& e.index < lines_of(text@).len()
                &&& e.error.line@ == lines_of(text@)[e.index as int]
            },
        },
{
    let lines: Vec<String> = split_lines(text);
    let mut plans: Vec<Plan> = Vec::new();
    let mut i: usize = 0;
    assert(lines.deep_view().take(0) =~= Seq::<Seq<char>>::empty());
    assert(plans.deep_view() =~= Seq::<Record>::empty());
    while i < lines.len()
        invariant
            i <= lines.len(),
            lines.deep_view() == lines_of(text@),
            loaded(lines.deep_view().take(i as int)) == Ok::<Seq<Record>, (int, Fault)>(
                plans.deep_view(),
            ),
        decreases lines.len() - i,
    {
        let ghost all = lines.deep_view();
        assert(all.take(i + 1).drop_last() =~= all.take(i as int));
        assert(all.take(i + 1).last() == all[i as int]);
        assert(all[i as int] == lines[i as int]@);
        match Plan::parse(lines[i].as_str()) {
            Ok(plan) => {
                let ghost before = plans.deep_view();
                let ghost record = plan@;
                plans.push(plan);
                assert(plans.deep_view() =~= before.push(record));
            },
            Err(error) => {
                proof {
                    lemma_first_failure(all, i + 1);
                }
                return Err(LoadError { index: i, error });
            },
        }
        i += 1;
    }
    assert(lines.deep_view().take(i as int) =~= lines.deep_view());
    Ok(plans)
}

/// What adding a plan appends to the store's text: the plan's line and a
/// line break.
pub fn line_for(plan: &Plan) -> (line: String)
    ensures
        line@ == stored_line(plan@),
{
    let mut line = plan.encode();
    line.push('\n');
    line
}

/// The text of a store that holds these plans.
pub fn render(plans: &Vec<Plan>) -> (text: String)
    ensures
        text@ == store_text(plans.deep_view()),
{
    let mut text = String::new();
    let mut i: usize = 0;
    assert(plans.deep_view().take(0) =~= Seq::<Record>::empty());
    while i < plans.len()
        invariant
            i <= plans.len(),
            text@ == store_text(plans.deep_view().take(i as int)),
        decreases plans.len() - i,
    {
        let line = line_for(&plans[i]);
        proof {
            let all = plans.deep_view();
            lemma_append(all.take(i as int), all[i as int]);
            assert(all.take(i + 1) =~= all.take(i as int).push(all[i as int]));
            assert(all[i as int] == plans[i as int]@);
        }
        text.append(line.as_str());
        i += 1;
    }
    assert(plans.deep_view().take(i as int) =~= plans.deep_view());
    text
}

/// Takes the plan at `index` out of the list and gives the text that the
/// store has to hold from then on. The plans that are left keep their order,
/// and loading the text gives exactly them.
pub fn delete_at(plans: &mut Vec<Plan>, index: usize) -> (text: String)
    requires
        index < old(plans).len(),
    ensures
        final(plans).deep_view() == old(plans).deep_view().remove(index as int),
        final(plans).len() == old(plans).len() - 1,
        text@ == store_text(final(plans).deep_view()),
        loaded(lines_of(text@)) == Ok::<Seq<Record>, (int, Fault)>(final(plans).deep_view()),
{
    let ghost before = plans.deep_view();
    plans.remove(index);
    assert(plans.deep_view() =~= before.remove(index as int));
    proof {
        lemma_load_store(plans.deep_view());
    }
    render(plans)
}

/// Where the writing of a new store text stands. The text goes to a side
/// file first and takes the store's place only once it is whole, so that the
/// store never holds a part of it.
#[derive(Clone, Copy, Debug, PartialEq, Eq, Structural)]
pub enum Rewrite {
    /// Next, the new text is written to the side file.
    Staging,
    /// Next, the side file takes the store's place.
    Swapping,
    /// The store holds the new text.
    Done,
    /// A step failed, and the store holds what it held before.
    Failed,
}

/// What the disk holds: the store's text, and the side file's if there is one.
pub struct Disk {
    pub store: Seq<char>,
    pub side: Option<Seq<char>>,
}

impl Rewrite {
    /// Where the rewrite stands after the step that was due went well or
    /// failed.
    pub open spec fn followed(self, ok: bool) -> Rewrite {
        match self {
            Rewrite::Staging => if ok { Rewrite::Swapping } else { Rewrite::Failed },
            Rewrite::Swapping => if ok { Rewrite::Done } else { Rewrite::Failed },
            Rewrite::Done => Rewrite::Done,
            Rewrite::Failed => Rewrite::Failed,
        }
    }

    /// What the step that is due does to the disk. Writing the side file
    /// leaves the store alone, and where it fails the side file may hold
    /// anything, `debris`. Putting the side file in the store's place happens
    /// at once or not at all.
    pub open spec fn disk_after(
        self,
        disk: Disk,
        text: Seq<char>,
        ok: bool,
        debris: Option<Seq<char>>,
    ) -> Disk {
        match self {
            Rewrite::Staging => Disk { store: disk.store, side: if ok { Some(text) } else { debris } },
            Rewrite::Swapping => match disk.side {
                Some(staged) => if ok { Disk { store: staged, side: None } } else { disk },
                None => disk,
            },
            _ => disk,
        }
    }

    /// The disk and the rewrite's state after a run of steps, each with its
    /// outcome.
    pub open spec fn run(
        self,
        disk: Disk,
        text: Seq<char>,
        outcomes: Seq<(bool, Option<Seq<char>>)>,
    ) -> (Disk, Rewrite)
        decreases outcomes.len(),
    {
        if outcomes.len() == 0 {
            (disk, self)
        } else {
            self.followed(outcomes[0].0).run(
                self.disk_after(disk, text, outcomes[0].0, outcomes[0].1),
                text,
                outcomes.drop_first(),
            )
        }
    }

    /// A rewrite that has not begun.
    pub fn start() -> (r: Rewrite)
        ensures
            r == Rewrite::Staging,
    {
        Rewrite::Staging
    }

    /// Where the rewrite stands once the step that was due went well
    /// (`ok`) or failed.
    pub fn after(self, ok: bool) -> (r: Rewrite)
        ensures
            r == self.followed(ok),
    {
        match self {
            Rewrite::Staging => if ok { Rewrite::Swapping } else { Rewrite::Failed },
            Rewrite::Swapping => if ok { Rewrite::Done } else { Rewrite::Failed },
            Rewrite::Done => Rewrite::Done,
            Rewrite::Failed => Rewrite::Failed,
        }
    }

    /// Whether a step is still due.
    pub fn pending(self) -> (r: bool)
        ensures
            r == (self == Rewrite::Staging || self == Rewrite::Swapping),
    {
        match self {
            Rewrite::Staging => true,
            Rewrite::Swapping => true,
            _ => false,
        }
    }
}

/// What holds of the disk at each state of a rewrite that began on a store
/// holding `old_text`.
spec fn rewrite_inv(state: Rewrite, disk: Disk, old_text: Seq<char>, text: Seq<char>)
    -> bool {
    match state {
        Rewrite::Staging => disk.store == old_text,
        Rewrite::Swapping => disk.store == old_text && disk.side == Some(text),
        Rewrite::Done => disk.store == text,
        Rewrite::Failed => disk.store == old_text,
    }
}

proof fn lemma_rewrite_run(
    state: Rewrite,
    disk: Disk,
    old_text: Seq<char>,
    text: Seq<char>,
    outcomes: Seq<(bool, Option<Seq<char>>)>,
)
    requires
        rewrite_inv(state, disk, old_text, text),
    ensures
        rewrite_inv(
            state.run(disk, text, outcomes).1,
            state.run(disk, text, outcomes).0,
            old_text,
            text,
        ),
    decreases outcomes.len(),
{
    if outcomes.len() > 0 {
        lemma_rewrite_run(
            state.followed(outcomes[0].0),
            state.disk_after(disk, text, outcomes[0].0, outcomes[0].1),
            old_text,
            text,
            outcomes.drop_first(),
        );
    }
}

/// However far a rewrite gets and whichever of its steps fails, the store
/// holds the new text if the rewrite is done, and else the text it held
/// before: never a part of either.
pub proof fn lemma_rewrite_atomic(
    disk: Disk,
    text: Seq<char>,
    outcomes: Seq<(bool, Option<Seq<char>>)>,
)
    ensures
        ({
            let (end, state) = Rewrite::Staging.run(disk, text, outcomes);
            end.store == (if state == Rewrite::Done { text } else { disk.store })
        }),
{
    lemma_rewrite_run(Rewrite::Staging, disk, disk.store, text, outcomes);
}

/// A delete that is interrupted leaves a store that loads as before the
/// delete; one that is done leaves a store that loads without the deleted
/// record, the others in their order.
pub proof fn lemma_delete_atomic(
    records: Seq<Record>,
    index: int,
    side: Option<Seq<char>>,
    outcomes: Seq<(bool, Option<Seq<char>>)>,
)
    requires
        0 <= index < records.len(),
    ensures
        ({
            let disk = Disk { store: store_text(records), side };
            let (end, state) = Rewrite::Staging.run(
                disk,
                store_text(records.remove(index)),
                outcomes,
            );
            loaded(lines_of(end.store)) == Ok::<Seq<Record>, (int, Fault)>(
                if state == Rewrite::Done { records.remove(index) } else { records },
            )
        }),
{
    let disk = Disk { store: store_text(records), side };
    lemma_rewrite_atomic(disk, store_text(records.remove(index)), outcomes);
    lemma_load_store(records);
    lemma_load_store(records.remove(index));
}

} // verus!
