//! The interactive session: the loaded plans, the highlighted entry and the
//! pending confirmation, driven one key at a time.
//!
//! Moving past either end of the list stays on the end entry: the cursor is
//! clamped, it does not wrap.

use vstd::prelude::*;
use vstd::string::*;
use crate::plan::{time_label, Plan, Record};
use crate::store::{delete_at, lines_of, loaded, store_text};

verus! {

/// The question that stands over the list while a delete waits for its
/// answer.
pub const CONFIRM_PROMPT: &'static str = "Are you sure you want to delete this plan? (y/n)";

/// What the session is waiting for.
#[derive(Clone, Copy, Debug, PartialEq, Eq, Structural)]
pub enum Mode {
    /// Moving through the list.
    Browsing,
    /// Asking whether the entry at this index is to be deleted.
    ConfirmingDelete(usize),
}

/// A key as the terminal reports it.
#[derive(Clone, Copy, Debug, PartialEq, Eq, Structural)]
pub enum Press {
    Char(char),
    Escape,
    Other,
}

/// A key press, reduced to what the session reacts to.
#[derive(Clone, Copy, Debug, PartialEq, Eq, Structural)]
pub enum Key {
    MoveDown,
    MoveUp,
    DeleteRequest,
    ConfirmYes,
    ConfirmNo,
    Quit,
    Other,
}

/// What the caller has to do after a key was handled.
#[derive(Debug, PartialEq, Eq)]
pub enum Effect {
    /// Nothing beyond drawing the session again.
    Nothing,
    /// Leave the session loop.
    Quit,
    /// A plan was deleted: the store has to hold this text from now on.
    Rewrite(String),
}

/// An effect as plain values.
pub enum Outcome {
    Nothing,
    Quit,
    Rewrite(Seq<char>),
}

impl View for Effect {
    type V = Outcome;

    open spec fn view(&self) -> Outcome {
        match self {
            Effect::Nothing => Outcome::Nothing,
            Effect::Quit => Outcome::Quit,
            Effect::Rewrite(text) => Outcome::Rewrite(text@),
        }
    }
}

/// One line of the list.
#[derive(Debug)]
pub struct Row {
    pub title: String,
    pub description: String,
    /// When the plan was made, as it is shown.
    pub time: String,
}

/// What there is to draw.
#[derive(Debug)]
pub struct Screen {
    pub rows: Vec<Row>,
    /// The index of the row that is highlighted.
    pub highlighted: Option<usize>,
    /// The question to lay over the list, if one is open.
    pub prompt: Option<String>,
}

/// A row as plain values.
pub struct RowText {
    pub title: Seq<char>,
    pub description: Seq<char>,
    pub time: Seq<char>,
}

/// A screen as plain values.
pub struct Picture {
    pub rows: Seq<RowText>,
    pub highlighted: Option<usize>,
    pub prompt: Option<Seq<char>>,
}

impl DeepView for Row {
    type V = RowText;

    open spec fn deep_view(&self) -> RowText {
        RowText { title: self.title@, description: self.description@, time: self.time@ }
    }
}

impl View for Screen {
    type V = Picture;

    open spec fn view(&self) -> Picture {
        Picture {
            rows: self.rows.deep_view(),
            highlighted: self.highlighted,
            prompt: match self.prompt {
                Some(text) => Some(text@),
                None => None,
            },
        }
    }
}

/// The row that shows a plan.
pub open spec fn row_of(r: Record) -> RowText {
    RowText { title: r.title, description: r.description, time: time_label(r) }
}

/// The key that a press stands for: `j` and `k` move, `D` asks for a delete,
/// `y` confirms, `n` and escape decline, `q` quits.
pub open spec fn key_of(press: Press) -> Key {
    match press {
        Press::Char(c) => if c == 'j' {
            Key::MoveDown
        } else if c == 'k' {
            Key::MoveUp
        } else if c == 'D' {
            Key::DeleteRequest
        } else if c == 'y' {
            Key::ConfirmYes
        } else if c == 'n' {
            Key::ConfirmNo
        } else if c == 'q' {
            Key::Quit
        } else {
            Key::Other
        },
        Press::Escape => Key::ConfirmNo,
        Press::Other => Key::Other,
    }
}

/// The session as plain values.
pub struct State {
    pub plans: Seq<Record>,
    pub cursor: Option<usize>,
    pub mode: Mode,
}

impl State {
    /// The cursor is absent exactly when there is no plan, and every index
    /// held points at a plan.
    pub open spec fn wf(self) -> bool {
        &&& self.cursor is None <==> self.plans.len() == 0
        &&& self.cursor matches Some(c) ==> c < self.plans.len()
        &&& self.mode matches Mode::ConfirmingDelete(i) ==> i < self.plans.len()
    }

    /// The cursor over a list of `len` entries, brought back into range.
    pub open spec fn clamped(cursor: Option<usize>, len: nat) -> Option<usize> {
        if len == 0 {
            None
        } else {
            match cursor {
                Some(c) => if c < len { Some(c) } else { Some((len - 1) as usize) },
                None => Some(0usize),
            }
        }
    }

    /// The session at its start: browsing, on the first plan if there is one.
    pub open spec fn initial(plans: Seq<Record>) -> State {
        State {
            plans,
            cursor: if plans.len() == 0 { None } else { Some(0usize) },
            mode: Mode::Browsing,
        }
    }

    /// The session after `key`. A key that means nothing in the present mode
    /// changes nothing.
    pub open spec fn next(self, key: Key) -> State {
        match self.mode {
            Mode::Browsing => match (key, self.cursor) {
                (Key::MoveDown, Some(c)) => State {
                    cursor: if c + 1 < self.plans.len() { Some((c + 1) as usize) } else { Some(c) },
                    ..self
                },
                (Key::MoveUp, Some(c)) => State {
                    cursor: if c > 0 { Some((c - 1) as usize) } else { Some(c) },
                    ..self
                },
                (Key::DeleteRequest, Some(c)) => State { mode: Mode::ConfirmingDelete(c), ..self },
                _ => self,
            },
            Mode::ConfirmingDelete(i) => match key {
                Key::ConfirmYes => State {
                    plans: self.plans.remove(i as int),
                    cursor: State::clamped(self.cursor, (self.plans.len() - 1) as nat),
                    mode: Mode::Browsing,
                },
                Key::ConfirmNo => State { mode: Mode::Browsing, ..self },
                _ => self,
            },
        }
    }

    /// What `key` asks of the caller.
    pub open spec fn effect(self, key: Key) -> Outcome {
        match (self.mode, key) {
            (Mode::Browsing, Key::Quit) => Outcome::Quit,
            (Mode::ConfirmingDelete(i), Key::ConfirmYes) => Outcome::Rewrite(
                store_text(self.plans.remove(i as int)),
            ),
            _ => Outcome::Nothing,
        }
    }

    /// What is drawn of the session.
    pub open spec fn picture(self) -> Picture {
        Picture {
            rows: Seq::new(self.plans.len(), |i: int| row_of(self.plans[i])),
            highlighted: self.cursor,
            prompt: match self.mode {
                Mode::ConfirmingDelete(_) => Some(CONFIRM_PROMPT@),
                Mode::Browsing => None,
            },
        }
    }
}

/// Whatever the key, a session that is well formed stays so.
pub proof fn lemma_next_wf(s: State, key: Key)
    requires
        s.wf(),
    ensures
        s.next(key).wf(),
{
}

/// Asking for a delete while browsing, with the cursor on plan `i`, leads to
/// the confirmation of `i`, and changes neither the plans nor the cursor nor
/// the store.
pub proof fn lemma_delete_request(s: State, i: usize)
    requires
        s.wf(),
        s.mode == Mode::Browsing,
        s.cursor == Some(i),
    ensures
        s.next(Key::DeleteRequest).mode == Mode::ConfirmingDelete(i),
        s.next(Key::DeleteRequest).plans == s.plans,
        s.next(Key::DeleteRequest).cursor == s.cursor,
        s.effect(Key::DeleteRequest) == Outcome::Nothing,
{
}

/// Declining a delete leads back to browsing, and changes neither the plans
/// nor the cursor nor the store.
pub proof fn lemma_confirm_no(s: State, i: usize)
    requires
        s.wf(),
        s.mode == Mode::ConfirmingDelete(i),
    ensures
        s.next(Key::ConfirmNo).mode == Mode::Browsing,
        s.next(Key::ConfirmNo).plans == s.plans,
        s.next(Key::ConfirmNo).cursor == s.cursor,
        s.effect(Key::ConfirmNo) == Outcome::Nothing,
{
}

/// Confirming a delete takes plan `i` out, leaves the others in their order,
/// and asks for a store that loads as exactly the plans that are left.
pub proof fn lemma_confirm_yes(s: State, i: usize)
    requires
        s.wf(),
        s.mode == Mode::ConfirmingDelete(i),
    ensures
        s.next(Key::ConfirmYes).mode == Mode::Browsing,
        s.next(Key::ConfirmYes).plans == s.plans.remove(i as int),
        s.next(Key::ConfirmYes).plans.len() == s.plans.len() - 1,
        s.effect(Key::ConfirmYes) matches Outcome::Rewrite(text) && loaded(lines_of(text)) == Ok::<
            Seq<Record>,
            (int, crate::plan::Fault),
        >(s.next(Key::ConfirmYes).plans),
{
    crate::store::lemma_load_store(s.plans.remove(i as int));
}

impl Key {
    /// The key that a press stands for.
    pub fn from_press(press: Press) -> (key: Key)
        ensures
            key == key_of(press),
    {
        match press {
            Press::Char(c) => if c == 'j' {
                Key::MoveDown
            } else if c == 'k' {
                Key::MoveUp
            } else if c == 'D' {
                Key::DeleteRequest
            } else if c == 'y' {
                Key::ConfirmYes
            } else if c == 'n' {
                Key::ConfirmNo
            } else if c == 'q' {
                Key::Quit
            } else {
                Key::Other
            },
            Press::Escape => Key::ConfirmNo,
            Press::Other => Key::Other,
        }
    }
}

/// A running session.
pub struct Session {
    plans: Vec<Plan>,
    cursor: Option<usize>,
    mode: Mode,
}

impl View for Session {
    type V = State;

    closed spec fn view(&self) -> State {
        State { plans: self.plans.deep_view(), cursor: self.cursor, mode: self.mode }
    }
}

impl Session {
    #[verifier::type_invariant]
    spec fn inv(self) -> bool {
        self@.wf()
    }

    /// A session over the loaded plans: browsing, with the first plan
    /// highlighted if there is one.
    pub fn new(plans: Vec<Plan>) -> (s: Session)
        ensures
            s@ == State::initial(plans.deep_view()),
            s@.wf(),
    {
        let cursor = if plans.len() == 0 { None } else { Some(0usize) };
        Session { plans, cursor, mode: Mode::Browsing }
    }

    /// Handles one key: the session that follows, and what is left for the
    /// caller to do.
    pub fn step(self, key: Key) -> (r: (Session, Effect))
        ensures
            r.0@ == self@.next(key),
            r.1@ == self@.effect(key),
            r.0@.wf(),
    {
        proof {
            use_type_invariant(&self);
        }
        let Session { mut plans, cursor, mode } = self;
        match mode {
            Mode::Browsing => match (key, cursor) {
                (Key::MoveDown, Some(c)) => {
                    assert(c < plans.len()) by {
                        assert(plans.deep_view().len() == plans.len());
                    }
                    let moved: usize = if c + 1 < plans.len() { c + 1 } else { c };
                    (Session { plans, cursor: Some(moved), mode }, Effect::Nothing)
                },
                (Key::MoveUp, Some(c)) => {
                    let moved: usize = if c > 0 { c - 1 } else { c };
                    (Session { plans, cursor: Some(moved), mode }, Effect::Nothing)
                },
                (Key::DeleteRequest, Some(c)) => {
                    (Session { plans, cursor, mode: Mode::ConfirmingDelete(c) }, Effect::Nothing)
                },
                (Key::Quit, _) => (Session { plans, cursor, mode }, Effect::Quit),
                _ => (Session { plans, cursor, mode }, Effect::Nothing),
            },
            Mode::ConfirmingDelete(i) => match key {
                Key::ConfirmYes => {
                    assert(plans.deep_view().len() == plans.len());
                    let text = delete_at(&mut plans, i);
                    let left: usize = plans.len();
                    let kept: Option<usize> = if left == 0 {
                        None
                    } else {
                        match cursor {
                            Some(c) => if c < left { Some(c) } else { Some(left - 1) },
                            None => Some(0),
                        }
                    };
                    (Session { plans, cursor: kept, mode: Mode::Browsing }, Effect::Rewrite(text))
                },
                Key::ConfirmNo => {
                    (Session { plans, cursor, mode: Mode::Browsing }, Effect::Nothing)
                },
                _ => (Session { plans, cursor, mode }, Effect::Nothing),
            },
        }
    }

    /// What there is to draw: a row for each plan, the highlighted row, and
    /// the question while a delete waits for its answer.
    pub fn screen(&self) -> (screen: Screen)
        ensures
            screen@ == self@.picture(),
    {
        let mut rows: Vec<Row> = Vec::new();
        let mut i: usize = 0;
        while i < self.plans.len()
            invariant
                i <= self.plans.len(),
                rows.len() == i,
                forall|j: int|
                    0 <= j < i ==> (#[trigger] rows[j]).deep_view() == row_of(self.plans[j]@),
            decreases self.plans.len() - i,
        {
            let plan = &self.plans[i];
            rows.push(
                Row {
                    title: plan.title.clone(),
                    description: plan.description.clone(),
                    time: plan.time_label(),
                },
            );
            i += 1;
        }
        let prompt: Option<String> = match self.mode {
            Mode::ConfirmingDelete(_) => Some(String::from_str(CONFIRM_PROMPT)),
            Mode::Browsing => None,
        };
        let screen = Screen { rows, highlighted: self.cursor, prompt };
        assert(screen@.rows =~= self@.picture().rows) by {
            assert forall|j: int| 0 <= j < screen.rows.len() implies screen@.rows[j]
                == self@.picture().rows[j] by {
                assert(screen.rows[j].deep_view() == row_of(self.plans[j]@));
                assert(self.plans.deep_view()[j] == self.plans[j]@);
            }
        }
        screen
    }

    /// The plans, in the order in which they are shown.
    pub fn plans(&self) -> (r: &Vec<Plan>)
        ensures
            r.deep_view() == self@.plans,
    {
        &self.plans
    }

    /// The index of the highlighted plan.
    pub fn cursor(&self) -> (r: Option<usize>)
        ensures
            r == self@.cursor,
    {
        self.cursor
    }

    /// What the session is waiting for.
    pub fn mode(&self) -> (r: Mode)
        ensures
            r == self@.mode,
    {
        self.mode
    }
}

} // verus!
