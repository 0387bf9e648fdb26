//! The question dialog: pages of questions with options and free answers.

use crate::keymap::{control_char, is_control_char, KeyCode, KeyEvent};
use crate::text::{blank, cat3, chars_of, dec, dec_u64, is_blank, string_of, texts, trim, trimmed};
use vstd::prelude::*;

verus! {

/// Whether questions are asked one by one or together.
#[derive(Clone, Copy, Debug, PartialEq, Eq, Structural)]
pub enum AskMode {
    Single,
    Batch,
}

/// A question.
#[derive(Clone, Debug)]
pub struct AskQuestion {
    pub id: String,
    pub question: String,
    pub options: Vec<String>,
    pub allow_custom: bool,
}

/// An answer.
#[derive(Clone, Debug, PartialEq, Eq)]
pub struct AskAnswer {
    pub question_id: String,
    pub answer: String,
}

/// An answer.
#[verifier::ext_equal]
pub struct AnswerView {
    pub question_id: Seq<char>,
    pub answer: Seq<char>,
}

impl View for AskAnswer {
    type V = AnswerView;

    open spec fn view(&self) -> AnswerView {
        AnswerView { question_id: self.question_id@, answer: self.answer@ }
    }
}

/// Answers.
pub open spec fn answers_view(v: Seq<AskAnswer>) -> Seq<AnswerView> {
    Seq::new(v.len(), |i: int| v[i]@)
}

/// The question dialog: the page shown, and for each question the chosen
/// option, the free answer and the marked row.
#[derive(Debug)]
pub struct AskPanel {
    pub interaction_id: String,
    pub turn_id: String,
    pub mode: AskMode,
    pub questions: Vec<AskQuestion>,
    pub focus: usize,
    pub scroll: u16,
    pub selections: Vec<Option<usize>>,
    pub customs: Vec<String>,
    pub option_cursor: Vec<usize>,
    /// The question whose free answer is being typed.
    pub editing_custom: Option<usize>,
    pub input: String,
    pub error: Option<String>,
}

/// The question dialog.
#[verifier::ext_equal]
pub struct AskView {
    pub interaction_id: Seq<char>,
    pub turn_id: Seq<char>,
    pub mode: AskMode,
    pub questions: Seq<AskQuestion>,
    pub focus: int,
    pub scroll: u16,
    pub selections: Seq<Option<usize>>,
    pub customs: Seq<Seq<char>>,
    pub cursors: Seq<usize>,
    pub editing: Option<usize>,
    pub input: Seq<char>,
    pub error: Option<Seq<char>>,
}

impl View for AskPanel {
    type V = AskView;

    open spec fn view(&self) -> AskView {
        AskView {
            interaction_id: self.interaction_id@,
            turn_id: self.turn_id@,
            mode: self.mode,
            questions: self.questions@,
            focus: self.focus as int,
            scroll: self.scroll,
            selections: self.selections@,
            customs: texts(self.customs@),
            cursors: self.option_cursor@,
            editing: self.editing_custom,
            input: self.input@,
            error: match self.error {
                Some(e) => Some(e@),
                None => None,
            },
        }
    }
}

impl AskView {
    /// Every question has its place in each list, and what is chosen exists.
    pub open spec fn ok(self) -> bool {
        &&& self.selections.len() == self.questions.len()
        &&& self.customs.len() == self.questions.len()
        &&& self.cursors.len() == self.questions.len()
        &&& 0 <= self.focus <= usize::MAX
        &&& self.focus < self.questions.len() || self.focus == 0
        &&& self.editing matches Some(q) ==> q < self.questions.len()
        &&& forall|i: int|
            0 <= i < self.questions.len() ==> ((#[trigger] self.selections[i]) matches Some(o) ==> o
                < self.questions[i].options@.len())
    }

    /// How many rows question `q` has.
    pub open spec fn rows(self, q: int) -> nat {
        if 0 <= q < self.questions.len() {
            self.questions[q].options@.len() + if self.questions[q].allow_custom {
                1nat
            } else {
                0
            }
        } else {
            0
        }
    }

    /// The marked row of question `q`.
    pub open spec fn marked(self, q: int) -> usize {
        if 0 <= q < self.cursors.len() {
            self.cursors[q]
        } else {
            0
        }
    }

    /// The row for a free answer is marked.
    pub open spec fn on_custom_row(self) -> bool {
        &&& self.focus < self.questions.len()
        &&& self.questions[self.focus].allow_custom
        &&& self.marked(self.focus) == self.questions[self.focus].options@.len()
    }

    /// Question `q` has an answer.
    pub open spec fn answered(self, q: int) -> bool {
        self.selections[q] is Some || !blank(self.customs[q])
    }

    /// The first question from `q` on without an answer.
    pub open spec fn missing_from(self, q: int) -> Option<int>
        decreases self.questions.len() - q,
    {
        if q >= self.questions.len() {
            None
        } else if !self.answered(q) {
            Some(q)
        } else {
            self.missing_from(q + 1)
        }
    }

    /// The answer to question `q`: the free one, or the chosen option.
    pub open spec fn answer(self, q: int) -> AnswerView {
        AnswerView {
            question_id: self.questions[q].id@,
            answer: if blank(self.customs[q]) {
                self.questions[q].options@[self.selections[q]->0 as int]@
            } else {
                self.customs[q]
            },
        }
    }

    /// All answers.
    pub open spec fn answers(self) -> Seq<AnswerView> {
        Seq::new(self.questions.len(), |q: int| self.answer(q))
    }

    /// Row `row` of question `q` marked.
    pub open spec fn with_marked(self, q: int, row: usize) -> AskView {
        if 0 <= q < self.cursors.len() {
            AskView { cursors: self.cursors.update(q, row), ..self }
        } else {
            self
        }
    }

    /// Option `o` of question `q` chosen.
    pub open spec fn selected(self, q: int, o: usize) -> AskView {
        if 0 <= q < self.questions.len() && o < self.questions[q].options@.len() {
            AskView {
                selections: self.selections.update(q, Some(o)),
                customs: self.customs.update(q, Seq::empty()),
                cursors: self.cursors.update(q, o),
                error: None,
                ..self
            }
        } else {
            self
        }
    }

    /// Option `o` of question `q` chosen, or not any more.
    pub open spec fn toggled(self, q: int, o: usize) -> AskView {
        if 0 <= q < self.questions.len() && self.selections[q] == Some(o) {
            AskView { selections: self.selections.update(q, None), ..self }
        } else {
            self.selected(q, o)
        }
    }

    /// The next page, where there is one.
    pub open spec fn next_page(self) -> AskView {
        if self.focus + 1 < self.questions.len() {
            AskView { focus: self.focus + 1, scroll: 0, ..self }
        } else {
            self
        }
    }

    /// This is the last page.
    pub open spec fn on_last(self) -> bool {
        self.focus + 1 >= self.questions.len()
    }
}

/// The option that a key names.
pub open spec fn option_index(c: char) -> Option<usize> {
    if '1' <= c <= '9' {
        Some((c as int - '1' as int) as usize)
    } else if 'a' <= c <= 'i' {
        Some((c as int - 'a' as int) as usize)
    } else {
        None
    }
}

/// The option that a key names.
pub fn option_index_for_key(c: char) -> (r: Option<usize>)
    ensures
        r == option_index(c),
{
    if c >= '1' && c <= '9' {
        Some((c as u32 - '1' as u32) as usize)
    } else if c >= 'a' && c <= 'i' {
        Some((c as u32 - 'a' as u32) as usize)
    } else {
        None
    }
}

/// What a key does in the question dialog.
#[derive(Clone, Copy, Debug, PartialEq, Eq, Structural)]
pub enum AskDecision {
    PageBack,
    PageOn,
    RowUp,
    RowDown,
    FirstRow,
    LastRow,
    ScrollUp,
    ScrollDown,
    Select { question: usize, option: usize },
    Toggle { question: usize, option: usize },
    StartEdit { question: usize },
    EditChar(char),
    EditBackspace,
    EditCommit,
    EditCancel,
    Dismiss,
    Ignore,
}

/// What a key does while a free answer is typed.
pub open spec fn edit_decision(code: KeyCode) -> AskDecision {
    match code {
        KeyCode::Enter => AskDecision::EditCommit,
        KeyCode::Esc => AskDecision::EditCancel,
        KeyCode::Backspace => AskDecision::EditBackspace,
        KeyCode::Char(c) => if !control_char(c) {
            AskDecision::EditChar(c)
        } else {
            AskDecision::Ignore
        },
        _ => AskDecision::Ignore,
    }
}

/// What a letter, digit or space does on a page.
pub open spec fn char_decision(v: AskView, c: char, key: KeyEvent) -> AskDecision {
    let focus = v.focus as usize;
    let q = v.questions[v.focus];
    let bare = key.modifiers.bare();
    let m = key.modifiers;
    if c == 'k' && bare {
        AskDecision::RowUp
    } else if c == 'j' && bare {
        AskDecision::RowDown
    } else if c == 'g' && bare {
        AskDecision::FirstRow
    } else if c == 'G' && m.shift && !m.control && !m.alt {
        AskDecision::LastRow
    } else if c == ' ' {
        if v.on_custom_row() {
            AskDecision::StartEdit { question: focus }
        } else {
            AskDecision::Toggle { question: focus, option: v.marked(v.focus) }
        }
    } else if c == 'z' && bare && q.allow_custom {
        AskDecision::StartEdit { question: focus }
    } else if c == 'e' && bare && q.allow_custom && q.options@.len() <= 4 {
        AskDecision::StartEdit { question: focus }
    } else if bare && option_index(c) is Some && option_index(c)->0 < q.options@.len() {
        AskDecision::Select { question: focus, option: option_index(c)->0 }
    } else {
        AskDecision::Ignore
    }
}

/// What a key does in the question dialog.
pub open spec fn ask_decision(v: AskView, key: KeyEvent) -> AskDecision {
    if v.questions.len() == 0 {
        AskDecision::Ignore
    } else if v.editing is Some {
        edit_decision(key.code)
    } else {
        let focus = v.focus as usize;
        match key.code {
            KeyCode::Left | KeyCode::BackTab => AskDecision::PageBack,
            KeyCode::Right | KeyCode::Tab => AskDecision::PageOn,
            KeyCode::Up => if key.modifiers.bare() {
                AskDecision::RowUp
            } else {
                AskDecision::Ignore
            },
            KeyCode::Down => if key.modifiers.bare() {
                AskDecision::RowDown
            } else {
                AskDecision::Ignore
            },
            KeyCode::Home => if key.modifiers.bare() {
                AskDecision::FirstRow
            } else {
                AskDecision::Ignore
            },
            KeyCode::End => AskDecision::LastRow,
            KeyCode::PageUp => AskDecision::ScrollUp,
            KeyCode::PageDown => AskDecision::ScrollDown,
            KeyCode::Enter => if v.on_custom_row() {
                AskDecision::StartEdit { question: focus }
            } else {
                AskDecision::Select { question: focus, option: v.marked(v.focus) }
            },
            KeyCode::Char(c) => char_decision(v, c, key),
            KeyCode::Esc => AskDecision::Dismiss,
            _ => AskDecision::Ignore,
        }
    }
}

/// The dialog after a free answer is finished.
pub open spec fn committed(v: AskView) -> AskView {
    let q = match v.editing {
        Some(q) => q as int,
        None => 0,
    };
    let done = AskView { editing: None, input: Seq::empty(), error: None, ..v };
    if blank(v.input) {
        AskView { customs: v.customs.update(q, Seq::empty()), ..done }
    } else {
        AskView {
            customs: v.customs.update(q, trim(v.input)),
            selections: v.selections.update(q, None),
            ..done
        }
    }
}

/// The dialog after a decision, and whether the answers are to be sent.
pub open spec fn ask_applied(v: AskView, d: AskDecision) -> (AskView, bool) {
    match d {
        AskDecision::PageBack => (
            AskView {
                focus: if v.focus > 0 {
                    v.focus - 1
                } else {
                    0
                },
                scroll: 0,
                ..v
            },
            false,
        ),
        AskDecision::PageOn => (AskView { scroll: 0, ..v.next_page() }, false),
        AskDecision::RowUp => {
            let m = v.marked(v.focus);
            let last = (v.rows(v.focus) - 1) as usize;
            let up = if m > 0 {
                (m - 1) as usize
            } else {
                0
            };
            (
                if v.rows(v.focus) == 0 {
                    v
                } else if up <= last {
                    v.with_marked(v.focus, up)
                } else {
                    v.with_marked(v.focus, last)
                },
                false,
            )
        },
        AskDecision::RowDown => {
            let m = v.marked(v.focus);
            let last = (v.rows(v.focus) - 1) as usize;
            (
                if v.rows(v.focus) == 0 {
                    v
                } else if m < last {
                    v.with_marked(v.focus, (m + 1) as usize)
                } else {
                    v.with_marked(v.focus, last)
                },
                false,
            )
        },
        AskDecision::FirstRow => (v.with_marked(v.focus, 0), false),
        AskDecision::LastRow => (
            v.with_marked(
                v.focus,
                if v.rows(v.focus) == 0 {
                    0
                } else {
                    (v.rows(v.focus) - 1) as usize
                },
            ),
            false,
        ),
        AskDecision::ScrollUp => (
            AskView {
                scroll: if v.scroll >= 5 {
                    (v.scroll - 5) as u16
                } else {
                    0
                },
                ..v
            },
            false,
        ),
        AskDecision::ScrollDown => (
            AskView {
                scroll: if v.scroll + 5 <= u16::MAX {
                    (v.scroll + 5) as u16
                } else {
                    u16::MAX
                },
                ..v
            },
            false,
        ),
        AskDecision::Select { question, option } => {
            let s = v.selected(question as int, option);
            (s.next_page(), s.on_last())
        },
        AskDecision::Toggle { question, option } => (v.toggled(question as int, option), false),
        AskDecision::StartEdit { question } => (
            AskView {
                editing: Some(question),
                input: v.customs[question as int],
                error: None,
                ..v.with_marked(
                    question as int,
                    v.questions[question as int].options@.len() as usize,
                )
            },
            false,
        ),
        AskDecision::EditChar(c) => (AskView { input: v.input.push(c), ..v }, false),
        AskDecision::EditBackspace => (
            AskView {
                input: if v.input.len() > 0 {
                    v.input.drop_last()
                } else {
                    v.input
                },
                ..v
            },
            false,
        ),
        AskDecision::EditCommit => (committed(v).next_page(), committed(v).on_last()),
        AskDecision::EditCancel => (AskView { editing: None, input: Seq::empty(), ..v }, false),
        AskDecision::Dismiss => (v, false),
        AskDecision::Ignore => (v, false),
    }
}

/// The complaint about question `q`.
pub open spec fn missing_note(q: int) -> Seq<char> {
    "第 "@ + dec((q + 1) as nat) + " 题尚未回答"@
}

/// The dialog after an attempt to send the answers that fails.
pub open spec fn send_refused(v: AskView, q: int) -> AskView {
    AskView { focus: q, scroll: 0, error: Some(missing_note(q)), ..v }
}

/// A dialog without any answer yet.
pub open spec fn fresh_ask(
    interaction_id: Seq<char>,
    turn_id: Seq<char>,
    mode: AskMode,
    questions: Seq<AskQuestion>,
) -> AskView {
    AskView {
        interaction_id,
        turn_id,
        mode,
        questions,
        focus: 0,
        scroll: 0,
        selections: Seq::new(questions.len(), |i: int| None),
        customs: Seq::new(questions.len(), |i: int| Seq::empty()),
        cursors: Seq::new(questions.len(), |i: int| 0),
        editing: None,
        input: Seq::empty(),
        error: None,
    }
}

fn nones(n: usize) -> (v: Vec<Option<usize>>)
    ensures
        v@.len() == n,
        forall|i: int| 0 <= i < n ==> (#[trigger] v@[i]) is None,
{
    let mut v: Vec<Option<usize>> = Vec::new();
    while v.len() < n
        invariant
            v@.len() <= n,
            forall|i: int| 0 <= i < v@.len() ==> (#[trigger] v@[i]) is None,
        decreases n - v@.len(),
    {
        v.push(None);
    }
    v
}

fn zeros(n: usize) -> (v: Vec<usize>)
    ensures
        v@.len() == n,
        forall|i: int| 0 <= i < n ==> (#[trigger] v@[i]) == 0,
{
    let mut v: Vec<usize> = Vec::new();
    while v.len() < n
        invariant
            v@.len() <= n,
            forall|i: int| 0 <= i < v@.len() ==> (#[trigger] v@[i]) == 0,
        decreases n - v@.len(),
    {
        v.push(0);
    }
    v
}

fn empties(n: usize) -> (v: Vec<String>)
    ensures
        v@.len() == n,
        forall|i: int| 0 <= i < n ==> (#[trigger] v@[i])@.len() == 0,
{
    let mut v: Vec<String> = Vec::new();
    while v.len() < n
        invariant
            v@.len() <= n,
            forall|i: int| 0 <= i < v@.len() ==> (#[trigger] v@[i])@.len() == 0,
        decreases n - v@.len(),
    {
        v.push(String::new());
    }
    v
}

impl AskPanel {
    /// Every question has its place in each list, and what is chosen exists.
    pub open spec fn wf(&self) -> bool {
        self@.ok()
    }

    /// A dialog without any answer yet.
    pub fn new(
        interaction_id: String,
        turn_id: String,
        mode: AskMode,
        questions: Vec<AskQuestion>,
    ) -> (p: Self)
        ensures
            p.wf(),
            p@ == fresh_ask(interaction_id@, turn_id@, mode, questions@),
    {
        let n: usize = questions.len();
        let p = AskPanel {
            interaction_id,
            turn_id,
            mode,
            questions,
            focus: 0,
            scroll: 0,
            selections: nones(n),
            customs: empties(n),
            option_cursor: zeros(n),
            editing_custom: None,
            input: String::new(),
            error: None,
        };
        proof {
            let v = fresh_ask(interaction_id@, turn_id@, mode, questions@);
            assert forall|q: int| 0 <= q < questions@.len() implies #[trigger] p@.customs[q]
                == v.customs[q] by {
                assert(p.customs@[q]@ =~= Seq::empty());
            }
            assert(p@.customs =~= v.customs);
            assert(p@.selections =~= v.selections);
            assert(p@.cursors =~= v.cursors);
            assert(p@.input =~= v.input);
            assert(p@ =~= v);
        }
        p
    }

    /// How many rows question `q` has.
    pub fn option_count(&self, q: usize) -> (n: usize)
        ensures
            n == if self@.rows(q as int) <= usize::MAX {
                self@.rows(q as int)
            } else {
                usize::MAX as nat
            },
    {
        if q < self.questions.len() {
            let n: usize = self.questions[q].options.len();
            if self.questions[q].allow_custom {
                n.saturating_add(1)
            } else {
                n
            }
        } else {
            0
        }
    }

    /// The marked row of question `q`.
    pub fn cursor_of(&self, q: usize) -> (n: usize)
        ensures
            n == self@.marked(q as int),
    {
        if q < self.option_cursor.len() {
            self.option_cursor[q]
        } else {
            0
        }
    }

    /// Whether the row for a free answer is marked.
    pub fn is_on_custom_row(&self) -> (r: bool)
        requires
            self.wf(),
        ensures
            r == self@.on_custom_row(),
    {
        self.focus < self.questions.len() && self.questions[self.focus].allow_custom
            && self.cursor_of(self.focus) == self.questions[self.focus].options.len()
    }

    fn mark(&mut self, q: usize, row: usize)
        ensures
            final(self)@ == old(self)@.with_marked(q as int, row),
    {
        if q < self.option_cursor.len() {
            self.option_cursor.set(q, row);
            assert(self@ =~= old(self)@.with_marked(q as int, row));
        }
    }

    /// Chooses option `o` of question `q`.
    pub fn select_option(&mut self, q: usize, o: usize)
        requires
            old(self).wf(),
        ensures
            final(self).wf(),
            final(self)@ == old(self)@.selected(q as int, o),
    {
        if q < self.questions.len() && o < self.questions[q].options.len() {
            self.selections.set(q, Some(o));
            let ghost was = texts(self.customs@);
            self.customs.set(q, String::new());
            assert(texts(self.customs@) =~= was.update(q as int, Seq::empty()));
            self.option_cursor.set(q, o);
            self.error = None;
            assert(self@ =~= old(self)@.selected(q as int, o));
        }
    }

    /// Chooses option `o` of question `q`, or takes the choice back.
    pub fn toggle_option(&mut self, q: usize, o: usize)
        requires
            old(self).wf(),
        ensures
            final(self).wf(),
            final(self)@ == old(self)@.toggled(q as int, o),
    {
        if q < self.questions.len() {
            let same = match self.selections[q] {
                Some(k) => k == o,
                None => false,
            };
            if same {
                self.selections.set(q, None);
                assert(self@ =~= old(self)@.toggled(q as int, o));
                return;
            }
        }
        self.select_option(q, o);
    }

    /// The first question without an answer.
    pub fn first_unanswered(&self) -> (r: Option<usize>)
        requires
            self.wf(),
        ensures
            match r {
                Some(q) => self@.missing_from(0) == Some(q as int) && q < self.questions@.len(),
                None => self@.missing_from(0) is None,
            },
    {
        let n: usize = self.questions.len();
        let mut q: usize = 0;
        while q < n
            invariant
                q <= n == self.questions@.len(),
                self.wf(),
                self@.missing_from(0) == self@.missing_from(q as int),
            decreases n - q,
        {
            assert(self@.customs[q as int] == self.customs@[q as int]@);
            if self.selections[q].is_none() && is_blank(self.customs[q].as_str()) {
                return Some(q);
            }
            q += 1;
        }
        None
    }

    fn step(&mut self)
        requires
            old(self).wf(),
        ensures
            final(self).wf(),
            final(self)@ == old(self)@.next_page(),
    {
        let n: usize = self.questions.len();
        if n > 0 && self.focus < n - 1 {
            self.focus = self.focus + 1;
            self.scroll = 0;
            assert(self@ =~= old(self)@.next_page());
        }
    }

    fn at_end(&self) -> (r: bool)
        requires
            self.wf(),
        ensures
            r == self@.on_last(),
    {
        let n: usize = self.questions.len();
        n == 0 || self.focus >= n - 1
    }

    /// What a key does.
    pub fn decide(&self, key: KeyEvent) -> (d: AskDecision)
        requires
            self.wf(),
        ensures
            d == ask_decision(self@, key),
    {
        if self.questions.len() == 0 {
            return AskDecision::Ignore;
        }
        let focus: usize = self.focus;
        let on_custom = self.is_on_custom_row();
        let bare = key.modifiers.is_empty();
        if self.editing_custom.is_some() {
            return match key.code {
                KeyCode::Enter => AskDecision::EditCommit,
                KeyCode::Esc => AskDecision::EditCancel,
                KeyCode::Backspace => AskDecision::EditBackspace,
                KeyCode::Char(c) if !is_control_char(c) => AskDecision::EditChar(c),
                _ => AskDecision::Ignore,
            };
        }
        match key.code {
            KeyCode::Left => AskDecision::PageBack,
            KeyCode::BackTab => AskDecision::PageBack,
            KeyCode::Right => AskDecision::PageOn,
            KeyCode::Tab => AskDecision::PageOn,
            KeyCode::Up if bare => AskDecision::RowUp,
            KeyCode::Down if bare => AskDecision::RowDown,
            KeyCode::Home if bare => AskDecision::FirstRow,
            KeyCode::End => AskDecision::LastRow,
            KeyCode::PageUp => AskDecision::ScrollUp,
            KeyCode::PageDown => AskDecision::ScrollDown,
            KeyCode::Enter if on_custom => AskDecision::StartEdit { question: focus },
            KeyCode::Enter => AskDecision::Select {
                question: focus,
                option: self.cursor_of(focus),
            },
            KeyCode::Char(c) => self.decide_char(c, key),
            KeyCode::Esc => AskDecision::Dismiss,
            _ => AskDecision::Ignore,
        }
    }

    fn decide_char(&self, c: char, key: KeyEvent) -> (d: AskDecision)
        requires
            self.wf(),
            self.questions@.len() > 0,
        ensures
            d == char_decision(self@, c, key),
    {
        let focus: usize = self.focus;
        let question = &self.questions[focus];
        let bare = key.modifiers.is_empty();
        let m = key.modifiers;
        if c == 'k' && bare {
            return AskDecision::RowUp;
        }
        if c == 'j' && bare {
            return AskDecision::RowDown;
        }
        if c == 'g' && bare {
            return AskDecision::FirstRow;
        }
        if c == 'G' && m.shift && !m.control && !m.alt {
            return AskDecision::LastRow;
        }
        if c == ' ' {
            if self.is_on_custom_row() {
                return AskDecision::StartEdit { question: focus };
            }
            return AskDecision::Toggle { question: focus, option: self.cursor_of(focus) };
        }
        if c == 'z' && bare && question.allow_custom {
            return AskDecision::StartEdit { question: focus };
        }
        if c == 'e' && bare && question.allow_custom && question.options.len() <= 4 {
            return AskDecision::StartEdit { question: focus };
        }
        if bare {
            match option_index_for_key(c) {
                Some(o) => {
                    if o < question.options.len() {
                        return AskDecision::Select { question: focus, option: o };
                    }
                },
                None => {},
            }
        }
        AskDecision::Ignore
    }

    fn commit(&mut self)
        requires
            old(self).wf(),
            old(self).editing_custom is Some,
        ensures
            final(self).wf(),
            final(self)@ == committed(old(self)@),
    {
        let q: usize = match self.editing_custom {
            Some(q) => q,
            None => 0,
        };
        let ghost was = texts(self.customs@);
        if is_blank(self.input.as_str()) {
            self.customs.set(q, String::new());
            assert(texts(self.customs@) =~= was.update(q as int, Seq::empty()));
        } else {
            let t = trimmed(self.input.as_str());
            self.customs.set(q, t);
            assert(texts(self.customs@) =~= was.update(q as int, trim(old(self)@.input)));
            self.selections.set(q, None);
        }
        self.editing_custom = None;
        self.input = String::new();
        self.error = None;
        assert(self.input@ =~= Seq::empty());
        assert(self@ =~= committed(old(self)@));
    }

    /// Does what was decided; the result says whether the answers are to be
    /// sent.
    pub fn apply(&mut self, d: AskDecision) -> (submit: bool)
        requires
            old(self).wf(),
            d matches AskDecision::StartEdit { question } ==> question < old(self).questions@.len(),
            d is EditCommit ==> old(self).editing_custom is Some,
        ensures
            final(self).wf(),
            (final(self)@, submit) == ask_applied(old(self)@, d),
    {
        let ghost v = self@;
        match d {
            AskDecision::PageBack => {
                if self.focus > 0 {
                    self.focus = self.focus - 1;
                }
                self.scroll = 0;
                assert(self@ =~= ask_applied(v, d).0);
                false
            },
            AskDecision::PageOn => {
                self.step();
                self.scroll = 0;
                assert(self@ =~= ask_applied(v, d).0);
                false
            },
            AskDecision::RowUp => {
                self.row_up();
                false
            },
            AskDecision::RowDown => {
                self.row_down();
                false
            },
            AskDecision::FirstRow => {
                self.mark(self.focus, 0);
                false
            },
            AskDecision::LastRow => {
                self.row_last();
                false
            },
            AskDecision::ScrollUp => {
                self.scroll = self.scroll.saturating_sub(5);
                assert(self@ =~= ask_applied(v, d).0);
                false
            },
            AskDecision::ScrollDown => {
                self.scroll = self.scroll.saturating_add(5);
                assert(self@ =~= ask_applied(v, d).0);
                false
            },
            AskDecision::Select { question, option } => {
                self.select_option(question, option);
                let last = self.at_end();
                self.step();
                last
            },
            AskDecision::Toggle { question, option } => {
                self.toggle_option(question, option);
                false
            },
            AskDecision::StartEdit { question } => {
                let n: usize = self.questions[question].options.len();
                self.mark(question, n);
                assert(self.customs@[question as int]@ == v.customs[question as int]);
                self.editing_custom = Some(question);
                self.input = self.customs[question].clone();
                self.error = None;
                assert(self@ =~= ask_applied(v, d).0);
                false
            },
            AskDecision::EditChar(c) => {
                self.input.push(c);
                assert(self@ =~= ask_applied(v, d).0);
                false
            },
            AskDecision::EditBackspace => {
                let chars = chars_of(self.input.as_str());
                let n: usize = chars.len();
                if n > 0 {
                    self.input = string_of(&chars, 0, n - 1);
                    assert(self.input@ =~= v.input.drop_last());
                }
                assert(self@ =~= ask_applied(v, d).0);
                false
            },
            AskDecision::EditCommit => {
                self.commit();
                let last = self.at_end();
                self.step();
                last
            },
            AskDecision::EditCancel => {
                self.editing_custom = None;
                self.input = String::new();
                assert(self.input@ =~= Seq::empty());
                assert(self@ =~= ask_applied(v, d).0);
                false
            },
            AskDecision::Dismiss => false,
            AskDecision::Ignore => false,
        }
    }

    fn row_up(&mut self)
        requires
            old(self).wf(),
        ensures
            final(self).wf(),
            final(self)@ == ask_applied(old(self)@, AskDecision::RowUp).0,
    {
        let focus: usize = self.focus;
        if focus < self.questions.len() {
            let n: usize = self.questions[focus].options.len();
            let m = self.cursor_of(focus);
            let up: usize = m.saturating_sub(1);
            if self.questions[focus].allow_custom {
                self.mark(
                    focus,
                    if up <= n {
                        up
                    } else {
                        n
                    },
                );
            } else if n > 0 {
                self.mark(
                    focus,
                    if up <= n - 1 {
                        up
                    } else {
                        n - 1
                    },
                );
            }
        }
        assert(self@ =~= ask_applied(old(self)@, AskDecision::RowUp).0);
    }

    fn row_down(&mut self)
        requires
            old(self).wf(),
        ensures
            final(self).wf(),
            final(self)@ == ask_applied(old(self)@, AskDecision::RowDown).0,
    {
        let focus: usize = self.focus;
        if focus < self.questions.len() {
            let n: usize = self.questions[focus].options.len();
            let m = self.cursor_of(focus);
            if self.questions[focus].allow_custom {
                self.mark(
                    focus,
                    if m < n {
                        m + 1
                    } else {
                        n
                    },
                );
            } else if n > 0 {
                self.mark(
                    focus,
                    if m < n - 1 {
                        m + 1
                    } else {
                        n - 1
                    },
                );
            }
        }
        assert(self@ =~= ask_applied(old(self)@, AskDecision::RowDown).0);
    }

    fn row_last(&mut self)
        requires
            old(self).wf(),
        ensures
            final(self).wf(),
            final(self)@ == ask_applied(old(self)@, AskDecision::LastRow).0,
    {
        let focus: usize = self.focus;
        if focus < self.questions.len() {
            let n: usize = self.questions[focus].options.len();
            let last: usize = if self.questions[focus].allow_custom {
                n
            } else {
                n.saturating_sub(1)
            };
            self.mark(focus, last);
        }
        assert(self@ =~= ask_applied(old(self)@, AskDecision::LastRow).0);
    }

    /// The answers; where one is missing, goes to that question and says so.
    pub fn collect_answers(&mut self) -> (r: Option<Vec<AskAnswer>>)
        requires
            old(self).wf(),
        ensures
            final(self).wf(),
            match r {
                Some(a) => {
                    &&& old(self)@.missing_from(0) is None
                    &&& answers_view(a@) == old(self)@.answers()
                    &&& final(self)@ == old(self)@
                },
                None => {
                    &&& old(self)@.missing_from(0) is Some
                    &&& final(self)@ == send_refused(old(self)@, old(self)@.missing_from(0)->0)
                },
            },
    {
        let count: usize = self.questions.len();
        match self.first_unanswered() {
            Some(q) => {
                assert(q < count);
                let n = dec_u64(q as u64 + 1);
                let note = cat3("第 ", n.as_str(), " 题尚未回答");
                self.focus = q;
                self.scroll = 0;
                self.error = Some(note);
                assert(self@ =~= send_refused(old(self)@, q as int));
                None
            },
            None => Some(self.answers()),
        }
    }

    fn answers(&self) -> (out: Vec<AskAnswer>)
        requires
            self.wf(),
            self@.missing_from(0) is None,
        ensures
            answers_view(out@) == self@.answers(),
    {
        let mut out: Vec<AskAnswer> = Vec::new();
        let ghost want = self@.answers();
        let n: usize = self.questions.len();
        let mut q: usize = 0;
        while q < n
            invariant
                q <= n == self.questions@.len(),
                self.wf(),
                self@.missing_from(q as int) is None,
                want == self@.answers(),
                answers_view(out@) == want.take(q as int),
            decreases n - q,
        {
            assert(self@.customs[q as int] == self.customs@[q as int]@);
            assert(self@.answered(q as int));
            let text = if is_blank(self.customs[q].as_str()) {
                match self.selections[q] {
                    Some(o) => self.questions[q].options[o].clone(),
                    None => String::new(),
                }
            } else {
                self.customs[q].clone()
            };
            let a = AskAnswer { question_id: self.questions[q].id.clone(), answer: text };
            assert(a@ =~= want[q as int]);
            let ghost before = out@;
            out.push(a);
            q += 1;
            assert(answers_view(out@) =~= answers_view(before).push(a@));
            assert(answers_view(out@) =~= want.take(q as int));
        }
        assert(answers_view(out@) =~= want);
        out
    }
}

/// Whatever key comes, the dialog stays well formed; answers already given to
/// other questions than the one shown or typed at stay as they are.
pub proof fn law_other_answers_stay(v: AskView, key: KeyEvent, q: int)
    requires
        v.ok(),
        0 <= q < v.questions.len(),
        q != v.focus,
        v.editing != Some(q as usize),
    ensures
        ({
            let n = ask_applied(v, ask_decision(v, key)).0;
            n.selections[q] == v.selections[q] && n.customs[q] == v.customs[q]
        }),
{
    if let Some(e) = v.editing {
        assert(e as int != q) by {
            if e as int == q {
                assert(e == q as usize);
            }
        }
    }
}

/// The answers are sent only when every question has one.
pub proof fn law_nothing_sent_unanswered(v: AskView, q: int)
    requires
        v.ok(),
        v.missing_from(0) is None,
        0 <= q < v.questions.len(),
    ensures
        v.answered(q),
{
    lemma_missing_none(v, 0, q);
}

proof fn lemma_missing_none(v: AskView, from: int, q: int)
    requires
        v.missing_from(from) is None,
        from <= q < v.questions.len(),
    ensures
        v.answered(q),
    decreases q - from,
{
    if from < q {
        lemma_missing_none(v, from + 1, q);
    }
}

} // verus!
