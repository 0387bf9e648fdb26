//! The input line: text, cursor, attachments and history.

use crate::text::{chars_of, is_white_space, string_of, texts, white_space};
use vstd::prelude::*;

verus! {

/// What was uploaded.
#[derive(Clone, Debug, PartialEq, Eq)]
pub struct ContentRef {
    pub content_id: String,
    pub media_type: String,
    pub sha256: String,
    pub truncated: bool,
}

/// A file attached to the next message.
#[derive(Clone, Debug, PartialEq, Eq)]
pub struct Attachment {
    pub path: String,
    pub content: ContentRef,
}

/// A file attached to the next message.
#[verifier::ext_equal]
pub struct AttachmentView {
    pub path: Seq<char>,
    pub content: ContentRef,
}

impl View for Attachment {
    type V = AttachmentView;

    open spec fn view(&self) -> AttachmentView {
        AttachmentView { path: self.path@, content: self.content }
    }
}

/// Files attached to the next message.
pub open spec fn attachments_view(v: Seq<Attachment>) -> Seq<AttachmentView> {
    Seq::new(v.len(), |i: int| v[i]@)
}

/// The input line: its text, the cursor, what was sent before, and which of
/// that is shown.
#[verifier::ext_equal]
pub struct ComposerView {
    pub input: Seq<char>,
    pub cursor: int,
    pub history: Seq<Seq<char>>,
    pub shown: Option<int>,
    pub attachments: Seq<AttachmentView>,
}

impl ComposerView {
    /// The cursor is in the text.
    pub open spec fn ok(self) -> bool {
        &&& 0 <= self.cursor <= self.input.len()
        &&& self.shown matches Some(k) ==> 0 <= k < self.history.len()
    }

    /// A character at the cursor.
    pub open spec fn inserted(self, c: char) -> ComposerView {
        ComposerView { input: self.input.insert(self.cursor, c), cursor: self.cursor + 1, ..self }
    }

    /// A text at the cursor.
    pub open spec fn inserted_all(self, s: Seq<char>) -> ComposerView
        decreases s.len(),
    {
        if s.len() == 0 {
            self
        } else {
            self.inserted_all(s.drop_last()).inserted(s.last())
        }
    }

    /// The character before the cursor gone.
    pub open spec fn backspaced(self) -> ComposerView {
        if self.cursor > 0 {
            ComposerView {
                input: self.input.remove(self.cursor - 1),
                cursor: self.cursor - 1,
                ..self
            }
        } else {
            self
        }
    }

    /// The character at the cursor gone.
    pub open spec fn deleted(self) -> ComposerView {
        if self.cursor < self.input.len() {
            ComposerView { input: self.input.remove(self.cursor), ..self }
        } else {
            self
        }
    }

    /// The cursor elsewhere.
    pub open spec fn at(self, cursor: int) -> ComposerView {
        ComposerView { cursor, ..self }
    }

    /// One character to the left.
    pub open spec fn lefted(self) -> ComposerView {
        if self.cursor > 0 {
            self.at(self.cursor - 1)
        } else {
            self
        }
    }

    /// One character to the right.
    pub open spec fn righted(self) -> ComposerView {
        if self.cursor < self.input.len() {
            self.at(self.cursor + 1)
        } else {
            self
        }
    }

    /// To the start of the word before the cursor.
    pub open spec fn word_lefted(self) -> ComposerView {
        self.at(word_start(self.input, space_start(self.input, self.cursor)))
    }

    /// To the end of the word behind the cursor.
    pub open spec fn word_righted(self) -> ComposerView {
        self.at(word_end(self.input, space_end(self.input, self.cursor)))
    }

    /// The text behind the cursor gone.
    pub open spec fn cut(self) -> ComposerView {
        ComposerView { input: self.input.take(self.cursor), ..self }
    }

    /// One more file attached.
    pub open spec fn attached(self, a: AttachmentView) -> ComposerView {
        ComposerView { attachments: self.attachments.push(a), ..self }
    }

    /// No text.
    pub open spec fn cleared(self) -> ComposerView {
        ComposerView { input: Seq::empty(), cursor: 0, shown: None, ..self }
    }

    /// Another text, the cursor at its end.
    pub open spec fn replaced(self, s: Seq<char>) -> ComposerView {
        ComposerView { input: s, cursor: s.len() as int, ..self }
    }

    /// The message before the shown one, or the last one.
    pub open spec fn history_upped(self) -> ComposerView {
        if self.history.len() == 0 {
            self
        } else {
            let k = match self.shown {
                Some(k) => if k > 0 {
                    k - 1
                } else {
                    0
                },
                None => self.history.len() - 1,
            };
            ComposerView { shown: Some(k), ..self.replaced(self.history[k]) }
        }
    }

    /// The message behind the shown one, or no text behind the last one.
    pub open spec fn history_downed(self) -> ComposerView {
        match self.shown {
            Some(k) => if k + 1 < self.history.len() {
                ComposerView { shown: Some(k + 1), ..self.replaced(self.history[k + 1]) }
            } else {
                self.cleared()
            },
            None => self,
        }
    }
}

/// Where the white space before `k` starts.
pub open spec fn space_start(s: Seq<char>, k: int) -> int
    decreases k,
{
    if 0 < k <= s.len() && white_space(s[k - 1]) {
        space_start(s, k - 1)
    } else {
        k
    }
}

/// Where the word before `k` starts.
pub open spec fn word_start(s: Seq<char>, k: int) -> int
    decreases k,
{
    if 0 < k <= s.len() && !white_space(s[k - 1]) {
        word_start(s, k - 1)
    } else {
        k
    }
}

/// Where the white space from `k` on ends.
pub open spec fn space_end(s: Seq<char>, k: int) -> int
    decreases s.len() - k,
{
    if 0 <= k < s.len() && white_space(s[k]) {
        space_end(s, k + 1)
    } else {
        k
    }
}

/// Where the word from `k` on ends.
pub open spec fn word_end(s: Seq<char>, k: int) -> int
    decreases s.len() - k,
{
    if 0 <= k < s.len() && !white_space(s[k]) {
        word_end(s, k + 1)
    } else {
        k
    }
}

/// The input line.
#[derive(Clone, Debug)]
pub struct Composer {
    pub input: Vec<char>,
    pub cursor: usize,
    pub attachments: Vec<Attachment>,
    pub history: Vec<String>,
    pub shown: Option<usize>,
}

impl View for Composer {
    type V = ComposerView;

    open spec fn view(&self) -> ComposerView {
        ComposerView {
            input: self.input@,
            cursor: self.cursor as int,
            history: texts(self.history@),
            shown: match self.shown {
                Some(k) => Some(k as int),
                None => None,
            },
            attachments: attachments_view(self.attachments@),
        }
    }
}

impl Default for Composer {
    fn default() -> (c: Self)
        ensures
            c@ == (ComposerView {
                input: Seq::empty(),
                cursor: 0,
                history: Seq::empty(),
                shown: None,
                attachments: Seq::empty(),
            }),
    {
        let c = Composer {
            input: Vec::new(),
            cursor: 0,
            attachments: Vec::new(),
            history: Vec::new(),
            shown: None,
        };
        assert(c@.input =~= Seq::empty());
        assert(c@.history =~= Seq::empty());
        assert(c@.attachments =~= Seq::empty());
        c
    }
}

impl Composer {
    /// The cursor is in the text.
    pub open spec fn wf(&self) -> bool {
        self@.ok()
    }

    /// The text.
    pub fn value(&self) -> (s: String)
        ensures
            s@ == self@.input,
    {
        let s = string_of(&self.input, 0, self.input.len());
        assert(s@ =~= self@.input);
        s
    }

    /// Inserts a character at the cursor.
    pub fn insert(&mut self, c: char)
        requires
            old(self).wf(),
        ensures
            final(self).wf(),
            final(self)@ == old(self)@.inserted(c),
    {
        let n: usize = self.input.len();
        self.input.insert(self.cursor, c);
        let m: usize = self.input.len();
        assert(m == n + 1);
        self.cursor = self.cursor + 1;
        assert(self@ =~= old(self)@.inserted(c));
    }

    /// Inserts a text at the cursor.
    pub fn insert_str(&mut self, s: &str)
        requires
            old(self).wf(),
        ensures
            final(self).wf(),
            final(self)@ == old(self)@.inserted_all(s@),
    {
        let chars = chars_of(s);
        let mut i: usize = 0;
        assert(chars@.take(0) =~= Seq::empty());
        while i < chars.len()
            invariant
                i <= chars@.len(),
                self.wf(),
                self@ == old(self)@.inserted_all(chars@.take(i as int)),
            decreases chars@.len() - i,
        {
            proof {
                assert(chars@.take(i + 1).drop_last() =~= chars@.take(i as int));
            }
            self.insert(chars[i]);
            i += 1;
        }
        assert(chars@.take(i as int) =~= s@);
    }

    /// Deletes the character before the cursor.
    pub fn backspace(&mut self)
        requires
            old(self).wf(),
        ensures
            final(self).wf(),
            final(self)@ == old(self)@.backspaced(),
    {
        if self.cursor > 0 {
            self.cursor = self.cursor - 1;
            let _ = self.input.remove(self.cursor);
            assert(self@ =~= old(self)@.backspaced());
        }
    }

    /// Deletes the character at the cursor.
    pub fn delete(&mut self)
        requires
            old(self).wf(),
        ensures
            final(self).wf(),
            final(self)@ == old(self)@.deleted(),
    {
        if self.cursor < self.input.len() {
            let _ = self.input.remove(self.cursor);
            assert(self@ =~= old(self)@.deleted());
        }
    }

    /// One character to the left.
    pub fn left(&mut self)
        requires
            old(self).wf(),
        ensures
            final(self).wf(),
            final(self)@ == old(self)@.lefted(),
    {
        if self.cursor > 0 {
            self.cursor = self.cursor - 1;
        }
        assert(self@ =~= old(self)@.lefted());
    }

    /// One character to the right.
    pub fn right(&mut self)
        requires
            old(self).wf(),
        ensures
            final(self).wf(),
            final(self)@ == old(self)@.righted(),
    {
        if self.cursor < self.input.len() {
            self.cursor = self.cursor + 1;
        }
        assert(self@ =~= old(self)@.righted());
    }

    /// To the start.
    pub fn home(&mut self)
        requires
            old(self).wf(),
        ensures
            final(self).wf(),
            final(self)@ == old(self)@.at(0),
    {
        self.cursor = 0;
        assert(self@ =~= old(self)@.at(0));
    }

    /// To the end.
    pub fn end(&mut self)
        requires
            old(self).wf(),
        ensures
            final(self).wf(),
            final(self)@ == old(self)@.at(old(self)@.input.len() as int),
    {
        self.cursor = self.input.len();
        assert(self@ =~= old(self)@.at(old(self)@.input.len() as int));
    }

    /// To the start of the word before the cursor.
    pub fn word_left(&mut self)
        requires
            old(self).wf(),
        ensures
            final(self).wf(),
            final(self)@ == old(self)@.word_lefted(),
    {
        let mut k: usize = self.cursor;
        while k > 0 && is_white_space(self.input[k - 1])
            invariant
                k <= self.input@.len(),
                *self == *old(self),
                space_start(self.input@, self.cursor as int) == space_start(self.input@, k as int),
            decreases k,
        {
            k -= 1;
        }
        let ghost m = space_start(self.input@, self.cursor as int);
        while k > 0 && !is_white_space(self.input[k - 1])
            invariant
                k <= self.input@.len(),
                *self == *old(self),
                word_start(self.input@, m) == word_start(self.input@, k as int),
            decreases k,
        {
            k -= 1;
        }
        self.cursor = k;
        assert(self@ =~= old(self)@.word_lefted());
    }

    /// To the end of the word behind the cursor.
    pub fn word_right(&mut self)
        requires
            old(self).wf(),
        ensures
            final(self).wf(),
            final(self)@ == old(self)@.word_righted(),
    {
        let n: usize = self.input.len();
        let mut k: usize = self.cursor;
        while k < n && is_white_space(self.input[k])
            invariant
                k <= n == self.input@.len(),
                *self == *old(self),
                space_end(self.input@, self.cursor as int) == space_end(self.input@, k as int),
            decreases n - k,
        {
            k += 1;
        }
        let ghost m = space_end(self.input@, self.cursor as int);
        while k < n && !is_white_space(self.input[k])
            invariant
                k <= n == self.input@.len(),
                *self == *old(self),
                word_end(self.input@, m) == word_end(self.input@, k as int),
            decreases n - k,
        {
            k += 1;
        }
        self.cursor = k;
        assert(self@ =~= old(self)@.word_righted());
    }

    /// Deletes the text behind the cursor.
    pub fn cut(&mut self)
        requires
            old(self).wf(),
        ensures
            final(self).wf(),
            final(self)@ == old(self)@.cut(),
    {
        self.input.truncate(self.cursor);
        assert(self@ =~= old(self)@.cut());
    }

    /// Attaches a file.
    pub fn attach(&mut self, a: Attachment)
        requires
            old(self).wf(),
        ensures
            final(self).wf(),
            final(self)@ == old(self)@.attached(a@),
    {
        let ghost v = self@;
        let ghost av = a@;
        self.attachments.push(a);
        assert(self@.attachments =~= v.attachments.push(av));
        assert(self@ =~= v.attached(av));
    }

    /// Deletes the text.
    pub fn clear(&mut self)
        ensures
            final(self).wf(),
            final(self)@ == old(self)@.cleared(),
    {
        self.input = Vec::new();
        self.cursor = 0;
        self.shown = None;
        assert(self@ =~= old(self)@.cleared());
    }

    /// Sets the text, with the cursor at its end.
    pub fn replace(&mut self, s: &str)
        requires
            old(self).wf(),
        ensures
            final(self).wf(),
            final(self)@ == old(self)@.replaced(s@),
    {
        self.input = chars_of(s);
        self.cursor = self.input.len();
        assert(self@ =~= old(self)@.replaced(s@));
    }

    /// Shows the message before the shown one.
    pub fn history_up(&mut self)
        requires
            old(self).wf(),
        ensures
            final(self).wf(),
            final(self)@ == old(self)@.history_upped(),
    {
        let n: usize = self.history.len();
        if n == 0 {
            return;
        }
        let k: usize = match self.shown {
            Some(k) => if k > 0 {
                k - 1
            } else {
                0
            },
            None => n - 1,
        };
        self.input = chars_of(self.history[k].as_str());
        self.cursor = self.input.len();
        self.shown = Some(k);
        assert(self@ =~= old(self)@.history_upped());
    }

    /// Shows the message behind the shown one.
    pub fn history_down(&mut self)
        requires
            old(self).wf(),
        ensures
            final(self).wf(),
            final(self)@ == old(self)@.history_downed(),
    {
        let n: usize = self.history.len();
        match self.shown {
            Some(k) => {
                if k < n - 1 {
                    self.input = chars_of(self.history[k + 1].as_str());
                    self.cursor = self.input.len();
                    self.shown = Some(k + 1);
                    assert(self@ =~= old(self)@.history_downed());
                } else {
                    self.clear();
                }
            },
            None => {},
        }
    }
}

/// Deleting what was just typed restores the line.
pub proof fn law_backspace_undoes_insert(v: ComposerView, c: char)
    requires
        v.ok(),
    ensures
        v.inserted(c).backspaced() == v,
{
    assert(v.input.insert(v.cursor, c).remove(v.cursor) =~= v.input);
    assert(v.inserted(c).backspaced() =~= v);
}

} // verus!
