//! The single-line text editor: a cursor-addressable buffer kept in step with
//! the terminal. Every key event maps to an exact state transition and a
//! redraw action; the caller owns the terminal and performs the drawing.

use vstd::prelude::*;

use crate::text::{copy_range, string_of};

verus! {

/// A key event, as the editor understands it.
#[derive(Clone, Copy, PartialEq, Eq, Structural, Debug)]
pub enum EditorKey {
    /// A printable character, inserted at the cursor.
    Char(char),
    /// Backspace or ctrl-h: delete the character before the cursor.
    Backspace,
    /// Cursor left or ctrl-b.
    Left,
    /// Cursor right or ctrl-f.
    Right,
    /// Ctrl-a: move to the start of the buffer.
    Home,
    /// Ctrl-e: move to the end of the buffer.
    End,
    /// Ctrl-u: delete all text before the cursor.
    KillToStart,
    /// Tab: ask for a filesystem listing of the buffer as a path.
    Tab,
    /// Enter, ctrl-j or ctrl-m: submit.
    Enter,
    /// Escape or ctrl-c: clear the buffer and cancel.
    Cancel,
}

/// What the caller must do after a key event.
#[derive(Clone, Copy, PartialEq, Eq, Structural, Debug)]
pub enum EditorAction {
    /// Nothing changed.
    Idle,
    /// Only the cursor moved: reposition it.
    CursorOnly,
    /// Redraw the line from this buffer offset to its end.
    Redraw(usize),
    /// Run the directory-listing collaborator on the buffer as a path
    /// (or the current directory when the buffer is empty), print its output
    /// below the prompt, and restore the cursor.
    Listing,
    /// The editing session ended with a submission.
    Submitted,
    /// The editing session was cancelled.
    Cancelled,
}

/// The editor's state: the line being edited, the cursor offset into it, and
/// the screen column where the prompt ended (the buffer's first character
/// sits there).
pub struct EditorState {
    pub buffer: Vec<char>,
    pub cursor: usize,
    pub anchor_col: usize,
}

/// The buffer after the key `k`, over the mathematical model.
pub open spec fn step_buffer(b: Seq<char>, cur: int, k: EditorKey) -> Seq<char> {
    match k {
        EditorKey::Char(c) => b.insert(cur, c),
        EditorKey::Backspace => if cur > 0 {
            b.remove(cur - 1)
        } else {
            b
        },
        EditorKey::KillToStart => b.skip(cur),
        EditorKey::Cancel => Seq::empty(),
        _ => b,
    }
}

/// The cursor after the key `k`, over the mathematical model.
pub open spec fn step_cursor(b: Seq<char>, cur: int, k: EditorKey) -> int {
    match k {
        EditorKey::Char(_) => cur + 1,
        EditorKey::Backspace => if cur > 0 {
            cur - 1
        } else {
            0
        },
        EditorKey::Left => if cur > 0 {
            cur - 1
        } else {
            0
        },
        EditorKey::Right => if cur < b.len() {
            cur + 1
        } else {
            cur
        },
        EditorKey::Home => 0,
        EditorKey::End => b.len() as int,
        EditorKey::KillToStart => 0,
        EditorKey::Cancel => 0,
        _ => cur,
    }
}

impl EditorState {
    /// The cursor always lies within the buffer, ends included.
    pub open spec fn wf(self) -> bool {
        self.cursor <= self.buffer@.len()
    }

    /// A fresh editing session over `initial`, with the cursor at its end;
    /// `anchor_col` is the screen column where the prompt text ended.
    pub fn new(anchor_col: usize, initial: &str) -> (st: EditorState)
        ensures
            st.wf(),
            st.buffer@ == initial@,
            st.cursor == initial@.len(),
            st.anchor_col == anchor_col,
    {
        let buffer = crate::text::chars_of(initial);
        let cursor = buffer.len();
        EditorState { buffer, cursor, anchor_col }
    }

    /// The screen column the terminal cursor must stand in: the anchor column
    /// plus the logical cursor offset.
    pub fn screen_col(&self) -> (col: usize)
        requires
            self.anchor_col + self.cursor <= usize::MAX,
        ensures
            col == self.anchor_col + self.cursor,
    {
        self.anchor_col + self.cursor
    }

    /// Inserts `c` at the cursor and advances the cursor past it.
    pub fn insert_char(&mut self, c: char)
        requires
            old(self).wf(),
            old(self).buffer@.len() < usize::MAX,
        ensures
            final(self).wf(),
            final(self).buffer@ == old(self).buffer@.insert(old(self).cursor as int, c),
            final(self).cursor == old(self).cursor + 1,
            final(self).anchor_col == old(self).anchor_col,
    {
        self.buffer.insert(self.cursor, c);
        self.cursor += 1;
    }

    /// Deletes the character before the cursor; at the buffer's start this is
    /// a no-op.
    pub fn backspace(&mut self)
        requires
            old(self).wf(),
        ensures
            final(self).wf(),
            final(self).buffer@ == step_buffer(
                old(self).buffer@,
                old(self).cursor as int,
                EditorKey::Backspace,
            ),
            final(self).cursor as int == step_cursor(
                old(self).buffer@,
                old(self).cursor as int,
                EditorKey::Backspace,
            ),
            final(self).anchor_col == old(self).anchor_col,
    {
        if self.cursor > 0 {
            self.buffer.remove(self.cursor - 1);
            self.cursor -= 1;
        }
    }

    /// Moves the cursor one place left, stopping at the buffer's start.
    pub fn move_left(&mut self)
        requires
            old(self).wf(),
        ensures
            final(self).wf(),
            final(self).buffer@ == old(self).buffer@,
            final(self).cursor as int == step_cursor(
                old(self).buffer@,
                old(self).cursor as int,
                EditorKey::Left,
            ),
            final(self).anchor_col == old(self).anchor_col,
    {
        if self.cursor > 0 {
            self.cursor -= 1;
        }
    }

    /// Moves the cursor one place right, stopping at the buffer's end.
    pub fn move_right(&mut self)
        requires
            old(self).wf(),
        ensures
            final(self).wf(),
            final(self).buffer@ == old(self).buffer@,
            final(self).cursor as int == step_cursor(
                old(self).buffer@,
                old(self).cursor as int,
                EditorKey::Right,
            ),
            final(self).anchor_col == old(self).anchor_col,
    {
        if self.cursor < self.buffer.len() {
            self.cursor += 1;
        }
    }

    /// Moves the cursor to the start of the buffer.
    pub fn move_home(&mut self)
        requires
            old(self).wf(),
        ensures
            final(self).wf(),
            final(self).buffer@ == old(self).buffer@,
            final(self).cursor == 0,
            final(self).anchor_col == old(self).anchor_col,
    {
        self.cursor = 0;
    }

    /// Moves the cursor to the end of the buffer.
    pub fn move_end(&mut self)
        requires
            old(self).wf(),
        ensures
            final(self).wf(),
            final(self).buffer@ == old(self).buffer@,
            final(self).cursor == old(self).buffer@.len(),
            final(self).anchor_col == old(self).anchor_col,
    {
        self.cursor = self.buffer.len();
    }

    /// Deletes all text before the cursor; the text from the cursor onward
    /// remains, and the cursor moves to the buffer's start.
    pub fn kill_to_start(&mut self)
        requires
            old(self).wf(),
        ensures
            final(self).wf(),
            final(self).buffer@ == old(self).buffer@.skip(old(self).cursor as int),
            final(self).cursor == 0,
            final(self).anchor_col == old(self).anchor_col,
    {
        let kept = copy_range(&self.buffer, self.cursor, self.buffer.len());
        assert(kept@ =~= self.buffer@.skip(self.cursor as int));
        self.buffer = kept;
        self.cursor = 0;
    }

    /// The text from buffer offset `from` to the end, for a tail redraw.
    pub fn tail_string(&self, from: usize) -> (s: String)
        requires
            from <= self.buffer@.len(),
        ensures
            s@ == self.buffer@.skip(from as int),
    {
        let v = copy_range(&self.buffer, from, self.buffer.len());
        assert(v@ =~= self.buffer@.skip(from as int));
        string_of(&v)
    }

    /// Applies one key event: the state steps exactly as `step_buffer` and
    /// `step_cursor` say, and the returned action tells the caller what to
    /// draw or whether the session ended.
    pub fn handle_key(&mut self, k: EditorKey) -> (act: EditorAction)
        requires
            old(self).wf(),
            old(self).buffer@.len() < usize::MAX,
        ensures
            final(self).wf(),
            final(self).buffer@ == step_buffer(old(self).buffer@, old(self).cursor as int, k),
            final(self).cursor as int == step_cursor(old(self).buffer@, old(self).cursor as int, k),
            final(self).anchor_col == old(self).anchor_col,
            act == match k {
                EditorKey::Char(_) => EditorAction::Redraw(old(self).cursor),
                EditorKey::Backspace => if old(self).cursor > 0 {
                    EditorAction::Redraw((old(self).cursor - 1) as usize)
                } else {
                    EditorAction::Idle
                },
                EditorKey::Left | EditorKey::Right | EditorKey::Home | EditorKey::End
                    => EditorAction::CursorOnly,
                EditorKey::KillToStart => EditorAction::Redraw(0),
                EditorKey::Tab => EditorAction::Listing,
                EditorKey::Enter => EditorAction::Submitted,
                EditorKey::Cancel => EditorAction::Cancelled,
            },
    {
        match k {
            EditorKey::Char(c) => {
                let at = self.cursor;
                self.insert_char(c);
                EditorAction::Redraw(at)
            },
            EditorKey::Backspace => {
                let at = self.cursor;
                self.backspace();
                if at > 0 {
                    EditorAction::Redraw(at - 1)
                } else {
                    EditorAction::Idle
                }
            },
            EditorKey::Left => {
                self.move_left();
                EditorAction::CursorOnly
            },
            EditorKey::Right => {
                self.move_right();
                EditorAction::CursorOnly
            },
            EditorKey::Home => {
                self.move_home();
                EditorAction::CursorOnly
            },
            EditorKey::End => {
                self.move_end();
                EditorAction::CursorOnly
            },
            EditorKey::KillToStart => {
                self.kill_to_start();
                EditorAction::Redraw(0)
            },
            EditorKey::Tab => EditorAction::Listing,
            EditorKey::Enter => EditorAction::Submitted,
            EditorKey::Cancel => {
                self.buffer.clear();
                self.cursor = 0;
                EditorAction::Cancelled
            },
        }
    }
}

/// Moving to the buffer's start, then to its end, then deleting everything
/// before the cursor leaves the buffer empty, whatever it held and wherever
/// the cursor stood.
pub proof fn lemma_home_end_kill_empties(b: Seq<char>, cur: int)
    requires
        0 <= cur <= b.len(),
    ensures
        ({
            let b1 = step_buffer(b, cur, EditorKey::Home);
            let c1 = step_cursor(b, cur, EditorKey::Home);
            let b2 = step_buffer(b1, c1, EditorKey::End);
            let c2 = step_cursor(b1, c1, EditorKey::End);
            step_buffer(b2, c2, EditorKey::KillToStart).len() == 0
        }),
{
    assert(b.skip(b.len() as int) =~= Seq::<char>::empty());
}

/// Whitespace, for trimming a submitted value.
pub open spec fn is_blank(c: char) -> bool {
    c == ' ' || c == '\t' || c == '\n' || c == '\r'
}

/// `s` without its leading and trailing whitespace.
pub open spec fn trim_spec(s: Seq<char>) -> Seq<char>
    decreases s.len(),
{
    if s.len() == 0 {
        s
    } else if is_blank(s[0]) {
        trim_spec(s.skip(1))
    } else if is_blank(s[s.len() - 1]) {
        trim_spec(s.take(s.len() - 1))
    } else {
        s
    }
}

/// The value a submission yields: the buffer trimmed of leading and trailing
/// whitespace. A blank buffer yields nothing; submitting it aborts the
/// operation exactly like an explicit cancel.
pub fn submit_value(buffer: &Vec<char>) -> (r: Option<String>)
    ensures
        (r is None) <==> trim_spec(buffer@).len() == 0,
        r matches Some(v) ==> v@ == trim_spec(buffer@),
{
    let n = buffer.len();
    let mut a: usize = 0;
    proof {
        assert(buffer@.skip(0) =~= buffer@);
    }
    while a < n && (buffer[a] == ' ' || buffer[a] == '\t' || buffer[a] == '\n' || buffer[a] == '\r')
        invariant
            a <= n == buffer@.len(),
            trim_spec(buffer@) == trim_spec(buffer@.skip(a as int)),
        decreases n - a,
    {
        proof {
            assert(buffer@.skip(a as int)[0] == buffer@[a as int]);
            assert(buffer@.skip(a as int).skip(1) =~= buffer@.skip(a + 1));
        }
        a += 1;
    }
    if a == n {
        proof {
            assert(buffer@.skip(a as int) =~= Seq::<char>::empty());
        }
        return None;
    }
    let ghost t = buffer@.skip(a as int);
    assert(!is_blank(t[0]));
    let mut b: usize = n;
    proof {
        assert(t.take(n - a) =~= t);
    }
    while b > a + 1 && (buffer[b - 1] == ' ' || buffer[b - 1] == '\t' || buffer[b - 1] == '\n'
        || buffer[b - 1] == '\r')
        invariant
            a + 1 <= b <= n == buffer@.len(),
            a < n,
            t == buffer@.skip(a as int),
            !is_blank(t[0]),
            trim_spec(buffer@) == trim_spec(t.take(b - a)),
        decreases b,
    {
        proof {
            let u = t.take(b - a);
            assert(u[0] == t[0]);
            assert(u[u.len() - 1] == buffer@[b - 1]);
            assert(u.take(u.len() - 1) =~= t.take(b - 1 - a));
        }
        b -= 1;
    }
    proof {
        let u = t.take(b - a);
        assert(u[0] == t[0]);
        assert(u[u.len() - 1] == buffer@[b - 1]);
        assert(!is_blank(u[u.len() - 1]));
        assert(trim_spec(u) == u);
    }
    let v = copy_range(buffer, a, b);
    proof {
        assert(v@ =~= t.take(b - a));
    }
    Some(string_of(&v))
}

} // verus!
