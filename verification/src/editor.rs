//! The editor buffer: a rope of text with a caret, an optional selection
//! and an undo history whose edits are grouped by time.
//!
//! Positions are byte offsets into the UTF-8 text and always lie between
//! two characters.

use vstd::prelude::*;
use crate::editor_view::{
    caret_redone, caret_undone, lemma_after_edit, lemma_redone, lemma_undone, EditorView,
};
use crate::keys::{command_for, command_of, Command, Key};
use crate::history::{
    can_redo, can_undo, lemma_inverse, lemma_removal, redo_all, slice, splice, undo_all, Edit,
};
use crate::lines::{
    is_line_start, lemma_count_bound, lemma_last_line, lemma_line_end_found, lemma_line_start_found,
    newline_count,
};
use crate::position::{char_at, next_after, prev_before};
use crate::rope::{
    rope_byte_slice, rope_byte_to_line, rope_chars, rope_insert, rope_len_bytes, rope_len_lines,
    rope_line_to_byte, rope_new, rope_remove, rope_to_string,
};
use crate::visual::{
    column_of, column_position, holds, locate, margin_for, row_of, row_ok, scroll_top, scrolled_top,
    wrap_lines, VisualLine,
};
use crate::text::{
    byte_len, char_index, char_to_string, lemma_char_index, lemma_char_index_at,
    lemma_char_index_ordered, lemma_neighbours, lemma_prefix_len_ends, lemma_prefix_len_step,
    next_boundary, on_boundary, prefix_len, prev_boundary,
};

verus! {

/// Number of rows of context that scrolling keeps around the caret.
pub const SCROLLOFF: usize = 3;

/// Edits further apart than this many milliseconds start a new undo group.
pub const GROUP_GAP_MS: u64 = 1000;

/// One recorded change, with the text it put in or took out.
pub enum EditOp {
    Insert { pos: usize, text: String },
    Delete { pos: usize, text: String },
}

impl View for EditOp {
    type V = Edit;

    open spec fn view(&self) -> Edit {
        match self {
            EditOp::Insert { pos, text } => Edit { insert: true, pos: *pos as int, text: text@ },
            EditOp::Delete { pos, text } => Edit { insert: false, pos: *pos as int, text: text@ },
        }
    }
}

/// The edits that one undo takes back together.
pub struct UndoGroup {
    pub ops: Vec<EditOp>,
    pub timestamp: u64,
}

impl View for UndoGroup {
    type V = Seq<Edit>;

    open spec fn view(&self) -> Seq<Edit> {
        self.ops@.map_values(|o: EditOp| o@)
    }
}

/// The edit lists of a stack of groups, bottom first.
pub open spec fn groups_view(groups: Seq<UndoGroup>) -> Seq<Seq<Edit>> {
    groups.map_values(|g: UndoGroup| g@)
}

/// The editor buffer. What it is to its users is its view, an
/// `EditorView`; every command says what it makes of that view.
pub struct Editor {
    rope: ropey::Rope,
    caret: usize,
    selection_anchor: Option<usize>,
    preferred_col: usize,
    viewport_offset: (usize, usize),
    viewport_width: usize,
    visual_lines: Vec<VisualLine>,
    visual_lines_valid: bool,
    modified: bool,
    undo_stack: Vec<UndoGroup>,
    redo_stack: Vec<UndoGroup>,
    current_group: Option<UndoGroup>,
    last_edit_time: Option<u64>,
}

impl View for Editor {
    type V = EditorView;

    closed spec fn view(&self) -> EditorView {
        EditorView {
            text: rope_chars(self.rope),
            caret: self.caret as int,
            anchor: match self.selection_anchor {
                Some(a) => Some(a as int),
                None => None,
            },
            modified: self.modified,
            undo: match self.current_group {
                Some(g) => groups_view(self.undo_stack@).push(g@),
                None => groups_view(self.undo_stack@),
            },
            redo: groups_view(self.redo_stack@),
            group_open: self.current_group is Some,
            last_edit: self.last_edit_time,
            lines_valid: self.visual_lines_valid,
            rows: self.visual_lines@,
            width: self.viewport_width as int,
            preferred_col: self.preferred_col as int,
            top: self.viewport_offset.0 as int,
            left: self.viewport_offset.1 as int,
        }
    }
}

/// Puts `text` into the rope at the boundary `pos`.
fn insert_bytes(rope: &mut ropey::Rope, pos: usize, text: &str)
    requires
        on_boundary(rope_chars(*old(rope)), pos as int),
    ensures
        rope_chars(*final(rope)) == splice(rope_chars(*old(rope)), pos as int, pos as int, text@),
{
    let k: usize = char_at(rope, pos);
    rope_insert(rope, k, text);
}

/// Takes the bytes from `start` up to `end` out of the rope.
fn remove_bytes(rope: &mut ropey::Rope, start: usize, end: usize)
    requires
        start <= end,
        on_boundary(rope_chars(*old(rope)), start as int),
        on_boundary(rope_chars(*old(rope)), end as int),
    ensures
        rope_chars(*final(rope)) == splice(
            rope_chars(*old(rope)),
            start as int,
            end as int,
            Seq::empty(),
        ),
{
    let k1: usize = char_at(rope, start);
    let k2: usize = char_at(rope, end);
    proof {
        lemma_char_index_ordered(rope_chars(*rope), start as int, end as int);
        let s = rope_chars(*rope);
        assert(s.take(k1 as int) + Seq::<char>::empty() + s.skip(k2 as int) == s.take(k1 as int)
            + s.skip(k2 as int));
    }
    rope_remove(rope, k1, k2);
}

/// Makes the edit `op` on the rope.
fn apply_op(rope: &mut ropey::Rope, op: &EditOp)
    requires
        op@.applies(rope_chars(*old(rope))),
    ensures
        rope_chars(*final(rope)) == op@.apply(rope_chars(*old(rope))),
{
    match op {
        EditOp::Insert { pos, text } => {
            insert_bytes(rope, *pos, text.as_str());
        },
        EditOp::Delete { pos, text } => {
            // The text stands in the rope, whose length fits, so the sum below fits.
            let _rope_len: usize = rope_len_bytes(rope);
            proof {
                lemma_char_index_at(rope_chars(*rope), op@.end());
            }
            let end: usize = *pos + text.as_str().len();
            remove_bytes(rope, *pos, end);
        },
    }
}

/// Takes the edit `op` back from the rope.
fn revert_op(rope: &mut ropey::Rope, op: &EditOp)
    requires
        op@.inverse().applies(rope_chars(*old(rope))),
    ensures
        rope_chars(*final(rope)) == op@.inverse().apply(rope_chars(*old(rope))),
{
    match op {
        EditOp::Insert { pos, text } => {
            // The text stands in the rope, whose length fits, so the sum below fits.
            let _rope_len: usize = rope_len_bytes(rope);
            proof {
                lemma_char_index_at(rope_chars(*rope), op@.end());
            }
            let end: usize = *pos + text.as_str().len();
            remove_bytes(rope, *pos, end);
        },
        EditOp::Delete { pos, text } => {
            insert_bytes(rope, *pos, text.as_str());
        },
    }
}

/// Takes the edits of `group` back from the rope, last one first. Returns
/// where the caret goes.
fn revert_group(rope: &mut ropey::Rope, group: &UndoGroup, caret: usize) -> (c: usize)
    requires
        can_undo(rope_chars(*old(rope)), group@),
        on_boundary(rope_chars(*old(rope)), caret as int),
    ensures
        rope_chars(*final(rope)) == undo_all(rope_chars(*old(rope)), group@),
        c == caret_undone(group@, caret as int),
{
    let ghost start = rope_chars(*rope);
    let ghost g = group@;
    let n: usize = group.ops.len();
    let mut i: usize = n;
    let mut c: usize = caret;
    assert(g.take(n as int) == g);
    while i > 0
        invariant
            i <= n,
            n == group.ops.len(),
            g == group@,
            g.len() == n,
            can_undo(rope_chars(*rope), g.take(i as int)),
            undo_all(rope_chars(*rope), g.take(i as int)) == undo_all(start, g),
            i == n ==> c == caret,
            i < n ==> c == g[i as int].inverse().caret_after(),
        decreases i,
    {
        i = i - 1;
        let op = &group.ops[i];
        proof {
            assert(g[i as int] == op@);
            crate::history::lemma_undo_step(rope_chars(*rope), g, i + 1);
            lemma_inverse(rope_chars(*rope), op@.inverse());
        }
        revert_op(rope, op);
        // The caret lies in the rope, whose length fits, so the sum below fits.
        let _rope_len: usize = rope_len_bytes(rope);
        proof {
            lemma_char_index_at(rope_chars(*rope), op@.inverse().caret_after());
        }
        c = match op {
            EditOp::Insert { pos, text } => *pos,
            EditOp::Delete { pos, text } => *pos + text.as_str().len(),
        };
    }
    assert(g.take(0) == Seq::<Edit>::empty());
    c
}

/// Applies the edits of `group` to the rope, first one first. Returns
/// where the caret goes.
fn apply_group(rope: &mut ropey::Rope, group: &UndoGroup, caret: usize) -> (c: usize)
    requires
        can_redo(rope_chars(*old(rope)), group@),
        on_boundary(rope_chars(*old(rope)), caret as int),
    ensures
        rope_chars(*final(rope)) == redo_all(rope_chars(*old(rope)), group@),
        c == caret_redone(group@, caret as int),
{
    let ghost start = rope_chars(*rope);
    let ghost g = group@;
    let n: usize = group.ops.len();
    let mut i: usize = 0;
    let mut c: usize = caret;
    assert(g.skip(0) == g);
    while i < n
        invariant
            i <= n,
            n == group.ops.len(),
            g == group@,
            g.len() == n,
            can_redo(rope_chars(*rope), g.skip(i as int)),
            redo_all(rope_chars(*rope), g.skip(i as int)) == redo_all(start, g),
            i == 0 ==> c == caret,
            i > 0 ==> c == g[i - 1].caret_after(),
        decreases n - i,
    {
        let op = &group.ops[i];
        proof {
            assert(g[i as int] == op@);
            crate::history::lemma_redo_step(rope_chars(*rope), g, i as int);
            lemma_inverse(rope_chars(*rope), op@);
        }
        apply_op(rope, op);
        // The caret lies in the rope, whose length fits, so the sum below fits.
        let _rope_len: usize = rope_len_bytes(rope);
        proof {
            lemma_char_index_at(rope_chars(*rope), op@.caret_after());
        }
        c = match op {
            EditOp::Insert { pos, text } => *pos + text.as_str().len(),
            EditOp::Delete { pos, text } => *pos,
        };
        i = i + 1;
    }
    assert(g.skip(n as int) == Seq::<Edit>::empty());
    c
}

impl Editor {
    /// The invariant of the editor: its view is well formed.
    pub closed spec fn inv(&self) -> bool {
        self@.well_formed()
    }

    /// An editor that meets its invariant has a well-formed view, with
    /// the caret within the text.
    pub proof fn lemma_well_formed(&self)
        requires
            self.inv(),
        ensures
            self@.well_formed(),
            0 <= self@.caret <= byte_len(self@.text),
    {
        lemma_char_index_at(self@.text, self@.caret);
    }

    /// An editor without text, with the caret at the start and no history.
    pub fn new() -> (e: Editor)
        ensures
            e.inv(),
            e@ == (EditorView {
                text: Seq::empty(),
                caret: 0,
                anchor: None,
                modified: false,
                undo: Seq::empty(),
                redo: Seq::empty(),
                group_open: false,
                last_edit: None,
                lines_valid: false,
                rows: Seq::empty(),
                width: 80,
                preferred_col: 0,
                top: 0,
                left: 0,
            }),
    {
        let e = Editor {
            rope: rope_new(),
            caret: 0,
            selection_anchor: None,
            preferred_col: 0,
            viewport_offset: (0, 0),
            viewport_width: 80,
            visual_lines: Vec::new(),
            visual_lines_valid: false,
            modified: false,
            undo_stack: Vec::new(),
            redo_stack: Vec::new(),
            current_group: None,
            last_edit_time: None,
        };
        proof {
            lemma_prefix_len_ends(rope_chars(e.rope));
            assert(groups_view(e.undo_stack@) =~= Seq::empty());
            assert(groups_view(e.redo_stack@) =~= Seq::empty());
        }
        e
    }

    /// Closes the group in progress, so that the next edit starts a new one.
    fn finalize_undo_group(&mut self)
        requires
            old(self).inv(),
        ensures
            final(self).inv(),
            final(self)@ == (EditorView { group_open: false, ..old(self)@ }),
    {
        let mut cur: Option<UndoGroup> = None;
        core::mem::swap(&mut cur, &mut self.current_group);
        if let Some(g) = cur {
            assert(old(self)@.undo.last() == g@);
            assert(g@.len() == g.ops.len());
            if g.ops.len() > 0 {
                self.undo_stack.push(g);
                assert(groups_view(self.undo_stack@) =~= groups_view(old(self).undo_stack@).push(
                    g@,
                ));
            }
        }
    }

    /// Makes the edit `op` at time `now`: records it in the undo history,
    /// changes the text, and puts the caret behind the change.
    fn commit(&mut self, op: EditOp, now: u64)
        requires
            old(self).inv(),
            op@.applies(old(self)@.text),
        ensures
            final(self).inv(),
            final(self)@ == old(self)@.after_edit(op@, now),
    {
        let ghost before = self@;
        let ghost e = op@;
        let late: bool = match self.last_edit_time {
            Some(last) => now > last && now - last > GROUP_GAP_MS,
            None => true,
        };
        let start_new: bool = late || self.current_group.is_none();
        if start_new {
            self.finalize_undo_group();
        }
        let ghost stack = groups_view(self.undo_stack@);
        let ghost open_before = self.current_group is Some;
        apply_op(&mut self.rope, &op);
        // The caret lies in the rope, whose length fits, so the sum below fits.
        let _rope_len: usize = rope_len_bytes(&self.rope);
        proof {
            lemma_after_edit(before, e, now);
            lemma_char_index_at(e.apply(before.text), e.caret_after());
        }
        self.caret = match &op {
            EditOp::Insert { pos, text } => *pos + text.as_str().len(),
            EditOp::Delete { pos, text } => *pos,
        };
        self.selection_anchor = None;
        if start_new {
            let mut ops: Vec<EditOp> = Vec::new();
            ops.push(op);
            let g = UndoGroup { ops, timestamp: now };
            assert(g@ =~= seq![e]);
            self.current_group = Some(g);
            assert(stack == before.undo);
        } else {
            let mut cur: Option<UndoGroup> = None;
            core::mem::swap(&mut cur, &mut self.current_group);
            match cur {
                Some(mut g) => {
                    let ghost prior = g@;
                    g.ops.push(op);
                    assert(g@ =~= prior.push(e));
                    self.current_group = Some(g);
                    assert(before.undo.last() == prior);
                    assert(before.undo.drop_last() =~= stack);
                },
                None => {},
            }
        }
        self.last_edit_time = Some(now);
        self.redo_stack = Vec::new();
        self.visual_lines_valid = false;
        self.modified = true;
        proof {
            assert(groups_view(self.redo_stack@) =~= Seq::empty());
            assert(self@.undo == before.undo_with(e, now));
            assert(self@ == before.after_edit(e, now));
        }
    }

    /// The text.
    pub fn rope_text(&self) -> (s: String)
        ensures
            s@ == self@.text,
    {
        rope_to_string(&self.rope)
    }

    /// Byte offset of the caret.
    pub fn caret(&self) -> (c: usize)
        ensures
            c == self@.caret,
    {
        self.caret
    }

    /// Length of the text in bytes.
    pub fn len_bytes(&self) -> (n: usize)
        ensures
            n == byte_len(self@.text),
    {
        rope_len_bytes(&self.rope)
    }

    /// Whether the text was edited.
    pub fn is_modified(&self) -> (m: bool)
        ensures
            m == self@.modified,
    {
        self.modified
    }

    /// The byte range between the anchor and the caret, lower end first;
    /// `None` without an anchor.
    pub fn selection_range(&self) -> (r: Option<(usize, usize)>)
        ensures
            match (r, self@.range()) {
                (Some((a, b)), Some((x, y))) => a == x && b == y,
                (None, None) => true,
                _ => false,
            },
    {
        match self.selection_anchor {
            Some(anchor) => if anchor < self.caret {
                Some((anchor, self.caret))
            } else {
                Some((self.caret, anchor))
            },
            None => None,
        }
    }

    /// The selection, which is the range of `selection_range` unless that is empty.
    fn selected(&self) -> (r: Option<(usize, usize)>)
        ensures
            match (r, self@.selection()) {
                (Some((a, b)), Some((x, y))) => a == x && b == y && a < b,
                (None, None) => true,
                _ => false,
            },
    {
        match self.selection_anchor {
            Some(anchor) => if anchor < self.caret {
                Some((anchor, self.caret))
            } else if self.caret < anchor {
                Some((self.caret, anchor))
            } else {
                None
            },
            None => None,
        }
    }

    /// The text to run: the selected text if there is a selection, else the whole text.
    pub fn get_current_query(&self) -> (q: String)
        requires
            self.inv(),
        ensures
            q@ == match self@.selection() {
                Some((a, b)) => slice(self@.text, a, b),
                None => self@.text,
            },
    {
        match self.selected() {
            Some((start, end)) => rope_byte_slice(&self.rope, start, end),
            None => rope_to_string(&self.rope),
        }
    }

    /// Takes the selected text out. Without a selection only the anchor is dropped.
    pub fn delete_selection(&mut self, now: u64)
        requires
            old(self).inv(),
        ensures
            final(self).inv(),
            final(self)@ == old(self)@.without_selection(now),
    {
        match self.selected() {
            Some((start, end)) => {
                let text = rope_byte_slice(&self.rope, start, end);
                proof {
                    lemma_removal(self@.text, start as int, end as int);
                }
                self.commit(EditOp::Delete { pos: start, text }, now);
            },
            None => {
                self.selection_anchor = None;
            },
        }
    }

    /// Puts `s` in at the caret, in place of the selection if there is one.
    /// The removal and the insertion go to the same undo group.
    pub fn insert_text(&mut self, s: &str, now: u64)
        requires
            old(self).inv(),
        ensures
            final(self).inv(),
            final(self)@ == old(self)@.with_text(s@, now),
    {
        self.delete_selection(now);
        let text = s.to_owned();
        self.commit(EditOp::Insert { pos: self.caret, text }, now);
    }

    /// Puts the character `ch` in, as `insert_text` does with the string of it.
    pub fn insert(&mut self, ch: char, now: u64)
        requires
            old(self).inv(),
        ensures
            final(self).inv(),
            final(self)@ == old(self)@.with_text(seq![ch], now),
    {
        let text = char_to_string(ch);
        self.insert_text(text.as_str(), now);
    }

    /// Puts in the text that came from the clipboard, as `insert_text` does.
    pub fn paste(&mut self, clipboard: &str, now: u64)
        requires
            old(self).inv(),
        ensures
            final(self).inv(),
            final(self)@ == old(self)@.with_text(clipboard@, now),
    {
        self.insert_text(clipboard, now);
    }

    /// The text for the clipboard: the selected text, or `None` without a selection.
    pub fn copy(&self) -> (t: Option<String>)
        requires
            self.inv(),
        ensures
            match (t, self@.selection()) {
                (Some(s), Some((a, b))) => s@ == slice(self@.text, a, b),
                (None, None) => true,
                _ => false,
            },
    {
        match self.selected() {
            Some((start, end)) => Some(rope_byte_slice(&self.rope, start, end)),
            None => None,
        }
    }

    /// Copies the selection and takes it out of the text.
    pub fn cut(&mut self, now: u64) -> (t: Option<String>)
        requires
            old(self).inv(),
        ensures
            final(self).inv(),
            final(self)@ == old(self)@.without_selection(now),
            match (t, old(self)@.selection()) {
                (Some(s), Some((a, b))) => s@ == slice(old(self)@.text, a, b),
                (None, None) => true,
                _ => false,
            },
    {
        let t = self.copy();
        self.delete_selection(now);
        t
    }

    /// The boundary before `pos`, or 0 at the start.
    fn prev_char_boundary(&self, pos: usize) -> (r: usize)
        requires
            on_boundary(self@.text, pos as int),
        ensures
            pos == 0 ==> r == 0,
            pos > 0 ==> r == prev_boundary(self@.text, pos as int),
    {
        if pos == 0 {
            0
        } else {
            prev_before(&self.rope, pos)
        }
    }

    /// The boundary after `pos`, or the length at the end.
    fn next_char_boundary(&self, pos: usize) -> (r: usize)
        requires
            on_boundary(self@.text, pos as int),
        ensures
            pos >= byte_len(self@.text) ==> r == byte_len(self@.text),
            pos < byte_len(self@.text) ==> r == next_boundary(self@.text, pos as int),
    {
        let len: usize = rope_len_bytes(&self.rope);
        if pos >= len {
            len
        } else {
            next_after(&self.rope, pos)
        }
    }

    /// Takes out the selection, or else the character before the caret.
    pub fn delete_before(&mut self, now: u64)
        requires
            old(self).inv(),
        ensures
            final(self).inv(),
            final(self)@ == old(self)@.without_char_before(now),
    {
        if self.selected().is_some() {
            self.delete_selection(now);
        } else if self.caret > 0 {
            let prev: usize = self.prev_char_boundary(self.caret);
            proof {
                lemma_neighbours(self@.text, self.caret as int);
                lemma_removal(self@.text, prev as int, self.caret as int);
            }
            let text = rope_byte_slice(&self.rope, prev, self.caret);
            self.commit(EditOp::Delete { pos: prev, text }, now);
        }
    }

    /// Takes out the selection, or else the character after the caret.
    pub fn delete_after(&mut self, now: u64)
        requires
            old(self).inv(),
        ensures
            final(self).inv(),
            final(self)@ == old(self)@.without_char_after(now),
    {
        if self.selected().is_some() {
            self.delete_selection(now);
        } else if self.caret < rope_len_bytes(&self.rope) {
            let next: usize = self.next_char_boundary(self.caret);
            proof {
                lemma_neighbours(self@.text, self.caret as int);
                lemma_removal(self@.text, self.caret as int, next as int);
            }
            let text = rope_byte_slice(&self.rope, self.caret, next);
            self.commit(EditOp::Delete { pos: self.caret, text }, now);
        }
    }

    /// Selects the whole text: the anchor goes to the start, the caret to the end.
    pub fn select_all(&mut self)
        requires
            old(self).inv(),
        ensures
            final(self).inv(),
            old(self)@.all_selected(final(self)@),
            final(self)@.range() == Some((0int, byte_len(old(self)@.text) as int)),
    {
        proof {
            lemma_prefix_len_ends(self@.text);
        }
        self.selection_anchor = Some(0);
        self.caret = rope_len_bytes(&self.rope);
    }

    /// Takes back the last undo group, after closing the group in progress.
    /// Without a group nothing changes.
    pub fn undo(&mut self)
        requires
            old(self).inv(),
        ensures
            final(self).inv(),
            final(self)@ == old(self)@.undone(),
    {
        self.finalize_undo_group();
        let ghost before = self@;
        let ghost stack = groups_view(self.undo_stack@);
        assert(before.undo == old(self)@.undo);
        let popped = self.undo_stack.pop();
        if let Some(group) = popped {
            proof {
                lemma_undone(before);
                assert(before.undo.last() == group@);
                assert(groups_view(self.undo_stack@) =~= before.undo.drop_last());
            }
            let c: usize = revert_group(&mut self.rope, &group, self.caret);
            self.caret = c;
            let ghost redo_before = groups_view(self.redo_stack@);
            self.redo_stack.push(group);
            assert(groups_view(self.redo_stack@) =~= redo_before.push(group@));
            self.visual_lines_valid = false;
            self.selection_anchor = None;
            assert(self@ == before.undone());
        } else {
            assert(stack =~= Seq::<Seq<Edit>>::empty());
        }
    }

    /// Applies the last redo group again. Without one nothing changes.
    pub fn redo(&mut self)
        requires
            old(self).inv(),
        ensures
            final(self).inv(),
            final(self)@ == old(self)@.redone(),
    {
        let ghost before = self@;
        let ghost stack = groups_view(self.redo_stack@);
        let popped = self.redo_stack.pop();
        if let Some(group) = popped {
            proof {
                lemma_redone(before);
                assert(before.redo.last() == group@);
                assert(groups_view(self.redo_stack@) =~= before.redo.drop_last());
            }
            let c: usize = apply_group(&mut self.rope, &group, self.caret);
            self.caret = c;
            let ghost undo_before = groups_view(self.undo_stack@);
            self.undo_stack.push(group);
            assert(groups_view(self.undo_stack@) =~= undo_before.push(group@));
            self.visual_lines_valid = false;
            self.selection_anchor = None;
            assert(self@ == before.redone());
        } else {
            assert(stack =~= Seq::<Seq<Edit>>::empty());
        }
    }

    /// Sets or drops the anchor before the caret moves.
    fn place_anchor(&mut self, select: bool)
        ensures
            final(self)@ == (EditorView { anchor: old(self)@.anchor_for(select), ..old(self)@ }),
            final(self).visual_lines == old(self).visual_lines,
    {
        if !select {
            self.selection_anchor = None;
        } else if self.selection_anchor.is_none() {
            self.selection_anchor = Some(self.caret);
        }
    }

    /// Sets the width of the viewport. Another width makes the visual lines stale.
    pub fn set_viewport_width(&mut self, width: usize)
        requires
            old(self).inv(),
        ensures
            final(self).inv(),
            final(self)@ == (EditorView {
                width: width as int,
                lines_valid: old(self)@.lines_valid && width == old(self)@.width,
                ..old(self)@
            }),
    {
        if width != self.viewport_width {
            self.viewport_width = width;
            self.visual_lines_valid = false;
        }
    }

    /// Computes the visual lines if they are stale.
    fn update_visual_lines(&mut self)
        requires
            old(self).inv(),
        ensures
            final(self).inv(),
            final(self)@ == old(self)@.with_rows(final(self)@.rows),
            old(self)@.lines_valid ==> final(self)@.rows == old(self)@.rows,
    {
        if !self.visual_lines_valid {
            self.visual_lines = wrap_lines(&self.rope, self.viewport_width);
            self.visual_lines_valid = true;
        }
    }

    /// The visual row that holds the caret and the column at which the
    /// caret is shown. The visual lines are computed first if they are stale.
    pub fn caret_position_visual(&mut self) -> (at: (usize, usize))
        requires
            old(self).inv(),
        ensures
            final(self).inv(),
            final(self)@ == old(self)@.with_rows(final(self)@.rows),
            old(self)@.lines_valid ==> final(self)@.rows == old(self)@.rows,
            holds(final(self)@.rows, at.0 as int, old(self)@.caret),
            at.0 == row_of(final(self)@.rows, old(self)@.caret),
            at.1 == column_of(old(self)@.text, final(self)@.rows, old(self)@.caret),
    {
        self.update_visual_lines();
        locate(&self.rope, &self.visual_lines, self.caret, Ghost(self.viewport_width as int))
    }

    /// Takes the column of the caret as the column that vertical movement aims for.
    fn update_preferred_col(&mut self)
        requires
            old(self).inv(),
        ensures
            final(self).inv(),
            final(self)@ == (EditorView {
                preferred_col: column_of(
                    old(self)@.text,
                    final(self)@.rows,
                    old(self)@.caret,
                ) as int,
                ..old(self)@.with_rows(final(self)@.rows)
            }),
            old(self)@.lines_valid ==> final(self)@.rows == old(self)@.rows,
    {
        let at = self.caret_position_visual();
        self.preferred_col = at.1;
    }

    /// Moves the caret one character to the left, if it is not at the start.
    /// With `select` the selection is extended, else it is dropped.
    pub fn move_left(&mut self, select: bool)
        requires
            old(self).inv(),
        ensures
            final(self).inv(),
            old(self)@.goes_left(final(self)@, select),
    {
        self.place_anchor(select);
        if self.caret > 0 {
            proof {
                lemma_neighbours(self@.text, self.caret as int);
            }
            self.caret = self.prev_char_boundary(self.caret);
            self.update_preferred_col();
        }
    }

    /// Moves the caret one character to the right, if it is not at the end.
    /// With `select` the selection is extended, else it is dropped.
    pub fn move_right(&mut self, select: bool)
        requires
            old(self).inv(),
        ensures
            final(self).inv(),
            old(self)@.goes_right(final(self)@, select),
    {
        self.place_anchor(select);
        if self.caret < rope_len_bytes(&self.rope) {
            proof {
                lemma_neighbours(self@.text, self.caret as int);
            }
            self.caret = self.next_char_boundary(self.caret);
            self.update_preferred_col();
        }
    }

    /// Moves the caret one visual line up: to where the preferred column
    /// is in the row above. In the first row the caret stays.
    pub fn move_up(&mut self, select: bool)
        requires
            old(self).inv(),
        ensures
            final(self).inv(),
            old(self)@.goes_vertical(final(self)@, select, -1),
    {
        self.place_anchor(select);
        let at = self.caret_position_visual();
        if at.0 > 0 {
            self.caret = column_position(
                &self.rope,
                &self.visual_lines,
                at.0 - 1,
                self.preferred_col,
                Ghost(self.viewport_width as int),
            );
        }
    }

    /// Moves the caret one visual line down: to where the preferred
    /// column is in the row below. In the last row the caret stays.
    pub fn move_down(&mut self, select: bool)
        requires
            old(self).inv(),
        ensures
            final(self).inv(),
            old(self)@.goes_vertical(final(self)@, select, 1),
    {
        self.place_anchor(select);
        let at = self.caret_position_visual();
        let n: usize = self.visual_lines.len();
        if at.0 + 1 < n {
            self.caret = column_position(
                &self.rope,
                &self.visual_lines,
                at.0 + 1,
                self.preferred_col,
                Ghost(self.viewport_width as int),
            );
        }
    }

    /// Moves the caret to the start of its line.
    pub fn move_line_start(&mut self, select: bool)
        requires
            old(self).inv(),
        ensures
            final(self).inv(),
            old(self)@.goes_to_line_start(final(self)@, select),
    {
        self.place_anchor(select);
        let ghost s = self@.text;
        let ghost at = char_index(s, self.caret as int);
        proof {
            lemma_char_index_at(s, self.caret as int);
            lemma_count_bound(s, at);
        }
        let line: usize = rope_byte_to_line(&self.rope, self.caret);
        let start: usize = rope_line_to_byte(&self.rope, line);
        proof {
            let k = choose|k: int|
                is_line_start(s, k) && newline_count(s.take(k)) == line
                    && #[trigger] prefix_len(s, k) == start;
            lemma_line_start_found(s, k, at);
            lemma_char_index(s, k);
        }
        self.caret = start;
        self.preferred_col = 0;
    }

    /// Moves the caret to the end of its line, before the line feed that ends it.
    pub fn move_line_end(&mut self, select: bool)
        requires
            old(self).inv(),
        ensures
            final(self).inv(),
            old(self)@.goes_to_line_end(final(self)@, select),
    {
        self.place_anchor(select);
        let ghost s = self@.text;
        let ghost at = char_index(s, self.caret as int);
        proof {
            lemma_char_index_at(s, self.caret as int);
            lemma_count_bound(s, at);
            lemma_prefix_len_ends(s);
        }
        let line: usize = rope_byte_to_line(&self.rope, self.caret);
        let lines: usize = rope_len_lines(&self.rope);
        if line < lines - 1 {
            let next: usize = rope_line_to_byte(&self.rope, line + 1);
            proof {
                let k = choose|k: int|
                    is_line_start(s, k) && newline_count(s.take(k))
                        == line + 1 && #[trigger] prefix_len(s, k) == next;
                lemma_line_end_found(s, k, at);
                lemma_prefix_len_step(s, k - 1);
                lemma_char_index(s, k - 1);
            }
            self.caret = next - 1;
        } else {
            proof {
                lemma_last_line(s, at);
                lemma_char_index(s, s.len() as int);
            }
            self.caret = rope_len_bytes(&self.rope);
        }
        self.update_preferred_col();
    }

    /// Moves the viewport of `height` rows so that it shows the caret,
    /// with rows of context above and below it where there are any.
    pub fn scroll_to_caret(&mut self, height: usize)
        requires
            old(self).inv(),
        ensures
            final(self).inv(),
            final(self)@ == (EditorView {
                top: scrolled_top(
                    old(self)@.top,
                    row_of(final(self)@.rows, old(self)@.caret),
                    height as int,
                    margin_for(SCROLLOFF as int, height as int),
                    final(self)@.rows.len() as int,
                ),
                ..old(self)@.with_rows(final(self)@.rows)
            }),
            old(self)@.lines_valid ==> final(self)@.rows == old(self)@.rows,
    {
        let at = self.caret_position_visual();
        let top: usize = scroll_top(
            self.viewport_offset.0,
            at.0,
            height,
            SCROLLOFF,
            self.visual_lines.len(),
        );
        self.viewport_offset = (top, self.viewport_offset.1);
    }

    /// The visual row at the top of the viewport.
    pub fn viewport_top(&self) -> (top: usize)
        ensures
            top == self@.top,
    {
        self.viewport_offset.0
    }

    /// Carries out the command that is bound to the key. Returns what is
    /// left to do with the clipboard: to put the returned text there after
    /// a copy or a cut, or to fetch its text and hand it to `paste`.
    pub fn handle_key(&mut self, key: Key, now: u64) -> (outcome: KeyOutcome)
        requires
            old(self).inv(),
        ensures
            final(self).inv(),
            old(self)@.carries_out(final(self)@, command_for(key), now),
            match command_for(key) {
                Command::Copy | Command::Cut => match old(self)@.selection() {
                    Some((a, b)) => outcome matches KeyOutcome::ToClipboard(t) && t@ == slice(
                        old(self)@.text,
                        a,
                        b,
                    ),
                    None => outcome is Done,
                },
                Command::Paste => outcome is FromClipboard,
                _ => outcome is Done,
            },
    {
        match command_of(key) {
            Command::Insert(ch) => {
                self.insert(ch, now);
            },
            Command::DeleteBefore => {
                self.delete_before(now);
            },
            Command::DeleteAfter => {
                self.delete_after(now);
            },
            Command::Left(select) => {
                self.move_left(select);
            },
            Command::Right(select) => {
                self.move_right(select);
            },
            Command::Up(select) => {
                self.move_up(select);
            },
            Command::Down(select) => {
                self.move_down(select);
            },
            Command::LineStart(select) => {
                self.move_line_start(select);
            },
            Command::LineEnd(select) => {
                self.move_line_end(select);
            },
            Command::SelectAll => {
                self.select_all();
            },
            Command::Copy => {
                return match self.copy() {
                    Some(text) => KeyOutcome::ToClipboard(text),
                    None => KeyOutcome::Done,
                };
            },
            Command::Cut => {
                return match self.cut(now) {
                    Some(text) => KeyOutcome::ToClipboard(text),
                    None => KeyOutcome::Done,
                };
            },
            Command::Paste => {
                return KeyOutcome::FromClipboard;
            },
            Command::Undo => {
                self.undo();
            },
            Command::Redo => {
                self.redo();
            },
            Command::Nothing => {},
        }
        KeyOutcome::Done
    }

    /// The pieces in which the row `line` is shown.
    fn render_row(&self, line: VisualLine) -> (spans: Vec<Span>)
        requires
            self.inv(),
            row_ok(self@.text, line, self@.width),
        ensures
            spans_view(spans@) == spans_for(
                self@.text,
                line.start_byte as int,
                line.end_byte as int,
                self@.selection(),
            ),
    {
        let ghost s = self@.text;
        let mut spans: Vec<Span> = Vec::new();
        let a: usize = line.start_byte;
        let b: usize = line.end_byte;
        match self.selected() {
            Some((x, y)) => {
                if a < y && b > x {
                    let from: usize = if a < x {
                        x
                    } else {
                        a
                    };
                    let to: usize = if y < b {
                        y
                    } else {
                        b
                    };
                    if a < x {
                        let text = rope_byte_slice(&self.rope, a, x);
                        spans.push(Span { text, selected: false });
                    }
                    if from < to {
                        let text = rope_byte_slice(&self.rope, from, to);
                        spans.push(Span { text, selected: true });
                    }
                    if to < b {
                        let text = rope_byte_slice(&self.rope, to, b);
                        spans.push(Span { text, selected: false });
                    }
                } else {
                    let text = rope_byte_slice(&self.rope, a, b);
                    spans.push(Span { text, selected: false });
                }
            },
            None => {
                let text = rope_byte_slice(&self.rope, a, b);
                spans.push(Span { text, selected: false });
            },
        }
        assert(spans_view(spans@) =~= spans_for(s, a as int, b as int, self@.selection()));
        spans
    }

    /// What to show in a viewport of `width` columns and `height` rows.
    /// The visual lines are computed for the width if they are stale. The
    /// cursor is shown only if the editor has the focus and the caret is
    /// in the viewport.
    pub fn render(&mut self, width: usize, height: usize, focused: bool) -> (screen: Screen)
        requires
            old(self).inv(),
        ensures
            final(self).inv(),
            final(self)@ == (EditorView {
                width: width as int,
                ..old(self)@
            }).with_rows(final(self)@.rows),
            old(self)@.lines_valid && old(self)@.width == width ==> final(self)@.rows == old(
                self,
            )@.rows,
            screen.rows@.len() == if final(self)@.rows.len() - final(self)@.top < 0 {
                0
            } else if final(self)@.rows.len() - final(self)@.top < height {
                final(self)@.rows.len() - final(self)@.top
            } else {
                height as int
            },
            forall|i: int|
                0 <= i < screen.rows@.len() ==> spans_view(#[trigger] screen.rows@[i]@)
                    == spans_for(
                    final(self)@.text,
                    final(self)@.rows[final(self)@.top + i].start_byte as int,
                    final(self)@.rows[final(self)@.top + i].end_byte as int,
                    final(self)@.selection(),
                ),
            screen.cursor == if focused {
                cursor_for(
                    row_of(final(self)@.rows, final(self)@.caret),
                    column_of(final(self)@.text, final(self)@.rows, final(self)@.caret) as int,
                    final(self)@.top,
                    final(self)@.left,
                    width as int,
                    height as int,
                )
            } else {
                None
            },
    {
        self.set_viewport_width(width);
        self.update_visual_lines();
        let mut rows: Vec<Vec<Span>> = Vec::new();
        let top: usize = self.viewport_offset.0;
        let total: usize = self.visual_lines.len();
        let visible: usize = if top >= total {
            0
        } else if total - top < height {
            total - top
        } else {
            height
        };
        let mut i: usize = 0;
        while i < visible
            invariant
                self.inv(),
                self@.lines_valid,
                top == self@.top,
                total == self@.rows.len(),
                rows@.len() == i,
                i <= visible,
                visible > 0 ==> top + visible <= total,
                forall|j: int|
                    0 <= j < i ==> spans_view(#[trigger] rows@[j]@) == spans_for(
                        self@.text,
                        self@.rows[top + j].start_byte as int,
                        self@.rows[top + j].end_byte as int,
                        self@.selection(),
                    ),
            decreases visible - i,
        {
            let line = self.visual_lines[top + i];
            assert(row_ok(self@.text, self@.rows[top + i], self@.width));
            let spans = self.render_row(line);
            rows.push(spans);
            i = i + 1;
        }
        let mut cursor: Option<(usize, usize)> = None;
        if focused {
            let at = locate(
                &self.rope,
                &self.visual_lines,
                self.caret,
                Ghost(self.viewport_width as int),
            );
            let left: usize = self.viewport_offset.1;
            let shown: usize = if at.1 > left {
                at.1 - left
            } else {
                0
            };
            if at.0 >= top && at.0 - top < height && shown < width {
                cursor = Some((shown, at.0 - top));
            }
        }
        Screen { rows, cursor }
    }
}

/// A piece of a row of the display.
pub struct Span {
    pub text: String,
    /// Whether the piece is part of the selection.
    pub selected: bool,
}

impl View for Span {
    type V = (Seq<char>, bool);

    open spec fn view(&self) -> (Seq<char>, bool) {
        (self.text@, self.selected)
    }
}

/// What the editor shows: the rows of the viewport from the top, each
/// in pieces, and where the cursor goes, as column and row within the
/// viewport, if it is to be shown.
pub struct Screen {
    pub rows: Vec<Vec<Span>>,
    pub cursor: Option<(usize, usize)>,
}

/// The pieces of a row.
pub open spec fn spans_view(spans: Seq<Span>) -> Seq<(Seq<char>, bool)> {
    spans.map_values(|p: Span| p@)
}

/// The pieces in which the bytes from `a` up to `b` are shown: the part
/// before the selection, the selected part and the part behind the
/// selection, each only if it is not empty; one piece where the
/// selection does not reach the row.
pub open spec fn spans_for(s: Seq<char>, a: int, b: int, selection: Option<(int, int)>) -> Seq<
    (Seq<char>, bool),
> {
    match selection {
        Some((x, y)) => if a < y && b > x {
            let from = if a < x {
                x
            } else {
                a
            };
            let to = if y < b {
                y
            } else {
                b
            };
            (if a < x {
                seq![(slice(s, a, x), false)]
            } else {
                Seq::empty()
            }) + (if from < to {
                seq![(slice(s, from, to), true)]
            } else {
                Seq::empty()
            }) + (if to < b {
                seq![(slice(s, to, b), false)]
            } else {
                Seq::empty()
            })
        } else {
            seq![(slice(s, a, b), false)]
        },
        None => seq![(slice(s, a, b), false)],
    }
}

/// Where the cursor is shown in a viewport of `width` columns and
/// `height` rows whose top left corner shows column `left` of row `top`,
/// for a caret at column `col` of row `row`.
pub open spec fn cursor_for(
    row: int,
    col: int,
    top: int,
    left: int,
    width: int,
    height: int,
) -> Option<(usize, usize)> {
    let shown = if col > left {
        col - left
    } else {
        0
    };
    if top <= row < top + height && shown < width {
        Some((shown as usize, (row - top) as usize))
    } else {
        None
    }

}

/// What is left to do with the clipboard after a key press.
pub enum KeyOutcome {
    /// Nothing.
    Done,
    /// Put this text on the clipboard.
    ToClipboard(String),
    /// Fetch the text of the clipboard and hand it to `paste`.
    FromClipboard,
}

} // verus!
