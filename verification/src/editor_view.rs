//! The editor as a plain value: what each command makes of it, when it
//! is well formed, and what holds of undo and redo.

use vstd::prelude::*;
use crate::editor::GROUP_GAP_MS;
use crate::history::{
    can_redo, can_undo, lemma_chain_append, lemma_chain_new_group, lemma_inverse,
    lemma_redo_then_undo, lemma_removal, lemma_splice, lemma_undo_push, lemma_undo_then_redo,
    redo_all, redo_chain, slice, splice, undo_all, undo_chain, Edit,
};
use crate::keys::Command;
use crate::lines::{is_line_end_for, is_line_start_for};
use crate::text::{
    byte_len, char_index, lemma_char_index_at, lemma_char_index_ordered, next_boundary, on_boundary,
    prev_boundary,
};
use crate::visual::{column_of, is_column_position, row_of, rows_ok, VisualLine};

verus! {

/// What an editor is, as far as its commands are concerned.
pub struct EditorView {
    /// The text.
    pub text: Seq<char>,
    /// Byte offset of the caret.
    pub caret: int,
    /// Byte offset of the fixed end of the selection, if there is one.
    pub anchor: Option<int>,
    /// Whether the text was edited since the editor was made.
    pub modified: bool,
    /// The groups that undo takes back, oldest first; the group in progress is the last.
    pub undo: Seq<Seq<Edit>>,
    /// The groups that redo applies again; the next one is the last.
    pub redo: Seq<Seq<Edit>>,
    /// Whether the last group of `undo` still takes further edits.
    pub group_open: bool,
    /// Time of the last edit in milliseconds.
    pub last_edit: Option<u64>,
    /// Whether the visual lines describe the current text.
    pub lines_valid: bool,
    /// The visual lines as they were last computed.
    pub rows: Seq<VisualLine>,
    /// The width of the viewport in columns.
    pub width: int,
    /// The column that vertical movement aims for.
    pub preferred_col: int,
    /// The visual row at the top of the viewport.
    pub top: int,
    /// The column at the left edge of the viewport.
    pub left: int,
}

impl EditorView {
    /// The byte range between the anchor and the caret, lower end first.
    pub open spec fn range(self) -> Option<(int, int)> {
        match self.anchor {
            Some(a) => if a < self.caret {
                Some((a, self.caret))
            } else {
                Some((self.caret, a))
            },
            None => None,
        }
    }

    /// The selection: the range between the anchor and the caret where it
    /// is not empty. An empty range counts as no selection.
    pub open spec fn selection(self) -> Option<(int, int)> {
        match self.anchor {
            Some(a) => if a == self.caret {
                None
            } else {
                self.range()
            },
            None => None,
        }
    }

    /// The edit that takes out the bytes from `a` up to `b`.
    pub open spec fn removal(self, a: int, b: int) -> Edit {
        Edit { insert: false, pos: a, text: slice(self.text, a, b) }
    }

    /// The view after `delete_selection` at time `now`.
    pub open spec fn without_selection(self, now: u64) -> EditorView {
        match self.selection() {
            Some((a, b)) => self.after_edit(self.removal(a, b), now),
            None => EditorView { anchor: None, ..self },
        }
    }

    /// The view after `delete_before` at time `now`.
    pub open spec fn without_char_before(self, now: u64) -> EditorView {
        if self.selection() is Some {
            self.without_selection(now)
        } else if self.caret > 0 {
            self.after_edit(self.removal(prev_boundary(self.text, self.caret), self.caret), now)
        } else {
            self
        }
    }

    /// The view after `delete_after` at time `now`.
    pub open spec fn without_char_after(self, now: u64) -> EditorView {
        if self.selection() is Some {
            self.without_selection(now)
        } else if self.caret < byte_len(self.text) {
            self.after_edit(self.removal(self.caret, next_boundary(self.text, self.caret)), now)
        } else {
            self
        }
    }

    /// The anchor after a caret movement that extends the selection or not.
    pub open spec fn anchor_for(self, select: bool) -> Option<int> {
        if !select {
            None
        } else if self.anchor is None {
            Some(self.caret)
        } else {
            self.anchor
        }
    }

    /// The view after `insert_text` of `t` at time `now`.
    pub open spec fn with_text(self, t: Seq<char>, now: u64) -> EditorView {
        let v = self.without_selection(now);
        v.after_edit(Edit { insert: true, pos: v.caret, text: t }, now)
    }

    /// Whether an edit at time `now` starts a new undo group.
    pub open spec fn starts_group(self, now: u64) -> bool {
        !self.group_open || match self.last_edit {
            Some(last) => now - last > GROUP_GAP_MS,
            None => true,
        }
    }

    /// The undo groups after `e` was recorded at time `now`.
    pub open spec fn undo_with(self, e: Edit, now: u64) -> Seq<Seq<Edit>> {
        if self.starts_group(now) {
            self.undo.push(seq![e])
        } else {
            self.undo.drop_last().push(self.undo.last().push(e))
        }
    }

    /// The view after the edit `e` was made at time `now`.
    pub open spec fn after_edit(self, e: Edit, now: u64) -> EditorView {
        EditorView {
            text: e.apply(self.text),
            caret: e.caret_after(),
            anchor: None,
            modified: true,
            undo: self.undo_with(e, now),
            redo: Seq::empty(),
            group_open: true,
            last_edit: Some(now),
            lines_valid: false,
            ..self
        }
    }

    /// The caret and the anchor lie between characters, the undo groups can
    /// be taken back from the text one after the other, the redo groups can
    /// be applied to it one after the other, and no group is empty.
    pub open spec fn well_formed(self) -> bool {
        &&& on_boundary(self.text, self.caret)
        &&& match self.anchor {
            Some(a) => on_boundary(self.text, a),
            None => true,
        }
        &&& undo_chain(self.text, self.undo)
        &&& redo_chain(self.text, self.redo)
        &&& forall|i: int| 0 <= i < self.undo.len() ==> (#[trigger] self.undo[i]).len() > 0
        &&& forall|i: int| 0 <= i < self.redo.len() ==> (#[trigger] self.redo[i]).len() > 0
        &&& self.group_open ==> self.undo.len() > 0 && self.last_edit is Some && self.redo.len()
            == 0
        &&& self.lines_valid ==> rows_ok(self.text, self.rows, self.width)
    }

    /// `after` is the view after `move_left`.
    pub open spec fn goes_left(self, after: EditorView, select: bool) -> bool {
        &&& self.lines_valid ==> after.rows == self.rows
        &&& if self.caret == 0 {
            after == (EditorView { anchor: self.anchor_for(select), ..self })
        } else {
            after == self.moved_to(select, prev_boundary(self.text, self.caret), after.rows)
        }
    }

    /// `after` is the view after `move_right`.
    pub open spec fn goes_right(self, after: EditorView, select: bool) -> bool {
        &&& self.lines_valid ==> after.rows == self.rows
        &&& if self.caret >= byte_len(self.text) {
            after == (EditorView { anchor: self.anchor_for(select), ..self })
        } else {
            after == self.moved_to(select, next_boundary(self.text, self.caret), after.rows)
        }
    }

    /// `after` is the view after a vertical movement by `by` rows, which is 1 or -1.
    pub open spec fn goes_vertical(self, after: EditorView, select: bool, by: int) -> bool {
        let row = row_of(after.rows, self.caret);
        &&& self.lines_valid ==> after.rows == self.rows
        &&& after == (EditorView {
            anchor: self.anchor_for(select),
            caret: after.caret,
            ..self.with_rows(after.rows)
        })
        &&& if 0 <= row + by < after.rows.len() {
            is_column_position(self.text, after.rows, row + by, self.preferred_col, after.caret)
        } else {
            after.caret == self.caret
        }
    }

    /// `after` is the view after `move_line_start`.
    pub open spec fn goes_to_line_start(self, after: EditorView, select: bool) -> bool {
        &&& after == (EditorView {
            anchor: self.anchor_for(select),
            caret: after.caret,
            preferred_col: 0,
            ..self
        })
        &&& is_line_start_for(
            self.text,
            char_index(self.text, after.caret),
            char_index(self.text, self.caret),
        )
    }

    /// `after` is the view after `move_line_end`.
    pub open spec fn goes_to_line_end(self, after: EditorView, select: bool) -> bool {
        &&& self.lines_valid ==> after.rows == self.rows
        &&& after == self.moved_to(select, after.caret, after.rows)
        &&& is_line_end_for(
            self.text,
            char_index(self.text, after.caret),
            char_index(self.text, self.caret),
        )
    }

    /// `after` is the view after `select_all`.
    pub open spec fn all_selected(self, after: EditorView) -> bool {
        after == (EditorView { anchor: Some(0), caret: byte_len(self.text) as int, ..self })
    }

    /// `after` is the view after the editor carried out `command` at time `now`.
    pub open spec fn carries_out(self, after: EditorView, command: Command, now: u64) -> bool {
        match command {
            Command::Insert(ch) => after == self.with_text(seq![ch], now),
            Command::DeleteBefore => after == self.without_char_before(now),
            Command::DeleteAfter => after == self.without_char_after(now),
            Command::Left(select) => self.goes_left(after, select),
            Command::Right(select) => self.goes_right(after, select),
            Command::Up(select) => self.goes_vertical(after, select, -1),
            Command::Down(select) => self.goes_vertical(after, select, 1),
            Command::LineStart(select) => self.goes_to_line_start(after, select),
            Command::LineEnd(select) => self.goes_to_line_end(after, select),
            Command::SelectAll => self.all_selected(after),
            Command::Copy => after == self,
            Command::Cut => after == self.without_selection(now),
            Command::Paste => after == self,
            Command::Undo => after == self.undone(),
            Command::Redo => after == self.redone(),
            Command::Nothing => after == self,
        }
    }

    /// The view after the visual lines were computed where they were stale:
    /// `rows` are the lines then.
    pub open spec fn with_rows(self, rows: Seq<VisualLine>) -> EditorView {
        EditorView { lines_valid: true, rows, ..self }
    }

    /// The view after the caret went to `caret` in a horizontal movement,
    /// with the visual lines `rows`.
    pub open spec fn moved_to(self, select: bool, caret: int, rows: Seq<VisualLine>) -> EditorView {
        EditorView {
            anchor: self.anchor_for(select),
            caret,
            preferred_col: column_of(self.text, rows, caret) as int,
            ..self.with_rows(rows)
        }
    }

    /// The view after `undo`: the last undo group is taken back and becomes
    /// the next redo group; the caret goes to where the first edit of the
    /// group began.
    pub open spec fn undone(self) -> EditorView {
        if self.undo.len() == 0 {
            self
        } else {
            let g = self.undo.last();
            EditorView {
                text: undo_all(self.text, g),
                caret: g[0].inverse().caret_after(),
                anchor: None,
                undo: self.undo.drop_last(),
                redo: self.redo.push(g),
                group_open: false,
                lines_valid: false,
                ..self
            }
        }
    }

    /// The view after `redo`: the last redo group is applied again and
    /// becomes the last undo group; the caret goes behind its last edit.
    pub open spec fn redone(self) -> EditorView {
        if self.redo.len() == 0 {
            self
        } else {
            let g = self.redo.last();
            EditorView {
                text: redo_all(self.text, g),
                caret: g.last().caret_after(),
                anchor: None,
                undo: self.undo.push(g),
                redo: self.redo.drop_last(),
                lines_valid: false,
                ..self
            }
        }
    }
}

/// The caret after the edits of `g` were taken back: where the first of
/// them began, or `caret` if there are none.
pub open spec fn caret_undone(g: Seq<Edit>, caret: int) -> int {
    if g.len() == 0 {
        caret
    } else {
        g[0].inverse().caret_after()
    }
}

/// The caret after the edits of `g` were applied: behind the last of them,
/// or `caret` if there are none.
pub open spec fn caret_redone(g: Seq<Edit>, caret: int) -> int {
    if g.len() == 0 {
        caret
    } else {
        g.last().caret_after()
    }
}

/// Taking back a group leaves the caret on a boundary.
pub proof fn lemma_caret_undone(s: Seq<char>, g: Seq<Edit>, caret: int)
    requires
        can_undo(s, g),
        on_boundary(s, caret),
    ensures
        on_boundary(undo_all(s, g), caret_undone(g, caret)),
    decreases g.len(),
{
    if g.len() > 0 {
        let e = g.last();
        let s1 = e.inverse().apply(s);
        lemma_inverse(s, e.inverse());
        lemma_caret_undone(s1, g.drop_last(), e.inverse().caret_after());
        if g.len() > 1 {
            assert(g.drop_last()[0] == g[0]);
        } else {
            assert(undo_all(s1, g.drop_last()) == s1);
        }
    }
}

/// Applying a group leaves the caret on a boundary.
pub proof fn lemma_caret_redone(s: Seq<char>, g: Seq<Edit>, caret: int)
    requires
        can_redo(s, g),
        on_boundary(s, caret),
    ensures
        on_boundary(redo_all(s, g), caret_redone(g, caret)),
    decreases g.len(),
{
    if g.len() > 0 {
        let e = g[0];
        let s1 = e.apply(s);
        lemma_inverse(s, e);
        lemma_caret_redone(s1, g.drop_first(), e.caret_after());
        if g.len() > 1 {
            assert(g.drop_first().last() == g.last());
        } else {
            assert(redo_all(s1, g.drop_first()) == s1);
        }
    }
}

/// Undo leaves a well-formed view.
pub proof fn lemma_undone(v: EditorView)
    requires
        v.well_formed(),
    ensures
        v.undone().well_formed(),
{
    if v.undo.len() > 0 {
        let g = v.undo.last();
        let w = v.undone();
        lemma_undo_then_redo(v.text, g);
        lemma_caret_undone(v.text, g, v.caret);
        assert(w.redo.last() == g);
        assert(w.redo.drop_last() == v.redo);
        assert forall|i: int| 0 <= i < w.redo.len() implies (#[trigger] w.redo[i]).len() > 0 by {
            if i < v.redo.len() {
                assert(w.redo[i] == v.redo[i]);
            } else {
                assert(w.redo[i] == v.undo[v.undo.len() - 1]);
            }
        }
        assert forall|i: int| 0 <= i < w.undo.len() implies (#[trigger] w.undo[i]).len() > 0 by {
            assert(w.undo[i] == v.undo[i]);
        }
    }
}

/// Redo leaves a well-formed view.
pub proof fn lemma_redone(v: EditorView)
    requires
        v.well_formed(),
    ensures
        v.redone().well_formed(),
{
    if v.redo.len() > 0 {
        let g = v.redo.last();
        let w = v.redone();
        lemma_redo_then_undo(v.text, g);
        lemma_caret_redone(v.text, g, v.caret);
        assert(w.undo.last() == g);
        assert(w.undo.drop_last() == v.undo);
        assert forall|i: int| 0 <= i < w.undo.len() implies (#[trigger] w.undo[i]).len() > 0 by {
            if i < v.undo.len() {
                assert(w.undo[i] == v.undo[i]);
            } else {
                assert(w.undo[i] == v.redo[v.redo.len() - 1]);
            }
        }
        assert forall|i: int| 0 <= i < w.redo.len() implies (#[trigger] w.redo[i]).len() > 0 by {
            assert(w.redo[i] == v.redo[i]);
        }
    }
}

/// An edit that fits the text leaves a well-formed view.
pub proof fn lemma_after_edit(v: EditorView, e: Edit, now: u64)
    requires
        v.well_formed(),
        e.applies(v.text),
    ensures
        v.after_edit(e, now).well_formed(),
{
    let w = v.after_edit(e, now);
    assert(on_boundary(w.text, w.caret)) by {
        lemma_inverse(v.text, e);
    }
    assert(undo_chain(w.text, w.undo)) by {
        if v.starts_group(now) {
            lemma_chain_new_group(v.text, v.undo, e);
        } else {
            lemma_chain_append(v.text, v.undo, e);
        }
    }
    assert(redo_chain(w.text, w.redo));
    assert forall|i: int| 0 <= i < w.undo.len() implies (#[trigger] w.undo[i]).len() > 0 by {
        if v.starts_group(now) {
            if i < v.undo.len() {
                assert(w.undo[i] == v.undo[i]);
            } else {
                assert(w.undo[i] == seq![e]);
            }
        } else {
            if i < v.undo.len() - 1 {
                assert(w.undo[i] == v.undo[i]);
            } else {
                assert(w.undo[i] == v.undo.last().push(e));
            }
        }
    }
    assert(w.undo.len() > 0);
}

/// The view after the edits of `es`, each with its time, were made in order.
pub open spec fn after_edits(v: EditorView, es: Seq<(Edit, u64)>) -> EditorView
    decreases es.len(),
{
    if es.len() == 0 {
        v
    } else {
        after_edits(v, es.drop_last()).after_edit(es.last().0, es.last().1)
    }
}

/// Each edit of `es` fits the text that the edits before it leave.
pub open spec fn edits_fit(v: EditorView, es: Seq<(Edit, u64)>) -> bool
    decreases es.len(),
{
    es.len() == 0 || (edits_fit(v, es.drop_last()) && es.last().0.applies(
        after_edits(v, es.drop_last()).text,
    ))
}

/// The edits of `es` form one undo group: the first starts a group and
/// each later one joins it.
pub open spec fn one_group(v: EditorView, es: Seq<(Edit, u64)>) -> bool
    decreases es.len(),
{
    es.len() > 0 && if es.len() == 1 {
        v.starts_group(es[0].1)
    } else {
        one_group(v, es.drop_last()) && !after_edits(v, es.drop_last()).starts_group(es.last().1)
    }
}

/// Edits that fit leave a well-formed view.
pub proof fn lemma_after_edits(v: EditorView, es: Seq<(Edit, u64)>)
    requires
        v.well_formed(),
        edits_fit(v, es),
    ensures
        after_edits(v, es).well_formed(),
    decreases es.len(),
{
    if es.len() > 0 {
        lemma_after_edits(v, es.drop_last());
        lemma_after_edit(after_edits(v, es.drop_last()), es.last().0, es.last().1);
    }
}

/// One undo after a run of edits that form one group gives back the text
/// from before the first of them, and leaves the caret within the text.
/// The earlier undo groups are as they were.
pub proof fn lemma_undo_restores(v: EditorView, es: Seq<(Edit, u64)>)
    requires
        v.well_formed(),
        edits_fit(v, es),
        one_group(v, es),
    ensures
        after_edits(v, es).undone().text == v.text,
        after_edits(v, es).undone().undo == v.undo,
        0 <= after_edits(v, es).undone().caret <= byte_len(v.text),
    decreases es.len(),
{
    let prior = after_edits(v, es.drop_last());
    let e = es.last().0;
    let now = es.last().1;
    let w = after_edits(v, es);
    lemma_after_edits(v, es.drop_last());
    lemma_after_edits(v, es);
    lemma_inverse(prior.text, e);
    if es.len() == 1 {
        assert(es.drop_last().len() == 0);
        assert(prior == v);
        assert(w.undo.last() == seq![e]);
        lemma_undo_push(w.text, Seq::empty(), e);
        assert(Seq::<Edit>::empty().push(e) == seq![e]);
        assert(undo_all(v.text, Seq::<Edit>::empty()) == v.text);
        assert(w.undo.drop_last() == v.undo);
    } else {
        lemma_undo_restores(v, es.drop_last());
        assert(w.undo.last() == prior.undo.last().push(e));
        lemma_undo_push(w.text, prior.undo.last(), e);
        assert(w.undo.drop_last() == prior.undo.drop_last());
    }
    lemma_undone(w);
    lemma_char_index_at(w.undone().text, w.undone().caret);
}

/// The view after `k` undos.
pub open spec fn undone_times(v: EditorView, k: int) -> EditorView
    decreases k,
{
    if k <= 0 {
        v
    } else {
        undone_times(v.undone(), k - 1)
    }
}

/// What undos leave of the text and of the undo groups depends on the
/// text and the undo groups alone.
pub proof fn lemma_undone_times_same(a: EditorView, b: EditorView, k: int)
    requires
        a.text == b.text,
        a.undo == b.undo,
    ensures
        undone_times(a, k).text == undone_times(b, k).text,
        undone_times(a, k).undo == undone_times(b, k).undo,
    decreases k,
{
    if k > 0 {
        lemma_undone_times_same(a.undone(), b.undone(), k - 1);
    }
}

/// Undos leave a well-formed view.
pub proof fn lemma_undone_times(v: EditorView, k: int)
    requires
        v.well_formed(),
    ensures
        undone_times(v, k).well_formed(),
    decreases k,
{
    if k > 0 {
        lemma_undone(v);
        lemma_undone_times(v.undone(), k - 1);
    }
}

/// One undo after an edit takes back the group of the edit: the edit
/// alone, if it started a group, which leaves the text and the groups
/// from before the edit; else the group that the edit joined, which
/// leaves what one undo before the edit would have left.
pub proof fn lemma_edit_undone(v: EditorView, e: Edit, now: u64)
    requires
        v.well_formed(),
        e.applies(v.text),
    ensures
        ({
            let w = v.after_edit(e, now);
            if v.starts_group(now) {
                &&& w.undo.len() == v.undo.len() + 1
                &&& w.undone().text == v.text
                &&& w.undone().undo == v.undo
            } else {
                &&& w.undo.len() == v.undo.len()
                &&& v.undo.len() > 0
                &&& w.undone().text == v.undone().text
                &&& w.undone().undo == v.undone().undo
            }
        }),
{
    let w = v.after_edit(e, now);
    lemma_inverse(v.text, e);
    if v.starts_group(now) {
        assert(w.undo.last() == seq![e]);
        assert(w.undo.drop_last() == v.undo);
        lemma_undo_push(w.text, Seq::empty(), e);
        assert(Seq::<Edit>::empty().push(e) == seq![e]);
        assert(undo_all(v.text, Seq::<Edit>::empty()) == v.text);
    } else {
        assert(w.undo.last() == v.undo.last().push(e));
        assert(w.undo.drop_last() == v.undo.drop_last());
        lemma_undo_push(w.text, v.undo.last(), e);
    }
}

/// After any edits that fit, one undo for each undo group that the
/// edits made gives back the text and the undo groups from before the
/// edits, and leaves the caret within the text.
pub proof fn lemma_undo_all_restores(v: EditorView, es: Seq<(Edit, u64)>)
    requires
        v.well_formed(),
        !v.group_open,
        edits_fit(v, es),
    ensures
        after_edits(v, es).undo.len() >= v.undo.len(),
        es.len() > 0 ==> after_edits(v, es).undo.len() > v.undo.len() && after_edits(
            v,
            es,
        ).group_open,
        undone_times(after_edits(v, es), after_edits(v, es).undo.len() - v.undo.len()).text
            == v.text,
        undone_times(after_edits(v, es), after_edits(v, es).undo.len() - v.undo.len()).undo
            == v.undo,
    decreases es.len(),
{
    if es.len() > 0 {
        let prior = after_edits(v, es.drop_last());
        let e = es.last().0;
        let now = es.last().1;
        let w = prior.after_edit(e, now);
        let j = prior.undo.len() - v.undo.len();
        lemma_undo_all_restores(v, es.drop_last());
        lemma_after_edits(v, es.drop_last());
        lemma_edit_undone(prior, e, now);
        assert(w == after_edits(v, es));
        if prior.starts_group(now) {
            lemma_undone_times_same(w.undone(), prior, j);
            assert(undone_times(w, j + 1) == undone_times(w.undone(), j));
        } else {
            assert(prior.group_open);
            assert(es.drop_last().len() > 0);
            lemma_undone_times_same(w.undone(), prior.undone(), j - 1);
            assert(undone_times(w, j) == undone_times(w.undone(), j - 1));
            assert(undone_times(prior, j) == undone_times(prior.undone(), j - 1));
        }
    }
}

/// Undos after edits that fit leave the caret within the text.
pub proof fn lemma_undo_all_caret(v: EditorView, es: Seq<(Edit, u64)>, k: int)
    requires
        v.well_formed(),
        edits_fit(v, es),
    ensures
        0 <= undone_times(after_edits(v, es), k).caret <= byte_len(
            undone_times(after_edits(v, es), k).text,
        ),
{
    lemma_after_edits(v, es);
    let w = undone_times(after_edits(v, es), k);
    lemma_undone_times(after_edits(v, es), k);
    lemma_char_index_at(w.text, w.caret);
}

/// Undo followed by redo gives back the text, the modified flag and both
/// histories. The caret comes back too if it stood behind the last edit of
/// the group, which is where every edit leaves it.
pub proof fn lemma_undo_redo(v: EditorView)
    requires
        v.well_formed(),
        v.undo.len() > 0,
    ensures
        v.undone().redone().text == v.text,
        v.undone().redone().modified == v.modified,
        v.undone().redone().undo == v.undo,
        v.undone().redone().redo == v.redo,
        v.caret == v.undo.last().last().caret_after() ==> v.undone().redone().caret == v.caret,
{
    let g = v.undo.last();
    let u = v.undone();
    lemma_undo_then_redo(v.text, g);
    assert(u.redo.last() == g);
    assert(u.redo.drop_last() == v.redo);
    assert(u.undo.push(g) == v.undo);
}

/// Inserting text over a selection is the same as deleting the selection
/// and then inserting the text, which goes to where the selection began.
pub proof fn lemma_insert_replaces_selection(v: EditorView, t: Seq<char>, now: u64)
    requires
        v.well_formed(),
        v.selection() is Some,
    ensures
        v.with_text(t, now) == v.without_selection(now).with_text(t, now),
        v.without_selection(now).caret == v.selection().unwrap().0,
        v.with_text(t, now).text == splice(
            v.text,
            v.selection().unwrap().0,
            v.selection().unwrap().1,
            t,
        ),
{
    let (a, b) = v.selection().unwrap();
    let w = v.without_selection(now);
    assert(w.without_selection(now) == w);
    lemma_removal(v.text, a, b);
    lemma_splice(v.text, a, b, Seq::empty());
    lemma_char_index_at(v.text, a);
    lemma_char_index_at(v.text, b);
    lemma_char_index_ordered(v.text, a, b);
    let k1 = char_index(v.text, a);
    let k2 = char_index(v.text, b);
    assert(w.text == v.text.take(k1) + v.text.skip(k2));
    assert(w.text.take(k1) == v.text.take(k1));
    assert(w.text.skip(k1) == v.text.skip(k2));
}

} // verus!
