//! The mathematical model of edits: what one edit does to a text, how it is
//! inverted, and when a list of edits can be taken back or applied again.

use vstd::prelude::*;
use crate::text::{
    byte_len, char_index, lemma_byte_len_concat, lemma_char_index, lemma_char_index_at,
    lemma_char_index_ordered, on_boundary,
};

verus! {

/// One change to a text: `text` put in at byte offset `pos`, or taken out there.
pub struct Edit {
    pub insert: bool,
    pub pos: int,
    pub text: Seq<char>,
}

/// `s` with the bytes from `a` up to `b` replaced by `t`; `a` and `b` are boundaries.
pub open spec fn splice(s: Seq<char>, a: int, b: int, t: Seq<char>) -> Seq<char> {
    s.take(char_index(s, a)) + t + s.skip(char_index(s, b))
}

/// The characters of `s` from byte offset `a` up to `b`.
pub open spec fn slice(s: Seq<char>, a: int, b: int) -> Seq<char> {
    s.subrange(char_index(s, a), char_index(s, b))
}

impl Edit {
    /// The byte offset right behind the edit's text.
    pub open spec fn end(self) -> int {
        self.pos + byte_len(self.text)
    }

    /// The edit that takes this one back.
    pub open spec fn inverse(self) -> Edit {
        Edit { insert: !self.insert, pos: self.pos, text: self.text }
    }

    /// The edit fits the text `s`: an insertion needs a boundary to go to, a
    /// deletion needs its text to stand at its position.
    pub open spec fn applies(self, s: Seq<char>) -> bool {
        if self.insert {
            on_boundary(s, self.pos)
        } else {
            on_boundary(s, self.pos) && on_boundary(s, self.end()) && slice(
                s,
                self.pos,
                self.end(),
            ) == self.text
        }
    }

    /// The text after the edit.
    pub open spec fn apply(self, s: Seq<char>) -> Seq<char> {
        if self.insert {
            splice(s, self.pos, self.pos, self.text)
        } else {
            splice(s, self.pos, self.end(), Seq::empty())
        }
    }

    /// Where the caret stands after the edit.
    pub open spec fn caret_after(self) -> int {
        if self.insert {
            self.end()
        } else {
            self.pos
        }
    }
}

/// The edits of `ops` can be taken back from `s`, last one first.
pub open spec fn can_undo(s: Seq<char>, ops: Seq<Edit>) -> bool
    decreases ops.len(),
{
    ops.len() == 0 || (ops.last().inverse().applies(s) && can_undo(
        ops.last().inverse().apply(s),
        ops.drop_last(),
    ))
}

/// The text after the edits of `ops` have been taken back from `s`.
pub open spec fn undo_all(s: Seq<char>, ops: Seq<Edit>) -> Seq<char>
    decreases ops.len(),
{
    if ops.len() == 0 {
        s
    } else {
        undo_all(ops.last().inverse().apply(s), ops.drop_last())
    }
}

/// The edits of `ops` can be applied to `s`, first one first.
pub open spec fn can_redo(s: Seq<char>, ops: Seq<Edit>) -> bool
    decreases ops.len(),
{
    ops.len() == 0 || (ops[0].applies(s) && can_redo(ops[0].apply(s), ops.drop_first()))
}

/// The text after the edits of `ops` have been applied to `s`.
pub open spec fn redo_all(s: Seq<char>, ops: Seq<Edit>) -> Seq<char>
    decreases ops.len(),
{
    if ops.len() == 0 {
        s
    } else {
        redo_all(ops[0].apply(s), ops.drop_first())
    }
}

/// Every group of `groups` can be taken back from `s` in turn, the last group first.
pub open spec fn undo_chain(s: Seq<char>, groups: Seq<Seq<Edit>>) -> bool
    decreases groups.len(),
{
    groups.len() == 0 || (can_undo(s, groups.last()) && undo_chain(
        undo_all(s, groups.last()),
        groups.drop_last(),
    ))
}

/// Every group of `groups` can be applied to `s` in turn, the last group first.
pub open spec fn redo_chain(s: Seq<char>, groups: Seq<Seq<Edit>>) -> bool
    decreases groups.len(),
{
    groups.len() == 0 || (can_redo(s, groups.last()) && redo_chain(
        redo_all(s, groups.last()),
        groups.drop_last(),
    ))
}

/// What a splice at two boundaries leaves: the prefix keeps its length, the
/// new text follows it, and both ends of the new text are boundaries.
pub proof fn lemma_splice(s: Seq<char>, a: int, b: int, t: Seq<char>)
    requires
        on_boundary(s, a),
        on_boundary(s, b),
        a <= b,
    ensures
        on_boundary(splice(s, a, b, t), a),
        on_boundary(splice(s, a, b, t), a + byte_len(t)),
        char_index(splice(s, a, b, t), a) == char_index(s, a),
        char_index(splice(s, a, b, t), a + byte_len(t)) == char_index(s, a) + t.len(),
        byte_len(splice(s, a, b, t)) == byte_len(s) - (b - a) + byte_len(t),
        splice(s, a, b, t).len() == s.len() - (char_index(s, b) - char_index(s, a)) + t.len(),
{
    lemma_char_index_at(s, a);
    lemma_char_index_at(s, b);
    lemma_char_index_ordered(s, a, b);
    let k1 = char_index(s, a);
    let k2 = char_index(s, b);
    let r = splice(s, a, b, t);
    assert(r.take(k1) == s.take(k1));
    assert(r.take(k1 + t.len()) == s.take(k1) + t);
    lemma_byte_len_concat(s.take(k1), t);
    lemma_char_index(r, k1);
    lemma_char_index(r, k1 + t.len());
    lemma_byte_len_concat(s.take(k1) + t, s.skip(k2));
    assert(s == s.take(k2) + s.skip(k2));
    lemma_byte_len_concat(s.take(k2), s.skip(k2));
}

/// An edit that fits a text can be taken back from the result, which gives
/// the text again; the caret position after it is a boundary of the result.
pub proof fn lemma_inverse(s: Seq<char>, e: Edit)
    requires
        e.applies(s),
    ensures
        e.inverse().applies(e.apply(s)),
        e.inverse().apply(e.apply(s)) == s,
        e.inverse().inverse() == e,
        on_boundary(e.apply(s), e.caret_after()),
        on_boundary(e.apply(s), e.pos),
{
    lemma_char_index_at(s, e.pos);
    let k1 = char_index(s, e.pos);
    if e.insert {
        lemma_splice(s, e.pos, e.pos, e.text);
        let r = e.apply(s);
        assert(r.subrange(k1, k1 + e.text.len()) == e.text);
        assert(r.take(k1) + r.skip(k1 + e.text.len()) == s);
        assert(r.take(k1) + Seq::<char>::empty() + r.skip(k1 + e.text.len()) == s);
    } else {
        lemma_char_index_at(s, e.end());
        lemma_char_index_ordered(s, e.pos, e.end());
        let k2 = char_index(s, e.end());
        lemma_splice(s, e.pos, e.end(), Seq::empty());
        let r = e.apply(s);
        assert(byte_len(Seq::<char>::empty()) == 0);
        assert(r.take(k1) == s.take(k1));
        assert(r.skip(k1) == s.skip(k2));
        assert(s.take(k1) + s.subrange(k1, k2) + s.skip(k2) == s);
    }
}

/// Taking back a list that ends in `e` takes back `e` first.
pub proof fn lemma_undo_push(s: Seq<char>, ops: Seq<Edit>, e: Edit)
    ensures
        can_undo(s, ops.push(e)) == (e.inverse().applies(s) && can_undo(e.inverse().apply(s), ops)),
        undo_all(s, ops.push(e)) == undo_all(e.inverse().apply(s), ops),
{
    assert(ops.push(e).last() == e);
    assert(ops.push(e).drop_last() == ops);
}

/// Applying a list with one more edit at its end applies that edit last.
pub proof fn lemma_redo_push(s: Seq<char>, ops: Seq<Edit>, e: Edit)
    requires
        can_redo(s, ops),
    ensures
        can_redo(s, ops.push(e)) == e.applies(redo_all(s, ops)),
        redo_all(s, ops.push(e)) == e.apply(redo_all(s, ops)),
    decreases ops.len(),
{
    let ext = ops.push(e);
    if ops.len() == 0 {
        assert(ext[0] == e);
        assert(ext.drop_first() == Seq::<Edit>::empty());
        assert(can_redo(e.apply(s), ext.drop_first()));
        assert(redo_all(e.apply(s), ext.drop_first()) == e.apply(s));
        assert(redo_all(s, ext) == redo_all(e.apply(s), ext.drop_first()));
    } else {
        assert(ext[0] == ops[0]);
        assert(ext.drop_first() == ops.drop_first().push(e));
        lemma_redo_push(ops[0].apply(s), ops.drop_first(), e);
        assert(can_redo(s, ext) == (ops[0].applies(s) && can_redo(
            ops[0].apply(s),
            ext.drop_first(),
        )));
        assert(redo_all(s, ext) == redo_all(ops[0].apply(s), ext.drop_first()));
    }
}

/// Edits that were taken back can be applied again, which gives the text
/// from which they were taken back.
pub proof fn lemma_undo_then_redo(s: Seq<char>, ops: Seq<Edit>)
    requires
        can_undo(s, ops),
    ensures
        can_redo(undo_all(s, ops), ops),
        redo_all(undo_all(s, ops), ops) == s,
    decreases ops.len(),
{
    if ops.len() > 0 {
        let e = ops.last();
        let rest = ops.drop_last();
        let s1 = e.inverse().apply(s);
        lemma_undo_then_redo(s1, rest);
        lemma_inverse(s, e.inverse());
        lemma_redo_push(undo_all(s1, rest), rest, e);
        assert(rest.push(e) == ops);
    }
}

/// Edits that were applied can be taken back, which gives the text to
/// which they were applied.
pub proof fn lemma_redo_then_undo(s: Seq<char>, ops: Seq<Edit>)
    requires
        can_redo(s, ops),
    ensures
        can_undo(redo_all(s, ops), ops),
        undo_all(redo_all(s, ops), ops) == s,
    decreases ops.len(),
{
    if ops.len() > 0 {
        let rest = ops.drop_last();
        let e = ops.last();
        assert(rest.push(e) == ops);
        lemma_redo_prefix(s, rest, e);
        lemma_redo_then_undo(s, rest);
        let mid = redo_all(s, rest);
        lemma_redo_push(s, rest, e);
        lemma_inverse(mid, e);
        lemma_undo_push(e.apply(mid), rest, e);
    }
}

/// A list can be applied only if the list without its last edit can.
pub proof fn lemma_redo_prefix(s: Seq<char>, ops: Seq<Edit>, e: Edit)
    requires
        can_redo(s, ops.push(e)),
    ensures
        can_redo(s, ops),
    decreases ops.len(),
{
    let ext = ops.push(e);
    if ops.len() > 0 {
        assert(ext[0] == ops[0]);
        assert(ext.drop_first() == ops.drop_first().push(e));
        lemma_redo_prefix(ops[0].apply(s), ops.drop_first(), e);
    }
}

/// After an edit, the edit alone forms a group that can be taken back
/// before the earlier groups.
pub proof fn lemma_chain_new_group(s: Seq<char>, groups: Seq<Seq<Edit>>, e: Edit)
    requires
        undo_chain(s, groups),
        e.applies(s),
    ensures
        undo_chain(e.apply(s), groups.push(seq![e])),
{
    let after = e.apply(s);
    let ext = groups.push(seq![e]);
    lemma_inverse(s, e);
    lemma_undo_push(after, Seq::empty(), e);
    assert(Seq::<Edit>::empty().push(e) == seq![e]);
    assert(ext.last() == seq![e]);
    assert(ext.drop_last() == groups);
    assert(undo_all(s, Seq::empty()) == s);
}

/// After an edit, the last group with the edit added can be taken back
/// before the earlier groups.
pub proof fn lemma_chain_append(s: Seq<char>, groups: Seq<Seq<Edit>>, e: Edit)
    requires
        groups.len() > 0,
        undo_chain(s, groups),
        e.applies(s),
    ensures
        undo_chain(e.apply(s), groups.drop_last().push(groups.last().push(e))),
{
    let after = e.apply(s);
    let ext = groups.drop_last().push(groups.last().push(e));
    lemma_inverse(s, e);
    lemma_undo_push(after, groups.last(), e);
    assert(ext.last() == groups.last().push(e));
    assert(ext.drop_last() == groups.drop_last());
}

/// The text between two boundaries takes as many bytes as lie between them,
/// so the edit that removes it fits the text.
pub proof fn lemma_removal(s: Seq<char>, a: int, b: int)
    requires
        on_boundary(s, a),
        on_boundary(s, b),
        a <= b,
    ensures
        byte_len(slice(s, a, b)) == b - a,
        (Edit { insert: false, pos: a, text: slice(s, a, b) }).applies(s),
{
    lemma_char_index_at(s, a);
    lemma_char_index_at(s, b);
    lemma_char_index_ordered(s, a, b);
    let k1 = char_index(s, a);
    let k2 = char_index(s, b);
    assert(s.take(k2) == s.take(k1) + s.subrange(k1, k2));
    lemma_byte_len_concat(s.take(k1), s.subrange(k1, k2));
}

/// Taking back the first `i` edits of a list starts with edit `i - 1`.
pub proof fn lemma_undo_step(s: Seq<char>, ops: Seq<Edit>, i: int)
    requires
        0 < i <= ops.len(),
        can_undo(s, ops.take(i)),
    ensures
        ops[i - 1].inverse().applies(s),
        can_undo(ops[i - 1].inverse().apply(s), ops.take(i - 1)),
        undo_all(s, ops.take(i)) == undo_all(ops[i - 1].inverse().apply(s), ops.take(i - 1)),
{
    assert(ops.take(i).last() == ops[i - 1]);
    assert(ops.take(i).drop_last() == ops.take(i - 1));
}

/// Applying the edits of a list from `i` on starts with edit `i`.
pub proof fn lemma_redo_step(s: Seq<char>, ops: Seq<Edit>, i: int)
    requires
        0 <= i < ops.len(),
        can_redo(s, ops.skip(i)),
    ensures
        ops[i].applies(s),
        can_redo(ops[i].apply(s), ops.skip(i + 1)),
        redo_all(s, ops.skip(i)) == redo_all(ops[i].apply(s), ops.skip(i + 1)),
{
    assert(ops.skip(i)[0] == ops[i]);
    assert(ops.skip(i).drop_first() == ops.skip(i + 1));
}

} // verus!
