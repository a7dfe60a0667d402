//! The text buffer: a rope plus cached aggregate counts and an undo/redo
//! log of edit actions.
//!
//! Every edit records an action that, applied to the buffer as it stands
//! after the edit, restores the buffer as it stood before; consecutive
//! compatible edits coalesce into one such action.  The log's soundness
//! is carried by a ghost history: `undo_texts()` lists the buffer texts
//! that successive undos produce (most recent last), and `redo_texts()`
//! the texts that successive redos produce.  `well_formed()` ties every
//! stacked action to that history, so `undo` provably restores the
//! previous text and `redo` provably restores the undone one.
//!
//! The coalescing rule itself is part of the contracts: each edit states
//! whether it merged into the open unit (`open_action()`) or opened a
//! fresh one, with the merged action's exact shape, and the position
//! sequences `undo_positions()`/`redo_positions()` pin the cursor
//! position every undo or redo returns — the unit's recorded pre-edit
//! or post-edit position.

use vstd::prelude::*;

use crate::charseq::chars_to_string;
use crate::charseq::lemma_insert_remove_inverse;
use crate::charseq::lemma_nl_count_le_len;
use crate::charseq::lemma_nl_count_splice_in;
use crate::charseq::lemma_remove_insert_inverse;
use crate::charseq::lemma_splice_in_chain;
use crate::charseq::lemma_splice_in_same;
use crate::charseq::lemma_splice_out_twice;
use crate::charseq::count_newlines;
use crate::charseq::nl_count;
use crate::charseq::splice_in;
use crate::charseq::splice_out;
use crate::charseq::str_to_chars;
use crate::charseq::string_append;
use crate::charseq::subvec;
use crate::charseq::after_newline;
use crate::charseq::lines_of;
use crate::rope::Rope;
use crate::rope::RopeIterator;
use crate::rope::RopeLineIterator;
use crate::vector::Vector2D;

verus! {

/// One undoable unit: applying it to the buffer undoes the edit (or the
/// coalesced run of edits) it was recorded for, and the cursor positions
/// around that edit ride along so that undo and redo can restore them.
pub enum Action {
    Insert { index: usize, cursor_start: Vector2D, cursor_end: Vector2D, insert_text: String },
    Remove { index: usize, cursor_start: Vector2D, cursor_end: Vector2D, len: usize },
    Replace {
        index: usize,
        cursor_start: Vector2D,
        cursor_end: Vector2D,
        len: usize,
        replace_text: String,
    },
    Delete { index: usize, cursor_pos: Vector2D, len: usize },
    Append { index: usize, cursor_pos: Vector2D, append_text: String },
}

/// The text an action produces when applied to `t`, or `None` when the
/// action does not fit `t`.
pub open spec fn apply_action(a: Action, t: Seq<char>) -> Option<Seq<char>> {
    match a {
        Action::Insert { index, insert_text, .. } => {
            if index <= t.len() && t.len() + insert_text@.len() <= usize::MAX {
                Some(splice_in(t, index as int, insert_text@))
            } else {
                None
            }
        },
        Action::Remove { index, len, .. } => {
            if index + len <= t.len() {
                Some(splice_out(t, index as int, len as int))
            } else {
                None
            }
        },
        Action::Replace { index, len, replace_text, .. } => {
            if index + len <= t.len() && t.len() - len + replace_text@.len() <= usize::MAX {
                Some(
                    splice_in(
                        splice_out(t, index as int, len as int),
                        index as int,
                        replace_text@,
                    ),
                )
            } else {
                None
            }
        },
        Action::Delete { index, len, .. } => {
            if index + len <= t.len() {
                Some(splice_out(t, index as int, len as int))
            } else {
                None
            }
        },
        Action::Append { index, append_text, .. } => {
            if index <= t.len() && t.len() + append_text@.len() <= usize::MAX {
                Some(splice_in(t, index as int, append_text@))
            } else {
                None
            }
        },
    }
}

/// Where the cursor jumps when an action is executed.
pub open spec fn jump_target(a: Action) -> Vector2D {
    match a {
        Action::Insert { cursor_end, .. } => cursor_end,
        Action::Remove { cursor_end, .. } => cursor_end,
        Action::Replace { cursor_end, .. } => cursor_end,
        Action::Delete { cursor_pos, .. } => cursor_pos,
        Action::Append { cursor_pos, .. } => cursor_pos,
    }
}

/// The other recorded endpoint of an action: where the cursor stood on
/// the far side of the edit the action undoes.  Executing an action
/// produces an inverse whose `jump_target` is this position.
pub open spec fn inverse_target(a: Action) -> Vector2D {
    match a {
        Action::Insert { cursor_start, .. } => cursor_start,
        Action::Remove { cursor_start, .. } => cursor_start,
        Action::Replace { cursor_start, .. } => cursor_start,
        Action::Delete { cursor_pos, .. } => cursor_pos,
        Action::Append { cursor_pos, .. } => cursor_pos,
    }
}

/// The jump targets of a stack of actions, in stack order.
pub open spec fn jump_targets(s: Seq<Action>) -> Seq<Vector2D> {
    s.map_values(|a: Action| jump_target(a))
}

/// The far-side endpoints of a stack of actions, in stack order.
pub open spec fn inverse_targets(s: Seq<Action>) -> Seq<Vector2D> {
    s.map_values(|a: Action| inverse_target(a))
}

proof fn lemma_targets_push(s: Seq<Action>, a: Action)
    ensures
        jump_targets(s.push(a)) == jump_targets(s).push(jump_target(a)),
        inverse_targets(s.push(a)) == inverse_targets(s).push(inverse_target(a)),
{
    assert(jump_targets(s.push(a)) =~= jump_targets(s).push(jump_target(a)));
    assert(inverse_targets(s.push(a)) =~= inverse_targets(s).push(inverse_target(a)));
}

proof fn lemma_targets_drop_last(s: Seq<Action>)
    requires
        s.len() > 0,
    ensures
        jump_targets(s.drop_last()) == jump_targets(s).drop_last(),
        inverse_targets(s.drop_last()) == inverse_targets(s).drop_last(),
        jump_targets(s).last() == jump_target(s.last()),
        inverse_targets(s).last() == inverse_target(s.last()),
{
    assert(jump_targets(s.drop_last()) =~= jump_targets(s).drop_last());
    assert(inverse_targets(s.drop_last()) =~= inverse_targets(s).drop_last());
}

/// Whether an incoming undo action coalesces into the open one: the
/// kinds must line up (a replacement absorbs a following re-removal).
pub open spec fn merges_with(cur: Action, new: Action) -> bool {
    match (cur, new) {
        (Action::Remove { .. }, Action::Remove { .. }) => true,
        (Action::Insert { .. }, Action::Insert { .. }) => true,
        (Action::Append { .. }, Action::Append { .. }) => true,
        (Action::Delete { .. }, Action::Delete { .. }) => true,
        (Action::Replace { .. }, Action::Remove { .. }) => true,
        _ => false,
    }
}

/// The exact shape of the action that coalescing `new` into `cur`
/// leaves open: lengths add up, texts concatenate in undo order, the
/// far-side endpoint stays the run's original one and the near-side
/// endpoint moves to the newest edit's.
pub open spec fn merged_action(cur: Action, new: Action, m: Action) -> bool {
    match (cur, new) {
        (
            Action::Remove { index: i, cursor_end: ce, len: a, .. },
            Action::Remove { cursor_start: ncs, len: b, .. },
        ) => m == (Action::Remove {
            index: i,
            cursor_start: ncs,
            cursor_end: ce,
            len: (a + b) as usize,
        }),
        (
            Action::Insert { cursor_end: ce, insert_text: t, .. },
            Action::Insert { index: j, cursor_start: ncs, insert_text: u, .. },
        ) => {
            &&& m matches Action::Insert {
                index: mi,
                cursor_start: mcs,
                cursor_end: mce,
                insert_text: mt,
            }
            &&& mi == j
            &&& mcs == ncs
            &&& mce == ce
            &&& mt@ == u@ + t@
        },
        (
            Action::Append { index: i, append_text: t, .. },
            Action::Append { cursor_pos: ncp, append_text: u, .. },
        ) => {
            &&& m matches Action::Append { index: mi, cursor_pos: mcp, append_text: mt }
            &&& mi == i
            &&& mcp == ncp
            &&& mt@ == t@ + u@
        },
        (
            Action::Delete { index: i, cursor_pos: cp, len: a },
            Action::Delete { len: b, .. },
        ) => m == (Action::Delete { index: i, cursor_pos: cp, len: (a + b) as usize }),
        (
            Action::Replace { index: i, cursor_end: ce, len: a, replace_text: rt, .. },
            Action::Remove { cursor_start: ncs, len: b, .. },
        ) => {
            &&& m matches Action::Replace {
                index: mi,
                cursor_start: mcs,
                cursor_end: mce,
                len: ml,
                replace_text: mrt,
            }
            &&& mi == i
            &&& mcs == ncs
            &&& mce == ce
            &&& ml == a + b
            &&& mrt == rt
        },
        _ => false,
    }
}

/// The undo action an insertion records: re-remove the inserted range,
/// with the edit's cursor endpoints swapped.
pub open spec fn insert_undo(index: usize, cursor_start: Vector2D, cursor_end: Vector2D,
    n: int) -> Action {
    Action::Remove { index, cursor_start: cursor_end, cursor_end: cursor_start, len: n as usize }
}

/// The undo action a removal records: re-insert the removed text, with
/// the edit's cursor endpoints swapped.
pub open spec fn is_remove_undo(t0: Seq<char>, index: int, len: int, cursor_start: Vector2D,
    cursor_end: Vector2D, a: Action) -> bool {
    &&& a matches Action::Insert {
        index: ai,
        cursor_start: acs,
        cursor_end: ace,
        insert_text: at,
    }
    &&& ai == index
    &&& acs == cursor_end
    &&& ace == cursor_start
    &&& at@ == t0.subrange(index, index + len)
}

/// The undo action a forward deletion records: re-append the deleted
/// text at the unchanged cursor position.
pub open spec fn is_delete_undo(t0: Seq<char>, index: int, len: int, cursor_pos: Vector2D,
    a: Action) -> bool {
    &&& a matches Action::Append { index: ai, cursor_pos: acp, append_text: at }
    &&& ai == index
    &&& acp == cursor_pos
    &&& at@ == t0.subrange(index, index + len)
}

/// The undo action a replacement records: the reverse replacement, back
/// toward the jump origin.
pub open spec fn is_replace_undo(t0: Seq<char>, index: int, len: int, jump_pos: Vector2D,
    cursor_end: Vector2D, new_len: int, a: Action) -> bool {
    &&& a matches Action::Replace {
        index: ai,
        cursor_start: acs,
        cursor_end: ace,
        len: al,
        replace_text: at,
    }
    &&& ai == index
    &&& acs == cursor_end
    &&& ace == jump_pos
    &&& al == new_len
    &&& at@ == t0.subrange(index, index + len)
}

/// The actions in `actions`, applied from the last to the first starting
/// at text `t`, step through the texts of `hist` from the last to the
/// first.
pub open spec fn undo_chain_ok(actions: Seq<Action>, t: Seq<char>, hist: Seq<Seq<char>>) -> bool
    decreases actions.len(),
{
    &&& actions.len() == hist.len()
    &&& (actions.len() > 0 ==> {
        &&& apply_action(actions.last(), t) == Some(hist.last())
        &&& undo_chain_ok(actions.drop_last(), hist.last(), hist.drop_last())
    })
}

pub struct TextRope {
    root: Rope,
    len: usize,
    line_count: usize,
    undo_stack: Vec<Action>,
    current_action: Option<Action>,
    redo_stack: Vec<Action>,
    space_flag: bool,
    undo_hist: Ghost<Seq<Seq<char>>>,
    redo_hist: Ghost<Seq<Seq<char>>>,
}

impl TextRope {
    /// The character sequence the buffer stores.
    pub closed spec fn text(self) -> Seq<char> {
        self.root.text()
    }

    /// The texts that successive undos produce, most recent last.
    pub closed spec fn undo_texts(self) -> Seq<Seq<char>> {
        self.undo_hist@
    }

    /// The texts that successive redos produce, most recent last.
    pub closed spec fn redo_texts(self) -> Seq<Seq<char>> {
        self.redo_hist@
    }

    /// The still-open undo unit, if one is accumulating.
    pub closed spec fn open_action(self) -> Option<Action> {
        self.current_action
    }

    /// Whether the open unit is a run of single-space insertions.
    pub closed spec fn space_run(self) -> bool {
        self.space_flag
    }

    /// The cursor positions successive undos return, most recent last:
    /// each unit's recorded pre-edit position.
    pub closed spec fn undo_positions(self) -> Seq<Vector2D> {
        jump_targets(self.chain())
    }

    /// Each undo unit's recorded post-edit position: where a later redo
    /// of that unit returns the cursor.
    pub closed spec fn undo_posts(self) -> Seq<Vector2D> {
        inverse_targets(self.chain())
    }

    /// The cursor positions successive redos return, most recent last:
    /// each undone unit's recorded post-edit position.
    pub closed spec fn redo_positions(self) -> Seq<Vector2D> {
        jump_targets(self.redo_stack@)
    }

    /// Each redoable unit's far-side position: where undoing it again
    /// returns the cursor.
    pub closed spec fn redo_posts(self) -> Seq<Vector2D> {
        inverse_targets(self.redo_stack@)
    }

    /// The undo log as one sequence: closed actions first, then the
    /// still-open one.
    spec fn chain(self) -> Seq<Action> {
        self.undo_stack@ + (match self.current_action {
            Some(a) => seq![a],
            None => Seq::<Action>::empty(),
        })
    }

    /// The rope invariant with exact cached heights and the balance
    /// bound, plus exact aggregate caches.
    spec fn cache_ok(self) -> bool {
        &&& self.root.well_formed()
        &&& self.root.heights_exact()
        &&& self.root.balanced()
        &&& self.len == self.root.text().len()
        &&& self.line_count == nl_count(self.root.text())
    }

    /// Everything but the text itself is equal: the undo/redo log, its
    /// ghost histories and the space-run flag.
    spec fn log_eq(self, other: TextRope) -> bool {
        &&& self.undo_stack@ == other.undo_stack@
        &&& self.current_action == other.current_action
        &&& self.redo_stack@ == other.redo_stack@
        &&& self.undo_hist@ == other.undo_hist@
        &&& self.redo_hist@ == other.redo_hist@
        &&& self.space_flag == other.space_flag
    }

    /// Full invariant: exact caches, and both logs tied to their ghost
    /// histories from the current text.  While anything is redoable no
    /// action is left open, so a redo entry is never stranded behind an
    /// open coalescing run.
    pub closed spec fn well_formed(self) -> bool {
        &&& self.cache_ok()
        &&& undo_chain_ok(self.chain(), self.root.text(), self.undo_hist@)
        &&& undo_chain_ok(self.redo_stack@, self.root.text(), self.redo_hist@)
        &&& (self.redo_stack@.len() > 0 ==> self.current_action is None)
    }

    /// When the caller reports the cursor as not tampered with, an
    /// insertion must contiguously extend the open action it would
    /// coalesce into: it lands inside or right after a pending re-removal
    /// range.  A cursor that only moved by typing satisfies this.
    pub open spec fn insert_coalesces_at(self, index: int, n: int) -> bool {
        match self.open_action() {
            Some(Action::Remove { index: i, len: a, .. }) => i <= index <= i + a && a + n
                <= usize::MAX,
            Some(Action::Replace { index: i, len: a, .. }) => i <= index <= i + a && a + n
                <= usize::MAX,
            _ => true,
        }
    }

    /// When the cursor is not tampered with, a removal coalescing into a
    /// pending re-insertion must remove the range immediately before it,
    /// as a run of backspaces does.
    pub open spec fn remove_coalesces_at(self, index: int, n: int) -> bool {
        match self.open_action() {
            Some(Action::Insert { index: i, insert_text: t, .. }) => index + n == i && t@.len() + n
                <= usize::MAX,
            _ => true,
        }
    }

    /// When the cursor is not tampered with, a forward deletion
    /// coalescing into a pending re-append must delete at the same index,
    /// as repeated delete-forward does.
    pub open spec fn delete_coalesces_at(self, index: int, n: int) -> bool {
        match self.open_action() {
            Some(Action::Append { index: i, append_text: t, .. }) => index == i && t@.len() + n
                <= usize::MAX,
            _ => true,
        }
    }

    pub fn new() -> (r: Self)
        ensures
            r.well_formed(),
            r.text() == Seq::<char>::empty(),
            r.undo_texts() == Seq::<Seq<char>>::empty(),
            r.redo_texts() == Seq::<Seq<char>>::empty(),
            r.undo_positions() == Seq::<Vector2D>::empty(),
            r.redo_positions() == Seq::<Vector2D>::empty(),
            r.open_action() is None,
            !r.space_run(),
    {
        Self::default()
    }

    /// The character at `index`, or `None` past the end.
    pub fn get(&self, index: usize) -> (r: Option<char>)
        requires
            self.well_formed(),
        ensures
            index < self.text().len() ==> r == Some(self.text()[index as int]),
            index >= self.text().len() ==> r is None,
    {
        self.root.get(index)
    }

    /// Character index at which line `target_line` starts.
    pub fn get_line_index(&self, target_line: usize) -> (r: usize)
        requires
            self.well_formed(),
            target_line <= nl_count(self.text()),
        ensures
            r == if target_line == 0 {
                0int
            } else {
                after_newline(self.text(), target_line - 1)
            },
    {
        self.root.line_start_index(target_line)
    }

    /// A fresh forward iterator over the buffer's characters.
    pub fn chars(&self) -> (it: RopeIterator)
        ensures
            it.chars@ == self.text(),
            it.pos == 0,
    {
        self.root.chars()
    }

    /// A fresh forward iterator over the buffer's lines.
    pub fn lines(&self) -> (it: RopeLineIterator)
        ensures
            it.lines.deep_view() == lines_of(self.text()),
            it.pos == 0,
    {
        self.root.lines()
    }

    /// Number of characters stored.
    pub fn len(&self) -> (r: usize)
        requires
            self.well_formed(),
        ensures
            r == self.text().len(),
    {
        self.len
    }

    /// Number of lines: one more than the number of newlines.
    pub fn line_count(&self) -> (r: usize)
        requires
            self.well_formed(),
            self.text().len() < usize::MAX,
        ensures
            r == nl_count(self.text()) + 1,
    {
        proof {
            lemma_nl_count_le_len(self.text());
        }
        self.line_count + 1
    }

    /// Structural edit: splices `insert_text` in at `index` and updates
    /// the caches, leaving the undo/redo log untouched.
    fn _insert(self, index: usize, insert_text: &str) -> (res: (Self, usize))
        requires
            self.cache_ok(),
            index <= self.text().len(),
            self.text().len() + insert_text@.len() <= usize::MAX,
        ensures
            res.0.cache_ok(),
            res.0.text() == splice_in(self.text(), index as int, insert_text@),
            res.0.log_eq(self),
            res.1 == insert_text@.len(),
    {
        let chars = str_to_chars(insert_text);
        let len = chars.len();
        let line_count = count_newlines(&chars);
        proof {
            lemma_nl_count_splice_in(self.text(), index as int, insert_text@);
            lemma_nl_count_le_len(self.text());
            lemma_nl_count_le_len(insert_text@);
        }
        let TextRope {
            root,
            len: old_len,
            line_count: old_lines,
            undo_stack,
            current_action,
            redo_stack,
            space_flag,
            undo_hist,
            redo_hist,
        } = self;
        let new_root = root.insert(index, insert_text);
        (
            Self {
                root: new_root,
                len: old_len + len,
                line_count: old_lines + line_count,
                undo_stack,
                current_action,
                redo_stack,
                space_flag,
                undo_hist,
                redo_hist,
            },
            len,
        )
    }

    /// Structural edit: removes `len` characters at `index`, updates the
    /// caches, and returns the removed characters as a string, leaving
    /// the undo/redo log untouched.  Removing nothing is a no-op.
    fn _remove(self, index: usize, len: usize) -> (res: (Self, String))
        requires
            self.cache_ok(),
            index + len <= self.text().len(),
        ensures
            res.0.cache_ok(),
            res.0.text() == splice_out(self.text(), index as int, len as int),
            res.0.log_eq(self),
            res.1@ == self.text().subrange(index as int, index + len),
        decreases len,
    {
        if len == 0 {
            proof {
                assert(splice_out(self.text(), index as int, 0) =~= self.text());
                assert(self.text().subrange(index as int, index as int) =~= Seq::<char>::empty());
            }
            let removed = String::new();
            (self, removed)
        } else {
            let it = self.root.chars();
            let taken = subvec(&it.chars, index, index + len);
            let removed_text = chars_to_string(&taken);
            proof {
                assert(taken@ =~= self.text().subrange(index as int, index + len));
            }
            let TextRope {
                root,
                len: old_len,
                line_count: _,
                undo_stack,
                current_action,
                redo_stack,
                space_flag,
                undo_hist,
                redo_hist,
            } = self;
            let new_root = root.remove(index, len);
            let new_lines = new_root._line_count();
            (
                Self {
                    len: old_len - len,
                    line_count: new_lines,
                    root: new_root,
                    undo_stack,
                    current_action,
                    redo_stack,
                    space_flag,
                    undo_hist,
                    redo_hist,
                },
                removed_text,
            )
        }
    }
}

impl Default for TextRope {
    fn default() -> (r: Self)
        ensures
            r.well_formed(),
            r.text() == Seq::<char>::empty(),
            r.undo_texts() == Seq::<Seq<char>>::empty(),
            r.redo_texts() == Seq::<Seq<char>>::empty(),
            r.undo_positions() == Seq::<Vector2D>::empty(),
            r.redo_positions() == Seq::<Vector2D>::empty(),
            r.open_action() is None,
            !r.space_run(),
    {
        let r = Self {
            root: Rope::new(),
            len: 0,
            line_count: 0,
            undo_stack: Vec::new(),
            current_action: None,
            redo_stack: Vec::new(),
            space_flag: false,
            undo_hist: Ghost(Seq::empty()),
            redo_hist: Ghost(Seq::empty()),
        };
        proof {
            assert(r.chain() =~= Seq::<Action>::empty());
        }
        r
    }
}

/// Extending the undo log with an action that restores `prev` from `t1`
/// keeps the whole log sound.
proof fn lemma_chain_extend(
    chain0: Seq<Action>,
    a: Action,
    t1: Seq<char>,
    prev: Seq<char>,
    hist0: Seq<Seq<char>>,
)
    requires
        undo_chain_ok(chain0, prev, hist0),
        apply_action(a, t1) == Some(prev),
    ensures
        undo_chain_ok(chain0.push(a), t1, hist0.push(prev)),
{
    assert(chain0.push(a).drop_last() =~= chain0);
    assert(hist0.push(prev).drop_last() =~= hist0);
    assert(chain0.push(a).last() == a);
    assert(hist0.push(prev).last() == prev);
}

/// Replacing the open action by a merged one that reaches the same
/// restored text from the new buffer text keeps the log sound, without
/// growing the history.
proof fn lemma_chain_merge(
    stack0: Seq<Action>,
    cur: Action,
    m: Action,
    t1: Seq<char>,
    prev: Seq<char>,
    hist0: Seq<Seq<char>>,
)
    requires
        undo_chain_ok(stack0 + seq![cur], prev, hist0),
        apply_action(m, t1) == apply_action(cur, prev),
    ensures
        undo_chain_ok(stack0 + seq![m], t1, hist0),
{
    assert((stack0 + seq![cur]).last() == cur);
    assert((stack0 + seq![cur]).drop_last() =~= stack0);
    assert((stack0 + seq![m]).last() == m);
    assert((stack0 + seq![m]).drop_last() =~= stack0);
}

/// After a push-shaped log update (a new unit opened, the old open one
/// closed onto the stack if there was one), the undo chain and both
/// position sequences grow by the new action's entries.
proof fn lemma_log_after_push(pre: TextRope, post: TextRope, a: Action)
    requires
        post.current_action == Some(a),
        (pre.current_action is None && post.undo_stack@ == pre.undo_stack@) || (
        pre.current_action is Some && post.undo_stack@ == pre.undo_stack@.push(
            pre.current_action.unwrap(),
        )),
    ensures
        post.chain() == pre.chain().push(a),
        post.undo_positions() == pre.undo_positions().push(jump_target(a)),
        post.undo_posts() == pre.undo_posts().push(inverse_target(a)),
{
    assert(post.chain() =~= pre.chain().push(a));
    lemma_targets_push(pre.chain(), a);
}

/// After a merge-shaped log update (the open unit replaced by the merged
/// one), the undo chain keeps its length and only its last entries move.
proof fn lemma_log_after_merge(pre: TextRope, post: TextRope, m: Action)
    requires
        pre.current_action is Some,
        post.current_action == Some(m),
        post.undo_stack@ == pre.undo_stack@,
    ensures
        post.undo_positions() == pre.undo_positions().drop_last().push(jump_target(m)),
        post.undo_posts() == pre.undo_posts().drop_last().push(inverse_target(m)),
        pre.undo_positions().len() >= 1,
        pre.undo_positions().last() == jump_target(pre.current_action.unwrap()),
        pre.undo_posts().last() == inverse_target(pre.current_action.unwrap()),
{
    let c = pre.current_action.unwrap();
    assert(pre.chain() =~= pre.undo_stack@.push(c));
    assert(post.chain() =~= pre.undo_stack@.push(m));
    lemma_targets_push(pre.undo_stack@, m);
    lemma_targets_push(pre.undo_stack@, c);
    assert(jump_targets(pre.undo_stack@) =~= pre.undo_positions().drop_last());
    assert(inverse_targets(pre.undo_stack@) =~= pre.undo_posts().drop_last());
}

/// What coalescing demands of the open action and the incoming one when
/// the cursor was not tampered with: matching variants must be spatially
/// adjacent, and merged lengths must fit the machine.
spec fn merge_pre(cur: Option<Action>, new: Action) -> bool {
    match cur {
        None => true,
        Some(c) => match (c, new) {
            (
                Action::Remove { index: i, len: a, .. },
                Action::Remove { index: j, len: b, .. },
            ) => i <= j <= i + a && a + b <= usize::MAX,
            (
                Action::Insert { index: i, insert_text: t, .. },
                Action::Insert { index: j, insert_text: u, .. },
            ) => i == j + u@.len() && t@.len() + u@.len() <= usize::MAX,
            (
                Action::Append { index: i, append_text: t, .. },
                Action::Append { index: j, append_text: u, .. },
            ) => j == i && t@.len() + u@.len() <= usize::MAX,
            (
                Action::Delete { index: i, len: a, .. },
                Action::Delete { index: j, len: b, .. },
            ) => i <= j <= i + a && a + b <= usize::MAX,
            (
                Action::Replace { index: i, len: a, .. },
                Action::Remove { index: j, len: b, .. },
            ) => i <= j <= i + a && a + b <= usize::MAX,
            _ => true,
        },
    }
}

impl Action {
    fn new_insert(index: usize, cursor_start: Vector2D, cursor_end: Vector2D, insert_text: String) -> (r:
        Self)
        ensures
            r == (Action::Insert { index, cursor_start, cursor_end, insert_text }),
    {
        Self::Insert { index, cursor_start, cursor_end, insert_text }
    }

    fn new_remove(index: usize, cursor_start: Vector2D, cursor_end: Vector2D, len: usize) -> (r:
        Self)
        ensures
            r == (Action::Remove { index, cursor_start, cursor_end, len }),
    {
        Self::Remove { index, cursor_start, cursor_end, len }
    }

    fn new_replace(index: usize, cursor_start: Vector2D, cursor_end: Vector2D, len: usize,
        replace_text: String) -> (r: Self)
        ensures
            r == (Action::Replace { index, cursor_start, cursor_end, len, replace_text }),
    {
        Self::Replace { index, cursor_start, cursor_end, len, replace_text }
    }

    fn new_delete(index: usize, cursor_pos: Vector2D, len: usize) -> (r: Self)
        ensures
            r == (Action::Delete { index, cursor_pos, len }),
    {
        Self::Delete { index, cursor_pos, len }
    }

    fn new_append(index: usize, cursor_pos: Vector2D, append_text: String) -> (r: Self)
        ensures
            r == (Action::Append { index, cursor_pos, append_text }),
    {
        Self::Append { index, cursor_pos, append_text }
    }

    /// Applies this action to the buffer and returns the edited buffer,
    /// the exact inverse action, and where the cursor should jump.
    /// Applying the returned inverse to the returned buffer restores the
    /// text the buffer held before.
    fn execute(self, text_data: TextRope) -> (res: (TextRope, Action, Vector2D))
        requires
            text_data.cache_ok(),
            apply_action(self, text_data.text()) is Some,
        ensures
            res.0.cache_ok(),
            res.0.log_eq(text_data),
            Some(res.0.text()) == apply_action(self, text_data.text()),
            apply_action(res.1, res.0.text()) == Some(text_data.text()),
            res.2 == jump_target(self),
            jump_target(res.1) == inverse_target(self),
            inverse_target(res.1) == jump_target(self),
            self matches Action::Insert { index, cursor_start, cursor_end, insert_text } ==> res.1
                == (Action::Remove {
                index,
                cursor_start: cursor_end,
                cursor_end: cursor_start,
                len: insert_text@.len() as usize,
            }),
            self matches Action::Remove { index, cursor_start, cursor_end, len } ==> is_remove_undo(
                text_data.text(),
                index as int,
                len as int,
                cursor_start,
                cursor_end,
                res.1,
            ),
            self matches Action::Replace { index, cursor_start, cursor_end, len, replace_text }
                ==> is_replace_undo(
                text_data.text(),
                index as int,
                len as int,
                cursor_start,
                cursor_end,
                replace_text@.len() as int,
                res.1,
            ),
            self matches Action::Delete { index, cursor_pos, len } ==> is_delete_undo(
                text_data.text(),
                index as int,
                len as int,
                cursor_pos,
                res.1,
            ),
            self matches Action::Append { index, cursor_pos, append_text } ==> res.1 == (
            Action::Delete { index, cursor_pos, len: append_text@.len() as usize }),
    {
        let ghost t0 = text_data.text();
        proof {
            assert(t0.len() <= usize::MAX);
        }
        match self {
            Action::Insert { index, cursor_start, cursor_end, insert_text } => {
                let (new_text_data, len) = text_data._insert(index, insert_text.as_str());
                let inverted_action = Action::new_remove(index, cursor_end, cursor_start, len);
                proof {
                    lemma_insert_remove_inverse(t0, index as int, insert_text@);
                }
                (new_text_data, inverted_action, cursor_end)
            },
            Action::Remove { index, cursor_start, cursor_end, len } => {
                let (new_text_data, insert_text) = text_data._remove(index, len);
                let inverted_action = Action::new_insert(index, cursor_end, cursor_start,
                    insert_text);
                proof {
                    lemma_remove_insert_inverse(t0, index as int, len as int);
                }
                (new_text_data, inverted_action, cursor_end)
            },
            Action::Replace { index, cursor_start, cursor_end, len, replace_text } => {
                let (new_text_data, removed_text) = text_data._remove(index, len);
                let ghost t1 = new_text_data.text();
                let (new_text_data, new_len) = new_text_data._insert(index, replace_text.as_str());
                let inverted_action = Action::new_replace(index, cursor_end, cursor_start, new_len,
                    removed_text);
                proof {
                    lemma_insert_remove_inverse(t1, index as int, replace_text@);
                    lemma_remove_insert_inverse(t0, index as int, len as int);
                }
                (new_text_data, inverted_action, cursor_end)
            },
            Action::Delete { index, cursor_pos, len } => {
                let (new_text_data, insert_text) = text_data._remove(index, len);
                let inverted_action = Action::new_append(index, cursor_pos, insert_text);
                proof {
                    lemma_remove_insert_inverse(t0, index as int, len as int);
                }
                (new_text_data, inverted_action, cursor_pos)
            },
            Action::Append { index, cursor_pos, append_text } => {
                let (new_text_data, len) = text_data._insert(index, append_text.as_str());
                let inverted_action = Action::new_delete(index, cursor_pos, len);
                proof {
                    lemma_insert_remove_inverse(t0, index as int, append_text@);
                }
                (new_text_data, inverted_action, cursor_pos)
            },
        }
    }
}

impl TextRope {
    /// Closes the still-open action, if any, by moving it onto the undo
    /// stack.  The undo log and its history are unchanged as a whole.
    fn push_current_action(&mut self)
        requires
            old(self).well_formed(),
        ensures
            final(self).well_formed(),
            final(self).root == old(self).root,
            final(self).len == old(self).len,
            final(self).line_count == old(self).line_count,
            final(self).space_flag == old(self).space_flag,
            final(self).redo_stack@ == old(self).redo_stack@,
            final(self).undo_hist@ == old(self).undo_hist@,
            final(self).redo_hist@ == old(self).redo_hist@,
            final(self).chain() == old(self).chain(),
            final(self).current_action is None,
    {
        let cur = self.current_action.take();
        match cur {
            Some(current_action) => {
                self.undo_stack.push(current_action);
                proof {
                    assert(final(self).chain() =~= old(self).chain());
                }
            },
            None => {
                proof {
                    assert(final(self).chain() =~= old(self).chain());
                }
            },
        }
    }

    /// Records the undo action of an edit that was just applied.  `prev`
    /// is the text as it stood before that edit, which applying
    /// `new_undo_action` to the current text restores.  The redo log is
    /// discarded; the new action either coalesces into the open one (when
    /// the cursor was not tampered with and the variants and positions
    /// line up) or opens a fresh undo unit.
    #[verifier::rlimit(60)]
    #[verifier::spinoff_prover]
    fn push_undo(&mut self, new_undo_action: Action, tamper_flag: bool, prev: Ghost<Seq<char>>)
        requires
            old(self).cache_ok(),
            undo_chain_ok(old(self).chain(), prev@, old(self).undo_hist@),
            apply_action(new_undo_action, old(self).text()) == Some(prev@),
            !tamper_flag ==> merge_pre(old(self).current_action, new_undo_action),
        ensures
            final(self).well_formed(),
            final(self).root == old(self).root,
            final(self).len == old(self).len,
            final(self).line_count == old(self).line_count,
            final(self).space_flag == old(self).space_flag,
            final(self).redo_stack@ == Seq::<Action>::empty(),
            final(self).redo_hist@ == Seq::<Seq<char>>::empty(),
            final(self).current_action is Some,
            final(self).undo_hist@ == old(self).undo_hist@ || final(self).undo_hist@ == old(
                self,
            ).undo_hist@.push(prev@),
            old(self).undo_hist@.len() == 0 ==> final(self).undo_hist@ == seq![prev@],
            final(self).undo_hist@.len() >= 1,
            old(self).current_action is None ==> {
                &&& final(self).current_action == Some(new_undo_action)
                &&& final(self).undo_stack@ == old(self).undo_stack@
                &&& final(self).undo_hist@ == old(self).undo_hist@.push(prev@)
            },
            (old(self).current_action is Some && tamper_flag) ==> ({
                let c = old(self).current_action.unwrap();
                &&& final(self).current_action == Some(new_undo_action)
                &&& final(self).undo_stack@ == old(self).undo_stack@.push(c)
                &&& final(self).undo_hist@ == old(self).undo_hist@.push(prev@)
            }),
            (old(self).current_action is Some && !tamper_flag && merges_with(
                old(self).current_action.unwrap(),
                new_undo_action,
            )) ==> ({
                let c = old(self).current_action.unwrap();
                &&& final(self).undo_stack@ == old(self).undo_stack@
                &&& final(self).undo_hist@ == old(self).undo_hist@
                &&& (final(self).current_action matches Some(m) && merged_action(
                    c,
                    new_undo_action,
                    m,
                ))
            }),
            (old(self).current_action is Some && !tamper_flag && !merges_with(
                old(self).current_action.unwrap(),
                new_undo_action,
            )) ==> ({
                let c = old(self).current_action.unwrap();
                &&& final(self).current_action == Some(new_undo_action)
                &&& final(self).undo_stack@ == old(self).undo_stack@.push(c)
                &&& final(self).undo_hist@ == old(self).undo_hist@.push(prev@)
            }),
    {
        let ghost t1 = self.root.text();
        let ghost hist0 = self.undo_hist@;
        let ghost stack0 = self.undo_stack@;
        let ghost chain0 = self.chain();
        self.redo_stack = Vec::new();
        self.redo_hist = Ghost(Seq::empty());
        let cur_opt = self.current_action.take();
        match cur_opt {
            None => {
                self.current_action = Some(new_undo_action);
                self.undo_hist = Ghost(hist0.push(prev@));
                proof {
                    assert(chain0 =~= stack0);
                    lemma_chain_extend(chain0, new_undo_action, t1, prev@, hist0);
                    assert(self.chain() =~= chain0.push(new_undo_action));
                    if hist0.len() == 0 {
                        assert(hist0.push(prev@) =~= seq![prev@]);
                    }
                }
                return ;
            },
            Some(current_action) => {
                let ghost cur = current_action;
                proof {
                    assert(chain0 =~= stack0 + seq![cur]);
                    assert(chain0.last() == cur);
                    assert(chain0.drop_last() =~= stack0);
                    assert(apply_action(cur, prev@) == Some(hist0.last()));
                }
                if tamper_flag {
                    self.undo_stack.push(current_action);
                    self.current_action = Some(new_undo_action);
                    self.undo_hist = Ghost(hist0.push(prev@));
                    proof {
                        lemma_chain_extend(chain0, new_undo_action, t1, prev@, hist0);
                        assert(self.chain() =~= chain0.push(new_undo_action));
                    }
                    return ;
                }
                match current_action {
                    Action::Append { index, cursor_pos, mut append_text } => {
                        match new_undo_action {
                            Action::Append {
                                cursor_pos: new_cursor_pos,
                                append_text: new_append_text,
                                ..
                            } => {
                                proof {
                                    lemma_splice_in_same(
                                        t1,
                                        index as int,
                                        append_text@,
                                        new_append_text@,
                                    );
                                }
                                string_append(&mut append_text, new_append_text.as_str());
                                let merged = Action::new_append(index, new_cursor_pos, append_text);
                                proof {
                                    lemma_chain_merge(stack0, cur, merged, t1, prev@, hist0);
                                }
                                self.current_action = Some(merged);
                                proof {
                                    assert(self.chain() =~= stack0 + seq![merged]);
                                }
                            },
                            other => {
                                self.undo_stack.push(
                                    Action::new_append(index, cursor_pos, append_text),
                                );
                                self.current_action = Some(other);
                                self.undo_hist = Ghost(hist0.push(prev@));
                                proof {
                                    lemma_chain_extend(chain0, other, t1, prev@, hist0);
                                    assert(self.chain() =~= chain0.push(other));
                                }
                            },
                        }
                    },
                    Action::Delete { index, cursor_pos, len } => {
                        match new_undo_action {
                            Action::Delete { len: new_len, index: new_index, .. } => {
                                proof {
                                    lemma_splice_out_twice(
                                        t1,
                                        index as int,
                                        len as int,
                                        new_index as int,
                                        new_len as int,
                                    );
                                }
                                let merged = Action::new_delete(index, cursor_pos, len + new_len);
                                proof {
                                    lemma_chain_merge(stack0, cur, merged, t1, prev@, hist0);
                                }
                                self.current_action = Some(merged);
                                proof {
                                    assert(self.chain() =~= stack0 + seq![merged]);
                                }
                            },
                            other => {
                                self.undo_stack.push(Action::new_delete(index, cursor_pos, len));
                                self.current_action = Some(other);
                                self.undo_hist = Ghost(hist0.push(prev@));
                                proof {
                                    lemma_chain_extend(chain0, other, t1, prev@, hist0);
                                    assert(self.chain() =~= chain0.push(other));
                                }
                            },
                        }
                    },
                    Action::Replace { index, cursor_start, cursor_end, len, replace_text } => {
                        match new_undo_action {
                            Action::Remove {
                                cursor_start: new_cursor_start,
                                len: new_len,
                                index: new_index,
                                ..
                            } => {
                                proof {
                                    lemma_splice_out_twice(
                                        t1,
                                        index as int,
                                        len as int,
                                        new_index as int,
                                        new_len as int,
                                    );
                                }
                                let merged = Action::new_replace(
                                    index,
                                    new_cursor_start,
                                    cursor_end,
                                    len + new_len,
                                    replace_text,
                                );
                                proof {
                                    lemma_chain_merge(stack0, cur, merged, t1, prev@, hist0);
                                }
                                self.current_action = Some(merged);
                                proof {
                                    assert(self.chain() =~= stack0 + seq![merged]);
                                }
                            },
                            other => {
                                self.undo_stack.push(
                                    Action::new_replace(
                                        index,
                                        cursor_start,
                                        cursor_end,
                                        len,
                                        replace_text,
                                    ),
                                );
                                self.current_action = Some(other);
                                self.undo_hist = Ghost(hist0.push(prev@));
                                proof {
                                    lemma_chain_extend(chain0, other, t1, prev@, hist0);
                                    assert(self.chain() =~= chain0.push(other));
                                }
                            },
                        }
                    },
                    Action::Insert { index, cursor_start, cursor_end, insert_text } => {
                        match new_undo_action {
                            Action::Insert {
                                index: new_index,
                                cursor_start: new_cursor_start,
                                insert_text: mut new_insert_text,
                                ..
                            } => {
                                proof {
                                    lemma_splice_in_chain(
                                        t1,
                                        new_index as int,
                                        new_insert_text@,
                                        insert_text@,
                                    );
                                }
                                string_append(&mut new_insert_text, insert_text.as_str());
                                let merged = Action::new_insert(
                                    new_index,
                                    new_cursor_start,
                                    cursor_end,
                                    new_insert_text,
                                );
                                proof {
                                    lemma_chain_merge(stack0, cur, merged, t1, prev@, hist0);
                                }
                                self.current_action = Some(merged);
                                proof {
                                    assert(self.chain() =~= stack0 + seq![merged]);
                                }
                            },
                            other => {
                                self.undo_stack.push(
                                    Action::new_insert(index, cursor_start, cursor_end,
                                        insert_text),
                                );
                                self.current_action = Some(other);
                                self.undo_hist = Ghost(hist0.push(prev@));
                                proof {
                                    lemma_chain_extend(chain0, other, t1, prev@, hist0);
                                    assert(self.chain() =~= chain0.push(other));
                                }
                            },
                        }
                    },
                    Action::Remove { index, cursor_start, cursor_end, len } => {
                        match new_undo_action {
                            Action::Remove {
                                cursor_start: new_cursor_start,
                                len: new_len,
                                index: new_index,
                                ..
                            } => {
                                proof {
                                    lemma_splice_out_twice(
                                        t1,
                                        index as int,
                                        len as int,
                                        new_index as int,
                                        new_len as int,
                                    );
                                }
                                let merged = Action::new_remove(
                                    index,
                                    new_cursor_start,
                                    cursor_end,
                                    len + new_len,
                                );
                                proof {
                                    lemma_chain_merge(stack0, cur, merged, t1, prev@, hist0);
                                }
                                self.current_action = Some(merged);
                                proof {
                                    assert(self.chain() =~= stack0 + seq![merged]);
                                }
                            },
                            other => {
                                self.undo_stack.push(
                                    Action::new_remove(index, cursor_start, cursor_end, len),
                                );
                                self.current_action = Some(other);
                                self.undo_hist = Ghost(hist0.push(prev@));
                                proof {
                                    lemma_chain_extend(chain0, other, t1, prev@, hist0);
                                    assert(self.chain() =~= chain0.push(other));
                                }
                            },
                        }
                    },
                }
            },
        }
    }
}

impl TextRope {
    /// Applies an insertion and records its undo action (a removal of the
    /// inserted range) through the coalescing rule.
    fn execute_new_insert(self, index: usize, insert_text: &str, cursor_start: Vector2D,
        cursor_end: Vector2D, tampered: bool) -> (r: Self)
        requires
            self.well_formed(),
            index <= self.text().len(),
            self.text().len() + insert_text@.len() <= usize::MAX,
            !tampered ==> self.insert_coalesces_at(index as int, insert_text@.len() as int),
        ensures
            r.well_formed(),
            r.text() == splice_in(self.text(), index as int, insert_text@),
            r.redo_texts() == Seq::<Seq<char>>::empty(),
            r.space_run() == self.space_run(),
            ({
                let a = insert_undo(index, cursor_start, cursor_end, insert_text@.len() as int);
                &&& (self.open_action() is None || tampered || !merges_with(
                    self.open_action().unwrap(),
                    a,
                )) ==> {
                    &&& r.undo_texts() == self.undo_texts().push(self.text())
                    &&& r.open_action() == Some(a)
                    &&& r.undo_positions() == self.undo_positions().push(cursor_start)
                    &&& r.undo_posts() == self.undo_posts().push(cursor_end)
                }
                &&& (self.open_action() is Some && !tampered && merges_with(
                    self.open_action().unwrap(),
                    a,
                )) ==> ({
                    let c = self.open_action().unwrap();
                    &&& r.undo_texts() == self.undo_texts()
                    &&& (r.open_action() matches Some(m) && merged_action(c, a, m))
                    &&& r.undo_positions() == self.undo_positions()
                    &&& r.undo_posts() == self.undo_posts().drop_last().push(cursor_end)
                })
            }),
            r.undo_texts().len() >= 1,
    {
        let ghost t0 = self.text();
        let ghost pre = self;
        let (mut new_text_data, len) = self._insert(index, insert_text);
        let ghost mid = new_text_data;
        proof {
            lemma_insert_remove_inverse(t0, index as int, insert_text@);
        }
        new_text_data.push_undo(
            Action::new_remove(index, cursor_end, cursor_start, len),
            tampered,
            Ghost(t0),
        );
        proof {
            let a = insert_undo(index, cursor_start, cursor_end, insert_text@.len() as int);
            assert(mid.chain() =~= pre.chain());
            if pre.current_action is None || tampered || !merges_with(
                pre.current_action.unwrap(),
                a,
            ) {
                lemma_log_after_push(mid, new_text_data, a);
                assert(new_text_data.undo_positions() =~= pre.undo_positions().push(cursor_start));
                assert(new_text_data.undo_posts() =~= pre.undo_posts().push(cursor_end));
            } else {
                let c = pre.current_action.unwrap();
                lemma_log_after_merge(mid, new_text_data, new_text_data.current_action.unwrap());
                let m = new_text_data.current_action.unwrap();
                assert(jump_target(m) == jump_target(c));
                assert(new_text_data.undo_positions() =~= pre.undo_positions());
                assert(inverse_target(m) == cursor_end);
                assert(new_text_data.undo_posts() =~= pre.undo_posts().drop_last().push(
                    cursor_end,
                ));
            }
        }
        new_text_data
    }

    /// Applies a removal and records its undo action (a re-insertion of
    /// the removed text) through the coalescing rule.
    fn execute_new_remove(self, index: usize, len: usize, cursor_start: Vector2D,
        cursor_end: Vector2D, tampered: bool) -> (r: Self)
        requires
            self.well_formed(),
            index + len <= self.text().len(),
            !tampered ==> self.remove_coalesces_at(index as int, len as int),
        ensures
            r.well_formed(),
            r.text() == splice_out(self.text(), index as int, len as int),
            r.redo_texts() == Seq::<Seq<char>>::empty(),
            r.space_run() == self.space_run(),
            (self.open_action() is None || tampered || !(self.open_action().unwrap()
                matches Action::Insert { .. })) ==> {
                &&& r.undo_texts() == self.undo_texts().push(self.text())
                &&& (r.open_action() matches Some(a) && is_remove_undo(
                    self.text(),
                    index as int,
                    len as int,
                    cursor_start,
                    cursor_end,
                    a,
                ))
                &&& r.undo_positions() == self.undo_positions().push(cursor_start)
                &&& r.undo_posts() == self.undo_posts().push(cursor_end)
            },
            (self.open_action() is Some && !tampered && (self.open_action().unwrap()
                matches Action::Insert { .. })) ==> ({
                let c = self.open_action().unwrap();
                &&& r.undo_texts() == self.undo_texts()
                &&& (c matches Action::Insert { cursor_end: cce, insert_text: ct, .. }
                    && r.open_action() matches Some(m) && m matches Action::Insert {
                    index: mi,
                    cursor_start: mcs,
                    cursor_end: mce,
                    insert_text: mt,
                } && mi == index && mcs == cursor_end && mce == cce && mt@ == self.text().subrange(
                    index as int,
                    index + len,
                ) + ct@)
                &&& r.undo_positions() == self.undo_positions()
                &&& r.undo_posts() == self.undo_posts().drop_last().push(cursor_end)
            }),
            r.undo_texts().len() >= 1,
    {
        let ghost t0 = self.text();
        let ghost pre = self;
        let (mut new_text_data, insert_text) = self._remove(index, len);
        let ghost mid = new_text_data;
        proof {
            lemma_remove_insert_inverse(t0, index as int, len as int);
            assert(t0.len() <= usize::MAX);
        }
        let ghost na = Action::Insert {
            index,
            cursor_start: cursor_end,
            cursor_end: cursor_start,
            insert_text,
        };
        new_text_data.push_undo(
            Action::new_insert(index, cursor_end, cursor_start, insert_text),
            tampered,
            Ghost(t0),
        );
        proof {
            assert(mid.chain() =~= pre.chain());
            if pre.current_action is None || tampered || !(pre.current_action.unwrap()
                matches Action::Insert { .. }) {
                assert(pre.current_action is Some && !tampered ==> !merges_with(
                    pre.current_action.unwrap(),
                    na,
                ));
                lemma_log_after_push(mid, new_text_data, new_text_data.current_action.unwrap());
                assert(new_text_data.undo_positions() =~= pre.undo_positions().push(cursor_start));
                assert(new_text_data.undo_posts() =~= pre.undo_posts().push(cursor_end));
            } else {
                let c = pre.current_action.unwrap();
                assert(merges_with(c, na));
                lemma_log_after_merge(mid, new_text_data, new_text_data.current_action.unwrap());
                let m = new_text_data.current_action.unwrap();
                assert(jump_target(m) == jump_target(c));
                assert(new_text_data.undo_positions() =~= pre.undo_positions());
                assert(inverse_target(m) == cursor_end);
                assert(new_text_data.undo_posts() =~= pre.undo_posts().drop_last().push(
                    cursor_end,
                ));
            }
        }
        new_text_data
    }

    /// Applies a replacement (remove a range, insert new text at its
    /// start) and records its undo action, a reverse replacement.  A
    /// replacement never coalesces into the open unit; it always opens
    /// one of its own.
    fn execute_new_replace(self, index: usize, len: usize, replace_text: &str,
        jump_pos: Vector2D, cursor_end: Vector2D, tampered: bool) -> (r: Self)
        requires
            self.well_formed(),
            index + len <= self.text().len(),
            self.text().len() - len + replace_text@.len() <= usize::MAX,
        ensures
            r.well_formed(),
            r.text() == splice_in(
                splice_out(self.text(), index as int, len as int),
                index as int,
                replace_text@,
            ),
            r.redo_texts() == Seq::<Seq<char>>::empty(),
            r.space_run() == self.space_run(),
            r.undo_texts() == self.undo_texts().push(self.text()),
            (r.open_action() matches Some(a) && is_replace_undo(
                self.text(),
                index as int,
                len as int,
                jump_pos,
                cursor_end,
                replace_text@.len() as int,
                a,
            )),
            r.undo_positions() == self.undo_positions().push(jump_pos),
            r.undo_posts() == self.undo_posts().push(cursor_end),
            r.undo_texts().len() >= 1,
    {
        let ghost t0 = self.text();
        let ghost pre = self;
        let (new_text_data, removed_text) = self._remove(index, len);
        let ghost t1 = new_text_data.text();
        let (mut new_text_data, replace_len) = new_text_data._insert(index, replace_text);
        let ghost mid = new_text_data;
        proof {
            lemma_insert_remove_inverse(t1, index as int, replace_text@);
            lemma_remove_insert_inverse(t0, index as int, len as int);
            assert(t0.len() <= usize::MAX);
        }
        let ghost na = Action::Replace {
            index,
            cursor_start: cursor_end,
            cursor_end: jump_pos,
            len: replace_len,
            replace_text: removed_text,
        };
        new_text_data.push_undo(
            Action::new_replace(index, cursor_end, jump_pos, replace_len, removed_text),
            tampered,
            Ghost(t0),
        );
        proof {
            assert(mid.chain() =~= pre.chain());
            assert(pre.current_action is Some ==> !merges_with(pre.current_action.unwrap(), na));
            lemma_log_after_push(mid, new_text_data, new_text_data.current_action.unwrap());
            assert(new_text_data.undo_positions() =~= pre.undo_positions().push(jump_pos));
            assert(new_text_data.undo_posts() =~= pre.undo_posts().push(cursor_end));
        }
        new_text_data
    }

    /// Applies a forward deletion (the cursor stays put) and records its
    /// undo action, a re-append of the deleted text.
    fn execute_new_delete(self, index: usize, len: usize, cursor_pos: Vector2D, tampered: bool) -> (r:
        Self)
        requires
            self.well_formed(),
            index + len <= self.text().len(),
            !tampered ==> self.delete_coalesces_at(index as int, len as int),
        ensures
            r.well_formed(),
            r.text() == splice_out(self.text(), index as int, len as int),
            r.redo_texts() == Seq::<Seq<char>>::empty(),
            r.space_run() == self.space_run(),
            (self.open_action() is None || tampered || !(self.open_action().unwrap()
                matches Action::Append { .. })) ==> {
                &&& r.undo_texts() == self.undo_texts().push(self.text())
                &&& (r.open_action() matches Some(a) && is_delete_undo(
                    self.text(),
                    index as int,
                    len as int,
                    cursor_pos,
                    a,
                ))
                &&& r.undo_positions() == self.undo_positions().push(cursor_pos)
                &&& r.undo_posts() == self.undo_posts().push(cursor_pos)
            },
            (self.open_action() is Some && !tampered && (self.open_action().unwrap()
                matches Action::Append { .. })) ==> ({
                let c = self.open_action().unwrap();
                &&& r.undo_texts() == self.undo_texts()
                &&& (c matches Action::Append { index: ci, append_text: ct, .. }
                    && r.open_action() matches Some(m) && m matches Action::Append {
                    index: mi,
                    cursor_pos: mcp,
                    append_text: mt,
                } && mi == ci && mcp == cursor_pos && mt@ == ct@ + self.text().subrange(
                    index as int,
                    index + len,
                ))
                &&& r.undo_positions() == self.undo_positions().drop_last().push(cursor_pos)
                &&& r.undo_posts() == self.undo_posts().drop_last().push(cursor_pos)
            }),
            r.undo_texts().len() >= 1,
    {
        let ghost t0 = self.text();
        let ghost pre = self;
        let (mut new_text_data, removed_text) = self._remove(index, len);
        let ghost mid = new_text_data;
        proof {
            lemma_remove_insert_inverse(t0, index as int, len as int);
            assert(t0.len() <= usize::MAX);
        }
        let ghost na = Action::Append { index, cursor_pos, append_text: removed_text };
        new_text_data.push_undo(
            Action::new_append(index, cursor_pos, removed_text),
            tampered,
            Ghost(t0),
        );
        proof {
            assert(mid.chain() =~= pre.chain());
            if pre.current_action is None || tampered || !(pre.current_action.unwrap()
                matches Action::Append { .. }) {
                assert(pre.current_action is Some && !tampered ==> !merges_with(
                    pre.current_action.unwrap(),
                    na,
                ));
                lemma_log_after_push(mid, new_text_data, new_text_data.current_action.unwrap());
                assert(new_text_data.undo_positions() =~= pre.undo_positions().push(cursor_pos));
                assert(new_text_data.undo_posts() =~= pre.undo_posts().push(cursor_pos));
            } else {
                let c = pre.current_action.unwrap();
                assert(merges_with(c, na));
                lemma_log_after_merge(mid, new_text_data, new_text_data.current_action.unwrap());
                let m = new_text_data.current_action.unwrap();
                assert(jump_target(m) == cursor_pos);
                assert(inverse_target(m) == cursor_pos);
            }
        }
        new_text_data
    }

    /// Inserts `insert_text` at `index`, recording one undo unit through
    /// the coalescing rule.  `cursor_start` and `cursor_end` are the
    /// cursor positions before and after the edit as the caller computed
    /// them, and `tampered` reports whether the cursor moved
    /// non-contiguously since the previous edit.  A run of single spaces
    /// coalesces separately from the non-space run around it, so that
    /// undo works word by word: stepping between a space run and a
    /// non-space run closes the open unit first.  After that, a tampered
    /// cursor also closes the open unit; an untampered insertion
    /// coalesces into an open re-removal (or reverse replacement) and
    /// otherwise opens a unit of its own.  Inserting nothing is a no-op
    /// that records nothing.
    pub fn insert(self, index: usize, insert_text: &str, cursor_start: Vector2D,
        cursor_end: Vector2D, tampered: bool) -> (r: Self)
        requires
            self.well_formed(),
            index <= self.text().len(),
            self.text().len() + insert_text@.len() <= usize::MAX,
            !tampered ==> self.insert_coalesces_at(index as int, insert_text@.len() as int),
        ensures
            r.well_formed(),
            insert_text@.len() == 0 ==> r == self,
            insert_text@.len() > 0 ==> ({
                let is_space = insert_text@ == seq![' '];
                let closes = (is_space && !self.space_run()) || (!is_space && self.space_run());
                let cur0 = if closes {
                    None::<Action>
                } else {
                    self.open_action()
                };
                let a = insert_undo(index, cursor_start, cursor_end, insert_text@.len() as int);
                &&& r.text() == splice_in(self.text(), index as int, insert_text@)
                &&& r.redo_texts() == Seq::<Seq<char>>::empty()
                &&& r.space_run() == is_space
                &&& ((cur0 is None || tampered || !merges_with(cur0.unwrap(), a)) ==> {
                    &&& r.undo_texts() == self.undo_texts().push(self.text())
                    &&& r.open_action() == Some(a)
                    &&& r.undo_positions() == self.undo_positions().push(cursor_start)
                    &&& r.undo_posts() == self.undo_posts().push(cursor_end)
                })
                &&& ((cur0 is Some && !tampered && merges_with(cur0.unwrap(), a)) ==> ({
                    let c = cur0.unwrap();
                    &&& r.undo_texts() == self.undo_texts()
                    &&& (r.open_action() matches Some(m) && merged_action(c, a, m))
                    &&& r.undo_positions() == self.undo_positions()
                    &&& r.undo_posts() == self.undo_posts().drop_last().push(cursor_end)
                }))
                &&& r.undo_texts().len() >= 1
            }),
    {
        let chars = str_to_chars(insert_text);
        if chars.len() == 0 {
            return self;
        }
        let is_space = chars.len() == 1 && chars[0] == ' ';
        proof {
            if is_space {
                assert(insert_text@ =~= seq![' ']);
            }
            if insert_text@ == seq![' '] {
                assert(chars@.len() == 1 && chars@[0] == ' ');
            }
        }
        let mut s = self;
        if is_space {
            if !s.space_flag {
                s.push_current_action();
                s.space_flag = true;
            }
        } else if s.space_flag {
            s.space_flag = false;
            s.push_current_action();
        }
        let r = s.execute_new_insert(index, insert_text, cursor_start, cursor_end, tampered);
        proof {
            assert(s.undo_positions() == self.undo_positions());
            assert(s.undo_posts() == self.undo_posts());
        }
        r
    }

    /// Removes `len` characters at `index` (a backward deletion: the
    /// cursor moves to the start of the removed range), recording one
    /// undo unit through the coalescing rule: an untampered removal
    /// coalesces into an open re-insertion (a run of backspaces) and
    /// otherwise opens a unit of its own.  Removing nothing is a no-op
    /// that records nothing.
    pub fn remove(self, index: usize, len: usize, cursor_start: Vector2D, cursor_end: Vector2D,
        tampered: bool) -> (r: Self)
        requires
            self.well_formed(),
            index + len <= self.text().len(),
            len > 0 && !tampered ==> self.remove_coalesces_at(index as int, len as int),
        ensures
            r.well_formed(),
            len == 0 ==> r == self,
            len > 0 ==> {
                &&& r.text() == splice_out(self.text(), index as int, len as int)
                &&& r.redo_texts() == Seq::<Seq<char>>::empty()
                &&& r.space_run() == self.space_run()
                &&& ((self.open_action() is None || tampered || !(self.open_action().unwrap()
                    matches Action::Insert { .. })) ==> {
                    &&& r.undo_texts() == self.undo_texts().push(self.text())
                    &&& (r.open_action() matches Some(a) && is_remove_undo(
                        self.text(),
                        index as int,
                        len as int,
                        cursor_start,
                        cursor_end,
                        a,
                    ))
                    &&& r.undo_positions() == self.undo_positions().push(cursor_start)
                    &&& r.undo_posts() == self.undo_posts().push(cursor_end)
                })
                &&& ((self.open_action() is Some && !tampered && (self.open_action().unwrap()
                    matches Action::Insert { .. })) ==> ({
                    let c = self.open_action().unwrap();
                    &&& r.undo_texts() == self.undo_texts()
                    &&& (c matches Action::Insert { cursor_end: cce, insert_text: ct, .. }
                        && r.open_action() matches Some(m) && m matches Action::Insert {
                        index: mi,
                        cursor_start: mcs,
                        cursor_end: mce,
                        insert_text: mt,
                    } && mi == index && mcs == cursor_end && mce == cce && mt@
                        == self.text().subrange(index as int, index + len) + ct@)
                    &&& r.undo_positions() == self.undo_positions()
                    &&& r.undo_posts() == self.undo_posts().drop_last().push(cursor_end)
                }))
                &&& r.undo_texts().len() >= 1
            },
    {
        if len == 0 {
            return self;
        }
        self.execute_new_remove(index, len, cursor_start, cursor_end, tampered)
    }

    /// Deletes `len` characters forward at `index`: the buffer change is
    /// the same as a removal, but the cursor stays at `cursor_pos`.  An
    /// untampered forward deletion coalesces into an open re-append (a
    /// run of delete-forward presses) and otherwise opens a unit of its
    /// own.  Deleting nothing is a no-op that records nothing.
    pub fn delete(self, index: usize, len: usize, cursor_pos: Vector2D, tampered: bool) -> (r:
        Self)
        requires
            self.well_formed(),
            index + len <= self.text().len(),
            len > 0 && !tampered ==> self.delete_coalesces_at(index as int, len as int),
        ensures
            r.well_formed(),
            len == 0 ==> r == self,
            len > 0 ==> {
                &&& r.text() == splice_out(self.text(), index as int, len as int)
                &&& r.redo_texts() == Seq::<Seq<char>>::empty()
                &&& r.space_run() == self.space_run()
                &&& ((self.open_action() is None || tampered || !(self.open_action().unwrap()
                    matches Action::Append { .. })) ==> {
                    &&& r.undo_texts() == self.undo_texts().push(self.text())
                    &&& (r.open_action() matches Some(a) && is_delete_undo(
                        self.text(),
                        index as int,
                        len as int,
                        cursor_pos,
                        a,
                    ))
                    &&& r.undo_positions() == self.undo_positions().push(cursor_pos)
                    &&& r.undo_posts() == self.undo_posts().push(cursor_pos)
                })
                &&& ((self.open_action() is Some && !tampered && (self.open_action().unwrap()
                    matches Action::Append { .. })) ==> ({
                    let c = self.open_action().unwrap();
                    &&& r.undo_texts() == self.undo_texts()
                    &&& (c matches Action::Append { index: ci, append_text: ct, .. }
                        && r.open_action() matches Some(m) && m matches Action::Append {
                        index: mi,
                        cursor_pos: mcp,
                        append_text: mt,
                    } && mi == ci && mcp == cursor_pos && mt@ == ct@ + self.text().subrange(
                        index as int,
                        index + len,
                    ))
                    &&& r.undo_positions() == self.undo_positions().drop_last().push(cursor_pos)
                    &&& r.undo_posts() == self.undo_posts().drop_last().push(cursor_pos)
                }))
                &&& r.undo_texts().len() >= 1
            },
    {
        if len == 0 {
            return self;
        }
        self.execute_new_delete(index, len, cursor_pos, tampered)
    }

    /// Replaces `len` characters at `index` by `replace_text`, after the
    /// cursor jumped to `jump_pos`; `cursor_end` is where the caller's
    /// cursor stands after the replacement.  A replacement always opens
    /// an undo unit of its own.
    pub fn replace(self, index: usize, len: usize, replace_text: &str, jump_pos: Vector2D,
        cursor_end: Vector2D, tampered: bool) -> (r: Self)
        requires
            self.well_formed(),
            index + len <= self.text().len(),
            self.text().len() - len + replace_text@.len() <= usize::MAX,
        ensures
            r.well_formed(),
            r.text() == splice_in(
                splice_out(self.text(), index as int, len as int),
                index as int,
                replace_text@,
            ),
            r.redo_texts() == Seq::<Seq<char>>::empty(),
            r.space_run() == self.space_run(),
            r.undo_texts() == self.undo_texts().push(self.text()),
            (r.open_action() matches Some(a) && is_replace_undo(
                self.text(),
                index as int,
                len as int,
                jump_pos,
                cursor_end,
                replace_text@.len() as int,
                a,
            )),
            r.undo_positions() == self.undo_positions().push(jump_pos),
            r.undo_posts() == self.undo_posts().push(cursor_end),
            r.undo_texts().len() >= 1,
    {
        self.execute_new_replace(index, len, replace_text, jump_pos, cursor_end, tampered)
    }

    /// Inserts as its own closed undo unit: the open action is closed
    /// before and after, so the inserted block never coalesces with the
    /// typing around it.  Used for paste-like edits.
    pub fn push_and_insert(self, index: usize, insert_text: &str, cursor_start: Vector2D,
        cursor_end: Vector2D) -> (r: Self)
        requires
            self.well_formed(),
            index <= self.text().len(),
            self.text().len() + insert_text@.len() <= usize::MAX,
        ensures
            r.well_formed(),
            r.open_action() is None,
            r.space_run() == self.space_run(),
            insert_text@.len() == 0 ==> {
                &&& r.text() == self.text()
                &&& r.undo_texts() == self.undo_texts()
                &&& r.redo_texts() == self.redo_texts()
                &&& r.undo_positions() == self.undo_positions()
                &&& r.undo_posts() == self.undo_posts()
            },
            insert_text@.len() > 0 ==> {
                &&& r.text() == splice_in(self.text(), index as int, insert_text@)
                &&& r.redo_texts() == Seq::<Seq<char>>::empty()
                &&& r.undo_texts() == self.undo_texts().push(self.text())
                &&& r.undo_positions() == self.undo_positions().push(cursor_start)
                &&& r.undo_posts() == self.undo_posts().push(cursor_end)
            },
    {
        let mut s = self;
        s.push_current_action();
        if insert_text.is_empty() {
            return s;
        }
        let mut new_self = s.execute_new_insert(index, insert_text, cursor_start, cursor_end,
            false);
        new_self.push_current_action();
        new_self
    }

    /// Removes the last `len` characters, recording one undo unit through
    /// the coalescing rule exactly as `remove` does at that index.
    /// Popping nothing is a no-op.
    pub fn pop(self, len: usize, cursor_start: Vector2D, cursor_end: Vector2D, tampered: bool) -> (r:
        Self)
        requires
            self.well_formed(),
            len <= self.text().len(),
            len > 0 && !tampered ==> self.remove_coalesces_at(
                self.text().len() - len,
                len as int,
            ),
        ensures
            r.well_formed(),
            len == 0 ==> r == self,
            len > 0 ==> ({
                let index = self.text().len() - len;
                &&& r.text() == self.text().take(index)
                &&& r.redo_texts() == Seq::<Seq<char>>::empty()
                &&& r.space_run() == self.space_run()
                &&& ((self.open_action() is None || tampered || !(self.open_action().unwrap()
                    matches Action::Insert { .. })) ==> {
                    &&& r.undo_texts() == self.undo_texts().push(self.text())
                    &&& (r.open_action() matches Some(a) && is_remove_undo(
                        self.text(),
                        index,
                        len as int,
                        cursor_start,
                        cursor_end,
                        a,
                    ))
                    &&& r.undo_positions() == self.undo_positions().push(cursor_start)
                    &&& r.undo_posts() == self.undo_posts().push(cursor_end)
                })
                &&& ((self.open_action() is Some && !tampered && (self.open_action().unwrap()
                    matches Action::Insert { .. })) ==> {
                    &&& r.undo_texts() == self.undo_texts()
                    &&& r.undo_positions() == self.undo_positions()
                })
                &&& r.undo_texts().len() >= 1
            }),
    {
        if len == 0 {
            return self;
        }
        let index = self.len - len;
        let r = self.execute_new_remove(index, len, cursor_start, cursor_end, tampered);
        proof {
            assert(splice_out(self.text(), self.text().len() - len, len as int) =~= self.text()
                .take(self.text().len() - len));
        }
        r
    }

    /// Undoes the most recent undo unit: the open action if there is one,
    /// else the top of the undo stack.  The buffer returns to the
    /// previous recorded text, the inverse is pushed onto the redo log,
    /// and the cursor position returned is the unit's recorded pre-edit
    /// position.  With nothing to undo the buffer is returned unchanged.
    pub fn undo(self) -> (res: (Self, Option<Vector2D>))
        requires
            self.well_formed(),
        ensures
            res.0.well_formed(),
            res.0.space_run() == self.space_run(),
            self.undo_texts().len() == 0 ==> {
                &&& res.0.text() == self.text()
                &&& res.0.undo_texts() == self.undo_texts()
                &&& res.0.redo_texts() == self.redo_texts()
                &&& res.0.undo_positions() == self.undo_positions()
                &&& res.0.redo_positions() == self.redo_positions()
                &&& res.0.open_action() == self.open_action()
                &&& res.1 is None
            },
            self.undo_texts().len() > 0 ==> {
                &&& res.0.text() == self.undo_texts().last()
                &&& res.0.undo_texts() == self.undo_texts().drop_last()
                &&& res.0.redo_texts() == self.redo_texts().push(self.text())
                &&& res.1 == Some(self.undo_positions().last())
                &&& res.0.undo_positions() == self.undo_positions().drop_last()
                &&& res.0.undo_posts() == self.undo_posts().drop_last()
                &&& res.0.redo_positions() == self.redo_positions().push(self.undo_posts().last())
                &&& res.0.redo_posts() == self.redo_posts().push(self.undo_positions().last())
                &&& res.0.open_action() is None
            },
    {
        let ghost self0 = self;
        let ghost chain0 = self.chain();
        let ghost hist0 = self.undo_hist@;
        let TextRope {
            root,
            len,
            line_count,
            mut undo_stack,
            current_action,
            redo_stack,
            space_flag,
            undo_hist,
            redo_hist,
        } = self;
        let undo_action_opt = match current_action {
            Some(a) => Some(a),
            None => undo_stack.pop(),
        };
        match undo_action_opt {
            None => {
                proof {
                    assert(chain0 =~= Seq::<Action>::empty());
                }
                let r = TextRope {
                    root,
                    len,
                    line_count,
                    undo_stack,
                    current_action: None,
                    redo_stack,
                    space_flag,
                    undo_hist,
                    redo_hist,
                };
                proof {
                    assert(r.chain() =~= Seq::<Action>::empty());
                    assert(r.redo_stack@ == self0.redo_stack@);
                }
                (r, None)
            },
            Some(undo_action) => {
                proof {
                    assert(chain0.len() > 0);
                    assert(undo_action == chain0.last());
                    assert(undo_stack@ =~= chain0.drop_last());
                }
                let tr1 = TextRope {
                    root,
                    len,
                    line_count,
                    undo_stack,
                    current_action: None,
                    redo_stack,
                    space_flag,
                    undo_hist: Ghost(hist0.drop_last()),
                    redo_hist,
                };
                let (mut new_rope, inverted_action, target) = undo_action.execute(tr1);
                new_rope.redo_stack.push(inverted_action);
                new_rope.redo_hist = Ghost(self0.redo_hist@.push(self0.text()));
                proof {
                    assert(new_rope.chain() =~= chain0.drop_last());
                    assert(new_rope.redo_stack@ =~= self0.redo_stack@.push(inverted_action));
                    assert(new_rope.redo_stack@.drop_last() =~= self0.redo_stack@);
                    assert(new_rope.redo_hist@.drop_last() =~= self0.redo_hist@);
                    lemma_targets_drop_last(chain0);
                    lemma_targets_push(self0.redo_stack@, inverted_action);
                    assert(new_rope.undo_positions() =~= self0.undo_positions().drop_last());
                    assert(new_rope.undo_posts() =~= self0.undo_posts().drop_last());
                    assert(new_rope.redo_positions() =~= self0.redo_positions().push(
                        self0.undo_posts().last(),
                    ));
                    assert(new_rope.redo_posts() =~= self0.redo_posts().push(
                        self0.undo_positions().last(),
                    ));
                }
                (new_rope, Some(target))
            },
        }
    }

    /// Redoes the most recently undone unit: the buffer returns to the
    /// text recorded on the redo log, whose inverse goes back onto the
    /// undo stack, and the cursor position returned is the unit's
    /// recorded post-edit position.  With nothing to redo the buffer is
    /// returned unchanged.
    pub fn redo(self) -> (res: (Self, Option<Vector2D>))
        requires
            self.well_formed(),
        ensures
            res.0.well_formed(),
            res.0.space_run() == self.space_run(),
            self.redo_texts().len() == 0 ==> {
                &&& res.0.text() == self.text()
                &&& res.0.undo_texts() == self.undo_texts()
                &&& res.0.redo_texts() == self.redo_texts()
                &&& res.0.undo_positions() == self.undo_positions()
                &&& res.0.redo_positions() == self.redo_positions()
                &&& res.0.open_action() == self.open_action()
                &&& res.1 is None
            },
            self.redo_texts().len() > 0 ==> {
                &&& res.0.text() == self.redo_texts().last()
                &&& res.0.redo_texts() == self.redo_texts().drop_last()
                &&& res.0.undo_texts() == self.undo_texts().push(self.text())
                &&& res.1 == Some(self.redo_positions().last())
                &&& res.0.redo_positions() == self.redo_positions().drop_last()
                &&& res.0.redo_posts() == self.redo_posts().drop_last()
                &&& res.0.undo_positions() == self.undo_positions().push(self.redo_posts().last())
                &&& res.0.undo_posts() == self.undo_posts().push(self.redo_positions().last())
                &&& res.0.open_action() is None
            },
    {
        let ghost self0 = self;
        let ghost rhist0 = self.redo_hist@;
        let TextRope {
            root,
            len,
            line_count,
            undo_stack,
            current_action,
            mut redo_stack,
            space_flag,
            undo_hist,
            redo_hist,
        } = self;
        let redo_action_opt = redo_stack.pop();
        match redo_action_opt {
            None => {
                let r = TextRope {
                    root,
                    len,
                    line_count,
                    undo_stack,
                    current_action,
                    redo_stack,
                    space_flag,
                    undo_hist,
                    redo_hist,
                };
                proof {
                    assert(r.redo_stack@ =~= self0.redo_stack@);
                    assert(r.chain() =~= self0.chain());
                }
                (r, None)
            },
            Some(redo_action) => {
                proof {
                    assert(redo_action == self0.redo_stack@.last());
                    assert(redo_stack@ =~= self0.redo_stack@.drop_last());
                    assert(self0.current_action is None);
                }
                let tr1 = TextRope {
                    root,
                    len,
                    line_count,
                    undo_stack,
                    current_action: None,
                    redo_stack,
                    space_flag,
                    undo_hist,
                    redo_hist: Ghost(rhist0.drop_last()),
                };
                let (mut new_rope, inverted_action, target) = redo_action.execute(tr1);
                proof {
                    assert(self0.chain() =~= self0.undo_stack@);
                }
                new_rope.undo_stack.push(inverted_action);
                new_rope.undo_hist = Ghost(self0.undo_hist@.push(self0.text()));
                proof {
                    assert(new_rope.chain() =~= self0.undo_stack@.push(inverted_action));
                    assert(new_rope.chain().drop_last() =~= self0.undo_stack@);
                    assert(new_rope.chain().last() == inverted_action);
                    assert(new_rope.undo_hist@.drop_last() =~= self0.undo_hist@);
                    lemma_targets_drop_last(self0.redo_stack@);
                    lemma_targets_push(self0.undo_stack@, inverted_action);
                    assert(self0.chain() =~= self0.undo_stack@);
                    assert(new_rope.redo_positions() =~= self0.redo_positions().drop_last());
                    assert(new_rope.redo_posts() =~= self0.redo_posts().drop_last());
                    assert(new_rope.undo_positions() =~= self0.undo_positions().push(
                        self0.redo_posts().last(),
                    ));
                    assert(new_rope.undo_posts() =~= self0.undo_posts().push(
                        self0.redo_positions().last(),
                    ));
                }
                (new_rope, Some(target))
            },
        }
    }
}

} // verus!
