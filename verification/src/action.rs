//! A minimal algebraic edit action over a bare rope: an insertion or a
//! removal, together with the machinery to execute one and obtain its
//! exact inverse.

use vstd::prelude::*;

use crate::charseq::chars_to_string;
use crate::charseq::count_newlines;
use crate::charseq::lemma_insert_remove_inverse;
use crate::charseq::lemma_nl_count_splice_in;
use crate::charseq::lemma_remove_insert_inverse;
use crate::charseq::nl_count;
use crate::charseq::splice_in;
use crate::charseq::splice_out;
use crate::charseq::str_to_chars;
use crate::charseq::subvec;
use crate::rope::Rope;

verus! {

pub enum Action {
    Insert { index: usize, insert_text: String },
    Remove { index: usize, len: usize },
}

impl Action {
    /// The text an action produces when applied to `t`, or `None` when it
    /// does not fit `t` (an out-of-bounds index or an overflowing length).
    pub open spec fn apply(self, t: Seq<char>) -> Option<Seq<char>> {
        match self {
            Action::Insert { index, insert_text } => {
                if 1 <= insert_text@.len() && index <= t.len() && t.len() + insert_text@.len()
                    <= usize::MAX {
                    Some(splice_in(t, index as int, insert_text@))
                } else {
                    None
                }
            },
            Action::Remove { index, len } => {
                if len >= 1 && index + len <= t.len() {
                    Some(splice_out(t, index as int, len as int))
                } else {
                    None
                }
            },
        }
    }

    pub fn new_insert(index: usize, insert_text: String) -> (r: Self)
        ensures
            r == (Action::Insert { index, insert_text }),
    {
        Action::Insert { index, insert_text }
    }

    pub fn new_remove(index: usize, len: usize) -> (r: Self)
        ensures
            r == (Action::Remove { index, len }),
    {
        Action::Remove { index, len }
    }

    /// Applies the action to a rope whose length and newline count are
    /// passed alongside, and returns the inverse action, the new rope and
    /// the updated counts.  Applying the returned inverse to the returned
    /// rope restores the original text.
    pub fn execute(self, text_data: Rope, start_len: usize, start_lines: usize) -> (res: (
        Self,
        Rope,
        usize,
        usize,
    ))
        requires
            text_data.well_formed(),
            text_data.heights_exact(),
            text_data.balanced(),
            start_len == text_data.text().len(),
            start_lines == nl_count(text_data.text()),
            self.apply(text_data.text()) is Some,
        ensures
            res.1.well_formed(),
            res.1.heights_exact(),
            res.1.balanced(),
            Some(res.1.text()) == self.apply(text_data.text()),
            res.2 == res.1.text().len(),
            res.3 == nl_count(res.1.text()),
            res.0.apply(res.1.text()) == Some(text_data.text()),
            self matches Action::Insert { index, insert_text } ==> res.0 == (Action::Remove {
                index,
                len: insert_text@.len() as usize,
            }),
            self matches Action::Remove { index, len } ==> (res.0 matches Action::Insert {
                index: ri,
                insert_text: rt,
            } && ri == index && rt@ == text_data.text().subrange(index as int, index + len)),
    {
        let ghost t0 = text_data.text();
        match self {
            Action::Insert { index, insert_text } => {
                let chars = str_to_chars(insert_text.as_str());
                let len = chars.len();
                let lines = count_newlines(&chars);
                let new_text_data = text_data.insert(index, insert_text.as_str());
                let inverted_action = Action::Remove { index, len };
                proof {
                    lemma_nl_count_splice_in(t0, index as int, insert_text@);
                    lemma_insert_remove_inverse(t0, index as int, insert_text@);
                    crate::charseq::lemma_nl_count_le_len(t0);
                    crate::charseq::lemma_nl_count_le_len(insert_text@);
                }
                (inverted_action, new_text_data, start_len + len, start_lines + lines)
            },
            Action::Remove { index, len } => {
                let mut it = text_data.chars();
                let taken = subvec(&it.chars, index, index + len);
                let lines = count_newlines(&taken);
                let insert_text = chars_to_string(&taken);
                let new_text_data = text_data.remove(index, len);
                let inverted_action = Action::Insert { index, insert_text };
                proof {
                    assert(taken@ =~= t0.subrange(index as int, index + len));
                    lemma_remove_insert_inverse(t0, index as int, len as int);
                    lemma_nl_count_splice_in(
                        splice_out(t0, index as int, len as int),
                        index as int,
                        taken@,
                    );
                }
                (inverted_action, new_text_data, start_len - len, start_lines - lines)
            },
        }
    }
}

} // verus!
