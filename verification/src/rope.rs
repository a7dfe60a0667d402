//! A height-balanced binary rope over chunks of characters.
//!
//! A rope is either a `Leaf` holding a contiguous run of characters or a
//! `Branch` caching, for its left subtree, the character count (`weight`),
//! the newline count (`line`) and the subtree height used for AVL-style
//! rebalancing.  Every operation consumes the old tree and returns a fresh
//! root; untouched subtrees are reused.
//!
//! The flat model of a rope is `text()`, the character sequence it stores.
//! `well_formed()` states the structural invariant (cached weights and
//! line counts exact, no empty leaf below a branch, leaves within the
//! chunk cap, sizes within machine bounds); `heights_exact()` states that
//! the cached heights are exact and `balanced()` that every branch's
//! children differ in height by at most one.  Insertion and removal both
//! preserve all three: insertion rebalances with the classic single and
//! double rotations, and removal rejoins the surviving subtrees with
//! `balance_join`, which absorbs a height drop of any size.

use vstd::prelude::*;

use crate::charseq::count_newlines;
use crate::charseq::lemma_after_newline_bounds;
use crate::charseq::lemma_after_newline_concat;
use crate::charseq::lemma_nl_count_concat;
use crate::charseq::lemma_nl_count_le_len;
use crate::charseq::lemma_nl_count_splice_in;
use crate::charseq::lemma_nl_count_take_full;
use crate::charseq::lemma_nl_count_take_step;
use crate::charseq::lemma_splice_in_chain;
use crate::charseq::lemma_splice_in_concat;
use crate::charseq::lemma_splice_out_concat_left;
use crate::charseq::lemma_splice_out_concat_right;
use crate::charseq::lemma_splice_out_concat_span;
use crate::charseq::after_newline;
use crate::charseq::lines_of;
use crate::charseq::nl_count;
use crate::charseq::splice_in;
use crate::charseq::splice_out;
use crate::charseq::str_to_chars;
use crate::charseq::chars_to_string;
use crate::charseq::subvec;
use crate::charseq::extend_vec;
use crate::charseq::lemma_first_nl_found;
use crate::charseq::lemma_first_nl_none;

verus! {

/// Largest number of characters inserted into a leaf in one step; a leaf
/// that would grow past this cap is split instead.
pub const MAX_NODE_INSERT_SIZE: usize = 4096;

pub enum Rope {
    Branch {
        height: usize,
        weight: usize,
        line: usize,
        left: Box<Rope>,
        right: Box<Rope>,
    },
    Leaf(Vec<char>),
}

impl Rope {
    /// The character sequence this rope stores, left subtree first.
    pub open spec fn text(self) -> Seq<char>
        decreases self,
    {
        match self {
            Rope::Branch { left, right, .. } => left.text() + right.text(),
            Rope::Leaf(t) => t@,
        }
    }

    /// Structural height: leaves have height zero.
    pub open spec fn sheight(self) -> nat
        decreases self,
    {
        match self {
            Rope::Branch { left, right, .. } => 1 + if left.sheight() >= right.sheight() {
                left.sheight()
            } else {
                right.sheight()
            },
            Rope::Leaf(_) => 0,
        }
    }

    /// The cached height field; zero on leaves.
    pub open spec fn hfield(self) -> nat
        decreases self,
    {
        match self {
            Rope::Branch { height, .. } => height as nat,
            Rope::Leaf(_) => 0,
        }
    }

    /// Structural invariant: every branch caches its left subtree's exact
    /// character and newline counts, holds no empty subtree, stores no
    /// more characters than fit in `usize`, and its cached height never
    /// exceeds its character count.
    pub open spec fn well_formed(self) -> bool
        decreases self,
    {
        match self {
            Rope::Branch { height, weight, line, left, right } => {
                &&& left.well_formed()
                &&& right.well_formed()
                &&& weight == left.text().len()
                &&& line == nl_count(left.text())
                &&& left.text().len() >= 1
                &&& right.text().len() >= 1
                &&& left.text().len() + right.text().len() <= usize::MAX
                &&& height <= left.text().len() + right.text().len()
            },
            Rope::Leaf(t) => t@.len() <= MAX_NODE_INSERT_SIZE,
        }
    }

    /// The cached height fields are exactly the structural heights.
    pub open spec fn heights_exact(self) -> bool
        decreases self,
    {
        match self {
            Rope::Branch { height, left, right, .. } => {
                &&& left.heights_exact()
                &&& right.heights_exact()
                &&& height == self.sheight()
            },
            Rope::Leaf(_) => true,
        }
    }

    /// Every branch's children differ in height by at most one.
    pub open spec fn balanced(self) -> bool
        decreases self,
    {
        match self {
            Rope::Branch { left, right, .. } => {
                &&& left.balanced()
                &&& right.balanced()
                &&& -1 <= left.sheight() - right.sheight() <= 1
            },
            Rope::Leaf(_) => true,
        }
    }

    /// A well-formed branch holds at least one character, and no rope is
    /// taller than its character count.
    pub proof fn lemma_height_le_count(self)
        requires
            self.well_formed(),
        ensures
            self.sheight() <= self.text().len(),
            self matches Rope::Branch { .. } ==> self.text().len() >= 1,
        decreases self,
    {
        match self {
            Rope::Branch { left, right, .. } => {
                left.lemma_height_le_count();
                right.lemma_height_le_count();
            },
            Rope::Leaf(_) => {},
        }
    }

    /// The cached height field never exceeds the character count.
    pub proof fn lemma_hfield_le_count(self)
        requires
            self.well_formed(),
        ensures
            self.hfield() <= self.text().len(),
    {
        match self {
            Rope::Branch { .. } => {},
            Rope::Leaf(_) => {},
        }
    }

    /// Exact cached heights mean the height field equals the structural height.
    pub proof fn lemma_hfield_exact(self)
        requires
            self.heights_exact(),
        ensures
            self.hfield() == self.sheight(),
    {
        match self {
            Rope::Branch { .. } => {},
            Rope::Leaf(_) => {},
        }
    }

    pub fn new() -> (r: Self)
        ensures
            r.well_formed(),
            r.heights_exact(),
            r.balanced(),
            r.text() == Seq::<char>::empty(),
    {
        let r = Rope::Leaf(Vec::new());
        proof {
            assert(r.text() =~= Seq::<char>::empty());
        }
        r
    }

    pub fn new_branch(height: usize, weight: usize, line: usize, left: Box<Rope>, right: Box<
        Rope,
    >) -> (r: Self)
        ensures
            r == (Rope::Branch { height, weight, line, left, right }),
    {
        Rope::Branch { height, weight, line, left, right }
    }

    /// Number of characters stored.
    pub fn len(&self) -> (r: usize)
        requires
            self.well_formed(),
        ensures
            r == self.text().len(),
        decreases self,
    {
        match self {
            Rope::Branch { weight, right, .. } => {
                proof {
                    right.lemma_height_le_count();
                }
                *weight + right.len()
            },
            Rope::Leaf(t) => t.len(),
        }
    }

    /// The cached height of the root node.
    pub fn height(&self) -> (r: usize)
        ensures
            r == self.hfield(),
            self.heights_exact() ==> r == self.sheight(),
    {
        if let Rope::Branch { height, .. } = self {
            *height
        } else {
            0
        }
    }

    /// Character count of the left subtree (of the whole rope on a leaf).
    pub fn weight(&self) -> (r: usize)
        requires
            self.well_formed(),
        ensures
            r == (match self {
                Rope::Branch { left, .. } => left.text().len(),
                Rope::Leaf(t) => t@.len(),
            }),
    {
        match self {
            Rope::Branch { weight, .. } => *weight,
            Rope::Leaf(t) => t.len(),
        }
    }

    /// Height difference between the two subtrees, positive when the left
    /// one is taller.
    pub fn get_balance(&self) -> (r: isize)
        requires
            self.well_formed(),
            self.heights_exact(),
            self.balanced(),
        ensures
            r == (match self {
                Rope::Branch { left, right, .. } => left.sheight() - right.sheight(),
                Rope::Leaf(_) => 0int,
            }),
    {
        if let Rope::Branch { left, right, .. } = self {
            let hl = left.height();
            let hr = right.height();
            if hl >= hr {
                (hl - hr) as isize
            } else {
                -((hr - hl) as isize)
            }
        } else {
            0
        }
    }

    /// Number of `'\n'` characters stored.
    pub fn _line_count(&self) -> (r: usize)
        requires
            self.well_formed(),
        ensures
            r == nl_count(self.text()),
        decreases self,
    {
        match self {
            Rope::Branch { line, left, right, .. } => {
                proof {
                    lemma_nl_count_concat(left.text(), right.text());
                    right.lemma_height_le_count();
                    lemma_nl_count_le_len(left.text());
                    lemma_nl_count_le_len(right.text());
                }
                *line + right._line_count()
            },
            Rope::Leaf(t) => count_newlines(t),
        }
    }

    /// Number of lines: one more than the number of newlines.
    pub fn line_count(&self) -> (r: usize)
        requires
            self.well_formed(),
            self.text().len() < usize::MAX,
        ensures
            r == nl_count(self.text()) + 1,
    {
        proof {
            lemma_nl_count_le_len(self.text());
        }
        self._line_count() + 1
    }

    /// Number of `'\n'` characters in `text`.
    pub fn get_line_count(text: &str) -> (r: usize)
        ensures
            r == nl_count(text@),
    {
        let v = str_to_chars(text);
        count_newlines(&v)
    }

    /// The character at `target_index`, or `None` past the end.
    pub fn get(&self, target_index: usize) -> (r: Option<char>)
        requires
            self.well_formed(),
        ensures
            target_index < self.text().len() ==> r == Some(self.text()[target_index as int]),
            target_index >= self.text().len() ==> r is None,
        decreases self,
    {
        match self {
            Rope::Branch { weight, left, right, .. } => {
                if target_index < *weight {
                    left.get(target_index)
                } else {
                    proof {
                        right.lemma_height_le_count();
                    }
                    right.get(target_index - *weight)
                }
            },
            Rope::Leaf(t) => {
                if target_index < t.len() {
                    Some(t[target_index])
                } else {
                    None
                }
            },
        }
    }
}

/// The larger of two heights.
pub open spec fn nat_max(a: nat, b: nat) -> nat {
    if a >= b {
        a
    } else {
        b
    }
}

impl Rope {
    /// Single right rotation: the left child becomes the root and the old
    /// root keeps the left child's right subtree.  A rope that does not
    /// match the rotated shape (a branch whose left child is a branch) is
    /// returned unchanged.  Heights of the two rebuilt nodes are
    /// recomputed from their children's cached heights.
    pub fn rotate_right(self) -> (r: Self)
        requires
            self.well_formed(),
        ensures
            r.well_formed(),
            r.text() == self.text(),
            (match self {
                Rope::Branch { height: h0, weight: w0, line: n0, left: l0, right: r0 } => (match (
                *l0) {
                    Rope::Branch { height: h1, weight: w1, line: n1, left: a, right: b } => r == (
                    Rope::Branch {
                        height: ((nat_max(
                            nat_max(b.hfield(), r0.hfield()) + 1,
                            a.hfield(),
                        ) + 1) as usize),
                        weight: w1,
                        line: n1,
                        left: a,
                        right: Box::new(Rope::Branch {
                            height: ((nat_max(b.hfield(), r0.hfield()) + 1) as usize),
                            weight: ((w0 - w1) as usize),
                            line: ((n0 - n1) as usize),
                            left: b,
                            right: r0,
                        }),
                    }),
                    _ => r == self,
                }),
                _ => r == self,
            }),
    {
        match self {
            Rope::Branch { height: root_height, weight: root_weight, line: root_line, left: root_left, right: root_right } => {
                proof {
                    assert((*root_left).well_formed());
                    assert((*root_right).well_formed());
                    root_right.lemma_hfield_le_count();
                }
                match *root_left {
                    Rope::Branch { height: _, weight: left_weight, line: left_line, left: left_left, right: left_right } => {
                        proof {
                            assert((*left_left).well_formed());
                            assert((*left_right).well_formed());
                            left_left.lemma_hfield_le_count();
                            left_right.lemma_hfield_le_count();
                            lemma_nl_count_concat(left_left.text(), left_right.text());
                            lemma_nl_count_le_len(left_right.text());
                            assert((left_left.text() + left_right.text()) + root_right.text()
                                =~= left_left.text() + (left_right.text() + root_right.text()));
                        }
                        let rrh = root_right.height();
                        let lrh = left_right.height();
                        let old_root_height = (if rrh >= lrh {
                            rrh
                        } else {
                            lrh
                        }) + 1;
                        let llh = left_left.height();
                        let new_height = (if old_root_height >= llh {
                            old_root_height
                        } else {
                            llh
                        }) + 1;
                        let inner = Rope::Branch {
                            height: old_root_height,
                            weight: root_weight - left_weight,
                            line: root_line - left_line,
                            left: left_right,
                            right: root_right,
                        };
                        proof {
                            assert(inner.well_formed());
                        }
                        let result = Rope::Branch {
                            height: new_height,
                            weight: left_weight,
                            line: left_line,
                            left: left_left,
                            right: Box::new(inner),
                        };
                        proof {
                            assert(result.well_formed());
                        }
                        result
                    },
                    other => {
                        let result = Rope::Branch {
                            height: root_height,
                            weight: root_weight,
                            line: root_line,
                            left: Box::new(other),
                            right: root_right,
                        };
                        proof {
                            assert(result == self);
                        }
                        result
                    },
                }
            },
            other => other,
        }
    }

    /// Single left rotation, the mirror image of `rotate_right`.
    pub fn rotate_left(self) -> (r: Self)
        requires
            self.well_formed(),
        ensures
            r.well_formed(),
            r.text() == self.text(),
            (match self {
                Rope::Branch { height: h0, weight: w0, line: n0, left: l0, right: r0 } => (match (
                *r0) {
                    Rope::Branch { height: h1, weight: w1, line: n1, left: a, right: b } => r == (
                    Rope::Branch {
                        height: ((nat_max(
                            nat_max(l0.hfield(), a.hfield()) + 1,
                            b.hfield(),
                        ) + 1) as usize),
                        weight: ((w0 + w1) as usize),
                        line: ((n0 + n1) as usize),
                        left: Box::new(Rope::Branch {
                            height: ((nat_max(l0.hfield(), a.hfield()) + 1) as usize),
                            weight: w0,
                            line: n0,
                            left: l0,
                            right: a,
                        }),
                        right: b,
                    }),
                    _ => r == self,
                }),
                _ => r == self,
            }),
    {
        match self {
            Rope::Branch { height: root_height, weight: root_weight, line: root_line, left: root_left, right: root_right } => {
                proof {
                    assert((*root_left).well_formed());
                    assert((*root_right).well_formed());
                    root_left.lemma_hfield_le_count();
                }
                match *root_right {
                    Rope::Branch { height: _, weight: right_weight, line: right_line, left: right_left, right: right_right } => {
                        proof {
                            assert((*right_left).well_formed());
                            assert((*right_right).well_formed());
                            right_left.lemma_hfield_le_count();
                            right_right.lemma_hfield_le_count();
                            lemma_nl_count_concat(root_left.text(), right_left.text());
                            lemma_nl_count_concat(right_left.text(), right_right.text());
                            lemma_nl_count_le_len(root_left.text());
                            lemma_nl_count_le_len(right_left.text());
                            assert(root_left.text() + (right_left.text() + right_right.text())
                                =~= (root_left.text() + right_left.text()) + right_right.text());
                        }
                        let rlh = root_left.height();
                        let rlh2 = right_left.height();
                        let old_root_height = (if rlh >= rlh2 {
                            rlh
                        } else {
                            rlh2
                        }) + 1;
                        let rrh = right_right.height();
                        let new_height = (if old_root_height >= rrh {
                            old_root_height
                        } else {
                            rrh
                        }) + 1;
                        let inner = Rope::Branch {
                            height: old_root_height,
                            weight: root_weight,
                            line: root_line,
                            left: root_left,
                            right: right_left,
                        };
                        proof {
                            assert(inner.well_formed());
                        }
                        let result = Rope::Branch {
                            height: new_height,
                            weight: root_weight + right_weight,
                            line: root_line + right_line,
                            left: Box::new(inner),
                            right: right_right,
                        };
                        proof {
                            assert(result.well_formed());
                        }
                        result
                    },
                    other => {
                        let result = Rope::Branch {
                            height: root_height,
                            weight: root_weight,
                            line: root_line,
                            left: root_left,
                            right: Box::new(other),
                        };
                        proof {
                            assert(result == self);
                        }
                        result
                    },
                }
            },
            other => other,
        }
    }
}

impl Rope {
    /// The left subtree (the rope itself on a leaf).
    pub open spec fn left_sub(self) -> Rope {
        match self {
            Rope::Branch { left, .. } => *left,
            Rope::Leaf(_) => self,
        }
    }

    /// The right subtree (the rope itself on a leaf).
    pub open spec fn right_sub(self) -> Rope {
        match self {
            Rope::Branch { right, .. } => *right,
            Rope::Leaf(_) => self,
        }
    }

    /// Character count of the left subtree (of the whole rope on a leaf),
    /// the routing weight that insertion descends by.
    pub open spec fn sweight(self) -> nat {
        match self {
            Rope::Branch { left, .. } => left.text().len(),
            Rope::Leaf(t) => t@.len(),
        }
    }

    /// Inserts a chunk into a leaf: the leaf grows in place while it stays
    /// within the chunk cap, and splits at the midpoint of the combined
    /// text into a two-leaf branch otherwise, so that both halves stay
    /// within the cap.
    fn _insert_leaf(index: usize, insert_text: &Vec<char>, insert_text_len: usize, text: Vec<
        char,
    >) -> (r: Self)
        requires
            insert_text_len == insert_text@.len(),
            1 <= insert_text_len <= MAX_NODE_INSERT_SIZE,
            index <= text@.len(),
            text@.len() <= MAX_NODE_INSERT_SIZE,
        ensures
            r.well_formed(),
            r.heights_exact(),
            r.balanced(),
            r.text() == splice_in(text@, index as int, insert_text@),
            r.sheight() <= 1,
    {
        let text_len = text.len();
        let mut nv = subvec(&text, 0, index);
        extend_vec(&mut nv, insert_text);
        let rest = subvec(&text, index, text_len);
        extend_vec(&mut nv, &rest);
        proof {
            assert(text@.subrange(index as int, text_len as int) =~= text@.skip(index as int));
            assert(text@.subrange(0, index as int) =~= text@.take(index as int));
            assert(nv@ =~= splice_in(text@, index as int, insert_text@));
        }
        let total = text_len + insert_text_len;
        if total <= MAX_NODE_INSERT_SIZE {
            let r = Rope::Leaf(nv);
            proof {
                assert(r.text() == nv@);
            }
            r
        } else {
            let mid = total / 2;
            let lv = subvec(&nv, 0, mid);
            let rv = subvec(&nv, mid, total);
            let lines = count_newlines(&lv);
            let ghost nvg = nv@;
            let ghost lvg = lv@;
            let ghost rvg = rv@;
            let lleaf = Rope::Leaf(lv);
            let rleaf = Rope::Leaf(rv);
            let ghost lg = lleaf;
            let ghost rg = rleaf;
            proof {
                assert(lg.text() == lvg);
                assert(rg.text() == rvg);
                assert(lg.sheight() == 0 && rg.sheight() == 0);
                assert(lg.well_formed() && rg.well_formed());
                assert(lg.heights_exact() && rg.heights_exact());
                assert(lg.balanced() && rg.balanced());
                assert(lvg + rvg =~= nvg);
            }
            let r = Rope::Branch {
                height: 1,
                weight: mid,
                line: lines,
                left: Box::new(lleaf),
                right: Box::new(rleaf),
            };
            proof {
                assert(r.left_sub() == lg && r.right_sub() == rg);
                assert(r.text() == lg.text() + rg.text());
                assert(r.well_formed());
                assert(r.heights_exact());
                assert(r.balanced());
                assert(r.sheight() == 1);
            }
            r
        }
    }

    /// Recursive insertion of one chunk.  Always preserves the structural
    /// invariant and splices the chunk into the stored text; on a tree
    /// whose cached heights are exact and which is balanced, it also keeps
    /// both of those, grows the height by at most one, and when it does
    /// grow, the new root leans toward the side the chunk went to.
    fn _insert(self, index: usize, insert_text: &Vec<char>, insert_text_len: usize,
        insert_text_lines: usize) -> (r: Self)
        requires
            self.well_formed(),
            insert_text_len == insert_text@.len(),
            insert_text_lines == nl_count(insert_text@),
            1 <= insert_text_len <= MAX_NODE_INSERT_SIZE,
            index <= self.text().len(),
            self.text().len() + insert_text_len <= usize::MAX,
        ensures
            r.well_formed(),
            r.text() == splice_in(self.text(), index as int, insert_text@),
            self.heights_exact() && self.balanced() ==> {
                &&& r.heights_exact()
                &&& r.balanced()
                &&& self.sheight() <= r.sheight() <= self.sheight() + 1
                &&& (r.sheight() == self.sheight() + 1 ==> r matches Rope::Branch { .. })
                &&& (r.sheight() == self.sheight() + 1 && (self matches Rope::Branch { .. }) ==> {
                    &&& (index <= self.sweight() ==> r.left_sub().sheight() == r.right_sub().sheight()
                        + 1)
                    &&& (index > self.sweight() ==> r.right_sub().sheight() == r.left_sub().sheight()
                        + 1)
                })
            },
        decreases self, 1int,
    {
        match self {
            Rope::Leaf(text) => {
                let r = Self::_insert_leaf(index, insert_text, insert_text_len, text);
                proof {
                    if r.sheight() == 1 {
                        assert(r matches Rope::Branch { .. });
                    }
                }
                r
            },
            Rope::Branch { height, weight, line, left, right } => Self::_insert_branch(
                index,
                insert_text,
                insert_text_len,
                insert_text_lines,
                height,
                weight,
                line,
                left,
                right,
                Ghost(self),
            ),
        }
    }

    /// Insertion into a branch: descend into the child that contains
    /// `index` (the left one when `index` is on the boundary), bump the
    /// cached weight and line counters when the chunk went left, and
    /// restore balance with a single or double rotation when the grown
    /// child now overtops its sibling by two.
    #[verifier::rlimit(100)]
    #[verifier::spinoff_prover]
    fn _insert_branch(index: usize, insert_text: &Vec<char>, insert_text_len: usize,
        insert_text_lines: usize, height: usize, weight: usize, line: usize, left: Box<Rope>,
        right: Box<Rope>, orig: Ghost<Rope>) -> (r: Rope)
        requires
            orig@ == (Rope::Branch { height, weight, line, left, right }),
            orig@.well_formed(),
            insert_text_len == insert_text@.len(),
            insert_text_lines == nl_count(insert_text@),
            1 <= insert_text_len <= MAX_NODE_INSERT_SIZE,
            index <= orig@.text().len(),
            orig@.text().len() + insert_text_len <= usize::MAX,
        ensures
            r.well_formed(),
            r.text() == splice_in(orig@.text(), index as int, insert_text@),
            orig@.heights_exact() && orig@.balanced() ==> {
                &&& r.heights_exact()
                &&& r.balanced()
                &&& orig@.sheight() <= r.sheight() <= orig@.sheight() + 1
                &&& (r.sheight() == orig@.sheight() + 1 ==> r matches Rope::Branch { .. })
                &&& (r.sheight() == orig@.sheight() + 1 ==> {
                    &&& (index <= orig@.sweight() ==> r.left_sub().sheight()
                        == r.right_sub().sheight() + 1)
                    &&& (index > orig@.sweight() ==> r.right_sub().sheight()
                        == r.left_sub().sheight() + 1)
                })
            },
        decreases orig@, 0int,
    {
        let ghost bal = orig@.heights_exact() && orig@.balanced();
        let ghost lt = left.text();
        let ghost rt = right.text();
        let ghost sl = left.sheight();
        let ghost sr = right.sheight();
        proof {
            assert((*left).well_formed());
            assert((*right).well_formed());
            left.lemma_hfield_le_count();
            right.lemma_hfield_le_count();
            left.lemma_height_le_count();
            right.lemma_height_le_count();
            lemma_splice_in_concat(lt, rt, index as int, insert_text@);
            lemma_nl_count_le_len(lt);
            lemma_nl_count_le_len(insert_text@);
            if bal {
                assert((*left).heights_exact() && (*right).heights_exact());
                assert((*left).balanced() && (*right).balanced());
                left.lemma_hfield_exact();
                right.lemma_hfield_exact();
                assert(orig@.sheight() == 1 + nat_max(sl, sr));
                assert(height == orig@.sheight());
            }
        }
        if index <= weight {
            proof {
                lemma_nl_count_splice_in(lt, index as int, insert_text@);
            }
            let left_weight = left.weight();
            let rh = right.height();
            let lb = (*left)._insert(index, insert_text, insert_text_len, insert_text_lines);
            let ghost slb = lb.sheight();
            proof {
                lb.lemma_hfield_le_count();
                lb.lemma_height_le_count();
                if bal {
                    lb.lemma_hfield_exact();
                }
            }
            let lbh = lb.height();
            let new_height = if height >= lbh + 1 {
                height
            } else {
                lbh + 1
            };
            if lbh > rh + 1 && index <= left_weight {
                proof {
                    if bal {
                        assert(lbh == slb && rh == sr);
                        assert(sl <= sr + 1);
                        assert(slb == sr + 2 && slb == sl + 1);
                        assert(lb matches Rope::Branch { .. });
                        assert((*left).sweight() == left_weight);
                        assert(lb.left_sub().sheight() == lb.right_sub().sheight() + 1);
                        assert(lb.left_sub().sheight() == sr + 1);
                        assert(lb.right_sub().sheight() == sr);
                        assert(lb.left_sub().heights_exact() && lb.right_sub().heights_exact());
                        assert(lb.left_sub().balanced() && lb.right_sub().balanced());
                        lb.left_sub().lemma_hfield_exact();
                        lb.right_sub().lemma_hfield_exact();
                    }
                }
                let t = Rope::Branch {
                    height: new_height,
                    weight: weight + insert_text_len,
                    line: line + insert_text_lines,
                    left: Box::new(lb),
                    right,
                };
                proof {
                    assert(t.well_formed());
                }
                let r = t.rotate_right();
                proof {
                    if bal {
                        assert(r.left_sub() == lb.left_sub());
                        assert(r.right_sub().left_sub() == lb.right_sub());
                        assert(r.right_sub().right_sub().sheight() == sr);
                        assert(r.right_sub().sheight() == sr + 1) by {
                            assert(r.right_sub() matches Rope::Branch { .. });
                        }
                        assert(r.right_sub().heights_exact());
                        assert(r.right_sub().balanced());
                        assert(r.sheight() == sr + 2);
                        assert(r.heights_exact());
                        assert(r.balanced());
                        assert(r.sheight() == orig@.sheight());
                    }
                }
                r
            } else if lbh > rh + 1 {
                proof {
                    if bal {
                        assert(lbh == slb && rh == sr);
                        assert(slb == sr + 2 && slb == sl + 1);
                        assert(lb matches Rope::Branch { .. });
                        assert((*left).sweight() == left_weight);
                        assert(lb.right_sub().sheight() == lb.left_sub().sheight() + 1);
                        assert(lb.left_sub().sheight() == sr);
                        assert(lb.right_sub().sheight() == sr + 1);
                        assert(lb.right_sub() matches Rope::Branch { .. });
                        assert(lb.left_sub().heights_exact() && lb.right_sub().heights_exact());
                        assert(lb.left_sub().balanced() && lb.right_sub().balanced());
                        lb.left_sub().lemma_hfield_exact();
                        lb.right_sub().lemma_hfield_exact();
                        lb.right_sub().left_sub().lemma_hfield_exact();
                        lb.right_sub().right_sub().lemma_hfield_exact();
                    }
                }
                let lb2 = lb.rotate_left();
                proof {
                    if bal {
                        assert(lb.right_sub().left_sub().heights_exact());
                        assert(lb.right_sub().right_sub().heights_exact());
                        assert(lb2.left_sub().left_sub() == lb.left_sub());
                        assert(lb2.left_sub().right_sub() == lb.right_sub().left_sub());
                        assert(lb2.right_sub() == lb.right_sub().right_sub());
                        assert(lb.right_sub().left_sub().sheight() <= sr);
                        assert(lb.right_sub().right_sub().sheight() <= sr);
                        assert(lb2.left_sub().sheight() == sr + 1) by {
                            assert(lb2.left_sub() matches Rope::Branch { .. });
                        }
                        assert(lb2.left_sub().heights_exact());
                        assert(lb2.heights_exact());
                        assert(lb2.sheight() == sr + 2);
                    }
                }
                let t = Rope::Branch {
                    height: new_height,
                    weight: weight + insert_text_len,
                    line: line + insert_text_lines,
                    left: Box::new(lb2),
                    right,
                };
                proof {
                    assert(t.well_formed());
                }
                let r = t.rotate_right();
                proof {
                    if bal {
                        assert(r.left_sub() == lb2.left_sub());
                        assert(r.right_sub().left_sub() == lb2.right_sub());
                        assert(r.right_sub().right_sub().sheight() == sr);
                        assert(r.right_sub().sheight() == sr + 1) by {
                            assert(r.right_sub() matches Rope::Branch { .. });
                        }
                        assert(lb.right_sub().left_sub().balanced());
                        assert(lb.right_sub().right_sub().balanced());
                        assert(lb.right_sub().left_sub().sheight() >= sr - 1);
                        assert(lb.right_sub().right_sub().sheight() >= sr - 1);
                        assert(r.left_sub().left_sub() == lb.left_sub());
                        assert(r.left_sub().right_sub() == lb.right_sub().left_sub());
                        assert(r.left_sub().balanced());
                        assert(r.right_sub().heights_exact());
                        assert(r.right_sub().balanced());
                        assert(r.sheight() == sr + 2);
                        assert(r.heights_exact());
                        assert(r.balanced());
                        assert(r.sheight() == orig@.sheight());
                    }
                }
                r
            } else {
                let r = Rope::Branch {
                    height: new_height,
                    weight: weight + insert_text_len,
                    line: line + insert_text_lines,
                    left: Box::new(lb),
                    right,
                };
                proof {
                    assert(r.well_formed());
                    if bal {
                        assert(lbh == slb && rh == sr);
                        assert(slb <= sr + 1);
                        assert(sl <= slb <= sl + 1);
                        assert(r.left_sub() == lb && r.right_sub() == *right);
                        assert(r.sheight() == 1 + nat_max(slb, sr));
                        assert(new_height == nat_max(height as nat, slb + 1));
                        assert(new_height == r.sheight());
                        assert(r.heights_exact());
                        assert(r.balanced());
                        assert(orig@.sheight() <= r.sheight() <= orig@.sheight() + 1);
                        if r.sheight() == orig@.sheight() + 1 {
                            assert(slb == sr + 1);
                        }
                    }
                }
                r
            }
        } else {
            proof {
                lemma_nl_count_splice_in(rt, index - weight, insert_text@);
            }
            let right_weight = right.weight();
            let lh = left.height();
            let rb = (*right)._insert(
                index - weight,
                insert_text,
                insert_text_len,
                insert_text_lines,
            );
            let ghost srb = rb.sheight();
            proof {
                rb.lemma_hfield_le_count();
                rb.lemma_height_le_count();
                if bal {
                    rb.lemma_hfield_exact();
                }
            }
            let rbh = rb.height();
            let new_height = if height >= rbh + 1 {
                height
            } else {
                rbh + 1
            };
            if rbh > lh + 1 && index - weight > right_weight {
                proof {
                    if bal {
                        assert(rbh == srb && lh == sl);
                        assert(srb == sl + 2 && srb == sr + 1);
                        assert(rb matches Rope::Branch { .. });
                        assert((*right).sweight() == right_weight);
                        assert(rb.right_sub().sheight() == rb.left_sub().sheight() + 1);
                        assert(rb.right_sub().sheight() == sl + 1);
                        assert(rb.left_sub().sheight() == sl);
                        assert(rb.left_sub().heights_exact() && rb.right_sub().heights_exact());
                        assert(rb.left_sub().balanced() && rb.right_sub().balanced());
                        rb.left_sub().lemma_hfield_exact();
                        rb.right_sub().lemma_hfield_exact();
                    }
                }
                let t = Rope::Branch {
                    height: new_height,
                    weight,
                    line,
                    left,
                    right: Box::new(rb),
                };
                proof {
                    assert(t.well_formed());
                }
                let r = t.rotate_left();
                proof {
                    if bal {
                        assert(r.right_sub() == rb.right_sub());
                        assert(r.left_sub().right_sub() == rb.left_sub());
                        assert(r.left_sub().left_sub().sheight() == sl);
                        assert(r.left_sub().sheight() == sl + 1) by {
                            assert(r.left_sub() matches Rope::Branch { .. });
                        }
                        assert(r.left_sub().heights_exact());
                        assert(r.left_sub().balanced());
                        assert(r.sheight() == sl + 2);
                        assert(r.heights_exact());
                        assert(r.balanced());
                        assert(r.sheight() == orig@.sheight());
                    }
                }
                r
            } else if rbh > lh + 1 {
                proof {
                    if bal {
                        assert(rbh == srb && lh == sl);
                        assert(srb == sl + 2 && srb == sr + 1);
                        assert(rb matches Rope::Branch { .. });
                        assert((*right).sweight() == right_weight);
                        assert(rb.left_sub().sheight() == rb.right_sub().sheight() + 1);
                        assert(rb.right_sub().sheight() == sl);
                        assert(rb.left_sub().sheight() == sl + 1);
                        assert(rb.left_sub() matches Rope::Branch { .. });
                        assert(rb.left_sub().heights_exact() && rb.right_sub().heights_exact());
                        assert(rb.left_sub().balanced() && rb.right_sub().balanced());
                        rb.left_sub().lemma_hfield_exact();
                        rb.right_sub().lemma_hfield_exact();
                        rb.left_sub().left_sub().lemma_hfield_exact();
                        rb.left_sub().right_sub().lemma_hfield_exact();
                    }
                }
                let rb2 = rb.rotate_right();
                proof {
                    if bal {
                        assert(rb.left_sub().left_sub().heights_exact());
                        assert(rb.left_sub().right_sub().heights_exact());
                        assert(rb2.right_sub().right_sub() == rb.right_sub());
                        assert(rb2.right_sub().left_sub() == rb.left_sub().right_sub());
                        assert(rb2.left_sub() == rb.left_sub().left_sub());
                        assert(rb.left_sub().left_sub().sheight() <= sl);
                        assert(rb.left_sub().right_sub().sheight() <= sl);
                        assert(rb2.right_sub().sheight() == sl + 1) by {
                            assert(rb2.right_sub() matches Rope::Branch { .. });
                        }
                        assert(rb2.right_sub().heights_exact());
                        assert(rb2.heights_exact());
                        assert(rb2.sheight() == sl + 2);
                    }
                }
                let t = Rope::Branch {
                    height: new_height,
                    weight,
                    line,
                    left,
                    right: Box::new(rb2),
                };
                proof {
                    assert(t.well_formed());
                }
                let r = t.rotate_left();
                proof {
                    if bal {
                        assert(r.right_sub() == rb2.right_sub());
                        assert(r.left_sub().right_sub() == rb2.left_sub());
                        assert(r.left_sub().left_sub().sheight() == sl);
                        assert(r.left_sub().sheight() == sl + 1) by {
                            assert(r.left_sub() matches Rope::Branch { .. });
                        }
                        assert(rb.left_sub().left_sub().balanced());
                        assert(rb.left_sub().right_sub().balanced());
                        assert(rb.left_sub().left_sub().sheight() >= sl - 1);
                        assert(rb.left_sub().right_sub().sheight() >= sl - 1);
                        assert(r.right_sub().right_sub() == rb.right_sub());
                        assert(r.right_sub().left_sub() == rb.left_sub().right_sub());
                        assert(r.right_sub().balanced());
                        assert(r.left_sub().heights_exact());
                        assert(r.left_sub().balanced());
                        assert(r.sheight() == sl + 2);
                        assert(r.heights_exact());
                        assert(r.balanced());
                        assert(r.sheight() == orig@.sheight());
                    }
                }
                r
            } else {
                let r = Rope::Branch {
                    height: new_height,
                    weight,
                    line,
                    left,
                    right: Box::new(rb),
                };
                proof {
                    assert(r.well_formed());
                    if bal {
                        assert(rbh == srb && lh == sl);
                        assert(srb <= sl + 1);
                        assert(sr <= srb <= sr + 1);
                        assert(r.left_sub() == *left && r.right_sub() == rb);
                        assert(r.sheight() == 1 + nat_max(sl, srb));
                        assert(new_height == nat_max(height as nat, srb + 1));
                        assert(new_height == r.sheight());
                        assert(r.heights_exact());
                        assert(r.balanced());
                        assert(orig@.sheight() <= r.sheight() <= orig@.sheight() + 1);
                        if r.sheight() == orig@.sheight() + 1 {
                            assert(srb == sl + 1);
                        }
                    }
                }
                r
            }
        }
    }
}

impl Rope {
    /// Joins two trees whose heights differ by at most two into one
    /// balanced tree holding the left text followed by the right text,
    /// rotating once (singly or doubly) when the gap is exactly two.  The
    /// result is at most one taller than the taller input, and exactly
    /// one taller when the inputs' heights differ by at most one.
    #[verifier::rlimit(100)]
    #[verifier::spinoff_prover]
    fn balance_node(left: Box<Rope>, right: Box<Rope>) -> (r: Rope)
        requires
            (*left).well_formed(),
            (*right).well_formed(),
            (*left).heights_exact(),
            (*right).heights_exact(),
            (*left).balanced(),
            (*right).balanced(),
            left.text().len() >= 1,
            right.text().len() >= 1,
            left.text().len() + right.text().len() <= usize::MAX,
            -2 <= left.sheight() - right.sheight() <= 2,
        ensures
            r.well_formed(),
            r.heights_exact(),
            r.balanced(),
            r.text() == left.text() + right.text(),
            nat_max(left.sheight(), right.sheight()) <= r.sheight() <= nat_max(
                left.sheight(),
                right.sheight(),
            ) + 1,
            -1 <= left.sheight() - right.sheight() <= 1 ==> r.sheight() == nat_max(
                left.sheight(),
                right.sheight(),
            ) + 1,
    {
        let ghost sl = left.sheight();
        let ghost sr = right.sheight();
        proof {
            left.lemma_hfield_exact();
            right.lemma_hfield_exact();
            left.lemma_height_le_count();
            right.lemma_height_le_count();
        }
        let hl = left.height();
        let hr = right.height();
        let weight = left.len();
        let line = left._line_count();
        proof {
            lemma_nl_count_le_len(left.text());
        }
        if hl > hr + 1 {
            proof {
                assert(sl == sr + 2);
                assert(left.left_sub().sheight() <= sl - 1 && left.right_sub().sheight() <= sl
                    - 1);
                assert((*left) matches Rope::Branch { .. });
                assert(left.left_sub().heights_exact() && left.right_sub().heights_exact());
                assert(left.left_sub().balanced() && left.right_sub().balanced());
                left.left_sub().lemma_hfield_exact();
                left.right_sub().lemma_hfield_exact();
                assert(nat_max(left.left_sub().sheight(), left.right_sub().sheight()) == sl - 1);
            }
            let single = match &*left {
                Rope::Branch { left: ll, right: lr, .. } => ll.height() >= lr.height(),
                Rope::Leaf(_) => true,
            };
            if single {
                let t = Rope::Branch {
                    height: hl + 1,
                    weight,
                    line,
                    left,
                    right,
                };
                proof {
                    assert(t.well_formed());
                }
                let r = t.rotate_right();
                proof {
                    assert(r.left_sub() == t.left_sub().left_sub());
                    assert(r.right_sub().left_sub() == t.left_sub().right_sub());
                    assert(r.right_sub().right_sub().sheight() == sr);
                    assert(r.right_sub() matches Rope::Branch { .. });
                    assert(r.right_sub().sheight() == 1 + nat_max(
                        t.left_sub().right_sub().sheight(),
                        sr,
                    ));
                    assert(r.right_sub().heights_exact());
                    assert(r.right_sub().balanced());
                    assert(r.heights_exact());
                    assert(r.balanced());
                }
                r
            } else {
                // The left child leans right, so rotate it left first.
                proof {
                    assert(left.right_sub().sheight() == sl - 1);
                    assert(left.left_sub().sheight() == sl - 2);
                    assert(left.right_sub() matches Rope::Branch { .. });
                    left.right_sub().left_sub().lemma_hfield_exact();
                    left.right_sub().right_sub().lemma_hfield_exact();
                    assert(left.right_sub().left_sub().heights_exact());
                    assert(left.right_sub().right_sub().heights_exact());
                    assert(left.right_sub().left_sub().balanced());
                    assert(left.right_sub().right_sub().balanced());
                    assert(nat_max(
                        left.right_sub().left_sub().sheight(),
                        left.right_sub().right_sub().sheight(),
                    ) == sl - 2);
                }
                let ghost lg = *left;
                let left2 = (*left).rotate_left();
                proof {
                    assert(left2.left_sub().left_sub() == lg.left_sub());
                    assert(left2.left_sub().right_sub() == lg.right_sub().left_sub());
                    assert(left2.right_sub() == lg.right_sub().right_sub());
                    assert(left2.left_sub().sheight() == sl - 1) by {
                        assert(left2.left_sub() matches Rope::Branch { .. });
                    }
                    assert(left2.left_sub().heights_exact());
                    assert(left2.left_sub().balanced());
                    assert(left2.heights_exact());
                    assert(left2.sheight() == sl);
                    left2.lemma_hfield_exact();
                }
                let t = Rope::Branch {
                    height: hl + 1,
                    weight,
                    line,
                    left: Box::new(left2),
                    right,
                };
                proof {
                    assert(t.well_formed());
                }
                let r = t.rotate_right();
                proof {
                    assert(r.left_sub() == t.left_sub().left_sub());
                    assert(r.right_sub().left_sub() == t.left_sub().right_sub());
                    assert(r.right_sub().right_sub().sheight() == sr);
                    assert(r.right_sub().sheight() == sr + 1) by {
                        assert(r.right_sub() matches Rope::Branch { .. });
                    }
                    assert(r.left_sub().sheight() == sl - 1);
                    assert(r.left_sub().balanced());
                    assert(r.right_sub().heights_exact());
                    assert(r.right_sub().balanced());
                    assert(r.sheight() == sl);
                    assert(r.heights_exact());
                    assert(r.balanced());
                }
                r
            }
        } else if hr > hl + 1 {
            proof {
                assert(sr == sl + 2);
                assert((*right) matches Rope::Branch { .. });
                assert(right.left_sub().heights_exact() && right.right_sub().heights_exact());
                assert(right.left_sub().balanced() && right.right_sub().balanced());
                right.left_sub().lemma_hfield_exact();
                right.right_sub().lemma_hfield_exact();
                assert(nat_max(right.left_sub().sheight(), right.right_sub().sheight()) == sr - 1);
            }
            let single = match &*right {
                Rope::Branch { left: rl, right: rr, .. } => rr.height() >= rl.height(),
                Rope::Leaf(_) => true,
            };
            if single {
                let t = Rope::Branch {
                    height: hr + 1,
                    weight,
                    line,
                    left,
                    right,
                };
                proof {
                    assert(t.well_formed());
                }
                let r = t.rotate_left();
                proof {
                    assert(r.right_sub() == t.right_sub().right_sub());
                    assert(r.left_sub().right_sub() == t.right_sub().left_sub());
                    assert(r.left_sub().left_sub().sheight() == sl);
                    assert(r.left_sub() matches Rope::Branch { .. });
                    assert(r.left_sub().sheight() == 1 + nat_max(
                        sl,
                        t.right_sub().left_sub().sheight(),
                    ));
                    assert(r.left_sub().heights_exact());
                    assert(r.left_sub().balanced());
                    assert(r.heights_exact());
                    assert(r.balanced());
                }
                r
            } else {
                // The right child leans left, so rotate it right first.
                proof {
                    assert(right.left_sub().sheight() == sr - 1);
                    assert(right.right_sub().sheight() == sr - 2);
                    assert(right.left_sub() matches Rope::Branch { .. });
                    right.left_sub().left_sub().lemma_hfield_exact();
                    right.left_sub().right_sub().lemma_hfield_exact();
                    assert(right.left_sub().left_sub().heights_exact());
                    assert(right.left_sub().right_sub().heights_exact());
                    assert(right.left_sub().left_sub().balanced());
                    assert(right.left_sub().right_sub().balanced());
                    assert(nat_max(
                        right.left_sub().left_sub().sheight(),
                        right.left_sub().right_sub().sheight(),
                    ) == sr - 2);
                }
                let ghost rg = *right;
                let right2 = (*right).rotate_right();
                proof {
                    assert(right2.right_sub().right_sub() == rg.right_sub());
                    assert(right2.right_sub().left_sub() == rg.left_sub().right_sub());
                    assert(right2.left_sub() == rg.left_sub().left_sub());
                    assert(right2.right_sub().sheight() == sr - 1) by {
                        assert(right2.right_sub() matches Rope::Branch { .. });
                    }
                    assert(right2.right_sub().heights_exact());
                    assert(right2.right_sub().balanced());
                    assert(right2.heights_exact());
                    assert(right2.sheight() == sr);
                    right2.lemma_hfield_exact();
                }
                let t = Rope::Branch {
                    height: hr + 1,
                    weight,
                    line,
                    left,
                    right: Box::new(right2),
                };
                proof {
                    assert(t.well_formed());
                }
                let r = t.rotate_left();
                proof {
                    assert(r.right_sub() == t.right_sub().right_sub());
                    assert(r.left_sub().right_sub() == t.right_sub().left_sub());
                    assert(r.left_sub().left_sub().sheight() == sl);
                    assert(r.left_sub().sheight() == sl + 1) by {
                        assert(r.left_sub() matches Rope::Branch { .. });
                    }
                    assert(r.right_sub().sheight() == sr - 1);
                    assert(r.right_sub().balanced());
                    assert(r.left_sub().heights_exact());
                    assert(r.left_sub().balanced());
                    assert(r.sheight() == sr);
                    assert(r.heights_exact());
                    assert(r.balanced());
                }
                r
            }
        } else {
            let h = (if hl >= hr {
                hl
            } else {
                hr
            }) + 1;
            let r = Rope::Branch {
                height: h,
                weight,
                line,
                left,
                right,
            };
            proof {
                assert(r.well_formed());
                assert(r.heights_exact());
                assert(r.balanced());
            }
            r
        }
    }

    /// Concatenates two balanced trees of arbitrary heights into one
    /// balanced tree: the shorter tree is merged down the taller tree's
    /// inner spine, rebalancing on the way out.  Restores the balance
    /// bound after a removal shrank one side by more than one level.
    fn balance_join(left: Box<Rope>, right: Box<Rope>) -> (r: Rope)
        requires
            (*left).well_formed(),
            (*right).well_formed(),
            (*left).heights_exact(),
            (*right).heights_exact(),
            (*left).balanced(),
            (*right).balanced(),
            left.text().len() >= 1,
            right.text().len() >= 1,
            left.text().len() + right.text().len() <= usize::MAX,
        ensures
            r.well_formed(),
            r.heights_exact(),
            r.balanced(),
            r.text() == left.text() + right.text(),
            nat_max(left.sheight(), right.sheight()) <= r.sheight() <= nat_max(
                left.sheight(),
                right.sheight(),
            ) + 1,
        decreases left.sheight() + right.sheight(),
    {
        let ghost sl = left.sheight();
        let ghost sr = right.sheight();
        proof {
            left.lemma_hfield_exact();
            right.lemma_hfield_exact();
            left.lemma_height_le_count();
            right.lemma_height_le_count();
        }
        let hl = left.height();
        let hr = right.height();
        let close = if hl >= hr {
            hl - hr <= 2
        } else {
            hr - hl <= 2
        };
        if close {
            Self::balance_node(left, right)
        } else if hl > hr {
            proof {
                assert((*left) matches Rope::Branch { .. });
                assert(left.left_sub().heights_exact() && left.right_sub().heights_exact());
                assert(left.left_sub().balanced() && left.right_sub().balanced());
                left.left_sub().lemma_height_le_count();
                left.right_sub().lemma_height_le_count();
                assert(nat_max(left.left_sub().sheight(), left.right_sub().sheight()) == sl - 1);
                assert(left.text() == left.left_sub().text() + left.right_sub().text());
            }
            match *left {
                Rope::Branch { left: ll, right: lr, .. } => {
                    let ghost llg = *ll;
                    let ghost lrg = *lr;
                    let m = Self::balance_join(lr, right);
                    proof {
                        assert(m.sheight() <= sl);
                        assert(m.sheight() >= lrg.sheight());
                        if llg.sheight() == sl - 2 {
                            assert(lrg.sheight() == sl - 1);
                        }
                        m.lemma_height_le_count();
                        assert((llg.text() + lrg.text()) + right.text() =~= llg.text() + (
                        lrg.text() + right.text()));
                    }
                    let r = Self::balance_node(ll, Box::new(m));
                    proof {
                        assert(r.sheight() >= sl);
                        assert(r.sheight() <= sl + 1);
                    }
                    r
                },
                Rope::Leaf(_) => {
                    proof {
                        assert(false);
                    }
                    Rope::new()
                },
            }
        } else {
            proof {
                assert((*right) matches Rope::Branch { .. });
                assert(right.left_sub().heights_exact() && right.right_sub().heights_exact());
                assert(right.left_sub().balanced() && right.right_sub().balanced());
                right.left_sub().lemma_height_le_count();
                right.right_sub().lemma_height_le_count();
                assert(nat_max(right.left_sub().sheight(), right.right_sub().sheight()) == sr - 1);
                assert(right.text() == right.left_sub().text() + right.right_sub().text());
            }
            match *right {
                Rope::Branch { left: rl, right: rr, .. } => {
                    let ghost rlg = *rl;
                    let ghost rrg = *rr;
                    let m = Self::balance_join(left, rl);
                    proof {
                        assert(m.sheight() <= sr);
                        assert(m.sheight() >= rlg.sheight());
                        if rrg.sheight() == sr - 2 {
                            assert(rlg.sheight() == sr - 1);
                        }
                        m.lemma_height_le_count();
                        assert((left.text() + rlg.text()) + rrg.text() =~= left.text() + (
                        rlg.text() + rrg.text()));
                    }
                    let r = Self::balance_node(Box::new(m), rr);
                    proof {
                        assert(r.sheight() >= sr);
                        assert(r.sheight() <= sr + 1);
                    }
                    r
                },
                Rope::Leaf(_) => {
                    proof {
                        assert(false);
                    }
                    Rope::new()
                },
            }
        }
    }
}

/// How many characters a removal of `dl` starting at `index` actually
/// takes out of a text of length `len`: the request, clipped to the end.
pub open spec fn removed_of(len: int, index: int, dl: int) -> int {
    if dl <= len - index {
        dl
    } else {
        len - index
    }
}

impl Rope {
    /// Removes up to `delete_len` characters starting at `index` from a
    /// leaf.  Returns the surviving leaf (`None` when nothing survives)
    /// and how much of the requested removal ran past this leaf's end.
    fn _remove_leaf(index: usize, delete_len: usize, text: Vec<char>) -> (res: (
        Option<Box<Rope>>,
        usize,
    ))
        requires
            index < text@.len(),
            delete_len >= 1,
            text@.len() <= MAX_NODE_INSERT_SIZE,
        ensures
            ({
                let rem = removed_of(text@.len() as int, index as int, delete_len as int);
                let nt = splice_out(text@, index as int, rem);
                &&& res.1 == delete_len - rem
                &&& (match res.0 {
                    Some(b) => {
                        &&& (*b).well_formed()
                        &&& (*b).heights_exact()
                        &&& (*b).balanced()
                        &&& (*b).text() == nt
                        &&& nt.len() >= 1
                    },
                    None => nt.len() == 0,
                })
            }),
    {
        let text_len = text.len();
        let len_after_index = text_len - index;
        proof {
            assert(text@.subrange(0, index as int) =~= text@.take(index as int));
        }
        if len_after_index == delete_len {
            proof {
                assert(splice_out(text@, index as int, delete_len as int) =~= text@.take(
                    index as int,
                ));
            }
            if index == 0 {
                (None, 0)
            } else {
                (Some(Box::new(Rope::Leaf(subvec(&text, 0, index)))), 0)
            }
        } else if len_after_index > delete_len {
            let mut nv = subvec(&text, 0, index);
            let rest = subvec(&text, index + delete_len, text_len);
            extend_vec(&mut nv, &rest);
            proof {
                assert(text@.subrange(index + delete_len, text_len as int) =~= text@.skip(
                    index + delete_len,
                ));
                assert(nv@ =~= splice_out(text@, index as int, delete_len as int));
            }
            (Some(Box::new(Rope::Leaf(nv))), 0)
        } else {
            proof {
                assert(splice_out(text@, index as int, text_len - index) =~= text@.take(
                    index as int,
                ));
            }
            if index == 0 {
                (None, delete_len - text_len)
            } else {
                (Some(Box::new(Rope::Leaf(subvec(&text, 0, index)))), delete_len - len_after_index)
            }
        }
    }

    /// Recursive removal: takes out what falls inside this subtree and
    /// reports how much of the request runs past its end.  Every rebuilt
    /// node is put back together with `balance_join`, so the result is
    /// balanced again however much of a subtree the removal consumed.
    fn _remove(self, index: usize, delete_len: usize) -> (res: (Option<Box<Rope>>, usize))
        requires
            self.well_formed(),
            self.heights_exact(),
            self.balanced(),
            index < self.text().len(),
            delete_len >= 1,
        ensures
            ({
                let rem = removed_of(self.text().len() as int, index as int, delete_len as int);
                let nt = splice_out(self.text(), index as int, rem);
                &&& res.1 == delete_len - rem
                &&& (match res.0 {
                    Some(b) => {
                        &&& (*b).well_formed()
                        &&& (*b).heights_exact()
                        &&& (*b).balanced()
                        &&& (*b).text() == nt
                        &&& nt.len() >= 1
                    },
                    None => nt.len() == 0,
                })
            }),
        decreases self, 1int,
    {
        match self {
            Rope::Leaf(text) => Self::_remove_leaf(index, delete_len, text),
            Rope::Branch { height: _, weight, line, left, right } => Self::_remove_branch(
                index,
                delete_len,
                weight,
                line,
                left,
                right,
                Ghost(self),
            ),
        }
    }

    /// Removal from a branch: route into the child holding `index`, and
    /// when the left child's removal runs past its end, carry the rest
    /// into the right child.  A child that loses all its characters is
    /// dropped and the surviving sibling takes this node's place; a
    /// surviving pair is rejoined balanced.
    #[verifier::rlimit(60)]
    #[verifier::spinoff_prover]
    fn _remove_branch(index: usize, delete_len: usize, weight: usize, line: usize, left: Box<
        Rope,
    >, right: Box<Rope>, orig: Ghost<Rope>) -> (res: (Option<Box<Rope>>, usize))
        requires
            orig@ matches Rope::Branch { .. },
            orig@.left_sub() == *left,
            orig@.right_sub() == *right,
            orig@.well_formed(),
            orig@.heights_exact(),
            orig@.balanced(),
            weight == left.text().len(),
            line == nl_count(left.text()),
            index < orig@.text().len(),
            delete_len >= 1,
        ensures
            ({
                let rem = removed_of(orig@.text().len() as int, index as int, delete_len as int);
                let nt = splice_out(orig@.text(), index as int, rem);
                &&& res.1 == delete_len - rem
                &&& (match res.0 {
                    Some(b) => {
                        &&& (*b).well_formed()
                        &&& (*b).heights_exact()
                        &&& (*b).balanced()
                        &&& (*b).text() == nt
                        &&& nt.len() >= 1
                    },
                    None => nt.len() == 0,
                })
            }),
        decreases orig@, 0int,
    {
        let ghost lt = left.text();
        let ghost rt = right.text();
        proof {
            assert(orig@.text() == lt + rt);
            assert((*left).well_formed());
            assert((*right).well_formed());
            assert((*left).heights_exact() && (*right).heights_exact());
            assert((*left).balanced() && (*right).balanced());
            left.lemma_hfield_le_count();
            right.lemma_hfield_le_count();
        }
        if index < weight {
            let (opt, rm) = (*left)._remove(index, delete_len);
            let ghost rem_l = removed_of(lt.len() as int, index as int, delete_len as int);
            let ghost nt_l = splice_out(lt, index as int, rem_l);
            match opt {
                Some(lb) => {
                    proof {
                        lb.lemma_hfield_le_count();
                    }
                    if rm == 0 {
                        proof {
                            lemma_splice_out_concat_left(lt, rt, index as int, delete_len as int);
                        }
                        let joined = Rope::balance_join(lb, right);
                        (Some(Box::new(joined)), 0)
                    } else {
                        proof {
                            assert(rem_l == lt.len() - index);
                            assert(nt_l =~= lt.take(index as int));
                            assert(index >= 1);
                        }
                        let (opt2, rm2) = (*right)._remove(0, rm);
                        let ghost rem_r = removed_of(rt.len() as int, 0, rm as int);
                        let ghost rem = removed_of(
                            orig@.text().len() as int,
                            index as int,
                            delete_len as int,
                        );
                        proof {
                            assert(rem == rem_l + rem_r);
                            lemma_splice_out_concat_span(lt, rt, index as int, rem);
                            assert(splice_out(rt, 0, rem_r) =~= rt.skip(rem_r));
                        }
                        match opt2 {
                            Some(rb) => {
                                proof {
                                    rb.lemma_hfield_le_count();
                                    assert(splice_out(orig@.text(), index as int, rem) =~= nt_l
                                        + rt.skip(rem_r));
                                }
                                let joined = Rope::balance_join(lb, rb);
                                (Some(Box::new(joined)), rm2)
                            },
                            None => {
                                proof {
                                    assert(rt.skip(rem_r).len() == 0);
                                    assert(splice_out(orig@.text(), index as int, rem) =~= nt_l);
                                }
                                (Some(lb), rm2)
                            },
                        }
                    }
                },
                None => {
                    proof {
                        assert(nt_l.len() == 0);
                        assert(index == 0 && rem_l == lt.len());
                    }
                    if rm == 0 {
                        proof {
                            let rem = removed_of(
                                orig@.text().len() as int,
                                index as int,
                                delete_len as int,
                            );
                            assert(rem == delete_len);
                            lemma_splice_out_concat_span(lt, rt, 0, delete_len as int);
                            assert(splice_out(orig@.text(), 0, rem) =~= rt);
                        }
                        (Some(right), 0)
                    } else {
                        let (opt2, rm2) = (*right)._remove(0, rm);
                        let ghost rem_r = removed_of(rt.len() as int, 0, rm as int);
                        let ghost rem = removed_of(
                            orig@.text().len() as int,
                            index as int,
                            delete_len as int,
                        );
                        proof {
                            assert(rem == rem_l + rem_r);
                            lemma_splice_out_concat_span(lt, rt, 0, rem);
                            assert(splice_out(rt, 0, rem_r) =~= rt.skip(rem_r));
                            assert(splice_out(orig@.text(), 0, rem) =~= rt.skip(rem_r));
                        }
                        (opt2, rm2)
                    }
                },
            }
        } else {
            let (opt, rm2) = (*right)._remove(index - weight, delete_len);
            let ghost rem = removed_of(orig@.text().len() as int, index as int, delete_len as int);
            proof {
                assert(rem == removed_of(rt.len() as int, index - weight, delete_len as int));
                lemma_splice_out_concat_right(lt, rt, index as int, rem);
            }
            match opt {
                Some(rb) => {
                    proof {
                        rb.lemma_hfield_le_count();
                    }
                    let joined = Rope::balance_join(left, rb);
                    (Some(Box::new(joined)), rm2)
                },
                None => {
                    proof {
                        assert(splice_out(rt, index - weight, rem).len() == 0);
                        assert(splice_out(orig@.text(), index as int, rem) =~= lt);
                    }
                    (Some(left), rm2)
                },
            }
        }
    }

    /// Removes `len` characters starting at `index`.  The cached weights,
    /// line counts and heights stay exact, and the tree is rebalanced, so
    /// the balance bound holds after every removal.  Removing nothing
    /// returns the rope unchanged.
    pub fn remove(self, index: usize, len: usize) -> (r: Self)
        requires
            self.well_formed(),
            self.heights_exact(),
            self.balanced(),
            index + len <= self.text().len(),
        ensures
            r.well_formed(),
            r.heights_exact(),
            r.balanced(),
            r.text() == splice_out(self.text(), index as int, len as int),
            len == 0 ==> r == self,
    {
        let ghost t0 = self.text();
        if len == 0 {
            proof {
                assert(splice_out(t0, index as int, 0) =~= t0);
            }
            return self;
        }
        let (result, _) = self._remove(index, len);
        match result {
            Some(b) => *b,
            None => {
                proof {
                    assert(splice_out(t0, index as int, len as int).len() == 0);
                    assert(splice_out(t0, index as int, len as int) =~= Seq::<char>::empty());
                }
                Rope::new()
            },
        }
    }
}

impl Rope {
    /// Inserts `insert_text` at character position `index`, chunking it
    /// so that no single leaf insertion exceeds the chunk cap.  The
    /// balance bound and the exact cached heights are preserved.
    pub fn insert(self, index: usize, insert_text: &str) -> (r: Self)
        requires
            self.well_formed(),
            self.heights_exact(),
            self.balanced(),
            index <= self.text().len(),
            self.text().len() + insert_text@.len() <= usize::MAX,
        ensures
            r.well_formed(),
            r.heights_exact(),
            r.balanced(),
            r.text() == splice_in(self.text(), index as int, insert_text@),
    {
        let chars = str_to_chars(insert_text);
        let total = chars.len();
        let mut rope = self;
        let mut j: usize = 0;
        proof {
            assert(splice_in(self.text(), index as int, chars@.take(0)) =~= self.text());
        }
        while j < total
            invariant
                rope.well_formed(),
                total == chars@.len(),
                chars@ == insert_text@,
                j <= total,
                index <= self.text().len(),
                self.text().len() + total <= usize::MAX,
                rope.text().len() == self.text().len() + j,
                rope.text() == splice_in(self.text(), index as int, chars@.take(j as int)),
                self.heights_exact() && self.balanced() ==> rope.heights_exact()
                    && rope.balanced(),
            decreases total - j,
        {
            let end = if total - j >= MAX_NODE_INSERT_SIZE {
                j + MAX_NODE_INSERT_SIZE
            } else {
                total
            };
            let chunk = subvec(&chars, j, end);
            let lines = count_newlines(&chunk);
            let ghost before = rope.text();
            proof {
                assert(chunk@ =~= chars@.subrange(j as int, end as int));
            }
            rope = rope._insert(index + j, &chunk, end - j, lines);
            proof {
                lemma_splice_in_chain(self.text(), index as int, chars@.take(j as int), chunk@);
                assert(chars@.take(j as int) + chunk@ =~= chars@.take(end as int));
            }
            j = end;
        }
        proof {
            assert(chars@.take(total as int) =~= chars@);
        }
        rope
    }

    /// Character index at which line `target_line` starts: zero for the
    /// first line, and otherwise the position immediately after the
    /// newline that ends the previous line.
    pub fn line_start_index(&self, target_line: usize) -> (r: usize)
        requires
            self.well_formed(),
            target_line <= nl_count(self.text()),
        ensures
            r == if target_line == 0 {
                0int
            } else {
                after_newline(self.text(), target_line - 1)
            },
    {
        if target_line == 0 {
            0
        } else {
            self._line_start_index(target_line - 1)
        }
    }

    /// Position immediately after the `target_line`-th (zero-based)
    /// newline, found by descending on the cached line counters.
    fn _line_start_index(&self, target_line: usize) -> (r: usize)
        requires
            self.well_formed(),
            target_line < nl_count(self.text()),
        ensures
            r == after_newline(self.text(), target_line as int),
        decreases self,
    {
        match self {
            Rope::Branch { line, left, right, weight, .. } => {
                proof {
                    lemma_nl_count_concat(left.text(), right.text());
                    lemma_after_newline_concat(left.text(), right.text(), target_line as int);
                    right.lemma_height_le_count();
                }
                if target_line < *line {
                    left._line_start_index(target_line)
                } else {
                    proof {
                        lemma_after_newline_bounds(right.text(), target_line - *line);
                    }
                    *weight + right._line_start_index(target_line - *line)
                }
            },
            Rope::Leaf(text) => {
                let mut i: usize = 0;
                let mut c: usize = 0;
                let tl = text.len();
                let ghost t = text@;
                proof {
                    assert(t.take(0) =~= Seq::<char>::empty());
                }
                loop
                    invariant
                        self.well_formed(),
                        self == Rope::Leaf(*text),
                        t == text@,
                        tl == t.len(),
                        target_line < nl_count(t),
                        0 <= i <= tl,
                        c == nl_count(t.take(i as int)),
                        c <= target_line,
                    decreases t.len() - i,
                {
                    proof {
                        if i as int == t.len() {
                            lemma_nl_count_take_full(t);
                            assert(false);
                        }
                        lemma_nl_count_take_step(t, i as int);
                    }
                    if text[i] == '\n' {
                        if c == target_line {
                            proof {
                                crate::charseq::lemma_after_newline_at(t, i as int);
                            }
                            return i + 1;
                        }
                        c = c + 1;
                    }
                    i = i + 1;
                }
            },
        }
    }
}

impl Rope {
    /// Appends this rope's characters, in order, to `out`.
    fn append_chars(&self, out: &mut Vec<char>)
        ensures
            final(out)@ == old(out)@ + self.text(),
        decreases self,
    {
        match self {
            Rope::Branch { left, right, .. } => {
                left.append_chars(out);
                right.append_chars(out);
                proof {
                    assert((old(out)@ + left.text()) + right.text() =~= old(out)@ + (left.text()
                        + right.text()));
                }
            },
            Rope::Leaf(t) => {
                extend_vec(out, t);
            },
        }
    }

    /// A fresh forward iterator over this rope's characters.
    pub fn chars(&self) -> (it: RopeIterator)
        ensures
            it.chars@ == self.text(),
            it.pos == 0,
    {
        RopeIterator::new(self)
    }

    /// A fresh forward iterator over this rope's lines.
    pub fn lines(&self) -> (it: RopeLineIterator)
        ensures
            it.lines.deep_view() == lines_of(self.text()),
            it.pos == 0,
    {
        RopeLineIterator::new(self)
    }
}

/// Forward character iterator over a rope, detached from the tree: it
/// holds the flattened text and a cursor into it.
pub struct RopeIterator {
    pub chars: Vec<char>,
    pub pos: usize,
}

impl RopeIterator {
    fn new(root: &Rope) -> (it: Self)
        ensures
            it.chars@ == root.text(),
            it.pos == 0,
    {
        let mut v: Vec<char> = Vec::new();
        root.append_chars(&mut v);
        proof {
            assert(Seq::<char>::empty() + root.text() =~= root.text());
        }
        RopeIterator { chars: v, pos: 0 }
    }

    /// The next character, or `None` once the text is exhausted.
    pub fn next(&mut self) -> (r: Option<char>)
        ensures
            final(self).chars == old(self).chars,
            old(self).pos < old(self).chars@.len() ==> {
                &&& r == Some(old(self).chars@[old(self).pos as int])
                &&& final(self).pos == old(self).pos + 1
            },
            old(self).pos >= old(self).chars@.len() ==> {
                &&& r is None
                &&& final(self).pos == old(self).pos
            },
    {
        if self.pos < self.chars.len() {
            let c = self.chars[self.pos];
            self.pos = self.pos + 1;
            Some(c)
        } else {
            None
        }
    }
}

/// Forward line iterator over a rope: it holds the text already split
/// into lines (terminators stripped, a carriage return right after a
/// newline consumed with it) and a cursor.
pub struct RopeLineIterator {
    pub lines: Vec<Vec<char>>,
    pub pos: usize,
}

impl RopeLineIterator {
    fn new(root: &Rope) -> (it: Self)
        ensures
            it.lines.deep_view() == lines_of(root.text()),
            it.pos == 0,
    {
        let mut v: Vec<char> = Vec::new();
        root.append_chars(&mut v);
        proof {
            assert(Seq::<char>::empty() + root.text() =~= root.text());
        }
        let ghost all = v@;
        let n = v.len();
        let mut start: usize = 0;
        let mut lines: Vec<Vec<char>> = Vec::new();
        let mut done = false;
        proof {
            assert(lines.deep_view() =~= Seq::<Seq<char>>::empty());
            assert(all.skip(0) =~= all);
            assert(lines.deep_view() + lines_of(all.skip(0)) =~= lines_of(all));
        }
        while !done
            invariant
                n == all.len(),
                v@ == all,
                0 <= start <= n,
                !done ==> lines.deep_view() + lines_of(all.skip(start as int)) == lines_of(all),
                done ==> lines.deep_view() == lines_of(all),
            decreases n - start + (if done {
                0int
            } else {
                1int
            }),
        {
            let ghost dv0 = lines.deep_view();
            let ghost rem = all.skip(start as int);
            let mut j: usize = start;
            let mut found = false;
            while j < n && !found
                invariant
                    n == all.len(),
                    v@ == all,
                    start <= j <= n,
                    !found ==> forall|k: int| start <= k < j ==> all[k] != '\n',
                    found ==> j < n && all[j as int] == '\n' && (forall|k: int|
                        start <= k < j ==> all[k] != '\n'),
                decreases n - j + (if found {
                    0int
                } else {
                    1int
                }),
            {
                if v[j] == '\n' {
                    found = true;
                } else {
                    j = j + 1;
                }
            }
            proof {
                assert(forall|k: int| 0 <= k < rem.len() ==> rem[k] == all[start + k]);
            }
            if found {
                proof {
                    assert(rem[j - start] == '\n');
                    lemma_first_nl_found(rem, j - start);
                }
                let line = subvec(&v, start, j);
                proof {
                    assert(line@ =~= rem.take(j - start));
                }
                lines.push(line);
                let next_start = if j + 1 < n && v[j + 1] == '\r' {
                    j + 2
                } else {
                    j + 1
                };
                proof {
                    assert(all.skip(next_start as int) =~= rem.skip(next_start - start));
                    assert(lines.deep_view() =~~= dv0.push(rem.take(j - start)));
                    assert(lines_of(rem) == seq![rem.take(j - start)] + lines_of(
                        rem.skip(next_start - start),
                    ));
                    assert(dv0.push(rem.take(j - start)) =~= dv0 + seq![rem.take(j - start)]);
                    assert((dv0 + seq![rem.take(j - start)]) + lines_of(
                        rem.skip(next_start - start),
                    ) =~= dv0 + (seq![rem.take(j - start)] + lines_of(
                        rem.skip(next_start - start),
                    )));
                }
                start = next_start;
            } else {
                proof {
                    lemma_first_nl_none(rem);
                    assert(lines_of(rem) == seq![rem]);
                }
                let last = subvec(&v, start, n);
                proof {
                    assert(last@ =~= rem);
                }
                lines.push(last);
                done = true;
                proof {
                    assert(lines.deep_view() =~~= dv0.push(rem));
                    assert(dv0.push(rem) =~= dv0 + seq![rem]);
                }
            }
        }
        RopeLineIterator { lines, pos: 0 }
    }

    /// The next line, or `None` once every line has been produced.
    pub fn next(&mut self) -> (r: Option<String>)
        ensures
            final(self).lines == old(self).lines,
            old(self).pos < old(self).lines@.len() ==> {
                &&& final(self).pos == old(self).pos + 1
                &&& r matches Some(x) && x@ == old(self).lines.deep_view()[old(self).pos as int]
            },
            old(self).pos >= old(self).lines@.len() ==> {
                &&& r is None
                &&& final(self).pos == old(self).pos
            },
    {
        if self.pos < self.lines.len() {
            let s = chars_to_string(&self.lines[self.pos]);
            self.pos = self.pos + 1;
            Some(s)
        } else {
            None
        }
    }

    /// Skips `n` lines and returns the one after them, as an iterator's
    /// `nth` does: it consumes `n + 1` lines.
    pub fn nth(&mut self, n: usize) -> (r: Option<String>)
        ensures
            final(self).lines == old(self).lines,
            old(self).pos + n < old(self).lines@.len() ==> {
                &&& final(self).pos == old(self).pos + n + 1
                &&& r matches Some(x) && x@ == old(self).lines.deep_view()[old(self).pos + n]
            },
            old(self).pos + n >= old(self).lines@.len() ==> {
                &&& r is None
                &&& final(self).pos == old(self).lines@.len()
            },
    {
        if self.pos < self.lines.len() && n < self.lines.len() - self.pos {
            let at = self.pos + n;
            let s = chars_to_string(&self.lines[at]);
            self.pos = at + 1;
            Some(s)
        } else {
            self.pos = self.lines.len();
            None
        }
    }
}

} // verus!
