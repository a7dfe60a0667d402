//! Specification functions and helpers over character sequences.
//!
//! The rope and the text buffer state their contracts over flat
//! `Seq<char>` models; this module defines the newline counting, line
//! splitting and line addressing that those contracts use, together with
//! the small executable helpers on `Vec<char>` that the rope shares.

use vstd::prelude::*;
use vstd::std_specs::iter::IteratorSpec;

verus! {

/// Number of `'\n'` characters in `s`.
pub open spec fn nl_count(s: Seq<char>) -> nat
    decreases s.len(),
{
    if s.len() == 0 {
        0
    } else {
        (if s[0] == '\n' {
            1nat
        } else {
            0nat
        }) + nl_count(s.skip(1))
    }
}

pub proof fn lemma_nl_count_concat(a: Seq<char>, b: Seq<char>)
    ensures
        nl_count(a + b) == nl_count(a) + nl_count(b),
    decreases a.len(),
{
    if a.len() == 0 {
        assert(a + b =~= b);
    } else {
        assert((a + b).skip(1) =~= a.skip(1) + b);
        assert((a + b)[0] == a[0]);
        lemma_nl_count_concat(a.skip(1), b);
    }
}

/// A prefix of one more character adds that character's newline count.
pub proof fn lemma_nl_count_take_step(s: Seq<char>, i: int)
    requires
        0 <= i < s.len(),
    ensures
        nl_count(s.take(i + 1)) == nl_count(s.take(i)) + (if s[i] == '\n' {
            1nat
        } else {
            0nat
        }),
{
    assert(s.take(i + 1) =~= s.take(i) + seq![s[i]]);
    lemma_nl_count_concat(s.take(i), seq![s[i]]);
    assert(nl_count(seq![s[i]].skip(1)) == 0) by {
        assert(seq![s[i]].skip(1) =~= Seq::<char>::empty());
    }
}

pub proof fn lemma_nl_count_take_full(s: Seq<char>)
    ensures
        nl_count(s.take(s.len() as int)) == nl_count(s),
{
    assert(s.take(s.len() as int) =~= s);
}

/// Index of the first `'\n'` in `s`, or `-1` when there is none.
pub open spec fn first_nl(s: Seq<char>) -> int
    decreases s.len(),
{
    if s.len() == 0 {
        -1
    } else if s[0] == '\n' {
        0
    } else {
        if first_nl(s.skip(1)) < 0 {
            -1
        } else {
            first_nl(s.skip(1)) + 1
        }
    }
}

pub proof fn lemma_first_nl_bounds(s: Seq<char>)
    ensures
        first_nl(s) >= 0 ==> first_nl(s) < s.len() && s[first_nl(s)] == '\n',
        first_nl(s) >= 0 ==> forall|j: int| 0 <= j < first_nl(s) ==> s[j] != '\n',
        first_nl(s) < 0 ==> forall|j: int| 0 <= j < s.len() ==> s[j] != '\n',
        first_nl(s) >= -1,
    decreases s.len(),
{
    if s.len() == 0 {
    } else if s[0] == '\n' {
    } else {
        lemma_first_nl_bounds(s.skip(1));
        if first_nl(s) >= 0 {
            assert forall|j: int| 0 <= j < first_nl(s) implies s[j] != '\n' by {
                if j >= 1 {
                    assert(s[j] == s.skip(1)[j - 1]);
                }
            }
        } else {
            assert forall|j: int| 0 <= j < s.len() implies s[j] != '\n' by {
                if j >= 1 {
                    assert(s[j] == s.skip(1)[j - 1]);
                }
            }
        }
    }
}

/// The lines of `s`: terminated by `'\n'`, the terminator stripped, and a
/// `'\r'` immediately after the `'\n'` consumed as part of the terminator.
/// A text always has one more line than it has newlines; in particular the
/// empty text has a single empty line.
pub open spec fn lines_of(s: Seq<char>) -> Seq<Seq<char>>
    decreases s.len(),
    via lines_of_dec
{
    let i = first_nl(s);
    if i < 0 {
        seq![s]
    } else {
        let skip_len = if i + 1 < s.len() && s[i + 1] == '\r' {
            i + 2
        } else {
            i + 1
        };
        seq![s.take(i)] + lines_of(s.skip(skip_len))
    }
}

#[via_fn]
proof fn lines_of_dec(s: Seq<char>) {
    lemma_first_nl_bounds(s);
}

/// Index of the position immediately after the `n`-th (zero-based) `'\n'`
/// of `s`.  Meaningful only when `n < nl_count(s)`.
pub open spec fn after_newline(s: Seq<char>, n: int) -> int
    decreases s.len(),
{
    if s.len() == 0 {
        0
    } else if s[0] == '\n' {
        if n == 0 {
            1
        } else {
            1 + after_newline(s.skip(1), n - 1)
        }
    } else {
        1 + after_newline(s.skip(1), n)
    }
}

pub proof fn lemma_after_newline_bounds(s: Seq<char>, n: int)
    requires
        0 <= n < nl_count(s),
    ensures
        1 <= after_newline(s, n) <= s.len(),
        s[after_newline(s, n) - 1] == '\n',
    decreases s.len(),
{
    assert(s.len() > 0);
    if s[0] == '\n' {
        if n != 0 {
            lemma_after_newline_bounds(s.skip(1), n - 1);
        }
    } else {
        lemma_after_newline_bounds(s.skip(1), n);
    }
}

/// How `after_newline` distributes over a concatenation: a newline index
/// below the left part's newline count is resolved on the left, and
/// otherwise on the right, shifted by the left part's length.
pub proof fn lemma_after_newline_concat(a: Seq<char>, b: Seq<char>, n: int)
    requires
        0 <= n < nl_count(a + b),
    ensures
        n < nl_count(a) ==> after_newline(a + b, n) == after_newline(a, n),
        n >= nl_count(a) ==> after_newline(a + b, n) == a.len() + after_newline(
            b,
            n - nl_count(a),
        ),
    decreases a.len(),
{
    lemma_nl_count_concat(a, b);
    if a.len() == 0 {
        assert(a + b =~= b);
    } else {
        assert((a + b).skip(1) =~= a.skip(1) + b);
        assert((a + b)[0] == a[0]);
        if a[0] == '\n' {
            if n != 0 {
                lemma_after_newline_concat(a.skip(1), b, n - 1);
            }
        } else {
            lemma_after_newline_concat(a.skip(1), b, n);
        }
    }
}

/// Copies `v[from..to]` into a fresh vector.
pub fn subvec(v: &Vec<char>, from: usize, to: usize) -> (r: Vec<char>)
    requires
        from <= to <= v@.len(),
    ensures
        r@ == v@.subrange(from as int, to as int),
{
    let mut r: Vec<char> = Vec::new();
    let mut i: usize = from;
    while i < to
        invariant
            from <= i <= to <= v@.len(),
            r@ == v@.subrange(from as int, i as int),
        decreases to - i,
    {
        r.push(v[i]);
        proof {
            assert(v@.subrange(from as int, i + 1) =~= v@.subrange(from as int, i as int)
                + seq![v@[i as int]]);
        }
        i = i + 1;
    }
    r
}

/// Appends all of `b` to `a`.
pub fn extend_vec(a: &mut Vec<char>, b: &Vec<char>)
    ensures
        final(a)@ == old(a)@ + b@,
{
    let mut i: usize = 0;
    while i < b.len()
        invariant
            0 <= i <= b@.len(),
            a@ == old(a)@ + b@.take(i as int),
        decreases b@.len() - i,
    {
        a.push(b[i]);
        proof {
            assert(old(a)@ + b@.take(i + 1) =~= (old(a)@ + b@.take(i as int)) + seq![b@[i as int]]);
        }
        i = i + 1;
    }
    proof {
        assert(b@.take(b@.len() as int) =~= b@);
    }
}

/// Counts the newline characters in `v`.
pub fn count_newlines(v: &Vec<char>) -> (r: usize)
    ensures
        r == nl_count(v@),
{
    let mut r: usize = 0;
    let mut i: usize = 0;
    while i < v.len()
        invariant
            0 <= i <= v@.len(),
            r == nl_count(v@.take(i as int)),
            r <= i,
        decreases v@.len() - i,
    {
        if v[i] == '\n' {
            r = r + 1;
        }
        proof {
            lemma_nl_count_take_step(v@, i as int);
        }
        i = i + 1;
    }
    proof {
        lemma_nl_count_take_full(v@);
    }
    r
}

/// Collects the characters of `s` into a vector.
pub fn str_to_chars(s: &str) -> (r: Vec<char>)
    ensures
        r@ == s@,
{
    broadcast use vstd::string::axiom_spec_iter, vstd::string::next_postcondition;

    let mut it = s.chars();
    let ghost all = s@;
    let mut r: Vec<char> = Vec::new();
    let mut done = false;
    while !done
        invariant
            it.obeys_prophetic_iter_laws(),
            it.remaining() =~= all.skip(r@.len() as int),
            r@.len() <= all.len(),
            r@ == all.take(r@.len() as int),
            done ==> r@ == all,
        decreases all.len() - r@.len() + (if done { 0int } else { 1int }),
    {
        match it.next() {
            Some(c) => {
                proof {
                    assert(all.skip(r@.len() as int)[0] == all[r@.len() as int]);
                    assert(all.take(r@.len() as int + 1) =~= all.take(r@.len() as int) + seq![all[
                        r@.len() as int]]);
                    assert(all.skip(r@.len() as int).drop_first() =~= all.skip(
                        r@.len() as int + 1,
                    ));
                }
                r.push(c);
            },
            None => {
                proof {
                    assert(all.skip(r@.len() as int).len() == 0);
                    assert(r@ =~= all);
                }
                done = true;
            },
        }
    }
    r
}

/// Relies on `String::from_iter` over `core::str::Chars` via
/// `Iterator::collect`: building a string from characters yields exactly
/// those characters, in order.
#[verifier::external_body]
pub(crate) fn chars_to_string(v: &Vec<char>) -> (s: String)
    ensures
        s@ == v@,
{
    v.iter().collect()
}

/// `t` with `s` inserted at position `i`.
pub open spec fn splice_in(t: Seq<char>, i: int, s: Seq<char>) -> Seq<char> {
    t.take(i) + s + t.skip(i)
}

/// `t` with `l` characters removed starting at position `i`.
pub open spec fn splice_out(t: Seq<char>, i: int, l: int) -> Seq<char> {
    t.take(i) + t.skip(i + l)
}

pub proof fn lemma_nl_count_take_skip(t: Seq<char>, i: int)
    requires
        0 <= i <= t.len(),
    ensures
        nl_count(t.take(i)) + nl_count(t.skip(i)) == nl_count(t),
{
    assert(t.take(i) + t.skip(i) =~= t);
    lemma_nl_count_concat(t.take(i), t.skip(i));
}

pub proof fn lemma_nl_count_splice_in(t: Seq<char>, i: int, s: Seq<char>)
    requires
        0 <= i <= t.len(),
    ensures
        nl_count(splice_in(t, i, s)) == nl_count(t) + nl_count(s),
{
    lemma_nl_count_concat(t.take(i) + s, t.skip(i));
    lemma_nl_count_concat(t.take(i), s);
    lemma_nl_count_take_skip(t, i);
}

/// Newline characters never outnumber characters.
pub proof fn lemma_nl_count_le_len(s: Seq<char>)
    ensures
        nl_count(s) <= s.len(),
    decreases s.len(),
{
    if s.len() > 0 {
        lemma_nl_count_le_len(s.skip(1));
    }
}

/// Inserting two pieces one right after the other is one insertion of
/// their concatenation.
pub proof fn lemma_splice_in_chain(t: Seq<char>, i: int, a: Seq<char>, b: Seq<char>)
    requires
        0 <= i <= t.len(),
    ensures
        splice_in(splice_in(t, i, a), i + a.len(), b) == splice_in(t, i, a + b),
{
    assert(splice_in(t, i, a).take(i + a.len()) =~= t.take(i) + a);
    assert(splice_in(t, i, a).skip(i + a.len()) =~= t.skip(i));
    assert((t.take(i) + a) + b + t.skip(i) =~= t.take(i) + (a + b) + t.skip(i));
}

/// Removing exactly what was inserted restores the original text.
pub proof fn lemma_insert_remove_inverse(t: Seq<char>, i: int, s: Seq<char>)
    requires
        0 <= i <= t.len(),
    ensures
        splice_out(splice_in(t, i, s), i, s.len() as int) == t,
{
    assert(splice_in(t, i, s).take(i) =~= t.take(i));
    assert(splice_in(t, i, s).skip(i + s.len()) =~= t.skip(i));
    assert(t.take(i) + t.skip(i) =~= t);
}

/// Re-inserting exactly what was removed restores the original text.
pub proof fn lemma_remove_insert_inverse(t: Seq<char>, i: int, l: int)
    requires
        0 <= i,
        0 <= l,
        i + l <= t.len(),
    ensures
        splice_in(splice_out(t, i, l), i, t.subrange(i, i + l)) == t,
{
    assert(splice_out(t, i, l).take(i) =~= t.take(i));
    assert(splice_out(t, i, l).skip(i) =~= t.skip(i + l));
    assert(t.take(i) + t.subrange(i, i + l) + t.skip(i + l) =~= t);
}

pub proof fn lemma_splice_in_concat(a: Seq<char>, b: Seq<char>, i: int, s: Seq<char>)
    requires
        0 <= i <= a.len() + b.len(),
    ensures
        i <= a.len() ==> splice_in(a + b, i, s) == splice_in(a, i, s) + b,
        i >= a.len() ==> splice_in(a + b, i, s) == a + splice_in(b, i - a.len(), s),
{
    if i <= a.len() {
        assert((a + b).take(i) =~= a.take(i));
        assert((a + b).skip(i) =~= a.skip(i) + b);
        assert(a.take(i) + s + (a.skip(i) + b) =~= (a.take(i) + s + a.skip(i)) + b);
    }
    if i >= a.len() {
        assert((a + b).take(i) =~= a + b.take(i - a.len()));
        assert((a + b).skip(i) =~= b.skip(i - a.len()));
        assert((a + b.take(i - a.len())) + s + b.skip(i - a.len()) =~= a + (b.take(i - a.len()) + s
            + b.skip(i - a.len())));
    }
}

pub proof fn lemma_splice_out_concat_left(a: Seq<char>, b: Seq<char>, i: int, l: int)
    requires
        0 <= i,
        0 <= l,
        i + l <= a.len(),
    ensures
        splice_out(a + b, i, l) == splice_out(a, i, l) + b,
{
    assert((a + b).take(i) =~= a.take(i));
    assert((a + b).skip(i + l) =~= a.skip(i + l) + b);
    assert(a.take(i) + (a.skip(i + l) + b) =~= (a.take(i) + a.skip(i + l)) + b);
}

pub proof fn lemma_splice_out_concat_span(a: Seq<char>, b: Seq<char>, i: int, l: int)
    requires
        0 <= i <= a.len(),
        a.len() <= i + l <= a.len() + b.len(),
    ensures
        splice_out(a + b, i, l) == a.take(i) + b.skip(i + l - a.len()),
{
    assert((a + b).take(i) =~= a.take(i));
    assert((a + b).skip(i + l) =~= b.skip(i + l - a.len()));
}

pub proof fn lemma_splice_out_concat_right(a: Seq<char>, b: Seq<char>, i: int, l: int)
    requires
        a.len() <= i,
        0 <= l,
        i + l <= a.len() + b.len(),
    ensures
        splice_out(a + b, i, l) == a + splice_out(b, i - a.len(), l),
{
    assert((a + b).take(i) =~= a + b.take(i - a.len()));
    assert((a + b).skip(i + l) =~= b.skip(i - a.len() + l));
    assert((a + b.take(i - a.len())) + b.skip(i - a.len() + l) =~= a + (b.take(i - a.len())
        + b.skip(i - a.len() + l)));
}

/// A newline at position `i` is the `nl_count(s.take(i))`-th newline of
/// `s`, so the position after it is `i + 1`.
pub proof fn lemma_after_newline_at(s: Seq<char>, i: int)
    requires
        0 <= i < s.len(),
        s[i] == '\n',
    ensures
        after_newline(s, nl_count(s.take(i)) as int) == i + 1,
        nl_count(s.take(i)) < nl_count(s),
    decreases i,
{
    lemma_nl_count_take_step(s, i);
    lemma_nl_count_concat(s.take(i + 1), s.skip(i + 1));
    assert(s.take(i + 1) + s.skip(i + 1) =~= s);
    if i == 0 {
        assert(s.take(0) =~= Seq::<char>::empty());
    } else {
        let s1 = s.skip(1);
        assert(s1[i - 1] == '\n');
        lemma_after_newline_at(s1, i - 1);
        assert(s.take(i).skip(1) =~= s1.take(i - 1));
        assert(s.take(i)[0] == s[0]);
        if s[0] == '\n' {
            assert(nl_count(s.take(i)) == 1 + nl_count(s1.take(i - 1)));
        } else {
            assert(nl_count(s.take(i)) == nl_count(s1.take(i - 1)));
        }
    }
}

pub proof fn lemma_first_nl_found(s: Seq<char>, k: int)
    requires
        0 <= k < s.len(),
        s[k] == '\n',
        forall|j: int| 0 <= j < k ==> s[j] != '\n',
    ensures
        first_nl(s) == k,
    decreases k,
{
    if k == 0 {
    } else {
        let s1 = s.skip(1);
        assert(s1[k - 1] == '\n');
        assert(forall|j: int| 0 <= j < k - 1 ==> s1[j] == s[j + 1] && s[j + 1] != '\n');
        lemma_first_nl_found(s1, k - 1);
    }
}

pub proof fn lemma_first_nl_none(s: Seq<char>)
    requires
        forall|j: int| 0 <= j < s.len() ==> s[j] != '\n',
    ensures
        first_nl(s) < 0,
    decreases s.len(),
{
    if s.len() > 0 {
        let s1 = s.skip(1);
        assert(forall|j: int| 0 <= j < s1.len() ==> s1[j] == s[j + 1] && s[j + 1] != '\n');
        lemma_first_nl_none(s1);
    }
}

/// Position of the first newline in `v`, or `None` when there is none.
pub fn find_first_newline(v: &Vec<char>) -> (r: Option<usize>)
    ensures
        (match r {
            Some(j) => j == first_nl(v@),
            None => first_nl(v@) < 0,
        }),
{
    let mut i: usize = 0;
    while i < v.len()
        invariant
            0 <= i <= v@.len(),
            forall|j: int| 0 <= j < i ==> v@[j] != '\n',
        decreases v@.len() - i,
    {
        if v[i] == '\n' {
            proof {
                lemma_first_nl_found(v@, i as int);
            }
            return Some(i);
        }
        i = i + 1;
    }
    proof {
        lemma_first_nl_none(v@);
    }
    None
}

/// Two overlapping removals at the same spot collapse into one: removing
/// `b` characters at `j` and then `a` characters at `i`, where the second
/// removal's range reaches the first's position, removes `a + b`
/// characters at `i`.
pub proof fn lemma_splice_out_twice(t: Seq<char>, i: int, a: int, j: int, b: int)
    requires
        0 <= i <= j <= i + a,
        0 <= b,
        j + b <= t.len(),
        i + a + b <= t.len(),
    ensures
        splice_out(splice_out(t, j, b), i, a) == splice_out(t, i, a + b),
{
    let s1 = splice_out(t, j, b);
    assert(s1.take(i) =~= t.take(i));
    assert(s1.skip(i + a) =~= t.skip(i + a + b)) by {
        assert forall|p: int| 0 <= p < s1.len() - (i + a) implies #[trigger] s1.skip(i + a)[p]
            == t.skip(i + a + b)[p] by {
            assert(s1[i + a + p] == t[i + a + p + b]);
        }
    }
}

/// Inserting `b` at `i` and then `a` at the same `i` is one insertion of
/// `a + b` at `i`.
pub proof fn lemma_splice_in_same(t: Seq<char>, i: int, a: Seq<char>, b: Seq<char>)
    requires
        0 <= i <= t.len(),
    ensures
        splice_in(splice_in(t, i, b), i, a) == splice_in(t, i, a + b),
{
    assert(splice_in(t, i, b).take(i) =~= t.take(i));
    assert(splice_in(t, i, b).skip(i) =~= b + t.skip(i));
    assert(t.take(i) + a + (b + t.skip(i)) =~= t.take(i) + (a + b) + t.skip(i));
}

/// Relies on `String::push_str`: appends the second string's characters
/// to the first, in order.
#[verifier::external_body]
pub(crate) fn string_append(a: &mut String, b: &str)
    ensures
        final(a)@ == old(a)@ + b@,
{
    a.push_str(b)
}

} // verus!
