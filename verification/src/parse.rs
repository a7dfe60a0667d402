//! Parsing of console command lines.
//!
//! A command line starts with `:`; the rest is split on single spaces
//! into words.  The first word selects the command: `q` quits, `j` jumps
//! to a one-based line (and optionally column), `w` writes to a path,
//! `o` opens a path, `r` runs a program with arguments.  Anything else,
//! malformed numbers, missing arguments or trailing words yield the
//! error command.

use vstd::prelude::*;

use crate::charseq::chars_to_string;
use crate::charseq::str_to_chars;
use crate::charseq::subvec;
use crate::command::Command;

verus! {

/// Index of the first space in `s`, or `-1` when there is none.
pub open spec fn first_space(s: Seq<char>) -> int
    decreases s.len(),
{
    if s.len() == 0 {
        -1
    } else if s[0] == ' ' {
        0
    } else {
        if first_space(s.skip(1)) < 0 {
            -1
        } else {
            first_space(s.skip(1)) + 1
        }
    }
}

proof fn lemma_first_space_bounds(s: Seq<char>)
    ensures
        first_space(s) >= 0 ==> first_space(s) < s.len() && s[first_space(s)] == ' ',
        first_space(s) >= -1,
    decreases s.len(),
{
    if s.len() == 0 {
    } else if s[0] == ' ' {
    } else {
        lemma_first_space_bounds(s.skip(1));
    }
}

proof fn lemma_first_space_found(s: Seq<char>, k: int)
    requires
        0 <= k < s.len(),
        s[k] == ' ',
        forall|j: int| 0 <= j < k ==> s[j] != ' ',
    ensures
        first_space(s) == k,
    decreases k,
{
    if k > 0 {
        let s1 = s.skip(1);
        assert(s1[k - 1] == ' ');
        assert(forall|j: int| 0 <= j < k - 1 ==> s1[j] == s[j + 1] && s[j + 1] != ' ');
        lemma_first_space_found(s1, k - 1);
    }
}

proof fn lemma_first_space_none(s: Seq<char>)
    requires
        forall|j: int| 0 <= j < s.len() ==> s[j] != ' ',
    ensures
        first_space(s) < 0,
    decreases s.len(),
{
    if s.len() > 0 {
        let s1 = s.skip(1);
        assert(forall|j: int| 0 <= j < s1.len() ==> s1[j] == s[j + 1] && s[j + 1] != ' ');
        lemma_first_space_none(s1);
    }
}

/// The words of `s`, split on single spaces; consecutive, leading and
/// trailing separators produce empty words, and there is always at least
/// one word.
pub open spec fn words_of(s: Seq<char>) -> Seq<Seq<char>>
    decreases s.len(),
    via words_of_dec
{
    let i = first_space(s);
    if i < 0 {
        seq![s]
    } else {
        seq![s.take(i)] + words_of(s.skip(i + 1))
    }
}

#[via_fn]
proof fn words_of_dec(s: Seq<char>) {
    lemma_first_space_bounds(s);
}

pub proof fn lemma_words_of_len(s: Seq<char>)
    ensures
        words_of(s).len() >= 1,
    decreases s.len(),
{
    let i = first_space(s);
    if i >= 0 {
        lemma_first_space_bounds(s);
        lemma_words_of_len(s.skip(i + 1));
    }
}

/// Position of the first space in `v`, or `None` when there is none.
fn find_first_space(v: &Vec<char>) -> (r: Option<usize>)
    ensures
        (match r {
            Some(j) => j == first_space(v@),
            None => first_space(v@) < 0,
        }),
{
    let mut i: usize = 0;
    while i < v.len()
        invariant
            0 <= i <= v@.len(),
            forall|j: int| 0 <= j < i ==> v@[j] != ' ',
        decreases v@.len() - i,
    {
        if v[i] == ' ' {
            proof {
                lemma_first_space_found(v@, i as int);
            }
            return Some(i);
        }
        i = i + 1;
    }
    proof {
        lemma_first_space_none(v@);
    }
    None
}

/// Splits `v` into its words.
fn split_words(v: &Vec<char>) -> (r: Vec<Vec<char>>)
    ensures
        r.deep_view() == words_of(v@),
        r@.len() >= 1,
{
    let ghost all = v@;
    let mut rem = subvec(v, 0, v.len());
    let mut words: Vec<Vec<char>> = Vec::new();
    let mut done = false;
    proof {
        assert(rem@ =~= all);
        assert(words.deep_view() =~= Seq::<Seq<char>>::empty());
        assert(words.deep_view() + words_of(rem@) =~= words_of(all));
    }
    while !done
        invariant
            !done ==> words.deep_view() + words_of(rem@) == words_of(all),
            done ==> words.deep_view() == words_of(all),
            done ==> words@.len() >= 1,
        decreases rem@.len() + (if done {
            0int
        } else {
            1int
        }),
    {
        let ghost dv0 = words.deep_view();
        let ghost rem0 = rem@;
        let rl = rem.len();
        let sep = find_first_space(&rem);
        match sep {
            Some(j) => {
                proof {
                    lemma_first_space_bounds(rem@);
                }
                let word = subvec(&rem, 0, j);
                proof {
                    assert(word@ =~= rem@.take(j as int));
                }
                words.push(word);
                rem = subvec(&rem, j + 1, rl);
                proof {
                    assert(rem@ =~= rem0.skip(j + 1));
                    assert(words.deep_view() =~~= dv0.push(rem0.take(j as int)));
                    assert(words_of(rem0) == seq![rem0.take(j as int)] + words_of(
                        rem0.skip(j + 1),
                    ));
                    assert(dv0.push(rem0.take(j as int)) =~= dv0 + seq![rem0.take(j as int)]);
                    assert((dv0 + seq![rem0.take(j as int)]) + words_of(rem0.skip(j + 1)) =~= dv0
                        + (seq![rem0.take(j as int)] + words_of(rem0.skip(j + 1))));
                }
            },
            None => {
                proof {
                    assert(words_of(rem0) == seq![rem0]);
                }
                words.push(rem);
                done = true;
                proof {
                    assert(words.deep_view() =~~= dv0.push(rem0));
                    assert(dv0.push(rem0) =~= dv0 + seq![rem0]);
                    assert(words.deep_view().len() >= 1);
                }
                rem = Vec::new();
            },
        }
    }
    proof {
        assert(words@.len() == words.deep_view().len());
    }
    words
}

/// Whether `c` is a decimal digit.
pub open spec fn is_dec_digit(c: char) -> bool {
    '0' <= c && c <= '9'
}

/// Value of a sequence of decimal digits, most significant first.
pub open spec fn dec_val(s: Seq<char>) -> int
    decreases s.len(),
{
    if s.len() == 0 {
        0
    } else {
        dec_val(s.drop_last()) * 10 + (s.last() as int - '0' as int)
    }
}

/// The digits of a number word: everything after an optional leading
/// plus sign.
pub open spec fn num_body(s: Seq<char>) -> Seq<char> {
    if s.len() > 0 && s[0] == '+' {
        s.skip(1)
    } else {
        s
    }
}

/// Whether `s` is a decimal `u32`: an optional leading plus sign, then
/// at least one digit, nothing else, with a value that fits.
pub open spec fn is_u32_str(s: Seq<char>) -> bool {
    &&& num_body(s).len() >= 1
    &&& (forall|j: int| 0 <= j < num_body(s).len() ==> is_dec_digit(#[trigger] num_body(s)[j]))
    &&& dec_val(num_body(s)) <= u32::MAX
}

/// The value of a decimal `u32` word.
pub open spec fn u32_of_str(s: Seq<char>) -> int {
    dec_val(num_body(s))
}

proof fn lemma_dec_val_nonneg(s: Seq<char>)
    requires
        forall|j: int| 0 <= j < s.len() ==> is_dec_digit(#[trigger] s[j]),
    ensures
        dec_val(s) >= 0,
    decreases s.len(),
{
    if s.len() > 0 {
        assert(forall|j: int| 0 <= j < s.len() - 1 ==> s.drop_last()[j] == s[j]);
        lemma_dec_val_nonneg(s.drop_last());
    }
}

proof fn lemma_dec_val_prefix(s: Seq<char>, i: int)
    requires
        0 <= i < s.len(),
    ensures
        dec_val(s.take(i + 1)) == dec_val(s.take(i)) * 10 + (s[i] as int - '0' as int),
{
    assert(s.take(i + 1).drop_last() =~= s.take(i));
    assert(s.take(i + 1).last() == s[i]);
}

/// A longer digit string never has a smaller value.
proof fn lemma_dec_val_monotone(s: Seq<char>, i: int)
    requires
        0 <= i <= s.len(),
        forall|j: int| 0 <= j < s.len() ==> is_dec_digit(#[trigger] s[j]),
    ensures
        dec_val(s) >= dec_val(s.take(i)),
    decreases s.len() - i,
{
    if i == s.len() {
        assert(s.take(i) =~= s);
    } else {
        lemma_dec_val_prefix(s, i);
        assert(forall|j: int| 0 <= j < i ==> s.take(i)[j] == s[j]);
        lemma_dec_val_nonneg(s.take(i));
        lemma_dec_val_monotone(s, i + 1);
    }
}

/// Parses one word as a decimal `u32`, exactly as the standard decimal
/// grammar for unsigned integers has it.
fn parse_u32_word(w: &Vec<char>) -> (r: Result<u32, ()>)
    ensures
        is_u32_str(w@) ==> r == Ok::<u32, ()>(u32_of_str(w@) as u32),
        !is_u32_str(w@) ==> r is Err,
{
    let wl = w.len();
    let from: usize = if wl > 0 && w[0] == '+' {
        1
    } else {
        0
    };
    let ghost body = num_body(w@);
    proof {
        assert(body =~= w@.subrange(from as int, wl as int));
    }
    if wl == from {
        return Err(());
    }
    let mut acc: u32 = 0;
    let mut i: usize = from;
    proof {
        assert(body.take(0) =~= Seq::<char>::empty());
    }
    while i < wl
        invariant
            from <= i <= wl,
            wl == w@.len(),
            wl > from,
            body == num_body(w@),
            body =~= w@.subrange(from as int, wl as int),
            acc == dec_val(body.take(i - from)),
            forall|j: int| 0 <= j < i - from ==> is_dec_digit(#[trigger] body[j]),
        decreases wl - i,
    {
        let c = w[i];
        if !(c >= '0' && c <= '9') {
            proof {
                assert(body[i - from] == c);
                assert(!is_dec_digit(body[i - from]));
            }
            return Err(());
        }
        let d = (c as u32) - ('0' as u32);
        proof {
            lemma_dec_val_prefix(body, i - from);
        }
        if acc > (u32::MAX - d) / 10 {
            proof {
                assert(dec_val(body.take(i - from + 1)) > u32::MAX);
                if is_u32_str(w@) {
                    lemma_dec_val_monotone(body, i - from + 1);
                    assert(false);
                }
            }
            return Err(());
        }
        acc = acc * 10 + d;
        i = i + 1;
    }
    proof {
        assert(body.take(wl - from) =~= body);
    }
    Ok(acc)
}

/// Parses the word at `at` as a number.  A missing word is no number but
/// no error either; a malformed word is an error.
fn parse_num_arg(words: &Vec<Vec<char>>, at: usize) -> (r: Result<Option<u32>, ()>)
    ensures
        at >= words.deep_view().len() ==> r == Ok::<Option<u32>, ()>(None),
        at < words.deep_view().len() ==> {
            &&& is_u32_str(words.deep_view()[at as int]) ==> r == Ok::<Option<u32>, ()>(
                Some(u32_of_str(words.deep_view()[at as int]) as u32),
            )
            &&& !is_u32_str(words.deep_view()[at as int]) ==> r is Err
        },
{
    proof {
        assert(words.deep_view().len() == words@.len());
    }
    if at >= words.len() {
        return Ok(None);
    }
    proof {
        assert(words.deep_view()[at as int] == words@[at as int]@);
    }
    match parse_u32_word(&words[at]) {
        Ok(n) => Ok(Some(n)),
        Err(()) => Err(()),
    }
}

/// The error command unless no word at or after `from` remains.
fn check_rem(words: &Vec<Vec<char>>, from: usize, cmd: Command) -> (r: Command)
    ensures
        from >= words.deep_view().len() ==> r == cmd,
        from < words.deep_view().len() ==> r == Command::ERROR,
{
    proof {
        assert(words.deep_view().len() == words@.len());
    }
    if from < words.len() {
        Command::ERROR
    } else {
        cmd
    }
}

/// What a jump command's arguments mean: a one-based line number,
/// optionally followed by a one-based column number, and nothing more.
/// `None` stands for the error command.
pub open spec fn jump_of_words(w: Seq<Seq<char>>) -> Option<(u32, u32)> {
    if w.len() < 2 {
        None
    } else if !is_u32_str(w[1]) {
        None
    } else if u32_of_str(w[1]) == 0 {
        None
    } else if w.len() == 2 {
        Some((0u32, (u32_of_str(w[1]) - 1) as u32))
    } else if !is_u32_str(w[2]) {
        None
    } else if u32_of_str(w[2]) == 0 {
        None
    } else if w.len() > 3 {
        None
    } else {
        Some(((u32_of_str(w[2]) - 1) as u32, (u32_of_str(w[1]) - 1) as u32))
    }
}

/// How an editor command line maps to a command, given its words.
pub open spec fn parses_to(s: Seq<char>, r: Command) -> bool {
    let w = words_of(s);
    &&& (w[0] == seq!['q'] ==> r == Command::QUIT)
    &&& (w[0] == seq!['j'] ==> (match jump_of_words(w) {
        Some((x, y)) => r == Command::JUMP(x, y),
        None => r == Command::ERROR,
    }))
    &&& (w[0] == seq!['w'] ==> {
        if w.len() == 2 {
            r matches Command::WRITE(p) && p@ == w[1]
        } else {
            r == Command::ERROR
        }
    })
    &&& (w[0] == seq!['o'] ==> {
        if w.len() == 2 {
            r matches Command::OPEN(p) && p@ == w[1]
        } else {
            r == Command::ERROR
        }
    })
    &&& (w[0] == seq!['r'] ==> {
        if w.len() >= 2 {
            r matches Command::RUN(prog, args) && prog@ == w[1] && args.deep_view() == w.skip(2)
        } else {
            r == Command::ERROR
        }
    })
    &&& (w[0] != seq!['q'] && w[0] != seq!['j'] && w[0] != seq!['w'] && w[0] != seq!['o'] && w[0]
        != seq!['r'] ==> r == Command::ERROR)
}

fn parse_jump_cmd(words: &Vec<Vec<char>>) -> (r: Command)
    requires
        words.deep_view().len() >= 1,
    ensures
        (match jump_of_words(words.deep_view()) {
            Some((x, y)) => r == Command::JUMP(x, y),
            None => r == Command::ERROR,
        }),
{
    proof {
        if 1 < words.deep_view().len() && is_u32_str(words.deep_view()[1]) {
            lemma_dec_val_nonneg(num_body(words.deep_view()[1]));
        }
        if 2 < words.deep_view().len() && is_u32_str(words.deep_view()[2]) {
            lemma_dec_val_nonneg(num_body(words.deep_view()[2]));
        }
    }
    let line_num = match parse_num_arg(words, 1) {
        Ok(Some(n)) => n,
        _ => {
            return Command::ERROR;
        },
    };
    if line_num == 0 {
        return Command::ERROR;
    }
    let line_num_min_one = line_num - 1;
    let cmd = match parse_num_arg(words, 2) {
        Ok(Some(column_num)) => {
            if column_num >= 1 {
                Command::JUMP(column_num - 1, line_num_min_one)
            } else {
                Command::ERROR
            }
        },
        Ok(None) => Command::JUMP(0, line_num_min_one),
        Err(_) => {
            return Command::ERROR;
        },
    };
    check_rem(words, 3, cmd)
}

fn parse_write_cmd(words: &Vec<Vec<char>>) -> (r: Command)
    ensures
        words.deep_view().len() == 2 ==> (r matches Command::WRITE(p) && p@ == words.deep_view()[1]),
        words.deep_view().len() != 2 ==> r == Command::ERROR,
{
    proof {
        assert(words.deep_view().len() == words@.len());
    }
    if words.len() < 2 {
        return Command::ERROR;
    }
    proof {
        assert(words.deep_view()[1] == words@[1]@);
    }
    let file_path = chars_to_string(&words[1]);
    let cmd = Command::WRITE(file_path);
    check_rem(words, 2, cmd)
}

fn parse_open_cmd(words: &Vec<Vec<char>>) -> (r: Command)
    ensures
        words.deep_view().len() == 2 ==> (r matches Command::OPEN(p) && p@ == words.deep_view()[1]),
        words.deep_view().len() != 2 ==> r == Command::ERROR,
{
    proof {
        assert(words.deep_view().len() == words@.len());
    }
    if words.len() < 2 {
        return Command::ERROR;
    }
    proof {
        assert(words.deep_view()[1] == words@[1]@);
    }
    let file_path = chars_to_string(&words[1]);
    let cmd = Command::OPEN(file_path);
    check_rem(words, 2, cmd)
}

fn parse_run_cmd(words: &Vec<Vec<char>>) -> (r: Command)
    ensures
        words.deep_view().len() >= 2 ==> (r matches Command::RUN(prog, args) && prog@
            == words.deep_view()[1] && args.deep_view() == words.deep_view().skip(2)),
        words.deep_view().len() < 2 ==> r == Command::ERROR,
{
    proof {
        assert(words.deep_view().len() == words@.len());
    }
    if words.len() < 2 {
        return Command::ERROR;
    }
    proof {
        assert(words.deep_view()[1] == words@[1]@);
    }
    let program = chars_to_string(&words[1]);
    let mut args: Vec<String> = Vec::new();
    let mut i: usize = 2;
    proof {
        assert(args.deep_view() =~= words.deep_view().subrange(2, 2));
    }
    while i < words.len()
        invariant
            2 <= i <= words@.len(),
            words.deep_view().len() == words@.len(),
            args.deep_view() == words.deep_view().subrange(2, i as int),
        decreases words@.len() - i,
    {
        let ghost dv0 = args.deep_view();
        let a = chars_to_string(&words[i]);
        let ghost av = a@;
        args.push(a);
        proof {
            assert(words.deep_view()[i as int] == words@[i as int]@);
            assert(args.deep_view() =~~= dv0.push(av));
            assert(dv0.push(av) =~~= words.deep_view().subrange(2, i + 1));
        }
        i = i + 1;
    }
    proof {
        assert(words.deep_view().subrange(2, words.deep_view().len() as int)
            =~= words.deep_view().skip(2));
    }
    Command::RUN(program, args)
}

/// Parses the part of a command line after the leading colon.
pub fn parse_editor_cmd(cmd_str: &str) -> (r: Command)
    ensures
        parses_to(cmd_str@, r),
{
    let v = str_to_chars(cmd_str);
    let words = split_words(&v);
    proof {
        lemma_words_of_len(cmd_str@);
        assert(words.deep_view()[0] == words@[0]@);
    }
    let first = &words[0];
    if first.len() != 1 {
        proof {
            assert(words.deep_view()[0] != seq!['q']);
            assert(words.deep_view()[0] != seq!['j']);
            assert(words.deep_view()[0] != seq!['w']);
            assert(words.deep_view()[0] != seq!['o']);
            assert(words.deep_view()[0] != seq!['r']);
        }
        return Command::ERROR;
    }
    let c = first[0];
    proof {
        assert(words.deep_view()[0] =~= seq![c]);
    }
    if c == 'q' {
        Command::QUIT
    } else if c == 'j' {
        parse_jump_cmd(&words)
    } else if c == 'w' {
        parse_write_cmd(&words)
    } else if c == 'o' {
        parse_open_cmd(&words)
    } else if c == 'r' {
        parse_run_cmd(&words)
    } else {
        Command::ERROR
    }
}

/// Parses a full command line: a leading colon followed by an editor
/// command; anything else is the error command.
pub fn parse(cmd_str: String) -> (r: Command)
    ensures
        cmd_str@.len() >= 1 && cmd_str@[0] == ':' ==> parses_to(cmd_str@.skip(1), r),
        !(cmd_str@.len() >= 1 && cmd_str@[0] == ':') ==> r == Command::ERROR,
{
    let v = str_to_chars(cmd_str.as_str());
    if v.len() >= 1 {
        let c0 = v[0];
        if c0 == ':' {
            let rest = subvec(&v, 1, v.len());
            proof {
                assert(rest@ =~= cmd_str@.skip(1));
            }
            let rest_str = chars_to_string(&rest);
            return parse_editor_cmd(rest_str.as_str());
        }
    }
    Command::ERROR
}

} // verus!
