//! Word-chunk scanning over a line of the buffer, used to select the
//! "chunk" (a run of identifier characters or a run of symbol
//! characters) around the cursor, and the translation of a cursor
//! position to a flat character index.

use vstd::prelude::*;

use crate::charseq::after_newline;
use crate::charseq::lines_of;
use crate::charseq::nl_count;
use crate::charseq::str_to_chars;
use crate::textrope::TextRope;
use crate::vector::Vector2D;

verus! {

/// Whether a character counts as alphanumeric, as the Unicode tables
/// have it.
pub uninterp spec fn alphanumeric(c: char) -> bool;

/// Relies on `char::is_alphanumeric`: the result depends on the
/// character alone.
#[verifier::external_body]
fn char_is_alphanumeric(c: char) -> (r: bool)
    ensures
        r == alphanumeric(c),
{
    c.is_alphanumeric()
}

/// Whether `c` belongs to an identifier: alphanumeric or an underscore.
pub open spec fn is_identifier_spec(c: char) -> bool {
    alphanumeric(c) || c == '_'
}

/// Whether `c` is a symbol: neither an identifier character nor a space.
pub open spec fn is_symbol_spec(c: char) -> bool {
    !is_identifier_spec(c) && c != ' '
}

pub fn is_identifier(c: char) -> (r: bool)
    ensures
        r == is_identifier_spec(c),
{
    char_is_alphanumeric(c) || c == '_'
}

pub fn is_symbol(c: char) -> (r: bool)
    ensures
        r == is_symbol_spec(c),
{
    !is_identifier(c) && c != ' '
}

/// The scan state after reading a prefix of a line: the start of the
/// identifier run in progress, the start of the symbol run in progress,
/// and the position of the last space when the prefix ends in spaces.
/// While spaces pass by, the run starts are kept so that a cursor after
/// trailing spaces still finds the run before them.
pub open spec fn chunk_scan(s: Seq<char>) -> (Option<int>, Option<int>, Option<int>)
    decreases s.len(),
{
    if s.len() == 0 {
        (None, None, None)
    } else {
        let (first_alpha, first_symbol, last_space) = chunk_scan(s.drop_last());
        let i = s.len() - 1;
        let c = s.last();
        if c == ' ' {
            (first_alpha, first_symbol, Some(i as int))
        } else if is_identifier_spec(c) {
            (
                if last_space is Some {
                    Some(i as int)
                } else if first_alpha is Some {
                    first_alpha
                } else {
                    Some(i as int)
                },
                None,
                None,
            )
        } else {
            (
                None,
                if last_space is Some {
                    Some(i as int)
                } else if first_symbol is Some {
                    first_symbol
                } else {
                    Some(i as int)
                },
                None,
            )
        }
    }
}

/// Where the chunk that ends at `start` begins: the start of the symbol
/// run if one is open, else the start of the identifier run, else the
/// start of the line.
pub open spec fn chunk_start(line: Seq<char>, start: int) -> int {
    let bound = if start <= line.len() {
        start
    } else {
        line.len() as int
    };
    let (first_alpha, first_symbol, _) = chunk_scan(line.take(bound));
    match first_symbol {
        Some(i) => i,
        None => match first_alpha {
            Some(i) => i,
            None => 0,
        },
    }
}

/// Start of the chunk that ends at `start_char` on line `line_num`,
/// scanning the first `start_char` characters of that line.  A cursor at
/// the start of the line reports `Err(0)` to signal that there is
/// nothing to the left.
pub fn find_start_of_chunk(line_num: u32, start_char: u32, text_data: &TextRope) -> (r: Result<
    u32,
    u32,
>)
    requires
        text_data.well_formed(),
        (line_num as int) < lines_of(text_data.text()).len(),
    ensures
        start_char == 0 ==> r == Err::<u32, u32>(0),
        start_char > 0 ==> r == Ok::<u32, u32>(
            chunk_start(
                lines_of(text_data.text())[line_num as int],
                start_char as int,
            ) as u32,
        ),
{
    if start_char == 0 {
        return Err(0);
    }
    let mut lines_iter = text_data.lines();
    let curr_line = match lines_iter.nth(line_num as usize) {
        Some(l) => l,
        None => {
            proof {
                assert(false);
            }
            return Err(0);
        },
    };
    let ghost line = lines_of(text_data.text())[line_num as int];
    let v = str_to_chars(curr_line.as_str());
    let n = v.len();
    let bound = if (start_char as usize) <= n {
        start_char as usize
    } else {
        n
    };
    let mut first_alpha: Option<usize> = None;
    let mut first_symbol: Option<usize> = None;
    let mut last_space: Option<usize> = None;
    let mut i: usize = 0;
    proof {
        assert(v@.take(0) =~= Seq::<char>::empty());
    }
    while i < bound
        invariant
            v@ == line,
            bound <= v@.len(),
            bound <= start_char,
            0 <= i <= bound,
            chunk_scan(v@.take(i as int)) == (
                match first_alpha {
                    Some(a) => Some(a as int),
                    None => None::<int>,
                },
                match first_symbol {
                    Some(a) => Some(a as int),
                    None => None::<int>,
                },
                match last_space {
                    Some(a) => Some(a as int),
                    None => None::<int>,
                },
            ),
            first_alpha matches Some(a) ==> a < bound,
            first_symbol matches Some(a) ==> a < bound,
        decreases bound - i,
    {
        let c = v[i];
        proof {
            assert(v@.take(i + 1).drop_last() =~= v@.take(i as int));
            assert(v@.take(i + 1).last() == v@[i as int]);
        }
        if c == ' ' {
            last_space = Some(i);
        } else if is_identifier(c) {
            first_alpha = match last_space {
                Some(_) => Some(i),
                None => match first_alpha {
                    Some(a) => Some(a),
                    None => Some(i),
                },
            };
            first_symbol = None;
            last_space = None;
        } else {
            first_alpha = None;
            first_symbol = match last_space {
                Some(_) => Some(i),
                None => match first_symbol {
                    Some(a) => Some(a),
                    None => Some(i),
                },
            };
            last_space = None;
        }
        i = i + 1;
    }
    match first_symbol {
        Some(i) => Ok(i as u32),
        None => match first_alpha {
            Some(i) => Ok(i as u32),
            None => Ok(0),
        },
    }
}

/// First position at or after `from` that is not a space, or `-1` when
/// spaces run to the end of the line.
pub open spec fn first_non_space(s: Seq<char>, from: int) -> int
    decreases s.len() - from,
{
    if from < 0 || from >= s.len() {
        -1
    } else if s[from] != ' ' {
        from
    } else {
        first_non_space(s, from + 1)
    }
}

/// Last position of the run of one character class that starts at
/// `from`: the largest `e` such that every character after `from` up to
/// and including `e` belongs to the class (identifier characters when
/// `ident`, symbol characters otherwise).
pub open spec fn run_end(s: Seq<char>, from: int, ident: bool) -> int
    decreases s.len() - from,
{
    if from + 1 < s.len() && (if ident {
        is_identifier_spec(s[from + 1])
    } else {
        is_symbol_spec(s[from + 1])
    }) {
        run_end(s, from + 1, ident)
    } else {
        from
    }
}

proof fn lemma_run_end_bounds(s: Seq<char>, from: int, ident: bool)
    requires
        0 <= from < s.len(),
    ensures
        from <= run_end(s, from, ident) < s.len(),
    decreases s.len() - from,
{
    if from + 1 < s.len() && (if ident {
        is_identifier_spec(s[from + 1])
    } else {
        is_symbol_spec(s[from + 1])
    }) {
        lemma_run_end_bounds(s, from + 1, ident);
    }
}

/// One past the end of the chunk at `start`: `None` when the cursor is
/// past the end of the line.  On a space the chunk is the run of the
/// first non-space character after it (or the spaces themselves when
/// none follows); otherwise it is the run of the character under the
/// cursor.
pub open spec fn chunk_end(line: Seq<char>, start: int) -> Option<int> {
    if start >= line.len() {
        None
    } else {
        let c = line[start];
        if c == ' ' {
            let m = first_non_space(line, start + 1);
            if m < 0 {
                Some(start)
            } else if is_identifier_spec(line[m]) {
                Some(run_end(line, m, true) + 1)
            } else {
                Some(run_end(line, m, false) + 1)
            }
        } else if is_identifier_spec(c) {
            Some(run_end(line, start, true) + 1)
        } else {
            Some(run_end(line, start, false) + 1)
        }
    }
}

/// Scans forward from `from` to the end of the run of one character
/// class.
fn scan_run(v: &Vec<char>, from: usize, ident: bool) -> (e: usize)
    requires
        from < v@.len(),
    ensures
        e == run_end(v@, from as int, ident),
        from <= e < v@.len(),
{
    let n = v.len();
    let mut e = from;
    let mut done = false;
    while !done
        invariant
            n == v@.len(),
            from <= e < n,
            run_end(v@, from as int, ident) == run_end(v@, e as int, ident),
            done ==> run_end(v@, e as int, ident) == e,
        decreases n - e + (if done {
            0int
        } else {
            1int
        }),
    {
        if e + 1 < n {
            let c = v[e + 1];
            let in_run = if ident {
                is_identifier(c)
            } else {
                is_symbol(c)
            };
            if in_run {
                e = e + 1;
            } else {
                done = true;
            }
        } else {
            done = true;
        }
    }
    e
}

/// End of the chunk at `start_char` on line `line_num`: one past its
/// last character, or `Err(start_char)` when the cursor is past the end
/// of the line.
pub fn find_end_of_chunk(line_num: u32, start_char: u32, text_data: &TextRope) -> (r: Result<
    u32,
    u32,
>)
    requires
        text_data.well_formed(),
        (line_num as int) < lines_of(text_data.text()).len(),
        lines_of(text_data.text())[line_num as int].len() < u32::MAX,
    ensures
        (match chunk_end(lines_of(text_data.text())[line_num as int], start_char as int) {
            Some(e) => r == Ok::<u32, u32>(e as u32),
            None => r == Err::<u32, u32>(start_char),
        }),
{
    let mut lines_iter = text_data.lines();
    let curr_line = match lines_iter.nth(line_num as usize) {
        Some(l) => l,
        None => {
            proof {
                assert(false);
            }
            return Err(start_char);
        },
    };
    let ghost line = lines_of(text_data.text())[line_num as int];
    let v = str_to_chars(curr_line.as_str());
    let n = v.len();
    let start = start_char as usize;
    if start >= n {
        return Err(start_char);
    }
    let target_char = v[start];
    let end_index: usize;
    if target_char == ' ' {
        let mut m: usize = start + 1;
        while m < n && v[m] == ' '
            invariant
                n == v@.len(),
                start + 1 <= m <= n,
                first_non_space(v@, start + 1) == first_non_space(v@, m as int),
            decreases n - m,
        {
            m = m + 1;
        }
        if m >= n {
            end_index = start;
        } else {
            proof {
                lemma_run_end_bounds(v@, m as int, is_identifier_spec(v@[m as int]));
            }
            if is_identifier(v[m]) {
                end_index = scan_run(&v, m, true) + 1;
            } else {
                end_index = scan_run(&v, m, false) + 1;
            }
            proof {
                assert(end_index <= n);
            }
            return Ok(end_index as u32);
        }
        Ok(end_index as u32)
    } else if is_identifier(target_char) {
        let e = scan_run(&v, start, true);
        Ok((e + 1) as u32)
    } else {
        let e = scan_run(&v, start, false);
        Ok((e + 1) as u32)
    }
}

/// Flat character index of the position `pos`: the start of line `pos.y`
/// plus `pos.x` columns.
pub fn calculate_index_from_pos(text: &TextRope, pos: Vector2D) -> (r: usize)
    requires
        text.well_formed(),
        pos.y as int <= nl_count(text.text()),
        text.text().len() + pos.x <= usize::MAX,
    ensures
        r == (if pos.y == 0 {
            0int
        } else {
            after_newline(text.text(), pos.y as int - 1)
        }) + pos.x,
{
    let line_index = text.get_line_index(pos.y as usize);
    proof {
        if pos.y > 0 {
            crate::charseq::lemma_after_newline_bounds(text.text(), pos.y as int - 1);
        }
    }
    line_index + (pos.x as usize)
}

} // verus!
