//! Breaking a run of text into lines that fit the window.

use crate::constants::{WINDOW_PADDING, WINDOW_WIDTH};
use crate::text::{
    chars_of, lemma_back_whitespace, lemma_skip_whitespace, skip_whitespace, string_of,
    string_of_range, trim, trimmed_tail,
};
use vstd::prelude::*;

verus! {

/// The width that a line may have before it is broken.
pub open spec fn line_limit() -> int {
    WINDOW_WIDTH + WINDOW_PADDING
}

/// The index of the last space among the first `i` characters of `line`, or
/// `-1` if there is none.
pub open spec fn last_space_before(line: Seq<char>, i: int) -> int
    decreases i,
{
    if i <= 0 {
        -1
    } else if line[i - 1] == ' ' {
        i - 1
    } else {
        last_space_before(line, i - 1)
    }
}

/// Where a line is broken that may hold `max_index` characters: at the last
/// space among them, or right after them if they hold no space.
pub open spec fn break_index(line: Seq<char>, max_index: int) -> int {
    let j = last_space_before(line, max_index);
    if j >= 0 {
        j
    } else {
        max_index
    }
}

/// The last space among the first `i` characters is a space, lies among them,
/// and no space follows it there.
pub proof fn lemma_last_space_before(line: Seq<char>, i: int)
    requires
        0 <= i <= line.len(),
    ensures
        -1 <= last_space_before(line, i) < i || (i == 0 && last_space_before(line, i) == -1),
        last_space_before(line, i) >= 0 ==> line[last_space_before(line, i)] == ' ',
        forall|k: int| last_space_before(line, i) < k < i ==> line[k] != ' ',
    decreases i,
{
    if i > 0 && line[i - 1] != ' ' {
        lemma_last_space_before(line, i - 1);
    }
}

/// The lines into which a text is broken when each character is `char_width`
/// wide.
///
/// A text that fits the limit is one line. A longer one is broken at the last
/// space among the characters that fit, or right after them where they hold no
/// space; what is behind the break is trimmed and broken in the same way.
pub open spec fn split_lines(line: Seq<char>, char_width: int) -> Seq<Seq<char>>
    decreases line.len(),
{
    if char_width > 0 && line.len() * char_width > line_limit() {
        let i = break_index(line, line_limit() / char_width);
        let rest = trim(line.subrange(i, line.len() as int));
        if rest.len() < line.len() {
            seq![line.subrange(0, i)] + split_lines(rest, char_width)
        } else {
            seq![line.subrange(0, i)]
        }
    } else {
        seq![line]
    }
}

/// Where a text is too long for one line, the break lies inside it, and what
/// is left behind the break is shorter than the text.
pub proof fn lemma_break_shortens(line: Seq<char>, char_width: int)
    requires
        0 < char_width <= line_limit(),
        line.len() * char_width > line_limit(),
    ensures
        0 <= break_index(line, line_limit() / char_width) <= line_limit() / char_width
            < line.len(),
        trim(
            line.subrange(break_index(line, line_limit() / char_width), line.len() as int),
        ).len() < line.len(),
{
    let m = line_limit() / char_width;
    assert(1 <= m && m * char_width <= line_limit()) by (nonlinear_arith)
        requires
            0 < char_width <= line_limit(),
            m == line_limit() / char_width,
    ;
    assert(m < line.len()) by (nonlinear_arith)
        requires
            m * char_width <= line_limit(),
            line.len() * char_width > line_limit(),
            0 < char_width,
    ;
    lemma_last_space_before(line, m);
    let i = break_index(line, m);
    let tail = line.subrange(i, line.len() as int);
    lemma_skip_whitespace(tail, 0);
    let a = skip_whitespace(tail, 0);
    lemma_back_whitespace(tail, a, tail.len() as int);
    if i == 0 {
        assert(tail[0] == ' ');
    }
}

/// A text is broken into at least one line and into at most one line more
/// than it has characters.
pub proof fn lemma_line_count(line: Seq<char>, char_width: int)
    ensures
        1 <= split_lines(line, char_width).len() <= line.len() + 1,
    decreases line.len(),
{
    if char_width > 0 && line.len() * char_width > line_limit() {
        let i = break_index(line, line_limit() / char_width);
        let rest = trim(line.subrange(i, line.len() as int));
        if rest.len() < line.len() {
            lemma_line_count(rest, char_width);
        }
    }
}

/// Whether a character separates the words of a text.
pub open spec fn is_blank(c: char) -> bool {
    c == ' ' || c == '\n'
}

/// The first index at or after `i` that holds a blank, if `blank` holds, or a
/// character that is none, if it does not; the length if there is no such
/// index.
pub open spec fn word_scan(s: Seq<char>, i: int, blank: bool) -> int
    decreases s.len() - i,
{
    if 0 <= i < s.len() && is_blank(s[i]) != blank {
        word_scan(s, i + 1, blank)
    } else {
        i
    }
}

/// The words of the text from `i` on, joined by single spaces. A word is a
/// longest run of characters that are neither space nor newline.
pub open spec fn collapse_from(s: Seq<char>, i: int) -> Seq<char>
    decreases s.len() - i,
{
    let start = word_scan(s, i, false);
    let end = word_scan(s, start, true);
    if 0 <= i <= start < end <= s.len() {
        let rest = collapse_from(s, end);
        if rest.len() == 0 {
            s.subrange(start, end)
        } else {
            s.subrange(start, end) + seq![' '] + rest
        }
    } else {
        Seq::empty()
    }
}

/// The text with every run of spaces and newlines inside it turned into one
/// space, and without those at its ends.
pub open spec fn collapse(s: Seq<char>) -> Seq<char> {
    collapse_from(s, 0)
}

pub proof fn lemma_word_scan(s: Seq<char>, i: int, blank: bool)
    requires
        0 <= i <= s.len(),
    ensures
        i <= word_scan(s, i, blank) <= s.len(),
        i < s.len() && is_blank(s[i]) != blank ==> i < word_scan(s, i, blank),
        word_scan(s, i, blank) < s.len() ==> is_blank(s[word_scan(s, i, blank)]) == blank,
    decreases s.len() - i,
{
    if i < s.len() && is_blank(s[i]) != blank {
        lemma_word_scan(s, i + 1, blank);
    }
}

/// Collapsing never makes a text longer.
pub proof fn lemma_collapse_length(s: Seq<char>, i: int)
    requires
        0 <= i <= s.len(),
    ensures
        collapse_from(s, i).len() <= s.len() - word_scan(s, i, false) <= s.len() - i,
    decreases s.len() - i,
{
    lemma_word_scan(s, i, false);
    let start = word_scan(s, i, false);
    lemma_word_scan(s, start, true);
    let end = word_scan(s, start, true);
    if start < end {
        lemma_collapse_length(s, end);
        lemma_word_scan(s, end, false);
    }
}

/// The index at which a line that may hold `max_index` characters is broken.
pub fn find_index_for_line_break(line: String, max_index: usize) -> (r: usize)
    requires
        max_index <= line@.len(),
    ensures
        r == break_index(line@, max_index as int),
{
    let chars = chars_of(line.as_str());
    break_index_of(&chars, max_index)
}

fn break_index_of(chars: &Vec<char>, max_index: usize) -> (r: usize)
    requires
        max_index <= chars.len(),
    ensures
        r == break_index(chars@, max_index as int),
        r <= max_index,
{
    let mut i: usize = max_index;
    while i > 0
        invariant
            i <= max_index <= chars.len(),
            last_space_before(chars@, max_index as int) == last_space_before(chars@, i as int),
        decreases i,
    {
        if chars[i - 1] == ' ' {
            return i - 1;
        }
        i -= 1;
    }
    max_index
}

pub open spec fn lines_model(lines: Seq<String>) -> Seq<Seq<char>> {
    lines.map_values(|l: String| l@)
}

/// Breaks a text into lines when each character is `char_width` wide.
pub fn split_text(line: String, char_width: i64) -> (r: Vec<String>)
    requires
        0 < char_width <= line_limit(),
    ensures
        lines_model(r@) == split_lines(line@, char_width as int),
{
    let mut result: Vec<String> = Vec::new();
    let mut rest = chars_of(line.as_str());
    let max_index: usize = ((WINDOW_WIDTH + WINDOW_PADDING) / char_width) as usize;
    assert(lines_model(result@) =~= Seq::empty());
    loop
        invariant
            0 < char_width <= line_limit(),
            max_index == line_limit() / (char_width as int),
            split_lines(line@, char_width as int) == lines_model(result@) + split_lines(
                rest@,
                char_width as int,
            ),
        decreases rest.len(),
    {
        let ghost so_far = lines_model(result@);
        if rest.len() > max_index {
            proof {
                lemma_too_long(rest@, char_width as int);
                lemma_break_shortens(rest@, char_width as int);
            }
            let i = break_index_of(&rest, max_index);
            result.push(string_of_range(&rest, 0, i));
            let tail = trimmed_tail(&rest, i);
            proof {
                assert(lines_model(result@) =~= so_far.push(rest@.subrange(0, i as int)));
                assert(so_far + (seq![rest@.subrange(0, i as int)] + split_lines(
                    tail@,
                    char_width as int,
                )) =~= so_far.push(rest@.subrange(0, i as int)) + split_lines(
                    tail@,
                    char_width as int,
                ));
            }
            rest = tail;
        } else {
            proof {
                lemma_fits(rest@, char_width as int);
            }
            result.push(string_of(&rest));
            proof {
                assert(lines_model(result@) =~= so_far + seq![rest@]);
            }
            return result;
        }
    }
}

/// A text is too long for one line exactly if it has more characters than
/// fit.
proof fn lemma_too_long(line: Seq<char>, char_width: int)
    requires
        0 < char_width <= line_limit(),
        line.len() > line_limit() / char_width,
    ensures
        line.len() * char_width > line_limit(),
{
    let m = line_limit() / char_width;
    assert(line.len() * char_width > line_limit()) by (nonlinear_arith)
        requires
            0 < char_width,
            line.len() >= m + 1,
            m == line_limit() / char_width,
    ;
}

proof fn lemma_fits(line: Seq<char>, char_width: int)
    requires
        0 < char_width <= line_limit(),
        line.len() <= line_limit() / char_width,
    ensures
        line.len() * char_width <= line_limit(),
{
    let m = line_limit() / char_width;
    assert(line.len() * char_width <= line_limit()) by (nonlinear_arith)
        requires
            0 < char_width,
            0 <= line.len() <= m,
            m == line_limit() / char_width,
    ;
}

/// Turns every run of spaces and newlines inside a text into one space and
/// drops those at its ends.
pub fn collapse_whitespace(text: &String) -> (r: String)
    ensures
        r@ == collapse(text@),
{
    let chars = chars_of(text.as_str());
    let mut out: Vec<char> = Vec::new();
    let mut p: usize = 0;
    let ghost s = chars@;
    loop
        invariant
            s == chars@,
            s == text@,
            p <= chars.len(),
            collapse(s) == joined(out@, collapse_from(s, p as int)),
        decreases chars.len() - p,
    {
        let mut start: usize = p;
        while start < chars.len() && (chars[start] == ' ' || chars[start] == '\n')
            invariant
                s == chars@,
                p <= start <= chars.len(),
                word_scan(s, p as int, false) == word_scan(s, start as int, false),
            decreases chars.len() - start,
        {
            start += 1;
        }
        let mut end: usize = start;
        while end < chars.len() && !(chars[end] == ' ' || chars[end] == '\n')
            invariant
                s == chars@,
                start <= end <= chars.len(),
                word_scan(s, start as int, true) == word_scan(s, end as int, true),
            decreases chars.len() - end,
        {
            end += 1;
        }
        if start < end {
            let ghost before = out@;
            if out.len() > 0 {
                out.push(' ');
            }
            let mut k: usize = start;
            while k < end
                invariant
                    s == chars@,
                    start <= k <= end <= chars.len(),
                    out@ == (if before.len() > 0 {
                        before.push(' ')
                    } else {
                        before
                    }) + s.subrange(start as int, k as int),
                decreases end - k,
            {
                out.push(chars[k]);
                k += 1;
            }
            proof {
                let word = s.subrange(start as int, end as int);
                let rest = collapse_from(s, end as int);
                if rest.len() == 0 {
                    assert(joined(out@, rest) =~= joined(before, word));
                } else {
                    assert(joined(out@, rest) =~= joined(before, word + seq![' '] + rest));
                }
            }
            p = end;
        } else {
            proof {
                assert(collapse_from(s, p as int) =~= Seq::<char>::empty());
            }
            let r = string_of(&out);
            return r;
        }
    }
}

/// Two texts with a single space between them, or the one of them that is not
/// empty.
pub open spec fn joined(a: Seq<char>, b: Seq<char>) -> Seq<char> {
    if a.len() == 0 {
        b
    } else if b.len() == 0 {
        a
    } else {
        a + seq![' '] + b
    }
}

} // verus!
