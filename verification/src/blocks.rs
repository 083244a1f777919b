//! Block strings, and the texts on which the parser can be called.
//!
//! The parser removes the common indentation of the lines of a block string
//! (`"""`): it measures the indentation in bytes and cuts each line there.
//! Where a line is indented with white space beyond ASCII the cut can fall
//! inside a character, and the parser does not return. This module reads a
//! query text as the parser's tokenizer does, far enough to find its block
//! strings, and tells for each whether every cut falls between characters.
//! Everything is stated over the bytes of the text.
use vstd::prelude::*;
use vstd::string::StrSliceExecFns;
use vstd::utf8::encode_utf8;

verus! {

/// Whether three bytes are a white-space character of three bytes: U+1680,
/// U+2000 to U+200A, U+2028, U+2029, U+202F, U+205F or U+3000.
pub open spec fn wide_space_3(a: u8, b: u8, c: u8) -> bool {
    ||| a == 0xe1 && b == 0x9a && c == 0x80
    ||| a == 0xe2 && b == 0x80 && (0x80 <= c <= 0x8a || c == 0xa8 || c == 0xa9 || c == 0xaf)
    ||| a == 0xe2 && b == 0x81 && c == 0x9f
    ||| a == 0xe3 && b == 0x80 && c == 0x80
}

/// The number of bytes of the white-space character that starts at `p` and
/// ends by `e`, or 0 where none does. U+0085 and U+00A0 take two bytes.
pub open spec fn space_width(b: Seq<u8>, p: int, e: int) -> int {
    if p < 0 || p >= e || e > b.len() {
        0
    } else if 9 <= b[p] <= 13 || b[p] == 32 {
        1
    } else if p + 1 < e && b[p] == 0xc2 && (b[p + 1] == 0x85 || b[p + 1] == 0xa0) {
        2
    } else if p + 2 < e && wide_space_3(b[p], b[p + 1], b[p + 2]) {
        3
    } else {
        0
    }
}

/// Where the line that starts at `p` ends: at the first line feed from `p`
/// on, or at `e`.
pub open spec fn line_end(b: Seq<u8>, p: int, e: int) -> int
    decreases e - p,
{
    if p < 0 || p >= e || e > b.len() {
        e
    } else if b[p] == 10 {
        p
    } else {
        line_end(b, p + 1, e)
    }
}

/// Where the white space ends that starts at `p`.
pub open spec fn indent_end(b: Seq<u8>, p: int, e: int) -> int
    decreases e - p,
{
    let w = space_width(b, p, e);
    if w > 0 {
        indent_end(b, p + w, e)
    } else {
        p
    }
}

/// Whether `cut` falls inside one of the white-space characters that start
/// at `p`.
pub open spec fn cut_inside(b: Seq<u8>, p: int, e: int, cut: int) -> bool
    decreases e - p,
{
    let w = space_width(b, p, e);
    if w == 0 || cut <= p {
        false
    } else if cut < p + w {
        true
    } else {
        cut_inside(b, p + w, e, cut)
    }
}

/// The least indentation, in bytes, of the lines from `p` on that hold more
/// than white space, the first line of the block left out; `least` where
/// there is none. A negative number stands for no indentation at all.
pub open spec fn least_indent(b: Seq<u8>, p: int, e: int, first: bool, least: int) -> int
    decreases e - p,
{
    if p < 0 || p > e || e > b.len() {
        least
    } else {
        let end = line_end(b, p, e);
        let text = indent_end(b, p, end);
        let next = if !first && text < end && (least < 0 || text - p < least) {
            text - p
        } else {
            least
        };
        if p <= end && end < e {
            least_indent(b, end + 1, e, false, next)
        } else {
            next
        }
    }
}

/// The start of the first line from `p` on that holds more than white space,
/// or a negative number.
pub open spec fn first_text_line(b: Seq<u8>, p: int, e: int) -> int
    decreases e - p,
{
    if p < 0 || p > e || e > b.len() {
        -1
    } else {
        let end = line_end(b, p, e);
        if indent_end(b, p, end) < end {
            p
        } else if p <= end && end < e {
            first_text_line(b, end + 1, e)
        } else {
            -1
        }
    }
}

/// The start of the last line from `p` on that holds more than white space,
/// or `last`.
pub open spec fn last_text_line(b: Seq<u8>, p: int, e: int, last: int) -> int
    decreases e - p,
{
    if p < 0 || p > e || e > b.len() {
        last
    } else {
        let end = line_end(b, p, e);
        let next = if indent_end(b, p, end) < end {
            p
        } else {
            last
        };
        if p <= end && end < e {
            last_text_line(b, end + 1, e, next)
        } else {
            next
        }
    }
}

/// Whether the parser's cut fails on a line from `p` on. A line is cut where
/// it is not the first of the block, lies between the first and the last
/// line that hold more than white space, and is at least `indent` bytes long;
/// it is cut `indent` bytes after its start.
pub open spec fn cut_fails(
    b: Seq<u8>,
    p: int,
    e: int,
    start: int,
    indent: int,
    first: int,
    last: int,
) -> bool
    decreases e - p,
{
    if p < 0 || p > e || e > b.len() {
        false
    } else {
        let end = line_end(b, p, e);
        let here = p != start && first <= p <= last && end - p >= indent && cut_inside(
            b,
            p,
            end,
            p + indent,
        );
        here || (p <= end && end < e && cut_fails(b, end + 1, e, start, indent, first, last))
    }
}

/// Whether the parser unquotes the block string whose content is the bytes
/// from `s` to `e`: every cut it makes falls between characters.
pub open spec fn block_safe(b: Seq<u8>, s: int, e: int) -> bool {
    let first = first_text_line(b, s, e);
    let indent = least_indent(b, s, e, true, -1);
    first < 0 || indent < 0 || !cut_fails(b, s, e, s, indent, first, last_text_line(b, s, e, -1))
}

/// Where the comment ends that holds `p`: at the first line feed or carriage
/// return from `p` on, or at the end of the text.
pub open spec fn comment_end(b: Seq<u8>, p: int) -> int
    decreases b.len() - p,
{
    if p < 0 || p >= b.len() {
        b.len() as int
    } else if b[p] == 10 || b[p] == 13 {
        p
    } else {
        comment_end(b, p + 1)
    }
}

/// The place of the quote that closes the string whose content goes on at
/// `p`, or a negative number where the line or the text ends first. A quote
/// after a backslash that is not itself escaped does not close it.
pub open spec fn string_end(b: Seq<u8>, p: int, escaped: bool) -> int
    decreases b.len() - p,
{
    if p < 0 || p >= b.len() {
        -1
    } else if b[p] == 0x22 && !escaped {
        p
    } else if b[p] == 10 {
        -1
    } else {
        string_end(b, p + 1, !escaped && b[p] == 0x5c)
    }
}

/// The place of the three quotes that close the block string whose content
/// starts at `from`, looked for from `p` on, or a negative number where there
/// are none. Three quotes right after a backslash do not close it and are
/// passed over as a whole.
pub open spec fn block_end(b: Seq<u8>, p: int, from: int) -> int
    decreases b.len() - p,
{
    if p < 0 || p + 3 > b.len() {
        -1
    } else if b[p] == 0x22 && b[p + 1] == 0x22 && b[p + 2] == 0x22 {
        if p > from && b[p - 1] == 0x5c {
            block_end(b, p + 3, from)
        } else {
            p
        }
    } else {
        block_end(b, p + 1, from)
    }
}

/// Whether every block string from `p` on is one that the parser unquotes.
/// The text is read as the tokenizer reads it: a `#` starts a comment up to
/// the end of the line, a quote starts a string or, with two more, a block
/// string, and anything else is passed over. Where the tokenizer gives up
/// (a string or block string that is not closed) nothing after it is read.
pub open spec fn blocks_safe(b: Seq<u8>, p: int) -> bool
    decreases b.len() - p,
{
    if p < 0 || p >= b.len() {
        true
    } else if b[p] == 0x23 {
        let end = comment_end(b, p + 1);
        if end <= p || end > b.len() {
            true
        } else {
            blocks_safe(b, end)
        }
    } else if b[p] == 0x22 {
        if p + 2 < b.len() && b[p + 1] == 0x22 && b[p + 2] == 0x22 {
            let end = block_end(b, p + 3, p + 3);
            if end < p + 3 || end + 3 > b.len() {
                true
            } else {
                block_safe(b, p + 3, end) && blocks_safe(b, end + 3)
            }
        } else {
            let end = string_end(b, p + 1, false);
            if end <= p || end >= b.len() {
                true
            } else {
                blocks_safe(b, end + 1)
            }
        }
    } else {
        blocks_safe(b, p + 1)
    }
}

/// Whether the parser can be called on a text: it unquotes every block
/// string of it. A text without a block string is such a text, and so is one
/// whose block strings are indented with ASCII white space alone.
pub open spec fn parses_safely(text: Seq<char>) -> bool {
    blocks_safe(encode_utf8(text), 0)
}

/// An optional place as a number, negative for none.
pub open spec fn place(p: Option<usize>) -> int {
    match p {
        Some(p) => p as int,
        None => -1,
    }
}

fn is_wide_space_3(a: u8, b: u8, c: u8) -> (r: bool)
    ensures
        r == wide_space_3(a, b, c),
{
    (a == 0xe1 && b == 0x9a && c == 0x80) || (a == 0xe2 && b == 0x80 && ((0x80 <= c && c <= 0x8a)
        || c == 0xa8 || c == 0xa9 || c == 0xaf)) || (a == 0xe2 && b == 0x81 && c == 0x9f) || (a
        == 0xe3 && b == 0x80 && c == 0x80)
}

fn width_at(b: &Vec<u8>, p: usize, e: usize) -> (w: usize)
    requires
        e <= b.len(),
    ensures
        w == space_width(b@, p as int, e as int),
        w > 0 ==> p + w <= e,
{
    if p >= e {
        return 0;
    }
    let c = b[p];
    if (9 <= c && c <= 13) || c == 32 {
        1
    } else if e - p > 1 && c == 0xc2 && (b[p + 1] == 0x85 || b[p + 1] == 0xa0) {
        2
    } else if e - p > 2 && is_wide_space_3(c, b[p + 1], b[p + 2]) {
        3
    } else {
        0
    }
}

fn find_line_end(b: &Vec<u8>, p: usize, e: usize) -> (end: usize)
    requires
        p <= e <= b.len(),
    ensures
        end == line_end(b@, p as int, e as int),
        p <= end <= e,
{
    let mut q = p;
    while q < e && b[q] != 10
        invariant
            p <= q <= e <= b.len(),
            line_end(b@, p as int, e as int) == line_end(b@, q as int, e as int),
        decreases e - q,
    {
        q = q + 1;
    }
    q
}

fn find_indent_end(b: &Vec<u8>, p: usize, e: usize) -> (end: usize)
    requires
        p <= e <= b.len(),
    ensures
        end == indent_end(b@, p as int, e as int),
        p <= end <= e,
{
    let mut q = p;
    loop
        invariant
            p <= q <= e <= b.len(),
            indent_end(b@, p as int, e as int) == indent_end(b@, q as int, e as int),
        ensures
            q == indent_end(b@, p as int, e as int),
        decreases e - q,
    {
        let w = width_at(b, q, e);
        if w == 0 {
            break ;
        }
        q = q + w;
    }
    q
}

fn is_cut_inside(b: &Vec<u8>, p: usize, e: usize, cut: usize) -> (inside: bool)
    requires
        p <= e <= b.len(),
    ensures
        inside == cut_inside(b@, p as int, e as int, cut as int),
{
    let mut q = p;
    loop
        invariant
            p <= q <= e <= b.len(),
            cut_inside(b@, p as int, e as int, cut as int) == cut_inside(
                b@,
                q as int,
                e as int,
                cut as int,
            ),
        decreases e - q,
    {
        let w = width_at(b, q, e);
        if w == 0 || cut <= q {
            return false;
        }
        if cut - q < w {
            return true;
        }
        q = q + w;
    }
}

/// The least indentation of a block and the first and the last of its lines
/// that hold more than white space.
fn measure(b: &Vec<u8>, s: usize, e: usize) -> (r: (Option<usize>, Option<usize>, Option<usize>))
    requires
        s <= e <= b.len(),
    ensures
        place(r.0) == least_indent(b@, s as int, e as int, true, -1),
        place(r.1) == first_text_line(b@, s as int, e as int),
        place(r.2) == last_text_line(b@, s as int, e as int, -1),
{
    let mut least: Option<usize> = None;
    let mut first: Option<usize> = None;
    let mut last: Option<usize> = None;
    let mut p = s;
    let mut head = true;
    let mut done = false;
    while !done
        invariant
            s <= p <= e <= b.len(),
            !done ==> least_indent(b@, s as int, e as int, true, -1) == least_indent(
                b@,
                p as int,
                e as int,
                head,
                place(least),
            ),
            done ==> least_indent(b@, s as int, e as int, true, -1) == place(least),
            !done ==> last_text_line(b@, s as int, e as int, -1) == last_text_line(
                b@,
                p as int,
                e as int,
                place(last),
            ),
            done ==> last_text_line(b@, s as int, e as int, -1) == place(last),
            first is Some ==> first_text_line(b@, s as int, e as int) == place(first),
            first is None && !done ==> first_text_line(b@, s as int, e as int) == first_text_line(
                b@,
                p as int,
                e as int,
            ),
            first is None && done ==> first_text_line(b@, s as int, e as int) == -1,
        decreases e - p + (if done { 0int } else { 1int }),
    {
        let end = find_line_end(b, p, e);
        let text = find_indent_end(b, p, end);
        if text < end {
            if first.is_none() {
                first = Some(p);
            }
            last = Some(p);
            if !head {
                let width = text - p;
                least = match least {
                    Some(l) => if width < l {
                        Some(width)
                    } else {
                        Some(l)
                    },
                    None => Some(width),
                };
            }
        }
        if end < e {
            p = end + 1;
            head = false;
        } else {
            done = true;
        }
    }
    (least, first, last)
}

fn any_cut_fails(b: &Vec<u8>, s: usize, e: usize, indent: usize, first: usize, last: usize) -> (r:
    bool)
    requires
        s <= e <= b.len(),
    ensures
        r == cut_fails(
            b@,
            s as int,
            e as int,
            s as int,
            indent as int,
            first as int,
            last as int,
        ),
{
    let mut p = s;
    loop
        invariant
            s <= p <= e <= b.len(),
            cut_fails(b@, s as int, e as int, s as int, indent as int, first as int, last as int)
                == cut_fails(
                b@,
                p as int,
                e as int,
                s as int,
                indent as int,
                first as int,
                last as int,
            ),
        decreases e - p,
    {
        let end = find_line_end(b, p, e);
        if p != s && first <= p && p <= last && end - p >= indent && is_cut_inside(
            b,
            p,
            end,
            p + indent,
        ) {
            return true;
        }
        if end < e {
            p = end + 1;
        } else {
            return false;
        }
    }
}

fn is_block_safe(b: &Vec<u8>, s: usize, e: usize) -> (r: bool)
    requires
        s <= e <= b.len(),
    ensures
        r == block_safe(b@, s as int, e as int),
{
    let (least, first, last) = measure(b, s, e);
    match (least, first, last) {
        (Some(indent), Some(first), Some(last)) => !any_cut_fails(b, s, e, indent, first, last),
        (Some(indent), Some(first), None) => {
            proof {
                lemma_last_follows_first(b@, s as int, e as int, -1);
            }
            true
        },
        _ => true,
    }
}

/// Where a line holds more than white space, there is a last such line.
proof fn lemma_last_follows_first(b: Seq<u8>, p: int, e: int, last: int)
    requires
        first_text_line(b, p, e) >= 0 || last >= 0,
    ensures
        last_text_line(b, p, e, last) >= 0,
    decreases e - p,
{
    if !(p < 0 || p > e || e > b.len()) {
        let end = line_end(b, p, e);
        let next = if indent_end(b, p, end) < end {
            p
        } else {
            last
        };
        if p <= end && end < e {
            lemma_last_follows_first(b, end + 1, e, next);
        }
    }
}

fn find_comment_end(b: &Vec<u8>, p: usize) -> (end: usize)
    requires
        p <= b.len(),
    ensures
        end == comment_end(b@, p as int),
        p <= end <= b.len(),
{
    let mut q = p;
    while q < b.len() && b[q] != 10 && b[q] != 13
        invariant
            p <= q <= b.len(),
            comment_end(b@, p as int) == comment_end(b@, q as int),
        decreases b.len() - q,
    {
        q = q + 1;
    }
    q
}

fn find_string_end(b: &Vec<u8>, p: usize) -> (end: Option<usize>)
    requires
        p <= b.len(),
    ensures
        place(end) == string_end(b@, p as int, false),
        end matches Some(q) ==> p <= q < b.len(),
        end is None ==> string_end(b@, p as int, false) < 0,
{
    let mut q = p;
    let mut escaped = false;
    while q < b.len()
        invariant
            p <= q <= b.len(),
            string_end(b@, p as int, false) == string_end(b@, q as int, escaped),
        decreases b.len() - q,
    {
        let c = b[q];
        if c == 0x22 && !escaped {
            return Some(q);
        }
        if c == 10 {
            return None;
        }
        escaped = !escaped && c == 0x5c;
        q = q + 1;
    }
    None
}

fn find_block_end(b: &Vec<u8>, from: usize) -> (end: Option<usize>)
    requires
        from <= b.len(),
    ensures
        place(end) == block_end(b@, from as int, from as int),
        end matches Some(q) ==> from <= q && q + 3 <= b.len(),
        end is None ==> block_end(b@, from as int, from as int) < 0,
{
    let mut q = from;
    while b.len() - q >= 3
        invariant
            from <= q <= b.len(),
            block_end(b@, from as int, from as int) == block_end(b@, q as int, from as int),
        decreases b.len() - q,
    {
        if b[q] == 0x22 && b[q + 1] == 0x22 && b[q + 2] == 0x22 {
            if q > from && b[q - 1] == 0x5c {
                q = q + 3;
            } else {
                return Some(q);
            }
        } else {
            q = q + 1;
        }
    }
    None
}

/// Whether the parser can be called on a text.
pub fn is_parsed_safely(text: &str) -> (safe: bool)
    ensures
        safe == parses_safely(text@),
{
    let bytes = text.as_bytes_vec();
    let b = &bytes;
    let mut p: usize = 0;
    while p < b.len()
        invariant
            p <= b.len(),
            b@ == encode_utf8(text@),
            blocks_safe(b@, 0) == blocks_safe(b@, p as int),
        decreases b.len() - p,
    {
        let c = b[p];
        if c == 0x23 {
            p = find_comment_end(b, p + 1);
        } else if c == 0x22 {
            if b.len() - p > 2 && b[p + 1] == 0x22 && b[p + 2] == 0x22 {
                match find_block_end(b, p + 3) {
                    Some(end) => {
                        if !is_block_safe(b, p + 3, end) {
                            return false;
                        }
                        p = end + 3;
                    },
                    None => {
                        return true;
                    },
                }
            } else {
                match find_string_end(b, p + 1) {
                    Some(end) => {
                        p = end + 1;
                    },
                    None => {
                        return true;
                    },
                }
            }
        } else {
            p = p + 1;
        }
    }
    true
}

} // verus!
