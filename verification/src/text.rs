//! Verified string building for the textual emitter: decimal rendering of
//! numbers, indentation, and annotation suffixes.

use vstd::prelude::*;
use vstd::string::StringExecFns;
use vstd::string::StringSliceAdditionalSpecFns;

verus! {

pub open spec fn spec_digit_char(d: nat) -> char {
    if d == 0 {
        '0'
    } else if d == 1 {
        '1'
    } else if d == 2 {
        '2'
    } else if d == 3 {
        '3'
    } else if d == 4 {
        '4'
    } else if d == 5 {
        '5'
    } else if d == 6 {
        '6'
    } else if d == 7 {
        '7'
    } else if d == 8 {
        '8'
    } else {
        '9'
    }
}

/// The decimal digits of `n`, most significant first.
pub open spec fn spec_u64_digits(n: nat) -> Seq<char>
    decreases n,
{
    if n < 10 {
        seq![spec_digit_char(n)]
    } else {
        spec_u64_digits(n / 10) + seq![spec_digit_char(n % 10)]
    }
}

fn digit_str(d: u64) -> (r: &'static str)
    requires
        d < 10,
    ensures
        r@ == seq![spec_digit_char(d as nat)],
{
    proof {
        reveal_strlit("0");
        reveal_strlit("1");
        reveal_strlit("2");
        reveal_strlit("3");
        reveal_strlit("4");
        reveal_strlit("5");
        reveal_strlit("6");
        reveal_strlit("7");
        reveal_strlit("8");
        reveal_strlit("9");
    }
    let r = match d {
        0 => "0",
        1 => "1",
        2 => "2",
        3 => "3",
        4 => "4",
        5 => "5",
        6 => "6",
        7 => "7",
        8 => "8",
        _ => "9",
    };
    proof {
        assert(r@ =~= seq![spec_digit_char(d as nat)]);
    }
    r
}

/// Renders `n` in decimal.
pub fn u64_to_string(n: u64) -> (r: String)
    ensures
        r@ == spec_u64_digits(n as nat),
    decreases n,
{
    if n < 10 {
        String::from_str(digit_str(n))
    } else {
        let mut s = u64_to_string(n / 10);
        s.append(digit_str(n % 10));
        s
    }
}

/// `level` levels of two-space indentation.
pub open spec fn spec_indent(level: nat) -> Seq<char>
    decreases level,
{
    if level == 0 {
        Seq::empty()
    } else {
        spec_indent((level - 1) as nat) + "  "@
    }
}

pub fn indent_string(level: usize) -> (r: String)
    ensures
        r@ == spec_indent(level as nat),
{
    let mut s = String::new();
    let mut i: usize = 0;
    while i < level
        invariant
            i <= level,
            s@ == spec_indent(i as nat),
        decreases level - i,
    {
        s.append("  ");
        i = i + 1;
    }
    s
}

/// A line's text followed by its annotation as a trailing comment, when the
/// explain flag keeps annotations; the bare text otherwise.
pub open spec fn spec_annotated(text: Seq<char>, ann: Option<Seq<char>>, explain: bool) -> Seq<
    char,
> {
    match ann {
        Some(a) => if explain {
            text + " ;; "@ + a
        } else {
            text
        },
        None => text,
    }
}

/// One fully rendered output line: indentation, text, annotation.
pub open spec fn spec_line(
    level: nat,
    text: Seq<char>,
    ann: Option<Seq<char>>,
    explain: bool,
) -> Seq<char> {
    spec_indent(level) + spec_annotated(text, ann, explain)
}

/// The byte length of a string: the length of its UTF-8 encoding, as
/// `str::len` reports it.
pub open spec fn spec_byte_len(s: String) -> int {
    vstd::utf8::encode_utf8(s@).len() as usize as int
}

/// The byte offset at which line `k` starts, counting one newline byte after
/// each line.
pub open spec fn spec_line_start(lines: Seq<String>, k: int) -> int
    decreases k,
{
    if k <= 0 {
        0
    } else {
        spec_line_start(lines, k - 1) + spec_byte_len(lines[k - 1]) + 1
    }
}

/// Finds the line containing byte `offset` of the source the lines were split
/// from; the last line when the offset lies past the end.
pub fn get_line_from_offset(lines: &Vec<String>, offset: usize) -> (r: usize)
    requires
        lines@.len() > 0,
    ensures
        r < lines@.len(),
        spec_line_start(lines@, r as int) <= offset,
        r + 1 < lines@.len() ==> offset < spec_line_start(lines@, r as int + 1),
{
    let mut k: usize = 0;
    let mut start: usize = 0;
    while k < lines.len() - 1
        invariant
            lines@.len() > 0,
            k < lines@.len(),
            start == spec_line_start(lines@, k as int),
            start <= offset,
        decreases lines@.len() - k,
    {
        let line_bytes = lines[k].as_str().len();
        proof {
            assert(line_bytes == spec_byte_len(lines@[k as int]));
        }
        if offset - start <= line_bytes {
            return k;
        }
        start = start + line_bytes + 1;
        k = k + 1;
    }
    k
}

/// How many occurrences of byte `b` the first `n` bytes hold.
pub open spec fn spec_byte_count(bytes: Seq<u8>, b: u8, n: int) -> int
    decreases n,
{
    if n <= 0 {
        0
    } else {
        spec_byte_count(bytes, b, n - 1) + (if bytes[n - 1] == b {
            1int
        } else {
            0
        })
    }
}

/// The number of closing parentheses in the line beyond its own opening ones:
/// how many trailing characters belong to enclosing forms rather than to the
/// line's own text.
pub fn count_parens(line: &str) -> (r: usize)
    ensures
        ({
            let bs = line.spec_bytes();
            let closers = spec_byte_count(bs, 41, bs.len() as int);
            let openers = spec_byte_count(bs, 40, bs.len() as int);
            r == if closers >= openers {
                closers - openers
            } else {
                0
            }
        }),
{
    let bs = line.as_bytes();
    let mut closers: usize = 0;
    let mut openers: usize = 0;
    let mut i: usize = 0;
    while i < bs.len()
        invariant
            i <= bs@.len(),
            bs@ == line.spec_bytes(),
            closers == spec_byte_count(bs@, 41, i as int),
            openers == spec_byte_count(bs@, 40, i as int),
            closers <= i,
            openers <= i,
        decreases bs@.len() - i,
    {
        if bs[i] == 41 {
            closers = closers + 1;
        } else if bs[i] == 40 {
            openers = openers + 1;
        }
        i = i + 1;
    }
    if closers >= openers {
        closers - openers
    } else {
        0
    }
}

} // verus!
