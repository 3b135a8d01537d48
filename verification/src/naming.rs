//! The names of the files that a job writes, and whether it may write them.

use vstd::prelude::*;
use vstd::string::*;

verus! {

/// The position of the last dot among the first `upto` characters of a
/// name; -1 where there is none.
pub open spec fn last_dot(name: Seq<char>, upto: int) -> int
    decreases upto,
{
    if upto <= 0 {
        -1
    } else if name[upto - 1] == '.' {
        upto - 1
    } else {
        last_dot(name, upto - 1)
    }
}

/// A file name without its extension: what stands before the last dot.  A
/// name without a dot, or with its only dot in front, is its own stem.
pub open spec fn stem(name: Seq<char>) -> Seq<char> {
    let dot = last_dot(name, name.len() as int);
    if dot <= 0 {
        name
    } else {
        name.take(dot)
    }
}

/// The character of a decimal digit.
pub open spec fn digit_char(d: int) -> char {
    if d == 0 {
        '0'
    } else if d == 1 {
        '1'
    } else if d == 2 {
        '2'
    } else if d == 3 {
        '3'
    } else if d == 4 {
        '4'
    } else if d == 5 {
        '5'
    } else if d == 6 {
        '6'
    } else if d == 7 {
        '7'
    } else if d == 8 {
        '8'
    } else {
        '9'
    }
}

/// A number in decimal digits.
pub open spec fn decimal(n: nat) -> Seq<char>
    decreases n,
{
    if n < 10 {
        seq![digit_char(n as int)]
    } else {
        decimal(n / 10).push(digit_char((n % 10) as int))
    }
}

/// What a job's settings add to the stem: `.kcp`, the iteration cap, `n`
/// and the number of colours.
pub open spec fn tag(round: nat, colors: nat) -> Seq<char> {
    seq!['.', 'k', 'c', 'p'] + decimal(round) + seq!['n'] + decimal(colors)
}

/// The name of the output file: the stem, the tag and the extension,
/// `jpeg` for a lossy output and `png` for a lossless one.
pub open spec fn output_name(name: Seq<char>, round: nat, colors: nat, lossy: bool) -> Seq<char> {
    stem(name) + tag(round, colors) + if lossy {
        seq!['.', 'j', 'p', 'e', 'g']
    } else {
        seq!['.', 'p', 'n', 'g']
    }
}

/// The name of the palette file: the stem, the tag and `.palette.png`.
pub open spec fn palette_name(name: Seq<char>, round: nat, colors: nat) -> Seq<char> {
    stem(name) + tag(round, colors) + seq![
        '.',
        'p',
        'a',
        'l',
        'e',
        't',
        't',
        'e',
        '.',
        'p',
        'n',
        'g',
    ]
}

fn digit_str(d: usize) -> (s: &'static str)
    requires
        d < 10,
    ensures
        s@ == seq![digit_char(d as int)],
{
    proof {
        reveal_strlit("0");
        reveal_strlit("1");
        reveal_strlit("2");
        reveal_strlit("3");
        reveal_strlit("4");
        reveal_strlit("5");
        reveal_strlit("6");
        reveal_strlit("7");
        reveal_strlit("8");
        reveal_strlit("9");
    }
    let s = if d == 0 {
        "0"
    } else if d == 1 {
        "1"
    } else if d == 2 {
        "2"
    } else if d == 3 {
        "3"
    } else if d == 4 {
        "4"
    } else if d == 5 {
        "5"
    } else if d == 6 {
        "6"
    } else if d == 7 {
        "7"
    } else if d == 8 {
        "8"
    } else {
        "9"
    };
    assert(s@ =~= seq![digit_char(d as int)]);
    s
}

/// Appends a number in decimal digits.
pub fn push_decimal(text: String, n: usize) -> (r: String)
    ensures
        r@ == text@ + decimal(n as nat),
    decreases n,
{
    if n < 10 {
        let r = text.concat(digit_str(n));
        r
    } else {
        let front = push_decimal(text, n / 10);
        let r = front.concat(digit_str(n % 10));
        assert(r@ =~= text@ + decimal(n as nat));
        r
    }
}

/// The stem of a file name.
pub fn file_stem(name: &str) -> (s: &str)
    ensures
        s@ == stem(name@),
{
    let n = name.unicode_len();
    let mut dot: usize = 0;
    let mut found = false;
    let mut i: usize = 0;
    while i < n
        invariant
            0 <= i <= n,
            n == name@.len(),
            found ==> dot == last_dot(name@, i as int),
            !found ==> last_dot(name@, i as int) == -1,
            found ==> dot < i,
        decreases n - i,
    {
        if name.get_char(i) == '.' {
            dot = i;
            found = true;
        }
        i += 1;
    }
    if found && dot > 0 {
        name.substring_char(0, dot)
    } else {
        name
    }
}

fn tagged(name: &str, round: usize, colors: usize) -> (r: String)
    ensures
        r@ == stem(name@) + tag(round as nat, colors as nat),
{
    proof {
        reveal_strlit(".kcp");
        reveal_strlit("n");
    }
    let text = String::from_str(file_stem(name));
    let text = text.concat(".kcp");
    let text = push_decimal(text, round);
    let text = text.concat("n");
    let text = push_decimal(text, colors);
    assert(text@ =~= stem(name@) + tag(round as nat, colors as nat));
    text
}

/// The name of the output file of a job, from the name of its input file.
pub fn output_file_name(name: &str, round: usize, colors: usize, jpeg: u32) -> (r: String)
    ensures
        r@ == output_name(name@, round as nat, colors as nat, jpeg > 0),
{
    proof {
        reveal_strlit(".jpeg");
        reveal_strlit(".png");
    }
    let text = tagged(name, round, colors);
    let r = if jpeg > 0 {
        text.concat(".jpeg")
    } else {
        text.concat(".png")
    };
    assert(r@ =~= output_name(name@, round as nat, colors as nat, jpeg > 0));
    r
}

/// The name of the palette file of a job, from the name of its input file.
pub fn palette_file_name(name: &str, round: usize, colors: usize) -> (r: String)
    ensures
        r@ == palette_name(name@, round as nat, colors as nat),
{
    proof {
        reveal_strlit(".palette.png");
    }
    let text = tagged(name, round, colors);
    let r = text.concat(".palette.png");
    assert(r@ =~= palette_name(name@, round as nat, colors as nat));
    r
}

/// What stands at the path that a job would write to.
#[derive(Clone, Copy, Debug, PartialEq, Eq, Structural)]
pub enum Existing {
    /// Nothing.
    Nothing,
    /// A file.
    File,
    /// Something that is no file, such as a directory.
    Other,
}

/// Whether a job may write its output: where nothing stands at the path,
/// or where a file does and overwriting is allowed.  A job that may not is
/// skipped, which is no error.
pub fn may_write(existing: Existing, overwrite: bool) -> (r: bool)
    ensures
        r == (existing == Existing::Nothing || (overwrite && existing == Existing::File)),
{
    match existing {
        Existing::Nothing => true,
        Existing::File => overwrite,
        Existing::Other => false,
    }
}

} // verus!
