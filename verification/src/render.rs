use vstd::prelude::*;
use vstd::string::StrSliceExecFns;
use vstd::string::StringExecFns;

verus! {

/// The decimal digit character for a value below ten.
pub open spec fn spec_digit(d: nat) -> char {
    if d == 0 {
        '0'
    } else if d == 1 {
        '1'
    } else if d == 2 {
        '2'
    } else if d == 3 {
        '3'
    } else if d == 4 {
        '4'
    } else if d == 5 {
        '5'
    } else if d == 6 {
        '6'
    } else if d == 7 {
        '7'
    } else if d == 8 {
        '8'
    } else {
        '9'
    }
}

/// The usual decimal rendering of a number, most significant digit first,
/// no leading zeroes (a lone zero for zero itself).
pub open spec fn spec_decimal(n: nat) -> Seq<char>
    decreases n,
{
    if n < 10 {
        seq![spec_digit(n)]
    } else {
        spec_decimal(n / 10).push(spec_digit(n % 10))
    }
}

/// Display text padded on the right with spaces to at least fifty
/// characters; longer text is kept whole.
pub open spec fn spec_padded(text: Seq<char>) -> Seq<char> {
    if text.len() >= 50 {
        text
    } else {
        text + Seq::new((50 - text.len()) as nat, |i: int| ' ')
    }
}

/// One displayed journal line: the 1-based position, a dot and a space,
/// the padded text, then the date text in brackets.
pub open spec fn spec_line(pos: nat, text: Seq<char>, date: Seq<char>) -> Seq<char> {
    spec_decimal(pos) + seq!['.', ' '] + spec_padded(text) + seq![' ', '['] + date + seq![']']
}

fn digit_str(d: u64) -> (r: &'static str)
    requires
        d < 10,
    ensures
        r@ == seq![spec_digit(d as nat)],
{
    let r = match d {
        0 => "0",
        1 => "1",
        2 => "2",
        3 => "3",
        4 => "4",
        5 => "5",
        6 => "6",
        7 => "7",
        8 => "8",
        _ => "9",
    };
    proof {
        reveal_strlit("0");
        reveal_strlit("1");
        reveal_strlit("2");
        reveal_strlit("3");
        reveal_strlit("4");
        reveal_strlit("5");
        reveal_strlit("6");
        reveal_strlit("7");
        reveal_strlit("8");
        reveal_strlit("9");
        assert(r@ =~= seq![spec_digit(d as nat)]);
    }
    r
}

/// Appends the decimal rendering of `n` to `s`.
pub fn append_decimal(s: &mut String, n: u64)
    ensures
        final(s)@ == old(s)@ + spec_decimal(n as nat),
    decreases n,
{
    if n >= 10 {
        append_decimal(s, n / 10);
        let d = digit_str(n % 10);
        s.append(d);
        proof {
            assert((n / 10) as nat == (n as nat) / 10);
            assert((n % 10) as nat == (n as nat) % 10);
            assert((old(s)@ + spec_decimal((n as nat) / 10)) + seq![spec_digit((n as nat) % 10)]
                =~= old(s)@ + spec_decimal(n as nat));
        }
    } else {
        let d = digit_str(n);
        s.append(d);
        proof {
            assert(old(s)@ + seq![spec_digit(n as nat)] =~= old(s)@ + spec_decimal(n as nat));
        }
    }
}

/// Pads display text on the right with spaces to at least fifty
/// characters.
pub fn pad_text(text: &String) -> (r: String)
    ensures
        r@ == spec_padded(text@),
{
    let mut r: String = text.clone();
    let mut count: usize = text.as_str().unicode_len();
    proof {
        assert(text@ + Seq::new(0, |i: int| ' ') =~= text@);
    }
    while count < 50
        invariant
            text@.len() <= count,
            text@.len() >= 50 ==> count == text@.len(),
            text@.len() < 50 ==> count <= 50,
            r@ == text@ + Seq::new((count - text@.len()) as nat, |i: int| ' '),
        decreases 50 - count,
    {
        r.append(" ");
        count = count + 1;
        proof {
            reveal_strlit(" ");
            assert(" "@ =~= seq![' ']);
            assert((text@ + Seq::new((count - 1 - text@.len()) as nat, |i: int| ' ')) + seq![' ']
                =~= text@ + Seq::new((count - text@.len()) as nat, |i: int| ' '));
        }
    }
    proof {
        if text@.len() < 50 {
            assert(count == 50);
        } else {
            assert(text@ + Seq::new(0, |i: int| ' ') =~= text@);
        }
    }
    r
}

/// Builds one displayed journal line from a 1-based position, the entry's
/// text, and an already-rendered date text.
pub fn render_task_line(position: u64, text: &String, date: &String) -> (r: String)
    ensures
        r@ == spec_line(position as nat, text@, date@),
{
    let mut r = String::new();
    append_decimal(&mut r, position);
    r.append(". ");
    let padded = pad_text(text);
    r.append(padded.as_str());
    r.append(" [");
    r.append(date.as_str());
    r.append("]");
    proof {
        reveal_strlit(". ");
        reveal_strlit(" [");
        reveal_strlit("]");
        assert(". "@ =~= seq!['.', ' ']);
        assert(" ["@ =~= seq![' ', '[']);
        assert("]"@ =~= seq![']']);
        assert(r@ =~= spec_line(position as nat, text@, date@));
    }
    r
}

} // verus!
