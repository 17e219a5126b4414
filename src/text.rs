//! Text renderings of boards and bitboards, for diagnostics.

use vstd::prelude::*;
use vstd::std_specs::iter::IteratorSpec;

verus! {

/// Relies on `String::push`: appends the character `c` to `s`.
#[verifier::external_body]
pub(crate) fn push_char(s: &mut String, c: char)
    ensures
        final(s)@ == old(s)@.push(c),
{
    s.push(c)
}

/// The text of an 8 by 8 grid of one character per square: ranks from the
/// eighth down to the first, files from a to h, each character followed by a
/// space and each rank by a newline.
pub open spec fn grid_text(cells: Seq<char>) -> Seq<char> {
    Seq::new(
        136,
        |k: int|
            {
                let line = k / 17;
                let pos = k % 17;
                if pos == 16 {
                    '\n'
                } else if pos % 2 == 1 {
                    ' '
                } else {
                    cells[(7 - line) * 8 + pos / 2]
                }
            },
    )
}

proof fn lemma_grid_position(line: int, f: int)
    requires
        0 <= line < 8,
        0 <= f < 8,
    ensures
        (17 * line + 2 * f) / 17 == line,
        (17 * line + 2 * f) % 17 == 2 * f,
        (17 * line + 2 * f + 1) / 17 == line,
        (17 * line + 2 * f + 1) % 17 == 2 * f + 1,
{
    assert((17 * line + 2 * f) / 17 == line && (17 * line + 2 * f) % 17 == 2 * f) by (nonlinear_arith)
        requires
            0 <= line < 8,
            0 <= f < 8,
    ;
    assert((17 * line + 2 * f + 1) / 17 == line && (17 * line + 2 * f + 1) % 17 == 2 * f + 1)
        by (nonlinear_arith)
        requires
            0 <= line < 8,
            0 <= f < 8,
    ;
}

/// Renders 64 characters, indexed by square, as an 8 by 8 grid.
pub fn render_grid(cells: &Vec<char>) -> (r: String)
    requires
        cells@.len() == 64,
    ensures
        r@ == grid_text(cells@),
{
    let ghost g = grid_text(cells@);
    let mut out = String::new();
    let mut line: usize = 0;
    while line < 8
        invariant
            line <= 8,
            cells@.len() == 64,
            g == grid_text(cells@),
            out@ == g.take(17 * line as int),
        decreases 8 - line,
    {
        let rank = 7 - line;
        let mut f: usize = 0;
        while f < 8
            invariant
                f <= 8,
                line < 8,
                rank == 7 - line,
                cells@.len() == 64,
                g == grid_text(cells@),
                out@ == g.take(17 * line + 2 * f),
            decreases 8 - f,
        {
            proof {
                lemma_grid_position(line as int, f as int);
            }
            let ghost before = out@;
            push_char(&mut out, cells[rank * 8 + f]);
            push_char(&mut out, ' ');
            proof {
                assert(out@ =~= g.take(17 * line + 2 * (f + 1)));
            }
            f += 1;
        }
        proof {
            assert((17 * line + 16) % 17 == 16 && (17 * line + 16) / 17 == line) by (nonlinear_arith)
                requires
                    line < 8,
            ;
        }
        push_char(&mut out, '\n');
        proof {
            assert(out@ =~= g.take(17 * (line + 1)));
        }
        line += 1;
    }
    proof {
        assert(out@ =~= g);
    }
    out
}

/// The decimal digit for `d`, which is below ten.
pub open spec fn digit_char(d: int) -> char {
    if d == 0 {
        '0'
    } else if d == 1 {
        '1'
    } else if d == 2 {
        '2'
    } else if d == 3 {
        '3'
    } else if d == 4 {
        '4'
    } else if d == 5 {
        '5'
    } else if d == 6 {
        '6'
    } else if d == 7 {
        '7'
    } else if d == 8 {
        '8'
    } else {
        '9'
    }
}

/// The value of the decimal digit `c`, if it is one.
pub open spec fn digit_value(c: char) -> Option<int> {
    if c == '0' {
        Some(0)
    } else if c == '1' {
        Some(1)
    } else if c == '2' {
        Some(2)
    } else if c == '3' {
        Some(3)
    } else if c == '4' {
        Some(4)
    } else if c == '5' {
        Some(5)
    } else if c == '6' {
        Some(6)
    } else if c == '7' {
        Some(7)
    } else if c == '8' {
        Some(8)
    } else if c == '9' {
        Some(9)
    } else {
        None
    }
}

/// Returns the decimal digit for `d`, which is below ten.
pub fn digit(d: u32) -> (c: char)
    requires
        d < 10,
    ensures
        c == digit_char(d as int),
        digit_value(c) == Some(d as int),
{
    if d == 0 {
        '0'
    } else if d == 1 {
        '1'
    } else if d == 2 {
        '2'
    } else if d == 3 {
        '3'
    } else if d == 4 {
        '4'
    } else if d == 5 {
        '5'
    } else if d == 6 {
        '6'
    } else if d == 7 {
        '7'
    } else if d == 8 {
        '8'
    } else {
        '9'
    }
}

/// Returns the value of the decimal digit `c`, if it is one.
pub fn digit_of(c: char) -> (r: Option<u32>)
    ensures
        r matches Some(d) ==> d < 10 && digit_value(c) == Some(d as int),
        r is None <==> digit_value(c) is None,
{
    if c == '0' {
        Some(0)
    } else if c == '1' {
        Some(1)
    } else if c == '2' {
        Some(2)
    } else if c == '3' {
        Some(3)
    } else if c == '4' {
        Some(4)
    } else if c == '5' {
        Some(5)
    } else if c == '6' {
        Some(6)
    } else if c == '7' {
        Some(7)
    } else if c == '8' {
        Some(8)
    } else if c == '9' {
        Some(9)
    } else {
        None
    }
}

/// The decimal notation of `n`, without leading zeros.
pub open spec fn decimal(n: nat) -> Seq<char>
    decreases n,
{
    if n < 10 {
        seq![digit_char(n as int)]
    } else {
        decimal(n / 10).push(digit_char((n % 10) as int))
    }
}

/// Appends the decimal notation of `n` to `out`.
pub fn push_decimal(out: &mut String, n: u32)
    ensures
        final(out)@ == old(out)@ + decimal(n as nat),
{
    let mut digits: Vec<char> = Vec::new();
    let mut x: u32 = n;
    while x >= 10
        invariant
            decimal(n as nat) == decimal(x as nat) + digits@.reverse(),
        decreases x,
    {
        let ghost d = digits@;
        digits.push(digit(x % 10));
        proof {
            assert(digits@.reverse() =~= seq![digit_char((x % 10) as int)] + d.reverse());
            assert(decimal(x as nat) == decimal((x / 10) as nat).push(digit_char((x % 10) as int)));
            assert(decimal((x / 10) as nat).push(digit_char((x % 10) as int)) + d.reverse()
                =~= decimal((x / 10) as nat) + digits@.reverse());
        }
        x = x / 10;
    }
    digits.push(digit(x));
    proof {
        assert(decimal(x as nat) =~= seq![digit_char(x as int)]);
    }
    let ghost start = out@;
    let mut i: usize = digits.len();
    while i > 0
        invariant
            i <= digits@.len(),
            decimal(n as nat) == digits@.reverse(),
            out@ == start + digits@.reverse().take((digits@.len() - i) as int),
        decreases i,
    {
        i -= 1;
        let ghost before = out@;
        push_char(out, digits[i]);
        proof {
            assert(digits@.reverse()[(digits@.len() - 1 - i) as int] == digits@[i as int]);
            assert(out@ =~= start + digits@.reverse().take((digits@.len() - i) as int));
        }
    }
    proof {
        assert(digits@.reverse().take(digits@.len() as int) =~= digits@.reverse());
    }
}

/// Returns the characters of `s`.
pub fn chars_of(s: &str) -> (r: Vec<char>)
    ensures
        r@ == s@,
{
    broadcast use vstd::string::axiom_spec_iter, vstd::string::next_postcondition;

    let mut it = s.chars();
    let mut v: Vec<char> = Vec::new();
    loop
        invariant_except_break
            v@ + it.remaining() == s@,
            it.decrease() is Some,
        ensures
            v@ == s@,
        decreases it.decrease()->0,
    {
        let ghost before = it.remaining();
        match it.next() {
            Some(c) => {
                v.push(c);
                proof {
                    assert(v@ + it.remaining() =~= s@);
                }
            },
            None => {
                proof {
                    assert(v@ =~= s@);
                }
                break ;
            },
        }
    }
    v
}

/// The pieces of `s` between the spaces, as `str::split(' ')` gives them:
/// one more piece than there are spaces, empty pieces included.
pub open spec fn split_spaces(s: Seq<char>) -> Seq<Seq<char>>
    decreases s.len(),
{
    if s.len() == 0 {
        seq![Seq::empty()]
    } else {
        let t = split_spaces(s.drop_last());
        if s.last() == ' ' {
            t.push(Seq::empty())
        } else {
            t.update(t.len() - 1, t.last().push(s.last()))
        }
    }
}

proof fn lemma_split_nonempty(s: Seq<char>)
    ensures
        split_spaces(s).len() >= 1,
    decreases s.len(),
{
    if s.len() > 0 {
        lemma_split_nonempty(s.drop_last());
    }
}

/// Splits `s` at each space, as `str::split(' ')` does.
pub fn split_spaces_exec(s: &Vec<char>) -> (r: Vec<Vec<char>>)
    ensures
        r@.len() == split_spaces(s@).len(),
        forall|k: int| 0 <= k < r@.len() ==> (#[trigger] r@[k])@ == split_spaces(s@)[k],
{
    let mut done: Vec<Vec<char>> = Vec::new();
    let mut cur: Vec<char> = Vec::new();
    let mut i: usize = 0;
    while i < s.len()
        invariant
            i <= s@.len(),
            split_spaces(s@.take(i as int)).len() == done@.len() + 1,
            forall|k: int| 0 <= k < done@.len() ==> (#[trigger] done@[k])@ == split_spaces(s@.take(i as int))[k],
            cur@ == split_spaces(s@.take(i as int)).last(),
        decreases s@.len() - i,
    {
        proof {
            assert(s@.take(i + 1).drop_last() =~= s@.take(i as int));
            lemma_split_nonempty(s@.take(i as int));
        }
        let c = s[i];
        if c == ' ' {
            let finished = cur;
            done.push(finished);
            cur = Vec::new();
        } else {
            cur.push(c);
        }
        i += 1;
    }
    proof {
        assert(s@.take(s@.len() as int) =~= s@);
    }
    done.push(cur);
    done
}

/// The value of the decimal digits of `s`, most significant first.
pub open spec fn digits_value(s: Seq<char>) -> int
    decreases s.len(),
{
    if s.len() == 0 {
        0
    } else {
        digits_value(s.drop_last()) * 10 + match digit_value(s.last()) {
            Some(d) => d,
            None => 0,
        }
    }
}

/// All characters of `s` are decimal digits.
pub open spec fn all_digits(s: Seq<char>) -> bool {
    forall|i: int| 0 <= i < s.len() ==> (#[trigger] digit_value(s[i])) is Some
}

/// The number that `s` writes, as `str::parse::<u32>` reads it: an optional
/// `+` and at least one decimal digit, of a value that fits in 32 bits.
pub open spec fn number_value(s: Seq<char>) -> Option<u32> {
    let d = if s.len() > 0 && s[0] == '+' {
        s.drop_first()
    } else {
        s
    };
    if d.len() > 0 && all_digits(d) && digits_value(d) <= u32::MAX {
        Some(digits_value(d) as u32)
    } else {
        None
    }
}

proof fn lemma_digits_value_nonneg(s: Seq<char>)
    ensures
        digits_value(s) >= 0,
    decreases s.len(),
{
    if s.len() > 0 {
        lemma_digits_value_nonneg(s.drop_last());
    }
}

/// Reads the number that `s` writes, as `str::parse::<u32>` does.
pub fn parse_number(s: &Vec<char>) -> (r: Option<u32>)
    ensures
        r == number_value(s@),
{
    let mut i: usize = 0;
    if s.len() > 0 && s[0] == '+' {
        i = 1;
    }
    let ghost d = if s@.len() > 0 && s@[0] == '+' {
        s@.drop_first()
    } else {
        s@
    };
    proof {
        assert(d =~= s@.skip(i as int));
    }
    if i >= s.len() {
        return None;
    }
    let start = i;
    let mut value: u64 = 0;
    while i < s.len()
        invariant
            start <= i <= s@.len(),
            d == s@.skip(start as int),
            d == (if s@.len() > 0 && s@[0] == '+' {
                s@.drop_first()
            } else {
                s@
            }),
            all_digits(s@.subrange(start as int, i as int)),
            value == digits_value(s@.subrange(start as int, i as int)),
            value <= u32::MAX,
        decreases s@.len() - i,
    {
        proof {
            assert(s@.subrange(start as int, i + 1).drop_last() =~= s@.subrange(start as int, i as int));
            lemma_digits_value_nonneg(s@.subrange(start as int, i as int));
        }
        match digit_of(s[i]) {
            Some(x) => {
                let next = value * 10 + x as u64;
                if next > u32::MAX as u64 {
                    proof {
                        let n = (i - start + 1) as int;
                        assert(d.take(n) =~= s@.subrange(start as int, i + 1));
                        assert(digits_value(d.take(n)) == next);
                        if all_digits(d) {
                            lemma_digits_value_grows(d, n);
                        }
                    }
                    return None;
                }
                value = next;
            },
            None => {
                proof {
                    assert(d[i - start] == s@[i as int]);
                    assert(digit_value(d[i - start]) is None);
                    assert(!all_digits(d));
                }
                return None;
            },
        }
        i += 1;
    }
    proof {
        assert(s@.subrange(start as int, s@.len() as int) =~= d);
    }
    Some(value as u32)
}

proof fn lemma_digit_range(c: char)
    ensures
        digit_value(c) matches Some(x) ==> 0 <= x <= 9,
{
}

proof fn lemma_digits_value_grows(d: Seq<char>, n: int)
    requires
        0 < n <= d.len(),
        all_digits(d),
    ensures
        digits_value(d) >= digits_value(d.take(n)),
    decreases d.len(),
{
    if n == d.len() {
        assert(d.take(n) =~= d);
    } else {
        assert(d.drop_last().take(n) =~= d.take(n));
        assert(all_digits(d.drop_last()));
        lemma_digits_value_grows(d.drop_last(), n);
        lemma_digits_value_nonneg(d.drop_last());
        lemma_digit_range(d.last());
        let a = digits_value(d.drop_last());
        let x = match digit_value(d.last()) {
            Some(v) => v,
            None => 0,
        };
        assert(a * 10 + x >= a) by (nonlinear_arith)
            requires
                a >= 0,
                x >= 0,
        ;
    }
}

} // verus!
