//! Numbers written out, as the player reads them.
use vstd::prelude::*;
use vstd::string::StringExecFns;

verus! {

/// The figure for a number below ten.
pub open spec fn figure(d: nat) -> Seq<char> {
    if d == 0 {
        "0"@
    } else if d == 1 {
        "1"@
    } else if d == 2 {
        "2"@
    } else if d == 3 {
        "3"@
    } else if d == 4 {
        "4"@
    } else if d == 5 {
        "5"@
    } else if d == 6 {
        "6"@
    } else if d == 7 {
        "7"@
    } else if d == 8 {
        "8"@
    } else {
        "9"@
    }
}

/// A number in figures.
pub open spec fn decimal(n: nat) -> Seq<char>
    decreases n,
{
    if n < 10 {
        figure(n)
    } else {
        decimal(n / 10) + figure(n % 10)
    }
}

/// A whole number in figures, with its sign if it is negative.
pub open spec fn signed(n: int) -> Seq<char> {
    if n < 0 {
        "-"@ + decimal((-n) as nat)
    } else {
        decimal(n as nat)
    }
}

fn figure_of(d: u64) -> (r: &'static str)
    requires
        d < 10,
    ensures
        r@ == figure(d as nat),
{
    if d == 0 {
        "0"
    } else if d == 1 {
        "1"
    } else if d == 2 {
        "2"
    } else if d == 3 {
        "3"
    } else if d == 4 {
        "4"
    } else if d == 5 {
        "5"
    } else if d == 6 {
        "6"
    } else if d == 7 {
        "7"
    } else if d == 8 {
        "8"
    } else {
        "9"
    }
}

/// Write a number at the end of a text.
pub fn push_number(s: &mut String, n: u64)
    ensures
        final(s)@ == old(s)@ + decimal(n as nat),
    decreases n,
{
    if n >= 10 {
        push_number(s, n / 10);
    }
    let ghost mid = s@;
    s.append(figure_of(n % 10));
    proof {
        if n >= 10 {
            assert(s@ =~= old(s)@ + (decimal((n / 10) as nat) + figure((n % 10) as nat)));
        }
    }
}

/// Write a whole number at the end of a text.
pub fn push_signed(s: &mut String, n: i64)
    ensures
        final(s)@ == old(s)@ + signed(n as int),
{
    if n < 0 {
        s.append("-");
        let size: u64 = if n == i64::MIN {
            0x8000_0000_0000_0000
        } else {
            (-n) as u64
        };
        push_number(s, size);
        assert(s@ =~= old(s)@ + ("-"@ + decimal((-n) as nat)));
    } else {
        push_number(s, n as u64);
    }
}

/// Different numbers are written differently.
pub proof fn figures_tell_numbers_apart(a: nat, b: nat)
    requires
        decimal(a) == decimal(b),
    ensures
        a == b,
    decreases a,
{
    figures_are_single(a % 10);
    figures_are_single(b % 10);
    if a < 10 && b < 10 {
        figures_differ(a, b);
    } else if a < 10 {
        numbers_are_written(b / 10);
        figures_are_single(a);
        assert(decimal(b).len() > 1);
    } else if b < 10 {
        numbers_are_written(a / 10);
        figures_are_single(b);
        assert(decimal(a).len() > 1);
    } else {
        let x = decimal(a / 10);
        let y = decimal(b / 10);
        assert(decimal(a).drop_last() =~= x);
        assert(decimal(b).drop_last() =~= y);
        assert(decimal(a).last() == figure(a % 10)[0]);
        assert(decimal(b).last() == figure(b % 10)[0]);
        assert(figure(a % 10) =~= figure(b % 10));
        figures_tell_numbers_apart(a / 10, b / 10);
        figures_differ(a % 10, b % 10);
    }
}

proof fn numbers_are_written(n: nat)
    ensures
        decimal(n).len() >= 1,
    decreases n,
{
    figures_are_single(n % 10);
    if n < 10 {
        figures_are_single(n);
    }
}

/// What the figures look like.
pub(crate) proof fn reveal_figures()
    ensures
        "0"@ == seq!['0'],
        "1"@ == seq!['1'],
        "2"@ == seq!['2'],
        "3"@ == seq!['3'],
        "4"@ == seq!['4'],
        "5"@ == seq!['5'],
        "6"@ == seq!['6'],
        "7"@ == seq!['7'],
        "8"@ == seq!['8'],
        "9"@ == seq!['9'],
{
    reveal_strlit("0");
    reveal_strlit("1");
    reveal_strlit("2");
    reveal_strlit("3");
    reveal_strlit("4");
    reveal_strlit("5");
    reveal_strlit("6");
    reveal_strlit("7");
    reveal_strlit("8");
    reveal_strlit("9");
    assert("0"@ =~= seq!['0']);
    assert("1"@ =~= seq!['1']);
    assert("2"@ =~= seq!['2']);
    assert("3"@ =~= seq!['3']);
    assert("4"@ =~= seq!['4']);
    assert("5"@ =~= seq!['5']);
    assert("6"@ =~= seq!['6']);
    assert("7"@ =~= seq!['7']);
    assert("8"@ =~= seq!['8']);
    assert("9"@ =~= seq!['9']);
}

proof fn figures_are_single(d: nat)
    ensures
        figure(d).len() == 1,
{
    reveal_figures();
}

proof fn figures_differ(a: nat, b: nat)
    requires
        a < 10,
        b < 10,
        figure(a) == figure(b),
    ensures
        a == b,
{
    reveal_figures();
    assert(figure(a)[0] as int == 48 + a);
    assert(figure(b)[0] as int == 48 + b);
}

} // verus!
