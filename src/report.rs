use vstd::prelude::*;

use vstd::string::StringExecFns;

use crate::model::{amount, Economy, Stockpile};

verus! {

/// Ticks between two rounds of log lines.
pub const LOG_PERIOD: u32 = 150;

/// The character of a decimal digit.
pub open spec fn digit_char(d: nat) -> char {
    if d == 0 {
        '0'
    } else if d == 1 {
        '1'
    } else if d == 2 {
        '2'
    } else if d == 3 {
        '3'
    } else if d == 4 {
        '4'
    } else if d == 5 {
        '5'
    } else if d == 6 {
        '6'
    } else if d == 7 {
        '7'
    } else if d == 8 {
        '8'
    } else {
        '9'
    }
}

/// Decimal digits of `n`, without leading zeros.
pub open spec fn decimal(n: nat) -> Seq<char>
    decreases n,
{
    if n < 10 {
        seq![digit_char(n)]
    } else {
        decimal(n / 10).push(digit_char(n % 10))
    }
}

/// An amount in millionths, rounded half up to hundredths of a unit.
pub open spec fn hundredths(a: int) -> nat {
    ((a + 5000) / 10000) as nat
}

/// An amount in units with two decimals, as in `89.80`.
pub open spec fn amount_text(a: int) -> Seq<char> {
    let h = hundredths(a);
    decimal(h / 100) + seq!['.', digit_char((h % 100) / 10), digit_char(h % 10)]
}

/// The label of a stockpile, or its index when it has none.
pub open spec fn name_text(p: Stockpile, i: nat) -> Seq<char> {
    match p.label {
        Some(l) => l.0@,
        None => decimal(i),
    }
}

/// Ten to the power `n`.
pub open spec fn pow10(n: nat) -> nat
    decreases n,
{
    if n == 0 {
        1
    } else {
        10 * pow10((n - 1) as nat)
    }
}

/// The leading `places` decimals of a fraction `f / 10^places`, stopping
/// where only zeros would follow.
pub open spec fn fraction_text(f: nat, places: nat) -> Seq<char>
    decreases places,
{
    if f == 0 || places == 0 {
        Seq::empty()
    } else {
        let unit = pow10((places - 1) as nat);
        seq![digit_char(f / unit)] + fraction_text(f % unit, (places - 1) as nat)
    }
}

/// An amount in units at full precision, without trailing zeros, as in
/// `89.8` or `100`.
pub open spec fn exact_text(a: int) -> Seq<char> {
    let f = (a % 1_000_000) as nat;
    decimal((a / 1_000_000) as nat) + if f == 0 {
        Seq::empty()
    } else {
        seq!['.'] + fraction_text(f, 6)
    }
}

/// One line of text: `<name> : <amount>` and a newline, the amount at full
/// precision when `exact`, else with two decimals.
pub open spec fn readout_line(p: Stockpile, i: nat, exact: bool) -> Seq<char> {
    name_text(p, i) + seq![' ', ':', ' '] + (if exact {
        exact_text(amount(p))
    } else {
        amount_text(amount(p))
    }) + seq!['\n']
}

/// The lines of all stockpiles, in index order.
pub open spec fn readout_text(piles: Seq<Stockpile>, exact: bool) -> Seq<char>
    decreases piles.len(),
{
    if piles.len() == 0 {
        Seq::empty()
    } else {
        readout_text(piles.drop_last(), exact) + readout_line(
            piles.last(),
            (piles.len() - 1) as nat,
            exact,
        )
    }
}

/// Appends one decimal digit.
fn push_digit(s: &mut String, d: u64)
    requires
        d < 10,
    ensures
        final(s)@ == old(s)@.push(digit_char(d as nat)),
{
    proof {
        reveal_strlit("0");
        reveal_strlit("1");
        reveal_strlit("2");
        reveal_strlit("3");
        reveal_strlit("4");
        reveal_strlit("5");
        reveal_strlit("6");
        reveal_strlit("7");
        reveal_strlit("8");
        reveal_strlit("9");
    }
    if d == 0 {
        s.append("0");
    } else if d == 1 {
        s.append("1");
    } else if d == 2 {
        s.append("2");
    } else if d == 3 {
        s.append("3");
    } else if d == 4 {
        s.append("4");
    } else if d == 5 {
        s.append("5");
    } else if d == 6 {
        s.append("6");
    } else if d == 7 {
        s.append("7");
    } else if d == 8 {
        s.append("8");
    } else {
        s.append("9");
    }
}

/// Appends the decimal digits of `n`.
pub fn push_decimal(s: &mut String, n: u64)
    ensures
        final(s)@ == old(s)@ + decimal(n as nat),
    decreases n,
{
    if n < 10 {
        push_digit(s, n);
        assert(s@ =~= old(s)@ + decimal(n as nat));
    } else {
        push_decimal(s, n / 10);
        push_digit(s, n % 10);
        assert(s@ =~= old(s)@ + decimal(n as nat));
    }
}

/// Appends an amount in units with two decimals.
pub fn push_amount(s: &mut String, a: u64)
    ensures
        final(s)@ == old(s)@ + amount_text(a as int),
{
    let h: u64 = ((a as u128 + 5000) / 10000) as u64;
    assert(h as nat == hundredths(a as int));
    push_decimal(s, h / 100);
    proof {
        reveal_strlit(".");
    }
    s.append(".");
    push_digit(s, (h % 100) / 10);
    push_digit(s, h % 10);
    assert(s@ =~= old(s)@ + amount_text(a as int));
}

/// Appends the decimals of `f / 10^places`, stopping where only zeros
/// would follow.
fn push_fraction(s: &mut String, f: u64, unit: u64, places: u64)
    requires
        places <= 6,
        unit == pow10((places - 1) as nat) || places == 0,
        f < pow10(places as nat),
    ensures
        final(s)@ == old(s)@ + fraction_text(f as nat, places as nat),
    decreases places,
{
    if f == 0 || places == 0 {
        return;
    }
    proof {
        reveal_with_fuel(pow10, 7);
    }
    assert(f / unit < 10) by (nonlinear_arith)
        requires
            f < 10 * unit,
            unit > 0,
    ;
    push_digit(s, f / unit);
    let next = if places > 1 {
        unit / 10
    } else {
        0
    };
    assert(places > 1 ==> next == pow10((places - 2) as nat));
    push_fraction(s, f % unit, next, places - 1);
    assert(s@ =~= old(s)@ + fraction_text(f as nat, places as nat));
}

/// Appends an amount in units at full precision.
pub fn push_exact_amount(s: &mut String, a: u64)
    ensures
        final(s)@ == old(s)@ + exact_text(a as int),
{
    push_decimal(s, a / 1_000_000);
    let f = a % 1_000_000;
    if f != 0 {
        proof {
            reveal_strlit(".");
            reveal_with_fuel(pow10, 7);
        }
        s.append(".");
        push_fraction(s, f, 100_000, 6);
    }
    assert(s@ =~= old(s)@ + exact_text(a as int));
}

/// Counts ticks and tells when the log lines are due.
pub struct Reporter {
    pub counter: u32,
}

impl Reporter {
    /// A reporter whose first tick is due.
    pub fn new() -> (r: Reporter)
        ensures
            r.counter == 0,
    {
        Reporter { counter: 0 }
    }

    /// Advances one tick and tells whether this tick logs: the count starts
    /// again once it has gone past [`LOG_PERIOD`], and a tick logs when the
    /// count stands at zero.
    pub fn output(&mut self) -> (due: bool)
        ensures
            due == (old(self).counter == 0 || old(self).counter > LOG_PERIOD),
            final(self).counter == if old(self).counter > LOG_PERIOD {
                1
            } else {
                old(self).counter + 1
            },
    {
        if self.counter > LOG_PERIOD {
            self.counter = 0;
        }
        let due = self.counter == 0;
        self.counter = self.counter + 1;
        due
    }
}

impl Economy {
    /// Appends the readout line of stockpile `i`.
    fn push_line(&self, s: &mut String, i: usize, exact: bool)
        requires
            i < self.stockpiles@.len(),
        ensures
            final(s)@ == old(s)@ + readout_line(self.stockpiles@[i as int], i as nat, exact),
    {
        match &self.stockpiles[i].label {
            Some(l) => s.append(l.0.as_str()),
            None => push_decimal(s, i as u64),
        }
        proof {
            reveal_strlit(" : ");
            reveal_strlit("\n");
        }
        s.append(" : ");
        if exact {
            push_exact_amount(s, self.stockpiles[i].storage.0);
        } else {
            push_amount(s, self.stockpiles[i].storage.0);
        }
        s.append("\n");
        assert(s@ =~= old(s)@ + readout_line(self.stockpiles@[i as int], i as nat, exact));
    }

    fn lines(&self, exact: bool) -> (r: String)
        ensures
            r@ == readout_text(self.stockpiles@, exact),
    {
        let mut s = String::new();
        let n = self.stockpiles.len();
        let mut i: usize = 0;
        while i < n
            invariant
                0 <= i <= n,
                n == self.stockpiles@.len(),
                s@ == readout_text(self.stockpiles@.subrange(0, i as int), exact),
            decreases n - i,
        {
            assert(self.stockpiles@.subrange(0, i + 1).drop_last() == self.stockpiles@.subrange(0, i as int));
            self.push_line(&mut s, i, exact);
            i = i + 1;
        }
        assert(self.stockpiles@.subrange(0, n as int) == self.stockpiles@);
        s
    }

    /// Every stockpile as a line `<label or index> : <amount>`, the amount
    /// in units with two decimals, for display.
    pub fn readout(&self) -> (r: String)
        ensures
            r@ == readout_text(self.stockpiles@, false),
    {
        self.lines(false)
    }

    /// Every stockpile as a line `<label or index> : <amount>`, the amount
    /// in units at full precision, for the log.
    pub fn log_text(&self) -> (r: String)
        ensures
            r@ == readout_text(self.stockpiles@, true),
    {
        self.lines(true)
    }
}

} // verus!
