//! Segment ids: a prefix and a count, written in decimal.

use crate::error::{ErrorKind, MeltError};
use crate::utils::text::{all_decimal_digits, digits_value, is_decimal_digit};
use vstd::prelude::*;

verus! {

/// The decimal digits of a number, without leading zeros.
pub open spec fn decimal_text(n: nat) -> Seq<char>
    decreases n,
{
    if n < 10 {
        seq![digit_char(n)]
    } else {
        decimal_text(n / 10).push(digit_char(n % 10))
    }
}

/// The character of a digit.
pub open spec fn digit_char(d: nat) -> char {
    if d == 0 {
        '0'
    } else if d == 1 {
        '1'
    } else if d == 2 {
        '2'
    } else if d == 3 {
        '3'
    } else if d == 4 {
        '4'
    } else if d == 5 {
        '5'
    } else if d == 6 {
        '6'
    } else if d == 7 {
        '7'
    } else if d == 8 {
        '8'
    } else {
        '9'
    }
}

/// The digits of a number stand for the number.
pub proof fn lemma_decimal_text_is_read(n: nat)
    ensures
        decimal_text(n).len() > 0,
        all_decimal_digits(decimal_text(n)),
        digits_value(decimal_text(n)) == n,
    decreases n,
{
    if n < 10 {
        assert(seq![digit_char(n)].drop_last() =~= Seq::<char>::empty());
        assert(digits_value(Seq::<char>::empty()) == 0);
    } else {
        lemma_decimal_text_is_read(n / 10);
        let head = decimal_text(n / 10);
        assert(head.push(digit_char(n % 10)).drop_last() =~= head);
        assert forall|i: int| 0 <= i < decimal_text(n).len() implies is_decimal_digit(
            #[trigger] decimal_text(n)[i],
        ) by {
            if i < head.len() {
                assert(decimal_text(n)[i] == head[i]);
            }
        }
    }
}

/// Two numbers never have the same digits.
pub proof fn lemma_decimal_text_differs(a: nat, b: nat)
    requires
        a != b,
    ensures
        decimal_text(a) != decimal_text(b),
{
    lemma_decimal_text_is_read(a);
    lemma_decimal_text_is_read(b);
}

fn digit_str(d: u64) -> (s: &'static str)
    requires
        d < 10,
    ensures
        s@ == seq![digit_char(d as nat)],
{
    proof {
        reveal_strlit("0");
        reveal_strlit("1");
        reveal_strlit("2");
        reveal_strlit("3");
        reveal_strlit("4");
        reveal_strlit("5");
        reveal_strlit("6");
        reveal_strlit("7");
        reveal_strlit("8");
        reveal_strlit("9");
        assert("0"@ =~= seq!['0']);
        assert("1"@ =~= seq!['1']);
        assert("2"@ =~= seq!['2']);
        assert("3"@ =~= seq!['3']);
        assert("4"@ =~= seq!['4']);
        assert("5"@ =~= seq!['5']);
        assert("6"@ =~= seq!['6']);
        assert("7"@ =~= seq!['7']);
        assert("8"@ =~= seq!['8']);
        assert("9"@ =~= seq!['9']);
    }
    if d == 0 {
        "0"
    } else if d == 1 {
        "1"
    } else if d == 2 {
        "2"
    } else if d == 3 {
        "3"
    } else if d == 4 {
        "4"
    } else if d == 5 {
        "5"
    } else if d == 6 {
        "6"
    } else if d == 7 {
        "7"
    } else if d == 8 {
        "8"
    } else {
        "9"
    }
}

/// Writes the decimal digits of `n` behind `out`.
pub fn write_decimal(n: u64, out: &mut String)
    ensures
        final(out)@ == old(out)@ + decimal_text(n as nat),
    decreases n,
{
    if n >= 10 {
        write_decimal(n / 10, out);
    }
    let ghost before = out@;
    out.append(digit_str(n % 10));
    proof {
        if n >= 10 {
            assert(out@ =~= old(out)@ + decimal_text(n as nat));
        }
    }
}

/// The segment id with the count `n` under `prefix`.
pub open spec fn id_text(prefix: Seq<char>, n: u64) -> Seq<char> {
    prefix + "-"@ + decimal_text(n as nat)
}

/// A source of segment ids: a prefix, and a count that only grows.
#[derive(Debug)]
pub struct IdGenerator {
    prefix: String,
    next: u64,
}

/// A generator as mathematics sees it.
pub struct IdGeneratorView {
    pub prefix: Seq<char>,
    pub next: u64,
}

impl View for IdGenerator {
    type V = IdGeneratorView;

    closed spec fn view(&self) -> IdGeneratorView {
        IdGeneratorView { prefix: self.prefix@, next: self.next }
    }
}

impl IdGenerator {
    /// A generator that has given no id yet.
    pub fn new(prefix: &str) -> (g: IdGenerator)
        ensures
            g@ == (IdGeneratorView { prefix: prefix@, next: 0 }),
    {
        IdGenerator { prefix: prefix.to_owned(), next: 0 }
    }

    /// The next id. It differs from the id of every other count under the same prefix, so that
    /// one generator never gives the same id twice. Fails once the count is used up.
    pub fn gen_id(&mut self) -> (r: Result<String, MeltError>)
        ensures
            final(self)@.prefix == old(self)@.prefix,
            match r {
                Ok(id) => old(self)@.next < u64::MAX && final(self)@.next == old(self)@.next + 1
                    && id@ == id_text(old(self)@.prefix, old(self)@.next) && forall|m: u64|
                    m != old(self)@.next ==> id_text(old(self)@.prefix, m) != id@,
                Err(e) => old(self)@.next == u64::MAX && final(self)@ == old(self)@ && e.kind
                    == ErrorKind::Internal,
            },
    {
        if self.next == u64::MAX {
            return Err(MeltError::internal("segment ids are used up"));
        }
        let mut id = self.prefix.clone();
        id.append("-");
        write_decimal(self.next, &mut id);
        proof {
            let head = self.prefix@ + "-"@;
            let digits = decimal_text(self.next as nat);
            assert forall|m: u64| m != self.next implies id_text(self.prefix@, m) != id@ by {
                lemma_decimal_text_differs(m as nat, self.next as nat);
                if id_text(self.prefix@, m) == id@ {
                    assert((head + decimal_text(m as nat)).skip(head.len() as int) =~= decimal_text(
                        m as nat,
                    ));
                    assert((head + digits).skip(head.len() as int) =~= digits);
                }
            }
        }
        self.next = self.next + 1;
        Ok(id)
    }
}

} // verus!
