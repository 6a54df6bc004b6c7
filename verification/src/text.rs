use vstd::prelude::*;

verus! {

/// The decimal digit of `d`.
pub open spec fn digit_char(d: nat) -> char {
    if d == 0 {
        '0'
    } else if d == 1 {
        '1'
    } else if d == 2 {
        '2'
    } else if d == 3 {
        '3'
    } else if d == 4 {
        '4'
    } else if d == 5 {
        '5'
    } else if d == 6 {
        '6'
    } else if d == 7 {
        '7'
    } else if d == 8 {
        '8'
    } else {
        '9'
    }
}

/// The decimal digits of `n`, most significant first.
pub open spec fn digits(n: nat) -> Seq<char>
    decreases n,
{
    if n < 10 {
        seq![digit_char(n)]
    } else {
        digits(n / 10).push(digit_char(n % 10))
    }
}

/// The text of a signed number: its digits, after a minus sign where it is negative.
pub open spec fn signed_digits(n: int) -> Seq<char> {
    if n < 0 {
        seq!['-'] + digits((-n) as nat)
    } else {
        digits(n as nat)
    }
}

fn digit_str(d: u64) -> (r: &'static str)
    requires
        d < 10,
    ensures
        r@ == seq![digit_char(d as nat)],
{
    if d == 0 {
        proof {
            reveal_strlit("0");
        }
        "0"
    } else if d == 1 {
        proof {
            reveal_strlit("1");
        }
        "1"
    } else if d == 2 {
        proof {
            reveal_strlit("2");
        }
        "2"
    } else if d == 3 {
        proof {
            reveal_strlit("3");
        }
        "3"
    } else if d == 4 {
        proof {
            reveal_strlit("4");
        }
        "4"
    } else if d == 5 {
        proof {
            reveal_strlit("5");
        }
        "5"
    } else if d == 6 {
        proof {
            reveal_strlit("6");
        }
        "6"
    } else if d == 7 {
        proof {
            reveal_strlit("7");
        }
        "7"
    } else if d == 8 {
        proof {
            reveal_strlit("8");
        }
        "8"
    } else {
        proof {
            reveal_strlit("9");
        }
        "9"
    }
}

/// Appends the decimal digits of `n`.
pub fn push_digits(out: &mut String, n: u64)
    ensures
        final(out)@ == old(out)@ + digits(n as nat),
    decreases n,
{
    if n < 10 {
        out.append(digit_str(n));
    } else {
        push_digits(out, n / 10);
        out.append(digit_str(n % 10));
        assert(digits(n as nat) == digits((n / 10) as nat).push(digit_char((n % 10) as nat)));
        assert(old(out)@ + digits((n / 10) as nat) + seq![digit_char((n % 10) as nat)] =~= old(out)@ + digits(n as nat));
    }
}

/// Appends a piece of text.
pub fn push_str(out: &mut String, s: &str)
    ensures
        final(out)@ == old(out)@ + s@,
{
    out.append(s);
}

/// A value that can describe itself as text.
pub trait ValueText {
    /// The text of the value.
    spec fn spec_text(&self) -> Seq<char>;

    /// Appends the text of the value.
    fn push_text(&self, out: &mut String)
        ensures
            final(out)@ == old(out)@ + self.spec_text(),
    ;
}

impl ValueText for u64 {
    open spec fn spec_text(&self) -> Seq<char> {
        digits(*self as nat)
    }

    fn push_text(&self, out: &mut String) {
        push_digits(out, *self);
    }
}

impl ValueText for u32 {
    open spec fn spec_text(&self) -> Seq<char> {
        digits(*self as nat)
    }

    fn push_text(&self, out: &mut String) {
        push_digits(out, *self as u64);
    }
}

impl ValueText for usize {
    open spec fn spec_text(&self) -> Seq<char> {
        digits(*self as nat)
    }

    fn push_text(&self, out: &mut String) {
        push_digits(out, *self as u64);
    }
}

impl ValueText for i32 {
    open spec fn spec_text(&self) -> Seq<char> {
        signed_digits(*self as int)
    }

    fn push_text(&self, out: &mut String) {
        let v = *self as i64;
        if v < 0 {
            proof {
                reveal_strlit("-");
            }
            out.append("-");
            push_digits(out, (-v) as u64);
            assert(old(out)@ + seq!['-'] + digits((-v) as nat) =~= old(out)@ + (seq!['-'] + digits((-v) as nat)));
        } else {
            push_digits(out, v as u64);
        }
    }
}

impl ValueText for bool {
    open spec fn spec_text(&self) -> Seq<char> {
        if *self {
            seq!['t', 'r', 'u', 'e']
        } else {
            seq!['f', 'a', 'l', 's', 'e']
        }
    }

    fn push_text(&self, out: &mut String) {
        if *self {
            proof {
                reveal_strlit("true");
            }
            out.append("true");
        } else {
            proof {
                reveal_strlit("false");
            }
            out.append("false");
        }
    }
}

impl ValueText for String {
    /// A string is shown between double quotes.
    open spec fn spec_text(&self) -> Seq<char> {
        seq!['"'] + self@ + seq!['"']
    }

    fn push_text(&self, out: &mut String) {
        proof {
            reveal_strlit("\"");
        }
        out.append("\"");
        out.append(self.as_str());
        out.append("\"");
        assert(old(out)@ + seq!['"'] + self@ + seq!['"'] =~= old(out)@ + (seq!['"'] + self@ + seq!['"']));
    }
}

} // verus!
