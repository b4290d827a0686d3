//! Decimal digit strings: their numeric value, parsing, and canonical printing.
use vstd::prelude::*;

verus! {

/// A decimal digit character.
pub open spec fn is_digit(c: char) -> bool {
    c == '0' || c == '1' || c == '2' || c == '3' || c == '4' || c == '5' || c == '6' || c == '7'
        || c == '8' || c == '9'
}

/// The numeric value of a digit character.
pub open spec fn digit_val(c: char) -> nat {
    if c == '0' {
        0
    } else if c == '1' {
        1
    } else if c == '2' {
        2
    } else if c == '3' {
        3
    } else if c == '4' {
        4
    } else if c == '5' {
        5
    } else if c == '6' {
        6
    } else if c == '7' {
        7
    } else if c == '8' {
        8
    } else {
        9
    }
}

/// The digit character for a value below ten.
pub open spec fn digit_char(n: nat) -> char {
    if n == 0 {
        '0'
    } else if n == 1 {
        '1'
    } else if n == 2 {
        '2'
    } else if n == 3 {
        '3'
    } else if n == 4 {
        '4'
    } else if n == 5 {
        '5'
    } else if n == 6 {
        '6'
    } else if n == 7 {
        '7'
    } else if n == 8 {
        '8'
    } else {
        '9'
    }
}

/// A non-empty sequence made of digit characters only.
pub open spec fn is_num(s: Seq<char>) -> bool {
    s.len() > 0 && forall|k: int| 0 <= k < s.len() ==> is_digit(#[trigger] s[k])
}

/// The numeric value of a digit sequence, most significant digit first.
pub open spec fn str_to_nat(s: Seq<char>) -> nat
    decreases s.len(),
{
    if s.len() == 0 {
        0
    } else {
        str_to_nat(s.drop_last()) * 10 + digit_val(s.last())
    }
}

/// The canonical decimal form of a number: no leading zeros, except for zero itself.
pub open spec fn nat_to_str(n: nat) -> Seq<char>
    decreases n,
{
    if n < 10 {
        seq![digit_char(n)]
    } else {
        nat_to_str(n / 10).push(digit_char(n % 10))
    }
}

/// The canonical form is itself a digit string, and carries no leading zero.
pub proof fn lemma_nat_to_str_is_num(n: nat)
    ensures
        is_num(nat_to_str(n)),
        n > 0 ==> nat_to_str(n)[0] != '0',
    decreases n,
{
    if n < 10 {
        assert(is_digit(digit_char(n)));
    } else {
        lemma_nat_to_str_is_num(n / 10);
        assert(is_digit(digit_char(n % 10)));
        assert(nat_to_str(n / 10).push(digit_char(n % 10))[0] == nat_to_str(n / 10)[0]);
    }
}

/// Appending one digit multiplies the value by ten and adds the digit.
pub proof fn lemma_str_to_nat_push(s: Seq<char>, c: char)
    ensures
        str_to_nat(s.push(c)) == str_to_nat(s) * 10 + digit_val(c),
{
    assert(s.push(c).drop_last() =~= s);
    assert(s.push(c).last() == c);
}

/// Reading the canonical form back gives the number it was written from.
pub proof fn lemma_nat_to_str_value(n: nat)
    ensures
        str_to_nat(nat_to_str(n)) == n,
    decreases n,
{
    if n < 10 {
        assert(seq![digit_char(n)].drop_last() =~= Seq::<char>::empty());
        assert(seq![digit_char(n)].last() == digit_char(n));
        assert(str_to_nat(Seq::<char>::empty()) == 0);
        assert(str_to_nat(seq![digit_char(n)]) == str_to_nat(seq![digit_char(n)].drop_last()) * 10
            + digit_val(seq![digit_char(n)].last()));
        assert(digit_val(digit_char(n)) == n);
    } else {
        lemma_nat_to_str_value(n / 10);
        lemma_str_to_nat_push(nat_to_str(n / 10), digit_char(n % 10));
        assert(digit_val(digit_char(n % 10)) == n % 10);
        assert(n / 10 * 10 + n % 10 == n);
    }
}

/// A longer digit prefix never has a smaller value.
pub proof fn lemma_str_to_nat_prefix(s: Seq<char>, i: int, j: int)
    requires
        0 <= i <= j <= s.len(),
    ensures
        str_to_nat(s.take(i)) <= str_to_nat(s.take(j)),
    decreases j - i,
{
    if i < j {
        lemma_str_to_nat_prefix(s, i, j - 1);
        assert(s.take(j).drop_last() =~= s.take(j - 1));
        assert(str_to_nat(s.take(j)) == str_to_nat(s.take(j - 1)) * 10 + digit_val(s.take(j).last()));
    }
}

/// The numeric value of a digit character, or nothing for any other character.
fn digit_value(c: char) -> (r: Option<usize>)
    ensures
        match r {
            Some(d) => is_digit(c) && d == digit_val(c) && d < 10,
            None => !is_digit(c),
        },
{
    match c {
        '0' => Some(0),
        '1' => Some(1),
        '2' => Some(2),
        '3' => Some(3),
        '4' => Some(4),
        '5' => Some(5),
        '6' => Some(6),
        '7' => Some(7),
        '8' => Some(8),
        '9' => Some(9),
        _ => None,
    }
}

/// Read a digit string as a number; nothing when the string is not all
/// digits, is empty, or its value does not fit the machine word.
pub fn parse_usize(s: &str) -> (r: Option<usize>)
    ensures
        match r {
            Some(v) => is_num(s@) && v as nat == str_to_nat(s@),
            None => !is_num(s@) || str_to_nat(s@) > usize::MAX as nat,
        },
{
    let n = s.unicode_len();
    if n == 0 {
        return None;
    }
    let mut acc: usize = 0;
    let mut i: usize = 0;
    while i < n
        invariant
            0 < n == s@.len(),
            0 <= i <= n,
            forall|k: int| 0 <= k < i ==> is_digit(#[trigger] s@[k]),
            acc as nat == str_to_nat(s@.take(i as int)),
        decreases n - i,
    {
        let c = s.get_char(i);
        match digit_value(c) {
            None => {
                assert(!is_digit(s@[i as int]));
                return None;
            },
            Some(d) => {
                proof {
                    assert(s@.take(i + 1).drop_last() =~= s@.take(i as int));
                    assert(str_to_nat(s@.take(i + 1)) == acc as nat * 10 + digit_val(c));
                }
                if acc > usize::MAX / 10 {
                    proof {
                        lemma_str_to_nat_prefix(s@, i + 1, s@.len() as int);
                        assert(s@.take(s@.len() as int) =~= s@);
                    }
                    return None;
                }
                let shifted = acc * 10;
                if d > usize::MAX - shifted {
                    proof {
                        lemma_str_to_nat_prefix(s@, i + 1, s@.len() as int);
                        assert(s@.take(s@.len() as int) =~= s@);
                    }
                    return None;
                }
                acc = shifted + d;
                i = i + 1;
            },
        }
    }
    proof {
        assert(s@.take(n as int) =~= s@);
    }
    Some(acc)
}

/// One digit as a string slice.
pub fn digit_str(d: usize) -> (r: &'static str)
    requires
        d < 10,
    ensures
        r@ == seq![digit_char(d as nat)],
{
    match d {
        0 => {
            proof {
                reveal_strlit("0");
                assert("0"@ =~= seq![digit_char(0)]);
            }
            "0"
        },
        1 => {
            proof {
                reveal_strlit("1");
                assert("1"@ =~= seq![digit_char(1)]);
            }
            "1"
        },
        2 => {
            proof {
                reveal_strlit("2");
                assert("2"@ =~= seq![digit_char(2)]);
            }
            "2"
        },
        3 => {
            proof {
                reveal_strlit("3");
                assert("3"@ =~= seq![digit_char(3)]);
            }
            "3"
        },
        4 => {
            proof {
                reveal_strlit("4");
                assert("4"@ =~= seq![digit_char(4)]);
            }
            "4"
        },
        5 => {
            proof {
                reveal_strlit("5");
                assert("5"@ =~= seq![digit_char(5)]);
            }
            "5"
        },
        6 => {
            proof {
                reveal_strlit("6");
                assert("6"@ =~= seq![digit_char(6)]);
            }
            "6"
        },
        7 => {
            proof {
                reveal_strlit("7");
                assert("7"@ =~= seq![digit_char(7)]);
            }
            "7"
        },
        8 => {
            proof {
                reveal_strlit("8");
                assert("8"@ =~= seq![digit_char(8)]);
            }
            "8"
        },
        _ => {
            proof {
                reveal_strlit("9");
                assert("9"@ =~= seq![digit_char(9)]);
            }
            "9"
        },
    }
}

/// Write a number in canonical decimal form.
pub fn usize_to_string(n: usize) -> (r: String)
    ensures
        r@ == nat_to_str(n as nat),
{
    if n == 0 {
        let r = digit_str(0).to_owned();
        return r;
    }
    let mut m = n;
    let mut r = String::new();
    proof {
        assert(nat_to_str(n as nat) =~= nat_to_str(n as nat) + r@);
    }
    while m > 0
        invariant
            m > 0 ==> nat_to_str(n as nat) == nat_to_str(m as nat) + r@,
            m == 0 ==> nat_to_str(n as nat) == r@,
        decreases m,
    {
        let d = m % 10;
        let piece = digit_str(d);
        let joined = piece.to_owned().concat(r.as_str());
        proof {
            if m >= 10 {
                assert(nat_to_str(m as nat) == nat_to_str(m as nat / 10).push(
                    digit_char(m as nat % 10),
                ));
                assert(nat_to_str(m as nat / 10).push(digit_char(m as nat % 10)) =~= nat_to_str(
                    m as nat / 10,
                ) + seq![digit_char(m as nat % 10)]);
                assert((nat_to_str(m as nat / 10) + seq![digit_char(m as nat % 10)]) + r@
                    =~= nat_to_str(m as nat / 10) + (seq![digit_char(m as nat % 10)] + r@));
                assert(nat_to_str(n as nat) == nat_to_str(m as nat / 10) + joined@);
            } else {
                assert(nat_to_str(m as nat) == seq![digit_char(m as nat)]);
                assert(nat_to_str(n as nat) == joined@);
            }
        }
        r = joined;
        m = m / 10;
    }
    r
}

} // verus!
