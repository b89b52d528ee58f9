//! Exact decimal prices, read from the text that the quote provider sends.
//!
//! A price is kept as its sign, its decimal digits and the number of those
//! digits that stand after the decimal point, so that nothing is rounded.

use vstd::prelude::*;

verus! {

/// Whether `c` is one of the ASCII digits `0` to `9`.
pub open spec fn is_digit_char(c: char) -> bool {
    '0' <= c && c <= '9'
}

/// The value of the ASCII digit `c`.
pub open spec fn digit_value(c: char) -> u8 {
    (c as u32 - 48) as u8
}

/// The length of the leading sign of `s`, if any.
pub open spec fn sign_len(s: Seq<char>) -> int {
    if s.len() > 0 && (s[0] == '+' || s[0] == '-') {
        1
    } else {
        0
    }
}

/// `s` without its leading sign.
pub open spec fn unsigned_part(s: Seq<char>) -> Seq<char> {
    s.skip(sign_len(s))
}

/// How many decimal points `b` holds.
pub open spec fn dot_count(b: Seq<char>) -> nat
    decreases b.len(),
{
    if b.len() == 0 {
        0
    } else {
        dot_count(b.drop_last()) + if b.last() == '.' {
            1nat
        } else {
            0nat
        }
    }
}

/// The values of the digits of `b`, in order, the decimal point left out.
pub open spec fn digits_of(b: Seq<char>) -> Seq<u8>
    decreases b.len(),
{
    if b.len() == 0 {
        Seq::empty()
    } else if b.last() == '.' {
        digits_of(b.drop_last())
    } else {
        digits_of(b.drop_last()).push(digit_value(b.last()))
    }
}

/// How many characters of `b` follow its decimal point (0 without one).
pub open spec fn scale_of(b: Seq<char>) -> nat
    decreases b.len(),
{
    if b.len() == 0 {
        0
    } else if b.last() == '.' {
        0
    } else if dot_count(b.drop_last()) > 0 {
        scale_of(b.drop_last()) + 1
    } else {
        0
    }
}

/// Decimal text: an optional sign, then digits with at most one decimal
/// point among them, and at least one digit.
pub open spec fn is_decimal(s: Seq<char>) -> bool {
    let b = unsigned_part(s);
    &&& forall|i: int| 0 <= i < b.len() ==> is_digit_char(#[trigger] b[i]) || b[i] == '.'
    &&& dot_count(b) <= 1
    &&& digits_of(b).len() > 0
}

/// A decimal number: `(-1)^negative * digits / 10^scale`, with `digits`
/// read as a base-ten numeral.
pub struct PriceView {
    pub negative: bool,
    pub digits: Seq<u8>,
    pub scale: nat,
}

/// The number that the decimal text `s` denotes.
pub open spec fn decimal_of(s: Seq<char>) -> PriceView {
    PriceView {
        negative: s.len() > 0 && s[0] == '-',
        digits: digits_of(unsigned_part(s)),
        scale: scale_of(unsigned_part(s)),
    }
}

/// The value of the base-ten numeral whose digits are `d`.
pub open spec fn numeral_value(d: Seq<u8>) -> nat
    decreases d.len(),
{
    if d.len() == 0 {
        0
    } else {
        numeral_value(d.drop_last()) * 10 + d.last() as nat
    }
}

impl PriceView {
    /// Digits in range, at least one of them, and no more fractional digits
    /// than digits.
    pub open spec fn wf(self) -> bool {
        &&& self.digits.len() > 0
        &&& forall|i: int| 0 <= i < self.digits.len() ==> #[trigger] self.digits[i] < 10
        &&& self.scale <= self.digits.len()
    }

    /// The numerator of the price over `10^scale`.
    pub open spec fn numerator(self) -> int {
        if self.negative {
            -(numeral_value(self.digits) as int)
        } else {
            numeral_value(self.digits) as int
        }
    }
}

/// A price, exactly as written in decimal.
#[derive(Clone, Debug)]
pub struct Price {
    pub negative: bool,
    pub digits: Vec<u8>,
    pub scale: usize,
}

impl View for Price {
    type V = PriceView;

    open spec fn view(&self) -> PriceView {
        PriceView { negative: self.negative, digits: self.digits@, scale: self.scale as nat }
    }
}

proof fn lemma_dot_count_prefix(b: Seq<char>, k: int)
    requires
        0 <= k <= b.len(),
    ensures
        dot_count(b.take(k)) <= dot_count(b),
    decreases b.len(),
{
    if k < b.len() {
        lemma_dot_count_prefix(b.drop_last(), k);
        assert(b.drop_last().take(k) =~= b.take(k));
    } else {
        assert(b.take(k) =~= b);
    }
}

proof fn lemma_decimal_wf(b: Seq<char>)
    requires
        forall|i: int| 0 <= i < b.len() ==> is_digit_char(#[trigger] b[i]) || b[i] == '.',
    ensures
        scale_of(b) <= digits_of(b).len(),
        forall|i: int| 0 <= i < digits_of(b).len() ==> #[trigger] digits_of(b)[i] < 10,
    decreases b.len(),
{
    if b.len() > 0 {
        let p = b.drop_last();
        assert forall|i: int| 0 <= i < p.len() implies is_digit_char(#[trigger] p[i]) || p[i]
            == '.' by {
            assert(p[i] == b[i]);
        }
        lemma_decimal_wf(p);
        assert(is_digit_char(b[b.len() - 1]) || b[b.len() - 1] == '.');
    }
}

/// Reads decimal text: an optional `+` or `-`, then digits with at most one
/// decimal point among them, at least one digit in all. Anything else, such
/// as an exponent, a space or a thousands separator, is refused.
pub fn parse_price(s: &str) -> (r: Option<Price>)
    ensures
        r is Some <==> is_decimal(s@),
        r matches Some(p) ==> p@ == decimal_of(s@) && p@.wf(),
{
    let n = s.unicode_len();
    let mut start: usize = 0;
    let mut negative = false;
    if n > 0 {
        let c0 = s.get_char(0);
        if c0 == '-' {
            negative = true;
            start = 1;
        } else if c0 == '+' {
            start = 1;
        }
    }
    let ghost b = s@.skip(start as int);
    assert(b == unsigned_part(s@));
    let mut digits: Vec<u8> = Vec::new();
    let mut dots: usize = 0;
    let mut scale: usize = 0;
    let mut i: usize = start;
    while i < n
        invariant
            start <= i <= n,
            n == s@.len(),
            start as int == sign_len(s@),
            b == s@.skip(start as int),
            digits@ == digits_of(b.take(i - start)),
            dots as nat == dot_count(b.take(i - start)),
            dots <= 1,
            scale as nat == scale_of(b.take(i - start)),
            scale <= i,
            forall|k: int| 0 <= k < i - start ==> is_digit_char(#[trigger] b[k]) || b[k] == '.',
        decreases n - i,
    {
        let c = s.get_char(i);
        let ghost pre = b.take(i - start);
        let ghost next = b.take(i + 1 - start);
        assert(next.drop_last() =~= pre);
        assert(next.last() == c);
        if c == '.' {
            if dots == 1 {
                proof {
                    lemma_dot_count_prefix(b, i + 1 - start);
                }
                return None;
            }
            dots = 1;
        } else if '0' <= c && c <= '9' {
            digits.push((c as u32 - 48) as u8);
            if dots == 1 {
                scale = scale + 1;
            }
        } else {
            assert(!(is_digit_char(b[i - start]) || b[i - start] == '.'));
            return None;
        }
        i = i + 1;
    }
    assert(b.take(n - start) =~= b);
    if digits.len() == 0 {
        return None;
    }
    proof {
        lemma_decimal_wf(b);
    }
    Some(Price { negative, digits, scale })
}

/// The characters of the digits `d`.
pub open spec fn digit_chars(d: Seq<u8>) -> Seq<char> {
    d.map_values(|x: u8| (x + 48) as char)
}

/// The decimal text of a price: its sign when negative, the integer
/// digits, then a point and the fractional digits when there are any.
pub open spec fn text_of(p: PriceView) -> Seq<char> {
    let k = p.digits.len() - p.scale;
    let sign = if p.negative {
        seq!['-']
    } else {
        Seq::empty()
    };
    let fraction = if p.scale > 0 {
        seq!['.'] + digit_chars(p.digits.skip(k))
    } else {
        Seq::empty()
    };
    sign + digit_chars(p.digits.take(k)) + fraction
}

fn digit_str(d: u8) -> (r: &'static str)
    requires
        d < 10,
    ensures
        r@ == seq![(d + 48) as char],
{
    proof {
        reveal_strlit("0");
        reveal_strlit("1");
        reveal_strlit("2");
        reveal_strlit("3");
        reveal_strlit("4");
        reveal_strlit("5");
        reveal_strlit("6");
        reveal_strlit("7");
        reveal_strlit("8");
        reveal_strlit("9");
    }
    match d {
        0 => "0",
        1 => "1",
        2 => "2",
        3 => "3",
        4 => "4",
        5 => "5",
        6 => "6",
        7 => "7",
        8 => "8",
        _ => "9",
    }
}

impl Price {
    /// The price written out in decimal, digits as they were read.
    pub fn to_text(&self) -> (r: String)
        requires
            self@.wf(),
        ensures
            r@ == text_of(self@),
    {
        proof {
            reveal_strlit("-");
        }
        let mut out = String::new();
        if self.negative {
            out.append("-");
        }
        let ghost sign = out@;
        let n = self.digits.len();
        let k = n - self.scale;
        let mut i: usize = 0;
        while i < n
            invariant
                self@.wf(),
                n == self.digits@.len(),
                k == n - self.scale,
                i <= n,
                i <= k ==> out@ == sign + digit_chars(self.digits@.take(i as int)),
                i > k ==> out@ == sign + digit_chars(self.digits@.take(k as int)) + seq!['.']
                    + digit_chars(self.digits@.subrange(k as int, i as int)),
            decreases n - i,
        {
            if i == k {
                let ghost start_out = out@;
                proof {
                    reveal_strlit(".");
                }
                out.append(".");
                assert(out@ =~= start_out + seq!['.']);
            }
            let d = self.digits[i];
            let ghost before = out@;
            out.append(digit_str(d));
            proof {
                if i < k {
                    assert(digit_chars(self.digits@.take(i + 1)) =~= digit_chars(
                        self.digits@.take(i as int),
                    ).push((d + 48) as char));
                } else {
                    assert(digit_chars(self.digits@.subrange(k as int, i + 1)) =~= digit_chars(
                        self.digits@.subrange(k as int, i as int),
                    ).push((d + 48) as char));
                    if i == k {
                        assert(digit_chars(self.digits@.subrange(k as int, i as int))
                            =~= Seq::<char>::empty());
                    }
                    assert(before =~= sign + digit_chars(self.digits@.take(k as int)) + seq!['.']
                        + digit_chars(self.digits@.subrange(k as int, i as int)));
                    assert(out@ =~= sign + digit_chars(self.digits@.take(k as int)) + seq!['.']
                        + digit_chars(self.digits@.subrange(k as int, i + 1)));
                }
            }
            i = i + 1;
        }
        proof {
            if self.scale > 0 {
                assert(self.digits@.subrange(k as int, n as int) =~= self.digits@.skip(k as int));
            } else {
                assert(self.digits@.take(n as int) =~= self.digits@);
            }
        }
        assert(out@ =~= text_of(self@));
        out
    }
}

} // verus!
